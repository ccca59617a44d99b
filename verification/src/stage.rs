use vstd::prelude::*;

use crate::MaybeLimited;
use crate::command::Command;
use crate::judge::Lang;
use crate::manifest::Limits;
use crate::text::str_eq;

verus! {

/// `s` with every occurrence of `pat` replaced by `sub`, scanning left to
/// right without overlap; an empty pattern changes nothing.
pub open spec fn spec_replace(s: Seq<char>, pat: Seq<char>, sub: Seq<char>) -> Seq<char>
    decreases s.len(),
{
    if pat.len() == 0 || s.len() < pat.len() {
        s
    } else if s.take(pat.len() as int) == pat {
        sub + spec_replace(s.skip(pat.len() as int), pat, sub)
    } else {
        seq![s[0]] + spec_replace(s.skip(1), pat, sub)
    }
}

/// Replaces every occurrence of `pat` in `s` by `sub`.
pub fn replace_all(s: &str, pat: &str, sub: &str) -> (r: String)
    ensures
        r@ == spec_replace(s@, pat@, sub@),
{
    let plen = pat.unicode_len();
    let len = s.unicode_len();
    if plen == 0 {
        return String::from_str(s);
    }
    let mut r = String::new();
    let mut i: usize = 0;
    proof {
        assert(s@.skip(0) =~= s@);
        assert(r@ + spec_replace(s@, pat@, sub@) =~= spec_replace(s@, pat@, sub@));
    }
    while i < len
        invariant
            plen == pat@.len(),
            plen > 0,
            len == s@.len(),
            0 <= i <= len,
            spec_replace(s@, pat@, sub@) == r@ + spec_replace(s@.skip(i as int), pat@, sub@),
        decreases len - i,
    {
        let ghost rem = s@.skip(i as int);
        if plen <= len - i && str_eq(s.substring_char(i, i + plen), pat) {
            proof {
                assert(s@.subrange(i as int, i + plen) =~= rem.take(plen as int));
                assert(rem.take(plen as int) == pat@);
                assert(rem.skip(plen as int) =~= s@.skip(i + plen));
                assert(spec_replace(rem, pat@, sub@) == sub@ + spec_replace(
                    s@.skip(i + plen),
                    pat@,
                    sub@,
                ));
                assert(r@ + (sub@ + spec_replace(s@.skip(i + plen), pat@, sub@)) =~= (r@ + sub@)
                    + spec_replace(s@.skip(i + plen), pat@, sub@));
            }
            r.append(sub);
            i = i + plen;
        } else {
            proof {
                if i + plen <= len {
                    assert(s@.subrange(i as int, i + plen) =~= rem.take(plen as int));
                    assert(rem.take(plen as int) != pat@);
                } else {
                    assert(rem.len() < plen);
                }
                assert(rem[0] == s@[i as int]);
                assert(rem.skip(1) =~= s@.skip(i + 1));
                assert(spec_replace(rem, pat@, sub@) == seq![s@[i as int]] + spec_replace(
                    s@.skip(i + 1),
                    pat@,
                    sub@,
                ));
                assert(s@.subrange(i as int, i + 1) =~= seq![s@[i as int]]);
                assert(r@ + (seq![s@[i as int]] + spec_replace(s@.skip(i + 1), pat@, sub@)) =~= (r@
                    + seq![s@[i as int]]) + spec_replace(s@.skip(i + 1), pat@, sub@));
            }
            r.append(s.substring_char(i, i + 1));
            i = i + 1;
        }
    }
    proof {
        assert(s@.skip(len as int) =~= Seq::<char>::empty());
        assert(spec_replace(Seq::<char>::empty(), pat@, sub@) =~= Seq::<char>::empty());
        assert(r@ + Seq::<char>::empty() =~= r@);
    }
    r
}

/// The compile command templates, one per language. `$SOURCE` and `$OUTPUT`
/// are the substitution points.
#[derive(Debug, Clone)]
pub struct JudgeConfig {
    pub compile_gpp: String,
    pub compile_python: String,
}

impl Default for JudgeConfig {
    /// The stock templates: g++ with optimizations, and a plain copy for
    /// python sources.
    fn default() -> (r: Self)
        ensures
            r.compile_gpp@ == "/usr/bin/g++ $SOURCE -o $OUTPUT -O2 -Wall -lm"@,
            r.compile_python@ == "/usr/bin/cp --update=none $SOURCE $OUTPUT"@,
    {
        JudgeConfig {
            compile_gpp: String::from_str("/usr/bin/g++ $SOURCE -o $OUTPUT -O2 -Wall -lm"),
            compile_python: String::from_str("/usr/bin/cp --update=none $SOURCE $OUTPUT"),
        }
    }
}

/// The template of `lang` with the source and output names substituted in.
pub open spec fn spec_compilation_command(
    cfg_gpp: Seq<char>,
    cfg_python: Seq<char>,
    lang: Lang,
    name: Seq<char>,
    result: Seq<char>,
) -> Seq<char> {
    let template = match lang {
        Lang::Gpp => cfg_gpp,
        Lang::Python => cfg_python,
    };
    spec_replace(spec_replace(template, "$SOURCE"@, name), "$OUTPUT"@, result)
}

impl JudgeConfig {
    /// Resolves the compile command for `lang`, the source file standing for
    /// `$SOURCE` and the artifact for `$OUTPUT`.
    pub fn compilation_command(&self, lang: Lang, name: &str, result: &str) -> (r: String)
        ensures
            r@ == spec_compilation_command(
                self.compile_gpp@,
                self.compile_python@,
                lang,
                name@,
                result@,
            ),
    {
        let template = match lang {
            Lang::Gpp => self.compile_gpp.as_str(),
            Lang::Python => self.compile_python.as_str(),
        };
        let with_source = replace_all(template, "$SOURCE", name);
        replace_all(with_source.as_str(), "$OUTPUT", result)
    }
}

/// The words of a command line: the pieces between spaces, empties dropped.
pub open spec fn spec_words(s: Seq<char>) -> Seq<Seq<char>> {
    crate::text::spec_split(s, ' ').filter(|t: Seq<char>| t.len() > 0)
}

/// Splits a command line into its words.
pub fn split_words(s: &str) -> (r: Vec<String>)
    ensures
        r@.map_values(|t: String| t@) == spec_words(s@),
{
    let pieces = crate::text::split_char(s, ' ');
    let mut r: Vec<String> = Vec::new();
    let n = pieces.len();
    let mut i: usize = 0;
    let ghost pv = pieces@.map_values(|t: String| t@);
    proof {
        assert(pv.take(0) =~= Seq::<Seq<char>>::empty());
        assert(pv.take(0).filter(|t: Seq<char>| t.len() > 0) =~= Seq::<Seq<char>>::empty());
        assert(r@.map_values(|t: String| t@) =~= pv.take(0).filter(|t: Seq<char>| t.len() > 0));
    }
    while i < n
        invariant
            n == pieces@.len(),
            pv == pieces@.map_values(|t: String| t@),
            0 <= i <= n,
            r@.map_values(|t: String| t@) == pv.take(i as int).filter(|t: Seq<char>| t.len() > 0),
        decreases n - i,
    {
        let piece = &pieces[i];
        proof {
            assert(pv[i as int] == pieces@[i as int]@);
            assert(pv.take(i + 1) =~= pv.take(i as int).push(pv[i as int]));
            Seq::lemma_filter_push(pv.take(i as int), pv[i as int], |t: Seq<char>| t.len() > 0);
        }
        if piece.as_str().unicode_len() > 0 {
            let copy = String::from_str(piece.as_str());
            proof {
                assert(r@.push(copy).map_values(|t: String| t@) =~= r@.map_values(
                    |t: String| t@,
                ).push(copy@));
                assert(r@.map_values(|t: String| t@).push(pv[i as int]) =~= r@.map_values(
                    |t: String| t@,
                ) + seq![pv[i as int]]);
            }
            r.push(copy);
        } else {
            proof {
                assert(r@.map_values(|t: String| t@) + Seq::<Seq<char>>::empty() =~= r@.map_values(
                    |t: String| t@,
                ));
            }
        }
        i = i + 1;
    }
    proof {
        assert(pv.take(n as int) =~= pv);
    }
    r
}

/// The command a command line names: its first word as the program, the rest
/// as arguments; nothing where the line has no words.
pub fn command_from_line(line: &str) -> (r: Option<Command>)
    ensures
        r is Some <==> spec_words(line@).len() > 0,
        r matches Some(c) ==> c@.program == spec_words(line@)[0] && c@.args == spec_words(
            line@,
        ).skip(1) && c@.time_limit is None && c@.memory_limit is None && c@.real_time_limit is None
            && c@.extra_time_limit is None && c@.stack_limit is None && c@.count_files_limit is None
            && c@.count_process_limit is None && !c@.use_env && c@.open_dirs == Seq::<
            Seq<char>,
        >::empty() && c@.stdin is None && c@.stdout is None && c@.stderr is None,
{
    let words = split_words(line);
    if words.len() == 0 {
        return None;
    }
    let mut cmd = Command::new(words[0].as_str());
    let ghost wv = words@.map_values(|t: String| t@);
    let n = words.len();
    let mut i: usize = 1;
    proof {
        assert(cmd@.args =~= wv.subrange(1, 1));
    }
    while i < n
        invariant
            n == words@.len(),
            wv == words@.map_values(|t: String| t@),
            n >= 1,
            1 <= i <= n,
            cmd@.program == wv[0],
            cmd@.args == wv.subrange(1, i as int),
            cmd@.time_limit is None,
            cmd@.memory_limit is None,
            cmd@.real_time_limit is None,
            cmd@.extra_time_limit is None,
            cmd@.stack_limit is None,
            cmd@.count_files_limit is None,
            cmd@.count_process_limit is None,
            !cmd@.use_env,
            cmd@.open_dirs == Seq::<Seq<char>>::empty(),
            cmd@.stdin is None,
            cmd@.stdout is None,
            cmd@.stderr is None,
        decreases n - i,
    {
        cmd.arg(words[i].as_str());
        proof {
            assert(wv[i as int] == words@[i as int]@);
            assert(wv.subrange(1, i + 1) =~= wv.subrange(1, i as int).push(wv[i as int]));
        }
        i = i + 1;
    }
    proof {
        assert(wv.subrange(1, n as int) =~= wv.skip(1));
    }
    Some(cmd)
}

/// The fixed compile-time budget, in milliseconds.
pub open spec fn compile_time_limit_ms() -> u64 {
    10000
}

/// The jail settings of one compile: ten seconds, unlimited processes and
/// open files, the full environment, diagnostics captured to
/// `compile_errors`.
pub fn compile_command(cfg: &JudgeConfig, lang: Lang) -> (r: Option<Command>)
    ensures
        r is Some <==> spec_words(
            spec_compilation_command(
                cfg.compile_gpp@,
                cfg.compile_python@,
                lang,
                "solution.cpp"@,
                "solution.out"@,
            ),
        ).len() > 0,
        r matches Some(c) ==> {
            let words = spec_words(
                spec_compilation_command(
                    cfg.compile_gpp@,
                    cfg.compile_python@,
                    lang,
                    "solution.cpp"@,
                    "solution.out"@,
                ),
            );
            &&& c@.program == words[0]
            &&& c@.args == words.skip(1)
            &&& c@.time_limit == Some(MaybeLimited::Limited(compile_time_limit_ms()))
            &&& c@.count_process_limit == Some(MaybeLimited::<u64>::Unlimited)
            &&& c@.count_files_limit == Some(MaybeLimited::<u64>::Unlimited)
            &&& c@.use_env
            &&& c@.stderr == Some("compile_errors"@)
            &&& c@.memory_limit is None
            &&& c@.real_time_limit is None
            &&& c@.stack_limit is None
            &&& c@.stdin is None
            &&& c@.stdout is None
        },
{
    let line = cfg.compilation_command(lang, "solution.cpp", "solution.out");
    let mut cmd = match command_from_line(line.as_str()) {
        Some(c) => c,
        None => {
            return None;
        },
    };
    cmd.time(MaybeLimited::Limited(10000));
    cmd.count_process(MaybeLimited::Unlimited);
    cmd.count_files(MaybeLimited::Unlimited);
    cmd.use_env();
    cmd.stderr("compile_errors");
    Some(cmd)
}

/// The run of the contestant's program on a batch test: its language's run
/// command under the submission's limits, one process, four open files,
/// reading `in.txt` and writing `out.txt`.
pub fn batch_solution_command(lang: Lang, limits: &Limits) -> (r: Command)
    ensures
        r@.program == (match lang {
            Lang::Gpp => "./solution.out"@,
            Lang::Python => "/usr/bin/python3"@,
        }),
        r@.args == (match lang {
            Lang::Gpp => Seq::<Seq<char>>::empty(),
            Lang::Python => seq!["solution.out"@],
        }),
        r@.time_limit == Some(MaybeLimited::Limited(limits.time_ms)),
        r@.memory_limit == Some(MaybeLimited::Limited(limits.memory)),
        r@.real_time_limit == Some(MaybeLimited::Limited(limits.real_time_ms)),
        r@.stack_limit == (match limits.stack {
            Some(s) => Some(MaybeLimited::Limited(s)),
            None => None,
        }),
        r@.count_files_limit == Some(MaybeLimited::Limited(4u64)),
        r@.count_process_limit == Some(MaybeLimited::Limited(1u64)),
        r@.stdin == Some("in.txt"@),
        r@.stdout == Some("out.txt"@),
        r@.stderr is None,
        r@.extra_time_limit is None,
        !r@.use_env,
        r@.open_dirs == Seq::<Seq<char>>::empty(),
{
    let mut cmd = match lang {
        Lang::Gpp => Command::new("./solution.out"),
        Lang::Python => {
            let mut c = Command::new("/usr/bin/python3");
            c.arg("solution.out");
            proof {
                assert(c@.args =~= seq!["solution.out"@]);
            }
            c
        },
    };
    cmd.time(MaybeLimited::Limited(limits.time_ms));
    cmd.memory(MaybeLimited::Limited(limits.memory));
    cmd.real_time(MaybeLimited::Limited(limits.real_time_ms));
    match limits.stack {
        Some(s) => cmd.stack(MaybeLimited::Limited(s)),
        None => (),
    }
    cmd.count_files(MaybeLimited::Limited(4));
    cmd.count_process(MaybeLimited::Limited(1));
    cmd.stdin("in.txt");
    cmd.stdout("out.txt");
    cmd
}

/// The checker's run on a batch test: `./checker.out in.txt out.txt
/// correct.txt` with unlimited resources — time, wall time, memory, stack,
/// processes and open files all unbounded — both streams captured.
pub fn checker_command() -> (r: Command)
    ensures
        r@.program == "./checker.out"@,
        r@.args == seq!["in.txt"@, "out.txt"@, "correct.txt"@],
        r@.time_limit == Some(MaybeLimited::<u64>::Unlimited),
        r@.real_time_limit == Some(MaybeLimited::<u64>::Unlimited),
        r@.memory_limit == Some(MaybeLimited::<u64>::Unlimited),
        r@.stack_limit == Some(MaybeLimited::<u64>::Unlimited),
        r@.count_files_limit == Some(MaybeLimited::<u64>::Unlimited),
        r@.count_process_limit == Some(MaybeLimited::<u64>::Unlimited),
        r@.stdout == Some("checker_out.txt"@),
        r@.stderr == Some("checker_err.txt"@),
        r@.stdin is None,
        r@.extra_time_limit is None,
        !r@.use_env,
        r@.open_dirs == Seq::<Seq<char>>::empty(),
{
    let mut cmd = Command::new("./checker.out");
    cmd.arg("in.txt");
    cmd.arg("out.txt");
    cmd.arg("correct.txt");
    proof {
        assert(cmd@.args =~= seq!["in.txt"@, "out.txt"@, "correct.txt"@]);
    }
    cmd.time(MaybeLimited::Unlimited);
    cmd.real_time(MaybeLimited::Unlimited);
    cmd.memory(MaybeLimited::Unlimited);
    cmd.stack(MaybeLimited::Unlimited);
    cmd.count_files(MaybeLimited::Unlimited);
    cmd.count_process(MaybeLimited::Unlimited);
    cmd.stdout("checker_out.txt");
    cmd.stderr("checker_err.txt");
    cmd
}

/// The interactor's run: `./interactor.out test.txt interactor_out.txt`,
/// the submission's clock but no memory or process bound, wired to the two
/// pipes, the channel directory bound into the jail.
pub fn interactor_command(limits: &Limits, sol_out: &str, sol_in: &str, channel_dir: &str) -> (r:
    Command)
    ensures
        r@.program == "./interactor.out"@,
        r@.args == seq!["test.txt"@, "interactor_out.txt"@],
        r@.time_limit == Some(MaybeLimited::Limited(limits.time_ms)),
        r@.memory_limit == Some(MaybeLimited::<u64>::Unlimited),
        r@.real_time_limit == Some(MaybeLimited::Limited(limits.real_time_ms)),
        r@.stack_limit == Some(MaybeLimited::<u64>::Unlimited),
        r@.count_process_limit == Some(MaybeLimited::<u64>::Unlimited),
        r@.open_dirs == seq![channel_dir@],
        r@.stdin == Some(sol_out@),
        r@.stdout == Some(sol_in@),
        r@.stderr == Some("interactor_err.txt"@),
        r@.count_files_limit is None,
        r@.extra_time_limit is None,
        !r@.use_env,
{
    let mut cmd = Command::new("./interactor.out");
    cmd.arg("test.txt");
    cmd.arg("interactor_out.txt");
    proof {
        assert(cmd@.args =~= seq!["test.txt"@, "interactor_out.txt"@]);
    }
    cmd.time(MaybeLimited::Limited(limits.time_ms));
    cmd.memory(MaybeLimited::Unlimited);
    cmd.real_time(MaybeLimited::Limited(limits.real_time_ms));
    cmd.stack(MaybeLimited::Unlimited);
    cmd.count_process(MaybeLimited::Unlimited);
    cmd.open_dir(channel_dir);
    proof {
        assert(cmd@.open_dirs =~= seq![channel_dir@]);
    }
    cmd.stdin(sol_out);
    cmd.stdout(sol_in);
    cmd.stderr("interactor_err.txt");
    cmd
}

/// The contestant's run on an interactive test: the language's run command
/// under the submission's limits, one process, wired to the two pipes, the
/// channel directory bound into the jail.
pub fn interactive_solution_command(
    lang: Lang,
    limits: &Limits,
    sol_in: &str,
    sol_out: &str,
    channel_dir: &str,
) -> (r: Command)
    ensures
        r@.program == (match lang {
            Lang::Gpp => "./solution.out"@,
            Lang::Python => "/usr/bin/python3"@,
        }),
        r@.args == (match lang {
            Lang::Gpp => Seq::<Seq<char>>::empty(),
            Lang::Python => seq!["solution.out"@],
        }),
        r@.time_limit == Some(MaybeLimited::Limited(limits.time_ms)),
        r@.memory_limit == Some(MaybeLimited::Limited(limits.memory)),
        r@.real_time_limit == Some(MaybeLimited::Limited(limits.real_time_ms)),
        r@.stack_limit == (match limits.stack {
            Some(s) => Some(MaybeLimited::Limited(s)),
            None => None,
        }),
        r@.count_process_limit == Some(MaybeLimited::Limited(1u64)),
        r@.open_dirs == seq![channel_dir@],
        r@.stdin == Some(sol_in@),
        r@.stdout == Some(sol_out@),
        r@.stderr is None,
        r@.count_files_limit is None,
        r@.extra_time_limit is None,
        !r@.use_env,
{
    let mut cmd = match lang {
        Lang::Gpp => Command::new("./solution.out"),
        Lang::Python => {
            let mut c = Command::new("/usr/bin/python3");
            c.arg("solution.out");
            proof {
                assert(c@.args =~= seq!["solution.out"@]);
            }
            c
        },
    };
    cmd.time(MaybeLimited::Limited(limits.time_ms));
    cmd.memory(MaybeLimited::Limited(limits.memory));
    cmd.real_time(MaybeLimited::Limited(limits.real_time_ms));
    match limits.stack {
        Some(s) => cmd.stack(MaybeLimited::Limited(s)),
        None => (),
    }
    cmd.count_process(MaybeLimited::Limited(1));
    cmd.open_dir(channel_dir);
    proof {
        assert(cmd@.open_dirs =~= seq![channel_dir@]);
    }
    cmd.stdin(sol_in);
    cmd.stdout(sol_out);
    cmd
}

} // verus!
