use vstd::prelude::*;

use crate::numbers::{parse_u64, parses_as_u64, spec_digits_val};
use crate::text::{
    contains_char, first_idx, spec_split, spec_trim, find_char, split_char, str_eq, trim,
};

verus! {

/// Outcome class of one run under the jail, as the meta file reports it.
#[derive(Clone, Copy, Debug, PartialEq, Eq, Structural)]
pub enum RunStatus {
    Completed,
    Tl,
    Ml,
    Re(u8),
    Sg(u8),
}

/// One finished run: status plus its measurements. Times are milliseconds,
/// memory is KiB.
#[derive(Debug, Clone)]
pub struct RunResult {
    pub status: RunStatus,
    pub time_ms: u64,
    pub real_time_ms: u64,
    pub status_message: Option<String>,
    pub memory: u64,
    pub killed: bool,
}

/// Mathematical image of a `RunResult`.
pub ghost struct RunResultView {
    pub status: RunStatus,
    pub time_ms: u64,
    pub real_time_ms: u64,
    pub status_message: Option<Seq<char>>,
    pub memory: u64,
    pub killed: bool,
}

impl View for RunResult {
    type V = RunResultView;

    open spec fn view(&self) -> RunResultView {
        RunResultView {
            status: self.status,
            time_ms: self.time_ms,
            real_time_ms: self.real_time_ms,
            status_message: match self.status_message {
                Some(m) => Some(m@),
                None => None,
            },
            memory: self.memory,
            killed: self.killed,
        }
    }
}

/// The key/value pairs of a meta file, in file order: every line with a `:`
/// yields one pair, split at the first `:`, both sides trimmed; other lines
/// are dropped.
pub open spec fn spec_meta_pairs_of_lines(ls: Seq<Seq<char>>) -> Seq<(Seq<char>, Seq<char>)>
    decreases ls.len(),
{
    if ls.len() == 0 {
        Seq::empty()
    } else {
        spec_line_pair(ls[0]) + spec_meta_pairs_of_lines(ls.skip(1))
    }
}

pub open spec fn spec_line_pair(l: Seq<char>) -> Seq<(Seq<char>, Seq<char>)> {
    if contains_char(l, ':') {
        let i = first_idx(l, ':');
        seq![(spec_trim(l.take(i)), spec_trim(l.skip(i + 1)))]
    } else {
        Seq::empty()
    }
}

pub open spec fn spec_meta_pairs(s: Seq<char>) -> Seq<(Seq<char>, Seq<char>)> {
    spec_meta_pairs_of_lines(spec_split(s, '\n'))
}

proof fn lemma_meta_pairs_snoc(ls: Seq<Seq<char>>, l: Seq<char>)
    ensures
        spec_meta_pairs_of_lines(ls.push(l)) == spec_meta_pairs_of_lines(ls) + spec_line_pair(l),
    decreases ls.len(),
{
    if ls.len() == 0 {
        let one = ls.push(l);
        assert(one[0] == l);
        assert(one.skip(1) =~= Seq::<Seq<char>>::empty());
        assert(spec_meta_pairs_of_lines(one.skip(1)) =~= Seq::<(Seq<char>, Seq<char>)>::empty());
        assert(spec_meta_pairs_of_lines(one) =~= spec_line_pair(l)
            + Seq::<(Seq<char>, Seq<char>)>::empty());
        assert(spec_line_pair(l) + Seq::<(Seq<char>, Seq<char>)>::empty() =~= spec_line_pair(l));
        assert(spec_meta_pairs_of_lines(ls) =~= Seq::<(Seq<char>, Seq<char>)>::empty());
        assert(spec_meta_pairs_of_lines(ls) + spec_line_pair(l) =~= spec_line_pair(l));
    } else {
        assert(ls.push(l).skip(1) =~= ls.skip(1).push(l));
        lemma_meta_pairs_snoc(ls.skip(1), l);
        assert(ls.push(l)[0] == ls[0]);
        assert(spec_line_pair(ls[0]) + (spec_meta_pairs_of_lines(ls.skip(1)) + spec_line_pair(l))
            =~= (spec_line_pair(ls[0]) + spec_meta_pairs_of_lines(ls.skip(1))) + spec_line_pair(l));
    }
}

pub open spec fn pairs_view(ps: Seq<(String, String)>) -> Seq<(Seq<char>, Seq<char>)> {
    ps.map_values(|p: (String, String)| (p.0@, p.1@))
}

/// Parses a meta file: one `key:value` per line, split at the first `:`,
/// both sides trimmed. Lines without `:` are dropped. Total on every string.
pub fn parse_meta_file(s: &str) -> (r: Vec<(String, String)>)
    ensures
        pairs_view(r@) == spec_meta_pairs(s@),
{
    let lines = split_char(s, '\n');
    let mut pairs: Vec<(String, String)> = Vec::new();
    let mut i: usize = 0;
    let n = lines.len();
    proof {
        assert(lines@.map_values(|p: String| p@).take(0) =~= Seq::<Seq<char>>::empty());
        assert(pairs_view(pairs@) =~= Seq::<(Seq<char>, Seq<char>)>::empty());
    }
    while i < n
        invariant
            n == lines@.len(),
            0 <= i <= n,
            lines@.map_values(|p: String| p@) == spec_split(s@, '\n'),
            pairs_view(pairs@) == spec_meta_pairs_of_lines(
                lines@.map_values(|p: String| p@).take(i as int),
            ),
        decreases n - i,
    {
        let line: &String = &lines[i];
        let ghost lv = lines@.map_values(|p: String| p@);
        proof {
            assert(lv[i as int] == line@);
            assert(lv.take(i + 1) =~= lv.take(i as int).push(line@));
            lemma_meta_pairs_snoc(lv.take(i as int), line@);
        }
        match find_char(line.as_str(), ':') {
            Some(p) => {
                let len = line.as_str().unicode_len();
                let key = trim(line.as_str().substring_char(0, p));
                let value = trim(line.as_str().substring_char(p + 1, len));
                proof {
                    assert(line@.subrange(0, p as int) =~= line@.take(p as int));
                    assert(line@.subrange(p + 1, len as int) =~= line@.skip(p + 1));
                    assert(pairs_view(pairs@.push((key, value))) =~= pairs_view(pairs@).push(
                        (key@, value@),
                    ));
                    assert(spec_line_pair(line@) =~= seq![(key@, value@)]);
                    assert(pairs_view(pairs@).push((key@, value@)) =~= pairs_view(pairs@) + seq![
                        (key@, value@),
                    ]);
                }
                pairs.push((key, value));
            },
            None => {
                proof {
                    assert(spec_line_pair(line@) =~= Seq::<(Seq<char>, Seq<char>)>::empty());
                    assert(pairs_view(pairs@) + spec_line_pair(line@) =~= pairs_view(pairs@));
                }
            },
        }
        i = i + 1;
    }
    proof {
        let lv = lines@.map_values(|p: String| p@);
        assert(lv.take(n as int) =~= lv);
    }
    pairs
}

/// The value at `k`, the last occurrence winning, as collecting into a map would.
pub open spec fn spec_lookup(ps: Seq<(Seq<char>, Seq<char>)>, k: Seq<char>) -> Option<Seq<char>>
    decreases ps.len(),
{
    if ps.len() == 0 {
        None
    } else if ps.last().0 == k {
        Some(ps.last().1)
    } else {
        spec_lookup(ps.drop_last(), k)
    }
}

/// Looks a key up among parsed pairs; the last occurrence wins.
pub fn meta_lookup(ps: &Vec<(String, String)>, key: &str) -> (r: Option<String>)
    ensures
        match r {
            Some(v) => spec_lookup(pairs_view(ps@), key@) == Some(v@),
            None => spec_lookup(pairs_view(ps@), key@) is None,
        },
{
    let mut i: usize = ps.len();
    proof {
        assert(pairs_view(ps@).take(ps@.len() as int) =~= pairs_view(ps@));
    }
    while i > 0
        invariant
            0 <= i <= ps@.len(),
            spec_lookup(pairs_view(ps@), key@) == spec_lookup(
                pairs_view(ps@).take(i as int),
                key@,
            ),
        decreases i,
    {
        i = i - 1;
        let ghost pv = pairs_view(ps@);
        proof {
            assert(pv.take(i + 1).last() == pv[i as int]);
            assert(pv.take(i + 1).drop_last() =~= pv.take(i as int));
            assert(pv[i as int].0 == ps@[i as int].0@);
        }
        if str_eq(ps[i].0.as_str(), key) {
            return Some(String::from_str(ps[i].1.as_str()));
        }
    }
    proof {
        assert(pairs_view(ps@).take(0) =~= Seq::<(Seq<char>, Seq<char>)>::empty());
    }
    None
}

/// Value of a decimal seconds string, in whole milliseconds, rounding the
/// fraction down past the third digit. `None` where the string is not a
/// numeral or the result does not fit.
pub open spec fn spec_parse_ms(s: Seq<char>) -> Option<u64> {
    if !contains_char(s, '.') {
        if parses_as_u64(s) && spec_digits_val(s) * 1000 <= u64::MAX {
            Some((spec_digits_val(s) * 1000) as u64)
        } else {
            None
        }
    } else {
        let i = first_idx(s, '.');
        let whole = s.take(i);
        let frac = s.skip(i + 1);
        if parses_as_u64(whole) && !contains_char(frac, '.') && (frac.len() == 0 || parses_as_u64(
            frac,
        )) && spec_digits_val(whole) * 1000 + spec_frac_ms(frac) <= u64::MAX {
            Some((spec_digits_val(whole) * 1000 + spec_frac_ms(frac)) as u64)
        } else {
            None
        }
    }
}

/// Milliseconds named by a fraction-digit string: the first three digits,
/// scaled to thousandths.
pub open spec fn spec_frac_ms(frac: Seq<char>) -> int {
    if frac.len() == 0 {
        0
    } else if frac.len() == 1 {
        crate::numbers::digit_val(frac[0]) * 100
    } else if frac.len() == 2 {
        crate::numbers::digit_val(frac[0]) * 100 + crate::numbers::digit_val(frac[1]) * 10
    } else {
        crate::numbers::digit_val(frac[0]) * 100 + crate::numbers::digit_val(frac[1]) * 10
            + crate::numbers::digit_val(frac[2])
    }
}

/// Reads a seconds value such as `0.185` into milliseconds.
pub fn parse_ms(s: &str) -> (r: Option<u64>)
    ensures
        r == spec_parse_ms(s@),
{
    match find_char(s, '.') {
        None => {
            match parse_u64(s) {
                Some(v) => {
                    match v.checked_mul(1000) {
                        Some(ms) => Some(ms),
                        None => None,
                    }
                },
                None => None,
            }
        },
        Some(i) => {
            let len = s.unicode_len();
            let whole_str = s.substring_char(0, i);
            let frac_str = s.substring_char(i + 1, len);
            proof {
                assert(s@.subrange(0, i as int) =~= s@.take(i as int));
                assert(s@.subrange(i + 1, len as int) =~= s@.skip(i + 1));
            }
            let whole = match parse_u64(whole_str) {
                Some(v) => v,
                None => {
                    return None;
                },
            };
            let flen = frac_str.unicode_len();
            if find_char(frac_str, '.').is_some() {
                return None;
            }
            let frac_ms: u64 = if flen == 0 {
                0u64
            } else {
                match parse_u64(frac_str) {
                    Some(_) => {
                        let d0 = digit_at(frac_str, 0);
                        let d1 = if flen >= 2 {
                            digit_at(frac_str, 1)
                        } else {
                            0
                        };
                        let d2 = if flen >= 3 {
                            digit_at(frac_str, 2)
                        } else {
                            0
                        };
                        d0 * 100 + d1 * 10 + d2
                    },
                    None => {
                        return None;
                    },
                }
            };
            proof {
                assert(frac_ms == spec_frac_ms(s@.skip(i + 1)));
            }
            let base = match whole.checked_mul(1000) {
                Some(b) => b,
                None => {
                    return None;
                },
            };
            match base.checked_add(frac_ms) {
                Some(ms) => Some(ms),
                None => None,
            }
        },
    }
}

/// The meta file was not in the shape the jail documents.
#[derive(Debug, Clone, Copy, PartialEq, Eq, Structural)]
pub struct MetaParseError;

/// The run status named by parsed meta pairs. Missing `status` means the run
/// finished normally; `SG` with signal 6 or 11 is treated as out-of-memory.
pub open spec fn spec_status_of(ps: Seq<(Seq<char>, Seq<char>)>) -> Option<RunStatus> {
    match spec_lookup(ps, "status"@) {
        None => Some(RunStatus::Completed),
        Some(v) => if v == "RE"@ {
            match spec_lookup(ps, "exitcode"@) {
                Some(c) => if parses_as_u64(c) && spec_digits_val(c) <= 255 {
                    Some(RunStatus::Re(spec_digits_val(c) as u8))
                } else {
                    None
                },
                None => None,
            }
        } else if v == "SG"@ {
            match spec_lookup(ps, "exitsig"@) {
                Some(c) => if parses_as_u64(c) && spec_digits_val(c) <= 255 {
                    if spec_digits_val(c) == 6 || spec_digits_val(c) == 11 {
                        Some(RunStatus::Ml)
                    } else {
                        Some(RunStatus::Sg(spec_digits_val(c) as u8))
                    }
                } else {
                    None
                },
                None => None,
            }
        } else if v == "TO"@ {
            Some(RunStatus::Tl)
        } else {
            None
        },
    }
}

pub open spec fn spec_killed(ps: Seq<(Seq<char>, Seq<char>)>) -> bool {
    match spec_lookup(ps, "killed"@) {
        Some(v) => v == "1"@,
        None => false,
    }
}

/// The run result named by parsed meta pairs, or nothing where a required
/// field is missing or malformed. Keys other than the documented ones have no
/// bearing on the result.
pub open spec fn spec_interpret(ps: Seq<(Seq<char>, Seq<char>)>) -> Option<RunResultView> {
    match spec_status_of(ps) {
        None => None,
        Some(status) => match (
            spec_lookup(ps, "time"@),
            spec_lookup(ps, "time-wall"@),
            spec_lookup(ps, "max-rss"@),
        ) {
            (Some(t), Some(w), Some(m)) => match (spec_parse_ms(t), spec_parse_ms(w)) {
                (Some(tms), Some(wms)) => if parses_as_u64(m) {
                    Some(
                        RunResultView {
                            status,
                            time_ms: tms,
                            real_time_ms: wms,
                            status_message: spec_lookup(ps, "message"@),
                            memory: spec_digits_val(m) as u64,
                            killed: spec_killed(ps),
                        },
                    )
                } else {
                    None
                },
                _ => None,
            },
            _ => None,
        },
    }
}

/// Reads a run result out of parsed meta pairs. Fails exactly where the meta
/// file lacks a required field or holds one that does not parse.
pub fn interpret_meta(ps: &Vec<(String, String)>) -> (r: Result<RunResult, MetaParseError>)
    ensures
        r matches Ok(v) ==> spec_interpret(pairs_view(ps@)) == Some(v@),
        r is Err <==> spec_interpret(pairs_view(ps@)) is None,
{
    let status: RunStatus = match meta_lookup(ps, "status") {
        None => RunStatus::Completed,
        Some(v) => {
            if str_eq(v.as_str(), "RE") {
                match meta_lookup(ps, "exitcode") {
                    Some(c) => match parse_u64(c.as_str()) {
                        Some(code) => {
                            if code <= 255 {
                                RunStatus::Re(code as u8)
                            } else {
                                return Err(MetaParseError);
                            }
                        },
                        None => {
                            return Err(MetaParseError);
                        },
                    },
                    None => {
                        return Err(MetaParseError);
                    },
                }
            } else if str_eq(v.as_str(), "SG") {
                match meta_lookup(ps, "exitsig") {
                    Some(c) => match parse_u64(c.as_str()) {
                        Some(sig) => {
                            if sig <= 255 {
                                if sig == 6 || sig == 11 {
                                    RunStatus::Ml
                                } else {
                                    RunStatus::Sg(sig as u8)
                                }
                            } else {
                                return Err(MetaParseError);
                            }
                        },
                        None => {
                            return Err(MetaParseError);
                        },
                    },
                    None => {
                        return Err(MetaParseError);
                    },
                }
            } else if str_eq(v.as_str(), "TO") {
                RunStatus::Tl
            } else {
                return Err(MetaParseError);
            }
        },
    };
    let time_str = match meta_lookup(ps, "time") {
        Some(t) => t,
        None => {
            return Err(MetaParseError);
        },
    };
    let wall_str = match meta_lookup(ps, "time-wall") {
        Some(t) => t,
        None => {
            return Err(MetaParseError);
        },
    };
    let rss_str = match meta_lookup(ps, "max-rss") {
        Some(t) => t,
        None => {
            return Err(MetaParseError);
        },
    };
    let time_ms = match parse_ms(time_str.as_str()) {
        Some(v) => v,
        None => {
            return Err(MetaParseError);
        },
    };
    let real_time_ms = match parse_ms(wall_str.as_str()) {
        Some(v) => v,
        None => {
            return Err(MetaParseError);
        },
    };
    let memory = match parse_u64(rss_str.as_str()) {
        Some(v) => v,
        None => {
            return Err(MetaParseError);
        },
    };
    let status_message = meta_lookup(ps, "message");
    let killed = match meta_lookup(ps, "killed") {
        Some(v) => str_eq(v.as_str(), "1"),
        None => false,
    };
    Ok(RunResult { status, time_ms, real_time_ms, status_message, memory, killed })
}

/// Signals 6 and 11 always read back as `Ml`: held of every pair list whose
/// `status` is `SG` and whose `exitsig` is one of the two.
pub proof fn lemma_signal_means_memory(ps: Seq<(Seq<char>, Seq<char>)>, sig: Seq<char>)
    requires
        spec_lookup(ps, "status"@) == Some("SG"@),
        spec_lookup(ps, "exitsig"@) == Some(sig),
        parses_as_u64(sig),
        spec_digits_val(sig) == 6 || spec_digits_val(sig) == 11,
    ensures
        spec_status_of(ps) == Some(RunStatus::Ml),
{
    assert("SG"@ != "RE"@) by {
        reveal_strlit("SG");
        reveal_strlit("RE");
        assert("SG"@[0] == 'S');
        assert("RE"@[0] == 'R');
    }
}

/// Only the documented keys bear on the outcome: two pair lists that agree on
/// them read back as the same result, whatever other keys either holds.
pub proof fn lemma_unknown_keys_ignored(a: Seq<(Seq<char>, Seq<char>)>, b: Seq<(Seq<char>, Seq<char>)>)
    requires
        spec_lookup(a, "status"@) == spec_lookup(b, "status"@),
        spec_lookup(a, "exitcode"@) == spec_lookup(b, "exitcode"@),
        spec_lookup(a, "exitsig"@) == spec_lookup(b, "exitsig"@),
        spec_lookup(a, "time"@) == spec_lookup(b, "time"@),
        spec_lookup(a, "time-wall"@) == spec_lookup(b, "time-wall"@),
        spec_lookup(a, "max-rss"@) == spec_lookup(b, "max-rss"@),
        spec_lookup(a, "message"@) == spec_lookup(b, "message"@),
        spec_lookup(a, "killed"@) == spec_lookup(b, "killed"@),
    ensures
        spec_interpret(a) == spec_interpret(b),
{
}

fn digit_at(s: &str, i: usize) -> (d: u64)
    requires
        i < s@.len(),
        parses_as_u64(s@),
    ensures
        d == crate::numbers::digit_val(s@[i as int]),
        d <= 9,
{
    let c = s.get_char(i);
    assert(crate::numbers::is_digit(s@[i as int]));
    (c as u32 - '0' as u32) as u64
}

} // verus!
