use vstd::prelude::*;

use crate::MaybeLimited;

verus! {

/// A program to run under the jail, with its arguments, limits and
/// redirections. Limits left unset fall back to the pool defaults when the
/// invocation is built. Times are milliseconds, sizes KiB.
#[derive(Debug, Clone)]
pub struct Command {
    pub program: String,
    pub args: Vec<String>,
    pub time_limit: Option<MaybeLimited<u64>>,
    pub memory_limit: Option<MaybeLimited<u64>>,
    pub real_time_limit: Option<MaybeLimited<u64>>,
    pub extra_time_limit: Option<u64>,
    pub stack_limit: Option<MaybeLimited<u64>>,
    pub count_files_limit: Option<MaybeLimited<u64>>,
    pub count_process_limit: Option<MaybeLimited<u64>>,
    pub use_env: bool,
    pub open_dirs: Vec<String>,
    pub stdin: Option<String>,
    pub stdout: Option<String>,
    pub stderr: Option<String>,
}

/// Mathematical image of a `Command`.
pub ghost struct CommandView {
    pub program: Seq<char>,
    pub args: Seq<Seq<char>>,
    pub time_limit: Option<MaybeLimited<u64>>,
    pub memory_limit: Option<MaybeLimited<u64>>,
    pub real_time_limit: Option<MaybeLimited<u64>>,
    pub extra_time_limit: Option<u64>,
    pub stack_limit: Option<MaybeLimited<u64>>,
    pub count_files_limit: Option<MaybeLimited<u64>>,
    pub count_process_limit: Option<MaybeLimited<u64>>,
    pub use_env: bool,
    pub open_dirs: Seq<Seq<char>>,
    pub stdin: Option<Seq<char>>,
    pub stdout: Option<Seq<char>>,
    pub stderr: Option<Seq<char>>,
}

pub open spec fn opt_str_view(o: Option<String>) -> Option<Seq<char>> {
    match o {
        Some(s) => Some(s@),
        None => None,
    }
}

impl View for Command {
    type V = CommandView;

    open spec fn view(&self) -> CommandView {
        CommandView {
            program: self.program@,
            args: self.args@.map_values(|a: String| a@),
            time_limit: self.time_limit,
            memory_limit: self.memory_limit,
            real_time_limit: self.real_time_limit,
            extra_time_limit: self.extra_time_limit,
            stack_limit: self.stack_limit,
            count_files_limit: self.count_files_limit,
            count_process_limit: self.count_process_limit,
            use_env: self.use_env,
            open_dirs: self.open_dirs@.map_values(|a: String| a@),
            stdin: opt_str_view(self.stdin),
            stdout: opt_str_view(self.stdout),
            stderr: opt_str_view(self.stderr),
        }
    }
}

impl Command {
    /// A fresh command: the bare program, no arguments, every limit unset.
    pub fn new(program: &str) -> (r: Self)
        ensures
            r@ == (CommandView {
                program: program@,
                args: Seq::<Seq<char>>::empty(),
                time_limit: None,
                memory_limit: None,
                real_time_limit: None,
                extra_time_limit: None,
                stack_limit: None,
                count_files_limit: None,
                count_process_limit: None,
                use_env: false,
                open_dirs: Seq::<Seq<char>>::empty(),
                stdin: None,
                stdout: None,
                stderr: None,
            }),
    {
        let r = Command {
            program: String::from_str(program),
            args: Vec::new(),
            time_limit: None,
            memory_limit: None,
            real_time_limit: None,
            extra_time_limit: None,
            stack_limit: None,
            count_files_limit: None,
            count_process_limit: None,
            use_env: false,
            open_dirs: Vec::new(),
            stdin: None,
            stdout: None,
            stderr: None,
        };
        proof {
            assert(r@.args =~= Seq::<Seq<char>>::empty());
            assert(r@.open_dirs =~= Seq::<Seq<char>>::empty());
        }
        r
    }

    pub fn arg(&mut self, arg: &str)
        ensures
            final(self)@ == (CommandView { args: old(self)@.args.push(arg@), ..old(self)@ }),
    {
        self.args.push(String::from_str(arg));
        proof {
            assert(self@.args =~= old(self)@.args.push(arg@));
        }
    }

    pub fn args(&mut self, args: &Vec<String>)
        ensures
            final(self)@ == (CommandView {
                args: old(self)@.args + args@.map_values(|a: String| a@),
                ..old(self)@
            }),
    {
        let mut i: usize = 0;
        let n = args.len();
        proof {
            assert(self@.args =~= old(self)@.args + args@.map_values(|a: String| a@).take(0));
        }
        while i < n
            invariant
                n == args@.len(),
                0 <= i <= n,
                self@ == (CommandView {
                    args: old(self)@.args + args@.map_values(|a: String| a@).take(i as int),
                    ..old(self)@
                }),
            decreases n - i,
        {
            self.arg(args[i].as_str());
            proof {
                let m = args@.map_values(|a: String| a@);
                assert(m.take(i + 1) =~= m.take(i as int).push(m[i as int]));
                assert((old(self)@.args + m.take(i as int)).push(m[i as int]) =~= old(self)@.args
                    + m.take(i + 1));
            }
            i = i + 1;
        }
        proof {
            let m = args@.map_values(|a: String| a@);
            assert(m.take(n as int) =~= m);
        }
    }

    pub fn stdin(&mut self, path: &str)
        ensures
            final(self)@ == (CommandView { stdin: Some(path@), ..old(self)@ }),
    {
        self.stdin = Some(String::from_str(path));
    }

    pub fn stdout(&mut self, path: &str)
        ensures
            final(self)@ == (CommandView { stdout: Some(path@), ..old(self)@ }),
    {
        self.stdout = Some(String::from_str(path));
    }

    pub fn stderr(&mut self, path: &str)
        ensures
            final(self)@ == (CommandView { stderr: Some(path@), ..old(self)@ }),
    {
        self.stderr = Some(String::from_str(path));
    }

    pub fn time(&mut self, cfg: MaybeLimited<u64>)
        ensures
            final(self)@ == (CommandView { time_limit: Some(cfg), ..old(self)@ }),
    {
        self.time_limit = Some(cfg);
    }

    pub fn real_time(&mut self, cfg: MaybeLimited<u64>)
        ensures
            final(self)@ == (CommandView { real_time_limit: Some(cfg), ..old(self)@ }),
    {
        self.real_time_limit = Some(cfg);
    }

    pub fn extra_time(&mut self, ms: u64)
        ensures
            final(self)@ == (CommandView { extra_time_limit: Some(ms), ..old(self)@ }),
    {
        self.extra_time_limit = Some(ms);
    }

    pub fn memory(&mut self, cfg: MaybeLimited<u64>)
        ensures
            final(self)@ == (CommandView { memory_limit: Some(cfg), ..old(self)@ }),
    {
        self.memory_limit = Some(cfg);
    }

    pub fn stack(&mut self, cfg: MaybeLimited<u64>)
        ensures
            final(self)@ == (CommandView { stack_limit: Some(cfg), ..old(self)@ }),
    {
        self.stack_limit = Some(cfg);
    }

    pub fn count_files(&mut self, cfg: MaybeLimited<u64>)
        ensures
            final(self)@ == (CommandView { count_files_limit: Some(cfg), ..old(self)@ }),
    {
        self.count_files_limit = Some(cfg);
    }

    pub fn count_process(&mut self, cfg: MaybeLimited<u64>)
        ensures
            final(self)@ == (CommandView { count_process_limit: Some(cfg), ..old(self)@ }),
    {
        self.count_process_limit = Some(cfg);
    }

    pub fn use_env(&mut self)
        ensures
            final(self)@ == (CommandView { use_env: true, ..old(self)@ }),
    {
        self.use_env = true;
    }

    pub fn open_dir(&mut self, path: &str)
        ensures
            final(self)@ == (CommandView {
                open_dirs: old(self)@.open_dirs.push(path@),
                ..old(self)@
            }),
    {
        self.open_dirs.push(String::from_str(path));
        proof {
            assert(self@.open_dirs =~= old(self)@.open_dirs.push(path@));
        }
    }

    pub fn open_dirs(&mut self, paths: &Vec<String>)
        ensures
            final(self)@ == (CommandView {
                open_dirs: old(self)@.open_dirs + paths@.map_values(|a: String| a@),
                ..old(self)@
            }),
    {
        let mut i: usize = 0;
        let n = paths.len();
        proof {
            assert(self@.open_dirs =~= old(self)@.open_dirs + paths@.map_values(
                |a: String| a@,
            ).take(0));
        }
        while i < n
            invariant
                n == paths@.len(),
                0 <= i <= n,
                self@ == (CommandView {
                    open_dirs: old(self)@.open_dirs + paths@.map_values(|a: String| a@).take(
                        i as int,
                    ),
                    ..old(self)@
                }),
            decreases n - i,
        {
            self.open_dir(paths[i].as_str());
            proof {
                let m = paths@.map_values(|a: String| a@);
                assert(m.take(i + 1) =~= m.take(i as int).push(m[i as int]));
                assert((old(self)@.open_dirs + m.take(i as int)).push(m[i as int])
                    =~= old(self)@.open_dirs + m.take(i + 1));
            }
            i = i + 1;
        }
        proof {
            let m = paths@.map_values(|a: String| a@);
            assert(m.take(n as int) =~= m);
        }
    }

}

} // verus!
