use invoker::judge::{checker_verdict, interactor_verdict, path_from, Lang, Verdict};
use invoker::manifest::Limits;
use invoker::sandbox::RunStatus;
use invoker::stage::{
    batch_solution_command, checker_command, compile_command, interactive_solution_command,
    interactor_command, replace_all, split_words, JudgeConfig,
};
use invoker::MaybeLimited;

#[test]
fn run_command_per_language() {
    assert_eq!(Lang::Gpp.run_command("solution.out"), "./solution.out");
    assert_eq!(Lang::Python.run_command("solution.out"), "/usr/bin/python3 solution.out");
}

#[test]
fn path_from_joins_dir_name_ext() {
    assert_eq!(path_from("/work", "solution", Some("out")), "/work/solution.out");
    assert_eq!(path_from("/work/input", "3", Some("txt")), "/work/input/3.txt");
    assert_eq!(path_from("/work", "solution", None), "/work/solution");
}

#[test]
fn from_run_status_maps_the_closed_set() {
    assert_eq!(Verdict::from_run_status(RunStatus::Completed), None);
    assert_eq!(Verdict::from_run_status(RunStatus::Tl), Some(Verdict::Tl));
    assert_eq!(Verdict::from_run_status(RunStatus::Ml), Some(Verdict::Ml));
    assert_eq!(Verdict::from_run_status(RunStatus::Re(3)), Some(Verdict::Re));
    assert_eq!(Verdict::from_run_status(RunStatus::Sg(7)), Some(Verdict::Re));
}

#[test]
fn is_success_only_for_accepted() {
    assert!(Verdict::Accepted.is_success());
    for v in [Verdict::Wa, Verdict::Pe, Verdict::Ml, Verdict::Tl, Verdict::Re, Verdict::Ce, Verdict::Te, Verdict::Sl] {
        assert!(!v.is_success());
    }
}

#[test]
fn verdict_codes() {
    assert_eq!(Verdict::Accepted.code(), "OK");
    assert_eq!(Verdict::Wa.code(), "WA");
    assert_eq!(Verdict::Pe.code(), "PE");
    assert_eq!(Verdict::Te.code(), "TE");
}

#[test]
fn checker_exit_codes_pick_the_verdict() {
    assert_eq!(checker_verdict(RunStatus::Completed), Verdict::Accepted);
    assert_eq!(checker_verdict(RunStatus::Re(1)), Verdict::Wa);
    assert_eq!(checker_verdict(RunStatus::Re(2)), Verdict::Pe);
    assert_eq!(checker_verdict(RunStatus::Re(3)), Verdict::Te);
    assert_eq!(checker_verdict(RunStatus::Ml), Verdict::Te);
    assert_eq!(checker_verdict(RunStatus::Tl), Verdict::Te);
    assert_eq!(checker_verdict(RunStatus::Sg(9)), Verdict::Te);
}

#[test]
fn interactor_timeout_is_the_solutions_tl() {
    assert_eq!(interactor_verdict(RunStatus::Tl), Verdict::Tl);
    assert_eq!(interactor_verdict(RunStatus::Re(1)), Verdict::Wa);
    assert_eq!(interactor_verdict(RunStatus::Re(2)), Verdict::Pe);
    assert_eq!(interactor_verdict(RunStatus::Ml), Verdict::Te);
    assert_eq!(interactor_verdict(RunStatus::Completed), Verdict::Accepted);
}

#[test]
fn replace_substitutes_every_occurrence() {
    assert_eq!(replace_all("a $X b $X", "$X", "v"), "a v b v");
    assert_eq!(replace_all("nothing here", "$X", "v"), "nothing here");
    assert_eq!(replace_all("$X$X", "$X", "y"), "yy");
    assert_eq!(replace_all("abc", "", "v"), "abc");
}

#[test]
fn compilation_command_substitutes_source_and_output() {
    let cfg = JudgeConfig::default();
    assert_eq!(
        cfg.compilation_command(Lang::Gpp, "solution.cpp", "solution.out"),
        "/usr/bin/g++ solution.cpp -o solution.out -O2 -Wall -lm"
    );
    assert_eq!(
        cfg.compilation_command(Lang::Python, "solution.cpp", "solution.out"),
        "/usr/bin/cp --update=none solution.cpp solution.out"
    );
}

#[test]
fn split_words_drops_empty_pieces() {
    assert_eq!(split_words("a  b   c"), vec!["a", "b", "c"]);
    assert_eq!(split_words("  lone  "), vec!["lone"]);
    assert_eq!(split_words(""), Vec::<String>::new());
}

#[test]
fn compile_command_carries_the_fixed_budget() {
    let cfg = JudgeConfig::default();
    let cmd = compile_command(&cfg, Lang::Gpp).expect("the stock template names a program");
    assert_eq!(cmd.program, "/usr/bin/g++");
    assert_eq!(cmd.args, vec!["solution.cpp", "-o", "solution.out", "-O2", "-Wall", "-lm"]);
    assert!(matches!(cmd.time_limit, Some(MaybeLimited::Limited(10000))));
    assert!(matches!(cmd.count_process_limit, Some(MaybeLimited::Unlimited)));
    assert!(matches!(cmd.count_files_limit, Some(MaybeLimited::Unlimited)));
    assert!(cmd.use_env);
    assert_eq!(cmd.stderr.as_deref(), Some("compile_errors"));
}

fn limits() -> Limits {
    Limits { time_ms: 1000, real_time_ms: 2000, memory: 262144, stack: Some(1024) }
}

#[test]
fn batch_solution_command_sets_the_documented_limits() {
    let cmd = batch_solution_command(Lang::Gpp, &limits());
    assert_eq!(cmd.program, "./solution.out");
    assert!(matches!(cmd.time_limit, Some(MaybeLimited::Limited(1000))));
    assert!(matches!(cmd.memory_limit, Some(MaybeLimited::Limited(262144))));
    assert!(matches!(cmd.real_time_limit, Some(MaybeLimited::Limited(2000))));
    assert!(matches!(cmd.stack_limit, Some(MaybeLimited::Limited(1024))));
    assert!(matches!(cmd.count_files_limit, Some(MaybeLimited::Limited(4))));
    assert!(matches!(cmd.count_process_limit, Some(MaybeLimited::Limited(1))));
    assert_eq!(cmd.stdin.as_deref(), Some("in.txt"));
    assert_eq!(cmd.stdout.as_deref(), Some("out.txt"));
    let py = batch_solution_command(Lang::Python, &limits());
    assert_eq!(py.program, "/usr/bin/python3");
    assert_eq!(py.args, vec!["solution.out"]);
}

#[test]
fn checker_command_is_unconstrained() {
    let cmd = checker_command();
    assert_eq!(cmd.program, "./checker.out");
    assert_eq!(cmd.args, vec!["in.txt", "out.txt", "correct.txt"]);
    assert!(matches!(cmd.time_limit, Some(MaybeLimited::Unlimited)));
    assert!(matches!(cmd.real_time_limit, Some(MaybeLimited::Unlimited)));
    assert!(matches!(cmd.memory_limit, Some(MaybeLimited::Unlimited)));
    assert!(matches!(cmd.stack_limit, Some(MaybeLimited::Unlimited)));
    assert!(matches!(cmd.count_files_limit, Some(MaybeLimited::Unlimited)));
    assert!(matches!(cmd.count_process_limit, Some(MaybeLimited::Unlimited)));
    assert_eq!(cmd.stdout.as_deref(), Some("checker_out.txt"));
    assert_eq!(cmd.stderr.as_deref(), Some("checker_err.txt"));
    // under the worker's own defaults the jail then gets no time or memory cap
    let args = invoker::isolate::run_args(&invoker::isolate::IsolateConfig::default(), 0, &cmd);
    assert!(!args.iter().any(|a| a.starts_with("--time=")));
    assert!(!args.iter().any(|a| a.starts_with("--wall-time=")));
    assert!(!args.iter().any(|a| a.starts_with("--mem=")));
    assert!(!args.iter().any(|a| a.starts_with("--stack=")));
}

#[test]
fn interactive_commands_share_the_pipes() {
    let icmd = interactor_command(&limits(), "/.invoker/1", "/.invoker/2", "/.invoker");
    assert_eq!(icmd.program, "./interactor.out");
    assert_eq!(icmd.args, vec!["test.txt", "interactor_out.txt"]);
    assert!(matches!(icmd.memory_limit, Some(MaybeLimited::Unlimited)));
    assert!(matches!(icmd.count_process_limit, Some(MaybeLimited::Unlimited)));
    assert_eq!(icmd.stdin.as_deref(), Some("/.invoker/1"));
    assert_eq!(icmd.stdout.as_deref(), Some("/.invoker/2"));
    assert_eq!(icmd.stderr.as_deref(), Some("interactor_err.txt"));
    assert_eq!(icmd.open_dirs, vec!["/.invoker"]);
    let scmd = interactive_solution_command(Lang::Gpp, &limits(), "/.invoker/2", "/.invoker/1", "/.invoker");
    assert_eq!(scmd.program, "./solution.out");
    assert!(matches!(scmd.count_process_limit, Some(MaybeLimited::Limited(1))));
    assert_eq!(scmd.stdin.as_deref(), Some("/.invoker/2"));
    assert_eq!(scmd.stdout.as_deref(), Some("/.invoker/1"));
    assert_eq!(scmd.open_dirs, vec!["/.invoker"]);
}

#[test]
fn solution_failure_carries_the_jail_message() {
    let solution = invoker::sandbox::RunResult {
        status: RunStatus::Tl,
        time_ms: 2000,
        real_time_ms: 2100,
        status_message: Some(String::from("Time limit exceeded")),
        memory: 64,
        killed: true,
    };
    let t = invoker::judge::solution_failure(&solution, String::from("partial"))
        .expect("a timed-out run forces a verdict");
    assert_eq!(t.verdict, Verdict::Tl);
    assert_eq!(t.time_ms, 2000);
    assert_eq!(t.memory, 64);
    assert_eq!(t.output, "partial");
    assert_eq!(t.message, "ISOLATE: Time limit exceeded");
}

#[test]
fn log_state_renders_annotations() {
    let empty = invoker::logstate::LogState::new();
    assert_eq!(empty.render(), "");
    let one = empty.push("box", "3");
    assert_eq!(one.render(), "box<3>");
    let two = one.push("test", "7");
    assert_eq!(two.render(), "box<3> test<7>");
    // the earlier states are kept, not mutated
    assert_eq!(one.render(), "box<3>");
    let plain = invoker::logstate::State::new().push("k", "v");
    assert_eq!(plain.entries.len(), 1);
}

#[test]
fn channel_path_embeds_the_id() {
    let c = invoker::channel::Channel::with_id("/.invoker", 42);
    assert_eq!(c.path(), "/.invoker/42");
    let fresh = invoker::channel::Channel::new("/.invoker");
    assert!(fresh.path().starts_with("/.invoker/"));
}
