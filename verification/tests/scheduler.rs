use invoker::judge::{FullResult, TestResult, Verdict};
use invoker::manifest::{Group, TestsRange};
use invoker::sandbox::{interpret_meta, parse_meta_file, RunResult};
use invoker::scheduler::Scheduler;

fn run_of(meta: &str) -> RunResult {
    interpret_meta(&parse_meta_file(meta)).expect("scripted meta should interpret")
}

fn group(id: usize, first: usize, last: usize, cost: u64, depends: Vec<usize>) -> Group {
    Group { id, range: TestsRange(first, last), cost, depends }
}

/// Drives one submission as the orchestrator would, with a scripted meta per
/// solution run and per checker run, and hands back the emitted verdicts and
/// the final result.
fn drive(groups: Vec<Group>, metas: &[(&str, &str)]) -> (Vec<(usize, Verdict)>, FullResult) {
    let mut sched = Scheduler::new(groups.clone());
    let mut emitted: Vec<(usize, Verdict)> = Vec::new();
    let mut call: usize = 0;
    for g in &groups {
        for test in g.range.tests() {
            if !sched.plan(g.id, test) {
                continue;
            }
            let (sol_meta, chk_meta) = metas[call];
            call += 1;
            let solution = run_of(sol_meta);
            let result: TestResult = match invoker::judge::solution_failure(
                &solution,
                String::from("out"),
            ) {
                Some(t) => t,
                None => {
                    let checker = run_of(chk_meta);
                    invoker::judge::batch_test_result(&solution, String::from("out"), &checker, "", "")
                }
            };
            emitted.push((test + 1, result.verdict));
            sched.record(g.id, test, result.verdict);
        }
    }
    let full = sched.final_result();
    (emitted, full)
}

const OK_META: &str = "time:0.1\ntime-wall:0.2\nmax-rss:1024\n";

#[test]
fn all_pass_scores_the_group() {
    let groups = vec![group(0, 1, 2, 100, vec![])];
    let (emitted, full) = drive(groups, &[(OK_META, OK_META), (OK_META, OK_META)]);
    assert_eq!(emitted, vec![(1, Verdict::Accepted), (2, Verdict::Accepted)]);
    match full {
        FullResult::Scored { score, groups_score } => {
            assert_eq!(score, 100);
            assert_eq!(groups_score, vec![100]);
        }
        _ => panic!("expected a scored result"),
    }
}

#[test]
fn time_limit_on_first_test_blocks_group() {
    let tl_meta = "status:TO\ntime:2.0\ntime-wall:2.0\nmax-rss:10\n";
    let groups = vec![group(0, 1, 3, 50, vec![])];
    let (emitted, full) = drive(groups, &[(tl_meta, OK_META)]);
    assert_eq!(emitted, vec![(1, Verdict::Tl)]);
    match full {
        FullResult::Scored { score, groups_score } => {
            assert_eq!(score, 0);
            assert_eq!(groups_score, vec![0]);
        }
        _ => panic!("expected a scored result"),
    }
}

#[test]
fn failed_dependency_skips_group() {
    let wa_checker = "status:RE\nexitcode:1\ntime:0\ntime-wall:0\nmax-rss:1\n";
    let groups = vec![group(0, 1, 1, 30, vec![]), group(1, 2, 2, 70, vec![0])];
    let (emitted, full) = drive(groups, &[(OK_META, wa_checker)]);
    assert_eq!(emitted, vec![(1, Verdict::Wa)]);
    match full {
        FullResult::Scored { score, groups_score } => {
            assert_eq!(score, 0);
            assert_eq!(groups_score, vec![0, 0]);
        }
        _ => panic!("expected a scored result"),
    }
}

#[test]
fn empty_groups_score_zero() {
    let sched = Scheduler::new(vec![]);
    match sched.final_result() {
        FullResult::Scored { score, groups_score } => {
            assert_eq!(score, 0);
            assert_eq!(groups_score, Vec::<u64>::new());
        }
        _ => panic!("expected a scored result"),
    }
}

#[test]
fn single_test_range_has_one_test() {
    assert_eq!(TestsRange(5, 5).tests(), vec![4]);
    assert_eq!(TestsRange(1, 3).tests(), vec![0, 1, 2]);
}

#[test]
fn blocked_entry_is_lowest_failing_test() {
    let mut sched = Scheduler::new(vec![group(0, 1, 9, 10, vec![])]);
    sched.record(0, 5, Verdict::Re);
    assert_eq!(sched.blocked[0], Some(5));
    sched.record(0, 2, Verdict::Wa);
    assert_eq!(sched.blocked[0], Some(2));
    sched.record(0, 7, Verdict::Tl);
    assert_eq!(sched.blocked[0], Some(2));
    sched.record(0, 3, Verdict::Accepted);
    assert_eq!(sched.blocked[0], Some(2));
}

#[test]
fn blocked_group_spawns_nothing() {
    let mut sched = Scheduler::new(vec![group(0, 1, 3, 10, vec![]), group(1, 4, 4, 5, vec![0])]);
    assert!(sched.should_spawn(0));
    assert!(sched.should_spawn(1));
    sched.record(0, 0, Verdict::Wa);
    assert!(!sched.should_spawn(0));
    assert!(!sched.should_spawn(1));
}

#[test]
fn success_never_blocks() {
    let mut sched = Scheduler::new(vec![group(0, 1, 2, 10, vec![])]);
    sched.record(0, 0, Verdict::Accepted);
    assert_eq!(sched.blocked[0], None);
    assert!(sched.should_spawn(0));
}

#[test]
fn compile_error_is_the_final_result() {
    let compiler = run_of("status:RE\nexitcode:1\ntime:0.3\ntime-wall:0.3\nmax-rss:5000\n");
    let outcome = invoker::judge::compile_outcome(compiler.status, String::from("main.cpp:1: error"));
    match outcome {
        Some(FullResult::Ce(msg)) => assert_eq!(msg, "main.cpp:1: error"),
        _ => panic!("a compiler exit code is the author's compile error"),
    }
}

#[test]
fn compiler_crash_is_a_judge_error() {
    let compiler = run_of("status:SG\nexitsig:9\ntime:0.3\ntime-wall:0.3\nmax-rss:5000\n");
    let outcome = invoker::judge::compile_outcome(compiler.status, String::from("boom"));
    match outcome {
        Some(FullResult::Te(msg)) => assert_eq!(msg, "boom"),
        _ => panic!("a crashed compiler is the judge's own failure"),
    }
}

#[test]
fn interactor_presentation_error() {
    let solution = run_of(OK_META);
    let interactor = run_of("status:RE\nexitcode:2\ntime:0.1\ntime-wall:0.1\nmax-rss:64\n");
    let result = invoker::judge::interactive_test_result(
        &solution,
        &interactor,
        String::from("interactor-stdout-text"),
        "interactor-stderr-text",
    );
    assert_eq!(result.verdict, Verdict::Pe);
    assert!(result.message.contains("interactor-stdout-text"));
    assert!(result.message.contains("interactor-stderr-text"));
    assert_eq!(result.output, "interactor-stdout-text");
}
