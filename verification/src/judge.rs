use vstd::prelude::*;

use crate::sandbox::{RunResult, RunStatus};

verus! {

/// Outcome of one test or of a whole submission, the judge's closed set.
#[derive(Debug, Clone, Copy, PartialEq, Eq, Structural)]
pub enum Verdict {
    Accepted,
    Wa,
    Pe,
    Ml,
    Tl,
    Re,
    Ce,
    Te,
    Sl,
}

/// The verdict a run status forces, or nothing where the run finished and the
/// grader still has to decide.
pub open spec fn spec_verdict_of_status(status: RunStatus) -> Option<Verdict> {
    match status {
        RunStatus::Completed => None,
        RunStatus::Tl => Some(Verdict::Tl),
        RunStatus::Ml => Some(Verdict::Ml),
        RunStatus::Re(_) => Some(Verdict::Re),
        RunStatus::Sg(_) => Some(Verdict::Re),
    }
}

impl Verdict {
    /// The verdict a run status forces on the solution.
    pub fn from_run_status(status: RunStatus) -> (r: Option<Verdict>)
        ensures
            r == spec_verdict_of_status(status),
    {
        match status {
            RunStatus::Completed => None,
            RunStatus::Tl => Some(Verdict::Tl),
            RunStatus::Ml => Some(Verdict::Ml),
            RunStatus::Re(_) => Some(Verdict::Re),
            RunStatus::Sg(_) => Some(Verdict::Re),
        }
    }

    pub fn is_success(&self) -> (r: bool)
        ensures
            r == (*self == Verdict::Accepted),
    {
        match self {
            Verdict::Accepted => true,
            _ => false,
        }
    }

    /// The two-letter code the wire format carries.
    pub fn code(&self) -> (r: &'static str)
        ensures
            r@ == spec_verdict_code(*self),
    {
        match self {
            Verdict::Accepted => "OK",
            Verdict::Wa => "WA",
            Verdict::Pe => "PE",
            Verdict::Ml => "ML",
            Verdict::Tl => "TL",
            Verdict::Re => "RE",
            Verdict::Ce => "CE",
            Verdict::Te => "TE",
            Verdict::Sl => "SL",
        }
    }
}

pub open spec fn spec_verdict_code(v: Verdict) -> Seq<char> {
    match v {
        Verdict::Accepted => "OK"@,
        Verdict::Wa => "WA"@,
        Verdict::Pe => "PE"@,
        Verdict::Ml => "ML"@,
        Verdict::Tl => "TL"@,
        Verdict::Re => "RE"@,
        Verdict::Ce => "CE"@,
        Verdict::Te => "TE"@,
        Verdict::Sl => "SL"@,
    }
}

/// A supported source language.
#[derive(Debug, Clone, Copy, PartialEq, Eq, Structural)]
pub enum Lang {
    Gpp,
    Python,
}

/// The command line that runs a compiled artifact of this language.
pub open spec fn spec_run_command(lang: Lang, name: Seq<char>) -> Seq<char> {
    match lang {
        Lang::Gpp => "./"@ + name,
        Lang::Python => "/usr/bin/python3 "@ + name,
    }
}

impl Lang {
    /// The command line that runs the artifact called `name`.
    pub fn run_command(&self, name: &str) -> (r: String)
        ensures
            r@ == spec_run_command(*self, name@),
    {
        let mut r = match self {
            Lang::Gpp => String::from_str("./"),
            Lang::Python => String::from_str("/usr/bin/python3 "),
        };
        r.append(name);
        r
    }
}

/// Outcome of a whole submission: a score with the per-group breakdown, a
/// compile error shown to the author, or a judge-side failure.
#[derive(Debug, Clone)]
pub enum FullResult {
    Scored { score: u64, groups_score: Vec<u64> },
    Ce(String),
    Te(String),
}

/// Outcome of one test.
#[derive(Debug, Clone)]
pub struct TestResult {
    pub verdict: Verdict,
    pub time_ms: u64,
    pub memory: u64,
    pub output: String,
    pub message: String,
}

/// Mathematical image of a `TestResult`.
pub ghost struct TestResultView {
    pub verdict: Verdict,
    pub time_ms: u64,
    pub memory: u64,
    pub output: Seq<char>,
    pub message: Seq<char>,
}

impl View for TestResult {
    type V = TestResultView;

    open spec fn view(&self) -> TestResultView {
        TestResultView {
            verdict: self.verdict,
            time_ms: self.time_ms,
            memory: self.memory,
            output: self.output@,
            message: self.message@,
        }
    }
}

/// `{dir}/{name}` or `{dir}/{name}.{ext}`.
pub open spec fn spec_path_from(dir: Seq<char>, name: Seq<char>, ext: Option<Seq<char>>) -> Seq<
    char,
> {
    dir + "/"@ + name + (match ext {
        Some(e) => "."@ + e,
        None => Seq::<char>::empty(),
    })
}

/// Joins a directory, a file name and an optional extension into a path.
pub fn path_from(dir: &str, name: &str, ext: Option<&str>) -> (r: String)
    ensures
        r@ == spec_path_from(
            dir@,
            name@,
            match ext {
                Some(e) => Some(e@),
                None => None,
            },
        ),
{
    let mut r = String::from_str(dir);
    r.append("/");
    r.append(name);
    match ext {
        Some(e) => {
            r.append(".");
            r.append(e);
            proof {
                assert(r@ =~= spec_path_from(dir@, name@, Some(e@)));
            }
        },
        None => {
            proof {
                assert(r@ =~= spec_path_from(dir@, name@, None));
            }
        },
    }
    r
}

/// The verdict the checker's exit forces: a crash of the checker itself is a
/// judge failure, exit 0 accepts, exit 1 rejects, exit 2 flags presentation.
pub open spec fn spec_checker_verdict(status: RunStatus) -> Verdict {
    match status {
        RunStatus::Ml => Verdict::Te,
        RunStatus::Tl => Verdict::Te,
        RunStatus::Sg(_) => Verdict::Te,
        RunStatus::Completed => Verdict::Accepted,
        RunStatus::Re(code) => if code == 1 {
            Verdict::Wa
        } else if code == 2 {
            Verdict::Pe
        } else {
            Verdict::Te
        },
    }
}

pub fn checker_verdict(status: RunStatus) -> (r: Verdict)
    ensures
        r == spec_checker_verdict(status),
{
    match status {
        RunStatus::Ml => Verdict::Te,
        RunStatus::Tl => Verdict::Te,
        RunStatus::Sg(_) => Verdict::Te,
        RunStatus::Completed => Verdict::Accepted,
        RunStatus::Re(code) => {
            if code == 1 {
                Verdict::Wa
            } else if code == 2 {
                Verdict::Pe
            } else {
                Verdict::Te
            }
        },
    }
}

/// The verdict the interactor's exit forces: as the checker, but its own
/// overrun of the clock is the solution's time limit.
pub open spec fn spec_interactor_verdict(status: RunStatus) -> Verdict {
    match status {
        RunStatus::Ml => Verdict::Te,
        RunStatus::Sg(_) => Verdict::Te,
        RunStatus::Completed => Verdict::Accepted,
        RunStatus::Tl => Verdict::Tl,
        RunStatus::Re(code) => if code == 1 {
            Verdict::Wa
        } else if code == 2 {
            Verdict::Pe
        } else {
            Verdict::Te
        },
    }
}

pub fn interactor_verdict(status: RunStatus) -> (r: Verdict)
    ensures
        r == spec_interactor_verdict(status),
{
    match status {
        RunStatus::Ml => Verdict::Te,
        RunStatus::Sg(_) => Verdict::Te,
        RunStatus::Completed => Verdict::Accepted,
        RunStatus::Tl => Verdict::Tl,
        RunStatus::Re(code) => {
            if code == 1 {
                Verdict::Wa
            } else if code == 2 {
                Verdict::Pe
            } else {
                Verdict::Te
            }
        },
    }
}

/// What came of compiling: the compiler being cut short is the judge's own
/// failure, a compiler exit code is the author's compile error, a clean exit
/// is success.
pub open spec fn spec_compile_outcome(status: RunStatus, errors: Seq<char>) -> Option<FullResultV> {
    match status {
        RunStatus::Tl => Some(FullResultV::Te(errors)),
        RunStatus::Ml => Some(FullResultV::Te(errors)),
        RunStatus::Sg(_) => Some(FullResultV::Te(errors)),
        RunStatus::Re(_) => Some(FullResultV::Ce(errors)),
        RunStatus::Completed => None,
    }
}

/// Mathematical image of a `FullResult`.
pub ghost enum FullResultV {
    Scored { score: u64, groups_score: Seq<u64> },
    Ce(Seq<char>),
    Te(Seq<char>),
}

impl View for FullResult {
    type V = FullResultV;

    open spec fn view(&self) -> FullResultV {
        match self {
            FullResult::Scored { score, groups_score } => FullResultV::Scored {
                score: *score,
                groups_score: groups_score@,
            },
            FullResult::Ce(m) => FullResultV::Ce(m@),
            FullResult::Te(m) => FullResultV::Te(m@),
        }
    }
}

/// Decides the compile stage from the compiler's run status and its captured
/// diagnostics; `None` means compilation succeeded.
pub fn compile_outcome(status: RunStatus, errors: String) -> (r: Option<FullResult>)
    ensures
        match r {
            Some(f) => spec_compile_outcome(status, errors@) == Some(f@),
            None => spec_compile_outcome(status, errors@) is None,
        },
{
    match status {
        RunStatus::Tl => Some(FullResult::Te(errors)),
        RunStatus::Ml => Some(FullResult::Te(errors)),
        RunStatus::Sg(_) => Some(FullResult::Te(errors)),
        RunStatus::Re(_) => Some(FullResult::Ce(errors)),
        RunStatus::Completed => None,
    }
}

/// `ISOLATE: {message}`, with `-` standing in for a missing message.
pub open spec fn spec_isolate_message(m: Option<Seq<char>>) -> Seq<char> {
    "ISOLATE: "@ + (match m {
        Some(s) => s,
        None => "-"@,
    })
}

fn isolate_message(m: &Option<String>) -> (r: String)
    ensures
        r@ == spec_isolate_message(
            match *m {
                Some(ref s) => Some(s@),
                None => None,
            },
        ),
{
    let mut r = String::from_str("ISOLATE: ");
    match m {
        Some(s) => r.append(s.as_str()),
        None => r.append("-"),
    }
    r
}

/// The grader's message around a checker run:
/// `checker_output: {out}\n, checker_error: {err}`, and the jail's own words
/// where the checker was not merely rejected.
pub open spec fn spec_checker_message(
    out: Seq<char>,
    err: Seq<char>,
    status: RunStatus,
    m: Option<Seq<char>>,
) -> Seq<char> {
    let head = "checker_output: "@ + out + "\n, checker_error: "@ + err;
    match status {
        RunStatus::Re(_) => head,
        _ => head + "\n 'isolate': "@ + (match m {
            Some(s) => s,
            None => Seq::<char>::empty(),
        }),
    }
}

fn checker_message(out: &str, err: &str, status: RunStatus, m: &Option<String>) -> (r: String)
    ensures
        r@ == spec_checker_message(
            out@,
            err@,
            status,
            match *m {
                Some(ref s) => Some(s@),
                None => None,
            },
        ),
{
    let mut r = String::from_str("checker_output: ");
    r.append(out);
    r.append("\n, checker_error: ");
    r.append(err);
    match status {
        RunStatus::Re(_) => (),
        _ => {
            r.append("\n 'isolate': ");
            match m {
                Some(s) => r.append(s.as_str()),
                None => (),
            }
        },
    }
    proof {
        match status {
            RunStatus::Re(_) => {},
            _ => {
                assert(r@ =~= spec_checker_message(
                    out@,
                    err@,
                    status,
                    match *m {
                        Some(ref s) => Some(s@),
                        None => None,
                    },
                ));
            },
        }
    }
    r
}

/// As `spec_checker_message`, with the interactor's labels.
pub open spec fn spec_interactor_message(
    out: Seq<char>,
    err: Seq<char>,
    status: RunStatus,
    m: Option<Seq<char>>,
) -> Seq<char> {
    let head = "interactor_output: "@ + out + "\n, interactor_error: "@ + err;
    match status {
        RunStatus::Re(_) => head,
        _ => head + "\n 'isolate': "@ + (match m {
            Some(s) => s,
            None => Seq::<char>::empty(),
        }),
    }
}

fn interactor_message(out: &str, err: &str, status: RunStatus, m: &Option<String>) -> (r: String)
    ensures
        r@ == spec_interactor_message(
            out@,
            err@,
            status,
            match *m {
                Some(ref s) => Some(s@),
                None => None,
            },
        ),
{
    let mut r = String::from_str("interactor_output: ");
    r.append(out);
    r.append("\n, interactor_error: ");
    r.append(err);
    match status {
        RunStatus::Re(_) => (),
        _ => {
            r.append("\n 'isolate': ");
            match m {
                Some(s) => r.append(s.as_str()),
                None => (),
            }
        },
    }
    proof {
        match status {
            RunStatus::Re(_) => {},
            _ => {
                assert(r@ =~= spec_interactor_message(
                    out@,
                    err@,
                    status,
                    match *m {
                        Some(ref s) => Some(s@),
                        None => None,
                    },
                ));
            },
        }
    }
    r
}

/// The test result a failed solution run forces, or nothing where the run
/// finished and grading goes on.
pub fn solution_failure(solution: &RunResult, output: String) -> (r: Option<TestResult>)
    ensures
        match r {
            Some(t) => spec_verdict_of_status(solution.status) == Some(t@.verdict) && t@.time_ms
                == solution.time_ms && t@.memory == solution.memory && t@.output == output@
                && t@.message == spec_isolate_message(solution@.status_message),
            None => solution.status is Completed,
        },
{
    match Verdict::from_run_status(solution.status) {
        Some(verdict) => Some(
            TestResult {
                verdict,
                time_ms: solution.time_ms,
                memory: solution.memory,
                output,
                message: isolate_message(&solution.status_message),
            },
        ),
        None => None,
    }
}

/// Grades a batch test from the solution's and the checker's runs: the
/// checker's exit picks the verdict, the solution's run gives the
/// measurements.
pub fn batch_test_result(
    solution: &RunResult,
    output: String,
    checker: &RunResult,
    checker_output: &str,
    checker_error: &str,
) -> (r: TestResult)
    ensures
        r@.verdict == spec_checker_verdict(checker.status),
        r@.time_ms == solution.time_ms,
        r@.memory == solution.memory,
        r@.output == output@,
        r@.message == spec_checker_message(
            checker_output@,
            checker_error@,
            checker.status,
            checker@.status_message,
        ),
{
    TestResult {
        verdict: checker_verdict(checker.status),
        time_ms: solution.time_ms,
        memory: solution.memory,
        output,
        message: checker_message(
            checker_output,
            checker_error,
            checker.status,
            &checker.status_message,
        ),
    }
}

/// The test result a failed solution run forces in an interactive task.
pub fn interactive_solution_failure(
    solution: &RunResult,
    interactor_output: String,
    interactor_error: &str,
) -> (r: Option<TestResult>)
    ensures
        match r {
            Some(t) => spec_verdict_of_status(solution.status) == Some(t@.verdict) && t@.time_ms
                == solution.time_ms && t@.memory == solution.memory && t@.output
                == interactor_output@ && t@.message == spec_isolate_message(
                solution@.status_message,
            ) + "\nINTERACTOR_ERRORS: "@ + interactor_error@,
            None => solution.status is Completed,
        },
{
    match Verdict::from_run_status(solution.status) {
        Some(verdict) => {
            let mut message = isolate_message(&solution.status_message);
            message.append("\nINTERACTOR_ERRORS: ");
            message.append(interactor_error);
            Some(
                TestResult {
                    verdict,
                    time_ms: solution.time_ms,
                    memory: solution.memory,
                    output: interactor_output,
                    message,
                },
            )
        },
        None => None,
    }
}

/// Grades an interactive test from the two runs: the interactor's exit picks
/// the verdict, the solution's run gives the measurements, the interactor's
/// captured output is handed back.
pub fn interactive_test_result(
    solution: &RunResult,
    interactor: &RunResult,
    interactor_output: String,
    interactor_error: &str,
) -> (r: TestResult)
    ensures
        r@.verdict == spec_interactor_verdict(interactor.status),
        r@.time_ms == solution.time_ms,
        r@.memory == solution.memory,
        r@.output == interactor_output@,
        r@.message == spec_interactor_message(
            interactor_output@,
            interactor_error@,
            interactor.status,
            interactor@.status_message,
        ),
{
    TestResult {
        verdict: interactor_verdict(interactor.status),
        time_ms: solution.time_ms,
        memory: solution.memory,
        message: interactor_message(
            interactor_output.as_str(),
            interactor_error,
            interactor.status,
            &interactor.status_message,
        ),
        output: interactor_output,
    }
}

} // verus!
