//! `cargo kimi`: design-by-contract tooling for Rust projects. This library
//! holds the tool's logic, each function with its contract: the score badge,
//! the configuration, skills, score history, workspace discovery, project
//! path checks, proof coverage and the language server's messages.
use vstd::prelude::*;

pub mod badge;
pub mod config;
pub mod lsp;
pub mod skills;
pub mod text;
pub mod trend;
pub mod util;
pub mod verify;
pub mod workspace;

use crate::config::KimiConfig;
use crate::text::{chars_of, same_chars};
use crate::trend::{average, average_score, score_sum};
use crate::util::{project_path, validate_project_path, PathError};

verus! {

/// A contract score.
pub struct Score(pub u32);

/// The command-line arguments of the tool.
pub struct MainArgs(pub Vec<String>);

/// What test generation is asked to do: scan `src_dir` for newtypes and write
/// the tests to `output`, or to the default place when there is none.
pub struct TestGeneration {
    pub src_dir: String,
    pub output: Option<String>,
}

/// Prepares `cargo kimi generate-tests`: the sources are read from `src`, and
/// an output path, when one is given, must pass [`validate_project_path`]
/// against the canonical project directory `cwd`, with `resolved` the output
/// path as the file system resolves it; it is then used as given.
pub fn cmd_generate_tests(output: Option<&str>, cwd: &str, resolved: &str) -> (r: Result<
    TestGeneration,
    PathError,
>)
    ensures
        match output {
            None => r matches Ok(g) && g.src_dir@ == "src"@ && g.output is None,
            Some(p) => match project_path(p@, cwd@, resolved@) {
                Err(e) => r == Err::<TestGeneration, PathError>(e),
                Ok(_) => r matches Ok(g) && g.src_dir@ == "src"@ && (g.output matches Some(o)
                    && o@ == p@),
            },
        },
{
    let src_dir = String::from_str("src");
    match output {
        None => Ok(TestGeneration { src_dir, output: None }),
        Some(p) => match validate_project_path(p, cwd, resolved) {
            Err(e) => Err(e),
            Ok(_) => Ok(TestGeneration { src_dir, output: Some(String::from_str(p)) }),
        },
    }
}

/// How `cargo kimi check` reports its results.
#[derive(PartialEq, Eq, Structural, Clone, Copy, Debug)]
pub enum ReportStyle {
    Json,
    Sarif,
    Text,
}

/// What `cargo kimi check` does after the contract checker has run.
pub struct CheckPlan {
    /// The strictness level the checker runs at.
    pub strictness: String,
    /// The output format asked for.
    pub format: String,
    pub style: ReportStyle,
    /// Append the scores to the history file.
    pub append_history: bool,
    /// Run `cargo clippy` and `cargo test` when no critical issue is left.
    pub run_clippy_and_tests: bool,
    /// Write `kimi-score.svg` once everything passed.
    pub write_badge: bool,
}

/// The settings of the configuration file win over those of the command line.
pub open spec fn effective(configured: Option<Seq<char>>, given: Seq<char>) -> Seq<char> {
    match configured {
        Some(c) => c,
        None => given,
    }
}

/// Decides how `cargo kimi check` runs: JSON and SARIF output is printed alone
/// (no history, no clippy, no tests, no badge); any other format prints the
/// text report, records the history and runs clippy and the tests, and only
/// the `text` format also writes the badge.
pub fn cmd_check(cfg: &KimiConfig, strictness: &str, format: &str) -> (plan: CheckPlan)
    ensures
        plan.strictness@ == effective(cfg.strictness_spec(), strictness@),
        plan.format@ == effective(cfg.output_format_spec(), format@),
        plan.format@ == "json"@ ==> plan.style == ReportStyle::Json,
        plan.format@ == "sarif"@ ==> plan.style == ReportStyle::Sarif,
        plan.format@ != "json"@ && plan.format@ != "sarif"@ ==> plan.style == ReportStyle::Text,
        plan.append_history == (plan.style == ReportStyle::Text),
        plan.run_clippy_and_tests == (plan.style == ReportStyle::Text),
        plan.write_badge == (plan.format@ == "text"@),
{
    let strictness = match cfg.strictness() {
        Some(s) => s,
        None => strictness,
    };
    let format = match cfg.output_format() {
        Some(f) => f,
        None => format,
    };
    let fc = chars_of(format);
    let json = chars_of("json");
    let sarif = chars_of("sarif");
    let text = chars_of("text");
    let style = if same_chars(&fc, &json) {
        ReportStyle::Json
    } else if same_chars(&fc, &sarif) {
        ReportStyle::Sarif
    } else {
        ReportStyle::Text
    };
    let is_text = style == ReportStyle::Text;
    let write_badge = same_chars(&fc, &text);
    proof {
        reveal_strlit("text");
        reveal_strlit("json");
        reveal_strlit("sarif");
        assert("json"@.len() != "sarif"@.len());
    }
    CheckPlan {
        strictness: String::from_str(strictness),
        format: String::from_str(format),
        style,
        append_history: is_text,
        run_clippy_and_tests: is_text,
        write_badge,
    }
}

/// Why `cargo kimi check` failed.
#[derive(PartialEq, Eq, Structural, Clone, Copy, Debug)]
pub enum CheckFailure {
    /// A critical issue is left that no exemption covers.
    CriticalIssues,
    ClippyFailed,
    TestsFailed,
}

impl CheckFailure {
    /// The message the command fails with; the text report marks it with ❌.
    pub fn message(&self, style: ReportStyle) -> (s: String)
        ensures
            s@ == check_failure_message(*self, style),
    {
        match self {
            CheckFailure::CriticalIssues => if style == ReportStyle::Text {
                String::from_str("❌ Contract check failed: critical issues found")
            } else {
                String::from_str("Contract check failed: critical issues found")
            },
            CheckFailure::ClippyFailed => String::from_str("❌ Clippy failed"),
            CheckFailure::TestsFailed => String::from_str("❌ Tests failed"),
        }
    }
}

pub open spec fn check_failure_message(f: CheckFailure, style: ReportStyle) -> Seq<char> {
    match f {
        CheckFailure::CriticalIssues => if style == ReportStyle::Text {
            "❌ Contract check failed: critical issues found"@
        } else {
            "Contract check failed: critical issues found"@
        },
        CheckFailure::ClippyFailed => "❌ Clippy failed"@,
        CheckFailure::TestsFailed => "❌ Tests failed"@,
    }
}

/// The next thing `cargo kimi check` does once the reports are in.
#[derive(PartialEq, Eq, Structural, Clone, Copy, Debug)]
pub enum CheckOutcome {
    /// Run `cargo clippy --workspace -- -D warnings` and come back with its result.
    RunClippy,
    /// Run `cargo test --workspace` and come back with its result.
    RunTests,
    /// The command fails.
    Fail(CheckFailure),
    /// The command succeeds, writing the badge with this score when there is one.
    Pass { badge_score: Option<u32> },
}

/// How `cargo kimi check` goes on after the contract checker has run, given
/// the report style, whether the badge is written, whether a critical
/// unexempted issue is left, the result of clippy and of the tests once they
/// have run (`None` before), and the reports' scores.
pub open spec fn check_decision(
    style: ReportStyle,
    write_badge: bool,
    critical_unexempted: bool,
    clippy_ok: Option<bool>,
    tests_ok: Option<bool>,
    scores: Seq<u32>,
) -> CheckOutcome {
    if critical_unexempted {
        CheckOutcome::Fail(CheckFailure::CriticalIssues)
    } else if style != ReportStyle::Text {
        CheckOutcome::Pass { badge_score: None }
    } else {
        match clippy_ok {
            None => CheckOutcome::RunClippy,
            Some(false) => CheckOutcome::Fail(CheckFailure::ClippyFailed),
            Some(true) => match tests_ok {
                None => CheckOutcome::RunTests,
                Some(false) => CheckOutcome::Fail(CheckFailure::TestsFailed),
                Some(true) => CheckOutcome::Pass {
                    badge_score: if write_badge {
                        Some(average(scores) as u32)
                    } else {
                        None
                    },
                },
            },
        }
    }
}

/// Decides how `cargo kimi check` goes on (see [`check_decision`]). A critical
/// issue fails the command before clippy and the tests; machine-readable
/// output stops there; otherwise clippy runs first, a clippy failure fails the
/// command without running the tests, then the tests run and decide. On
/// success the text format writes the badge with the average score, 0 when
/// there are no reports.
pub fn check_outcome(
    plan: &CheckPlan,
    critical_unexempted: bool,
    clippy_ok: Option<bool>,
    tests_ok: Option<bool>,
    scores: &Vec<u32>,
) -> (o: CheckOutcome)
    requires
        plan.write_badge ==> score_sum(scores@) <= u32::MAX && scores@.len() <= u32::MAX,
    ensures
        o == check_decision(
            plan.style,
            plan.write_badge,
            critical_unexempted,
            clippy_ok,
            tests_ok,
            scores@,
        ),
{
    if critical_unexempted {
        return CheckOutcome::Fail(CheckFailure::CriticalIssues);
    }
    if plan.style != ReportStyle::Text {
        return CheckOutcome::Pass { badge_score: None };
    }
    match clippy_ok {
        None => CheckOutcome::RunClippy,
        Some(false) => CheckOutcome::Fail(CheckFailure::ClippyFailed),
        Some(true) => match tests_ok {
            None => CheckOutcome::RunTests,
            Some(false) => CheckOutcome::Fail(CheckFailure::TestsFailed),
            Some(true) => {
                let badge_score = if plan.write_badge {
                    Some(average_score(scores))
                } else {
                    None
                };
                CheckOutcome::Pass { badge_score }
            },
        },
    }
}

/// Whatever happens, `cargo kimi check` never runs clippy or the tests while a
/// critical unexempted issue is left, fails with JSON or SARIF output exactly
/// when such an issue is left, never runs the tests before clippy has
/// passed, succeeds with the text report only when both have passed, and
/// writes the badge with the average score (0 for no reports).
pub proof fn law_check_order(
    style: ReportStyle,
    write_badge: bool,
    critical: bool,
    clippy_ok: Option<bool>,
    tests_ok: Option<bool>,
    scores: Seq<u32>,
)
    ensures
        ({
            let o = check_decision(style, write_badge, critical, clippy_ok, tests_ok, scores);
            &&& critical ==> o == CheckOutcome::Fail(CheckFailure::CriticalIssues)
            &&& style != ReportStyle::Text ==> (o is Fail <==> critical)
            &&& (style != ReportStyle::Text && !critical) ==> o == CheckOutcome::Pass {
                badge_score: None,
            }
            &&& o == CheckOutcome::RunTests ==> clippy_ok == Some(true) && !critical
            &&& o == CheckOutcome::RunClippy ==> !critical && style == ReportStyle::Text
            &&& (o is Pass && style == ReportStyle::Text) ==> clippy_ok == Some(true) && tests_ok
                == Some(true)
            &&& o matches CheckOutcome::Pass { badge_score: Some(b) } ==> b == average(scores)
                as u32 && (scores.len() == 0 ==> b == 0)
        }),
{
}

} // verus!
