use cargo_kimi::config::{ContractsConfig, KimiConfig, OutputConfig};
use cargo_kimi::{check_outcome, cmd_check, CheckFailure, CheckOutcome, ReportStyle};

#[test]
fn check_plan_text() {
    let plan = cmd_check(&KimiConfig::default(), "standard", "text");
    assert_eq!(plan.strictness, "standard");
    assert_eq!(plan.format, "text");
    assert_eq!(plan.style, ReportStyle::Text);
    assert!(plan.append_history && plan.run_clippy_and_tests && plan.write_badge);
}

#[test]
fn check_plan_machine_formats() {
    let plan = cmd_check(&KimiConfig::default(), "strict", "json");
    assert_eq!(plan.style, ReportStyle::Json);
    assert!(!plan.append_history && !plan.run_clippy_and_tests && !plan.write_badge);
    let plan = cmd_check(&KimiConfig::default(), "strict", "sarif");
    assert_eq!(plan.style, ReportStyle::Sarif);
    assert!(!plan.append_history && !plan.run_clippy_and_tests && !plan.write_badge);
}

#[test]
fn check_plan_unknown_format_reports_text_without_badge() {
    let plan = cmd_check(&KimiConfig::default(), "strict", "xml");
    assert_eq!(plan.style, ReportStyle::Text);
    assert!(plan.append_history && plan.run_clippy_and_tests);
    assert!(!plan.write_badge);
}

#[test]
fn check_plan_config_overrides_arguments() {
    let cfg = KimiConfig {
        contracts: Some(ContractsConfig { strictness: Some("relaxed".to_string()), fail_on_drop: None }),
        score: None,
        output: Some(OutputConfig { format: Some("json".to_string()) }),
    };
    let plan = cmd_check(&cfg, "strict", "text");
    assert_eq!(plan.strictness, "relaxed");
    assert_eq!(plan.format, "json");
    assert_eq!(plan.style, ReportStyle::Json);
}

fn text_plan() -> cargo_kimi::CheckPlan {
    cmd_check(&KimiConfig::default(), "standard", "text")
}

#[test]
fn check_outcome_critical_issues_fail_before_clippy() {
    let scores = vec![90u32, 80];
    let o = check_outcome(&text_plan(), true, None, None, &scores);
    assert_eq!(o, CheckOutcome::Fail(CheckFailure::CriticalIssues));
    let json = cmd_check(&KimiConfig::default(), "standard", "json");
    let o = check_outcome(&json, true, None, None, &scores);
    assert_eq!(o, CheckOutcome::Fail(CheckFailure::CriticalIssues));
    assert_eq!(
        CheckFailure::CriticalIssues.message(ReportStyle::Json),
        "Contract check failed: critical issues found"
    );
    assert_eq!(
        CheckFailure::CriticalIssues.message(ReportStyle::Text),
        "❌ Contract check failed: critical issues found"
    );
}

#[test]
fn check_outcome_machine_formats_stop_after_the_report() {
    let scores = vec![90u32];
    let json = cmd_check(&KimiConfig::default(), "standard", "json");
    assert_eq!(check_outcome(&json, false, None, None, &scores), CheckOutcome::Pass { badge_score: None });
    let sarif = cmd_check(&KimiConfig::default(), "standard", "sarif");
    assert_eq!(check_outcome(&sarif, false, None, None, &scores), CheckOutcome::Pass { badge_score: None });
}

#[test]
fn check_outcome_runs_clippy_then_tests() {
    let scores = vec![90u32, 81];
    let plan = text_plan();
    assert_eq!(check_outcome(&plan, false, None, None, &scores), CheckOutcome::RunClippy);
    assert_eq!(
        check_outcome(&plan, false, Some(false), None, &scores),
        CheckOutcome::Fail(CheckFailure::ClippyFailed)
    );
    assert_eq!(check_outcome(&plan, false, Some(true), None, &scores), CheckOutcome::RunTests);
    assert_eq!(
        check_outcome(&plan, false, Some(true), Some(false), &scores),
        CheckOutcome::Fail(CheckFailure::TestsFailed)
    );
    assert_eq!(
        check_outcome(&plan, false, Some(true), Some(true), &scores),
        CheckOutcome::Pass { badge_score: Some(85) }
    );
    assert_eq!(CheckFailure::ClippyFailed.message(ReportStyle::Text), "❌ Clippy failed");
    assert_eq!(CheckFailure::TestsFailed.message(ReportStyle::Text), "❌ Tests failed");
}

#[test]
fn check_outcome_badge_score_is_zero_without_reports() {
    let scores: Vec<u32> = vec![];
    assert_eq!(
        check_outcome(&text_plan(), false, Some(true), Some(true), &scores),
        CheckOutcome::Pass { badge_score: Some(0) }
    );
}

#[test]
fn check_outcome_other_formats_write_no_badge() {
    let scores = vec![70u32];
    let xml = cmd_check(&KimiConfig::default(), "standard", "xml");
    assert_eq!(check_outcome(&xml, false, None, None, &scores), CheckOutcome::RunClippy);
    assert_eq!(
        check_outcome(&xml, false, Some(true), Some(true), &scores),
        CheckOutcome::Pass { badge_score: None }
    );
}
