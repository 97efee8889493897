use cargo_kimi::lsp::{
    hover_markdown, issues_to_code_actions, issues_to_diagnostics,
    issue_to_code_action, issue_to_diagnostic, CodeActionKind, DiagnosticSeverity, Issue,
    IssueCategory, Severity,
};

fn dummy_issue(category: IssueCategory, line: usize) -> Issue {
    Issue {
        file: "/tmp/test.rs".to_string(),
        line,
        message: "test message".to_string(),
        severity: Severity::Major,
        category,
    }
}

#[test]
fn issue_to_diagnostic_maps_severity() {
    let issue = dummy_issue(IssueCategory::MissingHoareTriple, 5);
    let diag = issue_to_diagnostic(&issue);
    assert_eq!(diag.severity, Some(DiagnosticSeverity::Error));
    assert_eq!(diag.range.start.line, 4);
    assert_eq!(diag.range.end.line, 4);
}

#[test]
fn issue_to_code_action_hoare_triple() {
    let issue = dummy_issue(IssueCategory::MissingHoareTriple, 3);
    let action = issue_to_code_action(&issue).unwrap();
    assert_eq!(action.title, "Insert Hoare triple stub");
    assert_eq!(action.kind, Some(CodeActionKind::QuickFix));
}

#[test]
fn issue_to_code_action_safety_comment() {
    let issue = dummy_issue(IssueCategory::UnsafeWithoutSafety, 7);
    let action = issue_to_code_action(&issue).unwrap();
    assert_eq!(action.title, "Add SAFETY comment");
    assert_eq!(action.kind, Some(CodeActionKind::QuickFix));
}

#[test]
fn issue_to_code_action_unwrap_returns_none() {
    let issue = dummy_issue(IssueCategory::UnwrapExpectPanic, 1);
    assert!(issue_to_code_action(&issue).is_none());
}

#[test]
fn diagnostic_codes_and_levels() {
    let mut issue = dummy_issue(IssueCategory::UnwrapExpectPanic, 0);
    issue.severity = Severity::Minor;
    let d = issue_to_diagnostic(&issue);
    assert_eq!(d.severity, Some(DiagnosticSeverity::Warning));
    assert_eq!(d.code, Some("kimi/unwrap-expect-panic".to_string()));
    assert_eq!(d.source, Some("cargo-kimi".to_string()));
    assert_eq!(d.message, "test message");
    assert_eq!(d.range.start.line, 0);
    assert_eq!(d.range.start.character, 0);
    assert_eq!(d.range.end.character, 10_000);

    issue.severity = Severity::Info;
    issue.category = IssueCategory::UnsafeWithoutSafety;
    let d = issue_to_diagnostic(&issue);
    assert_eq!(d.severity, Some(DiagnosticSeverity::Information));
    assert_eq!(d.code, Some("kimi/unsafe-without-safety".to_string()));

    issue.severity = Severity::Critical;
    issue.category = IssueCategory::MissingHoareTriple;
    let d = issue_to_diagnostic(&issue);
    assert_eq!(d.severity, Some(DiagnosticSeverity::Error));
    assert_eq!(d.code, Some("kimi/missing-hoare-triple".to_string()));
}

#[test]
fn hoare_stub_names_the_function() {
    let mut issue = dummy_issue(IssueCategory::MissingHoareTriple, 12);
    issue.message = "pub fn 'compute' has no Hoare triple".to_string();
    let action = issue_to_code_action(&issue).unwrap();
    assert_eq!(action.uri, "file:///tmp/test.rs");
    assert_eq!(action.edits.len(), 1);
    assert_eq!(action.edits[0].range.start.line, 11);
    assert_eq!(action.edits[0].range.end.character, 0);
    assert_eq!(
        action.edits[0].new_text,
        "/// { TODO: precondition }\n/// `pub fn compute`\n/// { TODO: postcondition }\n"
    );

    issue.message = "test message".to_string();
    let action = issue_to_code_action(&issue).unwrap();
    assert!(action.edits[0].new_text.contains("`pub fn unknown`"));
}

#[test]
fn safety_stub_text() {
    let issue = dummy_issue(IssueCategory::UnsafeWithoutSafety, 1);
    let action = issue_to_code_action(&issue).unwrap();
    assert_eq!(action.edits[0].new_text, "// SAFETY: TODO: explain why this is safe\n");
    assert_eq!(action.edits[0].range.start.line, 0);
}

#[test]
fn relative_file_gets_no_action() {
    let mut issue = dummy_issue(IssueCategory::UnsafeWithoutSafety, 1);
    issue.file = "src/lib.rs".to_string();
    assert!(issue_to_code_action(&issue).is_none());
}

#[test]
fn hover_text_by_score() {
    assert_eq!(
        hover_markdown(85, 2),
        "### Kimi Contract Score\n\n🟢 **85/100**\n\n2 issue(s) found"
    );
    assert!(hover_markdown(60, 0).contains("🟡 **60/100**"));
    assert!(hover_markdown(40, 0).contains("🟠 **40/100**"));
    assert!(hover_markdown(39, 1).contains("🔴 **39/100**\n\n1 issue(s) found"));
}

#[test]
fn batch_diagnostics_and_actions() {

    let issues = vec![
        dummy_issue(IssueCategory::MissingHoareTriple, 1),
        dummy_issue(IssueCategory::UnwrapExpectPanic, 2),
        dummy_issue(IssueCategory::UnsafeWithoutSafety, 3),
    ];
    let ds = issues_to_diagnostics(&issues);
    assert_eq!(ds.len(), 3);
    assert_eq!(ds[2].range.start.line, 2);
    let actions = issues_to_code_actions(&issues);
    assert_eq!(actions.len(), 2);
    assert_eq!(actions[0].title, "Insert Hoare triple stub");
    assert_eq!(actions[1].title, "Add SAFETY comment");
    assert_eq!(actions[1].edits[0].range.start.line, 2);
}
