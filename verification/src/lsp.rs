//! What the language server tells the editor about contract issues:
//! diagnostics, quick fixes and the hover summary. The server loop itself,
//! which talks to the editor, lives outside this library.
use vstd::prelude::*;

use crate::text::{
    before_char, before_char_exec, chars_of, dec, decimal, slice_chars, starts_with,
    starts_with_chars, string_of,
};

verus! {

/// How serious a contract issue is.
#[derive(PartialEq, Eq, Structural, Clone, Copy, Debug)]
pub enum Severity {
    Critical,
    Major,
    Minor,
    Info,
}

/// What kind of contract issue was found.
#[derive(PartialEq, Eq, Structural, Clone, Copy, Debug)]
pub enum IssueCategory {
    MissingHoareTriple,
    UnwrapExpectPanic,
    UnsafeWithoutSafety,
}

/// A contract issue at a line (1-based) of a file.
pub struct Issue {
    pub file: String,
    pub line: usize,
    pub message: String,
    pub severity: Severity,
    pub category: IssueCategory,
}

/// A position in a document: 0-based line and character.
#[derive(PartialEq, Eq, Structural, Clone, Copy, Debug)]
pub struct Position {
    pub line: u32,
    pub character: u32,
}

/// A range of a document.
#[derive(PartialEq, Eq, Structural, Clone, Copy, Debug)]
pub struct Range {
    pub start: Position,
    pub end: Position,
}

/// Severity of a diagnostic, as the language server protocol knows it.
#[derive(PartialEq, Eq, Structural, Clone, Copy, Debug)]
pub enum DiagnosticSeverity {
    Error,
    Warning,
    Information,
    Hint,
}

/// A diagnostic for the editor.
pub struct Diagnostic {
    pub range: Range,
    pub severity: Option<DiagnosticSeverity>,
    pub code: Option<String>,
    pub source: Option<String>,
    pub message: String,
}

/// The kind of a code action.
#[derive(PartialEq, Eq, Structural, Clone, Copy, Debug)]
pub enum CodeActionKind {
    QuickFix,
}

/// Text to put in place of a range of a document.
pub struct TextEdit {
    pub range: Range,
    pub new_text: String,
}

/// A quick fix: edits to one document, named by its `file://` URL.
pub struct CodeAction {
    pub title: String,
    pub kind: Option<CodeActionKind>,
    pub uri: String,
    pub edits: Vec<TextEdit>,
}

/// A document URI as the editor sends it.
pub struct LspUri(pub String);

/// The 0-based line of an issue's 1-based line (`saturating_sub(1) as u32`).
pub open spec fn zero_based(line: usize) -> u32 {
    (if line == 0 {
        0
    } else {
        line - 1
    }) as u32
}

/// The diagnostic severity of an issue severity.
pub open spec fn severity_level(s: Severity) -> DiagnosticSeverity {
    match s {
        Severity::Critical => DiagnosticSeverity::Error,
        Severity::Major => DiagnosticSeverity::Error,
        Severity::Minor => DiagnosticSeverity::Warning,
        Severity::Info => DiagnosticSeverity::Information,
    }
}

/// The diagnostic code of an issue category.
pub open spec fn category_code(c: IssueCategory) -> Seq<char> {
    match c {
        IssueCategory::MissingHoareTriple => "kimi/missing-hoare-triple"@,
        IssueCategory::UnwrapExpectPanic => "kimi/unwrap-expect-panic"@,
        IssueCategory::UnsafeWithoutSafety => "kimi/unsafe-without-safety"@,
    }
}

/// A range covering the whole of line `l`.
pub open spec fn line_range(l: u32) -> Range {
    Range { start: Position { line: l, character: 0 }, end: Position { line: l, character: 10_000 } }
}

/// An empty range at the start of line `l`.
pub open spec fn insertion_point(l: u32) -> Range {
    Range { start: Position { line: l, character: 0 }, end: Position { line: l, character: 0 } }
}

fn zero_based_exec(line: usize) -> (r: u32)
    ensures
        r == zero_based(line),
{
    let l = if line == 0 {
        0
    } else {
        line - 1
    };
    l as u32
}

/// The diagnostic that reports `issue`.
pub fn issue_to_diagnostic(issue: &Issue) -> (d: Diagnostic)
    ensures
        d.range == line_range(zero_based(issue.line)),
        d.severity == Some(severity_level(issue.severity)),
        d.code matches Some(c) && c@ == category_code(issue.category),
        d.source matches Some(s) && s@ == "cargo-kimi"@,
        d.message@ == issue.message@,
{
    let severity = match issue.severity {
        Severity::Critical => Some(DiagnosticSeverity::Error),
        Severity::Major => Some(DiagnosticSeverity::Error),
        Severity::Minor => Some(DiagnosticSeverity::Warning),
        Severity::Info => Some(DiagnosticSeverity::Information),
    };
    let code = match issue.category {
        IssueCategory::MissingHoareTriple => String::from_str("kimi/missing-hoare-triple"),
        IssueCategory::UnwrapExpectPanic => String::from_str("kimi/unwrap-expect-panic"),
        IssueCategory::UnsafeWithoutSafety => String::from_str("kimi/unsafe-without-safety"),
    };
    let line = zero_based_exec(issue.line);
    let range = Range {
        start: Position { line, character: 0 },
        end: Position { line, character: 10_000 },
    };
    Diagnostic {
        range,
        severity,
        code: Some(code),
        source: Some(String::from_str("cargo-kimi")),
        message: issue.message.clone(),
    }
}

/// The function name a missing-Hoare-triple message names: the text after
/// `pub fn '` up to the next `'`, or `unknown` when the message does not start
/// that way.
pub open spec fn stub_fn_name(message: Seq<char>) -> Seq<char> {
    if starts_with(message, "pub fn '"@) {
        before_char(message.skip("pub fn '"@.len() as int), '\'')
    } else {
        "unknown"@
    }
}

/// The Hoare triple stub inserted above a function named `name`.
pub open spec fn hoare_stub(name: Seq<char>) -> Seq<char> {
    "/// { TODO: precondition }\n/// `pub fn "@ + name + "`\n/// { TODO: postcondition }\n"@
}

/// The comment inserted above an `unsafe` block.
pub open spec fn safety_stub() -> Seq<char> {
    "// SAFETY: TODO: explain why this is safe\n"@
}

/// The `file://` URL of a path, as `Url::from_file_path` makes it.
pub uninterp spec fn file_url(path: Seq<char>) -> Option<Seq<char>>;

/// `tower_lsp::lsp_types::Url::from_file_path`, with the URL returned as text.
/// On Unix it fails exactly when the path is not absolute, that is, when it
/// does not start with `/`.
#[verifier::external_body]
fn url_from_file_path(path: &str) -> (r: Option<String>)
    ensures
        r matches Some(u) ==> file_url(path@) == Some(u@),
        r is None ==> file_url(path@) is None,
        r is Some <==> (path@.len() > 0 && path@[0] == '/'),
{
    match tower_lsp::lsp_types::Url::from_file_path(path) {
        Ok(u) => Some(String::from(u)),
        Err(_) => None,
    }
}

/// `stub_fn_name` of a message.
fn stub_fn_name_exec(message: &String) -> (r: String)
    ensures
        r@ == stub_fn_name(message@),
{
    let m = chars_of(message.as_str());
    let prefix = chars_of("pub fn '");
    if starts_with_chars(&m, &prefix) {
        let rest = slice_chars(&m, prefix.len(), m.len());
        let name = before_char_exec(&rest, '\'');
        string_of(name.as_slice())
    } else {
        String::from_str("unknown")
    }
}

/// `a` is the quick fix for `issue`: an edit of the issue's document, by its
/// URL, inserting at the start of the issue's line a Hoare triple stub for a
/// function without one, or a `SAFETY` comment above an `unsafe` block.
pub open spec fn fixes(a: CodeAction, issue: Issue) -> bool {
    &&& a.kind == Some(CodeActionKind::QuickFix)
    &&& file_url(issue.file@) == Some(a.uri@)
    &&& a.edits@.len() == 1
    &&& a.edits@[0].range == insertion_point(zero_based(issue.line))
    &&& issue.category == IssueCategory::MissingHoareTriple ==> {
        &&& a.title@ == "Insert Hoare triple stub"@
        &&& a.edits@[0].new_text@ == hoare_stub(stub_fn_name(issue.message@))
    }
    &&& issue.category == IssueCategory::UnsafeWithoutSafety ==> {
        &&& a.title@ == "Add SAFETY comment"@
        &&& a.edits@[0].new_text@ == safety_stub()
    }
}

/// The quick fix for `issue`: a Hoare triple stub above a function that lacks
/// one, a `SAFETY` comment above an `unsafe` block. There is none for an
/// `unwrap`/`expect`, nor when the issue's file has no `file://` URL, which
/// is when its path is not absolute.
pub fn issue_to_code_action(issue: &Issue) -> (r: Option<CodeAction>)
    ensures
        issue.category == IssueCategory::UnwrapExpectPanic ==> r is None,
        issue.category != IssueCategory::UnwrapExpectPanic ==> (r is Some <==> file_url(
            issue.file@,
        ) is Some),
        issue.category != IssueCategory::UnwrapExpectPanic ==> (r is Some <==> (issue.file@.len()
            > 0 && issue.file@[0] == '/')),
        r matches Some(a) ==> fixes(a, *issue),
{
    let line = zero_based_exec(issue.line);
    let range = Range {
        start: Position { line, character: 0 },
        end: Position { line, character: 0 },
    };
    let (title, new_text) = match issue.category {
        IssueCategory::MissingHoareTriple => {
            let fn_name = stub_fn_name_exec(&issue.message);
            let mut new_text = String::from_str("/// { TODO: precondition }\n/// `pub fn ");
            new_text.append(fn_name.as_str());
            new_text.append("`\n/// { TODO: postcondition }\n");
            (String::from_str("Insert Hoare triple stub"), new_text)
        },
        IssueCategory::UnsafeWithoutSafety => {
            (
                String::from_str("Add SAFETY comment"),
                String::from_str("// SAFETY: TODO: explain why this is safe\n"),
            )
        },
        IssueCategory::UnwrapExpectPanic => {
            return None;
        },
    };
    let uri = match url_from_file_path(issue.file.as_str()) {
        Some(u) => u,
        None => {
            return None;
        },
    };
    let mut edits: Vec<TextEdit> = Vec::new();
    edits.push(TextEdit { range, new_text });
    Some(CodeAction { title, kind: Some(CodeActionKind::QuickFix), uri, edits })
}

/// The traffic light shown beside a score.
pub open spec fn score_emoji(score: u32) -> Seq<char> {
    if score >= 80 {
        "🟢"@
    } else if score >= 60 {
        "🟡"@
    } else if score >= 40 {
        "🟠"@
    } else {
        "🔴"@
    }
}

/// The hover text for a file's score and number of issues.
pub open spec fn hover_text(score: u32, issues: usize) -> Seq<char> {
    "### Kimi Contract Score\n\n"@ + score_emoji(score) + " **"@ + dec(score as nat)
        + "/100**\n\n"@ + dec(issues as nat) + " issue(s) found"@
}

/// The markdown shown when hovering over a document.
pub fn hover_markdown(score: u32, issues: usize) -> (s: String)
    ensures
        s@ == hover_text(score, issues),
{
    let emoji = if score >= 80 {
        "🟢"
    } else if score >= 60 {
        "🟡"
    } else if score >= 40 {
        "🟠"
    } else {
        "🔴"
    };
    let mut s = String::from_str("### Kimi Contract Score\n\n");
    s.append(emoji);
    s.append(" **");
    let sc = decimal(score as u64);
    s.append(sc.as_str());
    s.append("/100**\n\n");
    let n = decimal(issues as u64);
    s.append(n.as_str());
    s.append(" issue(s) found");
    s
}

/// The diagnostics published for a document's issues, one per issue, in order.
pub fn issues_to_diagnostics(issues: &Vec<Issue>) -> (ds: Vec<Diagnostic>)
    ensures
        ds@.len() == issues@.len(),
        forall|i: int|
            0 <= i < issues@.len() ==> {
                &&& (#[trigger] ds@[i]).range == line_range(zero_based(issues@[i].line))
                &&& ds@[i].severity == Some(severity_level(issues@[i].severity))
                &&& ds@[i].code matches Some(c) && c@ == category_code(issues@[i].category)
                &&& ds@[i].source matches Some(s) && s@ == "cargo-kimi"@
                &&& ds@[i].message@ == issues@[i].message@
            },
{
    let mut ds: Vec<Diagnostic> = Vec::new();
    let mut i: usize = 0;
    while i < issues.len()
        invariant
            i <= issues@.len(),
            ds@.len() == i,
            forall|j: int|
                0 <= j < i ==> {
                    &&& (#[trigger] ds@[j]).range == line_range(zero_based(issues@[j].line))
                    &&& ds@[j].severity == Some(severity_level(issues@[j].severity))
                    &&& ds@[j].code matches Some(c) && c@ == category_code(issues@[j].category)
                    &&& ds@[j].source matches Some(s) && s@ == "cargo-kimi"@
                    &&& ds@[j].message@ == issues@[j].message@
                },
        decreases issues@.len() - i,
    {
        ds.push(issue_to_diagnostic(&issues[i]));
        i = i + 1;
    }
    ds
}

/// The issues of `issues` that get a quick fix: not `unwrap`/`expect` ones,
/// and only those whose file has a `file://` URL.
pub open spec fn has_quick_fix(issue: Issue) -> bool {
    issue.category != IssueCategory::UnwrapExpectPanic && file_url(issue.file@) is Some
}

/// The indices of the first `n` issues that get a quick fix, in order.
pub open spec fn fixable(issues: Seq<Issue>, n: nat) -> Seq<int>
    decreases n,
{
    if n == 0 || n > issues.len() {
        Seq::empty()
    } else if has_quick_fix(issues[n - 1]) {
        fixable(issues, (n - 1) as nat).push(n - 1)
    } else {
        fixable(issues, (n - 1) as nat)
    }
}

/// The quick fixes offered for a document's issues: one for each issue that
/// has one, in the order of the issues.
pub fn issues_to_code_actions(issues: &Vec<Issue>) -> (actions: Vec<CodeAction>)
    ensures
        actions@.len() == fixable(issues@, issues@.len()).len(),
        forall|k: int|
            0 <= k < actions@.len() ==> fixes(
                #[trigger] actions@[k],
                issues@[fixable(issues@, issues@.len())[k]],
            ),
{
    let mut actions: Vec<CodeAction> = Vec::new();
    let mut i: usize = 0;
    while i < issues.len()
        invariant
            i <= issues@.len(),
            actions@.len() == fixable(issues@, i as nat).len(),
            forall|k: int|
                0 <= k < actions@.len() ==> fixes(
                    #[trigger] actions@[k],
                    issues@[fixable(issues@, i as nat)[k]],
                ),
        decreases issues@.len() - i,
    {
        let ghost f0 = fixable(issues@, i as nat);
        match issue_to_code_action(&issues[i]) {
            Some(a) => {
                let ghost before = actions@;
                assert(fixable(issues@, (i + 1) as nat) == f0.push(i as int));
                actions.push(a);
                assert forall|k: int| 0 <= k < actions@.len() implies fixes(
                    #[trigger] actions@[k],
                    issues@[fixable(issues@, (i + 1) as nat)[k]],
                ) by {
                    if k < before.len() {
                        assert(actions@[k] == before[k]);
                    }
                }
            },
            None => {
                assert(fixable(issues@, (i + 1) as nat) == f0);
            },
        }
        i = i + 1;
    }
    actions
}

} // verus!
