use cargo_kimi::verify::{check_coverage, resolve_scan_dirs, SourceFile};

fn file(path: &str, content: &str) -> SourceFile {
    SourceFile { path: path.to_string(), content: content.to_string() }
}

const LIB: &str = "\
/// { x > 0 }
/// pub fn double(x: u32) -> u32
/// { result == 2 * x }
#[inline]
pub fn double(x: u32) -> u32 {
    x * 2
}

/// Just a doc comment.
pub fn plain() {}

/// { true }
/// Some more words.

pub async fn fetch() {}

/// { true }
fn private_one() {}

/// { true }
pub unsafe fn raw() {}
";

const PROOFS: &str = "\
#[kani::proof]
fn check_double() {
    let x: u32 = kani::any();
    if x < 100 {
        assert!(double(x) > x);
    }
}

fn after_the_harness() {
    raw();
}
";

#[test]
fn coverage_splits_documented_functions() {
    let report = check_coverage(&vec![file("src/lib.rs", LIB), file("src/proofs.rs", PROOFS)]);
    assert_eq!(report.total, 3);
    assert_eq!(report.covered, vec!["double".to_string()]);
    let missing: Vec<(String, String, usize)> =
        report.missing.iter().map(|m| (m.function.clone(), m.file.clone(), m.line)).collect();
    assert_eq!(
        missing,
        vec![("fetch".to_string(), "src/lib.rs".to_string(), 15), ("raw".to_string(), "src/lib.rs".to_string(), 21)]
    );
}

#[test]
fn coverage_keeps_last_declaration() {
    let a = "/// { a }\npub fn same() {}\n";
    let b = "\n\n/// { b }\npub fn same() {}\n";
    let report = check_coverage(&vec![file("a.rs", a), file("b.rs", b)]);
    assert_eq!(report.total, 1);
    assert_eq!(report.missing.len(), 1);
    assert_eq!(report.missing[0].file, "b.rs");
    assert_eq!(report.missing[0].line, 4);
}

#[test]
fn coverage_of_nothing() {
    let report = check_coverage(&vec![]);
    assert_eq!(report.total, 0);
    assert!(report.covered.is_empty());
    assert!(report.missing.is_empty());
}

#[test]
fn harness_ends_at_its_closing_brace() {
    let src = "\
/// { }
pub fn inside() {}
/// { }
pub fn outside() {}
#[kani::proof]
fn h() {
    inside();
}
outside();
";
    let report = check_coverage(&vec![file("x.rs", src)]);
    assert_eq!(report.covered, vec!["inside".to_string()]);
    assert_eq!(report.missing.len(), 1);
    assert_eq!(report.missing[0].function, "outside");
}

#[test]
fn keywords_are_not_calls() {
    let src = "\
/// { }
pub fn r#if() {}
#[kani::proof]
fn h() {
    if (true) { kani(); }
}
";
    let report = check_coverage(&vec![file("x.rs", src)]);
    assert_eq!(report.covered.len(), 0);
}

#[test]
fn crlf_lines_are_read() {
    let src = "/// {\r\npub fn win() {}\r\n#[kani::proof]\r\nfn h() {\r\n    win();\r\n}\r\n";
    let report = check_coverage(&vec![file("w.rs", src)]);
    assert_eq!(report.covered, vec!["win".to_string()]);
}

#[test]
fn scan_dirs_choice() {
    assert_eq!(
        resolve_scan_dirs("root/src".to_string(), true, None, "root".to_string()),
        vec!["root/src".to_string()]
    );
    assert_eq!(
        resolve_scan_dirs("root/src".to_string(), false, Some(vec!["a/src".to_string()]), "root".to_string()),
        vec!["a/src".to_string()]
    );
    assert_eq!(
        resolve_scan_dirs("root/src".to_string(), false, Some(vec![]), "root".to_string()),
        vec!["root".to_string()]
    );
    assert_eq!(
        resolve_scan_dirs("root/src".to_string(), false, None, "root".to_string()),
        vec!["root".to_string()]
    );
}

#[test]
fn declaration_and_triple_forms() {
    let src = "\
\u{2003}///\u{00A0}{ unicode spaces }
pub  async\tunsafe fn  spaced() {}
//// { four slashes is a doc line but no triple }
pub fn four() {}
/// {
pubfn glued() {}
/// {
pub(crate) fn scoped() {}
/// {
  pub unsafe fn indented<T>(t: T) {}
";
    let report = check_coverage(&vec![file("f.rs", src)]);
    let names: Vec<String> = report.missing.iter().map(|m| m.function.clone()).collect();
    assert_eq!(names, vec!["spaced".to_string(), "indented".to_string()]);
}
