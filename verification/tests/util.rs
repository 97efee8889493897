use cargo_kimi::cmd_generate_tests;
use cargo_kimi::util::{validate_project_path, PathError};

#[test]
fn resolved_paths_inside_the_project() {
    assert_eq!(
        validate_project_path("out/tests.rs", "/home/p", "/home/p/out/tests.rs"),
        Ok("/home/p/out/tests.rs".to_string())
    );
    assert_eq!(validate_project_path("", "/home/p", "/home/p"), Ok("/home/p".to_string()));
    // Components are compared, not text: repeated and trailing separators do not matter.
    assert_eq!(
        validate_project_path("a", "/home//p/", "/home/p/./a"),
        Ok("/home/p/./a".to_string())
    );
}

#[test]
fn symlinks_out_of_the_project_are_refused() {
    // src/l -> /etc: the path reads as inside, but resolves outside.
    assert_eq!(
        validate_project_path("src/l/passwd", "/home/p", "/etc/passwd"),
        Err(PathError::OutsideProject)
    );
    assert_eq!(
        validate_project_path("/etc/passwd", "/home/p", "/etc/passwd"),
        Err(PathError::OutsideProject)
    );
    assert_eq!(
        validate_project_path("x", "/home/p", "/home/pp/x"),
        Err(PathError::OutsideProject)
    );
    assert_eq!(validate_project_path("x", "/home/p", "/home"), Err(PathError::OutsideProject));
    assert_eq!(validate_project_path("x", "/home/p", "home/p/x"), Err(PathError::OutsideProject));
}

#[test]
fn parent_references_are_refused() {
    assert_eq!(
        validate_project_path("../x", "/home/p", "/home/x"),
        Err(PathError::ParentReference)
    );
    // Refused even when it resolves back inside.
    assert_eq!(
        validate_project_path("a/../b", "/home/p", "/home/p/b"),
        Err(PathError::ParentReference)
    );
    assert_eq!(
        validate_project_path("a/..b", "/home/p", "/home/p/a/..b"),
        Ok("/home/p/a/..b".to_string())
    );
}

#[test]
fn path_error_messages() {
    assert_eq!(
        PathError::ParentReference.message(),
        "Path cannot contain parent directory references (..)"
    );
    assert_eq!(PathError::OutsideProject.message(), "Path must be inside the project directory");
}

#[test]
fn generate_tests_plan() {
    let plan = cmd_generate_tests(None, "/home/p", "").unwrap();
    assert_eq!(plan.src_dir, "src");
    assert_eq!(plan.output, None);
    let plan = cmd_generate_tests(Some("tests/gen.rs"), "/home/p", "/home/p/tests/gen.rs").unwrap();
    assert_eq!(plan.output, Some("tests/gen.rs".to_string()));
    assert_eq!(
        cmd_generate_tests(Some("../gen.rs"), "/home/p", "/home/gen.rs").err(),
        Some(PathError::ParentReference)
    );
    assert_eq!(
        cmd_generate_tests(Some("l/gen.rs"), "/home/p", "/tmp/gen.rs").err(),
        Some(PathError::OutsideProject)
    );
}
