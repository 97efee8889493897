use cargo_kimi::workspace::{find_workspace_crates, parse_member_name, Metadata, Package, Target};

#[test]
fn member_name_modern_format() {
    assert_eq!(parse_member_name("path+file:///foo/bar#my-crate@1.0.0"), "my-crate");
    assert_eq!(parse_member_name("path+file:///a#b/c#name@0.1.0"), "name");
}

#[test]
fn member_name_without_version() {
    // Package named after its directory: the fragment is only the version.
    assert_eq!(parse_member_name("path+file:///foo/my-crate#0.1.0"), "my-crate");
    // A fragment that starts with a letter is the name.
    assert_eq!(parse_member_name("path+file:///foo#name"), "name");
    assert_eq!(parse_member_name("nohash#1.2.3"), "nohash");
}

#[test]
fn member_name_legacy_format() {
    assert_eq!(parse_member_name("my-crate 0.1.0 (path+file:///foo)"), "my-crate");
    assert_eq!(parse_member_name("single"), "single");
    assert_eq!(parse_member_name(""), "");
}

fn target(kind: &str, path: &str) -> Target {
    Target { kind: vec![kind.to_string()], src_path: path.to_string() }
}

#[test]
fn workspace_dirs_of_members() {
    let meta = Metadata {
        workspace_members: vec![
            "path+file:///w/app#app@0.1.0".to_string(),
            "path+file:///w/core#core@0.1.0".to_string(),
        ],
        packages: vec![
            Package {
                name: "core".to_string(),
                manifest_path: "/w/core/Cargo.toml".to_string(),
                targets: vec![target("test", "/w/core/tests/t.rs"), target("lib", "/w/core/src/lib.rs")],
            },
            Package {
                name: "other".to_string(),
                manifest_path: "/x/Cargo.toml".to_string(),
                targets: vec![target("lib", "/x/src/lib.rs")],
            },
            Package {
                name: "app".to_string(),
                manifest_path: "/w/app/Cargo.toml".to_string(),
                targets: vec![target("bin", "/w/app/src/main.rs"), target("lib", "/w/app/lib/lib.rs")],
            },
        ],
    };
    assert_eq!(find_workspace_crates(&meta), vec!["/w/core/src".to_string(), "/w/app/src".to_string()]);
}

#[test]
fn workspace_dirs_default_to_src() {
    let meta = Metadata {
        workspace_members: vec!["p 0.1.0 (path+file:///p)".to_string()],
        packages: vec![Package {
            name: "p".to_string(),
            manifest_path: "/p/Cargo.toml".to_string(),
            targets: vec![target("example", "/p/examples/e.rs"), target("lib", "")],
        }],
    };
    assert_eq!(find_workspace_crates(&meta), vec!["src".to_string()]);
}

#[test]
fn workspace_member_named_after_its_directory() {
    let meta = Metadata {
        workspace_members: vec!["path+file:///w/alpha#0.1.0".to_string()],
        packages: vec![Package {
            name: "alpha".to_string(),
            manifest_path: "/w/alpha/Cargo.toml".to_string(),
            targets: vec![target("lib", "/w/alpha/src/lib.rs")],
        }],
    };
    assert_eq!(find_workspace_crates(&meta), vec!["/w/alpha/src".to_string()]);
}
