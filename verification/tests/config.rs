use cargo_kimi::config::{
    config_source, ContractsConfig, KimiConfig, OutputConfig, ScoreConfig,
};

fn full_config() -> KimiConfig {
    KimiConfig {
        contracts: Some(ContractsConfig {
            strictness: Some("strict".to_string()),
            fail_on_drop: Some(5),
        }),
        score: Some(ScoreConfig {
            ignore: vec!["generated".to_string(), "tests/".to_string()],
        }),
        output: Some(OutputConfig {
            format: Some("json".to_string()),
        }),
    }
}

#[test]
fn config_getters_read_their_tables() {
    let cfg = full_config();
    assert_eq!(cfg.strictness(), Some("strict"));
    assert_eq!(cfg.output_format(), Some("json"));
    assert_eq!(cfg.fail_on_drop(), Some(5));
}

#[test]
fn config_default_has_no_settings() {
    let cfg = KimiConfig::default();
    assert_eq!(cfg.strictness(), None);
    assert_eq!(cfg.output_format(), None);
    assert_eq!(cfg.fail_on_drop(), None);
    assert!(!cfg.should_ignore("src/lib.rs"));
}

#[test]
fn config_missing_inner_values() {
    let cfg = KimiConfig {
        contracts: Some(ContractsConfig { strictness: None, fail_on_drop: None }),
        score: None,
        output: Some(OutputConfig { format: None }),
    };
    assert_eq!(cfg.strictness(), None);
    assert_eq!(cfg.output_format(), None);
    assert_eq!(cfg.fail_on_drop(), None);
}

#[test]
fn should_ignore_matches_substrings() {
    let cfg = full_config();
    assert!(cfg.should_ignore("src/generated/mod.rs"));
    assert!(cfg.should_ignore("tests/it.rs"));
    assert!(!cfg.should_ignore("src/lib.rs"));
    assert!(!cfg.should_ignore("tests"));
}

#[test]
fn should_ignore_with_empty_pattern_list() {
    let cfg = KimiConfig {
        contracts: None,
        score: Some(ScoreConfig { ignore: vec![] }),
        output: None,
    };
    assert!(!cfg.should_ignore("anything"));
    let cfg = KimiConfig {
        contracts: None,
        score: Some(ScoreConfig { ignore: vec![String::new()] }),
        output: None,
    };
    assert!(cfg.should_ignore("anything"));
}

#[test]
fn config_source_prefers_given_then_dot_file() {
    assert_eq!(
        config_source(Some("custom.toml".to_string()), false, true, true),
        Some("custom.toml".to_string())
    );
    assert_eq!(config_source(None, false, true, true), Some(".kimi.toml".to_string()));
    assert_eq!(config_source(None, false, false, true), Some("kimi.toml".to_string()));
    assert_eq!(config_source(None, false, false, false), None);
}

#[test]
fn config_source_in_a_directory() {
    assert_eq!(
        config_source(Some("proj".to_string()), true, false, false),
        Some("proj/.kimi.toml".to_string())
    );
    assert_eq!(
        config_source(Some("proj/".to_string()), true, true, true),
        Some("proj/.kimi.toml".to_string())
    );
}
