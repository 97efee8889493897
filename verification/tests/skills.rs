use cargo_kimi::skills::{skill_files, to_title_case, SkillName, SkillNameError};

#[test]
fn skill_name_accepts_plain_names() {
    let n = SkillName::new("my-skill-2").unwrap();
    assert_eq!(n.as_str(), "my-skill-2");
    assert_eq!(SkillName::new("a").unwrap().as_str(), "a");
}

#[test]
fn skill_name_errors() {
    assert_eq!(SkillName::new("").err(), Some(SkillNameError::Empty));
    assert_eq!(SkillName::new(".hidden").err(), Some(SkillNameError::PathLike));
    assert_eq!(SkillName::new("a/b").err(), Some(SkillNameError::PathLike));
    assert_eq!(SkillName::new("a\\b").err(), Some(SkillNameError::PathLike));
    assert_eq!(SkillName::new("a..b").err(), Some(SkillNameError::PathLike));
    assert_eq!(SkillName::new("My-Skill").err(), Some(SkillNameError::InvalidCharacters));
    assert_eq!(SkillName::new("a_b").err(), Some(SkillNameError::InvalidCharacters));
    assert_eq!(SkillName::new("-a").err(), Some(SkillNameError::HyphenAtEdge));
    assert_eq!(SkillName::new("a-").err(), Some(SkillNameError::HyphenAtEdge));
    assert_eq!(SkillName::new("a--b").err(), Some(SkillNameError::ConsecutiveHyphens));
}

#[test]
fn skill_name_first_rule_broken_decides() {
    // Both path-like and invalid characters: the path rule comes first.
    assert_eq!(SkillName::new("../X").err(), Some(SkillNameError::PathLike));
    // Both a leading hyphen and a double hyphen: the edge rule comes first.
    assert_eq!(SkillName::new("-a--b").err(), Some(SkillNameError::HyphenAtEdge));
}

#[test]
fn skill_name_error_messages() {
    assert_eq!(SkillNameError::Empty.message(), "Skill name cannot be empty");
    assert_eq!(
        SkillNameError::InvalidCharacters.message(),
        "Skill name must match ^[a-z0-9-]+$"
    );
    assert_eq!(
        SkillNameError::ConsecutiveHyphens.message(),
        "Skill name must not contain consecutive hyphens"
    );
}

#[test]
fn title_case_of_names() {
    assert_eq!(to_title_case("my-skill-name"), "My Skill Name");
    assert_eq!(to_title_case("a"), "A");
    assert_eq!(to_title_case(""), "");
    assert_eq!(to_title_case("a--b"), "A  B");
    assert_eq!(to_title_case("-x"), " X");
    assert_eq!(to_title_case("9lives"), "9lives");
}

#[test]
fn title_case_uses_unicode_uppercase() {
    // 'ß' upper-cases to "SS".
    assert_eq!(to_title_case("ßa-éb"), "SSa Éb");
}

#[test]
fn skill_files_fill_the_template() {
    let name = SkillName::new("code-review").unwrap();
    let f = skill_files(&name, None);
    assert_eq!(f.dir, ".kimi/skills/code-review");
    assert_eq!(f.path, ".kimi/skills/code-review/SKILL.md");
    assert!(f.content.starts_with("---\nname: code-review\nversion: 1.0.0\n"));
    assert!(f.content.contains("  TODO: describe what this skill does\n"));
    assert!(f.content.contains("\n# Code Review\n"));
    assert!(!f.content.contains("{name}"));
    assert!(!f.content.contains("{title}"));
}

#[test]
fn skill_files_replace_in_order() {
    // The description is put in before titles are replaced.
    let name = SkillName::new("x").unwrap();
    let f = skill_files(&name, Some("about {title} and {name}"));
    assert!(f.content.contains("  about X and {name}\n"));
}

#[test]
fn title_case_upper_cases_only_ascii_letters() {
    assert_eq!(to_title_case("1st-skill"), "1st Skill");
    assert_eq!(to_title_case("-lead"), " Lead");
    assert_eq!(to_title_case("x-y-"), "X Y ");
}
