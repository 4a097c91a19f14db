use agent_harness::skill::{split_frontmatter, SkillRegistry, SkillSource, get_skill_registry};

fn meta(front: &Option<String>, key: &str) -> Option<String> {
    let text = front.as_deref()?;
    let value: serde_yaml::Value = serde_yaml::from_str(text).ok()?;
    value.get(key).and_then(|v| v.as_str()).map(|s| s.to_string())
}

#[test]
fn parses_frontmatter_with_lf_line_endings() {
    let input = "---\nname: test\ndescription: hello\n---\n\nbody";
    let (front, body) = split_frontmatter(input);

    assert_eq!(meta(&front, "name").as_deref(), Some("test"));
    assert_eq!(meta(&front, "description").as_deref(), Some("hello"));
    assert_eq!(body, "body");
}

#[test]
fn parses_frontmatter_with_crlf_line_endings() {
    let input = "---\r\nname: test\r\ndescription: hello\r\n---\r\n\r\nbody";
    let (front, body) = split_frontmatter(input);

    assert_eq!(meta(&front, "name").as_deref(), Some("test"));
    assert_eq!(meta(&front, "description").as_deref(), Some("hello"));
    assert_eq!(body, "body");
}

#[test]
fn text_without_frontmatter_is_all_body() {
    let (front, body) = split_frontmatter("  just a body \n");
    assert!(front.is_none());
    assert_eq!(body, "just a body");
}

fn source(dir: &str, name: Option<&str>, description: Option<&str>, body: &str) -> SkillSource {
    SkillSource {
        path: format!("skills/{dir}/SKILL.md"),
        dir_name: Some(dir.to_string()),
        name: name.map(|s| s.to_string()),
        description: description.map(|s| s.to_string()),
        body: body.to_string(),
    }
}

#[test]
fn registry_lists_skills_by_name_and_loads_them() {
    let registry = get_skill_registry(
        "skills".to_string(),
        vec![
            source("zeta", Some("zeta"), Some("last one"), "Z body"),
            source("alpha", None, None, "A body"),
        ],
    );
    assert_eq!(registry.skills().len(), 2);
    let listing = registry.describe_available();
    let alpha = listing.find(" - alpha").unwrap();
    let zeta = listing.find(" - zeta: last one").unwrap();
    assert!(alpha < zeta);
    assert!(registry.load_full_text("zeta").contains("Z body"));
    let missing = registry.load_full_text("nope");
    assert_eq!(missing, "Error: Unknown skill 'nope'. Available: alpha, zeta");
}

#[test]
fn empty_registry_says_so() {
    let registry = SkillRegistry::new("skills".to_string());
    assert_eq!(registry.describe_available(), "(no skills available)");
}
