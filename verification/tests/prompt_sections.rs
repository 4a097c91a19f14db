use agent_harness::prompt::{rendered_or_error, Prompt, PromptContext, 
    agent_role, dynamic_context_section, instructions_section, memory_system_prompt,
    project_instructions_label, subdir_instructions_label, user_instructions_label, SystemPrompt,
    DEFAULT_PROMPT_TEMPLATE,
};

#[test]
fn builder_collects_sections() {
    let mut b = SystemPrompt::builder();
    b.role("R");
    b.add_guideline("g1");
    b.add_guideline("g2");
    b.constraints(vec!["c1".to_string()]);
    b.add_constraint("c2");
    b.template("{{ role }}|{% for g in guidelines %}{{ g }};{% endfor %}|{% for c in constraints %}{{ c }};{% endfor %}|{% if memory %}M{% endif %}");
    let p = b.build();
    assert_eq!(p.guidelines, vec!["g1".to_string(), "g2".to_string()]);
    assert_eq!(p.render().unwrap(), "R|g1;g2;|c1;c2;|");
}

#[test]
fn guidelines_setter_replaces() {
    let mut b = SystemPrompt::builder();
    b.add_guideline("old");
    b.guidelines(vec!["new".to_string()]);
    assert_eq!(b.build().guidelines, vec!["new".to_string()]);
}

#[test]
fn a_broken_template_reports_an_error() {
    let p = SystemPrompt::from_template("{{ ".to_string());
    assert_eq!(p.render().unwrap_err(), "Failed to render one-off template");
}

#[test]
fn default_template_renders_the_sections() {
    let mut p = SystemPrompt::default_prompt();
    assert_eq!(p.template, DEFAULT_PROMPT_TEMPLATE);
    p.with_role("You are a tester.");
    p.with_added_guideline("Be brief");
    p.with_memory("remember this");
    let text = p.render().unwrap();
    assert!(text.starts_with("You are a tester."));
    assert!(text.contains("- Be brief"));
    assert!(text.contains("remember this"));
    let empty = SystemPrompt::default_prompt().render().unwrap();
    assert_eq!(empty, "");
}

#[test]
fn into_builder_gives_back_the_prompt() {
    let mut p = SystemPrompt::from_template("{{ additional }}".to_string());
    p.with_additional("extra");
    let again = p.into_builder().build();
    assert_eq!(again.render().unwrap(), "extra");
}

#[test]
fn sections_are_laid_out() {
    assert_eq!(agent_role("/w"), "You are a coding agent operating in /w.");
    assert_eq!(instructions_section("AGENTS.md", &Vec::new()), "");
    let sources = vec![
        (user_instructions_label("~/.agent/AGENTS.md"), "  be careful \n".to_string()),
        (project_instructions_label("AGENTS.md"), "use cargo".to_string()),
    ];
    assert_eq!(
        instructions_section("AGENTS.md", &sources),
        "# AGENTS.md instructions\n\n## From user global (~/.agent/AGENTS.md)\n\nbe careful\n\n## From project root (AGENTS.md)\n\nuse cargo"
    );
    assert_eq!(subdir_instructions_label("/w/sub", "AGENTS.md"), "subdir (/w/sub/AGENTS.md)");
    assert_eq!(
        dynamic_context_section("2024-01-02", "/w", "m", "linux"),
        "# Dynamic context\nCurrent date: 2024-01-02\nWorking directory: /w\nModel: m\nPlatform: linux"
    );
    assert_eq!(memory_system_prompt("/w", "", " guide \n"), "You are a coding agent at /w. Use tools to solve tasks.\n\nguide");
    assert_eq!(memory_system_prompt("/w", "mem", "guide"), "You are a coding agent at /w. Use tools to solve tasks.\n\nmem\n\nguide");
}

#[test]
fn prompt_without_context_renders_as_written() {
    let p = Prompt::from_text("Hello {{ name }}".to_string());
    assert_eq!(p.render().unwrap(), "Hello {{ name }}");
}

#[test]
fn prompt_value_added_twice_keeps_the_last() {
    let p = Prompt::from_text("Hello {{ name }}".to_string())
        .with_text_value("name", Some("first".to_string()))
        .with_text_value("name", Some("second".to_string()));
    assert_eq!(p.render().unwrap(), "Hello second");
    let ctx = p.context.as_ref().unwrap();
    assert_eq!(ctx.texts.len(), 1);
}

#[test]
fn prompt_list_value_is_rendered_by_loop() {
    let p = Prompt::from_text("{% for g in items %}[{{ g }}]{% endfor %}".to_string())
        .with_list_value("items", vec!["a".to_string(), "b".to_string()]);
    assert_eq!(p.render().unwrap(), "[a][b]");
}

#[test]
fn prompt_broken_template_with_context_fails() {
    let p = Prompt::from_text("{{ ".to_string()).with_text_value("x", None);
    assert_eq!(p.render().unwrap_err(), "Failed to render one-off template");
}

#[test]
fn system_prompt_to_prompt_holds_every_section() {
    let mut p = SystemPrompt::from_template("{{ role }}|{{ additional }}".to_string());
    p.with_role("R");
    p.with_additional("A");
    let q = p.to_prompt();
    let ctx = q.context.as_ref().unwrap();
    assert_eq!(ctx.texts.len(), 7);
    assert_eq!(ctx.lists.len(), 2);
    assert_eq!(q.render().unwrap(), "R|A");
}

#[test]
fn setters_fill_each_section() {
    let mut p = SystemPrompt::from_template(
        "{{ role }}|{{ skills_available }}|{{ memory }}|{{ claude_md }}|{{ dynamic_context }}|{{ memory_guidance }}|{% for g in guidelines %}{{ g }};{% endfor %}|{% for c in constraints %}{{ c }};{% endfor %}|{{ additional }}"
            .to_string(),
    );
    p.with_role("r");
    p.with_skills_available("s");
    p.with_memory("m");
    p.with_claude_md("c");
    p.with_dynamic_context("d");
    p.with_memory_guidance("g");
    p.with_guidelines(vec!["g1".to_string(), "g2".to_string()]);
    p.with_added_guideline("g3");
    p.with_constraints(vec!["c1".to_string()]);
    p.with_added_constraint("c2");
    p.with_additional("a");
    assert_eq!(p.render().unwrap(), "r|s|m|c|d|g|g1;g2;g3;|c1;c2;|a");
    p.with_template("plain");
    assert_eq!(p.render().unwrap(), "plain");
}

#[test]
fn tera_outcome_becomes_text_or_fixed_error() {
    assert_eq!(rendered_or_error(Ok("done".to_string())).unwrap(), "done");
    assert_eq!(
        rendered_or_error(Err(tera::Error::msg("boom"))).unwrap_err(),
        "Failed to render one-off template"
    );
}

#[test]
fn setters_chain() {
    let mut b = SystemPrompt::builder();
    b.role("r").add_guideline("g1").add_guideline("g2").template("{{ role }}:{% for g in guidelines %}{{ g }}{% endfor %}");
    assert_eq!(b.build().render().unwrap(), "r:g1g2");
    let mut p = SystemPrompt::from_template("{{ role }}/{{ additional }}".to_string());
    p.with_role("a").with_additional("b");
    assert_eq!(p.render().unwrap(), "a/b");
}

#[test]
fn with_context_adds_every_value_and_replaces_keys() {
    let p = Prompt::from_text("{{ name }} {% for x in items %}{{ x }}{% endfor %} {{ other }}".to_string())
        .with_text_value("name", Some("old".to_string()))
        .with_context(PromptContext {
            texts: vec![("name".to_string(), Some("new".to_string())), ("other".to_string(), Some("o".to_string()))],
            lists: vec![("items".to_string(), vec!["1".to_string(), "2".to_string()])],
        });
    assert_eq!(p.render().unwrap(), "new 12 o");
    let ctx = p.context.as_ref().unwrap();
    assert_eq!(ctx.texts.len(), 2);
    let empty = Prompt::from_text("plain".to_string()).with_context(PromptContext { texts: vec![], lists: vec![] });
    assert!(empty.context.is_some());
    assert_eq!(empty.render().unwrap(), "plain");
}
