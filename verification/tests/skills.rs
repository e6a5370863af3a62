use wisp::skills::{collect_skill_infos, enable_found, enabled_skills, is_skill_tool, merge_skills, toggle_skill, Skill};

fn skill(name: &str, description: &str) -> Skill {
    Skill {
        name: name.to_string(),
        description: description.to_string(),
        license: None,
        compatibility: None,
        allowed_tools: vec![],
        path: format!("/tmp/skills/{}", name),
        body: "# body".to_string(),
    }
}

fn enabled(names: &[&str]) -> Vec<String> {
    names.iter().map(|n| n.to_string()).collect()
}

#[test]
fn collect_infos_sorts_by_name_and_marks_enabled() {
    let skills = vec![skill("beta", "B"), skill("alpha", "A")];

    let infos = collect_skill_infos(&skills, &enabled(&["alpha"]));

    assert_eq!(infos.len(), 2);
    assert_eq!(infos[0].name, "alpha");
    assert!(infos[0].enabled);
    assert_eq!(infos[1].name, "beta");
    assert!(!infos[1].enabled);
    assert_eq!(infos[0].description, "A");
    assert!(infos[0].path.ends_with("alpha"));
}

#[test]
fn merging_keeps_the_first_skill_of_a_name() {
    let mut skills = vec![skill("alpha", "first")];
    merge_skills(&mut skills, vec![skill("alpha", "second"), skill("beta", "B")]);
    let names: Vec<&str> = skills.iter().map(|s| s.name.as_str()).collect();
    assert_eq!(names, vec!["alpha", "beta"]);
    assert_eq!(skills[0].description, "first");
}

#[test]
fn toggling_twice_restores_the_enabled_set() {
    let skills = vec![skill("alpha", "A")];
    let mut on = enabled(&[]);
    toggle_skill(&skills, &mut on, "alpha").unwrap();
    assert_eq!(on, vec!["alpha".to_string()]);
    toggle_skill(&skills, &mut on, "alpha").unwrap();
    assert!(on.is_empty());
}

#[test]
fn toggling_an_unknown_skill_fails() {
    let skills = vec![skill("alpha", "A")];
    let mut on = enabled(&["alpha"]);
    assert_eq!(toggle_skill(&skills, &mut on, "gamma"), Err("Skill not found: gamma".to_string()));
    assert_eq!(on, vec!["alpha".to_string()]);
}

#[test]
fn enabled_skills_keep_their_order() {
    let skills = vec![skill("beta", "B"), skill("alpha", "A"), skill("gamma", "G")];
    let on = enabled(&["gamma", "beta"]);
    let names: Vec<String> = enabled_skills(&skills, &on).into_iter().map(|s| s.name).collect();
    assert_eq!(names, vec!["beta".to_string(), "gamma".to_string()]);
}

#[test]
fn skill_tool_name_is_recognised() {
    assert!(is_skill_tool("load_skill"));
    assert!(is_skill_tool("skill_writer"));
    assert!(!is_skill_tool("server__tool"));
    assert!(!is_skill_tool("skil"));
}

#[test]
fn refresh_keeps_states_enables_new_skills_and_drops_removed_ones() {
    let known = vec![skill("alpha", "a"), skill("beta", "b"), skill("gone", "g")];
    let found = vec![skill("alpha", "a"), skill("beta", "b"), skill("delta", "d")];
    let mut on = enabled(&["alpha", "gone"]);
    enable_found(&known, &found, &mut on);
    on.sort();
    assert_eq!(on, enabled(&["alpha", "delta"]));
}
