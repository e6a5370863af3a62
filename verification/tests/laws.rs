use wisp::json::{JsonMember, JsonValue};
use wisp::naming::registered_name;
use wisp::native_tools::merge_object;
use wisp::skills::{plan_skill_resync, Skill};

fn member(key: &str, value: &str) -> JsonMember {
    JsonMember { key: key.to_string(), value: JsonValue::String(value.to_string()) }
}

fn shown(members: &[JsonMember]) -> Vec<(String, String)> {
    members
        .iter()
        .map(|m| {
            let v = match &m.value {
                JsonValue::String(s) => s.clone(),
                other => format!("{:?}", other),
            };
            (m.key.clone(), v)
        })
        .collect()
}

#[test]
fn merge_sets_patch_keys_and_merging_twice_changes_nothing() {
    let mut base = vec![member("a", "1"), member("b", "2")];
    let patch = JsonValue::Object(vec![member("b", "3"), member("c", "4")]);
    merge_object(&mut base, &patch);
    let once = shown(&base);
    assert_eq!(
        once,
        vec![("a".to_string(), "1".to_string()), ("b".to_string(), "3".to_string()), ("c".to_string(), "4".to_string())]
    );
    merge_object(&mut base, &patch);
    assert_eq!(shown(&base), once);
}

#[test]
fn registered_names_use_only_lowercase_letters_digits_and_single_underscores() {
    let r = registered_name("My  Server!", "__Find--Tool__");
    assert_eq!(r, "mcp_my_server_find_tool");
    let rest = &r[4..];
    assert!(rest.chars().all(|c| c.is_ascii_lowercase() || c.is_ascii_digit() || c == '_'));
    assert!(!rest.contains("__"));
    assert_eq!(registered_name("!!", "--"), "mcp_");
}

fn skill(name: &str) -> Skill {
    Skill {
        name: name.to_string(),
        description: String::new(),
        license: None,
        compatibility: None,
        allowed_tools: vec![],
        path: String::new(),
        body: String::new(),
    }
}

#[test]
fn resync_drops_skill_tools_and_offers_enabled_skills() {
    let registered = vec!["load_skill".to_string(), "mcp_a_echo".to_string(), "skill_old".to_string()];
    let plan = plan_skill_resync(&registered, &vec![skill("alpha"), skill("beta")], &vec!["beta".to_string()]);
    assert_eq!(plan.stale, vec!["load_skill", "skill_old"]);
    assert_eq!(plan.offered.iter().map(|s| s.name.clone()).collect::<Vec<_>>(), vec!["beta"]);
}

#[test]
fn registered_names_split_into_their_parts_and_ignore_the_server_case() {
    let whole = registered_name("Docs Server", "search-all");
    let server = registered_name("Docs Server", "");
    let tool = registered_name("", "search-all");
    assert_eq!(whole, format!("mcp_{}_{}", &server[4..], &tool[4..]));
    assert_eq!(registered_name(&"Docs Server".to_ascii_uppercase(), "search-all"), whole);
}
