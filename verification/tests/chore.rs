use std::collections::HashMap;

use wisp::chore::parse_display_names as parse_pairs;

fn parse_display_names(raw: &str) -> HashMap<String, String> {
    parse_pairs(raw).into_iter().collect()
}

#[test]
fn parses_well_formed_array() {
    let raw = r#"[
        {"name":"read_file","display_name":"Filesystem Read File"},
        {"name":"create_issue","display_name":"Github Create Issue"}
    ]"#;
    let mut expected = HashMap::new();
    expected.insert("read_file".to_string(), "Filesystem Read File".to_string());
    expected.insert("create_issue".to_string(), "Github Create Issue".to_string());
    assert_eq!(parse_display_names(raw), expected);
}

#[test]
fn strips_markdown_code_fences() {
    let raw = "```json\n[{\"name\":\"x\",\"display_name\":\"X Do Thing\"}]\n```";
    let map = parse_display_names(raw);
    assert_eq!(map.get("x"), Some(&"X Do Thing".to_string()));
}

#[test]
fn returns_empty_for_malformed() {
    assert!(parse_display_names("not json at all").is_empty());
    assert!(parse_display_names("[{").is_empty());
}

#[test]
fn skips_invalid_entries_keeps_valid() {
    let raw = r#"[
        {"name":"good","display_name":"Good Do Thing"},
        {"name":"bad"},
        {"display_name":"No Name"}
    ]"#;
    let map = parse_display_names(raw);
    assert_eq!(map.len(), 1);
    assert_eq!(map.get("good"), Some(&"Good Do Thing".to_string()));
}

#[test]
fn accepts_camel_case_key() {
    let raw = r#"[{"name":"x","displayName":"X Do Thing"}]"#;
    let map = parse_display_names(raw);
    assert_eq!(map.get("x"), Some(&"X Do Thing".to_string()));
}

#[test]
fn extracts_array_despite_leading_prose() {
    let raw = "Here are the display names:\n[\n  {\"name\":\"read_file\",\"display_name\":\"Filesystem Read File\"}\n]\nLet me know if you need more.";
    let map = parse_display_names(raw);
    assert_eq!(map.get("read_file"), Some(&"Filesystem Read File".to_string()));
}

#[test]
fn handles_uppercase_code_fence() {
    let raw = "```JSON\n[{\"name\":\"x\",\"display_name\":\"X Do Thing\"}]\n```";
    let map = parse_display_names(raw);
    assert_eq!(map.get("x"), Some(&"X Do Thing".to_string()));
}

#[test]
fn later_entry_overrides_earlier_and_names_stay_unique() {
    let pairs = parse_pairs(r#"[{"name":"x","display_name":"  First "},{"name":"y","display_name":"Y"},{"name":"x","display_name":"Second"}]"#);
    assert_eq!(pairs.len(), 2);
    let map: HashMap<String, String> = pairs.into_iter().collect();
    assert_eq!(map.get("x"), Some(&"Second".to_string()));
    assert_eq!(map.get("y"), Some(&"Y".to_string()));
}

#[test]
fn display_name_is_trimmed_and_blank_entries_skipped() {
    let map = parse_display_names(r#"[{"name":"x","display_name":"  X  "},{"name":"","display_name":"E"},{"name":"z","display_name":""}]"#);
    assert_eq!(map.len(), 1);
    assert_eq!(map.get("x"), Some(&"X".to_string()));
}

#[test]
fn non_string_display_name_does_not_fall_back() {
    let map = parse_display_names(r#"[{"name":"x","display_name":5,"displayName":"X"}]"#);
    assert!(map.is_empty());
}

#[test]
fn object_instead_of_array_gives_nothing() {
    assert!(parse_display_names(r#"{"name":"x","display_name":"X"}"#).is_empty());
}
