use wisp::json::JsonValue;
use wisp::native_tools::{
    format_read_result, format_write_result, plan_config_read, plan_config_write, text_result, ConfigSection,
    ConfigWriteStep,
};

#[test]
fn read_keys_name_their_sections() {
    assert_eq!(plan_config_read("providers"), Ok(ConfigSection::Providers));
    assert_eq!(plan_config_read("conversation_config"), Ok(ConfigSection::ConversationConfig));
    assert_eq!(
        plan_config_read("colors"),
        Err("Unknown key 'colors'. Supported keys: providers, characters, default_responder, chore_llm, pipeline_config, conversation_config.".to_string())
    );
}

#[test]
fn write_default_responder_takes_string_or_null() {
    match plan_config_write("default_responder", JsonValue::String("pal-1".to_string())) {
        ConfigWriteStep::SetDefaultResponder(Some(id)) => assert_eq!(id, "pal-1"),
        other => panic!("unexpected {:?}", other),
    }
    assert!(matches!(plan_config_write("default_responder", JsonValue::Null), ConfigWriteStep::SetDefaultResponder(None)));
    match plan_config_write("default_responder", JsonValue::Bool(true)) {
        ConfigWriteStep::Refuse(m) => assert_eq!(m, "default_responder expects a string or null."),
        other => panic!("unexpected {:?}", other),
    }
}

#[test]
fn write_sections_need_objects() {
    match plan_config_write("pipeline_config", JsonValue::Number("3".to_string())) {
        ConfigWriteStep::Refuse(m) => assert_eq!(m, "pipeline_config expects a JSON object."),
        other => panic!("unexpected {:?}", other),
    }
    assert!(matches!(plan_config_write("pipeline_config", JsonValue::Object(vec![])), ConfigWriteStep::MergePipeline(_)));
    match plan_config_write("theme", JsonValue::Null) {
        ConfigWriteStep::Refuse(m) => assert!(m.starts_with("Unknown key 'theme'.")),
        other => panic!("unexpected {:?}", other),
    }
}

#[test]
fn write_results_are_marked() {
    assert_eq!(format_write_result(None), "> No result");
    assert_eq!(format_write_result(Some(&text_result("saved".to_string(), false))), "✓ saved");
    assert_eq!(format_write_result(Some(&text_result("bad".to_string(), true))), "✗ bad");
    assert_eq!(format_read_result(None), "> No result");
    assert_eq!(
        format_read_result(Some(&text_result("plain".to_string(), false))),
        "**Result**\n\nplain"
    );
    assert_eq!(
        format_read_result(Some(&text_result("[1]".to_string(), true))),
        "> **Error**\n\n```json\n[\n  1\n]\n```"
    );
}
