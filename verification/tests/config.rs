use wisp::character::Character;
use wisp::config::{ConfigError, ConfigManager};
use wisp::model::{infer_model_info, Model, ModelMetadata};
use wisp::provider::{Provider, ProviderError};

fn provider(name: &str) -> Provider {
    Provider { name: name.to_string(), display_name: name.to_uppercase(), base_url: "http://x".to_string(), models: vec![] }
}

fn character(id: &str) -> Character {
    Character {
        id: id.to_string(),
        name: format!("name-{id}"),
        alias: None,
        avatar: None,
        description: String::new(),
        system_prompt: String::new(),
        parameters: vec!["temperature=0.2".to_string()],
        model_id: "m".to_string(),
        created_at: 1,
        updated_at: 2,
        role_bio: String::new(),
    }
}

fn model(name: &str) -> Model {
    Model {
        metadata: ModelMetadata {
            name: name.to_string(),
            display_name: name.to_string(),
            creator: None,
            version: None,
            description: None,
        },
        model_info: infer_model_info(name),
        tokenizer: None,
        max_input_size: 4096,
        api_endpoint: None,
    }
}

#[test]
fn added_provider_is_found_and_duplicate_refused() {
    let mut cm = ConfigManager::new();
    assert!(cm.add_provider(provider("openai")).is_ok());
    assert!(cm.exists_provider("openai"));
    assert_eq!(cm.get_provider("openai").unwrap().display_name, "OPENAI");
    assert_eq!(cm.add_provider(provider("openai")), Err(ConfigError::ProviderAlreadyExistsError("openai".to_string())));
    assert_eq!(cm.get_providers().len(), 1);
}

#[test]
fn update_and_delete_provider() {
    let mut cm = ConfigManager::new();
    cm.add_provider(provider("a")).unwrap();
    cm.add_provider(provider("b")).unwrap();
    let mut p = provider("a");
    p.base_url = "http://y".to_string();
    assert!(cm.update_provider("a", p).is_ok());
    assert_eq!(cm.get_provider("a").unwrap().base_url, "http://y");
    assert_eq!(cm.update_provider("zz", provider("zz")), Err(ConfigError::ProviderNotFoundError("zz".to_string())));
    assert!(cm.delete_provider("a").is_ok());
    assert!(!cm.exists_provider("a"));
    assert_eq!(cm.get_providers()[0].name, "b");
    assert_eq!(cm.delete_provider("a"), Err(ConfigError::ProviderNotFoundError("a".to_string())));
}

#[test]
fn characters_are_managed_by_id() {
    let mut cm = ConfigManager::new();
    cm.add_character(character("c1")).unwrap();
    assert_eq!(cm.add_character(character("c1")), Err(ConfigError::CharacterAlreadyExistsError("c1".to_string())));
    assert!(cm.exists_character("c1"));
    let got = cm.get_character("c1").unwrap();
    assert_eq!(got.name, "name-c1");
    assert_eq!(got.parameters, vec!["temperature=0.2".to_string()]);
    let mut c = character("c1");
    c.name = "renamed".to_string();
    cm.update_character("c1", c).unwrap();
    assert_eq!(cm.get_characters()[0].name, "renamed");
    assert_eq!(cm.update_character("nope", character("nope")), Err(ConfigError::CharacterNotFoundError("nope".to_string())));
    cm.delete_character("c1").unwrap();
    assert!(cm.get_character("c1").is_none());
    assert_eq!(cm.delete_character("c1"), Err(ConfigError::CharacterNotFoundError("c1".to_string())));
}

#[test]
fn provider_models_by_name() {
    let mut p = provider("p");
    p.add_model(model("gpt-4o")).unwrap();
    assert_eq!(p.add_model(model("gpt-4o")), Err(ProviderError::ModelAlreadyExistError("gpt-4o".to_string())));
    p.add_model(model("text-embedding-3")).unwrap();
    assert_eq!(p.get_model("text-embedding-3").unwrap().metadata.name, "text-embedding-3");
    let mut m = model("gpt-4o");
    m.max_input_size = 8;
    p.update_model("gpt-4o", m).unwrap();
    assert_eq!(p.get_model("gpt-4o").unwrap().max_input_size, 8);
    assert_eq!(p.update_model("none", model("none")), Err(ProviderError::ModelNotFoundError("none".to_string())));
    p.delete_model("gpt-4o").unwrap();
    assert!(p.get_model("gpt-4o").is_none());
    assert_eq!(p.delete_model("gpt-4o"), Err(ProviderError::ModelNotFoundError("gpt-4o".to_string())));
    let cloned = p.clone();
    assert_eq!(cloned.models.len(), 1);
}
