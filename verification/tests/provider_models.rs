use wisp::model::{infer_model_info, ModelInfo, TextModelCapability};

#[test]
fn embedding_models_map_to_embedding_type() {
    assert!(matches!(infer_model_info("text-embedding-3-small"), ModelInfo::Embedding { .. }));
    assert!(matches!(infer_model_info("embed-v3"), ModelInfo::Embedding { .. }));
}

#[test]
fn rerank_models_map_to_reranker_type() {
    assert!(matches!(infer_model_info("bge-reranker-v2-m3"), ModelInfo::Reranker { .. }));
}

#[test]
fn image_models_map_to_image_generation() {
    assert!(matches!(infer_model_info("dall-e-3"), ModelInfo::ImageGeneration { .. }));
    assert!(matches!(infer_model_info("gpt-image-1"), ModelInfo::ImageGeneration { .. }));
}

#[test]
fn audio_models_map_to_audio() {
    assert!(matches!(infer_model_info("whisper-1"), ModelInfo::Audio { .. }));
    assert!(matches!(infer_model_info("tts-1"), ModelInfo::Audio { .. }));
}

#[test]
fn text_models_default_to_text_generation_with_tool_use() {
    let ModelInfo::TextGeneration { capabilities, .. } = infer_model_info("gpt-4o-mini") else {
        panic!("expected text_generation");
    };
    assert!(capabilities.contains(&TextModelCapability::ToolUse));
    assert!(!capabilities.contains(&TextModelCapability::Reasoning));
    assert!(!capabilities.contains(&TextModelCapability::FIM));
}

#[test]
fn reasoning_markers_are_detected() {
    for id in ["deepseek-reasoner", "o1-mini", "o3", "gpt-4o-reasoning", "r1-0528", "thinking-v1"] {
        let ModelInfo::TextGeneration { capabilities, .. } = infer_model_info(id) else {
            panic!("{id}: expected text_generation");
        };
        assert!(capabilities.contains(&TextModelCapability::Reasoning), "{id}: expected Reasoning capability");
    }
}

#[test]
fn fim_markers_are_detected() {
    for id in ["deepseek-coder", "qwen2.5-coder"] {
        let ModelInfo::TextGeneration { capabilities, .. } = infer_model_info(id) else {
            panic!("{id}: expected text_generation");
        };
        assert!(capabilities.contains(&TextModelCapability::FIM), "{id}: expected FIM");
    }
}

#[test]
fn capabilities_come_in_order_and_ids_are_case_insensitive() {
    let ModelInfo::TextGeneration { capabilities, multimodal, parameters } = infer_model_info("O1-CODE") else {
        panic!("expected text_generation");
    };
    assert_eq!(
        capabilities,
        vec![TextModelCapability::ToolUse, TextModelCapability::Reasoning, TextModelCapability::FIM]
    );
    assert!(multimodal.is_none());
    assert!(parameters.temperature.is_none() && parameters.stop_sequences.is_none());
    assert!(matches!(infer_model_info("My-EMBED-Image"), ModelInfo::Embedding { .. }));
    let ModelInfo::TextGeneration { capabilities, .. } = infer_model_info("o") else { panic!() };
    assert_eq!(capabilities, vec![TextModelCapability::ToolUse]);
}
