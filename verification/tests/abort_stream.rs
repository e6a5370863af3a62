use wisp::abort::AbortRegistry;
use wisp::stream::{apply_delta, stream_failure_text, truncate_preview, OpenAiStreamEvents, OpenAiStreamOutcome, StreamDelta};

#[test]
fn cancel_fires_the_registered_token_once() {
    let mut registry = AbortRegistry::new();
    let token = registry.register("s1");
    assert!(!token.is_cancelled());
    assert!(registry.cancel("s1"));
    assert!(token.is_cancelled());
    assert!(!registry.cancel("s1"));
}

#[test]
fn unregister_forgets_without_cancelling() {
    let mut registry = AbortRegistry::new();
    let token = registry.register("s1");
    registry.unregister("s1");
    assert!(!registry.cancel("s1"));
    assert!(!token.is_cancelled());
}

#[test]
fn registering_again_replaces_the_token() {
    let mut registry = AbortRegistry::new();
    let first = registry.register("s1");
    let second = registry.register("s1");
    assert!(registry.cancel("s1"));
    assert!(second.is_cancelled());
    assert!(!first.is_cancelled());
}

#[test]
fn deltas_add_up_and_emit_for_a_message() {
    let mut outcome = OpenAiStreamOutcome::default();
    let mut events = OpenAiStreamEvents::conversation();
    let none = apply_delta(&mut outcome, &events, StreamDelta { content: Some("Hel".to_string()), reasoning_content: None });
    assert!(none.is_empty());
    events.message_id = Some("m1".to_string());
    let emits = apply_delta(
        &mut outcome,
        &events,
        StreamDelta { content: Some("lo".to_string()), reasoning_content: Some("hmm".to_string()) },
    );
    assert_eq!(outcome.text, "Hello");
    assert_eq!(outcome.reasoning, "hmm");
    assert_eq!(emits.len(), 2);
    assert_eq!(emits[0].event, "conversation_stream_chunk");
    assert_eq!(emits[0].payload.chunk, "lo");
    assert_eq!(emits[1].event, "conversation_stream_reasoning");
    assert_eq!(emits[1].payload.message_id.as_deref(), Some("m1"));
}

#[test]
fn previews_are_cut_only_when_long() {
    assert_eq!(truncate_preview("short"), "short");
    let long = "x".repeat(40_000_005);
    let cut = truncate_preview(&long);
    assert!(cut.ends_with("... [truncated 5 chars]"));
    assert_eq!(cut.len(), 40_000_000 + "... [truncated 5 chars]".len());
}

#[test]
fn failure_text_names_model_and_provider() {
    assert_eq!(
        stream_failure_text("m", "p", "boom", "[]"),
        "stream failed for model 'm' (provider 'p'): boom\nMessages:\n[]"
    );
}
