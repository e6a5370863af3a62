//! What a streamed chat completion adds up to, and the chunk events sent
//! while it streams. The stream itself is read by the application.
use vstd::prelude::*;

use crate::text::{chars_of, decimal, owned, push_decimal, push_str, slice_range, string_of};

verus! {

broadcast use vstd::string::group_string_axioms;

/// The names of the events that carry a stream's chunks, and the message
/// they belong to; without a message no event is sent.
#[derive(Debug, Clone)]
pub struct OpenAiStreamEvents {
    pub content_chunk: &'static str,
    pub reasoning_chunk: &'static str,
    pub message_id: Option<String>,
}

impl OpenAiStreamEvents {
    /// The events of a conversation's stream, for no message yet.
    pub fn conversation() -> (r: Self)
        ensures
            r.content_chunk@ == "conversation_stream_chunk"@,
            r.reasoning_chunk@ == "conversation_stream_reasoning"@,
            r.message_id is None,
    {
        OpenAiStreamEvents {
            content_chunk: "conversation_stream_chunk",
            reasoning_chunk: "conversation_stream_reasoning",
            message_id: None,
        }
    }
}

/// One chunk event: the message it belongs to and the text it adds.
#[derive(Debug, Clone)]
pub struct OpenAiStreamChunkEvent {
    pub message_id: Option<String>,
    pub chunk: String,
}

/// What a stream added up to: its text and its reasoning.
#[derive(Debug, Clone, PartialEq)]
pub struct OpenAiStreamOutcome {
    pub text: String,
    pub reasoning: String,
}

impl Default for OpenAiStreamOutcome {
    fn default() -> (r: Self)
        ensures
            r.text@.len() == 0,
            r.reasoning@.len() == 0,
    {
        OpenAiStreamOutcome { text: String::new(), reasoning: String::new() }
    }
}

/// One delta of a streamed choice: text, reasoning, either, or neither.
#[derive(Debug, Clone)]
pub struct StreamDelta {
    pub content: Option<String>,
    pub reasoning_content: Option<String>,
}

/// An event to send: its name and its payload.
#[derive(Debug, Clone)]
pub struct StreamEmit {
    pub event: String,
    pub payload: OpenAiStreamChunkEvent,
}

/// The text an optional chunk adds.
pub open spec fn added(o: Option<String>) -> Seq<char> {
    match o {
        Some(s) => s@,
        None => Seq::empty(),
    }
}

/// Whether `e` is the event `name` carrying `chunk` for `message_id`.
pub open spec fn is_chunk_event(e: StreamEmit, name: Seq<char>, message_id: Option<String>, chunk: Seq<char>) -> bool {
    &&& e.event@ == name
    &&& e.payload.chunk@ == chunk
    &&& crate::tools::opt_view(e.payload.message_id) == crate::tools::opt_view(message_id)
}

/// Adds a delta to what the stream has given so far, and returns the
/// events to send: where the stream belongs to a message, one for its text
/// and then one for its reasoning, each only where the delta has it.
pub fn apply_delta(outcome: &mut OpenAiStreamOutcome, events: &OpenAiStreamEvents, delta: StreamDelta) -> (r: Vec<StreamEmit>)
    ensures
        final(outcome).text@ == old(outcome).text@ + added(delta.content),
        final(outcome).reasoning@ == old(outcome).reasoning@ + added(delta.reasoning_content),
        events.message_id is None ==> r@.len() == 0,
        events.message_id is Some ==> {
            let n_text: int = if delta.content is Some { 1 } else { 0 };
            &&& r@.len() == n_text + if delta.reasoning_content is Some { 1int } else { 0int }
            &&& delta.content matches Some(c) ==> is_chunk_event(r@[0], events.content_chunk@, events.message_id, c@)
            &&& delta.reasoning_content matches Some(c) ==> is_chunk_event(
                r@[n_text],
                events.reasoning_chunk@,
                events.message_id,
                c@,
            )
        },
{
    let mut out: Vec<StreamEmit> = Vec::new();
    let sending = events.message_id.is_some();
    match delta.content {
        Some(content) => {
            push_str(&mut outcome.text, content.as_str());
            if sending {
                out.push(StreamEmit {
                    event: owned(events.content_chunk),
                    payload: OpenAiStreamChunkEvent { message_id: crate::tools::opt_copy(&events.message_id), chunk: content },
                });
            }
        },
        None => {
            assert(outcome.text@ + Seq::<char>::empty() =~= outcome.text@);
        },
    }
    match delta.reasoning_content {
        Some(reasoning) => {
            push_str(&mut outcome.reasoning, reasoning.as_str());
            if sending {
                out.push(StreamEmit {
                    event: owned(events.reasoning_chunk),
                    payload: OpenAiStreamChunkEvent {
                        message_id: crate::tools::opt_copy(&events.message_id),
                        chunk: reasoning,
                    },
                });
            }
        },
        None => {
            assert(outcome.reasoning@ + Seq::<char>::empty() =~= outcome.reasoning@);
        },
    }
    out
}

/// The most characters of the request shown when a stream fails.
pub open spec fn max_preview_chars() -> nat {
    40000000
}

/// The request as shown when a stream fails: whole, or its first
/// characters and how many were left out.
pub open spec fn preview_of(preview: Seq<char>) -> Seq<char> {
    if preview.len() > max_preview_chars() {
        preview.take(max_preview_chars() as int) + "... [truncated "@ + decimal((preview.len() - max_preview_chars()) as nat)
            + " chars]"@
    } else {
        preview
    }
}

/// Cuts the request's text down as `preview_of` says.
pub fn truncate_preview(preview: &str) -> (r: String)
    ensures
        r@ == preview_of(preview@),
{
    let cs = chars_of(preview);
    let max: usize = 40000000;
    if cs.len() > max {
        let head = slice_range(&cs, 0, max);
        let mut out = string_of(head.as_slice());
        push_str(&mut out, "... [truncated ");
        push_decimal(&mut out, (cs.len() - max) as u64);
        push_str(&mut out, " chars]");
        proof {
            assert(cs@.subrange(0, max as int) =~= preview@.take(max as int));
        }
        out
    } else {
        owned(preview)
    }
}

/// The text of a failed stream: the model, the provider, the error, and
/// the request.
pub open spec fn failure_text(model: Seq<char>, provider: Seq<char>, error: Seq<char>, summary: Seq<char>) -> Seq<char> {
    "stream failed for model '"@ + model + "' (provider '"@ + provider + "'): "@ + error + "\nMessages:\n"@ + summary
}

/// Writes the text of a failed stream.
pub fn stream_failure_text(model: &str, provider: &str, error: &str, summary: &str) -> (r: String)
    ensures
        r@ == failure_text(model@, provider@, error@, summary@),
{
    let mut out = owned("stream failed for model '");
    push_str(&mut out, model);
    push_str(&mut out, "' (provider '");
    push_str(&mut out, provider);
    push_str(&mut out, "'): ");
    push_str(&mut out, error);
    push_str(&mut out, "\nMessages:\n");
    push_str(&mut out, summary);
    out
}

} // verus!
