//! The messages of a thread as they are sent to the model: users' text
//! with their images, the assistant's text with the tool calls it made
//! written back in, and tool results as system text.
use vstd::prelude::*;

use async_openai::types::chat::{
    ChatCompletionRequestAssistantMessage, ChatCompletionRequestAssistantMessageContent,
    ChatCompletionRequestMessage, ChatCompletionRequestMessageContentPartImage,
    ChatCompletionRequestMessageContentPartText, ChatCompletionRequestSystemMessage,
    ChatCompletionRequestSystemMessageContent, ChatCompletionRequestUserMessage,
    ChatCompletionRequestUserMessageContent, ChatCompletionRequestUserMessageContentPart, ImageDetail,
};

use crate::json::{json_get, json_parse, key_index_from, json_text, parse_json, to_json_string, Json, JsonMember, JsonValue};
use crate::messages::{Message, MessageRole};
use crate::text::{owned, push_str};

verus! {

broadcast use vstd::string::group_string_axioms;

/// A message as it is sent: system text, user text with the addresses of
/// its images, or assistant text.
#[derive(Debug, Clone)]
pub enum RequestMessage {
    System(String),
    User(String, Vec<String>),
    Assistant(String),
}

/// The model of a sent message.
pub enum RequestModel {
    System(Seq<char>),
    User(Seq<char>, Seq<Seq<char>>),
    Assistant(Seq<char>),
}

impl View for RequestMessage {
    type V = RequestModel;

    open spec fn view(&self) -> RequestModel {
        match self {
            RequestMessage::System(t) => RequestModel::System(t@),
            RequestMessage::User(t, urls) => RequestModel::User(t@, urls@.map_values(|u: String| u@)),
            RequestMessage::Assistant(t) => RequestModel::Assistant(t@),
        }
    }
}

/// A stored call as written back: its `name` and `arguments`, `null` where
/// missing.
pub open spec fn call_summary(call: Json) -> Json {
    Json::Object(
        seq!["name"@, "arguments"@],
        seq![
            match json_get(call, "name"@) {
                Some(v) => v,
                None => Json::Null,
            },
            match json_get(call, "arguments"@) {
                Some(v) => v,
                None => Json::Null,
            },
        ],
    )
}

/// The stored calls as written back: each summarized, none where the
/// stored text is not a JSON array.
pub open spec fn calls_summary(raw: Seq<char>) -> Seq<Json> {
    match json_parse(raw) {
        Some(Json::Array(items)) => items.map_values(|c: Json| call_summary(c)),
        _ => Seq::empty(),
    }
}

/// The text an assistant message is sent with: its text, and where it made
/// calls, those calls between `<|tool_calls|>` markers on a line of their
/// own.
pub open spec fn assistant_text(text: Seq<char>, tool_calls: Option<Seq<char>>) -> Seq<char> {
    match tool_calls {
        None => text,
        Some(raw) => {
            let tag = "<|tool_calls|>"@ + json_text(Json::Array(calls_summary(raw))) + "<|/tool_calls|>"@;
            if text.len() == 0 {
                tag
            } else {
                text + "\n"@ + tag
            }
        },
    }
}

/// How a stored message is sent: a user's text with its images'
/// addresses (none where it has no images), the assistant's text with its
/// calls, and system and tool text as system text.
pub open spec fn request_of(m: Message) -> RequestModel {
    match m.sender {
        MessageRole::User => RequestModel::User(
            m.text@,
            match m.images {
                Some(v) => v@.map_values(|i: crate::messages::ImageContent| i.image_url.url@),
                None => Seq::empty(),
            },
        ),
        MessageRole::Assistant => RequestModel::Assistant(
            assistant_text(m.text@, crate::tools::opt_view(m.tool_calls)),
        ),
        MessageRole::System => RequestModel::System(m.text@),
        MessageRole::Tool => RequestModel::System(m.text@),
    }
}

fn member(key: &str, value: JsonValue) -> (r: JsonMember)
    ensures
        r.key@ == key@,
        r.value == value,
{
    JsonMember { key: owned(key), value }
}

fn member_or_null(call: &JsonValue, key: &str) -> (r: JsonValue)
    ensures
        r@ == match json_get(call@, key@) {
            Some(v) => v,
            None => Json::Null,
        },
{
    match call.get(key) {
        Some(v) => v.copy(),
        None => JsonValue::Null,
    }
}

/// Writes back the calls an assistant message made (see `assistant_text`).
pub fn assistant_request_text(text: &str, tool_calls: Option<&str>) -> (r: String)
    ensures
        r@ == assistant_text(
            text@,
            match tool_calls {
                Some(t) => Some(t@),
                None => None,
            },
        ),
{
    let raw = match tool_calls {
        None => return owned(text),
        Some(raw) => raw,
    };
    let mut items: Vec<JsonValue> = Vec::new();
    let ghost summary = calls_summary(raw@);
    match parse_json(raw) {
        Some(JsonValue::Array(calls)) => {
            let mut i: usize = 0;
            while i < calls.len()
                invariant
                    i <= calls@.len(),
                    items@.len() == i,
                    forall|k: int| 0 <= k < i ==> (#[trigger] items@[k])@ == call_summary(calls@[k]@),
                decreases calls.len() - i,
            {
                let mut ms: Vec<JsonMember> = Vec::new();
                ms.push(member("name", member_or_null(&calls[i], "name")));
                ms.push(member("arguments", member_or_null(&calls[i], "arguments")));
                let item = JsonValue::Object(ms);
                proof {
                    assert(item@->Object_0 =~= call_summary(calls@[i as int]@)->Object_0);
                    assert(item@->Object_1 =~= call_summary(calls@[i as int]@)->Object_1);
                }
                items.push(item);
                i = i + 1;
            }
        },
        _ => {},
    }
    let arr = JsonValue::Array(items);
    proof {
        assert(arr@->Array_0 =~= summary);
    }
    let json = to_json_string(&arr);
    let mut tag = owned("<|tool_calls|>");
    push_str(&mut tag, json.as_str());
    push_str(&mut tag, "<|/tool_calls|>");
    assert(tag@ == "<|tool_calls|>"@ + json_text(Json::Array(summary)) + "<|/tool_calls|>"@);
    if text.is_empty() {
        tag
    } else {
        let mut out = owned(text);
        push_str(&mut out, "\n");
        push_str(&mut out, tag.as_str());
        out
    }
}

/// How one stored message is sent (see `request_of`).
pub fn request_message(m: &Message) -> (r: RequestMessage)
    ensures
        r@ == request_of(*m),
{
    match m.sender {
        MessageRole::User => {
            let mut urls: Vec<String> = Vec::new();
            match &m.images {
                Some(images) => {
                    let mut i: usize = 0;
                    while i < images.len()
                        invariant
                            i <= images@.len(),
                            urls@.len() == i,
                            forall|k: int| 0 <= k < i ==> (#[trigger] urls@[k])@ == images@[k].image_url.url@,
                        decreases images.len() - i,
                    {
                        urls.push(images[i].image_url.url.clone());
                        i = i + 1;
                    }
                    proof {
                        assert(urls@.map_values(|u: String| u@) =~= images@.map_values(
                            |x: crate::messages::ImageContent| x.image_url.url@,
                        ));
                    }
                },
                None => {
                    assert(urls@.map_values(|u: String| u@) =~= Seq::<Seq<char>>::empty());
                },
            }
            RequestMessage::User(m.text.clone(), urls)
        },
        MessageRole::Assistant => {
            let calls: Option<&str> = match &m.tool_calls {
                Some(t) => Some(t.as_str()),
                None => None,
            };
            RequestMessage::Assistant(assistant_request_text(m.text.as_str(), calls))
        },
        MessageRole::System => RequestMessage::System(m.text.clone()),
        MessageRole::Tool => RequestMessage::System(m.text.clone()),
    }
}

/// How a thread's messages are sent, one for one.
pub fn build_request_messages(messages: &[Message]) -> (r: Vec<RequestMessage>)
    ensures
        r@.len() == messages@.len(),
        forall|i: int| 0 <= i < messages@.len() ==> (#[trigger] r@[i])@ == request_of(messages@[i]),
{
    let mut out: Vec<RequestMessage> = Vec::new();
    let mut i: usize = 0;
    while i < messages.len()
        invariant
            i <= messages@.len(),
            out@.len() == i,
            forall|k: int| 0 <= k < i ==> (#[trigger] out@[k])@ == request_of(messages@[k]),
        decreases messages.len() - i,
    {
        out.push(request_message(&messages[i]));
        i = i + 1;
    }
    out
}

/// `async_openai`'s request message, built below.
#[verifier::external_type_specification]
#[verifier::external_body]
pub struct ExChatCompletionRequestMessage(ChatCompletionRequestMessage);

/// `async_openai`'s part of a user message, built below.
#[verifier::external_type_specification]
#[verifier::external_body]
pub struct ExChatCompletionRequestUserMessageContentPart(ChatCompletionRequestUserMessageContentPart);

/// What `ChatCompletionRequestMessage::System` of this text, other fields
/// left at their defaults, is.
pub uninterp spec fn openai_system_message(text: Seq<char>) -> ChatCompletionRequestMessage;

/// What `ChatCompletionRequestMessage::User` of this text alone, other
/// fields left at their defaults, is.
pub uninterp spec fn openai_user_text_message(text: Seq<char>) -> ChatCompletionRequestMessage;

/// What `ChatCompletionRequestMessage::User` of these parts, other fields
/// left at their defaults, is.
pub uninterp spec fn openai_user_parts_message(parts: Seq<ChatCompletionRequestUserMessageContentPart>) -> ChatCompletionRequestMessage;

/// What a text part of this text, other fields left at their defaults, is.
pub uninterp spec fn openai_text_part_of(text: Seq<char>) -> ChatCompletionRequestUserMessageContentPart;

/// What an image part at this address with automatic detail, other fields
/// left at their defaults, is.
pub uninterp spec fn openai_image_part_of(url: Seq<char>) -> ChatCompletionRequestUserMessageContentPart;

/// What `ChatCompletionRequestMessage::Assistant` of this text, other
/// fields left at their defaults, is.
pub uninterp spec fn openai_assistant_message(text: Seq<char>) -> ChatCompletionRequestMessage;

/// A system message of this text, as `async_openai` holds it. The contract
/// claims only that the value built depends on the text alone.
#[verifier::external_body]
fn openai_system(text: String) -> (r: ChatCompletionRequestMessage)
    ensures
        r == openai_system_message(text@),
{
    ChatCompletionRequestMessage::System(ChatCompletionRequestSystemMessage {
        content: ChatCompletionRequestSystemMessageContent::Text(text),
        ..Default::default()
    })
}

/// A user message of this text alone, as `async_openai` holds it. The
/// contract claims only that the value built depends on the text alone.
#[verifier::external_body]
fn openai_user_text(text: String) -> (r: ChatCompletionRequestMessage)
    ensures
        r == openai_user_text_message(text@),
{
    ChatCompletionRequestMessage::User(ChatCompletionRequestUserMessage {
        content: ChatCompletionRequestUserMessageContent::Text(text),
        ..Default::default()
    })
}

/// A user message of these parts, as `async_openai` holds it. The contract
/// claims only that the value built depends on the parts alone.
#[verifier::external_body]
fn openai_user_parts(parts: Vec<ChatCompletionRequestUserMessageContentPart>) -> (r: ChatCompletionRequestMessage)
    ensures
        r == openai_user_parts_message(parts@),
{
    ChatCompletionRequestMessage::User(ChatCompletionRequestUserMessage {
        content: ChatCompletionRequestUserMessageContent::Array(parts),
        ..Default::default()
    })
}

/// A text part of a user message, as `async_openai` holds it. The contract
/// claims only that the value built depends on the text alone.
#[verifier::external_body]
fn openai_text_part(text: String) -> (r: ChatCompletionRequestUserMessageContentPart)
    ensures
        r == openai_text_part_of(text@),
{
    ChatCompletionRequestUserMessageContentPart::Text(ChatCompletionRequestMessageContentPartText {
        text,
        ..Default::default()
    })
}

/// An image part of a user message at this address, detail left to the
/// model, as `async_openai` holds it. The contract claims only that the
/// value built depends on the address alone.
#[verifier::external_body]
fn openai_image_part(url: String) -> (r: ChatCompletionRequestUserMessageContentPart)
    ensures
        r == openai_image_part_of(url@),
{
    ChatCompletionRequestUserMessageContentPart::ImageUrl(ChatCompletionRequestMessageContentPartImage {
        image_url: async_openai::types::chat::ImageUrl { url, detail: Some(ImageDetail::Auto) },
        ..Default::default()
    })
}

/// An assistant message of this text, as `async_openai` holds it. The
/// contract claims only that the value built depends on the text alone.
#[verifier::external_body]
fn openai_assistant(text: String) -> (r: ChatCompletionRequestMessage)
    ensures
        r == openai_assistant_message(text@),
{
    ChatCompletionRequestMessage::Assistant(ChatCompletionRequestAssistantMessage {
        content: Some(ChatCompletionRequestAssistantMessageContent::Text(text)),
        ..Default::default()
    })
}

/// A sent message as `async_openai` holds it: a user message without
/// images is its text; one with images is its text part followed by one
/// image part per address, in order.
pub open spec fn openai_request(m: RequestModel) -> ChatCompletionRequestMessage {
    match m {
        RequestModel::System(t) => openai_system_message(t),
        RequestModel::Assistant(t) => openai_assistant_message(t),
        RequestModel::User(t, urls) => if urls.len() == 0 {
            openai_user_text_message(t)
        } else {
            openai_user_parts_message(
                seq![openai_text_part_of(t)] + urls.map_values(|u: Seq<char>| openai_image_part_of(u)),
            )
        },
    }
}

/// A sent message as `async_openai` holds it (see `openai_request`).
pub fn to_openai(m: RequestMessage) -> (r: ChatCompletionRequestMessage)
    ensures
        r == openai_request(m@),
{
    match m {
        RequestMessage::System(t) => openai_system(t),
        RequestMessage::Assistant(t) => openai_assistant(t),
        RequestMessage::User(t, urls) => {
            if urls.len() == 0 {
                openai_user_text(t)
            } else {
                let ghost tv = t@;
                let ghost all = urls@.map_values(|u: String| u@);
                let mut parts: Vec<ChatCompletionRequestUserMessageContentPart> = Vec::new();
                parts.push(openai_text_part(t));
                let mut urls = urls;
                let ghost mut k: int = 0;
                while urls.len() > 0
                    invariant
                        0 <= k <= all.len(),
                        urls@.map_values(|u: String| u@) == all.skip(k),
                        parts@ == seq![openai_text_part_of(tv)] + all.take(k).map_values(
                            |u: Seq<char>| openai_image_part_of(u),
                        ),
                    decreases urls.len(),
                {
                    let ghost before = urls@;
                    let u = urls.remove(0);
                    proof {
                        let mapped_before = before.map_values(|u: String| u@);
                        assert(mapped_before.len() == before.len());
                        assert(mapped_before == all.skip(k));
                        assert(k < all.len());
                        assert(mapped_before[0] == u@);
                        assert(all.skip(k)[0] == all[k]);
                        assert(all[k] == u@);
                        assert(urls@ =~= before.subrange(1, before.len() as int));
                        let mapped = urls@.map_values(|u: String| u@);
                        assert forall|j: int| 0 <= j < mapped.len() implies #[trigger] mapped[j] == all.skip(k + 1)[j] by {
                            assert(urls@[j] == before[j + 1]);
                            assert(mapped[j] == urls@[j]@);
                            assert(mapped_before[j + 1] == before[j + 1]@);
                            assert(mapped_before[j + 1] == all.skip(k)[j + 1]);
                            assert(all.skip(k)[j + 1] == all[k + 1 + j]);
                        }
                        assert(mapped =~= all.skip(k + 1));
                        assert(all.take(k + 1) =~= all.take(k).push(u@));
                    }
                    parts.push(openai_image_part(u));
                    proof {
                        k = k + 1;
                        assert(parts@ =~= seq![openai_text_part_of(tv)] + all.take(k).map_values(
                            |u: Seq<char>| openai_image_part_of(u),
                        ));
                    }
                }
                proof {
                    assert(all.skip(k).len() == 0);
                    assert(all.take(k) =~= all);
                }
                openai_user_parts(parts)
            }
        },
    }
}

/// A thread's messages as `async_openai` sends them, one for one.
pub fn build_openai_messages(messages: &[Message]) -> (r: Vec<ChatCompletionRequestMessage>)
    ensures
        r@.len() == messages@.len(),
        forall|i: int| 0 <= i < messages@.len() ==> #[trigger] r@[i] == openai_request(request_of(messages@[i])),
{
    let requests = build_request_messages(messages);
    let ghost all = requests@;
    let mut out: Vec<ChatCompletionRequestMessage> = Vec::new();
    let mut rest = requests;
    let n = rest.len();
    while rest.len() > 0
        invariant
            n == all.len(),
            n == messages@.len(),
            out@.len() + rest@.len() == n,
            rest@ == all.skip(out@.len() as int),
            forall|i: int| 0 <= i < n ==> (#[trigger] all[i])@ == request_of(messages@[i]),
            forall|i: int| 0 <= i < out@.len() ==> #[trigger] out@[i] == openai_request(request_of(messages@[i])),
        decreases rest.len(),
    {
        let ghost k = out@.len() as int;
        let ghost before = rest@;
        let m = rest.remove(0);
        proof {
            assert(before[0] == all[k]);
            assert(rest@ =~= all.skip(k + 1));
        }
        let ghost oldout = out@;
        out.push(to_openai(m));
        proof {
            assert forall|i: int| 0 <= i < out@.len() implies #[trigger] out@[i] == openai_request(request_of(messages@[i])) by {
                if i < k {
                    assert(out@[i] == oldout[i]);
                }
            }
        }
    }
    out
}

/// Where the stored calls text is a JSON array, the assistant message is
/// sent with every stored call written back, in order: the written-back
/// array is as long as the stored one, and its `i`-th item holds the `i`-th
/// stored call's `name` and `arguments` (`null` where missing), between
/// the markers after the message's own text.
pub proof fn law_every_stored_call_written_back(text: Seq<char>, raw: Seq<char>, items: Seq<Json>)
    requires
        json_parse(raw) == Some(Json::Array(items)),
    ensures
        calls_summary(raw).len() == items.len(),
        forall|i: int|
            0 <= i < items.len() ==> json_get(#[trigger] calls_summary(raw)[i], "name"@) == Some(
                match json_get(items[i], "name"@) {
                    Some(v) => v,
                    None => Json::Null,
                },
            ),
        forall|i: int|
            0 <= i < items.len() ==> json_get(#[trigger] calls_summary(raw)[i], "arguments"@) == Some(
                match json_get(items[i], "arguments"@) {
                    Some(v) => v,
                    None => Json::Null,
                },
            ),
        assistant_text(text, Some(raw)) == (if text.len() == 0 {
            Seq::empty()
        } else {
            text + "\n"@
        }) + "<|tool_calls|>"@ + json_text(Json::Array(calls_summary(raw))) + "<|/tool_calls|>"@,
{
    reveal_strlit("name");
    reveal_strlit("arguments");
    let keys: Seq<Seq<char>> = seq!["name"@, "arguments"@];
    assert(keys[0] != keys[1]) by {
        assert(keys[0].len() != keys[1].len());
    }
    assert(key_index_from(keys, "name"@, 0) == Some(0int));
    assert(key_index_from(keys, "arguments"@, 1) == Some(1int));
    assert(key_index_from(keys, "arguments"@, 0) == Some(1int));
    assert forall|i: int| 0 <= i < items.len() implies json_get(#[trigger] calls_summary(raw)[i], "name"@) == Some(
        match json_get(items[i], "name"@) {
            Some(v) => v,
            None => Json::Null,
        },
    ) && json_get(calls_summary(raw)[i], "arguments"@) == Some(
        match json_get(items[i], "arguments"@) {
            Some(v) => v,
            None => Json::Null,
        },
    ) by {
        assert(calls_summary(raw)[i] == call_summary(items[i]));
    }
    if text.len() == 0 {
        assert(Seq::<char>::empty() + "<|tool_calls|>"@ =~= "<|tool_calls|>"@);
    }
}

} // verus!
