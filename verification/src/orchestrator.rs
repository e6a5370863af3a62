//! Rounds in which several characters answer one user message.
use vstd::prelude::*;

use crate::character::Character;
use crate::director::opt_string_view;
use crate::messages::{Message, MessageRole, MessageSource};
use crate::text::push_str;

verus! {

broadcast use vstd::string::group_string_axioms;

/// One character's reply within a round.
#[derive(Debug, Clone)]
pub struct PalReply {
    pub message_id: String,
    pub pal_id: String,
    pub pal_name: String,
    pub text: String,
    pub source: MessageSource,
}

/// A message with no reasoning, tokens, embedding, images or tool calls,
/// stamped at time zero.
pub open spec fn bare(m: Message) -> bool {
    &&& m.reasoning is None
    &&& m.timestamp == 0
    &&& m.tokens is None
    &&& m.embedding is None
    &&& m.images is None
    &&& m.tool_calls is None
}

/// The system message that carries a character's prompt.
pub open spec fn is_system_prompt_message(m: Message, pal: Character) -> bool {
    &&& bare(m)
    &&& m.id@ == pal.id@ + "-system"@
    &&& m.text@ == pal.system_prompt@
    &&& m.sender == MessageRole::System
    &&& m.source == MessageSource::UserPrompted
    &&& m.pal_id is None
    &&& m.pal_name is None
}

/// The assistant message that replays an earlier reply of the round.
pub open spec fn is_reply_message(m: Message, r: PalReply) -> bool {
    &&& bare(m)
    &&& m.id@ == r.message_id@
    &&& m.text@ == r.text@
    &&& m.sender == MessageRole::Assistant
    &&& m.source == r.source
    &&& opt_string_view(m.pal_id) == Some(r.pal_id@)
    &&& opt_string_view(m.pal_name) == Some(r.pal_name@)
}

/// The context a character answers from: its system prompt where it has
/// one, then the replies given so far in the round, in order.
pub open spec fn is_pal_context(ctx: Seq<Message>, replies: Seq<PalReply>, pal: Character) -> bool {
    let k: int = if pal.system_prompt@.len() > 0 { 1 } else { 0 };
    &&& ctx.len() == k + replies.len()
    &&& k == 1 ==> is_system_prompt_message(ctx[0], pal)
    &&& forall|i: int| 0 <= i < replies.len() ==> is_reply_message(#[trigger] ctx[k + i], replies[i])
}

/// Builds the messages a character answers from within a round: its system
/// prompt (when not empty) as a system message, then each earlier reply of
/// the round as an assistant message that keeps its character and source.
pub fn build_context_for_pal(
    conversation_id: &str,
    previous_replies: &[PalReply],
    pal: &Character,
) -> (r: Result<Vec<Message>, String>)
    ensures
        r matches Ok(ctx) && is_pal_context(ctx@, previous_replies@, *pal),
{
    let mut context: Vec<Message> = Vec::new();
    let has_prompt = pal.system_prompt.as_str().is_empty() == false;
    if has_prompt {
        let mut id = pal.id.clone();
        push_str(&mut id, "-system");
        context.push(Message {
            id,
            text: pal.system_prompt.clone(),
            reasoning: None,
            sender: MessageRole::System,
            timestamp: 0,
            tokens: None,
            embedding: None,
            images: None,
            tool_calls: None,
            source: MessageSource::UserPrompted,
            pal_id: None,
            pal_name: None,
        });
    }
    let ghost k: int = if has_prompt { 1 } else { 0 };
    let mut i: usize = 0;
    while i < previous_replies.len()
        invariant
            i <= previous_replies@.len(),
            k == (if pal.system_prompt@.len() > 0 { 1int } else { 0int }),
            context@.len() == k + i,
            k == 1 ==> is_system_prompt_message(context@[0], *pal),
            forall|j: int| 0 <= j < i ==> is_reply_message(#[trigger] context@[k + j], previous_replies@[j]),
        decreases previous_replies.len() - i,
    {
        let reply = &previous_replies[i];
        context.push(Message {
            id: reply.message_id.clone(),
            text: reply.text.clone(),
            reasoning: None,
            sender: MessageRole::Assistant,
            timestamp: 0,
            tokens: None,
            embedding: None,
            images: None,
            tool_calls: None,
            source: reply.source,
            pal_id: Some(reply.pal_id.clone()),
            pal_name: Some(reply.pal_name.clone()),
        });
        proof {
            assert(is_reply_message(context@[k + i], previous_replies@[i as int]));
        }
        i = i + 1;
    }
    Ok(context)
}

} // verus!
