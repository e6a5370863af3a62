//! Stored chat messages.
use vstd::prelude::*;

use crate::text::{owned, str_eq};
use crate::tools::{opt_copy, opt_view};

verus! {

broadcast use vstd::string::group_string_axioms;

/// Who wrote a message.
#[derive(Debug, Clone, Copy, PartialEq, Eq, Structural)]
pub enum MessageRole {
    User,
    Assistant,
    System,
    Tool,
}

/// How a character's reply came about: asked for by the user, or called in
/// by the director.
#[derive(Debug, Clone, Copy, PartialEq, Eq, Structural)]
pub enum MessageSource {
    UserPrompted,
    Directed,
}

/// The address of an attached image.
#[derive(Debug, Clone)]
pub struct ImageUrl {
    pub url: String,
}

/// An image attached to a message.
#[derive(Debug, Clone)]
pub struct ImageContent {
    pub content_type: String,
    pub image_url: ImageUrl,
}

/// A message of a conversation. The embedding is held as the bit patterns
/// of its `f32` components.
#[derive(Debug, Clone)]
pub struct Message {
    pub id: String,
    pub text: String,
    pub reasoning: Option<String>,
    pub sender: MessageRole,
    pub timestamp: i64,
    pub tokens: Option<i64>,
    pub embedding: Option<Vec<u32>>,
    pub images: Option<Vec<ImageContent>>,
    pub tool_calls: Option<String>,
    pub source: MessageSource,
    pub pal_id: Option<String>,
    pub pal_name: Option<String>,
}

/// The name under which a role is stored.
pub open spec fn role_name(r: MessageRole) -> Seq<char> {
    match r {
        MessageRole::User => "user"@,
        MessageRole::Assistant => "assistant"@,
        MessageRole::System => "system"@,
        MessageRole::Tool => "tool"@,
    }
}

/// A role is read back from the name it is stored under.
pub proof fn lemma_role_round_trip(r: MessageRole)
    ensures
        role_named(role_name(r)) == Some(r),
{
    reveal_strlit("user");
    reveal_strlit("assistant");
    reveal_strlit("bot");
    reveal_strlit("system");
    reveal_strlit("tool");
    assert("user"@.len() == 4);
    assert("assistant"@.len() == 9);
    assert("bot"@.len() == 3);
    assert("system"@.len() == 6);
    assert("tool"@.len() == 4);
    assert("tool"@[0] == 't' && "user"@[0] == 'u');
}

/// The role stored under a name; `bot` is an older name of the assistant.
pub open spec fn role_named(s: Seq<char>) -> Option<MessageRole> {
    if s == "user"@ {
        Some(MessageRole::User)
    } else if s == "assistant"@ || s == "bot"@ {
        Some(MessageRole::Assistant)
    } else if s == "system"@ {
        Some(MessageRole::System)
    } else if s == "tool"@ {
        Some(MessageRole::Tool)
    } else {
        None
    }
}

impl MessageRole {
    /// The name under which the role is stored.
    pub fn to_string(&self) -> (r: String)
        ensures
            r@ == role_name(*self),
    {
        match self {
            MessageRole::User => owned("user"),
            MessageRole::Assistant => owned("assistant"),
            MessageRole::System => owned("system"),
            MessageRole::Tool => owned("tool"),
        }
    }

    /// The role stored under `s`, if any.
    pub fn from_name(s: &str) -> (r: Option<MessageRole>)
        ensures
            r == role_named(s@),
    {
        if str_eq(s, "user") {
            Some(MessageRole::User)
        } else if str_eq(s, "assistant") || str_eq(s, "bot") {
            Some(MessageRole::Assistant)
        } else if str_eq(s, "system") {
            Some(MessageRole::System)
        } else if str_eq(s, "tool") {
            Some(MessageRole::Tool)
        } else {
            None
        }
    }
}

/// The model of an attached image: its content type and its address.
pub open spec fn image_view(i: ImageContent) -> (Seq<char>, Seq<char>) {
    (i.content_type@, i.image_url.url@)
}

/// The models of a run of images.
pub open spec fn images_view(o: Option<Vec<ImageContent>>) -> Option<Seq<(Seq<char>, Seq<char>)>> {
    match o {
        Some(v) => Some(v@.map_values(|i: ImageContent| image_view(i))),
        None => None,
    }
}

/// The bit patterns of an embedding.
pub open spec fn embedding_view(o: Option<Vec<u32>>) -> Option<Seq<u32>> {
    match o {
        Some(v) => Some(v@),
        None => None,
    }
}

/// Two messages that agree in every field.
pub open spec fn same_message(a: Message, b: Message) -> bool {
    &&& a.id@ == b.id@
    &&& a.text@ == b.text@
    &&& opt_view(a.reasoning) == opt_view(b.reasoning)
    &&& a.sender == b.sender
    &&& a.timestamp == b.timestamp
    &&& a.tokens == b.tokens
    &&& embedding_view(a.embedding) == embedding_view(b.embedding)
    &&& images_view(a.images) == images_view(b.images)
    &&& opt_view(a.tool_calls) == opt_view(b.tool_calls)
    &&& a.source == b.source
    &&& opt_view(a.pal_id) == opt_view(b.pal_id)
    &&& opt_view(a.pal_name) == opt_view(b.pal_name)
}

fn copy_images(v: &Vec<ImageContent>) -> (r: Vec<ImageContent>)
    ensures
        r@.map_values(|i: ImageContent| image_view(i)) == v@.map_values(|i: ImageContent| image_view(i)),
{
    let mut out: Vec<ImageContent> = Vec::new();
    let mut k: usize = 0;
    while k < v.len()
        invariant
            k <= v@.len(),
            out@.len() == k,
            forall|j: int| 0 <= j < k ==> image_view(#[trigger] out@[j]) == image_view(v@[j]),
        decreases v.len() - k,
    {
        out.push(ImageContent {
            content_type: v[k].content_type.clone(),
            image_url: ImageUrl { url: v[k].image_url.url.clone() },
        });
        k = k + 1;
    }
    assert(out@.map_values(|i: ImageContent| image_view(i)) =~= v@.map_values(|i: ImageContent| image_view(i)));
    out
}

impl Message {
    /// A copy of the message.
    pub fn copy(&self) -> (r: Message)
        ensures
            same_message(r, *self),
    {
        let embedding = match &self.embedding {
            Some(e) => Some(e.clone()),
            None => None,
        };
        let images = match &self.images {
            Some(v) => Some(copy_images(v)),
            None => None,
        };
        Message {
            id: self.id.clone(),
            text: self.text.clone(),
            reasoning: opt_copy(&self.reasoning),
            sender: self.sender,
            timestamp: self.timestamp,
            tokens: self.tokens,
            embedding,
            images,
            tool_calls: opt_copy(&self.tool_calls),
            source: self.source,
            pal_id: opt_copy(&self.pal_id),
            pal_name: opt_copy(&self.pal_name),
        }
    }
}

} // verus!
