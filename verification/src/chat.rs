//! The conversation store: conversations, their messages, and the thread
//! links from each message to the message it answers, held in memory.
use vstd::prelude::*;

use crate::json::{key_index_from, lemma_key_index_skip};
use crate::messages::{role_named, same_message, ImageContent, Message, MessageRole, MessageSource};
use crate::provider::{lemma_key_index_bounds, lemma_key_push_new, lemma_key_push_other};
use crate::text::{owned, push_str, str_eq};
use crate::tools::{opt_copy, opt_view};

verus! {

broadcast use vstd::string::group_string_axioms;

/// A conversation and the message its thread starts from.
#[derive(Debug)]
pub struct Conversation {
    pub id: String,
    pub name: String,
    pub description: Option<String>,
    pub entry_message_id: Option<String>,
}

/// Two conversations that agree in every field.
pub open spec fn same_conversation(a: Conversation, b: Conversation) -> bool {
    &&& a.id@ == b.id@
    &&& a.name@ == b.name@
    &&& opt_view(a.description) == opt_view(b.description)
    &&& opt_view(a.entry_message_id) == opt_view(b.entry_message_id)
}

impl Conversation {
    /// A copy of the conversation.
    pub fn copy(&self) -> (r: Conversation)
        ensures
            same_conversation(r, *self),
    {
        Conversation {
            id: self.id.clone(),
            name: self.name.clone(),
            description: opt_copy(&self.description),
            entry_message_id: opt_copy(&self.entry_message_id),
        }
    }
}

/// What went wrong with a conversation.
#[derive(Debug)]
pub enum ConversationError {
    /// No conversation has the id asked for.
    NotFound,
    /// A conversation with this id exists already.
    Duplicate(String),
    /// The operation does not apply to the thread as it stands.
    InvalidOperation(String),
}

/// What went wrong in the store.
#[derive(Debug)]
pub enum ChatError {
    Conversation(ConversationError),
    /// No message has this id.
    MessageNotFound(String),
    /// A message with this id exists already.
    DuplicateMessage(String),
    /// The sender names no role.
    UnknownSender(String),
}

/// The text of a store error.
pub open spec fn chat_error_text(e: ChatError) -> Seq<char> {
    match e {
        ChatError::Conversation(ConversationError::NotFound) => "conversation not found"@,
        ChatError::Conversation(ConversationError::Duplicate(id)) => "conversation already exists: "@ + id@,
        ChatError::Conversation(ConversationError::InvalidOperation(m)) => "invalid operation: "@ + m@,
        ChatError::MessageNotFound(id) => "message not found: "@ + id@,
        ChatError::DuplicateMessage(id) => "message already exists: "@ + id@,
        ChatError::UnknownSender(s) => "unknown sender: "@ + s@,
    }
}

impl ChatError {
    /// The error as a line of text.
    pub fn to_text(&self) -> (r: String)
        ensures
            r@ == chat_error_text(*self),
    {
        match self {
            ChatError::Conversation(ConversationError::NotFound) => owned("conversation not found"),
            ChatError::Conversation(ConversationError::Duplicate(id)) => {
                let mut out = owned("conversation already exists: ");
                push_str(&mut out, id.as_str());
                out
            },
            ChatError::Conversation(ConversationError::InvalidOperation(m)) => {
                let mut out = owned("invalid operation: ");
                push_str(&mut out, m.as_str());
                out
            },
            ChatError::MessageNotFound(id) => {
                let mut out = owned("message not found: ");
                push_str(&mut out, id.as_str());
                out
            },
            ChatError::DuplicateMessage(id) => {
                let mut out = owned("message already exists: ");
                push_str(&mut out, id.as_str());
                out
            },
            ChatError::UnknownSender(s) => {
                let mut out = owned("unknown sender: ");
                push_str(&mut out, s.as_str());
                out
            },
        }
    }
}

/// The link from a message to the message it answers; a thread's first
/// message has none.
#[derive(Debug)]
pub struct ThreadLink {
    pub id: String,
    pub parent: Option<String>,
}

/// The conversations table.
#[derive(Debug)]
pub struct Conversations {
    rows: Vec<Conversation>,
}

/// The messages table.
#[derive(Debug)]
pub struct Messages {
    rows: Vec<Message>,
}

/// The thread links.
#[derive(Debug)]
pub struct Threads {
    links: Vec<ThreadLink>,
}

/// The tables a store starts from.
#[derive(Debug)]
pub struct DbPool {
    conversations: Conversations,
    messages: Messages,
    threads: Threads,
}

/// An empty set of tables.
pub fn create_memory_pool() -> (r: DbPool)
    ensures
        r.is_empty(),
{
    DbPool {
        conversations: Conversations { rows: Vec::new() },
        messages: Messages { rows: Vec::new() },
        threads: Threads { links: Vec::new() },
    }
}

impl DbPool {
    /// The conversations table's rows.
    pub closed spec fn conv_rows(&self) -> Seq<Conversation> {
        self.conversations.rows@
    }

    /// The messages table's rows.
    pub closed spec fn msg_rows(&self) -> Seq<Message> {
        self.messages.rows@
    }

    /// The thread links.
    pub closed spec fn link_rows(&self) -> Seq<ThreadLink> {
        self.threads.links@
    }

    /// Whether every table is empty.
    pub closed spec fn is_empty(&self) -> bool {
        &&& self.conversations.rows@.len() == 0
        &&& self.messages.rows@.len() == 0
        &&& self.threads.links@.len() == 0
    }
}

/// The ids of a run of conversations.
pub open spec fn conv_ids(rows: Seq<Conversation>) -> Seq<Seq<char>> {
    rows.map_values(|c: Conversation| c.id@)
}

/// The first conversation with this id.
pub open spec fn conv_index(rows: Seq<Conversation>, id: Seq<char>) -> Option<int> {
    key_index_from(conv_ids(rows), id, 0)
}

/// The ids of a run of messages.
pub open spec fn msg_ids(rows: Seq<Message>) -> Seq<Seq<char>> {
    rows.map_values(|m: Message| m.id@)
}

/// The id a conversation's initial system message would have where no
/// message has it yet.
pub open spec fn system_message_id(conversation_id: Seq<char>) -> Seq<char> {
    "system-"@ + conversation_id
}

/// The length of the longest message id.
pub open spec fn max_id_len(msgs: Seq<Message>) -> nat
    decreases msgs.len(),
{
    if msgs.len() == 0 {
        0
    } else {
        let m = max_id_len(msgs.drop_last());
        if msgs.last().id@.len() > m {
            msgs.last().id@.len()
        } else {
            m
        }
    }
}

/// The id given to a new conversation's system message: `system-{id}`,
/// or, where a message has that id, the same padded with `-` to one
/// character longer than the longest message id.
pub open spec fn fresh_system_message_id(msgs: Seq<Message>, conversation_id: Seq<char>) -> Seq<char> {
    let base = system_message_id(conversation_id);
    if msg_index(msgs, base) is None {
        base
    } else {
        base + Seq::new((max_id_len(msgs) + 1 - base.len()) as nat, |i: int| '-')
    }
}

proof fn lemma_max_id_len(msgs: Seq<Message>)
    ensures
        forall|i: int| 0 <= i < msgs.len() ==> (#[trigger] msgs[i]).id@.len() <= max_id_len(msgs),
    decreases msgs.len(),
{
    if msgs.len() > 0 {
        lemma_max_id_len(msgs.drop_last());
        assert forall|i: int| 0 <= i < msgs.len() implies (#[trigger] msgs[i]).id@.len() <= max_id_len(msgs) by {
            if i < msgs.len() - 1 {
                assert(msgs[i] == msgs.drop_last()[i]);
            }
        }
    }
}

/// The first message with this id.
pub open spec fn msg_index(rows: Seq<Message>, id: Seq<char>) -> Option<int> {
    key_index_from(msg_ids(rows), id, 0)
}

/// The ids of a run of links.
pub open spec fn link_ids(links: Seq<ThreadLink>) -> Seq<Seq<char>> {
    links.map_values(|l: ThreadLink| l.id@)
}

/// The parent of a message, by its first link; none without a link.
pub open spec fn parent_of(links: Seq<ThreadLink>, id: Seq<char>) -> Option<Seq<char>> {
    match key_index_from(link_ids(links), id, 0) {
        Some(i) => opt_view(links[i].parent),
        None => None,
    }
}

/// The messages linked to `id` among the first `n` links, in link order.
pub open spec fn children_upto(links: Seq<ThreadLink>, id: Seq<char>, n: int) -> Seq<Seq<char>>
    decreases n,
{
    if n <= 0 || n > links.len() {
        Seq::empty()
    } else if opt_view(links[n - 1].parent) == Some(id) {
        children_upto(links, id, n - 1).push(links[n - 1].id@)
    } else {
        children_upto(links, id, n - 1)
    }
}

/// The messages that answer `id`, in the order they were linked.
pub open spec fn children_of(links: Seq<ThreadLink>, id: Seq<char>) -> Seq<Seq<char>> {
    children_upto(links, id, links.len() as int)
}

/// The first conversation, from row `i` on, whose thread starts from `id`.
pub open spec fn entry_index_from(rows: Seq<Conversation>, id: Seq<char>, i: int) -> Option<int>
    decreases rows.len() - i,
{
    if i < 0 || i >= rows.len() {
        None
    } else if opt_view(rows[i].entry_message_id) == Some(id) {
        Some(i)
    } else {
        entry_index_from(rows, id, i + 1)
    }
}

proof fn lemma_entry_index_bounds(rows: Seq<Conversation>, id: Seq<char>, i: int)
    ensures
        entry_index_from(rows, id, i) matches Some(k) ==> i <= k < rows.len() && opt_view(rows[k].entry_message_id)
            == Some(id),
    decreases rows.len() - i,
{
    if 0 <= i < rows.len() && opt_view(rows[i].entry_message_id) != Some(id) {
        lemma_entry_index_bounds(rows, id, i + 1);
    }
}

/// The first conversation whose thread starts from `id`.
pub open spec fn entry_index(rows: Seq<Conversation>, id: Seq<char>) -> Option<int> {
    entry_index_from(rows, id, 0)
}

/// The text of an optional borrowed string.
pub open spec fn opt_str_view(o: Option<&str>) -> Option<Seq<char>> {
    match o {
        Some(s) => Some(s@),
        None => None,
    }
}

/// An owned copy of an optional borrowed string.
pub fn opt_owned(o: Option<&str>) -> (r: Option<String>)
    ensures
        opt_view(r) == opt_str_view(o),
{
    match o {
        Some(s) => Some(owned(s)),
        None => None,
    }
}

/// A message as the store writes it: the given fields, no tokens,
/// embedding or pal, asked for by the user, at time zero.
pub open spec fn stored_message(
    m: Message,
    id: Seq<char>,
    text: Seq<char>,
    reasoning: Option<Seq<char>>,
    sender: MessageRole,
    images: Option<Seq<(Seq<char>, Seq<char>)>>,
    tool_calls: Option<Seq<char>>,
) -> bool {
    stored_with(m, id, text, reasoning, sender, images, tool_calls, plain_origin())
}

/// Where a message comes from and when: how it came about, the character
/// that wrote it, if any, and its time.
#[derive(Debug)]
pub struct MessageOrigin {
    pub source: MessageSource,
    pub pal_id: Option<String>,
    pub pal_name: Option<String>,
    pub timestamp: i64,
}

/// The model of a message's origin.
pub struct OriginModel {
    pub source: MessageSource,
    pub pal_id: Option<Seq<char>>,
    pub pal_name: Option<Seq<char>>,
    pub timestamp: i64,
}

impl View for MessageOrigin {
    type V = OriginModel;

    open spec fn view(&self) -> OriginModel {
        OriginModel {
            source: self.source,
            pal_id: opt_view(self.pal_id),
            pal_name: opt_view(self.pal_name),
            timestamp: self.timestamp,
        }
    }
}

/// The origin of a message nobody in particular wrote, at time zero.
pub open spec fn plain_origin() -> OriginModel {
    OriginModel { source: MessageSource::UserPrompted, pal_id: None, pal_name: None, timestamp: 0 }
}

impl MessageOrigin {
    /// The origin of a message nobody in particular wrote, at time zero.
    pub fn plain() -> (r: MessageOrigin)
        ensures
            r@ == plain_origin(),
    {
        MessageOrigin { source: MessageSource::UserPrompted, pal_id: None, pal_name: None, timestamp: 0 }
    }
}

/// `m` is the message stored with these fields and this origin; it has no
/// token count and no embedding.
pub open spec fn stored_with(
    m: Message,
    id: Seq<char>,
    text: Seq<char>,
    reasoning: Option<Seq<char>>,
    sender: MessageRole,
    images: Option<Seq<(Seq<char>, Seq<char>)>>,
    tool_calls: Option<Seq<char>>,
    origin: OriginModel,
) -> bool {
    &&& m.id@ == id
    &&& m.text@ == text
    &&& opt_view(m.reasoning) == reasoning
    &&& m.sender == sender
    &&& m.timestamp == origin.timestamp
    &&& m.tokens is None
    &&& m.embedding is None
    &&& crate::messages::images_view(m.images) == images
    &&& opt_view(m.tool_calls) == tool_calls
    &&& m.source == origin.source
    &&& opt_view(m.pal_id) == origin.pal_id
    &&& opt_view(m.pal_name) == origin.pal_name
}

/// The text of each of a run of strings.
pub open spec fn str_views(v: Seq<String>) -> Seq<Seq<char>> {
    v.map_values(|s: String| s@)
}

/// The rows whose key is not in `gone`, in order.
pub open spec fn keep_by<T>(rows: Seq<T>, key: spec_fn(T) -> Seq<char>, gone: Seq<Seq<char>>) -> Seq<T>
    decreases rows.len(),
{
    if rows.len() == 0 {
        Seq::empty()
    } else if gone.contains(key(rows.last())) {
        keep_by(rows.drop_last(), key, gone)
    } else {
        keep_by(rows.drop_last(), key, gone).push(rows.last())
    }
}

/// A conversation's key: its id.
pub open spec fn conv_key() -> spec_fn(Conversation) -> Seq<char> {
    |c: Conversation| c.id@
}

/// A message's key: its id.
pub open spec fn msg_key() -> spec_fn(Message) -> Seq<char> {
    |m: Message| m.id@
}

/// A link's key: the id of the message it links.
pub open spec fn link_key() -> spec_fn(ThreadLink) -> Seq<char> {
    |l: ThreadLink| l.id@
}

/// The model of a run of links: each message's id and its parent's.
pub open spec fn link_views(links: Seq<ThreadLink>) -> Seq<(Seq<char>, Option<Seq<char>>)> {
    links.map_values(|l: ThreadLink| (l.id@, opt_view(l.parent)))
}

proof fn lemma_keep_step<T>(orig: Seq<T>, key: spec_fn(T) -> Seq<char>, gone: Seq<Seq<char>>, j: int)
    requires
        0 <= j < orig.len(),
    ensures
        keep_by(orig.take(j + 1), key, gone) == if gone.contains(key(orig[j])) {
            keep_by(orig.take(j), key, gone)
        } else {
            keep_by(orig.take(j), key, gone).push(orig[j])
        },
{
    assert(orig.take(j + 1).drop_last() =~= orig.take(j));
    assert(orig.take(j + 1).last() == orig[j]);
}

proof fn lemma_tail_shift<T>(a: Seq<T>, i: int, b: Seq<T>, j: int)
    requires
        0 <= i < a.len(),
        0 <= j <= b.len(),
        a.subrange(i, a.len() as int) == b.subrange(j, b.len() as int),
    ensures
        a[i] == b[j],
        j < b.len(),
        a.subrange(i + 1, a.len() as int) == b.subrange(j + 1, b.len() as int),
{
    let ta = a.subrange(i, a.len() as int);
    let tb = b.subrange(j, b.len() as int);
    assert(ta.len() == tb.len());
    assert(ta[0] == a[i]);
    assert(tb[0] == b[j]);
    let sa = a.subrange(i + 1, a.len() as int);
    let sb = b.subrange(j + 1, b.len() as int);
    assert forall|k: int| 0 <= k < sa.len() implies #[trigger] sa[k] == sb[k] by {
        assert(ta[k + 1] == a[i + 1 + k]);
        assert(tb[k + 1] == b[j + 1 + k]);
    }
    assert(a.subrange(i + 1, a.len() as int) =~= b.subrange(j + 1, b.len() as int));
}

/// Whether `id` is one of `ids`.
pub fn contains_id(ids: &Vec<String>, id: &str) -> (r: bool)
    ensures
        r == str_views(ids@).contains(id@),
{
    let mut i: usize = 0;
    while i < ids.len()
        invariant
            i <= ids@.len(),
            forall|k: int| 0 <= k < i ==> ids@[k]@ != id@,
        decreases ids.len() - i,
    {
        if str_eq(ids[i].as_str(), id) {
            proof {
                assert(str_views(ids@)[i as int] == id@);
            }
            return true;
        }
        i = i + 1;
    }
    proof {
        if str_views(ids@).contains(id@) {
            let k = choose|k: int| 0 <= k < str_views(ids@).len() && str_views(ids@)[k] == id@;
            assert(ids@[k]@ == id@);
        }
    }
    false
}

impl Conversations {
    /// The rows, in the order they were added.
    pub closed spec fn rows(&self) -> Seq<Conversation> {
        self.rows@
    }

    fn find(&self, id: &str) -> (r: Option<usize>)
        ensures
            match r {
                Some(i) => conv_index(self.rows(), id@) == Some(i as int) && i < self.rows().len(),
                None => conv_index(self.rows(), id@) is None,
            },
    {
        let ghost ids = conv_ids(self.rows@);
        let mut i: usize = 0;
        while i < self.rows.len()
            invariant
                i <= self.rows@.len(),
                ids == conv_ids(self.rows@),
                forall|j: int| 0 <= j < i ==> ids[j] != id@,
            decreases self.rows.len() - i,
        {
            if str_eq(self.rows[i].id.as_str(), id) {
                proof {
                    lemma_key_index_skip(ids, id@, i as int);
                }
                return Some(i);
            }
            i = i + 1;
        }
        proof {
            lemma_key_index_skip(ids, id@, i as int);
        }
        None
    }

    /// The conversation with this id.
    pub fn get(&self, id: &str) -> (r: Option<Conversation>)
        ensures
            match conv_index(self.rows(), id@) {
                Some(i) => r matches Some(c) && same_conversation(c, self.rows()[i]),
                None => r is None,
            },
    {
        match self.find(id) {
            Some(i) => Some(self.rows[i].copy()),
            None => None,
        }
    }

    /// The conversation whose thread starts from `message_id`.
    pub fn get_by_entry_id(&self, message_id: &str) -> (r: Option<Conversation>)
        ensures
            match r {
                Some(c) => exists|i: int|
                    0 <= i < self.rows().len() && opt_view(#[trigger] self.rows()[i].entry_message_id) == Some(message_id@)
                        && same_conversation(c, self.rows()[i]),
                None => forall|i: int|
                    0 <= i < self.rows().len() ==> opt_view(#[trigger] self.rows()[i].entry_message_id) != Some(message_id@),
            },
    {
        let mut i: usize = 0;
        while i < self.rows.len()
            invariant
                i <= self.rows@.len(),
                forall|j: int| 0 <= j < i ==> opt_view(#[trigger] self.rows@[j].entry_message_id) != Some(message_id@),
            decreases self.rows.len() - i,
        {
            let hit = match &self.rows[i].entry_message_id {
                Some(e) => str_eq(e.as_str(), message_id),
                None => false,
            };
            if hit {
                return Some(self.rows[i].copy());
            }
            i = i + 1;
        }
        None
    }

    /// Sets the message the thread of conversation `id` starts from; no
    /// conversation changes where none has that id.
    pub fn update_entry_message_id(&mut self, id: &str, entry: Option<&str>) -> (r: Result<(), ChatError>)
        ensures
            r is Ok,
            final(self).rows().len() == old(self).rows().len(),
            match conv_index(old(self).rows(), id@) {
                Some(i) => {
                    &&& final(self).rows()[i].id@ == old(self).rows()[i].id@
                    &&& final(self).rows()[i].name@ == old(self).rows()[i].name@
                    &&& opt_view(final(self).rows()[i].description) == opt_view(old(self).rows()[i].description)
                    &&& opt_view(final(self).rows()[i].entry_message_id) == match entry {
                        Some(e) => Some(e@),
                        None => None::<Seq<char>>,
                    }
                    &&& forall|j: int| 0 <= j < old(self).rows().len() && j != i ==> #[trigger] final(self).rows()[j] == old(self).rows()[j]
                },
                None => final(self).rows() == old(self).rows(),
            },
    {
        match self.find(id) {
            Some(i) => {
                let e = match entry {
                    Some(s) => Some(owned(s)),
                    None => None,
                };
                let old_row = self.rows[i].copy();
                let row = Conversation {
                    id: old_row.id,
                    name: old_row.name,
                    description: old_row.description,
                    entry_message_id: e,
                };
                self.rows.set(i, row);
                Ok(())
            },
            None => Ok(()),
        }
    }

    /// Adds a conversation; `Duplicate` where one has that id already, and
    /// nothing changes.
    pub fn create(&mut self, id: &str, name: &str, description: Option<&str>, entry: Option<&str>) -> (r: Result<(), ChatError>)
        ensures
            match conv_index(old(self).rows(), id@) {
                Some(_) => (r matches Err(ChatError::Conversation(ConversationError::Duplicate(d))) && d@ == id@)
                    && final(self).rows() == old(self).rows(),
                None => {
                    &&& r is Ok
                    &&& final(self).rows().len() == old(self).rows().len() + 1
                    &&& final(self).rows().drop_last() == old(self).rows()
                    &&& final(self).rows().last().id@ == id@
                    &&& final(self).rows().last().name@ == name@
                    &&& opt_view(final(self).rows().last().description) == opt_str_view(description)
                    &&& opt_view(final(self).rows().last().entry_message_id) == opt_str_view(entry)
                },
            },
    {
        match self.find(id) {
            Some(_) => Err(ChatError::Conversation(ConversationError::Duplicate(owned(id)))),
            None => {
                self.rows.push(Conversation {
                    id: owned(id),
                    name: owned(name),
                    description: opt_owned(description),
                    entry_message_id: opt_owned(entry),
                });
                proof {
                    assert(self.rows@.drop_last() =~= old(self).rows@);
                }
                Ok(())
            },
        }
    }

    /// Removes every conversation with this id.
    pub fn delete(&mut self, id: &str) -> (r: Result<(), ChatError>)
        ensures
            r is Ok,
            final(self).rows() == keep_by(old(self).rows(), conv_key(), seq![id@]),
    {
        let ghost orig = self.rows@;
        let ghost g = seq![id@];
        let mut i: usize = 0;
        let ghost mut j: int = 0;
        while i < self.rows.len()
            invariant
                0 <= j <= orig.len(),
                i <= self.rows@.len(),
                g == seq![id@],
                self.rows@.subrange(0, i as int) == keep_by(orig.take(j), conv_key(), g),
                self.rows@.subrange(i as int, self.rows@.len() as int) == orig.subrange(j, orig.len() as int),
            decreases self.rows@.len() - i,
        {
            proof {
                lemma_tail_shift(self.rows@, i as int, orig, j);
                lemma_keep_step(orig, conv_key(), g, j);
            }
            let ghost before = self.rows@;
            if str_eq(self.rows[i].id.as_str(), id) {
                proof {
                    assert(g.contains(conv_key()(orig[j]))) by {
                        assert(g[0] == id@);
                    }
                }
                self.rows.remove(i);
                proof {
                    assert(self.rows@.subrange(0, i as int) =~= before.subrange(0, i as int));
                    assert(self.rows@.subrange(i as int, self.rows@.len() as int) =~= before.subrange(i + 1, before.len() as int));
                }
            } else {
                proof {
                    assert(!g.contains(conv_key()(orig[j]))) by {
                        if g.contains(conv_key()(orig[j])) {
                            let k = choose|k: int| 0 <= k < g.len() && g[k] == conv_key()(orig[j]);
                            assert(k == 0);
                        }
                    }
                    assert(before.subrange(0, i + 1) =~= before.subrange(0, i as int).push(before[i as int]));
                }
                i = i + 1;
            }
            proof {
                j = j + 1;
            }
        }
        proof {
            assert(orig.subrange(j, orig.len() as int).len() == 0);
            assert(orig.take(j) =~= orig);
            assert(self.rows@.subrange(0, i as int) =~= self.rows@);
        }
        Ok(())
    }

    /// The first conversation whose thread starts from `message_id`.
    fn find_by_entry(&self, message_id: &str) -> (r: Option<usize>)
        ensures
            match r {
                Some(i) => entry_index(self.rows(), message_id@) == Some(i as int) && i < self.rows().len(),
                None => entry_index(self.rows(), message_id@) is None,
            },
    {
        proof {
            lemma_entry_index_bounds(self.rows@, message_id@, 0);
        }
        let mut i: usize = 0;
        while i < self.rows.len()
            invariant
                i <= self.rows@.len(),
                entry_index(self.rows@, message_id@) == entry_index_from(self.rows@, message_id@, i as int),
            decreases self.rows.len() - i,
        {
            let hit = match &self.rows[i].entry_message_id {
                Some(e) => str_eq(e.as_str(), message_id),
                None => false,
            };
            if hit {
                return Some(i);
            }
            i = i + 1;
        }
        None
    }

    /// Renames the conversation `id`; no conversation changes where none
    /// has that id.
    pub fn update_name(&mut self, id: &str, name: &str) -> (r: Result<(), ChatError>)
        ensures
            r is Ok,
            final(self).rows().len() == old(self).rows().len(),
            match conv_index(old(self).rows(), id@) {
                Some(i) => {
                    &&& final(self).rows()[i].name@ == name@
                    &&& final(self).rows()[i].id@ == old(self).rows()[i].id@
                    &&& opt_view(final(self).rows()[i].description) == opt_view(old(self).rows()[i].description)
                    &&& opt_view(final(self).rows()[i].entry_message_id) == opt_view(old(self).rows()[i].entry_message_id)
                    &&& forall|j: int| 0 <= j < old(self).rows().len() && j != i ==> #[trigger] final(self).rows()[j] == old(self).rows()[j]
                },
                None => final(self).rows() == old(self).rows(),
            },
    {
        match self.find(id) {
            Some(i) => {
                let mut row = self.rows[i].copy();
                row.name = owned(name);
                self.rows.set(i, row);
                Ok(())
            },
            None => Ok(()),
        }
    }

    /// Sets the description of the conversation `id`; no conversation
    /// changes where none has that id.
    pub fn update_description(&mut self, id: &str, description: &str) -> (r: Result<(), ChatError>)
        ensures
            r is Ok,
            final(self).rows().len() == old(self).rows().len(),
            match conv_index(old(self).rows(), id@) {
                Some(i) => {
                    &&& opt_view(final(self).rows()[i].description) == Some(description@)
                    &&& final(self).rows()[i].id@ == old(self).rows()[i].id@
                    &&& final(self).rows()[i].name@ == old(self).rows()[i].name@
                    &&& opt_view(final(self).rows()[i].entry_message_id) == opt_view(old(self).rows()[i].entry_message_id)
                    &&& forall|j: int| 0 <= j < old(self).rows().len() && j != i ==> #[trigger] final(self).rows()[j] == old(self).rows()[j]
                },
                None => final(self).rows() == old(self).rows(),
            },
    {
        match self.find(id) {
            Some(i) => {
                let mut row = self.rows[i].copy();
                row.description = Some(owned(description));
                self.rows.set(i, row);
                Ok(())
            },
            None => Ok(()),
        }
    }

    /// All conversations, in the order they were added.
    pub fn list(&self) -> (r: Vec<Conversation>)
        ensures
            r@.len() == self.rows().len(),
            forall|i: int| 0 <= i < r@.len() ==> same_conversation(#[trigger] r@[i], self.rows()[i]),
    {
        let mut out: Vec<Conversation> = Vec::new();
        let mut i: usize = 0;
        while i < self.rows.len()
            invariant
                i <= self.rows@.len(),
                out@.len() == i,
                forall|j: int| 0 <= j < i ==> same_conversation(#[trigger] out@[j], self.rows@[j]),
            decreases self.rows.len() - i,
        {
            out.push(self.rows[i].copy());
            i = i + 1;
        }
        out
    }
}

impl Messages {
    /// The rows, in the order they were added.
    pub closed spec fn rows(&self) -> Seq<Message> {
        self.rows@
    }

    fn find(&self, id: &str) -> (r: Option<usize>)
        ensures
            match r {
                Some(i) => msg_index(self.rows(), id@) == Some(i as int) && i < self.rows().len(),
                None => msg_index(self.rows(), id@) is None,
            },
    {
        let ghost ids = msg_ids(self.rows@);
        let mut i: usize = 0;
        while i < self.rows.len()
            invariant
                i <= self.rows@.len(),
                ids == msg_ids(self.rows@),
                forall|j: int| 0 <= j < i ==> ids[j] != id@,
            decreases self.rows.len() - i,
        {
            if str_eq(self.rows[i].id.as_str(), id) {
                proof {
                    lemma_key_index_skip(ids, id@, i as int);
                }
                return Some(i);
            }
            i = i + 1;
        }
        proof {
            lemma_key_index_skip(ids, id@, i as int);
        }
        None
    }

    /// The message with this id; `MessageNotFound` where there is none.
    pub fn get(&self, id: &str) -> (r: Result<Message, ChatError>)
        ensures
            match msg_index(self.rows(), id@) {
                Some(i) => r matches Ok(m) && same_message(m, self.rows()[i]),
                None => r matches Err(ChatError::MessageNotFound(m)) && m@ == id@,
            },
    {
        match self.find(id) {
            Some(i) => Ok(self.rows[i].copy()),
            None => Err(ChatError::MessageNotFound(owned(id))),
        }
    }

    /// Adds a message; `DuplicateMessage` where one has that id already, and
    /// nothing changes.
    pub fn add(
        &mut self,
        id: &str,
        text: &str,
        reasoning: Option<&str>,
        sender: MessageRole,
        images: Option<Vec<ImageContent>>,
        tool_calls: Option<&str>,
    ) -> (r: Result<(), ChatError>)
        ensures
            match msg_index(old(self).rows(), id@) {
                Some(_) => (r matches Err(ChatError::DuplicateMessage(d)) && d@ == id@)
                    && final(self).rows() == old(self).rows(),
                None => {
                    &&& r is Ok
                    &&& final(self).rows().len() == old(self).rows().len() + 1
                    &&& final(self).rows().drop_last() == old(self).rows()
                    &&& stored_message(
                        final(self).rows().last(),
                        id@,
                        text@,
                        opt_str_view(reasoning),
                        sender,
                        crate::messages::images_view(images),
                        opt_str_view(tool_calls),
                    )
                },
            },
    {
        self.add_from(id, text, reasoning, sender, images, tool_calls, MessageOrigin::plain())
    }

    /// Adds a message with its origin; `DuplicateMessage` where one has
    /// that id already.
    pub fn add_from(
        &mut self,
        id: &str,
        text: &str,
        reasoning: Option<&str>,
        sender: MessageRole,
        images: Option<Vec<ImageContent>>,
        tool_calls: Option<&str>,
        origin: MessageOrigin,
    ) -> (r: Result<(), ChatError>)
        ensures
            match msg_index(old(self).rows(), id@) {
                Some(_) => (r matches Err(ChatError::DuplicateMessage(d)) && d@ == id@)
                    && final(self).rows() == old(self).rows(),
                None => {
                    &&& r is Ok
                    &&& final(self).rows().len() == old(self).rows().len() + 1
                    &&& final(self).rows().drop_last() == old(self).rows()
                    &&& stored_with(
                        final(self).rows().last(),
                        id@,
                        text@,
                        opt_str_view(reasoning),
                        sender,
                        crate::messages::images_view(images),
                        opt_str_view(tool_calls),
                        origin@,
                    )
                },
            },
    {
        match self.find(id) {
            Some(_) => Err(ChatError::DuplicateMessage(owned(id))),
            None => {
                self.rows.push(Message {
                    id: owned(id),
                    text: owned(text),
                    reasoning: opt_owned(reasoning),
                    sender,
                    timestamp: origin.timestamp,
                    tokens: None,
                    embedding: None,
                    images,
                    tool_calls: opt_owned(tool_calls),
                    source: origin.source,
                    pal_id: origin.pal_id,
                    pal_name: origin.pal_name,
                });
                proof {
                    assert(self.rows@.drop_last() =~= old(self).rows@);
                }
                Ok(())
            },
        }
    }

    /// Removes every message whose id is one of `gone`.
    pub fn delete_ids(&mut self, gone: &Vec<String>) -> (r: Result<(), ChatError>)
        ensures
            r is Ok,
            final(self).rows() == keep_by(old(self).rows(), msg_key(), str_views(gone@)),
    {
        let ghost orig = self.rows@;
        let ghost g = str_views(gone@);
        let mut i: usize = 0;
        let ghost mut j: int = 0;
        while i < self.rows.len()
            invariant
                0 <= j <= orig.len(),
                i <= self.rows@.len(),
                g == str_views(gone@),
                self.rows@.subrange(0, i as int) == keep_by(orig.take(j), msg_key(), g),
                self.rows@.subrange(i as int, self.rows@.len() as int) == orig.subrange(j, orig.len() as int),
            decreases self.rows@.len() - i,
        {
            proof {
                lemma_tail_shift(self.rows@, i as int, orig, j);
                lemma_keep_step(orig, msg_key(), g, j);
            }
            let ghost before = self.rows@;
            if contains_id(gone, self.rows[i].id.as_str()) {
                self.rows.remove(i);
                proof {
                    assert(self.rows@.subrange(0, i as int) =~= before.subrange(0, i as int));
                    assert(self.rows@.subrange(i as int, self.rows@.len() as int) =~= before.subrange(i + 1, before.len() as int));
                }
            } else {
                proof {
                    assert(before.subrange(0, i + 1) =~= before.subrange(0, i as int).push(before[i as int]));
                }
                i = i + 1;
            }
            proof {
                j = j + 1;
            }
        }
        proof {
            assert(orig.subrange(j, orig.len() as int).len() == 0);
            assert(orig.take(j) =~= orig);
            assert(self.rows@.subrange(0, i as int) =~= self.rows@);
        }
        Ok(())
    }

    fn replace_at(&mut self, i: usize, m: Message)
        requires
            i < old(self).rows().len(),
        ensures
            final(self).rows() == old(self).rows().update(i as int, m),
    {
        self.rows.set(i, m);
    }

    /// Sets the text of the message `id`; no message changes where none has
    /// that id.
    pub fn update_text(&mut self, id: &str, text: &str) -> (r: Result<(), ChatError>)
        ensures
            r is Ok,
            final(self).rows().len() == old(self).rows().len(),
            match msg_index(old(self).rows(), id@) {
                Some(i) => final(self).rows()[i].text@ == text@
                    && same_message(
                        Message { text: old(self).rows()[i].text, ..final(self).rows()[i] },
                        old(self).rows()[i],
                    )
                    && forall|j: int| 0 <= j < old(self).rows().len() && j != i ==> #[trigger] final(self).rows()[j] == old(self).rows()[j],
                None => final(self).rows() == old(self).rows(),
            },
    {
        match self.find(id) {
            Some(i) => {
                let mut m = self.rows[i].copy();
                m.text = owned(text);
                self.replace_at(i, m);
                Ok(())
            },
            None => Ok(()),
        }
    }

    /// Sets the tool calls of the message `id`; no message changes where
    /// none has that id.
    pub fn update_tool_calls(&mut self, id: &str, tool_calls: &str) -> (r: Result<(), ChatError>)
        ensures
            r is Ok,
            final(self).rows().len() == old(self).rows().len(),
            match msg_index(old(self).rows(), id@) {
                Some(i) => opt_view(final(self).rows()[i].tool_calls) == Some(tool_calls@)
                    && same_message(
                        Message { tool_calls: old(self).rows()[i].tool_calls, ..final(self).rows()[i] },
                        old(self).rows()[i],
                    )
                    && forall|j: int| 0 <= j < old(self).rows().len() && j != i ==> #[trigger] final(self).rows()[j] == old(self).rows()[j],
                None => final(self).rows() == old(self).rows(),
            },
    {
        match self.find(id) {
            Some(i) => {
                let mut m = self.rows[i].copy();
                m.tool_calls = Some(owned(tool_calls));
                self.replace_at(i, m);
                Ok(())
            },
            None => Ok(()),
        }
    }

    /// Sets the reasoning of the message `id`; no message changes where none
    /// has that id.
    pub fn update_reasoning(&mut self, id: &str, reasoning: &str) -> (r: Result<(), ChatError>)
        ensures
            r is Ok,
            final(self).rows().len() == old(self).rows().len(),
            match msg_index(old(self).rows(), id@) {
                Some(i) => opt_view(final(self).rows()[i].reasoning) == Some(reasoning@)
                    && same_message(
                        Message { reasoning: old(self).rows()[i].reasoning, ..final(self).rows()[i] },
                        old(self).rows()[i],
                    )
                    && forall|j: int| 0 <= j < old(self).rows().len() && j != i ==> #[trigger] final(self).rows()[j] == old(self).rows()[j],
                None => final(self).rows() == old(self).rows(),
            },
    {
        match self.find(id) {
            Some(i) => {
                let mut m = self.rows[i].copy();
                m.reasoning = Some(owned(reasoning));
                self.replace_at(i, m);
                Ok(())
            },
            None => Ok(()),
        }
    }
}

impl Threads {
    /// The links, in the order they were added.
    pub closed spec fn links(&self) -> Seq<ThreadLink> {
        self.links@
    }

    fn find(&self, id: &str) -> (r: Option<usize>)
        ensures
            match r {
                Some(i) => key_index_from(link_ids(self.links()), id@, 0) == Some(i as int) && i < self.links().len(),
                None => key_index_from(link_ids(self.links()), id@, 0) is None,
            },
    {
        let ghost ids = link_ids(self.links@);
        let mut i: usize = 0;
        while i < self.links.len()
            invariant
                i <= self.links@.len(),
                ids == link_ids(self.links@),
                forall|j: int| 0 <= j < i ==> ids[j] != id@,
            decreases self.links.len() - i,
        {
            if str_eq(self.links[i].id.as_str(), id) {
                proof {
                    lemma_key_index_skip(ids, id@, i as int);
                }
                return Some(i);
            }
            i = i + 1;
        }
        proof {
            lemma_key_index_skip(ids, id@, i as int);
        }
        None
    }

    /// The message that `id` answers.
    pub fn get_parent(&self, id: &str) -> (r: Result<Option<String>, ChatError>)
        ensures
            r matches Ok(p) && opt_view(p) == parent_of(self.links(), id@),
    {
        match self.find(id) {
            Some(i) => Ok(opt_copy(&self.links[i].parent)),
            None => Ok(None),
        }
    }

    /// The messages that answer `id`, in the order they were linked.
    pub fn get_children(&self, id: &str) -> (r: Result<Vec<String>, ChatError>)
        ensures
            r matches Ok(c) && str_views(c@) == children_of(self.links(), id@),
    {
        let mut out: Vec<String> = Vec::new();
        let mut i: usize = 0;
        while i < self.links.len()
            invariant
                i <= self.links@.len(),
                str_views(out@) == children_upto(self.links@, id@, i as int),
            decreases self.links.len() - i,
        {
            let hit = match &self.links[i].parent {
                Some(p) => str_eq(p.as_str(), id),
                None => false,
            };
            if hit {
                let ghost before = out@;
                out.push(self.links[i].id.clone());
                proof {
                    assert(str_views(out@) =~= str_views(before).push(self.links@[i as int].id@));
                }
            }
            i = i + 1;
        }
        Ok(out)
    }

    /// Removes every link whose id is one of `gone`.
    pub fn delete_ids(&mut self, gone: &Vec<String>) -> (r: Result<(), ChatError>)
        ensures
            r is Ok,
            final(self).links() == keep_by(old(self).links(), link_key(), str_views(gone@)),
    {
        let ghost orig = self.links@;
        let ghost g = str_views(gone@);
        let mut i: usize = 0;
        let ghost mut j: int = 0;
        while i < self.links.len()
            invariant
                0 <= j <= orig.len(),
                i <= self.links@.len(),
                g == str_views(gone@),
                self.links@.subrange(0, i as int) == keep_by(orig.take(j), link_key(), g),
                self.links@.subrange(i as int, self.links@.len() as int) == orig.subrange(j, orig.len() as int),
            decreases self.links@.len() - i,
        {
            proof {
                lemma_tail_shift(self.links@, i as int, orig, j);
                lemma_keep_step(orig, link_key(), g, j);
            }
            let ghost before = self.links@;
            if contains_id(gone, self.links[i].id.as_str()) {
                self.links.remove(i);
                proof {
                    assert(self.links@.subrange(0, i as int) =~= before.subrange(0, i as int));
                    assert(self.links@.subrange(i as int, self.links@.len() as int) =~= before.subrange(i + 1, before.len() as int));
                }
            } else {
                proof {
                    assert(before.subrange(0, i + 1) =~= before.subrange(0, i as int).push(before[i as int]));
                }
                i = i + 1;
            }
            proof {
                j = j + 1;
            }
        }
        proof {
            assert(orig.subrange(j, orig.len() as int).len() == 0);
            assert(orig.take(j) =~= orig);
            assert(self.links@.subrange(0, i as int) =~= self.links@);
        }
        Ok(())
    }

    /// Links each of `children` to `parent` instead.
    pub fn update_parents(&mut self, children: &Vec<String>, parent: &str) -> (r: Result<(), ChatError>)
        ensures
            r is Ok,
            link_views(final(self).links()) == link_views(old(self).links()).map_values(
                |v: (Seq<char>, Option<Seq<char>>)|
                    if str_views(children@).contains(v.0) {
                        (v.0, Some(parent@))
                    } else {
                        v
                    },
            ),
    {
        let ghost orig = link_views(self.links@);
        let ghost g = str_views(children@);
        let mut i: usize = 0;
        while i < self.links.len()
            invariant
                i <= self.links@.len(),
                self.links@.len() == orig.len(),
                g == str_views(children@),
                forall|k: int|
                    0 <= k < orig.len() ==> #[trigger] link_views(self.links@)[k] == if k < i && g.contains(orig[k].0) {
                        (orig[k].0, Some(parent@))
                    } else {
                        orig[k]
                    },
            decreases self.links.len() - i,
        {
            if contains_id(children, self.links[i].id.as_str()) {
                let id = self.links[i].id.clone();
                let ghost before = self.links@;
                proof {
                    assert(link_views(before)[i as int] == orig[i as int]);
                    assert(id@ == orig[i as int].0);
                }
                let p = owned(parent);
                self.links.set(i, ThreadLink { id, parent: Some(p) });
                proof {
                    assert(link_views(self.links@)[i as int] == (orig[i as int].0, Some(parent@)));
                    assert forall|k: int| 0 <= k < orig.len() implies #[trigger] link_views(self.links@)[k] == if k < i + 1
                        && g.contains(orig[k].0) {
                        (orig[k].0, Some(parent@))
                    } else {
                        orig[k]
                    } by {
                        if k != i {
                            assert(link_views(self.links@)[k] == link_views(before)[k]);
                        }
                    }
                }
            }
            i = i + 1;
        }
        proof {
            assert(link_views(self.links@) =~= orig.map_values(
                |v: (Seq<char>, Option<Seq<char>>)|
                    if g.contains(v.0) {
                        (v.0, Some(parent@))
                    } else {
                        v
                    },
            ));
        }
        Ok(())
    }

    /// Links `id` to `parent`.
    pub fn add(&mut self, id: &str, parent: Option<&str>) -> (r: Result<(), ChatError>)
        ensures
            r is Ok,
            final(self).links().len() == old(self).links().len() + 1,
            final(self).links().drop_last() == old(self).links(),
            final(self).links().last().id@ == id@,
            opt_view(final(self).links().last().parent) == match parent {
                Some(p) => Some(p@),
                None => None::<Seq<char>>,
            },
    {
        let p = match parent {
            Some(s) => Some(owned(s)),
            None => None,
        };
        self.links.push(ThreadLink { id: owned(id), parent: p });
        proof {
            assert(self.links@.drop_last() =~= old(self).links@);
        }
        Ok(())
    }
}


/// The ids from `cur` up to `entry`, `cur` first, following at most `fuel`
/// links; none where the links end or run out first.
pub open spec fn up_chain(links: Seq<ThreadLink>, cur: Seq<char>, entry: Seq<char>, fuel: nat) -> Option<Seq<Seq<char>>>
    decreases fuel,
{
    if cur == entry {
        Some(seq![cur])
    } else if fuel == 0 {
        None
    } else {
        match parent_of(links, cur) {
            Some(p) => match up_chain(links, p, entry, (fuel - 1) as nat) {
                Some(rest) => Some(seq![cur] + rest),
                None => None,
            },
            None => None,
        }
    }
}

/// The ids from the thread's first message `entry` down to `leaf`: a walk
/// up the links takes at most as many steps as there are links.
pub open spec fn thread_path(links: Seq<ThreadLink>, leaf: Seq<char>, entry: Seq<char>) -> Option<Seq<Seq<char>>> {
    match up_chain(links, leaf, entry, links.len()) {
        Some(c) => Some(c.reverse()),
        None => None,
    }
}

/// What looking up each id of `ids` gives: the messages in that order, or
/// `MessageNotFound` for the first id that names none.
pub open spec fn fetched(rows: Seq<Message>, ids: Seq<Seq<char>>, r: Result<Vec<Message>, ChatError>) -> bool {
    if forall|i: int| 0 <= i < ids.len() ==> (#[trigger] msg_index(rows, ids[i])) is Some {
        r matches Ok(v) && v@.len() == ids.len() && forall|i: int|
            0 <= i < ids.len() ==> (#[trigger] msg_index(rows, ids[i]) matches Some(j) && same_message(v@[i], rows[j]))
    } else {
        exists|k: int|
            0 <= k < ids.len() && (#[trigger] msg_index(rows, ids[k])) is None && (forall|j: int|
                0 <= j < k ==> (#[trigger] msg_index(rows, ids[j])) is Some) && (r matches Err(
                ChatError::MessageNotFound(m),
            ) && m@ == ids[k])
    }
}

/// The message reached from `cur` by taking the last answer at each step,
/// at most `fuel` steps.
pub open spec fn last_leaf(links: Seq<ThreadLink>, cur: Seq<char>, fuel: nat) -> Seq<char>
    decreases fuel,
{
    if fuel == 0 || children_of(links, cur).len() == 0 {
        cur
    } else {
        last_leaf(links, children_of(links, cur).last(), (fuel - 1) as nat)
    }
}

/// The answers to the messages of `level`, message by message, each in
/// link order.
pub open spec fn next_level(links: Seq<ThreadLink>, level: Seq<Seq<char>>) -> Seq<Seq<char>>
    decreases level.len(),
{
    if level.len() == 0 {
        Seq::empty()
    } else {
        next_level(links, level.drop_last()) + children_of(links, level.last())
    }
}

/// The messages below `level`, level after level, at most `fuel` levels.
pub open spec fn levels_below(links: Seq<ThreadLink>, level: Seq<Seq<char>>, fuel: nat) -> Seq<Seq<char>>
    decreases fuel,
{
    if fuel == 0 || next_level(links, level).len() == 0 {
        Seq::empty()
    } else {
        next_level(links, level) + levels_below(links, next_level(links, level), (fuel - 1) as nat)
    }
}

/// A thread's messages from its first message `entry`, level by level: a
/// thread is no deeper than there are links.
pub open spec fn thread_ids(links: Seq<ThreadLink>, entry: Seq<char>) -> Seq<Seq<char>> {
    seq![entry] + levels_below(links, seq![entry], links.len())
}

/// The order in which a walk that keeps a stack, starting from `stack`,
/// takes messages: the top first, its answers pushed in link order; at
/// most `fuel` messages.
pub open spec fn walk_order(links: Seq<ThreadLink>, stack: Seq<Seq<char>>, fuel: nat) -> Seq<Seq<char>>
    decreases fuel,
{
    if fuel == 0 || stack.len() == 0 {
        Seq::empty()
    } else {
        seq![stack.last()] + walk_order(links, stack.drop_last() + children_of(links, stack.last()), (fuel - 1) as nat)
    }
}

/// The text of the error for a leaf outside the conversation's thread.
pub open spec fn not_in_conversation(leaf: Seq<char>, conversation_id: Seq<char>) -> Seq<char> {
    "message "@ + leaf + " is not in conversation "@ + conversation_id
}

/// The ids of the messages a conversation's deletion removes: its
/// thread's, where every one of them is found; none where the conversation
/// is missing or a message of its thread is.
pub open spec fn involved_ids(convs: Seq<Conversation>, msgs: Seq<Message>, links: Seq<ThreadLink>, conversation_id: Seq<char>) -> Option<Seq<Seq<char>>> {
    match conv_index(convs, conversation_id) {
        None => None,
        Some(ci) => match opt_view(convs[ci].entry_message_id) {
            None => Some(Seq::empty()),
            Some(e) => if forall|i: int| 0 <= i < thread_ids(links, e).len() ==> (#[trigger] msg_index(msgs, thread_ids(links, e)[i])) is Some {
                Some(thread_ids(links, e))
            } else {
                None
            },
        },
    }
}

/// `new` is `old` with the first conversation whose id is `id` starting
/// its thread from `entry` instead; `old` itself where none has that id.
pub open spec fn entry_set(old: Seq<Conversation>, new: Seq<Conversation>, id: Seq<char>, entry: Option<Seq<char>>) -> bool {
    match conv_index(old, id) {
        Some(i) => {
            &&& new.len() == old.len()
            &&& new[i].id@ == old[i].id@
            &&& new[i].name@ == old[i].name@
            &&& opt_view(new[i].description) == opt_view(old[i].description)
            &&& opt_view(new[i].entry_message_id) == entry
            &&& forall|j: int| 0 <= j < old.len() && j != i ==> #[trigger] new[j] == old[j]
        },
        None => new == old,
    }
}

/// A link model's key: the id of the message it links.
pub open spec fn view_key() -> spec_fn((Seq<char>, Option<Seq<char>>)) -> Seq<char> {
    |v: (Seq<char>, Option<Seq<char>>)| v.0
}

/// The link models with each of `children` linked to `parent` instead.
pub open spec fn relinked(
    lv: Seq<(Seq<char>, Option<Seq<char>>)>,
    children: Seq<Seq<char>>,
    parent: Seq<char>,
) -> Seq<(Seq<char>, Option<Seq<char>>)> {
    lv.map_values(
        |v: (Seq<char>, Option<Seq<char>>)|
            if children.contains(v.0) {
                (v.0, Some(parent))
            } else {
                v
            },
    )
}

/// The text of the refusal to delete a thread's first message that has
/// several answers.
pub open spec fn root_with_children() -> Seq<char> {
    "Cannot delete root message with children"@
}

pub proof fn lemma_keep_views(links: Seq<ThreadLink>, gone: Seq<Seq<char>>)
    ensures
        link_views(keep_by(links, link_key(), gone)) == keep_by(link_views(links), view_key(), gone),
    decreases links.len(),
{
    if links.len() > 0 {
        lemma_keep_views(links.drop_last(), gone);
        assert(link_views(links).drop_last() =~= link_views(links.drop_last()));
        let k = keep_by(links.drop_last(), link_key(), gone);
        assert(link_views(k.push(links.last())) =~= link_views(k).push(link_views(links).last()));
    }
}

/// One message of a thread with its parent and its answers.
#[derive(Debug)]
pub struct ThreadTreeItem {
    pub key: String,
    pub parent: Option<String>,
    pub children: Vec<String>,
}

/// What asking for the path to `leaf` in a conversation gives: `NotFound`
/// without the conversation; nothing where its thread has no message;
/// `InvalidOperation` where the leaf does not lead up to the thread's first
/// message; else the messages of the path, or `MessageNotFound` for the
/// first of them missing.
pub open spec fn path_outcome(chat: Chat, conversation_id: Seq<char>, leaf: Seq<char>, r: Result<Vec<Message>, ChatError>) -> bool {
    match conv_index(chat.convs(), conversation_id) {
        None => r matches Err(ChatError::Conversation(ConversationError::NotFound)),
        Some(ci) => match opt_view(chat.convs()[ci].entry_message_id) {
            None => r matches Ok(v) && v@.len() == 0,
            Some(e) => match thread_path(chat.links(), leaf, e) {
                None => r matches Err(ChatError::Conversation(ConversationError::InvalidOperation(m)))
                    && m@ == not_in_conversation(leaf, conversation_id),
                Some(ids) => fetched(chat.msgs(), ids, r),
            },
        },
    }
}

/// The store: conversations, messages, and thread links.
#[derive(Debug)]
pub struct Chat {
    pub thread_manager: Threads,
    pub conversation_manager: Conversations,
    pub messages_manager: Messages,
}

impl Chat {
    /// The conversations.
    pub open spec fn convs(&self) -> Seq<Conversation> {
        self.conversation_manager.rows()
    }

    /// The messages.
    pub open spec fn msgs(&self) -> Seq<Message> {
        self.messages_manager.rows()
    }

    /// The thread links.
    pub open spec fn links(&self) -> Seq<ThreadLink> {
        self.thread_manager.links()
    }

    /// The store over the tables of `pool`.
    pub fn new_with_pool(pool: DbPool) -> (r: Result<Chat, ChatError>)
        ensures
            r matches Ok(c) && c.convs() == pool.conv_rows() && c.msgs() == pool.msg_rows()
                && c.links() == pool.link_rows(),
            pool.is_empty() ==> (r matches Ok(c) && c.convs().len() == 0 && c.msgs().len() == 0 && c.links().len() == 0),
    {
        Ok(Chat {
            thread_manager: pool.threads,
            conversation_manager: pool.conversations,
            messages_manager: pool.messages,
        })
    }

    /// Creates a conversation with its initial system message: an empty
    /// message from the system, under a new id (see
    /// `fresh_system_message_id`), that starts the conversation's thread.
    /// `Duplicate` where a conversation has that id already; then nothing
    /// changes.
    pub fn create_conversation(&mut self, conversation_id: &str, name: &str, description: &str) -> (r: Result<(), ChatError>)
        ensures
            match conv_index(old(self).convs(), conversation_id@) {
                Some(_) => (r matches Err(ChatError::Conversation(ConversationError::Duplicate(d))) && d@ == conversation_id@)
                    && final(self).convs() == old(self).convs() && final(self).msgs() == old(self).msgs()
                    && final(self).links() == old(self).links(),
                None => {
                    let sys = fresh_system_message_id(old(self).msgs(), conversation_id@);
                    &&& r is Ok
                    &&& msg_index(old(self).msgs(), sys) is None
                    &&& final(self).convs().len() == old(self).convs().len() + 1
                    &&& final(self).convs().drop_last() == old(self).convs()
                    &&& final(self).convs().last().id@ == conversation_id@
                    &&& final(self).convs().last().name@ == name@
                    &&& opt_view(final(self).convs().last().description) == Some(description@)
                    &&& opt_view(final(self).convs().last().entry_message_id) == Some(sys)
                    &&& final(self).msgs().len() == old(self).msgs().len() + 1
                    &&& final(self).msgs().drop_last() == old(self).msgs()
                    &&& stored_message(final(self).msgs().last(), sys, Seq::empty(), None, MessageRole::System, None, None)
                    &&& final(self).links().len() == old(self).links().len() + 1
                    &&& final(self).links().drop_last() == old(self).links()
                    &&& final(self).links().last().id@ == sys
                    &&& final(self).links().last().parent is None
                },
            },
    {
        let mut sys = owned("system-");
        push_str(&mut sys, conversation_id);
        proof {
            reveal_strlit("system-");
        }
        if self.conversation_manager.find(conversation_id).is_some() {
            return self.conversation_manager.create(conversation_id, name, Some(description), Some(sys.as_str()));
        }
        let ghost base = sys@;
        if self.messages_manager.get(sys.as_str()).is_ok() {
            let rows = &self.messages_manager.rows;
            let mut longest: usize = 0;
            let mut i: usize = 0;
            while i < rows.len()
                invariant
                    i <= rows@.len(),
                    longest == max_id_len(rows@.take(i as int)),
                decreases rows.len() - i,
            {
                proof {
                    assert(rows@.take(i + 1).drop_last() =~= rows@.take(i as int));
                }
                let n = rows[i].id.as_str().unicode_len();
                if n > longest {
                    longest = n;
                }
                i = i + 1;
            }
            proof {
                assert(rows@.take(i as int) =~= rows@);
                lemma_max_id_len(rows@);
                lemma_key_index_bounds(msg_ids(rows@), base, 0);
                let k = msg_index(rows@, base).unwrap();
                assert(rows@[k].id@ == base);
            }
            let ghost pad_start = sys@.len();
            while sys.as_str().unicode_len() <= longest
                invariant
                    sys@.len() <= longest + 1,
                    sys@.len() >= pad_start,
                    pad_start == base.len(),
                    sys@.subrange(0, pad_start as int) == base,
                    forall|j: int| pad_start <= j < sys@.len() ==> sys@[j] == '-',
                decreases longest + 1 - sys@.len(),
            {
                crate::text::push_char(&mut sys, '-');
            }
            proof {
                let pad = Seq::new((max_id_len(self.messages_manager.rows@) + 1 - base.len()) as nat, |i: int| '-');
                assert(sys@ =~= base + pad);
                lemma_max_id_len(self.messages_manager.rows@);
                lemma_key_index_bounds(msg_ids(self.messages_manager.rows@), sys@, 0);
            }
        } else {
            proof {
                assert(sys@ == system_message_id(conversation_id@));
            }
        }
        proof {
            reveal_strlit("");
            assert(""@ =~= Seq::<char>::empty());
        }
        let _ = self.conversation_manager.create(conversation_id, name, Some(description), Some(sys.as_str()));
        let _ = self.messages_manager.add(sys.as_str(), "", None, MessageRole::System, None, None);
        let _ = self.thread_manager.add(sys.as_str(), None);
        Ok(())
    }

    /// Adds a message to a conversation, linked to `parent_message_id`; a
    /// message without a parent becomes the first message of the
    /// conversation's thread. The sender must name a role, and the id be
    /// new; otherwise nothing changes. Where a first message names no
    /// conversation, the message and its link stay and `NotFound` comes
    /// back.
    pub fn add_message(
        &mut self,
        conversation_id: &str,
        message_id: &str,
        text: &str,
        reasoning: Option<&str>,
        sender: &str,
        parent_message_id: Option<&str>,
        images: Option<Vec<ImageContent>>,
        tool_calls: Option<&str>,
    ) -> (r: Result<(), ChatError>)
        ensures
            match role_named(sender@) {
                None => (r matches Err(ChatError::UnknownSender(x)) && x@ == sender@) && *final(self) == *old(self),
                Some(role) => match msg_index(old(self).msgs(), message_id@) {
                    Some(_) => (r matches Err(ChatError::DuplicateMessage(d)) && d@ == message_id@)
                        && final(self).msgs() == old(self).msgs() && final(self).links() == old(self).links()
                        && final(self).convs() == old(self).convs(),
                    None => {
                        &&& final(self).msgs().len() == old(self).msgs().len() + 1
                        &&& final(self).msgs().drop_last() == old(self).msgs()
                        &&& stored_message(
                            final(self).msgs().last(),
                            message_id@,
                            text@,
                            opt_str_view(reasoning),
                            role,
                            crate::messages::images_view(images),
                            opt_str_view(tool_calls),
                        )
                        &&& final(self).links().len() == old(self).links().len() + 1
                        &&& final(self).links().drop_last() == old(self).links()
                        &&& final(self).links().last().id@ == message_id@
                        &&& opt_view(final(self).links().last().parent) == opt_str_view(parent_message_id)
                        &&& match parent_message_id {
                            Some(_) => r is Ok && final(self).convs() == old(self).convs(),
                            None => match conv_index(old(self).convs(), conversation_id@) {
                                None => (r matches Err(ChatError::Conversation(ConversationError::NotFound)))
                                    && final(self).convs() == old(self).convs(),
                                Some(i) => {
                                    &&& r is Ok
                                    &&& final(self).convs().len() == old(self).convs().len()
                                    &&& final(self).convs()[i].id@ == old(self).convs()[i].id@
                                    &&& final(self).convs()[i].name@ == old(self).convs()[i].name@
                                    &&& opt_view(final(self).convs()[i].description) == opt_view(old(self).convs()[i].description)
                                    &&& opt_view(final(self).convs()[i].entry_message_id) == Some(message_id@)
                                    &&& forall|j: int|
                                        0 <= j < old(self).convs().len() && j != i ==> #[trigger] final(self).convs()[j] == old(self).convs()[j]
                                },
                            },
                        }
                    },
                },
            },
    {
        self.add_message_from(
            conversation_id,
            message_id,
            text,
            reasoning,
            sender,
            parent_message_id,
            images,
            tool_calls,
            MessageOrigin::plain(),
        )
    }

    /// Adds a message as `add_message` does, with its origin: how it came
    /// about, the character that wrote it, and its time.
    pub fn add_message_from(
        &mut self,
        conversation_id: &str,
        message_id: &str,
        text: &str,
        reasoning: Option<&str>,
        sender: &str,
        parent_message_id: Option<&str>,
        images: Option<Vec<ImageContent>>,
        tool_calls: Option<&str>,
        origin: MessageOrigin,
    ) -> (r: Result<(), ChatError>)
        ensures
            match role_named(sender@) {
                None => (r matches Err(ChatError::UnknownSender(x)) && x@ == sender@) && *final(self) == *old(self),
                Some(role) => match msg_index(old(self).msgs(), message_id@) {
                    Some(_) => (r matches Err(ChatError::DuplicateMessage(d)) && d@ == message_id@)
                        && final(self).msgs() == old(self).msgs() && final(self).links() == old(self).links()
                        && final(self).convs() == old(self).convs(),
                    None => {
                        &&& final(self).msgs().len() == old(self).msgs().len() + 1
                        &&& final(self).msgs().drop_last() == old(self).msgs()
                        &&& stored_with(
                            final(self).msgs().last(),
                            message_id@,
                            text@,
                            opt_str_view(reasoning),
                            role,
                            crate::messages::images_view(images),
                            opt_str_view(tool_calls),
                            origin@,
                        )
                        &&& final(self).links().len() == old(self).links().len() + 1
                        &&& final(self).links().drop_last() == old(self).links()
                        &&& final(self).links().last().id@ == message_id@
                        &&& opt_view(final(self).links().last().parent) == opt_str_view(parent_message_id)
                        &&& match parent_message_id {
                            Some(_) => r is Ok && final(self).convs() == old(self).convs(),
                            None => match conv_index(old(self).convs(), conversation_id@) {
                                None => (r matches Err(ChatError::Conversation(ConversationError::NotFound)))
                                    && final(self).convs() == old(self).convs(),
                                Some(i) => {
                                    &&& r is Ok
                                    &&& final(self).convs().len() == old(self).convs().len()
                                    &&& final(self).convs()[i].id@ == old(self).convs()[i].id@
                                    &&& final(self).convs()[i].name@ == old(self).convs()[i].name@
                                    &&& opt_view(final(self).convs()[i].description) == opt_view(old(self).convs()[i].description)
                                    &&& opt_view(final(self).convs()[i].entry_message_id) == Some(message_id@)
                                    &&& forall|j: int|
                                        0 <= j < old(self).convs().len() && j != i ==> #[trigger] final(self).convs()[j] == old(self).convs()[j]
                                },
                            },
                        }
                    },
                },
            },
    {
        let role = match MessageRole::from_name(sender) {
            Some(role) => role,
            None => return Err(ChatError::UnknownSender(owned(sender))),
        };
        match self.messages_manager.add_from(message_id, text, reasoning, role, images, tool_calls, origin) {
            Ok(()) => {},
            Err(e) => return Err(e),
        }
        let _ = self.thread_manager.add(message_id, parent_message_id);
        if parent_message_id.is_none() {
            match self.conversation_manager.find(conversation_id) {
                None => return Err(ChatError::Conversation(ConversationError::NotFound)),
                Some(_) => {
                    let _ = self.conversation_manager.update_entry_message_id(conversation_id, Some(message_id));
                },
            }
        }
        Ok(())
    }

    /// The first message of a conversation's thread; `NotFound` where no
    /// conversation has that id.
    fn entry_of(&self, conversation_id: &str) -> (r: Result<Option<String>, ChatError>)
        ensures
            match conv_index(self.convs(), conversation_id@) {
                None => r matches Err(ChatError::Conversation(ConversationError::NotFound)),
                Some(i) => r matches Ok(e) && opt_view(e) == opt_view(self.convs()[i].entry_message_id),
            },
    {
        match self.conversation_manager.find(conversation_id) {
            None => Err(ChatError::Conversation(ConversationError::NotFound)),
            Some(i) => Ok(opt_copy(&self.conversation_manager.rows[i].entry_message_id)),
        }
    }

    /// Looks up each id in turn.
    fn fetch_all(&self, ids: &Vec<String>) -> (r: Result<Vec<Message>, ChatError>)
        ensures
            fetched(self.msgs(), str_views(ids@), r),
    {
        let ghost vs = str_views(ids@);
        let mut out: Vec<Message> = Vec::new();
        let mut i: usize = 0;
        while i < ids.len()
            invariant
                i <= ids@.len(),
                vs == str_views(ids@),
                out@.len() == i,
                forall|k: int| 0 <= k < i ==> (#[trigger] msg_index(self.msgs(), vs[k]) matches Some(j) && same_message(out@[k], self.msgs()[j])),
            decreases ids.len() - i,
        {
            match self.messages_manager.find(ids[i].as_str()) {
                Some(j) => {
                    out.push(self.messages_manager.rows[j].copy());
                },
                None => {
                    let r = Err(ChatError::MessageNotFound(ids[i].clone()));
                    proof {
                        assert(msg_index(self.msgs(), vs[i as int]) is None);
                        assert forall|j: int| 0 <= j < i implies (#[trigger] msg_index(self.msgs(), vs[j])) is Some by {
                            assert(msg_index(self.msgs(), vs[j]) matches Some(x) && same_message(out@[j], self.msgs()[x]));
                        }
                    }
                    return r;
                },
            }
            i = i + 1;
        }
        Ok(out)
    }

    /// The messages from the first message of the conversation's thread
    /// down to `leaf_message_id`, each answering the one before. Empty where
    /// the thread has no message; `InvalidOperation` where the leaf does not
    /// lead up to the thread's first message; `NotFound` where no
    /// conversation has that id.
    pub fn get_message_path_to(&mut self, conversation_id: &str, leaf_message_id: &str) -> (r: Result<Vec<Message>, ChatError>)
        ensures
            *final(self) == *old(self),
            path_outcome(*old(self), conversation_id@, leaf_message_id@, r),
    {
        let entry = match self.entry_of(conversation_id) {
            Err(e) => return Err(e),
            Ok(None) => return Ok(Vec::new()),
            Ok(Some(e)) => e,
        };
        let ghost links = self.links();
        let ghost whole = up_chain(links, leaf_message_id@, entry@, links.len());
        let mut ids: Vec<String> = Vec::new();
        let mut cur: String = owned(leaf_message_id);
        let mut fuel: usize = self.thread_manager.links.len();
        let mut found = false;
        loop
            invariant_except_break
                fuel <= links.len(),
                !found,
                links == self.links(),
                whole == match up_chain(links, cur@, entry@, fuel as nat) {
                    Some(rest) => Some(str_views(ids@) + rest),
                    None => None::<Seq<Seq<char>>>,
                },
            ensures
                links == self.links(),
                found ==> whole == Some(str_views(ids@)),
                !found ==> whole is None,
            decreases fuel,
        {
            if str_eq(cur.as_str(), entry.as_str()) {
                let ghost before = ids@;
                ids.push(cur);
                proof {
                    assert(str_views(ids@) =~= str_views(before) + seq![entry@]);
                }
                found = true;
                break;
            }
            if fuel == 0 {
                break;
            }
            let parent = match self.thread_manager.get_parent(cur.as_str()) {
                Ok(p) => p,
                Err(_) => None,
            };
            match parent {
                Some(p) => {
                    let ghost before = ids@;
                    let ghost c = cur@;
                    ids.push(cur);
                    cur = p;
                    fuel = fuel - 1;
                    proof {
                        assert(str_views(ids@) =~= str_views(before).push(c));
                        match up_chain(links, cur@, entry@, fuel as nat) {
                            Some(rest) => {
                                assert(str_views(before) + (seq![c] + rest) =~= str_views(ids@) + rest);
                            },
                            None => {},
                        }
                    }
                },
                None => {
                    break;
                },
            }
        }
        if !found {
            let mut m = owned("message ");
            push_str(&mut m, leaf_message_id);
            push_str(&mut m, " is not in conversation ");
            push_str(&mut m, conversation_id);
            return Err(ChatError::Conversation(ConversationError::InvalidOperation(m)));
        }
        let mut rev: Vec<String> = Vec::new();
        let mut k: usize = ids.len();
        while k > 0
            invariant
                k <= ids@.len(),
                str_views(rev@) == str_views(ids@).subrange(k as int, ids@.len() as int).reverse(),
            decreases k,
        {
            k = k - 1;
            let ghost before = rev@;
            rev.push(ids[k].clone());
            proof {
                assert(str_views(rev@) =~= str_views(before).push(ids@[k as int]@));
                assert(str_views(ids@).subrange(k as int, ids@.len() as int).reverse() =~= str_views(ids@).subrange(
                    k + 1,
                    ids@.len() as int,
                ).reverse().push(ids@[k as int]@));
            }
        }
        proof {
            assert(str_views(ids@).subrange(0, ids@.len() as int) =~= str_views(ids@));
        }
        self.fetch_all(&rev)
    }

    /// The message reached from the first message of the conversation's
    /// thread by taking the last answer at each step; none where the thread
    /// has no message, `NotFound` where no conversation has that id.
    pub fn get_default_leaf(&mut self, conversation_id: &str) -> (r: Result<Option<String>, ChatError>)
        ensures
            *final(self) == *old(self),
            match conv_index(old(self).convs(), conversation_id@) {
                None => r matches Err(ChatError::Conversation(ConversationError::NotFound)),
                Some(ci) => match opt_view(old(self).convs()[ci].entry_message_id) {
                    None => r matches Ok(None),
                    Some(e) => r matches Ok(Some(l)) && l@ == last_leaf(old(self).links(), e, old(self).links().len()),
                },
            },
    {
        let mut cur = match self.entry_of(conversation_id) {
            Err(e) => return Err(e),
            Ok(None) => return Ok(None),
            Ok(Some(e)) => e,
        };
        let ghost links = self.links();
        let ghost e0 = cur@;
        let ghost target = last_leaf(links, cur@, links.len());
        let mut fuel: usize = self.thread_manager.links.len();
        loop
            invariant
                links == self.links(),
                *self == *old(self),
                conv_index(self.convs(), conversation_id@) matches Some(ci) && opt_view(self.convs()[ci].entry_message_id)
                    == Some(e0),
                target == last_leaf(links, e0, links.len()),
                target == last_leaf(links, cur@, fuel as nat),
            decreases fuel,
        {
            if fuel == 0 {
                return Ok(Some(cur));
            }
            let children = match self.thread_manager.get_children(cur.as_str()) {
                Ok(c) => c,
                Err(_) => Vec::new(),
            };
            if children.len() == 0 {
                return Ok(Some(cur));
            }
            let last = children.len() - 1;
            proof {
                assert(str_views(children@)[last as int] == children@[last as int]@);
            }
            cur = children[last].clone();
            fuel = fuel - 1;
        }
    }

    /// The answers to each message of `level`, message by message.
    fn next_level_exec(&self, level: &Vec<String>) -> (r: Vec<String>)
        ensures
            str_views(r@) == next_level(self.links(), str_views(level@)),
    {
        let mut next: Vec<String> = Vec::new();
        let mut i: usize = 0;
        while i < level.len()
            invariant
                i <= level@.len(),
                str_views(next@) == next_level(self.links(), str_views(level@).take(i as int)),
            decreases level.len() - i,
        {
            let children = match self.thread_manager.get_children(level[i].as_str()) {
                Ok(c) => c,
                Err(_) => Vec::new(),
            };
            let ghost before = next@;
            let mut k: usize = 0;
            while k < children.len()
                invariant
                    k <= children@.len(),
                    next@.len() == before.len() + k,
                    str_views(next@) == str_views(before) + str_views(children@).take(k as int),
                decreases children.len() - k,
            {
                let ghost b = next@;
                next.push(children[k].clone());
                proof {
                    assert(str_views(next@) =~= str_views(b).push(children@[k as int]@));
                    assert(str_views(children@).take(k + 1) =~= str_views(children@).take(k as int).push(children@[k as int]@));
                }
                k = k + 1;
            }
            proof {
                assert(str_views(children@).take(k as int) =~= str_views(children@));
                let lv = str_views(level@).take(i + 1);
                assert(lv.drop_last() =~= str_views(level@).take(i as int));
                assert(lv.last() == level@[i as int]@);
            }
            i = i + 1;
        }
        proof {
            assert(str_views(level@).take(level@.len() as int) =~= str_views(level@));
        }
        next
    }

    /// The ids of the thread from `entry`, level by level.
    fn thread_ids_exec(&self, entry: &String) -> (r: Vec<String>)
        ensures
            str_views(r@) == thread_ids(self.links(), entry@),
    {
        let mut ids: Vec<String> = Vec::new();
        ids.push(entry.clone());
        let mut level: Vec<String> = Vec::new();
        level.push(entry.clone());
        proof {
            assert(str_views(ids@) =~= seq![entry@]);
            assert(str_views(level@) =~= seq![entry@]);
        }
        self.descend_exec(ids, level)
    }

    /// `ids` followed by the messages below `level`, level by level.
    fn descend_exec(&self, ids0: Vec<String>, level0: Vec<String>) -> (r: Vec<String>)
        ensures
            str_views(r@) == str_views(ids0@) + levels_below(self.links(), str_views(level0@), self.links().len()),
    {
        let ghost links = self.links();
        let ghost target = str_views(ids0@) + levels_below(links, str_views(level0@), links.len());
        let mut ids = ids0;
        let mut level = level0;
        let mut fuel: usize = self.thread_manager.links.len();
        loop
            invariant
                links == self.links(),
                target == str_views(ids0@) + levels_below(links, str_views(level0@), links.len()),
                target == str_views(ids@) + levels_below(links, str_views(level@), fuel as nat),
            decreases fuel,
        {
            if fuel == 0 {
                proof {
                    assert(str_views(ids@) + Seq::<Seq<char>>::empty() =~= str_views(ids@));
                }
                return ids;
            }
            let next = self.next_level_exec(&level);
            if next.len() == 0 {
                proof {
                    assert(str_views(ids@) + Seq::<Seq<char>>::empty() =~= str_views(ids@));
                }
                return ids;
            }
            let ghost before = ids@;
            let mut k: usize = 0;
            while k < next.len()
                invariant
                    k <= next@.len(),
                    str_views(ids@) == str_views(before) + str_views(next@).take(k as int),
                decreases next.len() - k,
            {
                let ghost b = ids@;
                ids.push(next[k].clone());
                proof {
                    assert(str_views(ids@) =~= str_views(b).push(next@[k as int]@));
                    assert(str_views(next@).take(k + 1) =~= str_views(next@).take(k as int).push(next@[k as int]@));
                }
                k = k + 1;
            }
            proof {
                assert(str_views(next@).take(k as int) =~= str_views(next@));
                let nl = next_level(links, str_views(level@));
                assert(str_views(before) + (nl + levels_below(links, nl, (fuel - 1) as nat)) =~= (str_views(before) + nl)
                    + levels_below(links, nl, (fuel - 1) as nat));
            }
            level = next;
            fuel = fuel - 1;
        }
    }

    /// Every message of the conversation's thread: its first message, then
    /// the answers to it, then theirs, level by level. Empty where the
    /// thread has no message; `NotFound` where no conversation has that id.
    pub fn get_all_message_involved(&mut self, conversation_id: &str) -> (r: Result<Vec<Message>, ChatError>)
        ensures
            *final(self) == *old(self),
            match conv_index(old(self).convs(), conversation_id@) {
                None => r matches Err(ChatError::Conversation(ConversationError::NotFound)),
                Some(ci) => match opt_view(old(self).convs()[ci].entry_message_id) {
                    None => r matches Ok(v) && v@.len() == 0,
                    Some(e) => fetched(old(self).msgs(), thread_ids(old(self).links(), e), r),
                },
            },
    {
        let entry = match self.entry_of(conversation_id) {
            Err(e) => return Err(e),
            Ok(None) => return Ok(Vec::new()),
            Ok(Some(e)) => e,
        };
        let ids = self.thread_ids_exec(&entry);
        self.fetch_all(&ids)
    }

    /// The conversation's thread as a walk with a stack takes it from its
    /// first message: each message with its parent and its answers. Empty
    /// where the thread has no message; `NotFound` where no conversation
    /// has that id.
    pub fn get_thread_tree(&mut self, conversation_id: &str) -> (r: Result<Vec<ThreadTreeItem>, ChatError>)
        ensures
            *final(self) == *old(self),
            match conv_index(old(self).convs(), conversation_id@) {
                None => r matches Err(ChatError::Conversation(ConversationError::NotFound)),
                Some(ci) => match opt_view(old(self).convs()[ci].entry_message_id) {
                    None => r matches Ok(v) && v@.len() == 0,
                    Some(e) => r matches Ok(v) && {
                        let order = walk_order(old(self).links(), seq![e], (old(self).links().len() + 1) as nat);
                        &&& v@.len() == order.len()
                        &&& forall|i: int|
                            0 <= i < v@.len() ==> {
                                &&& (#[trigger] v@[i]).key@ == order[i]
                                &&& opt_view(v@[i].parent) == parent_of(old(self).links(), order[i])
                                &&& str_views(v@[i].children@) == children_of(old(self).links(), order[i])
                            }
                    },
                },
            },
    {
        let entry = match self.entry_of(conversation_id) {
            Err(e) => return Err(e),
            Ok(None) => return Ok(Vec::new()),
            Ok(Some(e)) => e,
        };
        let ghost links = self.links();
        let ghost order = walk_order(links, seq![entry@], (links.len() + 1) as nat);
        let mut result: Vec<ThreadTreeItem> = Vec::new();
        let mut stack: Vec<String> = Vec::new();
        stack.push(entry);
        let mut budget: usize = self.thread_manager.links.len();
        proof {
            assert(str_views(stack@) =~= seq![entry@]);
        }
        loop
            invariant
                links == self.links(),
                *self == *old(self),
                conv_index(self.convs(), conversation_id@) matches Some(ci) && opt_view(self.convs()[ci].entry_message_id)
                    == Some(entry@),
                order == walk_order(links, seq![entry@], (links.len() + 1) as nat),
                result@.len() <= order.len(),
                forall|i: int|
                    0 <= i < result@.len() ==> {
                        &&& (#[trigger] result@[i]).key@ == order[i]
                        &&& opt_view(result@[i].parent) == parent_of(links, order[i])
                        &&& str_views(result@[i].children@) == children_of(links, order[i])
                    },
                order.subrange(result@.len() as int, order.len() as int) == walk_order(links, str_views(stack@), (budget + 1) as nat),
            decreases budget + 1, stack@.len(),
        {
            if stack.len() == 0 {
                proof {
                    assert(order.subrange(result@.len() as int, order.len() as int).len() == 0);
                }
                return Ok(result);
            }
            let ghost sv = str_views(stack@);
            let message_id = match stack.pop() {
                Some(m) => m,
                None => String::new(),
            };
            proof {
                assert(message_id@ == sv.last());
                assert(str_views(stack@) =~= sv.drop_last());
            }
            let children = match self.thread_manager.get_children(message_id.as_str()) {
                Ok(c) => c,
                Err(_) => Vec::new(),
            };
            let parent = match self.thread_manager.get_parent(message_id.as_str()) {
                Ok(p) => p,
                Err(_) => None,
            };
            let ghost n = result@.len();
            let mut k: usize = 0;
            let mut kids: Vec<String> = Vec::new();
            while k < children.len()
                invariant
                    k <= children@.len(),
                    str_views(kids@) == str_views(children@).take(k as int),
                decreases children.len() - k,
            {
                let ghost b = kids@;
                kids.push(children[k].clone());
                proof {
                    assert(str_views(kids@) =~= str_views(b).push(children@[k as int]@));
                    assert(str_views(children@).take(k + 1) =~= str_views(children@).take(k as int).push(children@[k as int]@));
                }
                k = k + 1;
            }
            proof {
                assert(str_views(children@).take(k as int) =~= str_views(children@));
            }
            result.push(ThreadTreeItem { key: message_id, parent, children: kids });
            let ghost sb = stack@;
            let mut c: usize = 0;
            while c < children.len()
                invariant
                    c <= children@.len(),
                    str_views(stack@) == str_views(sb) + str_views(children@).take(c as int),
                decreases children.len() - c,
            {
                let ghost b = stack@;
                stack.push(children[c].clone());
                proof {
                    assert(str_views(stack@) =~= str_views(b).push(children@[c as int]@));
                    assert(str_views(children@).take(c + 1) =~= str_views(children@).take(c as int).push(children@[c as int]@));
                }
                c = c + 1;
            }
            proof {
                assert(str_views(children@).take(c as int) =~= str_views(children@));
                let rest = walk_order(links, sv.drop_last() + children_of(links, sv.last()), budget as nat);
                let sub = order.subrange(n as int, order.len() as int);
                assert(sub == seq![sv.last()] + rest);
                assert(sub[0] == sv.last());
                assert(sub[0] == order[n as int]);
                assert(order.subrange(n + 1 as int, order.len() as int) =~= sub.subrange(1, sub.len() as int));
                assert(sub.subrange(1, sub.len() as int) =~= rest);
            }
            if budget == 0 {
                proof {
                    assert(order.subrange((n + 1) as int, order.len() as int).len() == 0);
                }
                return Ok(result);
            }
            budget = budget - 1;
        }
    }

    /// Deletes a conversation and, where its whole thread is found, every
    /// message of the thread with its link; where the conversation or a
    /// message of its thread is missing, only conversation rows go.
    pub fn delete_conversation(&mut self, conversation_id: &str) -> (r: Result<(), ChatError>)
        ensures
            r is Ok,
            final(self).convs() == keep_by(old(self).convs(), conv_key(), seq![conversation_id@]),
            match involved_ids(old(self).convs(), old(self).msgs(), old(self).links(), conversation_id@) {
                Some(ids) => final(self).msgs() == keep_by(old(self).msgs(), msg_key(), ids) && final(self).links()
                    == keep_by(old(self).links(), link_key(), ids),
                None => final(self).msgs() == old(self).msgs() && final(self).links() == old(self).links(),
            },
    {
        let ghost m0 = self.msgs();
        let ghost l0 = self.links();
        match self.get_all_message_involved(conversation_id) {
            Ok(messages) => {
                let mut ids: Vec<String> = Vec::new();
                let mut i: usize = 0;
                while i < messages.len()
                    invariant
                        i <= messages@.len(),
                        ids@.len() == i,
                        forall|k: int| 0 <= k < i ==> (#[trigger] ids@[k])@ == messages@[k].id@,
                    decreases messages.len() - i,
                {
                    ids.push(messages[i].id.clone());
                    i = i + 1;
                }
                proof {
                    match conv_index(self.convs(), conversation_id@) {
                        Some(ci) => match opt_view(self.convs()[ci].entry_message_id) {
                            Some(e) => {
                                let t = thread_ids(l0, e);
                                assert forall|k: int| 0 <= k < t.len() implies (#[trigger] msg_index(m0, t[k])) is Some by {
                                    assert(msg_index(m0, t[k]) matches Some(j) && same_message(messages@[k], m0[j]));
                                }
                                assert forall|k: int| 0 <= k < t.len() implies #[trigger] str_views(ids@)[k] == t[k] by {
                                    let j = msg_index(m0, t[k]).unwrap();
                                    lemma_key_index_bounds(msg_ids(m0), t[k], 0);
                                    assert(same_message(messages@[k], m0[j]));
                                }
                                assert(str_views(ids@) =~= t);
                            },
                            None => {
                                assert(str_views(ids@) =~= Seq::<Seq<char>>::empty());
                            },
                        },
                        None => {},
                    }
                }
                let _ = self.messages_manager.delete_ids(&ids);
                let _ = self.thread_manager.delete_ids(&ids);
            },
            Err(_) => {
                proof {
                    match conv_index(self.convs(), conversation_id@) {
                        Some(ci) => match opt_view(self.convs()[ci].entry_message_id) {
                            Some(e) => {
                                let t = thread_ids(l0, e);
                                assert(!(forall|k: int| 0 <= k < t.len() ==> (#[trigger] msg_index(m0, t[k])) is Some));
                            },
                            None => {},
                        },
                        None => {},
                    }
                }
            },
        }
        let _ = self.conversation_manager.delete(conversation_id);
        Ok(())
    }

    /// Deletes a message. Recursively: every message below it goes first,
    /// with its link; then, where it has no parent, the conversation whose
    /// thread it starts starts from nothing (`NotFound` where there is
    /// none); then the message itself goes, and nothing comes back. Else:
    /// its answers are linked to its parent, where it has one; a thread's
    /// first message hands the thread to its only answer, or leaves it
    /// empty where it has none, and is refused where it has several; the
    /// message goes, and its parent comes back.
    pub fn delete_message(&mut self, message_id: &str, recursive: bool) -> (r: Result<Option<String>, ChatError>)
        ensures
            recursive ==> {
                let below = levels_below(old(self).links(), seq![message_id@], old(self).links().len());
                let m1 = keep_by(old(self).msgs(), msg_key(), below);
                let l1 = keep_by(old(self).links(), link_key(), below);
                let gone = seq![message_id@];
                match parent_of(l1, message_id@) {
                    Some(_) => (r matches Ok(None)) && final(self).convs() == old(self).convs() && final(self).msgs()
                        == keep_by(m1, msg_key(), gone) && final(self).links() == keep_by(l1, link_key(), gone),
                    None => match entry_index(old(self).convs(), message_id@) {
                        None => (r matches Err(ChatError::Conversation(ConversationError::NotFound)))
                            && final(self).convs() == old(self).convs() && final(self).msgs() == m1 && final(self).links()
                            == l1,
                        Some(ei) => (r matches Ok(None)) && entry_set(
                            old(self).convs(),
                            final(self).convs(),
                            old(self).convs()[ei as int].id@,
                            None,
                        ) && final(self).msgs() == keep_by(m1, msg_key(), gone) && final(self).links() == keep_by(
                            l1,
                            link_key(),
                            gone,
                        ),
                    },
                }
            },
            !recursive ==> {
                let children = children_of(old(self).links(), message_id@);
                let gone = seq![message_id@];
                let m1 = keep_by(old(self).msgs(), msg_key(), gone);
                let lv1 = keep_by(link_views(old(self).links()), view_key(), gone);
                match parent_of(old(self).links(), message_id@) {
                    Some(p) => (r matches Ok(Some(x)) && x@ == p) && final(self).convs() == old(self).convs()
                        && final(self).msgs() == m1 && link_views(final(self).links()) == keep_by(
                        relinked(link_views(old(self).links()), children, p),
                        view_key(),
                        gone,
                    ),
                    None => if children.len() >= 2 {
                        (r matches Err(ChatError::Conversation(ConversationError::InvalidOperation(m))) && m@
                            == root_with_children()) && final(self).convs() == old(self).convs() && final(self).msgs()
                            == old(self).msgs() && final(self).links() == old(self).links()
                    } else {
                        match entry_index(old(self).convs(), message_id@) {
                            None => (r matches Err(ChatError::Conversation(ConversationError::NotFound)))
                                && final(self).convs() == old(self).convs() && final(self).msgs() == old(self).msgs()
                                && final(self).links() == old(self).links(),
                            Some(ei) => (r matches Ok(None)) && entry_set(
                                old(self).convs(),
                                final(self).convs(),
                                old(self).convs()[ei as int].id@,
                                if children.len() == 1 {
                                    Some(children[0])
                                } else {
                                    None
                                },
                            ) && final(self).msgs() == m1 && link_views(final(self).links()) == lv1,
                        }
                    },
                }
            },
    {
        let mut one: Vec<String> = Vec::new();
        one.push(owned(message_id));
        proof {
            assert(str_views(one@) =~= seq![message_id@]);
        }
        if recursive {
            let mut start: Vec<String> = Vec::new();
            start.push(owned(message_id));
            let none: Vec<String> = Vec::new();
            proof {
                assert(str_views(start@) =~= seq![message_id@]);
                assert(str_views(none@) =~= Seq::<Seq<char>>::empty());
            }
            let below = self.descend_exec(none, start);
            proof {
                assert(str_views(below@) =~= levels_below(self.links(), seq![message_id@], self.links().len()));
            }
            let _ = self.messages_manager.delete_ids(&below);
            let _ = self.thread_manager.delete_ids(&below);
            let parent = match self.thread_manager.get_parent(message_id) {
                Ok(p) => p,
                Err(_) => None,
            };
            if parent.is_none() {
                match self.conversation_manager.find_by_entry(message_id) {
                    None => return Err(ChatError::Conversation(ConversationError::NotFound)),
                    Some(ei) => {
                        let cid = self.conversation_manager.rows[ei].id.clone();
                        let _ = self.conversation_manager.update_entry_message_id(cid.as_str(), None);
                    },
                }
            }
            let _ = self.messages_manager.delete_ids(&one);
            let _ = self.thread_manager.delete_ids(&one);
            Ok(None)
        } else {
            let parent = match self.thread_manager.get_parent(message_id) {
                Ok(p) => p,
                Err(_) => None,
            };
            let children = match self.thread_manager.get_children(message_id) {
                Ok(c) => c,
                Err(_) => Vec::new(),
            };
            let ghost lb = self.links();
            match &parent {
                Some(p) => {
                    let _ = self.thread_manager.update_parents(&children, p.as_str());
                    let ghost lr = self.links();
                    let _ = self.messages_manager.delete_ids(&one);
                    let _ = self.thread_manager.delete_ids(&one);
                    proof {
                        lemma_keep_views(lr, str_views(one@));
                    }
                },
                None => {
                    if children.len() >= 2 {
                        return Err(
                            ChatError::Conversation(ConversationError::InvalidOperation(owned("Cannot delete root message with children"))),
                        );
                    }
                    match self.conversation_manager.find_by_entry(message_id) {
                        None => return Err(ChatError::Conversation(ConversationError::NotFound)),
                        Some(ei) => {
                            let cid = self.conversation_manager.rows[ei].id.clone();
                            if children.len() == 1 {
                                proof {
                                    assert(str_views(children@)[0] == children@[0]@);
                                }
                                let _ = self.conversation_manager.update_entry_message_id(cid.as_str(), Some(children[0].as_str()));
                            } else {
                                let _ = self.conversation_manager.update_entry_message_id(cid.as_str(), None);
                            }
                        },
                    }
                    let _ = self.messages_manager.delete_ids(&one);
                    let _ = self.thread_manager.delete_ids(&one);
                    proof {
                        lemma_keep_views(lb, str_views(one@));
                    }
                },
            }
            Ok(parent)
        }
    }

    /// All conversations, in the order they were created.
    pub fn list_conversations(&mut self) -> (r: Result<Vec<Conversation>, ChatError>)
        ensures
            *final(self) == *old(self),
            r matches Ok(v) && v@.len() == old(self).convs().len() && forall|i: int|
                0 <= i < v@.len() ==> same_conversation(#[trigger] v@[i], old(self).convs()[i]),
    {
        Ok(self.conversation_manager.list())
    }

    /// Sets the text of a message; nothing changes where no message has that
    /// id.
    pub fn update_message(&mut self, message_id: &str, new_text: &str) -> (r: Result<(), ChatError>)
        ensures
            r is Ok,
            final(self).convs() == old(self).convs(),
            final(self).links() == old(self).links(),
            final(self).msgs().len() == old(self).msgs().len(),
            match msg_index(old(self).msgs(), message_id@) {
                Some(i) => final(self).msgs()[i].text@ == new_text@
                    && same_message(
                        Message { text: old(self).msgs()[i].text, ..final(self).msgs()[i] },
                        old(self).msgs()[i],
                    )
                    && forall|j: int| 0 <= j < old(self).msgs().len() && j != i ==> #[trigger] final(self).msgs()[j] == old(self).msgs()[j],
                None => final(self).msgs() == old(self).msgs(),
            },
    {
        self.messages_manager.update_text(message_id, new_text)
    }
}


proof fn lemma_up_chain_shape(links: Seq<ThreadLink>, cur: Seq<char>, entry: Seq<char>, fuel: nat)
    requires
        up_chain(links, cur, entry, fuel) is Some,
    ensures
        ({
            let c = up_chain(links, cur, entry, fuel).unwrap();
            &&& c.len() >= 1
            &&& c[0] == cur
            &&& c.last() == entry
            &&& forall|i: int| 0 <= i < c.len() - 1 ==> parent_of(links, #[trigger] c[i]) == Some(c[i + 1])
        }),
    decreases fuel,
{
    if cur != entry {
        let p = parent_of(links, cur).unwrap();
        lemma_up_chain_shape(links, p, entry, (fuel - 1) as nat);
        let rest = up_chain(links, p, entry, (fuel - 1) as nat).unwrap();
        let c = seq![cur] + rest;
        assert forall|i: int| 0 <= i < c.len() - 1 implies parent_of(links, #[trigger] c[i]) == Some(c[i + 1]) by {
            if i > 0 {
                assert(c[i] == rest[i - 1]);
                assert(c[i + 1] == rest[i]);
            }
        }
    }
}

/// A thread path starts at the thread's first message, ends at the leaf,
/// and each message on it answers the one before.
pub proof fn law_thread_path_shape(links: Seq<ThreadLink>, leaf: Seq<char>, entry: Seq<char>)
    requires
        thread_path(links, leaf, entry) is Some,
    ensures
        ({
            let p = thread_path(links, leaf, entry).unwrap();
            &&& p.len() >= 1
            &&& p[0] == entry
            &&& p.last() == leaf
            &&& forall|i: int| 1 <= i < p.len() ==> parent_of(links, #[trigger] p[i]) == Some(p[i - 1])
        }),
{
    lemma_up_chain_shape(links, leaf, entry, links.len());
    let c = up_chain(links, leaf, entry, links.len()).unwrap();
    let p = c.reverse();
    assert forall|i: int| 1 <= i < p.len() implies parent_of(links, #[trigger] p[i]) == Some(p[i - 1]) by {
        let k = c.len() - 1 - i;
        assert(p[i] == c[k]);
        assert(p[i - 1] == c[k + 1]);
    }
}

proof fn lemma_up_chain_more_fuel(links: Seq<ThreadLink>, cur: Seq<char>, entry: Seq<char>, fuel: nat, more: nat)
    requires
        up_chain(links, cur, entry, fuel) is Some,
        fuel <= more,
    ensures
        up_chain(links, cur, entry, more) == up_chain(links, cur, entry, fuel),
    decreases fuel,
{
    if cur != entry {
        let p = parent_of(links, cur).unwrap();
        lemma_up_chain_more_fuel(links, p, entry, (fuel - 1) as nat, (more - 1) as nat);
    }
}

proof fn lemma_parent_of_push(links: Seq<ThreadLink>, l: ThreadLink, id: Seq<char>)
    requires
        id != l.id@,
    ensures
        parent_of(links.push(l), id) == parent_of(links, id),
{
    assert(link_ids(links.push(l)) =~= link_ids(links).push(l.id@));
    lemma_key_push_other(link_ids(links), l.id@, id);
    lemma_key_index_bounds(link_ids(links), id, 0);
    match key_index_from(link_ids(links), id, 0) {
        Some(i) => {
            assert(links.push(l)[i] == links[i]);
        },
        None => {},
    }
}

proof fn lemma_up_chain_push(links: Seq<ThreadLink>, l: ThreadLink, cur: Seq<char>, entry: Seq<char>, fuel: nat)
    requires
        up_chain(links, cur, entry, fuel) is Some,
        !up_chain(links, cur, entry, fuel).unwrap().contains(l.id@),
    ensures
        up_chain(links.push(l), cur, entry, fuel) == up_chain(links, cur, entry, fuel),
    decreases fuel,
{
    let c = up_chain(links, cur, entry, fuel).unwrap();
    assert(c[0] == cur) by {
        lemma_up_chain_shape(links, cur, entry, fuel);
    }
    if cur != entry {
        assert(cur != l.id@);
        lemma_parent_of_push(links, l, cur);
        let p = parent_of(links, cur).unwrap();
        let rest = up_chain(links, p, entry, (fuel - 1) as nat).unwrap();
        assert(c == seq![cur] + rest);
        assert forall|i: int| 0 <= i < rest.len() implies rest[i] != l.id@ by {
            assert(c[i + 1] == rest[i]);
        }
        lemma_up_chain_push(links, l, p, entry, (fuel - 1) as nat);
    }
}

/// A reply linked under a message of a thread is reached by that message's
/// path followed by the reply, provided the reply's id is new to the links
/// and not on that path.
pub proof fn law_reply_extends_path(links: Seq<ThreadLink>, reply: ThreadLink, entry: Seq<char>)
    requires
        opt_view(reply.parent) matches Some(p) && thread_path(links, p, entry) matches Some(path) && !path.contains(
            reply.id@,
        ),
        key_index_from(link_ids(links), reply.id@, 0) is None,
    ensures
        thread_path(links.push(reply), reply.id@, entry) == Some(
            thread_path(links, opt_view(reply.parent).unwrap(), entry).unwrap().push(reply.id@),
        ),
{
    let p = opt_view(reply.parent).unwrap();
    let path = thread_path(links, p, entry).unwrap();
    let c = up_chain(links, p, entry, links.len()).unwrap();
    assert(path == c.reverse());
    assert forall|i: int| 0 <= i < c.len() implies c[i] != reply.id@ by {
        assert(path[c.len() - 1 - i] == c[i]);
    }
    let nl = links.push(reply);
    lemma_up_chain_push(links, reply, p, entry, links.len());
    lemma_up_chain_more_fuel(nl, p, entry, links.len(), links.len());
    assert(link_ids(nl) =~= link_ids(links).push(reply.id@));
    lemma_key_push_new(link_ids(links), reply.id@);
    assert(nl[links.len() as int] == reply);
    assert(parent_of(nl, reply.id@) == Some(p));
    lemma_up_chain_shape(links, p, entry, links.len());
    assert(reply.id@ != entry) by {
        assert(c.last() == entry);
        assert(c[c.len() - 1] == entry);
    }
    assert(up_chain(nl, reply.id@, entry, nl.len()) == Some(seq![reply.id@] + c));
    assert((seq![reply.id@] + c).reverse() =~= c.reverse().push(reply.id@));
}

proof fn lemma_keep_excludes<T>(rows: Seq<T>, key: spec_fn(T) -> Seq<char>, gone: Seq<Seq<char>>)
    ensures
        forall|i: int| 0 <= i < keep_by(rows, key, gone).len() ==> !gone.contains(key(#[trigger] keep_by(rows, key, gone)[i])),
    decreases rows.len(),
{
    if rows.len() > 0 {
        lemma_keep_excludes(rows.drop_last(), key, gone);
        let prev = keep_by(rows.drop_last(), key, gone);
        let k = keep_by(rows, key, gone);
        if !gone.contains(key(rows.last())) {
            assert(k == prev.push(rows.last()));
            assert forall|i: int| 0 <= i < k.len() implies !gone.contains(key(#[trigger] k[i])) by {
                if i < prev.len() {
                    assert(k[i] == prev[i]);
                }
            }
        }
    }
}

/// A conversation just deleted is found no more.
pub proof fn law_deleted_conversation_gone(convs: Seq<Conversation>, id: Seq<char>)
    ensures
        conv_index(keep_by(convs, conv_key(), seq![id]), id) is None,
{
    let k = keep_by(convs, conv_key(), seq![id]);
    lemma_keep_excludes(convs, conv_key(), seq![id]);
    lemma_key_index_bounds(conv_ids(k), id, 0);
    if conv_index(k, id) is Some {
        let i = conv_index(k, id).unwrap();
        assert(conv_ids(k)[i] == k[i].id@);
        assert(seq![id][0] == id);
    }
}

/// No message whose id was among those deleted is found any more.
pub proof fn law_deleted_messages_gone(msgs: Seq<Message>, gone: Seq<Seq<char>>, id: Seq<char>)
    requires
        gone.contains(id),
    ensures
        msg_index(keep_by(msgs, msg_key(), gone), id) is None,
{
    let k = keep_by(msgs, msg_key(), gone);
    lemma_keep_excludes(msgs, msg_key(), gone);
    lemma_key_index_bounds(msg_ids(k), id, 0);
    if msg_index(k, id) is Some {
        let i = msg_index(k, id).unwrap();
        assert(msg_ids(k)[i] == k[i].id@);
    }
}

/// A message added under a new id is the one found under that id.
pub proof fn law_added_message_found(msgs: Seq<Message>, m: Message)
    requires
        msg_index(msgs, m.id@) is None,
    ensures
        msg_index(msgs.push(m), m.id@) == Some(msgs.len() as int),
        msgs.push(m)[msgs.len() as int] == m,
{
    assert(msg_ids(msgs.push(m)) =~= msg_ids(msgs).push(m.id@));
    lemma_key_push_new(msg_ids(msgs), m.id@);
}

/// A path read from a conversation goes from the conversation's first
/// message to the leaf, each message answering the one before; a
/// conversation without messages gives an empty path.
pub proof fn law_message_path_shape(chat: Chat, conversation_id: Seq<char>, leaf: Seq<char>, path: Vec<Message>)
    requires
        path_outcome(chat, conversation_id, leaf, Ok(path)),
    ensures
        conv_index(chat.convs(), conversation_id) is Some,
        ({
            let ci = conv_index(chat.convs(), conversation_id).unwrap();
            match opt_view(chat.convs()[ci].entry_message_id) {
                None => path@.len() == 0,
                Some(e) => {
                    &&& path@.len() >= 1
                    &&& path@[0].id@ == e
                    &&& path@.last().id@ == leaf
                    &&& forall|i: int| 1 <= i < path@.len() ==> parent_of(chat.links(), #[trigger] path@[i].id@) == Some(path@[i - 1].id@)
                },
            }
        }),
{
    let ci = conv_index(chat.convs(), conversation_id).unwrap();
    if let Some(e) = opt_view(chat.convs()[ci].entry_message_id) {
        let ids = thread_path(chat.links(), leaf, e).unwrap();
        law_thread_path_shape(chat.links(), leaf, e);
        assert forall|i: int| 0 <= i < ids.len() implies (#[trigger] path@[i]).id@ == ids[i] by {
            let j = msg_index(chat.msgs(), ids[i]).unwrap();
            lemma_key_index_bounds(msg_ids(chat.msgs()), ids[i], 0);
            assert(msg_ids(chat.msgs())[j] == chat.msgs()[j].id@);
        }
        assert(path@[0].id@ == ids[0]);
        assert(path@.last().id@ == ids.last()) by {
            assert(path@[path@.len() - 1].id@ == ids[ids.len() - 1]);
        }
        assert forall|i: int| 1 <= i < path@.len() implies parent_of(chat.links(), #[trigger] path@[i].id@) == Some(path@[i - 1].id@) by {
            assert(path@[i].id@ == ids[i]);
            assert(path@[i - 1].id@ == ids[i - 1]);
        }
    }
}

} // verus!
