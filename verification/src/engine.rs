//! A conversation driven round by round: the model answers, the tool calls
//! it asks for run, their results are stored under its answer, and the model
//! answers again, until it answers without calls or the rounds run out.
use vstd::prelude::*;

use crate::chat::{msg_ids, msg_index, path_outcome, stored_message, Chat, ChatError};
use crate::json::{json_text, to_json_string, Json};
use crate::messages::{role_named, ImageContent, Message, MessageRole};
use crate::provider::{lemma_key_index_bounds, lemma_key_push_new};
use crate::text::{decimal, owned, push_decimal, push_str};
use crate::tool_parser::{calls_agree, cleanup_fences, parse_tool_calls, parsed_calls, parsed_text};
use crate::turn::store_tool_results;
use crate::tools::{call_json, calls_to_json, failed_call, opt_view, ConversationToolCall};

verus! {

broadcast use vstd::string::group_string_axioms;

/// One answer of the model: its text and the reasoning it showed, if any.
#[derive(Debug, Clone, PartialEq)]
pub struct AssistantRound {
    pub text: String,
    pub reasoning: Option<String>,
}

/// How many rounds of tool calls a turn may take.
#[derive(Debug, Clone, PartialEq)]
pub struct ConversationEngineConfig {
    pub max_tool_rounds: usize,
}

impl Default for ConversationEngineConfig {
    fn default() -> (r: Self)
        ensures
            r.max_tool_rounds == 10,
    {
        ConversationEngineConfig { max_tool_rounds: 10 }
    }
}

/// What stopped a turn.
#[derive(Debug)]
pub enum ConversationEngineError {
    Chat(ChatError),
    Llm(String),
    Tool(String),
    MaxToolRounds,
}

/// The text of an engine error.
pub open spec fn engine_error_text(e: ConversationEngineError) -> Seq<char> {
    match e {
        ConversationEngineError::Chat(c) => "chat error: "@ + crate::chat::chat_error_text(c),
        ConversationEngineError::Llm(m) => "llm error: "@ + m@,
        ConversationEngineError::Tool(m) => "tool error: "@ + m@,
        ConversationEngineError::MaxToolRounds => "max tool rounds reached"@,
    }
}

impl ConversationEngineError {
    /// The error as a line of text.
    pub fn to_text(&self) -> (r: String)
        ensures
            r@ == engine_error_text(*self),
    {
        match self {
            ConversationEngineError::Chat(e) => {
                let mut out = owned("chat error: ");
                let t = e.to_text();
                push_str(&mut out, t.as_str());
                out
            },
            ConversationEngineError::Llm(e) => {
                let mut out = owned("llm error: ");
                push_str(&mut out, e.as_str());
                out
            },
            ConversationEngineError::Tool(e) => {
                let mut out = owned("tool error: ");
                push_str(&mut out, e.as_str());
                out
            },
            ConversationEngineError::MaxToolRounds => owned("max tool rounds reached"),
        }
    }
}

/// The model a turn asks, given the messages of the thread so far.
pub trait ConversationLlm {
    fn next_round(&mut self, messages: &[Message]) -> Result<AssistantRound, ConversationEngineError>;
}

/// What runs a tool call and hands it back with its result.
pub trait ConversationToolRunner {
    fn execute(&mut self, call: ConversationToolCall) -> Result<ConversationToolCall, ConversationEngineError>;
}

/// The id of the answer given in round `round` after the message `leaf`.
pub open spec fn assistant_id(leaf: Seq<char>, round: nat) -> Seq<char> {
    "assistant-"@ + leaf + "-"@ + decimal(round)
}

/// The id of the stored result of call `call_id` made by the answer
/// `assistant`.
pub open spec fn tool_id(assistant: Seq<char>, call_id: Seq<char>) -> Seq<char> {
    "tool-"@ + assistant + "-"@ + call_id
}

/// The id of the answer given in round `round` after the message `leaf`.
pub fn assistant_message_id(leaf: &str, round: usize) -> (r: String)
    ensures
        r@ == assistant_id(leaf@, round as nat),
{
    let mut out = owned("assistant-");
    push_str(&mut out, leaf);
    push_str(&mut out, "-");
    push_decimal(&mut out, round as u64);
    out
}

/// The id of the stored result of call `call_id` made by the answer
/// `assistant`.
pub fn tool_message_id(assistant: &str, call_id: &str) -> (r: String)
    ensures
        r@ == tool_id(assistant@, call_id@),
{
    let mut out = owned("tool-");
    push_str(&mut out, assistant);
    push_str(&mut out, "-");
    push_str(&mut out, call_id);
    out
}

/// How many of a run of messages the assistant wrote.
pub open spec fn assistant_count(s: Seq<Message>) -> nat
    decreases s.len(),
{
    if s.len() == 0 {
        0
    } else {
        assistant_count(s.drop_last()) + if s.last().sender == MessageRole::Assistant {
            1nat
        } else {
            0nat
        }
    }
}

proof fn lemma_count_push(s: Seq<Message>, m: Message)
    ensures
        assistant_count(s.push(m)) == assistant_count(s) + if m.sender == MessageRole::Assistant {
            1nat
        } else {
            0nat
        },
{
    assert(s.push(m).drop_last() =~= s);
}

/// What a round's answer leads to: the turn is over with this answer, or
/// these calls of this answer are to be run.
pub enum AnswerStep {
    Done(String),
    RunCalls(String, Vec<ConversationToolCall>),
}

/// The calls `p` agree with what the answer's text writes; the answer
/// `assistant-{leaf}-{round}` stored last in `after` holds the text without
/// them, the answer's reasoning, and the calls (none where it made none);
/// and `r` is what comes next: the answer where it made no call,
/// `MaxToolRounds` where it made calls in round `max`, else its calls.
pub open spec fn answer_outcome(
    before: Seq<Message>,
    after: Seq<Message>,
    leaf: Seq<char>,
    round: nat,
    max: nat,
    answer: AssistantRound,
    p: Seq<ConversationToolCall>,
    r: Result<AnswerStep, ConversationEngineError>,
) -> bool {
    let id = assistant_id(leaf, round);
    &&& calls_agree(p, parsed_calls(answer.text@))
    &&& stored_message(
        after.last(),
        id,
        cleanup_fences(parsed_text(answer.text@)),
        opt_view(answer.reasoning),
        MessageRole::Assistant,
        None,
        if p.len() == 0 {
            None
        } else {
            Some(json_text(Json::Array(p.map_values(|c: ConversationToolCall| call_json(c)))))
        },
    )
    &&& p.len() == 0 ==> (r matches Ok(AnswerStep::Done(x)) && x@ == id)
    &&& p.len() > 0 && round >= max ==> (r matches Err(ConversationEngineError::MaxToolRounds))
    &&& p.len() > 0 && round < max ==> (r matches Ok(AnswerStep::RunCalls(a, c)) && a@ == id && c@ == p)
}

/// Stores the answer given in round `round` after `leaf`, under the id
/// `assistant-{leaf}-{round}` and linked to `leaf`, and says what comes
/// next (see `answer_outcome`); `DuplicateMessage` where that id is taken.
pub fn record_answer(
    chat: &mut Chat,
    conversation_id: &str,
    leaf: &str,
    round: usize,
    max_tool_rounds: usize,
    answer: &AssistantRound,
) -> (r: Result<AnswerStep, ConversationEngineError>)
    ensures
        final(chat).convs() == old(chat).convs(),
        match msg_index(old(chat).msgs(), assistant_id(leaf@, round as nat)) {
            Some(_) => (r matches Err(ConversationEngineError::Chat(ChatError::DuplicateMessage(d))) && d@ == assistant_id(
                leaf@,
                round as nat,
            )) && final(chat).msgs() == old(chat).msgs() && final(chat).links() == old(chat).links(),
            None => {
                &&& final(chat).msgs().len() == old(chat).msgs().len() + 1
                &&& final(chat).msgs().drop_last() == old(chat).msgs()
                &&& final(chat).msgs().last().id@ == assistant_id(leaf@, round as nat)
                &&& final(chat).msgs().last().sender == MessageRole::Assistant
                &&& final(chat).links().len() == old(chat).links().len() + 1
                &&& final(chat).links().drop_last() == old(chat).links()
                &&& final(chat).links().last().id@ == assistant_id(leaf@, round as nat)
                &&& opt_view(final(chat).links().last().parent) == Some(leaf@)
                &&& exists|p: Seq<ConversationToolCall>|
                    #[trigger] answer_outcome(
                        old(chat).msgs(),
                        final(chat).msgs(),
                        leaf@,
                        round as nat,
                        max_tool_rounds as nat,
                        *answer,
                        p,
                        r,
                    )
            },
        },
{
    let parsed = parse_tool_calls(answer.text.as_str());
    let ghost p = parsed.calls@;
    let calls = parsed.calls;
    let clean_text = parsed.clean_text;
    let id = assistant_message_id(leaf, round);
    let tool_calls_json = if calls.len() == 0 {
        None
    } else {
        Some(to_json_string(&calls_to_json(&calls)))
    };
    let tool_calls_text: Option<&str> = match &tool_calls_json {
        Some(t) => Some(t.as_str()),
        None => None,
    };
    let reasoning: Option<&str> = match &answer.reasoning {
        Some(t) => Some(t.as_str()),
        None => None,
    };
    let sender = MessageRole::Assistant.to_string();
    proof {
        reveal_roles();
    }
    match chat.add_message(
        conversation_id,
        id.as_str(),
        clean_text.as_str(),
        reasoning,
        sender.as_str(),
        Some(leaf),
        None,
        tool_calls_text,
    ) {
        Ok(()) => {},
        Err(e) => return Err(ConversationEngineError::Chat(e)),
    }
    let r = if calls.len() == 0 {
        Ok(AnswerStep::Done(id))
    } else if round >= max_tool_rounds {
        Err(ConversationEngineError::MaxToolRounds)
    } else {
        Ok(AnswerStep::RunCalls(id, calls))
    };
    proof {
        assert(answer_outcome(old(chat).msgs(), chat.msgs(), leaf@, round as nat, max_tool_rounds as nat, *answer, p, r));
    }
    r
}

/// The ids of the stored results of `completed`, made by the answer
/// `answer_id`: `tool-{answer}-{call id}` each, in order.
pub fn tool_message_ids(answer_id: &str, completed: &Vec<ConversationToolCall>) -> (r: Vec<String>)
    ensures
        r@.len() == completed@.len(),
        forall|k: int| 0 <= k < completed@.len() ==> (#[trigger] r@[k])@ == tool_id(answer_id@, completed@[k].id@),
{
    let mut out: Vec<String> = Vec::new();
    let mut k: usize = 0;
    while k < completed.len()
        invariant
            k <= completed@.len(),
            out@.len() == k,
            forall|j: int| 0 <= j < k ==> (#[trigger] out@[j])@ == tool_id(answer_id@, completed@[j].id@),
        decreases completed.len() - k,
    {
        out.push(tool_message_id(answer_id, completed[k].id.as_str()));
        k = k + 1;
    }
    out
}

/// Runs of messages whose senders agree where both have one, and whose
/// extra messages come from tools, hold as many answers.
proof fn lemma_count_extend(s: Seq<Message>, t: Seq<Message>)
    requires
        t.len() >= s.len(),
        forall|j: int| 0 <= j < s.len() ==> (#[trigger] t[j]).sender == s[j].sender,
        forall|j: int| s.len() <= j < t.len() ==> (#[trigger] t[j]).sender == MessageRole::Tool,
    ensures
        assistant_count(t) == assistant_count(s),
    decreases t.len(),
{
    if t.len() > s.len() {
        assert forall|j: int| 0 <= j < s.len() implies (#[trigger] t.drop_last()[j]).sender == s[j].sender by {
            assert(t.drop_last()[j] == t[j]);
        }
        assert forall|j: int| s.len() <= j < t.drop_last().len() implies (#[trigger] t.drop_last()[j]).sender == MessageRole::Tool by {
            assert(t.drop_last()[j] == t[j]);
        }
        lemma_count_extend(s, t.drop_last());
    } else if s.len() > 0 {
        assert forall|j: int| 0 <= j < s.drop_last().len() implies (#[trigger] t.drop_last()[j]).sender == s.drop_last()[j].sender by {
            assert(t.drop_last()[j] == t[j]);
        }
        lemma_count_extend(s.drop_last(), t.drop_last());
        assert(t.last().sender == s.last().sender);
    }
}

/// Whether the thread path to `leaf` cannot be read.
pub open spec fn path_fails(chat: Chat, conversation_id: Seq<char>, leaf: Seq<char>) -> bool {
    exists|e: ChatError| #[trigger] path_outcome(chat, conversation_id, leaf, Err(e))
}

proof fn lemma_path_variant(
    chat: Chat,
    conversation_id: Seq<char>,
    leaf: Seq<char>,
    r: Result<Vec<Message>, ChatError>,
    e: ChatError,
)
    requires
        path_outcome(chat, conversation_id, leaf, r),
        path_outcome(chat, conversation_id, leaf, Err(e)),
    ensures
        r is Err,
{
}

/// A turn of a conversation kept in `chat`.
pub struct ConversationEngine<'a, L, T> {
    pub chat: &'a mut Chat,
    pub llm: L,
    pub tools: T,
    pub config: ConversationEngineConfig,
}

impl<'a, L, T> ConversationEngine<'a, L, T> where L: ConversationLlm, T: ConversationToolRunner {
    /// An engine over `chat` that asks `llm` and runs calls with `tools`.
    pub fn new(chat: &'a mut Chat, llm: L, tools: T, config: ConversationEngineConfig) -> (r: Self)
        ensures
            *r.chat == *old(chat),
            r.max_tool_rounds() == config.max_tool_rounds,
    {
        ConversationEngine { chat, llm, tools, config }
    }

    /// The most rounds of tool calls a turn may take.
    pub open spec fn max_tool_rounds(&self) -> nat {
        self.config.max_tool_rounds as nat
    }

    /// Stores the user's message under `parent_message_id` (as the first
    /// message of the thread where there is none) and goes on from it as
    /// `continue_from_leaf` does.
    pub fn send_user_message(
        &mut self,
        conversation_id: &str,
        parent_message_id: Option<&str>,
        user_message_id: &str,
        text: &str,
        images: Option<Vec<ImageContent>>,
    ) -> (r: Result<String, ConversationEngineError>)
        ensures
            final(self).max_tool_rounds() == old(self).max_tool_rounds(),
            final(self).chat.msgs().len() >= old(self).chat.msgs().len(),
            final(self).chat.msgs().subrange(0, old(self).chat.msgs().len() as int) == old(self).chat.msgs(),
            final(self).chat.links().len() >= old(self).chat.links().len(),
            final(self).chat.links().subrange(0, old(self).chat.links().len() as int) == old(self).chat.links(),
            msg_index(old(self).chat.msgs(), user_message_id@) is Some ==> (r matches Err(
                ConversationEngineError::Chat(ChatError::DuplicateMessage(d)),
            ) && d@ == user_message_id@) && final(self).chat.msgs() == old(self).chat.msgs()
                && final(self).chat.links() == old(self).chat.links() && final(self).chat.convs() == old(self).chat.convs(),
            r is Ok ==> msg_index(old(self).chat.msgs(), user_message_id@) is None,
            msg_index(old(self).chat.msgs(), user_message_id@) is None ==> final(self).chat.msgs().len() > old(
                self,
            ).chat.msgs().len() && crate::chat::stored_message(
                final(self).chat.msgs()[old(self).chat.msgs().len() as int],
                user_message_id@,
                text@,
                None,
                MessageRole::User,
                crate::messages::images_view(images),
                None,
            ),
            assistant_count(final(self).chat.msgs().subrange(
                old(self).chat.msgs().len() as int,
                final(self).chat.msgs().len() as int,
            )) <= final(self).max_tool_rounds() + 1,
            r matches Ok(id) ==> exists|j: int|
                old(self).chat.msgs().len() <= j < final(self).chat.msgs().len() && #[trigger] final(self).chat.msgs()[j].id@
                    == id@ && final(self).chat.msgs()[j].sender == MessageRole::Assistant
                    && final(self).chat.msgs()[j].tool_calls is None,
    {
        let ghost m0 = self.chat.msgs();
        let ghost l0 = self.chat.links();
        proof {
            reveal_roles();
        }
        let user = MessageRole::User.to_string();
        match self.chat.add_message(conversation_id, user_message_id, text, None, user.as_str(), parent_message_id, images, None) {
            Ok(()) => {},
            Err(e) => {
                proof {
                    if msg_index(m0, user_message_id@) is None {
                        assert(self.chat.msgs().drop_last() == m0);
                        assert(self.chat.msgs().subrange(0, m0.len() as int) =~= m0);
                        assert(self.chat.links().subrange(0, l0.len() as int) =~= l0);
                        assert(self.chat.msgs().subrange(m0.len() as int, self.chat.msgs().len() as int) =~= seq![
                            self.chat.msgs().last(),
                        ] + Seq::<Message>::empty());
                        lemma_count_prepend_user(self.chat.msgs().last(), Seq::<Message>::empty());
                    } else {
                        assert(self.chat.msgs().subrange(0, m0.len() as int) =~= m0);
                        assert(self.chat.links().subrange(0, l0.len() as int) =~= l0);
                        assert(self.chat.msgs().subrange(m0.len() as int, self.chat.msgs().len() as int) =~= Seq::<
                            Message,
                        >::empty());
                    }
                }
                return Err(ConversationEngineError::Chat(e));
            },
        }
        let ghost m1 = self.chat.msgs();
        let ghost l1 = self.chat.links();
        let r = self.continue_from_leaf(conversation_id, user_message_id);
        proof {
            let m2 = self.chat.msgs();
            assert(m1.drop_last() == m0);
            assert(m2.subrange(0, m0.len() as int) =~= m1.subrange(0, m0.len() as int));
            assert(m1.subrange(0, m0.len() as int) =~= m0);
            assert(self.chat.links().subrange(0, l0.len() as int) =~= l1.subrange(0, l0.len() as int));
            assert(l1.subrange(0, l0.len() as int) =~= l0);
            assert(m2[m0.len() as int] == m2.subrange(0, m1.len() as int)[m0.len() as int]);
            let added = m2.subrange(m0.len() as int, m2.len() as int);
            assert(added =~= seq![m1.last()] + m2.subrange(m1.len() as int, m2.len() as int));
            lemma_count_prepend_user(m1.last(), m2.subrange(m1.len() as int, m2.len() as int));
        }
        r
    }

    /// Runs the turn from the message `leaf_message_id`: each round gives the
    /// model the thread path to the current leaf and stores its answer under
    /// that leaf as `assistant-{leaf}-{round}`, with the calls it made. An
    /// answer without calls ends the turn, and its id comes back. Otherwise,
    /// unless the last round is spent (`MaxToolRounds`), each call runs (a
    /// call that fails is kept with an error result saying why),
    /// the completed calls replace those stored with the answer, and each
    /// result is stored under the answer as `tool-{answer}-{call id}`; the
    /// last of them is the leaf of the next round. Where the path to
    /// `leaf_message_id` cannot be read, the turn fails at once with the
    /// store's error and nothing is stored.
    pub fn continue_from_leaf(&mut self, conversation_id: &str, leaf_message_id: &str) -> (r: Result<
        String,
        ConversationEngineError,
    >)
        ensures
            final(self).max_tool_rounds() == old(self).max_tool_rounds(),
            final(self).chat.convs() == old(self).chat.convs(),
            final(self).chat.msgs().len() >= old(self).chat.msgs().len(),
            final(self).chat.msgs().subrange(0, old(self).chat.msgs().len() as int) == old(self).chat.msgs(),
            final(self).chat.links().len() >= old(self).chat.links().len(),
            final(self).chat.links().subrange(0, old(self).chat.links().len() as int) == old(self).chat.links(),
            assistant_count(final(self).chat.msgs().subrange(
                old(self).chat.msgs().len() as int,
                final(self).chat.msgs().len() as int,
            )) <= final(self).max_tool_rounds() + 1,
            r matches Ok(id) ==> exists|j: int|
                old(self).chat.msgs().len() <= j < final(self).chat.msgs().len() && #[trigger] final(self).chat.msgs()[j].id@
                    == id@ && final(self).chat.msgs()[j].sender == MessageRole::Assistant
                    && final(self).chat.msgs()[j].tool_calls is None,
            r matches Ok(id) ==> exists|leaf: Seq<char>, round: nat|
                round <= final(self).max_tool_rounds() && id@ == #[trigger] assistant_id(leaf, round),
            r matches Ok(id) ==> {
                &&& final(self).chat.msgs().len() > old(self).chat.msgs().len()
                &&& final(self).chat.msgs().last().id@ == id@
                &&& final(self).chat.msgs().last().sender == MessageRole::Assistant
                &&& final(self).chat.msgs().last().tool_calls is None
                &&& final(self).chat.links().len() > old(self).chat.links().len()
                &&& final(self).chat.links().last().id@ == id@
                &&& final(self).chat.links().last().parent is Some
                &&& id@ == assistant_id(
                    final(self).chat.links().last().parent.unwrap()@,
                    (assistant_count(
                        final(self).chat.msgs().subrange(old(self).chat.msgs().len() as int, final(self).chat.msgs().len() as int),
                    ) - 1) as nat,
                )
            },
            assistant_count(
                final(self).chat.msgs().subrange(old(self).chat.msgs().len() as int, final(self).chat.msgs().len() as int),
            ) == final(self).max_tool_rounds() + 1 ==> (r is Ok || r matches Err(ConversationEngineError::MaxToolRounds)),
            path_fails(*old(self).chat, conversation_id@, leaf_message_id@) ==> (r matches Err(
                ConversationEngineError::Chat(e),
            ) && path_outcome(*old(self).chat, conversation_id@, leaf_message_id@, Err(e)))
                && *final(self).chat == *old(self).chat,
    {
        let ghost m0 = self.chat.msgs();
        let ghost l0 = self.chat.links();
        let ghost c0 = self.chat.convs();
        let max = self.config.max_tool_rounds;
        let mut current_leaf_id = owned(leaf_message_id);
        let mut round: usize = 0;
        proof {
            assert(self.chat.msgs().subrange(0, m0.len() as int) =~= m0);
            assert(self.chat.links().subrange(0, l0.len() as int) =~= l0);
            assert(self.chat.msgs().subrange(m0.len() as int, m0.len() as int) =~= Seq::<Message>::empty());
        }
        loop
            invariant
                round <= max,
                max == self.config.max_tool_rounds,
                max == old(self).config.max_tool_rounds,
                c0 == old(self).chat.convs(),
                m0 == old(self).chat.msgs(),
                l0 == old(self).chat.links(),
                self.chat.convs() == c0,
                self.chat.msgs().len() >= m0.len(),
                self.chat.msgs().subrange(0, m0.len() as int) == m0,
                self.chat.links().len() >= l0.len(),
                self.chat.links().subrange(0, l0.len() as int) == l0,
                assistant_count(self.chat.msgs().subrange(m0.len() as int, self.chat.msgs().len() as int)) == round,
                round == 0 ==> *self.chat == *old(self).chat && current_leaf_id@ == leaf_message_id@,
                round > 0 ==> !path_fails(*old(self).chat, conversation_id@, leaf_message_id@),
            decreases max - round,
        {
            let path = match self.chat.get_message_path_to(conversation_id, current_leaf_id.as_str()) {
                Ok(p) => p,
                Err(e) => return Err(ConversationEngineError::Chat(e)),
            };
            proof {
                if round == 0 && path_fails(*old(self).chat, conversation_id@, leaf_message_id@) {
                    let e = choose|e: ChatError| #[trigger] path_outcome(*old(self).chat, conversation_id@, leaf_message_id@, Err(e));
                    lemma_path_variant(*old(self).chat, conversation_id@, leaf_message_id@, Ok(path), e);
                }
            }
            let assistant = match self.llm.next_round(path.as_slice()) {
                Ok(a) => a,
                Err(e) => return Err(e),
            };
            let ghost before = self.chat.msgs();
            let ghost lbefore = self.chat.links();
            let step = record_answer(self.chat, conversation_id, current_leaf_id.as_str(), round, max, &assistant);
            proof {
                let after = self.chat.msgs();
                if after != before {
                    assert(after.len() == before.len() + 1 && after.drop_last() == before);
                }
                lemma_keep_prefix(m0, before, after, round as nat, false);
                lemma_link_prefix(l0, lbefore, self.chat.links());
            }
            let (answer, calls) = match step {
                Err(e) => return Err(e),
                Ok(AnswerStep::Done(id)) => {
                    proof {
                        let p = choose|p: Seq<ConversationToolCall>| answer_outcome(
                            before,
                            self.chat.msgs(),
                            current_leaf_id@,
                            round as nat,
                            max as nat,
                            assistant,
                            p,
                            Ok(AnswerStep::Done(id)),
                        );
                        let at = before.len() as int;
                        assert(self.chat.msgs()[at] == self.chat.msgs().last());
                    }
                    return Ok(id);
                },
                Ok(AnswerStep::RunCalls(answer, calls)) => {
                    proof {
                        let p = choose|p: Seq<ConversationToolCall>| answer_outcome(
                            before,
                            self.chat.msgs(),
                            current_leaf_id@,
                            round as nat,
                            max as nat,
                            assistant,
                            p,
                            Ok(AnswerStep::RunCalls(answer, calls)),
                        );
                        assert(answer@ == assistant_id(current_leaf_id@, round as nat));
                        assert(msg_ids(self.chat.msgs()) =~= msg_ids(before).push(answer@));
                        lemma_key_push_new(msg_ids(before), answer@);
                    }
                    (answer, calls)
                },
            };
            let ghost snap = *self.chat;
            let mut completed: Vec<ConversationToolCall> = Vec::new();
            let mut k: usize = 0;
            while k < calls.len()
                invariant
                    k <= calls@.len(),
                    completed@.len() == k,
                    *self.chat == snap,
                    round < max,
                    max == self.config.max_tool_rounds,
                    max == old(self).config.max_tool_rounds,
                    c0 == old(self).chat.convs(),
                    m0 == old(self).chat.msgs(),
                    l0 == old(self).chat.links(),
                    self.chat.convs() == c0,
                    self.chat.msgs().len() >= m0.len(),
                    self.chat.msgs().subrange(0, m0.len() as int) == m0,
                    self.chat.links().len() >= l0.len(),
                    self.chat.links().subrange(0, l0.len() as int) == l0,
                    assistant_count(self.chat.msgs().subrange(m0.len() as int, self.chat.msgs().len() as int)) == round + 1,
                    !path_fails(*old(self).chat, conversation_id@, leaf_message_id@),
                    before.len() >= m0.len(),
                    msg_index(self.chat.msgs(), answer@) == Some(before.len() as int),
                decreases calls.len() - k,
            {
                let call = calls[k].clone();
                match self.tools.execute(call) {
                    Ok(done) => completed.push(done),
                    Err(e) => {
                        let why = e.to_text();
                        completed.push(failed_call(calls[k].clone(), why.as_str()));
                    },
                }
                k = k + 1;
            }
            let tool_ids = tool_message_ids(answer.as_str(), &completed);
            let ghost mid = self.chat.msgs();
            let ghost lmid = self.chat.links();
            let stored = store_tool_results(self.chat, conversation_id, answer.as_str(), &completed, &tool_ids, 0);
            proof {
                let fin = self.chat.msgs();
                let sm = mid.subrange(m0.len() as int, mid.len() as int);
                let sf = fin.subrange(m0.len() as int, fin.len() as int);
                lemma_key_index_bounds(msg_ids(mid), answer@, 0);
                assert forall|j: int| 0 <= j < sm.len() implies (#[trigger] sf[j]).sender == sm[j].sender by {
                    assert(sf[j] == fin[m0.len() + j]);
                    assert(sm[j] == mid[m0.len() + j]);
                }
                assert forall|j: int| sm.len() <= j < sf.len() implies (#[trigger] sf[j]).sender == MessageRole::Tool by {
                    let q = j - sm.len();
                    assert(sf[j] == fin[mid.len() + q]);
                }
                lemma_count_extend(sm, sf);
                assert(fin.subrange(0, m0.len() as int) =~= mid.subrange(0, m0.len() as int)) by {
                    assert forall|j: int| 0 <= j < m0.len() implies fin[j] == mid[j] by {
                        assert(fin.subrange(0, m0.len() as int)[j] == fin[j]);
                        assert(mid.subrange(0, m0.len() as int)[j] == mid[j]);
                        if Some(j) != msg_index(mid, answer@) {
                        } else {
                            assert(j >= m0.len());
                        }
                    }
                }
                assert(self.chat.links().subrange(0, l0.len() as int) =~= lmid.subrange(0, l0.len() as int)) by {
                    assert(self.chat.links().subrange(0, lmid.len() as int) == lmid);
                }
            }
            match stored {
                Ok(()) => {},
                Err(e) => return Err(ConversationEngineError::Chat(e)),
            }
            let next_leaf = if tool_ids.len() > 0 {
                tool_ids[tool_ids.len() - 1].clone()
            } else {
                current_leaf_id.clone()
            };
            current_leaf_id = next_leaf;
            round = round + 1;
        }
    }
}

proof fn reveal_roles()
    ensures
        role_named("user"@) == Some(MessageRole::User),
        role_named("assistant"@) == Some(MessageRole::Assistant),
        role_named("tool"@) == Some(MessageRole::Tool),
{
    reveal_strlit("user");
    reveal_strlit("assistant");
    reveal_strlit("bot");
    reveal_strlit("system");
    reveal_strlit("tool");
    assert("user"@.len() == 4);
    assert("assistant"@.len() == 9);
    assert("bot"@.len() == 3);
    assert("system"@.len() == 6);
    assert("tool"@.len() == 4);
    assert("tool"@[0] == 't' && "user"@[0] == 'u');
}

proof fn lemma_count_prepend_user(m: Message, rest: Seq<Message>)
    requires
        m.sender == MessageRole::User,
    ensures
        assistant_count(seq![m] + rest) == assistant_count(rest),
    decreases rest.len(),
{
    let s = seq![m] + rest;
    if rest.len() == 0 {
        assert(s.drop_last() =~= Seq::<Message>::empty());
        assert(assistant_count(Seq::<Message>::empty()) == 0);
        assert(s.last() == m);
        assert(assistant_count(s) == assistant_count(s.drop_last()) + 0);
        assert(assistant_count(rest) == 0);
    } else {
        assert(s.drop_last() =~= seq![m] + rest.drop_last());
        assert(s.last() == rest.last());
        lemma_count_prepend_user(m, rest.drop_last());
        assert(assistant_count(s) == assistant_count(s.drop_last()) + if s.last().sender == MessageRole::Assistant {
            1nat
        } else {
            0nat
        });
    }
}

proof fn lemma_link_prefix(l0: Seq<crate::chat::ThreadLink>, before: Seq<crate::chat::ThreadLink>, after: Seq<crate::chat::ThreadLink>)
    requires
        before.len() >= l0.len(),
        before.subrange(0, l0.len() as int) == l0,
        after == before || (after.len() == before.len() + 1 && after.drop_last() == before),
    ensures
        after.len() >= l0.len(),
        after.subrange(0, l0.len() as int) == l0,
{
    if after != before {
        assert(after.subrange(0, l0.len() as int) =~= before.subrange(0, l0.len() as int));
    }
}

proof fn lemma_keep_prefix(m0: Seq<Message>, before: Seq<Message>, after: Seq<Message>, round: nat, added: bool)
    requires
        before.len() >= m0.len(),
        before.subrange(0, m0.len() as int) == m0,
        assistant_count(before.subrange(m0.len() as int, before.len() as int)) == round,
        after == before || (after.len() == before.len() + 1 && after.drop_last() == before && after.last().sender
            == MessageRole::Assistant),
        added ==> after != before,
    ensures
        after.len() >= m0.len(),
        after.subrange(0, m0.len() as int) == m0,
        after != before ==> assistant_count(after.subrange(m0.len() as int, after.len() as int)) == round + 1,
        after == before ==> assistant_count(after.subrange(m0.len() as int, after.len() as int)) == round,
{
    if after != before {
        assert(after.subrange(0, m0.len() as int) =~= before.subrange(0, m0.len() as int));
        assert(after.subrange(m0.len() as int, after.len() as int) =~= before.subrange(m0.len() as int, before.len() as int).push(
            after.last(),
        ));
        lemma_count_push(before.subrange(m0.len() as int, before.len() as int), after.last());
    }
}

} // verus!
