//! One turn of a character in a conversation, as the application streams
//! it: each round stores a draft answer, takes what the model streamed, and
//! either ends the turn or stores the results of the tool calls the model
//! made and goes on from the last of them. Streaming and running tools are
//! the application's; what is stored and what comes next is decided here.
use vstd::prelude::*;

use crate::character::Character;
use crate::chat::{
    chat_error_text, msg_ids, msg_index, path_outcome, stored_message, stored_with, Chat, ChatError, MessageOrigin, OriginModel,
};
use crate::messages::MessageSource;
use crate::json::{json_text, to_json_string, Json};
use crate::messages::{role_named, Message, MessageRole};
use crate::provider::{lemma_key_index_bounds, Provider};
use crate::registry::{def_key, defs_view, ToolDefinition};
use crate::rounds::{
    build_enabled_tools_prompt, enabled_tools_prompt, model_uses_tools, runnable_calls, select_round_calls,
    supports_native_tools, system_prompt, system_prompt_of,
};
use crate::order::sort_with;
use crate::text::{owned, push_str};
use crate::tool_parser::{calls_agree, cleanup_fences, parse_tool_calls, parsed_calls, parsed_text};
use crate::send::store_children;
use crate::tools::{call_json, calls_to_json, format_tool_result, opt_view, tool_result_text, ConversationToolCall};

verus! {

broadcast use vstd::string::group_string_axioms;

/// Where a turn stands: its conversation, the leaf it goes on from, the
/// round it is in (counted from zero), the draft answer of that round, and
/// how many rounds the turn may take.
#[derive(Debug)]
pub struct Turn {
    pub conversation_id: String,
    pub leaf: String,
    pub round: usize,
    pub assistant_id: String,
    pub max_rounds: usize,
}

/// What a round sends to the model: the thread path, the system prompt,
/// and the tools offered natively.
#[derive(Debug)]
pub struct RoundRequest {
    pub messages: Vec<Message>,
    pub system_prompt: Option<String>,
    pub native_tools: Vec<ToolDefinition>,
}

/// What comes after a round.
#[derive(Debug)]
pub enum TurnStep {
    /// The turn is over; its last answer is this message.
    Complete(String),
    /// Run these calls, then store their results.
    RunTools(Vec<ConversationToolCall>),
}

/// The tools prompt of a round: none where the model takes tools natively.
pub open spec fn round_tools_prompt(native: bool, enabled: Seq<ToolDefinition>) -> Seq<char> {
    if native {
        Seq::empty()
    } else {
        enabled_tools_prompt(sort_with(defs_view(enabled), def_key()))
    }
}

/// The text of a failed path.
pub open spec fn path_failure(conversation_id: Seq<char>, leaf: Seq<char>, e: ChatError) -> Seq<char> {
    "Failed to build message path for conversation '"@ + conversation_id + "' from leaf '"@ + leaf + "': "@
        + chat_error_text(e)
}

/// The calls a round runs: the model's native calls, where it made any,
/// else the runnable calls written into its text.
pub open spec fn round_calls(parsed: Seq<ConversationToolCall>, native: Seq<ConversationToolCall>) -> Seq<ConversationToolCall> {
    if native.len() > 0 {
        native
    } else {
        runnable_calls(parsed)
    }
}

/// The origin of a stored tool result: nobody's in particular, at `now`.
pub open spec fn tool_origin(now: i64) -> OriginModel {
    OriginModel { source: MessageSource::UserPrompted, pal_id: None, pal_name: None, timestamp: now }
}

/// The origin of a round's draft answer: the character that answers, if
/// any, at `now`.
pub open spec fn draft_origin(character: Option<&Character>, now: i64) -> OriginModel {
    match character {
        Some(c) => OriginModel {
            source: MessageSource::UserPrompted,
            pal_id: Some(c.id@),
            pal_name: Some(c.name@),
            timestamp: now,
        },
        None => tool_origin(now),
    }
}

/// The views of a run of ids.
pub open spec fn id_views(ids: Seq<String>) -> Seq<Seq<char>> {
    ids.map_values(|s: String| s@)
}

/// Whether each of `ids` is new to the stored messages and to the others.
pub open spec fn fresh_ids(msgs: Seq<Message>, ids: Seq<Seq<char>>) -> bool {
    &&& forall|k: int| 0 <= k < ids.len() ==> !msg_ids(msgs).contains(#[trigger] ids[k])
    &&& forall|a: int, b: int| 0 <= a < b < ids.len() ==> #[trigger] ids[a] != #[trigger] ids[b]
}

proof fn reveal_roles()
    ensures
        role_named("assistant"@) == Some(MessageRole::Assistant),
        role_named("tool"@) == Some(MessageRole::Tool),
{
    reveal_strlit("user");
    reveal_strlit("assistant");
    reveal_strlit("bot");
    reveal_strlit("system");
    reveal_strlit("tool");
    assert("user"@.len() == 4);
    assert("assistant"@.len() == 9);
    assert("bot"@.len() == 3);
    assert("system"@.len() == 6);
    assert("tool"@.len() == 4);
    assert("tool"@[0] == 't' && "user"@[0] == 'u');
}

impl Turn {
    /// Whether the turn is in its last allowed round.
    pub open spec fn at_last_round(&self) -> bool {
        self.round + 1 >= self.max_rounds
    }

    /// A turn going on from `leaf`, in its first round, that may take
    /// `max_tool_rounds` rounds (at least one).
    pub fn new(conversation_id: String, leaf: String, max_tool_rounds: usize) -> (r: Turn)
        ensures
            r.conversation_id == conversation_id,
            r.leaf == leaf,
            r.round == 0,
            r.max_rounds == if max_tool_rounds == 0 {
                1
            } else {
                max_tool_rounds
            },
    {
        let max_rounds = if max_tool_rounds == 0 {
            1
        } else {
            max_tool_rounds
        };
        Turn { conversation_id, leaf, round: 0, assistant_id: String::new(), max_rounds }
    }

    /// Starts a round: reads the thread path to the leaf, and stores the
    /// draft answer `assistant_id` (empty, from the assistant) under the
    /// leaf. The system prompt is the character's and, where the model does
    /// not take tools natively, the enabled tools'; natively, the enabled
    /// tools are offered instead.
    pub fn begin_round(
        &mut self,
        chat: &mut Chat,
        character: Option<&Character>,
        provider: &Provider,
        model: &str,
        enabled_tools: &[ToolDefinition],
        assistant_id: String,
        now: i64,
    ) -> (r: Result<RoundRequest, String>)
        ensures
            final(self).conversation_id == old(self).conversation_id,
            final(self).leaf == old(self).leaf,
            final(self).round == old(self).round,
            final(self).max_rounds == old(self).max_rounds,
            final(chat).convs() == old(chat).convs(),
            match r {
                Err(m) => {
                    ||| (exists|e: ChatError|
                        path_outcome(*old(chat), old(self).conversation_id@, old(self).leaf@, Err(e)) && m@ == path_failure(
                            old(self).conversation_id@,
                            old(self).leaf@,
                            e,
                        )) && *final(chat) == *old(chat)
                    ||| (exists|e: ChatError| m@ == #[trigger] chat_error_text(e)) && msg_index(old(chat).msgs(), assistant_id@)
                        is Some && final(chat).msgs() == old(chat).msgs() && final(chat).links() == old(chat).links()
                },
                Ok(req) => {
                    &&& path_outcome(*old(chat), old(self).conversation_id@, old(self).leaf@, Ok(req.messages))
                    &&& opt_view(req.system_prompt) == system_prompt_of(
                        match character {
                            Some(c) => Some(c.system_prompt@),
                            None => None,
                        },
                        round_tools_prompt(model_uses_tools(*provider, model@), enabled_tools@),
                    )
                    &&& defs_view(req.native_tools@) == if model_uses_tools(*provider, model@) {
                        defs_view(enabled_tools@)
                    } else {
                        Seq::empty()
                    }
                    &&& final(self).assistant_id@ == assistant_id@
                    &&& msg_index(old(chat).msgs(), assistant_id@) is None
                    &&& final(chat).msgs() == old(chat).msgs().push(final(chat).msgs().last())
                    &&& stored_with(
                        final(chat).msgs().last(),
                        assistant_id@,
                        Seq::empty(),
                        None,
                        MessageRole::Assistant,
                        None,
                        None,
                        draft_origin(character, now),
                    )
                    &&& final(chat).links().len() == old(chat).links().len() + 1
                    &&& final(chat).links().drop_last() == old(chat).links()
                    &&& final(chat).links().last().id@ == assistant_id@
                    &&& opt_view(final(chat).links().last().parent) == Some(old(self).leaf@)
                },
            },
    {
        let messages = match chat.get_message_path_to(self.conversation_id.as_str(), self.leaf.as_str()) {
            Ok(p) => p,
            Err(e) => {
                let mut m = owned("Failed to build message path for conversation '");
                push_str(&mut m, self.conversation_id.as_str());
                push_str(&mut m, "' from leaf '");
                push_str(&mut m, self.leaf.as_str());
                push_str(&mut m, "': ");
                let t = e.to_text();
                push_str(&mut m, t.as_str());
                proof {
                    reveal_strlit("Failed to build message path for conversation '");
                    reveal_strlit("' from leaf '");
                    reveal_strlit("': ");
                    assert(m@ =~= path_failure(self.conversation_id@, self.leaf@, e));
                    assert(path_outcome(*old(chat), self.conversation_id@, self.leaf@, Err(e)));
                }
                return Err(m);
            },
        };
        let native = supports_native_tools(provider, model);
        let tools_prompt = if native {
            String::new()
        } else {
            build_enabled_tools_prompt(enabled_tools)
        };
        let prompt = system_prompt(character, tools_prompt.as_str());
        let mut native_tools: Vec<ToolDefinition> = Vec::new();
        if native {
            let mut i: usize = 0;
            while i < enabled_tools.len()
                invariant
                    i <= enabled_tools@.len(),
                    defs_view(native_tools@) == defs_view(enabled_tools@.take(i as int)),
                decreases enabled_tools.len() - i,
            {
                let ghost before = native_tools@;
                native_tools.push(enabled_tools[i].clone());
                proof {
                    assert(defs_view(native_tools@) =~= defs_view(before).push(enabled_tools@[i as int]@));
                    assert(defs_view(enabled_tools@.take(i + 1)) =~= defs_view(enabled_tools@.take(i as int)).push(
                        enabled_tools@[i as int]@,
                    ));
                }
                i = i + 1;
            }
            proof {
                assert(enabled_tools@.take(i as int) =~= enabled_tools@);
            }
        } else {
            proof {
                assert(defs_view(native_tools@) =~= Seq::empty());
            }
        }
        let sender = MessageRole::Assistant.to_string();
        proof {
            reveal_roles();
        }
        let origin = match character {
            Some(c) => MessageOrigin {
                source: MessageSource::UserPrompted,
                pal_id: Some(c.id.clone()),
                pal_name: Some(c.name.clone()),
                timestamp: now,
            },
            None => MessageOrigin { source: MessageSource::UserPrompted, pal_id: None, pal_name: None, timestamp: now },
        };
        match chat.add_message_from(
            self.conversation_id.as_str(),
            assistant_id.as_str(),
            "",
            None,
            sender.as_str(),
            Some(self.leaf.as_str()),
            None,
            None,
            origin,
        ) {
            Ok(()) => {},
            Err(e) => {
                let t = e.to_text();
                return Err(t);
            },
        }
        proof {
            assert(""@ =~= Seq::<char>::empty()) by {
                reveal_strlit("");
            }
            assert(chat.msgs() =~= old(chat).msgs().push(chat.msgs().last()));
        }
        self.assistant_id = assistant_id;
        Ok(RoundRequest { messages, system_prompt: prompt, native_tools })
    }

    /// Ends a round with what the model streamed: its text without the
    /// calls written into it becomes the draft's text, its reasoning (where
    /// any) the draft's reasoning, and the draft the leaf. Without calls the
    /// turn is complete; with calls in the last round it fails; otherwise
    /// the calls are to be run.
    pub fn finish_round(
        &mut self,
        chat: &mut Chat,
        text: &str,
        reasoning: &str,
        native_calls: Vec<ConversationToolCall>,
    ) -> (r: Result<TurnStep, String>)
        ensures
            final(self).conversation_id == old(self).conversation_id,
            final(self).round == old(self).round,
            final(self).max_rounds == old(self).max_rounds,
            final(self).assistant_id == old(self).assistant_id,
            final(self).leaf@ == old(self).assistant_id@,
            final(chat).convs() == old(chat).convs(),
            final(chat).links() == old(chat).links(),
            final(chat).msgs().len() == old(chat).msgs().len(),
            match msg_index(old(chat).msgs(), old(self).assistant_id@) {
                Some(i) => {
                    &&& final(chat).msgs()[i].id@ == old(self).assistant_id@
                    &&& final(chat).msgs()[i].text@ == cleanup_fences(parsed_text(text@))
                    &&& final(chat).msgs()[i].sender == old(chat).msgs()[i].sender
                    &&& opt_view(final(chat).msgs()[i].tool_calls) == opt_view(old(chat).msgs()[i].tool_calls)
                    &&& reasoning@.len() > 0 ==> opt_view(final(chat).msgs()[i].reasoning) == Some(reasoning@)
                    &&& reasoning@.len() == 0 ==> opt_view(final(chat).msgs()[i].reasoning) == opt_view(
                        old(chat).msgs()[i].reasoning,
                    )
                    &&& forall|j: int| 0 <= j < old(chat).msgs().len() && j != i ==> #[trigger] final(chat).msgs()[j] == old(chat).msgs()[j]
                },
                None => final(chat).msgs() == old(chat).msgs(),
            },
            exists|p: Seq<ConversationToolCall>|
                calls_agree(p, parsed_calls(text@)) && {
                    let calls = round_calls(p, native_calls@);
                    &&& calls.len() == 0 ==> (r matches Ok(TurnStep::Complete(l)) && l@ == old(self).assistant_id@)
                    &&& calls.len() > 0 && old(self).at_last_round() ==> (r matches Err(m) && m@
                        == "Max tool rounds reached for conversation '"@ + old(self).conversation_id@ + "'"@)
                    &&& calls.len() > 0 && !old(self).at_last_round() ==> (r matches Ok(TurnStep::RunTools(c))
                        && c@ == calls)
                },
    {
        let parsed = parse_tool_calls(text);
        let ghost p = parsed.calls@;
        let calls = select_round_calls(parsed.calls, native_calls);
        let ghost m0 = chat.msgs();
        let _ = chat.update_message(self.assistant_id.as_str(), parsed.clean_text.as_str());
        let ghost m1 = chat.msgs();
        proof {
            lemma_key_index_bounds(msg_ids(m0), self.assistant_id@, 0);
            assert(msg_ids(m1) =~= msg_ids(m0));
        }
        if !reasoning.is_empty() {
            let _ = chat.messages_manager.update_reasoning(self.assistant_id.as_str(), reasoning);
        }
        self.leaf = self.assistant_id.clone();
        if calls.len() == 0 {
            return Ok(TurnStep::Complete(self.leaf.clone()));
        }
        if self.round >= self.max_rounds || self.max_rounds - self.round <= 1 {
            let mut m = owned("Max tool rounds reached for conversation '");
            push_str(&mut m, self.conversation_id.as_str());
            push_str(&mut m, "'");
            return Err(m);
        }
        Ok(TurnStep::RunTools(calls))
    }

    /// Stores the completed calls with the round's answer and each result
    /// as a tool message `tool_ids[i]` under it; the last of them becomes
    /// the leaf and the next round begins. It succeeds exactly where the
    /// tool message ids are new to the store and to each other; otherwise
    /// the first id that is not fails it, with the results before it stored.
    pub fn store_results(
        &mut self,
        chat: &mut Chat,
        completed: &Vec<ConversationToolCall>,
        tool_ids: &Vec<String>,
        now: i64,
    ) -> (r: Result<
        (),
        String,
    >)
        requires
            tool_ids@.len() == completed@.len(),
            !old(self).at_last_round(),
        ensures
            final(self).conversation_id == old(self).conversation_id,
            final(self).assistant_id == old(self).assistant_id,
            final(self).max_rounds == old(self).max_rounds,
            final(chat).convs() == old(chat).convs(),
            final(chat).msgs().len() >= old(chat).msgs().len(),
            final(chat).links().len() >= old(chat).links().len(),
            final(chat).links().subrange(0, old(chat).links().len() as int) == old(chat).links(),
            forall|j: int|
                0 <= j < old(chat).msgs().len() && Some(j) != msg_index(old(chat).msgs(), old(self).assistant_id@)
                    ==> #[trigger] final(chat).msgs()[j] == old(chat).msgs()[j],
            match msg_index(old(chat).msgs(), old(self).assistant_id@) {
                Some(i) => opt_view(final(chat).msgs()[i].tool_calls) == Some(
                    json_text(Json::Array(completed@.map_values(|c: ConversationToolCall| call_json(c)))),
                ) && final(chat).msgs()[i].id@ == old(self).assistant_id@,
                None => true,
            },
            r is Ok <==> fresh_ids(old(chat).msgs(), id_views(tool_ids@)),
            r matches Err(m) ==> final(self).round == old(self).round && exists|k: int|
                0 <= k < tool_ids@.len() && fresh_ids(old(chat).msgs(), id_views(tool_ids@).take(k)) && !fresh_ids(
                    old(chat).msgs(),
                    #[trigger] id_views(tool_ids@).take(k + 1),
                ) && m@ == chat_error_text(ChatError::DuplicateMessage(tool_ids@[k])),
            r is Ok ==> {
                &&& final(self).round == old(self).round + 1
                &&& final(chat).msgs().len() == old(chat).msgs().len() + completed@.len()
                &&& forall|k: int|
                    0 <= k < completed@.len() ==> stored_with(
                        #[trigger] final(chat).msgs()[old(chat).msgs().len() + k],
                        tool_ids@[k]@,
                        tool_result_text(completed@[k]),
                        None,
                        MessageRole::Tool,
                        None,
                        None,
                        tool_origin(now),
                    )
                &&& completed@.len() > 0 ==> final(self).leaf@ == tool_ids@.last()@
                &&& completed@.len() == 0 ==> final(self).leaf == old(self).leaf
            },
    {
        let r = store_tool_results(chat, self.conversation_id.as_str(), self.assistant_id.as_str(), completed, tool_ids, now);
        match r {
            Err(e) => {
                proof {
                    let k = choose|k: int|
                        0 <= k < tool_ids@.len() && fresh_ids(old(chat).msgs(), id_views(tool_ids@).take(k)) && !fresh_ids(
                            old(chat).msgs(),
                            #[trigger] id_views(tool_ids@).take(k + 1),
                        ) && final(chat).msgs().len() == old(chat).msgs().len() + k && (e matches ChatError::DuplicateMessage(d)
                            && d@ == tool_ids@[k]@);
                    assert(chat_error_text(e) =~= chat_error_text(ChatError::DuplicateMessage(tool_ids@[k])));
                }
                Err(e.to_text())
            },
            Ok(()) => {
                if completed.len() > 0 {
                    self.leaf = tool_ids[completed.len() - 1].clone();
                }
                self.round = self.round + 1;
                Ok(())
            },
        }
    }
}

/// Stores the completed calls with the answer `answer_id` and each result
/// as a tool message `tool_ids[k]` under it, in order. It succeeds exactly
/// where the tool message ids are new to the store and to each other;
/// otherwise the first id that is not fails it, with the results before it
/// stored.
pub fn store_tool_results(
    chat: &mut Chat,
    conversation_id: &str,
    answer_id: &str,
    completed: &Vec<ConversationToolCall>,
    tool_ids: &Vec<String>,
    now: i64,
) -> (r: Result<(), ChatError>)
    requires
        tool_ids@.len() == completed@.len(),
    ensures
        final(chat).convs() == old(chat).convs(),
        old(chat).msgs().len() <= final(chat).msgs().len() <= old(chat).msgs().len() + completed@.len(),
        final(chat).links().len() == old(chat).links().len() + (final(chat).msgs().len() - old(chat).msgs().len()),
        final(chat).links().subrange(0, old(chat).links().len() as int) == old(chat).links(),
        forall|j: int|
            0 <= j < old(chat).msgs().len() && Some(j) != msg_index(old(chat).msgs(), answer_id@)
                ==> #[trigger] final(chat).msgs()[j] == old(chat).msgs()[j],
        match msg_index(old(chat).msgs(), answer_id@) {
            Some(i) => opt_view(final(chat).msgs()[i].tool_calls) == Some(
                json_text(Json::Array(completed@.map_values(|c: ConversationToolCall| call_json(c)))),
            ) && final(chat).msgs()[i].id@ == answer_id@ && final(chat).msgs()[i].sender == old(chat).msgs()[i].sender,
            None => true,
        },
        forall|k: int|
            0 <= k < final(chat).msgs().len() - old(chat).msgs().len() ==> stored_with(
                #[trigger] final(chat).msgs()[old(chat).msgs().len() + k],
                tool_ids@[k]@,
                tool_result_text(completed@[k]),
                None,
                MessageRole::Tool,
                None,
                None,
                tool_origin(now),
            ) && final(chat).links()[old(chat).links().len() + k].id@ == tool_ids@[k]@ && opt_view(
                final(chat).links()[old(chat).links().len() + k].parent,
            ) == Some(answer_id@),
        r is Ok <==> fresh_ids(old(chat).msgs(), id_views(tool_ids@)),
        r is Ok ==> final(chat).msgs().len() == old(chat).msgs().len() + completed@.len(),
        r matches Err(e) ==> exists|k: int|
            0 <= k < tool_ids@.len() && fresh_ids(old(chat).msgs(), id_views(tool_ids@).take(k)) && !fresh_ids(
                old(chat).msgs(),
                #[trigger] id_views(tool_ids@).take(k + 1),
            ) && final(chat).msgs().len() == old(chat).msgs().len() + k && (e matches ChatError::DuplicateMessage(d)
                && d@ == tool_ids@[k]@),
{
    let ghost m0 = chat.msgs();
    let json = to_json_string(&calls_to_json(completed));
    let _ = chat.messages_manager.update_tool_calls(answer_id, json.as_str());
    let ghost m1 = chat.msgs();
    proof {
        lemma_key_index_bounds(msg_ids(m0), answer_id@, 0);
        assert(msg_ids(m1) =~= msg_ids(m0));
        if let Some(i) = msg_index(m0, answer_id@) {
            assert forall|j: int| 0 <= j < m0.len() && j != i implies #[trigger] m1[j] == m0[j] by {}
        }
    }
    let mut texts: Vec<String> = Vec::new();
    let mut origins: Vec<MessageOrigin> = Vec::new();
    let mut k: usize = 0;
    while k < completed.len()
        invariant
            k <= completed@.len(),
            texts@.len() == k,
            origins@.len() == k,
            forall|j: int| 0 <= j < k ==> (#[trigger] texts@[j])@ == tool_result_text(completed@[j]),
            forall|j: int| 0 <= j < k ==> (#[trigger] origins@[j])@ == tool_origin(now),
        decreases completed.len() - k,
    {
        let ghost b = texts@;
        let ghost bo = origins@;
        texts.push(format_tool_result(&completed[k]));
        origins.push(MessageOrigin { source: MessageSource::UserPrompted, pal_id: None, pal_name: None, timestamp: now });
        proof {
            assert(origins@[k as int]@ == tool_origin(now));
            assert(texts@[k as int]@ == tool_result_text(completed@[k as int]));
            assert forall|j: int| 0 <= j < k + 1 implies (#[trigger] origins@[j])@ == tool_origin(now) by {
                if j < k {
                    assert(origins@[j] == bo[j]);
                }
            }
            assert forall|j: int| 0 <= j < k + 1 implies (#[trigger] texts@[j])@ == tool_result_text(completed@[j]) by {
                if j < k {
                    assert(texts@[j] == b[j]);
                }
            }
        }
        k = k + 1;
    }
    let r = store_children(chat, conversation_id, answer_id, tool_ids, &texts, MessageRole::Tool, &origins);
    proof {
        let fin = chat.msgs();
        assert(id_views(tool_ids@) == id_views(tool_ids@));
        assert forall|j: int| 0 <= j < m1.len() implies #[trigger] fin[j] == m1[j] by {
            assert(fin.subrange(0, m1.len() as int)[j] == fin[j]);
        }
    }
    r
}

} // verus!
