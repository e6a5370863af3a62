//! The decisions of a conversation turn: which tools a model is offered and
//! how, what the system prompt says, which calls a round makes, whether the
//! turn goes on, and which characters a conversation has unlocked.
use vstd::prelude::*;

use crate::character::Character;
use crate::json::{json_as_str, json_get, json_str_field, Json, JsonValue};
use crate::model::{ModelInfo, TextModelCapability};
use crate::order::{sort_with, str_key};
use crate::orchestrator::PalReply;
use crate::provider::{model_index, Provider};
use crate::registry::{
    def_key, defs_view, prop_lines, schema_prop_lines, sort_definitions, DefinitionModel, ToolDefinition,
};
use crate::text::{is_ws, join, join_strings, owned, push_str, str_eq, trim, trim_string, views};
use crate::registry::{name_set, unique_strings};
use crate::tools::ConversationToolCall;

verus! {

broadcast use vstd::string::group_string_axioms;

/// The detail of a tool parameter: its description, else its type, else
/// `unknown`, followed by its string enum values where it has any.
pub open spec fn param_detail(p: Json) -> Seq<char> {
    let base = match json_str_field(p, "description"@) {
        Some(d) => d,
        None => match json_str_field(p, "type"@) {
            Some(t) => t,
            None => "unknown"@,
        },
    };
    let values = match json_get(p, "enum"@) {
        Some(Json::Array(items)) => string_items(items),
        _ => Seq::empty(),
    };
    if values.len() > 0 {
        base + " (enum: "@ + join(values, ", "@) + ")"@
    } else {
        base
    }
}

/// The strings among `items`, in order.
pub open spec fn string_items(items: Seq<Json>) -> Seq<Seq<char>>
    decreases items.len(),
{
    if items.len() == 0 {
        Seq::empty()
    } else {
        match json_as_str(items.last()) {
            Some(s) => string_items(items.drop_last()).push(s),
            None => string_items(items.drop_last()),
        }
    }
}

/// The line that describes one tool parameter: `      - name: detail`.
pub fn format_tool_parameter_line(name: &str, property: &JsonValue) -> (r: String)
    ensures
        r@ == "      - "@ + name@ + ": "@ + param_detail(property@),
{
    let mut detail = match property.str_field("description") {
        Some(d) => d.clone(),
        None => match property.str_field("type") {
            Some(t) => t.clone(),
            None => owned("unknown"),
        },
    };
    let mut values: Vec<String> = Vec::new();
    match property.get("enum") {
        Some(e) => match e {
            JsonValue::Array(items) => {
                proof {
                    crate::json::lemma_array_model(*e, *items);
                }
                let ghost model = crate::json::json_seq(items@);
                let mut i: usize = 0;
                while i < items.len()
                    invariant
                        i <= items@.len(),
                        model == crate::json::json_seq(items@),
                        views(values@) == string_items(model.take(i as int)),
                    decreases items.len() - i,
                {
                    proof {
                        assert(model.take(i + 1).drop_last() =~= model.take(i as int));
                        assert(model.take(i + 1).last() == items@[i as int]@);
                    }
                    match items[i].as_str() {
                        Some(s) => {
                            let ghost before = values@;
                            values.push(s.clone());
                            assert(views(values@) =~= views(before).push(s@));
                        },
                        None => {},
                    }
                    i = i + 1;
                }
                proof {
                    assert(model.take(i as int) =~= model);
                }
            },
            _ => {},
        },
        None => {},
    }
    if values.len() > 0 {
        push_str(&mut detail, " (enum: ");
        push_str(&mut detail, join_strings(values.as_slice(), ", ").as_str());
        push_str(&mut detail, ")");
    }
    let mut line = owned("      - ");
    push_str(&mut line, name);
    push_str(&mut line, ": ");
    push_str(&mut line, detail.as_str());
    line
}

/// The block that presents one enabled tool: `  - **name**: description`
/// and its parameters, one per line.
pub open spec fn tool_block(d: DefinitionModel) -> Seq<char> {
    join(
        seq!["  - **"@ + d.name + "**: "@ + crate::registry::desc_text(d)] + prop_lines(d.input_schema, "    - "@, "unknown"@),
        "\n"@,
    )
}

pub open spec fn enabled_prompt_head() -> Seq<char> {
    "## Available Tools\n\nYou have access to the following tools. Use them via <|tool_calls|> when appropriate.\n\n### Tool List\n\n"@
}

pub open spec fn enabled_prompt_tail() -> Seq<char> {
    "\n\n### How to Call\n\nWrap a JSON array of tool calls in `<|tool_calls|>` tags:\n\n<|tool_calls|>\n[{\"name\":\"tool_name\",\"arguments\":{\"param\":\"value\"}}]\n<|/tool_calls|>\n"@
}

/// The prompt for the given tools in the order given: nothing where there
/// are none, else their blocks, separated by blank lines, between the
/// header and the calling convention.
pub open spec fn enabled_tools_prompt(ts: Seq<DefinitionModel>) -> Seq<char> {
    if ts.len() == 0 {
        Seq::empty()
    } else {
        enabled_prompt_head() + join(ts.map_values(|d: DefinitionModel| tool_block(d)), "\n\n"@) + enabled_prompt_tail()
    }
}

/// The tools prompt of a turn whose model does not call tools natively:
/// the tools in name order (see `enabled_tools_prompt`).
pub fn build_enabled_tools_prompt(enabled_tools: &[ToolDefinition]) -> (r: String)
    ensures
        r@ == enabled_tools_prompt(sort_with(defs_view(enabled_tools@), def_key())),
{
    let mut copies: Vec<ToolDefinition> = Vec::new();
    let mut i: usize = 0;
    while i < enabled_tools.len()
        invariant
            i <= enabled_tools@.len(),
            defs_view(copies@) == defs_view(enabled_tools@.take(i as int)),
        decreases enabled_tools.len() - i,
    {
        let ghost before = copies@;
        let d = enabled_tools[i].clone();
        let ghost dv = d@;
        copies.push(d);
        proof {
            assert(defs_view(copies@) =~= defs_view(before).push(dv));
            assert(enabled_tools@.take(i + 1) =~= enabled_tools@.take(i as int).push(enabled_tools@[i as int]));
            assert(defs_view(enabled_tools@.take(i + 1)) =~= defs_view(enabled_tools@.take(i as int)).push(enabled_tools@[i as int]@));
        }
        i = i + 1;
    }
    proof {
        assert(enabled_tools@.take(i as int) =~= enabled_tools@);
    }
    let tools = sort_definitions(copies);
    let ghost ts = defs_view(tools@);
    if tools.len() == 0 {
        return String::new();
    }
    let mut blocks: Vec<String> = Vec::new();
    let mut k: usize = 0;
    while k < tools.len()
        invariant
            k <= tools@.len(),
            ts == defs_view(tools@),
            views(blocks@) == ts.take(k as int).map_values(|d: DefinitionModel| tool_block(d)),
        decreases tools.len() - k,
    {
        let t = &tools[k];
        let mut lines: Vec<String> = Vec::new();
        let mut head = owned("  - **");
        push_str(&mut head, t.name.as_str());
        push_str(&mut head, "**: ");
        match &t.description {
            Some(d) => push_str(&mut head, d.as_str()),
            None => push_str(&mut head, "No description"),
        }
        lines.push(head);
        let ghost hv = lines@;
        let mut props = schema_prop_lines(&t.input_schema, "    - ", "unknown");
        lines.append(&mut props);
        let block = join_strings(lines.as_slice(), "\n");
        proof {
            assert(ts[k as int] == t@);
            assert(views(lines@) =~= seq!["  - **"@ + t@.name + "**: "@ + crate::registry::desc_text(t@)] + prop_lines(
                t@.input_schema,
                "    - "@,
                "unknown"@,
            ));
        }
        let ghost before = blocks@;
        blocks.push(block);
        proof {
            assert(views(blocks@) =~= views(before).push(tool_block(ts[k as int])));
            assert(ts.take(k + 1).map_values(|d: DefinitionModel| tool_block(d)) =~= ts.take(k as int).map_values(
                |d: DefinitionModel| tool_block(d),
            ).push(tool_block(ts[k as int])));
        }
        k = k + 1;
    }
    proof {
        assert(ts.take(k as int) =~= ts);
    }
    let mut out = owned(
        "## Available Tools\n\nYou have access to the following tools. Use them via <|tool_calls|> when appropriate.\n\n### Tool List\n\n",
    );
    push_str(&mut out, join_strings(blocks.as_slice(), "\n\n").as_str());
    push_str(
        &mut out,
        "\n\n### How to Call\n\nWrap a JSON array of tool calls in `<|tool_calls|>` tags:\n\n<|tool_calls|>\n[{\"name\":\"tool_name\",\"arguments\":{\"param\":\"value\"}}]\n<|/tool_calls|>\n",
    );
    out
}

/// Whether the provider's model of that name is a text model that uses tools.
pub open spec fn model_uses_tools(provider: Provider, model: Seq<char>) -> bool {
    match model_index(provider.models@, model) {
        Some(i) => match provider.models@[i].model_info {
            ModelInfo::TextGeneration { capabilities, .. } => capabilities@.contains(TextModelCapability::ToolUse),
            _ => false,
        },
        None => false,
    }
}

fn has_capability(caps: &Vec<TextModelCapability>, c: TextModelCapability) -> (r: bool)
    ensures
        r == caps@.contains(c),
{
    let mut i: usize = 0;
    while i < caps.len()
        invariant
            i <= caps@.len(),
            forall|j: int| 0 <= j < i ==> caps@[j] != c,
        decreases caps.len() - i,
    {
        if caps[i] == c {
            assert(caps@[i as int] == c);
            return true;
        }
        i = i + 1;
    }
    false
}

/// Whether a turn offers tools to the model natively rather than in the
/// system prompt.
pub fn supports_native_tools(provider: &Provider, model: &str) -> (r: bool)
    ensures
        r == model_uses_tools(*provider, model@),
{
    match provider.get_model(model) {
        Some(m) => match &m.model_info {
            ModelInfo::TextGeneration { capabilities, .. } => has_capability(capabilities, TextModelCapability::ToolUse),
            _ => false,
        },
        None => false,
    }
}


/// The system prompt of a turn: the character's prompt, trimmed, and the
/// tools prompt, each where not empty, separated by a blank line; none
/// where both are empty.
pub open spec fn system_prompt_of(character_prompt: Option<Seq<char>>, tools_prompt: Seq<char>) -> Option<Seq<char>> {
    let first = match character_prompt {
        Some(p) => if trim(p).len() > 0 { seq![trim(p)] } else { Seq::empty() },
        None => Seq::empty(),
    };
    let sections = if tools_prompt.len() > 0 { first.push(tools_prompt) } else { first };
    if sections.len() == 0 {
        None
    } else {
        Some(join(sections, "\n\n"@))
    }
}

/// Builds the system prompt of a turn (see `system_prompt_of`).
pub fn system_prompt(character: Option<&Character>, tools_prompt: &str) -> (r: Option<String>)
    ensures
        match r {
            Some(s) => system_prompt_of(
                match character {
                    Some(c) => Some(c.system_prompt@),
                    None => None,
                },
                tools_prompt@,
            ) == Some(s@),
            None => system_prompt_of(
                match character {
                    Some(c) => Some(c.system_prompt@),
                    None => None,
                },
                tools_prompt@,
            ) is None,
        },
{
    let mut sections: Vec<String> = Vec::new();
    match character {
        Some(c) => {
            let p = trim_string(c.system_prompt.as_str());
            if !p.as_str().is_empty() {
                sections.push(p);
            }
        },
        None => {},
    }
    if !tools_prompt.is_empty() {
        sections.push(owned(tools_prompt));
    }
    proof {
        let cp = match character {
            Some(c) => Some(c.system_prompt@),
            None => None,
        };
        let first = match cp {
            Some(p) => if trim(p).len() > 0 { seq![trim(p)] } else { Seq::<Seq<char>>::empty() },
            None => Seq::<Seq<char>>::empty(),
        };
        let expected = if tools_prompt@.len() > 0 { first.push(tools_prompt@) } else { first };
        assert(views(sections@) =~= expected);
    }
    if sections.len() == 0 {
        None
    } else {
        Some(join_strings(sections.as_slice(), "\n\n"))
    }
}

/// Whether a call written into the reply text can be run: its name is not
/// blank and its arguments are an object.
pub open spec fn runnable(c: ConversationToolCall) -> bool {
    trim(c.name@).len() > 0 && c.arguments@ is Object
}

/// The runnable calls among `calls`, in order.
pub open spec fn runnable_calls(calls: Seq<ConversationToolCall>) -> Seq<ConversationToolCall>
    decreases calls.len(),
{
    if calls.len() == 0 {
        Seq::empty()
    } else if runnable(calls.last()) {
        runnable_calls(calls.drop_last()).push(calls.last())
    } else {
        runnable_calls(calls.drop_last())
    }
}

/// The calls a round makes: the native ones where the model made any,
/// else the runnable ones of its text.
pub fn select_round_calls(parsed: Vec<ConversationToolCall>, native: Vec<ConversationToolCall>) -> (r: Vec<ConversationToolCall>)
    ensures
        native@.len() > 0 ==> r@ == native@,
        native@.len() == 0 ==> r@ == runnable_calls(parsed@),
{
    if native.len() > 0 {
        return native;
    }
    let ghost orig = parsed@;
    let n = parsed.len();
    let mut rest = parsed;
    let mut out: Vec<ConversationToolCall> = Vec::new();
    let mut k: usize = 0;
    proof {
        assert(orig.take(0) =~= Seq::<ConversationToolCall>::empty());
        assert(rest@ =~= orig.skip(0));
    }
    while rest.len() > 0
        invariant
            k <= n,
            n == orig.len(),
            rest@ == orig.skip(k as int),
            out@ == runnable_calls(orig.take(k as int)),
        decreases rest.len(),
    {
        let c = rest.remove(0);
        proof {
            assert(rest@ =~= orig.skip(k + 1));
            assert(orig.take(k + 1).drop_last() =~= orig.take(k as int));
            assert(orig.take(k + 1).last() == c);
        }
        let name = trim_string(c.name.as_str());
        if !name.as_str().is_empty() && c.arguments.is_object() {
            out.push(c);
        }
        k = k + 1;
    }
    proof {
        assert(orig.take(k as int) =~= orig);
    }
    out
}

/// What a turn does after a round.
#[derive(Debug, Clone, PartialEq, Eq)]
pub enum RoundStep {
    /// The reply made no calls: the turn is complete.
    Complete,
    /// The reply made calls but the last round is spent: the turn fails
    /// with this message.
    Fail(String),
    /// Run the calls and go on with the next round.
    RunTools,
}

/// Decides the next step after round `round` (counted from 0) of a turn
/// whose last round is `last_round`.
pub fn decide_round(round: u32, last_round: u32, calls_empty: bool) -> (r: RoundStep)
    ensures
        calls_empty ==> r == RoundStep::Complete,
        !calls_empty && round == last_round ==> (r matches RoundStep::Fail(m) && m@ == "Max tool rounds reached"@),
        !calls_empty && round != last_round ==> r == RoundStep::RunTools,
{
    if calls_empty {
        RoundStep::Complete
    } else if round == last_round {
        RoundStep::Fail(owned("Max tool rounds reached"))
    } else {
        RoundStep::RunTools
    }
}

/// The reasoning a reply keeps: none where the model gave none.
pub fn reasoning_of(reasoning: &str) -> (r: Option<String>)
    ensures
        reasoning@.len() == 0 ==> r is None,
        reasoning@.len() > 0 ==> (r matches Some(s) && s@ == reasoning@),
{
    if reasoning.is_empty() {
        None
    } else {
        Some(owned(reasoning))
    }
}

/// Whether a message goes to several characters: it names at least one.
pub fn uses_multi_pal(target_pal_ids: &Option<Vec<String>>) -> (r: bool)
    ensures
        r == (target_pal_ids matches Some(ids) && ids@.len() > 0),
{
    match target_pal_ids {
        Some(ids) => ids.len() > 0,
        None => false,
    }
}

/// The leaf a multi-character round ends on: the last reply, or the user
/// message where nobody replied.
pub fn round_leaf(replies: &[PalReply], user_message_id: &str) -> (r: String)
    ensures
        replies@.len() > 0 ==> r@ == replies@.last().message_id@,
        replies@.len() == 0 ==> r@ == user_message_id@,
{
    if replies.len() > 0 {
        replies[replies.len() - 1].message_id.clone()
    } else {
        owned(user_message_id)
    }
}

/// The characters each conversation has unlocked: those its messages
/// were addressed to. One entry per conversation, each name once.
pub struct UnlockedPals {
    pub entries: Vec<(String, Vec<String>)>,
}

pub open spec fn conversation_ids(es: Seq<(String, Vec<String>)>) -> Seq<Seq<char>> {
    es.map_values(|e: (String, Vec<String>)| e.0@)
}

impl UnlockedPals {
    /// One entry per conversation, each name once.
    pub open spec fn wf(&self) -> bool {
        &&& crate::provider::unique_names(conversation_ids(self.entries@))
        &&& forall|i: int| 0 <= i < self.entries@.len() ==> unique_strings((#[trigger] self.entries@[i]).1@)
    }

    /// The characters a conversation has unlocked.
    pub open spec fn pals(&self, conversation_id: Seq<char>) -> Set<Seq<char>> {
        match crate::json::key_index_from(conversation_ids(self.entries@), conversation_id, 0) {
            Some(i) => name_set(self.entries@[i].1@),
            None => Set::empty(),
        }
    }

    /// Whether the conversation has an entry.
    pub open spec fn has(&self, conversation_id: Seq<char>) -> bool {
        crate::json::key_index_from(conversation_ids(self.entries@), conversation_id, 0) is Some
    }

    /// No conversation has unlocked anybody.
    pub fn new() -> (r: Self)
        ensures
            r.wf(),
            forall|c: Seq<char>| !r.has(c) && r.pals(c) == Set::<Seq<char>>::empty(),
    {
        UnlockedPals { entries: Vec::new() }
    }

    fn find(&self, conversation_id: &str) -> (r: Option<usize>)
        ensures
            match r {
                Some(i) => crate::json::key_index_from(conversation_ids(self.entries@), conversation_id@, 0) == Some(i as int)
                    && i < self.entries@.len(),
                None => crate::json::key_index_from(conversation_ids(self.entries@), conversation_id@, 0) is None,
            },
    {
        let ghost ids = conversation_ids(self.entries@);
        let mut i: usize = 0;
        while i < self.entries.len()
            invariant
                i <= self.entries@.len(),
                ids == conversation_ids(self.entries@),
                forall|j: int| 0 <= j < i ==> ids[j] != conversation_id@,
            decreases self.entries.len() - i,
        {
            if str_eq(self.entries[i].0.as_str(), conversation_id) {
                proof {
                    crate::json::lemma_key_index_skip(ids, conversation_id@, i as int);
                }
                return Some(i);
            }
            i = i + 1;
        }
        proof {
            crate::json::lemma_key_index_skip(ids, conversation_id@, i as int);
        }
        None
    }

    /// The characters a conversation has unlocked.
    pub fn get(&self, conversation_id: &str) -> (r: Vec<String>)
        requires
            self.wf(),
        ensures
            name_set(r@) == self.pals(conversation_id@),
            unique_strings(r@),
    {
        match self.find(conversation_id) {
            Some(i) => {
                let v = self.entries[i].1.clone();
                assert(v@ =~= self.entries@[i as int].1@);
                v
            },
            None => {
                let v: Vec<String> = Vec::new();
                assert(name_set(v@) =~= Set::<Seq<char>>::empty());
                v
            },
        }
    }

    /// Whether the conversation has unlocked anybody yet.
    pub fn contains(&self, conversation_id: &str) -> (r: bool)
        ensures
            r == self.has(conversation_id@),
    {
        self.find(conversation_id).is_some()
    }

    /// Records the characters a message was addressed to: where it names
    /// any, they join the conversation's set; otherwise nothing changes.
    pub fn record(&mut self, conversation_id: &str, target_pal_ids: &Option<Vec<String>>)
        requires
            old(self).wf(),
        ensures
            final(self).wf(),
            match target_pal_ids {
                Some(ids) => if ids@.len() > 0 {
                    &&& final(self).has(conversation_id@)
                    &&& final(self).pals(conversation_id@) == old(self).pals(conversation_id@).union(name_set(ids@))
                    &&& forall|c: Seq<char>| c != conversation_id@ ==> final(self).has(c) == old(self).has(c)
                        && final(self).pals(c) == old(self).pals(c)
                } else {
                    final(self).entries@ == old(self).entries@
                },
                None => final(self).entries@ == old(self).entries@,
            },
    {
        let ids = match target_pal_ids {
            Some(ids) => ids,
            None => return,
        };
        if ids.len() == 0 {
            return;
        }
        let (mut set, at) = match self.find(conversation_id) {
            Some(i) => (self.entries[i].1.clone(), Some(i)),
            None => (Vec::new(), None),
        };
        let ghost start = set@;
        proof {
            match at {
                Some(i) => assert(start =~= self.entries@[i as int].1@),
                None => assert(name_set(start) =~= Set::<Seq<char>>::empty()),
            }
        }
        let mut k: usize = 0;
        while k < ids.len()
            invariant
                k <= ids@.len(),
                unique_strings(start),
                unique_strings(set@),
                name_set(set@) == name_set(start).union(name_set(ids@.take(k as int))),
            decreases ids.len() - k,
        {
            proof {
                assert(ids@.take(k + 1) =~= ids@.take(k as int).push(ids@[k as int]));
                crate::registry::lemma_name_set_push(ids@.take(k as int), ids@[k as int]);
            }
            crate::mcp_config::set_insert(&mut set, ids[k].clone());
            proof {
                assert(name_set(set@) =~= name_set(start).union(name_set(ids@.take(k + 1))));
            }
            k = k + 1;
        }
        proof {
            assert(ids@.take(k as int) =~= ids@);
        }
        let ghost old_entries = self.entries@;
        match at {
            Some(i) => {
                self.entries.set(i, (owned(conversation_id), set));
                proof {
                    crate::provider::lemma_key_index_bounds(conversation_ids(old_entries), conversation_id@, 0);
                    assert(conversation_ids(old_entries)[i as int] == conversation_id@);
                    assert(conversation_ids(self.entries@) =~= conversation_ids(old_entries));
                    assert forall|c: Seq<char>| c != conversation_id@ implies self.has(c) == old(self).has(c)
                        && self.pals(c) == old(self).pals(c) by {
                        match crate::json::key_index_from(conversation_ids(old_entries), c, 0) {
                            Some(j) => {
                                crate::provider::lemma_key_index_bounds(conversation_ids(old_entries), c, 0);
                                assert(j != i);
                            },
                            None => {},
                        }
                    }
                }
            },
            None => {
                self.entries.push((owned(conversation_id), set));
                proof {
                    assert(conversation_ids(self.entries@) =~= conversation_ids(old_entries).push(conversation_id@));
                    crate::provider::lemma_key_push_new(conversation_ids(old_entries), conversation_id@);
                    crate::provider::lemma_key_index_none(conversation_ids(old_entries), conversation_id@);
                    assert forall|c: Seq<char>| c != conversation_id@ implies self.has(c) == old(self).has(c)
                        && self.pals(c) == old(self).pals(c) by {
                        crate::provider::lemma_key_push_other(conversation_ids(old_entries), conversation_id@, c);
                        match crate::json::key_index_from(conversation_ids(old_entries), c, 0) {
                            Some(j) => {
                                crate::provider::lemma_key_index_bounds(conversation_ids(old_entries), c, 0);
                                assert(self.entries@[j] == old_entries[j]);
                            },
                            None => {},
                        }
                    }
                    assert forall|a: int, b: int| 0 <= a < b < self.entries@.len() implies conversation_ids(self.entries@)[a]
                        != conversation_ids(self.entries@)[b] by {
                        if b == old_entries.len() {
                            assert(conversation_ids(old_entries)[a] != conversation_id@);
                        } else {
                            assert(conversation_ids(old_entries)[a] != conversation_ids(old_entries)[b]);
                        }
                    }
                }
            },
        }
        proof {
            assert forall|i: int| 0 <= i < self.entries@.len() implies unique_strings((#[trigger] self.entries@[i]).1@) by {
                if i < old_entries.len() && self.entries@[i] == old_entries[i] {
                }
            }
        }
    }
}

/// The system prompt of a turn holds the character's prompt and the tools
/// prompt, each where not empty: it starts with the character's trimmed
/// prompt, ends with the tools prompt, puts a blank line between the two
/// where both are present, and is missing only where both are empty.
pub proof fn law_system_prompt_sections(character_prompt: Option<Seq<char>>, tools_prompt: Seq<char>)
    ensures
        ({
            let r = system_prompt_of(character_prompt, tools_prompt);
            let has_char = (character_prompt matches Some(p) && trim(p).len() > 0);
            &&& (r is None) == (!has_char && tools_prompt.len() == 0)
            &&& has_char ==> (r matches Some(s) && s.len() >= trim(character_prompt.unwrap()).len() && s.subrange(
                0,
                trim(character_prompt.unwrap()).len() as int,
            ) == trim(character_prompt.unwrap()))
            &&& tools_prompt.len() > 0 ==> (r matches Some(s) && s.len() >= tools_prompt.len() && s.subrange(
                s.len() - tools_prompt.len(),
                s.len() as int,
            ) == tools_prompt)
            &&& has_char && tools_prompt.len() > 0 ==> r == Some(trim(character_prompt.unwrap()) + "\n\n"@ + tools_prompt)
            &&& has_char && tools_prompt.len() == 0 ==> r == Some(trim(character_prompt.unwrap()))
            &&& !has_char && tools_prompt.len() > 0 ==> r == Some(tools_prompt)
        }),
{
    let has_char = (character_prompt matches Some(p) && trim(p).len() > 0);
    if has_char {
        let c = trim(character_prompt.unwrap());
        if tools_prompt.len() > 0 {
            let parts = seq![c, tools_prompt];
            assert(seq![c].push(tools_prompt) =~= parts);
            assert(parts.drop_last() =~= seq![c]);
            assert(join(parts.drop_last(), "\n\n"@) == c);
            let s = c + "\n\n"@ + tools_prompt;
            assert(s.subrange(0, c.len() as int) =~= c);
            assert(s.subrange(s.len() - tools_prompt.len(), s.len() as int) =~= tools_prompt);
        } else {
            assert(c.subrange(0, c.len() as int) =~= c);
        }
    } else if tools_prompt.len() > 0 {
        assert(Seq::<Seq<char>>::empty().push(tools_prompt) =~= seq![tools_prompt]);
        assert(tools_prompt.subrange(0, tools_prompt.len() as int) =~= tools_prompt);
    }
}

/// `part` stands somewhere in `whole`, as a run of consecutive characters.
pub open spec fn occurs_in(part: Seq<char>, whole: Seq<char>) -> bool {
    exists|a: int| 0 <= a && a + part.len() <= whole.len() && #[trigger] whole.subrange(a, a + part.len()) == part
}

proof fn lemma_occurs_in_self(part: Seq<char>)
    ensures
        occurs_in(part, part),
{
    assert(part.subrange(0int, 0int + part.len()) =~= part);
}

proof fn lemma_occurs_in_concat(part: Seq<char>, pre: Seq<char>, w: Seq<char>, post: Seq<char>)
    requires
        occurs_in(part, w),
    ensures
        occurs_in(part, pre + w + post),
{
    let a = choose|a: int| 0 <= a && a + part.len() <= w.len() && #[trigger] w.subrange(a, a + part.len()) == part;
    let whole = pre + w + post;
    let b = pre.len() + a;
    assert(whole.subrange(b, b + part.len()) =~= w.subrange(a, a + part.len()));
}

proof fn lemma_occurs_in_trans(x: Seq<char>, y: Seq<char>, z: Seq<char>)
    requires
        occurs_in(x, y),
        occurs_in(y, z),
    ensures
        occurs_in(x, z),
{
    let a = choose|a: int| 0 <= a && a + x.len() <= y.len() && #[trigger] y.subrange(a, a + x.len()) == x;
    let b = choose|b: int| 0 <= b && b + y.len() <= z.len() && #[trigger] z.subrange(b, b + y.len()) == y;
    assert(z.subrange(b + a, b + a + x.len()) =~= y.subrange(a, a + x.len()));
}

proof fn lemma_join_holds_each_part(parts: Seq<Seq<char>>, sep: Seq<char>, i: int)
    requires
        0 <= i < parts.len(),
    ensures
        occurs_in(parts[i], join(parts, sep)),
    decreases parts.len(),
{
    if parts.len() == 1 {
        lemma_occurs_in_self(parts[0]);
    } else {
        let d = parts.drop_last();
        let jd = join(d, sep);
        assert(join(parts, sep) == jd + sep + parts.last());
        if i == parts.len() - 1 {
            lemma_occurs_in_self(parts[i]);
            lemma_occurs_in_concat(parts[i], jd + sep, parts[i], Seq::empty());
            assert(jd + sep + parts[i] + Seq::<char>::empty() =~= join(parts, sep));
        } else {
            lemma_join_holds_each_part(d, sep, i);
            assert(d[i] == parts[i]);
            lemma_occurs_in_concat(parts[i], Seq::empty(), jd, sep + parts.last());
            assert(Seq::<char>::empty() + jd + (sep + parts.last()) =~= join(parts, sep));
        }
    }
}

/// The line that presents the parameter `key` of a `properties` object in
/// the tools prompt: its name, its type (`unknown` where it has none) and
/// its description (empty where it has none).
pub open spec fn listed_param_line(props: Json, key: Seq<char>) -> Seq<char> {
    "    - "@ + "`"@ + key + "` ("@ + match json_get(props, key) {
        Some(p) => match json_str_field(p, "type"@) {
            Some(t) => t,
            None => "unknown"@,
        },
        None => "unknown"@,
    } + "): "@ + match json_get(props, key) {
        Some(p) => match json_str_field(p, "description"@) {
            Some(d) => d,
            None => Seq::empty(),
        },
        None => Seq::empty(),
    }
}

/// For every tool offered and every parameter of its input schema's
/// `properties`, the tools prompt holds the line that names the parameter
/// with its type and description: no tool's arguments are left unsaid.
pub proof fn law_tools_prompt_lists_every_parameter(
    ts: Seq<DefinitionModel>,
    t: int,
    keys: Seq<Seq<char>>,
    vals: Seq<Json>,
    key: Seq<char>,
)
    requires
        0 <= t < ts.len(),
        json_get(ts[t].input_schema, "properties"@) == Some(Json::Object(keys, vals)),
        keys.contains(key),
    ensures
        occurs_in(listed_param_line(Json::Object(keys, vals), key), enabled_tools_prompt(ts)),
{
    broadcast use vstd::seq_lib::to_multiset_contains;

    let props = Json::Object(keys, vals);
    let line = listed_param_line(props, key);
    let sorted = sort_with(keys, str_key());
    crate::order::law_sort_with_sorted(keys, str_key());
    assert(keys.to_multiset().count(key) > 0);
    assert(sorted.to_multiset().count(key) > 0);
    assert(sorted.contains(key));
    let m = choose|m: int| 0 <= m < sorted.len() && sorted[m] == key;
    let pl = prop_lines(ts[t].input_schema, "    - "@, "unknown"@);
    assert(pl == sorted.map_values(|k: Seq<char>| crate::registry::prop_line(props, k, "    - "@, "unknown"@)));
    assert(pl[m] == crate::registry::prop_line(props, key, "    - "@, "unknown"@));
    assert(crate::registry::prop_line(props, key, "    - "@, "unknown"@) == line) by {
        match json_get(props, key) {
            Some(p) => {
                assert(crate::tools::str_or(p, "type"@, "unknown"@) == match json_str_field(p, "type"@) {
                    Some(t) => t,
                    None => "unknown"@,
                });
                assert(crate::tools::str_or(p, "description"@, Seq::empty()) == match json_str_field(p, "description"@) {
                    Some(d) => d,
                    None => Seq::<char>::empty(),
                });
            },
            None => {},
        }
    }
    let parts = seq!["  - **"@ + ts[t].name + "**: "@ + crate::registry::desc_text(ts[t])] + pl;
    assert(parts[m + 1] == line);
    lemma_join_holds_each_part(parts, "\n"@, m + 1);
    assert(tool_block(ts[t]) == join(parts, "\n"@));
    let blocks = ts.map_values(|d: DefinitionModel| tool_block(d));
    assert(blocks[t] == tool_block(ts[t]));
    lemma_join_holds_each_part(blocks, "\n\n"@, t);
    lemma_occurs_in_trans(line, tool_block(ts[t]), join(blocks, "\n\n"@));
    lemma_occurs_in_concat(line, enabled_prompt_head(), join(blocks, "\n\n"@), enabled_prompt_tail());
}

/// The prompt `build_enabled_tools_prompt` writes for the enabled tools
/// holds, for every enabled tool and every parameter of its input schema's
/// `properties`, the line naming that parameter with its type and
/// description.
pub proof fn law_enabled_tools_prompt_lists_every_parameter(
    enabled: Seq<ToolDefinition>,
    t: int,
    keys: Seq<Seq<char>>,
    vals: Seq<Json>,
    key: Seq<char>,
)
    requires
        0 <= t < enabled.len(),
        json_get(enabled[t]@.input_schema, "properties"@) == Some(Json::Object(keys, vals)),
        keys.contains(key),
    ensures
        occurs_in(
            listed_param_line(Json::Object(keys, vals), key),
            enabled_tools_prompt(sort_with(defs_view(enabled), def_key())),
        ),
{
    broadcast use vstd::seq_lib::to_multiset_contains;

    let dv = defs_view(enabled);
    let sorted = sort_with(dv, def_key());
    crate::order::law_sort_with_sorted(dv, def_key());
    assert(dv[t] == enabled[t]@);
    assert(dv.contains(enabled[t]@));
    assert(dv.to_multiset().count(enabled[t]@) > 0);
    assert(sorted.to_multiset().count(enabled[t]@) > 0);
    assert(sorted.contains(enabled[t]@));
    let u = choose|u: int| 0 <= u < sorted.len() && sorted[u] == enabled[t]@;
    law_tools_prompt_lists_every_parameter(sorted, u, keys, vals, key);
}

} // verus!
