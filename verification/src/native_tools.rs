//! The configuration tools a model can call: what each request asks for,
//! how a section is patched, and how a result is shown.
use vstd::prelude::*;

use crate::json::{
    json_parse, json_pretty_text, key_index_from, lemma_key_index_skip, parse_json, to_json_pretty, Json,
    JsonMember, JsonValue,
};
use crate::text::{join, join_strings, owned, push_str, str_eq, views};
use crate::tools::{ToolContent, ToolResult};

verus! {

broadcast use vstd::string::group_string_axioms;

/// The arguments of the read tool.
#[derive(Debug, Clone)]
pub struct ConfigReadArgs {
    /// One of: providers, characters, default_responder, chore_llm,
    /// pipeline_config, conversation_config.
    pub key: String,
}

/// The arguments of the write tool.
#[derive(Debug)]
pub struct ConfigWriteArgs {
    /// One of: default_responder, chore_llm, pipeline_config, conversation_config.
    pub key: String,
    /// The new value; for the two config sections a partial object.
    pub value: JsonValue,
}

/// The keys of a list of members.
pub open spec fn member_keys(m: Seq<JsonMember>) -> Seq<Seq<char>> {
    m.map_values(|x: JsonMember| x.key@)
}

/// The values of a list of members.
pub open spec fn member_values(m: Seq<JsonMember>) -> Seq<Json> {
    m.map_values(|x: JsonMember| x.value@)
}

/// An object with `key` set to `v`: its first member of that key takes
/// the value, or a member is added at the end.
pub open spec fn obj_insert(keys: Seq<Seq<char>>, vals: Seq<Json>, key: Seq<char>, v: Json) -> (Seq<Seq<char>>, Seq<Json>) {
    match key_index_from(keys, key, 0) {
        Some(i) => (keys, vals.update(i, v)),
        None => (keys.push(key), vals.push(v)),
    }
}

/// The object after inserting each member of a patch in turn.
pub open spec fn obj_merge(keys: Seq<Seq<char>>, vals: Seq<Json>, pk: Seq<Seq<char>>, pv: Seq<Json>) -> (Seq<Seq<char>>, Seq<Json>)
    decreases pk.len(),
{
    if pk.len() == 0 || pv.len() != pk.len() {
        (keys, vals)
    } else {
        let m = obj_merge(keys, vals, pk.drop_last(), pv.drop_last());
        obj_insert(m.0, m.1, pk.last(), pv.last())
    }
}

/// The value of `key` in an object: that of its first member of that key.
pub open spec fn obj_get(keys: Seq<Seq<char>>, vals: Seq<Json>, key: Seq<char>) -> Option<Json> {
    match key_index_from(keys, key, 0) {
        Some(i) => Some(vals[i]),
        None => None,
    }
}

proof fn lemma_insert_get(keys: Seq<Seq<char>>, vals: Seq<Json>, key: Seq<char>, v: Json, q: Seq<char>)
    requires
        keys.len() == vals.len(),
    ensures
        obj_insert(keys, vals, key, v).0.len() == obj_insert(keys, vals, key, v).1.len(),
        obj_get(obj_insert(keys, vals, key, v).0, obj_insert(keys, vals, key, v).1, q) == if q == key {
            Some(v)
        } else {
            obj_get(keys, vals, q)
        },
{
    crate::provider::lemma_key_index_bounds(keys, key, 0);
    crate::provider::lemma_key_index_bounds(keys, q, 0);
    match key_index_from(keys, key, 0) {
        Some(i) => {},
        None => {
            crate::provider::lemma_key_push_new(keys, key);
            if q != key {
                crate::provider::lemma_key_push_other(keys, key, q);
            }
        },
    }
}

proof fn lemma_merge_get(keys: Seq<Seq<char>>, vals: Seq<Json>, pk: Seq<Seq<char>>, pv: Seq<Json>, q: Seq<char>)
    requires
        keys.len() == vals.len(),
        pk.len() == pv.len(),
        crate::provider::unique_names(pk),
    ensures
        obj_merge(keys, vals, pk, pv).0.len() == obj_merge(keys, vals, pk, pv).1.len(),
        obj_get(obj_merge(keys, vals, pk, pv).0, obj_merge(keys, vals, pk, pv).1, q) == match key_index_from(pk, q, 0) {
            Some(j) => Some(pv[j]),
            None => obj_get(keys, vals, q),
        },
    decreases pk.len(),
{
    if pk.len() > 0 {
        let dk = pk.drop_last();
        let dv = pv.drop_last();
        assert forall|a: int, b: int| 0 <= a < b < dk.len() implies dk[a] != dk[b] by {
            assert(dk[a] == pk[a] && dk[b] == pk[b]);
        }
        lemma_merge_get(keys, vals, dk, dv, q);
        let m = obj_merge(keys, vals, dk, dv);
        lemma_insert_get(m.0, m.1, pk.last(), pv.last(), q);
        assert(pk == dk.push(pk.last()));
        if q == pk.last() {
            assert forall|j: int| 0 <= j < dk.len() implies dk[j] != q by {
                assert(dk[j] == pk[j]);
            }
            assert(key_index_from(dk, q, 0) is None) by {
                crate::provider::lemma_key_index_bounds(dk, q, 0);
            }
            crate::provider::lemma_key_push_new(dk, q);
        } else {
            crate::provider::lemma_key_push_other(dk, pk.last(), q);
            crate::provider::lemma_key_index_bounds(dk, q, 0);
        }
    }
}

/// Merging a patch whose keys are distinct sets each of its keys to the
/// patch's value and leaves every other key as it was.
pub proof fn law_merge_sets_patch_keys(keys: Seq<Seq<char>>, vals: Seq<Json>, pk: Seq<Seq<char>>, pv: Seq<Json>, q: Seq<char>)
    requires
        keys.len() == vals.len(),
        pk.len() == pv.len(),
        crate::provider::unique_names(pk),
    ensures
        obj_get(obj_merge(keys, vals, pk, pv).0, obj_merge(keys, vals, pk, pv).1, q) == match key_index_from(pk, q, 0) {
            Some(j) => Some(pv[j]),
            None => obj_get(keys, vals, q),
        },
{
    lemma_merge_get(keys, vals, pk, pv, q);
}

proof fn lemma_insert_present(keys: Seq<Seq<char>>, vals: Seq<Json>, key: Seq<char>, v: Json)
    requires
        keys.len() == vals.len(),
        obj_get(keys, vals, key) == Some(v),
    ensures
        obj_insert(keys, vals, key, v) == (keys, vals),
{
    let i = key_index_from(keys, key, 0).unwrap();
    crate::provider::lemma_key_index_bounds(keys, key, 0);
    assert(vals.update(i, v) =~= vals);
}

proof fn lemma_merge_prefix_fixed(keys: Seq<Seq<char>>, vals: Seq<Json>, pk: Seq<Seq<char>>, pv: Seq<Json>, n: int)
    requires
        keys.len() == vals.len(),
        pk.len() == pv.len(),
        0 <= n <= pk.len(),
        forall|j: int| 0 <= j < pk.len() ==> obj_get(keys, vals, #[trigger] pk[j]) == Some(pv[j]),
    ensures
        obj_merge(keys, vals, pk.take(n), pv.take(n)) == (keys, vals),
    decreases n,
{
    if n > 0 {
        lemma_merge_prefix_fixed(keys, vals, pk, pv, n - 1);
        assert(pk.take(n).drop_last() =~= pk.take(n - 1));
        assert(pv.take(n).drop_last() =~= pv.take(n - 1));
        assert(pk.take(n).last() == pk[n - 1]);
        assert(pv.take(n).last() == pv[n - 1]);
        lemma_insert_present(keys, vals, pk[n - 1], pv[n - 1]);
    }
}

/// Merging the same patch twice changes nothing the first merge did not:
/// where the patch's keys are distinct, the second merge is the identity.
pub proof fn law_merge_twice(keys: Seq<Seq<char>>, vals: Seq<Json>, pk: Seq<Seq<char>>, pv: Seq<Json>)
    requires
        keys.len() == vals.len(),
        pk.len() == pv.len(),
        crate::provider::unique_names(pk),
    ensures
        obj_merge(obj_merge(keys, vals, pk, pv).0, obj_merge(keys, vals, pk, pv).1, pk, pv) == obj_merge(
            keys,
            vals,
            pk,
            pv,
        ),
{
    let m = obj_merge(keys, vals, pk, pv);
    lemma_merge_get(keys, vals, pk, pv, Seq::empty());
    assert forall|j: int| 0 <= j < pk.len() implies obj_get(m.0, m.1, #[trigger] pk[j]) == Some(pv[j]) by {
        lemma_merge_get(keys, vals, pk, pv, pk[j]);
        if key_index_from(pk, pk[j], 0) is None {
            crate::provider::lemma_key_index_none(pk, pk[j]);
        }
        crate::provider::lemma_key_index_bounds(pk, pk[j], 0);
        let k = key_index_from(pk, pk[j], 0).unwrap();
        if k != j {
            assert(pk[k] == pk[j]);
        }
    }
    lemma_merge_prefix_fixed(m.0, m.1, pk, pv, pk.len() as int);
    assert(pk.take(pk.len() as int) =~= pk);
    assert(pv.take(pv.len() as int) =~= pv);
}

fn member_insert(base: &mut Vec<JsonMember>, key: &String, value: &JsonValue)
    ensures
        (member_keys(final(base)@), member_values(final(base)@)) == obj_insert(
            member_keys(old(base)@),
            member_values(old(base)@),
            key@,
            value@,
        ),
{
    let ghost keys = member_keys(base@);
    let mut i: usize = 0;
    while i < base.len()
        invariant
            i <= base@.len(),
            base@ == old(base)@,
            keys == member_keys(base@),
            forall|j: int| 0 <= j < i ==> keys[j] != key@,
        decreases base.len() - i,
    {
        if str_eq(base[i].key.as_str(), key.as_str()) {
            proof {
                lemma_key_index_skip(keys, key@, i as int);
            }
            let ghost before = base@;
            let m = JsonMember { key: key.clone(), value: value.copy() };
            base.set(i, m);
            proof {
                assert(member_keys(base@) =~= member_keys(before));
                assert(member_values(base@) =~= member_values(before).update(i as int, value@));
            }
            return;
        }
        i = i + 1;
    }
    proof {
        lemma_key_index_skip(keys, key@, i as int);
    }
    let ghost before = base@;
    base.push(JsonMember { key: key.clone(), value: value.copy() });
    proof {
        assert(member_keys(base@) =~= member_keys(before).push(key@));
        assert(member_values(base@) =~= member_values(before).push(value@));
    }
}

/// Sets each top-level member of `patch` on `base`, later members winning;
/// nested objects are replaced whole. A patch that is no object changes
/// nothing.
pub fn merge_object(base: &mut Vec<JsonMember>, patch: &JsonValue)
    ensures
        match patch@ {
            Json::Object(pk, pv) => (member_keys(final(base)@), member_values(final(base)@)) == obj_merge(
                member_keys(old(base)@),
                member_values(old(base)@),
                pk,
                pv,
            ),
            _ => final(base)@ == old(base)@,
        },
{
    let members = match patch {
        JsonValue::Object(m) => m,
        _ => return,
    };
    let ghost pk = patch@->Object_0;
    let ghost pv = patch@->Object_1;
    let ghost k0 = member_keys(base@);
    let ghost v0 = member_values(base@);
    let mut i: usize = 0;
    proof {
        assert(pk.take(0) =~= Seq::<Seq<char>>::empty());
        assert(pv.take(0) =~= Seq::<Json>::empty());
    }
    while i < members.len()
        invariant
            i <= members@.len(),
            pk == Seq::new(members@.len() as nat, |k: int| members@[k].key@),
            pv == Seq::new(members@.len() as nat, |k: int| if 0 <= k < members@.len() { members@[k].value@ } else { Json::Null }),
            (member_keys(base@), member_values(base@)) == obj_merge(k0, v0, pk.take(i as int), pv.take(i as int)),
        decreases members.len() - i,
    {
        proof {
            assert(pk.take(i + 1).drop_last() =~= pk.take(i as int));
            assert(pv.take(i + 1).drop_last() =~= pv.take(i as int));
            assert(pk.take(i + 1).last() == members@[i as int].key@);
            assert(pv.take(i + 1).last() == members@[i as int].value@);
        }
        member_insert(base, &members[i].key, &members[i].value);
        i = i + 1;
    }
    proof {
        assert(pk.take(i as int) =~= pk);
        assert(pv.take(i as int) =~= pv);
    }
}

/// The keys of the configuration tools differ from one another.
proof fn lemma_keys_differ()
    ensures
        "providers"@ != "characters"@,
        "providers"@ != "default_responder"@,
        "providers"@ != "chore_llm"@,
        "providers"@ != "pipeline_config"@,
        "providers"@ != "conversation_config"@,
        "characters"@ != "default_responder"@,
        "characters"@ != "chore_llm"@,
        "characters"@ != "pipeline_config"@,
        "characters"@ != "conversation_config"@,
        "default_responder"@ != "chore_llm"@,
        "default_responder"@ != "pipeline_config"@,
        "default_responder"@ != "conversation_config"@,
        "chore_llm"@ != "pipeline_config"@,
        "chore_llm"@ != "conversation_config"@,
        "pipeline_config"@ != "conversation_config"@,
{
    reveal_strlit("providers");
    reveal_strlit("characters");
    reveal_strlit("default_responder");
    reveal_strlit("chore_llm");
    reveal_strlit("pipeline_config");
    reveal_strlit("conversation_config");
    assert("providers"@[0] != "chore_llm"@[0]);
    assert("providers"@.len() != "characters"@.len());
    assert("providers"@.len() != "default_responder"@.len());
    assert("providers"@.len() != "pipeline_config"@.len());
    assert("providers"@.len() != "conversation_config"@.len());
    assert("characters"@.len() != "default_responder"@.len());
    assert("characters"@.len() != "chore_llm"@.len());
    assert("characters"@.len() != "pipeline_config"@.len());
    assert("characters"@.len() != "conversation_config"@.len());
    assert("default_responder"@.len() != "chore_llm"@.len());
    assert("default_responder"@.len() != "pipeline_config"@.len());
    assert("default_responder"@.len() != "conversation_config"@.len());
    assert("chore_llm"@.len() != "pipeline_config"@.len());
    assert("chore_llm"@.len() != "conversation_config"@.len());
    assert("pipeline_config"@.len() != "conversation_config"@.len());
}

/// What a write request asks for.
#[derive(Debug)]
pub enum ConfigWriteStep {
    /// Set the default responder (a character id) or clear it.
    SetDefaultResponder(Option<String>),
    /// Set the chore model from `{provider, model}`, or clear it.
    SetChoreLlm(Option<JsonValue>),
    /// Patch the pipeline section with this object.
    MergePipeline(JsonValue),
    /// Patch the conversation section with this object.
    MergeConversation(JsonValue),
    /// Refuse, with this message as an error result.
    Refuse(String),
}

/// The message for an unknown key of the write tool.
pub open spec fn unknown_write_key(key: Seq<char>) -> Seq<char> {
    "Unknown key '"@ + key + "'. Supported keys: default_responder, chore_llm, pipeline_config, conversation_config."@
}

/// Decides what a write request asks for: the value must fit the key
/// (`default_responder` a string or null, the two sections an object);
/// an unknown key or an unfit value is refused with its message.
pub fn plan_config_write(key: &str, value: JsonValue) -> (r: ConfigWriteStep)
    ensures
        key@ == "default_responder"@ ==> match value@ {
            Json::Null => r matches ConfigWriteStep::SetDefaultResponder(None),
            Json::Str(s) => (r matches ConfigWriteStep::SetDefaultResponder(Some(p)) && p@ == s),
            _ => (r matches ConfigWriteStep::Refuse(m) && m@ == "default_responder expects a string or null."@),
        },
        key@ == "chore_llm"@ ==> match value@ {
            Json::Null => r matches ConfigWriteStep::SetChoreLlm(None),
            _ => (r matches ConfigWriteStep::SetChoreLlm(Some(v)) && v == value),
        },
        key@ == "pipeline_config"@ ==> if value@ is Object {
            (r matches ConfigWriteStep::MergePipeline(v) && v == value)
        } else {
            (r matches ConfigWriteStep::Refuse(m) && m@ == "pipeline_config expects a JSON object."@)
        },
        key@ == "conversation_config"@ ==> if value@ is Object {
            (r matches ConfigWriteStep::MergeConversation(v) && v == value)
        } else {
            (r matches ConfigWriteStep::Refuse(m) && m@ == "conversation_config expects a JSON object."@)
        },
        key@ != "default_responder"@ && key@ != "chore_llm"@ && key@ != "pipeline_config"@ && key@ != "conversation_config"@
            ==> (r matches ConfigWriteStep::Refuse(m) && m@ == unknown_write_key(key@)),
{
    proof {
        lemma_keys_differ();
    }
    if str_eq(key, "default_responder") {
        match value {
            JsonValue::Null => ConfigWriteStep::SetDefaultResponder(None),
            JsonValue::String(s) => ConfigWriteStep::SetDefaultResponder(Some(s)),
            _ => ConfigWriteStep::Refuse(owned("default_responder expects a string or null.")),
        }
    } else if str_eq(key, "chore_llm") {
        if value.is_null() {
            ConfigWriteStep::SetChoreLlm(None)
        } else {
            ConfigWriteStep::SetChoreLlm(Some(value))
        }
    } else if str_eq(key, "pipeline_config") {
        if value.is_object() {
            ConfigWriteStep::MergePipeline(value)
        } else {
            ConfigWriteStep::Refuse(owned("pipeline_config expects a JSON object."))
        }
    } else if str_eq(key, "conversation_config") {
        if value.is_object() {
            ConfigWriteStep::MergeConversation(value)
        } else {
            ConfigWriteStep::Refuse(owned("conversation_config expects a JSON object."))
        }
    } else {
        let mut m = owned("Unknown key '");
        push_str(&mut m, key);
        push_str(&mut m, "'. Supported keys: default_responder, chore_llm, pipeline_config, conversation_config.");
        ConfigWriteStep::Refuse(m)
    }
}

/// A result with one text part.
pub fn text_result(text: String, is_error: bool) -> (r: ToolResult)
    ensures
        r.is_error == is_error,
        r.content@.len() == 1,
        r.content@[0] == (ToolContent::Text { text }),
{
    let mut content: Vec<ToolContent> = Vec::new();
    content.push(ToolContent::Text { text });
    ToolResult { content, is_error }
}

/// The text of the first text part of a result.
pub open spec fn first_text(content: Seq<ToolContent>) -> Option<Seq<char>>
    decreases content.len(),
{
    if content.len() == 0 {
        None
    } else {
        match content[0] {
            ToolContent::Text { text } => Some(text@),
            _ => first_text(content.drop_first()),
        }
    }
}

fn first_text_exec(content: &Vec<ToolContent>) -> (r: Option<&String>)
    ensures
        match r {
            Some(t) => first_text(content@) == Some(t@),
            None => first_text(content@) is None,
        },
{
    let mut i: usize = 0;
    assert(content@.skip(0) =~= content@);
    while i < content.len()
        invariant
            i <= content@.len(),
            first_text(content@) == first_text(content@.skip(i as int)),
        decreases content.len() - i,
    {
        proof {
            assert(content@.skip(i as int)[0] == content@[i as int]);
            assert(content@.skip(i as int).drop_first() =~= content@.skip(i + 1));
        }
        match &content[i] {
            ToolContent::Text { text } => return Some(text),
            _ => {},
        }
        i = i + 1;
    }
    None
}

/// How a write result is shown: `> No result`, or its first text after a
/// check mark (`✓`) or, for an error, a cross (`✗`).
pub fn format_write_result(result: Option<&ToolResult>) -> (r: String)
    ensures
        r@ == match result {
            None => "> No result"@,
            Some(res) => (if res.is_error { "✗ "@ } else { "✓ "@ }) + match first_text(res.content@) {
                Some(t) => t,
                None => Seq::empty(),
            },
        },
{
    match result {
        None => owned("> No result"),
        Some(res) => {
            let mut out = if res.is_error { owned("✗ ") } else { owned("✓ ") };
            match first_text_exec(&res.content) {
                Some(t) => push_str(&mut out, t.as_str()),
                None => {},
            }
            out
        },
    }
}

/// The sections the read tool can show.
#[derive(Debug, Clone, Copy, PartialEq, Eq, Structural)]
pub enum ConfigSection {
    Providers,
    Characters,
    DefaultResponder,
    ChoreLlm,
    PipelineConfig,
    ConversationConfig,
}

/// The message for an unknown key of the read tool.
pub open spec fn unknown_read_key(key: Seq<char>) -> Seq<char> {
    "Unknown key '"@ + key + "'. Supported keys: providers, characters, default_responder, chore_llm, pipeline_config, conversation_config."@
}

/// The section a read request names, or the message refusing an unknown key.
pub fn plan_config_read(key: &str) -> (r: Result<ConfigSection, String>)
    ensures
        key@ == "providers"@ ==> r == Ok::<ConfigSection, String>(ConfigSection::Providers),
        key@ == "characters"@ ==> r == Ok::<ConfigSection, String>(ConfigSection::Characters),
        key@ == "default_responder"@ ==> r == Ok::<ConfigSection, String>(ConfigSection::DefaultResponder),
        key@ == "chore_llm"@ ==> r == Ok::<ConfigSection, String>(ConfigSection::ChoreLlm),
        key@ == "pipeline_config"@ ==> r == Ok::<ConfigSection, String>(ConfigSection::PipelineConfig),
        key@ == "conversation_config"@ ==> r == Ok::<ConfigSection, String>(ConfigSection::ConversationConfig),
        r matches Err(m) ==> m@ == unknown_read_key(key@),
        (key@ != "providers"@ && key@ != "characters"@ && key@ != "default_responder"@ && key@ != "chore_llm"@
            && key@ != "pipeline_config"@ && key@ != "conversation_config"@) ==> r is Err,
{
    proof {
        lemma_keys_differ();
    }
    if str_eq(key, "providers") {
        Ok(ConfigSection::Providers)
    } else if str_eq(key, "characters") {
        Ok(ConfigSection::Characters)
    } else if str_eq(key, "default_responder") {
        Ok(ConfigSection::DefaultResponder)
    } else if str_eq(key, "chore_llm") {
        Ok(ConfigSection::ChoreLlm)
    } else if str_eq(key, "pipeline_config") {
        Ok(ConfigSection::PipelineConfig)
    } else if str_eq(key, "conversation_config") {
        Ok(ConfigSection::ConversationConfig)
    } else {
        let mut m = owned("Unknown key '");
        push_str(&mut m, key);
        push_str(&mut m, "'. Supported keys: providers, characters, default_responder, chore_llm, pipeline_config, conversation_config.");
        Err(m)
    }
}

/// How a read result is shown: `> No result`; nothing where it has no
/// text; else `**Result**` (or `> **Error**`), a blank line, and the text
/// as an indented JSON block where it parses, as it is otherwise.
pub open spec fn read_markdown(result: Option<ToolResult>) -> Seq<char> {
    match result {
        None => "> No result"@,
        Some(res) => match first_text(res.content@) {
            None => Seq::empty(),
            Some(t) => join(
                seq![
                    if res.is_error { "> **Error**"@ } else { "**Result**"@ },
                    Seq::empty(),
                    match json_parse(t) {
                        Some(v) => "```json\n"@ + json_pretty_text(v) + "\n```"@,
                        None => t,
                    },
                ],
                "\n"@,
            ),
        },
    }
}

/// Shows a read result (see `read_markdown`).
pub fn format_read_result(result: Option<&ToolResult>) -> (r: String)
    ensures
        r@ == read_markdown(match result {
            Some(x) => Some(*x),
            None => None,
        }),
{
    let res = match result {
        None => return owned("> No result"),
        Some(res) => res,
    };
    let text = match first_text_exec(&res.content) {
        Some(t) => t,
        None => {
            return String::new();
        },
    };
    let mut lines: Vec<String> = Vec::new();
    if res.is_error {
        lines.push(owned("> **Error**"));
    } else {
        lines.push(owned("**Result**"));
    }
    let blank = String::new();
    assert(blank@ == Seq::<char>::empty());
    lines.push(blank);
    match parse_json(text.as_str()) {
        Some(parsed) => {
            let mut block = owned("```json\n");
            push_str(&mut block, to_json_pretty(&parsed).as_str());
            push_str(&mut block, "\n```");
            lines.push(block);
        },
        None => lines.push(text.clone()),
    }
    proof {
        assert(views(lines@) =~= seq![
            if res.is_error { "> **Error**"@ } else { "**Result**"@ },
            Seq::empty(),
            match json_parse(text@) {
                Some(v) => "```json\n"@ + json_pretty_text(v) + "\n```"@,
                None => text@,
            },
        ]);
        reveal_with_fuel(join, 3);
    }
    join_strings(lines.as_slice(), "\n")
}

} // verus!
