//! The tools an MCP server lists, read from its `tools/list` answer.
use vstd::prelude::*;

use crate::json::{json_get, json_seq, json_str_field, lemma_array_model, Json, JsonMember, JsonValue};
use crate::mcp_types::{NormalizedTool, ToolAnnotations};
use crate::text::{owned, push_str};
use crate::tool_parser::{opt_str_member, opt_str_member_exec};
use crate::tools::opt_view;

verus! {

broadcast use vstd::string::group_string_axioms;

/// The model of a tool's annotations: title and the four hints.
pub type AnnotationsModel = (Option<Seq<char>>, Option<bool>, Option<bool>, Option<bool>, Option<bool>);

pub open spec fn annotations_view(a: ToolAnnotations) -> AnnotationsModel {
    (opt_view(a.title), a.read_only_hint, a.destructive_hint, a.idempotent_hint, a.open_world_hint)
}

pub open spec fn opt_annotations_view(a: Option<ToolAnnotations>) -> Option<AnnotationsModel> {
    match a {
        Some(x) => Some(annotations_view(x)),
        None => None,
    }
}

/// An optional boolean member: missing or `null` is `Some(None)`.
pub open spec fn opt_bool_member(j: Json, key: Seq<char>) -> Option<Option<bool>> {
    match json_get(j, key) {
        None => Some(None),
        Some(Json::Null) => Some(None),
        Some(Json::Bool(b)) => Some(Some(b)),
        Some(_) => None,
    }
}

/// An optional string in a positional list.
pub open spec fn opt_str_item(j: Json) -> Option<Option<Seq<char>>> {
    match j {
        Json::Null => Some(None),
        Json::Str(s) => Some(Some(s)),
        _ => None,
    }
}

/// An optional boolean in a positional list.
pub open spec fn opt_bool_item(j: Json) -> Option<Option<bool>> {
    match j {
        Json::Null => Some(None),
        Json::Bool(b) => Some(Some(b)),
        _ => None,
    }
}

/// Annotations as `serde` reads them: an object whose known members are
/// missing, `null` or of the right type, or a list of exactly the five
/// values in field order.
pub open spec fn decode_annotations(v: Json) -> Option<AnnotationsModel> {
    match v {
        Json::Object(_, _) => match (
            opt_str_member(v, "title"@),
            opt_bool_member(v, "read_only_hint"@),
            opt_bool_member(v, "destructive_hint"@),
            opt_bool_member(v, "idempotent_hint"@),
            opt_bool_member(v, "open_world_hint"@),
        ) {
            (Some(t), Some(a), Some(b), Some(c), Some(d)) => Some((t, a, b, c, d)),
            _ => None,
        },
        Json::Array(items) => if items.len() == 5 {
            match (
                opt_str_item(items[0]),
                opt_bool_item(items[1]),
                opt_bool_item(items[2]),
                opt_bool_item(items[3]),
                opt_bool_item(items[4]),
            ) {
                (Some(t), Some(a), Some(b), Some(c), Some(d)) => Some((t, a, b, c, d)),
                _ => None,
            }
        } else {
            None
        },
        _ => None,
    }
}

fn opt_bool_member_exec(j: &JsonValue, key: &str) -> (r: Option<Option<bool>>)
    ensures
        r == opt_bool_member(j@, key@),
{
    match j.get(key) {
        None => Some(None),
        Some(v) => match v {
            JsonValue::Null => Some(None),
            JsonValue::Bool(b) => Some(Some(*b)),
            _ => None,
        },
    }
}

fn opt_str_item_exec(j: &JsonValue) -> (r: Option<Option<String>>)
    ensures
        match r {
            Some(o) => opt_str_item(j@) == Some(opt_view(o)),
            None => opt_str_item(j@) is None,
        },
{
    match j {
        JsonValue::Null => Some(None),
        JsonValue::String(s) => Some(Some(s.clone())),
        _ => None,
    }
}

fn opt_bool_item_exec(j: &JsonValue) -> (r: Option<Option<bool>>)
    ensures
        r == opt_bool_item(j@),
{
    match j {
        JsonValue::Null => Some(None),
        JsonValue::Bool(b) => Some(Some(*b)),
        _ => None,
    }
}

/// Reads a tool's annotations.
pub fn decode_annotations_exec(v: &JsonValue) -> (r: Option<ToolAnnotations>)
    ensures
        opt_annotations_view(r) == decode_annotations(v@),
{
    match v {
        JsonValue::Object(_) => {
            let t = opt_str_member_exec(v, "title");
            let a = opt_bool_member_exec(v, "read_only_hint");
            let b = opt_bool_member_exec(v, "destructive_hint");
            let c = opt_bool_member_exec(v, "idempotent_hint");
            let d = opt_bool_member_exec(v, "open_world_hint");
            match (t, a, b, c, d) {
                (Some(t), Some(a), Some(b), Some(c), Some(d)) => Some(
                    ToolAnnotations {
                        title: t,
                        read_only_hint: a,
                        destructive_hint: b,
                        idempotent_hint: c,
                        open_world_hint: d,
                    },
                ),
                _ => None,
            }
        },
        JsonValue::Array(items) => {
            proof {
                lemma_array_model(*v, *items);
            }
            if items.len() != 5 {
                return None;
            }
            let t = opt_str_item_exec(&items[0]);
            let a = opt_bool_item_exec(&items[1]);
            let b = opt_bool_item_exec(&items[2]);
            let c = opt_bool_item_exec(&items[3]);
            let d = opt_bool_item_exec(&items[4]);
            match (t, a, b, c, d) {
                (Some(t), Some(a), Some(b), Some(c), Some(d)) => Some(
                    ToolAnnotations {
                        title: t,
                        read_only_hint: a,
                        destructive_hint: b,
                        idempotent_hint: c,
                        open_world_hint: d,
                    },
                ),
                _ => None,
            }
        },
        _ => None,
    }
}

/// The schema a tool without one gets: `{"type":"object","properties":{}}`.
pub open spec fn default_schema() -> Json {
    Json::Object(seq!["type"@, "properties"@], seq![Json::Str("object"@), Json::Object(Seq::empty(), Seq::empty())])
}

fn default_schema_exec() -> (r: JsonValue)
    ensures
        r@ == default_schema(),
{
    let empty = JsonValue::Object(Vec::new());
    proof {
        assert(empty@->Object_0 =~= Seq::<Seq<char>>::empty());
        assert(empty@->Object_1 =~= Seq::<Json>::empty());
    }
    let ghost ev = empty@;
    assert(ev == Json::Object(Seq::empty(), Seq::empty()));
    let obj = JsonValue::String(owned("object"));
    let ghost ov = obj@;
    assert(ov == Json::Str("object"@));
    let mut members: Vec<JsonMember> = Vec::new();
    members.push(JsonMember { key: owned("type"), value: obj });
    members.push(JsonMember { key: owned("properties"), value: empty });
    let r = JsonValue::Object(members);
    proof {
        assert(r@->Object_0 =~= seq!["type"@, "properties"@]);
        assert(r@->Object_1[1] == ev);
        assert(r@->Object_1[0] == ov);
        assert(r@->Object_1 =~= seq![Json::Str("object"@), Json::Object(Seq::empty(), Seq::empty())]);
    }
    r
}

/// `tool` is the listed tool `t` of server `server_id`: named by its
/// `name`, qualified as `server:name`, with its description, its schema
/// (or the empty object schema) and the given annotations.
pub open spec fn listed_as(tool: NormalizedTool, server_id: Seq<char>, t: Json, annotations: Option<AnnotationsModel>) -> bool {
    &&& json_str_field(t, "name"@) == Some(tool.name@)
    &&& tool.server_id@ == server_id
    &&& tool.qualified_name@ == server_id + ":"@ + tool.name@
    &&& opt_view(tool.description) == json_str_field(t, "description"@)
    &&& tool.input_schema@ == match json_get(t, "inputSchema"@) {
        Some(s) => s,
        None => default_schema(),
    }
    &&& opt_annotations_view(tool.annotations) == annotations
}

/// The annotations a lenient reading gives: those that decode, else none.
pub open spec fn lenient_annotations(t: Json) -> Option<AnnotationsModel> {
    match json_get(t, "annotations"@) {
        Some(a) => decode_annotations(a),
        None => None,
    }
}

/// The listed items of an answer: its `tools` array, or nothing.
pub open spec fn listed_items(raw: Json) -> Seq<Json> {
    match json_get(raw, "tools"@) {
        Some(Json::Array(items)) => items,
        _ => Seq::empty(),
    }
}

/// The items with a string `name`, in order.
pub open spec fn named_items(items: Seq<Json>) -> Seq<Json>
    decreases items.len(),
{
    if items.len() == 0 {
        Seq::empty()
    } else if json_str_field(items.last(), "name"@) is Some {
        named_items(items.drop_last()).push(items.last())
    } else {
        named_items(items.drop_last())
    }
}

fn listed_tool_exec(server_id: &str, t: &JsonValue, name: &String, annotations: Option<ToolAnnotations>) -> (r: NormalizedTool)
    requires
        json_str_field(t@, "name"@) == Some(name@),
    ensures
        listed_as(r, server_id@, t@, opt_annotations_view(annotations)),
{
    let mut qualified = owned(server_id);
    push_str(&mut qualified, ":");
    push_str(&mut qualified, name.as_str());
    let description = match t.str_field("description") {
        Some(d) => Some(d.clone()),
        None => None,
    };
    let input_schema = match t.get("inputSchema") {
        Some(s) => s.copy(),
        None => default_schema_exec(),
    };
    NormalizedTool {
        name: name.clone(),
        server_id: owned(server_id),
        qualified_name: qualified,
        description,
        input_schema,
        annotations,
    }
}

/// The tools of a `tools/list` answer: every item of its `tools` array
/// that has a string `name`, in order; items without one are passed over,
/// and annotations that do not decode are left out.
pub fn normalize_listed_tools(server_id: &str, raw: &JsonValue) -> (r: Vec<NormalizedTool>)
    ensures
        r@.len() == named_items(listed_items(raw@)).len(),
        forall|i: int| 0 <= i < r@.len() ==> listed_as(
            #[trigger] r@[i],
            server_id@,
            named_items(listed_items(raw@))[i],
            lenient_annotations(named_items(listed_items(raw@))[i]),
        ),
{
    let mut out: Vec<NormalizedTool> = Vec::new();
    let items = match raw.get("tools") {
        Some(v) => match v {
            JsonValue::Array(items) => {
                proof {
                    lemma_array_model(*v, *items);
                }
                items
            },
            _ => return out,
        },
        None => return out,
    };
    let ghost model = json_seq(items@);
    let mut i: usize = 0;
    while i < items.len()
        invariant
            i <= items@.len(),
            model == json_seq(items@),
            model == listed_items(raw@),
            out@.len() == named_items(model.take(i as int)).len(),
            forall|k: int| 0 <= k < out@.len() ==> listed_as(
                #[trigger] out@[k],
                server_id@,
                named_items(model.take(i as int))[k],
                lenient_annotations(named_items(model.take(i as int))[k]),
            ),
        decreases items.len() - i,
    {
        let t = &items[i];
        proof {
            assert(model.take(i + 1).drop_last() =~= model.take(i as int));
            assert(model.take(i + 1).last() == t@);
        }
        match t.str_field("name") {
            Some(name) => {
                let annotations = match t.get("annotations") {
                    Some(a) => decode_annotations_exec(a),
                    None => None,
                };
                let tool = listed_tool_exec(server_id, t, name, annotations);
                out.push(tool);
            },
            None => {},
        }
        i = i + 1;
    }
    proof {
        assert(model.take(i as int) =~= model);
    }
    out
}

/// An item a strict reading accepts: it has a string `name`, and its
/// annotations, where present, decode.
pub open spec fn strictly_listable(t: Json) -> bool {
    &&& json_str_field(t, "name"@) is Some
    &&& match json_get(t, "annotations"@) {
        Some(a) => decode_annotations(a) is Some,
        None => true,
    }
}

/// The tools of a `tools/list` answer, read strictly: `Tool missing name`
/// for an item without a string `name`, `Tool has invalid annotations`
/// for annotations that do not decode (the first failing item decides).
pub fn normalize_listed_tools_strict(server_id: &str, raw: &JsonValue) -> (r: Result<Vec<NormalizedTool>, String>)
    ensures
        (forall|i: int| 0 <= i < listed_items(raw@).len() ==> strictly_listable(#[trigger] listed_items(raw@)[i]))
            <==> r is Ok,
        r matches Ok(v) ==> v@.len() == listed_items(raw@).len() && forall|i: int| 0 <= i < v@.len() ==> listed_as(
            #[trigger] v@[i],
            server_id@,
            listed_items(raw@)[i],
            lenient_annotations(listed_items(raw@)[i]),
        ),
        r matches Err(m) ==> exists|i: int| 0 <= i < listed_items(raw@).len() && !strictly_listable(#[trigger] listed_items(raw@)[i])
            && (forall|j: int| 0 <= j < i ==> strictly_listable(#[trigger] listed_items(raw@)[j]))
            && m@ == (if json_str_field(listed_items(raw@)[i], "name"@) is None {
                "Tool missing name"@
            } else {
                "Tool has invalid annotations"@
            }),
{
    let mut out: Vec<NormalizedTool> = Vec::new();
    let items = match raw.get("tools") {
        Some(v) => match v {
            JsonValue::Array(items) => {
                proof {
                    lemma_array_model(*v, *items);
                }
                items
            },
            _ => {
                assert(listed_items(raw@).len() == 0);
                return Ok(out);
            },
        },
        None => {
            assert(listed_items(raw@).len() == 0);
            return Ok(out);
        },
    };
    let ghost model = json_seq(items@);
    let mut i: usize = 0;
    while i < items.len()
        invariant
            i <= items@.len(),
            model == json_seq(items@),
            model == listed_items(raw@),
            out@.len() == i,
            forall|k: int| 0 <= k < i ==> strictly_listable(#[trigger] model[k]),
            forall|k: int| 0 <= k < i ==> listed_as(#[trigger] out@[k], server_id@, model[k], lenient_annotations(model[k])),
        decreases items.len() - i,
    {
        let t = &items[i];
        assert(model[i as int] == t@);
        let name = match t.str_field("name") {
            Some(n) => n,
            None => {
                return Err(owned("Tool missing name"));
            },
        };
        let annotations = match t.get("annotations") {
            Some(a) => match decode_annotations_exec(a) {
                Some(x) => Some(x),
                None => {
                    return Err(owned("Tool has invalid annotations"));
                },
            },
            None => None,
        };
        let tool = listed_tool_exec(server_id, t, name, annotations);
        out.push(tool);
        i = i + 1;
    }
    Ok(out)
}

} // verus!
