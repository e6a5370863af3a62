//! Tool calls that a model writes into its reply text.
use vstd::prelude::*;

use crate::json::{
    json_get, json_parse, json_seq, lemma_array_model, lemma_json_seq_push, parse_json, Json,
    JsonValue,
};
use crate::text::{
    chars_of, find_from, first_match_from, lemma_first_match, lemma_first_match_none, lemma_matches_shift, matches_at,
    replace_all, replace_all_exec, slice_range, string_of, trim, trim_bounds,
};
use crate::tools::{
    opt_view, ContentModel, ConversationToolCall, ConversationToolContent, ConversationToolResult,
    conv_contents_view,
};

verus! {

broadcast use vstd::string::group_string_axioms;

/// The model of a decoded tool call; `id` is `None` where the call carried
/// no id and was given a fresh one.
pub struct CallModel {
    pub id: Option<Seq<char>>,
    pub name: Seq<char>,
    pub arguments: Json,
    pub result: Option<ResultModel>,
    pub qualified_name: Option<Seq<char>>,
}

/// The model of a decoded tool result.
pub struct ResultModel {
    pub content: Seq<ContentModel>,
    pub is_error: bool,
}

/// An optional string member: missing or `null` is `Some(None)`, a string is
/// `Some(Some(s))`, anything else fails to decode (`None`).
pub open spec fn opt_str_member(j: Json, key: Seq<char>) -> Option<Option<Seq<char>>> {
    match json_get(j, key) {
        None => Some(None),
        Some(Json::Null) => Some(None),
        Some(Json::Str(s)) => Some(Some(s)),
        Some(_) => None,
    }
}

/// A required string member.
pub open spec fn req_str_member(j: Json, key: Seq<char>) -> Option<Seq<char>> {
    match json_get(j, key) {
        Some(Json::Str(s)) => Some(s),
        _ => None,
    }
}

/// A stored content part, decoded by its `type` tag.
pub open spec fn decode_content(item: Json) -> Option<ContentModel> {
    if !(item is Object) {
        None
    } else {
        match req_str_member(item, "type"@) {
            Some(t) => if t == "text"@ {
                match req_str_member(item, "text"@) {
                    Some(x) => Some(ContentModel::Text(x)),
                    None => None,
                }
            } else if t == "image"@ {
                match (req_str_member(item, "data"@), req_str_member(item, "mimeType"@)) {
                    (Some(d), Some(m)) => Some(ContentModel::Image(d, m)),
                    _ => None,
                }
            } else if t == "resource"@ {
                match (
                    req_str_member(item, "uri"@),
                    opt_str_member(item, "mimeType"@),
                    opt_str_member(item, "text"@),
                    opt_str_member(item, "blob"@),
                ) {
                    (Some(u), Some(m), Some(x), Some(b)) => Some(ContentModel::Resource(u, m, x, b)),
                    _ => None,
                }
            } else {
                None
            },
            None => None,
        }
    }
}

/// Decodes every item, failing where any item fails.
pub open spec fn decode_contents(items: Seq<Json>) -> Option<Seq<ContentModel>>
    decreases items.len(),
{
    if items.len() == 0 {
        Some(Seq::empty())
    } else {
        match (decode_contents(items.drop_last()), decode_content(items.last())) {
            (Some(cs), Some(c)) => Some(cs.push(c)),
            _ => None,
        }
    }
}

/// A stored tool result: `content` (default empty) and `isError` (default false).
pub open spec fn decode_result(j: Json) -> Option<ResultModel> {
    if !(j is Object) {
        None
    } else {
        let content = match json_get(j, "content"@) {
            None => Some(Seq::empty()),
            Some(Json::Array(items)) => decode_contents(items),
            Some(_) => None,
        };
        let is_error = match json_get(j, "isError"@) {
            None => Some(false),
            Some(Json::Bool(b)) => Some(b),
            Some(_) => None,
        };
        match (content, is_error) {
            (Some(c), Some(e)) => Some(ResultModel { content: c, is_error: e }),
            _ => None,
        }
    }
}

/// The optional `result` member of a call.
pub open spec fn result_member(j: Json) -> Option<Option<ResultModel>> {
    match json_get(j, "result"@) {
        None => Some(None),
        Some(Json::Null) => Some(None),
        Some(r) => match decode_result(r) {
            Some(m) => Some(Some(m)),
            None => None,
        },
    }
}

/// A tool call object as the text protocol carries it: an object with a
/// string `name` that is not blank and an object `arguments`; a missing
/// `qualified_name` takes the name, a missing `id` a fresh one.
pub open spec fn normalize_call(v: Json) -> Option<CallModel> {
    if !(v is Object) {
        None
    } else {
        match (req_str_member(v, "name"@), json_get(v, "arguments"@)) {
            (Some(n), Some(args)) => if trim(n).len() > 0 && args is Object {
                let id = match json_get(v, "id"@) {
                    None => Some(None),
                    Some(Json::Str(i)) => Some(Some(i)),
                    Some(_) => None,
                };
                let qualified = match json_get(v, "qualified_name"@) {
                    None => Some(Some(n)),
                    Some(Json::Null) => Some(None),
                    Some(Json::Str(q)) => Some(Some(q)),
                    Some(_) => None,
                };
                match (id, qualified, result_member(v)) {
                    (Some(i), Some(q), Some(r)) => Some(
                        CallModel { id: i, name: n, arguments: args, result: r, qualified_name: q },
                    ),
                    _ => None,
                }
            } else {
                None
            },
            _ => None,
        }
    }
}

/// The calls that decode among `items`, in order.
pub open spec fn filter_calls(items: Seq<Json>) -> Seq<CallModel>
    decreases items.len(),
{
    if items.len() == 0 {
        Seq::empty()
    } else {
        match normalize_call(items.last()) {
            Some(c) => filter_calls(items.drop_last()).push(c),
            None => filter_calls(items.drop_last()),
        }
    }
}

pub open spec fn opt_seq(o: Option<CallModel>) -> Seq<CallModel> {
    match o {
        Some(c) => seq![c],
        None => Seq::empty(),
    }
}

/// The calls a JSON value holds: the value itself where it has a `name`, its
/// `tool_call` where it has one, else the items of a `tool_calls` array.
pub open spec fn calls_from_value(v: Json) -> Seq<CallModel> {
    if json_get(v, "name"@) is Some {
        opt_seq(normalize_call(v))
    } else {
        match json_get(v, "tool_call"@) {
            Some(tc) => opt_seq(normalize_call(tc)),
            None => match json_get(v, "tool_calls"@) {
                Some(Json::Array(items)) => filter_calls(items),
                _ => Seq::empty(),
            },
        }
    }
}

pub open spec fn result_view(r: Option<ConversationToolResult>) -> Option<ResultModel> {
    match r {
        Some(res) => Some(ResultModel { content: conv_contents_view(res.content@), is_error: res.is_error }),
        None => None,
    }
}

/// An executable call agrees with its model; a fresh id is a 36-character UUID.
pub open spec fn call_agrees(c: ConversationToolCall, m: CallModel) -> bool {
    &&& c.name@ == m.name
    &&& c.arguments@ == m.arguments
    &&& opt_view(c.qualified_name) == m.qualified_name
    &&& result_view(c.result) == m.result
    &&& match m.id {
        Some(i) => c.id@ == i,
        None => c.id@.len() == 36,
    }
}

pub open spec fn calls_agree(cs: Seq<ConversationToolCall>, ms: Seq<CallModel>) -> bool {
    &&& cs.len() == ms.len()
    &&& forall|i: int| 0 <= i < cs.len() ==> call_agrees(#[trigger] cs[i], ms[i])
}

/// A fresh call id: `uuid::Uuid::new_v4()` in its hyphenated form, which
/// is 36 characters long; the value itself is random.
#[verifier::external_body]
fn new_call_id() -> (r: String)
    ensures
        r@.len() == 36,
{
    uuid::Uuid::new_v4().to_string()
}


pub fn opt_str_member_exec(j: &JsonValue, key: &str) -> (r: Option<Option<String>>)
    ensures
        match r {
            Some(o) => opt_str_member(j@, key@) == Some(opt_view(o)),
            None => opt_str_member(j@, key@) is None,
        },
{
    match j.get(key) {
        None => Some(None),
        Some(v) => match v {
            JsonValue::Null => Some(None),
            JsonValue::String(s) => Some(Some(s.clone())),
            _ => None,
        },
    }
}

fn req_str_member_exec(j: &JsonValue, key: &str) -> (r: Option<String>)
    ensures
        opt_view(r) == req_str_member(j@, key@),
{
    match j.get(key) {
        Some(v) => match v {
            JsonValue::String(s) => Some(s.clone()),
            _ => None,
        },
        None => None,
    }
}

fn decode_content_exec(item: &JsonValue) -> (r: Option<ConversationToolContent>)
    ensures
        match r {
            Some(c) => decode_content(item@) == Some(c@),
            None => decode_content(item@) is None,
        },
{
    if !item.is_object() {
        return None;
    }
    let t = match req_str_member_exec(item, "type") {
        Some(t) => t,
        None => return None,
    };
    if crate::text::str_eq(t.as_str(), "text") {
        match req_str_member_exec(item, "text") {
            Some(x) => Some(ConversationToolContent::Text { text: x }),
            None => None,
        }
    } else if crate::text::str_eq(t.as_str(), "image") {
        match (req_str_member_exec(item, "data"), req_str_member_exec(item, "mimeType")) {
            (Some(d), Some(m)) => Some(ConversationToolContent::Image { data: d, mime_type: m }),
            _ => None,
        }
    } else if crate::text::str_eq(t.as_str(), "resource") {
        let uri = req_str_member_exec(item, "uri");
        let mime = opt_str_member_exec(item, "mimeType");
        let text = opt_str_member_exec(item, "text");
        let blob = opt_str_member_exec(item, "blob");
        match (uri, mime, text, blob) {
            (Some(u), Some(m), Some(x), Some(b)) => {
                let r = ConversationToolContent::Resource { uri: u, mime_type: m, text: x, blob: b };
                Some(r)
            },
            _ => None,
        }
    } else {
        None
    }
}

pub proof fn lemma_decode_contents_none(items: Seq<Json>, k: int)
    requires
        0 <= k <= items.len(),
        decode_contents(items.subrange(0, k)) is None,
    ensures
        decode_contents(items) is None,
    decreases items.len() - k,
{
    if k == items.len() {
        assert(items.subrange(0, k) =~= items);
    } else {
        let t = items.subrange(0, k + 1);
        assert(t.drop_last() =~= items.subrange(0, k));
        lemma_decode_contents_none(items, k + 1);
    }
}

fn decode_contents_exec(items: &Vec<JsonValue>) -> (r: Option<Vec<ConversationToolContent>>)
    ensures
        match r {
            Some(cs) => decode_contents(json_seq(items@)) == Some(conv_contents_view(cs@)),
            None => decode_contents(json_seq(items@)) is None,
        },
{
    let mut out: Vec<ConversationToolContent> = Vec::new();
    let mut i: usize = 0;
    proof {
        assert(json_seq(items@.subrange(0, 0)) =~= Seq::<Json>::empty());
        assert(conv_contents_view(out@) =~= Seq::<ContentModel>::empty());
    }
    while i < items.len()
        invariant
            i <= items@.len(),
            decode_contents(json_seq(items@.subrange(0, i as int))) == Some(conv_contents_view(out@)),
        decreases items.len() - i,
    {
        proof {
            lemma_json_seq_push(items@, i as int);
        }
        match decode_content_exec(&items[i]) {
            Some(c) => {
                let ghost before = out@;
                out.push(c);
                proof {
                    crate::tools::lemma_map_push(before, c, |x: ConversationToolContent| x@);
                }
            },
            None => {
                proof {
                    lemma_decode_contents_none(json_seq(items@), i + 1);
                    assert(json_seq(items@).subrange(0, i + 1) =~= json_seq(items@.subrange(0, i + 1)));
                }
                return None;
            },
        }
        i = i + 1;
    }
    proof {
        assert(items@.subrange(0, items@.len() as int) =~= items@);
    }
    Some(out)
}


fn decode_result_exec(j: &JsonValue) -> (r: Option<ConversationToolResult>)
    ensures
        match r {
            Some(res) => decode_result(j@) == Some(ResultModel { content: conv_contents_view(res.content@), is_error: res.is_error }),
            None => decode_result(j@) is None,
        },
{
    if !j.is_object() {
        return None;
    }
    let content = match j.get("content") {
        None => Some(Vec::new()),
        Some(c) => match c {
            JsonValue::Array(items) => {
                proof {
                    lemma_array_model(*c, *items);
                }
                decode_contents_exec(items)
            },
            _ => None,
        },
    };
    let is_error = match j.get("isError") {
        None => Some(false),
        Some(v) => match v {
            JsonValue::Bool(b) => Some(*b),
            _ => None,
        },
    };
    match (content, is_error) {
        (Some(c), Some(e)) => {
            proof {
                assert(conv_contents_view(c@) =~= conv_contents_view(c@));
                if json_get(j@, "content"@) is None {
                    assert(conv_contents_view(c@) =~= Seq::<ContentModel>::empty());
                }
            }
            Some(ConversationToolResult { content: c, is_error: e })
        },
        _ => None,
    }
}

fn result_member_exec(j: &JsonValue) -> (r: Option<Option<ConversationToolResult>>)
    ensures
        match r {
            Some(o) => result_member(j@) == Some(result_view(o)),
            None => result_member(j@) is None,
        },
{
    match j.get("result") {
        None => Some(None),
        Some(v) => match v {
            JsonValue::Null => Some(None),
            _ => match decode_result_exec(v) {
                Some(res) => Some(Some(res)),
                None => None,
            },
        },
    }
}

/// Decodes one tool call object; a call without an id gets a fresh one.
pub fn normalize_tool_call(v: &JsonValue) -> (r: Option<ConversationToolCall>)
    ensures
        match r {
            Some(c) => normalize_call(v@) matches Some(m) && call_agrees(c, m),
            None => normalize_call(v@) is None,
        },
{
    if !v.is_object() {
        return None;
    }
    let name = match req_str_member_exec(v, "name") {
        Some(n) => n,
        None => return None,
    };
    let args = match v.get("arguments") {
        Some(a) => a,
        None => return None,
    };
    let nc = chars_of(name.as_str());
    let (a, b) = trim_bounds(nc.as_slice());
    if a == b || !args.is_object() {
        return None;
    }
    let id: Option<Option<String>> = match v.get("id") {
        None => Some(None),
        Some(x) => match x {
            JsonValue::String(s) => Some(Some(s.clone())),
            _ => None,
        },
    };
    let qualified: Option<Option<String>> = match v.get("qualified_name") {
        None => Some(Some(name.clone())),
        Some(x) => match x {
            JsonValue::Null => Some(None),
            JsonValue::String(s) => Some(Some(s.clone())),
            _ => None,
        },
    };
    let result = result_member_exec(v);
    match (id, qualified, result) {
        (Some(i), Some(q), Some(res)) => {
            let id = match i {
                Some(s) => s,
                None => new_call_id(),
            };
            Some(ConversationToolCall {
                id,
                name,
                arguments: args.copy(),
                result: res,
                qualified_name: q,
            })
        },
        _ => None,
    }
}

fn filter_calls_exec(items: &Vec<JsonValue>) -> (r: Vec<ConversationToolCall>)
    ensures
        calls_agree(r@, filter_calls(json_seq(items@))),
{
    let mut out: Vec<ConversationToolCall> = Vec::new();
    let mut i: usize = 0;
    proof {
        assert(json_seq(items@.subrange(0, 0)) =~= Seq::<Json>::empty());
    }
    while i < items.len()
        invariant
            i <= items@.len(),
            calls_agree(out@, filter_calls(json_seq(items@.subrange(0, i as int)))),
        decreases items.len() - i,
    {
        proof {
            lemma_json_seq_push(items@, i as int);
        }
        match normalize_tool_call(&items[i]) {
            Some(c) => {
                out.push(c);
            },
            None => {},
        }
        i = i + 1;
    }
    proof {
        assert(items@.subrange(0, items@.len() as int) =~= items@);
    }
    out
}

/// The tool calls a JSON value holds.
pub fn calls_from_value_exec(v: &JsonValue) -> (r: Vec<ConversationToolCall>)
    ensures
        calls_agree(r@, calls_from_value(v@)),
{
    if v.get("name").is_some() {
        let mut out: Vec<ConversationToolCall> = Vec::new();
        match normalize_tool_call(v) {
            Some(c) => out.push(c),
            None => {},
        }
        return out;
    }
    match v.get("tool_call") {
        Some(tc) => {
            let mut out: Vec<ConversationToolCall> = Vec::new();
            match normalize_tool_call(tc) {
                Some(c) => out.push(c),
                None => {},
            }
            out
        },
        None => match v.get("tool_calls") {
            Some(x) => match x {
                JsonValue::Array(items) => {
                    proof {
                        lemma_array_model(*x, *items);
                    }
                    filter_calls_exec(items)
                },
                _ => Vec::new(),
            },
            None => Vec::new(),
        },
    }
}


/// Where the JSON object that starts at `i` ends: braces are counted outside
/// string literals (a backslash escapes the next character inside one); the
/// end is just past the brace that brings the count back to zero.
pub open spec fn scan_end(s: Seq<char>, i: int, depth: int, in_str: bool, esc: bool) -> Option<int>
    decreases s.len() - i,
{
    if i < 0 || i >= s.len() {
        None
    } else {
        let b = s[i];
        if in_str {
            if esc {
                scan_end(s, i + 1, depth, true, false)
            } else if b == '\\' {
                scan_end(s, i + 1, depth, true, true)
            } else if b == '"' {
                scan_end(s, i + 1, depth, false, false)
            } else {
                scan_end(s, i + 1, depth, true, false)
            }
        } else if b == '"' {
            scan_end(s, i + 1, depth, true, false)
        } else if b == '{' {
            scan_end(s, i + 1, depth + 1, false, false)
        } else if b == '}' {
            if depth - 1 == 0 {
                Some(i + 1)
            } else {
                scan_end(s, i + 1, depth - 1, false, false)
            }
        } else {
            scan_end(s, i + 1, depth, false, false)
        }
    }
}

pub proof fn lemma_scan_end_after(s: Seq<char>, i: int, depth: int, in_str: bool, esc: bool)
    ensures
        scan_end(s, i, depth, in_str, esc) matches Some(e) ==> i < e <= s.len(),
    decreases s.len() - i,
{
    if 0 <= i < s.len() {
        lemma_scan_end_after(s, i + 1, depth, true, false);
        lemma_scan_end_after(s, i + 1, depth, true, true);
        lemma_scan_end_after(s, i + 1, depth, false, false);
        lemma_scan_end_after(s, i + 1, depth + 1, false, false);
        lemma_scan_end_after(s, i + 1, depth - 1, false, false);
    }
}

/// The JSON object that starts at `start`: its end and its value, where the
/// braces close and the text between parses.
pub open spec fn json_value_at(s: Seq<char>, start: int) -> Option<(int, Json)> {
    match scan_end(s, start, 0, false, false) {
        Some(e) => match json_parse(s.subrange(start, e)) {
            Some(v) => Some((e, v)),
            None => None,
        },
        None => None,
    }
}

/// Finds the end of the JSON object starting at `start` and parses it.
pub fn parse_json_value_at(s: &Vec<char>, start: usize) -> (r: Option<(usize, JsonValue)>)
    ensures
        match r {
            Some((e, v)) => json_value_at(s@, start as int) == Some((e as int, v@)),
            None => json_value_at(s@, start as int) is None,
        },
        r matches Some((e, _)) ==> start < e <= s@.len(),
{
    let mut opens: usize = 0;
    let mut closes: usize = 0;
    let mut in_string = false;
    let mut escaped = false;
    let mut i: usize = start;
    if start > s.len() {
        return None;
    }
    while i < s.len()
        invariant
            start <= i <= s@.len(),
            opens <= i - start,
            closes <= i - start,
            !in_string ==> !escaped,
            scan_end(s@, start as int, 0, false, false) == scan_end(
                s@,
                i as int,
                opens as int - closes as int,
                in_string,
                escaped,
            ),
        decreases s.len() - i,
    {
        let b = s[i];
        let ghost d0 = opens as int - closes as int;
        let ghost st0 = in_string;
        let ghost esc0 = escaped;
        if in_string {
            if escaped {
                escaped = false;
            } else if b == '\\' {
                escaped = true;
            } else if b == '"' {
                in_string = false;
            }
        } else if b == '"' {
            in_string = true;
        } else if b == '{' {
            opens = opens + 1;
        } else if b == '}' {
            closes = closes + 1;
            if opens == closes {
                let end = i + 1;
                proof {
                    lemma_scan_end_after(s@, start as int, 0, false, false);
                }
                let inner = string_of(slice_range(s, start, end).as_slice());
                return match parse_json(inner.as_str()) {
                    Some(v) => Some((end, v)),
                    None => None,
                };
            }
        }
        proof {
            assert(scan_end(s@, i as int, d0, st0, esc0) == scan_end(
                s@,
                i + 1,
                opens as int - closes as int,
                in_string,
                escaped,
            ));
        }
        i = i + 1;
    }
    None
}


/// The marker that brackets a tool call in the text protocol.
pub open spec fn tag() -> Seq<char> {
    "<|tool_call|>"@
}

/// The calls a marked body `s[cs..te]` yields: those of the JSON value it
/// holds once trimmed, or none where it does not parse.
pub open spec fn marked_calls(s: Seq<char>, cs: int, te: int) -> Seq<CallModel> {
    match json_parse(trim(s.subrange(cs, te))) {
        Some(v) => calls_from_value(v),
        None => Seq::empty(),
    }
}

/// What stays of a marker pair `s[ts..te + marker]`: all of it where its body
/// yields no call, nothing otherwise.
pub open spec fn marked_piece(s: Seq<char>, ts: int, te: int) -> Seq<char> {
    if marked_calls(s, ts + tag().len(), te).len() == 0 {
        s.subrange(ts, te + tag().len())
    } else {
        Seq::empty()
    }
}

/// The first pass over a reply, from `cursor` on: text outside the marker
/// pairs is kept; a marked JSON body that yields calls is taken out, one that
/// does not stays in the text with its markers; an unpaired marker and what
/// follows it stay. Returns the kept text, the calls, and where the pass stopped.
pub open spec fn phase1(s: Seq<char>, cursor: int) -> (Seq<char>, Seq<CallModel>, int)
    decreases s.len() - cursor,
{
    if cursor < 0 || cursor > s.len() || tag().len() == 0 {
        (Seq::empty(), Seq::empty(), cursor)
    } else {
        match first_match_from(s, tag(), cursor) {
            None => (Seq::empty(), Seq::empty(), cursor),
            Some(ts) => if !(cursor <= ts && ts + tag().len() <= s.len()) {
                (Seq::empty(), Seq::empty(), cursor)
            } else {
                let cs = ts + tag().len();
                match first_match_from(s, tag(), cs) {
                    None => (s.subrange(cursor, s.len() as int), Seq::empty(), s.len() as int),
                    Some(te) => if !(cs <= te && te + tag().len() <= s.len()) {
                        (Seq::empty(), Seq::empty(), cursor)
                    } else {
                        let rest = phase1(s, te + tag().len());
                        (
                            s.subrange(cursor, ts) + marked_piece(s, ts, te) + rest.0,
                            marked_calls(s, cs, te) + rest.1,
                            rest.2,
                        )
                    },
                }
            },
        }
    }
}

proof fn lemma_tag_len()
    ensures
        tag().len() == 13,
{
    reveal_strlit("<|tool_call|>");
}

proof fn lemma_phase1_done(s: Seq<char>, cursor: int)
    requires
        0 <= cursor <= s.len(),
        first_match_from(s, tag(), cursor) is None,
    ensures
        phase1(s, cursor) == (Seq::<char>::empty(), Seq::<CallModel>::empty(), cursor),
{
    lemma_tag_len();
}

proof fn lemma_phase1_unpaired(s: Seq<char>, cursor: int, ts: int)
    requires
        0 <= cursor <= ts,
        ts + tag().len() <= s.len(),
        first_match_from(s, tag(), cursor) == Some(ts),
        first_match_from(s, tag(), ts + tag().len()) is None,
    ensures
        phase1(s, cursor) == (s.subrange(cursor, s.len() as int), Seq::<CallModel>::empty(), s.len() as int),
{
    lemma_tag_len();
}

proof fn lemma_phase1_pair(s: Seq<char>, cursor: int, ts: int, te: int)
    requires
        0 <= cursor <= ts,
        ts + tag().len() <= te,
        te + tag().len() <= s.len(),
        first_match_from(s, tag(), cursor) == Some(ts),
        first_match_from(s, tag(), ts + tag().len()) == Some(te),
    ensures
        phase1(s, cursor) == ({
            let rest = phase1(s, te + tag().len());
            (
                s.subrange(cursor, ts) + marked_piece(s, ts, te) + rest.0,
                marked_calls(s, ts + tag().len(), te) + rest.1,
                rest.2,
            )
        }),
{
    lemma_tag_len();
}

/// The second pass, over what follows the last marker pair: every `{` that
/// opens a JSON object holding calls has that object taken out; other
/// objects and all other text stay.
pub open spec fn phase2(r: Seq<char>, fc: int) -> (Seq<char>, Seq<CallModel>)
    decreases r.len() - fc,
{
    if fc < 0 || fc > r.len() {
        (Seq::empty(), Seq::empty())
    } else {
        match first_match_from(r, seq!['{'], fc) {
            None => (r.subrange(fc, r.len() as int), Seq::empty()),
            Some(st) => if !(fc <= st < r.len()) {
                (Seq::empty(), Seq::empty())
            } else {
                match json_value_at(r, st) {
                    Some(ev) => if !(st < ev.0 <= r.len()) {
                        (Seq::empty(), Seq::empty())
                    } else {
                        let calls = calls_from_value(ev.1);
                        let piece = if calls.len() == 0 {
                            r.subrange(st, ev.0)
                        } else {
                            Seq::empty()
                        };
                        let rest = phase2(r, ev.0);
                        (r.subrange(fc, st) + piece + rest.0, calls + rest.1)
                    },
                    None => {
                        let rest = phase2(r, st + 1);
                        (r.subrange(fc, st + 1) + rest.0, rest.1)
                    },
                }
            },
        }
    }
}

proof fn lemma_phase2_done(r: Seq<char>, fc: int)
    requires
        0 <= fc <= r.len(),
        first_match_from(r, seq!['{'], fc) is None,
    ensures
        phase2(r, fc) == (r.subrange(fc, r.len() as int), Seq::<CallModel>::empty()),
{
}

proof fn lemma_phase2_object(r: Seq<char>, fc: int, st: int, e: int, v: Json)
    requires
        0 <= fc <= st < e <= r.len(),
        first_match_from(r, seq!['{'], fc) == Some(st),
        json_value_at(r, st) == Some((e, v)),
    ensures
        phase2(r, fc) == ({
            let calls = calls_from_value(v);
            let piece = if calls.len() == 0 {
                r.subrange(st, e)
            } else {
                Seq::empty()
            };
            let rest = phase2(r, e);
            (r.subrange(fc, st) + piece + rest.0, calls + rest.1)
        }),
{
}

proof fn lemma_phase2_brace(r: Seq<char>, fc: int, st: int)
    requires
        0 <= fc <= st < r.len(),
        first_match_from(r, seq!['{'], fc) == Some(st),
        json_value_at(r, st) is None,
    ensures
        phase2(r, fc) == ({
            let rest = phase2(r, st + 1);
            (r.subrange(fc, st + 1) + rest.0, rest.1)
        }),
{
}

/// The kept text of a reply, before the fences are cleaned up.
pub open spec fn parsed_text(s: Seq<char>) -> Seq<char> {
    let p1 = phase1(s, 0);
    p1.0 + phase2(s.subrange(p1.2, s.len() as int), 0).0
}

/// The calls a reply carries, in the order they appear.
pub open spec fn parsed_calls(s: Seq<char>) -> Seq<CallModel> {
    let p1 = phase1(s, 0);
    p1.1 + phase2(s.subrange(p1.2, s.len() as int), 0).1
}

/// Empty ```json fences left where calls were taken out are removed, then
/// the text is trimmed.
pub open spec fn cleanup_fences(s: Seq<char>) -> Seq<char> {
    trim(
        replace_all(
            replace_all(replace_all(s, "```json\n\n```"@, Seq::empty()), "```json\n```"@, Seq::empty()),
            "````json\n\n````"@,
            Seq::empty(),
        ),
    )
}

/// A reply split into its text and the tool calls it carries.
#[derive(Debug, Clone)]
pub struct ParsedToolCalls {
    pub clean_text: String,
    pub calls: Vec<ConversationToolCall>,
}

pub proof fn lemma_agree_append(a: Seq<ConversationToolCall>, ma: Seq<CallModel>, b: Seq<ConversationToolCall>, mb: Seq<CallModel>)
    requires
        calls_agree(a, ma),
        calls_agree(b, mb),
    ensures
        calls_agree(a + b, ma + mb),
{
    assert forall|i: int| 0 <= i < (a + b).len() implies call_agrees(#[trigger] (a + b)[i], (ma + mb)[i]) by {
        if i < a.len() {
            assert(call_agrees(a[i], ma[i]));
        } else {
            assert(call_agrees(b[i - a.len()], mb[i - a.len()]));
        }
    }
}

fn append_chars(out: &mut Vec<char>, s: &Vec<char>, a: usize, b: usize)
    requires
        a <= b <= s@.len(),
    ensures
        final(out)@ == old(out)@ + s@.subrange(a as int, b as int),
{
    let mut piece = slice_range(s, a, b);
    out.append(&mut piece);
}

fn find_result(s: &Vec<char>, pat: &Vec<char>, from: usize) -> (r: Option<usize>)
    ensures
        r matches Some(i) ==> matches_at(s@, pat@, i as int) && from <= i,
        match r {
            Some(i) => first_match_from(s@, pat@, from as int) == Some(i as int),
            None => first_match_from(s@, pat@, from as int) is None,
        },
{
    let r = find_from(s.as_slice(), pat.as_slice(), from);
    proof {
        match r {
            Some(i) => lemma_first_match(s@, pat@, from as int, i as int),
            None => lemma_first_match_none(s@, pat@, from as int),
        }
    }
    r
}

fn phase1_exec(s: &Vec<char>) -> (r: (Vec<char>, Vec<ConversationToolCall>, usize))
    ensures
        r.0@ == phase1(s@, 0).0,
        calls_agree(r.1@, phase1(s@, 0).1),
        r.2 as int == phase1(s@, 0).2,
        r.2 <= s@.len(),
{
    let t = chars_of("<|tool_call|>");
    proof {
        reveal_strlit("<|tool_call|>");
        lemma_tag_len();
    }
    let ghost whole = phase1(s@, 0);
    let mut clean: Vec<char> = Vec::new();
    let mut calls: Vec<ConversationToolCall> = Vec::new();
    let ghost mut models: Seq<CallModel> = Seq::empty();
    let mut cursor: usize = 0;
    let n = s.len();
    proof {
        assert(clean@ + whole.0 =~= whole.0);
        assert(models + whole.1 =~= whole.1);
    }
    loop
        invariant
            n == s@.len(),
            t@ == tag(),
            t@.len() == 13,
            whole == phase1(s@, 0),
            cursor <= s@.len(),
            clean@ + phase1(s@, cursor as int).0 == whole.0,
            models + phase1(s@, cursor as int).1 == whole.1,
            phase1(s@, cursor as int).2 == whole.2,
            calls_agree(calls@, models),
        decreases s@.len() - cursor,
    {
        let ts = match find_result(s, &t, cursor) {
            Some(ts) => ts,
            None => {
                proof {
                    lemma_phase1_done(s@, cursor as int);
                    assert(clean@ + Seq::<char>::empty() =~= clean@);
                    assert(models + Seq::<CallModel>::empty() =~= models);
                }
                return (clean, calls, cursor);
            },
        };
        assert(matches_at(s@, t@, ts as int));
        let cs: usize = ts + 13;
        match find_result(s, &t, cs) {
            None => {
                proof {
                    lemma_phase1_unpaired(s@, cursor as int, ts as int);
                }
                append_chars(&mut clean, s, cursor, s.len());
                proof {
                    assert(models + Seq::<CallModel>::empty() =~= models);
                    assert(clean@ + Seq::<char>::empty() =~= clean@);
                }
                return (clean, calls, s.len());
            },
            Some(te) => {
                assert(matches_at(s@, t@, te as int));
                proof {
                    lemma_phase1_pair(s@, cursor as int, ts as int, te as int);
                }
                let body = slice_range(s, cs, te);
                let (a, b) = trim_bounds(body.as_slice());
                let inner_chars = slice_range(&body, a, b);
                let inner = string_of(inner_chars.as_slice());
                let found: Vec<ConversationToolCall> = match parse_json(inner.as_str()) {
                    Some(v) => calls_from_value_exec(&v),
                    None => Vec::new(),
                };
                let ghost found_models = marked_calls(s@, cs as int, te as int);
                assert(calls_agree(found@, found_models));
                let ghost old_clean = clean@;
                let ghost old_models = models;
                append_chars(&mut clean, s, cursor, ts);
                if found.len() == 0 {
                    append_chars(&mut clean, s, ts, te + 13);
                }
                let mut found = found;
                proof {
                    lemma_agree_append(calls@, models, found@, found_models);
                    models = models + found_models;
                }
                calls.append(&mut found);
                proof {
                    let rest = phase1(s@, te + 13);
                    assert(clean@ =~= old_clean + s@.subrange(cursor as int, ts as int) + marked_piece(s@, ts as int, te as int));
                    assert(clean@ + rest.0 =~= old_clean + phase1(s@, cursor as int).0);
                    assert(models + rest.1 =~= old_models + phase1(s@, cursor as int).1);
                }
                cursor = te + 13;
            },
        }
    }
}

fn phase2_exec(r: &Vec<char>) -> (out: (Vec<char>, Vec<ConversationToolCall>))
    ensures
        out.0@ == phase2(r@, 0).0,
        calls_agree(out.1@, phase2(r@, 0).1),
{
    let mut brace: Vec<char> = Vec::new();
    brace.push('{');
    let ghost whole = phase2(r@, 0);
    let mut clean: Vec<char> = Vec::new();
    let mut calls: Vec<ConversationToolCall> = Vec::new();
    let ghost mut models: Seq<CallModel> = Seq::empty();
    let mut fc: usize = 0;
    let n = r.len();
    proof {
        assert(brace@ =~= seq!['{']);
        assert(clean@ + whole.0 =~= whole.0);
        assert(models + whole.1 =~= whole.1);
    }
    loop
        invariant
            n == r@.len(),
            brace@ == seq!['{'],
            whole == phase2(r@, 0),
            fc <= r@.len(),
            clean@ + phase2(r@, fc as int).0 == whole.0,
            models + phase2(r@, fc as int).1 == whole.1,
            calls_agree(calls@, models),
        decreases r@.len() - fc,
    {
        let st = match find_result(r, &brace, fc) {
            Some(st) => st,
            None => {
                proof {
                    lemma_phase2_done(r@, fc as int);
                }
                append_chars(&mut clean, r, fc, n);
                proof {
                    assert(models + Seq::<CallModel>::empty() =~= models);
                }
                return (clean, calls);
            },
        };
        assert(matches_at(r@, brace@, st as int));
        let ghost old_clean = clean@;
        let ghost old_models = models;
        match parse_json_value_at(r, st) {
            Some((e, v)) => {
                proof {
                    lemma_phase2_object(r@, fc as int, st as int, e as int, v@);
                }
                let found = calls_from_value_exec(&v);
                let ghost found_models = calls_from_value(v@);
                append_chars(&mut clean, r, fc, st);
                if found.len() == 0 {
                    append_chars(&mut clean, r, st, e);
                }
                let mut found = found;
                proof {
                    lemma_agree_append(calls@, models, found@, found_models);
                    models = models + found_models;
                }
                calls.append(&mut found);
                proof {
                    let rest = phase2(r@, e as int);
                    let piece = if found_models.len() == 0 {
                        r@.subrange(st as int, e as int)
                    } else {
                        Seq::empty()
                    };
                    assert(clean@ =~= old_clean + r@.subrange(fc as int, st as int) + piece);
                    assert(clean@ + rest.0 =~= old_clean + phase2(r@, fc as int).0);
                    assert(models + rest.1 =~= old_models + phase2(r@, fc as int).1);
                }
                fc = e;
            },
            None => {
                proof {
                    lemma_phase2_brace(r@, fc as int, st as int);
                }
                append_chars(&mut clean, r, fc, st + 1);
                proof {
                    let rest = phase2(r@, st + 1);
                    assert(clean@ + rest.0 =~= old_clean + phase2(r@, fc as int).0);
                }
                fc = st + 1;
            },
        }
    }
}

fn cleanup_markdown_json_fences(text: &Vec<char>) -> (r: String)
    ensures
        r@ == cleanup_fences(text@),
{
    let empty: Vec<char> = Vec::new();
    let f1 = chars_of("```json\n\n```");
    let f2 = chars_of("```json\n```");
    let f3 = chars_of("````json\n\n````");
    proof {
        reveal_strlit("```json\n\n```");
        reveal_strlit("```json\n```");
        reveal_strlit("````json\n\n````");
        assert(empty@ =~= Seq::<char>::empty());
    }
    let a = replace_all_exec(text, &f1, &empty);
    let b = replace_all_exec(&a, &f2, &empty);
    let c = replace_all_exec(&b, &f3, &empty);
    let (lo, hi) = trim_bounds(c.as_slice());
    string_of(slice_range(&c, lo, hi).as_slice())
}

/// Splits a model reply into its text and the tool calls it carries: first
/// the calls between `<|tool_call|>` marker pairs, then any JSON object in
/// the text after the last pair that names calls. The calls leave the text;
/// everything else stays, and empty ```json fences left behind are removed.
pub fn parse_tool_calls(text: &str) -> (r: ParsedToolCalls)
    ensures
        r.clean_text@ == cleanup_fences(parsed_text(text@)),
        calls_agree(r.calls@, parsed_calls(text@)),
{
    let s = chars_of(text);
    let (mut clean, mut calls, cursor) = phase1_exec(&s);
    let rest = slice_range(&s, cursor, s.len());
    let (mut clean2, mut calls2) = phase2_exec(&rest);
    proof {
        lemma_agree_append(calls@, phase1(s@, 0).1, calls2@, phase2(rest@, 0).1);
    }
    clean.append(&mut clean2);
    calls.append(&mut calls2);
    ParsedToolCalls { clean_text: cleanup_markdown_json_fences(&clean), calls }
}

} // verus!
