//! The JSON-RPC messages an MCP server is spoken to with over its standard
//! streams: the requests and notifications written, one per line, and what
//! is made of each line read back. Writing and reading the streams is the
//! application's.
use vstd::prelude::*;

use crate::json::{json_get, json_parse, json_text, parse_json, to_json_string, Json, JsonMember, JsonValue};
use crate::text::{chars_of, decimal, owned, push_char, push_decimal, push_str, trim, trim_string};

verus! {

broadcast use vstd::string::group_string_axioms;

/// The text of an integer.
pub open spec fn int_text(i: int) -> Seq<char> {
    if i < 0 {
        seq!['-'] + decimal((-i) as nat)
    } else {
        decimal(i as nat)
    }
}

/// A request: protocol version, id, method, and parameters.
pub open spec fn request_json(id: int, method: Seq<char>, params: Json) -> Json {
    Json::Object(
        seq!["jsonrpc"@, "id"@, "method"@, "params"@],
        seq![Json::Str("2.0"@), Json::Number(int_text(id)), Json::Str(method), params],
    )
}

fn member(key: &str, value: JsonValue) -> (r: JsonMember)
    ensures
        r.key@ == key@,
        r.value == value,
{
    JsonMember { key: owned(key), value }
}

/// The text of an integer.
pub fn int_string(i: i64) -> (r: String)
    ensures
        r@ == int_text(i as int),
{
    let mut out = String::new();
    if i < 0 {
        push_char(&mut out, '-');
        let m: i128 = 0i128 - (i as i128);
        push_decimal(&mut out, m as u64);
        proof {
            assert(out@ =~= seq!['-'] + decimal((-i) as nat));
        }
    } else {
        push_decimal(&mut out, i as u64);
        proof {
            assert(out@ =~= decimal(i as nat));
        }
    }
    out
}

/// A request with this id, method and parameters.
pub fn rpc_request(id: i64, method: &str, params: JsonValue) -> (r: JsonValue)
    ensures
        r@ == request_json(id as int, method@, params@),
{
    let ghost p = params@;
    let mut ms: Vec<JsonMember> = Vec::new();
    ms.push(member("jsonrpc", JsonValue::String(owned("2.0"))));
    ms.push(member("id", JsonValue::Number(int_string(id))));
    ms.push(member("method", JsonValue::String(owned(method))));
    ms.push(member("params", params));
    let r = JsonValue::Object(ms);
    proof {
        assert(ms@[0].value@ == Json::Str("2.0"@));
        assert(ms@[1].value@ == Json::Number(int_text(id as int)));
        assert(ms@[2].value@ == Json::Str(method@));
        assert(ms@[3].value@ == p);
        assert(r@->Object_0 =~= request_json(id as int, method@, p)->Object_0);
        assert(r@->Object_1 =~= request_json(id as int, method@, p)->Object_1);
    }
    r
}

/// The notification that the connection is set up.
pub fn initialized_notification() -> (r: JsonValue)
    ensures
        r@ == Json::Object(seq!["jsonrpc"@, "method"@], seq![Json::Str("2.0"@), Json::Str("notifications/initialized"@)]),
{
    let mut ms: Vec<JsonMember> = Vec::new();
    ms.push(member("jsonrpc", JsonValue::String(owned("2.0"))));
    ms.push(member("method", JsonValue::String(owned("notifications/initialized"))));
    let r = JsonValue::Object(ms);
    proof {
        assert(ms@[0].value@ == Json::Str("2.0"@));
        assert(ms@[1].value@ == Json::Str("notifications/initialized"@));
        assert(r@->Object_0 =~= seq!["jsonrpc"@, "method"@]);
        assert(r@->Object_1 =~= seq![Json::Str("2.0"@), Json::Str("notifications/initialized"@)]);
    }
    r
}

/// The parameters of `initialize`: the protocol version, no capabilities,
/// and who the client is.
pub open spec fn initialize_json() -> Json {
    Json::Object(
        seq!["protocolVersion"@, "capabilities"@, "clientInfo"@],
        seq![
            Json::Str("2024-11-05"@),
            Json::Object(Seq::empty(), Seq::empty()),
            Json::Object(seq!["name"@, "version"@], seq![Json::Str("wisp"@), Json::Str("0.1.0"@)]),
        ],
    )
}

/// The parameters of `initialize`.
pub fn initialize_params() -> (r: JsonValue)
    ensures
        r@ == initialize_json(),
{
    let mut info: Vec<JsonMember> = Vec::new();
    info.push(member("name", JsonValue::String(owned("wisp"))));
    info.push(member("version", JsonValue::String(owned("0.1.0"))));
    let client = JsonValue::Object(info);
    let caps = JsonValue::Object(Vec::new());
    proof {
        assert(info@[0].value@ == Json::Str("wisp"@));
        assert(info@[1].value@ == Json::Str("0.1.0"@));
        assert(client@->Object_0 =~= seq!["name"@, "version"@]);
        assert(client@->Object_1 =~= seq![Json::Str("wisp"@), Json::Str("0.1.0"@)]);
        assert(caps@->Object_0 =~= Seq::<Seq<char>>::empty());
        assert(caps@->Object_1 =~= Seq::<Json>::empty());
    }
    let ghost cv = client@;
    let ghost kv = caps@;
    let mut ms: Vec<JsonMember> = Vec::new();
    ms.push(member("protocolVersion", JsonValue::String(owned("2024-11-05"))));
    ms.push(member("capabilities", caps));
    ms.push(member("clientInfo", client));
    let r = JsonValue::Object(ms);
    proof {
        assert(ms@[0].value@ == Json::Str("2024-11-05"@));
        assert(ms@[1].value@ == kv);
        assert(ms@[2].value@ == cv);
        assert(r@->Object_0 =~= initialize_json()->Object_0);
        assert(r@->Object_1 =~= initialize_json()->Object_1);
    }
    r
}

/// The parameters of `tools/list`: the cursor, where there is one.
pub fn list_tools_params(cursor: Option<String>) -> (r: JsonValue)
    ensures
        r@ == match cursor {
            Some(c) => Json::Object(seq!["cursor"@], seq![Json::Str(c@)]),
            None => Json::Object(Seq::empty(), Seq::empty()),
        },
{
    let mut ms: Vec<JsonMember> = Vec::new();
    let ghost c0 = cursor;
    match cursor {
        Some(c) => {
            ms.push(member("cursor", JsonValue::String(c)));
            let r = JsonValue::Object(ms);
            proof {
                assert(ms@[0].value@ == Json::Str(c0->0@));
                assert(r@->Object_0 =~= seq!["cursor"@]);
                assert(r@->Object_1 =~= seq![Json::Str(c0->0@)]);
            }
            r
        },
        None => {
            let r = JsonValue::Object(ms);
            proof {
                assert(r@->Object_0 =~= Seq::<Seq<char>>::empty());
                assert(r@->Object_1 =~= Seq::<Json>::empty());
            }
            r
        },
    }
}

/// The arguments of a tool call, an empty object where none are given.
pub open spec fn args_or_empty(arguments: Option<JsonValue>) -> Json {
    match arguments {
        Some(a) => a@,
        None => Json::Object(Seq::empty(), Seq::empty()),
    }
}

/// The parameters of `tools/call`: the tool's name and its arguments, an
/// empty object where none are given.
pub fn call_tool_params(name: &str, arguments: Option<JsonValue>) -> (r: JsonValue)
    ensures
        r@ == Json::Object(seq!["name"@, "arguments"@], seq![Json::Str(name@), args_or_empty(arguments)]),
{
    let ghost expected = args_or_empty(arguments);
    let args = match arguments {
        Some(a) => {
            assert(a@ == expected);
            a
        },
        None => {
            let e = JsonValue::Object(Vec::new());
            proof {
                assert(e@->Object_0 =~= Seq::<Seq<char>>::empty());
                assert(e@->Object_1 =~= Seq::<Json>::empty());
            }
            e
        },
    };
    assert(args@ == expected);
    let ghost av = args@;
    let mut ms: Vec<JsonMember> = Vec::new();
    ms.push(member("name", JsonValue::String(owned(name))));
    ms.push(member("arguments", args));
    let r = JsonValue::Object(ms);
    proof {
        assert(ms@[0].value@ == Json::Str(name@));
        assert(ms@[1].value@ == av);
        assert(r@->Object_0 =~= seq!["name"@, "arguments"@]);
        assert(r@->Object_1 =~= seq![Json::Str(name@), av]);
        assert(r@ == Json::Object(seq!["name"@, "arguments"@], seq![Json::Str(name@), expected]));
    }
    r
}

/// A message as the line written for it.
pub fn rpc_line(message: &JsonValue) -> (r: String)
    ensures
        r@ == json_text(message@) + "\n"@,
{
    let mut out = to_json_string(message);
    push_str(&mut out, "\n");
    out
}

/// What a response gives: its `result`; an error where it carries one.
pub open spec fn outcome_of(response: Json) -> Result<Json, Seq<char>> {
    match json_get(response, "error"@) {
        Some(e) => Err("MCP Server Error: "@ + json_text(e)),
        None => match json_get(response, "result"@) {
            Some(v) => Ok(v),
            None => Err("MCP response missing 'result'"@),
        },
    }
}

/// What a response gives (see `outcome_of`).
pub fn rpc_outcome(response: &JsonValue) -> (r: Result<JsonValue, String>)
    ensures
        match outcome_of(response@) {
            Ok(v) => r matches Ok(x) && x@ == v,
            Err(m) => r matches Err(x) && x@ == m,
        },
{
    match response.get("error") {
        Some(e) => {
            let mut out = owned("MCP Server Error: ");
            let t = to_json_string(e);
            push_str(&mut out, t.as_str());
            Err(out)
        },
        None => match response.get("result") {
            Some(v) => Ok(v.copy()),
            None => Err(owned("MCP response missing 'result'")),
        },
    }
}

/// Whether every character is an ASCII digit.
pub open spec fn all_digits(s: Seq<char>) -> bool {
    forall|i: int| 0 <= i < s.len() ==> '0' <= #[trigger] s[i] <= '9'
}

/// The value of a run of decimal digits.
pub open spec fn digits_value(s: Seq<char>) -> int
    decreases s.len(),
{
    if s.len() == 0 {
        0
    } else {
        digits_value(s.drop_last()) * 10 + (s.last() as int - '0' as int)
    }
}

/// The integer a JSON number's text stands for, where it is an integer
/// that fits in 64 signed bits (`Number::as_i64`): an optional minus sign
/// and at least one digit.
pub open spec fn number_i64(text: Seq<char>) -> Option<int> {
    if text.len() > 0 && text[0] == '-' {
        let d = text.subrange(1, text.len() as int);
        if d.len() > 0 && all_digits(d) && digits_value(d) <= 0x8000_0000_0000_0000 {
            Some(-digits_value(d))
        } else {
            None
        }
    } else if text.len() > 0 && all_digits(text) && digits_value(text) <= 0x7fff_ffff_ffff_ffff {
        Some(digits_value(text))
    } else {
        None
    }
}

proof fn lemma_digits_nonneg(s: Seq<char>)
    requires
        all_digits(s),
    ensures
        digits_value(s) >= 0,
    decreases s.len(),
{
    if s.len() > 0 {
        assert(all_digits(s.drop_last())) by {
            assert forall|i: int| 0 <= i < s.drop_last().len() implies '0' <= #[trigger] s.drop_last()[i] <= '9' by {
                assert(s.drop_last()[i] == s[i]);
            }
        }
        lemma_digits_nonneg(s.drop_last());
        assert('0' <= s.last() <= '9') by {
            assert(s.last() == s[s.len() - 1]);
        }
    }
}

/// The value of `cs[from..]` read as decimal digits, where it is at most
/// `limit`.
fn digits_upto(cs: &Vec<char>, from: usize, limit: u64) -> (r: Option<u64>)
    requires
        from <= cs@.len(),
        limit >= 9,
    ensures
        match r {
            Some(v) => cs@.len() > from && all_digits(cs@.subrange(from as int, cs@.len() as int)) && v == digits_value(
                cs@.subrange(from as int, cs@.len() as int),
            ) && v <= limit,
            None => !(cs@.len() > from && all_digits(cs@.subrange(from as int, cs@.len() as int)) && digits_value(
                cs@.subrange(from as int, cs@.len() as int),
            ) <= limit),
        },
{
    if cs.len() == from {
        return None;
    }
    let ghost s = cs@.subrange(from as int, cs@.len() as int);
    let mut acc: u64 = 0;
    let mut i: usize = from;
    while i < cs.len()
        invariant
            from <= i <= cs@.len(),
            s == cs@.subrange(from as int, cs@.len() as int),
            all_digits(cs@.subrange(from as int, i as int)),
            acc == digits_value(cs@.subrange(from as int, i as int)),
            acc <= limit,
            limit >= 9,
        decreases cs.len() - i,
    {
        let c = cs[i];
        let ghost pre = cs@.subrange(from as int, i as int);
        let ghost next = cs@.subrange(from as int, i + 1);
        proof {
            assert(next.drop_last() =~= pre);
            assert(next.last() == c);
        }
        if !('0' <= c && c <= '9') {
            proof {
                assert(s[i - from] == c);
            }
            return None;
        }
        let d: u64 = (c as u32 - '0' as u32) as u64;
        proof {
            assert(all_digits(next)) by {
                assert forall|k: int| 0 <= k < next.len() implies '0' <= #[trigger] next[k] <= '9' by {
                    if k < pre.len() {
                        assert(next[k] == pre[k]);
                    }
                }
            }
            assert(digits_value(next) == digits_value(pre) * 10 + d);
        }
        if acc > (limit - d) / 10 {
            proof {
                assert(digits_value(next) > limit) by (nonlinear_arith)
                    requires
                        acc > (limit - d) / 10,
                        digits_value(next) == acc * 10 + d,
                        d <= 9,
                        d <= limit,
                {
                }
                assert(s.subrange(0, i - from + 1) =~= next);
                lemma_digits_grow(s, i - from + 1, limit as int);
            }
            return None;
        }
        proof {
            assert(acc * 10 + d <= limit) by (nonlinear_arith)
                requires
                    acc <= (limit - d) / 10,
                    d <= limit,
            {
            }
        }
        acc = acc * 10 + d;
        i = i + 1;
    }
    proof {
        assert(cs@.subrange(from as int, i as int) =~= s);
    }
    Some(acc)
}

/// Once a prefix of digits exceeds `limit`, the whole run, if all digits,
/// does too.
proof fn lemma_digits_grow(s: Seq<char>, k: int, limit: int)
    requires
        0 < k <= s.len(),
        digits_value(s.subrange(0, k)) > limit,
        limit >= 0,
    ensures
        all_digits(s) ==> digits_value(s) > limit,
    decreases s.len() - k,
{
    if k < s.len() && all_digits(s) {
        let a = s.subrange(0, k);
        let b = s.subrange(0, k + 1);
        assert(b.drop_last() =~= a);
        assert('0' <= b.last() <= '9') by {
            assert(b.last() == s[k]);
        }
        assert(digits_value(b) >= digits_value(a) * 10) by {
            assert(digits_value(b) == digits_value(a) * 10 + (b.last() as int - '0' as int));
        }
        assert(digits_value(a) * 10 >= digits_value(a)) by (nonlinear_arith)
            requires
                digits_value(a) > limit,
                limit >= 0,
        {
        }
        lemma_digits_grow(s, k + 1, limit);
    } else if k == s.len() {
        assert(s.subrange(0, k) =~= s);
    }
}

/// `Number::as_i64` on a number's text (see `number_i64`).
pub fn number_as_i64(text: &str) -> (r: Option<i64>)
    ensures
        match number_i64(text@) {
            Some(v) => r matches Some(x) && x as int == v,
            None => r is None,
        },
{
    let cs = chars_of(text);
    if cs.len() > 0 && cs[0] == '-' {
        match digits_upto(&cs, 1, 0x8000_0000_0000_0000u64) {
            Some(v) => {
                let w: i128 = 0i128 - (v as i128);
                Some(w as i64)
            },
            None => None,
        }
    } else {
        proof {
            if cs@.len() > 0 && all_digits(cs@) {
                lemma_digits_nonneg(cs@);
            }
        }
        proof {
            assert(cs@.subrange(0, cs@.len() as int) =~= cs@);
        }
        match digits_upto(&cs, 0, 0x7fff_ffff_ffff_ffffu64) {
            Some(v) => Some(v as i64),
            None => None,
        }
    }
}

/// A line read from a server: blank; a response to the request with this
/// id; a notification; or not JSON.
#[derive(Debug)]
pub enum IncomingLine {
    Blank,
    Response(i64, JsonValue),
    Notification(String),
    Invalid(String),
}

/// The id of a response: an integer `id` member.
pub open spec fn response_id(msg: Json) -> Option<int> {
    match json_get(msg, "id"@) {
        Some(Json::Number(t)) => number_i64(t),
        _ => None,
    }
}

/// Sorts a line read from a server: trimmed, a blank line is skipped; JSON
/// with an integer `id` answers that request; other JSON is a notification;
/// anything else is not JSON. Notifications and non-JSON keep the trimmed
/// text.
pub fn classify_line(line: &str) -> (r: IncomingLine)
    ensures
        trim(line@).len() == 0 ==> r is Blank,
        trim(line@).len() > 0 ==> match json_parse(trim(line@)) {
            None => r matches IncomingLine::Invalid(t) && t@ == trim(line@),
            Some(msg) => match response_id(msg) {
                Some(id) => r matches IncomingLine::Response(i, m) && i == id && m@ == msg,
                None => r matches IncomingLine::Notification(t) && t@ == trim(line@),
            },
        },
{
    let trimmed = trim_string(line);
    if trimmed.as_str().is_empty() {
        return IncomingLine::Blank;
    }
    match parse_json(trimmed.as_str()) {
        None => IncomingLine::Invalid(trimmed),
        Some(msg) => {
            let id = match msg.get("id") {
                Some(JsonValue::Number(t)) => number_as_i64(t.as_str()),
                _ => None,
            };
            match id {
                Some(i) => IncomingLine::Response(i, msg),
                None => IncomingLine::Notification(trimmed),
            }
        },
    }
}

} // verus!
