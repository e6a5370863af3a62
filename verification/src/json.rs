//! JSON values as the library holds them, and the calls into `serde_json`
//! that read and write their text.
use vstd::prelude::*;

use crate::text::str_eq;

verus! {

broadcast use vstd::string::group_string_axioms;

/// A JSON value. Numbers are kept as the text `serde_json` writes for them.
#[derive(Debug)]
pub enum JsonValue {
    Null,
    Bool(bool),
    Number(String),
    String(String),
    Array(Vec<JsonValue>),
    Object(Vec<JsonMember>),
}

/// One member of a JSON object.
#[derive(Debug)]
pub struct JsonMember {
    pub key: String,
    pub value: JsonValue,
}

/// The mathematical model of a JSON value; an object is its keys and its
/// values, position by position.
pub enum Json {
    Null,
    Bool(bool),
    Number(Seq<char>),
    Str(Seq<char>),
    Array(Seq<Json>),
    Object(Seq<Seq<char>>, Seq<Json>),
}

impl View for JsonValue {
    type V = Json;

    open spec fn view(&self) -> Json
        decreases self,
    {
        match self {
            JsonValue::Null => Json::Null,
            JsonValue::Bool(b) => Json::Bool(*b),
            JsonValue::Number(n) => Json::Number(n@),
            JsonValue::String(s) => Json::Str(s@),
            JsonValue::Array(items) => {
                proof {
                    assert forall|i: int| 0 <= i < items.len() implies decreases_to!(self => items@[i]) by {
                        assert(decreases_to!(self => items));
                        assert(decreases_to!(items => items@));
                        assert(decreases_to!(items@ => items@[i]));
                    }
                }
                Json::Array(
                    Seq::new(items.len() as nat, |i: int| if 0 <= i < items.len() { items@[i]@ } else { Json::Null }),
                )
            },
            JsonValue::Object(entries) => {
                proof {
                    assert forall|i: int| 0 <= i < entries.len() implies decreases_to!(self => entries@[i].value) by {
                        assert(decreases_to!(self => entries));
                        assert(decreases_to!(entries => entries@));
                        assert(decreases_to!(entries@ => entries@[i]));
                        assert(decreases_to!(entries@[i] => entries@[i].value));
                    }
                }
                Json::Object(
                    Seq::new(entries.len() as nat, |i: int| entries@[i].key@),
                    Seq::new(entries.len() as nat, |i: int| if 0 <= i < entries.len() { entries@[i].value@ } else { Json::Null }),
                )
            },
        }
    }
}


impl JsonValue {
    /// A copy of the value.
    #[verifier::loop_isolation(false)]
    pub fn copy(&self) -> (r: JsonValue)
        ensures
            r@ == self@,
        decreases self,
    {
        match self {
            JsonValue::Null => JsonValue::Null,
            JsonValue::Bool(b) => JsonValue::Bool(*b),
            JsonValue::Number(n) => JsonValue::Number(n.clone()),
            JsonValue::String(s) => JsonValue::String(s.clone()),
            JsonValue::Array(items) => {
                let mut out: Vec<JsonValue> = Vec::new();
                let mut i: usize = 0;
                while i < items.len()
                    invariant
                        i <= items.len(),
                        out@.len() == i,
                        forall|j: int| 0 <= j < i ==> (#[trigger] out@[j])@ == items@[j]@,
                    decreases items.len() - i,
                {
                    proof {
                        assert(decreases_to!(self => items@[i as int]));
                    }
                    out.push(items[i].copy());
                    i = i + 1;
                }
                let r = JsonValue::Array(out);
                assert(r@->Array_0 =~= self@->Array_0);
                r
            },
            JsonValue::Object(entries) => {
                let mut out: Vec<JsonMember> = Vec::new();
                let mut i: usize = 0;
                while i < entries.len()
                    invariant
                        i <= entries.len(),
                        out@.len() == i,
                        forall|j: int| 0 <= j < i ==> (#[trigger] out@[j]).key@ == entries@[j].key@ && out@[j].value@ == entries@[j].value@,
                    decreases entries.len() - i,
                {
                    proof {
                        assert(decreases_to!(self => entries@[i as int].value));
                    }
                    out.push(JsonMember { key: entries[i].key.clone(), value: entries[i].value.copy() });
                    i = i + 1;
                }
                let r = JsonValue::Object(out);
                assert(r@->Object_0 =~= self@->Object_0);
                assert(r@->Object_1 =~= self@->Object_1);
                r
            },
        }
    }
}

impl Clone for JsonValue {
    fn clone(&self) -> (r: JsonValue)
        ensures
            r@ == self@,
    {
        self.copy()
    }
}


/// The position of the first key equal to `key`, searching from `i` on.
pub open spec fn key_index_from(keys: Seq<Seq<char>>, key: Seq<char>, i: int) -> Option<int>
    decreases keys.len() - i,
{
    if i < 0 || i >= keys.len() {
        None
    } else if keys[i] == key {
        Some(i)
    } else {
        key_index_from(keys, key, i + 1)
    }
}

/// `serde_json::Value::get(key)`: the value of the first member named `key`
/// of an object, nothing for any other value.
pub open spec fn json_get(j: Json, key: Seq<char>) -> Option<Json> {
    match j {
        Json::Object(keys, values) => match key_index_from(keys, key, 0) {
            Some(i) => Some(values[i]),
            None => None,
        },
        _ => None,
    }
}

/// The text of a JSON string.
pub open spec fn json_as_str(j: Json) -> Option<Seq<char>> {
    match j {
        Json::Str(s) => Some(s),
        _ => None,
    }
}

/// The text of the string member `key`, if the member is a string.
pub open spec fn json_str_field(j: Json, key: Seq<char>) -> Option<Seq<char>> {
    match json_get(j, key) {
        Some(v) => json_as_str(v),
        None => None,
    }
}

/// The boolean member `key`, if the member is a boolean.
pub open spec fn json_bool_field(j: Json, key: Seq<char>) -> Option<bool> {
    match json_get(j, key) {
        Some(Json::Bool(b)) => Some(b),
        _ => None,
    }
}

pub proof fn lemma_key_index_skip(keys: Seq<Seq<char>>, key: Seq<char>, i: int)
    requires
        0 <= i <= keys.len(),
        forall|j: int| 0 <= j < i ==> keys[j] != key,
    ensures
        key_index_from(keys, key, 0) == key_index_from(keys, key, i),
    decreases i,
{
    if i > 0 {
        lemma_key_index_skip(keys, key, i - 1);
    }
}

/// The name of what `serde_json::from_str::<Value>` returns for a text: the
/// value it reads, or nothing where the text is not JSON.
pub uninterp spec fn json_parse(text: Seq<char>) -> Option<Json>;

/// The name of the compact text `serde_json::to_string` writes for a value.
pub uninterp spec fn json_text(v: Json) -> Seq<char>;

/// Reads a JSON text with `serde_json::from_str::<serde_json::Value>`.
/// Claimed: the result is `json_parse` of the text, so it depends on the
/// text alone; what `json_parse` is on a given text is not stated.
#[verifier::external_body]
pub(crate) fn parse_json(text: &str) -> (r: Option<JsonValue>)
    ensures
        match r {
            Some(v) => json_parse(text@) == Some(v@),
            None => json_parse(text@) is None,
        },
{
    serde_json::from_str::<serde_json::Value>(text).ok().map(from_serde)
}

/// Writes a value with `serde_json::to_string`. Claimed: the text is
/// `json_text` of the value; what that text is, is not stated.
#[verifier::external_body]
pub(crate) fn to_json_string(v: &JsonValue) -> (r: String)
    ensures
        r@ == json_text(v@),
{
    serde_json::to_string(&to_serde(v)).unwrap_or_default()
}

/// The name of the indented text `serde_json::to_string_pretty` writes for a value.
pub uninterp spec fn json_pretty_text(v: Json) -> Seq<char>;

/// Writes a value with `serde_json::to_string_pretty`. Claimed: the text
/// is `json_pretty_text` of the value; what that text is, is not stated.
#[verifier::external_body]
pub(crate) fn to_json_pretty(v: &JsonValue) -> (r: String)
    ensures
        r@ == json_pretty_text(v@),
{
    serde_json::to_string_pretty(&to_serde(v)).unwrap_or_default()
}

/// `serde_json::Value`, carried through the two conversions below.
#[verifier::external_type_specification]
#[verifier::external_body]
pub struct ExSerdeValue(serde_json::Value);

/// Moves a `serde_json::Value` into the library's representation, variant
/// by variant; numbers keep the text `serde_json` writes for them.
#[verifier::external_body]
fn from_serde(v: serde_json::Value) -> JsonValue {
    match v {
        serde_json::Value::Null => JsonValue::Null,
        serde_json::Value::Bool(b) => JsonValue::Bool(b),
        serde_json::Value::Number(n) => JsonValue::Number(n.to_string()),
        serde_json::Value::String(s) => JsonValue::String(s),
        serde_json::Value::Array(a) => JsonValue::Array(a.into_iter().map(from_serde).collect()),
        serde_json::Value::Object(o) => JsonValue::Object(
            o.into_iter().map(|(key, value)| JsonMember { key, value: from_serde(value) }).collect(),
        ),
    }
}

/// The inverse of `from_serde`.
#[verifier::external_body]
fn to_serde(v: &JsonValue) -> serde_json::Value {
    match v {
        JsonValue::Null => serde_json::Value::Null,
        JsonValue::Bool(b) => serde_json::Value::Bool(*b),
        JsonValue::Number(n) => match n.parse::<serde_json::Number>() {
            Ok(num) => serde_json::Value::Number(num),
            Err(_) => serde_json::Value::String(n.clone()),
        },
        JsonValue::String(s) => serde_json::Value::String(s.clone()),
        JsonValue::Array(a) => serde_json::Value::Array(a.iter().map(to_serde).collect()),
        JsonValue::Object(o) => serde_json::Value::Object(
            o.iter().map(|m| (m.key.clone(), to_serde(&m.value))).collect(),
        ),
    }
}

impl JsonValue {
    /// `Value::get`: the first member named `key` of an object.
    #[verifier::loop_isolation(false)]
    pub fn get(&self, key: &str) -> (r: Option<&JsonValue>)
        ensures
            match r {
                Some(v) => json_get(self@, key@) == Some(v@),
                None => json_get(self@, key@) is None,
            },
    {
        match self {
            JsonValue::Object(entries) => {
                let ghost keys = self@->Object_0;
                let mut i: usize = 0;
                while i < entries.len()
                    invariant
                        i <= entries.len(),
                        keys == Seq::new(entries.len() as nat, |k: int| entries@[k].key@),
                        forall|j: int| 0 <= j < i ==> keys[j] != key@,
                    decreases entries.len() - i,
                {
                    if str_eq(entries[i].key.as_str(), key) {
                        proof {
                            lemma_key_index_skip(keys, key@, i as int);
                            assert(self@->Object_1[i as int] == entries@[i as int].value@);
                        }
                        return Some(&entries[i].value);
                    }
                    i = i + 1;
                }
                proof {
                    lemma_key_index_skip(keys, key@, i as int);
                }
                None
            },
            _ => None,
        }
    }

    /// `Value::as_str`.
    pub fn as_str(&self) -> (r: Option<&String>)
        ensures
            match r {
                Some(s) => json_as_str(self@) == Some(s@),
                None => json_as_str(self@) is None,
            },
    {
        match self {
            JsonValue::String(s) => Some(s),
            _ => None,
        }
    }

    /// `Value::as_bool`.
    pub fn as_bool(&self) -> (r: Option<bool>)
        ensures
            r == (match self@ {
                Json::Bool(b) => Some(b),
                _ => None,
            }),
    {
        match self {
            JsonValue::Bool(b) => Some(*b),
            _ => None,
        }
    }

    /// `Value::as_array`.
    pub fn as_array(&self) -> (r: Option<&Vec<JsonValue>>)
        ensures
            r is Some <==> self@ is Array,
            r matches Some(items) ==> *self == JsonValue::Array(*items),
    {
        match self {
            JsonValue::Array(items) => Some(items),
            _ => None,
        }
    }

    /// `Value::as_object`.
    pub fn as_object(&self) -> (r: Option<&Vec<JsonMember>>)
        ensures
            r is Some <==> self@ is Object,
            r matches Some(entries) ==> *self == JsonValue::Object(*entries),
    {
        match self {
            JsonValue::Object(entries) => Some(entries),
            _ => None,
        }
    }

    /// `Value::is_object`.
    pub fn is_object(&self) -> (r: bool)
        ensures
            r == self@ is Object,
    {
        match self {
            JsonValue::Object(_) => true,
            _ => false,
        }
    }

    /// `Value::is_null`.
    pub fn is_null(&self) -> (r: bool)
        ensures
            r == self@ is Null,
    {
        match self {
            JsonValue::Null => true,
            _ => false,
        }
    }

    /// The string member `key`.
    pub fn str_field(&self, key: &str) -> (r: Option<&String>)
        ensures
            match r {
                Some(s) => json_str_field(self@, key@) == Some(s@),
                None => json_str_field(self@, key@) is None,
            },
    {
        match self.get(key) {
            Some(v) => v.as_str(),
            None => None,
        }
    }

    /// The boolean member `key`.
    pub fn bool_field(&self, key: &str) -> (r: Option<bool>)
        ensures
            r == json_bool_field(self@, key@),
    {
        match self.get(key) {
            Some(v) => v.as_bool(),
            None => None,
        }
    }
}


/// The models of a run of values.
pub open spec fn json_seq(items: Seq<JsonValue>) -> Seq<Json> {
    items.map_values(|x: JsonValue| x@)
}

/// An array's model is the models of its items.
pub proof fn lemma_array_model(v: JsonValue, items: Vec<JsonValue>)
    requires
        v == JsonValue::Array(items),
    ensures
        v@ == Json::Array(json_seq(items@)),
{
    assert(v@->Array_0 =~= json_seq(items@));
}

pub proof fn lemma_json_seq_push(items: Seq<JsonValue>, i: int)
    requires
        0 <= i < items.len(),
    ensures
        json_seq(items.subrange(0, i + 1)) == json_seq(items.subrange(0, i)).push(items[i]@),
        json_seq(items.subrange(0, i + 1)).drop_last() == json_seq(items.subrange(0, i)),
        json_seq(items.subrange(0, i + 1)).last() == items[i]@,
{
    assert(json_seq(items.subrange(0, i + 1)) =~= json_seq(items.subrange(0, i)).push(items[i]@));
}

} // verus!
