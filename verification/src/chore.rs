//! Reading the display names that a model proposes for tools.
use vstd::prelude::*;

use crate::json::{json_as_str, json_get, json_parse, json_seq, json_str_field, lemma_array_model, parse_json, Json, JsonValue};
use crate::text::{
    chars_of, find_char, find_char_from, matches_at_exec, rfind_char, rfind_char_in, slice_range,
    str_eq, string_of, trim, trim_bounds, trim_string,
};

verus! {

broadcast use vstd::string::group_string_axioms;

/// A tool whose display name is asked for.
#[derive(Debug, Clone)]
pub struct ToolDisplayNameInput {
    pub server_name: String,
    pub tool_name: String,
    pub description: Option<String>,
}

/// `str::trim_start_matches`: `p` taken off the front as often as it is there.
pub open spec fn strip_prefix_all(s: Seq<char>, p: Seq<char>) -> Seq<char>
    decreases s.len(),
{
    if p.len() > 0 && p.len() <= s.len() && s.subrange(0, p.len() as int) == p {
        strip_prefix_all(s.subrange(p.len() as int, s.len() as int), p)
    } else {
        s
    }
}

/// `str::trim_end_matches`: `p` taken off the end as often as it is there.
pub open spec fn strip_suffix_all(s: Seq<char>, p: Seq<char>) -> Seq<char>
    decreases s.len(),
{
    if p.len() > 0 && p.len() <= s.len() && s.subrange(s.len() - p.len(), s.len() as int) == p {
        strip_suffix_all(s.subrange(0, s.len() - p.len()), p)
    } else {
        s
    }
}

/// The reply with its code fences and surrounding blanks taken off.
pub open spec fn unfenced(raw: Seq<char>) -> Seq<char> {
    trim(strip_suffix_all(strip_prefix_all(strip_prefix_all(trim(raw), "```json"@), "```"@), "```"@))
}

/// The span from the first `[` to the last `]`, where the first comes before the last.
pub open spec fn bracket_span(t: Seq<char>) -> Option<Seq<char>> {
    match (find_char_from(t, '[', 0), rfind_char_in(t, ']', 0, t.len() as int)) {
        (Some(s), Some(e)) => if s < e {
            Some(t.subrange(s, e + 1))
        } else {
            None
        },
        _ => None,
    }
}

/// The JSON a reply holds: the whole unfenced text where it parses, else
/// the bracketed span where that parses.
pub open spec fn names_value(t: Seq<char>) -> Option<Json> {
    match json_parse(t) {
        Some(v) => Some(v),
        None => match bracket_span(t) {
            Some(span) => json_parse(span),
            None => None,
        },
    }
}

/// The display name an entry gives: its `display_name`, or where that key is
/// missing its `displayName`, if a string.
pub open spec fn entry_display(e: Json) -> Option<Seq<char>> {
    match json_get(e, "display_name"@) {
        Some(v) => json_as_str(v),
        None => json_str_field(e, "displayName"@),
    }
}

/// The pair an entry contributes: its non-empty `name` and its non-empty
/// display name, trimmed.
pub open spec fn entry_pair(e: Json) -> Option<(Seq<char>, Seq<char>)> {
    match (json_str_field(e, "name"@), entry_display(e)) {
        (Some(n), Some(d)) => if n.len() > 0 && d.len() > 0 {
            Some((n, trim(d)))
        } else {
            None
        },
        _ => None,
    }
}

/// The map the entries make, a later entry overriding an earlier one.
pub open spec fn names_map(entries: Seq<Json>) -> Map<Seq<char>, Seq<char>>
    decreases entries.len(),
{
    if entries.len() == 0 {
        Map::empty()
    } else {
        let m = names_map(entries.drop_last());
        match entry_pair(entries.last()) {
            Some(p) => m.insert(p.0, p.1),
            None => m,
        }
    }
}

/// The display names a model reply proposes, by tool name.
pub open spec fn display_names(raw: Seq<char>) -> Map<Seq<char>, Seq<char>> {
    match names_value(unfenced(raw)) {
        Some(Json::Array(items)) => names_map(items),
        _ => Map::empty(),
    }
}

/// The map a run of pairs makes, a later pair overriding an earlier one.
pub open spec fn pairs_map(v: Seq<(String, String)>) -> Map<Seq<char>, Seq<char>>
    decreases v.len(),
{
    if v.len() == 0 {
        Map::empty()
    } else {
        pairs_map(v.drop_last()).insert(v.last().0@, v.last().1@)
    }
}

/// No name occurs twice.
pub open spec fn distinct_names(v: Seq<(String, String)>) -> bool {
    forall|i: int, j: int| 0 <= i < j < v.len() ==> (#[trigger] v[i]).0@ != (#[trigger] v[j]).0@
}

proof fn lemma_pairs_map_has(v: Seq<(String, String)>, i: int)
    requires
        0 <= i < v.len(),
    ensures
        pairs_map(v).dom().contains(v[i].0@),
    decreases v.len(),
{
    if i < v.len() - 1 {
        lemma_pairs_map_has(v.drop_last(), i);
    }
}

proof fn lemma_pairs_map_keys(v: Seq<(String, String)>, k: Seq<char>)
    requires
        forall|i: int| 0 <= i < v.len() ==> (#[trigger] v[i]).0@ != k,
    ensures
        !pairs_map(v).dom().contains(k),
    decreases v.len(),
{
    if v.len() > 0 {
        lemma_pairs_map_keys(v.drop_last(), k);
    }
}

proof fn lemma_pairs_update(v: Seq<(String, String)>, i: int, p: (String, String))
    requires
        0 <= i < v.len(),
        distinct_names(v),
        v[i].0@ == p.0@,
    ensures
        pairs_map(v.update(i, p)) == pairs_map(v).insert(p.0@, p.1@),
    decreases v.len(),
{
    let w = v.update(i, p);
    if i == v.len() - 1 {
        assert(w.drop_last() =~= v.drop_last());
        assert(pairs_map(w) =~= pairs_map(v).insert(p.0@, p.1@));
    } else {
        assert(w.drop_last() =~= v.drop_last().update(i, p));
        lemma_pairs_update(v.drop_last(), i, p);
        assert(v.last().0@ != p.0@);
        assert(pairs_map(w) =~= pairs_map(v).insert(p.0@, p.1@));
    }
}

fn strip_prefix_all_exec(s: &Vec<char>, p: &Vec<char>) -> (r: Vec<char>)
    ensures
        r@ == strip_prefix_all(s@, p@),
{
    let mut i: usize = 0;
    let n = s.len();
    proof {
        assert(s@.subrange(0, n as int) =~= s@);
    }
    while p.len() > 0 && p.len() <= n - i && matches_at_exec(s.as_slice(), p.as_slice(), i)
        invariant
            i <= n == s@.len(),
            strip_prefix_all(s@, p@) == strip_prefix_all(s@.subrange(i as int, n as int), p@),
        decreases n - i,
    {
        proof {
            let t = s@.subrange(i as int, n as int);
            assert(t.subrange(0, p@.len() as int) =~= s@.subrange(i as int, i + p@.len()));
            assert(t.subrange(p@.len() as int, t.len() as int) =~= s@.subrange(i + p@.len(), n as int));
        }
        i = i + p.len();
    }
    proof {
        let t = s@.subrange(i as int, n as int);
        if p@.len() > 0 && p@.len() <= t.len() {
            assert(t.subrange(0, p@.len() as int) =~= s@.subrange(i as int, i + p@.len()));
        }
    }
    slice_range(s, i, n)
}

fn strip_suffix_all_exec(s: &Vec<char>, p: &Vec<char>) -> (r: Vec<char>)
    ensures
        r@ == strip_suffix_all(s@, p@),
{
    let mut j: usize = s.len();
    proof {
        assert(s@.subrange(0, j as int) =~= s@);
    }
    while p.len() > 0 && p.len() <= j && matches_at_exec(s.as_slice(), p.as_slice(), j - p.len())
        invariant
            j <= s@.len(),
            strip_suffix_all(s@, p@) == strip_suffix_all(s@.subrange(0, j as int), p@),
        decreases j,
    {
        proof {
            let t = s@.subrange(0, j as int);
            assert(t.subrange(t.len() - p@.len(), t.len() as int) =~= s@.subrange(j - p@.len(), j as int));
            assert(t.subrange(0, t.len() - p@.len()) =~= s@.subrange(0, j - p@.len()));
        }
        j = j - p.len();
    }
    proof {
        let t = s@.subrange(0, j as int);
        if p@.len() > 0 && p@.len() <= j {
            assert(t.subrange(t.len() - p@.len(), t.len() as int) =~= s@.subrange(j - p@.len(), j as int));
        }
    }
    slice_range(s, 0, j)
}

fn unfence(raw: &str) -> (r: Vec<char>)
    ensures
        r@ == unfenced(raw@),
{
    let cs = chars_of(raw);
    let (a, b) = trim_bounds(cs.as_slice());
    let t0 = slice_range(&cs, a, b);
    let t1 = strip_prefix_all_exec(&t0, &chars_of("```json"));
    let t2 = strip_prefix_all_exec(&t1, &chars_of("```"));
    let t3 = strip_suffix_all_exec(&t2, &chars_of("```"));
    let (c, d) = trim_bounds(t3.as_slice());
    slice_range(&t3, c, d)
}

/// The pair that a parsed entry contributes.
fn entry_pair_exec(e: &JsonValue) -> (r: Option<(String, String)>)
    ensures
        match r {
            Some(p) => entry_pair(e@) == Some((p.0@, p.1@)),
            None => entry_pair(e@) is None,
        },
{
    let name = match e.str_field("name") {
        Some(n) => n,
        None => return None,
    };
    let display = match e.get("display_name") {
        Some(v) => v.as_str(),
        None => e.str_field("displayName"),
    };
    let display = match display {
        Some(d) => d,
        None => return None,
    };
    if name.as_str().is_empty() || display.as_str().is_empty() {
        return None;
    }
    Some((name.clone(), trim_string(display.as_str())))
}

fn index_of_name(out: &Vec<(String, String)>, name: &String) -> (r: Option<usize>)
    ensures
        match r {
            Some(k) => k < out@.len() && out@[k as int].0@ == name@,
            None => forall|j: int| 0 <= j < out@.len() ==> (#[trigger] out@[j]).0@ != name@,
        },
{
    let mut k: usize = 0;
    while k < out.len()
        invariant
            k <= out@.len(),
            forall|j: int| 0 <= j < k ==> (#[trigger] out@[j]).0@ != name@,
        decreases out.len() - k,
    {
        if str_eq(out[k].0.as_str(), name.as_str()) {
            return Some(k);
        }
        k = k + 1;
    }
    None
}

/// The display names that a parsed reply proposes, by tool name; each name
/// once.
pub fn display_names_from_value(value: Option<&JsonValue>) -> (r: Vec<(String, String)>)
    ensures
        distinct_names(r@),
        pairs_map(r@) == (match value {
            Some(v) => match v@ {
                Json::Array(items) => names_map(items),
                _ => Map::empty(),
            },
            None => Map::empty(),
        }),
{
    let mut out: Vec<(String, String)> = Vec::new();
    let items = match value {
        Some(JsonValue::Array(items)) => items,
        _ => return out,
    };
    let ghost model = json_seq(items@);
    proof {
        lemma_array_model(*value.unwrap(), *items);
    }
    let mut i: usize = 0;
    while i < items.len()
        invariant
            i <= items@.len(),
            model == json_seq(items@),
            distinct_names(out@),
            pairs_map(out@) == names_map(model.subrange(0, i as int)),
        decreases items.len() - i,
    {
        proof {
            assert(model.subrange(0, i + 1).drop_last() =~= model.subrange(0, i as int));
        }
        match entry_pair_exec(&items[i]) {
            Some(p) => {
                let found = index_of_name(&out, &p.0);
                match found {
                    Some(at) => {
                        proof {
                            lemma_pairs_update(out@, at as int, p);
                        }
                        let ghost before = out@;
                        out.set(at, p);
                        proof {
                            assert forall|a: int, b: int| 0 <= a < b < out@.len() implies (#[trigger] out@[a]).0@ != (#[trigger] out@[b]).0@ by {
                                assert(out@[a].0@ == before[a].0@);
                                assert(out@[b].0@ == before[b].0@);
                            }
                        }
                    },
                    None => {
                        proof {
                            assert(out@.push(p).drop_last() =~= out@);
                        }
                        let ghost before = out@;
                        out.push(p);
                        proof {
                            assert forall|a: int, b: int| 0 <= a < b < out@.len() implies (#[trigger] out@[a]).0@ != (#[trigger] out@[b]).0@ by {
                                if b < before.len() {
                                    assert(out@[a] == before[a] && out@[b] == before[b]);
                                } else {
                                    assert(out@[a] == before[a]);
                                }
                            }
                        }
                    },
                }
            },
            None => {},
        }
        i = i + 1;
    }
    proof {
        assert(model.subrange(0, i as int) =~= model);
    }
    out
}

/// Reads the display names a model proposed for tools: code fences and
/// blanks are taken off; the text, or else the span from its first `[` to
/// its last `]`, must parse as an array; each entry with a non-empty `name`
/// and a non-empty `display_name` (or `displayName`) gives that name its
/// trimmed display name, a later entry overriding an earlier one. Anything
/// else gives no names.
pub fn parse_display_names(raw: &str) -> (r: Vec<(String, String)>)
    ensures
        distinct_names(r@),
        pairs_map(r@) == display_names(raw@),
{
    let t = unfence(raw);
    let whole = string_of(t.as_slice());
    let parsed = match parse_json(whole.as_str()) {
        Some(v) => Some(v),
        None => {
            let s = find_char(t.as_slice(), '[', 0);
            let e = rfind_char(t.as_slice(), ']', 0, t.len());
            match (s, e) {
                (Some(s), Some(e)) => if s < e {
                    let span = string_of(slice_range(&t, s, e + 1).as_slice());
                    parse_json(span.as_str())
                } else {
                    None
                },
                _ => None,
            }
        },
    };
    assert(parsed matches Some(v) ==> names_value(t@) == Some(v@));
    assert(parsed is None ==> names_value(t@) is None);
    match parsed {
        Some(v) => display_names_from_value(Some(&v)),
        None => display_names_from_value(None),
    }
}

} // verus!
