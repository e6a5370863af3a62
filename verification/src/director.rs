//! The director: decides whether another character should join a round.
use vstd::prelude::*;

use crate::character::Character;
use crate::json::{json_parse, json_str_field, parse_json, Json, JsonValue};
use crate::text::{
    chars_of, find_char, find_char_from, join, join_strings, push_str, rfind_char, rfind_char_in,
    slice_range, string_of, trim, trim_bounds, views,
};

verus! {

broadcast use vstd::string::group_string_axioms;

/// What the director decided.
#[derive(Debug, Clone)]
pub struct DirectorDecision {
    pub should_invoke: bool,
    pub target_pal_id: Option<String>,
}

pub open spec fn opt_string_view(o: Option<String>) -> Option<Seq<char>> {
    match o {
        Some(s) => Some(s@),
        None => None,
    }
}

/// The opening of the director prompt, up to the list of characters.
pub open spec fn director_head() -> Seq<char> {
    "You are a dialogue director. Your job is to determine if another character should join the conversation.\n\nAvailable characters (only those already @mentioned by the user):\n"@
}

/// What stands between the characters and the conversation.
pub open spec fn director_mid() -> Seq<char> {
    "\n\nRecent conversation:\n"@
}

/// The closing of the director prompt: the answer format.
pub open spec fn director_tail() -> Seq<char> {
    "\n\nIf another character's expertise or perspective would add value, respond with a JSON object:\n{\"action\": \"invoke\", \"pal_id\": \"<character_id>\"}\n\nOtherwise respond with:\n{\"action\": \"none\"}\n\nDirector response: "@
}

/// How a character is listed: `- name: role_bio`.
pub open spec fn pal_line(p: Character) -> Seq<char> {
    "- "@ + p.name@ + ": "@ + p.role_bio@
}

pub open spec fn pal_lines(pals: Seq<Character>) -> Seq<Seq<char>> {
    pals.map_values(|p: Character| pal_line(p))
}

/// The listed characters, or `(none)` where there are none.
pub open spec fn pals_block(pals: Seq<Character>) -> Seq<char> {
    if pals.len() == 0 {
        "(none)"@
    } else {
        join(pal_lines(pals), "\n"@)
    }
}

/// The whole director prompt.
pub open spec fn director_prompt(messages: Seq<Seq<char>>, pals: Seq<Character>) -> Seq<char> {
    director_head() + pals_block(pals) + director_mid() + join(messages, "\n"@) + director_tail()
}

/// Assembles the prompt that asks the model whether another character
/// should join: the characters (each as `- name: bio`, or `(none)`), the
/// recent messages one per line, and the two answer formats.
pub fn assemble_director_prompt(recent_messages: &[String], available_pals: &[Character]) -> (r: String)
    ensures
        r@ == director_prompt(views(recent_messages@), available_pals@),
{
    let mut lines: Vec<String> = Vec::new();
    let mut i: usize = 0;
    while i < available_pals.len()
        invariant
            i <= available_pals@.len(),
            lines@.len() == i,
            forall|j: int| 0 <= j < i ==> (#[trigger] lines@[j])@ == pal_line(available_pals@[j]),
        decreases available_pals.len() - i,
    {
        let p = &available_pals[i];
        let mut line = String::new();
        push_str(&mut line, "- ");
        push_str(&mut line, p.name.as_str());
        push_str(&mut line, ": ");
        push_str(&mut line, p.role_bio.as_str());
        lines.push(line);
        i = i + 1;
    }
    proof {
        assert(views(lines@) =~= pal_lines(available_pals@));
    }
    let mut out = String::new();
    push_str(
        &mut out,
        "You are a dialogue director. Your job is to determine if another character should join the conversation.\n\nAvailable characters (only those already @mentioned by the user):\n",
    );
    if available_pals.len() == 0 {
        push_str(&mut out, "(none)");
    } else {
        let block = join_strings(lines.as_slice(), "\n");
        push_str(&mut out, block.as_str());
    }
    push_str(&mut out, "\n\nRecent conversation:\n");
    let msgs = join_strings(recent_messages, "\n");
    push_str(&mut out, msgs.as_str());
    push_str(
        &mut out,
        "\n\nIf another character's expertise or perspective would add value, respond with a JSON object:\n{\"action\": \"invoke\", \"pal_id\": \"<character_id>\"}\n\nOtherwise respond with:\n{\"action\": \"none\"}\n\nDirector response: ",
    );
    out
}

/// The JSON text of a director reply: from the first `{` of the trimmed
/// reply to the last `}` after it, where both are there.
pub open spec fn director_json_text(response: Seq<char>) -> Option<Seq<char>> {
    let t = trim(response);
    match find_char_from(t, '{', 0) {
        Some(st) => match rfind_char_in(t, '}', st, t.len() as int) {
            Some(en) => Some(t.subrange(st, en + 1)),
            None => None,
        },
        None => None,
    }
}

/// The decision a parsed reply carries: `invoke` (with the `pal_id` string,
/// if any) where `action` is the string `invoke`, no call otherwise.
pub open spec fn decision_of(v: Option<Json>) -> (bool, Option<Seq<char>>) {
    match v {
        Some(j) => if json_str_field(j, "action"@) == Some("invoke"@) {
            (true, json_str_field(j, "pal_id"@))
        } else {
            (false, None)
        },
        None => (false, None),
    }
}

pub open spec fn decision_view(d: DirectorDecision) -> (bool, Option<Seq<char>>) {
    (d.should_invoke, opt_string_view(d.target_pal_id))
}

/// What a director reply decides: that of the JSON it holds, as parsed;
/// nothing where it holds none or it does not parse.
pub open spec fn director_decision(response: Seq<char>) -> (bool, Option<Seq<char>>) {
    match director_json_text(response) {
        Some(text) => decision_of(json_parse(text)),
        None => (false, None),
    }
}

/// The decision that a parsed director reply carries.
pub fn decision_from_value(value: Option<&JsonValue>) -> (r: DirectorDecision)
    ensures
        decision_view(r) == decision_of(match value {
            Some(v) => Some(v@),
            None => None,
        }),
{
    proof {
        reveal_strlit("invoke");
    }
    match value {
        Some(v) => {
            let is_invoke = match v.str_field("action") {
                Some(a) => crate::text::str_eq(a.as_str(), "invoke"),
                None => false,
            };
            if is_invoke {
                let pal = match v.str_field("pal_id") {
                    Some(p) => Some(p.clone()),
                    None => None,
                };
                DirectorDecision { should_invoke: true, target_pal_id: pal }
            } else {
                DirectorDecision { should_invoke: false, target_pal_id: None }
            }
        },
        None => DirectorDecision { should_invoke: false, target_pal_id: None },
    }
}

/// Reads the director's reply: the JSON between the first `{` and the last
/// `}` of the trimmed text decides; a reply without one, or whose JSON does
/// not parse, invokes nobody.
pub fn parse_director_response(response: &str) -> (r: DirectorDecision)
    ensures
        decision_view(r) == director_decision(response@),
{
    let cs = chars_of(response);
    let (lo, hi) = trim_bounds(cs.as_slice());
    let t = slice_range(&cs, lo, hi);
    assert(t@ == trim(response@));
    let st = match find_char(t.as_slice(), '{', 0) {
        Some(st) => st,
        None => return DirectorDecision { should_invoke: false, target_pal_id: None },
    };
    let en = match rfind_char(t.as_slice(), '}', st, t.len()) {
        Some(en) => en,
        None => return DirectorDecision { should_invoke: false, target_pal_id: None },
    };
    let text = string_of(slice_range(&t, st, en + 1).as_slice());
    let parsed = parse_json(text.as_str());
    assert(director_json_text(response@) == Some(text@));
    match parsed {
        Some(v) => decision_from_value(Some(&v)),
        None => decision_from_value(None),
    }
}

} // verus!
