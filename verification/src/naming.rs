//! Names under which tools are registered and shown to a model.
use vstd::prelude::*;

use crate::text::{
    chars_of, decimal, is_alnum, is_ascii_alphanumeric, lower, owned, push_decimal, slice_range,
    strip_both, strip_char_bounds, strip_leading, strip_trailing, string_of, to_lower,
};

verus! {

broadcast use vstd::string::group_string_axioms;

/// One part of a registered name: every run of characters other than ASCII
/// letters and digits becomes a single `_`, letters are lowercased.
pub open spec fn collapse(s: Seq<char>) -> Seq<char>
    decreases s.len(),
{
    if s.len() == 0 {
        Seq::empty()
    } else {
        let r = collapse(s.drop_last());
        let c = s.last();
        if is_alnum(c) {
            r.push(lower(c))
        } else if r.len() > 0 && r.last() == '_' {
            r
        } else {
            r.push('_')
        }
    }
}

/// A cleaned part: `collapse` with leading and trailing `_` trimmed.
pub open spec fn clean_part(s: Seq<char>) -> Seq<char> {
    strip_both(collapse(s), |c: char| c == '_')
}

/// The registered name `mcp_{server}_{tool}` built from the cleaned parts.
pub open spec fn registered_name_spec(server_id: Seq<char>, tool_name: Seq<char>) -> Seq<char> {
    let l = clean_part(server_id);
    let r = clean_part(tool_name);
    if l.len() == 0 && r.len() == 0 {
        "mcp_"@
    } else if r.len() == 0 {
        "mcp_"@ + l
    } else if l.len() == 0 {
        "mcp_"@ + r
    } else {
        "mcp_"@ + l + "_"@ + r
    }
}

pub proof fn lemma_lower_not_underscore(c: char)
    requires
        is_alnum(c),
    ensures
        lower(c) != '_',
{
    if 'A' <= c && c <= 'Z' {
        assert((c as u32) + 32 >= 97);
        assert(((c as u32) + 32) as char as u32 == (c as u32) + 32);
    }
}

/// A character a registered name is made of: a lowercase ASCII letter, a
/// digit, or `_`.
pub open spec fn name_char(c: char) -> bool {
    ('a' <= c && c <= 'z') || ('0' <= c && c <= '9') || c == '_'
}

/// Made of name characters only, with no `_` right after another.
pub open spec fn tidy(s: Seq<char>) -> bool {
    &&& forall|i: int| 0 <= i < s.len() ==> name_char(#[trigger] s[i])
    &&& forall|i: int| 0 <= i < s.len() - 1 ==> !(#[trigger] s[i] == '_' && s[i + 1] == '_')
}

proof fn lemma_lower_name_char(c: char)
    requires
        is_alnum(c),
    ensures
        name_char(lower(c)),
        lower(c) != '_',
{
    lemma_lower_not_underscore(c);
    if 'A' <= c && c <= 'Z' {
        assert((c as u32) + 32 >= 97 && (c as u32) + 32 <= 122);
        assert(((c as u32) + 32) as char as u32 == (c as u32) + 32);
    }
}

proof fn lemma_collapse_tidy(s: Seq<char>)
    ensures
        tidy(collapse(s)),
    decreases s.len(),
{
    if s.len() > 0 {
        lemma_collapse_tidy(s.drop_last());
        let r = collapse(s.drop_last());
        let c = s.last();
        if is_alnum(c) {
            lemma_lower_name_char(c);
            let t = r.push(lower(c));
            assert forall|i: int| 0 <= i < t.len() implies name_char(#[trigger] t[i]) by {
                if i < r.len() {
                    assert(t[i] == r[i]);
                }
            }
            assert forall|i: int| 0 <= i < t.len() - 1 implies !(#[trigger] t[i] == '_' && t[i + 1] == '_') by {
                if i + 1 < r.len() {
                    assert(t[i] == r[i] && t[i + 1] == r[i + 1]);
                }
            }
        } else if !(r.len() > 0 && r.last() == '_') {
            let t = r.push('_');
            assert forall|i: int| 0 <= i < t.len() implies name_char(#[trigger] t[i]) by {
                if i < r.len() {
                    assert(t[i] == r[i]);
                }
            }
            assert forall|i: int| 0 <= i < t.len() - 1 implies !(#[trigger] t[i] == '_' && t[i + 1] == '_') by {
                if i + 1 < r.len() {
                    assert(t[i] == r[i] && t[i + 1] == r[i + 1]);
                } else {
                    assert(t[i] == r.last());
                }
            }
        }
    }
}

proof fn lemma_strip_leading_is_suffix(s: Seq<char>, p: spec_fn(char) -> bool) -> (i: int)
    ensures
        0 <= i <= s.len(),
        strip_leading(s, p) == s.subrange(i, s.len() as int),
        i < s.len() ==> !p(s[i]),
    decreases s.len(),
{
    if s.len() > 0 && p(s[0]) {
        let j = lemma_strip_leading_is_suffix(s.drop_first(), p);
        assert(s.drop_first().subrange(j, s.drop_first().len() as int) =~= s.subrange(j + 1, s.len() as int));
        if j < s.drop_first().len() {
            assert(s.drop_first()[j] == s[j + 1]);
        }
        j + 1
    } else {
        assert(s.subrange(0, s.len() as int) =~= s);
        0
    }
}

proof fn lemma_strip_trailing_is_prefix(s: Seq<char>, p: spec_fn(char) -> bool) -> (k: int)
    ensures
        0 <= k <= s.len(),
        strip_trailing(s, p) == s.subrange(0, k),
        k > 0 ==> !p(s[k - 1]),
    decreases s.len(),
{
    if s.len() > 0 && p(s.last()) {
        let j = lemma_strip_trailing_is_prefix(s.drop_last(), p);
        assert(s.drop_last().subrange(0, j) =~= s.subrange(0, j));
        if j > 0 {
            assert(s.drop_last()[j - 1] == s[j - 1]);
        }
        j
    } else {
        assert(s.subrange(0, s.len() as int) =~= s);
        s.len() as int
    }
}

proof fn lemma_clean_part_tidy(s: Seq<char>)
    ensures
        tidy(clean_part(s)),
        clean_part(s).len() > 0 ==> clean_part(s)[0] != '_' && clean_part(s).last() != '_',
{
    let c = collapse(s);
    lemma_collapse_tidy(s);
    let p = |ch: char| ch == '_';
    let i = lemma_strip_leading_is_suffix(c, p);
    let a = c.subrange(i, c.len() as int);
    let k = lemma_strip_trailing_is_prefix(a, p);
    let b = a.subrange(0, k);
    assert(clean_part(s) == b);
    assert forall|j: int| 0 <= j < b.len() implies name_char(#[trigger] b[j]) by {
        assert(b[j] == c[i + j]);
    }
    assert forall|j: int| 0 <= j < b.len() - 1 implies !(#[trigger] b[j] == '_' && b[j + 1] == '_') by {
        assert(b[j] == c[i + j] && b[j + 1] == c[i + j + 1]);
    }
    if b.len() > 0 {
        assert(b[0] == a[0] && a[0] == c[i]);
        assert(b.last() == a[k - 1]);
    }
}

/// A registered name is `mcp_` followed by lowercase ASCII letters,
/// digits and `_`, with no `_` at either end of what follows `mcp_` and
/// never two in a row; what follows is empty exactly where neither part
/// has an ASCII letter or digit.
pub proof fn law_registered_name_shape(server_id: Seq<char>, tool_name: Seq<char>)
    ensures
        ({
            let r = registered_name_spec(server_id, tool_name);
            let rest = r.subrange(4, r.len() as int);
            &&& r.len() >= 4
            &&& r.subrange(0, 4) == "mcp_"@
            &&& tidy(rest)
            &&& rest.len() > 0 ==> rest[0] != '_' && rest.last() != '_'
            &&& (rest.len() == 0 <==> clean_part(server_id).len() == 0 && clean_part(tool_name).len() == 0)
        }),
{
    reveal_strlit("mcp_");
    reveal_strlit("_");
    lemma_clean_part_tidy(server_id);
    lemma_clean_part_tidy(tool_name);
    let l = clean_part(server_id);
    let t = clean_part(tool_name);
    let r = registered_name_spec(server_id, tool_name);
    let rest = r.subrange(4, r.len() as int);
    if l.len() == 0 && t.len() == 0 {
        assert(rest =~= Seq::<char>::empty());
    } else if t.len() == 0 {
        assert(rest =~= l);
    } else if l.len() == 0 {
        assert(rest =~= t);
    } else {
        let m = l + "_"@ + t;
        assert(rest =~= m);
        assert(m.len() == l.len() + 1 + t.len());
        assert forall|j: int| 0 <= j < m.len() implies name_char(#[trigger] m[j]) by {
            if j < l.len() {
                assert(m[j] == l[j]);
            } else if j > l.len() {
                assert(m[j] == t[j - l.len() - 1]);
            }
        }
        assert forall|j: int| 0 <= j < m.len() - 1 implies !(#[trigger] m[j] == '_' && m[j + 1] == '_') by {
            if j + 1 < l.len() {
                assert(m[j] == l[j] && m[j + 1] == l[j + 1]);
            } else if j + 1 == l.len() {
                assert(m[j] == l.last());
            } else if j == l.len() {
                assert(m[j + 1] == t[0]);
            } else {
                assert(m[j] == t[j - l.len() - 1] && m[j + 1] == t[j - l.len()]);
            }
        }
        assert(m[0] == l[0]);
        assert(m.last() == t.last());
    }
    assert(r.subrange(0, 4) =~= "mcp_"@);
}

/// `char::to_ascii_uppercase`.
pub open spec fn upper(c: char) -> char {
    if 'a' <= c && c <= 'z' { ((c as u32) - 32) as char } else { c }
}

proof fn lemma_upper_lower(c: char)
    ensures
        is_alnum(upper(c)) == is_alnum(c),
        is_alnum(c) ==> lower(upper(c)) == lower(c),
{
    if 'a' <= c && c <= 'z' {
        assert((c as u32) - 32 >= 65 && (c as u32) - 32 <= 90);
        assert(((c as u32) - 32) as char as u32 == (c as u32) - 32);
        assert((((c as u32) - 32) + 32) as char == c);
    }
}

proof fn lemma_collapse_upper(s: Seq<char>)
    ensures
        collapse(s.map_values(|c: char| upper(c))) == collapse(s),
    decreases s.len(),
{
    if s.len() > 0 {
        let u = s.map_values(|c: char| upper(c));
        assert(u.drop_last() =~= s.drop_last().map_values(|c: char| upper(c)));
        lemma_collapse_upper(s.drop_last());
        lemma_upper_lower(s.last());
        assert(u.last() == upper(s.last()));
    }
}

/// A registered name with both parts is `mcp_`, the server's part as it
/// is registered alone, `_`, and the tool's part as it is registered
/// alone; and it does not change with the case of the server id.
pub proof fn law_registered_name_parts(server_id: Seq<char>, tool_name: Seq<char>)
    ensures
        clean_part(server_id).len() > 0 && clean_part(tool_name).len() > 0 ==> registered_name_spec(server_id, tool_name)
            == "mcp_"@ + registered_name_spec(server_id, Seq::empty()).subrange(4, registered_name_spec(server_id, Seq::empty()).len() as int) + "_"@
            + registered_name_spec(Seq::empty(), tool_name).subrange(4, registered_name_spec(Seq::empty(), tool_name).len() as int),
        registered_name_spec(server_id.map_values(|c: char| upper(c)), tool_name) == registered_name_spec(server_id, tool_name),
{
    reveal_strlit("mcp_");
    assert(collapse(Seq::<char>::empty()) =~= Seq::<char>::empty());
    assert(clean_part(Seq::<char>::empty()) =~= Seq::<char>::empty()) by {
        assert(strip_leading(Seq::<char>::empty(), |c: char| c == '_') =~= Seq::<char>::empty());
    }
    let l = clean_part(server_id);
    let t = clean_part(tool_name);
    let a = registered_name_spec(server_id, Seq::empty());
    let b = registered_name_spec(Seq::empty(), tool_name);
    if l.len() > 0 {
        assert(a.subrange(4, a.len() as int) =~= l);
    }
    if t.len() > 0 {
        assert(b.subrange(4, b.len() as int) =~= t);
    }
    lemma_collapse_upper(server_id);
}

fn collapse_exec(s: &str) -> (r: Vec<char>)
    ensures
        r@ == collapse(s@),
{
    let cs = chars_of(s);
    let mut out: Vec<char> = Vec::new();
    let mut prev_underscore = false;
    let mut i: usize = 0;
    while i < cs.len()
        invariant
            cs@ == s@,
            i <= cs.len(),
            out@ == collapse(s@.subrange(0, i as int)),
            prev_underscore == (out@.len() > 0 && out@.last() == '_'),
        decreases cs.len() - i,
    {
        let ch = cs[i];
        proof {
            let t = s@.subrange(0, i + 1);
            assert(t.drop_last() =~= s@.subrange(0, i as int));
            assert(t.last() == ch);
            if is_alnum(ch) {
                lemma_lower_not_underscore(ch);
            }
        }
        if is_ascii_alphanumeric(ch) {
            out.push(to_lower(ch));
            prev_underscore = false;
        } else if !prev_underscore {
            out.push('_');
            prev_underscore = true;
        }
        i = i + 1;
    }
    proof {
        assert(s@.subrange(0, cs.len() as int) =~= s@);
    }
    out
}

fn clean_part_exec(s: &str) -> (r: Vec<char>)
    ensures
        r@ == clean_part(s@),
{
    let c = collapse_exec(s);
    let (a, b) = strip_char_bounds(c.as_slice(), '_');
    slice_range(&c, a, b)
}

/// The name under which an MCP tool is registered: `mcp_{server_id}_{tool_name}`,
/// each part lowercased with runs of other characters turned into one `_` and
/// trimmed of `_`; an empty part is left out with its separator.
pub fn registered_name(server_id: &str, tool_name: &str) -> (r: String)
    ensures
        r@ == registered_name_spec(server_id@, tool_name@),
{
    let left = clean_part_exec(server_id);
    let right = clean_part_exec(tool_name);
    let mut out = owned("mcp_");
    if left.len() == 0 && right.len() == 0 {
    } else if right.len() == 0 {
        out.append(string_of(left.as_slice()).as_str());
    } else if left.len() == 0 {
        out.append(string_of(right.as_slice()).as_str());
    } else {
        out.append(string_of(left.as_slice()).as_str());
        out.append("_");
        out.append(string_of(right.as_slice()).as_str());
    }
    out
}

/// A part of a model-facing tool name: ASCII letters and digits lowercased,
/// every other character `_`, then `_` trimmed at both ends.
pub open spec fn sanitize_spec(s: Seq<char>) -> Seq<char> {
    strip_both(
        s.map_values(|c: char| if is_alnum(c) { lower(c) } else { '_' }),
        |c: char| c == '_',
    )
}

pub fn sanitize_tool_name_part(value: &str) -> (r: String)
    ensures
        r@ == sanitize_spec(value@),
{
    let cs = chars_of(value);
    let ghost m = value@.map_values(|c: char| if is_alnum(c) { lower(c) } else { '_' });
    let mut mapped: Vec<char> = Vec::new();
    let mut i: usize = 0;
    while i < cs.len()
        invariant
            cs@ == value@,
            i <= cs.len(),
            m == value@.map_values(|c: char| if is_alnum(c) { lower(c) } else { '_' }),
            mapped@ == m.subrange(0, i as int),
        decreases cs.len() - i,
    {
        let ch = cs[i];
        let out = if is_ascii_alphanumeric(ch) { to_lower(ch) } else { '_' };
        mapped.push(out);
        proof {
            assert(mapped@ =~= m.subrange(0, i + 1));
        }
        i = i + 1;
    }
    proof {
        assert(mapped@ =~= m);
    }
    let (a, b) = strip_char_bounds(mapped.as_slice(), '_');
    string_of(slice_range(&mapped, a, b).as_slice())
}

/// The name a model sees for a tool: `mcp__{part}`, with `__{index}` appended
/// when several tools share the name.
pub open spec fn encoded_name_spec(tool_name: Seq<char>, duplicate_index: Option<usize>) -> Seq<char> {
    let base = "mcp__"@ + sanitize_spec(tool_name);
    match duplicate_index {
        Some(i) => base + "__"@ + decimal(i as nat),
        None => base,
    }
}

pub fn encode_tool_name_for_model(tool_name: &str, duplicate_index: Option<usize>) -> (r: String)
    ensures
        r@ == encoded_name_spec(tool_name@, duplicate_index),
{
    let mut out = owned("mcp__");
    out.append(sanitize_tool_name_part(tool_name).as_str());
    if let Some(index) = duplicate_index {
        out.append("__");
        push_decimal(&mut out, index as u64);
    }
    out
}

/// Errors of splitting a qualified tool name or reading a tool result.
#[derive(Debug, Clone, PartialEq, Eq)]
pub enum ToolExecutionError {
    InvalidQualifiedName(String),
    InvalidResult(String),
}

impl ToolExecutionError {
    /// The message the error displays.
    pub fn message(&self) -> (r: String)
        ensures
            match self {
                ToolExecutionError::InvalidQualifiedName(n) => r@ == "invalid qualified tool name: "@ + n@,
                ToolExecutionError::InvalidResult(m) => r@ == "invalid tool result: "@ + m@,
            },
    {
        match self {
            ToolExecutionError::InvalidQualifiedName(name) => {
                let mut out = owned("invalid qualified tool name: ");
                out.append(name.as_str());
                out
            },
            ToolExecutionError::InvalidResult(reason) => {
                let mut out = owned("invalid tool result: ");
                out.append(reason.as_str());
                out
            },
        }
    }
}

/// `i` is the position of the first `:` in `s`.
pub open spec fn first_colon_at(s: Seq<char>, i: int) -> bool {
    0 <= i < s.len() && s[i] == ':' && forall|j: int| 0 <= j < i ==> s[j] != ':'
}

/// Whether `name` is `server:tool` with both parts non-empty, split at the first `:`.
pub open spec fn is_qualified(name: Seq<char>) -> bool {
    exists|i: int| first_colon_at(name, i) && 0 < i && i < name.len() - 1
}

/// Splits `server:tool` at its first `:`; both parts must be non-empty.
pub fn split_qualified_tool_name(name: &str) -> (r: Result<(&str, &str), ToolExecutionError>)
    ensures
        r is Ok <==> is_qualified(name@),
        r matches Ok((server, tool)) ==> exists|i: int|
            first_colon_at(name@, i) && server@ == name@.subrange(0, i) && tool@ == name@.subrange(
                i + 1,
                name@.len() as int,
            ),
        r matches Err(e) ==> e == ToolExecutionError::InvalidQualifiedName(e->InvalidQualifiedName_0)
            && e->InvalidQualifiedName_0@ == name@,
{
    let cs = chars_of(name);
    let mut i: usize = 0;
    while i < cs.len() && cs[i] != ':'
        invariant
            cs@ == name@,
            i <= cs.len(),
            forall|j: int| 0 <= j < i ==> cs@[j] != ':',
        decreases cs.len() - i,
    {
        i = i + 1;
    }
    if i == cs.len() || i == 0 || i + 1 == cs.len() {
        proof {
            if is_qualified(name@) {
                let k = choose|k: int| first_colon_at(name@, k) && 0 < k && k < name@.len() - 1;
                if k < i {
                } else if k > i {
                    assert(name@[i as int] == ':');
                } 
            }
        }
        return Err(ToolExecutionError::InvalidQualifiedName(owned(name)));
    }
    proof {
        assert(first_colon_at(name@, i as int));
    }
    let server = name.substring_char(0, i);
    let tool = name.substring_char(i + 1, cs.len());
    Ok((server, tool))
}

} // verus!
