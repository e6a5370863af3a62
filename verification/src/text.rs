//! Character-level helpers shared by the prompt builders and parsers.
use vstd::prelude::*;

verus! {

broadcast use vstd::string::group_string_axioms;

/// The characters of `s`, in order.
pub fn chars_of(s: &str) -> (r: Vec<char>)
    ensures
        r@ == s@,
{
    let mut out: Vec<char> = Vec::new();
    for c in it: s.chars()
        invariant
            out@ == it.seq().take(it.index() as int),
            it.seq() == s@,
    {
        out.push(c);
    }
    out
}

/// Appends one character to a string (`String::push`).
#[verifier::external_body]
pub(crate) fn push_char(s: &mut String, c: char)
    ensures
        final(s)@ == old(s)@.push(c),
{
    s.push(c);
}

/// Appends a string slice.
pub fn push_str(s: &mut String, t: &str)
    ensures
        final(s)@ == old(s)@ + t@,
{
    s.append(t);
}

/// Builds a string from a run of characters.
pub fn string_of(cs: &[char]) -> (r: String)
    ensures
        r@ == cs@,
{
    let mut out = String::new();
    let mut i: usize = 0;
    while i < cs.len()
        invariant
            i <= cs.len(),
            out@ == cs@.subrange(0, i as int),
        decreases cs.len() - i,
    {
        push_char(&mut out, cs[i]);
        i = i + 1;
    }
    out
}

/// An owned copy of `s`.
pub fn owned(s: &str) -> (r: String)
    ensures
        r@ == s@,
{
    s.to_owned()
}

/// Whether two strings hold the same characters.
pub fn str_eq(a: &str, b: &str) -> (r: bool)
    ensures
        r == (a@ == b@),
{
    let ca = chars_of(a);
    let cb = chars_of(b);
    seq_eq(&ca, &cb)
}

/// Whether two character runs are equal.
pub fn seq_eq(a: &[char], b: &[char]) -> (r: bool)
    ensures
        r == (a@ == b@),
{
    if a.len() != b.len() {
        return false;
    }
    let mut i: usize = 0;
    while i < a.len()
        invariant
            a.len() == b.len(),
            i <= a.len(),
            forall|j: int| 0 <= j < i ==> a@[j] == b@[j],
        decreases a.len() - i,
    {
        if a[i] != b[i] {
            return false;
        }
        i = i + 1;
    }
    assert(a@ =~= b@);
    true
}

/// Unicode `White_Space`, the set that `char::is_whitespace` tests.
pub open spec fn is_ws(c: char) -> bool {
    ||| ('\u{9}' <= c && c <= '\u{d}')
    ||| c == ' '
    ||| c == '\u{85}'
    ||| c == '\u{a0}'
    ||| c == '\u{1680}'
    ||| ('\u{2000}' <= c && c <= '\u{200a}')
    ||| c == '\u{2028}'
    ||| c == '\u{2029}'
    ||| c == '\u{202f}'
    ||| c == '\u{205f}'
    ||| c == '\u{3000}'
}

pub fn is_whitespace(c: char) -> (r: bool)
    ensures
        r == is_ws(c),
{
    ('\u{9}' <= c && c <= '\u{d}') || c == ' ' || c == '\u{85}' || c == '\u{a0}' || c == '\u{1680}'
        || ('\u{2000}' <= c && c <= '\u{200a}') || c == '\u{2028}' || c == '\u{2029}' || c
        == '\u{202f}' || c == '\u{205f}' || c == '\u{3000}'
}

pub open spec fn lower(c: char) -> char {
    if 'A' <= c && c <= 'Z' { ((c as u32) + 32) as char } else { c }
}

pub fn to_lower(c: char) -> (r: char)
    ensures r == lower(c),
{
    if 'A' <= c && c <= 'Z' {
        let b: u8 = c as u8;
        ((b + 32) as char)
    } else {
        c
    }
}



/// ASCII-lowercases every character (`str::to_ascii_lowercase`).
pub open spec fn lower_seq(s: Seq<char>) -> Seq<char> {
    s.map_values(|c: char| lower(c))
}

pub fn to_ascii_lowercase(s: &str) -> (r: Vec<char>)
    ensures
        r@ == lower_seq(s@),
{
    let cs = chars_of(s);
    let mut out: Vec<char> = Vec::new();
    let mut i: usize = 0;
    while i < cs.len()
        invariant
            cs@ == s@,
            i <= cs.len(),
            out@ == lower_seq(s@.subrange(0, i as int)),
        decreases cs.len() - i,
    {
        out.push(to_lower(cs[i]));
        proof {
            assert(lower_seq(s@.subrange(0, i + 1)) =~= lower_seq(s@.subrange(0, i as int)).push(
                lower(cs@[i as int]),
            ));
        }
        i = i + 1;
    }
    proof {
        assert(s@.subrange(0, cs.len() as int) =~= s@);
    }
    out
}

/// `s` without its leading characters that satisfy `p`.
pub open spec fn strip_leading(s: Seq<char>, p: spec_fn(char) -> bool) -> Seq<char>
    decreases s.len(),
{
    if s.len() > 0 && p(s[0]) {
        strip_leading(s.drop_first(), p)
    } else {
        s
    }
}

/// `s` without its trailing characters that satisfy `p`.
pub open spec fn strip_trailing(s: Seq<char>, p: spec_fn(char) -> bool) -> Seq<char>
    decreases s.len(),
{
    if s.len() > 0 && p(s.last()) {
        strip_trailing(s.drop_last(), p)
    } else {
        s
    }
}

/// `s` without leading and trailing characters that satisfy `p`
/// (`str::trim_matches` with a predicate).
pub open spec fn strip_both(s: Seq<char>, p: spec_fn(char) -> bool) -> Seq<char> {
    strip_trailing(strip_leading(s, p), p)
}

/// `str::trim`: strips Unicode white space at both ends.
pub open spec fn trim(s: Seq<char>) -> Seq<char> {
    strip_both(s, |c: char| is_ws(c))
}

pub proof fn lemma_strip_leading(s: Seq<char>, p: spec_fn(char) -> bool, i: int)
    requires
        0 <= i <= s.len(),
        forall|j: int| 0 <= j < i ==> p(#[trigger] s[j]),
        i == s.len() || !p(s[i]),
    ensures
        strip_leading(s, p) == s.subrange(i, s.len() as int),
    decreases i,
{
    if i == 0 {
        assert(s.subrange(0, s.len() as int) =~= s);
    } else {
        assert(p(s[0]));
        let t = s.drop_first();
        assert forall|j: int| 0 <= j < i - 1 implies p(#[trigger] t[j]) by {
            assert(t[j] == s[j + 1]);
        }
        lemma_strip_leading(t, p, i - 1);
        assert(t.subrange(i - 1, t.len() as int) =~= s.subrange(i, s.len() as int));
    }
}

pub proof fn lemma_strip_trailing(s: Seq<char>, p: spec_fn(char) -> bool, k: int)
    requires
        0 <= k <= s.len(),
        forall|j: int| k <= j < s.len() ==> p(#[trigger] s[j]),
        k == 0 || !p(s[k - 1]),
    ensures
        strip_trailing(s, p) == s.subrange(0, k),
    decreases s.len() - k,
{
    if k == s.len() {
        assert(s.subrange(0, k) =~= s);
    } else {
        assert(p(s.last()));
        let t = s.drop_last();
        assert forall|j: int| k <= j < t.len() implies p(#[trigger] t[j]) by {
            assert(t[j] == s[j]);
        }
        lemma_strip_trailing(t, p, k);
        assert(t.subrange(0, k) =~= s.subrange(0, k));
    }
}

/// The bounds `(a, b)` such that `cs[a..b]` is `cs` with white space trimmed.
pub fn trim_bounds(cs: &[char]) -> (r: (usize, usize))
    ensures
        r.0 <= r.1 <= cs@.len(),
        cs@.subrange(r.0 as int, r.1 as int) == trim(cs@),
{
    let n = cs.len();
    let mut a: usize = 0;
    while a < n && is_whitespace(cs[a])
        invariant
            a <= n,
            n == cs@.len(),
            forall|j: int| 0 <= j < a ==> is_ws(#[trigger] cs@[j]),
        decreases n - a,
    {
        a = a + 1;
    }
    let ghost p = |c: char| is_ws(c);
    proof {
        lemma_strip_leading(cs@, p, a as int);
    }
    let ghost lead = cs@.subrange(a as int, n as int);
    let mut b: usize = n;
    while b > a && is_whitespace(cs[b - 1])
        invariant
            a <= b <= n,
            n == cs@.len(),
            forall|j: int| b <= j < n ==> is_ws(#[trigger] cs@[j]),
        decreases b,
    {
        b = b - 1;
    }
    proof {
        assert forall|j: int| (b - a) <= j < lead.len() implies p(#[trigger] lead[j]) by {
            assert(lead[j] == cs@[j + a]);
        }
        lemma_strip_trailing(lead, p, (b - a) as int);
        assert(lead.subrange(0, (b - a) as int) =~= cs@.subrange(a as int, b as int));
    }
    (a, b)
}

/// `str::trim` as an owned string.
pub fn trim_string(s: &str) -> (r: String)
    ensures
        r@ == trim(s@),
{
    let cs = chars_of(s);
    let (a, b) = trim_bounds(cs.as_slice());
    string_of(slice_range(&cs, a, b).as_slice())
}

/// A copy of `v[a..b]`.
pub fn slice_range(v: &Vec<char>, a: usize, b: usize) -> (r: Vec<char>)
    requires
        a <= b <= v@.len(),
    ensures
        r@ == v@.subrange(a as int, b as int),
{
    let mut out: Vec<char> = Vec::new();
    let mut i: usize = a;
    while i < b
        invariant
            a <= i <= b <= v@.len(),
            out@ == v@.subrange(a as int, i as int),
        decreases b - i,
    {
        out.push(v[i]);
        proof {
            assert(v@.subrange(a as int, i + 1) =~= v@.subrange(a as int, i as int).push(v@[i as int]));
        }
        i = i + 1;
    }
    out
}

/// Whether `pat` occurs in `s` at position `i`.
pub open spec fn matches_at(s: Seq<char>, pat: Seq<char>, i: int) -> bool {
    0 <= i && i + pat.len() <= s.len() && s.subrange(i, i + pat.len()) == pat
}

/// The first position at or after `from` where `pat` occurs, as `str::find` reports it.
#[verifier::opaque]
pub open spec fn first_match_from(s: Seq<char>, pat: Seq<char>, from: int) -> Option<int> {
    if exists|i: int| from <= i && matches_at(s, pat, i) {
        Some(choose|i: int| from <= i && matches_at(s, pat, i) && forall|j: int| from <= j < i ==> !matches_at(s, pat, j))
    } else {
        None
    }
}

pub fn matches_at_exec(s: &[char], pat: &[char], i: usize) -> (r: bool)
    ensures
        r == matches_at(s@, pat@, i as int),
{
    if i > s.len() || pat.len() > s.len() - i {
        return false;
    }
    let mut k: usize = 0;
    while k < pat.len()
        invariant
            i + pat.len() <= s.len(),
            k <= pat.len(),
            forall|j: int| 0 <= j < k ==> s@[i + j] == pat@[j],
        decreases pat.len() - k,
    {
        if s[i + k] != pat[k] {
            assert(s@.subrange(i as int, i + pat.len())[k as int] != pat@[k as int]);
            return false;
        }
        k = k + 1;
    }
    assert(s@.subrange(i as int, i + pat.len()) =~= pat@);
    true
}

/// The first position `>= from` where `pat` occurs in `s`.
pub fn find_from(s: &[char], pat: &[char], from: usize) -> (r: Option<usize>)
    ensures
        match r {
            Some(i) => from <= i && matches_at(s@, pat@, i as int) && forall|j: int|
                from <= j < i ==> !matches_at(s@, pat@, j),
            None => forall|j: int| from <= j ==> !matches_at(s@, pat@, j),
        },
{
    if from > s.len() {
        return None;
    }
    let mut i: usize = from;
    while i < s.len()
        invariant
            from <= i <= s.len(),
            forall|j: int| from <= j < i ==> !matches_at(s@, pat@, j),
        decreases s.len() - i,
    {
        if matches_at_exec(s, pat, i) {
            return Some(i);
        }
        i = i + 1;
    }
    if matches_at_exec(s, pat, i) {
        return Some(i);
    }
    None
}

pub proof fn lemma_first_match(s: Seq<char>, pat: Seq<char>, from: int, i: int)
    requires
        from <= i,
        matches_at(s, pat, i),
        forall|j: int| from <= j < i ==> !matches_at(s, pat, j),
    ensures
        first_match_from(s, pat, from) == Some(i),
{
    reveal(first_match_from);
    let k = choose|k: int| from <= k && matches_at(s, pat, k) && forall|j: int| from <= j < k ==> !matches_at(s, pat, j);
    assert(from <= k && matches_at(s, pat, k));
    if k < i {
    } else if k > i {
        assert(!matches_at(s, pat, i));
    }
}

pub proof fn lemma_first_match_none(s: Seq<char>, pat: Seq<char>, from: int)
    requires
        forall|j: int| from <= j ==> !matches_at(s, pat, j),
    ensures
        first_match_from(s, pat, from) is None,
{
    reveal(first_match_from);
}

/// Whether `pat` occurs anywhere in `s` (`str::contains`).
pub open spec fn contains_seq(s: Seq<char>, pat: Seq<char>) -> bool {
    exists|i: int| matches_at(s, pat, i)
}

pub fn contains(s: &[char], pat: &[char]) -> (r: bool)
    ensures
        r == contains_seq(s@, pat@),
{
    match find_from(s, pat, 0) {
        Some(i) => true,
        None => {
            assert forall|j: int| !matches_at(s@, pat@, j) by {
                if j >= 0 {
                }
            }
            false
        },
    }
}

/// Whether `s` begins with `pat`.
pub fn starts_with(s: &[char], pat: &[char]) -> (r: bool)
    ensures
        r == (pat@.len() <= s@.len() && s@.subrange(0, pat@.len() as int) == pat@),
{
    matches_at_exec(s, pat, 0)
}

/// Decimal digits of `n`, as `usize`'s `Display` writes them.
pub open spec fn decimal(n: nat) -> Seq<char>
    decreases n,
{
    if n < 10 {
        seq![digit_char(n)]
    } else {
        decimal(n / 10).push(digit_char(n % 10))
    }
}

pub open spec fn digit_char(d: nat) -> char {
    ((d + 48) as u8) as char
}

pub fn push_decimal(out: &mut String, n: u64)
    ensures
        final(out)@ == old(out)@ + decimal(n as nat),
    decreases n,
{
    if n >= 10 {
        push_decimal(out, n / 10);
    }
    let d: u8 = (n % 10) as u8;
    push_char(out, (d + 48) as char);
    proof {
        if n >= 10 {
            assert(decimal(n as nat) == decimal((n / 10) as nat).push(digit_char((n % 10) as nat)));
        }
    }
}


/// Decimal writing is never empty, and is longer than one digit from ten on.
pub proof fn lemma_decimal_len(n: nat)
    ensures
        decimal(n).len() >= 1,
        n >= 10 ==> decimal(n).len() >= 2,
    decreases n,
{
    if n >= 10 {
        lemma_decimal_len(n / 10);
    }
}

/// Two numbers with the same decimal writing are the same number.
pub proof fn lemma_decimal_injective(a: nat, b: nat)
    requires
        decimal(a) == decimal(b),
    ensures
        a == b,
    decreases a + b,
{
    lemma_decimal_len(a);
    lemma_decimal_len(b);
    if a < 10 && b < 10 {
        assert(decimal(a)[0] == digit_char(a));
        assert(decimal(b)[0] == digit_char(b));
        assert(((a + 48) as u8) as char == ((b + 48) as u8) as char);
    } else if a >= 10 && b >= 10 {
        let da = decimal(a / 10);
        let db = decimal(b / 10);
        assert(decimal(a) == da.push(digit_char(a % 10)));
        assert(decimal(b) == db.push(digit_char(b % 10)));
        assert(da == decimal(a).drop_last());
        assert(db == decimal(b).drop_last());
        assert(digit_char(a % 10) == decimal(a).last());
        assert(digit_char(b % 10) == decimal(b).last());
        assert(((a % 10 + 48) as u8) as char == ((b % 10 + 48) as u8) as char);
        assert(a % 10 == b % 10);
        lemma_decimal_injective(a / 10, b / 10);
    } else {
        assert(decimal(a).len() != decimal(b).len());
    }
}

/// The bounds `(a, b)` such that `cs[a..b]` is `cs` with every leading and
/// trailing `ch` removed (`str::trim_matches(ch)`).
pub fn strip_char_bounds(cs: &[char], ch: char) -> (r: (usize, usize))
    ensures
        r.0 <= r.1 <= cs@.len(),
        cs@.subrange(r.0 as int, r.1 as int) == strip_both(cs@, |c: char| c == ch),
{
    let n = cs.len();
    let mut a: usize = 0;
    while a < n && cs[a] == ch
        invariant
            a <= n,
            n == cs@.len(),
            forall|j: int| 0 <= j < a ==> #[trigger] cs@[j] == ch,
        decreases n - a,
    {
        a = a + 1;
    }
    let ghost p = |c: char| c == ch;
    proof {
        lemma_strip_leading(cs@, p, a as int);
    }
    let ghost lead = cs@.subrange(a as int, n as int);
    let mut b: usize = n;
    while b > a && cs[b - 1] == ch
        invariant
            a <= b <= n,
            n == cs@.len(),
            forall|j: int| b <= j < n ==> #[trigger] cs@[j] == ch,
        decreases b,
    {
        b = b - 1;
    }
    proof {
        assert forall|j: int| (b - a) <= j < lead.len() implies p(#[trigger] lead[j]) by {
            assert(lead[j] == cs@[j + a]);
        }
        lemma_strip_trailing(lead, p, (b - a) as int);
        assert(lead.subrange(0, (b - a) as int) =~= cs@.subrange(a as int, b as int));
    }
    (a, b)
}

/// ASCII letters and digits (`char::is_ascii_alphanumeric`).
pub open spec fn is_alnum(c: char) -> bool {
    ('a' <= c && c <= 'z') || ('A' <= c && c <= 'Z') || ('0' <= c && c <= '9')
}

pub fn is_ascii_alphanumeric(c: char) -> (r: bool)
    ensures
        r == is_alnum(c),
{
    ('a' <= c && c <= 'z') || ('A' <= c && c <= 'Z') || ('0' <= c && c <= '9')
}


/// `parts` joined with `sep` between consecutive parts (`[String]::join`).
pub open spec fn join(parts: Seq<Seq<char>>, sep: Seq<char>) -> Seq<char>
    decreases parts.len(),
{
    if parts.len() == 0 {
        Seq::empty()
    } else if parts.len() == 1 {
        parts[0]
    } else {
        join(parts.drop_last(), sep) + sep + parts.last()
    }
}

/// The views of a run of strings.
pub open spec fn views(v: Seq<String>) -> Seq<Seq<char>> {
    v.map_values(|s: String| s@)
}

pub fn join_strings(parts: &[String], sep: &str) -> (r: String)
    ensures
        r@ == join(views(parts@), sep@),
{
    let mut out = String::new();
    let mut i: usize = 0;
    while i < parts.len()
        invariant
            i <= parts.len(),
            out@ == join(views(parts@.subrange(0, i as int)), sep@),
        decreases parts.len() - i,
    {
        let ghost before = views(parts@.subrange(0, i as int));
        if i > 0 {
            out.append(sep);
        }
        out.append(parts[i].as_str());
        proof {
            let after = views(parts@.subrange(0, i + 1));
            assert(after.drop_last() =~= before);
            assert(after.last() == parts@[i as int]@);
            if i == 0 {
                assert(after =~= seq![parts@[0]@]);
            }
        }
        i = i + 1;
    }
    proof {
        assert(parts@.subrange(0, parts.len() as int) =~= parts@);
    }
    out
}


pub proof fn lemma_matches_shift(s: Seq<char>, pat: Seq<char>, c: int, j: int)
    requires
        0 <= c <= s.len(),
        0 <= j,
    ensures
        matches_at(s.subrange(c, s.len() as int), pat, j) == matches_at(s, pat, c + j),
{
    let t = s.subrange(c, s.len() as int);
    if j + pat.len() <= t.len() {
        assert(t.subrange(j, j + pat.len()) =~= s.subrange(c + j, c + j + pat.len()));
    }
}

/// `pat` replaced by `rep` at each non-overlapping occurrence, left to right (`str::replace`).
#[verifier::opaque]
pub open spec fn replace_all(s: Seq<char>, pat: Seq<char>, rep: Seq<char>) -> Seq<char>
    decreases s.len(),
{
    if pat.len() == 0 {
        s
    } else {
        match first_match_from(s, pat, 0) {
            Some(i) => if 0 <= i && i + pat.len() <= s.len() {
                s.subrange(0, i) + rep + replace_all(s.subrange(i + pat.len(), s.len() as int), pat, rep)
            } else {
                s
            },
            None => s,
        }
    }
}

pub proof fn lemma_replace_found(t: Seq<char>, pat: Seq<char>, rep: Seq<char>, i: int)
    requires
        pat.len() > 0,
        first_match_from(t, pat, 0) == Some(i),
        0 <= i,
        i + pat.len() <= t.len(),
    ensures
        replace_all(t, pat, rep) == t.subrange(0, i) + rep + replace_all(
            t.subrange(i + pat.len(), t.len() as int),
            pat,
            rep,
        ),
{
    reveal(replace_all);
}

pub proof fn lemma_replace_none(t: Seq<char>, pat: Seq<char>, rep: Seq<char>)
    requires
        pat.len() > 0,
        first_match_from(t, pat, 0) is None,
    ensures
        replace_all(t, pat, rep) == t,
{
    reveal(replace_all);
}

pub fn replace_all_exec(s: &Vec<char>, pat: &Vec<char>, rep: &Vec<char>) -> (r: Vec<char>)
    requires
        pat@.len() > 0,
    ensures
        r@ == replace_all(s@, pat@, rep@),
{
    let mut out: Vec<char> = Vec::new();
    let mut cursor: usize = 0;
    proof {
        assert(s@.subrange(0, s@.len() as int) =~= s@);
        assert(out@ + s@ =~= s@);
    }
    loop
        invariant
            cursor <= s@.len(),
            pat@.len() > 0,
            out@ + replace_all(s@.subrange(cursor as int, s@.len() as int), pat@, rep@) == replace_all(s@, pat@, rep@),
        decreases s@.len() - cursor,
    {
        let ghost t = s@.subrange(cursor as int, s@.len() as int);
        match find_from(s.as_slice(), pat.as_slice(), cursor) {
            Some(i) => {
                let slen = s.len();
                assert(i + pat@.len() <= slen);
                proof {
                    lemma_matches_shift(s@, pat@, cursor as int, i - cursor);
                    assert forall|j: int| 0 <= j < i - cursor implies !matches_at(t, pat@, j) by {
                        lemma_matches_shift(s@, pat@, cursor as int, j);
                    }
                    lemma_first_match(t, pat@, 0, i - cursor);
                    assert(t.subrange(0, i - cursor) =~= s@.subrange(cursor as int, i as int));
                    assert(t.subrange(i - cursor + pat@.len(), t.len() as int) =~= s@.subrange(i + pat@.len(), s@.len() as int));
                    lemma_replace_found(t, pat@, rep@, i - cursor);
                }
                let ghost out0 = out@;
                let mut before = slice_range(s, cursor, i);
                out.append(&mut before);
                let mut r2 = slice_range(rep, 0, rep.len());
                proof {
                    assert(rep@.subrange(0, rep@.len() as int) =~= rep@);
                }
                out.append(&mut r2);
                proof {
                    let rest = s@.subrange(i + pat@.len(), s@.len() as int);
                    assert(out@ == out0 + s@.subrange(cursor as int, i as int) + rep@);
                    assert(out@ + replace_all(rest, pat@, rep@) =~= out0 + (t.subrange(0, i - cursor) + rep@ + replace_all(rest, pat@, rep@)));
                }
                cursor = i + pat.len();
            },
            None => {
                proof {
                    assert forall|j: int| 0 <= j implies !matches_at(t, pat@, j) by {
                        lemma_matches_shift(s@, pat@, cursor as int, j);
                    }
                    lemma_first_match_none(t, pat@, 0);
                    lemma_replace_none(t, pat@, rep@);
                }
                let mut rest = slice_range(s, cursor, s.len());
                out.append(&mut rest);
                return out;
            },
        }
    }
}

/// The first index at or after `i` that holds `c`.
pub open spec fn find_char_from(s: Seq<char>, c: char, i: int) -> Option<int>
    decreases s.len() - i,
{
    if i < 0 || i >= s.len() {
        None
    } else if s[i] == c {
        Some(i)
    } else {
        find_char_from(s, c, i + 1)
    }
}

/// The last index in `lo..hi` that holds `c`.
pub open spec fn rfind_char_in(s: Seq<char>, c: char, lo: int, hi: int) -> Option<int>
    decreases hi - lo,
{
    if hi <= lo || hi > s.len() || lo < 0 {
        None
    } else if s[hi - 1] == c {
        Some(hi - 1)
    } else {
        rfind_char_in(s, c, lo, hi - 1)
    }
}

pub proof fn lemma_find_char_bounds(s: Seq<char>, c: char, i: int)
    ensures
        find_char_from(s, c, i) matches Some(k) ==> i <= k < s.len() && s[k] == c,
    decreases s.len() - i,
{
    if 0 <= i < s.len() && s[i] != c {
        lemma_find_char_bounds(s, c, i + 1);
    }
}

pub proof fn lemma_rfind_char_bounds(s: Seq<char>, c: char, lo: int, hi: int)
    ensures
        rfind_char_in(s, c, lo, hi) matches Some(k) ==> lo <= k < hi && s[k] == c,
    decreases hi - lo,
{
    if lo < hi && hi <= s.len() && 0 <= lo && s[hi - 1] != c {
        lemma_rfind_char_bounds(s, c, lo, hi - 1);
    }
}

/// `str::find` of one character, from `from` on.
pub fn find_char(s: &[char], c: char, from: usize) -> (r: Option<usize>)
    ensures
        match r {
            Some(k) => find_char_from(s@, c, from as int) == Some(k as int),
            None => find_char_from(s@, c, from as int) is None,
        },
        r matches Some(k) ==> from <= k < s@.len() && s@[k as int] == c,
{
    let mut i = from;
    while i < s.len()
        invariant
            from <= i,
            find_char_from(s@, c, from as int) == find_char_from(s@, c, i as int),
        decreases s.len() - i,
    {
        if s[i] == c {
            return Some(i);
        }
        i = i + 1;
    }
    None
}

/// `str::rfind` of one character within `lo..hi`.
pub fn rfind_char(s: &[char], c: char, lo: usize, hi: usize) -> (r: Option<usize>)
    requires
        lo <= hi <= s@.len(),
    ensures
        match r {
            Some(k) => rfind_char_in(s@, c, lo as int, hi as int) == Some(k as int),
            None => rfind_char_in(s@, c, lo as int, hi as int) is None,
        },
        r matches Some(k) ==> lo <= k < hi && s@[k as int] == c,
{
    let mut j = hi;
    while j > lo
        invariant
            lo <= j <= hi <= s@.len(),
            rfind_char_in(s@, c, lo as int, hi as int) == rfind_char_in(s@, c, lo as int, j as int),
        decreases j - lo,
    {
        if s[j - 1] == c {
            return Some(j - 1);
        }
        j = j - 1;
    }
    None
}

} // verus!
