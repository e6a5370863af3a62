//! The order of strings (`str`'s `Ord`: by code point, then by length) and
//! a stable sort by it.
use vstd::prelude::*;

verus! {

/// `a < b` as `str` orders them: the first differing character decides, and
/// a proper prefix comes first.
pub open spec fn seq_less(a: Seq<char>, b: Seq<char>) -> bool
    decreases a.len(),
{
    if b.len() == 0 {
        false
    } else if a.len() == 0 {
        true
    } else if a[0] < b[0] {
        true
    } else if b[0] < a[0] {
        false
    } else {
        seq_less(a.drop_first(), b.drop_first())
    }
}

pub proof fn lemma_less_irreflexive(a: Seq<char>)
    ensures
        !seq_less(a, a),
    decreases a.len(),
{
    if a.len() > 0 {
        lemma_less_irreflexive(a.drop_first());
    }
}

pub proof fn lemma_less_transitive(a: Seq<char>, b: Seq<char>, c: Seq<char>)
    requires
        seq_less(a, b),
        seq_less(b, c),
    ensures
        seq_less(a, c),
    decreases a.len(),
{
    if a.len() > 0 && b.len() > 0 && c.len() > 0 && a[0] == b[0] && b[0] == c[0] {
        lemma_less_transitive(a.drop_first(), b.drop_first(), c.drop_first());
    }
}

pub proof fn lemma_less_total(a: Seq<char>, b: Seq<char>)
    ensures
        seq_less(a, b) || seq_less(b, a) || a == b,
    decreases a.len(),
{
    if a.len() > 0 && b.len() > 0 && a[0] == b[0] {
        lemma_less_total(a.drop_first(), b.drop_first());
        if a.drop_first() == b.drop_first() {
            assert(a =~= seq![a[0]] + a.drop_first());
            assert(b =~= seq![b[0]] + b.drop_first());
        }
    } else if a.len() == 0 && b.len() == 0 {
        assert(a =~= b);
    }
}

/// `a < b` for `str`.
pub fn str_less(a: &[char], b: &[char]) -> (r: bool)
    ensures
        r == seq_less(a@, b@),
{
    let mut i: usize = 0;
    proof {
        assert(a@.skip(0) =~= a@);
        assert(b@.skip(0) =~= b@);
    }
    while i < a.len() && i < b.len() && a[i] == b[i]
        invariant
            i <= a@.len(),
            i <= b@.len(),
            seq_less(a@, b@) == seq_less(a@.skip(i as int), b@.skip(i as int)),
        decreases a.len() - i,
    {
        proof {
            assert(a@.skip(i as int).drop_first() =~= a@.skip(i + 1));
            assert(b@.skip(i as int).drop_first() =~= b@.skip(i + 1));
        }
        i = i + 1;
    }
    if i == b.len() {
        false
    } else if i == a.len() {
        true
    } else {
        a[i] < b[i]
    }
}

/// `x` put into the sorted `s` before the first item whose key is greater,
/// so after any with equal keys.
pub open spec fn insert_sorted<A>(s: Seq<A>, x: A, key: spec_fn(A) -> Seq<char>) -> Seq<A>
    decreases s.len(),
{
    if s.len() == 0 {
        seq![x]
    } else if seq_less(key(x), key(s[0])) {
        seq![x] + s
    } else {
        seq![s[0]] + insert_sorted(s.drop_first(), x, key)
    }
}

/// `s` sorted by key, items of equal keys in their order in `s`.
pub open spec fn sort_with<A>(s: Seq<A>, key: spec_fn(A) -> Seq<char>) -> Seq<A>
    decreases s.len(),
{
    if s.len() == 0 {
        Seq::empty()
    } else {
        insert_sorted(sort_with(s.drop_last(), key), s.last(), key)
    }
}

pub proof fn lemma_insert_sorted_at<A>(s: Seq<A>, x: A, key: spec_fn(A) -> Seq<char>, p: int)
    requires
        0 <= p <= s.len(),
        forall|j: int| 0 <= j < p ==> !seq_less(key(x), key(#[trigger] s[j])),
        p < s.len() ==> seq_less(key(x), key(s[p])),
    ensures
        insert_sorted(s, x, key) == s.insert(p, x),
    decreases s.len(),
{
    if s.len() == 0 {
        assert(s.insert(p, x) =~= seq![x]);
    } else if p == 0 {
        assert(s.insert(0, x) =~= seq![x] + s);
    } else {
        let t = s.drop_first();
        assert forall|j: int| 0 <= j < p - 1 implies !seq_less(key(x), key(#[trigger] t[j])) by {
            assert(t[j] == s[j + 1]);
        }
        if p < s.len() {
            assert(t[p - 1] == s[p]);
        }
        lemma_insert_sorted_at(t, x, key, p - 1);
        assert(!seq_less(key(x), key(s[0])));
        assert(seq![s[0]] + t.insert(p - 1, x) =~= s.insert(p, x));
    }
}

/// A string is its own key.
pub open spec fn str_key() -> spec_fn(Seq<char>) -> Seq<char> {
    |s: Seq<char>| s
}

/// Strings in `str` order, equal ones in their order in `v`.
pub fn sort_strings(v: Vec<String>) -> (r: Vec<String>)
    ensures
        crate::text::views(r@) == sort_with(crate::text::views(v@), str_key()),
{
    let ghost orig = crate::text::views(v@);
    let n = v.len();
    let mut input = v;
    let mut out: Vec<String> = Vec::new();
    let mut k: usize = 0;
    proof {
        assert(orig.take(0) =~= Seq::<Seq<char>>::empty());
        assert(crate::text::views(out@) =~= Seq::<Seq<char>>::empty());
        assert(crate::text::views(input@) =~= orig.skip(0));
    }
    while input.len() > 0
        invariant
            k <= n,
            n == orig.len(),
            crate::text::views(input@) == orig.skip(k as int),
            crate::text::views(out@) == sort_with(orig.take(k as int), str_key()),
        decreases input.len(),
    {
        proof {
            assert(crate::text::views(input@).len() == input@.len());
            assert(k < n);
        }
        let ghost before_input = input@;
        let x = input.remove(0);
        proof {
            assert(crate::text::views(before_input)[0] == x@);
            assert(orig.skip(k as int)[0] == x@);
            assert forall|i: int| 0 <= i < input@.len() implies crate::text::views(input@)[i] == orig.skip(k + 1)[i] by {
                assert(input@[i] == before_input[i + 1]);
                assert(crate::text::views(before_input)[i + 1] == orig.skip(k as int)[i + 1]);
            }
            assert(crate::text::views(input@) =~= orig.skip(k + 1));
            assert(orig.take(k + 1).drop_last() =~= orig.take(k as int));
            assert(orig.take(k + 1).last() == x@);
        }
        let xc = crate::text::chars_of(x.as_str());
        let mut p: usize = 0;
        while p < out.len()
            invariant
                p <= out@.len(),
                xc@ == x@,
                forall|j: int| 0 <= j < p ==> !seq_less(x@, (#[trigger] out@[j])@),
            ensures
                p <= out@.len(),
                forall|j: int| 0 <= j < p ==> !seq_less(x@, (#[trigger] out@[j])@),
                p < out@.len() ==> seq_less(x@, out@[p as int]@),
            decreases out.len() - p,
        {
            let oc = crate::text::chars_of(out[p].as_str());
            if str_less(xc.as_slice(), oc.as_slice()) {
                break;
            }
            p = p + 1;
        }
        proof {
            let sv = crate::text::views(out@);
            assert forall|j: int| 0 <= j < p implies !seq_less(str_key()(x@), str_key()(#[trigger] sv[j])) by {
                assert(sv[j] == out@[j]@);
                assert(str_key()(x@) == x@ && str_key()(sv[j]) == sv[j]);
            }
            assert(p < out@.len() ==> str_key()(sv[p as int]) == sv[p as int]);
            assert(str_key()(x@) == x@);
            if p < out@.len() {
                assert(sv[p as int] == out@[p as int]@);
            }
            lemma_insert_sorted_at(sv, x@, str_key(), p as int);
        }
        let ghost before = out@;
        out.insert(p, x);
        proof {
            assert(crate::text::views(out@) =~= crate::text::views(before).insert(p as int, x@));
        }
        k = k + 1;
    }
    proof {
        assert(orig.take(k as int) =~= orig);
    }
    out
}

/// Items sorted by key: no later key comes before an earlier one.
pub open spec fn sorted_by<A>(s: Seq<A>, key: spec_fn(A) -> Seq<char>) -> bool {
    forall|i: int, j: int| 0 <= i < j < s.len() ==> !seq_less(key(#[trigger] s[j]), key(#[trigger] s[i]))
}

proof fn lemma_insert_sorted_items<A>(s: Seq<A>, x: A, key: spec_fn(A) -> Seq<char>)
    ensures
        insert_sorted(s, x, key).len() == s.len() + 1,
        forall|k: int| 0 <= k < insert_sorted(s, x, key).len() ==> #[trigger] insert_sorted(s, x, key)[k] == x
            || exists|j: int| 0 <= j < s.len() && s[j] == insert_sorted(s, x, key)[k],
        insert_sorted(s, x, key).to_multiset() == s.to_multiset().insert(x),
    decreases s.len(),
{
    broadcast use vstd::seq_lib::group_to_multiset_ensures;
    if s.len() == 0 {
        assert(seq![x] =~= Seq::<A>::empty().push(x));
    } else if seq_less(key(x), key(s[0])) {
        let r = seq![x] + s;
        assert forall|k: int| 0 <= k < r.len() implies #[trigger] r[k] == x || exists|j: int| 0 <= j < s.len() && s[j] == r[k] by {
            if k > 0 {
                assert(s[k - 1] == r[k]);
            }
        }
        vstd::seq_lib::lemma_multiset_commutative(seq![x], s);
        assert(seq![x] =~= Seq::<A>::empty().push(x));
        assert((s + seq![x]) =~= s.push(x));
        vstd::seq_lib::lemma_seq_union_to_multiset_commutative(s, seq![x]);
    } else {
        let t = s.drop_first();
        lemma_insert_sorted_items(t, x, key);
        let it = insert_sorted(t, x, key);
        let r = seq![s[0]] + it;
        assert forall|k: int| 0 <= k < r.len() implies #[trigger] r[k] == x || exists|j: int| 0 <= j < s.len() && s[j] == r[k] by {
            if k == 0 {
                assert(s[0] == r[0]);
            } else {
                assert(r[k] == it[k - 1]);
                if it[k - 1] != x {
                    let j = choose|j: int| 0 <= j < t.len() && t[j] == it[k - 1];
                    assert(s[j + 1] == t[j]);
                }
            }
        }
        assert(s =~= seq![s[0]] + t);
        vstd::seq_lib::lemma_multiset_commutative(seq![s[0]], it);
        vstd::seq_lib::lemma_multiset_commutative(seq![s[0]], t);
    }
}

proof fn lemma_insert_sorted_keeps_order<A>(s: Seq<A>, x: A, key: spec_fn(A) -> Seq<char>)
    requires
        sorted_by(s, key),
    ensures
        sorted_by(insert_sorted(s, x, key), key),
    decreases s.len(),
{
    if s.len() == 0 {
    } else if seq_less(key(x), key(s[0])) {
        let r = seq![x] + s;
        assert forall|i: int, j: int| 0 <= i < j < r.len() implies !seq_less(key(#[trigger] r[j]), key(#[trigger] r[i])) by {
            if i == 0 {
                assert(r[j] == s[j - 1]);
                if j - 1 > 0 {
                    assert(!seq_less(key(s[j - 1]), key(s[0])));
                }
                if seq_less(key(s[j - 1]), key(x)) {
                    lemma_less_transitive(key(s[j - 1]), key(x), key(s[0]));
                    if j - 1 == 0 {
                        lemma_less_irreflexive(key(s[0]));
                    }
                }
            } else {
                assert(r[i] == s[i - 1] && r[j] == s[j - 1]);
            }
        }
    } else {
        let t = s.drop_first();
        assert forall|i: int, j: int| 0 <= i < j < t.len() implies !seq_less(key(#[trigger] t[j]), key(#[trigger] t[i])) by {
            assert(t[i] == s[i + 1] && t[j] == s[j + 1]);
        }
        lemma_insert_sorted_keeps_order(t, x, key);
        lemma_insert_sorted_items(t, x, key);
        let it = insert_sorted(t, x, key);
        let r = seq![s[0]] + it;
        assert forall|i: int, j: int| 0 <= i < j < r.len() implies !seq_less(key(#[trigger] r[j]), key(#[trigger] r[i])) by {
            if i == 0 {
                assert(r[j] == it[j - 1]);
                if it[j - 1] != x {
                    let q = choose|q: int| 0 <= q < t.len() && t[q] == it[j - 1];
                    assert(s[q + 1] == t[q]);
                }
            } else {
                assert(r[i] == it[i - 1] && r[j] == it[j - 1]);
            }
        }
    }
}

/// Sorting puts the items in key order and keeps each of them, as often as
/// it occurs.
pub proof fn law_sort_with_sorted<A>(s: Seq<A>, key: spec_fn(A) -> Seq<char>)
    ensures
        sorted_by(sort_with(s, key), key),
        sort_with(s, key).to_multiset() == s.to_multiset(),
    decreases s.len(),
{
    broadcast use vstd::seq_lib::group_to_multiset_ensures;
    if s.len() > 0 {
        law_sort_with_sorted(s.drop_last(), key);
        lemma_insert_sorted_keeps_order(sort_with(s.drop_last(), key), s.last(), key);
        lemma_insert_sorted_items(sort_with(s.drop_last(), key), s.last(), key);
        assert(s =~= s.drop_last().push(s.last()));
    } else {
        assert(sort_with(s, key) =~= s);
    }
}

/// Values ordered by a string key.
pub trait Keyed {
    spec fn key(&self) -> Seq<char>;

    fn key_chars(&self) -> (r: Vec<char>)
        ensures
            r@ == self.key();
}

/// The key of a keyed value, as a function.
pub open spec fn key_of<T: Keyed>() -> spec_fn(T) -> Seq<char> {
    |t: T| t.key()
}

/// Values in key order, equal keys in their given order.
pub fn sort_keyed<T: Keyed>(v: Vec<T>) -> (r: Vec<T>)
    ensures
        r@ == sort_with(v@, key_of::<T>()),
{
    let ghost orig = v@;
    let n = v.len();
    let mut input = v;
    let mut out: Vec<T> = Vec::new();
    let mut k: usize = 0;
    proof {
        assert(orig.take(0) =~= Seq::<T>::empty());
        assert(input@ =~= orig.skip(0));
    }
    while input.len() > 0
        invariant
            k <= n,
            n == orig.len(),
            input@ == orig.skip(k as int),
            out@ == sort_with(orig.take(k as int), key_of::<T>()),
        decreases input.len(),
    {
        let ghost before_input = input@;
        let x = input.remove(0);
        proof {
            assert(input@ =~= orig.skip(k + 1));
            assert(orig.take(k + 1).drop_last() =~= orig.take(k as int));
            assert(orig.take(k + 1).last() == x);
        }
        let xc = x.key_chars();
        let mut p: usize = 0;
        while p < out.len()
            invariant
                p <= out@.len(),
                xc@ == x.key(),
                forall|j: int| 0 <= j < p ==> !seq_less(x.key(), (#[trigger] out@[j]).key()),
            ensures
                p <= out@.len(),
                forall|j: int| 0 <= j < p ==> !seq_less(x.key(), (#[trigger] out@[j]).key()),
                p < out@.len() ==> seq_less(x.key(), out@[p as int].key()),
            decreases out.len() - p,
        {
            let oc = out[p].key_chars();
            if str_less(xc.as_slice(), oc.as_slice()) {
                break;
            }
            p = p + 1;
        }
        proof {
            lemma_insert_sorted_at(out@, x, key_of::<T>(), p as int);
        }
        out.insert(p, x);
        k = k + 1;
    }
    proof {
        assert(orig.take(k as int) =~= orig);
    }
    out
}

} // verus!
