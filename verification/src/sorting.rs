//! Stable insertion ordering, stated once for any strict weak order, and
//! the byte-wise lexicographic order of strings.
use vstd::prelude::*;

verus! {

broadcast use vstd::seq_lib::to_multiset_insert;

/// `lt` is a strict weak order: irreflexive, transitive, and its negation
/// ("not less") is transitive too.
pub open spec fn strict_weak_order<V>(lt: spec_fn(V, V) -> bool) -> bool {
    &&& forall|a: V| !(#[trigger] lt(a, a))
    &&& forall|a: V, b: V, c: V| #[trigger] lt(a, b) && #[trigger] lt(b, c) ==> lt(a, c)
    &&& forall|a: V, b: V, c: V| !(#[trigger] lt(a, b)) && !(#[trigger] lt(b, c)) ==> !lt(a, c)
}

/// No later item is less than an earlier one.
pub open spec fn sorted_by<V>(s: Seq<V>, lt: spec_fn(V, V) -> bool) -> bool {
    forall|i: int, j: int| 0 <= i < j < s.len() ==> !lt(#[trigger] s[j], #[trigger] s[i])
}

/// Where `x` goes in `s`: after every item it is not less than, counting
/// from the end, so equal items keep their order.
pub open spec fn insert_pos<V>(s: Seq<V>, x: V, lt: spec_fn(V, V) -> bool) -> nat
    decreases s.len(),
{
    if s.len() > 0 && lt(x, s.last()) {
        insert_pos(s.drop_last(), x, lt)
    } else {
        s.len()
    }
}

pub open spec fn insert_by<V>(s: Seq<V>, x: V, lt: spec_fn(V, V) -> bool) -> Seq<V> {
    s.insert(insert_pos(s, x, lt) as int, x)
}

/// The stable sort of `s` by `lt`: each item inserted in turn.
pub open spec fn sort_by_spec<V>(s: Seq<V>, lt: spec_fn(V, V) -> bool) -> Seq<V>
    decreases s.len(),
{
    if s.len() == 0 {
        Seq::empty()
    } else {
        insert_by(sort_by_spec(s.drop_last(), lt), s.last(), lt)
    }
}

pub proof fn lemma_insert_pos<V>(s: Seq<V>, x: V, lt: spec_fn(V, V) -> bool)
    ensures
        insert_pos(s, x, lt) <= s.len(),
        forall|k: int| insert_pos(s, x, lt) <= k < s.len() ==> lt(x, #[trigger] s[k]),
        insert_pos(s, x, lt) > 0 ==> !lt(x, s[insert_pos(s, x, lt) - 1]),
    decreases s.len(),
{
    if s.len() > 0 && lt(x, s.last()) {
        lemma_insert_pos(s.drop_last(), x, lt);
        let p = insert_pos(s, x, lt);
        assert forall|k: int| p <= k < s.len() implies lt(x, #[trigger] s[k]) by {
            if k < s.len() - 1 {
                assert(s[k] == s.drop_last()[k]);
            }
        }
        if p > 0 {
            assert(s[p - 1] == s.drop_last()[p - 1]);
        }
    }
}

proof fn lemma_insert_sorted<V>(s: Seq<V>, x: V, lt: spec_fn(V, V) -> bool)
    requires
        strict_weak_order(lt),
        sorted_by(s, lt),
    ensures
        sorted_by(insert_by(s, x, lt), lt),
{
    lemma_insert_pos(s, x, lt);
    let p = insert_pos(s, x, lt) as int;
    let r = insert_by(s, x, lt);
    assert forall|i: int, j: int| 0 <= i < j < r.len() implies !lt(#[trigger] r[j], #[trigger] r[i]) by {
        if j < p {
            assert(r[i] == s[i] && r[j] == s[j]);
        } else if j == p {
            assert(r[j] == x && r[i] == s[i]);
            assert(!lt(x, s[p - 1]));
            if i < p - 1 {
                assert(!lt(s[p - 1], s[i]));
            }
        } else if i == p {
            assert(r[i] == x && r[j] == s[j - 1]);
            assert(lt(x, s[j - 1]));
            if lt(s[j - 1], x) {
                assert(lt(x, x));
            }
        } else if i < p {
            assert(r[i] == s[i] && r[j] == s[j - 1]);
        } else {
            assert(r[i] == s[i - 1] && r[j] == s[j - 1]);
        }
    }
}

/// A stable sort by a strict weak order puts its items in order and keeps
/// exactly the items it was given.
pub proof fn lemma_sort_by_sorted<V>(s: Seq<V>, lt: spec_fn(V, V) -> bool)
    requires
        strict_weak_order(lt),
    ensures
        sorted_by(sort_by_spec(s, lt), lt),
        sort_by_spec(s, lt).to_multiset() == s.to_multiset(),
    decreases s.len(),
{
    if s.len() == 0 {
        assert(s =~= Seq::<V>::empty());
    } else {
        lemma_sort_by_sorted(s.drop_last(), lt);
        let t = sort_by_spec(s.drop_last(), lt);
        lemma_insert_sorted(t, s.last(), lt);
        lemma_insert_pos(t, s.last(), lt);
        assert(s.drop_last().push(s.last()) =~= s);
        vstd::seq_lib::to_multiset_build(s.drop_last(), s.last());
    }
}

/// Byte-wise lexicographic order (the order of `str` and `String`).
pub open spec fn bytes_lt(a: Seq<u8>, b: Seq<u8>) -> bool
    decreases a.len(),
{
    if b.len() == 0 {
        false
    } else if a.len() == 0 {
        true
    } else if a[0] != b[0] {
        a[0] < b[0]
    } else {
        bytes_lt(a.drop_first(), b.drop_first())
    }
}

pub proof fn lemma_bytes_lt_irreflexive(a: Seq<u8>)
    ensures
        !bytes_lt(a, a),
    decreases a.len(),
{
    if a.len() > 0 {
        lemma_bytes_lt_irreflexive(a.drop_first());
    }
}

pub proof fn lemma_bytes_lt_transitive(a: Seq<u8>, b: Seq<u8>, c: Seq<u8>)
    requires
        bytes_lt(a, b),
        bytes_lt(b, c),
    ensures
        bytes_lt(a, c),
    decreases a.len(),
{
    if a.len() > 0 && b.len() > 0 && c.len() > 0 && a[0] == b[0] && b[0] == c[0] {
        lemma_bytes_lt_transitive(a.drop_first(), b.drop_first(), c.drop_first());
    }
}

pub proof fn lemma_bytes_lt_total(a: Seq<u8>, b: Seq<u8>)
    ensures
        a == b || bytes_lt(a, b) || bytes_lt(b, a),
    decreases a.len(),
{
    if a.len() > 0 && b.len() > 0 && a[0] == b[0] {
        lemma_bytes_lt_total(a.drop_first(), b.drop_first());
        if a.drop_first() == b.drop_first() {
            assert(a =~= seq![a[0]] + a.drop_first());
            assert(b =~= seq![b[0]] + b.drop_first());
        }
    } else if a.len() == 0 && b.len() == 0 {
        assert(a =~= b);
    }
}

pub fn bytes_less(a: &[u8], b: &[u8]) -> (r: bool)
    ensures
        r == bytes_lt(a@, b@),
{
    let mut i: usize = 0;
    assert(a@.skip(0) =~= a@ && b@.skip(0) =~= b@);
    while i < a.len() && i < b.len() && a[i] == b[i]
        invariant
            i <= a@.len(),
            i <= b@.len(),
            bytes_lt(a@, b@) == bytes_lt(a@.skip(i as int), b@.skip(i as int)),
        decreases a.len() - i,
    {
        assert(a@.skip(i as int).drop_first() =~= a@.skip(i + 1));
        assert(b@.skip(i as int).drop_first() =~= b@.skip(i + 1));
        i = i + 1;
    }
    if i == b.len() {
        false
    } else if i == a.len() {
        true
    } else {
        assert(a@.skip(i as int)[0] == a@[i as int]);
        assert(b@.skip(i as int)[0] == b@[i as int]);
        a[i] < b[i]
    }
}

pub fn bytes_equal(a: &[u8], b: &[u8]) -> (r: bool)
    ensures
        r == (a@ == b@),
{
    if a.len() != b.len() {
        return false;
    }
    let mut i: usize = 0;
    while i < a.len()
        invariant
            a@.len() == b@.len(),
            i <= a@.len(),
            forall|j: int| 0 <= j < i ==> a@[j] == b@[j],
        decreases a.len() - i,
    {
        if a[i] != b[i] {
            return false;
        }
        i = i + 1;
    }
    assert(a@ =~= b@);
    true
}

} // verus!
