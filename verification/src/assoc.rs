//! Small string-keyed tables kept as vectors of pairs.
//!
//! A table is read from its newest matching pair, so its meaning is that of a
//! map in which a later pair shadows an earlier one with the same key. The
//! operations here keep at most one pair per key in practice, but the
//! specifications do not rely on it.
use vstd::prelude::*;
use crate::text::str_eq;

verus! {

/// The value bound to `key`: that of the last pair whose key is `key`.
pub open spec fn lookup<V>(s: Seq<(String, V)>, key: Seq<char>) -> Option<V>
    decreases s.len(),
{
    if s.len() == 0 {
        None
    } else if s.last().0@ == key {
        Some(s.last().1)
    } else {
        lookup(s.drop_last(), key)
    }
}

pub proof fn lemma_lookup_absent<V>(s: Seq<(String, V)>, key: Seq<char>)
    requires
        forall|j: int| 0 <= j < s.len() ==> (#[trigger] s[j]).0@ != key,
    ensures
        lookup(s, key) is None,
    decreases s.len(),
{
    if s.len() > 0 {
        assert(s[s.len() - 1] == s.last());
        lemma_lookup_absent(s.drop_last(), key);
    }
}

pub proof fn lemma_lookup_at<V>(s: Seq<(String, V)>, i: int, key: Seq<char>)
    requires
        0 <= i < s.len(),
        s[i].0@ == key,
        forall|j: int| i < j < s.len() ==> (#[trigger] s[j]).0@ != key,
    ensures
        lookup(s, key) == Some(s[i].1),
    decreases s.len(),
{
    if i < s.len() - 1 {
        assert(s[s.len() - 1] == s.last());
        lemma_lookup_at(s.drop_last(), i, key);
    }
}

/// A key that occurs somewhere has a binding.
pub proof fn lemma_lookup_at_last_exists<V>(s: Seq<(String, V)>, j: int, key: Seq<char>)
    requires
        0 <= j < s.len(),
        s[j].0@ == key,
    ensures
        lookup(s, key) is Some,
    decreases s.len(),
{
    assert(s[s.len() - 1] == s.last());
    if s.last().0@ != key {
        lemma_lookup_at_last_exists(s.drop_last(), j, key);
    }
}

/// Rebinding the last pair of `key` changes only what `key` reads.
pub proof fn lemma_lookup_update<V>(s: Seq<(String, V)>, i: int, v: V, q: Seq<char>)
    requires
        0 <= i < s.len(),
        forall|j: int| i < j < s.len() ==> (#[trigger] s[j]).0@ != s[i].0@,
    ensures
        lookup(s.update(i, (s[i].0, v)), q) == if q == s[i].0@ {
            Some(v)
        } else {
            lookup(s, q)
        },
    decreases s.len(),
{
    let t = s.update(i, (s[i].0, v));
    if i == s.len() - 1 {
        assert(t.drop_last() =~= s.drop_last());
    } else {
        assert(t.drop_last() =~= s.drop_last().update(i, (s[i].0, v)));
        assert(s[s.len() - 1] == s.last());
        lemma_lookup_update(s.drop_last(), i, v, q);
    }
}

/// Index of the last pair whose key is `key`.
pub fn find_last<V>(v: &Vec<(String, V)>, key: &str) -> (r: Option<usize>)
    ensures
        match r {
            Some(i) => {
                &&& i < v@.len()
                &&& v@[i as int].0@ == key@
                &&& forall|j: int| i < j < v@.len() ==> (#[trigger] v@[j]).0@ != key@
                &&& lookup(v@, key@) == Some(v@[i as int].1)
            },
            None => lookup(v@, key@) is None,
        },
{
    let mut i = v.len();
    while i > 0
        invariant
            i <= v@.len(),
            forall|j: int| i <= j < v@.len() ==> (#[trigger] v@[j]).0@ != key@,
        decreases i,
    {
        i = i - 1;
        if str_eq(v[i].0.as_str(), key) {
            proof {
                lemma_lookup_at(v@, i as int, key@);
            }
            return Some(i);
        }
    }
    proof {
        lemma_lookup_absent(v@, key@);
    }
    None
}

/// Binds `key` to `value`, replacing its current binding if it has one.
pub fn upsert<V>(v: &mut Vec<(String, V)>, key: &str, value: V)
    requires
        keys_distinct(old(v)@),
    ensures
        keys_distinct(final(v)@),
        forall|q: Seq<char>| #[trigger]
            lookup(final(v)@, q) == if q == key@ {
                Some(value)
            } else {
                lookup(old(v)@, q)
            },
        final(v)@.len() <= old(v)@.len() + 1,
{
    match find_last(v, key) {
        Some(i) => {
            let ghost before = v@;
            let ghost name = v@[i as int].0;
            let owned = key.to_owned();
            v.set(i, (owned, value));
            proof {
                assert forall|a: int, b: int| 0 <= a < b < v@.len() implies
                    (#[trigger] v@[a]).0@ != (#[trigger] v@[b]).0@ by {
                    assert(v@[a].0@ == before[a].0@);
                    assert(v@[b].0@ == before[b].0@);
                }
                assert forall|q: Seq<char>| #[trigger]
                    lookup(v@, q) == if q == key@ {
                        Some(value)
                    } else {
                        lookup(before, q)
                    } by {
                    lemma_lookup_update(before, i as int, value, q);
                    assert(v@ =~= before.update(i as int, (v@[i as int].0, value)));
                    lemma_lookup_update_key(before, i as int, v@[i as int].0, value, q);
                }
            }
        },
        None => {
            let owned = key.to_owned();
            let ghost before = v@;
            v.push((owned, value));
            proof {
                assert(v@.drop_last() =~= before);
                assert(v@.last().0@ == key@);
                assert forall|j: int| 0 <= j < before.len() implies (#[trigger] before[j]).0@
                    != key@ by {
                    if before[j].0@ == key@ {
                        lemma_lookup_at_last_exists(before, j, key@);
                    }
                }
                assert forall|a: int, b: int| 0 <= a < b < v@.len() implies
                    (#[trigger] v@[a]).0@ != (#[trigger] v@[b]).0@ by {
                    if b == before.len() {
                        assert(v@[a] == before[a]);
                    } else {
                        assert(v@[a] == before[a]);
                        assert(v@[b] == before[b]);
                    }
                }
            }
        },
    }
}

/// Rebinding the last pair of a key under an equal key string.
proof fn lemma_lookup_update_key<V>(s: Seq<(String, V)>, i: int, k: String, v: V, q: Seq<char>)
    requires
        0 <= i < s.len(),
        k@ == s[i].0@,
        forall|j: int| i < j < s.len() ==> (#[trigger] s[j]).0@ != s[i].0@,
    ensures
        lookup(s.update(i, (k, v)), q) == if q == s[i].0@ {
            Some(v)
        } else {
            lookup(s, q)
        },
    decreases s.len(),
{
    let t = s.update(i, (k, v));
    if i == s.len() - 1 {
        assert(t.drop_last() =~= s.drop_last());
    } else {
        assert(t.drop_last() =~= s.drop_last().update(i, (k, v)));
        assert(s[s.len() - 1] == s.last());
        lemma_lookup_update_key(s.drop_last(), i, k, v, q);
    }
}

/// In a list with distinct keys, a present key finds its own pair.
pub proof fn lemma_lookup_present<V>(s: Seq<(String, V)>, k: int, key: Seq<char>)
    requires
        keys_distinct(s),
        0 <= k < s.len(),
        s[k].0@ == key,
    ensures
        lookup(s, key) == Some(s[k].1),
    decreases s.len(),
{
    if k != s.len() - 1 {
        assert(s.last() == s[s.len() - 1]);
        assert(keys_distinct(s.drop_last())) by {
            assert forall|a: int, b: int| 0 <= a < b < s.drop_last().len() implies
                (#[trigger] s.drop_last()[a]).0@ != (#[trigger] s.drop_last()[b]).0@ by {
                assert(s.drop_last()[a] == s[a]);
                assert(s.drop_last()[b] == s[b]);
            }
        }
        assert(s.drop_last()[k] == s[k]);
        lemma_lookup_present(s.drop_last(), k, key);
    }
}

/// Removing a pair keeps the keys distinct.
pub proof fn lemma_keys_distinct_remove<V>(s: Seq<(String, V)>, i: int)
    requires
        keys_distinct(s),
        0 <= i < s.len(),
    ensures
        keys_distinct(s.remove(i)),
{
    let t = s.remove(i);
    assert forall|a: int, b: int| 0 <= a < b < t.len() implies (#[trigger] t[a]).0@ != (#[trigger] t[b]).0@ by {
        if a < i {
            if b >= i {
                assert(t[b] == s[b + 1]);
            }
        } else {
            assert(t[a] == s[a + 1]);
            assert(t[b] == s[b + 1]);
        }
    }
}

/// No two pairs share a key.
pub open spec fn keys_distinct<V>(s: Seq<(String, V)>) -> bool {
    forall|i: int, j: int| 0 <= i < j < s.len() ==> (#[trigger] s[i]).0@ != (#[trigger] s[j]).0@
}

pub(crate) proof fn lemma_lookup_remove<V>(s: Seq<(String, V)>, i: int, q: Seq<char>)
    requires
        0 <= i < s.len(),
        keys_distinct(s),
    ensures
        lookup(s.remove(i), q) == if q == s[i].0@ {
            None
        } else {
            lookup(s, q)
        },
    decreases s.len(),
{
    let t = s.remove(i);
    if i == s.len() - 1 {
        assert(t =~= s.drop_last());
        if q == s[i].0@ {
            assert forall|j: int| 0 <= j < t.len() implies (#[trigger] t[j]).0@ != q by {
                assert(t[j] == s[j]);
            }
            lemma_lookup_absent(t, q);
        }
    } else {
        assert(t.drop_last() =~= s.drop_last().remove(i));
        assert(t.last() == s.last());
        assert(s[s.len() - 1] == s.last());
        assert(keys_distinct(s.drop_last())) by {
            assert forall|a: int, b: int| 0 <= a < b < s.drop_last().len() implies
                (#[trigger] s.drop_last()[a]).0@ != (#[trigger] s.drop_last()[b]).0@ by {
                assert(s.drop_last()[a] == s[a]);
                assert(s.drop_last()[b] == s[b]);
            }
        }
        lemma_lookup_remove(s.drop_last(), i, q);
    }
}

/// Removes the binding of `key`.
pub fn remove_key<V>(v: &mut Vec<(String, V)>, key: &str)
    requires
        keys_distinct(old(v)@),
    ensures
        keys_distinct(final(v)@),
        forall|q: Seq<char>| #[trigger]
            lookup(final(v)@, q) == if q == key@ {
                None
            } else {
                lookup(old(v)@, q)
            },
        final(v)@.len() <= old(v)@.len(),
{
    match find_last(v, key) {
        Some(i) => {
            let ghost before = v@;
            v.remove(i);
            proof {
                assert(v@ =~= before.remove(i as int));
                assert forall|q: Seq<char>| #[trigger]
                    lookup(v@, q) == if q == key@ {
                        None
                    } else {
                        lookup(before, q)
                    } by {
                    lemma_lookup_remove(before, i as int, q);
                }
                assert forall|a: int, b: int| 0 <= a < b < v@.len() implies
                    (#[trigger] v@[a]).0@ != (#[trigger] v@[b]).0@ by {
                    if a < i {
                        if b < i {
                        } else {
                            assert(v@[b] == before[b + 1]);
                        }
                    } else {
                        assert(v@[a] == before[a + 1]);
                        assert(v@[b] == before[b + 1]);
                    }
                }
            }
        },
        None => {},
    }
}

} // verus!
