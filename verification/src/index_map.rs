//! The insertion-ordered map of the `indexmap` crate, as seen by Verus.

use indexmap::IndexMap;
use vstd::prelude::*;

verus! {

/// `indexmap::IndexMap`, declared so that it can stand in fields and
/// signatures; its contents are reached through the named views and wrappers
/// of the modules that use it.
#[verifier::external_type_specification]
#[verifier::external_body]
#[verifier::reject_recursive_types(K)]
#[verifier::reject_recursive_types(V)]
#[verifier::reject_recursive_types(S)]
pub struct ExIndexMap<K, V, S>(IndexMap<K, V, S>);

/// Position of the entry with key `k` in an entry list, or -1.
pub open spec fn key_position<V>(e: Seq<(Seq<char>, V)>, k: Seq<char>) -> int
    decreases e.len(),
{
    if e.len() == 0 {
        -1
    } else if e.last().0 == k {
        e.len() - 1
    } else {
        key_position(e.drop_last(), k)
    }
}

/// No key occurs twice in the entry list.
pub open spec fn keys_unique<V>(e: Seq<(Seq<char>, V)>) -> bool {
    forall|i: int, j: int| 0 <= i < j < e.len() ==> #[trigger] e[i].0 != #[trigger] e[j].0
}

/// The value stored under `k`, if any.
pub open spec fn entry_lookup<V>(e: Seq<(Seq<char>, V)>, k: Seq<char>) -> Option<V> {
    let p = key_position(e, k);
    if p >= 0 {
        Some(e[p].1)
    } else {
        None
    }
}

/// `IndexMap::insert` on an entry list: an existing key keeps its place and
/// gets the new value; a new key is appended last.
pub open spec fn entries_insert<V>(e: Seq<(Seq<char>, V)>, k: Seq<char>, v: V) -> Seq<(Seq<char>, V)> {
    let p = key_position(e, k);
    if p >= 0 {
        e.update(p, (k, v))
    } else {
        e.push((k, v))
    }
}

/// `IndexMap::shift_remove` on an entry list: the entry is removed and the
/// later entries keep their relative order.
pub open spec fn entries_remove<V>(e: Seq<(Seq<char>, V)>, k: Seq<char>) -> Seq<(Seq<char>, V)> {
    let p = key_position(e, k);
    if p >= 0 {
        e.remove(p)
    } else {
        e
    }
}

pub proof fn lemma_key_position<V>(e: Seq<(Seq<char>, V)>, k: Seq<char>)
    ensures
        -1 <= key_position(e, k) < e.len(),
        key_position(e, k) >= 0 ==> e[key_position(e, k)].0 == k,
        key_position(e, k) < 0 ==> forall|i: int| 0 <= i < e.len() ==> #[trigger] e[i].0 != k,
    decreases e.len(),
{
    if e.len() > 0 {
        lemma_key_position(e.drop_last(), k);
        if e.last().0 != k {
            assert forall|i: int| 0 <= i < e.len() - 1 implies #[trigger] e[i] == e.drop_last()[i] by {}
        }
    }
}

/// Changing the value at a key's position leaves the key's position alone.
pub proof fn lemma_key_position_update<V>(e: Seq<(Seq<char>, V)>, p: int, k: Seq<char>, v: V)
    requires
        0 <= p < e.len(),
        key_position(e, k) == p,
    ensures
        key_position(e.update(p, (k, v)), k) == p,
    decreases e.len(),
{
    lemma_key_position(e, k);
    let e2 = e.update(p, (k, v));
    if p < e.len() - 1 {
        assert(e.last().0 != k);
        assert(e2.last() == e.last());
        assert(e2.drop_last() =~= e.drop_last().update(p, (k, v)));
        lemma_key_position_update(e.drop_last(), p, k, v);
    }
}

/// Two entry lists with the same keys at the same places find every key at
/// the same place.
proof fn lemma_key_position_same_keys<V>(a: Seq<(Seq<char>, V)>, b: Seq<(Seq<char>, V)>, k: Seq<char>)
    requires
        a.len() == b.len(),
        forall|i: int| 0 <= i < a.len() ==> #[trigger] a[i].0 == b[i].0,
    ensures
        key_position(a, k) == key_position(b, k),
    decreases a.len(),
{
    if a.len() > 0 {
        assert(a.last().0 == b.last().0);
        assert forall|i: int| 0 <= i < a.drop_last().len() implies #[trigger] a.drop_last()[i].0 == b.drop_last()[i].0 by {
            assert(a[i].0 == b[i].0);
        }
        lemma_key_position_same_keys(a.drop_last(), b.drop_last(), k);
    }
}

/// With distinct keys, the key at position `i` is found there.
proof fn lemma_key_position_unique<V>(e: Seq<(Seq<char>, V)>, i: int)
    requires
        keys_unique(e),
        0 <= i < e.len(),
    ensures
        key_position(e, e[i].0) == i,
{
    lemma_key_position(e, e[i].0);
    let q = key_position(e, e[i].0);
    if q != i {
        assert(e[q].0 == e[i].0);
        if q < i {
            assert(e[q].0 != e[i].0);
        } else {
            assert(e[i].0 != e[q].0);
        }
    }
}

/// Reading the key just inserted gives the inserted value; every other key
/// reads as before. (The read of a write, for `IndexMap::insert`.)
pub proof fn lemma_lookup_after_insert<V>(e: Seq<(Seq<char>, V)>, k: Seq<char>, v: V, k2: Seq<char>)
    ensures
        entry_lookup(entries_insert(e, k, v), k) == Some(v),
        k2 != k ==> entry_lookup(entries_insert(e, k, v), k2) == entry_lookup(e, k2),
        keys_unique(e) ==> keys_unique(entries_insert(e, k, v)),
{
    lemma_key_position(e, k);
    lemma_key_position(e, k2);
    let p = key_position(e, k);
    let e2 = entries_insert(e, k, v);
    if p >= 0 {
        lemma_key_position_update(e, p, k, v);
        assert forall|i: int| 0 <= i < e.len() implies #[trigger] e[i].0 == e2[i].0 by {}
        lemma_key_position_same_keys(e, e2, k2);
        if k2 != k && key_position(e, k2) >= 0 {
            assert(key_position(e, k2) != p);
        }
    } else {
        assert(e2.drop_last() =~= e);
        if keys_unique(e) {
            assert forall|i: int, j: int| 0 <= i < j < e2.len() implies #[trigger] e2[i].0 != #[trigger] e2[j].0 by {
                if j == e.len() {
                    assert(e[i].0 != k);
                } else {
                    assert(e[i].0 != e[j].0);
                }
            }
        }
    }
}

/// With distinct keys, a removed key is no longer found, and every other
/// key reads as before. (The read of a write, for `IndexMap::shift_remove`.)
pub proof fn lemma_lookup_after_remove<V>(e: Seq<(Seq<char>, V)>, k: Seq<char>, k2: Seq<char>)
    requires
        keys_unique(e),
    ensures
        entry_lookup(entries_remove(e, k), k) is None,
        k2 != k ==> entry_lookup(entries_remove(e, k), k2) == entry_lookup(e, k2),
        keys_unique(entries_remove(e, k)),
{
    lemma_key_position(e, k);
    lemma_key_position(e, k2);
    let p = key_position(e, k);
    let e3 = entries_remove(e, k);
    if p >= 0 {
        // Each entry of e3 is an entry of e other than the one at p.
        assert forall|i: int| 0 <= i < e3.len() implies #[trigger] e3[i] == (if i < p { e[i] } else { e[i + 1] }) by {}
        assert forall|i: int, j: int| 0 <= i < j < e3.len() implies #[trigger] e3[i].0 != #[trigger] e3[j].0 by {
            let a = if i < p { i } else { i + 1 };
            let b = if j < p { j } else { j + 1 };
            assert(e3[i] == e[a] && e3[j] == e[b] && a < b);
        }
        lemma_key_position(e3, k);
        let q = key_position(e3, k);
        if q >= 0 {
            let a = if q < p { q } else { q + 1 };
            assert(e3[q] == e[a]);
            lemma_key_position_unique(e, a);
            assert(false);
        }
        if k2 != k {
            lemma_key_position(e3, k2);
            let q2 = key_position(e3, k2);
            let j = key_position(e, k2);
            if j >= 0 {
                assert(j != p);
                let jj = if j < p { j } else { j - 1 };
                assert(e3[jj] == e[j]);
                lemma_key_position_unique(e3, jj);
            } else if q2 >= 0 {
                let a = if q2 < p { q2 } else { q2 + 1 };
                assert(e3[q2] == e[a]);
                assert(e[a].0 != k2);
            }
        }
    }
}

} // verus!
