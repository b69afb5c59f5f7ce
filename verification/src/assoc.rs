//! Association lists: sequences of pairs with pairwise distinct keys, and
//! the maps that they stand for.

use vstd::prelude::*;

verus! {

/// No two entries share a key.
pub open spec fn keys_distinct<K, V>(es: Seq<(K, V)>) -> bool {
    forall|i: int, j: int| 0 <= i < j < es.len() ==> (#[trigger] es[i]).0 != (#[trigger] es[j]).0
}

/// Whether some entry of `es` has key `k`.
pub open spec fn has_key<K, V>(es: Seq<(K, V)>, k: K) -> bool {
    exists|i: int| 0 <= i < es.len() && (#[trigger] es[i]).0 == k
}

/// The map that a list of entries with distinct keys stands for.
pub open spec fn entries_map<K, V>(es: Seq<(K, V)>) -> Map<K, V> {
    Map::new(
        |k: K| has_key(es, k),
        |k: K| es[choose|i: int| 0 <= i < es.len() && (#[trigger] es[i]).0 == k].1,
    )
}

/// Each entry of a list with distinct keys is a pair of the map, and the map
/// has no other pairs.
pub proof fn lemma_entries_map<K, V>(es: Seq<(K, V)>)
    requires
        keys_distinct(es),
    ensures
        forall|i: int|
            0 <= i < es.len() ==> entries_map(es).contains_key((#[trigger] es[i]).0)
                && entries_map(es)[es[i].0] == es[i].1,
        forall|k: K| #[trigger]
            entries_map(es).contains_key(k) ==> exists|i: int|
                0 <= i < es.len() && (#[trigger] es[i]).0 == k,
        entries_map(es).dom().finite(),
{
    assert forall|i: int| 0 <= i < es.len() implies entries_map(es).contains_key(
        (#[trigger] es[i]).0,
    ) && entries_map(es)[es[i].0] == es[i].1 by {
        let k = es[i].0;
        assert(has_key(es, k));
        let j = choose|j: int| 0 <= j < es.len() && (#[trigger] es[j]).0 == k;
        assert(i == j) by {
            if i < j {
                assert(es[i].0 != es[j].0);
            } else if j < i {
                assert(es[j].0 != es[i].0);
            }
        }
    }
    lemma_entries_map_finite(es);
}

/// The map of a list has finitely many keys.
proof fn lemma_entries_map_finite<K, V>(es: Seq<(K, V)>)
    ensures
        entries_map(es).dom().finite(),
    decreases es.len(),
{
    if es.len() == 0 {
        assert(entries_map(es).dom() =~= Set::<K>::empty());
    } else {
        let rest = es.drop_last();
        lemma_entries_map_finite(rest);
        assert forall|k: K| entries_map(es).dom().contains(k) <==> entries_map(rest).dom().insert(
            es.last().0,
        ).contains(k) by {
            if has_key(es, k) {
                let i = choose|i: int| 0 <= i < es.len() && (#[trigger] es[i]).0 == k;
                if i < rest.len() {
                    assert(rest[i].0 == k);
                }
            }
            if has_key(rest, k) {
                let i = choose|i: int| 0 <= i < rest.len() && (#[trigger] rest[i]).0 == k;
                assert(es[i].0 == k);
            }
            if k == es.last().0 {
                assert(es[es.len() - 1].0 == k);
            }
        }
        assert(entries_map(es).dom() =~= entries_map(rest).dom().insert(es.last().0));
    }
}

/// Two lists with distinct keys that hold the same pairs stand for the same
/// map.
proof fn lemma_same_pairs<K, V>(es: Seq<(K, V)>, target: Map<K, V>)
    requires
        keys_distinct(es),
        forall|i: int|
            0 <= i < es.len() ==> target.contains_key((#[trigger] es[i]).0) && target[es[i].0]
                == es[i].1,
        forall|k: K| #[trigger] target.contains_key(k) ==> has_key(es, k),
    ensures
        entries_map(es) == target,
{
    lemma_entries_map(es);
    assert forall|k: K| entries_map(es).contains_key(k) implies #[trigger] target.contains_key(k)
        && entries_map(es)[k] == target[k] by {
        let i = choose|i: int| 0 <= i < es.len() && (#[trigger] es[i]).0 == k;
        assert(entries_map(es)[es[i].0] == es[i].1);
    }
    assert(entries_map(es) =~= target);
}

/// Appending a pair under a new key inserts it into the map.
pub proof fn lemma_push_entry<K, V>(es: Seq<(K, V)>, k: K, v: V)
    requires
        keys_distinct(es),
        !has_key(es, k),
    ensures
        keys_distinct(es.push((k, v))),
        entries_map(es.push((k, v))) == entries_map(es).insert(k, v),
{
    let after = es.push((k, v));
    assert forall|a: int, b: int| 0 <= a < b < after.len() implies (#[trigger] after[a]).0 != (
    #[trigger] after[b]).0 by {
        if b < es.len() {
            assert(es[a].0 != es[b].0);
        } else {
            assert(es[a].0 != k);
        }
    }
    lemma_entries_map(es);
    let target = entries_map(es).insert(k, v);
    assert forall|i: int| 0 <= i < after.len() implies target.contains_key((#[trigger] after[i]).0)
        && target[after[i].0] == after[i].1 by {
        if i < es.len() {
            assert(after[i] == es[i]);
            assert(es[i].0 != k);
        }
    }
    assert forall|x: K| #[trigger] target.contains_key(x) implies has_key(after, x) by {
        if x == k {
            assert(after[es.len() as int].0 == x);
        } else {
            let i = choose|i: int| 0 <= i < es.len() && (#[trigger] es[i]).0 == x;
            assert(after[i].0 == x);
        }
    }
    lemma_same_pairs(after, target);
}

/// Replacing the value of an entry updates the map under its key.
pub proof fn lemma_update_entry<K, V>(es: Seq<(K, V)>, i: int, v: V)
    requires
        keys_distinct(es),
        0 <= i < es.len(),
    ensures
        keys_distinct(es.update(i, (es[i].0, v))),
        entries_map(es.update(i, (es[i].0, v))) == entries_map(es).insert(es[i].0, v),
{
    let k = es[i].0;
    let after = es.update(i, (k, v));
    assert forall|a: int, b: int| 0 <= a < b < after.len() implies (#[trigger] after[a]).0 != (
    #[trigger] after[b]).0 by {
        assert(es[a].0 != es[b].0);
    }
    lemma_entries_map(es);
    let target = entries_map(es).insert(k, v);
    assert forall|j: int| 0 <= j < after.len() implies target.contains_key((#[trigger] after[j]).0)
        && target[after[j].0] == after[j].1 by {
        if j != i {
            assert(after[j] == es[j]);
            if j < i {
                assert(es[j].0 != es[i].0);
            } else {
                assert(es[i].0 != es[j].0);
            }
        }
    }
    assert forall|x: K| #[trigger] target.contains_key(x) implies has_key(after, x) by {
        if x == k {
            assert(after[i].0 == x);
        } else {
            let j = choose|j: int| 0 <= j < es.len() && (#[trigger] es[j]).0 == x;
            assert(after[j].0 == x);
        }
    }
    lemma_same_pairs(after, target);
}

/// Taking an entry out removes its key from the map.
pub proof fn lemma_remove_entry<K, V>(es: Seq<(K, V)>, i: int)
    requires
        keys_distinct(es),
        0 <= i < es.len(),
    ensures
        keys_distinct(es.remove(i)),
        entries_map(es.remove(i)) == entries_map(es).remove(es[i].0),
{
    let k = es[i].0;
    let after = es.remove(i);
    assert forall|a: int, b: int| 0 <= a < b < after.len() implies (#[trigger] after[a]).0 != (
    #[trigger] after[b]).0 by {
        let a0 = if a < i {
            a
        } else {
            a + 1
        };
        let b0 = if b < i {
            b
        } else {
            b + 1
        };
        assert(after[a] == es[a0] && after[b] == es[b0]);
        assert(es[a0].0 != es[b0].0);
    }
    lemma_entries_map(es);
    let target = entries_map(es).remove(k);
    assert forall|j: int| 0 <= j < after.len() implies target.contains_key((#[trigger] after[j]).0)
        && target[after[j].0] == after[j].1 by {
        let j0 = if j < i {
            j
        } else {
            j + 1
        };
        assert(after[j] == es[j0]);
        if j0 < i {
            assert(es[j0].0 != es[i].0);
        } else {
            assert(es[i].0 != es[j0].0);
        }
    }
    assert forall|x: K| #[trigger] target.contains_key(x) implies has_key(after, x) by {
        let j = choose|j: int| 0 <= j < es.len() && (#[trigger] es[j]).0 == x;
        let j1 = if j < i {
            j
        } else {
            j - 1
        };
        assert(after[j1] == es[j]);
    }
    lemma_same_pairs(after, target);
}

} // verus!
