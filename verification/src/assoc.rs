//! Association lists: a sequence of key and value pairs read as a finite map.
//!
//! The stores of this library keep their entries in vectors. The functions
//! here say which map such a sequence stands for, and the lemmas say how
//! pushing, replacing and removing an entry changes that map.

use vstd::prelude::*;

verus! {

/// No key occurs at two positions.
pub open spec fn distinct_keys<K, V>(s: Seq<(K, V)>) -> bool {
    forall|i: int, j: int| 0 <= i < j < s.len() ==> s[i].0 != s[j].0
}

/// Some position holds the key.
pub open spec fn has_key<K, V>(s: Seq<(K, V)>, k: K) -> bool {
    exists|i: int| 0 <= i < s.len() && s[i].0 == k
}

/// The map that the sequence stands for: later entries win over earlier ones.
pub open spec fn to_map<K, V>(s: Seq<(K, V)>) -> Map<K, V>
    decreases s.len(),
{
    if s.len() == 0 {
        Map::empty()
    } else {
        to_map(s.drop_last()).insert(s.last().0, s.last().1)
    }
}

/// The map's keys are the keys that occur in the sequence.
pub proof fn lemma_to_map_domain<K, V>(s: Seq<(K, V)>, k: K)
    ensures
        to_map(s).contains_key(k) <==> has_key(s, k),
    decreases s.len(),
{
    if s.len() > 0 {
        let front = s.drop_last();
        lemma_to_map_domain(front, k);
        if has_key(front, k) {
            let i = choose|i: int| 0 <= i < front.len() && front[i].0 == k;
            assert(s[i].0 == k);
        }
        if s.last().0 == k {
            assert(s[s.len() - 1].0 == k);
        }
        if has_key(s, k) {
            let i = choose|i: int| 0 <= i < s.len() && s[i].0 == k;
            if i < s.len() - 1 {
                assert(front[i].0 == k);
            }
        }
    }
}

/// With distinct keys, each entry's value is the map's value at its key.
pub proof fn lemma_to_map_entry<K, V>(s: Seq<(K, V)>, i: int)
    requires
        distinct_keys(s),
        0 <= i < s.len(),
    ensures
        to_map(s).contains_key(s[i].0),
        to_map(s)[s[i].0] == s[i].1,
    decreases s.len(),
{
    let front = s.drop_last();
    if i < s.len() - 1 {
        assert(distinct_keys(front)) by {
            assert forall|a: int, b: int| 0 <= a < b < front.len() implies front[a].0
                != front[b].0 by {
                assert(s[a].0 != s[b].0);
            }
        }
        lemma_to_map_entry(front, i);
        assert(s[i].0 != s[s.len() - 1].0);
    }
}

/// A key that occurs nowhere is absent from the map.
pub proof fn lemma_to_map_absent<K, V>(s: Seq<(K, V)>, k: K)
    requires
        forall|i: int| 0 <= i < s.len() ==> s[i].0 != k,
    ensures
        !to_map(s).contains_key(k),
{
    lemma_to_map_domain(s, k);
}

/// Pushing an entry inserts it into the map.
pub proof fn lemma_to_map_push<K, V>(s: Seq<(K, V)>, k: K, v: V)
    ensures
        to_map(s.push((k, v))) == to_map(s).insert(k, v),
{
    assert(s.push((k, v)).drop_last() =~= s);
}

/// With distinct keys, replacing the value at a position replaces the map's
/// value at that position's key, and the keys stay distinct.
pub proof fn lemma_to_map_update<K, V>(s: Seq<(K, V)>, i: int, v: V)
    requires
        distinct_keys(s),
        0 <= i < s.len(),
    ensures
        distinct_keys(s.update(i, (s[i].0, v))),
        to_map(s.update(i, (s[i].0, v))) == to_map(s).insert(s[i].0, v),
    decreases s.len(),
{
    let t = s.update(i, (s[i].0, v));
    assert(distinct_keys(t)) by {
        assert forall|a: int, b: int| 0 <= a < b < t.len() implies t[a].0 != t[b].0 by {
            assert(s[a].0 != s[b].0);
        }
    }
    let front = s.drop_last();
    if i == s.len() - 1 {
        assert(t.drop_last() =~= front);
        assert(to_map(t) =~= to_map(s).insert(s[i].0, v));
    } else {
        assert(distinct_keys(front)) by {
            assert forall|a: int, b: int| 0 <= a < b < front.len() implies front[a].0
                != front[b].0 by {
                assert(s[a].0 != s[b].0);
            }
        }
        lemma_to_map_update(front, i, v);
        assert(t.drop_last() =~= front.update(i, (s[i].0, v)));
        assert(s[i].0 != s[s.len() - 1].0);
        assert(to_map(t) =~= to_map(s).insert(s[i].0, v));
    }
}

/// With distinct keys, removing a position removes its key from the map, and
/// the keys stay distinct.
pub proof fn lemma_to_map_remove<K, V>(s: Seq<(K, V)>, i: int)
    requires
        distinct_keys(s),
        0 <= i < s.len(),
    ensures
        distinct_keys(s.remove(i)),
        to_map(s.remove(i)) == to_map(s).remove(s[i].0),
    decreases s.len(),
{
    let t = s.remove(i);
    assert(distinct_keys(t)) by {
        assert forall|a: int, b: int| 0 <= a < b < t.len() implies t[a].0 != t[b].0 by {
            let a0 = if a < i { a } else { a + 1 };
            let b0 = if b < i { b } else { b + 1 };
            assert(s[a0].0 != s[b0].0);
        }
    }
    let front = s.drop_last();
    assert(distinct_keys(front)) by {
        assert forall|a: int, b: int| 0 <= a < b < front.len() implies front[a].0
            != front[b].0 by {
            assert(s[a].0 != s[b].0);
        }
    }
    if i == s.len() - 1 {
        assert(t =~= front);
        assert forall|j: int| 0 <= j < front.len() implies front[j].0 != s[i].0 by {
            assert(s[j].0 != s[i].0);
        }
        lemma_to_map_absent(front, s[i].0);
        assert(to_map(t) =~= to_map(s).remove(s[i].0));
    } else {
        lemma_to_map_remove(front, i);
        assert(t.drop_last() =~= front.remove(i));
        assert(t.last() == s.last());
        assert(s[i].0 != s[s.len() - 1].0);
        assert(to_map(t) =~= to_map(s).remove(s[i].0));
    }
}

} // verus!
