//! Association lists read as finite maps.
//!
//! The stores of this crate keep their records in vectors in which no two
//! records share a key; `map_of` reads such a sequence as the map from each
//! key to the record that holds it.
use vstd::prelude::*;

verus! {

/// A record identified by a key.
pub trait Keyed {
    type Key;

    spec fn key(&self) -> Self::Key;
}

/// No two records of `s` share a key.
pub open spec fn keys_unique<V: Keyed>(s: Seq<V>) -> bool {
    forall|i: int, j: int|
        0 <= i < s.len() && 0 <= j < s.len() && i != j ==> (#[trigger] s[i]).key() != (#[trigger] s[j]).key()
}

/// `s` read as a map from key to record; a later record wins over an earlier one.
pub open spec fn map_of<V: Keyed>(s: Seq<V>) -> Map<V::Key, V>
    decreases s.len(),
{
    if s.len() == 0 {
        Map::empty()
    } else {
        map_of(s.drop_last()).insert(s.last().key(), s.last())
    }
}

/// The position in `s` of a record with key `k`, if there is one.
pub open spec fn has_key<V: Keyed>(s: Seq<V>, k: V::Key) -> bool {
    exists|i: int| 0 <= i < s.len() && (#[trigger] s[i]).key() == k
}

/// The keys of `map_of(s)` are exactly the keys of the records of `s`.
pub proof fn lemma_map_of_dom<V: Keyed>(s: Seq<V>)
    ensures
        forall|k: V::Key| #[trigger] map_of(s).contains_key(k) <==> has_key(s, k),
        map_of(s).dom().finite(),
    decreases s.len(),
{
    if s.len() > 0 {
        let p = s.drop_last();
        lemma_map_of_dom(p);
        assert forall|k: V::Key| #[trigger] map_of(s).contains_key(k) <==> has_key(s, k) by {
            if map_of(s).contains_key(k) {
                if k == s.last().key() {
                    assert(s[s.len() - 1].key() == k);
                } else {
                    assert(map_of(p).contains_key(k));
                    let i = choose|i: int| 0 <= i < p.len() && (#[trigger] p[i]).key() == k;
                    assert(s[i] == p[i]);
                }
            }
            if has_key(s, k) {
                let i = choose|i: int| 0 <= i < s.len() && (#[trigger] s[i]).key() == k;
                if i < s.len() - 1 {
                    assert(p[i] == s[i]);
                    assert(has_key(p, k));
                }
            }
        }
    }
}

/// In a sequence with unique keys, the map holds each record at its key.
pub proof fn lemma_map_of_index<V: Keyed>(s: Seq<V>, i: int)
    requires
        keys_unique(s),
        0 <= i < s.len(),
    ensures
        map_of(s).contains_key(s[i].key()),
        map_of(s)[s[i].key()] == s[i],
    decreases s.len(),
{
    lemma_map_of_dom(s);
    assert(has_key(s, s[i].key()));
    if i < s.len() - 1 {
        let p = s.drop_last();
        assert(keys_unique(p)) by {
            assert forall|a: int, b: int|
                0 <= a < p.len() && 0 <= b < p.len() && a != b implies (#[trigger] p[a]).key() != (#[trigger] p[b]).key() by {
                assert(p[a] == s[a] && p[b] == s[b]);
            }
        }
        assert(p[i] == s[i]);
        lemma_map_of_index(p, i);
        assert(s[i].key() != s[s.len() - 1].key());
    }
}

/// A sequence with unique keys, read as a map, agrees with `m` exactly when
/// both have the same keys and each record sits at its own key in `m`.
pub proof fn lemma_map_of_char<V: Keyed>(s: Seq<V>, m: Map<V::Key, V>)
    requires
        keys_unique(s),
        forall|k: V::Key| #[trigger] m.contains_key(k) <==> has_key(s, k),
        forall|i: int| 0 <= i < s.len() ==> m[(#[trigger] s[i]).key()] == s[i],
    ensures
        map_of(s) == m,
{
    lemma_map_of_dom(s);
    assert forall|k: V::Key| #[trigger] map_of(s).contains_key(k) implies map_of(s)[k] == m[k] by {
        let i = choose|i: int| 0 <= i < s.len() && (#[trigger] s[i]).key() == k;
        lemma_map_of_index(s, i);
    }
    assert(map_of(s) =~= m);
}

/// Appending a record with a new key inserts it.
pub proof fn lemma_map_of_push<V: Keyed>(s: Seq<V>, v: V)
    requires
        keys_unique(s),
        !has_key(s, v.key()),
    ensures
        keys_unique(s.push(v)),
        map_of(s.push(v)) == map_of(s).insert(v.key(), v),
{
    let t = s.push(v);
    assert(t.drop_last() =~= s);
    assert forall|i: int, j: int|
        0 <= i < t.len() && 0 <= j < t.len() && i != j implies (#[trigger] t[i]).key() != (#[trigger] t[j]).key() by {
        if i < s.len() && j < s.len() {
            assert(t[i] == s[i] && t[j] == s[j]);
        } else if i < s.len() {
            assert(t[i] == s[i]);
        } else {
            assert(t[j] == s[j]);
        }
    }
}

/// Replacing a record by one with the same key overwrites the map at that key.
pub proof fn lemma_map_of_update<V: Keyed>(s: Seq<V>, i: int, v: V)
    requires
        keys_unique(s),
        0 <= i < s.len(),
        v.key() == s[i].key(),
    ensures
        keys_unique(s.update(i, v)),
        map_of(s.update(i, v)) == map_of(s).insert(v.key(), v),
{
    let t = s.update(i, v);
    assert forall|a: int, b: int|
        0 <= a < t.len() && 0 <= b < t.len() && a != b implies (#[trigger] t[a]).key() != (#[trigger] t[b]).key() by {
        assert(t[a].key() == s[a].key());
        assert(t[b].key() == s[b].key());
    }
    let m = map_of(s).insert(v.key(), v);
    lemma_map_of_dom(s);
    assert forall|k: V::Key| #[trigger] m.contains_key(k) <==> has_key(t, k) by {
        if has_key(s, k) {
            let j = choose|j: int| 0 <= j < s.len() && (#[trigger] s[j]).key() == k;
            assert(t[j].key() == k);
        }
        if has_key(t, k) {
            let j = choose|j: int| 0 <= j < t.len() && (#[trigger] t[j]).key() == k;
            assert(s[j].key() == k);
        }
    }
    assert forall|j: int| 0 <= j < t.len() implies m[(#[trigger] t[j]).key()] == t[j] by {
        if j != i {
            lemma_map_of_index(s, j);
        }
    }
    lemma_map_of_char(t, m);
}

/// Removing the record at position `i` removes its key.
pub proof fn lemma_map_of_remove<V: Keyed>(s: Seq<V>, i: int)
    requires
        keys_unique(s),
        0 <= i < s.len(),
    ensures
        keys_unique(s.remove(i)),
        map_of(s.remove(i)) == map_of(s).remove(s[i].key()),
{
    let t = s.remove(i);
    assert forall|a: int, b: int|
        0 <= a < t.len() && 0 <= b < t.len() && a != b implies (#[trigger] t[a]).key() != (#[trigger] t[b]).key() by {
        let a2 = if a < i { a } else { a + 1 };
        let b2 = if b < i { b } else { b + 1 };
        assert(t[a] == s[a2] && t[b] == s[b2]);
    }
    let m = map_of(s).remove(s[i].key());
    lemma_map_of_dom(s);
    assert forall|k: V::Key| #[trigger] m.contains_key(k) <==> has_key(t, k) by {
        if m.contains_key(k) {
            let j = choose|j: int| 0 <= j < s.len() && (#[trigger] s[j]).key() == k;
            assert(j != i);
            let j2 = if j < i { j } else { j - 1 };
            assert(t[j2] == s[j]);
        }
        if has_key(t, k) {
            let j = choose|j: int| 0 <= j < t.len() && (#[trigger] t[j]).key() == k;
            let j2 = if j < i { j } else { j + 1 };
            assert(t[j] == s[j2]);
            assert(s[j2].key() != s[i].key());
            assert(has_key(s, k));
        }
    }
    assert forall|j: int| 0 <= j < t.len() implies m[(#[trigger] t[j]).key()] == t[j] by {
        let j2 = if j < i { j } else { j + 1 };
        assert(t[j] == s[j2]);
        lemma_map_of_index(s, j2);
    }
    lemma_map_of_char(t, m);
}

/// A key that no record holds is not in the map.
pub proof fn lemma_map_of_absent<V: Keyed>(s: Seq<V>, k: V::Key)
    requires
        forall|i: int| 0 <= i < s.len() ==> (#[trigger] s[i]).key() != k,
    ensures
        !map_of(s).contains_key(k),
{
    lemma_map_of_dom(s);
}

/// Rewriting every record by a function that keeps its key rewrites the map.
pub proof fn lemma_map_of_map_values<V: Keyed, W: Keyed<Key = V::Key>>(s: Seq<V>, f: spec_fn(V) -> W)
    requires
        forall|v: V| #[trigger] f(v).key() == v.key(),
    ensures
        map_of(s.map_values(f)) == map_of(s).map_values(f),
        keys_unique(s) ==> keys_unique(s.map_values(f)),
    decreases s.len(),
{
    let t = s.map_values(f);
    if s.len() > 0 {
        lemma_map_of_map_values(s.drop_last(), f);
        assert(t.drop_last() =~= s.drop_last().map_values(f));
        assert(f(s.last()).key() == s.last().key());
        assert(map_of(t) =~= map_of(s).map_values(f));
    } else {
        assert(map_of(t) =~= map_of(s).map_values(f));
    }
    if keys_unique(s) {
        assert forall|i: int, j: int|
            0 <= i < t.len() && 0 <= j < t.len() && i != j implies (#[trigger] t[i]).key() != (#[trigger] t[j]).key() by {
            assert(f(s[i]).key() == s[i].key());
            assert(f(s[j]).key() == s[j].key());
        }
    }
}

/// Every record in the map sits at its own key.
pub proof fn lemma_map_of_keys<V: Keyed>(s: Seq<V>)
    ensures
        forall|k: V::Key| #[trigger] map_of(s).contains_key(k) ==> map_of(s)[k].key() == k,
    decreases s.len(),
{
    if s.len() > 0 {
        lemma_map_of_keys(s.drop_last());
        assert forall|k: V::Key| #[trigger] map_of(s).contains_key(k) implies map_of(s)[k].key() == k by {
            if k != s.last().key() {
                assert(map_of(s.drop_last()).contains_key(k));
            }
        }
    }
}

} // verus!
