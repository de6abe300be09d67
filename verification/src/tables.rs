//! Association tables: the storage engine behind every ledger.
//!
//! Each persisted table is a vector of key/value pairs with pairwise
//! distinct keys. Its logical content is the finite map [`assoc_map_of`],
//! and every operation on a table is specified against that map. The
//! lemmas here translate between positions in the vector and keys of the
//! map, so that the ledger operations can state their contracts purely
//! over maps.

use vstd::map::*;
use vstd::prelude::*;

verus! {

/// The map a key/value sequence denotes: a later entry for a key shadows
/// an earlier one, though well-formed tables never hold two entries for
/// one key.
pub open spec fn assoc_map_of<K, V>(s: Seq<(K, V)>) -> Map<K, V>
    decreases s.len(),
{
    if s.len() == 0 {
        Map::empty()
    } else {
        assoc_map_of(s.drop_last()).insert(s.last().0, s.last().1)
    }
}

/// No two entries share a key.
pub open spec fn keys_unique<K, V>(s: Seq<(K, V)>) -> bool {
    forall|i: int, j: int| 0 <= i < j < s.len() ==> (#[trigger] s[i]).0 != (#[trigger] s[j]).0
}

/// A key is in the map exactly when some entry carries it.
pub proof fn lemma_assoc_contains<K, V>(s: Seq<(K, V)>, k: K)
    ensures
        assoc_map_of(s).contains_key(k) <==> exists|i: int|
            0 <= i < s.len() && (#[trigger] s[i]).0 == k,
    decreases s.len(),
{
    if s.len() > 0 {
        lemma_assoc_contains(s.drop_last(), k);
        if s.last().0 == k {
            assert(s[s.len() - 1].0 == k);
        } else {
            if exists|i: int| 0 <= i < s.len() && (#[trigger] s[i]).0 == k {
                let i = choose|i: int| 0 <= i < s.len() && (#[trigger] s[i]).0 == k;
                assert(s.drop_last()[i] == s[i]);
            }
            if exists|i: int| 0 <= i < s.drop_last().len() && (#[trigger] s.drop_last()[i]).0
                == k {
                let i = choose|i: int|
                    0 <= i < s.drop_last().len() && (#[trigger] s.drop_last()[i]).0 == k;
                assert(s[i].0 == k);
            }
        }
    }
}

/// In a well-formed table the map sends each entry's key to its value.
pub proof fn lemma_assoc_value<K, V>(s: Seq<(K, V)>, i: int)
    requires
        keys_unique(s),
        0 <= i < s.len(),
    ensures
        assoc_map_of(s).contains_key(s[i].0),
        assoc_map_of(s)[s[i].0] == s[i].1,
    decreases s.len(),
{
    if i == s.len() - 1 {
    } else {
        assert(keys_unique(s.drop_last())) by {
            assert forall|x: int, y: int| 0 <= x < y < s.drop_last().len() implies (
            #[trigger] s.drop_last()[x]).0 != (#[trigger] s.drop_last()[y]).0 by {
                assert(s.drop_last()[x] == s[x]);
                assert(s.drop_last()[y] == s[y]);
            }
        }
        assert(s.drop_last()[i] == s[i]);
        lemma_assoc_value(s.drop_last(), i);
        assert(s[i].0 != s.last().0);
    }
}

/// Appending an entry under a fresh key inserts it into the map.
pub proof fn lemma_assoc_push<K, V>(s: Seq<(K, V)>, e: (K, V))
    requires
        keys_unique(s),
        forall|i: int| 0 <= i < s.len() ==> (#[trigger] s[i]).0 != e.0,
    ensures
        keys_unique(s.push(e)),
        assoc_map_of(s.push(e)) == assoc_map_of(s).insert(e.0, e.1),
{
    let t = s.push(e);
    assert(t.drop_last() =~= s);
    assert(t.last() == e);
    assert forall|x: int, y: int| 0 <= x < y < t.len() implies (#[trigger] t[x]).0 != (
    #[trigger] t[y]).0 by {
        if y < t.len() - 1 {
            assert(t[x] == s[x] && t[y] == s[y]);
        } else {
            assert(t[x] == s[x] && t[y] == e);
        }
    }
}

/// Overwriting the entry at a position, keeping its key, updates the map
/// at that key alone.
pub proof fn lemma_assoc_update<K, V>(s: Seq<(K, V)>, i: int, e: (K, V))
    requires
        keys_unique(s),
        0 <= i < s.len(),
        e.0 == s[i].0,
    ensures
        keys_unique(s.update(i, e)),
        assoc_map_of(s.update(i, e)) == assoc_map_of(s).insert(e.0, e.1),
{
    let t = s.update(i, e);
    assert forall|x: int, y: int| 0 <= x < y < t.len() implies (#[trigger] t[x]).0 != (
    #[trigger] t[y]).0 by {
        assert(t[x].0 == s[x].0 && t[y].0 == s[y].0);
    }
    let m1 = assoc_map_of(t);
    let m2 = assoc_map_of(s).insert(e.0, e.1);
    assert_maps_equal!(m1, m2, k: K => {
        lemma_assoc_contains(t, k);
        lemma_assoc_contains(s, k);
        if m1.contains_key(k) {
            let j = choose|j: int| 0 <= j < t.len() && (#[trigger] t[j]).0 == k;
            lemma_assoc_value(t, j);
            if j != i {
                assert(t[j] == s[j]);
                lemma_assoc_value(s, j);
                assert(s[j].0 != s[i].0);
            }
        }
        if m2.contains_key(k) {
            if k == e.0 {
                assert(t[i].0 == k);
            } else {
                let j = choose|j: int| 0 <= j < s.len() && (#[trigger] s[j]).0 == k;
                assert(t[j].0 == k);
            }
        }
    });
}

/// Deleting the entry at a position removes its key from the map.
pub proof fn lemma_assoc_remove<K, V>(s: Seq<(K, V)>, i: int)
    requires
        keys_unique(s),
        0 <= i < s.len(),
    ensures
        keys_unique(s.remove(i)),
        assoc_map_of(s.remove(i)) == assoc_map_of(s).remove(s[i].0),
{
    let t = s.remove(i);
    assert forall|x: int, y: int| 0 <= x < y < t.len() implies (#[trigger] t[x]).0 != (
    #[trigger] t[y]).0 by {
        let sx: int = if x < i { x } else { x + 1 };
        let sy: int = if y < i { y } else { y + 1 };
        assert(t[x] == s[sx] && t[y] == s[sy]);
    }
    let m1 = assoc_map_of(t);
    let m2 = assoc_map_of(s).remove(s[i].0);
    assert_maps_equal!(m1, m2, k: K => {
        lemma_assoc_contains(t, k);
        lemma_assoc_contains(s, k);
        if m1.contains_key(k) {
            let j = choose|j: int| 0 <= j < t.len() && (#[trigger] t[j]).0 == k;
            lemma_assoc_value(t, j);
            let sj: int = if j < i { j } else { j + 1 };
            assert(t[j] == s[sj]);
            lemma_assoc_value(s, sj);
            assert(s[sj].0 != s[i].0);
        }
        if m2.contains_key(k) {
            let j = choose|j: int| 0 <= j < s.len() && (#[trigger] s[j]).0 == k;
            assert(s[j].0 != s[i].0);
            assert(j != i);
            let tj: int = if j < i { j } else { j - 1 };
            assert(t[tj] == s[j]);
        }
    });
}

} // verus!
