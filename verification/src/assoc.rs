//! Lists of path and value pairs, read as maps.

use vstd::prelude::*;

verus! {

/// The map that the pairs spell out. Where a path occurs more than once, the
/// last pair with it counts.
pub open spec fn pairs_map<V>(pairs: Seq<(Seq<Seq<u8>>, V)>) -> Map<Seq<Seq<u8>>, V>
    decreases pairs.len(),
{
    if pairs.len() == 0 {
        Map::empty()
    } else {
        pairs_map(pairs.drop_last()).insert(pairs.last().0, pairs.last().1)
    }
}

/// No path occurs in two pairs.
pub open spec fn distinct_paths<V>(pairs: Seq<(Seq<Seq<u8>>, V)>) -> bool {
    forall|i: int, j: int| 0 <= i < j < pairs.len() ==> pairs[i].0 != pairs[j].0
}

/// Some pair has the path `key`.
pub open spec fn has_path<V>(pairs: Seq<(Seq<Seq<u8>>, V)>, key: Seq<Seq<u8>>) -> bool {
    exists|i: int| 0 <= i < pairs.len() && (#[trigger] pairs[i]).0 == key
}

/// The map's keys are the paths of the pairs.
pub proof fn lemma_pairs_map_keys<V>(pairs: Seq<(Seq<Seq<u8>>, V)>, key: Seq<Seq<u8>>)
    ensures
        pairs_map(pairs).contains_key(key) == has_path(pairs, key),
    decreases pairs.len(),
{
    if pairs.len() > 0 {
        let front = pairs.drop_last();
        lemma_pairs_map_keys(front, key);
        if has_path(pairs, key) {
            let i = choose|i: int| 0 <= i < pairs.len() && (#[trigger] pairs[i]).0 == key;
            if i < pairs.len() - 1 {
                assert(front[i].0 == key);
            }
        }
        if has_path(front, key) {
            let i = choose|i: int| 0 <= i < front.len() && (#[trigger] front[i]).0 == key;
            assert(pairs[i].0 == key);
        }
        if pairs.last().0 == key {
            assert(pairs[pairs.len() - 1].0 == key);
        }
    }
}

/// Where no path occurs twice, each pair's value is what the map holds for
/// its path.
pub proof fn lemma_pairs_map_value<V>(pairs: Seq<(Seq<Seq<u8>>, V)>, i: int)
    requires
        distinct_paths(pairs),
        0 <= i < pairs.len(),
    ensures
        pairs_map(pairs).contains_key(pairs[i].0),
        pairs_map(pairs)[pairs[i].0] == pairs[i].1,
    decreases pairs.len(),
{
    let front = pairs.drop_last();
    if i < pairs.len() - 1 {
        assert(distinct_paths(front)) by {
            assert forall|a: int, b: int| 0 <= a < b < front.len() implies front[a].0
                != front[b].0 by {
                assert(pairs[a].0 != pairs[b].0);
            }
        }
        lemma_pairs_map_value(front, i);
        assert(front[i] == pairs[i]);
        assert(pairs[i].0 != pairs[pairs.len() - 1].0);
    }
}

/// Adding a pair adds its path and value to the map.
pub proof fn lemma_pairs_map_push<V>(pairs: Seq<(Seq<Seq<u8>>, V)>, key: Seq<Seq<u8>>, value: V)
    ensures
        pairs_map(pairs.push((key, value))) == pairs_map(pairs).insert(key, value),
{
    assert(pairs.push((key, value)).drop_last() == pairs);
}

/// Taking out the one pair that has a path takes the path out of the map.
pub proof fn lemma_pairs_map_remove<V>(pairs: Seq<(Seq<Seq<u8>>, V)>, i: int)
    requires
        distinct_paths(pairs),
        0 <= i < pairs.len(),
    ensures
        distinct_paths(pairs.remove(i)),
        pairs_map(pairs.remove(i)) == pairs_map(pairs).remove(pairs[i].0),
{
    let rest = pairs.remove(i);
    assert forall|a: int, b: int| 0 <= a < b < rest.len() implies rest[a].0 != rest[b].0 by {
        let a0 = if a < i { a } else { a + 1 };
        let b0 = if b < i { b } else { b + 1 };
        assert(rest[a] == pairs[a0]);
        assert(rest[b] == pairs[b0]);
    }
    assert forall|k: Seq<Seq<u8>>|
        pairs_map(rest).contains_key(k) == pairs_map(pairs).remove(pairs[i].0).contains_key(
            k,
        ) by {
        lemma_pairs_map_keys(rest, k);
        lemma_pairs_map_keys(pairs, k);
        if has_path(rest, k) {
            let a = choose|a: int| 0 <= a < rest.len() && (#[trigger] rest[a]).0 == k;
            let a0 = if a < i { a } else { a + 1 };
            assert(rest[a] == pairs[a0]);
            assert(pairs[a0].0 == k);
        }
        if has_path(pairs, k) && k != pairs[i].0 {
            let a0 = choose|a: int| 0 <= a < pairs.len() && (#[trigger] pairs[a]).0 == k;
            let a = if a0 < i { a0 } else { a0 - 1 };
            assert(rest[a] == pairs[a0]);
            assert(rest[a].0 == k);
        }
    }
    assert forall|k: Seq<Seq<u8>>| pairs_map(rest).contains_key(k) implies pairs_map(rest)[k]
        == pairs_map(pairs).remove(pairs[i].0)[k] by {
        lemma_pairs_map_keys(rest, k);
        let a = choose|a: int| 0 <= a < rest.len() && (#[trigger] rest[a]).0 == k;
        let a0 = if a < i { a } else { a + 1 };
        assert(rest[a] == pairs[a0]);
        lemma_pairs_map_value(rest, a);
        lemma_pairs_map_value(pairs, a0);
    }
    assert(pairs_map(rest) =~= pairs_map(pairs).remove(pairs[i].0));
}

/// Giving the one pair that has a path a new value gives the path that value
/// in the map.
pub proof fn lemma_pairs_map_update<V>(pairs: Seq<(Seq<Seq<u8>>, V)>, i: int, value: V)
    requires
        distinct_paths(pairs),
        0 <= i < pairs.len(),
    ensures
        distinct_paths(pairs.update(i, (pairs[i].0, value))),
        pairs_map(pairs.update(i, (pairs[i].0, value))) == pairs_map(pairs).insert(
            pairs[i].0,
            value,
        ),
{
    let key = pairs[i].0;
    let next = pairs.update(i, (key, value));
    assert forall|a: int, b: int| 0 <= a < b < next.len() implies next[a].0 != next[b].0 by {
        assert(next[a].0 == pairs[a].0);
        assert(next[b].0 == pairs[b].0);
    }
    assert forall|k: Seq<Seq<u8>>|
        pairs_map(next).contains_key(k) == pairs_map(pairs).insert(key, value).contains_key(
            k,
        ) by {
        lemma_pairs_map_keys(next, k);
        lemma_pairs_map_keys(pairs, k);
        if has_path(next, k) {
            let a = choose|a: int| 0 <= a < next.len() && (#[trigger] next[a]).0 == k;
            assert(pairs[a].0 == k);
        }
        if has_path(pairs, k) {
            let a = choose|a: int| 0 <= a < pairs.len() && (#[trigger] pairs[a]).0 == k;
            assert(next[a].0 == k);
        }
        if k == key {
            assert(next[i].0 == k);
        }
    }
    assert forall|k: Seq<Seq<u8>>| pairs_map(next).contains_key(k) implies pairs_map(next)[k]
        == pairs_map(pairs).insert(key, value)[k] by {
        lemma_pairs_map_keys(next, k);
        let a = choose|a: int| 0 <= a < next.len() && (#[trigger] next[a]).0 == k;
        lemma_pairs_map_value(next, a);
        if a != i {
            assert(next[a] == pairs[a]);
            lemma_pairs_map_value(pairs, a);
            assert(pairs[a].0 != pairs[i].0);
        }
    }
    assert(pairs_map(next) =~= pairs_map(pairs).insert(key, value));
}

} // verus!
