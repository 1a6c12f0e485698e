use vstd::prelude::*;

verus! {

/// The map that a list of pairs stands for: a later pair for a key replaces
/// an earlier one.
pub open spec fn pairs_map<K, V>(pairs: Seq<(K, V)>) -> Map<K, V>
    decreases pairs.len(),
{
    if pairs.len() == 0 {
        Map::empty()
    } else {
        pairs_map(pairs.drop_last()).insert(pairs.last().0, pairs.last().1)
    }
}

/// Whether the pair at `i` is the last for its key.
pub open spec fn last_for_key<K, V>(pairs: Seq<(K, V)>, i: int) -> bool {
    &&& 0 <= i < pairs.len()
    &&& forall|j: int| i < j < pairs.len() ==> (#[trigger] pairs[j]).0 != pairs[i].0
}

/// The map of a list of pairs has no key that no pair has.
pub proof fn lemma_absent_key<K, V>(pairs: Seq<(K, V)>, key: K)
    requires
        forall|i: int| 0 <= i < pairs.len() ==> (#[trigger] pairs[i]).0 != key,
    ensures
        !pairs_map(pairs).contains_key(key),
    decreases pairs.len(),
{
    if pairs.len() > 0 {
        let front = pairs.drop_last();
        assert forall|i: int| 0 <= i < front.len() implies (#[trigger] front[i]).0 != key by {
            assert(pairs[i].0 != key);
        }
        lemma_absent_key(front, key);
        assert(pairs[pairs.len() - 1].0 != key);
    }
}

/// The map of a list of pairs gives each key the value of the last pair
/// for it.
pub proof fn lemma_last_pair_counts<K, V>(pairs: Seq<(K, V)>, i: int)
    requires
        last_for_key(pairs, i),
    ensures
        pairs_map(pairs).contains_key(pairs[i].0),
        pairs_map(pairs)[pairs[i].0] == pairs[i].1,
    decreases pairs.len(),
{
    if i < pairs.len() - 1 {
        let front = pairs.drop_last();
        assert(pairs[pairs.len() - 1].0 != pairs[i].0);
        assert forall|j: int| i < j < front.len() implies (#[trigger] front[j]).0 != front[i].0 by {
            assert(pairs[j].0 != pairs[i].0);
        }
        lemma_last_pair_counts(front, i);
    }
}

/// Putting a pair in the place of the last pair for its key sets the value
/// that the map has for the key.
pub proof fn lemma_replace_last_pair<K, V>(pairs: Seq<(K, V)>, i: int, value: V)
    requires
        last_for_key(pairs, i),
    ensures
        pairs_map(pairs.update(i, (pairs[i].0, value))) == pairs_map(pairs).insert(
            pairs[i].0,
            value,
        ),
    decreases pairs.len(),
{
    let front = pairs.drop_last();
    let pair = (pairs[i].0, value);
    let after = pairs.update(i, pair);
    if i == pairs.len() - 1 {
        assert(after.drop_last() =~= front);
        assert(pairs_map(after) =~= pairs_map(pairs).insert(pair.0, pair.1));
    } else {
        assert(pairs[pairs.len() - 1].0 != pairs[i].0);
        assert forall|j: int| i < j < front.len() implies (#[trigger] front[j]).0 != front[i].0 by {
            assert(pairs[j].0 != pairs[i].0);
        }
        lemma_replace_last_pair(front, i, value);
        assert(after.drop_last() =~= front.update(i, pair));
        assert(after.last() == pairs.last());
        assert(pairs_map(after) =~= pairs_map(pairs).insert(pair.0, pair.1));
    }
}

/// Putting a pair for a new key anywhere into a list sets the value that
/// the map has for the key.
pub proof fn lemma_insert_pair<K, V>(pairs: Seq<(K, V)>, p: int, pair: (K, V))
    requires
        0 <= p <= pairs.len(),
        forall|i: int| 0 <= i < pairs.len() ==> (#[trigger] pairs[i]).0 != pair.0,
    ensures
        pairs_map(pairs.insert(p, pair)) == pairs_map(pairs).insert(pair.0, pair.1),
    decreases pairs.len(),
{
    let after = pairs.insert(p, pair);
    if p == pairs.len() {
        assert(after.drop_last() =~= pairs);
    } else {
        let front = pairs.drop_last();
        assert forall|i: int| 0 <= i < front.len() implies (#[trigger] front[i]).0 != pair.0 by {
            assert(pairs[i].0 != pair.0);
        }
        lemma_insert_pair(front, p, pair);
        assert(after.drop_last() =~= front.insert(p, pair));
        assert(after.last() == pairs.last());
        assert(pairs[pairs.len() - 1].0 != pair.0);
        assert(pairs_map(after) =~= pairs_map(pairs).insert(pair.0, pair.1));
    }
}

/// Whether two maps differ under `key` at most.
pub open spec fn same_but_at<K, V>(a: Map<K, V>, b: Map<K, V>, key: K) -> bool {
    forall|k: K|
        k != key ==> (#[trigger] a.contains_key(k) <==> b.contains_key(k)) && (b.contains_key(k)
            ==> a[k] == b[k])
}

/// Maps that differ from a third under one key at most differ from each
/// other under this key at most.
pub proof fn lemma_same_but_at_chain<K, V>(a: Map<K, V>, b: Map<K, V>, c: Map<K, V>, key: K)
    requires
        same_but_at(a, b, key),
        same_but_at(b, c, key),
    ensures
        same_but_at(a, c, key),
{
    assert forall|k: K| k != key implies (#[trigger] a.contains_key(k) <==> c.contains_key(k)) && (
    c.contains_key(k) ==> a[k] == c[k]) by {
        assert(a.contains_key(k) <==> b.contains_key(k));
        assert(b.contains_key(k) <==> c.contains_key(k));
    }
}

/// Taking a pair out of a list changes the map of the list under the key of
/// the pair at most.
pub proof fn lemma_remove_pair<K, V>(pairs: Seq<(K, V)>, i: int)
    requires
        0 <= i < pairs.len(),
    ensures
        same_but_at(pairs_map(pairs.remove(i)), pairs_map(pairs), pairs[i].0),
    decreases pairs.len(),
{
    let front = pairs.drop_last();
    let rest = pairs.remove(i);
    let last = pairs.last();
    assert(pairs_map(pairs) == pairs_map(front).insert(last.0, last.1));
    if i == pairs.len() - 1 {
        assert(rest =~= front);
    } else {
        lemma_remove_pair(front, i);
        assert(rest.drop_last() =~= front.remove(i));
        assert(rest.last() == last);
        assert(front[i] == pairs[i]);
        assert(pairs_map(rest) == pairs_map(front.remove(i)).insert(last.0, last.1));
        assert forall|k: K| k != pairs[i].0 implies (#[trigger] pairs_map(rest).contains_key(k)
            <==> pairs_map(pairs).contains_key(k)) && (pairs_map(pairs).contains_key(k)
            ==> pairs_map(rest)[k] == pairs_map(pairs)[k]) by {
            assert(pairs_map(front.remove(i)).contains_key(k) <==> pairs_map(front).contains_key(
                k,
            ));
            if pairs_map(front).contains_key(k) {
                assert(pairs_map(front.remove(i))[k] == pairs_map(front)[k]);
            }
        }
    }
}

} // verus!
