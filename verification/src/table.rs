//! Lists of key and value pairs, read as finite maps.
//!
//! The executable states of this crate keep their maps as vectors of pairs
//! in which no key occurs twice. This module says which map such a list
//! stands for and what appending to it and replacing in it do to that map.

use vstd::prelude::*;

verus! {

/// The map that a list of pairs stands for. Where a key occurs twice, the
/// later pair counts.
pub open spec fn table_of<K, V>(pairs: Seq<(K, V)>) -> Map<K, V>
    decreases pairs.len(),
{
    if pairs.len() == 0 {
        Map::empty()
    } else {
        table_of(pairs.drop_last()).insert(pairs.last().0, pairs.last().1)
    }
}

/// No key occurs twice in `pairs`.
pub open spec fn distinct_keys<K, V>(pairs: Seq<(K, V)>) -> bool {
    forall|i: int, j: int| 0 <= i < j < pairs.len() ==> pairs[i].0 != pairs[j].0
}

/// The keys of the table are the keys in the list, and there are finitely
/// many.
pub proof fn lemma_table_keys<K, V>(pairs: Seq<(K, V)>)
    ensures
        table_of(pairs).dom().finite(),
        forall|k: K|
            table_of(pairs).contains_key(k) <==> exists|i: int|
                0 <= i < pairs.len() && #[trigger] pairs[i].0 == k,
    decreases pairs.len(),
{
    if pairs.len() > 0 {
        let front = pairs.drop_last();
        lemma_table_keys(front);
        assert forall|k: K|
            table_of(pairs).contains_key(k) <==> exists|i: int|
                0 <= i < pairs.len() && #[trigger] pairs[i].0 == k by {
            if table_of(front).contains_key(k) {
                let i = choose|i: int| 0 <= i < front.len() && #[trigger] front[i].0 == k;
                assert(pairs[i].0 == k);
            }
            if exists|i: int| 0 <= i < pairs.len() && #[trigger] pairs[i].0 == k {
                let i = choose|i: int| 0 <= i < pairs.len() && #[trigger] pairs[i].0 == k;
                if i < front.len() {
                    assert(front[i].0 == k);
                }
            }
        }
    }
}

/// Where no key occurs twice, each pair is its key's entry in the table.
pub proof fn lemma_table_entry<K, V>(pairs: Seq<(K, V)>, i: int)
    requires
        distinct_keys(pairs),
        0 <= i < pairs.len(),
    ensures
        table_of(pairs).contains_key(pairs[i].0),
        table_of(pairs)[pairs[i].0] == pairs[i].1,
    decreases pairs.len(),
{
    if i < pairs.len() - 1 {
        lemma_table_entry(pairs.drop_last(), i);
    }
}

/// A key that is in no pair is not in the table.
pub proof fn lemma_table_absent<K, V>(pairs: Seq<(K, V)>, key: K)
    requires
        forall|i: int| 0 <= i < pairs.len() ==> pairs[i].0 != key,
    ensures
        !table_of(pairs).contains_key(key),
{
    lemma_table_keys(pairs);
}

/// Replacing the value of a key writes the new value into the table.
pub proof fn lemma_table_update<K, V>(pairs: Seq<(K, V)>, i: int, value: V)
    requires
        distinct_keys(pairs),
        0 <= i < pairs.len(),
    ensures
        distinct_keys(pairs.update(i, (pairs[i].0, value))),
        table_of(pairs.update(i, (pairs[i].0, value))) == table_of(pairs).insert(pairs[i].0, value),
    decreases pairs.len(),
{
    let front = pairs.drop_last();
    let after = pairs.update(i, (pairs[i].0, value));
    if i == pairs.len() - 1 {
        assert(after.drop_last() =~= front);
    } else {
        lemma_table_update(front, i, value);
        assert(after.drop_last() =~= front.update(i, (pairs[i].0, value)));
    }
    assert(table_of(after) =~= table_of(pairs).insert(pairs[i].0, value));
}

/// Appending a pair writes its value into the table; with a key that was
/// not in the list, no key occurs twice afterwards either.
pub proof fn lemma_table_push<K, V>(pairs: Seq<(K, V)>, key: K, value: V)
    ensures
        table_of(pairs.push((key, value))) == table_of(pairs).insert(key, value),
        distinct_keys(pairs) && !table_of(pairs).contains_key(key) ==> distinct_keys(
            pairs.push((key, value)),
        ),
{
    assert(pairs.push((key, value)).drop_last() =~= pairs);
    lemma_table_keys(pairs);
}

} // verus!
