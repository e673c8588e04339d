//! Keys in the order in which they first occur: the order that a scan gives
//! to the items that it finds.

use vstd::prelude::*;

verus! {

/// The keys `keys` after one more place, which bears the key `key` or
/// none: a key that was not seen before goes behind the others.
pub open spec fn seen<K>(keys: Seq<K>, key: Option<K>) -> Seq<K> {
    match key {
        Some(k) => if keys.contains(k) {
            keys
        } else {
            keys.push(k)
        },
        None => keys,
    }
}

/// The keys that occur in `ks`, each once, in the order in which they
/// first occur.
pub open spec fn first_seen<K>(ks: Seq<Option<K>>) -> Seq<K>
    decreases ks.len(),
{
    if ks.len() == 0 {
        Seq::<K>::empty()
    } else {
        seen(first_seen(ks.drop_last()), ks.last())
    }
}

/// The keys that occur in `ks`.
pub open spec fn occurring<K>(ks: Seq<Option<K>>) -> Set<K> {
    Set::new(|k: K| ks.contains(Some(k)))
}

/// The keys in the order in which they first occur are the keys that
/// occur, each once.
pub proof fn lemma_first_seen<K>(ks: Seq<Option<K>>)
    ensures
        first_seen(ks).no_duplicates(),
        first_seen(ks).to_set() == occurring(ks),
        first_seen(ks).len() == occurring(ks).len(),
        first_seen(ks).len() <= ks.len(),
    decreases ks.len(),
{
    let now = first_seen(ks);
    if ks.len() > 0 {
        let rest = ks.drop_last();
        let before = first_seen(rest);
        lemma_first_seen(rest);
        assert forall|k: K| now.to_set().contains(k) <==> occurring(ks).contains(k) by {
            if now.contains(k) {
                let w = choose|w: int| 0 <= w < now.len() && now[w] == k;
                if w < before.len() {
                    assert(before.to_set().contains(k));
                }
            }
            if ks.contains(Some(k)) {
                let i = choose|i: int| 0 <= i < ks.len() && ks[i] == Some(k);
                if i < rest.len() {
                    assert(rest[i] == Some(k));
                    assert(occurring(rest).contains(k));
                    let w = choose|w: int| 0 <= w < before.len() && before[w] == k;
                    assert(now[w] == k);
                } else if !before.contains(k) {
                    assert(now[before.len() as int] == k);
                }
            }
        }
        assert(now.to_set() =~= occurring(ks));
    }
    now.unique_seq_to_set();
}

/// Where a key first stands in a sequence of keys: a match that no earlier
/// position shares is the one that `index_of_first` names.
pub proof fn lemma_first_found<K>(keys: Seq<K>, k: K, i: int)
    requires
        0 <= i < keys.len(),
        keys[i] == k,
        forall|j: int| 0 <= j < i ==> keys[j] != k,
    ensures
        keys.index_of_first(k) == Some(i),
{
    keys.index_of_first_ensures(k);
}

/// A key that stands nowhere has no first position.
pub proof fn lemma_first_absent<K>(keys: Seq<K>, k: K)
    requires
        forall|j: int| 0 <= j < keys.len() ==> keys[j] != k,
    ensures
        keys.index_of_first(k) is None,
{
    keys.index_of_first_ensures(k);
}

} // verus!
