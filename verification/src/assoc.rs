//! Reasoning support for maps stored as vectors of key/value pairs.
//!
//! The tracker's indexes are held as plain vectors with pairwise-distinct
//! keys. [`assoc_map`] reads such a vector as a mathematical map; the lemmas
//! here relate the vector operations the code performs (push, in-place
//! update, removal) to the corresponding map operations.

use vstd::prelude::*;

verus! {

/// No two entries share a key.
pub open spec fn unique_keys<K, V>(s: Seq<(K, V)>) -> bool {
    forall|i: int, j: int| 0 <= i < j < s.len() ==> (#[trigger] s[i]).0 != (#[trigger] s[j]).0
}

/// The map an entry vector denotes; a later entry wins over an earlier one
/// with the same key.
pub open spec fn assoc_map<K, V>(s: Seq<(K, V)>) -> Map<K, V>
    decreases s.len(),
{
    if s.len() == 0 {
        Map::empty()
    } else {
        assoc_map(s.drop_last()).insert(s.last().0, s.last().1)
    }
}

/// A key is in the map exactly when some entry holds it.
pub proof fn lemma_assoc_dom<K, V>(s: Seq<(K, V)>)
    ensures
        forall|k: K|
            #[trigger] assoc_map(s).dom().contains(k) <==> exists|i: int|
                0 <= i < s.len() && (#[trigger] s[i]).0 == k,
    decreases s.len(),
{
    if s.len() > 0 {
        lemma_assoc_dom(s.drop_last());
        assert forall|k: K| assoc_map(s).dom().contains(k) implies exists|i: int|
            0 <= i < s.len() && (#[trigger] s[i]).0 == k by {
            if k == s.last().0 {
                assert(s[s.len() - 1].0 == k);
            } else {
                assert(assoc_map(s.drop_last()).dom().contains(k));
                let i = choose|i: int|
                    0 <= i < s.drop_last().len() && (#[trigger] s.drop_last()[i]).0 == k;
                assert(s.drop_last()[i] == s[i]);
                assert(s[i].0 == k);
            }
        }
        assert forall|k: K|
            (exists|i: int| 0 <= i < s.len() && (#[trigger] s[i]).0 == k) implies assoc_map(
            s,
        ).dom().contains(k) by {
            let i = choose|i: int| 0 <= i < s.len() && (#[trigger] s[i]).0 == k;
            if i < s.len() - 1 {
                assert(s.drop_last()[i].0 == k);
                assert(assoc_map(s.drop_last()).dom().contains(k));
            } else {
                assert(k == s.last().0);
            }
        }
    }
}

/// With distinct keys, each entry's key maps to that entry's value.
pub proof fn lemma_assoc_at<K, V>(s: Seq<(K, V)>)
    requires
        unique_keys(s),
    ensures
        forall|i: int|
            0 <= i < s.len() ==> assoc_map(s).dom().contains((#[trigger] s[i]).0) && assoc_map(s)[s[i].0]
                == s[i].1,
    decreases s.len(),
{
    if s.len() > 0 {
        assert(unique_keys(s.drop_last()));
        lemma_assoc_at(s.drop_last());
        assert forall|i: int|
            0 <= i < s.len() implies assoc_map(s).dom().contains((#[trigger] s[i]).0) && assoc_map(
            s,
        )[s[i].0] == s[i].1 by {
            if i < s.len() - 1 {
                assert(s.drop_last()[i] == s[i]);
                assert(s[i].0 != s.last().0);
            }
        }
    }
}

/// Removing the entry that holds a key removes the key from the map.
pub proof fn lemma_assoc_remove<K, V>(s: Seq<(K, V)>, i: int)
    requires
        unique_keys(s),
        0 <= i < s.len(),
    ensures
        unique_keys(s.remove(i)),
        assoc_map(s.remove(i)) == assoc_map(s).remove(s[i].0),
    decreases s.len(),
{
    lemma_assoc_dom(s);
    lemma_assoc_dom(s.drop_last());
    if i == s.len() - 1 {
        assert(s.remove(i) == s.drop_last());
        assert(!assoc_map(s.drop_last()).dom().contains(s[i].0));
        assert(assoc_map(s.drop_last()).insert(s[i].0, s[i].1).remove(s[i].0) =~= assoc_map(
            s.drop_last(),
        ));
    } else {
        assert(unique_keys(s.drop_last()));
        lemma_assoc_remove(s.drop_last(), i);
        assert(s.remove(i).drop_last() =~= s.drop_last().remove(i));
        assert(s.remove(i).last() == s.last());
        assert(s.remove(i).len() > 0);
        assert(assoc_map(s.remove(i)) == assoc_map(s.drop_last().remove(i)).insert(
            s.last().0,
            s.last().1,
        ));
        assert(s[i].0 != s.last().0);
        assert(assoc_map(s.drop_last()).remove(s[i].0).insert(s.last().0, s.last().1)
            =~= assoc_map(s.drop_last()).insert(s.last().0, s.last().1).remove(s[i].0));
    }
}

/// Overwriting the entry that holds a key updates the key's value.
pub proof fn lemma_assoc_update<K, V>(s: Seq<(K, V)>, i: int, v: V)
    requires
        unique_keys(s),
        0 <= i < s.len(),
    ensures
        unique_keys(s.update(i, (s[i].0, v))),
        assoc_map(s.update(i, (s[i].0, v))) == assoc_map(s).insert(s[i].0, v),
    decreases s.len(),
{
    let t = s.update(i, (s[i].0, v));
    assert forall|x: int, y: int| 0 <= x < y < t.len() implies (#[trigger] t[x]).0 != (
    #[trigger] t[y]).0 by {
        assert(t[x].0 == s[x].0 && t[y].0 == s[y].0);
    }
    if i == s.len() - 1 {
        assert(t.drop_last() =~= s.drop_last());
        assert(assoc_map(t) == assoc_map(s.drop_last()).insert(s[i].0, v));
        assert(assoc_map(s.drop_last()).insert(s[i].0, v) =~= assoc_map(s.drop_last()).insert(
            s[i].0,
            s[i].1,
        ).insert(s[i].0, v));
    } else {
        assert(unique_keys(s.drop_last()));
        lemma_assoc_update(s.drop_last(), i, v);
        assert(t.drop_last() =~= s.drop_last().update(i, (s[i].0, v)));
        assert(t.last() == s.last());
        assert(t.len() > 0);
        assert(assoc_map(t) == assoc_map(s.drop_last()).insert(s[i].0, v).insert(
            s.last().0,
            s.last().1,
        ));
        assert(s[i].0 != s.last().0);
        assert(assoc_map(s.drop_last()).insert(s[i].0, v).insert(s.last().0, s.last().1)
            =~= assoc_map(s.drop_last()).insert(s.last().0, s.last().1).insert(s[i].0, v));
    }
}

/// Appending an entry with a fresh key inserts it into the map.
pub proof fn lemma_assoc_push<K, V>(s: Seq<(K, V)>, k: K, v: V)
    requires
        unique_keys(s),
        forall|i: int| 0 <= i < s.len() ==> (#[trigger] s[i]).0 != k,
    ensures
        unique_keys(s.push((k, v))),
        assoc_map(s.push((k, v))) == assoc_map(s).insert(k, v),
{
    let t = s.push((k, v));
    assert forall|x: int, y: int| 0 <= x < y < t.len() implies (#[trigger] t[x]).0 != (
    #[trigger] t[y]).0 by {
        if y == t.len() - 1 {
            assert(t[x].0 == s[x].0);
        }
    }
    assert(t.drop_last() =~= s);
}

/// With distinct keys, the map holds exactly as many keys as the vector
/// holds entries.
pub proof fn lemma_assoc_card<K, V>(s: Seq<(K, V)>)
    requires
        unique_keys(s),
    ensures
        assoc_map(s).dom().finite(),
        assoc_map(s).dom().len() == s.len(),
    decreases s.len(),
{
    broadcast use vstd::set::group_set_axioms;

    if s.len() == 0 {
        assert(assoc_map(s).dom() =~= Set::<K>::empty());
    } else {
        assert(unique_keys(s.drop_last()));
        lemma_assoc_card(s.drop_last());
        lemma_assoc_dom(s.drop_last());
        assert(!assoc_map(s.drop_last()).dom().contains(s.last().0));
        assert(assoc_map(s).dom() =~= assoc_map(s.drop_last()).dom().insert(s.last().0));
    }
}

} // verus!
