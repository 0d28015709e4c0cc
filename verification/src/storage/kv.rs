//! A byte-keyed store held as an entry vector with pairwise-distinct keys,
//! read as a map from key bytes to value bytes.

use vstd::prelude::*;

verus! {

/// No two entries hold the same key bytes.
pub open spec fn kv_unique(s: Seq<(Vec<u8>, Vec<u8>)>) -> bool {
    forall|i: int, j: int| 0 <= i < j < s.len() ==> (#[trigger] s[i]).0@ != (#[trigger] s[j]).0@
}

/// The map an entry vector denotes; a later entry wins over an earlier one
/// with the same key.
pub open spec fn kv_map(s: Seq<(Vec<u8>, Vec<u8>)>) -> Map<Seq<u8>, Seq<u8>>
    decreases s.len(),
{
    if s.len() == 0 {
        Map::empty()
    } else {
        kv_map(s.drop_last()).insert(s.last().0@, s.last().1@)
    }
}

/// A key is in the map exactly when some entry holds it.
pub proof fn lemma_kv_dom(s: Seq<(Vec<u8>, Vec<u8>)>)
    ensures
        forall|k: Seq<u8>|
            #[trigger] kv_map(s).dom().contains(k) <==> exists|i: int|
                0 <= i < s.len() && (#[trigger] s[i]).0@ == k,
    decreases s.len(),
{
    if s.len() > 0 {
        lemma_kv_dom(s.drop_last());
        assert forall|k: Seq<u8>| kv_map(s).dom().contains(k) implies exists|i: int|
            0 <= i < s.len() && (#[trigger] s[i]).0@ == k by {
            if k == s.last().0@ {
                assert(s[s.len() - 1].0@ == k);
            } else {
                assert(kv_map(s.drop_last()).dom().contains(k));
                let i = choose|i: int|
                    0 <= i < s.drop_last().len() && (#[trigger] s.drop_last()[i]).0@ == k;
                assert(s.drop_last()[i] == s[i]);
                assert(s[i].0@ == k);
            }
        }
        assert forall|k: Seq<u8>|
            (exists|i: int| 0 <= i < s.len() && (#[trigger] s[i]).0@ == k) implies kv_map(
            s,
        ).dom().contains(k) by {
            let i = choose|i: int| 0 <= i < s.len() && (#[trigger] s[i]).0@ == k;
            if i < s.len() - 1 {
                assert(s.drop_last()[i].0@ == k);
                assert(kv_map(s.drop_last()).dom().contains(k));
            } else {
                assert(k == s.last().0@);
            }
        }
    }
}

/// With distinct keys, each entry's key maps to that entry's value.
pub proof fn lemma_kv_at(s: Seq<(Vec<u8>, Vec<u8>)>)
    requires
        kv_unique(s),
    ensures
        forall|i: int|
            0 <= i < s.len() ==> kv_map(s).dom().contains((#[trigger] s[i]).0@) && kv_map(s)[s[i].0@]
                == s[i].1@,
    decreases s.len(),
{
    if s.len() > 0 {
        assert(kv_unique(s.drop_last()));
        lemma_kv_at(s.drop_last());
        assert forall|i: int|
            0 <= i < s.len() implies kv_map(s).dom().contains((#[trigger] s[i]).0@) && kv_map(s)[s[i].0@]
            == s[i].1@ by {
            if i < s.len() - 1 {
                assert(s.drop_last()[i] == s[i]);
                assert(s[i].0@ != s.last().0@);
            }
        }
    }
}

/// Overwriting the entry that holds a key updates the key's value.
pub proof fn lemma_kv_update(s: Seq<(Vec<u8>, Vec<u8>)>, i: int, e: (Vec<u8>, Vec<u8>))
    requires
        kv_unique(s),
        0 <= i < s.len(),
        e.0@ == s[i].0@,
    ensures
        kv_unique(s.update(i, e)),
        kv_map(s.update(i, e)) == kv_map(s).insert(e.0@, e.1@),
    decreases s.len(),
{
    let t = s.update(i, e);
    assert forall|x: int, y: int| 0 <= x < y < t.len() implies (#[trigger] t[x]).0@ != (
    #[trigger] t[y]).0@ by {
        assert(t[x].0@ == s[x].0@ && t[y].0@ == s[y].0@);
    }
    if i == s.len() - 1 {
        assert(t.drop_last() =~= s.drop_last());
        assert(kv_map(t) == kv_map(s.drop_last()).insert(e.0@, e.1@));
        assert(kv_map(s.drop_last()).insert(e.0@, e.1@) =~= kv_map(s.drop_last()).insert(
            s[i].0@,
            s[i].1@,
        ).insert(e.0@, e.1@));
    } else {
        assert(kv_unique(s.drop_last()));
        lemma_kv_update(s.drop_last(), i, e);
        assert(t.drop_last() =~= s.drop_last().update(i, e));
        assert(t.last() == s.last());
        assert(t.len() > 0);
        assert(kv_map(t) == kv_map(s.drop_last()).insert(e.0@, e.1@).insert(
            s.last().0@,
            s.last().1@,
        ));
        assert(s[i].0@ != s.last().0@);
        assert(kv_map(s.drop_last()).insert(e.0@, e.1@).insert(s.last().0@, s.last().1@)
            =~= kv_map(s.drop_last()).insert(s.last().0@, s.last().1@).insert(e.0@, e.1@));
    }
}

/// Appending an entry with a fresh key inserts it into the map.
pub proof fn lemma_kv_push(s: Seq<(Vec<u8>, Vec<u8>)>, e: (Vec<u8>, Vec<u8>))
    requires
        kv_unique(s),
        forall|i: int| 0 <= i < s.len() ==> (#[trigger] s[i]).0@ != e.0@,
    ensures
        kv_unique(s.push(e)),
        kv_map(s.push(e)) == kv_map(s).insert(e.0@, e.1@),
{
    let t = s.push(e);
    assert forall|x: int, y: int| 0 <= x < y < t.len() implies (#[trigger] t[x]).0@ != (
    #[trigger] t[y]).0@ by {
        if y == t.len() - 1 {
            assert(t[x].0@ == s[x].0@);
        }
    }
    assert(t.drop_last() =~= s);
}

/// Whether two byte strings hold the same bytes.
pub fn eq_bytes(a: &[u8], b: &[u8]) -> (r: bool)
    ensures
        r == (a@ == b@),
{
    if a.len() != b.len() {
        return false;
    }
    let mut i: usize = 0;
    while i < a.len()
        invariant
            a@.len() == b@.len(),
            i <= a@.len(),
            forall|j: int| 0 <= j < i ==> a@[j] == b@[j],
        decreases a@.len() - i,
    {
        if a[i] != b[i] {
            return false;
        }
        i = i + 1;
    }
    proof {
        assert(a@ =~= b@);
    }
    true
}

/// Copies a byte string.
pub fn clone_bytes(v: &[u8]) -> (r: Vec<u8>)
    ensures
        r@ == v@,
{
    let mut out: Vec<u8> = Vec::new();
    let mut i: usize = 0;
    while i < v.len()
        invariant
            i <= v@.len(),
            out@ == v@.subrange(0, i as int),
        decreases v@.len() - i,
    {
        out.push(v[i]);
        proof {
            assert(out@ == v@.subrange(0, i + 1 as int));
        }
        i = i + 1;
    }
    proof {
        assert(v@.subrange(0, v@.len() as int) == v@);
    }
    out
}

/// Key/value contents held in memory, keyed by byte strings.
#[derive(Debug)]
pub struct KvStore {
    /// The entries, with pairwise-distinct keys.
    pub entries: Vec<(Vec<u8>, Vec<u8>)>,
}

impl KvStore {
    /// The contents as a map from key bytes to value bytes.
    pub open spec fn view_map(self) -> Map<Seq<u8>, Seq<u8>> {
        kv_map(self.entries@)
    }

    pub open spec fn wf(self) -> bool {
        kv_unique(self.entries@)
    }

    /// An empty store.
    pub fn empty() -> (r: Self)
        ensures
            r.wf(),
            r.view_map() == Map::<Seq<u8>, Seq<u8>>::empty(),
            r.entries@.len() == 0,
    {
        KvStore { entries: Vec::new() }
    }

    /// The value stored under the given key, copied out.
    pub fn get(&self, key: &[u8]) -> (r: Option<Vec<u8>>)
        requires
            self.wf(),
        ensures
            match r {
                Some(v) => self.view_map().dom().contains(key@) && v@ == self.view_map()[key@],
                None => !self.view_map().dom().contains(key@),
            },
    {
        let mut i: usize = 0;
        while i < self.entries.len()
            invariant
                self.wf(),
                i <= self.entries@.len(),
                forall|j: int| 0 <= j < i ==> (#[trigger] self.entries@[j]).0@ != key@,
            decreases self.entries@.len() - i,
        {
            if eq_bytes(self.entries[i].0.as_slice(), key) {
                proof {
                    lemma_kv_at(self.entries@);
                }
                return Some(clone_bytes(self.entries[i].1.as_slice()));
            }
            i = i + 1;
        }
        proof {
            lemma_kv_dom(self.entries@);
        }
        None
    }

    /// Stores a value under a key, replacing any previous value.
    pub fn insert(&mut self, key: &[u8], value: &[u8])
        requires
            old(self).wf(),
        ensures
            final(self).wf(),
            final(self).view_map() == old(self).view_map().insert(key@, value@),
    {
        let mut i: usize = 0;
        while i < self.entries.len()
            invariant
                self.wf(),
                self.entries == old(self).entries,
                i <= self.entries@.len(),
                forall|j: int| 0 <= j < i ==> (#[trigger] self.entries@[j]).0@ != key@,
            decreases self.entries@.len() - i,
        {
            if eq_bytes(self.entries[i].0.as_slice(), key) {
                let entry = (clone_bytes(key), clone_bytes(value));
                proof {
                    lemma_kv_update(self.entries@, i as int, entry);
                }
                self.entries.set(i, entry);
                return ;
            }
            i = i + 1;
        }
        let entry = (clone_bytes(key), clone_bytes(value));
        proof {
            lemma_kv_push(self.entries@, entry);
        }
        self.entries.push(entry);
    }

    /// A copy of the contents, entry by entry.
    pub fn snapshot(&self) -> (r: KvStore)
        requires
            self.wf(),
        ensures
            r.wf(),
            r.view_map() == self.view_map(),
    {
        let mut entries: Vec<(Vec<u8>, Vec<u8>)> = Vec::new();
        let mut i: usize = 0;
        while i < self.entries.len()
            invariant
                self.wf(),
                i <= self.entries@.len(),
                entries@.len() == i,
                forall|j: int|
                    0 <= j < i ==> (#[trigger] entries@[j]).0@ == self.entries@[j].0@ && entries@[j].1@
                        == self.entries@[j].1@,
            decreases self.entries@.len() - i,
        {
            entries.push(
                (clone_bytes(self.entries[i].0.as_slice()), clone_bytes(self.entries[i].1.as_slice())),
            );
            i = i + 1;
        }
        proof {
            lemma_kv_views_equal(entries@, self.entries@);
        }
        KvStore { entries }
    }

    /// Writes every entry of `writes` into this store, in order; the result
    /// is this store's contents overridden by the writes.
    pub fn apply(&mut self, writes: &KvStore)
        requires
            old(self).wf(),
            writes.wf(),
        ensures
            final(self).wf(),
            final(self).view_map() == old(self).view_map().union_prefer_right(writes.view_map()),
    {
        let ghost base = self.view_map();
        let mut i: usize = 0;
        while i < writes.entries.len()
            invariant
                self.wf(),
                writes.wf(),
                i <= writes.entries@.len(),
                self.view_map() == base.union_prefer_right(kv_map(writes.entries@.subrange(0, i as int))),
            decreases writes.entries@.len() - i,
        {
            let ghost pre = self.view_map();
            self.insert(writes.entries[i].0.as_slice(), writes.entries[i].1.as_slice());
            proof {
                assert(writes.entries@.subrange(0, i + 1 as int).drop_last() == writes.entries@.subrange(0, i as int));
                assert(writes.entries@.subrange(0, i + 1 as int).last() == writes.entries@[i as int]);
                assert(self.view_map() =~= base.union_prefer_right(
                    kv_map(writes.entries@.subrange(0, i + 1 as int)),
                ));
            }
            i = i + 1;
        }
        proof {
            assert(writes.entries@.subrange(0, writes.entries@.len() as int) == writes.entries@);
            assert(base.union_prefer_right(kv_map(Seq::<(Vec<u8>, Vec<u8>)>::empty())) =~= base);
        }
    }
}

/// Entry vectors whose keys and values agree pairwise denote the same map.
proof fn lemma_kv_views_equal(a: Seq<(Vec<u8>, Vec<u8>)>, b: Seq<(Vec<u8>, Vec<u8>)>)
    requires
        a.len() == b.len(),
        forall|j: int| 0 <= j < a.len() ==> (#[trigger] a[j]).0@ == b[j].0@ && a[j].1@ == b[j].1@,
    ensures
        kv_map(a) == kv_map(b),
        kv_unique(b) ==> kv_unique(a),
    decreases a.len(),
{
    if a.len() > 0 {
        assert(forall|j: int|
            0 <= j < a.drop_last().len() ==> (#[trigger] a.drop_last()[j]).0@ == b.drop_last()[j].0@
                && a.drop_last()[j].1@ == b.drop_last()[j].1@);
        lemma_kv_views_equal(a.drop_last(), b.drop_last());
        assert(kv_map(a) == kv_map(a.drop_last()).insert(a.last().0@, a.last().1@));
        assert(a.last().0@ == b.last().0@ && a.last().1@ == b.last().1@);
        if kv_unique(b) {
            assert forall|x: int, y: int| 0 <= x < y < a.len() implies (#[trigger] a[x]).0@ != (
            #[trigger] a[y]).0@ by {
                assert(b[x].0@ != b[y].0@);
            }
        }
    }
}

} // verus!
