//! The in-memory index of canonical blocks that are not on disk yet.
//!
//! Two indexes are kept: block hash to tracked state, and block number to
//! block hash, together with a single pending slot for a speculative next
//! block. The indexes are stored as entry vectors with pairwise-distinct
//! keys and are read as mathematical maps through [`crate::assoc::assoc_map`].

use vstd::prelude::*;
use vstd::pervasive::VecAdditionalExecFns;
use std::sync::Arc;
use crate::assoc::{assoc_map, lemma_assoc_at, lemma_assoc_dom, lemma_assoc_push, lemma_assoc_update, unique_keys};
use crate::block_state::BlockState;
use crate::executed_block::ExecutedBlock;
use crate::primitives::B256;

verus! {

/// Container for the in-memory state of the canonical chain: all canonical
/// blocks that are not on disk yet, the number index over them, and the
/// pending block that has not been made canonical yet.
#[derive(Debug)]
pub struct InMemoryState {
    /// Tracked states, keyed by block hash.
    pub blocks: Vec<(B256, BlockState)>,
    /// Block numbers mapped to block hashes.
    pub numbers: Vec<(u64, B256)>,
    /// The pending block that has not yet been made canonical.
    pub pending: Option<BlockState>,
}

/// Consistency of the two indexes: every tracked state is filed under its
/// own hash and its parent links are tied by hash, and every number entry
/// points at a tracked state that carries that number.
pub open spec fn indexes_consistent(bm: Map<B256, BlockState>, nm: Map<u64, B256>) -> bool {
    &&& forall|h: B256|
        bm.dom().contains(h) ==> (#[trigger] bm[h]).spec_hash() == h && bm[h].hash_linked()
    &&& forall|n: u64|
        nm.dom().contains(n) ==> bm.dom().contains(#[trigger] nm[n]) && bm[nm[n]].spec_number()
            == n
}

/// Every tracked state's direct parent, when it has one, is itself tracked,
/// under its own hash and with the same value.
pub open spec fn map_closed(bm: Map<B256, BlockState>) -> bool {
    forall|h: B256|
        bm.dom().contains(h) ==> match (#[trigger] bm[h]).spec_parent() {
            None => true,
            Some(p) => bm.dom().contains(p.spec_hash()) && bm[p.spec_hash()] == *p,
        }
}

/// Well-formedness of the raw entry vectors backing an [`InMemoryState`].
pub open spec fn wf_parts(blocks: Seq<(B256, BlockState)>, numbers: Seq<(u64, B256)>) -> bool {
    &&& unique_keys(blocks)
    &&& unique_keys(numbers)
    &&& indexes_consistent(assoc_map(blocks), assoc_map(numbers))
}

impl InMemoryState {
    /// The hash index as a map.
    pub open spec fn blocks_view(self) -> Map<B256, BlockState> {
        assoc_map(self.blocks@)
    }

    /// The number index as a map.
    pub open spec fn numbers_view(self) -> Map<u64, B256> {
        assoc_map(self.numbers@)
    }

    pub open spec fn wf(self) -> bool {
        wf_parts(self.blocks@, self.numbers@)
    }

    /// `n` is the greatest tracked block number.
    pub open spec fn is_head_number(self, n: u64) -> bool {
        &&& self.numbers_view().dom().contains(n)
        &&& forall|m: u64| #[trigger] self.numbers_view().dom().contains(m) ==> m <= n
    }

    /// The state a query for hash `h` resolves to.
    pub open spec fn spec_state_by_hash(self, h: B256) -> Option<BlockState> {
        if self.blocks_view().dom().contains(h) {
            Some(self.blocks_view()[h])
        } else {
            None
        }
    }

    /// The state a query for number `n` resolves to.
    pub open spec fn spec_state_by_number(self, n: u64) -> Option<BlockState> {
        if self.numbers_view().dom().contains(n) {
            self.spec_state_by_hash(self.numbers_view()[n])
        } else {
            None
        }
    }

    pub fn new(
        blocks: Vec<(B256, BlockState)>,
        numbers: Vec<(u64, B256)>,
        pending: Option<BlockState>,
    ) -> (r: Self)
        requires
            wf_parts(blocks@, numbers@),
        ensures
            r.blocks == blocks,
            r.numbers == numbers,
            r.pending == pending,
            r.wf(),
    {
        InMemoryState { blocks, numbers, pending }
    }

    /// The state for a given block hash.
    pub fn state_by_hash(&self, hash: B256) -> (r: Option<Arc<BlockState>>)
        requires
            self.wf(),
        ensures
            match r {
                Some(s) => self.spec_state_by_hash(hash) == Some(*s),
                None => self.spec_state_by_hash(hash) is None,
            },
    {
        match lookup_state(&self.blocks, hash) {
            Some(s) => Some(Arc::new(s.clone())),
            None => None,
        }
    }

    /// The state for a given block number: the number index names a hash,
    /// and the hash index is then consulted for that hash.
    pub fn state_by_number(&self, number: u64) -> (r: Option<Arc<BlockState>>)
        requires
            self.wf(),
        ensures
            match r {
                Some(s) => self.spec_state_by_number(number) == Some(*s),
                None => self.spec_state_by_number(number) is None,
            },
    {
        match lookup_number(&self.numbers, number) {
            Some(hash) => match lookup_state(&self.blocks, hash) {
                Some(s) => Some(Arc::new(s.clone())),
                None => None,
            },
            None => None,
        }
    }

    /// The tracked state with the greatest block number, if any block is
    /// tracked by number.
    pub fn head_state(&self) -> (r: Option<Arc<BlockState>>)
        requires
            self.wf(),
        ensures
            match r {
                Some(s) => exists|n: u64|
                    #[trigger] self.is_head_number(n) && self.spec_state_by_number(n) == Some(*s),
                None => self.numbers@.len() == 0,
            },
    {
        if self.numbers.len() == 0 {
            return None;
        }
        let mut best: usize = 0;
        let mut i: usize = 1;
        while i < self.numbers.len()
            invariant
                best < i,
                i <= self.numbers@.len(),
                forall|j: int|
                    0 <= j < i ==> (#[trigger] self.numbers@[j]).0 <= self.numbers@[best as int].0,
            decreases self.numbers@.len() - i,
        {
            if self.numbers[i].0 > self.numbers[best].0 {
                best = i;
            }
            i = i + 1;
        }
        let n = self.numbers[best].0;
        proof {
            lemma_assoc_at(self.numbers@);
            lemma_assoc_dom(self.numbers@);
            assert(self.numbers_view().dom().contains(n));
            assert forall|m: u64| #[trigger] self.numbers_view().dom().contains(m) implies m
                <= n by {
                let j = choose|j: int|
                    0 <= j < self.numbers@.len() && (#[trigger] self.numbers@[j]).0 == m;
            }
            assert(self.is_head_number(n));
        }
        let r = self.state_by_number(n);
        proof {
            assert(self.numbers_view().dom().contains(n));
            assert(self.blocks_view().dom().contains(self.numbers_view()[n]));
            assert(self.spec_state_by_number(n) is Some);
        }
        r
    }

    /// A copy of the pending state with its parent link dropped: the caller
    /// gets a fresh root state that shares no parent lineage with the
    /// canonical tree.
    pub fn pending_state(&self) -> (r: Option<Arc<BlockState>>)
        ensures
            match r {
                Some(s) => self.pending matches Some(p) && s.spec_block() == p.spec_block()
                    && s.spec_parent() is None,
                None => self.pending is None,
            },
    {
        match &self.pending {
            Some(state) => Some(Arc::new(BlockState::new(state.block()))),
            None => None,
        }
    }

    /// How many states are tracked by hash.
    pub fn block_count(&self) -> (r: usize)
        ensures
            r == self.blocks@.len(),
            self.wf() ==> r == self.blocks_view().dom().len(),
    {
        proof {
            if self.wf() {
                crate::assoc::lemma_assoc_card(self.blocks@);
            }
        }
        self.blocks.len()
    }
}

/// Finds the tracked state filed under `hash`.
fn lookup_state<'a>(blocks: &'a Vec<(B256, BlockState)>, hash: B256) -> (r: Option<&'a BlockState>)
    requires
        unique_keys(blocks@),
    ensures
        match r {
            Some(s) => assoc_map(blocks@).dom().contains(hash) && assoc_map(blocks@)[hash] == *s,
            None => !assoc_map(blocks@).dom().contains(hash),
        },
{
    proof {
        lemma_assoc_dom(blocks@);
        lemma_assoc_at(blocks@);
    }
    let mut i: usize = 0;
    while i < blocks.len()
        invariant
            unique_keys(blocks@),
            i <= blocks@.len(),
            forall|j: int| 0 <= j < i ==> (#[trigger] blocks@[j]).0 != hash,
        decreases blocks@.len() - i,
    {
        if blocks[i].0 == hash {
            proof {
                lemma_assoc_dom(blocks@);
                lemma_assoc_at(blocks@);
                assert(assoc_map(blocks@)[blocks@[i as int].0] == blocks@[i as int].1);
            }
            return Some(&blocks[i].1);
        }
        i = i + 1;
    }
    None
}

/// Finds the hash filed under block number `n`.
fn lookup_number(numbers: &Vec<(u64, B256)>, n: u64) -> (r: Option<B256>)
    requires
        unique_keys(numbers@),
    ensures
        match r {
            Some(h) => assoc_map(numbers@).dom().contains(n) && assoc_map(numbers@)[n] == h,
            None => !assoc_map(numbers@).dom().contains(n),
        },
{
    proof {
        lemma_assoc_dom(numbers@);
        lemma_assoc_at(numbers@);
    }
    let mut i: usize = 0;
    while i < numbers.len()
        invariant
            unique_keys(numbers@),
            i <= numbers@.len(),
            forall|j: int| 0 <= j < i ==> (#[trigger] numbers@[j]).0 != n,
        decreases numbers@.len() - i,
    {
        if numbers[i].0 == n {
            proof {
                lemma_assoc_dom(numbers@);
                lemma_assoc_at(numbers@);
                assert(assoc_map(numbers@)[numbers@[i as int].0] == numbers@[i as int].1);
            }
            return Some(numbers[i].1);
        }
        i = i + 1;
    }
    None
}


/// The hashes of an evicted chain's blocks.
pub open spec fn evicted_hashes(old_chain: Seq<ExecutedBlock>) -> Set<B256> {
    Set::new(
        |h: B256|
            exists|j: int| 0 <= j < old_chain.len() && (#[trigger] old_chain[j]).spec_hash() == h,
    )
}

/// The numbers of an evicted chain's blocks.
pub open spec fn evicted_numbers(old_chain: Seq<ExecutedBlock>) -> Set<u64> {
    Set::new(
        |n: u64|
            exists|j: int| 0 <= j < old_chain.len() && (#[trigger] old_chain[j]).spec_number() == n,
    )
}

/// The state built for block `b` against the tracked map `bm`: the parent is
/// the tracked state under `b`'s parent hash, or none when that hash is not
/// tracked (the block becomes an anchor child).
pub open spec fn linked_state(bm: Map<B256, BlockState>, b: ExecutedBlock) -> BlockState {
    BlockState {
        block: b,
        parent: if bm.dom().contains(b.spec_parent_hash()) {
            Some(Box::new(bm[b.spec_parent_hash()]))
        } else {
            None
        },
    }
}

/// One insertion step of the update protocol.
pub open spec fn insert_step(
    bm: Map<B256, BlockState>,
    nm: Map<u64, B256>,
    b: ExecutedBlock,
) -> (Map<B256, BlockState>, Map<u64, B256>) {
    (bm.insert(b.spec_hash(), linked_state(bm, b)), nm.insert(b.spec_number(), b.spec_hash()))
}

/// The maps after inserting the blocks of `s` in order, each linked against
/// the map as it stood when the block was inserted.
pub open spec fn insert_all(
    bm: Map<B256, BlockState>,
    nm: Map<u64, B256>,
    s: Seq<ExecutedBlock>,
) -> (Map<B256, BlockState>, Map<u64, B256>)
    decreases s.len(),
{
    if s.len() == 0 {
        (bm, nm)
    } else {
        let prev = insert_all(bm, nm, s.drop_last());
        insert_step(prev.0, prev.1, s.last())
    }
}

/// The blocks of `s` form a parent-linked chain, oldest first: each block
/// names the previous block as its parent and carries the next number.
pub open spec fn chain_linked(s: Seq<ExecutedBlock>) -> bool {
    forall|i: int|
        1 <= i < s.len() ==> (#[trigger] s[i]).spec_parent_hash() == s[i - 1].spec_hash()
            && s[i].spec_number() == s[i - 1].spec_number() + 1
}

/// No two blocks of `s` share a hash.
pub open spec fn distinct_hashes(s: Seq<ExecutedBlock>) -> bool {
    forall|i: int, j: int|
        0 <= i < j < s.len() ==> (#[trigger] s[i]).spec_hash() != (#[trigger] s[j]).spec_hash()
}

/// Whether some block of `chain` seals to hash `h`.
pub(crate) fn chain_contains_hash(chain: &Vec<ExecutedBlock>, h: B256) -> (r: bool)
    ensures
        r == evicted_hashes(chain@).contains(h),
{
    let mut i: usize = 0;
    while i < chain.len()
        invariant
            i <= chain@.len(),
            forall|j: int| 0 <= j < i ==> (#[trigger] chain@[j]).spec_hash() != h,
        decreases chain@.len() - i,
    {
        if chain[i].block().hash() == h {
            return true;
        }
        i = i + 1;
    }
    false
}

/// Whether some block of `chain` carries number `n`.
pub(crate) fn chain_contains_number(chain: &Vec<ExecutedBlock>, n: u64) -> (r: bool)
    ensures
        r == evicted_numbers(chain@).contains(n),
{
    let mut i: usize = 0;
    while i < chain.len()
        invariant
            i <= chain@.len(),
            forall|j: int| 0 <= j < i ==> (#[trigger] chain@[j]).spec_number() != n,
        decreases chain@.len() - i,
    {
        if chain[i].block().number() == n {
            return true;
        }
        i = i + 1;
    }
    false
}

/// The hash-index entries that survive evicting the blocks of `reorged`.
fn filter_blocks(blocks: &Vec<(B256, BlockState)>, reorged: &Vec<ExecutedBlock>) -> (r: Vec<
    (B256, BlockState),
>)
    requires
        unique_keys(blocks@),
    ensures
        unique_keys(r@),
        assoc_map(r@) == assoc_map(blocks@).remove_keys(evicted_hashes(reorged@)),
{
    let mut out: Vec<(B256, BlockState)> = Vec::new();
    let mut i: usize = 0;
    while i < blocks.len()
        invariant
            unique_keys(blocks@),
            i <= blocks@.len(),
            unique_keys(out@),
            forall|k: int|
                0 <= k < out@.len() ==> exists|j: int|
                    0 <= j < i && (#[trigger] out@[k]).0 == blocks@[j].0,
            assoc_map(out@) == assoc_map(blocks@.subrange(0, i as int)).remove_keys(
                evicted_hashes(reorged@),
            ),
        decreases blocks@.len() - i,
    {
        let ghost hs = evicted_hashes(reorged@);
        proof {
            assert(blocks@.subrange(0, i + 1 as int).drop_last() == blocks@.subrange(0, i as int));
            assert(blocks@.subrange(0, i + 1 as int).last() == blocks@[i as int]);
            assert(assoc_map(blocks@.subrange(0, i + 1 as int)) == assoc_map(
                blocks@.subrange(0, i as int),
            ).insert(blocks@[i as int].0, blocks@[i as int].1));
        }
        if !chain_contains_hash(reorged, blocks[i].0) {
            proof {
                assert forall|k: int| 0 <= k < out@.len() implies (#[trigger] out@[k]).0
                    != blocks@[i as int].0 by {
                    let j = choose|j: int| 0 <= j < i && (#[trigger] out@[k]).0 == blocks@[j].0;
                }
                lemma_assoc_push(out@, blocks@[i as int].0, blocks@[i as int].1);
                assert(assoc_map(blocks@.subrange(0, i as int)).remove_keys(hs).insert(
                    blocks@[i as int].0,
                    blocks@[i as int].1,
                ) =~= assoc_map(blocks@.subrange(0, i + 1 as int)).remove_keys(hs));
            }
            let entry = (blocks[i].0, blocks[i].1.clone());
            proof {
                assert(entry == blocks@[i as int]);
            }
            out.push(entry);
        } else {
            proof {
                assert(assoc_map(blocks@.subrange(0, i as int)).remove_keys(hs) =~= assoc_map(
                    blocks@.subrange(0, i + 1 as int),
                ).remove_keys(hs));
            }
        }
        i = i + 1;
    }
    proof {
        assert(blocks@.subrange(0, blocks@.len() as int) == blocks@);
    }
    out
}

/// The number-index entries that survive evicting the blocks of `reorged`.
fn filter_numbers(numbers: &Vec<(u64, B256)>, reorged: &Vec<ExecutedBlock>) -> (r: Vec<
    (u64, B256),
>)
    requires
        unique_keys(numbers@),
    ensures
        unique_keys(r@),
        assoc_map(r@) == assoc_map(numbers@).remove_keys(evicted_numbers(reorged@)),
{
    let mut out: Vec<(u64, B256)> = Vec::new();
    let mut i: usize = 0;
    while i < numbers.len()
        invariant
            unique_keys(numbers@),
            i <= numbers@.len(),
            unique_keys(out@),
            forall|k: int|
                0 <= k < out@.len() ==> exists|j: int|
                    0 <= j < i && (#[trigger] out@[k]).0 == numbers@[j].0,
            assoc_map(out@) == assoc_map(numbers@.subrange(0, i as int)).remove_keys(
                evicted_numbers(reorged@),
            ),
        decreases numbers@.len() - i,
    {
        let ghost ns = evicted_numbers(reorged@);
        proof {
            assert(numbers@.subrange(0, i + 1 as int).drop_last() == numbers@.subrange(
                0,
                i as int,
            ));
            assert(numbers@.subrange(0, i + 1 as int).last() == numbers@[i as int]);
        }
        if !chain_contains_number(reorged, numbers[i].0) {
            proof {
                assert forall|k: int| 0 <= k < out@.len() implies (#[trigger] out@[k]).0
                    != numbers@[i as int].0 by {
                    let j = choose|j: int| 0 <= j < i && (#[trigger] out@[k]).0 == numbers@[j].0;
                }
                lemma_assoc_push(out@, numbers@[i as int].0, numbers@[i as int].1);
                assert(assoc_map(numbers@.subrange(0, i as int)).remove_keys(ns).insert(
                    numbers@[i as int].0,
                    numbers@[i as int].1,
                ) =~= assoc_map(numbers@.subrange(0, i + 1 as int)).remove_keys(ns));
            }
            out.push((numbers[i].0, numbers[i].1));
        } else {
            proof {
                assert(assoc_map(numbers@.subrange(0, i as int)).remove_keys(ns) =~= assoc_map(
                    numbers@.subrange(0, i + 1 as int),
                ).remove_keys(ns));
            }
        }
        i = i + 1;
    }
    proof {
        assert(numbers@.subrange(0, numbers@.len() as int) == numbers@);
    }
    out
}

/// The index of the entry filed under `h`, if one exists.
fn find_hash_entry(blocks: &Vec<(B256, BlockState)>, h: B256) -> (r: Option<usize>)
    ensures
        match r {
            Some(j) => j < blocks@.len() && blocks@[j as int].0 == h,
            None => forall|k: int| 0 <= k < blocks@.len() ==> (#[trigger] blocks@[k]).0 != h,
        },
{
    let mut i: usize = 0;
    while i < blocks.len()
        invariant
            i <= blocks@.len(),
            forall|k: int| 0 <= k < i ==> (#[trigger] blocks@[k]).0 != h,
        decreases blocks@.len() - i,
    {
        if blocks[i].0 == h {
            return Some(i);
        }
        i = i + 1;
    }
    None
}

/// The index of the entry filed under number `n`, if one exists.
fn find_number_entry(numbers: &Vec<(u64, B256)>, n: u64) -> (r: Option<usize>)
    ensures
        match r {
            Some(j) => j < numbers@.len() && numbers@[j as int].0 == n,
            None => forall|k: int| 0 <= k < numbers@.len() ==> (#[trigger] numbers@[k]).0 != n,
        },
{
    let mut i: usize = 0;
    while i < numbers.len()
        invariant
            i <= numbers@.len(),
            forall|k: int| 0 <= k < i ==> (#[trigger] numbers@[k]).0 != n,
        decreases numbers@.len() - i,
    {
        if numbers[i].0 == n {
            return Some(i);
        }
        i = i + 1;
    }
    None
}

/// Inserts the blocks of `new_blocks` in order, linking each to the tracked
/// state under its parent hash as the indexes stand at that moment.
fn insert_chain(
    blocks: Vec<(B256, BlockState)>,
    numbers: Vec<(u64, B256)>,
    new_blocks: &Vec<ExecutedBlock>,
) -> (r: (Vec<(B256, BlockState)>, Vec<(u64, B256)>))
    requires
        unique_keys(blocks@),
        unique_keys(numbers@),
    ensures
        unique_keys(r.0@),
        unique_keys(r.1@),
        assoc_map(r.0@) == insert_all(assoc_map(blocks@), assoc_map(numbers@), new_blocks@).0,
        assoc_map(r.1@) == insert_all(assoc_map(blocks@), assoc_map(numbers@), new_blocks@).1,
{
    let ghost bm0 = assoc_map(blocks@);
    let ghost nm0 = assoc_map(numbers@);
    let mut blocks = blocks;
    let mut numbers = numbers;
    let mut i: usize = 0;
    while i < new_blocks.len()
        invariant
            i <= new_blocks@.len(),
            unique_keys(blocks@),
            unique_keys(numbers@),
            assoc_map(blocks@) == insert_all(bm0, nm0, new_blocks@.subrange(0, i as int)).0,
            assoc_map(numbers@) == insert_all(bm0, nm0, new_blocks@.subrange(0, i as int)).1,
        decreases new_blocks@.len() - i,
    {
        let ghost bmi = assoc_map(blocks@);
        let ghost nmi = assoc_map(numbers@);
        proof {
            assert(new_blocks@.subrange(0, i + 1 as int).drop_last() == new_blocks@.subrange(
                0,
                i as int,
            ));
            assert(new_blocks@.subrange(0, i + 1 as int).last() == new_blocks@[i as int]);
        }
        let block = new_blocks[i].clone();
        let parent_hash = block.block().parent_hash();
        let parent: Option<BlockState> = match lookup_state(&blocks, parent_hash) {
            Some(p) => Some(p.clone()),
            None => None,
        };
        let state = BlockState::with_parent(block, parent);
        proof {
            assert(state == linked_state(bmi, new_blocks@[i as int]));
        }
        let hash = state.hash();
        let number = state.number();
        match find_hash_entry(&blocks, hash) {
            Some(j) => {
                proof {
                    lemma_assoc_update(blocks@, j as int, state);
                }
                blocks.set(j, (hash, state));
            },
            None => {
                proof {
                    lemma_assoc_push(blocks@, hash, state);
                }
                blocks.push((hash, state));
            },
        }
        match find_number_entry(&numbers, number) {
            Some(j) => {
                proof {
                    lemma_assoc_update(numbers@, j as int, hash);
                }
                numbers.set(j, (number, hash));
            },
            None => {
                proof {
                    lemma_assoc_push(numbers@, number, hash);
                }
                numbers.push((number, hash));
            },
        }
        proof {
            assert(assoc_map(blocks@) == insert_step(bmi, nmi, new_blocks@[i as int]).0);
            assert(assoc_map(numbers@) == insert_step(bmi, nmi, new_blocks@[i as int]).1);
        }
        i = i + 1;
    }
    proof {
        assert(new_blocks@.subrange(0, new_blocks@.len() as int) == new_blocks@);
    }
    (blocks, numbers)
}

impl InMemoryState {
    /// Applies one transition to the indexes: evicts the reorged blocks,
    /// inserts the new blocks in order (each linked to the tracked state
    /// under its parent hash, which may be a block inserted earlier in this
    /// same step), and clears the pending slot.
    pub(crate) fn update_blocks(&mut self, new_blocks: Vec<ExecutedBlock>, reorged: Vec<
        ExecutedBlock,
    >)
        requires
            unique_keys(old(self).blocks@),
            unique_keys(old(self).numbers@),
        ensures
            unique_keys(final(self).blocks@),
            unique_keys(final(self).numbers@),
            final(self).blocks_view() == insert_all(
                old(self).blocks_view().remove_keys(evicted_hashes(reorged@)),
                old(self).numbers_view().remove_keys(evicted_numbers(reorged@)),
                new_blocks@,
            ).0,
            final(self).numbers_view() == insert_all(
                old(self).blocks_view().remove_keys(evicted_hashes(reorged@)),
                old(self).numbers_view().remove_keys(evicted_numbers(reorged@)),
                new_blocks@,
            ).1,
            final(self).pending is None,
    {
        let kept_blocks = filter_blocks(&self.blocks, &reorged);
        let kept_numbers = filter_numbers(&self.numbers, &reorged);
        let (blocks, numbers) = insert_chain(kept_blocks, kept_numbers, &new_blocks);
        self.blocks = blocks;
        self.numbers = numbers;
        self.pending = None;
    }
}


/// Along a parent-linked chain of blocks the numbers advance by exactly one.
pub proof fn lemma_chain_numbers(s: Seq<ExecutedBlock>, i: int, j: int)
    requires
        chain_linked(s),
        0 <= i <= j < s.len(),
    ensures
        s[i].spec_number() + (j - i) == s[j].spec_number(),
    decreases j - i,
{
    if i < j {
        lemma_chain_numbers(s, i, j - 1);
    }
}

/// Evicting a chain whose blocks carry the numbers they are tracked under
/// keeps the two indexes consistent: no surviving number entry can point at
/// an evicted hash.
pub proof fn lemma_remove_consistent(
    bm: Map<B256, BlockState>,
    nm: Map<u64, B256>,
    old_chain: Seq<ExecutedBlock>,
)
    requires
        indexes_consistent(bm, nm),
        forall|j: int|
            0 <= j < old_chain.len() ==> (bm.dom().contains(
                (#[trigger] old_chain[j]).spec_hash(),
            ) ==> bm[old_chain[j].spec_hash()].spec_number() == old_chain[j].spec_number()),
    ensures
        indexes_consistent(
            bm.remove_keys(evicted_hashes(old_chain)),
            nm.remove_keys(evicted_numbers(old_chain)),
        ),
{
    let bm2 = bm.remove_keys(evicted_hashes(old_chain));
    let nm2 = nm.remove_keys(evicted_numbers(old_chain));
    assert forall|n: u64| nm2.dom().contains(n) implies bm2.dom().contains(#[trigger] nm2[n])
        && bm2[nm2[n]].spec_number() == n by {
        let h = nm[n];
        assert(bm.dom().contains(h) && bm[h].spec_number() == n);
        if evicted_hashes(old_chain).contains(h) {
            let j = choose|j: int|
                0 <= j < old_chain.len() && (#[trigger] old_chain[j]).spec_hash() == h;
            assert(bm[h].spec_number() == old_chain[j].spec_number());
            assert(evicted_numbers(old_chain).contains(n));
        }
    }
}

/// The effect of inserting a fresh, hash-distinct block sequence: existing
/// entries survive unchanged, every inserted block is resolvable by its own
/// hash, the last block owns its number slot, the indexes stay consistent,
/// and closure of the hash index under parent links is preserved.
pub proof fn lemma_insert_all_props(
    bm: Map<B256, BlockState>,
    nm: Map<u64, B256>,
    s: Seq<ExecutedBlock>,
)
    requires
        indexes_consistent(bm, nm),
        forall|i: int| 0 <= i < s.len() ==> !bm.dom().contains((#[trigger] s[i]).spec_hash()),
        distinct_hashes(s),
    ensures
        ({
            let (bm2, nm2) = insert_all(bm, nm, s);
            &&& indexes_consistent(bm2, nm2)
            &&& forall|h: B256|
                #[trigger] bm.dom().contains(h) ==> bm2.dom().contains(h) && bm2[h] == bm[h]
            &&& forall|h: B256|
                #[trigger] bm2.dom().contains(h) ==> bm.dom().contains(h) || exists|i: int|
                    0 <= i < s.len() && (#[trigger] s[i]).spec_hash() == h
            &&& forall|i: int|
                0 <= i < s.len() ==> bm2.dom().contains((#[trigger] s[i]).spec_hash())
                    && bm2[s[i].spec_hash()].spec_block() == s[i]
            &&& forall|n: u64| nm.dom().contains(n) ==> #[trigger] nm2.dom().contains(n)
            &&& forall|i: int|
                0 <= i < s.len() ==> nm2.dom().contains((#[trigger] s[i]).spec_number())
            &&& forall|n: u64|
                #[trigger] nm2.dom().contains(n) ==> (nm.dom().contains(n) && nm2[n] == nm[n])
                    || exists|i: int|
                    0 <= i < s.len() && (#[trigger] s[i]).spec_number() == n && nm2[n]
                        == s[i].spec_hash()
            &&& s.len() > 0 ==> nm2.dom().contains(s.last().spec_number()) && nm2[s.last().spec_number()]
                == s.last().spec_hash()
            &&& (map_closed(bm) ==> map_closed(bm2))
        }),
    decreases s.len(),
{
    if s.len() > 0 {
        let t = s.drop_last();
        let b = s.last();
        assert(distinct_hashes(t)) by {
            assert(forall|i: int| 0 <= i < t.len() ==> t[i] == s[i]);
        }
        assert(forall|i: int|
            0 <= i < t.len() ==> !bm.dom().contains((#[trigger] t[i]).spec_hash()));
        lemma_insert_all_props(bm, nm, t);
        let (bm1, nm1) = insert_all(bm, nm, t);
        let (bm2, nm2) = insert_all(bm, nm, s);
        let st = linked_state(bm1, b);
        assert(bm2 == bm1.insert(b.spec_hash(), st));
        assert(nm2 == nm1.insert(b.spec_number(), b.spec_hash()));
        // the last block's hash is new to the intermediate map
        assert(!bm1.dom().contains(b.spec_hash())) by {
            assert(!bm.dom().contains(s[s.len() - 1].spec_hash()));
            if bm1.dom().contains(b.spec_hash()) {
                let i = choose|i: int|
                    0 <= i < t.len() && (#[trigger] t[i]).spec_hash() == b.spec_hash();
                assert(s[i].spec_hash() == s[s.len() - 1].spec_hash());
            }
        }
        assert(st.spec_hash() == b.spec_hash());
        assert(st.hash_linked());
        assert forall|h: B256| bm.dom().contains(h) implies bm2.dom().contains(h) && (
        #[trigger] bm2[h]) == bm[h] by {
            assert(insert_all(bm, nm, t).0.dom().contains(h) && insert_all(bm, nm, t).0[h] == bm[h]);
            assert(h != b.spec_hash());
        }
        // consistency of the number index after the final insertion
        assert forall|n: u64| nm2.dom().contains(n) implies bm2.dom().contains(#[trigger] nm2[n])
            && bm2[nm2[n]].spec_number() == n by {
            if n == b.spec_number() {
                assert(nm2[n] == b.spec_hash());
            } else {
                assert(nm2[n] == nm1[n]);
                assert(bm1.dom().contains(nm1[n]) && bm1[nm1[n]].spec_number() == n);
                assert(nm1[n] != b.spec_hash());
            }
        }
        assert(indexes_consistent(bm2, nm2));
        // resolvability of each inserted block
        assert forall|i: int| 0 <= i < s.len() implies bm2.dom().contains(
            (#[trigger] s[i]).spec_hash(),
        ) && bm2[s[i].spec_hash()].spec_block() == s[i] by {
            if i < s.len() - 1 {
                assert(t[i] == s[i]);
                assert(s[i].spec_hash() != b.spec_hash());
            }
        }
        // closure is preserved: a fresh insertion overwrites nobody's parent
        if map_closed(bm) {
            assert forall|h: B256| bm2.dom().contains(h) implies match (#[trigger] bm2[h]).spec_parent() {
                None => true,
                Some(p) => bm2.dom().contains(p.spec_hash()) && bm2[p.spec_hash()] == *p,
            } by {
                if h == b.spec_hash() {
                    match st.spec_parent() {
                        None => {},
                        Some(p) => {
                            assert(bm1.dom().contains(b.spec_parent_hash()));
                            assert(*p == bm1[b.spec_parent_hash()]);
                            assert(p.spec_hash() == b.spec_parent_hash());
                            assert(p.spec_hash() != b.spec_hash());
                        },
                    }
                } else {
                    assert(bm2[h] == bm1[h]);
                    match bm1[h].spec_parent() {
                        None => {},
                        Some(p) => {
                            assert(bm1.dom().contains(p.spec_hash()) && bm1[p.spec_hash()] == *p);
                            assert(p.spec_hash() != b.spec_hash());
                        },
                    }
                }
            }
        }
    }
}

/// When the inserted blocks form a parent-linked chain whose first block
/// either joins a sound tracked parent of a smaller number or starts at the
/// anchor, every inserted state has sound parent links.
pub proof fn lemma_insert_all_sound(
    bm: Map<B256, BlockState>,
    nm: Map<u64, B256>,
    s: Seq<ExecutedBlock>,
)
    requires
        indexes_consistent(bm, nm),
        forall|i: int| 0 <= i < s.len() ==> !bm.dom().contains((#[trigger] s[i]).spec_hash()),
        distinct_hashes(s),
        chain_linked(s),
        s.len() > 0 ==> (bm.dom().contains(s[0].spec_parent_hash()) ==> bm[s[0].spec_parent_hash()].spec_number()
            < s[0].spec_number() && bm[s[0].spec_parent_hash()].sound_links()),
    ensures
        forall|i: int|
            0 <= i < s.len() ==> insert_all(bm, nm, s).0.dom().contains(
                (#[trigger] s[i]).spec_hash(),
            ) && insert_all(bm, nm, s).0[s[i].spec_hash()].sound_links(),
    decreases s.len(),
{
    if s.len() > 0 {
        let t = s.drop_last();
        let b = s.last();
        assert(distinct_hashes(t) && chain_linked(t)) by {
            assert(forall|i: int| 0 <= i < t.len() ==> t[i] == s[i]);
        }
        assert(forall|i: int|
            0 <= i < t.len() ==> !bm.dom().contains((#[trigger] t[i]).spec_hash()));
        lemma_insert_all_sound(bm, nm, t);
        lemma_insert_all_props(bm, nm, t);
        lemma_insert_all_props(bm, nm, s);
        let (bm1, nm1) = insert_all(bm, nm, t);
        let (bm2, nm2) = insert_all(bm, nm, s);
        let st = linked_state(bm1, b);
        assert(bm2 == bm1.insert(b.spec_hash(), st));
        assert(st.sound_links()) by {
            if s.len() == 1 {
                assert(bm1 == bm);
                match st.spec_parent() {
                    None => {},
                    Some(p) => {
                        assert(*p == bm[s[0].spec_parent_hash()]);
                    },
                }
            } else {
                assert(b.spec_parent_hash() == s[s.len() - 2].spec_hash());
                assert(t[s.len() - 2] == s[s.len() - 2]);
                assert(bm1.dom().contains(s[s.len() - 2].spec_hash()));
                assert(bm1[s[s.len() - 2].spec_hash()].sound_links());
                assert(bm1[s[s.len() - 2].spec_hash()].spec_block() == s[s.len() - 2]);
                match st.spec_parent() {
                    None => {},
                    Some(p) => {
                        assert(*p == bm1[b.spec_parent_hash()]);
                        assert(p.spec_number() + 1 == b.spec_number());
                    },
                }
            }
        }
        assert forall|i: int| 0 <= i < s.len() implies bm2.dom().contains(
            (#[trigger] s[i]).spec_hash(),
        ) && bm2[s[i].spec_hash()].sound_links() by {
            if i < s.len() - 1 {
                assert(t[i] == s[i]);
                assert(s[i].spec_hash() != b.spec_hash());
                assert(bm2[s[i].spec_hash()] == bm1[s[i].spec_hash()]);
            }
        }
    }
}

/// In a hash index closed under parent links, the whole chain of any tracked
/// state consists of tracked states, each filed under its own hash.
pub proof fn lemma_closed_chain(bm: Map<B256, BlockState>, s: BlockState)
    requires
        map_closed(bm),
        bm.dom().contains(s.spec_hash()),
        bm[s.spec_hash()] == s,
    ensures
        forall|i: int|
            0 <= i < s.chain_spec().len() ==> bm.dom().contains(
                (#[trigger] s.chain_spec()[i]).spec_hash(),
            ) && bm[s.chain_spec()[i].spec_hash()] == s.chain_spec()[i],
    decreases s,
{
    match s.spec_parent() {
        None => {},
        Some(p) => {
            assert(bm.dom().contains(p.spec_hash()) && bm[p.spec_hash()] == *p);
            lemma_closed_chain(bm, *p);
            assert(s.chain_spec() == p.chain_spec().push(s));
        },
    }
}


/// The blocks of `s` are ordered by ascending block number.
pub open spec fn sorted_by_number(s: Seq<ExecutedBlock>) -> bool {
    forall|a: int, b: int|
        0 <= a <= b < s.len() ==> (#[trigger] s[a]).spec_number() <= (#[trigger] s[b]).spec_number()
}

/// Sorts blocks by ascending block number; the result holds exactly the
/// blocks given, as a bag.
fn sort_by_number(items: Vec<ExecutedBlock>) -> (r: Vec<ExecutedBlock>)
    ensures
        r@.to_multiset() == items@.to_multiset(),
        sorted_by_number(r@),
{
    let ghost orig = items@;
    let mut items = items;
    let mut out: Vec<ExecutedBlock> = Vec::new();
    proof {
        broadcast use vstd::seq_lib::group_to_multiset_ensures;

        assert(out@.to_multiset().add(items@.to_multiset()) =~= orig.to_multiset());
    }
    while items.len() > 0
        invariant
            out@.to_multiset().add(items@.to_multiset()) == orig.to_multiset(),
            sorted_by_number(out@),
            forall|a: int, b: int|
                0 <= a < out@.len() && 0 <= b < items@.len() ==> (#[trigger] out@[a]).spec_number()
                    <= (#[trigger] items@[b]).spec_number(),
        decreases items@.len(),
    {
        let mut m: usize = 0;
        let mut j: usize = 1;
        while j < items.len()
            invariant
                m < j,
                j <= items@.len(),
                0 < items@.len(),
                forall|k: int|
                    0 <= k < j ==> (#[trigger] items@[m as int]).spec_number() <= items@[k].spec_number(),
            decreases items@.len() - j,
        {
            if items[j].block().number() < items[m].block().number() {
                m = j;
            }
            j = j + 1;
        }
        let ghost pre_out = out@;
        let ghost pre_items = items@;
        let x = items.remove(m);
        out.push(x);
        proof {
            broadcast use vstd::seq_lib::group_to_multiset_ensures;
            broadcast use vstd::multiset::group_multiset_axioms;

            assert(pre_items.to_multiset().count(x) > 0) by {
                assert(pre_items.contains(x));
            }
            assert(items@.to_multiset() == pre_items.to_multiset().remove(x));
            assert(out@.to_multiset() == pre_out.to_multiset().insert(x));
            assert(out@.to_multiset().add(items@.to_multiset()) =~= pre_out.to_multiset().add(
                pre_items.to_multiset(),
            ));
        }
    }
    proof {
        broadcast use vstd::seq_lib::group_to_multiset_ensures;
        broadcast use vstd::multiset::group_multiset_axioms;

        assert(items@.to_multiset() =~= vstd::multiset::Multiset::empty());
        assert(out@.to_multiset() =~= orig.to_multiset());
    }
    out
}

impl InMemoryState {
    /// Evicts every block whose number is at or below `persisted_height` and
    /// re-links the surviving blocks from scratch: the number index is
    /// rebuilt from the survivors, and each survivor is re-inserted in
    /// ascending number order with its parent re-derived from the blocks
    /// already re-inserted, so that no surviving state's chain references an
    /// evicted block. The pending slot is left as it is.
    pub(crate) fn remove_persisted_blocks(&mut self, persisted_height: u64)
        requires
            old(self).wf(),
        ensures
            final(self).wf(),
            final(self).pending == old(self).pending,
            forall|h: B256|
                #[trigger] final(self).blocks_view().dom().contains(h) <==> (
                old(self).blocks_view().dom().contains(h) && old(self).blocks_view()[h].spec_number()
                    > persisted_height),
            forall|h: B256|
                #[trigger] final(self).blocks_view().dom().contains(h)
                    ==> final(self).blocks_view()[h].spec_block()
                    == old(self).blocks_view()[h].spec_block(),
            forall|n: u64|
                #[trigger] final(self).numbers_view().dom().contains(n) <==> exists|h: B256|
                    #[trigger] final(self).blocks_view().dom().contains(h)
                        && final(self).blocks_view()[h].spec_number() == n,
            map_closed(final(self).blocks_view()),
            // each survivor is re-linked against the re-inserted set: no
            // link is kept to an evicted block or to a survivor of a higher
            // number, and a survivor whose parent hash names a survivor of a
            // smaller number is linked to exactly that survivor
            forall|h: B256|
                #[trigger] final(self).blocks_view().dom().contains(h) && !final(self).blocks_view().dom().contains(final(self).blocks_view()[h].spec_parent_hash())
                    ==> final(self).blocks_view()[h].spec_parent() is None,
            forall|h: B256|
                #[trigger] final(self).blocks_view().dom().contains(h) && final(self).blocks_view().dom().contains(final(self).blocks_view()[h].spec_parent_hash())
                    && final(self).blocks_view()[final(self).blocks_view()[h].spec_parent_hash()].spec_number()
                    < final(self).blocks_view()[h].spec_number() ==> final(self).blocks_view()[h].parent_is(
                    final(self).blocks_view()[final(self).blocks_view()[h].spec_parent_hash()],
                ),
            forall|h: B256|
                #[trigger] final(self).blocks_view().dom().contains(h) && final(self).blocks_view().dom().contains(final(self).blocks_view()[h].spec_parent_hash())
                    && final(self).blocks_view()[final(self).blocks_view()[h].spec_parent_hash()].spec_number()
                    > final(self).blocks_view()[h].spec_number() ==> final(self).blocks_view()[h].spec_parent() is None,
    {
        let ghost old_blocks = self.blocks@;
        let mut retained: Vec<ExecutedBlock> = Vec::new();
        let blocks_ref = &self.blocks;
        let mut i: usize = 0;
        proof {
            lemma_assoc_at(old_blocks);
            lemma_assoc_dom(old_blocks);
        }
        while i < blocks_ref.len()
            invariant
                blocks_ref@ == old_blocks,
                unique_keys(old_blocks),
                forall|j: int|
                    0 <= j < old_blocks.len() ==> (#[trigger] old_blocks[j]).1.spec_hash()
                        == old_blocks[j].0,
                i <= old_blocks.len(),
                forall|k: int|
                    0 <= k < retained@.len() ==> exists|j: int|
                        0 <= j < i && (#[trigger] retained@[k]) == old_blocks[j].1.spec_block()
                            && retained@[k].spec_hash() == old_blocks[j].0
                            && retained@[k].spec_number() > persisted_height,
                forall|j: int|
                    0 <= j < i && (#[trigger] old_blocks[j]).1.spec_number() > persisted_height
                        ==> exists|k: int|
                        0 <= k < retained@.len() && (#[trigger] retained@[k]) == old_blocks[j].1.spec_block(),
                distinct_hashes(retained@),
            decreases old_blocks.len() - i,
        {
            if blocks_ref[i].1.number() > persisted_height {
                proof {
                    assert forall|k: int| 0 <= k < retained@.len() implies (
                    #[trigger] retained@[k]).spec_hash() != old_blocks[i as int].0 by {
                        let j = choose|j: int|
                            0 <= j < i && (#[trigger] retained@[k]) == old_blocks[j].1.spec_block()
                                && retained@[k].spec_hash() == old_blocks[j].0 && retained@[k].spec_number() > persisted_height;
                    }
                }
                let ghost pre_retained = retained@;
                retained.push(blocks_ref[i].1.block());
                proof {
                    assert(retained@[pre_retained.len() as int] == old_blocks[i as int].1.spec_block());
                    assert forall|j: int|
                        0 <= j < i + 1 && (#[trigger] old_blocks[j]).1.spec_number()
                            > persisted_height implies exists|k: int|
                        0 <= k < retained@.len() && (#[trigger] retained@[k]) == old_blocks[j].1.spec_block() by {
                        if j < i {
                            let k = choose|k: int|
                                0 <= k < pre_retained.len() && (#[trigger] pre_retained[k])
                                    == old_blocks[j].1.spec_block();
                            assert(retained@[k] == old_blocks[j].1.spec_block());
                        } else {
                            assert(retained@[pre_retained.len() as int] == old_blocks[j].1.spec_block());
                        }
                    }
                }
            }
            i = i + 1;
        }
        let sorted = sort_by_number(retained);
        proof {
            broadcast use vstd::seq_lib::group_to_multiset_ensures;

            retained@.lemma_multiset_has_no_duplicates();
            sorted@.lemma_multiset_has_no_duplicates_conv();
            assert forall|x: ExecutedBlock| #[trigger] sorted@.contains(x) implies retained@.contains(
                x,
            ) by {
                assert(sorted@.to_multiset().count(x) > 0);
            }
            assert forall|x: ExecutedBlock| #[trigger] retained@.contains(x) implies sorted@.contains(
                x,
            ) by {
                assert(retained@.to_multiset().count(x) > 0);
            }
            assert forall|a: int, b: int| 0 <= a < b < sorted@.len() implies (
            #[trigger] sorted@[a]).spec_hash() != (#[trigger] sorted@[b]).spec_hash() by {
                assert(sorted@[a] != sorted@[b]);
                assert(sorted@.contains(sorted@[a]) && sorted@.contains(sorted@[b]));
                assert(retained@.contains(sorted@[a]) && retained@.contains(sorted@[b]));
                let ka = choose|ka: int|
                    0 <= ka < retained@.len() && retained@[ka] == sorted@[a];
                let kb = choose|kb: int|
                    0 <= kb < retained@.len() && retained@[kb] == sorted@[b];
            }
        }
        let (blocks, numbers) = insert_chain(Vec::new(), Vec::new(), &sorted);
        proof {
            let bm0 = assoc_map(Seq::<(B256, BlockState)>::empty());
            let nm0 = assoc_map(Seq::<(u64, B256)>::empty());
            assert(bm0 =~= Map::<B256, BlockState>::empty());
            assert(nm0 =~= Map::<u64, B256>::empty());
            lemma_insert_all_props(bm0, nm0, sorted@);
            lemma_insert_all_parents(bm0, nm0, sorted@);
        }
        self.blocks = blocks;
        self.numbers = numbers;
        proof {
            // parent re-derivation: positional facts about the ascending
            // insertion, read back as number ordering
            let bm0 = assoc_map(Seq::<(B256, BlockState)>::empty());
            let nm0 = assoc_map(Seq::<(u64, B256)>::empty());
            let new_bm = self.blocks_view();
            assert(new_bm == insert_all(bm0, nm0, sorted@).0);
            assert forall|h: B256|
                #[trigger] new_bm.dom().contains(h) && !new_bm.dom().contains(
                    new_bm[h].spec_parent_hash(),
                ) implies new_bm[h].spec_parent() is None by {
                let i = choose|i: int|
                    0 <= i < sorted@.len() && (#[trigger] sorted@[i]).spec_hash() == h;
                assert(new_bm[h].spec_block() == sorted@[i]);
                let ph = sorted@[i].spec_parent_hash();
                assert(!(exists|j: int|
                    0 <= j < i && (#[trigger] sorted@[j]).spec_hash() == ph)) by {
                    if exists|j: int| 0 <= j < i && (#[trigger] sorted@[j]).spec_hash() == ph {
                        let j = choose|j: int|
                            0 <= j < i && (#[trigger] sorted@[j]).spec_hash() == ph;
                        assert(new_bm.dom().contains(sorted@[j].spec_hash()));
                    }
                }
            }
            assert forall|h: B256|
                #[trigger] new_bm.dom().contains(h) && new_bm.dom().contains(
                    new_bm[h].spec_parent_hash(),
                ) && new_bm[new_bm[h].spec_parent_hash()].spec_number() < new_bm[h].spec_number() implies new_bm[h].parent_is(
                new_bm[new_bm[h].spec_parent_hash()],
            ) by {
                let i = choose|i: int|
                    0 <= i < sorted@.len() && (#[trigger] sorted@[i]).spec_hash() == h;
                assert(new_bm[h].spec_block() == sorted@[i]);
                let ph = sorted@[i].spec_parent_hash();
                let j = choose|j: int|
                    0 <= j < sorted@.len() && (#[trigger] sorted@[j]).spec_hash() == ph;
                assert(new_bm[ph].spec_block() == sorted@[j]);
                assert(j < i) by {
                    if i <= j {
                        assert(sorted@[i].spec_number() <= sorted@[j].spec_number());
                    }
                }
                assert(exists|j2: int|
                    0 <= j2 < i && (#[trigger] sorted@[j2]).spec_hash() == ph);
            }
            assert forall|h: B256|
                #[trigger] new_bm.dom().contains(h) && new_bm.dom().contains(
                    new_bm[h].spec_parent_hash(),
                ) && new_bm[new_bm[h].spec_parent_hash()].spec_number() > new_bm[h].spec_number() implies new_bm[h].spec_parent() is None by {
                let i = choose|i: int|
                    0 <= i < sorted@.len() && (#[trigger] sorted@[i]).spec_hash() == h;
                assert(new_bm[h].spec_block() == sorted@[i]);
                let ph = sorted@[i].spec_parent_hash();
                let j = choose|j: int|
                    0 <= j < sorted@.len() && (#[trigger] sorted@[j]).spec_hash() == ph;
                assert(new_bm[ph].spec_block() == sorted@[j]);
                assert(i < j) by {
                    if j <= i {
                        assert(sorted@[j].spec_number() <= sorted@[i].spec_number());
                    }
                }
                assert(!(exists|j2: int|
                    0 <= j2 < i && (#[trigger] sorted@[j2]).spec_hash() == ph)) by {
                    if exists|j2: int| 0 <= j2 < i && (#[trigger] sorted@[j2]).spec_hash() == ph {
                        let j2 = choose|j2: int|
                            0 <= j2 < i && (#[trigger] sorted@[j2]).spec_hash() == ph;
                        assert(sorted@[j2].spec_hash() == sorted@[j].spec_hash());
                        assert(j2 != j);
                    }
                }
            }
        }
        proof {
            let old_bm = assoc_map(old_blocks);
            let new_bm = self.blocks_view();
            let new_nm = self.numbers_view();
            lemma_assoc_at(old_blocks);
            lemma_assoc_dom(old_blocks);
            // survivors: exactly the tracked blocks above the height
            assert forall|h: B256| #[trigger] new_bm.dom().contains(h) implies
                old_bm.dom().contains(h) && old_bm[h].spec_number() > persisted_height && new_bm[h].spec_block() == old_bm[h].spec_block() by {
                let i0 = choose|i0: int|
                    0 <= i0 < sorted@.len() && (#[trigger] sorted@[i0]).spec_hash() == h;
                let x = sorted@[i0];
                assert(sorted@.contains(x));
                assert(retained@.contains(x));
                let k = choose|k: int| 0 <= k < retained@.len() && retained@[k] == x;
                let j = choose|j: int|
                    0 <= j < old_blocks.len() && (#[trigger] retained@[k]) == old_blocks[j].1.spec_block() && retained@[k].spec_hash() == old_blocks[j].0 && retained@[k].spec_number() > persisted_height;
                assert(old_bm.dom().contains(h) && old_bm[h] == old_blocks[j].1);
                assert(new_bm[h].spec_block() == x);
            }
            assert forall|h: B256|
                old_bm.dom().contains(h) && (#[trigger] old_bm[h]).spec_number()
                    > persisted_height implies new_bm.dom().contains(h) by {
                let j = choose|j: int|
                    0 <= j < old_blocks.len() && (#[trigger] old_blocks[j]).0 == h;
                assert(old_blocks[j].1 == old_bm[h]);
                assert(old_blocks[j].1.spec_number() > persisted_height);
                let k = choose|k: int|
                    0 <= k < retained@.len() && (#[trigger] retained@[k]) == old_blocks[j].1.spec_block();
                assert(retained@.contains(retained@[k]));
                assert(sorted@.contains(retained@[k]));
                let i0 = choose|i0: int|
                    0 <= i0 < sorted@.len() && sorted@[i0] == retained@[k];
                assert(sorted@[i0].spec_hash() == h);
                assert(new_bm.dom().contains(sorted@[i0].spec_hash()));
            }
            // the number index holds exactly the survivors' numbers
            assert forall|n: u64| #[trigger] new_nm.dom().contains(n) implies exists|h: B256|
                #[trigger] new_bm.dom().contains(h) && new_bm[h].spec_number() == n by {
                let i0 = choose|i0: int|
                    0 <= i0 < sorted@.len() && (#[trigger] sorted@[i0]).spec_number() == n;
                assert(new_bm.dom().contains(sorted@[i0].spec_hash()));
                assert(new_bm[sorted@[i0].spec_hash()].spec_block() == sorted@[i0]);
            }
            assert forall|n: u64|
                (exists|h: B256|
                    #[trigger] new_bm.dom().contains(h) && new_bm[h].spec_number()
                        == n) implies #[trigger] new_nm.dom().contains(n) by {
                let h = choose|h: B256|
                    #[trigger] new_bm.dom().contains(h) && new_bm[h].spec_number() == n;
                let i0 = choose|i0: int|
                    0 <= i0 < sorted@.len() && (#[trigger] sorted@[i0]).spec_hash() == h;
                assert(new_bm[h].spec_block() == sorted@[i0]);
                assert(sorted@[i0].spec_number() == n);
            }
        }
    }
}


/// Where each inserted state's parent link comes from: the pre-tracked state
/// under its parent hash, the state of an earlier-inserted block sealing to
/// that hash, or nothing when that hash was not tracked at insertion time.
pub proof fn lemma_insert_all_parents(
    bm: Map<B256, BlockState>,
    nm: Map<u64, B256>,
    s: Seq<ExecutedBlock>,
)
    requires
        indexes_consistent(bm, nm),
        forall|i: int| 0 <= i < s.len() ==> !bm.dom().contains((#[trigger] s[i]).spec_hash()),
        distinct_hashes(s),
    ensures
        forall|i: int|
            0 <= i < s.len() ==> (bm.dom().contains((#[trigger] s[i]).spec_parent_hash())
                ==> insert_all(bm, nm, s).0[s[i].spec_hash()].parent_is(
                bm[s[i].spec_parent_hash()],
            )),
        forall|i: int|
            0 <= i < s.len() && !bm.dom().contains((#[trigger] s[i]).spec_parent_hash()) && (
            exists|j: int|
                0 <= j < i && (#[trigger] s[j]).spec_hash() == s[i].spec_parent_hash())
                ==> insert_all(bm, nm, s).0[s[i].spec_hash()].parent_is(
                insert_all(bm, nm, s).0[s[i].spec_parent_hash()],
            ),
        forall|i: int|
            0 <= i < s.len() && !bm.dom().contains((#[trigger] s[i]).spec_parent_hash()) && !(
            exists|j: int|
                0 <= j < i && (#[trigger] s[j]).spec_hash() == s[i].spec_parent_hash())
                ==> insert_all(bm, nm, s).0[s[i].spec_hash()].spec_parent() is None,
    decreases s.len(),
{
    if s.len() > 0 {
        let t = s.drop_last();
        let b = s.last();
        assert(distinct_hashes(t)) by {
            assert(forall|i: int| 0 <= i < t.len() ==> t[i] == s[i]);
        }
        assert(forall|i: int|
            0 <= i < t.len() ==> !bm.dom().contains((#[trigger] t[i]).spec_hash()));
        lemma_insert_all_parents(bm, nm, t);
        lemma_insert_all_props(bm, nm, t);
        lemma_insert_all_props(bm, nm, s);
        let bm1 = insert_all(bm, nm, t).0;
        let bm2 = insert_all(bm, nm, s).0;
        let st = linked_state(bm1, b);
        assert(bm2 == bm1.insert(b.spec_hash(), st));
        assert(!bm1.dom().contains(b.spec_hash())) by {
            assert(!bm.dom().contains(s[s.len() - 1].spec_hash()));
            if bm1.dom().contains(b.spec_hash()) {
                let j = choose|j: int|
                    0 <= j < t.len() && (#[trigger] t[j]).spec_hash() == b.spec_hash();
                assert(s[j].spec_hash() == s[s.len() - 1].spec_hash());
            }
        }
        // the last block's own parent link
        let ph = b.spec_parent_hash();
        if bm.dom().contains(ph) {
            assert(bm1.dom().contains(ph) && bm1[ph] == bm[ph]);
            assert(st.parent_is(bm[ph]));
        } else if exists|j: int|
            0 <= j < s.len() - 1 && (#[trigger] s[j]).spec_hash() == ph {
            let j = choose|j: int| 0 <= j < s.len() - 1 && (#[trigger] s[j]).spec_hash() == ph;
            assert(t[j] == s[j]);
            assert(bm1.dom().contains(t[j].spec_hash()));
            assert(ph != b.spec_hash()) by {
                assert(s[j].spec_hash() != s[s.len() - 1].spec_hash());
            }
            assert(bm2[ph] == bm1[ph]);
            assert(st.parent_is(bm2[ph]));
        } else {
            assert(!bm1.dom().contains(ph)) by {
                if bm1.dom().contains(ph) {
                    let j = choose|j: int|
                        0 <= j < t.len() && (#[trigger] t[j]).spec_hash() == ph;
                    assert(s[j].spec_hash() == ph);
                }
            }
            assert(st.spec_parent() is None);
        }
        // earlier blocks keep the parent links they were inserted with
        assert forall|i: int| 0 <= i < s.len() - 1 implies bm2[(#[trigger] s[i]).spec_hash()]
            == bm1[s[i].spec_hash()] by {
            assert(s[i].spec_hash() != b.spec_hash());
        }
        assert forall|i: int|
            0 <= i < s.len() - 1 && !bm.dom().contains(
                (#[trigger] s[i]).spec_parent_hash(),
            ) && (exists|j: int|
                0 <= j < i && (#[trigger] s[j]).spec_hash() == s[i].spec_parent_hash()) implies bm2[s[i].spec_hash()].parent_is(
            bm2[s[i].spec_parent_hash()],
        ) by {
            let j = choose|j: int|
                0 <= j < i && (#[trigger] s[j]).spec_hash() == s[i].spec_parent_hash();
            assert(t[j] == s[j] && t[i] == s[i]);
            assert(exists|j2: int|
                0 <= j2 < i && (#[trigger] t[j2]).spec_hash() == t[i].spec_parent_hash());
            assert(bm1[s[i].spec_hash()].parent_is(bm1[s[i].spec_parent_hash()]));
            assert(s[i].spec_parent_hash() != b.spec_hash()) by {
                assert(s[j].spec_hash() != s[s.len() - 1].spec_hash());
            }
            assert(bm2[s[i].spec_parent_hash()] == bm1[s[i].spec_parent_hash()]);
        }
        assert forall|i: int|
            0 <= i < s.len() - 1 && !bm.dom().contains(
                (#[trigger] s[i]).spec_parent_hash(),
            ) && !(exists|j: int|
                0 <= j < i && (#[trigger] s[j]).spec_hash() == s[i].spec_parent_hash()) implies bm2[s[i].spec_hash()].spec_parent() is None by {
            assert(t[i] == s[i]);
            assert(!(exists|j2: int|
                0 <= j2 < i && (#[trigger] t[j2]).spec_hash() == t[i].spec_parent_hash())) by {
                if exists|j2: int|
                    0 <= j2 < i && (#[trigger] t[j2]).spec_hash() == t[i].spec_parent_hash() {
                    let j2 = choose|j2: int|
                        0 <= j2 < i && (#[trigger] t[j2]).spec_hash() == t[i].spec_parent_hash();
                    assert(s[j2].spec_hash() == s[i].spec_parent_hash());
                }
            }
            assert(bm1[t[i].spec_hash()].spec_parent() is None);
        }
        assert forall|i: int|
            0 <= i < s.len() - 1 && bm.dom().contains(
                (#[trigger] s[i]).spec_parent_hash(),
            ) implies bm2[s[i].spec_hash()].parent_is(bm[s[i].spec_parent_hash()]) by {
            assert(t[i] == s[i]);
            assert(bm1[t[i].spec_hash()].parent_is(bm[t[i].spec_parent_hash()]));
        }
    }
}

} // verus!
