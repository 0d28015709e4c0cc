//! A node in the owned parent chain of tracked blocks.
//!
//! A [`BlockState`] wraps one executed block and exclusively owns an optional
//! parent state, forming a chain back to the anchor: the newest block that is
//! only available in the base storage engine.

use vstd::prelude::*;
use crate::executed_block::ExecutedBlock;
use crate::primitives::{B256, BlockNumHash, Receipt, Receipts};

verus! {

/// State after applying one block; part of the canonical chain that is held
/// in memory and can be traced back to a canonical block on disk.
#[derive(Debug, PartialEq, Eq)]
pub struct BlockState {
    /// The executed block that determines the state.
    pub block: ExecutedBlock,
    /// The block's parent state, if the parent is still tracked in memory.
    pub parent: Option<Box<BlockState>>,
}

/// Unwraps the `Some` elements of one block's receipt slots, in order.
pub open spec fn unwrap_somes(s: Seq<Option<Receipt>>) -> Seq<Receipt>
    decreases s.len(),
{
    if s.len() == 0 {
        Seq::empty()
    } else {
        let rest = unwrap_somes(s.drop_last());
        match s.last() {
            Some(r) => rest.push(r),
            None => rest,
        }
    }
}

impl BlockState {
    pub open spec fn spec_block(self) -> ExecutedBlock {
        self.block
    }

    pub open spec fn spec_parent(self) -> Option<Box<BlockState>> {
        self.parent
    }

    /// True when `q` is the directly linked parent state.
    pub open spec fn parent_is(self, q: BlockState) -> bool {
        match self.parent {
            Some(p) => *p == q,
            None => false,
        }
    }

    pub open spec fn spec_hash(self) -> B256 {
        self.block.spec_hash()
    }

    pub open spec fn spec_number(self) -> u64 {
        self.block.spec_number()
    }

    pub open spec fn spec_parent_hash(self) -> B256 {
        self.block.spec_parent_hash()
    }

    /// Every linked parent seals to the child's parent hash.
    pub open spec fn hash_linked(self) -> bool
        decreases self,
    {
        match self.parent {
            None => true,
            Some(p) => p.hash_linked() && p.spec_hash() == self.spec_parent_hash(),
        }
    }

    /// The parent links are sound: every linked parent seals to the child's
    /// parent hash and carries a strictly smaller block number.
    pub open spec fn sound_links(self) -> bool
        decreases self,
    {
        match self.parent {
            None => true,
            Some(p) => p.sound_links() && p.spec_hash() == self.spec_parent_hash()
                && p.spec_number() < self.spec_number(),
        }
    }

    /// The whole in-memory chain this state closes over, oldest first,
    /// ending with the state itself.
    pub open spec fn chain_spec(self) -> Seq<BlockState>
        decreases self,
    {
        match self.parent {
            None => seq![self],
            Some(p) => p.chain_spec().push(self),
        }
    }

    /// The join point with disk: the parent of the oldest tracked ancestor.
    pub open spec fn anchor_spec(self) -> BlockNumHash
        decreases self,
    {
        match self.parent {
            None => self.block.block.spec_parent_num_hash(),
            Some(p) => p.anchor_spec(),
        }
    }

    /// `BlockState` constructor for a state with no tracked parent.
    pub fn new(block: ExecutedBlock) -> (r: Self)
        ensures
            r.spec_block() == block,
            r.spec_parent() is None,
    {
        BlockState { block, parent: None }
    }

    /// `BlockState` constructor with an optional parent state.
    pub fn with_parent(block: ExecutedBlock, parent: Option<BlockState>) -> (r: Self)
        ensures
            r.spec_block() == block,
            match parent {
                None => r.spec_parent() is None,
                Some(p) => r.parent_is(p),
            },
    {
        BlockState {
            block,
            parent: match parent {
                None => None,
                Some(p) => Some(Box::new(p)),
            },
        }
    }

    /// The number and hash of the on-disk block this state traces back to.
    pub fn anchor(&self) -> (r: BlockNumHash)
        ensures
            r == self.anchor_spec(),
        decreases *self,
    {
        match &self.parent {
            Some(parent) => parent.anchor(),
            None => self.block.block().parent_num_hash(),
        }
    }

    /// The executed block that determines the state; clones the handle.
    pub fn block(&self) -> (r: ExecutedBlock)
        ensures
            r == self.spec_block(),
    {
        self.block.clone()
    }

    /// The hash of the executed block that determines the state.
    pub fn hash(&self) -> (r: B256)
        ensures
            r == self.spec_hash(),
    {
        self.block.block().hash()
    }

    /// The number of the executed block that determines the state.
    pub fn number(&self) -> (r: u64)
        ensures
            r == self.spec_number(),
    {
        self.block.block().number()
    }

    /// The state root after applying the executed block.
    pub fn state_root(&self) -> (r: B256)
        ensures
            r == self.block.block.spec_state_root(),
    {
        self.block.block().state_root()
    }

    /// The receipts of the execution outcome attached to this state.
    pub fn receipts(&self) -> (r: &Receipts)
        ensures
            *r == self.block.execution_output.receipts,
    {
        &self.block.execution_outcome().receipts
    }

    /// The receipts that belong to exactly this block.
    ///
    /// The attached execution outcome is expected to carry receipts for a
    /// single block; extraction is best-effort and reads only the first
    /// block's slots, unwrapping the ones that are present.
    pub fn executed_block_receipts(&self) -> (r: Vec<Receipt>)
        ensures
            r@ == self.spec_executed_block_receipts(),
    {
        let receipts = self.receipts();
        if receipts.receipt_vec.len() == 0 {
            Vec::new()
        } else {
            let first = &receipts.receipt_vec[0];
            let mut out: Vec<Receipt> = Vec::new();
            let mut i: usize = 0;
            while i < first.len()
                invariant
                    i <= first.len(),
                    out@ == unwrap_somes(first@.subrange(0, i as int)),
                decreases first.len() - i,
            {
                proof {
                    assert(first@.subrange(0, i + 1 as int).drop_last() == first@.subrange(
                        0,
                        i as int,
                    ));
                    assert(first@.subrange(0, i + 1 as int).last() == first@[i as int]);
                }
                match first[i] {
                    Some(receipt) => out.push(receipt),
                    None => (),
                }
                i = i + 1;
            }
            proof {
                assert(first@.subrange(0, first@.len() as int) == first@);
            }
            out
        }
    }

    /// The receipts of exactly this block, as a sequence.
    pub open spec fn spec_executed_block_receipts(self) -> Seq<Receipt> {
        let rv = self.block.execution_output.receipts.receipt_vec@;
        if rv.len() == 0 {
            Seq::empty()
        } else {
            unwrap_somes(rv[0]@)
        }
    }

    /// The parent states, oldest first, not including this state.
    pub fn parent_state_chain(&self) -> (r: Vec<&BlockState>)
        ensures
            r@.len() == self.chain_spec().len() - 1,
            forall|i: int| 0 <= i < r@.len() ==> *r@[i] == self.chain_spec()[i],
        decreases *self,
    {
        match &self.parent {
            None => Vec::new(),
            Some(p) => {
                let mut r = p.parent_state_chain();
                r.push(&**p);
                r
            },
        }
    }

    /// The entire in-memory chain, oldest first, with this state as the last
    /// element.
    pub fn chain(&self) -> (r: Vec<&BlockState>)
        ensures
            r@.len() == self.chain_spec().len(),
            forall|i: int| 0 <= i < r@.len() ==> *r@[i] == self.chain_spec()[i],
    {
        let mut r = self.parent_state_chain();
        r.push(self);
        r
    }
}

impl Clone for BlockState {
    /// Clones the state together with its whole owned parent chain.
    fn clone(&self) -> (r: Self)
        ensures
            r == *self,
    {
        clone_block_state(self)
    }
}

/// Copies a state and, recursively, its owned parent chain.
fn clone_block_state(s: &BlockState) -> (r: BlockState)
    ensures
        r == *s,
    decreases *s,
{
    BlockState {
        block: s.block.clone(),
        parent: match &s.parent {
            None => None,
            Some(p) => Some(Box::new(clone_block_state(p))),
        },
    }
}

/// The chain of a tracked state lists its ancestors and itself, oldest
/// first: the last element is the state itself, and when the parent links
/// are sound the numbers are strictly increasing along the chain and every
/// adjacent pair is linked by its parent hash.
pub proof fn lemma_chain_ordering(s: BlockState)
    requires
        s.sound_links(),
    ensures
        s.chain_spec().len() >= 1,
        s.chain_spec().last() == s,
        forall|i: int| 0 <= i < s.chain_spec().len() ==> (#[trigger] s.chain_spec()[i]).sound_links(),
        forall|i: int, j: int|
            0 <= i < j < s.chain_spec().len() ==> s.chain_spec()[i].spec_number()
                < s.chain_spec()[j].spec_number(),
        forall|i: int|
            0 <= i < s.chain_spec().len() - 1 ==> (#[trigger] s.chain_spec()[i]).spec_hash()
                == s.chain_spec()[i + 1].spec_parent_hash(),
        forall|i: int|
            0 <= i < s.chain_spec().len() - 1 ==> s.chain_spec()[i + 1].parent_is(
                #[trigger] s.chain_spec()[i],
            ),
    decreases s,
{
    match s.parent {
        None => {},
        Some(p) => {
            lemma_chain_ordering(*p);
            assert(s.chain_spec() == p.chain_spec().push(s));
            assert(p.chain_spec().last() == *p);
            assert(s.chain_spec()[s.chain_spec().len() - 2] == *p);
            assert forall|i: int, j: int|
                0 <= i < j < s.chain_spec().len() implies s.chain_spec()[i].spec_number()
                < s.chain_spec()[j].spec_number() by {
                if j == s.chain_spec().len() - 1 {
                    if i < s.chain_spec().len() - 2 {
                        assert(p.chain_spec()[i].spec_number() < p.chain_spec()[p.chain_spec().len()
                            - 1].spec_number());
                    }
                }
            }
        },
    }
}

} // verus!
