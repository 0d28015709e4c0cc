//! An executed block: the immutable bundle of a sealed block, its senders,
//! its execution outcome, its hashed post-state and its trie updates.
//!
//! The heavy fields are reference-counted so that several tracked states can
//! share one executed block without copying.

use vstd::prelude::*;
use std::sync::Arc;
use crate::primitives::{Address, ExecutionOutcome, HashedPostState, SealedBlock, SealedBlockWithSenders, TrieUpdates};

verus! {

/// Relies on `Arc::clone`: the clone is a handle to the same value as the
/// original.
#[verifier::external_body]
pub(crate) fn clone_arc<T>(v: &Arc<T>) -> (r: Arc<T>)
    ensures
        r == *v,
{
    Arc::clone(v)
}

/// An executed block stored in memory.
#[derive(Debug, PartialEq, Eq)]
pub struct ExecutedBlock {
    /// Sealed block the rest of the fields refer to.
    pub block: Arc<SealedBlock>,
    /// The block's transaction senders.
    pub senders: Arc<Vec<Address>>,
    /// The block's execution outcome.
    pub execution_output: Arc<ExecutionOutcome>,
    /// The hashed post-state after this block.
    pub hashed_state: Arc<HashedPostState>,
    /// Trie updates that result from applying the block.
    pub trie: Arc<TrieUpdates>,
}

impl Clone for ExecutedBlock {
    fn clone(&self) -> (r: Self)
        ensures
            r == *self,
    {
        ExecutedBlock {
            block: clone_arc(&self.block),
            senders: clone_arc(&self.senders),
            execution_output: clone_arc(&self.execution_output),
            hashed_state: clone_arc(&self.hashed_state),
            trie: clone_arc(&self.trie),
        }
    }
}

impl ExecutedBlock {
    pub fn new(
        block: Arc<SealedBlock>,
        senders: Arc<Vec<Address>>,
        execution_output: Arc<ExecutionOutcome>,
        hashed_state: Arc<HashedPostState>,
        trie: Arc<TrieUpdates>,
    ) -> (r: Self)
        ensures
            r.block == block,
            r.senders == senders,
            r.execution_output == execution_output,
            r.hashed_state == hashed_state,
            r.trie == trie,
    {
        ExecutedBlock { block, senders, execution_output, hashed_state, trie }
    }

    pub open spec fn spec_hash(self) -> crate::primitives::B256 {
        self.block.spec_hash()
    }

    pub open spec fn spec_number(self) -> u64 {
        self.block.spec_number()
    }

    pub open spec fn spec_parent_hash(self) -> crate::primitives::B256 {
        self.block.spec_parent_hash()
    }

    /// A reference to the executed sealed block.
    pub fn block(&self) -> (r: &SealedBlock)
        ensures
            *r == *self.block,
    {
        &self.block
    }

    /// A reference to the block's senders.
    pub fn senders(&self) -> (r: &Vec<Address>)
        ensures
            *r == *self.senders,
    {
        &self.senders
    }

    /// The sealed block paired with its senders; clones both.
    pub fn sealed_block_with_senders(&self) -> (r: SealedBlockWithSenders)
        ensures
            r.block == *self.block,
            r.senders@ == self.senders@,
    {
        SealedBlockWithSenders { block: *self.block, senders: clone_addresses(&self.senders) }
    }

    /// A reference to the block's execution outcome.
    pub fn execution_outcome(&self) -> (r: &ExecutionOutcome)
        ensures
            *r == *self.execution_output,
    {
        &self.execution_output
    }

    /// A reference to the hashed post-state.
    pub fn hashed_state(&self) -> (r: &HashedPostState)
        ensures
            *r == *self.hashed_state,
    {
        &self.hashed_state
    }

    /// A reference to the trie updates for the block.
    pub fn trie_updates(&self) -> (r: &TrieUpdates)
        ensures
            *r == *self.trie,
    {
        &self.trie
    }
}

/// Copies a sender list element by element.
fn clone_addresses(v: &Vec<Address>) -> (r: Vec<Address>)
    ensures
        r@ == v@,
{
    let mut out: Vec<Address> = Vec::new();
    let mut i: usize = 0;
    while i < v.len()
        invariant
            i <= v.len(),
            out@ == v@.subrange(0, i as int),
        decreases v.len() - i,
    {
        out.push(v[i]);
        proof {
            assert(out@ == v@.subrange(0, i + 1 as int));
        }
        i = i + 1;
    }
    proof {
        assert(v@.subrange(0, v@.len() as int) == v@);
    }
    out
}

} // verus!
