//! Plain-value models of the block data that the chain tracker reads.
//!
//! The tracker only ever inspects a handful of fields of a block: its hash,
//! its parent hash, its number and its state root. Those are held here as
//! plain values so that every comparison the tracker makes is visible to the
//! verifier. The heavier execution artifacts (senders, receipts, hashed
//! post-state, trie updates) are carried through untouched.

use vstd::prelude::*;

verus! {

/// A 256-bit word, stored as four 64-bit limbs, most significant first.
/// Used for block hashes and state roots.
#[derive(Clone, Copy, Debug, PartialEq, Eq, Hash, Structural)]
pub struct B256 {
    pub a: u64,
    pub b: u64,
    pub c: u64,
    pub d: u64,
}

impl B256 {
    /// A word whose three upper limbs are zero; convenient for tests and
    /// for deriving distinct identifiers from small integers.
    pub fn from_low(low: u64) -> (r: B256)
        ensures
            r == (B256 { a: 0, b: 0, c: 0, d: low }),
    {
        B256 { a: 0, b: 0, c: 0, d: low }
    }

    /// The all-zero word.
    pub fn zero() -> (r: B256)
        ensures
            r == (B256 { a: 0, b: 0, c: 0, d: 0 }),
    {
        B256 { a: 0, b: 0, c: 0, d: 0 }
    }
}

/// A 160-bit account address, stored as two 64-bit limbs and a 32-bit tail.
#[derive(Clone, Copy, Debug, PartialEq, Eq, Hash, Structural)]
pub struct Address {
    pub hi: u64,
    pub lo: u64,
    pub tail: u32,
}

/// A block number paired with the hash of that block.
#[derive(Clone, Copy, Debug, PartialEq, Eq, Hash, Structural)]
pub struct BlockNumHash {
    pub number: u64,
    pub hash: B256,
}

/// The header fields the tracker reads, without the seal.
#[derive(Clone, Copy, Debug, PartialEq, Eq, Structural)]
pub struct Header {
    pub number: u64,
    pub parent_hash: B256,
    pub state_root: B256,
    pub timestamp: u64,
}

/// A header together with the hash it seals to.
#[derive(Clone, Copy, Debug, PartialEq, Eq, Structural)]
pub struct SealedHeader {
    pub header: Header,
    pub hash: B256,
}

impl SealedHeader {
    pub fn new(header: Header, hash: B256) -> (r: SealedHeader)
        ensures
            r.header == header,
            r.hash == hash,
    {
        SealedHeader { header, hash }
    }

    /// Discards the seal and returns the plain header.
    pub fn unseal(self) -> (r: Header)
        ensures
            r == self.header,
    {
        self.header
    }

    pub open spec fn spec_number(self) -> u64 {
        self.header.number
    }

    pub fn number(&self) -> (r: u64)
        ensures
            r == self.spec_number(),
    {
        self.header.number
    }
}

impl SealedHeader {
    /// The zero header sealing to the zero hash.
    pub open spec fn spec_default() -> SealedHeader {
        SealedHeader {
            header: Header {
                number: 0,
                parent_hash: B256 { a: 0, b: 0, c: 0, d: 0 },
                state_root: B256 { a: 0, b: 0, c: 0, d: 0 },
                timestamp: 0,
            },
            hash: B256 { a: 0, b: 0, c: 0, d: 0 },
        }
    }
}

impl Default for SealedHeader {
    /// The zero header sealing to the zero hash.
    fn default() -> (r: SealedHeader)
        ensures
            r == SealedHeader::spec_default(),
    {
        SealedHeader {
            header: Header {
                number: 0,
                parent_hash: B256 { a: 0, b: 0, c: 0, d: 0 },
                state_root: B256 { a: 0, b: 0, c: 0, d: 0 },
                timestamp: 0,
            },
            hash: B256 { a: 0, b: 0, c: 0, d: 0 },
        }
    }
}

/// A sealed block: the sealed header plus the (unmodeled) body.
#[derive(Clone, Copy, Debug, PartialEq, Eq, Structural)]
pub struct SealedBlock {
    pub header: SealedHeader,
}

impl SealedBlock {
    pub fn new(header: SealedHeader) -> (r: SealedBlock)
        ensures
            r.header == header,
    {
        SealedBlock { header }
    }

    pub open spec fn spec_hash(self) -> B256 {
        self.header.hash
    }

    pub open spec fn spec_number(self) -> u64 {
        self.header.header.number
    }

    pub open spec fn spec_parent_hash(self) -> B256 {
        self.header.header.parent_hash
    }

    pub open spec fn spec_state_root(self) -> B256 {
        self.header.header.state_root
    }

    /// The hash this block seals to.
    pub fn hash(&self) -> (r: B256)
        ensures
            r == self.spec_hash(),
    {
        self.header.hash
    }

    pub fn number(&self) -> (r: u64)
        ensures
            r == self.spec_number(),
    {
        self.header.header.number
    }

    pub fn parent_hash(&self) -> (r: B256)
        ensures
            r == self.spec_parent_hash(),
    {
        self.header.header.parent_hash
    }

    pub fn state_root(&self) -> (r: B256)
        ensures
            r == self.spec_state_root(),
    {
        self.header.header.state_root
    }

    pub open spec fn spec_parent_num_hash(self) -> BlockNumHash {
        BlockNumHash {
            number: if self.spec_number() > 0 { (self.spec_number() - 1) as u64 } else { 0 },
            hash: self.spec_parent_hash(),
        }
    }

    /// The number and hash of this block's parent; the parent of block 0 is
    /// reported as number 0.
    pub fn parent_num_hash(&self) -> (r: BlockNumHash)
        ensures
            r == self.spec_parent_num_hash(),
    {
        let number: u64 = self.header.header.number;
        let parent_number: u64 = if number > 0 { number - 1 } else { 0 };
        BlockNumHash { number: parent_number, hash: self.header.header.parent_hash }
    }
}

/// A sealed block together with the senders recovered from its transactions.
#[derive(Clone, Debug, PartialEq, Eq)]
pub struct SealedBlockWithSenders {
    pub block: SealedBlock,
    pub senders: Vec<Address>,
}

/// A transaction receipt; only plain summary fields are modeled.
#[derive(Clone, Copy, Debug, PartialEq, Eq, Structural)]
pub struct Receipt {
    pub success: bool,
    pub cumulative_gas_used: u64,
}

impl Default for Receipt {
    fn default() -> (r: Receipt)
        ensures
            r.success == false,
            r.cumulative_gas_used == 0,
    {
        Receipt { success: false, cumulative_gas_used: 0 }
    }
}

/// Receipts grouped per block: one inner vector for each executed block.
#[derive(Clone, Debug, PartialEq, Eq)]
pub struct Receipts {
    pub receipt_vec: Vec<Vec<Option<Receipt>>>,
}

/// The result of executing one or more blocks: the receipts they produced
/// and the number of the first block covered.
#[derive(Clone, Debug, PartialEq, Eq)]
pub struct ExecutionOutcome {
    pub receipts: Receipts,
    pub first_block: u64,
}

/// The hashed post-state of an execution: hashed account keys mapped to
/// value hashes. Carried through the tracker, never inspected.
#[derive(Clone, Debug, PartialEq, Eq)]
pub struct HashedPostState {
    pub accounts: Vec<(B256, B256)>,
}

/// Trie node updates produced by applying a block. Carried through the
/// tracker, never inspected.
#[derive(Clone, Debug, PartialEq, Eq)]
pub struct TrieUpdates {
    pub nodes: Vec<B256>,
}

/// The current best block of the canonical chain.
#[derive(Clone, Copy, Debug, PartialEq, Eq, Structural)]
pub struct ChainInfo {
    pub best_hash: B256,
    pub best_number: u64,
}

} // verus!
