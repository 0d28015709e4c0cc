//! The public facade over the in-memory chain state: it composes the block
//! index, the chain-info tracker and a broadcast channel for canonical-state
//! events, and exposes the mutation and query surface used by the rest of a
//! node.

use vstd::prelude::*;
use std::sync::Arc;
use std::time::Instant;
use crate::block_state::BlockState;
use crate::chain_info::ChainInfoTracker;
use crate::executed_block::{clone_arc, ExecutedBlock};
use crate::assoc::lemma_assoc_dom;
use crate::in_memory::{chain_contains_hash, chain_contains_number, chain_linked, distinct_hashes, evicted_hashes, evicted_numbers, insert_all, lemma_chain_numbers, lemma_insert_all_props, lemma_insert_all_sound, lemma_remove_consistent, map_closed, wf_parts, InMemoryState};
use crate::primitives::{B256, BlockNumHash, ChainInfo, ExecutionOutcome, Header, Receipt, SealedBlock, SealedBlockWithSenders, SealedHeader};

verus! {

/// Size of the broadcast channel used to notify canonical state events.
pub const CANON_STATE_NOTIFICATION_CHANNEL_SIZE: usize = 256;

/// A chain of blocks with their senders, together with the execution outcome
/// attached to the notification.
#[derive(Clone, Debug)]
pub struct Chain {
    /// The blocks of the chain, oldest first, each with its senders.
    pub blocks: Vec<SealedBlockWithSenders>,
    /// The execution outcome attached to this chain.
    pub execution_outcome: Arc<ExecutionOutcome>,
    /// Trie updates attached to this chain, when known.
    pub trie_updates: Option<crate::primitives::TrieUpdates>,
}

impl Chain {
    pub fn new(
        blocks: Vec<SealedBlockWithSenders>,
        execution_outcome: Arc<ExecutionOutcome>,
        trie_updates: Option<crate::primitives::TrieUpdates>,
    ) -> (r: Self)
        ensures
            r.blocks == blocks,
            r.execution_outcome == execution_outcome,
            r.trie_updates == trie_updates,
    {
        Chain { blocks, execution_outcome, trie_updates }
    }
}

/// A canonical-state event: the chain was extended, or a suffix of it was
/// replaced.
#[derive(Clone, Debug)]
pub enum CanonStateNotification {
    /// The given chain was appended to the canonical head.
    Commit {
        /// The newly canonical chain.
        new: Arc<Chain>,
    },
    /// The old chain was evicted in favor of the new one.
    Reorg {
        /// The evicted chain.
        old: Arc<Chain>,
        /// The newly canonical chain.
        new: Arc<Chain>,
    },
}

#[verifier::external_type_specification]
#[verifier::external_body]
#[verifier::reject_recursive_types(T)]
pub struct ExSender<T>(tokio::sync::broadcast::Sender<T>);

#[verifier::external_type_specification]
#[verifier::external_body]
#[verifier::reject_recursive_types(T)]
pub struct ExReceiver<T>(tokio::sync::broadcast::Receiver<T>);

/// The sending half of the canonical-state event channel.
pub type CanonStateNotificationSender = tokio::sync::broadcast::Sender<CanonStateNotification>;

/// A stream of canonical-state events, as handed to a subscriber.
pub type CanonStateNotifications = tokio::sync::broadcast::Receiver<CanonStateNotification>;

/// Relies on `tokio::sync::broadcast::channel`: a bounded multi-consumer
/// channel that drops the oldest events for a lagging receiver. It panics
/// when the capacity is zero or above `usize::MAX / 2`, so those are
/// excluded here.
#[verifier::external_body]
fn notification_channel(capacity: usize) -> (CanonStateNotificationSender, CanonStateNotifications)
    requires
        1 <= capacity <= usize::MAX / 2,
{
    tokio::sync::broadcast::channel(capacity)
}

/// Relies on `tokio::sync::broadcast::Sender::send`: delivery is
/// best-effort; sending with no receivers attached is a silent no-op, and
/// nothing is assumed about the outcome.
#[verifier::external_body]
fn send_notification(sender: &CanonStateNotificationSender, event: CanonStateNotification) {
    let _ = sender.send(event);
}

/// Relies on `tokio::sync::broadcast::Sender::subscribe`: a fresh receiver
/// that observes events sent after this call.
#[verifier::external_body]
fn subscribe_notifications(sender: &CanonStateNotificationSender) -> CanonStateNotifications {
    sender.subscribe()
}

/// Non-empty chain of blocks fed into the facade to advance or rewrite the
/// tracked chain.
#[derive(Debug)]
pub enum NewCanonicalChain {
    /// A simple append to the current canonical head.
    Commit {
        /// All new blocks, oldest first, leading back to the canonical head.
        new: Vec<ExecutedBlock>,
    },
    /// Replacement of a chain suffix: the two chains trace back to a shared
    /// ancestor at which they diverge.
    Reorg {
        /// All blocks of the new chain, oldest first.
        new: Vec<ExecutedBlock>,
        /// All blocks of the old chain, oldest first.
        old: Vec<ExecutedBlock>,
    },
}

/// The chain object of a notification lists exactly the given blocks with
/// their senders and carries the last block's execution outcome.
pub open spec fn chain_matches(c: Chain, blocks: Seq<ExecutedBlock>) -> bool {
    &&& c.blocks@.len() == blocks.len()
    &&& forall|i: int|
        0 <= i < blocks.len() ==> (#[trigger] c.blocks@[i]).block == *(blocks[i].block) && c.blocks@[i].senders@
            == blocks[i].senders@
    &&& c.execution_outcome == blocks.last().execution_output
    &&& c.trie_updates is None
}

/// Pairs each block with its senders, in order.
fn blocks_with_senders(blocks: &Vec<ExecutedBlock>) -> (r: Vec<SealedBlockWithSenders>)
    ensures
        r@.len() == blocks@.len(),
        forall|i: int|
            0 <= i < blocks@.len() ==> (#[trigger] r@[i]).block == *(blocks@[i].block) && r@[i].senders@
                == blocks@[i].senders@,
{
    let mut out: Vec<SealedBlockWithSenders> = Vec::new();
    let mut i: usize = 0;
    while i < blocks.len()
        invariant
            i <= blocks@.len(),
            out@.len() == i,
            forall|k: int|
                0 <= k < i ==> (#[trigger] out@[k]).block == *(blocks@[k].block) && out@[k].senders@
                    == blocks@[k].senders@,
        decreases blocks@.len() - i,
    {
        out.push(blocks[i].sealed_block_with_senders());
        i = i + 1;
    }
    out
}

impl NewCanonicalChain {
    /// The blocks that become canonical.
    pub open spec fn spec_new_blocks(self) -> Seq<ExecutedBlock> {
        match self {
            NewCanonicalChain::Commit { new } => new@,
            NewCanonicalChain::Reorg { new, old } => new@,
        }
    }

    /// The blocks that are evicted.
    pub open spec fn spec_reorged_blocks(self) -> Seq<ExecutedBlock> {
        match self {
            NewCanonicalChain::Commit { new } => Seq::empty(),
            NewCanonicalChain::Reorg { new, old } => old@,
        }
    }

    /// How many blocks become canonical.
    pub fn new_block_count(&self) -> (r: usize)
        ensures
            r == self.spec_new_blocks().len(),
    {
        match self {
            NewCanonicalChain::Commit { new } => new.len(),
            NewCanonicalChain::Reorg { new, old } => new.len(),
        }
    }

    /// How many blocks are evicted.
    pub fn reorged_block_count(&self) -> (r: usize)
        ensures
            r == self.spec_reorged_blocks().len(),
    {
        match self {
            NewCanonicalChain::Commit { new } => 0,
            NewCanonicalChain::Reorg { new, old } => old.len(),
        }
    }

    /// The new tip of the chain; the transition must commit at least one
    /// block.
    pub fn tip(&self) -> (r: &SealedBlock)
        requires
            self.spec_new_blocks().len() > 0,
        ensures
            *r == *(self.spec_new_blocks().last().block),
    {
        match self {
            NewCanonicalChain::Commit { new } => new[new.len() - 1].block(),
            NewCanonicalChain::Reorg { new, old } => new[new.len() - 1].block(),
        }
    }

    /// Converts the transition into a broadcastable event.
    ///
    /// When the transition spans several blocks, only the last block's
    /// execution outcome is attached to the event, not a merge of all
    /// blocks' outcomes; this mirrors the update protocol's notification
    /// shape and is deliberately kept.
    pub fn to_chain_notification(&self) -> (r: CanonStateNotification)
        requires
            self.spec_new_blocks().len() > 0,
            self matches NewCanonicalChain::Reorg { new, old } ==> old@.len() > 0,
        ensures
            match self {
                NewCanonicalChain::Commit { new } => r matches CanonStateNotification::Commit {
                    new: c,
                } && chain_matches(*c, new@),
                NewCanonicalChain::Reorg { new, old } => r
                    matches CanonStateNotification::Reorg { old: co, new: cn } && chain_matches(
                    *cn,
                    new@,
                ) && chain_matches(*co, old@),
            },
    {
        match self {
            NewCanonicalChain::Commit { new } => CanonStateNotification::Commit {
                new: Arc::new(
                    Chain::new(
                        blocks_with_senders(new),
                        clone_arc(&new[new.len() - 1].execution_output),
                        None,
                    ),
                ),
            },
            NewCanonicalChain::Reorg { new, old } => CanonStateNotification::Reorg {
                new: Arc::new(
                    Chain::new(
                        blocks_with_senders(new),
                        clone_arc(&new[new.len() - 1].execution_output),
                        None,
                    ),
                ),
                old: Arc::new(
                    Chain::new(
                        blocks_with_senders(old),
                        clone_arc(&old[old.len() - 1].execution_output),
                        None,
                    ),
                ),
            },
        }
    }
}

/// A state reader that answers from the in-memory chain first and falls back
/// to a historical, disk-backed reader beyond the anchor.
#[derive(Debug)]
pub struct MemoryOverlayStateProvider<H> {
    /// The executed blocks of the in-memory chain, oldest first.
    pub in_memory: Vec<ExecutedBlock>,
    /// The historical state reader consulted past the anchor.
    pub historical: H,
}

impl<H> MemoryOverlayStateProvider<H> {
    pub fn new(in_memory: Vec<ExecutedBlock>, historical: H) -> (r: Self)
        ensures
            r.in_memory == in_memory,
            r.historical == historical,
    {
        MemoryOverlayStateProvider { in_memory, historical }
    }
}


/// A transition is acceptable against the current indexes when the new
/// blocks form a non-empty parent-linked chain of fresh, distinct hashes
/// whose tip reaches at least every surviving tracked number, the evicted
/// blocks carry the numbers they are tracked under, and the first new block
/// joins a tracked parent of a smaller number or starts at the anchor.
///
/// A new block may take over a number that stays tracked under a different,
/// surviving hash: the number entry is then overwritten while the old block
/// remains addressable by hash until separately evicted.
pub open spec fn update_ok(
    state: InMemoryState,
    new: Seq<ExecutedBlock>,
    reorged: Seq<ExecutedBlock>,
) -> bool {
    let bm = state.blocks_view();
    let bm1 = bm.remove_keys(evicted_hashes(reorged));
    &&& new.len() > 0
    &&& chain_linked(new)
    &&& distinct_hashes(new)
    &&& forall|i: int| 0 <= i < new.len() ==> !bm1.dom().contains((#[trigger] new[i]).spec_hash())
    &&& forall|i: int, j: int|
        0 <= i < new.len() && 0 <= j < reorged.len() ==> (#[trigger] new[i]).spec_hash() != (
        #[trigger] reorged[j]).spec_hash()
    &&& forall|j: int|
        0 <= j < reorged.len() ==> (bm.dom().contains((#[trigger] reorged[j]).spec_hash())
            ==> bm[reorged[j].spec_hash()].spec_number() == reorged[j].spec_number())
    &&& forall|n: u64|
        #[trigger] state.numbers_view().dom().contains(n) && !evicted_numbers(reorged).contains(n)
            ==> n <= new[new.len() - 1].spec_number()
    &&& (bm1.dom().contains(new[0].spec_parent_hash()) ==> bm1[new[0].spec_parent_hash()].spec_number()
        < new[0].spec_number())
}

/// A transition may be applied when its block sequences are acceptable
/// against the current indexes and the evicted chain of a reorg is
/// non-empty.
pub open spec fn transition_ok(state: InMemoryState, t: NewCanonicalChain) -> bool {
    &&& update_ok(state, t.spec_new_blocks(), t.spec_reorged_blocks())
    &&& (t matches NewCanonicalChain::Reorg { new, old } ==> old@.len() > 0)
}

/// The facade over the in-memory chain state: the block index, the
/// chain-info tracker and the canonical-state event channel.
///
/// Mutations take the facade exclusively, so a mutation is never observed
/// half-applied.
#[derive(Debug)]
pub struct CanonicalInMemoryState {
    /// The tracked blocks and the pending slot.
    pub in_memory_state: InMemoryState,
    /// The canonical, safe and finalized head pointers.
    pub chain_info_tracker: ChainInfoTracker,
    /// The sending half of the canonical-state event channel.
    pub canon_state_notification_sender: CanonStateNotificationSender,
}

impl CanonicalInMemoryState {
    /// Create a new in-memory state from the given indexes and pending
    /// state. The chain-info tracker starts at the tracked head, or at the
    /// zero header when nothing is tracked by number.
    pub fn new(
        blocks: Vec<(B256, BlockState)>,
        numbers: Vec<(u64, B256)>,
        pending: Option<BlockState>,
    ) -> (r: Self)
        requires
            wf_parts(blocks@, numbers@),
        ensures
            r.in_memory_state.blocks == blocks,
            r.in_memory_state.numbers == numbers,
            r.in_memory_state.pending == pending,
            r.in_memory_state.wf(),
            numbers@.len() == 0 ==> r.chain_info_tracker.canonical_head
                == SealedHeader::spec_default(),
            numbers@.len() > 0 ==> exists|n: u64|
                #[trigger] r.in_memory_state.is_head_number(n) && (
                r.in_memory_state.spec_state_by_number(n) matches Some(s)
                    && r.chain_info_tracker.canonical_head == (*s.spec_block().block).header),
    {
        let in_memory_state = InMemoryState::new(blocks, numbers, pending);
        let head_state = in_memory_state.head_state();
        let header = match head_state {
            Some(state) => state.block().block().header,
            None => SealedHeader::default(),
        };
        let chain_info_tracker = ChainInfoTracker::new(header);
        let (canon_state_notification_sender, _) = notification_channel(
            CANON_STATE_NOTIFICATION_CHANNEL_SIZE,
        );
        CanonicalInMemoryState { in_memory_state, chain_info_tracker, canon_state_notification_sender }
    }

    /// Create a new in-memory state with no tracked blocks and the given
    /// local head.
    pub fn with_head(head: SealedHeader) -> (r: Self)
        ensures
            r.in_memory_state.blocks@.len() == 0,
            r.in_memory_state.numbers@.len() == 0,
            r.in_memory_state.pending is None,
            r.in_memory_state.wf(),
            r.chain_info_tracker.canonical_head == head,
    {
        let chain_info_tracker = ChainInfoTracker::new(head);
        let in_memory_state = InMemoryState::new(Vec::new(), Vec::new(), None);
        let (canon_state_notification_sender, _) = notification_channel(
            CANON_STATE_NOTIFICATION_CHANNEL_SIZE,
        );
        CanonicalInMemoryState { in_memory_state, chain_info_tracker, canon_state_notification_sender }
    }

    /// The header of the tracked block with the given hash.
    pub fn header_by_hash(&self, hash: B256) -> (r: Option<SealedHeader>)
        requires
            self.in_memory_state.wf(),
        ensures
            match r {
                Some(h) => self.in_memory_state.spec_state_by_hash(hash) matches Some(s) && h == (
                *s.spec_block().block).header,
                None => self.in_memory_state.spec_state_by_hash(hash) is None,
            },
    {
        match self.state_by_hash(hash) {
            Some(block) => Some(block.block().block().header),
            None => None,
        }
    }

    /// Applies one removal-and-insertion step to the index: evicts the
    /// reorged blocks, then inserts the new blocks in order, linking each to
    /// the tracked state under its parent hash, which may be a block
    /// inserted earlier in this same step.
    fn update_blocks(&mut self, new_blocks: Vec<ExecutedBlock>, reorged: Vec<ExecutedBlock>)
        requires
            old(self).in_memory_state.wf(),
            update_ok(old(self).in_memory_state, new_blocks@, reorged@),
        ensures
            final(self).in_memory_state.wf(),
            final(self).in_memory_state.pending is None,
            final(self).chain_info_tracker == old(self).chain_info_tracker,
            final(self).canon_state_notification_sender == old(self).canon_state_notification_sender,
            // the exact step semantics: evict, then insert in order, each
            // new state linked to the tracked state under its parent hash as
            // the index stands at that moment
            final(self).in_memory_state.blocks_view() == insert_all(
                old(self).in_memory_state.blocks_view().remove_keys(evicted_hashes(reorged@)),
                old(self).in_memory_state.numbers_view().remove_keys(evicted_numbers(reorged@)),
                new_blocks@,
            ).0,
            final(self).in_memory_state.numbers_view() == insert_all(
                old(self).in_memory_state.blocks_view().remove_keys(evicted_hashes(reorged@)),
                old(self).in_memory_state.numbers_view().remove_keys(evicted_numbers(reorged@)),
                new_blocks@,
            ).1,
            // every new block is resolvable by its hash
            forall|i: int|
                0 <= i < new_blocks@.len() ==> final(self).in_memory_state.blocks_view().dom().contains(
                    (#[trigger] new_blocks@[i]).spec_hash(),
                ) && final(self).in_memory_state.blocks_view()[new_blocks@[i].spec_hash()].spec_block()
                    == new_blocks@[i],
            // the last new block becomes the head
            final(self).in_memory_state.is_head_number(new_blocks@.last().spec_number()),
            final(self).in_memory_state.numbers_view()[new_blocks@.last().spec_number()]
                == new_blocks@.last().spec_hash(),
            // every evicted block is unresolvable by hash, and its former
            // number no longer names it
            forall|j: int|
                0 <= j < reorged@.len() ==> !final(self).in_memory_state.blocks_view().dom().contains(
                    (#[trigger] reorged@[j]).spec_hash(),
                ) && (final(self).in_memory_state.numbers_view().dom().contains(
                    reorged@[j].spec_number(),
                ) ==> final(self).in_memory_state.numbers_view()[reorged@[j].spec_number()]
                    != reorged@[j].spec_hash()),
            // blocks that were neither evicted nor replaced stay tracked
            forall|h: B256|
                old(self).in_memory_state.blocks_view().dom().contains(h) && !evicted_hashes(
                    reorged@,
                ).contains(h) ==> final(self).in_memory_state.blocks_view().dom().contains(h)
                    && final(self).in_memory_state.blocks_view()[h] == old(self).in_memory_state.blocks_view()[h],
            // when the join point is sound, every new state has sound links
            (old(self).in_memory_state.blocks_view().remove_keys(
                evicted_hashes(reorged@),
            ).dom().contains(new_blocks@[0].spec_parent_hash()) ==> old(self).in_memory_state.blocks_view()[new_blocks@[0].spec_parent_hash()].sound_links())
                ==> forall|i: int|
                0 <= i < new_blocks@.len() ==> final(self).in_memory_state.blocks_view()[(
                #[trigger] new_blocks@[i]).spec_hash()].sound_links(),
    {
        let ghost bm = old(self).in_memory_state.blocks_view();
        let ghost nm = old(self).in_memory_state.numbers_view();
        let ghost s = new_blocks@;
        let ghost olds = reorged@;
        self.in_memory_state.update_blocks(new_blocks, reorged);
        proof {
            let bm1 = bm.remove_keys(evicted_hashes(olds));
            let nm1 = nm.remove_keys(evicted_numbers(olds));
            lemma_remove_consistent(bm, nm, olds);
            lemma_insert_all_props(bm1, nm1, s);
            let bm2 = self.in_memory_state.blocks_view();
            let nm2 = self.in_memory_state.numbers_view();
            let tip = s.last();
            // every tracked number stays at or below the new tip's number
            assert forall|m: u64| #[trigger] nm2.dom().contains(m) implies m
                <= tip.spec_number() by {
                if nm1.dom().contains(m) && nm2[m] == nm1[m] {
                    assert(nm.dom().contains(m) && !evicted_numbers(olds).contains(m));
                    lemma_chain_numbers(s, 0, s.len() - 1);
                } else {
                    let i = choose|i: int|
                        0 <= i < s.len() && (#[trigger] s[i]).spec_number() == m && nm2[m]
                            == s[i].spec_hash();
                    lemma_chain_numbers(s, i, s.len() - 1);
                }
            }
            // evicted blocks are gone from both indexes
            assert forall|j: int| 0 <= j < olds.len() implies !bm2.dom().contains(
                (#[trigger] olds[j]).spec_hash(),
            ) && (nm2.dom().contains(olds[j].spec_number()) ==> nm2[olds[j].spec_number()]
                != olds[j].spec_hash()) by {
                assert(evicted_hashes(olds).contains(olds[j].spec_hash()));
                assert(!bm1.dom().contains(olds[j].spec_hash()));
                if bm2.dom().contains(olds[j].spec_hash()) {
                    let i = choose|i: int|
                        0 <= i < s.len() && (#[trigger] s[i]).spec_hash() == olds[j].spec_hash();
                }
                if nm2.dom().contains(olds[j].spec_number()) {
                    let n = olds[j].spec_number();
                    if nm1.dom().contains(n) && nm2[n] == nm1[n] {
                        assert(evicted_numbers(olds).contains(n));
                        assert(!nm1.dom().contains(n));
                    } else {
                        let i = choose|i: int|
                            0 <= i < s.len() && (#[trigger] s[i]).spec_number() == n && nm2[n]
                                == s[i].spec_hash();
                        assert(s[i].spec_hash() != olds[j].spec_hash());
                    }
                }
            }
            // surviving blocks are untouched
            assert forall|h: B256|
                old(self).in_memory_state.blocks_view().dom().contains(h) && !evicted_hashes(
                    reorged@,
                ).contains(h) implies self.in_memory_state.blocks_view().dom().contains(h)
                && self.in_memory_state.blocks_view()[h] == old(
                self,
            ).in_memory_state.blocks_view()[h] by {
                assert(bm1.dom().contains(h) && bm1[h] == bm[h]);
                assert(bm2.dom().contains(h) && bm2[h] == bm1[h]);
            }
            // sound links under a sound join point
            if bm1.dom().contains(s[0].spec_parent_hash()) ==> bm[s[0].spec_parent_hash()].sound_links() {
                if bm1.dom().contains(s[0].spec_parent_hash()) {
                    assert(bm1[s[0].spec_parent_hash()] == bm[s[0].spec_parent_hash()]);
                }
                lemma_insert_all_sound(bm1, nm1, s);
            }
        }
    }

    /// Updates the in-memory state with the given chain transition. A commit
    /// is exactly a reorg that evicts nothing: both variants share one
    /// update step, and the pending slot is cleared unconditionally.
    pub fn update_chain(&mut self, new_chain: NewCanonicalChain)
        requires
            old(self).in_memory_state.wf(),
            transition_ok(old(self).in_memory_state, new_chain),
        ensures
            final(self).in_memory_state.wf(),
            final(self).in_memory_state.pending is None,
            final(self).chain_info_tracker == old(self).chain_info_tracker,
            final(self).canon_state_notification_sender == old(self).canon_state_notification_sender,
            // the exact protocol: evict the reorged blocks, then insert the
            // new blocks in order, each linked to the tracked state under
            // its parent hash as the index stands at that moment (possibly a
            // block inserted earlier in this same step); a commit is the
            // same fold with nothing evicted
            final(self).in_memory_state.blocks_view() == insert_all(
                old(self).in_memory_state.blocks_view().remove_keys(
                    evicted_hashes(new_chain.spec_reorged_blocks()),
                ),
                old(self).in_memory_state.numbers_view().remove_keys(
                    evicted_numbers(new_chain.spec_reorged_blocks()),
                ),
                new_chain.spec_new_blocks(),
            ).0,
            final(self).in_memory_state.numbers_view() == insert_all(
                old(self).in_memory_state.blocks_view().remove_keys(
                    evicted_hashes(new_chain.spec_reorged_blocks()),
                ),
                old(self).in_memory_state.numbers_view().remove_keys(
                    evicted_numbers(new_chain.spec_reorged_blocks()),
                ),
                new_chain.spec_new_blocks(),
            ).1,
            // every newly canonical block is resolvable by its hash
            forall|i: int|
                0 <= i < new_chain.spec_new_blocks().len() ==> final(self).in_memory_state.blocks_view().dom().contains(
                    (#[trigger] new_chain.spec_new_blocks()[i]).spec_hash(),
                ) && final(self).in_memory_state.blocks_view()[new_chain.spec_new_blocks()[i].spec_hash()].spec_block()
                    == new_chain.spec_new_blocks()[i],
            // the transition's tip becomes the tracked head
            final(self).in_memory_state.is_head_number(
                new_chain.spec_new_blocks().last().spec_number(),
            ),
            final(self).in_memory_state.numbers_view()[new_chain.spec_new_blocks().last().spec_number()]
                == new_chain.spec_new_blocks().last().spec_hash(),
            // every evicted block is unresolvable by hash, and by its former
            // number
            forall|j: int|
                0 <= j < new_chain.spec_reorged_blocks().len() ==> !final(self).in_memory_state.blocks_view().dom().contains(
                    (#[trigger] new_chain.spec_reorged_blocks()[j]).spec_hash(),
                ) && (final(self).in_memory_state.numbers_view().dom().contains(
                    new_chain.spec_reorged_blocks()[j].spec_number(),
                ) ==> final(self).in_memory_state.numbers_view()[new_chain.spec_reorged_blocks()[j].spec_number()]
                    != new_chain.spec_reorged_blocks()[j].spec_hash()),
            // blocks that were neither evicted nor replaced stay tracked
            forall|h: B256|
                old(self).in_memory_state.blocks_view().dom().contains(h) && !evicted_hashes(
                    new_chain.spec_reorged_blocks(),
                ).contains(h) ==> final(self).in_memory_state.blocks_view().dom().contains(h)
                    && final(self).in_memory_state.blocks_view()[h] == old(self).in_memory_state.blocks_view()[h],
            // when the join point is sound, every new state has sound links
            (old(self).in_memory_state.blocks_view().remove_keys(
                evicted_hashes(new_chain.spec_reorged_blocks()),
            ).dom().contains(new_chain.spec_new_blocks()[0].spec_parent_hash()) ==> old(self).in_memory_state.blocks_view()[new_chain.spec_new_blocks()[0].spec_parent_hash()].sound_links())
                ==> forall|i: int|
                0 <= i < new_chain.spec_new_blocks().len() ==> final(self).in_memory_state.blocks_view()[(
                #[trigger] new_chain.spec_new_blocks()[i]).spec_hash()].sound_links(),
    {
        match new_chain {
            NewCanonicalChain::Commit { new } => {
                self.update_blocks(new, Vec::new());
            },
            NewCanonicalChain::Reorg { new, old } => {
                self.update_blocks(new, old);
            },
        }
    }

    /// Removes all blocks persisted up to the given height from the
    /// in-memory state and re-links the survivors, so that no surviving
    /// state's chain references a removed block.
    pub fn remove_persisted_blocks(&mut self, persisted_height: u64)
        requires
            old(self).in_memory_state.wf(),
        ensures
            final(self).in_memory_state.wf(),
            final(self).in_memory_state.pending == old(self).in_memory_state.pending,
            final(self).chain_info_tracker == old(self).chain_info_tracker,
            final(self).canon_state_notification_sender == old(self).canon_state_notification_sender,
            // exactly the blocks above the height survive, with their blocks
            forall|h: B256|
                #[trigger] final(self).in_memory_state.blocks_view().dom().contains(h) <==> (old(self).in_memory_state.blocks_view().dom().contains(h) && old(self).in_memory_state.blocks_view()[h].spec_number() > persisted_height),
            forall|h: B256|
                #[trigger] final(self).in_memory_state.blocks_view().dom().contains(h) ==> final(self).in_memory_state.blocks_view()[h].spec_block() == old(self).in_memory_state.blocks_view()[h].spec_block(),
            // the number index holds exactly the survivors' numbers
            forall|n: u64|
                #[trigger] final(self).in_memory_state.numbers_view().dom().contains(n)
                    <==> exists|h: B256|
                    #[trigger] final(self).in_memory_state.blocks_view().dom().contains(h)
                        && final(self).in_memory_state.blocks_view()[h].spec_number() == n,
            // each survivor is re-linked against the re-inserted set: no
            // link is kept to an evicted block or to a survivor of a higher
            // number, and a survivor whose parent hash names a survivor of a
            // smaller number is linked to exactly that survivor
            forall|h: B256|
                #[trigger] final(self).in_memory_state.blocks_view().dom().contains(h) && !final(self).in_memory_state.blocks_view().dom().contains(
                    final(self).in_memory_state.blocks_view()[h].spec_parent_hash(),
                ) ==> final(self).in_memory_state.blocks_view()[h].spec_parent() is None,
            forall|h: B256|
                #[trigger] final(self).in_memory_state.blocks_view().dom().contains(h) && final(self).in_memory_state.blocks_view().dom().contains(
                    final(self).in_memory_state.blocks_view()[h].spec_parent_hash(),
                ) && final(self).in_memory_state.blocks_view()[final(self).in_memory_state.blocks_view()[h].spec_parent_hash()].spec_number()
                    < final(self).in_memory_state.blocks_view()[h].spec_number() ==> final(self).in_memory_state.blocks_view()[h].parent_is(
                    final(self).in_memory_state.blocks_view()[final(self).in_memory_state.blocks_view()[h].spec_parent_hash()],
                ),
            forall|h: B256|
                #[trigger] final(self).in_memory_state.blocks_view().dom().contains(h) && final(self).in_memory_state.blocks_view().dom().contains(
                    final(self).in_memory_state.blocks_view()[h].spec_parent_hash(),
                ) && final(self).in_memory_state.blocks_view()[final(self).in_memory_state.blocks_view()[h].spec_parent_hash()].spec_number()
                    > final(self).in_memory_state.blocks_view()[h].spec_number() ==> final(self).in_memory_state.blocks_view()[h].spec_parent() is None,
            // no surviving state's chain references a removed block: every
            // ancestor is itself a tracked survivor
            map_closed(final(self).in_memory_state.blocks_view()),
            forall|h: B256, i: int|
                #[trigger] final(self).in_memory_state.blocks_view().dom().contains(h) && 0 <= i
                    < final(self).in_memory_state.blocks_view()[h].chain_spec().len() ==> final(self).in_memory_state.blocks_view().dom().contains(
                    (#[trigger] final(self).in_memory_state.blocks_view()[h].chain_spec()[i]).spec_hash(),
                ) && final(self).in_memory_state.blocks_view()[final(self).in_memory_state.blocks_view()[h].chain_spec()[i].spec_hash()] == final(self).in_memory_state.blocks_view()[h].chain_spec()[i],
    {
        self.in_memory_state.remove_persisted_blocks(persisted_height);
        proof {
            let bm2 = self.in_memory_state.blocks_view();
            assert forall|h: B256, i: int|
                #[trigger] bm2.dom().contains(h) && 0 <= i < bm2[h].chain_spec().len() implies bm2.dom().contains(
                (#[trigger] bm2[h].chain_spec()[i]).spec_hash(),
            ) && bm2[bm2[h].chain_spec()[i].spec_hash()] == bm2[h].chain_spec()[i] by {
                crate::in_memory::lemma_closed_chain(bm2, bm2[h]);
            }
        }
    }
}


impl CanonicalInMemoryState {
    /// The tracked state for the given block hash.
    pub fn state_by_hash(&self, hash: B256) -> (r: Option<Arc<BlockState>>)
        requires
            self.in_memory_state.wf(),
        ensures
            match r {
                Some(s) => self.in_memory_state.spec_state_by_hash(hash) == Some(*s),
                None => self.in_memory_state.spec_state_by_hash(hash) is None,
            },
    {
        self.in_memory_state.state_by_hash(hash)
    }

    /// The tracked state for the given block number.
    pub fn state_by_number(&self, number: u64) -> (r: Option<Arc<BlockState>>)
        requires
            self.in_memory_state.wf(),
        ensures
            match r {
                Some(s) => self.in_memory_state.spec_state_by_number(number) == Some(*s),
                None => self.in_memory_state.spec_state_by_number(number) is None,
            },
    {
        self.in_memory_state.state_by_number(number)
    }

    /// The tracked state with the greatest block number.
    pub fn head_state(&self) -> (r: Option<Arc<BlockState>>)
        requires
            self.in_memory_state.wf(),
        ensures
            match r {
                Some(s) => exists|n: u64|
                    #[trigger] self.in_memory_state.is_head_number(n)
                        && self.in_memory_state.spec_state_by_number(n) == Some(*s),
                None => self.in_memory_state.numbers@.len() == 0,
            },
    {
        self.in_memory_state.head_state()
    }

    /// A copy of the pending state, with its parent link dropped.
    pub fn pending_state(&self) -> (r: Option<Arc<BlockState>>)
        ensures
            match r {
                Some(s) => self.in_memory_state.pending matches Some(p) && s.spec_block()
                    == p.spec_block() && s.spec_parent() is None,
                None => self.in_memory_state.pending is None,
            },
    {
        self.in_memory_state.pending_state()
    }

    /// The number and hash of the pending block.
    pub fn pending_block_num_hash(&self) -> (r: Option<BlockNumHash>)
        ensures
            match r {
                Some(nh) => self.in_memory_state.pending matches Some(p) && nh.number
                    == p.spec_number() && nh.hash == p.spec_hash(),
                None => self.in_memory_state.pending is None,
            },
    {
        match self.in_memory_state.pending_state() {
            Some(state) => Some(BlockNumHash { number: state.number(), hash: state.hash() }),
            None => None,
        }
    }

    /// The current chain info: best hash and best number.
    pub fn chain_info(&self) -> (r: ChainInfo)
        ensures
            r.best_hash == self.chain_info_tracker.canonical_head.hash,
            r.best_number == self.chain_info_tracker.canonical_head.spec_number(),
    {
        self.chain_info_tracker.chain_info()
    }

    /// The latest canonical block number.
    pub fn get_canonical_block_number(&self) -> (r: u64)
        ensures
            r == self.chain_info_tracker.canonical_head.spec_number(),
    {
        self.chain_info_tracker.get_canonical_block_number()
    }

    /// The number and hash of the safe head.
    pub fn get_safe_num_hash(&self) -> (r: Option<BlockNumHash>)
        ensures
            match r {
                Some(nh) => self.chain_info_tracker.safe_header matches Some(h) && nh.number
                    == h.spec_number() && nh.hash == h.hash,
                None => self.chain_info_tracker.safe_header is None,
            },
    {
        self.chain_info_tracker.get_safe_num_hash()
    }

    /// The number and hash of the finalized head.
    pub fn get_finalized_num_hash(&self) -> (r: Option<BlockNumHash>)
        ensures
            match r {
                Some(nh) => self.chain_info_tracker.finalized_header matches Some(h) && nh.number
                    == h.spec_number() && nh.hash == h.hash,
                None => self.chain_info_tracker.finalized_header is None,
            },
    {
        self.chain_info_tracker.get_finalized_num_hash()
    }

    /// Hook for a new fork-choice update.
    pub fn on_forkchoice_update_received(&mut self)
        ensures
            final(self).chain_info_tracker.last_forkchoice_update is Some,
            final(self).in_memory_state == old(self).in_memory_state,
            final(self).chain_info_tracker.canonical_head == old(
                self,
            ).chain_info_tracker.canonical_head,
    {
        self.chain_info_tracker.on_forkchoice_update_received();
    }

    /// When the last fork-choice update was received.
    pub fn last_received_update_timestamp(&self) -> (r: Option<Instant>)
        ensures
            r == self.chain_info_tracker.last_forkchoice_update,
    {
        self.chain_info_tracker.last_forkchoice_update_received_at()
    }

    /// Hook for an exchanged transition configuration.
    pub fn on_transition_configuration_exchanged(&mut self)
        ensures
            final(self).chain_info_tracker.last_transition_configuration is Some,
            final(self).in_memory_state == old(self).in_memory_state,
            final(self).chain_info_tracker.canonical_head == old(
                self,
            ).chain_info_tracker.canonical_head,
    {
        self.chain_info_tracker.on_transition_configuration_exchanged();
    }

    /// When the last transition configuration was exchanged.
    pub fn last_exchanged_transition_configuration_timestamp(&self) -> (r: Option<Instant>)
        ensures
            r == self.chain_info_tracker.last_transition_configuration,
    {
        self.chain_info_tracker.last_transition_configuration_exchanged_at()
    }

    /// Canonical head setter.
    pub fn set_canonical_head(&mut self, header: SealedHeader)
        ensures
            final(self).chain_info_tracker.canonical_head == header,
            final(self).in_memory_state == old(self).in_memory_state,
    {
        self.chain_info_tracker.set_canonical_head(header);
    }

    /// Safe head setter.
    pub fn set_safe(&mut self, header: SealedHeader)
        ensures
            final(self).chain_info_tracker.safe_header == Some(header),
            final(self).in_memory_state == old(self).in_memory_state,
            final(self).chain_info_tracker.canonical_head == old(
                self,
            ).chain_info_tracker.canonical_head,
    {
        self.chain_info_tracker.set_safe(header);
    }

    /// Finalized head setter.
    pub fn set_finalized(&mut self, header: SealedHeader)
        ensures
            final(self).chain_info_tracker.finalized_header == Some(header),
            final(self).in_memory_state == old(self).in_memory_state,
            final(self).chain_info_tracker.canonical_head == old(
                self,
            ).chain_info_tracker.canonical_head,
    {
        self.chain_info_tracker.set_finalized(header);
    }

    /// Canonical head getter.
    pub fn get_canonical_head(&self) -> (r: SealedHeader)
        ensures
            r == self.chain_info_tracker.canonical_head,
    {
        self.chain_info_tracker.get_canonical_head()
    }

    /// Finalized header getter.
    pub fn get_finalized_header(&self) -> (r: Option<SealedHeader>)
        ensures
            r == self.chain_info_tracker.finalized_header,
    {
        self.chain_info_tracker.get_finalized_header()
    }

    /// Safe header getter.
    pub fn get_safe_header(&self) -> (r: Option<SealedHeader>)
        ensures
            r == self.chain_info_tracker.safe_header,
    {
        self.chain_info_tracker.get_safe_header()
    }

    /// The sealed header of the pending block.
    pub fn pending_sealed_header(&self) -> (r: Option<SealedHeader>)
        ensures
            match r {
                Some(h) => self.in_memory_state.pending matches Some(p) && h == (
                *p.spec_block().block).header,
                None => self.in_memory_state.pending is None,
            },
    {
        match self.pending_state() {
            Some(h) => Some(h.block().block().header),
            None => None,
        }
    }

    /// The plain header of the pending block.
    pub fn pending_header(&self) -> (r: Option<Header>)
        ensures
            match r {
                Some(h) => self.in_memory_state.pending matches Some(p) && h == (
                *p.spec_block().block).header.header,
                None => self.in_memory_state.pending is None,
            },
    {
        match self.pending_sealed_header() {
            Some(sealed_header) => Some(sealed_header.unseal()),
            None => None,
        }
    }

    /// The sealed block of the pending state.
    pub fn pending_block(&self) -> (r: Option<SealedBlock>)
        ensures
            match r {
                Some(b) => self.in_memory_state.pending matches Some(p) && b == *p.spec_block().block,
                None => self.in_memory_state.pending is None,
            },
    {
        match self.pending_state() {
            Some(block_state) => Some(*block_state.block().block()),
            None => None,
        }
    }

    /// The pending sealed block paired with its senders; the senders come
    /// from the executed bundle itself.
    pub fn pending_block_with_senders(&self) -> (r: Option<SealedBlockWithSenders>)
        ensures
            match r {
                Some(bs) => self.in_memory_state.pending matches Some(p) && bs.block
                    == *p.spec_block().block && bs.senders@ == p.spec_block().senders@,
                None => self.in_memory_state.pending is None,
            },
    {
        match self.pending_state() {
            Some(block_state) => Some(block_state.block().sealed_block_with_senders()),
            None => None,
        }
    }

    /// The pending sealed block together with its receipts.
    pub fn pending_block_and_receipts(&self) -> (r: Option<(SealedBlock, Vec<Receipt>)>)
        ensures
            match r {
                Some(br) => self.in_memory_state.pending matches Some(p) && br.0
                    == *p.spec_block().block && br.1@ == p.spec_executed_block_receipts(),
                None => self.in_memory_state.pending is None,
            },
    {
        match self.pending_state() {
            Some(block_state) => Some(
                (*block_state.block().block(), block_state.executed_block_receipts()),
            ),
            None => None,
        }
    }

    /// Subscribe to canonical-state events.
    pub fn subscribe_canon_state(&self) -> CanonStateNotifications {
        subscribe_notifications(&self.canon_state_notification_sender)
    }

    /// Attempts to send a canonical-state event to all active receivers;
    /// delivery is best-effort and a send with no receivers is a no-op.
    pub fn notify_canon_state(&self, event: CanonStateNotification) {
        send_notification(&self.canon_state_notification_sender, event);
    }

    /// A state reader over the chain that the requested block is the head
    /// of, backed by the given historical reader past the anchor. An unknown
    /// hash yields a reader with no in-memory component.
    pub fn state_provider<H>(&self, hash: B256, historical: H) -> (r: MemoryOverlayStateProvider<
        H,
    >)
        requires
            self.in_memory_state.wf(),
        ensures
            match self.in_memory_state.spec_state_by_hash(hash) {
                Some(s) => r.in_memory@.len() == s.chain_spec().len() && forall|i: int|
                    0 <= i < r.in_memory@.len() ==> (#[trigger] r.in_memory@[i]) == s.chain_spec()[i].spec_block(),
                None => r.in_memory@.len() == 0,
            },
            r.historical == historical,
    {
        let in_memory: Vec<ExecutedBlock> = match self.state_by_hash(hash) {
            Some(state) => {
                let chain = state.chain();
                let mut blocks: Vec<ExecutedBlock> = Vec::new();
                let mut i: usize = 0;
                while i < chain.len()
                    invariant
                        i <= chain@.len(),
                        chain@.len() == (*state).chain_spec().len(),
                        forall|k: int|
                            0 <= k < chain@.len() ==> *chain@[k] == (*state).chain_spec()[k],
                        blocks@.len() == i,
                        forall|k: int|
                            0 <= k < i ==> (#[trigger] blocks@[k]) == (*state).chain_spec()[
                                k
                            ].spec_block(),
                    decreases chain@.len() - i,
                {
                    blocks.push(chain[i].block());
                    i = i + 1;
                }
                blocks
            },
            None => Vec::new(),
        };
        MemoryOverlayStateProvider::new(in_memory, historical)
    }

    /// How many states are tracked by hash.
    pub fn block_count(&self) -> (r: usize)
        ensures
            r == self.in_memory_state.blocks@.len(),
            self.in_memory_state.wf() ==> r == self.in_memory_state.blocks_view().dom().len(),
    {
        self.in_memory_state.block_count()
    }
}


impl CanonicalInMemoryState {
    /// Whether the given block sequences meet the update discipline against
    /// the current indexes.
    fn check_update(&self, new: &Vec<ExecutedBlock>, reorged: &Vec<ExecutedBlock>) -> (r: bool)
        requires
            self.in_memory_state.wf(),
        ensures
            r == update_ok(self.in_memory_state, new@, reorged@),
    {
        let ghost bm = self.in_memory_state.blocks_view();
        let ghost bm1 = bm.remove_keys(evicted_hashes(reorged@));
        if new.len() == 0 {
            return false;
        }
        // the new blocks form a parent-linked chain, oldest first
        let mut i: usize = 1;
        while i < new.len()
            invariant
                1 <= i,
                i <= new@.len(),
                forall|k: int|
                    1 <= k < i ==> (#[trigger] new@[k]).spec_parent_hash() == new@[k
                        - 1].spec_hash() && new@[k].spec_number() == new@[k - 1].spec_number() + 1,
            decreases new@.len() - i,
        {
            let prev_number = new[i - 1].block().number();
            let linked = new[i].block().parent_hash() == new[i - 1].block().hash() && prev_number
                < u64::MAX && new[i].block().number() == prev_number + 1;
            if !linked {
                proof {
                    assert(!chain_linked(new@));
                }
                return false;
            }
            i = i + 1;
        }
        proof {
            assert(chain_linked(new@));
        }
        // no two new blocks share a hash
        let mut i: usize = 0;
        while i < new.len()
            invariant
                i <= new@.len(),
                forall|a: int, b: int|
                    0 <= a < b < new@.len() && a < i ==> (#[trigger] new@[a]).spec_hash() != (
                    #[trigger] new@[b]).spec_hash(),
            decreases new@.len() - i,
        {
            let mut j: usize = i + 1;
            while j < new.len()
                invariant
                    i < j,
                    j <= new@.len(),
                    i < new@.len(),
                    forall|b: int|
                        i < b < j ==> (#[trigger] new@[b]).spec_hash() != new@[i as int].spec_hash(),
                decreases new@.len() - j,
            {
                if new[i].block().hash() == new[j].block().hash() {
                    proof {
                        assert(!distinct_hashes(new@));
                    }
                    return false;
                }
                j = j + 1;
            }
            i = i + 1;
        }
        proof {
            assert(distinct_hashes(new@));
        }
        // every new hash is fresh: untracked once the evicted blocks are
        // gone, and not a hash of the evicted chain either
        let mut i: usize = 0;
        while i < new.len()
            invariant
                self.in_memory_state.wf(),
                bm == self.in_memory_state.blocks_view(),
                bm1 == bm.remove_keys(evicted_hashes(reorged@)),
                i <= new@.len(),
                forall|k: int|
                    0 <= k < i ==> !bm1.dom().contains((#[trigger] new@[k]).spec_hash()),
                forall|k: int, j: int|
                    0 <= k < i && 0 <= j < reorged@.len() ==> (#[trigger] new@[k]).spec_hash() != (
                    #[trigger] reorged@[j]).spec_hash(),
            decreases new@.len() - i,
        {
            let h = new[i].block().hash();
            if chain_contains_hash(reorged, h) {
                proof {
                    let j = choose|j: int|
                        0 <= j < reorged@.len() && (#[trigger] reorged@[j]).spec_hash() == h;
                }
                return false;
            }
            if self.in_memory_state.state_by_hash(h).is_some() {
                proof {
                    assert(bm.dom().contains(h));
                    assert(bm1.dom().contains(h));
                }
                return false;
            }
            proof {
                assert(!bm.dom().contains(h));
            }
            i = i + 1;
        }
        // every evicted block carries the number it is tracked under
        let mut j: usize = 0;
        while j < reorged.len()
            invariant
                self.in_memory_state.wf(),
                bm == self.in_memory_state.blocks_view(),
                j <= reorged@.len(),
                forall|k: int|
                    0 <= k < j ==> (bm.dom().contains((#[trigger] reorged@[k]).spec_hash())
                        ==> bm[reorged@[k].spec_hash()].spec_number() == reorged@[k].spec_number()),
            decreases reorged@.len() - j,
        {
            match self.in_memory_state.state_by_hash(reorged[j].block().hash()) {
                Some(found) => {
                    if found.number() != reorged[j].block().number() {
                        return false;
                    }
                },
                None => (),
            }
            j = j + 1;
        }
        // every surviving tracked number lies at or below the new tip
        let tip_number = new[new.len() - 1].block().number();
        let numbers_ref = &self.in_memory_state.numbers;
        let mut k: usize = 0;
        proof {
            lemma_assoc_dom(numbers_ref@);
        }
        while k < numbers_ref.len()
            invariant
                numbers_ref@ == self.in_memory_state.numbers@,
                k <= numbers_ref@.len(),
                new@.len() > 0,
                tip_number == new@[new@.len() - 1].spec_number(),
                forall|m: int|
                    0 <= m < k ==> (evicted_numbers(reorged@).contains(
                        (#[trigger] numbers_ref@[m]).0,
                    ) || numbers_ref@[m].0 <= tip_number),
            decreases numbers_ref@.len() - k,
        {
            let n = numbers_ref[k].0;
            if n > tip_number && !chain_contains_number(reorged, n) {
                proof {
                    lemma_assoc_dom(numbers_ref@);
                    assert(self.in_memory_state.numbers_view().dom().contains(n));
                }
                return false;
            }
            k = k + 1;
        }
        proof {
            assert forall|n: u64|
                #[trigger] self.in_memory_state.numbers_view().dom().contains(n)
                    && !evicted_numbers(reorged@).contains(n) implies n <= new@[new@.len()
                - 1].spec_number() by {
                let m = choose|m: int|
                    0 <= m < self.in_memory_state.numbers@.len() && (
                    #[trigger] self.in_memory_state.numbers@[m]).0 == n;
            }
        }
        // the first new block joins a surviving parent of a smaller number,
        // or starts at the anchor
        let ph = new[0].block().parent_hash();
        if !chain_contains_hash(reorged, ph) {
            match self.in_memory_state.state_by_hash(ph) {
                Some(parent) => {
                    proof {
                        assert(bm1.dom().contains(ph) && bm1[ph] == bm[ph]);
                    }
                    if !(parent.number() < new[0].block().number()) {
                        return false;
                    }
                },
                None => {
                    proof {
                        assert(!bm1.dom().contains(ph));
                    }
                },
            }
        } else {
            proof {
                assert(evicted_hashes(reorged@).contains(ph));
                assert(!bm1.dom().contains(ph));
            }
        }
        proof {
            assert(update_ok(self.in_memory_state, new@, reorged@));
        }
        true
    }

    /// Whether the transition meets the discipline `update_chain` requires
    /// against the current indexes. Callers that cannot establish the
    /// discipline by proof can test it with this.
    pub fn check_transition(&self, new_chain: &NewCanonicalChain) -> (r: bool)
        requires
            self.in_memory_state.wf(),
        ensures
            r == transition_ok(self.in_memory_state, *new_chain),
    {
        match new_chain {
            NewCanonicalChain::Commit { new } => {
                let empty: Vec<ExecutedBlock> = Vec::new();
                let ok = self.check_update(new, &empty);
                proof {
                    assert(evicted_hashes(empty@) =~= evicted_hashes(
                        new_chain.spec_reorged_blocks(),
                    ));
                    assert(evicted_numbers(empty@) =~= evicted_numbers(
                        new_chain.spec_reorged_blocks(),
                    ));
                    assert(update_ok(self.in_memory_state, new@, empty@) == update_ok(
                        self.in_memory_state,
                        new_chain.spec_new_blocks(),
                        new_chain.spec_reorged_blocks(),
                    ));
                }
                ok
            },
            NewCanonicalChain::Reorg { new, old } => {
                let ok = self.check_update(new, old);
                ok && old.len() > 0
            },
        }
    }
}

} // verus!
