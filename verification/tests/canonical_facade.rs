use chain_state::block_state::BlockState;
use chain_state::canonical::{
    CanonStateNotification, CanonicalInMemoryState, NewCanonicalChain,
};
use chain_state::executed_block::ExecutedBlock;
use chain_state::primitives::{
    ExecutionOutcome, HashedPostState, Header, Receipts, SealedBlock, SealedHeader, TrieUpdates,
    B256,
};
use std::sync::Arc;

fn b256(n: u64) -> B256 {
    B256 { a: 0, b: 0, c: 0, d: n }
}

fn get_executed_block_with_number(number: u64, parent_hash: B256) -> ExecutedBlock {
    let hash = B256 { a: 1, b: parent_hash.d, c: parent_hash.b, d: number };
    ExecutedBlock::new(
        Arc::new(SealedBlock::new(SealedHeader::new(
            Header { number, parent_hash, state_root: b256(900 + number), timestamp: 0 },
            hash,
        ))),
        Arc::new(Vec::new()),
        Arc::new(ExecutionOutcome {
            receipts: Receipts { receipt_vec: Vec::new() },
            first_block: number,
        }),
        Arc::new(HashedPostState { accounts: Vec::new() }),
        Arc::new(TrieUpdates { nodes: Vec::new() }),
    )
}

struct MockStateProvider;

#[test]
fn test_canonical_in_memory_state_state_provider() {
    let block1 = get_executed_block_with_number(1, b256(1022));
    let block2 = get_executed_block_with_number(2, block1.block().hash());
    let block3 = get_executed_block_with_number(3, block2.block().hash());

    let state1 = BlockState::new(block1.clone());
    let state2 = BlockState::with_parent(block2.clone(), Some(state1.clone()));
    let state3 = BlockState::with_parent(block3.clone(), Some(state2.clone()));

    let blocks = vec![
        (block1.block().hash(), state1),
        (block2.block().hash(), state2),
        (block3.block().hash(), state3),
    ];
    let numbers = vec![
        (1, block1.block().hash()),
        (2, block2.block().hash()),
        (3, block3.block().hash()),
    ];

    let canonical_state = CanonicalInMemoryState::new(blocks, numbers, None);

    let overlay_provider = canonical_state.state_provider(block3.block().hash(), MockStateProvider);

    assert_eq!(overlay_provider.in_memory.len(), 3);
    assert_eq!(overlay_provider.in_memory[0].block().number(), 1);
    assert_eq!(overlay_provider.in_memory[1].block().number(), 2);
    assert_eq!(overlay_provider.in_memory[2].block().number(), 3);

    assert_eq!(
        overlay_provider.in_memory[1].block().parent_hash(),
        overlay_provider.in_memory[0].block().hash()
    );
    assert_eq!(
        overlay_provider.in_memory[2].block().parent_hash(),
        overlay_provider.in_memory[1].block().hash()
    );

    let unknown_hash = b256(1023);
    let empty_overlay_provider = canonical_state.state_provider(unknown_hash, MockStateProvider);
    assert_eq!(empty_overlay_provider.in_memory.len(), 0);
}

#[test]
fn test_three_block_commit_round_trip() {
    let mut state = CanonicalInMemoryState::new(Vec::new(), Vec::new(), None);
    let b1 = get_executed_block_with_number(1, b256(1024));
    let b2 = get_executed_block_with_number(2, b1.block().hash());
    let b3 = get_executed_block_with_number(3, b2.block().hash());

    state.update_chain(NewCanonicalChain::Commit {
        new: vec![b1.clone(), b2.clone(), b3.clone()],
    });

    let tip_state = state.state_by_hash(b3.block().hash()).unwrap();
    let chain = tip_state.chain();
    assert_eq!(chain.len(), 3);
    assert_eq!(chain[0].block(), b1);
    assert_eq!(chain[1].block(), b2);
    assert_eq!(chain[2].block(), b3);

    let first_state = state.state_by_hash(b1.block().hash()).unwrap();
    let chain = first_state.chain();
    assert_eq!(chain.len(), 1);
    assert_eq!(chain[0].block(), b1);

    assert_eq!(state.head_state().unwrap().number(), 3);
}

#[test]
fn test_remove_persisted_blocks_relinks_survivors() {
    let mut state = CanonicalInMemoryState::new(Vec::new(), Vec::new(), None);
    let b1 = get_executed_block_with_number(1, b256(1025));
    let b2 = get_executed_block_with_number(2, b1.block().hash());
    let b3 = get_executed_block_with_number(3, b2.block().hash());

    state.update_chain(NewCanonicalChain::Commit {
        new: vec![b1.clone(), b2.clone(), b3.clone()],
    });

    state.remove_persisted_blocks(1);

    assert_eq!(state.state_by_hash(b1.block().hash()), None);
    assert_eq!(state.state_by_number(1), None);
    assert_eq!(state.block_count(), 2);

    let tip_state = state.state_by_hash(b3.block().hash()).unwrap();
    let chain = tip_state.chain();
    assert_eq!(chain.len(), 2);
    assert_eq!(chain[0].block(), b2);
    assert_eq!(chain[1].block(), b3);

    // the surviving chain joins disk at the pruned block
    let anchor = tip_state.anchor();
    assert_eq!(anchor.number, 1);
    assert_eq!(anchor.hash, b1.block().hash());

    // the pruning threshold at the tip empties the tracker
    state.remove_persisted_blocks(3);
    assert_eq!(state.block_count(), 0);
    assert!(state.head_state().is_none());
}

#[test]
fn test_update_chain_clears_pending() {
    let pending = BlockState::new(get_executed_block_with_number(7, b256(1026)));
    let mut state = CanonicalInMemoryState::new(Vec::new(), Vec::new(), Some(pending));
    assert!(state.pending_state().is_some());
    assert!(state.pending_block_num_hash().is_some());

    let b1 = get_executed_block_with_number(1, b256(1027));
    state.update_chain(NewCanonicalChain::Commit { new: vec![b1] });

    assert_eq!(state.pending_state(), None);
    assert_eq!(state.pending_block_num_hash(), None);
    assert_eq!(state.pending_block(), None);
    assert_eq!(state.pending_header(), None);
    assert_eq!(state.pending_sealed_header(), None);
}

#[test]
fn test_notification_carries_last_outcome_only() {
    let b1 = get_executed_block_with_number(1, b256(1028));
    let b2 = get_executed_block_with_number(2, b1.block().hash());

    let transition = NewCanonicalChain::Commit { new: vec![b1.clone(), b2.clone()] };
    assert_eq!(transition.new_block_count(), 2);
    assert_eq!(transition.reorged_block_count(), 0);
    assert_eq!(transition.tip().hash(), b2.block().hash());

    let notification = transition.to_chain_notification();
    match notification {
        CanonStateNotification::Commit { new } => {
            assert_eq!(new.blocks.len(), 2);
            assert_eq!(new.blocks[0].block.hash(), b1.block().hash());
            assert_eq!(new.blocks[1].block.hash(), b2.block().hash());
            // only the last block's execution outcome is attached, not a
            // merge of all blocks' outcomes
            assert_eq!(*new.execution_outcome, *b2.execution_output);
            assert_ne!(*new.execution_outcome, *b1.execution_output);
            assert!(new.trie_updates.is_none());
        }
        CanonStateNotification::Reorg { .. } => panic!("expected a commit notification"),
    }
}

#[test]
fn test_reorg_notification_shape() {
    let b1 = get_executed_block_with_number(1, b256(1029));
    let b1b = get_executed_block_with_number(1, b256(1030));

    let transition = NewCanonicalChain::Reorg { new: vec![b1b.clone()], old: vec![b1.clone()] };
    assert_eq!(transition.new_block_count(), 1);
    assert_eq!(transition.reorged_block_count(), 1);

    match transition.to_chain_notification() {
        CanonStateNotification::Reorg { old, new } => {
            assert_eq!(old.blocks.len(), 1);
            assert_eq!(old.blocks[0].block.hash(), b1.block().hash());
            assert_eq!(new.blocks.len(), 1);
            assert_eq!(new.blocks[0].block.hash(), b1b.block().hash());
        }
        CanonStateNotification::Commit { .. } => panic!("expected a reorg notification"),
    }
}

#[test]
fn test_subscribe_and_notify() {
    let mut state = CanonicalInMemoryState::new(Vec::new(), Vec::new(), None);
    let mut rx = state.subscribe_canon_state();

    let b1 = get_executed_block_with_number(1, b256(1031));
    let transition = NewCanonicalChain::Commit { new: vec![b1.clone()] };
    let notification = transition.to_chain_notification();
    state.update_chain(transition);
    state.notify_canon_state(notification);

    match rx.try_recv().unwrap() {
        CanonStateNotification::Commit { new } => {
            assert_eq!(new.blocks.len(), 1);
            assert_eq!(new.blocks[0].block.hash(), b1.block().hash());
        }
        CanonStateNotification::Reorg { .. } => panic!("expected a commit notification"),
    }

    // sending with no receivers attached is a silent no-op
    drop(rx);
    let b2 = get_executed_block_with_number(2, b1.block().hash());
    let transition = NewCanonicalChain::Commit { new: vec![b2] };
    let notification = transition.to_chain_notification();
    state.notify_canon_state(notification);
}

#[test]
fn test_chain_info_tracking() {
    let mut state = CanonicalInMemoryState::with_head(SealedHeader::new(
        Header { number: 5, parent_hash: b256(1032), state_root: b256(905), timestamp: 0 },
        b256(1033),
    ));

    assert_eq!(state.get_canonical_block_number(), 5);
    assert_eq!(state.chain_info().best_number, 5);
    assert_eq!(state.chain_info().best_hash, b256(1033));
    assert_eq!(state.get_canonical_head().hash, b256(1033));
    assert_eq!(state.get_safe_header(), None);
    assert_eq!(state.get_finalized_header(), None);
    assert_eq!(state.get_safe_num_hash(), None);
    assert_eq!(state.get_finalized_num_hash(), None);

    let safe = SealedHeader::new(
        Header { number: 3, parent_hash: b256(1034), state_root: b256(903), timestamp: 0 },
        b256(1035),
    );
    let finalized = SealedHeader::new(
        Header { number: 2, parent_hash: b256(1036), state_root: b256(902), timestamp: 0 },
        b256(1037),
    );
    state.set_safe(safe);
    state.set_finalized(finalized);
    let new_head = SealedHeader::new(
        Header { number: 6, parent_hash: b256(1033), state_root: b256(906), timestamp: 0 },
        b256(1038),
    );
    state.set_canonical_head(new_head);

    assert_eq!(state.get_canonical_head(), new_head);
    assert_eq!(state.get_safe_header(), Some(safe));
    assert_eq!(state.get_finalized_header(), Some(finalized));
    assert_eq!(state.get_safe_num_hash().unwrap().number, 3);
    assert_eq!(state.get_safe_num_hash().unwrap().hash, b256(1035));
    assert_eq!(state.get_finalized_num_hash().unwrap().number, 2);
    assert_eq!(state.header_by_hash(b256(1039)), None);

    assert!(state.last_received_update_timestamp().is_none());
    state.on_forkchoice_update_received();
    assert!(state.last_received_update_timestamp().is_some());

    assert!(state.last_exchanged_transition_configuration_timestamp().is_none());
    state.on_transition_configuration_exchanged();
    assert!(state.last_exchanged_transition_configuration_timestamp().is_some());
}

#[test]
fn test_header_and_pending_views() {
    let b1 = get_executed_block_with_number(1, b256(1040));
    let pending_block = get_executed_block_with_number(2, b1.block().hash());
    let pending = BlockState::new(pending_block.clone());

    let mut state = CanonicalInMemoryState::new(Vec::new(), Vec::new(), Some(pending));
    state.update_chain(NewCanonicalChain::Commit { new: vec![b1.clone()] });

    // the commit cleared the pending slot; reinstall one
    let state = CanonicalInMemoryState::new(
        vec![(b1.block().hash(), BlockState::new(b1.clone()))],
        vec![(1, b1.block().hash())],
        Some(BlockState::new(pending_block.clone())),
    );

    assert_eq!(
        state.header_by_hash(b1.block().hash()),
        Some(b1.block().header)
    );
    assert_eq!(state.pending_block(), Some(*pending_block.block()));
    assert_eq!(
        state.pending_header().unwrap().number,
        2
    );
    assert_eq!(
        state.pending_sealed_header().unwrap().hash,
        pending_block.block().hash()
    );
    let with_senders = state.pending_block_with_senders().unwrap();
    assert_eq!(with_senders.block.hash(), pending_block.block().hash());
    assert_eq!(with_senders.senders.len(), 0);
    let (block, receipts) = state.pending_block_and_receipts().unwrap();
    assert_eq!(block.hash(), pending_block.block().hash());
    assert_eq!(receipts.len(), 0);
}

#[test]
fn test_number_overwrite_keeps_old_hash_addressable() {
    // a new block may take over a number tracked under a different,
    // surviving hash: the number entry is overwritten while the old block
    // stays addressable by hash
    let mut state = CanonicalInMemoryState::new(Vec::new(), Vec::new(), None);
    let b1 = get_executed_block_with_number(1, b256(1043));
    let b2 = get_executed_block_with_number(2, b1.block().hash());
    state.update_chain(NewCanonicalChain::Commit { new: vec![b1.clone(), b2.clone()] });

    let c1 = get_executed_block_with_number(1, b256(1044));
    state.update_chain(NewCanonicalChain::Reorg { new: vec![c1.clone()], old: vec![b2.clone()] });

    assert_eq!(state.state_by_number(1).unwrap().hash(), c1.block().hash());
    assert_eq!(state.state_by_hash(b2.block().hash()), None);
    assert!(state.state_by_hash(b1.block().hash()).is_some());
    assert_eq!(state.block_count(), 2);
    assert_eq!(state.head_state().unwrap().hash(), c1.block().hash());
}

#[test]
fn test_check_transition_accepts_and_refuses() {
    let mut state = CanonicalInMemoryState::new(Vec::new(), Vec::new(), None);
    let b1 = get_executed_block_with_number(1, b256(1045));
    let b2 = get_executed_block_with_number(2, b1.block().hash());
    let b3 = get_executed_block_with_number(3, b2.block().hash());

    // a proper two-block commit is accepted
    let good = NewCanonicalChain::Commit { new: vec![b1.clone(), b2.clone()] };
    assert!(state.check_transition(&good));
    state.update_chain(good);

    // an empty commit is refused
    assert!(!state.check_transition(&NewCanonicalChain::Commit { new: Vec::new() }));

    // an unlinked chain is refused
    let unlinked = get_executed_block_with_number(9, b256(1046));
    assert!(!state.check_transition(&NewCanonicalChain::Commit { new: vec![b3.clone(), unlinked] }));

    // an already-tracked hash is refused
    assert!(!state.check_transition(&NewCanonicalChain::Commit { new: vec![b2.clone()] }));

    // a commit below the tracked head is refused
    let stale = get_executed_block_with_number(1, b256(1047));
    assert!(!state.check_transition(&NewCanonicalChain::Commit { new: vec![stale] }));

    // a reorg must evict something
    assert!(!state.check_transition(&NewCanonicalChain::Reorg {
        new: vec![b3.clone()],
        old: Vec::new(),
    }));

    // evicting an untracked block is allowed by the discipline
    assert!(state.check_transition(&NewCanonicalChain::Reorg {
        new: vec![b3.clone()],
        old: vec![get_executed_block_with_number(5, b256(1048))],
    }));

    // an eviction naming a tracked hash under the wrong number is refused
    let mishashed = ExecutedBlock::new(
        Arc::new(SealedBlock::new(SealedHeader::new(
            Header { number: 7, parent_hash: b256(1045), state_root: b256(907), timestamp: 0 },
            b2.block().hash(),
        ))),
        Arc::new(Vec::new()),
        Arc::new(ExecutionOutcome {
            receipts: Receipts { receipt_vec: Vec::new() },
            first_block: 7,
        }),
        Arc::new(HashedPostState { accounts: Vec::new() }),
        Arc::new(TrieUpdates { nodes: Vec::new() }),
    );
    assert!(!state.check_transition(&NewCanonicalChain::Reorg {
        new: vec![b3.clone()],
        old: vec![mishashed],
    }));

    // duplicate hashes within the new chain are refused
    assert!(!state.check_transition(&NewCanonicalChain::Commit {
        new: vec![b3.clone(), b3.clone()],
    }));
}
