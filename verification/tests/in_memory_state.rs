use chain_state::block_state::BlockState;
use chain_state::canonical::{CanonicalInMemoryState, NewCanonicalChain};
use chain_state::executed_block::ExecutedBlock;
use chain_state::in_memory::InMemoryState;
use chain_state::primitives::{
    ExecutionOutcome, HashedPostState, Header, Receipts, SealedBlock, SealedHeader, TrieUpdates,
    B256,
};
use std::sync::Arc;

fn b256(n: u64) -> B256 {
    B256 { a: 0, b: 0, c: 0, d: n }
}

fn get_executed_block_with_number(number: u64, parent_hash: B256) -> ExecutedBlock {
    let hash = B256 { a: 1, b: parent_hash.d, c: parent_hash.b, d: number };
    ExecutedBlock::new(
        Arc::new(SealedBlock::new(SealedHeader::new(
            Header { number, parent_hash, state_root: b256(900 + number), timestamp: 0 },
            hash,
        ))),
        Arc::new(Vec::new()),
        Arc::new(ExecutionOutcome {
            receipts: Receipts { receipt_vec: Vec::new() },
            first_block: number,
        }),
        Arc::new(HashedPostState { accounts: Vec::new() }),
        Arc::new(TrieUpdates { nodes: Vec::new() }),
    )
}

fn create_mock_state(block_number: u64, parent_hash: B256) -> BlockState {
    BlockState::new(get_executed_block_with_number(block_number, parent_hash))
}

#[test]
fn test_in_memory_state_impl_state_by_hash() {
    let number = 23u64;
    let state = create_mock_state(number, b256(1001));
    let blocks = vec![(state.hash(), state.clone())];

    let in_memory_state = InMemoryState::new(blocks, Vec::new(), None);

    assert_eq!(
        in_memory_state.state_by_hash(state.hash()),
        Some(Arc::new(state))
    );
    assert_eq!(in_memory_state.state_by_hash(b256(1002)), None);
}

#[test]
fn test_in_memory_state_impl_state_by_number() {
    let number = 42u64;
    let state = create_mock_state(number, b256(1003));
    let hash = state.hash();

    let blocks = vec![(hash, state.clone())];
    let numbers = vec![(number, hash)];

    let in_memory_state = InMemoryState::new(blocks, numbers, None);

    assert_eq!(in_memory_state.state_by_number(number), Some(Arc::new(state)));
    assert_eq!(in_memory_state.state_by_number(number + 1), None);
}

#[test]
fn test_in_memory_state_impl_head_state() {
    let state1 = create_mock_state(1, b256(1004));
    let hash1 = state1.hash();
    let state2 = create_mock_state(2, hash1);
    let hash2 = state2.hash();
    let numbers = vec![(1, hash1), (2, hash2)];
    let blocks = vec![(hash1, state1), (hash2, state2)];

    let in_memory_state = InMemoryState::new(blocks, numbers, None);
    let head_state = in_memory_state.head_state().unwrap();

    assert_eq!(head_state.hash(), hash2);
    assert_eq!(head_state.number(), 2);
}

#[test]
fn test_in_memory_state_impl_pending_state() {
    let pending_number = 9u64;
    let pending_state = create_mock_state(pending_number, b256(1005));
    let pending_hash = pending_state.hash();

    let in_memory_state = InMemoryState::new(Vec::new(), Vec::new(), Some(pending_state));

    let result = in_memory_state.pending_state();
    assert!(result.is_some());
    let actual_pending_state = result.unwrap();
    assert_eq!(actual_pending_state.block().block().hash(), pending_hash);
    assert_eq!(actual_pending_state.block().block().number(), pending_number);
}

#[test]
fn test_in_memory_state_impl_no_pending_state() {
    let in_memory_state = InMemoryState::new(Vec::new(), Vec::new(), None);

    assert_eq!(in_memory_state.pending_state(), None);
}

#[test]
fn test_in_memory_state_chain_update() {
    let mut state = CanonicalInMemoryState::new(Vec::new(), Vec::new(), None);
    let block1 = get_executed_block_with_number(0, b256(1006));
    let block2 = get_executed_block_with_number(0, b256(1007));
    let chain = NewCanonicalChain::Commit { new: vec![block1.clone()] };
    state.update_chain(chain);
    assert_eq!(
        state.head_state().unwrap().block().block().hash(),
        block1.block().hash()
    );
    assert_eq!(
        state.state_by_number(0).unwrap().block().block().hash(),
        block1.block().hash()
    );

    let chain = NewCanonicalChain::Reorg { new: vec![block2.clone()], old: vec![block1] };
    state.update_chain(chain);
    assert_eq!(
        state.head_state().unwrap().block().block().hash(),
        block2.block().hash()
    );
    assert_eq!(
        state.state_by_number(0).unwrap().block().block().hash(),
        block2.block().hash()
    );

    assert_eq!(state.block_count(), 1);
}

#[test]
fn test_same_height_reorg_unresolves_old_hash() {
    let mut state = CanonicalInMemoryState::new(Vec::new(), Vec::new(), None);
    let block1 = get_executed_block_with_number(0, b256(1008));
    let block2 = get_executed_block_with_number(0, b256(1009));
    let hash1 = block1.block().hash();
    let hash2 = block2.block().hash();

    state.update_chain(NewCanonicalChain::Commit { new: vec![block1.clone()] });
    assert_eq!(
        state.state_by_number(0).unwrap().hash(),
        hash1
    );

    state.update_chain(NewCanonicalChain::Reorg { new: vec![block2], old: vec![block1] });
    assert_eq!(state.state_by_hash(hash1), None);
    assert_eq!(state.state_by_number(0).unwrap().hash(), hash2);
    assert!(state.state_by_hash(hash2).is_some());
    assert_eq!(state.block_count(), 1);
}

#[test]
fn test_pending_state_isolation() {
    let parent = create_mock_state(4, b256(1010));
    let pending_block = get_executed_block_with_number(5, parent.hash());
    let pending = BlockState::with_parent(pending_block.clone(), Some(parent));

    let in_memory_state = InMemoryState::new(Vec::new(), Vec::new(), Some(pending));

    let first = in_memory_state.pending_state().unwrap();
    let second = in_memory_state.pending_state().unwrap();

    assert_eq!(first.block(), pending_block);
    assert_eq!(second.block(), pending_block);
    assert_eq!(first.parent_state_chain().len(), 0);
    assert_eq!(second.parent_state_chain().len(), 0);
    assert_eq!(first.chain().len(), 1);
}

#[test]
fn test_head_state_at_largest_number() {
    let low = create_mock_state(1, b256(1041));
    let low_hash = low.hash();
    let top = create_mock_state(u64::MAX, b256(1042));
    let top_hash = top.hash();

    let blocks = vec![(low_hash, low), (top_hash, top)];
    let numbers = vec![(u64::MAX, top_hash), (1, low_hash)];

    let in_memory_state = InMemoryState::new(blocks, numbers, None);
    let head = in_memory_state.head_state().unwrap();
    assert_eq!(head.number(), u64::MAX);
    assert_eq!(head.hash(), top_hash);
}
