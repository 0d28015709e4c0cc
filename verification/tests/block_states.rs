use chain_state::block_state::BlockState;
use chain_state::executed_block::ExecutedBlock;
use chain_state::primitives::{
    ExecutionOutcome, HashedPostState, Header, Receipt, Receipts, SealedBlock, SealedHeader,
    TrieUpdates, B256,
};
use std::sync::Arc;

fn b256(n: u64) -> B256 {
    B256 { a: 0, b: 0, c: 0, d: n }
}

fn executed_block(number: u64, parent_hash: B256, receipts: Receipts) -> ExecutedBlock {
    let hash = B256 { a: 1, b: parent_hash.d, c: parent_hash.b, d: number };
    ExecutedBlock::new(
        Arc::new(SealedBlock::new(SealedHeader::new(
            Header { number, parent_hash, state_root: b256(900 + number), timestamp: 0 },
            hash,
        ))),
        Arc::new(Vec::new()),
        Arc::new(ExecutionOutcome { receipts, first_block: number }),
        Arc::new(HashedPostState { accounts: Vec::new() }),
        Arc::new(TrieUpdates { nodes: Vec::new() }),
    )
}

fn get_executed_block_with_number(number: u64, parent_hash: B256) -> ExecutedBlock {
    executed_block(number, parent_hash, Receipts { receipt_vec: Vec::new() })
}

fn get_executed_block_with_receipts(receipts: Receipts, parent_hash: B256) -> ExecutedBlock {
    executed_block(1, parent_hash, receipts)
}

fn create_mock_state(block_number: u64, parent_hash: B256) -> BlockState {
    BlockState::new(get_executed_block_with_number(block_number, parent_hash))
}

fn create_mock_state_chain(num_blocks: u64) -> Vec<BlockState> {
    let mut chain = Vec::with_capacity(num_blocks as usize);
    let mut parent_hash = b256(1234);
    let mut parent_state: Option<BlockState> = None;

    for i in 1..=num_blocks {
        let block = get_executed_block_with_number(i, parent_hash);
        let state = BlockState::with_parent(block, parent_state.clone());
        parent_hash = state.hash();
        parent_state = Some(state.clone());
        chain.push(state);
    }

    chain
}

#[test]
fn test_state_new() {
    let number = 16u64;
    let block = get_executed_block_with_number(number, b256(1011));

    let state = BlockState::new(block.clone());

    assert_eq!(state.block(), block);
}

#[test]
fn test_state_block() {
    let number = 17u64;
    let block = get_executed_block_with_number(number, b256(1012));

    let state = BlockState::new(block.clone());

    assert_eq!(state.block(), block);
}

#[test]
fn test_state_hash() {
    let number = 18u64;
    let block = get_executed_block_with_number(number, b256(1013));

    let state = BlockState::new(block.clone());

    assert_eq!(state.hash(), block.block().hash());
}

#[test]
fn test_state_number() {
    let number = 19u64;
    let block = get_executed_block_with_number(number, b256(1014));

    let state = BlockState::new(block);

    assert_eq!(state.number(), number);
}

#[test]
fn test_state_state_root() {
    let number = 20u64;
    let block = get_executed_block_with_number(number, b256(1015));

    let state = BlockState::new(block.clone());

    assert_eq!(state.state_root(), block.block().state_root());
}

#[test]
fn test_state_receipts() {
    let receipts = Receipts { receipt_vec: vec![vec![Some(Receipt::default())]] };

    let block = get_executed_block_with_receipts(receipts.clone(), b256(1016));

    let state = BlockState::new(block);

    assert_eq!(state.receipts(), &receipts);
}

#[test]
fn test_block_state_parent_blocks() {
    let chain = create_mock_state_chain(4);

    let parents = chain[3].parent_state_chain();
    assert_eq!(parents.len(), 3);
    assert_eq!(parents[0].number(), 1);
    assert_eq!(parents[1].number(), 2);
    assert_eq!(parents[2].number(), 3);

    let parents = chain[2].parent_state_chain();
    assert_eq!(parents.len(), 2);
    assert_eq!(parents[0].number(), 1);
    assert_eq!(parents[1].number(), 2);

    let parents = chain[0].parent_state_chain();
    assert_eq!(parents.len(), 0);
}

#[test]
fn test_block_state_single_block_state_chain() {
    let single_block_number = 1;
    let single_block = create_mock_state(single_block_number, b256(1017));
    let single_block_hash = single_block.block().block().hash();

    let parents = single_block.parent_state_chain();
    assert_eq!(parents.len(), 0);

    let block_state_chain = single_block.chain();
    assert_eq!(block_state_chain.len(), 1);
    assert_eq!(block_state_chain[0].number(), single_block_number);
    assert_eq!(block_state_chain[0].hash(), single_block_hash);
}

#[test]
fn test_block_state_chain() {
    let chain = create_mock_state_chain(3);

    let block_state_chain = chain[2].chain();
    assert_eq!(block_state_chain.len(), 3);
    assert_eq!(block_state_chain[0].number(), 1);
    assert_eq!(block_state_chain[1].number(), 2);
    assert_eq!(block_state_chain[2].number(), 3);

    let block_state_chain = chain[1].chain();
    assert_eq!(block_state_chain.len(), 2);
    assert_eq!(block_state_chain[0].number(), 1);
    assert_eq!(block_state_chain[1].number(), 2);

    let block_state_chain = chain[0].chain();
    assert_eq!(block_state_chain.len(), 1);
    assert_eq!(block_state_chain[0].number(), 1);
}

#[test]
fn test_block_state_anchor() {
    let chain = create_mock_state_chain(3);

    // the anchor of every state in the chain is the oldest tracked block's
    // on-disk parent
    let anchor = chain[2].anchor();
    assert_eq!(anchor.number, 0);
    assert_eq!(anchor.hash, b256(1234));
    assert_eq!(chain[0].anchor(), anchor);
}

#[test]
fn test_executed_block_receipts_best_effort() {
    // receipts of exactly one block: the present entries come out, in order
    let r1 = Receipt { success: true, cumulative_gas_used: 21000 };
    let r2 = Receipt { success: false, cumulative_gas_used: 42000 };
    let receipts = Receipts { receipt_vec: vec![vec![Some(r1), None, Some(r2)]] };
    let state = BlockState::new(get_executed_block_with_receipts(receipts, b256(1018)));
    assert_eq!(state.executed_block_receipts(), vec![r1, r2]);

    // no receipts at all
    let empty = Receipts { receipt_vec: Vec::new() };
    let state = BlockState::new(get_executed_block_with_receipts(empty, b256(1019)));
    assert_eq!(state.executed_block_receipts(), Vec::<Receipt>::new());

    // more than one block's worth attached: extraction is best-effort and
    // reads only the first block's slots
    let two_blocks = Receipts { receipt_vec: vec![vec![Some(r1)], vec![Some(r2)]] };
    let state = BlockState::new(get_executed_block_with_receipts(two_blocks, b256(1020)));
    assert_eq!(state.executed_block_receipts(), vec![r1]);
}

#[test]
fn test_parent_num_hash_of_genesis() {
    let block = get_executed_block_with_number(0, b256(1021));
    let anchor = block.block().parent_num_hash();
    assert_eq!(anchor.number, 0);
    assert_eq!(anchor.hash, b256(1021));
}
