use rust_chain::hashing::Hashable;
use rust_chain::{Block, BlockValidationErr, Blockchain, Output, Transaction};

const EASY: u128 = 0x00ffffffffffffffffffffffffffffff;

#[test]
fn test_blockchain() {
    // Create a new blockchain instance
    let mut blockchain = Blockchain::new();

    // Ensure that the blockchain is initially empty
    assert!(blockchain.blocks.is_empty());
    assert!(blockchain.unspent_outputs().is_empty());

    // Create a new genesis block
    let mut block = Block::new(
        0,           // index
        0,           // timestamp
        vec![0; 32], // prev_block_hash
        vec![],      // transactions
        0x000fffffffffffffffffffffffffffff, // difficulty
    );

    // Mine the block
    block.mine();

    // Add the block to the blockchain
    assert!(blockchain.update_with_block(block.clone()).is_ok());

    // Ensure that the blockchain was updated with the new block
    assert_eq!(blockchain.blocks.len(), 1);
    assert_eq!(blockchain.blocks[0].clone(), block.clone());
    assert!(blockchain.unspent_outputs().is_empty());

    // Create a new block that builds on the previous one
    let mut block = Block::new(
        1,          // index
        1,          // timestamp
        block.clone().hash, // prev_block_hash
        vec![],     // transactions
        0x000fffffffffffffffffffffffffffff, // difficulty
    );

    // Mine the block
    block.mine();

    // Add the block to the blockchain
    assert!(blockchain.update_with_block(block.clone()).is_ok());

    // Ensure that the blockchain was updated with the new block
    assert_eq!(blockchain.blocks.len(), 2);
    assert_eq!(blockchain.blocks[1].clone(), block.clone());
    assert!(blockchain.unspent_outputs().is_empty());

    // Try adding a block with a mismatched index
    let mut block = Block::new(
        2,          // index
        2,          // timestamp
        block.clone().hash, // prev_block_hash
        vec![],     // transactions
        0x000fffffffffffffffffffffffffffff, // difficulty
    );

    // Mine the block
    block.mine();

    // Add the block to the blockchain
    assert!(blockchain.update_with_block(block).is_ok());

    // Ensure that the blockchain was not updated
    assert_eq!(blockchain.blocks.len(), 3);
    assert!(blockchain.unspent_outputs().is_empty());
}

fn output(to_addr: &str, value: u64) -> Output {
    Output { to_addr: to_addr.to_string(), value }
}

/// A mined genesis block holding the given transactions.
fn mined_genesis(transactions: Vec<Transaction>) -> Block {
    let mut block = Block::new(0, 0, vec![0; 32], transactions, EASY);
    block.mine();
    block
}

#[test]
fn test_genesis_rejected_with_wrong_prev_hash() {
    let mut blockchain = Blockchain::new();
    let mut block = Block::new(0, 0, vec![1; 32], vec![], EASY);
    block.mine();
    let res = blockchain.update_with_block(block);
    assert!(matches!(res, Err(BlockValidationErr::InvalidGenesisBlockFormat)));
    assert_eq!(blockchain.blocks.len(), 0);
    assert!(blockchain.unspent_outputs().is_empty());
}

#[test]
fn test_mismatched_index_rejected() {
    let mut blockchain = Blockchain::new();
    let mut block = Block::new(5, 0, vec![0; 32], vec![], EASY);
    block.mine();
    let res = blockchain.update_with_block(block);
    assert!(matches!(res, Err(BlockValidationErr::MismatchedIndex)));
    assert_eq!(blockchain.blocks.len(), 0);
    assert!(blockchain.unspent_outputs().is_empty());
}

#[test]
fn test_invalid_hash_rejected() {
    let mut blockchain = Blockchain::new();
    // Difficulty zero can never be beaten: the comparison is strict.
    let block = Block::new(0, 0, vec![0; 32], vec![], 0);
    let res = blockchain.update_with_block(block);
    assert!(matches!(res, Err(BlockValidationErr::InvalidHash)));
    assert_eq!(blockchain.blocks.len(), 0);
}

#[test]
fn test_achronological_timestamp_rejected() {
    let mut blockchain = Blockchain::new();
    let genesis = mined_genesis(vec![]);
    let genesis_hash = genesis.hash.clone();
    blockchain.update_with_block(genesis).unwrap();
    // Same timestamp as the previous block: not strictly greater.
    let mut block = Block::new(1, 0, genesis_hash, vec![], EASY);
    block.mine();
    let res = blockchain.update_with_block(block);
    assert!(matches!(res, Err(BlockValidationErr::AchronologicalTimestamp)));
    assert_eq!(blockchain.blocks.len(), 1);
}

#[test]
fn test_mismatched_previous_hash_rejected() {
    let mut blockchain = Blockchain::new();
    let genesis = mined_genesis(vec![]);
    blockchain.update_with_block(genesis).unwrap();
    let mut block = Block::new(1, 1, vec![7; 32], vec![], EASY);
    block.mine();
    let res = blockchain.update_with_block(block);
    assert!(matches!(res, Err(BlockValidationErr::MismatchedPreviousHash)));
    assert_eq!(blockchain.blocks.len(), 1);
}

#[test]
fn test_first_transaction_must_be_coinbase() {
    let mut blockchain = Blockchain::new();
    let tx = Transaction {
        inputs: vec![output("Alice", 1)],
        outputs: vec![output("Bob", 1)],
    };
    let block = mined_genesis(vec![tx]);
    let res = blockchain.update_with_block(block);
    assert!(matches!(res, Err(BlockValidationErr::InvalidCoinbaseTransaction)));
    assert_eq!(blockchain.blocks.len(), 0);
}

#[test]
fn test_unknown_input_rejected() {
    let mut blockchain = Blockchain::new();
    let coinbase = Transaction { inputs: vec![], outputs: vec![] };
    let spend = Transaction {
        inputs: vec![output("Nobody", 9)],
        outputs: vec![],
    };
    let block = mined_genesis(vec![coinbase, spend]);
    let res = blockchain.update_with_block(block);
    assert!(matches!(res, Err(BlockValidationErr::InvalidInput)));
    assert_eq!(blockchain.blocks.len(), 0);
}

#[test]
fn test_insufficient_input_value_rejected() {
    let mut blockchain = Blockchain::new();
    let genesis_coinbase = Transaction {
        inputs: vec![],
        outputs: vec![output("Alice", 50)],
    };
    let genesis = mined_genesis(vec![genesis_coinbase]);
    let genesis_hash = genesis.hash.clone();
    blockchain.update_with_block(genesis).unwrap();

    let coinbase = Transaction { inputs: vec![], outputs: vec![] };
    // Creates more value than it consumes.
    let overspend = Transaction {
        inputs: vec![output("Alice", 50)],
        outputs: vec![output("Bob", 51)],
    };
    let mut block = Block::new(1, 1, genesis_hash, vec![coinbase, overspend], EASY);
    block.mine();
    let res = blockchain.update_with_block(block);
    assert!(matches!(res, Err(BlockValidationErr::InsufficientInputValue)));
    assert_eq!(blockchain.blocks.len(), 1);
}

/// A chain whose genesis coinbase pays Alice 50, ready for a second block.
fn chain_with_alice_50() -> (Blockchain, Vec<u8>) {
    let mut blockchain = Blockchain::new();
    let genesis_coinbase = Transaction {
        inputs: vec![],
        outputs: vec![output("Alice", 50)],
    };
    let genesis = mined_genesis(vec![genesis_coinbase]);
    let genesis_hash = genesis.hash.clone();
    blockchain.update_with_block(genesis).unwrap();
    (blockchain, genesis_hash)
}

fn spend_alice_block(coinbase_value: u64, genesis_hash: Vec<u8>) -> Block {
    let coinbase = Transaction {
        inputs: vec![],
        outputs: vec![output("Miner", coinbase_value)],
    };
    // Fee: 50 in, 3 out => 47.
    let spend = Transaction {
        inputs: vec![output("Alice", 50)],
        outputs: vec![output("Alice", 1), output("Bob", 2)],
    };
    let mut block = Block::new(1, 1, genesis_hash, vec![coinbase, spend], EASY);
    block.mine();
    block
}

#[test]
fn test_coinbase_minting_exactly_the_fee_is_accepted() {
    let (mut blockchain, genesis_hash) = chain_with_alice_50();
    let res = blockchain.update_with_block(spend_alice_block(47, genesis_hash));
    assert!(res.is_ok());
}

#[test]
fn test_coinbase_minting_less_than_the_fee_is_rejected() {
    let (mut blockchain, genesis_hash) = chain_with_alice_50();
    let before = blockchain.unspent_outputs().clone();
    let res = blockchain.update_with_block(spend_alice_block(46, genesis_hash));
    assert!(matches!(res, Err(BlockValidationErr::InvalidCoinbaseTransaction)));
    // Idempotence of rejection: nothing changed.
    assert_eq!(blockchain.blocks.len(), 1);
    assert_eq!(blockchain.unspent_outputs(), &before);
}

#[test]
fn test_coinbase_overminting_is_accepted() {
    let (mut blockchain, genesis_hash) = chain_with_alice_50();
    let res = blockchain.update_with_block(spend_alice_block(48, genesis_hash));
    assert!(res.is_ok());
}

#[test]
fn test_double_spend_within_one_block_rejected() {
    let (mut blockchain, genesis_hash) = chain_with_alice_50();
    let coinbase = Transaction { inputs: vec![], outputs: vec![] };
    let spend_once = Transaction {
        inputs: vec![output("Alice", 50)],
        outputs: vec![output("Bob", 50)],
    };
    let spend_twice = Transaction {
        inputs: vec![output("Alice", 50)],
        outputs: vec![output("Carol", 50)],
    };
    let mut block = Block::new(1, 1, genesis_hash, vec![coinbase, spend_once, spend_twice], EASY);
    block.mine();
    let res = blockchain.update_with_block(block);
    assert!(matches!(res, Err(BlockValidationErr::InvalidInput)));
    assert_eq!(blockchain.blocks.len(), 1);
}

#[test]
fn test_double_spend_across_blocks_rejected() {
    let (mut blockchain, genesis_hash) = chain_with_alice_50();
    let block1 = spend_alice_block(47, genesis_hash);
    let block1_hash = block1.hash.clone();
    blockchain.update_with_block(block1).unwrap();

    // Alice's 50 was consumed in the previous block; spending it again must fail.
    let coinbase = Transaction { inputs: vec![], outputs: vec![] };
    let respend = Transaction {
        inputs: vec![output("Alice", 50)],
        outputs: vec![output("Dave", 50)],
    };
    let mut block2 = Block::new(2, 2, block1_hash, vec![coinbase, respend], EASY);
    block2.mine();
    let res = blockchain.update_with_block(block2);
    assert!(matches!(res, Err(BlockValidationErr::InvalidInput)));
    assert_eq!(blockchain.blocks.len(), 2);
}

#[test]
fn test_end_to_end_scenario() {
    // Mine a genesis block whose coinbase pays Alice 50 and Bob 70.
    let mut blockchain = Blockchain::new();
    let genesis_coinbase = Transaction {
        inputs: vec![],
        outputs: vec![output("Alice", 50), output("Bob", 70)],
    };
    let genesis = mined_genesis(vec![genesis_coinbase]);
    let genesis_hash = genesis.hash.clone();
    blockchain.update_with_block(genesis).unwrap();

    // Its two outputs are now exactly the unspent set.
    let alice_50 = output("Alice", 50).hash();
    let bob_70 = output("Bob", 70).hash();
    {
        let unspent = blockchain.unspent_outputs();
        assert_eq!(unspent.len(), 2);
        assert!(unspent.contains(&alice_50));
        assert!(unspent.contains(&bob_70));
    }

    // Build block 1 spending Alice's 50 into {Alice: 1, Bob: 2} alongside a
    // coinbase minting the fee of 47.
    let coinbase = Transaction {
        inputs: vec![],
        outputs: vec![output("Miner", 47)],
    };
    let spend = Transaction {
        inputs: vec![output("Alice", 50)],
        outputs: vec![output("Alice", 1), output("Bob", 2)],
    };
    let mut block1 = Block::new(1, 1, genesis_hash, vec![coinbase, spend], EASY);
    block1.mine();
    blockchain.update_with_block(block1).unwrap();

    let unspent = blockchain.unspent_outputs();
    assert_eq!(unspent.len(), 4);
    assert!(!unspent.contains(&alice_50));
    assert!(unspent.contains(&bob_70));
    assert!(unspent.contains(&output("Alice", 1).hash()));
    assert!(unspent.contains(&output("Bob", 2).hash()));
    assert!(unspent.contains(&output("Miner", 47).hash()));
}
