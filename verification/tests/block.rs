use rust_chain::hashing::Hashable;
use rust_chain::{check_difficulty, u128_bytes, u32_bytes, u64_bytes, Block};

#[test]
fn test_block() {
    // Create a new block with a given index, timestamp, previous block hash, and list of transactions
    let mut block = Block::new(0, 12345, vec![0; 32], vec![], 0x000fffffffffffffffffffffffffffff);

    // Verify that the block's properties are initialized correctly
    assert_eq!(block.index, 0);
    assert_eq!(block.timestamp, 12345);
    assert_eq!(block.prev_block_hash, vec![0; 32]);
    assert_eq!(block.nonce, 0);
    assert_eq!(block.transactions.len(), 0);
    assert_eq!(block.difficulty, 0x000fffffffffffffffffffffffffffff);

    // Mine the block
    block.mine();

    // Verify that the block's nonce and hash are updated correctly
    assert_ne!(block.nonce, 0);
    assert_ne!(block.hash, vec![0; 32]);

    // Verify that the block's hash satisfies the difficulty level
    assert!(check_difficulty(&block.hash, block.difficulty));
}

#[test]
fn test_serialize_fixed_width() {
    assert_eq!(u32_bytes(0x01020304), vec![1, 2, 3, 4]);
    assert_eq!(u32_bytes(0), vec![0, 0, 0, 0]);
    assert_eq!(u32_bytes(u32::MAX), vec![0xff; 4]);
    assert_eq!(
        u64_bytes(0x0102030405060708),
        vec![1, 2, 3, 4, 5, 6, 7, 8]
    );
    assert_eq!(
        u128_bytes(0x0102030405060708090a0b0c0d0e0f10),
        vec![1, 2, 3, 4, 5, 6, 7, 8, 9, 10, 11, 12, 13, 14, 15, 16]
    );
}

#[test]
fn test_difficulty_strict_boundary() {
    // A hash whose leading-16-byte value exactly equals the difficulty must
    // be rejected; one greater by one must be accepted.
    let mut hash: Vec<u8> = vec![0u8; 32];
    hash[0] = 0x01;
    hash[15] = 0x05;
    let value: u128 = 0x01000000000000000000000000000005;
    assert!(!check_difficulty(&hash, value));
    assert!(check_difficulty(&hash, value + 1));
    assert!(!check_difficulty(&hash, value - 1));
    // Bytes beyond the first 16 are ignored by the comparison.
    hash[16] = 0xff;
    hash[31] = 0xff;
    assert!(!check_difficulty(&hash, value));
    assert!(check_difficulty(&hash, value + 1));
}

#[test]
fn test_mine_commits_first_working_nonce() {
    let mut block = Block::new(0, 7, vec![0; 32], vec![], 0x00ffffffffffffffffffffffffffffff);
    block.mine();
    // The committed hash is the digest of the block's bytes with the final
    // nonce, and it beats the difficulty.
    assert_eq!(block.hash, block.hash());
    assert!(check_difficulty(&block.hash, block.difficulty));
    // No smaller nonce satisfies the difficulty: the search is ascending
    // from zero and commits the first hit.
    let mined_nonce = block.nonce;
    for n in 0..mined_nonce {
        block.nonce = n;
        let h = block.hash();
        assert!(!check_difficulty(&h, block.difficulty));
    }
}
