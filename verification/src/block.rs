//! A block: an ordered container of transactions plus linkage and
//! proof-of-work metadata. Owns the mining search that discovers a nonce
//! whose digest satisfies the block's difficulty target.

use crate::hashing::{
    difficulty_bytes_as_u128, difficulty_value, digest, sha256_of, u128_be, u128_bytes, u32_be,
    u32_bytes, u64_be, u64_bytes, zero_hash, zero_hash_seq, Hashable,
};
use crate::transaction::{tx_bytes, tx_matches, Transaction};
use vstd::prelude::*;

verus! {

/// A block of the chain. `hash` is an all-zero placeholder at construction
/// and is populated only by a successful mining search; it is not guaranteed
/// to equal the digest of the block's bytes unless mining has completed.
#[derive(Debug, PartialEq)]
pub struct Block {
    /// Position this block claims in the chain.
    pub index: u32,
    /// Creation time, compared with `>` against the previous block's.
    pub timestamp: u128,
    /// The digest committed by mining; all zeros until then.
    pub hash: Vec<u8>,
    /// The `hash` field of the previous block, or all zeros for a genesis
    /// block.
    pub prev_block_hash: Vec<u8>,
    /// The value varied by the mining search.
    pub nonce: u64,
    /// The block's payload; the first transaction, if any, must be a
    /// coinbase transaction.
    pub transactions: Vec<Transaction>,
    /// The target the block's digest is compared against.
    pub difficulty: u128,
}

/// The concatenation of the byte streams of a sequence of transactions, in
/// order, with no length prefixes.
pub open spec fn concat_tx_bytes(s: Seq<Transaction>) -> Seq<u8>
    decreases s.len(),
{
    if s.len() == 0 {
        Seq::empty()
    } else {
        concat_tx_bytes(s.drop_last()) + tx_bytes(s.last())
    }
}

/// The byte stream identifying a block. The block's own `hash` field is not
/// part of it: the stream must be a function of everything else so that the
/// proof-of-work search over nonces is well-defined.
pub open spec fn block_bytes(b: Block) -> Seq<u8> {
    u32_be(b.index) + u128_be(b.timestamp) + b.prev_block_hash@ + u64_be(b.nonce) + concat_tx_bytes(
        b.transactions@,
    ) + u128_be(b.difficulty)
}

/// A hash beats a difficulty target when the target is strictly greater than
/// the big-endian value of the hash's first 16 bytes.
pub open spec fn spec_check_difficulty(hash: Seq<u8>, difficulty: u128) -> bool {
    difficulty > difficulty_value(hash)
}

/// `b` with its nonce replaced by `n`: one candidate of the mining search.
pub open spec fn with_nonce(b: Block, n: u64) -> Block {
    Block { nonce: n, ..b }
}

/// Nonce `n` solves the proof of work for `b`: the digest of `b`'s bytes,
/// taken with nonce `n`, beats `b`'s difficulty.
pub open spec fn nonce_works(b: Block, n: u64) -> bool {
    spec_check_difficulty(sha256_of(block_bytes(with_nonce(b, n))), b.difficulty)
}

/// Returns whether `difficulty > difficulty_bytes_as_u128(hash)`. The
/// comparison is strict, and only the first half of the 32-byte digest is
/// compared; both must be preserved exactly for compatibility with mined
/// data.
pub fn check_difficulty(hash: &Vec<u8>, difficulty: u128) -> (r: bool)
    requires
        hash@.len() >= 16,
    ensures
        r == spec_check_difficulty(hash@, difficulty),
{
    difficulty > difficulty_bytes_as_u128(hash)
}

/// The difficulty comparison is strict: a hash whose leading-16-byte value
/// exactly equals the difficulty target is rejected.
pub proof fn lemma_check_difficulty_strict(hash: Seq<u8>, difficulty: u128)
    requires
        hash.len() >= 16,
        difficulty_value(hash) == difficulty,
    ensures
        !spec_check_difficulty(hash, difficulty),
{
}

/// Serialize a vector of transactions: each transaction's bytes,
/// concatenated in order.
fn tx_vec_bytes(txs: &Vec<Transaction>) -> (r: Vec<u8>)
    ensures
        r@ == concat_tx_bytes(txs@),
{
    let mut r: Vec<u8> = Vec::new();
    let mut i: usize = 0;
    while i < txs.len()
        invariant
            0 <= i <= txs@.len(),
            r@ == concat_tx_bytes(txs@.take(i as int)),
        decreases txs@.len() - i,
    {
        proof {
            assert(txs@.take(i + 1).drop_last() =~= txs@.take(i as int));
        }
        let mut tb = txs[i].bytes();
        r.append(&mut tb);
        i = i + 1;
    }
    proof {
        assert(txs@.take(txs@.len() as int) =~= txs@);
    }
    r
}

impl Hashable for Block {
    open spec fn bytes_spec(&self) -> Seq<u8> {
        block_bytes(*self)
    }

    fn bytes(&self) -> (r: Vec<u8>) {
        let mut r = u32_bytes(self.index);
        let mut tsb = u128_bytes(self.timestamp);
        r.append(&mut tsb);
        r.extend_from_slice(self.prev_block_hash.as_slice());
        let mut nb = u64_bytes(self.nonce);
        r.append(&mut nb);
        let mut txb = tx_vec_bytes(&self.transactions);
        r.append(&mut txb);
        let mut db = u128_bytes(self.difficulty);
        r.append(&mut db);
        r
    }

    fn hash(&self) -> (r: Vec<u8>) {
        let b = self.bytes();
        digest(b.as_slice())
    }
}

impl Clone for Block {
    fn clone(&self) -> (r: Self)
        ensures
            r.index == self.index,
            r.timestamp == self.timestamp,
            r.hash@ == self.hash@,
            r.prev_block_hash@ == self.prev_block_hash@,
            r.nonce == self.nonce,
            r.difficulty == self.difficulty,
            r.transactions@.len() == self.transactions@.len(),
            forall|i: int|
                0 <= i < self.transactions@.len() ==> tx_matches(
                    self.transactions@[i],
                    #[trigger] r.transactions@[i],
                ),
    {
        Block {
            index: self.index,
            timestamp: self.timestamp,
            hash: self.hash.clone(),
            prev_block_hash: self.prev_block_hash.clone(),
            nonce: self.nonce,
            transactions: clone_tx_vec(&self.transactions),
            difficulty: self.difficulty,
        }
    }
}

/// Clone a vector of transactions, pairwise.
fn clone_tx_vec(txs: &Vec<Transaction>) -> (r: Vec<Transaction>)
    ensures
        r@.len() == txs@.len(),
        forall|i: int| 0 <= i < txs@.len() ==> tx_matches(txs@[i], #[trigger] r@[i]),
{
    let mut r: Vec<Transaction> = Vec::new();
    let mut i: usize = 0;
    while i < txs.len()
        invariant
            0 <= i <= txs@.len(),
            r@.len() == i,
            forall|k: int| 0 <= k < i ==> tx_matches(txs@[k], #[trigger] r@[k]),
        decreases txs@.len() - i,
    {
        r.push(txs[i].clone());
        i = i + 1;
    }
    r
}

impl Block {
    /// Build a block with the given linkage and payload, nonce `0`, and an
    /// all-zero 32-byte placeholder hash.
    pub fn new(
        index: u32,
        timestamp: u128,
        prev_block_hash: Vec<u8>,
        transactions: Vec<Transaction>,
        difficulty: u128,
    ) -> (r: Block)
        ensures
            r.index == index,
            r.timestamp == timestamp,
            r.hash@ == zero_hash_seq(),
            r.prev_block_hash == prev_block_hash,
            r.nonce == 0,
            r.transactions == transactions,
            r.difficulty == difficulty,
    {
        Block {
            index,
            timestamp,
            hash: zero_hash(),
            prev_block_hash,
            nonce: 0,
            transactions,
            difficulty,
        }
    }

    /// Mine the block: try nonces in ascending order from `0`, and commit the
    /// first one whose digest beats the difficulty, together with that
    /// digest. If no nonce below `u64::MAX` works, the placeholder hash is
    /// left in place.
    pub fn mine(&mut self)
        ensures
            final(self).index == old(self).index,
            final(self).timestamp == old(self).timestamp,
            final(self).prev_block_hash == old(self).prev_block_hash,
            final(self).transactions == old(self).transactions,
            final(self).difficulty == old(self).difficulty,
            (exists|n: u64| n < u64::MAX && nonce_works(*old(self), n)) ==> {
                &&& nonce_works(*old(self), final(self).nonce)
                &&& (forall|m: u64| m < final(self).nonce ==> !nonce_works(*old(self), m))
                &&& final(self).hash@ == sha256_of(block_bytes(with_nonce(*old(self), final(self).nonce)))
                &&& spec_check_difficulty(final(self).hash@, final(self).difficulty)
            },
            !(exists|n: u64| n < u64::MAX && nonce_works(*old(self), n)) ==> {
                &&& final(self).hash == old(self).hash
                &&& (forall|m: u64| m < u64::MAX ==> !nonce_works(*old(self), m))
            },
    {
        let mut nonce_attempt: u64 = 0;
        while nonce_attempt < u64::MAX
            invariant
                self.index == old(self).index,
                self.timestamp == old(self).timestamp,
                self.hash == old(self).hash,
                self.prev_block_hash == old(self).prev_block_hash,
                self.transactions == old(self).transactions,
                self.difficulty == old(self).difficulty,
                forall|m: u64| m < nonce_attempt ==> !nonce_works(*old(self), m),
            decreases u64::MAX - nonce_attempt,
        {
            self.nonce = nonce_attempt;
            proof {
                assert(*self == with_nonce(*old(self), nonce_attempt));
            }
            let candidate = self.hash();
            if check_difficulty(&candidate, self.difficulty) {
                self.hash = candidate;
                proof {
                    assert(nonce_works(*old(self), nonce_attempt));
                    assert(exists|n: u64| n < u64::MAX && nonce_works(*old(self), n));
                }
                return ;
            }
            nonce_attempt = nonce_attempt + 1;
        }
    }
}

} // verus!
