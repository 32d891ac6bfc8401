//! The append-only chain of accepted blocks and the derived set of unspent
//! output hashes. All validation rules live here: chain linkage, proof of
//! work, double-spend prevention, and fee/coinbase accounting.

use crate::block::{block_bytes, check_difficulty, spec_check_difficulty, Block};
use crate::hashing::{sha256_of, zero_hash, zero_hash_seq, Hashable};
use crate::transaction::{output_hash, tx_input_sum, tx_output_sum, Output, Transaction};
use vstd::prelude::*;

verus! {

/// Why a candidate block was rejected. Every rejection is terminal for that
/// call: the chain and the unspent-output set are left unchanged.
#[derive(Debug)]
pub enum BlockValidationErr {
    /// The block's index does not equal the current chain length.
    MismatchedIndex,
    /// The digest of the block's bytes does not beat its difficulty target.
    InvalidHash,
    /// The block's timestamp is not strictly after the previous block's.
    AchronologicalTimestamp,
    /// The block's previous-block hash does not match the previous block's
    /// stored hash.
    MismatchedPreviousHash,
    /// A genesis block whose previous-block hash is not the all-zero
    /// sentinel.
    InvalidGenesisBlockFormat,
    /// A transaction claims an input that is not currently unspent, or one
    /// already claimed earlier in the same block.
    InvalidInput,
    /// A transaction creates more value than it consumes.
    InsufficientInputValue,
    /// The block's first transaction is not a coinbase transaction, or the
    /// coinbase mints less than the block's total fees.
    InvalidCoinbaseTransaction,
}

/// The set of byte strings held by a vector of hashes.
pub open spec fn hash_set_of(v: Seq<Vec<u8>>) -> Set<Seq<u8>> {
    Set::new(|x: Seq<u8>| exists|k: int| 0 <= k < v.len() && v[k]@ == x)
}

/// The set of hashes of a sequence of outputs.
pub open spec fn outputs_hash_set(outs: Seq<Output>) -> Set<Seq<u8>> {
    Set::new(|x: Seq<u8>| exists|k: int| 0 <= k < outs.len() && output_hash(outs[k]) == x)
}

/// The identities a transaction claims to spend.
pub open spec fn tx_input_hash_set(t: Transaction) -> Set<Seq<u8>> {
    outputs_hash_set(t.inputs@)
}

/// The identities a transaction creates.
pub open spec fn tx_output_hash_set(t: Transaction) -> Set<Seq<u8>> {
    outputs_hash_set(t.outputs@)
}

/// What validating a block's non-coinbase transactions accumulates: the
/// inputs they spend, the outputs they create, and the total fee they pay.
pub struct TxTally {
    /// Output hashes claimed as inputs so far within the block.
    pub spent: Set<Seq<u8>>,
    /// Output hashes created so far within the block.
    pub created: Set<Seq<u8>>,
    /// Total of the transactions' fees (input value minus output value).
    pub fee: int,
}

/// The tally before any transaction has been validated.
pub open spec fn empty_tally() -> TxTally {
    TxTally { spent: Set::empty(), created: Set::empty(), fee: 0 }
}

/// Validate non-coinbase transactions in order against the chain's unspent
/// set and the tally accumulated within the block so far. Each transaction's
/// inputs must all be unspent on the chain and not yet claimed within the
/// block, and its output value must not exceed its input value; the first
/// violation decides the error.
pub open spec fn process_rest(
    txs: Seq<Transaction>,
    unspent: Set<Seq<u8>>,
    acc: TxTally,
) -> Result<TxTally, BlockValidationErr>
    decreases txs.len(),
{
    if txs.len() == 0 {
        Result::Ok(acc)
    } else {
        let t = txs[0];
        if !tx_input_hash_set(t).subset_of(unspent) || !tx_input_hash_set(t).disjoint(acc.spent) {
            Result::Err(BlockValidationErr::InvalidInput)
        } else if tx_output_sum(t) > tx_input_sum(t) {
            Result::Err(BlockValidationErr::InsufficientInputValue)
        } else {
            process_rest(
                txs.drop_first(),
                unspent,
                TxTally {
                    spent: acc.spent.union(tx_input_hash_set(t)),
                    created: acc.created.union(tx_output_hash_set(t)),
                    fee: acc.fee + tx_input_sum(t) - tx_output_sum(t),
                },
            )
        }
    }
}

/// Validate a block's transactions: the first must be a coinbase
/// transaction, the rest must pass `process_rest`, and the coinbase must
/// mint at least the total fees collected (it may mint more: a subsidy).
/// A block with no transactions is vacuously fine.
pub open spec fn txs_decision(txs: Seq<Transaction>, unspent: Set<Seq<u8>>) -> Result<
    (),
    BlockValidationErr,
> {
    if txs.len() == 0 {
        Result::Ok(())
    } else if txs[0].inputs@.len() != 0 {
        Result::Err(BlockValidationErr::InvalidCoinbaseTransaction)
    } else {
        match process_rest(txs.drop_first(), unspent, empty_tally()) {
            Result::Err(e) => Result::Err(e),
            Result::Ok(tally) => if tx_output_sum(txs[0]) < tally.fee {
                Result::Err(BlockValidationErr::InvalidCoinbaseTransaction)
            } else {
                Result::Ok(())
            },
        }
    }
}

/// Whether a candidate block extends the given chain, and if not, why not.
/// The checks run in order and the first failure decides: index, proof of
/// work (recomputed from the block's bytes, never trusting the stored hash),
/// linkage against the previous block (or the genesis sentinel), then the
/// transactions.
pub open spec fn block_decision(
    blocks: Seq<Block>,
    unspent: Set<Seq<u8>>,
    b: Block,
) -> Result<(), BlockValidationErr> {
    if b.index as int != blocks.len() {
        Result::Err(BlockValidationErr::MismatchedIndex)
    } else if !spec_check_difficulty(sha256_of(block_bytes(b)), b.difficulty) {
        Result::Err(BlockValidationErr::InvalidHash)
    } else if blocks.len() != 0 && b.timestamp <= blocks.last().timestamp {
        Result::Err(BlockValidationErr::AchronologicalTimestamp)
    } else if blocks.len() != 0 && b.prev_block_hash@ != blocks.last().hash@ {
        Result::Err(BlockValidationErr::MismatchedPreviousHash)
    } else if blocks.len() == 0 && b.prev_block_hash@ != zero_hash_seq() {
        Result::Err(BlockValidationErr::InvalidGenesisBlockFormat)
    } else {
        txs_decision(b.transactions@, unspent)
    }
}

/// The unspent set after an accepted block: the hashes its transactions
/// spent leave the set, then the hashes they created (the coinbase's
/// included) enter it.
pub open spec fn block_effect(unspent: Set<Seq<u8>>, b: Block) -> Set<Seq<u8>> {
    if b.transactions@.len() == 0 {
        unspent
    } else {
        match process_rest(b.transactions@.drop_first(), unspent, empty_tally()) {
            Result::Ok(tally) => unspent.difference(tally.spent).union(tally.created).union(
                tx_output_hash_set(b.transactions@[0]),
            ),
            Result::Err(_) => unspent,
        }
    }
}

/// The unspent set a chain of accepted blocks derives: exactly the output
/// hashes created by its blocks minus those consumed as inputs, folded in
/// block order from the empty set.
pub open spec fn chain_unspent(blocks: Seq<Block>) -> Set<Seq<u8>>
    decreases blocks.len(),
{
    if blocks.len() == 0 {
        Set::empty()
    } else {
        block_effect(chain_unspent(blocks.drop_last()), blocks.last())
    }
}

/// Every block of the chain was accepted against the chain before it.
pub open spec fn chain_ok(blocks: Seq<Block>) -> bool {
    forall|i: int|
        0 <= i < blocks.len() ==> block_decision(
            blocks.take(i),
            chain_unspent(blocks.take(i)),
            #[trigger] blocks[i],
        ) == Result::<(), BlockValidationErr>::Ok(())
}

/// The chain: an append-only sequence of accepted blocks, positions matching
/// indices, plus the derived set of unspent output hashes.
pub struct Blockchain {
    /// The accepted blocks, in order of acceptance. Never shrinks or
    /// reorders.
    pub blocks: Vec<Block>,
    /// One entry per unspent output hash; its set of byte strings is the
    /// authoritative unspent set.
    pub unspent_outputs: Vec<Vec<u8>>,
}

impl Blockchain {
    /// The set of unspent output hashes.
    pub open spec fn unspent(self) -> Set<Seq<u8>> {
        hash_set_of(self.unspent_outputs@)
    }

    /// The chain's invariant: every block was accepted against its prefix,
    /// and the unspent set is exactly what the accepted blocks derive.
    pub open spec fn wf(self) -> bool {
        &&& chain_ok(self.blocks@)
        &&& self.unspent() == chain_unspent(self.blocks@)
    }

    /// An empty chain with an empty unspent-output set.
    pub fn new() -> (r: Blockchain)
        ensures
            r.blocks@.len() == 0,
            r.unspent() == Set::<Seq<u8>>::empty(),
            r.wf(),
    {
        let r = Blockchain { blocks: Vec::new(), unspent_outputs: Vec::new() };
        proof {
            assert(r.unspent() =~= Set::<Seq<u8>>::empty());
        }
        r
    }

    /// The unspent output hashes, one entry per set element.
    pub fn unspent_outputs(&self) -> (r: &Vec<Vec<u8>>)
        ensures
            hash_set_of(r@) == self.unspent(),
            r@.len() == 0 <==> self.unspent().is_empty(),
    {
        proof {
            if self.unspent_outputs@.len() != 0 {
                assert(self.unspent().contains(self.unspent_outputs@[0]@));
            } else {
                assert(self.unspent() =~= Set::<Seq<u8>>::empty());
            }
        }
        &self.unspent_outputs
    }
}

/// Byte-exact comparison of two hashes.
fn bytes_eq(a: &Vec<u8>, b: &Vec<u8>) -> (r: bool)
    ensures
        r == (a@ == b@),
{
    if a.len() != b.len() {
        return false;
    }
    let mut i: usize = 0;
    while i < a.len()
        invariant
            0 <= i <= a@.len(),
            a@.len() == b@.len(),
            forall|k: int| 0 <= k < i ==> a@[k] == b@[k],
        decreases a@.len() - i,
    {
        if a[i] != b[i] {
            return false;
        }
        i = i + 1;
    }
    proof {
        assert(a@ =~= b@);
    }
    true
}

/// Whether `h` is among the hashes in `v`.
fn set_contains(v: &Vec<Vec<u8>>, h: &Vec<u8>) -> (r: bool)
    ensures
        r == hash_set_of(v@).contains(h@),
{
    let mut i: usize = 0;
    while i < v.len()
        invariant
            0 <= i <= v@.len(),
            forall|k: int| 0 <= k < i ==> v@[k]@ != h@,
        decreases v@.len() - i,
    {
        if bytes_eq(&v[i], h) {
            return true;
        }
        i = i + 1;
    }
    false
}

/// A fresh copy of a hash.
fn clone_hash(h: &Vec<u8>) -> (r: Vec<u8>)
    ensures
        r@ == h@,
{
    let mut r: Vec<u8> = Vec::new();
    r.extend_from_slice(h.as_slice());
    r
}

/// Appending two hash vectors unions their sets.
proof fn lemma_hash_set_append(a: Seq<Vec<u8>>, b: Seq<Vec<u8>>)
    ensures
        hash_set_of(a + b) =~= hash_set_of(a).union(hash_set_of(b)),
{
    assert forall|x: Seq<u8>| hash_set_of(a + b).contains(x) implies hash_set_of(a).union(
        hash_set_of(b),
    ).contains(x) by {
        let k = choose|k: int| 0 <= k < (a + b).len() && (a + b)[k]@ == x;
        if k < a.len() {
            assert(a[k]@ == x);
        } else {
            assert(b[k - a.len()]@ == x);
        }
    };
    assert forall|x: Seq<u8>| hash_set_of(a).union(hash_set_of(b)).contains(x) implies hash_set_of(
        a + b,
    ).contains(x) by {
        if hash_set_of(a).contains(x) {
            let k = choose|k: int| 0 <= k < a.len() && a[k]@ == x;
            assert((a + b)[k]@ == x);
        } else {
            let k = choose|k: int| 0 <= k < b.len() && b[k]@ == x;
            assert((a + b)[a.len() + k]@ == x);
        }
    };
}

/// A vector holding exactly the hashes of a sequence of outputs, in order,
/// holds that sequence's hash set.
proof fn lemma_hashes_match_outputs(hs: Seq<Vec<u8>>, outs: Seq<Output>)
    requires
        hs.len() == outs.len(),
        forall|k: int| 0 <= k < hs.len() ==> hs[k]@ == output_hash(outs[k]),
    ensures
        hash_set_of(hs) =~= outputs_hash_set(outs),
{
    assert forall|x: Seq<u8>| hash_set_of(hs).contains(x) implies outputs_hash_set(outs).contains(
        x,
    ) by {
        let k = choose|k: int| 0 <= k < hs.len() && hs[k]@ == x;
        assert(output_hash(outs[k]) == x);
    };
    assert forall|x: Seq<u8>| outputs_hash_set(outs).contains(x) implies hash_set_of(hs).contains(
        x,
    ) by {
        let k = choose|k: int| 0 <= k < outs.len() && output_hash(outs[k]) == x;
        assert(hs[k]@ == x);
    };
}

/// Whether every hash in `hs` is in the set held by `v`.
fn all_in_set(hs: &Vec<Vec<u8>>, v: &Vec<Vec<u8>>) -> (r: bool)
    ensures
        r == hash_set_of(hs@).subset_of(hash_set_of(v@)),
{
    let mut i: usize = 0;
    while i < hs.len()
        invariant
            0 <= i <= hs@.len(),
            forall|k: int| 0 <= k < i ==> hash_set_of(v@).contains(hs@[k]@),
        decreases hs@.len() - i,
    {
        if !set_contains(v, &hs[i]) {
            proof {
                assert(hash_set_of(hs@).contains(hs@[i as int]@));
            }
            return false;
        }
        i = i + 1;
    }
    proof {
        assert forall|x: Seq<u8>| hash_set_of(hs@).contains(x) implies hash_set_of(v@).contains(
            x,
        ) by {
            let k = choose|k: int| 0 <= k < hs@.len() && hs@[k]@ == x;
            assert(hash_set_of(v@).contains(hs@[k]@));
        };
    }
    true
}

/// Whether some hash in `hs` is in the set held by `v`.
fn any_in_set(hs: &Vec<Vec<u8>>, v: &Vec<Vec<u8>>) -> (r: bool)
    ensures
        r == !hash_set_of(hs@).disjoint(hash_set_of(v@)),
{
    let mut i: usize = 0;
    while i < hs.len()
        invariant
            0 <= i <= hs@.len(),
            forall|k: int| 0 <= k < i ==> !hash_set_of(v@).contains(hs@[k]@),
        decreases hs@.len() - i,
    {
        if set_contains(v, &hs[i]) {
            proof {
                assert(hash_set_of(hs@).contains(hs@[i as int]@));
            }
            return true;
        }
        i = i + 1;
    }
    proof {
        assert forall|x: Seq<u8>| hash_set_of(hs@).contains(x) implies !hash_set_of(v@).contains(
            x,
        ) by {
            let k = choose|k: int| 0 <= k < hs@.len() && hs@[k]@ == x;
            assert(!hash_set_of(v@).contains(hs@[k]@));
        };
    }
    false
}

/// An upper bound on the total fee a sequence of transactions can collect:
/// the sum, over the transactions that do not create more than they consume,
/// of input value minus output value.
pub open spec fn fee_bound(txs: Seq<Transaction>) -> int
    decreases txs.len(),
{
    if txs.len() == 0 {
        0
    } else {
        (if tx_input_sum(txs[0]) >= tx_output_sum(txs[0]) {
            tx_input_sum(txs[0]) - tx_output_sum(txs[0])
        } else {
            0
        }) + fee_bound(txs.drop_first())
    }
}

/// The fee bound is never negative.
proof fn lemma_fee_bound_nonneg(txs: Seq<Transaction>)
    ensures
        fee_bound(txs) >= 0,
    decreases txs.len(),
{
    if txs.len() > 0 {
        lemma_fee_bound_nonneg(txs.drop_first());
    }
}

/// Pushing one hash onto a vector inserts it into the vector's set.
proof fn lemma_hash_set_push(s: Seq<Vec<u8>>, c: Vec<u8>)
    ensures
        hash_set_of(s.push(c)) =~= hash_set_of(s).insert(c@),
{
    assert forall|x: Seq<u8>| hash_set_of(s.push(c)).contains(x) implies hash_set_of(s).insert(
        c@,
    ).contains(x) by {
        let k = choose|k: int| 0 <= k < s.push(c).len() && s.push(c)[k]@ == x;
        if k < s.len() {
            assert(s[k]@ == x);
        } else {
            assert(s.push(c)[k] == c);
        }
    };
    assert forall|x: Seq<u8>| hash_set_of(s).insert(c@).contains(x) implies hash_set_of(
        s.push(c),
    ).contains(x) by {
        if hash_set_of(s).contains(x) {
            let k = choose|k: int| 0 <= k < s.len() && s[k]@ == x;
            assert(s.push(c)[k]@ == x);
        } else {
            assert(s.push(c)[s.len() as int]@ == x);
        }
    };
}

impl Blockchain {
    /// Validate a candidate block against the chain and, if it passes every
    /// check, append it and fold its spending and creation of outputs into
    /// the unspent set. A rejected block leaves the chain untouched. The
    /// returned value is exactly what `block_decision` says of the block
    /// against the chain's current state.
    #[verifier::loop_isolation(false)]
    pub fn update_with_block(&mut self, block: Block) -> (r: Result<(), BlockValidationErr>)
        requires
            forall|i: int|
                0 <= i < block.transactions@.len() ==> #[trigger] tx_input_sum(
                    block.transactions@[i],
                ) <= u64::MAX && tx_output_sum(block.transactions@[i]) <= u64::MAX,
            block.transactions@.len() > 0 ==> fee_bound(block.transactions@.drop_first())
                <= u64::MAX,
        ensures
            r == block_decision(old(self).blocks@, old(self).unspent(), block),
            r is Ok ==> final(self).blocks@ == old(self).blocks@.push(block),
            r is Ok ==> final(self).unspent() == block_effect(old(self).unspent(), block),
            r is Err ==> *final(self) == *old(self),
            old(self).wf() ==> final(self).wf(),
    {
        let ghost u0 = old(self).unspent();
        let i = self.blocks.len();

        if (block.index as usize) != i {
            return Result::Err(BlockValidationErr::MismatchedIndex);
        }
        let candidate = block.hash();
        if !check_difficulty(&candidate, block.difficulty) {
            return Result::Err(BlockValidationErr::InvalidHash);
        }
        if i != 0 {
            let prev = &self.blocks[i - 1];
            proof {
                assert(self.blocks@[i - 1] == self.blocks@.last());
            }
            if block.timestamp <= prev.timestamp {
                return Result::Err(BlockValidationErr::AchronologicalTimestamp);
            }
            if !bytes_eq(&block.prev_block_hash, &prev.hash) {
                return Result::Err(BlockValidationErr::MismatchedPreviousHash);
            }
        } else {
            let z = zero_hash();
            if !bytes_eq(&block.prev_block_hash, &z) {
                return Result::Err(BlockValidationErr::InvalidGenesisBlockFormat);
            }
        }
        let num_txs = block.transactions.len();
        if num_txs > 0 {
            if !block.transactions[0].is_coinbase() {
                return Result::Err(BlockValidationErr::InvalidCoinbaseTransaction);
            }
            let ghost rest = block.transactions@.drop_first();
            let mut block_spent: Vec<Vec<u8>> = Vec::new();
            let mut block_created: Vec<Vec<u8>> = Vec::new();
            let mut total_fee: u64 = 0;
            let ghost mut tally = empty_tally();
            let mut j: usize = 1;
            proof {
                assert(hash_set_of(block_spent@) =~= tally.spent);
                assert(hash_set_of(block_created@) =~= tally.created);
                assert(rest.skip(j - 1) == rest);
            }
            while j < num_txs
                invariant
                    1 <= j <= num_txs,
                    hash_set_of(block_spent@) == tally.spent,
                    hash_set_of(block_created@) == tally.created,
                    total_fee == tally.fee,
                    tally.fee >= 0,
                    tally.fee + fee_bound(rest.skip(j - 1)) <= fee_bound(rest),
                    process_rest(rest, u0, empty_tally()) == process_rest(
                        rest.skip(j - 1),
                        u0,
                        tally,
                    ),
                decreases num_txs - j,
            {
                let t = &block.transactions[j];
                let ghost t_spec = block.transactions@[j as int];
                proof {
                    assert(rest.skip(j - 1).len() > 0);
                    assert(rest.skip(j - 1)[0] == t_spec);
                }
                let input_hashes = t.input_hashes();
                proof {
                    lemma_hashes_match_outputs(input_hashes@, t_spec.inputs@);
                }
                let in_unspent = all_in_set(&input_hashes, &self.unspent_outputs);
                let in_spent = any_in_set(&input_hashes, &block_spent);
                if !in_unspent || in_spent {
                    proof {
                        assert(process_rest(rest.skip(j - 1), u0, tally) == Result::<
                            TxTally,
                            BlockValidationErr,
                        >::Err(BlockValidationErr::InvalidInput));
                    }
                    return Result::Err(BlockValidationErr::InvalidInput);
                }
                let input_value = t.input_value();
                let output_value = t.output_value();
                if output_value > input_value {
                    proof {
                        assert(process_rest(rest.skip(j - 1), u0, tally) == Result::<
                            TxTally,
                            BlockValidationErr,
                        >::Err(BlockValidationErr::InsufficientInputValue));
                    }
                    return Result::Err(BlockValidationErr::InsufficientInputValue);
                }
                let fee = input_value - output_value;
                proof {
                    assert(rest.skip(j - 1).drop_first() =~= rest.skip(j as int));
                    assert(fee_bound(rest.skip(j - 1)) == fee + fee_bound(rest.skip(j as int)));
                    lemma_fee_bound_nonneg(rest.skip(j as int));
                }
                total_fee = total_fee + fee;
                let ghost bs0 = block_spent@;
                let ghost bc0 = block_created@;
                let ghost ih = input_hashes@;
                let mut input_hashes = input_hashes;
                block_spent.append(&mut input_hashes);
                let mut output_hashes = t.output_hashes();
                let ghost oh = output_hashes@;
                block_created.append(&mut output_hashes);
                proof {
                    lemma_hashes_match_outputs(oh, t_spec.outputs@);
                    lemma_hash_set_append(bs0, ih);
                    lemma_hash_set_append(bc0, oh);
                    let next_tally = TxTally {
                        spent: tally.spent.union(tx_input_hash_set(t_spec)),
                        created: tally.created.union(tx_output_hash_set(t_spec)),
                        fee: tally.fee + tx_input_sum(t_spec) - tx_output_sum(t_spec),
                    };
                    assert(process_rest(rest.skip(j - 1), u0, tally) == process_rest(
                        rest.skip(j as int),
                        u0,
                        next_tally,
                    ));
                    tally = next_tally;
                }
                j = j + 1;
            }
            proof {
                assert(rest.skip(j - 1).len() == 0);
                assert(rest.skip(j - 1) =~= Seq::<Transaction>::empty());
                assert(process_rest(rest, u0, empty_tally()) == Result::<
                    TxTally,
                    BlockValidationErr,
                >::Ok(tally));
            }
            proof {
                assert(tx_input_sum(block.transactions@[0]) <= u64::MAX);
            }
            let coinbase_value = block.transactions[0].output_value();
            if coinbase_value < total_fee {
                return Result::Err(BlockValidationErr::InvalidCoinbaseTransaction);
            }
            let mut coinbase_hashes = block.transactions[0].output_hashes();
            let ghost bc1 = block_created@;
            let ghost ch = coinbase_hashes@;
            block_created.append(&mut coinbase_hashes);
            proof {
                lemma_hashes_match_outputs(ch, block.transactions@[0].outputs@);
                lemma_hash_set_append(bc1, ch);
            }
            let mut new_unspent: Vec<Vec<u8>> = Vec::new();
            let mut k: usize = 0;
            proof {
                assert(hash_set_of(new_unspent@) =~= hash_set_of(
                    self.unspent_outputs@.take(0),
                ).difference(tally.spent));
            }
            while k < self.unspent_outputs.len()
                invariant
                    0 <= k <= self.unspent_outputs@.len(),
                    hash_set_of(new_unspent@) == hash_set_of(
                        self.unspent_outputs@.take(k as int),
                    ).difference(tally.spent),
                decreases self.unspent_outputs@.len() - k,
            {
                let ghost nu0 = new_unspent@;
                let ghost h_spec = self.unspent_outputs@[k as int];
                proof {
                    assert(self.unspent_outputs@.take(k + 1) =~= self.unspent_outputs@.take(
                        k as int,
                    ).push(h_spec));
                    lemma_hash_set_push(self.unspent_outputs@.take(k as int), h_spec);
                }
                if !set_contains(&block_spent, &self.unspent_outputs[k]) {
                    let c = clone_hash(&self.unspent_outputs[k]);
                    new_unspent.push(c);
                    proof {
                        lemma_hash_set_push(nu0, c);
                        assert(hash_set_of(new_unspent@) =~= hash_set_of(
                            self.unspent_outputs@.take(k + 1),
                        ).difference(tally.spent));
                    }
                } else {
                    proof {
                        assert(hash_set_of(new_unspent@) =~= hash_set_of(
                            self.unspent_outputs@.take(k + 1),
                        ).difference(tally.spent));
                    }
                }
                k = k + 1;
            }
            proof {
                assert(self.unspent_outputs@.take(self.unspent_outputs@.len() as int)
                    =~= self.unspent_outputs@);
            }
            let ghost nu1 = new_unspent@;
            let ghost bc2 = block_created@;
            self.unspent_outputs = new_unspent;
            self.unspent_outputs.append(&mut block_created);
            proof {
                lemma_hash_set_append(nu1, bc2);
                assert(hash_set_of(self.unspent_outputs@) =~= block_effect(u0, block));
            }
        }
        self.blocks.push(block);
        proof {
            let obs: Seq<Block> = old(self).blocks@;
            assert(block_decision(obs, u0, block) == Result::<(), BlockValidationErr>::Ok(()));
            assert(self.unspent() == block_effect(u0, block));
            if old(self).wf() {
                assert(self.blocks@.drop_last() =~= obs);
                assert(self.blocks@.last() == block);
                assert(chain_unspent(self.blocks@) == block_effect(chain_unspent(obs), block));
                assert(chain_unspent(self.blocks@) == self.unspent());
                assert forall|i2: int| 0 <= i2 < self.blocks@.len() implies block_decision(
                    self.blocks@.take(i2),
                    chain_unspent(self.blocks@.take(i2)),
                    #[trigger] self.blocks@[i2],
                ) == Result::<(), BlockValidationErr>::Ok(()) by {
                    if i2 < obs.len() {
                        assert(self.blocks@.take(i2) =~= obs.take(i2));
                        assert(self.blocks@[i2] == obs[i2]);
                        assert(block_decision(
                            obs.take(i2),
                            chain_unspent(obs.take(i2)),
                            obs[i2],
                        ) == Result::<(), BlockValidationErr>::Ok(()));
                    } else {
                        assert(i2 == obs.len());
                        assert(self.blocks@.take(i2) =~= obs);
                        assert(self.blocks@[i2] == block);
                    }
                };
            }
        }
        Result::Ok(())
    }
}

/// The union of the input hash sets of a sequence of transactions.
pub open spec fn all_input_hashes(txs: Seq<Transaction>) -> Set<Seq<u8>> {
    Set::new(|x: Seq<u8>| exists|k: int| 0 <= k < txs.len() && tx_input_hash_set(txs[k]).contains(x))
}

/// The union of the output hash sets of a sequence of transactions.
pub open spec fn all_output_hashes(txs: Seq<Transaction>) -> Set<Seq<u8>> {
    Set::new(
        |x: Seq<u8>| exists|k: int| 0 <= k < txs.len() && tx_output_hash_set(txs[k]).contains(x),
    )
}

/// When validation of a transaction sequence succeeds, the tally it returns
/// is exactly the starting tally extended with every input hash the
/// transactions claim and every output hash they create; and along the way
/// every transaction's inputs were unspent on the chain and distinct from
/// every other transaction's inputs.
proof fn lemma_process_rest_ok(
    txs: Seq<Transaction>,
    unspent: Set<Seq<u8>>,
    acc: TxTally,
    t: TxTally,
)
    requires
        process_rest(txs, unspent, acc) == Result::<TxTally, BlockValidationErr>::Ok(t),
    ensures
        forall|k: int| 0 <= k < txs.len() ==> #[trigger] tx_input_hash_set(txs[k]).subset_of(unspent),
        forall|k: int| 0 <= k < txs.len() ==> #[trigger] tx_input_hash_set(txs[k]).disjoint(
            acc.spent,
        ),
        forall|j: int, k: int|
            0 <= j < k < txs.len() ==> tx_input_hash_set(#[trigger] txs[j]).disjoint(
                tx_input_hash_set(#[trigger] txs[k]),
            ),
        t.spent =~= acc.spent.union(all_input_hashes(txs)),
        t.created =~= acc.created.union(all_output_hashes(txs)),
    decreases txs.len(),
{
    if txs.len() == 0 {
        assert(all_input_hashes(txs) =~= Set::<Seq<u8>>::empty());
        assert(all_output_hashes(txs) =~= Set::<Seq<u8>>::empty());
    } else {
        let t0 = txs[0];
        let rest = txs.drop_first();
        let acc2 = TxTally {
            spent: acc.spent.union(tx_input_hash_set(t0)),
            created: acc.created.union(tx_output_hash_set(t0)),
            fee: acc.fee + tx_input_sum(t0) - tx_output_sum(t0),
        };
        lemma_process_rest_ok(rest, unspent, acc2, t);
        assert forall|k: int| 0 <= k < txs.len() implies #[trigger] tx_input_hash_set(
            txs[k],
        ).subset_of(unspent) by {
            if k > 0 {
                assert(rest[k - 1] == txs[k]);
            }
        };
        assert forall|k: int| 0 <= k < txs.len() implies #[trigger] tx_input_hash_set(
            txs[k],
        ).disjoint(acc.spent) by {
            if k > 0 {
                assert(rest[k - 1] == txs[k]);
                assert(tx_input_hash_set(rest[k - 1]).disjoint(acc2.spent));
            }
        };
        assert forall|j: int, k: int|
            0 <= j < k < txs.len() implies tx_input_hash_set(#[trigger] txs[j]).disjoint(
            tx_input_hash_set(#[trigger] txs[k]),
        ) by {
            assert(rest[k - 1] == txs[k]);
            if j == 0 {
                assert(tx_input_hash_set(rest[k - 1]).disjoint(acc2.spent));
            } else {
                assert(rest[j - 1] == txs[j]);
            }
        };
        assert(t.spent =~= acc.spent.union(all_input_hashes(txs))) by {
            assert forall|x: Seq<u8>|
                acc2.spent.union(all_input_hashes(rest)).contains(x) <==> acc.spent.union(
                    all_input_hashes(txs),
                ).contains(x) by {
                if all_input_hashes(rest).contains(x) {
                    let k = choose|k: int|
                        0 <= k < rest.len() && tx_input_hash_set(rest[k]).contains(x);
                    assert(rest[k] == txs[k + 1]);
                    assert(tx_input_hash_set(txs[k + 1]).contains(x));
                }
                if all_input_hashes(txs).contains(x) {
                    let k = choose|k: int|
                        0 <= k < txs.len() && tx_input_hash_set(txs[k]).contains(x);
                    if k > 0 {
                        assert(rest[k - 1] == txs[k]);
                        assert(tx_input_hash_set(rest[k - 1]).contains(x));
                    }
                }
            };
        };
        assert(t.created =~= acc.created.union(all_output_hashes(txs))) by {
            assert forall|x: Seq<u8>|
                acc2.created.union(all_output_hashes(rest)).contains(x) <==> acc.created.union(
                    all_output_hashes(txs),
                ).contains(x) by {
                if all_output_hashes(rest).contains(x) {
                    let k = choose|k: int|
                        0 <= k < rest.len() && tx_output_hash_set(rest[k]).contains(x);
                    assert(rest[k] == txs[k + 1]);
                    assert(tx_output_hash_set(txs[k + 1]).contains(x));
                }
                if all_output_hashes(txs).contains(x) {
                    let k = choose|k: int|
                        0 <= k < txs.len() && tx_output_hash_set(txs[k]).contains(x);
                    if k > 0 {
                        assert(rest[k - 1] == txs[k]);
                        assert(tx_output_hash_set(rest[k - 1]).contains(x));
                    }
                }
            };
        };
    }
}

/// A candidate block whose index is not the chain's length is always
/// rejected with `MismatchedIndex`, regardless of any other validity.
pub proof fn lemma_mismatched_index(blocks: Seq<Block>, unspent: Set<Seq<u8>>, b: Block)
    requires
        b.index as int != blocks.len(),
    ensures
        block_decision(blocks, unspent, b) == Result::<(), BlockValidationErr>::Err(
            BlockValidationErr::MismatchedIndex,
        ),
{
}

/// A block with index 0, the all-zero previous-block hash, valid proof of
/// work and valid transactions is accepted into an empty chain.
pub proof fn lemma_genesis_accepted(blocks: Seq<Block>, unspent: Set<Seq<u8>>, b: Block)
    requires
        blocks.len() == 0,
        b.index == 0,
        spec_check_difficulty(sha256_of(block_bytes(b)), b.difficulty),
        b.prev_block_hash@ == zero_hash_seq(),
        txs_decision(b.transactions@, unspent) == Result::<(), BlockValidationErr>::Ok(()),
    ensures
        block_decision(blocks, unspent, b) == Result::<(), BlockValidationErr>::Ok(()),
{
}

/// A block at index 0 with valid proof of work but any previous-block hash
/// other than the all-zero sentinel is rejected as an invalid genesis block.
pub proof fn lemma_genesis_rejected(blocks: Seq<Block>, unspent: Set<Seq<u8>>, b: Block)
    requires
        blocks.len() == 0,
        b.index == 0,
        spec_check_difficulty(sha256_of(block_bytes(b)), b.difficulty),
        b.prev_block_hash@ != zero_hash_seq(),
    ensures
        block_decision(blocks, unspent, b) == Result::<(), BlockValidationErr>::Err(
            BlockValidationErr::InvalidGenesisBlockFormat,
        ),
{
}

/// Two transactions within the same block that claim the same input hash
/// can never both pass validation: the block is rejected.
pub proof fn lemma_double_spend_same_block(
    txs: Seq<Transaction>,
    unspent: Set<Seq<u8>>,
    j: int,
    k: int,
    h: Seq<u8>,
)
    requires
        1 <= j < k < txs.len(),
        tx_input_hash_set(txs[j]).contains(h),
        tx_input_hash_set(txs[k]).contains(h),
    ensures
        txs_decision(txs, unspent) is Err,
{
    let pr = process_rest(txs.drop_first(), unspent, empty_tally());
    if pr is Ok {
        let t = pr->Ok_0;
        lemma_process_rest_ok(txs.drop_first(), unspent, empty_tally(), t);
        assert(txs.drop_first()[j - 1] == txs[j]);
        assert(txs.drop_first()[k - 1] == txs[k]);
        assert(tx_input_hash_set(txs.drop_first()[j - 1]).disjoint(
            tx_input_hash_set(txs.drop_first()[k - 1]),
        ));
        assert(false);
    }
}

/// A transaction that claims an input hash that is not in the chain's
/// unspent set makes its block invalid: an output consumed earlier (or
/// never created) cannot be spent.
pub proof fn lemma_spent_input_rejected(
    txs: Seq<Transaction>,
    unspent: Set<Seq<u8>>,
    k: int,
    h: Seq<u8>,
)
    requires
        1 <= k < txs.len(),
        tx_input_hash_set(txs[k]).contains(h),
        !unspent.contains(h),
    ensures
        txs_decision(txs, unspent) is Err,
{
    let pr = process_rest(txs.drop_first(), unspent, empty_tally());
    if pr is Ok {
        let t = pr->Ok_0;
        lemma_process_rest_ok(txs.drop_first(), unspent, empty_tally(), t);
        assert(txs.drop_first()[k - 1] == txs[k]);
        assert(tx_input_hash_set(txs.drop_first()[k - 1]).subset_of(unspent));
        assert(false);
    }
}

/// An input hash consumed by an accepted block leaves the unspent set,
/// unless some transaction of that same block creates it anew.
pub proof fn lemma_block_effect_removes_spent(
    unspent: Set<Seq<u8>>,
    b: Block,
    j: int,
    h: Seq<u8>,
)
    requires
        1 <= j < b.transactions@.len(),
        tx_input_hash_set(b.transactions@[j]).contains(h),
        process_rest(b.transactions@.drop_first(), unspent, empty_tally()) is Ok,
        !all_output_hashes(b.transactions@).contains(h),
    ensures
        !block_effect(unspent, b).contains(h),
{
    let rest = b.transactions@.drop_first();
    let pr = process_rest(rest, unspent, empty_tally());
    let t = pr->Ok_0;
    lemma_process_rest_ok(rest, unspent, empty_tally(), t);
    assert(rest[j - 1] == b.transactions@[j]);
    assert(all_input_hashes(rest).contains(h));
    assert(t.spent.contains(h));
    assert(!t.created.contains(h)) by {
        if t.created.contains(h) {
            let k = choose|k: int| 0 <= k < rest.len() && tx_output_hash_set(rest[k]).contains(h);
            assert(rest[k] == b.transactions@[k + 1]);
            assert(all_output_hashes(b.transactions@).contains(h));
        }
    };
    assert(!tx_output_hash_set(b.transactions@[0]).contains(h));
}

/// Every block of a well-formed chain sits at the position its index
/// claims, carries valid proof of work for its own byte stream, strictly
/// follows its predecessor in time, and links to its predecessor's stored
/// hash (the all-zero sentinel for the genesis block).
pub proof fn lemma_chain_block_invariant(blocks: Seq<Block>, i: int)
    requires
        chain_ok(blocks),
        0 <= i < blocks.len(),
    ensures
        blocks[i].index as int == i,
        spec_check_difficulty(sha256_of(block_bytes(blocks[i])), blocks[i].difficulty),
        i > 0 ==> blocks[i].timestamp > blocks[i - 1].timestamp,
        i > 0 ==> blocks[i].prev_block_hash@ == blocks[i - 1].hash@,
        i == 0 ==> blocks[i].prev_block_hash@ == zero_hash_seq(),
{
    assert(block_decision(blocks.take(i), chain_unspent(blocks.take(i)), blocks[i]) == Result::<
        (),
        BlockValidationErr,
    >::Ok(()));
    assert(blocks.take(i).len() == i);
    if i > 0 {
        assert(blocks.take(i).last() == blocks[i - 1]);
    }
}

/// The fee/coinbase law: with the non-coinbase transactions collecting a
/// total fee, a coinbase minting at least that fee is accepted (over-minting
/// is a permitted subsidy), and one minting less is rejected as an invalid
/// coinbase transaction.
pub proof fn lemma_fee_coinbase(txs: Seq<Transaction>, unspent: Set<Seq<u8>>, tally: TxTally)
    requires
        txs.len() >= 1,
        txs[0].inputs@.len() == 0,
        process_rest(txs.drop_first(), unspent, empty_tally()) == Result::<
            TxTally,
            BlockValidationErr,
        >::Ok(tally),
    ensures
        tx_output_sum(txs[0]) >= tally.fee ==> txs_decision(txs, unspent) == Result::<
            (),
            BlockValidationErr,
        >::Ok(()),
        tx_output_sum(txs[0]) < tally.fee ==> txs_decision(txs, unspent) == Result::<
            (),
            BlockValidationErr,
        >::Err(BlockValidationErr::InvalidCoinbaseTransaction),
{
}

} // verus!
