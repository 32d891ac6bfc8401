//! The value-transfer unit: an `Output` moves value to an address, and a
//! `Transaction` consumes a set of previously created outputs to create new
//! ones. A transaction with no inputs is a coinbase transaction (a mint).

use crate::hashing::{digest, sha256_of, u64_be, u64_bytes, Hashable};
use vstd::prelude::*;

verus! {

/// A single transfer of value to an address. Immutable once constructed.
/// Two outputs with identical fields are indistinguishable, including for
/// spend-tracking.
#[derive(Debug, PartialEq)]
pub struct Output {
    /// The address the value is sent to: an opaque text string.
    pub to_addr: String,
    /// The amount transferred.
    pub value: u64,
}

/// Two outputs carry the same address text and the same value. Everything the
/// chain computes from an output depends only on these.
pub open spec fn output_matches(a: Output, b: Output) -> bool {
    a.to_addr@ == b.to_addr@ && a.value == b.value
}

impl Clone for Output {
    fn clone(&self) -> (r: Self)
        ensures
            output_matches(*self, r),
    {
        Output { to_addr: self.to_addr.clone(), value: self.value }
    }
}

/// Two sequences of outputs match pairwise.
pub open spec fn outputs_match(a: Seq<Output>, b: Seq<Output>) -> bool {
    a.len() == b.len() && forall|i: int| 0 <= i < a.len() ==> output_matches(a[i], b[i])
}

/// Two transactions consume and create outputs that match pairwise.
pub open spec fn tx_matches(a: Transaction, b: Transaction) -> bool {
    outputs_match(a.inputs@, b.inputs@) && outputs_match(a.outputs@, b.outputs@)
}

/// The byte stream identifying an output: the address's UTF-8 bytes followed
/// by the big-endian encoding of the value.
pub open spec fn output_bytes(o: Output) -> Seq<u8> {
    vstd::utf8::encode_utf8(o.to_addr@) + u64_be(o.value)
}

/// The hash that stands for an output in spend-tracking.
pub open spec fn output_hash(o: Output) -> Seq<u8> {
    sha256_of(output_bytes(o))
}

impl Hashable for Output {
    open spec fn bytes_spec(&self) -> Seq<u8> {
        output_bytes(*self)
    }

    fn bytes(&self) -> (r: Vec<u8>) {
        let mut r: Vec<u8> = Vec::new();
        r.extend_from_slice(self.to_addr.as_str().as_bytes());
        let mut vb = u64_bytes(self.value);
        r.append(&mut vb);
        r
    }

    fn hash(&self) -> (r: Vec<u8>) {
        let b = self.bytes();
        digest(b.as_slice())
    }
}

/// An ordered set of inputs consumed and outputs created. The inputs must be
/// outputs created earlier and not yet spent; a transaction with no inputs is
/// a coinbase transaction, minting value from nothing.
#[derive(Debug, PartialEq)]
pub struct Transaction {
    /// The outputs this transaction consumes.
    pub inputs: Vec<Output>,
    /// The outputs this transaction creates.
    pub outputs: Vec<Output>,
}

impl Clone for Transaction {
    fn clone(&self) -> (r: Self)
        ensures
            tx_matches(*self, r),
    {
        Transaction { inputs: clone_output_vec(&self.inputs), outputs: clone_output_vec(&self.outputs) }
    }
}

/// Clone a vector of outputs, pairwise.
fn clone_output_vec(outputs: &Vec<Output>) -> (r: Vec<Output>)
    ensures
        outputs_match(outputs@, r@),
{
    let mut r: Vec<Output> = Vec::new();
    let mut i: usize = 0;
    while i < outputs.len()
        invariant
            0 <= i <= outputs@.len(),
            r@.len() == i,
            forall|k: int| 0 <= k < i ==> output_matches(outputs@[k], r@[k]),
        decreases outputs@.len() - i,
    {
        r.push(outputs[i].clone());
        i = i + 1;
    }
    r
}

/// The sum of the values of a sequence of outputs, as an unbounded integer.
pub open spec fn sum_values(s: Seq<Output>) -> int
    decreases s.len(),
{
    if s.len() == 0 {
        0
    } else {
        sum_values(s.drop_last()) + s.last().value
    }
}

/// The total value consumed by a transaction.
pub open spec fn tx_input_sum(t: Transaction) -> int {
    sum_values(t.inputs@)
}

/// The total value created by a transaction.
pub open spec fn tx_output_sum(t: Transaction) -> int {
    sum_values(t.outputs@)
}

/// The concatenation of the byte streams of a sequence of outputs, in order,
/// with no length prefixes.
pub open spec fn concat_output_bytes(s: Seq<Output>) -> Seq<u8>
    decreases s.len(),
{
    if s.len() == 0 {
        Seq::empty()
    } else {
        concat_output_bytes(s.drop_last()) + output_bytes(s.last())
    }
}

/// The byte stream identifying a transaction: each input's bytes in order,
/// then each output's bytes in order.
pub open spec fn tx_bytes(t: Transaction) -> Seq<u8> {
    concat_output_bytes(t.inputs@) + concat_output_bytes(t.outputs@)
}

/// Every value in a sequence of outputs is nonnegative, so the sum dominates
/// the sum of any prefix.
proof fn lemma_sum_values_nonneg(s: Seq<Output>)
    ensures
        sum_values(s) >= 0,
    decreases s.len(),
{
    if s.len() > 0 {
        lemma_sum_values_nonneg(s.drop_last());
    }
}

/// The sum of a prefix of a sequence of outputs never exceeds the full sum.
proof fn lemma_sum_values_take_le(s: Seq<Output>, i: int)
    requires
        0 <= i <= s.len(),
    ensures
        sum_values(s.take(i)) <= sum_values(s),
    decreases s.len() - i,
{
    if i == s.len() {
        assert(s.take(i) =~= s);
    } else {
        lemma_sum_values_take_le(s, i + 1);
        assert(s.take(i + 1).drop_last() =~= s.take(i));
        assert(sum_values(s.take(i + 1)) == sum_values(s.take(i)) + s[i].value);
    }
}

/// Sum the values of a vector of outputs into a `u64`.
fn sum_value_vec(outputs: &Vec<Output>) -> (r: u64)
    requires
        sum_values(outputs@) <= u64::MAX,
    ensures
        r == sum_values(outputs@),
{
    let mut acc: u64 = 0;
    let mut i: usize = 0;
    while i < outputs.len()
        invariant
            0 <= i <= outputs@.len(),
            acc == sum_values(outputs@.take(i as int)),
            sum_values(outputs@) <= u64::MAX,
        decreases outputs@.len() - i,
    {
        proof {
            assert(outputs@.take(i + 1).drop_last() =~= outputs@.take(i as int));
            assert(sum_values(outputs@.take(i + 1)) == sum_values(outputs@.take(i as int))
                + outputs@[i as int].value);
            lemma_sum_values_take_le(outputs@, i + 1);
            lemma_sum_values_nonneg(outputs@.take(i as int));
        }
        acc = acc + outputs[i].value;
        i = i + 1;
    }
    proof {
        assert(outputs@.take(outputs@.len() as int) =~= outputs@);
    }
    acc
}

/// Serialize a vector of outputs: each output's bytes, concatenated in order.
fn output_vec_bytes(outputs: &Vec<Output>) -> (r: Vec<u8>)
    ensures
        r@ == concat_output_bytes(outputs@),
{
    let mut r: Vec<u8> = Vec::new();
    let mut i: usize = 0;
    while i < outputs.len()
        invariant
            0 <= i <= outputs@.len(),
            r@ == concat_output_bytes(outputs@.take(i as int)),
        decreases outputs@.len() - i,
    {
        proof {
            assert(outputs@.take(i + 1).drop_last() =~= outputs@.take(i as int));
        }
        let mut ob = outputs[i].bytes();
        r.append(&mut ob);
        i = i + 1;
    }
    proof {
        assert(outputs@.take(outputs@.len() as int) =~= outputs@);
    }
    r
}

/// The hash of each output in a vector, in order.
fn output_vec_hashes(outputs: &Vec<Output>) -> (r: Vec<Vec<u8>>)
    ensures
        r@.len() == outputs@.len(),
        forall|i: int| 0 <= i < r@.len() ==> r@[i]@ == output_hash(outputs@[i]),
{
    let mut r: Vec<Vec<u8>> = Vec::new();
    let mut i: usize = 0;
    while i < outputs.len()
        invariant
            0 <= i <= outputs@.len(),
            r@.len() == i,
            forall|k: int| 0 <= k < i ==> r@[k]@ == output_hash(outputs@[k]),
        decreases outputs@.len() - i,
    {
        r.push(outputs[i].hash());
        i = i + 1;
    }
    r
}

impl Transaction {
    /// The sum of the values of the inputs.
    pub fn input_value(&self) -> (r: u64)
        requires
            tx_input_sum(*self) <= u64::MAX,
        ensures
            r == tx_input_sum(*self),
    {
        sum_value_vec(&self.inputs)
    }

    /// The sum of the values of the outputs.
    pub fn output_value(&self) -> (r: u64)
        requires
            tx_output_sum(*self) <= u64::MAX,
        ensures
            r == tx_output_sum(*self),
    {
        sum_value_vec(&self.outputs)
    }

    /// The hash of each input, in order: the identities this transaction
    /// claims to spend.
    pub fn input_hashes(&self) -> (r: Vec<Vec<u8>>)
        ensures
            r@.len() == self.inputs@.len(),
            forall|i: int| 0 <= i < r@.len() ==> r@[i]@ == output_hash(self.inputs@[i]),
    {
        output_vec_hashes(&self.inputs)
    }

    /// The hash of each output, in order: the identities this transaction
    /// creates.
    pub fn output_hashes(&self) -> (r: Vec<Vec<u8>>)
        ensures
            r@.len() == self.outputs@.len(),
            forall|i: int| 0 <= i < r@.len() ==> r@[i]@ == output_hash(self.outputs@[i]),
    {
        output_vec_hashes(&self.outputs)
    }

    /// A coinbase transaction has no inputs: it mints value from nothing.
    pub fn is_coinbase(&self) -> (r: bool)
        ensures
            r == (self.inputs@.len() == 0),
    {
        self.inputs.len() == 0
    }
}

impl Hashable for Transaction {
    open spec fn bytes_spec(&self) -> Seq<u8> {
        tx_bytes(*self)
    }

    fn bytes(&self) -> (r: Vec<u8>) {
        let mut r = output_vec_bytes(&self.inputs);
        let mut ob = output_vec_bytes(&self.outputs);
        r.append(&mut ob);
        r
    }

    fn hash(&self) -> (r: Vec<u8>) {
        let b = self.bytes();
        digest(b.as_slice())
    }
}

} // verus!
