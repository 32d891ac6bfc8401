//! Byte-level encoding of fixed-width integers, the SHA-256 digest behind the
//! chain's notion of identity, and the difficulty comparison it feeds.

use sha2::Digest;
use vstd::prelude::*;

verus! {

/// The SHA-256 digest of a byte sequence. The digest itself is left
/// unspecified: everything the chain needs of it is that it is a pure
/// function of the input bytes and is 32 bytes long.
pub uninterp spec fn sha256_of(bytes: Seq<u8>) -> Seq<u8>;

/// Relies on `sha2::Sha256` (RustCrypto's SHA-256): `Digest::digest` computes
/// the SHA-256 digest, a pure function of the input bytes, 32 bytes long.
#[verifier::external_body]
pub fn digest(bytes: &[u8]) -> (r: Vec<u8>)
    ensures
        r@ == sha256_of(bytes@),
        r@.len() == 32,
{
    sha2::Sha256::digest(bytes).to_vec()
}

/// Anything that can be serialized to a byte stream can be hashed:
/// `hash()` is the SHA-256 digest of `bytes()`.
pub trait Hashable {
    /// The byte stream that identifies the entity.
    spec fn bytes_spec(&self) -> Seq<u8>;

    /// Serialize the entity to its identifying byte stream.
    fn bytes(&self) -> (r: Vec<u8>)
        ensures
            r@ == self.bytes_spec(),
    ;

    /// The entity's identity: the digest of its byte stream.
    fn hash(&self) -> (r: Vec<u8>)
        ensures
            r@ == sha256_of(self.bytes_spec()),
            r@.len() == 32,
    ;
}

/// The all-zero 32-byte hash: the digest-sized sentinel that marks a block
/// with no predecessor, and the placeholder hash of a block not yet mined.
pub open spec fn zero_hash_seq() -> Seq<u8> {
    Seq::new(32, |i: int| 0u8)
}

/// The all-zero 32-byte sentinel hash.
pub fn zero_hash() -> (r: Vec<u8>)
    ensures
        r@ == zero_hash_seq(),
{
    let r: Vec<u8> = vec![0u8; 32];
    proof {
        assert(r@ =~= zero_hash_seq());
    }
    r
}

/// The first 16 bytes of a hash read as a big-endian unsigned integer:
/// the quantity that is compared against a difficulty target.
pub open spec fn difficulty_value(h: Seq<u8>) -> int {
    (h[0] as int) * 0x1000000000000000000000000000000 + (h[1] as int)
        * 0x10000000000000000000000000000 + (h[2] as int) * 0x100000000000000000000000000 + (
    h[3] as int) * 0x1000000000000000000000000 + (h[4] as int) * 0x10000000000000000000000 + (
    h[5] as int) * 0x100000000000000000000 + (h[6] as int) * 0x1000000000000000000 + (
    h[7] as int) * 0x10000000000000000 + (h[8] as int) * 0x100000000000000 + (h[9] as int)
        * 0x1000000000000 + (h[10] as int) * 0x10000000000 + (h[11] as int) * 0x100000000 + (
    h[12] as int) * 0x1000000 + (h[13] as int) * 0x10000 + (h[14] as int) * 0x100 + (
    h[15] as int)
}

/// Interprets the first 16 bytes of `hash` as a big-endian `u128`.
pub fn difficulty_bytes_as_u128(hash: &Vec<u8>) -> (r: u128)
    requires
        hash@.len() >= 16,
    ensures
        r as int == difficulty_value(hash@),
{
    (hash[0] as u128) * 0x1000000000000000000000000000000 + (hash[1] as u128)
        * 0x10000000000000000000000000000 + (hash[2] as u128) * 0x100000000000000000000000000 + (
    hash[3] as u128) * 0x1000000000000000000000000 + (hash[4] as u128)
        * 0x10000000000000000000000 + (hash[5] as u128) * 0x100000000000000000000 + (
    hash[6] as u128) * 0x1000000000000000000 + (hash[7] as u128) * 0x10000000000000000 + (
    hash[8] as u128) * 0x100000000000000 + (hash[9] as u128) * 0x1000000000000 + (hash[10] as u128)
        * 0x10000000000 + (hash[11] as u128) * 0x100000000 + (hash[12] as u128) * 0x1000000 + (
    hash[13] as u128) * 0x10000 + (hash[14] as u128) * 0x100 + (hash[15] as u128)
}

/// Big-endian encoding of a `u32`, fixed width of 4 bytes.
pub open spec fn u32_be(x: u32) -> Seq<u8> {
    seq![
        ((x >> 24) & 0xff) as u8,
        ((x >> 16) & 0xff) as u8,
        ((x >> 8) & 0xff) as u8,
        (x & 0xff) as u8,
    ]
}

/// Big-endian encoding of a `u64`, fixed width of 8 bytes.
pub open spec fn u64_be(x: u64) -> Seq<u8> {
    seq![
        ((x >> 56) & 0xff) as u8,
        ((x >> 48) & 0xff) as u8,
        ((x >> 40) & 0xff) as u8,
        ((x >> 32) & 0xff) as u8,
        ((x >> 24) & 0xff) as u8,
        ((x >> 16) & 0xff) as u8,
        ((x >> 8) & 0xff) as u8,
        (x & 0xff) as u8,
    ]
}

/// Big-endian encoding of a `u128`, fixed width of 16 bytes.
pub open spec fn u128_be(x: u128) -> Seq<u8> {
    seq![
        ((x >> 120) & 0xff) as u8,
        ((x >> 112) & 0xff) as u8,
        ((x >> 104) & 0xff) as u8,
        ((x >> 96) & 0xff) as u8,
        ((x >> 88) & 0xff) as u8,
        ((x >> 80) & 0xff) as u8,
        ((x >> 72) & 0xff) as u8,
        ((x >> 64) & 0xff) as u8,
        ((x >> 56) & 0xff) as u8,
        ((x >> 48) & 0xff) as u8,
        ((x >> 40) & 0xff) as u8,
        ((x >> 32) & 0xff) as u8,
        ((x >> 24) & 0xff) as u8,
        ((x >> 16) & 0xff) as u8,
        ((x >> 8) & 0xff) as u8,
        (x & 0xff) as u8,
    ]
}

/// Big-endian, platform-independent serialization of a `u32` into 4 bytes.
pub fn u32_bytes(x: u32) -> (r: Vec<u8>)
    ensures
        r@ == u32_be(x),
{
    let mut r: Vec<u8> = Vec::new();
    r.push(((x >> 24) & 0xff) as u8);
    r.push(((x >> 16) & 0xff) as u8);
    r.push(((x >> 8) & 0xff) as u8);
    r.push((x & 0xff) as u8);
    proof {
        assert(r@ =~= u32_be(x));
    }
    r
}

/// Big-endian, platform-independent serialization of a `u64` into 8 bytes.
pub fn u64_bytes(x: u64) -> (r: Vec<u8>)
    ensures
        r@ == u64_be(x),
{
    let mut r: Vec<u8> = Vec::new();
    r.push(((x >> 56) & 0xff) as u8);
    r.push(((x >> 48) & 0xff) as u8);
    r.push(((x >> 40) & 0xff) as u8);
    r.push(((x >> 32) & 0xff) as u8);
    r.push(((x >> 24) & 0xff) as u8);
    r.push(((x >> 16) & 0xff) as u8);
    r.push(((x >> 8) & 0xff) as u8);
    r.push((x & 0xff) as u8);
    proof {
        assert(r@ =~= u64_be(x));
    }
    r
}

/// Big-endian, platform-independent serialization of a `u128` into 16 bytes.
pub fn u128_bytes(x: u128) -> (r: Vec<u8>)
    ensures
        r@ == u128_be(x),
{
    let mut r: Vec<u8> = Vec::new();
    r.push(((x >> 120) & 0xff) as u8);
    r.push(((x >> 112) & 0xff) as u8);
    r.push(((x >> 104) & 0xff) as u8);
    r.push(((x >> 96) & 0xff) as u8);
    r.push(((x >> 88) & 0xff) as u8);
    r.push(((x >> 80) & 0xff) as u8);
    r.push(((x >> 72) & 0xff) as u8);
    r.push(((x >> 64) & 0xff) as u8);
    r.push(((x >> 56) & 0xff) as u8);
    r.push(((x >> 48) & 0xff) as u8);
    r.push(((x >> 40) & 0xff) as u8);
    r.push(((x >> 32) & 0xff) as u8);
    r.push(((x >> 24) & 0xff) as u8);
    r.push(((x >> 16) & 0xff) as u8);
    r.push(((x >> 8) & 0xff) as u8);
    r.push((x & 0xff) as u8);
    proof {
        assert(r@ =~= u128_be(x));
    }
    r
}

} // verus!
