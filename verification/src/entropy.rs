//! Derivation of fresh 16-byte values from an external seed.
//!
//! The registry receives a 128-bit seed, unpredictable and unique per
//! invocation, from an external entropy source. Mint genomes and breed
//! selectors are derived deterministically by hashing the seed together
//! with the caller's identity and a per-operation tag.

use blake2::Digest;
use vstd::prelude::*;

verus! {

/// Tag mixed into the payload when deriving a mint genome.
pub const MINT_TAG: u8 = 0;

/// Tag mixed into the payload when deriving a breed selector.
pub const BREED_TAG: u8 = 1;

/// The 16-byte BLAKE2b digest of a byte sequence.
pub uninterp spec fn blake2_128_of(input: Seq<u8>) -> Seq<u8>;

/// The 8 little-endian bytes of an account id.
pub open spec fn account_bytes(a: u64) -> Seq<u8> {
    seq![
        (a & 0xff) as u8,
        ((a >> 8) & 0xff) as u8,
        ((a >> 16) & 0xff) as u8,
        ((a >> 24) & 0xff) as u8,
        ((a >> 32) & 0xff) as u8,
        ((a >> 40) & 0xff) as u8,
        ((a >> 48) & 0xff) as u8,
        ((a >> 56) & 0xff) as u8,
    ]
}

/// The bytes hashed to derive a fresh value: the external seed, then
/// the caller's identity, then a per-operation tag.
pub open spec fn payload(seed: Seq<u8>, caller: u64, tag: u8) -> Seq<u8> {
    seed + account_bytes(caller) + seq![tag]
}

/// Relies on blake2::Blake2b128 (BLAKE2b with a 16-byte digest): the
/// digest is a function of the input bytes alone.
#[verifier::external_body]
fn blake2_128(input: &Vec<u8>) -> (r: [u8; 16])
    ensures
        r@ == blake2_128_of(input@),
{
    let out = blake2::Blake2b128::digest(input.as_slice());
    out.into()
}

/// Derives a fresh 16-byte value from the external seed, the caller's
/// identity and a per-operation tag.
pub fn random_value(caller: u64, seed: &[u8; 16], tag: u8) -> (r: [u8; 16])
    ensures
        r@ == blake2_128_of(payload(seed@, caller, tag)),
{
    let mut buf: Vec<u8> = Vec::new();
    let mut i: usize = 0;
    while i < 16
        invariant
            i <= 16,
            buf@ == seed@.subrange(0, i as int),
        decreases 16 - i,
    {
        buf.push(seed[i]);
        proof {
            assert(buf@ =~= seed@.subrange(0, i + 1));
        }
        i = i + 1;
    }
    buf.push((caller & 0xff) as u8);
    buf.push(((caller >> 8) & 0xff) as u8);
    buf.push(((caller >> 16) & 0xff) as u8);
    buf.push(((caller >> 24) & 0xff) as u8);
    buf.push(((caller >> 32) & 0xff) as u8);
    buf.push(((caller >> 40) & 0xff) as u8);
    buf.push(((caller >> 48) & 0xff) as u8);
    buf.push(((caller >> 56) & 0xff) as u8);
    buf.push(tag);
    proof {
        assert(seed@.subrange(0, 16) =~= seed@);
        assert(buf@ =~= payload(seed@, caller, tag));
    }
    blake2_128(&buf)
}

} // verus!
