//! Bitwise genome combination.
//!
//! A selector byte decides, bit position by bit position, which parent's
//! genome bit propagates to the offspring: where the selector bit is set
//! the bit comes from the first parent, otherwise from the second.

use vstd::prelude::*;

verus! {

/// The byte built by taking each bit from `a` where the corresponding
/// bit of `s` is set, and from `b` where it is clear.
pub open spec fn combine_byte(a: u8, b: u8, s: u8) -> u8 {
    (a & s) | (b & !s)
}

/// True when bit `k` (0 = least significant) of `x` is set.
pub open spec fn get_bit(x: u8, k: u8) -> bool {
    (x >> k) & 1 == 1
}

/// Mask with exactly the low `k` bits set, for `k <= 8`.
pub open spec fn low_mask(k: u8) -> u8
    recommends
        k <= 8,
{
    !(0xffu8 << k)
}

/// Each bit of the combined byte is the matching bit of `a` where the
/// selector has that bit set, and of `b` where it is clear.
pub proof fn lemma_combine_byte_bits(a: u8, b: u8, s: u8)
    by (bit_vector)
    ensures
        forall|k: u8|
            k < 8 ==> #[trigger] get_bit(combine_byte(a, b, s), k) == if get_bit(s, k) {
                get_bit(a, k)
            } else {
                get_bit(b, k)
            },
{
}

/// Accumulating the bit chosen at position `k` extends the combined
/// result from the low `k` bits to the low `k + 1` bits.
proof fn lemma_combine_step(a: u8, b: u8, s: u8, res: u8, k: u8)
    by (bit_vector)
    requires
        k < 8,
        res == combine_byte(a, b, s) & low_mask(k),
    ensures
        (res | (if s & (1u8 << k) != 0 {
            a & (1u8 << k)
        } else {
            b & (1u8 << k)
        })) == combine_byte(a, b, s) & low_mask((k + 1) as u8),
{
}

/// Combines two genome bytes under a selector byte: for each of the 8
/// bit positions, the bit is taken from `dna1` if the selector has that
/// bit set, else from `dna2`, and the chosen bits are or-ed together.
pub fn combine_dna(dna1: u8, dna2: u8, selector: u8) -> (res: u8)
    ensures
        res == combine_byte(dna1, dna2, selector),
{
    let mut res: u8 = 0;
    let mut k: u8 = 0;
    proof {
        assert(combine_byte(dna1, dna2, selector) & low_mask(0) == 0) by (bit_vector);
    }
    while k < 8
        invariant
            k <= 8,
            res == combine_byte(dna1, dna2, selector) & low_mask(k),
        decreases 8 - k,
    {
        let mask: u8 = 1u8 << k;
        let chosen: u8 = if selector & mask != 0 {
            dna1 & mask
        } else {
            dna2 & mask
        };
        proof {
            lemma_combine_step(dna1, dna2, selector, res, k);
        }
        res = res | chosen;
        k = k + 1;
    }
    proof {
        assert(combine_byte(dna1, dna2, selector) & low_mask(8) == combine_byte(
            dna1,
            dna2,
            selector,
        )) by (bit_vector);
    }
    res
}

/// The genome of an offspring: byte `i` is `combine_byte` of the
/// parents' bytes at `i` under the selector's byte at `i`.
pub open spec fn combined(a: Seq<u8>, b: Seq<u8>, s: Seq<u8>) -> Seq<u8> {
    Seq::new(16, |i: int| combine_byte(a[i], b[i], s[i]))
}

/// Bit `k` of byte `i` of a combined genome is the first parent's bit
/// where the selector has that bit set, and the second parent's where
/// it is clear.
pub proof fn lemma_combined_bits(a: Seq<u8>, b: Seq<u8>, s: Seq<u8>)
    ensures
        forall|i: int, k: u8|
            0 <= i < 16 && k < 8 ==> #[trigger] get_bit(combined(a, b, s)[i], k) == if get_bit(
                s[i],
                k,
            ) {
                get_bit(a[i], k)
            } else {
                get_bit(b[i], k)
            },
{
    assert forall|i: int, k: u8| 0 <= i < 16 && k < 8 implies #[trigger] get_bit(
        combined(a, b, s)[i],
        k,
    ) == if get_bit(s[i], k) {
        get_bit(a[i], k)
    } else {
        get_bit(b[i], k)
    } by {
        lemma_combine_byte_bits(a[i], b[i], s[i]);
    }
}

/// Combines two 16-byte genomes under a 16-byte selector, byte position
/// by byte position.
pub fn combine(a: &[u8; 16], b: &[u8; 16], s: &[u8; 16]) -> (r: [u8; 16])
    ensures
        r@ == combined(a@, b@, s@),
{
    let mut r: [u8; 16] = [0u8; 16];
    let mut i: usize = 0;
    while i < 16
        invariant
            i <= 16,
            forall|j: int| 0 <= j < i ==> r@[j] == combine_byte(a@[j], b@[j], s@[j]),
        decreases 16 - i,
    {
        r[i] = combine_dna(a[i], b[i], s[i]);
        i = i + 1;
    }
    proof {
        assert(r@ =~= combined(a@, b@, s@));
    }
    r
}

} // verus!
