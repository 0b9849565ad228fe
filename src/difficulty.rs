//! Expansion of the compact difficulty encoding into a 32-byte target.
use vstd::prelude::*;

use crate::error::ChainError;
use crate::magnitude::{lemma_magnitude_concat, lemma_magnitude_zeros, magnitude, pow256};

verus! {

/// The exponent byte of a compact difficulty.
pub open spec fn exponent_of(bits: Seq<u8>) -> nat {
    bits[3] as nat
}

/// Exponents for which the three mantissa bytes land inside the 32-byte
/// target: below 3 they would start before index 0, above 32 past its end.
pub open spec fn exponent_in_range(bits: Seq<u8>) -> bool {
    3 <= exponent_of(bits) <= 32
}

/// The target a compact difficulty stands for: bytes 0 to 2 of `bits` placed
/// at offset `exponent - 3`, every other byte zero.
pub open spec fn target_of(bits: Seq<u8>) -> Seq<u8> {
    let offset = exponent_of(bits) - 3;
    Seq::new(
        32,
        |i: int|
            if i == offset {
                bits[0]
            } else if i == offset + 1 {
                bits[1]
            } else if i == offset + 2 {
                bits[2]
            } else {
                0u8
            },
    )
}

/// The mantissa of a compact difficulty: its first three bytes, little-endian.
pub open spec fn mantissa_of(bits: Seq<u8>) -> nat {
    bits[0] as nat + 256 * (bits[1] as nat) + 65536 * (bits[2] as nat)
}

/// The expanded target is the number of Bitcoin's compact encoding: the
/// mantissa times `256^(exponent - 3)`.
pub proof fn lemma_target_is_shifted_mantissa(bits: Seq<u8>)
    requires
        bits.len() == 4,
        exponent_in_range(bits),
    ensures
        magnitude(target_of(bits)) == mantissa_of(bits) * pow256((exponent_of(bits) - 3) as nat),
{
    let off = (exponent_of(bits) - 3) as nat;
    let t = target_of(bits);
    let below = t.subrange(0, off as int);
    let m = t.subrange(off as int, off + 3int);
    let above = t.subrange(off + 3int, 32);
    assert(t =~= (below + m) + above);
    assert(m =~= seq![bits[0], bits[1], bits[2]]);
    lemma_magnitude_concat(below + m, above);
    lemma_magnitude_zeros(above);
    lemma_magnitude_concat(below, m);
    lemma_magnitude_zeros(below);
    let m2 = m.drop_last();
    let m1 = m2.drop_last();
    assert(magnitude(m1.drop_last()) == 0);
    assert(pow256(0) == 1);
    assert(pow256(1) == 256);
    assert(pow256(2) == 65536);
    let (b0, b1, b2) = (bits[0] as nat, bits[1] as nat, bits[2] as nat);
    assert(pow256(0) * b0 == b0);
    assert(magnitude(m1) == b0);
    assert(magnitude(m2) == b0 + 256 * b1);
    assert(magnitude(m) == mantissa_of(bits));
    assert(pow256(off) * mantissa_of(bits) == mantissa_of(bits) * pow256(off)) by (nonlinear_arith);
}

/// Expands a 4-byte compact difficulty (three mantissa bytes, then the
/// exponent) into its 32-byte target.
pub fn bits_to_target(n_bits: &[u8]) -> (r: Result<[u8; 32], ChainError>)
    requires
        n_bits@.len() == 4,
    ensures
        r is Ok <==> exponent_in_range(n_bits@),
        r is Ok ==> r->Ok_0@ == target_of(n_bits@),
        r is Err ==> r == Err::<[u8; 32], ChainError>(ChainError::InvalidDifficultyEncoding),
        exponent_of(n_bits@) <= 2 ==> r == Err::<[u8; 32], ChainError>(
            ChainError::InvalidDifficultyEncoding,
        ),
{
    let exponent: usize = n_bits[3] as usize;
    if exponent < 3 || exponent > 32 {
        return Err(ChainError::InvalidDifficultyEncoding);
    }
    let mut target = [0u8; 32];
    target[exponent - 3] = n_bits[0];
    target[exponent - 2] = n_bits[1];
    target[exponent - 1] = n_bits[2];
    assert(target@ =~= target_of(n_bits@));
    Ok(target)
}

} // verus!
