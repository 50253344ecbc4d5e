//! The bit-level reading of a byte sequence: bit 0 of the stream is the least
//! significant bit of byte 0, and a field of `n` bits is the number whose
//! binary digits are the next `n` bits, least significant first.

use vstd::arithmetic::power2::{lemma2_to64, lemma_pow2_unfold, pow2};
use vstd::prelude::*;

verus! {

/// The largest buffer whose length in bits still fits in a `u64`.
pub const MAX_STREAM_BYTES: u64 = 0x1fff_ffff_ffff_ffff;

/// The number of bits in `data`.
pub open spec fn bit_len(data: Seq<u8>) -> nat {
    8 * data.len()
}

/// Bit `i` of the stream, as 0 or 1.
pub open spec fn bit_at(data: Seq<u8>, i: nat) -> nat {
    (data[(i / 8) as int] as nat / pow2(i % 8)) % 2
}

/// The value of the `n` bits that start at bit `start`, the first of them
/// being the least significant.
pub open spec fn bits_value(data: Seq<u8>, start: nat, n: nat) -> nat
    decreases n,
{
    if n == 0 {
        0
    } else {
        bit_at(data, start) + 2 * bits_value(data, start + 1, (n - 1) as nat)
    }
}

/// A field of `n` bits is below `2^n`.
pub proof fn lemma_bits_value_bound(data: Seq<u8>, start: nat, n: nat)
    ensures
        bits_value(data, start, n) < pow2(n),
    decreases n,
{
    if n == 0 {
        lemma2_to64();
    } else {
        lemma_bits_value_bound(data, start + 1, (n - 1) as nat);
        lemma_pow2_unfold(n);
    }
}

} // verus!
