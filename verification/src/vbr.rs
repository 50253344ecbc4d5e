//! Variable-bit-rate unsigned integers: a number stored as a run of
//! fixed-width chunks, each with a continuation flag in its top bit and
//! payload below it, the least significant payload first.

use crate::bits::bit_len;
use crate::cursor::{agrees, read_bits_at, BitCursor, Failure};
use crate::error::DecodeError;
use vstd::arithmetic::power2::pow2;
use vstd::bits::{lemma_u64_pow2_no_overflow, lemma_u64_shl_is_mul};
use vstd::prelude::*;

verus! {

/// The narrowest chunk: one flag bit and one payload bit.
pub const MIN_VBR_WIDTH: u64 = 2;

/// The widest chunk.
pub const MAX_VBR_WIDTH: u64 = 32;

/// The payload of a chunk of `width` bits: all but its top bit.
pub open spec fn vbr_payload(chunk: u64, width: nat) -> nat {
    chunk as nat % pow2((width - 1) as nat)
}

/// Whether the top bit of a chunk of `width` bits is set.
pub open spec fn vbr_continues(chunk: u64, width: nat) -> bool {
    chunk as nat / pow2((width - 1) as nat) != 0
}

/// `acc` with `payload` added in at bit `offset`; what does not fit in 64
/// bits is dropped.
pub open spec fn vbr_accumulate(acc: u64, payload: nat, offset: nat) -> u64 {
    ((acc + payload * pow2(offset)) % 0x1_0000_0000_0000_0000) as u64
}

/// How many more bits of a 64-bit result are open at `offset`.
pub open spec fn vbr_room(offset: nat) -> nat {
    if offset <= 63 {
        (64 - offset) as nat
    } else {
        0
    }
}

/// The rest of a number whose chunks so far gave `acc` and whose next chunk,
/// at bit `pos`, holds the payload for bit `offset` upwards. A chunk that
/// would start beyond bit 63 is an overflow, met behind the chunks read so
/// far.
pub open spec fn vbr_from(data: Seq<u8>, pos: nat, width: nat, acc: u64, offset: nat) -> Result<
    (u64, nat),
    Failure,
>
    decreases vbr_room(offset),
{
    if width < 2 || offset > 63 {
        Err((DecodeError::VbrOverflow, pos))
    } else {
        match read_bits_at(data, pos, width) {
            Err(failure) => Err(failure),
            Ok((chunk, next)) => {
                let sum = vbr_accumulate(acc, vbr_payload(chunk, width), offset);
                if vbr_continues(chunk, width) {
                    vbr_from(data, next, width, sum, (offset + width - 1) as nat)
                } else {
                    Ok((sum, next))
                }
            },
        }
    }
}

/// What reading a number in chunks of `width` bits at bit `pos` of `data`
/// gives: the number and the position after its last chunk, or the reason
/// why not. A width outside `2..=32` fails whatever the data, and reads
/// nothing.
pub open spec fn read_vbr_at(data: Seq<u8>, pos: nat, width: nat) -> Result<(u64, nat), Failure> {
    if width < MIN_VBR_WIDTH || width > MAX_VBR_WIDTH {
        Err((DecodeError::VbrOverflow, pos))
    } else {
        vbr_from(data, pos, width, 0, 0)
    }
}

/// `2^k` as a `u64`, for `k` below 64.
fn power_of_two(k: u64) -> (p: u64)
    requires
        k < 64,
    ensures
        p == pow2(k as nat),
        p > 0,
{
    proof {
        lemma_u64_pow2_no_overflow(k as nat);
        lemma_u64_shl_is_mul(1, k);
    }
    1u64 << k
}

/// Reads a number stored in chunks of `width` bits. Each chunk's top bit
/// says whether another chunk follows; the bits below it are payload, which
/// goes into the result at a running offset that grows by `width - 1` per
/// chunk.
pub fn read_vbr(reader: &mut BitCursor, width: u64) -> (out: Result<u64, DecodeError>)
    requires
        old(reader).wf(),
    ensures
        old(reader).same_buffer(*final(reader)),
        agrees(
            out,
            final(reader).position(),
            read_vbr_at(old(reader).bytes(), old(reader).position(), width as nat),
        ),
{
    if width < MIN_VBR_WIDTH || width > MAX_VBR_WIDTH {
        return Err(DecodeError::VbrOverflow);
    }
    let half: u64 = power_of_two(width - 1);
    let mut res: u64 = 0;
    let mut offset: u64 = 0;
    loop
        invariant
            2 <= width <= 32,
            half == pow2((width - 1) as nat),
            half > 0,
            offset <= 63,
            old(reader).same_buffer(*reader),
            vbr_from(reader.bytes(), reader.position(), width as nat, res, offset as nat)
                == read_vbr_at(old(reader).bytes(), old(reader).position(), width as nat),
        decreases 64 - offset,
    {
        let chunk: u64 = match reader.read_bits(width as u32) {
            Ok(chunk) => chunk,
            Err(e) => {
                return Err(e);
            },
        };
        let scale: u64 = power_of_two(offset);
        res = res.wrapping_add((chunk % half).wrapping_mul(scale));
        if chunk / half == 0 {
            return Ok(res);
        }
        offset = offset + (width - 1);
        if offset > 63 {
            return Err(DecodeError::VbrOverflow);
        }
    }
}

/// A number that was read takes at least one chunk and ends within the
/// buffer.
pub proof fn lemma_vbr_from_stays_in_buffer(
    data: Seq<u8>,
    pos: nat,
    width: nat,
    acc: u64,
    offset: nat,
)
    ensures
        vbr_from(data, pos, width, acc, offset) matches Ok((_, end)) ==> pos < end <= bit_len(data),
    decreases vbr_room(offset),
{
    if width >= 2 && offset <= 63 {
        if let Ok((chunk, next)) = read_bits_at(data, pos, width) {
            if vbr_continues(chunk, width) {
                let sum = vbr_accumulate(acc, vbr_payload(chunk, width), offset);
                lemma_vbr_from_stays_in_buffer(data, next, width, sum, (offset + width - 1) as nat);
            }
        }
    }
}

/// A number that was read takes at least one chunk and ends within the
/// buffer.
pub proof fn lemma_vbr_stays_in_buffer(data: Seq<u8>, pos: nat, width: nat)
    ensures
        read_vbr_at(data, pos, width) matches Ok((_, end)) ==> pos < end <= bit_len(data),
{
    lemma_vbr_from_stays_in_buffer(data, pos, width, 0, 0);
}

/// A number can fail to be read in two ways only: it runs past bit 63 or its
/// width is out of range, or the buffer ends within it.
pub proof fn lemma_vbr_from_failures(data: Seq<u8>, pos: nat, width: nat, acc: u64, offset: nat)
    requires
        width <= 64,
    ensures
        vbr_from(data, pos, width, acc, offset) matches Err((e, _)) ==> e == DecodeError::VbrOverflow
            || e == DecodeError::UnexpectedEndOfStream,
    decreases vbr_room(offset),
{
    if width >= 2 && offset <= 63 {
        if let Ok((chunk, next)) = read_bits_at(data, pos, width) {
            if vbr_continues(chunk, width) {
                let sum = vbr_accumulate(acc, vbr_payload(chunk, width), offset);
                lemma_vbr_from_failures(data, next, width, sum, (offset + width - 1) as nat);
            }
        }
    }
}

/// A number can fail to be read in two ways only: it runs past bit 63 or its
/// width is out of range, or the buffer ends within it.
pub proof fn lemma_vbr_failures(data: Seq<u8>, pos: nat, width: nat)
    ensures
        read_vbr_at(data, pos, width) matches Err((e, _)) ==> e == DecodeError::VbrOverflow || e
            == DecodeError::UnexpectedEndOfStream,
{
    if 2 <= width <= 32 {
        lemma_vbr_from_failures(data, pos, width, 0, 0);
    }
}

/// A chunk width outside `2..=32` is refused whatever the buffer holds and
/// wherever in it the read starts, and the cursor stays there.
pub proof fn lemma_vbr_width_out_of_range(data: Seq<u8>, pos: nat, width: nat)
    requires
        width < 2 || width > 32,
    ensures
        read_vbr_at(data, pos, width) == Err::<(u64, nat), Failure>(
            (DecodeError::VbrOverflow, pos),
        ),
{
}

} // verus!
