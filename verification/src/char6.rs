//! The packed 6-bit character encoding.

use crate::cursor::{agrees, read_bits_at, BitCursor, Failure};
use crate::error::DecodeError;
use vstd::prelude::*;

verus! {

/// The ASCII byte that a 6-bit code stands for. Codes 26 to 51 map onto the
/// lower-case letters again, as codes 0 to 25 do.
pub open spec fn char6_byte(code: u64) -> u8
    recommends
        code <= 63,
{
    if code <= 25 {
        (0x61 + code) as u8
    } else if code <= 51 {
        (0x61 + (code - 26)) as u8
    } else if code <= 61 {
        (0x30 + (code - 52)) as u8
    } else if code == 62 {
        0x2e
    } else {
        0x5f
    }
}

/// What a code decodes to: its byte, or the failure for a code above 63.
pub open spec fn char6_of(code: u64) -> Result<u8, DecodeError> {
    if code > 63 {
        Err(DecodeError::InvalidChar6)
    } else {
        Ok(char6_byte(code))
    }
}

/// What reading one character at bit `pos` of `data` gives.
pub open spec fn read_char6_at(data: Seq<u8>, pos: nat) -> Result<(u8, nat), Failure> {
    match read_bits_at(data, pos, 6) {
        Err(failure) => Err(failure),
        Ok((code, next)) => match char6_of(code) {
            Err(e) => Err((e, next)),
            Ok(byte) => Ok((byte, next)),
        },
    }
}

/// Maps a code to its ASCII byte.
pub fn char6_decode(code: u64) -> (out: Result<u8, DecodeError>)
    ensures
        out == char6_of(code),
{
    if code <= 25 {
        Ok(0x61u8 + code as u8)
    } else if code <= 51 {
        Ok(0x61u8 + (code - 26) as u8)
    } else if code <= 61 {
        Ok(0x30u8 + (code - 52) as u8)
    } else if code == 62 {
        Ok(0x2e)
    } else if code == 63 {
        Ok(0x5f)
    } else {
        Err(DecodeError::InvalidChar6)
    }
}

/// Reads one character: consumes exactly 6 bits and maps the code.
pub fn read_char6(reader: &mut BitCursor) -> (out: Result<u8, DecodeError>)
    requires
        old(reader).wf(),
    ensures
        old(reader).same_buffer(*final(reader)),
        agrees(out, final(reader).position(), read_char6_at(old(reader).bytes(), old(reader).position())),
{
    match reader.read_bits(6) {
        Err(e) => Err(e),
        Ok(code) => char6_decode(code),
    }
}

/// Six bits never hold a code above 63: reading a character fails only for
/// want of bits, and then leaves the cursor where it was.
pub proof fn lemma_read_char6_never_invalid(data: Seq<u8>, pos: nat)
    ensures
        read_char6_at(data, pos) is Err <==> pos + 6 > crate::bits::bit_len(data),
        read_char6_at(data, pos) is Err ==> read_char6_at(data, pos) == Err::<(u8, nat), Failure>(
            (DecodeError::UnexpectedEndOfStream, pos),
        ),
{
    crate::bits::lemma_bits_value_bound(data, pos, 6);
    vstd::arithmetic::power2::lemma2_to64();
}

} // verus!
