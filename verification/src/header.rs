//! The fixed 24-byte signature that precedes the bitstream body.

use crate::error::DecodeError;
use vstd::prelude::*;

verus! {

/// The number of bytes that the signature takes.
pub const SIGNATURE_BYTES: usize = 24;

/// The six 32-bit fields of the signature, in the order in which they are
/// stored. None of them is checked against any expected value.
#[derive(Clone, Copy, Debug, PartialEq, Eq)]
pub struct AIRSignature {
    pub magic: u32,
    pub version: u32,
    pub offset: u32,
    pub size: u32,
    pub cpu_type: u32,
    pub magic2: u32,
}

/// The little-endian reading of the four bytes of `bytes` that start at `at`.
pub open spec fn le_u32_at(bytes: Seq<u8>, at: int) -> int {
    bytes[at] + 0x100 * bytes[at + 1] + 0x1_0000 * bytes[at + 2] + 0x100_0000 * bytes[at + 3]
}

/// The signature that the first 24 bytes of `bytes` spell out.
pub open spec fn signature_of(bytes: Seq<u8>) -> AIRSignature {
    AIRSignature {
        magic: le_u32_at(bytes, 0) as u32,
        version: le_u32_at(bytes, 4) as u32,
        offset: le_u32_at(bytes, 8) as u32,
        size: le_u32_at(bytes, 12) as u32,
        cpu_type: le_u32_at(bytes, 16) as u32,
        magic2: le_u32_at(bytes, 20) as u32,
    }
}

/// What parsing the signature off the front of `bytes` gives.
pub open spec fn parse_signature_of(bytes: Seq<u8>) -> Result<AIRSignature, DecodeError> {
    if bytes.len() < SIGNATURE_BYTES {
        Err(DecodeError::TruncatedHeader)
    } else {
        Ok(signature_of(bytes))
    }
}

/// Reads one little-endian `u32` at byte `at`.
fn read_le_u32(bytes: &[u8], at: usize) -> (v: u32)
    requires
        at + 4 <= bytes@.len(),
    ensures
        v == le_u32_at(bytes@, at as int),
{
    let b0: u32 = bytes[at] as u32;
    let b1: u32 = bytes[at + 1] as u32;
    let b2: u32 = bytes[at + 2] as u32;
    let b3: u32 = bytes[at + 3] as u32;
    b0 + 0x100 * b1 + 0x1_0000 * b2 + 0x100_0000 * b3
}

impl AIRSignature {
    /// A signature with the given fields.
    pub fn new_from(
        magic: u32,
        version: u32,
        offset: u32,
        size: u32,
        cpu_type: u32,
        magic2: u32,
    ) -> (signature: Self)
        ensures
            signature == (AIRSignature { magic, version, offset, size, cpu_type, magic2 }),
    {
        Self { magic, version, offset, size, cpu_type, magic2 }
    }
}

/// Parses the signature: six consecutive little-endian `u32` fields at byte
/// offsets 0, 4, 8, 12, 16 and 20. Fails only where fewer than 24 bytes are
/// there.
pub fn parse_signature(bytes: &[u8]) -> (out: Result<AIRSignature, DecodeError>)
    ensures
        out == parse_signature_of(bytes@),
        bytes@.len() >= 24 ==> (out matches Ok(s) && {
            &&& s.magic == le_u32_at(bytes@, 0)
            &&& s.version == le_u32_at(bytes@, 4)
            &&& s.offset == le_u32_at(bytes@, 8)
            &&& s.size == le_u32_at(bytes@, 12)
            &&& s.cpu_type == le_u32_at(bytes@, 16)
            &&& s.magic2 == le_u32_at(bytes@, 20)
        }),
{
    if bytes.len() < SIGNATURE_BYTES {
        return Err(DecodeError::TruncatedHeader);
    }
    Ok(
        AIRSignature::new_from(
            read_le_u32(bytes, 0),
            read_le_u32(bytes, 4),
            read_le_u32(bytes, 8),
            read_le_u32(bytes, 12),
            read_le_u32(bytes, 16),
            read_le_u32(bytes, 20),
        ),
    )
}

} // verus!
