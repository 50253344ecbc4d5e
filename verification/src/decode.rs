//! The whole container: the signature, then the items of the bitstream body.

use crate::abbrev::AIRAbbreviation;
use crate::bits::MAX_STREAM_BYTES;
use crate::block::{items_from, items_view, parse_items, AIRItem, ItemView, TOP_LEVEL_WIDTH};
use crate::cursor::BitCursor;
use crate::error::DecodeError;
use crate::header::{
    le_u32_at, parse_signature, parse_signature_of, AIRSignature, SIGNATURE_BYTES,
};
use vstd::prelude::*;
use vstd::slice::{slice_subrange, slice_to_vec};

verus! {

/// The bitstream body of a container: what follows the signature.
pub open spec fn body_of(bytes: Seq<u8>) -> Seq<u8> {
    bytes.subrange(SIGNATURE_BYTES as int, bytes.len() as int)
}

/// What decoding `bytes` gives: the signature and the items outside any
/// block, read with 2-bit abbreviation IDs from bit 0 of the body, one table
/// of abbreviations serving the whole body, until an item closes the top
/// level or no bit is left.
pub open spec fn decode_of(bytes: Seq<u8>) -> Result<(AIRSignature, Seq<ItemView>), DecodeError> {
    match parse_signature_of(bytes) {
        Err(e) => Err(e),
        Ok(signature) => match items_from(
            body_of(bytes),
            0,
            TOP_LEVEL_WIDTH as nat,
            Seq::empty(),
            0,
            true,
            Seq::empty(),
        ) {
            Err((e, _, _)) => Err(e),
            Ok((items, _, _)) => Ok((signature, items)),
        },
    }
}

/// Decodes a container: its signature and the tree of its items. The first
/// failure ends the decode, and nothing decoded up to it is handed out.
pub fn decode(bytes: &[u8]) -> (out: Result<(AIRSignature, Vec<AIRItem>), DecodeError>)
    requires
        bytes@.len() <= MAX_STREAM_BYTES,
    ensures
        match decode_of(bytes@) {
            Ok((signature, items)) => {
                &&& out matches Ok(decoded)
                &&& decoded.0 == signature
                &&& items_view(decoded.1@) == items
            },
            Err(e) => out matches Err(x) && x == e,
        },
{
    let signature: AIRSignature = match parse_signature(bytes) {
        Ok(signature) => signature,
        Err(e) => {
            return Err(e);
        },
    };
    let body: Vec<u8> = slice_to_vec(slice_subrange(bytes, SIGNATURE_BYTES, bytes.len()));
    let mut reader = BitCursor::new(body);
    let mut abbreviation_list: Vec<AIRAbbreviation> = Vec::new();
    proof {
        assert(crate::abbrev::table_view(abbreviation_list@) =~= Seq::empty());
    }
    match parse_items(&mut reader, TOP_LEVEL_WIDTH, &mut abbreviation_list, 0, true) {
        Ok(items) => Ok((signature, items)),
        Err(e) => Err(e),
    }
}

/// Whatever decodes has the signature that its first 24 bytes spell out,
/// field by field in little-endian order, with no field checked or changed.
pub proof fn lemma_decode_signature(bytes: Seq<u8>)
    ensures
        decode_of(bytes) matches Ok((signature, _)) ==> {
            &&& bytes.len() >= 24
            &&& signature.magic == le_u32_at(bytes, 0)
            &&& signature.version == le_u32_at(bytes, 4)
            &&& signature.offset == le_u32_at(bytes, 8)
            &&& signature.size == le_u32_at(bytes, 12)
            &&& signature.cpu_type == le_u32_at(bytes, 16)
            &&& signature.magic2 == le_u32_at(bytes, 20)
        },
{
}

/// Fewer than 24 bytes decode to nothing but `TruncatedHeader`.
pub proof fn lemma_decode_truncated_header(bytes: Seq<u8>)
    requires
        bytes.len() < 24,
    ensures
        decode_of(bytes) == Err::<(AIRSignature, Seq<ItemView>), DecodeError>(
            DecodeError::TruncatedHeader,
        ),
{
}

} // verus!
