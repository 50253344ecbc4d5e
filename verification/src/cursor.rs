//! Bit cursor: a sequential, least-significant-bit-first reader over an
//! in-memory byte buffer that knows its absolute position in bits.

use crate::bits::{bit_len, bits_value, lemma_bits_value_bound, MAX_STREAM_BYTES};
use crate::error::DecodeError;
use bitstream_io::BitRead;
use bitstream_io::BitReader;
use bitstream_io::LittleEndian;
use std::io::Cursor;
use vstd::arithmetic::power2::{lemma2_to64_rest, lemma_pow2_strictly_increases};
use vstd::prelude::*;

verus! {

/// A `bitstream_io::BitReader` in little-endian bit order over an owned
/// buffer. Nothing inside it is visible to the verifier: what is known of it
/// is what [`source_bytes`] and [`source_consumed`] name and what the three
/// functions below state about them.
#[verifier::external_body]
pub struct BitSource {
    reader: BitReader<Cursor<Vec<u8>>, LittleEndian>,
}

/// The bytes that a source was opened on.
pub uninterp spec fn source_bytes(source: BitSource) -> Seq<u8>;

/// The number of bits that a source has handed out or skipped so far.
pub uninterp spec fn source_consumed(source: BitSource) -> nat;

/// `BitReader::new` on a `std::io::Cursor` that owns `bytes`: the reader
/// starts at bit 0 of those bytes.
#[verifier::external_body]
fn source_open(bytes: Vec<u8>) -> (source: BitSource)
    ensures
        source_bytes(source) == bytes@,
        source_consumed(source) == 0,
{
    BitSource { reader: BitReader::new(Cursor::new(bytes)) }
}

/// `BitRead::read_var::<u64>`, called only for at most 64 bits and only
/// where that many bits are left: the read then succeeds, returns them as one
/// number, first bit least significant, and has moved on by that many bits.
/// The buffer itself never changes. A read for which the bits are not there
/// is never made: it could leave bits of an earlier byte behind in the
/// reader, and nothing is stated here of a reader in that state.
#[verifier::external_body]
fn source_read(source: &mut BitSource, n: u32) -> (out: Option<u64>)
    requires
        n <= 64,
        source_consumed(*old(source)) + n <= bit_len(source_bytes(*old(source))),
    ensures
        source_bytes(*final(source)) == source_bytes(*old(source)),
        out is Some <==> source_consumed(*old(source)) + n <= bit_len(source_bytes(*old(source))),
        out matches Some(v) ==> {
            &&& v == bits_value(source_bytes(*old(source)), source_consumed(*old(source)), n as nat)
            &&& source_consumed(*final(source)) == source_consumed(*old(source)) + n
        },
{
    source.reader.read_var::<u64>(n).ok()
}

/// `BitRead::skip`, called only where `n` bits are left: the skip then
/// succeeds and has moved on by `n` bits. The buffer itself never changes. A
/// skip for which the bits are not there is never made, for the reason given
/// at `source_read`.
#[verifier::external_body]
fn source_skip(source: &mut BitSource, n: u32) -> (done: bool)
    requires
        source_consumed(*old(source)) + n <= bit_len(source_bytes(*old(source))),
    ensures
        source_bytes(*final(source)) == source_bytes(*old(source)),
        done <==> source_consumed(*old(source)) + n <= bit_len(source_bytes(*old(source))),
        done ==> source_consumed(*final(source)) == source_consumed(*old(source)) + n,
{
    source.reader.skip(n).is_ok()
}

/// Why a step failed, and the bit at which it left the cursor.
pub type Failure = (DecodeError, nat);

/// What reading `n` bits at bit `pos` of `data` gives: the value and the
/// position after it, or the reason why not. A read is all or nothing: one
/// that fails leaves the cursor where it was.
pub open spec fn read_bits_at(data: Seq<u8>, pos: nat, n: nat) -> Result<(u64, nat), Failure> {
    if n > 64 {
        Err((DecodeError::InvalidBitWidth, pos))
    } else if pos + n > bit_len(data) {
        Err((DecodeError::UnexpectedEndOfStream, pos))
    } else {
        Ok((bits_value(data, pos, n) as u64, pos + n))
    }
}

/// Where skipping `n` bits at bit `pos` of `data` ends. A skip that fails
/// leaves the cursor where it was.
pub open spec fn skip_at(data: Seq<u8>, pos: nat, n: nat) -> Result<nat, Failure> {
    if pos + n > bit_len(data) {
        Err((DecodeError::UnexpectedEndOfStream, pos))
    } else {
        Ok(pos + n)
    }
}

/// Where the next multiple of 32 bits at or after `pos` lies.
pub open spec fn align_32_at(data: Seq<u8>, pos: nat) -> Result<nat, Failure> {
    if pos % 32 == 0 {
        Ok(pos)
    } else {
        skip_at(data, pos, (32 - pos % 32) as nat)
    }
}

/// Whether a decoding step that a model places at `model` came out as `out`
/// and left the cursor at bit `end`: the same value at the same position, or
/// the same failure at the same position.
pub open spec fn agrees<T>(
    out: Result<T, DecodeError>,
    end: nat,
    model: Result<(T, nat), Failure>,
) -> bool {
    match model {
        Ok((v, p)) => out == Ok::<T, DecodeError>(v) && end == p,
        Err((e, p)) => out == Err::<T, DecodeError>(e) && end == p,
    }
}

/// The same for a step that yields nothing but a position.
pub open spec fn moved(out: Result<(), DecodeError>, end: nat, model: Result<nat, Failure>) -> bool {
    match model {
        Ok(p) => out == Ok::<(), DecodeError>(()) && end == p,
        Err((e, p)) => out == Err::<(), DecodeError>(e) && end == p,
    }
}

/// A reader over a byte buffer with its position in bits.
pub struct BitCursor {
    source: BitSource,
    position: u64,
    bit_length: u64,
}

impl BitCursor {
    /// The cursor's own count of bits agrees with its source, and lies
    /// within the buffer.
    pub closed spec fn wf(&self) -> bool {
        &&& self.bit_length == bit_len(source_bytes(self.source))
        &&& self.position == source_consumed(self.source)
        &&& self.position <= self.bit_length
    }

    /// The buffer that is being read.
    pub closed spec fn bytes(&self) -> Seq<u8> {
        source_bytes(self.source)
    }

    /// The number of bits consumed so far.
    pub closed spec fn position(&self) -> nat {
        self.position as nat
    }

    /// `after` reads the same buffer as `self` and is well-formed.
    pub open spec fn same_buffer(&self, after: BitCursor) -> bool {
        after.wf() && after.bytes() == self.bytes()
    }

    /// The number of bits that are left.
    pub open spec fn remaining(&self) -> int {
        bit_len(self.bytes()) - self.position()
    }

    /// In a well-formed cursor the position lies within the buffer, and the
    /// buffer's length in bits fits in a `u64`.
    pub proof fn lemma_wf_bounds(&self)
        requires
            self.wf(),
        ensures
            self.position() <= bit_len(self.bytes()),
            bit_len(self.bytes()) <= u64::MAX,
    {
    }

    /// A cursor at bit 0 of `bytes`.
    pub fn new(bytes: Vec<u8>) -> (cursor: Self)
        requires
            bytes.len() <= MAX_STREAM_BYTES,
        ensures
            cursor.wf(),
            cursor.bytes() == bytes@,
            cursor.position() == 0,
    {
        let bit_length: u64 = (bytes.len() as u64) * 8;
        BitCursor { source: source_open(bytes), position: 0, bit_length }
    }

    /// The absolute position, in bits from the start of the buffer.
    pub fn position_in_bits(&self) -> (p: u64)
        requires
            self.wf(),
        ensures
            p == self.position(),
    {
        self.position
    }

    /// Whether every bit has been consumed.
    pub fn is_exhausted(&self) -> (b: bool)
        requires
            self.wf(),
        ensures
            b <==> self.position() == bit_len(self.bytes()),
    {
        self.position == self.bit_length
    }

    /// Reads the next `n` bits as one number, the first bit read being the
    /// least significant. Either all `n` bits are there and consumed, or the
    /// call fails and the cursor stays where it was.
    pub fn read_bits(&mut self, n: u32) -> (out: Result<u64, DecodeError>)
        requires
            old(self).wf(),
        ensures
            final(self).wf(),
            final(self).bytes() == old(self).bytes(),
            agrees(
                out,
                final(self).position(),
                read_bits_at(old(self).bytes(), old(self).position(), n as nat),
            ),
    {
        if n > 64 {
            return Err(DecodeError::InvalidBitWidth);
        }
        if n as u64 > self.bit_length - self.position {
            return Err(DecodeError::UnexpectedEndOfStream);
        }
        match source_read(&mut self.source, n) {
            Some(v) => {
                proof {
                    lemma_bits_value_bound(old(self).bytes(), old(self).position(), n as nat);
                    if n < 64 {
                        lemma_pow2_strictly_increases(n as nat, 64);
                    }
                    lemma2_to64_rest();
                }
                self.position = self.position + n as u64;
                Ok(v)
            },
            None => Err(DecodeError::UnexpectedEndOfStream),
        }
    }

    /// Moves on by `n` bits without looking at them, or fails and stays.
    pub fn skip(&mut self, n: u32) -> (out: Result<(), DecodeError>)
        requires
            old(self).wf(),
        ensures
            final(self).wf(),
            final(self).bytes() == old(self).bytes(),
            moved(
                out,
                final(self).position(),
                skip_at(old(self).bytes(), old(self).position(), n as nat),
            ),
    {
        if n as u64 > self.bit_length - self.position {
            return Err(DecodeError::UnexpectedEndOfStream);
        }
        if source_skip(&mut self.source, n) {
            self.position = self.position + n as u64;
            Ok(())
        } else {
            Err(DecodeError::UnexpectedEndOfStream)
        }
    }

    /// Moves on to the next multiple of 32 bits; does nothing where the
    /// position already is one.
    pub fn align_to_32(&mut self) -> (out: Result<(), DecodeError>)
        requires
            old(self).wf(),
        ensures
            final(self).wf(),
            final(self).bytes() == old(self).bytes(),
            moved(out, final(self).position(), align_32_at(old(self).bytes(), old(self).position())),
    {
        let past: u64 = self.position % 32;
        if past == 0 {
            Ok(())
        } else {
            self.skip((32 - past) as u32)
        }
    }
}

} // verus!
