//! Abbreviations: the templates of operand encodings that records are
//! decoded by, the table that collects them, and the records themselves.

use crate::bits::bit_len;
use crate::char6::{read_char6, read_char6_at};
use crate::cursor::{agrees, read_bits_at, BitCursor, Failure};
use crate::error::DecodeError;
use crate::vbr::{lemma_vbr_failures, lemma_vbr_stays_in_buffer, read_vbr, read_vbr_at};
use vstd::prelude::*;

verus! {

/// How one field of an abbreviated record is stored.
#[derive(Debug, PartialEq, Eq)]
pub enum AIROperand {
    /// A constant; it takes no bits in the record.
    Literal(u64),
    /// An integer of the given number of bits.
    Fixed(u64),
    /// A variable-bit-rate integer in chunks of the given width.
    Variable(u64),
    /// A run of elements, each stored as the nested encoding says.
    Array(Box<AIROperand>),
    /// One 6-bit character.
    Char6,
    /// A blob of bytes.
    Blob,
}

/// An ordered sequence of operand encodings.
#[derive(Debug, PartialEq, Eq)]
pub struct AIRAbbreviation {
    pub operands: Vec<AIROperand>,
}

impl View for AIRAbbreviation {
    type V = Seq<AIROperand>;

    open spec fn view(&self) -> Seq<AIROperand> {
        self.operands@
    }
}

/// The operands of a record: for an abbreviated one, the abbreviation's place
/// in the table and the place in it of the next operand to decode.
#[derive(Clone, Copy, Debug, PartialEq, Eq)]
pub enum AIROps {
    Abbrev { state: usize, index: usize },
    Full(usize),
}

/// A record: its identifier and its operands.
#[derive(Clone, Copy, Debug, PartialEq, Eq)]
pub struct AIRRecord {
    pub id: u64,
    pub ops: AIROps,
}

/// The abbreviations of a table, each as its sequence of operands.
pub open spec fn table_view(table: Seq<AIRAbbreviation>) -> Seq<Seq<AIROperand>> {
    table.map_values(|a: AIRAbbreviation| a@)
}

/// The selector values of the five kinds of operand that are no literal.
pub const KIND_FIXED: u64 = 1;

pub const KIND_VARIABLE: u64 = 2;

pub const KIND_ARRAY: u64 = 3;

pub const KIND_CHAR6: u64 = 4;

pub const KIND_BLOB: u64 = 5;

/// What parsing one operand encoding at bit `pos` of `data` gives. A set
/// literal flag is followed by the literal's value; a clear one by a 3-bit
/// kind, and that by the width (for `Fixed` and `Variable`) or by the nested
/// encoding (for `Array`).
#[verifier::opaque]
pub open spec fn parse_operand_at(data: Seq<u8>, pos: nat) -> Result<(AIROperand, nat), Failure>
    decreases bit_len(data) - pos,
{
    match read_bits_at(data, pos, 1) {
        Err(failure) => Err(failure),
        Ok((flag, behind_flag)) => if flag != 0 {
            match read_vbr_at(data, behind_flag, 8) {
                Err(failure) => Err(failure),
                Ok((value, end)) => Ok((AIROperand::Literal(value), end)),
            }
        } else {
            match read_bits_at(data, behind_flag, 3) {
                Err(failure) => Err(failure),
                Ok((kind, behind_kind)) => if kind == KIND_FIXED {
                    match read_vbr_at(data, behind_kind, 5) {
                        Err(failure) => Err(failure),
                        Ok((width, end)) => Ok((AIROperand::Fixed(width), end)),
                    }
                } else if kind == KIND_VARIABLE {
                    match read_vbr_at(data, behind_kind, 5) {
                        Err(failure) => Err(failure),
                        Ok((width, end)) => Ok((AIROperand::Variable(width), end)),
                    }
                } else if kind == KIND_ARRAY {
                    match parse_operand_at(data, behind_kind) {
                        Err(failure) => Err(failure),
                        Ok((inner, end)) => Ok((AIROperand::Array(Box::new(inner)), end)),
                    }
                } else if kind == KIND_CHAR6 {
                    Ok((AIROperand::Char6, behind_kind))
                } else if kind == KIND_BLOB {
                    Ok((AIROperand::Blob, behind_kind))
                } else {
                    Err((DecodeError::UnknownOperandEncoding, behind_kind))
                },
            }
        },
    }
}

/// The operands of a definition of which `acc` have been parsed and `count`
/// are still to come, the next one at bit `pos`. An array and the encoding
/// nested in it take one of the slots together.
pub open spec fn operands_from(data: Seq<u8>, pos: nat, count: nat, acc: Seq<AIROperand>) -> Result<
    (Seq<AIROperand>, nat),
    Failure,
>
    decreases count,
{
    if count == 0 {
        Ok((acc, pos))
    } else {
        match parse_operand_at(data, pos) {
            Err(failure) => Err(failure),
            Ok((operand, next)) => operands_from(data, next, (count - 1) as nat, acc.push(operand)),
        }
    }
}

/// What an abbreviation definition at bit `pos` of `data` gives: the number
/// of operands, then that many operands.
pub open spec fn define_abbreviation_at(data: Seq<u8>, pos: nat) -> Result<
    (Seq<AIROperand>, nat),
    Failure,
> {
    match read_vbr_at(data, pos, 5) {
        Err(failure) => Err(failure),
        Ok((count, next)) => operands_from(data, next, count as nat, Seq::empty()),
    }
}

/// What reading one value stored as `operand` says, at bit `pos` of `data`,
/// gives. A literal is its own value and takes no bits; an array or a blob is
/// no scalar, and is refused before any bit is read.
pub open spec fn read_scalar_at(data: Seq<u8>, pos: nat, operand: AIROperand) -> Result<
    (u64, nat),
    Failure,
> {
    match operand {
        AIROperand::Literal(value) => Ok((value, pos)),
        AIROperand::Fixed(width) => read_bits_at(data, pos, width as nat),
        AIROperand::Variable(width) => read_vbr_at(data, pos, width as nat),
        AIROperand::Char6 => match read_char6_at(data, pos) {
            Err(failure) => Err(failure),
            Ok((byte, next)) => Ok((byte as u64, next)),
        },
        AIROperand::Array(_) => Err((DecodeError::NotAScalarOperand, pos)),
        AIROperand::Blob => Err((DecodeError::NotAScalarOperand, pos)),
    }
}

/// What decoding a record by the abbreviation at `index` of `table` gives,
/// at bit `pos` of `data`. The abbreviation's first operand is read as the
/// record's identifier; an abbreviation with no operand has none to read. A
/// reference beyond the table and an abbreviation with no operand are
/// refused before any bit is read.
pub open spec fn record_at(data: Seq<u8>, pos: nat, table: Seq<Seq<AIROperand>>, index: nat) -> Result<
    (AIRRecord, nat),
    Failure,
> {
    if index >= table.len() {
        Err((DecodeError::UnknownAbbreviation, pos))
    } else if table[index as int].len() == 0 {
        Err((DecodeError::NotAScalarOperand, pos))
    } else {
        match read_scalar_at(data, pos, table[index as int][0]) {
            Err(failure) => Err(failure),
            Ok((id, next)) => Ok(
                (AIRRecord { id, ops: AIROps::Abbrev { state: 1, index: index as usize } }, next),
            ),
        }
    }
}

/// A copy of an operand encoding.
fn copy_operand(operand: &AIROperand) -> (copy: AIROperand)
    ensures
        copy == *operand,
    decreases operand,
{
    match operand {
        AIROperand::Literal(value) => AIROperand::Literal(*value),
        AIROperand::Fixed(width) => AIROperand::Fixed(*width),
        AIROperand::Variable(width) => AIROperand::Variable(*width),
        AIROperand::Array(inner) => AIROperand::Array(Box::new(copy_operand(inner))),
        AIROperand::Char6 => AIROperand::Char6,
        AIROperand::Blob => AIROperand::Blob,
    }
}

impl Clone for AIROperand {
    /// A copy that equals the encoding.
    fn clone(&self) -> (copy: Self)
        ensures
            copy == *self,
    {
        copy_operand(self)
    }
}

impl Clone for AIRAbbreviation {
    /// A copy with the same operands in the same order.
    fn clone(&self) -> (copy: Self)
        ensures
            copy@ == self@,
    {
        let mut operands: Vec<AIROperand> = Vec::new();
        let mut i: usize = 0;
        while i < self.operands.len()
            invariant
                i <= self.operands.len(),
                operands@ == self.operands@.take(i as int),
            decreases self.operands.len() - i,
        {
            operands.push(copy_operand(&self.operands[i]));
            i = i + 1;
        }
        AIRAbbreviation { operands }
    }
}

/// Parses one operand encoding.
pub fn parse_operand(reader: &mut BitCursor) -> (out: Result<AIROperand, DecodeError>)
    requires
        old(reader).wf(),
    ensures
        old(reader).same_buffer(*final(reader)),
        agrees(
            out,
            final(reader).position(),
            parse_operand_at(old(reader).bytes(), old(reader).position()),
        ),
    decreases old(reader).remaining(),
{
    reveal(parse_operand_at);
    let flag: u64 = match reader.read_bits(1) {
        Ok(flag) => flag,
        Err(e) => {
            return Err(e);
        },
    };
    if flag != 0 {
        return match read_vbr(reader, 8) {
            Ok(value) => Ok(AIROperand::Literal(value)),
            Err(e) => Err(e),
        };
    }
    let kind: u64 = match reader.read_bits(3) {
        Ok(kind) => kind,
        Err(e) => {
            return Err(e);
        },
    };
    if kind == KIND_FIXED {
        match read_vbr(reader, 5) {
            Ok(width) => Ok(AIROperand::Fixed(width)),
            Err(e) => Err(e),
        }
    } else if kind == KIND_VARIABLE {
        match read_vbr(reader, 5) {
            Ok(width) => Ok(AIROperand::Variable(width)),
            Err(e) => Err(e),
        }
    } else if kind == KIND_ARRAY {
        match parse_operand(reader) {
            Ok(inner) => Ok(AIROperand::Array(Box::new(inner))),
            Err(e) => Err(e),
        }
    } else if kind == KIND_CHAR6 {
        Ok(AIROperand::Char6)
    } else if kind == KIND_BLOB {
        Ok(AIROperand::Blob)
    } else {
        Err(DecodeError::UnknownOperandEncoding)
    }
}

/// Parses an abbreviation definition, appends the new abbreviation to the
/// table and returns it. Where the definition cannot be parsed the table
/// stays as it was.
pub fn parse_define_abbreviation(
    reader: &mut BitCursor,
    abbreviation_list: &mut Vec<AIRAbbreviation>,
) -> (out: Result<AIRAbbreviation, DecodeError>)
    requires
        old(reader).wf(),
    ensures
        old(reader).same_buffer(*final(reader)),
        old(abbreviation_list)@.is_prefix_of(final(abbreviation_list)@),
        match define_abbreviation_at(old(reader).bytes(), old(reader).position()) {
            Ok((operands, next)) => {
                &&& out matches Ok(abbreviation)
                &&& abbreviation@ == operands
                &&& final(reader).position() == next
                &&& final(abbreviation_list)@.len() == old(abbreviation_list)@.len() + 1
                &&& table_view(final(abbreviation_list)@) == table_view(old(abbreviation_list)@).push(
                    operands,
                )
            },
            Err((e, end)) => {
                &&& out matches Err(x)
                &&& x == e
                &&& final(reader).position() == end
                &&& final(abbreviation_list)@ == old(abbreviation_list)@
            },
        },
{
    let count: u64 = match read_vbr(reader, 5) {
        Ok(count) => count,
        Err(e) => {
            return Err(e);
        },
    };
    let ghost data = reader.bytes();
    let ghost start = reader.position();
    let mut operands: Vec<AIROperand> = Vec::new();
    let mut left: u64 = count;
    while left > 0
        invariant
            old(reader).same_buffer(*reader),
            data == reader.bytes(),
            *abbreviation_list == *old(abbreviation_list),
            define_abbreviation_at(old(reader).bytes(), old(reader).position()) == operands_from(
                data,
                start,
                count as nat,
                Seq::empty(),
            ),
            operands_from(data, reader.position(), left as nat, operands@) == operands_from(
                data,
                start,
                count as nat,
                Seq::empty(),
            ),
        decreases left,
    {
        let ghost step = parse_operand_at(data, reader.position());
        assert(operands_from(data, reader.position(), left as nat, operands@) == match step {
            Err(failure) => Err(failure),
            Ok((operand, next)) => operands_from(
                data,
                next,
                (left - 1) as nat,
                operands@.push(operand),
            ),
        });
        match parse_operand(reader) {
            Ok(operand) => {
                operands.push(operand);
            },
            Err(e) => {
                return Err(e);
            },
        }
        left = left - 1;
    }
    let result = AIRAbbreviation { operands };
    let entry = result.clone();
    proof {
        let before = old(abbreviation_list)@;
        assert(table_view(before.push(entry)) =~= table_view(before).push(entry@));
    }
    abbreviation_list.push(entry);
    Ok(result)
}

/// Reads one value as the operand encoding says.
pub fn read_scalar_operand(reader: &mut BitCursor, op: &AIROperand) -> (out: Result<u64, DecodeError>)
    requires
        old(reader).wf(),
    ensures
        old(reader).same_buffer(*final(reader)),
        agrees(
            out,
            final(reader).position(),
            read_scalar_at(old(reader).bytes(), old(reader).position(), *op),
        ),
        out == Err::<u64, DecodeError>(DecodeError::NotAScalarOperand) <==> (*op is Array || *op
            is Blob),
        (*op is Array || *op is Blob || *op is Literal) ==> final(reader).position() == old(
            reader,
        ).position(),
{
    proof {
        lemma_scalar_refusal(old(reader).bytes(), old(reader).position(), *op);
    }
    match op {
        AIROperand::Literal(value) => Ok(*value),
        AIROperand::Fixed(width) => {
            if *width > 64 {
                Err(DecodeError::InvalidBitWidth)
            } else {
                reader.read_bits(*width as u32)
            }
        },
        AIROperand::Variable(width) => read_vbr(reader, *width),
        AIROperand::Char6 => match read_char6(reader) {
            Ok(byte) => Ok(byte as u64),
            Err(e) => Err(e),
        },
        AIROperand::Array(_) => Err(DecodeError::NotAScalarOperand),
        AIROperand::Blob => Err(DecodeError::NotAScalarOperand),
    }
}

/// Decodes a record by the abbreviation at `index` of the table: reads the
/// abbreviation's first operand as the record's identifier.
pub fn parse_external_record(
    reader: &mut BitCursor,
    abbreviation_list: &Vec<AIRAbbreviation>,
    index: u64,
) -> (out: Result<AIRRecord, DecodeError>)
    requires
        old(reader).wf(),
    ensures
        old(reader).same_buffer(*final(reader)),
        agrees(
            out,
            final(reader).position(),
            record_at(
                old(reader).bytes(),
                old(reader).position(),
                table_view(abbreviation_list@),
                index as nat,
            ),
        ),
        index >= abbreviation_list@.len() ==> {
            &&& out == Err::<AIRRecord, DecodeError>(DecodeError::UnknownAbbreviation)
            &&& final(reader).position() == old(reader).position()
        },
        index < abbreviation_list@.len() && abbreviation_list@[index as int]@.len() == 0 ==> {
            &&& out == Err::<AIRRecord, DecodeError>(DecodeError::NotAScalarOperand)
            &&& final(reader).position() == old(reader).position()
        },
{
    if index >= abbreviation_list.len() as u64 {
        return Err(DecodeError::UnknownAbbreviation);
    }
    let index: usize = index as usize;
    let abbreviation = &abbreviation_list[index];
    if abbreviation.operands.len() == 0 {
        return Err(DecodeError::NotAScalarOperand);
    }
    match read_scalar_operand(reader, &abbreviation.operands[0]) {
        Ok(id) => Ok(AIRRecord { id, ops: AIROps::Abbrev { state: 1, index } }),
        Err(e) => Err(e),
    }
}

/// An operand encoding that was parsed takes at least one bit and ends
/// within the buffer.
pub proof fn lemma_operand_stays_in_buffer(data: Seq<u8>, pos: nat)
    ensures
        parse_operand_at(data, pos) matches Ok((_, end)) ==> pos < end <= bit_len(data),
    decreases bit_len(data) - pos,
{
    reveal(parse_operand_at);
    if let Ok((flag, behind_flag)) = read_bits_at(data, pos, 1) {
        if flag != 0 {
            lemma_vbr_stays_in_buffer(data, behind_flag, 8);
        } else if let Ok((kind, behind_kind)) = read_bits_at(data, behind_flag, 3) {
            if kind == KIND_FIXED || kind == KIND_VARIABLE {
                lemma_vbr_stays_in_buffer(data, behind_kind, 5);
            } else if kind == KIND_ARRAY {
                lemma_operand_stays_in_buffer(data, behind_kind);
            }
        }
    }
}

/// The operands of a definition end within the buffer, and hold what was
/// there before them.
pub proof fn lemma_operands_stay_in_buffer(
    data: Seq<u8>,
    pos: nat,
    count: nat,
    acc: Seq<AIROperand>,
)
    requires
        pos <= bit_len(data),
    ensures
        operands_from(data, pos, count, acc) matches Ok((operands, end)) ==> {
            &&& pos <= end <= bit_len(data)
            &&& operands.len() == acc.len() + count
        },
    decreases count,
{
    if count > 0 {
        lemma_operand_stays_in_buffer(data, pos);
        if let Ok((operand, next)) = parse_operand_at(data, pos) {
            lemma_operands_stay_in_buffer(data, next, (count - 1) as nat, acc.push(operand));
        }
    }
}

/// An abbreviation definition that was parsed takes at least its count and
/// ends within the buffer, and has as many operands as it announced.
pub proof fn lemma_definition_stays_in_buffer(data: Seq<u8>, pos: nat)
    ensures
        define_abbreviation_at(data, pos) matches Ok((operands, end)) ==> {
            &&& pos < end <= bit_len(data)
            &&& read_vbr_at(data, pos, 5) matches Ok((count, _)) && operands.len() == count
        },
{
    lemma_vbr_stays_in_buffer(data, pos, 5);
    if let Ok((count, next)) = read_vbr_at(data, pos, 5) {
        lemma_operands_stay_in_buffer(data, next, count as nat, Seq::empty());
    }
}

/// A scalar that was read ends within the buffer.
pub proof fn lemma_scalar_stays_in_buffer(data: Seq<u8>, pos: nat, operand: AIROperand)
    requires
        pos <= bit_len(data),
    ensures
        read_scalar_at(data, pos, operand) matches Ok((_, end)) ==> pos <= end <= bit_len(data),
{
    if let AIROperand::Variable(width) = operand {
        lemma_vbr_stays_in_buffer(data, pos, width as nat);
    }
}

/// A value is refused as no scalar exactly where its encoding is an array or
/// a blob, and then no bit is read.
pub proof fn lemma_scalar_refusal(data: Seq<u8>, pos: nat, operand: AIROperand)
    ensures
        (read_scalar_at(data, pos, operand) matches Err((e, _)) && e
            == DecodeError::NotAScalarOperand) <==> (operand is Array || operand is Blob),
        (operand is Array || operand is Blob) ==> read_scalar_at(data, pos, operand) == Err::<
            (u64, nat),
            Failure,
        >((DecodeError::NotAScalarOperand, pos)),
{
    if let AIROperand::Variable(width) = operand {
        lemma_vbr_failures(data, pos, width as nat);
    }
}

/// A record that was decoded ends within the buffer.
pub proof fn lemma_record_stays_in_buffer(data: Seq<u8>, pos: nat, table: Seq<Seq<AIROperand>>, index: nat)
    requires
        pos <= bit_len(data),
    ensures
        record_at(data, pos, table, index) matches Ok((_, end)) ==> pos <= end <= bit_len(data),
{
    if index < table.len() && table[index as int].len() > 0 {
        lemma_scalar_stays_in_buffer(data, pos, table[index as int][0]);
    }
}

/// A record that refers to an abbreviation beyond the end of the table is
/// refused, whatever the data, and no bit is read for it.
pub proof fn lemma_unknown_abbreviation(data: Seq<u8>, pos: nat, table: Seq<Seq<AIROperand>>, index: nat)
    requires
        index >= table.len(),
    ensures
        record_at(data, pos, table, index) == Err::<(AIRRecord, nat), Failure>(
            (DecodeError::UnknownAbbreviation, pos),
        ),
{
}

} // verus!
