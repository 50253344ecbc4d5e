//! Blocks and the items in them: the driver that reads one abbreviation ID
//! after another and acts on each.

use crate::abbrev::{
    define_abbreviation_at, lemma_definition_stays_in_buffer, lemma_record_stays_in_buffer,
    parse_define_abbreviation, parse_external_record, record_at, table_view, AIRAbbreviation,
    AIROperand, AIRRecord,
};
use crate::bits::bit_len;
use crate::cursor::{align_32_at, read_bits_at, BitCursor};
use crate::error::DecodeError;
use crate::vbr::{lemma_vbr_stays_in_buffer, read_vbr, read_vbr_at};
use vstd::prelude::*;

verus! {

/// The abbreviation ID that closes a block.
pub const END_BLOCK: u64 = 0;

/// The abbreviation ID that opens a nested block.
pub const ENTER_SUBBLOCK: u64 = 1;

/// The abbreviation ID that defines an abbreviation.
pub const DEFINE_ABBREV: u64 = 2;

/// The abbreviation ID of a record in unabbreviated form.
pub const UNABBREV_RECORD: u64 = 3;

/// The first abbreviation ID that refers to the table: ID `4 + i` is the
/// abbreviation at index `i`.
pub const FIRST_ABBREVIATION_ID: u64 = 4;

/// The width of abbreviation IDs outside any block.
pub const TOP_LEVEL_WIDTH: u32 = 2;

/// The code of the one block type that is modelled.
pub const IDENTIFICATION_CODE: u8 = 13;

/// How deep blocks may nest. Items outside any block are at depth 0.
pub const MAX_NESTING_DEPTH: u32 = 64;

/// The type of a block.
#[allow(non_camel_case_types)]
#[derive(Clone, Copy, Debug, PartialEq, Eq)]
pub enum BlockType {
    IDENTIFICATION,
}

/// A nested scope of the stream.
#[derive(Debug, PartialEq, Eq)]
pub struct AIRBlock {
    /// The block's type.
    pub ty: BlockType,
    /// The width of the abbreviation IDs inside the block.
    pub new_abbreviation_length: u32,
    /// The length that the block declares for itself, in 32-bit words.
    pub block_length: u32,
    /// What the block holds, in order, without the item that closes it.
    pub items: Vec<AIRItem>,
}

/// What one step of the driver yields.
#[derive(Debug, PartialEq, Eq)]
pub enum AIRItem {
    Block(AIRBlock),
    Abbreviation(AIRAbbreviation),
    Record(AIRRecord),
    /// The end of the enclosing block: a signal to the driver, kept in no
    /// block's items.
    EndBlock,
}

/// An item as a mathematical value.
pub enum ItemView {
    Block(BlockView),
    Abbreviation(Seq<AIROperand>),
    Record(AIRRecord),
    EndBlock,
}

/// A block as a mathematical value.
pub struct BlockView {
    pub ty: BlockType,
    pub new_abbreviation_length: u32,
    pub block_length: u32,
    pub items: Seq<ItemView>,
}

/// The value that `item` stands for.
pub open spec fn item_view(item: AIRItem) -> ItemView
    decreases item,
{
    match item {
        AIRItem::Block(block) => ItemView::Block(block_view(block)),
        AIRItem::Abbreviation(abbreviation) => ItemView::Abbreviation(abbreviation@),
        AIRItem::Record(record) => ItemView::Record(record),
        AIRItem::EndBlock => ItemView::EndBlock,
    }
}

/// The value that `block` stands for.
pub open spec fn block_view(block: AIRBlock) -> BlockView
    decreases block,
{
    BlockView {
        ty: block.ty,
        new_abbreviation_length: block.new_abbreviation_length,
        block_length: block.block_length,
        items: Seq::new(
            block.items@.len(),
            |i: int|
                if 0 <= i < block.items@.len() {
                    item_view(block.items@[i])
                } else {
                    ItemView::EndBlock
                },
        ),
    }
}

/// The values that `items` stand for.
pub open spec fn items_view(items: Seq<AIRItem>) -> Seq<ItemView> {
    Seq::new(items.len(), |i: int| item_view(items[i]))
}

impl View for AIRItem {
    type V = ItemView;

    open spec fn view(&self) -> ItemView {
        item_view(*self)
    }
}

impl View for AIRBlock {
    type V = BlockView;

    open spec fn view(&self) -> BlockView {
        block_view(*self)
    }
}

/// The abbreviation table as contracts speak of it: each abbreviation as its
/// sequence of operands.
pub type Table = Seq<Seq<AIROperand>>;

/// Why the driver failed, the bit at which it left the cursor, and the table
/// as it then was: what was defined before the failure stays defined.
pub type DriverFailure = (DecodeError, nat, Table);

impl BlockType {
    /// The block type that a code names, if any.
    pub open spec fn of_code(code: u64) -> Option<BlockType> {
        if code == IDENTIFICATION_CODE {
            Some(BlockType::IDENTIFICATION)
        } else {
            None
        }
    }

    /// What a code gives: the block type that it names, or the failure for a
    /// code that names none.
    pub open spec fn named_by(code: u64) -> Result<BlockType, DecodeError> {
        match Self::of_code(code) {
            Some(ty) => Ok(ty),
            None => Err(DecodeError::UnknownBlockType),
        }
    }

    /// The block type with code `v`; a code that names no block type is
    /// refused.
    pub fn from_u8(v: u8) -> (out: Result<Self, DecodeError>)
        ensures
            out == Self::named_by(v as u64),
            out is Ok <==> v == IDENTIFICATION_CODE,
    {
        if v == IDENTIFICATION_CODE {
            Ok(BlockType::IDENTIFICATION)
        } else {
            Err(DecodeError::UnknownBlockType)
        }
    }

    /// The block type that `code` names, for a code as it is read from the
    /// stream: one that does not fit in a byte names none.
    pub fn from_code(code: u64) -> (out: Result<Self, DecodeError>)
        ensures
            out == Self::named_by(code),
    {
        if code > u8::MAX as u64 {
            Err(DecodeError::UnknownBlockType)
        } else {
            Self::from_u8(code as u8)
        }
    }

    /// The code of this block type.
    pub fn code(&self) -> (code: u8)
        ensures
            Self::of_code(code as u64) == Some(*self),
    {
        IDENTIFICATION_CODE
    }
}

/// What one step of the driver gives at bit `pos` of `data`, where
/// abbreviation IDs are `width` bits wide, the table holds `table` and
/// `depth` blocks are open: the item, the position after it and the table
/// after it.
pub open spec fn item_at(data: Seq<u8>, pos: nat, width: nat, table: Table, depth: nat) -> Result<
    (ItemView, nat, Table),
    DriverFailure,
>
    decreases MAX_NESTING_DEPTH - depth, bit_len(data) - pos, 1nat,
{
    match read_bits_at(data, pos, width) {
        Err((e, end)) => Err((e, end, table)),
        Ok((id, behind_id)) => if id == END_BLOCK {
            match align_32_at(data, behind_id) {
                Err((e, end)) => Err((e, end, table)),
                Ok(end) => Ok((ItemView::EndBlock, end, table)),
            }
        } else if id == ENTER_SUBBLOCK {
            match block_at(data, behind_id, table, depth) {
                Err(failure) => Err(failure),
                Ok((block, end, grown)) => Ok((ItemView::Block(block), end, grown)),
            }
        } else if id == DEFINE_ABBREV {
            match define_abbreviation_at(data, behind_id) {
                Err((e, end)) => Err((e, end, table)),
                Ok((operands, end)) => Ok(
                    (ItemView::Abbreviation(operands), end, table.push(operands)),
                ),
            }
        } else if id == UNABBREV_RECORD {
            Err((DecodeError::UnsupportedRecordForm, behind_id, table))
        } else {
            match record_at(data, behind_id, table, (id - FIRST_ABBREVIATION_ID) as nat) {
                Err((e, end)) => Err((e, end, table)),
                Ok((record, end)) => Ok((ItemView::Record(record), end, table)),
            }
        },
    }
}

/// What a nested block gives whose header starts at bit `pos` of `data`,
/// behind the ID that opened it: the block's type, the width of the IDs in
/// it, padding up to a multiple of 32 bits, the declared length in 32 bits,
/// and then the block's items up to the one that closes it. The declared
/// length bounds nothing.
pub open spec fn block_at(data: Seq<u8>, pos: nat, table: Table, depth: nat) -> Result<
    (BlockView, nat, Table),
    DriverFailure,
>
    decreases MAX_NESTING_DEPTH - depth, bit_len(data) - pos, 0nat,
{
    if depth >= MAX_NESTING_DEPTH {
        Err((DecodeError::NestingTooDeep, pos, table))
    } else {
        match read_vbr_at(data, pos, 8) {
            Err((e, end)) => Err((e, end, table)),
            Ok((code, behind_type)) => match BlockType::of_code(code) {
                None => Err((DecodeError::UnknownBlockType, behind_type, table)),
                Some(ty) => match read_vbr_at(data, behind_type, 4) {
                    Err((e, end)) => Err((e, end, table)),
                    Ok((width, behind_width)) => match align_32_at(data, behind_width) {
                        Err((e, end)) => Err((e, end, table)),
                        Ok(aligned) => match read_bits_at(data, aligned, 32) {
                            Err((e, end)) => Err((e, end, table)),
                            Ok((length, behind_length)) => match items_from(
                                data,
                                behind_length,
                                width as nat,
                                table,
                                depth + 1,
                                false,
                                Seq::empty(),
                            ) {
                                Err(failure) => Err(failure),
                                Ok((items, end, grown)) => Ok(
                                    (
                                        BlockView {
                                            ty,
                                            new_abbreviation_length: width as u32,
                                            block_length: length as u32,
                                            items,
                                        },
                                        end,
                                        grown,
                                    ),
                                ),
                            },
                        },
                    },
                },
            },
        }
    }
}

/// The items of one level of which `acc` have been read, the next one at bit
/// `pos` of `data`. The level ends with the item that closes it, which is
/// not kept; outside any block (`top`) it also ends where no bit is left.
/// An item other than the closing one always takes at least one bit, so that
/// the last case below never arises (see `lemma_item_stays_in_buffer`).
pub open spec fn items_from(
    data: Seq<u8>,
    pos: nat,
    width: nat,
    table: Table,
    depth: nat,
    top: bool,
    acc: Seq<ItemView>,
) -> Result<(Seq<ItemView>, nat, Table), DriverFailure>
    decreases MAX_NESTING_DEPTH - depth, bit_len(data) - pos, 2nat,
{
    if top && pos >= bit_len(data) {
        Ok((acc, pos, table))
    } else {
        match item_at(data, pos, width, table, depth) {
            Err(failure) => Err(failure),
            Ok((item, next, grown)) => if item is EndBlock {
                Ok((acc, next, grown))
            } else if pos < next <= bit_len(data) {
                items_from(data, next, width, grown, depth, top, acc.push(item))
            } else {
                Err((DecodeError::UnexpectedEndOfStream, next, grown))
            },
        }
    }
}

/// What holds of every step: the table has only grown by it, whether it
/// succeeded or not, and one that succeeded ends within the buffer and not
/// before its start.
pub open spec fn stays_in_buffer<T>(
    data: Seq<u8>,
    pos: nat,
    table: Table,
    step: Result<(T, nat, Table), DriverFailure>,
) -> bool {
    match step {
        Ok((_, end, grown)) => pos <= end <= bit_len(data) && table.is_prefix_of(grown),
        Err((_, _, grown)) => table.is_prefix_of(grown),
    }
}

/// The table has only grown by a step of the driver, whatever its outcome. A
/// step that succeeded ends within the buffer, and unless it closed a block
/// it took at least one bit.
pub proof fn lemma_item_stays_in_buffer(data: Seq<u8>, pos: nat, width: nat, table: Table, depth: nat)
    ensures
        stays_in_buffer(data, pos, table, item_at(data, pos, width, table, depth)),
        item_at(data, pos, width, table, depth) matches Ok((item, end, _)) ==> (item is EndBlock
            || pos < end),
    decreases MAX_NESTING_DEPTH - depth, bit_len(data) - pos, 1nat,
{
    if let Ok((id, behind_id)) = read_bits_at(data, pos, width) {
        if id == END_BLOCK {
        } else if id == ENTER_SUBBLOCK {
            lemma_block_stays_in_buffer(data, behind_id, table, depth);
        } else if id == DEFINE_ABBREV {
            lemma_definition_stays_in_buffer(data, behind_id);
            if let Ok((operands, _)) = define_abbreviation_at(data, behind_id) {
                assert(table.is_prefix_of(table.push(operands)));
            }
        } else if id == UNABBREV_RECORD {
        } else {
            lemma_record_stays_in_buffer(data, behind_id, table, (id - FIRST_ABBREVIATION_ID) as nat);
            assert(width != 0);
        }
    }
}

/// The table has only grown by a nested block, whatever its outcome. A
/// block that was parsed ends within the buffer and behind its start.
pub proof fn lemma_block_stays_in_buffer(data: Seq<u8>, pos: nat, table: Table, depth: nat)
    ensures
        stays_in_buffer(data, pos, table, block_at(data, pos, table, depth)),
        block_at(data, pos, table, depth) matches Ok((_, end, _)) ==> pos < end,
    decreases MAX_NESTING_DEPTH - depth, bit_len(data) - pos, 0nat,
{
    if depth < MAX_NESTING_DEPTH {
        lemma_vbr_stays_in_buffer(data, pos, 8);
        if let Ok((code, behind_type)) = read_vbr_at(data, pos, 8) {
            lemma_vbr_stays_in_buffer(data, behind_type, 4);
            if let Ok((width, behind_width)) = read_vbr_at(data, behind_type, 4) {
                if let Ok(aligned) = align_32_at(data, behind_width) {
                    if let Ok((length, behind_length)) = read_bits_at(data, aligned, 32) {
                        lemma_items_stay_in_buffer(
                            data,
                            behind_length,
                            width as nat,
                            table,
                            depth + 1,
                            false,
                            Seq::empty(),
                        );
                    }
                }
            }
        }
    }
}

/// The table has only grown by the items of a level, whatever the outcome.
/// A level that was parsed to its end ends within the buffer, and the items
/// read before are the first of the result.
pub proof fn lemma_items_stay_in_buffer(
    data: Seq<u8>,
    pos: nat,
    width: nat,
    table: Table,
    depth: nat,
    top: bool,
    acc: Seq<ItemView>,
)
    requires
        pos <= bit_len(data),
    ensures
        stays_in_buffer(data, pos, table, items_from(data, pos, width, table, depth, top, acc)),
        items_from(data, pos, width, table, depth, top, acc) matches Ok((items, _, _))
            ==> acc.is_prefix_of(items),
    decreases MAX_NESTING_DEPTH - depth, bit_len(data) - pos, 2nat,
{
    if !(top && pos >= bit_len(data)) {
        lemma_item_stays_in_buffer(data, pos, width, table, depth);
        if let Ok((item, next, grown)) = item_at(data, pos, width, table, depth) {
            if !(item is EndBlock) {
                lemma_items_stay_in_buffer(data, next, width, grown, depth, top, acc.push(item));
                if let Ok((items, _, last)) = items_from(
                    data,
                    next,
                    width,
                    grown,
                    depth,
                    top,
                    acc.push(item),
                ) {
                    assert(acc.is_prefix_of(items));
                    assert(table.is_prefix_of(last));
                }
            }
        }
    }
}

/// How a level goes on: where it is not at its end, one step of the driver,
/// and behind an item other than the closing one, the rest of the level.
pub proof fn lemma_items_step(
    data: Seq<u8>,
    pos: nat,
    width: nat,
    table: Table,
    depth: nat,
    top: bool,
    acc: Seq<ItemView>,
)
    ensures
        items_from(data, pos, width, table, depth, top, acc) == if top && pos >= bit_len(data) {
            Ok::<(Seq<ItemView>, nat, Table), DriverFailure>((acc, pos, table))
        } else {
            match item_at(data, pos, width, table, depth) {
                Err(failure) => Err(failure),
                Ok((item, next, grown)) => if item is EndBlock {
                    Ok((acc, next, grown))
                } else {
                    items_from(data, next, width, grown, depth, top, acc.push(item))
                },
            }
        },
{
    lemma_item_stays_in_buffer(data, pos, width, table, depth);
}

/// The items of a block's value are the values of the block's items.
pub proof fn lemma_block_view_items(block: AIRBlock)
    ensures
        block_view(block).items == items_view(block.items@),
{
    assert(block_view(block).items =~= items_view(block.items@));
}

/// The values of a sequence with one more item.
pub proof fn lemma_items_view_push(items: Seq<AIRItem>, item: AIRItem)
    ensures
        items_view(items.push(item)) == items_view(items).push(item_view(item)),
{
    assert(items_view(items.push(item)) =~= items_view(items).push(item_view(item)));
}

/// A copy of an item.
fn copy_item(item: &AIRItem) -> (copy: AIRItem)
    ensures
        item_view(copy) == item_view(*item),
    decreases item,
{
    match item {
        AIRItem::Block(block) => AIRItem::Block(copy_block(block)),
        AIRItem::Abbreviation(abbreviation) => AIRItem::Abbreviation(abbreviation.clone()),
        AIRItem::Record(record) => AIRItem::Record(*record),
        AIRItem::EndBlock => AIRItem::EndBlock,
    }
}

/// A copy of a block.
fn copy_block(block: &AIRBlock) -> (copy: AIRBlock)
    ensures
        block_view(copy) == block_view(*block),
    decreases block,
{
    let mut items: Vec<AIRItem> = Vec::new();
    let mut i: usize = 0;
    while i < block.items.len()
        invariant
            i <= block.items.len(),
            items@.len() == i,
            forall|k: int| 0 <= k < i ==> item_view(#[trigger] items@[k]) == item_view(block.items@[k]),
        decreases block.items.len() - i,
    {
        items.push(copy_item(&block.items[i]));
        i = i + 1;
    }
    let copy = AIRBlock {
        ty: block.ty,
        new_abbreviation_length: block.new_abbreviation_length,
        block_length: block.block_length,
        items,
    };
    proof {
        assert(block_view(copy).items =~= block_view(*block).items);
    }
    copy
}

impl Clone for AIRItem {
    /// A copy that stands for the same value.
    fn clone(&self) -> (copy: Self)
        ensures
            copy@ == self@,
    {
        copy_item(self)
    }
}

impl Clone for AIRBlock {
    /// A copy that stands for the same value.
    fn clone(&self) -> (copy: Self)
        ensures
            copy@ == self@,
    {
        copy_block(self)
    }
}

/// Whether the table `after` a step holds the table `before` it, entry for
/// entry, and then perhaps more; where it stands for the same abbreviations
/// as `before`, it is `before`.
pub open spec fn grown_from(before: Seq<AIRAbbreviation>, after: Seq<AIRAbbreviation>) -> bool {
    &&& before.is_prefix_of(after)
    &&& table_view(after) == table_view(before) ==> after == before
}

/// A table that holds what another held before is grown from it.
pub proof fn lemma_grown_from_prefix(before: Seq<AIRAbbreviation>, after: Seq<AIRAbbreviation>)
    requires
        before.is_prefix_of(after),
    ensures
        grown_from(before, after),
{
    if table_view(after) == table_view(before) {
        assert(table_view(after).len() == after.len());
        assert(table_view(before).len() == before.len());
        assert(after =~= before);
    }
}

/// Growing twice is growing.
pub proof fn lemma_grown_from_twice(
    before: Seq<AIRAbbreviation>,
    between: Seq<AIRAbbreviation>,
    after: Seq<AIRAbbreviation>,
)
    requires
        grown_from(before, between),
        grown_from(between, after),
    ensures
        grown_from(before, after),
{
    assert(before.is_prefix_of(after));
    lemma_grown_from_prefix(before, after);
}

/// Whether a step of the driver that a model places at `model` came out as
/// `out`, with the cursor at bit `end` and the table as `table`: the same
/// item at the same position with the same table, or the same failure at the
/// same position with the same table.
pub open spec fn item_agrees(
    out: Result<AIRItem, DecodeError>,
    end: nat,
    table: Table,
    model: Result<(ItemView, nat, Table), DriverFailure>,
) -> bool {
    match model {
        Ok((item, next, grown)) => {
            &&& out matches Ok(v)
            &&& item_view(v) == item
            &&& end == next
            &&& table == grown
        },
        Err((e, stop, left)) => out matches Err(x) && x == e && end == stop && table == left,
    }
}

/// The same for a nested block.
pub open spec fn block_agrees(
    out: Result<AIRBlock, DecodeError>,
    end: nat,
    table: Table,
    model: Result<(BlockView, nat, Table), DriverFailure>,
) -> bool {
    match model {
        Ok((block, next, grown)) => {
            &&& out matches Ok(v)
            &&& block_view(v) == block
            &&& end == next
            &&& table == grown
        },
        Err((e, stop, left)) => out matches Err(x) && x == e && end == stop && table == left,
    }
}

/// The same for the items of a level.
pub open spec fn items_agree(
    out: Result<Vec<AIRItem>, DecodeError>,
    end: nat,
    table: Table,
    model: Result<(Seq<ItemView>, nat, Table), DriverFailure>,
) -> bool {
    match model {
        Ok((items, next, grown)) => {
            &&& out matches Ok(v)
            &&& items_view(v@) == items
            &&& end == next
            &&& table == grown
        },
        Err((e, stop, left)) => out matches Err(x) && x == e && end == stop && table == left,
    }
}

/// One step of the driver: reads an abbreviation ID of `length` bits and
/// acts on it. ID 0 closes the enclosing block and realigns to 32 bits; ID 1
/// opens a nested block and parses it to its end; ID 2 defines an
/// abbreviation and appends it to the table; ID 3 is refused; any other ID
/// `4 + i` is a record that the abbreviation at index `i` decodes. `depth`
/// is the number of blocks that are open around the item. The table only
/// ever grows: whatever the outcome, it holds what it held before, and a
/// step that fails outside a nested block leaves it as it was.
pub fn parse_abbreviation_id(
    reader: &mut BitCursor,
    length: u32,
    abbreviation_list: &mut Vec<AIRAbbreviation>,
    depth: u32,
) -> (out: Result<AIRItem, DecodeError>)
    requires
        old(reader).wf(),
    ensures
        old(reader).same_buffer(*final(reader)),
        grown_from(old(abbreviation_list)@, final(abbreviation_list)@),
        item_agrees(
            out,
            final(reader).position(),
            table_view(final(abbreviation_list)@),
            item_at(
                old(reader).bytes(),
                old(reader).position(),
                length as nat,
                table_view(old(abbreviation_list)@),
                depth as nat,
            ),
        ),
    decreases MAX_NESTING_DEPTH - depth, old(reader).remaining(), 1nat,
{
    let id: u64 = match reader.read_bits(length) {
        Ok(id) => id,
        Err(e) => {
            return Err(e);
        },
    };
    if id == END_BLOCK {
        match reader.align_to_32() {
            Ok(()) => Ok(AIRItem::EndBlock),
            Err(e) => Err(e),
        }
    } else if id == ENTER_SUBBLOCK {
        match parse_enter_subblock(reader, abbreviation_list, depth) {
            Ok(block) => Ok(AIRItem::Block(block)),
            Err(e) => Err(e),
        }
    } else if id == DEFINE_ABBREV {
        match parse_define_abbreviation(reader, abbreviation_list) {
            Ok(abbreviation) => Ok(AIRItem::Abbreviation(abbreviation)),
            Err(e) => Err(e),
        }
    } else if id == UNABBREV_RECORD {
        Err(DecodeError::UnsupportedRecordForm)
    } else {
        match parse_external_record(reader, abbreviation_list, id - FIRST_ABBREVIATION_ID) {
            Ok(record) => Ok(AIRItem::Record(record)),
            Err(e) => Err(e),
        }
    }
}

/// Parses a nested block from behind the ID that opened it to the item that
/// closes it. `depth` is the number of blocks that are open around the new
/// one.
pub fn parse_enter_subblock(
    reader: &mut BitCursor,
    abbreviation_list: &mut Vec<AIRAbbreviation>,
    depth: u32,
) -> (out: Result<AIRBlock, DecodeError>)
    requires
        old(reader).wf(),
    ensures
        old(reader).same_buffer(*final(reader)),
        grown_from(old(abbreviation_list)@, final(abbreviation_list)@),
        block_agrees(
            out,
            final(reader).position(),
            table_view(final(abbreviation_list)@),
            block_at(
                old(reader).bytes(),
                old(reader).position(),
                table_view(old(abbreviation_list)@),
                depth as nat,
            ),
        ),
    decreases MAX_NESTING_DEPTH - depth, old(reader).remaining(), 0nat,
{
    if depth >= MAX_NESTING_DEPTH {
        return Err(DecodeError::NestingTooDeep);
    }
    let code: u64 = match read_vbr(reader, 8) {
        Ok(code) => code,
        Err(e) => {
            return Err(e);
        },
    };
    let ty: BlockType = match BlockType::from_code(code) {
        Ok(ty) => ty,
        Err(e) => {
            return Err(e);
        },
    };
    let width: u64 = match read_vbr(reader, 4) {
        Ok(width) => width,
        Err(e) => {
            return Err(e);
        },
    };
    match reader.align_to_32() {
        Ok(()) => {},
        Err(e) => {
            return Err(e);
        },
    }
    let block_length: u64 = match reader.read_bits(32) {
        Ok(block_length) => block_length,
        Err(e) => {
            return Err(e);
        },
    };
    if width > 64 {
        return Err(DecodeError::InvalidBitWidth);
    }
    proof {
        lemma_vbr_stays_in_buffer(old(reader).bytes(), old(reader).position(), 8);
    }
    let items: Vec<AIRItem> = match parse_items(
        reader,
        width as u32,
        abbreviation_list,
        depth + 1,
        false,
    ) {
        Ok(items) => items,
        Err(e) => {
            return Err(e);
        },
    };
    let block = AIRBlock {
        ty,
        new_abbreviation_length: width as u32,
        block_length: block_length as u32,
        items,
    };
    proof {
        lemma_block_view_items(block);
    }
    Ok(block)
}

/// Parses the items of one level, one step of the driver after the other,
/// up to the item that closes the level; outside any block (`top`) also up
/// to the end of the buffer. The closing item is not among the result.
pub fn parse_items(
    reader: &mut BitCursor,
    width: u32,
    abbreviation_list: &mut Vec<AIRAbbreviation>,
    depth: u32,
    top: bool,
) -> (out: Result<Vec<AIRItem>, DecodeError>)
    requires
        old(reader).wf(),
    ensures
        old(reader).same_buffer(*final(reader)),
        grown_from(old(abbreviation_list)@, final(abbreviation_list)@),
        items_agree(
            out,
            final(reader).position(),
            table_view(final(abbreviation_list)@),
            items_from(
                old(reader).bytes(),
                old(reader).position(),
                width as nat,
                table_view(old(abbreviation_list)@),
                depth as nat,
                top,
                Seq::empty(),
            ),
        ),
    decreases MAX_NESTING_DEPTH - depth, old(reader).remaining(), 2nat,
{
    let ghost data = reader.bytes();
    let ghost goal = items_from(
        data,
        reader.position(),
        width as nat,
        table_view(abbreviation_list@),
        depth as nat,
        top,
        Seq::empty(),
    );
    let mut items: Vec<AIRItem> = Vec::new();
    proof {
        reader.lemma_wf_bounds();
        assert(items_view(items@) =~= Seq::<ItemView>::empty());
        lemma_grown_from_prefix(abbreviation_list@, abbreviation_list@);
    }
    loop
        invariant
            old(reader).same_buffer(*reader),
            data == reader.bytes(),
            old(reader).position() <= reader.position() <= bit_len(data),
            grown_from(old(abbreviation_list)@, abbreviation_list@),
            goal == items_from(
                old(reader).bytes(),
                old(reader).position(),
                width as nat,
                table_view(old(abbreviation_list)@),
                depth as nat,
                top,
                Seq::empty(),
            ),
            goal == items_from(
                data,
                reader.position(),
                width as nat,
                table_view(abbreviation_list@),
                depth as nat,
                top,
                items_view(items@),
            ),
        decreases reader.remaining(),
    {
        if top && reader.is_exhausted() {
            return Ok(items);
        }
        proof {
            lemma_items_step(
                data,
                reader.position(),
                width as nat,
                table_view(abbreviation_list@),
                depth as nat,
                top,
                items_view(items@),
            );
            lemma_item_stays_in_buffer(
                data,
                reader.position(),
                width as nat,
                table_view(abbreviation_list@),
                depth as nat,
            );
        }
        let ghost earlier = abbreviation_list@;
        let step = parse_abbreviation_id(reader, width, abbreviation_list, depth);
        proof {
            lemma_grown_from_twice(old(abbreviation_list)@, earlier, abbreviation_list@);
        }
        match step {
            Err(e) => {
                return Err(e);
            },
            Ok(AIRItem::EndBlock) => {
                return Ok(items);
            },
            Ok(item) => {
                proof {
                    lemma_items_view_push(items@, item);
                }
                items.push(item);
            },
        }
    }
}

} // verus!
