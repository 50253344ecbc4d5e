//! What holds of every tree of items that a decode hands out, and of the
//! places in the buffer where its blocks end.

use crate::abbrev::lemma_unknown_abbreviation;
use crate::bits::{bit_len, bits_value};
use crate::block::{
    block_at, item_at, items_from, DriverFailure, ItemView, Table, ENTER_SUBBLOCK,
    FIRST_ABBREVIATION_ID, MAX_NESTING_DEPTH, TOP_LEVEL_WIDTH,
};
use crate::cursor::{align_32_at, read_bits_at, Failure};
use crate::decode::{body_of, decode_of};
use crate::error::DecodeError;
use crate::header::{signature_of, AIRSignature};
use crate::vbr::read_vbr_at;
use vstd::prelude::*;

verus! {

/// Whether `item` is a real item, with none but real items anywhere below
/// it: the item that closes a block is a signal to the driver and stands in
/// no tree.
pub open spec fn is_tree(item: ItemView) -> bool
    decreases item,
{
    match item {
        ItemView::EndBlock => false,
        ItemView::Block(block) => forall|i: int|
            0 <= i < block.items.len() ==> is_tree(#[trigger] block.items[i]),
        ItemView::Abbreviation(_) => true,
        ItemView::Record(_) => true,
    }
}

/// Whether all of `items` are trees.
pub open spec fn all_trees(items: Seq<ItemView>) -> bool {
    forall|i: int| 0 <= i < items.len() ==> is_tree(#[trigger] items[i])
}

/// An ID that refers to an abbreviation beyond the end of the table is
/// refused with `UnknownAbbreviation`, whatever follows it in the buffer:
/// nothing behind the ID is read, and the table stays as it was.
pub proof fn lemma_item_unknown_abbreviation(
    data: Seq<u8>,
    pos: nat,
    width: nat,
    table: Table,
    depth: nat,
)
    requires
        read_bits_at(data, pos, width) matches Ok((id, _)) && id >= FIRST_ABBREVIATION_ID && id
            - FIRST_ABBREVIATION_ID >= table.len(),
    ensures
        item_at(data, pos, width, table, depth) == Err::<(ItemView, nat, Table), DriverFailure>(
            (DecodeError::UnknownAbbreviation, pos + width, table),
        ),
{
    if let Ok((id, next)) = read_bits_at(data, pos, width) {
        lemma_unknown_abbreviation(data, next, table, (id - FIRST_ABBREVIATION_ID) as nat);
    }
}

/// A step of the driver that fails leaves the table as it was, unless it
/// fails inside a nested block: what that block defined before the failure
/// stays defined.
pub proof fn lemma_failed_item_keeps_table(
    data: Seq<u8>,
    pos: nat,
    width: nat,
    table: Table,
    depth: nat,
)
    ensures
        item_at(data, pos, width, table, depth) matches Err((_, _, left)) ==> {
            ||| left == table
            ||| read_bits_at(data, pos, width) matches Ok((id, _)) && id == ENTER_SUBBLOCK
                && table.is_prefix_of(left)
        },
{
    crate::block::lemma_item_stays_in_buffer(data, pos, width, table, depth);
}

/// Every step of the driver that gives an item other than the closing one
/// gives a tree, and the closing item leaves the cursor on a multiple of 32
/// bits.
pub proof fn lemma_item_is_tree(data: Seq<u8>, pos: nat, width: nat, table: Table, depth: nat)
    ensures
        item_at(data, pos, width, table, depth) matches Ok((item, end, _)) ==> if item is EndBlock {
            end % 32 == 0
        } else {
            is_tree(item)
        },
    decreases MAX_NESTING_DEPTH - depth, bit_len(data) - pos, 1nat,
{
    if let Ok((id, behind_id)) = read_bits_at(data, pos, width) {
        if id == ENTER_SUBBLOCK {
            lemma_block_is_tree(data, behind_id, table, depth);
        }
    }
}

/// Every nested block that was parsed holds trees only and ends on a
/// multiple of 32 bits.
pub proof fn lemma_block_is_tree(data: Seq<u8>, pos: nat, table: Table, depth: nat)
    ensures
        block_at(data, pos, table, depth) matches Ok((block, end, _)) ==> {
            &&& all_trees(block.items)
            &&& end % 32 == 0
        },
    decreases MAX_NESTING_DEPTH - depth, bit_len(data) - pos, 0nat,
{
    if depth < MAX_NESTING_DEPTH {
        if let Ok((code, behind_type)) = read_vbr_at(data, pos, 8) {
            if let Ok((width, behind_width)) = read_vbr_at(data, behind_type, 4) {
                if let Ok(aligned) = align_32_at(data, behind_width) {
                    if let Ok((length, behind_length)) = read_bits_at(data, aligned, 32) {
                        lemma_items_are_trees(
                            data,
                            behind_length,
                            width as nat,
                            table,
                            depth + 1,
                            false,
                            Seq::empty(),
                        );
                    }
                }
            }
        }
    }
}

/// The items of a level that was parsed to its end are trees, if those read
/// before were; and a level inside a block ends on a multiple of 32 bits.
pub proof fn lemma_items_are_trees(
    data: Seq<u8>,
    pos: nat,
    width: nat,
    table: Table,
    depth: nat,
    top: bool,
    acc: Seq<ItemView>,
)
    requires
        all_trees(acc),
    ensures
        items_from(data, pos, width, table, depth, top, acc) matches Ok((items, end, _)) ==> {
            &&& all_trees(items)
            &&& !top ==> end % 32 == 0
        },
    decreases MAX_NESTING_DEPTH - depth, bit_len(data) - pos, 2nat,
{
    if !(top && pos >= bit_len(data)) {
        lemma_item_is_tree(data, pos, width, table, depth);
        if let Ok((item, next, grown)) = item_at(data, pos, width, table, depth) {
            if !(item is EndBlock) && pos < next <= bit_len(data) {
                assert(all_trees(acc.push(item))) by {
                    assert forall|i: int| 0 <= i < acc.push(item).len() implies is_tree(
                        #[trigger] acc.push(item)[i],
                    ) by {
                        if i < acc.len() {
                            assert(acc.push(item)[i] == acc[i]);
                        }
                    }
                }
                lemma_items_are_trees(data, next, width, grown, depth, top, acc.push(item));
            }
        }
    }
}

/// What a decode hands out: the signature is the one that the first 24
/// bytes spell out, and every item is a tree.
pub proof fn lemma_decode_gives_trees(bytes: Seq<u8>)
    ensures
        decode_of(bytes) matches Ok((signature, items)) ==> {
            &&& bytes.len() >= 24
            &&& signature == signature_of(bytes)
            &&& all_trees(items)
        },
{
    lemma_items_are_trees(
        body_of(bytes),
        0,
        TOP_LEVEL_WIDTH as nat,
        Seq::empty(),
        0,
        true,
        Seq::empty(),
    );
}

/// A container that is all signature decodes to no item.
pub proof fn lemma_decode_bare_signature(bytes: Seq<u8>)
    requires
        bytes.len() == 24,
    ensures
        decode_of(bytes) == Ok::<(AIRSignature, Seq<ItemView>), DecodeError>(
            (signature_of(bytes), Seq::empty()),
        ),
{
    assert(body_of(bytes).len() == 0);
}

/// A body that starts with the closing ID and holds the padding behind it
/// decodes to no item, whatever follows the padding.
pub proof fn lemma_decode_closed_at_once(bytes: Seq<u8>)
    requires
        bytes.len() >= 28,
        bits_value(body_of(bytes), 0, 2) == 0,
    ensures
        decode_of(bytes) == Ok::<(AIRSignature, Seq<ItemView>), DecodeError>(
            (signature_of(bytes), Seq::empty()),
        ),
{
    let body = body_of(bytes);
    assert(bit_len(body) >= 32);
    assert(read_bits_at(body, 0, 2) == Ok::<(u64, nat), Failure>((0u64, 2nat)));
    assert(align_32_at(body, 2) == Ok::<nat, Failure>(32nat));
    assert(item_at(body, 0, 2, Seq::empty(), 0) == Ok::<(ItemView, nat, Table), DriverFailure>(
        (ItemView::EndBlock, 32nat, Seq::empty()),
    ));
}

} // verus!
