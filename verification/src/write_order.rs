//! What a run of block writes leaves in the flash, byte by byte, and why the
//! order of blocks whose windows do not overlap does not matter.

use crate::uf2::block::BlockFields;
use crate::virtual_flash::{FlashError, FlashState};
use vstd::prelude::*;

verus! {

/// Whether the block's window holds the byte with buffer index `index` of a
/// flash that starts at `start_addr`.
pub open spec fn covers(block: BlockFields, start_addr: u32, index: int) -> bool {
    block.address - start_addr <= index < block.address - start_addr + block.len
}

/// The byte that the block writes at buffer index `index`.
pub open spec fn byte_of(block: BlockFields, start_addr: u32, index: int) -> u8 {
    block.data[index - (block.address - start_addr)]
}

/// Whether the windows of two blocks share no address.
pub open spec fn windows_disjoint(a: BlockFields, b: BlockFields) -> bool {
    a.address + a.len <= b.address || b.address + b.len <= a.address
}

/// Whether no two blocks of the sequence have windows that share an address.
pub open spec fn pairwise_disjoint(blocks: Seq<BlockFields>) -> bool {
    forall|i: int, j: int|
        0 <= i < j < blocks.len() ==> windows_disjoint(#[trigger] blocks[i], #[trigger] blocks[j])
}

/// Whether the flash accepts each block of the sequence, and each block has
/// a payload region of full capacity.
pub open spec fn all_accepted(state: FlashState, blocks: Seq<BlockFields>) -> bool {
    forall|k: int|
        0 <= k < blocks.len() ==> (#[trigger] blocks[k]).well_formed() && state.write_block(
            blocks[k],
        ) is Ok
}

/// The byte at `index` once the blocks have been written in order over
/// `buffer`: that of the last block whose window holds it, or the buffer's
/// own where no window does.
pub open spec fn byte_after(
    buffer: Seq<u8>,
    start_addr: u32,
    blocks: Seq<BlockFields>,
    index: int,
) -> u8
    decreases blocks.len(),
{
    if blocks.len() == 0 {
        buffer[index]
    } else if covers(blocks.last(), start_addr, index) {
        byte_of(blocks.last(), start_addr, index)
    } else {
        byte_after(buffer, start_addr, blocks.drop_last(), index)
    }
}

/// A block that is written changes exactly the bytes of its window: they
/// become the block's payload, every other byte stays, and neither the start
/// address nor the size of the flash changes.
pub proof fn lemma_write_block_changes_its_window(state: FlashState, block: BlockFields)
    requires
        block.well_formed(),
        state.write_block(block) is Ok,
    ensures
        state.write_block(block).unwrap().start_addr == state.start_addr,
        state.write_block(block).unwrap().contents.len() == state.contents.len(),
        forall|index: int|
            0 <= index < state.contents.len() ==> #[trigger] state.write_block(
                block,
            ).unwrap().contents[index] == if covers(block, state.start_addr, index) {
                byte_of(block, state.start_addr, index)
            } else {
                state.contents[index]
            },
{
}

/// A block whose window does not lie inside the flash is refused as out of
/// range, whatever else it holds.
pub proof fn lemma_window_outside_is_refused(state: FlashState, block: BlockFields)
    requires
        block.address < state.start_addr || block.address + block.len > state.start_addr
            + state.contents.len(),
    ensures
        state.write_block(block) == Err::<FlashState, FlashError>(FlashError::OutOfRange),
{
}

/// A run of accepted blocks succeeds and leaves, at every index, the byte of
/// the last block whose window holds that index.
pub proof fn lemma_run_leaves_last_writes(state: FlashState, blocks: Seq<BlockFields>)
    requires
        all_accepted(state, blocks),
    ensures
        state.write_uf2(blocks).1 is Ok,
        state.write_uf2(blocks).0.start_addr == state.start_addr,
        state.write_uf2(blocks).0.contents.len() == state.contents.len(),
        forall|index: int|
            0 <= index < state.contents.len() ==> #[trigger] state.write_uf2(
                blocks,
            ).0.contents[index] == byte_after(state.contents, state.start_addr, blocks, index),
    decreases blocks.len(),
{
    if blocks.len() > 0 {
        let earlier = blocks.drop_last();
        assert forall|k: int| 0 <= k < earlier.len() implies (#[trigger] earlier[k]).well_formed()
            && state.write_block(earlier[k]) is Ok by {
            assert(earlier[k] == blocks[k]);
        }
        lemma_run_leaves_last_writes(state, earlier);
        let before = state.write_uf2(earlier).0;
        let last = blocks.last();
        assert(last == blocks[blocks.len() - 1]);
        assert(state.write_block(last) is Ok);
        assert(before.write_block(last) is Ok);
        lemma_write_block_changes_its_window(before, last);
    }
}

/// Among blocks whose windows do not overlap, the byte left at an index that
/// some block's window holds is that block's.
pub proof fn lemma_only_writer_wins(
    buffer: Seq<u8>,
    start_addr: u32,
    blocks: Seq<BlockFields>,
    k: int,
    index: int,
)
    requires
        pairwise_disjoint(blocks),
        0 <= k < blocks.len(),
        covers(blocks[k], start_addr, index),
    ensures
        byte_after(buffer, start_addr, blocks, index) == byte_of(blocks[k], start_addr, index),
    decreases blocks.len(),
{
    let last = blocks.len() - 1;
    if k < last {
        assert(windows_disjoint(blocks[k], blocks[last]));
        assert(!covers(blocks.last(), start_addr, index));
        let earlier = blocks.drop_last();
        assert forall|i: int, j: int| 0 <= i < j < earlier.len() implies windows_disjoint(
            #[trigger] earlier[i],
            #[trigger] earlier[j],
        ) by {
            assert(earlier[i] == blocks[i] && earlier[j] == blocks[j]);
        }
        assert(earlier[k] == blocks[k]);
        lemma_only_writer_wins(buffer, start_addr, earlier, k, index);
    }
}

/// The byte left at an index is the buffer's own where no block's window
/// holds the index, and otherwise the byte of one of the blocks whose window
/// does. The result is the position of that block, or -1.
pub proof fn lemma_byte_has_a_writer(
    buffer: Seq<u8>,
    start_addr: u32,
    blocks: Seq<BlockFields>,
    index: int,
) -> (writer: int)
    ensures
        -1 <= writer < blocks.len(),
        writer == -1 ==> byte_after(buffer, start_addr, blocks, index) == buffer[index],
        writer == -1 ==> forall|k: int|
            0 <= k < blocks.len() ==> !covers(#[trigger] blocks[k], start_addr, index),
        writer >= 0 ==> covers(blocks[writer], start_addr, index),
        writer >= 0 ==> byte_after(buffer, start_addr, blocks, index) == byte_of(
            blocks[writer],
            start_addr,
            index,
        ),
    decreases blocks.len(),
{
    if blocks.len() == 0 {
        -1
    } else if covers(blocks.last(), start_addr, index) {
        blocks.len() - 1
    } else {
        let earlier = blocks.drop_last();
        let writer = lemma_byte_has_a_writer(buffer, start_addr, earlier, index);
        if writer == -1 {
            assert forall|k: int| 0 <= k < blocks.len() implies !covers(
                #[trigger] blocks[k],
                start_addr,
                index,
            ) by {
                if k < earlier.len() {
                    assert(earlier[k] == blocks[k]);
                }
            }
        } else {
            assert(earlier[writer] == blocks[writer]);
        }
        writer
    }
}

/// Two sequences with the same blocks, each as often in one as in the other,
/// hold the same blocks.
proof fn lemma_same_blocks(first: Seq<BlockFields>, second: Seq<BlockFields>, block: BlockFields)
    requires
        first.to_multiset() == second.to_multiset(),
        first.contains(block),
    ensures
        second.contains(block),
{
    first.to_multiset_ensures();
    second.to_multiset_ensures();
    assert(first.to_multiset().count(block) > 0);
    assert(second.to_multiset().count(block) > 0);
}

/// The order of writes does not matter where the blocks do not overlap: two
/// runs over the same flash, of the same blocks in any two orders, both
/// succeed and leave the same start address, the same buffer and the same
/// digest, provided that the flash accepts each block and that no two of the
/// blocks have windows that share an address.
pub proof fn lemma_write_order_is_irrelevant(
    state: FlashState,
    first: Seq<BlockFields>,
    second: Seq<BlockFields>,
)
    requires
        first.to_multiset() == second.to_multiset(),
        pairwise_disjoint(first),
        all_accepted(state, first),
    ensures
        state.write_uf2(first).1 is Ok,
        state.write_uf2(second).1 is Ok,
        state.write_uf2(first).0.start_addr == state.write_uf2(second).0.start_addr,
        state.write_uf2(first).0.contents == state.write_uf2(second).0.contents,
        state.write_uf2(first).0.digest() == state.write_uf2(second).0.digest(),
{
    assert forall|k: int| 0 <= k < second.len() implies (#[trigger] second[k]).well_formed()
        && state.write_block(second[k]) is Ok by {
        assert(second.contains(second[k]));
        lemma_same_blocks(second, first, second[k]);
        let j = choose|j: int| 0 <= j < first.len() && first[j] == second[k];
        assert(first[j].well_formed());
    }
    lemma_run_leaves_last_writes(state, first);
    lemma_run_leaves_last_writes(state, second);
    let one = state.write_uf2(first).0.contents;
    let other = state.write_uf2(second).0.contents;
    assert forall|index: int| 0 <= index < one.len() implies one[index] == other[index] by {
        let writer = lemma_byte_has_a_writer(state.contents, state.start_addr, second, index);
        if writer == -1 {
            let counterpart = lemma_byte_has_a_writer(
                state.contents,
                state.start_addr,
                first,
                index,
            );
            if counterpart >= 0 {
                assert(first.contains(first[counterpart]));
                lemma_same_blocks(first, second, first[counterpart]);
                let j = choose|j: int| 0 <= j < second.len() && second[j] == first[counterpart];
                assert(!covers(second[j], state.start_addr, index));
            }
        } else {
            assert(second.contains(second[writer]));
            lemma_same_blocks(second, first, second[writer]);
            let j = choose|j: int| 0 <= j < first.len() && first[j] == second[writer];
            lemma_only_writer_wins(state.contents, state.start_addr, first, j, index);
        }
    }
    assert(one =~= other);
}

/// The digest of a flash depends on nothing but its buffer: two flashes
/// that hold the same bytes have the same digest, wherever they start and
/// wherever their cursors stand.
pub proof fn lemma_digest_follows_contents(a: FlashState, b: FlashState)
    requires
        a.contents == b.contents,
    ensures
        a.digest() == b.digest(),
{
}

} // verus!
