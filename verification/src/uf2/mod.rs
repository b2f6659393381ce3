//! The UF2 container: a sequence of 512-byte records in file order.

use crate::uf2::block::{
    decode_at, lemma_decode_inverts_encode, record_fields, BlockFields, UF2Block, BLOCK_SIZE,
};
use vstd::prelude::*;

pub mod block;
pub mod wire;

verus! {

/// Why a byte sequence is not a UF2 container.
#[derive(Debug, Clone, Copy, PartialEq, Eq, Structural)]
pub enum DecodeError {
    /// A record's start or end marker differs from the format's constants.
    BadMagic,
    /// The input does not end on a record boundary.
    TruncatedInput,
}

/// A decoded container: its blocks, in file order.
#[derive(Debug)]
pub struct UF2 {
    pub blocks: Vec<UF2Block>,
}

/// Number of complete records in a container's bytes.
pub open spec fn record_count(input: Seq<u8>) -> int {
    input.len() as int / BLOCK_SIZE as int
}

/// The bytes of the record with the given index.
pub open spec fn record_at(input: Seq<u8>, index: int) -> Seq<u8> {
    input.subrange(index * BLOCK_SIZE, index * BLOCK_SIZE + BLOCK_SIZE)
}

/// Whether the record with the given index carries the format's markers.
pub open spec fn record_is_framed(input: Seq<u8>, index: int) -> bool {
    record_fields(record_at(input, index)).has_valid_magic()
}

/// What parsing a container gives. A complete record with a wrong marker
/// makes the whole input `BadMagic`; otherwise bytes left over after the last
/// complete record make it `TruncatedInput`; otherwise the result holds the
/// fields of every record, in file order.
pub open spec fn parse_outcome(input: Seq<u8>) -> Result<Seq<BlockFields>, DecodeError> {
    if exists|index: int| 0 <= index < record_count(input) && !record_is_framed(input, index) {
        Err(DecodeError::BadMagic)
    } else if input.len() % BLOCK_SIZE as nat != 0 {
        Err(DecodeError::TruncatedInput)
    } else {
        Ok(Seq::new(record_count(input) as nat, |index: int| record_fields(record_at(input, index))))
    }
}

/// The records one after the other, as one byte sequence.
pub open spec fn concat_records(records: Seq<Seq<u8>>) -> Seq<u8>
    decreases records.len(),
{
    if records.len() == 0 {
        Seq::empty()
    } else {
        concat_records(records.drop_last()) + records.last()
    }
}

/// The bytes of the container that stores the blocks, one record after the
/// other.
pub open spec fn container_bytes(blocks: Seq<BlockFields>) -> Seq<u8> {
    concat_records(Seq::new(blocks.len(), |index: int| blocks[index].encode()))
}

/// Whether every block has a payload region of full capacity and the
/// format's markers.
pub open spec fn all_framed(blocks: Seq<BlockFields>) -> bool {
    forall|index: int|
        0 <= index < blocks.len() ==> (#[trigger] blocks[index]).well_formed()
            && blocks[index].has_valid_magic()
}

/// Records of full size, put one after the other, can each be found again
/// at its place.
proof fn lemma_concat_records(records: Seq<Seq<u8>>)
    requires
        forall|index: int| 0 <= index < records.len() ==> (#[trigger] records[index]).len()
            == BLOCK_SIZE,
    ensures
        concat_records(records).len() == records.len() * BLOCK_SIZE,
        forall|index: int|
            0 <= index < records.len() ==> #[trigger] record_at(concat_records(records), index)
                == records[index],
    decreases records.len(),
{
    if records.len() > 0 {
        let earlier = records.drop_last();
        assert forall|index: int| 0 <= index < earlier.len() implies (
        #[trigger] earlier[index]).len() == BLOCK_SIZE by {
            assert(earlier[index] == records[index]);
        }
        lemma_concat_records(earlier);
        let stored = concat_records(earlier);
        let whole = concat_records(records);
        assert(records.last() == records[records.len() - 1]);
        assert(whole == stored + records.last());
        assert forall|index: int| 0 <= index < records.len() implies #[trigger] record_at(
            whole,
            index,
        ) == records[index] by {
            if index < earlier.len() {
                assert(record_at(whole, index) =~= record_at(stored, index));
                assert(earlier[index] == records[index]);
            } else {
                assert(record_at(whole, index) =~= records.last());
            }
        }
    }
}

/// Parsing inverts storing: the container that stores N blocks with the
/// format's markers parses to exactly those N blocks, in their order.
pub proof fn lemma_parse_inverts_container(blocks: Seq<BlockFields>)
    requires
        all_framed(blocks),
    ensures
        container_bytes(blocks).len() == blocks.len() * BLOCK_SIZE,
        parse_outcome(container_bytes(blocks)) == Ok::<Seq<BlockFields>, DecodeError>(blocks),
{
    let records = Seq::new(blocks.len(), |index: int| blocks[index].encode());
    assert forall|index: int| 0 <= index < records.len() implies (#[trigger] records[index]).len()
        == BLOCK_SIZE by {
        lemma_decode_inverts_encode(blocks[index]);
    }
    lemma_concat_records(records);
    let input = container_bytes(blocks);
    assert(record_count(input) == blocks.len());
    assert forall|index: int| 0 <= index < blocks.len() implies record_fields(
        #[trigger] record_at(input, index),
    ) == blocks[index] by {
        lemma_decode_inverts_encode(blocks[index]);
        assert(record_at(input, index) == records[index]);
    }
    assert(Seq::new(
        record_count(input) as nat,
        |index: int| record_fields(record_at(input, index)),
    ) =~= blocks);
}

impl View for UF2 {
    type V = Seq<BlockFields>;

    open spec fn view(&self) -> Seq<BlockFields> {
        Seq::new(self.blocks@.len(), |index: int| self.blocks@[index]@)
    }
}

impl UF2 {
    /// Splits `input` into consecutive 512-byte records and decodes each, in
    /// file order. The first record that fails to decode fails the whole
    /// parse, and so does a trailing partial record.
    pub fn parse(input: &[u8]) -> (result: Result<UF2, DecodeError>)
        ensures
            match result {
                Ok(container) => parse_outcome(input@) == Ok::<Seq<BlockFields>, DecodeError>(
                    container@,
                ),
                Err(error) => parse_outcome(input@) == Err::<Seq<BlockFields>, DecodeError>(error),
            },
    {
        let count: usize = input.len() / BLOCK_SIZE;
        let mut blocks: Vec<UF2Block> = Vec::with_capacity(count);
        let mut index: usize = 0;
        while index < count
            invariant
                index <= count,
                count == record_count(input@),
                count * BLOCK_SIZE <= input.len(),
                blocks@.len() == index,
                forall|i: int| 0 <= i < index ==> record_is_framed(input@, i),
                forall|i: int|
                    0 <= i < index ==> (#[trigger] blocks@[i])@ == record_fields(
                        record_at(input@, i),
                    ),
            decreases count - index,
        {
            match decode_at(input, index * BLOCK_SIZE) {
                Ok(block) => {
                    blocks.push(block);
                },
                Err(error) => {
                    assert(!record_is_framed(input@, index as int));
                    return Err(error);
                },
            }
            index += 1;
        }
        if input.len() % BLOCK_SIZE != 0 {
            return Err(DecodeError::TruncatedInput);
        }
        let container = UF2 { blocks };
        assert(container@ =~= Seq::new(
            record_count(input@) as nat,
            |index: int| record_fields(record_at(input@, index)),
        ));
        Ok(container)
    }
}

} // verus!
