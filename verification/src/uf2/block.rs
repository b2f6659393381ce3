//! One UF2 record: its layout, its framing markers and its flag bits.

use crate::uf2::wire::{le_bytes, lemma_le_u32_of_le_bytes, read_word, word_at};
use crate::uf2::DecodeError;
use vstd::prelude::*;
use vstd::slice::slice_subrange;

verus! {

/// Bytes in one record.
pub const BLOCK_SIZE: usize = 512;

/// Bytes in the payload region of a record.
pub const PAYLOAD_CAPACITY: usize = 476;

/// Byte offset of the payload region inside a record.
pub const PAYLOAD_OFFSET: usize = 32;

/// Byte offset of the closing marker inside a record.
pub const END_MAGIC_OFFSET: usize = 508;

/// First word of every record.
pub const START_MAGIC_0: u32 = 0x0A32_4655;

/// Second word of every record.
pub const START_MAGIC_1: u32 = 0x9E5D_5157;

/// Last word of every record.
pub const END_MAGIC: u32 = 0x0AB1_6F30;

/// Flag bit: the block is not meant for main flash.
pub const NOT_MAIN_FLASH: u32 = 0x0000_0001;

/// Flag bit: the block belongs to a file container.
pub const FILE_CONTAINER: u32 = 0x0000_1000;

/// Flag bit: an MD5 checksum is stored in the payload region.
pub const MD5_CHECKSUM_PRESENT: u32 = 0x0000_4000;

/// Flag bit: extension tags follow the payload.
pub const EXTENSION_TAGS_PRESENT: u32 = 0x0000_8000;

/// One decoded record.
#[derive(Debug, Clone, Copy, PartialEq, Eq)]
pub struct UF2Block {
    pub start_magic_nums: [u32; 2],
    pub flags: u32,
    pub address: u32,
    pub len: u32,
    pub block_num: u32,
    pub total_blocks: u32,
    pub data: [u8; 476],
    pub end_magic_num: u32,
}

/// What a block holds, as mathematical values.
pub struct BlockFields {
    pub start_magic_nums: Seq<u32>,
    pub flags: u32,
    pub address: u32,
    pub len: u32,
    pub block_num: u32,
    pub total_blocks: u32,
    pub data: Seq<u8>,
    pub end_magic_num: u32,
}

/// Whether every bit of `flag` is set in `flags`.
pub open spec fn has_flag(flags: u32, flag: u32) -> bool {
    flags & flag == flag
}

/// The fields that the layout assigns to a record's bytes.
pub open spec fn record_fields(record: Seq<u8>) -> BlockFields
    recommends
        record.len() == BLOCK_SIZE,
{
    BlockFields {
        start_magic_nums: seq![word_at(record, 0), word_at(record, 4)],
        flags: word_at(record, 8),
        address: word_at(record, 12),
        len: word_at(record, 16),
        block_num: word_at(record, 20),
        total_blocks: word_at(record, 24),
        data: record.subrange(PAYLOAD_OFFSET as int, END_MAGIC_OFFSET as int),
        end_magic_num: word_at(record, END_MAGIC_OFFSET as int),
    }
}

/// What decoding a record gives: its fields, or `BadMagic` where a marker
/// differs from its constant.
pub open spec fn decode_outcome(record: Seq<u8>) -> Result<BlockFields, DecodeError>
    recommends
        record.len() == BLOCK_SIZE,
{
    if record_fields(record).has_valid_magic() {
        Ok(record_fields(record))
    } else {
        Err(DecodeError::BadMagic)
    }
}

impl BlockFields {
    /// Two start markers and a payload region of full capacity.
    pub open spec fn well_formed(self) -> bool {
        &&& self.start_magic_nums.len() == 2
        &&& self.data.len() == PAYLOAD_CAPACITY
    }

    /// Both start markers and the end marker equal the format's constants.
    pub open spec fn has_valid_magic(self) -> bool {
        &&& self.start_magic_nums.len() == 2
        &&& self.start_magic_nums[0] == START_MAGIC_0
        &&& self.start_magic_nums[1] == START_MAGIC_1
        &&& self.end_magic_num == END_MAGIC
    }

    /// Number of payload bytes that are meaningful: `len`, held to the
    /// capacity of the payload region.
    pub open spec fn payload_len(self) -> int {
        if self.len <= PAYLOAD_CAPACITY {
            self.len as int
        } else {
            PAYLOAD_CAPACITY as int
        }
    }

    /// The meaningful bytes of the payload region.
    pub open spec fn payload(self) -> Seq<u8> {
        self.data.subrange(0, self.payload_len())
    }

    /// The record that stores these fields, with the unmodelled word at
    /// offset 28 set to zero.
    pub open spec fn encode(self) -> Seq<u8> {
        le_bytes(self.start_magic_nums[0]) + le_bytes(self.start_magic_nums[1]) + le_bytes(
            self.flags,
        ) + le_bytes(self.address) + le_bytes(self.len) + le_bytes(self.block_num) + le_bytes(
            self.total_blocks,
        ) + le_bytes(0) + self.data + le_bytes(self.end_magic_num)
    }
}

impl View for UF2Block {
    type V = BlockFields;

    open spec fn view(&self) -> BlockFields {
        BlockFields {
            start_magic_nums: self.start_magic_nums@,
            flags: self.flags,
            address: self.address,
            len: self.len,
            block_num: self.block_num,
            total_blocks: self.total_blocks,
            data: self.data@,
            end_magic_num: self.end_magic_num,
        }
    }
}

/// A record stores its word at `at` in the four bytes that start there:
/// where those bytes are the bytes of `value`, the word read back is `value`.
proof fn lemma_word_stored(record: Seq<u8>, at: int, value: u32)
    requires
        0 <= at,
        at + 4 <= record.len(),
        record.subrange(at, at + 4) == le_bytes(value),
    ensures
        word_at(record, at) == value,
{
    lemma_le_u32_of_le_bytes(value);
}

/// Decoding inverts encoding: the record that stores a block's fields is 512
/// bytes long, the layout assigns it exactly those fields, and so decoding it
/// gives the block back where the block's markers are the format's, and
/// `BadMagic` where they are not.
pub proof fn lemma_decode_inverts_encode(fields: BlockFields)
    requires
        fields.well_formed(),
    ensures
        fields.encode().len() == BLOCK_SIZE,
        record_fields(fields.encode()) == fields,
        fields.has_valid_magic() ==> decode_outcome(fields.encode()) == Ok::<
            BlockFields,
            DecodeError,
        >(fields),
        !fields.has_valid_magic() ==> decode_outcome(fields.encode()) == Err::<
            BlockFields,
            DecodeError,
        >(DecodeError::BadMagic),
{
    let record = fields.encode();
    assert(record.len() == BLOCK_SIZE);
    assert(record.subrange(0, 4) =~= le_bytes(fields.start_magic_nums[0]));
    assert(record.subrange(4, 8) =~= le_bytes(fields.start_magic_nums[1]));
    assert(record.subrange(8, 12) =~= le_bytes(fields.flags));
    assert(record.subrange(12, 16) =~= le_bytes(fields.address));
    assert(record.subrange(16, 20) =~= le_bytes(fields.len));
    assert(record.subrange(20, 24) =~= le_bytes(fields.block_num));
    assert(record.subrange(24, 28) =~= le_bytes(fields.total_blocks));
    assert(record.subrange(508, 512) =~= le_bytes(fields.end_magic_num));
    lemma_word_stored(record, 0, fields.start_magic_nums[0]);
    lemma_word_stored(record, 4, fields.start_magic_nums[1]);
    lemma_word_stored(record, 8, fields.flags);
    lemma_word_stored(record, 12, fields.address);
    lemma_word_stored(record, 16, fields.len);
    lemma_word_stored(record, 20, fields.block_num);
    lemma_word_stored(record, 24, fields.total_blocks);
    lemma_word_stored(record, 508, fields.end_magic_num);
    let decoded = record_fields(record);
    assert(decoded.start_magic_nums =~= fields.start_magic_nums);
    assert(decoded.data =~= fields.data);
}

/// Decoding the record that stores a block with the format's markers gives
/// that block, field for field.
pub proof fn lemma_round_trip(block: UF2Block)
    requires
        block@.has_valid_magic(),
    ensures
        block@.encode().len() == BLOCK_SIZE,
        decode_outcome(block@.encode()) == Ok::<BlockFields, DecodeError>(block@),
{
    lemma_decode_inverts_encode(block@);
}

/// Two blocks that hold the same values are the same block.
pub proof fn lemma_block_is_its_fields(a: UF2Block, b: UF2Block)
    requires
        a@ == b@,
    ensures
        a == b,
{
    assert(a.start_magic_nums =~= b.start_magic_nums);
    assert(a.data =~= b.data);
}

/// Copies the payload region out of a record.
fn read_payload(record: &[u8]) -> (data: [u8; 476])
    requires
        record.len() == BLOCK_SIZE,
    ensures
        data@ == record@.subrange(PAYLOAD_OFFSET as int, END_MAGIC_OFFSET as int),
{
    let mut data: [u8; 476] = [0u8; 476];
    let mut i: usize = 0;
    while i < PAYLOAD_CAPACITY
        invariant
            i <= PAYLOAD_CAPACITY,
            record.len() == BLOCK_SIZE,
            forall|j: int| 0 <= j < i ==> data@[j] == record@[PAYLOAD_OFFSET + j],
        decreases PAYLOAD_CAPACITY - i,
    {
        data[i] = record[PAYLOAD_OFFSET + i];
        i += 1;
    }
    assert(data@ =~= record@.subrange(PAYLOAD_OFFSET as int, END_MAGIC_OFFSET as int));
    data
}

/// Decodes the record that starts at byte `offset` of `input`.
pub(crate) fn decode_at(input: &[u8], offset: usize) -> (result: Result<UF2Block, DecodeError>)
    requires
        offset + BLOCK_SIZE <= input.len(),
    ensures
        match result {
            Ok(block) => decode_outcome(input@.subrange(offset as int, offset + BLOCK_SIZE))
                == Ok::<BlockFields, DecodeError>(block@),
            Err(error) => decode_outcome(input@.subrange(offset as int, offset + BLOCK_SIZE))
                == Err::<BlockFields, DecodeError>(error),
        },
{
    let record: &[u8] = slice_subrange(input, offset, offset + BLOCK_SIZE);
    let start_magic_nums: [u32; 2] = [read_word(record, 0), read_word(record, 4)];
    let block = UF2Block {
        start_magic_nums,
        flags: read_word(record, 8),
        address: read_word(record, 12),
        len: read_word(record, 16),
        block_num: read_word(record, 20),
        total_blocks: read_word(record, 24),
        data: read_payload(record),
        end_magic_num: read_word(record, END_MAGIC_OFFSET),
    };
    assert(block@.start_magic_nums =~= record_fields(record@).start_magic_nums);
    if block.verify_magic_nums() {
        Ok(block)
    } else {
        Err(DecodeError::BadMagic)
    }
}

/// Stores `value` at byte offset `at` of a record, least significant byte
/// first.
fn put_word(record: &mut [u8; 512], at: usize, value: u32)
    requires
        at + 4 <= BLOCK_SIZE,
    ensures
        final(record)@.len() == BLOCK_SIZE,
        final(record)@.subrange(at as int, at + 4) == le_bytes(value),
        forall|i: int|
            0 <= i < BLOCK_SIZE && !(at <= i < at + 4) ==> final(record)@[i] == old(record)@[i],
{
    record[at] = (value % 0x100) as u8;
    record[at + 1] = (value / 0x100 % 0x100) as u8;
    record[at + 2] = (value / 0x1_0000 % 0x100) as u8;
    record[at + 3] = (value / 0x100_0000) as u8;
    assert(record@.subrange(at as int, at + 4) =~= le_bytes(value));
}

impl UF2Block {
    /// Decodes one 512-byte record. Every field is taken from its place in
    /// the layout; the two markers are then held against their constants,
    /// and nothing else is validated.
    pub fn decode(record: &[u8; 512]) -> (result: Result<UF2Block, DecodeError>)
        ensures
            match result {
                Ok(block) => decode_outcome(record@) == Ok::<BlockFields, DecodeError>(block@),
                Err(error) => decode_outcome(record@) == Err::<BlockFields, DecodeError>(error),
            },
    {
        let bytes: &[u8] = record.as_slice();
        assert(bytes@.subrange(0, BLOCK_SIZE as int) =~= record@);
        decode_at(bytes, 0)
    }

    /// The 512-byte record that stores this block: every field at its place
    /// in the layout, and zero in the word at offset 28 that the block does
    /// not model.
    pub fn encode(&self) -> (record: [u8; 512])
        ensures
            record@ == self@.encode(),
    {
        let mut record: [u8; 512] = [0u8; 512];
        put_word(&mut record, 0, self.start_magic_nums[0]);
        put_word(&mut record, 4, self.start_magic_nums[1]);
        put_word(&mut record, 8, self.flags);
        put_word(&mut record, 12, self.address);
        put_word(&mut record, 16, self.len);
        put_word(&mut record, 20, self.block_num);
        put_word(&mut record, 24, self.total_blocks);
        put_word(&mut record, 28, 0);
        let mut i: usize = 0;
        while i < PAYLOAD_CAPACITY
            invariant
                i <= PAYLOAD_CAPACITY,
                forall|j: int| 0 <= j < PAYLOAD_OFFSET ==> record@[j] == self@.encode()[j],
                forall|j: int| 0 <= j < i ==> record@[PAYLOAD_OFFSET + j] == self.data@[j],
            decreases PAYLOAD_CAPACITY - i,
        {
            record[PAYLOAD_OFFSET + i] = self.data[i];
            i += 1;
        }
        put_word(&mut record, END_MAGIC_OFFSET, self.end_magic_num);
        assert(record@ =~= self@.encode());
        record
    }

    /// Whether both start markers and the end marker are the format's.
    pub fn verify_magic_nums(&self) -> (valid: bool)
        ensures
            valid == self@.has_valid_magic(),
    {
        self.start_magic_nums[0] == START_MAGIC_0 && self.start_magic_nums[1] == START_MAGIC_1
            && self.end_magic_num == END_MAGIC
    }

    /// Whether every bit of `flag` is set in the block's flags.
    #[inline]
    pub fn check_flag(&self, flag: u32) -> (set: bool)
        ensures
            set == has_flag(self.flags, flag),
    {
        (self.flags & flag) == flag
    }

    /// Whether the block is meant for main flash.
    #[inline]
    pub fn is_main_flash(&self) -> (main_flash: bool)
        ensures
            main_flash == !has_flag(self.flags, NOT_MAIN_FLASH),
    {
        !self.check_flag(NOT_MAIN_FLASH)
    }

    /// Whether the block belongs to a file container.
    #[inline]
    pub fn is_file_container(&self) -> (file_container: bool)
        ensures
            file_container == has_flag(self.flags, FILE_CONTAINER),
    {
        self.check_flag(FILE_CONTAINER)
    }

    /// Whether the block carries an MD5 checksum.
    #[inline]
    pub fn has_checksum(&self) -> (checksum: bool)
        ensures
            checksum == has_flag(self.flags, MD5_CHECKSUM_PRESENT),
    {
        self.check_flag(MD5_CHECKSUM_PRESENT)
    }

    /// Whether extension tags follow the block's payload.
    #[inline]
    pub fn has_extension_tags(&self) -> (extension_tags: bool)
        ensures
            extension_tags == has_flag(self.flags, EXTENSION_TAGS_PRESENT),
    {
        self.check_flag(EXTENSION_TAGS_PRESENT)
    }

    /// The meaningful payload bytes: the first `len` bytes of the payload
    /// region, or the whole region where `len` exceeds its capacity.
    pub fn contents(&self) -> (payload: &[u8])
        ensures
            payload@ == self@.payload(),
    {
        let count: usize = if self.len as usize > PAYLOAD_CAPACITY {
            PAYLOAD_CAPACITY
        } else {
            self.len as usize
        };
        slice_subrange(self.data.as_slice(), 0, count)
    }
}

impl TryFrom<[u8; 512]> for UF2Block {
    type Error = DecodeError;

    /// Decodes one 512-byte record, as `UF2Block::decode` does.
    fn try_from(value: [u8; 512]) -> (result: Result<UF2Block, DecodeError>) {
        let result = UF2Block::decode(&value);
        proof {
            if let Ok(block) = result {
                let chosen = choose|chosen: UF2Block| chosen@ == record_fields(value@);
                lemma_block_is_its_fields(block, chosen);
            }
        }
        result
    }
}

impl vstd::std_specs::convert::TryFromSpecImpl<[u8; 512]> for UF2Block {
    open spec fn obeys_try_from_spec() -> bool {
        true
    }

    open spec fn try_from_spec(value: [u8; 512]) -> Result<UF2Block, DecodeError> {
        match decode_outcome(value@) {
            Ok(fields) => Ok(choose|block: UF2Block| block@ == fields),
            Err(error) => Err(error),
        }
    }
}

} // verus!
