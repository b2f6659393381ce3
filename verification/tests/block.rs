use uf2_hash::uf2::block::{
    UF2Block, BLOCK_SIZE, END_MAGIC, EXTENSION_TAGS_PRESENT, FILE_CONTAINER, MD5_CHECKSUM_PRESENT,
    NOT_MAIN_FLASH, PAYLOAD_CAPACITY, START_MAGIC_0, START_MAGIC_1,
};
use uf2_hash::uf2::wire::read_word;
use uf2_hash::uf2::DecodeError;

fn sample_block() -> UF2Block {
    let mut data = [0u8; 476];
    for (i, byte) in data.iter_mut().enumerate() {
        *byte = (i % 251) as u8;
    }
    UF2Block {
        start_magic_nums: [START_MAGIC_0, START_MAGIC_1],
        flags: 0x0000_2000,
        address: 0x0800_0100,
        len: 256,
        block_num: 3,
        total_blocks: 17,
        data,
        end_magic_num: END_MAGIC,
    }
}

fn put_le(record: &mut [u8; 512], at: usize, value: u32) {
    record[at..at + 4].copy_from_slice(&value.to_le_bytes());
}

fn sample_record() -> [u8; 512] {
    let mut record = [0u8; 512];
    put_le(&mut record, 0, 0x0A32_4655);
    put_le(&mut record, 4, 0x9E5D_5157);
    put_le(&mut record, 8, 0x0000_2000);
    put_le(&mut record, 12, 0x0800_0100);
    put_le(&mut record, 16, 256);
    put_le(&mut record, 20, 3);
    put_le(&mut record, 24, 17);
    put_le(&mut record, 28, 0xE48B_FF56);
    for i in 0..476 {
        record[32 + i] = (i % 251) as u8;
    }
    put_le(&mut record, 508, 0x0AB1_6F30);
    record
}

#[test]
fn layout_constants_are_the_formats() {
    assert_eq!(BLOCK_SIZE, 512);
    assert_eq!(PAYLOAD_CAPACITY, 476);
    assert_eq!(START_MAGIC_0, 0x0A32_4655);
    assert_eq!(START_MAGIC_1, 0x9E5D_5157);
    assert_eq!(END_MAGIC, 0x0AB1_6F30);
}

#[test]
fn read_word_is_little_endian() {
    let bytes = [0xA1u8, 0xA0, 0x09, 0x08, 0xFF, 0x01, 0x00, 0x00, 0x00];
    assert_eq!(read_word(&bytes, 0), 0x0809_A0A1);
    assert_eq!(read_word(&bytes, 1), 0xFF08_09A0);
    assert_eq!(read_word(&bytes, 4), 0x0000_01FF);
    assert_eq!(read_word(&bytes, 5), 0x0000_0001);
}

#[test]
fn decode_reads_every_field_from_its_place() {
    let block = UF2Block::decode(&sample_record()).unwrap();
    assert_eq!(block.start_magic_nums, [0x0A32_4655, 0x9E5D_5157]);
    assert_eq!(block.flags, 0x0000_2000);
    assert_eq!(block.address, 0x0800_0100);
    assert_eq!(block.len, 256);
    assert_eq!(block.block_num, 3);
    assert_eq!(block.total_blocks, 17);
    assert_eq!(block.end_magic_num, 0x0AB1_6F30);
    for i in 0..476 {
        assert_eq!(block.data[i], (i % 251) as u8);
    }
    assert_eq!(block, sample_block());
}

#[test]
fn decode_ignores_the_word_at_offset_28() {
    let mut record = sample_record();
    let with_family = UF2Block::decode(&record).unwrap();
    put_le(&mut record, 28, 0);
    let without = UF2Block::decode(&record).unwrap();
    assert_eq!(with_family, without);
}

#[test]
fn decode_rejects_a_zeroed_end_magic() {
    let mut record = sample_record();
    put_le(&mut record, 508, 0x0000_0000);
    assert_eq!(read_word(&record, 0), 0x0A32_4655);
    assert_eq!(read_word(&record, 4), 0x9E5D_5157);
    assert_eq!(UF2Block::decode(&record), Err(DecodeError::BadMagic));
}

#[test]
fn decode_rejects_a_wrong_first_start_magic() {
    let mut record = sample_record();
    put_le(&mut record, 0, 0x0A32_4654);
    assert_eq!(UF2Block::decode(&record), Err(DecodeError::BadMagic));
}

#[test]
fn decode_rejects_a_wrong_second_start_magic() {
    let mut record = sample_record();
    put_le(&mut record, 4, 0x9E5D_5156);
    assert_eq!(UF2Block::decode(&record), Err(DecodeError::BadMagic));
}

#[test]
fn decode_rejects_swapped_start_magics() {
    let mut record = sample_record();
    put_le(&mut record, 0, 0x9E5D_5157);
    put_le(&mut record, 4, 0x0A32_4655);
    assert_eq!(UF2Block::decode(&record), Err(DecodeError::BadMagic));
}

#[test]
fn decode_rejects_a_record_of_zeros() {
    assert_eq!(UF2Block::decode(&[0u8; 512]), Err(DecodeError::BadMagic));
}

#[test]
fn decode_does_not_validate_len() {
    let mut record = sample_record();
    put_le(&mut record, 16, 477);
    assert_eq!(UF2Block::decode(&record).unwrap().len, 477);
    put_le(&mut record, 16, 0xFFFF_FFFF);
    assert_eq!(UF2Block::decode(&record).unwrap().len, 0xFFFF_FFFF);
}

#[test]
fn encode_puts_every_field_at_its_place() {
    let record = sample_block().encode();
    assert_eq!(&record[0..4], &[0x55, 0x46, 0x32, 0x0A]);
    assert_eq!(&record[4..8], &[0x57, 0x51, 0x5D, 0x9E]);
    assert_eq!(&record[8..12], &[0x00, 0x20, 0x00, 0x00]);
    assert_eq!(&record[12..16], &[0x00, 0x01, 0x00, 0x08]);
    assert_eq!(&record[16..20], &[0x00, 0x01, 0x00, 0x00]);
    assert_eq!(&record[20..24], &[0x03, 0x00, 0x00, 0x00]);
    assert_eq!(&record[24..28], &[0x11, 0x00, 0x00, 0x00]);
    assert_eq!(&record[28..32], &[0x00, 0x00, 0x00, 0x00]);
    assert_eq!(&record[32..508], &sample_block().data[..]);
    assert_eq!(&record[508..512], &[0x30, 0x6F, 0xB1, 0x0A]);
}

#[test]
fn decode_inverts_encode() {
    let block = sample_block();
    assert_eq!(UF2Block::decode(&block.encode()), Ok(block));
}

#[test]
fn decode_inverts_encode_at_the_extremes() {
    let block = UF2Block {
        start_magic_nums: [START_MAGIC_0, START_MAGIC_1],
        flags: 0xFFFF_FFFF,
        address: 0xFFFF_FFFF,
        len: 0xFFFF_FFFF,
        block_num: 0xFFFF_FFFF,
        total_blocks: 0,
        data: [0xFF; 476],
        end_magic_num: END_MAGIC,
    };
    assert_eq!(UF2Block::decode(&block.encode()), Ok(block));
}

#[test]
fn encode_of_a_block_with_a_wrong_magic_does_not_decode() {
    let mut block = sample_block();
    block.end_magic_num = 0;
    assert_eq!(UF2Block::decode(&block.encode()), Err(DecodeError::BadMagic));
}

#[test]
fn try_from_decodes_like_decode() {
    let record = sample_record();
    assert_eq!(UF2Block::try_from(record), Ok(sample_block()));
    let converted: Result<UF2Block, DecodeError> = record.try_into();
    assert_eq!(converted, Ok(sample_block()));
    assert_eq!(UF2Block::try_from([0u8; 512]), Err(DecodeError::BadMagic));
}

#[test]
fn verify_magic_nums_wants_all_three() {
    let mut block = sample_block();
    assert!(block.verify_magic_nums());
    block.start_magic_nums[0] ^= 1;
    assert!(!block.verify_magic_nums());
    block = sample_block();
    block.start_magic_nums[1] ^= 0x8000_0000;
    assert!(!block.verify_magic_nums());
    block = sample_block();
    block.end_magic_num = 0;
    assert!(!block.verify_magic_nums());
}

#[test]
fn check_flag_wants_every_bit_of_the_flag() {
    let mut block = sample_block();
    block.flags = 0x0000_5001;
    assert!(block.check_flag(0x0000_0001));
    assert!(block.check_flag(0x0000_5000));
    assert!(block.check_flag(0x0000_5001));
    assert!(!block.check_flag(0x0000_7000));
    assert!(!block.check_flag(0x0000_0002));
    assert!(block.check_flag(0));
}

#[test]
fn each_flag_has_a_bit_of_its_own() {
    assert_eq!(NOT_MAIN_FLASH, 0x0000_0001);
    assert_eq!(FILE_CONTAINER, 0x0000_1000);
    assert_eq!(MD5_CHECKSUM_PRESENT, 0x0000_4000);
    assert_eq!(EXTENSION_TAGS_PRESENT, 0x0000_8000);
    let mut block = sample_block();

    block.flags = 0;
    assert!(block.is_main_flash());
    assert!(!block.is_file_container());
    assert!(!block.has_checksum());
    assert!(!block.has_extension_tags());

    block.flags = NOT_MAIN_FLASH;
    assert!(!block.is_main_flash());
    assert!(!block.is_file_container());
    assert!(!block.has_checksum());
    assert!(!block.has_extension_tags());

    block.flags = FILE_CONTAINER;
    assert!(block.is_main_flash());
    assert!(block.is_file_container());
    assert!(!block.has_checksum());
    assert!(!block.has_extension_tags());

    block.flags = MD5_CHECKSUM_PRESENT;
    assert!(block.is_main_flash());
    assert!(!block.is_file_container());
    assert!(block.has_checksum());
    assert!(!block.has_extension_tags());

    block.flags = EXTENSION_TAGS_PRESENT;
    assert!(block.is_main_flash());
    assert!(!block.is_file_container());
    assert!(!block.has_checksum());
    assert!(block.has_extension_tags());

    block.flags = 0xFFFF_FFFF;
    assert!(!block.is_main_flash());
    assert!(block.is_file_container());
    assert!(block.has_checksum());
    assert!(block.has_extension_tags());
}

#[test]
fn contents_is_the_first_len_bytes() {
    let mut block = sample_block();
    assert_eq!(block.contents().len(), 256);
    assert_eq!(block.contents(), &block.data[0..256]);
    block.len = 0;
    assert!(block.contents().is_empty());
    block.len = 1;
    assert_eq!(block.contents(), &[0u8]);
    block.len = 476;
    assert_eq!(block.contents(), &block.data[..]);
}

#[test]
fn contents_stops_at_the_capacity() {
    let mut block = sample_block();
    block.len = 477;
    assert_eq!(block.contents(), &block.data[..]);
    block.len = 0xFFFF_FFFF;
    assert_eq!(block.contents().len(), 476);
}
