use uf2_hash::uf2::block::{UF2Block, END_MAGIC, START_MAGIC_0, START_MAGIC_1};
use uf2_hash::uf2::{DecodeError, UF2};

fn numbered_block(number: u32, total: u32) -> UF2Block {
    UF2Block {
        start_magic_nums: [START_MAGIC_0, START_MAGIC_1],
        flags: 0,
        address: 0x1000_0000 + 256 * (total - 1 - number),
        len: 256,
        block_num: number,
        total_blocks: total,
        data: [number as u8; 476],
        end_magic_num: END_MAGIC,
    }
}

fn container_of(count: u32) -> Vec<u8> {
    let mut bytes = Vec::new();
    for number in 0..count {
        bytes.extend_from_slice(&numbered_block(number, count).encode());
    }
    bytes
}

#[test]
fn parse_of_nothing_is_an_empty_container() {
    let container = UF2::parse(&[]).unwrap();
    assert!(container.blocks.is_empty());
}

#[test]
fn parse_of_one_record_is_one_block() {
    let container = UF2::parse(&container_of(1)).unwrap();
    assert_eq!(container.blocks, vec![numbered_block(0, 1)]);
}

#[test]
fn parse_keeps_every_block_in_file_order() {
    let bytes = container_of(9);
    assert_eq!(bytes.len(), 9 * 512);
    let container = UF2::parse(&bytes).unwrap();
    assert_eq!(container.blocks.len(), 9);
    for number in 0..9u32 {
        assert_eq!(container.blocks[number as usize], numbered_block(number, 9));
    }
}

#[test]
fn parse_neither_sorts_nor_merges() {
    let mut bytes = Vec::new();
    bytes.extend_from_slice(&numbered_block(2, 3).encode());
    bytes.extend_from_slice(&numbered_block(0, 3).encode());
    bytes.extend_from_slice(&numbered_block(2, 3).encode());
    let container = UF2::parse(&bytes).unwrap();
    assert_eq!(
        container.blocks,
        vec![numbered_block(2, 3), numbered_block(0, 3), numbered_block(2, 3)]
    );
}

#[test]
fn parse_fails_on_a_bad_magic_in_any_record() {
    for bad in 0..4usize {
        let mut bytes = container_of(4);
        bytes[512 * bad + 508] ^= 0xFF;
        assert_eq!(UF2::parse(&bytes).err(), Some(DecodeError::BadMagic));
    }
    let mut bytes = container_of(4);
    bytes[512 * 3] ^= 0x01;
    assert_eq!(UF2::parse(&bytes).err(), Some(DecodeError::BadMagic));
    let mut bytes = container_of(4);
    bytes[512 + 7] ^= 0x80;
    assert_eq!(UF2::parse(&bytes).err(), Some(DecodeError::BadMagic));
}

#[test]
fn parse_fails_on_a_trailing_partial_record() {
    let mut bytes = container_of(2);
    bytes.push(0x55);
    assert_eq!(UF2::parse(&bytes).err(), Some(DecodeError::TruncatedInput));
    let mut bytes = container_of(2);
    bytes.extend_from_slice(&numbered_block(0, 1).encode()[..511]);
    assert_eq!(UF2::parse(&bytes).err(), Some(DecodeError::TruncatedInput));
}

#[test]
fn parse_fails_on_less_than_one_record() {
    assert_eq!(UF2::parse(&[0x55]).err(), Some(DecodeError::TruncatedInput));
    let record = numbered_block(0, 1).encode();
    assert_eq!(UF2::parse(&record[..511]).err(), Some(DecodeError::TruncatedInput));
}

#[test]
fn parse_reports_the_bad_record_before_the_partial_one() {
    let mut bytes = container_of(2);
    bytes[508] = 0;
    bytes.extend_from_slice(&[1, 2, 3]);
    assert_eq!(UF2::parse(&bytes).err(), Some(DecodeError::BadMagic));
}

#[test]
fn parse_takes_a_vector_by_reference() {
    let bytes: Vec<u8> = container_of(2);
    assert_eq!(UF2::parse(&bytes).unwrap().blocks.len(), 2);
    assert_eq!(UF2::parse(bytes.as_slice()).unwrap().blocks.len(), 2);
}
