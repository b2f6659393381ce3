//! Little-endian 32-bit words, as the UF2 record layout stores every header
//! field.

use vstd::prelude::*;
use vstd::slice::slice_subrange;

verus! {

/// The number that four bytes stand for, least significant byte first.
pub open spec fn le_u32(bytes: Seq<u8>) -> u32
    recommends
        bytes.len() == 4,
{
    (bytes[0] as int + 0x100 * (bytes[1] as int) + 0x1_0000 * (bytes[2] as int) + 0x100_0000 * (
    bytes[3] as int)) as u32
}

/// The four bytes that store `value`, least significant byte first.
pub open spec fn le_bytes(value: u32) -> Seq<u8> {
    seq![
        (value as int % 0x100) as u8,
        (value as int / 0x100 % 0x100) as u8,
        (value as int / 0x1_0000 % 0x100) as u8,
        (value as int / 0x100_0000) as u8,
    ]
}

/// The word stored at byte offset `at` of `bytes`.
pub open spec fn word_at(bytes: Seq<u8>, at: int) -> u32
    recommends
        0 <= at,
        at + 4 <= bytes.len(),
{
    le_u32(bytes.subrange(at, at + 4))
}

/// Reading back the bytes of a word gives the word.
pub proof fn lemma_le_u32_of_le_bytes(value: u32)
    ensures
        le_bytes(value).len() == 4,
        le_u32(le_bytes(value)) == value,
{
}

/// `bytes::Buf::get_u32_le` on a byte slice: the first four bytes of the
/// slice, read as a little-endian number. The call panics on a slice shorter
/// than four bytes, which the precondition excludes; the position that the
/// call advances is the local cursor's and is dropped with it.
#[verifier::external_body]
pub(crate) fn get_u32_le(src: &[u8]) -> (value: u32)
    requires
        src@.len() >= 4,
    ensures
        value == le_u32(src@.subrange(0, 4)),
{
    let mut cursor: &[u8] = src;
    bytes::Buf::get_u32_le(&mut cursor)
}

/// Reads the word stored at byte offset `at` of `input`.
pub fn read_word(input: &[u8], at: usize) -> (value: u32)
    requires
        at + 4 <= input.len(),
    ensures
        value == word_at(input@, at as int),
{
    let field: &[u8] = slice_subrange(input, at, at + 4);
    assert(field@.subrange(0, 4) =~= field@);
    get_u32_le(field)
}

} // verus!
