//! The command line's arguments as plain values, and the flash window that
//! they name.

use crate::Params;
use vstd::prelude::*;
use vstd::string::StringSliceAdditionalSpecFns;
use vstd::utf8::encode_utf8;

verus! {

/// The arguments of one run, as they were typed.
#[derive(Debug)]
pub struct Cli {
    /// Flash size in bytes, in hexadecimal.
    pub flash_size: String,
    /// The path of the UF2 file.
    pub path: String,
    /// Flash start address, in hexadecimal; zero where it is left out.
    pub start_addr: Option<String>,
}

/// Which argument is not a hexadecimal number that starts with `0x`.
#[derive(Debug, Clone, Copy, PartialEq, Eq, Structural)]
pub enum ParamError {
    /// The flash size.
    FlashSize,
    /// The start address.
    StartAddr,
}

/// The value of one hexadecimal digit, in either case.
pub open spec fn digit_value(byte: u8) -> Option<u8> {
    if 0x30 <= byte <= 0x39 {
        Some((byte - 0x30) as u8)
    } else if 0x61 <= byte <= 0x66 {
        Some((byte - 0x61 + 10) as u8)
    } else if 0x41 <= byte <= 0x46 {
        Some((byte - 0x41 + 10) as u8)
    } else {
        None
    }
}

/// Whether every byte is a hexadecimal digit.
pub open spec fn all_hex_digits(digits: Seq<u8>) -> bool {
    forall|i: int| 0 <= i < digits.len() ==> digit_value(#[trigger] digits[i]) is Some
}

/// The number that a run of hexadecimal digits stands for, most significant
/// digit first. A byte that is no digit counts as zero.
pub open spec fn hex_value(digits: Seq<u8>) -> nat
    decreases digits.len(),
{
    if digits.len() == 0 {
        0
    } else {
        16 * hex_value(digits.drop_last()) + match digit_value(digits.last()) {
            Some(value) => value as nat,
            None => 0,
        }
    }
}

/// The digits of a hexadecimal argument: what follows the `0x`, without one
/// leading plus sign.
pub open spec fn hex_digits(text: Seq<u8>) -> Seq<u8> {
    if text.len() > 2 && text[2] == 0x2B {
        text.skip(3)
    } else {
        text.skip(2)
    }
}

/// What a hexadecimal argument stands for: the text is `0x`, then at most one
/// plus sign, then at least one hexadecimal digit, and the number fits in 32
/// bits. Anything else stands for nothing.
pub open spec fn hexstring_outcome(text: Seq<u8>) -> Option<u32> {
    if text.len() >= 2 && text[0] == 0x30 && text[1] == 0x78 && hex_digits(text).len() > 0
        && all_hex_digits(hex_digits(text)) && hex_value(hex_digits(text)) <= u32::MAX {
        Some(hex_value(hex_digits(text)) as u32)
    } else {
        None
    }
}

/// What the arguments configure: the flash size and the start address, or
/// the first of the two that is malformed.
pub open spec fn params_outcome(flash_size: Seq<u8>, start_addr: Option<Seq<u8>>) -> Result<
    (u32, u32),
    ParamError,
> {
    match hexstring_outcome(flash_size) {
        None => Err(ParamError::FlashSize),
        Some(size) => match start_addr {
            None => Ok((size, 0u32)),
            Some(text) => match hexstring_outcome(text) {
                None => Err(ParamError::StartAddr),
                Some(start) => Ok((size, start)),
            },
        },
    }
}

/// A longer run of digits stands for no smaller a number than its beginning.
proof fn lemma_hex_value_grows(digits: Seq<u8>, count: int)
    requires
        0 <= count <= digits.len(),
    ensures
        hex_value(digits.take(count)) <= hex_value(digits),
    decreases digits.len(),
{
    if count == digits.len() {
        assert(digits.take(count) =~= digits);
    } else {
        assert(digits.drop_last().take(count) =~= digits.take(count));
        lemma_hex_value_grows(digits.drop_last(), count);
    }
}

/// The value of the hexadecimal digit `byte`, if it is one.
fn hex_digit(byte: u8) -> (value: Option<u8>)
    ensures
        value == digit_value(byte),
{
    if 0x30 <= byte && byte <= 0x39 {
        Some(byte - 0x30)
    } else if 0x61 <= byte && byte <= 0x66 {
        Some(byte - 0x61 + 10)
    } else if 0x41 <= byte && byte <= 0x46 {
        Some(byte - 0x41 + 10)
    } else {
        None
    }
}

/// Reads a hexadecimal number that starts with `0x`.
pub fn hexstring(s: &str) -> (value: Option<u32>)
    ensures
        value == hexstring_outcome(s.spec_bytes()),
{
    let text: &[u8] = s.as_bytes();
    let len: usize = text.len();
    if len < 2 || text[0] != 0x30 || text[1] != 0x78 {
        return None;
    }
    let start: usize = if len > 2 && text[2] == 0x2B {
        3
    } else {
        2
    };
    if start == len {
        return None;
    }
    let ghost digits = hex_digits(text@);
    let mut total: u64 = 0;
    let mut i: usize = start;
    while i < len
        invariant
            start <= i <= len,
            len == text@.len(),
            2 <= start <= 3,
            text@ == s.spec_bytes(),
            digits == hex_digits(text@),
            digits == text@.skip(start as int),
            all_hex_digits(digits.take(i - start)),
            total == hex_value(digits.take(i - start)),
            total <= u32::MAX,
        decreases len - i,
    {
        let ghost seen = digits.take(i - start + 1);
        assert(seen.drop_last() =~= digits.take(i - start));
        assert(seen.last() == text@[i as int]);
        match hex_digit(text[i]) {
            None => {
                assert(digits[i - start] == text@[i as int]);
                assert(!all_hex_digits(digits));
                return None;
            },
            Some(digit) => {
                total = total * 16 + digit as u64;
                if total > u32::MAX as u64 {
                    proof {
                        assert(total == hex_value(seen));
                        lemma_hex_value_grows(digits, i - start + 1);
                    }
                    return None;
                }
            },
        }
        i += 1;
    }
    assert(digits.take(i - start) =~= digits);
    Some(total as u32)
}

impl<T> Params<T> {
    /// The configuration that the arguments name, with `input_buf` as the
    /// source of the container's bytes. The flash size is read first; a
    /// start address that is left out is zero.
    pub fn from_cli(cli: &Cli, input_buf: T) -> (result: Result<Params<T>, ParamError>)
        ensures
            match result {
                Ok(params) => {
                    &&& params_outcome(
                        encode_utf8(cli.flash_size@),
                        match cli.start_addr {
                            Some(text) => Some(encode_utf8(text@)),
                            None => None,
                        },
                    ) == Ok::<(u32, u32), ParamError>((params.flash_size, params.start_addr))
                    &&& params.input_buf == input_buf
                },
                Err(error) => params_outcome(
                    encode_utf8(cli.flash_size@),
                    match cli.start_addr {
                        Some(text) => Some(encode_utf8(text@)),
                        None => None,
                    },
                ) == Err::<(u32, u32), ParamError>(error),
            },
    {
        let flash_size: u32 = match hexstring(cli.flash_size.as_str()) {
            Some(size) => size,
            None => {
                return Err(ParamError::FlashSize);
            },
        };
        let start_addr: u32 = match &cli.start_addr {
            Some(text) => match hexstring(text.as_str()) {
                Some(start) => start,
                None => {
                    return Err(ParamError::StartAddr);
                },
            },
            None => 0,
        };
        Ok(Params { flash_size, start_addr, input_buf })
    }
}

} // verus!
