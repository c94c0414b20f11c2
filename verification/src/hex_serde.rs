//! Reading the 16-bit identifiers that the configuration writes in hex.

use crate::text::{parse_number, read_number};
use vstd::prelude::*;
use vstd::string::StrSliceExecFns;

verus! {

/// Why a text is no hex identifier.
#[derive(Debug, Clone, Copy, PartialEq, Eq, Structural)]
pub enum HexError {
    /// The text does not start with `0x`.
    MissingPrefix,
    /// What follows `0x` is not one or more hex digits, or the number does
    /// not fit in 16 bits.
    BadNumber,
}

/// Whether the text starts with `0x`.
pub open spec fn has_hex_prefix(s: Seq<char>) -> bool {
    s.len() >= 2 && s[0] == '0' && s[1] == 'x'
}

/// What a text gives when read as a hex identifier: `0x`, then hex digits
/// of either case that write a number of at most 16 bits.
pub open spec fn hex_value(s: Seq<char>) -> Result<u16, HexError> {
    if !has_hex_prefix(s) {
        Err(HexError::MissingPrefix)
    } else {
        match parse_number(s.skip(2), 16, 0xffff) {
            Some(n) => Ok(n as u16),
            None => Err(HexError::BadNumber),
        }
    }
}

impl HexError {
    /// The error as a sentence.
    pub fn message(&self) -> (text: &'static str)
        ensures
            text@ == match self {
                HexError::MissingPrefix => "expected a hex string starting with '0x'"@,
                HexError::BadNumber => "expected hex digits that fit in 16 bits after '0x'"@,
            },
    {
        match self {
            HexError::MissingPrefix => "expected a hex string starting with '0x'",
            HexError::BadNumber => "expected hex digits that fit in 16 bits after '0x'",
        }
    }
}

/// Reads a vendor or product identifier as the configuration writes it.
pub fn deserialize(s: &str) -> (value: Result<u16, HexError>)
    ensures
        value == hex_value(s@),
{
    let n = s.unicode_len();
    if n < 2 || s.get_char(0) != '0' || s.get_char(1) != 'x' {
        return Err(HexError::MissingPrefix);
    }
    let digits = s.substring_char(2, n);
    assert(digits@ =~= s@.skip(2));
    match read_number(digits, 16, 0xffff) {
        Some(number) => Ok(number as u16),
        None => Err(HexError::BadNumber),
    }
}

} // verus!
