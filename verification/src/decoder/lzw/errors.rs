use crate::power::pow2_u16;
use crate::text::{append_decimal, decimal};
use vstd::arithmetic::power2::pow2;
use vstd::prelude::*;
use vstd::string::StringExecFns;

verus! {

/// Why a raw value could not be classified as a code of the initial alphabet.
#[derive(Debug, PartialEq, Eq, Clone, Copy, Structural)]
pub enum CodeParseError {
    /// The value lies above the end-of-information code; holds the value and
    /// the minimum code size.
    CodeTooBig(u16, u8),
    /// The minimum code size lies outside 2..=8.
    MinCodeSizeInvalid(u8),
}

/// What a `CodeParseError` says in words.
pub open spec fn code_parse_error_message(error: CodeParseError) -> Seq<char> {
    match error {
        CodeParseError::CodeTooBig(value, m) => "LZW Code too big! Max is "@ + decimal(
            pow2(m as nat),
        ) + " and entered is "@ + decimal(value as nat) + "!"@,
        CodeParseError::MinCodeSizeInvalid(m) => "LZW Min Code Size of "@ + decimal(m as nat)
            + " is invalid! Only 2 to 8 inclusive is allowed!"@,
    }
}

impl CodeParseError {
    /// The error in words. The largest code is written as a 16-bit number,
    /// so the minimum code size of a `CodeTooBig` must be below 16.
    pub fn message(&self) -> (text: String)
        requires
            self matches CodeParseError::CodeTooBig(_, m) ==> m < 16,
        ensures
            text@ == code_parse_error_message(*self),
    {
        let mut text = String::new();
        match self {
            CodeParseError::CodeTooBig(value, min_code_size) => {
                let max = pow2_u16(*min_code_size);
                text.append("LZW Code too big! Max is ");
                append_decimal(&mut text, max);
                text.append(" and entered is ");
                append_decimal(&mut text, *value);
                text.append("!");
                assert(text@ =~= code_parse_error_message(*self));
            },
            CodeParseError::MinCodeSizeInvalid(min_code_size) => {
                text.append("LZW Min Code Size of ");
                append_decimal(&mut text, *min_code_size as u16);
                text.append(" is invalid! Only 2 to 8 inclusive is allowed!");
                assert(text@ =~= code_parse_error_message(*self));
            },
        }
        text
    }
}

/// Why a compressed stream could not be decompressed.
#[derive(Debug, PartialEq, Eq, Clone, Copy, Structural)]
pub enum DecompressError {
    /// The stream ended before an end-of-information code was read.
    Truncated,
    /// The first code of the stream is not the clear code.
    MissingClear,
    /// The code that follows a clear code is not a code of the initial
    /// alphabet.
    FirstDataNotEntry,
    /// A code lies above the number of dictionary entries.
    CodeOutOfRange { code: u16, dict_len: u16 },
    /// The minimum code size lies outside 2..=8.
    MinCodeSizeInvalid(u8),
}

} // verus!
