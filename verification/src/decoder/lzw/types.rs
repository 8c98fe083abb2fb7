use super::errors::CodeParseError;
use crate::power::pow2_u16;
use vstd::arithmetic::power2::{lemma2_to64, lemma_pow2_strictly_increases, pow2};
use vstd::prelude::*;

verus! {

/// The two control codes of a GIF code stream.
#[derive(Debug, PartialEq, Eq, Clone, Copy, Structural)]
pub enum SpecialCode {
    ClearCodeInv,
    EoiCodeInv,
}

/// A code of the initial alphabet: a colour index or a control code.
#[derive(Debug, PartialEq, Eq, Clone, Copy, Structural)]
pub enum Code {
    Entry(u8),
    ControlCode(SpecialCode),
}

/// One slot of the dictionary: the index sequence it stands for, or a
/// control code.
#[derive(Debug, PartialEq, Clone)]
pub enum InvCode {
    CodeList(Vec<Code>),
    ControlCode(SpecialCode),
}

pub type InvCodeTable = Vec<InvCode>;

/// The indices that a list of codes stands for.
pub open spec fn code_indices(codes: Seq<Code>) -> Seq<u8> {
    Seq::new(
        codes.len(),
        |i: int|
            match codes[i] {
                Code::Entry(index) => index,
                Code::ControlCode(_) => 0u8,
            },
    )
}

/// No code of the list is a control code.
pub open spec fn all_entries(codes: Seq<Code>) -> bool {
    forall|i: int| 0 <= i < codes.len() ==> #[trigger] codes[i] is Entry
}

/// Slot `i` of a table for minimum code size `m` holds `entry`: the two
/// reserved slots hold their control codes, every other slot the codes of
/// its index sequence.
pub open spec fn slot_models(slot: InvCode, i: int, m: nat, entry: Seq<u8>) -> bool {
    if i == clear_code(m) {
        slot matches InvCode::ControlCode(c) && c == SpecialCode::ClearCodeInv
    } else if i == end_code(m) {
        slot matches InvCode::ControlCode(c) && c == SpecialCode::EoiCodeInv
    } else {
        slot matches InvCode::CodeList(codes) && all_entries(codes@) && code_indices(codes@)
            == entry
    }
}

/// The table holds the dictionary `dict`, slot by slot.
pub open spec fn table_models(table: Seq<InvCode>, m: nat, dict: Seq<Seq<u8>>) -> bool {
    &&& table.len() == dict.len()
    &&& forall|i: int| 0 <= i < table.len() ==> slot_models(#[trigger] table[i], i, m, dict[i])
}

/// The clear code for minimum code size `m`.
pub open spec fn clear_code(m: nat) -> nat {
    pow2(m)
}

/// The end-of-information code for minimum code size `m`.
pub open spec fn end_code(m: nat) -> nat {
    pow2(m) + 1
}

/// What a raw value means with minimum code size `m`.
pub open spec fn classify(value: u16, m: u8) -> Result<Code, CodeParseError> {
    if m < 2 || m > 8 {
        Err(CodeParseError::MinCodeSizeInvalid(m))
    } else if value == clear_code(m as nat) {
        Ok(Code::ControlCode(SpecialCode::ClearCodeInv))
    } else if value == end_code(m as nat) {
        Ok(Code::ControlCode(SpecialCode::EoiCodeInv))
    } else if value > end_code(m as nat) {
        Err(CodeParseError::CodeTooBig(value, m))
    } else {
        Ok(Code::Entry(value as u8))
    }
}

impl Code {
    /// Classifies `value` for minimum code size `minimum_code_size`.
    pub fn from(value: u16, minimum_code_size: u8) -> (res: Result<Self, CodeParseError>)
        ensures
            res == classify(value, minimum_code_size),
    {
        if minimum_code_size < 2 || minimum_code_size > 8 {
            return Err(CodeParseError::MinCodeSizeInvalid(minimum_code_size));
        }
        let clear_code: u16 = pow2_u16(minimum_code_size);
        proof {
            lemma_pow2_strictly_increases(minimum_code_size as nat, 9);
            lemma2_to64();
        }
        let eoi_code: u16 = clear_code + 1;
        if value == clear_code {
            Ok(Code::ControlCode(SpecialCode::ClearCodeInv))
        } else if value == eoi_code {
            Ok(Code::ControlCode(SpecialCode::EoiCodeInv))
        } else if value > eoi_code {
            Err(CodeParseError::CodeTooBig(value, minimum_code_size))
        } else {
            Ok(Code::Entry(value as u8))
        }
    }
}

} // verus!
