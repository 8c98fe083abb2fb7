//! The mathematical model of the decompressor: a state machine over codes,
//! and its run over a sequence of bits.

use super::bits::{bits_of, bits_value};
use super::errors::DecompressError;
use super::types::{clear_code, end_code};
use vstd::arithmetic::power2::pow2;
use vstd::prelude::*;

verus! {

/// The widest code, in bits.
pub const MAX_CODE_SIZE: u32 = 12;

/// The largest number of dictionary slots.
pub const MAX_TABLE_LEN: usize = 4096;

/// Where the decoder stands in a code stream.
pub enum Phase {
    /// Nothing has been read; the clear code is due.
    Start,
    /// A clear code has just been read; a code of the initial alphabet is due.
    AwaitingFirstData,
    /// At least one index has been emitted since the last clear code.
    Running,
    /// The end-of-information code has been read.
    Done,
}

/// The whole state of the decoder between two codes.
pub struct DecoderState {
    pub phase: Phase,
    /// The index sequence of every slot; the two reserved slots are empty.
    pub dict: Seq<Seq<u8>>,
    /// The number of bits of the next code.
    pub width: nat,
    /// The code read last, while `Running`.
    pub prev: nat,
    /// The indices emitted so far.
    pub output: Seq<u8>,
}

/// The dictionary after a clear code: a singleton for each index of the
/// alphabet, then the two reserved slots.
pub open spec fn initial_dictionary(m: nat) -> Seq<Seq<u8>> {
    Seq::new(
        pow2(m) + 2,
        |i: int|
            if i < pow2(m) {
                seq![i as u8]
            } else {
                Seq::empty()
            },
    )
}

/// The state in which a code of the initial alphabet is due, with `output`
/// emitted so far.
pub open spec fn awaiting_state(m: nat, output: Seq<u8>) -> DecoderState {
    DecoderState {
        phase: Phase::AwaitingFirstData,
        dict: initial_dictionary(m),
        width: m + 1,
        prev: 0,
        output,
    }
}

/// The state before the first code.
pub open spec fn initial_state(m: nat) -> DecoderState {
    DecoderState { phase: Phase::Start, ..awaiting_state(m, Seq::empty()) }
}

/// The dictionary with `entry` appended, unless it is full.
pub open spec fn grow(dict: Seq<Seq<u8>>, entry: Seq<u8>) -> Seq<Seq<u8>> {
    if dict.len() < MAX_TABLE_LEN {
        dict.push(entry)
    } else {
        dict
    }
}

/// The width after an append that left `len` slots: one more once the slots
/// have used up every code of the present width, and never above twelve.
pub open spec fn next_width(width: nat, len: nat) -> nat {
    if len == pow2(width) && width < MAX_CODE_SIZE {
        width + 1
    } else {
        width
    }
}

/// What the decoder does with one code.
///
/// A code equal to the length of a full dictionary cannot be written in
/// twelve bits; it counts as out of range.
pub open spec fn step(m: nat, st: DecoderState, code: nat) -> Result<
    DecoderState,
    DecompressError,
> {
    match st.phase {
        Phase::Start => if code == clear_code(m) {
            Ok(DecoderState { phase: Phase::AwaitingFirstData, ..st })
        } else {
            Err(DecompressError::MissingClear)
        },
        Phase::AwaitingFirstData => if code < pow2(m) {
            Ok(
                DecoderState {
                    phase: Phase::Running,
                    prev: code,
                    output: st.output.push(code as u8),
                    ..st
                },
            )
        } else {
            Err(DecompressError::FirstDataNotEntry)
        },
        Phase::Running => if code == end_code(m) {
            Ok(DecoderState { phase: Phase::Done, ..st })
        } else if code == clear_code(m) {
            Ok(awaiting_state(m, st.output))
        } else if code < st.dict.len() || (code == st.dict.len() && code < MAX_TABLE_LEN) {
            let before = st.dict[st.prev as int];
            let emitted = if code < st.dict.len() {
                st.dict[code as int]
            } else {
                before.push(before[0])
            };
            let dict = grow(st.dict, before.push(emitted[0]));
            Ok(
                DecoderState {
                    phase: Phase::Running,
                    dict,
                    width: next_width(st.width, dict.len()),
                    prev: code,
                    output: st.output + emitted,
                },
            )
        } else {
            Err(
                DecompressError::CodeOutOfRange {
                    code: code as u16,
                    dict_len: st.dict.len() as u16,
                },
            )
        },
        Phase::Done => Ok(st),
    }
}

/// The outcome of decoding `bits` from state `st`: codes are read at the
/// width of the state until the end-of-information code; what follows it is
/// not looked at. A state of width zero, which no run reaches, reads nothing
/// and counts as cut short.
pub open spec fn decode_from(m: nat, st: DecoderState, bits: Seq<bool>) -> Result<
    Seq<u8>,
    DecompressError,
>
    decreases bits.len(),
{
    if st.phase is Done {
        Ok(st.output)
    } else if bits.len() < st.width || st.width == 0 {
        Err(DecompressError::Truncated)
    } else {
        match step(m, st, bits_value(bits.take(st.width as int))) {
            Err(e) => Err(e),
            Ok(next) => decode_from(m, next, bits.skip(st.width as int)),
        }
    }
}

/// The codes that decoding `bits` from state `st` reads, up to and with the
/// one at which it ends or fails.
pub open spec fn codes_read(m: nat, st: DecoderState, bits: Seq<bool>) -> Seq<nat>
    decreases bits.len(),
{
    if st.phase is Done || bits.len() < st.width || st.width == 0 {
        Seq::empty()
    } else {
        let code = bits_value(bits.take(st.width as int));
        match step(m, st, code) {
            Err(_) => seq![code],
            Ok(next) => seq![code] + codes_read(m, next, bits.skip(st.width as int)),
        }
    }
}

/// The state after the codes `codes`, one after the other, from state `st`.
pub open spec fn run(m: nat, st: DecoderState, codes: Seq<nat>) -> Result<
    DecoderState,
    DecompressError,
>
    decreases codes.len(),
{
    if codes.len() == 0 {
        Ok(st)
    } else {
        match step(m, st, codes[0]) {
            Err(e) => Err(e),
            Ok(next) => run(m, next, codes.skip(1)),
        }
    }
}

/// The `width` bits that spell `value`, the bit that weighs least first.
pub open spec fn code_bits(value: nat, width: nat) -> Seq<bool> {
    Seq::new(width, |k: int| (value / pow2(k as nat)) % 2 == 1)
}

/// The code stream of the one-index message `index`: the clear code, the
/// index, the end-of-information code, each in `m + 1` bits.
pub open spec fn singleton_stream(m: nat, index: u8) -> Seq<bool> {
    code_bits(clear_code(m), m + 1) + code_bits(index as nat, m + 1) + code_bits(
        end_code(m),
        m + 1,
    )
}

/// The index stream that `data` decompresses to with minimum code size `m`,
/// or the reason why it does not.
pub open spec fn spec_decompress(data: Seq<u8>, m: u8) -> Result<Seq<u8>, DecompressError> {
    if m < 2 || m > 8 {
        Err(DecompressError::MinCodeSizeInvalid(m))
    } else {
        decode_from(m as nat, initial_state(m as nat), bits_of(data))
    }
}

/// The number of bits that it takes to write `n`: the least `w` with
/// `n < 2^w`.
pub open spec fn bits_needed(n: nat) -> nat
    decreases n,
{
    if n == 0 {
        0
    } else {
        1 + bits_needed(n / 2)
    }
}

/// The code width that goes with a dictionary of `len` slots.
pub open spec fn code_width(len: nat) -> nat {
    if bits_needed(len) < MAX_CODE_SIZE {
        bits_needed(len)
    } else {
        MAX_CODE_SIZE as nat
    }
}

/// What holds of every state that the decoder reaches.
pub open spec fn wf(m: nat, st: DecoderState) -> bool {
    &&& 2 <= m <= 8
    &&& pow2(m) + 2 <= st.dict.len() <= MAX_TABLE_LEN
    &&& st.width == code_width(st.dict.len())
    &&& forall|i: int| 0 <= i < pow2(m) ==> #[trigger] st.dict[i] == seq![i as u8]
    &&& forall|i: int| pow2(m) + 2 <= i < st.dict.len() ==> (#[trigger] st.dict[i]).len() > 0
    &&& st.phase is Running ==> st.prev < st.dict.len() && st.prev != clear_code(m) && st.prev
        != end_code(m)
    &&& (st.phase is Start || st.phase is AwaitingFirstData) ==> st.dict == initial_dictionary(m)
}

} // verus!
