//! The LZW decompressor of GIF image data: variable-width codes, read the
//! low bit first, against a dictionary that grows as they are read.

pub mod bits;
pub mod errors;
pub mod laws;
pub mod lemmas;
pub mod model;
pub mod types;

pub use errors::{CodeParseError, DecompressError};
pub use types::{Code, InvCode, InvCodeTable, SpecialCode};

use crate::power::pow2_u16;
use bits::{new_reader, read_bits, unread_bits};
use bitter::LittleEndianReader;
use lemmas::{
    lemma_bits_value_bound, lemma_fresh_states_wf, lemma_initial_width, lemma_pow2_monotonic,
    lemma_step_preserves_wf,
};
use model::{
    awaiting_state, decode_from, initial_dictionary, spec_decompress, step, wf, DecoderState,
    Phase, MAX_CODE_SIZE, MAX_TABLE_LEN,
};
use types::{all_entries, clear_code, code_indices, end_code, slot_models, table_models};
use vstd::arithmetic::power2::{lemma2_to64, lemma_pow2_unfold, pow2};
use vstd::pervasive::unreached;
use vstd::prelude::*;

verus! {

/// The table that decoding starts from, and starts from again after a clear
/// code.
pub fn create_inverse_code_table(minimum_code_size: u8) -> (ret: InvCodeTable)
    requires
        2 <= minimum_code_size <= 8,
    ensures
        table_models(
            ret@,
            minimum_code_size as nat,
            initial_dictionary(minimum_code_size as nat),
        ),
{
    let ghost m = minimum_code_size as nat;
    let mut ret: Vec<InvCode> = Vec::new();
    let alphabet: u16 = pow2_u16(minimum_code_size);
    proof {
        lemma_initial_width(m);
    }
    let mut i: u16 = 0;
    while i < alphabet
        invariant
            2 <= minimum_code_size <= 8,
            m == minimum_code_size,
            alphabet == pow2(m),
            alphabet <= 256,
            i <= alphabet,
            ret@.len() == i,
            forall|j: int|
                0 <= j < i ==> (#[trigger] ret@[j] matches InvCode::CodeList(codes) && codes@
                    == seq![Code::Entry(j as u8)]),
        decreases alphabet - i,
    {
        let code = Code::from(i, minimum_code_size).unwrap();
        let mut codes: Vec<Code> = Vec::new();
        codes.push(code);
        ret.push(InvCode::CodeList(codes));
        i = i + 1;
    }
    ret.push(InvCode::ControlCode(SpecialCode::ClearCodeInv));
    ret.push(InvCode::ControlCode(SpecialCode::EoiCodeInv));
    proof {
        let dict = initial_dictionary(m);
        assert forall|j: int| 0 <= j < ret@.len() implies slot_models(
            #[trigger] ret@[j],
            j,
            m,
            dict[j],
        ) by {
            if j < alphabet {
                let codes = ret@[j]->CodeList_0;
                assert(codes@[0] is Entry);
                assert(code_indices(codes@) =~= seq![j as u8]);
            }
        }
    }
    ret
}

/// The indices of a list of codes that holds no control code.
pub fn lift_code_to_u8(codes: &Vec<Code>) -> (ret: Vec<&u8>)
    requires
        all_entries(codes@),
    ensures
        ret@.len() == codes@.len(),
        forall|i: int| 0 <= i < ret@.len() ==> *#[trigger] ret@[i] == code_indices(codes@)[i],
{
    let mut ret: Vec<&u8> = Vec::new();
    let mut i: usize = 0;
    while i < codes.len()
        invariant
            all_entries(codes@),
            i <= codes@.len(),
            ret@.len() == i,
            forall|j: int| 0 <= j < i ==> *#[trigger] ret@[j] == code_indices(codes@)[j],
        decreases codes@.len() - i,
    {
        assert(codes@[i as int] is Entry);
        match &codes[i] {
            Code::Entry(val) => {
                ret.push(val);
            },
            Code::ControlCode(_) => {
                unreached::<()>();
            },
        }
        i = i + 1;
    }
    ret
}

/// Appends the index sequence of slot `key` to `out` and returns its first
/// index.
fn emit_entry(table: &Vec<InvCode>, key: usize, out: &mut Vec<u8>) -> (first: u8)
    requires
        key < table@.len(),
        table@[key as int] matches InvCode::CodeList(codes) && all_entries(codes@) && codes@.len()
            > 0,
    ensures
        final(out)@ == old(out)@ + code_indices(table@[key as int]->CodeList_0@),
        first == code_indices(table@[key as int]->CodeList_0@)[0],
{
    match &table[key] {
        InvCode::CodeList(codes) => {
            let indices: Vec<&u8> = lift_code_to_u8(codes);
            let first: u8 = *indices[0];
            let mut i: usize = 0;
            while i < indices.len()
                invariant
                    i <= indices@.len(),
                    indices@.len() == codes@.len(),
                    forall|j: int|
                        0 <= j < indices@.len() ==> *#[trigger] indices@[j] == code_indices(
                            codes@,
                        )[j],
                    out@ == old(out)@ + code_indices(codes@).take(i as int),
                decreases indices@.len() - i,
            {
                out.push(*indices[i]);
                i = i + 1;
            }
            assert(code_indices(codes@).take(i as int) =~= code_indices(codes@));
            first
        },
        InvCode::ControlCode(_) => unreached(),
    }
}

/// The codes of slot `key`, followed by the code for `last`.
fn extended_entry(table: &Vec<InvCode>, key: usize, last: u8) -> (entry: Vec<Code>)
    requires
        key < table@.len(),
        table@[key as int] matches InvCode::CodeList(codes) && all_entries(codes@),
    ensures
        all_entries(entry@),
        code_indices(entry@) == code_indices(table@[key as int]->CodeList_0@).push(last),
{
    match &table[key] {
        InvCode::CodeList(codes) => {
            let mut entry: Vec<Code> = Vec::new();
            let mut i: usize = 0;
            while i < codes.len()
                invariant
                    i <= codes@.len(),
                    entry@ == codes@.take(i as int),
                decreases codes@.len() - i,
            {
                entry.push(codes[i]);
                i = i + 1;
            }
            entry.push(Code::Entry(last));
            assert(codes@.take(i as int) =~= codes@);
            assert(code_indices(entry@) =~= code_indices(codes@).push(last));
            entry
        },
        InvCode::ControlCode(_) => unreached(),
    }
}

/// Reads the code that is due after a clear code, and emits it.
fn read_first_data(
    code_stream: &mut LittleEndianReader<'_>,
    minimum_code_size: u8,
    index_stream: &mut Vec<u8>,
    Ghost(st): Ghost<DecoderState>,
) -> (res: Result<u16, DecompressError>)
    requires
        2 <= minimum_code_size <= 8,
        st.phase is AwaitingFirstData,
        st.width == minimum_code_size + 1,
        st.output == old(index_stream)@,
    ensures
        match res {
            Ok(code_key) => {
                let next = DecoderState {
                    phase: Phase::Running,
                    prev: code_key as nat,
                    output: final(index_stream)@,
                    ..st
                };
                &&& code_key < pow2(minimum_code_size as nat)
                &&& step(
                    minimum_code_size as nat,
                    st,
                    code_key as nat,
                ) == Ok::<DecoderState, DecompressError>(next)
                &&& decode_from(
                    minimum_code_size as nat,
                    st,
                    unread_bits(*old(code_stream)),
                ) == decode_from(minimum_code_size as nat, next, unread_bits(*final(code_stream)))
                &&& unread_bits(*final(code_stream)).len() < unread_bits(*old(code_stream)).len()
            },
            Err(e) => decode_from(minimum_code_size as nat, st, unread_bits(*old(code_stream)))
                == Err::<Seq<u8>, DecompressError>(e),
        },
{
    let alphabet: u16 = pow2_u16(minimum_code_size);
    proof {
        lemma_initial_width(minimum_code_size as nat);
    }
    match read_bits(code_stream, minimum_code_size as u32 + 1) {
        None => Err(DecompressError::Truncated),
        Some(code_key) => {
            if code_key < alphabet {
                index_stream.push(code_key as u8);
                Ok(code_key)
            } else {
                Err(DecompressError::FirstDataNotEntry)
            }
        },
    }
}

/// Decompresses the code stream `compressed_data`, whose alphabet has
/// `2^minimum_code_size` indices, into its index stream.
pub fn decompress(compressed_data: Vec<u8>, minimum_code_size: u8) -> (res: Result<
    Vec<u8>,
    DecompressError,
>)
    ensures
        match res {
            Ok(indices) => spec_decompress(compressed_data@, minimum_code_size) == Ok::<
                Seq<u8>,
                DecompressError,
            >(indices@),
            Err(e) => spec_decompress(compressed_data@, minimum_code_size) == Err::<
                Seq<u8>,
                DecompressError,
            >(e),
        },
{
    if minimum_code_size < 2 || minimum_code_size > 8 {
        return Err(DecompressError::MinCodeSizeInvalid(minimum_code_size));
    }
    let ghost m = minimum_code_size as nat;
    let ghost total = spec_decompress(compressed_data@, minimum_code_size);
    let mut inv_code_table = create_inverse_code_table(minimum_code_size);
    let clear_key: u16 = pow2_u16(minimum_code_size);
    proof {
        lemma_initial_width(m);
        lemma_fresh_states_wf(m, Seq::empty());
        lemma_pow2_unfold(m + 1);
    }
    let eoi_key: u16 = clear_key + 1;
    let mut cur_code_size: u32 = (minimum_code_size as u32) + 1;
    let mut next_bump: usize = 2 * (clear_key as usize);
    let mut index_stream: Vec<u8> = Vec::new();
    let mut code_stream = new_reader(compressed_data.as_slice());

    // The stream opens with a clear code.
    let code_key = match read_bits(&mut code_stream, cur_code_size) {
        Some(code_key) => code_key,
        None => {
            return Err(DecompressError::Truncated);
        },
    };
    if code_key != clear_key {
        return Err(DecompressError::MissingClear);
    }
    let ghost mut st = awaiting_state(m, Seq::empty());
    let mut prev_code_key: u16 = match read_first_data(
        &mut code_stream,
        minimum_code_size,
        &mut index_stream,
        Ghost(st),
    ) {
        Ok(code_key) => code_key,
        Err(e) => {
            return Err(e);
        },
    };
    proof {
        lemma_step_preserves_wf(m, st, prev_code_key as nat);
        st = DecoderState {
            phase: Phase::Running,
            prev: prev_code_key as nat,
            output: index_stream@,
            ..st
        };
    }

    loop
        invariant
            2 <= minimum_code_size <= 8,
            m == minimum_code_size,
            clear_key == clear_code(m),
            eoi_key == end_code(m),
            wf(m, st),
            st.phase is Running,
            table_models(inv_code_table@, m, st.dict),
            cur_code_size == st.width,
            next_bump == pow2(st.width),
            prev_code_key == st.prev,
            index_stream@ == st.output,
            total == spec_decompress(compressed_data@, minimum_code_size),
            total == decode_from(m, st, unread_bits(code_stream)),
        decreases unread_bits(code_stream).len(),
    {
        proof {
            lemma_initial_width(m);
            lemma_pow2_monotonic(st.width, 12);
            lemma2_to64();
        }
        let ghost bits = unread_bits(code_stream);
        let code_key = match read_bits(&mut code_stream, cur_code_size) {
            Some(code_key) => code_key,
            None => {
                return Err(DecompressError::Truncated);
            },
        };
        proof {
            lemma_bits_value_bound(bits.take(st.width as int));
            if step(m, st, code_key as nat) is Ok {
                lemma_step_preserves_wf(m, st, code_key as nat);
            }
        }
        if code_key == eoi_key {
            proof {
                let done = DecoderState { phase: Phase::Done, ..st };
                assert(decode_from(m, done, unread_bits(code_stream)) == Ok::<
                    Seq<u8>,
                    DecompressError,
                >(st.output));
            }
            return Ok(index_stream);
        }
        if code_key == clear_key {
            inv_code_table = create_inverse_code_table(minimum_code_size);
            cur_code_size = (minimum_code_size as u32) + 1;
            next_bump = 2 * (clear_key as usize);
            proof {
                lemma_pow2_unfold(m + 1);
                st = awaiting_state(m, st.output);
            }
            prev_code_key = match read_first_data(
                &mut code_stream,
                minimum_code_size,
                &mut index_stream,
                Ghost(st),
            ) {
                Ok(code_key) => code_key,
                Err(e) => {
                    return Err(e);
                },
            };
            proof {
                lemma_step_preserves_wf(m, st, prev_code_key as nat);
                st = DecoderState {
                    phase: Phase::Running,
                    prev: prev_code_key as nat,
                    output: index_stream@,
                    ..st
                };
            }
            continue;
        }
        let len = inv_code_table.len();
        if code_key as usize > len {
            return Err(DecompressError::CodeOutOfRange { code: code_key, dict_len: len as u16 });
        }
        proof {
            assert(slot_models(
                inv_code_table@[prev_code_key as int],
                prev_code_key as int,
                m,
                st.dict[prev_code_key as int],
            ));
            if code_key < len {
                assert(slot_models(
                    inv_code_table@[code_key as int],
                    code_key as int,
                    m,
                    st.dict[code_key as int],
                ));
            }
        }
        let k: u8 = if (code_key as usize) < len {
            emit_entry(&inv_code_table, code_key as usize, &mut index_stream)
        } else {
            let k = emit_entry(&inv_code_table, prev_code_key as usize, &mut index_stream);
            index_stream.push(k);
            k
        };
        let ghost next = step(m, st, code_key as nat)->Ok_0;
        let ghost table_before = inv_code_table@;
        if len < MAX_TABLE_LEN {
            let entry = extended_entry(&inv_code_table, prev_code_key as usize, k);
            inv_code_table.push(InvCode::CodeList(entry));
            if inv_code_table.len() == next_bump && cur_code_size < MAX_CODE_SIZE {
                proof {
                    lemma_pow2_unfold(st.width + 1);
                }
                cur_code_size += 1;
                next_bump = next_bump * 2;
            }
        }
        prev_code_key = code_key;
        proof {
            assert(index_stream@ =~= next.output);
            assert(table_models(inv_code_table@, m, next.dict)) by {
                assert forall|i: int| 0 <= i < inv_code_table@.len() implies slot_models(
                    #[trigger] inv_code_table@[i],
                    i,
                    m,
                    next.dict[i],
                ) by {
                    if i < len {
                        assert(slot_models(table_before[i], i, m, st.dict[i]));
                    }
                }
            }
            st = next;
        }
    }
}

} // verus!
