//! What holds of the decompressor's model on every input.

use super::bits::{bits_of, bits_value};
use super::errors::DecompressError;
use super::lemmas::{
    lemma_fresh_states_wf, lemma_initial_width, lemma_pow2_monotonic, lemma_step_preserves_wf,
};
use super::model::{
    awaiting_state, bits_needed, code_bits, codes_read, decode_from, initial_state, run,
    singleton_stream, spec_decompress, step, wf, DecoderState, Phase, MAX_TABLE_LEN,
};
use super::types::{clear_code, end_code};
use vstd::arithmetic::div_mod::lemma_div_denominator;
use vstd::arithmetic::power2::{lemma2_to64, lemma_pow2_pos, lemma_pow2_unfold, pow2};
use vstd::prelude::*;

verus! {

/// Decoding bits is running the codes that they spell: where decoding
/// gives an index stream, the run of the codes read ends with the
/// end-of-information code and has emitted that stream; where decoding
/// fails for want of bits, the run has not ended; where it fails otherwise,
/// the run fails in the same way.
pub proof fn lemma_decoding_runs_the_codes(m: nat, st: DecoderState, bits: Seq<bool>)
    ensures
        match decode_from(m, st, bits) {
            Ok(output) => run(m, st, codes_read(m, st, bits)) matches Ok(end) && end.phase is Done
                && end.output == output,
            Err(DecompressError::Truncated) => run(m, st, codes_read(m, st, bits)) matches Ok(end)
                && !(end.phase is Done),
            Err(e) => run(m, st, codes_read(m, st, bits)) == Err::<
                DecoderState,
                DecompressError,
            >(e),
        },
    decreases bits.len(),
{
    if st.phase is Done || bits.len() < st.width || st.width == 0 {
    } else {
        let code = bits_value(bits.take(st.width as int));
        let codes = codes_read(m, st, bits);
        match step(m, st, code) {
            Err(e) => {
                assert(codes[0] == code);
                assert(!(e is Truncated));
            },
            Ok(next) => {
                let rest = bits.skip(st.width as int);
                lemma_decoding_runs_the_codes(m, next, rest);
                assert(codes[0] == code);
                assert(codes.skip(1) =~= codes_read(m, next, rest));
            },
        }
    }
}

/// The dictionary never shrinks but by a clear code: any other code leaves
/// every slot as it was and adds at most one.
pub proof fn lemma_dictionary_never_shrinks(m: nat, st: DecoderState, code: nat)
    requires
        wf(m, st),
        st.phase is Running,
        code != clear_code(m),
        step(m, st, code) is Ok,
    ensures
        ({
            let next = step(m, st, code)->Ok_0;
            &&& st.dict.len() <= next.dict.len() <= st.dict.len() + 1
            &&& st.dict.is_prefix_of(next.dict)
            &&& st.output.is_prefix_of(next.output)
        }),
{
    let next = step(m, st, code)->Ok_0;
    assert(st.dict =~= next.dict.subrange(0, st.dict.len() as int));
    assert(st.output =~= next.output.subrange(0, st.output.len() as int));
}

/// Every state that a run of codes reaches from a well-formed state is well
/// formed.
pub proof fn lemma_run_preserves_wf(m: nat, st: DecoderState, codes: Seq<nat>)
    requires
        wf(m, st),
        run(m, st, codes) is Ok,
    ensures
        wf(m, run(m, st, codes)->Ok_0),
    decreases codes.len(),
{
    if codes.len() > 0 {
        lemma_step_preserves_wf(m, st, codes[0]);
        lemma_run_preserves_wf(m, step(m, st, codes[0])->Ok_0, codes.skip(1));
    }
}

/// The width follows the dictionary: after any codes from the start of a
/// stream, the next code has as many bits as it takes to write the number of
/// dictionary slots, and never more than twelve. It has no fewer than
/// `m + 1`, and just `m + 1` when a clear code came last.
pub proof fn lemma_width_follows_dictionary(m: nat, codes: Seq<nat>)
    requires
        2 <= m <= 8,
        run(m, initial_state(m), codes) is Ok,
    ensures
        ({
            let st = run(m, initial_state(m), codes)->Ok_0;
            &&& st.width == if bits_needed(st.dict.len()) < 12 {
                bits_needed(st.dict.len())
            } else {
                12
            }
            &&& m + 1 <= st.width <= 12
            &&& st.phase is AwaitingFirstData ==> st.width == m + 1
        }),
{
    lemma_fresh_states_wf(m, Seq::empty());
    lemma_run_preserves_wf(m, initial_state(m), codes);
    let st = run(m, initial_state(m), codes)->Ok_0;
    lemma_initial_width(m);
    super::lemmas::lemma_code_width_range(st.dict.len());
    if st.width < m + 1 {
        lemma_pow2_monotonic(st.width, m);
    }
}

/// The dictionary grows by one slot with each code that is no control code,
/// until it is full: after a clear code, the code of the initial alphabet
/// that must follow it, and `codes.len()` further codes, none of them a
/// control code, it holds `2^m + 2 + codes.len()` slots, or 4096 if that is
/// fewer.
pub proof fn lemma_dictionary_growth(m: nat, output: Seq<u8>, first: nat, codes: Seq<nat>)
    requires
        2 <= m <= 8,
        forall|i: int|
            0 <= i < codes.len() ==> codes[i] != clear_code(m) && codes[i] != end_code(m),
        run(m, awaiting_state(m, output), seq![first] + codes) is Ok,
    ensures
        ({
            let st = run(m, awaiting_state(m, output), seq![first] + codes)->Ok_0;
            st.dict.len() == if pow2(m) + 2 + codes.len() < MAX_TABLE_LEN {
                pow2(m) + 2 + codes.len()
            } else {
                MAX_TABLE_LEN as nat
            }
        }),
{
    let start = awaiting_state(m, output);
    lemma_fresh_states_wf(m, output);
    lemma_initial_width(m);
    assert((seq![first] + codes).skip(1) =~= codes);
    let st = step(m, start, first)->Ok_0;
    lemma_step_preserves_wf(m, start, first);
    lemma_growth_while_running(m, st, codes);
}

/// From a running state, `codes.len()` codes that are no control codes add
/// as many slots, up to 4096.
pub proof fn lemma_growth_while_running(m: nat, st: DecoderState, codes: Seq<nat>)
    requires
        wf(m, st),
        st.phase is Running,
        forall|i: int|
            0 <= i < codes.len() ==> codes[i] != clear_code(m) && codes[i] != end_code(m),
        run(m, st, codes) is Ok,
    ensures
        ({
            let end = run(m, st, codes)->Ok_0;
            &&& end.phase is Running
            &&& end.dict.len() == if st.dict.len() + codes.len() < MAX_TABLE_LEN {
                st.dict.len() + codes.len()
            } else {
                MAX_TABLE_LEN as nat
            }
        }),
    decreases codes.len(),
{
    if codes.len() > 0 {
        lemma_step_preserves_wf(m, st, codes[0]);
        let next = step(m, st, codes[0])->Ok_0;
        assert forall|i: int| 0 <= i < codes.skip(1).len() implies codes.skip(1)[i]
            != clear_code(m) && codes.skip(1)[i] != end_code(m) by {
            assert(codes.skip(1)[i] == codes[i + 1]);
        }
        lemma_growth_while_running(m, next, codes.skip(1));
    }
}

/// A clear code forgets everything but the output: whatever the dictionary,
/// the width and the last code were, the state after it is the one in which
/// a code of the initial alphabet is due.
pub proof fn lemma_clear_forgets(m: nat, st: DecoderState)
    requires
        st.phase is Running,
        2 <= m <= 8,
    ensures
        step(m, st, clear_code(m)) == Ok::<DecoderState, DecompressError>(
            awaiting_state(m, st.output),
        ),
{
    lemma2_to64();
}

/// Once the end-of-information code is read, no code changes anything.
pub proof fn lemma_done_is_final(m: nat, st: DecoderState, codes: Seq<nat>)
    requires
        st.phase is Done,
    ensures
        run(m, st, codes) == Ok::<DecoderState, DecompressError>(st),
    decreases codes.len(),
{
    if codes.len() > 0 {
        lemma_done_is_final(m, st, codes.skip(1));
    }
}

/// A clear code put before a clear code changes nothing in the two states
/// in which a clear code is not taken for one: after the
/// end-of-information code, where every code is passed over, and where a
/// code of the initial alphabet is due, where either stream fails with
/// `FirstDataNotEntry`. At the start of a stream and while running, the
/// second clear code comes where a code of the initial alphabet is due, and
/// the stream with two fails where the stream with one may not.
pub proof fn lemma_clear_before_clear(m: nat, st: DecoderState, rest: Seq<nat>)
    requires
        2 <= m <= 8,
        st.phase is Done || st.phase is AwaitingFirstData,
    ensures
        run(m, st, seq![clear_code(m), clear_code(m)] + rest) == run(
            m,
            st,
            seq![clear_code(m)] + rest,
        ),
{
    let twice = seq![clear_code(m), clear_code(m)] + rest;
    let once = seq![clear_code(m)] + rest;
    if st.phase is Done {
        lemma_done_is_final(m, st, twice);
        lemma_done_is_final(m, st, once);
    } else {
        assert(twice[0] == clear_code(m));
        assert(once[0] == clear_code(m));
    }
}

/// The bits that spell a number spell that number.
pub proof fn lemma_code_bits_value(value: nat, width: nat)
    requires
        value < pow2(width),
    ensures
        bits_value(code_bits(value, width)) == value,
        code_bits(value, width).len() == width,
    decreases width,
{
    lemma2_to64();
    if width > 0 {
        lemma_pow2_unfold(width);
        let bits = code_bits(value, width);
        assert(bits.skip(1) =~= code_bits(value / 2, (width - 1) as nat)) by {
            assert forall|k: int| 0 <= k < width - 1 implies bits.skip(1)[k] == code_bits(
                value / 2,
                (width - 1) as nat,
            )[k] by {
                lemma_pow2_unfold((k + 1) as nat);
                lemma_pow2_pos(k as nat);
                lemma_div_denominator(value as int, 2, pow2(k as nat) as int);
            }
        }
        lemma_code_bits_value(value / 2, (width - 1) as nat);
        assert(bits[0] == (value % 2 == 1)) by {
            assert(pow2(0) == 1);
            assert(value / 1 == value);
        }
    } else {
        assert(code_bits(value, width) =~= Seq::<bool>::empty());
    }
}

/// Decoding the encoding of a one-index message gives the message back:
/// whatever bytes begin with the clear code, the index and the
/// end-of-information code decompress to that one index.
pub proof fn lemma_singleton_round_trip(m: u8, index: u8, data: Seq<u8>)
    requires
        2 <= m <= 8,
        index < pow2(m as nat),
        singleton_stream(m as nat, index).is_prefix_of(bits_of(data)),
    ensures
        spec_decompress(data, m) == Ok::<Seq<u8>, DecompressError>(seq![index]),
{
    let mn = m as nat;
    let w = mn + 1;
    lemma_initial_width(mn);
    lemma_code_bits_value(clear_code(mn), w);
    lemma_code_bits_value(index as nat, w);
    lemma_code_bits_value(end_code(mn), w);
    let bits = bits_of(data);
    let a = code_bits(clear_code(mn), w);
    let b = code_bits(index as nat, w);
    let c = code_bits(end_code(mn), w);
    let stream = singleton_stream(mn, index);
    assert(stream.len() == 3 * w);
    assert(bits.subrange(0, (3 * w) as int) == stream);
    assert forall|k: int| 0 <= k < 3 * w implies bits[k] == stream[k] by {
        assert(bits.subrange(0, (3 * w) as int)[k] == bits[k]);
    }
    let s0 = initial_state(mn);
    assert(bits.take(w as int) =~= a);
    let s1 = DecoderState { phase: Phase::AwaitingFirstData, ..s0 };
    assert(step(mn, s0, clear_code(mn)) == Ok::<DecoderState, DecompressError>(s1));
    let bits1 = bits.skip(w as int);
    assert(bits1.take(w as int) =~= b);
    let s2 = DecoderState {
        phase: Phase::Running,
        prev: index as nat,
        output: s1.output.push(index),
        ..s1
    };
    assert(step(mn, s1, index as nat) == Ok::<DecoderState, DecompressError>(s2));
    let bits2 = bits1.skip(w as int);
    assert(bits2.take(w as int) =~= c);
    let s3 = DecoderState { phase: Phase::Done, ..s2 };
    assert(step(mn, s2, end_code(mn)) == Ok::<DecoderState, DecompressError>(s3));
    assert(s3.output =~= seq![index]);
    assert(decode_from(mn, s3, bits2.skip(w as int)) == Ok::<Seq<u8>, DecompressError>(
        s3.output,
    ));
    assert(decode_from(mn, s2, bits2) == Ok::<Seq<u8>, DecompressError>(s3.output));
    assert(decode_from(mn, s1, bits1) == Ok::<Seq<u8>, DecompressError>(s3.output));
    assert(decode_from(mn, s0, bits) == Ok::<Seq<u8>, DecompressError>(s3.output));
}

} // verus!
