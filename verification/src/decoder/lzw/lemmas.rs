//! Facts about the model that the decompressor's proof rests on.

use super::bits::bits_value;
use super::model::{
    awaiting_state, bits_needed, code_width, initial_state, next_width, step, wf, DecoderState,
    Phase, MAX_CODE_SIZE, MAX_TABLE_LEN,
};
use super::types::{clear_code, end_code};
use vstd::arithmetic::power2::{lemma2_to64, lemma_pow2_strictly_increases, lemma_pow2_unfold, pow2};
use vstd::prelude::*;

verus! {

/// `pow2` does not decrease.
pub proof fn lemma_pow2_monotonic(a: nat, b: nat)
    requires
        a <= b,
    ensures
        pow2(a) <= pow2(b),
{
    if a < b {
        lemma_pow2_strictly_increases(a, b);
    }
}

/// A sequence of `n` bits spells a number below `2^n`.
pub proof fn lemma_bits_value_bound(bits: Seq<bool>)
    ensures
        bits_value(bits) < pow2(bits.len()),
    decreases bits.len(),
{
    if bits.len() == 0 {
        lemma2_to64();
    } else {
        lemma_bits_value_bound(bits.skip(1));
        lemma_pow2_unfold(bits.len());
    }
}

/// A positive number lies in `[2^(w-1), 2^w)` for the `w` bits it takes.
pub proof fn lemma_bits_needed_bounds(n: nat)
    requires
        n > 0,
    ensures
        bits_needed(n) >= 1,
        pow2((bits_needed(n) - 1) as nat) <= n < pow2(bits_needed(n)),
    decreases n,
{
    lemma2_to64();
    if n > 1 {
        lemma_bits_needed_bounds(n / 2);
        lemma_pow2_unfold(bits_needed(n));
        lemma_pow2_unfold(bits_needed(n / 2));
    } else {
        assert(bits_needed(n / 2) == 0);
    }
}

/// The width of a dictionary of `len` slots, by the range `len` lies in.
pub proof fn lemma_code_width(len: nat, w: nat)
    requires
        1 <= w <= MAX_CODE_SIZE,
        pow2((w - 1) as nat) <= len,
        len < pow2(w) || w == MAX_CODE_SIZE,
    ensures
        code_width(len) == w,
{
    lemma2_to64();
    lemma_bits_needed_bounds(len);
    let b = bits_needed(len);
    if b < w {
        lemma_pow2_monotonic(b, (w - 1) as nat);
    } else if b > w {
        if w < MAX_CODE_SIZE {
            lemma_pow2_monotonic(w, (b - 1) as nat);
        }
    }
}

/// The range that a dictionary's length lies in, by its width.
pub proof fn lemma_code_width_range(len: nat)
    requires
        len > 0,
    ensures
        1 <= code_width(len) <= MAX_CODE_SIZE,
        pow2((code_width(len) - 1) as nat) <= len,
        len < pow2(code_width(len)) || code_width(len) == MAX_CODE_SIZE,
{
    lemma_bits_needed_bounds(len);
    let b = bits_needed(len);
    if b >= MAX_CODE_SIZE {
        lemma_pow2_monotonic(11, (b - 1) as nat);
    }
}

/// The rule by which the width grows keeps it the width of the dictionary.
pub proof fn lemma_width_follows_length(len: nat)
    requires
        0 < len < MAX_TABLE_LEN,
    ensures
        next_width(code_width(len), len + 1) == code_width(len + 1),
{
    lemma2_to64();
    lemma_code_width_range(len);
    let w = code_width(len);
    if w < MAX_CODE_SIZE {
        if len + 1 == pow2(w) {
            lemma_pow2_unfold(w + 1);
            lemma_code_width(len + 1, w + 1);
        } else {
            lemma_code_width(len + 1, w);
        }
    } else {
        lemma_code_width(len + 1, w);
    }
}

/// The fresh dictionary has the width `m + 1`.
pub proof fn lemma_initial_width(m: nat)
    requires
        2 <= m <= 8,
    ensures
        code_width(pow2(m) + 2) == m + 1,
        pow2(m) + 2 < pow2(m + 1),
        pow2(m + 1) <= 512,
        4 <= pow2(m) <= 256,
{
    lemma2_to64();
    lemma_pow2_unfold(m + 1);
    lemma_pow2_monotonic(2, m);
    lemma_pow2_monotonic(m, 8);
    lemma_code_width(pow2(m) + 2, m + 1);
}

/// The states in which decoding begins, and begins again, are well formed.
pub proof fn lemma_fresh_states_wf(m: nat, output: Seq<u8>)
    requires
        2 <= m <= 8,
    ensures
        wf(m, initial_state(m)),
        wf(m, awaiting_state(m, output)),
{
    lemma_initial_width(m);
}

/// A step from a well-formed state ends in a well-formed state.
pub proof fn lemma_step_preserves_wf(m: nat, st: DecoderState, code: nat)
    requires
        wf(m, st),
        step(m, st, code) is Ok,
    ensures
        wf(m, step(m, st, code)->Ok_0),
{
    let next = step(m, st, code)->Ok_0;
    lemma_initial_width(m);
    match st.phase {
        Phase::Start => {},
        Phase::AwaitingFirstData => {},
        Phase::Running => {
            if code == end_code(m) {
            } else if code == clear_code(m) {
            } else {
                let len = st.dict.len();
                if len < MAX_TABLE_LEN {
                    lemma_width_follows_length(len);
                    assert forall|i: int| pow2(m) + 2 <= i < next.dict.len() implies (
                    #[trigger] next.dict[i]).len() > 0 by {
                        if i < len {
                            assert(next.dict[i] == st.dict[i]);
                        }
                    }
                    assert forall|i: int| 0 <= i < pow2(m) implies #[trigger] next.dict[i]
                        == seq![i as u8] by {
                        assert(next.dict[i] == st.dict[i]);
                    }
                } else {
                    lemma2_to64();
                    lemma_code_width(len, MAX_CODE_SIZE as nat);
                }
            }
        },
        Phase::Done => {},
    }
}

} // verus!
