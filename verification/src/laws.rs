//! What holds of the library as a whole, stated over the models that the
//! contracts use.

use crate::binary32::{
    exponent_field, fraction_field, in_range, lemma_exact_rounds, lemma_magnitude_increases,
    lemma_named_magnitudes, lemma_rounding_is_unique, magnitude, one_magnitude, rounds_to,
    INFINITY_BITS, NEGATIVE_ZERO_BITS, TEN_BITS,
};
use crate::record::{complete, LookupView, StoredView};
use crate::session::{applies, started, stopped, value_in_range, SessionView};
use crate::state::{default_state, edits, loaded, merged, projection, Edit, StateView};
use crate::steps::{lowered, raised, steps_down, steps_up};
use vstd::arithmetic::power2::{lemma2_to64, lemma_pow2_adds, lemma_pow2_pos, pow2};
use vstd::prelude::*;

verus! {

/// Saving a state and loading what was written gives back the label, the
/// value and the language tag, whatever they are, and the default code in
/// place of the code that was there.
pub proof fn lemma_save_then_load(state: StateView)
    ensures
        loaded(LookupView::Found(complete(projection(state)))) == (StateView {
            code: default_state().code,
            ..state
        }),
{
}

/// A record without a language tag loads, and the state has the default
/// language tag; likewise for each other field, alone or together.
pub proof fn lemma_missing_fields_take_defaults(stored: StoredView)
    ensures
        stored.label is None ==> merged(stored).label == default_state().label,
        stored.value is None ==> merged(stored).value == default_state().value,
        stored.language is None ==> merged(stored).language == default_state().language,
        stored.label matches Some(label) ==> merged(stored).label == label,
        stored.value matches Some(value) ==> merged(stored).value == value,
        stored.language matches Some(language) ==> merged(stored).language == language,
{
}

/// Without a store, without a record under the key, and with a record that
/// cannot be read, the loaded state is the same: the default state.
pub proof fn lemma_load_without_record()
    ensures
        loaded(LookupView::NoStorage) == default_state(),
        loaded(LookupView::Missing) == default_state(),
        loaded(LookupView::Corrupt) == default_state(),
{
}

/// Whatever was found, the loaded state holds the default code.
pub proof fn lemma_loaded_code_is_default(lookup: LookupView)
    ensures
        loaded(lookup).code == default_state().code,
{
}

/// A step up has one result.
pub proof fn lemma_step_up_is_determined(before: u32, first: u32, second: u32)
    requires
        steps_up(before, first),
        steps_up(before, second),
    ensures
        first == second,
{
    if in_range(before) {
        lemma_rounding_is_unique(raised(before), first, second);
    }
}

/// A step down has one result.
pub proof fn lemma_step_down_is_determined(before: u32, first: u32, second: u32)
    requires
        steps_down(before, first),
        steps_down(before, second),
    ensures
        first == second,
{
    if in_range(before) && magnitude(before) > 0 {
        lemma_rounding_is_unique(lowered(before), first, second);
    }
}

/// A target of at most 10.0 rounds to an encoding of at most 10.0.
proof fn lemma_rounded_within_ten(target: nat, bits: u32)
    requires
        rounds_to(target, bits),
        target <= magnitude(TEN_BITS),
    ensures
        bits <= TEN_BITS,
{
    if bits > TEN_BITS {
        lemma_magnitude_increases(TEN_BITS, bits);
        assert(bits != TEN_BITS);
    }
}

/// The steps never lead out of the range from 0.0 to 10.0.
pub proof fn lemma_steps_stay_in_range(before: u32, after: u32)
    requires
        in_range(before),
        steps_up(before, after) || steps_down(before, after),
    ensures
        in_range(after),
{
    lemma_named_magnitudes();
    if steps_up(before, after) {
        lemma_rounded_within_ten(raised(before), after);
    } else if magnitude(before) > 0 {
        if before > TEN_BITS {
            assert(before == NEGATIVE_ZERO_BITS);
        } else if before < TEN_BITS {
            lemma_magnitude_increases(before, TEN_BITS);
        }
        lemma_rounded_within_ten(lowered(before), after);
    }
}

/// An edit never takes the value out of the range from 0.0 to 10.0.
pub proof fn lemma_edits_keep_the_range(before: StateView, edit: Edit, after: StateView)
    requires
        in_range(before.value),
        edits(before, edit, after),
    ensures
        in_range(after.value),
{
    match edit {
        Edit::Decrement => lemma_steps_stay_in_range(before.value, after.value),
        Edit::Increment => lemma_steps_stay_in_range(before.value, after.value),
        _ => {},
    }
}

/// A run starts within the range from 0.0 to 10.0 unless the record that
/// was found holds a value outside it.
pub proof fn lemma_loaded_value_in_range(lookup: LookupView)
    requires
        lookup matches LookupView::Found(stored) ==> (stored.value matches Some(value)
            ==> in_range(value)),
    ensures
        in_range(loaded(lookup).value),
{
}

/// At 10.0 a step up changes nothing, and at 0.0 a step down changes
/// nothing.
pub proof fn lemma_steps_stop_at_the_ends(after: u32)
    ensures
        steps_up(TEN_BITS, after) ==> after == TEN_BITS,
        steps_down(0, after) ==> after == 0,
        steps_down(NEGATIVE_ZERO_BITS, after) ==> after == NEGATIVE_ZERO_BITS,
{
    lemma_named_magnitudes();
    lemma_pow2_pos(149);
    if steps_up(TEN_BITS, after) {
        lemma_exact_rounds(TEN_BITS);
        lemma_rounding_is_unique(raised(TEN_BITS), after, TEN_BITS);
    }
}

/// Where a step up from a value with a clear sign bit is exact and does
/// not reach beyond 10.0, the step down that follows leads back to the
/// value before.
pub proof fn lemma_step_up_then_down(before: u32, raised_to: u32, back: u32)
    requires
        before <= TEN_BITS,
        steps_up(before, raised_to),
        magnitude(raised_to) == magnitude(before) + one_magnitude(),
        steps_down(raised_to, back),
    ensures
        back == before,
{
    lemma_named_magnitudes();
    lemma_pow2_pos(149);
    lemma_steps_stay_in_range(before, raised_to);
    assert(lowered(raised_to) == magnitude(before));
    lemma_exact_rounds(before);
    lemma_rounding_is_unique(magnitude(before), back, before);
}

/// The encodings of the whole numbers from 0.0 to 10.0.
pub open spec fn whole(k: nat) -> u32 {
    if k == 0 {
        0x0000_0000
    } else if k == 1 {
        0x3f80_0000
    } else if k == 2 {
        0x4000_0000
    } else if k == 3 {
        0x4040_0000
    } else if k == 4 {
        0x4080_0000
    } else if k == 5 {
        0x40a0_0000
    } else if k == 6 {
        0x40c0_0000
    } else if k == 7 {
        0x40e0_0000
    } else if k == 8 {
        0x4100_0000
    } else if k == 9 {
        0x4110_0000
    } else {
        0x4120_0000
    }
}

proof fn lemma_scaled_whole(bits: u32, k: nat, low: nat, high: nat)
    requires
        bits < INFINITY_BITS,
        exponent_field(bits) == high + 1,
        0x80_0000 + fraction_field(bits) == k * pow2(low),
        low + high == 149,
    ensures
        magnitude(bits) == k * one_magnitude(),
{
    lemma_pow2_adds(low, high);
    assert((k * pow2(low)) * pow2(high) == k * (pow2(low) * pow2(high))) by (nonlinear_arith);
}

/// The encoding of the whole number `k` has `k` times the magnitude of
/// 1.0.
pub proof fn lemma_whole_magnitude(k: nat)
    requires
        k <= 10,
    ensures
        whole(k) <= TEN_BITS,
        magnitude(whole(k)) == k * one_magnitude(),
{
    lemma2_to64();
    lemma_named_magnitudes();
    let bits = whole(k);
    if k == 0 {
    } else if k == 1 {
        assert(exponent_field(bits) == 127 && fraction_field(bits) == 0);
        lemma_scaled_whole(bits, k, 23, 126);
    } else if k <= 3 {
        assert(exponent_field(bits) == 128);
        assert(0x80_0000 + fraction_field(bits) == k * 0x40_0000);
        lemma_scaled_whole(bits, k, 22, 127);
    } else if k <= 7 {
        assert(exponent_field(bits) == 129);
        assert(0x80_0000 + fraction_field(bits) == k * 0x20_0000);
        lemma_scaled_whole(bits, k, 21, 128);
    } else {
        assert(exponent_field(bits) == 130);
        assert(0x80_0000 + fraction_field(bits) == k * 0x10_0000);
        lemma_scaled_whole(bits, k, 20, 129);
    }
}

/// From a whole number below 10.0 a step up leads to the next whole
/// number, and the step down from there leads back.
pub proof fn lemma_whole_steps(k: nat, up: u32, down: u32)
    requires
        k < 10,
        steps_up(whole(k), up),
        steps_down(up, down),
    ensures
        up == whole(k + 1),
        down == whole(k),
{
    lemma_whole_magnitude(k);
    lemma_whole_magnitude(k + 1);
    lemma_named_magnitudes();
    lemma_pow2_pos(149);
    let p = one_magnitude();
    assert((k + 1) * p == k * p + p) by (nonlinear_arith);
    assert(k * p + p <= 10 * p) by (nonlinear_arith)
        requires
            k < 10,
    ;
    lemma_exact_rounds(whole(k + 1));
    lemma_rounding_is_unique(raised(whole(k)), up, whole(k + 1));
    lemma_step_up_then_down(whole(k), up, down);
}

/// Through a whole run the value stays within the range from 0.0 to 10.0
/// once it is there: no edit of a session takes it out.
pub proof fn lemma_session_keeps_the_range(before: SessionView, edit: Edit, after: SessionView)
    requires
        value_in_range(before),
        applies(before, edit, after),
    ensures
        value_in_range(after),
{
    if let SessionView::Running { state, .. } = before {
        if let SessionView::Running { state: edited, .. } = after {
            lemma_edits_keep_the_range(state, edit, edited);
        }
    }
}

/// A session starts once: a second start changes nothing.
pub proof fn lemma_start_happens_once(session: SessionView, first: LookupView, second: LookupView)
    ensures
        started(started(session, first), second) == started(session, first),
{
}

/// A terminated session stays terminated: neither a start nor a stop
/// changes it.
pub proof fn lemma_terminated_is_final(lookup: LookupView)
    ensures
        started(SessionView::Terminated, lookup) == SessionView::Terminated,
        stopped(SessionView::Terminated) == SessionView::Terminated,
{
}

} // verus!
