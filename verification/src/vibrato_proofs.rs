//! What holds of the outputs of the modulated delay, whatever the samples are.

use crate::comb_filter::fir_tap;
use crate::ring_buffer::RingView;
use crate::sample::may_blend;
use crate::vibrato::{delayed, is_vibrato_output, lemma_shifted_home, shift_in, shifted, Tap};
use core::ops::{Add, Mul, Sub};
use vstd::arithmetic::div_mod::{
    lemma_add_mod_noop_right, lemma_mod_add_multiples_vanish, lemma_mod_bound,
    lemma_mod_equivalence, lemma_mod_twice, lemma_small_mod, lemma_sub_mod_noop,
};
use vstd::prelude::*;

verus! {

/// One step of the shift register: the new value stands in slot 1, and what
/// stood in a slot stands in the next.
pub proof fn lemma_shift_in_slots<S>(line: RingView<S>, value: S, slot: int)
    requires
        line.wf(),
        line.read == line.write,
        1 <= slot < line.capacity(),
    ensures
        shift_in(line, value).get(slot) == if slot == 1 {
            value
        } else {
            line.get(slot - 1)
        },
{
    let c = line.capacity();
    let w = line.write;
    lemma_add_mod_noop_right(slot, w + c - 1, c);
    lemma_mod_add_multiples_vanish(w + slot - 1, c);
    lemma_small_mod(w as nat, c as nat);
    if slot > 1 {
        lemma_mod_equivalence(w + slot - 1, w, c);
        lemma_small_mod((slot - 1) as nat, c as nat);
    }
}

/// The shift register after `values`: slot `slot` holds the value shifted in
/// `slot - 1` steps before the last, or, where fewer were shifted in, what
/// stood `values.len()` slots below.
pub proof fn lemma_shifted_slots<S>(line: RingView<S>, values: Seq<S>, slot: int)
    requires
        line.wf(),
        line.read == line.write,
        1 <= slot < line.capacity(),
    ensures
        shifted(line, values).get(slot) == if slot <= values.len() {
            values[values.len() - slot]
        } else {
            line.get(slot - values.len())
        },
    decreases values.len(),
{
    if values.len() > 0 {
        let before = shifted(line, values.drop_last());
        lemma_shifted_home(line, values.drop_last());
        lemma_shift_in_slots(before, values.last(), slot);
        if slot > 1 {
            lemma_shifted_slots(line, values.drop_last(), slot - 1);
        }
    }
}

/// One step of the shift register: what stood in the last slot stands in
/// slot 0, where the next value will be written.
proof fn lemma_shift_in_oldest<S>(line: RingView<S>, value: S)
    requires
        line.wf(),
        line.read == line.write,
        line.capacity() >= 2,
    ensures
        shift_in(line, value).get(0) == line.get(line.capacity() - 1),
{
    let c = line.capacity();
    let w = line.write;
    lemma_mod_twice(w + c - 1, c);
    lemma_mod_equivalence(w + c - 1, w, c);
    lemma_small_mod((c - 1) as nat, c as nat);
    lemma_small_mod(w as nat, c as nat);
}

/// What the shift register holds in a slot, counted from its cursors, once
/// input `n` has been shifted in.
pub open spec fn shifted_read<S>(line: RingView<S>, input: Seq<S>, n: int, slot: int) -> S {
    shifted(line, input.take(n + 1)).get(slot)
}

/// The shift register holds in each slot the input that `delayed` names.
pub proof fn lemma_shifted_read<S>(line: RingView<S>, input: Seq<S>, n: int, slot: int)
    requires
        line.wf(),
        line.read == line.write,
        line.capacity() >= 2,
        0 <= n < input.len(),
        0 <= slot,
    ensures
        shifted_read(line, input, n, slot) == delayed(line, input, n, slot),
{
    let c = line.capacity();
    let values = input.take(n + 1);
    let state = shifted(line, values);
    let s = slot % c;
    lemma_shifted_home(line, values);
    lemma_mod_bound(slot, c);
    lemma_add_mod_noop_right(state.read, slot, c);
    assert(state.get(slot) == state.get(s));
    lemma_sub_mod_noop(slot, 1, c);
    lemma_small_mod(1, c as nat);
    if s >= 1 {
        lemma_small_mod((s - 1) as nat, c as nat);
        lemma_shifted_slots(line, values, s);
    } else {
        lemma_mod_add_multiples_vanish(-1, c);
        lemma_small_mod((c - 1) as nat, c as nat);
        lemma_shifted_home(line, values.drop_last());
        lemma_shift_in_oldest(shifted(line, values.drop_last()), values.last());
        lemma_shifted_slots(line, values.drop_last(), c - 1);
    }
}

/// Without modulation the effect is a fixed delay: where every tap is at
/// slot `1 + delay` and gives that slot its whole weight, each output is the
/// input `delay` samples before it, and the first `delay` outputs are what
/// the delay line held.
pub proof fn lemma_fixed_delay<S>(
    line: RingView<S>,
    input: Seq<S>,
    taps: Seq<Tap<S>>,
    output: Seq<S>,
    delay: int,
) where S: Add<Output = S> + Sub<Output = S> + Mul<Output = S> + From<u8>
    requires
        0 <= delay < line.capacity(),
        forall|n: int| 0 <= n < input.len() ==> (#[trigger] taps[n]).index == 1 + delay,
        forall|n: int, first: S, second: S, y: S|
            0 <= n < input.len() && #[trigger] may_blend(first, second, taps[n].frac, y) ==> y
                == first,
        is_vibrato_output(line, input, taps, output),
    ensures
        forall|n: int|
            0 <= n < output.len() ==> #[trigger] output[n] == if n >= delay {
                input[n - delay]
            } else {
                line.get(delay - n)
            },
{
    assert forall|n: int| 0 <= n < output.len() implies #[trigger] output[n] == if n >= delay {
        input[n - delay]
    } else {
        line.get(delay - n)
    } by {
        lemma_small_mod(delay as nat, line.capacity() as nat);
        assert(taps[n].index == 1 + delay);
        assert(may_blend(
            delayed(line, input, n, taps[n].index as int),
            delayed(line, input, n, taps[n].index + 1),
            taps[n].frac,
            output[n],
        ));
    }
}

/// Without modulation the effect gives what a feedforward comb filter with
/// the same delay reads from its delay line and mixes into its output: on
/// cleared delay lines, each output is the delayed sample of that filter.
pub proof fn lemma_fixed_delay_is_comb_tap<S>(
    line: RingView<S>,
    comb_line: RingView<S>,
    input: Seq<S>,
    taps: Seq<Tap<S>>,
    output: Seq<S>,
    zero: S,
) where S: Add<Output = S> + Sub<Output = S> + Mul<Output = S> + From<u8>
    requires
        line.wf(),
        line.filled_with(zero),
        comb_line.wf(),
        comb_line.filled_with(zero),
        comb_line.len() < line.capacity(),
        forall|n: int| 0 <= n < input.len() ==> (#[trigger] taps[n]).index == 1 + comb_line.len(),
        forall|n: int, first: S, second: S, y: S|
            0 <= n < input.len() && #[trigger] may_blend(first, second, taps[n].frac, y) ==> y
                == first,
        is_vibrato_output(line, input, taps, output),
    ensures
        forall|n: int| 0 <= n < output.len() ==> #[trigger] output[n] == fir_tap(comb_line, input, n),
{
    let delay = comb_line.len();
    lemma_mod_bound(comb_line.write - comb_line.read, comb_line.capacity());
    lemma_fixed_delay(line, input, taps, output, delay);
    assert forall|n: int| 0 <= n < output.len() implies #[trigger] output[n] == fir_tap(
        comb_line,
        input,
        n,
    ) by {
        lemma_mod_bound(line.read + delay - n, line.capacity());
        lemma_mod_bound(comb_line.read + n, comb_line.capacity());
    }
}

/// Shifting in one stream after another is shifting in their concatenation.
pub proof fn lemma_shifted_concat<S>(line: RingView<S>, first: Seq<S>, second: Seq<S>)
    ensures
        shifted(line, first + second) == shifted(shifted(line, first), second),
    decreases second.len(),
{
    if second.len() == 0 {
        assert(first + second == first);
    } else {
        lemma_shifted_concat(line, first, second.drop_last());
        assert((first + second).drop_last() == first + second.drop_last());
    }
}

proof fn lemma_delayed_concat<S>(
    line: RingView<S>,
    first: Seq<S>,
    second: Seq<S>,
    n: int,
    slot: int,
)
    requires
        line.wf(),
        line.read == line.write,
        line.capacity() >= 2,
        0 <= n < first.len() + second.len(),
        0 <= slot,
    ensures
        n < first.len() ==> delayed(line, first + second, n, slot) == delayed(line, first, n, slot),
        n >= first.len() ==> delayed(line, first + second, n, slot) == delayed(
            shifted(line, first),
            second,
            n - first.len(),
            slot,
        ),
{
    if n >= first.len() {
        let m = n - first.len();
        lemma_shifted_home(line, first);
        lemma_shifted_read(line, first + second, n, slot);
        lemma_shifted_read(shifted(line, first), second, m, slot);
        assert((first + second).take(n + 1) == first + second.take(m + 1));
        lemma_shifted_concat(line, first, second.take(m + 1));
    }
}

/// The effect gives for a stream in one block what it gives for the same
/// stream, read at the same taps, in two consecutive blocks.
pub proof fn lemma_vibrato_two_blocks<S>(
    line: RingView<S>,
    first: Seq<S>,
    second: Seq<S>,
    first_taps: Seq<Tap<S>>,
    second_taps: Seq<Tap<S>>,
    first_output: Seq<S>,
    second_output: Seq<S>,
) where S: Add<Output = S> + Sub<Output = S> + Mul<Output = S> + From<u8>
    requires
        line.wf(),
        line.read == line.write,
        line.capacity() >= 2,
        first_taps.len() == first.len(),
        second_taps.len() == second.len(),
        first_output.len() == first.len(),
    ensures
        is_vibrato_output(
            line,
            first + second,
            first_taps + second_taps,
            first_output + second_output,
        ) <==> {
            &&& is_vibrato_output(line, first, first_taps, first_output)
            &&& is_vibrato_output(shifted(line, first), second, second_taps, second_output)
        },
        shifted(line, first + second) == shifted(shifted(line, first), second),
{
    let input = first + second;
    let taps = first_taps + second_taps;
    let output = first_output + second_output;
    let middle = shifted(line, first);
    lemma_shifted_concat(line, first, second);
    if is_vibrato_output(line, input, taps, output) {
        assert forall|n: int| 0 <= n < first.len() implies may_blend(
            delayed(line, first, n, first_taps[n].index as int),
            delayed(line, first, n, first_taps[n].index + 1),
            first_taps[n].frac,
            #[trigger] first_output[n],
        ) by {
            assert(output[n] == first_output[n]);
            assert(taps[n] == first_taps[n]);
            lemma_delayed_concat(line, first, second, n, taps[n].index as int);
            lemma_delayed_concat(line, first, second, n, taps[n].index + 1);
        }
        assert forall|n: int| 0 <= n < second.len() implies may_blend(
            delayed(middle, second, n, second_taps[n].index as int),
            delayed(middle, second, n, second_taps[n].index + 1),
            second_taps[n].frac,
            #[trigger] second_output[n],
        ) by {
            let m = n + first.len();
            assert(output[m] == second_output[n]);
            assert(taps[m] == second_taps[n]);
            lemma_delayed_concat(line, first, second, m, taps[m].index as int);
            lemma_delayed_concat(line, first, second, m, taps[m].index + 1);
        }
    }
    if is_vibrato_output(line, first, first_taps, first_output) && is_vibrato_output(
        middle,
        second,
        second_taps,
        second_output,
    ) {
        assert forall|n: int| 0 <= n < input.len() implies may_blend(
            delayed(line, input, n, taps[n].index as int),
            delayed(line, input, n, taps[n].index + 1),
            taps[n].frac,
            #[trigger] output[n],
        ) by {
            lemma_delayed_concat(line, first, second, n, taps[n].index as int);
            lemma_delayed_concat(line, first, second, n, taps[n].index + 1);
            if n < first.len() {
                assert(output[n] == first_output[n]);
                assert(taps[n] == first_taps[n]);
            } else {
                assert(output[n] == second_output[n - first.len()]);
                assert(taps[n] == second_taps[n - first.len()]);
            }
        }
    }
}

} // verus!
