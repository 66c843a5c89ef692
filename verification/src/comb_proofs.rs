//! What holds of the outputs of every comb filter, whatever the samples are.

use crate::comb_filter::{
    advance, comb_line, feedback_delay, fir_tap, iir_tap, is_comb_output, is_fir_output,
    is_iir_output, FilterType,
};
use crate::ring_buffer::RingView;
use crate::sample::may_mix;
use core::ops::{Add, Mul};
use vstd::arithmetic::div_mod::{
    lemma_add_mod_noop_right, lemma_mod_add_multiples_vanish, lemma_mod_bound,
    lemma_mod_equivalence, lemma_mod_sub_multiples_vanish, lemma_small_mod, lemma_sub_mod_noop,
};
use vstd::prelude::*;

verus! {

/// What a feedforward filter finds under the read cursor once `input[n]`
/// has been pushed.
pub open spec fn fir_read<S>(line: RingView<S>, input: Seq<S>, n: int) -> S {
    advance(line, input.take(n)).push(input[n]).peek()
}

/// What a feedback filter finds under the read cursor once the outputs
/// before output `n` have been pushed.
pub open spec fn iir_read<S>(line: RingView<S>, output: Seq<S>, n: int) -> S {
    advance(line, output.take(n)).peek()
}

/// Two positions less than a capacity apart fall on different slots.
proof fn lemma_distinct_slots(low: int, high: int, capacity: int)
    requires
        0 < high - low < capacity,
    ensures
        low % capacity != high % capacity,
{
    lemma_mod_equivalence(high, low, capacity);
    lemma_small_mod((high - low) as nat, capacity as nat);
}

/// The read cursor lies as far behind the write cursor as `len` says.
proof fn lemma_read_behind_write<S>(line: RingView<S>, n: int)
    requires
        line.wf(),
    ensures
        0 <= line.len() < line.capacity(),
        (line.read + n) % line.capacity() == (line.write + n - line.len()) % line.capacity(),
        line.len() == 0 ==> line.read == line.write,
{
    let c = line.capacity();
    let gap = line.write - line.read;
    if gap >= 0 {
        lemma_small_mod(gap as nat, c as nat);
    } else {
        lemma_mod_add_multiples_vanish(gap, c);
        lemma_small_mod((gap + c) as nat, c as nat);
        lemma_mod_sub_multiples_vanish(line.read + n, c);
    }
}

/// Feeding a delay line one stream after another is feeding it their
/// concatenation.
pub proof fn lemma_advance_concat<S>(line: RingView<S>, first: Seq<S>, second: Seq<S>)
    ensures
        advance(line, first + second) == advance(advance(line, first), second),
    decreases second.len(),
{
    if second.len() == 0 {
        assert(first + second == first);
    } else {
        lemma_advance_concat(line, first, second.drop_last());
        assert((first + second).drop_last() == first + second.drop_last());
    }
}

/// Where the cursors stand after as many pushes and pops as `values` is long.
pub proof fn lemma_advance_cursors<S>(line: RingView<S>, values: Seq<S>)
    requires
        line.wf(),
    ensures
        advance(line, values).wf(),
        advance(line, values).capacity() == line.capacity(),
        advance(line, values).read == (line.read + values.len()) % line.capacity(),
        advance(line, values).write == (line.write + values.len()) % line.capacity(),
    decreases values.len(),
{
    let c = line.capacity();
    if values.len() == 0 {
        lemma_small_mod(line.read as nat, c as nat);
        lemma_small_mod(line.write as nat, c as nat);
    } else {
        lemma_advance_cursors(line, values.drop_last());
        lemma_add_mod_noop_right(1, line.read + values.len() - 1, c);
        lemma_add_mod_noop_right(1, line.write + values.len() - 1, c);
    }
}

/// Pushing and popping in step keeps the cursors in the storage and the
/// distance between them.
pub proof fn lemma_advance_keeps_gap<S>(line: RingView<S>, values: Seq<S>)
    requires
        line.wf(),
    ensures
        advance(line, values).wf(),
        advance(line, values).capacity() == line.capacity(),
        advance(line, values).len() == line.len(),
    decreases values.len(),
{
    if values.len() > 0 {
        lemma_advance_keeps_gap(line, values.drop_last());
        let before = advance(line, values.drop_last());
        lemma_sub_mod_noop(before.write + 1, before.read + 1, before.capacity());
    }
}

/// A value that was pushed less than a capacity ago is still where it was
/// written.
pub proof fn lemma_advance_written<S>(line: RingView<S>, values: Seq<S>, i: int)
    requires
        line.wf(),
        0 <= i < values.len(),
        values.len() - i <= line.capacity(),
    ensures
        advance(line, values).at(line.write + i) == values[i],
    decreases values.len(),
{
    lemma_advance_cursors(line, values.drop_last());
    if i < values.len() - 1 {
        lemma_advance_written(line, values.drop_last(), i);
        lemma_distinct_slots(line.write + i, line.write + values.len() - 1, line.capacity());
    }
}

/// A slot that the pushes have not reached yet holds what it held.
pub proof fn lemma_advance_untouched<S>(line: RingView<S>, values: Seq<S>, j: int)
    requires
        line.wf(),
        values.len() <= j < line.capacity(),
    ensures
        advance(line, values).at(line.write + j) == line.at(line.write + j),
    decreases values.len(),
{
    if values.len() > 0 {
        lemma_advance_cursors(line, values.drop_last());
        lemma_advance_untouched(line, values.drop_last(), j);
        lemma_distinct_slots(line.write + values.len() - 1, line.write + j, line.capacity());
    }
}

/// What lies `delay` slots behind the write cursor of a line that `values`
/// went through: the value pushed `delay` pushes ago, or, where fewer were
/// pushed, what the line held there.
proof fn lemma_advance_behind<S>(line: RingView<S>, values: Seq<S>, delay: int)
    requires
        line.wf(),
        0 < delay <= line.capacity(),
    ensures
        advance(line, values).at(line.write + values.len() - delay) == if values.len() >= delay {
            values[values.len() - delay]
        } else {
            line.at(line.write + values.len() - delay)
        },
{
    let c = line.capacity();
    let n = values.len() as int;
    lemma_advance_cursors(line, values);
    if n >= delay {
        lemma_advance_written(line, values, n - delay);
    } else {
        lemma_advance_untouched(line, values, n - delay + c);
        lemma_mod_add_multiples_vanish(line.write + n - delay, c);
    }
}

/// The feedforward filter finds the tap of its difference equation under
/// the read cursor.
pub proof fn lemma_fir_read<S>(line: RingView<S>, input: Seq<S>, n: int)
    requires
        line.wf(),
        0 <= n < input.len(),
    ensures
        fir_read(line, input, n) == fir_tap(line, input, n),
{
    let delay = line.len();
    let head = input.take(n);
    lemma_advance_cursors(line, head);
    lemma_read_behind_write(line, n);
    if delay > 0 {
        lemma_distinct_slots(line.write + n - delay, line.write + n, line.capacity());
        lemma_advance_behind(line, head, delay);
    }
}

/// The feedback filter finds the tap of its difference equation under the
/// read cursor.
pub proof fn lemma_iir_read<S>(line: RingView<S>, output: Seq<S>, n: int)
    requires
        line.wf(),
        0 <= n < output.len(),
    ensures
        iir_read(line, output, n) == iir_tap(line, output, n),
{
    let head = output.take(n);
    lemma_advance_cursors(line, head);
    lemma_read_behind_write(line, n);
    lemma_advance_behind(line, head, feedback_delay(line));
    if line.len() == 0 {
        lemma_mod_sub_multiples_vanish(line.write + n, line.capacity());
    }
}

proof fn lemma_fir_tap_concat<S>(line: RingView<S>, first: Seq<S>, second: Seq<S>, n: int)
    requires
        line.wf(),
        0 <= n < first.len() + second.len(),
    ensures
        n < first.len() ==> fir_tap(line, first + second, n) == fir_tap(line, first, n),
        n >= first.len() ==> fir_tap(line, first + second, n) == fir_tap(
            advance(line, first),
            second,
            n - first.len(),
        ),
{
    if n >= first.len() {
        let m = n - first.len();
        lemma_advance_cursors(line, first);
        lemma_fir_read(line, first + second, n);
        lemma_fir_read(advance(line, first), second, m);
        assert((first + second).take(n) == first + second.take(m));
        lemma_advance_concat(line, first, second.take(m));
    }
}

proof fn lemma_iir_tap_concat<S>(line: RingView<S>, first: Seq<S>, second: Seq<S>, n: int)
    requires
        line.wf(),
        0 <= n < first.len() + second.len(),
    ensures
        n < first.len() ==> iir_tap(line, first + second, n) == iir_tap(line, first, n),
        n >= first.len() ==> iir_tap(line, first + second, n) == iir_tap(
            advance(line, first),
            second,
            n - first.len(),
        ),
{
    if n >= first.len() {
        let m = n - first.len();
        lemma_advance_cursors(line, first);
        lemma_iir_read(line, first + second, n);
        lemma_iir_read(advance(line, first), second, m);
        assert((first + second).take(n) == first + second.take(m));
        lemma_advance_concat(line, first, second.take(m));
    }
}

/// A feedforward filter gives for a stream in one block what it gives for
/// the same stream in two consecutive blocks.
pub proof fn lemma_fir_two_blocks<S: Add<Output = S> + Mul<Output = S>>(
    gain: S,
    line: RingView<S>,
    first: Seq<S>,
    second: Seq<S>,
    first_output: Seq<S>,
    second_output: Seq<S>,
)
    requires
        line.wf(),
        first_output.len() == first.len(),
    ensures
        is_fir_output(gain, line, first + second, first_output + second_output) <==> {
            &&& is_fir_output(gain, line, first, first_output)
            &&& is_fir_output(gain, advance(line, first), second, second_output)
        },
{
    let input = first + second;
    let output = first_output + second_output;
    let middle = advance(line, first);
    if is_fir_output(gain, line, input, output) {
        assert forall|n: int| 0 <= n < first.len() implies may_mix(
            first[n],
            gain,
            fir_tap(line, first, n),
            #[trigger] first_output[n],
        ) by {
            lemma_fir_tap_concat(line, first, second, n);
            assert(output[n] == first_output[n]);
        }
        assert forall|n: int| 0 <= n < second.len() implies may_mix(
            second[n],
            gain,
            fir_tap(middle, second, n),
            #[trigger] second_output[n],
        ) by {
            lemma_fir_tap_concat(line, first, second, n + first.len());
            assert(output[n + first.len()] == second_output[n]);
        }
    }
    if is_fir_output(gain, line, first, first_output) && is_fir_output(
        gain,
        middle,
        second,
        second_output,
    ) {
        assert forall|n: int| 0 <= n < input.len() implies may_mix(
            input[n],
            gain,
            fir_tap(line, input, n),
            #[trigger] output[n],
        ) by {
            lemma_fir_tap_concat(line, first, second, n);
            if n < first.len() {
                assert(output[n] == first_output[n]);
            } else {
                assert(output[n] == second_output[n - first.len()]);
            }
        }
    }
}

/// A feedback filter gives for a stream in one block what it gives for the
/// same stream in two consecutive blocks.
pub proof fn lemma_iir_two_blocks<S: Add<Output = S> + Mul<Output = S>>(
    gain: S,
    line: RingView<S>,
    first: Seq<S>,
    second: Seq<S>,
    first_output: Seq<S>,
    second_output: Seq<S>,
)
    requires
        line.wf(),
        first_output.len() == first.len(),
    ensures
        is_iir_output(gain, line, first + second, first_output + second_output) <==> {
            &&& is_iir_output(gain, line, first, first_output)
            &&& is_iir_output(gain, advance(line, first_output), second, second_output)
        },
{
    let input = first + second;
    let output = first_output + second_output;
    let middle = advance(line, first_output);
    if is_iir_output(gain, line, input, output) {
        assert forall|n: int| 0 <= n < first.len() implies may_mix(
            first[n],
            gain,
            iir_tap(line, first_output, n),
            #[trigger] first_output[n],
        ) by {
            lemma_iir_tap_concat(line, first_output, second_output, n);
            assert(output[n] == first_output[n]);
        }
        assert forall|n: int| 0 <= n < second.len() implies may_mix(
            second[n],
            gain,
            iir_tap(middle, second_output, n),
            #[trigger] second_output[n],
        ) by {
            lemma_iir_tap_concat(line, first_output, second_output, n + first.len());
            assert(output[n + first.len()] == second_output[n]);
        }
    }
    if is_iir_output(gain, line, first, first_output) && is_iir_output(
        gain,
        middle,
        second,
        second_output,
    ) {
        assert forall|n: int| 0 <= n < input.len() implies may_mix(
            input[n],
            gain,
            iir_tap(line, output, n),
            #[trigger] output[n],
        ) by {
            lemma_iir_tap_concat(line, first_output, second_output, n);
            if n < first.len() {
                assert(output[n] == first_output[n]);
            } else {
                assert(output[n] == second_output[n - first.len()]);
            }
        }
    }
}

/// Each block of `outputs` is as long as the block of `inputs` it answers.
pub open spec fn same_shape<S>(inputs: Seq<Seq<S>>, outputs: Seq<Seq<S>>) -> bool {
    &&& outputs.len() == inputs.len()
    &&& forall|i: int| 0 <= i < inputs.len() ==> (#[trigger] outputs[i]).len() == inputs[i].len()
}

/// The delay line of a channel after the filter gave `outputs[i]` for
/// `inputs[i]`, one block after the other.
pub open spec fn comb_line_in_blocks<S>(
    filter_type: FilterType,
    line: RingView<S>,
    inputs: Seq<Seq<S>>,
    outputs: Seq<Seq<S>>,
) -> RingView<S>
    decreases inputs.len(),
{
    if inputs.len() == 0 {
        line
    } else {
        comb_line(
            filter_type,
            comb_line_in_blocks(filter_type, line, inputs.drop_last(), outputs.drop_last()),
            inputs.last(),
            outputs.last(),
        )
    }
}

/// `outputs[i]` is what the filter may give for `inputs[i]`, one block after
/// the other, on a channel whose delay line starts as `line`.
pub open spec fn is_comb_output_in_blocks<S: Add<Output = S> + Mul<Output = S>>(
    filter_type: FilterType,
    gain: S,
    line: RingView<S>,
    inputs: Seq<Seq<S>>,
    outputs: Seq<Seq<S>>,
) -> bool
    decreases inputs.len(),
{
    if inputs.len() == 0 {
        true
    } else {
        &&& is_comb_output_in_blocks(
            filter_type,
            gain,
            line,
            inputs.drop_last(),
            outputs.drop_last(),
        )
        &&& is_comb_output(
            filter_type,
            gain,
            comb_line_in_blocks(filter_type, line, inputs.drop_last(), outputs.drop_last()),
            inputs.last(),
            outputs.last(),
        )
    }
}

/// Processing a stream block after block, however it is cut (blocks may be
/// empty), gives what processing it in one block gives, and leaves the delay
/// line as that does.
pub proof fn lemma_blocks_as_one<S: Add<Output = S> + Mul<Output = S>>(
    filter_type: FilterType,
    gain: S,
    line: RingView<S>,
    inputs: Seq<Seq<S>>,
    outputs: Seq<Seq<S>>,
)
    requires
        line.wf(),
        same_shape(inputs, outputs),
    ensures
        outputs.flatten_alt().len() == inputs.flatten_alt().len(),
        is_comb_output_in_blocks(filter_type, gain, line, inputs, outputs) <==> is_comb_output(
            filter_type,
            gain,
            line,
            inputs.flatten_alt(),
            outputs.flatten_alt(),
        ),
        comb_line_in_blocks(filter_type, line, inputs, outputs) == comb_line(
            filter_type,
            line,
            inputs.flatten_alt(),
            outputs.flatten_alt(),
        ),
    decreases inputs.len(),
{
    if inputs.len() > 0 {
        let head = inputs.drop_last().flatten_alt();
        let head_output = outputs.drop_last().flatten_alt();
        assert(same_shape(inputs.drop_last(), outputs.drop_last())) by {
            assert forall|i: int| 0 <= i < inputs.len() - 1 implies (
            #[trigger] outputs.drop_last()[i]).len() == inputs.drop_last()[i].len() by {
                assert(outputs[i].len() == inputs[i].len());
            }
        }
        assert(outputs.last().len() == inputs.last().len());
        lemma_blocks_as_one(filter_type, gain, line, inputs.drop_last(), outputs.drop_last());
        match filter_type {
            FilterType::FIR => {
                lemma_fir_two_blocks(
                    gain,
                    line,
                    head,
                    inputs.last(),
                    head_output,
                    outputs.last(),
                );
                lemma_advance_concat(line, head, inputs.last());
            },
            FilterType::IIR => {
                lemma_iir_two_blocks(
                    gain,
                    line,
                    head,
                    inputs.last(),
                    head_output,
                    outputs.last(),
                );
                lemma_advance_concat(line, head_output, outputs.last());
            },
        }
    }
}

/// Two ways of cutting one stream into blocks give the same outputs and
/// leave the same delay line.
pub proof fn lemma_chunk_invariance<S: Add<Output = S> + Mul<Output = S>>(
    filter_type: FilterType,
    gain: S,
    line: RingView<S>,
    inputs: Seq<Seq<S>>,
    outputs: Seq<Seq<S>>,
    other_inputs: Seq<Seq<S>>,
    other_outputs: Seq<Seq<S>>,
)
    requires
        line.wf(),
        same_shape(inputs, outputs),
        same_shape(other_inputs, other_outputs),
        inputs.flatten_alt() == other_inputs.flatten_alt(),
        outputs.flatten_alt() == other_outputs.flatten_alt(),
    ensures
        is_comb_output_in_blocks(filter_type, gain, line, inputs, outputs)
            <==> is_comb_output_in_blocks(filter_type, gain, line, other_inputs, other_outputs),
        comb_line_in_blocks(filter_type, line, inputs, outputs) == comb_line_in_blocks(
            filter_type,
            line,
            other_inputs,
            other_outputs,
        ),
{
    lemma_blocks_as_one(filter_type, gain, line, inputs, outputs);
    lemma_blocks_as_one(filter_type, gain, line, other_inputs, other_outputs);
}

/// With no delay a feedforward filter mixes each input with itself: it
/// scales the input by one plus the gain.
pub proof fn lemma_fir_no_delay<S: Add<Output = S> + Mul<Output = S>>(
    gain: S,
    line: RingView<S>,
    input: Seq<S>,
    output: Seq<S>,
)
    requires
        line.len() == 0,
        is_fir_output(gain, line, input, output),
    ensures
        forall|n: int|
            0 <= n < input.len() ==> may_mix(input[n], gain, input[n], #[trigger] output[n]),
{
}

/// A line full of one value stays so while that value is all that goes
/// through it.
proof fn lemma_advance_silent<S>(line: RingView<S>, values: Seq<S>, zero: S)
    requires
        line.wf(),
        line.filled_with(zero),
        forall|i: int| 0 <= i < values.len() ==> values[i] == zero,
    ensures
        advance(line, values).filled_with(zero),
    decreases values.len(),
{
    if values.len() > 0 {
        lemma_advance_cursors(line, values.drop_last());
        lemma_advance_silent(line, values.drop_last(), zero);
    }
}

proof fn lemma_iir_silent_prefix<S: Add<Output = S> + Mul<Output = S>>(
    gain: S,
    line: RingView<S>,
    input: Seq<S>,
    output: Seq<S>,
    zero: S,
    m: int,
)
    requires
        line.wf(),
        line.filled_with(zero),
        forall|n: int| 0 <= n < input.len() ==> input[n] == zero,
        forall|y: S| #[trigger] may_mix(zero, gain, zero, y) ==> y == zero,
        is_iir_output(gain, line, input, output),
        0 <= m <= output.len(),
    ensures
        forall|n: int| 0 <= n < m ==> output[n] == zero,
    decreases m,
{
    if m > 0 {
        lemma_iir_silent_prefix(gain, line, input, output, zero, m - 1);
        lemma_mod_bound(line.read + m - 1, line.capacity());
        lemma_mod_bound(line.write - line.read, line.capacity());
        assert(may_mix(input[m - 1], gain, iir_tap(line, output, m - 1), output[m - 1]));
    }
}

/// Silence in, silence out: where the delay line holds nothing but zero,
/// the input is zero throughout, and zero plus the gain times zero is zero,
/// every output is zero and the delay line still holds nothing else.
pub proof fn lemma_silence<S: Add<Output = S> + Mul<Output = S>>(
    filter_type: FilterType,
    gain: S,
    line: RingView<S>,
    input: Seq<S>,
    output: Seq<S>,
    zero: S,
)
    requires
        line.wf(),
        line.filled_with(zero),
        forall|n: int| 0 <= n < input.len() ==> input[n] == zero,
        forall|y: S| #[trigger] may_mix(zero, gain, zero, y) ==> y == zero,
        is_comb_output(filter_type, gain, line, input, output),
    ensures
        forall|n: int| 0 <= n < output.len() ==> output[n] == zero,
        comb_line(filter_type, line, input, output).filled_with(zero),
{
    match filter_type {
        FilterType::FIR => {
            assert forall|n: int| 0 <= n < output.len() implies output[n] == zero by {
                lemma_mod_bound(line.read + n, line.capacity());
                lemma_mod_bound(line.write - line.read, line.capacity());
                assert(may_mix(input[n], gain, fir_tap(line, input, n), output[n]));
            }
            lemma_advance_silent(line, input, zero);
        },
        FilterType::IIR => {
            lemma_iir_silent_prefix(gain, line, input, output, zero, output.len() as int);
            lemma_advance_silent(line, output, zero);
        },
    }
}

} // verus!
