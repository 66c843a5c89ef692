//! Feedforward and feedback comb filters over per-channel delay lines.

use crate::comb_proofs::{lemma_advance_keeps_gap, lemma_fir_read, lemma_iir_read};
use crate::ring_buffer::{wrapping_index, RingBuffer, RingView};
use crate::sample::{can_halve, can_mix, half, is_half, may_mix, mix};
use core::ops::{Add, Div, Mul};
use vstd::arithmetic::div_mod::{
    lemma_mod_add_multiples_vanish, lemma_small_mod, lemma_sub_mod_noop_right,
};
use vstd::prelude::*;

verus! {

/// The topology of a comb filter.
#[derive(Debug, Clone, Copy, PartialEq, Eq, Structural)]
pub enum FilterType {
    /// Feedforward: the delayed signal is the input.
    FIR,
    /// Feedback: the delayed signal is the output.
    IIR,
}

/// The parameters of a comb filter.
#[derive(Debug, Clone, Copy, PartialEq, Eq, Structural)]
pub enum FilterParam {
    Gain,
    Delay,
}

#[derive(Debug, Clone, Copy, PartialEq, Eq, Structural)]
pub enum Error {
    /// `value` is not accepted for `param`. A delay is given in samples.
    InvalidValue { param: FilterParam, value: i64 },
}

/// The delay line after each of `values` has been pushed and one value has
/// been popped for each.
pub open spec fn advance<S>(line: RingView<S>, values: Seq<S>) -> RingView<S>
    decreases values.len(),
{
    if values.len() == 0 {
        line
    } else {
        advance(line, values.drop_last()).push(values.last()).pop()
    }
}

/// The delayed sample that a feedforward filter mixes into output `n`: the
/// input `delay` samples before input `n`, where `delay` is the distance
/// between the cursors of the delay line; for the first `delay` outputs,
/// what the delay line held. With no delay it is input `n` itself.
pub open spec fn fir_tap<S>(line: RingView<S>, input: Seq<S>, n: int) -> S {
    if n >= line.len() {
        input[n - line.len()]
    } else {
        line.get(n)
    }
}

/// The delay that a feedback filter works with: the distance between the
/// cursors of the delay line, and a whole turn of its storage where they
/// coincide.
pub open spec fn feedback_delay<S>(line: RingView<S>) -> int {
    if line.len() == 0 {
        line.capacity()
    } else {
        line.len()
    }
}

/// The delayed sample that a feedback filter mixes into output `n`: the
/// output `delay` samples before output `n`; for the first `delay` outputs,
/// what the delay line held.
pub open spec fn iir_tap<S>(line: RingView<S>, output: Seq<S>, n: int) -> S {
    if n >= feedback_delay(line) {
        output[n - feedback_delay(line)]
    } else {
        line.get(n)
    }
}

/// `output` is what a feedforward filter may give for `input` on a channel
/// whose delay line starts as `line`.
pub open spec fn is_fir_output<S: Add<Output = S> + Mul<Output = S>>(
    gain: S,
    line: RingView<S>,
    input: Seq<S>,
    output: Seq<S>,
) -> bool {
    &&& output.len() == input.len()
    &&& forall|n: int|
        0 <= n < input.len() ==> may_mix(
            input[n],
            gain,
            fir_tap(line, input, n),
            #[trigger] output[n],
        )
}

/// `output` is what a feedback filter may give for `input` on a channel
/// whose delay line starts as `line`.
pub open spec fn is_iir_output<S: Add<Output = S> + Mul<Output = S>>(
    gain: S,
    line: RingView<S>,
    input: Seq<S>,
    output: Seq<S>,
) -> bool {
    &&& output.len() == input.len()
    &&& forall|n: int|
        0 <= n < input.len() ==> may_mix(
            input[n],
            gain,
            iir_tap(line, output, n),
            #[trigger] output[n],
        )
}

/// `output` is what a filter of the given type may give for `input` on a
/// channel whose delay line starts as `line`.
pub open spec fn is_comb_output<S: Add<Output = S> + Mul<Output = S>>(
    filter_type: FilterType,
    gain: S,
    line: RingView<S>,
    input: Seq<S>,
    output: Seq<S>,
) -> bool {
    match filter_type {
        FilterType::FIR => is_fir_output(gain, line, input, output),
        FilterType::IIR => is_iir_output(gain, line, input, output),
    }
}

/// The delay line of a channel after it gave `output` for `input`: a
/// feedforward filter has stored the input, a feedback filter the output.
pub open spec fn comb_line<S>(
    filter_type: FilterType,
    line: RingView<S>,
    input: Seq<S>,
    output: Seq<S>,
) -> RingView<S> {
    match filter_type {
        FilterType::FIR => advance(line, input),
        FilterType::IIR => advance(line, output),
    }
}

/// What a comb filter holds: its topology, its gain, and one delay line for
/// each channel.
pub struct CombView<S> {
    pub filter_type: FilterType,
    pub gain: S,
    pub lines: Seq<RingView<S>>,
}

impl<S> CombView<S> {
    /// All delay lines have one capacity and one distance between their
    /// cursors, and a feedback loop is never closed over no delay at all
    /// where the lines can hold one.
    pub open spec fn wf(self) -> bool {
        &&& forall|c: int|
            0 <= c < self.lines.len() ==> {
                &&& (#[trigger] self.lines[c]).wf()
                &&& self.lines[c].capacity() == self.lines[0].capacity()
                &&& self.lines[c].len() == self.lines[0].len()
            }
        &&& self.lines.len() > 0 && self.max_delay() > 0 ==> self.min_delay() <= self.delay()
    }

    /// The delay in samples: the distance between the cursors of the delay
    /// lines. It takes a channel to have one.
    pub open spec fn delay(self) -> int
        recommends
            self.lines.len() > 0,
    {
        self.lines[0].len()
    }

    /// The longest delay that the delay lines can hold.
    pub open spec fn max_delay(self) -> int
        recommends
            self.lines.len() > 0,
    {
        self.lines[0].capacity() - 1
    }

    /// The shortest delay of the topology: a feedback loop needs one sample.
    pub open spec fn min_delay(self) -> int {
        match self.filter_type {
            FilterType::FIR => 0,
            FilterType::IIR => 1,
        }
    }

    /// `delay` is a delay that the topology and the capacity allow.
    pub open spec fn accepts_delay(self, delay: int) -> bool
        recommends
            self.lines.len() > 0,
    {
        self.min_delay() <= delay <= self.max_delay()
    }
}

/// A comb filter on samples of type `S`, with one delay line for each
/// channel. Its delay is not stored: it is the distance between the cursors
/// of its delay lines.
pub struct CombFilter<S> {
    filter_type: FilterType,
    gain: S,
    delay_lines: Vec<RingBuffer<S>>,
}

impl<S> View for CombFilter<S> {
    type V = CombView<S>;

    closed spec fn view(&self) -> CombView<S> {
        CombView {
            filter_type: self.filter_type,
            gain: self.gain,
            lines: Seq::new(self.delay_lines.len() as nat, |c: int| self.delay_lines[c]@),
        }
    }
}

impl<S> CombFilter<S> where
    S: Copy + Default + Add<Output = S> + Mul<Output = S> + Div<Output = S> + From<u8>,
 {
    /// A filter of the given topology with `num_channels` delay lines, each
    /// cleared and long enough for `max_delay` samples. The gain is one half
    /// and the delay is `max_delay`.
    pub fn new(filter_type: FilterType, max_delay: usize, num_channels: usize) -> (filter: Self)
        requires
            can_halve::<S>(),
            max_delay < usize::MAX,
        ensures
            filter@.wf(),
            filter@.filter_type == filter_type,
            is_half(filter@.gain),
            filter@.lines.len() == num_channels,
            forall|c: int|
                0 <= c < num_channels ==> {
                    &&& (#[trigger] filter@.lines[c]).is_silent()
                    &&& filter@.lines[c].write == 0
                    &&& filter@.lines[c].capacity() == max_delay + 1
                    &&& filter@.lines[c].len() == max_delay
                },
    {
        let delay_line_size = max_delay + 1;
        let mut delay_lines: Vec<RingBuffer<S>> = Vec::with_capacity(num_channels);
        while delay_lines.len() < num_channels
            invariant
                delay_line_size == max_delay + 1,
                delay_lines.len() <= num_channels,
                forall|c: int|
                    0 <= c < delay_lines.len() ==> {
                        &&& (#[trigger] delay_lines[c])@.wf()
                        &&& delay_lines[c]@.is_silent()
                        &&& delay_lines[c]@.write == 0
                        &&& delay_lines[c]@.capacity() == max_delay + 1
                        &&& delay_lines[c]@.len() == max_delay
                    },
            decreases num_channels - delay_lines.len(),
        {
            let mut delay_line = RingBuffer::new(delay_line_size);
            set_line_delay(&mut delay_line, max_delay);
            delay_lines.push(delay_line);
        }
        let filter = CombFilter { filter_type, gain: half(), delay_lines };
        proof {
            assert forall|c: int| 0 <= c < filter@.lines.len() implies {
                &&& (#[trigger] filter@.lines[c]).wf()
                &&& filter@.lines[c].is_silent()
                &&& filter@.lines[c].write == 0
                &&& filter@.lines[c].capacity() == max_delay + 1
                &&& filter@.lines[c].len() == max_delay
            } by {
                assert(filter@.lines[c] == filter.delay_lines[c]@);
            }
        }
        filter
    }
}

impl<S: Copy + Default + Add<Output = S> + Mul<Output = S>> CombFilter<S> {
    /// Clears every delay line. Gain and delay stay as they are.
    pub fn reset(&mut self)
        requires
            old(self)@.wf(),
        ensures
            final(self)@.wf(),
            final(self)@.filter_type == old(self)@.filter_type,
            final(self)@.gain == old(self)@.gain,
            final(self)@.lines.len() == old(self)@.lines.len(),
            forall|c: int|
                0 <= c < final(self)@.lines.len() ==> {
                    &&& (#[trigger] final(self)@.lines[c]).is_silent()
                    &&& final(self)@.lines[c].write == 0
                    &&& final(self)@.lines[c].capacity() == old(self)@.lines[c].capacity()
                    &&& final(self)@.lines[c].len() == old(self)@.lines[c].len()
                },
    {
        let mut i: usize = 0;
        while i < self.delay_lines.len()
            invariant
                old(self)@.wf(),
                i <= self.delay_lines.len(),
                self.filter_type == old(self).filter_type,
                self.gain == old(self).gain,
                self.delay_lines.len() == old(self).delay_lines.len(),
                forall|c: int|
                    i <= c < self.delay_lines.len() ==> self.delay_lines[c] == old(
                        self,
                    ).delay_lines[c],
                forall|c: int|
                    0 <= c < i ==> {
                        &&& (#[trigger] self.delay_lines[c])@.wf()
                        &&& self.delay_lines[c]@.is_silent()
                        &&& self.delay_lines[c]@.write == 0
                        &&& self.delay_lines[c]@.capacity() == old(self)@.lines[c].capacity()
                        &&& self.delay_lines[c]@.len() == old(self)@.lines[c].len()
                    },
            decreases self.delay_lines.len() - i,
        {
            assert(old(self)@.lines[i as int] == self.delay_lines[i as int]@);
            rehome(&mut self.delay_lines[i]);
            i += 1;
        }
        proof {
            assert forall|c: int| 0 <= c < self@.lines.len() implies {
                &&& (#[trigger] self@.lines[c]).wf()
                &&& self@.lines[c].is_silent()
                &&& self@.lines[c].write == 0
                &&& self@.lines[c].capacity() == old(self)@.lines[c].capacity()
                &&& self@.lines[c].len() == old(self)@.lines[c].len()
            } by {
                assert(self@.lines[c] == self.delay_lines[c]@);
                assert(old(self)@.lines[c].wf());
            }
            if self@.lines.len() > 0 {
                assert(old(self)@.lines[0].wf());
                assert(self@.lines[0].wf());
            }
        }
    }

    /// Filters one block of each channel: `input[c]` through the delay line
    /// of channel `c` into `output[c]`, which is written in place. No
    /// channel sees the samples of another, and the delay stays as it is.
    pub fn process(&mut self, input: &[&[S]], output: &mut [&mut [S]])
        requires
            old(self)@.wf(),
            can_mix::<S>(),
            input.len() == old(self)@.lines.len(),
            old(output).len() == input.len(),
            forall|c: int| 0 <= c < input.len() ==> old(output)[c].len() == (#[trigger] input[c]).len(),
        ensures
            final(self)@.wf(),
            final(self)@.filter_type == old(self)@.filter_type,
            final(self)@.gain == old(self)@.gain,
            final(self)@.lines.len() == old(self)@.lines.len(),
            final(output).len() == old(output).len(),
            forall|c: int|
                0 <= c < input.len() ==> final(#[trigger] final(output)[c])@ == final(old(output)[c])@,
            forall|c: int|
                0 <= c < input.len() ==> {
                    &&& (#[trigger] final(self)@.lines[c]).capacity() == old(self)@.lines[c].capacity()
                    &&& final(self)@.lines[c].len() == old(self)@.lines[c].len()
                },
            forall|c: int|
                0 <= c < input.len() ==> {
                    &&& is_comb_output(
                        old(self)@.filter_type,
                        old(self)@.gain,
                        old(self)@.lines[c],
                        (#[trigger] input[c])@,
                        final(output)[c]@,
                    )
                    &&& final(self)@.lines[c] == comb_line(
                        old(self)@.filter_type,
                        old(self)@.lines[c],
                        input[c]@,
                        final(output)[c]@,
                    )
                },
    {
        let mut i: usize = 0;
        while i < self.delay_lines.len()
            invariant
                can_mix::<S>(),
                self@.wf(),
                i <= self.delay_lines.len(),
                self.filter_type == old(self).filter_type,
                self.gain == old(self).gain,
                self.delay_lines.len() == old(self).delay_lines.len(),
                input.len() == self.delay_lines.len(),
                output.len() == input.len(),
                forall|c: int| i <= c < input.len() ==> self.delay_lines[c] == old(self).delay_lines[c],
                forall|c: int| i <= c < input.len() ==> output[c].len() == (#[trigger] input[c]).len(),
                forall|c: int|
                    0 <= c < input.len() ==> final(#[trigger] output[c])@ == final(old(output)[c])@,
                forall|c: int|
                    0 <= c < input.len() ==> {
                        &&& (#[trigger] self@.lines[c]).capacity() == old(self)@.lines[c].capacity()
                        &&& self@.lines[c].len() == old(self)@.lines[c].len()
                    },
                forall|c: int|
                    0 <= c < i ==> {
                        &&& is_comb_output(
                            self.filter_type,
                            self.gain,
                            old(self)@.lines[c],
                            (#[trigger] input[c])@,
                            output[c]@,
                        )
                        &&& self@.lines[c] == comb_line(
                            self.filter_type,
                            old(self)@.lines[c],
                            input[c]@,
                            output[c]@,
                        )
                    },
            decreases self.delay_lines.len() - i,
        {
            let ghost before = self@;
            let ghost line = self.delay_lines[i as int]@;
            proof {
                assert(before.lines[i as int] == line);
                assert(before.lines[0].wf());
                lemma_advance_keeps_gap(line, input[i as int]@);
            }
            match self.filter_type {
                FilterType::FIR => {
                    process_fir(self.gain, &mut self.delay_lines[i], input[i], output[i]);
                },
                FilterType::IIR => {
                    process_iir(self.gain, &mut self.delay_lines[i], input[i], output[i]);
                    proof {
                        lemma_advance_keeps_gap(line, output[i as int]@);
                    }
                },
            }
            proof {
                let after = self@;
                assert forall|c: int| 0 <= c < after.lines.len() implies {
                    &&& (#[trigger] after.lines[c]).wf()
                    &&& after.lines[c].capacity() == before.lines[c].capacity()
                    &&& after.lines[c].len() == before.lines[c].len()
                } by {
                    if c != i {
                        assert(after.lines[c] == before.lines[c]);
                    }
                }
            }
            i += 1;
        }
    }

    /// Sets the gain. Every value is accepted.
    pub fn set_gain(&mut self, gain: S)
        ensures
            final(self)@ == (CombView { gain, ..old(self)@ }),
    {
        self.gain = gain;
    }

    /// The gain.
    pub fn gain(&self) -> (gain: S)
        ensures
            gain == self@.gain,
    {
        self.gain
    }

    /// The topology.
    pub fn filter_type(&self) -> (filter_type: FilterType)
        ensures
            filter_type == self@.filter_type,
    {
        self.filter_type
    }

    /// The number of channels.
    pub fn num_channels(&self) -> (num_channels: usize)
        ensures
            num_channels == self@.lines.len(),
    {
        self.delay_lines.len()
    }

    /// Sets the delay, in samples, by moving the read cursor of each delay
    /// line behind its own write cursor. A delay that the topology or the
    /// capacity does not allow is refused and changes nothing.
    pub fn set_delay(&mut self, delay: i64) -> (result: Result<(), Error>)
        requires
            old(self)@.wf(),
            old(self)@.lines.len() > 0,
        ensures
            final(self)@.wf(),
            final(self)@.filter_type == old(self)@.filter_type,
            final(self)@.gain == old(self)@.gain,
            final(self)@.lines.len() == old(self)@.lines.len(),
            match result {
                Ok(()) => {
                    &&& old(self)@.accepts_delay(delay as int)
                    &&& final(self)@.delay() == delay
                    &&& forall|c: int|
                        0 <= c < final(self)@.lines.len() ==> #[trigger] final(self)@.lines[c]
                            == old(self)@.lines[c].with_read(
                            old(self)@.lines[c].capacity() + old(self)@.lines[c].write - delay,
                        )
                },
                Err(error) => {
                    &&& !old(self)@.accepts_delay(delay as int)
                    &&& error == (Error::InvalidValue { param: FilterParam::Delay, value: delay })
                    &&& final(self)@ == old(self)@
                },
            },
    {
        let min_delay: i64 = match self.filter_type {
            FilterType::FIR => 0,
            // A feedback loop cannot be closed over no delay.
            FilterType::IIR => 1,
        };
        assert(old(self)@.lines[0] == self.delay_lines[0]@);
        let max_delay = self.delay_lines[0].capacity() - 1;
        if delay < min_delay || delay as u64 > max_delay as u64 {
            return Err(Error::InvalidValue { param: FilterParam::Delay, value: delay });
        }
        let delay_samples = delay as usize;
        let mut i: usize = 0;
        while i < self.delay_lines.len()
            invariant
                old(self)@.wf(),
                delay_samples == delay,
                old(self)@.accepts_delay(delay as int),
                i <= self.delay_lines.len(),
                self.filter_type == old(self).filter_type,
                self.gain == old(self).gain,
                self.delay_lines.len() == old(self).delay_lines.len(),
                forall|c: int|
                    i <= c < self.delay_lines.len() ==> self.delay_lines[c] == old(
                        self,
                    ).delay_lines[c],
                forall|c: int|
                    0 <= c < i ==> {
                        &&& (#[trigger] self.delay_lines[c])@.wf()
                        &&& self.delay_lines[c]@.len() == delay
                        &&& self.delay_lines[c]@ == old(self)@.lines[c].with_read(
                            old(self)@.lines[c].capacity() + old(self)@.lines[c].write - delay,
                        )
                    },
            decreases self.delay_lines.len() - i,
        {
            assert(old(self)@.lines[i as int] == self.delay_lines[i as int]@);
            set_line_delay(&mut self.delay_lines[i], delay_samples);
            i += 1;
        }
        proof {
            assert forall|c: int| 0 <= c < self@.lines.len() implies {
                &&& (#[trigger] self@.lines[c]).wf()
                &&& self@.lines[c].len() == delay
                &&& self@.lines[c].capacity() == old(self)@.lines[0].capacity()
                &&& self@.lines[c] == old(self)@.lines[c].with_read(
                    old(self)@.lines[c].capacity() + old(self)@.lines[c].write - delay,
                )
            } by {
                assert(self@.lines[c] == self.delay_lines[c]@);
                assert(old(self)@.lines[c].wf());
            }
        }
        Ok(())
    }

    /// The delay in samples: the distance between the cursors, whatever has
    /// been processed since it was set.
    pub fn delay(&self) -> (delay: usize)
        requires
            self@.wf(),
            self@.lines.len() > 0,
        ensures
            delay == self@.delay(),
            self@.min_delay() <= delay || self@.max_delay() == 0,
            delay <= self@.max_delay(),
    {
        assert(self@.lines[0] == self.delay_lines[0]@);
        self.delay_lines[0].len()
    }
}

fn process_fir<S: Copy + Default + Add<Output = S> + Mul<Output = S>>(
    gain: S,
    delay_line: &mut RingBuffer<S>,
    input: &[S],
    output: &mut [S],
)
    requires
        old(delay_line)@.wf(),
        can_mix::<S>(),
        input.len() == old(output).len(),
    ensures
        is_fir_output(gain, old(delay_line)@, input@, final(output)@),
        final(delay_line)@ == advance(old(delay_line)@, input@),
{
    let ghost start = delay_line@;
    let mut k: usize = 0;
    while k < input.len()
        invariant
            can_mix::<S>(),
            start.wf(),
            k <= input.len(),
            output.len() == input.len(),
            delay_line@ == advance(start, input@.take(k as int)),
            forall|n: int|
                0 <= n < k ==> may_mix(
                    input[n],
                    gain,
                    fir_tap(start, input@, n),
                    #[trigger] output[n],
                ),
        decreases input.len() - k,
    {
        let x = input[k];
        // The input goes in first, so that a delay of zero reads it back.
        delay_line.push(x);
        let delayed = delay_line.pop();
        output[k] = mix(x, gain, delayed);
        proof {
            assert(input@.take(k + 1).drop_last() == input@.take(k as int));
            lemma_fir_read(start, input@, k as int);
        }
        k += 1;
    }
    proof {
        assert(input@.take(k as int) == input@);
    }
}

fn process_iir<S: Copy + Default + Add<Output = S> + Mul<Output = S>>(
    gain: S,
    delay_line: &mut RingBuffer<S>,
    input: &[S],
    output: &mut [S],
)
    requires
        old(delay_line)@.wf(),
        can_mix::<S>(),
        input.len() == old(output).len(),
    ensures
        is_iir_output(gain, old(delay_line)@, input@, final(output)@),
        final(delay_line)@ == advance(old(delay_line)@, final(output)@),
{
    let ghost start = delay_line@;
    let mut k: usize = 0;
    while k < input.len()
        invariant
            can_mix::<S>(),
            start.wf(),
            k <= input.len(),
            output.len() == input.len(),
            delay_line@ == advance(start, output@.take(k as int)),
            forall|n: int|
                0 <= n < k ==> may_mix(
                    input[n],
                    gain,
                    iir_tap(start, output@, n),
                    #[trigger] output[n],
                ),
        decreases input.len() - k,
    {
        let ghost before = output@;
        let ghost line = delay_line@;
        let x = input[k];
        let delayed = delay_line.pop();
        let y = mix(x, gain, delayed);
        output[k] = y;
        delay_line.push(y);
        proof {
            assert(output@.take(k + 1).drop_last() == before.take(k as int));
            assert(output@.take(k as int) == before.take(k as int));
            assert(line.pop().push(y) =~= line.push(y).pop());
            lemma_iir_read(start, output@, k as int);
        }
        k += 1;
    }
    proof {
        assert(output@.take(k as int) == output@);
    }
}

/// Clears a delay line and puts its write cursor at 0, keeping the distance
/// between its cursors.
fn rehome<S: Copy + Default>(delay_line: &mut RingBuffer<S>)
    ensures
        old(delay_line)@.wf(),
        final(delay_line)@.wf(),
        final(delay_line)@.is_silent(),
        final(delay_line)@.write == 0,
        final(delay_line)@.capacity() == old(delay_line)@.capacity(),
        final(delay_line)@.len() == old(delay_line)@.len(),
{
    let gap = delay_line.len();
    let capacity = delay_line.capacity();
    delay_line.reset();
    delay_line.set_read_index(capacity - gap);
    proof {
        let n = capacity as int;
        if gap == 0 {
            lemma_mod_add_multiples_vanish(0, n);
            lemma_small_mod(0, n as nat);
        } else {
            lemma_small_mod((n - gap) as nat, n as nat);
            lemma_mod_add_multiples_vanish(gap - n, n);
            lemma_small_mod(gap as nat, n as nat);
        }
    }
}

/// Moves the read cursor of a delay line `delay` slots behind its write cursor.
fn set_line_delay<S: Copy + Default>(delay_line: &mut RingBuffer<S>, delay: usize)
    requires
        delay < old(delay_line)@.capacity(),
    ensures
        old(delay_line)@.wf(),
        final(delay_line)@.wf(),
        final(delay_line)@ == old(delay_line)@.with_read(
            old(delay_line)@.capacity() + old(delay_line)@.write - delay,
        ),
        final(delay_line)@.len() == delay,
{
    let capacity = delay_line.capacity();
    let write_index = delay_line.get_write_index();
    let read_index = wrapping_index(write_index, capacity - delay, capacity);
    delay_line.set_read_index(read_index);
    proof {
        let n = capacity as int;
        lemma_small_mod(read_index as nat, n as nat);
        lemma_sub_mod_noop_right(write_index as int, n + write_index - delay, n);
        lemma_mod_add_multiples_vanish(delay - n, n);
        lemma_small_mod(delay as nat, n as nat);
    }
}

} // verus!
