//! A modulated delay: each output is read from the delay line at a tap that
//! moves from sample to sample, blending the two slots it falls between.

use crate::ring_buffer::{wrapping_index, RingBuffer, RingView};
use crate::sample::{can_blend, may_blend};
use crate::vibrato_proofs::lemma_shifted_read;
use core::ops::{Add, Mul, Sub};
use vstd::arithmetic::div_mod::{lemma_add_mod_noop, lemma_mod_twice, lemma_small_mod};
use vstd::prelude::*;

verus! {

/// The parameters of the modulation.
#[allow(non_camel_case_types)]
#[derive(Debug, Clone, Copy, PartialEq, Eq, Structural)]
pub enum fxParam {
    ModFreq,
    Width,
}

#[derive(Debug, Clone, Copy, PartialEq, Eq, Structural)]
pub enum Error {
    /// `value` is not accepted for `param`. A width is given in samples.
    InvalidValue { param: fxParam, value: usize },
}

/// Where to read the delay line for one output: between slot `index` and
/// the slot after it, `frac` of the way to the latter.
#[derive(Debug)]
pub struct Tap<S> {
    pub index: usize,
    pub frac: S,
}

/// The delay line with `value` shifted in: it is written at the cursors,
/// which then step back by one slot. Counted from the cursors, slot 1 now
/// holds `value` and every older value has moved up by one slot.
pub open spec fn shift_in<S>(line: RingView<S>, value: S) -> RingView<S> {
    let home = line.write + line.capacity() - 1;
    line.put(value).with_write(home).with_read(home)
}

/// The delay line with each of `values` shifted in, the first one first.
pub open spec fn shifted<S>(line: RingView<S>, values: Seq<S>) -> RingView<S>
    decreases values.len(),
{
    if values.len() == 0 {
        line
    } else {
        shift_in(shifted(line, values.drop_last()), values.last())
    }
}

/// Slot `slot` of the delay line, counted from its cursors and wrapped into
/// its storage, once input `n` has been shifted in. Slot 1 holds input `n`,
/// slot 2 the input before it, and so on; a slot that the inputs have not
/// reached holds what the delay line held that much nearer to its cursors.
pub open spec fn delayed<S>(line: RingView<S>, input: Seq<S>, n: int, slot: int) -> S {
    let back = (slot - 1) % line.capacity();
    if back <= n {
        input[n - back]
    } else {
        line.get(back - n)
    }
}

/// `output` is what the effect may give for `input`, read at `taps`, on a
/// channel whose delay line starts as `line`.
pub open spec fn is_vibrato_output<S>(
    line: RingView<S>,
    input: Seq<S>,
    taps: Seq<Tap<S>>,
    output: Seq<S>,
) -> bool where S: Add<Output = S> + Sub<Output = S> + Mul<Output = S> + From<u8> {
    &&& output.len() == input.len()
    &&& forall|n: int|
        0 <= n < input.len() ==> may_blend(
            delayed(line, input, n, taps[n].index as int),
            delayed(line, input, n, taps[n].index + 1),
            taps[n].frac,
            #[trigger] output[n],
        )
}

/// Shifts `value` into the delay line.
fn shift_into<S: Copy + Default>(delay_line: &mut RingBuffer<S>, value: S)
    ensures
        old(delay_line)@.wf(),
        final(delay_line)@.wf(),
        final(delay_line)@ == shift_in(old(delay_line)@, value),
{
    let capacity = delay_line.capacity();
    let home = wrapping_index(delay_line.get_write_index(), capacity - 1, capacity);
    delay_line.put(value);
    delay_line.set_write_index(home);
    delay_line.set_read_index(home);
    proof {
        lemma_mod_twice(old(delay_line)@.write + capacity - 1, capacity as int);
    }
}

/// Reads the delay line at `tap`, counted from its read cursor.
fn read_tap<S>(delay_line: &RingBuffer<S>, tap: &Tap<S>) -> (value: S) where
    S: Copy + Default + Add<Output = S> + Sub<Output = S> + Mul<Output = S> + From<u8>,

    requires
        can_blend::<S>(),
    ensures
        may_blend(
            delay_line@.get(tap.index as int),
            delay_line@.get(tap.index + 1),
            tap.frac,
            value,
        ),
{
    let capacity = delay_line.capacity();
    let index = wrapping_index(delay_line.get_read_index(), tap.index, capacity);
    proof {
        let n = capacity as int;
        lemma_small_mod(index as nat, n as nat);
        lemma_add_mod_noop(delay_line@.read + tap.index, 1, n);
        lemma_add_mod_noop(index as int, 1, n);
    }
    delay_line.get_frac(index, tap.frac)
}

fn process_channel<S>(delay_line: &mut RingBuffer<S>, input: &[S], taps: &[Tap<S>], output: &mut [S]) where
    S: Copy + Default + Add<Output = S> + Sub<Output = S> + Mul<Output = S> + From<u8>,

    requires
        old(delay_line)@.wf(),
        old(delay_line)@.read == old(delay_line)@.write,
        old(delay_line)@.capacity() >= 2,
        can_blend::<S>(),
        taps.len() == input.len(),
        old(output).len() == input.len(),
    ensures
        is_vibrato_output(old(delay_line)@, input@, taps@, final(output)@),
        final(delay_line)@ == shifted(old(delay_line)@, input@),
{
    let ghost start = delay_line@;
    let mut k: usize = 0;
    while k < input.len()
        invariant
            can_blend::<S>(),
            start.wf(),
            start.read == start.write,
            start.capacity() >= 2,
            k <= input.len(),
            taps.len() == input.len(),
            output.len() == input.len(),
            delay_line@ == shifted(start, input@.take(k as int)),
            forall|n: int|
                0 <= n < k ==> may_blend(
                    delayed(start, input@, n, taps[n].index as int),
                    delayed(start, input@, n, taps[n].index + 1),
                    taps[n].frac,
                    #[trigger] output[n],
                ),
        decreases input.len() - k,
    {
        shift_into(delay_line, input[k]);
        output[k] = read_tap(delay_line, &taps[k]);
        proof {
            assert(input@.take(k + 1).drop_last() == input@.take(k as int));
            lemma_shifted_read(start, input@, k as int, taps[k as int].index as int);
            lemma_shifted_read(start, input@, k as int, taps[k as int].index + 1);
        }
        k += 1;
    }
    proof {
        assert(input@.take(k as int) == input@);
    }
}


/// What the effect holds: the base delay and the modulation width, both in
/// samples, the number of samples it has processed on each channel (counted
/// modulo 2^64), and one delay line for each channel.
pub struct VibratoView<S> {
    pub delay: int,
    pub width: int,
    pub position: int,
    pub lines: Seq<RingView<S>>,
}

impl<S> VibratoView<S> {
    /// The number of slots that hold every tap between `1 + delay - width`
    /// and `1 + delay + width` together with the slot after it.
    pub open spec fn line_size(self) -> int {
        2 + self.delay + 2 * self.width
    }

    /// The width does not exceed the delay, and every delay line has
    /// `line_size` slots and both cursors on one of them.
    pub open spec fn wf(self) -> bool {
        &&& 0 <= self.width <= self.delay
        &&& forall|c: int|
            0 <= c < self.lines.len() ==> {
                &&& (#[trigger] self.lines[c]).wf()
                &&& self.lines[c].read == self.lines[c].write
                &&& self.lines[c].capacity() == self.line_size()
            }
    }
}

/// A modulated delay on samples of type `S`, with one delay line for each
/// channel. Where the taps lie is for the caller to say, sample by sample.
pub struct Vibrato<S> {
    delay: usize,
    width: usize,
    position: u64,
    delay_lines: Vec<RingBuffer<S>>,
}

impl<S> View for Vibrato<S> {
    type V = VibratoView<S>;

    closed spec fn view(&self) -> VibratoView<S> {
        VibratoView {
            delay: self.delay as int,
            width: self.width as int,
            position: self.position as int,
            lines: Seq::new(self.delay_lines.len() as nat, |c: int| self.delay_lines[c]@),
        }
    }
}

/// `2 + delay + 2 * width`, where that is a `usize`.
fn line_size(delay: usize, width: usize) -> (size: Option<usize>)
    ensures
        match size {
            Some(size) => size == 2 + delay + 2 * width,
            None => 2 + delay + 2 * width > usize::MAX,
        },
{
    let excursion = width.checked_mul(2)?;
    let span = excursion.checked_add(delay)?;
    span.checked_add(2)
}

impl<S> Vibrato<S> where
    S: Copy + Default + Add<Output = S> + Sub<Output = S> + Mul<Output = S> + From<u8>,
 {
    /// An effect with `num_channels` cleared delay lines for a base delay of
    /// `delay` samples and a modulation width of `width` samples. A width
    /// above the delay, or one whose delay lines no `usize` can size, is
    /// refused.
    pub fn new(delay: usize, width: usize, num_channels: usize) -> (result: Result<Self, Error>)
        ensures
            match result {
                Ok(vibrato) => {
                    &&& width <= delay
                    &&& vibrato@.wf()
                    &&& vibrato@.delay == delay
                    &&& vibrato@.width == width
                    &&& vibrato@.position == 0
                    &&& vibrato@.lines.len() == num_channels
                    &&& forall|c: int|
                        0 <= c < num_channels ==> (#[trigger] vibrato@.lines[c]).is_blank()
                },
                Err(error) => {
                    &&& width > delay || 2 + delay + 2 * width > usize::MAX
                    &&& error == (Error::InvalidValue { param: fxParam::Width, value: width })
                },
            },
    {
        if width > delay {
            return Err(Error::InvalidValue { param: fxParam::Width, value: width });
        }
        let size = match line_size(delay, width) {
            Some(size) => size,
            None => {
                return Err(Error::InvalidValue { param: fxParam::Width, value: width });
            },
        };
        let mut delay_lines: Vec<RingBuffer<S>> = Vec::with_capacity(num_channels);
        while delay_lines.len() < num_channels
            invariant
                size == 2 + delay + 2 * width,
                delay_lines.len() <= num_channels,
                forall|c: int|
                    0 <= c < delay_lines.len() ==> {
                        &&& (#[trigger] delay_lines[c])@.is_blank()
                        &&& delay_lines[c]@.capacity() == size
                    },
            decreases num_channels - delay_lines.len(),
        {
            delay_lines.push(RingBuffer::new(size));
        }
        let vibrato = Vibrato { delay, width, position: 0, delay_lines };
        proof {
            assert forall|c: int| 0 <= c < vibrato@.lines.len() implies {
                &&& (#[trigger] vibrato@.lines[c]).is_blank()
                &&& vibrato@.lines[c].capacity() == size
            } by {
                assert(vibrato@.lines[c] == vibrato.delay_lines[c]@);
            }
        }
        Ok(vibrato)
    }

    /// The base delay in samples.
    pub fn delay(&self) -> (delay: usize)
        ensures
            delay == self@.delay,
    {
        self.delay
    }

    /// The modulation width in samples.
    pub fn width(&self) -> (width: usize)
        ensures
            width == self@.width,
    {
        self.width
    }

    /// The number of channels.
    pub fn num_channels(&self) -> (num_channels: usize)
        ensures
            num_channels == self@.lines.len(),
    {
        self.delay_lines.len()
    }

    /// The number of samples processed so far on each channel, modulo 2^64:
    /// the index of the sample that the next block starts with.
    pub fn position(&self) -> (position: u64)
        ensures
            position == self@.position,
    {
        self.position
    }

    /// Processes one block of each channel: sample `n` of `input[c]` is
    /// shifted into the delay line of channel `c`, and `output[c][n]` is
    /// read from it at `taps[n]`. The outputs are written in place, and no
    /// channel sees the samples of another.
    pub fn process(&mut self, input: &[&[S]], taps: &[Tap<S>], output: &mut [&mut [S]])
        requires
            old(self)@.wf(),
            can_blend::<S>(),
            input.len() == old(self)@.lines.len(),
            old(output).len() == input.len(),
            forall|c: int|
                0 <= c < input.len() ==> {
                    &&& (#[trigger] input[c]).len() == taps.len()
                    &&& old(output)[c].len() == taps.len()
                },
        ensures
            final(self)@.wf(),
            final(self)@.delay == old(self)@.delay,
            final(self)@.width == old(self)@.width,
            final(self)@.position == (old(self)@.position + taps.len()) % 0x1_0000_0000_0000_0000,
            final(self)@.lines.len() == old(self)@.lines.len(),
            final(output).len() == old(output).len(),
            forall|c: int|
                0 <= c < input.len() ==> final(#[trigger] final(output)[c])@ == final(old(output)[c])@,
            forall|c: int|
                0 <= c < input.len() ==> {
                    &&& is_vibrato_output(
                        old(self)@.lines[c],
                        (#[trigger] input[c])@,
                        taps@,
                        final(output)[c]@,
                    )
                    &&& final(self)@.lines[c] == shifted(old(self)@.lines[c], input[c]@)
                },
    {
        let mut i: usize = 0;
        while i < self.delay_lines.len()
            invariant
                can_blend::<S>(),
                old(self)@.wf(),
                i <= self.delay_lines.len(),
                self.delay == old(self).delay,
                self.width == old(self).width,
                self.position == old(self).position,
                self.delay_lines.len() == old(self).delay_lines.len(),
                input.len() == self.delay_lines.len(),
                output.len() == input.len(),
                forall|c: int|
                    i <= c < input.len() ==> self.delay_lines[c] == old(self).delay_lines[c],
                forall|c: int|
                    0 <= c < input.len() ==> (#[trigger] input[c]).len() == taps.len(),
                forall|c: int|
                    i <= c < input.len() ==> output[c].len() == (#[trigger] input[c]).len(),
                forall|c: int|
                    0 <= c < input.len() ==> final(#[trigger] output[c])@ == final(old(output)[c])@,
                forall|c: int|
                    0 <= c < i ==> {
                        &&& is_vibrato_output(
                            old(self)@.lines[c],
                            (#[trigger] input[c])@,
                            taps@,
                            output[c]@,
                        )
                        &&& self.delay_lines[c]@ == shifted(old(self)@.lines[c], input[c]@)
                    },
            decreases self.delay_lines.len() - i,
        {
            assert(old(self)@.lines[i as int] == self.delay_lines[i as int]@);
            process_channel(&mut self.delay_lines[i], input[i], taps, output[i]);
            i += 1;
        }
        self.position = self.position.wrapping_add(taps.len() as u64);
        proof {
            assert forall|c: int| 0 <= c < self@.lines.len() implies {
                &&& (#[trigger] self@.lines[c]).wf()
                &&& self@.lines[c].read == self@.lines[c].write
                &&& self@.lines[c].capacity() == self@.line_size()
                &&& self@.lines[c] == shifted(old(self)@.lines[c], input[c]@)
            } by {
                assert(self@.lines[c] == self.delay_lines[c]@);
                assert(old(self)@.lines[c].wf());
                lemma_shifted_home(old(self)@.lines[c], input[c]@);
            }
        }
    }
}

/// Shifting values in keeps the capacity and leaves both cursors on one slot.
pub proof fn lemma_shifted_home<S>(line: RingView<S>, values: Seq<S>)
    requires
        line.wf(),
        line.read == line.write,
    ensures
        shifted(line, values).wf(),
        shifted(line, values).read == shifted(line, values).write,
        shifted(line, values).capacity() == line.capacity(),
    decreases values.len(),
{
    if values.len() > 0 {
        lemma_shifted_home(line, values.drop_last());
    }
}

} // verus!
