//! A fixed-capacity circular buffer with independent read and write cursors.

use crate::sample::{blend, can_blend, is_zero, may_blend};
use core::ops::{Add, Mul, Sub};
use vstd::arithmetic::div_mod::{
    lemma_add_mod_noop_right, lemma_mod_add_multiples_vanish, lemma_mod_multiples_vanish,
    lemma_mod_sub_multiples_vanish, lemma_small_mod,
};
use vstd::prelude::*;

verus! {

/// What a ring buffer holds: its storage, one slot per unit of capacity, and
/// the positions of its two cursors.
pub struct RingView<T> {
    pub slots: Seq<T>,
    pub read: int,
    pub write: int,
}

impl<T> RingView<T> {
    /// The number of slots.
    pub open spec fn capacity(self) -> int {
        self.slots.len() as int
    }

    /// Both cursors point at a slot.
    pub open spec fn wf(self) -> bool {
        &&& 0 <= self.read < self.capacity()
        &&& 0 <= self.write < self.capacity()
    }

    /// The distance from the read cursor forward to the write cursor.
    pub open spec fn len(self) -> int {
        (self.write - self.read) % self.capacity()
    }

    /// Every slot holds `z`.
    pub open spec fn filled_with(self, z: T) -> bool {
        forall|i: int| 0 <= i < self.capacity() ==> self.slots[i] == z
    }

    /// The slot at position `index`, wrapped into the storage.
    pub open spec fn at(self, index: int) -> T {
        self.slots[index % self.capacity()]
    }

    /// The slot under the read cursor.
    pub open spec fn peek(self) -> T {
        self.slots[self.read]
    }

    /// The slot `offset` positions after the read cursor.
    pub open spec fn get(self, offset: int) -> T {
        self.at(self.read + offset)
    }

    /// The buffer with `value` under the write cursor.
    pub open spec fn put(self, value: T) -> Self {
        RingView { slots: self.slots.update(self.write, value), ..self }
    }

    /// The buffer with `value` under the write cursor and that cursor moved
    /// on by one slot.
    pub open spec fn push(self, value: T) -> Self {
        RingView {
            slots: self.slots.update(self.write, value),
            write: (self.write + 1) % self.capacity(),
            ..self
        }
    }

    /// The buffer with the read cursor moved on by one slot.
    pub open spec fn pop(self) -> Self {
        RingView { read: (self.read + 1) % self.capacity(), ..self }
    }

    /// The buffer with the read cursor at `index`, wrapped into the storage.
    pub open spec fn with_read(self, index: int) -> Self {
        RingView { read: index % self.capacity(), ..self }
    }

    /// The buffer with the write cursor at `index`, wrapped into the storage.
    pub open spec fn with_write(self, index: int) -> Self {
        RingView { write: index % self.capacity(), ..self }
    }

    /// All slots hold one zero of the element type.
    pub open spec fn is_silent(self) -> bool where T: Default {
        &&& self.capacity() > 0
        &&& is_zero(self.slots[0])
        &&& self.filled_with(self.slots[0])
    }

    /// All slots hold one zero of the element type and both cursors are at 0.
    pub open spec fn is_blank(self) -> bool where T: Default {
        &&& self.read == 0
        &&& self.write == 0
        &&& self.is_silent()
    }
}

/// Setting a cursor takes the index modulo the capacity: whole turns of
/// the storage make no difference, and an index below the capacity is kept.
pub proof fn lemma_set_index_wraps<T>(line: RingView<T>, index: int, turns: int)
    requires
        line.capacity() > 0,
    ensures
        line.with_read(index + turns * line.capacity()) == line.with_read(index),
        line.with_write(index + turns * line.capacity()) == line.with_write(index),
        0 <= index < line.capacity() ==> line.with_read(index).read == index && line.with_write(
            index,
        ).write == index,
{
    lemma_mod_multiples_vanish(turns, index, line.capacity());
    assert(index + turns * line.capacity() == line.capacity() * turns + index) by (nonlinear_arith);
    if 0 <= index < line.capacity() {
        lemma_small_mod(index as nat, line.capacity() as nat);
    }
}

/// `(base + offset) % modulus`, computed without leaving `usize`.
pub(crate) fn wrapping_index(base: usize, offset: usize, modulus: usize) -> (index: usize)
    requires
        base < modulus,
    ensures
        index == (base + offset) % (modulus as int),
        index < modulus,
{
    let step = offset % modulus;
    let room = modulus - base;
    proof {
        lemma_add_mod_noop_right(base as int, offset as int, modulus as int);
        if step < room {
            lemma_small_mod((base + step) as nat, modulus as nat);
        } else {
            lemma_mod_sub_multiples_vanish(base + step, modulus as int);
            lemma_small_mod((base + step - modulus) as nat, modulus as nat);
        }
    }
    if step < room {
        base + step
    } else {
        step - room
    }
}

/// A ring buffer. Its capacity is fixed when it is made and is never zero;
/// both cursors always point at a slot, which the contracts state as
/// `wf()` of its view.
pub struct RingBuffer<T> {
    buffer: Vec<T>,
    head: usize,
    tail: usize,
}

impl<T> View for RingBuffer<T> {
    type V = RingView<T>;

    closed spec fn view(&self) -> RingView<T> {
        RingView { slots: self.buffer@, read: self.tail as int, write: self.head as int }
    }
}

impl<T> RingBuffer<T> {
    #[verifier::type_invariant]
    spec fn inv(self) -> bool {
        self.head < self.buffer.len() && self.tail < self.buffer.len()
    }
}

impl<T: Copy + Default> RingBuffer<T> {
    /// A buffer of `capacity` slots, each at the element type's zero, with
    /// both cursors at 0.
    pub fn new(capacity: usize) -> (ring: Self)
        requires
            capacity > 0,
        ensures
            ring@.capacity() == capacity,
            ring@.is_blank(),
    {
        let zero = T::default();
        let mut buffer: Vec<T> = Vec::with_capacity(capacity);
        while buffer.len() < capacity
            invariant
                buffer.len() <= capacity,
                is_zero(zero),
                forall|i: int| 0 <= i < buffer.len() ==> buffer[i] == zero,
            decreases capacity - buffer.len(),
        {
            buffer.push(zero);
        }
        RingBuffer { buffer, head: 0, tail: 0 }
    }

    /// Puts every slot back to zero and both cursors back to 0.
    pub fn reset(&mut self)
        ensures
            old(self)@.wf(),
            final(self)@.capacity() == old(self)@.capacity(),
            final(self)@.is_blank(),
    {
        proof {
            use_type_invariant(&*self);
        }
        let zero = T::default();
        let mut i: usize = 0;
        while i < self.buffer.len()
            invariant
                i <= self.buffer.len(),
                self.buffer.len() == old(self).buffer.len(),
                self.head == old(self).head,
                self.tail == old(self).tail,
                self.head < self.buffer.len(),
                self.tail < self.buffer.len(),
                is_zero(zero),
                forall|j: int| 0 <= j < i ==> self.buffer[j] == zero,
            decreases self.buffer.len() - i,
        {
            self.buffer[i] = zero;
            i += 1;
        }
        self.head = 0;
        self.tail = 0;
    }

    /// Writes at the write cursor without moving it.
    pub fn put(&mut self, value: T)
        ensures
            old(self)@.wf(),
            final(self)@ == old(self)@.put(value),
    {
        proof {
            use_type_invariant(&*self);
        }
        self.buffer[self.head] = value;
    }

    /// Reads at the read cursor without moving it.
    pub fn peek(&self) -> (value: T)
        ensures
            self@.wf(),
            value == self@.peek(),
    {
        proof {
            use_type_invariant(self);
        }
        self.buffer[self.tail]
    }

    /// Reads the slot `offset` places after the read cursor, wrapping round.
    pub fn get(&self, offset: usize) -> (value: T)
        ensures
            self@.wf(),
            value == self@.get(offset as int),
    {
        proof {
            use_type_invariant(self);
        }
        self.buffer[wrapping_index(self.tail, offset, self.buffer.len())]
    }

    /// Writes at the write cursor and moves it on by one.
    pub fn push(&mut self, value: T)
        ensures
            old(self)@.wf(),
            final(self)@ == old(self)@.push(value),
    {
        proof {
            use_type_invariant(&*self);
        }
        self.buffer[self.head] = value;
        self.head = (self.head + 1) % self.buffer.len();
    }

    /// Reads at the read cursor and moves it on by one.
    pub fn pop(&mut self) -> (value: T)
        ensures
            value == old(self)@.peek(),
            old(self)@.wf(),
            final(self)@ == old(self)@.pop(),
    {
        proof {
            use_type_invariant(&*self);
        }
        let value = self.buffer[self.tail];
        self.tail = (self.tail + 1) % self.buffer.len();
        value
    }

    /// The position of the read cursor.
    pub fn get_read_index(&self) -> (index: usize)
        ensures
            index == self@.read,
            self@.wf(),
    {
        proof {
            use_type_invariant(self);
        }
        self.tail
    }

    /// Moves the read cursor to `index`, taken modulo the capacity.
    pub fn set_read_index(&mut self, index: usize)
        ensures
            old(self)@.wf(),
            final(self)@ == old(self)@.with_read(index as int),
    {
        proof {
            use_type_invariant(&*self);
        }
        self.tail = index % self.buffer.len();
    }

    /// The position of the write cursor.
    pub fn get_write_index(&self) -> (index: usize)
        ensures
            index == self@.write,
            self@.wf(),
    {
        proof {
            use_type_invariant(self);
        }
        self.head
    }

    /// Moves the write cursor to `index`, taken modulo the capacity.
    pub fn set_write_index(&mut self, index: usize)
        ensures
            old(self)@.wf(),
            final(self)@ == old(self)@.with_write(index as int),
    {
        proof {
            use_type_invariant(&*self);
        }
        self.head = index % self.buffer.len();
    }

    /// The number of values between the read cursor and the write cursor.
    pub fn len(&self) -> (len: usize)
        ensures
            len == self@.len(),
            len < self@.capacity(),
            self@.wf(),
    {
        proof {
            use_type_invariant(self);
            let n = self.buffer.len() as int;
            if self.head >= self.tail {
                lemma_small_mod((self.head - self.tail) as nat, n as nat);
            } else {
                lemma_mod_add_multiples_vanish(self.head - self.tail, n);
                lemma_small_mod((self.head - self.tail + n) as nat, n as nat);
            }
        }
        if self.head >= self.tail {
            self.head - self.tail
        } else {
            self.buffer.len() - self.tail + self.head
        }
    }

    /// The number of slots; it never changes.
    pub fn capacity(&self) -> (capacity: usize)
        ensures
            capacity == self@.capacity(),
            self@.wf(),
    {
        proof {
            use_type_invariant(self);
        }
        self.buffer.len()
    }
}

impl<T> RingBuffer<T> where
    T: Copy + Default + Add<Output = T> + Sub<Output = T> + Mul<Output = T> + From<u8>,
 {
    /// Blends the slots at positions `index` and `index + 1`, each wrapped
    /// into the storage, with weight `frac` on the second: the read at the
    /// fractional position `index + frac`.
    pub fn get_frac(&self, index: usize, frac: T) -> (value: T)
        requires
            can_blend::<T>(),
        ensures
            self@.wf(),
            may_blend(self@.at(index as int), self@.at(index + 1), frac, value),
    {
        proof {
            use_type_invariant(self);
        }
        let first = wrapping_index(0, index, self.buffer.len());
        let second = wrapping_index(first, 1, self.buffer.len());
        proof {
            lemma_add_mod_noop_right(1, index as int, self.buffer.len() as int);
        }
        blend(self.buffer[first], self.buffer[second], frac)
    }
}

} // verus!
