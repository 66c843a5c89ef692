//! Arithmetic on samples.
//!
//! The effects are generic over the sample type. All they ask of it is `+`,
//! `-`, `*` and `/`, a zero (`Default`) and a one (`From<u8>`). What these
//! operators return is left to the type: for an integer-like type each is a
//! function of its operands, for IEEE floating point Rust leaves the bits of
//! a NaN open. The contracts therefore say which values an expression *may*
//! evaluate to, and ask that the operators accept every operand.

use core::ops::{Add, Div, Mul, Sub};
use vstd::prelude::*;

verus! {

/// `z` is a value that `T::default()` may return: the zero of the sample type.
pub open spec fn is_zero<T: Default>(z: T) -> bool {
    call_ensures(T::default, (), z)
}

/// `+` and `*` accept every pair of samples.
pub open spec fn can_mix<T: Add<Output = T> + Mul<Output = T>>() -> bool {
    &&& forall|a: T, b: T| call_requires(<T as Add>::add, (a, b))
    &&& forall|a: T, b: T| call_requires(<T as Mul>::mul, (a, b))
}

/// `y` is a value that `x + gain * delayed` may evaluate to.
pub open spec fn may_mix<T: Add<Output = T> + Mul<Output = T>>(
    x: T,
    gain: T,
    delayed: T,
    y: T,
) -> bool {
    exists|scaled: T|
        {
            &&& #[trigger] call_ensures(<T as Mul>::mul, (gain, delayed), scaled)
            &&& call_ensures(<T as Add>::add, (x, scaled), y)
        }
}

/// `+`, `-` and `*` accept every pair of samples, and `1` converts.
pub open spec fn can_blend<T: Add<Output = T> + Sub<Output = T> + Mul<Output = T> + From<u8>>() -> bool {
    &&& forall|a: T, b: T| call_requires(<T as Add>::add, (a, b))
    &&& forall|a: T, b: T| call_requires(<T as Sub>::sub, (a, b))
    &&& forall|a: T, b: T| call_requires(<T as Mul>::mul, (a, b))
    &&& call_requires(<T as From<u8>>::from, (1u8,))
}

/// `y` is a value that `first * (1 - frac) + frac * second` may evaluate to.
pub open spec fn may_blend<T: Add<Output = T> + Sub<Output = T> + Mul<Output = T> + From<u8>>(
    first: T,
    second: T,
    frac: T,
    y: T,
) -> bool {
    exists|one: T, rest: T, near: T, far: T|
        {
            &&& #[trigger] call_ensures(<T as From<u8>>::from, (1u8,), one)
            &&& #[trigger] call_ensures(<T as Sub>::sub, (one, frac), rest)
            &&& #[trigger] call_ensures(<T as Mul>::mul, (first, rest), near)
            &&& #[trigger] call_ensures(<T as Mul>::mul, (frac, second), far)
            &&& call_ensures(<T as Add>::add, (near, far), y)
        }
}

/// `1` and `2` convert, and the one may be divided by the other.
pub open spec fn can_halve<T: Div<Output = T> + From<u8>>() -> bool {
    &&& call_requires(<T as From<u8>>::from, (1u8,))
    &&& call_requires(<T as From<u8>>::from, (2u8,))
    &&& forall|one: T, two: T|
        call_ensures(<T as From<u8>>::from, (1u8,), one) && call_ensures(
            <T as From<u8>>::from,
            (2u8,),
            two,
        ) ==> call_requires(<T as Div>::div, (one, two))
}

/// `h` is a value that `1 / 2` may evaluate to.
pub open spec fn is_half<T: Div<Output = T> + From<u8>>(h: T) -> bool {
    exists|one: T, two: T|
        {
            &&& #[trigger] call_ensures(<T as From<u8>>::from, (1u8,), one)
            &&& #[trigger] call_ensures(<T as From<u8>>::from, (2u8,), two)
            &&& call_ensures(<T as Div>::div, (one, two), h)
        }
}

/// Computes `1 / 2`.
pub(crate) fn half<T: Div<Output = T> + From<u8>>() -> (h: T)
    requires
        can_halve::<T>(),
    ensures
        is_half(h),
{
    let one = T::from(1u8);
    let two = T::from(2u8);
    one / two
}

/// Computes `x + gain * delayed`.
pub(crate) fn mix<T: Copy + Add<Output = T> + Mul<Output = T>>(x: T, gain: T, delayed: T) -> (y: T)
    requires
        can_mix::<T>(),
    ensures
        may_mix(x, gain, delayed, y),
{
    let scaled = gain * delayed;
    x + scaled
}

/// Computes `first * (1 - frac) + frac * second`.
pub(crate) fn blend<T: Copy + Add<Output = T> + Sub<Output = T> + Mul<Output = T> + From<u8>>(
    first: T,
    second: T,
    frac: T,
) -> (y: T)
    requires
        can_blend::<T>(),
    ensures
        may_blend(first, second, frac, y),
{
    let one = T::from(1u8);
    let rest = one - frac;
    let near = first * rest;
    let far = frac * second;
    near + far
}

} // verus!
