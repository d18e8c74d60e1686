//! Number types and the integer routines they rest on.
pub mod factors;
pub mod rational;
pub mod surd;

use vstd::prelude::*;

verus! {

///Identity trait - returns the multiplicative identity of the type.
pub trait Identity: Sized {
    /// The identity value.
    spec fn spec_identity() -> Self;

    /// Returns the identity value.
    fn identity() -> (r: Self)
        ensures
            r == Self::spec_identity(),
    ;
}

///Absolute value.
pub trait Absolute {
    /// The type of the absolute value.
    type Output;

    /// Returns the absolute value.
    fn absolute(&self) -> Self::Output;
}

///Square root, exact where the type allows it.
pub trait Sqroot {
    /// The type of the root.
    type Output;

    /// The values that have a root in `Output`.
    spec fn sqroot_req(&self) -> bool;

    /// Returns the square root.
    fn sqroot(&self) -> Self::Output
        requires
            self.sqroot_req(),
    ;
}

///Magnitude of a value.
pub trait Magnitude {
    /// The type of the magnitude.
    type Output;

    /// Returns the magnitude.
    fn mag(&self) -> Self::Output;
}

///Conjugate of a value.
pub trait Conjugate: Sized {
    /// Returns the conjugate.
    fn conjugate(&self) -> Self;
}

///Rounding to a whole value; the identity on integers.
pub trait Round {
    /// The type of the rounded value.
    type Output;

    /// Rounds to the nearest whole value.
    fn tround(&self) -> Self::Output;

    /// Rounds up.
    fn tceil(&self) -> Self::Output;

    /// Rounds down.
    fn tfloor(&self) -> Self::Output;
}

impl Identity for u8 {
    open spec fn spec_identity() -> u8 {
        1
    }

    fn identity() -> (r: u8) {
        1
    }
}

impl Identity for u16 {
    open spec fn spec_identity() -> u16 {
        1
    }

    fn identity() -> (r: u16) {
        1
    }
}

impl Identity for u32 {
    open spec fn spec_identity() -> u32 {
        1
    }

    fn identity() -> (r: u32) {
        1
    }
}

impl Identity for u64 {
    open spec fn spec_identity() -> u64 {
        1
    }

    fn identity() -> (r: u64) {
        1
    }
}

impl Identity for u128 {
    open spec fn spec_identity() -> u128 {
        1
    }

    fn identity() -> (r: u128) {
        1
    }
}

impl Identity for i8 {
    open spec fn spec_identity() -> i8 {
        1
    }

    fn identity() -> (r: i8) {
        1
    }
}

impl Identity for i16 {
    open spec fn spec_identity() -> i16 {
        1
    }

    fn identity() -> (r: i16) {
        1
    }
}

impl Identity for i32 {
    open spec fn spec_identity() -> i32 {
        1
    }

    fn identity() -> (r: i32) {
        1
    }
}

impl Identity for i64 {
    open spec fn spec_identity() -> i64 {
        1
    }

    fn identity() -> (r: i64) {
        1
    }
}

impl Identity for i128 {
    open spec fn spec_identity() -> i128 {
        1
    }

    fn identity() -> (r: i128) {
        1
    }
}

impl Absolute for u8 {
    type Output = u8;

    fn absolute(&self) -> (r: u8)
        ensures
            r == *self,
    {
        *self
    }
}

impl Absolute for u16 {
    type Output = u16;

    fn absolute(&self) -> (r: u16)
        ensures
            r == *self,
    {
        *self
    }
}

impl Absolute for u32 {
    type Output = u32;

    fn absolute(&self) -> (r: u32)
        ensures
            r == *self,
    {
        *self
    }
}

impl Absolute for u64 {
    type Output = u64;

    fn absolute(&self) -> (r: u64)
        ensures
            r == *self,
    {
        *self
    }
}

impl Absolute for u128 {
    type Output = u128;

    fn absolute(&self) -> (r: u128)
        ensures
            r == *self,
    {
        *self
    }
}

impl Absolute for i8 {
    type Output = i8;

    /// The absolute value; the smallest value, which has no positive counterpart, is returned unchanged.
    fn absolute(&self) -> (r: i8)
        ensures
            *self == i8::MIN ==> r == *self,
            *self != i8::MIN ==> r == crate::num::factors::abs(*self as int),
    {
        if *self < 0 && *self > i8::MIN {
            -*self
        } else {
            *self
        }
    }
}

impl Absolute for i16 {
    type Output = i16;

    /// The absolute value; the smallest value, which has no positive counterpart, is returned unchanged.
    fn absolute(&self) -> (r: i16)
        ensures
            *self == i16::MIN ==> r == *self,
            *self != i16::MIN ==> r == crate::num::factors::abs(*self as int),
    {
        if *self < 0 && *self > i16::MIN {
            -*self
        } else {
            *self
        }
    }
}

impl Absolute for i32 {
    type Output = i32;

    /// The absolute value; the smallest value, which has no positive counterpart, is returned unchanged.
    fn absolute(&self) -> (r: i32)
        ensures
            *self == i32::MIN ==> r == *self,
            *self != i32::MIN ==> r == crate::num::factors::abs(*self as int),
    {
        if *self < 0 && *self > i32::MIN {
            -*self
        } else {
            *self
        }
    }
}

impl Absolute for i64 {
    type Output = i64;

    /// The absolute value; the smallest value, which has no positive counterpart, is returned unchanged.
    fn absolute(&self) -> (r: i64)
        ensures
            *self == i64::MIN ==> r == *self,
            *self != i64::MIN ==> r == crate::num::factors::abs(*self as int),
    {
        if *self < 0 && *self > i64::MIN {
            -*self
        } else {
            *self
        }
    }
}

impl Absolute for i128 {
    type Output = i128;

    /// The absolute value; the smallest value, which has no positive counterpart, is returned unchanged.
    fn absolute(&self) -> (r: i128)
        ensures
            *self == i128::MIN ==> r == *self,
            *self != i128::MIN ==> r == crate::num::factors::abs(*self as int),
    {
        if *self < 0 && *self > i128::MIN {
            -*self
        } else {
            *self
        }
    }
}

impl Round for u8 {
    type Output = u8;

    fn tround(&self) -> (r: u8)
        ensures
            r == *self,
    {
        *self
    }

    fn tceil(&self) -> (r: u8)
        ensures
            r == *self,
    {
        *self
    }

    fn tfloor(&self) -> (r: u8)
        ensures
            r == *self,
    {
        *self
    }
}

impl Round for u16 {
    type Output = u16;

    fn tround(&self) -> (r: u16)
        ensures
            r == *self,
    {
        *self
    }

    fn tceil(&self) -> (r: u16)
        ensures
            r == *self,
    {
        *self
    }

    fn tfloor(&self) -> (r: u16)
        ensures
            r == *self,
    {
        *self
    }
}

impl Round for u32 {
    type Output = u32;

    fn tround(&self) -> (r: u32)
        ensures
            r == *self,
    {
        *self
    }

    fn tceil(&self) -> (r: u32)
        ensures
            r == *self,
    {
        *self
    }

    fn tfloor(&self) -> (r: u32)
        ensures
            r == *self,
    {
        *self
    }
}

impl Round for u64 {
    type Output = u64;

    fn tround(&self) -> (r: u64)
        ensures
            r == *self,
    {
        *self
    }

    fn tceil(&self) -> (r: u64)
        ensures
            r == *self,
    {
        *self
    }

    fn tfloor(&self) -> (r: u64)
        ensures
            r == *self,
    {
        *self
    }
}

impl Round for u128 {
    type Output = u128;

    fn tround(&self) -> (r: u128)
        ensures
            r == *self,
    {
        *self
    }

    fn tceil(&self) -> (r: u128)
        ensures
            r == *self,
    {
        *self
    }

    fn tfloor(&self) -> (r: u128)
        ensures
            r == *self,
    {
        *self
    }
}

impl Round for i8 {
    type Output = i8;

    fn tround(&self) -> (r: i8)
        ensures
            r == *self,
    {
        *self
    }

    fn tceil(&self) -> (r: i8)
        ensures
            r == *self,
    {
        *self
    }

    fn tfloor(&self) -> (r: i8)
        ensures
            r == *self,
    {
        *self
    }
}

impl Round for i16 {
    type Output = i16;

    fn tround(&self) -> (r: i16)
        ensures
            r == *self,
    {
        *self
    }

    fn tceil(&self) -> (r: i16)
        ensures
            r == *self,
    {
        *self
    }

    fn tfloor(&self) -> (r: i16)
        ensures
            r == *self,
    {
        *self
    }
}

impl Round for i32 {
    type Output = i32;

    fn tround(&self) -> (r: i32)
        ensures
            r == *self,
    {
        *self
    }

    fn tceil(&self) -> (r: i32)
        ensures
            r == *self,
    {
        *self
    }

    fn tfloor(&self) -> (r: i32)
        ensures
            r == *self,
    {
        *self
    }
}

impl Round for i64 {
    type Output = i64;

    fn tround(&self) -> (r: i64)
        ensures
            r == *self,
    {
        *self
    }

    fn tceil(&self) -> (r: i64)
        ensures
            r == *self,
    {
        *self
    }

    fn tfloor(&self) -> (r: i64)
        ensures
            r == *self,
    {
        *self
    }
}

impl Round for i128 {
    type Output = i128;

    fn tround(&self) -> (r: i128)
        ensures
            r == *self,
    {
        *self
    }

    fn tceil(&self) -> (r: i128)
        ensures
            r == *self,
    {
        *self
    }

    fn tfloor(&self) -> (r: i128)
        ensures
            r == *self,
    {
        *self
    }
}

} // verus!
