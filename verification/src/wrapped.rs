//! Eight-bit arithmetic with explicit wraparound.

use vstd::prelude::*;
use vstd::std_specs::ops::AddSpecImpl;
use vstd::std_specs::ops::SubSpecImpl;

verus! {

/// Addition modulo 256.
pub open spec fn wrap_add(x: u8, y: u8) -> u8 {
    ((x + y) % 256) as u8
}

/// Subtraction modulo 256.
pub open spec fn wrap_sub(x: u8, y: u8) -> u8 {
    ((x - y) % 256) as u8
}

/// The signed value that a wrapped delta stands for, in `-128..=127`.
pub open spec fn signed(d: u8) -> int {
    if d < 128 {
        d as int
    } else {
        d - 256
    }
}

/// A byte whose `+` and `-` wrap around instead of overflowing.
#[derive(Debug, PartialEq, Eq, Structural, Copy, Clone)]
pub struct WrappedU8(pub u8);

impl WrappedU8 {
    /// The byte itself.
    pub fn into_inner(self) -> (v: u8)
        ensures
            v == self.0,
    {
        self.0
    }
}

impl core::ops::Add<u8> for WrappedU8 {
    type Output = Self;

    fn add(self, rhs: u8) -> (sum: Self) {
        Self(self.0.wrapping_add(rhs))
    }
}

impl AddSpecImpl<u8> for WrappedU8 {
    open spec fn obeys_add_spec() -> bool {
        true
    }

    open spec fn add_req(self, rhs: u8) -> bool {
        true
    }

    open spec fn add_spec(self, rhs: u8) -> Self {
        WrappedU8(wrap_add(self.0, rhs))
    }
}

impl core::ops::Sub<u8> for WrappedU8 {
    type Output = Self;

    fn sub(self, rhs: u8) -> (diff: Self) {
        Self(self.0.wrapping_sub(rhs))
    }
}

impl SubSpecImpl<u8> for WrappedU8 {
    open spec fn obeys_sub_spec() -> bool {
        true
    }

    open spec fn sub_req(self, rhs: u8) -> bool {
        true
    }

    open spec fn sub_spec(self, rhs: u8) -> Self {
        WrappedU8(wrap_sub(self.0, rhs))
    }
}

/// Adding a delta and then taking it away again gives the byte back, and a
/// wrapped sum is the plain sum of the byte and the signed delta, brought
/// back into `0..=255`.
pub proof fn lemma_wrap_inverse(x: u8, d: u8)
    ensures
        wrap_sub(wrap_add(x, d), d) == x,
        wrap_add(wrap_sub(x, d), d) == x,
        wrap_add(x, d) as int == (x + signed(d)) % 256,
{
}

/// The wrapped difference between two bytes leads from the first to the
/// second, directly or by way of a third delta that is added first and
/// taken out of the difference.
pub proof fn lemma_wrap_reaches(x: u8, t: u8, d: u8)
    ensures
        wrap_add(x, wrap_sub(t, x)) == t,
        wrap_add(wrap_add(x, d), wrap_sub(wrap_sub(t, x), d)) == t,
{
}

} // verus!
