//! TCP sequence number arithmetic.
//!
//! Sequence numbers live on a circle of 2^32 points. Ordering between two
//! of them is decided by the half-range rule: `a` is before `b` when the
//! forward distance from `a` to `b` is at least one and less than 2^31.

use rand::Rng;
use std::ops::{Add, Sub};
use vstd::prelude::*;
use vstd::std_specs::ops::{AddSpecImpl, SubSpecImpl};

verus! {

/// Number of points on the sequence circle.
pub open spec fn modulus() -> int {
    0x1_0000_0000
}

/// Half of the sequence circle: the width of the comparison window.
pub open spec fn half_range() -> int {
    0x8000_0000
}

/// Forward distance from `b` to `a` on the circle: `(a - b) mod 2^32`.
pub open spec fn seq_diff(a: u32, b: u32) -> int {
    (a as int - b as int) % modulus()
}

/// `(a + n) mod 2^32`.
pub open spec fn seq_add(a: u32, n: u32) -> int {
    (a as int + n as int) % modulus()
}

/// The half-range ordering: `a` is before `b` when `(b - a) mod 2^32`
/// lies in `[1, 2^31)`.
pub open spec fn seq_before(a: u32, b: u32) -> bool {
    1 <= seq_diff(b, a) < half_range()
}

/// `a` is after `b` exactly when `b` is before `a`.
pub open spec fn seq_after(a: u32, b: u32) -> bool {
    seq_before(b, a)
}

/// Inside one comparison window the half-range order is transitive: when
/// `a` is before `b`, `b` is before `c`, and the two forward distances
/// together stay below 2^31, then `a` is before `c`.
pub proof fn lemma_before_transitive(a: u32, b: u32, c: u32)
    requires
        seq_before(a, b),
        seq_before(b, c),
        seq_diff(b, a) + seq_diff(c, b) < half_range(),
    ensures
        seq_before(a, c),
        seq_diff(c, a) == seq_diff(b, a) + seq_diff(c, b),
{
}

/// A 32-bit TCP sequence number with wrap-around arithmetic.
#[derive(Debug, Clone, Copy, PartialEq, Eq, Structural)]
pub struct SeqNumber(pub u32);

/// Draws a value from the thread-local generator of the `rand` crate with
/// `Rng::gen_range` over the full inclusive range of `u32`. The range is
/// never empty, so the call does not panic; nothing is claimed about which
/// value comes back.
#[verifier::external_body]
fn random_u32() -> (value: u32) {
    rand::thread_rng().gen_range(0..=u32::MAX)
}

impl SeqNumber {
    pub fn new(val: u32) -> (result: Self)
        ensures
            result.0 == val,
    {
        Self(val)
    }

    /// A fresh initial sequence number; any point of the circle may come back.
    pub fn random() -> (result: Self) {
        Self(random_u32())
    }

    pub fn wrapping_add(self, other: u32) -> (result: Self)
        ensures
            result.0 == seq_add(self.0, other),
    {
        Self(self.0.wrapping_add(other))
    }

    pub fn wrapping_sub(self, other: u32) -> (result: Self)
        ensures
            result.0 == seq_diff(self.0, other),
    {
        Self(self.0.wrapping_sub(other))
    }

    /// Forward distance from `other` to `self`.
    pub fn diff(self, other: SeqNumber) -> (result: u32)
        ensures
            result == seq_diff(self.0, other.0),
    {
        self.0.wrapping_sub(other.0)
    }

    pub fn before(self, other: SeqNumber) -> (result: bool)
        ensures
            result == seq_before(self.0, other.0),
    {
        self.diff(other) > 0x8000_0000
    }

    pub fn after(self, other: SeqNumber) -> (result: bool)
        ensures
            result == seq_after(self.0, other.0),
    {
        other.before(self)
    }
}

impl Add<u32> for SeqNumber {
    type Output = SeqNumber;

    fn add(self, other: u32) -> (result: SeqNumber) {
        self.wrapping_add(other)
    }
}

impl AddSpecImpl<u32> for SeqNumber {
    open spec fn obeys_add_spec() -> bool {
        true
    }

    open spec fn add_req(self, other: u32) -> bool {
        true
    }

    open spec fn add_spec(self, other: u32) -> SeqNumber {
        SeqNumber(seq_add(self.0, other) as u32)
    }
}

impl Sub<u32> for SeqNumber {
    type Output = SeqNumber;

    fn sub(self, other: u32) -> (result: SeqNumber) {
        self.wrapping_sub(other)
    }
}

impl SubSpecImpl<u32> for SeqNumber {
    open spec fn obeys_sub_spec() -> bool {
        true
    }

    open spec fn sub_req(self, other: u32) -> bool {
        true
    }

    open spec fn sub_spec(self, other: u32) -> SeqNumber {
        SeqNumber(seq_diff(self.0, other) as u32)
    }
}

impl Sub<SeqNumber> for SeqNumber {
    type Output = u32;

    fn sub(self, other: SeqNumber) -> (result: u32) {
        self.diff(other)
    }
}

impl SubSpecImpl<SeqNumber> for SeqNumber {
    open spec fn obeys_sub_spec() -> bool {
        true
    }

    open spec fn sub_req(self, other: SeqNumber) -> bool {
        true
    }

    open spec fn sub_spec(self, other: SeqNumber) -> u32 {
        seq_diff(self.0, other.0) as u32
    }
}

} // verus!
