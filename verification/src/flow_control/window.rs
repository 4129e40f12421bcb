//! Sliding window for flow control.
//!
//! The window covers the `size` sequence numbers that start at its left
//! edge. An acknowledgement moves the left edge forward; the right edge
//! always stands `size` past the left one.

use crate::utils::seq::{half_range, seq_add, seq_after, seq_before, seq_diff};
use crate::utils::SeqNumber;
use vstd::prelude::*;

verus! {

/// The mathematical value of a [`SlidingWindow`]: its size and left edge.
pub struct WindowState {
    pub size: u32,
    pub left_edge: u32,
}

impl WindowState {
    /// The right edge: `size` past the left edge, modulo 2^32.
    pub open spec fn right_edge(self) -> u32 {
        seq_add(self.left_edge, self.size) as u32
    }

    /// The window after an acknowledgement: the left edge moves to `ack`
    /// when `ack` is after it, and stays otherwise.
    pub open spec fn advance(self, ack: u32) -> WindowState {
        if seq_after(ack, self.left_edge) {
            WindowState { size: self.size, left_edge: ack }
        } else {
            self
        }
    }

    /// Whether a segment of `len` bytes at `seq` ends at or before the
    /// right edge: its end is not after the right edge.
    pub open spec fn can_send(self, seq: u32, len: u32) -> bool {
        !seq_after(seq_add(seq, len) as u32, self.right_edge())
    }

    /// The credit left from `next_seq`: the distance to the right edge
    /// when `next_seq` is before it, and nothing otherwise.
    pub open spec fn available(self, next_seq: u32) -> int {
        if seq_before(next_seq, self.right_edge()) {
            seq_diff(self.right_edge(), next_seq)
        } else {
            0
        }
    }
}

/// For a next sequence number inside the window, the credit left and the
/// bytes already used add up to the window size. The credit must stay
/// below 2^31, the widest distance that the half-range order can see.
pub proof fn lemma_window_accounting(w: WindowState, next_seq: u32)
    requires
        seq_diff(next_seq, w.left_edge) <= w.size,
        w.size - seq_diff(next_seq, w.left_edge) < half_range(),
    ensures
        w.available(next_seq) + seq_diff(next_seq, w.left_edge) == w.size,
{
}

/// Sliding window for the sender.
pub struct SlidingWindow {
    size: u32,
    left_edge: SeqNumber,
    right_edge: SeqNumber,
}

impl View for SlidingWindow {
    type V = WindowState;

    closed spec fn view(&self) -> WindowState {
        WindowState { size: self.size, left_edge: self.left_edge.0 }
    }
}

impl SlidingWindow {
    #[verifier::type_invariant]
    spec fn edges_agree(&self) -> bool {
        self.right_edge.0 == seq_add(self.left_edge.0, self.size)
    }

    /// A window of `size` bytes with its left edge at zero.
    pub fn new(size: u32) -> (result: Self)
        ensures
            result@ == (WindowState { size, left_edge: 0 }),
    {
        Self { size, left_edge: SeqNumber(0), right_edge: SeqNumber(size) }
    }

    /// A window of `size` bytes with its left edge at `left_edge`.
    pub fn starting_at(size: u32, left_edge: SeqNumber) -> (result: Self)
        ensures
            result@ == (WindowState { size, left_edge: left_edge.0 }),
    {
        Self { size, left_edge, right_edge: left_edge.wrapping_add(size) }
    }

    /// Moves the left edge to `ack` when `ack` is after it.
    pub fn advance(&mut self, ack: SeqNumber)
        ensures
            final(self)@ == old(self)@.advance(ack.0),
    {
        if ack.after(self.left_edge) {
            let right: SeqNumber = ack.wrapping_add(self.size);
            *self = Self { size: self.size, left_edge: ack, right_edge: right };
        }
    }

    /// Whether a segment of `len` bytes at `seq` fits under the right edge.
    pub fn can_send(&self, seq: SeqNumber, len: u32) -> (result: bool)
        ensures
            result == self@.can_send(seq.0, len),
    {
        proof {
            use_type_invariant(self);
        }
        let seg_end: SeqNumber = seq.wrapping_add(len);
        !seg_end.after(self.right_edge)
    }

    /// The credit left from `next_seq`. Inside the window it accounts for
    /// the whole size together with the bytes in flight.
    pub fn available(&self, next_seq: SeqNumber) -> (result: u32)
        ensures
            result == self@.available(next_seq.0),
            seq_diff(next_seq.0, self@.left_edge) <= self@.size && self@.size - seq_diff(
                next_seq.0,
                self@.left_edge,
            ) < half_range() ==> result + seq_diff(next_seq.0, self@.left_edge) == self@.size,
    {
        proof {
            use_type_invariant(self);
        }
        if next_seq.before(self.right_edge) {
            self.right_edge.diff(next_seq)
        } else {
            0
        }
    }

    /// Sets the window size; the left edge stays where it is.
    pub fn set_size(&mut self, size: u32)
        ensures
            final(self)@ == (WindowState { size, left_edge: old(self)@.left_edge }),
    {
        let left: SeqNumber = self.left_edge;
        *self = Self { size, left_edge: left, right_edge: left.wrapping_add(size) };
    }

    pub fn size(&self) -> (result: u32)
        ensures
            result == self@.size,
    {
        self.size
    }

    pub fn left_edge(&self) -> (result: SeqNumber)
        ensures
            result.0 == self@.left_edge,
    {
        self.left_edge
    }

    pub fn right_edge(&self) -> (result: SeqNumber)
        ensures
            result.0 == self@.right_edge(),
    {
        proof {
            use_type_invariant(self);
        }
        self.right_edge
    }
}

} // verus!
