//! NewReno congestion control.
//!
//! The congestion window grows by the bytes acknowledged during slow
//! start and by about one segment per round trip during congestion
//! avoidance. Three duplicate acknowledgements halve it and start fast
//! recovery; a retransmission timeout collapses it to one segment. Every
//! sum is capped at the largest 32-bit value.

use crate::utils::seq::seq_after;
use crate::utils::SeqNumber;
use vstd::prelude::*;

verus! {

/// The phase of the congestion controller.
#[derive(Debug, Clone, Copy, PartialEq, Eq, Structural)]
pub enum CongestionState {
    SlowStart,
    CongestionAvoidance,
    FastRecovery,
}

/// The segment size that the controller counts in.
pub open spec fn initial_mss() -> int {
    1460
}

/// The largest window the controller can hold.
pub open spec fn window_cap() -> int {
    0xFFFF_FFFF
}

/// `value`, or the cap where `value` exceeds it.
pub open spec fn capped(value: int) -> u32 {
    if value > window_cap() {
        window_cap() as u32
    } else {
        value as u32
    }
}

/// The slow-start threshold after a loss: half the window, and no less
/// than two segments.
pub open spec fn loss_threshold(cwnd: u32) -> u32 {
    if cwnd / 2 > 2 * initial_mss() {
        (cwnd / 2) as u32
    } else {
        (2 * initial_mss()) as u32
    }
}

/// The mathematical value of a [`NewReno`] controller.
pub struct RenoState {
    pub cwnd: u32,
    pub ssthresh: u32,
    pub state: CongestionState,
    pub dup_acks: u32,
    pub last_cwnd_reduction: u32,
}

impl RenoState {
    /// What holds of every controller: the window is at least one segment
    /// and the threshold at least two.
    pub open spec fn valid(self) -> bool {
        &&& self.cwnd >= initial_mss()
        &&& self.ssthresh >= 2 * initial_mss()
    }

    /// The controller at the start of a connection.
    pub open spec fn initial() -> RenoState {
        RenoState {
            cwnd: 1460,
            ssthresh: 0xFFFF_FFFF,
            state: CongestionState::SlowStart,
            dup_acks: 0,
            last_cwnd_reduction: 0,
        }
    }

    /// The controller after an acknowledgement of `bytes_acked` new bytes up
    /// to `ack`.
    pub open spec fn on_ack(self, ack: u32, bytes_acked: u32) -> RenoState {
        let next = match self.state {
            CongestionState::SlowStart => {
                let grown = capped(self.cwnd + bytes_acked);
                if grown >= self.ssthresh {
                    RenoState {
                        state: CongestionState::CongestionAvoidance,
                        cwnd: capped(self.ssthresh + 2 * initial_mss()),
                        ..self
                    }
                } else {
                    RenoState { cwnd: grown, ..self }
                }
            },
            CongestionState::CongestionAvoidance => RenoState {
                cwnd: capped(self.cwnd + initial_mss() * bytes_acked / (self.cwnd as int)),
                ..self
            },
            CongestionState::FastRecovery => if seq_after(ack, self.last_cwnd_reduction) {
                RenoState {
                    state: CongestionState::CongestionAvoidance,
                    cwnd: self.ssthresh,
                    ..self
                }
            } else {
                self
            },
        };
        RenoState { dup_acks: 0, ..next }
    }

    /// The controller after the loss that three duplicates signal.
    pub open spec fn fast_retransmit(self) -> RenoState {
        RenoState {
            ssthresh: loss_threshold(self.cwnd),
            cwnd: capped(loss_threshold(self.cwnd) + 3 * initial_mss()),
            state: CongestionState::FastRecovery,
            dup_acks: 3,
            ..self
        }
    }

    /// The controller after one duplicate acknowledgement: the third
    /// starts fast recovery; each later one, during fast recovery,
    /// inflates the window by a segment.
    pub open spec fn on_duplicate_ack(self) -> RenoState {
        let counted = RenoState { dup_acks: capped(self.dup_acks + 1), ..self };
        if counted.dup_acks == 3 {
            counted.fast_retransmit()
        } else if counted.dup_acks > 3 && counted.state == CongestionState::FastRecovery {
            RenoState { cwnd: capped(counted.cwnd + initial_mss()), ..counted }
        } else {
            counted
        }
    }

    /// The controller after a retransmission timeout.
    pub open spec fn on_timeout(self) -> RenoState {
        RenoState {
            ssthresh: loss_threshold(self.cwnd),
            cwnd: 1460,
            state: CongestionState::SlowStart,
            dup_acks: 0,
            ..self
        }
    }
}

/// Every event keeps the window at one segment or more and the threshold
/// at two segments or more; after a timeout the window is exactly one
/// segment, and after either loss event the threshold is half the old
/// window or two segments, whichever is larger.
pub proof fn lemma_reno_bounds(s: RenoState, ack: u32, bytes_acked: u32)
    requires
        s.valid(),
    ensures
        RenoState::initial().valid(),
        s.on_ack(ack, bytes_acked).valid(),
        s.on_duplicate_ack().valid(),
        s.on_timeout().valid(),
        s.on_timeout().cwnd == initial_mss(),
        s.on_timeout().ssthresh >= 2 * initial_mss(),
        s.fast_retransmit().ssthresh >= 2 * initial_mss(),
        s.fast_retransmit().cwnd >= s.fast_retransmit().ssthresh,
{
    assert(initial_mss() * bytes_acked / (s.cwnd as int) >= 0) by (nonlinear_arith)
        requires
            s.cwnd >= 1460,
            bytes_acked >= 0,
    ;
}

/// NewReno congestion control.
pub struct NewReno {
    cwnd: u32,
    ssthresh: u32,
    state: CongestionState,
    dup_acks: u32,
    last_cwnd_reduction: SeqNumber,
    initial_mss: u32,
}

impl View for NewReno {
    type V = RenoState;

    closed spec fn view(&self) -> RenoState {
        RenoState {
            cwnd: self.cwnd,
            ssthresh: self.ssthresh,
            state: self.state,
            dup_acks: self.dup_acks,
            last_cwnd_reduction: self.last_cwnd_reduction.0,
        }
    }
}

impl NewReno {
    #[verifier::type_invariant]
    spec fn bounded(&self) -> bool {
        &&& self.initial_mss == 1460
        &&& self.cwnd >= 1460
        &&& self.ssthresh >= 2920
    }

    pub fn new() -> (result: Self)
        ensures
            result@ == RenoState::initial(),
    {
        let initial_mss: u32 = 1460;
        Self {
            cwnd: initial_mss,
            ssthresh: u32::MAX,
            state: CongestionState::SlowStart,
            dup_acks: 0,
            last_cwnd_reduction: SeqNumber(0),
            initial_mss,
        }
    }

    /// Takes in an acknowledgement of `bytes_acked` new bytes up to `ack`.
    pub fn on_ack(&mut self, ack: SeqNumber, bytes_acked: u32)
        ensures
            final(self)@ == old(self)@.on_ack(ack.0, bytes_acked),
            final(self)@.valid(),
    {
        proof {
            use_type_invariant(&*self);
        }
        let mss: u32 = self.initial_mss;
        let mut cwnd: u32 = self.cwnd;
        let mut state: CongestionState = self.state;
        match self.state {
            CongestionState::SlowStart => {
                cwnd = cwnd.saturating_add(bytes_acked);
                if cwnd >= self.ssthresh {
                    state = CongestionState::CongestionAvoidance;
                    cwnd = self.ssthresh.saturating_add(2 * mss);
                }
            },
            CongestionState::CongestionAvoidance => {
                let product: u64 = (mss as u64) * (bytes_acked as u64);
                let step: u64 = product / (cwnd as u64);
                assert(step <= product) by (nonlinear_arith)
                    requires
                        step == product / (cwnd as u64),
                        cwnd >= 1,
                ;
                let sum: u64 = cwnd as u64 + step;
                cwnd = if sum > u32::MAX as u64 {
                    u32::MAX
                } else {
                    sum as u32
                };
            },
            CongestionState::FastRecovery => {
                if ack.after(self.last_cwnd_reduction) {
                    state = CongestionState::CongestionAvoidance;
                    cwnd = self.ssthresh;
                }
            },
        }
        proof {
            lemma_reno_bounds(self@, ack.0, bytes_acked);
        }
        *self = Self {
            cwnd,
            ssthresh: self.ssthresh,
            state,
            dup_acks: 0,
            last_cwnd_reduction: self.last_cwnd_reduction,
            initial_mss: mss,
        };
    }

    /// Takes in one duplicate acknowledgement.
    pub fn on_duplicate_ack(&mut self)
        ensures
            final(self)@ == old(self)@.on_duplicate_ack(),
            final(self)@.valid(),
    {
        proof {
            use_type_invariant(&*self);
            lemma_reno_bounds(self@, 0, 0);
        }
        let dup_acks: u32 = self.dup_acks.saturating_add(1);
        if dup_acks == 3 {
            self.enter_fast_retransmit();
        } else if dup_acks > 3 && self.state == CongestionState::FastRecovery {
            *self = Self {
                cwnd: self.cwnd.saturating_add(self.initial_mss),
                ssthresh: self.ssthresh,
                state: self.state,
                dup_acks,
                last_cwnd_reduction: self.last_cwnd_reduction,
                initial_mss: self.initial_mss,
            };
        } else {
            *self = Self {
                cwnd: self.cwnd,
                ssthresh: self.ssthresh,
                state: self.state,
                dup_acks,
                last_cwnd_reduction: self.last_cwnd_reduction,
                initial_mss: self.initial_mss,
            };
        }
    }

    /// Halves the window for the loss that three duplicates signal and
    /// starts fast recovery.
    fn enter_fast_retransmit(&mut self)
        ensures
            final(self)@ == old(self)@.fast_retransmit(),
    {
        proof {
            use_type_invariant(&*self);
        }
        let half: u32 = self.cwnd / 2;
        let ssthresh: u32 = if half > 2 * self.initial_mss {
            half
        } else {
            2 * self.initial_mss
        };
        *self = Self {
            cwnd: ssthresh.saturating_add(3 * self.initial_mss),
            ssthresh,
            state: CongestionState::FastRecovery,
            dup_acks: 3,
            last_cwnd_reduction: self.last_cwnd_reduction,
            initial_mss: self.initial_mss,
        };
    }

    /// Collapses the window to one segment after a retransmission timeout.
    pub fn on_timeout(&mut self)
        ensures
            final(self)@ == old(self)@.on_timeout(),
            final(self)@.cwnd == initial_mss(),
            final(self)@.ssthresh >= 2 * initial_mss(),
    {
        proof {
            use_type_invariant(&*self);
        }
        let half: u32 = self.cwnd / 2;
        let ssthresh: u32 = if half > 2 * self.initial_mss {
            half
        } else {
            2 * self.initial_mss
        };
        *self = Self {
            cwnd: self.initial_mss,
            ssthresh,
            state: CongestionState::SlowStart,
            dup_acks: 0,
            last_cwnd_reduction: self.last_cwnd_reduction,
            initial_mss: self.initial_mss,
        };
    }

    pub fn cwnd(&self) -> (result: u32)
        ensures
            result == self@.cwnd,
            result >= initial_mss(),
    {
        proof {
            use_type_invariant(self);
        }
        self.cwnd
    }

    pub fn ssthresh(&self) -> (result: u32)
        ensures
            result == self@.ssthresh,
            result >= 2 * initial_mss(),
    {
        proof {
            use_type_invariant(self);
        }
        self.ssthresh
    }

    /// Number of duplicate acknowledgements since the last new one.
    pub fn dup_acks(&self) -> (result: u32)
        ensures
            result == self@.dup_acks,
    {
        self.dup_acks
    }

    pub fn state(&self) -> (result: CongestionState)
        ensures
            result == self@.state,
    {
        self.state
    }
}

impl Default for NewReno {
    fn default() -> (result: Self)
        ensures
            result@ == RenoState::initial(),
    {
        Self::new()
    }
}

} // verus!
