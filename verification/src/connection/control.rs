//! The control block: all the state of one connection.

use crate::congestion::newreno::RenoState;
use crate::congestion::NewReno;
use crate::connection::states::TcpState;
use crate::connection::timer::{clock_now, Timer, TimerState};
use crate::flow_control::window::WindowState;
use crate::flow_control::SlidingWindow;
use crate::reliability::reorder::ReorderState;
use crate::reliability::retransmit::RetransmitState;
use crate::reliability::{ReorderBuffer, RetransmissionManager};
use crate::utils::SeqNumber;
use std::time::Instant;
use vstd::prelude::*;

verus! {

/// Protocol control block.
///
/// The retransmission timeout is held in nanoseconds. The estimator that
/// derives it from round-trip samples works in floating point and is kept
/// by the caller, who writes its result into `rto`.
pub struct ControlBlock {
    pub state: TcpState,
    pub send_seq: SeqNumber,
    pub send_una: SeqNumber,
    pub send_nxt: SeqNumber,
    pub send_wnd: u32,
    pub recv_seq: SeqNumber,
    pub recv_ack: SeqNumber,
    pub recv_wnd: u32,
    pub congestion: NewReno,
    pub send_window: SlidingWindow,
    pub recv_buffer: ReorderBuffer,
    pub retransmit: RetransmissionManager,
    pub rto: u64,
    pub mss: u16,
    pub window_scale: u8,
    pub send_window_scale: u8,
    pub time_wait: Timer,
    pub last_activity: Instant,
}

/// The mathematical value of a [`ControlBlock`]. The clock reading of the
/// last activity is not part of it.
pub struct ControlBlockView {
    pub state: TcpState,
    pub iss: u32,
    pub snd_una: u32,
    pub snd_nxt: u32,
    pub snd_wnd: u32,
    pub irs: u32,
    pub rcv_nxt: u32,
    pub rcv_wnd: u32,
    pub congestion: RenoState,
    pub send_window: WindowState,
    pub recv_buffer: ReorderState,
    pub retransmit: RetransmitState,
    pub rto: u64,
    pub mss: u16,
    pub window_scale: u8,
    pub send_window_scale: u8,
    pub time_wait: TimerState,
}

impl View for ControlBlock {
    type V = ControlBlockView;

    open spec fn view(&self) -> ControlBlockView {
        ControlBlockView {
            state: self.state,
            iss: self.send_seq.0,
            snd_una: self.send_una.0,
            snd_nxt: self.send_nxt.0,
            snd_wnd: self.send_wnd,
            irs: self.recv_seq.0,
            rcv_nxt: self.recv_ack.0,
            rcv_wnd: self.recv_wnd,
            congestion: self.congestion@,
            send_window: self.send_window@,
            recv_buffer: self.recv_buffer@,
            retransmit: self.retransmit@,
            rto: self.rto,
            mss: self.mss,
            window_scale: self.window_scale,
            send_window_scale: self.send_window_scale,
            time_wait: self.time_wait@,
        }
    }
}

impl ControlBlockView {
    /// The control block of a connection that has not been opened, with
    /// `iss` as its initial send sequence number: nothing sent and nothing
    /// received, windows of 65535 bytes, a segment size of 1460, a receive
    /// window scale of 7 and a timeout of one second.
    pub open spec fn unopened(iss: u32) -> ControlBlockView {
        ControlBlockView {
            state: TcpState::Closed,
            iss,
            snd_una: iss,
            snd_nxt: iss,
            snd_wnd: 65535,
            irs: 0,
            rcv_nxt: 0,
            rcv_wnd: 65535,
            congestion: RenoState::initial(),
            send_window: WindowState { size: 65535, left_edge: 0 },
            recv_buffer: ReorderState { held: Map::empty(), next_expected: 0 },
            retransmit: RetransmitState {
                pending: Map::empty(),
                timer: TimerState { armed: false, duration: 0 },
            },
            rto: 1_000_000_000,
            mss: 1460,
            window_scale: 7,
            send_window_scale: 0,
            time_wait: TimerState { armed: false, duration: 0 },
        }
    }
}

impl ControlBlock {
    /// The control block of a connection that has not been opened, with a
    /// given initial send sequence number and time of creation.
    pub fn with_initial_seq(initial_seq: SeqNumber, now: Instant) -> (result: Self)
        ensures
            result@ == ControlBlockView::unopened(initial_seq.0),
    {
        Self {
            state: TcpState::Closed,
            send_seq: initial_seq,
            send_una: initial_seq,
            send_nxt: initial_seq,
            send_wnd: 65535,
            recv_seq: SeqNumber(0),
            recv_ack: SeqNumber(0),
            recv_wnd: 65535,
            congestion: NewReno::new(),
            send_window: SlidingWindow::new(65535),
            recv_buffer: ReorderBuffer::new(),
            retransmit: RetransmissionManager::new(),
            rto: 1_000_000_000,
            mss: 1460,
            window_scale: 7,
            send_window_scale: 0,
            time_wait: Timer::new(),
            last_activity: now,
        }
    }

    /// The control block of a connection that has not been opened, with a
    /// random initial send sequence number.
    pub fn new() -> (result: Self)
        ensures
            result@ == ControlBlockView::unopened(result@.iss),
    {
        let initial_seq = SeqNumber::random();
        Self::with_initial_seq(initial_seq, clock_now())
    }

    /// Notes that the connection was active just now.
    pub fn update_activity(&mut self)
        ensures
            final(self)@ == old(self)@,
    {
        let now: Instant = clock_now();
        self.record_activity(now);
    }

    /// Notes that the connection was active at the clock reading `now`.
    /// Nothing else changes.
    pub fn record_activity(&mut self, now: Instant)
        ensures
            final(self)@ == old(self)@,
            final(self).last_activity == now,
    {
        self.last_activity = now;
    }
}

impl Default for ControlBlock {
    fn default() -> (result: Self)
        ensures
            result@ == ControlBlockView::unopened(result@.iss),
    {
        Self::new()
    }
}

} // verus!
