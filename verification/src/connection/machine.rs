//! The connection state machine.
//!
//! Every step takes the control block from one state to the next and says
//! which segments to transmit. Nothing here touches a socket: the caller
//! sends what a step returns and feeds back what arrives.

use crate::connection::control::{ControlBlock, ControlBlockView};
use crate::connection::states::TcpState;
use crate::connection::timer::TimerState;
use crate::demux::{ConnectionKey, Demultiplexer};
use crate::flow_control::window::WindowState;
use crate::flow_control::SlidingWindow;
use crate::packet::tcp::{TcpFlags, TcpHeader, TcpHeaderView};
use crate::utils::seq::{seq_add, seq_diff};
use crate::utils::SeqNumber;
use vstd::prelude::*;

verus! {

/// A segment to transmit: its header and its payload. The checksum field
/// of the header is zero; whoever sends the segment fills it in.
pub struct OutSegment {
    pub header: TcpHeader,
    pub payload: Vec<u8>,
}

/// The mathematical value of an [`OutSegment`].
pub struct OutSegmentView {
    pub header: TcpHeaderView,
    pub payload: Seq<u8>,
}

impl View for OutSegment {
    type V = OutSegmentView;

    open spec fn view(&self) -> OutSegmentView {
        OutSegmentView { header: self.header@, payload: self.payload@ }
    }
}

/// The values of a list of segments to transmit, in order.
pub open spec fn segments_out(segments: Seq<OutSegment>) -> Seq<OutSegmentView> {
    Seq::new(segments.len(), |i: int| segments[i]@)
}

/// How long a connection waits in TIME_WAIT: twice the maximum segment
/// lifetime of thirty seconds, in nanoseconds.
pub open spec fn time_wait_nanos() -> u64 {
    60_000_000_000
}

/// The shift that a window scale stands for: the scale itself, and 14
/// where the scale is larger.
pub open spec fn window_shift(scale: u8) -> u32 {
    if scale > 14 {
        14
    } else {
        scale as u32
    }
}

impl ControlBlockView {
    /// The window to advertise in a segment: the receive window shifted
    /// down by the receive scale, and 65535 where that is larger.
    pub open spec fn advertised_window(self) -> u16 {
        let shifted = self.rcv_wnd >> window_shift(self.window_scale);
        if shifted > 0xFFFF {
            0xFFFFu16
        } else {
            shifted as u16
        }
    }

    /// The window to advertise in a SYN, where no scale applies yet.
    pub open spec fn opening_window(self) -> u16 {
        if self.rcv_wnd > 0xFFFF {
            0xFFFFu16
        } else {
            self.rcv_wnd as u16
        }
    }

    /// The send window that a window field of the peer announces.
    pub open spec fn scaled_window(self, window: u16) -> u32 {
        (window as u32) << window_shift(self.send_window_scale)
    }

    /// The header of a segment without options from this end of `key`: it
    /// acknowledges the next expected byte and advertises the window.
    pub open spec fn segment_header(self, key: ConnectionKey, seq: u32, flags: u8)
        -> TcpHeaderView {
        TcpHeaderView {
            src_port: key.local.port,
            dst_port: key.remote.port,
            seq_num: seq,
            ack_num: self.rcv_nxt,
            data_offset: 5,
            flags: TcpFlags(flags),
            window_size: self.advertised_window(),
            checksum: 0,
            urgent_pointer: 0,
            options: Seq::empty(),
        }
    }

    /// The header of the SYN that opens the connection.
    pub open spec fn syn_header(self, key: ConnectionKey) -> TcpHeaderView {
        TcpHeaderView {
            src_port: key.local.port,
            dst_port: key.remote.port,
            seq_num: self.iss,
            ack_num: 0,
            data_offset: 10,
            flags: TcpFlags(0x02),
            window_size: self.opening_window(),
            checksum: 0,
            urgent_pointer: 0,
            options: TcpHeader::opening_options(self.mss),
        }
    }

    /// The header of the SYN+ACK that answers a SYN.
    pub open spec fn syn_ack_header(self, key: ConnectionKey) -> TcpHeaderView {
        TcpHeaderView { ack_num: self.rcv_nxt, flags: TcpFlags(0x12), ..self.syn_header(key) }
    }

    /// The control block with its SYN counted as sent: nothing is
    /// acknowledged yet, the next byte to send is the one after the SYN,
    /// and the send window starts at the initial sequence number.
    pub open spec fn with_syn_sent(self, state: TcpState) -> ControlBlockView {
        ControlBlockView {
            state,
            snd_una: self.iss,
            snd_nxt: seq_add(self.iss, 1) as u32,
            send_window: WindowState { size: self.snd_wnd, left_edge: self.iss },
            ..self
        }
    }

    /// The control block after an active open: a closed connection goes
    /// to SYN_SENT; any other stays as it is.
    pub open spec fn open_active(self) -> ControlBlockView {
        if self.state == TcpState::Closed {
            self.with_syn_sent(TcpState::SynSent)
        } else {
            self
        }
    }

    /// The control block after a passive open: a closed connection goes
    /// to LISTEN; any other stays as it is.
    pub open spec fn open_passive(self) -> ControlBlockView {
        if self.state == TcpState::Closed {
            ControlBlockView { state: TcpState::Listen, ..self }
        } else {
            self
        }
    }

    /// Whether the application may close: the connection is established,
    /// or the peer has closed already.
    pub open spec fn can_close(self) -> bool {
        self.state == TcpState::Established || self.state == TcpState::CloseWait
    }

    /// The control block after the application closes: an established
    /// connection goes to FIN_WAIT_1, one that the peer has closed to
    /// LAST_ACK, and the FIN takes one sequence number. Any other
    /// connection stays as it is.
    pub open spec fn close(self) -> ControlBlockView {
        if self.can_close() {
            ControlBlockView {
                state: if self.state == TcpState::Established {
                    TcpState::FinWait1
                } else {
                    TcpState::LastAck
                },
                snd_nxt: seq_add(self.snd_nxt, 1) as u32,
                ..self
            }
        } else {
            self
        }
    }

    /// The bytes sent and not yet acknowledged.
    pub open spec fn in_flight(self) -> int {
        seq_diff(self.snd_nxt, self.snd_una)
    }

    /// The bytes that may be sent now: the smaller of congestion window
    /// and send window, less the bytes in flight, and nothing where more
    /// is in flight than that.
    pub open spec fn send_quantum(self) -> int {
        let limit = if self.congestion.cwnd < self.snd_wnd {
            self.congestion.cwnd as int
        } else {
            self.snd_wnd as int
        };
        if limit > self.in_flight() {
            limit - self.in_flight()
        } else {
            0
        }
    }

    /// Whether the wait in TIME_WAIT is over once `elapsed` nanoseconds
    /// have passed since it began.
    pub open spec fn time_wait_over(self, elapsed: u64) -> bool {
        self.state == TcpState::TimeWait && self.time_wait.expired_after(elapsed)
    }

    /// The control block once the wait in TIME_WAIT is over: closed, its
    /// timer stopped.
    pub open spec fn closed_after_wait(self) -> ControlBlockView {
        ControlBlockView {
            state: TcpState::Closed,
            time_wait: TimerState { armed: false, duration: self.time_wait.duration },
            ..self
        }
    }
}

impl ControlBlock {
    /// The window to advertise in a segment.
    pub fn advertised_window(&self) -> (result: u16)
        ensures
            result == self@.advertised_window(),
    {
        let shift: u32 = if self.window_scale > 14 {
            14
        } else {
            self.window_scale as u32
        };
        let shifted: u32 = self.recv_wnd >> shift;
        if shifted > 0xFFFF {
            0xFFFF
        } else {
            shifted as u16
        }
    }

    /// The send window that a window field of the peer announces.
    pub fn scaled_window(&self, window: u16) -> (result: u32)
        ensures
            result == self@.scaled_window(window),
    {
        let shift: u32 = if self.send_window_scale > 14 {
            14
        } else {
            self.send_window_scale as u32
        };
        (window as u32) << shift
    }

    /// The header of a segment without options from this end of `key`.
    pub fn segment_header(&self, key: &ConnectionKey, seq: SeqNumber, flags: TcpFlags) -> (result:
        TcpHeader)
        ensures
            result@ == self@.segment_header(*key, seq.0, flags.0),
    {
        let mut header = TcpHeader::new(key.local.port, key.remote.port);
        header.seq_num = seq.0;
        header.ack_num = self.recv_ack.0;
        header.flags = flags;
        header.window_size = self.advertised_window();
        header
    }

    /// The header of the SYN that opens the connection.
    fn syn_header(&self, key: &ConnectionKey) -> (result: TcpHeader)
        ensures
            result@ == self@.syn_header(*key),
    {
        let mut header = TcpHeader::syn(
            key.local.port,
            key.remote.port,
            self.send_seq.0,
            self.mss,
        );
        header.window_size = if self.recv_wnd > 0xFFFF {
            0xFFFF
        } else {
            self.recv_wnd as u16
        };
        header
    }

    /// The header of the SYN+ACK that answers a SYN.
    pub(crate) fn syn_ack_header(&self, key: &ConnectionKey) -> (result: TcpHeader)
        ensures
            result@ == self@.syn_ack_header(*key),
    {
        let mut header = self.syn_header(key);
        header.flags = TcpFlags(0x12);
        header.ack_num = self.recv_ack.0;
        header
    }

    /// Counts the SYN as sent and enters `state`.
    pub(crate) fn mark_syn_sent(&mut self, state: TcpState)
        ensures
            final(self)@ == old(self)@.with_syn_sent(state),
    {
        self.state = state;
        self.send_una = self.send_seq;
        self.send_nxt = self.send_seq.wrapping_add(1);
        self.send_window = SlidingWindow::starting_at(self.send_wnd, self.send_seq);
    }

    /// Opens the connection actively. A closed connection goes to
    /// SYN_SENT and the SYN to transmit is returned; any other connection
    /// stays as it is and nothing is returned.
    pub fn open_active(&mut self, key: &ConnectionKey) -> (syn: Option<TcpHeader>)
        ensures
            final(self)@ == old(self)@.open_active(),
            syn is Some <==> old(self)@.state == TcpState::Closed,
            syn matches Some(header) ==> header@ == old(self)@.syn_header(*key),
    {
        if !matches!(self.state, TcpState::Closed) {
            return None;
        }
        let header = self.syn_header(key);
        self.mark_syn_sent(TcpState::SynSent);
        Some(header)
    }

    /// Opens the connection passively: a closed connection goes to
    /// LISTEN. Returns whether it did.
    pub fn open_passive(&mut self) -> (listening: bool)
        ensures
            final(self)@ == old(self)@.open_passive(),
            listening == (old(self)@.state == TcpState::Closed),
    {
        if !matches!(self.state, TcpState::Closed) {
            return false;
        }
        self.state = TcpState::Listen;
        true
    }

    /// Closes the connection from this end. Where the connection is
    /// established, or the peer has closed already, the FIN to transmit is
    /// returned; otherwise nothing changes and nothing is returned.
    pub fn close(&mut self, key: &ConnectionKey) -> (fin: Option<TcpHeader>)
        ensures
            final(self)@ == old(self)@.close(),
            fin is Some <==> old(self)@.can_close(),
            fin matches Some(header) ==> header@ == old(self)@.segment_header(
                *key,
                old(self)@.snd_nxt,
                0x11,
            ),
    {
        let next: TcpState = match self.state {
            TcpState::Established => TcpState::FinWait1,
            TcpState::CloseWait => TcpState::LastAck,
            _ => { return None; },
        };
        let header = self.segment_header(key, self.send_nxt, TcpFlags(0x11));
        self.state = next;
        self.send_nxt = self.send_nxt.wrapping_add(1);
        Some(header)
    }

    /// The bytes that may be sent now.
    pub fn send_quantum(&self) -> (result: u32)
        ensures
            result == self@.send_quantum(),
    {
        let cwnd: u32 = self.congestion.cwnd();
        let limit: u32 = if cwnd < self.send_wnd {
            cwnd
        } else {
            self.send_wnd
        };
        let in_flight: u32 = self.send_nxt.diff(self.send_una);
        if limit > in_flight {
            limit - in_flight
        } else {
            0
        }
    }

    /// Ends the wait in TIME_WAIT where it is over once `elapsed`
    /// nanoseconds have passed since it began. Returns whether the
    /// connection closed.
    pub fn expire_time_wait_after(&mut self, elapsed: u64) -> (closed: bool)
        ensures
            closed == old(self)@.time_wait_over(elapsed),
            final(self)@ == (if closed {
                old(self)@.closed_after_wait()
            } else {
                old(self)@
            }),
    {
        if matches!(self.state, TcpState::TimeWait) && self.time_wait.is_expired_after(elapsed) {
            self.state = TcpState::Closed;
            self.time_wait.cancel();
            true
        } else {
            false
        }
    }

    /// Ends the wait in TIME_WAIT where it is over by now: where it is over
    /// once the time has passed that the clock says has passed.
    pub fn expire_time_wait(&mut self) -> (closed: bool)
        ensures
            exists|elapsed: u64| closed == #[trigger] old(self)@.time_wait_over(elapsed),
            final(self)@ == (if closed {
                old(self)@.closed_after_wait()
            } else {
                old(self)@
            }),
    {
        if !matches!(self.state, TcpState::TimeWait) {
            assert(!self@.time_wait_over(0));
            return false;
        }
        let expired: bool = self.time_wait.is_expired();
        let ghost elapsed = choose|e: u64| expired == self.time_wait@.expired_after(e);
        assert(expired == self@.time_wait_over(elapsed));
        if expired {
            self.state = TcpState::Closed;
            self.time_wait.cancel();
        }
        expired
    }

    /// Removes the route of a connection that is closed from the
    /// demultiplexer. The route of any other connection stays. Returns
    /// whether the connection is closed.
    pub fn release_route(&self, key: &ConnectionKey, demux: &mut Demultiplexer) -> (released: bool)
        ensures
            released == (self@.state == TcpState::Closed),
            final(demux)@ == (if released {
                old(demux)@.remove(*key)
            } else {
                old(demux)@
            }),
    {
        if matches!(self.state, TcpState::Closed) {
            demux.unregister(key);
            true
        } else {
            false
        }
    }
}

} // verus!
