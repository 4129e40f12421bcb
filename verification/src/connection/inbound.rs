//! Taking in segments: what an arriving segment makes of a connection.

use crate::connection::control::{ControlBlock, ControlBlockView};
use crate::connection::machine::{
    segments_out, time_wait_nanos, OutSegment, OutSegmentView,
};
use crate::connection::states::TcpState;
use crate::connection::timer::{elapsed_since, TimerState};
use crate::demux::ConnectionKey;
use crate::flow_control::window::WindowState;
use crate::flow_control::SlidingWindow;
use crate::packet::tcp::{
    options_view, TcpFlags, TcpHeader, TcpHeaderView, TcpOption, TcpOptionView,
};
use crate::reliability::reorder::{
    advance_by, concat_runs, ranges_overlap, runs_view, ReorderState,
};
use crate::reliability::retransmit::{
    segments_view, PendingSegment, PendingSegmentView, RetransmitState,
};
use crate::utils::seq::{seq_add, seq_after, seq_diff};
use crate::utils::SeqNumber;
use vstd::prelude::*;
use vstd::slice::slice_to_vec;

verus! {

/// What taking in a segment gives: the segments to transmit in reply, the
/// bytes that have become deliverable to the application, the segments
/// that the peer has acknowledged, and whether the peer reset the
/// connection.
pub struct SegmentOutcome {
    pub replies: Vec<OutSegment>,
    pub delivered: Vec<u8>,
    pub acknowledged: Vec<PendingSegment>,
    pub aborted: bool,
}

/// The mathematical value of a [`SegmentOutcome`].
pub struct SegmentOutcomeView {
    pub replies: Seq<OutSegmentView>,
    pub delivered: Seq<u8>,
    pub acknowledged: Seq<PendingSegmentView>,
    pub aborted: bool,
}

impl View for SegmentOutcome {
    type V = SegmentOutcomeView;

    open spec fn view(&self) -> SegmentOutcomeView {
        SegmentOutcomeView {
            replies: segments_out(self.replies@),
            delivered: self.delivered@,
            acknowledged: segments_view(self.acknowledged@),
            aborted: self.aborted,
        }
    }
}

impl SegmentOutcomeView {
    /// The outcome of a segment that is ignored.
    pub open spec fn nothing() -> SegmentOutcomeView {
        SegmentOutcomeView {
            replies: Seq::empty(),
            delivered: Seq::empty(),
            acknowledged: Seq::empty(),
            aborted: false,
        }
    }

    /// The outcome of a segment that is answered with one segment without
    /// payload and has no other effect.
    pub open spec fn reply(header: TcpHeaderView) -> SegmentOutcomeView {
        SegmentOutcomeView {
            replies: seq![OutSegmentView { header, payload: Seq::empty() }],
            delivered: Seq::empty(),
            acknowledged: Seq::empty(),
            aborted: false,
        }
    }

    /// The outcome of a reset that is accepted.
    pub open spec fn reset() -> SegmentOutcomeView {
        SegmentOutcomeView {
            replies: Seq::empty(),
            delivered: Seq::empty(),
            acknowledged: Seq::empty(),
            aborted: true,
        }
    }
}

/// The first maximum-segment-size option in a list of options.
pub open spec fn first_mss(options: Seq<TcpOptionView>) -> Option<u16>
    decreases options.len(),
{
    if options.len() == 0 {
        None
    } else {
        match options[0] {
            TcpOptionView::MaximumSegmentSize(mss) => Some(mss),
            _ => first_mss(options.skip(1)),
        }
    }
}

/// The first window-scale option in a list of options.
pub open spec fn first_scale(options: Seq<TcpOptionView>) -> Option<u8>
    decreases options.len(),
{
    if options.len() == 0 {
        None
    } else {
        match options[0] {
            TcpOptionView::WindowScale(scale) => Some(scale),
            _ => first_scale(options.skip(1)),
        }
    }
}

impl ControlBlockView {
    /// The control block after the options of the peer's SYN are taken
    /// in: the segment size is the smaller of ours and the peer's; the
    /// peer's window scale applies to what we send, and where the peer
    /// announced none, no scale applies in either direction.
    pub open spec fn negotiated(self, options: Seq<TcpOptionView>) -> ControlBlockView {
        ControlBlockView {
            mss: match first_mss(options) {
                Some(peer) => if peer < self.mss {
                    peer
                } else {
                    self.mss
                },
                None => self.mss,
            },
            send_window_scale: match first_scale(options) {
                Some(scale) => scale,
                None => 0,
            },
            window_scale: match first_scale(options) {
                Some(_) => self.window_scale,
                None => 0,
            },
            ..self
        }
    }

    /// The control block with the peer's initial sequence number and
    /// window recorded: the next byte expected is the one after the SYN.
    pub open spec fn with_peer(self, header: TcpHeaderView) -> ControlBlockView {
        let after_syn = seq_add(header.seq_num, 1) as u32;
        ControlBlockView {
            irs: header.seq_num,
            rcv_nxt: after_syn,
            recv_buffer: ReorderState { held: self.recv_buffer.held, next_expected: after_syn },
            snd_wnd: header.window_size as u32,
            ..self.negotiated(header.options)
        }
    }

    /// The control block of a listener after a SYN.
    pub open spec fn after_syn(self, header: TcpHeaderView) -> ControlBlockView {
        self.with_peer(header).with_syn_sent(TcpState::SynReceived)
    }

    /// The control block of an opener after the SYN+ACK that answers its
    /// SYN.
    pub open spec fn after_syn_ack(self, header: TcpHeaderView) -> ControlBlockView {
        let peer = self.with_peer(header);
        ControlBlockView {
            state: TcpState::Established,
            snd_una: header.ack_num,
            send_window: WindowState { size: peer.snd_wnd, left_edge: header.ack_num },
            ..peer
        }
    }

    /// The control block after an abort: closed, nothing waiting for
    /// acknowledgement, nothing held for reassembly.
    pub open spec fn aborted(self) -> ControlBlockView {
        ControlBlockView {
            state: TcpState::Closed,
            retransmit: RetransmitState {
                pending: Map::empty(),
                timer: TimerState { armed: false, duration: self.retransmit.timer.duration },
            },
            recv_buffer: ReorderState {
                held: Map::empty(),
                next_expected: self.recv_buffer.next_expected,
            },
            ..self
        }
    }

    /// Whether a segment is acceptable: its sequence range and the receive
    /// window share a position.
    pub open spec fn acceptable(self, seq: u32, len: int) -> bool {
        ranges_overlap(seq, len, self.rcv_nxt, self.rcv_wnd as int)
    }

    /// Whether `ack` acknowledges something new: it is after the oldest
    /// unacknowledged byte and not after the next byte to send.
    pub open spec fn ack_advances(self, ack: u32) -> bool {
        seq_after(ack, self.snd_una) && !seq_after(ack, self.snd_nxt)
    }

    /// Whether a segment is a duplicate acknowledgement: it acknowledges
    /// the oldest unacknowledged byte again, carries no data, and announces
    /// the window that stands, which is not zero.
    pub open spec fn duplicate_ack(self, header: TcpHeaderView, len: int) -> bool {
        &&& header.ack_num == self.snd_una
        &&& len == 0
        &&& header.window_size != 0
        &&& self.scaled_window(header.window_size) == self.snd_wnd
    }

    /// Whether a segment is the third duplicate acknowledgement in a row.
    pub open spec fn third_duplicate(self, header: TcpHeaderView, len: int) -> bool {
        &&& header.flags.has(0x10)
        &&& !self.ack_advances(header.ack_num)
        &&& self.duplicate_ack(header, len)
        &&& self.congestion.on_duplicate_ack().dup_acks == 3
    }

    /// The control block with TIME_WAIT entered and its timer started.
    pub open spec fn in_time_wait(self) -> ControlBlockView {
        ControlBlockView {
            state: TcpState::TimeWait,
            time_wait: TimerState { armed: true, duration: time_wait_nanos() },
            ..self
        }
    }

    /// The control block once everything sent, the FIN included, is
    /// acknowledged: FIN_WAIT_1 goes to FIN_WAIT_2, CLOSING to TIME_WAIT
    /// and LAST_ACK to CLOSED. Other states stay.
    pub open spec fn with_fin_acknowledged(self) -> ControlBlockView {
        match self.state {
            TcpState::FinWait1 => ControlBlockView { state: TcpState::FinWait2, ..self },
            TcpState::Closing => self.in_time_wait(),
            TcpState::LastAck => ControlBlockView { state: TcpState::Closed, ..self },
            _ => self,
        }
    }

    /// The control block after the acknowledgement field of a segment is
    /// taken in, the retransmission table aside.
    ///
    /// A new acknowledgement moves the oldest unacknowledged byte and the
    /// send window to it, feeds the bytes it covers to congestion control
    /// and takes the send window from the window field. A duplicate one
    /// is counted by congestion control. Anything else changes nothing.
    pub open spec fn after_ack(self, header: TcpHeaderView, len: int) -> ControlBlockView {
        if header.flags.has(0x10) && self.ack_advances(header.ack_num) {
            let window = self.scaled_window(header.window_size);
            let moved = ControlBlockView {
                snd_una: header.ack_num,
                snd_wnd: window,
                congestion: self.congestion.on_ack(
                    header.ack_num,
                    seq_diff(header.ack_num, self.snd_una) as u32,
                ),
                send_window: WindowState {
                    size: window,
                    left_edge: self.send_window.advance(header.ack_num).left_edge,
                },
                ..self
            };
            if header.ack_num == self.snd_nxt {
                moved.with_fin_acknowledged()
            } else {
                moved
            }
        } else if header.flags.has(0x10) && self.duplicate_ack(header, len) {
            ControlBlockView { congestion: self.congestion.on_duplicate_ack(), ..self }
        } else {
            self
        }
    }

    /// Whether the payload of a segment goes to the reorder buffer.
    pub open spec fn takes_payload(self, payload: Seq<u8>) -> bool {
        payload.len() > 0 && self.state.takes_data()
    }

    /// The control block after the payload of a segment is taken in: the
    /// reorder buffer takes it, and the next byte expected is the one that
    /// the buffer expects next.
    pub open spec fn after_data(self, header: TcpHeaderView, payload: Seq<u8>)
        -> ControlBlockView {
        if self.takes_payload(payload) {
            let added = self.recv_buffer.add(header.seq_num, payload);
            ControlBlockView {
                recv_buffer: ReorderState { held: added.held, next_expected: added.next },
                rcv_nxt: added.next,
                ..self
            }
        } else {
            self
        }
    }

    /// The bytes that the payload of a segment makes deliverable.
    pub open spec fn delivered_by(self, header: TcpHeaderView, payload: Seq<u8>) -> Seq<u8> {
        if self.takes_payload(payload) {
            concat_runs(self.recv_buffer.add(header.seq_num, payload).runs)
        } else {
            Seq::empty()
        }
    }

    /// Whether the FIN of a segment is taken in: the peer has not closed
    /// yet, and the FIN stands right at the next byte expected.
    pub open spec fn takes_fin(self, header: TcpHeaderView, payload: Seq<u8>) -> bool {
        &&& header.flags.has(0x01)
        &&& self.state.takes_data()
        &&& advance_by(header.seq_num, payload.len() as int) == self.rcv_nxt
    }

    /// The control block after the FIN of a segment is taken in: the FIN
    /// takes one sequence number; ESTABLISHED goes to CLOSE_WAIT,
    /// FIN_WAIT_1 to CLOSING and FIN_WAIT_2 to TIME_WAIT.
    pub open spec fn after_fin(self, header: TcpHeaderView, payload: Seq<u8>) -> ControlBlockView {
        if self.takes_fin(header, payload) {
            let after = seq_add(self.rcv_nxt, 1) as u32;
            let counted = ControlBlockView {
                rcv_nxt: after,
                recv_buffer: ReorderState { held: self.recv_buffer.held, next_expected: after },
                ..self
            };
            match self.state {
                TcpState::Established => ControlBlockView {
                    state: TcpState::CloseWait,
                    ..counted
                },
                TcpState::FinWait1 => ControlBlockView { state: TcpState::Closing, ..counted },
                _ => counted.in_time_wait(),
            }
        } else {
            self
        }
    }

    /// The control block after an acceptable segment that is no reset, the
    /// retransmission table aside: the acknowledgement is taken in, then
    /// the payload, then the FIN.
    pub open spec fn after_segment(self, header: TcpHeaderView, payload: Seq<u8>)
        -> ControlBlockView {
        let acked = self.after_ack(header, payload.len() as int);
        acked.after_data(header, payload).after_fin(header, payload)
    }

    /// The segment that a third duplicate acknowledgement has
    /// retransmitted: the one that waits at the oldest unacknowledged byte.
    pub open spec fn fast_retransmission(self, key: ConnectionKey) -> OutSegmentView {
        OutSegmentView {
            header: self.segment_header(key, self.snd_una, 0x10),
            payload: self.retransmit.pending[self.snd_una].data,
        }
    }

    /// The retransmission table after an acceptable segment that
    /// acknowledges nothing new: a third duplicate counts one more
    /// retransmission on the segment that waits at the oldest
    /// unacknowledged byte; anything else leaves the table alone.
    pub open spec fn table_after_duplicate(self, header: TcpHeaderView, len: int)
        -> RetransmitState {
        if self.third_duplicate(header, len) && self.retransmit.pending.contains_key(self.snd_una) {
            RetransmitState {
                pending: self.retransmit.pending.insert(
                    self.snd_una,
                    self.retransmit.pending[self.snd_una].retried(),
                ),
                timer: self.retransmit.timer,
            }
        } else {
            self.retransmit
        }
    }

    /// The segments to transmit after an acceptable segment that is no
    /// reset: the fast retransmission, where a third duplicate found a
    /// segment waiting, then an acknowledgement, where the segment carried
    /// data or a FIN.
    pub open spec fn replies_to(
        self,
        key: ConnectionKey,
        header: TcpHeaderView,
        payload: Seq<u8>,
        post: ControlBlockView,
    ) -> Seq<OutSegmentView> {
        let fast = if self.third_duplicate(header, payload.len() as int)
            && self.retransmit.pending.contains_key(self.snd_una) {
            seq![self.fast_retransmission(key)]
        } else {
            Seq::empty()
        };
        let ack = if payload.len() > 0 || header.flags.has(0x01) {
            seq![
                OutSegmentView {
                    header: post.segment_header(key, post.snd_nxt, 0x10),
                    payload: Seq::empty(),
                },
            ]
        } else {
            Seq::empty()
        };
        fast + ack
    }

    /// What a segment makes of a connection in a synchronized state.
    ///
    /// A segment that is not acceptable changes nothing; unless it is a
    /// reset, it is answered with an acknowledgement of the next byte
    /// expected. An acceptable reset aborts the connection. Any other
    /// acceptable segment has its acknowledgement, payload and FIN taken
    /// in.
    pub open spec fn synchronized_step(
        self,
        key: ConnectionKey,
        header: TcpHeaderView,
        payload: Seq<u8>,
        post: ControlBlockView,
        out: SegmentOutcomeView,
    ) -> bool {
        if !self.acceptable(header.seq_num, payload.len() as int) {
            &&& post == self
            &&& out == (if header.flags.has(0x04) {
                SegmentOutcomeView::nothing()
            } else {
                SegmentOutcomeView::reply(self.segment_header(key, self.snd_nxt, 0x10))
            })
        } else if header.flags.has(0x04) {
            &&& post == self.aborted()
            &&& out == SegmentOutcomeView::reset()
        } else {
            &&& post == (ControlBlockView {
                retransmit: post.retransmit,
                ..self.after_segment(header, payload)
            })
            &&& if header.flags.has(0x10) && self.ack_advances(header.ack_num) {
                self.retransmit.acknowledged(header.ack_num, post.retransmit, out.acknowledged)
            } else {
                &&& out.acknowledged == Seq::<PendingSegmentView>::empty()
                &&& post.retransmit == self.table_after_duplicate(header, payload.len() as int)
            }
            &&& out.delivered == self.after_ack(header, payload.len() as int).delivered_by(
                header,
                payload,
            )
            &&& out.replies == self.replies_to(key, header, payload, post)
            &&& !out.aborted
        }
    }

    /// What a segment makes of a connection that is closed or listens: a
    /// SYN without ACK or RST is answered with a SYN+ACK and takes the
    /// connection to SYN_RECEIVED; anything else is ignored.
    pub open spec fn listen_step(
        self,
        key: ConnectionKey,
        header: TcpHeaderView,
        post: ControlBlockView,
        out: SegmentOutcomeView,
    ) -> bool {
        if header.flags.has(0x02) && !header.flags.has(0x10) && !header.flags.has(0x04) {
            &&& post == self.after_syn(header)
            &&& out == SegmentOutcomeView::reply(post.syn_ack_header(key))
        } else {
            &&& post == self
            &&& out == SegmentOutcomeView::nothing()
        }
    }

    /// Whether a segment acknowledges our SYN.
    pub open spec fn acks_our_syn(self, header: TcpHeaderView) -> bool {
        header.flags.has(0x10) && header.ack_num == seq_add(self.iss, 1)
    }

    /// What a segment makes of a connection in SYN_SENT: a reset that
    /// acknowledges our SYN aborts; a SYN+ACK that acknowledges our SYN is
    /// answered with an acknowledgement and establishes the connection;
    /// anything else is ignored.
    pub open spec fn syn_sent_step(
        self,
        key: ConnectionKey,
        header: TcpHeaderView,
        post: ControlBlockView,
        out: SegmentOutcomeView,
    ) -> bool {
        if header.flags.has(0x04) {
            if self.acks_our_syn(header) {
                &&& post == self.aborted()
                &&& out == SegmentOutcomeView::reset()
            } else {
                &&& post == self
                &&& out == SegmentOutcomeView::nothing()
            }
        } else if header.flags.has(0x02) && self.acks_our_syn(header) {
            &&& post == self.after_syn_ack(header)
            &&& out == SegmentOutcomeView::reply(post.segment_header(key, post.snd_nxt, 0x10))
        } else {
            &&& post == self
            &&& out == SegmentOutcomeView::nothing()
        }
    }

    /// What a segment makes of a connection in SYN_RECEIVED: an
    /// acknowledgement of our SYN, without SYN or RST, establishes the
    /// connection, and the segment is then taken in as in any synchronized
    /// state; anything else is ignored.
    pub open spec fn syn_received_step(
        self,
        key: ConnectionKey,
        header: TcpHeaderView,
        payload: Seq<u8>,
        post: ControlBlockView,
        out: SegmentOutcomeView,
    ) -> bool {
        if self.acks_our_syn(header) && !header.flags.has(0x02) && !header.flags.has(0x04) {
            (ControlBlockView { state: TcpState::Established, ..self }).synchronized_step(
                key,
                header,
                payload,
                post,
                out,
            )
        } else {
            &&& post == self
            &&& out == SegmentOutcomeView::nothing()
        }
    }

    /// What a segment makes of a connection, by the state it is in.
    pub open spec fn segment_step(
        self,
        key: ConnectionKey,
        header: TcpHeaderView,
        payload: Seq<u8>,
        post: ControlBlockView,
        out: SegmentOutcomeView,
    ) -> bool {
        match self.state {
            TcpState::Closed | TcpState::Listen => self.listen_step(key, header, post, out),
            TcpState::SynSent => self.syn_sent_step(key, header, post, out),
            TcpState::SynReceived => self.syn_received_step(key, header, payload, post, out),
            _ => self.synchronized_step(key, header, payload, post, out),
        }
    }
}

/// The sequence number just past `len` bytes that start at `seq`.
pub fn end_of(seq: SeqNumber, len: usize) -> (result: SeqNumber)
    ensures
        result.0 == advance_by(seq.0, len as int),
{
    let low: u32 = (len as u64 % 0x1_0000_0000) as u32;
    proof {
        let m = 0x1_0000_0000int;
        let l = len as int;
        assert((seq.0 + l % m) % m == (seq.0 + l) % m) by (nonlinear_arith)
            requires
                m == 0x1_0000_0000int,
        ;
    }
    seq.wrapping_add(low)
}

/// The bytes of a list of runs, one after the other.
pub fn flatten_runs(runs: Vec<(SeqNumber, Vec<u8>)>) -> (bytes: Vec<u8>)
    ensures
        bytes@ == concat_runs(runs_view(runs@)),
{
    let ghost all = runs_view(runs@);
    let mut bytes: Vec<u8> = Vec::new();
    let mut i: usize = 0;
    assert(all.skip(0) =~= all);
    assert(bytes@ + concat_runs(all) =~= concat_runs(all));
    while i < runs.len()
        invariant
            i <= runs@.len(),
            all == runs_view(runs@),
            bytes@ + concat_runs(all.skip(i as int)) == concat_runs(all),
        decreases runs@.len() - i,
    {
        let ghost before = bytes@;
        let ghost rest = all.skip(i as int);
        assert(rest[0] == all[i as int]);
        assert(rest.skip(1) =~= all.skip(i as int + 1));
        let mut j: usize = 0;
        while j < runs[i].1.len()
            invariant
                i < runs@.len(),
                j <= runs@[i as int].1@.len(),
                bytes@ == before + runs@[i as int].1@.take(j as int),
            decreases runs@[i as int].1@.len() - j,
        {
            bytes.push(runs[i].1[j]);
            j += 1;
            assert(bytes@ =~= before + runs@[i as int].1@.take(j as int));
        }
        assert(runs@[i as int].1@.take(j as int) =~= runs@[i as int].1@);
        assert(bytes@ + concat_runs(all.skip(i as int + 1)) =~= before + (rest[0].1 + concat_runs(
            rest.skip(1),
        )));
        i += 1;
    }
    assert(all.skip(i as int) =~= Seq::<(u32, Seq<u8>)>::empty());
    assert(bytes@ + concat_runs(all.skip(i as int)) =~= bytes@);
    bytes
}

/// The maximum segment size that a list of options announces.
pub fn find_mss(options: &Vec<TcpOption>) -> (result: Option<u16>)
    ensures
        result == first_mss(options_view(options@)),
{
    let ghost all = options_view(options@);
    let mut i: usize = 0;
    assert(all.skip(0) =~= all);
    while i < options.len()
        invariant
            i <= options@.len(),
            all == options_view(options@),
            first_mss(all) == first_mss(all.skip(i as int)),
        decreases options@.len() - i,
    {
        let ghost rest = all.skip(i as int);
        assert(rest[0] == options@[i as int]@);
        assert(rest.skip(1) =~= all.skip(i as int + 1));
        if let TcpOption::MaximumSegmentSize(mss) = &options[i] {
            return Some(*mss);
        }
        i += 1;
    }
    assert(all.skip(i as int).len() == 0);
    None
}

/// The window scale that a list of options announces.
pub fn find_scale(options: &Vec<TcpOption>) -> (result: Option<u8>)
    ensures
        result == first_scale(options_view(options@)),
{
    let ghost all = options_view(options@);
    let mut i: usize = 0;
    assert(all.skip(0) =~= all);
    while i < options.len()
        invariant
            i <= options@.len(),
            all == options_view(options@),
            first_scale(all) == first_scale(all.skip(i as int)),
        decreases options@.len() - i,
    {
        let ghost rest = all.skip(i as int);
        assert(rest[0] == options@[i as int]@);
        assert(rest.skip(1) =~= all.skip(i as int + 1));
        if let TcpOption::WindowScale(scale) = &options[i] {
            return Some(*scale);
        }
        i += 1;
    }
    assert(all.skip(i as int).len() == 0);
    None
}

/// The round-trip sample that an acknowledged segment gives: the time
/// since its first transmission, in nanoseconds. A segment that was
/// retransmitted gives none, since its acknowledgement may answer any of
/// its transmissions.
pub fn rtt_sample_of(segment: &PendingSegment) -> (sample: Option<u64>)
    ensures
        sample is Some <==> segment@.retransmit_count == 0,
{
    if segment.retransmit_count == 0 {
        Some(elapsed_since(&segment.first_sent))
    } else {
        None
    }
}

impl SegmentOutcome {
    /// The outcome of a segment that is ignored.
    fn nothing() -> (result: Self)
        ensures
            result@ == SegmentOutcomeView::nothing(),
            result.acknowledged@.len() == 0,
    {
        let result = Self {
            replies: Vec::new(),
            delivered: Vec::new(),
            acknowledged: Vec::new(),
            aborted: false,
        };
        assert(result@.replies =~= Seq::empty());
        assert(result@.acknowledged =~= Seq::empty());
        result
    }

    /// The outcome of a segment that is answered with one segment without
    /// payload.
    fn reply(header: TcpHeader) -> (result: Self)
        ensures
            result@ == SegmentOutcomeView::reply(header@),
            result.acknowledged@.len() == 0,
    {
        let mut replies: Vec<OutSegment> = Vec::new();
        replies.push(OutSegment { header, payload: Vec::new() });
        let result = Self {
            replies,
            delivered: Vec::new(),
            acknowledged: Vec::new(),
            aborted: false,
        };
        assert(result@.replies =~= seq![OutSegmentView { header: header@, payload: Seq::empty() }]);
        assert(result@.acknowledged =~= Seq::empty());
        result
    }

    /// The outcome of a reset that is accepted.
    fn reset() -> (result: Self)
        ensures
            result@ == SegmentOutcomeView::reset(),
            result.acknowledged@.len() == 0,
    {
        let result = Self {
            replies: Vec::new(),
            delivered: Vec::new(),
            acknowledged: Vec::new(),
            aborted: true,
        };
        assert(result@.replies =~= Seq::empty());
        assert(result@.acknowledged =~= Seq::empty());
        result
    }
}

impl ControlBlock {
    /// Takes in the options of the peer's SYN.
    fn negotiate(&mut self, options: &Vec<TcpOption>)
        ensures
            final(self)@ == old(self)@.negotiated(options_view(options@)),
    {
        match find_mss(options) {
            Some(peer) => {
                if peer < self.mss {
                    self.mss = peer;
                }
            },
            None => {},
        }
        match find_scale(options) {
            Some(scale) => {
                self.send_window_scale = scale;
            },
            None => {
                self.send_window_scale = 0;
                self.window_scale = 0;
            },
        }
    }

    /// Records the peer's initial sequence number, window and options.
    fn record_peer(&mut self, header: &TcpHeader)
        ensures
            final(self)@ == old(self)@.with_peer(header@),
    {
        self.negotiate(&header.options);
        let after_syn: SeqNumber = SeqNumber(header.seq_num).wrapping_add(1);
        self.recv_seq = SeqNumber(header.seq_num);
        self.recv_ack = after_syn;
        self.recv_buffer.set_next_expected(after_syn);
        self.send_wnd = header.window_size as u32;
    }

    /// Aborts the connection: closed, nothing waiting for acknowledgement,
    /// nothing held for reassembly.
    pub fn abort(&mut self)
        ensures
            final(self)@ == old(self)@.aborted(),
    {
        self.state = TcpState::Closed;
        self.retransmit.clear();
        self.recv_buffer.clear();
    }

    /// Whether a segment of `len` bytes at `seq` is acceptable.
    pub fn is_acceptable(&self, seq: SeqNumber, len: usize) -> (result: bool)
        ensures
            result == self@.acceptable(seq.0, len as int),
    {
        let to_window: u32 = self.recv_ack.diff(seq);
        let into_window: u32 = seq.diff(self.recv_ack);
        (to_window as usize) < len || into_window < self.recv_wnd
    }

    /// Takes in a segment while closed or listening.
    fn on_listen(&mut self, key: &ConnectionKey, header: &TcpHeader) -> (out: SegmentOutcome)
        ensures
            old(self)@.listen_step(*key, header@, final(self)@, out@),
            out.acknowledged@.len() == 0,
    {
        if header.flags.is_syn() && !header.flags.is_ack() && !header.flags.is_rst() {
            self.record_peer(header);
            self.mark_syn_sent(TcpState::SynReceived);
            SegmentOutcome::reply(self.syn_ack_header(key))
        } else {
            SegmentOutcome::nothing()
        }
    }

    /// Takes in a segment in SYN_SENT.
    fn on_syn_sent(&mut self, key: &ConnectionKey, header: &TcpHeader) -> (out: SegmentOutcome)
        ensures
            old(self)@.syn_sent_step(*key, header@, final(self)@, out@),
            out.acknowledged@.len() == 0,
    {
        let expected: SeqNumber = self.send_seq.wrapping_add(1);
        let acks_syn: bool = header.flags.is_ack() && header.ack_num == expected.0;
        if header.flags.is_rst() {
            if acks_syn {
                self.abort();
                SegmentOutcome::reset()
            } else {
                SegmentOutcome::nothing()
            }
        } else if header.flags.is_syn() && acks_syn {
            self.record_peer(header);
            self.state = TcpState::Established;
            self.send_una = SeqNumber(header.ack_num);
            self.send_window = SlidingWindow::starting_at(self.send_wnd, self.send_una);
            SegmentOutcome::reply(self.segment_header(key, self.send_nxt, TcpFlags(0x10)))
        } else {
            SegmentOutcome::nothing()
        }
    }

    /// Enters TIME_WAIT and starts its timer.
    fn enter_time_wait(&mut self)
        ensures
            final(self)@ == old(self)@.in_time_wait(),
    {
        self.state = TcpState::TimeWait;
        self.time_wait.start(60_000_000_000);
    }

    /// Takes in the FIN of a segment.
    fn take_fin(&mut self, header: &TcpHeader, payload: &[u8])
        ensures
            final(self)@ == old(self)@.after_fin(header@, payload@),
    {
        let takes_data: bool = matches!(
            self.state,
            TcpState::Established | TcpState::FinWait1 | TcpState::FinWait2
        );
        if !(header.flags.is_fin() && takes_data) {
            return ;
        }
        let fin_at: SeqNumber = end_of(SeqNumber(header.seq_num), payload.len());
        if fin_at.0 != self.recv_ack.0 {
            return ;
        }
        let after: SeqNumber = self.recv_ack.wrapping_add(1);
        self.recv_ack = after;
        self.recv_buffer.set_next_expected(after);
        match self.state {
            TcpState::Established => {
                self.state = TcpState::CloseWait;
            },
            TcpState::FinWait1 => {
                self.state = TcpState::Closing;
            },
            _ => {
                self.enter_time_wait();
            },
        }
    }

    /// Takes in the payload of a segment and returns the bytes that have
    /// become deliverable.
    fn take_data(&mut self, header: &TcpHeader, payload: &[u8]) -> (delivered: Vec<u8>)
        ensures
            final(self)@ == old(self)@.after_data(header@, payload@),
            delivered@ == old(self)@.delivered_by(header@, payload@),
    {
        let takes_data: bool = matches!(
            self.state,
            TcpState::Established | TcpState::FinWait1 | TcpState::FinWait2
        );
        if payload.len() > 0 && takes_data {
            let ready = self.recv_buffer.add(SeqNumber(header.seq_num), slice_to_vec(payload));
            self.recv_ack = self.recv_buffer.next_expected();
            flatten_runs(ready)
        } else {
            Vec::new()
        }
    }

    /// Takes in a segment in a synchronized state.
    #[verifier::rlimit(30)]
    fn on_synchronized(&mut self, key: &ConnectionKey, header: &TcpHeader, payload: &[u8]) -> (out:
        SegmentOutcome)
        ensures
            old(self)@.synchronized_step(*key, header@, payload@, final(self)@, out@),
            forall|i: int|
                0 <= i < out.acknowledged@.len() ==> (#[trigger] out.acknowledged@[i]).first_sent
                    == old(self).retransmit.first_sent(out.acknowledged@[i].seq.0),
    {
        let ghost pre = self@;
        let seq: SeqNumber = SeqNumber(header.seq_num);
        if !self.is_acceptable(seq, payload.len()) {
            if header.flags.is_rst() {
                return SegmentOutcome::nothing();
            }
            return SegmentOutcome::reply(self.segment_header(key, self.send_nxt, TcpFlags(0x10)));
        }
        if header.flags.is_rst() {
            self.abort();
            return SegmentOutcome::reset();
        }
        let mut replies: Vec<OutSegment> = Vec::new();
        let mut acknowledged: Vec<PendingSegment> = Vec::new();
        assert(segments_view(acknowledged@) =~= Seq::empty());
        assert(segments_out(replies@) =~= Seq::empty());
        let ack: SeqNumber = SeqNumber(header.ack_num);

        if header.flags.is_ack() && ack.after(self.send_una) && !ack.after(self.send_nxt) {
            acknowledged = self.retransmit.acknowledge(ack);
            let bytes_acked: u32 = ack.diff(self.send_una);
            self.congestion.on_ack(ack, bytes_acked);
            let window: u32 = self.scaled_window(header.window_size);
            self.send_una = ack;
            self.send_wnd = window;
            self.send_window.advance(ack);
            self.send_window.set_size(window);
            if ack.0 == self.send_nxt.0 {
                match self.state {
                    TcpState::FinWait1 => {
                        self.state = TcpState::FinWait2;
                    },
                    TcpState::Closing => {
                        self.enter_time_wait();
                    },
                    TcpState::LastAck => {
                        self.state = TcpState::Closed;
                    },
                    _ => {},
                }
            }
        } else if header.flags.is_ack() && header.ack_num == self.send_una.0 && payload.len() == 0
            && header.window_size != 0 && self.scaled_window(header.window_size) == self.send_wnd {
            self.congestion.on_duplicate_ack();
            if self.congestion.dup_acks() == 3 {
                let resend_header = self.segment_header(key, self.send_una, TcpFlags(0x10));
                match self.retransmit.retransmit_at(self.send_una) {
                    Some(segment) => {
                        replies.push(OutSegment { header: resend_header, payload: segment.data });
                        assert(segments_out(replies@) =~= seq![pre.fast_retransmission(*key)]);
                    },
                    None => {},
                }
            }
        }
        assert(self@ == (ControlBlockView {
            retransmit: self@.retransmit,
            ..pre.after_ack(header@, payload@.len() as int)
        }));
        let ghost fast = segments_out(replies@);

        let delivered: Vec<u8> = self.take_data(header, payload);
        self.take_fin(header, payload);

        if payload.len() > 0 || header.flags.is_fin() {
            let ack_header = self.segment_header(key, self.send_nxt, TcpFlags(0x10));
            replies.push(OutSegment { header: ack_header, payload: Vec::new() });
            assert(segments_out(replies@) =~= fast + seq![
                OutSegmentView { header: ack_header@, payload: Seq::empty() },
            ]);
        } else {
            assert(segments_out(replies@) =~= fast + Seq::<OutSegmentView>::empty());
        }
        SegmentOutcome { replies, delivered, acknowledged, aborted: false }
    }

    /// Takes in a segment in SYN_RECEIVED.
    fn on_syn_received(&mut self, key: &ConnectionKey, header: &TcpHeader, payload: &[u8]) -> (out:
        SegmentOutcome)
        ensures
            old(self)@.syn_received_step(*key, header@, payload@, final(self)@, out@),
            forall|i: int|
                0 <= i < out.acknowledged@.len() ==> (#[trigger] out.acknowledged@[i]).first_sent
                    == old(self).retransmit.first_sent(out.acknowledged@[i].seq.0),
    {
        let expected: SeqNumber = self.send_seq.wrapping_add(1);
        if header.flags.is_ack() && header.ack_num == expected.0 && !header.flags.is_syn()
            && !header.flags.is_rst() {
            self.state = TcpState::Established;
            self.on_synchronized(key, header, payload)
        } else {
            SegmentOutcome::nothing()
        }
    }

    /// Takes in a segment that arrived for this connection and says what
    /// to transmit in reply, which bytes have become deliverable, which
    /// segments the peer has acknowledged and whether the peer reset the
    /// connection. Each acknowledged segment comes back with the time of
    /// its first transmission, from which a round-trip sample is taken.
    pub fn on_segment(&mut self, key: &ConnectionKey, header: &TcpHeader, payload: &[u8]) -> (out:
        SegmentOutcome)
        ensures
            old(self)@.segment_step(*key, header@, payload@, final(self)@, out@),
            forall|i: int|
                0 <= i < out.acknowledged@.len() ==> (#[trigger] out.acknowledged@[i]).first_sent
                    == old(self).retransmit.first_sent(out.acknowledged@[i].seq.0),
    {
        match self.state {
            TcpState::Closed | TcpState::Listen => self.on_listen(key, header),
            TcpState::SynSent => self.on_syn_sent(key, header),
            TcpState::SynReceived => self.on_syn_received(key, header, payload),
            _ => self.on_synchronized(key, header, payload),
        }
    }
}

} // verus!
