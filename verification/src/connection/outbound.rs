//! Sending: cutting application data into segments, and acting on the
//! retransmission timer.

use crate::connection::control::{ControlBlock, ControlBlockView};
use crate::connection::machine::{segments_out, OutSegment, OutSegmentView};
use crate::connection::states::TcpState;
use crate::connection::timer::clock_now;
use crate::demux::ConnectionKey;
use crate::packet::tcp::{TcpFlags, TcpHeader, TcpHeaderView};
use crate::reliability::reorder::advance_by;
use crate::reliability::retransmit::{
    segments_view, PendingSegment, PendingSegmentView, RetransmitState,
};
use crate::reliability::RetransmissionManager;
use crate::utils::SeqNumber;
use vstd::prelude::*;
use vstd::slice::{slice_subrange, slice_to_vec};

verus! {

/// The length of the next segment cut from `len` bytes: a full segment
/// size, or all that is left.
pub open spec fn chunk_len(len: int, mss: u16) -> int {
    if len < mss {
        len
    } else {
        mss as int
    }
}

/// The retransmission table after `data` is cut into segments from
/// sequence number `next` on and each segment is filed.
pub open spec fn table_after_send(
    table: RetransmitState,
    next: u32,
    data: Seq<u8>,
    mss: u16,
    rto: u64,
) -> RetransmitState
    decreases data.len(),
{
    if data.len() == 0 || mss == 0 {
        table
    } else {
        let n = chunk_len(data.len() as int, mss);
        table_after_send(
            table.with_added(
                PendingSegmentView {
                    seq: next,
                    len: n as u32,
                    data: data.take(n),
                    retransmit_count: 0,
                },
                rto,
            ),
            advance_by(next, n),
            data.skip(n),
            mss,
            rto,
        )
    }
}

/// The segments that carry `data` from sequence number `next` on: each
/// carries a full segment size but the last, which carries what is left
/// and has PSH set.
pub open spec fn segments_for(block: ControlBlockView, key: ConnectionKey, next: u32, data: Seq<u8>)
    -> Seq<OutSegmentView>
    decreases data.len(),
{
    if data.len() == 0 || block.mss == 0 {
        Seq::empty()
    } else {
        let n = chunk_len(data.len() as int, block.mss);
        let flags = if n == data.len() {
            0x18u8
        } else {
            0x10u8
        };
        seq![
            OutSegmentView { header: block.segment_header(key, next, flags), payload: data.take(n) },
        ] + segments_for(block, key, advance_by(next, n), data.skip(n))
    }
}

/// The segment that retransmits a waiting segment.
pub open spec fn resend_of(block: ControlBlockView, key: ConnectionKey, segment: PendingSegmentView)
    -> OutSegmentView {
    OutSegmentView {
        header: block.segment_header(key, segment.seq, 0x10),
        payload: segment.data,
    }
}

/// Cutting the first segment off `rest` files it and leaves the remainder
/// to be cut from where it ends.
proof fn lemma_send_unfolds(
    block: ControlBlockView,
    key: ConnectionKey,
    table: RetransmitState,
    next: u32,
    rest: Seq<u8>,
)
    requires
        rest.len() > 0,
        block.mss > 0,
    ensures
        ({
            let n = chunk_len(rest.len() as int, block.mss);
            let flags = if n == rest.len() {
                0x18u8
            } else {
                0x10u8
            };
            &&& table_after_send(table, next, rest, block.mss, block.rto) == table_after_send(
                table.with_added(
                    PendingSegmentView {
                        seq: next,
                        len: n as u32,
                        data: rest.take(n),
                        retransmit_count: 0,
                    },
                    block.rto,
                ),
                advance_by(next, n),
                rest.skip(n),
                block.mss,
                block.rto,
            )
            &&& segments_for(block, key, next, rest) == seq![
                OutSegmentView {
                    header: block.segment_header(key, next, flags),
                    payload: rest.take(n),
                },
            ] + segments_for(block, key, advance_by(next, n), rest.skip(n))
        }),
{
}

/// Advancing twice is advancing by the sum.
proof fn lemma_advance_twice(start: u32, first: int, second: int)
    requires
        0 <= first,
        0 <= second,
    ensures
        advance_by(advance_by(start, first), second) == advance_by(start, first + second),
{
    let m = 0x1_0000_0000int;
    let a = start + first;
    assert(((a % m) + second) % m == (a + second) % m) by (nonlinear_arith)
        requires
            m == 0x1_0000_0000int,
    ;
}

/// A header without options.
fn plain_header(key: &ConnectionKey, seq: SeqNumber, ack_num: u32, flags: TcpFlags, window: u16)
    -> (result: TcpHeader)
    ensures
        result@ == (TcpHeaderView {
            src_port: key.local.port,
            dst_port: key.remote.port,
            seq_num: seq.0,
            ack_num,
            data_offset: 5,
            flags,
            window_size: window,
            checksum: 0,
            urgent_pointer: 0,
            options: Seq::empty(),
        }),
{
    let mut header = TcpHeader::new(key.local.port, key.remote.port);
    header.seq_num = seq.0;
    header.ack_num = ack_num;
    header.flags = flags;
    header.window_size = window;
    header
}

/// What a run-out retransmission timer gives: the segments to transmit,
/// and whether the connection has timed out.
pub struct TimeoutOutcome {
    pub segments: Vec<OutSegment>,
    pub timed_out: bool,
}

impl ControlBlockView {
    /// Whether the application may send: the connection is established or
    /// the peer alone has closed, and the segment size is not zero.
    pub open spec fn can_send(self) -> bool {
        (self.state == TcpState::Established || self.state == TcpState::CloseWait) && self.mss > 0
    }

    /// The control block after the application has sent `data`: every
    /// segment waits for its acknowledgement, and the next byte to send
    /// is the one after the data.
    pub open spec fn after_send(self, data: Seq<u8>) -> ControlBlockView {
        if self.can_send() {
            ControlBlockView {
                snd_nxt: advance_by(self.snd_nxt, data.len() as int),
                retransmit: table_after_send(self.retransmit, self.snd_nxt, data, self.mss, self.rto),
                ..self
            }
        } else {
            self
        }
    }

    /// The segments that carry `data` of the application.
    pub open spec fn sends(self, key: ConnectionKey, data: Seq<u8>) -> Seq<OutSegmentView> {
        if self.can_send() {
            segments_for(self, key, self.snd_nxt, data)
        } else {
            Seq::empty()
        }
    }

    /// Whether some waiting segment has reached the retry limit.
    pub open spec fn retries_exhausted(self) -> bool {
        exists|k: u32|
            self.retransmit.pending.contains_key(k) && (
            #[trigger] self.retransmit.pending[k]).retransmit_count >= 15
    }

    /// What a run-out retransmission timer makes of the connection.
    ///
    /// Where a waiting segment has reached the retry limit, the
    /// connection is aborted and a reset is transmitted. Otherwise every
    /// waiting segment counts one more retransmission, those within the
    /// limit are transmitted again, the timer restarts with twice the
    /// timeout, and congestion control collapses the window.
    pub open spec fn timeout_step(
        self,
        key: ConnectionKey,
        post: ControlBlockView,
        segments: Seq<OutSegmentView>,
        timed_out: bool,
    ) -> bool {
        if self.retries_exhausted() {
            &&& post == self.aborted()
            &&& timed_out
            &&& segments == seq![
                OutSegmentView {
                    header: self.segment_header(key, self.snd_nxt, 0x04),
                    payload: Seq::empty(),
                },
            ]
        } else {
            &&& post == (ControlBlockView {
                retransmit: post.retransmit,
                congestion: self.congestion.on_timeout(),
                ..self
            })
            &&& !timed_out
            &&& exists|due: Seq<PendingSegmentView>|
                {
                    &&& #[trigger] self.retransmit.retransmitted(self.rto, post.retransmit, due)
                    &&& segments == Seq::new(due.len(), |i: int| resend_of(self, key, due[i]))
                }
        }
    }
}

impl ControlBlock {
    /// Cuts `data` of the application into segments, files each for
    /// retransmission and returns them for transmission. Outside
    /// ESTABLISHED and CLOSE_WAIT, and with a segment size of zero,
    /// nothing is sent and nothing changes.
    pub fn send(&mut self, key: &ConnectionKey, data: &[u8]) -> (segments: Vec<OutSegment>)
        ensures
            final(self)@ == old(self)@.after_send(data@),
            segments_out(segments@) == old(self)@.sends(*key, data@),
    {
        let ghost pre = self@;
        let mut segments: Vec<OutSegment> = Vec::new();
        assert(segments_out(segments@) =~= Seq::empty());
        let sendable: bool = matches!(self.state, TcpState::Established | TcpState::CloseWait);
        if !sendable || self.mss == 0 {
            return segments;
        }
        let mss: usize = self.mss as usize;
        let rto: u64 = self.rto;
        let ack_num: u32 = self.recv_ack.0;
        let window: u16 = self.advertised_window();
        let mut next: SeqNumber = self.send_nxt;
        let mut table = RetransmissionManager::new();
        std::mem::swap(&mut self.retransmit, &mut table);
        let mut off: usize = 0;
        assert(data@.skip(0) =~= data@);
        assert(segments_out(segments@) + segments_for(pre, *key, pre.snd_nxt, data@)
            =~= segments_for(pre, *key, pre.snd_nxt, data@));
        while off < data.len()
            invariant
                off <= data@.len(),
                mss == pre.mss,
                mss > 0,
                rto == pre.rto,
                ack_num == pre.rcv_nxt,
                window == pre.advertised_window(),
                next.0 == advance_by(pre.snd_nxt, off as int),
                table_after_send(pre.retransmit, pre.snd_nxt, data@, pre.mss, pre.rto)
                    == table_after_send(table@, next.0, data@.skip(off as int), pre.mss, pre.rto),
                segments_for(pre, *key, pre.snd_nxt, data@) == segments_out(segments@)
                    + segments_for(pre, *key, next.0, data@.skip(off as int)),
            decreases data@.len() - off,
        {
            let left: usize = data.len() - off;
            let n: usize = if left < mss {
                left
            } else {
                mss
            };
            let flags: TcpFlags = if n == left {
                TcpFlags(0x18)
            } else {
                TcpFlags(0x10)
            };
            let ghost rest = data@.skip(off as int);
            let ghost sent = segments_out(segments@);
            let ghost filed = table@;
            let header = plain_header(key, next, ack_num, flags, window);
            let chunk: &[u8] = slice_subrange(data, off, off + n);
            assert(chunk@ =~= rest.take(n as int));
            assert(rest.skip(n as int) =~= data@.skip(off as int + n as int));
            let segment = PendingSegment {
                seq: next,
                len: n as u32,
                data: slice_to_vec(chunk),
                retransmit_count: 0,
                first_sent: clock_now(),
            };
            table.add_segment(segment, rto);
            segments.push(OutSegment { header, payload: slice_to_vec(chunk) });
            proof {
                lemma_send_unfolds(pre, *key, filed, next.0, rest);
                let first = OutSegmentView {
                    header: pre.segment_header(*key, next.0, flags.0),
                    payload: rest.take(n as int),
                };
                let more = segments_for(pre, *key, advance_by(next.0, n as int), rest.skip(n as int));
                assert(segments_out(segments@) =~= sent.push(first));
                assert(sent + (seq![first] + more) =~= sent.push(first) + more);
                lemma_advance_twice(pre.snd_nxt, off as int, n as int);
            }
            next = next.wrapping_add(n as u32);
            off += n;
        }
        assert(data@.skip(off as int).len() == 0);
        assert(segments_out(segments@) + Seq::<OutSegmentView>::empty() =~= segments_out(
            segments@,
        ));
        std::mem::swap(&mut self.retransmit, &mut table);
        self.send_nxt = next;
        segments
    }

    /// Acts on a retransmission timer that has run out while segments
    /// wait: gives the connection up where a segment has reached the retry
    /// limit, and hands out the waiting segments for another transmission
    /// otherwise.
    pub fn retransmit_timed_out(&mut self, key: &ConnectionKey) -> (out: TimeoutOutcome)
        ensures
            old(self)@.timeout_step(*key, final(self)@, segments_out(out.segments@), out.timed_out),
    {
        let ghost pre = self@;
        let mut segments: Vec<OutSegment> = Vec::new();
        if self.retransmit.retries_exhausted() {
            let header = self.segment_header(key, self.send_nxt, TcpFlags(0x04));
            segments.push(OutSegment { header, payload: Vec::new() });
            self.abort();
            assert(segments_out(segments@) =~= seq![
                OutSegmentView {
                    header: pre.segment_header(*key, pre.snd_nxt, 0x04),
                    payload: Seq::empty(),
                },
            ]);
            return TimeoutOutcome { segments, timed_out: true };
        }
        let due: Vec<PendingSegment> = self.retransmit.retransmit_due(self.rto);
        self.congestion.on_timeout();
        let ghost views = segments_view(due@);
        let mut i: usize = 0;
        while i < due.len()
            invariant
                i <= due@.len(),
                views == segments_view(due@),
                self@ == (ControlBlockView {
                    retransmit: self@.retransmit,
                    congestion: pre.congestion.on_timeout(),
                    ..pre
                }),
                segments_out(segments@) == Seq::new(
                    i as nat,
                    |j: int| resend_of(pre, *key, views[j]),
                ),
            decreases due@.len() - i,
        {
            let header = self.segment_header(key, due[i].seq, TcpFlags(0x10));
            let ghost before = segments_out(segments@);
            let payload: Vec<u8> = slice_to_vec(due[i].data.as_slice());
            segments.push(OutSegment { header, payload });
            assert(segments_out(segments@) =~= before.push(resend_of(pre, *key, views[i as int])));
            i += 1;
            assert(segments_out(segments@) =~= Seq::new(
                i as nat,
                |j: int| resend_of(pre, *key, views[j]),
            ));
        }
        assert(pre.retransmit.retransmitted(pre.rto, self@.retransmit, views));
        TimeoutOutcome { segments, timed_out: false }
    }

    /// Acts on the retransmission timer where the waiting segments are due
    /// by now; otherwise nothing changes, nothing is transmitted.
    pub fn on_retransmit_timeout(&mut self, key: &ConnectionKey) -> (out: TimeoutOutcome)
        ensures
            exists|elapsed: u64|
                if #[trigger] old(self)@.retransmit.due_after(elapsed) {
                    old(self)@.timeout_step(
                        *key,
                        final(self)@,
                        segments_out(out.segments@),
                        out.timed_out,
                    )
                } else {
                    final(self)@ == old(self)@ && out.segments@.len() == 0 && !out.timed_out
                },
    {
        let due: bool = self.retransmit.should_retransmit();
        let ghost elapsed = choose|e: u64| due == self@.retransmit.due_after(e);
        if !due {
            assert(!old(self)@.retransmit.due_after(elapsed));
            return TimeoutOutcome { segments: Vec::new(), timed_out: false };
        }
        let out = self.retransmit_timed_out(key);
        assert(old(self)@.retransmit.due_after(elapsed));
        out
    }
}

} // verus!
