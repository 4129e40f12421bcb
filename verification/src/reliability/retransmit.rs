//! Retransmission management.
//!
//! Segments that were sent and not yet acknowledged wait in a table keyed
//! by their sequence number. One timer guards the table: it runs while
//! the table is not empty, and when it runs out every waiting segment is
//! due again.

use crate::connection::timer::{elapsed_since, Timer, TimerState};
use crate::utils::seq::{seq_add, seq_before};
use crate::utils::SeqNumber;
use std::collections::HashMap;
use std::time::Instant;
use vstd::prelude::*;
use vstd::std_specs::iter::IteratorSpec;

verus! {

/// Segment awaiting acknowledgment.
#[derive(Debug, Clone)]
pub struct PendingSegment {
    pub seq: SeqNumber,
    pub len: u32,
    pub data: Vec<u8>,
    pub retransmit_count: u32,
    pub first_sent: Instant,
}

/// The mathematical value of a [`PendingSegment`]. The clock reading of
/// its first transmission is not part of it.
pub struct PendingSegmentView {
    pub seq: u32,
    pub len: u32,
    pub data: Seq<u8>,
    pub retransmit_count: u32,
}

impl View for PendingSegment {
    type V = PendingSegmentView;

    open spec fn view(&self) -> PendingSegmentView {
        PendingSegmentView {
            seq: self.seq.0,
            len: self.len,
            data: self.data@,
            retransmit_count: self.retransmit_count,
        }
    }
}

/// The most retransmissions that one segment gets.
pub open spec fn max_retries() -> int {
    15
}

/// One second in nanoseconds: the shortest restart after an acknowledgement.
pub open spec fn restart_floor() -> int {
    1_000_000_000
}

/// Sixty seconds in nanoseconds: the longest restart after an
/// acknowledgement.
pub open spec fn restart_ceiling() -> int {
    60_000_000_000
}

/// The timeout of a segment first sent `elapsed` nanoseconds ago: one
/// second plus twice its age, and no more than sixty seconds.
pub open spec fn backoff_of(elapsed: u64) -> int {
    if restart_floor() + 2 * elapsed > restart_ceiling() {
        restart_ceiling()
    } else {
        restart_floor() + 2 * elapsed
    }
}

impl PendingSegmentView {
    /// The sequence number just past the segment.
    pub open spec fn end(self) -> u32 {
        seq_add(self.seq, self.len) as u32
    }

    /// Whether a cumulative acknowledgement of `ack` covers the segment:
    /// its end is `ack` or before `ack`.
    pub open spec fn acked_by(self, ack: u32) -> bool {
        self.end() == ack || seq_before(self.end(), ack)
    }

    /// The segment after one more retransmission, the count capped at the
    /// largest 32-bit value.
    pub open spec fn retried(self) -> PendingSegmentView {
        PendingSegmentView {
            retransmit_count: if self.retransmit_count < u32::MAX {
                (self.retransmit_count + 1) as u32
            } else {
                self.retransmit_count
            },
            ..self
        }
    }

    /// Whether the segment may still be sent again.
    pub open spec fn sendable(self) -> bool {
        self.retransmit_count <= max_retries()
    }
}

/// The values of a list of segments, in order.
pub open spec fn segments_view(segments: Seq<PendingSegment>) -> Seq<PendingSegmentView> {
    Seq::new(segments.len(), |i: int| segments[i]@)
}

/// Whether `out` lists, each once and in any order, exactly the segments
/// of `source` that `chosen` picks.
pub open spec fn lists_chosen(
    out: Seq<PendingSegmentView>,
    source: Map<u32, PendingSegmentView>,
    chosen: spec_fn(PendingSegmentView) -> bool,
) -> bool {
    &&& forall|i: int|
        0 <= i < out.len() ==> source.contains_key((#[trigger] out[i]).seq) && source[out[i].seq]
            == out[i] && chosen(out[i])
    &&& forall|i: int, j: int|
        0 <= i < j < out.len() ==> (#[trigger] out[i]).seq != (#[trigger] out[j]).seq
    &&& forall|k: u32|
        source.contains_key(k) && chosen(#[trigger] source[k]) ==> exists|i: int|
            0 <= i < out.len() && (#[trigger] out[i]).seq == k
}

/// The mathematical value of a [`RetransmissionManager`]: the waiting
/// segments by sequence number, and the timer.
pub struct RetransmitState {
    pub pending: Map<u32, PendingSegmentView>,
    pub timer: TimerState,
}

impl RetransmitState {
    /// Every waiting segment is filed under its own sequence number, and
    /// there are finitely many.
    pub open spec fn keyed(self) -> bool {
        &&& self.pending.dom().finite()
        &&& forall|k: u32| self.pending.contains_key(k) ==> (#[trigger] self.pending[k]).seq == k
    }

    /// The table after `segment` is filed: it takes the place under its
    /// sequence number, and where it is then the only one, the timer starts
    /// for `rto` nanoseconds.
    pub open spec fn with_added(self, segment: PendingSegmentView, rto: u64) -> RetransmitState {
        let pending = self.pending.insert(segment.seq, segment);
        RetransmitState {
            pending,
            timer: if pending.dom().len() == 1 {
                TimerState { armed: true, duration: rto }
            } else {
                self.timer
            },
        }
    }

    /// The segments that stay after a cumulative acknowledgement of `ack`.
    pub open spec fn after_ack(self, ack: u32) -> Map<u32, PendingSegmentView> {
        Map::new(
            |k: u32| self.pending.contains_key(k) && !self.pending[k].acked_by(ack),
            |k: u32| self.pending[k],
        )
    }

    /// The segments after each has been retransmitted once more.
    pub open spec fn after_retry(self) -> Map<u32, PendingSegmentView> {
        Map::new(|k: u32| self.pending.contains_key(k), |k: u32| self.pending[k].retried())
    }

    /// Whether `post` and `out` are what a cumulative acknowledgement of
    /// `ack` makes of `self`: the covered segments leave the table and are
    /// handed out; the timer stops when nothing is left and otherwise
    /// restarts with the timeout that belongs to the age of some segment,
    /// which lies between one and sixty seconds.
    pub open spec fn acknowledged(self, ack: u32, post: RetransmitState, out: Seq<PendingSegmentView>)
        -> bool {
        &&& post.pending == self.after_ack(ack)
        &&& lists_chosen(out, self.pending, |s: PendingSegmentView| s.acked_by(ack))
        &&& post.pending.dom().len() == 0 ==> post.timer == (TimerState {
            armed: false,
            duration: self.timer.duration,
        })
        &&& post.pending.dom().len() > 0 ==> post.timer.armed && restart_floor()
            <= post.timer.duration <= restart_ceiling() && exists|age: u64|
            post.timer.duration == #[trigger] backoff_of(age)
    }

    /// Whether `post` and `out` are what a run-out timer makes of `self`:
    /// every segment counts one more retransmission, those still within
    /// the retry limit are handed out, and the timer restarts with twice
    /// `rto`, capped at the largest 64-bit value.
    pub open spec fn retransmitted(self, rto: u64, post: RetransmitState, out: Seq<PendingSegmentView>)
        -> bool {
        &&& post.pending == self.after_retry()
        &&& lists_chosen(out, post.pending, |s: PendingSegmentView| s.sendable())
        &&& post.timer == (TimerState {
            armed: true,
            duration: if 2 * rto > u64::MAX {
                u64::MAX
            } else {
                (2 * rto) as u64
            },
        })
    }
}

/// The values of the segments in a table.
pub open spec fn pending_view(table: Map<u32, PendingSegment>) -> Map<u32, PendingSegmentView> {
    Map::new(|k: u32| table.contains_key(k), |k: u32| table[k]@)
}

/// The timeout of a segment first sent `elapsed` nanoseconds ago.
pub fn backoff_timeout(elapsed: u64) -> (result: u64)
    ensures
        result == backoff_of(elapsed),
        restart_floor() <= result <= restart_ceiling(),
{
    if elapsed >= 29_500_000_000 {
        60_000_000_000
    } else {
        1_000_000_000 + 2 * elapsed
    }
}

/// A copy of a segment: same bytes, same counters, same first transmission.
pub fn copy_segment(segment: &PendingSegment) -> (result: PendingSegment)
    ensures
        result@ == segment@,
        result.first_sent == segment.first_sent,
{
    let mut data: Vec<u8> = Vec::with_capacity(segment.data.len());
    let mut i: usize = 0;
    while i < segment.data.len()
        invariant
            i <= segment.data@.len(),
            data@ == segment.data@.take(i as int),
        decreases segment.data@.len() - i,
    {
        data.push(segment.data[i]);
        i += 1;
        assert(data@ =~= segment.data@.take(i as int));
    }
    assert(segment.data@.take(i as int) =~= segment.data@);
    PendingSegment {
        seq: segment.seq,
        len: segment.len,
        data,
        retransmit_count: segment.retransmit_count,
        first_sent: segment.first_sent,
    }
}

/// The sequence numbers under which segments wait, each once, in the
/// order the table yields them.
fn collect_keys(table: &HashMap<u32, PendingSegment>) -> (keys: Vec<u32>)
    ensures
        keys@.to_set() == table@.dom(),
        keys@.no_duplicates(),
        keys@.len() == table@.dom().len(),
{
    let mut keys: Vec<u32> = Vec::new();
    for k in it: table.keys()
        invariant
            keys@ == it.seq().take(it.index() as int).unref(),
            it.seq() == table.keys().remaining(),
    {
        keys.push(*k);
        assert(keys@ =~= it.seq().take(it.index() + 1).unref());
    }
    assert(keys@ =~= table.keys().remaining().unref());
    keys
}

/// The sequence numbers of the segments of a table that a cumulative
/// acknowledgement of `ack` covers, each once.
fn covered_keys(table: &HashMap<u32, PendingSegment>, keys: &Vec<u32>, ack: SeqNumber) -> (covered:
    Vec<u32>)
    requires
        keys@.to_set() == table@.dom(),
        keys@.no_duplicates(),
    ensures
        covered@.no_duplicates(),
        forall|t: int|
            0 <= t < covered@.len() ==> table@.contains_key(#[trigger] covered@[t])
                && table@[covered@[t]]@.acked_by(ack.0),
        forall|k: u32|
            table@.contains_key(k) && (#[trigger] table@[k])@.acked_by(ack.0) ==> covered@.contains(
                k,
            ),
{
    let mut covered: Vec<u32> = Vec::new();
    let mut i: usize = 0;
    while i < keys.len()
        invariant
            i <= keys@.len(),
            keys@.to_set() == table@.dom(),
            keys@.no_duplicates(),
            covered@.no_duplicates(),
            forall|t: int|
                0 <= t < covered@.len() ==> table@.contains_key(#[trigger] covered@[t])
                    && table@[covered@[t]]@.acked_by(ack.0),
            forall|t: int|
                0 <= t < covered@.len() ==> exists|s: int|
                    0 <= s < i && keys@[s] == #[trigger] covered@[t],
            forall|s: int|
                0 <= s < i && table@[#[trigger] keys@[s]]@.acked_by(ack.0) ==> covered@.contains(
                    keys@[s],
                ),
        decreases keys@.len() - i,
    {
        let key: u32 = keys[i];
        assert(keys@.to_set().contains(keys@[i as int]));
        assert(table@.dom().contains(key));
        let ghost listed = covered@;
        let mut hit: bool = false;
        match table.get(&key) {
            Some(seg) => {
                let seg_end: SeqNumber = seg.seq.wrapping_add(seg.len);
                if seg_end.0 == ack.0 || seg_end.before(ack) {
                    hit = true;
                }
            },
            None => {},
        }
        assert(hit == table@[key]@.acked_by(ack.0));
        if hit {
            covered.push(key);
        }
        proof {
            assert forall|t: int| 0 <= t < covered@.len() implies exists|s: int|
                0 <= s < i + 1 && keys@[s] == #[trigger] covered@[t] by {
                if t < listed.len() {
                    assert(covered@[t] == listed[t]);
                    let s = choose|s: int| 0 <= s < i && keys@[s] == listed[t];
                    assert(0 <= s < i + 1 && keys@[s] == covered@[t]);
                } else {
                    assert(keys@[i as int] == covered@[t]);
                }
            }
            assert forall|a: int, b: int|
                0 <= a < covered@.len() && 0 <= b < covered@.len() && a != b implies covered@[a]
                != covered@[b] by {
                if a < listed.len() && b < listed.len() {
                    assert(listed[a] != listed[b]);
                } else {
                    let earlier = if a < listed.len() {
                        a
                    } else {
                        b
                    };
                    let s = choose|s: int| 0 <= s < i && keys@[s] == listed[earlier];
                    assert(keys@[s] != keys@[i as int]);
                }
            }
            assert forall|s: int|
                0 <= s < i + 1 && table@[#[trigger] keys@[s]]@.acked_by(
                    ack.0,
                ) implies covered@.contains(keys@[s]) by {
                if s < i {
                    assert(listed.contains(keys@[s]));
                    let t = choose|t: int| 0 <= t < listed.len() && listed[t] == keys@[s];
                    assert(covered@[t] == keys@[s]);
                } else {
                    assert(covered@[covered@.len() - 1] == keys@[s]);
                }
            }
        }
        i += 1;
    }
    proof {
        assert forall|k: u32|
            table@.contains_key(k) && (#[trigger] table@[k])@.acked_by(
                ack.0,
            ) implies covered@.contains(k) by {
            assert(keys@.to_set().contains(k));
            let s = choose|s: int| 0 <= s < keys@.len() && keys@[s] == k;
            assert(covered@.contains(keys@[s]));
        }
    }
    covered
}

/// Takes the segments under `keys` out of a table, in the order of `keys`.
fn take_segments(table: &mut HashMap<u32, PendingSegment>, keys: &Vec<u32>) -> (taken: Vec<
    PendingSegment,
>)
    requires
        keys@.no_duplicates(),
        forall|t: int| 0 <= t < keys@.len() ==> old(table)@.contains_key(#[trigger] keys@[t]),
    ensures
        taken@.len() == keys@.len(),
        forall|t: int| 0 <= t < keys@.len() ==> #[trigger] taken@[t] == old(table)@[keys@[t]],
        final(table)@ == old(table)@.remove_keys(keys@.to_set()),
{
    let ghost origin = table@;
    let mut taken: Vec<PendingSegment> = Vec::new();
    let mut j: usize = 0;
    assert(table@ =~= origin.remove_keys(keys@.take(0).to_set()));
    while j < keys.len()
        invariant
            j <= keys@.len(),
            taken@.len() == j,
            keys@.no_duplicates(),
            forall|t: int| 0 <= t < keys@.len() ==> origin.contains_key(#[trigger] keys@[t]),
            forall|t: int| 0 <= t < j ==> #[trigger] taken@[t] == origin[keys@[t]],
            table@ == origin.remove_keys(keys@.take(j as int).to_set()),
        decreases keys@.len() - j,
    {
        let key: u32 = keys[j];
        let ghost held = table@;
        let ghost gone = keys@.take(j as int);
        assert(!gone.to_set().contains(key)) by {
            if gone.contains(key) {
                let t = choose|t: int| 0 <= t < gone.len() && gone[t] == key;
                assert(keys@[t] == keys@[j as int]);
            }
        }
        assert(held.contains_key(key));
        match table.remove(&key) {
            Some(seg) => {
                taken.push(seg);
            },
            None => {},
        }
        proof {
            let more = keys@.take(j as int + 1);
            assert(more =~= gone.push(key));
            assert forall|k: u32| more.to_set().contains(k) == (gone.to_set().contains(k) || k
                == key) by {
                if gone.contains(k) {
                    let t = choose|t: int| 0 <= t < gone.len() && gone[t] == k;
                    assert(more[t] == k);
                }
                if k == key {
                    assert(more[j as int] == k);
                }
            }
            assert(table@ =~= origin.remove_keys(more.to_set()));
        }
        j += 1;
    }
    assert(keys@.take(j as int) =~= keys@);
    taken
}

/// The shortest of the timeouts that belong to the ages of the segments
/// of a table that is not empty.
fn shortest_backoff(table: &HashMap<u32, PendingSegment>, keys: &Vec<u32>) -> (shortest: u64)
    requires
        keys@.to_set() == table@.dom(),
        keys@.len() > 0,
    ensures
        restart_floor() <= shortest <= restart_ceiling(),
        exists|age: u64| shortest == #[trigger] backoff_of(age),
{
    let mut shortest: u64 = u64::MAX;
    let mut n: usize = 0;
    while n < keys.len()
        invariant
            n <= keys@.len(),
            keys@.to_set() == table@.dom(),
            n == 0 ==> shortest == u64::MAX,
            n > 0 ==> restart_floor() <= shortest <= restart_ceiling(),
            n > 0 ==> exists|age: u64| shortest == #[trigger] backoff_of(age),
        decreases keys@.len() - n,
    {
        let key: u32 = keys[n];
        assert(keys@.to_set().contains(keys@[n as int]));
        assert(table@.dom().contains(key));
        match table.get(&key) {
            Some(seg) => {
                let age: u64 = elapsed_since(&seg.first_sent);
                let candidate: u64 = backoff_timeout(age);
                assert(candidate == backoff_of(age));
                if candidate < shortest {
                    shortest = candidate;
                }
            },
            None => {},
        }
        n += 1;
    }
    shortest
}

/// A waiting segment after one more retransmission: the same segment,
/// first sent at the same time, with its count one higher and capped at
/// the largest 32-bit value.
pub open spec fn counted(segment: PendingSegment) -> PendingSegment {
    PendingSegment {
        retransmit_count: if segment.retransmit_count < u32::MAX {
            (segment.retransmit_count + 1) as u32
        } else {
            segment.retransmit_count
        },
        ..segment
    }
}

/// Counts one more retransmission on every segment of a table.
fn count_retransmission(table: &mut HashMap<u32, PendingSegment>, keys: &Vec<u32>)
    requires
        keys@.to_set() == old(table)@.dom(),
        keys@.no_duplicates(),
    ensures
        final(table)@.dom() == old(table)@.dom(),
        forall|k: u32|
            old(table)@.contains_key(k) ==> #[trigger] final(table)@[k] == counted(old(table)@[k]),
{
    let ghost origin = table@;
    let mut i: usize = 0;
    while i < keys.len()
        invariant
            i <= keys@.len(),
            keys@.to_set() == origin.dom(),
            keys@.no_duplicates(),
            table@.dom() == origin.dom(),
            forall|s: int| 0 <= s < i ==> #[trigger] table@[keys@[s]] == counted(origin[keys@[s]]),
            forall|s: int| i <= s < keys@.len() ==> #[trigger] table@[keys@[s]] == origin[keys@[s]],
        decreases keys@.len() - i,
    {
        let key: u32 = keys[i];
        assert(keys@.to_set().contains(keys@[i as int]));
        let ghost held = table@;
        assert(held[key] == origin[key]);
        match table.remove(&key) {
            Some(seg) => {
                let bumped = PendingSegment {
                    seq: seg.seq,
                    len: seg.len,
                    data: seg.data,
                    retransmit_count: seg.retransmit_count.saturating_add(1),
                    first_sent: seg.first_sent,
                };
                assert(bumped == counted(origin[key]));
                table.insert(key, bumped);
                assert(table@ =~= held.insert(key, counted(origin[key])));
            },
            None => {},
        }
        assert(table@.dom() =~= origin.dom());
        assert forall|s: int| 0 <= s < i + 1 implies #[trigger] table@[keys@[s]] == counted(
            origin[keys@[s]],
        ) by {
            if s < i {
                assert(keys@[s] != keys@[i as int]);
                assert(table@[keys@[s]] == held[keys@[s]]);
            }
        }
        assert forall|s: int| i + 1 <= s < keys@.len() implies #[trigger] table@[keys@[s]]
            == origin[keys@[s]] by {
            assert(keys@[s] != keys@[i as int]);
            assert(table@[keys@[s]] == held[keys@[s]]);
        }
        i += 1;
    }
    assert forall|k: u32| origin.contains_key(k) implies #[trigger] table@[k] == counted(
        origin[k],
    ) by {
        assert(keys@.to_set().contains(k));
        let s = choose|s: int| 0 <= s < keys@.len() && keys@[s] == k;
        assert(table@[keys@[s]] == counted(origin[keys@[s]]));
    }
}

/// Copies of the segments of a table that may still be sent again.
fn copies_within_limit(table: &HashMap<u32, PendingSegment>, keys: &Vec<u32>) -> (segments: Vec<
    PendingSegment,
>)
    requires
        keys@.to_set() == table@.dom(),
        keys@.no_duplicates(),
        forall|k: u32| table@.contains_key(k) ==> (#[trigger] table@[k]).seq.0 == k,
    ensures
        lists_chosen(
            segments_view(segments@),
            pending_view(table@),
            |s: PendingSegmentView| s.sendable(),
        ),
        forall|i: int|
            0 <= i < segments@.len() ==> (#[trigger] segments@[i]).first_sent
                == table@[segments@[i].seq.0].first_sent,
{
    let mut segments: Vec<PendingSegment> = Vec::new();
    let mut i: usize = 0;
    while i < keys.len()
        invariant
            i <= keys@.len(),
            keys@.to_set() == table@.dom(),
            keys@.no_duplicates(),
            forall|k: u32| table@.contains_key(k) ==> (#[trigger] table@[k]).seq.0 == k,
            forall|t: int|
                0 <= t < segments@.len() ==> table@.contains_key((#[trigger] segments@[t]).seq.0)
                    && segments@[t]@ == table@[segments@[t].seq.0]@ && segments@[t].first_sent
                    == table@[segments@[t].seq.0].first_sent && segments@[t]@.sendable(),
            forall|t: int|
                0 <= t < segments@.len() ==> exists|s: int|
                    0 <= s < i && keys@[s] == (#[trigger] segments@[t]).seq.0,
            forall|a: int, b: int|
                0 <= a < b < segments@.len() ==> (#[trigger] segments@[a]).seq.0 != (
                #[trigger] segments@[b]).seq.0,
            forall|s: int|
                0 <= s < i && table@[#[trigger] keys@[s]]@.sendable() ==> exists|t: int|
                    0 <= t < segments@.len() && (#[trigger] segments@[t]).seq.0 == keys@[s],
        decreases keys@.len() - i,
    {
        let key: u32 = keys[i];
        assert(keys@.to_set().contains(keys@[i as int]));
        assert(table@.dom().contains(key));
        let ghost listed = segments@;
        let mut pushed: bool = false;
        match table.get(&key) {
            Some(seg) => {
                if seg.retransmit_count <= 15 {
                    segments.push(copy_segment(seg));
                    pushed = true;
                }
            },
            None => {},
        }
        proof {
            assert forall|t: int| 0 <= t < segments@.len() implies exists|s: int|
                0 <= s < i + 1 && keys@[s] == (#[trigger] segments@[t]).seq.0 by {
                if t < listed.len() {
                    assert(segments@[t] == listed[t]);
                    let s = choose|s: int| 0 <= s < i && keys@[s] == listed[t].seq.0;
                    assert(0 <= s < i + 1 && keys@[s] == segments@[t].seq.0);
                } else {
                    assert(keys@[i as int] == segments@[t].seq.0);
                }
            }
            assert forall|a: int, b: int| 0 <= a < b < segments@.len() implies (
            #[trigger] segments@[a]).seq.0 != (#[trigger] segments@[b]).seq.0 by {
                if b < listed.len() {
                    assert(segments@[a] == listed[a] && segments@[b] == listed[b]);
                } else {
                    assert(segments@[a] == listed[a]);
                    let s = choose|s: int| 0 <= s < i && keys@[s] == listed[a].seq.0;
                    assert(keys@[s] != keys@[i as int]);
                }
            }
            assert forall|s: int|
                0 <= s < i + 1 && table@[#[trigger] keys@[s]]@.sendable() implies exists|t: int|
                0 <= t < segments@.len() && (#[trigger] segments@[t]).seq.0 == keys@[s] by {
                if s < i {
                    let t = choose|t: int|
                        0 <= t < listed.len() && (#[trigger] listed[t]).seq.0 == keys@[s];
                    assert(segments@[t] == listed[t]);
                } else {
                    assert(pushed);
                    assert(segments@[segments@.len() - 1].seq.0 == keys@[s]);
                }
            }
        }
        i += 1;
    }
    proof {
        let out = segments_view(segments@);
        let source = pending_view(table@);
        assert forall|k: u32|
            source.contains_key(k) && (#[trigger] source[k]).sendable() implies exists|t: int|
            0 <= t < out.len() && (#[trigger] out[t]).seq == k by {
            assert(keys@.to_set().contains(k));
            let s = choose|s: int| 0 <= s < keys@.len() && keys@[s] == k;
            assert(table@[keys@[s]]@.sendable());
            let t = choose|t: int|
                0 <= t < segments@.len() && (#[trigger] segments@[t]).seq.0 == keys@[s];
            assert(out[t].seq == k);
        }
        assert forall|t: int| 0 <= t < out.len() implies source.contains_key(
            (#[trigger] out[t]).seq,
        ) && source[out[t].seq] == out[t] && out[t].sendable() by {
            assert(segments@[t]@ == table@[segments@[t].seq.0]@);
        }
        assert forall|a: int, b: int| 0 <= a < b < out.len() implies (#[trigger] out[a]).seq != (
        #[trigger] out[b]).seq by {
            assert(segments@[a].seq.0 != segments@[b].seq.0);
        }
    }
    segments
}

/// Retransmission manager.
pub struct RetransmissionManager {
    pending: HashMap<u32, PendingSegment>,
    timer: Timer,
    max_retries: u32,
}

impl View for RetransmissionManager {
    type V = RetransmitState;

    closed spec fn view(&self) -> RetransmitState {
        RetransmitState { pending: pending_view(self.pending@), timer: self.timer@ }
    }
}

impl RetransmissionManager {
    #[verifier::type_invariant]
    spec fn filed(&self) -> bool {
        &&& self.max_retries == 15
        &&& forall|k: u32| self.pending@.contains_key(k) ==> (#[trigger] self.pending@[k]).seq.0 == k
    }

    /// The clock reading of the first transmission of the segment that
    /// waits at `seq`.
    pub closed spec fn first_sent(&self, seq: u32) -> Instant {
        self.pending@[seq].first_sent
    }

    /// Moves the table out, leaving an empty one behind.
    fn take_table(&mut self) -> (table: HashMap<u32, PendingSegment>)
        ensures
            table@ == old(self).pending@,
            final(self).pending@ == Map::<u32, PendingSegment>::empty(),
            final(self).timer == old(self).timer,
            forall|k: u32| table@.contains_key(k) ==> (#[trigger] table@[k]).seq.0 == k,
    {
        proof {
            use_type_invariant(&*self);
        }
        let mut table: HashMap<u32, PendingSegment> = HashMap::new();
        std::mem::swap(&mut self.pending, &mut table);
        table
    }

    /// Moves a table in, in place of the one held.
    fn put_table(&mut self, table: HashMap<u32, PendingSegment>)
        requires
            forall|k: u32| table@.contains_key(k) ==> (#[trigger] table@[k]).seq.0 == k,
        ensures
            final(self).pending@ == table@,
            final(self).timer == old(self).timer,
    {
        proof {
            use_type_invariant(&*self);
        }
        let mut table = table;
        std::mem::swap(&mut self.pending, &mut table);
    }

    /// Starts the timer for `duration` nanoseconds.
    fn start_timer(&mut self, duration: u64)
        ensures
            final(self).pending@ == old(self).pending@,
            final(self).timer@ == (TimerState { armed: true, duration }),
    {
        proof {
            use_type_invariant(&*self);
        }
        let mut timer = Timer::new();
        timer.start(duration);
        std::mem::swap(&mut self.timer, &mut timer);
    }

    /// Stops the timer.
    fn cancel_timer(&mut self)
        ensures
            final(self).pending@ == old(self).pending@,
            final(self).timer@ == (TimerState { armed: false, duration: old(self).timer@.duration }),
    {
        proof {
            use_type_invariant(&*self);
        }
        let mut timer = Timer::new();
        std::mem::swap(&mut self.timer, &mut timer);
        timer.cancel();
        std::mem::swap(&mut self.timer, &mut timer);
    }

    /// An empty table with a timer that does not run.
    pub fn new() -> (result: Self)
        ensures
            result@ == (RetransmitState {
                pending: Map::empty(),
                timer: TimerState { armed: false, duration: 0 },
            }),
            result@.keyed(),
    {
        let result = Self { pending: HashMap::new(), timer: Timer::new(), max_retries: 15 };
        assert(result@.pending =~= Map::empty());
        result
    }

    /// Files `segment` under its sequence number, in place of any segment
    /// that waited there. When it is then the only one, the timer starts
    /// for `rto` nanoseconds; otherwise the timer is left alone.
    pub fn add_segment(&mut self, segment: PendingSegment, rto: u64)
        ensures
            final(self)@ == old(self)@.with_added(segment@, rto),
            final(self)@.keyed(),
            final(self).first_sent(segment@.seq) == segment.first_sent,
            forall|k: u32|
                k != segment@.seq ==> #[trigger] final(self).first_sent(k) == old(self).first_sent(k),
    {
        proof {
            use_type_invariant(&*self);
        }
        let ghost filed = segment@;
        let key: u32 = segment.seq.0;
        let mut table = self.take_table();
        table.insert(key, segment);
        let first: bool = table.len() == 1;
        self.put_table(table);
        assert(pending_view(self.pending@) =~= old(self)@.pending.insert(filed.seq, filed));
        assert(pending_view(self.pending@).dom() =~= self.pending@.dom());

        if first {
            self.start_timer(rto);
        }
    }

    /// Takes in a cumulative acknowledgement: every segment that ends at
    /// or before `ack` leaves the table and is returned. When `ack` is
    /// past the end of every waiting segment, the table is left empty and
    /// the timer stopped.
    pub fn acknowledge(&mut self, ack: SeqNumber) -> (acknowledged: Vec<PendingSegment>)
        ensures
            old(self)@.acknowledged(ack.0, final(self)@, segments_view(acknowledged@)),
            final(self)@.keyed(),
            (forall|k: u32|
                old(self)@.pending.contains_key(k) ==> seq_before(
                    (#[trigger] old(self)@.pending[k]).end(),
                    ack.0,
                )) ==> final(self)@.pending == Map::<u32, PendingSegmentView>::empty()
                && !final(self)@.timer.armed,
            forall|i: int|
                0 <= i < acknowledged@.len() ==> (#[trigger] acknowledged@[i]).first_sent == old(
                    self,
                ).first_sent(acknowledged@[i].seq.0),
            forall|k: u32|
                final(self)@.pending.contains_key(k) ==> #[trigger] final(self).first_sent(k)
                    == old(self).first_sent(k),
    {
        let ghost table = self.pending@;
        let ghost before = self@;
        let mut work = self.take_table();
        let keys: Vec<u32> = collect_keys(&work);
        let covered: Vec<u32> = covered_keys(&work, &keys, ack);
        let acknowledged: Vec<PendingSegment> = take_segments(&mut work, &covered);
        let ghost rest = work@;
        self.put_table(work);
        proof {
            let out = segments_view(acknowledged@);
            let chosen = |s: PendingSegmentView| s.acked_by(ack.0);
            assert(pending_view(rest) =~= before.after_ack(ack.0)) by {
                assert forall|k: u32|
                    rest.contains_key(k) == (table.contains_key(k) && !table[k]@.acked_by(
                        ack.0,
                    )) by {
                    if covered@.to_set().contains(k) {
                        let t = choose|t: int| 0 <= t < covered@.len() && covered@[t] == k;
                        assert(table[covered@[t]]@.acked_by(ack.0));
                    }
                    if table.contains_key(k) && table[k]@.acked_by(ack.0) {
                        assert(covered@.contains(k));
                    }
                }
            }
            assert(pending_view(rest).dom() =~= rest.dom());
            assert forall|t: int| 0 <= t < out.len() implies before.pending.contains_key(
                (#[trigger] out[t]).seq,
            ) && before.pending[out[t].seq] == out[t] && chosen(out[t]) by {
                assert(table.contains_key(covered@[t]));
                assert(acknowledged@[t] == table[covered@[t]]);
            }
            assert forall|a: int, b: int| 0 <= a < b < out.len() implies (#[trigger] out[a]).seq != (
            #[trigger] out[b]).seq by {
                assert(table.contains_key(covered@[a]) && table.contains_key(covered@[b]));
                assert(acknowledged@[a] == table[covered@[a]]);
                assert(acknowledged@[b] == table[covered@[b]]);
            }
            assert forall|k: u32|
                before.pending.contains_key(k) && chosen(
                    #[trigger] before.pending[k],
                ) implies exists|t: int| 0 <= t < out.len() && (#[trigger] out[t]).seq == k by {
                assert(table[k]@.acked_by(ack.0));
                assert(covered@.contains(k));
                let t = choose|t: int| 0 <= t < covered@.len() && covered@[t] == k;
                assert(acknowledged@[t] == table[covered@[t]]);
                assert(out[t].seq == k);
            }
            assert forall|i: int| 0 <= i < acknowledged@.len() implies (
            #[trigger] acknowledged@[i]).first_sent == table[acknowledged@[i].seq.0].first_sent by {
                assert(table.contains_key(covered@[i]));
                assert(acknowledged@[i] == table[covered@[i]]);
            }
        }

        if !self.pending.is_empty() {
            let left: Vec<u32> = collect_keys(&self.pending);
            let shortest: u64 = shortest_backoff(&self.pending, &left);
            self.start_timer(shortest);
        } else {
            self.cancel_timer();
        }
        proof {
            if forall|k: u32|
                before.pending.contains_key(k) ==> seq_before(
                    (#[trigger] before.pending[k]).end(),
                    ack.0,
                ) {
                assert(before.after_ack(ack.0) =~= Map::<u32, PendingSegmentView>::empty());
            }
        }
        acknowledged
    }

    /// Whether the waiting segments are due again once `elapsed`
    /// nanoseconds have passed since the timer started.
    pub fn should_retransmit_after(&self, elapsed: u64) -> (result: bool)
        ensures
            result == self@.due_after(elapsed),
    {
        assert(pending_view(self.pending@).dom() =~= self.pending@.dom());
        self.timer.is_expired_after(elapsed) && !self.pending.is_empty()
    }

    /// Whether the waiting segments are due again by now: whether they are
    /// due once the time has passed that the clock says has passed.
    pub fn should_retransmit(&self) -> (result: bool)
        ensures
            exists|elapsed: u64| result == #[trigger] self@.due_after(elapsed),
    {
        assert(pending_view(self.pending@).dom() =~= self.pending@.dom());
        let expired: bool = self.timer.is_expired();
        let ghost elapsed = choose|e: u64| expired == self.timer@.expired_after(e);
        assert((expired && self@.pending.dom().len() > 0) == self@.due_after(elapsed));
        expired && !self.pending.is_empty()
    }

    /// Counts one more retransmission on every waiting segment, returns
    /// copies of those that are still within the retry limit, and restarts
    /// the timer with twice `rto`.
    pub fn retransmit_due(&mut self, rto: u64) -> (segments: Vec<PendingSegment>)
        ensures
            old(self)@.retransmitted(rto, final(self)@, segments_view(segments@)),
            final(self)@.keyed(),
            forall|i: int|
                0 <= i < segments@.len() ==> (#[trigger] segments@[i]).first_sent == old(
                    self,
                ).first_sent(segments@[i].seq.0),
            forall|k: u32|
                final(self)@.pending.contains_key(k) ==> #[trigger] final(self).first_sent(k)
                    == old(self).first_sent(k),
    {
        let ghost table = self.pending@;
        let mut work = self.take_table();
        let keys: Vec<u32> = collect_keys(&work);
        count_retransmission(&mut work, &keys);
        let segments: Vec<PendingSegment> = copies_within_limit(&work, &keys);
        let doubled: u64 = if rto > u64::MAX / 2 {
            u64::MAX
        } else {
            rto * 2
        };
        let ghost done = work@;
        self.put_table(work);
        self.start_timer(doubled);
        proof {
            assert(pending_view(done) =~= old(self)@.after_retry());
            assert(pending_view(done).dom() =~= done.dom());
            assert forall|i: int| 0 <= i < segments@.len() implies (
            #[trigger] segments@[i]).first_sent == table[segments@[i].seq.0].first_sent by {
                let k = segments@[i].seq.0;
                assert(segments_view(segments@)[i].seq == k);
                assert(pending_view(done).contains_key(k));
                assert(done[k] == counted(table[k]));
            }
            assert forall|k: u32| done.contains_key(k) implies (#[trigger] done[k]).first_sent
                == table[k].first_sent by {
                assert(done[k] == counted(table[k]));
            }
        }
        segments
    }

    /// Hands out the segment that waits at `seq` for a retransmission
    /// ahead of the timer, and counts that retransmission on it. The timer
    /// is left alone. Where no segment waits at `seq`, nothing changes.
    pub fn retransmit_at(&mut self, seq: SeqNumber) -> (segment: Option<PendingSegment>)
        ensures
            final(self)@.timer == old(self)@.timer,
            final(self)@.keyed(),
            forall|k: u32| #[trigger] final(self).first_sent(k) == old(self).first_sent(k),
            segment matches Some(copy) ==> copy.first_sent == old(self).first_sent(seq.0),
            match segment {
                Some(copy) => old(self)@.pending.contains_key(seq.0) && copy@ == old(
                    self,
                )@.pending[seq.0].retried() && final(self)@.pending == old(self)@.pending.insert(
                    seq.0,
                    copy@,
                ),
                None => !old(self)@.pending.contains_key(seq.0) && final(self)@.pending == old(
                    self,
                )@.pending,
            },
    {
        proof {
            use_type_invariant(&*self);
        }
        let ghost table = self.pending@;
        let mut work = self.take_table();
        let found = match work.remove(&seq.0) {
            Some(seg) => {
                let bumped = PendingSegment {
                    seq: seg.seq,
                    len: seg.len,
                    data: seg.data,
                    retransmit_count: seg.retransmit_count.saturating_add(1),
                    first_sent: seg.first_sent,
                };
                let copy = copy_segment(&bumped);
                work.insert(seq.0, bumped);
                Some(copy)
            },
            None => None,
        };
        proof {
            assert forall|k: u32| work@.contains_key(k) implies (#[trigger] work@[k]).seq.0 == k by {
                if k != seq.0 {
                    assert(work@[k] == table[k]);
                }
            }
        }
        let ghost done = work@;
        self.put_table(work);
        proof {
            assert(pending_view(done).dom() =~= done.dom());
            if found is Some {
                assert(pending_view(done) =~= pending_view(table).insert(seq.0, found->0@));
            } else {
                assert(done =~= table);
            }
        }
        found
    }

    /// Hands out the segments that are due again by now: it does what
    /// [`Self::retransmit_due`] does where they are due, and nothing otherwise.
    pub fn get_retransmit_segments(&mut self, rto: u64) -> (segments: Vec<PendingSegment>)
        ensures
            exists|elapsed: u64|
                if #[trigger] old(self)@.due_after(elapsed) {
                    old(self)@.retransmitted(rto, final(self)@, segments_view(segments@))
                } else {
                    final(self)@ == old(self)@ && segments@.len() == 0
                },
    {
        let due: bool = self.should_retransmit();
        let ghost elapsed = choose|e: u64| due == self@.due_after(e);
        if !due {
            assert(!old(self)@.due_after(elapsed));
            return Vec::new();
        }
        let segments = self.retransmit_due(rto);
        assert(old(self)@.due_after(elapsed));
        segments
    }

    /// Whether some waiting segment has reached the retry limit: the
    /// connection is then beyond repair.
    pub fn retries_exhausted(&self) -> (result: bool)
        ensures
            result == (exists|k: u32|
                self@.pending.contains_key(k) && (#[trigger] self@.pending[k]).retransmit_count
                    >= max_retries()),
    {
        let keys: Vec<u32> = collect_keys(&self.pending);
        let mut i: usize = 0;
        while i < keys.len()
            invariant
                i <= keys@.len(),
                keys@.to_set() == self.pending@.dom(),
                forall|s: int|
                    0 <= s < i ==> (#[trigger] self.pending@[keys@[s]]).retransmit_count < 15,
            decreases keys@.len() - i,
        {
            let key: u32 = keys[i];
            assert(keys@.to_set().contains(keys@[i as int]));
            match self.pending.get(&key) {
                Some(seg) => {
                    if seg.retransmit_count >= 15 {
                        assert(self@.pending.contains_key(key) && self@.pending[key].retransmit_count
                            >= max_retries());
                        return true;
                    }
                },
                None => {},
            }
            i += 1;
        }
        proof {
            assert forall|k: u32| self@.pending.contains_key(k) implies (
            #[trigger] self@.pending[k]).retransmit_count < max_retries() by {
                assert(keys@.to_set().contains(k));
                let s = choose|s: int| 0 <= s < keys@.len() && keys@[s] == k;
                assert(self.pending@[keys@[s]].retransmit_count < 15);
            }
        }
        false
    }

    /// Drops every waiting segment and stops the timer.
    pub fn clear(&mut self)
        ensures
            final(self)@ == (RetransmitState {
                pending: Map::empty(),
                timer: TimerState { armed: false, duration: old(self)@.timer.duration },
            }),
    {
        let mut table = self.take_table();
        table.clear();
        self.put_table(table);
        self.cancel_timer();
        assert(pending_view(self.pending@) =~= Map::empty());
    }

    /// Number of segments that wait for an acknowledgement.
    pub fn pending_count(&self) -> (result: usize)
        ensures
            result == self@.pending.dom().len(),
    {
        assert(pending_view(self.pending@).dom() =~= self.pending@.dom());
        self.pending.len()
    }
}

impl Default for RetransmissionManager {
    fn default() -> (result: Self)
        ensures
            result@ == (RetransmitState {
                pending: Map::empty(),
                timer: TimerState { armed: false, duration: 0 },
            }),
    {
        Self::new()
    }
}

impl RetransmitState {
    /// Whether the waiting segments are due again once `elapsed`
    /// nanoseconds have passed since the timer started: the timer has run
    /// out by then, and a segment waits.
    pub open spec fn due_after(self, elapsed: u64) -> bool {
        self.timer.expired_after(elapsed) && self.pending.dom().len() > 0
    }
}

} // verus!
