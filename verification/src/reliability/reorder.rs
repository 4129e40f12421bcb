//! Out-of-order segment reassembly.
//!
//! Segments that arrive ahead of the next expected byte are held, keyed by
//! their sequence number. When the segment at the next expected byte
//! arrives, it is handed out together with every held segment that
//! follows it without a gap.

use crate::utils::seq::{half_range, modulus, seq_before, seq_diff};
use crate::utils::SeqNumber;
use std::collections::BTreeMap;
use vstd::prelude::*;
use vstd::std_specs::iter::IteratorSpec;

verus! {

/// The most segments that the buffer holds: one mebibyte, each segment
/// counted as 1460 bytes.
pub open spec fn max_held() -> int {
    718
}

/// Whether two ranges of the sequence circle, given by start and length,
/// share a position: the start of one lies inside the other.
pub open spec fn ranges_overlap(a: u32, a_len: int, b: u32, b_len: int) -> bool {
    seq_diff(b, a) < a_len || seq_diff(a, b) < b_len
}

/// The sequence number `len` bytes past `next`.
pub open spec fn advance_by(next: u32, len: int) -> u32 {
    ((next + len) % modulus()) as u32
}

/// What draining a buffer gives: the runs handed out, the segments that
/// stay, and the next expected sequence number.
pub struct Drained {
    pub runs: Seq<(u32, Seq<u8>)>,
    pub held: Map<u32, Seq<u8>>,
    pub next: u32,
}

/// Hands out the held segment at `next`, then the one right after it, and
/// so on until no segment starts at the next expected byte.
pub open spec fn drain(held: Map<u32, Seq<u8>>, next: u32) -> Drained
    decreases held.dom().len(),
    when held.dom().finite()
{
    if held.contains_key(next) {
        let rest = drain(held.remove(next), advance_by(next, held[next].len() as int));
        Drained { runs: seq![(next, held[next])] + rest.runs, held: rest.held, next: rest.next }
    } else {
        Drained { runs: Seq::empty(), held, next }
    }
}

/// The bytes of a list of runs, one after the other.
pub open spec fn concat_runs(runs: Seq<(u32, Seq<u8>)>) -> Seq<u8>
    decreases runs.len(),
{
    if runs.len() == 0 {
        Seq::empty()
    } else {
        runs[0].1 + concat_runs(runs.skip(1))
    }
}

/// The mathematical value of a [`ReorderBuffer`]: the held segments by
/// sequence number, and the next expected sequence number.
pub struct ReorderState {
    pub held: Map<u32, Seq<u8>>,
    pub next_expected: u32,
}

impl ReorderState {
    /// Whether a segment at `seq` lies before the next expected byte.
    pub open spec fn stale(self, seq: u32) -> bool {
        seq_before(seq, self.next_expected)
    }

    /// Whether a segment of `len` bytes at `seq` overlaps a held segment.
    pub open spec fn overlaps_held(self, seq: u32, len: int) -> bool {
        exists|k: u32| #[trigger]
            self.held.contains_key(k) && ranges_overlap(seq, len, k, self.held[k].len() as int)
    }

    /// Whether the buffer has no room for one more segment.
    pub open spec fn full(self) -> bool {
        self.held.dom().len() >= max_held()
    }

    /// Whether a segment is taken in: it fits the 32-bit sequence space, is
    /// not stale, overlaps nothing held, and there is room for it.
    pub open spec fn accepts(self, seq: u32, data: Seq<u8>) -> bool {
        &&& data.len() <= u32::MAX
        &&& !self.stale(seq)
        &&& !self.overlaps_held(seq, data.len() as int)
        &&& !self.full()
    }

    /// What adding a segment gives. A segment that is not taken in changes
    /// nothing and hands nothing out. One that is taken in is held, and
    /// the buffer is then drained from the next expected byte.
    pub open spec fn add(self, seq: u32, data: Seq<u8>) -> Drained {
        if self.accepts(seq, data) {
            drain(self.held.insert(seq, data), self.next_expected)
        } else {
            Drained { runs: Seq::empty(), held: self.held, next: self.next_expected }
        }
    }
}

/// The values of a list of runs, in order.
pub open spec fn runs_view(runs: Seq<(SeqNumber, Vec<u8>)>) -> Seq<(u32, Seq<u8>)> {
    Seq::new(runs.len(), |i: int| (runs[i].0.0, runs[i].1@))
}

/// The values of the segments in a table.
pub open spec fn held_view(table: Map<u32, Vec<u8>>) -> Map<u32, Seq<u8>> {
    Map::new(|k: u32| table.contains_key(k), |k: u32| table[k]@)
}

/// The runs that a drain hands out follow one another in sequence: the
/// first starts at the next expected byte, each later one where the one
/// before it ends, and the next expected byte afterwards is where the last
/// one ends. Each run is a segment that was held, unchanged; what stays
/// held is everything else, and nothing that stays starts at the next
/// expected byte.
pub proof fn lemma_drain_in_sequence(held: Map<u32, Seq<u8>>, next: u32)
    requires
        held.dom().finite(),
    ensures
        ({
            let d = drain(held, next);
            &&& d.runs.len() > 0 ==> d.runs[0].0 == next
            &&& forall|i: int|
                0 < i < d.runs.len() ==> (#[trigger] d.runs[i]).0 == advance_by(
                    d.runs[i - 1].0,
                    d.runs[i - 1].1.len() as int,
                )
            &&& d.next == (if d.runs.len() > 0 {
                advance_by(d.runs.last().0, d.runs.last().1.len() as int)
            } else {
                next
            })
            &&& forall|i: int|
                0 <= i < d.runs.len() ==> held.contains_key((#[trigger] d.runs[i]).0)
                    && held[d.runs[i].0] == d.runs[i].1
            &&& forall|k: u32| #[trigger]
                d.held.contains_key(k) ==> held.contains_key(k) && d.held[k] == held[k]
            &&& d.held.dom().finite()
            &&& d.held.dom().len() + d.runs.len() == held.dom().len()
            &&& !d.held.contains_key(d.next)
        }),
    decreases held.dom().len(),
{
    if held.contains_key(next) {
        let after = advance_by(next, held[next].len() as int);
        let rest = drain(held.remove(next), after);
        lemma_drain_in_sequence(held.remove(next), after);
        let d = drain(held, next);
        assert(d.runs =~= seq![(next, held[next])] + rest.runs);
        assert forall|i: int| 0 < i < d.runs.len() implies (#[trigger] d.runs[i]).0
            == advance_by(d.runs[i - 1].0, d.runs[i - 1].1.len() as int) by {
            assert(d.runs[i] == rest.runs[i - 1]);
            if i > 1 {
                assert(d.runs[i - 1] == rest.runs[i - 2]);
            } else {
                assert(d.runs[0] == (next, held[next]));
                assert(rest.runs[0].0 == after);
            }
        }
        assert forall|i: int| 0 <= i < d.runs.len() implies held.contains_key(
            (#[trigger] d.runs[i]).0,
        ) && held[d.runs[i].0] == d.runs[i].1 by {
            if i > 0 {
                assert(d.runs[i] == rest.runs[i - 1]);
            }
        }
        if rest.runs.len() > 0 {
            assert(d.runs.last() == rest.runs.last());
        } else {
            assert(d.runs.last() == (next, held[next]));
        }
        assert(d.next == rest.next);
        assert(d.held == rest.held);
        assert(held.remove(next).dom() =~= held.dom().remove(next));
        assert(d.runs.len() == rest.runs.len() + 1);
        assert(d.held.dom().len() + d.runs.len() == held.dom().len());
        assert forall|k: u32| #[trigger] d.held.contains_key(k) implies held.contains_key(k)
            && d.held[k] == held[k] by {
            assert(rest.held.contains_key(k));
            assert(held.remove(next).contains_key(k));
        }
        assert(d.runs[0].0 == next);
    }
}

/// The distance of a sequence number from the start of a stream.
pub open spec fn offset_in_stream(seq: u32, start: u32) -> int {
    seq_diff(seq, start)
}

/// Whether a segment lies inside the comparison window of a stream that
/// began at `start`: its end is less than 2^31 past the start.
pub open spec fn within_window(seq: u32, len: int, start: u32) -> bool {
    offset_in_stream(seq, start) + len < half_range()
}

/// Whether a buffer, the bytes `stream` it has handed out since it began at
/// `start`, and the segments `taken` in so far agree:
/// the next expected byte is the one after the stream; every held segment
/// lies at or past the end of the stream and inside the window; no two held
/// segments overlap; and every segment taken in is either still held,
/// unchanged, or stands in the stream at its own sequence offset.
pub open spec fn stream_in_order(
    state: ReorderState,
    start: u32,
    stream: Seq<u8>,
    taken: Seq<(u32, Seq<u8>)>,
) -> bool {
    &&& state.held.dom().finite()
    &&& stream.len() < half_range()
    &&& state.next_expected == advance_by(start, stream.len() as int)
    &&& forall|k: u32| #[trigger]
        state.held.contains_key(k) ==> stream.len() <= offset_in_stream(k, start) && within_window(
            k,
            state.held[k].len() as int,
            start,
        )
    &&& forall|a: u32, b: u32|
        #![trigger state.held.contains_key(a), state.held.contains_key(b)]
        state.held.contains_key(a) && state.held.contains_key(b) && a != b ==> !ranges_overlap(
            a,
            state.held[a].len() as int,
            b,
            state.held[b].len() as int,
        )
    &&& forall|j: int|
        0 <= j < taken.len() ==> segment_accounted(state.held, start, stream, #[trigger] taken[j])
}

/// Whether a segment is still held, unchanged, or stands in `stream` at
/// its own sequence offset.
pub open spec fn segment_accounted(
    held: Map<u32, Seq<u8>>,
    start: u32,
    stream: Seq<u8>,
    segment: (u32, Seq<u8>),
) -> bool {
    ||| held.contains_key(segment.0) && held[segment.0] == segment.1
    ||| {
        let at = offset_in_stream(segment.0, start);
        &&& at + segment.1.len() <= stream.len()
        &&& stream.subrange(at, at + segment.1.len()) == segment.1
    }
}

/// A buffer that has taken nothing in and handed nothing out is in order.
pub proof fn lemma_fresh_stream_in_order(start: u32)
    ensures
        stream_in_order(
            ReorderState { held: Map::empty(), next_expected: start },
            start,
            Seq::empty(),
            Seq::empty(),
        ),
{
}

/// The bytes of one run followed by more runs.
proof fn lemma_concat_runs_first(first: (u32, Seq<u8>), rest: Seq<(u32, Seq<u8>)>)
    ensures
        concat_runs(seq![first] + rest) == first.1 + concat_runs(rest),
{
    let all = seq![first] + rest;
    assert(all.skip(1) =~= rest);
    assert(all[0] == first);
}

/// Draining a buffer that is in order hands out exactly the bytes that
/// follow the stream, and leaves the buffer in order.
#[verifier::rlimit(30)]
proof fn lemma_drain_keeps_order(
    held: Map<u32, Seq<u8>>,
    next: u32,
    start: u32,
    stream: Seq<u8>,
    taken: Seq<(u32, Seq<u8>)>,
)
    requires
        stream_in_order(ReorderState { held, next_expected: next }, start, stream, taken),
    ensures
        ({
            let d = drain(held, next);
            stream_in_order(
                ReorderState { held: d.held, next_expected: d.next },
                start,
                stream + concat_runs(d.runs),
                taken,
            )
        }),
    decreases held.dom().len(),
{
    let d = drain(held, next);
    if held.contains_key(next) {
        let segment = held[next];
        let len = segment.len() as int;
        let after = advance_by(next, len);
        let rest_held = held.remove(next);
        let longer = stream + segment;
        assert(offset_in_stream(next, start) == stream.len());
        assert(longer.len() < half_range());
        assert(after == advance_by(start, longer.len() as int));
        assert forall|k: u32| #[trigger] rest_held.contains_key(k) implies longer.len()
            <= offset_in_stream(k, start) && within_window(
            k,
            rest_held[k].len() as int,
            start,
        ) by {
            assert(held.contains_key(k) && held.contains_key(next) && k != next);
            assert(!ranges_overlap(k, held[k].len() as int, next, len));
            assert(offset_in_stream(k, start) != stream.len());
            assert(seq_diff(k, next) == offset_in_stream(k, start) - stream.len());
        }
        assert forall|a: u32, b: u32|
            #![trigger rest_held.contains_key(a), rest_held.contains_key(b)]
            rest_held.contains_key(a) && rest_held.contains_key(b) && a != b implies !ranges_overlap(
            a,
            rest_held[a].len() as int,
            b,
            rest_held[b].len() as int,
        ) by {
            assert(held.contains_key(a) && held.contains_key(b));
        }
        assert forall|j: int| 0 <= j < taken.len() implies segment_accounted(
            rest_held,
            start,
            longer,
            #[trigger] taken[j],
        ) by {
            let item = taken[j];
            assert(segment_accounted(held, start, stream, item));
            if held.contains_key(item.0) && held[item.0] == item.1 {
                if item.0 == next {
                    assert(longer.subrange(stream.len() as int, stream.len() + len) =~= segment);
                }
            } else {
                let at = offset_in_stream(item.0, start);
                assert(longer.subrange(at, at + item.1.len()) =~= stream.subrange(
                    at,
                    at + item.1.len(),
                ));
            }
        }
        lemma_drain_keeps_order(rest_held, after, start, longer, taken);
        let rest = drain(rest_held, after);
        lemma_concat_runs_first((next, segment), rest.runs);
        assert(stream + concat_runs(d.runs) =~= longer + concat_runs(rest.runs));
    } else {
        assert(stream + concat_runs(d.runs) =~= stream);
    }
}

/// Segments may be added in any order: the bytes handed out so far, put
/// one after the other, are the byte stream ordered by sequence. Adding a
/// segment to a buffer that is in order leaves it in order, with the runs
/// just handed out appended to the stream and the segment, where it was
/// taken in, counted among those taken in.
pub proof fn lemma_add_keeps_stream_in_order(
    state: ReorderState,
    start: u32,
    stream: Seq<u8>,
    taken: Seq<(u32, Seq<u8>)>,
    seq: u32,
    data: Seq<u8>,
)
    requires
        stream_in_order(state, start, stream, taken),
        within_window(seq, data.len() as int, start),
    ensures
        ({
            let d = state.add(seq, data);
            stream_in_order(
                ReorderState { held: d.held, next_expected: d.next },
                start,
                stream + concat_runs(d.runs),
                if state.accepts(seq, data) {
                    taken.push((seq, data))
                } else {
                    taken
                },
            )
        }),
{
    let d = state.add(seq, data);
    if state.accepts(seq, data) {
        let held = state.held.insert(seq, data);
        let grown = taken.push((seq, data));
        assert(stream.len() <= offset_in_stream(seq, start)) by {
            if offset_in_stream(seq, start) < stream.len() {
                assert(seq_diff(state.next_expected, seq) == stream.len() - offset_in_stream(
                    seq,
                    start,
                ));
                assert(state.stale(seq));
            }
        }
        assert forall|a: u32, b: u32|
            #![trigger held.contains_key(a), held.contains_key(b)]
            held.contains_key(a) && held.contains_key(b) && a != b implies !ranges_overlap(
            a,
            held[a].len() as int,
            b,
            held[b].len() as int,
        ) by {
            if a == seq {
                assert(state.held.contains_key(b));
            } else if b == seq {
                assert(state.held.contains_key(a));
            } else {
                assert(state.held.contains_key(a) && state.held.contains_key(b));
            }
        }
        assert forall|k: u32| #[trigger] held.contains_key(k) implies stream.len()
            <= offset_in_stream(k, start) && within_window(k, held[k].len() as int, start) by {
            if k != seq {
                assert(state.held.contains_key(k));
            }
        }
        assert forall|j: int| 0 <= j < grown.len() implies segment_accounted(
            held,
            start,
            stream,
            #[trigger] grown[j],
        ) by {
            if j < taken.len() {
                let item = taken[j];
                assert(grown[j] == item);
                assert(segment_accounted(state.held, start, stream, item));
                if state.held.contains_key(item.0) && state.held[item.0] == item.1 && item.0
                    == seq {
                    assert(state.held.contains_key(seq));
                    assert(!ranges_overlap(
                        seq,
                        data.len() as int,
                        seq,
                        state.held[seq].len() as int,
                    ));
                    assert(data =~= item.1);
                }
            }
        }
        lemma_drain_keeps_order(held, state.next_expected, start, stream, grown);
    } else {
        assert(stream + concat_runs(d.runs) =~= stream);
    }
}

/// The sequence numbers under which segments are held, each once.
fn collect_keys(table: &BTreeMap<u32, Vec<u8>>) -> (keys: Vec<u32>)
    ensures
        keys@.to_set() == table@.dom(),
        keys@.no_duplicates(),
        keys@.len() == table@.dom().len(),
{
    let mut keys: Vec<u32> = Vec::new();
    for k in it: table.keys()
        invariant
            keys@ == it.seq().take(it.index() as int).unref(),
            it.seq() == table.keys().remaining(),
    {
        keys.push(*k);
        assert(keys@ =~= it.seq().take(it.index() + 1).unref());
    }
    assert(keys@ =~= table.keys().remaining().unref());
    keys
}

/// Buffer for reassembling out-of-order segments.
pub struct ReorderBuffer {
    segments: BTreeMap<u32, Vec<u8>>,
    next_expected: SeqNumber,
    max_buffer_size: usize,
}

impl View for ReorderBuffer {
    type V = ReorderState;

    closed spec fn view(&self) -> ReorderState {
        ReorderState { held: held_view(self.segments@), next_expected: self.next_expected.0 }
    }
}

impl ReorderBuffer {
    #[verifier::type_invariant]
    spec fn bounded(&self) -> bool {
        &&& self.max_buffer_size == 1024 * 1024
        &&& self.segments@.dom().finite()
        &&& forall|k: u32|
            self.segments@.contains_key(k) ==> (#[trigger] self.segments@[k])@.len() <= u32::MAX
    }

    /// Moves the table out, leaving an empty one behind.
    fn take_table(&mut self) -> (table: BTreeMap<u32, Vec<u8>>)
        ensures
            table@ == old(self).segments@,
            table@.dom().finite(),
            forall|k: u32| table@.contains_key(k) ==> (#[trigger] table@[k])@.len() <= u32::MAX,
            final(self).segments@ == Map::<u32, Vec<u8>>::empty(),
            final(self).next_expected == old(self).next_expected,
    {
        proof {
            use_type_invariant(&*self);
        }
        let mut table: BTreeMap<u32, Vec<u8>> = BTreeMap::new();
        std::mem::swap(&mut self.segments, &mut table);
        table
    }

    /// Moves a table and a next expected sequence number in.
    fn put_table(&mut self, table: BTreeMap<u32, Vec<u8>>, next: SeqNumber)
        requires
            table@.dom().finite(),
            forall|k: u32| table@.contains_key(k) ==> (#[trigger] table@[k])@.len() <= u32::MAX,
        ensures
            final(self).segments@ == table@,
            final(self).next_expected == next,
    {
        proof {
            use_type_invariant(&*self);
        }
        let mut table = table;
        std::mem::swap(&mut self.segments, &mut table);
        self.next_expected = next;
    }

    /// An empty buffer that expects sequence number zero.
    pub fn new() -> (result: Self)
        ensures
            result@ == (ReorderState { held: Map::empty(), next_expected: 0 }),
    {
        let result = Self {
            segments: BTreeMap::new(),
            next_expected: SeqNumber(0),
            max_buffer_size: 1024 * 1024,
        };
        assert(result@.held =~= Map::empty());
        result
    }

    /// Takes in a segment and returns the runs that have become
    /// deliverable, in sequence order. A segment that is stale, overlaps a
    /// held one, finds the buffer full or is longer than the sequence space
    /// is dropped: nothing changes and nothing is returned.
    pub fn add(&mut self, seq: SeqNumber, data: Vec<u8>) -> (ready: Vec<(SeqNumber, Vec<u8>)>)
        ensures
            runs_view(ready@) == old(self)@.add(seq.0, data@).runs,
            final(self)@.held == old(self)@.add(seq.0, data@).held,
            final(self)@.next_expected == old(self)@.add(seq.0, data@).next,
    {
        proof {
            use_type_invariant(&*self);
        }
        let mut ready: Vec<(SeqNumber, Vec<u8>)> = Vec::new();
        assert(runs_view(ready@) =~= Seq::empty());
        assert(held_view(self.segments@).dom() =~= self.segments@.dom());

        if data.len() > u32::MAX as usize {
            return ready;
        }
        if self.is_duplicate(seq, data.as_slice()) {
            return ready;
        }
        if self.segments.len() >= self.max_buffer_size / 1460 {
            return ready;
        }
        let ghost before = self@;
        let ghost taken = data@;
        let mut next: SeqNumber = self.next_expected;
        let mut table = self.take_table();
        table.insert(seq.0, data);
        let ghost start = held_view(table@);
        assert(start =~= before.held.insert(seq.0, taken));
        assert(start.dom() =~= table@.dom());

        loop
            invariant_except_break
                table@.dom().finite(),
                forall|k: u32| table@.contains_key(k) ==> (#[trigger] table@[k])@.len() <= u32::MAX,
                start.dom().finite(),
                drain(start, before.next_expected).runs == runs_view(ready@) + drain(
                    held_view(table@),
                    next.0,
                ).runs,
                drain(start, before.next_expected).held == drain(held_view(table@), next.0).held,
                drain(start, before.next_expected).next == drain(held_view(table@), next.0).next,
            ensures
                table@.dom().finite(),
                forall|k: u32| table@.contains_key(k) ==> (#[trigger] table@[k])@.len() <= u32::MAX,
                drain(start, before.next_expected).runs == runs_view(ready@),
                drain(start, before.next_expected).held == held_view(table@),
                drain(start, before.next_expected).next == next.0,
            decreases table@.dom().len(),
        {
            let ghost held = held_view(table@);
            let ghost done = runs_view(ready@);
            let ghost raw = table@;
            assert(held.dom() =~= raw.dom());
            match table.remove(&next.0) {
                Some(segment) => {
                    let data_len: u32 = segment.len() as u32;
                    let seg_seq: SeqNumber = next;
                    let ghost bytes = segment@;
                    ready.push((seg_seq, segment));
                    next = next.wrapping_add(data_len);
                    proof {
                        assert(held_view(table@) =~= held.remove(seg_seq.0));
                        assert(next.0 == advance_by(seg_seq.0, bytes.len() as int));
                        assert(runs_view(ready@) =~= done.push((seg_seq.0, bytes)));
                        let rest = drain(held.remove(seg_seq.0), next.0);
                        assert(drain(held, seg_seq.0).runs == seq![(seg_seq.0, bytes)]
                            + rest.runs);
                        assert(done + (seq![(seg_seq.0, bytes)] + rest.runs) =~= done.push(
                            (seg_seq.0, bytes),
                        ) + rest.runs);
                    }
                },
                None => {
                    assert(done + Seq::<(u32, Seq<u8>)>::empty() =~= done);
                    break ;
                },
            }
        }
        self.put_table(table, next);
        ready
    }

    /// Whether a segment is stale or overlaps a held one.
    fn is_duplicate(&self, seq: SeqNumber, data: &[u8]) -> (result: bool)
        requires
            data@.len() <= u32::MAX,
        ensures
            result == (self@.stale(seq.0) || self@.overlaps_held(seq.0, data@.len() as int)),
    {
        proof {
            use_type_invariant(self);
        }
        if seq.before(self.next_expected) {
            return true;
        }
        let len: u32 = data.len() as u32;
        let keys: Vec<u32> = collect_keys(&self.segments);
        let mut i: usize = 0;
        while i < keys.len()
            invariant
                i <= keys@.len(),
                len == data@.len(),
                keys@.to_set() == self.segments@.dom(),
                forall|k: u32|
                    self.segments@.contains_key(k) ==> (#[trigger] self.segments@[k])@.len()
                        <= u32::MAX,
                forall|s: int|
                    0 <= s < i ==> !ranges_overlap(
                        seq.0,
                        len as int,
                        #[trigger] keys@[s],
                        self.segments@[keys@[s]]@.len() as int,
                    ),
            decreases keys@.len() - i,
        {
            let start: u32 = keys[i];
            assert(keys@.to_set().contains(keys@[i as int]));
            assert(self.segments@.dom().contains(start));
            match self.segments.get(&start) {
                Some(existing) => {
                    let existing_len: u32 = existing.len() as u32;
                    if SeqNumber(start).diff(seq) < len || seq.diff(SeqNumber(start))
                        < existing_len {
                        assert(self@.held.contains_key(start) && ranges_overlap(
                            seq.0,
                            len as int,
                            start,
                            self@.held[start].len() as int,
                        ));
                        return true;
                    }
                },
                None => {},
            }
            i += 1;
        }
        proof {
            assert forall|k: u32| #[trigger]
                self@.held.contains_key(k) implies !ranges_overlap(
                seq.0,
                len as int,
                k,
                self@.held[k].len() as int,
            ) by {
                assert(keys@.to_set().contains(k));
                let s = choose|s: int| 0 <= s < keys@.len() && keys@[s] == k;
                assert(!ranges_overlap(
                    seq.0,
                    len as int,
                    keys@[s],
                    self.segments@[keys@[s]]@.len() as int,
                ));
            }
        }
        false
    }

    /// Sets the next expected sequence number. Held segments stay.
    pub fn set_next_expected(&mut self, seq: SeqNumber)
        ensures
            final(self)@ == (ReorderState { held: old(self)@.held, next_expected: seq.0 }),
    {
        proof {
            use_type_invariant(&*self);
        }
        self.next_expected = seq;
    }

    pub fn next_expected(&self) -> (result: SeqNumber)
        ensures
            result.0 == self@.next_expected,
    {
        self.next_expected
    }

    /// Drops every held segment. The next expected sequence number stays.
    pub fn clear(&mut self)
        ensures
            final(self)@ == (ReorderState {
                held: Map::empty(),
                next_expected: old(self)@.next_expected,
            }),
    {
        let next: SeqNumber = self.next_expected;
        let mut table = self.take_table();
        table.clear();
        self.put_table(table, next);
        assert(held_view(self.segments@) =~= Map::empty());
    }

    /// Number of segments held.
    pub fn held_count(&self) -> (result: usize)
        ensures
            result == self@.held.dom().len(),
    {
        assert(held_view(self.segments@).dom() =~= self.segments@.dom());
        self.segments.len()
    }
}

impl Default for ReorderBuffer {
    fn default() -> (result: Self)
        ensures
            result@ == (ReorderState { held: Map::empty(), next_expected: 0 }),
    {
        Self::new()
    }
}

} // verus!
