//! Tests of sequence arithmetic, the sliding window, the reorder buffer,
//! congestion control, the retransmission table, timers and the
//! demultiplexer.

use std::time::Instant;
use tcp_stack::congestion::{CongestionState, NewReno};
use tcp_stack::connection::timer::{clamp_nanos, Timer};
use tcp_stack::connection::{ControlBlock, TcpState};
use tcp_stack::demux::{ConnectionKey, Demultiplexer, Endpoint};
use tcp_stack::flow_control::SlidingWindow;
use tcp_stack::packet::{Ipv4Header, TcpHeader};
use tcp_stack::reliability::retransmit::{backoff_timeout, copy_segment};
use tcp_stack::reliability::{PendingSegment, ReorderBuffer, RetransmissionManager};
use tcp_stack::utils::SeqNumber;

fn pending(seq: u32, data: &[u8]) -> PendingSegment {
    PendingSegment {
        seq: SeqNumber(seq),
        len: data.len() as u32,
        data: data.to_vec(),
        retransmit_count: 0,
        first_sent: Instant::now(),
    }
}

#[test]
fn seq_diff_and_wrapping() {
    assert_eq!(SeqNumber::new(7).0, 7);
    assert_eq!(SeqNumber(5).diff(SeqNumber(3)), 2);
    assert_eq!(SeqNumber(3).diff(SeqNumber(5)), u32::MAX - 1);
    assert_eq!(SeqNumber(3).wrapping_sub(5).0, u32::MAX - 1);
    assert_eq!(SeqNumber(u32::MAX).wrapping_add(2).0, 1);
    assert_eq!((SeqNumber(0) - 1u32).0, u32::MAX);
    assert_eq!(SeqNumber(10) - SeqNumber(4), 6);
}

#[test]
fn seq_before_uses_half_range() {
    let a = SeqNumber(u32::MAX - 10);
    let b = SeqNumber(5);
    assert!(a.before(b));
    assert!(b.after(a));
    assert!(!b.before(a));
    assert!(!a.before(a));
    assert!(SeqNumber(0).before(SeqNumber(0x7FFF_FFFF)));
    assert!(!SeqNumber(0).before(SeqNumber(0x8000_0000)));
    assert!(!SeqNumber(0x8000_0000).before(SeqNumber(0)));
}

#[test]
fn seq_before_is_transitive_inside_a_window() {
    let a = SeqNumber(u32::MAX - 100);
    let b = SeqNumber(50);
    let c = SeqNumber(1_000_000);
    assert!(a.before(b) && b.before(c) && a.before(c));

    let far_b = SeqNumber(0x7FFF_FFFF);
    let far_c = SeqNumber(0xFFFF_FFFE);
    assert!(SeqNumber(0).before(far_b) && far_b.before(far_c));
    assert!(!SeqNumber(0).before(far_c));
}

#[test]
fn seq_random_is_a_sequence_number() {
    let a = SeqNumber::random();
    assert_eq!(a.diff(a), 0);
}

#[test]
fn window_edges_and_credit() {
    let mut window = SlidingWindow::new(1000);
    assert_eq!(window.size(), 1000);
    assert_eq!(window.left_edge(), SeqNumber(0));
    assert_eq!(window.right_edge(), SeqNumber(1000));
    assert_eq!(window.available(SeqNumber(0)), 1000);
    assert_eq!(window.available(SeqNumber(400)), 600);
    assert_eq!(window.available(SeqNumber(1000)), 0);
    assert_eq!(window.available(SeqNumber(1200)), 0);

    window.advance(SeqNumber(300));
    assert_eq!(window.left_edge(), SeqNumber(300));
    assert_eq!(window.right_edge(), SeqNumber(1300));
    window.advance(SeqNumber(100));
    assert_eq!(window.left_edge(), SeqNumber(300));

    window.set_size(50);
    assert_eq!(window.size(), 50);
    assert_eq!(window.left_edge(), SeqNumber(300));
    assert_eq!(window.right_edge(), SeqNumber(350));
    assert!(window.can_send(SeqNumber(300), 50));
    assert!(!window.can_send(SeqNumber(300), 51));
}

#[test]
fn window_accounts_for_its_size_across_the_wrap() {
    let mut window = SlidingWindow::new(4096);
    window.advance(SeqNumber(1));
    window.advance(SeqNumber(0x7FFF_0000));
    window.advance(SeqNumber(0xF000_0000));
    window.advance(SeqNumber(0xFFFF_F000));
    assert_eq!(window.left_edge(), SeqNumber(0xFFFF_F000));
    assert_eq!(window.right_edge(), SeqNumber(0));
    for used in [0u32, 1, 100, 4095, 4096] {
        let next = window.left_edge() + used;
        assert_eq!(window.available(next) + next.diff(window.left_edge()), window.size());
    }
}

#[test]
fn window_credit_is_zero_when_half_range_cannot_see_the_edge() {
    let window = SlidingWindow::new(0x8000_0000);
    assert_eq!(window.available(SeqNumber(0)), 0);
}

#[test]
fn reorder_delivers_stream_in_sequence_order() {
    let mut buffer = ReorderBuffer::new();
    let mut stream: Vec<u8> = Vec::new();

    let ready = buffer.add(SeqNumber(0), b"ABC".to_vec());
    assert_eq!(ready, vec![(SeqNumber(0), b"ABC".to_vec())]);
    for (_, bytes) in ready {
        stream.extend(bytes);
    }
    assert_eq!(buffer.next_expected(), SeqNumber(3));

    let ready = buffer.add(SeqNumber(6), b"GHI".to_vec());
    assert!(ready.is_empty());
    assert_eq!(buffer.next_expected(), SeqNumber(3));
    assert_eq!(buffer.held_count(), 1);

    let ready = buffer.add(SeqNumber(3), b"DEF".to_vec());
    assert_eq!(
        ready,
        vec![(SeqNumber(3), b"DEF".to_vec()), (SeqNumber(6), b"GHI".to_vec())]
    );
    for (_, bytes) in ready {
        stream.extend(bytes);
    }
    assert_eq!(stream, b"ABCDEFGHI".to_vec());
    assert_eq!(buffer.next_expected(), SeqNumber(9));
    assert_eq!(buffer.held_count(), 0);

    let ready = buffer.add(SeqNumber(3), b"DEF".to_vec());
    assert!(ready.is_empty());
    assert_eq!(buffer.next_expected(), SeqNumber(9));
    assert_eq!(buffer.held_count(), 0);
}

#[test]
fn reorder_rejects_overlap_with_held_segment() {
    let mut buffer = ReorderBuffer::new();
    assert!(buffer.add(SeqNumber(10), vec![1, 2, 3, 4]).is_empty());
    assert!(buffer.add(SeqNumber(12), vec![9, 9]).is_empty());
    assert!(buffer.add(SeqNumber(8), vec![9, 9, 9]).is_empty());
    assert!(buffer.add(SeqNumber(10), vec![7]).is_empty());
    assert_eq!(buffer.held_count(), 1);
    assert!(buffer.add(SeqNumber(14), vec![5]).is_empty());
    assert!(buffer.add(SeqNumber(8), vec![0, 0]).is_empty());
    assert_eq!(buffer.held_count(), 3);

    let ready = buffer.add(SeqNumber(0), vec![0; 8]);
    assert_eq!(ready.len(), 4);
    assert_eq!(ready[1], (SeqNumber(8), vec![0, 0]));
    assert_eq!(ready[2], (SeqNumber(10), vec![1, 2, 3, 4]));
    assert_eq!(ready[3], (SeqNumber(14), vec![5]));
    assert_eq!(buffer.next_expected(), SeqNumber(15));
}

#[test]
fn reorder_overlap_is_wrap_aware() {
    let mut buffer = ReorderBuffer::new();
    buffer.set_next_expected(SeqNumber(0xFFFF_FF00));
    assert!(buffer.add(SeqNumber(0xFFFF_FFFE), vec![1, 2, 3, 4]).is_empty());
    assert_eq!(buffer.held_count(), 1);
    assert!(buffer.add(SeqNumber(1), vec![9]).is_empty());
    assert_eq!(buffer.held_count(), 1);
    assert!(buffer.add(SeqNumber(2), vec![9]).is_empty());
    assert_eq!(buffer.held_count(), 2);

    let ready = buffer.add(SeqNumber(0xFFFF_FF00), vec![0; 254]);
    assert_eq!(ready.len(), 3);
    assert_eq!(ready[1].0, SeqNumber(0xFFFF_FFFE));
    assert_eq!(ready[2].0, SeqNumber(2));
    assert_eq!(buffer.next_expected(), SeqNumber(3));
}

#[test]
fn reorder_caps_held_segments() {
    let mut buffer = ReorderBuffer::new();
    for i in 0..718u32 {
        assert!(buffer.add(SeqNumber(1000 + 10 * i), vec![1]).is_empty());
    }
    assert_eq!(buffer.held_count(), 718);
    assert!(buffer.add(SeqNumber(500), vec![1]).is_empty());
    assert_eq!(buffer.held_count(), 718);
    assert!(buffer.add(SeqNumber(0), vec![1]).is_empty());
    assert_eq!(buffer.next_expected(), SeqNumber(0));

    buffer.clear();
    assert_eq!(buffer.held_count(), 0);
    assert_eq!(buffer.add(SeqNumber(0), vec![1]).len(), 1);
    assert_eq!(ReorderBuffer::default().next_expected(), SeqNumber(0));
}

#[test]
fn newreno_slow_start_until_threshold() {
    let mut cc = NewReno::new();
    assert_eq!(cc.cwnd(), 1460);
    assert_eq!(cc.ssthresh(), u32::MAX);
    assert_eq!(cc.state(), CongestionState::SlowStart);
    cc.on_ack(SeqNumber(1), 1000);
    assert_eq!(cc.cwnd(), 2460);

    cc.on_timeout();
    assert_eq!(cc.ssthresh(), 2920);
    cc.on_ack(SeqNumber(1), 1460);
    assert_eq!(cc.cwnd(), 2920 + 2920);
    assert_eq!(cc.state(), CongestionState::CongestionAvoidance);

    cc.on_ack(SeqNumber(1), 2920);
    assert_eq!(cc.cwnd(), 5840 + 1460 * 2920 / 5840);
    assert_eq!(cc.state(), CongestionState::CongestionAvoidance);
}

#[test]
fn newreno_fast_retransmit_on_third_duplicate() {
    let mut cc = NewReno::new();
    cc.on_ack(SeqNumber(100), 8540);
    let cwnd = cc.cwnd();
    assert_eq!(cwnd, 10000);

    cc.on_duplicate_ack();
    cc.on_duplicate_ack();
    assert_eq!(cc.state(), CongestionState::SlowStart);
    assert_eq!(cc.cwnd(), cwnd);
    cc.on_duplicate_ack();
    assert_eq!(cc.state(), CongestionState::FastRecovery);
    assert_eq!(cc.ssthresh(), std::cmp::max(cwnd / 2, 2920));
    assert_eq!(cc.ssthresh(), 5000);
    assert_eq!(cc.cwnd(), cc.ssthresh() + 4380);

    cc.on_duplicate_ack();
    assert_eq!(cc.cwnd(), 5000 + 4380 + 1460);

    cc.on_ack(SeqNumber(0), 100);
    assert_eq!(cc.state(), CongestionState::FastRecovery);
    cc.on_ack(SeqNumber(500), 100);
    assert_eq!(cc.state(), CongestionState::CongestionAvoidance);
    assert_eq!(cc.cwnd(), 5000);
}

#[test]
fn newreno_small_window_keeps_two_segment_threshold() {
    let mut cc = NewReno::default();
    cc.on_duplicate_ack();
    cc.on_duplicate_ack();
    cc.on_duplicate_ack();
    assert_eq!(cc.ssthresh(), 2920);
    assert_eq!(cc.cwnd(), 2920 + 4380);
    cc.on_timeout();
    assert_eq!(cc.cwnd(), 1460);
    assert_eq!(cc.state(), CongestionState::SlowStart);
    assert!(cc.ssthresh() >= 2920);
    assert_eq!(cc.ssthresh(), 3650);
}

#[test]
fn newreno_window_saturates() {
    let mut cc = NewReno::new();
    cc.on_ack(SeqNumber(1), u32::MAX);
    assert_eq!(cc.cwnd(), u32::MAX);
    assert_eq!(cc.state(), CongestionState::CongestionAvoidance);
    cc.on_ack(SeqNumber(1), u32::MAX);
    assert_eq!(cc.cwnd(), u32::MAX);
}

#[test]
fn timer_runs_only_when_started() {
    let mut timer = Timer::new();
    assert!(!timer.is_expired());
    assert_eq!(timer.time_until_expiry(), None);
    assert!(!timer.is_expired_after(u64::MAX));
    assert_eq!(timer.remaining_after(5), None);
    timer.reset();
    assert!(!timer.is_expired());

    timer.start(0);
    assert!(timer.is_expired());
    assert_eq!(timer.time_until_expiry(), Some(0));

    timer.start(3_600_000_000_000);
    assert!(!timer.is_expired());
    let left = timer.time_until_expiry().unwrap();
    assert!(left <= 3_600_000_000_000 && left > 3_000_000_000_000);
    assert!(!timer.is_expired_after(3_599_999_999_999));
    assert!(timer.is_expired_after(3_600_000_000_000));
    assert_eq!(timer.remaining_after(600_000_000_000), Some(3_000_000_000_000));
    assert_eq!(timer.remaining_after(u64::MAX), Some(0));
    timer.reset();
    assert!(!timer.is_expired());

    timer.cancel();
    assert!(!timer.is_expired());
    assert_eq!(Timer::default().time_until_expiry(), None);
}

#[test]
fn nanoseconds_clamp_at_sixty_four_bits() {
    assert_eq!(clamp_nanos(0), 0);
    assert_eq!(clamp_nanos(u64::MAX as u128), u64::MAX);
    assert_eq!(clamp_nanos(u64::MAX as u128 + 1), u64::MAX);
}

#[test]
fn backoff_grows_from_one_second_to_sixty() {
    assert_eq!(backoff_timeout(0), 1_000_000_000);
    assert_eq!(backoff_timeout(250_000_000), 1_500_000_000);
    assert_eq!(backoff_timeout(29_499_999_999), 59_999_999_998);
    assert_eq!(backoff_timeout(29_500_000_000), 60_000_000_000);
    assert_eq!(backoff_timeout(u64::MAX), 60_000_000_000);
}

#[test]
fn retransmit_cumulative_ack_removes_covered_segments() {
    let mut manager = RetransmissionManager::new();
    assert_eq!(manager.pending_count(), 0);
    manager.add_segment(pending(100, &[1; 100]), 3_600_000_000_000);
    manager.add_segment(pending(200, &[2; 100]), 1);
    manager.add_segment(pending(300, &[3; 100]), 1);
    assert_eq!(manager.pending_count(), 3);
    assert!(!manager.should_retransmit());
    assert!(manager.should_retransmit_after(3_600_000_000_000));
    assert!(!manager.should_retransmit_after(3_599_999_999_999));

    assert!(manager.acknowledge(SeqNumber(150)).is_empty());
    assert_eq!(manager.pending_count(), 3);

    let mut acked = manager.acknowledge(SeqNumber(300));
    acked.sort_by_key(|s| s.seq.0);
    assert_eq!(acked.len(), 2);
    assert_eq!(acked[0].seq, SeqNumber(100));
    assert_eq!(acked[0].data, vec![1; 100]);
    assert_eq!(acked[1].seq, SeqNumber(200));
    assert_eq!(manager.pending_count(), 1);
    assert!(!manager.should_retransmit());
    assert!(manager.should_retransmit_after(60_000_000_000));
    assert!(!manager.should_retransmit_after(999_999_999));
}

#[test]
fn retransmit_ack_past_every_end_empties_and_cancels() {
    let mut manager = RetransmissionManager::new();
    manager.add_segment(pending(0xFFFF_FF00, &[1; 100]), 0);
    manager.add_segment(pending(0xFFFF_FF64, &[2; 200]), 0);
    manager.add_segment(pending(0x2C, &[3; 50]), 0);
    assert!(manager.should_retransmit());
    let acked = manager.acknowledge(SeqNumber(0x5F));
    assert_eq!(acked.len(), 3);
    assert_eq!(manager.pending_count(), 0);
    assert!(!manager.should_retransmit());
    assert!(!manager.should_retransmit_after(u64::MAX));
    assert!(manager.get_retransmit_segments(1).is_empty());
}

#[test]
fn retransmit_timeout_hands_out_segment_once_more() {
    let mut manager = RetransmissionManager::new();
    manager.add_segment(pending(1000, b"payload"), 0);
    assert!(manager.should_retransmit());
    let due = manager.get_retransmit_segments(3_600_000_000_000);
    assert_eq!(due.len(), 1);
    assert_eq!(due[0].seq, SeqNumber(1000));
    assert_eq!(due[0].data, b"payload".to_vec());
    assert_eq!(due[0].retransmit_count, 1);
    assert_eq!(manager.pending_count(), 1);
    assert!(!manager.should_retransmit());
    assert!(manager.should_retransmit_after(7_200_000_000_000));
    assert!(!manager.should_retransmit_after(7_199_999_999_999));
    assert!(manager.get_retransmit_segments(1).is_empty());

    let mut cc = NewReno::new();
    cc.on_ack(SeqNumber(1), 10_000);
    cc.on_timeout();
    assert_eq!(cc.cwnd(), 1460);
    assert_eq!(cc.state(), CongestionState::SlowStart);
    assert!(cc.ssthresh() >= 2920);
    assert_eq!(cc.ssthresh(), 5730);
}

#[test]
fn retransmit_gives_up_after_fifteen_retries() {
    let mut manager = RetransmissionManager::default();
    manager.add_segment(pending(5, &[1, 2, 3]), 0);
    for round in 1..=15u32 {
        assert_eq!(manager.retries_exhausted(), false);
        let due = manager.retransmit_due(0);
        assert_eq!(due.len(), 1);
        assert_eq!(due[0].retransmit_count, round);
    }
    assert!(manager.retries_exhausted());
    assert!(manager.retransmit_due(0).is_empty());
    assert_eq!(manager.pending_count(), 1);
    manager.clear();
    assert_eq!(manager.pending_count(), 0);
    assert!(!manager.retries_exhausted());
    assert!(!manager.should_retransmit());
}

#[test]
fn segment_copy_keeps_every_field() {
    let mut segment = pending(77, b"xyz");
    segment.retransmit_count = 4;
    let copy = copy_segment(&segment);
    assert_eq!(copy.seq, segment.seq);
    assert_eq!(copy.len, 3);
    assert_eq!(copy.data, b"xyz".to_vec());
    assert_eq!(copy.retransmit_count, 4);
    assert_eq!(copy.first_sent, segment.first_sent);
}

#[test]
fn demux_routes_by_four_tuple() {
    let local = Endpoint { addr: 0x0A00_0001, port: 80 };
    let remote = Endpoint { addr: 0x0A00_0002, port: 40000 };
    let key = ConnectionKey::new(local, remote);
    let swapped = ConnectionKey::new(remote, local);
    let mut demux = Demultiplexer::new();
    assert_eq!(demux.find(&key), None);

    demux.register(key, 7);
    assert_eq!(demux.find(&key), Some(&7));
    assert_eq!(demux.find(&swapped), None);
    demux.register(swapped, 8);
    demux.register(key, 9);
    assert_eq!(demux.find(&key), Some(&9));
    assert_eq!(demux.find(&swapped), Some(&8));

    demux.unregister(&key);
    assert_eq!(demux.find(&key), None);
    assert_eq!(demux.find(&swapped), Some(&8));
    demux.unregister(&key);
    assert_eq!(Demultiplexer::default().find(&swapped), None);
}

#[test]
fn demux_key_from_inbound_headers_swaps_ends() {
    let ip = Ipv4Header::new(0xC0A8_0101, 0xC0A8_0102, 20);
    let tcp = TcpHeader::new(12345, 80);
    let key = ConnectionKey::from_headers(&ip, &tcp).unwrap();
    assert_eq!(key.local, Endpoint { addr: 0xC0A8_0102, port: 80 });
    assert_eq!(key.remote, Endpoint { addr: 0xC0A8_0101, port: 12345 });
}

#[test]
fn control_block_starts_closed() {
    let block = ControlBlock::with_initial_seq(SeqNumber(1000), Instant::now());
    assert_eq!(block.state, TcpState::Closed);
    assert_eq!(block.send_seq, SeqNumber(1000));
    assert_eq!(block.send_una, SeqNumber(1000));
    assert_eq!(block.send_nxt, SeqNumber(1000));
    assert_eq!(block.send_wnd, 65535);
    assert_eq!(block.recv_wnd, 65535);
    assert_eq!(block.mss, 1460);
    assert_eq!(block.window_scale, 7);
    assert_eq!(block.rto, 1_000_000_000);
    assert_eq!(block.congestion.cwnd(), 1460);
    assert_eq!(block.send_window.size(), 65535);
    assert_eq!(block.retransmit.pending_count(), 0);
    assert_eq!(block.recv_buffer.next_expected(), SeqNumber(0));

    let mut fresh = ControlBlock::new();
    assert_eq!(fresh.send_una, fresh.send_seq);
    assert_eq!(fresh.send_nxt, fresh.send_seq);
    fresh.update_activity();
    assert_eq!(fresh.state, TcpState::Closed);
    assert_eq!(ControlBlock::default().state, TcpState::default());
}

#[test]
fn timer_runs_from_the_reading_it_is_given() {
    let now = Instant::now();
    let earlier = now.checked_sub(std::time::Duration::from_secs(10)).unwrap_or(now);
    let mut timer = Timer::new();
    timer.reset_at(now);
    assert!(!timer.is_expired());
    assert_eq!(timer.time_until_expiry(), None);

    timer.start_at(now, 3_600_000_000_000);
    assert!(!timer.is_expired());
    assert!(timer.is_expired_after(3_600_000_000_000));

    if earlier != now {
        timer.start_at(earlier, 5_000_000_000);
        assert!(timer.is_expired());
        assert_eq!(timer.time_until_expiry(), Some(0));
        timer.reset_at(Instant::now());
        assert!(!timer.is_expired());
        let left = timer.time_until_expiry().unwrap();
        assert!(left <= 5_000_000_000 && left > 4_000_000_000);

        timer.start_at(earlier, 5_000_000_000);
        timer.reset();
        assert!(!timer.is_expired());
    }
}

#[test]
fn control_block_records_the_reading_it_is_given() {
    let created = Instant::now();
    let mut block = ControlBlock::with_initial_seq(SeqNumber(1), created);
    assert_eq!(block.last_activity, created);
    let later = Instant::now();
    block.record_activity(later);
    assert_eq!(block.last_activity, later);
    assert_eq!(block.state, TcpState::Closed);
    assert_eq!(block.send_nxt, SeqNumber(1));
    block.update_activity();
    assert!(block.last_activity >= later);
}
