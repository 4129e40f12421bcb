//! Tests of the connection state machine.

use std::time::Instant;
use tcp_stack::congestion::CongestionState;
use tcp_stack::connection::inbound::{find_mss, find_scale, flatten_runs, rtt_sample_of};
use tcp_stack::connection::{ControlBlock, TcpState};
use tcp_stack::demux::{ConnectionKey, Demultiplexer, Endpoint};
use tcp_stack::packet::{TcpFlags, TcpHeader, TcpOption};
use tcp_stack::reliability::PendingSegment;
use tcp_stack::utils::SeqNumber;

fn key() -> ConnectionKey {
    ConnectionKey::new(
        Endpoint { addr: 0x0A00_0001, port: 40000 },
        Endpoint { addr: 0x0A00_0002, port: 80 },
    )
}

fn block(iss: u32) -> ControlBlock {
    ControlBlock::with_initial_seq(SeqNumber(iss), Instant::now())
}

fn peer(flags: u8, seq: u32, ack: u32) -> TcpHeader {
    let mut header = TcpHeader::new(80, 40000);
    header.flags = TcpFlags(flags);
    header.seq_num = seq;
    header.ack_num = ack;
    header
}

/// An established connection with `snd_una == snd_nxt == iss + 1` and
/// `rcv_nxt == irs + 1`, opened from this end, the peer announcing no
/// window scale.
fn established(iss: u32, irs: u32) -> ControlBlock {
    let mut cb = block(iss);
    assert!(cb.open_active(&key()).is_some());
    let out = cb.on_segment(&key(), &peer(0x12, irs, iss.wrapping_add(1)), &[]);
    assert_eq!(out.replies.len(), 1);
    assert_eq!(cb.state, TcpState::Established);
    cb
}

#[test]
fn active_open_handshake() {
    let mut client = block(1000);
    let syn = client.open_active(&key()).unwrap();
    assert_eq!(syn.seq_num, 1000);
    assert_eq!(syn.src_port, 40000);
    assert_eq!(syn.dst_port, 80);
    assert!(syn.flags.is_syn() && !syn.flags.is_ack());
    assert_eq!(syn.data_offset, 10);
    assert_eq!(
        syn.options,
        vec![
            TcpOption::MaximumSegmentSize(1460),
            TcpOption::SackPermitted,
            TcpOption::Timestamp { ts_val: 0, ts_ecr: 0 },
            TcpOption::WindowScale(7),
        ]
    );
    assert_eq!(client.state, TcpState::SynSent);
    assert_eq!(client.send_una, SeqNumber(1000));
    assert_eq!(client.send_nxt, SeqNumber(1001));
    assert!(client.open_active(&key()).is_none());

    let syn_ack = TcpHeader::syn_ack(80, 40000, 2000, 1001, 1400);
    let out = client.on_segment(&key(), &syn_ack, &[]);
    assert!(!out.aborted);
    assert!(out.delivered.is_empty());
    assert_eq!(out.replies.len(), 1);
    let ack = &out.replies[0].header;
    assert_eq!(ack.flags, TcpFlags(0x10));
    assert_eq!(ack.seq_num, 1001);
    assert_eq!(ack.ack_num, 2001);
    assert!(out.replies[0].payload.is_empty());

    assert_eq!(client.state, TcpState::Established);
    assert_eq!(client.send_una, SeqNumber(1001));
    assert_eq!(client.send_nxt, SeqNumber(1001));
    assert_eq!(client.recv_seq, SeqNumber(2000));
    assert_eq!(client.recv_ack, SeqNumber(2001));
    assert_eq!(client.recv_buffer.next_expected(), SeqNumber(2001));
    assert_eq!(client.mss, 1400);
    assert_eq!(client.send_window_scale, 7);
    assert_eq!(client.window_scale, 7);
    assert_eq!(client.send_wnd, 65535);
    assert_eq!(client.send_window.left_edge(), SeqNumber(1001));
}

#[test]
fn syn_sent_ignores_wrong_acknowledgement_and_stray_segments() {
    let mut client = block(1000);
    client.open_active(&key());
    let out = client.on_segment(&key(), &peer(0x12, 2000, 1000), &[]);
    assert!(out.replies.is_empty());
    assert_eq!(client.state, TcpState::SynSent);
    let out = client.on_segment(&key(), &peer(0x10, 2000, 1001), &[]);
    assert!(out.replies.is_empty());
    assert_eq!(client.state, TcpState::SynSent);

    let out = client.on_segment(&key(), &peer(0x14, 0, 1000), &[]);
    assert!(!out.aborted);
    assert_eq!(client.state, TcpState::SynSent);
    let out = client.on_segment(&key(), &peer(0x04, 0, 1001), &[]);
    assert!(!out.aborted);
    let out = client.on_segment(&key(), &peer(0x14, 0, 1001), &[]);
    assert!(out.aborted);
    assert_eq!(client.state, TcpState::Closed);
}

#[test]
fn peer_without_window_scale_switches_scaling_off() {
    let cb = established(10, 20);
    assert_eq!(cb.send_window_scale, 0);
    assert_eq!(cb.window_scale, 0);
    assert_eq!(cb.mss, 1460);
    assert_eq!(cb.advertised_window(), 65535);
    assert_eq!(cb.scaled_window(1000), 1000);

    let mut scaled = block(10);
    scaled.open_active(&key());
    let mut syn_ack = peer(0x12, 20, 11);
    syn_ack.options = vec![TcpOption::NoOperation, TcpOption::WindowScale(200)];
    scaled.on_segment(&key(), &syn_ack, &[]);
    assert_eq!(scaled.send_window_scale, 200);
    assert_eq!(scaled.scaled_window(3), 3 << 14);
    assert_eq!(scaled.advertised_window(), (65535u32 >> 7) as u16);
}

#[test]
fn passive_open_handshake() {
    let mut server = block(5000);
    assert!(server.open_passive());
    assert!(!server.open_passive());
    assert_eq!(server.state, TcpState::Listen);

    let out = server.on_segment(&key(), &peer(0x10, 1, 2), &[]);
    assert!(out.replies.is_empty());
    assert_eq!(server.state, TcpState::Listen);

    let mut syn = TcpHeader::syn(80, 40000, 7000, 1000);
    syn.window_size = 4096;
    let out = server.on_segment(&key(), &syn, &[]);
    assert_eq!(out.replies.len(), 1);
    let reply = &out.replies[0].header;
    assert_eq!(reply.flags, TcpFlags(0x12));
    assert_eq!(reply.seq_num, 5000);
    assert_eq!(reply.ack_num, 7001);
    assert_eq!(reply.options[0], TcpOption::MaximumSegmentSize(1000));
    assert_eq!(reply.options.len(), 4);
    assert_eq!(server.state, TcpState::SynReceived);
    assert_eq!(server.recv_seq, SeqNumber(7000));
    assert_eq!(server.recv_ack, SeqNumber(7001));
    assert_eq!(server.send_una, SeqNumber(5000));
    assert_eq!(server.send_nxt, SeqNumber(5001));
    assert_eq!(server.send_wnd, 4096);
    assert_eq!(server.mss, 1000);

    let out = server.on_segment(&key(), &peer(0x10, 7001, 5000), &[]);
    assert!(out.replies.is_empty());
    assert_eq!(server.state, TcpState::SynReceived);
    let out = server.on_segment(&key(), &peer(0x04, 7001, 5001), &[]);
    assert!(!out.aborted);
    assert_eq!(server.state, TcpState::SynReceived);

    let mut ack = peer(0x10, 7001, 5001);
    ack.window_size = 100;
    let out = server.on_segment(&key(), &ack, b"hi");
    assert_eq!(server.state, TcpState::Established);
    assert_eq!(server.send_una, SeqNumber(5001));
    assert_eq!(server.send_wnd, 100 << 7);
    assert_eq!(out.delivered, b"hi".to_vec());
    assert_eq!(server.recv_ack, SeqNumber(7003));
    assert_eq!(out.replies.len(), 1);
    assert_eq!(out.replies[0].header.ack_num, 7003);
}

#[test]
fn closed_connection_answers_syn_like_a_listener() {
    let mut cb = block(1);
    let out = cb.on_segment(&key(), &peer(0x02, 50, 0), &[]);
    assert_eq!(out.replies.len(), 1);
    assert_eq!(cb.state, TcpState::SynReceived);
    assert_eq!(cb.send_window_scale, 0);
    assert_eq!(cb.window_scale, 0);
}

#[test]
fn data_exchange_with_reordering() {
    let mut cb = established(100, u32::MAX);
    assert_eq!(cb.recv_ack, SeqNumber(0));
    let mut stream = Vec::new();

    let out = cb.on_segment(&key(), &peer(0x10, 0, 101), b"ABC");
    stream.extend(out.delivered);
    assert_eq!(out.replies.len(), 1);
    assert_eq!(out.replies[0].header.ack_num, 3);

    let out = cb.on_segment(&key(), &peer(0x10, 6, 101), b"GHI");
    assert!(out.delivered.is_empty());
    assert_eq!(out.replies[0].header.ack_num, 3);
    assert_eq!(cb.recv_ack, SeqNumber(3));

    let out = cb.on_segment(&key(), &peer(0x10, 3, 101), b"DEF");
    stream.extend(out.delivered);
    assert_eq!(stream, b"ABCDEFGHI".to_vec());
    assert_eq!(cb.recv_ack, SeqNumber(9));
    assert_eq!(out.replies[0].header.ack_num, 9);
    assert_eq!(out.replies[0].header.seq_num, 101);
    assert_eq!(out.replies[0].header.flags, TcpFlags(0x10));

    let out = cb.on_segment(&key(), &peer(0x10, 3, 101), b"DEF");
    assert!(out.delivered.is_empty());
    assert_eq!(cb.recv_ack, SeqNumber(9));
    assert_eq!(cb.recv_buffer.held_count(), 0);
    assert_eq!(out.replies.len(), 1);
    assert_eq!(out.replies[0].header.ack_num, 9);
}

#[test]
fn unacceptable_segment_is_acknowledged_and_dropped() {
    let mut cb = established(100, 999);
    cb.recv_wnd = 10;
    let out = cb.on_segment(&key(), &peer(0x10, 1010, 101), b"late");
    assert_eq!(cb.recv_ack, SeqNumber(1000));
    assert!(out.delivered.is_empty());
    assert_eq!(out.replies.len(), 1);
    assert_eq!(out.replies[0].header.ack_num, 1000);
    assert_eq!(out.replies[0].header.flags, TcpFlags(0x10));
    assert_eq!(cb.recv_buffer.held_count(), 0);

    assert!(cb.is_acceptable(SeqNumber(1009), 0));
    assert!(!cb.is_acceptable(SeqNumber(1010), 0));
    assert!(cb.is_acceptable(SeqNumber(990), 11));
    assert!(!cb.is_acceptable(SeqNumber(990), 10));

    let out = cb.on_segment(&key(), &peer(0x04, 1010, 0), &[]);
    assert!(out.replies.is_empty());
    assert!(!out.aborted);
    assert_eq!(cb.state, TcpState::Established);
}

#[test]
fn reset_in_window_aborts() {
    let mut cb = established(100, 999);
    cb.mss = 10;
    cb.send(&key(), &[1; 25]);
    cb.on_segment(&key(), &peer(0x10, 1005, 101), b"held");
    assert_eq!(cb.retransmit.pending_count(), 3);
    assert_eq!(cb.recv_buffer.held_count(), 1);

    let out = cb.on_segment(&key(), &peer(0x04, 1000, 0), &[]);
    assert!(out.aborted);
    assert!(out.replies.is_empty());
    assert_eq!(cb.state, TcpState::Closed);
    assert_eq!(cb.retransmit.pending_count(), 0);
    assert_eq!(cb.recv_buffer.held_count(), 0);
    assert!(!cb.retransmit.should_retransmit());
}

#[test]
fn send_cuts_segments_and_sets_push_on_the_last() {
    let mut cb = established(100, 999);
    cb.mss = 4;
    let data: Vec<u8> = (0..10u8).collect();
    let segments = cb.send(&key(), &data);
    assert_eq!(segments.len(), 3);
    assert_eq!(segments[0].payload, vec![0, 1, 2, 3]);
    assert_eq!(segments[1].payload, vec![4, 5, 6, 7]);
    assert_eq!(segments[2].payload, vec![8, 9]);
    assert_eq!(segments[0].header.seq_num, 101);
    assert_eq!(segments[1].header.seq_num, 105);
    assert_eq!(segments[2].header.seq_num, 109);
    assert_eq!(segments[0].header.flags, TcpFlags(0x10));
    assert_eq!(segments[1].header.flags, TcpFlags(0x10));
    assert_eq!(segments[2].header.flags, TcpFlags(0x18));
    assert_eq!(segments[2].header.ack_num, 1000);
    assert_eq!(segments[2].header.src_port, 40000);
    assert_eq!(segments[2].header.dst_port, 80);
    assert_eq!(cb.send_nxt, SeqNumber(111));
    assert_eq!(cb.send_una, SeqNumber(101));
    assert_eq!(cb.retransmit.pending_count(), 3);
    assert!(cb.retransmit.should_retransmit_after(1_000_000_000));
    assert!(!cb.retransmit.should_retransmit_after(999_999_999));

    let exact = cb.send(&key(), &[7; 8]);
    assert_eq!(exact.len(), 2);
    assert_eq!(exact[0].header.flags, TcpFlags(0x10));
    assert_eq!(exact[1].header.flags, TcpFlags(0x18));
    assert!(cb.send(&key(), &[]).is_empty());
    assert_eq!(cb.send_nxt, SeqNumber(119));
}

#[test]
fn send_needs_an_open_connection_and_a_segment_size() {
    let mut closed = block(5);
    assert!(closed.send(&key(), b"x").is_empty());
    assert_eq!(closed.send_nxt, SeqNumber(5));
    let mut cb = established(5, 9);
    cb.mss = 0;
    assert!(cb.send(&key(), b"x").is_empty());
    assert_eq!(cb.retransmit.pending_count(), 0);
}

#[test]
fn new_acknowledgement_advances_and_grows_window() {
    let mut cb = established(99, 4999);
    cb.mss = 100;
    cb.send(&key(), &[9; 400]);
    assert_eq!(cb.send_quantum(), 1460 - 400);

    let mut ack = peer(0x10, 5000, 300);
    ack.window_size = 3000;
    let out = cb.on_segment(&key(), &ack, &[]);
    assert!(out.replies.is_empty());
    let mut acked: Vec<u32> = out.acknowledged.iter().map(|s| s.seq.0).collect();
    acked.sort();
    assert_eq!(acked, vec![100, 200]);
    assert_eq!(cb.send_una, SeqNumber(300));
    assert_eq!(cb.send_wnd, 3000);
    assert_eq!(cb.send_window.left_edge(), SeqNumber(300));
    assert_eq!(cb.send_window.size(), 3000);
    assert_eq!(cb.congestion.cwnd(), 1460 + 200);
    assert_eq!(cb.retransmit.pending_count(), 2);
    assert_eq!(cb.send_quantum(), 1660 - 200);

    let out = cb.on_segment(&key(), &peer(0x10, 5000, 600), &[]);
    assert!(out.acknowledged.is_empty());
    assert_eq!(cb.send_una, SeqNumber(300));
    let out = cb.on_segment(&key(), &peer(0x10, 5000, 200), &[]);
    assert!(out.acknowledged.is_empty());
    assert_eq!(cb.send_una, SeqNumber(300));
    assert_eq!(cb.congestion.dup_acks(), 0);
}

#[test]
fn fast_retransmit() {
    let mut cb = established(99, 4999);
    cb.mss = 100;
    let sent = cb.send(&key(), &[7; 400]);
    assert_eq!(sent.len(), 4);
    assert_eq!(sent[0].header.seq_num, 100);
    assert_eq!(sent[3].header.seq_num, 400);
    let cwnd = cb.congestion.cwnd();

    let duplicate = peer(0x10, 5000, 100);
    let out = cb.on_segment(&key(), &duplicate, &[]);
    assert!(out.replies.is_empty());
    let out = cb.on_segment(&key(), &duplicate, &[]);
    assert!(out.replies.is_empty());
    assert_eq!(cb.congestion.state(), CongestionState::SlowStart);
    assert_eq!(cb.congestion.dup_acks(), 2);

    let out = cb.on_segment(&key(), &duplicate, &[]);
    assert_eq!(cb.congestion.state(), CongestionState::FastRecovery);
    assert_eq!(cb.congestion.ssthresh(), std::cmp::max(cwnd / 2, 2920));
    assert_eq!(cb.congestion.cwnd(), cb.congestion.ssthresh() + 4380);
    assert_eq!(out.replies.len(), 1);
    assert_eq!(out.replies[0].header.seq_num, 100);
    assert_eq!(out.replies[0].header.ack_num, 5000);
    assert_eq!(out.replies[0].payload, vec![7; 100]);
    assert_eq!(cb.retransmit.pending_count(), 4);
    assert_eq!(cb.send_una, SeqNumber(100));

    let out = cb.on_segment(&key(), &duplicate, &[]);
    assert!(out.replies.is_empty());
    assert_eq!(cb.congestion.cwnd(), 2920 + 4380 + 1460);

    let out = cb.on_segment(&key(), &peer(0x10, 5000, 200), &[]);
    assert_eq!(out.acknowledged.len(), 1);
    assert_eq!(out.acknowledged[0].retransmit_count, 1);
    assert_eq!(rtt_sample_of(&out.acknowledged[0]), None);
}

#[test]
fn segment_with_changed_window_is_no_duplicate() {
    let mut cb = established(99, 4999);
    let mut changed = peer(0x10, 5000, 100);
    changed.window_size = 1234;
    cb.on_segment(&key(), &changed, &[]);
    let mut zero = peer(0x10, 5000, 100);
    zero.window_size = 0;
    cb.send_wnd = 0;
    cb.on_segment(&key(), &zero, &[]);
    cb.on_segment(&key(), &peer(0x10, 5000, 100), b"data");
    assert_eq!(cb.congestion.dup_acks(), 0);
}

#[test]
fn rto_and_slow_start_collapse() {
    let mut cb = established(999, 4999);
    cb.rto = 0;
    cb.on_segment(&key(), &peer(0x10, 5000, 1000), &[]);
    let sent = cb.send(&key(), b"segment");
    assert_eq!(sent.len(), 1);
    assert!(cb.retransmit.should_retransmit());

    cb.rto = 3_600_000_000_000;
    let out = cb.on_retransmit_timeout(&key());
    assert!(!out.timed_out);
    assert_eq!(out.segments.len(), 1);
    assert_eq!(out.segments[0].header.seq_num, 1000);
    assert_eq!(out.segments[0].header.flags, TcpFlags(0x10));
    assert_eq!(out.segments[0].payload, b"segment".to_vec());
    assert_eq!(cb.congestion.cwnd(), 1460);
    assert_eq!(cb.congestion.state(), CongestionState::SlowStart);
    assert!(cb.congestion.ssthresh() >= 2920);
    assert_eq!(cb.state, TcpState::Established);

    let out = cb.on_retransmit_timeout(&key());
    assert!(out.segments.is_empty());
    assert!(!out.timed_out);

    let acked = cb.on_segment(&key(), &peer(0x10, 5000, 1007), &[]).acknowledged;
    assert_eq!(acked.len(), 1);
    assert_eq!(acked[0].retransmit_count, 1);
    assert_eq!(cb.retransmit.pending_count(), 0);
}

#[test]
fn retry_exhaustion_resets_the_connection() {
    let mut cb = established(999, 4999);
    cb.rto = 0;
    cb.send(&key(), b"never acknowledged");
    for _ in 0..15 {
        let out = cb.retransmit_timed_out(&key());
        assert!(!out.timed_out);
        assert_eq!(out.segments.len(), 1);
    }
    let out = cb.on_retransmit_timeout(&key());
    assert!(out.timed_out);
    assert_eq!(out.segments.len(), 1);
    assert_eq!(out.segments[0].header.flags, TcpFlags(0x04));
    assert_eq!(out.segments[0].header.seq_num, 1018);
    assert!(out.segments[0].payload.is_empty());
    assert_eq!(cb.state, TcpState::Closed);
    assert_eq!(cb.retransmit.pending_count(), 0);
}

#[test]
fn graceful_close() {
    let mut demux = Demultiplexer::new();
    demux.register(key(), 1);
    let mut cb = established(100, 900);

    let fin = cb.close(&key()).unwrap();
    assert_eq!(fin.flags, TcpFlags(0x11));
    assert_eq!(fin.seq_num, 101);
    assert_eq!(fin.ack_num, 901);
    assert_eq!(cb.state, TcpState::FinWait1);
    assert_eq!(cb.send_nxt, SeqNumber(102));
    assert!(cb.close(&key()).is_none());

    let out = cb.on_segment(&key(), &peer(0x10, 901, 102), &[]);
    assert!(out.replies.is_empty());
    assert_eq!(cb.state, TcpState::FinWait2);
    assert!(!cb.expire_time_wait_after(u64::MAX));

    let out = cb.on_segment(&key(), &peer(0x11, 901, 102), &[]);
    assert_eq!(cb.state, TcpState::TimeWait);
    assert_eq!(cb.recv_ack, SeqNumber(902));
    assert_eq!(out.replies.len(), 1);
    assert_eq!(out.replies[0].header.flags, TcpFlags(0x10));
    assert_eq!(out.replies[0].header.seq_num, 102);
    assert_eq!(out.replies[0].header.ack_num, 902);

    assert!(!cb.expire_time_wait());
    assert!(!cb.expire_time_wait_after(59_999_999_999));
    assert_eq!(cb.state, TcpState::TimeWait);
    assert!(cb.state.is_closed());
    assert!(!cb.release_route(&key(), &mut demux));
    assert_eq!(demux.find(&key()), Some(&1));
    assert!(cb.expire_time_wait_after(60_000_000_000));
    assert_eq!(cb.state, TcpState::Closed);
    assert!(cb.release_route(&key(), &mut demux));
    assert_eq!(demux.find(&key()), None);
    assert!(!cb.expire_time_wait_after(u64::MAX));
}

#[test]
fn fin_and_ack_together_go_straight_to_time_wait() {
    let mut cb = established(100, 900);
    cb.close(&key());
    let out = cb.on_segment(&key(), &peer(0x11, 901, 102), &[]);
    assert_eq!(cb.state, TcpState::TimeWait);
    assert_eq!(out.replies.len(), 1);
    assert_eq!(out.replies[0].header.ack_num, 902);
}

#[test]
fn simultaneous_close() {
    let mut cb = established(100, 900);
    cb.close(&key());
    let out = cb.on_segment(&key(), &peer(0x11, 901, 101), &[]);
    assert_eq!(cb.state, TcpState::Closing);
    assert_eq!(out.replies[0].header.ack_num, 902);
    cb.on_segment(&key(), &peer(0x10, 902, 102), &[]);
    assert_eq!(cb.state, TcpState::TimeWait);
    assert!(cb.expire_time_wait_after(60_000_000_000));
}

#[test]
fn passive_close() {
    let mut cb = established(100, 900);
    let out = cb.on_segment(&key(), &peer(0x11, 901, 101), b"bye");
    assert_eq!(out.delivered, b"bye".to_vec());
    assert_eq!(cb.state, TcpState::CloseWait);
    assert_eq!(cb.recv_ack, SeqNumber(905));
    assert_eq!(out.replies.len(), 1);
    assert_eq!(out.replies[0].header.ack_num, 905);

    assert_eq!(cb.send(&key(), b"last words").len(), 1);
    let fin = cb.close(&key()).unwrap();
    assert_eq!(fin.seq_num, 111);
    assert_eq!(cb.state, TcpState::LastAck);
    cb.on_segment(&key(), &peer(0x10, 905, 111), &[]);
    assert_eq!(cb.state, TcpState::LastAck);
    cb.on_segment(&key(), &peer(0x10, 905, 112), &[]);
    assert_eq!(cb.state, TcpState::Closed);
}

#[test]
fn fin_ahead_of_missing_data_waits() {
    let mut cb = established(100, 900);
    let out = cb.on_segment(&key(), &peer(0x11, 905, 101), b"tail");
    assert_eq!(cb.state, TcpState::Established);
    assert_eq!(cb.recv_ack, SeqNumber(901));
    assert!(out.delivered.is_empty());
    assert_eq!(out.replies[0].header.ack_num, 901);
}

#[test]
fn options_of_the_peer_are_found_by_kind() {
    let options = vec![
        TcpOption::NoOperation,
        TcpOption::WindowScale(3),
        TcpOption::MaximumSegmentSize(500),
        TcpOption::MaximumSegmentSize(900),
        TcpOption::WindowScale(9),
    ];
    assert_eq!(find_mss(&options), Some(500));
    assert_eq!(find_scale(&options), Some(3));
    assert_eq!(find_mss(&vec![TcpOption::SackPermitted]), None);
    assert_eq!(find_scale(&Vec::new()), None);
}

#[test]
fn runs_flatten_in_order() {
    let runs = vec![
        (SeqNumber(0), vec![1u8, 2]),
        (SeqNumber(2), Vec::new()),
        (SeqNumber(2), vec![3u8]),
    ];
    assert_eq!(flatten_runs(runs), vec![1, 2, 3]);
    assert!(flatten_runs(Vec::new()).is_empty());
}

#[test]
fn retransmitted_segments_give_no_round_trip_sample() {
    let mut segment = PendingSegment {
        seq: SeqNumber(1),
        len: 1,
        data: vec![0],
        retransmit_count: 0,
        first_sent: Instant::now(),
    };
    assert!(rtt_sample_of(&segment).is_some());
    segment.retransmit_count = 1;
    assert!(rtt_sample_of(&segment).is_none());
}

#[test]
fn abort_drops_everything() {
    let mut cb = established(100, 900);
    cb.send(&key(), b"abc");
    cb.abort();
    assert_eq!(cb.state, TcpState::Closed);
    assert_eq!(cb.retransmit.pending_count(), 0);
    assert_eq!(cb.send_nxt, SeqNumber(104));
}
