//! Tests of the checksum and of the IPv4 and TCP header codecs.

use tcp_stack::demux::{ConnectionKey, Endpoint};
use tcp_stack::packet::datagram::{decapsulate, encapsulate, verify_segment_checksum};
use tcp_stack::packet::{Ipv4Header, SackBlock, TcpFlags, TcpHeader, TcpOption};
use tcp_stack::utils::{calculate_checksum, calculate_pseudo_header_checksum};

fn folded_sum(data: &[u8]) -> u32 {
    let mut sum: u32 = 0;
    let mut i = 0;
    while i < data.len() {
        let hi = (data[i] as u32) << 8;
        let lo = if i + 1 < data.len() { data[i + 1] as u32 } else { 0 };
        sum += hi | lo;
        i += 2;
    }
    while sum > 0xFFFF {
        sum = (sum & 0xFFFF) + (sum >> 16);
    }
    sum
}

#[test]
fn checksum_of_known_even_span() {
    let data = [0x00u8, 0x01, 0xf2, 0x03, 0xf4, 0xf5, 0xf6, 0xf7];
    assert_eq!(calculate_checksum(&data), 0x220d);
}

#[test]
fn checksum_of_odd_span_pads_low_byte() {
    assert_eq!(calculate_checksum(&[0x01u8]), 0xFEFF);
    assert_eq!(calculate_checksum(&[0x12u8, 0x34, 0x56]), !(0x1234u16 + 0x5600));
}

#[test]
fn checksum_of_empty_span() {
    assert_eq!(calculate_checksum(&[]), 0xFFFF);
}

#[test]
fn checksum_folds_every_carry() {
    let data = vec![0xFFu8; 200_000];
    assert_eq!(calculate_checksum(&data), 0);
    let mut more = vec![0xFFu8; 200_000];
    more.push(0x01);
    assert_eq!(calculate_checksum(&more), !0x0100u16);
}

#[test]
fn checksum_patched_into_zero_field_verifies() {
    let spans: [Vec<u8>; 2] = [
        vec![0x45, 0x00, 0x00, 0x00, 0xde, 0xad, 0xbe, 0xef, 0x11],
        vec![0x01, 0x02, 0x00, 0x00, 0xff, 0xff, 0x80, 0x7f],
    ];
    for span in spans.iter() {
        let sum = calculate_checksum(span);
        let mut patched = span.clone();
        patched[2] = (sum >> 8) as u8;
        patched[3] = (sum & 0xFF) as u8;
        assert_eq!(folded_sum(&patched), 0xFFFF);
        assert_eq!(calculate_checksum(&patched), 0);
    }
}

#[test]
fn pseudo_header_sum_exact() {
    let src = u32::from_be_bytes([192, 168, 1, 1]);
    let dst = u32::from_be_bytes([192, 168, 1, 2]);
    assert_eq!(calculate_pseudo_header_checksum(src, dst, 6, 20), 0x836E);
    assert_eq!(calculate_pseudo_header_checksum(0, 0, 0, 0), 0);
    assert_eq!(calculate_pseudo_header_checksum(0xFFFF_FFFF, 0xFFFF_FFFF, 255, 0xFFFF), 0x00FF);
}

#[test]
fn ipv4_serialize_exact_bytes() {
    let src = u32::from_be_bytes([192, 168, 1, 1]);
    let dst = u32::from_be_bytes([192, 168, 1, 2]);
    let header = Ipv4Header::new(src, dst, 20);
    assert_eq!(header.total_length, 40);
    assert_eq!(header.header_len(), 20);
    let bytes = header.serialize();
    assert_eq!(
        bytes,
        vec![
            0x45, 0x00, 0x00, 0x28, 0x00, 0x00, 0x40, 0x00, 0x40, 0x06, 0xB7, 0x7C, 0xC0, 0xA8,
            0x01, 0x01, 0xC0, 0xA8, 0x01, 0x02
        ]
    );
}

#[test]
fn ipv4_checksum_round_trip() {
    let src = u32::from_be_bytes([192, 168, 1, 1]);
    let dst = u32::from_be_bytes([192, 168, 1, 2]);
    let mut header = Ipv4Header::new(src, dst, 20);
    header.ttl = 64;
    header.protocol = 6;
    assert_eq!(header.total_length, 40);
    let bytes = header.serialize();
    assert_eq!(bytes.len(), 20);
    assert_eq!(folded_sum(&bytes), 0xFFFF);
    assert_eq!(calculate_checksum(&bytes), 0);
}

#[test]
fn ipv4_total_length_wraps_at_sixteen_bits() {
    let header = Ipv4Header::new(1, 2, 65516);
    assert_eq!(header.total_length, 0);
    let header = Ipv4Header::new(1, 2, 65515);
    assert_eq!(header.total_length, 65535);
}

#[test]
fn ipv4_parse_gives_back_header_and_payload() {
    let mut header = Ipv4Header::new(0x0A00_0001, 0x0A00_0002, 3);
    header.ihl = 6;
    header.dscp = 0x2E;
    header.ecn = 2;
    header.identification = 0xBEEF;
    header.flags = 0x20;
    header.fragment_offset = 0x1ABC;
    header.ttl = 17;
    header.options = vec![1, 2, 3, 4];
    let mut bytes = header.serialize();
    assert_eq!(bytes.len(), 24);
    bytes.extend_from_slice(&[9, 8, 7]);

    let (parsed, payload) = Ipv4Header::parse(&bytes).unwrap();
    assert_eq!(payload, &[9u8, 8, 7][..]);
    assert_eq!(parsed.version, 4);
    assert_eq!(parsed.ihl, 6);
    assert_eq!(parsed.dscp, 0x2E);
    assert_eq!(parsed.ecn, 2);
    assert_eq!(parsed.total_length, 23);
    assert_eq!(parsed.identification, 0xBEEF);
    assert_eq!(parsed.flags, 0x20);
    assert_eq!(parsed.fragment_offset, 0x1ABC);
    assert_eq!(parsed.ttl, 17);
    assert_eq!(parsed.protocol, 6);
    assert_eq!(parsed.src_addr, 0x0A00_0001);
    assert_eq!(parsed.dst_addr, 0x0A00_0002);
    assert_eq!(parsed.options, vec![1, 2, 3, 4]);
    assert_eq!(parsed.checksum, u16::from_be_bytes([bytes[10], bytes[11]]));
    assert_eq!(calculate_checksum(&bytes[..24]), 0);
}

#[test]
fn ipv4_parse_rejects_short_wrong_version_and_truncated() {
    let good = Ipv4Header::new(1, 2, 0).serialize();
    assert!(Ipv4Header::parse(&good).is_some());
    assert!(Ipv4Header::parse(&good[..19]).is_none());

    let mut v6 = good.clone();
    v6[0] = 0x65;
    assert!(Ipv4Header::parse(&v6).is_none());

    let mut long = good.clone();
    long[0] = 0x46;
    assert!(Ipv4Header::parse(&long).is_none());
    long.extend_from_slice(&[0, 0, 0, 0]);
    assert!(Ipv4Header::parse(&long).is_some());
}

#[test]
fn ipv4_emits_dont_fragment_bit() {
    let bytes = Ipv4Header::new(1, 2, 0).serialize();
    assert_eq!(bytes[6], 0x40);
    assert_eq!(bytes[7], 0x00);
    assert_eq!(bytes[8], 64);
}

#[test]
fn tcp_flags_builders_and_tests() {
    let flags = TcpFlags::new();
    assert_eq!(flags.0, 0);
    assert_eq!(TcpFlags::default(), flags);
    assert_eq!(flags.with_fin().0, 0x01);
    assert_eq!(flags.with_syn().0, 0x02);
    assert_eq!(flags.with_rst().0, 0x04);
    assert_eq!(flags.with_psh().0, 0x08);
    assert_eq!(flags.with_ack().0, 0x10);
    assert!(flags.with_fin().is_fin());
    assert!(flags.with_rst().is_rst());
    assert!(!flags.with_rst().is_fin());
    assert!(flags.with_syn().with_ack().is_syn_ack());
    assert!(!flags.with_syn().is_syn_ack());
    assert!(!flags.with_syn().with_ack().with_psh().is_syn_ack());
}

#[test]
fn tcp_option_wire_forms() {
    assert_eq!(TcpOption::EndOfList.serialize(), vec![0]);
    assert_eq!(TcpOption::NoOperation.serialize(), vec![1]);
    assert_eq!(TcpOption::MaximumSegmentSize(0x05B4).serialize(), vec![2, 4, 0x05, 0xB4]);
    let sack = TcpOption::Sack {
        blocks: vec![
            SackBlock { left: 0x0102_0304, right: 0x0506_0708 },
            SackBlock { left: 0x1112_1314, right: 0x1516_1718 },
        ],
    };
    assert_eq!(
        sack.serialize(),
        vec![
            5, 18, 0x01, 0x02, 0x03, 0x04, 0x05, 0x06, 0x07, 0x08, 0x11, 0x12, 0x13, 0x14, 0x15,
            0x16, 0x17, 0x18
        ]
    );
}

#[test]
fn tcp_option_parse_each_kind() {
    assert_eq!(TcpOption::parse(&[]), None);
    assert_eq!(TcpOption::parse(&[0, 9, 9]), Some((TcpOption::EndOfList, 1)));
    assert_eq!(TcpOption::parse(&[1, 9, 9]), Some((TcpOption::NoOperation, 1)));
    assert_eq!(
        TcpOption::parse(&[2, 4, 0x05, 0xB4, 1]),
        Some((TcpOption::MaximumSegmentSize(1460), 4))
    );
    assert_eq!(TcpOption::parse(&[3, 3, 7]), Some((TcpOption::WindowScale(7), 3)));
    assert_eq!(TcpOption::parse(&[4, 2]), Some((TcpOption::SackPermitted, 2)));
    assert_eq!(
        TcpOption::parse(&[8, 10, 0, 0, 3, 0xE8, 0, 0, 1, 0xF4]),
        Some((TcpOption::Timestamp { ts_val: 1000, ts_ecr: 500 }, 10))
    );
    assert_eq!(
        TcpOption::parse(&[5, 10, 0, 0, 0, 1, 0, 0, 0, 9, 1]),
        Some((TcpOption::Sack { blocks: vec![SackBlock { left: 1, right: 9 }] }, 10))
    );
}

#[test]
fn tcp_option_parse_skips_unknown_kinds() {
    assert_eq!(TcpOption::parse(&[30, 4, 0xAA, 0xBB, 1]), Some((TcpOption::NoOperation, 4)));
    assert_eq!(TcpOption::parse(&[5, 6, 0, 0, 0, 0]), Some((TcpOption::NoOperation, 6)));
}

#[test]
fn tcp_option_parse_rejects_malformed() {
    assert_eq!(TcpOption::parse(&[2]), None);
    assert_eq!(TcpOption::parse(&[2, 4, 5]), None);
    assert_eq!(TcpOption::parse(&[2, 1, 5, 5]), None);
    assert_eq!(TcpOption::parse(&[2, 9, 5, 5]), None);
    assert_eq!(TcpOption::parse(&[3, 3]), None);
    assert_eq!(TcpOption::parse(&[3, 0, 7]), None);
    assert_eq!(TcpOption::parse(&[4]), None);
    assert_eq!(TcpOption::parse(&[8, 10, 0, 0, 0]), None);
    assert_eq!(TcpOption::parse(&[30, 1, 0]), None);
    assert_eq!(TcpOption::parse(&[30, 5, 0]), None);
    assert_eq!(TcpOption::parse(&[5, 10, 0, 0]), None);
}

#[test]
fn tcp_serialize_exact_bytes() {
    let mut header = TcpHeader::new(0x3039, 80);
    header.seq_num = 0x0102_0304;
    header.ack_num = 0x0A0B_0C0D;
    header.flags = TcpFlags::new().with_ack().with_psh();
    header.window_size = 0x1000;
    header.urgent_pointer = 0x0007;
    header.checksum = 0xABCD;
    assert_eq!(header.header_len(), 20);
    assert_eq!(header.options_len(), 0);
    assert_eq!(
        header.serialize(),
        vec![
            0x30, 0x39, 0x00, 0x50, 0x01, 0x02, 0x03, 0x04, 0x0A, 0x0B, 0x0C, 0x0D, 0x50, 0x18,
            0x10, 0x00, 0x00, 0x00, 0x00, 0x07
        ]
    );
}

#[test]
fn tcp_syn_carries_opening_options_padded() {
    let header = TcpHeader::syn(12345, 80, 1000, 1460);
    assert_eq!(header.data_offset, 10);
    assert_eq!(header.options_len(), 20);
    assert_eq!(
        header.options,
        vec![
            TcpOption::MaximumSegmentSize(1460),
            TcpOption::SackPermitted,
            TcpOption::Timestamp { ts_val: 0, ts_ecr: 0 },
            TcpOption::WindowScale(7),
        ]
    );
    let bytes = header.serialize();
    assert_eq!(bytes.len(), 40);
    assert_eq!(bytes[12], 0xA0);
    assert_eq!(bytes[13], 0x02);
    assert_eq!(&bytes[20..24], &[2, 4, 0x05, 0xB4]);
    assert_eq!(&bytes[24..26], &[4, 2]);
    assert_eq!(&bytes[26..36], &[8, 10, 0, 0, 0, 0, 0, 0, 0, 0]);
    assert_eq!(&bytes[36..39], &[3, 3, 7]);
    assert_eq!(bytes[39], 0);
}

#[test]
fn tcp_parse_gives_back_header_and_payload() {
    let mut header = TcpHeader::syn_ack(80, 12345, 2000, 1001, 1400);
    header.flags = TcpFlags(0xD2);
    header.window_size = 4321;
    header.urgent_pointer = 5;
    header.options.push(TcpOption::Sack {
        blocks: vec![SackBlock { left: 10, right: 20 }, SackBlock { left: 30, right: 40 }],
    });
    header.data_offset = 15;
    let mut bytes = header.serialize();
    assert_eq!(bytes.len(), 60);
    bytes.extend_from_slice(b"hello");

    let (parsed, payload) = TcpHeader::parse(&bytes).unwrap();
    assert_eq!(payload, b"hello");
    assert_eq!(parsed.src_port, 80);
    assert_eq!(parsed.dst_port, 12345);
    assert_eq!(parsed.seq_num, 2000);
    assert_eq!(parsed.ack_num, 1001);
    assert_eq!(parsed.data_offset, 15);
    assert_eq!(parsed.flags, TcpFlags(0xD2));
    assert_eq!(parsed.window_size, 4321);
    assert_eq!(parsed.checksum, 0);
    assert_eq!(parsed.urgent_pointer, 5);
    assert_eq!(parsed.options, header.options);
}

#[test]
fn tcp_parse_rejects_short_and_truncated() {
    let bytes = TcpHeader::syn(1, 2, 3, 1460).serialize();
    assert!(TcpHeader::parse(&bytes).is_some());
    assert!(TcpHeader::parse(&bytes[..19]).is_none());
    assert!(TcpHeader::parse(&bytes[..39]).is_none());
    assert!(TcpHeader::parse(&[]).is_none());
}

#[test]
fn tcp_parse_stops_at_end_of_list_and_at_malformed_option() {
    let mut header = TcpHeader::new(1, 2);
    header.data_offset = 8;
    let mut bytes = header.serialize();
    bytes[20..32].copy_from_slice(&[1, 3, 3, 9, 0, 2, 4, 0x05, 0xB4, 1, 1, 1]);
    let (parsed, _) = TcpHeader::parse(&bytes).unwrap();
    assert_eq!(parsed.options, vec![TcpOption::NoOperation, TcpOption::WindowScale(9)]);

    bytes[20..32].copy_from_slice(&[1, 2, 0, 0, 0, 3, 3, 9, 1, 1, 1, 1]);
    let (parsed, payload) = TcpHeader::parse(&bytes).unwrap();
    assert_eq!(parsed.options, vec![TcpOption::NoOperation]);
    assert!(payload.is_empty());

    bytes[20..32].copy_from_slice(&[77, 4, 0, 0, 3, 3, 9, 1, 1, 1, 1, 1]);
    let (parsed, _) = TcpHeader::parse(&bytes).unwrap();
    assert_eq!(parsed.options.len(), 7);
    assert_eq!(parsed.options[0], TcpOption::NoOperation);
    assert_eq!(parsed.options[1], TcpOption::WindowScale(9));
}

#[test]
fn tcp_parse_with_small_data_offset_has_no_options() {
    let mut bytes = TcpHeader::new(7, 8).serialize();
    bytes[12] = 0x20;
    let (parsed, payload) = TcpHeader::parse(&bytes).unwrap();
    assert_eq!(parsed.data_offset, 2);
    assert!(parsed.options.is_empty());
    assert_eq!(payload.len(), 12);
}

#[test]
fn tcp_checksum_over_pseudo_header_verifies() {
    let src = u32::from_be_bytes([10, 0, 0, 1]);
    let dst = u32::from_be_bytes([10, 0, 0, 2]);
    let header = TcpHeader::syn(40000, 443, 77, 1460);
    let payload = b"abc";
    let sum = header.calculate_checksum(src, dst, payload);

    let mut segment = header.serialize();
    segment[16] = (sum >> 8) as u8;
    segment[17] = (sum & 0xFF) as u8;
    let mut total = Vec::new();
    total.extend_from_slice(&src.to_be_bytes());
    total.extend_from_slice(&dst.to_be_bytes());
    total.extend_from_slice(&[0, 6, 0, 43]);
    total.extend_from_slice(&segment);
    total.extend_from_slice(payload);
    assert_eq!(calculate_checksum(&total), 0);
}

#[test]
fn datagram_round_trip() {
    let key = ConnectionKey::new(
        Endpoint { addr: 0xC0A8_0101, port: 40000 },
        Endpoint { addr: 0xC0A8_0102, port: 80 },
    );
    let mut header = TcpHeader::syn(40000, 80, 1000, 1460);
    header.window_size = 512;
    let bytes = encapsulate(&key, &header, b"payload");
    assert_eq!(bytes.len(), 20 + 40 + 7);
    assert_eq!(&bytes[..4], &[0x45, 0x00, 0x00, 67]);
    assert_eq!(bytes[6], 0x40);
    assert_eq!(bytes[8], 64);
    assert_eq!(bytes[9], 6);
    assert_eq!(&bytes[12..20], &[0xC0, 0xA8, 0x01, 0x01, 0xC0, 0xA8, 0x01, 0x02]);
    assert_eq!(calculate_checksum(&bytes[..20]), 0);
    assert!(verify_segment_checksum(0xC0A8_0101, 0xC0A8_0102, &bytes[20..]));
    assert!(!verify_segment_checksum(0xC0A8_0101, 0xC0A8_0103, &bytes[20..]));
    assert_eq!(
        u16::from_be_bytes([bytes[36], bytes[37]]),
        header.calculate_checksum(0xC0A8_0101, 0xC0A8_0102, b"payload")
    );

    let (found, parsed, payload) = decapsulate(&bytes).unwrap();
    assert_eq!(found.local, Endpoint { addr: 0xC0A8_0102, port: 80 });
    assert_eq!(found.remote, Endpoint { addr: 0xC0A8_0101, port: 40000 });
    assert_eq!(payload, b"payload");
    assert_eq!(parsed.seq_num, 1000);
    assert_eq!(parsed.window_size, 512);
    assert_eq!(parsed.flags, TcpFlags(0x02));
    assert_eq!(parsed.options, header.options);
    assert_eq!(parsed.checksum, u16::from_be_bytes([bytes[36], bytes[37]]));
}

#[test]
fn datagram_with_damage_is_dropped() {
    let key = ConnectionKey::new(Endpoint { addr: 1, port: 2 }, Endpoint { addr: 3, port: 4 });
    let good = encapsulate(&key, &TcpHeader::new(2, 4), b"abc");
    assert!(decapsulate(&good).is_some());

    let mut bad_ip = good.clone();
    bad_ip[8] ^= 0x01;
    assert!(decapsulate(&bad_ip).is_none());

    let mut bad_payload = good.clone();
    bad_payload[41] ^= 0x80;
    assert!(decapsulate(&bad_payload).is_none());

    let mut udp = Ipv4Header::new(1, 3, 23);
    udp.protocol = 17;
    let mut other = udp.serialize();
    other.extend_from_slice(&good[20..]);
    assert!(decapsulate(&other).is_none());

    assert!(decapsulate(&good[..30]).is_none());
    assert!(decapsulate(&[]).is_none());
}
