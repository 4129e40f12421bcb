//! Whole datagrams: a TCP segment with its checksum inside an IPv4 header.

use crate::demux::{ConnectionKey, Endpoint};
use crate::packet::ip::{
    ipv4_announced_len, ipv4_decode, ipv4_parsable, ipv4_wire, lemma_ipv4_roundtrip,
    lemma_ipv4_wire_verifies, Ipv4Header, Ipv4HeaderView,
};
use crate::packet::tcp::{
    lemma_tcp_roundtrip, pseudo_header_bytes, tcp_announced_len, tcp_checksum, tcp_decode,
    tcp_option_span, tcp_parsable, tcp_well_formed, tcp_wire, TcpHeader, TcpHeaderView,
};
use crate::packet::wire::{lemma_be_roundtrip, push_u16_be, push_u32_be, u16_at};
use crate::utils::checksum::{calculate_checksum, checksum_of, lemma_checksum_patch_verifies};
use vstd::prelude::*;
use vstd::slice::slice_subrange;

verus! {

/// A serialized header followed by `payload`, with `checksum` in the
/// checksum field of the header.
pub open spec fn segment_with_checksum(h: TcpHeaderView, payload: Seq<u8>, checksum: int) -> Seq<
    u8,
> {
    (tcp_wire(h) + payload).update(16, (checksum / 256) as u8).update(17, (checksum % 256) as u8)
}

/// The bytes of a segment on the wire between two addresses: serialized
/// header and payload, with the TCP checksum in the checksum field.
pub open spec fn segment_wire(h: TcpHeaderView, src_addr: u32, dst_addr: u32, payload: Seq<u8>)
    -> Seq<u8> {
    segment_with_checksum(h, payload, tcp_checksum(h, src_addr, dst_addr, payload))
}

/// The IPv4 header that carries `segment_len` bytes of TCP from the local
/// end of `key` to its remote end: no options, don't-fragment set, a time
/// to live of 64, and the total length kept modulo 2^16.
pub open spec fn outbound_ip_header(key: ConnectionKey, segment_len: int) -> Ipv4HeaderView {
    Ipv4HeaderView {
        version: 4,
        ihl: 5,
        dscp: 0,
        ecn: 0,
        total_length: ((20 + segment_len) % 0x1_0000) as u16,
        identification: 0,
        flags: 0x40,
        fragment_offset: 0,
        ttl: 64,
        protocol: 6,
        checksum: 0,
        src_addr: key.local.addr,
        dst_addr: key.remote.addr,
        options: Seq::empty(),
    }
}

/// The datagram that carries a segment from the local end of `key` to
/// its remote end.
pub open spec fn datagram_wire(key: ConnectionKey, h: TcpHeaderView, payload: Seq<u8>) -> Seq<u8> {
    let segment = segment_wire(h, key.local.addr, key.remote.addr, payload);
    ipv4_wire(outbound_ip_header(key, segment.len() as int)) + segment
}

/// Whether a segment between two addresses carries the right checksum:
/// the checksum over pseudo-header and segment is zero.
pub open spec fn segment_checksum_valid(src_addr: u32, dst_addr: u32, segment: Seq<u8>) -> bool {
    checksum_of(
        pseudo_header_bytes(src_addr, dst_addr, (segment.len() % 0x1_0000) as u16) + segment,
    ) == 0
}

/// The bytes of a datagram after its IPv4 header.
pub open spec fn ip_payload(data: Seq<u8>) -> Seq<u8> {
    data.subrange(ipv4_announced_len(data), data.len() as int)
}

/// Whether a datagram is taken in: its IPv4 header parses and carries the
/// right checksum, it carries TCP, and its segment parses and carries the
/// right checksum.
pub open spec fn datagram_accepted(data: Seq<u8>) -> bool {
    &&& ipv4_parsable(data)
    &&& checksum_of(data.subrange(0, ipv4_announced_len(data))) == 0
    &&& ipv4_decode(data).protocol == 6
    &&& tcp_parsable(ip_payload(data))
    &&& segment_checksum_valid(
        ipv4_decode(data).src_addr,
        ipv4_decode(data).dst_addr,
        ip_payload(data),
    )
}

/// The key of the connection that an inbound datagram belongs to.
pub open spec fn inbound_key(data: Seq<u8>) -> ConnectionKey {
    ConnectionKey {
        local: Endpoint {
            addr: ipv4_decode(data).dst_addr,
            port: tcp_decode(ip_payload(data)).dst_port,
        },
        remote: Endpoint {
            addr: ipv4_decode(data).src_addr,
            port: tcp_decode(ip_payload(data)).src_port,
        },
    }
}

/// A segment that carries its own checksum passes the receiver's check.
pub proof fn lemma_segment_wire_verifies(
    h: TcpHeaderView,
    src_addr: u32,
    dst_addr: u32,
    payload: Seq<u8>,
)
    ensures
        segment_wire(h, src_addr, dst_addr, payload).len() == tcp_wire(h).len() + payload.len(),
        tcp_wire(h).len() >= 20,
        segment_checksum_valid(src_addr, dst_addr, segment_wire(h, src_addr, dst_addr, payload)),
{
    let plain = tcp_wire(h) + payload;
    let pseudo = pseudo_header_bytes(src_addr, dst_addr, (plain.len() % 0x1_0000) as u16);
    let total = pseudo + plain;
    assert(pseudo.len() == 12);
    assert(tcp_wire(h).len() >= 20);
    assert(total[28] == tcp_wire(h)[16] && total[29] == tcp_wire(h)[17]);
    assert(tcp_wire(h)[16] == 0 && tcp_wire(h)[17] == 0);
    lemma_checksum_patch_verifies(total, 28);
    let c = checksum_of(total);
    assert(total.update(28, (c / 256) as u8).update(29, (c % 256) as u8) =~= pseudo
        + segment_wire(h, src_addr, dst_addr, payload));
}

/// A datagram built for a well-formed header is taken in at the other
/// end: both checksums hold, the key found is the key it was built for
/// with its ends swapped and the ports of the header, the header found is
/// the header that was sent with the TCP checksum in its checksum field,
/// and the payload found is the payload that was sent.
#[verifier::rlimit(30)]
pub proof fn lemma_datagram_roundtrip(key: ConnectionKey, h: TcpHeaderView, payload: Seq<u8>)
    requires
        tcp_well_formed(h),
    ensures
        ({
            let d = datagram_wire(key, h, payload);
            let sum = tcp_checksum(h, key.local.addr, key.remote.addr, payload);
            &&& datagram_accepted(d)
            &&& inbound_key(d) == (ConnectionKey {
                local: Endpoint { addr: key.remote.addr, port: h.dst_port },
                remote: Endpoint { addr: key.local.addr, port: h.src_port },
            })
            &&& tcp_decode(ip_payload(d)) == (TcpHeaderView { checksum: sum as u16, ..h })
            &&& ip_payload(d).subrange(
                tcp_announced_len(ip_payload(d)),
                ip_payload(d).len() as int,
            ) == payload
        }),
{
    let src = key.local.addr;
    let dst = key.remote.addr;
    let segment = segment_wire(h, src, dst, payload);
    let sum = tcp_checksum(h, src, dst, payload);
    let ip = outbound_ip_header(key, segment.len() as int);
    let head = ipv4_wire(ip);
    let d = datagram_wire(key, h, payload);
    let plain = tcp_wire(h);

    assert(0x40u8 & 0x1Fu8 == 0) by (bit_vector);
    lemma_ipv4_roundtrip(ip);
    lemma_ipv4_wire_verifies(ip);
    assert(head.len() == 20);
    assert(forall|i: int| 0 <= i < 20 ==> d[i] == head[i]);
    assert(ipv4_announced_len(d) == 20);
    assert(d.subrange(0, 20) =~= head);
    assert(ipv4_decode(d).options =~= ipv4_decode(head).options);
    assert(ipv4_decode(d) == ipv4_decode(head));
    assert(ip_payload(d) =~= segment);

    lemma_tcp_roundtrip(h);
    lemma_segment_wire_verifies(h, src, dst, payload);
    lemma_segment_bounds(h, src, dst, payload);
    assert(forall|i: int| 0 <= i < plain.len() && i != 16 && i != 17 ==> segment[i] == plain[i]);
    assert(tcp_announced_len(segment) == tcp_announced_len(plain));
    assert(tcp_option_span(segment) =~= tcp_option_span(plain));
    lemma_be_roundtrip(sum as u16, 0);
    assert(u16_at(segment, 16) == sum as u16);
    assert(tcp_decode(segment) == (TcpHeaderView {
        checksum: sum as u16,
        ..tcp_decode(plain)
    }));
    assert(segment.subrange(plain.len() as int, segment.len() as int) =~= payload);
}

/// The TCP checksum fits sixteen bits.
proof fn lemma_segment_bounds(h: TcpHeaderView, src_addr: u32, dst_addr: u32, payload: Seq<u8>)
    ensures
        0 <= tcp_checksum(h, src_addr, dst_addr, payload) <= 0xFFFF,
{
    let plain = tcp_wire(h) + payload;
    let total = pseudo_header_bytes(src_addr, dst_addr, (plain.len() % 0x1_0000) as u16) + plain;
    crate::utils::checksum::lemma_fold16_closed_form(crate::utils::checksum::word_sum(total));
}

/// Builds the datagram that carries a segment from the local end of
/// `key` to its remote end: an IPv4 header with its checksum, the TCP
/// header with the TCP checksum filled in, then the payload.
pub fn encapsulate(key: &ConnectionKey, header: &TcpHeader, payload: &[u8]) -> (bytes: Vec<u8>)
    ensures
        bytes@ == datagram_wire(*key, header@, payload@),
{
    let src: u32 = key.local.addr;
    let dst: u32 = key.remote.addr;
    let sum: u16 = header.calculate_checksum(src, dst, payload);
    let mut segment: Vec<u8> = header.serialize();
    proof {
        lemma_segment_wire_verifies(header@, src, dst, payload@);
    }
    assert((sum >> 8) == sum / 256 && (sum & 0xFF) == sum % 256) by (bit_vector);
    segment[16] = (sum >> 8) as u8;
    segment[17] = (sum & 0xFF) as u8;
    let ghost patched = segment@;
    let mut i: usize = 0;
    while i < payload.len()
        invariant
            i <= payload@.len(),
            segment@ == patched + payload@.take(i as int),
        decreases payload@.len() - i,
    {
        segment.push(payload[i]);
        i += 1;
        assert(segment@ =~= patched + payload@.take(i as int));
    }
    assert(payload@.take(i as int) =~= payload@);
    assert(segment@ =~= segment_wire(header@, src, dst, payload@));

    let ip = Ipv4Header::new(src, dst, segment.len());
    assert(ip@ == outbound_ip_header(*key, segment@.len() as int));
    let mut bytes: Vec<u8> = ip.serialize();
    let ghost head = bytes@;
    let mut j: usize = 0;
    while j < segment.len()
        invariant
            j <= segment@.len(),
            bytes@ == head + segment@.take(j as int),
        decreases segment@.len() - j,
    {
        bytes.push(segment[j]);
        j += 1;
        assert(bytes@ =~= head + segment@.take(j as int));
    }
    assert(segment@.take(j as int) =~= segment@);
    bytes
}

/// Whether a segment between two addresses carries the right checksum.
pub fn verify_segment_checksum(src_addr: u32, dst_addr: u32, segment: &[u8]) -> (valid: bool)
    ensures
        valid == segment_checksum_valid(src_addr, dst_addr, segment@),
{
    let mut total: Vec<u8> = Vec::new();
    push_u32_be(&mut total, src_addr);
    push_u32_be(&mut total, dst_addr);
    total.push(0);
    total.push(6);
    let tcp_len: u16 = (segment.len() % 0x1_0000) as u16;
    push_u16_be(&mut total, tcp_len);
    assert(total@ =~= pseudo_header_bytes(src_addr, dst_addr, tcp_len));
    let ghost pseudo = total@;
    let mut i: usize = 0;
    while i < segment.len()
        invariant
            i <= segment@.len(),
            total@ == pseudo + segment@.take(i as int),
        decreases segment@.len() - i,
    {
        total.push(segment[i]);
        i += 1;
        assert(total@ =~= pseudo + segment@.take(i as int));
    }
    assert(segment@.take(i as int) =~= segment@);
    calculate_checksum(total.as_slice()) == 0
}

/// Takes a datagram apart: the key of the connection it belongs to, its
/// TCP header and its payload. A datagram that does not parse, does not
/// carry TCP or fails a checksum gives nothing.
pub fn decapsulate(data: &[u8]) -> (result: Option<(ConnectionKey, TcpHeader, &[u8])>)
    ensures
        result is Some <==> datagram_accepted(data@),
        result matches Some((key, header, payload)) ==> {
            &&& key == inbound_key(data@)
            &&& header@ == tcp_decode(ip_payload(data@))
            &&& payload@ == ip_payload(data@).subrange(
                tcp_announced_len(ip_payload(data@)),
                ip_payload(data@).len() as int,
            )
        },
{
    let (ip, segment) = match Ipv4Header::parse(data) {
        Some(parsed) => parsed,
        None => { return None; },
    };
    let header_len: usize = ip.header_len();
    assert(header_len == ipv4_announced_len(data@));
    if calculate_checksum(slice_subrange(data, 0, header_len)) != 0 {
        return None;
    }
    if ip.protocol != 6 {
        return None;
    }
    let (tcp, payload) = match TcpHeader::parse(segment) {
        Some(parsed) => parsed,
        None => { return None; },
    };
    if !verify_segment_checksum(ip.src_addr, ip.dst_addr, segment) {
        return None;
    }
    let key = ConnectionKey {
        local: Endpoint { addr: ip.dst_addr, port: tcp.dst_port },
        remote: Endpoint { addr: ip.src_addr, port: tcp.src_port },
    };
    Some((key, tcp, payload))
}

} // verus!
