//! The IPv4 header: its wire layout, serialization and parsing.
//!
//! Addresses are held as 32-bit values in host order of the four octets
//! read big-endian: `192.168.1.1` is `0xC0A8_0101`.

use crate::packet::wire::{
    lemma_be_roundtrip, push_u32_be, put_u16_be, put_u8, u16_at, u16_be_bytes,
    u16_from_be_bytes, u32_at, u32_be_bytes, u32_from_be_bytes,
};
use crate::utils::checksum::{calculate_checksum, checksum_of, lemma_checksum_patch_verifies};
use vstd::prelude::*;
use vstd::slice::{slice_subrange, slice_to_vec};

verus! {

/// IPv4 header (20 bytes minimum).
#[derive(Debug, Clone)]
pub struct Ipv4Header {
    pub version: u8,
    pub ihl: u8,
    pub dscp: u8,
    pub ecn: u8,
    pub total_length: u16,
    pub identification: u16,
    pub flags: u8,
    pub fragment_offset: u16,
    pub ttl: u8,
    pub protocol: u8,
    pub checksum: u16,
    pub src_addr: u32,
    pub dst_addr: u32,
    pub options: Vec<u8>,
}

/// The mathematical value of an [`Ipv4Header`].
pub struct Ipv4HeaderView {
    pub version: u8,
    pub ihl: u8,
    pub dscp: u8,
    pub ecn: u8,
    pub total_length: u16,
    pub identification: u16,
    pub flags: u8,
    pub fragment_offset: u16,
    pub ttl: u8,
    pub protocol: u8,
    pub checksum: u16,
    pub src_addr: u32,
    pub dst_addr: u32,
    pub options: Seq<u8>,
}

impl View for Ipv4Header {
    type V = Ipv4HeaderView;

    open spec fn view(&self) -> Ipv4HeaderView {
        Ipv4HeaderView {
            version: self.version,
            ihl: self.ihl,
            dscp: self.dscp,
            ecn: self.ecn,
            total_length: self.total_length,
            identification: self.identification,
            flags: self.flags,
            fragment_offset: self.fragment_offset,
            ttl: self.ttl,
            protocol: self.protocol,
            checksum: self.checksum,
            src_addr: self.src_addr,
            dst_addr: self.dst_addr,
            options: self.options@,
        }
    }
}

/// First header byte: version in the high nibble, IHL in the low one.
pub open spec fn version_ihl_byte(version: u8, ihl: u8) -> u8 {
    (version << 4) | ihl
}

/// Second header byte: DSCP in the high six bits, ECN in the low two.
pub open spec fn dscp_ecn_byte(dscp: u8, ecn: u8) -> u8 {
    (dscp << 2) | (ecn & 0x03)
}

/// The 16-bit word that holds the three flag bits above the 13-bit
/// fragment offset. The flags are kept as they stand in the seventh header
/// byte: reserved `0x80`, don't-fragment `0x40`, more-fragments `0x20`.
pub open spec fn flags_fragment_word(flags: u8, fragment_offset: u16) -> u16 {
    (((flags & 0xE0) as u16) << 8) | (fragment_offset & 0x1FFF)
}

/// The twenty fixed bytes of the header with `checksum` in bytes 10 and 11.
pub open spec fn ipv4_fixed_bytes(h: Ipv4HeaderView, checksum: u16) -> Seq<u8> {
    seq![
        version_ihl_byte(h.version, h.ihl),
        dscp_ecn_byte(h.dscp, h.ecn),
        u16_be_bytes(h.total_length)[0],
        u16_be_bytes(h.total_length)[1],
        u16_be_bytes(h.identification)[0],
        u16_be_bytes(h.identification)[1],
        u16_be_bytes(flags_fragment_word(h.flags, h.fragment_offset))[0],
        u16_be_bytes(flags_fragment_word(h.flags, h.fragment_offset))[1],
        h.ttl,
        h.protocol,
        u16_be_bytes(checksum)[0],
        u16_be_bytes(checksum)[1],
        u32_be_bytes(h.src_addr)[0],
        u32_be_bytes(h.src_addr)[1],
        u32_be_bytes(h.src_addr)[2],
        u32_be_bytes(h.src_addr)[3],
        u32_be_bytes(h.dst_addr)[0],
        u32_be_bytes(h.dst_addr)[1],
        u32_be_bytes(h.dst_addr)[2],
        u32_be_bytes(h.dst_addr)[3],
    ]
}

/// The header bytes with a zero checksum field: what the checksum is
/// computed over.
pub open spec fn ipv4_unsummed(h: Ipv4HeaderView) -> Seq<u8> {
    ipv4_fixed_bytes(h, 0) + h.options
}

/// The checksum that serialization writes into the header.
pub open spec fn ipv4_checksum(h: Ipv4HeaderView) -> u16 {
    checksum_of(ipv4_unsummed(h)) as u16
}

/// The serialized header: fixed bytes with the computed checksum, then the
/// options. The `checksum` field of `h` itself is not emitted.
pub open spec fn ipv4_wire(h: Ipv4HeaderView) -> Seq<u8> {
    ipv4_fixed_bytes(h, ipv4_checksum(h)) + h.options
}

/// Header length in bytes announced by the first byte of `data`.
pub open spec fn ipv4_announced_len(data: Seq<u8>) -> int {
    (data[0] & 0x0F) as int * 4
}

/// Whether `data` starts with a header that parsing accepts: at least twenty
/// bytes, version 4, and no shorter than the announced header length.
pub open spec fn ipv4_parsable(data: Seq<u8>) -> bool {
    &&& data.len() >= 20
    &&& (data[0] >> 4) & 0x0F == 4
    &&& data.len() >= ipv4_announced_len(data)
}

/// The header that the leading bytes of `data` encode.
pub open spec fn ipv4_decode(data: Seq<u8>) -> Ipv4HeaderView {
    Ipv4HeaderView {
        version: (data[0] >> 4) & 0x0F,
        ihl: data[0] & 0x0F,
        dscp: data[1] >> 2,
        ecn: data[1] & 0x03,
        total_length: u16_at(data, 2),
        identification: u16_at(data, 4),
        flags: ((u16_at(data, 6) >> 8) & 0xE0) as u8,
        fragment_offset: u16_at(data, 6) & 0x1FFF,
        ttl: data[8],
        protocol: data[9],
        checksum: u16_at(data, 10),
        src_addr: u32_at(data, 12),
        dst_addr: u32_at(data, 16),
        options: if ipv4_announced_len(data) > 20 {
            data.subrange(20, ipv4_announced_len(data))
        } else {
            Seq::empty()
        },
    }
}

/// A header that obeys the wire limits: version 4, an IHL of 5 to 15 that
/// accounts for the options, and every packed field within its bits.
pub open spec fn ipv4_well_formed(h: Ipv4HeaderView) -> bool {
    &&& h.version == 4
    &&& 5 <= h.ihl <= 15
    &&& h.dscp < 64
    &&& h.ecn < 4
    &&& h.flags & 0x1F == 0
    &&& h.fragment_offset < 0x2000
    &&& h.options.len() == (h.ihl - 5) * 4
}

proof fn lemma_packed_fields(version: u8, ihl: u8, dscp: u8, ecn: u8, flags: u8, fragment: u16)
    by (bit_vector)
    requires
        version < 16,
        ihl < 16,
        dscp < 64,
        ecn < 4,
        flags & 0x1F == 0,
        fragment < 0x2000,
    ensures
        (((version << 4) | ihl) >> 4) & 0x0F == version,
        ((version << 4) | ihl) & 0x0F == ihl,
        ((dscp << 2) | (ecn & 0x03)) >> 2 == dscp,
        ((dscp << 2) | (ecn & 0x03)) & 0x03 == ecn,
        ((((((flags & 0xE0) as u16) << 8) | (fragment & 0x1FFF)) >> 8) & 0xE0) as u8 == flags,
        ((((flags & 0xE0) as u16) << 8) | (fragment & 0x1FFF)) & 0x1FFF == fragment,
{
}

/// Parsing the serialized form of a well-formed header gives the header
/// back, with the computed checksum in its checksum field and no payload.
pub proof fn lemma_ipv4_roundtrip(h: Ipv4HeaderView)
    requires
        ipv4_well_formed(h),
    ensures
        ipv4_wire(h).len() == h.ihl * 4,
        ipv4_parsable(ipv4_wire(h)),
        ipv4_announced_len(ipv4_wire(h)) == h.ihl * 4,
        ipv4_decode(ipv4_wire(h)) == (Ipv4HeaderView { checksum: ipv4_checksum(h), ..h }),
{
    let w = ipv4_wire(h);
    let fixed = ipv4_fixed_bytes(h, ipv4_checksum(h));
    lemma_packed_fields(h.version, h.ihl, h.dscp, h.ecn, h.flags, h.fragment_offset);
    lemma_be_roundtrip(h.total_length, h.src_addr);
    lemma_be_roundtrip(h.identification, h.dst_addr);
    lemma_be_roundtrip(flags_fragment_word(h.flags, h.fragment_offset), 0);
    lemma_be_roundtrip(ipv4_checksum(h), 0);
    assert(fixed.len() == 20);
    assert(forall|i: int| 0 <= i < 20 ==> w[i] == fixed[i]);
    let d = ipv4_decode(w);
    assert(d.options =~= h.options);
}

/// The serialized form of any header passes the receiver's check: its
/// checksum, recomputed over all of its bytes, is zero.
pub proof fn lemma_ipv4_wire_verifies(h: Ipv4HeaderView)
    ensures
        checksum_of(ipv4_wire(h)) == 0,
{
    let unsummed = ipv4_unsummed(h);
    lemma_checksum_patch_verifies(unsummed, 10);
    let c = checksum_of(unsummed);
    assert(unsummed.update(10, (c / 256) as u8).update(11, (c % 256) as u8) =~= ipv4_wire(h));
}

impl Ipv4Header {
    pub const MIN_SIZE: usize = 20;

    pub const VERSION: u8 = 4;

    pub const PROTOCOL_TCP: u8 = 6;

    /// A header for a TCP datagram with `payload_len` bytes after the
    /// twenty header bytes: no options, don't-fragment set, TTL 64. The
    /// total length is kept modulo 2^16.
    pub fn new(src_addr: u32, dst_addr: u32, payload_len: usize) -> (result: Self)
        ensures
            result@ == (Ipv4HeaderView {
                version: 4,
                ihl: 5,
                dscp: 0,
                ecn: 0,
                total_length: ((20 + payload_len) % 0x1_0000) as u16,
                identification: 0,
                flags: 0x40,
                fragment_offset: 0,
                ttl: 64,
                protocol: 6,
                checksum: 0,
                src_addr,
                dst_addr,
                options: Seq::empty(),
            }),
    {
        let low: u16 = (payload_len % 0x1_0000) as u16;
        Self {
            version: 4,
            ihl: 5,
            dscp: 0,
            ecn: 0,
            total_length: low.wrapping_add(20),
            identification: 0,
            flags: 0x40,
            fragment_offset: 0,
            ttl: 64,
            protocol: 6,
            checksum: 0,
            src_addr,
            dst_addr,
            options: Vec::new(),
        }
    }

    pub fn header_len(&self) -> (result: usize)
        ensures
            result == self.ihl * 4,
    {
        (self.ihl as usize) * 4
    }

    /// Emits the header in network order with its checksum computed over
    /// the emitted bytes and written into bytes 10 and 11.
    pub fn serialize(&self) -> (bytes: Vec<u8>)
        ensures
            bytes@ == ipv4_wire(self@),
            bytes@.len() == 20 + self.options@.len(),
            checksum_of(bytes@) == 0,
    {
        let mut buf: Vec<u8> = Vec::with_capacity(self.header_len());

        let version_ihl: u8 = (self.version << 4) | self.ihl;
        let dscp_ecn: u8 = (self.dscp << 2) | (self.ecn & 0x03);

        put_u8(&mut buf, version_ihl);
        put_u8(&mut buf, dscp_ecn);
        put_u16_be(&mut buf, self.total_length);
        put_u16_be(&mut buf, self.identification);

        let flags_frag: u16 = (((self.flags & 0xE0) as u16) << 8) | (self.fragment_offset
            & 0x1FFF);
        put_u16_be(&mut buf, flags_frag);

        put_u8(&mut buf, self.ttl);
        put_u8(&mut buf, self.protocol);
        put_u16_be(&mut buf, 0);

        push_u32_be(&mut buf, self.src_addr);
        push_u32_be(&mut buf, self.dst_addr);
        assert(buf@ =~= ipv4_fixed_bytes(self@, 0));

        let mut i: usize = 0;
        while i < self.options.len()
            invariant
                i <= self.options@.len(),
                buf@ == ipv4_fixed_bytes(self@, 0) + self.options@.take(i as int),
            decreases self.options@.len() - i,
        {
            buf.push(self.options[i]);
            i += 1;
            assert(buf@ =~= ipv4_fixed_bytes(self@, 0) + self.options@.take(i as int));
        }
        assert(self.options@.take(i as int) =~= self.options@);

        let checksum: u16 = calculate_checksum(buf.as_slice());
        assert((checksum >> 8) == checksum / 256 && (checksum & 0xFF) == checksum % 256)
            by (bit_vector);
        buf[10] = (checksum >> 8) as u8;
        buf[11] = (checksum & 0xFF) as u8;
        proof {
            assert(buf@ =~= ipv4_wire(self@));
            lemma_ipv4_wire_verifies(self@);
        }
        buf
    }

    /// Reads a header from the front of `data` and returns it with the
    /// bytes that follow it. Fails exactly when `data` has fewer than
    /// twenty bytes, the version is not 4, or `data` is shorter than the
    /// header length that the IHL field announces.
    pub fn parse(data: &[u8]) -> (result: Option<(Self, &[u8])>)
        ensures
            result is Some <==> ipv4_parsable(data@),
            result matches Some((header, payload)) ==> {
                &&& header@ == ipv4_decode(data@)
                &&& payload@ == data@.subrange(ipv4_announced_len(data@), data@.len() as int)
            },
    {
        if data.len() < 20 {
            return None;
        }
        let version: u8 = (data[0] >> 4) & 0x0F;
        if version != 4 {
            return None;
        }
        let first: u8 = data[0];
        let ihl: u8 = first & 0x0F;
        assert(first & 0x0F <= 15) by (bit_vector);
        let header_len: usize = (ihl as usize) * 4;

        if data.len() < header_len {
            return None;
        }
        let dscp_ecn: u8 = data[1];
        let total_length: u16 = u16_from_be_bytes(data[2], data[3]);
        let identification: u16 = u16_from_be_bytes(data[4], data[5]);
        let flags_frag: u16 = u16_from_be_bytes(data[6], data[7]);
        let flags: u8 = ((flags_frag >> 8) & 0xE0) as u8;
        let fragment_offset: u16 = flags_frag & 0x1FFF;
        let ttl: u8 = data[8];
        let protocol: u8 = data[9];

        let src_addr: u32 = u32_from_be_bytes(data[12], data[13], data[14], data[15]);
        let dst_addr: u32 = u32_from_be_bytes(data[16], data[17], data[18], data[19]);

        let options: Vec<u8> = if header_len > 20 {
            slice_to_vec(slice_subrange(data, 20, header_len))
        } else {
            Vec::new()
        };

        let header = Self {
            version,
            ihl,
            dscp: dscp_ecn >> 2,
            ecn: dscp_ecn & 0x03,
            total_length,
            identification,
            flags,
            fragment_offset,
            ttl,
            protocol,
            checksum: u16_from_be_bytes(data[10], data[11]),
            src_addr,
            dst_addr,
            options,
        };

        Some((header, slice_subrange(data, header_len, data.len())))
    }
}

} // verus!
