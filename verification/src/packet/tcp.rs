//! The TCP header: flags, the option chain, serialization and parsing.

use crate::packet::wire::{
    lemma_be_roundtrip, push_u16_be, push_u32_be, put_u16_be, put_u32_be, read_u16_be,
    read_u32_be, u16_at, u16_be_bytes, u16_from_be_bytes, u32_at, u32_be_bytes,
    u32_from_be_bytes,
};
use crate::utils::checksum::checksum_of;
use vstd::prelude::*;
use vstd::slice::slice_subrange;

verus! {

/// The eight TCP flag bits.
#[derive(Debug, Clone, Copy, PartialEq, Eq, Structural)]
pub struct TcpFlags(pub u8);

impl TcpFlags {
    pub const FIN: u8 = 0x01;

    pub const SYN: u8 = 0x02;

    pub const RST: u8 = 0x04;

    pub const PSH: u8 = 0x08;

    pub const ACK: u8 = 0x10;

    pub const URG: u8 = 0x20;

    pub const ECE: u8 = 0x40;

    pub const CWR: u8 = 0x80;

    /// Whether the flags and `mask` share a bit: for a mask of one bit,
    /// whether that flag is set.
    pub open spec fn has(self, mask: u8) -> bool {
        self.0 & mask != 0
    }

    pub fn new() -> (result: Self)
        ensures
            result.0 == 0,
    {
        Self(0)
    }

    pub fn with_syn(self) -> (result: Self)
        ensures
            result.0 == self.0 | 0x02,
    {
        Self(self.0 | Self::SYN)
    }

    pub fn with_ack(self) -> (result: Self)
        ensures
            result.0 == self.0 | 0x10,
    {
        Self(self.0 | Self::ACK)
    }

    pub fn with_fin(self) -> (result: Self)
        ensures
            result.0 == self.0 | 0x01,
    {
        Self(self.0 | Self::FIN)
    }

    pub fn with_rst(self) -> (result: Self)
        ensures
            result.0 == self.0 | 0x04,
    {
        Self(self.0 | Self::RST)
    }

    pub fn with_psh(self) -> (result: Self)
        ensures
            result.0 == self.0 | 0x08,
    {
        Self(self.0 | Self::PSH)
    }

    pub fn is_syn(&self) -> (result: bool)
        ensures
            result == self.has(0x02),
    {
        (self.0 & Self::SYN) != 0
    }

    pub fn is_ack(&self) -> (result: bool)
        ensures
            result == self.has(0x10),
    {
        (self.0 & Self::ACK) != 0
    }

    pub fn is_fin(&self) -> (result: bool)
        ensures
            result == self.has(0x01),
    {
        (self.0 & Self::FIN) != 0
    }

    pub fn is_rst(&self) -> (result: bool)
        ensures
            result == self.has(0x04),
    {
        (self.0 & Self::RST) != 0
    }

    /// Whether the flags are SYN and ACK and nothing else.
    pub fn is_syn_ack(&self) -> (result: bool)
        ensures
            result == (self.0 == 0x12),
    {
        let bits: u8 = self.0;
        assert(((bits & 0x02) != 0 && (bits & 0x10) != 0 && (bits & !(0x02u8 | 0x10u8)) == 0) == (
        bits == 0x12)) by (bit_vector);
        self.is_syn() && self.is_ack() && (self.0 & !(Self::SYN | Self::ACK)) == 0
    }
}

impl Default for TcpFlags {
    fn default() -> (result: Self)
        ensures
            result.0 == 0,
    {
        Self::new()
    }
}

/// One block of a selective acknowledgement: the left edge and the right
/// edge of a received range.
#[derive(Debug, Clone, Copy, PartialEq, Eq, Structural)]
pub struct SackBlock {
    pub left: u32,
    pub right: u32,
}

/// TCP options.
#[derive(Debug, Clone, PartialEq, Eq)]
pub enum TcpOption {
    EndOfList,
    NoOperation,
    MaximumSegmentSize(u16),
    WindowScale(u8),
    SackPermitted,
    Sack { blocks: Vec<SackBlock> },
    Timestamp { ts_val: u32, ts_ecr: u32 },
}

/// The mathematical value of a [`TcpOption`].
pub enum TcpOptionView {
    EndOfList,
    NoOperation,
    MaximumSegmentSize(u16),
    WindowScale(u8),
    SackPermitted,
    Sack { blocks: Seq<SackBlock> },
    Timestamp { ts_val: u32, ts_ecr: u32 },
}

impl View for TcpOption {
    type V = TcpOptionView;

    open spec fn view(&self) -> TcpOptionView {
        match self {
            TcpOption::EndOfList => TcpOptionView::EndOfList,
            TcpOption::NoOperation => TcpOptionView::NoOperation,
            TcpOption::MaximumSegmentSize(mss) => TcpOptionView::MaximumSegmentSize(*mss),
            TcpOption::WindowScale(scale) => TcpOptionView::WindowScale(*scale),
            TcpOption::SackPermitted => TcpOptionView::SackPermitted,
            TcpOption::Sack { blocks } => TcpOptionView::Sack { blocks: blocks@ },
            TcpOption::Timestamp { ts_val, ts_ecr } => TcpOptionView::Timestamp {
                ts_val: *ts_val,
                ts_ecr: *ts_ecr,
            },
        }
    }
}

/// The eight bytes of one SACK block: left edge, then right edge.
pub open spec fn sack_block_bytes(block: SackBlock) -> Seq<u8> {
    u32_be_bytes(block.left) + u32_be_bytes(block.right)
}

/// The bytes of a run of SACK blocks, eight per block.
pub open spec fn sack_bytes(blocks: Seq<SackBlock>) -> Seq<u8> {
    Seq::new(8 * blocks.len(), |j: int| sack_block_bytes(blocks[j / 8])[j % 8])
}

/// The `count` SACK blocks that follow the two leading bytes of `data`.
pub open spec fn sack_decode(data: Seq<u8>, count: nat) -> Seq<SackBlock> {
    Seq::new(
        count,
        |i: int| SackBlock { left: u32_at(data, 2 + 8 * i), right: u32_at(data, 6 + 8 * i) },
    )
}

/// The wire form of one option: kind, length where the kind has one, then
/// the value. The length byte of a SACK option is kept modulo 256.
pub open spec fn option_bytes(option: TcpOptionView) -> Seq<u8> {
    match option {
        TcpOptionView::EndOfList => seq![0u8],
        TcpOptionView::NoOperation => seq![1u8],
        TcpOptionView::MaximumSegmentSize(mss) => seq![2u8, 4u8] + u16_be_bytes(mss),
        TcpOptionView::WindowScale(scale) => seq![3u8, 3u8, scale],
        TcpOptionView::SackPermitted => seq![4u8, 2u8],
        TcpOptionView::Sack { blocks } => seq![5u8, ((2 + 8 * blocks.len()) % 256) as u8]
            + sack_bytes(blocks),
        TcpOptionView::Timestamp { ts_val, ts_ecr } => seq![8u8, 10u8] + u32_be_bytes(ts_val)
            + u32_be_bytes(ts_ecr),
    }
}

/// The option at the front of `data` and the number of bytes it takes, or
/// `None` where `data` is empty or the option is malformed.
///
/// Kinds 0 and 1 are single bytes. Every other kind carries a length byte;
/// the option is malformed when that byte is missing or below 2, or when
/// the option runs past the end of `data`. A maximum-segment-size option
/// needs four bytes and takes as many as its length byte says; window
/// scale, SACK-permitted and timestamp take 3, 2 and 10 bytes. A SACK
/// option takes as many bytes as its length byte says and is decoded when
/// that length is a whole number of blocks, at least one. A SACK option of
/// another length, and any unknown kind, is skipped: it yields a
/// no-operation that takes as many bytes as its length byte says.
pub open spec fn option_decode(data: Seq<u8>) -> Option<(TcpOptionView, int)> {
    if data.len() == 0 {
        None
    } else if data[0] == 0 {
        Some((TcpOptionView::EndOfList, 1))
    } else if data[0] == 1 {
        Some((TcpOptionView::NoOperation, 1))
    } else if data.len() < 2 || data[1] < 2 {
        None
    } else {
        let len = data[1] as int;
        if data[0] == 2 {
            if data.len() < 4 || data.len() < len {
                None
            } else {
                Some((TcpOptionView::MaximumSegmentSize(u16_at(data, 2)), len))
            }
        } else if data[0] == 3 {
            if data.len() < 3 {
                None
            } else {
                Some((TcpOptionView::WindowScale(data[2]), 3))
            }
        } else if data[0] == 4 {
            Some((TcpOptionView::SackPermitted, 2))
        } else if data[0] == 8 {
            if data.len() < 10 {
                None
            } else {
                Some(
                    (
                        TcpOptionView::Timestamp {
                            ts_val: u32_at(data, 2),
                            ts_ecr: u32_at(data, 6),
                        },
                        10,
                    ),
                )
            }
        } else if data.len() < len {
            None
        } else if data[0] == 5 && len >= 10 && (len - 2) % 8 == 0 {
            Some((TcpOptionView::Sack { blocks: sack_decode(data, ((len - 2) / 8) as nat) }, len))
        } else {
            Some((TcpOptionView::NoOperation, len))
        }
    }
}

/// An option that parsing gives back as it was serialized: not the
/// end-of-list marker, and a SACK option with one to thirty-one blocks.
pub open spec fn option_well_formed(option: TcpOptionView) -> bool {
    match option {
        TcpOptionView::EndOfList => false,
        TcpOptionView::Sack { blocks } => 1 <= blocks.len() <= 31,
        _ => true,
    }
}

/// A decoded option takes at least one byte and no more than there are.
pub proof fn lemma_option_decode_bounds(data: Seq<u8>)
    ensures
        option_decode(data) matches Some((_, used)) ==> 1 <= used <= data.len(),
{
}

/// Decoding the wire form of a SACK option with one to thirty-one blocks,
/// whatever follows it, gives the blocks back.
proof fn lemma_sack_roundtrip(blocks: Seq<SackBlock>, tail: Seq<u8>)
    requires
        1 <= blocks.len() <= 31,
    ensures
        sack_decode(option_bytes(TcpOptionView::Sack { blocks }) + tail, blocks.len()) == blocks,
{
    let data = option_bytes(TcpOptionView::Sack { blocks }) + tail;
    let n = blocks.len();
    let decoded = sack_decode(data, n);
    assert forall|i: int| 0 <= i < n implies decoded[i] == blocks[i] by {
        lemma_be_roundtrip(0, blocks[i].left);
        lemma_be_roundtrip(0, blocks[i].right);
        assert forall|k: int| 0 <= k < 8 implies data[2 + 8 * i + k] == sack_block_bytes(
            blocks[i],
        )[k] by {
            let j = 8 * i + k;
            assert(j / 8 == i && j % 8 == k);
            assert(data[2 + j] == sack_bytes(blocks)[j]);
        }
        assert(data[2 + 8 * i] == sack_block_bytes(blocks[i])[0]);
        assert(data[2 + 8 * i + 1] == sack_block_bytes(blocks[i])[1]);
        assert(data[2 + 8 * i + 2] == sack_block_bytes(blocks[i])[2]);
        assert(data[2 + 8 * i + 3] == sack_block_bytes(blocks[i])[3]);
        assert(data[2 + 8 * i + 4] == sack_block_bytes(blocks[i])[4]);
        assert(data[2 + 8 * i + 5] == sack_block_bytes(blocks[i])[5]);
        assert(data[2 + 8 * i + 6] == sack_block_bytes(blocks[i])[6]);
        assert(data[2 + 8 * i + 7] == sack_block_bytes(blocks[i])[7]);
    }
    assert(decoded =~= blocks);
}

/// Decoding the wire form of a well-formed option, whatever follows it,
/// gives the option back and takes exactly its bytes.
pub proof fn lemma_option_roundtrip(option: TcpOptionView, tail: Seq<u8>)
    requires
        option_well_formed(option),
    ensures
        option_decode(option_bytes(option) + tail) == Some(
            (option, option_bytes(option).len() as int),
        ),
{
    let bytes = option_bytes(option);
    let data = bytes + tail;
    match option {
        TcpOptionView::EndOfList => {},
        TcpOptionView::NoOperation => {
            assert(data[0] == 1);
        },
        TcpOptionView::MaximumSegmentSize(mss) => {
            lemma_be_roundtrip(mss, 0);
            assert(bytes.len() == 4);
            assert(data[0] == 2 && data[1] == 4 && data[2] == bytes[2] && data[3] == bytes[3]);
        },
        TcpOptionView::WindowScale(scale) => {
            assert(bytes.len() == 3);
            assert(data[0] == 3 && data[1] == 3 && data[2] == scale);
        },
        TcpOptionView::SackPermitted => {
            assert(bytes.len() == 2);
            assert(data[0] == 4 && data[1] == 2);
        },
        TcpOptionView::Timestamp { ts_val, ts_ecr } => {
            lemma_be_roundtrip(0, ts_val);
            lemma_be_roundtrip(0, ts_ecr);
            assert(bytes.len() == 10);
            assert(data[0] == 8 && data[1] == 10);
            assert(data[2] == bytes[2] && data[3] == bytes[3] && data[4] == bytes[4] && data[5]
                == bytes[5]);
            assert(data[6] == bytes[6] && data[7] == bytes[7] && data[8] == bytes[8] && data[9]
                == bytes[9]);
        },
        TcpOptionView::Sack { blocks } => {
            let len = 2 + 8 * blocks.len();
            assert(bytes.len() == len);
            assert(data[0] == 5 && data[1] == len);
            assert((len - 2) % 8 == 0 && (len - 2) / 8 == blocks.len());
            lemma_sack_roundtrip(blocks, tail);
        },
    }
}

impl TcpOption {
    pub const KIND_END: u8 = 0;

    pub const KIND_NOP: u8 = 1;

    pub const KIND_MSS: u8 = 2;

    pub const KIND_WINDOW_SCALE: u8 = 3;

    pub const KIND_SACK_PERMITTED: u8 = 4;

    pub const KIND_SACK: u8 = 5;

    pub const KIND_TIMESTAMP: u8 = 8;

    /// Emits the option in its wire form.
    pub fn serialize(&self) -> (bytes: Vec<u8>)
        ensures
            bytes@ == option_bytes(self@),
    {
        let mut buf: Vec<u8> = Vec::new();
        match self {
            TcpOption::EndOfList => {
                buf.push(Self::KIND_END);
                assert(buf@ =~= option_bytes(self@));
            },
            TcpOption::NoOperation => {
                buf.push(Self::KIND_NOP);
                assert(buf@ =~= option_bytes(self@));
            },
            TcpOption::MaximumSegmentSize(mss) => {
                buf.push(Self::KIND_MSS);
                buf.push(4);
                push_u16_be(&mut buf, *mss);
                assert(buf@ =~= option_bytes(self@));
            },
            TcpOption::WindowScale(scale) => {
                buf.push(Self::KIND_WINDOW_SCALE);
                buf.push(3);
                buf.push(*scale);
                assert(buf@ =~= option_bytes(self@));
            },
            TcpOption::SackPermitted => {
                buf.push(Self::KIND_SACK_PERMITTED);
                buf.push(2);
                assert(buf@ =~= option_bytes(self@));
            },
            TcpOption::Sack { blocks } => {
                let count: usize = blocks.len();
                let len_byte: u8 = ((count % 32) * 8 + 2) as u8;
                buf.push(Self::KIND_SACK);
                buf.push(len_byte);
                let ghost head = buf@;
                let mut i: usize = 0;
                while i < count
                    invariant
                        i <= count,
                        count == blocks@.len(),
                        head.len() == 2,
                        buf@ == head + sack_bytes(blocks@.take(i as int)),
                    decreases count - i,
                {
                    let ghost before = buf@;
                    push_u32_be(&mut buf, blocks[i].left);
                    push_u32_be(&mut buf, blocks[i].right);
                    proof {
                        let prev = blocks@.take(i as int);
                        let next = blocks@.take(i as int + 1);
                        assert(buf@ == before + u32_be_bytes(blocks@[i as int].left) + u32_be_bytes(
                            blocks@[i as int].right,
                        ));
                        let target = head + sack_bytes(next);
                        assert(buf@.len() == target.len());
                        assert forall|k: int| 0 <= k < buf@.len() implies #[trigger] buf@[k]
                            == target[k] by {
                            if 2 <= k {
                                let j = k - 2;
                                if j < 8 * i {
                                    assert(next[j / 8] == prev[j / 8]);
                                    assert(buf@[k] == before[k]);
                                    assert(before[k] == sack_bytes(prev)[j]);
                                } else {
                                    assert(j / 8 == i as int);
                                    assert(buf@[k] == sack_block_bytes(blocks@[i as int])[j - 8
                                        * i]);
                                }
                            }
                        }
                        assert(buf@ =~= head + sack_bytes(next));
                    }
                    i += 1;
                }
                assert(blocks@.take(count as int) =~= blocks@);
                assert(head =~= seq![5u8, ((2 + 8 * blocks@.len()) % 256) as u8]);
            },
            TcpOption::Timestamp { ts_val, ts_ecr } => {
                buf.push(Self::KIND_TIMESTAMP);
                buf.push(10);
                push_u32_be(&mut buf, *ts_val);
                push_u32_be(&mut buf, *ts_ecr);
                assert(buf@ =~= option_bytes(self@));
            },
        }
        buf
    }

    /// Reads the option at the front of `data` and returns it with the
    /// number of bytes it takes.
    pub fn parse(data: &[u8]) -> (result: Option<(Self, usize)>)
        ensures
            result is Some <==> option_decode(data@) is Some,
            result matches Some((option, used)) ==> option_decode(data@) == Some(
                (option@, used as int),
            ),
    {
        if data.len() == 0 {
            return None;
        }
        let kind: u8 = data[0];
        if kind == Self::KIND_END {
            return Some((TcpOption::EndOfList, 1));
        }
        if kind == Self::KIND_NOP {
            return Some((TcpOption::NoOperation, 1));
        }
        if data.len() < 2 || data[1] < 2 {
            return None;
        }
        let len: usize = data[1] as usize;
        if kind == Self::KIND_MSS {
            if data.len() < 4 || data.len() < len {
                return None;
            }
            let mss: u16 = u16_from_be_bytes(data[2], data[3]);
            Some((TcpOption::MaximumSegmentSize(mss), len))
        } else if kind == Self::KIND_WINDOW_SCALE {
            if data.len() < 3 {
                return None;
            }
            Some((TcpOption::WindowScale(data[2]), 3))
        } else if kind == Self::KIND_SACK_PERMITTED {
            Some((TcpOption::SackPermitted, 2))
        } else if kind == Self::KIND_TIMESTAMP {
            if data.len() < 10 {
                return None;
            }
            let ts_val: u32 = u32_from_be_bytes(data[2], data[3], data[4], data[5]);
            let ts_ecr: u32 = u32_from_be_bytes(data[6], data[7], data[8], data[9]);
            Some((TcpOption::Timestamp { ts_val, ts_ecr }, 10))
        } else if data.len() < len {
            None
        } else if kind == Self::KIND_SACK && len >= 10 && (len - 2) % 8 == 0 {
            let count: usize = (len - 2) / 8;
            let mut blocks: Vec<SackBlock> = Vec::new();
            let mut i: usize = 0;
            while i < count
                invariant
                    i <= count,
                    count <= 31,
                    2 + 8 * count <= data@.len(),
                    blocks@ == sack_decode(data@, i as nat),
                decreases count - i,
            {
                let at: usize = 2 + 8 * i;
                let left: u32 = u32_from_be_bytes(
                    data[at],
                    data[at + 1],
                    data[at + 2],
                    data[at + 3],
                );
                let right: u32 = u32_from_be_bytes(
                    data[at + 4],
                    data[at + 5],
                    data[at + 6],
                    data[at + 7],
                );
                blocks.push(SackBlock { left, right });
                i += 1;
                assert(blocks@ =~= sack_decode(data@, i as nat));
            }
            Some((TcpOption::Sack { blocks }, len))
        } else {
            Some((TcpOption::NoOperation, len))
        }
    }
}

/// TCP header.
#[derive(Debug, Clone)]
pub struct TcpHeader {
    pub src_port: u16,
    pub dst_port: u16,
    pub seq_num: u32,
    pub ack_num: u32,
    pub data_offset: u8,
    pub flags: TcpFlags,
    pub window_size: u16,
    pub checksum: u16,
    pub urgent_pointer: u16,
    pub options: Vec<TcpOption>,
}

/// The mathematical value of a [`TcpHeader`].
pub struct TcpHeaderView {
    pub src_port: u16,
    pub dst_port: u16,
    pub seq_num: u32,
    pub ack_num: u32,
    pub data_offset: u8,
    pub flags: TcpFlags,
    pub window_size: u16,
    pub checksum: u16,
    pub urgent_pointer: u16,
    pub options: Seq<TcpOptionView>,
}

/// The values of a list of options, in order.
pub open spec fn options_view(options: Seq<TcpOption>) -> Seq<TcpOptionView> {
    Seq::new(options.len(), |i: int| options[i]@)
}

impl View for TcpHeader {
    type V = TcpHeaderView;

    open spec fn view(&self) -> TcpHeaderView {
        TcpHeaderView {
            src_port: self.src_port,
            dst_port: self.dst_port,
            seq_num: self.seq_num,
            ack_num: self.ack_num,
            data_offset: self.data_offset,
            flags: self.flags,
            window_size: self.window_size,
            checksum: self.checksum,
            urgent_pointer: self.urgent_pointer,
            options: options_view(self.options@),
        }
    }
}

/// The 16-bit word that holds the data offset in its top four bits and the
/// eight flag bits in its low byte; the four bits between are reserved and
/// zero.
pub open spec fn offset_flags_word(data_offset: u8, flags: u8) -> u16 {
    ((data_offset as u16) << 12) | (flags as u16)
}

/// The twenty fixed bytes of the header. The checksum field is emitted as
/// zero: the connection layer computes it over the pseudo-header.
pub open spec fn tcp_fixed_bytes(h: TcpHeaderView) -> Seq<u8> {
    seq![
        u16_be_bytes(h.src_port)[0],
        u16_be_bytes(h.src_port)[1],
        u16_be_bytes(h.dst_port)[0],
        u16_be_bytes(h.dst_port)[1],
        u32_be_bytes(h.seq_num)[0],
        u32_be_bytes(h.seq_num)[1],
        u32_be_bytes(h.seq_num)[2],
        u32_be_bytes(h.seq_num)[3],
        u32_be_bytes(h.ack_num)[0],
        u32_be_bytes(h.ack_num)[1],
        u32_be_bytes(h.ack_num)[2],
        u32_be_bytes(h.ack_num)[3],
        u16_be_bytes(offset_flags_word(h.data_offset, h.flags.0))[0],
        u16_be_bytes(offset_flags_word(h.data_offset, h.flags.0))[1],
        u16_be_bytes(h.window_size)[0],
        u16_be_bytes(h.window_size)[1],
        0u8,
        0u8,
        u16_be_bytes(h.urgent_pointer)[0],
        u16_be_bytes(h.urgent_pointer)[1],
    ]
}

/// The wire forms of a list of options, one after the other.
pub open spec fn options_bytes(options: Seq<TcpOptionView>) -> Seq<u8>
    decreases options.len(),
{
    if options.len() == 0 {
        Seq::empty()
    } else {
        option_bytes(options[0]) + options_bytes(options.skip(1))
    }
}

/// `count` zero bytes; none when `count` is not positive.
pub open spec fn zero_padding(count: int) -> Seq<u8> {
    Seq::new(
        if count > 0 {
            count as nat
        } else {
            0
        },
        |i: int| 0u8,
    )
}

/// The serialized header: fixed bytes, options, then zero bytes up to the
/// length that the data offset announces. Options that run past that
/// length are emitted in full.
pub open spec fn tcp_wire(h: TcpHeaderView) -> Seq<u8> {
    let body = tcp_fixed_bytes(h) + options_bytes(h.options);
    body + zero_padding(h.data_offset * 4 - body.len())
}

/// The options that a span of option bytes holds: one option is decoded
/// after the other until the span ends, an end-of-list marker is met, or an
/// option is malformed. What follows such a stop is ignored.
pub open spec fn options_decode(data: Seq<u8>) -> Seq<TcpOptionView>
    decreases data.len(),
{
    match option_decode(data) {
        None => Seq::empty(),
        Some((option, used)) => if option is EndOfList {
            Seq::empty()
        } else {
            seq![option] + options_decode(data.skip(used))
        },
    }
}

/// Header length in bytes announced by the data offset field of `data`.
pub open spec fn tcp_announced_len(data: Seq<u8>) -> int {
    ((u16_at(data, 12) >> 12) & 0x0F) as int * 4
}

/// Whether `data` starts with a header that parsing accepts: at least
/// twenty bytes, and no shorter than the announced header length.
pub open spec fn tcp_parsable(data: Seq<u8>) -> bool {
    &&& data.len() >= 20
    &&& data.len() >= tcp_announced_len(data)
}

/// The option bytes of a header: from byte 20 to the announced header
/// length, and empty where the announced length is at most 20.
pub open spec fn tcp_option_span(data: Seq<u8>) -> Seq<u8> {
    if tcp_announced_len(data) > 20 {
        data.subrange(20, tcp_announced_len(data))
    } else {
        Seq::empty()
    }
}

/// The header that the leading bytes of `data` encode.
pub open spec fn tcp_decode(data: Seq<u8>) -> TcpHeaderView {
    TcpHeaderView {
        src_port: u16_at(data, 0),
        dst_port: u16_at(data, 2),
        seq_num: u32_at(data, 4),
        ack_num: u32_at(data, 8),
        data_offset: ((u16_at(data, 12) >> 12) & 0x0F) as u8,
        flags: TcpFlags((u16_at(data, 12) & 0xFF) as u8),
        window_size: u16_at(data, 14),
        checksum: u16_at(data, 16),
        urgent_pointer: u16_at(data, 18),
        options: options_decode(tcp_option_span(data)),
    }
}

/// A header that obeys the wire limits: a data offset of 5 to 15, options
/// that parsing gives back, and option bytes that fit under the data
/// offset.
pub open spec fn tcp_well_formed(h: TcpHeaderView) -> bool {
    &&& 5 <= h.data_offset <= 15
    &&& forall|i: int| 0 <= i < h.options.len() ==> option_well_formed(#[trigger] h.options[i])
    &&& 20 + options_bytes(h.options).len() <= h.data_offset * 4
}

/// The pseudo-header that the TCP checksum covers ahead of the segment:
/// source address, destination address, a zero byte, protocol 6 and the
/// TCP length.
pub open spec fn pseudo_header_bytes(src_addr: u32, dst_addr: u32, tcp_length: u16) -> Seq<u8> {
    u32_be_bytes(src_addr) + u32_be_bytes(dst_addr) + seq![0u8, 6u8] + u16_be_bytes(tcp_length)
}

/// The TCP checksum of a header and payload between two addresses: the
/// checksum of pseudo-header, serialized header and payload, with the TCP
/// length kept modulo 2^16.
pub open spec fn tcp_checksum(h: TcpHeaderView, src_addr: u32, dst_addr: u32, payload: Seq<u8>)
    -> int {
    let segment = tcp_wire(h) + payload;
    checksum_of(
        pseudo_header_bytes(src_addr, dst_addr, (segment.len() % 0x1_0000) as u16) + segment,
    )
}

/// Appending one option to a list appends its wire form.
pub proof fn lemma_options_bytes_push(options: Seq<TcpOptionView>, option: TcpOptionView)
    ensures
        options_bytes(options.push(option)) == options_bytes(options) + option_bytes(option),
    decreases options.len(),
{
    let pushed = options.push(option);
    if options.len() == 0 {
        assert(pushed.skip(1) =~= Seq::<TcpOptionView>::empty());
        assert(options_bytes(pushed.skip(1)) =~= Seq::<u8>::empty());
        assert(options_bytes(pushed) =~= option_bytes(option));
        assert(options_bytes(options) + option_bytes(option) =~= option_bytes(option));
    } else {
        lemma_options_bytes_push(options.skip(1), option);
        assert(pushed.skip(1) =~= options.skip(1).push(option));
        assert(pushed[0] == options[0]);
        assert(options_bytes(pushed) =~= options_bytes(options) + option_bytes(option));
    }
}

/// Decoding the wire form of well-formed options gives the options back,
/// provided that what follows them is nothing or starts with a zero byte.
pub proof fn lemma_options_roundtrip(options: Seq<TcpOptionView>, tail: Seq<u8>)
    requires
        forall|i: int| 0 <= i < options.len() ==> option_well_formed(#[trigger] options[i]),
        tail.len() == 0 || tail[0] == 0,
    ensures
        options_decode(options_bytes(options) + tail) == options,
    decreases options.len(),
{
    let data = options_bytes(options) + tail;
    if options.len() == 0 {
        assert(data =~= tail);
        assert(options_decode(data) =~= options);
    } else {
        let first = options[0];
        let rest = options.skip(1);
        let after = options_bytes(rest) + tail;
        assert(data =~= option_bytes(first) + after);
        lemma_option_roundtrip(first, after);
        assert(data.skip(option_bytes(first).len() as int) =~= after);
        assert forall|i: int| 0 <= i < rest.len() implies option_well_formed(
            #[trigger] rest[i],
        ) by {
            assert(rest[i] == options[i + 1]);
        }
        lemma_options_roundtrip(rest, tail);
        assert(seq![first] + rest =~= options);
    }
}

proof fn lemma_offset_flags(data_offset: u8, flags: u8)
    by (bit_vector)
    requires
        data_offset < 16,
    ensures
        (((((data_offset as u16) << 12) | (flags as u16)) >> 12) & 0x0F) as u8 == data_offset,
        ((((data_offset as u16) << 12) | (flags as u16)) >> 12) & 0x0F == data_offset as u16,
        ((((data_offset as u16) << 12) | (flags as u16)) & 0xFF) as u8 == flags,
{
}

/// The fixed fields that decoding reads from bytes that start with the
/// fixed bytes of `h`.
proof fn lemma_tcp_fixed_fields(h: TcpHeaderView, data: Seq<u8>)
    requires
        data.len() >= 20,
        forall|i: int| 0 <= i < 20 ==> data[i] == tcp_fixed_bytes(h)[i],
        h.data_offset <= 15,
    ensures
        u16_at(data, 0) == h.src_port,
        u16_at(data, 2) == h.dst_port,
        u32_at(data, 4) == h.seq_num,
        u32_at(data, 8) == h.ack_num,
        u16_at(data, 12) == offset_flags_word(h.data_offset, h.flags.0),
        ((u16_at(data, 12) >> 12) & 0x0F) as u8 == h.data_offset,
        tcp_announced_len(data) == h.data_offset * 4,
        (u16_at(data, 12) & 0xFF) as u8 == h.flags.0,
        u16_at(data, 14) == h.window_size,
        u16_at(data, 16) == 0,
        u16_at(data, 18) == h.urgent_pointer,
{
    let fixed = tcp_fixed_bytes(h);
    assert(data[0] == fixed[0] && data[1] == fixed[1] && data[2] == fixed[2] && data[3]
        == fixed[3]);
    assert(data[4] == fixed[4] && data[5] == fixed[5] && data[6] == fixed[6] && data[7]
        == fixed[7]);
    assert(data[8] == fixed[8] && data[9] == fixed[9] && data[10] == fixed[10] && data[11]
        == fixed[11]);
    assert(data[12] == fixed[12] && data[13] == fixed[13] && data[14] == fixed[14] && data[15]
        == fixed[15]);
    assert(data[16] == fixed[16] && data[17] == fixed[17] && data[18] == fixed[18] && data[19]
        == fixed[19]);
    lemma_offset_flags(h.data_offset, h.flags.0);
    lemma_be_roundtrip(h.src_port, h.seq_num);
    lemma_be_roundtrip(h.dst_port, h.ack_num);
    lemma_be_roundtrip(offset_flags_word(h.data_offset, h.flags.0), 0);
    lemma_be_roundtrip(h.window_size, 0);
    lemma_be_roundtrip(h.urgent_pointer, 0);
    lemma_be_roundtrip(0, 0);
}

/// Parsing the serialized form of a well-formed header gives the header
/// back, with a zero checksum field and no payload.
pub proof fn lemma_tcp_roundtrip(h: TcpHeaderView)
    requires
        tcp_well_formed(h),
    ensures
        tcp_wire(h).len() == h.data_offset * 4,
        tcp_parsable(tcp_wire(h)),
        tcp_announced_len(tcp_wire(h)) == h.data_offset * 4,
        tcp_decode(tcp_wire(h)) == (TcpHeaderView { checksum: 0, ..h }),
{
    let w = tcp_wire(h);
    let fixed = tcp_fixed_bytes(h);
    let opts = options_bytes(h.options);
    let pad = zero_padding(h.data_offset * 4 - 20 - opts.len());
    assert(fixed.len() == 20);
    assert(w =~= fixed + (opts + pad));
    assert forall|i: int| 0 <= i < 20 implies w[i] == fixed[i] by {}
    lemma_tcp_fixed_fields(h, w);
    assert(tcp_announced_len(w) == h.data_offset * 4);
    lemma_options_roundtrip(h.options, pad);
    if h.data_offset > 5 {
        assert(tcp_option_span(w) =~= opts + pad);
    } else {
        assert(tcp_option_span(w) =~= Seq::<u8>::empty());
        assert(opts + pad =~= Seq::<u8>::empty());
    }
    let d = tcp_decode(w);
    assert(d.options == h.options);
    assert(d.flags == h.flags);
}

impl TcpHeader {
    pub const MIN_SIZE: usize = 20;

    /// A header without flags or options: data offset 5, window 65535.
    pub fn new(src_port: u16, dst_port: u16) -> (result: Self)
        ensures
            result@ == (TcpHeaderView {
                src_port,
                dst_port,
                seq_num: 0,
                ack_num: 0,
                data_offset: 5,
                flags: TcpFlags(0),
                window_size: 65535,
                checksum: 0,
                urgent_pointer: 0,
                options: Seq::empty(),
            }),
            tcp_well_formed(result@),
    {
        let result = Self {
            src_port,
            dst_port,
            seq_num: 0,
            ack_num: 0,
            data_offset: 5,
            flags: TcpFlags::new(),
            window_size: 65535,
            checksum: 0,
            urgent_pointer: 0,
            options: Vec::new(),
        };
        assert(result@.options =~= Seq::empty());
        assert(options_bytes(result@.options) =~= Seq::empty());
        result
    }

    /// The options that open a connection, in the order they are sent:
    /// maximum segment size, SACK-permitted, timestamp, window scale 7.
    pub open spec fn opening_options(mss: u16) -> Seq<TcpOptionView> {
        seq![
            TcpOptionView::MaximumSegmentSize(mss),
            TcpOptionView::SackPermitted,
            TcpOptionView::Timestamp { ts_val: 0, ts_ecr: 0 },
            TcpOptionView::WindowScale(7),
        ]
    }

    /// A SYN segment header with the opening options. The nineteen option
    /// bytes are padded to twenty, so the data offset is 10.
    pub fn syn(src_port: u16, dst_port: u16, seq_num: u32, mss: u16) -> (result: Self)
        ensures
            result@ == (TcpHeaderView {
                src_port,
                dst_port,
                seq_num,
                ack_num: 0,
                data_offset: 10,
                flags: TcpFlags(0x02),
                window_size: 65535,
                checksum: 0,
                urgent_pointer: 0,
                options: Self::opening_options(mss),
            }),
            tcp_well_formed(result@),
    {
        let mut header = Self::new(src_port, dst_port);
        header.seq_num = seq_num;
        header.flags = TcpFlags::new().with_syn();
        header.options = vec![
            TcpOption::MaximumSegmentSize(mss),
            TcpOption::SackPermitted,
            TcpOption::Timestamp { ts_val: 0, ts_ecr: 0 },
            TcpOption::WindowScale(7),
        ];
        header.data_offset = 10;
        proof {
            assert(0u8 | 0x02u8 == 0x02u8) by (bit_vector);
            assert(header@.options =~= Self::opening_options(mss));
            Self::lemma_opening_options_len(mss);
        }
        header
    }

    /// The opening options take nineteen bytes on the wire.
    pub proof fn lemma_opening_options_len(mss: u16)
        ensures
            options_bytes(Self::opening_options(mss)).len() == 19,
    {
        let o = Self::opening_options(mss);
        reveal_with_fuel(options_bytes, 5);
        assert(o.skip(1).skip(1).skip(1).skip(1).len() == 0);
        assert(o.skip(1)[0] == o[1]);
        assert(o.skip(1).skip(1)[0] == o[2]);
        assert(o.skip(1).skip(1).skip(1)[0] == o[3]);
    }

    /// A SYN+ACK segment header: the SYN header with ACK set and the
    /// acknowledgement number filled in.
    pub fn syn_ack(src_port: u16, dst_port: u16, seq_num: u32, ack_num: u32, mss: u16) -> (result:
        Self)
        ensures
            result@ == (TcpHeaderView {
                src_port,
                dst_port,
                seq_num,
                ack_num,
                data_offset: 10,
                flags: TcpFlags(0x12),
                window_size: 65535,
                checksum: 0,
                urgent_pointer: 0,
                options: Self::opening_options(mss),
            }),
            tcp_well_formed(result@),
    {
        let mut header = Self::syn(src_port, dst_port, seq_num, mss);
        header.flags = header.flags.with_ack();
        header.ack_num = ack_num;
        proof {
            assert(0x02u8 | 0x10u8 == 0x12u8) by (bit_vector);
        }
        header
    }

    pub fn header_len(&self) -> (result: usize)
        ensures
            result == self.data_offset * 4,
    {
        (self.data_offset as usize) * 4
    }

    /// Number of bytes that the data offset leaves for options.
    pub fn options_len(&self) -> (result: usize)
        requires
            self.data_offset >= 5,
        ensures
            result == self.data_offset * 4 - 20,
    {
        self.header_len() - Self::MIN_SIZE
    }

    /// Emits the header in network order, its checksum field zero.
    pub fn serialize(&self) -> (bytes: Vec<u8>)
        ensures
            bytes@ == tcp_wire(self@),
    {
        let mut buf: Vec<u8> = Vec::with_capacity(self.header_len());

        put_u16_be(&mut buf, self.src_port);
        put_u16_be(&mut buf, self.dst_port);
        put_u32_be(&mut buf, self.seq_num);
        put_u32_be(&mut buf, self.ack_num);

        let data_offset_flags: u16 = ((self.data_offset as u16) << 12) | (self.flags.0 as u16);
        put_u16_be(&mut buf, data_offset_flags);

        put_u16_be(&mut buf, self.window_size);
        put_u16_be(&mut buf, 0);
        put_u16_be(&mut buf, self.urgent_pointer);
        assert(buf@ =~= tcp_fixed_bytes(self@));

        let ghost all = options_view(self.options@);
        let mut i: usize = 0;
        while i < self.options.len()
            invariant
                i <= self.options@.len(),
                all == options_view(self.options@),
                buf@ == tcp_fixed_bytes(self@) + options_bytes(all.take(i as int)),
            decreases self.options@.len() - i,
        {
            let mut piece: Vec<u8> = self.options[i].serialize();
            proof {
                lemma_options_bytes_push(all.take(i as int), all[i as int]);
                assert(all.take(i as int).push(all[i as int]) =~= all.take(i as int + 1));
            }
            buf.append(&mut piece);
            assert(buf@ =~= tcp_fixed_bytes(self@) + options_bytes(all.take(i as int + 1)));
            i += 1;
        }
        assert(all.take(i as int) =~= all);
        let ghost body = buf@;

        let target: usize = self.header_len();
        while buf.len() < target
            invariant
                target == self.data_offset * 4,
                body.len() <= buf@.len(),
                buf@ == body + zero_padding(buf@.len() - body.len()),
                buf@.len() <= target || buf@.len() == body.len(),
            decreases target - buf@.len(),
        {
            buf.push(0);
            assert(buf@ =~= body + zero_padding(buf@.len() - body.len()));
        }
        assert(buf@ =~= body + zero_padding(self.data_offset * 4 - body.len()));
        buf
    }

    /// Reads a header from the front of `data` and returns it with the
    /// bytes that follow it. Fails exactly when `data` has fewer than
    /// twenty bytes or is shorter than the header length that the data
    /// offset announces. Where the data offset is below 5 the header has no
    /// options and the returned bytes start at the announced length.
    pub fn parse(data: &[u8]) -> (result: Option<(Self, &[u8])>)
        ensures
            result is Some <==> tcp_parsable(data@),
            result matches Some((header, payload)) ==> {
                &&& header@ == tcp_decode(data@)
                &&& payload@ == data@.subrange(tcp_announced_len(data@), data@.len() as int)
            },
    {
        if data.len() < Self::MIN_SIZE {
            return None;
        }
        let src_port: u16 = match read_u16_be(data, 0) {
            Some(v) => v,
            None => { return None; },
        };
        let dst_port: u16 = match read_u16_be(data, 2) {
            Some(v) => v,
            None => { return None; },
        };
        let seq_num: u32 = match read_u32_be(data, 4) {
            Some(v) => v,
            None => { return None; },
        };
        let ack_num: u32 = match read_u32_be(data, 8) {
            Some(v) => v,
            None => { return None; },
        };
        let data_offset_flags: u16 = match read_u16_be(data, 12) {
            Some(v) => v,
            None => { return None; },
        };

        assert((data_offset_flags >> 12) & 0x0F <= 15 && data_offset_flags & 0xFF <= 255)
            by (bit_vector);
        let data_offset: u8 = ((data_offset_flags >> 12) & 0x0F) as u8;
        let flags: u8 = (data_offset_flags & 0xFF) as u8;

        let window_size: u16 = match read_u16_be(data, 14) {
            Some(v) => v,
            None => { return None; },
        };
        let checksum: u16 = match read_u16_be(data, 16) {
            Some(v) => v,
            None => { return None; },
        };
        let urgent_pointer: u16 = match read_u16_be(data, 18) {
            Some(v) => v,
            None => { return None; },
        };

        let header_len: usize = (data_offset as usize) * 4;
        if data.len() < header_len {
            return None;
        }
        let options_data: &[u8] = if header_len > Self::MIN_SIZE {
            slice_subrange(data, Self::MIN_SIZE, header_len)
        } else {
            slice_subrange(data, 0, 0)
        };
        assert(options_data@ =~= tcp_option_span(data@));

        let mut options: Vec<TcpOption> = Vec::new();
        let mut offset: usize = 0;
        assert(options_data@.skip(0) =~= options_data@);
        assert(options_view(options@) =~= Seq::empty());

        loop
            invariant_except_break
                offset <= options_data@.len(),
                options_decode(options_data@) == options_view(options@) + options_decode(
                    options_data@.skip(offset as int),
                ),
            ensures
                options_decode(options_data@) == options_view(options@),
            decreases options_data@.len() - offset,
        {
            let ghost done = options_view(options@);
            assert(done + Seq::<TcpOptionView>::empty() =~= done);
            if offset >= options_data.len() {
                assert(options_data@.skip(offset as int) =~= Seq::<u8>::empty());
                break ;
            }
            let rest: &[u8] = slice_subrange(options_data, offset, options_data.len());
            assert(rest@ =~= options_data@.skip(offset as int));
            proof {
                lemma_option_decode_bounds(rest@);
            }
            match TcpOption::parse(rest) {
                Some((option, len)) => {
                    if let TcpOption::EndOfList = option {
                        break ;
                    }
                    let ghost decoded = option@;
                    options.push(option);
                    proof {
                        assert(options_view(options@) =~= done.push(decoded));
                        assert(rest@.skip(len as int) =~= options_data@.skip(
                            offset as int + len as int,
                        ));
                        assert(done + (seq![decoded] + options_decode(rest@.skip(len as int)))
                            =~= done.push(decoded) + options_decode(rest@.skip(len as int)));
                    }
                    offset += len;
                },
                None => {
                    break ;
                },
            }
        }

        let payload: &[u8] = slice_subrange(data, header_len, data.len());

        let header = Self {
            src_port,
            dst_port,
            seq_num,
            ack_num,
            data_offset,
            flags: TcpFlags(flags),
            window_size,
            checksum,
            urgent_pointer,
            options,
        };

        Some((header, payload))
    }

    /// Computes the TCP checksum of this header and `payload` between the
    /// two addresses, over pseudo-header, serialized header and payload.
    pub fn calculate_checksum(&self, src_addr: u32, dst_addr: u32, payload: &[u8]) -> (result: u16)
        ensures
            result == tcp_checksum(self@, src_addr, dst_addr, payload@),
    {
        let header_bytes: Vec<u8> = self.serialize();

        let mut total: Vec<u8> = Vec::with_capacity(12);
        push_u32_be(&mut total, src_addr);
        push_u32_be(&mut total, dst_addr);
        total.push(0);
        total.push(6);
        let tcp_len: u16 = (header_bytes.len().wrapping_add(payload.len()) % 0x1_0000) as u16;
        proof {
            let a = header_bytes@.len() as int;
            let b = payload@.len() as int;
            assert(tcp_len == (a + b) % 0x1_0000) by {
                let m = usize::MAX as int + 1;
                assert(m == 0x1_0000_0000 || m == 0x1_0000_0000_0000_0000);
                if a + b >= m {
                    assert((a + b - m) % 0x1_0000 == (a + b) % 0x1_0000) by (nonlinear_arith)
                        requires
                            m == 0x1_0000_0000 || m == 0x1_0000_0000_0000_0000,
                    ;
                }
            }
        }
        push_u16_be(&mut total, tcp_len);
        assert(total@ =~= pseudo_header_bytes(src_addr, dst_addr, tcp_len));

        let mut i: usize = 0;
        while i < header_bytes.len()
            invariant
                i <= header_bytes@.len(),
                total@ == pseudo_header_bytes(src_addr, dst_addr, tcp_len) + header_bytes@.take(
                    i as int,
                ),
            decreases header_bytes@.len() - i,
        {
            total.push(header_bytes[i]);
            i += 1;
            assert(total@ =~= pseudo_header_bytes(src_addr, dst_addr, tcp_len)
                + header_bytes@.take(i as int));
        }
        assert(header_bytes@.take(i as int) =~= header_bytes@);
        let mut j: usize = 0;
        while j < payload.len()
            invariant
                j <= payload@.len(),
                total@ == pseudo_header_bytes(src_addr, dst_addr, tcp_len) + header_bytes@
                    + payload@.take(j as int),
            decreases payload@.len() - j,
        {
            total.push(payload[j]);
            j += 1;
            assert(total@ =~= pseudo_header_bytes(src_addr, dst_addr, tcp_len) + header_bytes@
                + payload@.take(j as int));
        }
        assert(payload@.take(j as int) =~= payload@);
        assert(total@ =~= pseudo_header_bytes(src_addr, dst_addr, tcp_len) + (header_bytes@
            + payload@));

        crate::utils::checksum::calculate_checksum(total.as_slice())
    }
}

} // verus!
