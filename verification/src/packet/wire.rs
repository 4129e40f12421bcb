//! Big-endian wire encoding of 16-bit and 32-bit fields.

use byteorder::{BigEndian, ReadBytesExt, WriteBytesExt};
use vstd::prelude::*;

verus! {

/// The two bytes of `n` in network order.
pub open spec fn u16_be_bytes(n: u16) -> Seq<u8> {
    seq![(n / 256) as u8, (n % 256) as u8]
}

/// The four bytes of `n` in network order.
pub open spec fn u32_be_bytes(n: u32) -> Seq<u8> {
    seq![
        (n / 0x100_0000) as u8,
        (n / 0x1_0000 % 256) as u8,
        (n / 256 % 256) as u8,
        (n % 256) as u8,
    ]
}

/// The 16-bit value whose network-order bytes are `hi`, `lo`.
pub open spec fn u16_from_be(hi: u8, lo: u8) -> u16 {
    (hi as int * 256 + lo as int) as u16
}

/// The 32-bit value whose network-order bytes are `b0` to `b3`.
pub open spec fn u32_from_be(b0: u8, b1: u8, b2: u8, b3: u8) -> u32 {
    (b0 as int * 0x100_0000 + b1 as int * 0x1_0000 + b2 as int * 256 + b3 as int) as u32
}

/// The big-endian 16-bit field of `data` at byte offset `at`.
pub open spec fn u16_at(data: Seq<u8>, at: int) -> u16 {
    u16_from_be(data[at], data[at + 1])
}

/// The big-endian 32-bit field of `data` at byte offset `at`.
pub open spec fn u32_at(data: Seq<u8>, at: int) -> u32 {
    u32_from_be(data[at], data[at + 1], data[at + 2], data[at + 3])
}

/// Reading back the network-order bytes of a value gives the value.
pub proof fn lemma_be_roundtrip(a: u16, b: u32)
    ensures
        u16_from_be(u16_be_bytes(a)[0], u16_be_bytes(a)[1]) == a,
        u32_from_be(u32_be_bytes(b)[0], u32_be_bytes(b)[1], u32_be_bytes(b)[2], u32_be_bytes(b)[3])
            == b,
{
}

/// Calls `WriteBytesExt::write_u8` of the `byteorder` crate on a vector.
/// The crate writes the one byte with `write_all`, which on a vector
/// appends and never fails.
#[verifier::external_body]
pub(crate) fn put_u8(buf: &mut Vec<u8>, n: u8)
    ensures
        final(buf)@ == old(buf)@.push(n),
{
    buf.write_u8(n).unwrap();
}

/// Calls `WriteBytesExt::write_u16::<BigEndian>` of the `byteorder` crate
/// on a vector. The crate encodes `n` with `to_be_bytes` and writes the
/// two bytes with `write_all`, which on a vector appends and never fails.
#[verifier::external_body]
pub(crate) fn put_u16_be(buf: &mut Vec<u8>, n: u16)
    ensures
        final(buf)@ == old(buf)@ + u16_be_bytes(n),
{
    buf.write_u16::<BigEndian>(n).unwrap();
}

/// Calls `WriteBytesExt::write_u32::<BigEndian>` of the `byteorder` crate
/// on a vector. The crate encodes `n` with `to_be_bytes` and writes the
/// four bytes with `write_all`, which on a vector appends and never fails.
#[verifier::external_body]
pub(crate) fn put_u32_be(buf: &mut Vec<u8>, n: u32)
    ensures
        final(buf)@ == old(buf)@ + u32_be_bytes(n),
{
    buf.write_u32::<BigEndian>(n).unwrap();
}

/// Calls `ReadBytesExt::read_u16::<BigEndian>` of the `byteorder` crate on
/// the bytes of `data` from offset `at`. The crate fills two bytes with
/// `read_exact`, which fails when fewer than two remain, and decodes them
/// with `from_be_bytes`.
#[verifier::external_body]
pub(crate) fn read_u16_be(data: &[u8], at: usize) -> (value: Option<u16>)
    requires
        at <= data@.len(),
    ensures
        value == (if at + 2 <= data@.len() {
            Some(u16_at(data@, at as int))
        } else {
            None
        }),
{
    let mut rest = &data[at..];
    rest.read_u16::<BigEndian>().ok()
}

/// Calls `ReadBytesExt::read_u32::<BigEndian>` of the `byteorder` crate on
/// the bytes of `data` from offset `at`. The crate fills four bytes with
/// `read_exact`, which fails when fewer than four remain, and decodes them
/// with `from_be_bytes`.
#[verifier::external_body]
pub(crate) fn read_u32_be(data: &[u8], at: usize) -> (value: Option<u32>)
    requires
        at <= data@.len(),
    ensures
        value == (if at + 4 <= data@.len() {
            Some(u32_at(data@, at as int))
        } else {
            None
        }),
{
    let mut rest = &data[at..];
    rest.read_u32::<BigEndian>().ok()
}

/// Joins two network-order bytes into a 16-bit value.
pub fn u16_from_be_bytes(hi: u8, lo: u8) -> (value: u16)
    ensures
        value == u16_from_be(hi, lo),
{
    let h: u16 = hi as u16;
    let l: u16 = lo as u16;
    assert((h << 8) | l == h * 256 + l) by (bit_vector)
        requires
            h < 256,
            l < 256,
    ;
    (h << 8) | l
}

/// Joins four network-order bytes into a 32-bit value.
pub fn u32_from_be_bytes(b0: u8, b1: u8, b2: u8, b3: u8) -> (value: u32)
    ensures
        value == u32_from_be(b0, b1, b2, b3),
{
    let x0: u32 = b0 as u32;
    let x1: u32 = b1 as u32;
    let x2: u32 = b2 as u32;
    let x3: u32 = b3 as u32;
    assert((x0 << 24) | (x1 << 16) | (x2 << 8) | x3 == x0 * 0x100_0000 + x1 * 0x1_0000 + x2 * 256
        + x3) by (bit_vector)
        requires
            x0 < 256,
            x1 < 256,
            x2 < 256,
            x3 < 256,
    ;
    (x0 << 24) | (x1 << 16) | (x2 << 8) | x3
}

/// Appends the two network-order bytes of `n` to `buf`.
pub fn push_u16_be(buf: &mut Vec<u8>, n: u16)
    ensures
        final(buf)@ == old(buf)@ + u16_be_bytes(n),
{
    assert((n >> 8) == n / 256 && (n & 0xFF) == n % 256) by (bit_vector);
    buf.push((n >> 8) as u8);
    buf.push((n & 0xFF) as u8);
    assert(buf@ =~= old(buf)@ + u16_be_bytes(n));
}

/// Appends the four network-order bytes of `n` to `buf`.
pub fn push_u32_be(buf: &mut Vec<u8>, n: u32)
    ensures
        final(buf)@ == old(buf)@ + u32_be_bytes(n),
{
    assert((n >> 24) == n / 0x100_0000 && ((n >> 16) & 0xFF) == n / 0x1_0000 % 256 && ((n >> 8)
        & 0xFF) == n / 256 % 256 && (n & 0xFF) == n % 256) by (bit_vector);
    buf.push((n >> 24) as u8);
    buf.push(((n >> 16) & 0xFF) as u8);
    buf.push(((n >> 8) & 0xFF) as u8);
    buf.push((n & 0xFF) as u8);
    assert(buf@ =~= old(buf)@ + u32_be_bytes(n));
}

} // verus!
