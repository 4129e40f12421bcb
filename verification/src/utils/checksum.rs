//! The Internet checksum: the 16-bit one's complement of the one's
//! complement sum of a byte span read as big-endian 16-bit words.

use vstd::prelude::*;

verus! {

/// The `i`-th big-endian 16-bit word of `data`. A final odd byte is the
/// high byte of its word; past the end every word is zero.
pub open spec fn word_at(data: Seq<u8>, i: int) -> nat {
    if 0 <= i && 2 * i + 1 < data.len() {
        (data[2 * i] as nat) * 256 + data[2 * i + 1] as nat
    } else if 0 <= i && 2 * i < data.len() {
        (data[2 * i] as nat) * 256
    } else {
        0
    }
}

/// Sum of the first `n` words of `data`.
pub open spec fn sum_words(data: Seq<u8>, n: nat) -> nat
    decreases n,
{
    if n == 0 {
        0
    } else {
        sum_words(data, (n - 1) as nat) + word_at(data, n - 1)
    }
}

/// Number of 16-bit words that cover `data`.
pub open spec fn word_count(data: Seq<u8>) -> nat {
    (data.len() + 1) / 2
}

/// Sum of all words of `data`, without any carry folded.
pub open spec fn word_sum(data: Seq<u8>) -> nat {
    sum_words(data, word_count(data))
}

/// Folds the carries above bit 15 back into the low 16 bits until none
/// remain.
pub open spec fn fold16(s: nat) -> nat
    decreases s,
{
    if s < 0x1_0000 {
        s
    } else {
        fold16(s % 0x1_0000 + s / 0x1_0000)
    }
}

/// The checksum of `data`: the complement of the folded word sum.
pub open spec fn checksum_of(data: Seq<u8>) -> int {
    0xFFFF - fold16(word_sum(data))
}

/// Unfolded sum of the TCP pseudo-header words: the two halves of each
/// address, the protocol number and the TCP length.
pub open spec fn pseudo_header_sum(src_addr: u32, dst_addr: u32, protocol: u8, tcp_length: u16) -> nat {
    (src_addr / 0x1_0000 + src_addr % 0x1_0000 + dst_addr / 0x1_0000 + dst_addr % 0x1_0000
        + protocol + tcp_length) as nat
}

/// Folding leaves zero at zero and maps every other sum to the value in
/// `1..=0xFFFF` that is congruent to it modulo `0xFFFF`.
pub proof fn lemma_fold16_closed_form(s: nat)
    ensures
        fold16(s) == (if s == 0 { 0 } else { (s - 1) % 0xFFFF + 1 }),
        fold16(s) <= 0xFFFF,
    decreases s,
{
    if s >= 0x1_0000 {
        let q = s / 0x1_0000;
        let r = s % 0x1_0000;
        let t = (r + q) as nat;
        assert(s == 0x1_0000 * q + r && q >= 1 && t < s && t >= 1) by (nonlinear_arith)
            requires
                s >= 0x1_0000,
                q == s / 0x1_0000,
                r == s % 0x1_0000,
                t == r + q,
        ;
        lemma_fold16_closed_form(t);
        assert((s - 1) % 0xFFFF == (t - 1) % 0xFFFF) by (nonlinear_arith)
            requires
                s == 0x1_0000 * q + r,
                t == r + q,
                t >= 1,
        ;
    }
}

/// One carry may be folded early without changing the folded total.
pub proof fn lemma_fold16_absorbs(s: nat, w: nat)
    ensures
        fold16(fold16(s) + w) == fold16(s + w),
{
    lemma_fold16_closed_form(s);
    lemma_fold16_closed_form(s + w);
    lemma_fold16_closed_form(fold16(s) + w);
    if s > 0 {
        let f = fold16(s);
        assert((f + w - 1) % 0xFFFF == (s + w - 1) % 0xFFFF) by (nonlinear_arith)
            requires
                s > 0,
                f == (s - 1) % 0xFFFF + 1,
        ;
    }
}

/// Writing the two bytes `hi`, `lo` over an aligned word of `data` changes
/// the word sum by the difference between the new and the old word.
pub proof fn lemma_sum_words_update(data: Seq<u8>, at: int, hi: u8, lo: u8, n: nat)
    requires
        0 <= at,
        at % 2 == 0,
        at + 1 < data.len(),
    ensures
        sum_words(data.update(at, hi).update(at + 1, lo), n) + (if at / 2 < n {
            word_at(data, at / 2)
        } else {
            0
        }) == sum_words(data, n) + (if at / 2 < n {
            hi as nat * 256 + lo as nat
        } else {
            0
        }),
    decreases n,
{
    if n > 0 {
        lemma_sum_words_update(data, at, hi, lo, (n - 1) as nat);
        let patched = data.update(at, hi).update(at + 1, lo);
        let i = n - 1;
        if i != at / 2 {
            assert(word_at(patched, i) == word_at(data, i));
        } else {
            assert(word_at(patched, i) == hi as nat * 256 + lo as nat);
        }
    }
}

/// A span whose aligned 16-bit checksum field holds zero, once its own
/// checksum is written into that field, sums to `0xFFFF` over the whole
/// span: a receiver that recomputes the checksum gets zero.
pub proof fn lemma_checksum_patch_verifies(data: Seq<u8>, at: int)
    requires
        0 <= at,
        at % 2 == 0,
        at + 1 < data.len(),
        data[at] == 0,
        data[at + 1] == 0,
    ensures
        0 <= checksum_of(data) <= 0xFFFF,
        ({
            let c = checksum_of(data);
            let patched = data.update(at, (c / 256) as u8).update(at + 1, (c % 256) as u8);
            &&& fold16(word_sum(patched)) == 0xFFFF
            &&& checksum_of(patched) == 0
        }),
{
    let s = word_sum(data);
    lemma_fold16_closed_form(s);
    let c = checksum_of(data);
    let hi = (c / 256) as u8;
    let lo = (c % 256) as u8;
    let patched = data.update(at, hi).update(at + 1, lo);
    lemma_sum_words_update(data, at, hi, lo, word_count(data));
    assert(word_at(data, at / 2) == 0);
    assert(hi as nat * 256 + lo as nat == c);
    assert(word_count(patched) == word_count(data));
    let total = word_sum(patched);
    assert(total == s + c);
    lemma_fold16_closed_form(total);
    if s > 0 {
        assert((s + (0xFFFF - ((s - 1) % 0xFFFF + 1)) - 1) % 0xFFFF == 0xFFFE) by (nonlinear_arith)
            requires
                s > 0,
        ;
    }
}

/// Trait for types that can calculate their own checksum.
pub trait CalculateChecksum {
    fn calculate_checksum(&self) -> u16;
}

/// Computes the Internet checksum of `data`.
pub fn calculate_checksum(data: &[u8]) -> (result: u16)
    ensures
        result == checksum_of(data@),
{
    let mut acc: u32 = 0;
    let mut i: usize = 0;
    while i < data.len()
        invariant
            i <= data.len(),
            i % 2 == 0 || i == data.len(),
            acc <= 0xFFFF,
            acc == fold16(sum_words(data@, ((i + 1) / 2) as nat)),
        decreases data.len() - i,
    {
        let ghost before = sum_words(data@, ((i + 1) / 2) as nat);
        let word: u32 = if i + 1 < data.len() {
            let hi: u32 = data[i] as u32;
            let lo: u32 = data[i + 1] as u32;
            assert((hi << 8) | lo == hi * 256 + lo) by (bit_vector)
                requires
                    hi < 256,
                    lo < 256,
            ;
            (hi << 8) | lo
        } else {
            let hi: u32 = data[i] as u32;
            assert(hi << 8 == hi * 256) by (bit_vector)
                requires
                    hi < 256,
            ;
            hi << 8
        };
        assert(word == word_at(data@, i as int / 2));
        let total: u32 = acc + word;
        proof {
            lemma_fold16_absorbs(before, word as nat);
            assert(i as int / 2 + 1 == (if i + 1 < data.len() {
                (i + 2 + 1) / 2
            } else {
                (i + 1 + 1) / 2
            }));
            assert(sum_words(data@, (i as int / 2 + 1) as nat) == before + word);
            assert((total & 0xFFFF) + (total >> 16) == total % 0x1_0000 + total / 0x1_0000)
                by (bit_vector);
            assert(total >= 0x1_0000 ==> total % 0x1_0000 + total / 0x1_0000 <= 0xFFFF) by (nonlinear_arith)
                requires
                    total <= 0x1_FFFE,
            ;
        }
        acc = if total > 0xFFFF {
            (total & 0xFFFF) + (total >> 16)
        } else {
            total
        };
        proof {
            let folded = (total % 0x1_0000 + total / 0x1_0000) as nat;
            assert(fold16(folded) == folded ==> fold16(total as nat) == acc) by {
                reveal_with_fuel(fold16, 2);
            }
            assert(fold16(total as nat) == fold16(before + word as nat));
        }
        i = if i + 1 < data.len() {
            i + 2
        } else {
            i + 1
        };
    }
    assert(((data.len() + 1) / 2) as nat == word_count(data@));
    let low: u16 = acc as u16;
    assert(!low == 0xFFFF - low) by (bit_vector);
    !low
}

/// Computes the folded sum of the TCP pseudo-header words. The result is
/// not complemented: it is a partial sum to be combined with the segment.
pub fn calculate_pseudo_header_checksum(
    src_addr: u32,
    dst_addr: u32,
    protocol: u8,
    tcp_length: u16,
) -> (result: u16)
    ensures
        result == fold16(pseudo_header_sum(src_addr, dst_addr, protocol, tcp_length)),
{
    assert(src_addr >> 16 == src_addr / 0x1_0000 && src_addr & 0xFFFF == src_addr % 0x1_0000)
        by (bit_vector);
    assert(dst_addr >> 16 == dst_addr / 0x1_0000 && dst_addr & 0xFFFF == dst_addr % 0x1_0000)
        by (bit_vector);
    let mut sum: u32 = 0;
    sum += src_addr >> 16;
    sum += src_addr & 0xFFFF;
    sum += dst_addr >> 16;
    sum += dst_addr & 0xFFFF;
    sum += protocol as u32;
    sum += tcp_length as u32;

    while (sum & 0xFFFF_0000) != 0
        invariant
            fold16(sum as nat) == fold16(pseudo_header_sum(src_addr, dst_addr, protocol, tcp_length)),
        decreases sum,
    {
        assert((sum & 0xFFFF_0000) != 0 ==> sum >= 0x1_0000) by (bit_vector);
        assert((sum & 0xFFFF) + (sum >> 16) == sum % 0x1_0000 + sum / 0x1_0000) by (bit_vector);
        assert(sum % 0x1_0000 + sum / 0x1_0000 < sum) by (nonlinear_arith)
            requires
                sum >= 0x1_0000,
        ;
        sum = (sum & 0xFFFF) + (sum >> 16);
    }
    assert((sum & 0xFFFF_0000) == 0 ==> sum < 0x1_0000) by (bit_vector);
    sum as u16
}

} // verus!
