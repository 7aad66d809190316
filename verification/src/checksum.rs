//! The Internet checksum (RFC 1071).

use vstd::prelude::*;

use crate::bytes;

verus! {

/// Sum of the big-endian 16-bit words of `s`; an odd last byte counts as the
/// high half of a word.
pub open spec fn word_sum(s: Seq<u8>) -> nat
    decreases s.len(),
{
    if s.len() == 0 {
        0
    } else if s.len() == 1 {
        (s[0] * 256) as nat
    } else {
        bytes::be16(s[0], s[1]) as nat + word_sum(s.skip(2))
    }
}

/// Ones' complement reduction of `x` to 16 bits: the number in `1..=65535`
/// congruent to `x` modulo 65535, and zero only for zero.
pub open spec fn ones_fold(x: nat) -> nat {
    if x == 0 {
        0
    } else {
        ((x - 1) % 65535 + 1) as nat
    }
}

/// The Internet checksum of `s`: the complement of the ones' complement sum.
pub open spec fn checksum(s: Seq<u8>) -> u16 {
    (65535 - ones_fold(word_sum(s))) as u16
}

/// The plain word sum of `s` fits the 32-bit accumulator.
pub open spec fn sum_fits(s: Seq<u8>) -> bool {
    word_sum(s) <= u32::MAX
}

/// Compute Internet checksum (RFC 1071) over a byte slice.
pub fn internet_checksum(data: &[u8]) -> (r: u16)
    requires
        sum_fits(data@),
    ensures
        r == checksum(data@),
{
    let mut sum: u32 = 0;
    let mut i: usize = 0;
    proof {
        assert(data@.skip(0) =~= data@);
    }
    while data.len() - i >= 2
        invariant
            i <= data.len(),
            sum + word_sum(data@.skip(i as int)) == word_sum(data@),
            sum_fits(data@),
        decreases data.len() - i,
    {
        proof {
            assert(data@.skip(i as int).skip(2) =~= data@.skip(i + 2));
        }
        sum = sum + bytes::join_be16(data[i], data[i + 1]) as u32;
        i = i + 2;
    }
    if i < data.len() {
        sum = sum + (data[i] as u32) * 256;
    }
    assert(sum == word_sum(data@));
    while sum / 0x1_0000 != 0
        invariant
            ones_fold(sum as nat) == ones_fold(word_sum(data@)),
        decreases sum,
    {
        proof {
            lemma_fold_step(sum as nat);
        }
        sum = sum % 0x1_0000 + sum / 0x1_0000;
    }
    65535 - sum as u16
}

/// Tests whether the plain word sum of `data` fits the 32-bit accumulator.
pub fn can_sum(data: &[u8]) -> (r: bool)
    ensures
        r == sum_fits(data@),
{
    let mut sum: u32 = 0;
    let mut i: usize = 0;
    proof {
        assert(data@.skip(0) =~= data@);
    }
    while data.len() - i >= 2
        invariant
            i <= data.len(),
            sum + word_sum(data@.skip(i as int)) == word_sum(data@),
        decreases data.len() - i,
    {
        proof {
            assert(data@.skip(i as int).skip(2) =~= data@.skip(i + 2));
        }
        match sum.checked_add(bytes::join_be16(data[i], data[i + 1]) as u32) {
            Some(next) => {
                sum = next;
            },
            None => {
                return false;
            },
        }
        i = i + 2;
    }
    if i < data.len() {
        sum.checked_add((data[i] as u32) * 256).is_some()
    } else {
        true
    }
}

/// One end-around-carry step keeps the folded value.
proof fn lemma_fold_step(x: nat)
    requires
        x >= 0x1_0000,
    ensures
        ones_fold(x % 0x1_0000 + x / 0x1_0000) == ones_fold(x),
{
    let q: int = x as int / 0x1_0000;
    let y: int = (x as int % 0x1_0000) + q;
    assert(x - 1 == 65535 * q + (y - 1));
    vstd::arithmetic::div_mod::lemma_mod_multiples_vanish(q, y - 1, 65535);
}

/// The word sum of a concatenation whose first part has even length is the sum
/// of the word sums.
pub(crate) proof fn lemma_word_sum_concat(a: Seq<u8>, b: Seq<u8>)
    requires
        a.len() % 2 == 0,
    ensures
        word_sum(a + b) == word_sum(a) + word_sum(b),
    decreases a.len(),
{
    if a.len() == 0 {
        assert(a + b =~= b);
    } else {
        lemma_word_sum_concat(a.skip(2), b);
        assert((a + b).skip(2) =~= a.skip(2) + b);
    }
}

/// A word sum is at most 65535 for every two bytes.
pub(crate) proof fn lemma_word_sum_bound(s: Seq<u8>)
    ensures
        word_sum(s) <= 65535 * ((s.len() + 1) / 2),
    decreases s.len(),
{
    if s.len() >= 2 {
        lemma_word_sum_bound(s.skip(2));
    }
}

/// No data of up to 131074 bytes can overflow the 32-bit accumulator.
pub proof fn law_short_data_sum_fits(s: Seq<u8>)
    requires
        s.len() <= 131074,
    ensures
        sum_fits(s),
{
    lemma_word_sum_bound(s);
}

/// Data that carries its own checksum in a zeroed, even-aligned field sums to
/// all ones, so a receiver computes checksum zero over it.
pub proof fn law_checksum_verifies(a: Seq<u8>, b: Seq<u8>)
    requires
        a.len() % 2 == 0,
    ensures
        checksum(a + bytes::be16_bytes(checksum(a + bytes::be16_bytes(0) + b)) + b) == 0,
{
    let w = word_sum(a + bytes::be16_bytes(0) + b);
    let c = checksum(a + bytes::be16_bytes(0) + b);
    lemma_field_sum(a, 0, b);
    lemma_field_sum(a, c, b);
    assert(word_sum(a + bytes::be16_bytes(c) + b) == w + c);
    if w > 0 {
        let q: int = (w - 1) / 65535;
        assert(w + c - 1 == 65535 * q + 65534);
        vstd::arithmetic::div_mod::lemma_mod_multiples_vanish(q, 65534, 65535);
    }
}

/// The word sum of data with a 16-bit field `v` at an even offset.
pub(crate) proof fn lemma_field_sum(a: Seq<u8>, v: u16, b: Seq<u8>)
    requires
        a.len() % 2 == 0,
    ensures
        word_sum(a + bytes::be16_bytes(v) + b) == word_sum(a) + v + word_sum(b),
{
    let f = bytes::be16_bytes(v);
    assert(f.skip(2) =~= Seq::<u8>::empty());
    assert(word_sum(f.skip(2)) == 0);
    assert(word_sum(f) == v);
    lemma_word_sum_concat(a, f);
    lemma_word_sum_concat(a + f, b);
}

/// A word sum adds up big-endian words from the front, and counts an odd last
/// byte as the high half of a word.
pub proof fn law_word_sum_adds_words(a: u8, b: u8, rest: Seq<u8>)
    ensures
        word_sum(Seq::<u8>::empty()) == 0,
        word_sum(seq![a]) == a * 256,
        word_sum(seq![a, b] + rest) == a * 256 + b + word_sum(rest),
{
    let s = seq![a, b] + rest;
    assert(s.skip(2) =~= rest);
    assert(s[0] == a && s[1] == b);
}

/// The checksum is what the word sum lacks to a multiple of 65535, and is all
/// ones only for data that sums to zero.
pub proof fn law_checksum_completes_the_sum(s: Seq<u8>)
    ensures
        (word_sum(s) + checksum(s)) % 65535 == 0,
        checksum(s) == 65535 <==> word_sum(s) == 0,
{
    let w = word_sum(s) as int;
    if w > 0 {
        let q = (w - 1) / 65535;
        let r = (w - 1) % 65535;
        assert(w == 65535 * q + r + 1);
        assert(w + checksum(s) == 65535 * (q + 1));
        vstd::arithmetic::div_mod::lemma_mod_multiples_basic(q + 1, 65535);
    }
}

/// The accumulator has room for sums below two to the power of 32, and no more.
pub proof fn law_sum_fits_32_bits(s: Seq<u8>)
    ensures
        sum_fits(s) <==> word_sum(s) < 0x1_0000_0000,
{
}

} // verus!
