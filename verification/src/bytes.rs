//! Byte-order conversions between machine integers and wire bytes.

use vstd::prelude::*;

verus! {

/// The number written by two bytes, most significant first.
pub open spec fn be16(hi: u8, lo: u8) -> u16 {
    (hi * 256 + lo) as u16
}

/// The 16-bit big-endian number at offset `i` of `s`.
pub open spec fn be16_at(s: Seq<u8>, i: int) -> u16 {
    be16(s[i], s[i + 1])
}

/// The 32-bit big-endian number at offset `i` of `s`.
pub open spec fn be32_at(s: Seq<u8>, i: int) -> u32 {
    (s[i] * 0x100_0000 + s[i + 1] * 0x1_0000 + s[i + 2] * 0x100 + s[i + 3]) as u32
}

/// The two bytes of `v`, most significant first.
pub open spec fn be16_bytes(v: u16) -> Seq<u8> {
    seq![(v / 256) as u8, (v % 256) as u8]
}

/// The four bytes of `v`, most significant first.
pub open spec fn be32_bytes(v: u32) -> Seq<u8> {
    seq![
        (v / 0x100_0000) as u8,
        (v / 0x1_0000 % 256) as u8,
        (v / 0x100 % 256) as u8,
        (v % 256) as u8,
    ]
}

/// The number written by two bytes, least significant first.
pub open spec fn le16(lo: u8, hi: u8) -> u16 {
    (hi * 256 + lo) as u16
}

/// The low 16 bits of a length.
pub open spec fn low16(n: int) -> u16 {
    (n % 0x1_0000) as u16
}

/// Joins two bytes, most significant first.
pub fn join_be16(hi: u8, lo: u8) -> (v: u16)
    ensures
        v == be16(hi, lo),
{
    (hi as u16) * 256 + lo as u16
}

/// Joins four bytes, most significant first.
pub fn join_be32(a: u8, b: u8, c: u8, d: u8) -> (v: u32)
    ensures
        v == be32_at(seq![a, b, c, d], 0),
{
    (a as u32) * 0x100_0000 + (b as u32) * 0x1_0000 + (c as u32) * 0x100 + d as u32
}

/// Joins two bytes, least significant first.
pub fn join_le16(lo: u8, hi: u8) -> (v: u16)
    ensures
        v == le16(lo, hi),
{
    (hi as u16) * 256 + lo as u16
}

/// The low 16 bits of `n + k`, whatever the size of `n`.
pub fn to_low16_plus(n: usize, k: u8) -> (v: u16)
    ensures
        v == low16(n + k),
{
    ((n % 0x1_0000 + k as usize) % 0x1_0000) as u16
}

/// Appends `v` to `out`, most significant byte first.
pub fn push_be16(out: &mut Vec<u8>, v: u16)
    ensures
        final(out)@ == old(out)@ + be16_bytes(v),
{
    out.push((v / 256) as u8);
    out.push((v % 256) as u8);
}

/// Appends `v` to `out`, most significant byte first.
pub fn push_be32(out: &mut Vec<u8>, v: u32)
    ensures
        final(out)@ == old(out)@ + be32_bytes(v),
{
    out.push((v / 0x100_0000) as u8);
    out.push((v / 0x1_0000 % 256) as u8);
    out.push((v / 0x100 % 256) as u8);
    out.push((v % 256) as u8);
}

/// Appends the bytes of `data` to `out`.
pub fn push_all(out: &mut Vec<u8>, data: &[u8])
    ensures
        final(out)@ == old(out)@ + data@,
{
    let ghost before = out@;
    let mut i: usize = 0;
    while i < data.len()
        invariant
            i <= data.len(),
            out@ == before + data@.take(i as int),
        decreases data.len() - i,
    {
        out.push(data[i]);
        i = i + 1;
        proof {
            assert(data@.take(i as int) =~= data@.take(i - 1).push(data@[i - 1]));
        }
    }
    proof {
        assert(data@.take(data@.len() as int) =~= data@);
    }
}

/// The bytes `data[start..end]`.
pub fn slice_to_vec(data: &[u8], start: usize, end: usize) -> (out: Vec<u8>)
    requires
        start <= end <= data.len(),
    ensures
        out@ == data@.subrange(start as int, end as int),
{
    let mut out: Vec<u8> = Vec::new();
    let mut i: usize = start;
    while i < end
        invariant
            start <= i <= end <= data.len(),
            out@ == data@.subrange(start as int, i as int),
        decreases end - i,
    {
        out.push(data[i]);
        i = i + 1;
        proof {
            assert(data@.subrange(start as int, i as int) =~= data@.subrange(
                start as int,
                i - 1,
            ).push(data@[i - 1]));
        }
    }
    out
}

/// Splitting a 16-bit number into bytes and joining them again gives it back.
pub proof fn law_be16_round_trip(v: u16)
    ensures
        be16_bytes(v).len() == 2,
        be16_at(be16_bytes(v), 0) == v,
{
}

/// Splitting a 32-bit number into bytes and joining them again gives it back.
pub proof fn law_be32_round_trip(v: u32)
    ensures
        be32_bytes(v).len() == 4,
        be32_at(be32_bytes(v), 0) == v,
{
    let s = be32_bytes(v);
    assert(s[0] == v / 0x100_0000);
    assert(s[1] == v / 0x1_0000 % 256);
    assert(s[2] == v / 0x100 % 256);
    assert(s[3] == v % 256);
}

/// Numbers go over the wire with the most significant byte first: each byte
/// counts 256 times the one behind it. Only packet lengths in ring slots have
/// the least significant byte first.
pub proof fn law_bytes_are_positional(v: u16, w: u32, s: Seq<u8>, i: int, a: u8, b: u8)
    ensures
        be16_bytes(v).len() == 2,
        be16_bytes(v)[0] * 256 + be16_bytes(v)[1] == v,
        be32_bytes(w).len() == 4,
        ((be32_bytes(w)[0] * 256 + be32_bytes(w)[1]) * 256 + be32_bytes(w)[2]) * 256
            + be32_bytes(w)[3] == w,
        be16(a, b) == a * 256 + b,
        be16_at(s, i) == s[i] * 256 + s[i + 1],
        be32_at(s, i) == ((s[i] * 256 + s[i + 1]) * 256 + s[i + 2]) * 256 + s[i + 3],
        le16(a, b) == a + b * 256,
{
    assert(be32_bytes(w)[0] == w / 0x100_0000);
    assert(be32_bytes(w)[1] == w / 0x1_0000 % 256);
    assert(be32_bytes(w)[2] == w / 0x100 % 256);
    assert(be32_bytes(w)[3] == w % 256);
}

/// A length that does not fit 16 bits loses a multiple of 65536.
pub proof fn law_low16_keeps_the_low_bits(n: int)
    requires
        n >= 0,
    ensures
        (n - low16(n)) % 0x1_0000 == 0,
        n < 0x1_0000 ==> low16(n) == n,
{
}

} // verus!
