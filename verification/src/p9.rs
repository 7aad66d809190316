//! The version handshake of the 9P protocol.

use vstd::prelude::*;
use vstd::string::*;

use crate::bytes;
use crate::ring;

verus! {

pub const TVERSION: u8 = 100;

pub const RVERSION: u8 = 101;

pub const NOTAG: u16 = 0xffff;

/// Bytes before the version string: size, type, tag, message size, length.
pub const FIXED_LEN: usize = 13;

/// The little-endian bytes of a 32-bit number.
pub open spec fn le32_bytes(n: u32) -> Seq<u8> {
    seq![
        (n % 256) as u8,
        (n / 256 % 256) as u8,
        (n / 0x1_0000 % 256) as u8,
        (n / 0x100_0000) as u8,
    ]
}

/// The 32-bit number that four little-endian bytes stand for.
pub open spec fn le32_at(d: Seq<u8>, at: int) -> int {
    d[at] + d[at + 1] * 256 + d[at + 2] * 0x1_0000 + d[at + 3] * 0x100_0000
}

/// A version message of the given type.
pub open spec fn version_message(message_type: u8, msize: u32, version: Seq<u8>) -> Seq<u8> {
    le32_bytes((FIXED_LEN + version.len()) as u32) + seq![message_type, 0xffu8, 0xff] + le32_bytes(
        msize,
    ) + seq![(version.len() as int % 256) as u8, (version.len() as int / 256) as u8] + version
}

fn push_le32(out: &mut Vec<u8>, n: u32)
    ensures
        final(out)@ == old(out)@ + le32_bytes(n),
{
    let ghost before = out@;
    out.push((n % 256) as u8);
    out.push((n / 256 % 256) as u8);
    out.push((n / 0x1_0000 % 256) as u8);
    out.push((n / 0x100_0000) as u8);
    assert(out@ =~= before + le32_bytes(n));
}

/// Writes a version request to the start of `buf` and returns its length, or
/// nothing where the version string is too long or the request does not fit.
pub fn build_tversion_request(buf: &mut [u8], msize: u32, version: &str) -> (r: Option<usize>)
    ensures
        ({
            let v = version.spec_bytes();
            let n = FIXED_LEN + v.len();
            if v.len() <= u16::MAX && n <= old(buf)@.len() {
                &&& r == Some(n as usize)
                &&& final(buf)@ == version_message(TVERSION, msize, v) + old(buf)@.skip(n as int)
            } else {
                &&& r is None
                &&& final(buf)@ == old(buf)@
            }
        }),
{
    let ghost before = buf@;
    let name = version.as_bytes();
    if name.len() > 0xffff {
        return None;
    }
    let size: usize = FIXED_LEN + name.len();
    if buf.len() < size {
        return None;
    }
    let mut out: Vec<u8> = Vec::new();
    push_le32(&mut out, size as u32);
    out.push(TVERSION);
    out.push(0xff);
    out.push(0xff);
    push_le32(&mut out, msize);
    out.push((name.len() % 256) as u8);
    out.push((name.len() / 256) as u8);
    bytes::push_all(&mut out, name);
    assert(out@ =~= version_message(TVERSION, msize, name@));
    ring::write_at(buf, 0, &out);
    assert(buf@ =~= out@ + before.skip(size as int));
    Some(size)
}

/// What a version response says: the message size, and the version string.
pub open spec fn rversion(resp: Seq<u8>) -> Option<(int, Seq<u8>)> {
    let size = le32_at(resp, 0);
    let version_len = bytes::le16(resp[11], resp[12]) as int;
    let version = resp.subrange(13, 13 + version_len);
    if resp.len() < 7 || resp[4] != RVERSION || bytes::le16(resp[5], resp[6]) != NOTAG {
        None
    } else if size < FIXED_LEN || size > resp.len() || 13 + version_len > size {
        None
    } else if !vstd::utf8::valid_utf8(version) {
        None
    } else {
        Some((le32_at(resp, 7), version))
    }
}

/// Calls `core::str::from_utf8`, which accepts a byte string just where it is
/// valid UTF-8.
#[verifier::external_body]
fn is_utf8(data: &[u8]) -> (r: bool)
    ensures
        r == vstd::utf8::valid_utf8(data@),
{
    core::str::from_utf8(data).is_ok()
}

fn join_le32(a: u8, b: u8, c: u8, d: u8) -> (r: u32)
    ensures
        r == a + b * 256 + c * 0x1_0000 + d * 0x100_0000,
{
    a as u32 + b as u32 * 256 + c as u32 * 0x1_0000 + d as u32 * 0x100_0000
}

/// Reads a version response: the message size and the version string, or
/// nothing where the response is not a complete version response.
pub fn parse_rversion_response(resp: &[u8]) -> (r: Option<(u32, Vec<u8>)>)
    ensures
        match rversion(resp@) {
            Some((msize, version)) => r matches Some(m) && m.0 == msize && m.1@ == version,
            None => r is None,
        },
{
    if resp.len() < 7 {
        return None;
    }
    if resp[4] != RVERSION || bytes::join_le16(resp[5], resp[6]) != NOTAG {
        return None;
    }
    let size: usize = join_le32(resp[0], resp[1], resp[2], resp[3]) as usize;
    if size < FIXED_LEN || size > resp.len() {
        return None;
    }
    let msize = join_le32(resp[7], resp[8], resp[9], resp[10]);
    let version_len: usize = bytes::join_le16(resp[11], resp[12]) as usize;
    if version_len > size - FIXED_LEN {
        return None;
    }
    let version = bytes::slice_to_vec(resp, 13, 13 + version_len);
    if !is_utf8(&version) {
        return None;
    }
    Some((msize, version))
}

/// A response that was laid out like a request is read back.
pub proof fn law_version_round_trip(msize: u32, version: Seq<u8>)
    requires
        version.len() <= u16::MAX,
        vstd::utf8::valid_utf8(version),
    ensures
        rversion(version_message(RVERSION, msize, version)) == Some((msize as int, version)),
{
    let m = version_message(RVERSION, msize, version);
    let n = (FIXED_LEN + version.len()) as u32;
    assert(m.len() == 13 + version.len());
    assert(m[0] == n % 256 && m[1] == n / 256 % 256 && m[2] == n / 0x1_0000 % 256 && m[3] == n
        / 0x100_0000);
    assert(le32_at(m, 0) == n);
    assert(m[4] == RVERSION && m[5] == 0xff && m[6] == 0xff);
    assert(le32_at(m, 7) == msize);
    assert(m[11] == version.len() as int % 256 && m[12] == version.len() as int / 256);
    assert(m.subrange(13, 13 + version.len() as int) =~= version);
}

/// The bytes of a version message: its size, its type, the tag 0xffff, the
/// message size, and the version with its length in front, all numbers with the
/// least significant byte first.
pub proof fn law_version_message_layout(message_type: u8, msize: u32, version: Seq<u8>)
    requires
        version.len() <= 0xffff,
    ensures
        ({
            let m = version_message(message_type, msize, version);
            &&& m.len() == 13 + version.len()
            &&& m[0] + 256 * (m[1] + 256 * (m[2] + 256 * m[3])) == m.len()
            &&& m[4] == message_type
            &&& m[5] == 255 && m[6] == 255
            &&& m[7] + 256 * (m[8] + 256 * (m[9] + 256 * m[10])) == msize
            &&& m[11] + 256 * m[12] == version.len()
            &&& m.skip(13) == version
        }),
{
    let m = version_message(message_type, msize, version);
    let a = le32_bytes((FIXED_LEN + version.len()) as u32);
    let b = le32_bytes(msize);
    assert(a.len() == 4 && b.len() == 4);
    assert(m[0] == a[0] && m[1] == a[1] && m[2] == a[2] && m[3] == a[3]);
    assert(m[7] == b[0] && m[8] == b[1] && m[9] == b[2] && m[10] == b[3]);
    assert(m.skip(13) =~= version);
}

/// A version reply is taken just where it has type 101 and tag 0xffff, the size
/// that it announces covers at least its fixed part and at most what arrived,
/// and its version lies within that size and is UTF-8; it then gives the message
/// size and the version.
pub proof fn law_version_reply_fields(resp: Seq<u8>)
    requires
        resp.len() >= 13,
    ensures
        ({
            let size = resp[0] + 256 * (resp[1] + 256 * (resp[2] + 256 * resp[3]));
            let n = resp[11] + 256 * resp[12];
            let version = resp.subrange(13, 13 + n);
            &&& rversion(resp) is Some <==> {
                &&& resp[4] == 101
                &&& resp[5] == 255 && resp[6] == 255
                &&& 13 <= size <= resp.len()
                &&& 13 + n <= size
                &&& vstd::utf8::valid_utf8(version)
            }
            &&& rversion(resp) is Some ==> rversion(resp) == Some(
                (resp[7] + 256 * (resp[8] + 256 * (resp[9] + 256 * resp[10])), version),
            )
        }),
{
}

/// A reply shorter than the fixed part of the message is not taken.
pub proof fn law_short_version_reply(resp: Seq<u8>)
    requires
        resp.len() < 13,
    ensures
        rversion(resp) is None,
{
}

} // verus!
