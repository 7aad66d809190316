//! TCP control flags.

use vstd::prelude::*;

verus! {

/// Every flag this stack knows.
pub const ALL_FLAGS: u8 = 0x1f;

/// FIN: the sender has finished sending.
pub const FIN: u8 = 0x01;

/// SYN: synchronise sequence numbers.
pub const SYN: u8 = 0x02;

/// RST: reset the connection.
pub const RST: u8 = 0x04;

/// PSH: push buffered data to the application.
pub const PSH: u8 = 0x08;

/// ACK: the acknowledgement number is valid.
pub const ACK: u8 = 0x10;

/// A set of TCP control flags.
#[derive(Debug, Clone, Copy, PartialEq, Eq, Structural)]
pub struct TcpFlags {
    pub bits: u8,
}

impl TcpFlags {
    /// Whether every flag of `other` is set in `self`.
    pub open spec fn has(self, other: u8) -> bool {
        self.bits & other == other
    }

    /// No flag at all.
    pub fn empty() -> (r: TcpFlags)
        ensures
            r.bits == 0,
    {
        TcpFlags { bits: 0 }
    }

    pub fn fin() -> (r: TcpFlags)
        ensures
            r.bits == FIN,
    {
        TcpFlags { bits: FIN }
    }

    pub fn syn() -> (r: TcpFlags)
        ensures
            r.bits == SYN,
    {
        TcpFlags { bits: SYN }
    }

    pub fn rst() -> (r: TcpFlags)
        ensures
            r.bits == RST,
    {
        TcpFlags { bits: RST }
    }

    pub fn psh() -> (r: TcpFlags)
        ensures
            r.bits == PSH,
    {
        TcpFlags { bits: PSH }
    }

    pub fn ack() -> (r: TcpFlags)
        ensures
            r.bits == ACK,
    {
        TcpFlags { bits: ACK }
    }

    /// The flags of a wire byte; bits that name no flag are dropped.
    pub fn from_bits_truncate(bits: u8) -> (r: TcpFlags)
        ensures
            r.bits == bits & ALL_FLAGS,
    {
        TcpFlags { bits: bits & ALL_FLAGS }
    }

    /// The wire byte of the set.
    pub fn bits(&self) -> (r: u8)
        ensures
            r == self.bits,
    {
        self.bits
    }

    /// Whether every flag of `other` is set in `self`.
    pub fn contains(&self, other: TcpFlags) -> (r: bool)
        ensures
            r == self.has(other.bits),
    {
        self.bits & other.bits == other.bits
    }

    /// The flags that are in either set.
    pub fn union(self, other: TcpFlags) -> (r: TcpFlags)
        ensures
            r.bits == self.bits | other.bits,
    {
        TcpFlags { bits: self.bits | other.bits }
    }
}

/// Truncation keeps every known flag and nothing else.
pub proof fn law_truncate_keeps_known_flags(bits: u8, flag: u8)
    requires
        flag & ALL_FLAGS == flag,
    ensures
        (bits & ALL_FLAGS) & flag == bits & flag,
        (bits & ALL_FLAGS) & !ALL_FLAGS == 0,
{
    assert(flag & 0x1f == flag ==> (bits & 0x1f) & flag == bits & flag) by (bit_vector);
    assert((bits & 0x1f) & !0x1fu8 == 0) by (bit_vector);
}

/// Each flag is one bit of the flag byte of a TCP header: FIN, SYN, RST, PSH and
/// ACK from the lowest up; the bits above are no flags.
pub proof fn law_flags_are_bits(bits: u8)
    ensures
        FIN == 1 && SYN == 2 && RST == 4 && PSH == 8 && ACK == 16,
        (TcpFlags { bits }).has(1) <==> bits % 2 == 1,
        (TcpFlags { bits }).has(2) <==> bits / 2 % 2 == 1,
        (TcpFlags { bits }).has(4) <==> bits / 4 % 2 == 1,
        (TcpFlags { bits }).has(8) <==> bits / 8 % 2 == 1,
        (TcpFlags { bits }).has(16) <==> bits / 16 % 2 == 1,
        bits & ALL_FLAGS == bits % 32,
        ACK | SYN == 18 && ACK | FIN == 17 && ACK | 0 == 16,
{
    assert((bits & 1 == 1) == (bits % 2 == 1) && (bits & 2 == 2) == (bits / 2 % 2 == 1) && (bits & 4
        == 4) == (bits / 4 % 2 == 1) && (bits & 8 == 8) == (bits / 8 % 2 == 1) && (bits & 16 == 16)
        == (bits / 16 % 2 == 1) && bits & 0x1f == bits % 32) by (bit_vector);
    assert(16u8 | 2 == 18 && 16u8 | 1 == 17 && 16u8 | 0 == 16) by (bit_vector);
}

/// A set of flags contains two flags together just where it contains each of
/// them, and it always contains none.
pub proof fn law_contains_each_flag(f: TcpFlags, a: u8, b: u8)
    ensures
        f.has(a | b) <==> f.has(a) && f.has(b),
        f.has(0),
{
    let bits = f.bits;
    assert((bits & (a | b) == (a | b)) == (bits & a == a && bits & b == b) && bits & 0 == 0)
        by (bit_vector);
}

} // verus!
