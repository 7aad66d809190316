//! Network addresses.

use vstd::prelude::*;

use crate::bytes;

verus! {

/// IPv4 address (4 bytes).
#[derive(Debug, Clone, Copy)]
pub struct IPv4(pub [u8; 4]);

/// MAC address (6 bytes).
#[derive(Debug, Clone, Copy)]
pub struct MacAddress(pub [u8; 6]);

impl View for IPv4 {
    type V = Seq<u8>;

    open spec fn view(&self) -> Seq<u8> {
        self.0@
    }
}

impl View for MacAddress {
    type V = Seq<u8>;

    open spec fn view(&self) -> Seq<u8> {
        self.0@
    }
}

impl PartialEq for IPv4 {
    fn eq(&self, other: &IPv4) -> (r: bool) {
        let r = self.0[0] == other.0[0] && self.0[1] == other.0[1] && self.0[2] == other.0[2]
            && self.0[3] == other.0[3];
        proof {
            if r {
                assert(self@ =~= other@);
            }
        }
        r
    }
}

impl vstd::std_specs::cmp::PartialEqSpecImpl for IPv4 {
    open spec fn obeys_eq_spec() -> bool {
        true
    }

    open spec fn eq_spec(&self, other: &IPv4) -> bool {
        self@ == other@
    }
}

impl Eq for IPv4 {

}

impl PartialEq for MacAddress {
    fn eq(&self, other: &MacAddress) -> (r: bool) {
        let r = self.0[0] == other.0[0] && self.0[1] == other.0[1] && self.0[2] == other.0[2]
            && self.0[3] == other.0[3] && self.0[4] == other.0[4] && self.0[5] == other.0[5];
        proof {
            if r {
                assert(self@ =~= other@);
            }
        }
        r
    }
}

impl vstd::std_specs::cmp::PartialEqSpecImpl for MacAddress {
    open spec fn obeys_eq_spec() -> bool {
        true
    }

    open spec fn eq_spec(&self, other: &MacAddress) -> bool {
        self@ == other@
    }
}

impl Eq for MacAddress {

}

/// The bytes of the Ethernet broadcast address.
pub open spec fn broadcast_mac() -> Seq<u8> {
    seq![0xffu8, 0xff, 0xff, 0xff, 0xff, 0xff]
}

/// The bytes of the all-zero hardware address.
pub open spec fn zero_mac() -> Seq<u8> {
    seq![0u8, 0, 0, 0, 0, 0]
}

/// The bytes of the unspecified IPv4 address.
pub open spec fn zero_ip() -> Seq<u8> {
    seq![0u8, 0, 0, 0]
}

impl IPv4 {
    pub fn new(a: u8, b: u8, c: u8, d: u8) -> (r: IPv4)
        ensures
            r@ == seq![a, b, c, d],
    {
        let r = IPv4([a, b, c, d]);
        assert(r@ =~= seq![a, b, c, d]);
        r
    }

    /// The address in the first four bytes of `bytes`.
    pub fn from_bytes(bytes: &[u8]) -> (r: IPv4)
        requires
            bytes.len() >= 4,
        ensures
            r@ == bytes@.take(4),
    {
        let r = IPv4([bytes[0], bytes[1], bytes[2], bytes[3]]);
        assert(r@ =~= bytes@.take(4));
        r
    }

    /// Create from a u32 in network byte order (big-endian).
    pub fn from_u32(val: u32) -> (r: IPv4)
        ensures
            r@ == bytes::be32_bytes(val),
    {
        let r = IPv4(
            [
                (val / 0x100_0000) as u8,
                (val / 0x1_0000 % 256) as u8,
                (val / 0x100 % 256) as u8,
                (val % 256) as u8,
            ],
        );
        assert(r@ =~= bytes::be32_bytes(val));
        r
    }

    pub fn as_bytes(&self) -> (r: &[u8; 4])
        ensures
            r@ == self@,
    {
        &self.0
    }

    /// Whether this is the unspecified address `0.0.0.0`.
    pub fn is_zero(&self) -> (r: bool)
        ensures
            r == (self@ == zero_ip()),
    {
        *self == IPv4::new(0, 0, 0, 0)
    }
}

impl MacAddress {
    pub fn new(bytes: [u8; 6]) -> (r: MacAddress)
        ensures
            r@ == bytes@,
    {
        MacAddress(bytes)
    }

    /// The Ethernet broadcast address.
    pub fn broadcast() -> (r: MacAddress)
        ensures
            r@ == broadcast_mac(),
    {
        let r = MacAddress([0xff, 0xff, 0xff, 0xff, 0xff, 0xff]);
        assert(r@ =~= broadcast_mac());
        r
    }

    /// The address in the first six bytes of `bytes`.
    pub fn from_bytes(bytes: &[u8]) -> (r: MacAddress)
        requires
            bytes.len() >= 6,
        ensures
            r@ == bytes@.take(6),
    {
        let r = MacAddress([bytes[0], bytes[1], bytes[2], bytes[3], bytes[4], bytes[5]]);
        assert(r@ =~= bytes@.take(6));
        r
    }

    pub fn as_bytes(&self) -> (r: &[u8; 6])
        ensures
            r@ == self@,
    {
        &self.0
    }

    /// Whether every byte of the address is zero.
    pub fn is_zero(&self) -> (r: bool)
        ensures
            r == (self@ == zero_mac()),
    {
        let zero = MacAddress([0, 0, 0, 0, 0, 0]);
        assert(zero@ =~= zero_mac());
        *self == zero
    }
}

/// The broadcast address is all ones; the zero addresses are all zeros. An
/// address written as a number has its first byte in the highest place.
pub proof fn law_special_addresses(val: u32)
    ensures
        broadcast_mac() == seq![255u8, 255, 255, 255, 255, 255],
        zero_mac() == seq![0u8, 0, 0, 0, 0, 0],
        zero_ip() == seq![0u8, 0, 0, 0],
        bytes::be32_bytes(val) == seq![
            (val / 16777216) as u8,
            (val / 65536 % 256) as u8,
            (val / 256 % 256) as u8,
            (val % 256) as u8,
        ],
{
    assert(broadcast_mac() =~= seq![255u8, 255, 255, 255, 255, 255]);
    assert(zero_mac() =~= seq![0u8, 0, 0, 0, 0, 0]);
    assert(zero_ip() =~= seq![0u8, 0, 0, 0]);
    assert(bytes::be32_bytes(val) =~= seq![
        (val / 16777216) as u8,
        (val / 65536 % 256) as u8,
        (val / 256 % 256) as u8,
        (val % 256) as u8,
    ]);
}

/// Two addresses are equal just where all their bytes are.
pub proof fn law_equal_addresses_have_equal_bytes(
    a: IPv4,
    b: IPv4,
    m: MacAddress,
    n: MacAddress,
)
    ensures
        a@ == a.0@ && m@ == m.0@,
        vstd::std_specs::cmp::PartialEqSpec::eq_spec(&a, &b) <==> a.0@[0] == b.0@[0] && a.0@[1]
            == b.0@[1] && a.0@[2] == b.0@[2] && a.0@[3] == b.0@[3],
        vstd::std_specs::cmp::PartialEqSpec::eq_spec(&m, &n) <==> m.0@[0] == n.0@[0] && m.0@[1]
            == n.0@[1] && m.0@[2] == n.0@[2] && m.0@[3] == n.0@[3] && m.0@[4] == n.0@[4] && m.0@[5]
            == n.0@[5],
{
    if a.0@[0] == b.0@[0] && a.0@[1] == b.0@[1] && a.0@[2] == b.0@[2] && a.0@[3] == b.0@[3] {
        assert(a@ =~= b@);
    }
    if m.0@[0] == n.0@[0] && m.0@[1] == n.0@[1] && m.0@[2] == n.0@[2] && m.0@[3] == n.0@[3]
        && m.0@[4] == n.0@[4] && m.0@[5] == n.0@[5] {
        assert(m@ =~= n@);
    }
}

} // verus!
