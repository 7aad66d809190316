//! The demo that exchanges a UDP packet over the shared rings.

use vstd::prelude::*;

use crate::addr::IPv4;
use crate::bytes;
use crate::frame;
use crate::parse;
use crate::ring;

verus! {

/// Build a complete Ethernet + IPv4 + UDP frame directly into `buf`.
/// Returns the total frame length.
pub fn build_udp_frame_into(
    buf: &mut [u8],
    src_mac: &[u8; 6],
    src_ip: &[u8; 4],
    src_port: u16,
    dst_ip: &[u8; 4],
    dst_port: u16,
    payload: &[u8],
) -> (frame_len: usize)
    requires
        42 + payload@.len() <= old(buf)@.len(),
    ensures
        frame_len == 42 + payload@.len(),
        final(buf)@ == ring::broadcast_frame(
            src_mac@,
            src_ip@,
            src_port,
            dst_ip@,
            dst_port,
            payload@,
        ) + old(buf)@.skip(42 + payload@.len() as int),
{
    let ghost before = buf@;
    assert(buf.len() == before.len());
    ring::write_broadcast_header(
        buf,
        src_mac,
        src_ip,
        src_port,
        dst_ip,
        dst_port,
        payload.len(),
    );
    ring::write_at(buf, 42, payload);
    assert(buf@ =~= ring::broadcast_frame(
        src_mac@,
        src_ip@,
        src_port,
        dst_ip@,
        dst_port,
        payload@,
    ) + before.skip(42 + payload@.len() as int));
    42 + payload.len()
}

/// What a received packet turns out to be.
pub enum Reply {
    /// Too short for an IPv4 header.
    Short,
    /// Not IPv4; its EtherType.
    NotIpv4(u16),
    /// UDP from this address, with its payload where that is complete.
    Udp { source: IPv4, payload: Option<Vec<u8>> },
    /// ICMP from this address, with its type and code where they are there.
    ControlMessage { source: IPv4, message: Option<(u8, u8)> },
    /// Another protocol from this address.
    OtherIpv4 { source: IPv4, protocol: u8 },
}

/// The mathematical content of a reply.
pub enum ReplyView {
    Short,
    NotIpv4(u16),
    Udp { source: Seq<u8>, payload: Option<Seq<u8>> },
    ControlMessage { source: Seq<u8>, message: Option<(u8, u8)> },
    OtherIpv4 { source: Seq<u8>, protocol: u8 },
}

impl View for Reply {
    type V = ReplyView;

    open spec fn view(&self) -> ReplyView {
        match self {
            Reply::Short => ReplyView::Short,
            Reply::NotIpv4(t) => ReplyView::NotIpv4(*t),
            Reply::Udp { source, payload } => ReplyView::Udp {
                source: source@,
                payload: match payload {
                    Some(p) => Some(p@),
                    None => None,
                },
            },
            Reply::ControlMessage { source, message } => ReplyView::ControlMessage {
                source: source@,
                message: *message,
            },
            Reply::OtherIpv4 { source, protocol } => ReplyView::OtherIpv4 {
                source: source@,
                protocol: *protocol,
            },
        }
    }
}

/// IP protocol number of ICMP.
pub const PROTO_ICMP: u8 = 1;

/// Whether a packet is an IPv4 packet with its whole fixed header.
pub open spec fn is_ipv4(pkt: Seq<u8>) -> bool {
    pkt.len() >= 34 && parse::ethertype(pkt) == frame::ETHERTYPE_IPV4
}

/// The UDP length that a packet announces.
pub open spec fn udp_len(pkt: Seq<u8>) -> int {
    bytes::be16_at(pkt, parse::transport_offset(pkt) + 4) as int
}

/// What the packet `pkt` is.
pub open spec fn reply_of(pkt: Seq<u8>) -> ReplyView {
    let t = parse::transport_offset(pkt);
    let source = pkt.subrange(26, 30);
    if pkt.len() < 34 {
        ReplyView::Short
    } else if !is_ipv4(pkt) {
        ReplyView::NotIpv4(parse::ethertype(pkt))
    } else if pkt[23] == frame::PROTO_UDP {
        ReplyView::Udp {
            source,
            payload: if t + udp_len(pkt) <= pkt.len() {
                Some(pkt.subrange(t + 8, t + udp_len(pkt)))
            } else {
                None
            },
        }
    } else if pkt[23] == PROTO_ICMP {
        ReplyView::ControlMessage {
            source,
            message: if t + 2 <= pkt.len() {
                Some((pkt[t], pkt[t + 1]))
            } else {
                None
            },
        }
    } else {
        ReplyView::OtherIpv4 { source, protocol: pkt[23] }
    }
}

/// Whether a packet can be identified: a UDP packet holds its length field, and
/// announces at least its own header.
pub open spec fn identifiable(pkt: Seq<u8>) -> bool {
    is_ipv4(pkt) && pkt[23] == frame::PROTO_UDP ==> parse::transport_offset(pkt) + 6 <= pkt.len()
        && udp_len(pkt) >= 8
}

/// Tests whether a packet can be identified.
pub fn can_identify(pkt: &[u8]) -> (r: bool)
    ensures
        r == identifiable(pkt@),
{
    if pkt.len() < 34 || bytes::join_be16(pkt[12], pkt[13]) != frame::ETHERTYPE_IPV4 || pkt[23]
        != frame::PROTO_UDP {
        return true;
    }
    let start: usize = 14 + (pkt[14] % 16) as usize * 4;
    start + 6 <= pkt.len() && bytes::join_be16(pkt[start + 4], pkt[start + 5]) >= 8
}

/// Identifies a received packet.
pub fn identify_reply(pkt: &[u8]) -> (r: Reply)
    requires
        identifiable(pkt@),
    ensures
        r@ == reply_of(pkt@),
{
    if pkt.len() < 34 {
        return Reply::Short;
    }
    let ethertype = bytes::join_be16(pkt[12], pkt[13]);
    if ethertype != frame::ETHERTYPE_IPV4 {
        return Reply::NotIpv4(ethertype);
    }
    let protocol = pkt[23];
    let source = IPv4::from_bytes(&pkt[26..30]);
    assert(source@ =~= pkt@.subrange(26, 30));
    let start: usize = 14 + (pkt[14] % 16) as usize * 4;
    if protocol == frame::PROTO_UDP {
        let announced: usize = bytes::join_be16(pkt[start + 4], pkt[start + 5]) as usize;
        if start + announced <= pkt.len() {
            let payload = bytes::slice_to_vec(pkt, start + 8, start + announced);
            Reply::Udp { source, payload: Some(payload) }
        } else {
            Reply::Udp { source, payload: None }
        }
    } else if protocol == PROTO_ICMP {
        if start + 2 <= pkt.len() {
            Reply::ControlMessage { source, message: Some((pkt[start], pkt[start + 1])) }
        } else {
            Reply::ControlMessage { source, message: None }
        }
    } else {
        Reply::OtherIpv4 { source, protocol }
    }
}

/// A frame that was built here is identified as what it is: a complete UDP
/// packet from its sender, with its payload, whatever padding follows it.
pub proof fn law_built_frame_is_identified(
    src_mac: Seq<u8>,
    src_ip: Seq<u8>,
    src_port: u16,
    dst_ip: Seq<u8>,
    dst_port: u16,
    payload: Seq<u8>,
    pad: Seq<u8>,
)
    requires
        src_mac.len() == 6,
        src_ip.len() == 4,
        dst_ip.len() == 4,
        payload.len() <= 65507,
    ensures
        reply_of(
            ring::broadcast_frame(src_mac, src_ip, src_port, dst_ip, dst_port, payload) + pad,
        ) == (ReplyView::Udp { source: src_ip, payload: Some(payload) }),
{
    let f = ring::broadcast_frame(src_mac, src_ip, src_port, dst_ip, dst_port, payload) + pad;
    let n = payload.len() as int;
    lemma_frame_fields(src_mac, src_ip, src_port, dst_ip, dst_port, payload, pad);
    assert(reply_of(f) == (ReplyView::Udp {
        source: f.subrange(26, 30),
        payload: Some(f.subrange(42, 42 + n)),
    }));
}

/// The fields of a frame that [`reply_of`] reads.
proof fn lemma_frame_fields(
    src_mac: Seq<u8>,
    src_ip: Seq<u8>,
    src_port: u16,
    dst_ip: Seq<u8>,
    dst_port: u16,
    payload: Seq<u8>,
    pad: Seq<u8>,
)
    requires
        src_mac.len() == 6,
        src_ip.len() == 4,
        dst_ip.len() == 4,
        payload.len() <= 65507,
    ensures
        ({
            let f = ring::broadcast_frame(src_mac, src_ip, src_port, dst_ip, dst_port, payload)
                + pad;
            &&& f.len() == 42 + payload.len() + pad.len()
            &&& parse::ethertype(f) == frame::ETHERTYPE_IPV4
            &&& parse::transport_offset(f) == 34
            &&& f[23] == frame::PROTO_UDP
            &&& f.subrange(26, 30) == src_ip
            &&& udp_len(f) == 8 + payload.len()
            &&& f.subrange(42, 42 + payload.len() as int) == payload
        }),
{
    let f = ring::broadcast_frame(src_mac, src_ip, src_port, dst_ip, dst_port, payload) + pad;
    let n = payload.len() as int;
    assert(f[12] == 8 && f[13] == 0);
    assert(f[14] == 0x45);
    assert(f[23] == 17);
    assert(f.subrange(26, 30) =~= src_ip);
    assert(f[38] == (n + 8) / 256 && f[39] == (n + 8) % 256);
    assert(f.subrange(42, 42 + n) =~= payload);
}

/// What a received packet is told apart by: its length, its EtherType, its
/// protocol, and, behind the IPv4 header, the UDP length or the two bytes that
/// name a control message.
pub proof fn law_reply_fields(pkt: Seq<u8>)
    ensures
        pkt.len() < 34 ==> reply_of(pkt) == ReplyView::Short,
        pkt.len() >= 34 && !(pkt[12] == 8 && pkt[13] == 0) ==> (reply_of(pkt)
            matches ReplyView::NotIpv4(kind) && kind == pkt[12] * 256 + pkt[13]),
        pkt.len() >= 34 && pkt[12] == 8 && pkt[13] == 0 ==> ({
            let t = 14 + 4 * (pkt[14] % 16);
            let n = pkt[t + 4] * 256 + pkt[t + 5];
            &&& pkt[23] == 17 && t + n <= pkt.len() ==> reply_of(pkt) == (ReplyView::Udp {
                source: pkt.subrange(26, 30),
                payload: Some(pkt.subrange(t + 8, t + n)),
            })
            &&& pkt[23] == 17 && t + n > pkt.len() ==> reply_of(pkt) == (ReplyView::Udp {
                source: pkt.subrange(26, 30),
                payload: None,
            })
            &&& pkt[23] == 1 && t + 2 <= pkt.len() ==> reply_of(pkt)
                == (ReplyView::ControlMessage {
                source: pkt.subrange(26, 30),
                message: Some((pkt[t], pkt[t + 1])),
            })
            &&& pkt[23] == 1 && t + 2 > pkt.len() ==> reply_of(pkt) == (ReplyView::ControlMessage {
                source: pkt.subrange(26, 30),
                message: None,
            })
            &&& pkt[23] != 17 && pkt[23] != 1 ==> reply_of(pkt) == (ReplyView::OtherIpv4 {
                source: pkt.subrange(26, 30),
                protocol: pkt[23],
            })
        }),
{
}

/// Only a UDP packet that ends within its header, or announces less than its
/// header, cannot be told apart.
pub proof fn law_identifiable_packets(pkt: Seq<u8>)
    ensures
        !(pkt.len() >= 34 && pkt[12] == 8 && pkt[13] == 0 && pkt[23] == 17) ==> identifiable(pkt),
        pkt.len() >= 34 && pkt[12] == 8 && pkt[13] == 0 && pkt[23] == 17 ==> ({
            let t = 14 + 4 * (pkt[14] % 16);
            identifiable(pkt) <==> t + 6 <= pkt.len() && pkt[t + 4] * 256 + pkt[t + 5] >= 8
        }),
{
}

/// A reply stands for what it holds.
pub proof fn law_reply_stands_for_its_fields(
    kind: u16,
    source: IPv4,
    data: Vec<u8>,
    message: Option<(u8, u8)>,
    protocol: u8,
)
    ensures
        Reply::Short@ == ReplyView::Short,
        Reply::NotIpv4(kind)@ == ReplyView::NotIpv4(kind),
        (Reply::Udp { source, payload: Some(data) })@ == (ReplyView::Udp {
            source: source.0@,
            payload: Some(data@),
        }),
        (Reply::Udp { source, payload: None })@ == (ReplyView::Udp {
            source: source.0@,
            payload: None,
        }),
        (Reply::ControlMessage { source, message })@ == (ReplyView::ControlMessage {
            source: source.0@,
            message,
        }),
        (Reply::OtherIpv4 { source, protocol })@ == (ReplyView::OtherIpv4 {
            source: source.0@,
            protocol,
        }),
{
}

} // verus!
