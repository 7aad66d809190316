//! Parsing received Ethernet frames.

use vstd::prelude::*;

use crate::addr::{IPv4, MacAddress};
use crate::bytes;
use crate::flags;
use crate::flags::TcpFlags;
use crate::frame;

verus! {

pub struct ParsedUdp {
    pub source_ip: IPv4,
    pub source_port: u16,
    pub dest_port: u16,
    pub data: Vec<u8>,
}

pub struct ParsedTcp {
    pub source_ip: IPv4,
    pub source_port: u16,
    pub dest_port: u16,
    pub seq: u32,
    pub ack: u32,
    pub flags: TcpFlags,
    pub data_len: usize,
    pub data: Vec<u8>,
}

pub struct ParsedArp {
    pub sender_mac: MacAddress,
    pub sender_ip: IPv4,
    pub target_ip: IPv4,
    pub operation: u16,
}

/// What a received frame carries.
pub enum ParsedPacket {
    Arp(ParsedArp),
    Udp(ParsedUdp),
    Tcp(ParsedTcp),
    Unknown,
}

/// The mathematical content of a UDP datagram.
pub struct UdpView {
    pub source_ip: Seq<u8>,
    pub source_port: u16,
    pub dest_port: u16,
    pub data: Seq<u8>,
}

/// The mathematical content of a TCP segment.
pub struct TcpView {
    pub source_ip: Seq<u8>,
    pub source_port: u16,
    pub dest_port: u16,
    pub seq: u32,
    pub ack: u32,
    pub flags: TcpFlags,
    pub data_len: nat,
    pub data: Seq<u8>,
}

/// The mathematical content of an ARP packet.
pub struct ArpView {
    pub sender_mac: Seq<u8>,
    pub sender_ip: Seq<u8>,
    pub target_ip: Seq<u8>,
    pub operation: u16,
}

/// The mathematical content of a received frame.
pub enum PacketView {
    Arp(ArpView),
    Udp(UdpView),
    Tcp(TcpView),
    Unknown,
}

impl View for ParsedUdp {
    type V = UdpView;

    open spec fn view(&self) -> UdpView {
        UdpView {
            source_ip: self.source_ip@,
            source_port: self.source_port,
            dest_port: self.dest_port,
            data: self.data@,
        }
    }
}

impl View for ParsedTcp {
    type V = TcpView;

    open spec fn view(&self) -> TcpView {
        TcpView {
            source_ip: self.source_ip@,
            source_port: self.source_port,
            dest_port: self.dest_port,
            seq: self.seq,
            ack: self.ack,
            flags: self.flags,
            data_len: self.data_len as nat,
            data: self.data@,
        }
    }
}

impl View for ParsedArp {
    type V = ArpView;

    open spec fn view(&self) -> ArpView {
        ArpView {
            sender_mac: self.sender_mac@,
            sender_ip: self.sender_ip@,
            target_ip: self.target_ip@,
            operation: self.operation,
        }
    }
}

impl View for ParsedPacket {
    type V = PacketView;

    open spec fn view(&self) -> PacketView {
        match self {
            ParsedPacket::Arp(p) => PacketView::Arp(p@),
            ParsedPacket::Udp(p) => PacketView::Udp(p@),
            ParsedPacket::Tcp(p) => PacketView::Tcp(p@),
            ParsedPacket::Unknown => PacketView::Unknown,
        }
    }
}

/// The EtherType field.
pub open spec fn ethertype(d: Seq<u8>) -> u16 {
    bytes::be16_at(d, 12)
}

/// Where the transport header starts: behind the IPv4 header, whose length in
/// words is the low half of its first byte.
pub open spec fn transport_offset(d: Seq<u8>) -> int {
    14 + (d[14] % 16) * 4
}

/// Where the IPv4 packet ends according to its own total length.
pub open spec fn ip_end(d: Seq<u8>) -> int {
    14 + bytes::be16_at(d, 16)
}

/// The smaller of two numbers.
pub open spec fn min(a: int, b: int) -> int {
    if a <= b {
        a
    } else {
        b
    }
}

/// The bytes `d[start..end]`, or none where `start` is not before `end`.
pub open spec fn span(d: Seq<u8>, start: int, end: int) -> Seq<u8> {
    if start < end {
        d.subrange(start, end)
    } else {
        Seq::empty()
    }
}

/// The ARP packet in a frame of at least 42 bytes.
pub open spec fn arp_of(d: Seq<u8>) -> ArpView {
    ArpView {
        sender_mac: d.subrange(22, 28),
        sender_ip: d.subrange(28, 32),
        target_ip: d.subrange(38, 42),
        operation: bytes::be16_at(d, 20),
    }
}

/// The UDP datagram whose header starts at `t`. Its payload ends where the UDP
/// length, the IPv4 length or the frame ends, whichever comes first.
pub open spec fn udp_of(d: Seq<u8>, t: int) -> UdpView {
    UdpView {
        source_ip: d.subrange(26, 30),
        source_port: bytes::be16_at(d, t),
        dest_port: bytes::be16_at(d, t + 2),
        data: span(
            d,
            t + 8,
            min(min(t + bytes::be16_at(d, t + 4), ip_end(d)), d.len() as int),
        ),
    }
}

/// The TCP segment whose header starts at `t`. Its payload starts behind the
/// header, whose length in words is the high half of its byte 12, and ends
/// where the IPv4 length or the frame ends, whichever comes first.
pub open spec fn tcp_of(d: Seq<u8>, t: int) -> TcpView {
    let data = span(d, t + (d[t + 12] / 16) * 4, min(ip_end(d), d.len() as int));
    TcpView {
        source_ip: d.subrange(26, 30),
        source_port: bytes::be16_at(d, t),
        dest_port: bytes::be16_at(d, t + 2),
        seq: bytes::be32_at(d, t + 4),
        ack: bytes::be32_at(d, t + 8),
        flags: TcpFlags { bits: d[t + 13] & flags::ALL_FLAGS },
        data_len: data.len(),
        data,
    }
}

/// What the frame `d` carries. A frame too short for the headers it announces
/// is unknown.
pub open spec fn parse(d: Seq<u8>) -> PacketView {
    let t = transport_offset(d);
    if d.len() < 14 {
        PacketView::Unknown
    } else if ethertype(d) == frame::ETHERTYPE_ARP && d.len() >= 42 {
        PacketView::Arp(arp_of(d))
    } else if ethertype(d) == frame::ETHERTYPE_IPV4 && d.len() >= 34 {
        if d[23] == frame::PROTO_UDP && d.len() >= t + 8 {
            PacketView::Udp(udp_of(d, t))
        } else if d[23] == frame::PROTO_TCP && d.len() >= t + 20 {
            PacketView::Tcp(tcp_of(d, t))
        } else {
            PacketView::Unknown
        }
    } else {
        PacketView::Unknown
    }
}

/// The bytes `data[start..end]`, or none where `start` is not before `end`.
fn copy_span(data: &[u8], start: usize, end: usize) -> (out: Vec<u8>)
    requires
        end <= data.len(),
    ensures
        out@ == span(data@, start as int, end as int),
{
    if start < end {
        bytes::slice_to_vec(data, start, end)
    } else {
        Vec::new()
    }
}

/// The smaller of two lengths.
fn min_len(a: usize, b: usize) -> (r: usize)
    ensures
        r == min(a as int, b as int),
{
    if a <= b {
        a
    } else {
        b
    }
}

/// The UDP datagram whose header starts at `t`.
fn parse_udp(data: &[u8], t: usize, src_ip: IPv4, ip_total_len: usize) -> (r: ParsedUdp)
    requires
        34 <= data.len(),
        14 <= t <= 74,
        t + 8 <= data.len(),
        src_ip@ == data@.subrange(26, 30),
        ip_total_len == bytes::be16_at(data@, 16),
    ensures
        r@ == udp_of(data@, t as int),
{
    let source_port = bytes::join_be16(data[t], data[t + 1]);
    let dest_port = bytes::join_be16(data[t + 2], data[t + 3]);
    let udp_len: usize = bytes::join_be16(data[t + 4], data[t + 5]) as usize;
    let end = min_len(min_len(t + udp_len, 14 + ip_total_len), data.len());
    let payload = copy_span(data, t + 8, end);
    ParsedUdp { source_ip: src_ip, source_port, dest_port, data: payload }
}

/// The TCP segment whose header starts at `t`.
fn parse_tcp(data: &[u8], t: usize, src_ip: IPv4, ip_total_len: usize) -> (r: ParsedTcp)
    requires
        34 <= data.len(),
        14 <= t <= 74,
        t + 20 <= data.len(),
        src_ip@ == data@.subrange(26, 30),
        ip_total_len == bytes::be16_at(data@, 16),
    ensures
        r@ == tcp_of(data@, t as int),
{
    let source_port = bytes::join_be16(data[t], data[t + 1]);
    let dest_port = bytes::join_be16(data[t + 2], data[t + 3]);
    let seq = bytes::join_be32(data[t + 4], data[t + 5], data[t + 6], data[t + 7]);
    let ack = bytes::join_be32(data[t + 8], data[t + 9], data[t + 10], data[t + 11]);
    let data_offset: usize = (data[t + 12] / 16) as usize * 4;
    let flags = TcpFlags::from_bits_truncate(data[t + 13]);
    let end = min_len(14 + ip_total_len, data.len());
    let payload = copy_span(data, t + data_offset, end);
    let data_len = payload.len();
    ParsedTcp {
        source_ip: src_ip,
        source_port,
        dest_port,
        seq,
        ack,
        flags,
        data_len,
        data: payload,
    }
}

/// Parses a received Ethernet frame.
pub fn parse_packet(data: &[u8]) -> (r: ParsedPacket)
    ensures
        r@ == parse(data@),
{
    if data.len() < 14 {
        return ParsedPacket::Unknown;
    }
    let ethertype = bytes::join_be16(data[12], data[13]);
    if ethertype == frame::ETHERTYPE_ARP {
        if data.len() < 42 {
            return ParsedPacket::Unknown;
        }
        let operation = bytes::join_be16(data[20], data[21]);
        let arp = ParsedArp {
            sender_mac: MacAddress::from_bytes(&data[22..28]),
            sender_ip: IPv4::from_bytes(&data[28..32]),
            target_ip: IPv4::from_bytes(&data[38..42]),
            operation,
        };
        assert(arp@.sender_mac =~= data@.subrange(22, 28));
        assert(arp@.sender_ip =~= data@.subrange(28, 32));
        assert(arp@.target_ip =~= data@.subrange(38, 42));
        ParsedPacket::Arp(arp)
    } else if ethertype == frame::ETHERTYPE_IPV4 {
        if data.len() < 34 {
            return ParsedPacket::Unknown;
        }
        let ihl: usize = (data[14] % 16) as usize * 4;
        let ip_total_len: usize = bytes::join_be16(data[16], data[17]) as usize;
        let protocol = data[23];
        let src_ip = IPv4::from_bytes(&data[26..30]);
        assert(src_ip@ =~= data@.subrange(26, 30));
        let t: usize = 14 + ihl;
        if protocol == frame::PROTO_UDP {
            if data.len() < t + 8 {
                return ParsedPacket::Unknown;
            }
            ParsedPacket::Udp(parse_udp(data, t, src_ip, ip_total_len))
        } else if protocol == frame::PROTO_TCP {
            if data.len() < t + 20 {
                return ParsedPacket::Unknown;
            }
            ParsedPacket::Tcp(parse_tcp(data, t, src_ip, ip_total_len))
        } else {
            ParsedPacket::Unknown
        }
    } else {
        ParsedPacket::Unknown
    }
}

/// How far a segment advances the acknowledgement number: by its data, or by
/// one where it carries none (a SYN or a FIN).
pub open spec fn ack_advance(data_len: nat) -> int {
    if data_len > 0 {
        data_len as int % 0x1_0000_0000
    } else {
        1
    }
}

/// The reply that acknowledges segment `t`: addresses and ports swapped, its
/// acknowledgement number as our sequence number.
pub open spec fn ack_reply(t: TcpView, our_ip: Seq<u8>, our_mac: Seq<u8>, extra: u8) -> Seq<u8> {
    frame::tcp_frame(
        our_mac,
        our_ip,
        t.dest_port,
        t.source_ip,
        t.source_port,
        t.ack,
        ((t.seq + ack_advance(t.data_len)) % 0x1_0000_0000) as u32,
        flags::ACK | extra,
        Seq::empty(),
    )
}

impl ParsedTcp {
    /// Build a TCP ACK reply (swap src/dst, ack = seq + max(data_len,1)).
    pub fn build_ack_reply(
        &self,
        our_ip: &IPv4,
        our_mac: &MacAddress,
        extra_flags: TcpFlags,
    ) -> (buf: Vec<u8>)
        ensures
            buf@ == ack_reply(self@, our_ip@, our_mac@, extra_flags.bits),
    {
        let inc: u32 = if self.data_len > 0 {
            (self.data_len as u64 % 0x1_0000_0000) as u32
        } else {
            1
        };
        let our_ack: u32 = ((self.seq as u64 + inc as u64) % 0x1_0000_0000) as u32;
        let reply_flags = TcpFlags::ack().union(extra_flags);
        let nothing: Vec<u8> = Vec::new();
        proof {
            frame::law_tcp_sum_fits(
                our_ip@,
                self.source_ip@,
                self.dest_port,
                self.source_port,
                self.ack,
                our_ack,
                reply_flags.bits,
                nothing@,
            );
        }
        frame::build_tcp_data_packet(
            our_mac,
            our_ip,
            self.dest_port,
            &self.source_ip,
            self.source_port,
            self.ack,
            our_ack,
            reply_flags,
            &nothing,
        )
    }
}

/// Where the fields of an IPv4 frame with a five-word header stand.
proof fn lemma_ipv4_frame_fields(
    dst_mac: Seq<u8>,
    src_mac: Seq<u8>,
    total: u16,
    proto: u8,
    src: Seq<u8>,
    dst: Seq<u8>,
    rest: Seq<u8>,
)
    requires
        dst_mac.len() == 6,
        src_mac.len() == 6,
        src.len() == 4,
        dst.len() == 4,
    ensures
        ({
            let d = frame::eth_header(dst_mac, src_mac, frame::ETHERTYPE_IPV4)
                + frame::ipv4_header(total, proto, src, dst) + rest;
            &&& d.len() == 34 + rest.len()
            &&& ethertype(d) == frame::ETHERTYPE_IPV4
            &&& transport_offset(d) == 34
            &&& ip_end(d) == 14 + total
            &&& d[23] == proto
            &&& d.subrange(0, 6) == dst_mac
            &&& d.subrange(6, 12) == src_mac
            &&& d.subrange(26, 30) == src
            &&& forall|i: int| 34 <= i < d.len() ==> d[i] == rest[i - 34]
        }),
{
    let d = frame::eth_header(dst_mac, src_mac, frame::ETHERTYPE_IPV4) + frame::ipv4_header(
        total,
        proto,
        src,
        dst,
    ) + rest;
    assert(d.subrange(0, 6) =~= dst_mac);
    assert(d.subrange(6, 12) =~= src_mac);
    assert(d.subrange(26, 30) =~= src);
    assert(d[12] == 8 && d[13] == 0);
    assert(d[14] == 0x45);
    assert(d[16] == total / 256 && d[17] == total % 256);
    assert(d[23] == proto);
}

/// Parsing a UDP frame built here gives back the sender, the ports and the
/// payload, for every payload whose length the IPv4 header can announce,
/// whatever padding follows the frame.
pub proof fn law_udp_round_trip(
    src_mac: Seq<u8>,
    dst_mac: Seq<u8>,
    src_ip: Seq<u8>,
    dst_ip: Seq<u8>,
    src_port: u16,
    dst_port: u16,
    payload: Seq<u8>,
    pad: Seq<u8>,
)
    requires
        src_mac.len() == 6,
        dst_mac.len() == 6,
        src_ip.len() == 4,
        dst_ip.len() == 4,
        payload.len() <= 65507,
    ensures
        parse(
            frame::udp_frame(src_mac, dst_mac, src_ip, dst_ip, src_port, dst_port, payload) + pad,
        ) == PacketView::Udp(
            (UdpView {
                source_ip: src_ip,
                source_port: src_port,
                dest_port: dst_port,
                data: payload,
            }),
        ),
{
    let n = payload.len() as int;
    let f = frame::udp_frame(src_mac, dst_mac, src_ip, dst_ip, src_port, dst_port, payload) + pad;
    let head = frame::udp_header(src_port, dst_port, bytes::low16(n + 8));
    let rest = head + payload + pad;
    let total = bytes::low16(n + 28);
    lemma_ipv4_frame_fields(dst_mac, src_mac, total, frame::PROTO_UDP, src_ip, dst_ip, rest);
    assert(f =~= frame::eth_header(dst_mac, src_mac, frame::ETHERTYPE_IPV4) + frame::ipv4_header(
        total,
        frame::PROTO_UDP,
        src_ip,
        dst_ip,
    ) + rest);
    assert(f[34] == src_port / 256 && f[35] == src_port % 256);
    assert(f[36] == dst_port / 256 && f[37] == dst_port % 256);
    assert(f[38] == (n + 8) / 256 && f[39] == (n + 8) % 256);
    assert(span(f, 42, 42 + n) =~= payload);
}

/// Parsing a TCP frame built here gives back the sender, the ports, the
/// numbers, the flags and the payload, for every payload whose length the IPv4
/// header can announce, whatever padding follows the frame.
pub proof fn law_tcp_round_trip(
    src_mac: Seq<u8>,
    src_ip: Seq<u8>,
    src_port: u16,
    dst_ip: Seq<u8>,
    dst_port: u16,
    seq_no: u32,
    ack_no: u32,
    flag_bits: u8,
    payload: Seq<u8>,
    pad: Seq<u8>,
)
    requires
        src_mac.len() == 6,
        src_ip.len() == 4,
        dst_ip.len() == 4,
        payload.len() <= 65495,
    ensures
        parse(
            frame::tcp_frame(
                src_mac,
                src_ip,
                src_port,
                dst_ip,
                dst_port,
                seq_no,
                ack_no,
                flag_bits,
                payload,
            ) + pad,
        ) == PacketView::Tcp(
            (TcpView {
                source_ip: src_ip,
                source_port: src_port,
                dest_port: dst_port,
                seq: seq_no,
                ack: ack_no,
                flags: (TcpFlags { bits: flag_bits & flags::ALL_FLAGS }),
                data_len: payload.len(),
                data: payload,
            }),
        ),
{
    let n = payload.len() as int;
    let f = frame::tcp_frame(
        src_mac,
        src_ip,
        src_port,
        dst_ip,
        dst_port,
        seq_no,
        ack_no,
        flag_bits,
        payload,
    ) + pad;
    let segment = frame::tcp_segment(
        src_ip,
        dst_ip,
        src_port,
        dst_port,
        seq_no,
        ack_no,
        flag_bits,
        payload,
    );
    let rest = segment + pad;
    let total = bytes::low16(n + 40);
    lemma_ipv4_frame_fields(
        crate::addr::broadcast_mac(),
        src_mac,
        total,
        frame::PROTO_TCP,
        src_ip,
        dst_ip,
        rest,
    );
    assert(f =~= frame::eth_header(
        crate::addr::broadcast_mac(),
        src_mac,
        frame::ETHERTYPE_IPV4,
    ) + frame::ipv4_header(total, frame::PROTO_TCP, src_ip, dst_ip) + rest);
    assert(f[34] == src_port / 256 && f[35] == src_port % 256);
    assert(f[36] == dst_port / 256 && f[37] == dst_port % 256);
    bytes::law_be32_round_trip(seq_no);
    bytes::law_be32_round_trip(ack_no);
    assert(f.subrange(38, 42) =~= bytes::be32_bytes(seq_no));
    assert(f.subrange(42, 46) =~= bytes::be32_bytes(ack_no));
    assert(forall|i: int| 0 <= i < 4 ==> f.subrange(38, 42)[i] == f[38 + i]);
    assert(forall|i: int| 0 <= i < 4 ==> f.subrange(42, 46)[i] == f[42 + i]);
    assert(bytes::be32_at(f, 38) == seq_no);
    assert(bytes::be32_at(f, 42) == ack_no);
    assert(f[46] == 0x50);
    assert(f[47] == flag_bits);
    assert(span(f, 54, 54 + n) =~= payload);
}

/// Parsing an ARP frame built here gives back its sender, its target and its
/// operation, whatever padding follows the frame.
pub proof fn law_arp_round_trip(
    dst_mac: Seq<u8>,
    operation: u16,
    sender_mac: Seq<u8>,
    sender_ip: Seq<u8>,
    target_mac: Seq<u8>,
    target_ip: Seq<u8>,
    pad: Seq<u8>,
)
    requires
        dst_mac.len() == 6,
        sender_mac.len() == 6,
        sender_ip.len() == 4,
        target_mac.len() == 6,
        target_ip.len() == 4,
    ensures
        parse(
            frame::arp_frame(
                dst_mac,
                operation,
                sender_mac,
                sender_ip,
                target_mac,
                target_ip,
            ) + pad,
        ) == PacketView::Arp((ArpView { sender_mac, sender_ip, target_ip, operation })),
        frame::arp_frame(
            dst_mac,
            operation,
            sender_mac,
            sender_ip,
            target_mac,
            target_ip,
        ).len() == 42,
{
    let f = frame::arp_frame(dst_mac, operation, sender_mac, sender_ip, target_mac, target_ip)
        + pad;
    assert(f[12] == 8 && f[13] == 6);
    assert(f[20] == operation / 256 && f[21] == operation % 256);
    assert(f.subrange(22, 28) =~= sender_mac);
    assert(f.subrange(28, 32) =~= sender_ip);
    assert(f.subrange(38, 42) =~= target_ip);
}

/// A frame shorter than an Ethernet header, one whose EtherType is neither
/// 0x0800 nor 0x0806, an IPv4 frame shorter than 34 bytes, and one whose
/// protocol is neither UDP nor TCP are unknown.
pub proof fn law_other_frames_are_unknown(d: Seq<u8>)
    requires
        d.len() < 14 || d[12] != 8 || (d[13] != 0 && d[13] != 6) || (d[13] == 0 && d.len() < 34) || (
        d[13] == 0 && d[23] != 17 && d[23] != 6),
    ensures
        parse(d) == PacketView::Unknown,
{
}

/// A frame with EtherType 0x0806 is an ARP packet if it holds one whole, with
/// the sender in front of the target.
pub proof fn law_arp_fields(d: Seq<u8>)
    requires
        d.len() >= 14,
        d[12] == 8,
        d[13] == 6,
    ensures
        d.len() < 42 ==> parse(d) == PacketView::Unknown,
        d.len() >= 42 ==> (parse(d) matches PacketView::Arp(a) && a.sender_mac == d.subrange(22, 28)
            && a.sender_ip == d.subrange(28, 32) && a.target_ip == d.subrange(38, 42) && a.operation
            == d[20] * 256 + d[21]),
{
}

/// A UDP datagram stands behind the IPv4 header, whose length in words its
/// first byte gives. The payload is what follows the eight header bytes and
/// reaches as far as the UDP length, the IPv4 total length and the frame all
/// allow: `k` bytes of it are there just where all three do.
pub proof fn law_udp_fields(d: Seq<u8>, k: nat)
    requires
        d.len() >= 34,
        d[12] == 8,
        d[13] == 0,
        d[23] == 17,
    ensures
        ({
            let t = 14 + 4 * (d[14] % 16);
            &&& d.len() < t + 8 ==> parse(d) == PacketView::Unknown
            &&& d.len() >= t + 8 ==> (parse(d) matches PacketView::Udp(u) && {
                &&& u.source_ip == d.subrange(26, 30)
                &&& u.source_port == d[t] * 256 + d[t + 1]
                &&& u.dest_port == d[t + 2] * 256 + d[t + 3]
                &&& forall|i: int| 0 <= i < u.data.len() ==> u.data[i] == #[trigger] d[t + 8 + i]
                &&& k > 0 ==> (k <= u.data.len() <==> {
                    &&& 8 + k <= d[t + 4] * 256 + d[t + 5]
                    &&& t + 8 + k <= 14 + d[16] * 256 + d[17]
                    &&& t + 8 + k <= d.len()
                })
            })
        }),
{
}

/// A TCP segment stands behind the IPv4 header. Its payload follows the TCP
/// header, whose length in words is the high half of byte 12, and reaches as
/// far as the IPv4 total length and the frame both allow.
pub proof fn law_tcp_fields(d: Seq<u8>, k: nat)
    requires
        d.len() >= 34,
        d[12] == 8,
        d[13] == 0,
        d[23] == 6,
    ensures
        ({
            let t = 14 + 4 * (d[14] % 16);
            let p = t + 4 * (d[t + 12] / 16);
            &&& d.len() < t + 20 ==> parse(d) == PacketView::Unknown
            &&& d.len() >= t + 20 ==> (parse(d) matches PacketView::Tcp(s) && {
                &&& s.source_ip == d.subrange(26, 30)
                &&& s.source_port == d[t] * 256 + d[t + 1]
                &&& s.dest_port == d[t + 2] * 256 + d[t + 3]
                &&& s.seq == ((d[t + 4] * 256 + d[t + 5]) * 256 + d[t + 6]) * 256 + d[t + 7]
                &&& s.ack == ((d[t + 8] * 256 + d[t + 9]) * 256 + d[t + 10]) * 256 + d[t + 11]
                &&& s.flags.bits == d[t + 13] % 32
                &&& s.data_len == s.data.len()
                &&& forall|i: int| 0 <= i < s.data.len() ==> s.data[i] == #[trigger] d[p + i]
                &&& k > 0 ==> (k <= s.data.len() <==> p + k <= 14 + d[16] * 256 + d[17] && p + k
                    <= d.len())
            })
        }),
{
    let t = 14 + 4 * (d[14] % 16);
    if d.len() >= t + 20 {
        flags::law_flags_are_bits(d[t + 13]);
        bytes::law_bytes_are_positional(0, 0, d, t + 4, 0, 0);
        bytes::law_bytes_are_positional(0, 0, d, t + 8, 0, 0);
    }
}

/// Options of a TCP header are skipped: behind a header of `k` words, at least
/// five, whose byte 12 says so, the payload comes back whole, whatever the
/// options are and whatever follows the end that the IPv4 header announces.
pub proof fn law_tcp_options_are_skipped(
    front: Seq<u8>,
    header: Seq<u8>,
    k: int,
    payload: Seq<u8>,
    pad: Seq<u8>,
)
    requires
        front.len() == 34,
        front[12] == 8,
        front[13] == 0,
        front[14] % 16 == 5,
        front[23] == 6,
        5 <= k <= 15,
        header.len() == 4 * k,
        16 * k <= header[12] < 16 * k + 16,
        front[16] * 256 + front[17] == 20 + 4 * k + payload.len(),
    ensures
        parse(front + header + payload + pad) matches PacketView::Tcp(s) && {
            &&& s.data == payload
            &&& s.data_len == payload.len()
            &&& s.source_ip == front.subrange(26, 30)
            &&& s.source_port == header[0] * 256 + header[1]
            &&& s.dest_port == header[2] * 256 + header[3]
            &&& s.seq == ((header[4] * 256 + header[5]) * 256 + header[6]) * 256 + header[7]
            &&& s.ack == ((header[8] * 256 + header[9]) * 256 + header[10]) * 256 + header[11]
            &&& s.flags.bits == header[13] % 32
        },
{
    let d = front + header + payload + pad;
    let n = payload.len() as int;
    assert(forall|i: int| 0 <= i < 34 ==> d[i] == front[i]);
    assert(forall|i: int| 0 <= i < 4 * k ==> #[trigger] d[34 + i] == header[i]);
    assert(d[34int + 12] == header[12]);
    law_tcp_fields(d, payload.len());
    law_tcp_fields(d, payload.len() + 1);
    let s = parse(d)->Tcp_0;
    assert(d.subrange(26, 30) =~= front.subrange(26, 30));
    assert(forall|i: int| 0 <= i < n ==> #[trigger] d[34 + 4 * k + i] == payload[i]);
    assert(s.data.len() == n);
    assert(s.data =~= payload);
}

/// The acknowledgement of a segment, byte by byte: 54 bytes for everyone on the
/// wire, from our addresses to the segment's sender, ports swapped, the
/// segment's acknowledgement number as our sequence number, and as our
/// acknowledgement number the segment's sequence number advanced by its data, or
/// by one where it carries none.
pub proof fn law_ack_reply_layout(t: TcpView, our_ip: Seq<u8>, our_mac: Seq<u8>, extra: u8)
    requires
        our_mac.len() == 6,
        our_ip.len() == 4,
        t.source_ip.len() == 4,
    ensures
        ({
            let f = ack_reply(t, our_ip, our_mac, extra);
            let advance = if t.data_len > 0 {
                t.data_len as int
            } else {
                1
            };
            &&& f.len() == 54
            &&& f.subrange(0, 6) == seq![255u8, 255, 255, 255, 255, 255]
            &&& f.subrange(6, 12) == our_mac
            &&& f.subrange(26, 30) == our_ip
            &&& f.subrange(30, 34) == t.source_ip
            &&& f[34] * 256 + f[35] == t.dest_port
            &&& f[36] * 256 + f[37] == t.source_port
            &&& ((f[38] * 256 + f[39]) * 256 + f[40]) * 256 + f[41] == t.ack
            &&& ((f[42] * 256 + f[43]) * 256 + f[44]) * 256 + f[45] == (t.seq + advance)
                % 0x1_0000_0000
            &&& f[47] == 16 | extra
        }),
{
    frame::law_tcp_frame_layout(
        our_mac,
        our_ip,
        t.dest_port,
        t.source_ip,
        t.source_port,
        t.ack,
        ((t.seq + ack_advance(t.data_len)) % 0x1_0000_0000) as u32,
        flags::ACK | extra,
        Seq::empty(),
    );
    if t.data_len > 0 {
        vstd::arithmetic::div_mod::lemma_add_mod_noop_right(
            t.seq as int,
            t.data_len as int,
            0x1_0000_0000,
        );
    }
}

/// A minimum is one of its two numbers and above neither, and a span is the
/// bytes between its ends, of which there are none where they do not come in
/// order.
pub proof fn law_bounds_of_a_span(d: Seq<u8>, start: int, end: int, a: int, b: int)
    requires
        0 <= start,
        end <= d.len(),
    ensures
        min(a, b) <= a && min(a, b) <= b && (min(a, b) == a || min(a, b) == b),
        start < end ==> span(d, start, end).len() == end - start,
        start >= end ==> span(d, start, end).len() == 0,
        forall|i: int|
            0 <= i < span(d, start, end).len() ==> span(d, start, end)[i] == #[trigger] d[start
                + i],
{
}

/// A parsed packet stands for its fields.
pub proof fn law_parsed_fields(udp: ParsedUdp, tcp: ParsedTcp, arp: ParsedArp)
    ensures
        udp@.source_ip == udp.source_ip.0@ && udp@.source_port == udp.source_port,
        udp@.dest_port == udp.dest_port && udp@.data == udp.data@,
        tcp@.source_ip == tcp.source_ip.0@ && tcp@.source_port == tcp.source_port,
        tcp@.dest_port == tcp.dest_port && tcp@.seq == tcp.seq && tcp@.ack == tcp.ack,
        tcp@.flags == tcp.flags && tcp@.data_len == tcp.data_len && tcp@.data == tcp.data@,
        arp@.sender_mac == arp.sender_mac.0@ && arp@.sender_ip == arp.sender_ip.0@,
        arp@.target_ip == arp.target_ip.0@ && arp@.operation == arp.operation,
        ParsedPacket::Udp(udp)@ == PacketView::Udp(udp@),
        ParsedPacket::Tcp(tcp)@ == PacketView::Tcp(tcp@),
        ParsedPacket::Arp(arp)@ == PacketView::Arp(arp@),
        ParsedPacket::Unknown@ == PacketView::Unknown,
{
}

} // verus!
