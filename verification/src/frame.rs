//! Ethernet, ARP, IPv4, UDP and TCP frames: their byte layout and the builders.

use vstd::prelude::*;

use crate::addr;
use crate::addr::{IPv4, MacAddress};
use crate::bytes;
use crate::checksum;
use crate::flags::TcpFlags;

verus! {

/// EtherType of IPv4.
pub const ETHERTYPE_IPV4: u16 = 0x0800;

/// EtherType of ARP.
pub const ETHERTYPE_ARP: u16 = 0x0806;

/// IP protocol number of UDP.
pub const PROTO_UDP: u8 = 17;

/// IP protocol number of TCP.
pub const PROTO_TCP: u8 = 6;

/// ARP operation code of a request.
pub const ARP_REQUEST: u16 = 1;

/// ARP operation code of a reply.
pub const ARP_REPLY: u16 = 2;

/// The 14-byte Ethernet header.
pub open spec fn eth_header(dst: Seq<u8>, src: Seq<u8>, ethertype: u16) -> Seq<u8> {
    dst + src + bytes::be16_bytes(ethertype)
}

/// The part of a 20-byte IPv4 header before its checksum field: version 4,
/// five words long, not fragmented, time to live 64.
pub open spec fn ipv4_before_checksum(total_len: u16, proto: u8) -> Seq<u8> {
    seq![0x45u8, 0] + bytes::be16_bytes(total_len) + seq![0u8, 0, 0, 0, 64, proto]
}

/// A 20-byte IPv4 header with `ck` in its checksum field.
pub open spec fn ipv4_header_with(
    total_len: u16,
    proto: u8,
    src: Seq<u8>,
    dst: Seq<u8>,
    ck: u16,
) -> Seq<u8> {
    ipv4_before_checksum(total_len, proto) + bytes::be16_bytes(ck) + (src + dst)
}

/// The checksum that belongs in an IPv4 header: that of the header with a zero
/// checksum field.
pub open spec fn ipv4_checksum(total_len: u16, proto: u8, src: Seq<u8>, dst: Seq<u8>) -> u16 {
    checksum::checksum(ipv4_header_with(total_len, proto, src, dst, 0))
}

/// A complete 20-byte IPv4 header.
pub open spec fn ipv4_header(total_len: u16, proto: u8, src: Seq<u8>, dst: Seq<u8>) -> Seq<u8> {
    ipv4_header_with(total_len, proto, src, dst, ipv4_checksum(total_len, proto, src, dst))
}

/// The 8-byte UDP header; a zero checksum tells the receiver to skip the check.
pub open spec fn udp_header(src_port: u16, dst_port: u16, udp_len: u16) -> Seq<u8> {
    bytes::be16_bytes(src_port) + bytes::be16_bytes(dst_port) + bytes::be16_bytes(udp_len)
        + bytes::be16_bytes(0)
}

/// The 42 header bytes of a UDP frame that carries `n` bytes of payload.
pub open spec fn udp_frame_header(
    src_mac: Seq<u8>,
    dst_mac: Seq<u8>,
    src_ip: Seq<u8>,
    dst_ip: Seq<u8>,
    src_port: u16,
    dst_port: u16,
    n: int,
) -> Seq<u8> {
    eth_header(dst_mac, src_mac, ETHERTYPE_IPV4) + ipv4_header(
        bytes::low16(n + 28),
        PROTO_UDP,
        src_ip,
        dst_ip,
    ) + udp_header(src_port, dst_port, bytes::low16(n + 8))
}

/// A complete Ethernet + IPv4 + UDP frame.
pub open spec fn udp_frame(
    src_mac: Seq<u8>,
    dst_mac: Seq<u8>,
    src_ip: Seq<u8>,
    dst_ip: Seq<u8>,
    src_port: u16,
    dst_port: u16,
    payload: Seq<u8>,
) -> Seq<u8> {
    udp_frame_header(src_mac, dst_mac, src_ip, dst_ip, src_port, dst_port, payload.len() as int)
        + payload
}

/// A complete Ethernet + ARP frame for IPv4 over Ethernet.
pub open spec fn arp_frame(
    dst_mac: Seq<u8>,
    operation: u16,
    sender_mac: Seq<u8>,
    sender_ip: Seq<u8>,
    target_mac: Seq<u8>,
    target_ip: Seq<u8>,
) -> Seq<u8> {
    eth_header(dst_mac, sender_mac, ETHERTYPE_ARP) + bytes::be16_bytes(1) + bytes::be16_bytes(
        ETHERTYPE_IPV4,
    ) + seq![6u8, 4] + bytes::be16_bytes(operation) + sender_mac + sender_ip + target_mac
        + target_ip
}

/// The ARP reply that tells `target` our hardware address.
pub open spec fn arp_reply(
    our_mac: Seq<u8>,
    our_ip: Seq<u8>,
    target_mac: Seq<u8>,
    target_ip: Seq<u8>,
) -> Seq<u8> {
    arp_frame(target_mac, ARP_REPLY, our_mac, our_ip, target_mac, target_ip)
}

/// The broadcast ARP request for the hardware address of `target_ip`.
pub open spec fn arp_request(our_mac: Seq<u8>, our_ip: Seq<u8>, target_ip: Seq<u8>) -> Seq<u8> {
    arp_frame(
        addr::broadcast_mac(),
        ARP_REQUEST,
        our_mac,
        our_ip,
        addr::zero_mac(),
        target_ip,
    )
}

/// The part of a 20-byte TCP header before its checksum field: five words long,
/// window 65535.
pub open spec fn tcp_before_checksum(
    src_port: u16,
    dst_port: u16,
    seq_no: u32,
    ack_no: u32,
    flags: u8,
) -> Seq<u8> {
    bytes::be16_bytes(src_port) + bytes::be16_bytes(dst_port) + bytes::be32_bytes(seq_no)
        + bytes::be32_bytes(ack_no) + seq![0x50u8, flags] + bytes::be16_bytes(65535)
}

/// A TCP segment with `ck` in its checksum field and urgent pointer zero.
pub open spec fn tcp_segment_with(
    src_port: u16,
    dst_port: u16,
    seq_no: u32,
    ack_no: u32,
    flags: u8,
    ck: u16,
    payload: Seq<u8>,
) -> Seq<u8> {
    tcp_before_checksum(src_port, dst_port, seq_no, ack_no, flags) + bytes::be16_bytes(ck) + (
    bytes::be16_bytes(0) + payload)
}

/// The pseudo-header of a TCP checksum for a segment of `n` bytes.
pub open spec fn tcp_pseudo_header(src_ip: Seq<u8>, dst_ip: Seq<u8>, n: int) -> Seq<u8> {
    src_ip + dst_ip + seq![0u8, PROTO_TCP] + bytes::be16_bytes(bytes::low16(n))
}

/// What a TCP checksum covers: the pseudo-header and the segment.
pub open spec fn tcp_pseudo(src_ip: Seq<u8>, dst_ip: Seq<u8>, segment: Seq<u8>) -> Seq<u8> {
    tcp_pseudo_header(src_ip, dst_ip, segment.len() as int) + segment
}

/// A complete TCP segment: its checksum is that of the pseudo-header and the
/// segment with a zero checksum field.
pub open spec fn tcp_segment(
    src_ip: Seq<u8>,
    dst_ip: Seq<u8>,
    src_port: u16,
    dst_port: u16,
    seq_no: u32,
    ack_no: u32,
    flags: u8,
    payload: Seq<u8>,
) -> Seq<u8> {
    let blank = tcp_segment_with(src_port, dst_port, seq_no, ack_no, flags, 0, payload);
    tcp_segment_with(
        src_port,
        dst_port,
        seq_no,
        ack_no,
        flags,
        checksum::checksum(tcp_pseudo(src_ip, dst_ip, blank)),
        payload,
    )
}

/// A complete Ethernet + IPv4 + TCP frame, sent to the broadcast address.
pub open spec fn tcp_frame(
    src_mac: Seq<u8>,
    src_ip: Seq<u8>,
    src_port: u16,
    dst_ip: Seq<u8>,
    dst_port: u16,
    seq_no: u32,
    ack_no: u32,
    flags: u8,
    payload: Seq<u8>,
) -> Seq<u8> {
    eth_header(addr::broadcast_mac(), src_mac, ETHERTYPE_IPV4) + ipv4_header(
        bytes::low16(payload.len() as int + 40),
        PROTO_TCP,
        src_ip,
        dst_ip,
    ) + tcp_segment(src_ip, dst_ip, src_port, dst_port, seq_no, ack_no, flags, payload)
}

/// The checksum accumulator does not overflow on a segment that carries `payload`.
pub open spec fn tcp_sum_fits(
    src_ip: Seq<u8>,
    dst_ip: Seq<u8>,
    src_port: u16,
    dst_port: u16,
    seq_no: u32,
    ack_no: u32,
    flags: u8,
    payload: Seq<u8>,
) -> bool {
    checksum::sum_fits(
        tcp_pseudo(
            src_ip,
            dst_ip,
            tcp_segment_with(src_port, dst_port, seq_no, ack_no, flags, 0, payload),
        ),
    )
}

/// Appends an Ethernet header to `buf`.
fn push_eth_header(buf: &mut Vec<u8>, dst: &MacAddress, src: &MacAddress, ethertype: u16)
    ensures
        final(buf)@ == old(buf)@ + eth_header(dst@, src@, ethertype),
{
    let ghost before = buf@;
    bytes::push_all(buf, &dst.0);
    bytes::push_all(buf, &src.0);
    bytes::push_be16(buf, ethertype);
    assert(buf@ =~= before + eth_header(dst@, src@, ethertype));
}

/// Appends an IPv4 header with `ck` in its checksum field to `buf`.
fn push_ipv4_header_with(
    buf: &mut Vec<u8>,
    total_len: u16,
    proto: u8,
    src: &IPv4,
    dst: &IPv4,
    ck: u16,
)
    ensures
        final(buf)@ == old(buf)@ + ipv4_header_with(total_len, proto, src@, dst@, ck),
{
    let ghost before = buf@;
    buf.push(0x45);
    buf.push(0);
    bytes::push_be16(buf, total_len);
    buf.push(0);
    buf.push(0);
    buf.push(0);
    buf.push(0);
    buf.push(64);
    buf.push(proto);
    bytes::push_be16(buf, ck);
    bytes::push_all(buf, &src.0);
    bytes::push_all(buf, &dst.0);
    assert(buf@ =~= before + ipv4_header_with(total_len, proto, src@, dst@, ck));
}

/// Appends a complete IPv4 header to `buf`.
fn push_ipv4_header(buf: &mut Vec<u8>, total_len: u16, proto: u8, src: &IPv4, dst: &IPv4)
    ensures
        final(buf)@ == old(buf)@ + ipv4_header(total_len, proto, src@, dst@),
{
    let mut blank: Vec<u8> = Vec::new();
    push_ipv4_header_with(&mut blank, total_len, proto, src, dst, 0);
    proof {
        assert(blank@ =~= ipv4_header_with(total_len, proto, src@, dst@, 0));
        checksum::law_short_data_sum_fits(blank@);
    }
    let ck = checksum::internet_checksum(&blank);
    push_ipv4_header_with(buf, total_len, proto, src, dst, ck);
}

/// Appends a TCP segment with `ck` in its checksum field to `buf`.
fn push_tcp_segment_with(
    buf: &mut Vec<u8>,
    src_port: u16,
    dst_port: u16,
    seq_no: u32,
    ack_no: u32,
    flags: u8,
    ck: u16,
    payload: &[u8],
)
    ensures
        final(buf)@ == old(buf)@ + tcp_segment_with(
            src_port,
            dst_port,
            seq_no,
            ack_no,
            flags,
            ck,
            payload@,
        ),
{
    let ghost before = buf@;
    bytes::push_be16(buf, src_port);
    bytes::push_be16(buf, dst_port);
    bytes::push_be32(buf, seq_no);
    bytes::push_be32(buf, ack_no);
    buf.push(0x50);
    buf.push(flags);
    bytes::push_be16(buf, 65535);
    bytes::push_be16(buf, ck);
    bytes::push_be16(buf, 0);
    bytes::push_all(buf, payload);
    assert(buf@ =~= before + tcp_segment_with(
        src_port,
        dst_port,
        seq_no,
        ack_no,
        flags,
        ck,
        payload@,
    ));
}

/// Appends the 42 header bytes of a UDP frame to `buf`.
pub fn push_udp_frame_header(
    buf: &mut Vec<u8>,
    src_mac: &MacAddress,
    dst_mac: &MacAddress,
    src_ip: &IPv4,
    dst_ip: &IPv4,
    src_port: u16,
    dst_port: u16,
    payload_len: usize,
)
    ensures
        final(buf)@ == old(buf)@ + udp_frame_header(
            src_mac@,
            dst_mac@,
            src_ip@,
            dst_ip@,
            src_port,
            dst_port,
            payload_len as int,
        ),
{
    let ghost before = buf@;
    push_eth_header(buf, dst_mac, src_mac, ETHERTYPE_IPV4);
    push_ipv4_header(buf, bytes::to_low16_plus(payload_len, 28), PROTO_UDP, src_ip, dst_ip);
    bytes::push_be16(buf, src_port);
    bytes::push_be16(buf, dst_port);
    bytes::push_be16(buf, bytes::to_low16_plus(payload_len, 8));
    bytes::push_be16(buf, 0);
    assert(buf@ =~= before + udp_frame_header(
        src_mac@,
        dst_mac@,
        src_ip@,
        dst_ip@,
        src_port,
        dst_port,
        payload_len as int,
    ));
}

/// Build a complete Ethernet + IPv4 + UDP frame.
///
/// The length fields hold the low 16 bits of the lengths, so a payload of more
/// than 65507 bytes is carried whole but announced wrongly.
pub fn build_udp_packet(
    src_mac: &MacAddress,
    dst_mac: &MacAddress,
    src_ip: &IPv4,
    dst_ip: &IPv4,
    src_port: u16,
    dst_port: u16,
    payload: &[u8],
) -> (buf: Vec<u8>)
    ensures
        buf@ == udp_frame(src_mac@, dst_mac@, src_ip@, dst_ip@, src_port, dst_port, payload@),
{
    let mut buf: Vec<u8> = Vec::new();
    push_udp_frame_header(
        &mut buf,
        src_mac,
        dst_mac,
        src_ip,
        dst_ip,
        src_port,
        dst_port,
        payload.len(),
    );
    bytes::push_all(&mut buf, payload);
    assert(buf@ =~= udp_frame(
        src_mac@,
        dst_mac@,
        src_ip@,
        dst_ip@,
        src_port,
        dst_port,
        payload@,
    ));
    buf
}

/// Appends an ARP frame to an empty buffer.
fn build_arp(
    dst_mac: &MacAddress,
    operation: u16,
    sender_mac: &MacAddress,
    sender_ip: &IPv4,
    target_mac: &MacAddress,
    target_ip: &IPv4,
) -> (buf: Vec<u8>)
    ensures
        buf@ == arp_frame(
            dst_mac@,
            operation,
            sender_mac@,
            sender_ip@,
            target_mac@,
            target_ip@,
        ),
{
    let mut buf: Vec<u8> = Vec::new();
    push_eth_header(&mut buf, dst_mac, sender_mac, ETHERTYPE_ARP);
    bytes::push_be16(&mut buf, 1);  // hardware type: Ethernet
    bytes::push_be16(&mut buf, ETHERTYPE_IPV4);
    buf.push(6);
    buf.push(4);
    bytes::push_be16(&mut buf, operation);
    bytes::push_all(&mut buf, &sender_mac.0);
    bytes::push_all(&mut buf, &sender_ip.0);
    bytes::push_all(&mut buf, &target_mac.0);
    bytes::push_all(&mut buf, &target_ip.0);
    assert(buf@ =~= arp_frame(
        dst_mac@,
        operation,
        sender_mac@,
        sender_ip@,
        target_mac@,
        target_ip@,
    ));
    buf
}

/// Build an ARP reply frame.
pub fn build_arp_reply(
    our_mac: &MacAddress,
    our_ip: &IPv4,
    target_mac: &MacAddress,
    target_ip: &IPv4,
) -> (buf: Vec<u8>)
    ensures
        buf@ == arp_reply(our_mac@, our_ip@, target_mac@, target_ip@),
{
    build_arp(target_mac, ARP_REPLY, our_mac, our_ip, target_mac, target_ip)
}

/// Build an ARP request for `target_ip`.
pub fn build_arp_request(our_mac: &MacAddress, our_ip: &IPv4, target_ip: &IPv4) -> (buf: Vec<u8>)
    ensures
        buf@ == arp_request(our_mac@, our_ip@, target_ip@),
{
    let unknown = MacAddress::new([0, 0, 0, 0, 0, 0]);
    assert(unknown@ =~= addr::zero_mac());
    build_arp(&MacAddress::broadcast(), ARP_REQUEST, our_mac, our_ip, &unknown, target_ip)
}

/// The TCP checksum of `tcp_segment` between two addresses.
pub fn tcp_checksum(src_ip: &IPv4, dst_ip: &IPv4, tcp_segment: &[u8]) -> (r: u16)
    requires
        checksum::sum_fits(tcp_pseudo(src_ip@, dst_ip@, tcp_segment@)),
    ensures
        r == checksum::checksum(tcp_pseudo(src_ip@, dst_ip@, tcp_segment@)),
{
    let pseudo = pseudo_bytes(src_ip, dst_ip, tcp_segment);
    checksum::internet_checksum(&pseudo)
}

/// What the TCP checksum of `tcp_segment` covers.
fn pseudo_bytes(src_ip: &IPv4, dst_ip: &IPv4, tcp_segment: &[u8]) -> (pseudo: Vec<u8>)
    ensures
        pseudo@ == tcp_pseudo(src_ip@, dst_ip@, tcp_segment@),
{
    let mut pseudo: Vec<u8> = Vec::new();
    bytes::push_all(&mut pseudo, &src_ip.0);
    bytes::push_all(&mut pseudo, &dst_ip.0);
    pseudo.push(0);
    pseudo.push(PROTO_TCP);
    bytes::push_be16(&mut pseudo, bytes::to_low16_plus(tcp_segment.len(), 0));
    bytes::push_all(&mut pseudo, tcp_segment);
    assert(pseudo@ =~= tcp_pseudo(src_ip@, dst_ip@, tcp_segment@));
    pseudo
}

/// Tests whether the checksum of a segment that carries `payload` can be
/// computed without overflow.
pub fn can_build_tcp(
    src_ip: &IPv4,
    dst_ip: &IPv4,
    src_port: u16,
    dst_port: u16,
    seq: u32,
    ack: u32,
    flags: TcpFlags,
    payload: &[u8],
) -> (r: bool)
    ensures
        r == tcp_sum_fits(src_ip@, dst_ip@, src_port, dst_port, seq, ack, flags.bits, payload@),
{
    let mut blank: Vec<u8> = Vec::new();
    push_tcp_segment_with(&mut blank, src_port, dst_port, seq, ack, flags.bits, 0, payload);
    assert(blank@ =~= tcp_segment_with(src_port, dst_port, seq, ack, flags.bits, 0, payload@));
    checksum::can_sum(&pseudo_bytes(src_ip, dst_ip, &blank))
}

/// Build a complete Ethernet + IPv4 + TCP frame with payload.
pub fn build_tcp_data_packet(
    src_mac: &MacAddress,
    src_ip: &IPv4,
    src_port: u16,
    dst_ip: &IPv4,
    dst_port: u16,
    seq: u32,
    ack: u32,
    flags: TcpFlags,
    payload: &[u8],
) -> (buf: Vec<u8>)
    requires
        tcp_sum_fits(src_ip@, dst_ip@, src_port, dst_port, seq, ack, flags.bits, payload@),
    ensures
        buf@ == tcp_frame(
            src_mac@,
            src_ip@,
            src_port,
            dst_ip@,
            dst_port,
            seq,
            ack,
            flags.bits,
            payload@,
        ),
{
    let mut blank: Vec<u8> = Vec::new();
    push_tcp_segment_with(&mut blank, src_port, dst_port, seq, ack, flags.bits, 0, payload);
    assert(blank@ =~= tcp_segment_with(src_port, dst_port, seq, ack, flags.bits, 0, payload@));
    let ck = tcp_checksum(src_ip, dst_ip, &blank);

    let mut buf: Vec<u8> = Vec::new();
    push_eth_header(&mut buf, &MacAddress::broadcast(), src_mac, ETHERTYPE_IPV4);
    push_ipv4_header(
        &mut buf,
        bytes::to_low16_plus(payload.len(), 40),
        PROTO_TCP,
        src_ip,
        dst_ip,
    );
    push_tcp_segment_with(&mut buf, src_port, dst_port, seq, ack, flags.bits, ck, payload);
    assert(buf@ =~= tcp_frame(
        src_mac@,
        src_ip@,
        src_port,
        dst_ip@,
        dst_port,
        seq,
        ack,
        flags.bits,
        payload@,
    ));
    buf
}

/// A receiver that checks the IPv4 header of a frame built here computes
/// checksum zero.
pub proof fn law_ipv4_header_verifies(total_len: u16, proto: u8, src: Seq<u8>, dst: Seq<u8>)
    ensures
        checksum::checksum(ipv4_header(total_len, proto, src, dst)) == 0,
{
    checksum::law_checksum_verifies(ipv4_before_checksum(total_len, proto), src + dst);
}

/// A receiver that checks the TCP checksum of a frame built here computes zero.
pub proof fn law_tcp_segment_verifies(
    src_ip: Seq<u8>,
    dst_ip: Seq<u8>,
    src_port: u16,
    dst_port: u16,
    seq_no: u32,
    ack_no: u32,
    flags: u8,
    payload: Seq<u8>,
)
    requires
        src_ip.len() == 4,
        dst_ip.len() == 4,
    ensures
        checksum::checksum(
            tcp_pseudo(
                src_ip,
                dst_ip,
                tcp_segment(
                    src_ip,
                    dst_ip,
                    src_port,
                    dst_port,
                    seq_no,
                    ack_no,
                    flags,
                    payload,
                ),
            ),
        ) == 0,
{
    let n: int = payload.len() as int + 20;
    let head = tcp_pseudo_header(src_ip, dst_ip, n) + tcp_before_checksum(
        src_port,
        dst_port,
        seq_no,
        ack_no,
        flags,
    );
    let tail = bytes::be16_bytes(0) + payload;
    let blank = tcp_segment_with(src_port, dst_port, seq_no, ack_no, flags, 0, payload);
    let ck = checksum::checksum(tcp_pseudo(src_ip, dst_ip, blank));
    let full = tcp_segment_with(src_port, dst_port, seq_no, ack_no, flags, ck, payload);
    assert(blank.len() == n);
    assert(full.len() == n);
    assert(tcp_pseudo(src_ip, dst_ip, blank) =~= head + bytes::be16_bytes(0) + tail);
    assert(tcp_pseudo(src_ip, dst_ip, full) =~= head + bytes::be16_bytes(ck) + tail);
    assert(head.len() == 28);
    checksum::law_checksum_verifies(head, tail);
}

/// Any payload an IPv4 packet can announce keeps the TCP checksum accumulator
/// within its 32 bits.
pub proof fn law_tcp_sum_fits(
    src_ip: Seq<u8>,
    dst_ip: Seq<u8>,
    src_port: u16,
    dst_port: u16,
    seq_no: u32,
    ack_no: u32,
    flags: u8,
    payload: Seq<u8>,
)
    requires
        src_ip.len() == 4,
        dst_ip.len() == 4,
        payload.len() <= 131042,
    ensures
        tcp_sum_fits(src_ip, dst_ip, src_port, dst_port, seq_no, ack_no, flags, payload),
{
    let blank = tcp_segment_with(src_port, dst_port, seq_no, ack_no, flags, 0, payload);
    checksum::law_short_data_sum_fits(tcp_pseudo(src_ip, dst_ip, blank));
}

/// The 34 bytes of an Ethernet header and an IPv4 header: destination and
/// source hardware address, EtherType 0x0800, version 4 with five words, total
/// length, no fragment, time to live 64, protocol, and at the end the source
/// address and then the destination address.
pub proof fn law_ipv4_headers_layout(
    dst_mac: Seq<u8>,
    src_mac: Seq<u8>,
    total_len: u16,
    proto: u8,
    src: Seq<u8>,
    dst: Seq<u8>,
)
    requires
        dst_mac.len() == 6,
        src_mac.len() == 6,
        src.len() == 4,
        dst.len() == 4,
    ensures
        ({
            let f = eth_header(dst_mac, src_mac, ETHERTYPE_IPV4) + ipv4_header(
                total_len,
                proto,
                src,
                dst,
            );
            &&& f.len() == 34
            &&& f.subrange(0, 6) == dst_mac
            &&& f.subrange(6, 12) == src_mac
            &&& f[12] == 0x08 && f[13] == 0x00
            &&& f[14] == 0x45 && f[15] == 0
            &&& f[16] * 256 + f[17] == total_len
            &&& f[18] == 0 && f[19] == 0 && f[20] == 0 && f[21] == 0
            &&& f[22] == 64 && f[23] == proto
            &&& f.subrange(26, 30) == src
            &&& f.subrange(30, 34) == dst
            &&& checksum::word_sum(f.subrange(14, 34)) % 65535 == 0
            &&& !(f[24] == 255 && f[25] == 255)
        }),
{
    let h = ipv4_header(total_len, proto, src, dst);
    let f = eth_header(dst_mac, src_mac, ETHERTYPE_IPV4) + h;
    assert(f.subrange(0, 6) =~= dst_mac);
    assert(f.subrange(6, 12) =~= src_mac);
    assert(f.subrange(26, 30) =~= src);
    assert(f.subrange(30, 34) =~= dst);
    assert(f.subrange(14, 34) =~= h);
    law_ipv4_header_verifies(total_len, proto, src, dst);
    checksum::law_checksum_completes_the_sum(h);
    let blank = ipv4_header_with(total_len, proto, src, dst, 0);
    assert(blank =~= seq![0x45u8, 0] + blank.skip(2));
    checksum::law_word_sum_adds_words(0x45, 0, blank.skip(2));
    checksum::law_checksum_completes_the_sum(blank);
    let ck = ipv4_checksum(total_len, proto, src, dst);
    assert(f[24] == ck / 256 && f[25] == ck % 256);
}

/// The bytes of a UDP frame: the headers of an IPv4 packet with protocol 17,
/// the ports, the length of header and payload, no checksum, and the payload.
pub proof fn law_udp_frame_layout(
    src_mac: Seq<u8>,
    dst_mac: Seq<u8>,
    src_ip: Seq<u8>,
    dst_ip: Seq<u8>,
    src_port: u16,
    dst_port: u16,
    payload: Seq<u8>,
)
    requires
        src_mac.len() == 6,
        dst_mac.len() == 6,
        src_ip.len() == 4,
        dst_ip.len() == 4,
    ensures
        ({
            let f = udp_frame(src_mac, dst_mac, src_ip, dst_ip, src_port, dst_port, payload);
            &&& f.len() == 42 + payload.len()
            &&& f.subrange(0, 6) == dst_mac
            &&& f.subrange(6, 12) == src_mac
            &&& f[12] == 0x08 && f[13] == 0x00
            &&& f[14] == 0x45 && f[15] == 0
            &&& f[16] * 256 + f[17] == (payload.len() + 28) % 0x1_0000
            &&& f[18] == 0 && f[19] == 0 && f[20] == 0 && f[21] == 0
            &&& f[22] == 64 && f[23] == 17
            &&& f.subrange(26, 30) == src_ip
            &&& f.subrange(30, 34) == dst_ip
            &&& f[34] * 256 + f[35] == src_port
            &&& f[36] * 256 + f[37] == dst_port
            &&& f[38] * 256 + f[39] == (payload.len() + 8) % 0x1_0000
            &&& f[40] == 0 && f[41] == 0
            &&& f.skip(42) == payload
            &&& checksum::word_sum(f.subrange(14, 34)) % 65535 == 0
            &&& !(f[24] == 255 && f[25] == 255)
        }),
{
    let n = payload.len() as int;
    let total = bytes::low16(n + 28);
    let f = udp_frame(src_mac, dst_mac, src_ip, dst_ip, src_port, dst_port, payload);
    let h = eth_header(dst_mac, src_mac, ETHERTYPE_IPV4) + ipv4_header(
        total,
        PROTO_UDP,
        src_ip,
        dst_ip,
    );
    let u = udp_header(src_port, dst_port, bytes::low16(n + 8));
    law_ipv4_headers_layout(dst_mac, src_mac, total, PROTO_UDP, src_ip, dst_ip);
    lemma_udp_header(src_port, dst_port, bytes::low16(n + 8));
    lemma_headers_in_front(h, u + payload);
    assert(f =~= h + (u + payload));
    assert(forall|i: int| 0 <= i < 8 ==> f[34 + i] == #[trigger] u[i]);
    assert(f.skip(42) =~= payload);
    assert((u + payload).len() == 8 + n);
}

/// The bytes of a UDP header.
proof fn lemma_udp_header(src_port: u16, dst_port: u16, udp_len: u16)
    ensures
        ({
            let u = udp_header(src_port, dst_port, udp_len);
            &&& u.len() == 8
            &&& u[0] * 256 + u[1] == src_port
            &&& u[2] * 256 + u[3] == dst_port
            &&& u[4] * 256 + u[5] == udp_len
            &&& u[6] == 0 && u[7] == 0
        }),
{
}

/// What stands in the 34 header bytes in front of a packet stands there in the
/// whole frame.
proof fn lemma_headers_in_front(h: Seq<u8>, rest: Seq<u8>)
    requires
        h.len() == 34,
    ensures
        (h + rest).len() == 34 + rest.len(),
        (h + rest).subrange(0, 6) == h.subrange(0, 6),
        (h + rest).subrange(6, 12) == h.subrange(6, 12),
        (h + rest).subrange(14, 34) == h.subrange(14, 34),
        (h + rest).subrange(26, 30) == h.subrange(26, 30),
        (h + rest).subrange(30, 34) == h.subrange(30, 34),
        (h + rest).subrange(26, 34) == h.subrange(26, 34),
        (h + rest).skip(34) == rest,
        forall|i: int| 0 <= i < 34 ==> (h + rest)[i] == h[i],
        forall|i: int| 0 <= i < rest.len() ==> #[trigger] (h + rest)[34 + i] == rest[i],
{
    let f = h + rest;
    assert(f.subrange(0, 6) =~= h.subrange(0, 6));
    assert(f.subrange(6, 12) =~= h.subrange(6, 12));
    assert(f.subrange(14, 34) =~= h.subrange(14, 34));
    assert(f.subrange(26, 30) =~= h.subrange(26, 30));
    assert(f.subrange(30, 34) =~= h.subrange(30, 34));
    assert(f.subrange(26, 34) =~= h.subrange(26, 34));
    assert(f.skip(34) =~= rest);
}

/// The bytes of an ARP frame: hardware type 1, protocol type 0x0800, lengths 6
/// and 4, the operation, and sender and target with their addresses.
pub proof fn law_arp_frame_layout(
    dst_mac: Seq<u8>,
    operation: u16,
    sender_mac: Seq<u8>,
    sender_ip: Seq<u8>,
    target_mac: Seq<u8>,
    target_ip: Seq<u8>,
)
    requires
        dst_mac.len() == 6,
        sender_mac.len() == 6,
        sender_ip.len() == 4,
        target_mac.len() == 6,
        target_ip.len() == 4,
    ensures
        ({
            let f = arp_frame(dst_mac, operation, sender_mac, sender_ip, target_mac, target_ip);
            &&& f.len() == 42
            &&& f.subrange(0, 6) == dst_mac
            &&& f.subrange(6, 12) == sender_mac
            &&& f[12] == 0x08 && f[13] == 0x06
            &&& f[14] == 0 && f[15] == 1
            &&& f[16] == 0x08 && f[17] == 0x00
            &&& f[18] == 6 && f[19] == 4
            &&& f[20] * 256 + f[21] == operation
            &&& f.subrange(22, 28) == sender_mac
            &&& f.subrange(28, 32) == sender_ip
            &&& f.subrange(32, 38) == target_mac
            &&& f.subrange(38, 42) == target_ip
        }),
{
    let f = arp_frame(dst_mac, operation, sender_mac, sender_ip, target_mac, target_ip);
    assert(f.subrange(0, 6) =~= dst_mac);
    assert(f.subrange(6, 12) =~= sender_mac);
    assert(f.subrange(22, 28) =~= sender_mac);
    assert(f.subrange(28, 32) =~= sender_ip);
    assert(f.subrange(32, 38) =~= target_mac);
    assert(f.subrange(38, 42) =~= target_ip);
}

/// An ARP reply goes to its target alone, with operation 2, and names us as the
/// sender.
pub proof fn law_arp_reply_layout(
    our_mac: Seq<u8>,
    our_ip: Seq<u8>,
    target_mac: Seq<u8>,
    target_ip: Seq<u8>,
)
    requires
        our_mac.len() == 6,
        our_ip.len() == 4,
        target_mac.len() == 6,
        target_ip.len() == 4,
    ensures
        ({
            let f = arp_reply(our_mac, our_ip, target_mac, target_ip);
            &&& f.len() == 42
            &&& f.subrange(0, 6) == target_mac
            &&& f.subrange(6, 12) == our_mac
            &&& f.subrange(12, 22) == seq![0x08u8, 0x06, 0, 1, 0x08, 0x00, 6, 4, 0, 2]
            &&& f.subrange(22, 28) == our_mac
            &&& f.subrange(28, 32) == our_ip
            &&& f.subrange(32, 38) == target_mac
            &&& f.subrange(38, 42) == target_ip
        }),
{
    let f = arp_reply(our_mac, our_ip, target_mac, target_ip);
    law_arp_frame_layout(target_mac, ARP_REPLY, our_mac, our_ip, target_mac, target_ip);
    assert(f.subrange(12, 22) =~= seq![0x08u8, 0x06, 0, 1, 0x08, 0x00, 6, 4, 0, 2]);
}

/// An ARP request goes to everyone, with operation 1, names us as the sender,
/// and leaves the target's hardware address zero.
pub proof fn law_arp_request_layout(our_mac: Seq<u8>, our_ip: Seq<u8>, target_ip: Seq<u8>)
    requires
        our_mac.len() == 6,
        our_ip.len() == 4,
        target_ip.len() == 4,
    ensures
        ({
            let f = arp_request(our_mac, our_ip, target_ip);
            &&& f.len() == 42
            &&& f.subrange(0, 6) == seq![255u8, 255, 255, 255, 255, 255]
            &&& f.subrange(6, 12) == our_mac
            &&& f.subrange(12, 22) == seq![0x08u8, 0x06, 0, 1, 0x08, 0x00, 6, 4, 0, 1]
            &&& f.subrange(22, 28) == our_mac
            &&& f.subrange(28, 32) == our_ip
            &&& f.subrange(32, 38) == seq![0u8, 0, 0, 0, 0, 0]
            &&& f.subrange(38, 42) == target_ip
        }),
{
    let f = arp_request(our_mac, our_ip, target_ip);
    addr::law_special_addresses(0);
    law_arp_frame_layout(
        addr::broadcast_mac(),
        ARP_REQUEST,
        our_mac,
        our_ip,
        addr::zero_mac(),
        target_ip,
    );
    assert(f.subrange(12, 22) =~= seq![0x08u8, 0x06, 0, 1, 0x08, 0x00, 6, 4, 0, 1]);
}

/// The bytes of a TCP segment: ports, sequence and acknowledgement number, five
/// header words, the flags, window 65535, a checksum, urgent pointer zero, and
/// the payload. With the addresses, protocol 6 and the length of the segment,
/// its words sum to a multiple of 65535.
pub proof fn law_tcp_segment_layout(
    src_ip: Seq<u8>,
    dst_ip: Seq<u8>,
    src_port: u16,
    dst_port: u16,
    seq_no: u32,
    ack_no: u32,
    flags: u8,
    payload: Seq<u8>,
)
    requires
        src_ip.len() == 4,
        dst_ip.len() == 4,
    ensures
        ({
            let s = tcp_segment(
                src_ip,
                dst_ip,
                src_port,
                dst_port,
                seq_no,
                ack_no,
                flags,
                payload,
            );
            &&& s.len() == 20 + payload.len()
            &&& s[0] * 256 + s[1] == src_port
            &&& s[2] * 256 + s[3] == dst_port
            &&& ((s[4] * 256 + s[5]) * 256 + s[6]) * 256 + s[7] == seq_no
            &&& ((s[8] * 256 + s[9]) * 256 + s[10]) * 256 + s[11] == ack_no
            &&& s[12] == 0x50 && s[13] == flags
            &&& s[14] == 255 && s[15] == 255
            &&& s[18] == 0 && s[19] == 0
            &&& s.skip(20) == payload
            &&& (checksum::word_sum(src_ip + dst_ip) + 6 + (payload.len() + 20) % 0x1_0000
                + checksum::word_sum(s)) % 65535 == 0
            &&& !(s[16] == 255 && s[17] == 255)
        }),
{
    let n: int = payload.len() as int + 20;
    let blank = tcp_segment_with(src_port, dst_port, seq_no, ack_no, flags, 0, payload);
    let ck = checksum::checksum(tcp_pseudo(src_ip, dst_ip, blank));
    let s = tcp_segment(src_ip, dst_ip, src_port, dst_port, seq_no, ack_no, flags, payload);
    let b = tcp_before_checksum(src_port, dst_port, seq_no, ack_no, flags);
    lemma_tcp_header(src_port, dst_port, seq_no, ack_no, flags);
    assert(b.len() == 16);
    assert(s.len() == n);
    assert(blank.len() == n);
    assert(forall|i: int| 0 <= i < 16 ==> s[i] == b[i]);
    assert(s[16] == ck / 256 && s[17] == ck % 256);
    assert(s.skip(20) =~= payload);
    lemma_pseudo_sum(src_ip, dst_ip, s);
    lemma_pseudo_sum(src_ip, dst_ip, blank);
    law_tcp_segment_verifies(
        src_ip,
        dst_ip,
        src_port,
        dst_port,
        seq_no,
        ack_no,
        flags,
        payload,
    );
    checksum::law_checksum_completes_the_sum(tcp_pseudo(src_ip, dst_ip, s));
    checksum::law_checksum_completes_the_sum(tcp_pseudo(src_ip, dst_ip, blank));
}

/// The bytes of a TCP header before its checksum field.
proof fn lemma_tcp_header(src_port: u16, dst_port: u16, seq_no: u32, ack_no: u32, flags: u8)
    ensures
        ({
            let b = tcp_before_checksum(src_port, dst_port, seq_no, ack_no, flags);
            &&& b.len() == 16
            &&& b[0] * 256 + b[1] == src_port
            &&& b[2] * 256 + b[3] == dst_port
            &&& ((b[4] * 256 + b[5]) * 256 + b[6]) * 256 + b[7] == seq_no
            &&& ((b[8] * 256 + b[9]) * 256 + b[10]) * 256 + b[11] == ack_no
            &&& b[12] == 0x50 && b[13] == flags
            &&& b[14] == 255 && b[15] == 255
        }),
{
    let b = tcp_before_checksum(src_port, dst_port, seq_no, ack_no, flags);
    let x = bytes::be32_bytes(seq_no);
    let y = bytes::be32_bytes(ack_no);
    bytes::law_bytes_are_positional(0, seq_no, b, 0, 0, 0);
    bytes::law_bytes_are_positional(0, ack_no, b, 0, 0, 0);
    assert(b[4] == x[0] && b[5] == x[1] && b[6] == x[2] && b[7] == x[3]);
    assert(b[8] == y[0] && b[9] == y[1] && b[10] == y[2] && b[11] == y[3]);
}

/// The word sum of what a TCP checksum covers.
proof fn lemma_pseudo_sum(src_ip: Seq<u8>, dst_ip: Seq<u8>, segment: Seq<u8>)
    requires
        src_ip.len() == 4,
        dst_ip.len() == 4,
    ensures
        checksum::word_sum(tcp_pseudo(src_ip, dst_ip, segment)) == checksum::word_sum(
            src_ip + dst_ip,
        ) + 6 + segment.len() % 0x1_0000 + checksum::word_sum(segment),
{
    let ips = src_ip + dst_ip;
    let proto = seq![0u8, 6];
    let v = bytes::low16(segment.len() as int);
    let len = bytes::be16_bytes(v);
    checksum::law_word_sum_adds_words(0, 6, Seq::empty());
    assert(proto + Seq::<u8>::empty() =~= proto);
    checksum::lemma_word_sum_concat(ips, proto);
    assert(tcp_pseudo(src_ip, dst_ip, segment) =~= (ips + proto) + len + segment);
    checksum::lemma_field_sum(ips + proto, v, segment);
}

/// The bytes of a TCP frame: it goes to the broadcast hardware address, its
/// IPv4 header has protocol 6 and the addresses given, source first, and its TCP
/// checksum verifies over the pseudo-header that the frame's own IPv4 header
/// gives.
pub proof fn law_tcp_frame_layout(
    src_mac: Seq<u8>,
    src_ip: Seq<u8>,
    src_port: u16,
    dst_ip: Seq<u8>,
    dst_port: u16,
    seq_no: u32,
    ack_no: u32,
    flags: u8,
    payload: Seq<u8>,
)
    requires
        src_mac.len() == 6,
        src_ip.len() == 4,
        dst_ip.len() == 4,
    ensures
        ({
            let f = tcp_frame(
                src_mac,
                src_ip,
                src_port,
                dst_ip,
                dst_port,
                seq_no,
                ack_no,
                flags,
                payload,
            );
            &&& f.len() == 54 + payload.len()
            &&& f.subrange(0, 6) == seq![255u8, 255, 255, 255, 255, 255]
            &&& f.subrange(6, 12) == src_mac
            &&& f[12] == 0x08 && f[13] == 0x00
            &&& f[14] == 0x45 && f[15] == 0
            &&& f[16] * 256 + f[17] == (payload.len() + 40) % 0x1_0000
            &&& f[18] == 0 && f[19] == 0 && f[20] == 0 && f[21] == 0
            &&& f[22] == 64 && f[23] == 6
            &&& f.subrange(26, 30) == src_ip
            &&& f.subrange(30, 34) == dst_ip
            &&& f[34] * 256 + f[35] == src_port
            &&& f[36] * 256 + f[37] == dst_port
            &&& ((f[38] * 256 + f[39]) * 256 + f[40]) * 256 + f[41] == seq_no
            &&& ((f[42] * 256 + f[43]) * 256 + f[44]) * 256 + f[45] == ack_no
            &&& f[46] == 0x50 && f[47] == flags
            &&& f[48] == 255 && f[49] == 255
            &&& f[52] == 0 && f[53] == 0
            &&& f.skip(54) == payload
            &&& checksum::word_sum(f.subrange(14, 34)) % 65535 == 0
            &&& !(f[24] == 255 && f[25] == 255)
            &&& (checksum::word_sum(f.subrange(26, 34)) + f[23] + (f.len() - 34) % 0x1_0000
                + checksum::word_sum(f.skip(34))) % 65535 == 0
            &&& !(f[50] == 255 && f[51] == 255)
        }),
{
    let n = payload.len() as int;
    let total = bytes::low16(n + 40);
    let f = tcp_frame(
        src_mac,
        src_ip,
        src_port,
        dst_ip,
        dst_port,
        seq_no,
        ack_no,
        flags,
        payload,
    );
    let h = eth_header(addr::broadcast_mac(), src_mac, ETHERTYPE_IPV4) + ipv4_header(
        total,
        PROTO_TCP,
        src_ip,
        dst_ip,
    );
    let s = tcp_segment(src_ip, dst_ip, src_port, dst_port, seq_no, ack_no, flags, payload);
    addr::law_special_addresses(0);
    law_ipv4_headers_layout(addr::broadcast_mac(), src_mac, total, PROTO_TCP, src_ip, dst_ip);
    law_tcp_segment_layout(
        src_ip,
        dst_ip,
        src_port,
        dst_port,
        seq_no,
        ack_no,
        flags,
        payload,
    );
    assert(f == h + s);
    lemma_headers_in_front(h, s);
    lemma_frame_of_parts(h, s, f, src_ip, dst_ip);
    assert(f.skip(54) =~= s.skip(20));
}

/// Where the bytes of a segment stand in a frame.
proof fn lemma_frame_of_parts(
    h: Seq<u8>,
    s: Seq<u8>,
    f: Seq<u8>,
    src_ip: Seq<u8>,
    dst_ip: Seq<u8>,
)
    requires
        h.len() == 34,
        s.len() >= 20,
        f == h + s,
        h.subrange(26, 30) == src_ip,
        h.subrange(30, 34) == dst_ip,
    ensures
        forall|i: int| 34 <= i < 54 ==> f[i] == s[i - 34],
        f.subrange(26, 34) == src_ip + dst_ip,
{
    assert(f.subrange(26, 34) =~= h.subrange(26, 30) + h.subrange(30, 34));
}

/// A segment can be built just where the words that its checksum covers sum to
/// less than two to the power of 32.
pub proof fn law_tcp_sum_limit(
    src_ip: Seq<u8>,
    dst_ip: Seq<u8>,
    src_port: u16,
    dst_port: u16,
    seq_no: u32,
    ack_no: u32,
    flags: u8,
    payload: Seq<u8>,
)
    requires
        src_ip.len() == 4,
        dst_ip.len() == 4,
    ensures
        tcp_sum_fits(src_ip, dst_ip, src_port, dst_port, seq_no, ack_no, flags, payload)
            <==> checksum::word_sum(src_ip + dst_ip) + 6 + (payload.len() + 20) % 0x1_0000
            + src_port + dst_port + seq_no / 0x1_0000 + seq_no % 0x1_0000 + ack_no / 0x1_0000
            + ack_no % 0x1_0000 + 0x5000 + flags + 65535 + checksum::word_sum(payload)
            < 0x1_0000_0000,
{
    let blank = tcp_segment_with(src_port, dst_port, seq_no, ack_no, flags, 0, payload);
    let b = tcp_before_checksum(src_port, dst_port, seq_no, ack_no, flags);
    assert(blank.len() == 20 + payload.len());
    lemma_pseudo_sum(src_ip, dst_ip, blank);
    checksum::lemma_field_sum(b, 0, bytes::be16_bytes(0) + payload);
    assert(bytes::be16_bytes(0) + payload =~= seq![0u8, 0] + payload);
    checksum::law_word_sum_adds_words(0, 0, payload);
    lemma_tcp_header_sum(src_port, dst_port, seq_no, ack_no, flags);
}

/// The word sum of a TCP header before its checksum field.
proof fn lemma_tcp_header_sum(src_port: u16, dst_port: u16, seq_no: u32, ack_no: u32, flags: u8)
    ensures
        checksum::word_sum(tcp_before_checksum(src_port, dst_port, seq_no, ack_no, flags))
            == src_port + dst_port + seq_no / 0x1_0000 + seq_no % 0x1_0000 + ack_no / 0x1_0000
            + ack_no % 0x1_0000 + 0x5000 + flags + 65535,
{
    let a1 = bytes::be16_bytes(src_port);
    let a2 = a1 + bytes::be16_bytes(dst_port);
    let a3 = a2 + bytes::be32_bytes(seq_no);
    let a4 = a3 + bytes::be32_bytes(ack_no);
    let a5 = a4 + seq![0x50u8, flags];
    assert(checksum::word_sum(a1) == src_port) by {
        assert(Seq::<u8>::empty() + a1 =~= a1);
        lemma_append_word(Seq::empty(), src_port);
    }
    lemma_append_word(a1, dst_port);
    lemma_append_words(a2, seq_no);
    lemma_append_words(a3, ack_no);
    assert(checksum::word_sum(a5) == checksum::word_sum(a4) + 0x5000 + flags) by {
        let v = (0x5000 + flags) as u16;
        assert(seq![0x50u8, flags] =~= bytes::be16_bytes(v));
        lemma_append_word(a4, v);
    }
    lemma_append_word(a5, 65535);
}

/// A word behind a sequence of words adds itself to their sum.
proof fn lemma_append_word(a: Seq<u8>, v: u16)
    requires
        a.len() % 2 == 0,
    ensures
        checksum::word_sum(a + bytes::be16_bytes(v)) == checksum::word_sum(a) + v,
{
    let none = Seq::<u8>::empty();
    checksum::lemma_field_sum(a, v, none);
    assert(a + bytes::be16_bytes(v) + none =~= a + bytes::be16_bytes(v));
}

/// A 32-bit number behind a sequence of words adds both its halves to their sum.
proof fn lemma_append_words(a: Seq<u8>, v: u32)
    requires
        a.len() % 2 == 0,
    ensures
        checksum::word_sum(a + bytes::be32_bytes(v)) == checksum::word_sum(a) + v / 0x1_0000 + v
            % 0x1_0000,
{
    let hi = (v / 0x1_0000) as u16;
    let lo = (v % 0x1_0000) as u16;
    lemma_append_word(a, hi);
    lemma_append_word(a + bytes::be16_bytes(hi), lo);
    assert(bytes::be32_bytes(v) =~= bytes::be16_bytes(hi) + bytes::be16_bytes(lo));
    assert(a + bytes::be32_bytes(v) =~= a + bytes::be16_bytes(hi) + bytes::be16_bytes(lo));
}

} // verus!
