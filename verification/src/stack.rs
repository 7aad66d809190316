//! The receive path: from a frame to what the stack learns and does.

use vstd::prelude::*;

use crate::addr;
use crate::addr::{IPv4, MacAddress};
use crate::bytes;
use crate::flags;
use crate::flags::TcpFlags;
use crate::frame;
use crate::neighbor;
use crate::neighbor::NeighborCache;
use crate::parse;
use crate::parse::{ParsedPacket, ParsedTcp};

verus! {

/// Our own addresses.
pub struct NetConfig {
    pub ip: IPv4,
    pub mac: MacAddress,
}

impl NetConfig {
    /// The configuration before a device is known: 10.0.2.15 at
    /// 52:54:00:12:34:56.
    pub fn initial() -> (r: NetConfig)
        ensures
            r.ip@ == seq![10u8, 0, 2, 15],
            r.mac@ == seq![0x52u8, 0x54, 0x00, 0x12, 0x34, 0x56],
    {
        let mac = MacAddress::new([0x52, 0x54, 0x00, 0x12, 0x34, 0x56]);
        assert(mac@ =~= seq![0x52u8, 0x54, 0x00, 0x12, 0x34, 0x56]);
        NetConfig { ip: IPv4::new(10, 0, 2, 15), mac }
    }
}

/// Takes over the hardware address that the device reports.
pub fn init(config: &mut NetConfig, device_mac: [u8; 6])
    ensures
        final(config).mac@ == device_mac@,
        final(config).ip == old(config).ip,
{
    config.mac = MacAddress::new(device_mac);
}

/// Received data on its way to the socket of a connection.
pub struct Delivery {
    /// The peer's address.
    pub target: IPv4,
    /// Our port.
    pub lport: u16,
    /// The peer's port.
    pub rport: u16,
    pub data: Vec<u8>,
    /// The segment's sequence and acknowledgement numbers, for TCP.
    pub marks: Option<(u32, u32)>,
}

/// The mathematical content of a delivery.
pub struct DeliveryView {
    pub target: Seq<u8>,
    pub lport: u16,
    pub rport: u16,
    pub data: Seq<u8>,
    pub marks: Option<(u32, u32)>,
}

impl View for Delivery {
    type V = DeliveryView;

    open spec fn view(&self) -> DeliveryView {
        DeliveryView {
            target: self.target@,
            lport: self.lport,
            rport: self.rport,
            data: self.data@,
            marks: self.marks,
        }
    }
}

/// Data to append to the queue of socket `index`; TCP also records `marks`.
pub struct SocketPush {
    pub index: usize,
    pub data: Vec<u8>,
    pub marks: Option<(u32, u32)>,
}

impl Delivery {
    /// What to do once the socket table was searched for the connection: push
    /// the data to the socket found, or drop it.
    pub fn into_push(self, socket: Option<usize>) -> (r: Option<SocketPush>)
        ensures
            r is Some <==> socket is Some,
            r matches Some(p) ==> socket == Some(p.index) && p.data@ == self@.data && p.marks
                == self@.marks,
    {
        match socket {
            Some(index) => Some(SocketPush { index, data: self.data, marks: self.marks }),
            None => None,
        }
    }
}

/// Something the stack asks its surroundings to do, in order.
pub enum NetAction {
    /// Send this frame.
    Transmit(Vec<u8>),
    /// Ask whether a listener accepts this SYN, and act on
    /// [`accept_reply`]'s answer.
    Accept(ParsedTcp),
    /// Search the socket table, and act on [`Delivery::into_push`]'s answer.
    Deliver(Delivery),
}

/// The mathematical content of an action.
pub enum ActionView {
    Transmit(Seq<u8>),
    Accept(parse::TcpView),
    Deliver(DeliveryView),
}

impl View for NetAction {
    type V = ActionView;

    open spec fn view(&self) -> ActionView {
        match self {
            NetAction::Transmit(frame) => ActionView::Transmit(frame@),
            NetAction::Accept(tcp) => ActionView::Accept(tcp@),
            NetAction::Deliver(d) => ActionView::Deliver(d@),
        }
    }
}

/// The mathematical content of a list of actions.
pub open spec fn views(actions: Seq<NetAction>) -> Seq<ActionView> {
    actions.map_values(|a: NetAction| a@)
}

/// Whether a frame is addressed to `mac`, to everyone, or to a group.
pub open spec fn for_us(mac: Seq<u8>, d: Seq<u8>) -> bool {
    d.len() >= 6 && (d.subrange(0, 6) == mac || d.subrange(0, 6) == addr::broadcast_mac() || d[0]
        % 2 == 1)
}

/// The neighbor cache after looking at the sender of an IPv4 frame.
pub open spec fn cache_after_ipv4(
    c: Seq<(Seq<u8>, Seq<u8>)>,
    d: Seq<u8>,
) -> Seq<(Seq<u8>, Seq<u8>)> {
    if d.len() >= 34 && parse::ethertype(d) == frame::ETHERTYPE_IPV4 {
        neighbor::learned(c, d.subrange(26, 30), d.subrange(6, 12))
    } else {
        c
    }
}

/// The neighbor cache after handling a frame: the sender of an IPv4 frame and
/// the sender named in an ARP packet are learned.
pub open spec fn cache_after(
    mac: Seq<u8>,
    c: Seq<(Seq<u8>, Seq<u8>)>,
    d: Seq<u8>,
) -> Seq<(Seq<u8>, Seq<u8>)> {
    if !for_us(mac, d) {
        c
    } else {
        match parse::parse(d) {
            parse::PacketView::Arp(arp) => neighbor::learned(
                cache_after_ipv4(c, d),
                arp.sender_ip,
                arp.sender_mac,
            ),
            _ => cache_after_ipv4(c, d),
        }
    }
}

/// The delivery of a TCP segment to its socket.
pub open spec fn tcp_delivery(t: parse::TcpView) -> ActionView {
    ActionView::Deliver(
        DeliveryView {
            target: t.source_ip,
            lport: t.dest_port,
            rport: t.source_port,
            data: t.data,
            marks: Some((t.seq, t.ack)),
        },
    )
}

/// What a TCP segment brings about: a SYN is offered to a listener and nothing
/// else; a FIN is acknowledged, answered with our own FIN, and its data
/// delivered; a bare ACK is ignored; any other segment is delivered.
pub open spec fn tcp_actions(
    ip: Seq<u8>,
    mac: Seq<u8>,
    t: parse::TcpView,
) -> Seq<ActionView> {
    if t.flags.has(flags::SYN) {
        seq![ActionView::Accept(t)]
    } else if t.flags.has(flags::FIN) {
        seq![
            ActionView::Transmit(parse::ack_reply(t, ip, mac, 0)),
            ActionView::Transmit(parse::ack_reply(t, ip, mac, flags::FIN)),
            tcp_delivery(t),
        ]
    } else if t.flags.has(flags::ACK) && t.data_len == 0 {
        Seq::empty()
    } else {
        seq![tcp_delivery(t)]
    }
}

/// What a frame brings about.
pub open spec fn actions_for(ip: Seq<u8>, mac: Seq<u8>, d: Seq<u8>) -> Seq<ActionView> {
    if !for_us(mac, d) {
        Seq::empty()
    } else {
        match parse::parse(d) {
            parse::PacketView::Arp(arp) => if arp.operation == frame::ARP_REQUEST && arp.target_ip
                == ip {
                seq![
                    ActionView::Transmit(
                        frame::arp_reply(mac, ip, arp.sender_mac, arp.sender_ip),
                    ),
                ]
            } else {
                Seq::empty()
            },
            parse::PacketView::Udp(udp) => seq![
                ActionView::Deliver(
                    DeliveryView {
                        target: udp.source_ip,
                        lport: udp.dest_port,
                        rport: udp.source_port,
                        data: udp.data,
                        marks: None,
                    },
                ),
            ],
            parse::PacketView::Tcp(tcp) => tcp_actions(ip, mac, tcp),
            parse::PacketView::Unknown => Seq::empty(),
        }
    }
}

/// Whether `data` is addressed to the holder of `config`.
pub fn frame_is_for_us(config: &NetConfig, data: &[u8]) -> (r: bool)
    ensures
        r == for_us(config.mac@, data@),
{
    if data.len() < 6 {
        return false;
    }
    let dst_mac = MacAddress::from_bytes(&data[0..6]);
    assert(dst_mac@ =~= data@.subrange(0, 6));
    dst_mac == config.mac || dst_mac == MacAddress::broadcast() || dst_mac.0[0] % 2 == 1
}

/// The answer to a SYN once a listener was asked: a SYN-ACK if it accepted,
/// silence if not.
pub fn accept_reply(config: &NetConfig, tcp: &ParsedTcp, accepted: bool) -> (r: Option<Vec<u8>>)
    ensures
        r is Some <==> accepted,
        r matches Some(reply) ==> reply@ == parse::ack_reply(
            tcp@,
            config.ip@,
            config.mac@,
            flags::SYN,
        ),
{
    if accepted {
        Some(tcp.build_ack_reply(&config.ip, &config.mac, TcpFlags::syn()))
    } else {
        None
    }
}

/// The state of the network stack.
pub struct NetStack {
    pub config: NetConfig,
    pub neighbors: NeighborCache,
}

impl NetStack {
    /// A stack with the initial configuration that knows no neighbor.
    pub fn new() -> (r: NetStack)
        ensures
            r.config.ip@ == seq![10u8, 0, 2, 15],
            r.config.mac@ == seq![0x52u8, 0x54, 0x00, 0x12, 0x34, 0x56],
            r.neighbors@.len() == 0,
            neighbor::well_formed(r.neighbors@),
    {
        NetStack { config: NetConfig::initial(), neighbors: NeighborCache::new() }
    }

    /// Learns the sender of an IPv4 frame.
    pub fn learn_from_ipv4_frame(&mut self, data: &[u8])
        ensures
            final(self).config == old(self).config,
            final(self).neighbors@ == cache_after_ipv4(old(self).neighbors@, data@),
            neighbor::well_formed(old(self).neighbors@) ==> neighbor::well_formed(
                final(self).neighbors@,
            ),
    {
        if data.len() < 34 || bytes::join_be16(data[12], data[13]) != frame::ETHERTYPE_IPV4 {
            return;
        }
        let src_mac = MacAddress::from_bytes(&data[6..12]);
        let src_ip = IPv4::from_bytes(&data[26..30]);
        assert(src_mac@ =~= data@.subrange(6, 12));
        assert(src_ip@ =~= data@.subrange(26, 30));
        self.neighbors.learn_neighbor(src_ip, src_mac);
    }

    /// What a TCP segment brings about.
    fn handle_tcp(&self, tcp: ParsedTcp) -> (r: Vec<NetAction>)
        ensures
            views(r@) == tcp_actions(self.config.ip@, self.config.mac@, tcp@),
    {
        let mut actions: Vec<NetAction> = Vec::new();
        if tcp.flags.contains(TcpFlags::syn()) {
            actions.push(NetAction::Accept(tcp));
            assert(views(actions@) =~= tcp_actions(self.config.ip@, self.config.mac@, tcp@));
            return actions;
        } else if tcp.flags.contains(TcpFlags::fin()) {
            let ack_reply = tcp.build_ack_reply(
                &self.config.ip,
                &self.config.mac,
                TcpFlags::empty(),
            );
            actions.push(NetAction::Transmit(ack_reply));
            let fin_reply = tcp.build_ack_reply(
                &self.config.ip,
                &self.config.mac,
                TcpFlags::fin(),
            );
            actions.push(NetAction::Transmit(fin_reply));
        } else if tcp.flags.contains(TcpFlags::ack()) && tcp.data_len == 0 {
            assert(views(actions@) =~= Seq::<ActionView>::empty());
            return actions;
        }
        let ghost t = tcp@;
        let delivery = Delivery {
            target: tcp.source_ip,
            lport: tcp.dest_port,
            rport: tcp.source_port,
            data: tcp.data,
            marks: Some((tcp.seq, tcp.ack)),
        };
        actions.push(NetAction::Deliver(delivery));
        assert(views(actions@) =~= tcp_actions(self.config.ip@, self.config.mac@, t));
        actions
    }

    /// Handles one received frame: learns from it, and says what to do.
    pub fn handle_frame(&mut self, data: &[u8]) -> (r: Vec<NetAction>)
        ensures
            final(self).config == old(self).config,
            final(self).neighbors@ == cache_after(
                old(self).config.mac@,
                old(self).neighbors@,
                data@,
            ),
            views(r@) == actions_for(old(self).config.ip@, old(self).config.mac@, data@),
            neighbor::well_formed(old(self).neighbors@) ==> neighbor::well_formed(
                final(self).neighbors@,
            ),
    {
        let mut actions: Vec<NetAction> = Vec::new();
        assert(views(actions@) =~= Seq::<ActionView>::empty());
        if !frame_is_for_us(&self.config, data) {
            return actions;
        }
        self.learn_from_ipv4_frame(data);
        let ghost ip = self.config.ip@;
        let ghost mac = self.config.mac@;
        match parse::parse_packet(data) {
            ParsedPacket::Arp(arp) => {
                self.neighbors.learn_neighbor(arp.sender_ip, arp.sender_mac);
                if arp.operation == frame::ARP_REQUEST && arp.target_ip == self.config.ip {
                    let reply = frame::build_arp_reply(
                        &self.config.mac,
                        &self.config.ip,
                        &arp.sender_mac,
                        &arp.sender_ip,
                    );
                    actions.push(NetAction::Transmit(reply));
                }
                assert(views(actions@) =~= actions_for(ip, mac, data@));
            },
            ParsedPacket::Udp(udp) => {
                let delivery = Delivery {
                    target: udp.source_ip,
                    lport: udp.dest_port,
                    rport: udp.source_port,
                    data: udp.data,
                    marks: None,
                };
                actions.push(NetAction::Deliver(delivery));
                assert(views(actions@) =~= actions_for(ip, mac, data@));
            },
            ParsedPacket::Tcp(tcp) => {
                actions = self.handle_tcp(tcp);
            },
            ParsedPacket::Unknown => {},
        }
        actions
    }
}

/// A frame starts with the hardware address it is sent to.
proof fn lemma_destination(
    dst: Seq<u8>,
    src: Seq<u8>,
    ethertype: u16,
    header: Seq<u8>,
    rest: Seq<u8>,
)
    requires
        dst.len() == 6,
    ensures
        (frame::eth_header(dst, src, ethertype) + header + rest).len() >= 6,
        (frame::eth_header(dst, src, ethertype) + header + rest).subrange(0, 6) == dst,
{
    let f = frame::eth_header(dst, src, ethertype) + header + rest;
    assert(f.subrange(0, 6) =~= dst);
}

/// Padding does not change whom a frame is for, nor what type it has.
proof fn lemma_padding(mac: Seq<u8>, f: Seq<u8>, pad: Seq<u8>)
    requires
        f.len() >= 14,
    ensures
        for_us(mac, f + pad) == for_us(mac, f),
        parse::ethertype(f + pad) == parse::ethertype(f),
{
    assert((f + pad).subrange(0, 6) =~= f.subrange(0, 6));
}

/// A frame for someone else teaches nothing and causes nothing.
pub proof fn law_foreign_frames_are_ignored(
    ip: Seq<u8>,
    mac: Seq<u8>,
    c: Seq<(Seq<u8>, Seq<u8>)>,
    d: Seq<u8>,
)
    requires
        !for_us(mac, d),
    ensures
        cache_after(mac, c, d) == c,
        actions_for(ip, mac, d) == Seq::<ActionView>::empty(),
{
}

/// What an ARP frame brings about at the host it is sent to.
proof fn lemma_arp_frame_effect(
    ip: Seq<u8>,
    mac: Seq<u8>,
    c: Seq<(Seq<u8>, Seq<u8>)>,
    dst_mac: Seq<u8>,
    operation: u16,
    sender_mac: Seq<u8>,
    sender_ip: Seq<u8>,
    target_mac: Seq<u8>,
    target_ip: Seq<u8>,
    pad: Seq<u8>,
)
    requires
        dst_mac == mac || dst_mac == addr::broadcast_mac(),
        dst_mac.len() == 6,
        sender_mac.len() == 6,
        sender_ip.len() == 4,
        target_mac.len() == 6,
        target_ip.len() == 4,
    ensures
        ({
            let d = frame::arp_frame(
                dst_mac,
                operation,
                sender_mac,
                sender_ip,
                target_mac,
                target_ip,
            ) + pad;
            &&& cache_after(mac, c, d) == neighbor::learned(c, sender_ip, sender_mac)
            &&& actions_for(ip, mac, d) == if operation == frame::ARP_REQUEST && target_ip == ip {
                seq![ActionView::Transmit(frame::arp_reply(mac, ip, sender_mac, sender_ip))]
            } else {
                Seq::empty()
            }
        }),
{
    let d = frame::arp_frame(
        dst_mac,
        operation,
        sender_mac,
        sender_ip,
        target_mac,
        target_ip,
    );
    assert(for_us(mac, d + pad) && parse::ethertype(d + pad) == frame::ETHERTYPE_ARP) by {
        lemma_arp_frame_start(dst_mac, operation, sender_mac, sender_ip, target_mac, target_ip);
        lemma_padding(mac, d, pad);
    }
    parse::law_arp_round_trip(
        dst_mac,
        operation,
        sender_mac,
        sender_ip,
        target_mac,
        target_ip,
        pad,
    );
    lemma_arp_effect(
        ip,
        mac,
        c,
        d + pad,
        parse::ArpView { sender_mac, sender_ip, target_ip, operation },
    );
}

/// An ARP frame starts with its destination and is marked as ARP.
proof fn lemma_arp_frame_start(
    dst_mac: Seq<u8>,
    operation: u16,
    sender_mac: Seq<u8>,
    sender_ip: Seq<u8>,
    target_mac: Seq<u8>,
    target_ip: Seq<u8>,
)
    requires
        dst_mac.len() == 6,
        sender_mac.len() == 6,
    ensures
        ({
            let d = frame::arp_frame(
                dst_mac,
                operation,
                sender_mac,
                sender_ip,
                target_mac,
                target_ip,
            );
            &&& d.len() >= 14
            &&& d.subrange(0, 6) == dst_mac
            &&& parse::ethertype(d) == frame::ETHERTYPE_ARP
        }),
{
    let d = frame::arp_frame(
        dst_mac,
        operation,
        sender_mac,
        sender_ip,
        target_mac,
        target_ip,
    );
    assert(d.subrange(0, 6) =~= dst_mac);
    assert(d[12] == 8 && d[13] == 6);
}

/// What a frame that parses as an ARP packet brings about.
proof fn lemma_arp_effect(
    ip: Seq<u8>,
    mac: Seq<u8>,
    c: Seq<(Seq<u8>, Seq<u8>)>,
    d: Seq<u8>,
    arp: parse::ArpView,
)
    requires
        for_us(mac, d),
        parse::ethertype(d) == frame::ETHERTYPE_ARP,
        parse::parse(d) == parse::PacketView::Arp(arp),
    ensures
        cache_after(mac, c, d) == neighbor::learned(c, arp.sender_ip, arp.sender_mac),
        actions_for(ip, mac, d) == if arp.operation == frame::ARP_REQUEST && arp.target_ip == ip {
            seq![ActionView::Transmit(frame::arp_reply(mac, ip, arp.sender_mac, arp.sender_ip))]
        } else {
            Seq::empty()
        },
{
}

/// An ARP exchange works: the host asked for answers the request and nothing
/// else, and the answer teaches the asker its hardware address, whatever padding
/// follows the frames.
pub proof fn law_arp_exchange(
    a_mac: Seq<u8>,
    a_ip: Seq<u8>,
    a_cache: Seq<(Seq<u8>, Seq<u8>)>,
    b_mac: Seq<u8>,
    b_ip: Seq<u8>,
    b_cache: Seq<(Seq<u8>, Seq<u8>)>,
    pad: Seq<u8>,
)
    requires
        a_mac.len() == 6,
        a_ip.len() == 4,
        b_mac.len() == 6,
        b_ip.len() == 4,
    ensures
        ({
            let request = frame::arp_request(a_mac, a_ip, b_ip);
            let reply = frame::arp_reply(b_mac, b_ip, a_mac, a_ip);
            &&& actions_for(b_ip, b_mac, request + pad) == seq![ActionView::Transmit(reply)]
            &&& cache_after(b_mac, b_cache, request + pad) == neighbor::learned(
                b_cache,
                a_ip,
                a_mac,
            )
            &&& actions_for(a_ip, a_mac, reply + pad) == Seq::<ActionView>::empty()
            &&& cache_after(a_mac, a_cache, reply + pad) == neighbor::learned(
                a_cache,
                b_ip,
                b_mac,
            )
            &&& neighbor::learnable(b_ip, b_mac) ==> neighbor::lookup(
                cache_after(a_mac, a_cache, reply + pad),
                b_ip,
            ) == Some(b_mac)
        }),
{
    lemma_arp_frame_effect(
        b_ip,
        b_mac,
        b_cache,
        addr::broadcast_mac(),
        frame::ARP_REQUEST,
        a_mac,
        a_ip,
        addr::zero_mac(),
        b_ip,
        pad,
    );
    lemma_arp_frame_effect(
        a_ip,
        a_mac,
        a_cache,
        a_mac,
        frame::ARP_REPLY,
        b_mac,
        b_ip,
        a_mac,
        a_ip,
        pad,
    );
    if neighbor::learnable(b_ip, b_mac) {
        neighbor::law_learned_neighbor_is_found(a_cache, b_ip, b_mac);
    }
}

/// A UDP frame built for our hardware address, or for all hosts, is delivered to
/// the socket that its addresses and ports name, with its payload and without
/// the padding that may follow it.
pub proof fn law_udp_frame_is_delivered(
    our_ip: Seq<u8>,
    our_mac: Seq<u8>,
    dst_mac: Seq<u8>,
    peer_ip: Seq<u8>,
    peer_mac: Seq<u8>,
    peer_port: u16,
    our_port: u16,
    payload: Seq<u8>,
    pad: Seq<u8>,
)
    requires
        our_ip.len() == 4,
        our_mac.len() == 6,
        dst_mac == our_mac || dst_mac == addr::broadcast_mac(),
        peer_ip.len() == 4,
        peer_mac.len() == 6,
        payload.len() <= 65507,
    ensures
        actions_for(
            our_ip,
            our_mac,
            frame::udp_frame(
                peer_mac,
                dst_mac,
                peer_ip,
                our_ip,
                peer_port,
                our_port,
                payload,
            ) + pad,
        ) == seq![
            ActionView::Deliver(
                (DeliveryView {
                    target: peer_ip,
                    lport: our_port,
                    rport: peer_port,
                    data: payload,
                    marks: None,
                }),
            ),
        ],
{
    let f = frame::udp_frame(peer_mac, dst_mac, peer_ip, our_ip, peer_port, our_port, payload);
    let udp = parse::UdpView {
        source_ip: peer_ip,
        source_port: peer_port,
        dest_port: our_port,
        data: payload,
    };
    assert(dst_mac.len() == 6);
    assert(for_us(our_mac, f + pad)) by {
        lemma_udp_frame_for_us(
            our_mac,
            peer_mac,
            dst_mac,
            peer_ip,
            our_ip,
            peer_port,
            our_port,
            payload,
        );
        lemma_padding(our_mac, f, pad);
    }
    assert(parse::parse(f + pad) == parse::PacketView::Udp(udp)) by {
        parse::law_udp_round_trip(
            peer_mac,
            dst_mac,
            peer_ip,
            our_ip,
            peer_port,
            our_port,
            payload,
            pad,
        );
    }
    lemma_udp_frame_actions(our_ip, our_mac, f + pad, udp);
}

/// A UDP frame is for the host that it is sent to, or for all hosts.
proof fn lemma_udp_frame_for_us(
    our_mac: Seq<u8>,
    src_mac: Seq<u8>,
    dst_mac: Seq<u8>,
    src_ip: Seq<u8>,
    dst_ip: Seq<u8>,
    src_port: u16,
    dst_port: u16,
    payload: Seq<u8>,
)
    requires
        our_mac.len() == 6,
        dst_mac == our_mac || dst_mac == addr::broadcast_mac(),
    ensures
        for_us(
            our_mac,
            frame::udp_frame(src_mac, dst_mac, src_ip, dst_ip, src_port, dst_port, payload),
        ),
        frame::udp_frame(src_mac, dst_mac, src_ip, dst_ip, src_port, dst_port, payload).len()
            >= 14,
{
    let n = payload.len() as int;
    lemma_destination(
        dst_mac,
        src_mac,
        frame::ETHERTYPE_IPV4,
        frame::ipv4_header(bytes::low16(n + 28), frame::PROTO_UDP, src_ip, dst_ip),
        frame::udp_header(src_port, dst_port, bytes::low16(n + 8)),
    );
    let header = frame::udp_frame_header(
        src_mac,
        dst_mac,
        src_ip,
        dst_ip,
        src_port,
        dst_port,
        n,
    );
    assert((header + payload).subrange(0, 6) =~= header.subrange(0, 6));
}

/// What a frame that parses as a UDP datagram brings about.
proof fn lemma_udp_frame_actions(ip: Seq<u8>, mac: Seq<u8>, d: Seq<u8>, udp: parse::UdpView)
    requires
        for_us(mac, d),
        parse::parse(d) == parse::PacketView::Udp(udp),
    ensures
        actions_for(ip, mac, d) == seq![
            ActionView::Deliver(
                (DeliveryView {
                    target: udp.source_ip,
                    lport: udp.dest_port,
                    rport: udp.source_port,
                    data: udp.data,
                    marks: None,
                }),
            ),
        ],
{
}

/// A TCP frame without the SYN and FIN flags that is no bare ACK is delivered to
/// its socket with its payload and its numbers, and without the padding that may
/// follow it.
pub proof fn law_tcp_data_is_delivered(
    our_ip: Seq<u8>,
    our_mac: Seq<u8>,
    peer_ip: Seq<u8>,
    peer_mac: Seq<u8>,
    peer_port: u16,
    our_port: u16,
    seq_no: u32,
    ack_no: u32,
    flag_bits: u8,
    payload: Seq<u8>,
    pad: Seq<u8>,
)
    requires
        our_ip.len() == 4,
        our_mac.len() == 6,
        peer_ip.len() == 4,
        peer_mac.len() == 6,
        payload.len() <= 65495,
        flag_bits & flags::SYN != flags::SYN,
        flag_bits & flags::FIN != flags::FIN,
        payload.len() > 0 || flag_bits & flags::ACK != flags::ACK,
    ensures
        actions_for(
            our_ip,
            our_mac,
            frame::tcp_frame(
                peer_mac,
                peer_ip,
                peer_port,
                our_ip,
                our_port,
                seq_no,
                ack_no,
                flag_bits,
                payload,
            ) + pad,
        ) == seq![
            ActionView::Deliver(
                (DeliveryView {
                    target: peer_ip,
                    lport: our_port,
                    rport: peer_port,
                    data: payload,
                    marks: Some((seq_no, ack_no)),
                }),
            ),
        ],
{
    let f = frame::tcp_frame(
        peer_mac,
        peer_ip,
        peer_port,
        our_ip,
        our_port,
        seq_no,
        ack_no,
        flag_bits,
        payload,
    );
    let t = parse::TcpView {
        source_ip: peer_ip,
        source_port: peer_port,
        dest_port: our_port,
        seq: seq_no,
        ack: ack_no,
        flags: (TcpFlags { bits: flag_bits & flags::ALL_FLAGS }),
        data_len: payload.len(),
        data: payload,
    };
    lemma_data_segment_actions(our_ip, our_mac, t, flag_bits);
    assert(for_us(our_mac, f + pad)) by {
        lemma_tcp_frame_for_us(
            our_mac,
            peer_mac,
            peer_ip,
            peer_port,
            our_ip,
            our_port,
            seq_no,
            ack_no,
            flag_bits,
            payload,
        );
        lemma_padding(our_mac, f, pad);
    }
    assert(parse::parse(f + pad) == parse::PacketView::Tcp(t)) by {
        parse::law_tcp_round_trip(
            peer_mac,
            peer_ip,
            peer_port,
            our_ip,
            our_port,
            seq_no,
            ack_no,
            flag_bits,
            payload,
            pad,
        );
    }
    lemma_tcp_frame_actions(our_ip, our_mac, f + pad, t);
}

/// A TCP frame built here is for every host.
proof fn lemma_tcp_frame_for_us(
    our_mac: Seq<u8>,
    src_mac: Seq<u8>,
    src_ip: Seq<u8>,
    src_port: u16,
    dst_ip: Seq<u8>,
    dst_port: u16,
    seq_no: u32,
    ack_no: u32,
    flag_bits: u8,
    payload: Seq<u8>,
)
    ensures
        for_us(
            our_mac,
            frame::tcp_frame(
                src_mac,
                src_ip,
                src_port,
                dst_ip,
                dst_port,
                seq_no,
                ack_no,
                flag_bits,
                payload,
            ),
        ),
        frame::tcp_frame(
            src_mac,
            src_ip,
            src_port,
            dst_ip,
            dst_port,
            seq_no,
            ack_no,
            flag_bits,
            payload,
        ).len() >= 14,
{
    lemma_destination(
        addr::broadcast_mac(),
        src_mac,
        frame::ETHERTYPE_IPV4,
        frame::ipv4_header(
            bytes::low16(payload.len() as int + 40),
            frame::PROTO_TCP,
            src_ip,
            dst_ip,
        ),
        frame::tcp_segment(
            src_ip,
            dst_ip,
            src_port,
            dst_port,
            seq_no,
            ack_no,
            flag_bits,
            payload,
        ),
    );
}

/// What a frame that parses as a TCP segment brings about.
proof fn lemma_tcp_frame_actions(ip: Seq<u8>, mac: Seq<u8>, d: Seq<u8>, t: parse::TcpView)
    requires
        for_us(mac, d),
        parse::parse(d) == parse::PacketView::Tcp(t),
    ensures
        actions_for(ip, mac, d) == tcp_actions(ip, mac, t),
{
}

/// A segment without SYN and FIN that is no bare ACK is delivered.
proof fn lemma_data_segment_actions(
    ip: Seq<u8>,
    mac: Seq<u8>,
    t: parse::TcpView,
    flag_bits: u8,
)
    requires
        t.flags.bits == flag_bits & flags::ALL_FLAGS,
        flag_bits & flags::SYN != flags::SYN,
        flag_bits & flags::FIN != flags::FIN,
        t.data_len > 0 || flag_bits & flags::ACK != flags::ACK,
    ensures
        tcp_actions(ip, mac, t) == seq![tcp_delivery(t)],
{
    assert((flag_bits & 0x1f) & 0x02 == flag_bits & 0x02 && (flag_bits & 0x1f) & 0x01 == flag_bits
        & 0x01 && (flag_bits & 0x1f) & 0x10 == flag_bits & 0x10) by (bit_vector);
}

/// The answer to an accepted SYN is a SYN-ACK from the port it was sent to,
/// acknowledging its sequence number and the data that it carries, or one more
/// than its sequence number where it carries none. Padding that may follow it
/// does not matter.
pub proof fn law_syn_ack(t: parse::TcpView, our_ip: Seq<u8>, our_mac: Seq<u8>, pad: Seq<u8>)
    requires
        t.source_ip.len() == 4,
        our_ip.len() == 4,
        our_mac.len() == 6,
    ensures
        parse::parse(parse::ack_reply(t, our_ip, our_mac, flags::SYN) + pad)
            == parse::PacketView::Tcp(
            (parse::TcpView {
                source_ip: our_ip,
                source_port: t.dest_port,
                dest_port: t.source_port,
                seq: t.ack,
                ack: ((t.seq + parse::ack_advance(t.data_len)) % 0x1_0000_0000) as u32,
                flags: (TcpFlags { bits: 0x12 }),
                data_len: 0,
                data: Seq::empty(),
            }),
        ),
{
    let ack = ((t.seq + parse::ack_advance(t.data_len)) % 0x1_0000_0000) as u32;
    lemma_syn_ack(t.source_ip, t.source_port, t.dest_port, t.ack, ack, our_ip, our_mac, pad);
}

/// Parsing a SYN-ACK.
proof fn lemma_syn_ack(
    peer_ip: Seq<u8>,
    peer_port: u16,
    our_port: u16,
    seq_no: u32,
    ack_no: u32,
    our_ip: Seq<u8>,
    our_mac: Seq<u8>,
    pad: Seq<u8>,
)
    requires
        peer_ip.len() == 4,
        our_ip.len() == 4,
        our_mac.len() == 6,
    ensures
        parse::parse(
            frame::tcp_frame(
                our_mac,
                our_ip,
                our_port,
                peer_ip,
                peer_port,
                seq_no,
                ack_no,
                flags::ACK | flags::SYN,
                Seq::empty(),
            ) + pad,
        ) == parse::PacketView::Tcp(
            (parse::TcpView {
                source_ip: our_ip,
                source_port: our_port,
                dest_port: peer_port,
                seq: seq_no,
                ack: ack_no,
                flags: (TcpFlags { bits: 0x12 }),
                data_len: 0,
                data: Seq::empty(),
            }),
        ),
{
    assert((0x10u8 | 0x02) & 0x1f == 0x12) by (bit_vector);
    parse::law_tcp_round_trip(
        our_mac,
        our_ip,
        our_port,
        peer_ip,
        peer_port,
        seq_no,
        ack_no,
        flags::ACK | flags::SYN,
        Seq::empty(),
        pad,
    );
}

/// A frame that is too short for a destination, or whose destination is neither
/// our address nor all ones nor a group address, changes nothing.
pub proof fn law_frames_for_others_change_nothing(
    ip: Seq<u8>,
    mac: Seq<u8>,
    c: Seq<(Seq<u8>, Seq<u8>)>,
    d: Seq<u8>,
)
    requires
        d.len() < 6 || (d.subrange(0, 6) != mac && d.subrange(0, 6) != seq![
            255u8,
            255,
            255,
            255,
            255,
            255,
        ] && d[0] % 2 == 0),
    ensures
        actions_for(ip, mac, d) == Seq::<ActionView>::empty(),
        cache_after(mac, c, d) == c,
{
    addr::law_special_addresses(0);
}

/// An ARP packet that reaches us teaches us its sender. If it is a request for
/// our address, it is answered, and otherwise nothing is sent.
pub proof fn law_arp_packets_are_handled(
    ip: Seq<u8>,
    mac: Seq<u8>,
    c: Seq<(Seq<u8>, Seq<u8>)>,
    d: Seq<u8>,
)
    requires
        ip.len() == 4,
        mac.len() == 6,
        d.len() >= 42,
        d.subrange(0, 6) == mac || d.subrange(0, 6) == seq![255u8, 255, 255, 255, 255, 255] || d[0]
            % 2 == 1,
        d[12] == 8,
        d[13] == 6,
    ensures
        cache_after(mac, c, d) == neighbor::learned(c, d.subrange(28, 32), d.subrange(22, 28)),
        d[20] == 0 && d[21] == 1 && d.subrange(38, 42) == ip ==> actions_for(ip, mac, d).len() == 1
            && (actions_for(ip, mac, d)[0] matches ActionView::Transmit(r) && {
            &&& r.len() == 42
            &&& r.subrange(0, 6) == d.subrange(22, 28)
            &&& r.subrange(6, 12) == mac
            &&& r.subrange(12, 22) == seq![0x08u8, 0x06, 0, 1, 0x08, 0x00, 6, 4, 0, 2]
            &&& r.subrange(22, 28) == mac
            &&& r.subrange(28, 32) == ip
            &&& r.subrange(32, 38) == d.subrange(22, 28)
            &&& r.subrange(38, 42) == d.subrange(28, 32)
        }),
        !(d[20] == 0 && d[21] == 1 && d.subrange(38, 42) == ip) ==> actions_for(ip, mac, d).len()
            == 0,
{
    addr::law_special_addresses(0);
    parse::law_arp_fields(d);
    frame::law_arp_reply_layout(mac, ip, d.subrange(22, 28), d.subrange(28, 32));
}

/// An IPv4 frame that reaches us teaches us the hardware address of its sender.
pub proof fn law_ipv4_senders_are_learned(mac: Seq<u8>, c: Seq<(Seq<u8>, Seq<u8>)>, d: Seq<u8>)
    requires
        d.len() >= 34,
        d.subrange(0, 6) == mac || d.subrange(0, 6) == seq![255u8, 255, 255, 255, 255, 255] || d[0]
            % 2 == 1,
        d[12] == 8,
        d[13] == 0,
    ensures
        cache_after(mac, c, d) == neighbor::learned(c, d.subrange(26, 30), d.subrange(6, 12)),
        cache_after_ipv4(c, d) == neighbor::learned(c, d.subrange(26, 30), d.subrange(6, 12)),
{
    addr::law_special_addresses(0);
}

/// A frame that is neither a whole ARP packet nor long enough for an IPv4
/// header teaches us nothing and brings nothing about.
pub proof fn law_other_frames_change_nothing(
    ip: Seq<u8>,
    mac: Seq<u8>,
    c: Seq<(Seq<u8>, Seq<u8>)>,
    d: Seq<u8>,
)
    requires
        !(d.len() >= 42 && d[12] == 8 && d[13] == 6),
        !(d.len() >= 34 && d[12] == 8 && d[13] == 0),
    ensures
        cache_after(mac, c, d) == c,
        cache_after_ipv4(c, d) == c,
        actions_for(ip, mac, d) == Seq::<ActionView>::empty(),
{
    if d.len() >= 14 && d[12] == 8 && d[13] == 6 {
        parse::law_arp_fields(d);
    } else {
        parse::law_other_frames_are_unknown(d);
    }
}

/// A UDP datagram that reaches us is delivered to the socket of its ports and
/// sender, with `k` bytes of data just where its lengths and the frame allow
/// that many, and without marks.
pub proof fn law_udp_datagrams_are_delivered(ip: Seq<u8>, mac: Seq<u8>, d: Seq<u8>, k: nat)
    requires
        d.len() >= 34,
        d.subrange(0, 6) == mac || d.subrange(0, 6) == seq![255u8, 255, 255, 255, 255, 255] || d[0]
            % 2 == 1,
        d[12] == 8,
        d[13] == 0,
        d[23] == 17,
        d.len() >= 22 + 4 * (d[14] % 16),
    ensures
        ({
            let t = 14 + 4 * (d[14] % 16);
            &&& actions_for(ip, mac, d).len() == 1
            &&& actions_for(ip, mac, d)[0] matches ActionView::Deliver(v) && {
                &&& v.target == d.subrange(26, 30)
                &&& v.lport == d[t + 2] * 256 + d[t + 3]
                &&& v.rport == d[t] * 256 + d[t + 1]
                &&& v.marks is None
                &&& forall|i: int| 0 <= i < v.data.len() ==> v.data[i] == #[trigger] d[t + 8 + i]
                &&& k > 0 ==> (k <= v.data.len() <==> {
                    &&& 8 + k <= d[t + 4] * 256 + d[t + 5]
                    &&& t + 8 + k <= 14 + d[16] * 256 + d[17]
                    &&& t + 8 + k <= d.len()
                })
            }
        }),
{
    addr::law_special_addresses(0);
    parse::law_udp_fields(d, k);
}

/// What a TCP segment that reaches us brings about depends on its flags: with
/// SYN it is offered to a listener and nothing else; with FIN and without SYN it
/// is acknowledged, answered with FIN, and delivered, whether or not it carries
/// data; with neither it is ignored if it is an ACK without data, and delivered
/// otherwise.
pub proof fn law_tcp_segments_are_handled(
    ip: Seq<u8>,
    mac: Seq<u8>,
    d: Seq<u8>,
    s: parse::TcpView,
)
    requires
        d.len() >= 34,
        d.subrange(0, 6) == mac || d.subrange(0, 6) == seq![255u8, 255, 255, 255, 255, 255] || d[0]
            % 2 == 1,
        parse::parse(d) == parse::PacketView::Tcp(s),
    ensures
        ({
            let acts = actions_for(ip, mac, d);
            let bits = s.flags.bits;
            let delivery = ActionView::Deliver(
                DeliveryView {
                    target: s.source_ip,
                    lport: s.dest_port,
                    rport: s.source_port,
                    data: s.data,
                    marks: Some((s.seq, s.ack)),
                },
            );
            &&& bits / 2 % 2 == 1 ==> acts == seq![ActionView::Accept(s)]
            &&& bits / 2 % 2 == 0 && bits % 2 == 1 ==> acts == seq![
                ActionView::Transmit(parse::ack_reply(s, ip, mac, 0)),
                ActionView::Transmit(parse::ack_reply(s, ip, mac, 1)),
                delivery,
            ]
            &&& bits / 2 % 2 == 0 && bits % 2 == 0 && bits / 16 % 2 == 1 && s.data_len == 0
                ==> acts == Seq::<ActionView>::empty()
            &&& bits / 2 % 2 == 0 && bits % 2 == 0 && (bits / 16 % 2 == 0 || s.data_len > 0)
                ==> acts == seq![delivery]
        }),
{
    addr::law_special_addresses(0);
    flags::law_flags_are_bits(s.flags.bits);
}

/// Parsing an acknowledgement gives our address, the ports swapped, the segment's
/// acknowledgement number as sequence number, the segment's sequence number
/// advanced by its data or by one, the flags, and no data.
proof fn lemma_ack_reply_parses(
    s: parse::TcpView,
    our_ip: Seq<u8>,
    our_mac: Seq<u8>,
    extra: u8,
    pad: Seq<u8>,
)
    requires
        s.source_ip.len() == 4,
        our_ip.len() == 4,
        our_mac.len() == 6,
    ensures
        parse::parse(parse::ack_reply(s, our_ip, our_mac, extra) + pad) == parse::PacketView::Tcp(
            (parse::TcpView {
                source_ip: our_ip,
                source_port: s.dest_port,
                dest_port: s.source_port,
                seq: s.ack,
                ack: ((s.seq + parse::ack_advance(s.data_len)) % 0x1_0000_0000) as u32,
                flags: (TcpFlags { bits: (flags::ACK | extra) & flags::ALL_FLAGS }),
                data_len: 0,
                data: Seq::empty(),
            }),
        ),
{
    parse::law_tcp_round_trip(
        our_mac,
        our_ip,
        s.dest_port,
        s.source_ip,
        s.source_port,
        s.ack,
        ((s.seq + parse::ack_advance(s.data_len)) % 0x1_0000_0000) as u32,
        flags::ACK | extra,
        Seq::empty(),
        pad,
    );
}

/// A FIN is always answered: for every TCP segment with FIN and without SYN that
/// reaches us, with or without data, we send a pure ACK of its sequence number
/// advanced by the length of its data, or by one where it carries none, then a
/// FIN-ACK with the same numbers, both with the ports swapped, and deliver the
/// data, of which there are `k` bytes just where the IPv4 header and the frame
/// allow that many, with the segment's numbers. The two frames and the delivery
/// are the result.
pub proof fn law_fin_is_answered(our_ip: Seq<u8>, our_mac: Seq<u8>, d: Seq<u8>, k: nat) -> (r: (
    Seq<u8>,
    Seq<u8>,
    DeliveryView,
))
    requires
        our_ip.len() == 4,
        our_mac.len() == 6,
        d.len() >= 34,
        d.subrange(0, 6) == our_mac || d.subrange(0, 6) == seq![255u8, 255, 255, 255, 255, 255]
            || d[0] % 2 == 1,
        d[12] == 8,
        d[13] == 0,
        d[23] == 6,
        d.len() >= 34 + 4 * (d[14] % 16),
        d[27 + 4 * (d[14] % 16)] % 2 == 1,
        d[27 + 4 * (d[14] % 16)] / 2 % 2 == 0,
    ensures
        actions_for(our_ip, our_mac, d) == seq![
            ActionView::Transmit(r.0),
            ActionView::Transmit(r.1),
            ActionView::Deliver(r.2),
        ],
        ({
            let t = 14 + 4 * (d[14] % 16);
            let p = t + 4 * (d[t + 12] / 16);
            let peer_port = d[t] * 256 + d[t + 1];
            let our_port = d[t + 2] * 256 + d[t + 3];
            let seq_no = ((d[t + 4] * 256 + d[t + 5]) * 256 + d[t + 6]) * 256 + d[t + 7];
            let ack_no = ((d[t + 8] * 256 + d[t + 9]) * 256 + d[t + 10]) * 256 + d[t + 11];
            let v = r.2;
            let reply = parse::TcpView {
                source_ip: our_ip,
                source_port: our_port as u16,
                dest_port: peer_port as u16,
                seq: ack_no as u32,
                ack: ((seq_no + if v.data.len() > 0 {
                    v.data.len() as int
                } else {
                    1
                }) % 0x1_0000_0000) as u32,
                flags: (TcpFlags { bits: 16 }),
                data_len: 0,
                data: Seq::empty(),
            };
            &&& parse::parse(r.0) == parse::PacketView::Tcp(reply)
            &&& parse::parse(r.1) == parse::PacketView::Tcp(
                (parse::TcpView { flags: (TcpFlags { bits: 17 }), ..reply }),
            )
            &&& v.target == d.subrange(26, 30)
            &&& v.lport == our_port
            &&& v.rport == peer_port
            &&& v.marks == Some((seq_no as u32, ack_no as u32))
            &&& forall|i: int| 0 <= i < v.data.len() ==> v.data[i] == #[trigger] d[p + i]
            &&& k > 0 ==> (k <= v.data.len() <==> p + k <= 14 + d[16] * 256 + d[17] && p + k
                <= d.len())
        }),
{
    let t = 14 + 4 * (d[14] % 16);
    parse::law_tcp_fields(d, k);
    let s = parse::parse(d)->Tcp_0;
    let a = ack_frame(s, our_ip, our_mac, 0);
    let f = ack_frame(s, our_ip, our_mac, 1);
    assert(outcome(our_ip, our_mac, d) == seq![
        ActionView::Transmit(a),
        ActionView::Transmit(f),
        tcp_delivery(s),
    ]) by {
        addr::law_special_addresses(0);
        lemma_flag_bits(d[t + 13]);
        lemma_fin_actions(our_ip, our_mac, d, s);
    }
    lemma_outcome(our_ip, our_mac, d);
    lemma_fin_replies(s, our_ip, our_mac);
    (a, f, tcp_delivery(s)->Deliver_0)
}

/// An outcome is what the frame brings about.
proof fn lemma_outcome(ip: Seq<u8>, mac: Seq<u8>, d: Seq<u8>)
    ensures
        outcome(ip, mac, d) == actions_for(ip, mac, d),
{
    reveal(outcome);
}

/// An acknowledgement, as a whole.
#[verifier::opaque]
spec fn ack_frame(s: parse::TcpView, ip: Seq<u8>, mac: Seq<u8>, extra: u8) -> Seq<u8> {
    parse::ack_reply(s, ip, mac, extra)
}

/// An acknowledgement parses as what it was built from.
proof fn lemma_ack_frame(
    s: parse::TcpView,
    our_ip: Seq<u8>,
    our_mac: Seq<u8>,
    extra: u8,
    bits: u8,
)
    requires
        s.source_ip.len() == 4,
        our_ip.len() == 4,
        our_mac.len() == 6,
        bits == (flags::ACK | extra) & flags::ALL_FLAGS,
    ensures
        parse::parse(ack_frame(s, our_ip, our_mac, extra)) == parse::PacketView::Tcp(
            (parse::TcpView {
                source_ip: our_ip,
                source_port: s.dest_port,
                dest_port: s.source_port,
                seq: s.ack,
                ack: ((s.seq + parse::ack_advance(s.data_len)) % 0x1_0000_0000) as u32,
                flags: (TcpFlags { bits }),
                data_len: 0,
                data: Seq::empty(),
            }),
        ),
{
    reveal(ack_frame);
    lemma_ack_reply_parses(s, our_ip, our_mac, extra, Seq::empty());
    lemma_nothing_behind(parse::ack_reply(s, our_ip, our_mac, extra));
}

/// A frame with no padding.
proof fn lemma_nothing_behind(f: Seq<u8>)
    ensures
        f + Seq::<u8>::empty() == f,
{
    assert(f + Seq::<u8>::empty() =~= f);
}

/// What a segment with FIN and without SYN brings about.
proof fn lemma_fin_actions(ip: Seq<u8>, mac: Seq<u8>, d: Seq<u8>, s: parse::TcpView)
    requires
        for_us(mac, d),
        parse::parse(d) == parse::PacketView::Tcp(s),
        s.flags.bits % 2 == 1,
        s.flags.bits / 2 % 2 == 0,
    ensures
        outcome(ip, mac, d) == seq![
            ActionView::Transmit(ack_frame(s, ip, mac, 0)),
            ActionView::Transmit(ack_frame(s, ip, mac, 1)),
            tcp_delivery(s),
        ],
{
    reveal(ack_frame);
    reveal(outcome);
    flags::law_flags_are_bits(s.flags.bits);
}

/// What a frame brings about, as a whole.
#[verifier::opaque]
spec fn outcome(ip: Seq<u8>, mac: Seq<u8>, d: Seq<u8>) -> Seq<ActionView> {
    actions_for(ip, mac, d)
}

/// How a TCP frame built here starts.
#[verifier::rlimit(20)]
proof fn lemma_tcp_frame_start(
    src_mac: Seq<u8>,
    src_ip: Seq<u8>,
    src_port: u16,
    dst_ip: Seq<u8>,
    dst_port: u16,
    seq_no: u32,
    ack_no: u32,
    flag_bits: u8,
    payload: Seq<u8>,
)
    requires
        src_mac.len() == 6,
        src_ip.len() == 4,
        dst_ip.len() == 4,
    ensures
        ({
            let f = frame::tcp_frame(
                src_mac,
                src_ip,
                src_port,
                dst_ip,
                dst_port,
                seq_no,
                ack_no,
                flag_bits,
                payload,
            );
            &&& f.len() >= 54
            &&& f[0] == 255
        }),
{
    let f = frame::tcp_frame(
        src_mac,
        src_ip,
        src_port,
        dst_ip,
        dst_port,
        seq_no,
        ack_no,
        flag_bits,
        payload,
    );
    frame::law_tcp_frame_layout(
        src_mac,
        src_ip,
        src_port,
        dst_ip,
        dst_port,
        seq_no,
        ack_no,
        flag_bits,
        payload,
    );
    assert(f.subrange(0, 6)[0] == f[0]);
}

/// A TCP frame built here reaches every host and parses as what it was built
/// from.
proof fn lemma_tcp_frame_arrives(
    our_mac: Seq<u8>,
    peer_mac: Seq<u8>,
    peer_ip: Seq<u8>,
    peer_port: u16,
    our_ip: Seq<u8>,
    our_port: u16,
    seq_no: u32,
    ack_no: u32,
    flag_bits: u8,
    payload: Seq<u8>,
    pad: Seq<u8>,
)
    requires
        our_ip.len() == 4,
        peer_ip.len() == 4,
        peer_mac.len() == 6,
        payload.len() <= 65495,
    ensures
        ({
            let d = frame::tcp_frame(
                peer_mac,
                peer_ip,
                peer_port,
                our_ip,
                our_port,
                seq_no,
                ack_no,
                flag_bits,
                payload,
            ) + pad;
            &&& d.len() >= 54
            &&& d[0] == 255
            &&& parse::parse(d) == parse::PacketView::Tcp(
                (parse::TcpView {
                    source_ip: peer_ip,
                    source_port: peer_port,
                    dest_port: our_port,
                    seq: seq_no,
                    ack: ack_no,
                    flags: (TcpFlags { bits: flag_bits & flags::ALL_FLAGS }),
                    data_len: payload.len(),
                    data: payload,
                }),
            )
        }),
{
    let f = frame::tcp_frame(
        peer_mac,
        peer_ip,
        peer_port,
        our_ip,
        our_port,
        seq_no,
        ack_no,
        flag_bits,
        payload,
    );
    assert(f.len() >= 54 && f[0] == 255) by {
        lemma_tcp_frame_start(
            peer_mac,
            peer_ip,
            peer_port,
            our_ip,
            our_port,
            seq_no,
            ack_no,
            flag_bits,
            payload,
        );
    }
    parse::law_tcp_round_trip(
        peer_mac,
        peer_ip,
        peer_port,
        our_ip,
        our_port,
        seq_no,
        ack_no,
        flag_bits,
        payload,
        pad,
    );
}


/// What the bits of a flag byte become once the bits that are no flags are
/// dropped.
proof fn lemma_flag_bits(flag_bits: u8)
    ensures
        flag_bits & flags::ALL_FLAGS == flag_bits % 32,
        flag_bits % 32 % 2 == flag_bits % 2,
        flag_bits % 32 / 2 % 2 == flag_bits / 2 % 2,
        flag_bits % 32 / 16 % 2 == flag_bits / 16 % 2,
{
    assert(flag_bits & 0x1f == flag_bits % 32 && flag_bits % 32 % 2 == flag_bits % 2 && flag_bits
        % 32 / 2 % 2 == flag_bits / 2 % 2 && flag_bits % 32 / 16 % 2 == flag_bits / 16 % 2)
        by (bit_vector);
}

/// For every TCP frame built with FIN and without SYN, whatever its payload:
/// the actions are a frame that parses as a pure ACK of the sequence number
/// advanced by the payload or by one, one that parses as FIN-ACK with the same
/// numbers, and the delivery of the payload with the numbers it came with. The
/// two frames are the result.
pub proof fn law_built_fin_is_answered(
    our_ip: Seq<u8>,
    our_mac: Seq<u8>,
    peer_ip: Seq<u8>,
    peer_mac: Seq<u8>,
    peer_port: u16,
    our_port: u16,
    seq_no: u32,
    ack_no: u32,
    flag_bits: u8,
    payload: Seq<u8>,
    pad: Seq<u8>,
) -> (r: (Seq<u8>, Seq<u8>))
    requires
        our_ip.len() == 4,
        our_mac.len() == 6,
        peer_ip.len() == 4,
        peer_mac.len() == 6,
        payload.len() <= 65495,
        flag_bits % 2 == 1,
        flag_bits / 2 % 2 == 0,
    ensures
        actions_for(
            our_ip,
            our_mac,
            frame::tcp_frame(
                peer_mac,
                peer_ip,
                peer_port,
                our_ip,
                our_port,
                seq_no,
                ack_no,
                flag_bits,
                payload,
            ) + pad,
        ) == seq![
            ActionView::Transmit(r.0),
            ActionView::Transmit(r.1),
            ActionView::Deliver(
                (DeliveryView {
                    target: peer_ip,
                    lport: our_port,
                    rport: peer_port,
                    data: payload,
                    marks: Some((seq_no, ack_no)),
                }),
            ),
        ],
        ({
            let reply = parse::TcpView {
                source_ip: our_ip,
                source_port: our_port,
                dest_port: peer_port,
                seq: ack_no,
                ack: ((seq_no + if payload.len() > 0 {
                    payload.len() as int
                } else {
                    1
                }) % 0x1_0000_0000) as u32,
                flags: (TcpFlags { bits: 16 }),
                data_len: 0,
                data: Seq::empty(),
            };
            &&& parse::parse(r.0) == parse::PacketView::Tcp(reply)
            &&& parse::parse(r.1) == parse::PacketView::Tcp(
                (parse::TcpView { flags: (TcpFlags { bits: 17 }), ..reply }),
            )
        }),
{
    let s = parse::TcpView {
        source_ip: peer_ip,
        source_port: peer_port,
        dest_port: our_port,
        seq: seq_no,
        ack: ack_no,
        flags: (TcpFlags { bits: flag_bits & flags::ALL_FLAGS }),
        data_len: payload.len(),
        data: payload,
    };
    let d = frame::tcp_frame(
        peer_mac,
        peer_ip,
        peer_port,
        our_ip,
        our_port,
        seq_no,
        ack_no,
        flag_bits,
        payload,
    ) + pad;
    assert(outcome(our_ip, our_mac, d) == seq![
        ActionView::Transmit(ack_frame(s, our_ip, our_mac, 0)),
        ActionView::Transmit(ack_frame(s, our_ip, our_mac, 1)),
        tcp_delivery(s),
    ]) by {
        lemma_flag_bits(flag_bits);
        lemma_tcp_frame_arrives(
            our_mac,
            peer_mac,
            peer_ip,
            peer_port,
            our_ip,
            our_port,
            seq_no,
            ack_no,
            flag_bits,
            payload,
            pad,
        );
        lemma_fin_actions(our_ip, our_mac, d, s);
    }
    lemma_outcome(our_ip, our_mac, d);
    lemma_fin_replies(s, our_ip, our_mac);
    (ack_frame(s, our_ip, our_mac, 0), ack_frame(s, our_ip, our_mac, 1))
}

/// The two answers to a FIN.
proof fn lemma_fin_replies(s: parse::TcpView, our_ip: Seq<u8>, our_mac: Seq<u8>)
    requires
        s.source_ip.len() == 4,
        our_ip.len() == 4,
        our_mac.len() == 6,
    ensures
        ({
            let reply = parse::TcpView {
                source_ip: our_ip,
                source_port: s.dest_port,
                dest_port: s.source_port,
                seq: s.ack,
                ack: ((s.seq + if s.data_len > 0 {
                    s.data_len as int
                } else {
                    1
                }) % 0x1_0000_0000) as u32,
                flags: (TcpFlags { bits: 16 }),
                data_len: 0,
                data: Seq::empty(),
            };
            &&& parse::parse(ack_frame(s, our_ip, our_mac, 0)) == parse::PacketView::Tcp(reply)
            &&& parse::parse(ack_frame(s, our_ip, our_mac, 1)) == parse::PacketView::Tcp(
                (parse::TcpView { flags: (TcpFlags { bits: 17 }), ..reply }),
            )
        }),
{
    assert((0x10u8 | 0) & 0x1f == 16 && (0x10u8 | 1) & 0x1f == 17) by (bit_vector);
    lemma_ack_frame(s, our_ip, our_mac, 0, 16);
    lemma_ack_frame(s, our_ip, our_mac, 1, 17);
    if s.data_len > 0 {
        vstd::arithmetic::div_mod::lemma_add_mod_noop_right(
            s.seq as int,
            s.data_len as int,
            0x1_0000_0000,
        );
    }
}

/// An action stands for what it holds, and a list of actions for each of them in
/// order.
pub proof fn law_action_fields(
    d: Delivery,
    tcp: ParsedTcp,
    frame: Vec<u8>,
    actions: Seq<NetAction>,
    i: int,
)
    requires
        0 <= i < actions.len(),
    ensures
        d@.target == d.target.0@ && d@.lport == d.lport && d@.rport == d.rport,
        d@.data == d.data@ && d@.marks == d.marks,
        NetAction::Transmit(frame)@ == ActionView::Transmit(frame@),
        NetAction::Accept(tcp)@ == ActionView::Accept(tcp@),
        NetAction::Deliver(d)@ == ActionView::Deliver(d@),
        views(actions).len() == actions.len(),
        views(actions)[i] == actions[i]@,
{
}

/// A frame that cannot be parsed brings nothing about.
pub proof fn law_unknown_frames_bring_nothing_about(ip: Seq<u8>, mac: Seq<u8>, d: Seq<u8>)
    requires
        parse::parse(d) == parse::PacketView::Unknown,
    ensures
        actions_for(ip, mac, d).len() == 0,
{
}

} // verus!
