use netbypass::addr::{IPv4, MacAddress};
use netbypass::flags::TcpFlags;
use netbypass::frame::{build_arp_reply, build_arp_request, build_tcp_data_packet, build_udp_packet};
use netbypass::neighbor::NeighborCache;
use netbypass::poll::{
    net_poll_budget, net_poll_handler, resolve_mac, PollRun, ResolveRun, ResolveStep,
};
use netbypass::stack::{accept_reply, frame_is_for_us, init, NetAction, NetConfig, NetStack};

const OUR_MAC: [u8; 6] = [0x52, 0x54, 0x00, 0x12, 0x34, 0x56];
const PEER_MAC: [u8; 6] = [0x02, 0, 0, 0, 0, 7];

fn our_ip() -> IPv4 {
    IPv4::new(10, 0, 2, 15)
}

fn peer_ip() -> IPv4 {
    IPv4::new(10, 0, 2, 2)
}

fn peer_request() -> Vec<u8> {
    build_arp_request(&MacAddress::new(PEER_MAC), &peer_ip(), &our_ip())
}

fn peer_reply() -> Vec<u8> {
    build_arp_reply(&MacAddress::new(PEER_MAC), &peer_ip(), &MacAddress::new(OUR_MAC), &our_ip())
}

fn udp_from_peer(payload: &[u8]) -> Vec<u8> {
    build_udp_packet(
        &MacAddress::new(PEER_MAC),
        &MacAddress::new(OUR_MAC),
        &peer_ip(),
        &our_ip(),
        26099,
        2001,
        payload,
    )
}

fn tcp_from_peer(flags: TcpFlags, payload: &[u8]) -> Vec<u8> {
    build_tcp_data_packet(
        &MacAddress::new(PEER_MAC),
        &peer_ip(),
        5000,
        &our_ip(),
        80,
        100,
        200,
        flags,
        payload,
    )
}

#[test]
fn config_starts_with_defaults_and_takes_device_address() {
    let mut c = NetConfig::initial();
    assert!(c.ip == our_ip());
    assert!(c.mac == MacAddress::new(OUR_MAC));
    init(&mut c, [1, 2, 3, 4, 5, 6]);
    assert!(c.mac == MacAddress::new([1, 2, 3, 4, 5, 6]));
    assert!(c.ip == our_ip());
}

#[test]
fn neighbors_are_learned_and_updated() {
    let mut c = NeighborCache::new();
    assert!(c.lookup_neighbor(&peer_ip()).is_none());
    c.learn_neighbor(peer_ip(), MacAddress::new(PEER_MAC));
    assert!(c.lookup_neighbor(&peer_ip()) == Some(MacAddress::new(PEER_MAC)));
    c.learn_neighbor(peer_ip(), MacAddress::new([2; 6]));
    assert_eq!(c.len(), 1);
    assert!(c.lookup_neighbor(&peer_ip()) == Some(MacAddress::new([2; 6])));
    // Addresses that name no single host are not learned.
    c.learn_neighbor(IPv4::new(1, 1, 1, 1), MacAddress::broadcast());
    c.learn_neighbor(IPv4::new(1, 1, 1, 1), MacAddress::new([0; 6]));
    c.learn_neighbor(IPv4::new(0, 0, 0, 0), MacAddress::new(PEER_MAC));
    assert_eq!(c.len(), 1);
}

#[test]
fn oldest_neighbor_makes_room() {
    let mut c = NeighborCache::new();
    for i in 0..40u8 {
        c.learn_neighbor(IPv4::new(10, 0, 0, i + 1), MacAddress::new([2, 0, 0, 0, 0, i]));
    }
    let limit = c.len();
    assert_eq!(limit, 16);
    assert!(c.lookup_neighbor(&IPv4::new(10, 0, 0, 1)).is_none());
    assert!(c.lookup_neighbor(&IPv4::new(10, 0, 0, (40 - limit) as u8)).is_none());
    assert!(c.lookup_neighbor(&IPv4::new(10, 0, 0, (41 - limit) as u8)).is_some());
    assert!(c.lookup_neighbor(&IPv4::new(10, 0, 0, 40)).is_some());
}

#[test]
fn frames_for_us() {
    let c = NetConfig::initial();
    assert!(frame_is_for_us(&c, &OUR_MAC));
    assert!(frame_is_for_us(&c, &[0xff; 6]));
    assert!(frame_is_for_us(&c, &[0x01, 0, 0x5e, 0, 0, 1]));
    assert!(!frame_is_for_us(&c, &PEER_MAC));
    assert!(!frame_is_for_us(&c, &OUR_MAC[..5]));
}

#[test]
fn foreign_frames_are_ignored() {
    let mut net = NetStack::new();
    let mut f = udp_from_peer(b"data");
    f[0..6].copy_from_slice(&[2, 9, 9, 9, 9, 9]);
    assert!(net.handle_frame(&f).is_empty());
    assert_eq!(net.neighbors.len(), 0);
}

#[test]
fn arp_request_is_answered() {
    let mut net = NetStack::new();
    let actions = net.handle_frame(&peer_request());
    assert_eq!(actions.len(), 1);
    let expected = build_arp_reply(
        &MacAddress::new(OUR_MAC),
        &our_ip(),
        &MacAddress::new(PEER_MAC),
        &peer_ip(),
    );
    match &actions[0] {
        NetAction::Transmit(f) => assert_eq!(*f, expected),
        _ => panic!("no reply"),
    }
    assert!(net.neighbors.lookup_neighbor(&peer_ip()) == Some(MacAddress::new(PEER_MAC)));
    // A request for someone else teaches, but is not answered.
    let other = build_arp_request(
        &MacAddress::new([2, 0, 0, 0, 0, 8]),
        &IPv4::new(10, 0, 2, 3),
        &IPv4::new(10, 0, 2, 4),
    );
    assert!(net.handle_frame(&other).is_empty());
    assert_eq!(net.neighbors.len(), 2);
}

#[test]
fn udp_is_delivered() {
    let mut net = NetStack::new();
    let mut actions = net.handle_frame(&udp_from_peer(b"ping"));
    assert_eq!(actions.len(), 1);
    match actions.pop() {
        Some(NetAction::Deliver(d)) => {
            assert!(d.target == peer_ip());
            assert_eq!((d.lport, d.rport), (2001, 26099));
            assert_eq!(d.data, b"ping".to_vec());
            assert!(d.marks.is_none());
            let push = d.into_push(Some(3)).unwrap();
            assert_eq!(push.index, 3);
            assert_eq!(push.data, b"ping".to_vec());
        }
        _ => panic!("not delivered"),
    }
    // IPv4 frames teach the sender's address.
    assert!(net.neighbors.lookup_neighbor(&peer_ip()) == Some(MacAddress::new(PEER_MAC)));
    // Without a socket the data is dropped.
    match net.handle_frame(&udp_from_peer(b"ping")).pop() {
        Some(NetAction::Deliver(d)) => assert!(d.into_push(None).is_none()),
        _ => panic!("not delivered"),
    }
}

#[test]
fn tcp_data_is_delivered_with_its_numbers() {
    let mut net = NetStack::new();
    match net.handle_frame(&tcp_from_peer(TcpFlags::ack(), b"get")).pop() {
        Some(NetAction::Deliver(d)) => {
            assert_eq!(d.data, b"get".to_vec());
            assert_eq!(d.marks, Some((100, 200)));
        }
        _ => panic!("not delivered"),
    }
    // A bare ACK does nothing.
    assert!(net.handle_frame(&tcp_from_peer(TcpFlags::ack(), b"")).is_empty());
}

#[test]
fn tcp_syn_is_offered_to_a_listener() {
    let mut net = NetStack::new();
    let mut actions = net.handle_frame(&tcp_from_peer(TcpFlags::syn(), b""));
    assert_eq!(actions.len(), 1);
    match actions.pop() {
        Some(NetAction::Accept(tcp)) => {
            assert!(accept_reply(&net.config, &tcp, false).is_none());
            let reply = accept_reply(&net.config, &tcp, true).unwrap();
            assert_eq!(reply[47], 0x12);
            assert_eq!(&reply[38..42], &200u32.to_be_bytes());
            assert_eq!(&reply[42..46], &101u32.to_be_bytes());
        }
        _ => panic!("not offered"),
    }
}

#[test]
fn tcp_fin_is_acknowledged_and_answered() {
    let mut net = NetStack::new();
    let actions =
        net.handle_frame(&tcp_from_peer(TcpFlags::fin().union(TcpFlags::ack()), b"bye"));
    assert_eq!(actions.len(), 3);
    match (&actions[0], &actions[1], &actions[2]) {
        (NetAction::Transmit(a), NetAction::Transmit(f), NetAction::Deliver(d)) => {
            assert_eq!(a[47], 0x10);
            assert_eq!(f[47], 0x11);
            assert_eq!(&a[42..46], &103u32.to_be_bytes());
            assert_eq!(d.data, b"bye".to_vec());
        }
        _ => panic!("wrong actions"),
    }
}

#[test]
fn poll_stops_at_budget_and_when_drained() {
    let mut net = NetStack::new();
    let mut run = PollRun::new(2);
    let frame = udp_from_peer(b"x");
    assert!(run.wants_frame());
    assert_eq!(net_poll_budget(&mut net, &mut run, &frame).len(), 1);
    assert!(run.wants_frame());
    assert_eq!(net_poll_budget(&mut net, &mut run, &frame).len(), 1);
    assert!(!run.wants_frame());
    assert_eq!(run.handled, 2);

    let mut run = PollRun::new(64);
    assert!(net_poll_budget(&mut net, &mut run, &[]).is_empty());
    assert!(!run.wants_frame());
    assert_eq!(run.handled, 0);
    assert!(!PollRun::new(0).wants_frame());
    assert_eq!(net_poll_handler(&mut net, &frame).len(), 1);
    assert!(net_poll_handler(&mut net, &[]).is_empty());
}

#[test]
fn resolution_of_known_neighbor_ends_at_once() {
    let mut net = NetStack::new();
    net.handle_frame(&peer_reply());
    let mut run = ResolveRun::new();
    match resolve_mac(&net, &peer_ip(), &mut run) {
        ResolveStep::Done(Some(mac)) => assert!(mac == MacAddress::new(PEER_MAC)),
        _ => panic!("not resolved"),
    }
}

#[test]
fn resolution_ends_with_the_reply() {
    let mut net = NetStack::new();
    let mut run = ResolveRun::new();
    match resolve_mac(&net, &peer_ip(), &mut run) {
        ResolveStep::Transmit(f) => assert_eq!(
            f,
            build_arp_request(&MacAddress::new(OUR_MAC), &our_ip(), &peer_ip())
        ),
        _ => panic!("no request"),
    }
    assert!(matches!(resolve_mac(&net, &peer_ip(), &mut run), ResolveStep::Poll));
    net_poll_handler(&mut net, &peer_reply());
    match resolve_mac(&net, &peer_ip(), &mut run) {
        ResolveStep::Done(Some(mac)) => assert!(mac == MacAddress::new(PEER_MAC)),
        _ => panic!("not resolved"),
    }
}

#[test]
fn unanswered_resolution_gives_up() {
    let net = NetStack::new();
    let mut run = ResolveRun::new();
    let mut requests = 0;
    let mut polls = 0;
    loop {
        match resolve_mac(&net, &peer_ip(), &mut run) {
            ResolveStep::Transmit(_) => requests += 1,
            ResolveStep::Poll => polls += 1,
            ResolveStep::Done(r) => {
                assert!(r.is_none());
                break;
            }
        }
    }
    assert_eq!((requests, polls), (3, 768));
}

#[test]
fn polling_handles_frames_in_order() {
    let mut net = NetStack::new();
    let mut run = PollRun::new(5);
    let answers = vec![udp_from_peer(b"a"), peer_request(), udp_from_peer(b"b"), vec![], vec![]];
    let mut receives = 0;
    let mut seen = Vec::new();
    while run.wants_frame() {
        let actions = net_poll_budget(&mut net, &mut run, &answers[receives]);
        receives += 1;
        for a in actions {
            seen.push(match a {
                NetAction::Deliver(d) => d.data,
                NetAction::Transmit(_) => vec![],
                NetAction::Accept(_) => panic!("no SYN was sent"),
            });
        }
    }
    assert_eq!((run.handled, receives), (3, 4));
    assert_eq!(seen, vec![b"a".to_vec(), vec![], b"b".to_vec()]);
}

#[test]
fn resolution_may_be_answered_late() {
    let mut net = NetStack::new();
    let mut run = ResolveRun::new();
    let (mut requests, mut polls) = (0, 0);
    loop {
        match resolve_mac(&net, &peer_ip(), &mut run) {
            ResolveStep::Transmit(_) => requests += 1,
            ResolveStep::Poll => {
                polls += 1;
                if polls == 300 {
                    net_poll_handler(&mut net, &peer_reply());
                }
            }
            ResolveStep::Done(mac) => {
                assert!(mac == Some(MacAddress::new(PEER_MAC)));
                break;
            }
        }
    }
    assert_eq!((requests, polls), (2, 300));
}

#[test]
fn padding_is_not_delivered() {
    let mut net = NetStack::new();
    let mut f = tcp_from_peer(TcpFlags::psh(), b"x");
    f.resize(60, 0xEE);
    match net.handle_frame(&f).pop() {
        Some(NetAction::Deliver(d)) => assert_eq!(d.data, b"x".to_vec()),
        _ => panic!("not delivered"),
    }
    let mut request = peer_request();
    request.resize(60, 0xEE);
    assert_eq!(net.handle_frame(&request).len(), 1);
}

#[test]
fn syn_with_data_is_acknowledged_whole() {
    let mut net = NetStack::new();
    match net.handle_frame(&tcp_from_peer(TcpFlags::syn(), b"fast")).pop() {
        Some(NetAction::Accept(tcp)) => {
            let reply = accept_reply(&net.config, &tcp, true).unwrap();
            assert_eq!(&reply[42..46], &104u32.to_be_bytes());
        }
        _ => panic!("not offered"),
    }
}
