use netbypass::addr::{IPv4, MacAddress};
use netbypass::bytes;
use netbypass::checksum::internet_checksum;
use netbypass::flags::TcpFlags;
use netbypass::frame::{
    build_arp_reply, build_arp_request, build_tcp_data_packet, build_udp_packet, tcp_checksum,
};
use netbypass::parse::{parse_packet, ParsedPacket};

const MAC_A: [u8; 6] = [0x52, 0x54, 0x00, 0x12, 0x34, 0x56];
const MAC_B: [u8; 6] = [0x02, 0x00, 0x00, 0x00, 0x00, 0x01];

fn ip_a() -> IPv4 {
    IPv4::new(10, 0, 2, 15)
}

fn ip_b() -> IPv4 {
    IPv4::new(10, 0, 2, 2)
}

#[test]
fn addresses_convert() {
    assert_eq!(IPv4::from_u32(0x0A00_0202).as_bytes(), &[10, 0, 2, 2]);
    assert_eq!(IPv4::from_bytes(&[1, 2, 3, 4, 5]).as_bytes(), &[1, 2, 3, 4]);
    assert!(IPv4::new(1, 2, 3, 4) == IPv4::from_bytes(&[1, 2, 3, 4]));
    assert!(IPv4::new(1, 2, 3, 4) != IPv4::new(1, 2, 3, 5));
    assert!(IPv4::new(0, 0, 0, 0).is_zero());
    assert!(!IPv4::new(0, 0, 0, 1).is_zero());
    assert_eq!(MacAddress::broadcast().as_bytes(), &[0xff; 6]);
    assert_eq!(MacAddress::from_bytes(&[1, 2, 3, 4, 5, 6, 7]).as_bytes(), &[1, 2, 3, 4, 5, 6]);
    assert!(MacAddress::new([0; 6]).is_zero());
    assert!(!MacAddress::broadcast().is_zero());
}

#[test]
fn big_endian_numbers_round_trip() {
    let mut out = Vec::new();
    bytes::push_be16(&mut out, 0x1234);
    bytes::push_be32(&mut out, 0xDEAD_BEEF);
    assert_eq!(out, vec![0x12, 0x34, 0xDE, 0xAD, 0xBE, 0xEF]);
    assert_eq!(bytes::join_be16(out[0], out[1]), 0x1234);
    assert_eq!(bytes::join_be32(out[2], out[3], out[4], out[5]), 0xDEAD_BEEF);
    assert_eq!(bytes::join_le16(0x34, 0x12), 0x1234);
    assert_eq!(bytes::to_low16_plus(0xffff, 8), 7);
}

#[test]
fn checksum_of_known_header() {
    // A textbook IPv4 header whose checksum is 0xb861.
    let mut header = [
        0x45u8, 0x00, 0x00, 0x73, 0x00, 0x00, 0x40, 0x00, 0x40, 0x11, 0x00, 0x00, 0xc0, 0xa8,
        0x00, 0x01, 0xc0, 0xa8, 0x00, 0xc7,
    ];
    assert_eq!(internet_checksum(&header), 0xb861);
    header[10] = 0xb8;
    header[11] = 0x61;
    assert_eq!(internet_checksum(&header), 0);
}

#[test]
fn checksum_edge_cases() {
    assert_eq!(internet_checksum(&[]), 0xffff);
    assert_eq!(internet_checksum(&[0x01]), 0xfeff);
    assert_eq!(internet_checksum(&[0xff, 0xff]), 0);
    assert_eq!(internet_checksum(&[0xff, 0xff, 0x00, 0x01]), 0xfffe);
}

#[test]
fn udp_packet_layout() {
    let f = build_udp_packet(
        &MacAddress::new(MAC_A),
        &MacAddress::new(MAC_B),
        &ip_a(),
        &ip_b(),
        2001,
        26099,
        b"hi!",
    );
    assert_eq!(f.len(), 45);
    assert_eq!(&f[0..6], &MAC_B);
    assert_eq!(&f[6..12], &MAC_A);
    assert_eq!(&f[12..14], &[0x08, 0x00]);
    assert_eq!(f[14], 0x45);
    assert_eq!(&f[16..18], &[0, 31]);
    assert_eq!(f[22], 64);
    assert_eq!(f[23], 17);
    assert_eq!(&f[26..30], &[10, 0, 2, 15]);
    assert_eq!(&f[30..34], &[10, 0, 2, 2]);
    assert_eq!(&f[34..36], &2001u16.to_be_bytes());
    assert_eq!(&f[36..38], &26099u16.to_be_bytes());
    assert_eq!(&f[38..40], &[0, 11]);
    assert_eq!(&f[42..45], b"hi!");
    // The header verifies.
    assert_eq!(internet_checksum(&f[14..34]), 0);
}

#[test]
fn udp_packet_round_trip() {
    let f = build_udp_packet(
        &MacAddress::new(MAC_A),
        &MacAddress::new(MAC_B),
        &ip_a(),
        &ip_b(),
        2001,
        26099,
        b"payload",
    );
    match parse_packet(&f) {
        ParsedPacket::Udp(u) => {
            assert!(u.source_ip == ip_a());
            assert_eq!(u.source_port, 2001);
            assert_eq!(u.dest_port, 26099);
            assert_eq!(u.data, b"payload".to_vec());
        }
        _ => panic!("not UDP"),
    }
}

#[test]
fn udp_padding_is_not_payload() {
    let mut f = build_udp_packet(
        &MacAddress::new(MAC_A),
        &MacAddress::new(MAC_B),
        &ip_a(),
        &ip_b(),
        1,
        2,
        b"x",
    );
    f.resize(60, 0xEE);
    match parse_packet(&f) {
        ParsedPacket::Udp(u) => assert_eq!(u.data, b"x".to_vec()),
        _ => panic!("not UDP"),
    }
}

#[test]
fn arp_packets_round_trip() {
    let request = build_arp_request(&MacAddress::new(MAC_A), &ip_a(), &ip_b());
    assert_eq!(request.len(), 42);
    assert_eq!(&request[0..6], &[0xff; 6]);
    assert_eq!(&request[12..22], &[0x08, 0x06, 0, 1, 0x08, 0x00, 6, 4, 0, 1]);
    assert_eq!(&request[32..38], &[0; 6]);
    match parse_packet(&request) {
        ParsedPacket::Arp(a) => {
            assert_eq!(a.operation, 1);
            assert!(a.sender_mac == MacAddress::new(MAC_A));
            assert!(a.sender_ip == ip_a());
            assert!(a.target_ip == ip_b());
        }
        _ => panic!("not ARP"),
    }
    let reply = build_arp_reply(
        &MacAddress::new(MAC_B),
        &ip_b(),
        &MacAddress::new(MAC_A),
        &ip_a(),
    );
    assert_eq!(&reply[0..6], &MAC_A);
    assert_eq!(&reply[20..22], &[0, 2]);
    match parse_packet(&reply) {
        ParsedPacket::Arp(a) => {
            assert_eq!(a.operation, 2);
            assert!(a.sender_mac == MacAddress::new(MAC_B));
        }
        _ => panic!("not ARP"),
    }
}

#[test]
fn tcp_packet_round_trip_and_checksum() {
    let f = build_tcp_data_packet(
        &MacAddress::new(MAC_A),
        &ip_a(),
        80,
        &ip_b(),
        5000,
        0x0102_0304,
        0xfffe_fdfc,
        TcpFlags::ack(),
        b"hello",
    );
    assert_eq!(f.len(), 59);
    assert_eq!(f[46], 0x50);
    assert_eq!(f[47], 0x10);
    assert_eq!(&f[48..50], &[0xff, 0xff]);
    assert_eq!(internet_checksum(&f[14..34]), 0);
    // A segment that holds its checksum sums to zero.
    assert_eq!(tcp_checksum(&ip_a(), &ip_b(), &f[34..]), 0);
    match parse_packet(&f) {
        ParsedPacket::Tcp(t) => {
            assert_eq!((t.source_port, t.dest_port), (80, 5000));
            assert_eq!((t.seq, t.ack), (0x0102_0304, 0xfffe_fdfc));
            assert!(t.flags.contains(TcpFlags::ack()));
            assert!(!t.flags.contains(TcpFlags::syn()));
            assert_eq!(t.data_len, 5);
            assert_eq!(t.data, b"hello".to_vec());
        }
        _ => panic!("not TCP"),
    }
}

#[test]
fn ack_reply_acknowledges_data_or_one() {
    let f = build_tcp_data_packet(
        &MacAddress::new(MAC_B),
        &ip_b(),
        5000,
        &ip_a(),
        80,
        u32::MAX,
        77,
        TcpFlags::syn(),
        b"",
    );
    let tcp = match parse_packet(&f) {
        ParsedPacket::Tcp(t) => t,
        _ => panic!("not TCP"),
    };
    let reply = tcp.build_ack_reply(&ip_a(), &MacAddress::new(MAC_A), TcpFlags::syn());
    assert_eq!(reply.len(), 54);
    match parse_packet(&reply) {
        ParsedPacket::Tcp(t) => {
            assert_eq!((t.source_port, t.dest_port), (80, 5000));
            assert_eq!((t.seq, t.ack), (77, 0));
            assert_eq!(t.flags.bits(), 0x12);
        }
        _ => panic!("not TCP"),
    }
    let g = build_tcp_data_packet(
        &MacAddress::new(MAC_B),
        &ip_b(),
        5000,
        &ip_a(),
        80,
        100,
        77,
        TcpFlags::fin().union(TcpFlags::ack()),
        b"abc",
    );
    match parse_packet(&g) {
        ParsedPacket::Tcp(t) => {
            let r = t.build_ack_reply(&ip_a(), &MacAddress::new(MAC_A), TcpFlags::empty());
            match parse_packet(&r) {
                ParsedPacket::Tcp(a) => assert_eq!(a.ack, 103),
                _ => panic!("not TCP"),
            }
        }
        _ => panic!("not TCP"),
    }
}

#[test]
fn malformed_packets_are_unknown() {
    assert!(matches!(parse_packet(&[]), ParsedPacket::Unknown));
    assert!(matches!(parse_packet(&[0; 13]), ParsedPacket::Unknown));
    // ARP that is cut off.
    let request = build_arp_request(&MacAddress::new(MAC_A), &ip_a(), &ip_b());
    assert!(matches!(parse_packet(&request[..41]), ParsedPacket::Unknown));
    // An unknown EtherType.
    let mut other = request.clone();
    other[13] = 0x07;
    assert!(matches!(parse_packet(&other), ParsedPacket::Unknown));
    // IPv4 with another protocol, and cut off in its UDP header.
    let mut udp = build_udp_packet(
        &MacAddress::new(MAC_A),
        &MacAddress::new(MAC_B),
        &ip_a(),
        &ip_b(),
        1,
        2,
        b"",
    );
    assert!(matches!(parse_packet(&udp[..41]), ParsedPacket::Unknown));
    assert!(matches!(parse_packet(&udp[..33]), ParsedPacket::Unknown));
    udp[23] = 1;
    assert!(matches!(parse_packet(&udp), ParsedPacket::Unknown));
}

#[test]
fn flags_truncate_and_combine() {
    assert_eq!(TcpFlags::from_bits_truncate(0xff).bits(), 0x1f);
    let both = TcpFlags::syn().union(TcpFlags::ack());
    assert_eq!(both.bits(), 0x12);
    assert!(both.contains(TcpFlags::syn()));
    assert!(!both.contains(TcpFlags::fin()));
    assert!(both.contains(TcpFlags::empty()));
    assert_eq!((TcpFlags::rst().bits(), TcpFlags::psh().bits()), (4, 8));
}
