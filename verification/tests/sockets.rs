use netbypass::addr::{IPv4, MacAddress};
use netbypass::parse::{parse_packet, ParsedPacket};
use netbypass::stack::NetConfig;
use netbypass::tcp::TCP;
use netbypass::udp::{ReadEvent, ReadStep, UdpReadRun, UDP};
use netbypass::userbuf::{copy_to_user, gather};

fn udp() -> UDP {
    UDP::new(IPv4::new(10, 0, 2, 2), 2001, 26099, Some(4))
}

fn tcp() -> TCP {
    TCP::new(IPv4::new(10, 0, 2, 2), 80, 5000, 1, 2, Some(5))
}

#[test]
fn sockets_keep_their_place() {
    let u = udp();
    assert_eq!(u.socket_index, 4);
    assert!(u.readable() && u.writable());
    let t = tcp();
    assert_eq!((t.socket_index, t.seq, t.ack), (5, 1, 2));
    assert!(t.readable() && t.writable());
}

#[test]
fn data_is_spread_over_buffers() {
    let mut buf = vec![vec![0; 2], vec![], vec![0; 3], vec![9; 2]];
    assert_eq!(copy_to_user(&mut buf, &[1, 2, 3, 4]), 4);
    assert_eq!(buf, vec![vec![1, 2], vec![], vec![3, 4, 0], vec![9, 9]]);
    assert_eq!(gather(&buf), vec![1, 2, 3, 4, 0, 9, 9]);
    // More data than room.
    let mut small = vec![vec![0; 1], vec![0; 1]];
    assert_eq!(copy_to_user(&mut small, &[7, 8, 9]), 2);
    assert_eq!(small, vec![vec![7], vec![8]]);
    // No data, no room.
    assert_eq!(copy_to_user(&mut small, &[]), 0);
    assert_eq!(copy_to_user(&mut Vec::new(), &[1]), 0);
}

#[test]
fn udp_read_returns_waiting_data() {
    let u = udp();
    let mut run = UdpReadRun::new(1000);
    let mut buf = vec![vec![0; 4]];
    let step = u.read(&mut run, ReadEvent::Popped(Some(vec![5, 6])), &mut buf);
    assert!(step == ReadStep::Done(2));
    assert_eq!(buf, vec![vec![5, 6, 0, 0]]);
}

#[test]
fn udp_read_polls_then_times_out() {
    let u = udp();
    let mut run = UdpReadRun::new(1000);
    let mut buf = vec![vec![0; 4]];
    for _ in 0..2 {
        for _ in 0..64 {
            assert!(u.read(&mut run, ReadEvent::Popped(None), &mut buf) == ReadStep::Poll);
        }
        assert!(u.read(&mut run, ReadEvent::Popped(None), &mut buf) == ReadStep::ReadClock);
        assert!(u.read(&mut run, ReadEvent::Clock(1199), &mut buf) == ReadStep::Suspend);
    }
    assert!(u.read(&mut run, ReadEvent::Clock(1200), &mut buf) == ReadStep::Done(0));
    assert_eq!(buf, vec![vec![0; 4]]);
}

#[test]
fn udp_write_builds_one_datagram() {
    let u = udp();
    let config = NetConfig::initial();
    let bufs = vec![b"ab".to_vec(), b"c".to_vec()];
    let (frame, n) = u.write(&config, &bufs, Some(MacAddress::new([2; 6])));
    assert_eq!(n, 3);
    let frame = frame.unwrap();
    assert_eq!(&frame[0..6], &[2; 6]);
    match parse_packet(&frame) {
        ParsedPacket::Udp(p) => {
            assert_eq!((p.source_port, p.dest_port), (2001, 26099));
            assert_eq!(p.data, b"abc".to_vec());
        }
        _ => panic!("not UDP"),
    }
    let (frame, n) = u.write(&config, &bufs, None);
    assert!(frame.is_none());
    assert_eq!(n, 0);
}

#[test]
fn tcp_read_and_write() {
    let t = tcp();
    let mut buf = vec![vec![0; 2]];
    assert_eq!(t.read(None, &mut buf), None);
    assert_eq!(t.read(Some(vec![1, 2, 3]), &mut buf), Some(2));
    assert_eq!(buf, vec![vec![1, 2]]);

    let config = NetConfig::initial();
    let (frame, n) = t.write(&config, &vec![b"xyz".to_vec()], Some((100, 200)));
    assert_eq!(n, 3);
    match parse_packet(&frame) {
        ParsedPacket::Tcp(p) => {
            assert_eq!((p.source_port, p.dest_port), (80, 5000));
            assert_eq!((p.ack, p.seq), (100, 200));
            assert_eq!(p.flags.bits(), 0x10);
            assert_eq!(p.data, b"xyz".to_vec());
        }
        _ => panic!("not TCP"),
    }
    let (frame, _) = t.write(&config, &vec![b"x".to_vec()], None);
    match parse_packet(&frame) {
        ParsedPacket::Tcp(p) => assert_eq!((p.ack, p.seq), (0, 0)),
        _ => panic!("not TCP"),
    }
}

#[test]
fn tcp_write_needs_a_checksum_that_fits() {
    let t = tcp();
    let config = NetConfig::initial();
    assert!(t.can_write(&config, &vec![b"xyz".to_vec()], Some((100, 200))));
    assert!(t.can_write(&config, &vec![vec![0xff; 131_042]], None));
    // Longer data fits as long as its sum does.
    assert!(t.can_write(&config, &vec![vec![0; 200_000]], None));
    assert!(!t.can_write(&config, &vec![vec![0xff; 200_000]], None));
}
