use netbypass::addr::{IPv4, MacAddress};
use netbypass::bench::{
    burst_cost, burst_size, progress_due, throughput, ticks_to_ns, RoundStep, Rounds, Samples,
    SocketRounds, SocketStep, ThroughputRun,
};
use netbypass::bench_bypass;
use netbypass::bench_bypass::{reply_kind, ReplyKind};
use netbypass::bench_e1000;
use netbypass::bench_socket;
use netbypass::bypass::{bypass_tx, NetBypassHeader, TxRun};
use netbypass::bypass_test;
use netbypass::bypass_udp;
use netbypass::bypass_udp::{can_identify, identify_reply, Reply};
use netbypass::frame::build_udp_packet;
use netbypass::stack::NetConfig;
use netbypass::stats::{can_summarize, sort_u64, summarize};

const MAC: [u8; 6] = [1, 2, 3, 4, 5, 6];
const IP: [u8; 4] = [10, 0, 2, 15];
const DST: [u8; 4] = [10, 0, 2, 2];

fn header() -> NetBypassHeader {
    NetBypassHeader::initial(&NetConfig::initial())
}

fn expected(payload: &[u8]) -> Vec<u8> {
    build_udp_packet(
        &MacAddress::new(MAC),
        &MacAddress::broadcast(),
        &IPv4(IP),
        &IPv4(DST),
        2001,
        26099,
        payload,
    )
}

fn pattern(n: usize) -> Vec<u8> {
    (0..n).map(|j| (j & 0xff) as u8).collect()
}

#[test]
fn frames_are_built_in_place() {
    let mut buf = [0xAAu8; 100];
    let n = bypass_udp::build_udp_frame_into(&mut buf, &MAC, &IP, 2001, &DST, 26099, b"hello");
    assert_eq!(n, 47);
    assert_eq!(buf[..47].to_vec(), expected(b"hello"));
    assert!(buf[47..].iter().all(|b| *b == 0xAA));

    let mut buf = [0xAAu8; 400];
    let n = bench_bypass::build_udp_frame_into(&mut buf, &MAC, &IP, 2001, &DST, 26099, 300);
    assert_eq!(n, 342);
    assert_eq!(buf[..342].to_vec(), expected(&pattern(300)));
    assert!(buf[342..].iter().all(|b| *b == 0xAA));

    let (buf, n) = bypass_test::build_udp_frame(&MAC, &IP, 2001, &DST, 26099, &[0xAB; 64]);
    assert_eq!(n, 106);
    assert_eq!(buf[..106].to_vec(), expected(&pattern(64)));
    assert!(buf[106..].iter().all(|b| *b == 0));
}

#[test]
fn frame_in_slot_is_sent() {
    let mut h = header();
    let mut tx = vec![0u8; 16 * 2048];
    h.tx_head = 5;
    h.tx_tail = 5;
    assert!(bench_bypass::enqueue_in_place(
        &mut h, &mut tx, 2048, 16, &MAC, &IP, 2001, &DST, 26099, 64
    ));
    assert_eq!(h.tx_head, 6);
    let mut run = TxRun::begin(&Some(h)).ok().unwrap();
    let slot = &tx[5 * 2048..6 * 2048];
    assert_eq!(bypass_tx(&mut run, slot), Some(&expected(&pattern(64))[..]));
    h.tx_head = 21;
    assert!(!bench_bypass::enqueue_in_place(
        &mut h, &mut tx, 2048, 16, &MAC, &IP, 2001, &DST, 26099, 64
    ));
    assert_eq!(h.tx_head, 21);
}

#[test]
fn bursts_fill_the_ring() {
    let mut h = header();
    h.tx_head = 3;
    h.tx_tail = 1;
    let mut tx = vec![0u8; 16 * 2048];
    let n = bench_bypass::enqueue_burst(
        &mut h, &mut tx, 2048, 16, &MAC, &IP, 2001, &DST, 26099, 10, 16,
    );
    assert_eq!(n, 14);
    assert_eq!(h.tx_head, 17);
    for i in 3..17usize {
        let at = (i % 16) * 2048;
        assert_eq!(&tx[at..at + 2], &[52, 0]);
        assert_eq!(tx[at + 2..at + 54].to_vec(), expected(&pattern(10)));
    }
    assert_eq!(&tx[2 * 2048..2 * 2048 + 4], &[0; 4]);

    let mut h = header();
    let mut tx = vec![0u8; 16 * 2048];
    let n = bypass_test::enqueue_burst(&mut h, &mut tx, 2048, 16, &[8, 9], 2, 3);
    assert_eq!(n, 3);
    assert_eq!(h.tx_head, 3);
    assert_eq!(&tx[2 * 2048..2 * 2048 + 4], &[2, 0, 8, 9]);
    assert_eq!(&tx[3 * 2048..3 * 2048 + 4], &[0; 4]);
}

#[test]
fn replies_are_told_apart() {
    let udp = expected(b"x");
    assert_eq!(reply_kind(&udp), ReplyKind::Udp);
    let mut other = udp.clone();
    other[23] = 1;
    assert_eq!(reply_kind(&other), ReplyKind::ControlMessage);
    other[23] = 6;
    assert_eq!(reply_kind(&other), ReplyKind::Other);
    other[12] = 9;
    assert_eq!(reply_kind(&other), ReplyKind::Other);
    assert_eq!(reply_kind(&udp[..33]), ReplyKind::Other);
}

#[test]
fn replies_are_identified() {
    let udp = expected(b"hello");
    match identify_reply(&udp) {
        Reply::Udp { source, payload } => {
            assert!(source == IPv4(IP));
            assert_eq!(payload, Some(b"hello".to_vec()));
        }
        _ => panic!("not UDP"),
    }
    match identify_reply(&udp[..46]) {
        Reply::Udp { payload, .. } => assert!(payload.is_none()),
        _ => panic!("not UDP"),
    }
    let mut other = udp.clone();
    other[23] = 1;
    other[34] = 3;
    other[35] = 3;
    match identify_reply(&other) {
        Reply::ControlMessage { message, .. } => assert_eq!(message, Some((3, 3))),
        _ => panic!("not a control message"),
    }
    match identify_reply(&other[..35]) {
        Reply::ControlMessage { message, .. } => assert_eq!(message, None),
        _ => panic!("not a control message"),
    }
    other[23] = 6;
    assert!(matches!(identify_reply(&other), Reply::OtherIpv4 { protocol: 6, .. }));
    other[12] = 0x86;
    other[13] = 0xdd;
    assert!(matches!(identify_reply(&other), Reply::NotIpv4(0x86dd)));
    assert!(matches!(identify_reply(&other[..33]), Reply::Short));
}

#[test]
fn figures_of_samples() {
    let mut s = [5u64, 1, 4, 2, 3];
    sort_u64(&mut s);
    assert_eq!(s, [1, 2, 3, 4, 5]);
    let mut v: Vec<u64> = (0..200).rev().collect();
    let st = summarize(&mut v).unwrap();
    assert_eq!((st.n, st.min, st.avg, st.max), (200, 0, 99, 199));
    assert_eq!((st.p50, st.p99), (100, 198));
    assert!(summarize(&mut []).is_none());
    let one = summarize(&mut [7]).unwrap();
    assert_eq!((one.min, one.avg, one.max, one.p50, one.p99), (7, 7, 7, 7, 7));
}

#[test]
fn costs_per_packet() {
    let t = throughput(1000, 3500, 1000);
    assert_eq!((t.elapsed, t.per_packet), (2500, 2));
    assert_eq!(ticks_to_ns(t.per_packet), 200);
    assert_eq!(burst_cost(0, 100, 16), 6);
    assert_eq!(burst_cost(0, 100, 0), 0);
    assert_eq!(burst_cost(0, 100, -1), 0);
    assert_eq!((burst_size(16), burst_size(256), burst_size(1000)), (16, 256, 256));
    assert!(progress_due(49) && progress_due(99));
    assert!(!progress_due(0) && !progress_due(50));
}

#[test]
fn throughput_flushes_at_half_the_ring() {
    let mut run = ThroughputRun { sent: 0, count: 10 };
    let mut h = header();
    h.tx_head = 7;
    assert!(!run.attempted(true, &h, 16));
    h.tx_head = 8;
    assert!(run.attempted(true, &h, 16));
    assert!(run.attempted(false, &h, 16));
    assert_eq!(run.sent, 2);
    h.tx_tail = 8;
    run.sent = 9;
    assert!(run.attempted(true, &h, 16));
    assert_eq!(run.sent, 10);
}

#[test]
fn rounds_send_then_receive() {
    let mut r = Rounds::new(1, 1);
    let mut steps = Vec::new();
    while r.step != RoundStep::Finish {
        steps.push(r.step);
        r.advance(steps.len() != 1);
    }
    assert_eq!(
        steps,
        vec![
            RoundStep::Enqueue,
            RoundStep::MakeRoom,
            RoundStep::Enqueue,
            RoundStep::Send,
            RoundStep::Receive,
            RoundStep::Enqueue,
            RoundStep::Send,
            RoundStep::Receive,
        ]
    );
    assert_eq!(r.round, 2);
    assert_eq!(Rounds::new(0, 0).step, RoundStep::Finish);
}

#[test]
fn samples_leave_out_the_warmup() {
    let mut s = Samples::new();
    assert_eq!(s.ticks, vec![0; 200]);
    s.record(20, 19, 5);
    s.record(20, 20, 6);
    s.record(20, 219, 7);
    s.record(20, 220, 8);
    assert_eq!((s.ticks[0], s.ticks[199]), (6, 7));
    assert_eq!(s.ticks.iter().sum::<u64>(), 13);
    assert_eq!(s.measured(2), vec![6, 0]);
    assert_eq!(s.measured(500).len(), 200);
}

#[test]
fn rounds_over_the_rings_are_counted() {
    let mut run = bench_bypass::RttRun::new(1);
    let mut h = header();
    let mut rx = vec![0u8; 16 * 2048];
    let udp = expected(b"x");
    for (i, n) in [udp.len(), udp.len(), 20].iter().enumerate() {
        rx[i * 2048] = *n as u8;
        rx[i * 2048 + 2..i * 2048 + 2 + n].copy_from_slice(&udp[..*n]);
    }
    assert!(bench_bypass::RttRun::can_record(43, &h, &rx, 2048, 16));
    assert!(!bench_bypass::RttRun::can_record(43, &h, &rx[..40], 2048, 16));
    assert!(bench_bypass::RttRun::can_record(-1, &h, &rx[..40], 2048, 16));
    run.record_round(0, 10, 20, 43, &mut h, &rx, 2048, 16);
    run.record_round(1, 20, 50, 0, &mut h, &rx, 2048, 16);
    assert_eq!(h.rx_tail, 2);
    run.record_round(2, 50, 60, -2, &mut h, &rx, 2048, 16);
    assert_eq!(h.rx_tail, 2);
    run.record_round(3, 60, 65, 20, &mut h, &rx, 2048, 16);
    assert_eq!((run.udp_count, run.control_count, run.other_count, run.lost), (2, 0, 1, 1));
    assert_eq!(run.samples.measured(3), vec![30, 0, 5]);
    assert_eq!(h.rx_tail, 3);

    let mut h = header();
    let mut run = bypass_test::RttRun::new(1);
    run.record_round(0, 0, 9, 1, &mut h);
    run.record_round(1, 0, 4, -1, &mut h);
    assert_eq!(run.samples.measured(2), vec![4, 0]);
    assert_eq!(h.rx_tail, 1);
}

#[test]
fn every_round_receives_once_with_full_rings() {
    let mut r = Rounds::new(2, 3);
    let mut receives = 0;
    let mut attempts = 0;
    while r.step != RoundStep::Finish {
        if r.step == RoundStep::Receive {
            receives += 1;
        }
        let full = r.step == RoundStep::Enqueue && {
            attempts += 1;
            attempts % 3 != 0
        };
        r.advance(!full);
    }
    assert_eq!(receives, 5);
    assert_eq!(attempts, 15);
}

#[test]
fn socket_rounds_write_then_read() {
    let mut r = SocketRounds::new(1, 1);
    let mut steps = Vec::new();
    while r.step != SocketStep::Finish {
        steps.push((r.round, r.step));
        r.advance();
    }
    assert_eq!(
        steps,
        vec![
            (0, SocketStep::Write),
            (0, SocketStep::Read),
            (1, SocketStep::Write),
            (1, SocketStep::Read),
        ]
    );
    assert_eq!(SocketRounds::new(0, 0).step, SocketStep::Finish);
}

#[test]
fn series_must_be_summable() {
    assert!(can_summarize(&[u64::MAX - 1, 1]));
    assert!(!can_summarize(&[u64::MAX, 1]));
    assert!(can_summarize(&[]));
}

#[test]
fn packets_must_be_identifiable() {
    let udp = expected(b"hello");
    assert!(can_identify(&udp));
    assert!(!can_identify(&udp[..39]));
    assert!(can_identify(&udp[..33]));
    let mut short = udp.clone();
    short[39] = 7;
    assert!(!can_identify(&short));
    short[23] = 1;
    assert!(can_identify(&short));
    // Padding is not payload.
    let mut padded = udp;
    padded.resize(60, 0xEE);
    assert!(matches!(
        identify_reply(&padded),
        Reply::Udp { payload: Some(p), .. } if p == b"hello"
    ));
}

#[test]
fn rounds_over_sockets_are_counted() {
    let mut run = bench_socket::RttRun::new(0);
    run.record_round(0, 0, 9, 64);
    run.record_round(1, 0, 9, 0);
    run.record_round(2, 0, 8, 64);
    assert_eq!(run.lost, 1);
    assert_eq!(run.samples.measured(3), vec![9, 0, 8]);

    // Here only answered rounds take a place.
    let mut run = bench_e1000::RttRun::new(1);
    run.record_round(0, 0, 1, 64);
    run.record_round(1, 0, 9, 64);
    run.record_round(2, 0, 9, -1);
    run.record_round(3, 0, 8, 64);
    assert_eq!(run.lost, 1);
    assert_eq!(run.collected, vec![9, 8]);
    for _ in 0..300 {
        run.record_round(5, 0, 1, 1);
    }
    assert_eq!(run.collected.len(), 200);
}

#[test]
fn unmeasured_rounds_may_have_any_times() {
    let mut run = bench_socket::RttRun::new(1);
    assert!(!run.measures(0, 64) && run.measures(1, 64) && !run.measures(1, 0));
    run.record_round(0, 9, 0, 64);
    run.record_round(201, 9, 0, 64);
    assert_eq!((run.lost, run.samples.measured(1)), (0, vec![0]));

    let mut run = bench_e1000::RttRun::new(1);
    assert!(!run.measures(0, 64) && run.measures(1, 64) && !run.measures(1, -1));
    run.record_round(0, 9, 0, 64);
    assert!(run.collected.is_empty());

    let mut h = header();
    let rx = vec![0u8; 16 * 2048];
    let mut run = bench_bypass::RttRun::new(1);
    assert!(!run.measures(0, 0) && run.measures(1, 0) && !run.measures(1, -1));
    run.record_round(0, 9, 0, 0, &mut h, &rx, 2048, 16);
    assert_eq!((run.other_count, run.samples.measured(1)), (1, vec![0]));

    let run = bypass_test::RttRun::new(1);
    assert!(!run.measures(0) && run.measures(200) && !run.measures(201));
}
