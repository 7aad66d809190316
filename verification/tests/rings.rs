use netbypass::addr::MacAddress;
use netbypass::bypass::{
    bypass_rx, bypass_setup, bypass_tx, can_use_pages, frames_needed, plan_mappings, snapshot_ptrs, BypassState,
    NetBypassHeader, PageEntry, PageMapping, RxRun, RxStep, TxRun,
};
use netbypass::frame::{build_arp_reply, build_arp_request, build_udp_packet};
use netbypass::addr::IPv4;
use netbypass::ring::{can_peek, rx_dequeue, rx_peek, tx_enqueue, tx_slot_acquire, tx_slot_commit, write_at};
use netbypass::stack::NetConfig;

const PEER_MAC: [u8; 6] = [2, 0, 0, 0, 0, 7];

fn header() -> NetBypassHeader {
    NetBypassHeader::initial(&NetConfig::initial())
}

fn pages() -> Vec<usize> {
    (0..17usize).map(|i| 0x80400 + i * 3).collect()
}

fn peer_ip() -> IPv4 {
    IPv4::new(10, 0, 2, 2)
}

fn fill(slot: &mut [u8], frame: &[u8]) {
    slot[2..2 + frame.len()].copy_from_slice(frame);
}

#[test]
fn header_describes_the_layout() {
    let h = header();
    assert_eq!((h.tx_head, h.tx_tail, h.rx_head, h.rx_tail), (0, 0, 0, 0));
    assert_eq!((h.ring_size, h.slot_size), (16, 2048));
    assert_eq!((h.tx_offset, h.rx_offset), (4096, 36864));
    assert_eq!(h.local_ip, [10, 0, 2, 15]);
    assert_eq!(h.local_mac, [0x52, 0x54, 0, 0x12, 0x34, 0x56]);
}

#[test]
fn addresses_of_the_region() {
    let bs = BypassState { frames: pages() };
    assert_eq!(bs.header(), 0x80400 * 4096);
    // Two slots per page.
    assert_eq!(bs.tx_slot(0), (0x80400 + 3) * 4096);
    assert_eq!(bs.tx_slot(1), (0x80400 + 3) * 4096 + 2048);
    assert_eq!(bs.tx_slot(15), (0x80400 + 8 * 3) * 4096 + 2048);
    assert_eq!(bs.rx_slot(0), (0x80400 + 9 * 3) * 4096);
    assert_eq!(bs.ptr_at(4097), (0x80400 + 3) * 4096 + 1);
    let ptrs = snapshot_ptrs(&Some(BypassState { frames: pages() })).unwrap();
    assert_eq!(ptrs.hdr, bs.header());
    for i in 0..16 {
        assert_eq!(ptrs.tx[i], bs.tx_slot(i));
        assert_eq!(ptrs.rx[i], bs.rx_slot(i));
    }
    assert!(snapshot_ptrs(&None).is_none());
}

#[test]
fn first_setup_allocates_and_maps() {
    let mut state = None;
    assert_eq!(frames_needed(&state), 17);
    let mut h = header();
    h.ring_size = 0;
    h.tx_head = 9;
    let plan = bypass_setup(&mut state, pages(), &NetConfig::initial(), &mut h, &vec![None; 17]);
    assert_eq!(plan.ret, 0x2000_0000);
    assert_eq!(plan.maps.len(), 17);
    for (i, m) in plan.maps.iter().enumerate() {
        assert_eq!((m.vaddr, m.ppn), (0x2000_0000 + i * 4096, 0x80400 + i * 3));
        let p = m.permission;
        assert_eq!((p.read, p.write, p.execute, p.user), (true, true, false, true));
    }
    assert_eq!((h.ring_size, h.tx_head), (16, 0));
    assert_eq!(frames_needed(&state), 0);
}

#[test]
fn repeated_setup_only_empties_the_rings() {
    let mut state = Some(BypassState { frames: pages() });
    let mut h = header();
    h.tx_head = 5;
    h.rx_tail = 3;
    h.slot_size = 7;
    let entries = pages().iter().map(|p| Some(PageEntry { valid: true, ppn: *p })).collect();
    let plan = bypass_setup(&mut state, Vec::new(), &NetConfig::initial(), &mut h, &entries);
    assert_eq!(plan.ret, 0x2000_0000);
    assert!(plan.maps.is_empty());
    assert_eq!((h.tx_head, h.rx_tail, h.slot_size), (0, 0, 7));
}

#[test]
fn conflicting_mapping_ends_the_setup() {
    let mut entries = vec![None; 17];
    entries[1] = Some(PageEntry { valid: false, ppn: 1 });
    entries[2] = Some(PageEntry { valid: true, ppn: 1 });
    let plan = plan_mappings(&pages(), &entries);
    assert_eq!(plan.ret, -1);
    assert_eq!(
        plan.maps,
        vec![PageMapping::new(0, 0x80400), PageMapping::new(1, 0x80403)]
    );
}

#[test]
fn region_needs_distinct_pages() {
    assert!(can_use_pages(&pages()));
    assert!(!can_use_pages(&pages()[..16].to_vec()));
    let mut twice = pages();
    twice[16] = twice[3];
    assert!(!can_use_pages(&twice));
    let mut high = pages();
    high[0] = usize::MAX / 4096;
    assert!(!can_use_pages(&high));
    high[0] = usize::MAX / 4096 - 1;
    assert!(can_use_pages(&high));
}

#[test]
fn flush_sends_pending_packets() {
    let mut h = header();
    let mut tx = vec![0u8; 16 * 2048];
    assert!(tx_enqueue(&mut h, &mut tx, 2048, 16, &[1, 2, 3, 4], 3));
    assert!(tx_enqueue(&mut h, &mut tx, 2048, 16, &[9; 300], 300));
    let mut run = TxRun::begin(&Some(h)).ok().unwrap();
    assert_eq!(run.pending_slot(), Some(0));
    assert_eq!(bypass_tx(&mut run, &tx[0..2048]), Some(&[1u8, 2, 3][..]));
    assert_eq!(run.pending_slot(), Some(1));
    assert_eq!(bypass_tx(&mut run, &tx[2048..4096]), Some(&[9u8; 300][..]));
    assert_eq!(&tx[2048..2050], &[44, 1]);
    assert_eq!(run.pending_slot(), None);
    assert_eq!(run.result(), 2);
    assert_eq!(run.tail, h.tx_head);
}

#[test]
fn flush_skips_unsendable_slots() {
    let mut run = TxRun { head: 2, tail: 0, sent: 0 };
    let empty = [0u8; 2048];
    assert_eq!(bypass_tx(&mut run, &empty), None);
    let mut large = [0u8; 2048];
    large[0] = 0xff;
    large[1] = 0x07;
    assert_eq!(bypass_tx(&mut run, &large), None);
    assert_eq!(run.result(), 2);
    large[0] = 0xfe;
    let mut run = TxRun { head: 1, tail: 0, sent: 0 };
    assert_eq!(bypass_tx(&mut run, &large), Some(&large[2..]));
}

#[test]
fn flush_wraps_around() {
    let mut run = TxRun { head: 1, tail: u32::MAX, sent: 0 };
    let slot = [0u8; 2048];
    assert_eq!(run.pending_slot(), Some(15));
    bypass_tx(&mut run, &slot);
    assert_eq!(run.pending_slot(), Some(0));
    bypass_tx(&mut run, &slot);
    assert_eq!(run.pending_slot(), None);
    assert_eq!(run.result(), 2);
}

#[test]
fn flush_sends_in_ring_order_and_only_once() {
    let mut h = header();
    h.tx_head = 14;
    h.tx_tail = 14;
    let mut tx = vec![0u8; 16 * 2048];
    for i in 0..4u8 {
        // The third slot holds nothing to send.
        let len = if i == 2 { 0 } else { 1 };
        assert!(tx_enqueue(&mut h, &mut tx, 2048, 16, &[i], len));
    }
    let mut sent = Vec::new();
    let mut run = TxRun::begin(&Some(h)).ok().unwrap();
    while let Some(i) = run.pending_slot() {
        if let Some(p) = bypass_tx(&mut run, &tx[i * 2048..(i + 1) * 2048]) {
            sent.push(p.to_vec());
        }
    }
    assert_eq!(sent, vec![vec![0], vec![1], vec![3]]);
    assert_eq!(run.result(), 4);
    h.tx_tail = run.tail;
    assert_eq!(TxRun::begin(&Some(h)).ok().unwrap().pending_slot(), None);
}

#[test]
fn slots_are_apart() {
    let p = snapshot_ptrs(&Some(BypassState { frames: pages() })).unwrap();
    let mut slots: Vec<usize> = p.tx.to_vec();
    slots.extend(p.rx);
    for i in 0..32 {
        assert!(slots[i] + 2048 <= p.hdr || p.hdr + 4096 <= slots[i]);
        assert_eq!(slots[i] / 4096, (slots[i] + 2047) / 4096);
        for j in 0..i {
            assert!(slots[i] + 2048 <= slots[j] || slots[j] + 2048 <= slots[i]);
        }
    }
    let q = snapshot_ptrs(&Some(BypassState { frames: pages() })).unwrap();
    assert_eq!((p.hdr, p.tx, p.rx), (q.hdr, q.tx, q.rx));
}

#[test]
fn receive_ends_at_the_first_other_frame() {
    let config = NetConfig::initial();
    let run = RxRun { head: 7 };
    let ours = build_arp_request(&MacAddress::new(PEER_MAC), &peer_ip(), &config.ip);
    let other = build_arp_request(&MacAddress::new(PEER_MAC), &peer_ip(), &IPv4::new(9, 9, 9, 9));
    let frames = vec![ours.clone(), vec![], other, ours, vec![1, 2, 3]];
    let mut slot = [0u8; 2048];
    let mut replies = 0;
    let mut taken = 0;
    for f in &frames {
        fill(&mut slot, f);
        taken += 1;
        match bypass_rx(&config, &run, &mut slot, f.len()) {
            RxStep::Wait => {}
            RxStep::Reply(_) => replies += 1,
            RxStep::Done { head, ret } => {
                assert_eq!((head, ret), (8, 3));
                break;
            }
        }
    }
    assert_eq!((replies, taken), (2, 5));
    assert_eq!(&slot[..5], &[3, 0, 1, 2, 3]);
}

#[test]
fn packet_must_lie_in_the_ring() {
    let mut h = header();
    h.rx_tail = 31;
    let mut rx = vec![0u8; 16 * 2048];
    rx[15 * 2048] = 0xfe;
    rx[15 * 2048 + 1] = 0x07;
    assert!(can_peek(&h, &rx, 2048, 16));
    assert_eq!(rx_peek(&h, &rx, 2048, 16).len(), 2046);
    rx[15 * 2048] = 0xff;
    assert!(!can_peek(&h, &rx, 2048, 16));
    assert!(!can_peek(&h, &rx, usize::MAX, 16));
    assert!(!can_peek(&h, &rx, 2048, 0));
    assert!(!can_peek(&h, &rx[..15 * 2048 + 1], 2048, 16));
    assert!(!can_peek(&h, &[], 0, 16));
}

#[test]
fn rings_need_a_setup() {
    assert_eq!(TxRun::begin(&None).err(), Some(-1));
    assert_eq!(RxRun::begin(&None).err(), Some(-1));
}

#[test]
fn receive_needs_room() {
    let mut h = header();
    h.rx_head = 15;
    assert!(RxRun::begin(&Some(h)).is_ok());
    h.rx_head = 16;
    assert_eq!(RxRun::begin(&Some(h)).err(), Some(-2));
    rx_dequeue(&mut h);
    assert_eq!(RxRun::begin(&Some(h)).ok().unwrap().slot(), 0);
}

#[test]
fn received_packet_reaches_the_user() {
    let config = NetConfig::initial();
    let mut h = header();
    h.rx_head = 17;
    h.rx_tail = 17;
    let mut rx = vec![0u8; 16 * 2048];
    let f = build_udp_packet(
        &MacAddress::new(PEER_MAC),
        &config.mac,
        &peer_ip(),
        &config.ip,
        1,
        2,
        &[7; 300],
    );
    let run = RxRun::begin(&Some(h)).ok().unwrap();
    assert_eq!(run.slot(), 1);
    fill(&mut rx[2048..4096], &f);
    match bypass_rx(&config, &run, &mut rx[2048..4096], f.len()) {
        RxStep::Done { head, ret } => {
            assert_eq!((head, ret), (18, 342));
            h.rx_head = head;
        }
        _ => panic!("not received"),
    }
    assert_eq!(rx_peek(&h, &rx, 2048, 16), &f[..]);
    rx_dequeue(&mut h);
    assert_eq!(h.rx_tail, h.rx_head);
}

#[test]
fn receive_answers_arp_and_waits_on() {
    let config = NetConfig::initial();
    let run = RxRun { head: 0 };
    let mut slot = [0u8; 2048];
    let request = build_arp_request(&MacAddress::new(PEER_MAC), &peer_ip(), &config.ip);
    fill(&mut slot, &request);
    match bypass_rx(&config, &run, &mut slot, 42) {
        RxStep::Reply(r) => assert_eq!(
            r,
            build_arp_reply(&config.mac, &config.ip, &MacAddress::new(PEER_MAC), &peer_ip())
        ),
        _ => panic!("not answered"),
    }
    // A request for someone else, a reply, a cut-off ARP frame, no frame.
    let other = build_arp_request(&MacAddress::new(PEER_MAC), &peer_ip(), &IPv4::new(9, 9, 9, 9));
    fill(&mut slot, &other);
    assert!(matches!(bypass_rx(&config, &run, &mut slot, 42), RxStep::Wait));
    let reply =
        build_arp_reply(&MacAddress::new(PEER_MAC), &peer_ip(), &config.mac, &config.ip);
    fill(&mut slot, &reply);
    assert!(matches!(bypass_rx(&config, &run, &mut slot, 42), RxStep::Wait));
    assert!(matches!(bypass_rx(&config, &run, &mut slot, 20), RxStep::Wait));
    assert!(matches!(bypass_rx(&config, &run, &mut slot, 0), RxStep::Wait));
    assert_eq!(&slot[0..2], &[0, 0]);
    // A frame too short for an EtherType is handed on.
    assert!(matches!(
        bypass_rx(&config, &run, &mut slot, 13),
        RxStep::Done { head: 1, ret: 13 }
    ));
}

#[test]
fn slots_are_acquired_and_committed() {
    let mut h = header();
    h.tx_head = 18;
    h.tx_tail = 10;
    let (at, pos) = tx_slot_acquire(&h, 0x2000_0000, 4096, 2048, 16).unwrap();
    assert_eq!((at, pos), (0x2000_0000 + 4096 + 2 * 2048, 18));
    let mut slot = [0u8; 64];
    write_at(&mut slot, 2, &[5, 6, 7]);
    tx_slot_commit(&mut h, &mut slot, 0x1234, pos);
    assert_eq!(&slot[0..6], &[0x34, 0x12, 5, 6, 7, 0]);
    assert_eq!(h.tx_head, 19);
    h.tx_head = 26;
    assert!(tx_slot_acquire(&h, 0, 0, 2048, 16).is_none());
}

#[test]
fn full_ring_takes_no_frame() {
    let mut h = header();
    let mut tx = vec![0u8; 16 * 2048];
    for _ in 0..16 {
        assert!(tx_enqueue(&mut h, &mut tx, 2048, 16, &[1], 1));
    }
    let before = tx.clone();
    assert!(!tx_enqueue(&mut h, &mut tx, 2048, 16, &[2], 1));
    assert_eq!(tx, before);
    assert_eq!(h.tx_head, 16);
}
