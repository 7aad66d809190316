use netbypass::bypass::{bypass_tx, TxRun};
use netbypass::e1000::{reset, wait_for_descriptor, E1000Device, E1000RxDesc, E1000TxDesc, RegOp, TxWait};
use netbypass::nic::{bar0_assigned, bar0_base, bar0_unassigned, E1000_DEVICE, E1000_MMIO_BASE, E1000_VENDOR};
use netbypass::pci::{ecam_addr, pci_enable_device, pci_find_device, PciDeviceInfo, PciScan, ScanStep};

fn frames() -> Vec<u64> {
    (0..66u64).map(|i| 0x1_8000_0000 + i * 4096).collect()
}

fn device() -> (E1000Device, Vec<E1000RxDesc>, Vec<E1000TxDesc>) {
    let mut dev = E1000Device::new(0x4000_0000, &frames());
    let mut rx = vec![E1000RxDesc::zeroed(); 32];
    let mut tx = vec![E1000TxDesc::zeroed(); 32];
    dev.init_hw(0x1234_5452, 0x8000_9a78, &mut rx, &mut tx);
    (dev, rx, tx)
}

#[test]
fn reset_sequence() {
    let ops = reset(0x41);
    assert_eq!(ops.len(), 133);
    assert_eq!(ops[0], RegOp::Write(0, 0x0400_0041));
    assert_eq!(ops[1], RegOp::Spin(100_000));
    assert_eq!(ops[2], RegOp::Write(0, 0x60));
    assert_eq!(ops[3], RegOp::Write(0xD8, 0xFFFF_FFFF));
    assert_eq!(ops[4], RegOp::Read(0xC0));
    assert_eq!(ops[5], RegOp::Write(0x5200, 0));
    assert_eq!(ops[132], RegOp::Write(0x53FC, 0));
}

#[test]
fn device_initialization() {
    let mut dev = E1000Device::new(0x4000_0000, &frames());
    assert_eq!(dev.mac, [0; 6]);
    assert_eq!((dev.tx_ring, dev.rx_ring), (0x1_8000_0000, 0x1_8000_1000));
    assert_eq!((dev.tx_bufs[0], dev.tx_bufs[31]), (0x1_8000_2000, 0x1_8002_1000));
    assert_eq!((dev.rx_bufs[0], dev.rx_bufs[31]), (0x1_8002_2000, 0x1_8004_1000));
    dev.tx_tail = 4;
    dev.rx_tail = 5;
    let mut rx = vec![E1000RxDesc::zeroed(); 32];
    let mut tx = vec![E1000TxDesc::zeroed(); 32];
    rx[3].status = 1;
    tx[3].length = 7;
    let ops = dev.init_hw(0x1234_5452, 0x8000_9a78, &mut rx, &mut tx);
    assert_eq!(dev.mac, [0x52, 0x54, 0x34, 0x12, 0x78, 0x9a]);
    assert_eq!((dev.tx_tail, dev.rx_tail), (0, 0));
    assert_eq!(
        ops,
        vec![
            RegOp::Write(0x2800, 0x8000_1000),
            RegOp::Write(0x2804, 1),
            RegOp::Write(0x2808, 512),
            RegOp::Write(0x2810, 0),
            RegOp::Write(0x2818, 31),
            RegOp::Write(0x0100, 0x0400_8002),
            RegOp::Write(0x3800, 0x8000_0000),
            RegOp::Write(0x3804, 1),
            RegOp::Write(0x3808, 512),
            RegOp::Write(0x3810, 0),
            RegOp::Write(0x3818, 0),
            RegOp::Write(0x0400, 0x0004_010A),
        ]
    );
    for i in 0..32 {
        let mut t = E1000TxDesc::zeroed();
        t.buffer_addr = dev.tx_bufs[i];
        t.status = 1;
        assert_eq!(tx[i], t);
        let mut r = E1000RxDesc::zeroed();
        r.buffer_addr = dev.rx_bufs[i];
        assert_eq!(rx[i], r);
    }
}

#[test]
fn transmit_copies_and_advances() {
    let (mut dev, _, mut tx) = device();
    let mut buf = vec![0xEEu8; 4096];
    let op = dev.transmit(&mut tx, &mut buf, &[1, 2, 3]);
    assert_eq!(op, RegOp::Write(0x3818, 1));
    assert_eq!(&buf[..4], &[1, 2, 3, 0xEE]);
    assert_eq!((tx[0].length, tx[0].cmd, tx[0].status), (3, 0x0B, 0));
    assert_eq!(tx[0].buffer_addr, dev.tx_bufs[0]);
    // A frame larger than the buffer is cut off.
    dev.tx_tail = 31;
    let op = dev.transmit(&mut tx, &mut buf, &[7; 3000]);
    assert_eq!(op, RegOp::Write(0x3818, 0));
    assert_eq!(tx[31].length, 2048);
    assert_eq!(&buf[2046..2050], &[7, 7, 0xEE, 0xEE]);
    assert_eq!(dev.tx_tail, 0);
}

#[test]
fn zero_copy_transmit() {
    let (mut dev, _, mut tx) = device();
    let op = dev.transmit_pa(&mut tx, 0x2_0000_0002, 60);
    assert_eq!(op, RegOp::Write(0x3818, 1));
    assert_eq!((tx[0].buffer_addr, tx[0].length), (0x2_0000_0002, 60));
    assert_eq!((tx[0].cmd, tx[0].status), (0x0B, 0));
}

#[test]
fn zero_copy_descriptor_names_the_slot_packet() {
    let (mut dev, _, mut tx) = device();
    let mut slot = vec![0u8; 2048];
    slot[0] = 4;
    slot[2..6].copy_from_slice(&[1, 2, 3, 4]);
    let mut run = TxRun { head: 1, tail: 0, sent: 0 };
    let packet = bypass_tx(&mut run, &slot).unwrap();
    let addr = 0x8040_0000u64;
    dev.transmit_pa(&mut tx, addr + 2, packet.len() as u16);
    let at = (tx[0].buffer_addr - addr) as usize;
    assert_eq!(&slot[at..at + tx[0].length as usize], packet);
}

#[test]
fn transmit_after_zero_copy_sends_the_copy() {
    let (mut dev, _, mut tx) = device();
    dev.transmit_pa(&mut tx, 0x9000, 60);
    tx[0].status = 1;
    dev.tx_tail = 0;
    let mut buf = vec![0u8; 2048];
    dev.transmit(&mut tx, &mut buf, &[1, 2, 3]);
    assert_eq!((tx[0].buffer_addr, tx[0].length), (dev.tx_bufs[0], 3));
}

#[test]
fn busy_descriptor_times_out() {
    let mut tries = 0;
    assert_eq!(wait_for_descriptor(1, &mut tries), TxWait::Ready);
    assert_eq!(tries, 0);
    assert_eq!(wait_for_descriptor(0xFE, &mut tries), TxWait::Again);
    assert_eq!(tries, 1);
    tries = 999_999;
    assert_eq!(wait_for_descriptor(0, &mut tries), TxWait::Again);
    assert_eq!(wait_for_descriptor(0, &mut tries), TxWait::TimedOut);
}

#[test]
fn receive_copies_and_returns_the_descriptor() {
    let (mut dev, mut rx, _) = device();
    let src = [5u8; 100];
    let mut buf = [0u8; 10];
    assert_eq!(dev.receive(&mut rx, &src, &mut buf), (0, None));
    assert_eq!(dev.rx_tail, 0);
    rx[0].status = 0x03;
    rx[0].length = 4;
    assert_eq!(
        dev.receive(&mut rx, &src, &mut buf),
        (4, Some(RegOp::Write(0x2818, 0)))
    );
    assert_eq!(buf, [5, 5, 5, 5, 0, 0, 0, 0, 0, 0]);
    assert_eq!((rx[0].status, rx[0].length), (0, 0));
    assert_eq!(dev.rx_tail, 1);
    // A packet larger than the buffer is cut off.
    dev.rx_tail = 31;
    rx[31].status = 1;
    rx[31].length = 60;
    assert_eq!(
        dev.receive(&mut rx, &src, &mut buf),
        (10, Some(RegOp::Write(0x2818, 31)))
    );
    assert_eq!(dev.rx_tail, 0);
}

#[test]
fn configuration_addresses() {
    assert_eq!(ecam_addr(0, 0, 0, 0), 0x3000_0000);
    assert_eq!(ecam_addr(1, 2, 3, 0x10), 0x3011_3010);
    assert_eq!(ecam_addr(255, 31, 7, 0xFFC), 0x3FFF_FFFC);
    assert_eq!(ecam_addr(0, 1, 0, 0x1004), 0x3000_8004);
    assert_eq!(ecam_addr(1, 32, 0, 0), 0x3010_0000);
}

fn scan(ids: &[u32; 32], bars: &[u32; 32]) -> Option<PciDeviceInfo> {
    let mut scan = PciScan::new(E1000_VENDOR, E1000_DEVICE);
    let mut value = ids[0];
    loop {
        match pci_find_device(&mut scan, value) {
            ScanStep::Read { dev, offset: 0x10 } => value = bars[dev as usize],
            ScanStep::Read { dev, .. } => value = ids[dev as usize],
            ScanStep::Found(info) => return Some(info),
            ScanStep::Missing => return None,
        }
    }
}

#[test]
fn scan_finds_the_first_match() {
    let mut ids = [0xFFFF_FFFFu32; 32];
    let mut bars = [0u32; 32];
    assert_eq!(scan(&ids, &bars), None);
    ids[1] = 0x0008_1b36;
    ids[2] = 0x100E_8086;
    ids[5] = 0x100E_8086;
    bars[2] = 0x4000_0008;
    bars[5] = 0x5000_0000;
    let info = scan(&ids, &bars).unwrap();
    assert_eq!((info.bus, info.dev, info.func), (0, 2, 0));
    assert_eq!((info.vendor_id, info.device_id, info.bar0), (0x8086, 0x100E, 0x4000_0008));
    let mut last = [0xFFFF_FFFFu32; 32];
    last[31] = 0x100E_8086;
    assert_eq!(scan(&last, &bars).unwrap().dev, 31);
}

#[test]
fn enabling_sets_two_bits() {
    let w = pci_enable_device(0, 2, 0, 0x0101, 0x0010);
    assert_eq!((w.bus, w.dev, w.func, w.offset, w.val), (0, 2, 0, 4, 0x0010_0107));
    assert_eq!(pci_enable_device(0, 0, 0, 0x0006, 0xFFFF).val, 0xFFFF_0006);
}

#[test]
fn bar_is_assigned_where_firmware_did_not() {
    let mut info = PciDeviceInfo {
        bus: 0,
        dev: 2,
        func: 0,
        vendor_id: E1000_VENDOR,
        device_id: E1000_DEVICE,
        bar0: 0x8,
    };
    assert!(bar0_unassigned(&info));
    info.bar0 = 0x10;
    assert!(!bar0_unassigned(&info));
    assert!(bar0_assigned(0x10) && !bar0_assigned(0xF));
    assert_eq!(bar0_base(0x4000_000C), 0x4000_0000);
    assert_eq!(bar0_base(E1000_MMIO_BASE), 0x4000_0000);
}
