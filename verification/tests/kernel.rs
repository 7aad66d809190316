use netbypass::hexdump::hexdump;
use netbypass::p9::{build_tversion_request, parse_rversion_response};
use netbypass::syscall::{can_read, can_write, sys_read, sys_write, try_getchar, ReadConsole};
use netbypass::trap::TrapContext;
use netbypass::virtio::{virt_to_phys, HalImpl};

#[test]
fn new_context_returns_to_user_mode() {
    let mut cx = TrapContext::app_init_context(0x8040_0000, 0x8050_0000, 0x6122);
    assert_eq!(cx.sepc, 0x8040_0000);
    assert_eq!(cx.sstatus, 0x6022);
    assert_eq!(cx.x[2], 0x8050_0000);
    assert!(cx.x.iter().enumerate().all(|(i, v)| i == 2 || *v == 0));
    assert_eq!(cx.f, [0; 32]);
    assert_eq!(cx.fcsr, 0);
    cx.set_sp(7);
    assert_eq!((cx.x[1], cx.x[2], cx.x[3]), (0, 7, 0));
    assert_eq!(TrapContext::app_init_context(0, 0, 0x6022).sstatus, 0x6022);
}

#[test]
fn console_writes() {
    assert!(can_write(1));
    assert!(!can_write(0) && !can_write(2));
    let (text, ret) = sys_write(1, &vec![b"he".to_vec(), b"llo".to_vec()], 5);
    assert_eq!(text, b"hello".to_vec());
    assert_eq!(ret, 5);
}

#[test]
fn console_reads() {
    assert!(can_read(0, 1));
    assert!(!can_read(1, 1) && !can_read(0, 2));
    assert!(try_getchar(0x61));
    assert!(!try_getchar(0x60));
    let mut buf = [1u8, 2];
    assert_eq!(sys_read(0, 1, None, &mut buf), ReadConsole::Suspend);
    assert_eq!(buf, [1, 2]);
    assert_eq!(sys_read(0, 1, Some(b'x'), &mut buf), ReadConsole::Done(1));
    assert_eq!(buf, [b'x', 2]);
}

#[test]
fn dma_memory_is_handed_out_in_order() {
    let mut hal = HalImpl::new(0x8000_0000);
    assert_eq!(hal.dma_alloc(2), 0x8000_0000);
    assert_eq!(hal.dma_alloc(1), 0x8000_2000);
    assert_eq!(hal.dma_dealloc(0x8000_0000, 2), 0);
    assert_eq!(hal.dma_alloc(0), 0x8000_3000);
    assert_eq!(hal.dma_alloc(1), 0x8000_3000);
    assert_eq!(virt_to_phys(0x1234), 0x1234);
    assert_eq!(HalImpl::share(0x1234), 0x1234);
    let mut last = HalImpl::new(u64::MAX - 4095);
    assert_eq!(last.dma_alloc(1), u64::MAX - 4095);
    assert_eq!(last.next, 0);
}

fn text(line: &[u8]) -> String {
    String::from_utf8(line.to_vec()).unwrap()
}

#[test]
fn hexdump_lines() {
    let lines = hexdump(b"GET / HTTP/1.0\r\n\x00~");
    assert_eq!(lines.len(), 4);
    assert_eq!(text(&lines[0]), format!("[kernel] {:-^1$}", " hexdump ", 70));
    assert_eq!(
        text(&lines[1]),
        "[kernel] 47 45 54 20 2f 20 48 54 54 50 2f 31 2e 30 0d 0a       GET / HTTP/1.0.."
    );
    let blanks = format!("{:02} ", "").repeat(14);
    assert_eq!(text(&lines[2]), format!("[kernel] 00 7e {}{:>6}.~{}", blanks, ' ', blanks));
    assert_eq!(text(&lines[3]), format!("[kernel] {:-^1$}", " hexdump end ", 70));
    assert_eq!(hexdump(&[]).len(), 2);
    assert_eq!(hexdump(&[0; 16]).len(), 3);
    assert_eq!(hexdump(&[0; 17]).len(), 4);
}

#[test]
fn version_request() {
    let mut buf = [0xEEu8; 32];
    assert_eq!(build_tversion_request(&mut buf, 16384, "9P2000.L"), Some(21));
    assert_eq!(
        &buf[..22],
        b"\x15\x00\x00\x00\x64\xff\xff\x00\x40\x00\x00\x08\x009P2000.L\xEE"
    );
    let mut small = [0u8; 20];
    assert_eq!(build_tversion_request(&mut small, 16384, "9P2000.L"), None);
    assert_eq!(small, [0; 20]);
    let mut large = vec![0u8; 70_000];
    let long = "x".repeat(65_536);
    assert_eq!(build_tversion_request(&mut large, 1, &long), None);
    assert_eq!(build_tversion_request(&mut large, 1, &long[1..]), Some(65_548));
}

#[test]
fn version_response() {
    let mut resp = [0u8; 32];
    build_tversion_request(&mut resp, 8192, "9P2000.L");
    // A request is not a response.
    assert_eq!(parse_rversion_response(&resp), None);
    resp[4] = 101;
    assert_eq!(parse_rversion_response(&resp), Some((8192, b"9P2000.L".to_vec())));
    assert_eq!(parse_rversion_response(&resp[..21]), Some((8192, b"9P2000.L".to_vec())));
    assert_eq!(parse_rversion_response(&resp[..20]), None);
    assert_eq!(parse_rversion_response(&resp[..6]), None);
    let mut bad = resp;
    bad[5] = 0;
    assert_eq!(parse_rversion_response(&bad), None);
    let mut bad = resp;
    bad[0] = 12;
    assert_eq!(parse_rversion_response(&bad), None);
    let mut bad = resp;
    bad[11] = 9;
    assert_eq!(parse_rversion_response(&bad), None);
    // The version string must be UTF-8.
    let mut bad = resp;
    bad[13] = 0xff;
    assert_eq!(parse_rversion_response(&bad), None);
}
