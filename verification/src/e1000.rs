//! Intel e1000 (82540EM) NIC: descriptor rings and register programming.
//!
//! The device is driven through legacy transmit and receive descriptor rings
//! and polled. Register accesses are returned as [`RegOp`]s, which the caller
//! performs in order.

use vstd::prelude::*;

use crate::bypass;
use crate::parse;
use crate::ring;

verus! {

// Register offsets (from BAR0).
pub const E1000_CTRL: usize = 0x0000;
pub const E1000_STATUS: usize = 0x0008;
pub const E1000_ICR: usize = 0x00C0;
pub const E1000_IMC: usize = 0x00D8;
pub const E1000_RCTL: usize = 0x0100;
pub const E1000_TCTL: usize = 0x0400;
pub const E1000_RDBAL: usize = 0x2800;
pub const E1000_RDBAH: usize = 0x2804;
pub const E1000_RDLEN: usize = 0x2808;
pub const E1000_RDH: usize = 0x2810;
pub const E1000_RDT: usize = 0x2818;
pub const E1000_TDBAL: usize = 0x3800;
pub const E1000_TDBAH: usize = 0x3804;
pub const E1000_TDLEN: usize = 0x3808;
pub const E1000_TDH: usize = 0x3810;
pub const E1000_TDT: usize = 0x3818;
pub const E1000_MTA: usize = 0x5200;
pub const E1000_RAL0: usize = 0x5400;
pub const E1000_RAH0: usize = 0x5404;

/// CTRL: device reset, bit 26.
pub const CTRL_RST: u32 = 0x0400_0000;

/// CTRL: set link up, bit 6.
pub const CTRL_SLU: u32 = 0x40;

/// CTRL: automatic speed detection, bit 5.
pub const CTRL_ASDE: u32 = 0x20;

/// RCTL: receiver enable, bit 1.
pub const RCTL_EN: u32 = 0x2;

/// RCTL: accept broadcasts, bit 15.
pub const RCTL_BAM: u32 = 0x8000;

/// RCTL: strip the Ethernet CRC, bit 26. Buffers of 2048 bytes are the default.
pub const RCTL_SECRC: u32 = 0x0400_0000;

/// TCTL: transmitter enable, bit 1.
pub const TCTL_EN: u32 = 0x2;

/// TCTL: pad short packets, bit 3.
pub const TCTL_PSP: u32 = 0x8;

/// TCTL: collision threshold 0x10, from bit 4 on.
pub const TCTL_CT: u32 = 0x100;

/// TCTL: collision distance 0x40, from bit 12 on.
pub const TCTL_COLD: u32 = 0x4_0000;

/// TX descriptor command: end of packet, insert the CRC, report status.
pub const TDESC_CMD: u8 = 0x0B;

/// Descriptor status: done, bit 0.
pub const DESC_STA_DD: u8 = 1;

pub const NUM_RX_DESC: usize = 32;

pub const NUM_TX_DESC: usize = 32;

pub const BUF_SIZE: usize = 2048;

/// Bytes per descriptor.
pub const DESC_SIZE: u32 = 16;

/// Page frames that a device needs: two rings and a buffer per descriptor.
pub const NUM_FRAMES: usize = 66;

/// Iterations to wait after a reset.
pub const RESET_SPINS: u32 = 100_000;

/// How often a busy descriptor is looked at again before giving up.
pub const TX_TRIES: u32 = 1_000_000;

/// Words of the multicast table.
pub const MTA_WORDS: usize = 128;

/// An access to the device.
#[derive(Debug, Clone, Copy, PartialEq, Eq, Structural)]
pub enum RegOp {
    /// Read the register at this offset and drop the value.
    Read(usize),
    /// Write a value to the register at this offset.
    Write(usize, u32),
    /// Spin for this many iterations.
    Spin(u32),
}

/// Legacy TX descriptor (16 bytes).
#[derive(Debug, Clone, Copy, PartialEq, Eq, Structural)]
pub struct E1000TxDesc {
    pub buffer_addr: u64,
    pub length: u16,
    pub cso: u8,
    pub cmd: u8,
    pub status: u8,
    pub css: u8,
    pub special: u16,
}

impl E1000TxDesc {
    /// The descriptor of all zeros.
    pub fn zeroed() -> (r: E1000TxDesc)
        ensures
            r == (E1000TxDesc {
                buffer_addr: 0,
                length: 0,
                cso: 0,
                cmd: 0,
                status: 0,
                css: 0,
                special: 0,
            }),
    {
        E1000TxDesc { buffer_addr: 0, length: 0, cso: 0, cmd: 0, status: 0, css: 0, special: 0 }
    }

    /// An available descriptor of the buffer at `addr`.
    pub open spec fn available(addr: u64) -> E1000TxDesc {
        E1000TxDesc {
            buffer_addr: addr,
            length: 0,
            cso: 0,
            cmd: 0,
            status: DESC_STA_DD,
            css: 0,
            special: 0,
        }
    }

    /// The descriptor once it was handed to the device to send `length` bytes
    /// at `addr`.
    pub open spec fn submitted(self, addr: u64, length: u16) -> E1000TxDesc {
        E1000TxDesc { buffer_addr: addr, length, cmd: TDESC_CMD, status: 0, ..self }
    }
}

/// Legacy RX descriptor (16 bytes).
#[derive(Debug, Clone, Copy, PartialEq, Eq, Structural)]
pub struct E1000RxDesc {
    pub buffer_addr: u64,
    pub length: u16,
    pub checksum: u16,
    pub status: u8,
    pub errors: u8,
    pub special: u16,
}

impl E1000RxDesc {
    /// The descriptor of all zeros.
    pub fn zeroed() -> (r: E1000RxDesc)
        ensures
            r == (E1000RxDesc {
                buffer_addr: 0,
                length: 0,
                checksum: 0,
                status: 0,
                errors: 0,
                special: 0,
            }),
    {
        E1000RxDesc { buffer_addr: 0, length: 0, checksum: 0, status: 0, errors: 0, special: 0 }
    }

    /// An empty descriptor of the buffer at `addr`.
    pub open spec fn empty(addr: u64) -> E1000RxDesc {
        E1000RxDesc { buffer_addr: addr, length: 0, checksum: 0, status: 0, errors: 0, special: 0 }
    }

    /// The descriptor once it was returned to the device.
    pub open spec fn returned(self) -> E1000RxDesc {
        E1000RxDesc { length: 0, status: 0, ..self }
    }
}

/// Whether a descriptor status says that the device is done with it.
pub open spec fn done(status: u8) -> bool {
    status % 2 == 1
}

/// The device state.
pub struct E1000Device {
    /// MMIO base address.
    pub base: usize,
    /// Physical address of the TX descriptor ring.
    pub tx_ring: u64,
    /// Physical address of the RX descriptor ring.
    pub rx_ring: u64,
    /// Physical addresses of the TX buffers.
    pub tx_bufs: [u64; 32],
    /// Physical addresses of the RX buffers.
    pub rx_bufs: [u64; 32],
    /// The TX descriptor to use next.
    pub tx_tail: usize,
    /// The RX descriptor to look at next.
    pub rx_tail: usize,
    pub mac: [u8; 6],
}

/// The station address that the receive address registers hold.
pub open spec fn mac_of(ral: u32, rah: u32) -> Seq<u8> {
    seq![
        (ral % 256) as u8,
        (ral / 256 % 256) as u8,
        (ral / 0x1_0000 % 256) as u8,
        (ral / 0x100_0000) as u8,
        (rah % 256) as u8,
        (rah / 256 % 256) as u8,
    ]
}

/// Clearing the first `n` words of the multicast table.
pub open spec fn clear_multicast(n: nat) -> Seq<RegOp> {
    Seq::new(n, |i: int| RegOp::Write((E1000_MTA + i * 4) as usize, 0))
}

/// Reset, link up, no interrupts, no multicast; `ctrl` is what the control
/// register held before.
pub open spec fn reset_sequence(ctrl: u32) -> Seq<RegOp> {
    seq![
        RegOp::Write(E1000_CTRL, ctrl | CTRL_RST),
        RegOp::Spin(RESET_SPINS),
        RegOp::Write(E1000_CTRL, CTRL_SLU | CTRL_ASDE),
        RegOp::Write(E1000_IMC, 0xFFFF_FFFF),
        RegOp::Read(E1000_ICR),
    ] + clear_multicast(MTA_WORDS as nat)
}

/// Programming the receiver: the ring, all descriptors but the last given to
/// the device, and the receiver enabled.
pub open spec fn rx_sequence(ring_pa: u64) -> Seq<RegOp> {
    seq![
        RegOp::Write(E1000_RDBAL, (ring_pa % 0x1_0000_0000) as u32),
        RegOp::Write(E1000_RDBAH, (ring_pa / 0x1_0000_0000) as u32),
        RegOp::Write(E1000_RDLEN, 512),
        RegOp::Write(E1000_RDH, 0),
        RegOp::Write(E1000_RDT, 31),
        RegOp::Write(E1000_RCTL, RCTL_EN | RCTL_BAM | RCTL_SECRC),
    ]
}

/// Programming the transmitter: the ring, empty, and the transmitter enabled.
pub open spec fn tx_sequence(ring_pa: u64) -> Seq<RegOp> {
    seq![
        RegOp::Write(E1000_TDBAL, (ring_pa % 0x1_0000_0000) as u32),
        RegOp::Write(E1000_TDBAH, (ring_pa / 0x1_0000_0000) as u32),
        RegOp::Write(E1000_TDLEN, 512),
        RegOp::Write(E1000_TDH, 0),
        RegOp::Write(E1000_TDT, 0),
        RegOp::Write(E1000_TCTL, TCTL_EN | TCTL_PSP | TCTL_CT | TCTL_COLD),
    ]
}

/// The accesses that reset the device.
pub fn reset(ctrl: u32) -> (r: Vec<RegOp>)
    ensures
        r@ == reset_sequence(ctrl),
{
    let mut r: Vec<RegOp> = Vec::new();
    r.push(RegOp::Write(E1000_CTRL, ctrl | CTRL_RST));
    r.push(RegOp::Spin(RESET_SPINS));
    r.push(RegOp::Write(E1000_CTRL, CTRL_SLU | CTRL_ASDE));
    r.push(RegOp::Write(E1000_IMC, 0xFFFF_FFFF));
    r.push(RegOp::Read(E1000_ICR));
    let ghost start = r@;
    let mut i: usize = 0;
    while i < MTA_WORDS
        invariant
            i <= MTA_WORDS,
            r@ == start + clear_multicast(i as nat),
        decreases MTA_WORDS - i,
    {
        r.push(RegOp::Write(E1000_MTA + i * 4, 0));
        i = i + 1;
        assert(r@ =~= start + clear_multicast(i as nat));
    }
    assert(r@ =~= reset_sequence(ctrl));
    r
}

/// What to do about a TX descriptor.
#[derive(Debug, Clone, Copy, PartialEq, Eq, Structural)]
pub enum TxWait {
    /// The descriptor is available.
    Ready,
    /// Spin, and look again.
    Again,
    /// The device does not come back: give up.
    TimedOut,
}

/// Looks at the status of the descriptor to use next, and counts the looks that
/// found it busy.
pub fn wait_for_descriptor(status: u8, tries: &mut u32) -> (r: TxWait)
    requires
        *old(tries) <= TX_TRIES,
    ensures
        done(status) ==> r is Ready && *final(tries) == *old(tries),
        !done(status) ==> *final(tries) == *old(tries) + 1,
        !done(status) ==> r == if *final(tries) > TX_TRIES {
            TxWait::TimedOut
        } else {
            TxWait::Again
        },
        r is Ready <==> status % 2 == 1,
        r is TimedOut <==> status % 2 == 0 && *old(tries) >= 1_000_000,
{
    if status % 2 == 1 {
        return TxWait::Ready;
    }
    *tries = *tries + 1;
    if *tries > TX_TRIES {
        TxWait::TimedOut
    } else {
        TxWait::Again
    }
}

impl E1000Device {
    /// The tails are places in the rings.
    pub open spec fn well_formed(self) -> bool {
        self.tx_tail < NUM_TX_DESC && self.rx_tail < NUM_RX_DESC
    }

    /// The device whose registers are at `base` and whose rings and buffers
    /// live in the page frames at the addresses `frames`: the TX ring, the RX
    /// ring, the TX buffers and the RX buffers. It has no station address
    /// before it is initialized.
    pub fn new(base: usize, frames: &Vec<u64>) -> (r: E1000Device)
        requires
            frames@.len() == NUM_FRAMES,
        ensures
            r.base == base,
            r.tx_ring == frames@[0],
            r.rx_ring == frames@[1],
            r.tx_bufs@ == frames@.subrange(2, 34),
            r.rx_bufs@ == frames@.subrange(34, 66),
            r.tx_tail == 0,
            r.rx_tail == 0,
            r.mac@ == seq![0u8, 0, 0, 0, 0, 0],
            r.well_formed(),
    {
        let mut tx_bufs = [0u64; 32];
        let mut rx_bufs = [0u64; 32];
        let mut i: usize = 0;
        while i < NUM_TX_DESC
            invariant
                i <= NUM_TX_DESC,
                frames@.len() == NUM_FRAMES,
                forall|j: int| 0 <= j < i ==> tx_bufs@[j] == frames@[2 + j],
                forall|j: int| 0 <= j < i ==> rx_bufs@[j] == frames@[34 + j],
            decreases NUM_TX_DESC - i,
        {
            tx_bufs[i] = frames[2 + i];
            rx_bufs[i] = frames[2 + NUM_TX_DESC + i];
            i = i + 1;
        }
        let r = E1000Device {
            base,
            tx_ring: frames[0],
            rx_ring: frames[1],
            tx_bufs,
            rx_bufs,
            tx_tail: 0,
            rx_tail: 0,
            mac: [0, 0, 0, 0, 0, 0],
        };
        assert(r.tx_bufs@ =~= frames@.subrange(2, 34));
        assert(r.rx_bufs@ =~= frames@.subrange(34, 66));
        assert(r.mac@ =~= seq![0u8, 0, 0, 0, 0, 0]);
        r
    }

    /// Initializes the device after its reset, given what its receive address
    /// registers hold: takes the station address, and sets up both rings.
    pub fn init_hw(
        &mut self,
        ral: u32,
        rah: u32,
        rx_descs: &mut [E1000RxDesc],
        tx_descs: &mut [E1000TxDesc],
    ) -> (r: Vec<RegOp>)
        requires
            old(rx_descs)@.len() == NUM_RX_DESC,
            old(tx_descs)@.len() == NUM_TX_DESC,
        ensures
            final(self).mac@ == mac_of(ral, rah),
            r@ == rx_sequence(old(self).rx_ring) + tx_sequence(old(self).tx_ring),
            final(rx_descs)@ == Seq::new(
                NUM_RX_DESC as nat,
                |i: int| E1000RxDesc::empty(old(self).rx_bufs@[i]),
            ),
            final(tx_descs)@ == Seq::new(
                NUM_TX_DESC as nat,
                |i: int| E1000TxDesc::available(old(self).tx_bufs@[i]),
            ),
            *final(self) == (E1000Device {
                mac: final(self).mac,
                rx_tail: 0,
                tx_tail: 0,
                ..*old(self)
            }),
            final(self).well_formed(),
    {
        self.mac = [
            (ral % 256) as u8,
            (ral / 256 % 256) as u8,
            (ral / 0x1_0000 % 256) as u8,
            (ral / 0x100_0000) as u8,
            (rah % 256) as u8,
            (rah / 256 % 256) as u8,
        ];
        assert(self.mac@ =~= mac_of(ral, rah));
        let mut r = self.init_rx(rx_descs);
        let mut tx_ops = self.init_tx(tx_descs);
        r.append(&mut tx_ops);
        r
    }

    /// Fills the RX ring with empty descriptors and programs the receiver.
    pub fn init_rx(&mut self, descs: &mut [E1000RxDesc]) -> (r: Vec<RegOp>)
        requires
            old(descs)@.len() == NUM_RX_DESC,
        ensures
            r@ == rx_sequence(old(self).rx_ring),
            final(descs)@ == Seq::new(
                NUM_RX_DESC as nat,
                |i: int| E1000RxDesc::empty(old(self).rx_bufs@[i]),
            ),
            *final(self) == (E1000Device { rx_tail: 0, ..*old(self) }),
    {
        let mut i: usize = 0;
        while i < NUM_RX_DESC
            invariant
                i <= NUM_RX_DESC,
                descs@.len() == NUM_RX_DESC,
                forall|j: int|
                    0 <= j < i ==> #[trigger] descs@[j] == E1000RxDesc::empty(self.rx_bufs@[j]),
                *self == *old(self),
            decreases NUM_RX_DESC - i,
        {
            let mut desc = E1000RxDesc::zeroed();
            desc.buffer_addr = self.rx_bufs[i];
            descs[i] = desc;
            i = i + 1;
        }
        assert(descs@ =~= Seq::new(
            NUM_RX_DESC as nat,
            |i: int| E1000RxDesc::empty(old(self).rx_bufs@[i]),
        ));
        let ring_pa = self.rx_ring;
        let mut r: Vec<RegOp> = Vec::new();
        r.push(RegOp::Write(E1000_RDBAL, (ring_pa % 0x1_0000_0000) as u32));
        r.push(RegOp::Write(E1000_RDBAH, (ring_pa / 0x1_0000_0000) as u32));
        r.push(RegOp::Write(E1000_RDLEN, NUM_RX_DESC as u32 * DESC_SIZE));
        r.push(RegOp::Write(E1000_RDH, 0));
        r.push(RegOp::Write(E1000_RDT, (NUM_RX_DESC - 1) as u32));
        self.rx_tail = 0;
        r.push(RegOp::Write(E1000_RCTL, RCTL_EN | RCTL_BAM | RCTL_SECRC));
        assert(r@ =~= rx_sequence(ring_pa));
        r
    }

    /// Fills the TX ring with available descriptors and programs the
    /// transmitter.
    pub fn init_tx(&mut self, descs: &mut [E1000TxDesc]) -> (r: Vec<RegOp>)
        requires
            old(descs)@.len() == NUM_TX_DESC,
        ensures
            r@ == tx_sequence(old(self).tx_ring),
            final(descs)@ == Seq::new(
                NUM_TX_DESC as nat,
                |i: int| E1000TxDesc::available(old(self).tx_bufs@[i]),
            ),
            *final(self) == (E1000Device { tx_tail: 0, ..*old(self) }),
    {
        let mut i: usize = 0;
        while i < NUM_TX_DESC
            invariant
                i <= NUM_TX_DESC,
                descs@.len() == NUM_TX_DESC,
                forall|j: int|
                    0 <= j < i ==> #[trigger] descs@[j] == E1000TxDesc::available(
                        self.tx_bufs@[j],
                    ),
                *self == *old(self),
            decreases NUM_TX_DESC - i,
        {
            let mut desc = E1000TxDesc::zeroed();
            desc.buffer_addr = self.tx_bufs[i];
            desc.status = DESC_STA_DD;
            descs[i] = desc;
            i = i + 1;
        }
        assert(descs@ =~= Seq::new(
            NUM_TX_DESC as nat,
            |i: int| E1000TxDesc::available(old(self).tx_bufs@[i]),
        ));
        let ring_pa = self.tx_ring;
        let mut r: Vec<RegOp> = Vec::new();
        r.push(RegOp::Write(E1000_TDBAL, (ring_pa % 0x1_0000_0000) as u32));
        r.push(RegOp::Write(E1000_TDBAH, (ring_pa / 0x1_0000_0000) as u32));
        r.push(RegOp::Write(E1000_TDLEN, NUM_TX_DESC as u32 * DESC_SIZE));
        r.push(RegOp::Write(E1000_TDH, 0));
        r.push(RegOp::Write(E1000_TDT, 0));
        self.tx_tail = 0;
        r.push(RegOp::Write(E1000_TCTL, TCTL_EN | TCTL_PSP | TCTL_CT | TCTL_COLD));
        assert(r@ =~= tx_sequence(ring_pa));
        r
    }

    /// Sends a frame through the descriptor at the TX tail, once that is
    /// available: copies the frame to `buf`, the tail's TX buffer, cutting it
    /// off at the buffer size, points the descriptor at that buffer, and hands
    /// it to the device. Returns the register write that starts the
    /// transmission.
    pub fn transmit(&mut self, descs: &mut [E1000TxDesc], buf: &mut [u8], data: &[u8]) -> (r:
        RegOp)
        requires
            old(self).well_formed(),
            old(descs)@.len() == NUM_TX_DESC,
            done(old(descs)@[old(self).tx_tail as int].status),
            old(buf)@.len() >= BUF_SIZE,
        ensures
            ({
                let idx = old(self).tx_tail as int;
                let desc = old(descs)@[idx];
                let len = parse::min(data@.len() as int, BUF_SIZE as int);
                &&& final(buf)@ == ring::patched(old(buf)@, 0, data@.take(len))
                &&& final(descs)@ == old(descs)@.update(
                    idx,
                    desc.submitted(old(self).tx_bufs@[idx], len as u16),
                )
            }),
            *final(self) == (E1000Device {
                tx_tail: ((old(self).tx_tail + 1) % 32) as usize,
                ..*old(self)
            }),
            r == RegOp::Write(E1000_TDT, final(self).tx_tail as u32),
            r == RegOp::Write(0x3818, ((old(self).tx_tail + 1) % 32) as u32),
            ({
                let sent = final(descs)@[old(self).tx_tail as int];
                &&& sent.buffer_addr == old(self).tx_bufs@[old(self).tx_tail as int]
                &&& sent.cmd == 0x0B && sent.status == 0
                &&& data@.len() <= 2048 ==> sent.length == data@.len() && final(buf)@.take(
                    data@.len() as int,
                ) == data@
                &&& data@.len() > 2048 ==> sent.length == 2048 && final(buf)@.take(2048)
                    == data@.take(2048)
            }),
            final(self).well_formed(),
    {
        let len: usize = if data.len() <= BUF_SIZE {
            data.len()
        } else {
            BUF_SIZE
        };
        let part = &data[0..len];
        assert(part@ =~= data@.take(len as int));
        ring::write_at(buf, 0, part);
        assert(buf@.take(len as int) =~= data@.take(len as int));
        assert(data@.len() == len ==> data@.take(len as int) =~= data@);
        let mut desc = descs[self.tx_tail];
        desc.buffer_addr = self.tx_bufs[self.tx_tail];
        desc.length = len as u16;
        desc.cmd = TDESC_CMD;
        desc.status = 0;
        descs[self.tx_tail] = desc;
        self.tx_tail = (self.tx_tail + 1) % NUM_TX_DESC;
        RegOp::Write(E1000_TDT, self.tx_tail as u32)
    }

    /// Zero-copy transmit: program the next descriptor to DMA directly from
    /// `pa` for `len` bytes. The caller owns the memory at `pa` and must keep
    /// it valid until hardware has consumed the descriptor.
    pub fn transmit_pa(&mut self, descs: &mut [E1000TxDesc], pa: u64, len: u16) -> (r: RegOp)
        requires
            old(self).well_formed(),
            old(descs)@.len() == NUM_TX_DESC,
            done(old(descs)@[old(self).tx_tail as int].status),
        ensures
            final(descs)@ == old(descs)@.update(
                old(self).tx_tail as int,
                old(descs)@[old(self).tx_tail as int].submitted(pa, len),
            ),
            *final(self) == (E1000Device {
                tx_tail: ((old(self).tx_tail + 1) % 32) as usize,
                ..*old(self)
            }),
            r == RegOp::Write(E1000_TDT, final(self).tx_tail as u32),
            r == RegOp::Write(0x3818, ((old(self).tx_tail + 1) % 32) as u32),
            ({
                let sent = final(descs)@[old(self).tx_tail as int];
                &&& sent.buffer_addr == pa && sent.length == len
                &&& sent.cmd == 0x0B && sent.status == 0
            }),
            final(self).well_formed(),
    {
        let mut desc = descs[self.tx_tail];
        desc.buffer_addr = pa;
        desc.length = len;
        desc.cmd = TDESC_CMD;
        desc.status = 0;
        descs[self.tx_tail] = desc;
        self.tx_tail = (self.tx_tail + 1) % NUM_TX_DESC;
        RegOp::Write(E1000_TDT, self.tx_tail as u32)
    }

    /// Tries to receive a packet through the descriptor at the RX tail, whose
    /// buffer holds `src`. Returns the number of bytes copied, or 0 if no
    /// packet is available, and the register write that returns the descriptor
    /// to the device.
    pub fn receive(&mut self, descs: &mut [E1000RxDesc], src: &[u8], buf: &mut [u8]) -> (r: (
        usize,
        Option<RegOp>,
    ))
        requires
            old(self).well_formed(),
            old(descs)@.len() == NUM_RX_DESC,
            ({
                let desc = old(descs)@[old(self).rx_tail as int];
                done(desc.status) ==> parse::min(desc.length as int, old(buf)@.len() as int)
                    <= src@.len()
            }),
        ensures
            ({
                let idx = old(self).rx_tail as int;
                let desc = old(descs)@[idx];
                if done(desc.status) {
                    &&& r.0 == parse::min(desc.length as int, old(buf)@.len() as int)
                    &&& r.1 == Some(RegOp::Write(E1000_RDT, idx as u32))
                    &&& *final(self) == (E1000Device {
                        rx_tail: ((idx + 1) % 32) as usize,
                        ..*old(self)
                    })
                    &&& final(descs)@ == old(descs)@.update(idx, desc.returned())
                    &&& final(buf)@ == ring::patched(old(buf)@, 0, src@.take(r.0 as int))
                } else {
                    &&& r == (0usize, None::<RegOp>)
                    &&& *final(self) == *old(self)
                    &&& final(descs)@ == old(descs)@
                    &&& final(buf)@ == old(buf)@
                }
            }),
            ({
                let idx = old(self).rx_tail as int;
                let desc = old(descs)@[idx];
                if desc.status % 2 == 1 {
                    &&& r.1 == Some(RegOp::Write(0x2818, idx as u32))
                    &&& desc.length <= old(buf)@.len() ==> r.0 == desc.length
                    &&& desc.length > old(buf)@.len() ==> r.0 == old(buf)@.len()
                    &&& final(buf)@.take(r.0 as int) == src@.take(r.0 as int)
                    &&& final(buf)@.skip(r.0 as int) == old(buf)@.skip(r.0 as int)
                    &&& final(descs)@[idx].status == 0 && final(descs)@[idx].length == 0
                } else {
                    r.0 == 0 && r.1 is None
                }
            }),
            final(self).well_formed(),
    {
        let ghost before = buf@;
        let mut desc = descs[self.rx_tail];
        if desc.status % 2 == 0 {
            return (0, None);
        }
        let pkt_len: usize = desc.length as usize;
        let copy_len: usize = if pkt_len <= buf.len() {
            pkt_len
        } else {
            buf.len()
        };
        let part = &src[0..copy_len];
        assert(part@ =~= src@.take(copy_len as int));
        ring::write_at(buf, 0, part);
        assert(buf@.take(copy_len as int) =~= src@.take(copy_len as int));
        assert(buf@.skip(copy_len as int) =~= before.skip(copy_len as int));
        desc.status = 0;
        desc.length = 0;
        descs[self.rx_tail] = desc;
        let old_tail = self.rx_tail;
        self.rx_tail = (self.rx_tail + 1) % NUM_RX_DESC;
        (copy_len, Some(RegOp::Write(E1000_RDT, old_tail as u32)))
    }
}

// ---------------------------------------------------------------------------
// Properties
// ---------------------------------------------------------------------------

/// A tail after `n` descriptors were used.
pub open spec fn advanced(tail: int, n: nat) -> int
    decreases n,
{
    if n == 0 {
        tail
    } else {
        (advanced(tail, (n - 1) as nat) + 1) % 32
    }
}

/// Descriptors are used in turn, so that one is not used again before all the
/// others were.
pub proof fn law_descriptors_are_used_in_turn(tail: int, n: nat)
    requires
        0 <= tail < NUM_TX_DESC,
    ensures
        advanced(tail, n) == (tail + n) % 32,
        0 < n < NUM_TX_DESC ==> advanced(tail, n) != tail,
        n == NUM_TX_DESC ==> advanced(tail, n) == tail,
    decreases n,
{
    if n > 0 {
        law_descriptors_are_used_in_turn(tail, (n - 1) as nat);
    }
}

/// Right after the initialization every TX descriptor can be used, and no RX
/// descriptor holds a packet.
pub proof fn law_initialized_rings_are_idle(addr: u64)
    ensures
        done(E1000TxDesc::available(addr).status),
        !done(E1000RxDesc::empty(addr).status),
{
}

/// A descriptor that was handed to the device is not available, and a returned
/// one holds no packet, until the device says so.
pub proof fn law_handed_over_descriptors_are_busy(
    tx: E1000TxDesc,
    rx: E1000RxDesc,
    addr: u64,
    length: u16,
)
    ensures
        !done(tx.submitted(addr, length).status),
        !done(rx.returned().status),
{
}

/// The bytes that a descriptor makes the device send, where `memory` holds what
/// stands at each physical address.
pub open spec fn sent_bytes(desc: E1000TxDesc, memory: spec_fn(int) -> u8) -> Seq<u8> {
    Seq::new(desc.length as nat, |i: int| memory(desc.buffer_addr + i))
}

/// A frame that fits is transmitted whole, whatever the descriptor was used for
/// before: the device sends the frame, as the buffer at `addr` holds it.
pub proof fn law_transmitted_bytes_are_the_frame(
    desc: E1000TxDesc,
    addr: u64,
    buf: Seq<u8>,
    data: Seq<u8>,
    memory: spec_fn(int) -> u8,
)
    requires
        data.len() <= BUF_SIZE,
        buf.len() >= BUF_SIZE,
        ({
            let after = ring::patched(
                buf,
                0,
                data.take(parse::min(data.len() as int, BUF_SIZE as int)),
            );
            forall|i: int| 0 <= i < after.len() ==> memory(addr + i) == #[trigger] after[i]
        }),
    ensures
        ({
            let len = parse::min(data.len() as int, BUF_SIZE as int);
            sent_bytes(desc.submitted(addr, len as u16), memory) == data
        }),
{
    let len = parse::min(data.len() as int, BUF_SIZE as int);
    let after = ring::patched(buf, 0, data.take(len));
    let sent = sent_bytes(desc.submitted(addr, len as u16), memory);
    assert forall|i: int| 0 <= i < len implies sent[i] == data[i] by {
        assert(after[i] == data[i]);
        assert(memory(addr + i) == after[i]);
    }
    assert(sent =~= data);
}

/// A packet can be sent from where it was built: a descriptor submitted for what
/// follows the prefix of a TX slot, where the kernel finds that slot, makes the
/// device send exactly the slot's packet out of the shared page.
pub proof fn law_zero_copy_sends_the_slot_packet(
    desc: E1000TxDesc,
    frames: Seq<usize>,
    index: int,
    slot: Seq<u8>,
    memory: spec_fn(int) -> u8,
)
    requires
        bypass::region_pages(frames),
        0 <= index < bypass::RING_SIZE,
        slot.len() == bypass::SLOT_SIZE,
        bypass::sendable(slot),
        forall|i: int|
            0 <= i < slot.len() ==> memory(
                bypass::kernel_addr(frames, bypass::tx_slot_offset(index)) + i,
            ) == #[trigger] slot[i],
    ensures
        ({
            let addr = bypass::kernel_addr(frames, bypass::tx_slot_offset(index)) + 2;
            let len = bypass::slot_len(slot);
            let page = frames[1 + index / 2] * bypass::PAGE_SIZE;
            &&& sent_bytes(desc.submitted(addr as u64, len as u16), memory) == bypass::slot_packet(
                slot,
            )
            &&& page <= addr && addr + len <= page + bypass::PAGE_SIZE
        }),
{
    let start = bypass::kernel_addr(frames, bypass::tx_slot_offset(index));
    let offset = bypass::tx_slot_offset(index);
    let page = offset / (bypass::PAGE_SIZE as int);
    assert(page == 1 + index / 2);
    assert(offset % (bypass::PAGE_SIZE as int) == index % 2 * bypass::SLOT_SIZE);
    assert(bypass::addressable(frames[page]));
    let len = bypass::slot_len(slot);
    let sent = sent_bytes(desc.submitted((start + 2) as u64, len as u16), memory);
    let packet = bypass::slot_packet(slot);
    assert forall|i: int| 0 <= i < len implies sent[i] == packet[i] by {
        assert(memory(start + (2 + i)) == slot[2 + i]);
    }
    assert(sent =~= packet);
}

/// A packet that fits the caller's buffer is received whole.
pub proof fn law_received_bytes_are_the_packet(buf: Seq<u8>, src: Seq<u8>, length: u16)
    requires
        length <= buf.len(),
        length <= src.len(),
    ensures
        ({
            let len = parse::min(length as int, buf.len() as int);
            &&& len == length
            &&& ring::patched(buf, 0, src.take(len)).take(len) == src.take(length as int)
        }),
{
    let len = length as int;
    assert(ring::patched(buf, 0, src.take(len)).take(len) =~= src.take(len));
}

/// A transmit descriptor is handed to the device with the address and the length
/// of the data, as a whole packet with the checksum to insert and the status to
/// report, and with its status cleared; what it held besides stays. One that
/// nothing was ever sent with reports that it is done.
pub proof fn law_tx_descriptor_fields(d: E1000TxDesc, addr: u64, length: u16)
    ensures
        ({
            let s = d.submitted(addr, length);
            &&& s.buffer_addr == addr && s.length == length
            &&& s.cmd == 0x01 + 0x02 + 0x08
            &&& s.status == 0
            &&& s.cso == d.cso && s.css == d.css && s.special == d.special
        }),
        ({
            let a = E1000TxDesc::available(addr);
            &&& a.buffer_addr == addr && a.length == 0 && a.cmd == 0 && a.status == 1
            &&& a.cso == 0 && a.css == 0 && a.special == 0
        }),
{
}

/// A receive descriptor starts out empty at its buffer, and is given back with
/// its length and status cleared and everything else as it was.
pub proof fn law_rx_descriptor_fields(d: E1000RxDesc, addr: u64)
    ensures
        ({
            let e = E1000RxDesc::empty(addr);
            &&& e.buffer_addr == addr && e.length == 0 && e.status == 0
            &&& e.checksum == 0 && e.errors == 0 && e.special == 0
        }),
        ({
            let r = d.returned();
            &&& r.length == 0 && r.status == 0
            &&& r.buffer_addr == d.buffer_addr && r.checksum == d.checksum
            &&& r.errors == d.errors && r.special == d.special
        }),
{
}

/// A descriptor is done when the lowest bit of its status is set.
pub proof fn law_done_is_the_lowest_bit(status: u8)
    ensures
        done(status) <==> status & 1 == 1,
{
    assert((status % 2 == 1) == (status & 1 == 1)) by (bit_vector);
}

/// The hardware address stands in the two address registers with its first byte
/// in the lowest place, and the upper half of the second register does not
/// matter.
pub proof fn law_mac_in_registers(ral: u32, rah: u32)
    ensures
        ({
            let m = mac_of(ral, rah);
            &&& m.len() == 6
            &&& m[0] + 256 * (m[1] + 256 * (m[2] + 256 * m[3])) == ral
            &&& m[4] + 256 * m[5] == rah % 0x1_0000
        }),
{
}

/// A reset sets the reset bit and waits, brings the link up, masks and clears
/// every interrupt, and clears the 128 words of the multicast table.
pub proof fn law_reset_order(ctrl: u32, i: int)
    requires
        0 <= i < 128,
    ensures
        ({
            let ops = reset_sequence(ctrl);
            &&& ops.len() == 133
            &&& ops[0] == RegOp::Write(0x0000, ctrl | 0x0400_0000)
            &&& ops[1] == RegOp::Spin(100_000)
            &&& ops[2] == RegOp::Write(0x0000, 0x60)
            &&& ops[3] == RegOp::Write(0x00D8, 0xFFFF_FFFF)
            &&& ops[4] == RegOp::Read(0x00C0)
            &&& ops[5 + i] == RegOp::Write((0x5200 + 4 * i) as usize, 0)
        }),
{
    assert(0x40u32 | 0x20 == 0x60) by (bit_vector);
}

/// The device gets the address of a descriptor ring in two halves, then its size
/// in bytes, then head and tail, and is switched on last: the receiver with all
/// descriptors but one, the transmitter with none.
pub proof fn law_ring_setup_order(ring_pa: u64)
    ensures
        ({
            let ops = rx_sequence(ring_pa);
            &&& ops.len() == 6
            &&& ops[0] matches RegOp::Write(low_reg, low) && (ops[1] matches RegOp::Write(
                high_reg,
                high,
            ) && low_reg == 0x2800 && high_reg == 0x2804 && low + high * 0x1_0000_0000 == ring_pa)
            &&& ops[2] == RegOp::Write(0x2808, 512)
            &&& ops[3] == RegOp::Write(0x2810, 0)
            &&& ops[4] == RegOp::Write(0x2818, 31)
            &&& ops[5] == RegOp::Write(0x0100, 0x0400_8002)
        }),
        ({
            let ops = tx_sequence(ring_pa);
            &&& ops.len() == 6
            &&& ops[0] matches RegOp::Write(low_reg, low) && (ops[1] matches RegOp::Write(
                high_reg,
                high,
            ) && low_reg == 0x3800 && high_reg == 0x3804 && low + high * 0x1_0000_0000 == ring_pa)
            &&& ops[2] == RegOp::Write(0x3808, 512)
            &&& ops[3] == RegOp::Write(0x3810, 0)
            &&& ops[4] == RegOp::Write(0x3818, 0)
            &&& ops[5] == RegOp::Write(0x0400, 0x4_010A)
        }),
{
    assert(0x2u32 | 0x8000 | 0x0400_0000 == 0x0400_8002) by (bit_vector);
    assert(0x2u32 | 0x8 | 0x100 | 0x4_0000 == 0x4_010A) by (bit_vector);
}

} // verus!
