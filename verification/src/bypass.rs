//! Kernel-bypass networking via a shared ring buffer.
//!
//! Layout of the shared region (mapped at [`BYPASS_VADDR`] in user space):
//!
//! ```text
//! Page  0       : NetBypassHeader  (control + config)
//! Pages 1  .. 8 : TX ring - 16 slots x 2048 B
//! Pages 9  ..16 : RX ring - 16 slots x 2048 B
//! ```
//!
//! Each slot: `[u16-LE packet_len][u8; packet_data ...]`

use vstd::prelude::*;

use crate::addr::{IPv4, MacAddress};
use crate::bytes;
use crate::frame;
use crate::parse;
use crate::stack::NetConfig;

verus! {

/// Bytes per page.
pub const PAGE_SIZE: usize = 4096;

/// Fixed virtual address where the shared buffer is mapped in user space.
pub const BYPASS_VADDR: usize = 0x2000_0000;

/// Slots per ring.
pub const RING_SIZE: usize = 16;

/// Bytes per slot.
pub const SLOT_SIZE: usize = 2048;

/// Where the TX ring starts: right after the header page.
pub const TX_OFFSET: usize = 4096;

/// Where the RX ring starts: right after the TX ring.
pub const RX_OFFSET: usize = 36864;

/// Pages of the shared region.
pub const NUM_PAGES: usize = 17;

/// The largest packet a slot holds behind its length prefix.
pub const MAX_PACKET: usize = 2046;

/// Returned while the shared region is not set up.
pub const ERR_NOT_SET_UP: isize = -1;

/// Returned while the RX ring is full.
pub const ERR_RX_FULL: isize = -2;

/// Shared header at offset 0 of the mapped region.
#[derive(Clone, Copy)]
pub struct NetBypassHeader {
    /// Next TX slot the user will write (user increments).
    pub tx_head: u32,
    /// Next TX slot the kernel will consume (kernel increments).
    pub tx_tail: u32,
    /// Next RX slot the kernel has filled (kernel increments).
    pub rx_head: u32,
    /// Next RX slot the user will read (user increments).
    pub rx_tail: u32,
    /// Number of slots per ring.
    pub ring_size: u32,
    /// Bytes per slot.
    pub slot_size: u32,
    /// Byte offset from region start to first TX slot.
    pub tx_offset: u32,
    /// Byte offset from region start to first RX slot.
    pub rx_offset: u32,
    /// Our MAC address (read-only for user).
    pub local_mac: [u8; 6],
    pub _pad: [u8; 2],
    /// Our IPv4 address (read-only for user).
    pub local_ip: [u8; 4],
}

impl NetBypassHeader {
    /// The header with both rings empty and everything else as it is.
    pub open spec fn with_empty_rings(self) -> NetBypassHeader {
        NetBypassHeader { tx_head: 0, tx_tail: 0, rx_head: 0, rx_tail: 0, ..self }
    }

    /// The header describes the layout of the region and has empty rings.
    pub open spec fn is_initial(self, config: NetConfig) -> bool {
        &&& self == self.with_empty_rings()
        &&& self.ring_size == RING_SIZE
        &&& self.slot_size == SLOT_SIZE
        &&& self.tx_offset == TX_OFFSET
        &&& self.rx_offset == RX_OFFSET
        &&& self.local_mac@ == config.mac@
        &&& self._pad@ == seq![0u8, 0]
        &&& self.local_ip@ == config.ip@
    }

    /// The header of a region that was just allocated.
    pub fn initial(config: &NetConfig) -> (r: NetBypassHeader)
        ensures
            r.is_initial(*config),
            r.tx_head == 0 && r.tx_tail == 0 && r.rx_head == 0 && r.rx_tail == 0,
            r.ring_size == 16 && r.slot_size == 2048,
            r.tx_offset == 4096 && r.rx_offset == 36864,
            r.local_mac@ == config.mac@ && r.local_ip@ == config.ip@,
            r._pad@ == seq![0u8, 0],
    {
        let r = NetBypassHeader {
            tx_head: 0,
            tx_tail: 0,
            rx_head: 0,
            rx_tail: 0,
            ring_size: 16,
            slot_size: 2048,
            tx_offset: 4096,
            rx_offset: 36864,
            local_mac: config.mac.0,
            _pad: [0, 0],
            local_ip: config.ip.0,
        };
        assert(r._pad@ =~= seq![0u8, 0]);
        r
    }

    /// Empties both rings.
    pub fn reset_rings(&mut self)
        ensures
            *final(self) == old(self).with_empty_rings(),
            final(self).tx_head == 0 && final(self).tx_tail == 0,
            final(self).rx_head == 0 && final(self).rx_tail == 0,
            final(self).ring_size == old(self).ring_size,
            final(self).slot_size == old(self).slot_size,
            final(self).tx_offset == old(self).tx_offset,
            final(self).rx_offset == old(self).rx_offset,
            final(self).local_mac == old(self).local_mac,
            final(self)._pad == old(self)._pad,
            final(self).local_ip == old(self).local_ip,
    {
        self.tx_head = 0;
        self.tx_tail = 0;
        self.rx_head = 0;
        self.rx_tail = 0;
    }
}

// ---------------------------------------------------------------------------
// The region in physical memory
// ---------------------------------------------------------------------------

/// The physical page numbers of the shared region, in order.
pub struct BypassState {
    pub frames: Vec<usize>,
}

/// A page number whose bytes all have addresses.
pub open spec fn addressable(ppn: usize) -> bool {
    ppn * PAGE_SIZE + PAGE_SIZE <= usize::MAX
}

/// The pages of a shared region: as many as the layout needs, all addressable,
/// and no page twice.
pub open spec fn region_pages(frames: Seq<usize>) -> bool {
    &&& frames.len() == NUM_PAGES
    &&& forall|i: int| 0 <= i < frames.len() ==> addressable(#[trigger] frames[i])
    &&& forall|i: int, j: int|
        0 <= i < j < frames.len() ==> (#[trigger] frames[i]) != (#[trigger] frames[j])
}

/// Tests whether pages can make up a shared region.
pub fn can_use_pages(frames: &Vec<usize>) -> (r: bool)
    ensures
        r == region_pages(frames@),
{
    if frames.len() != NUM_PAGES {
        return false;
    }
    let mut i: usize = 0;
    while i < NUM_PAGES
        invariant
            i <= NUM_PAGES,
            frames@.len() == NUM_PAGES,
            forall|a: int| 0 <= a < i ==> addressable(#[trigger] frames@[a]),
            forall|a: int, b: int|
                0 <= a < b < i ==> (#[trigger] frames@[a]) != (#[trigger] frames@[b]),
        decreases NUM_PAGES - i,
    {
        if frames[i] > (usize::MAX - PAGE_SIZE) / PAGE_SIZE {
            assert(!addressable(frames@[i as int]));
            return false;
        }
        assert(addressable(frames@[i as int]));
        let mut j: usize = 0;
        while j < i
            invariant
                j <= i < NUM_PAGES,
                frames@.len() == NUM_PAGES,
                forall|a: int| 0 <= a < j ==> (#[trigger] frames@[a]) != frames@[i as int],
            decreases i - j,
        {
            if frames[j] == frames[i] {
                return false;
            }
            j = j + 1;
        }
        i = i + 1;
    }
    true
}

/// The kernel address of a byte of the region.
pub open spec fn kernel_addr(frames: Seq<usize>, byte_offset: int) -> int {
    frames[byte_offset / (PAGE_SIZE as int)] * PAGE_SIZE + byte_offset % (PAGE_SIZE as int)
}

/// The byte offset of TX slot `index` in the region.
pub open spec fn tx_slot_offset(index: int) -> int {
    TX_OFFSET + index * SLOT_SIZE
}

/// The byte offset of RX slot `index` in the region.
pub open spec fn rx_slot_offset(index: int) -> int {
    RX_OFFSET + index * SLOT_SIZE
}

impl BypassState {
    /// Kernel address of a byte offset inside the (possibly non-contiguous)
    /// physical pages.
    pub fn ptr_at(&self, byte_offset: usize) -> (r: usize)
        requires
            region_pages(self.frames@),
            byte_offset < NUM_PAGES * PAGE_SIZE,
        ensures
            r == kernel_addr(self.frames@, byte_offset as int),
    {
        let page_idx = byte_offset / PAGE_SIZE;
        let page_off = byte_offset % PAGE_SIZE;
        let ppn = self.frames[page_idx];
        assert(addressable(self.frames@[page_idx as int]));
        ppn * PAGE_SIZE + page_off
    }

    /// Kernel address of the shared header.
    pub fn header(&self) -> (r: usize)
        requires
            region_pages(self.frames@),
        ensures
            r == kernel_addr(self.frames@, 0),
    {
        self.ptr_at(0)
    }

    /// Kernel address of TX slot `index`.
    pub fn tx_slot(&self, index: usize) -> (r: usize)
        requires
            region_pages(self.frames@),
            index < RING_SIZE,
        ensures
            r == kernel_addr(self.frames@, tx_slot_offset(index as int)),
    {
        self.ptr_at(TX_OFFSET + index * SLOT_SIZE)
    }

    /// Kernel address of RX slot `index`.
    pub fn rx_slot(&self, index: usize) -> (r: usize)
        requires
            region_pages(self.frames@),
            index < RING_SIZE,
        ensures
            r == kernel_addr(self.frames@, rx_slot_offset(index as int)),
    {
        self.ptr_at(RX_OFFSET + index * SLOT_SIZE)
    }
}

/// The kernel addresses needed to operate on the rings.
pub struct RingPtrs {
    pub hdr: usize,
    pub tx: [usize; 16],
    pub rx: [usize; 16],
}

impl RingPtrs {
    /// The addresses are those of the parts of the region in these pages.
    pub open spec fn locate(self, frames: Seq<usize>) -> bool {
        &&& self.hdr == kernel_addr(frames, 0)
        &&& forall|i: int|
            0 <= i < RING_SIZE ==> #[trigger] self.tx@[i] == kernel_addr(
                frames,
                tx_slot_offset(i),
            )
        &&& forall|i: int|
            0 <= i < RING_SIZE ==> #[trigger] self.rx@[i] == kernel_addr(
                frames,
                rx_slot_offset(i),
            )
    }

    /// The address of a slot, counting the TX slots and then the RX slots.
    pub open spec fn slot(self, k: int) -> int {
        if k < RING_SIZE {
            self.tx@[k] as int
        } else {
            self.rx@[k - RING_SIZE] as int
        }
    }

    /// Every slot lies within one page, TX slots in pages 1 to 8 and RX slots in
    /// pages 9 to 16.
    pub open spec fn within_pages(self, frames: Seq<usize>) -> bool {
        forall|k: int|
            0 <= k < 2 * RING_SIZE ==> {
                let page = frames[1 + k / 2] * PAGE_SIZE;
                page <= #[trigger] self.slot(k) && self.slot(k) + SLOT_SIZE <= page + PAGE_SIZE
            }
    }

    /// No two slots share a byte, and none shares one with the header page.
    pub open spec fn apart(self) -> bool {
        &&& forall|j: int, k: int|
            0 <= j < k < 2 * RING_SIZE ==> (#[trigger] self.slot(j)) + SLOT_SIZE
                <= #[trigger] self.slot(k) || self.slot(k) + SLOT_SIZE <= self.slot(j)
        &&& forall|k: int|
            0 <= k < 2 * RING_SIZE ==> (#[trigger] self.slot(k)) + SLOT_SIZE <= self.hdr
                || self.hdr + PAGE_SIZE <= self.slot(k)
    }
}

/// The addresses of the region's parts, or none before it is set up.
pub fn snapshot_ptrs(state: &Option<BypassState>) -> (r: Option<RingPtrs>)
    requires
        state matches Some(bs) ==> region_pages(bs.frames@),
    ensures
        r is Some <==> state is Some,
        r matches Some(p) ==> {
            let frames = state->0.frames@;
            &&& p.locate(frames)
            &&& p.hdr == frames[0] * PAGE_SIZE
            &&& p.within_pages(frames)
            &&& p.apart()
        },
{
    match state {
        None => None,
        Some(bs) => {
            let mut tx = [0usize; 16];
            let mut rx = [0usize; 16];
            let mut i: usize = 0;
            while i < RING_SIZE
                invariant
                    i <= RING_SIZE,
                    region_pages(bs.frames@),
                    forall|j: int|
                        0 <= j < i ==> #[trigger] tx@[j] == kernel_addr(
                            bs.frames@,
                            tx_slot_offset(j),
                        ),
                    forall|j: int|
                        0 <= j < i ==> #[trigger] rx@[j] == kernel_addr(
                            bs.frames@,
                            rx_slot_offset(j),
                        ),
                decreases RING_SIZE - i,
            {
                tx[i] = bs.tx_slot(i);
                rx[i] = bs.rx_slot(i);
                i = i + 1;
            }
            let ptrs = RingPtrs { hdr: bs.header(), tx, rx };
            proof {
                law_slots_are_apart(ptrs, bs.frames@);
            }
            Some(ptrs)
        },
    }
}

// ---------------------------------------------------------------------------
// Setup
// ---------------------------------------------------------------------------

/// A page-table entry.
#[derive(Clone, Copy)]
pub struct PageEntry {
    pub valid: bool,
    pub ppn: usize,
}

/// What a mapped page allows.
#[derive(Debug, Clone, Copy, PartialEq, Eq, Structural)]
pub struct PagePermission {
    /// It can be read.
    pub read: bool,
    /// It can be written.
    pub write: bool,
    /// Code in it can be executed.
    pub execute: bool,
    /// User mode can access it.
    pub user: bool,
}

/// A page to map into a process.
#[derive(Debug, Clone, Copy, PartialEq, Eq, Structural)]
pub struct PageMapping {
    /// The virtual address.
    pub vaddr: usize,
    /// The physical page number.
    pub ppn: usize,
    pub permission: PagePermission,
}

impl PageMapping {
    /// The mapping of page `i` of the region, which lies in frame `ppn`: readable
    /// and writable for the user, and not executable.
    pub open spec fn of_page(i: int, ppn: usize) -> PageMapping {
        PageMapping {
            vaddr: (BYPASS_VADDR + i * PAGE_SIZE) as usize,
            ppn,
            permission: PagePermission { read: true, write: true, execute: false, user: true },
        }
    }

    /// The mapping of page `i` of the region, which lies in frame `ppn`.
    pub fn new(i: usize, ppn: usize) -> (r: PageMapping)
        requires
            i < NUM_PAGES,
        ensures
            r == PageMapping::of_page(i as int, ppn),
    {
        PageMapping {
            vaddr: BYPASS_VADDR + i * PAGE_SIZE,
            ppn,
            permission: PagePermission { read: true, write: true, execute: false, user: true },
        }
    }
}

/// What a setup does to the calling process.
pub struct SetupPlan {
    /// Pages to map, in order.
    pub maps: Vec<PageMapping>,
    /// What the call returns: the region's virtual address, or an error.
    pub ret: isize,
}

/// Whether the process has another page where page `i` of the region belongs.
pub open spec fn conflict(frames: Seq<usize>, entries: Seq<Option<PageEntry>>, i: int) -> bool {
    entries[i] matches Some(e) && e.valid && e.ppn != frames[i]
}

/// Whether the process has no page where page `i` of the region belongs.
pub open spec fn unmapped(entries: Seq<Option<PageEntry>>, i: int) -> bool {
    !(entries[i] matches Some(e) && e.valid)
}

/// The mappings that pages `0..k` of the region still need.
pub open spec fn mappings(
    frames: Seq<usize>,
    entries: Seq<Option<PageEntry>>,
    k: int,
) -> Seq<PageMapping>
    decreases k,
{
    if k <= 0 {
        Seq::empty()
    } else if unmapped(entries, k - 1) {
        mappings(frames, entries, k - 1).push(PageMapping::of_page(k - 1, frames[k - 1]))
    } else {
        mappings(frames, entries, k - 1)
    }
}

/// The first page at or after `i` that conflicts, or the number of pages.
pub open spec fn first_conflict(
    frames: Seq<usize>,
    entries: Seq<Option<PageEntry>>,
    i: int,
) -> int
    decreases NUM_PAGES - i,
{
    if i >= NUM_PAGES {
        NUM_PAGES as int
    } else if conflict(frames, entries, i) {
        i
    } else {
        first_conflict(frames, entries, i + 1)
    }
}

/// How many pages a setup has to allocate.
pub fn frames_needed(state: &Option<BypassState>) -> (r: usize)
    ensures
        r == if state is None {
            NUM_PAGES
        } else {
            0
        },
{
    match state {
        Some(_) => 0,
        None => NUM_PAGES,
    }
}

/// Plans the mapping of the region's pages into a process whose page-table
/// entries at the region's addresses are `entries`. Pages that are already
/// mapped as they should be are left alone; a page mapped otherwise ends the
/// setup.
pub fn plan_mappings(frames: &Vec<usize>, entries: &Vec<Option<PageEntry>>) -> (r: SetupPlan)
    requires
        frames@.len() == NUM_PAGES,
        entries@.len() == NUM_PAGES,
    ensures
        r.maps@ == mappings(frames@, entries@, first_conflict(frames@, entries@, 0)),
        r.ret == if first_conflict(frames@, entries@, 0) == NUM_PAGES {
            BYPASS_VADDR as int
        } else {
            -1
        },
        r.ret == 0x2000_0000 || r.ret == -1,
        r.ret == 0x2000_0000 <==> forall|i: int|
            0 <= i < 17 ==> !(#[trigger] entries@[i] matches Some(e) && e.valid && e.ppn
                != frames@[i]),
{
    proof {
        lemma_no_conflict(frames@, entries@);
    }
    let mut maps: Vec<PageMapping> = Vec::new();
    let mut i: usize = 0;
    while i < NUM_PAGES
        invariant
            i <= NUM_PAGES,
            frames@.len() == NUM_PAGES,
            entries@.len() == NUM_PAGES,
            maps@ == mappings(frames@, entries@, i as int),
            first_conflict(frames@, entries@, i as int) == first_conflict(frames@, entries@, 0),
        decreases NUM_PAGES - i,
    {
        match entries[i] {
            Some(e) => {
                if e.valid {
                    if e.ppn != frames[i] {
                        return SetupPlan { maps, ret: -1 };
                    }
                } else {
                    maps.push(PageMapping::new(i, frames[i]));
                }
            },
            None => {
                maps.push(PageMapping::new(i, frames[i]));
            },
        }
        i = i + 1;
    }
    SetupPlan { maps, ret: 0x2000_0000 }
}

/// Takes the shared region into use for a process: the region is allocated once
/// (`fresh` holds its pages) and given a header, both rings start out empty,
/// and the pages are mapped.
pub fn bypass_setup(
    state: &mut Option<BypassState>,
    fresh: Vec<usize>,
    config: &NetConfig,
    header: &mut NetBypassHeader,
    entries: &Vec<Option<PageEntry>>,
) -> (r: SetupPlan)
    requires
        (*old(state)) is None ==> region_pages(fresh@),
        (*old(state)) matches Some(bs) ==> region_pages(bs.frames@),
        entries@.len() == NUM_PAGES,
    ensures
        (*final(state)) is Some,
        region_pages((*final(state))->0.frames@),
        (*final(state))->0.frames@ == if (*old(state)) is None {
            fresh@
        } else {
            (*old(state))->0.frames@
        },
        (*old(state)) is None ==> final(header).is_initial(*config),
        (*old(state)) is Some ==> *final(header) == old(header).with_empty_rings(),
        final(header).tx_head == 0 && final(header).tx_tail == 0,
        final(header).rx_head == 0 && final(header).rx_tail == 0,
        (*old(state)) is Some ==> final(header).ring_size == old(header).ring_size
            && final(header).slot_size == old(header).slot_size && final(header).tx_offset == old(
            header,
        ).tx_offset && final(header).rx_offset == old(header).rx_offset && final(header).local_mac
            == old(header).local_mac && final(header).local_ip == old(header).local_ip,
        r.maps@ == mappings(
            (*final(state))->0.frames@,
            entries@,
            first_conflict((*final(state))->0.frames@, entries@, 0),
        ),
        r.ret == if first_conflict((*final(state))->0.frames@, entries@, 0) == NUM_PAGES {
            BYPASS_VADDR as int
        } else {
            -1
        },
{
    if state.is_none() {
        *header = NetBypassHeader::initial(config);
        *state = Some(BypassState { frames: fresh });
    }
    header.reset_rings();
    match state {
        Some(bs) => plan_mappings(&bs.frames, entries),
        None => SetupPlan { maps: Vec::new(), ret: -1 },
    }
}

// ---------------------------------------------------------------------------
// TX flush
// ---------------------------------------------------------------------------

/// The number after `n` in 32-bit arithmetic.
pub open spec fn succ(n: u32) -> u32 {
    ((n + 1) % 0x1_0000_0000) as u32
}

/// How far `head` is ahead of `tail` in 32-bit arithmetic.
pub open spec fn ahead(head: u32, tail: u32) -> int {
    (head - tail) % 0x1_0000_0000
}

/// The number after `n` in 32-bit arithmetic.
pub fn next_index(n: u32) -> (r: u32)
    ensures
        r == succ(n),
{
    if n == u32::MAX {
        0
    } else {
        n + 1
    }
}

/// How far `head` is ahead of `tail` in 32-bit arithmetic.
pub fn distance(head: u32, tail: u32) -> (r: u32)
    ensures
        r == ahead(head, tail),
{
    if head >= tail {
        head - tail
    } else {
        u32::MAX - (tail - head) + 1
    }
}

/// A flush of the TX ring in progress.
#[derive(Clone, Copy, PartialEq, Eq, Structural)]
pub struct TxRun {
    /// The first slot that is not pending.
    pub head: u32,
    /// The next slot to consume.
    pub tail: u32,
    /// Slots consumed so far.
    pub sent: u32,
}

/// The packet length in a slot's prefix.
pub open spec fn slot_len(slot: Seq<u8>) -> int {
    bytes::le16(slot[0], slot[1]) as int
}

/// Whether a slot holds a packet that can be sent.
pub open spec fn sendable(slot: Seq<u8>) -> bool {
    0 < slot_len(slot) <= MAX_PACKET
}

/// The packet in a slot.
pub open spec fn slot_packet(slot: Seq<u8>) -> Seq<u8> {
    slot.subrange(2, 2 + slot_len(slot))
}

impl TxRun {
    /// Whether a slot is still pending.
    pub open spec fn active(self) -> bool {
        self.tail != self.head
    }

    /// The slot count is that of the slots passed, and leaves room for those
    /// that are pending.
    pub open spec fn well_formed(self) -> bool {
        self.sent + ahead(self.head, self.tail) <= u32::MAX
    }

    /// The run after one slot was consumed.
    pub open spec fn after(self) -> TxRun {
        TxRun { head: self.head, tail: succ(self.tail), sent: (self.sent + 1) as u32 }
    }

    /// Starts a flush: of the pending slots that `header` describes, or none
    /// before the region is set up.
    pub fn begin(header: &Option<NetBypassHeader>) -> (r: Result<TxRun, isize>)
        ensures
            match header {
                Some(h) => r == Ok::<TxRun, isize>(
                    (TxRun { head: h.tx_head, tail: h.tx_tail, sent: 0 }),
                ) && r->Ok_0.well_formed(),
                None => r == Err::<TxRun, isize>(ERR_NOT_SET_UP),
            },
            header is None ==> r is Err && r->Err_0 == -1,
            header matches Some(h) ==> (r matches Ok(run) && run.head == h.tx_head && run.tail
                == h.tx_tail && run.sent == 0),
    {
        match header {
            Some(h) => Ok(TxRun { head: h.tx_head, tail: h.tx_tail, sent: 0 }),
            None => Err(ERR_NOT_SET_UP),
        }
    }

    /// The slot to consume next, if any is pending.
    pub fn pending_slot(&self) -> (r: Option<usize>)
        ensures
            r == if self.active() {
                Some((self.tail % 16) as usize)
            } else {
                None::<usize>
            },
    {
        if self.tail != self.head {
            Some((self.tail % 16) as usize)
        } else {
            None
        }
    }

    /// What the flush returns once no slot is pending; the kernel then stores
    /// `self.tail` in the header.
    pub fn result(&self) -> (r: isize)
        ensures
            r == self.sent as isize,
    {
        self.sent as isize
    }
}

/// Consumes the next pending slot: returns the packet to send, or nothing where
/// the prefix is zero or too large.
pub fn bypass_tx<'a>(run: &mut TxRun, slot: &'a [u8]) -> (r: Option<&'a [u8]>)
    requires
        old(run).active(),
        old(run).well_formed(),
        slot@.len() == SLOT_SIZE,
    ensures
        *final(run) == old(run).after(),
        final(run).well_formed(),
        r is Some <==> sendable(slot@),
        r matches Some(packet) ==> packet@ == slot_packet(slot@),
{
    let pkt_len: usize = bytes::join_le16(slot[0], slot[1]) as usize;
    run.tail = next_index(run.tail);
    run.sent = run.sent + 1;
    if pkt_len > 0 && pkt_len <= MAX_PACKET {
        Some(&slot[2..2 + pkt_len])
    } else {
        None
    }
}

/// The run after `n` slots were consumed.
pub open spec fn after_slots(run: TxRun, n: nat) -> TxRun
    decreases n,
{
    if n == 0 {
        run
    } else {
        after_slots(run, (n - 1) as nat).after()
    }
}

/// A flush consumes exactly the pending slots, in ring order, and then stops
/// with the tail at the head.
pub proof fn law_flush_consumes_pending_slots(head: u32, tail: u32, n: nat)
    requires
        n <= ahead(head, tail),
    ensures
        ({
            let run = after_slots((TxRun { head, tail, sent: 0 }), n);
            &&& run.head == head
            &&& run.sent == n
            &&& run.tail == (tail + n) % 0x1_0000_0000
            &&& run.tail % 16 == (tail + n) % 16
            &&& run.active() <==> n < ahead(head, tail)
            &&& n == ahead(head, tail) ==> run.tail == head
        }),
{
    lemma_after_slots(head, tail, n);
    lemma_ring_position(head, tail, n as int);
}

/// The state of a flush after `n` slots.
proof fn lemma_after_slots(head: u32, tail: u32, n: nat)
    requires
        n <= u32::MAX,
    ensures
        after_slots((TxRun { head, tail, sent: 0 }), n) == (TxRun {
            head,
            tail: ((tail + n) % 0x1_0000_0000) as u32,
            sent: n as u32,
        }),
    decreases n,
{
    if n > 0 {
        lemma_after_slots(head, tail, (n - 1) as nat);
    }
}

/// The ring position `n` slots behind `tail`.
proof fn lemma_ring_position(head: u32, tail: u32, n: int)
    requires
        0 <= n <= ahead(head, tail),
    ensures
        (tail + n) % 0x1_0000_0000 % 16 == (tail + n) % 16,
        (tail + n) % 0x1_0000_0000 == head <==> n == ahead(head, tail),
{
    if head >= tail {
        assert(ahead(head, tail) == head - tail);
    } else {
        assert(ahead(head, tail) == head - tail + 0x1_0000_0000);
    }
}

/// What a flush sends from one slot.
pub open spec fn sent_from(slot: Seq<u8>) -> Seq<Seq<u8>> {
    if sendable(slot) {
        seq![slot_packet(slot)]
    } else {
        Seq::empty()
    }
}

/// What a flush sends, when the slots of the TX ring hold `slots`.
pub open spec fn flushed(run: TxRun, slots: Seq<Seq<u8>>) -> Seq<Seq<u8>>
    decreases ahead(run.head, run.tail),
{
    if run.active() {
        sent_from(slots[(run.tail % 16) as int]) + flushed(run.after(), slots)
    } else {
        Seq::empty()
    }
}

/// How a flush ends.
pub open spec fn flush_end(run: TxRun) -> TxRun
    decreases ahead(run.head, run.tail),
{
    if run.active() {
        flush_end(run.after())
    } else {
        run
    }
}

/// The packets of the `n` slots from ring position `tail` on, in ring order,
/// without the slots that hold none.
pub open spec fn pending_packets(slots: Seq<Seq<u8>>, tail: u32, n: nat) -> Seq<Seq<u8>>
    decreases n,
{
    if n == 0 {
        Seq::empty()
    } else {
        pending_packets(slots, tail, (n - 1) as nat) + sent_from(slots[(tail + n - 1) % 16])
    }
}

/// A flush sends every pending packet, in ring order, returns how many slots
/// were pending, and leaves nothing for a second flush to send.
pub proof fn law_flush_sends_pending_packets(head: u32, tail: u32, slots: Seq<Seq<u8>>)
    requires
        slots.len() == RING_SIZE,
    ensures
        ({
            let run = TxRun { head, tail, sent: 0 };
            let end = flush_end(run);
            &&& flushed(run, slots) == pending_packets(slots, tail, ahead(head, tail) as nat)
            &&& end.sent == ahead(head, tail)
            &&& end.tail == head
            &&& flushed((TxRun { head, tail: end.tail, sent: 0 }), slots) == Seq::<
                Seq<u8>,
            >::empty()
        }),
{
    let run = TxRun { head, tail, sent: 0 };
    let n = ahead(head, tail) as nat;
    lemma_flush_progress(head, tail, slots, n);
    law_flush_consumes_pending_slots(head, tail, n);
    let last = after_slots(run, n);
    assert(!last.active());
    assert(flush_end(last) == last);
    assert(flushed(last, slots) == Seq::<Seq<u8>>::empty());
    assert(flushed(run, slots) =~= pending_packets(slots, tail, n));
    let again = TxRun { head, tail: head, sent: 0 };
    assert(!again.active());
    assert(flushed(again, slots) == Seq::<Seq<u8>>::empty());
}

/// What a flush has sent after `k` slots, and what it goes on to send.
proof fn lemma_flush_progress(head: u32, tail: u32, slots: Seq<Seq<u8>>, k: nat)
    requires
        k <= ahead(head, tail),
    ensures
        ({
            let run = TxRun { head, tail, sent: 0 };
            let now = after_slots(run, k);
            &&& flushed(run, slots) == pending_packets(slots, tail, k) + flushed(now, slots)
            &&& flush_end(run) == flush_end(now)
        }),
    decreases k,
{
    let run = TxRun { head, tail, sent: 0 };
    let now = after_slots(run, k);
    if k == 0 {
        assert(now == run);
        assert(pending_packets(slots, tail, 0) + flushed(now, slots) =~= flushed(now, slots));
    } else {
        let j = (k - 1) as nat;
        let prev = after_slots(run, j);
        lemma_flush_progress(head, tail, slots, j);
        law_flush_consumes_pending_slots(head, tail, j);
        assert(prev.active());
        assert(now == prev.after());
        assert(prev.tail % 16 == (tail + k - 1) % 16);
        let item = sent_from(slots[(prev.tail % 16) as int]);
        assert(flushed(prev, slots) == item + flushed(now, slots));
        assert(pending_packets(slots, tail, k) == pending_packets(slots, tail, j) + item);
        assert(pending_packets(slots, tail, j) + (item + flushed(now, slots)) =~= (
        pending_packets(slots, tail, j) + item) + flushed(now, slots));
    }
}

// ---------------------------------------------------------------------------
// RX poll (blocking)
// ---------------------------------------------------------------------------

/// A blocking receive in progress.
#[derive(Clone, Copy, PartialEq, Eq, Structural)]
pub struct RxRun {
    /// The ring position being filled.
    pub head: u32,
}

/// What a blocking receive does next.
pub enum RxStep {
    /// Wait for the next frame.
    Wait,
    /// Send this ARP reply, then wait for the next frame.
    Reply(Vec<u8>),
    /// Store `head` in the header and return the frame's length.
    Done { head: u32, ret: isize },
}

/// The mathematical content of a step.
pub enum RxStepView {
    Wait,
    Reply(Seq<u8>),
    Done { head: u32, ret: isize },
}

impl View for RxStep {
    type V = RxStepView;

    open spec fn view(&self) -> RxStepView {
        match self {
            RxStep::Wait => RxStepView::Wait,
            RxStep::Reply(reply) => RxStepView::Reply(reply@),
            RxStep::Done { head, ret } => RxStepView::Done { head: *head, ret: *ret },
        }
    }
}

/// Whether a frame is an ARP packet.
pub open spec fn is_arp(d: Seq<u8>) -> bool {
    d.len() >= 14 && parse::ethertype(d) == frame::ETHERTYPE_ARP
}

/// Whether a frame is an ARP request for `ip`.
pub open spec fn is_arp_request_for(d: Seq<u8>, ip: Seq<u8>) -> bool {
    is_arp(d) && d.len() >= 42 && parse::arp_of(d).operation == frame::ARP_REQUEST
        && parse::arp_of(d).target_ip == ip
}

/// Whether a frame is handed to the user: there is one, and it is not ARP.
pub open spec fn is_delivered(d: Seq<u8>) -> bool {
    d.len() > 0 && !is_arp(d)
}

/// The slot once the `n` bytes behind its prefix are a received packet.
pub open spec fn completed(slot: Seq<u8>, n: int) -> Seq<u8> {
    slot.update(0, (n % 256) as u8).update(1, (n / 256) as u8)
}

impl RxRun {
    /// What a receive does about the frame `d`, at the host with the given
    /// addresses.
    pub open spec fn step(self, ip: Seq<u8>, mac: Seq<u8>, d: Seq<u8>) -> RxStepView {
        if is_delivered(d) {
            RxStepView::Done { head: succ(self.head), ret: d.len() as isize }
        } else if is_arp_request_for(d, ip) {
            RxStepView::Reply(
                frame::arp_reply(
                    mac,
                    ip,
                    parse::arp_of(d).sender_mac,
                    parse::arp_of(d).sender_ip,
                ),
            )
        } else {
            RxStepView::Wait
        }
    }

    /// Starts a receive into the next free slot of the RX ring.
    pub fn begin(header: &Option<NetBypassHeader>) -> (r: Result<RxRun, isize>)
        ensures
            r == match header {
                None => Err::<RxRun, isize>(ERR_NOT_SET_UP),
                Some(h) => if ahead(h.rx_head, h.rx_tail) >= RING_SIZE {
                    Err(ERR_RX_FULL)
                } else {
                    Ok(RxRun { head: h.rx_head })
                },
            },
            header is None ==> r is Err && r->Err_0 == -1,
            header matches Some(h) ==> if (h.rx_head - h.rx_tail) % 0x1_0000_0000 >= 16 {
                r is Err && r->Err_0 == -2
            } else {
                r == Ok::<RxRun, isize>((RxRun { head: h.rx_head }))
            },
    {
        match header {
            None => Err(ERR_NOT_SET_UP),
            Some(h) => {
                if distance(h.rx_head, h.rx_tail) >= 16 {
                    Err(ERR_RX_FULL)
                } else {
                    Ok(RxRun { head: h.rx_head })
                }
            },
        }
    }

    /// The slot that the device fills, behind its length prefix.
    pub fn slot(&self) -> (r: usize)
        ensures
            r == self.head % 16,
    {
        (self.head % 16) as usize
    }
}

/// Looks at the `len` bytes that the device put behind the prefix of `slot`.
///
/// ARP requests for us are answered, other ARP frames are dropped, and an
/// empty result means that the device had no frame yet: all of these wait on.
/// Any other frame completes the slot and ends the receive.
pub fn bypass_rx(config: &NetConfig, run: &RxRun, slot: &mut [u8], len: usize) -> (r: RxStep)
    requires
        old(slot)@.len() == SLOT_SIZE,
        len <= MAX_PACKET,
    ensures
        ({
            let d = old(slot)@.subrange(2, 2 + len);
            &&& r@ == run.step(config.ip@, config.mac@, d)
            &&& final(slot)@ == if is_delivered(d) {
                completed(old(slot)@, len as int)
            } else {
                old(slot)@
            }
            &&& is_delivered(d) ==> slot_len(final(slot)@) == len && slot_packet(final(slot)@) == d
        }),
        len > 0 && !(len >= 14 && old(slot)@[14] == 8 && old(slot)@[15] == 6) ==> {
            &&& r@ == (RxStepView::Done {
                head: ((run.head + 1) % 0x1_0000_0000) as u32,
                ret: len as isize,
            })
            &&& final(slot)@[0] + 256 * final(slot)@[1] == len
            &&& final(slot)@.skip(2) == old(slot)@.skip(2)
        },
        len == 0 || (len >= 14 && old(slot)@[14] == 8 && old(slot)@[15] == 6) ==> !(r is Done)
            && final(slot)@ == old(slot)@,
{
    let ghost d = slot@.subrange(2, 2 + len);
    if len == 0 {
        return RxStep::Wait;
    }
    if len >= 14 && bytes::join_be16(slot[14], slot[15]) == frame::ETHERTYPE_ARP {
        if len >= 42 && bytes::join_be16(slot[22], slot[23]) == frame::ARP_REQUEST {
            let target_ip = IPv4([slot[40], slot[41], slot[42], slot[43]]);
            assert(target_ip@ =~= parse::arp_of(d).target_ip);
            if target_ip == config.ip {
                let sender_mac = MacAddress(
                    [slot[24], slot[25], slot[26], slot[27], slot[28], slot[29]],
                );
                let sender_ip = IPv4([slot[30], slot[31], slot[32], slot[33]]);
                assert(sender_mac@ =~= parse::arp_of(d).sender_mac);
                assert(sender_ip@ =~= parse::arp_of(d).sender_ip);
                let reply = frame::build_arp_reply(
                    &config.mac,
                    &config.ip,
                    &sender_mac,
                    &sender_ip,
                );
                return RxStep::Reply(reply);
            }
        }
        return RxStep::Wait;
    }
    slot[0] = (len % 256) as u8;
    slot[1] = (len / 256) as u8;
    assert(slot_packet(slot@) =~= d);
    assert(slot@.skip(2) =~= old(slot)@.skip(2));
    RxStep::Done { head: next_index(run.head), ret: len as isize }
}

/// How a receive goes on when the device returns the frames `frames` one by one:
/// the replies it sends, and the frame that ends it, with its last step.
pub open spec fn receive(run: RxRun, ip: Seq<u8>, mac: Seq<u8>, frames: Seq<Seq<u8>>) -> (
    Seq<Seq<u8>>,
    Option<(int, RxStepView)>,
)
    decreases frames.len(),
{
    if frames.len() == 0 {
        (Seq::empty(), None)
    } else {
        let step = run.step(ip, mac, frames.last());
        let (replies, end) = receive(run, ip, mac, frames.drop_last());
        if end is Some {
            (replies, end)
        } else {
            match step {
                RxStepView::Wait => (replies, None),
                RxStepView::Reply(reply) => (replies.push(reply), None),
                RxStepView::Done { .. } => (replies, Some((frames.len() - 1, step))),
            }
        }
    }
}

/// The replies to those frames that are ARP requests for us, in order.
pub open spec fn arp_replies(ip: Seq<u8>, mac: Seq<u8>, frames: Seq<Seq<u8>>) -> Seq<Seq<u8>>
    decreases frames.len(),
{
    if frames.len() == 0 {
        Seq::empty()
    } else {
        let d = frames.last();
        let before = arp_replies(ip, mac, frames.drop_last());
        if is_arp_request_for(d, ip) {
            before.push(
                frame::arp_reply(
                    mac,
                    ip,
                    parse::arp_of(d).sender_mac,
                    parse::arp_of(d).sender_ip,
                ),
            )
        } else {
            before
        }
    }
}

/// A receive ends at the first frame that is not empty and not ARP, with that
/// frame in the slot; before it, exactly the requests for us were answered.
/// Without such a frame it goes on.
pub proof fn law_receive_ends_at_first_other_frame(
    run: RxRun,
    ip: Seq<u8>,
    mac: Seq<u8>,
    frames: Seq<Seq<u8>>,
    i: int,
    slot: Seq<u8>,
)
    requires
        0 <= i <= frames.len(),
        forall|j: int| 0 <= j < i ==> !is_delivered(#[trigger] frames[j]),
        i < frames.len() ==> is_delivered(frames[i]) && frames[i].len() <= MAX_PACKET,
        slot.len() == SLOT_SIZE,
    ensures
        receive(run, ip, mac, frames) == if i < frames.len() {
            (
                arp_replies(ip, mac, frames.take(i)),
                Some(
                    (
                        i,
                        RxStepView::Done {
                            head: succ(run.head),
                            ret: frames[i].len() as isize,
                        },
                    ),
                ),
            )
        } else {
            (arp_replies(ip, mac, frames), None)
        },
        i < frames.len() ==> {
            let d = frames[i];
            let after = completed(
                slot.take(2) + d + slot.skip(2 + d.len() as int),
                d.len() as int,
            );
            slot_len(after) == d.len() && slot_packet(after) == d
        },
    decreases frames.len(),
{
    if i < frames.len() {
        let d = frames[i];
        let n = d.len() as int;
        let after = completed(slot.take(2) + d + slot.skip(2 + n), n);
        assert(after[0] == n % 256 && after[1] == n / 256);
        assert(slot_packet(after) =~= d);
    }
    if frames.len() > 0 {
        let shorter = frames.drop_last();
        assert forall|j: int| 0 <= j < i && j < shorter.len() implies !is_delivered(
            #[trigger] shorter[j],
        ) by {
            assert(shorter[j] == frames[j]);
        }
        if i == frames.len() {
            law_receive_ends_at_first_other_frame(run, ip, mac, shorter, i - 1, slot);
            assert(!is_delivered(frames[i - 1]));
        } else {
            law_receive_ends_at_first_other_frame(run, ip, mac, shorter, i, slot);
            if i == shorter.len() {
                assert(frames.take(i) =~= shorter);
            } else {
                assert(shorter.take(i) =~= frames.take(i));
            }
        }
    }
}

// ---------------------------------------------------------------------------
// Properties of the layout
// ---------------------------------------------------------------------------

/// Every slot, and the header, lies within one page of the region.
pub proof fn law_slots_do_not_cross_pages(index: int)
    requires
        0 <= index < RING_SIZE,
    ensures
        tx_slot_offset(index) / (PAGE_SIZE as int) == (tx_slot_offset(index) + SLOT_SIZE - 1) / (
        PAGE_SIZE as int),
        rx_slot_offset(index) / (PAGE_SIZE as int) == (rx_slot_offset(index) + SLOT_SIZE - 1) / (
        PAGE_SIZE as int),
        tx_slot_offset(index) + SLOT_SIZE <= RX_OFFSET,
        rx_slot_offset(index) + SLOT_SIZE <= NUM_PAGES * PAGE_SIZE,
{
}

/// In kernel memory every slot lies within its page, and neither two slots nor a
/// slot and the header page share a byte.
pub proof fn law_slots_are_apart(p: RingPtrs, frames: Seq<usize>)
    requires
        region_pages(frames),
        p.locate(frames),
    ensures
        p.hdr == frames[0] * PAGE_SIZE,
        p.within_pages(frames),
        p.apart(),
{
    assert forall|k: int| 0 <= k < 2 * RING_SIZE implies (#[trigger] p.slot(k)) == frames[1 + k / 2]
        * PAGE_SIZE + k % 2 * SLOT_SIZE by {
        lemma_slot_address(p, frames, k);
    }
    assert forall|j: int, k: int| 0 <= j < k < 2 * RING_SIZE implies (#[trigger] p.slot(j))
        + SLOT_SIZE <= #[trigger] p.slot(k) || p.slot(k) + SLOT_SIZE <= p.slot(j) by {
        if j / 2 != k / 2 {
            assert(frames[1 + j / 2] != frames[1 + k / 2]);
        }
    }
    assert forall|k: int| 0 <= k < 2 * RING_SIZE implies (#[trigger] p.slot(k)) + SLOT_SIZE <= p.hdr
        || p.hdr + PAGE_SIZE <= p.slot(k) by {
        assert(frames[0] != frames[1 + k / 2]);
    }
}

/// Where a slot is: two to a page, behind the header page.
proof fn lemma_slot_address(p: RingPtrs, frames: Seq<usize>, k: int)
    requires
        p.locate(frames),
        0 <= k < 2 * RING_SIZE,
    ensures
        p.slot(k) == frames[1 + k / 2] * PAGE_SIZE + k % 2 * SLOT_SIZE,
{
    let offset = TX_OFFSET + k * SLOT_SIZE;
    assert(offset / (PAGE_SIZE as int) == 1 + k / 2);
    assert(offset % (PAGE_SIZE as int) == k % 2 * SLOT_SIZE);
    if k < RING_SIZE {
        assert(p.tx@[k] == kernel_addr(frames, tx_slot_offset(k)));
    } else {
        assert(p.rx@[k - RING_SIZE] == kernel_addr(frames, rx_slot_offset(k - RING_SIZE)));
        assert(rx_slot_offset(k - RING_SIZE) == offset);
    }
}

/// The pages stay where they are once they were allocated, so every snapshot
/// gives the same addresses.
pub proof fn law_ring_addresses_are_pinned(p: RingPtrs, q: RingPtrs, frames: Seq<usize>)
    requires
        p.locate(frames),
        q.locate(frames),
    ensures
        p.hdr == q.hdr,
        p.tx@ == q.tx@,
        p.rx@ == q.rx@,
{
    assert forall|i: int| 0 <= i < RING_SIZE implies p.tx@[i] == q.tx@[i] by {
        assert(p.tx@[i] == kernel_addr(frames, tx_slot_offset(i)));
        assert(q.tx@[i] == kernel_addr(frames, tx_slot_offset(i)));
    }
    assert forall|i: int| 0 <= i < RING_SIZE implies p.rx@[i] == q.rx@[i] by {
        assert(p.rx@[i] == kernel_addr(frames, rx_slot_offset(i)));
        assert(q.rx@[i] == kernel_addr(frames, rx_slot_offset(i)));
    }
    assert(p.tx@ =~= q.tx@);
    assert(p.rx@ =~= q.rx@);
}

/// A process that has the region mapped finds the byte at region offset
/// `offset` where the kernel finds it: the page that its virtual address falls
/// into is the one whose physical address the kernel uses.
pub proof fn law_user_and_kernel_see_the_same_byte(frames: Seq<usize>, offset: int)
    requires
        region_pages(frames),
        0 <= offset < NUM_PAGES * PAGE_SIZE,
    ensures
        ({
            let page = (BYPASS_VADDR + offset) / (PAGE_SIZE as int) - BYPASS_VADDR as int / (
            PAGE_SIZE as int);
            &&& 0 <= page < NUM_PAGES
            &&& frames[page] * PAGE_SIZE + (BYPASS_VADDR + offset) % (PAGE_SIZE as int)
                == kernel_addr(frames, offset)
        }),
{
}

/// A setup that succeeds leaves every page of the region mapped as it should
/// be: it was already, or the plan maps it.
pub proof fn law_setup_maps_every_page(
    frames: Seq<usize>,
    entries: Seq<Option<PageEntry>>,
    i: int,
)
    requires
        frames.len() == NUM_PAGES,
        entries.len() == NUM_PAGES,
        first_conflict(frames, entries, 0) == NUM_PAGES,
        0 <= i < NUM_PAGES,
    ensures
        (entries[i] matches Some(e) && e.valid && e.ppn == frames[i]) || mappings(
            frames,
            entries,
            NUM_PAGES as int,
        ).contains(PageMapping::of_page(i, frames[i])),
{
    lemma_no_conflict_before(frames, entries, 0, i);
    if unmapped(entries, i) {
        lemma_mapping_listed(frames, entries, i, NUM_PAGES as int);
    }
}

/// A process that has none of the pages gets all of them, in order, readable and
/// writable for the user.
pub proof fn law_first_setup_maps_the_region(
    frames: Seq<usize>,
    entries: Seq<Option<PageEntry>>,
)
    requires
        frames.len() == NUM_PAGES,
        entries.len() == NUM_PAGES,
        forall|i: int| 0 <= i < NUM_PAGES ==> #[trigger] unmapped(entries, i),
    ensures
        first_conflict(frames, entries, 0) == NUM_PAGES,
        mappings(frames, entries, NUM_PAGES as int) == Seq::new(
            NUM_PAGES as nat,
            |i: int| PageMapping::of_page(i, frames[i]),
        ),
{
    lemma_no_conflict_unmapped(frames, entries, 0);
    lemma_all_mapped(frames, entries, NUM_PAGES as int);
}

/// No page conflicts where none is mapped.
proof fn lemma_no_conflict_unmapped(
    frames: Seq<usize>,
    entries: Seq<Option<PageEntry>>,
    k: int,
)
    requires
        0 <= k <= NUM_PAGES,
        forall|i: int| 0 <= i < NUM_PAGES ==> #[trigger] unmapped(entries, i),
    ensures
        first_conflict(frames, entries, k) == NUM_PAGES,
    decreases NUM_PAGES - k,
{
    if k < NUM_PAGES {
        assert(unmapped(entries, k));
        lemma_no_conflict_unmapped(frames, entries, k + 1);
    }
}

/// Every page needs mapping where none is mapped.
proof fn lemma_all_mapped(frames: Seq<usize>, entries: Seq<Option<PageEntry>>, k: int)
    requires
        0 <= k <= NUM_PAGES,
        forall|i: int| 0 <= i < NUM_PAGES ==> #[trigger] unmapped(entries, i),
    ensures
        mappings(frames, entries, k) == Seq::new(
            k as nat,
            |i: int| PageMapping::of_page(i, frames[i]),
        ),
    decreases k,
{
    if k > 0 {
        lemma_all_mapped(frames, entries, k - 1);
        assert(unmapped(entries, k - 1));
    }
    assert(mappings(frames, entries, k) =~= Seq::new(
        k as nat,
        |i: int| PageMapping::of_page(i, frames[i]),
    ));
}

/// No page before the first conflict conflicts.
proof fn lemma_no_conflict_before(
    frames: Seq<usize>,
    entries: Seq<Option<PageEntry>>,
    from: int,
    i: int,
)
    requires
        0 <= from <= i < NUM_PAGES,
        i < first_conflict(frames, entries, from),
    ensures
        !conflict(frames, entries, i),
    decreases i - from,
{
    if from < i {
        lemma_no_conflict_before(frames, entries, from + 1, i);
    }
}

/// An unmapped page is among the mappings.
proof fn lemma_mapping_listed(
    frames: Seq<usize>,
    entries: Seq<Option<PageEntry>>,
    i: int,
    k: int,
)
    requires
        0 <= i < k,
        unmapped(entries, i),
    ensures
        mappings(frames, entries, k).contains(PageMapping::of_page(i, frames[i])),
    decreases k,
{
    let m = mappings(frames, entries, k);
    let item = PageMapping::of_page(i, frames[i]);
    if i == k - 1 {
        assert(m[m.len() - 1] == item);
    } else {
        lemma_mapping_listed(frames, entries, i, k - 1);
        let shorter = mappings(frames, entries, k - 1);
        let j = choose|j: int| 0 <= j < shorter.len() && shorter[j] == item;
        assert(m[j] == item);
    }
}

/// A process that repeats the setup has nothing left to map, and gets the same
/// address.
pub proof fn law_setup_is_repeatable(frames: Seq<usize>, entries: Seq<Option<PageEntry>>)
    requires
        frames.len() == NUM_PAGES,
        entries.len() == NUM_PAGES,
        forall|i: int|
            0 <= i < NUM_PAGES ==> (#[trigger] entries[i]) == Some(
                PageEntry { valid: true, ppn: frames[i] },
            ),
    ensures
        first_conflict(frames, entries, 0) == NUM_PAGES,
        mappings(frames, entries, NUM_PAGES as int) == Seq::<PageMapping>::empty(),
{
    lemma_nothing_conflicts(frames, entries, 0);
    lemma_nothing_to_map(frames, entries, NUM_PAGES as int);
}

/// No page conflicts where all are mapped as they should be.
proof fn lemma_nothing_conflicts(frames: Seq<usize>, entries: Seq<Option<PageEntry>>, k: int)
    requires
        0 <= k <= NUM_PAGES,
        forall|i: int|
            0 <= i < NUM_PAGES ==> (#[trigger] entries[i]) == Some(
                PageEntry { valid: true, ppn: frames[i] },
            ),
    ensures
        first_conflict(frames, entries, k) == NUM_PAGES,
    decreases NUM_PAGES - k,
{
    if k < NUM_PAGES {
        lemma_nothing_conflicts(frames, entries, k + 1);
    }
}

/// No page needs mapping where all are mapped.
proof fn lemma_nothing_to_map(frames: Seq<usize>, entries: Seq<Option<PageEntry>>, k: int)
    requires
        0 <= k <= NUM_PAGES,
        forall|i: int|
            0 <= i < NUM_PAGES ==> (#[trigger] entries[i]) == Some(
                PageEntry { valid: true, ppn: frames[i] },
            ),
    ensures
        mappings(frames, entries, k) == Seq::<PageMapping>::empty(),
    decreases k,
{
    if k > 0 {
        lemma_nothing_to_map(frames, entries, k - 1);
    }
}

/// Both rings of a region are empty when it is taken into use, the first time
/// and every later time: all four ring positions are zero. Nothing else of the
/// header changes on a later setup.
pub proof fn law_setup_empties_both_rings(h: NetBypassHeader, config: NetConfig)
    ensures
        ({
            let r = h.with_empty_rings();
            &&& r.tx_head == 0 && r.tx_tail == 0 && r.rx_head == 0 && r.rx_tail == 0
            &&& ahead(r.tx_head, r.tx_tail) == 0 && ahead(r.rx_head, r.rx_tail) == 0
            &&& r.ring_size == h.ring_size && r.slot_size == h.slot_size
            &&& r.tx_offset == h.tx_offset && r.rx_offset == h.rx_offset
            &&& r.local_mac == h.local_mac && r._pad == h._pad && r.local_ip == h.local_ip
        }),
        h.is_initial(config) <==> {
            &&& h.tx_head == 0 && h.tx_tail == 0 && h.rx_head == 0 && h.rx_tail == 0
            &&& h.ring_size == 16 && h.slot_size == 2048
            &&& h.tx_offset == 4096 && h.rx_offset == 36864
            &&& h.local_mac@ == config.mac@ && h.local_ip@ == config.ip@
            &&& h._pad@ == seq![0u8, 0]
        },
        h.is_initial(config) ==> ahead(h.tx_head, h.tx_tail) == 0 && ahead(h.rx_head, h.rx_tail)
            == 0,
{
}

/// Every frame that is not empty and whose EtherType is not 0x0806 ends a
/// receive, whatever its length: the ring position moves on by one, the call
/// returns the length, and the slot holds the length, least significant byte
/// first, with the frame behind it.
pub proof fn law_every_other_frame_ends_the_receive(
    run: RxRun,
    ip: Seq<u8>,
    mac: Seq<u8>,
    slot: Seq<u8>,
    d: Seq<u8>,
)
    requires
        slot.len() == 2048,
        0 < d.len() <= 2046,
        d == slot.subrange(2, 2 + d.len() as int),
        !(d.len() >= 14 && d[12] == 8 && d[13] == 6),
    ensures
        run.step(ip, mac, d) == (RxStepView::Done {
            head: ((run.head + 1) % 0x1_0000_0000) as u32,
            ret: d.len() as isize,
        }),
        ({
            let after = completed(slot, d.len() as int);
            &&& after.len() == 2048
            &&& after[0] + 256 * after[1] == d.len()
            &&& after.subrange(2, 2 + d.len() as int) == d
            &&& after.skip(2) == slot.skip(2)
        }),
{
    let after = completed(slot, d.len() as int);
    assert(after.subrange(2, 2 + d.len() as int) =~= d);
    assert(after.skip(2) =~= slot.skip(2));
}

/// Every UDP frame that fits a slot is handed to the user whole.
pub proof fn law_udp_frames_end_the_receive(
    run: RxRun,
    ip: Seq<u8>,
    mac: Seq<u8>,
    src_mac: Seq<u8>,
    dst_mac: Seq<u8>,
    src_ip: Seq<u8>,
    dst_ip: Seq<u8>,
    src_port: u16,
    dst_port: u16,
    payload: Seq<u8>,
)
    requires
        src_mac.len() == 6,
        dst_mac.len() == 6,
        src_ip.len() == 4,
        dst_ip.len() == 4,
        payload.len() <= 2004,
    ensures
        run.step(
            ip,
            mac,
            frame::udp_frame(src_mac, dst_mac, src_ip, dst_ip, src_port, dst_port, payload),
        ) == (RxStepView::Done {
            head: ((run.head + 1) % 0x1_0000_0000) as u32,
            ret: (42 + payload.len()) as isize,
        }),
{
    let d = frame::udp_frame(src_mac, dst_mac, src_ip, dst_ip, src_port, dst_port, payload);
    frame::law_udp_frame_layout(
        src_mac,
        dst_mac,
        src_ip,
        dst_ip,
        src_port,
        dst_port,
        payload,
    );
    lemma_other_frame_step(run, ip, mac, d);
}

/// What a receive does about a frame that is not ARP.
proof fn lemma_other_frame_step(run: RxRun, ip: Seq<u8>, mac: Seq<u8>, d: Seq<u8>)
    requires
        d.len() > 0,
        !(d.len() >= 14 && d[12] == 8 && d[13] == 6),
    ensures
        run.step(ip, mac, d) == (RxStepView::Done {
            head: ((run.head + 1) % 0x1_0000_0000) as u32,
            ret: d.len() as isize,
        }),
{
}

/// A frame with EtherType 0x0806 and an empty one never end a receive. A whole
/// ARP request for our address is answered with our hardware address; every
/// other one waits on.
pub proof fn law_arp_frames_never_end_the_receive(
    run: RxRun,
    ip: Seq<u8>,
    mac: Seq<u8>,
    d: Seq<u8>,
)
    requires
        ip.len() == 4,
        mac.len() == 6,
        d.len() == 0 || (d.len() >= 14 && d[12] == 8 && d[13] == 6),
    ensures
        d.len() >= 42 && d[20] == 0 && d[21] == 1 && d.subrange(38, 42) == ip ==> (run.step(
            ip,
            mac,
            d,
        ) matches RxStepView::Reply(r) && {
            &&& r.len() == 42
            &&& r.subrange(0, 6) == d.subrange(22, 28)
            &&& r.subrange(6, 12) == mac
            &&& r.subrange(12, 22) == seq![0x08u8, 0x06, 0, 1, 0x08, 0x00, 6, 4, 0, 2]
            &&& r.subrange(22, 28) == mac
            &&& r.subrange(28, 32) == ip
            &&& r.subrange(32, 38) == d.subrange(22, 28)
            &&& r.subrange(38, 42) == d.subrange(28, 32)
        }),
        !(d.len() >= 42 && d[20] == 0 && d[21] == 1 && d.subrange(38, 42) == ip) ==> run.step(
            ip,
            mac,
            d,
        ) == RxStepView::Wait,
{
    if d.len() >= 42 {
        frame::law_arp_reply_layout(mac, ip, d.subrange(22, 28), d.subrange(28, 32));
    }
}

/// A slot of the TX ring holds a packet just where its prefix, least significant
/// byte first, is a length from 1 to 2046, and the packet is that many bytes
/// behind the prefix.
pub proof fn law_slot_holds_a_packet(slot: Seq<u8>)
    requires
        slot.len() == 2048,
    ensures
        slot_len(slot) == slot[0] + 256 * slot[1],
        sendable(slot) <==> 1 <= slot[0] + 256 * slot[1] <= 2046,
        sendable(slot) ==> {
            &&& slot_packet(slot).len() == slot[0] + 256 * slot[1]
            &&& forall|i: int|
                0 <= i < slot_packet(slot).len() ==> slot_packet(slot)[i] == #[trigger] slot[2 + i]
        },
        sendable(slot) ==> sent_from(slot).len() == 1 && sent_from(slot)[0] == slot_packet(slot),
        !sendable(slot) ==> sent_from(slot).len() == 0,
{
}

/// Ring positions count up by one and wrap at 32 bits, and the distance of two
/// is how often the tail must count up to reach the head.
pub proof fn law_ring_positions_wrap(n: u32, head: u32, tail: u32)
    ensures
        n < 0xffff_ffff ==> succ(n) == n + 1,
        n == 0xffff_ffff ==> succ(n) == 0,
        0 <= ahead(head, tail) < 0x1_0000_0000,
        (tail + ahead(head, tail)) % 0x1_0000_0000 == head,
        head == tail <==> ahead(head, tail) == 0,
        head != tail ==> ahead(head, succ(tail)) == ahead(head, tail) - 1,
{
    if head >= tail {
        assert(ahead(head, tail) == head - tail);
    } else {
        assert(ahead(head, tail) == head - tail + 0x1_0000_0000);
    }
}

/// The addresses of a located region: the header at the start of its first page,
/// two TX slots in each of the next eight pages, two RX slots in each of the
/// eight after them.
pub proof fn law_slot_addresses(p: RingPtrs, frames: Seq<usize>, i: int)
    requires
        p.locate(frames),
        0 <= i < 16,
    ensures
        p.hdr == frames[0] * 4096,
        p.tx@[i] == frames[1 + i / 2] * 4096 + i % 2 * 2048,
        p.rx@[i] == frames[9 + i / 2] * 4096 + i % 2 * 2048,
{
    assert(p.tx@[i] == kernel_addr(frames, tx_slot_offset(i)));
    assert(p.rx@[i] == kernel_addr(frames, rx_slot_offset(i)));
}

/// A region is seventeen distinct pages whose bytes all have addresses.
pub proof fn law_region_pages(frames: Seq<usize>)
    ensures
        region_pages(frames) <==> {
            &&& frames.len() == 17
            &&& forall|i: int| 0 <= i < 17 ==> (#[trigger] frames[i] + 1) * 4096 <= usize::MAX
            &&& forall|i: int, j: int|
                0 <= i < j < 17 ==> (#[trigger] frames[i]) != (#[trigger] frames[j])
        },
{
    if region_pages(frames) {
        assert forall|i: int| 0 <= i < 17 implies (#[trigger] frames[i] + 1) * 4096
            <= usize::MAX by {
            assert(addressable(frames[i]));
        }
    }
}

/// A setup maps a page of the region at its fixed address, one page after
/// another from 0x2000_0000 on, readable and writable for the user and not
/// executable, just where the process has no valid entry there, and it stops in
/// front of the first page whose valid entry has another frame.
pub proof fn law_setup_maps_missing_pages(
    frames: Seq<usize>,
    entries: Seq<Option<PageEntry>>,
    k: int,
)
    requires
        0 <= k <= 17,
    ensures
        k == 0 ==> mappings(frames, entries, k).len() == 0,
        k > 0 && (entries[k - 1] matches Some(e) && e.valid) ==> mappings(frames, entries, k)
            == mappings(frames, entries, k - 1),
        k > 0 && !(entries[k - 1] matches Some(e) && e.valid) ==> mappings(frames, entries, k)
            == mappings(frames, entries, k - 1).push(
            (PageMapping {
                vaddr: (0x2000_0000 + (k - 1) * 4096) as usize,
                ppn: frames[k - 1],
                permission: (PagePermission {
                    read: true,
                    write: true,
                    execute: false,
                    user: true,
                }),
            }),
        ),
        ({
            let stop = first_conflict(frames, entries, 0);
            &&& 0 <= stop <= 17
            &&& stop < 17 ==> (entries[stop] matches Some(e) && e.valid && e.ppn != frames[stop])
            &&& k < stop ==> !(entries[k] matches Some(e) && e.valid && e.ppn != frames[k])
        }),
{
    lemma_first_conflict_from(frames, entries, 0, k);
}

/// Where the first conflict at or after page `i` is.
proof fn lemma_first_conflict_from(
    frames: Seq<usize>,
    entries: Seq<Option<PageEntry>>,
    i: int,
    k: int,
)
    requires
        0 <= i <= 17,
    ensures
        ({
            let stop = first_conflict(frames, entries, i);
            &&& i <= stop <= 17
            &&& stop < 17 ==> conflict(frames, entries, stop)
            &&& i <= k < stop ==> !conflict(frames, entries, k)
        }),
    decreases 17 - i,
{
    if i < 17 && !conflict(frames, entries, i) {
        lemma_first_conflict_from(frames, entries, i + 1, k);
    }
}

/// A step of a receive stands for what it holds.
pub proof fn law_step_fields(reply: Vec<u8>, head: u32, ret: isize)
    ensures
        RxStep::Wait@ == RxStepView::Wait,
        RxStep::Reply(reply)@ == RxStepView::Reply(reply@),
        (RxStep::Done { head, ret })@ == (RxStepView::Done { head, ret }),
{
}

/// A setup succeeds just where no page conflicts.
proof fn lemma_no_conflict(frames: Seq<usize>, entries: Seq<Option<PageEntry>>)
    ensures
        first_conflict(frames, entries, 0) == 17 <==> forall|i: int|
            0 <= i < 17 ==> !(#[trigger] entries[i] matches Some(e) && e.valid && e.ppn
                != frames[i]),
{
    let stop = first_conflict(frames, entries, 0);
    lemma_first_conflict_from(frames, entries, 0, 0);
    if stop == 17 {
        assert forall|i: int| 0 <= i < 17 implies !(#[trigger] entries[i] matches Some(e) && e.valid
            && e.ppn != frames[i]) by {
            lemma_first_conflict_from(frames, entries, 0, i);
        }
    } else {
        assert(entries[stop] matches Some(e) && e.valid && e.ppn != frames[stop]);
    }
}

} // verus!
