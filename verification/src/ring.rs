//! The user side of the shared rings: enqueueing frames in place, and releasing
//! received packets.

use vstd::prelude::*;

use crate::addr;
use crate::addr::{IPv4, MacAddress};
use crate::bypass;
use crate::bypass::NetBypassHeader;
use crate::bytes;
use crate::frame;

verus! {

/// The slot after its length prefix was set to `n`.
pub open spec fn with_prefix(slot: Seq<u8>, n: int) -> Seq<u8> {
    slot.update(0, (n % 256) as u8).update(1, (n / 256 % 256) as u8)
}

/// `s` with the bytes of `part` at `at`.
pub open spec fn patched(s: Seq<u8>, at: int, part: Seq<u8>) -> Seq<u8> {
    s.take(at) + part + s.skip(at + part.len())
}

/// Writes the bytes of `part` at `at` of `buf`.
pub fn write_at(buf: &mut [u8], at: usize, part: &[u8])
    requires
        at + part@.len() <= old(buf)@.len(),
    ensures
        final(buf)@ == patched(old(buf)@, at as int, part@),
        final(buf)@.len() == old(buf)@.len(),
{
    let ghost before = buf@;
    assert(buf.len() == before.len());
    let mut i: usize = 0;
    while i < part.len()
        invariant
            before.len() <= usize::MAX,
            i <= part@.len(),
            at + part@.len() <= before.len(),
            buf@ == patched(before, at as int, part@.take(i as int)),
            buf@.len() == before.len(),
        decreases part.len() - i,
    {
        buf[at + i] = part[i];
        i = i + 1;
        proof {
            assert(buf@ =~= patched(before, at as int, part@.take(i as int)));
        }
    }
    assert(part@.take(part@.len() as int) =~= part@);
    if part.len() == 0 {
        assert(buf@ =~= patched(before, at as int, part@));
    }
}

/// Acquire the next TX slot: its address, and the ring position to commit.
/// Returns `None` when the ring is full.
pub fn tx_slot_acquire(
    hdr: &NetBypassHeader,
    base: usize,
    tx_off: usize,
    slot_size: usize,
    ring_size: u32,
) -> (r: Option<(usize, u32)>)
    requires
        bypass::ahead(hdr.tx_head, hdr.tx_tail) < ring_size ==> base + tx_off + (hdr.tx_head as int
            % ring_size as int) * slot_size <= usize::MAX,
    ensures
        r == if bypass::ahead(hdr.tx_head, hdr.tx_tail) >= ring_size {
            None::<(usize, u32)>
        } else {
            Some(
                (
                    (base + tx_off + (hdr.tx_head as int % ring_size as int) * slot_size) as usize,
                    hdr.tx_head,
                ),
            )
        },
{
    if bypass::distance(hdr.tx_head, hdr.tx_tail) >= ring_size {
        return None;
    }
    let idx: usize = (hdr.tx_head % ring_size) as usize;
    assert(idx * slot_size >= 0) by (nonlinear_arith);
    Some((base + tx_off + idx * slot_size, hdr.tx_head))
}

/// Commit a TX slot after the caller has written frame data into it.
pub fn tx_slot_commit(hdr: &mut NetBypassHeader, slot: &mut [u8], frame_len: usize, tx_head: u32)
    requires
        old(slot)@.len() >= 2,
    ensures
        final(slot)@ == with_prefix(old(slot)@, frame_len as int),
        *final(hdr) == (NetBypassHeader { tx_head: bypass::succ(tx_head), ..*old(hdr) }),
{
    slot[0] = (frame_len % 256) as u8;
    slot[1] = (frame_len / 256 % 256) as u8;
    hdr.tx_head = bypass::next_index(tx_head);
}

/// Copies the first `frame_len` bytes of a frame into the next TX slot and
/// commits it; `tx` is the memory of the TX ring. Returns false when the ring
/// is full.
pub fn tx_enqueue(
    hdr: &mut NetBypassHeader,
    tx: &mut [u8],
    slot_size: usize,
    ring_size: u32,
    frame: &[u8],
    frame_len: usize,
) -> (r: bool)
    requires
        frame_len <= frame@.len(),
        bypass::ahead(old(hdr).tx_head, old(hdr).tx_tail) < ring_size ==> (old(
            hdr,
        ).tx_head as int % ring_size as int) * slot_size + 2 + frame_len <= old(tx)@.len(),
    ensures
        r == (bypass::ahead(old(hdr).tx_head, old(hdr).tx_tail) < ring_size),
        !r ==> *final(hdr) == *old(hdr) && final(tx)@ == old(tx)@,
        r ==> {
            let at = (old(hdr).tx_head as int % ring_size as int) * slot_size;
            &&& *final(hdr) == (NetBypassHeader {
                tx_head: bypass::succ(old(hdr).tx_head),
                ..*old(hdr)
            })
            &&& final(tx)@ == patched(
                old(tx)@,
                at,
                slot_content(frame@.take(frame_len as int)),
            )
        },
{
    let tx_head = hdr.tx_head;
    if bypass::distance(tx_head, hdr.tx_tail) >= ring_size {
        return false;
    }
    let idx: usize = (tx_head % ring_size) as usize;
    assert(0 <= idx * slot_size <= tx.len()) by {
        assert(idx * slot_size >= 0) by (nonlinear_arith);
    }
    let at: usize = idx * slot_size;
    let ghost before = tx@;
    tx[at] = (frame_len % 256) as u8;
    tx[at + 1] = (frame_len / 256 % 256) as u8;
    let body = bytes::slice_to_vec(frame, 0, frame_len);
    assert(body@ =~= frame@.take(frame_len as int));
    write_at(tx, at + 2, &body);
    assert(tx@ =~= patched(
        before,
        at as int,
        slot_content(frame@.take(frame_len as int)),
    ));
    hdr.tx_head = bypass::next_index(tx_head);
    true
}

/// What a slot holds once a frame was enqueued: its length, then the frame.
pub open spec fn slot_content(frame: Seq<u8>) -> Seq<u8> {
    seq![(frame.len() as int % 256) as u8, (frame.len() as int / 256 % 256) as u8] + frame
}

/// Where in the TX ring the frame `i` places after ring position `head` goes.
pub open spec fn slot_start(head: u32, i: int, ring_size: u32, slot_size: usize) -> int {
    ((head + i) % 0x1_0000_0000) % (ring_size as int) * slot_size
}

/// Whether `content` stands at `at` of `tx`.
pub open spec fn stands_at(tx: Seq<u8>, at: int, content: Seq<u8>) -> bool {
    tx.subrange(at, at + content.len()) == content
}

/// How many of `burst` frames the TX ring has room for.
pub open spec fn burst_room(hdr: NetBypassHeader, ring_size: u32, burst: int) -> int {
    let free = ring_size - bypass::ahead(hdr.tx_head, hdr.tx_tail);
    if free <= 0 {
        0
    } else if burst <= free {
        burst
    } else {
        free
    }
}

/// The header after `n` frames were enqueued.
pub open spec fn after_enqueued(hdr: NetBypassHeader, n: int) -> NetBypassHeader {
    NetBypassHeader { tx_head: ((hdr.tx_head + n) % 0x1_0000_0000) as u32, ..hdr }
}

/// How the ring stands while a burst is being enqueued.
pub(crate) proof fn lemma_burst_progress(
    hdr: NetBypassHeader,
    n: int,
    ring_size: u32,
    slot_size: usize,
    burst: int,
)
    requires
        ring_size > 0,
        0 <= n < burst,
        n <= burst_room(hdr, ring_size, burst),
    ensures
        ({
            let now = after_enqueued(hdr, n);
            &&& bypass::ahead(now.tx_head, now.tx_tail) < ring_size <==> n < burst_room(
                hdr,
                ring_size,
                burst,
            )
            &&& after_enqueued(hdr, n + 1) == (NetBypassHeader {
                tx_head: bypass::succ(now.tx_head),
                ..now
            })
            &&& slot_start(hdr.tx_head, n, ring_size, slot_size) == (now.tx_head as int
                % ring_size as int) * slot_size
        }),
{
    let now = after_enqueued(hdr, n);
    let start = bypass::ahead(hdr.tx_head, hdr.tx_tail);
    assert(start == if hdr.tx_head >= hdr.tx_tail {
        hdr.tx_head - hdr.tx_tail
    } else {
        hdr.tx_head - hdr.tx_tail + 0x1_0000_0000
    });
    if start < ring_size {
        assert(bypass::ahead(now.tx_head, now.tx_tail) == start + n);
    } else {
        assert(n == 0);
        assert(now.tx_head == hdr.tx_head);
    }
}

/// The TX ring after `n` frames with the slot content `content` were enqueued
/// from ring position `head` on.
pub open spec fn after_burst(
    tx: Seq<u8>,
    head: u32,
    n: nat,
    ring_size: u32,
    slot_size: usize,
    content: Seq<u8>,
) -> Seq<u8>
    decreases n,
{
    if n == 0 {
        tx
    } else {
        patched(
            after_burst(tx, head, (n - 1) as nat, ring_size, slot_size, content),
            slot_start(head, n - 1, ring_size, slot_size),
            content,
        )
    }
}

/// Slots lie within the ring, and different slots do not overlap.
pub(crate) proof fn lemma_slot_bounds(a: int, b: int, ring_size: u32, slot_size: usize)
    requires
        0 <= a < ring_size,
        0 <= b < ring_size,
    ensures
        0 <= a * slot_size,
        a * slot_size + slot_size <= ring_size * slot_size,
        a != b ==> a * slot_size + slot_size <= b * slot_size || b * slot_size + slot_size <= a
            * slot_size,
{
    assert(0 <= a * slot_size && a * slot_size + slot_size <= ring_size * slot_size)
        by (nonlinear_arith)
        requires
            0 <= a < ring_size,
            slot_size >= 0,
    ;
    if a != b {
        assert(a * slot_size + slot_size <= b * slot_size || b * slot_size + slot_size <= a
            * slot_size) by (nonlinear_arith)
            requires
                a != b,
                slot_size >= 0,
        ;
    }
}

/// Every frame of a burst stands in its own slot, and the ring keeps its size.
pub proof fn law_burst_frames_stand(
    tx: Seq<u8>,
    head: u32,
    n: nat,
    ring_size: u32,
    slot_size: usize,
    content: Seq<u8>,
)
    requires
        ring_size > 0,
        content.len() <= slot_size,
        ring_size * slot_size <= tx.len(),
    ensures
        after_burst(tx, head, n, ring_size, slot_size, content).len() == tx.len(),
        forall|i: int|
            0 <= i < n ==> stands_at(
                after_burst(tx, head, n, ring_size, slot_size, content),
                #[trigger] slot_start(head, i, ring_size, slot_size),
                content,
            ),
    decreases n,
{
    if n > 0 {
        law_burst_frames_stand(tx, head, (n - 1) as nat, ring_size, slot_size, content);
        let before = after_burst(tx, head, (n - 1) as nat, ring_size, slot_size, content);
        let after = after_burst(tx, head, n, ring_size, slot_size, content);
        let b = ((head + n - 1) % 0x1_0000_0000) % (ring_size as int);
        let at = slot_start(head, n - 1, ring_size, slot_size);
        assert(at == b * slot_size);
        lemma_slot_bounds(b, b, ring_size, slot_size);
        assert forall|i: int| 0 <= i < n implies stands_at(
            after,
            #[trigger] slot_start(head, i, ring_size, slot_size),
            content,
        ) by {
            let a = ((head + i) % 0x1_0000_0000) % (ring_size as int);
            let other = slot_start(head, i, ring_size, slot_size);
            assert(other == a * slot_size);
            lemma_slot_bounds(a, b, ring_size, slot_size);
            if a == b {
                assert(after.subrange(other, other + content.len()) =~= content);
            } else {
                assert(stands_at(before, other, content));
                assert(after.subrange(other, other + content.len()) =~= before.subrange(
                    other,
                    other + content.len(),
                ));
            }
        }
    }
}

/// The memory of the RX ring from its oldest filled slot on.
pub open spec fn oldest_slot(
    hdr: NetBypassHeader,
    rx: Seq<u8>,
    slot_size: usize,
    ring_size: u32,
) -> Seq<u8> {
    rx.skip((hdr.rx_tail as int % ring_size as int) * slot_size)
}

/// Whether the packet in the oldest filled slot lies within the RX ring.
pub open spec fn peekable(
    hdr: NetBypassHeader,
    rx: Seq<u8>,
    slot_size: usize,
    ring_size: u32,
) -> bool {
    let at = (hdr.rx_tail as int % ring_size as int) * slot_size;
    &&& ring_size > 0
    &&& at + 2 <= rx.len()
    &&& at + 2 + bypass::slot_len(oldest_slot(hdr, rx, slot_size, ring_size)) <= rx.len()
}

/// Tests whether the packet in the oldest filled slot lies within the RX ring.
pub fn can_peek(hdr: &NetBypassHeader, rx: &[u8], slot_size: usize, ring_size: u32) -> (r: bool)
    ensures
        r == peekable(*hdr, rx@, slot_size, ring_size),
{
    if ring_size == 0 {
        return false;
    }
    let idx: usize = (hdr.rx_tail % ring_size) as usize;
    assert(rx.len() == rx@.len());
    match idx.checked_mul(slot_size) {
        None => false,
        Some(at) => {
            if rx.len() < 2 || at > rx.len() - 2 {
                return false;
            }
            let len: usize = bytes::join_le16(rx[at], rx[at + 1]) as usize;
            len <= rx.len() - 2 - at
        },
    }
}

/// The packet in the oldest filled slot of the RX ring; `rx` is the memory of
/// the RX ring.
pub fn rx_peek<'a>(hdr: &NetBypassHeader, rx: &'a [u8], slot_size: usize, ring_size: u32) -> (r:
    &'a [u8])
    requires
        peekable(*hdr, rx@, slot_size, ring_size),
    ensures
        r@ == bypass::slot_packet(oldest_slot(*hdr, rx@, slot_size, ring_size)),
{
    let idx: usize = (hdr.rx_tail % ring_size) as usize;
    assert(rx.len() == rx@.len());
    assert(idx * slot_size >= 0) by (nonlinear_arith);
    let at: usize = idx * slot_size;
    let len: usize = bytes::join_le16(rx[at], rx[at + 1]) as usize;
    let r = &rx[at + 2..at + 2 + len];
    assert(r@ =~= bypass::slot_packet(rx@.skip(at as int)));
    r
}

/// Releases the oldest received packet.
pub fn rx_dequeue(hdr: &mut NetBypassHeader)
    ensures
        *final(hdr) == (NetBypassHeader { rx_tail: bypass::succ(old(hdr).rx_tail), ..*old(hdr) }),
{
    hdr.rx_tail = bypass::next_index(hdr.rx_tail);
}

/// The header bytes of a broadcast UDP frame.
pub open spec fn broadcast_header(
    src_mac: Seq<u8>,
    src_ip: Seq<u8>,
    src_port: u16,
    dst_ip: Seq<u8>,
    dst_port: u16,
    n: int,
) -> Seq<u8> {
    frame::udp_frame_header(
        src_mac,
        addr::broadcast_mac(),
        src_ip,
        dst_ip,
        src_port,
        dst_port,
        n,
    )
}

/// A broadcast UDP frame that carries `payload`.
pub open spec fn broadcast_frame(
    src_mac: Seq<u8>,
    src_ip: Seq<u8>,
    src_port: u16,
    dst_ip: Seq<u8>,
    dst_port: u16,
    payload: Seq<u8>,
) -> Seq<u8> {
    frame::udp_frame(
        src_mac,
        addr::broadcast_mac(),
        src_ip,
        dst_ip,
        src_port,
        dst_port,
        payload,
    )
}

/// Writes the 42 header bytes of a broadcast UDP frame to the start of `buf`.
pub fn write_broadcast_header(
    buf: &mut [u8],
    src_mac: &[u8; 6],
    src_ip: &[u8; 4],
    src_port: u16,
    dst_ip: &[u8; 4],
    dst_port: u16,
    payload_len: usize,
)
    requires
        old(buf)@.len() >= 42,
    ensures
        final(buf)@ == broadcast_header(
            src_mac@,
            src_ip@,
            src_port,
            dst_ip@,
            dst_port,
            payload_len as int,
        ) + old(buf)@.skip(42),
        broadcast_header(
            src_mac@,
            src_ip@,
            src_port,
            dst_ip@,
            dst_port,
            payload_len as int,
        ).len() == 42,
{
    let ghost before = buf@;
    let mut header: Vec<u8> = Vec::new();
    frame::push_udp_frame_header(
        &mut header,
        &MacAddress(*src_mac),
        &MacAddress::broadcast(),
        &IPv4(*src_ip),
        &IPv4(*dst_ip),
        src_port,
        dst_port,
        payload_len,
    );
    assert(header@ =~= broadcast_header(
        src_mac@,
        src_ip@,
        src_port,
        dst_ip@,
        dst_port,
        payload_len as int,
    ));
    write_at(buf, 0, &header);
    assert(buf@ =~= header@ + before.skip(42));
}

/// What the user commits is what the kernel sends: a slot that was filled with
/// a frame and committed holds a sendable packet, and that packet is the frame.
pub proof fn law_committed_frame_is_sent(slot: Seq<u8>, content: Seq<u8>)
    requires
        slot.len() == bypass::SLOT_SIZE,
        0 < content.len() <= bypass::MAX_PACKET,
        slot.subrange(2, 2 + content.len() as int) == content,
    ensures
        bypass::sendable(with_prefix(slot, content.len() as int)),
        bypass::slot_packet(with_prefix(slot, content.len() as int)) == content,
{
    let n = content.len() as int;
    let done = with_prefix(slot, n);
    assert(bypass::slot_len(done) == n);
    assert(bypass::slot_packet(done) =~= content);
}

/// What the user enqueues is what the kernel sends: the slot that the frame
/// was copied to holds a sendable packet, and that packet is the frame.
pub proof fn law_enqueued_frame_is_sent(tx: Seq<u8>, index: int, content: Seq<u8>)
    requires
        tx.len() == bypass::RING_SIZE * bypass::SLOT_SIZE,
        0 <= index < bypass::RING_SIZE,
        0 < content.len() <= bypass::MAX_PACKET,
    ensures
        ({
            let after = patched(tx, index * bypass::SLOT_SIZE, slot_content(content));
            let slot = after.subrange(
                index * bypass::SLOT_SIZE,
                index * bypass::SLOT_SIZE + bypass::SLOT_SIZE,
            );
            &&& bypass::sendable(slot)
            &&& bypass::slot_packet(slot) == content
        }),
{
    let n = content.len() as int;
    let at = index * bypass::SLOT_SIZE;
    let after = patched(tx, at, slot_content(content));
    let slot = after.subrange(at, at + bypass::SLOT_SIZE);
    assert(slot[0] == n % 256 && slot[1] == n / 256);
    assert(bypass::slot_packet(slot) =~= content);
}

/// Every frame of a burst is sent: the slot at each ring position of the burst
/// holds a sendable packet, and that packet is the frame.
pub proof fn law_burst_is_sent(tx: Seq<u8>, head: u32, n: nat, i: int, content: Seq<u8>)
    requires
        tx.len() == bypass::RING_SIZE * bypass::SLOT_SIZE,
        0 <= i < n,
        0 < content.len() <= bypass::MAX_PACKET,
    ensures
        ({
            let after = after_burst(tx, head, n, 16, 2048, slot_content(content));
            let at = ((head + i) % 0x1_0000_0000) % 16 * bypass::SLOT_SIZE;
            let slot = after.subrange(at, at + bypass::SLOT_SIZE);
            &&& bypass::sendable(slot)
            &&& bypass::slot_packet(slot) == content
        }),
{
    let after = after_burst(tx, head, n, 16, 2048, slot_content(content));
    let at = ((head + i) % 0x1_0000_0000) % 16 * bypass::SLOT_SIZE;
    let slot = after.subrange(at, at + bypass::SLOT_SIZE);
    law_burst_frames_stand(tx, head, n, 16, 2048, slot_content(content));
    assert(at == slot_start(head, i, 16, 2048));
    assert(stands_at(after, at, slot_content(content)));
    let part = after.subrange(at, at + 2 + content.len());
    assert(slot[0] == part[0] && slot[1] == part[1]);
    assert(bypass::slot_packet(slot) =~= part.skip(2));
    assert(part.skip(2) =~= content);
}

/// What the kernel received is what the user reads: a packet that the kernel
/// stored at the user's ring position is the one that the user finds there.
pub proof fn law_received_frame_is_read(
    hdr: NetBypassHeader,
    rx: Seq<u8>,
    slot: Seq<u8>,
    content: Seq<u8>,
)
    requires
        rx.len() == bypass::RING_SIZE * bypass::SLOT_SIZE,
        slot.len() == bypass::SLOT_SIZE,
        content.len() <= bypass::MAX_PACKET,
        bypass::slot_len(slot) == content.len(),
        bypass::slot_packet(slot) == content,
        rx.subrange(
            (hdr.rx_tail % 16) * bypass::SLOT_SIZE,
            (hdr.rx_tail % 16 + 1) * bypass::SLOT_SIZE,
        ) == slot,
    ensures
        peekable(hdr, rx, 2048, 16),
        bypass::slot_packet(oldest_slot(hdr, rx, 2048, 16)) == content,
{
    let at = (hdr.rx_tail as int % bypass::RING_SIZE as int) * bypass::SLOT_SIZE;
    assert(rx.skip(at)[0] == slot[0] && rx.skip(at)[1] == slot[1]);
    assert(bypass::slot_packet(rx.skip(at)) =~= bypass::slot_packet(slot));
}

/// The user and the kernel agree on slots: the ring position that the user
/// commits is the one that the flush consumes, and its slot is the one that the
/// user was given.
pub proof fn law_user_and_kernel_agree_on_slots(head: u32, base: int)
    requires
        base == bypass::BYPASS_VADDR,
    ensures
        (head as int % bypass::RING_SIZE as int) == head % 16,
        base + bypass::TX_OFFSET + (head as int % bypass::RING_SIZE as int) * bypass::SLOT_SIZE
            == base + bypass::tx_slot_offset((head % 16) as int),
        bypass::succ(head) % 16 == (head % 16 + 1) % 16,
{
}

/// Ring positions that are outstanding together use different slots.
pub proof fn law_outstanding_slots_differ(head: u32, tail: u32, i: int, j: int)
    requires
        bypass::ahead(head, tail) <= bypass::RING_SIZE,
        0 <= i < j < bypass::ahead(head, tail),
    ensures
        ((tail + i) % 0x1_0000_0000) % 16 != ((tail + j) % 0x1_0000_0000) % 16,
{
}

/// A ring that a user only fills when it is not full, and a kernel only drains
/// down to empty, never holds more than its slots.
pub proof fn law_ring_never_overflows(head: u32, tail: u32, ring_size: u32)
    requires
        bypass::ahead(head, tail) < ring_size,
    ensures
        bypass::ahead(bypass::succ(head), tail) == bypass::ahead(head, tail) + 1,
        bypass::ahead(bypass::succ(head), tail) <= ring_size,
        head != tail ==> bypass::ahead(head, bypass::succ(tail)) == bypass::ahead(head, tail) - 1,
{
}

/// A commit writes the length of the frame in front of it, least significant
/// byte first and without what does not fit 16 bits, and leaves the rest of the
/// slot alone.
pub proof fn law_prefix_is_the_length(slot: Seq<u8>, n: int)
    requires
        slot.len() >= 2,
        0 <= n,
    ensures
        with_prefix(slot, n).len() == slot.len(),
        with_prefix(slot, n)[0] + 256 * with_prefix(slot, n)[1] == n % 0x1_0000,
        with_prefix(slot, n).skip(2) == slot.skip(2),
{
    assert(with_prefix(slot, n).skip(2) =~= slot.skip(2));
}

/// What is enqueued is the length of the frame, least significant byte first and
/// without what does not fit 16 bits, and then the frame.
pub proof fn law_enqueued_content(frame: Seq<u8>)
    ensures
        slot_content(frame).len() == 2 + frame.len(),
        slot_content(frame)[0] + 256 * slot_content(frame)[1] == frame.len() % 0x1_0000,
        slot_content(frame).skip(2) == frame,
{
    assert(slot_content(frame).skip(2) =~= frame);
}

/// Writing bytes at a place replaces those bytes and no others.
pub proof fn law_writing_changes_only_its_place(s: Seq<u8>, at: int, part: Seq<u8>, i: int)
    requires
        0 <= at,
        at + part.len() <= s.len(),
        0 <= i < s.len(),
    ensures
        patched(s, at, part).len() == s.len(),
        at <= i < at + part.len() ==> patched(s, at, part)[i] == part[i - at],
        i < at || at + part.len() <= i ==> patched(s, at, part)[i] == s[i],
{
}

/// A burst enqueues as many of its frames as there are free slots, never more,
/// and the ring position moves on by as many.
pub proof fn law_burst_fills_free_slots(hdr: NetBypassHeader, ring_size: u32, burst: int, n: int)
    requires
        burst >= 0,
        0 <= n <= burst_room(hdr, ring_size, burst),
    ensures
        ({
            let pending = (hdr.tx_head - hdr.tx_tail) % 0x1_0000_0000;
            let room = burst_room(hdr, ring_size, burst);
            &&& 0 <= room <= burst
            &&& room > 0 ==> pending + room <= ring_size
            &&& room < burst ==> pending + room >= ring_size
        }),
        after_enqueued(hdr, n).tx_head == (hdr.tx_head + n) % 0x1_0000_0000,
        after_enqueued(hdr, n).tx_tail == hdr.tx_tail,
        after_enqueued(hdr, n).rx_head == hdr.rx_head,
        after_enqueued(hdr, n).rx_tail == hdr.rx_tail,
        after_enqueued(hdr, n).ring_size == hdr.ring_size,
        after_enqueued(hdr, n).slot_size == hdr.slot_size,
        after_enqueued(hdr, n).tx_offset == hdr.tx_offset,
        after_enqueued(hdr, n).rx_offset == hdr.rx_offset,
        after_enqueued(hdr, n).local_mac == hdr.local_mac,
        after_enqueued(hdr, n).local_ip == hdr.local_ip,
{
}

/// A burst of one frame is that frame written at its slot, and a longer one
/// goes on with the next slot, wrapping at the end of the ring.
pub proof fn law_burst_goes_slot_by_slot(
    tx: Seq<u8>,
    head: u32,
    n: nat,
    ring_size: u32,
    slot_size: usize,
    content: Seq<u8>,
    i: int,
)
    requires
        ring_size > 0,
        n > 0,
        content.len() <= slot_size,
        ring_size * slot_size <= tx.len(),
        0 <= i < tx.len(),
    ensures
        ({
            let before = after_burst(tx, head, (n - 1) as nat, ring_size, slot_size, content);
            let after = after_burst(tx, head, n, ring_size, slot_size, content);
            let at = ((head + n - 1) % 0x1_0000_0000) % (ring_size as int) * slot_size;
            &&& after_burst(tx, head, 0, ring_size, slot_size, content) == tx
            &&& after.len() == tx.len()
            &&& at <= i < at + content.len() ==> after[i] == content[i - at]
            &&& i < at || at + content.len() <= i ==> after[i] == before[i]
        }),
{
    law_burst_frames_stand(tx, head, (n - 1) as nat, ring_size, slot_size, content);
    let b = ((head + n - 1) % 0x1_0000_0000) % (ring_size as int);
    lemma_slot_bounds(b, b, ring_size, slot_size);
    let before = after_burst(tx, head, (n - 1) as nat, ring_size, slot_size, content);
    assert(slot_start(head, n - 1, ring_size, slot_size) == b * slot_size);
    law_writing_changes_only_its_place(before, b * slot_size, content, i);
}

/// The oldest received packet starts two bytes into the slot at the user's ring
/// position, and can be read just where the length in front of it stays within
/// the ring.
pub proof fn law_oldest_packet_can_be_read(
    hdr: NetBypassHeader,
    rx: Seq<u8>,
    slot_size: usize,
    ring_size: u32,
)
    requires
        ring_size > 0,
    ensures
        ({
            let at = (hdr.rx_tail as int % ring_size as int) * slot_size;
            let n = rx[at] + 256 * rx[at + 1];
            &&& peekable(hdr, rx, slot_size, ring_size) <==> at + 2 <= rx.len() && at + 2 + n
                <= rx.len()
            &&& peekable(hdr, rx, slot_size, ring_size) ==> bypass::slot_packet(
                oldest_slot(hdr, rx, slot_size, ring_size),
            ) == rx.subrange(at + 2, at + 2 + n)
        }),
        !peekable(hdr, rx, slot_size, 0),
{
    let at = (hdr.rx_tail as int % ring_size as int) * slot_size;
    assert(at >= 0) by (nonlinear_arith)
        requires
            at == (hdr.rx_tail as int % ring_size as int) * slot_size,
            hdr.rx_tail as int % ring_size as int >= 0,
            slot_size >= 0,
    ;
    if at + 2 <= rx.len() {
        let s = rx.skip(at);
        assert(s[0] == rx[at] && s[1] == rx[at + 1]);
        if peekable(hdr, rx, slot_size, ring_size) {
            assert(bypass::slot_packet(s) =~= rx.subrange(
                at + 2,
                at + 2 + rx[at] + 256 * rx[at + 1],
            ));
        }
    }
}

/// The bytes of a broadcast UDP header: for everyone on the wire, from our
/// addresses to the given one, for a payload of `n` bytes.
pub proof fn law_broadcast_header_layout(
    src_mac: Seq<u8>,
    src_ip: Seq<u8>,
    src_port: u16,
    dst_ip: Seq<u8>,
    dst_port: u16,
    payload: Seq<u8>,
)
    requires
        src_mac.len() == 6,
        src_ip.len() == 4,
        dst_ip.len() == 4,
    ensures
        ({
            let h = broadcast_header(
                src_mac,
                src_ip,
                src_port,
                dst_ip,
                dst_port,
                payload.len() as int,
            );
            let f = broadcast_frame(src_mac, src_ip, src_port, dst_ip, dst_port, payload);
            &&& h.len() == 42
            &&& f.take(42) == h
            &&& f.skip(42) == payload
            &&& h.subrange(0, 6) == seq![255u8, 255, 255, 255, 255, 255]
            &&& h.subrange(6, 12) == src_mac
            &&& h.subrange(12, 16) == seq![0x08u8, 0x00, 0x45, 0]
            &&& h[16] * 256 + h[17] == (payload.len() + 28) % 0x1_0000
            &&& h[22] == 64 && h[23] == 17
            &&& h.subrange(26, 30) == src_ip
            &&& h.subrange(30, 34) == dst_ip
            &&& h[34] * 256 + h[35] == src_port
            &&& h[36] * 256 + h[37] == dst_port
            &&& h[38] * 256 + h[39] == (payload.len() + 8) % 0x1_0000
            &&& h[40] == 0 && h[41] == 0
        }),
{
    let h = broadcast_header(src_mac, src_ip, src_port, dst_ip, dst_port, payload.len() as int);
    let f = broadcast_frame(src_mac, src_ip, src_port, dst_ip, dst_port, payload);
    addr::law_special_addresses(0);
    frame::law_udp_frame_layout(
        src_mac,
        addr::broadcast_mac(),
        src_ip,
        dst_ip,
        src_port,
        dst_port,
        payload,
    );
    lemma_front(h, payload, f);
}

/// The front of a frame.
proof fn lemma_front(h: Seq<u8>, payload: Seq<u8>, f: Seq<u8>)
    requires
        f == h + payload,
        f.len() == 42 + payload.len(),
        f[12] == 0x08,
        f[13] == 0x00,
        f[14] == 0x45,
        f[15] == 0,
    ensures
        h.len() == 42,
        f.take(42) == h,
        f.skip(42) == payload,
        h.subrange(0, 6) == f.subrange(0, 6),
        h.subrange(6, 12) == f.subrange(6, 12),
        h.subrange(12, 16) == seq![0x08u8, 0x00, 0x45, 0],
        h.subrange(26, 30) == f.subrange(26, 30),
        h.subrange(30, 34) == f.subrange(30, 34),
        forall|i: int| 0 <= i < 42 ==> h[i] == f[i],
{
    assert(f.take(42) =~= h);
    assert(f.skip(42) =~= payload);
    assert(h.subrange(0, 6) =~= f.subrange(0, 6));
    assert(h.subrange(6, 12) =~= f.subrange(6, 12));
    assert(h.subrange(12, 16) =~= seq![0x08u8, 0x00, 0x45, 0]);
    assert(h.subrange(26, 30) =~= f.subrange(26, 30));
    assert(h.subrange(30, 34) =~= f.subrange(30, 34));
}

} // verus!
