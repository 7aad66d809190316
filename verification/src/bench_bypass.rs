//! The benchmark that builds frames in place in the shared rings.

use vstd::prelude::*;

use crate::bench;
use crate::bench::Samples;
use crate::bypass;
use crate::bypass::NetBypassHeader;
use crate::bytes;
use crate::frame;
use crate::parse;
use crate::ring;

verus! {

/// The payload of a benchmark frame: the low bytes of the positions.
pub open spec fn pattern(n: nat) -> Seq<u8> {
    Seq::new(n, |j: int| (j % 256) as u8)
}

/// Build a complete Ethernet + IPv4 + UDP frame directly into `buf`.
/// Returns the total frame length.
pub fn build_udp_frame_into(
    buf: &mut [u8],
    src_mac: &[u8; 6],
    src_ip: &[u8; 4],
    src_port: u16,
    dst_ip: &[u8; 4],
    dst_port: u16,
    payload_size: usize,
) -> (frame_len: usize)
    requires
        42 + payload_size <= old(buf)@.len(),
    ensures
        frame_len == 42 + payload_size,
        final(buf)@ == ring::broadcast_frame(
            src_mac@,
            src_ip@,
            src_port,
            dst_ip@,
            dst_port,
            pattern(payload_size as nat),
        ) + old(buf)@.skip(42 + payload_size),
{
    let ghost before = buf@;
    assert(buf.len() == before.len());
    ring::write_broadcast_header(buf, src_mac, src_ip, src_port, dst_ip, dst_port, payload_size);
    let ghost header = buf@.take(42);
    let mut j: usize = 0;
    while j < payload_size
        invariant
            j <= payload_size,
            42 + payload_size <= before.len() <= usize::MAX,
            header.len() == 42,
            buf@ == header + pattern(j as nat) + before.skip(42 + j),
        decreases payload_size - j,
    {
        buf[42 + j] = (j % 256) as u8;
        j = j + 1;
        assert(buf@ =~= header + pattern(j as nat) + before.skip(42 + j));
    }
    assert(buf@ =~= ring::broadcast_frame(
        src_mac@,
        src_ip@,
        src_port,
        dst_ip@,
        dst_port,
        pattern(payload_size as nat),
    ) + before.skip(42 + payload_size));
    42 + payload_size
}

/// The frame that the benchmark sends.
pub open spec fn probe(
    src_mac: Seq<u8>,
    src_ip: Seq<u8>,
    src_port: u16,
    dst_ip: Seq<u8>,
    dst_port: u16,
    payload_size: usize,
) -> Seq<u8> {
    ring::broadcast_frame(
        src_mac,
        src_ip,
        src_port,
        dst_ip,
        dst_port,
        pattern(payload_size as nat),
    )
}

/// Builds a frame in the next TX slot, without a copy, and commits it; `tx` is
/// the memory of the TX ring. Returns false when the ring is full.
pub fn enqueue_in_place(
    hdr: &mut NetBypassHeader,
    tx: &mut [u8],
    slot_size: usize,
    ring_size: u32,
    src_mac: &[u8; 6],
    src_ip: &[u8; 4],
    src_port: u16,
    dst_ip: &[u8; 4],
    dst_port: u16,
    payload_size: usize,
) -> (r: bool)
    requires
        ring_size > 0,
        44 + payload_size <= slot_size,
        ring_size * slot_size <= old(tx)@.len(),
    ensures
        r == (bypass::ahead(old(hdr).tx_head, old(hdr).tx_tail) < ring_size),
        !r ==> *final(hdr) == *old(hdr) && final(tx)@ == old(tx)@,
        r ==> *final(hdr) == (NetBypassHeader {
            tx_head: bypass::succ(old(hdr).tx_head),
            ..*old(hdr)
        }),
        r ==> final(tx)@ == ring::patched(
            old(tx)@,
            (old(hdr).tx_head as int % ring_size as int) * slot_size,
            ring::slot_content(
                probe(src_mac@, src_ip@, src_port, dst_ip@, dst_port, payload_size),
            ),
        ),
{
    let ghost before = tx@;
    assert(tx.len() == before.len());
    proof {
        ring::lemma_slot_bounds(hdr.tx_head as int % ring_size as int, 0, ring_size, slot_size);
    }
    match ring::tx_slot_acquire(hdr, 0, 0, slot_size, ring_size) {
        None => false,
        Some((at, tx_head)) => {
            let (_, rest) = tx.split_at_mut(at);
            let (slot, _) = rest.split_at_mut(slot_size);
            let (_, body) = slot.split_at_mut(2);
            let frame_len = build_udp_frame_into(
                body,
                src_mac,
                src_ip,
                src_port,
                dst_ip,
                dst_port,
                payload_size,
            );
            ring::tx_slot_commit(hdr, slot, frame_len, tx_head);
            true
        },
    }
}

/// Builds up to `burst` frames in place, until the TX ring is full; `tx` is the
/// memory of the TX ring. Returns how many were enqueued.
pub fn enqueue_burst(
    hdr: &mut NetBypassHeader,
    tx: &mut [u8],
    slot_size: usize,
    ring_size: u32,
    src_mac: &[u8; 6],
    src_ip: &[u8; 4],
    src_port: u16,
    dst_ip: &[u8; 4],
    dst_port: u16,
    payload_size: usize,
    burst: usize,
) -> (enqueued: usize)
    requires
        ring_size > 0,
        44 + payload_size <= slot_size,
        ring_size * slot_size <= old(tx)@.len(),
    ensures
        enqueued == ring::burst_room(*old(hdr), ring_size, burst as int),
        *final(hdr) == ring::after_enqueued(*old(hdr), enqueued as int),
        final(tx)@ == ring::after_burst(
            old(tx)@,
            old(hdr).tx_head,
            enqueued as nat,
            ring_size,
            slot_size,
            ring::slot_content(
                probe(src_mac@, src_ip@, src_port, dst_ip@, dst_port, payload_size),
            ),
        ),
{
    let ghost hdr0 = *hdr;
    let ghost tx0 = tx@;
    let ghost content = ring::slot_content(
        probe(src_mac@, src_ip@, src_port, dst_ip@, dst_port, payload_size),
    );
    let mut enqueued: usize = 0;
    while enqueued < burst
        invariant
            enqueued <= burst,
            enqueued <= ring::burst_room(hdr0, ring_size, burst as int) <= burst,
            ring_size > 0,
            44 + payload_size <= slot_size,
            ring_size * slot_size <= tx@.len(),
            tx@ == ring::after_burst(
                tx0,
                hdr0.tx_head,
                enqueued as nat,
                ring_size,
                slot_size,
                content,
            ),
            content == ring::slot_content(
                probe(src_mac@, src_ip@, src_port, dst_ip@, dst_port, payload_size),
            ),
            *hdr == ring::after_enqueued(hdr0, enqueued as int),
        ensures
            enqueued == ring::burst_room(hdr0, ring_size, burst as int),
        decreases burst - enqueued,
    {
        proof {
            ring::lemma_slot_bounds(
                hdr.tx_head as int % ring_size as int,
                0,
                ring_size,
                slot_size,
            );
            ring::lemma_burst_progress(
                hdr0,
                enqueued as int,
                ring_size,
                slot_size,
                burst as int,
            );
            lemma_probe_len(src_mac@, src_ip@, src_port, dst_ip@, dst_port, payload_size);
        }
        if !enqueue_in_place(
            hdr,
            tx,
            slot_size,
            ring_size,
            src_mac,
            src_ip,
            src_port,
            dst_ip,
            dst_port,
            payload_size,
        ) {
            break;
        }
        enqueued = enqueued + 1;
    }
    enqueued
}

/// The length of a probe.
proof fn lemma_probe_len(
    src_mac: Seq<u8>,
    src_ip: Seq<u8>,
    src_port: u16,
    dst_ip: Seq<u8>,
    dst_port: u16,
    payload_size: usize,
)
    requires
        src_mac.len() == 6,
        src_ip.len() == 4,
        dst_ip.len() == 4,
    ensures
        probe(src_mac, src_ip, src_port, dst_ip, dst_port, payload_size).len() == 42
            + payload_size,
{
}

/// What kind of packet answered a probe.
#[derive(Debug, Clone, Copy, PartialEq, Eq, Structural)]
pub enum ReplyKind {
    Udp,
    ControlMessage,
    Other,
}

/// The kind of a received packet, by its EtherType and its IP protocol.
pub open spec fn kind_of(pkt: Seq<u8>) -> ReplyKind {
    if pkt.len() < 34 || parse::ethertype(pkt) != frame::ETHERTYPE_IPV4 {
        ReplyKind::Other
    } else if pkt[23] == frame::PROTO_UDP {
        ReplyKind::Udp
    } else if pkt[23] == 1 {
        ReplyKind::ControlMessage
    } else {
        ReplyKind::Other
    }
}

/// The kind of a received packet.
pub fn reply_kind(pkt: &[u8]) -> (r: ReplyKind)
    ensures
        r == kind_of(pkt@),
{
    if pkt.len() < 34 || bytes::join_be16(pkt[12], pkt[13]) != frame::ETHERTYPE_IPV4 {
        return ReplyKind::Other;
    }
    match pkt[23] {
        17 => ReplyKind::Udp,
        1 => ReplyKind::ControlMessage,
        _ => ReplyKind::Other,
    }
}

/// The progress of a latency test.
pub struct RttRun {
    pub warmup: usize,
    pub samples: Samples,
    pub lost: usize,
    pub udp_count: usize,
    pub control_count: usize,
    pub other_count: usize,
}

impl RttRun {
    /// How many rounds were counted: each as lost, or under the kind of its reply.
    pub open spec fn rounds(self) -> int {
        self.lost + self.udp_count + self.control_count + self.other_count
    }

    /// A test that has not begun.
    pub fn new(warmup: usize) -> (r: RttRun)
        ensures
            r.warmup == warmup,
            r.samples.ticks@ == Seq::new(bench::MAX_SAMPLES as nat, |i: int| 0u64),
            r.lost == 0,
            r.udp_count == 0,
            r.control_count == 0,
            r.other_count == 0,
    {
        RttRun {
            warmup,
            samples: Samples::new(),
            lost: 0,
            udp_count: 0,
            control_count: 0,
            other_count: 0,
        }
    }

    /// The counts are those of the rounds that brought `replies`; a round that
    /// was lost brought none.
    pub open spec fn counted(self, replies: Seq<Option<Seq<u8>>>) -> bool {
        &&& self.lost == lost_in(replies)
        &&& self.udp_count == answered_with(replies, ReplyKind::Udp)
        &&& self.control_count == answered_with(replies, ReplyKind::ControlMessage)
        &&& self.other_count == answered_with(replies, ReplyKind::Other)
    }

    /// Tests whether a round enters the samples: only then its times are
    /// subtracted.
    pub fn measures(&self, i: usize, rc: isize) -> (r: bool)
        ensures
            r == (rc >= 0 && bench::sampled(self.warmup as int, i as int)),
    {
        rc >= 0 && bench::is_sampled(self.warmup, i)
    }

    /// Tests whether the reply of a receive that returned `rc` can be looked at:
    /// where there is one, it must lie within the RX ring.
    pub fn can_record(
        rc: isize,
        hdr: &NetBypassHeader,
        rx: &[u8],
        slot_size: usize,
        ring_size: u32,
    ) -> (r: bool)
        ensures
            r == (rc >= 0 ==> ring::peekable(*hdr, rx@, slot_size, ring_size)),
    {
        rc < 0 || ring::can_peek(hdr, rx, slot_size, ring_size)
    }

    /// Counts round `i`, which lasted from `t0` to `t1` and whose receive
    /// returned `rc`. A negative code means that the reply was lost; otherwise
    /// the reply is the oldest packet in the RX ring, which is then released.
    /// `rx` is the memory of the RX ring.
    pub fn record_round(
        &mut self,
        i: usize,
        t0: u64,
        t1: u64,
        rc: isize,
        hdr: &mut NetBypassHeader,
        rx: &[u8],
        slot_size: usize,
        ring_size: u32,
    )
        requires
            old(self).samples.ticks@.len() == bench::MAX_SAMPLES,
            old(self).rounds() < usize::MAX,
            rc >= 0 && bench::sampled(old(self).warmup as int, i as int) ==> t0 <= t1,
            rc >= 0 ==> ring::peekable(*old(hdr), rx@, slot_size, ring_size),
        ensures
            final(self).warmup == old(self).warmup,
            final(self).samples.ticks@.len() == bench::MAX_SAMPLES,
            final(self).rounds() == old(self).rounds() + 1,
            ({
                let reply = reply_to_probe(rc, *old(hdr), rx@, slot_size, ring_size);
                &&& final(self).lost == old(self).lost + lost_in(seq![reply])
                &&& final(self).udp_count == old(self).udp_count + answered_with(
                    seq![reply],
                    ReplyKind::Udp,
                )
                &&& final(self).control_count == old(self).control_count + answered_with(
                    seq![reply],
                    ReplyKind::ControlMessage,
                )
                &&& final(self).other_count == old(self).other_count + answered_with(
                    seq![reply],
                    ReplyKind::Other,
                )
                &&& forall|replies: Seq<Option<Seq<u8>>>|
                    old(self).counted(replies) ==> #[trigger] final(self).counted(
                        replies.push(reply),
                    )
            }),
            final(self).samples.ticks@ == if rc >= 0 {
                bench::recorded(
                    old(self).samples.ticks@,
                    old(self).warmup as int,
                    i as int,
                    (t1 - t0) as u64,
                )
            } else {
                old(self).samples.ticks@
            },
            *final(hdr) == if rc >= 0 {
                (NetBypassHeader { rx_tail: bypass::succ(old(hdr).rx_tail), ..*old(hdr) })
            } else {
                *old(hdr)
            },
    {
        let ghost reply = reply_to_probe(rc, *hdr, rx@, slot_size, ring_size);
        proof {
            lemma_one_reply(reply);
        }
        if rc >= 0 {
            let pkt = ring::rx_peek(hdr, rx, slot_size, ring_size);
            match reply_kind(pkt) {
                ReplyKind::Udp => {
                    self.udp_count = self.udp_count + 1;
                },
                ReplyKind::ControlMessage => {
                    self.control_count = self.control_count + 1;
                },
                ReplyKind::Other => {
                    self.other_count = self.other_count + 1;
                },
            }
            ring::rx_dequeue(hdr);
            if bench::is_sampled(self.warmup, i) {
                self.samples.record(self.warmup, i, t1 - t0);
            }
        } else {
            self.lost = self.lost + 1;
        }
        proof {
            assert forall|replies: Seq<Option<Seq<u8>>>| old(self).counted(replies) implies (
            #[trigger] self.counted(replies.push(reply))) by {
                assert(replies.push(reply).drop_last() =~= replies);
                assert(replies.push(reply).last() == reply);
            }
        }
    }
}

/// What a receive that returned `rc` brought: the oldest packet in the RX ring,
/// or nothing where the code is negative.
pub open spec fn reply_to_probe(
    rc: isize,
    hdr: NetBypassHeader,
    rx: Seq<u8>,
    slot_size: usize,
    ring_size: u32,
) -> Option<Seq<u8>> {
    if rc >= 0 {
        Some(bypass::slot_packet(ring::oldest_slot(hdr, rx, slot_size, ring_size)))
    } else {
        None
    }
}

/// How many rounds were lost.
pub open spec fn lost_in(replies: Seq<Option<Seq<u8>>>) -> int
    decreases replies.len(),
{
    if replies.len() == 0 {
        0
    } else {
        lost_in(replies.drop_last()) + if replies.last() is None {
            1int
        } else {
            0int
        }
    }
}

/// How many replies are of a kind.
pub open spec fn answered_with(replies: Seq<Option<Seq<u8>>>, kind: ReplyKind) -> int
    decreases replies.len(),
{
    if replies.len() == 0 {
        0
    } else {
        answered_with(replies.drop_last(), kind) + if replies.last() matches Some(pkt)
            && kind_of(pkt) == kind {
            1int
        } else {
            0int
        }
    }
}

/// The counts of a single round.
proof fn lemma_one_reply(reply: Option<Seq<u8>>)
    ensures
        lost_in(seq![reply]) == if reply is None {
            1int
        } else {
            0
        },
        forall|kind: ReplyKind|
            #[trigger] answered_with(seq![reply], kind) == if reply matches Some(pkt) && kind_of(
                pkt,
            ) == kind {
                1int
            } else {
                0
            },
{
    let one = seq![reply];
    assert(one.drop_last() =~= Seq::<Option<Seq<u8>>>::empty());
    assert(lost_in(one.drop_last()) == 0);
    assert forall|kind: ReplyKind| (#[trigger] answered_with(one, kind)) == if reply matches Some(
        pkt,
    ) && kind_of(pkt) == kind {
        1int
    } else {
        0
    } by {
        assert(answered_with(one.drop_last(), kind) == 0);
    }
}

/// Every round is counted once, as lost or under the kind of its reply: the four
/// counts of a test that is done add up to its warm-up rounds and its measured
/// rounds, however often the TX ring was full.
pub proof fn law_counts_add_up(
    run: RttRun,
    replies: Seq<Option<Seq<u8>>>,
    warmup: usize,
    count: usize,
    found: Seq<bool>,
    n: nat,
)
    requires
        warmup + count <= usize::MAX,
        run.counted(replies),
        replies.len() == bench::receives((warmup + count) as usize, found, n),
    ensures
        run.rounds() == replies.len(),
        bench::rounds_after((warmup + count) as usize, found, n).step is Finish ==> run.lost
            + run.udp_count + run.control_count + run.other_count == warmup + count,
{
    lemma_counts(replies);
    bench::law_every_round_receives_once((warmup + count) as usize, found, n);
}

/// Every reply has one kind.
proof fn lemma_counts(replies: Seq<Option<Seq<u8>>>)
    ensures
        lost_in(replies) + answered_with(replies, ReplyKind::Udp) + answered_with(
            replies,
            ReplyKind::ControlMessage,
        ) + answered_with(replies, ReplyKind::Other) == replies.len(),
    decreases replies.len(),
{
    if replies.len() > 0 {
        lemma_counts(replies.drop_last());
    }
}

/// The payload of a probe counts up byte by byte and starts again after 255.
pub proof fn law_probe_pattern(n: nat, j: int)
    requires
        0 <= j < n,
    ensures
        pattern(n).len() == n,
        pattern(n)[j] == j % 256,
{
}

/// A probe is a UDP frame for everyone on the wire that carries the pattern.
pub proof fn law_probe_layout(
    src_mac: Seq<u8>,
    src_ip: Seq<u8>,
    src_port: u16,
    dst_ip: Seq<u8>,
    dst_port: u16,
    payload_size: usize,
    j: int,
)
    requires
        src_mac.len() == 6,
        src_ip.len() == 4,
        dst_ip.len() == 4,
        0 <= j < payload_size,
    ensures
        ({
            let f = probe(src_mac, src_ip, src_port, dst_ip, dst_port, payload_size);
            &&& f.len() == 42 + payload_size
            &&& f.subrange(0, 6) == seq![255u8, 255, 255, 255, 255, 255]
            &&& f.subrange(6, 12) == src_mac
            &&& f[12] == 0x08 && f[13] == 0x00 && f[23] == 17
            &&& f.subrange(26, 30) == src_ip
            &&& f.subrange(30, 34) == dst_ip
            &&& f[34] * 256 + f[35] == src_port
            &&& f[36] * 256 + f[37] == dst_port
            &&& f.skip(42).len() == payload_size
            &&& f.skip(42)[j] == j % 256
        }),
{
    let p = pattern(payload_size as nat);
    crate::addr::law_special_addresses(0);
    frame::law_udp_frame_layout(
        src_mac,
        crate::addr::broadcast_mac(),
        src_ip,
        dst_ip,
        src_port,
        dst_port,
        p,
    );
    law_probe_pattern(payload_size as nat, j);
}

/// A reply is counted by its protocol: an IPv4 packet of at least 34 bytes with
/// protocol 17 as UDP, one with protocol 1 as a control message, everything else
/// as other.
pub proof fn law_reply_kinds(pkt: Seq<u8>)
    ensures
        pkt.len() >= 34 && pkt[12] == 8 && pkt[13] == 0 && pkt[23] == 17 ==> kind_of(pkt)
            == ReplyKind::Udp,
        pkt.len() >= 34 && pkt[12] == 8 && pkt[13] == 0 && pkt[23] == 1 ==> kind_of(pkt)
            == ReplyKind::ControlMessage,
        pkt.len() < 34 || pkt[12] != 8 || pkt[13] != 0 || (pkt[23] != 17 && pkt[23] != 1)
            ==> kind_of(pkt) == ReplyKind::Other,
{
}

/// One more round adds one to exactly one of the counts: to the lost ones where
/// no reply came, and otherwise to those of its kind.
pub proof fn law_one_round_is_counted_once(
    replies: Seq<Option<Seq<u8>>>,
    reply: Option<Seq<u8>>,
    kind: ReplyKind,
)
    ensures
        lost_in(Seq::empty()) == 0,
        answered_with(Seq::empty(), kind) == 0,
        reply is None ==> lost_in(replies.push(reply)) == lost_in(replies) + 1,
        reply is Some ==> lost_in(replies.push(reply)) == lost_in(replies),
        reply is Some && kind_of(reply->0) == kind ==> answered_with(replies.push(reply), kind)
            == answered_with(replies, kind) + 1,
        reply is None || kind_of(reply->0) != kind ==> answered_with(replies.push(reply), kind)
            == answered_with(replies, kind),
{
    assert(replies.push(reply).drop_last() =~= replies);
}

/// The reply to a probe is there just where the receive did not fail, and is
/// what the oldest slot of the RX ring holds behind its length.
pub proof fn law_reply_is_the_oldest_packet(
    rc: isize,
    hdr: NetBypassHeader,
    rx: Seq<u8>,
    slot_size: usize,
    ring_size: u32,
)
    requires
        ring::peekable(hdr, rx, slot_size, ring_size),
    ensures
        rc < 0 ==> reply_to_probe(rc, hdr, rx, slot_size, ring_size) is None,
        rc >= 0 ==> ({
            let at = (hdr.rx_tail as int % ring_size as int) * slot_size;
            reply_to_probe(rc, hdr, rx, slot_size, ring_size) == Some(
                rx.subrange(at + 2, at + 2 + rx[at] + 256 * rx[at + 1]),
            )
        }),
{
    ring::law_oldest_packet_can_be_read(hdr, rx, slot_size, ring_size);
}

} // verus!
