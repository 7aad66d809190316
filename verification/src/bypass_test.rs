//! The benchmark that copies prebuilt frames into the shared rings.

use vstd::prelude::*;

use crate::bench;
use crate::bench::Samples;
use crate::bench_bypass;
use crate::bypass;
use crate::bypass::NetBypassHeader;
use crate::ring;

verus! {

/// Build a broadcast UDP frame at the start of a zeroed buffer. The payload
/// gives its length; the bytes are a pattern for easy identification.
pub fn build_udp_frame(
    src_mac: &[u8; 6],
    src_ip: &[u8; 4],
    src_port: u16,
    dst_ip: &[u8; 4],
    dst_port: u16,
    payload: &[u8],
) -> (r: ([u8; 2048], usize))
    requires
        42 + payload@.len() <= 2048,
    ensures
        r.1 == 42 + payload@.len(),
        r.0@ == ring::broadcast_frame(
            src_mac@,
            src_ip@,
            src_port,
            dst_ip@,
            dst_port,
            bench_bypass::pattern(payload@.len()),
        ) + Seq::new((2048 - r.1) as nat, |i: int| 0u8),
{
    let mut buf = [0u8; 2048];
    let ghost before = buf@;
    let frame_len = bench_bypass::build_udp_frame_into(
        &mut buf,
        src_mac,
        src_ip,
        src_port,
        dst_ip,
        dst_port,
        payload.len(),
    );
    assert(before.skip(frame_len as int) =~= Seq::new((2048 - frame_len) as nat, |i: int| 0u8));
    (buf, frame_len)
}

/// Enqueues up to `burst` copies of a frame, until the TX ring is full; `tx` is
/// the memory of the TX ring. Returns how many were enqueued.
pub fn enqueue_burst(
    hdr: &mut NetBypassHeader,
    tx: &mut [u8],
    slot_size: usize,
    ring_size: u32,
    frame: &[u8],
    frame_len: usize,
    burst: usize,
) -> (enqueued: usize)
    requires
        frame_len <= frame@.len(),
        ring_size > 0,
        2 + frame_len <= slot_size,
        ring_size * slot_size <= old(tx)@.len(),
    ensures
        enqueued == ring::burst_room(*old(hdr), ring_size, burst as int),
        *final(hdr) == ring::after_enqueued(*old(hdr), enqueued as int),
        final(tx)@ == ring::after_burst(
            old(tx)@,
            old(hdr).tx_head,
            enqueued as nat,
            ring_size,
            slot_size,
            ring::slot_content(frame@.take(frame_len as int)),
        ),
{
    let ghost hdr0 = *hdr;
    let ghost tx0 = tx@;
    let ghost content = ring::slot_content(frame@.take(frame_len as int));
    assert(content.len() == 2 + frame_len);
    let mut enqueued: usize = 0;
    while enqueued < burst
        invariant
            enqueued <= burst,
            enqueued <= ring::burst_room(hdr0, ring_size, burst as int) <= burst,
            frame_len <= frame@.len(),
            ring_size > 0,
            2 + frame_len <= slot_size,
            ring_size * slot_size <= tx@.len(),
            tx@ == ring::after_burst(
                tx0,
                hdr0.tx_head,
                enqueued as nat,
                ring_size,
                slot_size,
                content,
            ),
            content == ring::slot_content(frame@.take(frame_len as int)),
            content.len() == 2 + frame_len,
            *hdr == ring::after_enqueued(hdr0, enqueued as int),
        ensures
            enqueued == ring::burst_room(hdr0, ring_size, burst as int),
        decreases burst - enqueued,
    {
        proof {
            ring::lemma_slot_bounds(
                hdr.tx_head as int % ring_size as int,
                0,
                ring_size,
                slot_size,
            );
            ring::lemma_burst_progress(
                hdr0,
                enqueued as int,
                ring_size,
                slot_size,
                burst as int,
            );
        }
        if !ring::tx_enqueue(hdr, tx, slot_size, ring_size, frame, frame_len) {
            break;
        }
        enqueued = enqueued + 1;
    }
    enqueued
}

/// The progress of a latency test.
pub struct RttRun {
    pub warmup: usize,
    pub samples: Samples,
}

impl RttRun {
    /// A test that has not begun.
    pub fn new(warmup: usize) -> (r: RttRun)
        ensures
            r.warmup == warmup,
            r.samples.ticks@ == Seq::new(bench::MAX_SAMPLES as nat, |i: int| 0u64),
    {
        RttRun { warmup, samples: Samples::new() }
    }

    /// Tests whether a round enters the samples: only then its times are
    /// subtracted.
    pub fn measures(&self, i: usize) -> (r: bool)
        ensures
            r == (bench::sampled(self.warmup as int, i as int)),
    {
        bench::is_sampled(self.warmup, i)
    }

    /// Records round `i`, which lasted from `t0` to `t1`, whether or not a reply
    /// came. The receive returned `rc`; where that is not negative, the oldest
    /// packet in the RX ring is released.
    pub fn record_round(
        &mut self,
        i: usize,
        t0: u64,
        t1: u64,
        rc: isize,
        hdr: &mut NetBypassHeader,
    )
        requires
            old(self).samples.ticks@.len() == bench::MAX_SAMPLES,
            bench::sampled(old(self).warmup as int, i as int) ==> t0 <= t1,
        ensures
            final(self).warmup == old(self).warmup,
            final(self).samples.ticks@.len() == bench::MAX_SAMPLES,
            final(self).samples.ticks@ == bench::recorded(
                old(self).samples.ticks@,
                old(self).warmup as int,
                i as int,
                (t1 - t0) as u64,
            ),
            *final(hdr) == if rc >= 0 {
                (NetBypassHeader { rx_tail: bypass::succ(old(hdr).rx_tail), ..*old(hdr) })
            } else {
                *old(hdr)
            },
    {
        if rc >= 0 {
            ring::rx_dequeue(hdr);
        }
        if bench::is_sampled(self.warmup, i) {
            self.samples.record(self.warmup, i, t1 - t0);
        }
    }
}

/// Building a frame in its slot leaves in the ring what building it elsewhere
/// and copying it leaves there.
pub proof fn law_building_in_place_saves_the_copy(
    src_mac: Seq<u8>,
    src_ip: Seq<u8>,
    src_port: u16,
    dst_ip: Seq<u8>,
    dst_port: u16,
    payload_size: usize,
    rest: Seq<u8>,
    tx: Seq<u8>,
    at: int,
)
    requires
        src_mac.len() == 6,
        src_ip.len() == 4,
        dst_ip.len() == 4,
    ensures
        ({
            let probe = bench_bypass::probe(
                src_mac,
                src_ip,
                src_port,
                dst_ip,
                dst_port,
                payload_size,
            );
            let prebuilt = probe + rest;
            &&& probe.len() == 42 + payload_size
            &&& ring::patched(tx, at, ring::slot_content(prebuilt.take(42 + payload_size)))
                == ring::patched(tx, at, ring::slot_content(probe))
        }),
{
    let probe = bench_bypass::probe(src_mac, src_ip, src_port, dst_ip, dst_port, payload_size);
    assert(probe.len() == 42 + payload_size);
    assert((probe + rest).take(42 + payload_size) =~= probe);
}

} // verus!
