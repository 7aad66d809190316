//! The bookkeeping that the benchmark programs share.

use vstd::prelude::*;

use crate::bypass;
use crate::bypass::NetBypassHeader;
use crate::parse;

verus! {

/// Packets of a throughput test.
pub const THROUGHPUT_COUNT: usize = 1000;

/// Measured round trips of a latency test.
pub const LATENCY_COUNT: usize = 200;

/// Round trips before the measured ones.
pub const WARMUP_COUNT: usize = 20;

/// Round trips that a latency test can remember.
pub const MAX_SAMPLES: usize = 200;

/// Packets of a burst over a socket.
pub const BURST_SIZE: usize = 16;

/// Nanoseconds per tick of the 10 MHz timebase.
pub const NS_PER_TICK: u64 = 100;

/// The time of a run and its share per packet.
#[derive(Debug, Clone, Copy, PartialEq, Eq, Structural)]
pub struct Throughput {
    pub elapsed: u64,
    pub per_packet: u64,
}

/// The time from `t0` to `t1` shared among `count` packets.
pub fn throughput(t0: u64, t1: u64, count: usize) -> (r: Throughput)
    requires
        t0 <= t1,
        count > 0,
    ensures
        r.elapsed == t1 - t0,
        r.per_packet == (t1 - t0) / (count as int),
{
    let elapsed = t1 - t0;
    Throughput { elapsed, per_packet: elapsed / count as u64 }
}

/// A number of ticks in nanoseconds.
pub fn ticks_to_ns(ticks: u64) -> (r: u64)
    requires
        ticks * NS_PER_TICK <= u64::MAX,
    ensures
        r == ticks * 100,
{
    ticks * NS_PER_TICK
}

/// The time from `t0` to `t1` shared among the packets of a burst; zero where
/// none was handled.
pub fn burst_cost(t0: u64, t1: u64, packets: isize) -> (r: u64)
    requires
        t0 <= t1,
    ensures
        r == if packets > 0 {
            (t1 - t0) / (packets as int)
        } else {
            0
        },
{
    if packets > 0 {
        (t1 - t0) / packets as u64
    } else {
        0
    }
}

/// How many packets a burst tries to enqueue.
pub fn burst_size(ring_size: u32) -> (r: usize)
    ensures
        r == parse::min(ring_size as int, 256),
{
    if ring_size <= 256 {
        ring_size as usize
    } else {
        256
    }
}

/// Whether progress is reported after round `i`.
pub fn progress_due(i: usize) -> (r: bool)
    ensures
        r == ((i + 1) % 50 == 0),
{
    i % 50 == 49
}

/// The packets of a throughput test over the shared rings.
#[derive(Clone, Copy, PartialEq, Eq, Structural)]
pub struct ThroughputRun {
    pub sent: usize,
    pub count: usize,
}

impl ThroughputRun {
    /// Takes note of an attempt to enqueue a packet, after which the header is
    /// `hdr`, and says whether to flush: when the ring was full, when half of it
    /// is pending, and after the last packet.
    pub fn attempted(&mut self, enqueued: bool, hdr: &NetBypassHeader, ring_size: u32) -> (flush:
        bool)
        requires
            old(self).sent < old(self).count,
        ensures
            final(self).count == old(self).count,
            final(self).sent == old(self).sent + if enqueued {
                1int
            } else {
                0
            },
            flush == (!enqueued || bypass::ahead(hdr.tx_head, hdr.tx_tail) >= ring_size as int / 2
                || final(self).sent == final(self).count),
    {
        if !enqueued {
            return true;
        }
        self.sent = self.sent + 1;
        bypass::distance(hdr.tx_head, hdr.tx_tail) >= ring_size / 2 || self.sent == self.count
    }
}

/// What a latency test over the shared rings does next.
#[derive(Debug, Clone, Copy, PartialEq, Eq, Structural)]
pub enum RoundStep {
    /// Enqueue a probe.
    Enqueue,
    /// Flush the full TX ring, then enqueue.
    MakeRoom,
    /// Flush the probe.
    Send,
    /// Receive the reply, and record the round.
    Receive,
    /// All rounds are done.
    Finish,
}

/// The rounds of a latency test over the shared rings.
#[derive(Debug, Clone, Copy, PartialEq, Eq, Structural)]
pub struct Rounds {
    /// The round at hand.
    pub round: usize,
    /// How many rounds there are: those of the warm-up and the measured ones.
    pub total: usize,
    /// What to do next.
    pub step: RoundStep,
}

impl Rounds {
    /// The step that round `round` of `total` starts with.
    pub open spec fn start(round: usize, total: usize) -> Rounds {
        Rounds {
            round,
            total,
            step: if round < total {
                RoundStep::Enqueue
            } else {
                RoundStep::Finish
            },
        }
    }

    /// The rounds after the step at hand was done; `enqueued` tells whether an
    /// attempt to enqueue found room.
    pub open spec fn after(self, enqueued: bool) -> Rounds {
        match self.step {
            RoundStep::Enqueue => Rounds {
                step: if enqueued {
                    RoundStep::Send
                } else {
                    RoundStep::MakeRoom
                },
                ..self
            },
            RoundStep::MakeRoom => Rounds { step: RoundStep::Enqueue, ..self },
            RoundStep::Send => Rounds { step: RoundStep::Receive, ..self },
            RoundStep::Receive => Rounds::start((self.round + 1) as usize, self.total),
            RoundStep::Finish => self,
        }
    }

    /// Before the end, the round at hand is one of the rounds.
    pub open spec fn well_formed(self) -> bool {
        self.step is Finish || self.round < self.total
    }

    /// A latency test of `warmup` rounds and `count` measured ones.
    pub fn new(warmup: usize, count: usize) -> (r: Rounds)
        requires
            warmup + count <= usize::MAX,
        ensures
            r == Rounds::start(0, (warmup + count) as usize),
            r.well_formed(),
    {
        let total: usize = warmup + count;
        let step = if total > 0 {
            RoundStep::Enqueue
        } else {
            RoundStep::Finish
        };
        Rounds { round: 0, total, step }
    }

    /// Goes on after the step at hand was done.
    pub fn advance(&mut self, enqueued: bool)
        requires
            old(self).well_formed(),
        ensures
            *final(self) == old(self).after(enqueued),
            final(self).well_formed(),
    {
        match self.step {
            RoundStep::Enqueue => {
                self.step = if enqueued {
                    RoundStep::Send
                } else {
                    RoundStep::MakeRoom
                };
            },
            RoundStep::MakeRoom => {
                self.step = RoundStep::Enqueue;
            },
            RoundStep::Send => {
                self.step = RoundStep::Receive;
            },
            RoundStep::Receive => {
                self.round = self.round + 1;
                self.step = if self.round < self.total {
                    RoundStep::Enqueue
                } else {
                    RoundStep::Finish
                };
            },
            RoundStep::Finish => {},
        }
    }
}

/// The rounds after `n` steps that always found room.
pub open spec fn unhindered(total: usize, n: nat) -> Rounds
    decreases n,
{
    if n == 0 {
        Rounds::start(0, total)
    } else {
        unhindered(total, (n - 1) as nat).after(true)
    }
}

/// Every round sends one probe and then waits for one reply, and the test ends
/// after its rounds.
pub proof fn law_rounds_send_then_receive(total: usize, n: nat)
    ensures
        ({
            let r = unhindered(total, n);
            if n < 3 * total {
                &&& r.round == n / 3
                &&& r.step == if n % 3 == 0 {
                    RoundStep::Enqueue
                } else if n % 3 == 1 {
                    RoundStep::Send
                } else {
                    RoundStep::Receive
                }
            } else {
                r.step == RoundStep::Finish
            }
        }),
        unhindered(total, n).total == total,
    decreases n,
{
    if n > 0 {
        law_rounds_send_then_receive(total, (n - 1) as nat);
    }
}

/// The rounds after `n` steps, when the attempts to enqueue turn out as `found`
/// says, step by step.
pub open spec fn rounds_after(total: usize, found: Seq<bool>, n: nat) -> Rounds
    decreases n,
{
    if n == 0 {
        Rounds::start(0, total)
    } else {
        rounds_after(total, found, (n - 1) as nat).after(found[n - 1])
    }
}

/// How many of the first `n` steps receive a reply.
pub open spec fn receives(total: usize, found: Seq<bool>, n: nat) -> nat
    decreases n,
{
    if n == 0 {
        0
    } else {
        let k = (n - 1) as nat;
        receives(total, found, k) + if rounds_after(total, found, k).step is Receive {
            1nat
        } else {
            0nat
        }
    }
}

/// However often the ring is full, every round receives once: a test that is
/// done has received exactly as often as it has rounds.
pub proof fn law_every_round_receives_once(total: usize, found: Seq<bool>, n: nat)
    ensures
        rounds_after(total, found, n).total == total,
        rounds_after(total, found, n).round == receives(total, found, n),
        receives(total, found, n) <= total,
        rounds_after(total, found, n).step is Finish <==> receives(total, found, n) == total,
    decreases n,
{
    if n > 0 {
        law_every_round_receives_once(total, found, (n - 1) as nat);
    }
}

/// What a latency test over a socket does next.
#[derive(Debug, Clone, Copy, PartialEq, Eq, Structural)]
pub enum SocketStep {
    /// Write a probe.
    Write,
    /// Read the reply, and record the round.
    Read,
    /// All rounds are done.
    Finish,
}

/// The rounds of a latency test over a socket.
#[derive(Debug, Clone, Copy, PartialEq, Eq, Structural)]
pub struct SocketRounds {
    /// The round at hand.
    pub round: usize,
    /// How many rounds there are: those of the warm-up and the measured ones.
    pub total: usize,
    /// What to do next.
    pub step: SocketStep,
}

impl SocketRounds {
    /// The step that round `round` of `total` starts with.
    pub open spec fn start(round: usize, total: usize) -> SocketRounds {
        SocketRounds {
            round,
            total,
            step: if round < total {
                SocketStep::Write
            } else {
                SocketStep::Finish
            },
        }
    }

    /// The rounds after the step at hand was done.
    pub open spec fn after(self) -> SocketRounds {
        match self.step {
            SocketStep::Write => SocketRounds { step: SocketStep::Read, ..self },
            SocketStep::Read => SocketRounds::start((self.round + 1) as usize, self.total),
            SocketStep::Finish => self,
        }
    }

    /// Before the end, the round at hand is one of the rounds.
    pub open spec fn well_formed(self) -> bool {
        self.step is Finish || self.round < self.total
    }

    /// A latency test of `warmup` rounds and `count` measured ones.
    pub fn new(warmup: usize, count: usize) -> (r: SocketRounds)
        requires
            warmup + count <= usize::MAX,
        ensures
            r == SocketRounds::start(0, (warmup + count) as usize),
            r.well_formed(),
    {
        let total: usize = warmup + count;
        let step = if total > 0 {
            SocketStep::Write
        } else {
            SocketStep::Finish
        };
        SocketRounds { round: 0, total, step }
    }

    /// Goes on after the step at hand was done.
    pub fn advance(&mut self)
        requires
            old(self).well_formed(),
        ensures
            *final(self) == old(self).after(),
            final(self).well_formed(),
    {
        match self.step {
            SocketStep::Write => {
                self.step = SocketStep::Read;
            },
            SocketStep::Read => {
                self.round = self.round + 1;
                self.step = if self.round < self.total {
                    SocketStep::Write
                } else {
                    SocketStep::Finish
                };
            },
            SocketStep::Finish => {},
        }
    }
}

/// The rounds over a socket after `n` steps.
pub open spec fn socket_rounds_after(total: usize, n: nat) -> SocketRounds
    decreases n,
{
    if n == 0 {
        SocketRounds::start(0, total)
    } else {
        socket_rounds_after(total, (n - 1) as nat).after()
    }
}

/// Every round over a socket writes once and then reads once, and the test ends
/// after its rounds.
pub proof fn law_socket_rounds_write_then_read(total: usize, n: nat)
    ensures
        ({
            let r = socket_rounds_after(total, n);
            if n < 2 * total {
                &&& r.round == n / 2
                &&& r.step == if n % 2 == 0 {
                    SocketStep::Write
                } else {
                    SocketStep::Read
                }
            } else {
                r.step == SocketStep::Finish
            }
        }),
        socket_rounds_after(total, n).total == total,
    decreases n,
{
    if n > 0 {
        law_socket_rounds_write_then_read(total, (n - 1) as nat);
    }
}

/// Whether round `i` has a place in the sample table: it is no warm-up round and
/// not beyond the table.
pub open spec fn sampled(warmup: int, i: int) -> bool {
    warmup <= i < warmup + MAX_SAMPLES
}

/// Tests whether round `i` has a place in the sample table.
pub fn is_sampled(warmup: usize, i: usize) -> (r: bool)
    ensures
        r == sampled(warmup as int, i as int),
{
    i >= warmup && i - warmup < MAX_SAMPLES
}

/// The sample table after round `i` took `ticks`: warm-up rounds and rounds
/// beyond the table are not recorded.
pub open spec fn recorded(s: Seq<u64>, warmup: int, i: int, ticks: u64) -> Seq<u64> {
    if sampled(warmup, i) {
        s.update(i - warmup, ticks)
    } else {
        s
    }
}

/// A table of round-trip times.
pub struct Samples {
    pub ticks: Vec<u64>,
}

impl Samples {
    /// A table of zeros.
    pub fn new() -> (r: Samples)
        ensures
            r.ticks@ == Seq::new(MAX_SAMPLES as nat, |i: int| 0u64),
    {
        let mut ticks: Vec<u64> = Vec::new();
        let mut i: usize = 0;
        while i < MAX_SAMPLES
            invariant
                i <= MAX_SAMPLES,
                ticks@ == Seq::new(i as nat, |i: int| 0u64),
            decreases MAX_SAMPLES - i,
        {
            ticks.push(0);
            i = i + 1;
            assert(ticks@ =~= Seq::new(i as nat, |i: int| 0u64));
        }
        Samples { ticks }
    }

    /// Records that round `i` took `ticks`.
    pub fn record(&mut self, warmup: usize, i: usize, ticks: u64)
        requires
            old(self).ticks@.len() == MAX_SAMPLES,
        ensures
            final(self).ticks@ == recorded(
                old(self).ticks@,
                warmup as int,
                i as int,
                ticks,
            ),
            final(self).ticks@.len() == MAX_SAMPLES,
    {
        if is_sampled(warmup, i) {
            self.ticks.set(i - warmup, ticks);
        }
    }

    /// The samples of `count` measured rounds.
    pub fn measured(&self, count: usize) -> (r: Vec<u64>)
        requires
            self.ticks@.len() == MAX_SAMPLES,
        ensures
            r@ == self.ticks@.take(parse::min(count as int, MAX_SAMPLES as int)),
    {
        let n: usize = if count <= MAX_SAMPLES {
            count
        } else {
            MAX_SAMPLES
        };
        let mut r: Vec<u64> = Vec::new();
        let mut i: usize = 0;
        while i < n
            invariant
                i <= n <= MAX_SAMPLES,
                self.ticks@.len() == MAX_SAMPLES,
                r@ == self.ticks@.take(i as int),
            decreases n - i,
        {
            r.push(self.ticks[i]);
            i = i + 1;
            assert(r@ =~= self.ticks@.take(i as int));
        }
        r
    }
}

/// The first two hundred rounds behind the warm-up are recorded, each in its own
/// place, and no other round is.
pub proof fn law_measured_rounds_are_recorded(
    s: Seq<u64>,
    warmup: int,
    i: int,
    ticks: u64,
    j: int,
)
    requires
        s.len() == 200,
        0 <= j < 200,
    ensures
        recorded(s, warmup, i, ticks).len() == 200,
        i == warmup + j ==> recorded(s, warmup, i, ticks)[j] == ticks,
        i != warmup + j ==> recorded(s, warmup, i, ticks)[j] == s[j],
        sampled(warmup, i) <==> 0 <= i - warmup < 200,
{
}

/// A probe that finds the ring full waits for a flush and is tried again in the
/// same round; one that finds room is flushed and its reply awaited before the
/// next round begins.
pub proof fn law_round_order(round: usize, total: usize, enqueued: bool)
    requires
        round < total,
    ensures
        (Rounds { round, total, step: RoundStep::Enqueue }).after(false) == (Rounds {
            round,
            total,
            step: RoundStep::MakeRoom,
        }),
        (Rounds { round, total, step: RoundStep::MakeRoom }).after(enqueued) == (Rounds {
            round,
            total,
            step: RoundStep::Enqueue,
        }),
        (Rounds { round, total, step: RoundStep::Enqueue }).after(true) == (Rounds {
            round,
            total,
            step: RoundStep::Send,
        }),
        (Rounds { round, total, step: RoundStep::Send }).after(enqueued) == (Rounds {
            round,
            total,
            step: RoundStep::Receive,
        }),
        (Rounds { round, total, step: RoundStep::Receive }).after(enqueued).round == round + 1,
        (Rounds { round, total, step: RoundStep::Receive }).after(enqueued).total == total,
        (Rounds { round, total, step: RoundStep::Receive }).after(enqueued).step == if round + 1
            < total {
            RoundStep::Enqueue
        } else {
            RoundStep::Finish
        },
        (Rounds { round, total, step: RoundStep::Finish }).after(enqueued) == (Rounds {
            round,
            total,
            step: RoundStep::Finish,
        }),
{
}

} // verus!
