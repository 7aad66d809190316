//! UDP sockets.

use vstd::prelude::*;

use crate::addr::{IPv4, MacAddress};
use crate::frame;
use crate::parse;
use crate::stack::NetConfig;
use crate::userbuf;

verus! {

/// How often a reader polls before it looks at the clock and sleeps.
pub const PRE_SLEEP_POLL_BUDGET: usize = 64;

/// How long a reader waits for data.
pub const READ_TIMEOUT_MS: usize = 200;

/// A UDP socket: our port, the peer, and its place in the socket table.
pub struct UDP {
    pub target: IPv4,
    pub sport: u16,
    pub dport: u16,
    pub socket_index: usize,
}

/// The progress of a blocking read.
#[derive(Clone, Copy, PartialEq, Eq, Structural)]
pub struct UdpReadRun {
    pub deadline_ms: usize,
    /// Polls since the reader last slept.
    pub polls: usize,
}

/// What a reader is told.
pub enum ReadEvent {
    /// The socket's queue gave this data, or had none.
    Popped(Option<Vec<u8>>),
    /// The clock reads this many milliseconds.
    Clock(usize),
}

/// What a reader does next.
#[derive(Clone, Copy, PartialEq, Eq, Structural)]
pub enum ReadStep {
    /// Poll the device once, then look at the queue.
    Poll,
    /// Read the clock.
    ReadClock,
    /// Let another task run, then look at the queue.
    Suspend,
    /// Return this many bytes to the process.
    Done(usize),
}

impl UdpReadRun {
    /// A read that starts at `now_ms`.
    pub fn new(now_ms: usize) -> (r: UdpReadRun)
        requires
            now_ms + READ_TIMEOUT_MS <= usize::MAX,
        ensures
            r.deadline_ms == now_ms + READ_TIMEOUT_MS,
            r.polls == 0,
    {
        UdpReadRun { deadline_ms: now_ms + READ_TIMEOUT_MS, polls: 0 }
    }

    /// The run and its next step after the queue had no data: the polls of a
    /// round come before the clock.
    pub open spec fn after_empty(self) -> (UdpReadRun, ReadStep) {
        if self.polls < PRE_SLEEP_POLL_BUDGET {
            (UdpReadRun { polls: (self.polls + 1) as usize, ..self }, ReadStep::Poll)
        } else {
            (self, ReadStep::ReadClock)
        }
    }

    /// The run and its next step after the clock was read: at the deadline the
    /// read ends empty, before it a new round begins.
    pub open spec fn after_clock(self, now_ms: usize) -> (UdpReadRun, ReadStep) {
        if now_ms >= self.deadline_ms {
            (self, ReadStep::Done(0))
        } else {
            (UdpReadRun { polls: 0, ..self }, ReadStep::Suspend)
        }
    }
}

impl UDP {
    /// A socket at the place `index` that the socket table gave it.
    pub fn new(target: IPv4, sport: u16, dport: u16, index: Option<usize>) -> (r: UDP)
        requires
            index is Some,
        ensures
            r.target == target,
            r.sport == sport,
            r.dport == dport,
            Some(r.socket_index) == index,
    {
        UDP { target, sport, dport, socket_index: index.unwrap() }
    }

    pub fn readable(&self) -> (r: bool)
        ensures
            r,
    {
        true
    }

    pub fn writable(&self) -> (r: bool)
        ensures
            r,
    {
        true
    }

    /// Advances a blocking read into `buf`. The queue is looked at first; data
    /// found there ends the read.
    pub fn read(&self, run: &mut UdpReadRun, event: ReadEvent, buf: &mut Vec<Vec<u8>>) -> (r:
        ReadStep)
        ensures
            match event {
                ReadEvent::Popped(Some(data)) => {
                    let n = parse::min(
                        userbuf::flat(old(buf)@).len() as int,
                        data@.len() as int,
                    );
                    &&& *final(run) == *old(run)
                    &&& r == ReadStep::Done(n as usize)
                    &&& final(buf)@.len() == old(buf)@.len()
                    &&& forall|i: int|
                        0 <= i < final(buf)@.len() ==> (#[trigger] final(buf)@[i])@.len() == old(
                            buf,
                        )@[i]@.len()
                    &&& userbuf::flat(final(buf)@) == data@.take(n) + userbuf::flat(
                        old(buf)@,
                    ).skip(n)
                },
                ReadEvent::Popped(None) => (*final(run), r) == old(run).after_empty()
                    && *final(buf) == *old(buf),
                ReadEvent::Clock(now_ms) => (*final(run), r) == old(run).after_clock(now_ms)
                    && *final(buf) == *old(buf),
            },
    {
        match event {
            ReadEvent::Popped(Some(data)) => ReadStep::Done(userbuf::copy_to_user(buf, &data)),
            ReadEvent::Popped(None) => {
                if run.polls < PRE_SLEEP_POLL_BUDGET {
                    run.polls = run.polls + 1;
                    ReadStep::Poll
                } else {
                    ReadStep::ReadClock
                }
            },
            ReadEvent::Clock(now_ms) => {
                if now_ms >= run.deadline_ms {
                    ReadStep::Done(0)
                } else {
                    run.polls = 0;
                    ReadStep::Suspend
                }
            },
        }
    }

    /// The frame that a write sends, and what it returns: all bytes of the
    /// buffers as one datagram, or nothing where the peer's hardware address
    /// could not be resolved.
    pub fn write(
        &self,
        config: &NetConfig,
        buffers: &Vec<Vec<u8>>,
        dst_mac: Option<MacAddress>,
    ) -> (r: (Option<Vec<u8>>, usize))
        ensures
            match dst_mac {
                Some(mac) => r.0 is Some && r.0->0@ == frame::udp_frame(
                    config.mac@,
                    mac@,
                    config.ip@,
                    self.target@,
                    self.sport,
                    self.dport,
                    userbuf::flat(buffers@),
                ) && r.1 == userbuf::flat(buffers@).len(),
                None => r.0 is None && r.1 == 0,
            },
    {
        let data = userbuf::gather(buffers);
        let len = data.len();
        match dst_mac {
            Some(mac) => {
                let f = frame::build_udp_packet(
                    &config.mac,
                    &mac,
                    &config.ip,
                    &self.target,
                    self.sport,
                    self.dport,
                    &data,
                );
                (Some(f), len)
            },
            None => (None, 0),
        }
    }
}

/// The run after `n` looks at an empty queue.
pub open spec fn after_empties(run: UdpReadRun, n: nat) -> UdpReadRun
    decreases n,
{
    if n == 0 {
        run
    } else {
        after_empties(run, (n - 1) as nat).after_empty().0
    }
}

/// A round without data polls exactly 64 times before it reads the clock.
pub proof fn law_round_polls_before_clock(run: UdpReadRun, n: nat)
    requires
        run.polls == 0,
        n <= PRE_SLEEP_POLL_BUDGET,
    ensures
        after_empties(run, n).deadline_ms == run.deadline_ms,
        after_empties(run, n).polls == n,
        after_empties(run, n).after_empty().1 == if n < PRE_SLEEP_POLL_BUDGET {
            ReadStep::Poll
        } else {
            ReadStep::ReadClock
        },
    decreases n,
{
    if n > 0 {
        law_round_polls_before_clock(run, (n - 1) as nat);
    }
}

/// A read without data ends, with zero bytes, at the first clock reading that
/// is no earlier than its start plus the timeout, and at none before.
pub proof fn law_read_times_out(run: UdpReadRun, start_ms: usize, now_ms: usize)
    requires
        run.deadline_ms == start_ms + READ_TIMEOUT_MS,
    ensures
        run.after_clock(now_ms).1 == ReadStep::Done(0) <==> now_ms - start_ms >= READ_TIMEOUT_MS,
{
}

/// A read polls 64 times in a row, then looks at the clock. Within 200
/// milliseconds of its start it sleeps and begins a new round of polls; from
/// then on it ends without data.
pub proof fn law_rounds_of_a_read(run: UdpReadRun, start_ms: int, now_ms: usize)
    requires
        run.deadline_ms == start_ms + 200,
    ensures
        run.polls < 64 ==> run.after_empty().1 == ReadStep::Poll && run.after_empty().0.polls
            == run.polls + 1,
        run.polls >= 64 ==> run.after_empty().1 == ReadStep::ReadClock && run.after_empty().0
            == run,
        run.after_empty().0.deadline_ms == run.deadline_ms,
        now_ms - start_ms >= 200 ==> run.after_clock(now_ms).1 == ReadStep::Done(0),
        now_ms - start_ms < 200 ==> run.after_clock(now_ms).1 == ReadStep::Suspend
            && run.after_clock(now_ms).0.polls == 0,
        run.after_clock(now_ms).0.deadline_ms == run.deadline_ms,
{
}

} // verus!
