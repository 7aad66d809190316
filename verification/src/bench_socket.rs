//! The benchmark over the kernel's UDP sockets.

use vstd::prelude::*;

use crate::bench;
use crate::bench::Samples;

verus! {

/// The progress of a latency test.
pub struct RttRun {
    pub warmup: usize,
    pub samples: Samples,
    pub lost: usize,
}

impl RttRun {
    /// A test that has not begun.
    pub fn new(warmup: usize) -> (r: RttRun)
        ensures
            r.warmup == warmup,
            r.samples.ticks@ == Seq::new(bench::MAX_SAMPLES as nat, |i: int| 0u64),
            r.lost == 0,
    {
        RttRun { warmup, samples: Samples::new(), lost: 0 }
    }

    /// Tests whether a round enters the samples: only then its times are
    /// subtracted.
    pub fn measures(&self, i: usize, rc: isize) -> (r: bool)
        ensures
            r == (rc > 0 && bench::sampled(self.warmup as int, i as int)),
    {
        rc > 0 && bench::is_sampled(self.warmup, i)
    }

    /// Counts round `i`, which lasted from `t0` to `t1` and whose read returned
    /// `rc`: no bytes means that the reply was lost.
    pub fn record_round(&mut self, i: usize, t0: u64, t1: u64, rc: isize)
        requires
            old(self).samples.ticks@.len() == bench::MAX_SAMPLES,
            old(self).lost < usize::MAX,
            rc > 0 && bench::sampled(old(self).warmup as int, i as int) ==> t0 <= t1,
        ensures
            final(self).warmup == old(self).warmup,
            final(self).samples.ticks@.len() == bench::MAX_SAMPLES,
            final(self).lost == old(self).lost + if rc > 0 {
                0int
            } else {
                1
            },
            final(self).samples.ticks@ == if rc > 0 {
                bench::recorded(
                    old(self).samples.ticks@,
                    old(self).warmup as int,
                    i as int,
                    (t1 - t0) as u64,
                )
            } else {
                old(self).samples.ticks@
            },
    {
        if rc > 0 {
            if bench::is_sampled(self.warmup, i) {
                self.samples.record(self.warmup, i, t1 - t0);
            }
        } else {
            self.lost = self.lost + 1;
        }
    }
}

} // verus!
