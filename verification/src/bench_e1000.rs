//! The benchmark of the e1000 device over the kernel's UDP sockets.

use vstd::prelude::*;

use crate::bench;

verus! {

/// The progress of a latency test. Unlike a table by round, only rounds that
/// were answered take a place.
pub struct RttRun {
    pub warmup: usize,
    /// The samples collected, in order.
    pub collected: Vec<u64>,
    pub lost: usize,
}

impl RttRun {
    /// A test that has not begun.
    pub fn new(warmup: usize) -> (r: RttRun)
        ensures
            r.warmup == warmup,
            r.collected@.len() == 0,
            r.lost == 0,
    {
        RttRun { warmup, collected: Vec::new(), lost: 0 }
    }

    /// Whether a round enters the samples: it was answered, it is no warm-up
    /// round, and there is a place left.
    pub open spec fn collects(self, i: int, rc: int) -> bool {
        rc > 0 && i >= self.warmup && self.collected@.len() < bench::MAX_SAMPLES
    }

    /// Tests whether a round enters the samples: only then its times are
    /// subtracted.
    pub fn measures(&self, i: usize, rc: isize) -> (r: bool)
        ensures
            r == self.collects(i as int, rc as int),
    {
        rc > 0 && i >= self.warmup && self.collected.len() < bench::MAX_SAMPLES
    }

    /// Counts round `i`, which lasted from `t0` to `t1` and whose read returned
    /// `rc`: no bytes means that the reply was lost.
    pub fn record_round(&mut self, i: usize, t0: u64, t1: u64, rc: isize)
        requires
            old(self).lost < usize::MAX,
            old(self).collects(i as int, rc as int) ==> t0 <= t1,
        ensures
            final(self).warmup == old(self).warmup,
            final(self).lost == old(self).lost + if rc > 0 {
                0int
            } else {
                1
            },
            final(self).collected@ == if old(self).collects(i as int, rc as int) {
                old(self).collected@.push((t1 - t0) as u64)
            } else {
                old(self).collected@
            },
    {
        if rc > 0 {
            if self.measures(i, rc) {
                self.collected.push(t1 - t0);
            }
        } else {
            self.lost = self.lost + 1;
        }
    }
}

/// A round is measured just where it was answered, is no warm-up round, and
/// fewer than two hundred were measured before it.
pub proof fn law_answered_rounds_are_measured(run: RttRun, i: int, rc: int)
    ensures
        run.collects(i, rc) <==> rc >= 1 && i >= run.warmup && run.collected@.len() <= 199,
{
}

} // verus!
