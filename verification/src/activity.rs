//! The activity series: one packet count per fixed time bucket, bounded
//! to the most recent window of buckets.

use vstd::prelude::*;
use crate::bounded::fifo_push;

verus! {

/// Default width of the activity window, in buckets.
pub const DEFAULT_ACTIVITY_BUCKETS: usize = 100;

/// Bounded series of per-interval packet counts; oldest evicted first.
pub struct ActivitySeries {
    buckets: Vec<u64>,
    cap: usize,
}

impl View for ActivitySeries {
    type V = Seq<u64>;

    closed spec fn view(&self) -> Seq<u64> {
        self.buckets@
    }
}

impl ActivitySeries {
    /// The configured window width.
    pub closed spec fn cap(self) -> int {
        self.cap as int
    }

    /// Never more buckets than the window width.
    pub open spec fn wf(self) -> bool {
        self@.len() <= self.cap() && self.cap() >= 1
    }

    pub fn new(cap: usize) -> (r: ActivitySeries)
        requires
            cap >= 1,
        ensures
            r@ == Seq::<u64>::empty(),
            r.cap() == cap as int,
            r.wf(),
    {
        ActivitySeries { buckets: Vec::new(), cap }
    }

    pub fn len(&self) -> (r: usize)
        ensures
            r as int == self@.len(),
    {
        self.buckets.len()
    }

    pub fn get(&self, i: usize) -> (r: u64)
        requires
            i < self@.len(),
        ensures
            r == self@[i as int],
    {
        self.buckets[i]
    }

    /// The whole window, oldest bucket first.
    pub fn values(&self) -> (r: Vec<u64>)
        ensures
            r@ == self@,
    {
        let mut out: Vec<u64> = Vec::new();
        let mut i: usize = 0;
        while i < self.buckets.len()
            invariant
                i <= self.buckets@.len(),
                out@ == self.buckets@.take(i as int),
            decreases self.buckets@.len() - i,
        {
            out.push(self.buckets[i]);
            proof {
                assert(self.buckets@.take(i as int).push(self.buckets@[i as int])
                    =~= self.buckets@.take(i + 1));
            }
            i = i + 1;
        }
        proof {
            assert(self.buckets@.take(self.buckets@.len() as int) =~= self.buckets@);
        }
        out
    }

    /// Appends one bucket — the records counted since the last tick —
    /// evicting the oldest bucket once the window is full.
    pub fn tick(&mut self, count: u64)
        requires
            old(self).wf(),
        ensures
            final(self)@ == fifo_push(old(self)@, count, old(self).cap()),
            final(self).cap() == old(self).cap(),
            final(self).wf(),
    {
        if self.buckets.len() == self.cap {
            let _evicted = self.buckets.remove(0);
            proof {
                assert(self.buckets@ =~= old(self)@.skip(1));
            }
        }
        self.buckets.push(count);
    }
}

} // verus!
