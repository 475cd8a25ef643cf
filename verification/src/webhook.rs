//! Which encounter reports go to the webhook: a report whose key was sent
//! within the last half minute is a duplicate and is dropped. The key is the
//! caller's hash of the report's zone, start time and player count.

use vstd::prelude::*;
use crate::seqs::{lemma_filter_empty, lemma_filter_push};

verus! {

/// How long a sent report's key is remembered, in microseconds.
pub const DEDUP_TTL_US: u64 = 30_000_000;
/// How many keys are remembered at most.
pub const DEDUP_MAX: usize = 5;

/// Microseconds from `at` to `now_us` (0 if the clock went back).
pub open spec fn age_us(at: u64, now_us: u64) -> int {
    if now_us >= at { now_us - at } else { 0 }
}

/// Whether a remembered key is still fresh at `now_us`.
pub open spec fn still_fresh(e: (u64, u64), now_us: u64) -> bool {
    age_us(e.1, now_us) < DEDUP_TTL_US
}

/// The keys of recently sent reports, oldest first, with when they were sent.
pub struct DedupQueue {
    pub recent: Vec<(u64, u64)>,
}

impl DedupQueue {
    pub fn new() -> (r: DedupQueue)
        ensures
            r.recent@.len() == 0,
    {
        DedupQueue { recent: Vec::new() }
    }

    /// Whether a report with this key was sent within the time to live; the
    /// stale keys are forgotten, and a key that is not a duplicate is
    /// remembered as sent now (the oldest forgotten past the limit).
    pub fn is_duplicate(&mut self, key: u64, now_us: u64) -> (dup: bool)
        requires
            old(self).recent@.len() <= DEDUP_MAX,
        ensures
            ({
                let live = old(self).recent@.filter(|e: (u64, u64)| still_fresh(e, now_us));
                let pushed = live.push((key, now_us));
                &&& dup == exists|i: int| 0 <= i < live.len() && (#[trigger] live[i]).0 == key
                &&& dup ==> final(self).recent@ == live
                &&& !dup ==> final(self).recent@ == if pushed.len() > DEDUP_MAX { pushed.drop_first() } else { pushed }
            }),
            final(self).recent@.len() <= DEDUP_MAX,
    {
        let ghost r0 = self.recent@;
        let mut live: Vec<(u64, u64)> = Vec::new();
        let mut i: usize = 0;
        proof { lemma_filter_empty(r0.take(0), |e: (u64, u64)| still_fresh(e, now_us)); }
        assert(r0.take(0) =~= Seq::<(u64, u64)>::empty());
        while i < self.recent.len()
            invariant
                self.recent@ == r0,
                r0.len() <= DEDUP_MAX,
                i <= r0.len(),
                live@ == r0.take(i as int).filter(|e: (u64, u64)| still_fresh(e, now_us)),
            decreases r0.len() - i,
        {
            let e = self.recent[i];
            proof {
                assert(r0.take(i + 1) =~= r0.take(i as int).push(e));
                lemma_filter_push(r0.take(i as int), |e: (u64, u64)| still_fresh(e, now_us), e);
            }
            let age: u64 = if now_us >= e.1 { now_us - e.1 } else { 0 };
            if age < DEDUP_TTL_US {
                live.push(e);
            }
            i = i + 1;
        }
        assert(r0.take(r0.len() as int) =~= r0);
        let ghost lv = live@;
        proof {
            r0.lemma_filter_len(|e: (u64, u64)| still_fresh(e, now_us));
        }
        let mut seen = false;
        let mut j: usize = 0;
        while j < live.len()
            invariant
                live@ == lv,
                j <= lv.len(),
                seen == exists|q: int| 0 <= q < j && (#[trigger] lv[q]).0 == key,
            decreases lv.len() - j,
        {
            if live[j].0 == key {
                seen = true;
            }
            j = j + 1;
        }
        if seen {
            self.recent = live;
            return true;
        }
        live.push((key, now_us));
        if live.len() > DEDUP_MAX {
            let ghost p = live@;
            let _ = live.remove(0);
            assert(live@ =~= p.drop_first());
        }
        self.recent = live;
        false
    }
}

} // verus!
