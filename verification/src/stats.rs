//! Counters of the capture pipeline: unknown services and methods, the
//! pipeline's totals, and a bounded log of recent events.

use vstd::prelude::*;
use crate::seqs::{first_match, key_is, lemma_first_match_at, lemma_first_match_none, pair_get};

verus! {

/// How many times each key was seen, in order of first sight.
pub struct Counts {
    pub entries: Vec<(u64, u64)>,
}

/// No key occurs twice.
pub open spec fn keys_unique(s: Seq<(u64, u64)>) -> bool {
    forall|i: int, j: int| 0 <= i < j < s.len() ==> #[trigger] s[i].0 != #[trigger] s[j].0
}

/// The count of a key (0 for an unseen one).
pub open spec fn count_of(s: Seq<(u64, u64)>, k: u64) -> u64 {
    match pair_get(s, k) { Some(c) => c, None => 0 }
}

/// Every key is at most `bound`.
pub open spec fn keys_below(s: Seq<(u64, u64)>, bound: u64) -> bool {
    forall|q: int| 0 <= q < s.len() ==> #[trigger] s[q].0 <= bound
}

/// Whether a sighting with this count is reported: the first, and every
/// hundredth.
pub open spec fn reported(count: u64) -> bool {
    count == 1 || count % 100 == 0
}

impl Counts {
    pub open spec fn wf(&self) -> bool {
        keys_unique(self.entries@)
    }

    pub fn new() -> (r: Counts)
        ensures
            r.wf(),
            r.entries@.len() == 0,
    {
        Counts { entries: Vec::new() }
    }

    /// Counts one more sighting of `k`; returns the new count.
    pub fn bump(&mut self, k: u64) -> (c: u64)
        requires
            old(self).wf(),
            count_of(old(self).entries@, k) < u64::MAX,
        ensures
            final(self).wf(),
            c == count_of(old(self).entries@, k) + 1,
            count_of(final(self).entries@, k) == c,
            forall|j: u64| j != k ==> count_of(final(self).entries@, j) == count_of(old(self).entries@, j),
            forall|b: u64| keys_below(old(self).entries@, b) && k <= b ==> keys_below(final(self).entries@, b),
    {
        let ghost s0 = self.entries@;
        let ghost p = key_is::<u64, u64>(k);
        let mut i: usize = 0;
        while i < self.entries.len()
            invariant
                self.entries@ == s0,
                s0 == old(self).entries@,
                count_of(s0, k) < u64::MAX,
                keys_unique(s0),
                p == key_is::<u64, u64>(k),
                i <= s0.len(),
                forall|q: int| 0 <= q < i ==> !p(#[trigger] s0[q]),
            decreases s0.len() - i,
        {
            if self.entries[i].0 == k {
                proof { lemma_first_match_at(s0, p, i as int); }
                assert(count_of(s0, k) == s0[i as int].1);
                let c = self.entries[i].1 + 1;
                self.entries.set(i, (k, c));
                proof {
                    let s1 = self.entries@;
                    assert(s1 == s0.update(i as int, (k, c)));
                    assert(keys_unique(s1)) by {
                        assert forall|a: int, b: int| 0 <= a < b < s1.len() implies #[trigger] s1[a].0 != #[trigger] s1[b].0 by {
                            assert(s1[a].0 == s0[a].0 && s1[b].0 == s0[b].0);
                        }
                    }
                    lemma_first_match_at(s1, p, i as int);
                    assert forall|j: u64| j != k implies count_of(s1, j) == count_of(s0, j) by {
                        lemma_other_key(s0, s1, i as int, k, j);
                    }
                }
                return c;
            }
            i = i + 1;
        }
        proof { lemma_first_match_none(s0, p); }
        self.entries.push((k, 1));
        proof {
            let s1 = self.entries@;
            assert(keys_unique(s1)) by {
                assert forall|a: int, b: int| 0 <= a < b < s1.len() implies #[trigger] s1[a].0 != #[trigger] s1[b].0 by {
                    if b == s0.len() {
                        assert(!p(s0[a]));
                    } else {
                        assert(s1[a] == s0[a] && s1[b] == s0[b]);
                    }
                }
            }
            lemma_first_match_at(s1, p, s0.len() as int);
            assert forall|j: u64| j != k implies count_of(s1, j) == count_of(s0, j) by {
                lemma_push_other_key(s0, k, j);
            }
        }
        1
    }
}

proof fn lemma_other_key(s0: Seq<(u64, u64)>, s1: Seq<(u64, u64)>, i: int, k: u64, j: u64)
    requires
        0 <= i < s0.len(),
        s0[i].0 == k,
        s1 == s0.update(i, (k, s1[i].1)),
        j != k,
    ensures
        count_of(s1, j) == count_of(s0, j),
{
    let pj = key_is::<u64, u64>(j);
    assert forall|q: int| 0 <= q < s0.len() implies pj(s0[q]) == pj(s1[q]) by {}
    lemma_first_match_same(s0, s1, pj);
}

proof fn lemma_push_other_key(s0: Seq<(u64, u64)>, k: u64, j: u64)
    requires
        j != k,
    ensures
        count_of(s0.push((k, 1)), j) == count_of(s0, j),
{
    let pj = key_is::<u64, u64>(j);
    let s1 = s0.push((k, 1));
    match first_match(s0, pj) {
        Some(x) => {
            lemma_first_match_prefix(s0, s1, pj);
        },
        None => {
            lemma_first_match_prefix(s0, s1, pj);
        },
    }
}

/// Sequences that agree on where `p` holds, and on the matching elements, match alike.
proof fn lemma_first_match_same(a: Seq<(u64, u64)>, b: Seq<(u64, u64)>, p: spec_fn((u64, u64)) -> bool)
    requires
        a.len() == b.len(),
        forall|q: int| 0 <= q < a.len() ==> p(a[q]) == p(b[q]),
        forall|q: int| 0 <= q < a.len() && p(a[q]) ==> a[q] == b[q],
    ensures
        first_match(a, p) == first_match(b, p),
    decreases a.len(),
{
    if a.len() > 0 {
        assert(p(a[0]) == p(b[0]));
        lemma_first_match_same(a.drop_first(), b.drop_first(), p);
    }
}

/// Appending an element keeps an earlier match, and can only add one.
proof fn lemma_first_match_prefix(a: Seq<(u64, u64)>, b: Seq<(u64, u64)>, p: spec_fn((u64, u64)) -> bool)
    requires
        b.len() == a.len() + 1,
        forall|q: int| 0 <= q < a.len() ==> b[q] == a[q],
        !p(b[a.len() as int]),
    ensures
        first_match(a, p) == first_match(b, p),
    decreases a.len(),
{
    if a.len() > 0 {
        assert(b[0] == a[0]);
        lemma_first_match_prefix(a.drop_first(), b.drop_first(), p);
    } else {
        assert(!p(b[0]));
        assert(b.drop_first() =~= Seq::<(u64, u64)>::empty());
        assert(first_match(b.drop_first(), p) is None);
    }
}

/// Counters of notifies nobody decodes: by method of the known service and
/// by unknown service.
pub struct UnknownStats {
    pub methods: Counts,
    pub services: Counts,
}

impl UnknownStats {
    pub open spec fn wf(&self) -> bool {
        &&& self.methods.wf()
        &&& self.services.wf()
        &&& keys_below(self.methods.entries@, u32::MAX as u64)
    }

    pub fn new() -> (r: UnknownStats)
        ensures
            r.wf(),
            r.methods.entries@.len() == 0,
            r.services.entries@.len() == 0,
    {
        UnknownStats { methods: Counts::new(), services: Counts::new() }
    }

    /// Counts an unknown method of a known service; says whether this
    /// sighting is to be reported (the first and every hundredth).
    pub fn log_unknown(&mut self, service_uuid: u64, method_id: u32, data: &[u8]) -> (report: bool)
        requires
            old(self).wf(),
            count_of(old(self).methods.entries@, method_id as u64) < u64::MAX,
        ensures
            final(self).wf(),
            count_of(final(self).methods.entries@, method_id as u64) == count_of(old(self).methods.entries@, method_id as u64) + 1,
            forall|j: u64| j != method_id ==> count_of(final(self).methods.entries@, j) == count_of(old(self).methods.entries@, j),
            final(self).services == old(self).services,
            report == reported(count_of(final(self).methods.entries@, method_id as u64)),
    {
        let c = self.methods.bump(method_id as u64);
        c == 1 || c % 100 == 0
    }

    /// Counts a notify of an unknown service; says whether this sighting is
    /// to be reported.
    pub fn log_unknown_service(&mut self, service_uuid: u64, method_id: u32, len: usize) -> (report: bool)
        requires
            old(self).wf(),
            count_of(old(self).services.entries@, service_uuid) < u64::MAX,
        ensures
            final(self).wf(),
            count_of(final(self).services.entries@, service_uuid) == count_of(old(self).services.entries@, service_uuid) + 1,
            forall|j: u64| j != service_uuid ==> count_of(final(self).services.entries@, j) == count_of(old(self).services.entries@, j),
            final(self).methods == old(self).methods,
            report == reported(count_of(final(self).services.entries@, service_uuid)),
    {
        let c = self.services.bump(service_uuid);
        c == 1 || c % 100 == 0
    }

    /// The unknown methods with their counts, most frequent first.
    pub fn opcode_stats(&self) -> (r: Vec<(u32, u64)>)
        requires
            self.wf(),
        ensures
            r@.len() == self.methods.entries@.len(),
            forall|i: int, j: int| 0 <= i < j < r@.len() ==> r@[i].1 >= r@[j].1,
            r@.map_values(|e: (u32, u64)| (e.0 as u64, e.1)).to_multiset() == self.methods.entries@.to_multiset(),
    {
        let src = &self.methods.entries;
        let mut out: Vec<(u32, u64)> = Vec::new();
        proof {
            assert(src@.take(0) =~= Seq::<(u64, u64)>::empty());
            assert(out@.map_values(|e: (u32, u64)| (e.0 as u64, e.1)) =~= Seq::<(u64, u64)>::empty());
        }
        let mut i: usize = 0;
        while i < src.len()
            invariant
                i <= src@.len(),
                forall|q: int| 0 <= q < src@.len() ==> src@[q].0 <= u32::MAX,
                out@.len() == i,
                forall|a: int, b: int| 0 <= a < b < out@.len() ==> out@[a].1 >= out@[b].1,
                out@.map_values(|e: (u32, u64)| (e.0 as u64, e.1)).to_multiset() == src@.take(i as int).to_multiset(),
            decreases src@.len() - i,
        {
            let (k, c) = src[i];
            let item: (u32, u64) = (k as u32, c);
            let mut pos: usize = out.len();
            while pos > 0 && out[pos - 1].1 < c
                invariant
                    pos <= out@.len(),
                    forall|q: int| pos <= q < out@.len() ==> out@[q].1 < c,
                decreases pos,
            {
                pos = pos - 1;
            }
            let ghost before = out@;
            out.insert(pos, item);
            proof {
                broadcast use vstd::seq_lib::group_to_multiset_ensures;
                assert(src@.take(i + 1) =~= src@.take(i as int).push(src@[i as int]));
                assert(out@.map_values(|e: (u32, u64)| (e.0 as u64, e.1))
                    =~= before.map_values(|e: (u32, u64)| (e.0 as u64, e.1)).insert(pos as int, (item.0 as u64, item.1)));
                assert(item.0 as u64 == k);
                assert forall|a: int, b: int| 0 <= a < b < out@.len() implies out@[a].1 >= out@[b].1 by {
                    if b < pos {
                        assert(out@[a] == before[a] && out@[b] == before[b]);
                    } else if b == pos {
                        assert(out@[a] == before[a]);
                        if pos > 0 {
                            assert(before[pos - 1].1 >= c);
                        }
                    } else if a < pos {
                        assert(out@[a] == before[a] && out@[b] == before[b - 1]);
                    } else if a == pos {
                        assert(out@[b] == before[b - 1]);
                    } else {
                        assert(out@[a] == before[a - 1] && out@[b] == before[b - 1]);
                    }
                }
            }
            i = i + 1;
        }
        assert(src@.take(src@.len() as int) =~= src@);
        out
    }
}

/// The totals of the capture pipeline.
#[derive(Clone, Copy, PartialEq, Eq, Debug, Structural)]
pub struct PipelineStats {
    pub raw_packets: u64,
    pub payloads_extracted: u64,
    pub frames_processed: u64,
    pub events_dispatched: u64,
    pub unknown_dispatches: u64,
}

/// The pipeline's counters, as the capture loop keeps them.
pub struct PipelineCounters {
    pub stats: PipelineStats,
}

impl PipelineCounters {
    pub fn new() -> (r: PipelineCounters)
        ensures
            r.stats == (PipelineStats {
                raw_packets: 0,
                payloads_extracted: 0,
                frames_processed: 0,
                events_dispatched: 0,
                unknown_dispatches: 0,
            }),
    {
        PipelineCounters {
            stats: PipelineStats {
                raw_packets: 0,
                payloads_extracted: 0,
                frames_processed: 0,
                events_dispatched: 0,
                unknown_dispatches: 0,
            },
        }
    }

    /// Counts `n` more captured packets (the counter wraps around).
    pub fn count_raw_packets(&mut self, n: u64)
        ensures
            final(self).stats == (PipelineStats { raw_packets: old(self).stats.raw_packets.wrapping_add(n), ..old(self).stats }),
    {
        self.stats.raw_packets = self.stats.raw_packets.wrapping_add(n);
    }

    /// Counts `n` more payloads taken out of packets (the counter wraps around).
    pub fn count_payloads(&mut self, n: u64)
        ensures
            final(self).stats == (PipelineStats { payloads_extracted: old(self).stats.payloads_extracted.wrapping_add(n), ..old(self).stats }),
    {
        self.stats.payloads_extracted = self.stats.payloads_extracted.wrapping_add(n);
    }

    /// Counts `n` more reassembled frames (the counter wraps around).
    pub fn count_frames(&mut self, n: u64)
        ensures
            final(self).stats == (PipelineStats { frames_processed: old(self).stats.frames_processed.wrapping_add(n), ..old(self).stats }),
    {
        self.stats.frames_processed = self.stats.frames_processed.wrapping_add(n);
    }

    /// Counts `n` more events handed on (the counter wraps around).
    pub fn count_events(&mut self, n: u64)
        ensures
            final(self).stats == (PipelineStats { events_dispatched: old(self).stats.events_dispatched.wrapping_add(n), ..old(self).stats }),
    {
        self.stats.events_dispatched = self.stats.events_dispatched.wrapping_add(n);
    }

    /// A snapshot of all counters.
    pub fn load_all(&self) -> (r: PipelineStats)
        ensures
            r == self.stats,
    {
        self.stats
    }
}

/// Most events the recent-event log keeps.
pub const MAX_EVENT_ENTRIES: usize = 500;

/// The texts of the most recent events, oldest first.
pub struct EventLog {
    pub entries: Vec<String>,
}

impl EventLog {
    pub open spec fn view(&self) -> Seq<Seq<char>> {
        self.entries@.map_values(|s: String| s@)
    }

    pub fn new() -> (r: EventLog)
        ensures
            r.view().len() == 0,
    {
        EventLog { entries: Vec::new() }
    }

    /// Records an event, dropping the oldest when the log is full.
    pub fn record_event_str(&mut self, text: String)
        requires
            old(self).view().len() <= MAX_EVENT_ENTRIES,
        ensures
            final(self).view() == if old(self).view().len() >= MAX_EVENT_ENTRIES {
                old(self).view().drop_first().push(text@)
            } else {
                old(self).view().push(text@)
            },
            final(self).view().len() <= MAX_EVENT_ENTRIES,
    {
        let ghost v0 = self.view();
        let ghost t = text@;
        if self.entries.len() >= MAX_EVENT_ENTRIES {
            let _ = self.entries.remove(0);
            assert(self.view() =~= v0.drop_first());
        }
        let ghost v1 = self.view();
        self.entries.push(text);
        assert(self.view() =~= v1.push(t));
    }
}

} // verus!
