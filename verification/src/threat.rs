//! The threat table: per target, the threat each entity holds, kept while
//! the target is active.

use vstd::prelude::*;
use std::collections::HashMap;
use crate::event::{events_view, EventView, GameEvent};
use crate::seqs::{lemma_filter_empty, lemma_filter_push};

verus! {

broadcast use vstd::std_specs::hash::group_hash_axioms;

/// How long a target without updates is kept, in microseconds.
pub const ENTRY_TTL_US: u64 = 60_000_000;

/// One target's threat list, with when it last changed.
pub struct TargetRow {
    /// Entity id and threat, in order of first update.
    pub players: Vec<(u64, u64)>,
    pub last_activity_us: u64,
}

/// The threat module's state.
pub struct ThreatTable {
    pub names: HashMap<u64, String>,
    /// Target id and row, in order of first update; each target once.
    pub rows: Vec<(u64, TargetRow)>,
    pub selected: Option<u64>,
}

/// No key occurs twice.
pub open spec fn unique_firsts<V>(s: Seq<(u64, V)>) -> bool {
    forall|i: int, j: int| 0 <= i < j < s.len() ==> #[trigger] s[i].0 != #[trigger] s[j].0
}

/// Whether `k` is a key of `s`.
pub open spec fn has_first<V>(s: Seq<(u64, V)>, k: u64) -> bool {
    exists|i: int| 0 <= i < s.len() && #[trigger] s[i].0 == k
}

/// The pairs after setting `k` to `v`: in place where `k` is, else last.
pub open spec fn set_pair(s: Seq<(u64, u64)>, k: u64, v: u64) -> Seq<(u64, u64)> {
    if has_first(s, k) {
        s.map_values(|e: (u64, u64)| if e.0 == k { (k, v) } else { e })
    } else {
        s.push((k, v))
    }
}

pub open spec fn row_view(r: TargetRow) -> (Seq<(u64, u64)>, u64) {
    (r.players@, r.last_activity_us)
}

/// A row is fresh while less than the time to live has passed.
pub open spec fn fresh_at(last: u64, now_us: u64) -> bool {
    (if now_us >= last { now_us - last } else { 0 }) < ENTRY_TTL_US
}

/// Sets `k` to `v` in a list of pairs.
fn set_in(s: &mut Vec<(u64, u64)>, k: u64, v: u64)
    requires
        unique_firsts(old(s)@),
    ensures
        final(s)@ == set_pair(old(s)@, k, v),
        unique_firsts(final(s)@),
{
    let n = s.len();
    let mut i: usize = 0;
    while i < n
        invariant
            n == s@.len(),
            i <= n,
            s@ == old(s)@,
            unique_firsts(s@),
            forall|q: int| 0 <= q < i ==> s@[q].0 != k,
        decreases n - i,
    {
        if s[i].0 == k {
            let ghost s0 = s@;
            s.set(i, (k, v));
            assert(has_first(s0, k));
            assert(s@ =~= s0.map_values(|e: (u64, u64)| if e.0 == k { (k, v) } else { e })) by {
                assert forall|q: int| 0 <= q < s0.len() implies s@[q] == (if s0[q].0 == k { (k, v) } else { s0[q] }) by {
                    if q != i && s0[q].0 == k {
                        if q < i { assert(s0[q].0 != s0[i as int].0); } else { assert(s0[i as int].0 != s0[q].0); }
                    }
                }
            }
            assert(unique_firsts(s@)) by {
                assert forall|a: int, b: int| 0 <= a < b < s@.len() implies #[trigger] s@[a].0 != #[trigger] s@[b].0 by {
                    assert(s@[a].0 == s0[a].0 && s@[b].0 == s0[b].0);
                }
            }
            return;
        }
        i = i + 1;
    }
    let ghost s0 = s@;
    assert(!has_first(s0, k));
    s.push((k, v));
    assert(unique_firsts(s@)) by {
        assert forall|a: int, b: int| 0 <= a < b < s@.len() implies #[trigger] s@[a].0 != #[trigger] s@[b].0 by {
            if b == s0.len() {
                assert(s@[a] == s0[a]);
            } else {
                assert(s@[a] == s0[a] && s@[b] == s0[b]);
            }
        }
    }
}

/// A row as contracts read it: its entities with their threat, and when it
/// last changed.
pub type RowView = (u64, (Seq<(u64, u64)>, u64));

/// What the table holds.
pub ghost struct ThreatModel {
    pub names: Map<u64, Seq<char>>,
    pub rows: Seq<RowView>,
    pub selected: Option<u64>,
}

/// The rows after `entity` is seen holding `threat` on `target` at `now_us`:
/// the target's row is updated in place, or a new row is added last.
pub open spec fn rows_recorded(rows: Seq<RowView>, target: u64, entity: u64, threat: u64, now_us: u64) -> Seq<RowView> {
    if has_first(rows, target) {
        rows.map_values(|e: RowView| if e.0 == target { (target, (set_pair(e.1.0, entity, threat), now_us)) } else { e })
    } else {
        rows.push((target, (set_pair(Seq::empty(), entity, threat), now_us)))
    }
}

pub open spec fn key_is_not(target: u64) -> spec_fn(RowView) -> bool {
    |e: RowView| e.0 != target
}

pub open spec fn fresh_row(now_us: u64) -> spec_fn(RowView) -> bool {
    |e: RowView| fresh_at(e.1.1, now_us)
}

/// The views of a list of rows.
pub open spec fn rows_of(s: Seq<(u64, TargetRow)>) -> Seq<RowView> {
    s.map_values(|e: (u64, TargetRow)| (e.0, row_view(e.1)))
}

/// What one event does to the table.
pub open spec fn threat_event(m: ThreatModel, ev: EventView, now_us: u64) -> ThreatModel {
    match ev {
        EventView::EntityName { id, name, .. } =>
            if name.len() > 0 { ThreatModel { names: m.names.insert(id.0, name), ..m } } else { m },
        EventView::EntityDespawn { id } => ThreatModel {
            names: m.names.remove(id.0),
            rows: m.rows.filter(key_is_not(id.0)),
            selected: if m.selected == Some(id.0) { None } else { m.selected },
        },
        EventView::ZoneChange { .. } => ThreatModel { rows: Seq::empty(), selected: None, ..m },
        EventView::ThreatUpdate { target_id, entity_id, threat } => ThreatModel {
            rows: rows_recorded(m.rows, target_id.0, entity_id.0, threat, now_us),
            selected: if m.selected is None { Some(target_id.0) } else { m.selected },
            ..m
        },
        _ => m,
    }
}

/// The events applied in order.
pub open spec fn threat_events(m: ThreatModel, evs: Seq<EventView>, now_us: u64) -> ThreatModel
    decreases evs.len(),
{
    if evs.len() == 0 { m } else { threat_event(threat_events(m, evs.drop_last(), now_us), evs.last(), now_us) }
}

/// Targets idle for the time to live are dropped, and the selection with them.
pub open spec fn expire_rows(m: ThreatModel, now_us: u64) -> ThreatModel {
    let rows = m.rows.filter(fresh_row(now_us));
    ThreatModel {
        rows,
        selected: match m.selected {
            Some(t) => if has_first(rows, t) { Some(t) } else { None },
            None => None,
        },
        ..m
    }
}

/// Filtering keeps a list whose items all pass.
proof fn lemma_filter_all<A>(s: Seq<A>, p: spec_fn(A) -> bool)
    requires
        forall|i: int| 0 <= i < s.len() ==> p(#[trigger] s[i]),
    ensures
        s.filter(p) == s,
    decreases s.len(),
{
    if s.len() == 0 {
        lemma_filter_empty(s, p);
        assert(s =~= Seq::<A>::empty());
    } else {
        lemma_filter_all(s.drop_last(), p);
        lemma_filter_push(s.drop_last(), p, s.last());
        assert(s.drop_last().push(s.last()) =~= s);
    }
}

/// In a list with unique keys, dropping the item with key `k` is filtering
/// out that key.
proof fn lemma_remove_is_filter(s: Seq<RowView>, i: int, k: u64)
    requires
        unique_firsts(s),
        0 <= i < s.len(),
        s[i].0 == k,
    ensures
        s.remove(i) == s.filter(key_is_not(k)),
    decreases s.len(),
{
    let p = key_is_not(k);
    lemma_filter_push(s.drop_last(), p, s.last());
    assert(s.drop_last().push(s.last()) =~= s);
    if i == s.len() - 1 {
        assert forall|q: int| 0 <= q < s.drop_last().len() implies p(#[trigger] s.drop_last()[q]) by {
            assert(s[q].0 != s[i].0);
        }
        lemma_filter_all(s.drop_last(), p);
        assert(s.remove(i) =~= s.drop_last());
    } else {
        assert(unique_firsts(s.drop_last())) by {
            assert forall|a: int, b: int| 0 <= a < b < s.drop_last().len() implies #[trigger] s.drop_last()[a].0 != #[trigger] s.drop_last()[b].0 by {
                assert(s[a].0 != s[b].0);
            }
        }
        lemma_remove_is_filter(s.drop_last(), i, k);
        assert(s.last().0 != k) by {
            assert(s[i].0 != s[s.len() - 1].0);
        }
        assert(s.remove(i) =~= s.drop_last().remove(i).push(s.last()));
    }
}

/// Without the key, filtering it out changes nothing.
proof fn lemma_filter_absent(s: Seq<RowView>, k: u64)
    requires
        !has_first(s, k),
    ensures
        s.filter(key_is_not(k)) == s,
{
    assert forall|q: int| 0 <= q < s.len() implies key_is_not(k)(#[trigger] s[q]) by {
        if s[q].0 == k {
            assert(has_first(s, k));
        }
    }
    lemma_filter_all(s, key_is_not(k));
}

impl ThreatTable {
    pub open spec fn rows_view(&self) -> Seq<RowView> {
        rows_of(self.rows@)
    }

    pub open spec fn model(&self) -> ThreatModel {
        ThreatModel { names: self.names@.map_values(|s: String| s@), rows: self.rows_view(), selected: self.selected }
    }

    /// Each target has one row, and each row lists an entity once.
    pub open spec fn wf(&self) -> bool {
        &&& unique_firsts(self.rows@)
        &&& forall|i: int| 0 <= i < self.rows@.len() ==> unique_firsts((#[trigger] self.rows@[i]).1.players@)
    }

    pub fn new() -> (r: ThreatTable)
        ensures
            r.wf(),
            r.names@ == Map::<u64, String>::empty(),
            r.rows@.len() == 0,
            r.selected is None,
    {
        ThreatTable { names: HashMap::new(), rows: Vec::new(), selected: None }
    }

    proof fn lemma_view_keys(&self, k: u64)
        ensures
            has_first(self.rows@, k) == has_first(self.rows_view(), k),
    {
        if has_first(self.rows@, k) {
            let i = choose|i: int| 0 <= i < self.rows@.len() && #[trigger] self.rows@[i].0 == k;
            assert(self.rows_view()[i].0 == k);
        }
        if has_first(self.rows_view(), k) {
            let i = choose|i: int| 0 <= i < self.rows_view().len() && #[trigger] self.rows_view()[i].0 == k;
            assert(self.rows@[i].0 == k);
        }
    }

    /// Where the row of `target` is.
    fn position_of(&self, target: u64) -> (r: Option<usize>)
        requires
            self.wf(),
        ensures
            match r {
                Some(i) => i < self.rows@.len() && self.rows@[i as int].0 == target,
                None => !has_first(self.rows@, target),
            },
    {
        let mut i: usize = 0;
        while i < self.rows.len()
            invariant
                i <= self.rows@.len(),
                forall|q: int| 0 <= q < i ==> self.rows@[q].0 != target,
            decreases self.rows@.len() - i,
        {
            if self.rows[i].0 == target {
                return Some(i);
            }
            i = i + 1;
        }
        None
    }

    /// Records that `entity` holds `threat` on `target` at `now_us`; the
    /// first target seen becomes the selected one.
    pub fn record(&mut self, target: u64, entity: u64, threat: u64, now_us: u64)
        requires
            old(self).wf(),
        ensures
            final(self).wf(),
            final(self).rows_view() == rows_recorded(old(self).rows_view(), target, entity, threat, now_us),
            final(self).names == old(self).names,
            final(self).selected == if old(self).selected is None { Some(target) } else { old(self).selected },
            has_first(final(self).rows@, target),
            forall|i: int| 0 <= i < final(self).rows@.len() && (#[trigger] final(self).rows@[i]).0 == target ==> {
                &&& final(self).rows@[i].1.last_activity_us == now_us
                &&& final(self).rows@[i].1.players@ == set_pair(
                    if has_first(old(self).rows@, target) {
                        old(self).rows@[i].1.players@
                    } else {
                        Seq::empty()
                    }, entity, threat)
            },
            forall|i: int| 0 <= i < old(self).rows@.len() && old(self).rows@[i].0 != target
                ==> #[trigger] final(self).rows@[i] == old(self).rows@[i],
    {
        let ghost v0 = self.rows_view();
        proof { self.lemma_view_keys(target); }
        match self.position_of(target) {
            Some(i) => {
                let ghost r0 = self.rows@;
                let (k, mut row) = self.rows.remove(i);
                set_in(&mut row.players, entity, threat);
                row.last_activity_us = now_us;
                self.rows.insert(i, (k, row));
                proof {
                    assert forall|a: int, b: int| 0 <= a < b < self.rows@.len() implies #[trigger] self.rows@[a].0 != #[trigger] self.rows@[b].0 by {
                        assert(self.rows@[a].0 == r0[a].0 && self.rows@[b].0 == r0[b].0);
                    }
                    assert forall|q: int| 0 <= q < self.rows@.len() implies unique_firsts((#[trigger] self.rows@[q]).1.players@) by {
                        if q != i {
                            assert(self.rows@[q] == r0[q]);
                        }
                    }
                    assert forall|q: int| 0 <= q < self.rows@.len() && (#[trigger] self.rows@[q]).0 == target implies q == i by {
                        if q != i {
                            assert(r0[q].0 == target);
                            if q < i { assert(r0[q].0 != r0[i as int].0); } else { assert(r0[i as int].0 != r0[q].0); }
                        }
                    }
                    assert(self.rows@[i as int].0 == target);
                    assert(self.rows_view() =~= rows_recorded(v0, target, entity, threat, now_us)) by {
                        assert forall|q: int| 0 <= q < v0.len() implies #[trigger] self.rows_view()[q]
                            == (if v0[q].0 == target { (target, (set_pair(v0[q].1.0, entity, threat), now_us)) } else { v0[q] }) by {
                            if q != i {
                                assert(self.rows@[q] == r0[q]);
                                if r0[q].0 == target {
                                    if q < i { assert(r0[q].0 != r0[i as int].0); } else { assert(r0[i as int].0 != r0[q].0); }
                                }
                            }
                        }
                    }
                }
            },
            None => {
                let mut players: Vec<(u64, u64)> = Vec::new();
                set_in(&mut players, entity, threat);
                let ghost r0 = self.rows@;
                self.rows.push((target, TargetRow { players, last_activity_us: now_us }));
                proof {
                    assert forall|a: int, b: int| 0 <= a < b < self.rows@.len() implies #[trigger] self.rows@[a].0 != #[trigger] self.rows@[b].0 by {
                        if b == r0.len() {
                            assert(self.rows@[a] == r0[a]);
                        } else {
                            assert(self.rows@[a] == r0[a] && self.rows@[b] == r0[b]);
                        }
                    }
                    assert forall|q: int| 0 <= q < self.rows@.len() implies unique_firsts((#[trigger] self.rows@[q]).1.players@) by {
                        if q < r0.len() {
                            assert(self.rows@[q] == r0[q]);
                        }
                    }
                    assert(self.rows@[r0.len() as int].0 == target);
                    assert(self.rows_view() =~= v0.push((target, (set_pair(Seq::empty(), entity, threat), now_us))));
                }
            },
        }
        if self.selected.is_none() {
            self.selected = Some(target);
        }
    }

    /// Drops the row of `target`, if any.
    fn drop_target(&mut self, target: u64)
        requires
            old(self).wf(),
        ensures
            final(self).wf(),
            final(self).rows_view() == old(self).rows_view().filter(key_is_not(target)),
            final(self).names == old(self).names,
            final(self).selected == old(self).selected,
            !has_first(final(self).rows@, target),
            has_first(old(self).rows@, target) ==> exists|i: int| 0 <= i < old(self).rows@.len()
                && old(self).rows@[i].0 == target && final(self).rows@ == old(self).rows@.remove(i),
            !has_first(old(self).rows@, target) ==> final(self).rows@ == old(self).rows@,
    {
        let ghost v0 = self.rows_view();
        proof { self.lemma_view_keys(target); }
        assert(unique_firsts(v0)) by {
            assert forall|a: int, b: int| 0 <= a < b < v0.len() implies #[trigger] v0[a].0 != #[trigger] v0[b].0 by {
                assert(v0[a].0 == self.rows@[a].0 && v0[b].0 == self.rows@[b].0);
            }
        }
        match self.position_of(target) {
            Some(i) => {
                let ghost r0 = self.rows@;
                let _ = self.rows.remove(i);
                proof {
                    assert(self.rows_view() =~= v0.remove(i as int));
                    lemma_remove_is_filter(v0, i as int, target);
                }
                proof {
                    assert(self.rows@ == r0.remove(i as int));
                    assert forall|a: int, b: int| 0 <= a < b < self.rows@.len() implies #[trigger] self.rows@[a].0 != #[trigger] self.rows@[b].0 by {
                        let oa = if a < i { a } else { a + 1 };
                        let ob = if b < i { b } else { b + 1 };
                        assert(self.rows@[a] == r0[oa] && self.rows@[b] == r0[ob]);
                    }
                    assert forall|q: int| 0 <= q < self.rows@.len() implies unique_firsts((#[trigger] self.rows@[q]).1.players@) by {
                        let oq = if q < i { q } else { q + 1 };
                        assert(self.rows@[q] == r0[oq]);
                    }
                    assert(!has_first(self.rows@, target)) by {
                        if has_first(self.rows@, target) {
                            let q = choose|q: int| 0 <= q < self.rows@.len() && #[trigger] self.rows@[q].0 == target;
                            let oq = if q < i { q } else { q + 1 };
                            assert(self.rows@[q] == r0[oq]);
                            if oq < i { assert(r0[oq].0 != r0[i as int].0); } else { assert(r0[i as int].0 != r0[oq].0); }
                        }
                    }
                }
            },
            None => {
                proof { lemma_filter_absent(v0, target); }
            },
        }
    }

    /// Applies the events at `now_us`: names are learnt and forgotten, a
    /// zone change clears the table, threat updates fill it; then targets
    /// idle for a minute are dropped, and the selection with them.
    pub fn update(&mut self, events: Vec<GameEvent>, now_us: u64)
        requires
            old(self).wf(),
        ensures
            final(self).wf(),
            final(self).model() == expire_rows(threat_events(old(self).model(), events_view(events@), now_us), now_us),
            forall|i: int| 0 <= i < final(self).rows@.len() ==> fresh_at((#[trigger] final(self).rows@[i]).1.last_activity_us, now_us),
            final(self).selected matches Some(t) ==> has_first(final(self).rows@, t),
    {
        let ghost evs = events_view(events@);
        let ghost m0 = self.model();
        let n = events.len();
        let mut i: usize = 0;
        assert(evs.take(0) =~= Seq::<EventView>::empty());
        while i < n
            invariant
                self.wf(),
                n == events@.len(),
                evs == events_view(events@),
                i <= n,
                self.model() == threat_events(m0, evs.take(i as int), now_us),
            decreases n - i,
        {
            let ghost before = self.model();
            proof {
                assert(evs.take(i + 1).drop_last() =~= evs.take(i as int));
                assert(evs.take(i + 1).last() == events@[i as int].view());
            }
            match &events[i] {
                GameEvent::EntityName { id, name, .. } => {
                    if !name.as_str().is_empty() {
                        self.names.insert(id.0, name.clone());
                        assert(self.names@.map_values(|s: String| s@) =~= before.names.insert(id.0, name@));
                    }
                },
                GameEvent::EntityDespawn { id } => {
                    self.names.remove(&id.0);
                    assert(self.names@.map_values(|s: String| s@) =~= before.names.remove(id.0));
                    self.drop_target(id.0);
                    if self.selected == Some(id.0) {
                        self.selected = None;
                    }
                },
                GameEvent::ZoneChange { .. } => {
                    self.rows = Vec::new();
                    self.selected = None;
                    assert(self.rows_view() =~= Seq::<RowView>::empty());
                },
                GameEvent::ThreatUpdate { target_id, entity_id, threat } => {
                    self.record(target_id.0, entity_id.0, *threat, now_us);
                },
                _ => {},
            }
            i = i + 1;
        }
        assert(evs.take(n as int) =~= evs);
        let ghost mid = self.model();
        let mut kept: Vec<(u64, TargetRow)> = Vec::new();
        let mut old_rows: Vec<(u64, TargetRow)> = Vec::new();
        std::mem::swap(&mut old_rows, &mut self.rows);
        let ghost all = old_rows@;
        proof {
            lemma_filter_empty(rows_of(all.take(0)), fresh_row(now_us));
            assert(rows_of(all.take(0)) =~= Seq::<RowView>::empty());
            assert(rows_of(kept@) =~= Seq::<RowView>::empty());
        }
        let ghost mut idx: Seq<int> = Seq::empty();
        let n = old_rows.len();
        let mut q: usize = 0;
        while q < n
            invariant
                n == all.len(),
                q <= n,
                old_rows@ == all.subrange(q as int, n as int),
                unique_firsts(all),
                forall|k: int| 0 <= k < all.len() ==> unique_firsts((#[trigger] all[k]).1.players@),
                idx.len() == kept@.len(),
                forall|k: int| 0 <= k < idx.len() ==> 0 <= #[trigger] idx[k] < q && kept@[k] == all[idx[k]],
                forall|a: int, b: int| 0 <= a < b < idx.len() ==> #[trigger] idx[a] < #[trigger] idx[b],
                forall|k: int| 0 <= k < kept@.len() ==> fresh_at((#[trigger] kept@[k]).1.last_activity_us, now_us),
                rows_of(kept@) == rows_of(all.take(q as int)).filter(fresh_row(now_us)),
            decreases n - q,
        {
            assert(old_rows@[0] == all[q as int]);
            proof {
                assert(rows_of(all.take(q + 1)) =~= rows_of(all.take(q as int)).push((all[q as int].0, row_view(all[q as int].1))));
                lemma_filter_push(rows_of(all.take(q as int)), fresh_row(now_us), (all[q as int].0, row_view(all[q as int].1)));
            }
            let ghost kept0 = kept@;
            let (k, row) = old_rows.remove(0);
            assert(old_rows@ =~= all.subrange(q + 1, n as int));
            let age = if now_us >= row.last_activity_us { now_us - row.last_activity_us } else { 0 };
            if age < ENTRY_TTL_US {
                kept.push((k, row));
                proof {
                    idx = idx.push(q as int);
                    assert(rows_of(kept@) =~= rows_of(kept0).push((all[q as int].0, row_view(all[q as int].1))));
                }
            }
            q = q + 1;
        }
        proof {
            assert forall|a: int, b: int| 0 <= a < b < kept@.len() implies #[trigger] kept@[a].0 != #[trigger] kept@[b].0 by {
                assert(idx[a] < idx[b]);
                assert(kept@[a] == all[idx[a]] && kept@[b] == all[idx[b]]);
            }
            assert forall|kk: int| 0 <= kk < kept@.len() implies unique_firsts((#[trigger] kept@[kk]).1.players@) by {
                assert(kept@[kk] == all[idx[kk]]);
            }
        }
        self.rows = kept;
        assert(all.take(n as int) =~= all);
        assert(self.rows_view() == mid.rows.filter(fresh_row(now_us)));
        match self.selected {
            Some(t) => {
                proof { self.lemma_view_keys(t); }
                if self.position_of(t).is_none() {
                    self.selected = None;
                }
            },
            None => {},
        }
    }
}

} // verus!
