//! The cooldown tracker: when watched entities last cast watched skills.

use vstd::prelude::*;
use crate::event::GameEvent;
use crate::labels::str_eq;
use crate::event::{events_view, EventView};
use crate::seqs::{lemma_filter_empty, lemma_filter_push};
use crate::text::{lowercase, lowercase_text};

verus! {

/// An entity whose casts are watched; a uid of 0 is filled in from the
/// first entity seen with the same name (case aside).
pub struct TrackedEntity {
    pub uid: u64,
    pub name: String,
}

/// The tracker's state.
pub struct CooldownTracker {
    pub entities: Vec<TrackedEntity>,
    /// The watched skill ids.
    pub skills: Vec<u32>,
    /// Entity uid, skill id and when it was last cast (microseconds).
    pub cooldowns: Vec<(u64, u32, u64)>,
    /// Lower-case name and uid of entities seen.
    pub name_uid: Vec<(String, u64)>,
}

/// The time `skill` was last cast by `uid`, if seen.
pub open spec fn last_cast(c: Seq<(u64, u32, u64)>, uid: u64, skill: u32) -> Option<u64>
    decreases c.len(),
{
    if c.len() == 0 {
        None
    } else if c.last().0 == uid && c.last().1 == skill {
        Some(c.last().2)
    } else {
        last_cast(c.drop_last(), uid, skill)
    }
}

/// The uid last recorded for a lower-case name, if any.
pub open spec fn uid_for(m: Seq<(Seq<char>, u64)>, name: Seq<char>) -> Option<u64>
    decreases m.len(),
{
    if m.len() == 0 {
        None
    } else if m.last().0 == name {
        Some(m.last().1)
    } else {
        uid_for(m.drop_last(), name)
    }
}

/// What the tracker holds: watched entities (uid, name), watched skills,
/// casts (uid, skill, time) and names seen (lower-case name, uid).
pub ghost struct CooldownModel {
    pub entities: Seq<(u64, Seq<char>)>,
    pub skills: Seq<u32>,
    pub casts: Seq<(u64, u32, u64)>,
    pub names: Seq<(Seq<char>, u64)>,
}

/// Whether a cast by `uid` of `skill` is watched.
pub open spec fn watched(m: CooldownModel, uid: u64, skill: u32) -> bool {
    &&& exists|i: int| 0 <= i < m.entities.len() && (#[trigger] m.entities[i]).0 == uid
    &&& m.skills.contains(skill)
}

/// Watched entities after a name is learnt: those without a uid whose name
/// matches it, case aside, take the uid.
pub open spec fn named_entities(es: Seq<(u64, Seq<char>)>, uid: u64, name: Seq<char>) -> Seq<(u64, Seq<char>)> {
    es.map_values(|e: (u64, Seq<char>)| if e.0 == 0 && lowercase_text(e.1) == lowercase_text(name) { (uid, e.1) } else { e })
}

pub open spec fn uid_is_not(uid: u64) -> spec_fn((Seq<char>, u64)) -> bool {
    |e: (Seq<char>, u64)| e.1 != uid
}

/// What one event does to the tracker at `now_us`.
pub open spec fn cooldown_event(m: CooldownModel, ev: EventView, now_us: u64) -> CooldownModel {
    match ev {
        EventView::EntityName { id, name, .. } => if name.len() > 0 {
            CooldownModel {
                names: m.names.push((lowercase_text(name), id.0)),
                entities: named_entities(m.entities, id.0, name),
                ..m
            }
        } else {
            m
        },
        EventView::EntityDespawn { id } => CooldownModel { names: m.names.filter(uid_is_not(id.0)), ..m },
        EventView::Combat(c) => if watched(m, c.source_id.0, c.skill_id) {
            CooldownModel { casts: m.casts.push((c.source_id.0, c.skill_id, now_us)), ..m }
        } else {
            m
        },
        _ => m,
    }
}

/// The events applied in order.
pub open spec fn cooldown_events(m: CooldownModel, evs: Seq<EventView>, now_us: u64) -> CooldownModel
    decreases evs.len(),
{
    if evs.len() == 0 { m } else { cooldown_event(cooldown_events(m, evs.drop_last(), now_us), evs.last(), now_us) }
}

impl CooldownTracker {
    pub open spec fn names_view(&self) -> Seq<(Seq<char>, u64)> {
        self.name_uid@.map_values(|e: (String, u64)| (e.0@, e.1))
    }

    pub open spec fn entities_view(&self) -> Seq<(u64, Seq<char>)> {
        self.entities@.map_values(|e: TrackedEntity| (e.uid, e.name@))
    }

    pub open spec fn model(&self) -> CooldownModel {
        CooldownModel { entities: self.entities_view(), skills: self.skills@, casts: self.cooldowns@, names: self.names_view() }
    }

    pub fn new() -> (r: CooldownTracker)
        ensures
            r.entities@.len() == 0,
            r.skills@.len() == 0,
            r.cooldowns@.len() == 0,
            r.name_uid@.len() == 0,
    {
        CooldownTracker { entities: Vec::new(), skills: Vec::new(), cooldowns: Vec::new(), name_uid: Vec::new() }
    }

    /// A cast counts where a watched entity casts a watched skill.
    pub open spec fn watches(&self, uid: u64, skill: u32) -> bool {
        &&& exists|i: int| 0 <= i < self.entities@.len() && (#[trigger] self.entities@[i]).uid == uid
        &&& self.skills@.contains(skill)
    }

    /// Learns a name: it now maps to `uid`, and watched entities of that
    /// name without a uid take it.
    pub fn learn_name(&mut self, uid: u64, name: &str)
        requires
            name@.len() > 0,
        ensures
            uid_for(final(self).names_view(), lowercase_text(name@)) == Some(uid),
            forall|other: Seq<char>| other != lowercase_text(name@)
                ==> uid_for(final(self).names_view(), other) == uid_for(old(self).names_view(), other),
            final(self).entities@.len() == old(self).entities@.len(),
            forall|i: int| 0 <= i < final(self).entities@.len() ==> {
                &&& (#[trigger] final(self).entities@[i]).name@ == old(self).entities@[i].name@
                &&& final(self).entities@[i].uid == if old(self).entities@[i].uid == 0
                    && lowercase_text(old(self).entities@[i].name@) == lowercase_text(name@) {
                    uid
                } else {
                    old(self).entities@[i].uid
                }
            },
            final(self).skills == old(self).skills,
            final(self).cooldowns == old(self).cooldowns,
            final(self).names_view() == old(self).names_view().push((lowercase_text(name@), uid)),
            final(self).entities_view() == named_entities(old(self).entities_view(), uid, name@),
    {
        let ln = lowercase(name);
        let key = ln.clone();
        let ghost v0 = self.names_view();
        let ghost lnv = ln@;
        self.name_uid.push((ln, uid));
        assert(self.names_view() =~= v0.push((lnv, uid)));
        assert(self.names_view().drop_last() =~= v0);
        let n = self.entities.len();
        let mut i: usize = 0;
        let ghost e0 = self.entities@;
        while i < n
            invariant
                n == e0.len(),
                i <= n,
                self.entities@.len() == n,
                lnv == lowercase_text(name@),
                key@ == lnv,
                forall|k: int| 0 <= k < n ==> (#[trigger] self.entities@[k]).name@ == e0[k].name@,
                forall|k: int| 0 <= k < i ==> (#[trigger] self.entities@[k]).uid == if e0[k].uid == 0
                    && lowercase_text(e0[k].name@) == lnv { uid } else { e0[k].uid },
                forall|k: int| i <= k < n ==> (#[trigger] self.entities@[k]).uid == e0[k].uid,
                self.skills == old(self).skills,
                self.cooldowns == old(self).cooldowns,
                self.names_view() == v0.push((lnv, uid)),
                v0 == old(self).names_view(),
                e0 == old(self).entities@,
                uid_for(self.names_view(), lnv) == Some(uid),
                forall|other: Seq<char>| other != lnv
                    ==> uid_for(self.names_view(), other) == uid_for(old(self).names_view(), other),
            decreases n - i,
        {
            let matches = if self.entities[i].uid == 0 {
                let l = lowercase(self.entities[i].name.as_str());
                str_eq(l.as_str(), key.as_str())
            } else {
                false
            };
            if matches {
                let ghost before = self.entities@;
                let mut e = self.entities.remove(i);
                e.uid = uid;
                self.entities.insert(i, e);
                assert forall|k: int| 0 <= k < n && k != i implies self.entities@[k] == before[k] by {}
            }
            i = i + 1;
        }
        assert(self.entities_view() =~= named_entities(old(self).entities_view(), uid, name@));
    }
}

impl CooldownTracker {
    /// Forgets every name that maps to `uid`.
    pub fn forget_uid(&mut self, uid: u64)
        ensures
            final(self).names_view() == old(self).names_view().filter(uid_is_not(uid)),
            forall|i: int| 0 <= i < final(self).name_uid@.len() ==> (#[trigger] final(self).name_uid@[i]).1 != uid,
            final(self).entities == old(self).entities,
            final(self).skills == old(self).skills,
            final(self).cooldowns == old(self).cooldowns,
    {
        let mut kept: Vec<(String, u64)> = Vec::new();
        let mut i: usize = 0;
        let ghost all = self.names_view();
        proof { lemma_filter_empty(all.take(0), uid_is_not(uid)); }
        assert(kept@.map_values(|e: (String, u64)| (e.0@, e.1)) =~= Seq::<(Seq<char>, u64)>::empty());
        while i < self.name_uid.len()
            invariant
                i <= self.name_uid@.len(),
                all == self.names_view(),
                kept@.map_values(|e: (String, u64)| (e.0@, e.1)) == all.take(i as int).filter(uid_is_not(uid)),
                forall|k: int| 0 <= k < kept@.len() ==> (#[trigger] kept@[k]).1 != uid,
            decreases self.name_uid@.len() - i,
        {
            let e = &self.name_uid[i];
            let ghost kv = kept@.map_values(|e: (String, u64)| (e.0@, e.1));
            proof {
                assert(all.take(i + 1) =~= all.take(i as int).push(all[i as int]));
                lemma_filter_push(all.take(i as int), uid_is_not(uid), all[i as int]);
            }
            if e.1 != uid {
                kept.push((e.0.clone(), e.1));
                assert(kept@.map_values(|e: (String, u64)| (e.0@, e.1)) =~= kv.push(all[i as int]));
            }
            i = i + 1;
        }
        assert(all.take(i as int) =~= all);
        self.name_uid = kept;
    }

    /// Whether a cast by `uid` of `skill` is watched.
    pub fn is_watched(&self, uid: u64, skill: u32) -> (r: bool)
        ensures
            r == self.watches(uid, skill),
    {
        let mut seen = false;
        let mut i: usize = 0;
        while i < self.entities.len()
            invariant
                i <= self.entities@.len(),
                seen == exists|k: int| 0 <= k < i && (#[trigger] self.entities@[k]).uid == uid,
            decreases self.entities@.len() - i,
        {
            if self.entities[i].uid == uid {
                seen = true;
            }
            i = i + 1;
        }
        if !seen {
            return false;
        }
        let mut j: usize = 0;
        while j < self.skills.len()
            invariant
                j <= self.skills@.len(),
                forall|k: int| 0 <= k < j ==> self.skills@[k] != skill,
                exists|k: int| 0 <= k < self.entities@.len() && (#[trigger] self.entities@[k]).uid == uid,
            decreases self.skills@.len() - j,
        {
            if self.skills[j] == skill {
                assert(self.skills@[j as int] == skill);
                return true;
            }
            j = j + 1;
        }
        false
    }

    /// Records a cast by `uid` of `skill` at `now_us`.
    pub fn record_cast(&mut self, uid: u64, skill: u32, now_us: u64)
        ensures
            final(self).cooldowns@ == old(self).cooldowns@.push((uid, skill, now_us)),
            last_cast(final(self).cooldowns@, uid, skill) == Some(now_us),
            forall|u: u64, k: u32| !(u == uid && k == skill)
                ==> last_cast(final(self).cooldowns@, u, k) == last_cast(old(self).cooldowns@, u, k),
            final(self).entities == old(self).entities,
            final(self).skills == old(self).skills,
            final(self).name_uid == old(self).name_uid,
    {
        let ghost c0 = self.cooldowns@;
        self.cooldowns.push((uid, skill, now_us));
        assert(self.cooldowns@.drop_last() =~= c0);
    }

    /// Applies the events at `now_us`: names are learnt and forgotten, and
    /// watched casts are timed.
    pub fn update(&mut self, events: Vec<GameEvent>, now_us: u64)
        ensures
            final(self).model() == cooldown_events(old(self).model(), events_view(events@), now_us),
            forall|u: u64, k: u32| #[trigger] last_cast(final(self).cooldowns@, u, k) != last_cast(old(self).cooldowns@, u, k)
                ==> last_cast(final(self).cooldowns@, u, k) == Some(now_us),
    {
        let n = events.len();
        let mut i: usize = 0;
        let ghost c0 = self.cooldowns@;
        let ghost evs = events_view(events@);
        let ghost m0 = self.model();
        assert(evs.take(0) =~= Seq::<EventView>::empty());
        while i < n
            invariant
                n == events@.len(),
                i <= n,
                evs == events_view(events@),
                self.model() == cooldown_events(m0, evs.take(i as int), now_us),
                forall|u: u64, k: u32| #[trigger] last_cast(self.cooldowns@, u, k) != last_cast(c0, u, k)
                    ==> last_cast(self.cooldowns@, u, k) == Some(now_us),
            decreases n - i,
        {
            let ghost before = self.model();
            proof {
                assert(evs.take(i + 1).drop_last() =~= evs.take(i as int));
                assert(evs.take(i + 1).last() == events@[i as int].view());
            }
            match &events[i] {
                GameEvent::EntityName { id, name, .. } => {
                    if !name.as_str().is_empty() {
                        self.learn_name(id.0, name.as_str());
                    }
                },
                GameEvent::EntityDespawn { id } => {
                    self.forget_uid(id.0);
                },
                GameEvent::Combat(c) => {
                    proof { self.lemma_watches_model(c.source_id.0, c.skill_id); }
                    if self.is_watched(c.source_id.0, c.skill_id) {
                        self.record_cast(c.source_id.0, c.skill_id, now_us);
                    }
                },
                _ => {},
            }
            i = i + 1;
        }
        assert(evs.take(n as int) =~= evs);
    }

    proof fn lemma_watches_model(&self, uid: u64, skill: u32)
        ensures
            self.watches(uid, skill) == watched(self.model(), uid, skill),
    {
        let m = self.model();
        if self.watches(uid, skill) {
            let i = choose|i: int| 0 <= i < self.entities@.len() && (#[trigger] self.entities@[i]).uid == uid;
            assert(m.entities[i].0 == uid);
        }
        if watched(m, uid, skill) {
            let i = choose|i: int| 0 <= i < m.entities.len() && (#[trigger] m.entities[i]).0 == uid;
            assert(self.entities@[i].uid == uid);
        }
    }
}

} // verus!
