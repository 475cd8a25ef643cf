//! When encounters start and end.
//!
//! An encounter starts with the first hit while none is active. It ends on a
//! zone change, when a dungeon run starts or ends, or on a manual reset;
//! finished encounters that dealt damage are kept (the last
//! `MAX_PAST_ENCOUNTERS`) and queued for saving. Between a dungeon's end
//! signals and the next start signal, stray hits start nothing.

use vstd::prelude::*;
use crate::encounter::{hit_model, new_encounter_model, renamed, Encounter, EncounterModel, EncounterOutcome};
use crate::meter::has_key;
use crate::event::{CombatEvent, DungeonStateKind, EntityId, EventView, GameEvent};
use crate::meter::CombatStats;

verus! {

pub const MAX_PAST_ENCOUNTERS: usize = 20;

pub struct DpsState {
    pub active: Option<Encounter>,
    pub past: Vec<Encounter>,
    /// Encounters finished since the owner last took them, to be saved.
    pub newly_finished: Vec<Encounter>,
    /// Inside a dungeon or training instance.
    pub in_dungeon: bool,
    /// From the first end signal of a dungeon run until a start signal or a
    /// zone change.
    pub post_settlement: bool,
}

/// What the tracker holds.
pub ghost struct DpsModel {
    pub active: Option<EncounterModel>,
    pub past: Seq<EncounterModel>,
    pub newly_finished: Seq<EncounterModel>,
    pub in_dungeon: bool,
    pub post_settlement: bool,
}

pub open spec fn models(s: Seq<Encounter>) -> Seq<EncounterModel> {
    s.map_values(|e: Encounter| e.model())
}

/// Ends the active encounter at `now_us`: one that dealt damage is kept
/// (dropping the oldest beyond the limit) and queued; others are dropped.
pub open spec fn finish_spec(m: DpsModel, now_us: u64) -> DpsModel {
    match m.active {
        None => m,
        Some(e) => {
            let done = EncounterModel { end_us: Some(now_us), ..e };
            if e.total_damage > 0 {
                let past = m.past.push(done);
                DpsModel {
                    active: None,
                    newly_finished: m.newly_finished.push(done),
                    past: if past.len() > MAX_PAST_ENCOUNTERS { past.drop_first() } else { past },
                    ..m
                }
            } else {
                DpsModel { active: None, ..m }
            }
        },
    }
}

/// Gives the active encounter `outcome` unless it already has one.
pub open spec fn settle_spec(m: DpsModel, outcome: EncounterOutcome) -> DpsModel {
    match m.active {
        Some(e) => if e.outcome == EncounterOutcome::Unknown {
            DpsModel { active: Some(EncounterModel { outcome, ..e }), ..m }
        } else {
            m
        },
        None => m,
    }
}

/// What a dungeon-state or zone-change event does.
pub open spec fn state_event_spec(m: DpsModel, ev: EventView, now_us: u64) -> DpsModel {
    match ev {
        EventView::DungeonState { state } => match state {
            DungeonStateKind::Active | DungeonStateKind::Ready =>
                DpsModel { post_settlement: false, in_dungeon: true, ..m },
            DungeonStateKind::Playing => if !m.in_dungeon {
                DpsModel { post_settlement: false, in_dungeon: true, ..finish_spec(m, now_us) }
            } else {
                DpsModel { post_settlement: false, ..m }
            },
            DungeonStateKind::End | DungeonStateKind::Settlement | DungeonStateKind::Vote =>
                DpsModel {
                    in_dungeon: false,
                    post_settlement: true,
                    ..finish_spec(settle_spec(m, EncounterOutcome::Cleared), now_us)
                },
            DungeonStateKind::Null => DpsModel { in_dungeon: false, ..m },
        },
        EventView::ZoneChange { .. } =>
            DpsModel {
                in_dungeon: false,
                post_settlement: false,
                ..finish_spec(settle_spec(m, EncounterOutcome::Cleared), now_us)
            },
        _ => m,
    }
}

/// A manual reset: the active encounter ends as stopped by hand.
pub open spec fn reset_spec(m: DpsModel, now_us: u64) -> DpsModel {
    DpsModel {
        in_dungeon: false,
        post_settlement: false,
        ..finish_spec(settle_spec(m, EncounterOutcome::ManualStop), now_us)
    }
}

/// An encounter with the meter of `id` named `name`.
pub open spec fn rename_in_encounter(e: EncounterModel, id: u64, name: Seq<char>) -> EncounterModel {
    EncounterModel { meters: renamed(e.meters, id, name), ..e }
}

/// The active and kept encounters with the meter of `id` named `name`;
/// encounters queued for saving keep the name they had.
pub open spec fn rename_spec(m: DpsModel, id: u64, name: Seq<char>) -> DpsModel {
    DpsModel {
        active: match m.active { Some(e) => Some(rename_in_encounter(e, id, name)), None => None },
        past: m.past.map_values(|e: EncounterModel| rename_in_encounter(e, id, name)),
        ..m
    }
}

/// A dungeon's end signal closes the active encounter and opens the window
/// in which hits start nothing: no encounter is active afterwards, and
/// (by `apply_event`) hits then leave the tracker as it is.
pub proof fn lemma_end_signal_blocks_hits(m: DpsModel, state: DungeonStateKind, now_us: u64)
    requires
        state is End || state is Settlement || state is Vote,
    ensures
        state_event_spec(m, EventView::DungeonState { state }, now_us).active is None,
        state_event_spec(m, EventView::DungeonState { state }, now_us).post_settlement,
{
}

/// No encounter is active and hits start none: after a dungeon's end signal.
pub open spec fn blocked(m: DpsModel) -> bool {
    m.active is None && m.post_settlement
}

/// A dungeon start signal or a zone change.
pub open spec fn reopens(ev: EventView) -> bool {
    ||| ev matches EventView::DungeonState { state } && (state is Active || state is Ready || state is Playing)
    ||| ev is ZoneChange
}

/// What one event can do to the tracker's state: `apply_state_event` moves
/// it by `state_event_spec`; `apply_event` leaves it as it is for an event
/// other than a hit, and for a hit while hits start nothing.
pub open spec fn quiet_step(m: DpsModel, ev: EventView, now_us: u64, next: DpsModel) -> bool {
    ||| next == state_event_spec(m, ev, now_us)
    ||| (!(ev is Combat) || blocked(m)) && next == m
}

/// After a dungeon's end signal, a run of events with no start signal and
/// no zone change starts no encounter and changes neither the kept nor the
/// queued encounters, however many hits it holds.
pub proof fn lemma_blocked_run(states: Seq<DpsModel>, events: Seq<EventView>, times: Seq<u64>)
    requires
        states.len() == events.len() + 1,
        times.len() == events.len(),
        blocked(states[0]),
        forall|i: int| 0 <= i < events.len() ==> !reopens(#[trigger] events[i]),
        forall|i: int| 0 <= i < events.len() ==> quiet_step(states[i], #[trigger] events[i], times[i], states[i + 1]),
    ensures
        forall|i: int| 0 <= i < states.len() ==> {
            &&& blocked(#[trigger] states[i])
            &&& states[i].past == states[0].past
            &&& states[i].newly_finished == states[0].newly_finished
        },
    decreases events.len(),
{
    if events.len() > 0 {
        let n = events.len() - 1;
        lemma_blocked_run(states.drop_last(), events.drop_last(), times.drop_last());
        assert forall|i: int| 0 <= i < states.len() implies {
            &&& blocked(#[trigger] states[i])
            &&& states[i].past == states[0].past
            &&& states[i].newly_finished == states[0].newly_finished
        } by {
            if i < states.len() - 1 {
                assert(states[i] == states.drop_last()[i]);
            } else {
                let m = states[n];
                assert(m == states.drop_last()[n]);
                assert(!reopens(events[n]));
                assert(quiet_step(m, events[n], times[n], states[n + 1]));
            }
        }
    }
}

/// A dungeon run starting (the `Playing` signal outside a dungeon) ends the
/// overworld encounter, so the run's hits are not added to it: nothing is
/// active afterwards, an encounter that dealt damage becomes the newest kept
/// and queued one with its end at the signal, and the tracker is in the
/// dungeon with hits counting again.
pub proof fn lemma_run_start_ends_field_fight(m: DpsModel, now_us: u64)
    requires
        !m.in_dungeon,
    ensures ({
        let r = state_event_spec(m, EventView::DungeonState { state: DungeonStateKind::Playing }, now_us);
        &&& r.active is None
        &&& r.in_dungeon
        &&& !r.post_settlement
        &&& (m.active matches Some(e) ==> (e.total_damage > 0 ==> {
            &&& r.past.len() > 0
            &&& r.past.last() == (EncounterModel { end_us: Some(now_us), ..e })
            &&& r.newly_finished == m.newly_finished.push(EncounterModel { end_us: Some(now_us), ..e })
        }))
        &&& ((m.active is None || m.active->0.total_damage == 0) ==> r.past == m.past && r.newly_finished == m.newly_finished)
    }),
{
}

/// Start signals inside a dungeon, and the `Active` and `Ready` signals
/// anywhere, end nothing: the active, kept and queued encounters stay, and
/// hits count again.
pub proof fn lemma_start_signals_keep_fight(m: DpsModel, state: DungeonStateKind, now_us: u64)
    requires
        state is Active || state is Ready || (state is Playing && m.in_dungeon),
    ensures ({
        let r = state_event_spec(m, EventView::DungeonState { state }, now_us);
        &&& r.active == m.active
        &&& r.past == m.past
        &&& r.newly_finished == m.newly_finished
        &&& r.in_dungeon
        &&& !r.post_settlement
    }),
{
}

/// A start signal or a zone change closes that window again; a zone change
/// also ends the active encounter.
pub proof fn lemma_start_signal_reopens(m: DpsModel, ev: EventView, now_us: u64)
    requires
        ev matches EventView::DungeonState { state } && (state is Active || state is Ready || state is Playing)
            || ev is ZoneChange,
    ensures
        !state_event_spec(m, ev, now_us).post_settlement,
        ev is ZoneChange ==> state_event_spec(m, ev, now_us).active is None,
{
}

/// Ending an encounter keeps at most `MAX_PAST_ENCOUNTERS`; one that dealt
/// damage becomes the newest kept one and is queued once for saving, with
/// its end time; one that dealt none is dropped.
pub proof fn lemma_finish_keeps_newest(m: DpsModel, now_us: u64)
    requires
        m.past.len() <= MAX_PAST_ENCOUNTERS,
    ensures
        finish_spec(m, now_us).active is None,
        finish_spec(m, now_us).past.len() <= MAX_PAST_ENCOUNTERS,
        m.active is Some && m.active->0.total_damage > 0 ==> {
            let done = EncounterModel { end_us: Some(now_us), ..m.active->0 };
            &&& finish_spec(m, now_us).past.last() == done
            &&& finish_spec(m, now_us).newly_finished == m.newly_finished.push(done)
        },
        m.active is Some && m.active->0.total_damage == 0 ==> {
            &&& finish_spec(m, now_us).past == m.past
            &&& finish_spec(m, now_us).newly_finished == m.newly_finished
        },
{
}

/// A manual reset leaves nothing active and outside any dungeon; an
/// encounter it ends that had no outcome yet is kept as stopped by hand.
pub proof fn lemma_reset_stops_by_hand(m: DpsModel, now_us: u64)
    requires
        m.past.len() <= MAX_PAST_ENCOUNTERS,
    ensures
        reset_spec(m, now_us).active is None,
        !reset_spec(m, now_us).in_dungeon,
        !reset_spec(m, now_us).post_settlement,
        m.active matches Some(e) && e.total_damage > 0 && e.outcome == EncounterOutcome::Unknown ==>
            reset_spec(m, now_us).past.last().outcome == EncounterOutcome::ManualStop,
{
}

impl DpsState {
    pub open spec fn model(&self) -> DpsModel {
        DpsModel {
            active: match self.active { Some(e) => Some(e.model()), None => None },
            past: models(self.past@),
            newly_finished: models(self.newly_finished@),
            in_dungeon: self.in_dungeon,
            post_settlement: self.post_settlement,
        }
    }

    /// At most `MAX_PAST_ENCOUNTERS` are kept; kept and queued encounters
    /// are finished and dealt damage; the active one is running.
    pub open spec fn wf(&self) -> bool {
        &&& self.past@.len() <= MAX_PAST_ENCOUNTERS
        &&& forall|i: int| 0 <= i < self.past@.len() ==> {
            &&& (#[trigger] self.past@[i]).wf()
            &&& self.past@[i].total_damage > 0
            &&& self.past@[i].end_us is Some
        }
        &&& forall|i: int| 0 <= i < self.newly_finished@.len() ==> {
            &&& (#[trigger] self.newly_finished@[i]).wf()
            &&& self.newly_finished@[i].total_damage > 0
            &&& self.newly_finished@[i].end_us is Some
        }
        &&& match self.active {
            Some(e) => e.wf() && e.end_us is None,
            None => true,
        }
    }

    /// Nothing tracked, outside any dungeon.
    pub open spec fn new_model() -> DpsModel {
        DpsModel {
            active: None,
            past: Seq::empty(),
            newly_finished: Seq::empty(),
            in_dungeon: false,
            post_settlement: false,
        }
    }

    pub fn new(encounter_timeout_secs: u32) -> (r: DpsState)
        ensures
            r.wf(),
            r.model() == DpsState::new_model(),
    {
        let r = DpsState {
            active: None,
            past: Vec::new(),
            newly_finished: Vec::new(),
            in_dungeon: false,
            post_settlement: false,
        };
        assert(r.model().past =~= Seq::empty());
        assert(r.model().newly_finished =~= Seq::empty());
        r
    }

    /// Whether a combat event fits the active encounter's counters.
    pub open spec fn room_for(&self, event: &GameEvent) -> bool {
        match event {
            GameEvent::Combat(c) => match self.active {
                Some(e) => e.room_for_hit(c.source_id, c.damage),
                None => true,
            },
            _ => true,
        }
    }

    pub fn has_room_for(&self, event: &GameEvent) -> (r: bool)
        requires
            self.wf(),
        ensures
            r == self.room_for(event),
    {
        match event {
            GameEvent::Combat(c) => match &self.active {
                Some(e) => e.has_room_for_hit(c.source_id, c.damage),
                None => true,
            },
            _ => true,
        }
    }

    /// Counts a hit: in the active encounter, or in a new one started in the
    /// given zone at `now_us` when none is active, except after a dungeon's
    /// end signals. Other events change nothing here.
    pub fn apply_event<F: Fn(EntityId) -> String>(&mut self, event: &GameEvent, zone_name: &str, zone_id: u32, now_us: u64, name_resolver: F)
        requires
            old(self).wf(),
            old(self).room_for(event),
            forall|id: EntityId| call_requires(name_resolver, (id,)),
        ensures
            final(self).wf(),
            match event {
                GameEvent::Combat(c) => if old(self).active is None && old(self).post_settlement {
                    final(self).model() == old(self).model()
                } else {
                    &&& final(self).past@ == old(self).past@
                    &&& final(self).newly_finished@ == old(self).newly_finished@
                    &&& final(self).in_dungeon == old(self).in_dungeon
                    &&& final(self).post_settlement == old(self).post_settlement
                    &&& final(self).active matches Some(e) && (match old(self).active {
                        Some(a) => {
                            &&& e.id == a.id
                            &&& e.start_us == a.start_us
                            &&& e.zone_name == a.zone_name
                            &&& e.total_damage == a.total_damage + c.damage
                            &&& e.total_damage_taken == a.total_damage_taken
                            &&& e.total_healing == a.total_healing
                            &&& e.same_header(&a)
                            &&& Encounter::meter_of(e.meters(), c.source_id) is Some
                            &&& e.meters() == Encounter::meters_with(a.meters(), c.source_id,
                                Encounter::meter_of(e.meters(), c.source_id)->0)
                            &&& Encounter::meter_of(e.meters(), c.source_id)->0.taken_stats
                                == (match Encounter::meter_of(a.meters(), c.source_id) {
                                    Some(o) => o.taken_stats,
                                    None => CombatStats::zero(),
                                })
                        },
                        None => {
                            &&& e.start_us == now_us
                            &&& e.zone_name@ == zone_name@
                            &&& e.zone_id == zone_id
                            &&& e.outcome == EncounterOutcome::Unknown
                            &&& e.total_damage == c.damage
                            &&& e.total_damage_taken == 0
                            &&& e.total_healing == 0
                            &&& Encounter::meter_of(e.meters(), c.source_id) is Some
                            &&& e.meters() == seq![(c.source_id.0, Encounter::meter_of(e.meters(), c.source_id)->0)]
                            &&& Encounter::meter_of(e.meters(), c.source_id)->0.taken_stats == CombatStats::zero()
                        },
                    }) && {
                        let name = Encounter::meter_of(e.meters(), c.source_id)->0.player_name;
                        &&& e.model() == hit_model(match old(self).active {
                            Some(a) => a.model(),
                            None => new_encounter_model(e.id, zone_name@, zone_id, now_us),
                        }, *c, name@)
                        &&& (match old(self).active { Some(a) => !has_key(a.meters(), c.source_id.0), None => true })
                            ==> call_ensures(name_resolver, (c.source_id,), name)
                    }
                },
                _ => final(self).model() == old(self).model(),
            },
    {
        let combat = match event {
            GameEvent::Combat(c) => c,
            _ => { return; },
        };
        if self.active.is_none() && self.post_settlement {
            return;
        }
        if self.active.is_none() {
            let fresh = Encounter::new(String::from_str(zone_name), zone_id, now_us);
            assert(fresh.meters() =~= Seq::<(u64, crate::meter::PlayerMeter)>::empty());
            assert(fresh.model() == new_encounter_model(fresh.id, zone_name@, zone_id, now_us)) by {
                assert(fresh.phases@ =~= Seq::<crate::encounter::PhaseMarker>::empty());
                assert(crate::encounter::phases_model(fresh.phases@) =~= Seq::<(Seq<char>, u64)>::empty());
                assert(crate::encounter::meters_model(fresh.meters()) =~= Seq::<(u64, crate::meter::MeterModel)>::empty());
            }
            self.active = Some(fresh);
        }
        match &mut self.active {
            Some(enc) => {
                enc.apply(combat, name_resolver);
            },
            None => {},
        }
    }

    /// Does nothing: encounters do not time out.
    pub fn tick(&mut self)
        ensures
            *final(self) == *old(self),
    {
    }

    /// Ends the active encounter at `now_us`.
    pub fn finish_active(&mut self, now_us: u64)
        requires
            old(self).wf(),
        ensures
            final(self).wf(),
            final(self).model() == finish_spec(old(self).model(), now_us),
    {
        let ghost m0 = self.model();
        let taken = self.active.take();
        match taken {
            None => {},
            Some(enc) => {
                let mut enc = enc;
                enc.finish(now_us);
                let ghost done = enc.model();
                assert(done == (EncounterModel { end_us: Some(now_us), ..m0.active->0 }));
                if enc.total_damage > 0 {
                    let copy = enc.duplicate();
                    let ghost nf0 = self.newly_finished@;
                    self.newly_finished.push(copy);
                    assert(models(self.newly_finished@) =~= models(nf0).push(done));
                    let ghost p0 = self.past@;
                    self.past.push(enc);
                    assert(models(self.past@) =~= models(p0).push(done));
                    if self.past.len() > MAX_PAST_ENCOUNTERS {
                        let ghost p1 = self.past@;
                        let _ = self.past.remove(0);
                        assert(models(self.past@) =~= models(p1).drop_first());
                    }
                }
            },
        }
    }

    /// Applies a dungeon-state or zone-change event at `now_us`.
    pub fn apply_state_event(&mut self, event: &GameEvent, now_us: u64)
        requires
            old(self).wf(),
        ensures
            final(self).wf(),
            final(self).model() == state_event_spec(old(self).model(), event.view(), now_us),
    {
        match event {
            GameEvent::DungeonState { state } => match state {
                DungeonStateKind::Active | DungeonStateKind::Ready => {
                    self.post_settlement = false;
                    if !self.in_dungeon {
                        self.in_dungeon = true;
                    }
                },
                DungeonStateKind::Playing => {
                    self.post_settlement = false;
                    if !self.in_dungeon {
                        self.finish_active(now_us);
                        self.in_dungeon = true;
                    }
                },
                DungeonStateKind::End | DungeonStateKind::Settlement | DungeonStateKind::Vote => {
                    self.settle(EncounterOutcome::Cleared);
                    self.finish_active(now_us);
                    self.in_dungeon = false;
                    self.post_settlement = true;
                },
                DungeonStateKind::Null => {
                    self.in_dungeon = false;
                },
            },
            GameEvent::ZoneChange { .. } => {
                self.post_settlement = false;
                self.settle(EncounterOutcome::Cleared);
                self.finish_active(now_us);
                self.in_dungeon = false;
            },
            _ => {},
        }
    }

    /// Gives the active encounter an outcome unless it has one.
    fn settle(&mut self, outcome: EncounterOutcome)
        requires
            old(self).wf(),
        ensures
            final(self).wf(),
            final(self).model() == settle_spec(old(self).model(), outcome),
    {
        match &mut self.active {
            Some(enc) => {
                if enc.outcome == EncounterOutcome::Unknown {
                    enc.outcome = outcome;
                }
            },
            None => {},
        }
    }

    /// Names the meter of `id` `name` in the active and the kept encounters.
    pub fn rename_player(&mut self, id: EntityId, name: &String)
        requires
            old(self).wf(),
        ensures
            final(self).wf(),
            final(self).model() == rename_spec(old(self).model(), id.0, name@),
    {
        let ghost m0 = self.model();
        match &mut self.active {
            Some(enc) => {
                enc.rename_meter(id, name.clone());
            },
            None => {},
        }
        let ghost p0 = self.past@;
        let ghost s1 = *self;
        let n = self.past.len();
        let mut i: usize = 0;
        while i < n
            invariant
                n == p0.len(),
                i <= n,
                self.past@.len() == n,
                self.active == s1.active,
                self.newly_finished == s1.newly_finished,
                self.in_dungeon == s1.in_dungeon,
                self.post_settlement == s1.post_settlement,
                n <= MAX_PAST_ENCOUNTERS,
                forall|k: int| 0 <= k < n ==> {
                    &&& (#[trigger] self.past@[k]).wf()
                    &&& self.past@[k].total_damage > 0
                    &&& self.past@[k].end_us is Some
                },
                forall|k: int| 0 <= k < i ==> (#[trigger] self.past@[k]).model() == rename_in_encounter(p0[k].model(), id.0, name@),
                forall|k: int| i <= k < n ==> (#[trigger] self.past@[k]).model() == p0[k].model(),
            decreases n - i,
        {
            let ghost before = self.past@;
            let mut e = self.past.remove(i);
            assert(e == before[i as int]);
            e.rename_meter(id, name.clone());
            self.past.insert(i, e);
            proof {
                assert forall|k: int| 0 <= k < n implies self.past@[k] == (if k == i { e } else { before[k] }) by {}
            }
            i = i + 1;
        }
        assert(models(self.past@) =~= m0.past.map_values(|e: EncounterModel| rename_in_encounter(e, id.0, name@)));
    }

    /// Ends the active encounter by hand at `now_us`, leaving any dungeon mode.
    pub fn reset(&mut self, now_us: u64)
        requires
            old(self).wf(),
        ensures
            final(self).wf(),
            final(self).model() == reset_spec(old(self).model(), now_us),
    {
        self.settle(EncounterOutcome::ManualStop);
        self.finish_active(now_us);
        self.in_dungeon = false;
        self.post_settlement = false;
    }
}

} // verus!
