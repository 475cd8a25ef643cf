//! One fight: the meters of everyone who took part, the fight's totals, and
//! its phase markers. Times are microseconds on the capture clock.

use vstd::prelude::*;
use indexmap::IndexMap;
use crate::event::{CombatEvent, EntityId};
use crate::meter::{has_key, key_pos, unique_keys, skills_after_hit, CombatStats, HitKind, HitRecord, MeterModel, PlayerMeter};
use crate::store::{listed_before, newest_first_order};

verus! {

/// How an encounter ended.
#[derive(Clone, Copy, PartialEq, Eq, Debug, Structural)]
pub enum EncounterOutcome {
    Cleared,
    Failed,
    ManualStop,
    Unknown,
}

/// The start of a phase, as an offset into the encounter.
pub struct PhaseMarker {
    pub name: String,
    pub start_offset_us: u64,
}

/// The meters of an encounter, keyed by entity id, in order of first appearance.
pub uninterp spec fn player_entries(m: IndexMap<u64, PlayerMeter>) -> Seq<(u64, PlayerMeter)>;

/// `IndexMap::new`: an empty map.
#[verifier::external_body]
fn player_map_new() -> (m: IndexMap<u64, PlayerMeter>)
    ensures
        player_entries(m) == Seq::<(u64, PlayerMeter)>::empty(),
{
    IndexMap::new()
}

/// `IndexMap::insert`: an existing key keeps its place, takes the new value
/// and hands back the old one; a new key goes last.
#[verifier::external_body]
fn player_map_insert(m: &mut IndexMap<u64, PlayerMeter>, k: u64, v: PlayerMeter) -> (r: Option<PlayerMeter>)
    requires
        unique_keys(player_entries(*old(m))),
    ensures
        has_key(player_entries(*old(m)), k) ==> {
            &&& player_entries(*final(m)) == player_entries(*old(m)).update(key_pos(player_entries(*old(m)), k), (k, v))
            &&& r == Some(player_entries(*old(m))[key_pos(player_entries(*old(m)), k)].1)
        },
        !has_key(player_entries(*old(m)), k) ==> {
            &&& player_entries(*final(m)) == player_entries(*old(m)).push((k, v))
            &&& r is None
        },
{
    m.insert(k, v)
}

/// `IndexMap::get`: the value stored under the key, if any.
#[verifier::external_body]
fn player_map_get(m: &IndexMap<u64, PlayerMeter>, k: u64) -> (r: Option<&PlayerMeter>)
    requires
        unique_keys(player_entries(*m)),
    ensures
        r is Some == has_key(player_entries(*m), k),
        r is Some ==> *r->0 == player_entries(*m)[key_pos(player_entries(*m), k)].1,
{
    m.get(&k)
}

/// `IndexMap::len`.
#[verifier::external_body]
fn player_map_len(m: &IndexMap<u64, PlayerMeter>) -> (r: usize)
    ensures
        r == player_entries(*m).len(),
{
    m.len()
}

/// `IndexMap::get_index`: the value at a position.
#[verifier::external_body]
fn player_map_value_at(m: &IndexMap<u64, PlayerMeter>, i: usize) -> (r: &PlayerMeter)
    requires
        i < player_entries(*m).len(),
    ensures
        *r == player_entries(*m)[i as int].1,
{
    m.get_index(i).map(|(_, v)| v).unwrap()
}

/// A fresh identifier for an encounter, from `uuid::Uuid::new_v4`. The value
/// is random; nothing is claimed of it.
#[verifier::external_body]
fn new_encounter_id() -> (r: u128) {
    uuid::Uuid::new_v4().as_u128()
}

/// The sum of one counter over all meters.
pub open spec fn sum_damage(s: Seq<(u64, PlayerMeter)>) -> int
    decreases s.len(),
{
    if s.len() == 0 { 0 } else { sum_damage(s.drop_last()) + s.last().1.damage_stats.total }
}

pub open spec fn sum_taken(s: Seq<(u64, PlayerMeter)>) -> int
    decreases s.len(),
{
    if s.len() == 0 { 0 } else { sum_taken(s.drop_last()) + s.last().1.taken_stats.total }
}

pub open spec fn sum_healing(s: Seq<(u64, PlayerMeter)>) -> int
    decreases s.len(),
{
    if s.len() == 0 { 0 } else { sum_healing(s.drop_last()) + s.last().1.heal_stats.total }
}

proof fn lemma_sums_nonneg(s: Seq<(u64, PlayerMeter)>)
    ensures
        sum_damage(s) >= 0,
        sum_taken(s) >= 0,
        sum_healing(s) >= 0,
    decreases s.len(),
{
    if s.len() > 0 {
        lemma_sums_nonneg(s.drop_last());
    }
}

/// Replacing one meter changes each sum by that meter's difference.
proof fn lemma_sums_update(s: Seq<(u64, PlayerMeter)>, i: int, x: (u64, PlayerMeter))
    requires
        0 <= i < s.len(),
    ensures
        sum_damage(s.update(i, x)) == sum_damage(s) - s[i].1.damage_stats.total + x.1.damage_stats.total,
        sum_taken(s.update(i, x)) == sum_taken(s) - s[i].1.taken_stats.total + x.1.taken_stats.total,
        sum_healing(s.update(i, x)) == sum_healing(s) - s[i].1.heal_stats.total + x.1.heal_stats.total,
    decreases s.len(),
{
    if i < s.len() - 1 {
        lemma_sums_update(s.drop_last(), i, x);
        assert(s.update(i, x).drop_last() =~= s.drop_last().update(i, x));
    } else {
        assert(s.update(i, x).drop_last() =~= s.drop_last());
    }
}

/// No meter's counters exceed the sums.
proof fn lemma_sums_bound(s: Seq<(u64, PlayerMeter)>, i: int)
    requires
        0 <= i < s.len(),
    ensures
        s[i].1.damage_stats.total <= sum_damage(s),
        s[i].1.taken_stats.total <= sum_taken(s),
        s[i].1.heal_stats.total <= sum_healing(s),
    decreases s.len(),
{
    lemma_sums_nonneg(s.drop_last());
    if i < s.len() - 1 {
        lemma_sums_bound(s.drop_last(), i);
    }
}

pub struct Encounter {
    pub id: u128,
    pub start_us: u64,
    pub end_us: Option<u64>,
    pub zone_name: String,
    pub zone_id: u32,
    pub outcome: EncounterOutcome,
    pub phases: Vec<PhaseMarker>,
    pub players: IndexMap<u64, PlayerMeter>,
    pub total_damage: u64,
    pub total_damage_taken: u64,
    pub total_healing: u64,
}

impl Encounter {
    pub open spec fn meters(&self) -> Seq<(u64, PlayerMeter)> {
        player_entries(self.players)
    }

    /// Each entity has one meter, stored under its id, and the encounter's
    /// totals are the sums of its meters.
    pub open spec fn wf(&self) -> bool {
        &&& unique_keys(self.meters())
        &&& forall|i: int| 0 <= i < self.meters().len() ==> {
            &&& (#[trigger] self.meters()[i]).1.wf()
            &&& self.meters()[i].1.entity_id.0 == self.meters()[i].0
        }
        &&& sum_damage(self.meters()) == self.total_damage
        &&& sum_taken(self.meters()) == self.total_damage_taken
        &&& sum_healing(self.meters()) == self.total_healing
    }

    /// What stays the same when one meter is updated.
    pub open spec fn same_header(&self, other: &Encounter) -> bool {
        &&& self.id == other.id
        &&& self.start_us == other.start_us
        &&& self.end_us == other.end_us
        &&& self.zone_name == other.zone_name
        &&& self.zone_id == other.zone_id
        &&& self.outcome == other.outcome
        &&& self.phases == other.phases
    }

    /// An encounter in `zone_name` starting at `now_us`, with a fresh id.
    pub fn new(zone_name: String, zone_id: u32, now_us: u64) -> (r: Encounter)
        ensures
            r.wf(),
            r.start_us == now_us,
            r.end_us is None,
            r.zone_name@ == zone_name@,
            r.zone_id == zone_id,
            r.outcome == EncounterOutcome::Unknown,
            r.phases@.len() == 0,
            r.meters().len() == 0,
            r.total_damage == 0,
            r.total_damage_taken == 0,
            r.total_healing == 0,
    {
        Encounter {
            id: new_encounter_id(),
            start_us: now_us,
            end_us: None,
            zone_name,
            zone_id,
            outcome: EncounterOutcome::Unknown,
            phases: Vec::new(),
            players: player_map_new(),
            total_damage: 0,
            total_damage_taken: 0,
            total_healing: 0,
        }
    }

    /// Microseconds from the start to `at` (0 for earlier times).
    pub open spec fn offset(&self, at: u64) -> u64 {
        if at >= self.start_us { (at - self.start_us) as u64 } else { 0 }
    }

    fn time_us(&self, at: u64) -> (r: u64)
        ensures
            r == self.offset(at),
    {
        if at >= self.start_us { at - self.start_us } else { 0 }
    }

    /// The meter of `id`, taken out of the map; a placeholder keeps its place.
    /// A new meter, named by the resolver, where there was none.
    fn take_meter<F: Fn(EntityId) -> String>(&mut self, id: EntityId, name_resolver: &F) -> (m: PlayerMeter)
        requires
            old(self).wf(),
            call_requires(*name_resolver, (id,)),
        ensures
            m.wf(),
            m.entity_id == id,
            has_key(old(self).meters(), id.0) ==> m == old(self).meters()[key_pos(old(self).meters(), id.0)].1,
            !has_key(old(self).meters(), id.0) ==> {
                &&& !m.is_player
                &&& m.damage_stats == CombatStats::zero()
                &&& m.taken_stats == CombatStats::zero()
                &&& m.heal_stats == CombatStats::zero()
                &&& m.overheal == 0 && m.shield_gain == 0 && m.deaths == 0
                &&& m.skills().len() == 0
                &&& m.hit_log@.len() == 0
                &&& call_ensures(*name_resolver, (id,), m.player_name)
            },
            has_key(final(self).meters(), id.0),
            final(self).meters().len() == old(self).meters().len() + if has_key(old(self).meters(), id.0) { 0int } else { 1int },
            forall|i: int| 0 <= i < old(self).meters().len() && old(self).meters()[i].0 != id.0
                ==> final(self).meters()[i] == old(self).meters()[i],
            key_pos(final(self).meters(), id.0) == if has_key(old(self).meters(), id.0) {
                key_pos(old(self).meters(), id.0)
            } else {
                old(self).meters().len() as int
            },
            unique_keys(final(self).meters()),
            final(self).same_header(old(self)),
            final(self).total_damage == old(self).total_damage,
            final(self).total_damage_taken == old(self).total_damage_taken,
            final(self).total_healing == old(self).total_healing,
    {
        let ghost s0 = self.meters();
        let placeholder = PlayerMeter::new(id, String::new());
        let prev = player_map_insert(&mut self.players, id.0, placeholder);
        proof {
            let s1 = self.meters();
            if has_key(s0, id.0) {
                let i = key_pos(s0, id.0);
                assert(s1[i].0 == id.0);
                assert forall|a: int, b: int| 0 <= a < b < s1.len() implies #[trigger] s1[a].0 != #[trigger] s1[b].0 by {
                    assert(s0[a].0 == s1[a].0 && s0[b].0 == s1[b].0);
                }
                assert(key_pos(s1, id.0) == i) by {
                    let j = key_pos(s1, id.0);
                    assert(s1[j].0 == id.0);
                    assert(s1[i].0 == id.0);
                }
            } else {
                let n = s0.len() as int;
                assert(s1[n].0 == id.0);
                assert forall|a: int, b: int| 0 <= a < b < s1.len() implies #[trigger] s1[a].0 != #[trigger] s1[b].0 by {
                    if b == n {
                        assert(s0[a].0 == s1[a].0);
                    } else {
                        assert(s0[a].0 == s1[a].0 && s0[b].0 == s1[b].0);
                    }
                }
                assert(key_pos(s1, id.0) == n) by {
                    let j = key_pos(s1, id.0);
                    assert(s1[j].0 == id.0);
                    if j < n {
                        assert(s0[j].0 == id.0);
                    }
                }
            }
        }
        match prev {
            Some(m) => m,
            None => PlayerMeter::new(id, name_resolver(id)),
        }
    }

    /// Puts a meter back where `take_meter` left its placeholder.
    fn put_meter(&mut self, m: PlayerMeter)
        requires
            unique_keys(old(self).meters()),
            has_key(old(self).meters(), m.entity_id.0),
        ensures
            final(self).meters() == old(self).meters().update(key_pos(old(self).meters(), m.entity_id.0), (m.entity_id.0, m)),
            final(self).same_header(old(self)),
            final(self).total_damage == old(self).total_damage,
            final(self).total_damage_taken == old(self).total_damage_taken,
            final(self).total_healing == old(self).total_healing,
    {
        let k = m.entity_id.0;
        let _ = player_map_insert(&mut self.players, k, m);
    }

    /// The meters after the meter of `id` changed to `m`: in its place if it
    /// had one, else appended last.
    pub open spec fn meters_with(s: Seq<(u64, PlayerMeter)>, id: EntityId, m: PlayerMeter) -> Seq<(u64, PlayerMeter)> {
        if has_key(s, id.0) { s.update(key_pos(s, id.0), (id.0, m)) } else { s.push((id.0, m)) }
    }

    /// The meter `id` has, or would get as a new one.
    pub open spec fn meter_of(s: Seq<(u64, PlayerMeter)>, id: EntityId) -> Option<PlayerMeter> {
        if has_key(s, id.0) { Some(s[key_pos(s, id.0)].1) } else { None }
    }

    proof fn lemma_put_back(s0: Seq<(u64, PlayerMeter)>, s1: Seq<(u64, PlayerMeter)>, s2: Seq<(u64, PlayerMeter)>, id: EntityId, m: PlayerMeter)
        requires
            unique_keys(s0),
            unique_keys(s1),
            has_key(s1, id.0),
            s1.len() == s0.len() + if has_key(s0, id.0) { 0int } else { 1int },
            forall|i: int| 0 <= i < s0.len() && s0[i].0 != id.0 ==> s1[i] == s0[i],
            key_pos(s1, id.0) == if has_key(s0, id.0) { key_pos(s0, id.0) } else { s0.len() as int },
            s2 == s1.update(key_pos(s1, id.0), (id.0, m)),
        ensures
            s2 == Encounter::meters_with(s0, id, m),
    {
        let p = key_pos(s1, id.0);
        if has_key(s0, id.0) {
            assert forall|i: int| 0 <= i < s0.len() implies s2[i] == s0.update(p, (id.0, m))[i] by {
                if i != p {
                    assert(s0[i].0 != id.0) by {
                        if s0[i].0 == id.0 {
                            assert(s0[p].0 == id.0);
                        }
                    }
                }
            }
            assert(s2 =~= s0.update(p, (id.0, m)));
        } else {
            assert forall|i: int| 0 <= i < s0.len() implies s2[i] == s0.push((id.0, m))[i] by {
                assert(s0[i].0 != id.0);
            }
            assert(s2 =~= s0.push((id.0, m)));
        }
    }

    /// Proves the invariant after one meter was replaced.
    proof fn lemma_wf_after(old_e: &Encounter, new_e: &Encounter, id: EntityId, m: PlayerMeter)
        requires
            old_e.wf(),
            m.wf(),
            m.entity_id == id,
            new_e.meters() == Encounter::meters_with(old_e.meters(), id, m),
            new_e.total_damage == sum_damage(old_e.meters())
                - (match Encounter::meter_of(old_e.meters(), id) { Some(o) => o.damage_stats.total as int, None => 0 })
                + m.damage_stats.total,
            new_e.total_damage_taken == sum_taken(old_e.meters())
                - (match Encounter::meter_of(old_e.meters(), id) { Some(o) => o.taken_stats.total as int, None => 0 })
                + m.taken_stats.total,
            new_e.total_healing == sum_healing(old_e.meters())
                - (match Encounter::meter_of(old_e.meters(), id) { Some(o) => o.heal_stats.total as int, None => 0 })
                + m.heal_stats.total,
        ensures
            new_e.wf(),
    {
        let s0 = old_e.meters();
        let s1 = new_e.meters();
        if has_key(s0, id.0) {
            let p = key_pos(s0, id.0);
            lemma_sums_update(s0, p, (id.0, m));
            assert forall|a: int, b: int| 0 <= a < b < s1.len() implies #[trigger] s1[a].0 != #[trigger] s1[b].0 by {
                assert(s0[a].0 == s1[a].0 && s0[b].0 == s1[b].0);
            }
            assert forall|i: int| 0 <= i < s1.len() implies {
                &&& (#[trigger] s1[i]).1.wf()
                &&& s1[i].1.entity_id.0 == s1[i].0
            } by {
                if i != p {
                    assert(s1[i] == s0[i]);
                }
            }
        } else {
            let n = s0.len() as int;
            assert(s1.drop_last() =~= s0);
            assert forall|a: int, b: int| 0 <= a < b < s1.len() implies #[trigger] s1[a].0 != #[trigger] s1[b].0 by {
                if b == n {
                    assert(s0[a].0 == s1[a].0);
                } else {
                    assert(s0[a].0 == s1[a].0 && s0[b].0 == s1[b].0);
                }
            }
            assert forall|i: int| 0 <= i < s1.len() implies {
                &&& (#[trigger] s1[i]).1.wf()
                &&& s1[i].1.entity_id.0 == s1[i].0
            } by {
                if i < n {
                    assert(s1[i] == s0[i]);
                }
            }
        }
    }

    /// Whether the hit fits the counters: the encounter's damage total and
    /// the attacker's hit count stay within `u64`.
    pub open spec fn room_for_hit(&self, id: EntityId, amount: u64) -> bool {
        &&& self.total_damage + amount <= u64::MAX
        &&& match Encounter::meter_of(self.meters(), id) {
            Some(m) => m.damage_stats.hits < u64::MAX,
            None => true,
        }
    }

    pub fn has_room_for_hit(&self, id: EntityId, amount: u64) -> (r: bool)
        requires
            self.wf(),
        ensures
            r == self.room_for_hit(id, amount),
    {
        if amount > u64::MAX - self.total_damage {
            return false;
        }
        match player_map_get(&self.players, id.0) {
            Some(m) => m.damage_stats.hits < u64::MAX,
            None => true,
        }
    }

    /// Counts a hit in the attacker's meter (made on first sight, named by
    /// the resolver) and in the encounter's damage total.
    pub fn apply<F: Fn(EntityId) -> String>(&mut self, event: &CombatEvent, name_resolver: F)
        requires
            old(self).wf(),
            old(self).room_for_hit(event.source_id, event.damage),
            call_requires(name_resolver, (event.source_id,)),
        ensures
            final(self).wf(),
            final(self).same_header(old(self)),
            final(self).total_damage == old(self).total_damage + event.damage,
            final(self).total_damage_taken == old(self).total_damage_taken,
            final(self).total_healing == old(self).total_healing,
            Encounter::meter_of(final(self).meters(), event.source_id) is Some,
            final(self).meters() == Encounter::meters_with(
                old(self).meters(),
                event.source_id,
                Encounter::meter_of(final(self).meters(), event.source_id)->0,
            ),
            ({
                let m = Encounter::meter_of(final(self).meters(), event.source_id)->0;
                &&& m.damage_stats == (match Encounter::meter_of(old(self).meters(), event.source_id) {
                    Some(o) => o.damage_stats,
                    None => CombatStats::zero(),
                }).applied(event.damage, event.is_crit, event.is_lucky)
                &&& m.taken_stats == (match Encounter::meter_of(old(self).meters(), event.source_id) {
                    Some(o) => o.taken_stats,
                    None => CombatStats::zero(),
                })
                &&& m.hit_log@.last().time_us == old(self).offset(event.timestamp_us)
            }),
            final(self).model() == hit_model(old(self).model(), *event,
                Encounter::meter_of(final(self).meters(), event.source_id)->0.player_name@),
            !has_key(old(self).meters(), event.source_id.0) ==> call_ensures(name_resolver, (event.source_id,),
                Encounter::meter_of(final(self).meters(), event.source_id)->0.player_name),
    {
        let ghost old_self = *self;
        let id = event.source_id;
        let t = self.time_us(event.timestamp_us);
        let ghost s0 = self.meters();
        let mut m = self.take_meter(id, &name_resolver);
        let ghost m0 = m;
        let ghost s1 = self.meters();
        proof {
            if has_key(s0, id.0) {
                lemma_sums_bound(s0, key_pos(s0, id.0));
            }
        }
        m.apply(event, t);
        self.put_meter(m);
        self.total_damage = self.total_damage + event.damage;
        proof {
            Encounter::lemma_put_back(s0, s1, self.meters(), id, m);
            Encounter::lemma_wf_after(&old_self, self, id, m);
            Encounter::lemma_own_meter(s0, id, m);
            if !has_key(s0, id.0) {
                assert(m0.skills() =~= Seq::<(u32, crate::meter::SkillStat)>::empty());
                assert(m0.hit_log@ =~= Seq::<HitRecord>::empty());
                assert(m0.model() == fresh_meter(id, m.player_name@));
            }
            assert(m.model() == meter_hit(m0.model(), *event, t));
            Encounter::lemma_meters_set(s0, id, m, m.player_name@, hit_by(*event, t));
            assert(self.model() == hit_model(old_self.model(), *event, m.player_name@));
        }
    }

    pub open spec fn room_for_heal(&self, id: EntityId, amount: u64, overheal: u64) -> bool {
        &&& self.total_healing + amount <= u64::MAX
        &&& match Encounter::meter_of(self.meters(), id) {
            Some(m) => m.heal_stats.hits < u64::MAX && m.overheal + overheal <= u64::MAX,
            None => true,
        }
    }

    pub fn has_room_for_heal(&self, id: EntityId, amount: u64, overheal: u64) -> (r: bool)
        requires
            self.wf(),
        ensures
            r == self.room_for_heal(id, amount, overheal),
    {
        if amount > u64::MAX - self.total_healing {
            return false;
        }
        match player_map_get(&self.players, id.0) {
            Some(m) => m.heal_stats.hits < u64::MAX && overheal <= u64::MAX - m.overheal,
            None => true,
        }
    }

    /// Counts a heal in the healer's meter (made on first sight) and in the
    /// encounter's healing total.
    pub fn apply_heal<F: Fn(EntityId) -> String>(&mut self, event: &CombatEvent, overheal: u64, name_resolver: F)
        requires
            old(self).wf(),
            old(self).room_for_heal(event.source_id, event.damage, overheal),
            call_requires(name_resolver, (event.source_id,)),
        ensures
            final(self).wf(),
            final(self).same_header(old(self)),
            final(self).total_damage == old(self).total_damage,
            final(self).total_damage_taken == old(self).total_damage_taken,
            final(self).total_healing == old(self).total_healing + event.damage,
            Encounter::meter_of(final(self).meters(), event.source_id) is Some,
            final(self).meters() == Encounter::meters_with(
                old(self).meters(),
                event.source_id,
                Encounter::meter_of(final(self).meters(), event.source_id)->0,
            ),
            ({
                let m = Encounter::meter_of(final(self).meters(), event.source_id)->0;
                let o = Encounter::meter_of(old(self).meters(), event.source_id);
                &&& m.heal_stats == (match o { Some(o) => o.heal_stats, None => CombatStats::zero() })
                    .applied(event.damage, event.is_crit, event.is_lucky)
                &&& m.overheal == (match o { Some(o) => o.overheal, None => 0 }) + overheal
            }),
            final(self).model() == heal_model(old(self).model(), *event, overheal,
                Encounter::meter_of(final(self).meters(), event.source_id)->0.player_name@),
            !has_key(old(self).meters(), event.source_id.0) ==> call_ensures(name_resolver, (event.source_id,),
                Encounter::meter_of(final(self).meters(), event.source_id)->0.player_name),
    {
        let ghost old_self = *self;
        let id = event.source_id;
        let t = self.time_us(event.timestamp_us);
        let ghost s0 = self.meters();
        let mut m = self.take_meter(id, &name_resolver);
        let ghost m0 = m;
        let ghost s1 = self.meters();
        proof {
            if has_key(s0, id.0) {
                lemma_sums_bound(s0, key_pos(s0, id.0));
            }
        }
        m.apply_heal(event, overheal, t);
        self.put_meter(m);
        self.total_healing = self.total_healing + event.damage;
        proof {
            Encounter::lemma_put_back(s0, s1, self.meters(), id, m);
            Encounter::lemma_wf_after(&old_self, self, id, m);
            Encounter::lemma_own_meter(s0, id, m);
            if !has_key(s0, id.0) {
                assert(m0.skills() =~= Seq::<(u32, crate::meter::SkillStat)>::empty());
                assert(m0.hit_log@ =~= Seq::<HitRecord>::empty());
                assert(m0.model() == fresh_meter(id, m.player_name@));
            }
            assert(m.model() == meter_healed(m0.model(), *event, overheal, t));
            Encounter::lemma_meters_set(s0, id, m, m.player_name@, healed_by(*event, overheal, t));
            assert(self.model() == heal_model(old_self.model(), *event, overheal, m.player_name@));
        }
    }

    pub open spec fn room_for_taken(&self, id: EntityId, amount: u64) -> bool {
        match Encounter::meter_of(self.meters(), id) {
            Some(m) => m.taken_stats.hits < u64::MAX && self.total_damage_taken + amount <= u64::MAX,
            None => true,
        }
    }

    pub fn has_room_for_taken(&self, id: EntityId, amount: u64) -> (r: bool)
        requires
            self.wf(),
        ensures
            r == self.room_for_taken(id, amount),
    {
        match player_map_get(&self.players, id.0) {
            Some(m) => m.taken_stats.hits < u64::MAX && amount <= u64::MAX - self.total_damage_taken,
            None => true,
        }
    }

    /// Counts a hit taken by an entity that already has a meter; others are
    /// not counted.
    pub fn apply_taken(&mut self, event: &CombatEvent)
        requires
            old(self).wf(),
            old(self).room_for_taken(event.target_id, event.damage),
        ensures
            final(self).wf(),
            final(self).same_header(old(self)),
            final(self).total_damage == old(self).total_damage,
            final(self).total_healing == old(self).total_healing,
            match Encounter::meter_of(old(self).meters(), event.target_id) {
                None => final(self).meters() == old(self).meters()
                    && final(self).total_damage_taken == old(self).total_damage_taken,
                Some(o) => {
                    &&& final(self).total_damage_taken == old(self).total_damage_taken + event.damage
                    &&& Encounter::meter_of(final(self).meters(), event.target_id) is Some
                    &&& final(self).meters() == Encounter::meters_with(
                        old(self).meters(),
                        event.target_id,
                        Encounter::meter_of(final(self).meters(), event.target_id)->0,
                    )
                    &&& Encounter::meter_of(final(self).meters(), event.target_id)->0.taken_stats
                        == o.taken_stats.applied(event.damage, event.is_crit, event.is_lucky)
                },
            },
            final(self).model() == taken_model(old(self).model(), *event),
    {
        let id = event.target_id;
        let present = match player_map_get(&self.players, id.0) { Some(_) => true, None => false };
        if !present {
            proof {
                assert(!has_model_key(self.model().meters, id.0)) by {
                    if has_model_key(self.model().meters, id.0) {
                        let q = choose|q: int| 0 <= q < self.model().meters.len() && #[trigger] self.model().meters[q].0 == id.0;
                        assert(self.meters()[q].0 == id.0);
                    }
                }
            }
            return;
        }
        let ghost old_self = *self;
        let t = self.time_us(event.timestamp_us);
        let ghost s0 = self.meters();
        let resolver = |e: EntityId| -> (r: String) { String::new() };
        let mut m = self.take_meter(id, &resolver);
        let ghost s1 = self.meters();
        proof {
            lemma_sums_bound(s0, key_pos(s0, id.0));
        }
        let ghost m0 = m;
        m.apply_taken(event, t);
        self.put_meter(m);
        self.total_damage_taken = self.total_damage_taken + event.damage;
        proof {
            Encounter::lemma_put_back(s0, s1, self.meters(), id, m);
            Encounter::lemma_wf_after(&old_self, self, id, m);
            Encounter::lemma_own_meter(s0, id, m);
            assert(m.model() == meter_took(m0.model(), *event, t));
            Encounter::lemma_meters_set(s0, id, m, Seq::empty(), taken_by(*event, t));
            let p = key_pos(s0, id.0);
            assert(has_model_key(old_self.model().meters, id.0)) by {
                assert(old_self.model().meters[p].0 == id.0);
            }
            assert(self.model() == taken_model(old_self.model(), *event));
        }
    }

    pub open spec fn room_for_shield(&self, id: EntityId, new_gain: u64) -> bool {
        match Encounter::meter_of(self.meters(), id) {
            Some(m) => m.shield_gain + new_gain <= u64::MAX,
            None => true,
        }
    }

    pub fn has_room_for_shield(&self, id: EntityId, new_gain: u64) -> (r: bool)
        requires
            self.wf(),
        ensures
            r == self.room_for_shield(id, new_gain),
    {
        match player_map_get(&self.players, id.0) {
            Some(m) => new_gain <= u64::MAX - m.shield_gain,
            None => true,
        }
    }

    /// Adds newly seen shield value to an entity's meter (made on first
    /// sight); a gain of 0 changes nothing.
    pub fn apply_shield_gain<F: Fn(EntityId) -> String>(&mut self, entity_id: EntityId, new_gain: u64, name_resolver: F)
        requires
            old(self).wf(),
            old(self).room_for_shield(entity_id, new_gain),
            call_requires(name_resolver, (entity_id,)),
        ensures
            final(self).wf(),
            final(self).same_header(old(self)),
            final(self).total_damage == old(self).total_damage,
            final(self).total_damage_taken == old(self).total_damage_taken,
            final(self).total_healing == old(self).total_healing,
            new_gain == 0 ==> final(self).meters() == old(self).meters(),
            new_gain != 0 ==> {
                &&& Encounter::meter_of(final(self).meters(), entity_id) is Some
                &&& final(self).meters() == Encounter::meters_with(
                    old(self).meters(),
                    entity_id,
                    Encounter::meter_of(final(self).meters(), entity_id)->0,
                )
                &&& Encounter::meter_of(final(self).meters(), entity_id)->0.shield_gain
                    == (match Encounter::meter_of(old(self).meters(), entity_id) { Some(o) => o.shield_gain, None => 0 }) + new_gain
                &&& final(self).model() == (EncounterModel {
                    meters: shield_added(old(self).model().meters, entity_id, new_gain,
                        Encounter::meter_of(final(self).meters(), entity_id)->0.player_name@),
                    ..old(self).model()
                })
                &&& !has_key(old(self).meters(), entity_id.0) ==> call_ensures(name_resolver, (entity_id,),
                    Encounter::meter_of(final(self).meters(), entity_id)->0.player_name)
            },
            new_gain == 0 ==> final(self).model() == old(self).model(),
    {
        if new_gain == 0 {
            return;
        }
        let ghost old_self = *self;
        let ghost s0 = self.meters();
        let mut m = self.take_meter(entity_id, &name_resolver);
        let ghost s1 = self.meters();
        m.shield_gain = m.shield_gain + new_gain;
        self.put_meter(m);
        proof {
            Encounter::lemma_put_back(s0, s1, self.meters(), entity_id, m);
            Encounter::lemma_wf_after(&old_self, self, entity_id, m);
            Encounter::lemma_own_meter(s0, entity_id, m);
            let s2 = self.meters();
            let id = entity_id;
            if has_key(s0, id.0) {
                let p = key_pos(s0, id.0);
                assert(s2 == s0.update(p, (id.0, m)));
                assert(has_model_key(meters_model(s0), id.0)) by {
                    assert(meters_model(s0)[p].0 == id.0);
                }
                assert forall|i: int| 0 <= i < s2.len() implies meters_model(s2)[i] == shield_added(meters_model(s0), id, new_gain, m.player_name@)[i] by {
                    if i != p {
                        assert(s0[i].0 != id.0) by {
                            if s0[i].0 == id.0 {
                                assert(s0[p].0 == id.0);
                            }
                        }
                    }
                }
                assert(meters_model(s2) =~= shield_added(meters_model(s0), id, new_gain, m.player_name@));
            } else {
                assert(!has_model_key(meters_model(s0), id.0)) by {
                    if has_model_key(meters_model(s0), id.0) {
                        let q = choose|q: int| 0 <= q < meters_model(s0).len() && #[trigger] meters_model(s0)[q].0 == id.0;
                        assert(s0[q].0 == id.0);
                    }
                }
                assert(s2 == s0.push((id.0, m)));
                assert(m.skills() =~= Seq::<(u32, crate::meter::SkillStat)>::empty());
                assert(m.hit_log@ =~= Seq::<crate::meter::HitRecord>::empty());
                assert(meters_model(s2) =~= shield_added(meters_model(s0), id, new_gain, m.player_name@));
            }
        }
    }

    pub open spec fn room_for_death(&self, id: EntityId) -> bool {
        match Encounter::meter_of(self.meters(), id) {
            Some(m) => m.deaths < u32::MAX,
            None => true,
        }
    }

    pub fn has_room_for_death(&self, id: EntityId) -> (r: bool)
        requires
            self.wf(),
        ensures
            r == self.room_for_death(id),
    {
        match player_map_get(&self.players, id.0) {
            Some(m) => m.deaths < u32::MAX,
            None => true,
        }
    }

    /// Counts a death of an entity (its meter made on first sight).
    pub fn record_death<F: Fn(EntityId) -> String>(&mut self, entity_id: EntityId, name_resolver: F)
        requires
            old(self).wf(),
            old(self).room_for_death(entity_id),
            call_requires(name_resolver, (entity_id,)),
        ensures
            final(self).wf(),
            final(self).same_header(old(self)),
            final(self).total_damage == old(self).total_damage,
            final(self).total_damage_taken == old(self).total_damage_taken,
            final(self).total_healing == old(self).total_healing,
            Encounter::meter_of(final(self).meters(), entity_id) is Some,
            final(self).meters() == Encounter::meters_with(
                old(self).meters(),
                entity_id,
                Encounter::meter_of(final(self).meters(), entity_id)->0,
            ),
            Encounter::meter_of(final(self).meters(), entity_id)->0.deaths
                == (match Encounter::meter_of(old(self).meters(), entity_id) { Some(o) => o.deaths, None => 0 }) + 1,
            ({
                let nm = Encounter::meter_of(final(self).meters(), entity_id)->0.player_name;
                &&& final(self).model() == (EncounterModel {
                    meters: death_added(old(self).model().meters, entity_id, nm@),
                    ..old(self).model()
                })
                &&& !has_key(old(self).meters(), entity_id.0) ==> call_ensures(name_resolver, (entity_id,), nm)
            }),
    {
        let ghost old_self = *self;
        let ghost s0 = self.meters();
        let mut m = self.take_meter(entity_id, &name_resolver);
        let ghost s1 = self.meters();
        m.deaths = m.deaths + 1;
        self.put_meter(m);
        proof {
            Encounter::lemma_put_back(s0, s1, self.meters(), entity_id, m);
            Encounter::lemma_wf_after(&old_self, self, entity_id, m);
            Encounter::lemma_own_meter(s0, entity_id, m);
            let s2 = self.meters();
            let id = entity_id;
            if has_key(s0, id.0) {
                let p = key_pos(s0, id.0);
                assert(s2 == s0.update(p, (id.0, m)));
                assert(has_model_key(meters_model(s0), id.0)) by {
                    assert(meters_model(s0)[p].0 == id.0);
                }
                assert forall|i: int| 0 <= i < s2.len() implies meters_model(s2)[i] == death_added(meters_model(s0), id, m.player_name@)[i] by {
                    if i != p {
                        assert(s0[i].0 != id.0) by {
                            if s0[i].0 == id.0 {
                                assert(s0[p].0 == id.0);
                            }
                        }
                    }
                }
                assert(has_model_key(meters_model(s0), id.0)) by {
                    assert(meters_model(s0)[p].0 == id.0);
                }
                assert(meters_model(s2) =~= death_added(meters_model(s0), id, m.player_name@));
            } else {
                assert(!has_model_key(meters_model(s0), id.0)) by {
                    if has_model_key(meters_model(s0), id.0) {
                        let q = choose|q: int| 0 <= q < meters_model(s0).len() && #[trigger] meters_model(s0)[q].0 == id.0;
                        assert(s0[q].0 == id.0);
                    }
                }
                assert(s2 == s0.push((id.0, m)));
                assert(m.skills() =~= Seq::<(u32, crate::meter::SkillStat)>::empty());
                assert(m.hit_log@ =~= Seq::<crate::meter::HitRecord>::empty());
                assert(m.model() == MeterModel { deaths: 1, ..fresh_meter(id, m.player_name@) });
                assert(meters_model(s2) =~= death_added(meters_model(s0), id, m.player_name@));
            }
        }
    }

    /// Microseconds the encounter has run: up to its end, or up to `now_us`
    /// while it is active.
    /// Gives the meter of `id`, where there is one, the name `name`.
    pub fn rename_meter(&mut self, id: EntityId, name: String)
        requires
            old(self).wf(),
        ensures
            final(self).wf(),
            final(self).model() == (EncounterModel {
                meters: renamed(old(self).model().meters, id.0, name@),
                ..old(self).model()
            }),
    {
        let present = match player_map_get(&self.players, id.0) { Some(_) => true, None => false };
        if !present {
            assert(meters_model(self.meters()) =~= renamed(meters_model(self.meters()), id.0, name@)) by {
                assert forall|i: int| 0 <= i < self.meters().len() implies self.meters()[i].0 != id.0 by {
                    if self.meters()[i].0 == id.0 {
                        assert(has_key(self.meters(), id.0));
                    }
                }
            }
            return;
        }
        let ghost old_self = *self;
        let ghost s0 = self.meters();
        let resolver = |e: EntityId| -> (r: String) { String::new() };
        let mut m = self.take_meter(id, &resolver);
        let ghost s1 = self.meters();
        let ghost nm = name@;
        m.player_name = name;
        self.put_meter(m);
        proof {
            let p = key_pos(s0, id.0);
            Encounter::lemma_put_back(s0, s1, self.meters(), id, m);
            lemma_sums_update(s0, p, (id.0, m));
            Encounter::lemma_wf_after(&old_self, self, id, m);
            let s2 = self.meters();
            assert(s2 == s0.update(p, (id.0, m)));
            assert forall|i: int| 0 <= i < s2.len() implies meters_model(s2)[i] == renamed(meters_model(s0), id.0, nm)[i] by {
                if i != p {
                    assert(s0[i].0 != id.0) by {
                        if s0[i].0 == id.0 {
                            assert(s0[p].0 == id.0);
                        }
                    }
                }
            }
            assert(meters_model(s2) =~= renamed(meters_model(s0), id.0, nm));
        }
    }

    /// Whether `id` has a meter.
    pub fn has_meter(&self, id: EntityId) -> (r: bool)
        requires
            self.wf(),
        ensures
            r == (Encounter::meter_of(self.meters(), id) is Some),
    {
        match player_map_get(&self.players, id.0) { Some(_) => true, None => false }
    }

    /// How many entities have a meter.
    pub fn meter_count(&self) -> (r: usize)
        ensures
            r == self.meters().len(),
    {
        player_map_len(&self.players)
    }

    /// The meter at position `i`, in order of first appearance.
    pub fn meter_at(&self, i: usize) -> (r: &PlayerMeter)
        requires
            i < self.meters().len(),
        ensures
            *r == self.meters()[i as int].1,
    {
        player_map_value_at(&self.players, i)
    }

    /// Changing one meter leaves the others where they were.
    pub proof fn lemma_meter_of_other(s: Seq<(u64, PlayerMeter)>, id: EntityId, m: PlayerMeter, other: EntityId)
        requires
            unique_keys(s),
            other.0 != id.0,
        ensures
            Encounter::meter_of(Encounter::meters_with(s, id, m), other) == Encounter::meter_of(s, other),
    {
        let s2 = Encounter::meters_with(s, id, m);
        if has_key(s, other.0) {
            let p = key_pos(s, other.0);
            assert(s2[p].0 == other.0);
            assert(has_key(s2, other.0));
            let q = key_pos(s2, other.0);
            if q != p {
                if q < s.len() {
                    assert(s2[q] == s[q] || s2[q].0 == id.0);
                }
            }
        } else {
            if has_key(s2, other.0) {
                let q = key_pos(s2, other.0);
                if q < s.len() {
                    assert(s2[q] == s[q] || s2[q].0 == id.0);
                }
            }
        }
    }

    pub open spec fn elapsed_spec(&self, now_us: u64) -> u64 {
        let end = match self.end_us { Some(e) => e, None => now_us };
        if end >= self.start_us { (end - self.start_us) as u64 } else { 0 }
    }

    pub fn elapsed(&self, now_us: u64) -> (r: u64)
        ensures
            r == self.elapsed_spec(now_us),
    {
        let end = match self.end_us { Some(e) => e, None => now_us };
        if end >= self.start_us { end - self.start_us } else { 0 }
    }

    /// Marks the start of a new phase at the current point of the encounter.
    pub fn push_phase(&mut self, name: String, now_us: u64)
        ensures
            final(self).phases@ == old(self).phases@.push(PhaseMarker { name, start_offset_us: old(self).elapsed_spec(now_us) }),
            final(self).id == old(self).id,
            final(self).start_us == old(self).start_us,
            final(self).end_us == old(self).end_us,
            final(self).zone_name == old(self).zone_name,
            final(self).zone_id == old(self).zone_id,
            final(self).outcome == old(self).outcome,
            final(self).players == old(self).players,
            final(self).total_damage == old(self).total_damage,
            final(self).total_damage_taken == old(self).total_damage_taken,
            final(self).total_healing == old(self).total_healing,
    {
        let offset = self.elapsed(now_us);
        self.phases.push(PhaseMarker { name, start_offset_us: offset });
    }

    pub fn is_active(&self) -> (r: bool)
        ensures
            r == self.end_us is None,
    {
        self.end_us.is_none()
    }

    /// Ends the encounter at `now_us`.
    pub fn finish(&mut self, now_us: u64)
        ensures
            final(self).end_us == Some(now_us),
            final(self).id == old(self).id,
            final(self).start_us == old(self).start_us,
            final(self).zone_name == old(self).zone_name,
            final(self).zone_id == old(self).zone_id,
            final(self).outcome == old(self).outcome,
            final(self).phases == old(self).phases,
            final(self).players == old(self).players,
            final(self).total_damage == old(self).total_damage,
            final(self).total_damage_taken == old(self).total_damage_taken,
            final(self).total_healing == old(self).total_healing,
    {
        self.end_us = Some(now_us);
    }

    /// Putting a changed meter back changes its model in the same way.
    proof fn lemma_meters_set(s0: Seq<(u64, PlayerMeter)>, id: EntityId, m: PlayerMeter, name: Seq<char>, f: spec_fn(MeterModel) -> MeterModel)
        requires
            unique_keys(s0),
            m.model() == f(match Encounter::meter_of(s0, id) { Some(o) => o.model(), None => fresh_meter(id, name) }),
        ensures
            meters_model(Encounter::meters_with(s0, id, m)) == meter_set(meters_model(s0), id, name, f),
    {
        let s2 = Encounter::meters_with(s0, id, m);
        if has_key(s0, id.0) {
            let p = key_pos(s0, id.0);
            assert(s0[p].0 == id.0);
            assert(has_model_key(meters_model(s0), id.0)) by {
                assert(meters_model(s0)[p].0 == id.0);
            }
            assert forall|i: int| 0 <= i < s2.len() implies meters_model(s2)[i] == meter_set(meters_model(s0), id, name, f)[i] by {
                if i != p {
                    assert(s0[i].0 != id.0) by {
                        if s0[i].0 == id.0 {
                            assert(s0[p].0 == id.0);
                        }
                    }
                }
            }
            assert(meters_model(s2) =~= meter_set(meters_model(s0), id, name, f));
        } else {
            assert(!has_model_key(meters_model(s0), id.0)) by {
                if has_model_key(meters_model(s0), id.0) {
                    let q = choose|q: int| 0 <= q < meters_model(s0).len() && #[trigger] meters_model(s0)[q].0 == id.0;
                    assert(s0[q].0 == id.0);
                }
            }
            assert(meters_model(s2) =~= meter_set(meters_model(s0), id, name, f));
        }
    }

    proof fn lemma_own_meter(s0: Seq<(u64, PlayerMeter)>, id: EntityId, m: PlayerMeter)
        requires
            unique_keys(s0),
        ensures
            Encounter::meter_of(Encounter::meters_with(s0, id, m), id) == Some(m),
    {
        let s2 = Encounter::meters_with(s0, id, m);
        let p = if has_key(s0, id.0) { key_pos(s0, id.0) } else { s0.len() as int };
        assert(s2[p].0 == id.0);
        let j = key_pos(s2, id.0);
        assert(s2[j].0 == id.0);
        if j != p {
            if j < s0.len() {
                assert(s0[j].0 == id.0);
                if has_key(s0, id.0) {
                    assert(s0[p].0 == id.0);
                }
            }
        }
    }

}

/// What an encounter holds, with texts and lists as sequences.
pub ghost struct EncounterModel {
    pub id: u128,
    pub start_us: u64,
    pub end_us: Option<u64>,
    pub zone_name: Seq<char>,
    pub zone_id: u32,
    pub outcome: EncounterOutcome,
    pub phases: Seq<(Seq<char>, u64)>,
    pub meters: Seq<(u64, MeterModel)>,
    pub total_damage: u64,
    pub total_damage_taken: u64,
    pub total_healing: u64,
}

/// Some meter is keyed `id`.
pub open spec fn has_model_key(s: Seq<(u64, MeterModel)>, id: u64) -> bool {
    exists|q: int| 0 <= q < s.len() && #[trigger] s[q].0 == id
}

/// A new meter for `id` named `name`: nothing counted yet.
pub open spec fn fresh_meter(id: EntityId, name: Seq<char>) -> MeterModel {
    MeterModel {
        entity_id: id,
        name,
        is_player: false,
        damage_stats: CombatStats::zero(),
        taken_stats: CombatStats::zero(),
        heal_stats: CombatStats::zero(),
        overheal: 0,
        shield_gain: 0,
        deaths: 0,
        skills: Seq::empty(),
        hits: Seq::empty(),
    }
}

/// The meters after one more death of `id`; a new meter named `name` when
/// `id` had none.
pub open spec fn death_added(s: Seq<(u64, MeterModel)>, id: EntityId, name: Seq<char>) -> Seq<(u64, MeterModel)> {
    if has_model_key(s, id.0) {
        s.map_values(|e: (u64, MeterModel)| if e.0 == id.0 { (e.0, MeterModel { deaths: (e.1.deaths + 1) as u32, ..e.1 }) } else { e })
    } else {
        s.push((id.0, MeterModel { deaths: 1, ..fresh_meter(id, name) }))
    }
}

/// The meters after `id` gained `gain` of shields; a new meter named
/// `name` when `id` had none.
pub open spec fn shield_added(s: Seq<(u64, MeterModel)>, id: EntityId, gain: u64, name: Seq<char>) -> Seq<(u64, MeterModel)> {
    if has_model_key(s, id.0) {
        s.map_values(|e: (u64, MeterModel)| if e.0 == id.0 { (e.0, MeterModel { shield_gain: (e.1.shield_gain + gain) as u64, ..e.1 }) } else { e })
    } else {
        s.push((id.0, MeterModel { shield_gain: gain, ..fresh_meter(id, name) }))
    }
}

/// The meters with the one under `id`, where there is one, named `name`.
pub open spec fn renamed(s: Seq<(u64, MeterModel)>, id: u64, name: Seq<char>) -> Seq<(u64, MeterModel)> {
    s.map_values(|e: (u64, MeterModel)| if e.0 == id { (e.0, MeterModel { name, ..e.1 }) } else { e })
}

pub open spec fn phases_model(p: Seq<PhaseMarker>) -> Seq<(Seq<char>, u64)> {
    p.map_values(|m: PhaseMarker| (m.name@, m.start_offset_us))
}

/// A meter after a hit its entity dealt `t` microseconds into the encounter:
/// damage counted, in the skill's breakdown too, and logged.
pub open spec fn meter_hit(m: MeterModel, c: CombatEvent, t: u64) -> MeterModel {
    MeterModel {
        damage_stats: m.damage_stats.applied(c.damage, c.is_crit, c.is_lucky),
        skills: skills_after_hit(m.skills, c.skill_id, c.damage, c.is_crit, c.is_lucky),
        hits: m.hits.push(HitRecord { time_us: t, skill_id: c.skill_id, amount: c.damage, is_crit: c.is_crit, is_lucky: c.is_lucky, kind: HitKind::Damage }),
        ..m
    }
}

/// A meter after a hit its entity took.
pub open spec fn meter_took(m: MeterModel, c: CombatEvent, t: u64) -> MeterModel {
    MeterModel {
        taken_stats: m.taken_stats.applied(c.damage, c.is_crit, c.is_lucky),
        hits: m.hits.push(HitRecord { time_us: t, skill_id: c.skill_id, amount: c.damage, is_crit: c.is_crit, is_lucky: c.is_lucky, kind: HitKind::Taken }),
        ..m
    }
}

/// A meter after a heal its entity cast, with `overheal` of it wasted.
pub open spec fn meter_healed(m: MeterModel, c: CombatEvent, overheal: u64, t: u64) -> MeterModel {
    MeterModel {
        heal_stats: m.heal_stats.applied(c.damage, c.is_crit, c.is_lucky),
        overheal: (m.overheal + overheal) as u64,
        hits: m.hits.push(HitRecord { time_us: t, skill_id: c.skill_id, amount: c.damage, is_crit: c.is_crit, is_lucky: c.is_lucky, kind: HitKind::Heal }),
        ..m
    }
}

pub open spec fn hit_by(c: CombatEvent, t: u64) -> spec_fn(MeterModel) -> MeterModel {
    |m: MeterModel| meter_hit(m, c, t)
}

pub open spec fn taken_by(c: CombatEvent, t: u64) -> spec_fn(MeterModel) -> MeterModel {
    |m: MeterModel| meter_took(m, c, t)
}

pub open spec fn healed_by(c: CombatEvent, overheal: u64, t: u64) -> spec_fn(MeterModel) -> MeterModel {
    |m: MeterModel| meter_healed(m, c, overheal, t)
}

/// The meters with the one of `id` changed by `f`: in its place, or, for an
/// entity without one, a new meter named `name` changed by `f` and put last.
pub open spec fn meter_set(s: Seq<(u64, MeterModel)>, id: EntityId, name: Seq<char>, f: spec_fn(MeterModel) -> MeterModel) -> Seq<(u64, MeterModel)> {
    if has_model_key(s, id.0) {
        s.map_values(|e: (u64, MeterModel)| if e.0 == id.0 { (e.0, f(e.1)) } else { e })
    } else {
        s.push((id.0, f(fresh_meter(id, name))))
    }
}

/// Microseconds from an encounter's start to `at` (0 for earlier times).
pub open spec fn model_offset(e: EncounterModel, at: u64) -> u64 {
    if at >= e.start_us { (at - e.start_us) as u64 } else { 0 }
}

/// A new encounter's contents: empty, in `zone_name`, starting at `now_us`.
pub open spec fn new_encounter_model(id: u128, zone_name: Seq<char>, zone_id: u32, now_us: u64) -> EncounterModel {
    EncounterModel {
        id,
        start_us: now_us,
        end_us: None,
        zone_name,
        zone_id,
        outcome: EncounterOutcome::Unknown,
        phases: Seq::empty(),
        meters: Seq::empty(),
        total_damage: 0,
        total_damage_taken: 0,
        total_healing: 0,
    }
}

/// An encounter after a hit: the attacker's meter (new ones named `name`)
/// counts it, and so does the damage total.
pub open spec fn hit_model(a: EncounterModel, c: CombatEvent, name: Seq<char>) -> EncounterModel {
    EncounterModel {
        meters: meter_set(a.meters, c.source_id, name, hit_by(c, model_offset(a, c.timestamp_us))),
        total_damage: (a.total_damage + c.damage) as u64,
        ..a
    }
}

/// An encounter after a hit taken: where the target has a meter, it and
/// the taken total count the hit; otherwise nothing changes.
pub open spec fn taken_model(a: EncounterModel, c: CombatEvent) -> EncounterModel {
    if has_model_key(a.meters, c.target_id.0) {
        EncounterModel {
            meters: meter_set(a.meters, c.target_id, Seq::empty(), taken_by(c, model_offset(a, c.timestamp_us))),
            total_damage_taken: (a.total_damage_taken + c.damage) as u64,
            ..a
        }
    } else {
        a
    }
}

/// An encounter after a heal: the healer's meter (new ones named `name`)
/// counts it with its overheal, and so does the healing total.
pub open spec fn heal_model(a: EncounterModel, c: CombatEvent, overheal: u64, name: Seq<char>) -> EncounterModel {
    EncounterModel {
        meters: meter_set(a.meters, c.source_id, name, healed_by(c, overheal, model_offset(a, c.timestamp_us))),
        total_healing: (a.total_healing + c.damage) as u64,
        ..a
    }
}

/// An entity has a meter exactly when the model has one under its id.
pub proof fn lemma_model_key(s: Seq<(u64, PlayerMeter)>, id: u64)
    ensures
        has_key(s, id) == has_model_key(meters_model(s), id),
{
    if has_key(s, id) {
        let q = choose|q: int| 0 <= q < s.len() && #[trigger] s[q].0 == id;
        assert(meters_model(s)[q].0 == id);
    }
    if has_model_key(meters_model(s), id) {
        let q = choose|q: int| 0 <= q < meters_model(s).len() && #[trigger] meters_model(s)[q].0 == id;
        assert(s[q].0 == id);
    }
}

pub open spec fn meters_model(s: Seq<(u64, PlayerMeter)>) -> Seq<(u64, MeterModel)> {
    s.map_values(|e: (u64, PlayerMeter)| (e.0, e.1.model()))
}

impl Encounter {
    pub open spec fn model(&self) -> EncounterModel {
        EncounterModel {
            id: self.id,
            start_us: self.start_us,
            end_us: self.end_us,
            zone_name: self.zone_name@,
            zone_id: self.zone_id,
            outcome: self.outcome,
            phases: phases_model(self.phases@),
            meters: meters_model(self.meters()),
            total_damage: self.total_damage,
            total_damage_taken: self.total_damage_taken,
            total_healing: self.total_healing,
        }
    }

    /// A copy of the encounter.
    pub fn duplicate(&self) -> (r: Encounter)
        requires
            self.wf(),
        ensures
            r.wf(),
            r.model() == self.model(),
    {
        let mut phases: Vec<PhaseMarker> = Vec::new();
        let mut i: usize = 0;
        while i < self.phases.len()
            invariant
                i <= self.phases@.len(),
                phases_model(phases@) == phases_model(self.phases@.take(i as int)),
            decreases self.phases@.len() - i,
        {
            let p = &self.phases[i];
            let nm = p.name.clone();
            let ghost prev = phases@;
            phases.push(PhaseMarker { name: nm, start_offset_us: p.start_offset_us });
            assert(self.phases@.take(i + 1) =~= self.phases@.take(i as int).push(self.phases@[i as int]));
            assert(phases@ =~= prev.push(PhaseMarker { name: nm, start_offset_us: p.start_offset_us }));
            assert(phases_model(phases@) =~= phases_model(prev).push((nm@, p.start_offset_us)));
            assert(phases_model(self.phases@.take(i + 1)) =~= phases_model(self.phases@.take(i as int)).push((p.name@, p.start_offset_us)));
            assert(phases_model(phases@) =~= phases_model(self.phases@.take(i + 1)));
            i = i + 1;
        }
        assert(self.phases@.take(self.phases@.len() as int) =~= self.phases@);

        let ghost src = self.meters();
        let mut players = player_map_new();
        let n = player_map_len(&self.players);
        let mut j: usize = 0;
        while j < n
            invariant
                n == src.len(),
                src == self.meters(),
                self.wf(),
                j <= n,
                player_entries(players).len() == j,
                forall|a: int| 0 <= a < j ==> (#[trigger] player_entries(players)[a]).0 == src[a].0
                    && player_entries(players)[a].1.model() == src[a].1.model()
                    && player_entries(players)[a].1.wf(),
                unique_keys(player_entries(players)),
            decreases n - j,
        {
            let m = player_map_value_at(&self.players, j);
            let k = m.entity_id.0;
            assert(src[j as int].1.wf());
            let d = m.duplicate();
            let ghost before = player_entries(players);
            assert(!has_key(before, k)) by {
                if has_key(before, k) {
                    let a = key_pos(before, k);
                    assert(before[a].0 == src[a].0);
                    assert(src[a].0 != src[j as int].0);
                }
            }
            let _ = player_map_insert(&mut players, k, d);
            proof {
                let after = player_entries(players);
                assert(after == before.push((k, d)));
                assert forall|a: int, b: int| 0 <= a < b < after.len() implies #[trigger] after[a].0 != #[trigger] after[b].0 by {
                    if b == before.len() {
                        assert(after[a].0 == src[a].0);
                        assert(src[a].0 != src[j as int].0);
                    } else {
                        assert(after[a] == before[a] && after[b] == before[b]);
                    }
                }
                assert forall|a: int| 0 <= a < j + 1 implies (#[trigger] after[a]).0 == src[a].0
                    && after[a].1.model() == src[a].1.model() && after[a].1.wf() by {
                    if a < j {
                        assert(after[a] == before[a]);
                    }
                }
            }
            j = j + 1;
        }
        let r = Encounter {
            id: self.id,
            start_us: self.start_us,
            end_us: self.end_us,
            zone_name: self.zone_name.clone(),
            zone_id: self.zone_id,
            outcome: self.outcome,
            phases,
            players,
            total_damage: self.total_damage,
            total_damage_taken: self.total_damage_taken,
            total_healing: self.total_healing,
        };
        proof {
            let rs = r.meters();
            assert(meters_model(rs) =~= meters_model(src));
            Encounter::lemma_sums_model(rs, src);
            assert forall|a: int| 0 <= a < rs.len() implies {
                &&& (#[trigger] rs[a]).1.wf()
                &&& rs[a].1.entity_id.0 == rs[a].0
            } by {
                assert(src[a].1.wf());
            }
        }
        r
    }

    proof fn lemma_sums_model(a: Seq<(u64, PlayerMeter)>, b: Seq<(u64, PlayerMeter)>)
        requires
            a.len() == b.len(),
            forall|i: int| 0 <= i < a.len() ==> (#[trigger] a[i]).1.model() == b[i].1.model(),
        ensures
            sum_damage(a) == sum_damage(b),
            sum_taken(a) == sum_taken(b),
            sum_healing(a) == sum_healing(b),
        decreases a.len(),
    {
        if a.len() > 0 {
            assert(a.last().1.model() == b.last().1.model());
            Encounter::lemma_sums_model(a.drop_last(), b.drop_last());
        }
    }
}

/// The damage dealt by each meter, in order of first appearance.
pub open spec fn damage_keys(meters: Seq<(u64, PlayerMeter)>) -> Seq<u64> {
    meters.map_values(|e: (u64, PlayerMeter)| e.1.damage_stats.total)
}

/// `ord` lists the positions of the meters, most damage first and, among
/// equal damage, in order of first appearance.
pub open spec fn damage_order(meters: Seq<(u64, PlayerMeter)>, ord: Seq<usize>) -> bool {
    &&& ord.len() == meters.len()
    &&& forall|k: int| 0 <= k < ord.len() ==> #[trigger] ord[k] < meters.len()
    &&& forall|a: int, b: int| 0 <= a < b < ord.len() ==> listed_before(damage_keys(meters), #[trigger] ord[a] as int, #[trigger] ord[b] as int)
}

impl Encounter {
    /// The meters, most damage first; meters with equal damage keep their
    /// order of first appearance.
    pub fn players_by_damage(&self) -> (r: Vec<&PlayerMeter>)
        ensures
            exists|ord: Seq<usize>| #[trigger] damage_order(self.meters(), ord)
                && forall|k: int| 0 <= k < r@.len() ==> *r@[k] == self.meters()[ord[k] as int].1,
            r@.len() == self.meters().len(),
    {
        let n = self.meter_count();
        let ghost ms = self.meters();
        let mut keys: Vec<u64> = Vec::new();
        let mut i: usize = 0;
        while i < n
            invariant
                n == ms.len(),
                ms == self.meters(),
                i <= n,
                keys@ == damage_keys(ms).take(i as int),
            decreases n - i,
        {
            let m = self.meter_at(i);
            keys.push(m.total_damage());
            assert(keys@ =~= damage_keys(ms).take(i + 1));
            i = i + 1;
        }
        assert(keys@ =~= damage_keys(ms));
        let ord = newest_first_order(&keys);
        let mut r: Vec<&PlayerMeter> = Vec::new();
        let mut k: usize = 0;
        while k < n
            invariant
                n == ms.len(),
                ms == self.meters(),
                ord@.len() == n,
                forall|q: int| 0 <= q < ord@.len() ==> #[trigger] ord@[q] < n,
                k <= n,
                r@.len() == k,
                forall|j: int| 0 <= j < k ==> *r@[j] == ms[ord@[j] as int].1,
            decreases n - k,
        {
            let m = self.meter_at(ord[k]);
            r.push(m);
            k = k + 1;
        }
        assert(damage_order(ms, ord@));
        r
    }
}

/// What a ranking sorts by: damage taken (mode 1), healing (mode 2) or
/// damage dealt (any other mode).
pub open spec fn rank_value(m: PlayerMeter, mode: u8) -> u64 {
    if mode == 1 { m.taken_stats.total } else if mode == 2 { m.heal_stats.total } else { m.damage_stats.total }
}

/// Whether a meter is listed: every meter, or with `players_only` those of
/// known players.
pub open spec fn listed(m: PlayerMeter, is_player: Map<u64, bool>, players_only: bool) -> bool {
    !players_only || (is_player.contains_key(m.entity_id.0) && is_player[m.entity_id.0])
}

/// The positions among the first `k` meters that are listed, in order.
pub open spec fn listed_positions(ps: Seq<PlayerMeter>, is_player: Map<u64, bool>, players_only: bool, k: int) -> Seq<usize>
    decreases k,
{
    if k <= 0 {
        Seq::empty()
    } else {
        let prev = listed_positions(ps, is_player, players_only, k - 1);
        if listed(ps[k - 1], is_player, players_only) { prev.push((k - 1) as usize) } else { prev }
    }
}

/// `ord` orders the listed meters by their ranking value, highest first,
/// equal values keeping their order.
pub open spec fn rank_order(ps: Seq<PlayerMeter>, pos: Seq<usize>, ord: Seq<usize>, mode: u8) -> bool {
    let keys = pos.map_values(|i: usize| rank_value(ps[i as int], mode));
    &&& ord.len() == pos.len()
    &&& forall|k: int| 0 <= k < ord.len() ==> #[trigger] ord[k] < pos.len()
    &&& forall|a: int, b: int| 0 <= a < b < ord.len() ==> listed_before(keys, #[trigger] ord[a] as int, #[trigger] ord[b] as int)
}

/// The meters behind a list of references.
pub open spec fn meters_of(players: Seq<&PlayerMeter>) -> Seq<PlayerMeter> {
    players.map_values(|m: &PlayerMeter| *m)
}

/// `out` lists the positions of the listed meters in the order `ord` gives.
pub open spec fn ranked(ps: Seq<PlayerMeter>, is_player: Map<u64, bool>, players_only: bool, mode: u8, ord: Seq<usize>, out: Seq<usize>) -> bool {
    let pos = listed_positions(ps, is_player, players_only, ps.len() as int);
    &&& rank_order(ps, pos, ord, mode)
    &&& out.len() == ord.len()
    &&& forall|k: int| 0 <= k < ord.len() ==> out[k] == pos[#[trigger] ord[k] as int]
}

/// The party ranking: the positions of the listed meters, highest value
/// first (equal values in their given order), and the value the bars are
/// scaled to, the top value but at least 1.
pub fn rank_meters(players: &Vec<&PlayerMeter>, is_player: &std::collections::HashMap<u64, bool>, players_only: bool, mode: u8) -> (r: (Vec<usize>, u64))
    ensures
        exists|ord: Seq<usize>| #[trigger] ranked(meters_of(players@), is_player@, players_only, mode, ord, r.0@),
        r.1 == if r.0@.len() > 0 && rank_value(*players@[r.0@[0] as int], mode) > 1 { rank_value(*players@[r.0@[0] as int], mode) } else { 1 },
{
    let ghost ps = meters_of(players@);
    let n = players.len();
    let mut pos: Vec<usize> = Vec::new();
    let mut keys: Vec<u64> = Vec::new();
    let mut i: usize = 0;
    while i < n
        invariant
            n == players@.len(),
            ps == meters_of(players@),
            i <= n,
            pos@ == listed_positions(ps, is_player@, players_only, i as int),
            keys@ == pos@.map_values(|q: usize| rank_value(ps[q as int], mode)),
            forall|k: int| 0 <= k < pos@.len() ==> #[trigger] pos@[k] < i,
        decreases n - i,
    {
        let m = players[i];
        let show = if players_only {
            match is_player.get(&m.entity_id.0) { Some(p) => *p, None => false }
        } else {
            true
        };
        if show {
            let v = if mode == 1 { m.damage_taken() } else if mode == 2 { m.total_healing() } else { m.total_damage() };
            let ghost kv = keys@;
            let ghost pv = pos@;
            pos.push(i);
            keys.push(v);
            assert(keys@ =~= pos@.map_values(|q: usize| rank_value(ps[q as int], mode)));
        }
        i = i + 1;
    }
    let ord = newest_first_order(&keys);
    let mut out: Vec<usize> = Vec::new();
    let mut k: usize = 0;
    while k < ord.len()
        invariant
            ord@.len() == pos@.len(),
            forall|q: int| 0 <= q < ord@.len() ==> #[trigger] ord@[q] < pos@.len(),
            k <= ord@.len(),
            out@.len() == k,
            forall|j: int| 0 <= j < k ==> out@[j] == pos@[ord@[j] as int],
        decreases ord@.len() - k,
    {
        out.push(pos[ord[k]]);
        k = k + 1;
    }
    assert(rank_order(ps, pos@, ord@, mode));
    let top: u64 = if out.len() > 0 {
        let m = players[out[0]];
        let v = if mode == 1 { m.damage_taken() } else if mode == 2 { m.total_healing() } else { m.total_damage() };
        if v > 1 { v } else { 1 }
    } else {
        1
    };
    let ghost o = ord@;
    let r = (out, top);
    assert(ranked(meters_of(players@), is_player@, players_only, mode, o, r.0@));
    r
}

} // verus!
