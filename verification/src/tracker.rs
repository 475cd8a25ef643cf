//! The DPS meter's event handling around the encounter tracker: who the
//! entities are, their stats and deaths, shields, gear and loadouts,
//! dungeon phases, and what is saved or reported when an encounter ends.

use vstd::prelude::*;
use std::collections::{HashMap, HashSet};
use crate::dps_state::{finish_spec, models, rename_spec, DpsModel, DpsState};
use crate::encounter::{death_added, has_model_key, heal_model, hit_model, lemma_model_key, new_encounter_model, shield_added, taken_model, Encounter, EncounterModel, EncounterOutcome};
use crate::meter::{has_key, key_pos, CombatStats};
use crate::event::{
    CharStats, CombatEvent, DungeonTargetProgress, EntityId, EquipSlot, EventView, GameEvent,
    ShieldEntry, SkillLoadoutEntry, ACTOR_STATE_DEAD,
};
use crate::meter::MeterModel;
use crate::text::{digits, parse_uid_hex, push_digits, uid_of_text};
use crate::seqs::{lemma_filter_empty, lemma_filter_push};

verus! {

broadcast use vstd::std_specs::hash::group_hash_axioms;

/// What the meter knows about entities and the dungeon, besides the
/// encounters themselves.
pub ghost struct Books {
    pub names: Map<u64, Seq<char>>,
    pub classes: Map<u64, u32>,
    pub monster_types: Map<u64, i32>,
    pub is_player: Map<u64, bool>,
    pub stats: Map<u64, CharStats>,
    pub dead: Set<u64>,
    pub shields_seen: Map<u64, Set<i64>>,
    pub gear: Map<u64, Seq<EquipSlot>>,
    pub loadout: Map<u64, Seq<SkillLoadoutEntry>>,
    pub progress: Map<i32, (i32, i32)>,
    pub phase_target: Option<i32>,
    pub last_phase_id: Option<i32>,
    pub zone: Seq<char>,
    pub zone_id: Option<u32>,
}

/// The label of an entity in an encounter: its known name, else `Entity `
/// and its id in lowercase hexadecimal.
pub open spec fn label_text(names: Map<u64, Seq<char>>, id: EntityId) -> Seq<char> {
    if names.contains_key(id.0) {
        names[id.0]
    } else {
        seq!['E', 'n', 't', 'i', 't', 'y', ' '] + digits(id.0 as nat, 16)
    }
}

/// Whether `id` is known to be a player.
pub open spec fn player_flag(is_player: Map<u64, bool>, id: u64) -> bool {
    is_player.contains_key(id) && is_player[id]
}

/// The stats of `id` after merging in `s`.
pub open spec fn stats_after(b: Books, id: u64, s: CharStats) -> CharStats {
    CharStats::merged(if b.stats.contains_key(id) { b.stats[id] } else { CharStats::none() }, s)
}

/// The actor state known for `id` before an update.
pub open spec fn prev_actor_state(b: Books, id: u64) -> Option<i32> {
    if b.stats.contains_key(id) { b.stats[id].actor_state } else { None }
}

/// The update turns `id` dead.
pub open spec fn dies(b: Books, id: u64, s: CharStats) -> bool {
    &&& stats_after(b, id, s).actor_state == Some(ACTOR_STATE_DEAD)
    &&& prev_actor_state(b, id) != Some(ACTOR_STATE_DEAD)
}

/// The update brings `id` back from the dead.
pub open spec fn revives(b: Books, id: u64, s: CharStats) -> bool {
    &&& stats_after(b, id, s).actor_state is Some
    &&& stats_after(b, id, s).actor_state != Some(ACTOR_STATE_DEAD)
    &&& prev_actor_state(b, id) == Some(ACTOR_STATE_DEAD)
}

/// The shield uuids already counted for `id`.
pub open spec fn seen_of(b: Books, id: u64) -> Set<i64> {
    if b.shields_seen.contains_key(id) { b.shields_seen[id] } else { Set::empty() }
}

/// Walks a shield list: each uuid not seen before adds its initial value
/// (negative values count as 0). Returns the uuids seen and the gain.
pub open spec fn shield_scan(seen: Set<i64>, s: Seq<ShieldEntry>) -> (Set<i64>, int)
    decreases s.len(),
{
    if s.len() == 0 {
        (seen, 0)
    } else {
        let (seen1, g) = shield_scan(seen, s.drop_last());
        let x = s.last();
        if seen1.contains(x.uuid) {
            (seen1, g)
        } else {
            (seen1.insert(x.uuid), g + if x.initial_value > 0 { x.initial_value as int } else { 0 })
        }
    }
}

/// One objective update: a fresh objective (nothing done yet) other than
/// the current one starts a new phase; the first objective seen becomes
/// the current one. Returns the current objective and whether a phase starts.
pub open spec fn phase_step(cur: Option<i32>, t: DungeonTargetProgress) -> (Option<i32>, bool) {
    if t.complete == 0 && t.nums == 0 && cur is Some && cur != Some(t.target_id) {
        (Some(t.target_id), true)
    } else if cur is None {
        (Some(t.target_id), false)
    } else {
        (cur, false)
    }
}

/// The current objective after a list of updates, and how many phases start.
pub open spec fn phase_scan(cur: Option<i32>, ts: Seq<DungeonTargetProgress>) -> (Option<i32>, nat)
    decreases ts.len(),
{
    if ts.len() == 0 {
        (cur, 0)
    } else {
        let (c, k) = phase_scan(cur, ts.drop_last());
        let (c2, p) = phase_step(c, ts.last());
        (c2, if p { k + 1 } else { k })
    }
}

/// The objective progress after a list of updates.
pub open spec fn progress_scan(m: Map<i32, (i32, i32)>, ts: Seq<DungeonTargetProgress>) -> Map<i32, (i32, i32)>
    decreases ts.len(),
{
    if ts.len() == 0 {
        m
    } else {
        progress_scan(m, ts.drop_last()).insert(ts.last().target_id, (ts.last().nums, ts.last().complete))
    }
}

/// What one event does to the meter's knowledge.
pub open spec fn books_after(b: Books, ev: EventView) -> Books {
    match ev {
        EventView::EntityName { id, name, class, monster_type, is_player } => Books {
            names: if name.len() > 0 { b.names.insert(id.0, name) } else { b.names },
            classes: match class { Some(c) => b.classes.insert(id.0, c), None => b.classes },
            monster_types: match monster_type { Some(t) => b.monster_types.insert(id.0, t), None => b.monster_types },
            is_player: b.is_player.insert(id.0, is_player),
            ..b
        },
        EventView::EntityDespawn { id } => Books {
            names: b.names.remove(id.0),
            classes: b.classes.remove(id.0),
            is_player: b.is_player.remove(id.0),
            stats: b.stats.remove(id.0),
            dead: b.dead.remove(id.0),
            shields_seen: b.shields_seen.remove(id.0),
            ..b
        },
        EventView::EntityStats { id, stats } => Books {
            stats: b.stats.insert(id.0, stats_after(b, id.0, stats)),
            dead: if dies(b, id.0, stats) {
                b.dead.insert(id.0)
            } else if revives(b, id.0, stats) {
                b.dead.remove(id.0)
            } else {
                b.dead
            },
            ..b
        },
        EventView::ShieldList { id, shields } => Books {
            shields_seen: b.shields_seen.insert(id.0, shield_scan(seen_of(b, id.0), shields).0),
            ..b
        },
        EventView::EquipData { id, slots } => Books { gear: b.gear.insert(id.0, slots), ..b },
        EventView::SkillLoadout { id, skills } => Books { loadout: b.loadout.insert(id.0, skills), ..b },
        EventView::ZoneChange { zone_id, zone_name } => {
            let changed = b.zone_id != Some(zone_id);
            Books {
                zone_id: Some(zone_id),
                zone: if zone_name.len() > 0 { zone_name } else { b.zone },
                progress: if changed { Map::empty() } else { b.progress },
                phase_target: if changed { None } else { b.phase_target },
                last_phase_id: if changed { None } else { b.last_phase_id },
                gear: if changed { Map::empty() } else { b.gear },
                loadout: if changed { Map::empty() } else { b.loadout },
                monster_types: if changed { Map::empty() } else { b.monster_types },
                ..b
            }
        },
        EventView::DungeonPhaseSignal { targets, phase_id } => Books {
            last_phase_id: if phase_id is Some { phase_id } else { b.last_phase_id },
            phase_target: phase_scan(b.phase_target, targets).0,
            progress: progress_scan(b.progress, targets),
            ..b
        },
        _ => b,
    }
}

/// Every known player among the encounter's entities is dead, and there is
/// at least one.
pub open spec fn party_wiped(meters: Seq<(u64, MeterModel)>, is_player: Map<u64, bool>, dead: Set<u64>) -> bool {
    &&& exists|i: int| 0 <= i < meters.len() && #[trigger] player_flag(is_player, meters[i].0)
    &&& forall|i: int| 0 <= i < meters.len() && #[trigger] player_flag(is_player, meters[i].0) ==> dead.contains(meters[i].0)
}

/// The overheal of a heal of `amount` on a target with stats `stats`: what
/// exceeds the missing health, where current and maximum health are known
/// and sane.
pub open spec fn overheal_for(stats: Option<CharStats>, amount: u64) -> u64 {
    match stats {
        Some(s) => match (s.hp, s.max_hp) {
            (Some(hp), Some(max)) =>
                if max > 0 && hp >= 0 && hp <= max && hp + (amount as i64) > max {
                    if amount > (max - hp) { (amount - (max - hp)) as u64 } else { 0 }
                } else {
                    0
                },
            _ => 0,
        },
        None => 0,
    }
}

/// A heal counts as overheal only what goes beyond the target's missing
/// health, where its current and maximum health are known and sane: never
/// more than the heal, and less than the whole heal whenever health is
/// missing. Without known health nothing counts as overheal.
pub proof fn lemma_overheal_is_excess(stats: Option<CharStats>, amount: u64)
    ensures
        overheal_for(stats, amount) <= amount,
        stats matches Some(s) ==> (s.hp matches Some(hp) ==> (s.max_hp matches Some(max) ==>
            (max > 0 && 0 <= hp <= max && amount <= i64::MAX ==> {
                &&& overheal_for(stats, amount) as int
                    == (if amount as int > max - hp { amount as int - (max - hp) } else { 0 })
                &&& hp < max && amount > 0 ==> overheal_for(stats, amount) < amount
            }))),
        stats is None ==> overheal_for(stats, amount) == 0,
        stats matches Some(s) ==> (s.hp is None || s.max_hp is None ==> overheal_for(stats, amount) == 0),
{
}

/// The name of the `n`-th phase marker: `Phase ` and the number.
pub open spec fn phase_name(n: nat) -> Seq<char> {
    seq!['P', 'h', 'a', 's', 'e', ' '] + digits(n, 10)
}


/// `k` phase markers after `n` existing ones, all at `offset`.
pub open spec fn phase_markers(n: nat, k: nat, offset: u64) -> Seq<(Seq<char>, u64)> {
    Seq::new(k, |j: int| (phase_name(n + j as nat + 2), offset))
}

/// How far into an encounter `now_us` is (its end, once it has one).
pub open spec fn offset_at(a: EncounterModel, now_us: u64) -> u64 {
    let end = match a.end_us { Some(e) => e, None => now_us };
    if end >= a.start_us { (end - a.start_us) as u64 } else { 0 }
}

/// The active encounter with `k` new phases starting at `now_us`.
pub open spec fn phases_added(m: DpsModel, k: nat, now_us: u64) -> DpsModel {
    match m.active {
        Some(a) => DpsModel {
            active: Some(EncounterModel {
                phases: a.phases + phase_markers(a.phases.len(), k, offset_at(a, now_us)),
                ..a
            }),
            ..m
        },
        None => m,
    }
}


/// The tracker after `id` died: the active encounter counts the death and,
/// when that leaves every player in it dead, ends as failed.
pub open spec fn after_death(m: DpsModel, id: EntityId, name: Seq<char>, is_player: Map<u64, bool>, dead: Set<u64>, now_us: u64) -> DpsModel {
    match m.active {
        Some(a) => {
            let a1 = EncounterModel { meters: death_added(a.meters, id, name), ..a };
            if party_wiped(a1.meters, is_player, dead) {
                finish_spec(DpsModel { active: Some(EncounterModel { outcome: EncounterOutcome::Failed, ..a1 }), ..m }, now_us)
            } else {
                DpsModel { active: Some(a1), ..m }
            }
        },
        None => m,
    }
}

/// The tracker after `id` gained `gain` of new shields.
pub open spec fn after_shields(m: DpsModel, id: EntityId, gain: int, name: Seq<char>) -> DpsModel {
    match m.active {
        Some(a) => if gain > 0 {
            DpsModel { active: Some(EncounterModel { meters: shield_added(a.meters, id, gain as u64, name), ..a }), ..m }
        } else {
            m
        },
        None => m,
    }
}


/// The uuids seen after a scan are those seen before and those on the list.
proof fn lemma_shield_scan_covers(seen: Set<i64>, s: Seq<ShieldEntry>)
    ensures
        forall|u: i64| seen.contains(u) ==> #[trigger] shield_scan(seen, s).0.contains(u),
        forall|i: int| 0 <= i < s.len() ==> shield_scan(seen, s).0.contains(#[trigger] s[i].uuid),
    decreases s.len(),
{
    if s.len() > 0 {
        lemma_shield_scan_covers(seen, s.drop_last());
        assert forall|u: i64| seen.contains(u) implies #[trigger] shield_scan(seen, s).0.contains(u) by {
            assert(shield_scan(seen, s.drop_last()).0.contains(u));
        }
        assert forall|i: int| 0 <= i < s.len() implies shield_scan(seen, s).0.contains(#[trigger] s[i].uuid) by {
            if i < s.len() - 1 {
                assert(s.drop_last()[i] == s[i]);
            }
        }
    }
}

/// A list whose shields were all seen adds nothing.
proof fn lemma_shield_scan_all_seen(seen: Set<i64>, s: Seq<ShieldEntry>)
    requires
        forall|i: int| 0 <= i < s.len() ==> seen.contains(#[trigger] s[i].uuid),
    ensures
        shield_scan(seen, s) == (seen, 0int),
    decreases s.len(),
{
    if s.len() > 0 {
        assert forall|i: int| 0 <= i < s.drop_last().len() implies seen.contains(#[trigger] s.drop_last()[i].uuid) by {
            assert(s.drop_last()[i] == s[i]);
        }
        lemma_shield_scan_all_seen(seen, s.drop_last());
        assert(seen.contains(s[s.len() - 1].uuid));
    }
}

/// A shield list handled a second time adds no shield gain: its shields
/// were all counted the first time, so the encounters stay as they were.
pub proof fn lemma_repeated_shields_add_nothing(o: DpsTracker, f: DpsTracker, g: DpsTracker, id: EntityId,
    shields: Seq<ShieldEntry>, now_us: u64)
    requires
        f.books() == books_after(o.books(), EventView::ShieldList { id, shields }),
        event_effect(f, g, EventView::ShieldList { id, shields }, now_us),
    ensures
        g.state.model() == f.state.model(),
{
    let b = o.books();
    lemma_shield_scan_covers(seen_of(b, id.0), shields);
    let seen1 = shield_scan(seen_of(b, id.0), shields).0;
    assert(seen_of(f.books(), id.0) == seen1);
    lemma_shield_scan_all_seen(seen1, shields);
}

/// A shorter list finds no more new shields.
pub proof fn lemma_shield_scan_prefix(seen: Set<i64>, s: Seq<ShieldEntry>, i: int)
    requires
        0 <= i <= s.len(),
    ensures
        shield_scan(seen, s.take(i)).1 <= shield_scan(seen, s).1,
        0 <= shield_scan(seen, s.take(i)).1,
    decreases s.len(),
{
    if i == s.len() {
        assert(s.take(i) =~= s);
        lemma_shield_scan_nonneg(seen, s);
    } else {
        lemma_shield_scan_prefix(seen, s.drop_last(), i);
        assert(s.drop_last().take(i) =~= s.take(i));
    }
}

/// The gain of a shield list is never negative.
pub proof fn lemma_shield_scan_nonneg(seen: Set<i64>, s: Seq<ShieldEntry>)
    ensures
        0 <= shield_scan(seen, s).1,
    decreases s.len(),
{
    if s.len() > 0 {
        lemma_shield_scan_nonneg(seen, s.drop_last());
    }
}


/// The target a benchmark is locked on after a hit on `hit_target`, from
/// the target it had.
pub open spec fn locked_target(cfg_single: bool, cfg_auto: bool, uid_text: Seq<char>, before: Option<EntityId>, hit_target: EntityId) -> Option<EntityId> {
    if cfg_single && before is None {
        if cfg_auto {
            Some(hit_target)
        } else {
            match uid_of_text(uid_text) {
                Some(u) => if u != 0 { Some(EntityId(u)) } else { None },
                None => None,
            }
        }
    } else {
        before
    }
}

/// What a benchmark run measures.
pub struct BenchmarkConfig {
    pub duration_secs: u32,
    pub single_target: bool,
    pub auto_target: bool,
    /// Hexadecimal uid of the target; empty picks the first one hit.
    pub target_uid: String,
}

impl BenchmarkConfig {
    /// Sixty seconds against any target, picked automatically.
    pub fn default_config() -> (r: BenchmarkConfig)
        ensures
            r.duration_secs == 60,
            !r.single_target,
            r.auto_target,
            r.target_uid@.len() == 0,
    {
        BenchmarkConfig { duration_secs: 60, single_target: false, auto_target: true, target_uid: String::new() }
    }
}

/// The label of an entity: its known name, else `Entity ` and its id in hex.
pub fn entity_label(names: &HashMap<u64, String>, id: EntityId) -> (r: String)
    ensures
        r@ == label_text(names@.map_values(|s: String| s@), id),
{
    match names.get(&id.0) {
        Some(n) => n.clone(),
        None => {
            let mut s = String::new();
            s.append("Entity ");
            proof { reveal_strlit("Entity "); }
            push_digits(&mut s, id.0, 16);
            s
        },
    }
}

/// The overheal of a heal, from the target's cached stats.
pub fn overheal_of(stats: Option<&CharStats>, amount: u64) -> (r: u64)
    ensures
        r == overheal_for(match stats { Some(s) => Some(*s), None => None }, amount),
{
    match stats {
        Some(s) => match (s.hp, s.max_hp) {
            (Some(hp), Some(max)) => {
                let a = amount as i64;
                if max > 0 && hp >= 0 && hp <= max && (hp as i128) + (a as i128) > (max as i128) {
                    let effective = (max - hp) as u64;
                    if amount > effective { amount - effective } else { 0 }
                } else {
                    0
                }
            },
            _ => 0,
        },
        None => 0,
    }
}

/// One skill's damage over a benchmark, all entities together.
#[derive(Clone, Copy, PartialEq, Eq, Debug, Structural)]
pub struct BenchSkill {
    pub skill_id: u32,
    pub total: u64,
    pub hits: u64,
    pub crit_hits: u64,
    pub crit_lucky_hits: u64,
    pub max_hit: u64,
}

/// A benchmark's measurement, taken when it ends.
pub struct BenchSummary {
    /// At least one second.
    pub duration_us: u64,
    pub total_damage: u64,
    pub hit_count: u128,
    pub crit_count: u128,
    /// Most damaging first.
    pub skills: Vec<BenchSkill>,
}

/// The hits dealt by all meters.
pub open spec fn hits_sum(s: Seq<(u64, MeterModel)>) -> int
    decreases s.len(),
{
    if s.len() == 0 { 0 } else { hits_sum(s.drop_last()) + s.last().1.damage_stats.hits }
}

/// The critical hits (lucky or not) dealt by all meters.
pub open spec fn crits_sum(s: Seq<(u64, MeterModel)>) -> int
    decreases s.len(),
{
    if s.len() == 0 {
        0
    } else {
        crits_sum(s.drop_last()) + s.last().1.damage_stats.crit_hits + s.last().1.damage_stats.crit_lucky_hits
    }
}

/// A benchmark's length: from its start (or the encounter's) to `now_us`,
/// at least one second.
pub open spec fn bench_duration(start: Option<u64>, e: EncounterModel, now_us: u64) -> u64 {
    let d = match start {
        Some(s) => if now_us >= s { (now_us - s) as u64 } else { 0 },
        None => offset_at(e, now_us),
    };
    if d < 1_000_000 { 1_000_000 } else { d }
}

/// Skills listed once each, most damaging first.
pub open spec fn bench_skills_ok(s: Seq<BenchSkill>) -> bool {
    &&& forall|i: int, j: int| 0 <= i < j < s.len() ==> #[trigger] s[i].skill_id != #[trigger] s[j].skill_id
    &&& forall|i: int, j: int| 0 <= i < j < s.len() ==> #[trigger] s[i].total >= #[trigger] s[j].total
}

/// A sum held at the largest `u64` once it would pass it.
pub open spec fn capped(x: int) -> int {
    if x > u64::MAX { u64::MAX as int } else { x }
}

/// Every skill entry of the meters, meter after meter, each meter's in
/// order of first use.
pub open spec fn flat_skills(ms: Seq<(u64, MeterModel)>) -> Seq<crate::meter::SkillStat>
    decreases ms.len(),
{
    if ms.len() == 0 {
        Seq::empty()
    } else {
        flat_skills(ms.drop_last()) + ms.last().1.skills.map_values(|e: (u32, crate::meter::SkillStat)| e.1)
    }
}

/// One skill's benchmark counters over skill entries, each sum capped at
/// the largest `u64`: damage, hits, critical hits, critical lucky hits,
/// the largest hit, and how many entries were merged.
pub open spec fn bench_tally(ss: Seq<crate::meter::SkillStat>, skill: u32) -> (int, int, int, int, int, int)
    decreases ss.len(),
{
    if ss.len() == 0 {
        (0, 0, 0, 0, 0, 0)
    } else {
        let t = bench_tally(ss.drop_last(), skill);
        let e = ss.last();
        if e.skill_id == skill {
            (capped(t.0 + e.stats.total), capped(t.1 + e.stats.hits), capped(t.2 + e.stats.crit_hits),
                capped(t.3 + e.stats.crit_lucky_hits), if e.stats.max_hit > t.4 { e.stats.max_hit as int } else { t.4 }, t.5 + 1)
        } else {
            t
        }
    }
}

/// A benchmark's skill list: each entry holds its skill's merged counters,
/// and every skill with an entry in some meter is listed.
pub open spec fn bench_tallied(b: Seq<BenchSkill>, ss: Seq<crate::meter::SkillStat>) -> bool {
    &&& forall|a: int| 0 <= a < b.len() ==> {
        let t = bench_tally(ss, (#[trigger] b[a]).skill_id);
        &&& b[a].total == t.0 && b[a].hits == t.1 && b[a].crit_hits == t.2
        &&& b[a].crit_lucky_hits == t.3 && b[a].max_hit == t.4
    }
    &&& forall|sk: u32| #[trigger] bench_tally(ss, sk).5 > 0 ==> exists|a: int| 0 <= a < b.len() && #[trigger] b[a].skill_id == sk
}

proof fn lemma_bench_tally_empty(ss: Seq<crate::meter::SkillStat>, skill: u32)
    ensures
        bench_tally(ss, skill).5 >= 0,
        bench_tally(ss, skill).5 == 0 ==> bench_tally(ss, skill) == (0int, 0int, 0int, 0int, 0int, 0int),
        0 <= bench_tally(ss, skill).0 <= u64::MAX,
        0 <= bench_tally(ss, skill).1 <= u64::MAX,
        0 <= bench_tally(ss, skill).2 <= u64::MAX,
        0 <= bench_tally(ss, skill).3 <= u64::MAX,
        0 <= bench_tally(ss, skill).4 <= u64::MAX,
    decreases ss.len(),
{
    if ss.len() > 0 {
        lemma_bench_tally_empty(ss.drop_last(), skill);
    }
}

/// Merging one more skill entry into its skill's benchmark entry, or into
/// a new last entry where the skill had none.
proof fn lemma_bench_merge(b0: Seq<BenchSkill>, b1: Seq<BenchSkill>, pos: int, ss: Seq<crate::meter::SkillStat>,
    e: crate::meter::SkillStat)
    requires
        bench_tallied(b0, ss),
        forall|x: int, y: int| 0 <= x < y < b0.len() ==> #[trigger] b0[x].skill_id != #[trigger] b0[y].skill_id,
        0 <= pos <= b0.len(),
        forall|q: int| 0 <= q < pos ==> b0[q].skill_id != e.skill_id,
        pos < b0.len() ==> b0[pos].skill_id == e.skill_id && b1 == b0.update(pos, BenchSkill {
            skill_id: e.skill_id,
            total: capped(b0[pos].total + e.stats.total) as u64,
            hits: capped(b0[pos].hits + e.stats.hits) as u64,
            crit_hits: capped(b0[pos].crit_hits + e.stats.crit_hits) as u64,
            crit_lucky_hits: capped(b0[pos].crit_lucky_hits + e.stats.crit_lucky_hits) as u64,
            max_hit: if e.stats.max_hit > b0[pos].max_hit { e.stats.max_hit } else { b0[pos].max_hit },
        }),
        pos == b0.len() ==> b1 == b0.push(BenchSkill {
            skill_id: e.skill_id,
            total: e.stats.total,
            hits: e.stats.hits,
            crit_hits: e.stats.crit_hits,
            crit_lucky_hits: e.stats.crit_lucky_hits,
            max_hit: e.stats.max_hit,
        }),
    ensures
        bench_tallied(b1, ss.push(e)),
        forall|x: int, y: int| 0 <= x < y < b1.len() ==> #[trigger] b1[x].skill_id != #[trigger] b1[y].skill_id,
{
    let s1 = ss.push(e);
    assert(s1.drop_last() =~= ss);
    assert(s1.last() == e);
    lemma_bench_tally_empty(ss, e.skill_id);
    assert forall|a: int| 0 <= a < b1.len() implies {
        let t = bench_tally(s1, (#[trigger] b1[a]).skill_id);
        &&& b1[a].total == t.0 && b1[a].hits == t.1 && b1[a].crit_hits == t.2
        &&& b1[a].crit_lucky_hits == t.3 && b1[a].max_hit == t.4
    } by {
        if a == pos {
            if pos == b0.len() {
                if bench_tally(ss, e.skill_id).5 > 0 {
                    let q = choose|q: int| 0 <= q < b0.len() && #[trigger] b0[q].skill_id == e.skill_id;
                    assert(false);
                }
            }
        } else {
            assert(b1[a] == b0[a]);
            if pos < b0.len() {
                assert(b0[a].skill_id != b0[pos].skill_id);
            }
            assert(b0[a].skill_id != e.skill_id);
        }
    }
    assert forall|sk: u32| #[trigger] bench_tally(s1, sk).5 > 0
        implies exists|a: int| 0 <= a < b1.len() && #[trigger] b1[a].skill_id == sk by {
        if sk == e.skill_id {
            assert(b1[pos].skill_id == sk);
        } else {
            assert(bench_tally(s1, sk) == bench_tally(ss, sk));
            let a = choose|a: int| 0 <= a < b0.len() && #[trigger] b0[a].skill_id == sk;
            assert(b1[a] == b0[a]);
        }
    }
    assert forall|x: int, y: int| 0 <= x < y < b1.len() implies #[trigger] b1[x].skill_id != #[trigger] b1[y].skill_id by {
        if y == b0.len() {
            assert(b1[x] == b0[x]);
        } else if x != pos && y != pos {
            assert(b1[x] == b0[x] && b1[y] == b0[y]);
        } else if x == pos {
            assert(b1[y] == b0[y]);
        } else {
            assert(b1[x] == b0[x]);
        }
    }
}

/// Reordering a benchmark's skill list keeps it tallied.
proof fn lemma_bench_perm(a: Seq<BenchSkill>, c: Seq<BenchSkill>, ss: Seq<crate::meter::SkillStat>)
    requires
        a.to_multiset() == c.to_multiset(),
        bench_tallied(a, ss),
    ensures
        bench_tallied(c, ss),
{
    broadcast use vstd::seq_lib::group_to_multiset_ensures;
    assert forall|x: int| 0 <= x < c.len() implies {
        let t = bench_tally(ss, (#[trigger] c[x]).skill_id);
        &&& c[x].total == t.0 && c[x].hits == t.1 && c[x].crit_hits == t.2
        &&& c[x].crit_lucky_hits == t.3 && c[x].max_hit == t.4
    } by {
        assert(c.contains(c[x]));
        assert(c.to_multiset().count(c[x]) > 0);
        assert(a.to_multiset().count(c[x]) > 0);
        assert(a.contains(c[x]));
        let y = choose|y: int| 0 <= y < a.len() && a[y] == c[x];
        assert(a[y] == c[x]);
    }
    assert forall|sk: u32| #[trigger] bench_tally(ss, sk).5 > 0
        implies exists|x: int| 0 <= x < c.len() && #[trigger] c[x].skill_id == sk by {
        let y = choose|y: int| 0 <= y < a.len() && #[trigger] a[y].skill_id == sk;
        assert(a.contains(a[y]));
        assert(a.to_multiset().count(a[y]) > 0);
        assert(c.to_multiset().count(a[y]) > 0);
        assert(c.contains(a[y]));
        let x = choose|x: int| 0 <= x < c.len() && c[x] == a[y];
        assert(c[x].skill_id == sk);
    }
}

/// The DPS meter: the encounter tracker and what it knows of entities.
pub struct DpsTracker {
    pub state: DpsState,
    pub names: HashMap<u64, String>,
    pub classes: HashMap<u64, u32>,
    pub monster_types: HashMap<u64, i32>,
    pub is_player: HashMap<u64, bool>,
    pub stats_cache: HashMap<u64, CharStats>,
    pub dead_players: HashSet<u64>,
    pub shield_seen: HashMap<u64, HashSet<i64>>,
    pub gear_cache: HashMap<u64, Vec<EquipSlot>>,
    pub loadout_cache: HashMap<u64, Vec<SkillLoadoutEntry>>,
    pub target_progress: HashMap<i32, (i32, i32)>,
    pub current_phase_target: Option<i32>,
    pub last_phase_id: Option<i32>,
    pub current_zone: String,
    pub current_zone_id: Option<u32>,
    /// Finished encounters to save once more when their time comes.
    pub pending_gear_resave: Vec<(u64, Encounter)>,
    pub bench_config: BenchmarkConfig,
    pub bench_active: bool,
    pub bench_start: Option<u64>,
    pub bench_target: Option<EntityId>,
    pub bench_result: Option<BenchSummary>,
}

impl DpsTracker {
    pub open spec fn books(&self) -> Books {
        Books {
            names: self.names@.map_values(|s: String| s@),
            classes: self.classes@,
            monster_types: self.monster_types@,
            is_player: self.is_player@,
            stats: self.stats_cache@,
            dead: self.dead_players@,
            shields_seen: self.shield_seen@.map_values(|s: HashSet<i64>| s@),
            gear: self.gear_cache@.map_values(|v: Vec<EquipSlot>| v@),
            loadout: self.loadout_cache@.map_values(|v: Vec<SkillLoadoutEntry>| v@),
            progress: self.target_progress@,
            phase_target: self.current_phase_target,
            last_phase_id: self.last_phase_id,
            zone: self.current_zone@,
            zone_id: self.current_zone_id,
        }
    }

    /// The tracker and the encounters waiting to be saved again are well formed.
    pub open spec fn wf(&self) -> bool {
        &&& self.state.wf()
        &&& forall|i: int| 0 <= i < self.pending_gear_resave@.len() ==> (#[trigger] self.pending_gear_resave@[i]).1.wf()
    }

    /// A meter that knows nothing yet.
    pub fn new(encounter_timeout_secs: u32) -> (r: DpsTracker)
        ensures
            r.wf(),
            r.state.model() == DpsState::new_model(),
            r.books() == (Books {
                names: Map::empty(),
                classes: Map::empty(),
                monster_types: Map::empty(),
                is_player: Map::empty(),
                stats: Map::empty(),
                dead: Set::empty(),
                shields_seen: Map::empty(),
                gear: Map::empty(),
                loadout: Map::empty(),
                progress: Map::empty(),
                phase_target: None,
                last_phase_id: None,
                zone: Seq::empty(),
                zone_id: None,
            }),
            r.pending_gear_resave@.len() == 0,
            !r.bench_active,
    {
        let r = DpsTracker {
            state: DpsState::new(encounter_timeout_secs),
            names: HashMap::new(),
            classes: HashMap::new(),
            monster_types: HashMap::new(),
            is_player: HashMap::new(),
            stats_cache: HashMap::new(),
            dead_players: HashSet::new(),
            shield_seen: HashMap::new(),
            gear_cache: HashMap::new(),
            loadout_cache: HashMap::new(),
            target_progress: HashMap::new(),
            current_phase_target: None,
            last_phase_id: None,
            current_zone: String::new(),
            current_zone_id: None,
            pending_gear_resave: Vec::new(),
            bench_config: BenchmarkConfig::default_config(),
            bench_active: false,
            bench_start: None,
            bench_target: None,
            bench_result: None,
        };
        assert(r.books().names =~= Map::empty());
        assert(r.books().shields_seen =~= Map::empty());
        assert(r.books().gear =~= Map::empty());
        assert(r.books().loadout =~= Map::empty());
        r
    }
}

impl DpsTracker {
    fn on_entity_name(&mut self, id: EntityId, name: &String, class: Option<u32>, monster_type: Option<i32>, is_player: bool)
        requires
            old(self).wf(),
        ensures
            final(self).bench_active == old(self).bench_active,
            final(self).bench_config == old(self).bench_config,
            final(self).bench_start == old(self).bench_start,
            final(self).bench_target == old(self).bench_target,
            final(self).wf(),
            final(self).books() == books_after(old(self).books(), EventView::EntityName {
                id, name: name@, class, monster_type, is_player,
            }),
            final(self).state.model() == if name@.len() > 0 {
                rename_spec(old(self).state.model(), id.0, name@)
            } else {
                old(self).state.model()
            },
            final(self).pending_gear_resave == old(self).pending_gear_resave,
    {
        let ghost b0 = self.books();
        let nonempty = !name.as_str().is_empty();
        if nonempty {
            self.names.insert(id.0, name.clone());
            assert(self.books().names =~= b0.names.insert(id.0, name@));
        }
        match class {
            Some(c) => { self.classes.insert(id.0, c); },
            None => {},
        }
        match monster_type {
            Some(t) => { self.monster_types.insert(id.0, t); },
            None => {},
        }
        self.is_player.insert(id.0, is_player);
        if nonempty {
            self.state.rename_player(id, name);
        }
    }

    fn on_despawn(&mut self, id: EntityId)
        requires
            old(self).wf(),
        ensures
            final(self).bench_active == old(self).bench_active,
            final(self).bench_config == old(self).bench_config,
            final(self).bench_start == old(self).bench_start,
            final(self).bench_target == old(self).bench_target,
            final(self).wf(),
            final(self).books() == books_after(old(self).books(), EventView::EntityDespawn { id }),
            final(self).state == old(self).state,
            final(self).pending_gear_resave == old(self).pending_gear_resave,
    {
        let ghost b0 = self.books();
        self.names.remove(&id.0);
        self.classes.remove(&id.0);
        self.is_player.remove(&id.0);
        self.stats_cache.remove(&id.0);
        self.dead_players.remove(&id.0);
        self.shield_seen.remove(&id.0);
        assert(self.books().names =~= b0.names.remove(id.0));
        assert(self.books().shields_seen =~= b0.shields_seen.remove(id.0));
    }

    fn on_gear(&mut self, id: EntityId, slots: &Vec<EquipSlot>)
        requires
            old(self).wf(),
        ensures
            final(self).bench_active == old(self).bench_active,
            final(self).bench_config == old(self).bench_config,
            final(self).bench_start == old(self).bench_start,
            final(self).bench_target == old(self).bench_target,
            final(self).wf(),
            final(self).books() == books_after(old(self).books(), EventView::EquipData { id, slots: slots@ }),
            final(self).state == old(self).state,
            final(self).pending_gear_resave == old(self).pending_gear_resave,
    {
        let ghost b0 = self.books();
        self.gear_cache.insert(id.0, slots.clone());
        assert(self.books().gear =~= b0.gear.insert(id.0, slots@));
    }

    fn on_loadout(&mut self, id: EntityId, skills: &Vec<SkillLoadoutEntry>)
        requires
            old(self).wf(),
        ensures
            final(self).bench_active == old(self).bench_active,
            final(self).bench_config == old(self).bench_config,
            final(self).bench_start == old(self).bench_start,
            final(self).bench_target == old(self).bench_target,
            final(self).wf(),
            final(self).books() == books_after(old(self).books(), EventView::SkillLoadout { id, skills: skills@ }),
            final(self).state == old(self).state,
            final(self).pending_gear_resave == old(self).pending_gear_resave,
    {
        let ghost b0 = self.books();
        self.loadout_cache.insert(id.0, skills.clone());
        assert(self.books().loadout =~= b0.loadout.insert(id.0, skills@));
    }

    fn on_zone_change(&mut self, event: &GameEvent, zone_id: u32, zone_name: &String, now_us: u64)
        requires
            old(self).wf(),
            event.view() == (EventView::ZoneChange { zone_id, zone_name: zone_name@ }),
        ensures
            final(self).bench_active == old(self).bench_active,
            final(self).bench_config == old(self).bench_config,
            final(self).bench_start == old(self).bench_start,
            final(self).bench_target == old(self).bench_target,
            final(self).wf(),
            final(self).books() == books_after(old(self).books(), event.view()),
            final(self).state.model() == if old(self).current_zone_id != Some(zone_id) {
                crate::dps_state::state_event_spec(old(self).state.model(), event.view(), now_us)
            } else {
                old(self).state.model()
            },
            final(self).pending_gear_resave == old(self).pending_gear_resave,
    {
        let ghost b0 = self.books();
        let actually_changed = match self.current_zone_id { Some(z) => z != zone_id, None => true };
        self.current_zone_id = Some(zone_id);
        if !zone_name.as_str().is_empty() {
            self.current_zone = zone_name.clone();
        }
        if actually_changed {
            self.state.apply_state_event(event, now_us);
            self.target_progress.clear();
            self.current_phase_target = None;
            self.last_phase_id = None;
            self.gear_cache.clear();
            self.loadout_cache.clear();
            self.monster_types.clear();
            assert(self.books().gear =~= Map::empty());
            assert(self.books().loadout =~= Map::empty());
        }
    }
}

impl DpsTracker {
    /// Whether phase numbers fit for a list of objective updates.
    pub open spec fn room_for_phases(&self, n_targets: nat) -> bool {
        match self.state.active {
            Some(a) => a.phases@.len() + n_targets + 2 <= u64::MAX,
            None => true,
        }
    }

    fn on_phase_signal(&mut self, targets: &Vec<DungeonTargetProgress>, phase_id: Option<i32>, now_us: u64)
        requires
            old(self).wf(),
            old(self).room_for_phases(targets@.len()),
        ensures
            final(self).bench_active == old(self).bench_active,
            final(self).bench_config == old(self).bench_config,
            final(self).bench_start == old(self).bench_start,
            final(self).bench_target == old(self).bench_target,
            final(self).wf(),
            final(self).books() == books_after(old(self).books(), EventView::DungeonPhaseSignal { targets: targets@, phase_id }),
            final(self).state.model() == phases_added(
                old(self).state.model(),
                phase_scan(old(self).current_phase_target, targets@).1,
                now_us,
            ),
            final(self).pending_gear_resave == old(self).pending_gear_resave,
    {
        let ghost b0 = self.books();
        let ghost m0 = self.state.model();
        let ghost cur0 = self.current_phase_target;
        if phase_id.is_some() {
            self.last_phase_id = phase_id;
        }
        let ghost s1 = *self;
        let n = targets.len();
        let mut i: usize = 0;
        proof {
            assert(targets@.take(0) =~= Seq::<DungeonTargetProgress>::empty());
            match m0.active {
                Some(a) => {
                    assert(a.phases + phase_markers(a.phases.len(), 0, offset_at(a, now_us)) =~= a.phases);
                },
                None => {},
            }
        }
        while i < n
            invariant
                n == targets@.len(),
                i <= n,
                self.state.wf(),
                forall|q: int| 0 <= q < self.pending_gear_resave@.len() ==> (#[trigger] self.pending_gear_resave@[q]).1.wf(),
                self.pending_gear_resave == s1.pending_gear_resave,
                self.names == s1.names,
                self.classes == s1.classes,
                self.monster_types == s1.monster_types,
                self.is_player == s1.is_player,
                self.stats_cache == s1.stats_cache,
                self.dead_players == s1.dead_players,
                self.shield_seen == s1.shield_seen,
                self.gear_cache == s1.gear_cache,
                self.loadout_cache == s1.loadout_cache,
                self.last_phase_id == s1.last_phase_id,
                self.current_zone == s1.current_zone,
                self.current_zone_id == s1.current_zone_id,
                self.bench_active == s1.bench_active,
                self.bench_config == s1.bench_config,
                self.bench_start == s1.bench_start,
                self.bench_target == s1.bench_target,
                self.current_phase_target == phase_scan(cur0, targets@.take(i as int)).0,
                self.target_progress@ == progress_scan(b0.progress, targets@.take(i as int)),
                self.state.model() == phases_added(m0, phase_scan(cur0, targets@.take(i as int)).1, now_us),
                m0.active is Some ==> m0.active->0.phases.len() + n + 2 <= u64::MAX,
                phase_scan(cur0, targets@.take(i as int)).1 <= i,
            decreases n - i,
        {
            let t = targets[i];
            let ghost before = targets@.take(i as int);
            assert(targets@.take(i + 1).drop_last() =~= before);
            assert(targets@.take(i + 1).last() == t);
            let is_new_objective = t.complete == 0 && t.nums == 0;
            let cur = self.current_phase_target;
            let starts = is_new_objective && cur.is_some() && cur != Some(t.target_id);
            if starts {
                proof {
                    if m0.active is Some {
                        let a = m0.active->0;
                        let k = phase_scan(cur0, before).1;
                        assert(self.state.model().active->0.phases == a.phases + phase_markers(a.phases.len(), k, offset_at(a, now_us)));
                        assert(self.state.model().active->0.phases.len() == a.phases.len() + k);
                    }
                }
                match &mut self.state.active {
                    Some(enc) => {
                        let ghost e0 = *enc;
                        let number: u64 = enc.phases.len() as u64 + 2;
                        let mut name = String::new();
                        name.append("Phase ");
                        proof { reveal_strlit("Phase "); }
                        push_digits(&mut name, number, 10);
                        enc.push_phase(name, now_us);
                        proof {
                            let a = m0.active->0;
                            let k = phase_scan(cur0, before).1;
                            assert(crate::encounter::phases_model(e0.phases@).len() == e0.phases@.len());
                            assert(e0.phases@.len() == a.phases.len() + k);
                            assert(phase_name((a.phases.len() + k + 2) as nat) == name@);
                            assert(crate::encounter::phases_model(enc.phases@) =~= crate::encounter::phases_model(e0.phases@).push((name@, e0.elapsed_spec(now_us))));
                            assert(a.phases + phase_markers(a.phases.len(), k + 1, offset_at(a, now_us))
                                =~= (a.phases + phase_markers(a.phases.len(), k, offset_at(a, now_us))).push((name@, offset_at(a, now_us))));
                        }
                    },
                    None => {},
                }
                self.current_phase_target = Some(t.target_id);
            } else if cur.is_none() {
                self.current_phase_target = Some(t.target_id);
            }
            self.target_progress.insert(t.target_id, (t.nums, t.complete));
            i = i + 1;
        }
        assert(targets@.take(n as int) =~= targets@);
    }
}

impl DpsTracker {
    /// Whether every known player among the active encounter's entities is dead.
    fn party_all_dead(&self) -> (r: bool)
        requires
            self.state.wf(),
        ensures
            r == match self.state.model().active {
                Some(a) => party_wiped(a.meters, self.is_player@, self.dead_players@),
                None => false,
            },
    {
        match &self.state.active {
            None => false,
            Some(enc) => {
                let ghost ms = enc.model().meters;
                let n = enc.meter_count();
                let mut any = false;
                let mut all = true;
                let mut j: usize = 0;
                while j < n
                    invariant
                        enc.wf(),
                        ms == enc.model().meters,
                        n == ms.len(),
                        j <= n,
                        any == exists|i: int| 0 <= i < j && #[trigger] player_flag(self.is_player@, ms[i].0),
                        all == forall|i: int| 0 <= i < j && #[trigger] player_flag(self.is_player@, ms[i].0) ==> self.dead_players@.contains(ms[i].0),
                    decreases n - j,
                {
                    let m = enc.meter_at(j);
                    let k = m.entity_id.0;
                    assert(enc.meters()[j as int].1.entity_id.0 == enc.meters()[j as int].0);
                    assert(ms[j as int].0 == k);
                    let flag = match self.is_player.get(&k) { Some(p) => *p, None => false };
                    assert(flag == player_flag(self.is_player@, ms[j as int].0));
                    if flag {
                        any = true;
                        if !self.dead_players.contains(&k) {
                            all = false;
                        }
                    }
                    j = j + 1;
                }
                any && all
            },
        }
    }

    /// Whether a death of `id` fits the active encounter's counters.
    pub open spec fn room_for_death_of(&self, id: EntityId) -> bool {
        match self.state.active {
            Some(a) => a.room_for_death(id),
            None => true,
        }
    }

    fn on_stats(&mut self, id: EntityId, stats: &CharStats, now_us: u64)
        requires
            old(self).wf(),
            dies(old(self).books(), id.0, *stats) && player_flag(old(self).books().is_player, id.0) ==> old(self).room_for_death_of(id),
        ensures
            final(self).bench_active == old(self).bench_active,
            final(self).bench_config == old(self).bench_config,
            final(self).bench_start == old(self).bench_start,
            final(self).bench_target == old(self).bench_target,
            final(self).wf(),
            final(self).books() == books_after(old(self).books(), EventView::EntityStats { id, stats: *stats }),
            final(self).state.model() == if dies(old(self).books(), id.0, *stats) && player_flag(old(self).books().is_player, id.0) {
                after_death(old(self).state.model(), id, label_text(old(self).books().names, id),
                    old(self).books().is_player, final(self).books().dead, now_us)
            } else {
                old(self).state.model()
            },
            final(self).pending_gear_resave == old(self).pending_gear_resave,
    {
        let ghost b0 = self.books();
        let ghost m0 = self.state.model();
        let prev_state = match self.stats_cache.get(&id.0) { Some(s) => s.actor_state, None => None };
        let mut merged = match self.stats_cache.get(&id.0) { Some(s) => *s, None => CharStats::empty() };
        merged.merge(stats);
        self.stats_cache.insert(id.0, merged);
        let new_state = merged.actor_state;
        match new_state {
            Some(ns) => {
                let was_dead = match prev_state { Some(p) => p == ACTOR_STATE_DEAD, None => false };
                let now_dead = ns == ACTOR_STATE_DEAD;
                if now_dead && !was_dead {
                    self.dead_players.insert(id.0);
                    let player = match self.is_player.get(&id.0) { Some(p) => *p, None => false };
                    if player {
                        let names = &self.names;
                        let ghost nmap = b0.names;
                        match &mut self.state.active {
                            Some(enc) => {
                                let ghost e0 = enc.model();
                                let ghost m_old = *enc;
                                enc.record_death(id, |eid: EntityId| -> (r: String)
                                    ensures
                                        r@ == label_text(nmap, eid),
                                    { entity_label(names, eid) });
                                proof {
                                    if !has_key(m_old.meters(), id.0) {
                                        assert(!has_model_key(e0.meters, id.0)) by {
                                            if has_model_key(e0.meters, id.0) {
                                                let q = choose|q: int| 0 <= q < e0.meters.len() && #[trigger] e0.meters[q].0 == id.0;
                                                assert(m_old.meters()[q].0 == id.0);
                                            }
                                        }
                                    } else {
                                        let p = key_pos(m_old.meters(), id.0);
                                        assert(e0.meters[p].0 == id.0);
                                        assert(has_model_key(e0.meters, id.0));
                                    }
                                }
                            },
                            None => {},
                        }
                        let wiped = self.party_all_dead();
                        if wiped {
                            match &mut self.state.active {
                                Some(enc) => { enc.outcome = EncounterOutcome::Failed; },
                                None => {},
                            }
                            self.state.finish_active(now_us);
                        }
                    }
                } else if !now_dead && was_dead {
                    self.dead_players.remove(&id.0);
                }
            },
            None => {},
        }
    }
}

impl DpsTracker {
    /// Whether the new shields of a list fit the counters.
    pub open spec fn room_for_shields(&self, id: EntityId, shields: Seq<ShieldEntry>) -> bool {
        let gain = shield_scan(seen_of(self.books(), id.0), shields).1;
        &&& gain <= u64::MAX
        &&& match self.state.active {
            Some(a) => a.room_for_shield(id, gain as u64),
            None => true,
        }
    }

    fn on_shields(&mut self, id: EntityId, shields: &Vec<ShieldEntry>)
        requires
            old(self).wf(),
            old(self).room_for_shields(id, shields@),
        ensures
            final(self).bench_active == old(self).bench_active,
            final(self).bench_config == old(self).bench_config,
            final(self).bench_start == old(self).bench_start,
            final(self).bench_target == old(self).bench_target,
            final(self).wf(),
            final(self).books() == books_after(old(self).books(), EventView::ShieldList { id, shields: shields@ }),
            final(self).state.model() == after_shields(old(self).state.model(), id,
                shield_scan(seen_of(old(self).books(), id.0), shields@).1, label_text(old(self).books().names, id)),
            final(self).pending_gear_resave == old(self).pending_gear_resave,
    {
        let ghost b0 = self.books();
        let ghost seen0 = seen_of(b0, id.0);
        let ghost total = shield_scan(seen0, shields@).1;
        let mut seen = match self.shield_seen.remove(&id.0) { Some(st) => st, None => HashSet::new() };
        assert(seen@ == seen0);
        let mut gain: u64 = 0;
        let n = shields.len();
        let mut i: usize = 0;
        assert(shields@.take(0) =~= Seq::<ShieldEntry>::empty());
        while i < n
            invariant
                n == shields@.len(),
                i <= n,
                total == shield_scan(seen0, shields@).1,
                total <= u64::MAX,
                (seen@, gain as int) == shield_scan(seen0, shields@.take(i as int)),
            decreases n - i,
        {
            let sh = shields[i];
            proof {
                assert(shields@.take(i + 1).drop_last() =~= shields@.take(i as int));
                assert(shields@.take(i + 1).last() == sh);
                lemma_shield_scan_prefix(seen0, shields@, i + 1);
            }
            let fresh = seen.insert(sh.uuid);
            if fresh && sh.initial_value > 0 {
                gain = gain + sh.initial_value as u64;
            }
            i = i + 1;
        }
        assert(shields@.take(n as int) =~= shields@);
        self.shield_seen.insert(id.0, seen);
        assert(self.books().shields_seen =~= b0.shields_seen.insert(id.0, shield_scan(seen0, shields@).0));
        assert(gain == total);
        if gain > 0 {
            let names = &self.names;
            let ghost nmap = b0.names;
            match &mut self.state.active {
                Some(enc) => {
                    let ghost e0 = enc.model();
                    let ghost m_old = *enc;
                    enc.apply_shield_gain(id, gain, |eid: EntityId| -> (r: String)
                        ensures
                            r@ == label_text(nmap, eid),
                        { entity_label(names, eid) });
                    proof {
                        if !has_key(m_old.meters(), id.0) {
                            assert(!has_model_key(e0.meters, id.0)) by {
                                if has_model_key(e0.meters, id.0) {
                                    let q = choose|q: int| 0 <= q < e0.meters.len() && #[trigger] e0.meters[q].0 == id.0;
                                    assert(m_old.meters()[q].0 == id.0);
                                }
                            }
                        } else {
                            let p = key_pos(m_old.meters(), id.0);
                            assert(e0.meters[p].0 == id.0);
                            assert(has_model_key(e0.meters, id.0));
                        }
                    }
                },
                None => {},
            }
        }
    }
}

impl DpsTracker {
    /// The overheal the meter would count for a heal now.
    pub open spec fn overheal_now(&self, h: CombatEvent) -> u64 {
        overheal_for(
            if self.stats_cache@.contains_key(h.target_id.0) { Some(self.stats_cache@[h.target_id.0]) } else { None },
            h.damage,
        )
    }

    /// Whether a heal fits the active encounter's counters.
    pub open spec fn room_for_heal_event(&self, h: CombatEvent) -> bool {
        self.names@.contains_key(h.source_id.0) ==> match self.state.active {
            Some(a) => a.room_for_heal(h.source_id, h.damage, self.overheal_now(h)),
            None => true,
        }
    }

    fn on_heal(&mut self, h: &CombatEvent)
        requires
            old(self).wf(),
            old(self).room_for_heal_event(*h),
        ensures
            final(self).bench_active == old(self).bench_active,
            final(self).bench_config == old(self).bench_config,
            final(self).bench_start == old(self).bench_start,
            final(self).bench_target == old(self).bench_target,
            final(self).wf(),
            final(self).books() == old(self).books(),
            final(self).pending_gear_resave == old(self).pending_gear_resave,
            final(self).state.past == old(self).state.past,
            final(self).state.newly_finished == old(self).state.newly_finished,
            final(self).state.in_dungeon == old(self).state.in_dungeon,
            final(self).state.post_settlement == old(self).state.post_settlement,
            match old(self).state.active {
                Some(a) => if old(self).names@.contains_key(h.source_id.0) {
                    final(self).state.active matches Some(e) && {
                        &&& e.same_header(&a)
                        &&& e.total_healing == a.total_healing + h.damage
                        &&& e.total_damage == a.total_damage
                        &&& e.total_damage_taken == a.total_damage_taken
                        &&& Encounter::meter_of(e.meters(), h.source_id) is Some
                        &&& e.meters() == Encounter::meters_with(a.meters(), h.source_id,
                            Encounter::meter_of(e.meters(), h.source_id)->0)
                        &&& Encounter::meter_of(e.meters(), h.source_id)->0.overheal
                            == (match Encounter::meter_of(a.meters(), h.source_id) { Some(o) => o.overheal, None => 0 })
                                + old(self).overheal_now(*h)
                        &&& e.model() == heal_model(a.model(), *h, old(self).overheal_now(*h), label_text(old(self).books().names, h.source_id))
                    }
                } else {
                    final(self).state.active == old(self).state.active
                },
                None => final(self).state.active is None,
            },
    {
        if self.names.contains_key(&h.source_id.0) {
            let overheal = overheal_of(self.stats_cache.get(&h.target_id.0), h.damage);
            let names = &self.names;
            let ghost nmap = self.books().names;
            match &mut self.state.active {
                Some(enc) => {
                    let ghost a = *enc;
                    enc.apply_heal(h, overheal, |eid: EntityId| -> (r: String)
                        ensures
                            r@ == label_text(nmap, eid),
                        { entity_label(names, eid) });
                    proof {
                        lemma_model_key(a.meters(), h.source_id.0);
                    }
                },
                None => {},
            }
        }
    }

    /// Whether the damage a known entity takes from a hit fits its counters.
    pub open spec fn room_for_taken_of(&self, c: CombatEvent) -> bool {
        self.names@.contains_key(c.target_id.0) ==> match self.state.active {
            Some(a) => match Encounter::meter_of(a.meters(), c.target_id) {
                Some(m) => m.taken_stats.hits < u64::MAX && a.total_damage_taken + c.damage <= u64::MAX,
                None => c.target_id == c.source_id ==> a.total_damage_taken + c.damage <= u64::MAX,
            },
            None => true,
        }
    }

    /// Counts a hit in the encounter tracker, and as damage taken where the
    /// target is a known entity with a meter.
    fn count_hit(&mut self, event: &GameEvent, c: &CombatEvent, now_us: u64)
        requires
            old(self).wf(),
            event.view() == EventView::Combat(*c),
            old(self).state.room_for(event),
            old(self).room_for_taken_of(*c),
        ensures
            final(self).bench_active == old(self).bench_active,
            final(self).bench_config == old(self).bench_config,
            final(self).bench_start == old(self).bench_start,
            final(self).bench_target == old(self).bench_target,
            final(self).wf(),
            final(self).books() == old(self).books(),
            final(self).pending_gear_resave == old(self).pending_gear_resave,
            if old(self).state.active is None && old(self).state.post_settlement {
                final(self).state.model() == old(self).state.model()
            } else {
                &&& final(self).state.past@ == old(self).state.past@
                &&& final(self).state.newly_finished@ == old(self).state.newly_finished@
                &&& final(self).state.in_dungeon == old(self).state.in_dungeon
                &&& final(self).state.post_settlement == old(self).state.post_settlement
                &&& final(self).state.active matches Some(e) && {
                    let taken = if old(self).names@.contains_key(c.target_id.0) && (match old(self).state.active {
                        Some(a) => Encounter::meter_of(a.meters(), c.target_id) is Some || c.target_id == c.source_id,
                        None => c.target_id == c.source_id,
                    }) { c.damage as int } else { 0 };
                    &&& (match old(self).state.active {
                        Some(a) => {
                            &&& e.id == a.id
                            &&& e.start_us == a.start_us
                            &&& e.total_damage == a.total_damage + c.damage
                            &&& e.total_damage_taken == a.total_damage_taken + taken
                            &&& e.total_healing == a.total_healing
                        },
                        None => {
                            &&& e.start_us == now_us
                            &&& e.zone_name@ == old(self).current_zone@
                            &&& e.zone_id == (match old(self).current_zone_id { Some(z) => z, None => 0 })
                            &&& e.total_damage == c.damage
                            &&& e.total_damage_taken == taken
                            &&& e.total_healing == 0
                        },
                    })
                    &&& e.model() == hit_on(match old(self).state.active {
                        Some(a) => a.model(),
                        None => new_encounter_model(e.id, old(self).current_zone@,
                            match old(self).current_zone_id { Some(z) => z, None => 0 }, now_us),
                    }, *c, old(self).books().names)
                }
            },
    {
        let names = &self.names;
        let ghost nmap = self.books().names;
        let zone_id = match self.current_zone_id { Some(z) => z, None => 0 };
        let ghost a0 = self.state.active;
        self.state.apply_event(event, self.current_zone.as_str(), zone_id, now_us, |eid: EntityId| -> (r: String)
            ensures
                r@ == label_text(nmap, eid),
            { entity_label(names, eid) });
        proof {
            let act = self.state.active;
            match act {
                Some(e1) => {
                    if !(a0 is None && old(self).state.post_settlement) {
                        match a0 {
                            Some(a) => lemma_model_key(a.meters(), c.source_id.0),
                            None => {},
                        }
                        let base = match a0 {
                            Some(a) => a.model(),
                            None => new_encounter_model(e1.id, old(self).current_zone@, zone_id, now_us),
                        };
                        assert(e1.model() == hit_model(base, *c, label_text(nmap, c.source_id)));
                    }
                },
                None => {},
            }
        }
        if names.contains_key(&c.target_id.0) {
            match &mut self.state.active {
                Some(enc) => {
                    proof {
                        match a0 {
                            Some(a) => {
                                if c.target_id.0 != c.source_id.0 {
                                    Encounter::lemma_meter_of_other(a.meters(), c.source_id,
                                        Encounter::meter_of(enc.meters(), c.source_id)->0, c.target_id);
                                }
                            },
                            None => {
                                if c.target_id.0 != c.source_id.0 {
                                    assert(!has_key(enc.meters(), c.target_id.0)) by {
                                        if has_key(enc.meters(), c.target_id.0) {
                                            let q = choose|q: int| 0 <= q < enc.meters().len() && #[trigger] enc.meters()[q].0 == c.target_id.0;
                                        }
                                    }
                                }
                            },
                        }
                    }
                    enc.apply_taken(c);
                },
                None => {},
            }
        }
    }
}

impl DpsTracker {
    /// Starts a benchmark's encounter: the active one ends, a new one starts
    /// now in the current zone.
    fn bench_start_encounter(&mut self, now_us: u64)
        requires
            old(self).wf(),
        ensures
            final(self).wf(),
            final(self).books() == old(self).books(),
            final(self).pending_gear_resave == old(self).pending_gear_resave,
            ({
                let f = finish_spec(old(self).state.model(), now_us);
                &&& final(self).state.model().past == f.past
                &&& final(self).state.model().newly_finished == f.newly_finished
                &&& final(self).state.in_dungeon == old(self).state.in_dungeon
                &&& final(self).state.post_settlement == old(self).state.post_settlement
            }),
            final(self).state.active matches Some(e) && {
                &&& e.start_us == now_us
                &&& e.end_us is None
                &&& e.zone_name@ == old(self).current_zone@
                &&& e.zone_id == (match old(self).current_zone_id { Some(z) => z, None => 0 })
                &&& e.outcome == EncounterOutcome::Unknown
                &&& e.meters().len() == 0
                &&& e.total_damage == 0
                &&& e.model() == new_encounter_model(e.id, old(self).current_zone@,
                    match old(self).current_zone_id { Some(z) => z, None => 0 }, now_us)
            },
            final(self).bench_start == Some(now_us),
            final(self).bench_target is None,
            final(self).names == old(self).names,
            final(self).current_zone == old(self).current_zone,
            final(self).current_zone_id == old(self).current_zone_id,
            final(self).bench_active == old(self).bench_active,
            final(self).bench_config == old(self).bench_config,
    {
        self.state.finish_active(now_us);
        let zone_id = match self.current_zone_id { Some(z) => z, None => 0 };
        let fresh = Encounter::new(self.current_zone.clone(), zone_id, now_us);
        assert(fresh.model() == new_encounter_model(fresh.id, self.current_zone@, zone_id, now_us)) by {
            assert(crate::encounter::phases_model(fresh.phases@) =~= Seq::<(Seq<char>, u64)>::empty());
            assert(crate::encounter::meters_model(fresh.meters()) =~= Seq::<(u64, MeterModel)>::empty());
        }
        self.state.active = Some(fresh);
        self.bench_start = Some(now_us);
        self.bench_target = None;
    }

    /// Whether a hit counts while a benchmark may be running: the first hit
    /// of a benchmark starts its encounter, and a single-target benchmark
    /// locks on a target and ignores hits on anything else.
    fn bench_admits(&mut self, c: &CombatEvent, now_us: u64) -> (count: bool)
        requires
            old(self).wf(),
        ensures
            final(self).wf(),
            final(self).books() == old(self).books(),
            final(self).pending_gear_resave == old(self).pending_gear_resave,
            final(self).bench_active == old(self).bench_active,
            final(self).bench_config == old(self).bench_config,
            final(self).names == old(self).names,
            !old(self).bench_active ==> {
                &&& count
                &&& final(self).state == old(self).state
                &&& final(self).bench_start == old(self).bench_start
                &&& final(self).bench_target == old(self).bench_target
            },
            old(self).bench_active ==> {
                let started = old(self).bench_start is None;
                let tgt = locked_target(old(self).bench_config.single_target, old(self).bench_config.auto_target,
                    old(self).bench_config.target_uid@, if started { None } else { old(self).bench_target }, c.target_id);
                &&& final(self).bench_target == tgt
                &&& final(self).bench_start == if started { Some(now_us) } else { old(self).bench_start }
                &&& count == !(old(self).bench_config.single_target && tgt is Some && c.target_id != tgt->0)
                &&& !started ==> final(self).state == old(self).state
                &&& started ==> {
                    let f = finish_spec(old(self).state.model(), now_us);
                    &&& final(self).state.model().past == f.past
                    &&& final(self).state.model().newly_finished == f.newly_finished
                    &&& final(self).state.in_dungeon == old(self).state.in_dungeon
                    &&& final(self).state.post_settlement == old(self).state.post_settlement
                    &&& final(self).state.active matches Some(e) && {
                        &&& e.start_us == now_us
                        &&& e.zone_name@ == old(self).current_zone@
                        &&& e.zone_id == (match old(self).current_zone_id { Some(z) => z, None => 0 })
                        &&& e.outcome == EncounterOutcome::Unknown
                        &&& e.meters().len() == 0
                        &&& e.total_damage == 0
                        &&& e.model() == new_encounter_model(e.id, old(self).current_zone@,
                            match old(self).current_zone_id { Some(z) => z, None => 0 }, now_us)
                    }
                }
            },
            final(self).current_zone == old(self).current_zone,
            final(self).current_zone_id == old(self).current_zone_id,
    {
        if !self.bench_active {
            return true;
        }
        if self.bench_start.is_none() {
            self.bench_start_encounter(now_us);
        }
        if self.bench_config.single_target && self.bench_target.is_none() {
            if self.bench_config.auto_target {
                self.bench_target = Some(c.target_id);
            } else {
                match parse_uid_hex(self.bench_config.target_uid.as_str()) {
                    Some(uid) => {
                        if uid != 0 {
                            self.bench_target = Some(EntityId(uid));
                        }
                    },
                    None => {},
                }
            }
        }
        if self.bench_config.single_target {
            match self.bench_target {
                Some(tgt) => {
                    if c.target_id != tgt {
                        return false;
                    }
                },
                None => {},
            }
        }
        true
    }
}

/// An encounter after a counted hit: the attacker's meter counts it (a new
/// one named as the books name the attacker), and a known target with a
/// meter counts it as taken.
pub open spec fn hit_on(base: EncounterModel, c: CombatEvent, names: Map<u64, Seq<char>>) -> EncounterModel {
    let h = hit_model(base, c, label_text(names, c.source_id));
    if names.contains_key(c.target_id.0) { taken_model(h, c) } else { h }
}

/// What a hit does: a benchmark may start its encounter or lock its target
/// and skip the hit; a counted hit adds its damage to the active encounter
/// (a new one, outside the quiet time after a dungeon's end).
pub open spec fn combat_effect(o: DpsTracker, f: DpsTracker, c: CombatEvent, now_us: u64) -> bool {
    let started = o.bench_active && o.bench_start is None;
    let tgt = if o.bench_active {
        locked_target(o.bench_config.single_target, o.bench_config.auto_target, o.bench_config.target_uid@,
            if started { None } else { o.bench_target }, c.target_id)
    } else {
        o.bench_target
    };
    let counted = !(o.bench_active && o.bench_config.single_target && tgt is Some && c.target_id != tgt->0);
    let blocked = !started && o.state.active is None && o.state.post_settlement;
    let base_total: int = if started { 0 } else { match o.state.active { Some(a) => a.total_damage as int, None => 0 } };
    let zid: u32 = match o.current_zone_id { Some(z) => z, None => 0 };
    &&& f.bench_target == tgt
    &&& f.bench_start == if started { Some(now_us) } else { o.bench_start }
    &&& f.state.in_dungeon == o.state.in_dungeon
    &&& f.state.post_settlement == o.state.post_settlement
    &&& started ==> f.state.model().past == finish_spec(o.state.model(), now_us).past
        && f.state.model().newly_finished == finish_spec(o.state.model(), now_us).newly_finished
    &&& !started ==> f.state.model().past == o.state.model().past
        && f.state.model().newly_finished == o.state.model().newly_finished
    &&& if counted && !blocked {
        f.state.active matches Some(e) && e.total_damage == base_total + c.damage && e.model() == hit_on(
            if started {
                new_encounter_model(e.id, o.current_zone@, zid, now_us)
            } else {
                match o.state.active { Some(a) => a.model(), None => new_encounter_model(e.id, o.current_zone@, zid, now_us) }
            }, c, o.books().names)
    } else if started {
        f.state.active matches Some(e) && e.total_damage == 0 && e.start_us == now_us
            && e.model() == new_encounter_model(e.id, o.current_zone@, zid, now_us)
    } else {
        f.state.model() == o.state.model()
    }
}

/// What a heal does: from a known entity, it counts in the active
/// encounter with its overheal.
pub open spec fn heal_effect(o: DpsTracker, f: DpsTracker, h: CombatEvent) -> bool {
    &&& f.state.past == o.state.past
    &&& f.state.newly_finished == o.state.newly_finished
    &&& f.state.in_dungeon == o.state.in_dungeon
    &&& f.state.post_settlement == o.state.post_settlement
    &&& match o.state.active {
        Some(a) => if o.names@.contains_key(h.source_id.0) {
            f.state.active matches Some(e) && {
                &&& e.same_header(&a)
                &&& e.total_healing == a.total_healing + h.damage
                &&& e.total_damage == a.total_damage
                &&& e.total_damage_taken == a.total_damage_taken
                &&& Encounter::meter_of(e.meters(), h.source_id) is Some
                &&& e.meters() == Encounter::meters_with(a.meters(), h.source_id,
                    Encounter::meter_of(e.meters(), h.source_id)->0)
                &&& Encounter::meter_of(e.meters(), h.source_id)->0.overheal
                    == (match Encounter::meter_of(a.meters(), h.source_id) { Some(o) => o.overheal, None => 0 })
                        + o.overheal_now(h)
                &&& e.model() == heal_model(a.model(), h, o.overheal_now(h), label_text(o.books().names, h.source_id))
            }
        } else {
            f.state.active == o.state.active
        },
        None => f.state.active is None,
    }
}

/// What one event does to the encounters.
pub open spec fn event_effect(o: DpsTracker, f: DpsTracker, ev: EventView, now_us: u64) -> bool {
    let b = o.books();
    match ev {
        EventView::Combat(c) => combat_effect(o, f, c, now_us),
        EventView::Heal(h) => heal_effect(o, f, h),
        EventView::EntityName { id, name, .. } => f.state.model() == if name.len() > 0 {
            rename_spec(o.state.model(), id.0, name)
        } else {
            o.state.model()
        },
        EventView::EntityStats { id, stats } => f.state.model() == if dies(b, id.0, stats) && player_flag(b.is_player, id.0) {
            after_death(o.state.model(), id, label_text(b.names, id), b.is_player, f.books().dead, now_us)
        } else {
            o.state.model()
        },
        EventView::ShieldList { id, shields } => f.state.model()
            == after_shields(o.state.model(), id, shield_scan(seen_of(b, id.0), shields).1, label_text(b.names, id)),
        EventView::ZoneChange { zone_id, .. } => f.state.model() == if b.zone_id != Some(zone_id) {
            crate::dps_state::state_event_spec(o.state.model(), ev, now_us)
        } else {
            o.state.model()
        },
        EventView::DungeonState { .. } => f.state.model() == crate::dps_state::state_event_spec(o.state.model(), ev, now_us),
        EventView::DungeonPhaseSignal { targets, .. } => f.state.model()
            == phases_added(o.state.model(), phase_scan(b.phase_target, targets).1, now_us),
        _ => f.state.model() == o.state.model(),
    }
}

impl DpsTracker {
    /// Whether the counters have room for an event.
    pub open spec fn room_for(&self, event: &GameEvent) -> bool {
        match event {
            GameEvent::Combat(c) => self.state.room_for(event) && self.room_for_taken_of(*c),
            GameEvent::Heal(h) => self.room_for_heal_event(*h),
            GameEvent::EntityStats { id, stats } =>
                dies(self.books(), id.0, *stats) && player_flag(self.books().is_player, id.0) ==> self.room_for_death_of(*id),
            GameEvent::ShieldList { id, shields } => self.room_for_shields(*id, shields@),
            GameEvent::DungeonPhaseSignal { targets, .. } => self.room_for_phases(targets@.len()),
            _ => true,
        }
    }

    /// Applies one decoded event at `now_us`.
    #[verifier::rlimit(60)]
    pub fn handle_event(&mut self, event: &GameEvent, now_us: u64)
        requires
            old(self).wf(),
            old(self).room_for(event),
        ensures
            final(self).wf(),
            final(self).books() == books_after(old(self).books(), event.view()),
            event_effect(*old(self), *final(self), event.view(), now_us),
            final(self).pending_gear_resave == old(self).pending_gear_resave,
            final(self).bench_active == old(self).bench_active,
            final(self).bench_config == old(self).bench_config,
    {
        match event {
            GameEvent::EntityName { id, name, class, monster_type, is_player } => {
                self.on_entity_name(*id, name, *class, *monster_type, *is_player);
            },
            GameEvent::EntityDespawn { id } => {
                self.on_despawn(*id);
            },
            GameEvent::EntityStats { id, stats } => {
                self.on_stats(*id, stats, now_us);
            },
            GameEvent::ShieldList { id, shields } => {
                self.on_shields(*id, shields);
            },
            GameEvent::EquipData { id, slots } => {
                self.on_gear(*id, slots);
            },
            GameEvent::SkillLoadout { id, skills } => {
                self.on_loadout(*id, skills);
            },
            GameEvent::ZoneChange { zone_id, zone_name } => {
                self.on_zone_change(event, *zone_id, zone_name, now_us);
            },
            GameEvent::DungeonState { .. } => {
                self.state.apply_state_event(event, now_us);
            },
            GameEvent::DungeonPhaseSignal { targets, phase_id } => {
                self.on_phase_signal(targets, *phase_id, now_us);
            },
            GameEvent::Heal(h) => {
                self.on_heal(h);
            },
            GameEvent::Combat(c) => {
                let ghost o = *self;
                let counted = self.bench_admits(c, now_us);
                proof {
                    if self.state.active is Some && o.bench_active && o.bench_start is None {
                        let e = self.state.active->0;
                        assert(!has_key(e.meters(), c.source_id.0));
                        assert(!has_key(e.meters(), c.target_id.0));
                    }
                }
                if counted {
                    self.count_hit(event, c, now_us);
                }
            },
            _ => {},
        }
    }

    /// Whether the counters have room for an event, tested.
    pub fn has_room_for(&self, event: &GameEvent) -> (r: bool)
        requires
            self.wf(),
        ensures
            r == self.room_for(event),
    {
        match event {
            GameEvent::Combat(c) => {
                if !self.state.has_room_for(event) {
                    return false;
                }
                if !self.names.contains_key(&c.target_id.0) {
                    return true;
                }
                match &self.state.active {
                    Some(a) => {
                        if a.has_meter(c.target_id) {
                            a.has_room_for_taken(c.target_id, c.damage)
                        } else if c.target_id == c.source_id {
                            c.damage <= u64::MAX - a.total_damage_taken
                        } else {
                            true
                        }
                    },
                    None => true,
                }
            },
            GameEvent::Heal(h) => {
                if !self.names.contains_key(&h.source_id.0) {
                    return true;
                }
                let overheal = overheal_of(self.stats_cache.get(&h.target_id.0), h.damage);
                match &self.state.active {
                    Some(a) => a.has_room_for_heal(h.source_id, h.damage, overheal),
                    None => true,
                }
            },
            GameEvent::EntityStats { id, stats } => {
                let prev_state = match self.stats_cache.get(&id.0) { Some(s) => s.actor_state, None => None };
                let mut merged = match self.stats_cache.get(&id.0) { Some(s) => *s, None => CharStats::empty() };
                merged.merge(stats);
                let was_dead = match prev_state { Some(p) => p == ACTOR_STATE_DEAD, None => false };
                let now_dead = match merged.actor_state { Some(ns) => ns == ACTOR_STATE_DEAD, None => false };
                let player = match self.is_player.get(&id.0) { Some(p) => *p, None => false };
                if now_dead && !was_dead && player {
                    match &self.state.active {
                        Some(a) => a.has_room_for_death(*id),
                        None => true,
                    }
                } else {
                    true
                }
            },
            GameEvent::ShieldList { id, shields } => {
                let ghost seen0 = seen_of(self.books(), id.0);
                let mut seen: HashSet<i64> = HashSet::new();
                let mut gain: u128 = 0;
                let n = shields.len();
                let mut i: usize = 0;
                assert(shields@.take(0) =~= Seq::<ShieldEntry>::empty());
                while i < n
                    invariant
                        n == shields@.len(),
                        i <= n,
                        gain <= i * 0x8000_0000_0000_0000,
                        seen0 == seen_of(self.books(), id.0),
                        (seen@.union(seen0), gain as int) == shield_scan(seen0, shields@.take(i as int)),
                    decreases n - i,
                {
                    let sh = shields[i];
                    assert(shields@.take(i + 1).drop_last() =~= shields@.take(i as int));
                    assert(shields@.take(i + 1).last() == sh);
                    let known = match self.shield_seen.get(&id.0) {
                        Some(st) => st.contains(&sh.uuid),
                        None => false,
                    };
                    proof {
                        if self.shield_seen@.contains_key(id.0) {
                            assert(self.books().shields_seen[id.0] == self.shield_seen@[id.0]@);
                        }
                    }
                    assert(known == seen0.contains(sh.uuid));
                    let fresh = !known && !seen.contains(&sh.uuid);
                    assert(fresh == !shield_scan(seen0, shields@.take(i as int)).0.contains(sh.uuid));
                    seen.insert(sh.uuid);
                    if fresh && sh.initial_value > 0 {
                        gain = gain + sh.initial_value as u128;
                    }
                    proof {
                        assert(seen@.union(seen0) =~= shield_scan(seen0, shields@.take(i as int)).0.insert(sh.uuid));
                    }
                    i = i + 1;
                }
                assert(shields@.take(n as int) =~= shields@);
                if gain > u64::MAX as u128 {
                    return false;
                }
                match &self.state.active {
                    Some(a) => a.has_room_for_shield(*id, gain as u64),
                    None => true,
                }
            },
            GameEvent::DungeonPhaseSignal { targets, .. } => {
                match &self.state.active {
                    Some(a) => a.phases.len() as u128 + targets.len() as u128 + 2 <= u64::MAX as u128,
                    None => true,
                }
            },
            _ => true,
        }
    }
}

/// One event of an update: where the counters have room for it, it does
/// what `handle_event` does; otherwise it is skipped and nothing changes.
pub open spec fn event_step(o: DpsTracker, f: DpsTracker, ev: GameEvent, now_us: u64) -> bool {
    if o.room_for(&ev) {
        &&& f.wf()
        &&& f.books() == books_after(o.books(), ev.view())
        &&& event_effect(o, f, ev.view(), now_us)
        &&& f.pending_gear_resave == o.pending_gear_resave
        &&& f.bench_active == o.bench_active
        &&& f.bench_config == o.bench_config
    } else {
        f == o
    }
}

/// The trackers before each event and after the last one.
pub open spec fn events_trace(ts: Seq<DpsTracker>, evs: Seq<GameEvent>, now_us: u64) -> bool {
    &&& ts.len() == evs.len() + 1
    &&& forall|i: int| 0 <= i < evs.len() ==> #[trigger] event_step(ts[i], ts[i + 1], evs[i], now_us)
}

/// How many of the first `k` events were skipped for want of room.
pub open spec fn skips(ts: Seq<DpsTracker>, evs: Seq<GameEvent>, k: int) -> nat
    decreases k,
{
    if k <= 0 { 0 } else { skips(ts, evs, k - 1) + if ts[k - 1].room_for(&evs[k - 1]) { 0nat } else { 1nat } }
}

/// A running benchmark whose time is up at `now_us`.
pub open spec fn bench_due(t: DpsTracker, now_us: u64) -> bool {
    &&& t.bench_active
    &&& t.bench_start matches Some(st)
    &&& (if now_us >= st { (now_us - st) / 1_000_000 } else { 0 }) >= t.bench_config.duration_secs
}

/// The encounters once a benchmark whose time is up has ended.
pub open spec fn after_bench(t: DpsTracker, now_us: u64) -> DpsModel {
    if bench_due(t, now_us) { finish_spec(t.state.model(), now_us) } else { t.state.model() }
}

/// A shield list handed to the meter again in a later update adds no
/// shield gain: with no benchmark running, the encounters after the second
/// update are those after the first. The traces are those that `update`
/// states, for one update holding the list and a later one holding it again.
pub proof fn lemma_update_repeats_shields(first: Seq<DpsTracker>, second: Seq<DpsTracker>, ev: GameEvent,
    id: EntityId, shields: Seq<ShieldEntry>, now1: u64, now2: u64, between: DpsTracker)
    requires
        ev.view() == (EventView::ShieldList { id, shields }),
        events_trace(first, seq![ev], now1),
        first[0].room_for(&ev),
        between.books() == first.last().books(),
        between.state.model() == (DpsModel { newly_finished: Seq::empty(), ..after_bench(first.last(), now1) }),
        !between.bench_active,
        events_trace(second, seq![ev], now2),
        second[0] == between,
    ensures
        (DpsModel { newly_finished: Seq::empty(), ..after_bench(second.last(), now2) }) == between.state.model(),
{
    assert(event_step(first[0], first[1], seq![ev][0], now1));
    assert(event_step(second[0], second[1], seq![ev][0], now2));
    if second[0].room_for(&ev) {
        lemma_repeated_shields_add_nothing(first[0], second[0], second[1], id, shields, now2);
    }
    assert(!bench_due(second[1], now2));
}

/// What the meter asks of its owner after an update.
pub struct UpdateOutput {
    /// Encounters to save, in order: those due to be saved again, then
    /// the ones that just finished.
    pub saves: Vec<Encounter>,
    /// Just-finished encounters to report to the webhook.
    pub reports: Vec<Encounter>,
    /// Events left out because a counter had no room for them.
    pub skipped: u64,
}

/// When reports go out.
#[derive(Clone, Copy, PartialEq, Eq, Debug, Structural)]
pub struct ReportPolicy {
    pub enabled: bool,
    pub has_webhook: bool,
    pub min_players: u64,
}

/// How long after an encounter ends it is saved once more, so that gear
/// and loadout data arriving just after the fight make it into the file.
pub const GEAR_RESAVE_DELAY_US: u64 = 3_000_000;

/// How many of the meters belong to known players.
pub open spec fn party_size(s: Seq<(u64, MeterModel)>, is_player: Map<u64, bool>) -> nat
    decreases s.len(),
{
    if s.len() == 0 {
        0
    } else {
        party_size(s.drop_last(), is_player) + if player_flag(is_player, s.last().0) { 1nat } else { 0nat }
    }
}

/// Whether a finished encounter is reported.
pub open spec fn reported(g: ReportPolicy, e: EncounterModel, is_player: Map<u64, bool>) -> bool {
    g.enabled && g.has_webhook && party_size(e.meters, is_player) >= g.min_players
}

pub open spec fn models_of(s: Seq<Encounter>) -> Seq<EncounterModel> {
    s.map_values(|e: Encounter| e.model())
}

pub open spec fn pending_models(s: Seq<(u64, Encounter)>) -> Seq<(u64, EncounterModel)> {
    s.map_values(|p: (u64, Encounter)| (p.0, p.1.model()))
}

impl DpsTracker {
    /// What a benchmark measured in the active encounter.
    fn bench_summary(&self, enc: &Encounter, now_us: u64) -> (r: BenchSummary)
        requires
            enc.wf(),
        ensures
            r.duration_us == bench_duration(self.bench_start, enc.model(), now_us),
            r.total_damage == enc.total_damage,
            r.hit_count == hits_sum(enc.model().meters),
            r.crit_count == crits_sum(enc.model().meters),
            bench_skills_ok(r.skills@),
            bench_tallied(r.skills@, flat_skills(enc.model().meters)),
    {
        let d = match self.bench_start {
            Some(st) => if now_us >= st { now_us - st } else { 0 },
            None => enc.elapsed(now_us),
        };
        let duration_us = if d < 1_000_000 { 1_000_000 } else { d };
        let ghost ms = enc.model().meters;
        let n = enc.meter_count();
        let mut hit_count: u128 = 0;
        let mut crit_count: u128 = 0;
        let mut merged: Vec<BenchSkill> = Vec::new();
        let mut j: usize = 0;
        assert(ms.take(0) =~= Seq::<(u64, MeterModel)>::empty());
        while j < n
            invariant
                enc.wf(),
                ms == enc.model().meters,
                n == ms.len(),
                j <= n,
                hit_count == hits_sum(ms.take(j as int)),
                crit_count == crits_sum(ms.take(j as int)),
                hit_count <= j * 0xffff_ffff_ffff_ffffu128,
                crit_count <= hit_count,
                forall|a: int, b: int| 0 <= a < b < merged@.len() ==> #[trigger] merged@[a].skill_id != #[trigger] merged@[b].skill_id,
                bench_tallied(merged@, flat_skills(ms.take(j as int))),
            decreases n - j,
        {
            let m = enc.meter_at(j);
            assert(ms[j as int].1 == m.model());
            assert(ms.take(j + 1).drop_last() =~= ms.take(j as int));
            proof {
                assert(j * 0xffff_ffff_ffff_ffffu128 + 0xffff_ffff_ffff_ffffu128 == (j + 1) * 0xffff_ffff_ffff_ffffu128) by (nonlinear_arith);
                assert((j + 1) * 0xffff_ffff_ffff_ffffu128 <= 0x1_0000_0000_0000_0000u128 * 0xffff_ffff_ffff_ffffu128) by (nonlinear_arith)
                    requires j + 1 <= 0x1_0000_0000_0000_0000u128;
                assert(enc.meters()[j as int].1.wf());
            }
            hit_count = hit_count + m.damage_stats.hits as u128;
            crit_count = crit_count + m.damage_stats.crit_hits as u128 + m.damage_stats.crit_lucky_hits as u128;
            let ns = m.skill_count();
            let ghost mk = m.skills().map_values(|e: (u32, crate::meter::SkillStat)| e.1);
            let ghost done = flat_skills(ms.take(j as int));
            proof {
                assert(mk.take(0) =~= Seq::<crate::meter::SkillStat>::empty());
                assert(done + mk.take(0) =~= done);
            }
            let mut k: usize = 0;
            while k < ns
                invariant
                    ns == m.skills().len(),
                    mk == m.skills().map_values(|e: (u32, crate::meter::SkillStat)| e.1),
                    k <= ns,
                    forall|a: int, b: int| 0 <= a < b < merged@.len() ==> #[trigger] merged@[a].skill_id != #[trigger] merged@[b].skill_id,
                    bench_tallied(merged@, done + mk.take(k as int)),
                decreases ns - k,
            {
                let sk = m.skill_at(k);
                let ghost b0 = merged@;
                let mut pos: usize = 0;
                while pos < merged.len() && merged[pos].skill_id != sk.skill_id
                    invariant
                        pos <= merged@.len(),
                        forall|q: int| 0 <= q < pos ==> merged@[q].skill_id != sk.skill_id,
                    decreases merged@.len() - pos,
                {
                    pos = pos + 1;
                }
                if pos < merged.len() {
                    let e = merged[pos];
                    let upd = BenchSkill {
                        skill_id: e.skill_id,
                        total: e.total.saturating_add(sk.stats.total),
                        hits: e.hits.saturating_add(sk.stats.hits),
                        crit_hits: e.crit_hits.saturating_add(sk.stats.crit_hits),
                        crit_lucky_hits: e.crit_lucky_hits.saturating_add(sk.stats.crit_lucky_hits),
                        max_hit: if sk.stats.max_hit > e.max_hit { sk.stats.max_hit } else { e.max_hit },
                    };
                    merged.set(pos, upd);
                } else {
                    merged.push(BenchSkill {
                        skill_id: sk.skill_id,
                        total: sk.stats.total,
                        hits: sk.stats.hits,
                        crit_hits: sk.stats.crit_hits,
                        crit_lucky_hits: sk.stats.crit_lucky_hits,
                        max_hit: sk.stats.max_hit,
                    });
                }
                proof {
                    assert(mk[k as int] == sk);
                    assert((done + mk.take(k as int)).push(sk) =~= done + mk.take(k + 1));
                    lemma_bench_merge(b0, merged@, pos as int, done + mk.take(k as int), sk);
                }
                k = k + 1;
            }
            proof {
                assert(mk.take(ns as int) =~= mk);
                assert(ms.take(j + 1).drop_last() =~= ms.take(j as int));
                assert(ms.take(j + 1).last() == ms[j as int]);
                assert(flat_skills(ms.take(j + 1)) == done + mk);
            }
            j = j + 1;
        }
        assert(ms.take(n as int) =~= ms);
        let ghost before_sort = merged@;
        let skills = sort_bench_skills(merged);
        proof {
            lemma_bench_perm(before_sort, skills@, flat_skills(ms));
        }
        BenchSummary { duration_us, total_damage: enc.total_damage, hit_count, crit_count, skills }
    }

    /// Ends a benchmark: measures it, then ends its encounter now.
    pub fn bench_finish(&mut self, now_us: u64)
        requires
            old(self).wf(),
        ensures
            final(self).wf(),
            final(self).books() == old(self).books(),
            final(self).state.model() == finish_spec(old(self).state.model(), now_us),
            final(self).pending_gear_resave == old(self).pending_gear_resave,
            !final(self).bench_active,
            final(self).bench_start is None,
            final(self).bench_target is None,
            final(self).bench_config == old(self).bench_config,
            match old(self).state.active {
                Some(e) => final(self).bench_result matches Some(r) && {
                    &&& r.duration_us == bench_duration(old(self).bench_start, e.model(), now_us)
                    &&& r.total_damage == e.total_damage
                    &&& r.hit_count == hits_sum(e.model().meters)
                    &&& r.crit_count == crits_sum(e.model().meters)
                    &&& bench_skills_ok(r.skills@)
                    &&& bench_tallied(r.skills@, flat_skills(e.model().meters))
                },
                None => final(self).bench_result == old(self).bench_result,
            },
    {
        match &self.state.active {
            Some(enc) => {
                let r = self.bench_summary(enc, now_us);
                self.bench_result = Some(r);
            },
            None => {},
        }
        self.state.finish_active(now_us);
        self.bench_active = false;
        self.bench_start = None;
        self.bench_target = None;
    }

    /// The meters of an encounter that belong to known players, counted.
    fn party_count(&self, enc: &Encounter) -> (r: u64)
        requires
            enc.wf(),
        ensures
            r == party_size(enc.model().meters, self.is_player@),
    {
        let ghost ms = enc.model().meters;
        let n = enc.meter_count();
        let mut c: u64 = 0;
        let mut j: usize = 0;
        assert(ms.take(0) =~= Seq::<(u64, MeterModel)>::empty());
        while j < n
            invariant
                enc.wf(),
                ms == enc.model().meters,
                n == ms.len(),
                j <= n,
                c == party_size(ms.take(j as int), self.is_player@),
                c <= j,
            decreases n - j,
        {
            let m = enc.meter_at(j);
            let k = m.entity_id.0;
            assert(enc.meters()[j as int].1.entity_id.0 == enc.meters()[j as int].0);
            assert(ms[j as int].0 == k);
            assert(ms.take(j + 1).drop_last() =~= ms.take(j as int));
            let flag = match self.is_player.get(&k) { Some(p) => *p, None => false };
            if flag {
                c = c + 1;
            }
            j = j + 1;
        }
        assert(ms.take(n as int) =~= ms);
        c
    }

    /// One update of the meter at `now_us`: applies the events (skipping
    /// those a counter has no room for), ends a benchmark whose time is up,
    /// and returns the encounters to save again, the ones that just ended
    /// (to save), and those of them the policy selects (to send).
    pub fn update(&mut self, events: Vec<GameEvent>, now_us: u64, policy: ReportPolicy) -> (out: UpdateOutput)
        requires
            old(self).wf(),
        ensures
            final(self).wf(),
            final(self).state.newly_finished@.len() == 0,
            final(self).bench_config == old(self).bench_config,
            ({
                let old_pending = pending_models(old(self).pending_gear_resave@);
                let due = old_pending.filter(|p: (u64, EncounterModel)| p.0 <= now_us);
                let kept = old_pending.filter(|p: (u64, EncounterModel)| p.0 > now_us);
                let new_pending = pending_models(final(self).pending_gear_resave@);
                let fresh = new_pending.skip(kept.len() as int);
                &&& new_pending.len() >= kept.len()
                &&& new_pending.take(kept.len() as int) == kept
                &&& forall|i: int| 0 <= i < fresh.len() ==> (#[trigger] fresh[i]).0
                    == (if now_us <= u64::MAX - GEAR_RESAVE_DELAY_US { (now_us + GEAR_RESAVE_DELAY_US) as u64 } else { u64::MAX })
                &&& models_of(out.saves@) == due.map_values(|p: (u64, EncounterModel)| p.1)
                    + fresh.map_values(|p: (u64, EncounterModel)| p.1)
                &&& models_of(out.reports@) == fresh.map_values(|p: (u64, EncounterModel)| p.1)
                    .filter(|e: EncounterModel| reported(policy, e, final(self).is_player@))
            }),
            forall|i: int| 0 <= i < out.saves@.len() ==> (#[trigger] out.saves@[i]).wf(),
            forall|i: int| 0 <= i < out.reports@.len() ==> (#[trigger] out.reports@[i]).wf(),
            exists|ts: Seq<DpsTracker>| {
                &&& #[trigger] events_trace(ts, events@, now_us)
                &&& ts[0] == *old(self)
                &&& out.skipped == skips(ts, events@, events@.len() as int)
                &&& final(self).books() == ts.last().books()
                &&& final(self).state.model() == (DpsModel { newly_finished: Seq::empty(), ..after_bench(ts.last(), now_us) })
                &&& pending_models(final(self).pending_gear_resave@)
                        .skip(pending_models(old(self).pending_gear_resave@).filter(|p: (u64, EncounterModel)| p.0 > now_us).len() as int)
                        .map_values(|p: (u64, EncounterModel)| p.1)
                    == after_bench(ts.last(), now_us).newly_finished
            },
    {
        self.state.tick();
        let mut skipped: u64 = 0;
        let n = events.len();
        let mut i: usize = 0;
        let ghost p0 = self.pending_gear_resave;
        let ghost cfg0 = self.bench_config;
        let ghost mut ts: Seq<DpsTracker> = seq![*self];
        while i < n
            invariant
                self.wf(),
                n == events@.len(),
                i <= n,
                skipped <= i,
                self.pending_gear_resave == p0,
                self.bench_config == cfg0,
                ts.len() == i + 1,
                ts[0] == *old(self),
                ts.last() == *self,
                forall|j: int| 0 <= j < i ==> #[trigger] event_step(ts[j], ts[j + 1], events@[j], now_us),
                skipped == skips(ts, events@, i as int),
            decreases n - i,
        {
            let ev = &events[i];
            let ghost before = *self;
            let ghost t0 = ts;
            if self.has_room_for(ev) {
                self.handle_event(ev, now_us);
            } else {
                skipped = skipped + 1;
            }
            proof {
                ts = ts.push(*self);
                assert(event_step(ts[i as int], ts[i + 1], events@[i as int], now_us));
                assert forall|j: int| 0 <= j < i + 1 implies #[trigger] event_step(ts[j], ts[j + 1], events@[j], now_us) by {
                    if j < i {
                        assert(ts[j] == t0[j] && ts[j + 1] == t0[j + 1]);
                    }
                }
                assert forall|k: int| 0 <= k <= i implies skips(ts, events@, k) == skips(t0, events@, k) by {
                    lemma_skips_prefix(t0, ts, events@, k);
                }
            }
            i = i + 1;
        }
        let ghost last = *self;
        assert(events_trace(ts, events@, now_us));

        if self.bench_active {
            match self.bench_start {
                Some(st) => {
                    let elapsed_secs = if now_us >= st { (now_us - st) / 1_000_000 } else { 0 };
                    if elapsed_secs >= self.bench_config.duration_secs as u64 {
                        self.bench_finish(now_us);
                    }
                },
                None => {},
            }
        }

        let ghost mid = self.state.model();
        assert(mid == after_bench(last, now_us));
        assert(self.books() == last.books());
        let ghost old_pending = pending_models(p0@);
        let mut saves: Vec<Encounter> = Vec::new();
        let mut kept: Vec<(u64, Encounter)> = Vec::new();
        let mut pending: Vec<(u64, Encounter)> = Vec::new();
        std::mem::swap(&mut pending, &mut self.pending_gear_resave);
        let np = pending.len();
        let mut q: usize = 0;
        proof {
            assert(old_pending.take(0) =~= Seq::<(u64, EncounterModel)>::empty());
            lemma_filter_empty(old_pending.take(0), |p: (u64, EncounterModel)| p.0 <= now_us);
            lemma_filter_empty(old_pending.take(0), |p: (u64, EncounterModel)| p.0 > now_us);
        }
        while q < np
            invariant
                pending@ == p0@,
                old_pending == pending_models(p0@),
                np == pending@.len(),
                q <= np,
                forall|a: int| 0 <= a < pending@.len() ==> (#[trigger] pending@[a]).1.wf(),
                forall|a: int| 0 <= a < saves@.len() ==> (#[trigger] saves@[a]).wf(),
                forall|a: int| 0 <= a < kept@.len() ==> (#[trigger] kept@[a]).1.wf(),
                models_of(saves@) == old_pending.take(q as int).filter(|p: (u64, EncounterModel)| p.0 <= now_us)
                    .map_values(|p: (u64, EncounterModel)| p.1),
                pending_models(kept@) == old_pending.take(q as int).filter(|p: (u64, EncounterModel)| p.0 > now_us),
            decreases np - q,
        {
            let entry = &pending[q];
            let d = entry.1.duplicate();
            let ghost sv = saves@;
            let ghost kv = kept@;
            proof {
                let t = old_pending.take(q + 1);
                assert(t.drop_last() =~= old_pending.take(q as int));
                assert(t.last() == (entry.0, entry.1.model()));
                lemma_filter_push(old_pending.take(q as int), |p: (u64, EncounterModel)| p.0 <= now_us, t.last());
                lemma_filter_push(old_pending.take(q as int), |p: (u64, EncounterModel)| p.0 > now_us, t.last());
                assert(old_pending.take(q as int).push(t.last()) =~= t);
            }
            if entry.0 <= now_us {
                saves.push(d);
                assert(models_of(saves@) =~= models_of(sv).push(d.model()));
            } else {
                kept.push((entry.0, d));
                assert(pending_models(kept@) =~= pending_models(kv).push((entry.0, d.model())));
            }
            q = q + 1;
        }
        assert(old_pending.take(np as int) =~= old_pending);

        let due_at: u64 = if now_us <= u64::MAX - GEAR_RESAVE_DELAY_US { now_us + GEAR_RESAVE_DELAY_US } else { u64::MAX };
        let mut finished: Vec<Encounter> = Vec::new();
        std::mem::swap(&mut finished, &mut self.state.newly_finished);
        let ghost kept_models = pending_models(kept@);
        let ghost saves0 = models_of(saves@);
        let mut reports: Vec<Encounter> = Vec::new();
        let nf = finished.len();
        let mut f: usize = 0;
        proof {
            assert(pending_models(kept@).skip(kept_models.len() as int) =~= Seq::<(u64, EncounterModel)>::empty());
            assert(pending_models(kept@).take(kept_models.len() as int) =~= kept_models);
            lemma_filter_empty(Seq::<EncounterModel>::empty(), |e: EncounterModel| reported(policy, e, self.is_player@));
            assert(Seq::<(u64, EncounterModel)>::empty().map_values(|p: (u64, EncounterModel)| p.1) =~= Seq::<EncounterModel>::empty());
            assert(saves0 + Seq::<EncounterModel>::empty() =~= saves0);
            assert(models_of(finished@).take(0) =~= Seq::<EncounterModel>::empty());
            assert(models(self.state.newly_finished@) =~= Seq::<EncounterModel>::empty());
        }
        while f < nf
            invariant
                self.wf(),
                nf == finished@.len(),
                f <= nf,
                kept_models.len() <= kept@.len(),
                pending_models(kept@).take(kept_models.len() as int) == kept_models,
                forall|a: int| 0 <= a < finished@.len() ==> (#[trigger] finished@[a]).wf(),
                forall|a: int| 0 <= a < saves@.len() ==> (#[trigger] saves@[a]).wf(),
                forall|a: int| 0 <= a < reports@.len() ==> (#[trigger] reports@[a]).wf(),
                forall|a: int| 0 <= a < kept@.len() ==> (#[trigger] kept@[a]).1.wf(),
                ({
                    let fresh = pending_models(kept@).skip(kept_models.len() as int);
                    &&& fresh.len() == f
                    &&& forall|a: int| 0 <= a < fresh.len() ==> (#[trigger] fresh[a]).0 == due_at
                    &&& models_of(saves@) == saves0 + fresh.map_values(|p: (u64, EncounterModel)| p.1)
                    &&& models_of(reports@) == fresh.map_values(|p: (u64, EncounterModel)| p.1)
                        .filter(|e: EncounterModel| reported(policy, e, self.is_player@))
                    &&& fresh.map_values(|p: (u64, EncounterModel)| p.1) == models_of(finished@).take(f as int)
                }),
                models_of(finished@) == mid.newly_finished,
                self.books() == last.books(),
                self.state.model() == (DpsModel { newly_finished: Seq::empty(), ..mid }),
            decreases nf - f,
        {
            let enc = &finished[f];
            let ghost kv = kept@;
            let ghost sv = saves@;
            let ghost rv = reports@;
            let s1 = enc.duplicate();
            saves.push(s1);
            let s2 = enc.duplicate();
            kept.push((due_at, s2));
            let players = self.party_count(enc);
            let report = policy.enabled && policy.has_webhook && players >= policy.min_players;
            proof {
                let fresh0 = pending_models(kv).skip(kept_models.len() as int);
                let fresh1 = pending_models(kept@).skip(kept_models.len() as int);
                assert(pending_models(kept@) =~= pending_models(kv).push((due_at, enc.model())));
                assert(fresh1 =~= fresh0.push((due_at, enc.model())));
                assert(pending_models(kept@).take(kept_models.len() as int) =~= pending_models(kv).take(kept_models.len() as int));
                assert(fresh1.map_values(|p: (u64, EncounterModel)| p.1) =~= fresh0.map_values(|p: (u64, EncounterModel)| p.1).push(enc.model()));
                assert(models_of(saves@) =~= models_of(sv).push(enc.model()));
                assert(models_of(finished@).take(f + 1) =~= models_of(finished@).take(f as int).push(enc.model()));
                lemma_filter_push(fresh0.map_values(|p: (u64, EncounterModel)| p.1),
                    |e: EncounterModel| reported(policy, e, self.is_player@), enc.model());
            }
            if report {
                let r = enc.duplicate();
                reports.push(r);
                assert(models_of(reports@) =~= models_of(rv).push(enc.model()));
            }
            f = f + 1;
        }
        self.pending_gear_resave = kept;
        proof {
            assert(models_of(finished@).take(nf as int) =~= models_of(finished@));
            assert(self.state.model() == (DpsModel { newly_finished: Seq::empty(), ..after_bench(last, now_us) }));
        }
        UpdateOutput { saves, reports, skipped }
    }
}

proof fn lemma_skips_prefix(a: Seq<DpsTracker>, b: Seq<DpsTracker>, evs: Seq<GameEvent>, k: int)
    requires
        k <= a.len(),
        a.len() <= b.len(),
        forall|j: int| 0 <= j < a.len() ==> a[j] == b[j],
    ensures
        skips(a, evs, k) == skips(b, evs, k),
    decreases k,
{
    if k > 0 {
        lemma_skips_prefix(a, b, evs, k - 1);
        assert(a[k - 1] == b[k - 1]);
    }
}

/// Sorts benchmark skills, most damaging first.
fn sort_bench_skills(v: Vec<BenchSkill>) -> (r: Vec<BenchSkill>)
    requires
        forall|a: int, b: int| 0 <= a < b < v@.len() ==> #[trigger] v@[a].skill_id != #[trigger] v@[b].skill_id,
    ensures
        bench_skills_ok(r@),
        r@.to_multiset() == v@.to_multiset(),
{
    let mut out: Vec<BenchSkill> = Vec::new();
    let mut i: usize = 0;
    proof {
        assert(v@.take(0) =~= Seq::<BenchSkill>::empty());
    }
    while i < v.len()
        invariant
            i <= v@.len(),
            forall|a: int, b: int| 0 <= a < b < v@.len() ==> #[trigger] v@[a].skill_id != #[trigger] v@[b].skill_id,
            out@.to_multiset() == v@.take(i as int).to_multiset(),
            forall|a: int, b: int| 0 <= a < b < out@.len() ==> #[trigger] out@[a].total >= #[trigger] out@[b].total,
            forall|a: int| 0 <= a < out@.len() ==> exists|k: int| 0 <= k < i && #[trigger] out@[a] == v@[k],
            forall|a: int, b: int| 0 <= a < b < out@.len() ==> #[trigger] out@[a].skill_id != #[trigger] out@[b].skill_id,
            out@.len() == i,
        decreases v@.len() - i,
    {
        let item = v[i];
        let mut pos: usize = out.len();
        while pos > 0 && out[pos - 1].total < item.total
            invariant
                pos <= out@.len(),
                forall|q: int| pos <= q < out@.len() ==> out@[q].total < item.total,
            decreases pos,
        {
            pos = pos - 1;
        }
        let ghost before = out@;
        out.insert(pos, item);
        proof {
            broadcast use vstd::seq_lib::group_to_multiset_ensures;
            assert(v@.take(i + 1) =~= v@.take(i as int).push(item));
            assert forall|a: int, b: int| 0 <= a < b < out@.len() implies out@[a].total >= out@[b].total by {
                if b < pos {
                    assert(out@[a] == before[a] && out@[b] == before[b]);
                } else if b == pos {
                    assert(out@[a] == before[a]);
                    if pos > 0 {
                        assert(before[pos - 1].total >= item.total);
                    }
                } else if a < pos {
                    assert(out@[a] == before[a] && out@[b] == before[b - 1]);
                } else if a == pos {
                    assert(out@[b] == before[b - 1]);
                } else {
                    assert(out@[a] == before[a - 1] && out@[b] == before[b - 1]);
                }
            }
            assert forall|a: int| 0 <= a < out@.len() implies exists|k: int| 0 <= k < i + 1 && #[trigger] out@[a] == v@[k] by {
                if a < pos {
                    assert(out@[a] == before[a]);
                } else if a == pos {
                    assert(out@[a] == v@[i as int]);
                } else {
                    assert(out@[a] == before[a - 1]);
                }
            }
            assert forall|a: int, b: int| 0 <= a < b < out@.len() implies out@[a].skill_id != out@[b].skill_id by {
                if a == pos || b == pos {
                    let other = if a == pos { b } else { a };
                    let o = if other < pos { other } else { other - 1 };
                    assert(out@[other] == before[o]);
                    let k = choose|k: int| 0 <= k < i && #[trigger] before[o] == v@[k];
                    assert(v@[k].skill_id != v@[i as int].skill_id);
                } else {
                    let ao = if a < pos { a } else { a - 1 };
                    let bo = if b < pos { b } else { b - 1 };
                    assert(out@[a] == before[ao] && out@[b] == before[bo]);
                }
            }
        }
        i = i + 1;
    }
    assert(v@.take(v@.len() as int) =~= v@);
    out
}

} // verus!
