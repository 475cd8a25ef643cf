//! What is kept of a finished encounter: per-entity records with their
//! skills, gear and per-phase breakdown, ready for the encounter store.

use vstd::prelude::*;
use crate::event::{EquipSlot, SkillLoadoutEntry};
use crate::seqs::{lemma_filter_empty, lemma_filter_push};
use crate::tables::DataTables;
use crate::labels::{class_label, class_name, class_of_spec, skill_spec, spec_of_skill, spec_to_class_id, str_eq};
use crate::event::CharStats;
use std::collections::HashMap;
use crate::meter::{log_total, skill_total_sum, HitKind, HitRecord, PlayerMeter, SkillStat};
use crate::encounter::{phases_model, Encounter, EncounterOutcome, PhaseMarker};

verus! {

/// One skill's damage, as stored.
#[derive(Clone, Copy, PartialEq, Eq, Debug, Structural)]
pub struct SavedSkillStat {
    pub skill_id: u32,
    pub total_dmg: u64,
    pub hits: u64,
    pub crits: u64,
    pub max_hit: u64,
}

/// One equipped item, with its name.
pub struct SavedGearSlot {
    pub slot: i32,
    pub item_id: i32,
    pub item_name: String,
}

/// One equipped Imagine, with its name.
pub struct SavedImagineEntry {
    pub skill_id: i32,
    pub tier: i32,
    pub name: String,
}

/// What an entity wore and which Imagines it had.
pub struct SavedGearInfo {
    pub gear: Vec<SavedGearSlot>,
    pub imagines: Vec<SavedImagineEntry>,
}

/// An entity's counters within one phase.
pub struct SavedPlayerPhaseStats {
    pub phase_index: usize,
    pub total_damage: u64,
    pub hits: u64,
    pub damage_taken: u64,
    pub total_healing: u64,
    pub skills: Vec<SavedSkillStat>,
}

/// One gear slot as the gear panel shows it.
pub struct GearSlotView {
    pub slot: i32,
    pub item_id: i32,
    pub item_name: String,
}

/// One Imagine as the gear panel shows it.
pub struct ImagineView {
    pub skill_id: i32,
    pub tier: i32,
    pub name: String,
}

/// A looked-up name, or the empty text.
pub open spec fn text_or_empty(o: Option<Seq<char>>) -> Seq<char> {
    match o {
        Some(t) => t,
        None => Seq::empty(),
    }
}

/// The gear rows: slot, item and item name.
pub open spec fn gear_rows(t: DataTables, slots: Seq<EquipSlot>) -> Seq<(i32, i32, Seq<char>)> {
    slots.map_values(|s: EquipSlot| (s.slot, s.item_id, text_or_empty(t.item_label(s.item_id))))
}

/// The loadout entries that are Imagines.
pub open spec fn imagine_entries(t: DataTables, skills: Seq<SkillLoadoutEntry>) -> Seq<SkillLoadoutEntry> {
    skills.filter(|s: SkillLoadoutEntry| t.imagine_skill(s.skill_id as u32))
}

/// The Imagine rows: skill, tier and skill name.
pub open spec fn imagine_rows(t: DataTables, skills: Seq<SkillLoadoutEntry>) -> Seq<(i32, i32, Seq<char>)> {
    imagine_entries(t, skills).map_values(|s: SkillLoadoutEntry| (s.skill_id, s.tier, text_or_empty(t.skill_label(s.skill_id as u32))))
}

impl SavedGearInfo {
    pub open spec fn gear_view(&self) -> Seq<(i32, i32, Seq<char>)> {
        self.gear@.map_values(|g: SavedGearSlot| (g.slot, g.item_id, g.item_name@))
    }

    pub open spec fn imagines_view(&self) -> Seq<(i32, i32, Seq<char>)> {
        self.imagines@.map_values(|g: SavedImagineEntry| (g.skill_id, g.tier, g.name@))
    }
}

pub open spec fn slot_views(v: Seq<GearSlotView>) -> Seq<(i32, i32, Seq<char>)> {
    v.map_values(|g: GearSlotView| (g.slot, g.item_id, g.item_name@))
}

pub open spec fn imagine_views(v: Seq<ImagineView>) -> Seq<(i32, i32, Seq<char>)> {
    v.map_values(|g: ImagineView| (g.skill_id, g.tier, g.name@))
}

/// A name looked up in the tables, or the empty text.
fn owned_or_empty(o: Option<&str>) -> (r: String)
    ensures
        r@ == text_or_empty(crate::tables::opt_text(o)),
{
    match o {
        Some(s) => String::from_str(s),
        None => String::new(),
    }
}

/// The gear rows of a slot list.
fn gear_list(tables: &DataTables, slots: &Vec<EquipSlot>) -> (r: Vec<SavedGearSlot>)
    ensures
        r@.map_values(|g: SavedGearSlot| (g.slot, g.item_id, g.item_name@)) == gear_rows(*tables, slots@),
{
    let mut out: Vec<SavedGearSlot> = Vec::new();
    let mut i: usize = 0;
    while i < slots.len()
        invariant
            i <= slots@.len(),
            out@.map_values(|g: SavedGearSlot| (g.slot, g.item_id, g.item_name@)) == gear_rows(*tables, slots@.take(i as int)),
        decreases slots@.len() - i,
    {
        let s = slots[i];
        let name = owned_or_empty(tables.item_name(s.item_id));
        let ghost before = out@;
        out.push(SavedGearSlot { slot: s.slot, item_id: s.item_id, item_name: name });
        proof {
            assert(slots@.take(i + 1) =~= slots@.take(i as int).push(s));
            assert(out@.map_values(|g: SavedGearSlot| (g.slot, g.item_id, g.item_name@))
                =~= before.map_values(|g: SavedGearSlot| (g.slot, g.item_id, g.item_name@)).push((s.slot, s.item_id, name@)));
            assert(gear_rows(*tables, slots@.take(i + 1)) =~= gear_rows(*tables, slots@.take(i as int)).push((s.slot, s.item_id, name@)));
        }
        i = i + 1;
    }
    assert(slots@.take(slots@.len() as int) =~= slots@);
    out
}

/// The Imagine rows of a loadout.
fn imagine_list(tables: &DataTables, skills: &Vec<SkillLoadoutEntry>) -> (r: Vec<SavedImagineEntry>)
    ensures
        r@.map_values(|g: SavedImagineEntry| (g.skill_id, g.tier, g.name@)) == imagine_rows(*tables, skills@),
{
    let mut out: Vec<SavedImagineEntry> = Vec::new();
    let mut i: usize = 0;
    proof {
        lemma_filter_empty(skills@.take(0), |s: SkillLoadoutEntry| tables.imagine_skill(s.skill_id as u32));
        assert(out@.map_values(|g: SavedImagineEntry| (g.skill_id, g.tier, g.name@)) =~= imagine_rows(*tables, skills@.take(0)));
    }
    while i < skills.len()
        invariant
            i <= skills@.len(),
            out@.map_values(|g: SavedImagineEntry| (g.skill_id, g.tier, g.name@)) == imagine_rows(*tables, skills@.take(i as int)),
        decreases skills@.len() - i,
    {
        let s = skills[i];
        let ghost before = out@;
        proof {
            assert(skills@.take(i + 1) =~= skills@.take(i as int).push(s));
            lemma_filter_push(skills@.take(i as int), |s: SkillLoadoutEntry| tables.imagine_skill(s.skill_id as u32), s);
        }
        if tables.skill_is_imagine(s.skill_id as u32) {
            let name = owned_or_empty(tables.skill_name(s.skill_id as u32));
            out.push(SavedImagineEntry { skill_id: s.skill_id, tier: s.tier, name });
            proof {
                assert(out@.map_values(|g: SavedImagineEntry| (g.skill_id, g.tier, g.name@))
                    =~= before.map_values(|g: SavedImagineEntry| (g.skill_id, g.tier, g.name@)).push((s.skill_id, s.tier, name@)));
                assert(imagine_rows(*tables, skills@.take(i + 1)) =~= imagine_rows(*tables, skills@.take(i as int)).push((s.skill_id, s.tier, name@)));
            }
        }
        i = i + 1;
    }
    assert(skills@.take(skills@.len() as int) =~= skills@);
    out
}

/// The saved gear of an entity with the given gear and loadout: nothing
/// where neither is known, else both lists with names from the tables.
pub open spec fn gear_info_of(r: Option<SavedGearInfo>, tables: DataTables, slots: Option<Seq<EquipSlot>>,
    skills: Option<Seq<SkillLoadoutEntry>>) -> bool {
    &&& r is None <==> (slots is None && skills is None)
    &&& r matches Some(info) ==> {
        &&& info.gear_view() == match slots { Some(v) => gear_rows(tables, v), None => Seq::empty() }
        &&& info.imagines_view() == match skills { Some(v) => imagine_rows(tables, v), None => Seq::empty() }
    }
}

/// What an entity wore and which Imagines it had, with names from the
/// tables; nothing where neither its gear nor its loadout is known.
pub fn build_gear_info(tables: &DataTables, slots: Option<&Vec<EquipSlot>>, skills: Option<&Vec<SkillLoadoutEntry>>) -> (r: Option<SavedGearInfo>)
    ensures
        gear_info_of(r, *tables,
            match slots { Some(v) => Some(v@), None => None },
            match skills { Some(v) => Some(v@), None => None }),
{
    if slots.is_none() && skills.is_none() {
        return None;
    }
    let gear = match slots {
        Some(v) => gear_list(tables, v),
        None => Vec::new(),
    };
    let imagines = match skills {
        Some(v) => imagine_list(tables, v),
        None => Vec::new(),
    };
    let info = SavedGearInfo { gear, imagines };
    assert(slots is None ==> info.gear_view() =~= Seq::empty());
    assert(skills is None ==> info.imagines_view() =~= Seq::empty());
    Some(info)
}

/// The gear panel's rows for an entity: its gear and its Imagines, with
/// names from the tables (empty lists where unknown).
pub fn to_gear_panel_views(tables: &DataTables, slots: Option<&Vec<EquipSlot>>, skills: Option<&Vec<SkillLoadoutEntry>>) -> (r: (Vec<GearSlotView>, Vec<ImagineView>))
    ensures
        slot_views(r.0@) == match slots { Some(v) => gear_rows(*tables, v@), None => Seq::empty() },
        imagine_views(r.1@) == match skills { Some(v) => imagine_rows(*tables, v@), None => Seq::empty() },
{
    let mut gear: Vec<GearSlotView> = Vec::new();
    match slots {
        Some(v) => {
            let rows = gear_list(tables, v);
            let mut i: usize = 0;
            while i < rows.len()
                invariant
                    i <= rows@.len(),
                    slot_views(gear@) == rows@.take(i as int).map_values(|g: SavedGearSlot| (g.slot, g.item_id, g.item_name@)),
                decreases rows@.len() - i,
            {
                let g = &rows[i];
                let ghost before = gear@;
                gear.push(GearSlotView { slot: g.slot, item_id: g.item_id, item_name: g.item_name.clone() });
                proof {
                    assert(rows@.take(i + 1) =~= rows@.take(i as int).push(rows@[i as int]));
                    assert(slot_views(gear@) =~= slot_views(before).push((g.slot, g.item_id, g.item_name@)));
                    assert(rows@.take(i + 1).map_values(|g: SavedGearSlot| (g.slot, g.item_id, g.item_name@))
                        =~= rows@.take(i as int).map_values(|g: SavedGearSlot| (g.slot, g.item_id, g.item_name@)).push((g.slot, g.item_id, g.item_name@)));
                }
                i = i + 1;
            }
            assert(rows@.take(rows@.len() as int) =~= rows@);
        },
        None => {
            assert(slot_views(gear@) =~= Seq::empty());
        },
    }
    let mut imagines: Vec<ImagineView> = Vec::new();
    match skills {
        Some(v) => {
            let rows = imagine_list(tables, v);
            let mut i: usize = 0;
            while i < rows.len()
                invariant
                    i <= rows@.len(),
                    imagine_views(imagines@) == rows@.take(i as int).map_values(|g: SavedImagineEntry| (g.skill_id, g.tier, g.name@)),
                decreases rows@.len() - i,
            {
                let g = &rows[i];
                let ghost before = imagines@;
                imagines.push(ImagineView { skill_id: g.skill_id, tier: g.tier, name: g.name.clone() });
                proof {
                    assert(rows@.take(i + 1) =~= rows@.take(i as int).push(rows@[i as int]));
                    assert(imagine_views(imagines@) =~= imagine_views(before).push((g.skill_id, g.tier, g.name@)));
                    assert(rows@.take(i + 1).map_values(|g: SavedImagineEntry| (g.skill_id, g.tier, g.name@))
                        =~= rows@.take(i as int).map_values(|g: SavedImagineEntry| (g.skill_id, g.tier, g.name@)).push((g.skill_id, g.tier, g.name@)));
                }
                i = i + 1;
            }
            assert(rows@.take(rows@.len() as int) =~= rows@);
        },
        None => {
            assert(imagine_views(imagines@) =~= Seq::empty());
        },
    }
    (gear, imagines)
}

/// The damage a meter's skills of one specialisation dealt.
pub open spec fn spec_damage(skills: Seq<(u32, SkillStat)>, name: Seq<char>) -> int
    decreases skills.len(),
{
    if skills.len() == 0 {
        0
    } else {
        spec_damage(skills.drop_last(), name)
            + if spec_of_skill(skills.last().0) == Some(name) { skills.last().1.stats.total as int } else { 0 }
    }
}

/// Some skill belongs to a specialisation.
pub open spec fn has_spec_skill(skills: Seq<(u32, SkillStat)>) -> bool {
    exists|i: int| 0 <= i < skills.len() && (#[trigger] spec_of_skill(skills[i].0)) is Some
}

/// A specialisation's damage is part of the skills' total.
proof fn lemma_spec_damage_bound(skills: Seq<(u32, SkillStat)>, name: Seq<char>)
    ensures
        0 <= spec_damage(skills, name) <= skill_total_sum(skills),
    decreases skills.len(),
{
    if skills.len() > 0 {
        lemma_spec_damage_bound(skills.drop_last(), name);
    }
}

/// A prefix's total is part of the whole's.
proof fn lemma_skill_total_prefix(skills: Seq<(u32, SkillStat)>, k: int)
    requires
        0 <= k <= skills.len(),
    ensures
        skill_total_sum(skills.take(k)) <= skill_total_sum(skills),
    decreases skills.len(),
{
    if k < skills.len() {
        lemma_skill_total_prefix(skills.drop_last(), k);
        assert(skills.drop_last().take(k) =~= skills.take(k));
    } else {
        assert(skills.take(k) =~= skills);
    }
}


/// The specialisation names, in the order the skill table lists them.
pub open spec fn spec_names() -> Seq<Seq<char>> {
    seq!["Iaido"@, "Moonstrike"@, "Icicle"@, "Frostbeam"@, "Formless"@, "Crimson"@, "Vanguard"@,
        "Skyward"@, "Smite"@, "Lifebind"@, "Earthfort"@, "Block"@, "Wildpack"@, "Falconry"@,
        "Recovery"@, "Shield"@, "Dissonance"@, "Concerto"@]
}

/// Every specialisation a skill names is listed.
proof fn lemma_spec_listed(id: u32)
    ensures
        spec_of_skill(id) matches Some(m) ==> spec_names().contains(m),
{
    if let Some(m) = spec_of_skill(id) {
        let v = spec_names();
        if m == "Iaido"@ { assert(v[0] == m); }
        else if m == "Moonstrike"@ { assert(v[1] == m); }
        else if m == "Icicle"@ { assert(v[2] == m); }
        else if m == "Frostbeam"@ { assert(v[3] == m); }
        else if m == "Formless"@ { assert(v[4] == m); }
        else if m == "Crimson"@ { assert(v[5] == m); }
        else if m == "Vanguard"@ { assert(v[6] == m); }
        else if m == "Skyward"@ { assert(v[7] == m); }
        else if m == "Smite"@ { assert(v[8] == m); }
        else if m == "Lifebind"@ { assert(v[9] == m); }
        else if m == "Earthfort"@ { assert(v[10] == m); }
        else if m == "Block"@ { assert(v[11] == m); }
        else if m == "Wildpack"@ { assert(v[12] == m); }
        else if m == "Falconry"@ { assert(v[13] == m); }
        else if m == "Recovery"@ { assert(v[14] == m); }
        else if m == "Shield"@ { assert(v[15] == m); }
        else if m == "Dissonance"@ { assert(v[16] == m); }
        else { assert(v[17] == m); }
    }
}

fn spec_name_list() -> (v: Vec<&'static str>)
    ensures
        v@.map_values(|s: &'static str| s@) == spec_names(),
{
    let v: Vec<&'static str> = vec!["Iaido", "Moonstrike", "Icicle", "Frostbeam", "Formless", "Crimson", "Vanguard",
        "Skyward", "Smite", "Lifebind", "Earthfort", "Block", "Wildpack", "Falconry",
        "Recovery", "Shield", "Dissonance", "Concerto"];
    assert(v@.map_values(|s: &'static str| s@) =~= spec_names());
    v
}

/// The damage of one specialisation's skills, and whether any skill has it.
fn damage_of_spec(p: &PlayerMeter, name: &str) -> (r: (u64, bool))
    requires
        p.wf(),
    ensures
        r.0 == spec_damage(p.skills(), name@),
        r.1 == exists|i: int| 0 <= i < p.skills().len() && spec_of_skill(#[trigger] p.skills()[i].0) == Some(name@),
{
    let ghost sk = p.skills();
    let n = p.skill_count();
    let mut dmg: u64 = 0;
    let mut seen = false;
    let mut k: usize = 0;
    while k < n
        invariant
            p.wf(),
            sk == p.skills(),
            n == sk.len(),
            k <= n,
            dmg == spec_damage(sk.take(k as int), name@),
            seen == exists|i: int| 0 <= i < k && spec_of_skill(#[trigger] sk[i].0) == Some(name@),
        decreases n - k,
    {
        let st = p.skill_at(k);
        assert(sk[k as int].1.skill_id == sk[k as int].0);
        assert(sk.take(k + 1).drop_last() =~= sk.take(k as int));
        assert(sk.take(k + 1).last() == sk[k as int]);
        match skill_spec(st.skill_id) {
            Some(s) => {
                if str_eq(s, name) {
                    proof {
                        lemma_spec_damage_bound(sk.take(k + 1), name@);
                        lemma_skill_total_prefix(sk, k + 1);
                    }
                    dmg = dmg + st.stats.total;
                    seen = true;
                }
            },
            None => {},
        }
        k = k + 1;
    }
    assert(sk.take(n as int) =~= sk);
    (dmg, seen)
}

/// The specialisation a meter's damage points to: the one whose skills
/// dealt the most (any of them on a tie); none when no skill tells.
pub fn player_spec(p: &PlayerMeter) -> (r: Option<&'static str>)
    requires
        p.wf(),
    ensures
        r is None <==> !has_spec_skill(p.skills()),
        r matches Some(n) ==> {
            &&& exists|i: int| 0 <= i < p.skills().len() && spec_of_skill(#[trigger] p.skills()[i].0) == Some(n@)
            &&& forall|i: int| 0 <= i < p.skills().len() && (#[trigger] spec_of_skill(p.skills()[i].0)) is Some
                ==> spec_damage(p.skills(), spec_of_skill(p.skills()[i].0)->0) <= spec_damage(p.skills(), n@)
        },
{
    let ghost sk = p.skills();
    let names = spec_name_list();
    let ghost nv = names@.map_values(|s: &'static str| s@);
    let mut best: Option<&'static str> = None;
    let mut best_dmg: u64 = 0;
    let mut j: usize = 0;
    while j < names.len()
        invariant
            p.wf(),
            sk == p.skills(),
            nv == names@.map_values(|s: &'static str| s@),
            nv == spec_names(),
            j <= names@.len(),
            best is None <==> forall|q: int| 0 <= q < j ==> !(exists|i: int| 0 <= i < sk.len() && spec_of_skill(#[trigger] sk[i].0) == Some(#[trigger] nv[q])),
            best matches Some(b) ==> {
                &&& best_dmg == spec_damage(sk, b@)
                &&& exists|i: int| 0 <= i < sk.len() && spec_of_skill(#[trigger] sk[i].0) == Some(b@)
            },
            forall|q: int| 0 <= q < j && (exists|i: int| 0 <= i < sk.len() && spec_of_skill(#[trigger] sk[i].0) == Some(#[trigger] nv[q]))
                ==> spec_damage(sk, nv[q]) <= best_dmg,
        decreases names@.len() - j,
    {
        let name = names[j];
        let (d, present) = damage_of_spec(p, name);
        assert(nv[j as int] == name@);
        if present && (best.is_none() || d >= best_dmg) {
            best = Some(name);
            best_dmg = d;
        }
        j = j + 1;
    }
    proof {
        assert forall|i: int| 0 <= i < sk.len() && (#[trigger] spec_of_skill(sk[i].0)) is Some
            implies exists|q: int| 0 <= q < nv.len() && spec_of_skill(sk[i].0) == Some(#[trigger] nv[q]) by {
            lemma_spec_listed(sk[i].0);
            let m = spec_of_skill(sk[i].0)->0;
            assert(spec_names().contains(m));
            let q = choose|q: int| 0 <= q < spec_names().len() && spec_names()[q] == m;
            assert(nv[q] == m);
        }
        if best is None {
            assert(!has_spec_skill(sk)) by {
                if has_spec_skill(sk) {
                    let i = choose|i: int| 0 <= i < sk.len() && (#[trigger] spec_of_skill(sk[i].0)) is Some;
                    let q = choose|q: int| 0 <= q < nv.len() && spec_of_skill(sk[i].0) == Some(#[trigger] nv[q]);
                    assert(exists|i2: int| 0 <= i2 < sk.len() && spec_of_skill(#[trigger] sk[i2].0) == Some(nv[q]));
                }
            }
        } else {
            assert forall|i: int| 0 <= i < sk.len() && (#[trigger] spec_of_skill(sk[i].0)) is Some
                implies spec_damage(sk, spec_of_skill(sk[i].0)->0) <= spec_damage(sk, best->0@) by {
                let q = choose|q: int| 0 <= q < nv.len() && spec_of_skill(sk[i].0) == Some(#[trigger] nv[q]);
                assert(exists|i2: int| 0 <= i2 < sk.len() && spec_of_skill(#[trigger] sk[i2].0) == Some(nv[q]));
            }
        }
    }
    best
}

/// The time span of phase `i`: the first phase runs from the start to the
/// first marker, each marked phase to the next marker or the end.
pub open spec fn phase_range(starts: Seq<u64>, total: u64, i: int) -> (u64, u64) {
    if i == 0 {
        (0, starts[0])
    } else {
        (starts[i - 1], if i < starts.len() { starts[i] } else { total })
    }
}

/// Whether a hit at `t` falls in phase `i` (a span reaching the end takes
/// everything from its start on).
pub open spec fn in_phase(starts: Seq<u64>, total: u64, i: int, t: u64) -> bool {
    let r = phase_range(starts, total, i);
    r.0 <= t && (t < r.1 || r.1 >= total)
}

/// The first phase from `i` on that a hit at `t` falls in, or -1.
pub open spec fn bucket_from(starts: Seq<u64>, total: u64, t: u64, i: int) -> int
    decreases starts.len() + 1 - i,
{
    if i < 0 || i > starts.len() {
        -1
    } else if in_phase(starts, total, i, t) {
        i
    } else {
        bucket_from(starts, total, t, i + 1)
    }
}

/// The phase a hit at `t` is counted in, or -1.
pub open spec fn bucket_of(starts: Seq<u64>, total: u64, t: u64) -> int {
    bucket_from(starts, total, t, 0)
}

/// The amounts of the logged hits of one kind counted in phase `b`.
pub open spec fn bucket_sum(log: Seq<HitRecord>, starts: Seq<u64>, total: u64, b: int, kind: HitKind) -> int
    decreases log.len(),
{
    if log.len() == 0 {
        0
    } else {
        let h = log.last();
        bucket_sum(log.drop_last(), starts, total, b, kind)
            + if h.kind == kind && bucket_of(starts, total, h.time_us) == b { h.amount as int } else { 0 }
    }
}

/// The number of damage hits counted in phase `b`.
pub open spec fn bucket_hits(log: Seq<HitRecord>, starts: Seq<u64>, total: u64, b: int) -> int
    decreases log.len(),
{
    if log.len() == 0 {
        0
    } else {
        let h = log.last();
        bucket_hits(log.drop_last(), starts, total, b)
            + if h.kind == HitKind::Damage && bucket_of(starts, total, h.time_us) == b { 1int } else { 0 }
    }
}

/// A phase's share of a kind is part of the whole.
proof fn lemma_bucket_sum_bound(log: Seq<HitRecord>, starts: Seq<u64>, total: u64, b: int, kind: HitKind)
    ensures
        0 <= bucket_sum(log, starts, total, b, kind) <= log_total(log, kind),
        0 <= bucket_hits(log, starts, total, b) <= log.len(),
    decreases log.len(),
{
    if log.len() > 0 {
        lemma_bucket_sum_bound(log.drop_last(), starts, total, b, kind);
    }
}

/// The log's totals by kind, for a prefix, never exceed the whole.
proof fn lemma_log_total_prefix(log: Seq<HitRecord>, k: int, kind: HitKind)
    requires
        0 <= k <= log.len(),
    ensures
        log_total(log.take(k), kind) <= log_total(log, kind),
    decreases log.len(),
{
    if k < log.len() {
        lemma_log_total_prefix(log.drop_last(), k, kind);
        assert(log.drop_last().take(k) =~= log.take(k));
    } else {
        assert(log.take(k) =~= log);
    }
}

/// Skills listed once each, most damaging first.
pub open spec fn phase_skills_ok(s: Seq<SavedSkillStat>) -> bool {
    &&& forall|i: int, j: int| 0 <= i < j < s.len() ==> #[trigger] s[i].skill_id != #[trigger] s[j].skill_id
    &&& forall|i: int, j: int| 0 <= i < j < s.len() ==> #[trigger] s[i].total_dmg >= #[trigger] s[j].total_dmg
}

/// The counters of one skill over the damage hits counted in phase `b`:
/// damage, hits, critical or lucky hits, and the largest hit.
pub open spec fn skill_tally(log: Seq<HitRecord>, starts: Seq<u64>, total: u64, b: int, skill: u32) -> (int, int, int, int)
    decreases log.len(),
{
    if log.len() == 0 {
        (0, 0, 0, 0)
    } else {
        let t = skill_tally(log.drop_last(), starts, total, b, skill);
        let h = log.last();
        if h.kind == HitKind::Damage && bucket_of(starts, total, h.time_us) == b && h.skill_id == skill {
            (t.0 + h.amount, t.1 + 1, t.2 + if h.is_crit || h.is_lucky { 1int } else { 0 },
                if h.amount > t.3 { h.amount as int } else { t.3 })
        } else {
            t
        }
    }
}

/// A skill entry holds the counters of its skill.
pub open spec fn tallied(e: SavedSkillStat, t: (int, int, int, int)) -> bool {
    e.total_dmg == t.0 && e.hits == t.1 && e.crits == t.2 && e.max_hit == t.3
}

/// A phase's skill list: each entry holds its skill's counters, and every
/// skill with a damage hit in the phase has an entry.
pub open spec fn skills_tallied(sk: Seq<SavedSkillStat>, log: Seq<HitRecord>, starts: Seq<u64>, total: u64, b: int) -> bool {
    &&& forall|a: int| 0 <= a < sk.len() ==> tallied(#[trigger] sk[a], skill_tally(log, starts, total, b, sk[a].skill_id))
    &&& forall|s: u32| #[trigger] skill_tally(log, starts, total, b, s).1 > 0
        ==> exists|a: int| 0 <= a < sk.len() && #[trigger] sk[a].skill_id == s
}

/// A skill without hits has nothing counted.
proof fn lemma_tally_empty(log: Seq<HitRecord>, starts: Seq<u64>, total: u64, b: int, skill: u32)
    ensures
        skill_tally(log, starts, total, b, skill).1 >= 0,
        skill_tally(log, starts, total, b, skill).1 == 0 ==> skill_tally(log, starts, total, b, skill) == (0int, 0int, 0int, 0int),
    decreases log.len(),
{
    if log.len() > 0 {
        lemma_tally_empty(log.drop_last(), starts, total, b, skill);
    }
}

/// A hit not counted in phase `b` leaves its skill lists as they are.
proof fn lemma_tallied_other(sk: Seq<SavedSkillStat>, log: Seq<HitRecord>, h: HitRecord, starts: Seq<u64>, total: u64, b: int)
    requires
        !(h.kind == HitKind::Damage && bucket_of(starts, total, h.time_us) == b),
        skills_tallied(sk, log, starts, total, b),
    ensures
        skills_tallied(sk, log.push(h), starts, total, b),
{
    let l1 = log.push(h);
    assert(l1.drop_last() =~= log);
    assert(l1.last() == h);
    assert forall|a: int| 0 <= a < sk.len() implies tallied(#[trigger] sk[a], skill_tally(l1, starts, total, b, sk[a].skill_id)) by {
        assert(skill_tally(l1, starts, total, b, sk[a].skill_id) == skill_tally(log, starts, total, b, sk[a].skill_id));
    }
    assert forall|s: u32| #[trigger] skill_tally(l1, starts, total, b, s).1 > 0
        implies exists|a: int| 0 <= a < sk.len() && #[trigger] sk[a].skill_id == s by {
        assert(skill_tally(l1, starts, total, b, s) == skill_tally(log, starts, total, b, s));
    }
}

/// Counting a damage hit of phase `b` into its skill's entry, or into a
/// new last entry where the skill had none.
proof fn lemma_tallied_hit(sk0: Seq<SavedSkillStat>, sk1: Seq<SavedSkillStat>, pos: int, log: Seq<HitRecord>, h: HitRecord,
    starts: Seq<u64>, total: u64, b: int)
    requires
        h.kind == HitKind::Damage,
        bucket_of(starts, total, h.time_us) == b,
        skills_tallied(sk0, log, starts, total, b),
        0 <= pos <= sk0.len(),
        forall|q: int| 0 <= q < pos ==> sk0[q].skill_id != h.skill_id,
        pos < sk0.len() ==> sk0[pos].skill_id == h.skill_id && sk1 == sk0.update(pos, SavedSkillStat {
            skill_id: h.skill_id,
            total_dmg: (sk0[pos].total_dmg + h.amount) as u64,
            hits: (sk0[pos].hits + 1) as u64,
            crits: (sk0[pos].crits + if h.is_crit || h.is_lucky { 1int } else { 0 }) as u64,
            max_hit: if h.amount > sk0[pos].max_hit { h.amount } else { sk0[pos].max_hit },
        }),
        pos == sk0.len() ==> sk1 == sk0.push(SavedSkillStat {
            skill_id: h.skill_id,
            total_dmg: h.amount,
            hits: 1,
            crits: if h.is_crit || h.is_lucky { 1 } else { 0 },
            max_hit: h.amount,
        }),
        pos < sk0.len() ==> sk0[pos].total_dmg + h.amount <= u64::MAX,
        pos < sk0.len() ==> sk0[pos].hits + 1 <= u64::MAX,
        pos < sk0.len() ==> sk0[pos].crits + 1 <= u64::MAX,
        forall|x: int, y: int| 0 <= x < y < sk0.len() ==> #[trigger] sk0[x].skill_id != #[trigger] sk0[y].skill_id,
    ensures
        skills_tallied(sk1, log.push(h), starts, total, b),
{
    let l1 = log.push(h);
    assert(l1.drop_last() =~= log);
    assert(l1.last() == h);
    lemma_tally_empty(log, starts, total, b, h.skill_id);
    assert forall|a: int| 0 <= a < sk1.len() implies tallied(#[trigger] sk1[a], skill_tally(l1, starts, total, b, sk1[a].skill_id)) by {
        if a == pos {
            if pos == sk0.len() {
                if skill_tally(log, starts, total, b, h.skill_id).1 > 0 {
                    let q = choose|q: int| 0 <= q < sk0.len() && #[trigger] sk0[q].skill_id == h.skill_id;
                    assert(false);
                }
            }
        } else {
            assert(sk1[a] == sk0[a]);
            if pos < sk0.len() {
                assert(sk0[a].skill_id != sk0[pos].skill_id);
            }
            assert(sk0[a].skill_id != h.skill_id);
        }
    }
    assert forall|s: u32| #[trigger] skill_tally(l1, starts, total, b, s).1 > 0
        implies exists|a: int| 0 <= a < sk1.len() && #[trigger] sk1[a].skill_id == s by {
        if s == h.skill_id {
            assert(sk1[pos].skill_id == s);
        } else {
            assert(skill_tally(l1, starts, total, b, s) == skill_tally(log, starts, total, b, s));
            let a = choose|a: int| 0 <= a < sk0.len() && #[trigger] sk0[a].skill_id == s;
            assert(sk1[a].skill_id == s);
        }
    }
}

/// Reordering a skill list keeps it tallied.
proof fn lemma_tallied_perm(a: Seq<SavedSkillStat>, c: Seq<SavedSkillStat>, log: Seq<HitRecord>, starts: Seq<u64>, total: u64, b: int)
    requires
        a.to_multiset() == c.to_multiset(),
        skills_tallied(a, log, starts, total, b),
    ensures
        skills_tallied(c, log, starts, total, b),
{
    broadcast use vstd::seq_lib::group_to_multiset_ensures;
    assert forall|x: int| 0 <= x < c.len() implies tallied(#[trigger] c[x], skill_tally(log, starts, total, b, c[x].skill_id)) by {
        assert(c.contains(c[x]));
        assert(c.to_multiset().count(c[x]) > 0);
        assert(a.to_multiset().count(c[x]) > 0);
        assert(a.contains(c[x]));
        let y = choose|y: int| 0 <= y < a.len() && a[y] == c[x];
        assert(tallied(a[y], skill_tally(log, starts, total, b, a[y].skill_id)));
    }
    assert forall|s: u32| #[trigger] skill_tally(log, starts, total, b, s).1 > 0
        implies exists|x: int| 0 <= x < c.len() && #[trigger] c[x].skill_id == s by {
        let y = choose|y: int| 0 <= y < a.len() && #[trigger] a[y].skill_id == s;
        assert(a.contains(a[y]));
        assert(a.to_multiset().count(a[y]) > 0);
        assert(c.to_multiset().count(a[y]) > 0);
        assert(c.contains(a[y]));
        let x = choose|x: int| 0 <= x < c.len() && c[x] == a[y];
        assert(c[x].skill_id == s);
    }
}

/// The phase starts of a list of markers.
pub open spec fn phase_starts(phases: Seq<PhaseMarker>) -> Seq<u64> {
    phases.map_values(|m: PhaseMarker| m.start_offset_us)
}

/// The per-phase counters of a hit log: none without markers, else one
/// entry per phase with the phase's sums and its skills listed once each,
/// most damaging first, each with its damage, hits, critical or lucky hits
/// and largest hit in the phase.
pub open spec fn phases_split(r: Seq<SavedPlayerPhaseStats>, log: Seq<HitRecord>, phases: Seq<PhaseMarker>, total: u64) -> bool {
    &&& phases.len() == 0 ==> r.len() == 0
    &&& phases.len() > 0 ==> {
        let st = phase_starts(phases);
        &&& r.len() == phases.len() + 1
        &&& forall|i: int| 0 <= i < r.len() ==> {
            &&& (#[trigger] r[i]).phase_index == i
            &&& r[i].total_damage == bucket_sum(log, st, total, i, HitKind::Damage)
            &&& r[i].hits == bucket_hits(log, st, total, i)
            &&& r[i].damage_taken == bucket_sum(log, st, total, i, HitKind::Taken)
            &&& r[i].total_healing == bucket_sum(log, st, total, i, HitKind::Heal)
            &&& phase_skills_ok(r[i].skills@)
            &&& skills_tallied(r[i].skills@, log, st, total, i)
        }
    }
}

/// Which phase a hit at `t` falls in.
fn find_bucket(phases: &[PhaseMarker], total: u64, t: u64) -> (r: Option<usize>)
    requires
        phases@.len() > 0,
        phases@.len() < usize::MAX,
    ensures
        match r {
            Some(i) => i as int == bucket_of(phase_starts(phases@), total, t) && i <= phases@.len(),
            None => bucket_of(phase_starts(phases@), total, t) == -1,
        },
{
    let ghost st = phase_starts(phases@);
    let n = phases.len();
    let mut i: usize = 0;
    while i <= n
        invariant
            n == phases@.len(),
            n > 0,
            n < usize::MAX,
            st == phase_starts(phases@),
            i <= n + 1,
            bucket_of(st, total, t) == bucket_from(st, total, t, i as int),
        decreases n + 1 - i,
    {
        let start = if i == 0 { 0 } else { phases[i - 1].start_offset_us };
        let end = if i < n { phases[i].start_offset_us } else { total };
        assert(phase_range(st, total, i as int) == (start, end));
        if start <= t && (t < end || end >= total) {
            return Some(i);
        }
        i = i + 1;
    }
    None
}

/// Counts of one phase while the log is read.
struct PhaseAcc {
    damage: u64,
    hits: u64,
    taken: u64,
    healing: u64,
    skills: Vec<SavedSkillStat>,
}

/// Splits an entity's logged hits into per-phase counters: phase 0 before
/// the first marker, phase `i + 1` from marker `i` on. Each phase lists its
/// skills once, most damaging first. No markers, no phases.
pub fn bucket_player_phases(p: &PlayerMeter, phases: &[PhaseMarker], total_elapsed_us: u64) -> (r: Vec<SavedPlayerPhaseStats>)
    requires
        p.wf(),
        phases@.len() < usize::MAX,
    ensures
        phases_split(r@, p.hit_log@, phases@, total_elapsed_us),
{
    let mut out: Vec<SavedPlayerPhaseStats> = Vec::new();
    if phases.len() == 0 {
        return out;
    }
    let ghost st = phase_starts(phases@);
    let ghost log = p.hit_log@;
    let nb = phases.len() + 1;
    let mut accs: Vec<PhaseAcc> = Vec::new();
    let mut b: usize = 0;
    while b < nb
        invariant
            nb == phases@.len() + 1,
            b <= nb,
            accs@.len() == b,
            forall|i: int| 0 <= i < b ==> {
                &&& (#[trigger] accs@[i]).damage == 0 && accs@[i].hits == 0 && accs@[i].taken == 0 && accs@[i].healing == 0
                &&& accs@[i].skills@.len() == 0
            },
        decreases nb - b,
    {
        accs.push(PhaseAcc { damage: 0, hits: 0, taken: 0, healing: 0, skills: Vec::new() });
        b = b + 1;
    }
    let n = p.hit_log.len();
    let mut k: usize = 0;
    while k < n
        invariant
            p.wf(),
            log == p.hit_log@,
            st == phase_starts(phases@),
            phases@.len() > 0,
            phases@.len() < usize::MAX,
            nb == phases@.len() + 1,
            n == log.len(),
            k <= n,
            accs@.len() == nb,
            forall|i: int| 0 <= i < nb ==> {
                &&& (#[trigger] accs@[i]).damage == bucket_sum(log.take(k as int), st, total_elapsed_us, i, HitKind::Damage)
                &&& accs@[i].hits == bucket_hits(log.take(k as int), st, total_elapsed_us, i)
                &&& accs@[i].taken == bucket_sum(log.take(k as int), st, total_elapsed_us, i, HitKind::Taken)
                &&& accs@[i].healing == bucket_sum(log.take(k as int), st, total_elapsed_us, i, HitKind::Heal)
                &&& forall|a: int, c: int| 0 <= a < c < accs@[i].skills@.len()
                    ==> #[trigger] accs@[i].skills@[a].skill_id != #[trigger] accs@[i].skills@[c].skill_id
                &&& forall|a: int| 0 <= a < accs@[i].skills@.len() ==> {
                    &&& (#[trigger] accs@[i].skills@[a]).total_dmg <= accs@[i].damage
                    &&& accs@[i].skills@[a].hits <= accs@[i].hits
                    &&& accs@[i].skills@[a].crits <= accs@[i].skills@[a].hits
                }
                &&& skills_tallied(accs@[i].skills@, log.take(k as int), st, total_elapsed_us, i)
            },
        decreases n - k,
    {
        let h = p.hit_log[k];
        let ghost t0 = log.take(k as int);
        let ghost t1 = log.take(k + 1);
        proof {
            assert(t1.drop_last() =~= t0);
            assert(t1.last() == h);
            assert(t1 =~= t0.push(h));
            lemma_bucket_sum_bound(t1, st, total_elapsed_us, bucket_of(st, total_elapsed_us, h.time_us), HitKind::Damage);
            lemma_bucket_sum_bound(t1, st, total_elapsed_us, bucket_of(st, total_elapsed_us, h.time_us), HitKind::Taken);
            lemma_bucket_sum_bound(t1, st, total_elapsed_us, bucket_of(st, total_elapsed_us, h.time_us), HitKind::Heal);
            lemma_log_total_prefix(log, k + 1, HitKind::Damage);
            lemma_log_total_prefix(log, k + 1, HitKind::Taken);
            lemma_log_total_prefix(log, k + 1, HitKind::Heal);
        }
        match find_bucket(phases, total_elapsed_us, h.time_us) {
            None => {
                proof {
                    assert forall|i: int| 0 <= i < nb implies skills_tallied(#[trigger] accs@[i].skills@, t1, st, total_elapsed_us, i) by {
                        lemma_tallied_other(accs@[i].skills@, t0, h, st, total_elapsed_us, i);
                    }
                }
            },
            Some(idx) => {
                let ghost before = accs@;
                let mut a = accs.remove(idx);
                match h.kind {
                    HitKind::Damage => {
                        a.damage = a.damage + h.amount;
                        a.hits = a.hits + 1;
                        let mut pos: usize = 0;
                        while pos < a.skills.len() && a.skills[pos].skill_id != h.skill_id
                            invariant
                                pos <= a.skills@.len(),
                                forall|q: int| 0 <= q < pos ==> a.skills@[q].skill_id != h.skill_id,
                            decreases a.skills@.len() - pos,
                        {
                            pos = pos + 1;
                        }
                        let crit: u64 = if h.is_crit || h.is_lucky { 1 } else { 0 };
                        let ghost sk0 = a.skills@;
                        if pos < a.skills.len() {
                            let e = a.skills[pos];
                            a.skills.set(pos, SavedSkillStat {
                                skill_id: e.skill_id,
                                total_dmg: e.total_dmg + h.amount,
                                hits: e.hits + 1,
                                crits: e.crits + crit,
                                max_hit: if h.amount > e.max_hit { h.amount } else { e.max_hit },
                            });
                        } else {
                            a.skills.push(SavedSkillStat { skill_id: h.skill_id, total_dmg: h.amount, hits: 1, crits: crit, max_hit: h.amount });
                        }
                        proof {
                            assert forall|x: int, c: int| 0 <= x < c < a.skills@.len()
                                implies #[trigger] a.skills@[x].skill_id != #[trigger] a.skills@[c].skill_id by {
                                if c < sk0.len() {
                                    assert(a.skills@[x].skill_id == sk0[x].skill_id && a.skills@[c].skill_id == sk0[c].skill_id);
                                } else {
                                    assert(a.skills@[x].skill_id == sk0[x].skill_id);
                                }
                            }
                            assert forall|x: int| 0 <= x < a.skills@.len() implies {
                                &&& (#[trigger] a.skills@[x]).total_dmg <= a.damage
                                &&& a.skills@[x].hits <= a.hits
                                &&& a.skills@[x].crits <= a.skills@[x].hits
                            } by {
                                if x < sk0.len() && x != pos {
                                    assert(a.skills@[x] == sk0[x]);
                                }
                            }
                            lemma_tallied_hit(sk0, a.skills@, pos as int, t0, h, st, total_elapsed_us, idx as int);
                        }
                    },
                    HitKind::Taken => {
                        a.taken = a.taken + h.amount;
                    },
                    HitKind::Heal => {
                        a.healing = a.healing + h.amount;
                    },
                }
                accs.insert(idx, a);
                proof {
                    assert forall|i: int| 0 <= i < nb && i != idx implies #[trigger] accs@[i] == before[i] by {}
                    assert forall|i: int| 0 <= i < nb implies skills_tallied(#[trigger] accs@[i].skills@, t1, st, total_elapsed_us, i) by {
                        if i != idx {
                            assert(accs@[i] == before[i]);
                            lemma_tallied_other(before[i].skills@, t0, h, st, total_elapsed_us, i);
                        } else if h.kind != HitKind::Damage {
                            assert(accs@[i].skills@ == before[i].skills@);
                            lemma_tallied_other(before[i].skills@, t0, h, st, total_elapsed_us, i);
                        }
                    }
                }
            },
        }
        k = k + 1;
    }
    assert(log.take(n as int) =~= log);
    let mut i: usize = 0;
    while i < nb
        invariant
            nb == phases@.len() + 1,
            i <= nb,
            accs@.len() == nb,
            out@.len() == i,
            forall|q: int| 0 <= q < nb ==> {
                &&& (#[trigger] accs@[q]).damage == bucket_sum(log, st, total_elapsed_us, q, HitKind::Damage)
                &&& accs@[q].hits == bucket_hits(log, st, total_elapsed_us, q)
                &&& accs@[q].taken == bucket_sum(log, st, total_elapsed_us, q, HitKind::Taken)
                &&& accs@[q].healing == bucket_sum(log, st, total_elapsed_us, q, HitKind::Heal)
                &&& forall|a: int, c: int| 0 <= a < c < accs@[q].skills@.len()
                    ==> #[trigger] accs@[q].skills@[a].skill_id != #[trigger] accs@[q].skills@[c].skill_id
                &&& skills_tallied(accs@[q].skills@, log, st, total_elapsed_us, q)
            },
            forall|q: int| 0 <= q < i ==> {
                &&& (#[trigger] out@[q]).phase_index == q
                &&& out@[q].total_damage == bucket_sum(log, st, total_elapsed_us, q, HitKind::Damage)
                &&& out@[q].hits == bucket_hits(log, st, total_elapsed_us, q)
                &&& out@[q].damage_taken == bucket_sum(log, st, total_elapsed_us, q, HitKind::Taken)
                &&& out@[q].total_healing == bucket_sum(log, st, total_elapsed_us, q, HitKind::Heal)
                &&& phase_skills_ok(out@[q].skills@)
                &&& skills_tallied(out@[q].skills@, log, st, total_elapsed_us, q)
            },
        decreases nb - i,
    {
        let a = &accs[i];
        let sorted = sort_phase_skills(&a.skills);
        proof {
            lemma_tallied_perm(a.skills@, sorted@, log, st, total_elapsed_us, i as int);
        }
        out.push(SavedPlayerPhaseStats {
            phase_index: i,
            total_damage: a.damage,
            hits: a.hits,
            damage_taken: a.taken,
            total_healing: a.healing,
            skills: sorted,
        });
        i = i + 1;
    }
    out
}

/// Sorts a phase's skills, most damaging first.
fn sort_phase_skills(v: &Vec<SavedSkillStat>) -> (r: Vec<SavedSkillStat>)
    requires
        forall|a: int, b: int| 0 <= a < b < v@.len() ==> #[trigger] v@[a].skill_id != #[trigger] v@[b].skill_id,
    ensures
        phase_skills_ok(r@),
        r@.to_multiset() == v@.to_multiset(),
{
    let mut out: Vec<SavedSkillStat> = Vec::new();
    let mut i: usize = 0;
    proof {
        assert(v@.take(0) =~= Seq::<SavedSkillStat>::empty());
    }
    while i < v.len()
        invariant
            i <= v@.len(),
            forall|a: int, b: int| 0 <= a < b < v@.len() ==> #[trigger] v@[a].skill_id != #[trigger] v@[b].skill_id,
            out@.to_multiset() == v@.take(i as int).to_multiset(),
            forall|a: int, b: int| 0 <= a < b < out@.len() ==> #[trigger] out@[a].total_dmg >= #[trigger] out@[b].total_dmg,
            forall|a: int| 0 <= a < out@.len() ==> exists|k: int| 0 <= k < i && #[trigger] out@[a] == v@[k],
            forall|a: int, b: int| 0 <= a < b < out@.len() ==> #[trigger] out@[a].skill_id != #[trigger] out@[b].skill_id,
            out@.len() == i,
        decreases v@.len() - i,
    {
        let item = v[i];
        let mut pos: usize = out.len();
        while pos > 0 && out[pos - 1].total_dmg < item.total_dmg
            invariant
                pos <= out@.len(),
                forall|q: int| pos <= q < out@.len() ==> out@[q].total_dmg < item.total_dmg,
            decreases pos,
        {
            pos = pos - 1;
        }
        let ghost before = out@;
        out.insert(pos, item);
        proof {
            broadcast use vstd::seq_lib::group_to_multiset_ensures;
            assert(v@.take(i + 1) =~= v@.take(i as int).push(item));
            assert forall|a: int, b: int| 0 <= a < b < out@.len() implies out@[a].total_dmg >= out@[b].total_dmg by {
                if b < pos {
                    assert(out@[a] == before[a] && out@[b] == before[b]);
                } else if b == pos {
                    assert(out@[a] == before[a]);
                    if pos > 0 {
                        assert(before[pos - 1].total_dmg >= item.total_dmg);
                    }
                } else if a < pos {
                    assert(out@[a] == before[a] && out@[b] == before[b - 1]);
                } else if a == pos {
                    assert(out@[b] == before[b - 1]);
                } else {
                    assert(out@[a] == before[a - 1] && out@[b] == before[b - 1]);
                }
            }
            assert forall|a: int| 0 <= a < out@.len() implies exists|k: int| 0 <= k < i + 1 && #[trigger] out@[a] == v@[k] by {
                if a < pos {
                    assert(out@[a] == before[a]);
                } else if a == pos {
                    assert(out@[a] == v@[i as int]);
                } else {
                    assert(out@[a] == before[a - 1]);
                }
            }
            assert forall|a: int, b: int| 0 <= a < b < out@.len() implies out@[a].skill_id != out@[b].skill_id by {
                if a == pos || b == pos {
                    let other = if a == pos { b } else { a };
                    let o = if other < pos { other } else { other - 1 };
                    assert(out@[other] == before[o]);
                    let k = choose|k: int| 0 <= k < i && #[trigger] before[o] == v@[k];
                    assert(v@[k].skill_id != v@[i as int].skill_id);
                } else {
                    let ao = if a < pos { a } else { a - 1 };
                    let bo = if b < pos { b } else { b - 1 };
                    assert(out@[a] == before[ao] && out@[b] == before[bo]);
                }
            }
        }
        i = i + 1;
    }
    assert(v@.take(v@.len() as int) =~= v@);
    out
}

/// What is kept of one entity of a finished encounter.
pub struct PlayerRecord {
    pub entity_id: u64,
    pub name: String,
    pub class_id: Option<u32>,
    pub monster_type: Option<i32>,
    pub total_damage: u64,
    pub hit_count: u64,
    pub crit_count: u64,
    pub skills: Vec<SavedSkillStat>,
    pub damage_taken: u64,
    pub total_healing: u64,
    pub ability_score: Option<u32>,
    pub season_strength: Option<u32>,
    pub crit_pct: Option<u32>,
    pub luck_pct: Option<u32>,
    pub crit_damage: Option<u32>,
    pub spec: Option<String>,
    pub damage_lucky_hits: u64,
    pub damage_crit_lucky_hits: u64,
    pub damage_crit_total: u64,
    pub damage_lucky_total: u64,
    pub damage_crit_lucky_total: u64,
    pub max_hit: u64,
    pub heal_hits: u64,
    pub heal_crit_hits: u64,
    pub heal_lucky_hits: u64,
    pub heal_crit_lucky_hits: u64,
    pub heal_crit_total: u64,
    pub heal_lucky_total: u64,
    pub heal_crit_lucky_total: u64,
    pub heal_max_hit: u64,
    pub overheal: u64,
    pub shield_gain: u64,
    pub deaths: u32,
    pub max_hp: Option<i64>,
    pub is_player: bool,
    pub gear: Option<SavedGearInfo>,
    pub phase_stats: Vec<SavedPlayerPhaseStats>,
}

/// A skill's counters as stored: critical hits count lucky ones too.
pub open spec fn saved_skill(s: SkillStat) -> SavedSkillStat {
    SavedSkillStat {
        skill_id: s.skill_id,
        total_dmg: s.stats.total,
        hits: s.stats.hits,
        crits: (s.stats.crit_hits + s.stats.crit_lucky_hits) as u64,
        max_hit: s.stats.max_hit,
    }
}

/// The class of an entity: as sent, else as its specialisation implies.
pub open spec fn class_for(known: Option<u32>, spec: Option<Seq<char>>) -> Option<u32> {
    match known {
        Some(c) => Some(c),
        None => match spec {
            Some(s) => class_of_spec(s),
            None => None,
        },
    }
}

/// A stat of an optional snapshot.
pub open spec fn stat_of<T>(stats: Option<CharStats>, f: spec_fn(CharStats) -> Option<T>) -> Option<T> {
    match stats {
        Some(s) => f(s),
        None => None,
    }
}

/// The stored skills of a meter, in order of first use.
fn saved_skills(p: &PlayerMeter) -> (r: Vec<SavedSkillStat>)
    requires
        p.wf(),
    ensures
        r@ == p.skills().map_values(|e: (u32, SkillStat)| saved_skill(e.1)),
{
    let n = p.skill_count();
    let mut out: Vec<SavedSkillStat> = Vec::new();
    let mut k: usize = 0;
    while k < n
        invariant
            p.wf(),
            n == p.skills().len(),
            k <= n,
            out@ == p.skills().take(k as int).map_values(|e: (u32, SkillStat)| saved_skill(e.1)),
        decreases n - k,
    {
        let st = p.skill_at(k);
        assert(p.skills()[k as int].1.stats.wf());
        out.push(SavedSkillStat {
            skill_id: st.skill_id,
            total_dmg: st.stats.total,
            hits: st.stats.hits,
            crits: st.stats.crit_hits + st.stats.crit_lucky_hits,
            max_hit: st.stats.max_hit,
        });
        assert(p.skills().take(k + 1) =~= p.skills().take(k as int).push(p.skills()[k as int]));
        assert(out@ =~= p.skills().take(k + 1).map_values(|e: (u32, SkillStat)| saved_skill(e.1)));
        k = k + 1;
    }
    assert(p.skills().take(n as int) =~= p.skills());
    out
}

/// What is kept of one entity of an encounter, its gear aside: its
/// counters and skills, its class (as sent, else from its specialisation),
/// the stats it was last seen with, and its per-phase counters.
pub open spec fn saved_player(r: PlayerRecord, p: PlayerMeter, classes: Map<u64, u32>, monster_types: Map<u64, i32>,
    st: Option<CharStats>, is_player: bool, phases: Seq<PhaseMarker>, total: u64) -> bool {
    &&& r.entity_id == p.entity_id.0
    &&& r.name@ == p.player_name@
    &&& r.spec is None <==> !has_spec_skill(p.skills())
    &&& r.class_id == class_for(
        if classes.contains_key(p.entity_id.0) { Some(classes[p.entity_id.0]) } else { None },
        match r.spec { Some(t) => Some(t@), None => None },
    )
    &&& r.monster_type == if monster_types.contains_key(p.entity_id.0) { Some(monster_types[p.entity_id.0]) } else { None }
    &&& r.total_damage == p.damage_stats.total
    &&& r.hit_count == p.damage_stats.hits
    &&& r.crit_count == p.damage_stats.crit_hits + p.damage_stats.crit_lucky_hits
    &&& r.skills@ == p.skills().map_values(|e: (u32, SkillStat)| saved_skill(e.1))
    &&& r.damage_taken == p.taken_stats.total
    &&& r.total_healing == p.heal_stats.total
    &&& r.ability_score == stat_of(st, |s: CharStats| s.ability_score)
    &&& r.season_strength == stat_of(st, |s: CharStats| s.season_strength)
    &&& r.crit_pct == stat_of(st, |s: CharStats| s.crit_pct)
    &&& r.luck_pct == stat_of(st, |s: CharStats| s.luck_pct)
    &&& r.crit_damage == stat_of(st, |s: CharStats| s.crit_damage)
    &&& r.max_hp == stat_of(st, |s: CharStats| s.max_hp)
    &&& r.damage_lucky_hits == p.damage_stats.lucky_hits
    &&& r.damage_crit_lucky_hits == p.damage_stats.crit_lucky_hits
    &&& r.damage_crit_total == p.damage_stats.crit_total
    &&& r.damage_lucky_total == p.damage_stats.lucky_total
    &&& r.damage_crit_lucky_total == p.damage_stats.crit_lucky_total
    &&& r.max_hit == p.damage_stats.max_hit
    &&& r.heal_hits == p.heal_stats.hits
    &&& r.heal_crit_hits == p.heal_stats.crit_hits
    &&& r.heal_lucky_hits == p.heal_stats.lucky_hits
    &&& r.heal_crit_lucky_hits == p.heal_stats.crit_lucky_hits
    &&& r.heal_crit_total == p.heal_stats.crit_total
    &&& r.heal_lucky_total == p.heal_stats.lucky_total
    &&& r.heal_crit_lucky_total == p.heal_stats.crit_lucky_total
    &&& r.heal_max_hit == p.heal_stats.max_hit
    &&& r.overheal == p.overheal
    &&& r.shield_gain == p.shield_gain
    &&& r.deaths == p.deaths
    &&& r.is_player == is_player
    &&& phases_split(r.phase_stats@, p.hit_log@, phases, total)
}

/// What is kept of one entity: its counters and skills, its class (as
/// sent, else from its specialisation), the stats it was last seen with,
/// its gear, and its per-phase counters.
pub fn to_saved_player(p: &PlayerMeter, classes: &HashMap<u64, u32>, monster_types: &HashMap<u64, i32>,
    stats: Option<&CharStats>, is_player: bool, gear: Option<SavedGearInfo>, phases: &[PhaseMarker], total_elapsed_us: u64) -> (r: PlayerRecord)
    requires
        p.wf(),
        phases@.len() < usize::MAX,
    ensures
        saved_player(r, *p, classes@, monster_types@, match stats { Some(s) => Some(*s), None => None },
            is_player, phases@, total_elapsed_us),
        r.gear == gear,
{
    let skills = saved_skills(p);
    let phase_stats = bucket_player_phases(p, phases, total_elapsed_us);
    let spec = player_spec(p);
    let class_id = match classes.get(&p.entity_id.0) {
        Some(c) => Some(*c),
        None => match spec {
            Some(sp) => spec_to_class_id(sp),
            None => None,
        },
    };
    let spec_owned = match spec {
        Some(sp) => Some(String::from_str(sp)),
        None => None,
    };
    PlayerRecord {
        entity_id: p.entity_id.0,
        name: p.player_name.clone(),
        class_id,
        monster_type: match monster_types.get(&p.entity_id.0) { Some(t) => Some(*t), None => None },
        total_damage: p.total_damage(),
        hit_count: p.hit_count(),
        crit_count: p.crit_count(),
        skills,
        damage_taken: p.damage_taken(),
        total_healing: p.total_healing(),
        ability_score: match stats { Some(s) => s.ability_score, None => None },
        season_strength: match stats { Some(s) => s.season_strength, None => None },
        crit_pct: match stats { Some(s) => s.crit_pct, None => None },
        luck_pct: match stats { Some(s) => s.luck_pct, None => None },
        crit_damage: match stats { Some(s) => s.crit_damage, None => None },
        spec: spec_owned,
        damage_lucky_hits: p.damage_stats.lucky_hits,
        damage_crit_lucky_hits: p.damage_stats.crit_lucky_hits,
        damage_crit_total: p.damage_stats.crit_total,
        damage_lucky_total: p.damage_stats.lucky_total,
        damage_crit_lucky_total: p.damage_stats.crit_lucky_total,
        max_hit: p.damage_stats.max_hit,
        heal_hits: p.heal_stats.hits,
        heal_crit_hits: p.heal_stats.crit_hits,
        heal_lucky_hits: p.heal_stats.lucky_hits,
        heal_crit_lucky_hits: p.heal_stats.crit_lucky_hits,
        heal_crit_total: p.heal_stats.crit_total,
        heal_lucky_total: p.heal_stats.lucky_total,
        heal_crit_lucky_total: p.heal_stats.crit_lucky_total,
        heal_max_hit: p.heal_stats.max_hit,
        overheal: p.overheal,
        shield_gain: p.shield_gain,
        deaths: p.deaths,
        max_hp: match stats { Some(s) => s.max_hp, None => None },
        is_player,
        gear,
        phase_stats,
    }
}

/// What is kept of a finished encounter. Times are microseconds on the
/// capture clock.
pub struct EncounterRecord {
    pub id: u128,
    pub scene_name: String,
    pub start_us: u64,
    pub duration_us: u64,
    pub players: Vec<PlayerRecord>,
    pub total_damage: u64,
    pub custom_name: Option<String>,
    pub outcome: EncounterOutcome,
    pub phases: Vec<PhaseMarker>,
}

/// The value stored under a key, if any.
pub open spec fn get_of<V>(m: Map<u64, V>, k: u64) -> Option<V> {
    if m.contains_key(k) { Some(m[k]) } else { None }
}

/// What is kept of an encounter at `now_us`: its entities, in order of
/// first appearance, with what the meter knows of them.
pub fn to_saved_encounter(enc: &Encounter, classes: &HashMap<u64, u32>, monster_types: &HashMap<u64, i32>,
    stats_cache: &HashMap<u64, CharStats>, is_player: &HashMap<u64, bool>,
    gear_cache: &HashMap<u64, Vec<EquipSlot>>, loadout_cache: &HashMap<u64, Vec<SkillLoadoutEntry>>,
    tables: &DataTables, now_us: u64) -> (r: EncounterRecord)
    requires
        enc.wf(),
        enc.phases@.len() < usize::MAX,
    ensures
        r.id == enc.id,
        r.scene_name@ == enc.zone_name@,
        r.start_us == enc.start_us,
        r.duration_us == enc.elapsed_spec(now_us),
        r.total_damage == enc.total_damage,
        r.custom_name is None,
        r.outcome == enc.outcome,
        phases_model(r.phases@) == phases_model(enc.phases@),
        r.players@.len() == enc.meters().len(),
        forall|i: int| 0 <= i < r.players@.len() ==> {
            let m = #[trigger] enc.meters()[i].1;
            let id = enc.meters()[i].0;
            &&& saved_player(r.players@[i], m, classes@, monster_types@, get_of(stats_cache@, id),
                get_of(is_player@, id) == Some(true), enc.phases@, enc.elapsed_spec(now_us))
            &&& gear_info_of(r.players@[i].gear, *tables,
                match get_of(gear_cache@, id) { Some(v) => Some(v@), None => None },
                match get_of(loadout_cache@, id) { Some(v) => Some(v@), None => None })
        },
{
    let duration = enc.elapsed(now_us);
    let n = enc.meter_count();
    let mut players: Vec<PlayerRecord> = Vec::new();
    let mut j: usize = 0;
    while j < n
        invariant
            enc.wf(),
            enc.phases@.len() < usize::MAX,
            n == enc.meters().len(),
            duration == enc.elapsed_spec(now_us),
            j <= n,
            players@.len() == j,
            forall|i: int| 0 <= i < j ==> {
                let m = #[trigger] enc.meters()[i].1;
                let id = enc.meters()[i].0;
                &&& saved_player(players@[i], m, classes@, monster_types@, get_of(stats_cache@, id),
                    get_of(is_player@, id) == Some(true), enc.phases@, duration)
                &&& gear_info_of(players@[i].gear, *tables,
                    match get_of(gear_cache@, id) { Some(v) => Some(v@), None => None },
                    match get_of(loadout_cache@, id) { Some(v) => Some(v@), None => None })
            },
        decreases n - j,
    {
        let m = enc.meter_at(j);
        let id = m.entity_id.0;
        assert(enc.meters()[j as int].1.wf());
        assert(enc.meters()[j as int].1.entity_id.0 == enc.meters()[j as int].0);
        let gear = build_gear_info(tables, gear_cache.get(&id), loadout_cache.get(&id));
        let flag = match is_player.get(&id) { Some(b) => *b, None => false };
        let rec = to_saved_player(m, classes, monster_types, stats_cache.get(&id), flag, gear, enc.phases.as_slice(), duration);
        players.push(rec);
        j = j + 1;
    }
    let mut phases: Vec<PhaseMarker> = Vec::new();
    let mut q: usize = 0;
    while q < enc.phases.len()
        invariant
            q <= enc.phases@.len(),
            phases_model(phases@) == phases_model(enc.phases@.take(q as int)),
        decreases enc.phases@.len() - q,
    {
        let mk = &enc.phases[q];
        let ghost before = phases@;
        phases.push(PhaseMarker { name: mk.name.clone(), start_offset_us: mk.start_offset_us });
        assert(enc.phases@.take(q + 1) =~= enc.phases@.take(q as int).push(enc.phases@[q as int]));
        assert(phases_model(phases@) =~= phases_model(before).push((mk.name@, mk.start_offset_us)));
        assert(phases_model(enc.phases@.take(q + 1)) =~= phases_model(enc.phases@.take(q as int)).push((mk.name@, mk.start_offset_us)));
        q = q + 1;
    }
    assert(enc.phases@.take(enc.phases@.len() as int) =~= enc.phases@);
    EncounterRecord {
        id: enc.id,
        scene_name: enc.zone_name.clone(),
        start_us: enc.start_us,
        duration_us: duration,
        players,
        total_damage: enc.total_damage,
        custom_name: None,
        outcome: enc.outcome,
        phases,
    }
}

/// One player's line of a webhook report; rates are worked out from the
/// counts where the report is sent.
pub struct PlayerSummary {
    pub name: String,
    pub class_name: &'static str,
    pub spec: Option<String>,
    pub total_damage: u64,
    pub hits: u64,
    pub crit_hits: u64,
    pub crit_damage: Option<u32>,
    pub luck_pct: Option<u32>,
    pub damage_taken: u64,
    pub total_healing: u64,
    pub ability_score: Option<u32>,
    pub season_strength: Option<u32>,
}

/// A finished encounter as reported to the webhook: its players, most
/// damage first.
pub struct DiscordReport {
    pub scene_name: String,
    /// At least one second.
    pub duration_us: u64,
    pub players: Vec<PlayerSummary>,
    pub total_damage: u64,
    pub start_us: u64,
}

/// The entries of an encounter that belong to known players.
pub open spec fn player_meters(meters: Seq<(u64, crate::meter::PlayerMeter)>, is_player: Map<u64, bool>) -> Seq<(u64, crate::meter::PlayerMeter)> {
    meters.filter(|e: (u64, crate::meter::PlayerMeter)| get_of(is_player, e.1.entity_id.0) == Some(true))
}

/// A finished encounter's report: its known players with their class
/// (as sent, else from their specialisation), specialisation, counts and
/// last stats, most damage first.
#[verifier::spinoff_prover]
pub fn to_discord_report(enc: &Encounter, stats_cache: &HashMap<u64, CharStats>, classes: &HashMap<u64, u32>,
    is_player: &HashMap<u64, bool>, now_us: u64) -> (r: DiscordReport)
    requires
        enc.wf(),
    ensures
        r.scene_name@ == enc.zone_name@,
        r.duration_us == if enc.elapsed_spec(now_us) < 1_000_000 { 1_000_000 } else { enc.elapsed_spec(now_us) },
        r.total_damage == enc.total_damage,
        r.start_us == enc.start_us,
        r.players@.len() == player_meters(enc.meters(), is_player@).len(),
        forall|i: int, j: int| 0 <= i < j < r.players@.len() ==> #[trigger] r.players@[i].total_damage >= #[trigger] r.players@[j].total_damage,
        forall|i: int| 0 <= i < r.players@.len() ==> exists|k: int| 0 <= k < player_meters(enc.meters(), is_player@).len() && {
            let m = #[trigger] player_meters(enc.meters(), is_player@)[k].1;
            &&& (#[trigger] r.players@[i]).name@ == m.player_name@
            &&& r.players@[i].total_damage == m.damage_stats.total
            &&& r.players@[i].hits == m.damage_stats.hits
            &&& r.players@[i].crit_hits == m.damage_stats.crit_hits + m.damage_stats.crit_lucky_hits
            &&& r.players@[i].damage_taken == m.taken_stats.total
            &&& r.players@[i].total_healing == m.heal_stats.total
            &&& r.players@[i].class_name@ == class_label(class_for(get_of(classes@, m.entity_id.0),
                match r.players@[i].spec { Some(t) => Some(t@), None => None }))
        },
{
    let d = enc.elapsed(now_us);
    let duration_us = if d < 1_000_000 { 1_000_000 } else { d };
    let n = enc.meter_count();
    let ghost ms = enc.meters();
    let mut out: Vec<PlayerSummary> = Vec::new();
    let mut j: usize = 0;
    proof {
        lemma_filter_empty(ms.take(0), |e: (u64, crate::meter::PlayerMeter)| get_of(is_player@, e.1.entity_id.0) == Some(true));
    }
    while j < n
        invariant
            enc.wf(),
            ms == enc.meters(),
            n == ms.len(),
            j <= n,
            out@.len() == player_meters(ms.take(j as int), is_player@).len(),
            forall|a: int, b: int| 0 <= a < b < out@.len() ==> #[trigger] out@[a].total_damage >= #[trigger] out@[b].total_damage,
            forall|i: int| 0 <= i < out@.len() ==> exists|k: int| 0 <= k < player_meters(ms.take(j as int), is_player@).len() && {
                let m = #[trigger] player_meters(ms.take(j as int), is_player@)[k].1;
                &&& (#[trigger] out@[i]).name@ == m.player_name@
                &&& out@[i].total_damage == m.damage_stats.total
                &&& out@[i].hits == m.damage_stats.hits
                &&& out@[i].crit_hits == m.damage_stats.crit_hits + m.damage_stats.crit_lucky_hits
                &&& out@[i].damage_taken == m.taken_stats.total
                &&& out@[i].total_healing == m.heal_stats.total
                &&& out@[i].class_name@ == class_label(class_for(get_of(classes@, m.entity_id.0),
                    match out@[i].spec { Some(t) => Some(t@), None => None }))
            },
        decreases n - j,
    {
        let m = enc.meter_at(j);
        let id = m.entity_id.0;
        assert(ms[j as int].1.wf());
        let ghost pm0 = player_meters(ms.take(j as int), is_player@);
        proof {
            assert(ms.take(j + 1) =~= ms.take(j as int).push(ms[j as int]));
            lemma_filter_push(ms.take(j as int), |e: (u64, crate::meter::PlayerMeter)| get_of(is_player@, e.1.entity_id.0) == Some(true), ms[j as int]);
        }
        let flag = match is_player.get(&id) { Some(b) => *b, None => false };
        if flag {
            let spec = player_spec(m);
            let class_id = match classes.get(&id) {
                Some(c) => Some(*c),
                None => match spec {
                    Some(sp) => spec_to_class_id(sp),
                    None => None,
                },
            };
            let stats = stats_cache.get(&id);
            let item = PlayerSummary {
                name: m.player_name.clone(),
                class_name: class_name(class_id),
                spec: match spec { Some(sp) => Some(String::from_str(sp)), None => None },
                total_damage: m.damage_stats.total,
                hits: m.damage_stats.hits,
                crit_hits: m.crit_count(),
                crit_damage: match stats { Some(st) => st.crit_damage, None => None },
                luck_pct: match stats { Some(st) => st.luck_pct, None => None },
                damage_taken: m.damage_taken(),
                total_healing: m.total_healing(),
                ability_score: match stats { Some(st) => st.ability_score, None => None },
                season_strength: match stats { Some(st) => st.season_strength, None => None },
            };
            let ghost iv = item;
            let mut pos: usize = out.len();
            while pos > 0 && out[pos - 1].total_damage < item.total_damage
                invariant
                    pos <= out@.len(),
                    forall|q: int| pos <= q < out@.len() ==> out@[q].total_damage < item.total_damage,
                decreases pos,
            {
                pos = pos - 1;
            }
            let ghost before = out@;
            out.insert(pos, item);
            proof {
                let pm1 = player_meters(ms.take(j + 1), is_player@);
                assert(pm1 == pm0.push(ms[j as int]));
                assert forall|a: int, b: int| 0 <= a < b < out@.len() implies out@[a].total_damage >= out@[b].total_damage by {
                    if b < pos {
                        assert(out@[a] == before[a] && out@[b] == before[b]);
                    } else if b == pos {
                        assert(out@[a] == before[a]);
                        if pos > 0 {
                            assert(before[pos - 1].total_damage >= iv.total_damage);
                        }
                    } else if a < pos {
                        assert(out@[a] == before[a] && out@[b] == before[b - 1]);
                    } else if a == pos {
                        assert(out@[b] == before[b - 1]);
                    } else {
                        assert(out@[a] == before[a - 1] && out@[b] == before[b - 1]);
                    }
                }
                assert forall|i: int| 0 <= i < out@.len() implies exists|k: int| 0 <= k < pm1.len() && {
                    let m2 = #[trigger] pm1[k].1;
                    &&& (#[trigger] out@[i]).name@ == m2.player_name@
                    &&& out@[i].total_damage == m2.damage_stats.total
                    &&& out@[i].hits == m2.damage_stats.hits
                    &&& out@[i].crit_hits == m2.damage_stats.crit_hits + m2.damage_stats.crit_lucky_hits
                    &&& out@[i].damage_taken == m2.taken_stats.total
                    &&& out@[i].total_healing == m2.heal_stats.total
                    &&& out@[i].class_name@ == class_label(class_for(get_of(classes@, m2.entity_id.0),
                        match out@[i].spec { Some(t) => Some(t@), None => None }))
                } by {
                    if i == pos {
                        assert(pm1[pm0.len() as int].1 == *m);
                    } else {
                        let o = if i < pos { i } else { i - 1 };
                        assert(out@[i] == before[o]);
                        let k = choose|k: int| 0 <= k < pm0.len() && {
                            let m2 = #[trigger] pm0[k].1;
                            &&& (#[trigger] before[o]).name@ == m2.player_name@
                            &&& before[o].total_damage == m2.damage_stats.total
                            &&& before[o].hits == m2.damage_stats.hits
                            &&& before[o].crit_hits == m2.damage_stats.crit_hits + m2.damage_stats.crit_lucky_hits
                            &&& before[o].damage_taken == m2.taken_stats.total
                            &&& before[o].total_healing == m2.heal_stats.total
                            &&& before[o].class_name@ == class_label(class_for(get_of(classes@, m2.entity_id.0),
                                match before[o].spec { Some(t) => Some(t@), None => None }))
                        };
                        assert(pm1[k] == pm0[k]);
                    }
                }
            }
        }
        j = j + 1;
    }
    assert(ms.take(n as int) =~= ms);
    DiscordReport {
        scene_name: enc.zone_name.clone(),
        duration_us,
        players: out,
        total_damage: enc.total_damage,
        start_us: enc.start_us,
    }
}

} // verus!
