//! The game's data tables and the lookups made in them.
//!
//! Tables that are looked up by id are maps from the numeric id; tables that
//! are searched by another field are lists, searched front to back.

use vstd::prelude::*;
use std::collections::HashMap;
use crate::seqs::{first_match, lemma_first_match_at, lemma_first_match_none};

verus! {

broadcast use vstd::std_specs::hash::group_hash_axioms;

#[derive(Clone, Debug)]
pub struct ModEntry {
    pub id: i32,
    pub name: String,
    pub mod_type: i32,
    pub effect_lib_ids: Vec<i32>,
    pub is_can_link: bool,
    pub similar_id: i32,
    pub initialization_id: i32,
}

#[derive(Clone, Debug)]
pub struct ModEffectEntry {
    pub id: i32,
    pub effect_id: i32,
    pub effect_name: String,
    pub level: i32,
    pub effect_type: i32,
    pub is_negative: bool,
    pub fight_value: i32,
    pub effect_config_icon: String,
    pub enhancement_num: i32,
}

#[derive(Clone, Debug)]
pub struct ModLinkEffectEntry {
    pub id: i32,
    pub link_time: i32,
    pub link_level_effect: Vec<Vec<i32>>,
    pub fight_value: i32,
}

#[derive(Clone, Debug)]
pub struct SkillOverrideEntry {
    pub name: String,
    pub icon: String,
}

/// A skill row; `slot_position_id` lists the loadout positions it may take
/// (7 and 8 are the Imagine slots).
#[derive(Clone, Debug)]
pub struct SkillEntry {
    pub id: i32,
    pub name_design: String,
    pub name: String,
    pub icon: String,
    pub skill_type: i32,
    pub slot_position_id: Vec<i32>,
}

#[derive(Clone, Debug)]
pub struct EquipEntry {
    pub id: i32,
    pub equip_part: i32,
    pub equip_gs: i32,
    pub basic_attr_lib_id: Vec<i32>,
    pub advanced_attr_lib_id: Vec<i32>,
}

#[derive(Clone, Debug)]
pub struct ItemEntry {
    pub id: i32,
    pub name: String,
    pub icon: String,
    pub quality: i32,
}

#[derive(Clone, Debug)]
pub struct EquipAttrLibEntry {
    pub id: i32,
    pub attr_lib_id: i32,
    pub attr_effect: Vec<Vec<i32>>,
    pub attr_effect_config: Vec<Vec<i32>>,
    pub allow_part: Vec<i32>,
}

#[derive(Clone, Debug)]
pub struct EquipAttrSchoolLibEntry {
    pub id: i32,
    pub attr_lib_id: i32,
    pub attr_effect: Vec<Vec<i32>>,
    pub attr_effect_config: Vec<Vec<i32>>,
    pub allow_part: Vec<i32>,
    pub talent_school_id: Vec<i32>,
}

#[derive(Clone, Debug)]
pub struct EquipBreakThroughEntry {
    pub id: i32,
    pub equip_id: i32,
    pub break_through_time: i32,
    pub equip_gs: i32,
    pub basic_attr_lib_id: Vec<i32>,
    pub advanced_attr_lib_id: Vec<i32>,
}

#[derive(Clone, Debug)]
pub struct FightAttrEntry {
    pub attr_add: i32,
    pub official_name: String,
    pub attr_num_type: i32,
}

#[derive(Clone, Debug)]
pub struct AttrDescriptionEntry {
    pub id: i32,
    pub description: String,
}

#[derive(Clone, Debug)]
pub struct BuffEntry {
    pub id: i32,
    pub desc: String,
    pub tips_description: i32,
}

#[derive(Clone, Debug)]
pub struct MonsterEntry {
    pub id: i32,
    pub name: String,
    pub monster_type: i32,
    pub monster_rank: String,
}

#[derive(Clone, Debug)]
pub struct DummyEntry {
    pub id: i32,
    pub name: String,
}

#[derive(Clone, Debug)]
pub struct SceneEntry {
    pub id: String,
    pub name: String,
    pub scene_type: i32,
}

#[derive(Clone, Debug)]
pub struct DungeonEntry {
    pub id: i32,
    pub name: String,
    pub scene_id: i32,
}

/// All data tables.
pub struct DataTables {
    pub mods: HashMap<i64, ModEntry>,
    pub mod_effects: Vec<ModEffectEntry>,
    pub mod_link_effects: HashMap<i64, ModLinkEffectEntry>,
    pub skills: HashMap<i64, SkillEntry>,
    pub skill_overrides: HashMap<i64, SkillOverrideEntry>,
    pub monsters: HashMap<i64, MonsterEntry>,
    pub dummies: HashMap<i64, DummyEntry>,
    pub scenes: HashMap<i64, SceneEntry>,
    pub equips: HashMap<i64, EquipEntry>,
    pub items: HashMap<i64, ItemEntry>,
    pub dungeons: HashMap<i64, DungeonEntry>,
    pub equip_attr_libs: Vec<EquipAttrLibEntry>,
    pub equip_attr_school_libs: Vec<EquipAttrSchoolLibEntry>,
    pub equip_break_throughs: Vec<EquipBreakThroughEntry>,
    pub fight_attrs: Vec<FightAttrEntry>,
    pub attr_descriptions: HashMap<i64, AttrDescriptionEntry>,
    pub buffs: HashMap<i64, BuffEntry>,
}

/// Whether `p` starts `s`.
pub open spec fn is_prefix(p: Seq<char>, s: Seq<char>) -> bool {
    p.len() <= s.len() && s.subrange(0, p.len() as int) == p
}

/// Where passive talents keep their icons.
pub open spec fn talent_passive_dir() -> Seq<char> {
    "ui/textures/talent_passive/"@
}

/// Whether `s` starts with `p`.
pub fn starts_with(s: &str, p: &str) -> (r: bool)
    ensures
        r == is_prefix(p@, s@),
{
    let n = s.unicode_len();
    let m = p.unicode_len();
    if m > n {
        return false;
    }
    let mut i: usize = 0;
    while i < m
        invariant
            n == s@.len(),
            m == p@.len(),
            m <= n,
            i <= m,
            forall|j: int| 0 <= j < i ==> s@[j] == p@[j],
        decreases m - i,
    {
        if s.get_char(i) != p.get_char(i) {
            assert(s@.subrange(0, m as int)[i as int] != p@[i as int]);
            return false;
        }
        i = i + 1;
    }
    assert(s@.subrange(0, m as int) =~= p@);
    true
}

/// A name, where it is not empty.
pub open spec fn named(s: Seq<char>) -> Option<Seq<char>> {
    if s.len() > 0 { Some(s) } else { None }
}

/// The text an optional string slice holds.
pub open spec fn opt_text(r: Option<&str>) -> Option<Seq<char>> {
    match r {
        Some(s) => Some(s@),
        None => None,
    }
}

/// The display name of an equipment slot id (200..=210).
pub open spec fn slot_label(slot: i32) -> Option<Seq<char>> {
    if slot == 200 { Some("Weapon"@) }
    else if slot == 201 { Some("Head"@) }
    else if slot == 202 { Some("Chest"@) }
    else if slot == 203 { Some("Hands"@) }
    else if slot == 204 { Some("Boots"@) }
    else if slot == 205 { Some("Earring"@) }
    else if slot == 206 { Some("Necklace"@) }
    else if slot == 207 { Some("Ring"@) }
    else if slot == 208 { Some("Bracelet (L)"@) }
    else if slot == 209 { Some("Bracelet (R)"@) }
    else if slot == 210 { Some("Charm"@) }
    else { None }
}

/// The display name of an equipment slot; `Slot N` for an unknown slot.
pub fn gear_slot_name(slot: i32) -> (r: String)
    ensures
        r@ == match slot_label(slot) {
            Some(name) => name,
            None => "Slot "@ + crate::text::signed_dec(slot as int),
        },
{
    let name: &str = match slot {
        200 => "Weapon",
        201 => "Head",
        202 => "Chest",
        203 => "Hands",
        204 => "Boots",
        205 => "Earring",
        206 => "Necklace",
        207 => "Ring",
        208 => "Bracelet (L)",
        209 => "Bracelet (R)",
        210 => "Charm",
        _ => {
            let mut s = String::from_str("Slot ");
            let d = crate::text::i64_to_dec(slot as i64);
            s.append(d.as_str());
            return s;
        },
    };
    String::from_str(name)
}

/// The label of a module quality tier (0..=3).
pub open spec fn quality_label(tier: u8) -> Seq<char> {
    if tier == 0 { "Basic"@ }
    else if tier == 1 { "Advanced"@ }
    else if tier == 2 { "Excellent"@ }
    else if tier == 3 { "EXT"@ }
    else { "Unknown"@ }
}

/// The word naming a module type.
pub open spec fn mod_kind_word(mod_type: i32) -> Seq<char> {
    if mod_type == 1 { "Attack"@ }
    else if mod_type == 2 { "Support"@ }
    else if mod_type == 3 { "Guard"@ }
    else { "Unknown"@ }
}

fn mod_kind_text(mod_type: i32) -> (r: &'static str)
    ensures
        r@ == mod_kind_word(mod_type),
{
    match mod_type {
        1 => "Attack",
        2 => "Support",
        3 => "Guard",
        _ => "Unknown",
    }
}

/// The icon file name of a module type at a quality tier: the tier's number
/// plus one follows a stem that depends on the type.
pub open spec fn mod_icon_label(mod_type: i32, tier: u8) -> Option<Seq<char>> {
    let n = crate::text::digits((tier + 1) as nat, 10);
    if tier == 0 { None }
    else if mod_type == 1 { Some("item_mod_device_attack"@ + n) }
    else if mod_type == 2 { Some("item_mod_device_"@ + n) }
    else if mod_type == 3 { Some("item_mod_device_protect"@ + n) }
    else { None }
}

/// The label of a module quality tier; `Unknown` beyond tier 3.
pub fn mod_quality_label(tier: u8) -> (r: &'static str)
    ensures
        r@ == quality_label(tier),
{
    match tier {
        0 => "Basic",
        1 => "Advanced",
        2 => "Excellent",
        3 => "EXT",
        _ => "Unknown",
    }
}

impl DataTables {
    /// The skill's display name: a non-empty override first, then the
    /// table's name, then its design name, where not empty.
    pub open spec fn skill_label(&self, id: u32) -> Option<Seq<char>> {
        let k = id as i64;
        if self.skill_overrides@.contains_key(k) && self.skill_overrides@[k].name@.len() > 0 {
            Some(self.skill_overrides@[k].name@)
        } else if self.skills@.contains_key(k) {
            let s = self.skills@[k];
            named(if s.name@.len() > 0 { s.name@ } else { s.name_design@ })
        } else {
            None
        }
    }

    pub fn skill_name(&self, id: u32) -> (r: Option<&str>)
        ensures
            opt_text(r) == self.skill_label(id),
    {
        let k = id as i64;
        if let Some(ov) = self.skill_overrides.get(&k) {
            if !ov.name.as_str().is_empty() {
                return Some(ov.name.as_str());
            }
        }
        match self.skills.get(&k) {
            Some(s) => {
                let name = if !s.name.as_str().is_empty() { &s.name } else { &s.name_design };
                if name.as_str().is_empty() { None } else { Some(name.as_str()) }
            },
            None => None,
        }
    }

    /// Whether a skill is an Imagine: it sits in slot 7 or 8 and is not a
    /// passive talent (whose icons live under `ui/textures/talent_passive/`).
    pub open spec fn imagine_skill(&self, id: u32) -> bool {
        let k = id as i64;
        &&& self.skills@.contains_key(k)
        &&& exists|i: int| 0 <= i < self.skills@[k].slot_position_id@.len()
            && (#[trigger] self.skills@[k].slot_position_id@[i] == 7 || self.skills@[k].slot_position_id@[i] == 8)
        &&& !is_prefix(talent_passive_dir(), self.skills@[k].icon@)
    }

    pub fn skill_is_imagine(&self, id: u32) -> (r: bool)
        ensures
            r == self.imagine_skill(id),
    {
        let k = id as i64;
        match self.skills.get(&k) {
            Some(s) => {
                let mut slotted = false;
                let mut i: usize = 0;
                while i < s.slot_position_id.len()
                    invariant
                        i <= s.slot_position_id@.len(),
                        slotted == exists|j: int| 0 <= j < i
                            && (#[trigger] s.slot_position_id@[j] == 7 || s.slot_position_id@[j] == 8),
                    decreases s.slot_position_id@.len() - i,
                {
                    let p = s.slot_position_id[i];
                    if p == 7 || p == 8 {
                        slotted = true;
                    }
                    i = i + 1;
                }
                proof { reveal_strlit("ui/textures/talent_passive/"); }
                slotted && !starts_with(s.icon.as_str(), "ui/textures/talent_passive/")
            },
            None => false,
        }
    }

    /// A monster's name by config id, where not empty.
    pub open spec fn monster_label(&self, id: u32) -> Option<Seq<char>> {
        if self.monsters@.contains_key(id as i64) { named(self.monsters@[id as i64].name@) } else { None }
    }

    /// A monster's type by config id.
    pub open spec fn monster_kind(&self, id: u32) -> Option<i32> {
        if self.monsters@.contains_key(id as i64) { Some(self.monsters@[id as i64].monster_type) } else { None }
    }

    /// A training dummy's name by config id, where not empty.
    pub open spec fn dummy_label(&self, id: u32) -> Option<Seq<char>> {
        if self.dummies@.contains_key(id as i64) { named(self.dummies@[id as i64].name@) } else { None }
    }

    pub fn monster_name(&self, id: u32) -> (r: Option<&str>)
        ensures
            opt_text(r) == self.monster_label(id),
    {
        match self.monsters.get(&(id as i64)) {
            Some(m) => if m.name.as_str().is_empty() { None } else { Some(m.name.as_str()) },
            None => None,
        }
    }

    pub fn monster_type(&self, id: u32) -> (r: Option<i32>)
        ensures
            r == self.monster_kind(id),
    {
        match self.monsters.get(&(id as i64)) {
            Some(m) => Some(m.monster_type),
            None => None,
        }
    }

    pub fn dummy_name(&self, id: u32) -> (r: Option<&str>)
        ensures
            opt_text(r) == self.dummy_label(id),
    {
        match self.dummies.get(&(id as i64)) {
            Some(d) => if d.name.as_str().is_empty() { None } else { Some(d.name.as_str()) },
            None => None,
        }
    }

    pub fn scene_name(&self, id: i64) -> (r: Option<&str>)
        ensures
            opt_text(r) == (if self.scenes@.contains_key(id) {
                named(self.scenes@[id].name@)
            } else {
                None
            }),
    {
        match self.scenes.get(&id) {
            Some(s) => if s.name.as_str().is_empty() { None } else { Some(s.name.as_str()) },
            None => None,
        }
    }

    /// Dungeon display name by scene id.
    pub open spec fn dungeon_label(&self, id: i64) -> Option<Seq<char>> {
        if self.dungeons@.contains_key(id) { named(self.dungeons@[id].name@) } else { None }
    }

    pub fn dungeon_name(&self, id: i64) -> (r: Option<&str>)
        ensures
            opt_text(r) == self.dungeon_label(id),
    {
        match self.dungeons.get(&id) {
            Some(d) => if d.name.as_str().is_empty() { None } else { Some(d.name.as_str()) },
            None => None,
        }
    }

    pub fn mod_name(&self, id: i32) -> (r: Option<&str>)
        ensures
            opt_text(r) == (if self.mods@.contains_key(id as i64) {
                named(self.mods@[id as i64].name@)
            } else {
                None
            }),
    {
        match self.mods.get(&(id as i64)) {
            Some(m) => if m.name.as_str().is_empty() { None } else { Some(m.name.as_str()) },
            None => None,
        }
    }

    /// The first effect row with the given effect id.
    pub open spec fn effect_row(&self, effect_id: i32) -> Option<ModEffectEntry> {
        first_match(self.mod_effects@, |e: ModEffectEntry| e.effect_id == effect_id)
    }

    /// Name of a module stat effect, from the first row with that effect id.
    pub fn effect_name(&self, id: i32) -> (r: Option<&str>)
        ensures
            opt_text(r) == match self.effect_row(id) {
                Some(e) => named(e.effect_name@),
                None => None,
            },
    {
        let ghost p = |e: ModEffectEntry| e.effect_id == id;
        let mut i: usize = 0;
        while i < self.mod_effects.len()
            invariant
                i <= self.mod_effects@.len(),
                p == |e: ModEffectEntry| e.effect_id == id,
                forall|k: int| 0 <= k < i ==> !p(#[trigger] self.mod_effects@[k]),
            decreases self.mod_effects@.len() - i,
        {
            let e = &self.mod_effects[i];
            if e.effect_id == id {
                proof { lemma_first_match_at(self.mod_effects@, p, i as int); }
                return if e.effect_name.as_str().is_empty() { None } else { Some(e.effect_name.as_str()) };
            }
            i = i + 1;
        }
        proof { lemma_first_match_none(self.mod_effects@, p); }
        None
    }

    /// The icon of a stat effect: that of the first row with the effect id
    /// and a non-empty icon.
    pub fn effect_icon(&self, effect_id: i32) -> (r: Option<&str>)
        ensures
            opt_text(r) == match first_match(
                self.mod_effects@,
                |e: ModEffectEntry| e.effect_id == effect_id && e.effect_config_icon@.len() > 0,
            ) {
                Some(e) => Some(e.effect_config_icon@),
                None => None,
            },
    {
        let ghost p = |e: ModEffectEntry| e.effect_id == effect_id && e.effect_config_icon@.len() > 0;
        let mut i: usize = 0;
        while i < self.mod_effects.len()
            invariant
                i <= self.mod_effects@.len(),
                p == |e: ModEffectEntry| e.effect_id == effect_id && e.effect_config_icon@.len() > 0,
                forall|k: int| 0 <= k < i ==> !p(#[trigger] self.mod_effects@[k]),
            decreases self.mod_effects@.len() - i,
        {
            let e = &self.mod_effects[i];
            if e.effect_id == effect_id && !e.effect_config_icon.as_str().is_empty() {
                proof { lemma_first_match_at(self.mod_effects@, p, i as int); }
                return Some(e.effect_config_icon.as_str());
            }
            i = i + 1;
        }
        proof { lemma_first_match_none(self.mod_effects@, p); }
        None
    }

    /// The fight value of the first row with exactly this effect id and
    /// enhancement count; 0 where there is none.
    pub fn effect_fight_value(&self, effect_id: i32, enhancement_num: i32) -> (r: i32)
        ensures
            r == match first_match(
                self.mod_effects@,
                |e: ModEffectEntry| e.effect_id == effect_id && e.enhancement_num == enhancement_num,
            ) {
                Some(e) => e.fight_value,
                None => 0,
            },
    {
        let ghost p = |e: ModEffectEntry| e.effect_id == effect_id && e.enhancement_num == enhancement_num;
        let mut i: usize = 0;
        while i < self.mod_effects.len()
            invariant
                i <= self.mod_effects@.len(),
                p == |e: ModEffectEntry| e.effect_id == effect_id && e.enhancement_num == enhancement_num,
                forall|k: int| 0 <= k < i ==> !p(#[trigger] self.mod_effects@[k]),
            decreases self.mod_effects@.len() - i,
        {
            let e = &self.mod_effects[i];
            if e.effect_id == effect_id && e.enhancement_num == enhancement_num {
                proof { lemma_first_match_at(self.mod_effects@, p, i as int); }
                return e.fight_value;
            }
            i = i + 1;
        }
        proof { lemma_first_match_none(self.mod_effects@, p); }
        0
    }

    /// The bonus fight value for a total link level: row `level + 1`'s, or 0.
    pub fn link_level_bonus_fight_value(&self, total_link_time: i32) -> (r: i32)
        ensures
            r == (if self.mod_link_effects@.contains_key((total_link_time + 1) as i64) {
                self.mod_link_effects@[(total_link_time + 1) as i64].fight_value
            } else {
                0
            }),
    {
        let k: i64 = total_link_time as i64 + 1;
        match self.mod_link_effects.get(&k) {
            Some(e) => e.fight_value,
            None => 0,
        }
    }

    /// Quality tier (0..=3) of a module, from its initialization id 101..=104.
    pub open spec fn quality_tier(&self, config_id: i32) -> Option<u8> {
        let k = config_id as i64;
        if self.mods@.contains_key(k) {
            let init = self.mods@[k].initialization_id;
            if 101 <= init <= 104 { Some((init - 101) as u8) } else { None }
        } else {
            None
        }
    }

    pub fn mod_quality_tier(&self, config_id: i32) -> (r: Option<u8>)
        ensures
            r == self.quality_tier(config_id),
    {
        match self.mods.get(&(config_id as i64)) {
            Some(m) => match m.initialization_id {
                101 => Some(0),
                102 => Some(1),
                103 => Some(2),
                104 => Some(3),
                _ => None,
            },
            None => None,
        }
    }

    pub fn mod_type(&self, config_id: i32) -> (r: Option<i32>)
        ensures
            r == (if self.mods@.contains_key(config_id as i64) {
                Some(self.mods@[config_id as i64].mod_type)
            } else {
                None
            }),
    {
        match self.mods.get(&(config_id as i64)) {
            Some(m) => Some(m.mod_type),
            None => None,
        }
    }

    /// The display name of a module: EXT modules (initialization id 104) are
    /// named by their type, others by their name where it is not empty.
    pub open spec fn mod_label(&self, config_id: i32) -> Option<Seq<char>> {
        let k = config_id as i64;
        if !self.mods@.contains_key(k) {
            None
        } else if self.mods@[k].initialization_id == 104 {
            Some("EXT - Excellent "@ + mod_kind_word(self.mods@[k].mod_type) + " Module"@)
        } else {
            named(self.mods@[k].name@)
        }
    }

    pub fn mod_display_name(&self, config_id: i32) -> (r: Option<String>)
        ensures
            match r {
                Some(s) => self.mod_label(config_id) == Some(s@),
                None => self.mod_label(config_id) is None,
            },
    {
        match self.mods.get(&(config_id as i64)) {
            Some(m) => {
                if m.initialization_id == 104 {
                    let mut s = String::from_str("EXT - Excellent ");
                    s.append(mod_kind_text(m.mod_type));
                    s.append(" Module");
                    Some(s)
                } else if m.name.as_str().is_empty() {
                    None
                } else {
                    Some(m.name.clone())
                }
            },
            None => None,
        }
    }

    /// The icon file name of a module type at a quality tier; none for the
    /// basic tier or an unknown type.
    pub fn mod_type_icon_name(&self, mod_type: i32, tier: u8) -> (r: Option<String>)
        requires
            tier < 255,
        ensures
            match r {
                Some(s) => mod_icon_label(mod_type, tier) == Some(s@),
                None => mod_icon_label(mod_type, tier) is None,
            },
    {
        if tier == 0 {
            return None;
        }
        let stem: &str = match mod_type {
            1 => "item_mod_device_attack",
            2 => "item_mod_device_",
            3 => "item_mod_device_protect",
            _ => { return None; },
        };
        let mut s = String::from_str(stem);
        let d = crate::text::u64_to_dec((tier + 1) as u64);
        s.append(d.as_str());
        Some(s)
    }

    /// An item's name, where not empty.
    pub open spec fn item_label(&self, id: i32) -> Option<Seq<char>> {
        if self.items@.contains_key(id as i64) { named(self.items@[id as i64].name@) } else { None }
    }

    pub fn item_name(&self, id: i32) -> (r: Option<&str>)
        ensures
            opt_text(r) == self.item_label(id),
    {
        match self.items.get(&(id as i64)) {
            Some(it) => if it.name.as_str().is_empty() { None } else { Some(it.name.as_str()) },
            None => None,
        }
    }

    pub fn item_icon(&self, id: i32) -> (r: Option<&str>)
        ensures
            opt_text(r) == (if self.items@.contains_key(id as i64) {
                named(self.items@[id as i64].icon@)
            } else {
                None
            }),
    {
        match self.items.get(&(id as i64)) {
            Some(it) => if it.icon.as_str().is_empty() { None } else { Some(it.icon.as_str()) },
            None => None,
        }
    }

    pub fn item_quality(&self, id: i32) -> (r: Option<i32>)
        ensures
            r == (if self.items@.contains_key(id as i64) {
                Some(self.items@[id as i64].quality)
            } else {
                None
            }),
    {
        match self.items.get(&(id as i64)) {
            Some(it) => Some(it.quality),
            None => None,
        }
    }

    pub fn skill_icon(&self, id: u32) -> (r: Option<&str>)
        ensures
            opt_text(r) == (if self.skills@.contains_key(id as i64) {
                named(self.skills@[id as i64].icon@)
            } else {
                None
            }),
    {
        match self.skills.get(&(id as i64)) {
            Some(s) => if s.icon.as_str().is_empty() { None } else { Some(s.icon.as_str()) },
            None => None,
        }
    }

    pub fn equip_part(&self, id: i32) -> (r: Option<i32>)
        ensures
            r == (if self.equips@.contains_key(id as i64) {
                Some(self.equips@[id as i64].equip_part)
            } else {
                None
            }),
    {
        match self.equips.get(&(id as i64)) {
            Some(e) => Some(e.equip_part),
            None => None,
        }
    }
}

} // verus!
