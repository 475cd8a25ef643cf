//! Turning decoded notify messages into game events.

use vstd::prelude::*;
use crate::blob::{dirty_parse, DungeonDirtyData, DungeonTargetData};
use crate::event::{
    events_view, CharStats, ChatChannel, CombatEvent, DungeonStateKind, DungeonTargetProgress,
    EntityId, EquipSlot, EventView, GameEvent, MatchAlertKind, ModuleEffect, PlayerModule,
    ShieldEntry, SkillLoadoutEntry,
};
use crate::pb::{
    AoiSyncDelta, Attr, CharSerialize, DungeonTargetInfo, EnterMatchResultNtf, Equip, EquipInfo,
    EquipNine, Item, ItemPackage, MatchReadyStatusNtf, Mod, ModInfo, Package,
    NotifyNewestChitChatMsgs, NotifySocialData, ShieldInfo, SkillLevelInfo, SyncContainerData,
    SyncDamageInfo, SyncDungeonData, SyncDungeonDirtyData, SyncNearDeltaInfo, SyncNearEntities,
    SyncToMeDeltaInfo,
};
use crate::seqs::{first_match, key_is, lemma_first_match_at, lemma_first_match_none, pair_get};
use crate::tables::{opt_text, DataTables};
use crate::text::{digits, trim_nul, trim_nul_str, u64_to_dec};
use crate::zones::{zone_label, zone_name};
use crate::wire::{decode_varint, utf8_text, varint_spec};

verus! {

/// Service of world and activity notifications.
pub const SERVICE_UUID: u64 = 0x63335342;

pub const METHOD_SYNC_NEAR_ENTITIES: u32 = 0x00000006;
pub const METHOD_SYNC_CONTAINER_DATA: u32 = 0x00000015;
pub const METHOD_SYNC_NEAR_DELTA_INFO: u32 = 0x0000002D;
pub const METHOD_SYNC_TO_ME_DELTA: u32 = 0x0000002E;
pub const METHOD_SYNC_DUNGEON_DATA: u32 = 0x00000017;
pub const METHOD_SYNC_DUNGEON_DIRTY_DATA: u32 = 0x00000018;

/// Social notification service (scene and zone data).
pub const SOCIAL_NTF_SERVICE_UUID: u64 = 0x254C89A3;
pub const SOCIAL_NTF_METHOD_ID: u32 = 1;

/// Chat service.
pub const CHIT_CHAT_NTF_UUID: u64 = 164931432;
pub const METHOD_NOTIFY_NEWEST_MSGS: u32 = 0x01;

/// Matchmaking service.
pub const MATCH_NTF_UUID: u64 = 822849903;
pub const METHOD_ENTER_MATCH_RESULT: u32 = 0x04;
pub const METHOD_MATCH_READY_STATUS: u32 = 0x06;

// ───────────────────────────── small pieces ─────────────────────────────

/// The entity id a wire uuid stands for: its bits above the low 16.
pub open spec fn uuid_entity(uuid: i64) -> EntityId {
    EntityId((uuid >> 16u64) as u64)
}

pub fn entity_of(uuid: i64) -> (r: EntityId)
    ensures
        r == uuid_entity(uuid),
{
    EntityId((uuid >> 16u64) as u64)
}

/// The module stat effect ids that are shown; others are ignored.
pub open spec fn valid_effect(id: i32) -> bool {
    id == 1110 || id == 1111 || id == 1112 || id == 1113 || id == 1114
        || id == 1205 || id == 1206
        || id == 1307 || id == 1308
        || id == 1407 || id == 1408 || id == 1409 || id == 1410
        || id == 2104 || id == 2105 || id == 2204 || id == 2205 || id == 2304
        || id == 2404 || id == 2405 || id == 2406
}

pub fn is_valid_effect_id(id: i32) -> (r: bool)
    ensures
        r == valid_effect(id),
{
    matches!(id,
        1110 | 1111 | 1112 | 1113 | 1114 |
        1205 | 1206 |
        1307 | 1308 |
        1407 | 1408 | 1409 | 1410 |
        2104 | 2105 | 2204 | 2205 | 2304 |
        2404 | 2405 | 2406
    )
}

pub open spec fn vu32(raw: Seq<u8>) -> Option<u32> {
    match varint_spec(raw) { Some(v) => Some(v as u32), None => None }
}

pub open spec fn vi32(raw: Seq<u8>) -> Option<i32> {
    match varint_spec(raw) { Some(v) => Some(v as i32), None => None }
}

pub open spec fn vi64(raw: Seq<u8>) -> Option<i64> {
    match varint_spec(raw) { Some(v) => Some(v as i64), None => None }
}

fn varint_u32(raw: &Vec<u8>) -> (r: Option<u32>)
    ensures
        r == vu32(raw@),
{
    match decode_varint(raw.as_slice()) { Some(v) => Some(v as u32), None => None }
}

fn varint_i32(raw: &Vec<u8>) -> (r: Option<i32>)
    ensures
        r == vi32(raw@),
{
    match decode_varint(raw.as_slice()) { Some(v) => Some(v as i32), None => None }
}

fn varint_i64(raw: &Vec<u8>) -> (r: Option<i64>)
    ensures
        r == vi64(raw@),
{
    match decode_varint(raw.as_slice()) { Some(v) => Some(v as i64), None => None }
}

/// The name a name attribute holds: the bytes after the first, read as
/// UTF-8 and with NULs trimmed off both ends; nothing when that is empty or
/// not UTF-8.
pub open spec fn attr_name(raw: Seq<u8>) -> Option<Seq<char>> {
    if raw.len() > 1 && vstd::utf8::valid_utf8(raw.drop_first()) {
        let t = trim_nul(vstd::utf8::decode_utf8(raw.drop_first()));
        if t.len() > 0 { Some(t) } else { None }
    } else {
        None
    }
}

pub open spec fn opt_string(r: Option<String>) -> Option<Seq<char>> {
    match r { Some(s) => Some(s@), None => None }
}

fn name_from_attr(raw: &Vec<u8>) -> (r: Option<String>)
    ensures
        opt_string(r) == attr_name(raw@),
{
    if raw.len() <= 1 {
        return None;
    }
    let rest = vstd::slice::slice_subrange(raw.as_slice(), 1, raw.len());
    assert(rest@ =~= raw@.drop_first());
    match utf8_text(rest) {
        Some(s) => {
            let t = trim_nul_str(s.as_str());
            if t.as_str().is_empty() { None } else { Some(t) }
        },
        None => None,
    }
}

/// Appends `src` to `dst`.
fn append_events(dst: &mut Vec<GameEvent>, src: Vec<GameEvent>)
    ensures
        events_view(final(dst)@) == events_view(old(dst)@) + events_view(src@),
{
    let mut src = src;
    let ghost s0 = src@;
    dst.append(&mut src);
    assert(events_view(dst@) =~= events_view(old(dst)@) + events_view(s0));
}

/// Appends one event to `dst`.
fn push_event(dst: &mut Vec<GameEvent>, e: GameEvent)
    ensures
        events_view(final(dst)@) == events_view(old(dst)@).push(e.view()),
{
    let ghost v = e.view();
    dst.push(e);
    assert(events_view(dst@) =~= events_view(old(dst)@).push(v));
}

// ───────────────────────────── damage and heal ─────────────────────────────

/// The uuid credited with an instance: the top summoner where there is one,
/// else the attacker.
pub open spec fn credited_uuid(d: SyncDamageInfo) -> Option<i64> {
    if d.top_summoner_id != 0 {
        Some(d.top_summoner_id)
    } else if d.attacker_uuid != 0 {
        Some(d.attacker_uuid)
    } else {
        None
    }
}

/// The amount of an instance: its value, or the lucky value where the value is 0.
pub open spec fn instance_amount(d: SyncDamageInfo) -> i64 {
    if d.value != 0 { d.value } else { d.lucky_value }
}

/// The combat event of an instance that passed the filters.
pub open spec fn instance_event(target_uuid: i64, d: SyncDamageInfo, source: i64, now_us: u64) -> CombatEvent {
    CombatEvent {
        timestamp_us: now_us,
        source_id: uuid_entity(source),
        target_id: uuid_entity(target_uuid),
        skill_id: d.owner_id as u32,
        damage: instance_amount(d) as u64,
        is_crit: (d.type_flag & 1i32) != 0,
        is_lucky: d.lucky_value != 0,
        is_dot: false,
    }
}

/// A heal instance: skipped without a skill, without a credited uuid or
/// with an amount that is not positive.
pub open spec fn heal_event(target_uuid: i64, d: SyncDamageInfo, now_us: u64) -> Option<CombatEvent> {
    if d.owner_id == 0 {
        None
    } else {
        match credited_uuid(d) {
            None => None,
            Some(src) => if instance_amount(d) <= 0 {
                None
            } else {
                Some(instance_event(target_uuid, d, src, now_us))
            },
        }
    }
}

/// A damage instance: as a heal, and skipped also when it missed or is a heal.
pub open spec fn damage_event(target_uuid: i64, d: SyncDamageInfo, now_us: u64) -> Option<CombatEvent> {
    if d.is_miss || d.damage_type == 2 {
        None
    } else {
        heal_event(target_uuid, d, now_us)
    }
}

/// Who an instance is credited to: the entity at the top of its summon
/// chain where there is one (a summon's hits count for its summoner), else
/// the attacker; with neither it gives no event. The event strikes the
/// target, under the instance's skill, for its value (its lucky value where
/// the value is 0), and only a positive amount with a skill counts.
pub proof fn lemma_instance_credit(target_uuid: i64, d: SyncDamageInfo, now_us: u64)
    ensures
        heal_event(target_uuid, d, now_us) matches Some(e) ==> {
            &&& d.top_summoner_id != 0 ==> e.source_id == EntityId((d.top_summoner_id >> 16u64) as u64)
            &&& d.top_summoner_id == 0 ==> d.attacker_uuid != 0 && e.source_id == EntityId((d.attacker_uuid >> 16u64) as u64)
            &&& e.target_id == EntityId((target_uuid >> 16u64) as u64)
            &&& d.owner_id != 0 && e.skill_id == d.owner_id as u32
            &&& (if d.value != 0 { d.value } else { d.lucky_value }) > 0
            &&& e.damage == (if d.value != 0 { d.value } else { d.lucky_value }) as u64
            &&& e.timestamp_us == now_us
            &&& e.is_crit == ((d.type_flag & 1i32) != 0)
            &&& e.is_lucky == (d.lucky_value != 0)
            &&& !e.is_dot
        },
        d.owner_id != 0 && (d.top_summoner_id != 0 || d.attacker_uuid != 0)
            && (if d.value != 0 { d.value } else { d.lucky_value }) > 0 ==> heal_event(target_uuid, d, now_us) is Some,
        damage_event(target_uuid, d, now_us) is Some ==> !d.is_miss && d.damage_type != 2,
        !d.is_miss && d.damage_type != 2 ==> damage_event(target_uuid, d, now_us) == heal_event(target_uuid, d, now_us),
{
}

fn instance(target_uuid: i64, dmg: &SyncDamageInfo, source: i64, now_us: u64) -> (r: CombatEvent)
    ensures
        r == instance_event(target_uuid, *dmg, source, now_us),
{
    let amount = if dmg.value != 0 { dmg.value } else { dmg.lucky_value };
    CombatEvent {
        timestamp_us: now_us,
        source_id: entity_of(source),
        target_id: entity_of(target_uuid),
        skill_id: dmg.owner_id as u32,
        damage: amount as u64,
        is_crit: (dmg.type_flag & 1i32) != 0,
        is_lucky: dmg.lucky_value != 0,
        is_dot: false,
    }
}

/// The damage event of one instance on `target_uuid`, seen at `now_us`.
pub fn parse_damage(target_uuid: i64, dmg: &SyncDamageInfo, now_us: u64) -> (r: Option<CombatEvent>)
    ensures
        r == damage_event(target_uuid, *dmg, now_us),
        dmg.top_summoner_id != 0 ==> (r matches Some(e) ==> e.source_id == EntityId((dmg.top_summoner_id >> 16u64) as u64)),
{
    proof { lemma_instance_credit(target_uuid, *dmg, now_us); }
    if dmg.is_miss {
        return None;
    }
    if dmg.damage_type == 2 {
        return None;
    }
    parse_heal(target_uuid, dmg, now_us)
}

/// The heal event of one instance on `target_uuid`, seen at `now_us`.
pub fn parse_heal(target_uuid: i64, dmg: &SyncDamageInfo, now_us: u64) -> (r: Option<CombatEvent>)
    ensures
        r == heal_event(target_uuid, *dmg, now_us),
        dmg.top_summoner_id != 0 ==> (r matches Some(e) ==> e.source_id == EntityId((dmg.top_summoner_id >> 16u64) as u64)),
{
    proof { lemma_instance_credit(target_uuid, *dmg, now_us); }
    if dmg.owner_id == 0 {
        return None;
    }
    let source = if dmg.top_summoner_id != 0 {
        dmg.top_summoner_id
    } else if dmg.attacker_uuid != 0 {
        dmg.attacker_uuid
    } else {
        return None;
    };
    let amount = if dmg.value != 0 { dmg.value } else { dmg.lucky_value };
    if amount <= 0 {
        return None;
    }
    Some(instance(target_uuid, dmg, source, now_us))
}

/// The events of the instances on one target, in order: heals (type 2) as
/// `Heal`, the rest as `Combat`, each where it passes its filters.
pub open spec fn instance_events(target_uuid: i64, ds: Seq<SyncDamageInfo>, now_us: u64) -> Seq<EventView>
    decreases ds.len(),
{
    if ds.len() == 0 {
        Seq::empty()
    } else {
        let d = ds.last();
        let prev = instance_events(target_uuid, ds.drop_last(), now_us);
        if d.damage_type == 2 {
            match heal_event(target_uuid, d, now_us) {
                Some(e) => prev.push(EventView::Heal(e)),
                None => prev,
            }
        } else {
            match damage_event(target_uuid, d, now_us) {
                Some(e) => prev.push(EventView::Combat(e)),
                None => prev,
            }
        }
    }
}

fn push_instances(events: &mut Vec<GameEvent>, target_uuid: i64, ds: &Vec<SyncDamageInfo>, now_us: u64)
    ensures
        events_view(final(events)@) == events_view(old(events)@) + instance_events(target_uuid, ds@, now_us),
{
    let mut i: usize = 0;
    while i < ds.len()
        invariant
            i <= ds@.len(),
            events_view(events@) == events_view(old(events)@) + instance_events(target_uuid, ds@.take(i as int), now_us),
        decreases ds@.len() - i,
    {
        let d = &ds[i];
        proof {
            assert(ds@.take(i + 1).drop_last() =~= ds@.take(i as int));
            assert(ds@.take(i + 1).last() == ds@[i as int]);
        }
        if d.damage_type == 2 {
            if let Some(e) = parse_heal(target_uuid, d, now_us) {
                push_event(events, GameEvent::Heal(e));
            }
        } else if let Some(e) = parse_damage(target_uuid, d, now_us) {
            push_event(events, GameEvent::Combat(e));
        }
        i = i + 1;
    }
    assert(ds@.take(ds@.len() as int) =~= ds@);
}

// ───────────────────────────── player attributes ─────────────────────────────

pub open spec fn shield_entry(s: ShieldInfo) -> ShieldEntry {
    ShieldEntry { uuid: s.uuid, value: s.value, initial_value: s.initial_value }
}

pub open spec fn equip_slot_of(e: EquipNine) -> EquipSlot {
    EquipSlot { slot: e.slot, item_id: e.equip_id }
}

pub open spec fn loadout_entry(s: SkillLevelInfo) -> SkillLoadoutEntry {
    SkillLoadoutEntry { skill_id: s.skill_id, current_level: s.current_level, tier: s.remodel_level }
}

fn shield_entries(v: &Vec<ShieldInfo>) -> (r: Vec<ShieldEntry>)
    ensures
        r@ == v@.map_values(|s: ShieldInfo| shield_entry(s)),
{
    let mut r: Vec<ShieldEntry> = Vec::new();
    let mut i: usize = 0;
    while i < v.len()
        invariant
            i <= v@.len(),
            r@ == v@.take(i as int).map_values(|s: ShieldInfo| shield_entry(s)),
        decreases v@.len() - i,
    {
        let s = &v[i];
        r.push(ShieldEntry { uuid: s.uuid, value: s.value, initial_value: s.initial_value });
        assert(v@.take(i + 1) =~= v@.take(i as int).push(v@[i as int]));
        assert(r@ =~= v@.take(i + 1).map_values(|s: ShieldInfo| shield_entry(s)));
        i = i + 1;
    }
    assert(v@.take(v@.len() as int) =~= v@);
    r
}

fn equip_slots(v: &Vec<EquipNine>) -> (r: Vec<EquipSlot>)
    ensures
        r@ == v@.map_values(|e: EquipNine| equip_slot_of(e)),
{
    let mut r: Vec<EquipSlot> = Vec::new();
    let mut i: usize = 0;
    while i < v.len()
        invariant
            i <= v@.len(),
            r@ == v@.take(i as int).map_values(|e: EquipNine| equip_slot_of(e)),
        decreases v@.len() - i,
    {
        let e = &v[i];
        r.push(EquipSlot { slot: e.slot, item_id: e.equip_id });
        assert(v@.take(i + 1) =~= v@.take(i as int).push(v@[i as int]));
        assert(r@ =~= v@.take(i + 1).map_values(|e: EquipNine| equip_slot_of(e)));
        i = i + 1;
    }
    assert(v@.take(v@.len() as int) =~= v@);
    r
}

fn loadout_entries(v: &Vec<SkillLevelInfo>) -> (r: Vec<SkillLoadoutEntry>)
    ensures
        r@ == v@.map_values(|s: SkillLevelInfo| loadout_entry(s)),
{
    let mut r: Vec<SkillLoadoutEntry> = Vec::new();
    let mut i: usize = 0;
    while i < v.len()
        invariant
            i <= v@.len(),
            r@ == v@.take(i as int).map_values(|s: SkillLevelInfo| loadout_entry(s)),
        decreases v@.len() - i,
    {
        let s = &v[i];
        r.push(SkillLoadoutEntry { skill_id: s.skill_id, current_level: s.current_level, tier: s.remodel_level });
        assert(v@.take(i + 1) =~= v@.take(i as int).push(v@[i as int]));
        assert(r@ =~= v@.take(i + 1).map_values(|s: SkillLevelInfo| loadout_entry(s)));
        i = i + 1;
    }
    assert(v@.take(v@.len() as int) =~= v@);
    r
}

/// The snapshot event a list attribute of a player gives: shields (60050),
/// equipment (200) or skills (116); none for an empty value.
pub open spec fn attr_list_event(id: EntityId, a: Attr) -> Option<EventView> {
    if a.raw_data@.len() == 0 {
        None
    } else if a.id == 60050 {
        Some(EventView::ShieldList { id, shields: a.shields@.map_values(|s: ShieldInfo| shield_entry(s)) })
    } else if a.id == 200 {
        Some(EventView::EquipData { id, slots: a.equips@.map_values(|e: EquipNine| equip_slot_of(e)) })
    } else if a.id == 116 {
        Some(EventView::SkillLoadout { id, skills: a.skills@.map_values(|s: SkillLevelInfo| loadout_entry(s)) })
    } else {
        None
    }
}

/// The snapshot events of a player's attributes, in order.
pub open spec fn list_events(id: EntityId, attrs: Seq<Attr>) -> Seq<EventView>
    decreases attrs.len(),
{
    if attrs.len() == 0 {
        Seq::empty()
    } else {
        let prev = list_events(id, attrs.drop_last());
        match attr_list_event(id, attrs.last()) {
            Some(e) => prev.push(e),
            None => prev,
        }
    }
}

/// The player name the attributes give: the last readable name attribute (1).
pub open spec fn player_name(attrs: Seq<Attr>) -> Option<Seq<char>>
    decreases attrs.len(),
{
    if attrs.len() == 0 {
        None
    } else {
        let a = attrs.last();
        if a.raw_data@.len() > 0 && a.id == 1 && attr_name(a.raw_data@) is Some {
            attr_name(a.raw_data@)
        } else {
            player_name(attrs.drop_last())
        }
    }
}

/// The class the attributes give: the last positive profession attribute (220).
pub open spec fn player_class(attrs: Seq<Attr>) -> Option<u32>
    decreases attrs.len(),
{
    if attrs.len() == 0 {
        None
    } else {
        let a = attrs.last();
        if a.raw_data@.len() > 0 && a.id == 220 && varint_spec(a.raw_data@) is Some
            && varint_spec(a.raw_data@)->0 > 0 {
            Some(varint_spec(a.raw_data@)->0 as u32)
        } else {
            player_class(attrs.drop_last())
        }
    }
}

/// One player attribute applied to a stat snapshot: each stat id sets its
/// field to the decoded value (or to nothing where it does not decode).
pub open spec fn player_stat_update(st: CharStats, a: Attr) -> CharStats {
    let raw = a.raw_data@;
    let id = a.id;
    if raw.len() == 0 { st }
    else if id == 10000 { CharStats { level: vu32(raw), ..st } }
    else if id == 10030 { CharStats { ability_score: vu32(raw), ..st } }
    else if id == 11440 { CharStats { season_strength: vu32(raw), ..st } }
    else if id == 11010 { CharStats { strength: vu32(raw), ..st } }
    else if id == 11040 { CharStats { endurance: vu32(raw), ..st } }
    else if id == 11110 { CharStats { crit: vu32(raw), ..st } }
    else if id == 11120 { CharStats { haste: vu32(raw), ..st } }
    else if id == 11130 { CharStats { luck: vu32(raw), ..st } }
    else if id == 11140 { CharStats { mastery: vu32(raw), ..st } }
    else if id == 11150 { CharStats { versatility: vu32(raw), ..st } }
    else if id == 11170 { CharStats { block: vu32(raw), ..st } }
    else if id == 11310 { CharStats { hp: vi64(raw), ..st } }
    else if id == 11320 { CharStats { max_hp: vi64(raw), ..st } }
    else if id == 11330 { CharStats { attack: vi64(raw), ..st } }
    else if id == 11350 { CharStats { armor: vi64(raw), ..st } }
    else if id == 11710 { CharStats { crit_pct: vu32(raw), ..st } }
    else if id == 11780 { CharStats { luck_pct: vu32(raw), ..st } }
    else if id == 11930 { CharStats { haste_pct: vu32(raw), ..st } }
    else if id == 11940 { CharStats { mastery_pct: vu32(raw), ..st } }
    else if id == 11950 { CharStats { versatility_pct: vu32(raw), ..st } }
    else if id == 11970 { CharStats { block_pct: vu32(raw), ..st } }
    else if id == 11720 { CharStats { atk_speed_pct: vu32(raw), ..st } }
    else if id == 11730 { CharStats { cast_speed_pct: vu32(raw), ..st } }
    else if id == 12510 { CharStats { crit_damage: vu32(raw), ..st } }
    else if id == 11 { CharStats { actor_state: vi32(raw), ..st } }
    else { st }
}

/// The stats a player's attributes give, applied in order.
pub open spec fn player_stats(attrs: Seq<Attr>) -> CharStats
    decreases attrs.len(),
{
    if attrs.len() == 0 {
        CharStats::none()
    } else {
        player_stat_update(player_stats(attrs.drop_last()), attrs.last())
    }
}

/// The events of a player's attributes: the snapshot events, then a name
/// event where a name or class was sent, then a stats event where any stat was.
pub open spec fn player_attr_events(id: EntityId, attrs: Seq<Attr>) -> Seq<EventView> {
    let name = player_name(attrs);
    let class = player_class(attrs);
    let stats = player_stats(attrs);
    list_events(id, attrs)
        + (if name is Some || class is Some {
            seq![EventView::EntityName {
                id,
                name: match name { Some(n) => n, None => Seq::empty() },
                class,
                monster_type: None,
                is_player: true,
            }]
        } else {
            Seq::empty()
        })
        + (if stats != CharStats::none() { seq![EventView::EntityStats { id, stats }] } else { Seq::empty() })
}

fn apply_player_attr(stats: &mut CharStats, a: &Attr)
    requires
        a.raw_data@.len() > 0,
    ensures
        *final(stats) == player_stat_update(*old(stats), *a),
{
    let raw = &a.raw_data;
    match a.id {
        10000 => { stats.level = varint_u32(raw); },
        10030 => { stats.ability_score = varint_u32(raw); },
        11440 => { stats.season_strength = varint_u32(raw); },
        11010 => { stats.strength = varint_u32(raw); },
        11040 => { stats.endurance = varint_u32(raw); },
        11110 => { stats.crit = varint_u32(raw); },
        11120 => { stats.haste = varint_u32(raw); },
        11130 => { stats.luck = varint_u32(raw); },
        11140 => { stats.mastery = varint_u32(raw); },
        11150 => { stats.versatility = varint_u32(raw); },
        11170 => { stats.block = varint_u32(raw); },
        11310 => { stats.hp = varint_i64(raw); },
        11320 => { stats.max_hp = varint_i64(raw); },
        11330 => { stats.attack = varint_i64(raw); },
        11350 => { stats.armor = varint_i64(raw); },
        11710 => { stats.crit_pct = varint_u32(raw); },
        11780 => { stats.luck_pct = varint_u32(raw); },
        11930 => { stats.haste_pct = varint_u32(raw); },
        11940 => { stats.mastery_pct = varint_u32(raw); },
        11950 => { stats.versatility_pct = varint_u32(raw); },
        11970 => { stats.block_pct = varint_u32(raw); },
        11720 => { stats.atk_speed_pct = varint_u32(raw); },
        11730 => { stats.cast_speed_pct = varint_u32(raw); },
        12510 => { stats.crit_damage = varint_u32(raw); },
        11 => { stats.actor_state = varint_i32(raw); },
        _ => {},
    }
}

/// The events of a player entity's attributes.
pub fn parse_player_attrs(entity_id: EntityId, attrs: &Vec<Attr>) -> (r: Vec<GameEvent>)
    ensures
        events_view(r@) == player_attr_events(entity_id, attrs@),
{
    let mut events: Vec<GameEvent> = Vec::new();
    let mut i: usize = 0;
    while i < attrs.len()
        invariant
            i <= attrs@.len(),
            events_view(events@) == list_events(entity_id, attrs@.take(i as int)),
        decreases attrs@.len() - i,
    {
        let a = &attrs[i];
        proof {
            assert(attrs@.take(i + 1).drop_last() =~= attrs@.take(i as int));
            assert(attrs@.take(i + 1).last() == attrs@[i as int]);
        }
        if a.raw_data.len() > 0 {
            if a.id == 60050 {
                push_event(&mut events, GameEvent::ShieldList { id: entity_id, shields: shield_entries(&a.shields) });
            } else if a.id == 200 {
                push_event(&mut events, GameEvent::EquipData { id: entity_id, slots: equip_slots(&a.equips) });
            } else if a.id == 116 {
                push_event(&mut events, GameEvent::SkillLoadout { id: entity_id, skills: loadout_entries(&a.skills) });
            }
        }
        i = i + 1;
    }
    assert(attrs@.take(attrs@.len() as int) =~= attrs@);

    let mut name: Option<String> = None;
    let mut class: Option<u32> = None;
    let mut stats = CharStats::empty();
    let mut j: usize = 0;
    while j < attrs.len()
        invariant
            j <= attrs@.len(),
            events_view(events@) == list_events(entity_id, attrs@),
            opt_string(name) == player_name(attrs@.take(j as int)),
            class == player_class(attrs@.take(j as int)),
            stats == player_stats(attrs@.take(j as int)),
        decreases attrs@.len() - j,
    {
        let a = &attrs[j];
        proof {
            assert(attrs@.take(j + 1).drop_last() =~= attrs@.take(j as int));
            assert(attrs@.take(j + 1).last() == attrs@[j as int]);
        }
        if a.raw_data.len() > 0 {
            if a.id == 1 {
                let n = name_from_attr(&a.raw_data);
                if n.is_some() {
                    name = n;
                }
            } else if a.id == 220 {
                if let Some(v) = decode_varint(a.raw_data.as_slice()) {
                    if v > 0 {
                        class = Some(v as u32);
                    }
                }
            }
            apply_player_attr(&mut stats, a);
        }
        j = j + 1;
    }
    let ghost all = attrs@;
    assert(all.take(all.len() as int) =~= all);
    if name.is_some() || class.is_some() {
        let n = match name { Some(n) => n, None => String::new() };
        push_event(&mut events, GameEvent::EntityName { id: entity_id, name: n, class, monster_type: None, is_player: true });
    }
    if !stats.is_empty() {
        push_event(&mut events, GameEvent::EntityStats { id: entity_id, stats });
    }
    proof {
        let nm = player_name(all);
        let cl = player_class(all);
        let st = player_stats(all);
        assert(events_view(events@) =~= player_attr_events(entity_id, all));
    }
    events
}

// ───────────────────────────── NPC attributes ─────────────────────────────

/// The name an NPC's attributes spell out directly: the last readable name
/// attribute (1).
pub open spec fn npc_direct_name(attrs: Seq<Attr>) -> Option<Seq<char>>
    decreases attrs.len(),
{
    if attrs.len() == 0 {
        None
    } else {
        let a = attrs.last();
        if a.id == 1 && attr_name(a.raw_data@) is Some {
            attr_name(a.raw_data@)
        } else {
            npc_direct_name(attrs.drop_last())
        }
    }
}

/// The config id an NPC's attributes give: the last decodable id attribute (10).
pub open spec fn npc_config(attrs: Seq<Attr>) -> Option<u32>
    decreases attrs.len(),
{
    if attrs.len() == 0 {
        None
    } else {
        let a = attrs.last();
        if a.id == 10 && vu32(a.raw_data@) is Some {
            vu32(a.raw_data@)
        } else {
            npc_config(attrs.drop_last())
        }
    }
}

/// One NPC attribute applied to its stats: hp, max hp, state and season strength.
pub open spec fn npc_stat_update(st: CharStats, a: Attr) -> CharStats {
    let raw = a.raw_data@;
    if a.id == 11310 { CharStats { hp: vi64(raw), ..st } }
    else if a.id == 11320 { CharStats { max_hp: vi64(raw), ..st } }
    else if a.id == 11 { CharStats { actor_state: vi32(raw), ..st } }
    else if a.id == 11440 { CharStats { season_strength: vu32(raw), ..st } }
    else { st }
}

pub open spec fn npc_stats(attrs: Seq<Attr>) -> CharStats
    decreases attrs.len(),
{
    if attrs.len() == 0 {
        CharStats::none()
    } else {
        npc_stat_update(npc_stats(attrs.drop_last()), attrs.last())
    }
}

/// The name an NPC is shown under: the monster (type 1) or dummy (type 11)
/// table's name for its config id, else the name it carries.
pub open spec fn npc_name(tables: &DataTables, ent_type: i32, attrs: Seq<Attr>) -> Option<Seq<char>> {
    let looked = match npc_config(attrs) {
        Some(id) => if ent_type == 1 {
            tables.monster_label(id)
        } else if ent_type == 11 {
            tables.dummy_label(id)
        } else {
            None
        },
        None => None,
    };
    if looked is Some { looked } else { npc_direct_name(attrs) }
}

/// The events of an NPC's attributes: its name where one is known, then its
/// stats where any was sent.
pub open spec fn npc_attr_events(tables: &DataTables, id: EntityId, ent_type: i32, attrs: Seq<Attr>) -> Seq<EventView> {
    let stats = npc_stats(attrs);
    let monster_type = if ent_type == 1 {
        match npc_config(attrs) { Some(c) => tables.monster_kind(c), None => None }
    } else {
        None
    };
    (match npc_name(tables, ent_type, attrs) {
        Some(n) => seq![EventView::EntityName { id, name: n, class: None, monster_type, is_player: false }],
        None => Seq::empty(),
    })
        + (if stats != CharStats::none() { seq![EventView::EntityStats { id, stats }] } else { Seq::empty() })
}

fn apply_npc_attr(stats: &mut CharStats, a: &Attr)
    ensures
        *final(stats) == npc_stat_update(*old(stats), *a),
{
    let raw = &a.raw_data;
    match a.id {
        11310 => { stats.hp = varint_i64(raw); },
        11320 => { stats.max_hp = varint_i64(raw); },
        11 => { stats.actor_state = varint_i32(raw); },
        11440 => { stats.season_strength = varint_u32(raw); },
        _ => {},
    }
}

/// The events of a monster's or dummy's attributes.
pub fn parse_npc_attrs(tables: &DataTables, entity_id: EntityId, ent_type: i32, attrs: &Vec<Attr>) -> (r: Vec<GameEvent>)
    ensures
        events_view(r@) == npc_attr_events(tables, entity_id, ent_type, attrs@),
{
    let mut name_direct: Option<String> = None;
    let mut config_id: Option<u32> = None;
    let mut stats = CharStats::empty();
    let mut i: usize = 0;
    while i < attrs.len()
        invariant
            i <= attrs@.len(),
            opt_string(name_direct) == npc_direct_name(attrs@.take(i as int)),
            config_id == npc_config(attrs@.take(i as int)),
            stats == npc_stats(attrs@.take(i as int)),
        decreases attrs@.len() - i,
    {
        let a = &attrs[i];
        proof {
            assert(attrs@.take(i + 1).drop_last() =~= attrs@.take(i as int));
            assert(attrs@.take(i + 1).last() == attrs@[i as int]);
        }
        if a.id == 1 {
            let n = name_from_attr(&a.raw_data);
            if n.is_some() {
                name_direct = n;
            }
        } else if a.id == 10 {
            let c = varint_u32(&a.raw_data);
            if c.is_some() {
                config_id = c;
            }
        }
        apply_npc_attr(&mut stats, a);
        i = i + 1;
    }
    let ghost all = attrs@;
    assert(all.take(all.len() as int) =~= all);

    let looked: Option<&str> = match config_id {
        Some(id) => if ent_type == 1 {
            tables.monster_name(id)
        } else if ent_type == 11 {
            tables.dummy_name(id)
        } else {
            None
        },
        None => None,
    };
    let resolved: Option<String> = match looked {
        Some(s) => Some(String::from_str(s)),
        None => name_direct,
    };
    let monster_type = if ent_type == 1 {
        match config_id { Some(c) => tables.monster_type(c), None => None }
    } else {
        None
    };
    let mut events: Vec<GameEvent> = Vec::new();
    if let Some(name) = resolved {
        push_event(&mut events, GameEvent::EntityName { id: entity_id, name, class: None, monster_type, is_player: false });
    }
    if !stats.is_empty() {
        push_event(&mut events, GameEvent::EntityStats { id: entity_id, stats });
    }
    assert(events_view(events@) =~= npc_attr_events(tables, entity_id, ent_type, all));
    events
}

// ───────────────────────────── entity deltas ─────────────────────────────

/// The entity type a delta's uuid carries in its bits 6..=10.
pub open spec fn uuid_ent_type(uuid: i64) -> i32 {
    ((uuid >> 6u64) & 31i64) as i32
}

/// The events of one entity delta, read with uuid `uuid`: its attributes
/// (as a player's where `as_player` or where the uuid says player, else as an
/// NPC's), then its damage and heal instances. Nothing for uuid 0.
pub open spec fn delta_events(tables: &DataTables, uuid: i64, d: AoiSyncDelta, now_us: u64, as_player: bool) -> Seq<EventView> {
    if uuid == 0 {
        Seq::empty()
    } else {
        let id = uuid_entity(uuid);
        let et = uuid_ent_type(uuid);
        (match d.attrs {
            Some(c) => if as_player || et == 10 {
                player_attr_events(id, c.attrs@)
            } else {
                npc_attr_events(tables, id, et, c.attrs@)
            },
            None => Seq::empty(),
        }) + (match d.skill_effects {
            Some(se) => instance_events(uuid, se.damages@, now_us),
            None => Seq::empty(),
        })
    }
}

fn delta_with_uuid(tables: &DataTables, uuid: i64, delta: &AoiSyncDelta, now_us: u64, as_player: bool) -> (r: Vec<GameEvent>)
    ensures
        events_view(r@) == delta_events(tables, uuid, *delta, now_us, as_player),
{
    let mut events: Vec<GameEvent> = Vec::new();
    if uuid == 0 {
        return events;
    }
    let target_id = entity_of(uuid);
    let ent_type: i32 = ((uuid >> 6u64) & 31i64) as i32;
    if let Some(c) = &delta.attrs {
        if as_player || ent_type == 10 {
            append_events(&mut events, parse_player_attrs(target_id, &c.attrs));
        } else {
            append_events(&mut events, parse_npc_attrs(tables, target_id, ent_type, &c.attrs));
        }
    }
    if let Some(se) = &delta.skill_effects {
        push_instances(&mut events, uuid, &se.damages, now_us);
    }
    proof {
        assert(events_view(events@) =~= delta_events(tables, uuid, *delta, now_us, as_player));
    }
    events
}

/// The events of an entity delta, its kind taken from its uuid.
pub fn parse_aoi_sync_delta(tables: &DataTables, delta: &AoiSyncDelta, now_us: u64) -> (r: Vec<GameEvent>)
    ensures
        events_view(r@) == delta_events(tables, delta.uuid, *delta, now_us, false),
{
    delta_with_uuid(tables, delta.uuid, delta, now_us, false)
}

/// The events of an entity delta that is known to be a player.
pub fn parse_aoi_sync_delta_as_player(tables: &DataTables, delta: &AoiSyncDelta, now_us: u64) -> (r: Vec<GameEvent>)
    ensures
        events_view(r@) == delta_events(tables, delta.uuid, *delta, now_us, true),
{
    delta_with_uuid(tables, delta.uuid, delta, now_us, true)
}

/// The events of a batch of deltas, one after the other.
pub open spec fn near_delta_events(tables: &DataTables, ds: Seq<AoiSyncDelta>, now_us: u64) -> Seq<EventView>
    decreases ds.len(),
{
    if ds.len() == 0 {
        Seq::empty()
    } else {
        near_delta_events(tables, ds.drop_last(), now_us) + delta_events(tables, ds.last().uuid, ds.last(), now_us, false)
    }
}

/// The events of a nearby-entities delta batch.
pub fn parse_sync_near_delta_info(tables: &DataTables, msg: &SyncNearDeltaInfo, now_us: u64) -> (r: Vec<GameEvent>)
    ensures
        events_view(r@) == near_delta_events(tables, msg.delta_infos@, now_us),
{
    let ds = &msg.delta_infos;
    let mut events: Vec<GameEvent> = Vec::new();
    let mut i: usize = 0;
    while i < ds.len()
        invariant
            i <= ds@.len(),
            events_view(events@) == near_delta_events(tables, ds@.take(i as int), now_us),
        decreases ds@.len() - i,
    {
        proof {
            assert(ds@.take(i + 1).drop_last() =~= ds@.take(i as int));
            assert(ds@.take(i + 1).last() == ds@[i as int]);
        }
        append_events(&mut events, parse_aoi_sync_delta(tables, &ds[i], now_us));
        i = i + 1;
    }
    assert(ds@.take(ds@.len() as int) =~= ds@);
    events
}

/// The events of the own-character delta: the local player (where the outer
/// uuid is set), then the inner delta read as a player's, under the outer
/// uuid where its own is 0.
pub open spec fn to_me_events(tables: &DataTables, msg: SyncToMeDeltaInfo, now_us: u64) -> Seq<EventView> {
    match msg.delta_info {
        None => Seq::empty(),
        Some(di) => {
            (if di.uuid != 0 { seq![EventView::LocalPlayer { id: uuid_entity(di.uuid) }] } else { Seq::empty() })
                + match di.base_delta {
                    Some(b) => delta_events(tables, if b.uuid == 0 { di.uuid } else { b.uuid }, b, now_us, true),
                    None => Seq::empty(),
                }
        },
    }
}

pub fn parse_sync_to_me_delta(tables: &DataTables, msg: &SyncToMeDeltaInfo, now_us: u64) -> (r: Vec<GameEvent>)
    ensures
        events_view(r@) == to_me_events(tables, *msg, now_us),
{
    let mut events: Vec<GameEvent> = Vec::new();
    if let Some(di) = &msg.delta_info {
        let outer = di.uuid;
        if outer != 0 {
            push_event(&mut events, GameEvent::LocalPlayer { id: entity_of(outer) });
        }
        if let Some(base) = &di.base_delta {
            let uuid = if base.uuid == 0 { outer } else { base.uuid };
            append_events(&mut events, delta_with_uuid(tables, uuid, base, now_us, true));
        }
        proof {
            assert(events_view(events@) =~= to_me_events(tables, *msg, now_us));
        }
    }
    events
}

// ───────────────────────────── entity appear / disappear ─────────────────────────────

/// The events of one appearing entity: players (type 10) and monsters or
/// dummies (1, 11) with attributes are read; uuid 0 is skipped.
pub open spec fn appear_events(tables: &DataTables, e: crate::pb::Entity) -> Seq<EventView> {
    if e.uuid == 0 {
        Seq::empty()
    } else {
        let id = uuid_entity(e.uuid);
        match e.attrs {
            Some(c) => if e.ent_type == 10 {
                player_attr_events(id, c.attrs@)
            } else if e.ent_type == 1 || e.ent_type == 11 {
                npc_attr_events(tables, id, e.ent_type, c.attrs@)
            } else {
                Seq::empty()
            },
            None => Seq::empty(),
        }
    }
}

pub open spec fn appear_all(tables: &DataTables, es: Seq<crate::pb::Entity>) -> Seq<EventView>
    decreases es.len(),
{
    if es.len() == 0 {
        Seq::empty()
    } else {
        appear_all(tables, es.drop_last()) + appear_events(tables, es.last())
    }
}

pub open spec fn disappear_all(ds: Seq<crate::pb::DisappearEntity>) -> Seq<EventView>
    decreases ds.len(),
{
    if ds.len() == 0 {
        Seq::empty()
    } else {
        let prev = disappear_all(ds.drop_last());
        if ds.last().uuid == 0 { prev } else { prev.push(EventView::EntityDespawn { id: uuid_entity(ds.last().uuid) }) }
    }
}

/// The events of entities coming into and going out of view.
pub fn parse_sync_near_entities(tables: &DataTables, msg: &SyncNearEntities) -> (r: Vec<GameEvent>)
    ensures
        events_view(r@) == appear_all(tables, msg.appear@) + disappear_all(msg.disappear@),
{
    let mut events: Vec<GameEvent> = Vec::new();
    let es = &msg.appear;
    let mut i: usize = 0;
    while i < es.len()
        invariant
            i <= es@.len(),
            events_view(events@) == appear_all(tables, es@.take(i as int)),
        decreases es@.len() - i,
    {
        proof {
            assert(es@.take(i + 1).drop_last() =~= es@.take(i as int));
            assert(es@.take(i + 1).last() == es@[i as int]);
        }
        let e = &es[i];
        if e.uuid != 0 {
            let id = entity_of(e.uuid);
            if let Some(c) = &e.attrs {
                if e.ent_type == 10 {
                    append_events(&mut events, parse_player_attrs(id, &c.attrs));
                } else if e.ent_type == 1 || e.ent_type == 11 {
                    append_events(&mut events, parse_npc_attrs(tables, id, e.ent_type, &c.attrs));
                }
            }
        }
        assert(events_view(events@) =~= appear_all(tables, es@.take(i + 1)));
        i = i + 1;
    }
    assert(es@.take(es@.len() as int) =~= es@);
    let ghost appeared = events_view(events@);
    let ds = &msg.disappear;
    let mut j: usize = 0;
    while j < ds.len()
        invariant
            j <= ds@.len(),
            events_view(events@) == appeared + disappear_all(ds@.take(j as int)),
        decreases ds@.len() - j,
    {
        proof {
            assert(ds@.take(j + 1).drop_last() =~= ds@.take(j as int));
            assert(ds@.take(j + 1).last() == ds@[j as int]);
        }
        let gone = ds[j];
        if gone.uuid != 0 {
            push_event(&mut events, GameEvent::EntityDespawn { id: entity_of(gone.uuid) });
        }
        assert(events_view(events@) =~= appeared + disappear_all(ds@.take(j + 1)));
        j = j + 1;
    }
    assert(ds@.take(ds@.len() as int) =~= ds@);
    events
}

// ───────────────────────────── zone changes ─────────────────────────────

/// The name a map id is shown under: the dungeon table's, else the built-in
/// zone table's, else `Zone N`.
pub open spec fn zone_display(tables: &DataTables, id: u32) -> Seq<char> {
    match tables.dungeon_label(id as i64) {
        Some(n) => n,
        None => match zone_label(id) {
            Some(n) => n,
            None => "Zone "@ + digits(id as nat, 10),
        },
    }
}

/// A zone change for a scene with a non-zero map id.
pub open spec fn social_events(tables: &DataTables, msg: NotifySocialData) -> Seq<EventView> {
    match msg.v_request {
        Some(r) => match r.data {
            Some(d) => match d.scene_data {
                Some(sc) => if sc.level_map_id != 0 {
                    seq![EventView::ZoneChange { zone_id: sc.level_map_id, zone_name: zone_display(tables, sc.level_map_id) }]
                } else {
                    Seq::empty()
                },
                None => Seq::empty(),
            },
            None => Seq::empty(),
        },
        None => Seq::empty(),
    }
}

pub fn parse_notify_social_data(tables: &DataTables, msg: &NotifySocialData) -> (r: Vec<GameEvent>)
    ensures
        events_view(r@) == social_events(tables, *msg),
{
    let mut events: Vec<GameEvent> = Vec::new();
    if let Some(req) = msg.v_request {
        if let Some(d) = req.data {
            if let Some(sc) = d.scene_data {
                let id = sc.level_map_id;
                if id != 0 {
                    let name: String = match tables.dungeon_name(id as i64) {
                        Some(n) => String::from_str(n),
                        None => match zone_name(id) {
                            Some(n) => String::from_str(n),
                            None => {
                                let mut t = String::from_str("Zone ");
                                let d = u64_to_dec(id as u64);
                                t.append(d.as_str());
                                t
                            },
                        },
                    };
                    proof { reveal_strlit("Zone "); }
                    push_event(&mut events, GameEvent::ZoneChange { zone_id: id, zone_name: name });
                }
            }
        }
    }
    events
}

// ───────────────────────────── own character ─────────────────────────────

fn find_package(s: &Vec<(i32, Package)>, k: i32) -> (r: Option<&Package>)
    ensures
        match r { Some(v) => pair_get(s@, k) == Some(*v), None => pair_get(s@, k) is None },
{
    let ghost p = key_is::<i32, Package>(k);
    let mut i: usize = 0;
    while i < s.len()
        invariant
            i <= s@.len(),
            p == key_is::<i32, Package>(k),
            forall|j: int| 0 <= j < i ==> !p(#[trigger] s@[j]),
        decreases s@.len() - i,
    {
        if s[i].0 == k {
            proof { lemma_first_match_at(s@, p, i as int); }
            return Some(&s[i].1);
        }
        i = i + 1;
    }
    proof { lemma_first_match_none(s@, p); }
    None
}

fn find_item(s: &Vec<(i64, Item)>, k: i64) -> (r: Option<&Item>)
    ensures
        match r { Some(v) => pair_get(s@, k) == Some(*v), None => pair_get(s@, k) is None },
{
    let ghost p = key_is::<i64, Item>(k);
    let mut i: usize = 0;
    while i < s.len()
        invariant
            i <= s@.len(),
            p == key_is::<i64, Item>(k),
            forall|j: int| 0 <= j < i ==> !p(#[trigger] s@[j]),
        decreases s@.len() - i,
    {
        if s[i].0 == k {
            proof { lemma_first_match_at(s@, p, i as int); }
            return Some(&s[i].1);
        }
        i = i + 1;
    }
    proof { lemma_first_match_none(s@, p); }
    None
}

fn find_mod_info(s: &Vec<(i64, ModInfo)>, k: i64) -> (r: Option<&ModInfo>)
    ensures
        match r { Some(v) => pair_get(s@, k) == Some(*v), None => pair_get(s@, k) is None },
{
    let ghost p = key_is::<i64, ModInfo>(k);
    let mut i: usize = 0;
    while i < s.len()
        invariant
            i <= s@.len(),
            p == key_is::<i64, ModInfo>(k),
            forall|j: int| 0 <= j < i ==> !p(#[trigger] s@[j]),
        decreases s@.len() - i,
    {
        if s[i].0 == k {
            proof { lemma_first_match_at(s@, p, i as int); }
            return Some(&s[i].1);
        }
        i = i + 1;
    }
    proof { lemma_first_match_none(s@, p); }
    None
}

/// The first `n` module parts that are shown stats, each with the link level
/// at its position (0 beyond the links).
pub open spec fn module_effects(parts: Seq<i32>, links: Seq<i32>, n: int) -> Seq<ModuleEffect>
    decreases n,
{
    if n <= 0 {
        Seq::empty()
    } else {
        let prev = module_effects(parts, links, n - 1);
        let i = n - 1;
        if valid_effect(parts[i]) {
            prev.push(ModuleEffect { effect_id: parts[i], level: if i < links.len() { links[i] } else { 0 } })
        } else {
            prev
        }
    }
}

/// The link levels recorded for an item key.
pub open spec fn link_levels(md: Option<&Mod>, key: i64) -> Seq<i32> {
    match md {
        Some(m) => match pair_get(m.mod_infos@, key) {
            Some(mi) => mi.init_link_nums@,
            None => Seq::empty(),
        },
        None => Seq::empty(),
    }
}

/// The module an inventory item is: one with module parts, of which at
/// least one is a shown stat.
pub open spec fn item_module(key: i64, item: Item, md: Option<&Mod>) -> Option<(i32, Seq<ModuleEffect>)> {
    match item.mod_new_attr {
        Some(ma) => {
            let parts = ma.mod_parts@;
            let effects = module_effects(parts, link_levels(md, key), parts.len() as int);
            if parts.len() > 0 && effects.len() > 0 { Some((item.config_id, effects)) } else { None }
        },
        None => None,
    }
}

pub open spec fn items_modules(items: Seq<(i64, Item)>, md: Option<&Mod>) -> Seq<(i32, Seq<ModuleEffect>)>
    decreases items.len(),
{
    if items.len() == 0 {
        Seq::empty()
    } else {
        let prev = items_modules(items.drop_last(), md);
        match item_module(items.last().0, items.last().1, md) {
            Some(m) => prev.push(m),
            None => prev,
        }
    }
}

pub open spec fn packages_modules(pkgs: Seq<(i32, Package)>, md: Option<&Mod>) -> Seq<(i32, Seq<ModuleEffect>)>
    decreases pkgs.len(),
{
    if pkgs.len() == 0 {
        Seq::empty()
    } else {
        packages_modules(pkgs.drop_last(), md) + items_modules(pkgs.last().1.items@, md)
    }
}

/// The modules held across all packages, package by package, item by item.
pub open spec fn module_list(pkg: Option<&ItemPackage>, md: Option<&Mod>) -> Seq<(i32, Seq<ModuleEffect>)> {
    match pkg {
        Some(p) => packages_modules(p.packages@, md),
        None => Seq::empty(),
    }
}

pub open spec fn modules_view(ms: Seq<PlayerModule>) -> Seq<(i32, Seq<ModuleEffect>)> {
    ms.map_values(|m: PlayerModule| m.view())
}

fn effects_of(parts: &Vec<i32>, links: &Vec<i32>) -> (r: Vec<ModuleEffect>)
    ensures
        r@ == module_effects(parts@, links@, parts@.len() as int),
{
    let mut effects: Vec<ModuleEffect> = Vec::new();
    let mut i: usize = 0;
    while i < parts.len()
        invariant
            i <= parts@.len(),
            effects@ == module_effects(parts@, links@, i as int),
        decreases parts@.len() - i,
    {
        let effect_id = parts[i];
        let level = if i < links.len() { links[i] } else { 0 };
        if is_valid_effect_id(effect_id) {
            effects.push(ModuleEffect { effect_id, level });
        }
        i = i + 1;
    }
    effects
}

fn module_of(key: i64, item: &Item, mod_data: Option<&Mod>) -> (r: Option<PlayerModule>)
    ensures
        match r {
            Some(m) => item_module(key, *item, mod_data) == Some(m.view()),
            None => item_module(key, *item, mod_data) is None,
        },
{
    let ma = match &item.mod_new_attr { Some(ma) => ma, None => { return None; } };
    if ma.mod_parts.len() == 0 {
        return None;
    }
    let empty: Vec<i32> = Vec::new();
    let info = match mod_data { Some(m) => find_mod_info(&m.mod_infos, key), None => None };
    let links: &Vec<i32> = match info { Some(mi) => &mi.init_link_nums, None => &empty };
    assert(links@ == link_levels(mod_data, key));
    let effects = effects_of(&ma.mod_parts, links);
    if effects.len() == 0 {
        return None;
    }
    Some(PlayerModule { config_id: item.config_id, effects })
}

/// The modules found in the inventory, with their stat effects and link levels.
pub fn extract_modules(item_package: Option<&ItemPackage>, mod_data: Option<&Mod>) -> (r: Vec<PlayerModule>)
    ensures
        modules_view(r@) == module_list(item_package, mod_data),
{
    let mut modules: Vec<PlayerModule> = Vec::new();
    let pkg = match item_package { Some(p) => p, None => { return modules; } };
    let pkgs = &pkg.packages;
    let mut i: usize = 0;
    while i < pkgs.len()
        invariant
            i <= pkgs@.len(),
            modules_view(modules@) == packages_modules(pkgs@.take(i as int), mod_data),
        decreases pkgs@.len() - i,
    {
        proof {
            assert(pkgs@.take(i + 1).drop_last() =~= pkgs@.take(i as int));
            assert(pkgs@.take(i + 1).last() == pkgs@[i as int]);
        }
        let items = &pkgs[i].1.items;
        let ghost before = modules_view(modules@);
        let mut j: usize = 0;
        while j < items.len()
            invariant
                j <= items@.len(),
                modules_view(modules@) == before + items_modules(items@.take(j as int), mod_data),
            decreases items@.len() - j,
        {
            proof {
                assert(items@.take(j + 1).drop_last() =~= items@.take(j as int));
                assert(items@.take(j + 1).last() == items@[j as int]);
            }
            let ghost mid = modules@;
            if let Some(m) = module_of(items[j].0, &items[j].1, mod_data) {
                modules.push(m);
                assert(modules_view(modules@) =~= modules_view(mid).push(modules@.last().view()));
            }
            assert(modules_view(modules@) =~= before + items_modules(items@.take(j + 1), mod_data));
            j = j + 1;
        }
        assert(items@.take(items@.len() as int) =~= items@);
        assert(modules_view(modules@) =~= packages_modules(pkgs@.take(i + 1), mod_data));
        i = i + 1;
    }
    assert(pkgs@.take(pkgs@.len() as int) =~= pkgs@);
    modules
}

/// Equipped slots whose item is found in the gear bag, in the order of the
/// equipment list, each with the item's config id.
pub open spec fn equipped_slots(equips: Seq<(i32, EquipInfo)>, bag: Seq<(i64, Item)>) -> Seq<EquipSlot>
    decreases equips.len(),
{
    if equips.len() == 0 {
        Seq::empty()
    } else {
        let prev = equipped_slots(equips.drop_last(), bag);
        let info = equips.last().1;
        match pair_get(bag, info.item_uuid) {
            Some(item) => prev.push(EquipSlot { slot: info.equip_slot, item_id: item.config_id }),
            None => prev,
        }
    }
}

/// The gear bag is package 2.
pub open spec fn container_slots(v: CharSerialize) -> Seq<EquipSlot> {
    match (v.equip, v.item_package) {
        (Some(eq), Some(pkg)) => match pair_get(pkg.packages@, 2i32) {
            Some(bag) => equipped_slots(eq.equip_list@, bag.items@),
            None => Seq::empty(),
        },
        _ => Seq::empty(),
    }
}

/// The events of the own character's full data: its name and class where
/// known, the local player, its ability score where positive, its modules
/// where any, and its equipped gear where any. Nothing for character id 0.
pub open spec fn container_events(msg: SyncContainerData) -> Seq<EventView> {
    match msg.v_data {
        None => Seq::empty(),
        Some(v) => if v.char_id == 0 {
            Seq::empty()
        } else {
            let id = EntityId(v.char_id as u64);
            let name = match v.char_base { Some(b) => b.name@, None => Seq::empty() };
            let class = match v.profession_list { Some(p) => Some(p.cur_profession_id as u32), None => None };
            let modules = module_list(
                match v.item_package { Some(p) => Some(&p), None => None },
                match v.mod_data { Some(m) => Some(&m), None => None },
            );
            let slots = container_slots(v);
            (if name.len() > 0 || class is Some {
                seq![EventView::EntityName { id, name, class, monster_type: None, is_player: true }]
            } else {
                Seq::empty()
            })
                + seq![EventView::LocalPlayer { id }]
                + (match v.char_base {
                    Some(b) => if b.fight_point > 0 {
                        seq![EventView::EntityStats {
                            id,
                            stats: CharStats { ability_score: Some(b.fight_point as u32), ..CharStats::none() },
                        }]
                    } else {
                        Seq::empty()
                    },
                    None => Seq::empty(),
                })
                + (if modules.len() > 0 { seq![EventView::PlayerInventory { id, modules }] } else { Seq::empty() })
                + (if slots.len() > 0 { seq![EventView::EquipData { id, slots }] } else { Seq::empty() })
        },
    }
}

fn gear_slots(equip: &Equip, bag: &Package) -> (r: Vec<EquipSlot>)
    ensures
        r@ == equipped_slots(equip.equip_list@, bag.items@),
{
    let list = &equip.equip_list;
    let mut slots: Vec<EquipSlot> = Vec::new();
    let mut i: usize = 0;
    while i < list.len()
        invariant
            i <= list@.len(),
            slots@ == equipped_slots(list@.take(i as int), bag.items@),
        decreases list@.len() - i,
    {
        proof {
            assert(list@.take(i + 1).drop_last() =~= list@.take(i as int));
            assert(list@.take(i + 1).last() == list@[i as int]);
        }
        let info = &list[i].1;
        if let Some(item) = find_item(&bag.items, info.item_uuid) {
            slots.push(EquipSlot { slot: info.equip_slot, item_id: item.config_id });
        }
        i = i + 1;
    }
    assert(list@.take(list@.len() as int) =~= list@);
    slots
}

/// The events of the own character's full data.
pub fn parse_sync_container_data(msg: &SyncContainerData) -> (r: Vec<GameEvent>)
    ensures
        events_view(r@) == container_events(*msg),
{
    let mut events: Vec<GameEvent> = Vec::new();
    let v = match &msg.v_data { Some(v) => v, None => { return events; } };
    if v.char_id == 0 {
        return events;
    }
    let entity_id = EntityId(v.char_id as u64);
    let name: String = match &v.char_base { Some(b) => b.name.clone(), None => String::new() };
    let class: Option<u32> = match v.profession_list { Some(p) => Some(p.cur_profession_id as u32), None => None };
    if !name.as_str().is_empty() || class.is_some() {
        push_event(&mut events, GameEvent::EntityName { id: entity_id, name, class, monster_type: None, is_player: true });
    }
    push_event(&mut events, GameEvent::LocalPlayer { id: entity_id });
    if let Some(b) = &v.char_base {
        if b.fight_point > 0 {
            let mut stats = CharStats::empty();
            stats.ability_score = Some(b.fight_point as u32);
            push_event(&mut events, GameEvent::EntityStats { id: entity_id, stats });
        }
    }
    let pkg_ref: Option<&ItemPackage> = match &v.item_package { Some(p) => Some(p), None => None };
    let mod_ref: Option<&Mod> = match &v.mod_data { Some(m) => Some(m), None => None };
    let modules = extract_modules(pkg_ref, mod_ref);
    if modules.len() > 0 {
        let ghost mv = modules_view(modules@);
        push_event(&mut events, GameEvent::PlayerInventory { id: entity_id, modules });
    }
    if let (Some(equip), Some(item_package)) = (&v.equip, &v.item_package) {
        if let Some(gear_bag) = find_package(&item_package.packages, 2) {
            let slots = gear_slots(equip, gear_bag);
            if slots.len() > 0 {
                push_event(&mut events, GameEvent::EquipData { id: entity_id, slots });
            }
        }
    }
    proof {
        assert(events_view(events@) =~= container_events(*msg));
    }
    events
}

// ───────────────────────────── chat and matchmaking ─────────────────────────────

/// A chat event for a message with text; the sender's name and id where sent.
pub open spec fn chat_events(msg: NotifyNewestChitChatMsgs) -> Seq<EventView> {
    match msg.v_request {
        None => Seq::empty(),
        Some(req) => match req.chat_msg {
            None => Seq::empty(),
            Some(chat) => match chat.msg_info {
                None => Seq::empty(),
                Some(info) => if info.msg_text@.len() == 0 {
                    Seq::empty()
                } else {
                    let (sender_name, sender_uid) = match chat.send_char_info {
                        Some(i) => (i.name@, i.char_id as u64),
                        None => (Seq::<char>::empty(), 0u64),
                    };
                    seq![EventView::Chat {
                        channel: ChatChannel::of(req.channel_type),
                        sender_name,
                        sender_uid,
                        text: info.msg_text@,
                    }]
                },
            },
        },
    }
}

pub fn parse_chat(msg: &NotifyNewestChitChatMsgs) -> (r: Vec<GameEvent>)
    ensures
        events_view(r@) == chat_events(*msg),
{
    let mut events: Vec<GameEvent> = Vec::new();
    let req = match &msg.v_request { Some(r) => r, None => { return events; } };
    let chat = match &req.chat_msg { Some(c) => c, None => { return events; } };
    let info = match &chat.msg_info { Some(i) => i, None => { return events; } };
    if info.msg_text.as_str().is_empty() {
        return events;
    }
    let (sender_name, sender_uid) = match &chat.send_char_info {
        Some(i) => (i.name.clone(), i.char_id as u64),
        None => (String::new(), 0u64),
    };
    push_event(&mut events, GameEvent::Chat {
        channel: ChatChannel::from_i32(req.channel_type),
        sender_name,
        sender_uid,
        text: info.msg_text.clone(),
    });
    events
}

/// A queue-pop alert where a match entered without error and waits for ready (status 2).
pub open spec fn enter_match_events(msg: EnterMatchResultNtf) -> Seq<EventView> {
    match msg.v_request {
        None => Seq::empty(),
        Some(req) => if req.err_code != 0 {
            Seq::empty()
        } else {
            let status = match req.match_info { Some(i) => i.match_status, None => 0 };
            if status == 2 {
                seq![EventView::MatchmakingAlert { kind: MatchAlertKind::QueuePop }]
            } else {
                Seq::empty()
            }
        },
    }
}

pub fn parse_enter_match_result(msg: &EnterMatchResultNtf) -> (r: Vec<GameEvent>)
    ensures
        events_view(r@) == enter_match_events(*msg),
{
    let mut events: Vec<GameEvent> = Vec::new();
    if let Some(req) = msg.v_request {
        if req.err_code == 0 {
            let status = match req.match_info { Some(i) => i.match_status, None => 0 };
            if status == 2 {
                push_event(&mut events, GameEvent::MatchmakingAlert { kind: MatchAlertKind::QueuePop });
            }
        }
    }
    events
}

/// Any ready-status notification is a ready check.
pub fn parse_match_ready_status(msg: &MatchReadyStatusNtf) -> (r: Vec<GameEvent>)
    ensures
        events_view(r@) == seq![EventView::MatchmakingAlert { kind: MatchAlertKind::ReadyCheck }],
{
    let mut events: Vec<GameEvent> = Vec::new();
    push_event(&mut events, GameEvent::MatchmakingAlert { kind: MatchAlertKind::ReadyCheck });
    events
}

// ───────────────────────────── dungeons ─────────────────────────────

pub open spec fn target_progress(t: DungeonTargetInfo) -> DungeonTargetProgress {
    DungeonTargetProgress { target_id: t.target_id, nums: t.nums, complete: t.complete }
}

pub open spec fn blob_progress(t: DungeonTargetData) -> DungeonTargetProgress {
    DungeonTargetProgress { target_id: t.target_id, nums: t.nums, complete: t.complete }
}

/// A dungeon's full sync: its state where a flow is sent, then its
/// objectives and phase where either is.
pub open spec fn dungeon_events(msg: SyncDungeonData) -> Seq<EventView> {
    match msg.v_data {
        None => Seq::empty(),
        Some(d) => {
            let targets = match d.target {
                Some(t) => t.target_data@.map_values(|p: (i32, DungeonTargetInfo)| target_progress(p.1)),
                None => Seq::empty(),
            };
            let phase_id = match d.dungeon_phase_data { Some(p) => Some(p.phase_id), None => None };
            (match d.flow_info {
                Some(f) => seq![EventView::DungeonState { state: DungeonStateKind::of(f.state) }],
                None => Seq::empty(),
            }) + (if targets.len() > 0 || phase_id is Some {
                seq![EventView::DungeonPhaseSignal { targets, phase_id }]
            } else {
                Seq::empty()
            })
        },
    }
}

pub fn parse_sync_dungeon_data(msg: &SyncDungeonData) -> (r: Vec<GameEvent>)
    ensures
        events_view(r@) == dungeon_events(*msg),
{
    let mut events: Vec<GameEvent> = Vec::new();
    let data = match &msg.v_data { Some(d) => d, None => { return events; } };
    if let Some(flow) = data.flow_info {
        push_event(&mut events, GameEvent::DungeonState { state: DungeonStateKind::from_i32(flow.state) });
    }
    let mut targets: Vec<DungeonTargetProgress> = Vec::new();
    if let Some(t) = &data.target {
        let td = &t.target_data;
        let mut i: usize = 0;
        while i < td.len()
            invariant
                i <= td@.len(),
                targets@ == td@.take(i as int).map_values(|p: (i32, DungeonTargetInfo)| target_progress(p.1)),
            decreases td@.len() - i,
        {
            let d = td[i].1;
            targets.push(DungeonTargetProgress { target_id: d.target_id, nums: d.nums, complete: d.complete });
            assert(td@.take(i + 1) =~= td@.take(i as int).push(td@[i as int]));
            assert(targets@ =~= td@.take(i + 1).map_values(|p: (i32, DungeonTargetInfo)| target_progress(p.1)));
            i = i + 1;
        }
        assert(td@.take(td@.len() as int) =~= td@);
    }
    let phase_id = match data.dungeon_phase_data { Some(p) => Some(p.phase_id), None => None };
    if targets.len() > 0 || phase_id.is_some() {
        push_event(&mut events, GameEvent::DungeonPhaseSignal { targets, phase_id });
    }
    proof {
        assert(events_view(events@) =~= dungeon_events(*msg));
    }
    events
}

/// A dungeon's mid-run delta: the state and objectives the blob records.
pub open spec fn dirty_events(msg: SyncDungeonDirtyData) -> Seq<EventView> {
    match msg.v_data {
        None => Seq::empty(),
        Some(v) => if v.buffer@.len() == 0 {
            Seq::empty()
        } else {
            let (state, targets) = dirty_parse(v.buffer@, v.stream_type == 0);
            (match state {
                Some(st) => seq![EventView::DungeonState { state: DungeonStateKind::of(st) }],
                None => Seq::empty(),
            }) + (if targets.len() > 0 {
                seq![EventView::DungeonPhaseSignal {
                    targets: targets.map_values(|p: (i32, DungeonTargetData)| blob_progress(p.1)),
                    phase_id: None,
                }]
            } else {
                Seq::empty()
            })
        },
    }
}

pub fn parse_sync_dungeon_dirty_data(msg: &SyncDungeonDirtyData) -> (r: Vec<GameEvent>)
    ensures
        events_view(r@) == dirty_events(*msg),
{
    let mut events: Vec<GameEvent> = Vec::new();
    let v = match &msg.v_data { Some(v) => v, None => { return events; } };
    if v.buffer.len() == 0 {
        return events;
    }
    let stream_safe = v.stream_type == 0;
    let dirty = DungeonDirtyData::parse(v.buffer.as_slice(), stream_safe);
    if let Some(state) = dirty.state {
        push_event(&mut events, GameEvent::DungeonState { state: DungeonStateKind::from_i32(state) });
    }
    let td = &dirty.targets;
    if td.len() > 0 {
        let mut targets: Vec<DungeonTargetProgress> = Vec::new();
        let mut i: usize = 0;
        while i < td.len()
            invariant
                i <= td@.len(),
                targets@ == td@.take(i as int).map_values(|p: (i32, DungeonTargetData)| blob_progress(p.1)),
            decreases td@.len() - i,
        {
            let d = td[i].1;
            targets.push(DungeonTargetProgress { target_id: d.target_id, nums: d.nums, complete: d.complete });
            assert(td@.take(i + 1) =~= td@.take(i as int).push(td@[i as int]));
            assert(targets@ =~= td@.take(i + 1).map_values(|p: (i32, DungeonTargetData)| blob_progress(p.1)));
            i = i + 1;
        }
        assert(td@.take(td@.len() as int) =~= td@);
        push_event(&mut events, GameEvent::DungeonPhaseSignal { targets, phase_id: None });
    }
    proof {
        assert(events_view(events@) =~= dirty_events(*msg));
    }
    events
}

// ───────────────────────────── dispatch ─────────────────────────────

/// Which message a notify carries, by service and method.
#[derive(Clone, Copy, PartialEq, Eq, Debug, Structural)]
pub enum Route {
    SocialData,
    ChitChat,
    EnterMatchResult,
    MatchReadyStatus,
    NearEntities,
    ContainerData,
    NearDeltaInfo,
    ToMeDelta,
    DungeonData,
    DungeonDirtyData,
    /// A service this decoder does not know; it is counted.
    UnknownService,
    /// An unknown method of the world service; it is counted.
    UnknownMethod,
    /// A method of a known service that carries nothing of interest.
    Ignored,
}

pub open spec fn route_of(service_uuid: u64, method_id: u32) -> Route {
    if service_uuid == SOCIAL_NTF_SERVICE_UUID && method_id == SOCIAL_NTF_METHOD_ID {
        Route::SocialData
    } else if service_uuid == CHIT_CHAT_NTF_UUID {
        if method_id == METHOD_NOTIFY_NEWEST_MSGS { Route::ChitChat } else { Route::Ignored }
    } else if service_uuid == MATCH_NTF_UUID {
        if method_id == METHOD_ENTER_MATCH_RESULT {
            Route::EnterMatchResult
        } else if method_id == METHOD_MATCH_READY_STATUS {
            Route::MatchReadyStatus
        } else {
            Route::Ignored
        }
    } else if service_uuid != SERVICE_UUID {
        Route::UnknownService
    } else if method_id == METHOD_SYNC_NEAR_ENTITIES {
        Route::NearEntities
    } else if method_id == METHOD_SYNC_CONTAINER_DATA {
        Route::ContainerData
    } else if method_id == METHOD_SYNC_NEAR_DELTA_INFO {
        Route::NearDeltaInfo
    } else if method_id == METHOD_SYNC_TO_ME_DELTA {
        Route::ToMeDelta
    } else if method_id == METHOD_SYNC_DUNGEON_DATA {
        Route::DungeonData
    } else if method_id == METHOD_SYNC_DUNGEON_DIRTY_DATA {
        Route::DungeonDirtyData
    } else {
        Route::UnknownMethod
    }
}

/// Decides which message a notify holds.
pub fn route(service_uuid: u64, method_id: u32) -> (r: Route)
    ensures
        r == route_of(service_uuid, method_id),
{
    if service_uuid == SOCIAL_NTF_SERVICE_UUID && method_id == SOCIAL_NTF_METHOD_ID {
        return Route::SocialData;
    }
    if service_uuid == CHIT_CHAT_NTF_UUID {
        return if method_id == METHOD_NOTIFY_NEWEST_MSGS { Route::ChitChat } else { Route::Ignored };
    }
    if service_uuid == MATCH_NTF_UUID {
        return match method_id {
            METHOD_ENTER_MATCH_RESULT => Route::EnterMatchResult,
            METHOD_MATCH_READY_STATUS => Route::MatchReadyStatus,
            _ => Route::Ignored,
        };
    }
    if service_uuid != SERVICE_UUID {
        return Route::UnknownService;
    }
    match method_id {
        METHOD_SYNC_NEAR_ENTITIES => Route::NearEntities,
        METHOD_SYNC_CONTAINER_DATA => Route::ContainerData,
        METHOD_SYNC_NEAR_DELTA_INFO => Route::NearDeltaInfo,
        METHOD_SYNC_TO_ME_DELTA => Route::ToMeDelta,
        METHOD_SYNC_DUNGEON_DATA => Route::DungeonData,
        METHOD_SYNC_DUNGEON_DIRTY_DATA => Route::DungeonDirtyData,
        _ => Route::UnknownMethod,
    }
}

} // verus!
