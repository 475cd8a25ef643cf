//! Game events decoded from the protocol, and the entity stat snapshot.

use vstd::prelude::*;

verus! {

/// Identifier of a game entity (the upper bits of its wire uuid).
#[derive(Clone, Copy, PartialEq, Eq, Debug, Hash, Structural)]
pub struct EntityId(pub u64);

/// `EActorState` value of a dead actor.
pub const ACTOR_STATE_DEAD: i32 = 9;

/// Snapshot of an entity's attributes; each field is present only when the
/// game sent it.
#[derive(Clone, Copy, PartialEq, Eq, Debug, Structural)]
pub struct CharStats {
    pub level: Option<u32>,
    pub ability_score: Option<u32>,
    pub season_strength: Option<u32>,
    pub strength: Option<u32>,
    pub endurance: Option<u32>,
    pub crit: Option<u32>,
    pub haste: Option<u32>,
    pub luck: Option<u32>,
    pub mastery: Option<u32>,
    pub versatility: Option<u32>,
    pub block: Option<u32>,
    pub hp: Option<i64>,
    pub max_hp: Option<i64>,
    pub attack: Option<i64>,
    pub armor: Option<i64>,
    pub crit_pct: Option<u32>,
    pub luck_pct: Option<u32>,
    pub haste_pct: Option<u32>,
    pub mastery_pct: Option<u32>,
    pub versatility_pct: Option<u32>,
    pub block_pct: Option<u32>,
    pub atk_speed_pct: Option<u32>,
    pub cast_speed_pct: Option<u32>,
    pub crit_damage: Option<u32>,
    pub actor_state: Option<i32>,
}

/// `b` where it has a value, else `a`.
pub open spec fn newer<T>(a: Option<T>, b: Option<T>) -> Option<T> {
    if b is Some { b } else { a }
}

/// `b` where it has a value, else `a`.
pub fn pick<T: Copy>(a: Option<T>, b: Option<T>) -> (r: Option<T>)
    ensures
        r == newer(a, b),
{
    if b.is_some() { b } else { a }
}

impl CharStats {
    /// A snapshot with nothing known.
    pub fn empty() -> (r: CharStats)
        ensures
            r == CharStats::none(),
    {
        CharStats {
            level: None, ability_score: None, season_strength: None, strength: None,
            endurance: None, crit: None, haste: None, luck: None, mastery: None,
            versatility: None, block: None, hp: None, max_hp: None, attack: None,
            armor: None, crit_pct: None, luck_pct: None, haste_pct: None,
            mastery_pct: None, versatility_pct: None, block_pct: None,
            atk_speed_pct: None, cast_speed_pct: None, crit_damage: None, actor_state: None,
        }
    }

    pub open spec fn none() -> CharStats {
        CharStats {
            level: None, ability_score: None, season_strength: None, strength: None,
            endurance: None, crit: None, haste: None, luck: None, mastery: None,
            versatility: None, block: None, hp: None, max_hp: None, attack: None,
            armor: None, crit_pct: None, luck_pct: None, haste_pct: None,
            mastery_pct: None, versatility_pct: None, block_pct: None,
            atk_speed_pct: None, cast_speed_pct: None, crit_damage: None, actor_state: None,
        }
    }

    /// Field by field, the values of `b` that are present override `a`.
    pub open spec fn merged(a: CharStats, b: CharStats) -> CharStats {
        CharStats {
            level: newer(a.level, b.level),
            ability_score: newer(a.ability_score, b.ability_score),
            season_strength: newer(a.season_strength, b.season_strength),
            strength: newer(a.strength, b.strength),
            endurance: newer(a.endurance, b.endurance),
            crit: newer(a.crit, b.crit),
            haste: newer(a.haste, b.haste),
            luck: newer(a.luck, b.luck),
            mastery: newer(a.mastery, b.mastery),
            versatility: newer(a.versatility, b.versatility),
            block: newer(a.block, b.block),
            hp: newer(a.hp, b.hp),
            max_hp: newer(a.max_hp, b.max_hp),
            attack: newer(a.attack, b.attack),
            armor: newer(a.armor, b.armor),
            crit_pct: newer(a.crit_pct, b.crit_pct),
            luck_pct: newer(a.luck_pct, b.luck_pct),
            haste_pct: newer(a.haste_pct, b.haste_pct),
            mastery_pct: newer(a.mastery_pct, b.mastery_pct),
            versatility_pct: newer(a.versatility_pct, b.versatility_pct),
            block_pct: newer(a.block_pct, b.block_pct),
            atk_speed_pct: newer(a.atk_speed_pct, b.atk_speed_pct),
            cast_speed_pct: newer(a.cast_speed_pct, b.cast_speed_pct),
            crit_damage: newer(a.crit_damage, b.crit_damage),
            actor_state: newer(a.actor_state, b.actor_state),
        }
    }

    /// Whether any field is present.
    pub open spec fn any_known(s: CharStats) -> bool {
        s != CharStats::none()
    }

    /// Whether no field is present.
    pub fn is_empty(&self) -> (r: bool)
        ensures
            r == (*self == CharStats::none()),
    {
        let e = CharStats::empty();
        *self == e
    }

    /// Takes over every field that `other` carries.
    pub fn merge(&mut self, other: &CharStats)
        ensures
            *final(self) == CharStats::merged(*old(self), *other),
    {
        let a = *self;
        *self = CharStats {
            level: pick(a.level, other.level),
            ability_score: pick(a.ability_score, other.ability_score),
            season_strength: pick(a.season_strength, other.season_strength),
            strength: pick(a.strength, other.strength),
            endurance: pick(a.endurance, other.endurance),
            crit: pick(a.crit, other.crit),
            haste: pick(a.haste, other.haste),
            luck: pick(a.luck, other.luck),
            mastery: pick(a.mastery, other.mastery),
            versatility: pick(a.versatility, other.versatility),
            block: pick(a.block, other.block),
            hp: pick(a.hp, other.hp),
            max_hp: pick(a.max_hp, other.max_hp),
            attack: pick(a.attack, other.attack),
            armor: pick(a.armor, other.armor),
            crit_pct: pick(a.crit_pct, other.crit_pct),
            luck_pct: pick(a.luck_pct, other.luck_pct),
            haste_pct: pick(a.haste_pct, other.haste_pct),
            mastery_pct: pick(a.mastery_pct, other.mastery_pct),
            versatility_pct: pick(a.versatility_pct, other.versatility_pct),
            block_pct: pick(a.block_pct, other.block_pct),
            atk_speed_pct: pick(a.atk_speed_pct, other.atk_speed_pct),
            cast_speed_pct: pick(a.cast_speed_pct, other.cast_speed_pct),
            crit_damage: pick(a.crit_damage, other.crit_damage),
            actor_state: pick(a.actor_state, other.actor_state),
        };
    }
}

/// One stat roll of an equipped module.
#[derive(Clone, Copy, PartialEq, Eq, Debug, Structural)]
pub struct ModuleEffect {
    pub effect_id: i32,
    pub level: i32,
}

/// A module item from the player's inventory.
#[derive(Clone, PartialEq, Eq, Debug)]
pub struct PlayerModule {
    pub config_id: i32,
    pub effects: Vec<ModuleEffect>,
}

/// One entry from an entity's shield list snapshot.
#[derive(Clone, Copy, PartialEq, Eq, Debug, Structural)]
pub struct ShieldEntry {
    pub uuid: i64,
    pub value: i64,
    pub initial_value: i64,
}

/// One equipped item slot.
#[derive(Clone, Copy, PartialEq, Eq, Debug, Structural)]
pub struct EquipSlot {
    pub slot: i32,
    pub item_id: i32,
}

/// One learned skill.
#[derive(Clone, Copy, PartialEq, Eq, Debug, Structural)]
pub struct SkillLoadoutEntry {
    pub skill_id: i32,
    pub current_level: i32,
    pub tier: i32,
}

/// One dungeon objective's progress.
#[derive(Clone, Copy, PartialEq, Eq, Debug, Structural)]
pub struct DungeonTargetProgress {
    pub target_id: i32,
    pub nums: i32,
    pub complete: i32,
}

/// A damage or heal instance. Times are microseconds on the capture clock.
#[derive(Clone, Copy, PartialEq, Eq, Debug, Structural)]
pub struct CombatEvent {
    pub timestamp_us: u64,
    pub source_id: EntityId,
    pub target_id: EntityId,
    pub skill_id: u32,
    pub damage: u64,
    pub is_crit: bool,
    pub is_lucky: bool,
    pub is_dot: bool,
}

#[derive(Clone, Copy, PartialEq, Eq, Debug, Structural)]
pub enum DungeonStateKind {
    Null,
    Active,
    Ready,
    Playing,
    End,
    Settlement,
    Vote,
}

impl DungeonStateKind {
    pub open spec fn of(v: i32) -> DungeonStateKind {
        if v == 1 {
            DungeonStateKind::Active
        } else if v == 2 {
            DungeonStateKind::Ready
        } else if v == 3 {
            DungeonStateKind::Playing
        } else if v == 4 {
            DungeonStateKind::End
        } else if v == 5 {
            DungeonStateKind::Settlement
        } else if v == 6 {
            DungeonStateKind::Vote
        } else {
            DungeonStateKind::Null
        }
    }

    /// Wire value 1..6 to its state; anything else is `Null`.
    pub fn from_i32(v: i32) -> (r: DungeonStateKind)
        ensures
            r == DungeonStateKind::of(v),
    {
        match v {
            1 => DungeonStateKind::Active,
            2 => DungeonStateKind::Ready,
            3 => DungeonStateKind::Playing,
            4 => DungeonStateKind::End,
            5 => DungeonStateKind::Settlement,
            6 => DungeonStateKind::Vote,
            _ => DungeonStateKind::Null,
        }
    }
}

#[derive(Clone, Copy, PartialEq, Eq, Debug, Structural)]
pub enum ChatChannel {
    World,
    Scene,
    Team,
    Union,
    Private,
    Group,
    Other(i32),
}

impl ChatChannel {
    pub open spec fn of(v: i32) -> ChatChannel {
        if v == 1 {
            ChatChannel::World
        } else if v == 2 {
            ChatChannel::Scene
        } else if v == 3 {
            ChatChannel::Team
        } else if v == 4 {
            ChatChannel::Union
        } else if v == 5 {
            ChatChannel::Private
        } else if v == 6 {
            ChatChannel::Group
        } else {
            ChatChannel::Other(v)
        }
    }

    /// Wire channel type 1..6 to its channel; other values are kept as `Other`.
    pub fn from_i32(v: i32) -> (r: ChatChannel)
        ensures
            r == ChatChannel::of(v),
    {
        match v {
            1 => ChatChannel::World,
            2 => ChatChannel::Scene,
            3 => ChatChannel::Team,
            4 => ChatChannel::Union,
            5 => ChatChannel::Private,
            6 => ChatChannel::Group,
            _ => ChatChannel::Other(v),
        }
    }
}

#[derive(Clone, Copy, PartialEq, Eq, Debug, Structural)]
pub enum MatchAlertKind {
    QueuePop,
    ReadyCheck,
}

/// Everything the protocol decoder reports.
#[derive(Clone, Debug)]
pub enum GameEvent {
    Combat(CombatEvent),
    Heal(CombatEvent),
    EntityName { id: EntityId, name: String, class: Option<u32>, monster_type: Option<i32>, is_player: bool },
    LocalPlayer { id: EntityId },
    ZoneChange { zone_id: u32, zone_name: String },
    EntityDespawn { id: EntityId },
    PlayerInventory { id: EntityId, modules: Vec<PlayerModule> },
    /// Snapshot of an entity's currently active shields.
    ShieldList { id: EntityId, shields: Vec<ShieldEntry> },
    /// Snapshot of an entity's equipped gear.
    EquipData { id: EntityId, slots: Vec<EquipSlot> },
    /// Snapshot of an entity's learned skills.
    SkillLoadout { id: EntityId, skills: Vec<SkillLoadoutEntry> },
    EntityStats { id: EntityId, stats: CharStats },
    DungeonState { state: DungeonStateKind },
    /// Dungeon objective progress, and the explicit phase id when sent.
    DungeonPhaseSignal { targets: Vec<DungeonTargetProgress>, phase_id: Option<i32> },
    Chat { channel: ChatChannel, sender_name: String, sender_uid: u64, text: String },
    MatchmakingAlert { kind: MatchAlertKind },
    ThreatUpdate { target_id: EntityId, entity_id: EntityId, threat: u64 },
    Unknown { opcode: u32, payload: Vec<u8> },
}

} // verus!
verus! {

/// The contents of a game event, with text and lists as sequences.
pub ghost enum EventView {
    Combat(CombatEvent),
    Heal(CombatEvent),
    EntityName { id: EntityId, name: Seq<char>, class: Option<u32>, monster_type: Option<i32>, is_player: bool },
    LocalPlayer { id: EntityId },
    ZoneChange { zone_id: u32, zone_name: Seq<char> },
    EntityDespawn { id: EntityId },
    PlayerInventory { id: EntityId, modules: Seq<(i32, Seq<ModuleEffect>)> },
    ShieldList { id: EntityId, shields: Seq<ShieldEntry> },
    EquipData { id: EntityId, slots: Seq<EquipSlot> },
    SkillLoadout { id: EntityId, skills: Seq<SkillLoadoutEntry> },
    EntityStats { id: EntityId, stats: CharStats },
    DungeonState { state: DungeonStateKind },
    DungeonPhaseSignal { targets: Seq<DungeonTargetProgress>, phase_id: Option<i32> },
    Chat { channel: ChatChannel, sender_name: Seq<char>, sender_uid: u64, text: Seq<char> },
    MatchmakingAlert { kind: MatchAlertKind },
    ThreatUpdate { target_id: EntityId, entity_id: EntityId, threat: u64 },
    Unknown { opcode: u32, payload: Seq<u8> },
}

impl PlayerModule {
    pub open spec fn view(&self) -> (i32, Seq<ModuleEffect>) {
        (self.config_id, self.effects@)
    }
}

impl GameEvent {
    pub open spec fn view(&self) -> EventView {
        match self {
            GameEvent::Combat(c) => EventView::Combat(*c),
            GameEvent::Heal(c) => EventView::Heal(*c),
            GameEvent::EntityName { id, name, class, monster_type, is_player } =>
                EventView::EntityName { id: *id, name: name@, class: *class, monster_type: *monster_type, is_player: *is_player },
            GameEvent::LocalPlayer { id } => EventView::LocalPlayer { id: *id },
            GameEvent::ZoneChange { zone_id, zone_name } =>
                EventView::ZoneChange { zone_id: *zone_id, zone_name: zone_name@ },
            GameEvent::EntityDespawn { id } => EventView::EntityDespawn { id: *id },
            GameEvent::PlayerInventory { id, modules } =>
                EventView::PlayerInventory { id: *id, modules: modules@.map_values(|m: PlayerModule| m.view()) },
            GameEvent::ShieldList { id, shields } => EventView::ShieldList { id: *id, shields: shields@ },
            GameEvent::EquipData { id, slots } => EventView::EquipData { id: *id, slots: slots@ },
            GameEvent::SkillLoadout { id, skills } => EventView::SkillLoadout { id: *id, skills: skills@ },
            GameEvent::EntityStats { id, stats } => EventView::EntityStats { id: *id, stats: *stats },
            GameEvent::DungeonState { state } => EventView::DungeonState { state: *state },
            GameEvent::DungeonPhaseSignal { targets, phase_id } =>
                EventView::DungeonPhaseSignal { targets: targets@, phase_id: *phase_id },
            GameEvent::Chat { channel, sender_name, sender_uid, text } =>
                EventView::Chat { channel: *channel, sender_name: sender_name@, sender_uid: *sender_uid, text: text@ },
            GameEvent::MatchmakingAlert { kind } => EventView::MatchmakingAlert { kind: *kind },
            GameEvent::ThreatUpdate { target_id, entity_id, threat } =>
                EventView::ThreatUpdate { target_id: *target_id, entity_id: *entity_id, threat: *threat },
            GameEvent::Unknown { opcode, payload } => EventView::Unknown { opcode: *opcode, payload: payload@ },
        }
    }
}

/// The views of a list of events.
pub open spec fn events_view(events: Seq<GameEvent>) -> Seq<EventView> {
    events.map_values(|e: GameEvent| e.view())
}

} // verus!
