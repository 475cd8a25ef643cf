//! The protobuf messages the decoder reads, as plain values.
//!
//! Maps of the wire format are held as lists of `(key, value)` pairs in the
//! order they were decoded. An attribute whose value is itself a list message
//! (shields, equipment, skill levels) carries that list already decoded.

use vstd::prelude::*;

verus! {

#[derive(Clone, Debug)]
pub struct ShieldInfo {
    pub uuid: i64,
    pub value: i64,
    pub initial_value: i64,
}

#[derive(Clone, Debug)]
pub struct EquipNine {
    pub slot: i32,
    pub equip_id: i32,
}

#[derive(Clone, Debug)]
pub struct SkillLevelInfo {
    pub skill_id: i32,
    pub current_level: i32,
    pub remodel_level: i32,
}

/// One attribute of an entity: its id and raw value, with the list message
/// it holds where the id names one (60050 shields, 200 equipment, 116 skills).
#[derive(Clone, Debug)]
pub struct Attr {
    pub id: i32,
    pub raw_data: Vec<u8>,
    pub shields: Vec<ShieldInfo>,
    pub equips: Vec<EquipNine>,
    pub skills: Vec<SkillLevelInfo>,
}

#[derive(Clone, Debug)]
pub struct AttrCollection {
    pub uuid: i64,
    pub attrs: Vec<Attr>,
}

#[derive(Clone, Debug)]
pub struct AoiSyncDelta {
    pub uuid: i64,
    pub attrs: Option<AttrCollection>,
    pub skill_effects: Option<SkillEffect>,
}

#[derive(Clone, Debug)]
pub struct AoiSyncToMeDelta {
    pub base_delta: Option<AoiSyncDelta>,
    pub uuid: i64,
}

#[derive(Clone, Debug)]
pub struct CharBaseInfo {
    pub char_id: i64,
    pub account_id: String,
    pub name: String,
    pub fight_point: i32,
}

#[derive(Clone, Debug)]
pub struct EquipInfo {
    pub equip_slot: i32,
    pub item_uuid: i64,
}

#[derive(Clone, Debug)]
pub struct Equip {
    pub equip_list: Vec<(i32, EquipInfo)>,
}

#[derive(Clone, Debug)]
pub struct CharSerialize {
    pub char_id: i64,
    pub char_base: Option<CharBaseInfo>,
    pub item_package: Option<ItemPackage>,
    pub equip: Option<Equip>,
    pub mod_data: Option<Mod>,
    pub profession_list: Option<ProfessionList>,
}

#[derive(Clone, Debug)]
pub struct ModInfo {
    pub init_link_nums: Vec<i32>,
}

#[derive(Clone, Debug)]
pub struct Mod {
    pub mod_infos: Vec<(i64, ModInfo)>,
}

#[derive(Clone, Debug)]
pub struct ModNewAttr {
    pub mod_parts: Vec<i32>,
}

#[derive(Clone, Debug)]
pub struct Item {
    pub config_id: i32,
    pub mod_new_attr: Option<ModNewAttr>,
}

#[derive(Clone, Debug)]
pub struct Package {
    pub items: Vec<(i64, Item)>,
}

#[derive(Clone, Debug)]
pub struct ItemPackage {
    pub packages: Vec<(i32, Package)>,
}

#[derive(Clone, Copy, Debug)]
pub struct DisappearEntity {
    pub uuid: i64,
}

#[derive(Clone, Debug)]
pub struct Entity {
    pub uuid: i64,
    pub ent_type: i32,
    pub attrs: Option<AttrCollection>,
}

#[derive(Clone, Copy, Debug)]
pub struct ProfessionList {
    pub cur_profession_id: i32,
}

#[derive(Clone, Debug)]
pub struct SkillEffect {
    pub damages: Vec<SyncDamageInfo>,
}

/// One damage or heal instance; `damage_type` 2 marks a heal.
#[derive(Clone, Copy, Debug)]
pub struct SyncDamageInfo {
    pub is_miss: bool,
    pub damage_type: i32,
    pub type_flag: i32,
    pub value: i64,
    pub lucky_value: i64,
    pub hp_lessen_value: i64,
    pub attacker_uuid: i64,
    pub owner_id: i32,
    pub is_dead: bool,
    pub top_summoner_id: i64,
}

#[derive(Clone, Debug)]
pub struct SyncNearDeltaInfo {
    pub delta_infos: Vec<AoiSyncDelta>,
}

#[derive(Clone, Debug)]
pub struct SyncNearEntities {
    pub appear: Vec<Entity>,
    pub disappear: Vec<DisappearEntity>,
}

#[derive(Clone, Debug)]
pub struct SyncContainerData {
    pub v_data: Option<CharSerialize>,
}

#[derive(Clone, Debug)]
pub struct SyncToMeDeltaInfo {
    pub delta_info: Option<AoiSyncToMeDelta>,
}

#[derive(Clone, Copy, Debug)]
pub struct SceneData {
    pub level_map_id: u32,
    pub line_id: u32,
}

#[derive(Clone, Copy, Debug)]
pub struct SocialData {
    pub scene_data: Option<SceneData>,
}

#[derive(Clone, Copy, Debug)]
pub struct NotifySocialDataRequest {
    pub data: Option<SocialData>,
}

#[derive(Clone, Copy, Debug)]
pub struct NotifySocialData {
    pub v_request: Option<NotifySocialDataRequest>,
}

#[derive(Clone, Debug)]
pub struct BasicShowInfo {
    pub char_id: i64,
    pub name: String,
    pub level: i32,
}

#[derive(Clone, Debug)]
pub struct ChatMsgInfo {
    pub msg_type: i32,
    pub target_id: i64,
    pub msg_text: String,
}

#[derive(Clone, Debug)]
pub struct ChitChatMsg {
    pub msg_id: i64,
    pub send_char_info: Option<BasicShowInfo>,
    pub timestamp: i64,
    pub msg_info: Option<ChatMsgInfo>,
}

#[derive(Clone, Debug)]
pub struct NotifyNewestChitChatMsgsRequest {
    pub channel_type: i32,
    pub chat_msg: Option<ChitChatMsg>,
}

#[derive(Clone, Debug)]
pub struct NotifyNewestChitChatMsgs {
    pub v_request: Option<NotifyNewestChitChatMsgsRequest>,
}

#[derive(Clone, Copy, Debug)]
pub struct MatchInfo {
    pub match_status: i32,
}

#[derive(Clone, Copy, Debug)]
pub struct EnterMatchResultNtfRequest {
    pub err_code: i32,
    pub match_info: Option<MatchInfo>,
}

#[derive(Clone, Copy, Debug)]
pub struct EnterMatchResultNtf {
    pub v_request: Option<EnterMatchResultNtfRequest>,
}

#[derive(Clone, Copy, Debug)]
pub struct MatchPlayerInfo {
    pub char_id: i64,
    pub ready_status: i32,
}

#[derive(Clone, Debug)]
pub struct MatchReadyStatusNtfRequest {
    pub err_code: i32,
    pub leader_char_id: i64,
    pub match_player_info: Vec<MatchPlayerInfo>,
}

#[derive(Clone, Debug)]
pub struct MatchReadyStatusNtf {
    pub v_request: Option<MatchReadyStatusNtfRequest>,
}

#[derive(Clone, Copy, Debug)]
pub struct DungeonFlowInfo {
    pub state: i32,
    pub active_time: i32,
    pub ready_time: i32,
    pub play_time: i32,
}

#[derive(Clone, Copy, Debug)]
pub struct DungeonTargetInfo {
    pub target_id: i32,
    pub nums: i32,
    pub complete: i32,
}

#[derive(Clone, Debug)]
pub struct DungeonTarget {
    pub target_data: Vec<(i32, DungeonTargetInfo)>,
}

#[derive(Clone, Copy, Debug)]
pub struct DungeonPhaseData {
    pub phase_id: i32,
}

#[derive(Clone, Debug)]
pub struct DungeonSyncData {
    pub scene_uuid: i64,
    pub flow_info: Option<DungeonFlowInfo>,
    pub target: Option<DungeonTarget>,
    pub dungeon_phase_data: Option<DungeonPhaseData>,
}

#[derive(Clone, Debug)]
pub struct SyncDungeonData {
    pub v_data: Option<DungeonSyncData>,
}

/// A delta blob with the stream type it was written in (0 = dirty-safe).
#[derive(Clone, Debug)]
pub struct BufferStream {
    pub buffer: Vec<u8>,
    pub stream_type: i32,
}

#[derive(Clone, Debug)]
pub struct SyncDungeonDirtyData {
    pub v_data: Option<BufferStream>,
}

} // verus!
