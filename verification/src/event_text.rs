//! The one-line text of a game event shown in the recent-event log.

use vstd::prelude::*;
use crate::event::{ChatChannel, DungeonStateKind, EntityId, EventView, GameEvent, MatchAlertKind};
use crate::text::{digits, i64_to_dec, push_digits, signed_dec, digit_char, digit_str};

verus! {

/// Text in Rust's debug form: quoted, with quotes, backslashes and
/// unprintable characters escaped, as `{:?}` writes a `str`.
pub uninterp spec fn debug_quoted(s: Seq<char>) -> Seq<char>;

/// Writes a text with `format!("{:?}")`. The escaping is std's `Debug` for
/// `str`, a function of the text alone; its result is named
/// `debug_quoted`, not described.
#[verifier::external_body]
fn debug_text(s: &str) -> (r: String)
    ensures
        r@ == debug_quoted(s@),
{
    format!("{:?}", s)
}

/// Decimal digits.
pub open spec fn dec(n: nat) -> Seq<char> {
    digits(n, 10)
}

/// `0x` and the lowercase hexadecimal digits, as `{:#x}` writes them.
pub open spec fn hex(n: nat) -> Seq<char> {
    "0x"@ + digits(n, 16)
}

/// The last `k` hexadecimal digits, with leading zeros.
pub open spec fn hex_fixed(n: nat, k: nat) -> Seq<char>
    decreases k,
{
    if k == 0 { Seq::empty() } else { hex_fixed(n / 16, (k - 1) as nat).push(digit_char(n % 16)) }
}

/// `true` or `false`.
pub open spec fn bool_text(b: bool) -> Seq<char> {
    if b { "true"@ } else { "false"@ }
}

/// An optional number as `{:?}` writes it.
pub open spec fn opt_text(o: Option<int>) -> Seq<char> {
    match o {
        Some(v) => "Some("@ + signed_dec(v) + ")"@,
        None => "None"@,
    }
}

pub open spec fn opt_u32(o: Option<u32>) -> Option<int> {
    match o { Some(v) => Some(v as int), None => None }
}

pub open spec fn opt_i32(o: Option<i32>) -> Option<int> {
    match o { Some(v) => Some(v as int), None => None }
}

pub open spec fn opt_i64(o: Option<i64>) -> Option<int> {
    match o { Some(v) => Some(v as int), None => None }
}

/// An entity id as `{:?}` writes it.
pub open spec fn entity_debug(id: EntityId) -> Seq<char> {
    "EntityId("@ + dec(id.0 as nat) + ")"@
}

pub open spec fn dungeon_state_debug(s: DungeonStateKind) -> Seq<char> {
    match s {
        DungeonStateKind::Null => "Null"@,
        DungeonStateKind::Active => "Active"@,
        DungeonStateKind::Ready => "Ready"@,
        DungeonStateKind::Playing => "Playing"@,
        DungeonStateKind::End => "End"@,
        DungeonStateKind::Settlement => "Settlement"@,
        DungeonStateKind::Vote => "Vote"@,
    }
}

pub open spec fn channel_debug(c: ChatChannel) -> Seq<char> {
    match c {
        ChatChannel::World => "World"@,
        ChatChannel::Scene => "Scene"@,
        ChatChannel::Team => "Team"@,
        ChatChannel::Union => "Union"@,
        ChatChannel::Private => "Private"@,
        ChatChannel::Group => "Group"@,
        ChatChannel::Other(v) => "Other("@ + signed_dec(v as int) + ")"@,
    }
}

pub open spec fn alert_debug(k: MatchAlertKind) -> Seq<char> {
    match k {
        MatchAlertKind::QueuePop => "QueuePop"@,
        MatchAlertKind::ReadyCheck => "ReadyCheck"@,
    }
}

/// The log line of an event.
pub open spec fn event_line(ev: EventView) -> Seq<char> {
    match ev {
        EventView::EntityName { id, name, class, .. } =>
            "[EntityName] id="@ + hex(id.0 as nat) + " name="@ + debug_quoted(name) + " class="@ + opt_text(opt_u32(class)),
        EventView::Combat(c) =>
            "[Combat] src="@ + hex(c.source_id.0 as nat) + " \u{2192} tgt="@ + hex(c.target_id.0 as nat)
                + "  dmg="@ + dec(c.damage as nat) + "  crit="@ + bool_text(c.is_crit),
        EventView::Heal(c) =>
            "[Heal] src="@ + hex(c.source_id.0 as nat) + " \u{2192} tgt="@ + hex(c.target_id.0 as nat)
                + "  heal="@ + dec(c.damage as nat) + "  crit="@ + bool_text(c.is_crit),
        EventView::LocalPlayer { id } => "[LocalPlayer] id="@ + hex(id.0 as nat),
        EventView::ZoneChange { zone_id, zone_name } =>
            "[ZoneChange] id="@ + dec(zone_id as nat) + " name="@ + debug_quoted(zone_name),
        EventView::EntityDespawn { id } => "[EntityDespawn] id="@ + hex(id.0 as nat),
        EventView::PlayerInventory { id, modules } =>
            "[PlayerInventory] id="@ + hex(id.0 as nat) + " modules="@ + dec(modules.len()),
        EventView::ShieldList { id, shields } =>
            "[ShieldList] id="@ + hex(id.0 as nat) + " shields="@ + dec(shields.len()),
        EventView::EquipData { id, slots } =>
            "[EquipData] id="@ + hex(id.0 as nat) + " slots="@ + dec(slots.len()),
        EventView::SkillLoadout { id, skills } =>
            "[SkillLoadout] id="@ + hex(id.0 as nat) + " skills="@ + dec(skills.len()),
        EventView::EntityStats { id, stats } =>
            "[EntityStats] id="@ + hex(id.0 as nat) + " lv="@ + opt_text(opt_u32(stats.level))
                + " hp="@ + opt_text(opt_i64(stats.hp)) + "/"@ + opt_text(opt_i64(stats.max_hp))
                + " atk="@ + opt_text(opt_i64(stats.attack)) + " gs="@ + opt_text(opt_u32(stats.ability_score)),
        EventView::DungeonState { state } => "[DungeonState] state="@ + dungeon_state_debug(state),
        EventView::DungeonPhaseSignal { targets, phase_id } =>
            "[DungeonPhaseSignal] phase_id="@ + opt_text(opt_i32(phase_id)) + " targets="@ + dec(targets.len()),
        EventView::Chat { channel, sender_name, text, .. } =>
            "[Chat] ch="@ + channel_debug(channel) + " from="@ + debug_quoted(sender_name) + " text="@ + debug_quoted(text),
        EventView::MatchmakingAlert { kind } => "[MatchmakingAlert] kind="@ + alert_debug(kind),
        EventView::ThreatUpdate { target_id, entity_id, threat } =>
            "[ThreatUpdate] target="@ + entity_debug(target_id) + " entity="@ + entity_debug(entity_id)
                + " threat="@ + dec(threat as nat),
        EventView::Unknown { opcode, .. } => "[Unknown] opcode="@ + "0x"@ + hex_fixed(opcode as nat, 8),
    }
}

fn push_hex(s: &mut String, n: u64)
    ensures
        final(s)@ == old(s)@ + hex(n as nat),
{
    let ghost s0 = s@;
    s.append("0x");
    push_digits(s, n, 16);
    assert(s@ =~= s0 + hex(n as nat));
}

fn push_hex_fixed(s: &mut String, n: u64, k: u64)
    ensures
        final(s)@ == old(s)@ + hex_fixed(n as nat, k as nat),
    decreases k,
{
    if k > 0 {
        let ghost s0 = s@;
        push_hex_fixed(s, n / 16, k - 1);
        s.append(digit_str(n % 16));
        assert(s@ =~= s0 + hex_fixed(n as nat, k as nat));
    }
}

fn push_signed(s: &mut String, n: i64)
    ensures
        final(s)@ == old(s)@ + signed_dec(n as int),
{
    let t = i64_to_dec(n);
    s.append(t.as_str());
}

fn push_opt(s: &mut String, o: Option<i64>)
    ensures
        final(s)@ == old(s)@ + opt_text(opt_i64(o)),
{
    let ghost s0 = s@;
    match o {
        Some(v) => {
            s.append("Some(");
            push_signed(s, v);
            s.append(")");
            assert(s@ =~= s0 + opt_text(opt_i64(o)));
        },
        None => {
            s.append("None");
        },
    }
}

fn push_opt_u32(s: &mut String, o: Option<u32>)
    ensures
        final(s)@ == old(s)@ + opt_text(opt_u32(o)),
{
    let w: Option<i64> = match o { Some(v) => Some(v as i64), None => None };
    push_opt(s, w);
}

fn push_opt_i32(s: &mut String, o: Option<i32>)
    ensures
        final(s)@ == old(s)@ + opt_text(opt_i32(o)),
{
    let w: Option<i64> = match o { Some(v) => Some(v as i64), None => None };
    push_opt(s, w);
}

fn push_debug(s: &mut String, t: &str)
    ensures
        final(s)@ == old(s)@ + debug_quoted(t@),
{
    let q = debug_text(t);
    s.append(q.as_str());
}

fn push_bool(s: &mut String, b: bool)
    ensures
        final(s)@ == old(s)@ + bool_text(b),
{
    if b {
        s.append("true");
    } else {
        s.append("false");
    }
}

fn push_entity(s: &mut String, id: EntityId)
    ensures
        final(s)@ == old(s)@ + entity_debug(id),
{
    let ghost s0 = s@;
    s.append("EntityId(");
    push_digits(s, id.0, 10);
    s.append(")");
    assert(s@ =~= s0 + entity_debug(id));
}

fn dungeon_state_name(st: DungeonStateKind) -> (r: &'static str)
    ensures
        r@ == dungeon_state_debug(st),
{
    match st {
        DungeonStateKind::Null => "Null",
        DungeonStateKind::Active => "Active",
        DungeonStateKind::Ready => "Ready",
        DungeonStateKind::Playing => "Playing",
        DungeonStateKind::End => "End",
        DungeonStateKind::Settlement => "Settlement",
        DungeonStateKind::Vote => "Vote",
    }
}

fn push_channel(s: &mut String, c: ChatChannel)
    ensures
        final(s)@ == old(s)@ + channel_debug(c),
{
    let ghost s0 = s@;
    match c {
        ChatChannel::World => s.append("World"),
        ChatChannel::Scene => s.append("Scene"),
        ChatChannel::Team => s.append("Team"),
        ChatChannel::Union => s.append("Union"),
        ChatChannel::Private => s.append("Private"),
        ChatChannel::Group => s.append("Group"),
        ChatChannel::Other(v) => {
            s.append("Other(");
            push_signed(s, v as i64);
            s.append(")");
            assert(s@ =~= s0 + channel_debug(c));
        },
    }
}

/// The log line of an event, as the recent-event log shows it.
#[verifier::rlimit(50)]
pub fn format_event(event: &GameEvent) -> (r: String)
    ensures
        r@ == event_line(event.view()),
{
    let mut s = String::new();
    match event {
        GameEvent::EntityName { id, name, class, .. } => {
            s.append("[EntityName] id=");
            push_hex(&mut s, id.0);
            s.append(" name=");
            push_debug(&mut s, name.as_str());
            s.append(" class=");
            push_opt_u32(&mut s, *class);
        },
        GameEvent::Combat(c) => {
            s.append("[Combat] src=");
            push_hex(&mut s, c.source_id.0);
            s.append(" \u{2192} tgt=");
            push_hex(&mut s, c.target_id.0);
            s.append("  dmg=");
            push_digits(&mut s, c.damage, 10);
            s.append("  crit=");
            push_bool(&mut s, c.is_crit);
        },
        GameEvent::Heal(c) => {
            s.append("[Heal] src=");
            push_hex(&mut s, c.source_id.0);
            s.append(" \u{2192} tgt=");
            push_hex(&mut s, c.target_id.0);
            s.append("  heal=");
            push_digits(&mut s, c.damage, 10);
            s.append("  crit=");
            push_bool(&mut s, c.is_crit);
        },
        GameEvent::LocalPlayer { id } => {
            s.append("[LocalPlayer] id=");
            push_hex(&mut s, id.0);
        },
        GameEvent::ZoneChange { zone_id, zone_name } => {
            s.append("[ZoneChange] id=");
            push_digits(&mut s, *zone_id as u64, 10);
            s.append(" name=");
            push_debug(&mut s, zone_name.as_str());
        },
        GameEvent::EntityDespawn { id } => {
            s.append("[EntityDespawn] id=");
            push_hex(&mut s, id.0);
        },
        GameEvent::PlayerInventory { id, modules } => {
            s.append("[PlayerInventory] id=");
            push_hex(&mut s, id.0);
            s.append(" modules=");
            push_digits(&mut s, modules.len() as u64, 10);
        },
        GameEvent::ShieldList { id, shields } => {
            s.append("[ShieldList] id=");
            push_hex(&mut s, id.0);
            s.append(" shields=");
            push_digits(&mut s, shields.len() as u64, 10);
        },
        GameEvent::EquipData { id, slots } => {
            s.append("[EquipData] id=");
            push_hex(&mut s, id.0);
            s.append(" slots=");
            push_digits(&mut s, slots.len() as u64, 10);
        },
        GameEvent::SkillLoadout { id, skills } => {
            s.append("[SkillLoadout] id=");
            push_hex(&mut s, id.0);
            s.append(" skills=");
            push_digits(&mut s, skills.len() as u64, 10);
        },
        GameEvent::EntityStats { id, stats } => {
            s.append("[EntityStats] id=");
            push_hex(&mut s, id.0);
            s.append(" lv=");
            push_opt_u32(&mut s, stats.level);
            s.append(" hp=");
            push_opt(&mut s, stats.hp);
            s.append("/");
            push_opt(&mut s, stats.max_hp);
            s.append(" atk=");
            push_opt(&mut s, stats.attack);
            s.append(" gs=");
            push_opt_u32(&mut s, stats.ability_score);
        },
        GameEvent::DungeonState { state } => {
            s.append("[DungeonState] state=");
            s.append(dungeon_state_name(*state));
        },
        GameEvent::DungeonPhaseSignal { targets, phase_id } => {
            s.append("[DungeonPhaseSignal] phase_id=");
            push_opt_i32(&mut s, *phase_id);
            s.append(" targets=");
            push_digits(&mut s, targets.len() as u64, 10);
        },
        GameEvent::Chat { channel, sender_name, text, .. } => {
            s.append("[Chat] ch=");
            push_channel(&mut s, *channel);
            s.append(" from=");
            push_debug(&mut s, sender_name.as_str());
            s.append(" text=");
            push_debug(&mut s, text.as_str());
        },
        GameEvent::MatchmakingAlert { kind } => {
            s.append("[MatchmakingAlert] kind=");
            match kind {
                MatchAlertKind::QueuePop => s.append("QueuePop"),
                MatchAlertKind::ReadyCheck => s.append("ReadyCheck"),
            }
        },
        GameEvent::ThreatUpdate { target_id, entity_id, threat } => {
            s.append("[ThreatUpdate] target=");
            push_entity(&mut s, *target_id);
            s.append(" entity=");
            push_entity(&mut s, *entity_id);
            s.append(" threat=");
            push_digits(&mut s, *threat, 10);
        },
        GameEvent::Unknown { opcode, .. } => {
            s.append("[Unknown] opcode=");
            s.append("0x");
            push_hex_fixed(&mut s, *opcode as u64, 8);
        },
    }
    assert(s@ =~= event_line(event.view()));
    s
}

} // verus!
