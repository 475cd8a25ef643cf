use bpsr_tools::bot::{center_of, BotAction, BotAnswer, BotConfig, FishingBot, Probe, SteerKey, Wait, WindowOrigin};
use bpsr_tools::cooldown::{CooldownTracker, TrackedEntity};
use bpsr_tools::event::{CombatEvent, EntityId, GameEvent};
use bpsr_tools::fishing::{BaitPosition, FishingState};
use bpsr_tools::threat::{ThreatTable, ENTRY_TTL_US};

fn config() -> BotConfig {
    BotConfig {
        fishing_key: "f".to_string(),
        rod_slot_key: "m".to_string(),
        cast_delay_ms: 1500,
        bite_timeout_ms: 30_000,
        reel_timeout_ms: 60_000,
        cooldown_ms: 2000,
        rod_use_region: [100, 200, 40, 20],
        fish_caught_region: [300, 400, 50, 30],
    }
}

#[test]
fn region_centres() {
    assert_eq!(center_of(WindowOrigin { x: 10, y: 20 }, [100, 200, 40, 21]), (130, 230));
    assert_eq!(center_of(WindowOrigin { x: 0, y: 0 }, [0, 0, -5, 3]), (-2, 1));
}

#[test]
fn bot_round_trip_to_reeling_and_stop() {
    let mut bot = FishingBot::new(config(), WindowOrigin { x: 0, y: 0 });
    assert_eq!(bot.step(BotAnswer::Slept, 0), vec![BotAction::Ask(Probe::Window)]);
    assert_eq!(bot.step(BotAnswer::Window(Some(WindowOrigin { x: 10, y: 20 })), 0), vec![BotAction::Sleep(300_000)]);
    assert_eq!(bot.origin, WindowOrigin { x: 10, y: 20 });
    assert_eq!(bot.step(BotAnswer::Slept, 0), vec![BotAction::Ask(Probe::FishCaught)]);
    assert_eq!(bot.step(BotAnswer::Seen(Some(false)), 0), vec![BotAction::Ask(Probe::FishingMode)]);
    assert_eq!(bot.step(BotAnswer::Seen(Some(true)), 0), vec![BotAction::Ask(Probe::FishingRod)]);
    assert_eq!(bot.step(BotAnswer::Seen(Some(false)), 0), vec![BotAction::Sleep(0)]);
    assert_eq!(bot.state, FishingState::Idle);
    assert_eq!(bot.step(BotAnswer::Slept, 0), vec![BotAction::ClickLeft, BotAction::Sleep(0)]);
    assert_eq!(bot.state, FishingState::Casting);
    assert_eq!(bot.step(BotAnswer::Slept, 1000), vec![BotAction::Sleep(100_000)]);
    assert_eq!(bot.deadline_us, 1000 + 1_500_000);
    assert_eq!(bot.step(BotAnswer::Slept, 1000), vec![BotAction::Ask(Probe::FishingRod)]);
    assert_eq!(bot.step(BotAnswer::Seen(Some(false)), 5000), vec![BotAction::Sleep(0)]);
    assert_eq!(bot.state, FishingState::WaitingBite { cast_at_us: 5000 });
    assert_eq!(bot.step(BotAnswer::Slept, 6000), vec![BotAction::Ask(Probe::Bite)]);
    assert_eq!(bot.step(BotAnswer::Seen(Some(true)), 7000), vec![BotAction::ClickLeft, BotAction::Sleep(0)]);
    assert_eq!(bot.state, FishingState::Reeling { started_at_us: 7000 });
    // the fifth round reads the focus first
    assert_eq!(bot.step(BotAnswer::Slept, 8000), vec![BotAction::Ask(Probe::Focus)]);
    assert_eq!(bot.step(BotAnswer::Focused(true), 8000), vec![BotAction::Ask(Probe::Frame)]);
    assert_eq!(
        bot.step(BotAnswer::Frame { tension_floor: 10, caught: false, bar_visible: true, bait: BaitPosition::Left }, 8000),
        vec![BotAction::MouseDown, BotAction::SteerDown(SteerKey::Left), BotAction::Sleep(50_000)]
    );
    assert!(bot.lmb_held);
    assert_eq!(bot.held_steer, Some(SteerKey::Left));
    assert_eq!(bot.stop(), vec![BotAction::SteerUp(SteerKey::Left), BotAction::MouseUp]);
    assert!(!bot.lmb_held);
    assert_eq!(bot.state, FishingState::CheckingState);
    assert_eq!(bot.wait, Wait::NextRound);
}

#[test]
fn bot_lets_go_when_unfocused() {
    let mut bot = FishingBot::new(config(), WindowOrigin { x: 0, y: 0 });
    for _ in 0..4 {
        let _ = bot.step(BotAnswer::Slept, 0);
        bot.wait = Wait::NextRound;
    }
    assert_eq!(bot.step(BotAnswer::Slept, 0), vec![BotAction::Ask(Probe::Focus)]);
    assert_eq!(bot.step(BotAnswer::Focused(false), 0), vec![BotAction::Sleep(200_000)]);
    assert!(bot.paused);
}

#[test]
fn unexpected_answer_starts_a_new_round() {
    let mut bot = FishingBot::new(config(), WindowOrigin { x: 0, y: 0 });
    assert_eq!(bot.step(BotAnswer::Seen(Some(true)), 0), vec![BotAction::Sleep(0)]);
    assert_eq!(bot.wait, Wait::NextRound);
}

fn cast(source: u64, skill: u32) -> GameEvent {
    GameEvent::Combat(CombatEvent {
        timestamp_us: 0,
        source_id: EntityId(source),
        target_id: EntityId(1),
        skill_id: skill,
        damage: 1,
        is_crit: false,
        is_lucky: false,
        is_dot: false,
    })
}

#[test]
fn cooldowns_learn_uid_by_name_any_case() {
    let mut c = CooldownTracker::new();
    c.entities.push(TrackedEntity { uid: 0, name: "Ann".to_string() });
    c.skills.push(55);
    let name = GameEvent::EntityName { id: EntityId(7), name: "ANN".to_string(), class: None, monster_type: None, is_player: true };
    c.update(vec![name, cast(7, 55), cast(7, 56), cast(8, 55)], 1000);
    assert_eq!(c.entities[0].uid, 7);
    assert!(c.is_watched(7, 55));
    assert!(!c.is_watched(7, 56));
    assert!(c.cooldowns.iter().any(|e| *e == (7, 55, 1000)));
    assert!(!c.cooldowns.iter().any(|e| e.1 == 56 || e.0 == 8));
    assert!(c.name_uid.iter().any(|e| e.0 == "ann" && e.1 == 7));
    c.update(vec![GameEvent::EntityDespawn { id: EntityId(7) }], 2000);
    assert!(!c.name_uid.iter().any(|e| e.1 == 7));
}

#[test]
fn threat_rows_expire() {
    let mut t = ThreatTable::new();
    t.update(vec![
        GameEvent::ThreatUpdate { target_id: EntityId(100), entity_id: EntityId(1), threat: 50 },
        GameEvent::ThreatUpdate { target_id: EntityId(100), entity_id: EntityId(2), threat: 70 },
        GameEvent::ThreatUpdate { target_id: EntityId(100), entity_id: EntityId(1), threat: 80 },
    ], 1_000);
    assert_eq!(t.rows.len(), 1);
    assert_eq!(t.rows[0].0, 100);
    assert_eq!(t.rows[0].1.players, vec![(1, 80), (2, 70)]);
    t.update(Vec::new(), 1_000 + ENTRY_TTL_US);
    assert!(t.rows.is_empty());
    assert!(t.selected.is_none());
}

#[test]
fn threat_cleared_on_zone_change() {
    let mut t = ThreatTable::new();
    t.update(vec![
        GameEvent::ThreatUpdate { target_id: EntityId(5), entity_id: EntityId(1), threat: 1 },
        GameEvent::ZoneChange { zone_id: 2, zone_name: "Z".to_string() },
    ], 10);
    assert!(t.rows.is_empty());
}
