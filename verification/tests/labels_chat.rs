use bpsr_tools::bptimer::{connection_step, entries_of, spawn_time_label, BossBoard, BossPayload, ConnectionStep, Envelope, SpawnTone, TimerMessage};
use bpsr_tools::chat::{format_dur, parse_u64_dec, ChatLog};
use bpsr_tools::event::ChatChannel;
use bpsr_tools::fishing::{classify_rod_area, classify_rod_use, is_reward_popup_text, resolve_region, FishingRodArea, RodUseButton};
use bpsr_tools::labels::{class_name, format_uid, truncate_name, BossEntry, BossStatus};

#[test]
fn class_names() {
    assert_eq!(class_name(Some(1)), "Stormblade");
    assert_eq!(class_name(Some(13)), "Beat Performer");
    assert_eq!(class_name(Some(6)), "Unknown");
    assert_eq!(class_name(None), "Unknown");
}

#[test]
fn uid_and_name_display() {
    assert_eq!(format_uid(0), "?");
    assert_eq!(format_uid(0x1a2b), "0x1a2b");
    assert_eq!(truncate_name("Abcdefgh", 5), "Abcd\u{2026}");
    assert_eq!(truncate_name("Abc", 5), "Abc");
    assert_eq!(truncate_name("Abc", 0), "");
    assert_eq!(truncate_name("", 0), "");
    assert_eq!(truncate_name("Ab", 1), "\u{2026}");
}

#[test]
fn durations() {
    assert_eq!(format_dur(5), "5s");
    assert_eq!(format_dur(59), "59s");
    assert_eq!(format_dur(60), "01:00");
    assert_eq!(format_dur(3725), "62:05");
}

#[test]
fn decimal_parsing() {
    assert_eq!(parse_u64_dec("42"), Some(42));
    assert_eq!(parse_u64_dec("+7"), Some(7));
    assert_eq!(parse_u64_dec("-7"), None);
    assert_eq!(parse_u64_dec(""), None);
    assert_eq!(parse_u64_dec("+"), None);
    assert_eq!(parse_u64_dec("18446744073709551615"), Some(u64::MAX));
    assert_eq!(parse_u64_dec("18446744073709551616"), None);
    assert_eq!(parse_u64_dec("1a"), None);
}

#[test]
fn chat_raid_warning_and_countdown() {
    let mut log = ChatLog::new();
    let n = log.ingest(ChatChannel::Team, "Ann".to_string(), "/rw stack left".to_string(), 1_000);
    assert_eq!(n.len(), 1);
    assert_eq!(n[0].title, "Raid Warning");
    assert_eq!(n[0].body, "stack left");
    assert!(n[0].urgent);
    assert_eq!(log.warnings.len(), 1);
    assert_eq!(log.warnings[0].at_us, 1_000);

    let n = log.ingest(ChatChannel::World, "Bo".to_string(), "/ct 90 Pull".to_string(), 2_000);
    assert_eq!(n.len(), 1);
    assert_eq!(n[0].title, "Countdown started");
    assert_eq!(n[0].body, "Countdown: Pull \u{2014} 01:30");
    assert!(!n[0].urgent);
    let c = log.countdown.as_ref().unwrap();
    assert_eq!(c.ends_at_us, 2_000 + 90_000_000);
    assert_eq!(c.label, "Pull");

    let n = log.ingest(ChatChannel::World, "Cy".to_string(), "/countdown 5".to_string(), 3_000);
    assert_eq!(n[0].body, "Countdown: Countdown \u{2014} 5s");
    assert_eq!(log.messages.len(), 3);
    assert!(log.scroll_to_bottom);
}

#[test]
fn chat_plain_message_and_bad_countdown() {
    let mut log = ChatLog::new();
    let n = log.ingest(ChatChannel::Scene, "D".to_string(), "/ct soon".to_string(), 1);
    assert!(n.is_empty());
    assert!(log.countdown.is_none());
    assert_eq!(log.messages[0].text, "/ct soon");
}

#[test]
fn chat_log_keeps_the_last_500() {
    let mut log = ChatLog::new();
    for i in 0..510u64 {
        log.ingest(ChatChannel::World, "x".to_string(), format!("m{i}"), i);
    }
    assert_eq!(log.messages.len(), 500);
    assert_eq!(log.messages[0].text, "m10");
    assert_eq!(log.messages[499].text, "m509");
}

#[test]
fn fishing_text_readings() {
    assert_eq!(classify_rod_area("add a pole"), FishingRodArea::NoPole);
    assert_eq!(classify_rod_area("basic fishing rod"), FishingRodArea::HasPole);
    assert_eq!(classify_rod_area(""), FishingRodArea::NotVisible);
    assert_eq!(classify_rod_use("using"), RodUseButton::Using);
    assert_eq!(classify_rod_use("use"), RodUseButton::Use);
    assert_eq!(classify_rod_use("equip"), RodUseButton::Unknown);
    assert!(is_reward_popup_text("click anywhere to close"));
    assert!(!is_reward_popup_text("click here"));
    assert_eq!(resolve_region((100, 50), [10, 20, 30, 40]), [110, 70, 30, 40]);
}

fn boss(id: &str, status: BossStatus, death: Option<i64>, respawn: u64) -> BossEntry {
    BossEntry { id: id.to_string(), name: "N".to_string(), region: "R".to_string(), status, last_death_ts: death, respawn_secs: respawn }
}

#[test]
fn spawn_labels() {
    assert_eq!(spawn_time_label(&boss("a", BossStatus::Alive, None, 60), 0), ("Alive".to_string(), SpawnTone::Alive));
    assert_eq!(spawn_time_label(&boss("a", BossStatus::Dead, Some(1000), 3600), 1000 + 3600 - 125), ("2m 05s".to_string(), SpawnTone::CountingDown));
    assert_eq!(spawn_time_label(&boss("a", BossStatus::Dead, Some(1000), 60), 1000 + 60 + 61), ("+1m 01s OVERDUE".to_string(), SpawnTone::Overdue));
    assert_eq!(spawn_time_label(&boss("a", BossStatus::Dead, None, 60), 0), ("Dead (time unknown)".to_string(), SpawnTone::DeadTimeUnknown));
    assert_eq!(spawn_time_label(&boss("a", BossStatus::Unknown, None, 60), 0), ("?".to_string(), SpawnTone::Unknown));
}

#[test]
fn connection_decisions() {
    assert_eq!(connection_step(true, "ws://a", ""), ConnectionStep::Start);
    assert_eq!(connection_step(true, "ws://a", "ws://a"), ConnectionStep::Keep);
    assert_eq!(connection_step(false, "ws://a", "ws://a"), ConnectionStep::Stop);
    assert_eq!(connection_step(false, "", ""), ConnectionStep::Keep);
    assert_eq!(connection_step(true, "", "ws://b"), ConnectionStep::Keep);
}

fn envelope(kind: &str) -> Envelope {
    Envelope {
        msg_type: kind.to_string(),
        bosses: None,
        id: None,
        name: None,
        region: None,
        status: None,
        last_death_ts: None,
        respawn_secs: None,
    }
}

#[test]
fn timer_updates_replace_by_id() {
    let mut full = envelope("full_update");
    full.bosses = Some(vec![
        BossPayload { id: "b1".to_string(), name: "Goblin".to_string(), region: "East".to_string(), status: "alive".to_string(), last_death_ts: None, respawn_secs: 600 },
        BossPayload { id: "b2".to_string(), name: "Ogre".to_string(), region: "West".to_string(), status: "zzz".to_string(), last_death_ts: Some(5), respawn_secs: 900 },
    ]);
    let entries = entries_of(full).unwrap();
    assert_eq!(entries.len(), 2);
    assert_eq!(entries[1].status, BossStatus::Unknown);

    let mut board = BossBoard::new();
    board.apply(TimerMessage::Entries(entries));
    let mut upd = envelope("boss_update");
    upd.id = Some("b1".to_string());
    upd.status = Some("dead".to_string());
    upd.last_death_ts = Some(77);
    let one = entries_of(upd).unwrap();
    assert_eq!(one[0].respawn_secs, 3600);
    assert_eq!(one[0].name, "");
    board.apply(TimerMessage::Entries(one));
    assert_eq!(board.bosses.len(), 2);
    let b1 = board.bosses.iter().find(|b| b.id == "b1").unwrap();
    assert_eq!(b1.status, BossStatus::Dead);
    assert_eq!(b1.last_death_ts, Some(77));

    assert!(entries_of(envelope("boss_update")).is_none());
    assert!(entries_of(envelope("hello")).is_none());
    board.apply(TimerMessage::Connected);
    assert!(board.connected);
    board.apply(TimerMessage::Closed);
    assert!(!board.connected);
}
