use bpsr_tools::encounter::EncounterOutcome;
use bpsr_tools::packet_log::log_packet;
use bpsr_tools::saved::{EncounterRecord, PlayerRecord, SavedPlayerPhaseStats};
use bpsr_tools::history::{detail_order, detail_rows, stable_order, SortKey};
use bpsr_tools::webhook::{DedupQueue, DEDUP_TTL_US};
use bpsr_tools::store::{
    count_done, first_failure, newest_first_order, summary_of, EncounterStore, EncounterSummary,
    DAY_US,
};

fn player(name: &str, damage: u64, is_player: bool) -> PlayerRecord {
    PlayerRecord {
        entity_id: 1,
        name: name.to_string(),
        class_id: None,
        monster_type: None,
        total_damage: damage,
        hit_count: 0,
        crit_count: 0,
        skills: Vec::new(),
        damage_taken: 0,
        total_healing: 0,
        ability_score: None,
        season_strength: None,
        crit_pct: None,
        luck_pct: None,
        crit_damage: None,
        spec: None,
        damage_lucky_hits: 0,
        damage_crit_lucky_hits: 0,
        damage_crit_total: 0,
        damage_lucky_total: 0,
        damage_crit_lucky_total: 0,
        max_hit: 0,
        heal_hits: 0,
        heal_crit_hits: 0,
        heal_lucky_hits: 0,
        heal_crit_lucky_hits: 0,
        heal_crit_total: 0,
        heal_lucky_total: 0,
        heal_crit_lucky_total: 0,
        heal_max_hit: 0,
        overheal: 0,
        shield_gain: 0,
        deaths: 0,
        max_hp: None,
        is_player,
        gear: None,
        phase_stats: Vec::new(),
    }
}

fn record(players: Vec<PlayerRecord>) -> EncounterRecord {
    EncounterRecord {
        id: 77,
        scene_name: "Tina's Mindrealm".to_string(),
        start_us: 5_000_000,
        duration_us: 90_000_000,
        players,
        total_damage: 600,
        custom_name: Some("Practice".to_string()),
        outcome: EncounterOutcome::Cleared,
        phases: Vec::new(),
    }
}

fn listed(id: u128, start_us: u64) -> EncounterSummary {
    EncounterSummary {
        id,
        scene_name: String::new(),
        start_us,
        duration_us: 0,
        player_count: 0,
        total_damage: 0,
        top_player_name: String::new(),
        top_player_damage: 0,
        custom_name: None,
        outcome: EncounterOutcome::Unknown,
    }
}

#[test]
fn summary_names_last_top_damage_dealer() {
    let rec = record(vec![player("A", 100, true), player("B", 300, false), player("C", 300, true), player("D", 200, true)]);
    let s = summary_of(&rec);
    assert_eq!(s.top_player_name, "C");
    assert_eq!(s.top_player_damage, 300);
    assert_eq!(s.player_count, 3);
    assert_eq!(s.id, 77);
    assert_eq!(s.scene_name, "Tina's Mindrealm");
    assert_eq!(s.start_us, 5_000_000);
    assert_eq!(s.duration_us, 90_000_000);
    assert_eq!(s.total_damage, 600);
    assert_eq!(s.custom_name.as_deref(), Some("Practice"));
    assert_eq!(s.outcome, EncounterOutcome::Cleared);
}

#[test]
fn summary_of_empty_encounter() {
    let s = summary_of(&record(Vec::new()));
    assert_eq!(s.top_player_name, "");
    assert_eq!(s.top_player_damage, 0);
    assert_eq!(s.player_count, 0);
}

#[test]
fn listing_is_newest_first_and_stable() {
    let order = newest_first_order(&vec![10, 30, 20, 30, 10]);
    assert_eq!(order, vec![1, 3, 2, 0, 4]);
    assert_eq!(newest_first_order(&Vec::new()), Vec::<usize>::new());
}

#[test]
fn store_paths() {
    let store = EncounterStore::open(Some("/home/u/.local/share"));
    assert_eq!(store.dir, "/home/u/.local/share/bpsr-aio-tools/encounters");
    assert_eq!(store.enc_path("abc"), "/home/u/.local/share/bpsr-aio-tools/encounters/abc.enc.zst");
    assert_eq!(store.sum_path("abc"), "/home/u/.local/share/bpsr-aio-tools/encounters/abc.sum.json");
    assert_eq!(EncounterStore::open(None).dir, "./bpsr-aio-tools/encounters");
}

#[test]
fn clear_all_removes_every_listed_encounter() {
    let store = EncounterStore::open(None);
    let l = vec![listed(3, 1), listed(1, 2), listed(2, 3)];
    assert_eq!(store.clear_all(&l), vec![3, 1, 2]);
}

#[test]
fn clear_before_cutoff() {
    let store = EncounterStore::open(None);
    let l = vec![listed(1, 500), listed(2, 100), listed(3, 300)];
    assert_eq!(store.clear_before(&l, 300), vec![2]);
    assert_eq!(store.clear_before(&l, 501), vec![1, 2, 3]);
}

#[test]
fn cleanup_drops_old_and_surplus() {
    let store = EncounterStore::open(None);
    let now = 10 * DAY_US;
    // newest first: three fresh ones, one that is four days old, one fresh
    // one listed after it
    let l = vec![
        listed(1, now - 1),
        listed(2, now - DAY_US),
        listed(3, now - 2 * DAY_US),
        listed(4, now - 4 * DAY_US),
        listed(5, now - 2 * DAY_US),
    ];
    assert_eq!(store.cleanup_plan(&l, now, 2, 3), vec![3, 4, 5]);
    assert_eq!(store.cleanup_plan(&l, now, 10, 3), vec![4]);
    assert_eq!(store.cleanup_plan(&l, now, 0, 30), vec![1, 2, 3, 4, 5]);
}

#[test]
fn cleanup_with_huge_age_keeps_everything() {
    let store = EncounterStore::open(None);
    let l = vec![listed(1, 0), listed(2, 1)];
    assert_eq!(store.cleanup_plan(&l, u64::MAX, 5, u64::MAX), Vec::<u128>::new());
}

#[test]
fn packet_log_entry() {
    let got = log_packet(1000, "TCP", 5003, 40000, &[0x41, 0x00, 0x20, 0x7f]);
    let want = format!("# 1000 TCP 5003 40000 4\n{:06x}  {:<95}  {}\n\n", 0, "41 00 20 7f", "A. .");
    assert_eq!(got, want);
}

#[test]
fn packet_log_two_lines() {
    let data: Vec<u8> = (0u8..40).collect();
    let got = log_packet(7, "UDP", 1, 2, &data);
    let hex1: Vec<String> = data[..32].iter().map(|b| format!("{b:02x}")).collect();
    let hex2: Vec<String> = data[32..].iter().map(|b| format!("{b:02x}")).collect();
    let asc1: String = data[..32].iter().map(|&b| if (0x20..=0x7e).contains(&b) { b as char } else { '.' }).collect();
    let asc2: String = data[32..].iter().map(|&b| if (0x20..=0x7e).contains(&b) { b as char } else { '.' }).collect();
    let want = format!(
        "# 7 UDP 1 2 40\n{:06x}  {:<95}  {}\n{:06x}  {:<95}  {}\n\n",
        0, hex1.join(" "), asc1, 32, hex2.join(" "), asc2
    );
    assert_eq!(got, want);
}

#[test]
fn packet_log_empty_payload() {
    assert_eq!(log_packet(0, "TCP", 1, 2, &[]), "# 0 TCP 1 2 0\n\n");
}

#[test]
fn webhook_duplicates_within_half_a_minute() {
    let mut q = DedupQueue::new();
    assert!(!q.is_duplicate(7, 1_000));
    assert!(q.is_duplicate(7, 2_000));
    assert!(!q.is_duplicate(7, 1_000 + DEDUP_TTL_US));
    for k in 10..20u64 {
        assert!(!q.is_duplicate(k, 1_000 + DEDUP_TTL_US));
    }
    assert_eq!(q.recent.len(), 5);
    assert_eq!(q.recent[0].0, 15);
    assert!(!q.is_duplicate(7, 1_000 + DEDUP_TTL_US));
}

#[test]
fn history_detail_rows_and_order() {
    let mut boss = player("Boss", 0, false);
    boss.damage_taken = 900;
    boss.phase_stats = vec![SavedPlayerPhaseStats { phase_index: 1, total_damage: 0, hits: 0, damage_taken: 0, total_healing: 0, skills: Vec::new() }];
    let mut a = player("Ann", 300, true);
    a.deaths = 2;
    a.phase_stats = vec![SavedPlayerPhaseStats { phase_index: 1, total_damage: 40, hits: 2, damage_taken: 5, total_healing: 0, skills: Vec::new() }];
    let b = player("Bo", 300, true);
    let enc = record(vec![boss, a, b]);

    let rows = detail_rows(&enc, false, None);
    assert_eq!(rows.len(), 3);
    let by_damage = detail_order(&rows, &enc, SortKey::Damage, true);
    assert_eq!(by_damage, vec![1, 2, 0]);
    let by_damage_up = detail_order(&rows, &enc, SortKey::Damage, false);
    assert_eq!(by_damage_up, vec![0, 1, 2]);
    let by_deaths = detail_order(&rows, &enc, SortKey::Deaths, true);
    assert_eq!(by_deaths, vec![1, 0, 2]);

    let players = detail_rows(&enc, true, None);
    assert_eq!(players.iter().map(|r| r.player).collect::<Vec<_>>(), vec![1, 2]);

    let phase = detail_rows(&enc, false, Some(1));
    assert_eq!(phase.len(), 2);
    assert_eq!((phase[0].player, phase[0].total_damage, phase[0].hits), (1, 40, 2));
    assert_eq!((phase[1].player, phase[1].total_damage), (2, 0));

    assert_eq!(stable_order(&vec![3, 1, 3, 2], false), vec![1, 3, 0, 2]);
    assert_eq!(stable_order(&vec![3, 1, 3, 2], true), vec![0, 2, 3, 1]);
}

#[test]
fn clear_reports_the_first_failed_deletion() {
    assert_eq!(first_failure(&vec![]), None);
    assert_eq!(first_failure(&vec![true, true]), None);
    assert_eq!(first_failure(&vec![true, false, true, false]), Some(1));
    assert_eq!(first_failure(&vec![false]), Some(0));
}

#[test]
fn clear_before_counts_done_deletions() {
    assert_eq!(count_done(&vec![]), 0);
    assert_eq!(count_done(&vec![true, false, true, true]), 3);
    assert_eq!(count_done(&vec![false, false]), 0);
}
