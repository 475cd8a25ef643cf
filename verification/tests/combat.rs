use bpsr_tools::encounter::PhaseMarker;
use bpsr_tools::saved::bucket_player_phases;
use bpsr_tools::dps_state::{DpsState, MAX_PAST_ENCOUNTERS};
use bpsr_tools::encounter::EncounterOutcome;
use bpsr_tools::event::{CombatEvent, DungeonStateKind, EntityId, GameEvent};
use bpsr_tools::meter::{CombatStats, PlayerMeter};

fn hit(source: u64, skill: u32, damage: u64, crit: bool, lucky: bool) -> CombatEvent {
    CombatEvent {
        timestamp_us: 0,
        source_id: EntityId(source),
        target_id: EntityId(999),
        skill_id: skill,
        damage,
        is_crit: crit,
        is_lucky: lucky,
        is_dot: false,
    }
}

fn names(id: EntityId) -> String {
    format!("P{}", id.0)
}

#[test]
fn combat_stats_split_by_kind() {
    let mut s = CombatStats::new();
    s.apply(100, false, false);
    s.apply(50, true, false);
    s.apply(30, false, true);
    s.apply(20, true, true);
    assert_eq!(s.total, 200);
    assert_eq!(s.hits, 4);
    assert_eq!((s.crit_hits, s.crit_total), (1, 50));
    assert_eq!((s.lucky_hits, s.lucky_total), (1, 30));
    assert_eq!((s.crit_lucky_hits, s.crit_lucky_total), (1, 20));
    assert_eq!(s.max_hit, 100);
}

#[test]
fn meter_breakdown_adds_up() {
    let mut m = PlayerMeter::new(EntityId(1), "A".to_string());
    m.apply(&hit(1, 10, 100, false, false), 0);
    m.apply(&hit(1, 20, 40, true, false), 1);
    m.apply(&hit(1, 10, 60, false, false), 2);
    assert_eq!(m.total_damage(), 200);
    assert_eq!(m.hit_count(), 3);
    assert_eq!(m.crit_count(), 1);
    assert_eq!(m.skill_count(), 2);
    let first = m.skill_at(0);
    let second = m.skill_at(1);
    assert_eq!((first.skill_id, first.stats.total, first.stats.hits), (10, 160, 2));
    assert_eq!((second.skill_id, second.stats.total, second.stats.hits), (20, 40, 1));
    assert_eq!(m.hit_log.len(), 3);
    assert_eq!(m.hit_log[1].time_us, 1);
}

#[test]
fn first_hit_starts_an_encounter() {
    let mut st = DpsState::new(30);
    st.apply_event(&GameEvent::Combat(hit(10, 1, 100, false, false)), "Field", 7, 1_000, names);
    st.apply_event(&GameEvent::Combat(hit(11, 1, 50, false, false)), "Other", 8, 2_000, names);
    st.apply_event(&GameEvent::Combat(hit(10, 2, 25, false, false)), "Other", 8, 3_000, names);
    let e = st.active.as_ref().unwrap();
    assert_eq!(e.zone_name, "Field");
    assert_eq!(e.zone_id, 7);
    assert_eq!(e.start_us, 1_000);
    assert_eq!(e.total_damage, 175);
    assert_eq!(e.meter_count(), 2);
    assert_eq!(e.meter_at(0).player_name, "P10");
    assert_eq!(e.meter_at(0).total_damage(), 125);
    assert_eq!(e.meter_at(1).total_damage(), 50);
}

#[test]
fn dungeon_end_blocks_stray_hits() {
    let mut st = DpsState::new(30);
    st.apply_event(&GameEvent::Combat(hit(10, 1, 100, false, false)), "Dungeon", 1, 1_000, names);
    st.apply_state_event(&GameEvent::DungeonState { state: DungeonStateKind::Settlement }, 5_000);
    assert!(st.active.is_none());
    assert_eq!(st.past.len(), 1);
    assert_eq!(st.past[0].outcome, EncounterOutcome::Cleared);
    assert_eq!(st.past[0].end_us, Some(5_000));
    assert_eq!(st.newly_finished.len(), 1);
    st.apply_event(&GameEvent::Combat(hit(10, 1, 100, false, false)), "Dungeon", 1, 6_000, names);
    assert!(st.active.is_none());
    st.apply_state_event(&GameEvent::DungeonState { state: DungeonStateKind::Playing }, 7_000);
    st.apply_event(&GameEvent::Combat(hit(10, 1, 100, false, false)), "Dungeon", 1, 8_000, names);
    assert!(st.active.is_some());
}

#[test]
fn reset_stops_by_hand_and_keeps_twenty() {
    let mut st = DpsState::new(30);
    for i in 0..(MAX_PAST_ENCOUNTERS as u64 + 3) {
        st.apply_event(&GameEvent::Combat(hit(10, 1, 10 + i, false, false)), "Z", 1, i * 10, names);
        st.reset(i * 10 + 5);
    }
    assert_eq!(st.past.len(), MAX_PAST_ENCOUNTERS);
    assert_eq!(st.past[0].total_damage, 13);
    assert_eq!(st.past[MAX_PAST_ENCOUNTERS - 1].total_damage, 10 + MAX_PAST_ENCOUNTERS as u64 + 2);
    assert!(st.past.iter().all(|e| e.outcome == EncounterOutcome::ManualStop));
    assert_eq!(st.newly_finished.len(), MAX_PAST_ENCOUNTERS + 3);
}

#[test]
fn encounter_without_damage_is_dropped() {
    let mut st = DpsState::new(30);
    st.apply_event(&GameEvent::Combat(hit(10, 1, 0, false, false)), "Z", 1, 1, names);
    assert!(st.active.is_some());
    st.finish_active(2);
    assert!(st.active.is_none());
    assert!(st.past.is_empty());
    assert!(st.newly_finished.is_empty());
}

#[test]
fn zone_change_ends_encounter() {
    let mut st = DpsState::new(30);
    st.apply_event(&GameEvent::Combat(hit(10, 1, 5, false, false)), "Z", 1, 1, names);
    st.apply_state_event(&GameEvent::ZoneChange { zone_id: 2, zone_name: "Y".to_string() }, 9);
    assert!(st.active.is_none());
    assert_eq!(st.past.len(), 1);
    assert!(!st.post_settlement);
}

#[test]
fn rename_reaches_active_and_past() {
    let mut st = DpsState::new(30);
    st.apply_event(&GameEvent::Combat(hit(10, 1, 5, false, false)), "Z", 1, 1, names);
    st.finish_active(2);
    st.apply_event(&GameEvent::Combat(hit(10, 1, 5, false, false)), "Z", 1, 3, names);
    st.rename_player(EntityId(10), &"Hero".to_string());
    assert_eq!(st.active.as_ref().unwrap().meter_at(0).player_name, "Hero");
    assert_eq!(st.past[0].meter_at(0).player_name, "Hero");
    assert_eq!(st.newly_finished[0].meter_at(0).player_name, "P10");
}

#[test]
fn stray_hits_after_the_end_change_nothing() {
    let mut st = DpsState::new(30);
    st.apply_event(&GameEvent::Combat(hit(10, 1, 100, false, false)), "Dungeon", 1, 1_000, names);
    st.apply_state_event(&GameEvent::DungeonState { state: DungeonStateKind::End }, 2_000);
    for i in 0..5u64 {
        st.apply_event(&GameEvent::Combat(hit(10 + i, 1, 7, false, false)), "Dungeon", 1, 3_000 + i, names);
        st.apply_state_event(&GameEvent::DungeonState { state: DungeonStateKind::Null }, 3_500 + i);
        st.apply_state_event(&GameEvent::DungeonState { state: DungeonStateKind::Vote }, 3_600 + i);
    }
    assert!(st.active.is_none());
    assert!(st.post_settlement);
    assert_eq!(st.past.len(), 1);
    assert_eq!(st.past[0].total_damage, 100);
    assert_eq!(st.newly_finished.len(), 1);
}

#[test]
fn phase_split_tallies_each_skill() {
    let mut m = PlayerMeter::new(EntityId(1), "A".to_string());
    m.apply(&hit(1, 10, 30, true, false), 100);
    m.apply(&hit(1, 20, 50, false, false), 200);
    m.apply(&hit(1, 10, 40, false, false), 300);
    m.apply(&hit(1, 10, 5, false, true), 600_000);
    let phases = vec![PhaseMarker { name: "P2".to_string(), start_offset_us: 500_000 }];
    let split = bucket_player_phases(&m, &phases, 1_000_000);
    assert_eq!(split.len(), 2);
    let p0 = &split[0].skills;
    assert_eq!(p0.len(), 2);
    assert_eq!((p0[0].skill_id, p0[0].total_dmg, p0[0].hits, p0[0].crits, p0[0].max_hit), (10, 70, 2, 1, 40));
    assert_eq!((p0[1].skill_id, p0[1].total_dmg, p0[1].hits, p0[1].crits, p0[1].max_hit), (20, 50, 1, 0, 50));
    let p1 = &split[1].skills;
    assert_eq!(p1.len(), 1);
    assert_eq!((p1[0].skill_id, p1[0].total_dmg, p1[0].hits, p1[0].crits, p1[0].max_hit), (10, 5, 1, 1, 5));
    assert_eq!((split[0].total_damage, split[0].hits), (120, 3));
}
