use bpsr_tools::chat::ChatLog;
use bpsr_tools::event::{ChatChannel, CombatEvent, EntityId, GameEvent, ModuleEffect, PlayerModule, ShieldEntry};
use bpsr_tools::frames::process_frame_buffer;
use bpsr_tools::optimizer::{optimize, SolverConfig, StatMode, StatPriority};
use bpsr_tools::tracker::{DpsTracker, ReportPolicy};

fn module(effect_id: i32, level: i32) -> PlayerModule {
    PlayerModule { config_id: 0, effects: vec![ModuleEffect { effect_id, level }] }
}

fn prio(effect_id: i32, req_level: u8) -> StatPriority {
    StatPriority { effect_id, req_level, mode: StatMode::AtLeast }
}

#[test]
fn optimize_zero_level_is_no_requirement() {
    let modules = vec![module(1205, 5), module(1110, 1)];
    let config = SolverConfig { priorities: vec![prio(1110, 0), prio(1205, 5)], num_modules: 1, value_all_stats: true, beam_width: 8000 };
    let r = optimize(&modules, &config);
    assert_eq!(r.len(), 1);
    assert_eq!(r[0].module_indices, vec![0]);
}

#[test]
fn optimize_falls_back_to_the_best_when_nothing_qualifies() {
    let modules = vec![module(1205, 2), module(1110, 1)];
    let config = SolverConfig { priorities: vec![prio(1205, 10)], num_modules: 1, value_all_stats: true, beam_width: 8000 };
    let r = optimize(&modules, &config);
    assert_eq!(r.len(), 2);
    let mut idx: Vec<usize> = r.iter().map(|x| x.module_indices[0]).collect();
    idx.sort();
    assert_eq!(idx, vec![0, 1]);
}

fn frame(kind: u16, payload: &[u8]) -> Vec<u8> {
    let mut f = ((6 + payload.len()) as u32).to_be_bytes().to_vec();
    f.extend_from_slice(&kind.to_be_bytes());
    f.extend_from_slice(payload);
    f
}

#[test]
fn deeply_nested_frame_down_is_unpacked() {
    let mut p = 9u64.to_be_bytes().to_vec();
    p.extend_from_slice(&0u32.to_be_bytes());
    p.extend_from_slice(&4u32.to_be_bytes());
    p.extend_from_slice(b"deep");
    let mut data = frame(2, &p);
    for _ in 0..40 {
        let mut down = 1u32.to_be_bytes().to_vec();
        down.extend_from_slice(&data);
        data = frame(6, &down);
    }
    let out = process_frame_buffer(&data);
    assert_eq!(out.len(), 1);
    assert_eq!(out[0].service_uuid, 9);
    assert_eq!(out[0].method_id, 4);
    assert_eq!(out[0].payload, b"deep".to_vec());
}

fn chat(text: &str) -> GameEvent {
    GameEvent::Chat { channel: ChatChannel::Team, sender_name: "Ann".to_string(), sender_uid: 1, text: text.to_string() }
}

#[test]
fn chat_update_ingests_and_expires() {
    let mut log = ChatLog::new();
    let n = log.update(vec![chat("hello"), chat("/rw go"), chat("/ct 2 Pull")], 1_000_000);
    assert_eq!(n.len(), 2);
    assert_eq!(n[0].title, "Raid Warning");
    assert_eq!(n[1].title, "Countdown started");
    assert_eq!(log.messages.len(), 3);
    assert_eq!(log.warnings.len(), 1);
    assert_eq!(log.countdown.as_ref().unwrap().ends_at_us, 3_000_000);
    assert!(log.scroll_to_bottom);
    let n = log.update(Vec::new(), 20_000_000);
    assert!(n.is_empty());
    assert!(log.warnings.is_empty());
    assert!(log.countdown.is_none());
    assert_eq!(log.messages.len(), 3);
}

fn hit(source: u64, target: u64, damage: u64) -> GameEvent {
    GameEvent::Combat(CombatEvent {
        timestamp_us: 0, source_id: EntityId(source), target_id: EntityId(target), skill_id: 1,
        damage, is_crit: false, is_lucky: false, is_dot: false,
    })
}

#[test]
fn tracker_update_counts_hits_and_shields_once() {
    let mut t = DpsTracker::new(30);
    let policy = ReportPolicy { enabled: false, has_webhook: false, min_players: 1 };
    let out = t.update(vec![hit(1, 2, 100), hit(1, 2, 50)], 1_000, policy);
    assert_eq!(out.skipped, 0);
    assert_eq!(t.state.active.as_ref().unwrap().total_damage, 150);
    let shields = GameEvent::ShieldList { id: EntityId(1), shields: vec![ShieldEntry { uuid: 7, value: 10, initial_value: 40 }] };
    t.update(vec![shields.clone()], 2_000, policy);
    t.update(vec![shields], 3_000, policy);
    let enc = t.state.active.as_ref().unwrap();
    let mut gain = 0;
    for i in 0..enc.meter_count() {
        let m = enc.meter_at(i);
        if m.entity_id == EntityId(1) {
            gain = m.shield_gain;
        }
    }
    assert_eq!(gain, 40);
}

use bpsr_tools::encounter::Encounter;
use bpsr_tools::labels::{class_name, skill_spec, spec_to_class_id};
use bpsr_tools::meter::CombatStats;
use bpsr_tools::preset::{decode_preset, encode_preset};
use bpsr_tools::stats::PipelineCounters;

fn strike(source: u64, damage: u64) -> CombatEvent {
    CombatEvent {
        timestamp_us: 0, source_id: EntityId(source), target_id: EntityId(99), skill_id: 1,
        damage, is_crit: false, is_lucky: false, is_dot: false,
    }
}

#[test]
fn players_by_damage_most_first_ties_in_order() {
    let mut enc = Encounter::new("Zone".to_string(), 1, 0);
    enc.apply(&strike(1, 10), |id: EntityId| format!("p{}", id.0));
    enc.apply(&strike(2, 30), |id: EntityId| format!("p{}", id.0));
    enc.apply(&strike(3, 10), |id: EntityId| format!("p{}", id.0));
    let order: Vec<u64> = enc.players_by_damage().iter().map(|m| m.entity_id.0).collect();
    assert_eq!(order, vec![2, 1, 3]);
}

#[test]
fn preset_codes() {
    let ps = vec![
        StatPriority { effect_id: 1110, req_level: 0, mode: StatMode::AtLeast },
        StatPriority { effect_id: 1205, req_level: 12, mode: StatMode::Exactly },
    ];
    let code = encode_preset(&ps);
    assert_eq!(code, "ZMO:1110-0-0,1205-1-12");
    assert_eq!(decode_preset(&code), Ok(ps));
    assert_eq!(encode_preset(&Vec::new()), "ZMO:");
    assert_eq!(decode_preset("XYZ"), Err("Invalid preset code (must start with ZMO:)".to_string()));
    assert_eq!(decode_preset("ZMO:"), Err("Bad segment: ".to_string()));
    assert_eq!(decode_preset("ZMO:1-2"), Err("Bad segment: 1-2".to_string()));
    assert_eq!(decode_preset("ZMO:x-0-1"), Err("Bad effect_id: x".to_string()));
    assert_eq!(decode_preset("ZMO:5-300-1"), Err("Bad mode".to_string()));
    assert_eq!(decode_preset("ZMO:5-0-256"), Err("Bad req_level".to_string()));
    assert_eq!(decode_preset("ZMO:5-7-+3"), Ok(vec![StatPriority { effect_id: 5, req_level: 3, mode: StatMode::Exactly }]));
}

#[test]
fn pipeline_counters_count_and_wrap() {
    let mut c = PipelineCounters::new();
    c.count_raw_packets(2);
    c.count_payloads(1);
    c.count_frames(3);
    c.count_events(u64::MAX);
    c.count_events(2);
    let s = c.load_all();
    assert_eq!((s.raw_packets, s.payloads_extracted, s.frames_processed, s.events_dispatched, s.unknown_dispatches), (2, 1, 3, 1, 0));
}

#[test]
fn hits_counted_in_any_order_agree() {
    let hits = [(5u64, true, false), (9, false, true), (2, true, true), (7, false, false)];
    let mut a = CombatStats::new();
    for h in hits.iter() {
        a.apply(h.0, h.1, h.2);
    }
    let mut b = CombatStats::new();
    for h in hits.iter().rev() {
        b.apply(h.0, h.1, h.2);
    }
    assert_eq!((a.total, a.hits, a.crit_hits, a.lucky_hits, a.crit_lucky_hits, a.max_hit), (b.total, b.hits, b.crit_hits, b.lucky_hits, b.crit_lucky_hits, b.max_hit));
    assert_eq!((a.crit_total, a.lucky_total, a.crit_lucky_total), (b.crit_total, b.lucky_total, b.crit_lucky_total));
}

#[test]
fn revealed_specs_have_named_classes() {
    for skill in [1714u32, 1241, 35107, 1405, 20301, 199902, 2292, 220112, 2405, 2406, 2321, 55302] {
        let spec = skill_spec(skill).unwrap();
        let class = spec_to_class_id(spec);
        assert!(class.is_some());
        assert_ne!(class_name(class), "Unknown");
    }
}

use bpsr_tools::session::TcpStream;
use bpsr_tools::wire::decode_varint;

#[test]
fn stream_reassembles_across_segments() {
    let data = [frame(2, b"0123456789abcdefgh"), frame(2, b"xyz0123456789abcdef"), frame(6, b"tail")].concat();
    let mut whole = TcpStream::new();
    let all = whole.feed(1000, &data);
    assert_eq!(all.len(), 3);
    for cut in 1..data.len() {
        let mut split = TcpStream::new();
        let mut got = split.feed(1000, &data[..cut]);
        got.extend(split.feed(1000u32.wrapping_add(cut as u32), &data[cut..]));
        assert_eq!(got, all);
    }
}

#[test]
fn varint_encoding_reads_back() {
    for n in [0u64, 1, 127, 128, 150, 300, 1 << 35, u64::MAX] {
        let mut bytes = Vec::new();
        let mut v = n;
        loop {
            if v < 128 {
                bytes.push(v as u8);
                break;
            }
            bytes.push((v % 128 + 128) as u8);
            v /= 128;
        }
        bytes.push(0xff);
        assert_eq!(decode_varint(&bytes), Some(n));
    }
}

use bpsr_tools::encounter::rank_meters;
use std::collections::HashMap;

#[test]
fn party_ranking_filters_and_orders() {
    let mut enc = Encounter::new("Zone".to_string(), 1, 0);
    enc.apply(&strike(1, 10), |id: EntityId| format!("p{}", id.0));
    enc.apply(&strike(2, 30), |id: EntityId| format!("p{}", id.0));
    enc.apply(&strike(3, 10), |id: EntityId| format!("p{}", id.0));
    let players = enc.players_by_damage();
    let mut is_player = HashMap::new();
    is_player.insert(1u64, true);
    is_player.insert(2u64, false);
    is_player.insert(3u64, true);
    let (all, top) = rank_meters(&players, &is_player, false, 0);
    let ids: Vec<u64> = all.iter().map(|&i| players[i].entity_id.0).collect();
    assert_eq!(ids, vec![2, 1, 3]);
    assert_eq!(top, 30);
    let (only, top) = rank_meters(&players, &is_player, true, 0);
    let ids: Vec<u64> = only.iter().map(|&i| players[i].entity_id.0).collect();
    assert_eq!(ids, vec![1, 3]);
    assert_eq!(top, 10);
    let (healers, top) = rank_meters(&players, &is_player, false, 2);
    assert_eq!(healers.len(), 3);
    assert_eq!(top, 1);
}

#[test]
fn optimize_with_too_few_modules_proposes_nothing() {
    let modules = vec![module(1205, 5), module(1110, 3)];
    let config = SolverConfig { priorities: vec![prio(1205, 0)], num_modules: 4, value_all_stats: true, beam_width: 8000 };
    assert!(optimize(&modules, &config).is_empty());
}

#[test]
fn tracker_credits_the_attacker_and_the_known_target() {
    let mut t = DpsTracker::new(30);
    let policy = ReportPolicy { enabled: false, has_webhook: false, min_players: 1 };
    let name = |id: u64, n: &str| GameEvent::EntityName { id: EntityId(id), name: n.to_string(), class: None, monster_type: None, is_player: true };
    t.update(vec![name(1, "Ann"), name(2, "Bo"), hit(1, 2, 100), hit(2, 1, 7), hit(1, 2, 50)], 1_000, policy);
    let enc = t.state.active.as_ref().unwrap();
    assert_eq!(enc.total_damage, 157);
    assert_eq!(enc.total_damage_taken, 57);
    let mut seen = 0;
    for i in 0..enc.meter_count() {
        let m = enc.meter_at(i);
        if m.entity_id == EntityId(1) {
            assert_eq!(m.player_name, "Ann");
            assert_eq!(m.damage_stats.total, 150);
            assert_eq!(m.damage_stats.hits, 2);
            assert_eq!(m.taken_stats.total, 7);
            seen += 1;
        }
        if m.entity_id == EntityId(2) {
            assert_eq!(m.damage_stats.total, 7);
            assert_eq!(m.taken_stats.total, 50);
            seen += 1;
        }
    }
    assert_eq!(seen, 2);
}

fn skill_hit(source: u64, skill: u32, damage: u64, crit: bool) -> GameEvent {
    GameEvent::Combat(CombatEvent {
        timestamp_us: 0, source_id: EntityId(source), target_id: EntityId(50), skill_id: skill,
        damage, is_crit: crit, is_lucky: false, is_dot: false,
    })
}

#[test]
fn bench_merges_each_skill_across_meters() {
    let mut t = DpsTracker::new(30);
    let policy = ReportPolicy { enabled: false, has_webhook: false, min_players: 1 };
    t.update(vec![skill_hit(1, 5, 100, true), skill_hit(2, 5, 300, false), skill_hit(1, 6, 50, false)], 1_000, policy);
    t.bench_finish(2_000_000);
    let r = t.bench_result.as_ref().unwrap();
    assert_eq!(r.total_damage, 450);
    assert_eq!(r.hit_count, 3);
    assert_eq!(r.skills.len(), 2);
    let s5 = &r.skills[0];
    assert_eq!((s5.skill_id, s5.total, s5.hits, s5.crit_hits, s5.max_hit), (5, 400, 2, 1, 300));
    let s6 = &r.skills[1];
    assert_eq!((s6.skill_id, s6.total, s6.hits, s6.crit_hits, s6.max_hit), (6, 50, 1, 0, 50));
}
