use bpsr_tools::frames::process_frame_buffer;
use bpsr_tools::text::{hex_preview, i64_to_dec, parse_uid_hex, trim_nul_str, u64_to_dec, u64_to_hex_prefixed};
use bpsr_tools::wire::{decode_varint, read_be_u16, read_be_u32, read_be_u64, read_le_u32};

fn frame(kind: u16, payload: &[u8]) -> Vec<u8> {
    let size = (6 + payload.len()) as u32;
    let mut f = size.to_be_bytes().to_vec();
    f.extend_from_slice(&kind.to_be_bytes());
    f.extend_from_slice(payload);
    f
}

fn notify_payload(service: u64, method: u32, body: &[u8]) -> Vec<u8> {
    let mut p = service.to_be_bytes().to_vec();
    p.extend_from_slice(&0u32.to_be_bytes());
    p.extend_from_slice(&method.to_be_bytes());
    p.extend_from_slice(body);
    p
}

#[test]
fn varint_one_byte() {
    assert_eq!(decode_varint(&[0x05]), Some(5));
}

#[test]
fn varint_two_bytes() {
    assert_eq!(decode_varint(&[0xac, 0x02]), Some(300));
}

#[test]
fn varint_stops_at_terminator() {
    assert_eq!(decode_varint(&[0x01, 0xff, 0xff]), Some(1));
}

#[test]
fn varint_truncated_is_none() {
    assert_eq!(decode_varint(&[0x80, 0x80]), None);
    assert_eq!(decode_varint(&[]), None);
}

#[test]
fn varint_terminator_past_ten_bytes_is_none() {
    let mut d = vec![0x80u8; 10];
    d.push(0x01);
    assert_eq!(decode_varint(&d), None);
}

#[test]
fn varint_max_value() {
    let d = [0xff, 0xff, 0xff, 0xff, 0xff, 0xff, 0xff, 0xff, 0xff, 0x01];
    assert_eq!(decode_varint(&d), Some(u64::MAX));
}

#[test]
fn fixed_width_reads() {
    assert_eq!(read_le_u32(&[1, 2, 3, 4], 0), 0x0403_0201);
    assert_eq!(read_be_u32(&[9, 1, 2, 3, 4], 1), 0x0102_0304);
    assert_eq!(read_be_u16(&[0xab, 0xcd], 0), 0xabcd);
    assert_eq!(read_be_u64(&[0, 0, 0, 0, 0, 0, 1, 0], 0), 256);
}

#[test]
fn notify_frame_is_split_out() {
    let data = frame(2, &notify_payload(0x0000_0000_6337_5ea5, 7, b"hello"));
    let out = process_frame_buffer(&data);
    assert_eq!(out.len(), 1);
    assert_eq!(out[0].service_uuid, 0x6337_5ea5);
    assert_eq!(out[0].method_id, 7);
    assert_eq!(out[0].payload, b"hello".to_vec());
}

#[test]
fn compressed_notify_body_is_decompressed() {
    let body = b"a body that is long enough to be worth compressing, compressing, compressing";
    let packed = zstd::encode_all(&body[..], 3).unwrap();
    let data = frame(0x8002, &notify_payload(1, 2, &packed));
    let out = process_frame_buffer(&data);
    assert_eq!(out.len(), 1);
    assert_eq!(out[0].payload, body.to_vec());
}

#[test]
fn frame_down_is_unpacked() {
    let inner = [frame(2, &notify_payload(1, 10, b"x")), frame(2, &notify_payload(2, 20, b"y"))].concat();
    let mut down = 5u32.to_be_bytes().to_vec();
    down.extend_from_slice(&inner);
    let data = [frame(6, &down), frame(2, &notify_payload(3, 30, b"z"))].concat();
    let out = process_frame_buffer(&data);
    let got: Vec<(u64, u32, Vec<u8>)> = out.into_iter().map(|n| (n.service_uuid, n.method_id, n.payload)).collect();
    assert_eq!(got, vec![(1, 10, b"x".to_vec()), (2, 20, b"y".to_vec()), (3, 30, b"z".to_vec())]);
}

#[test]
fn other_frame_kinds_and_truncation() {
    let data = [frame(3, b"skip me"), frame(2, &notify_payload(4, 40, b"kept"))].concat();
    assert_eq!(process_frame_buffer(&data).len(), 1);
    let mut cut = frame(2, &notify_payload(4, 40, b"kept"));
    cut.pop();
    assert_eq!(process_frame_buffer(&cut).len(), 0);
    assert_eq!(process_frame_buffer(&frame(2, b"short")).len(), 0);
}

#[test]
fn decimal_and_hex_text() {
    assert_eq!(u64_to_dec(0), "0");
    assert_eq!(u64_to_dec(1234567890), "1234567890");
    assert_eq!(i64_to_dec(-42), "-42");
    assert_eq!(i64_to_dec(i64::MIN), "-9223372036854775808");
    assert_eq!(u64_to_hex_prefixed(255), "0xff");
}

#[test]
fn hex_preview_caps_at_64_bytes() {
    assert_eq!(hex_preview(&[0xde, 0xad]), "de ad ");
    let long = vec![0u8; 65];
    let p = hex_preview(&long);
    assert!(p.ends_with("00 ..."));
    assert_eq!(p.len(), 64 * 3 + 3);
}

#[test]
fn nul_trimming() {
    assert_eq!(trim_nul_str("\0ab\0c\0\0"), "ab\0c");
    assert_eq!(trim_nul_str("\0\0"), "");
}

#[test]
fn uid_text_parsing() {
    assert_eq!(parse_uid_hex("  0x1F "), Some(31));
    assert_eq!(parse_uid_hex("0x0x10"), Some(16));
    assert_eq!(parse_uid_hex("ff"), Some(255));
    assert_eq!(parse_uid_hex("zz"), None);
    assert_eq!(parse_uid_hex(""), None);
    assert_eq!(parse_uid_hex("1ffffffffffffffff"), None);
}

use bpsr_tools::event::{ChatChannel, CombatEvent, EntityId, GameEvent};
use bpsr_tools::event_text::format_event;

#[test]
fn event_lines_read_as_the_log_shows_them() {
    let hit = CombatEvent {
        timestamp_us: 0, source_id: EntityId(0x1a), target_id: EntityId(2), skill_id: 9,
        damage: 100, is_crit: true, is_lucky: false, is_dot: false,
    };
    assert_eq!(format_event(&GameEvent::Combat(hit)), "[Combat] src=0x1a \u{2192} tgt=0x2  dmg=100  crit=true");
    assert_eq!(format_event(&GameEvent::Heal(hit)), "[Heal] src=0x1a \u{2192} tgt=0x2  heal=100  crit=true");
    assert_eq!(format_event(&GameEvent::Unknown { opcode: 0x1234, payload: vec![1] }), "[Unknown] opcode=0x00001234");
    assert_eq!(
        format_event(&GameEvent::EntityName {
            id: EntityId(5), name: "A\"b".to_string(), class: Some(3), monster_type: None, is_player: true,
        }),
        "[EntityName] id=0x5 name=\"A\\\"b\" class=Some(3)"
    );
    assert_eq!(
        format_event(&GameEvent::Chat {
            channel: ChatChannel::Other(-2), sender_name: "x".to_string(), sender_uid: 1, text: "hi".to_string(),
        }),
        "[Chat] ch=Other(-2) from=\"x\" text=\"hi\""
    );
    assert_eq!(
        format_event(&GameEvent::ThreatUpdate { target_id: EntityId(1), entity_id: EntityId(2), threat: 7 }),
        "[ThreatUpdate] target=EntityId(1) entity=EntityId(2) threat=7"
    );
    assert_eq!(
        format_event(&GameEvent::ZoneChange { zone_id: 0, zone_name: "Town".to_string() }),
        "[ZoneChange] id=0 name=\"Town\""
    );
    assert_eq!(
        format_event(&GameEvent::DungeonPhaseSignal { targets: vec![], phase_id: None }),
        "[DungeonPhaseSignal] phase_id=None targets=0"
    );
}

#[test]
fn stats_line_shows_missing_values_as_none() {
    let mut stats = bpsr_tools::event::CharStats::empty();
    stats.level = Some(60);
    stats.hp = Some(-5);
    stats.attack = Some(1234);
    assert_eq!(
        format_event(&GameEvent::EntityStats { id: EntityId(255), stats }),
        "[EntityStats] id=0xff lv=Some(60) hp=Some(-5)/None atk=Some(1234) gs=None"
    );
}
