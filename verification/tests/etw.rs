//! Decoding of kernel events.

use aetheris::etw::{
    basename, decode_event, decode_name, decode_name_from_payload, decode_parent_pid,
    decode_parent_pid_from_payload, decode_pid_from_payload, decode_u32, decode_utf16_units,
    property_string, read_null_terminated_utf16, text_from_utf16, RawEvent,
};
use aetheris::events::ProcessKind;

const PTR: usize = 8;

fn event_record_with_payload(version: u8, id: u16, payload: &[u8]) -> RawEvent {
    RawEvent { id, version, header_pid: 0, payload: payload.to_vec(), properties: vec![] }
}

fn push_utf16(buf: &mut Vec<u8>, s: &str) {
    for u in s.encode_utf16() {
        buf.extend_from_slice(&u.to_le_bytes());
    }
}

#[test]
fn property_string_handles_length_prefix_and_nul_terminated() {
    let mut prefixed = vec![5u8, 0, 0, 0];
    push_utf16(&mut prefixed, "dummy");
    assert_eq!(property_string(&prefixed).as_deref(), Some("dummy"));

    let mut plain = Vec::new();
    push_utf16(&mut plain, "dummy_proc.exe");
    plain.extend_from_slice(&[0, 0]);
    assert_eq!(property_string(&plain).as_deref(), Some("dummy_proc.exe"));
}

#[test]
fn property_string_zero_length_prefix_is_none() {
    assert_eq!(property_string(&[0u8, 0, 0, 0]), None);
    let mut with_garbage = vec![0u8, 0, 0, 0];
    push_utf16(&mut with_garbage, "junk");
    assert_eq!(property_string(&with_garbage), None);
}

#[test]
fn basename_extracts_file_from_full_path() {
    assert_eq!(basename("dummy_proc.exe"), "dummy_proc.exe");
    assert_eq!(basename(r"C:\Program Files\dummy_proc.exe"), "dummy_proc.exe");
    assert_eq!(basename("/x/y/z.exe"), "z.exe");
}

#[test]
fn payload_decode_v1_start() {
    let mut payload = Vec::new();
    payload.extend_from_slice(&[0u8; 8]);
    payload.extend_from_slice(&100u32.to_le_bytes());
    payload.extend_from_slice(&50u32.to_le_bytes());
    payload.extend_from_slice(&7u32.to_le_bytes());
    payload.extend_from_slice(&0u32.to_le_bytes());
    payload.extend_from_slice(&[0u8; 8]);
    payload.extend_from_slice(&[1, 1, 0, 0, 0, 0, 0, 5, 10, 0, 0, 0]);
    push_utf16(&mut payload, "dummy_proc.exe\0");
    let rec = event_record_with_payload(1, 1, &payload);
    assert_eq!(decode_name(&rec, PTR).to_ascii_lowercase(), "dummy_proc.exe");
    assert_eq!(decode_parent_pid(&rec, PTR), 50);
}

#[test]
fn payload_decode_v0_start() {
    let mut payload = Vec::new();
    payload.extend_from_slice(&100u32.to_le_bytes());
    payload.extend_from_slice(&50u32.to_le_bytes());
    payload.extend_from_slice(&[1, 0, 0, 0, 0, 0, 0, 5]);
    push_utf16(&mut payload, "legacy.exe\0");
    let rec = event_record_with_payload(0, 1, &payload);
    assert_eq!(decode_name(&rec, PTR).to_ascii_lowercase(), "legacy.exe");
    assert_eq!(decode_parent_pid(&rec, PTR), 50);
}

#[test]
fn payload_decode_stop_has_no_name() {
    let mut payload = Vec::new();
    payload.extend_from_slice(&100u32.to_le_bytes());
    payload.extend_from_slice(&0u32.to_le_bytes());
    let rec = event_record_with_payload(1, 2, &payload);
    assert!(decode_name_from_payload(&rec, PTR).is_none());
    assert!(decode_parent_pid_from_payload(&rec, PTR).is_none());
}

fn build_modern_payload(pid: u32, parent: u32) -> Vec<u8> {
    let mut payload = Vec::new();
    payload.extend_from_slice(&pid.to_le_bytes());
    payload.extend_from_slice(&[0u8; 8]);
    payload.extend_from_slice(&[0u8; 8]);
    payload.extend_from_slice(&parent.to_le_bytes());
    payload.extend_from_slice(&[0u8; 8]);
    payload.extend_from_slice(&1u32.to_le_bytes());
    payload.extend_from_slice(&[0u8; 12]);
    payload.extend_from_slice(&[1, 1, 0, 0, 0, 0, 0, 5, 10, 0, 0, 0]);
    push_utf16(&mut payload, "dummy_proc.exe\0");
    payload
}

#[test]
fn decode_event_maps_ids_to_kinds() {
    let payload = build_modern_payload(42, 7);
    let mut rec = event_record_with_payload(4, 1, &payload);
    rec.header_pid = 999;
    let ev = decode_event(&rec, PTR).expect("start event decodes");
    assert_eq!(ev.pid, 42, "pid decoded from payload over the header");
    assert_eq!(ev.name, "dummy_proc.exe");
    assert_eq!(ev.parent_pid, 7);
    assert_eq!(ev.kind, ProcessKind::Start);

    rec.id = 2;
    rec.version = 2;
    let ev = decode_event(&rec, PTR).expect("stop event decodes");
    assert_eq!(ev.pid, 42);
    assert_eq!(ev.kind, ProcessKind::Stop);
    assert_eq!(ev.name, "", "stop events carry no image name");
    assert_eq!(ev.parent_pid, 0, "stop events carry no parent");

    rec.id = 99;
    assert!(decode_event(&rec, PTR).is_none(), "unknown ids are dropped");
}

#[test]
fn decode_event_v0_pid_from_payload_offset_zero() {
    let mut payload = Vec::new();
    payload.extend_from_slice(&777u32.to_le_bytes());
    payload.extend_from_slice(&5u32.to_le_bytes());
    payload.extend_from_slice(&[1, 0, 0, 0, 0, 0, 0, 5]);
    push_utf16(&mut payload, "legacy.exe\0");
    let mut rec = event_record_with_payload(0, 1, &payload);
    rec.header_pid = 999;
    let ev = decode_event(&rec, PTR).expect("V0 start decodes");
    assert_eq!(ev.pid, 777, "V0 pid comes from payload offset 0");
    assert_eq!(ev.parent_pid, 5);
}

#[test]
fn decode_u32_reads_little_endian() {
    assert_eq!(decode_u32(&[0x2A, 0x00, 0x00, 0x00]), Some(42));
    assert_eq!(decode_u32(&[0x2A, 0x00]), None);
}

#[test]
fn decode_pid_from_payload_v0_offset_zero() {
    let mut payload = Vec::new();
    payload.extend_from_slice(&123u32.to_le_bytes());
    payload.extend_from_slice(&50u32.to_le_bytes());
    assert_eq!(decode_pid_from_payload(&payload, 0, 8), Some(123));
}

#[test]
fn decode_pid_from_payload_modern_is_offset_zero() {
    let mut payload = Vec::new();
    payload.extend_from_slice(&456u32.to_le_bytes());
    assert_eq!(decode_pid_from_payload(&payload, 2, 8), Some(456));
    assert_eq!(decode_pid_from_payload(&payload, 4, 8), Some(456));
}

#[test]
fn decode_pid_from_payload_v1_offset_ptr() {
    let mut payload = Vec::new();
    payload.extend_from_slice(&[0u8; 8]);
    payload.extend_from_slice(&456u32.to_le_bytes());
    assert_eq!(decode_pid_from_payload(&payload, 1, 8), Some(456));
}

#[test]
fn decode_pid_from_payload_short_payload_is_none() {
    let mut payload = Vec::new();
    payload.extend_from_slice(&0x04030201u32.to_le_bytes());
    assert_eq!(decode_pid_from_payload(&payload, 1, 8), None);
    assert_eq!(decode_pid_from_payload(&payload, 0, 8), Some(0x04030201));
}

#[test]
fn decode_event_drops_zero_pid() {
    let mut payload = Vec::new();
    payload.extend_from_slice(&0u32.to_le_bytes());
    payload.extend_from_slice(&50u32.to_le_bytes());
    let mut rec = event_record_with_payload(0, 1, &payload);
    rec.header_pid = 5;
    assert!(decode_event(&rec, PTR).is_none(), "pid 0 events are dropped");
}

#[test]
fn properties_win_over_the_payload() {
    let mut name = Vec::new();
    push_utf16(&mut name, r"\Device\HarddiskVolume3\Games\x.exe");
    let rec = RawEvent {
        id: 1,
        version: 4,
        header_pid: 3,
        payload: build_modern_payload(42, 7),
        properties: vec![
            ("ProcessId".to_string(), vec![9, 1, 0, 0]),
            ("ProcessName".to_string(), vec![]),
            ("ImageFileName".to_string(), name),
            ("ParentId".to_string(), vec![11, 0, 0, 0]),
        ],
    };
    let ev = decode_event(&rec, PTR).unwrap();
    assert_eq!(ev.pid, 265);
    assert_eq!(ev.name, "x.exe");
    assert_eq!(ev.parent_pid, 11);
    assert_eq!(rec.get_property("ParentId"), Some(&vec![11, 0, 0, 0]));
    assert_eq!(rec.get_property("Other"), None);
}

#[test]
fn header_pid_is_the_last_resort() {
    let mut rec = event_record_with_payload(1, 2, &[1, 0]);
    rec.header_pid = 77;
    assert_eq!(decode_event(&rec, PTR).unwrap().pid, 77);
}

#[test]
fn utf16_is_decoded_like_std_does() {
    let cases: Vec<Vec<u16>> = vec![
        vec![],
        "plain".encode_utf16().collect(),
        "gr\u{fc}n \u{4e2d}\u{6587} \u{1f600}".encode_utf16().collect(),
        vec![0xd800],
        vec![0xdc00, 0x41],
        vec![0x41, 0xd800, 0x42],
        vec![0xd83d, 0xd83d, 0xde00],
        vec![0xdbff, 0xdfff, 0xe000, 0xffff],
    ];
    for units in cases {
        assert_eq!(text_from_utf16(&units), String::from_utf16_lossy(&units));
    }
}

#[test]
fn wide_text_ends_at_the_first_zero() {
    let mut bytes = Vec::new();
    push_utf16(&mut bytes, "ab\0cd");
    bytes.push(7);
    assert_eq!(decode_utf16_units(&bytes), "ab");
    assert_eq!(read_null_terminated_utf16(&[0, 0, 65, 0]), None);
    assert_eq!(read_null_terminated_utf16(&[65]), None);
    assert_eq!(read_null_terminated_utf16(&[65, 0]), Some("A".to_string()));
    assert_eq!(basename("a\\b\0\0"), "b");
    assert_eq!(basename("dir/"), "");
}
