use game_monitor::etw::decode_event_record;
use game_monitor::events::ProcessStatus;

/// A well-formed process-start payload: pid, fixed numeric fields, an
/// empty security-identifier block, then the image path in UTF-16.
fn start_payload(pid: u32, path: &str) -> Vec<u8> {
    let mut d = Vec::new();
    d.extend_from_slice(&pid.to_le_bytes());
    // numeric fields up to byte 48
    d.extend_from_slice(&[0u8; 44]);
    // security identifier: revision 1, zero sub-authorities, header only
    d.extend_from_slice(&[1, 0, 0, 0, 0, 0, 0, 0]);
    for unit in path.encode_utf16() {
        d.extend_from_slice(&unit.to_le_bytes());
    }
    d.extend_from_slice(&[0, 0]);
    d
}

#[test]
fn start_record_decodes_pid_and_path() {
    let data = start_payload(100, r"C:\Games\Foo.exe");
    let msg = decode_event_record(1, &data).unwrap();
    assert_eq!(msg.pid, 100);
    assert!(matches!(msg.status, ProcessStatus::Started));
    assert_eq!(msg.path, r"C:\Games\Foo.exe");
}

#[test]
fn start_record_skips_sub_authorities() {
    let mut d = Vec::new();
    d.extend_from_slice(&7u32.to_le_bytes());
    d.extend_from_slice(&[0u8; 44]);
    // two sub-authorities: 8 header bytes plus 2 * 4 bytes
    d.extend_from_slice(&[1, 2, 0, 0, 0, 0, 0, 0]);
    d.extend_from_slice(&[0u8; 8]);
    for unit in "x.exe".encode_utf16() {
        d.extend_from_slice(&unit.to_le_bytes());
    }
    d.extend_from_slice(&[0, 0]);
    let msg = decode_event_record(1, &d).unwrap();
    assert_eq!(msg.pid, 7);
    assert_eq!(msg.path, "x.exe");
}

#[test]
fn truncated_start_record_is_dropped() {
    let data = vec![1, 0, 0, 0, 9, 9];
    assert!(decode_event_record(1, &data).is_none());
    // long enough for the header but holding no path
    let mut no_path = Vec::new();
    no_path.extend_from_slice(&5u32.to_le_bytes());
    no_path.extend_from_slice(&[0u8; 44]);
    no_path.extend_from_slice(&[1, 0, 0, 0, 0, 0, 0, 0]);
    no_path.extend_from_slice(&[0, 0]);
    assert!(decode_event_record(1, &no_path).is_none());
}

#[test]
fn stop_record_decodes_pid_only() {
    let data = vec![100, 0, 0, 0, 0xAA, 0xBB];
    let msg = decode_event_record(2, &data).unwrap();
    assert_eq!(msg.pid, 100);
    assert!(matches!(msg.status, ProcessStatus::Terminated));
    assert_eq!(msg.path, "");
    assert!(decode_event_record(2, &vec![1, 2, 3]).is_none());
}

#[test]
fn other_record_ids_are_ignored() {
    let data = start_payload(100, r"C:\Games\Foo.exe");
    assert!(decode_event_record(3, &data).is_none());
    assert!(decode_event_record(0, &data).is_none());
}

#[test]
fn unterminated_path_reads_whole_units() {
    let mut d = Vec::new();
    d.extend_from_slice(&9u32.to_le_bytes());
    d.extend_from_slice(&[0u8; 44]);
    d.extend_from_slice(&[1, 0, 0, 0, 0, 0, 0, 0]);
    for unit in "ab".encode_utf16() {
        d.extend_from_slice(&unit.to_le_bytes());
    }
    // no null terminator, and one stray trailing byte
    d.push(b'c');
    let msg = decode_event_record(1, &d).unwrap();
    assert_eq!(msg.path, "ab");
}
