use std::path::Path;

use mie_decoder::dump::{hex_dump_raw, hex_dump_records, loaded_file, type_display_name, writer_error};
use mie_decoder::error::{IoFailure, IoKind, MieErrorKind};

/// What loading a path that cannot be opened gives.
fn load(path: &str) -> Result<Vec<u8>, mie_decoder::error::MieError> {
    let exists = Path::new(path).exists();
    let read = Err(IoFailure {
        kind: IoKind::NotFound,
        message: "No such file or directory".to_string(),
    });
    loaded_file(path, exists, read)
}

#[test]
fn raw_dump_format() {
    let s = hex_dump_raw(b"AB\x00\x01\x02\x03", "/tmp/sample.bin", 0, None);
    assert!(s.contains("00000000"));
    assert!(s.contains("41 42"));
    assert!(s.contains("|AB"));
    assert!(s.starts_with("File: sample.bin (6 bytes)\n"));
}

#[test]
fn record_dump_handles_one_record() {
    let mut buf = Vec::with_capacity(72);
    buf.extend_from_slice(&[0x02, 0x24]);
    buf.extend_from_slice(&[0u8; 70]);
    let s = hex_dump_records(&buf, "rec.bin", Some(1), 0);
    assert!(s.contains("Record #0"));
    assert!(s.contains("BC->RT (Receive)"));
    assert!(s.contains("1 records dumped"));
}

#[test]
fn record_dump_notes_and_warns_truncated_record() {
    let mut buf = Vec::with_capacity(20);
    buf.extend_from_slice(&[0x02, 0x24]);
    buf.extend_from_slice(&[0u8; 18]);
    let s = hex_dump_records(&buf, "rec.bin", Some(1), 0);
    assert!(s.contains("!! Truncated record"));
    assert!(s.contains("72 bytes needed, 20 available"));
}

#[test]
fn missing_file_returns_error() {
    let err = load("/no/such/file.bin").unwrap_err();
    assert_eq!(err.kind(), MieErrorKind::FileNotFound);
}

#[test]
fn raw_dump_offset_max_length_one_does_not_panic() {
    let s = hex_dump_raw(b"AB\x00\x01\x02\x03", "f.bin", usize::MAX, Some(1));
    assert!(s.contains("File:"));
}

#[test]
fn raw_dump_offset_max_length_max_does_not_panic() {
    let _ = hex_dump_raw(b"AB\x00\x01", "f.bin", usize::MAX, Some(usize::MAX));
}

#[test]
fn raw_dump_offset_beyond_eof_yields_empty() {
    let s = hex_dump_raw(b"AB\x00\x01", "f.bin", 1000, Some(16));
    assert!(!s.contains("41 42"));
}

#[test]
fn record_dump_offset_max_does_not_panic() {
    let s = hex_dump_records(b"AB\x00\x01\x02\x03\x04\x05\x06\x07\x08\x09", "f.bin", Some(1), usize::MAX);
    assert!(s.contains("0 records dumped"));
}

#[test]
fn record_dump_offset_just_short_of_max_does_not_panic() {
    let s = hex_dump_records(
        b"AB\x00\x01\x02\x03\x04\x05\x06\x07\x08\x09",
        "f.bin",
        Some(1),
        usize::MAX - 4,
    );
    assert!(s.contains("0 records dumped"));
}

#[test]
fn raw_dump_surfaces_write_failure() {
    let err = writer_error(IoFailure { kind: IoKind::Other, message: "injected write failure".into() });
    assert_eq!(err.kind(), MieErrorKind::WriterError);
}

#[test]
fn dump_broken_pipe_is_classified_for_exit_zero() {
    let err = writer_error(IoFailure { kind: IoKind::BrokenPipe, message: "injected".into() });
    assert!(err.is_broken_pipe());
}

// ── Checks of this library's own ──────────────────────────────────────

#[test]
fn raw_dump_lines_hold_sixteen_bytes() {
    let data: Vec<u8> = (0u8..20).collect();
    let s = hex_dump_raw(&data, "d.bin", 0, None);
    let first = format!("{:<48}", "00 01 02 03 04 05 06 07 08 09 0A 0B 0C 0D 0E 0F");
    let second = format!("{:<48}", "10 11 12 13");
    let expected = format!(
        "File: d.bin (20 bytes)\nRange: 0x00000000-0x00000014\n\n  00000000  {first}  |................|\n  00000010  {second}  |....|\n"
    );
    assert_eq!(s, expected);
}

#[test]
fn an_empty_or_unreadable_file_is_an_error() {
    let r = loaded_file("x", true, Ok(Vec::new()));
    assert_eq!(r.unwrap_err().kind(), MieErrorKind::FileEmpty);
    let r = loaded_file("x", true, Err(IoFailure { kind: IoKind::PermissionDenied, message: "no".into() }));
    assert_eq!(r.unwrap_err().kind(), MieErrorKind::FileIo);
    assert_eq!(loaded_file("x", true, Ok(vec![1])).unwrap(), vec![1]);
}

#[test]
fn unknown_type_codes_are_named_in_hex() {
    assert_eq!(type_display_name(0x03), "UNKNOWN(0x03)");
    assert_eq!(type_display_name(0x20), "Spurious Data");
}

#[test]
fn a_short_word_count_stops_the_record_scan() {
    // Type Word 0x0302: word count 3, below the minimum.
    let mut buf = vec![0x02, 0x03];
    buf.extend_from_slice(&[0u8; 10]);
    let s = hex_dump_records(&buf, "f.bin", None, 0);
    assert!(s.contains("!! Invalid word_count=3 at 0x00000000, stopping"));
    assert!(s.contains("0 records dumped"));
}
