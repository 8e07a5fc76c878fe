use mie_decoder::decode::MIN_RECORD_WORDS_STANDARD;
use mie_decoder::models::TimestampFormat;
use mie_decoder::sync::{
    find_first_record, min_word_count, recover_sync, validate_record, validate_record_detailed,
    ValidationFailure, DEFAULT_LOOKAHEAD_RECORDS, MAX_SCAN_BYTES,
};


/// One synthetic record:
///   Type Word 0x2402 → type=0x02, bus A, word_count=36, no error
///   Followed by 35 zeroed words to fill to 36 total
fn make_valid_record_36w(count: usize) -> Vec<u8> {
    let mut buf = Vec::with_capacity(count * 36 * 2);
    for _ in 0..count {
        // Type word 0x2402 LE
        buf.extend_from_slice(&[0x02, 0x24]);
        // 35 zero words (timestamp + cmd + data + status)
        buf.extend_from_slice(&[0u8; 70]);
    }
    buf
}

/// Requirements: L2-SYN-005
#[test]
fn validate_accepts_clean_record() {
    let buf = make_valid_record_36w(2);
    assert!(validate_record(
        &buf,
        0,
        buf.len(),
        None,
        DEFAULT_LOOKAHEAD_RECORDS
    ));
}

/// Requirements: L2-SYN-001
#[test]
fn validate_rejects_invalid_type() {
    // Type word with bad message type 0x03
    let buf = vec![0x03, 0x24, 0x00, 0x00];
    assert!(!validate_record(
        &buf,
        0,
        buf.len(),
        None,
        DEFAULT_LOOKAHEAD_RECORDS
    ));
}

/// Requirements: L2-SYN-003
#[test]
fn validate_rejects_truncated() {
    // Type word claims 36 words = 72 bytes, but only 4 bytes available
    let buf = vec![0x02, 0x24, 0x00, 0x00];
    assert!(!validate_record(
        &buf,
        0,
        buf.len(),
        None,
        DEFAULT_LOOKAHEAD_RECORDS
    ));
}

/// Requirements: L2-SYN-006
#[test]
fn find_first_record_at_zero() {
    let buf = make_valid_record_36w(2);
    let hit = find_first_record(
        &buf,
        buf.len(),
        None,
        MAX_SCAN_BYTES,
        DEFAULT_LOOKAHEAD_RECORDS,
    )
    .unwrap();
    assert_eq!(hit.offset, 0);
    assert_eq!(hit.skipped, 0);
}

/// Requirements: L2-SYN-006
#[test]
fn find_first_record_skips_header() {
    // 16-byte ASCII header + valid records
    let mut buf = b"DDC-HEADER-1234\n".to_vec(); // 16 bytes
    buf.extend(make_valid_record_36w(2));
    let hit = find_first_record(
        &buf,
        buf.len(),
        None,
        MAX_SCAN_BYTES,
        DEFAULT_LOOKAHEAD_RECORDS,
    )
    .unwrap();
    assert_eq!(hit.offset, 16);
    assert_eq!(hit.skipped, 16);
}

/// Requirements: L2-SYN-008
#[test]
fn find_first_record_returns_none_when_no_valid() {
    let buf = vec![0xFFu8; 64];
    assert!(
        find_first_record(
            &buf,
            buf.len(),
            None,
            MAX_SCAN_BYTES,
            DEFAULT_LOOKAHEAD_RECORDS
        )
        .is_none()
    );
}

/// Requirements: L2-SYN-009
#[test]
fn recover_sync_walks_forward() {
    let mut buf = vec![0xFFu8; 6]; // 6 bytes of garbage
    buf.extend(make_valid_record_36w(2));
    let hit = recover_sync(
        &buf,
        0,
        buf.len(),
        None,
        MAX_SCAN_BYTES,
        DEFAULT_LOOKAHEAD_RECORDS,
    )
    .unwrap();
    assert_eq!(hit.offset, 6);
    assert_eq!(hit.skipped, 6);
}

/// Requirements: L2-SYN-010, L1-SYN-002
#[test]
fn recover_sync_capped_at_max_scan() {
    let mut buf = vec![0xFFu8; 200];
    // Valid record only after 200 bytes of garbage
    buf.extend(make_valid_record_36w(2));
    // Cap scan at 100 → can't find it
    assert!(recover_sync(&buf, 0, buf.len(), None, 100, DEFAULT_LOOKAHEAD_RECORDS).is_none());
    // Cap at 400 → found
    assert!(recover_sync(&buf, 0, buf.len(), None, 400, DEFAULT_LOOKAHEAD_RECORDS).is_some());
}

// ── IRIG range validation (L2-SYN-004, L2-SYN-019) ──────────────

/// Build a minimal IRIG-shaped record from explicit timestamp word
/// values. word_count = 5 (Type + 3 TS + Cmd, no data, no status).
/// Two records back-to-back so the look-ahead check passes.
fn make_irig_record_with_ts(upper: u16, middle: u16, lower: u16) -> Vec<u8> {
    // Type word 0x0502: type=0x02 BcToRt, bus A, wc=5, error=0.
    const TYPE_RAW: u16 = 0x0502;
    // Command Word: rt=5, dir=Recv, sa=1, dwc=30 (raw 0x283E).
    const CMD_RAW: u16 = 0x283E;

    let mut buf = Vec::with_capacity(20);
    for _ in 0..2 {
        buf.extend_from_slice(&TYPE_RAW.to_le_bytes());
        buf.extend_from_slice(&upper.to_le_bytes());
        buf.extend_from_slice(&middle.to_le_bytes());
        buf.extend_from_slice(&lower.to_le_bytes());
        buf.extend_from_slice(&CMD_RAW.to_le_bytes());
    }
    buf
}

/// Helper: build upper TS word from explicit fields.
fn irig_upper(freerun: bool, day: u16, hour: u8) -> u16 {
    ((freerun as u16) << 15) | ((day & 0x1FF) << 5) | u16::from(hour & 0x1F)
}

/// Helper: build middle TS word from explicit fields.
fn irig_middle(minute: u8, second: u8, us_hi4: u8) -> u16 {
    ((u16::from(minute) & 0x3F) << 10)
        | ((u16::from(second) & 0x3F) << 4)
        | (u16::from(us_hi4) & 0xF)
}

/// Requirements: L2-SYN-004, L2-SYN-005
#[test]
fn detailed_validation_reports_each_failure_reason() {
    let valid = make_irig_record_with_ts(irig_upper(false, 192, 15), irig_middle(54, 50, 0), 0);
    let first = &valid[..10];

    let cases = [
        (vec![0x02], ValidationFailure::TypeWordUnreadable),
        (
            [0x0503u16.to_le_bytes().as_slice(), &[0; 8]].concat(),
            ValidationFailure::UnknownMessageType,
        ),
        (
            [0x0202u16.to_le_bytes().as_slice(), &[0; 8]].concat(),
            ValidationFailure::InvalidWordCount,
        ),
        (
            [0x2402u16.to_le_bytes().as_slice(), &[0; 8]].concat(),
            ValidationFailure::RecordTruncated,
        ),
        (
            make_irig_record_with_ts(irig_upper(false, 192, 24), irig_middle(54, 50, 0), 0),
            ValidationFailure::IrigHourOutOfRange,
        ),
        (
            make_irig_record_with_ts(irig_upper(false, 192, 15), irig_middle(60, 50, 0), 0),
            ValidationFailure::IrigMinuteOutOfRange,
        ),
        (
            make_irig_record_with_ts(irig_upper(false, 192, 15), irig_middle(54, 60, 0), 0),
            ValidationFailure::IrigSecondOutOfRange,
        ),
        (
            make_irig_record_with_ts(
                irig_upper(false, 192, 15),
                irig_middle(54, 50, 0xF),
                0x4240,
            ),
            ValidationFailure::IrigMicrosecondOutOfRange,
        ),
        (
            make_irig_record_with_ts(irig_upper(false, 0, 15), irig_middle(54, 50, 0), 0),
            ValidationFailure::IrigDayOutOfRange,
        ),
        (
            [first, 0x0503u16.to_le_bytes().as_slice()].concat(),
            ValidationFailure::LookaheadUnknownMessageType,
        ),
        (
            [first, 0x0202u16.to_le_bytes().as_slice()].concat(),
            ValidationFailure::LookaheadInvalidWordCount,
        ),
    ];

    for (data, expected) in cases {
        assert_eq!(
            validate_record_detailed(
                &data,
                0,
                data.len(),
                Some(TimestampFormat::Irig),
                DEFAULT_LOOKAHEAD_RECORDS,
            ),
            Err(expected)
        );
    }
}

/// Requirements: L2-SYN-004
#[test]
fn validate_accepts_irig_with_valid_ranges() {
    // day=192, hour=15, minute=54, second=50, microsecond=456_225,
    // freerun=0 — matches the canonical conformance fixture.
    let upper = irig_upper(false, 192, 15);
    let middle = irig_middle(54, 50, 6); // us_hi4 = 6
    let lower = 0xF621u16; // us_lo16 = 0xF621
    let buf = make_irig_record_with_ts(upper, middle, lower);
    assert!(validate_record(
        &buf,
        0,
        buf.len(),
        Some(TimestampFormat::Irig),
        DEFAULT_LOOKAHEAD_RECORDS,
    ));
}

/// Requirements: L2-SYN-004
#[test]
fn validate_rejects_irig_day_zero() {
    // day=0 is out of range per L2-SYN-004.
    let upper = irig_upper(false, 0, 15);
    let middle = irig_middle(54, 50, 0);
    let buf = make_irig_record_with_ts(upper, middle, 0);
    assert!(!validate_record(
        &buf,
        0,
        buf.len(),
        Some(TimestampFormat::Irig),
        DEFAULT_LOOKAHEAD_RECORDS,
    ));
}

/// Requirements: L2-SYN-004
#[test]
fn validate_rejects_irig_day_above_366() {
    // day=367 is out of range per L2-SYN-004.
    let upper = irig_upper(false, 367, 15);
    let middle = irig_middle(54, 50, 0);
    let buf = make_irig_record_with_ts(upper, middle, 0);
    assert!(!validate_record(
        &buf,
        0,
        buf.len(),
        Some(TimestampFormat::Irig),
        DEFAULT_LOOKAHEAD_RECORDS,
    ));
}

/// Requirements: L2-SYN-019
#[test]
fn validate_accepts_irig_day_zero_when_freerun() {
    // L2-SYN-019: freerun bypasses the day-of-year check.
    let upper = irig_upper(true, 0, 15);
    let middle = irig_middle(54, 50, 0);
    let buf = make_irig_record_with_ts(upper, middle, 0);
    assert!(validate_record(
        &buf,
        0,
        buf.len(),
        Some(TimestampFormat::Irig),
        DEFAULT_LOOKAHEAD_RECORDS,
    ));
}

/// Requirements: L2-SYN-004
#[test]
fn validate_rejects_irig_microsecond_at_one_million() {
    // microsecond = 1_000_000 = (0xF << 16) | 0x4240 = 0xF4240.
    // us_hi4 = 0xF, us_lo16 = 0x4240. Rejected per L2-SYN-004.
    let upper = irig_upper(false, 192, 15);
    let middle = irig_middle(54, 50, 0xF);
    let lower = 0x4240u16;
    let buf = make_irig_record_with_ts(upper, middle, lower);
    assert!(!validate_record(
        &buf,
        0,
        buf.len(),
        Some(TimestampFormat::Irig),
        DEFAULT_LOOKAHEAD_RECORDS,
    ));
}

/// Requirements: L2-SYN-004
#[test]
fn validate_accepts_irig_microsecond_at_max_valid() {
    // microsecond = 999_999 = (0xF << 16) | 0x423F = 0xF423F.
    let upper = irig_upper(false, 192, 15);
    let middle = irig_middle(54, 50, 0xF);
    let lower = 0x423Fu16;
    let buf = make_irig_record_with_ts(upper, middle, lower);
    assert!(validate_record(
        &buf,
        0,
        buf.len(),
        Some(TimestampFormat::Irig),
        DEFAULT_LOOKAHEAD_RECORDS,
    ));
}

/// Requirements: L2-SYN-019
#[test]
fn validate_rejects_irig_microsecond_when_freerun_too() {
    // L2-SYN-019 only relaxes the DAY check, not microsecond.
    // freerun=true with out-of-range microseconds is still rejected.
    let upper = irig_upper(true, 0, 15);
    let middle = irig_middle(54, 50, 0xF);
    let lower = 0x4240u16; // 1_000_000
    let buf = make_irig_record_with_ts(upper, middle, lower);
    assert!(!validate_record(
        &buf,
        0,
        buf.len(),
        Some(TimestampFormat::Irig),
        DEFAULT_LOOKAHEAD_RECORDS,
    ));
}

/// Requirements: L2-SYN-002
#[test]
fn min_word_count_helper() {
    assert_eq!(min_word_count(Some(TimestampFormat::Irig)), 5);
    assert_eq!(min_word_count(Some(TimestampFormat::Standard)), 4);
    assert_eq!(min_word_count(None), MIN_RECORD_WORDS_STANDARD);
}

// ── L2-SYN-026 N-record look-ahead tests ─────────────────────────

/// Requirements: L2-SYN-026
#[test]
fn validate_lookahead_n1_skips_lookahead() {
    // N=1 means no look-ahead. A single valid record with garbage
    // bytes right after it should still validate.
    let mut buf = make_valid_record_36w(1);
    // Append 4 bytes of plausible but invalid Type-Word garbage —
    // would fail the N=2 look-ahead but N=1 doesn't peek.
    buf.extend_from_slice(&[0xFF, 0xFF, 0x00, 0x00]);
    assert!(
        validate_record(&buf, 0, buf.len(), None, 1),
        "N=1 must not peek at the next record"
    );
    assert!(
        !validate_record(&buf, 0, buf.len(), None, 2),
        "N=2 must peek and reject the invalid follower"
    );
}

/// Requirements: L2-SYN-026
#[test]
fn validate_lookahead_n4_catches_second_corruption() {
    // Two valid records followed by garbage. N=2 (current default)
    // looks at the candidate + the next, both valid, accepts. N=4
    // also peeks at records 3 and 4 — those are garbage and
    // rejected. Demonstrates the value of higher N.
    let mut buf = make_valid_record_36w(2); // records 1 and 2: valid
    buf.extend_from_slice(&[0xFF, 0xFF, 0x00, 0x00]); // record 3 start: invalid Type Word
    assert!(
        validate_record(&buf, 0, buf.len(), None, 2),
        "N=2 only checks records 1 and 2 (both valid) — accepts"
    );
    assert!(
        !validate_record(&buf, 0, buf.len(), None, 4),
        "N=4 reaches record 3's invalid Type Word and rejects"
    );
}

/// Requirements: L2-SYN-026
#[test]
fn validate_lookahead_eof_terminates_gracefully() {
    // A single valid record with no follower at all. Any N >= 1
    // must accept — EOF mid-walk doesn't reject.
    let buf = make_valid_record_36w(1);
    for n in [1usize, 2, 4, 8, 32] {
        assert!(
            validate_record(&buf, 0, buf.len(), None, n),
            "N={n}: EOF must not reject when the candidate itself is valid"
        );
    }
}

