use mie_decoder::decode::{
    classify_message_format, decode_command_word, decode_irig_timestamp, decode_standard_timestamp,
    decode_type_word, detect_record_anomalies, mux_from_filename, probe_timestamp_format, read_u16,
    read_u16_array, validate_post_extract_invariants, validate_structural_invariants,
    DetectionConfidence, InvariantSeverity, WhichInvariant, CONFIDENCE_FLOOR, DECISIVE_MARGIN,
    MIN_MARGIN,
};
use mie_decoder::models::{
    Bus, CommandWord, Direction, MessageFormat, TimestampFormat, TypeWord,
};


/// Requirements: L2-WRT-020
#[test]
fn mux_from_filename_extraction() {
    let name = "full_loadout.draw.data.1553.aa.unused.mie_irig";
    // Default field 4 → the recorder identity.
    assert_eq!(mux_from_filename(name, ".", 4).as_deref(), Some("aa"));
    // Other operator files at the same index.
    assert_eq!(
        mux_from_filename("full_loadout.draw.data.1553.bb.unused.mie_irig", ".", 4).as_deref(),
        Some("bb")
    );
    // Negative index counts from the end (-3 == index 4 here).
    assert_eq!(mux_from_filename(name, ".", -3).as_deref(), Some("aa"));
    // Index 0 and the last field.
    assert_eq!(
        mux_from_filename(name, ".", 0).as_deref(),
        Some("full_loadout")
    );
    assert_eq!(
        mux_from_filename(name, ".", -1).as_deref(),
        Some("mie_irig")
    );
    // Out-of-range → None (empty MUX).
    assert_eq!(mux_from_filename(name, ".", 99), None);
    assert_eq!(mux_from_filename(name, ".", -99), None);
    // A different delimiter.
    assert_eq!(mux_from_filename("a_b_c", "_", 1).as_deref(), Some("b"));
    // Empty delimiter / empty field → None.
    assert_eq!(mux_from_filename(name, "", 4), None);
    assert_eq!(mux_from_filename("a..b", ".", 1), None);
    // No delimiter present and field != 0 → None.
    assert_eq!(mux_from_filename("plain", ".", 4), None);
    assert_eq!(mux_from_filename("plain", ".", 0).as_deref(), Some("plain"));
}

/// Requirements: L2-DEC-001
#[test]
fn type_word_layout() {
    // 0x2402: word_count=36 in upper byte (0x24), type=0x02 in lower
    let tw = decode_type_word(0x2402);
    assert_eq!(tw.message_type, 2);
    assert_eq!(tw.bus, Bus::A);
    assert_eq!(tw.word_count, 36);
    assert!(!tw.error);
    assert_eq!(tw.raw, 0x2402);
}

/// Requirements: L2-DEC-001, L2-ERR-001
#[test]
fn type_word_bus_b_and_error_bit() {
    // bit 7 set → Bus B, bit 14 set → error
    let raw = 0b0100_0000_1000_0000 | 0x02; // type 0x02
    let tw = decode_type_word(raw);
    assert_eq!(tw.bus, Bus::B);
    assert!(tw.error);
}

/// Requirements: L2-DEC-002
#[test]
fn irig_timestamp_known_value() {
    // From Python doctest fixture
    let ts = decode_irig_timestamp(0x180F, 0xDB26, 0xF621);
    assert_eq!(ts.hour, 15);
    assert_eq!(ts.minute, 54);
    assert_eq!(ts.second, 50);
    assert_eq!(ts.microsecond, 456_225);
    assert!(!ts.freerun);
}

/// Requirements: L2-DEC-003
#[test]
fn irig_freerun_bit() {
    let ts = decode_irig_timestamp(0x8000, 0, 0);
    assert!(ts.freerun);
}

/// Requirements: L2-DEC-007
#[test]
fn standard_timestamp_round_trip() {
    let ts = decode_standard_timestamp(0x0001, 0x86A0);
    assert_eq!(ts.raw_value, 100_000);
    assert_eq!(ts.upper_word, 0x0001);
    assert_eq!(ts.lower_word, 0x86A0);
}

/// Requirements: L2-DEC-004
#[test]
fn command_word_known_value() {
    // 0x797E → RT 15, Receive, SA 11, 30 data words
    let cw = decode_command_word(0x797E);
    assert_eq!(cw.rt, 15);
    assert_eq!(cw.direction, Direction::Receive);
    assert_eq!(cw.subaddress, 11);
    assert_eq!(cw.data_word_count, 30);
}

/// Requirements: L2-DEC-004
#[test]
fn command_word_zero_means_thirty_two() {
    // raw bits 0..4 = 0 → 32 data words
    let cw = decode_command_word(0b0000_1000_0010_0000); // arbitrary upper bits
    assert_eq!(cw.data_word_count, 32);
}

/// Requirements: L2-DEC-008
#[test]
fn read_u16_le() {
    assert_eq!(read_u16(&[0x34, 0x12], 0), Some(0x1234));
    assert_eq!(read_u16(&[0x34], 0), None);
}

/// Requirements: L2-DEC-008
#[test]
fn read_u16_array_into_slice() {
    let bytes = [0x01, 0x00, 0x02, 0x00, 0x03, 0x00];
    let mut out = vec![0u16; 3];
    assert!(read_u16_array(&bytes, 0, 3, &mut out));
    assert_eq!(out, vec![1, 2, 3]);
}

/// Requirements: L2-MSG-001
#[test]
fn classify_simple_types() {
    // Non-mode-code formats are direct type mappings; the timestamp word
    // count is irrelevant to them (pass 3 = IRIG).
    let cmd = decode_command_word(0x797E);
    assert_eq!(
        classify_message_format(0x02, &cmd, 36, 3).unwrap(),
        MessageFormat::Receive
    );
    assert_eq!(
        classify_message_format(0x04, &cmd, 10, 3).unwrap(),
        MessageFormat::Transmit
    );
    assert_eq!(
        classify_message_format(0x08, &cmd, 12, 3).unwrap(),
        MessageFormat::RtToRt
    );
    assert_eq!(
        classify_message_format(0x20, &cmd, 8, 3).unwrap(),
        MessageFormat::SpuriousData
    );
}

/// Broadcast mode-code data/no-data boundary is relative to the timestamp
/// word count: data iff word_count >= timestamp_words + 3 (L2-MSG-004). For
/// IRIG (3) that is WC >= 6; for Standard (2) that is WC >= 5.
/// Requirements: L2-MSG-001, L2-MSG-004
#[test]
fn classify_mode_code_broadcast_data_vs_no_data() {
    let cmd = CommandWord {
        rt: 31,
        direction: Direction::Receive,
        subaddress: 0,
        data_word_count: 0,
        raw: 0,
    };
    // IRIG (3 timestamp words): boundary at WC 5/6.
    assert_eq!(
        classify_message_format(0x01, &cmd, 5, 3).unwrap(),
        MessageFormat::ModeCodeBcastNoData
    );
    assert_eq!(
        classify_message_format(0x01, &cmd, 6, 3).unwrap(),
        MessageFormat::ModeCodeBcastData
    );
    // Standard (2 timestamp words): boundary shifts down to WC 4/5.
    assert_eq!(
        classify_message_format(0x01, &cmd, 4, 2).unwrap(),
        MessageFormat::ModeCodeBcastNoData
    );
    assert_eq!(
        classify_message_format(0x01, &cmd, 5, 2).unwrap(),
        MessageFormat::ModeCodeBcastData
    );
}

/// A transmit mode code is `ModeCodeTxData` only when the record is long
/// enough to carry a data word (word_count >= timestamp_words + 4); without
/// one it is `ModeCodeNoData` — the wire shape is ModeCmd + Status either
/// way, and the `CMD` column preserves the direction. Regression: a no-data
/// transmit mode code (1553 mode codes 0–15 — "transmit status word", etc.)
/// was previously forced to `ModeCodeTxData`, failed the L2-SYN-022 capacity
/// check, and was silently dropped from the CSV in lenient mode.
/// Requirements: L2-MSG-001, L2-MSG-004
#[test]
fn classify_mode_code_tx_data_vs_no_data() {
    let cmd = CommandWord {
        rt: 5,
        direction: Direction::Transmit,
        subaddress: 0,
        data_word_count: 1,
        raw: 0,
    };
    // IRIG (3 timestamp words): boundary at WC 6/7.
    assert_eq!(
        classify_message_format(0x01, &cmd, 7, 3).unwrap(),
        MessageFormat::ModeCodeTxData
    );
    assert_eq!(
        classify_message_format(0x01, &cmd, 6, 3).unwrap(),
        MessageFormat::ModeCodeNoData,
        "a transmit mode code with no data word must be NoData, not dropped"
    );
    // Standard (2 timestamp words): boundary shifts down to WC 5/6.
    assert_eq!(
        classify_message_format(0x01, &cmd, 6, 2).unwrap(),
        MessageFormat::ModeCodeTxData
    );
    assert_eq!(
        classify_message_format(0x01, &cmd, 5, 2).unwrap(),
        MessageFormat::ModeCodeNoData
    );
}

/// Non-broadcast receive mode-code data/no-data boundary is relative to the
/// timestamp word count: data iff word_count >= timestamp_words + 4
/// (L2-MSG-004). For IRIG (3) that is WC >= 7; for Standard (2) WC >= 6.
/// Requirements: L2-MSG-001, L2-MSG-004
#[test]
fn classify_mode_code_rx_vs_no_data() {
    let cmd = CommandWord {
        rt: 5,
        direction: Direction::Receive,
        subaddress: 0,
        data_word_count: 1,
        raw: 0,
    };
    // IRIG (3 timestamp words): boundary at WC 6/7.
    assert_eq!(
        classify_message_format(0x01, &cmd, 7, 3).unwrap(),
        MessageFormat::ModeCodeRxData
    );
    assert_eq!(
        classify_message_format(0x01, &cmd, 6, 3).unwrap(),
        MessageFormat::ModeCodeNoData
    );
    // Standard (2 timestamp words): boundary shifts down to WC 5/6 — the
    // previously-misclassified case (WC=6 Standard was treated as no-data).
    assert_eq!(
        classify_message_format(0x01, &cmd, 6, 2).unwrap(),
        MessageFormat::ModeCodeRxData
    );
    assert_eq!(
        classify_message_format(0x01, &cmd, 5, 2).unwrap(),
        MessageFormat::ModeCodeNoData
    );
}

/// Requirements: L2-SYN-001
#[test]
fn classify_unknown_type() {
    let cmd = decode_command_word(0);
    assert!(classify_message_format(0x03, &cmd, 5, 3).is_err());
}

// ── L2-SYN-020..025 structural invariants (Phase 7a) ──────────────────

fn tw(message_type: u8, word_count: u16) -> TypeWord {
    TypeWord {
        message_type,
        bus: Bus::A,
        word_count,
        error: false,
        raw: 0,
    }
}

fn cmd_with(direction: Direction, dwc: u8) -> CommandWord {
    CommandWord {
        rt: 15,
        direction,
        subaddress: 11,
        data_word_count: dwc,
        raw: 0,
    }
}

/// Requirements: L2-SYN-020
#[test]
fn invariants_pass_for_canonical_bc_to_rt() {
    let t = tw(0x02, 36); // 1 + 3 + 1 + 30 + 1 = 36
    let c = cmd_with(Direction::Receive, 30);
    validate_structural_invariants(&t, &c, MessageFormat::Receive, 3).unwrap();
}

/// Requirements: L2-SYN-021
#[test]
fn invariants_pass_for_canonical_rt_to_bc() {
    let t = tw(0x04, 36);
    let c = cmd_with(Direction::Transmit, 30);
    validate_structural_invariants(&t, &c, MessageFormat::Transmit, 3).unwrap();
}

/// Requirements: L2-SYN-020
#[test]
fn invariants_reject_bc_to_rt_with_transmit_cmd() {
    let t = tw(0x02, 36);
    let c = cmd_with(Direction::Transmit, 30); // wrong
    let err = validate_structural_invariants(&t, &c, MessageFormat::Receive, 3).unwrap_err();
    assert_eq!(err.kind, WhichInvariant::DirectionBcToRt);
}

/// Requirements: L2-SYN-021
#[test]
fn invariants_reject_rt_to_bc_with_receive_cmd() {
    let t = tw(0x04, 36);
    let c = cmd_with(Direction::Receive, 30); // wrong
    let err = validate_structural_invariants(&t, &c, MessageFormat::Transmit, 3).unwrap_err();
    assert_eq!(err.kind, WhichInvariant::DirectionRtToBc);
}

/// Requirements: L2-SYN-022
#[test]
fn invariants_reject_capacity_short() {
    // wc=5 too small for Receive with dwc=30 (needs 1+3+1+31=36).
    let t = tw(0x02, 5);
    let c = cmd_with(Direction::Receive, 30);
    let err = validate_structural_invariants(&t, &c, MessageFormat::Receive, 3).unwrap_err();
    assert_eq!(err.kind, WhichInvariant::WordCountCapacity);
}

/// Requirements: L2-SYN-022
#[test]
fn invariants_accept_capacity_exact() {
    // wc=36 is exactly the minimum for Receive with dwc=30.
    let t = tw(0x02, 36);
    let c = cmd_with(Direction::Receive, 30);
    validate_structural_invariants(&t, &c, MessageFormat::Receive, 3).unwrap();
}

/// Requirements: L2-SYN-022
#[test]
fn invariants_skip_capacity_for_spurious() {
    // SpuriousData has variable payload so the capacity check is
    // intentionally skipped (min_payload_words returns 0).
    let t = tw(0x20, 5); // wc=5 — only TW + 3 TS + 1 extra
    let c = cmd_with(Direction::Receive, 0);
    validate_structural_invariants(&t, &c, MessageFormat::SpuriousData, 3).unwrap();
}

/// Requirements: L2-SYN-020
#[test]
fn invariants_mode_code_not_constrained_by_direction() {
    // Mode codes (type 0x01) can be Transmit OR Receive. The
    // direction invariants only apply to 0x02 and 0x04.
    let t = tw(0x01, 7);
    let c_tx = cmd_with(Direction::Transmit, 1);
    validate_structural_invariants(&t, &c_tx, MessageFormat::ModeCodeTxData, 3).unwrap();
    let c_rx = cmd_with(Direction::Receive, 1);
    validate_structural_invariants(&t, &c_rx, MessageFormat::ModeCodeRxData, 3).unwrap();
}

// ── L2-SYN-023 (post-extract Cmd2 direction) ─────────────────

/// Requirements: L2-SYN-023
#[test]
fn post_extract_invariant_rt_to_rt_cmd2_receive_passes() {
    // Cmd1 and Cmd2 agree on data_word_count (L2-SYN-027) and Cmd2 is
    // Receive (L2-SYN-023) → no violation.
    let c1 = cmd_with(Direction::Transmit, 3);
    let c2 = CommandWord {
        rt: 5,
        direction: Direction::Receive,
        subaddress: 10,
        data_word_count: 3,
        raw: 0,
    };
    validate_post_extract_invariants(MessageFormat::RtToRt, &c1, Some(&c2)).unwrap();
}

/// Requirements: L2-SYN-023
#[test]
fn post_extract_invariant_rt_to_rt_cmd2_transmit_rejected() {
    let c1 = cmd_with(Direction::Transmit, 3);
    let c2 = CommandWord {
        rt: 5,
        direction: Direction::Transmit, // WRONG: should be Receive
        subaddress: 10,
        data_word_count: 3,
        raw: 0xABCD,
    };
    let err =
        validate_post_extract_invariants(MessageFormat::RtToRt, &c1, Some(&c2)).unwrap_err();
    assert_eq!(err.kind, WhichInvariant::DirectionRtToRtCmd2);
    assert_eq!(err.severity, InvariantSeverity::Reject);
}

/// Requirements: L2-SYN-023
#[test]
fn post_extract_invariant_rt_to_rt_broadcast_also_checked() {
    let c1 = cmd_with(Direction::Transmit, 3);
    let c2 = CommandWord {
        rt: 5,
        direction: Direction::Transmit,
        subaddress: 10,
        data_word_count: 3,
        raw: 0,
    };
    let err = validate_post_extract_invariants(MessageFormat::RtToRtBroadcast, &c1, Some(&c2))
        .unwrap_err();
    assert_eq!(err.kind, WhichInvariant::DirectionRtToRtCmd2);
}

/// Requirements: L2-SYN-023
#[test]
fn post_extract_invariant_non_rt_to_rt_is_noop() {
    let c1 = cmd_with(Direction::Transmit, 3);
    // No cmd2 for non-RT-to-RT formats; function returns Ok.
    validate_post_extract_invariants(MessageFormat::Receive, &c1, None).unwrap();
    // Even if a stray Cmd2 is passed in (shouldn't happen), other
    // formats don't enforce the post-extract invariants.
    let c2 = CommandWord {
        rt: 5,
        direction: Direction::Transmit,
        subaddress: 10,
        data_word_count: 3,
        raw: 0,
    };
    validate_post_extract_invariants(MessageFormat::Receive, &c1, Some(&c2)).unwrap();
}

// ── L2-SYN-027 (post-extract Cmd1/Cmd2 data_word_count agreement) ─

/// Requirements: L2-SYN-027
#[test]
fn post_extract_invariant_rt_to_rt_cmd_word_count_mismatch_rejected() {
    // Cmd2 direction is valid (Receive) so L2-SYN-023 passes, but Cmd1
    // and Cmd2 disagree on data_word_count → L2-SYN-027 rejects.
    let c1 = cmd_with(Direction::Transmit, 3);
    let c2 = CommandWord {
        rt: 5,
        direction: Direction::Receive,
        subaddress: 10,
        data_word_count: 5, // disagrees with Cmd1's 3
        raw: 0x1234,
    };
    for fmt in [MessageFormat::RtToRt, MessageFormat::RtToRtBroadcast] {
        let err = validate_post_extract_invariants(fmt, &c1, Some(&c2)).unwrap_err();
        assert_eq!(err.kind, WhichInvariant::DataWordCountMismatch);
        assert_eq!(err.severity, InvariantSeverity::Reject);
    }
}

// ── L2-SYN-024 / L2-SYN-025 (anomaly detectors) ─────────────────

/// Requirements: L2-SYN-024
#[test]
fn anomaly_status_rt_match_no_violation() {
    // RT=15 in Cmd; status's bits 15-11 also = 15 (raw 0x7800).
    let t = tw(0x02, 36);
    let c = cmd_with(Direction::Receive, 30); // rt=15
    let anomalies = detect_record_anomalies(&t, &c, Some(0x7800));
    assert!(anomalies.is_empty());
}

/// Requirements: L2-SYN-024
#[test]
fn anomaly_status_rt_mismatch_logged() {
    // Cmd RT=15 but Status raw 0x2800 → status RT = 5.
    let t = tw(0x02, 36);
    let c = cmd_with(Direction::Receive, 30); // rt=15
    let anomalies = detect_record_anomalies(&t, &c, Some(0x2800));
    assert_eq!(anomalies.len(), 1);
    assert_eq!(anomalies[0].kind, WhichInvariant::StatusRtMismatch);
    assert_eq!(anomalies[0].severity, InvariantSeverity::AnomalyWarn);
}

/// Requirements: L2-SYN-024
#[test]
fn anomaly_no_status_no_violation() {
    // Broadcast formats and SPURIOUS_DATA have no Status Word;
    // INV-005 is silent.
    let t = tw(0x02, 36);
    let c = cmd_with(Direction::Receive, 30);
    let anomalies = detect_record_anomalies(&t, &c, None);
    assert!(anomalies.is_empty());
}

/// Requirements: L2-SYN-025
#[test]
fn anomaly_type_word_reserved_bit_set_logged() {
    // Type word raw with bit 15 set: 0x8402 (wc=4, bit15=1, type=0x02).
    // (The framing parts here are irrelevant — the anomaly check
    // only looks at bit 15.)
    let t = TypeWord {
        message_type: 0x02,
        bus: Bus::A,
        word_count: 4,
        error: false,
        raw: 0x8402,
    };
    let c = cmd_with(Direction::Receive, 1);
    let anomalies = detect_record_anomalies(&t, &c, None);
    assert_eq!(anomalies.len(), 1);
    assert_eq!(anomalies[0].kind, WhichInvariant::TypeWordReservedBit);
    assert_eq!(anomalies[0].severity, InvariantSeverity::AnomalyWarn);
}

/// Requirements: L2-SYN-025
#[test]
fn anomaly_multiple_can_fire_on_one_record() {
    // Status RT mismatch + reserved bit set: expect TWO anomalies.
    let t = TypeWord {
        message_type: 0x02,
        bus: Bus::A,
        word_count: 36,
        error: false,
        raw: 0xA402, // bit 15 set
    };
    let c = cmd_with(Direction::Receive, 30); // rt=15
    let anomalies = detect_record_anomalies(&t, &c, Some(0x2800)); // status RT=5
    assert_eq!(anomalies.len(), 2);
}

// ── L2-DEC-015 / L2-DEC-016 probe tests ──────────────────────────

/// Canonical 72-byte RT15 SA11 Receive record under IRIG framing.
/// Byte-exact with the fixture used by rust/tests/integration.rs.
///
/// What matters about the values: the layout scores perfectly
/// under IRIG (T/R: +2, WC: +2, range: +1 = +5 per record) and
/// only weakly under Standard.
fn irig_record_bytes() -> Vec<u8> {
    let mut s = String::new();
    s.push_str("02240F1826DB21F6"); // Type 0x2402 (wc=36) + IRIG TS
    s.push_str("7E79"); // Cmd 0x797E (RT15 R SA11 30dw)
    s.push_str("0004");
    s.push_str("0000");
    s.push_str("0000");
    s.push_str("2F00");
    s.push_str("22CA");
    s.push_str("2F00");
    s.push_str("22CA");
    for _ in 0..22 {
        s.push_str("0000");
    }
    s.push_str("71C7");
    s.push_str("0078"); // Status 0x7800
    (0..s.len())
        .step_by(2)
        .map(|i| u8::from_str_radix(&s[i..i + 2], 16).unwrap())
        .collect()
}

/// Requirements: L2-DEC-015
#[test]
fn probe_single_irig_record_picks_irig() {
    let data = irig_record_bytes();
    let out = probe_timestamp_format(&data, 0, 8);
    assert_eq!(out.format, TimestampFormat::Irig);
    assert_eq!(out.records_probed, 1);
    assert!(out.irig_score > out.std_score);
}

/// Requirements: L2-DEC-015
#[test]
fn probe_eight_irig_records_aggregates_decisively() {
    // Stitch 8 copies of the canonical IRIG record together.
    let one = irig_record_bytes();
    let mut data = Vec::new();
    for _ in 0..8 {
        data.extend_from_slice(&one);
    }
    let out = probe_timestamp_format(&data, 0, 8);
    assert_eq!(out.format, TimestampFormat::Irig);
    assert_eq!(out.records_probed, 8);
    assert_eq!(out.confidence, DetectionConfidence::Decisive);
    // Each IRIG record scores +5 (T/R + WC + range); eight of
    // them yields 40 IRIG vs much lower Standard.
    assert!(out.irig_score >= 40);
    assert!(out.irig_score - out.std_score >= DECISIVE_MARGIN);
}

/// Requirements: L2-DEC-015
#[test]
fn probe_stops_at_eof_records_probed_reflects_truncation() {
    // Only 3 records' worth of data — probe should report 3 even
    // though max_records=8.
    let one = irig_record_bytes();
    let mut data = Vec::new();
    for _ in 0..3 {
        data.extend_from_slice(&one);
    }
    let out = probe_timestamp_format(&data, 0, 8);
    assert_eq!(out.records_probed, 3);
    assert_eq!(out.format, TimestampFormat::Irig);
}

/// Requirements: L2-DEC-012, L2-DEC-015
#[test]
fn probe_zero_score_ties_to_irig() {
    // All-zero buffer — neither format scores anything. IRIG
    // wins the tie per L2-DEC-012.
    let data = vec![0u8; 64];
    let out = probe_timestamp_format(&data, 0, 8);
    assert_eq!(out.format, TimestampFormat::Irig);
    // Both scores zero → Ambiguous by definition of L2-DEC-016
    // (max_score < CONFIDENCE_FLOOR).
    assert_eq!(out.confidence, DetectionConfidence::Ambiguous);
}

/// Requirements: L2-DEC-016
#[test]
fn probe_ambiguous_below_floor_classifies_ambiguous() {
    // A single record whose scoring is mostly indistinguishable
    // — IRIG range check passes but neither T/R nor WC match,
    // and the corresponding Standard signals are also weak.
    let data = vec![0u8; 16];
    let out = probe_timestamp_format(&data, 0, 8);
    let max_score = out.irig_score.max(out.std_score);
    let margin = (out.irig_score - out.std_score).abs();
    // Confirm we're in the L2-DEC-016 ambiguous region.
    assert!(max_score < CONFIDENCE_FLOOR || margin < MIN_MARGIN);
    assert_eq!(out.confidence, DetectionConfidence::Ambiguous);
}

/// Requirements: L2-DEC-015
#[test]
fn probe_max_records_one_still_works() {
    // max_records=0 clamps to 1; max_records=1 probes exactly
    // the first record.
    let data = irig_record_bytes();
    let out_zero = probe_timestamp_format(&data, 0, 0);
    let out_one = probe_timestamp_format(&data, 0, 1);
    assert_eq!(out_zero.records_probed, 1);
    assert_eq!(out_one.records_probed, 1);
    assert_eq!(out_zero.format, out_one.format);
    assert_eq!(out_zero.irig_score, out_one.irig_score);
}


#[test]
fn a_negative_mux_field_counts_from_the_end() {
    let name = "a. b .c.d";
    for k in 1..=4i64 {
        assert_eq!(mux_from_filename(name, ".", -k), mux_from_filename(name, ".", 4 - k));
    }
    assert_eq!(mux_from_filename(name, ".", 1).as_deref(), Some("b"));
    assert_eq!(mux_from_filename(name, "", 0), None);
}
