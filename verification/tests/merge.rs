use mie_decoder::error::{MieError, MieErrorKind};
use mie_decoder::merge::{
    check_mergeable, glob_match, merge_key_lt, parse_manifest, AdvanceNote, DedupWindow,
    MergePop, MergedRecordIter, DEFAULT_MAX_COLLAPSE_SURVIVORS, MAX_COLLAPSE_SURVIVORS_MIN,
};
use mie_decoder::models::{
    Bus, CommandWord, DataWords, DeltaScope, Direction, IrigTimestamp, MessageFormat, MieMessage,
    StandardTimestamp, Timestamp, TypeWord,
};

#[test]
fn glob_match_wildcards() {
    assert!(glob_match("*.mie", "rec1.mie"));
    assert!(glob_match("rec?.mie", "rec5.mie"));
    assert!(!glob_match("rec?.mie", "rec55.mie"));
    assert!(glob_match("*", "anything"));
    assert!(glob_match("a*b*c", "axxbyyc"));
    assert!(!glob_match("*.mie", "rec.csv"));
    assert!(glob_match("", ""));
    assert!(!glob_match("", "x"));
    assert!(glob_match("a.b", "a.b"));
    assert!(!glob_match("a.b", "axb"));
}

fn probe_message(seq: u64) -> MieMessage {
    MieMessage {
        timestamp: Timestamp::Irig(IrigTimestamp {
            day: 192,
            hour: 15,
            minute: 54,
            second: 50,
            microsecond: 0,
            freerun: false,
        }),
        type_word: TypeWord {
            message_type: 0x02,
            bus: Bus::A,
            word_count: 4,
            error: false,
            raw: 0x0224,
        },
        message_format: MessageFormat::RtToRt,
        command_word: None,
        command_word_2: None,
        status_word: None,
        status_word_2: None,
        data_words: DataWords::new(),
        error_word: Some((seq & 0xFFFF) as u16),
        delta_us: None,
        file_offset: 0,
        mux: None,
    }
}

#[test]
fn dedup_window_retention_is_independent_of_arrival_order() {
    let mut w = DedupWindow::new(0, DEFAULT_MAX_COLLAPSE_SURVIVORS);
    for i in 0..10_000u64 {
        let us = if i % 2 == 0 { 1000 } else { 0 };
        w.is_duplicate(us, (i % 2) as usize, &probe_message(i));
    }
    assert!(
        w.survivor_count() <= 2,
        "survivor set grew to {} on an alternating stream",
        w.survivor_count()
    );
}

#[test]
fn dedup_survivor_set_is_capped_when_the_window_cannot_bound_it() {
    const CAP: usize = 64;
    let mut w = DedupWindow::new(u64::MAX, CAP);
    for i in 0..10_000u64 {
        w.is_duplicate(0, (i % 2) as usize, &probe_message(i));
    }
    assert_eq!(w.survivor_count(), CAP);
}

#[test]
fn max_collapse_survivors_composes_with_collapse_in_either_order() {
    let empty = || MergedRecordIter::new(Vec::new(), Vec::new(), false, false).expect("empty merge builds");
    let a = empty().collapse(true, 0).max_collapse_survivors(77);
    assert_eq!(a.collapse_cap(), Some(77));
    let b = empty().max_collapse_survivors(77).collapse(true, 0);
    assert_eq!(b.collapse_cap(), Some(77));
    let c = empty().collapse(true, 0).max_collapse_survivors(0);
    assert_eq!(c.collapse_cap(), Some(MAX_COLLAPSE_SURVIVORS_MIN));
}

#[test]
fn heap_entry_orders_by_key_tuple() {
    let mk = |us, fi, seq| (us, fi, seq);
    assert!(merge_key_lt(mk(10, 0, 0), mk(20, 0, 0)));
    assert!(merge_key_lt(mk(10, 0, 5), mk(10, 1, 0)));
    assert!(merge_key_lt(mk(10, 1, 0), mk(10, 1, 1)));
}

// ── Checks of this library's own ──────────────────────────────────────

#[test]
fn duplicates_come_only_from_another_input() {
    let mut w = DedupWindow::new(10, 16);
    assert!(!w.is_duplicate(100, 0, &probe_message(1)));
    // Same content from the same input: not a duplicate.
    assert!(!w.is_duplicate(101, 0, &probe_message(1)));
    // Same content from another input within the window: a duplicate.
    assert!(w.is_duplicate(105, 1, &probe_message(1)));
    // Outside the window: not a duplicate.
    assert!(!w.is_duplicate(200, 1, &probe_message(1)));
}

#[test]
fn manifest_lines_are_trimmed_and_comments_skipped() {
    let text = "a.mie\r\n  # comment\n\n\t b.mie \t\r\nc d.mie\r";
    assert_eq!(parse_manifest(text), vec!["a.mie", "b.mie", "c d.mie"]);
    assert_eq!(parse_manifest("\r"), Vec::<String>::new());
    assert_eq!(parse_manifest("\u{a0}x"), vec!["\u{a0}x"]);
}

fn rec(us: u32, rt: u8) -> MieMessage {
    MieMessage {
        timestamp: Timestamp::Irig(IrigTimestamp {
            day: 1,
            hour: 0,
            minute: 0,
            second: 0,
            microsecond: us,
            freerun: false,
        }),
        command_word: Some(CommandWord {
            rt,
            direction: Direction::Receive,
            subaddress: 1,
            data_word_count: 1,
            raw: 0,
        }),
        ..probe_message(0)
    }
}

#[test]
fn standard_and_freerun_inputs_cannot_be_merged() {
    let mut std_msg = rec(0, 1);
    std_msg.timestamp = Timestamp::Standard(StandardTimestamp { raw_value: 0, upper_word: 0, lower_word: 0 });
    assert!(matches!(
        check_mergeable(&std_msg, 2, "x.mie"),
        Err(MieError::IncompatibleMergeInputs { file_index: 2, .. })
    ));
    let mut free = rec(0, 1);
    if let Timestamp::Irig(ref mut t) = free.timestamp {
        t.freerun = true;
    }
    assert!(check_mergeable(&free, 0, "x.mie").is_err());
    assert!(check_mergeable(&rec(0, 1), 0, "x.mie").is_ok());
}

#[test]
fn the_merge_releases_records_in_time_order() {
    let firsts = vec![Some(Ok(rec(30, 1))), Some(Ok(rec(10, 2))), None];
    let paths = vec!["a".to_string(), "b".to_string(), "c".to_string()];
    let mut m = MergedRecordIter::new(firsts, paths, false, false).unwrap();
    // Input 1 leads with the earliest record.
    match m.pop() {
        MergePop::Record { msg, file_index } => {
            assert_eq!(file_index, 1);
            assert_eq!(msg.rt(), Some(2));
        }
        _ => panic!("expected a record"),
    }
    assert_eq!(m.advance(1, Some(Ok(rec(20, 3)))), AdvanceNote::Nothing);
    match m.pop() {
        MergePop::Record { msg, file_index } => {
            assert_eq!(file_index, 1);
            assert_eq!(msg.rt(), Some(3));
        }
        _ => panic!("expected a record"),
    }
    assert_eq!(m.advance(1, None), AdvanceNote::Nothing);
    match m.pop() {
        MergePop::Record { file_index, .. } => assert_eq!(file_index, 0),
        _ => panic!("expected a record"),
    }
    assert_eq!(m.advance(0, None), AdvanceNote::Nothing);
    assert!(matches!(m.pop(), MergePop::Finished(None)));
}

#[test]
fn a_backward_step_fails_a_strict_merge_and_is_noted_once_otherwise() {
    let paths = || vec!["a".to_string()];
    let mut strict = MergedRecordIter::new(vec![Some(Ok(rec(50, 1)))], paths(), false, true).unwrap();
    assert!(matches!(strict.pop(), MergePop::Record { .. }));
    strict.advance(0, Some(Ok(rec(10, 1))));
    match strict.pop() {
        MergePop::Failed(e) => assert_eq!(e.kind(), MieErrorKind::NonMonotonicInput),
        _ => panic!("expected the non-monotonic failure"),
    }

    let mut lenient = MergedRecordIter::new(vec![Some(Ok(rec(50, 1)))], paths(), false, false).unwrap();
    assert!(matches!(lenient.pop(), MergePop::Record { .. }));
    assert!(matches!(lenient.advance(0, Some(Ok(rec(10, 1)))), AdvanceNote::BackwardStep { .. }));
    assert!(matches!(lenient.pop(), MergePop::Record { .. }));
    assert_eq!(lenient.advance(0, Some(Ok(rec(5, 1)))), AdvanceNote::Nothing);
}

#[test]
fn global_scope_measures_delta_across_inputs() {
    let firsts = vec![Some(Ok(rec(10, 1))), Some(Ok(rec(30, 1)))];
    let paths = vec!["a".to_string(), "b".to_string()];
    let mut m = MergedRecordIter::new(firsts, paths, false, false)
        .unwrap()
        .delta_scope(DeltaScope::Global);
    match m.pop() {
        MergePop::Record { msg, .. } => assert_eq!(msg.delta_us, Some(0)),
        _ => panic!("expected a record"),
    }
    m.advance(0, None);
    match m.pop() {
        MergePop::Record { msg, .. } => assert_eq!(msg.delta_us, Some(20)),
        _ => panic!("expected a record"),
    }
}

#[test]
fn a_failed_first_read_is_deferred_under_allow_partial() {
    let loss = MieError::UnrecoverableSyncLoss { offset: 0, sync_losses: 0 };
    let firsts = vec![Some(Err(loss)), Some(Ok(rec(10, 1)))];
    let paths = vec!["a".to_string(), "b".to_string()];
    let mut m = MergedRecordIter::new(firsts, paths, true, false).unwrap();
    assert!(matches!(m.pop(), MergePop::Record { .. }));
    m.advance(1, None);
    assert!(matches!(m.pop(), MergePop::Finished(Some(MieError::UnrecoverableSyncLoss { .. }))));

    let loss = MieError::UnrecoverableSyncLoss { offset: 0, sync_losses: 0 };
    let strict = MergedRecordIter::new(vec![Some(Err(loss))], vec!["a".to_string()], false, false);
    assert!(strict.is_err());
}

#[test]
fn collapsed_duplicates_are_counted() {
    let firsts = vec![Some(Ok(probe_message(7))), Some(Ok(probe_message(7)))];
    let paths = vec!["a".to_string(), "b".to_string()];
    let mut m = MergedRecordIter::new(firsts, paths, false, false).unwrap().collapse(true, 0);
    assert!(matches!(m.pop(), MergePop::Record { file_index: 0, .. }));
    m.advance(0, None);
    assert!(matches!(m.pop(), MergePop::Duplicate { file_index: 1 }));
    assert_eq!(m.collapsed(), 1);
}

#[test]
fn literal_patterns_match_only_themselves_and_star_matches_all() {
    assert!(glob_match("a.b", "a.b"));
    assert!(!glob_match("a.b", "axb"));
    assert!(!glob_match("a.b", "a.bc"));
    for name in ["", "x", "rec55.mie", "*"] {
        assert!(glob_match("*", name));
    }
}
