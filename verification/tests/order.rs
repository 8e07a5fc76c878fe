use mie_decoder::error::{MieError, MieErrorKind};
use mie_decoder::models::{
    Bus, CommandWord, DataWords, Direction, IrigTimestamp, MessageFormat, MieMessage,
    StandardTimestamp, Timestamp, TypeWord, ERROR_MANCHESTER_PARITY,
};
use mie_decoder::order::{
    same_group, sort_key, OrderIterExt, DEFAULT_MAX_SORT_GROUP, MAX_SORT_GROUP_MAX,
    MAX_SORT_GROUP_MIN,
};

/// The tie-break key: `(RT, subaddress, direction)`.
type SortKey = (u8, u8, u8);

fn unrecoverable() -> MieError {
    MieError::UnrecoverableSyncLoss { offset: 0x40, sync_losses: 1 }
}


/// IRIG record at `us` microseconds past day 0 with the given RT / SA /
/// direction. `us` is placed in the microsecond field for values under a
/// second, which is all these tests need.
fn rec(us: u32, rt: u8, sa: u8, dir: Direction) -> MieMessage {
    MieMessage {
        timestamp: Timestamp::Irig(IrigTimestamp {
            day: 1,
            hour: 0,
            minute: 0,
            second: 0,
            microsecond: us,
            freerun: false,
        }),
        type_word: TypeWord {
            message_type: 0x02,
            bus: Bus::A,
            word_count: 1,
            error: false,
            raw: 0,
        },
        message_format: MessageFormat::Receive,
        command_word: Some(CommandWord {
            rt,
            direction: dir,
            subaddress: sa,
            data_word_count: 1,
            raw: 0,
        }),
        command_word_2: None,
        status_word: None,
        status_word_2: None,
        data_words: DataWords::new(),
        error_word: None,
        delta_us: Some(0),
        file_offset: 0,
        mux: None,
    }
}

/// A `SPURIOUS_DATA` record (no Command Word) at `us`.
fn spurious(us: u32) -> MieMessage {
    let mut m = rec(us, 0, 0, Direction::Receive);
    m.command_word = None;
    m.message_format = MessageFormat::SpuriousData;
    m.type_word.message_type = 0x20;
    m
}

/// An errored record at `us` (Type Word bit 14), used to test that its
/// spurious continuation stays adjacent.
fn errored(us: u32, rt: u8, sa: u8) -> MieMessage {
    let mut m = rec(us, rt, sa, Direction::Receive);
    m.type_word.error = true;
    m.error_word = Some(ERROR_MANCHESTER_PARITY);
    m
}

/// Run the adapter over `msgs` and return `(rt, sa, dir)` triples, with
/// `None` for a pinned spurious record.
fn ordered(msgs: Vec<MieMessage>, cap: usize) -> Vec<Option<SortKey>> {
    let items: Vec<Result<MieMessage, MieError>> = msgs.into_iter().map(Ok).collect();
    items
        .order_rows(cap)
        .into_iter()
        .map(|r| sort_key(&r.unwrap()))
        .collect()
}

/// Requirements: L1-OUT-003, L2-WRT-021
#[test]
fn sorts_tied_rows_by_rt() {
    let got = ordered(
        vec![
            rec(10, 21, 3, Direction::Receive),
            rec(10, 3, 3, Direction::Receive),
            rec(10, 15, 3, Direction::Receive),
        ],
        DEFAULT_MAX_SORT_GROUP,
    );
    assert_eq!(
        got,
        vec![Some((3, 3, 0)), Some((15, 3, 0)), Some((21, 3, 0))]
    );
}

/// Requirements: L1-OUT-003, L2-WRT-021
#[test]
fn sorts_tied_rows_by_subaddress_within_rt() {
    let got = ordered(
        vec![
            rec(10, 5, 11, Direction::Receive),
            rec(10, 5, 2, Direction::Receive),
            rec(10, 5, 31, Direction::Receive),
        ],
        DEFAULT_MAX_SORT_GROUP,
    );
    // Numeric, not lexicographic: 2 < 11 < 31 (as strings, "11" < "2").
    assert_eq!(
        got,
        vec![Some((5, 2, 0)), Some((5, 11, 0)), Some((5, 31, 0))]
    );
}

/// Requirements: L1-OUT-003, L2-WRT-021
#[test]
fn receive_orders_before_transmit_at_equal_subaddress() {
    let got = ordered(
        vec![
            rec(10, 5, 7, Direction::Transmit),
            rec(10, 5, 7, Direction::Receive),
        ],
        DEFAULT_MAX_SORT_GROUP,
    );
    assert_eq!(got, vec![Some((5, 7, 0)), Some((5, 7, 1))]);
}

/// All three key levels at once, plus R-before-T, from a deliberately
/// wrong input order.
///
/// Requirements: L1-OUT-003, L2-WRT-021
#[test]
fn full_key_ordering() {
    let got = ordered(
        vec![
            rec(10, 21, 3, Direction::Receive),
            rec(10, 3, 11, Direction::Transmit),
            rec(10, 3, 11, Direction::Receive),
            rec(10, 3, 2, Direction::Transmit),
        ],
        DEFAULT_MAX_SORT_GROUP,
    );
    assert_eq!(
        got,
        vec![
            Some((3, 2, 1)),
            Some((3, 11, 0)),
            Some((3, 11, 1)),
            Some((21, 3, 0)),
        ]
    );
}

/// Requirements: L1-OUT-003, L3-RS-016
#[test]
fn equal_keys_keep_arrival_order() {
    // Distinguish otherwise-identical records by file_offset.
    let mut a = rec(10, 5, 7, Direction::Receive);
    a.file_offset = 0x100;
    let mut b = rec(10, 5, 7, Direction::Receive);
    b.file_offset = 0x200;
    let items: Vec<Result<MieMessage, MieError>> = vec![Ok(a), Ok(b)];
    let got: Vec<u64> = items
        .order_rows(DEFAULT_MAX_SORT_GROUP)
        .into_iter()
        .map(|r| r.unwrap().file_offset)
        .collect();
    assert_eq!(got, vec![0x100, 0x200], "stable sort must preserve order");
}

/// Requirements: L1-OUT-003, L2-WRT-021
#[test]
fn never_reorders_across_differing_timestamps() {
    // Descending RT across ascending timestamps must stay as-is.
    let got = ordered(
        vec![
            rec(10, 21, 1, Direction::Receive),
            rec(20, 15, 1, Direction::Receive),
            rec(30, 3, 1, Direction::Receive),
        ],
        DEFAULT_MAX_SORT_GROUP,
    );
    assert_eq!(
        got,
        vec![Some((21, 1, 0)), Some((15, 1, 0)), Some((3, 1, 0))]
    );
}

/// A non-monotonic stream (L2-MRG-006 lenient mode) must not be re-sorted:
/// only the leading consecutive run is permuted.
///
/// Requirements: L1-OUT-003, L2-MRG-006
#[test]
fn non_monotonic_run_is_left_in_place() {
    // T(RT 9), T(RT 4), U, T(RT 1) — the trailing T is its own run.
    let got = ordered(
        vec![
            rec(10, 9, 1, Direction::Receive),
            rec(10, 4, 1, Direction::Receive),
            rec(20, 7, 1, Direction::Receive),
            rec(10, 1, 1, Direction::Receive),
        ],
        DEFAULT_MAX_SORT_GROUP,
    );
    assert_eq!(
        got,
        vec![
            Some((4, 1, 0)), // leading run sorted
            Some((9, 1, 0)),
            Some((7, 1, 0)), // U untouched
            Some((1, 1, 0)), // trailing T stays where it arrived
        ]
    );
}

/// Requirements: L1-OUT-003, L2-WRT-021, L2-ERR-005
#[test]
fn spurious_record_stays_pinned_to_its_predecessor() {
    // errored RT 20, its spurious continuation, then a lower-RT clean row.
    // The clean row sorts ahead of RT 20, but the spurious must still
    // follow the errored record it continues.
    let got = ordered(
        vec![
            errored(10, 20, 5),
            spurious(10),
            rec(10, 4, 5, Direction::Receive),
        ],
        DEFAULT_MAX_SORT_GROUP,
    );
    assert_eq!(
        got,
        vec![
            Some((4, 5, 0)),  // sorted ahead
            Some((20, 5, 0)), // errored record
            None,             // continuation still adjacent
        ]
    );
}

/// A pin at the head of a run has no predecessor and simply keeps index 0.
///
/// Requirements: L2-WRT-021
#[test]
fn leading_spurious_keeps_its_slot() {
    let got = ordered(
        vec![
            spurious(10),
            rec(10, 9, 1, Direction::Receive),
            rec(10, 2, 1, Direction::Receive),
        ],
        DEFAULT_MAX_SORT_GROUP,
    );
    assert_eq!(got, vec![None, Some((2, 1, 0)), Some((9, 1, 0))]);
}

/// Two pins in one run each keep their own slot.
///
/// Requirements: L2-WRT-021
#[test]
fn multiple_pins_keep_their_slots() {
    let got = ordered(
        vec![
            rec(10, 9, 1, Direction::Receive),
            spurious(10),
            rec(10, 2, 1, Direction::Receive),
            spurious(10),
        ],
        DEFAULT_MAX_SORT_GROUP,
    );
    assert_eq!(got, vec![Some((2, 1, 0)), None, Some((9, 1, 0)), None]);
}

/// Requirements: L2-WRT-022
#[test]
fn cap_emits_run_in_arrival_order() {
    // Cap of 2 flushes as soon as the run reaches 2, so the third record
    // starts a fresh run — descending RTs survive unsorted across the flush.
    let got = ordered(
        vec![
            rec(10, 9, 1, Direction::Receive),
            rec(10, 8, 1, Direction::Receive),
            rec(10, 7, 1, Direction::Receive),
            rec(10, 6, 1, Direction::Receive),
        ],
        2,
    );
    assert_eq!(
        got,
        vec![
            Some((9, 1, 0)),
            Some((8, 1, 0)),
            Some((7, 1, 0)),
            Some((6, 1, 0)),
        ],
        "a capped run keeps arrival order"
    );
}

/// `max_sort_group = 1` is the documented "off" switch: every record is its
/// own run, so output is raw capture order.
///
/// Requirements: L2-WRT-022
#[test]
fn cap_of_one_disables_reordering() {
    let got = ordered(
        vec![
            rec(10, 21, 3, Direction::Receive),
            rec(10, 3, 3, Direction::Receive),
        ],
        MAX_SORT_GROUP_MIN,
    );
    assert_eq!(got, vec![Some((21, 3, 0)), Some((3, 3, 0))]);
}

/// A zero cap is rejected by config validation; the adapter clamps it rather
/// than stalling.
///
/// Requirements: L2-WRT-022
#[test]
fn zero_cap_is_clamped_not_stalled() {
    let got = ordered(vec![rec(10, 5, 1, Direction::Receive)], 0);
    assert_eq!(got, vec![Some((5, 1, 0))]);
}

/// Requirements: L2-WRT-021, L3-RS-016
#[test]
fn buffered_run_is_flushed_before_a_mid_stream_error() {
    let msgs: Vec<Result<MieMessage, MieError>> = vec![
        Ok(rec(10, 9, 1, Direction::Receive)),
        Ok(rec(10, 2, 1, Direction::Receive)),
        Err(unrecoverable()),
    ];
    let got: Vec<Result<Option<SortKey>, MieErrorKind>> = msgs
        .order_rows(DEFAULT_MAX_SORT_GROUP)
        .into_iter()
        .map(|r| r.map(|m| sort_key(&m)).map_err(|e| e.kind()))
        .collect();
    assert_eq!(
        got,
        vec![
            Ok(Some((2, 1, 0))), // sorted run reaches the writer first...
            Ok(Some((9, 1, 0))),
            Err(MieErrorKind::UnrecoverableSyncLoss), // ...then the failure surfaces
        ]
    );
}

/// An error arriving with no run buffered passes straight through.
///
/// Requirements: L2-WRT-021, L3-RS-016
#[test]
fn error_with_empty_buffer_passes_through() {
    let msgs: Vec<Result<MieMessage, MieError>> = vec![Err(unrecoverable())];
    let got: Vec<_> = msgs
        .order_rows(DEFAULT_MAX_SORT_GROUP)
        .into_iter()
        .map(|r| r.map(|_| ()).map_err(|e| e.kind()))
        .collect();
    assert_eq!(got, vec![Err(MieErrorKind::UnrecoverableSyncLoss)]);
}

/// Requirements: L2-WRT-021
#[test]
fn empty_stream_yields_nothing() {
    assert!(ordered(vec![], DEFAULT_MAX_SORT_GROUP).is_empty());
}

/// A single record needs no permutation and is emitted unchanged.
///
/// Requirements: L2-WRT-021
#[test]
fn single_record_passes_through() {
    let got = ordered(
        vec![rec(10, 5, 1, Direction::Receive)],
        DEFAULT_MAX_SORT_GROUP,
    );
    assert_eq!(got, vec![Some((5, 1, 0))]);
}

/// Standard-format timestamps group on the raw counter value, so ties in a
/// Standard recording order canonically too.
///
/// Requirements: L1-OUT-003, L2-WRT-021
#[test]
fn standard_timestamps_group_on_raw_counter() {
    let mk = |ticks: u32, rt: u8| {
        let mut m = rec(0, rt, 1, Direction::Receive);
        m.timestamp = Timestamp::Standard(StandardTimestamp {
            raw_value: ticks,
            upper_word: 0,
            lower_word: 0,
        });
        m
    };
    let got = ordered(
        vec![mk(500, 9), mk(500, 2), mk(600, 7)],
        DEFAULT_MAX_SORT_GROUP,
    );
    assert_eq!(got, vec![Some((2, 1, 0)), Some((9, 1, 0)), Some((7, 1, 0))]);
}

/// Differing timestamp variants never compare equal, so they never share a
/// run (defensive — a mixed stream cannot occur today).
///
/// Requirements: L2-WRT-021
#[test]
fn differing_timestamp_variants_are_separate_groups() {
    let irig = rec(0, 9, 1, Direction::Receive);
    let mut std_ts = rec(0, 2, 1, Direction::Receive);
    std_ts.timestamp = Timestamp::Standard(StandardTimestamp {
        raw_value: 0,
        upper_word: 0,
        lower_word: 0,
    });
    assert!(!same_group(&irig.timestamp, &std_ts.timestamp));
    let got = ordered(vec![irig, std_ts], DEFAULT_MAX_SORT_GROUP);
    // Not merged into one run, so RT 9 stays ahead of RT 2.
    assert_eq!(got, vec![Some((9, 1, 0)), Some((2, 1, 0))]);
}

/// IRIG grouping uses absolute microseconds, so the same instant expressed
/// through different fields is one group.
///
/// Requirements: L2-WRT-021
#[test]
fn irig_grouping_uses_absolute_microseconds() {
    let a = Timestamp::Irig(IrigTimestamp {
        day: 1,
        hour: 0,
        minute: 1,
        second: 0,
        microsecond: 0,
        freerun: false,
    });
    let b = Timestamp::Irig(IrigTimestamp {
        day: 1,
        hour: 0,
        minute: 0,
        second: 60,
        microsecond: 0,
        freerun: false,
    });
    assert!(same_group(&a, &b));
}

/// The `freerun` flag is not part of the rendered `TIME_STAMP` and so is not
/// part of grouping.
///
/// Requirements: L2-WRT-021
#[test]
fn freerun_flag_does_not_split_a_group() {
    let mut a = rec(10, 9, 1, Direction::Receive);
    let mut b = rec(10, 2, 1, Direction::Receive);
    if let Timestamp::Irig(ref mut t) = a.timestamp {
        t.freerun = true;
    }
    if let Timestamp::Irig(ref mut t) = b.timestamp {
        t.freerun = false;
    }
    assert!(same_group(&a.timestamp, &b.timestamp));
    let got = ordered(vec![a, b], DEFAULT_MAX_SORT_GROUP);
    assert_eq!(got, vec![Some((2, 1, 0)), Some((9, 1, 0))]);
}

/// A run consisting only of pinned records is emitted untouched.
///
/// Requirements: L2-WRT-021
#[test]
fn all_pinned_run_is_untouched() {
    let got = ordered(vec![spurious(10), spurious(10)], DEFAULT_MAX_SORT_GROUP);
    assert_eq!(got, vec![None, None]);
}

/// Requirements: L2-WRT-022
#[test]
fn constants_are_in_range() {
    assert!(DEFAULT_MAX_SORT_GROUP >= MAX_SORT_GROUP_MIN);
    assert!(DEFAULT_MAX_SORT_GROUP <= MAX_SORT_GROUP_MAX);
}

