use std::path::Path;

use mie_decoder::error::{IoFailure, IoKind, MieError};
use mie_decoder::models::{
    Bus, CommandWord, DataWords, Direction, IrigTimestamp, MessageFormat, MieMessage, Timestamp,
    TypeWord,
};
use mie_decoder::models::ErrorMode;
use mie_decoder::writer::{
    commit_targets, csv_field_text, error_path_for, partial_path_for, preflight_output,
    render_row, routes_to_errors, run_outcome, run_step, split_commit_plan, stream_step,
    write_route, CommitFile, CommitStep, CsvWriter, RunAction, RunState, StreamStep,
    WriteOptions, CSV_HEADER, VENDOR_COLUMN_COUNT,
};

fn sample_msg() -> MieMessage {
    MieMessage {
        timestamp: Timestamp::Irig(IrigTimestamp {
            day: 10,
            hour: 15,
            minute: 54,
            second: 50,
            microsecond: 456_225,
            freerun: false,
        }),
        type_word: TypeWord {
            message_type: 0x02,
            bus: Bus::A,
            word_count: 36,
            error: false,
            raw: 0x2402,
        },
        message_format: MessageFormat::Receive,
        command_word: Some(CommandWord {
            rt: 15,
            direction: Direction::Receive,
            subaddress: 11,
            data_word_count: 30,
            raw: 0x797E,
        }),
        command_word_2: None,
        status_word: Some(0x7800),
        status_word_2: None,
        data_words: DataWords::from_slice(&[0x0400, 0x0000, 0x0000, 0x002F]),
        error_word: None,
        delta_us: Some(123_456),
        file_offset: 0,
        mux: None,
    }
}

/// A message that routes to the errors file.
fn error_msg() -> MieMessage {
    let mut m = sample_msg();
    m.type_word.error = true;
    m.type_word.raw |= 1 << 14;
    m.error_word = None;
    m
}

#[test]
fn mux_value_written_with_quoting() {
    let row = |mux: Option<String>| {
        let msg = MieMessage { mux, ..sample_msg() };
        render_row(&msg)
    };
    assert!(row(Some("aa".to_string())).contains(",797E,aa,,"));
    assert!(row(Some("a,b".to_string())).contains(",797E,\"a,b\",,"));
    assert!(row(None).contains(",797E,,,"));
}

#[test]
fn header_present() {
    let mut writer = CsvWriter::new("memory");
    let s = writer.take_output();
    writer.finish();
    assert!(s.starts_with("TIME_STAMP,RT,MSG,WD01"));
    assert!(s.trim_end().ends_with("XMT_GAP,ERROR,ERROR_CODE"));
}

#[test]
fn vendor_block_precedes_decoder_added_columns() {
    let cols: Vec<&str> = CSV_HEADER.trim_end().split(',').collect();
    assert_eq!(cols.len(), 46, "46 columns total");
    assert_eq!(cols.len() - VENDOR_COLUMN_COUNT, 2, "two decoder additions");
    assert_eq!(cols[VENDOR_COLUMN_COUNT - 1], "XMT_GAP");
    assert_eq!(cols[41], "IM_GAP");
    assert_eq!(cols[42], "RCV_GAP");
    assert_eq!(cols[43], "XMT_GAP");
    assert_eq!(&cols[VENDOR_COLUMN_COUNT..], &["ERROR", "ERROR_CODE"]);
    assert!(
        !cols[..VENDOR_COLUMN_COUNT].contains(&"ERROR"),
        "ERROR must not be inside the vendor block"
    );
    assert!(
        !cols[..VENDOR_COLUMN_COUNT].contains(&"ERROR_CODE"),
        "ERROR_CODE must not be inside the vendor block"
    );
}

#[test]
fn row_format_matches_python_layout() {
    let mut w = CsvWriter::new("memory");
    w.write_message(&sample_msg());
    let s = w.take_output();
    let n = w.finish();
    assert_eq!(n, 1);

    let mut lines = s.lines();
    let _header = lines.next().unwrap();
    let row = lines.next().unwrap();

    assert!(row.starts_with("10:15:54:50.456225,15,11R,"));
    assert!(row.contains("0400,0000,0000,002F,"));
    assert!(row.contains(",7800,797E,"));
    assert!(row.contains(",A,0.123456,"));
    assert!(
        row.ends_with(",0.123456,,,,,"),
        "expected DELTA followed by 5 empty cells, got: {row}"
    );
}

#[test]
fn data_words_padded_to_32() {
    let mut w = CsvWriter::new("memory");
    w.write_message(&sample_msg());
    let s = w.take_output();
    w.finish();
    let row = s.lines().nth(1).unwrap();
    let commas: usize = row.matches(',').count();
    assert_eq!(commas, 45);
}

#[test]
fn error_path_naming() {
    assert_eq!(
        Path::new(&error_path_for("out.csv")),
        Path::new("out_errors.csv")
    );
    assert_eq!(
        Path::new(&error_path_for("data/x/out.csv")),
        Path::new("data/x/out_errors.csv")
    );
    assert_eq!(Path::new(&error_path_for("out")), Path::new("out_errors"));
}

#[test]
fn commit_targets_enumerates_every_committable_path() {
    let out_buf = Path::new("dir").join("capture.csv");
    let out = out_buf.to_str().unwrap();
    let name = |p: &String| {
        Path::new(p)
            .file_name()
            .unwrap()
            .to_string_lossy()
            .into_owned()
    };

    assert_eq!(
        commit_targets(out, false, false)
            .iter()
            .map(|p| name(p))
            .collect::<Vec<_>>(),
        vec!["capture.csv"]
    );
    assert_eq!(
        commit_targets(out, true, false)
            .iter()
            .map(|p| name(p))
            .collect::<Vec<_>>(),
        vec!["capture.csv", "capture_errors.csv"]
    );
    assert_eq!(
        commit_targets(out, false, true)
            .iter()
            .map(|p| name(p))
            .collect::<Vec<_>>(),
        vec!["capture.csv", "capture.csv.partial"]
    );
    assert_eq!(
        commit_targets(out, true, true)
            .iter()
            .map(|p| name(p))
            .collect::<Vec<_>>(),
        vec![
            "capture.csv",
            "capture_errors.csv",
            "capture.csv.partial",
            "capture_errors.csv.partial",
        ]
    );
    for target in commit_targets(out, true, true) {
        assert_eq!(Path::new(&target).parent(), out_buf.parent());
    }
}

#[test]
fn is_broken_pipe_predicate() {
    let e = MieError::WriterError {
        destination: "stdout".to_string(),
        source: IoFailure { kind: IoKind::BrokenPipe, message: "pipe closed".to_string() },
    };
    assert!(e.is_broken_pipe());

    let other = MieError::WriterError {
        destination: "stdout".to_string(),
        source: IoFailure { kind: IoKind::Other, message: "nope".to_string() },
    };
    assert!(!other.is_broken_pipe());

    let non_writer = MieError::FileEmpty { path: "/x".to_string() };
    assert!(!non_writer.is_broken_pipe());
}

// ── Checks of this library's own ──────────────────────────────────────

#[test]
fn partial_path_sits_beside_the_destination() {
    assert_eq!(Path::new(&partial_path_for("dir/out.csv")), Path::new("dir/out.csv.partial"));
    assert_eq!(Path::new(&partial_path_for("out.csv")), Path::new("out.csv.partial"));
}

#[test]
fn csv_field_quotes_only_when_needed() {
    assert_eq!(csv_field_text("plain"), "plain");
    assert_eq!(csv_field_text("a\"b"), "\"a\"\"b\"");
    assert_eq!(csv_field_text("line\nbreak"), "\"line\nbreak\"");
    assert_eq!(csv_field_text(""), "");
}

#[test]
fn a_row_has_forty_six_fields() {
    let row = render_row(&error_msg());
    assert!(row.ends_with(",ERROR,\n"));
    assert_eq!(row.trim_end().split(',').count(), 46);
}

#[test]
fn the_writer_accumulates_header_then_rows() {
    let mut w = CsvWriter::new("memory");
    w.write_message(&sample_msg());
    let first = w.take_output();
    w.write_message(&error_msg());
    let second = w.take_output();
    assert!(first.starts_with(CSV_HEADER));
    assert_eq!(second, render_row(&error_msg()));
    assert_eq!(w.rows_written(), 2);
    assert_eq!(w.destination(), "memory");
}

#[test]
fn errored_and_spurious_rows_route_to_the_errors_file() {
    assert!(!routes_to_errors(&sample_msg()));
    assert!(routes_to_errors(&error_msg()));
    let mut spurious = sample_msg();
    spurious.message_format = MessageFormat::SpuriousData;
    assert!(routes_to_errors(&spurious));
}

#[test]
fn the_main_file_commits_first() {
    assert_eq!(
        split_commit_plan(true, false),
        vec![
            CommitStep { file: CommitFile::Main, partial: false },
            CommitStep { file: CommitFile::Errors, partial: false },
        ]
    );
    assert_eq!(
        split_commit_plan(false, true),
        vec![CommitStep { file: CommitFile::Main, partial: true }]
    );
}

#[test]
fn a_sync_loss_stops_for_a_partial_commit_only_when_allowed() {
    let loss = || MieError::UnrecoverableSyncLoss { offset: 0x40, sync_losses: 2 };
    assert!(matches!(
        stream_step(Err(loss()), true),
        StreamStep::StopPartial { offset: 0x40, sync_losses: 2 }
    ));
    assert!(matches!(stream_step(Err(loss()), false), StreamStep::Fail(_)));
    assert!(matches!(stream_step(Ok(sample_msg()), false), StreamStep::Write(_)));
}

#[test]
fn preflight_refuses_the_first_colliding_target_then_clobbers() {
    let opts = WriteOptions {
        input_path: Some("in.mie".to_string()),
        no_clobber: true,
        allow_partial: true,
    };
    // Targets: out.csv, out_errors.csv, out.csv.partial, out_errors.csv.partial.
    let r = preflight_output("out.csv", true, &opts, &[false, true, true, false], false, false);
    match r {
        Err(MieError::InputOutputCollision { path }) => {
            assert_eq!(Path::new(&path), Path::new("out_errors.csv"))
        }
        other => panic!("expected a collision, got {other:?}"),
    }
    let r = preflight_output("out.csv", true, &opts, &[false; 4], false, true);
    match r {
        Err(MieError::ClobberRefused { path }) => {
            assert_eq!(Path::new(&path), Path::new("out_errors.csv"))
        }
        other => panic!("expected a clobber refusal, got {other:?}"),
    }
    assert!(preflight_output("out.csv", true, &opts, &[false; 4], false, false).is_ok());
    let plain = WriteOptions::default();
    assert!(preflight_output("out.csv", false, &plain, &[false], true, true).is_ok());
}

#[test]
fn a_split_run_opens_the_errors_file_on_the_first_error_row_only() {
    let mut st = RunState::new();
    assert!(matches!(run_step(&mut st, Ok(sample_msg()), true, false), RunAction::WriteMain(_)));
    assert!(!st.errors_opened);
    assert!(matches!(
        run_step(&mut st, Ok(error_msg()), true, false),
        RunAction::OpenErrorsThenWrite(_)
    ));
    assert!(matches!(run_step(&mut st, Ok(error_msg()), true, false), RunAction::WriteErrors(_)));
    assert_eq!((st.normal, st.errors, st.errors_opened), (1, 2, true));
}

#[test]
fn an_unsplit_run_writes_error_rows_inline() {
    let mut st = RunState::new();
    assert!(matches!(run_step(&mut st, Ok(error_msg()), false, false), RunAction::WriteMain(_)));
    assert_eq!((st.normal, st.errors, st.errors_opened), (1, 0, false));
}

#[test]
fn a_run_without_error_rows_creates_no_errors_file() {
    let mut st = RunState::new();
    for _ in 0..3 {
        run_step(&mut st, Ok(sample_msg()), true, false);
    }
    let o = run_outcome(&st, None, "out/cap.csv", "out/cap_errors.csv");
    assert_eq!((o.normal_count, o.error_count), (3, 0));
    assert!(o.partial.is_none());
    assert!(!st.errors_opened);
}

#[test]
fn allow_partial_stops_on_unrecoverable_sync_loss_and_reports_it() {
    let mut st = RunState::new();
    run_step(&mut st, Ok(sample_msg()), true, true);
    run_step(&mut st, Ok(error_msg()), true, true);
    let before = st;
    let a = run_step(
        &mut st,
        Err(MieError::UnrecoverableSyncLoss { offset: 0x40, sync_losses: 3 }),
        true,
        true,
    );
    assert!(matches!(a, RunAction::StopPartial { offset: 0x40, sync_losses: 3 }));
    assert_eq!(st, before);
    let o = run_outcome(&st, Some((0x40, 3)), "out/cap.csv", "out/cap_errors.csv");
    let p = o.partial.expect("partial");
    assert_eq!(p.main_path, partial_path_for("out/cap.csv"));
    assert_eq!(p.errors_path, Some(partial_path_for("out/cap_errors.csv")));
    assert_eq!((p.offset, p.sync_losses), (0x40, 3));
    assert_eq!((o.normal_count, o.error_count), (1, 1));
}

#[test]
fn a_partial_run_without_error_rows_names_no_errors_file() {
    let st = RunState::new();
    let o = run_outcome(&st, Some((8, 1)), "cap.csv", "cap_errors.csv");
    assert_eq!(o.partial.expect("partial").errors_path, None);
}

#[test]
fn without_allow_partial_a_sync_loss_fails_the_run() {
    let mut st = RunState::new();
    let a = run_step(
        &mut st,
        Err(MieError::UnrecoverableSyncLoss { offset: 7, sync_losses: 1 }),
        false,
        false,
    );
    assert!(matches!(a, RunAction::Fail(MieError::UnrecoverableSyncLoss { offset: 7, sync_losses: 1 })));
}

#[test]
fn stdout_forces_inline_mode_with_default_options() {
    let opts = WriteOptions { input_path: Some("in.mie".to_string()), no_clobber: true, allow_partial: true };
    let r = write_route(ErrorMode::Separate, true, opts.clone());
    assert!(!r.split && r.forced_inline);
    assert!(r.opts.input_path.is_none() && !r.opts.no_clobber && !r.opts.allow_partial);
    let r = write_route(ErrorMode::Separate, false, opts.clone());
    assert!(r.split && !r.forced_inline && r.opts.allow_partial);
    let r = write_route(ErrorMode::Inline, false, opts);
    assert!(!r.split && !r.forced_inline && r.opts.no_clobber);
}
