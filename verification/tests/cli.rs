use mie_decoder::cli::{
    apply_log_level, build_config_overrides, check_output_collision, classify_decode_exit,
    finish_dump, is_negative_number, is_version_flag, looks_like_option, parse_count,
    parse_decode, parse_dump, parse_global_flags, parse_int_value, parse_level,
    parse_subcommand, parse_time_format_arg, parse_u8_value, resolve_config, resolve_inputs,
    split_csv, Arg, CliError, Command, CommandExit, DecodeArgs, GlobalArgs, GlobalExit, Level,
    ParseError, EXIT_CONFIG, EXIT_MERGE_INCOMPATIBLE, EXIT_NO_RECORDS, EXIT_RUNTIME,
    EXIT_SYNC_LOSS, EXIT_USAGE,
};
use mie_decoder::config::ConfigSource;
use mie_decoder::error::{IoFailure, IoKind, MieError};
use mie_decoder::merge::MAX_MERGE_FILES;
use mie_decoder::models::{Bus, DeltaScope, ErrorMode, TimestampFormat};
use mie_decoder::writer::{PartialCommit, WriteOutcome};

fn args(values: &[&str]) -> Vec<String> {
    values.iter().map(|s| (*s).to_string()).collect()
}

#[test]
fn parse_decode_help_returns_help_requested() {
    match parse_decode(&args(&["--help"])) {
        Err(ParseError::HelpRequested) => {}
        other => panic!("expected HelpRequested, got {other:?}"),
    }
}

#[test]
fn time_format_arg_is_case_insensitive() {
    assert_eq!(
        parse_time_format_arg("IRIG").unwrap(),
        TimestampFormat::Irig
    );
    assert_eq!(
        parse_time_format_arg("Irig").unwrap(),
        TimestampFormat::Irig
    );
    assert_eq!(
        parse_time_format_arg("AUTO").unwrap(),
        TimestampFormat::Auto
    );
    assert_eq!(
        parse_time_format_arg("Standard").unwrap(),
        TimestampFormat::Standard
    );
    assert!(parse_time_format_arg("bogus").is_err());
}

#[test]
fn parse_count_help_returns_help_requested() {
    match parse_count(&args(&["-h"])) {
        Err(ParseError::HelpRequested) => {}
        other => panic!("expected HelpRequested, got {other:?}"),
    }
}

#[test]
fn parse_dump_help_returns_help_requested() {
    match parse_dump(&args(&["--help"])) {
        Err(ParseError::HelpRequested) => {}
        other => panic!("expected HelpRequested, got {other:?}"),
    }
}

#[test]
fn parse_dump_numeric_args_accept_hex_and_reject_negative() {
    let d = parse_dump(&args(&[
        "f.mie",
        "--offset",
        "0x20",
        "--length",
        "16",
        "--records",
        "0x10",
    ]))
    .unwrap();
    assert_eq!(d.offset, 0x20);
    assert_eq!(d.length, Some(16));
    assert_eq!(d.records, Some(0x10));

    for flag in ["--offset", "--length", "--records"] {
        assert!(
            parse_dump(&args(&["f.mie", flag, "-1"])).is_err(),
            "{flag} should reject a negative value"
        );
    }
}

#[test]
fn parse_decode_unknown_flag_returns_other() {
    match parse_decode(&args(&["--nope"])) {
        Err(ParseError::Other(msg)) => assert!(msg.contains("--nope")),
        other => panic!("expected Other, got {other:?}"),
    }
}

#[test]
fn parse_decode_missing_input_returns_other() {
    match parse_decode(&args(&[])) {
        Err(ParseError::Other(msg)) => assert!(msg.contains("input file")),
        other => panic!("expected Other, got {other:?}"),
    }
}

#[test]
fn parse_decode_minimal_ok() {
    let parsed = parse_decode(&args(&["recording.mie"])).unwrap();
    assert_eq!(parsed.inputs, vec!["recording.mie".to_string()]);
}

#[test]
fn filter_flag_does_not_eat_positional_input() {
    let parsed = parse_decode(&args(&["--include-rts", "15", "file.mie"])).unwrap();
    assert_eq!(parsed.inputs, vec!["file.mie".to_string()]);
    assert_eq!(parsed.include_rts, vec![15]);
}

#[test]
fn filter_flag_accepts_comma_separated_values() {
    let parsed = parse_decode(&args(&["--include-rts", "15,20,31", "file.mie"])).unwrap();
    assert_eq!(parsed.inputs, vec!["file.mie".to_string()]);
    assert_eq!(parsed.include_rts, vec![15, 20, 31]);
}

#[test]
fn filter_flag_repeats_accumulate() {
    let parsed = parse_decode(&args(&[
        "--include-rts",
        "15",
        "--include-rts",
        "31",
        "file.mie",
    ]))
    .unwrap();
    assert_eq!(parsed.inputs, vec!["file.mie".to_string()]);
    assert_eq!(parsed.include_rts, vec![15, 31]);
}

#[test]
fn looks_like_option_matches_argparse() {
    for token in [
        "", "-", "-5", "-5.5", "-.5", "-0", "-00.5", "- x", "-1 2", "x", "a=b",
    ] {
        assert!(
            !looks_like_option(token),
            "{token:?} should be treated as a value"
        );
    }
    for token in [
        "-x",
        "-o",
        "-5e3",
        "-0x5",
        "-1a",
        "-.",
        "-..5",
        "-5.5.5",
        "--",
        "--foo",
        "--no-mux",
        "--flag=value",
    ] {
        assert!(
            looks_like_option(token),
            "{token:?} should be treated as an option"
        );
    }
}

#[test]
fn a_flag_like_value_is_refused_in_the_separated_form() {
    for token in ["--no-mux", "--foo", "-o", "-x"] {
        let err = parse_decode(&args(&["--mux-delimiter", token, "rec.mie"])).unwrap_err();
        let ParseError::Other(msg) = err else {
            panic!("{token}: expected a usage error");
        };
        assert!(msg.contains("--mux-delimiter"), "{token}: got {msg:?}");
        assert!(
            msg.contains(&format!("--mux-delimiter={token}")),
            "{token}: message should suggest the joined form, got {msg:?}"
        );
    }
}

#[test]
fn the_joined_form_still_takes_a_flag_like_value() {
    let parsed = parse_decode(&args(&["--mux-delimiter=--no-mux", "rec.mie"])).unwrap();
    assert_eq!(parsed.mux_delimiter.as_deref(), Some("--no-mux"));
    assert!(!parsed.no_mux);
}

#[test]
fn the_exemptions_are_still_values() {
    let parsed = parse_decode(&args(&["-o", "-", "rec.mie"])).unwrap();
    assert_eq!(parsed.output, Some("-".to_string()));

    let parsed = parse_decode(&args(&["--mux-field", "-1", "rec.mie"])).unwrap();
    assert_eq!(parsed.mux_field, Some(-1));

    let err = parse_decode(&args(&["--collapse-window-us", "-5", "rec.mie"])).unwrap_err();
    let ParseError::Other(msg) = err else {
        panic!("expected a usage error");
    };
    assert!(
        !msg.contains("is an option"),
        "should be refused by the validator, not the option guard: {msg:?}"
    );

    let parsed = parse_decode(&args(&["--mux-delimiter", "- x", "rec.mie"])).unwrap();
    assert_eq!(parsed.mux_delimiter.as_deref(), Some("- x"));
}

#[test]
fn global_flags_refuse_a_flag_like_value() {
    let mut globals = GlobalArgs {
        log_level: None,
        config: None,
    };
    let err = parse_global_flags(&args(&["--log-level", "--config", "x", "decode"]), &mut globals)
        .unwrap_err();
    assert!(matches!(err, GlobalExit::Usage(_)));
    assert!(
        globals.log_level.is_none(),
        "must not have consumed a value"
    );
}

#[test]
fn every_valued_flag_accepts_both_spellings() {
    let cases: &[(&str, &str)] = &[
        ("--output", "out.csv"),
        ("--time-format", "irig"),
        ("--format", "csv"),
        ("--detect-records", "4"),
        ("--lookahead-records", "2"),
        ("--standard-tick-rate-hz", "1000000"),
        ("--max-sort-group", "64"),
        ("--mux-delimiter", "_"),
        ("--mux-field", "0"),
        ("--delta-scope", "global"),
        ("--collapse-window-us", "10"),
        ("--manifest", "list.txt"),
        ("--glob", "*.mie"),
        ("--exclude-rts", "31"),
        ("--include-rts", "15"),
        ("--exclude-buses", "B"),
        ("--include-buses", "A"),
        ("--exclude-subaddresses", "30"),
        ("--include-subaddresses", "11"),
        ("--exclude-types", "RT_TO_RT"),
        ("--include-types", "BC_TO_RT"),
    ];

    for (flag, value) in cases {
        let positional: &[&str] = if matches!(*flag, "--manifest" | "--glob") {
            &[]
        } else {
            &["rec.mie"]
        };

        let mut separated = vec![*flag, *value];
        separated.extend_from_slice(positional);
        let joined_flag = format!("{flag}={value}");
        let mut joined = vec![joined_flag.as_str()];
        joined.extend_from_slice(positional);

        let a = parse_decode(&args(&separated))
            .unwrap_or_else(|e| panic!("{flag} separated form failed: {e:?}"));
        let b = parse_decode(&args(&joined))
            .unwrap_or_else(|e| panic!("{flag} joined form failed: {e:?}"));
        assert_eq!(
            format!("{a:?}"),
            format!("{b:?}"),
            "{flag} spellings differ"
        );
    }
}

#[test]
fn eq_form_with_empty_value_is_an_empty_value() {
    let with = parse_decode(&args(&["--exclude-rts=", "rec.mie"])).unwrap();
    let without = parse_decode(&args(&["rec.mie"])).unwrap();
    assert!(with.exclude_rts.is_empty());
    assert_eq!(format!("{with:?}"), format!("{without:?}"));

    let err = parse_decode(&args(&["--mux-delimiter=", "rec.mie"])).unwrap_err();
    let ParseError::Other(msg) = err else {
        panic!("expected a usage error");
    };
    assert!(
        msg.contains("--mux-delimiter"),
        "message should name the flag, got {msg:?}"
    );
    assert!(
        !msg.contains("unknown"),
        "must reach the validator, not the unknown-option arm: {msg:?}"
    );
}

#[test]
fn only_the_first_equals_separates() {
    let parsed = parse_decode(&args(&["--mux-delimiter==", "rec.mie"])).unwrap();
    assert_eq!(parsed.mux_delimiter.as_deref(), Some("="));

    let parsed = parse_decode(&args(&["--glob=a=b*.mie"])).unwrap();
    assert_eq!(parsed.glob.as_deref(), Some("a=b*.mie"));
}

#[test]
fn a_valueless_flag_rejects_a_joined_value() {
    for token in [
        "--no-mux=true",
        "--no-mux=",
        "--separate-errors=1",
        "--strict=false",
    ] {
        let err = parse_decode(&args(&[token, "rec.mie"])).unwrap_err();
        let ParseError::Other(msg) = err else {
            panic!("{token}: expected a usage error");
        };
        assert!(
            msg.contains(token),
            "{token}: message should quote the whole token, got {msg:?}"
        );
    }
}

#[test]
fn only_double_dash_tokens_are_split() {
    let parsed = parse_decode(&args(&["a=b.mie"])).unwrap();
    assert_eq!(parsed.inputs, vec!["a=b.mie".to_string()]);

    let err = parse_decode(&args(&["-o=out.csv", "rec.mie"])).unwrap_err();
    let ParseError::Other(msg) = err else {
        panic!("expected a usage error");
    };
    assert!(msg.contains("-o=out.csv"), "got {msg:?}");
}

#[test]
fn global_flags_accept_both_spellings() {
    for (argv, expected) in [
        (vec!["--log-level", "ERROR", "decode"], "ERROR"),
        (vec!["--log-level=ERROR", "decode"], "ERROR"),
        (vec!["--log-level=", "decode"], ""),
    ] {
        let mut globals = GlobalArgs {
            log_level: None,
            config: None,
        };
        let (sub, _) = parse_global_flags(&args(&argv), &mut globals)
            .unwrap_or_else(|_| panic!("{argv:?} should yield a subcommand"));
        assert_eq!(sub, "decode", "{argv:?}");
        assert_eq!(globals.log_level.as_deref(), Some(expected), "{argv:?}");
    }

    for argv in [
        vec!["--config", "site.toml", "decode"],
        vec!["--config=site.toml", "decode"],
    ] {
        let mut globals = GlobalArgs {
            log_level: None,
            config: None,
        };
        let (sub, _) = parse_global_flags(&args(&argv), &mut globals).unwrap();
        assert_eq!(sub, "decode");
        assert_eq!(globals.config, Some("site.toml".to_string()));
    }

    let mut globals = GlobalArgs {
        log_level: None,
        config: None,
    };
    let (sub, _) = parse_global_flags(&args(&["--version=1"]), &mut globals).unwrap();
    assert_eq!(sub, "--version=1");
}

#[test]
fn dump_flags_accept_both_spellings() {
    let a = parse_dump(&args(&["rec.mie", "--records", "2", "--offset", "8"])).unwrap();
    let b = parse_dump(&args(&["rec.mie", "--records=2", "--offset=8"])).unwrap();
    assert_eq!(format!("{a:?}"), format!("{b:?}"));

    let err = parse_dump(&args(&["rec.mie", "--raw=true"])).unwrap_err();
    let ParseError::Other(msg) = err else {
        panic!("expected a usage error");
    };
    assert!(msg.contains("--raw=true"), "got {msg:?}");
}

#[test]
fn filter_flag_accepts_eq_form() {
    let parsed = parse_decode(&args(&["--include-rts=15,20", "file.mie"])).unwrap();
    assert_eq!(parsed.inputs, vec!["file.mie".to_string()]);
    assert_eq!(parsed.include_rts, vec![15, 20]);
}

#[test]
fn all_filter_flags_take_single_value() {
    let parsed = parse_decode(&args(&[
        "--exclude-types",
        "SPURIOUS_DATA",
        "--include-buses",
        "A",
        "--exclude-subaddresses",
        "0,31",
        "rec.mie",
    ]))
    .unwrap();
    assert_eq!(parsed.inputs, vec!["rec.mie".to_string()]);
    assert_eq!(parsed.exclude_types, vec![0x20]);
    assert_eq!(parsed.include_buses, vec![Bus::A]);
    assert_eq!(parsed.exclude_subaddresses, vec![0, 31]);
}

#[test]
fn filter_flag_takes_single_value_rest_are_positional_inputs() {
    let parsed = parse_decode(&args(&["--include-rts", "15", "31", "file.mie"])).unwrap();
    assert_eq!(parsed.include_rts, vec![15]);
    assert_eq!(
        parsed.inputs,
        vec!["31".to_string(), "file.mie".to_string()]
    );
}

#[test]
fn finish_dump_maps_broken_pipe_to_ok() {
    let broken = MieError::WriterError {
        destination: "stdout".to_string(),
        source: IoFailure {
            kind: IoKind::BrokenPipe,
            message: "pipe closed".to_string(),
        },
    };
    assert!(
        finish_dump(Err(broken)).is_ok(),
        "broken pipe on dump stdout should exit 0"
    );
}

#[test]
fn finish_dump_propagates_real_write_error() {
    let disk_full = MieError::WriterError {
        destination: "stdout".to_string(),
        source: IoFailure {
            kind: IoKind::Other,
            message: "No space left on device".to_string(),
        },
    };
    let err = finish_dump(Err(disk_full)).unwrap_err();
    assert_eq!(err.code, EXIT_RUNTIME, "disk-full dump error exits 1");
}

#[test]
fn apply_log_level_accepts_known_names() {
    for name in [
        "DEBUG", "INFO", "WARNING", "WARN", "ERROR", "CRITICAL", "off",
    ] {
        apply_log_level("--log-level", name)
            .unwrap_or_else(|e| panic!("expected {name} to parse, got: {e}"));
    }
}

#[test]
fn apply_log_level_rejects_unknown_names() {
    match apply_log_level("--log-level", "NOPE") {
        Err(msg) => {
            assert!(msg.contains("--log-level"));
            assert!(msg.contains("NOPE"));
            assert!(msg.contains("valid:"));
        }
        Ok(()) => panic!("expected error, got Ok"),
    }
}

#[test]
fn apply_log_level_includes_source_in_error() {
    let err = apply_log_level("[logging].level (in config)", "WHATEVER")
        .err()
        .unwrap();
    assert!(err.contains("[logging].level"));
    assert!(err.contains("WHATEVER"));
}

#[test]
fn decode_rejects_combined_input_methods() {
    for argv in [
        vec!["a.mie", "--manifest", "list.txt"],
        vec!["a.mie", "--glob", "*.mie"],
        vec!["--manifest", "list.txt", "--glob", "*.mie"],
    ] {
        match parse_decode(&args(&argv)) {
            Err(ParseError::Other(msg)) => {
                assert!(msg.contains("only one input method"), "got: {msg}");
            }
            other => panic!("expected combined-method usage error, got {other:?}"),
        }
    }
}

#[test]
fn resolve_inputs_rejects_over_cap() {
    let a = DecodeArgs {
        inputs: (0..=MAX_MERGE_FILES).map(|i| format!("f{i}.mie")).collect(),
        ..Default::default()
    };
    match resolve_inputs(&a, None) {
        Err(e) => {
            assert_eq!(e.code, EXIT_USAGE);
            assert!(
                e.message.contains("too many input files"),
                "got: {}",
                e.message
            );
        }
        Ok(_) => panic!("expected over-cap usage error"),
    }
}

// ── Further cases ─────────────────────────────────────────────────────

#[test]
fn run_count_propagates_missing_config_file() {
    let globals = GlobalArgs {
        log_level: None,
        config: Some("/no/such/config.toml".to_string()),
    };
    let source = ConfigSource::Missing("/no/such/config.toml".to_string());
    match resolve_config(&globals, source) {
        Err(e) => {
            assert_eq!(e.code, EXIT_CONFIG, "missing config file should exit 5");
            assert!(
                e.message.contains("Config file not found"),
                "expected 'Config file not found' error, got: {}",
                e.message
            );
        }
        Ok(_) => panic!("expected error, got Ok"),
    }
}

#[test]
fn resolve_config_levels_and_errors() {
    let globals = GlobalArgs {
        log_level: None,
        config: None,
    };
    let (cfg, level) = resolve_config(&globals, ConfigSource::Defaults).unwrap();
    assert_eq!(cfg.log_level, "WARNING");
    assert_eq!(level, Level::Warn);

    let text = "[logging]\nlevel = \"error\"\n".to_string();
    let (_, level) = resolve_config(&globals, ConfigSource::Text(text)).unwrap();
    assert_eq!(level, Level::Error);

    let cli = GlobalArgs {
        log_level: Some("debug".to_string()),
        config: None,
    };
    let text = "[logging]\nlevel = \"error\"\n".to_string();
    let (_, level) = resolve_config(&cli, ConfigSource::Text(text)).unwrap();
    assert_eq!(level, Level::Debug);

    let bad_cli = GlobalArgs {
        log_level: Some("NOPE".to_string()),
        config: None,
    };
    let err = resolve_config(&bad_cli, ConfigSource::Defaults).unwrap_err();
    assert_eq!(err.code, EXIT_USAGE, "bad --log-level should exit 4");
    assert!(err.message.contains("invalid --log-level"));

    let text = "[decode]\ntime_format = \"potato\"\n".to_string();
    let err = resolve_config(&globals, ConfigSource::Text(text)).unwrap_err();
    assert_eq!(err.code, EXIT_CONFIG);
    assert!(err.message.contains("Invalid time_format"));

    let text = "[logging]\nlevel = \"NOPE\"\n".to_string();
    let err = resolve_config(&globals, ConfigSource::Text(text)).unwrap_err();
    assert_eq!(err.code, EXIT_CONFIG);
    assert!(err.message.contains("Invalid logging.level"));
}

#[test]
fn levels_by_name() {
    assert_eq!(parse_level("critical"), Some(Level::Off));
    assert_eq!(parse_level("Warning"), Some(Level::Warn));
    assert_eq!(parse_level("info"), Some(Level::Info));
    assert_eq!(parse_level("trace"), None);
    assert_eq!(
        apply_log_level("--log-level", "NOPE").unwrap_err(),
        "invalid --log-level: \"NOPE\"; valid: DEBUG, INFO, WARNING, WARN, ERROR, CRITICAL, OFF"
    );
}

#[test]
fn exact_usage_messages() {
    let msg = |v: &[&str]| match parse_decode(&args(v)) {
        Err(ParseError::Other(m)) => m,
        other => panic!("expected a usage error, got {other:?}"),
    };
    assert_eq!(msg(&["--output"]), "--output requires a value");
    assert_eq!(
        msg(&["--glob", "--strict"]),
        "--glob requires a value, but the next argument is an option: --strict; to pass it as a value, write --glob=--strict"
    );
    assert_eq!(
        msg(&["--detect-records", "40", "a.mie"]),
        "invalid --detect-records: 40; valid range: [1, 32]"
    );
    assert_eq!(
        msg(&["--lookahead-records", "x", "a.mie"]),
        "invalid --lookahead-records: \"x\"; must be an integer"
    );
    assert_eq!(
        msg(&["--max-sort-group", "0", "a.mie"]),
        "invalid --max-sort-group: 0; valid range: [1, 1048576]"
    );
    assert_eq!(
        msg(&["--mux-field", "1.5", "a.mie"]),
        "invalid --mux-field: \"1.5\"; must be an integer"
    );
    assert_eq!(
        msg(&["--delta-scope", "local", "a.mie"]),
        "invalid --delta-scope: \"local\". Valid: per-file, global"
    );
    assert_eq!(
        msg(&["--include-rts", "300", "a.mie"]),
        "--include-rts value out of range (0-255): 300"
    );
    assert_eq!(
        msg(&["--exclude-buses", "C", "a.mie"]),
        "Invalid bus: \"C\". Valid: A, B"
    );
    assert_eq!(msg(&["--bogus=1"]), "unknown decode option: --bogus=1");
    assert_eq!(
        msg(&["a.mie", "--glob", "*.mie"]),
        "decode accepts only one input method: positional paths, --manifest, or --glob — not a combination"
    );
}

#[test]
fn decode_flags_fill_their_fields() {
    let a = parse_decode(&args(&[
        "--separate-errors",
        "--no-clobber",
        "--allow-partial",
        "--strict",
        "--no-mux",
        "--collapse-duplicates",
        "--time-format",
        "STANDARD",
        "--detect-records",
        " 32 ",
        "--lookahead-records=+3",
        "--standard-tick-rate-hz",
        "2.5e6",
        "--format",
        "csv",
        "--delta-scope",
        " Global ",
        "--collapse-window-us",
        "+7",
        "--exclude-types",
        " rt_to_bc , 0x18 ,,",
        "--include-subaddresses",
        "0x1f",
        "a.mie",
        "b.mie",
    ]))
    .unwrap();
    assert!(a.separate_errors && a.no_clobber && a.allow_partial && a.no_mux);
    assert!(a.collapse_duplicates);
    assert_eq!(a.strict, Some(true));
    assert_eq!(a.time_format, Some(TimestampFormat::Standard));
    assert_eq!(a.detect_records, Some(32));
    assert_eq!(a.lookahead_records, Some(3));
    assert_eq!(a.standard_tick_rate_hz.as_deref(), Some("2.5e6"));
    assert_eq!(a.output_format.as_deref(), Some("csv"));
    assert_eq!(a.delta_scope, Some(DeltaScope::Global));
    assert_eq!(a.collapse_window_us, Some(7));
    assert_eq!(a.exclude_types, vec![0x04, 0x18]);
    assert_eq!(a.include_subaddresses, vec![31]);
    assert_eq!(a.inputs, vec!["a.mie".to_string(), "b.mie".to_string()]);
}

#[test]
fn count_and_dump_arguments() {
    assert_eq!(parse_count(&args(&["r.mie"])).unwrap(), "r.mie");
    match parse_count(&args(&["r.mie", "s.mie"])) {
        Err(ParseError::Other(m)) => assert_eq!(m, "unexpected positional argument: s.mie"),
        other => panic!("unexpected {other:?}"),
    }
    match parse_count(&args(&["--raw"])) {
        Err(ParseError::Other(m)) => assert_eq!(m, "unknown count option: --raw"),
        other => panic!("unexpected {other:?}"),
    }
    match parse_count(&args(&[])) {
        Err(ParseError::Other(m)) => assert_eq!(m, "count requires an input file"),
        other => panic!("unexpected {other:?}"),
    }
    let d = parse_dump(&args(&["--raw", "x.mie"])).unwrap();
    assert!(d.raw);
    assert_eq!(d.input, "x.mie");
    assert_eq!(d.offset, 0);
    match parse_dump(&args(&["--offset", "zz", "x.mie"])) {
        Err(ParseError::Other(m)) => assert_eq!(m, "--offset expected integer, got \"zz\""),
        other => panic!("unexpected {other:?}"),
    }
    match parse_dump(&args(&[])) {
        Err(ParseError::Other(m)) => assert_eq!(m, "dump requires an input file"),
        other => panic!("unexpected {other:?}"),
    }
}

#[test]
fn subcommands_dispatch() {
    match parse_subcommand("count", &args(&["r.mie"])) {
        Ok(Command::Count(p)) => assert_eq!(p, "r.mie"),
        other => panic!("unexpected {other:?}"),
    }
    assert!(matches!(
        parse_subcommand("dump", &args(&["-h"])),
        Err(CommandExit::Help)
    ));
    assert!(matches!(
        parse_subcommand("--help", &args(&[])),
        Err(CommandExit::Help)
    ));
    match parse_subcommand("frobnicate", &args(&[])) {
        Err(CommandExit::Usage(m)) => assert_eq!(m, "Unknown command: \"frobnicate\""),
        other => panic!("unexpected {other:?}"),
    }
    match parse_subcommand("decode", &args(&["a.mie"])) {
        Ok(Command::Decode(a)) => assert_eq!(a.inputs, vec!["a.mie".to_string()]),
        other => panic!("unexpected {other:?}"),
    }
}

#[test]
fn global_flags_end_the_run_early() {
    let mut g = GlobalArgs {
        log_level: None,
        config: None,
    };
    assert!(matches!(
        parse_global_flags(&args(&["-h"]), &mut g),
        Err(GlobalExit::Help)
    ));
    assert!(matches!(
        parse_global_flags(&args(&["--VERSION"]), &mut g),
        Err(GlobalExit::Version)
    ));
    assert!(matches!(
        parse_global_flags(&args(&[]), &mut g),
        Err(GlobalExit::NoCommand)
    ));
    match parse_global_flags(&args(&["--config"]), &mut g) {
        Err(GlobalExit::Usage(m)) => assert_eq!(m, "--config requires a path"),
        other => panic!("unexpected {other:?}"),
    }
    let (sub, next) = parse_global_flags(&args(&["--log-level", "info", "dump", "x"]), &mut g)
        .unwrap();
    assert_eq!((sub.as_str(), next), ("dump", 3));
    assert!(is_version_flag("-v") && is_version_flag("--Version"));
    assert!(!is_version_flag("-version"));
}

#[test]
fn small_parsers() {
    assert_eq!(parse_int_value(" 0X1F ", "--offset").unwrap(), 31);
    assert_eq!(parse_int_value("+12", "--offset").unwrap(), 12);
    assert!(parse_int_value("0x", "--offset").is_err());
    assert_eq!(parse_u8_value("255", "--exclude-rts").unwrap(), 255);
    assert!(parse_u8_value("256", "--exclude-rts").is_err());
    assert_eq!(split_csv(" a, ,b ,"), vec!["a".to_string(), "b".to_string()]);
    assert!(is_negative_number("-1.25"));
    assert!(!is_negative_number("-1."));
    let a = Arg::split("--x=y=z".to_string());
    assert_eq!(a.name, "--x");
    assert_eq!(a.inline.as_deref(), Some("y=z"));
    assert!(Arg::split("-o=v".to_string()).bare());
}

#[test]
fn overrides_follow_the_flags() {
    let mut a = parse_decode(&args(&[
        "--separate-errors",
        "--no-mux",
        "--exclude-rts",
        "5",
        "--mux-delimiter",
        "_",
        "a.mie",
    ]))
    .unwrap();
    let o = build_config_overrides(&mut a, Some("INFO".to_string()));
    assert_eq!(o.error_mode, Some(ErrorMode::Separate));
    assert_eq!(o.mux_enabled, Some(false));
    assert_eq!(o.no_clobber, None);
    assert_eq!(o.exclude_rts, vec![5]);
    assert_eq!(o.mux_delimiter.as_deref(), Some("_"));
    assert_eq!(o.log_level.as_deref(), Some("INFO"));
    assert!(a.exclude_rts.is_empty());
    assert_eq!(a.inputs, vec!["a.mie".to_string()]);
}

#[test]
fn input_sets_and_collisions() {
    let a = DecodeArgs {
        manifest: Some("list.txt".to_string()),
        ..Default::default()
    };
    let err = resolve_inputs(&a, Some(Vec::new())).unwrap_err();
    assert_eq!(err.message, "manifest list.txt contains no input paths");
    let g = DecodeArgs {
        glob: Some("*.mie".to_string()),
        ..Default::default()
    };
    let err = resolve_inputs(&g, Some(Vec::new())).unwrap_err();
    assert_eq!(err.message, "--glob \"*.mie\" matched no files");
    let ok = resolve_inputs(&g, Some(vec!["x.mie".to_string()])).unwrap();
    assert_eq!(ok, vec!["x.mie".to_string()]);

    let inputs = vec![
        ("a.mie".to_string(), Some("/d/a.mie".to_string())),
        ("b.mie".to_string(), None),
    ];
    assert!(check_output_collision("out.csv", None, &inputs).is_ok());
    let err = check_output_collision("x/../a.mie", Some("/d/a.mie".to_string()), &inputs)
        .unwrap_err();
    assert_eq!(err.code, EXIT_RUNTIME);
    assert_eq!(
        err.message,
        "output path x/../a.mie resolves to merge input a.mie; choose a different output path"
    );
    assert!(check_output_collision("b.mie", None, &inputs).is_err());
}

#[test]
fn decode_exits_by_class() {
    let ok = WriteOutcome {
        normal_count: 3,
        error_count: 0,
        partial: None,
    };
    let x = classify_decode_exit(Ok(ok), 0, false);
    assert_eq!(x.code, 0);
    assert_eq!(
        x.summary.as_deref(),
        Some("decode exit class: complete (sync_losses=0)")
    );
    let empty = WriteOutcome {
        normal_count: 0,
        error_count: 0,
        partial: None,
    };
    let x = classify_decode_exit(Ok(empty), 0, true);
    assert_eq!(
        x.summary.as_deref(),
        Some("decode exit class: empty-recording (sync_losses=0)")
    );
    let recovered = WriteOutcome {
        normal_count: 1,
        error_count: 0,
        partial: None,
    };
    let x = classify_decode_exit(Ok(recovered), 2, false);
    assert_eq!(
        x.summary.as_deref(),
        Some("decode exit class: partial-recovered (sync_losses=2)")
    );
    let partial = WriteOutcome {
        normal_count: 1,
        error_count: 0,
        partial: Some(PartialCommit {
            main_path: "o.csv.partial".to_string(),
            errors_path: None,
            offset: 64,
            sync_losses: 1,
        }),
    };
    let x = classify_decode_exit(Ok(partial), 1, true);
    assert_eq!(x.code, 0);
    assert_eq!(
        x.summary.as_deref(),
        Some("decode exit class: partial-unrecoverable (sync_losses=1)")
    );

    let none = MieError::NoValidRecords {
        path: "x".to_string(),
        scan_bytes: 10,
    };
    let x = classify_decode_exit(Err(none), 0, false);
    assert_eq!(x.code, EXIT_NO_RECORDS);
    assert!(x.error.unwrap().starts_with("No valid MIE records found in x"));
    let lost = MieError::UnrecoverableSyncLoss {
        offset: 16,
        sync_losses: 4,
    };
    let x = classify_decode_exit(Err(lost), 4, false);
    assert_eq!(x.code, EXIT_SYNC_LOSS);
    let merge = MieError::IncompatibleMergeInputs {
        file_index: 1,
        path: "b".to_string(),
        detail: "d".to_string(),
    };
    assert_eq!(
        classify_decode_exit(Err(merge), 0, false).code,
        EXIT_MERGE_INCOMPATIBLE
    );
    let pipe = MieError::WriterError {
        destination: "stdout".to_string(),
        source: IoFailure {
            kind: IoKind::BrokenPipe,
            message: "closed".to_string(),
        },
    };
    let x = classify_decode_exit(Err(pipe), 0, false);
    assert_eq!(x.code, 0);
    assert!(x.error.is_none());
    let other = MieError::FileEmpty {
        path: "e".to_string(),
    };
    let x = classify_decode_exit(Err(other), 0, false);
    assert_eq!(x.code, EXIT_RUNTIME);
    assert!(x.summary.is_none());
}

#[test]
fn reader_errors_map_to_exit_codes() {
    let e = CliError::from_decode_error(MieError::HomogeneousPayload {
        path: "p".to_string(),
        offset: 0,
        sample_records: 4,
    });
    assert_eq!(e.code, EXIT_NO_RECORDS);
    let e = CliError::from_decode_error(MieError::FileNotFound {
        path: "p".to_string(),
    });
    assert_eq!(e.code, EXIT_RUNTIME);
    assert_eq!(e.message, "MIE file not found: p");
}

#[test]
fn output_collision_compares_paths_by_component() {
    let inputs = vec![("d/x.mie".to_string(), None)];
    assert!(check_output_collision("d//x.mie", None, &inputs).is_err());
    assert!(check_output_collision("d/./x.mie", None, &inputs).is_err());
    assert!(check_output_collision("d/y.mie", None, &inputs).is_ok());
}

#[test]
fn a_joined_value_may_look_like_an_option() {
    let a = parse_decode(&args(&["in.mie", "--mux-delimiter=--no-mux"])).unwrap();
    assert_eq!(a.mux_delimiter.as_deref(), Some("--no-mux"));
    assert!(!a.no_mux);
    match parse_decode(&args(&["in.mie", "--mux-delimiter", "--no-mux"])) {
        Err(ParseError::Other(m)) => assert!(m.contains("--mux-delimiter=--no-mux")),
        other => panic!("expected a refusal, got {other:?}"),
    }
}

#[test]
fn both_spellings_agree_with_tokens_after_them() {
    let s = parse_decode(&args(&["--output", "o.csv", "in.mie", "--strict"])).unwrap();
    let j = parse_decode(&args(&["--output=o.csv", "in.mie", "--strict"])).unwrap();
    assert_eq!(format!("{s:?}"), format!("{j:?}"));
}

#[test]
fn parse_decode_standard_tick_rate_hz_space_and_eq_forms() {
    let parsed = parse_decode(&args(&["--standard-tick-rate-hz", "1000000", "rec.mie"])).unwrap();
    assert_eq!(parsed.inputs, vec!["rec.mie".to_string()]);
    assert_eq!(parsed.standard_tick_rate_hz.as_deref(), Some("1000000"));
    let hz: f64 = parsed.standard_tick_rate_hz.as_deref().unwrap().parse().unwrap();
    assert_eq!(hz, 1_000_000.0);

    let parsed = parse_decode(&args(&["--standard-tick-rate-hz=2.5e6", "rec.mie"])).unwrap();
    assert_eq!(parsed.standard_tick_rate_hz.as_deref(), Some("2.5e6"));
    let hz: f64 = parsed.standard_tick_rate_hz.as_deref().unwrap().parse().unwrap();
    assert_eq!(hz, 2_500_000.0);
}
