use mie_decoder::config::{
    is_known_shared_key, is_toml_number_literal, load_config, parse_bus_name, parse_bus_value,
    parse_into_config, parse_toml, parse_type_name, parse_type_value, unknown_keys,
    ConfigOverrides, ConfigSource, DecoderConfig, TomlValue, DETECT_RECORDS_MAX,
};
use mie_decoder::filter::FilterConfig;
use mie_decoder::models::{Bus, DeltaScope, ErrorMode, TimestampFormat};
use mie_decoder::order::{DEFAULT_MAX_SORT_GROUP, MAX_SORT_GROUP_MAX, MAX_SORT_GROUP_MIN};

#[test]
fn parse_minimal_doc() {
    let text = r#"
[logging]
level = "INFO"

[decode]
time_format = "irig"
strict = true
error_mode = "inline"

[filter]
exclude_types = ["SPURIOUS_DATA", "MODE_COMMAND"]
exclude_rts = [0, 31]
exclude_buses = ["B"]
exclude_subaddresses = []

[output]
format = "csv"
"#;
    let cfg = parse_into_config(text).unwrap();
    assert_eq!(cfg.log_level, "INFO");
    assert_eq!(cfg.time_format, TimestampFormat::Irig);
    assert!(cfg.strict);
    assert_eq!(cfg.error_mode, ErrorMode::Inline);
    assert!(cfg.filters.exclude_types.contains(&0x20));
    assert!(cfg.filters.exclude_types.contains(&0x01));
    assert!(cfg.filters.exclude_rts.contains(&31));
    assert!(cfg.filters.exclude_buses.contains(&Bus::B));
    assert!(cfg.filters.exclude_subaddresses.is_empty());
}

#[test]
fn comments_are_stripped() {
    let text = r#"
# leading comment
[decode]
strict = true  # trailing comment
time_format = "auto"
"#;
    let cfg = parse_into_config(text).unwrap();
    assert!(cfg.strict);
    assert_eq!(cfg.time_format, TimestampFormat::Auto);
}

#[test]
fn time_format_is_case_insensitive() {
    for (spelling, expected) in [
        ("IRIG", TimestampFormat::Irig),
        ("Irig", TimestampFormat::Irig),
        ("AUTO", TimestampFormat::Auto),
        ("Standard", TimestampFormat::Standard),
    ] {
        let text = format!("[decode]\ntime_format = \"{spelling}\"\n");
        let cfg = parse_into_config(&text).unwrap();
        assert_eq!(cfg.time_format, expected, "spelling {spelling:?}");
    }
    let bad = "[decode]\ntime_format = \"bogus\"\n";
    assert!(parse_into_config(bad).is_err());
}

#[test]
fn hash_in_string_not_a_comment() {
    let text = r#"
[output]
format = "csv#weird"
"#;
    let doc = parse_toml(text).unwrap();
    match doc.get("output", "format") {
        Some(TomlValue::String(s)) => assert_eq!(s, "csv#weird"),
        other => panic!("expected String(\"csv#weird\"), got {other:?}"),
    }
}

#[test]
fn rejects_duplicate_key() {
    let err = parse_toml("[decode]\nstrict = true\nstrict = false\n").unwrap_err();
    assert!(err.contains("duplicate key 'strict'"), "got {err:?}");
    assert!(err.contains("[decode]"), "got {err:?}");
    assert!(parse_toml("[a]\nx = 1\n[b]\nx = 2\n").is_ok());
}

#[test]
fn rejects_duplicate_section_header() {
    let err =
        parse_toml("[decode]\nstrict = true\n[decode]\ntime_format = \"irig\"\n").unwrap_err();
    assert!(err.contains("declared more than once"), "got {err:?}");
    assert!(err.contains("[decode]"), "got {err:?}");
    assert!(parse_toml("[decode]\nstrict = true\n[mux]\nenabled = false\n").is_ok());
}

#[test]
fn rejects_dotted_keys_and_array_tables() {
    let at = parse_toml("[[decode]]\nstrict = true\n").unwrap_err();
    assert!(at.contains("array-of-tables"), "got {at:?}");
    let dk = parse_toml("decode.strict = true\n").unwrap_err();
    assert!(dk.contains("dotted keys"), "got {dk:?}");
    assert!(parse_toml("[decode]\nfoo.bar = 1\n").is_err());
    assert!(parse_toml("[decode]\nstrict = true\n[mux]\nenabled = false\n").is_ok());
}

#[test]
fn rejects_dotted_section_headers() {
    let err = parse_toml("[output.no_clobber]\nenabled = true\n").unwrap_err();
    assert!(err.contains("dotted section headers"), "got {err:?}");
    assert!(parse_toml("[decode.foo]\nx = 1\n").is_err());
    assert!(parse_toml("[output]\nno_clobber = true\n").is_ok());
}

#[test]
fn rejects_non_identifier_section_headers() {
    for bad in ["[bad-section]\n", "[\"bad\"]\n", "[bad section]\n"] {
        let err = parse_toml(bad).unwrap_err();
        assert!(err.contains("unsupported section header"), "got {err:?}");
    }
    assert!(parse_toml("[bogus]\nx = 1\n").is_ok());
    assert!(parse_toml("[decode]\nstrict = true\n").is_ok());
}

#[test]
fn rejects_non_identifier_keys() {
    let err = parse_toml("[decode]\n\"strict\" = true\n").unwrap_err();
    assert!(err.contains("simple identifiers"), "got {err:?}");
    assert!(parse_toml("[decode]\nstandard_tick_rate_hz = 1.0\n").is_ok());
}

#[test]
fn number_literal_grammar() {
    for ok in [
        "0", "8", "-1", "+8", "100", "1.5", "0.5", "1e6", "1000000.0", "1.5e-3",
    ] {
        assert!(is_toml_number_literal(ok), "{ok:?} should be accepted");
    }
    for bad in [
        "08", "01", "00", "1.", ".5", "1.e3", "0x08", "1_0", "", "+", "1..2",
    ] {
        assert!(!is_toml_number_literal(bad), "{bad:?} should be rejected");
    }
    assert!(parse_toml("[decode]\ndetect_records = 08\n").is_err());
    assert!(parse_toml("[filter]\nexclude_rts = [01]\n").is_err());
}

#[test]
fn rejects_non_string_and_scalar_sections() {
    assert!(parse_into_config("[decode]\ntime_format = 1\n").is_err());
    assert!(parse_into_config("[decode]\nerror_mode = 1\n").is_err());
    for section in ["decode", "logging", "output", "mux", "merge", "filter"] {
        let err = parse_into_config(&format!("{section} = true\n")).unwrap_err();
        assert!(err.0.contains(&format!("[{section}]")), "got {:?}", err.0);
    }
    assert!(parse_into_config("bogus = true\n").is_ok());
}

#[test]
fn unknown_time_format_rejected() {
    let text = r#"
[decode]
time_format = "potato"
"#;
    assert!(parse_into_config(text).is_err());
}

#[test]
fn unknown_type_name_rejected() {
    let text = r#"
[filter]
exclude_types = ["UNICORN"]
"#;
    assert!(parse_into_config(text).is_err());
}

#[test]
fn unknown_log_level_rejected_at_parse_time() {
    let text = "[logging]\nlevel = \"NOPE\"\n";
    let err = parse_into_config(text).unwrap_err();
    assert!(
        err.0.contains("logging.level"),
        "error should mention the field: {}",
        err.0
    );
    assert!(err.0.contains("NOPE"));
}

#[test]
fn known_log_levels_accepted_case_insensitively() {
    for level in [
        "DEBUG", "info", "Warning", "WARN", "error", "CRITICAL", "OFF", "off",
    ] {
        let text = format!("[logging]\nlevel = \"{level}\"\n");
        parse_into_config(&text)
            .unwrap_or_else(|e| panic!("expected {level:?} to parse, got: {}", e.0));
    }
}

#[test]
fn unknown_output_format_rejected() {
    let text = "[output]\nformat = \"json\"\n";
    let err = parse_into_config(text).unwrap_err();
    assert!(
        err.0.contains("output.format"),
        "error should name the field: {}",
        err.0
    );
    assert!(err.0.contains("json"));
}

#[test]
fn output_format_csv_still_accepted() {
    let text = "[output]\nformat = \"csv\"\n";
    let cfg = parse_into_config(text).unwrap();
    assert_eq!(cfg.output_format, "csv");
}

#[test]
fn exclude_rts_out_of_range_rejected() {
    let text = "[filter]\nexclude_rts = [32]\n";
    let err = parse_into_config(text).unwrap_err();
    assert!(
        err.0.contains("exclude_rts") && err.0.contains("[0, 31]"),
        "expected range error mentioning [0, 31]: {}",
        err.0
    );
}

#[test]
fn exclude_subaddresses_negative_rejected() {
    let text = "[filter]\nexclude_subaddresses = [-1]\n";
    let err = parse_into_config(text).unwrap_err();
    assert!(
        err.0.contains("exclude_subaddresses") && err.0.contains("[0, 31]"),
        "expected range error mentioning [0, 31]: {}",
        err.0
    );
}

#[test]
fn exclude_rts_zero_and_thirty_one_accepted() {
    let text = "[filter]\nexclude_rts = [0, 31]\n";
    let cfg = parse_into_config(text).unwrap();
    assert_eq!(cfg.filters.exclude_rts, vec![0, 31]);
}

#[test]
fn unknown_top_level_key_is_warned_not_rejected() {
    let text = "[output]\nformat = \"csv\"\nunknown_thing = true\n";
    let cfg = parse_into_config(text).expect("unknown key should warn, not fail");
    assert_eq!(cfg.output_format, "csv");
}

#[test]
fn unknown_filter_key_is_warned_not_rejected() {
    let text = "[filter]\nexclude_subdresses = [0]\n";
    let cfg = parse_into_config(text).expect("typo'd key should warn, not fail");
    assert!(cfg.filters.exclude_subaddresses.is_empty());
}

#[test]
fn missing_eq_returns_line_number() {
    let text = "[decode]\nstrict true\n";
    let err = parse_into_config(text).unwrap_err();
    assert!(err.0.contains("line 2"));
}

#[test]
fn defaults_when_no_path() {
    let cfg = load_config(ConfigSource::Defaults).unwrap();
    assert_eq!(cfg.log_level, "WARNING");
    assert_eq!(cfg.time_format, TimestampFormat::Auto);
    assert_eq!(cfg.error_mode, ErrorMode::Inline);
    assert!(!cfg.strict);
}

#[test]
fn overrides_apply_and_filter_merge() {
    let cfg = DecoderConfig {
        filters: FilterConfig {
            exclude_rts: vec![31],
            ..Default::default()
        },
        ..Default::default()
    };
    let merged = cfg.with_overrides(ConfigOverrides {
        time_format: Some(TimestampFormat::Standard),
        exclude_rts: vec![0],
        ..Default::default()
    });
    assert_eq!(merged.time_format, TimestampFormat::Standard);
    assert_eq!(merged.filters.exclude_rts, vec![31, 0]);
}

#[test]
fn type_name_parsing() {
    assert_eq!(parse_type_name("BC_TO_RT").unwrap(), 0x02);
    assert_eq!(parse_type_name("0x20").unwrap(), 0x20);
    assert!(parse_type_name("nope").is_err());
}

#[test]
fn string_values_are_data_never_interpolated() {
    let literal = "$(whoami)${HOME}`id`%PATH%";
    let cfg = parse_into_config(&format!("[mux]\ndelimiter = \"{literal}\"\n")).unwrap();
    assert_eq!(cfg.mux_delimiter, literal);
}

#[test]
fn parses_max_sort_group() {
    let cfg = parse_into_config("[output]\nmax_sort_group = 64\n").unwrap();
    assert_eq!(cfg.max_sort_group, 64);
    assert!(is_known_shared_key("output", "max_sort_group"));
}

#[test]
fn max_sort_group_defaults_when_absent() {
    let cfg = parse_into_config("[output]\nno_clobber = true\n").unwrap();
    assert_eq!(cfg.max_sort_group, DEFAULT_MAX_SORT_GROUP);
}

#[test]
fn max_sort_group_accepts_one() {
    let cfg = parse_into_config("[output]\nmax_sort_group = 1\n").unwrap();
    assert_eq!(cfg.max_sort_group, MAX_SORT_GROUP_MIN);
}

#[test]
fn max_sort_group_rejects_out_of_range_and_non_integer() {
    for bad in ["0", "1048577", "-5"] {
        let err = parse_into_config(&format!("[output]\nmax_sort_group = {bad}\n")).unwrap_err();
        assert!(
            err.0.contains("max_sort_group"),
            "error must name the key, got {:?}",
            err.0
        );
    }
    let not_int = parse_into_config("[output]\nmax_sort_group = true\n").unwrap_err();
    assert!(not_int.0.contains("max_sort_group"), "got {:?}", not_int.0);
}

#[test]
fn max_sort_group_accepts_upper_bound() {
    let cfg = parse_into_config(&format!(
        "[output]\nmax_sort_group = {MAX_SORT_GROUP_MAX}\n"
    ))
    .unwrap();
    assert_eq!(cfg.max_sort_group, MAX_SORT_GROUP_MAX);
}

#[test]
fn parses_merge_section() {
    let cfg =
        parse_into_config("[merge]\ncollapse_duplicates = true\ncollapse_window_us = 100\n")
            .unwrap();
    assert!(cfg.collapse_duplicates);
    assert_eq!(cfg.collapse_window_us, 100);
    assert!(is_known_shared_key("merge", "collapse_duplicates"));
    assert!(is_known_shared_key("merge", "collapse_window_us"));
}

#[test]
fn merge_section_defaults_when_absent() {
    let cfg = parse_into_config("[merge]\ncollapse_duplicates = true\n").unwrap();
    assert!(cfg.collapse_duplicates);
    assert_eq!(cfg.collapse_window_us, 0);
}

#[test]
fn merge_section_rejects_bad_window() {
    let neg = parse_into_config("[merge]\ncollapse_window_us = -1\n").unwrap_err();
    assert!(neg.0.contains("collapse_window_us"), "got {:?}", neg.0);
    let not_int = parse_into_config("[merge]\ncollapse_window_us = true\n").unwrap_err();
    assert!(
        not_int.0.contains("must be an integer"),
        "got {:?}",
        not_int.0
    );
}

#[test]
fn standard_tick_rate_hz_default_is_none() {
    let cfg = parse_into_config("[decode]\ntime_format = \"standard\"\n").unwrap();
    assert_eq!(cfg.standard_tick_rate_hz, None);
}

// ── Further cases ─────────────────────────────────────────────────────

#[test]
fn tick_rate_is_kept_as_written() {
    let as_float = parse_into_config("[decode]\nstandard_tick_rate_hz = 1000000.0\n").unwrap();
    assert_eq!(as_float.standard_tick_rate_hz.as_deref(), Some("1000000.0"));
    let as_int = parse_into_config("[decode]\nstandard_tick_rate_hz = 1000000\n").unwrap();
    assert_eq!(as_int.standard_tick_rate_hz.as_deref(), Some("1000000"));
    let doc = parse_toml("[decode]\nstandard_tick_rate_hz = 1.5e6\n").unwrap();
    match doc.get("decode", "standard_tick_rate_hz") {
        Some(TomlValue::Float(t)) => assert_eq!(t, "1.5e6"),
        other => panic!("expected Float(\"1.5e6\"), got {other:?}"),
    }
    let err = parse_into_config("[decode]\nstandard_tick_rate_hz = \"fast\"\n").unwrap_err();
    assert_eq!(err.0, "[decode] standard_tick_rate_hz must be a number");
}

#[test]
fn exact_parser_messages() {
    assert_eq!(
        parse_toml("[decode]\nstrict true\n").unwrap_err(),
        "line 2: expected '=' in \"strict true\""
    );
    assert_eq!(
        parse_toml("\n\n[decode\n").unwrap_err(),
        "line 3: unterminated section header"
    );
    assert_eq!(parse_toml("[ ]\n").unwrap_err(), "line 1: empty section name");
    assert_eq!(parse_toml("= 1\n").unwrap_err(), "line 1: empty key");
    assert_eq!(parse_toml("a =\n").unwrap_err(), "line 1: empty value");
    assert_eq!(
        parse_toml("a = \"x\\q\"\n").unwrap_err(),
        "line 1: bad escape \\q"
    );
    assert_eq!(
        parse_toml("a = \"x\\\"\n").unwrap_err(),
        "line 1: trailing backslash"
    );
    assert_eq!(
        parse_toml("a = \"x\n").unwrap_err(),
        "line 1: malformed string \"\\\"x\""
    );
    assert_eq!(
        parse_toml("a = \"x\"y\"\n").unwrap_err(),
        "line 1: unescaped quote in string"
    );
    assert_eq!(
        parse_toml("a = [1, [2]]\n").unwrap_err(),
        "line 1: nested arrays not supported"
    );
    assert_eq!(
        parse_toml("a = [1, 2\n").unwrap_err(),
        "line 1: malformed array \"[1, 2\""
    );
    assert_eq!(
        parse_toml("a = yes\n").unwrap_err(),
        "line 1: cannot parse value \"yes\""
    );
    assert_eq!(
        parse_toml("a = truth\n").unwrap_err(),
        "line 1: expected boolean, got \"truth\""
    );
    assert_eq!(
        parse_toml("a = 99999999999999999999\n").unwrap_err(),
        "line 1: invalid integer \"99999999999999999999\""
    );
    assert_eq!(
        parse_toml("x = 1\nx = 2\n").unwrap_err(),
        "line 2: duplicate key 'x'"
    );
    assert_eq!(
        parse_toml("[s]\nx = 1\nx = 2\n").unwrap_err(),
        "line 3: duplicate key 'x' in section '[s]'"
    );
}

#[test]
fn values_parse_to_their_kinds() {
    let doc = parse_toml(
        "a = \"t\\tq\\\"\\\\\\n\"\nb = -9223372036854775808\nc = [1, \"x,y\", true, 2.5]\nd = []\n",
    )
    .unwrap();
    assert_eq!(doc.get_string("", "a").unwrap(), Some("t\tq\"\\\n"));
    assert_eq!(doc.get_int("", "b").unwrap(), Some(i64::MIN));
    match doc.get_array("", "c").unwrap() {
        Some(items) => assert_eq!(
            items,
            &[
                TomlValue::Int(1),
                TomlValue::String("x,y".to_string()),
                TomlValue::Bool(true),
                TomlValue::Float("2.5".to_string()),
            ][..]
        ),
        None => panic!("expected an array"),
    }
    assert_eq!(doc.get_array("", "d").unwrap().map(|a| a.len()), Some(0));
    assert_eq!(doc.get_bool("", "zz").unwrap(), None);
    assert_eq!(
        doc.get_bool("", "a").unwrap_err().0,
        "[] a must be a boolean"
    );
}

#[test]
fn crlf_lines_are_accepted() {
    let cfg = parse_into_config("[decode]\r\nstrict = true\r\n").unwrap();
    assert!(cfg.strict);
}

#[test]
fn each_value_error_names_its_key() {
    let cases = [
        (
            "[decode]\ndetect_records = 33\n",
            "Invalid decode.detect_records: 33. Valid range: [1, 32]",
        ),
        (
            "[decode]\nlookahead_records = 0\n",
            "Invalid decode.lookahead_records: 0. Valid range: [1, 32]",
        ),
        (
            "[decode]\nerror_mode = \"Loud\"\n",
            "Invalid error_mode: \"loud\". Valid: separate, inline",
        ),
        (
            "[mux]\ndelimiter = \"\"\n",
            "Invalid mux.delimiter: must be a non-empty string",
        ),
        (
            "[merge]\ndelta_scope = \"far\"\n",
            "Invalid merge.delta_scope: \"far\". Valid: per-file, global",
        ),
        (
            "[filter]\nexclude_buses = [\"c\"]\n",
            "Invalid bus: \"C\". Valid: A, B",
        ),
        (
            "[filter]\nexclude_buses = [1]\n",
            "exclude_buses entries must be strings",
        ),
        (
            "[filter]\nexclude_types = [300]\n",
            "Type code out of range: 300",
        ),
        (
            "[filter]\nexclude_types = [true]\n",
            "exclude_types entries must be strings or integers",
        ),
        (
            "[filter]\nexclude_rts = [\"1\"]\n",
            "exclude_rts entries must be integers",
        ),
        ("logging = 1\n", "Invalid [logging]: expected a table, not a value"),
    ];
    for (text, want) in cases {
        assert_eq!(parse_into_config(text).unwrap_err().0, want, "{text:?}");
    }
    assert_eq!(DETECT_RECORDS_MAX, 32);
}

#[test]
fn whole_config_round_trip() {
    let text = "[decode]\ndetect_records = 32\nlookahead_records = 4\nallow_partial = true\n\
                [output]\nno_clobber = true\n[mux]\nenabled = false\nfield = -2\n\
                delimiter = \"_\"\n[merge]\ndelta_scope = \"GLOBAL\"\n\
                [filter]\nexclude_types = [\"bc_to_rt\", \"0x18\", 16]\nexclude_subaddresses = [5]\n";
    let cfg = parse_into_config(text).unwrap();
    assert_eq!(cfg.detect_records, 32);
    assert_eq!(cfg.lookahead_records, 4);
    assert!(cfg.allow_partial);
    assert!(cfg.no_clobber);
    assert!(!cfg.mux_enabled);
    assert_eq!(cfg.mux_field, -2);
    assert_eq!(cfg.mux_delimiter, "_");
    assert_eq!(cfg.delta_scope, DeltaScope::Global);
    assert_eq!(cfg.filters.exclude_types, vec![0x02, 0x18, 0x10]);
    assert_eq!(cfg.filters.exclude_subaddresses, vec![5]);
}

#[test]
fn type_and_bus_values() {
    assert_eq!(parse_type_name("  spurious_data ").unwrap(), 0x20);
    assert_eq!(parse_type_name("0X+1f").unwrap(), 0x1F);
    assert_eq!(
        parse_type_name("0x100").unwrap_err().0,
        "Invalid hex type code: \"0x100\""
    );
    assert!(parse_type_name("0x").is_err());
    assert_eq!(parse_type_value(&TomlValue::Int(7)).unwrap(), 7);
    assert!(parse_type_value(&TomlValue::Int(-1)).is_err());
    assert_eq!(parse_bus_name(" b ").unwrap(), Bus::B);
    assert_eq!(
        parse_bus_value(&TomlValue::String("a".to_string())).unwrap(),
        Bus::A
    );
}

#[test]
fn overrides_replace_and_merge_without_duplicates() {
    let base = parse_into_config("[filter]\nexclude_rts = [1, 2]\n").unwrap();
    let merged = base.with_overrides(ConfigOverrides {
        strict: Some(true),
        collapse_window_us: Some(-5),
        mux_delimiter: Some("-".to_string()),
        exclude_rts: vec![2, 3, 3],
        include_buses: vec![Bus::A],
        ..Default::default()
    });
    assert!(merged.strict);
    assert_eq!(merged.collapse_window_us, 0);
    assert_eq!(merged.mux_delimiter, "-");
    assert_eq!(merged.filters.exclude_rts, vec![1, 2, 3]);
    assert_eq!(merged.filters.include_buses, vec![Bus::A]);
    let same = DecoderConfig::default().with_overrides(ConfigOverrides::default());
    assert_eq!(same.log_level, "WARNING");
    assert_eq!(same.max_sort_group, DEFAULT_MAX_SORT_GROUP);
}

#[test]
fn load_config_reports_the_source() {
    let missing = load_config(ConfigSource::Missing("a.toml".to_string())).unwrap_err();
    assert_eq!(missing.0, "Config file not found: a.toml");
    let dir = load_config(ConfigSource::NotRegularFile("d".to_string())).unwrap_err();
    assert_eq!(dir.0, "Config path is not a regular file: d");
    let unreadable =
        load_config(ConfigSource::Unreadable("f".to_string(), "denied".to_string())).unwrap_err();
    assert_eq!(unreadable.0, "Reading f: denied");
    let cfg = load_config(ConfigSource::Text("[decode]\nstrict = true\n".to_string())).unwrap();
    assert!(cfg.strict);
}

#[test]
fn unknown_keys_are_listed_in_order() {
    let doc = parse_toml("top = 1\n[decode]\nstrict = true\nstrictt = 1\n[x]\ny = 2\n").unwrap();
    let unknown = unknown_keys(&doc);
    assert_eq!(
        unknown,
        vec![
            (String::new(), "top".to_string()),
            ("decode".to_string(), "strictt".to_string()),
            ("x".to_string(), "y".to_string()),
        ]
    );
}

#[test]
fn bus_and_type_names_parse_back_from_their_labels() {
    for b in [Bus::A, Bus::B] {
        assert_eq!(parse_bus_name(b.as_str()).unwrap(), b);
    }
    assert_eq!(parse_bus_name(" b ").unwrap(), Bus::B);
    assert_eq!(parse_type_name("  spurious_data ").unwrap(), 0x20);
    assert_eq!(parse_type_name("Broadcast_RT_to_RT").unwrap(), 0x18);
    assert!(parse_type_name("nope").is_err());
}
