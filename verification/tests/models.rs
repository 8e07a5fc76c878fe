use mie_decoder::models::{
    day_of_year_to_month_day, ddc_error_description, format_utc_offset, is_known_custom_error_code,
    is_known_ddc_error_code, is_known_error_code, is_leap_year, is_valid_message_type,
    timestamp_word_count, Bus, CalendarError, CommandWord, DataWords, Direction, IrigTimestamp,
    MessageFormat, MessageType, MieMessage, OutputTimeFormat, StandardTimestamp, TimeRender,
    Timestamp, TimestampFormat, TypeWord, ERROR_INVERTED_SYNC, ERROR_MANCHESTER_PARITY,
    ERROR_NO_RESPONSE, ERROR_SPURIOUS_STANDALONE, MAX_DATA_WORDS,
};

/// Days in each month of a common year.
const COMMON_YEAR_MONTH_LENGTHS: [u16; 12] = [31, 28, 31, 30, 31, 30, 31, 31, 30, 31, 30, 31];


/// Requirements: L2-MSG-001
#[test]
fn message_type_round_trip() {
    for code in [0x01u8, 0x02, 0x04, 0x08, 0x10, 0x18, 0x20] {
        let mt = MessageType::from_code(code).unwrap();
        assert_eq!(mt.code(), code);
        assert!(is_valid_message_type(code));
    }
    assert!(MessageType::from_code(0x03).is_none());
    assert!(!is_valid_message_type(0x03));
}

/// Requirements: L2-WRT-011
#[test]
fn irig_format_matches_python_layout() {
    let t = IrigTimestamp {
        day: 10,
        hour: 15,
        minute: 54,
        second: 50,
        microsecond: 456_225,
        freerun: false,
    };
    assert_eq!(t.format(), "10:15:54:50.456225");
}

/// Requirements: L2-DEC-014
#[test]
fn irig_format_truncates_out_of_range_microseconds() {
    // L2-DEC-014: formatter SHALL emit exactly six microsecond
    // digits. Validation (L2-SYN-004) rejects records with
    // microsecond >= 1_000_000 before we get here, but a caller
    // who constructs an IrigTimestamp directly with a bad
    // microsecond MUST still produce a well-formed string.
    let t = IrigTimestamp {
        day: 1,
        hour: 0,
        minute: 0,
        second: 0,
        microsecond: 1_234_567, // > 999_999
        freerun: false,
    };
    let s = t.format();
    assert_eq!(s, "1:00:00:00.234567");
    // Sanity: the part after the '.' is exactly six characters.
    let micro_part = s.rsplit('.').next().unwrap();
    assert_eq!(micro_part.len(), 6);
}

/// Requirements: L2-DEC-007
#[test]
fn standard_format_hex() {
    let t = StandardTimestamp {
        raw_value: 0x1234_ABCD,
        upper_word: 0x1234,
        lower_word: 0xABCD,
    };
    assert_eq!(t.format(), "0x1234ABCD");
}

/// Requirements: L3-RS-005
#[test]
fn data_words_inline_buffer() {
    let dw = DataWords::from_slice(&[1, 2, 3]);
    assert_eq!(dw.len(), 3);
    assert_eq!(dw.as_slice(), &[1, 2, 3]);
    assert!(!dw.is_empty());
    let empty = DataWords::new();
    assert!(empty.is_empty());
}

/// Requirements: L3-RS-005
#[test]
fn data_words_max_capacity() {
    let words: Vec<u16> = (0..u16::try_from(MAX_DATA_WORDS).expect("fits")).collect();
    let dw = DataWords::from_slice(&words);
    assert_eq!(dw.len(), MAX_DATA_WORDS);
}

/// An over-length slice is capped at `MAX_DATA_WORDS` rather than panicking
/// (L1-ROB-001), matching `from_iter_capped`.
/// Requirements: L3-RS-005, L1-ROB-001
#[test]
fn data_words_overflow_truncates() {
    let words: Vec<u16> = (0..(u16::try_from(MAX_DATA_WORDS).expect("fits") + 8)).collect();
    let dw = DataWords::from_slice(&words);
    assert_eq!(dw.len(), MAX_DATA_WORDS);
    assert_eq!(dw.as_slice(), &words[..MAX_DATA_WORDS]);
}

/// Requirements: L2-DEC-004
#[test]
fn command_word_predicates() {
    let bcast = CommandWord {
        rt: 31,
        direction: Direction::Receive,
        subaddress: 5,
        data_word_count: 1,
        raw: 0,
    };
    assert!(bcast.is_broadcast());
    assert!(!bcast.is_mode_code());

    let mode = CommandWord {
        rt: 1,
        direction: Direction::Transmit,
        subaddress: 0,
        data_word_count: 1,
        raw: 0,
    };
    assert!(!mode.is_broadcast());
    assert!(mode.is_mode_code());
}

/// Requirements: L2-ERR-003
#[test]
fn error_code_classification() {
    assert!(is_known_ddc_error_code(ERROR_MANCHESTER_PARITY));
    assert!(is_known_custom_error_code(ERROR_SPURIOUS_STANDALONE));
    assert!(is_known_error_code(ERROR_INVERTED_SYNC));
    assert!(!is_known_error_code(0xDEAD));
    assert_eq!(
        ddc_error_description(ERROR_NO_RESPONSE),
        "No Status Response or Too Few Data Words"
    );
    assert_eq!(ddc_error_description(0x9999), "");
}

/// Requirements: L2-DEC-002, L2-DEC-007
#[test]
fn timestamp_word_counts() {
    assert_eq!(timestamp_word_count(TimestampFormat::Irig), 3);
    assert_eq!(timestamp_word_count(TimestampFormat::Standard), 2);
}

/// Requirements: L2-MSG-003
#[test]
fn msg_label_and_delta_key() {
    let msg = make_msg(15, Direction::Receive, 11);
    assert_eq!(msg.msg_label(), "11R");
    assert_eq!(msg.delta_key(), "15:11R");

    let msg = make_msg(15, Direction::Transmit, 22);
    assert_eq!(msg.msg_label(), "22T");
}

/// Requirements: L2-MSG-003
#[test]
fn rt_and_subaddress_shortcuts() {
    let msg = make_msg(15, Direction::Receive, 11);
    assert_eq!(msg.rt(), Some(15));
    assert_eq!(msg.subaddress(), Some(11));

    // SPURIOUS_DATA carries no Command Word, so both shortcuts are None.
    let mut spurious = make_msg(15, Direction::Receive, 11);
    spurious.command_word = None;
    assert_eq!(spurious.rt(), None);
    assert_eq!(spurious.subaddress(), None);
}

fn make_msg(rt: u8, dir: Direction, sa: u8) -> MieMessage {
    MieMessage {
        timestamp: Timestamp::Standard(StandardTimestamp {
            raw_value: 0,
            upper_word: 0,
            lower_word: 0,
        }),
        type_word: TypeWord {
            message_type: 0x02,
            bus: Bus::A,
            word_count: 5,
            error: false,
            raw: 0,
        },
        message_format: MessageFormat::Receive,
        command_word: Some(CommandWord {
            rt,
            direction: dir,
            subaddress: sa,
            data_word_count: 1,
            raw: 0,
        }),
        command_word_2: None,
        status_word: None,
        status_word_2: None,
        data_words: DataWords::new(),
        error_word: None,
        delta_us: Some(0),
        file_offset: 0,
        mux: None,
    }
}

// -- Calendar resolution and the three renderings (L2-WRT-025/026) ------

/// Requirements: L2-WRT-025
#[test]
fn leap_year_rule_is_proleptic_gregorian() {
    // Divisible by 4 -> leap, except centuries, which need 400.
    for year in [1996u16, 2000, 2004, 2020, 2024, 2028, 1600] {
        assert!(is_leap_year(year), "{year} should be a leap year");
    }
    for year in [1900u16, 1999, 2001, 2025, 2026, 2027, 2100, 2200, 2300] {
        assert!(!is_leap_year(year), "{year} should be a common year");
    }
}

/// The same day-of-year lands on different calendar days either side of a
/// leap day. This is the whole reason a calendar rendering needs a year,
/// and the example is the one from the format documentation.
///
/// Requirements: L2-WRT-025, L2-WRT-026
#[test]
fn day_of_year_192_shifts_by_one_across_leap_and_common_years() {
    assert_eq!(day_of_year_to_month_day(2024, 192), Some((7, 10)));
    assert_eq!(day_of_year_to_month_day(2028, 192), Some((7, 10)));
    assert_eq!(day_of_year_to_month_day(2025, 192), Some((7, 11)));
    assert_eq!(day_of_year_to_month_day(2026, 192), Some((7, 11)));
}

/// Requirements: L2-WRT-025
#[test]
fn day_of_year_resolves_at_month_boundaries() {
    // Common year: day 59 is Feb 28, 60 is Mar 1.
    assert_eq!(day_of_year_to_month_day(2026, 1), Some((1, 1)));
    assert_eq!(day_of_year_to_month_day(2026, 31), Some((1, 31)));
    assert_eq!(day_of_year_to_month_day(2026, 32), Some((2, 1)));
    assert_eq!(day_of_year_to_month_day(2026, 59), Some((2, 28)));
    assert_eq!(day_of_year_to_month_day(2026, 60), Some((3, 1)));
    assert_eq!(day_of_year_to_month_day(2026, 365), Some((12, 31)));

    // Leap year: 60 is the leap day itself, and everything after shifts.
    assert_eq!(day_of_year_to_month_day(2024, 59), Some((2, 28)));
    assert_eq!(day_of_year_to_month_day(2024, 60), Some((2, 29)));
    assert_eq!(day_of_year_to_month_day(2024, 61), Some((3, 1)));
    assert_eq!(day_of_year_to_month_day(2024, 366), Some((12, 31)));
}

/// Day 366 exists only in a leap year. It must not silently roll into the
/// next January (L2-WRT-026 clause 3).
///
/// Requirements: L2-WRT-026
#[test]
fn day_366_has_no_date_in_a_common_year() {
    assert_eq!(day_of_year_to_month_day(2026, 366), None);
    assert_eq!(day_of_year_to_month_day(1900, 366), None);
    assert_eq!(day_of_year_to_month_day(2024, 366), Some((12, 31)));

    // Out of range in either direction, in either kind of year.
    for year in [2024u16, 2026] {
        assert_eq!(day_of_year_to_month_day(year, 0), None);
        assert_eq!(day_of_year_to_month_day(year, 367), None);
        assert_eq!(day_of_year_to_month_day(year, u16::MAX), None);
    }
}

/// Every day of both year kinds resolves, in order, with each month
/// receiving exactly its own length. Cheap enough to run exhaustively, and
/// it catches an off-by-one in the accumulator that spot checks would miss.
///
/// Requirements: L2-WRT-025
#[test]
fn every_day_of_year_resolves_in_ascending_order() {
    for year in [2024u16, 2026] {
        let leap = is_leap_year(year);
        let length = if leap { 366 } else { 365 };
        let mut seen_per_month = [0u16; 13];
        let mut previous = (0u8, 0u8);

        for day in 1..=length {
            let resolved = day_of_year_to_month_day(year, day)
                .unwrap_or_else(|| panic!("day {day} of {year} did not resolve"));
            assert!(
                resolved > previous,
                "day {day} of {year} resolved to {resolved:?}, not after {previous:?}"
            );
            previous = resolved;
            seen_per_month[resolved.0 as usize] += 1;
        }

        for (index, &base) in COMMON_YEAR_MONTH_LENGTHS.iter().enumerate() {
            let expected = if index == 1 && leap { base + 1 } else { base };
            assert_eq!(
                seen_per_month[index + 1],
                expected,
                "month {} of {year} had the wrong number of days",
                index + 1
            );
        }
    }
}

/// Requirements: L2-WRT-025
#[test]
fn utc_offset_renders_z_at_zero_and_signed_hhmm_otherwise() {
    assert_eq!(format_utc_offset(0), "Z");
    assert_eq!(format_utc_offset(-300), "-05:00");
    assert_eq!(format_utc_offset(330), "+05:30");
    assert_eq!(format_utc_offset(60), "+01:00");
    assert_eq!(format_utc_offset(-1), "-00:01");
    assert_eq!(format_utc_offset(1439), "+23:59");
}

fn sample_irig() -> IrigTimestamp {
    IrigTimestamp {
        day: 192,
        hour: 15,
        minute: 54,
        second: 50,
        microsecond: 456_225,
        freerun: false,
    }
}

/// The default rendering must stay byte-identical to what `format()`
/// produced before rendering became selectable -- that is what keeps a
/// no-flag decode vendor-diffable (L1-OUT-004).
///
/// Requirements: L2-WRT-011, L2-WRT-025
#[test]
fn doy_rendering_is_unaffected_by_year_or_offset() {
    let ts = sample_irig();
    let expected = "192:15:54:50.456225";
    assert_eq!(ts.format(), expected);
    assert_eq!(ts.format_with(TimeRender::doy()).unwrap(), expected);

    // A year and an offset are inert under `doy` (L2-WRT-026 clause 5).
    let noisy = TimeRender {
        format: OutputTimeFormat::Doy,
        year: Some(2024),
        utc_offset_minutes: -300,
    };
    assert_eq!(ts.format_with(noisy).unwrap(), expected);
}

/// Requirements: L2-WRT-025
#[test]
fn iso_and_dom_render_the_resolved_calendar_date() {
    let ts = sample_irig();

    let iso_leap = TimeRender {
        format: OutputTimeFormat::Iso,
        year: Some(2024),
        utc_offset_minutes: 0,
    };
    assert_eq!(
        ts.format_with(iso_leap).unwrap(),
        "2024-07-10T15:54:50.456225Z"
    );

    let iso_common = TimeRender {
        format: OutputTimeFormat::Iso,
        year: Some(2026),
        utc_offset_minutes: 0,
    };
    assert_eq!(
        ts.format_with(iso_common).unwrap(),
        "2026-07-11T15:54:50.456225Z"
    );

    let iso_offset = TimeRender {
        format: OutputTimeFormat::Iso,
        year: Some(2026),
        utc_offset_minutes: -300,
    };
    assert_eq!(
        ts.format_with(iso_offset).unwrap(),
        "2026-07-11T15:54:50.456225-05:00"
    );

    let dom_leap = TimeRender {
        format: OutputTimeFormat::Dom,
        year: Some(2024),
        utc_offset_minutes: 0,
    };
    assert_eq!(ts.format_with(dom_leap).unwrap(), "10:15:54:50.456225");

    let dom_common = TimeRender {
        format: OutputTimeFormat::Dom,
        year: Some(2026),
        utc_offset_minutes: 0,
    };
    assert_eq!(ts.format_with(dom_common).unwrap(), "11:15:54:50.456225");
}

/// Every rendering emits exactly six microsecond digits; the wider ISO cell
/// does not relax L2-DEC-014.
///
/// Requirements: L2-DEC-014, L2-WRT-025
#[test]
fn all_renderings_emit_exactly_six_microsecond_digits() {
    for micro in [0u32, 1, 999_999, 1_000_000, 1_234_567] {
        let ts = IrigTimestamp {
            microsecond: micro,
            ..sample_irig()
        };
        for format in [
            OutputTimeFormat::Doy,
            OutputTimeFormat::Iso,
            OutputTimeFormat::Dom,
        ] {
            let rendered = ts
                .format_with(TimeRender {
                    format,
                    year: Some(2026),
                    utc_offset_minutes: 0,
                })
                .unwrap();
            let fraction = rendered.split('.').next_back().unwrap();
            // ISO appends a zone designator after the fraction.
            let digits = fraction.chars().take_while(char::is_ascii_digit).count();
            assert_eq!(digits, 6, "{format:?} rendered {rendered:?}");
        }
    }
}

/// Requirements: L2-WRT-026
#[test]
fn calendar_renderings_refuse_rather_than_approximate() {
    let leap_day = IrigTimestamp {
        day: 366,
        ..sample_irig()
    };

    for format in [OutputTimeFormat::Iso, OutputTimeFormat::Dom] {
        // No year resolved at all.
        assert_eq!(
            sample_irig().format_with(TimeRender {
                format,
                year: None,
                utc_offset_minutes: 0,
            }),
            Err(CalendarError::MissingYear)
        );

        // Day 366 against a common year has no date to render.
        assert_eq!(
            leap_day.format_with(TimeRender {
                format,
                year: Some(2026),
                utc_offset_minutes: 0,
            }),
            Err(CalendarError::NoSuchDay {
                day: 366,
                year: 2026
            })
        );

        // The same record renders fine once the year actually has that day.
        assert!(
            leap_day
                .format_with(TimeRender {
                    format,
                    year: Some(2024),
                    utc_offset_minutes: 0,
                })
                .is_ok()
        );
    }

    // `doy` never needs a calendar and so never refuses.
    assert!(leap_day.format_with(TimeRender::doy()).is_ok());
}

/// A Standard counter renders as raw hex under `doy` and REFUSES the
/// calendar renderings -- it has no epoch, so no year can place it on a
/// calendar, and emitting hex into a column the operator asked to be
/// ISO-8601 would be its own kind of lie (L2-WRT-026 clause 2).
///
/// Requirements: L2-WRT-025, L2-WRT-026
#[test]
fn standard_counter_refuses_calendar_renderings() {
    let ts = Timestamp::Standard(StandardTimestamp {
        raw_value: 100_000,
        upper_word: 0x0001,
        lower_word: 0x86A0,
    });

    assert_eq!(ts.format_with(TimeRender::doy()).unwrap(), "0x000186A0");

    for format in [OutputTimeFormat::Iso, OutputTimeFormat::Dom] {
        assert_eq!(
            ts.format_with(TimeRender {
                format,
                year: Some(2026),
                utc_offset_minutes: 0,
            }),
            Err(CalendarError::NotCalendarLocked),
            "{format:?} must refuse a free-running counter"
        );
    }
}

/// A freerun IRIG record has calendar-shaped fields that are not
/// calendar-anchored, which makes it the most dangerous case of the three:
/// it would render as a perfectly ordinary date (L2-WRT-026 clause 2).
///
/// Requirements: L2-WRT-026
#[test]
fn freerun_irig_refuses_calendar_renderings() {
    let freerun = IrigTimestamp {
        freerun: true,
        ..sample_irig()
    };

    // `doy` is unaffected -- it prints the fields without interpreting them.
    assert_eq!(
        freerun.format_with(TimeRender::doy()).unwrap(),
        "192:15:54:50.456225"
    );

    for format in [OutputTimeFormat::Iso, OutputTimeFormat::Dom] {
        assert_eq!(
            freerun.format_with(TimeRender {
                format,
                year: Some(2026),
                utc_offset_minutes: 0,
            }),
            Err(CalendarError::FreerunNotAnchored),
            "{format:?} must refuse a freerun timestamp"
        );
        // The same instant, calendar-locked, renders fine -- so the refusal
        // is about the freerun bit and nothing else.
        assert!(
            sample_irig()
                .format_with(TimeRender {
                    format,
                    year: Some(2026),
                    utc_offset_minutes: 0,
                })
                .is_ok()
        );
    }
}

/// Requirements: L2-CLI-018, L2-CFG-012
#[test]
fn output_time_format_names_parse_case_insensitively() {
    for (name, expected) in [
        ("doy", OutputTimeFormat::Doy),
        ("DOY", OutputTimeFormat::Doy),
        ("Iso", OutputTimeFormat::Iso),
        ("ISO", OutputTimeFormat::Iso),
        ("dom", OutputTimeFormat::Dom),
        ("DoM", OutputTimeFormat::Dom),
    ] {
        assert_eq!(OutputTimeFormat::from_name_ci(name), Some(expected));
    }
    for name in ["", "day", "iso8601", "doy ", "elapsed"] {
        assert_eq!(OutputTimeFormat::from_name_ci(name), None);
    }

    assert_eq!(OutputTimeFormat::default(), OutputTimeFormat::Doy);
    assert!(!OutputTimeFormat::Doy.needs_calendar());
    assert!(OutputTimeFormat::Iso.needs_calendar());
    assert!(OutputTimeFormat::Dom.needs_calendar());
}


#[test]
fn data_words_iterate_in_order() {
    let d = mie_decoder::models::DataWords::from_slice(&[7, 8, 9]);
    let seen: Vec<u16> = d.iter().copied().collect();
    assert_eq!(seen, vec![7, 8, 9]);
}

#[test]
fn every_rendering_has_six_fraction_digits() {
    let ts = IrigTimestamp {
        day: 31,
        hour: 1,
        minute: 2,
        second: 3,
        microsecond: 5,
        freerun: false,
    };
    for render in [
        TimeRender::doy(),
        TimeRender { format: OutputTimeFormat::Iso, year: Some(2024), utc_offset_minutes: -90 },
        TimeRender { format: OutputTimeFormat::Dom, year: Some(2024), utc_offset_minutes: 0 },
    ] {
        let s = ts.format_with(render).unwrap();
        let frac = &s[s.rfind('.').unwrap() + 1..];
        assert!(frac.starts_with("000005"), "{s}");
        assert!(!frac[6..].starts_with(|c: char| c.is_ascii_digit()), "{s}");
    }
}
