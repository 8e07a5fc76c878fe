use mie_decoder::error::MieError;
use mie_decoder::filter::{FilterConfig, FilterIterExt, Filtered};
use mie_decoder::models::{
    Bus, CommandWord, DataWords, Direction, MessageFormat, MieMessage, StandardTimestamp,
    Timestamp, TypeWord,
};


fn msg(rt: u8, sa: u8, bus: Bus, mt: u8) -> MieMessage {
    MieMessage {
        timestamp: Timestamp::Standard(StandardTimestamp {
            raw_value: 0,
            upper_word: 0,
            lower_word: 0,
        }),
        type_word: TypeWord {
            message_type: mt,
            bus,
            word_count: 5,
            error: false,
            raw: 0,
        },
        message_format: MessageFormat::Receive,
        command_word: Some(CommandWord {
            rt,
            direction: Direction::Receive,
            subaddress: sa,
            data_word_count: 1,
            raw: 0,
        }),
        command_word_2: None,
        status_word: None,
        status_word_2: None,
        data_words: DataWords::new(),
        error_word: None,
        delta_us: Some(0),
        file_offset: 0,
        mux: None,
    }
}

/// Requirements: L2-FLT-001
#[test]
fn empty_config_is_inactive() {
    let cfg = FilterConfig::default();
    assert!(!cfg.is_active());
    assert!(!cfg.should_exclude(&msg(1, 1, Bus::A, 0x02)));
}

/// Requirements: L2-CFG-006
#[test]
fn exclude_by_rt() {
    let cfg = FilterConfig {
        exclude_rts: vec![31],
        ..Default::default()
    };
    assert!(cfg.should_exclude(&msg(31, 0, Bus::A, 0x02)));
    assert!(!cfg.should_exclude(&msg(15, 0, Bus::A, 0x02)));
}

/// Requirements: L2-CFG-006
#[test]
fn exclude_by_type_and_bus() {
    let cfg = FilterConfig {
        exclude_types: vec![0x20],
        exclude_buses: vec![Bus::B],
        ..Default::default()
    };
    assert!(cfg.should_exclude(&msg(1, 1, Bus::A, 0x20)));
    assert!(cfg.should_exclude(&msg(1, 1, Bus::B, 0x02)));
    assert!(!cfg.should_exclude(&msg(1, 1, Bus::A, 0x02)));
}

/// Requirements: L3-RS-010
#[test]
fn include_filters_drop_non_matches() {
    let cfg = FilterConfig {
        include_rts: vec![15],
        ..Default::default()
    };
    assert!(!cfg.should_exclude(&msg(15, 0, Bus::A, 0x02)));
    assert!(cfg.should_exclude(&msg(14, 0, Bus::A, 0x02)));
}

/// Requirements: L2-FLT-001
#[test]
fn iterator_adapter() {
    let msgs: Vec<Result<MieMessage, MieError>> = vec![
        Ok(msg(15, 1, Bus::A, 0x02)),
        Ok(msg(31, 1, Bus::A, 0x02)),
        Ok(msg(0, 1, Bus::B, 0x02)),
    ];
    let cfg = FilterConfig {
        exclude_rts: vec![31],
        ..Default::default()
    };
    let filtered: Vec<MieMessage> = msgs
        .filter_messages(cfg)
        .into_iter()
        .collect::<Result<_, _>>()
        .unwrap();
    assert_eq!(filtered.len(), 2);
    assert_eq!(filtered[0].rt(), Some(15));
    assert_eq!(filtered[1].rt(), Some(0));
}

#[test]
fn the_filter_tally_counts_what_it_saw() {
    let cfg = FilterConfig {
        include_buses: vec![Bus::B],
        ..Default::default()
    };
    let mut f = Filtered::new(cfg);
    assert!(f.is_active());
    assert!(!f.offer(&msg(1, 1, Bus::A, 0x02)));
    assert!(f.offer(&msg(1, 1, Bus::B, 0x02)));
    assert_eq!(f.passed(), 1);
    assert_eq!(f.excluded(), 1);
}

#[test]
fn a_record_without_a_command_word_fails_rt_includes() {
    let cfg = FilterConfig {
        include_subaddresses: vec![1],
        ..Default::default()
    };
    let mut m = msg(1, 1, Bus::A, 0x20);
    assert!(!cfg.should_exclude(&m));
    m.command_word = None;
    assert!(cfg.should_exclude(&m));
}

#[test]
fn an_exclusion_wins_over_an_inclusion() {
    let f = FilterConfig {
        exclude_rts: vec![5],
        include_rts: vec![5],
        ..Default::default()
    };
    assert!(f.should_exclude(&msg(5, 1, Bus::A, 0x02)));
    let none = FilterConfig::default();
    assert!(!none.should_exclude(&msg(5, 1, Bus::B, 0x20)));
}
