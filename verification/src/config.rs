//! The decoder's configuration: built-in defaults, the configuration file's
//! schema, and command-line overrides. Precedence is command line, then the
//! configuration file, then the defaults.
use vstd::prelude::*;

use crate::decode::{
    DEFAULT_DETECT_RECORDS, DEFAULT_MUX_DELIMITER, DEFAULT_MUX_ENABLED, DEFAULT_MUX_FIELD,
};
use crate::filter::FilterConfig;
use crate::models::{
    bus_label, message_type_code, message_type_name, Bus, DeltaScope, ErrorMode, MessageType,
    TimestampFormat,
};
use crate::order::{DEFAULT_MAX_SORT_GROUP, MAX_SORT_GROUP_MAX, MAX_SORT_GROUP_MIN};
use crate::sync::DEFAULT_LOOKAHEAD_RECORDS;
use crate::text::{
    chars_of, debug_str, debug_text, dec, idec, lower_seq, lowered, push_dec, push_idec,
    push_str, same_chars, string_from_chars, string_of, trim, trim_end, trim_start, trimmed, unicode_upper,
    upper_seq, uppered, upper_text,
};
pub use crate::toml_subset::{is_toml_number_literal, parse_toml, TomlDoc, TomlValue};
use crate::toml_subset::{
    Entry, TomlData, TomlScalar, kind_msg, lookup, scalar_view, scalars, toml_entries,
};

verus! {

/// Smallest accepted `decode.detect_records`.
pub const DETECT_RECORDS_MIN: usize = 1;
/// Largest accepted `decode.detect_records`.
pub const DETECT_RECORDS_MAX: usize = 32;
/// Smallest accepted `decode.lookahead_records`.
pub const LOOKAHEAD_RECORDS_MIN: usize = 1;
/// Largest accepted `decode.lookahead_records`.
pub const LOOKAHEAD_RECORDS_MAX: usize = 32;

/// Why a configuration was refused: the message shown to the operator.
#[derive(Debug)]
pub struct ConfigError(pub String);

/// The assembled configuration. The Standard tick rate is kept as the
/// decimal literal that gave it; it is a frequency in hertz, and turning it
/// into a floating-point value is left to the caller.
#[derive(Debug)]
pub struct DecoderConfig {
    pub log_level: String,
    pub time_format: TimestampFormat,
    pub strict: bool,
    pub error_mode: ErrorMode,
    pub filters: FilterConfig,
    pub output_format: String,
    /// Refuse to overwrite an existing destination.
    pub no_clobber: bool,
    /// On unrecoverable sync loss, keep the rows decoded so far.
    pub allow_partial: bool,
    /// Records the timestamp-format probe walks.
    pub detect_records: usize,
    /// Records each validation checks (the candidate and its look-ahead).
    pub lookahead_records: usize,
    /// Standard-counter tick rate in hertz, as written; `None` leaves
    /// Standard records without a `DELTA`.
    pub standard_tick_rate_hz: Option<String>,
    pub mux_enabled: bool,
    pub mux_delimiter: String,
    pub mux_field: i64,
    /// Collapse one bus transaction seen by several recorders into one row.
    pub collapse_duplicates: bool,
    /// Timestamp tolerance for collapsing, in microseconds.
    pub collapse_window_us: u64,
    pub delta_scope: DeltaScope,
    /// Cap on one buffered run of equal timestamps.
    pub max_sort_group: usize,
}

/// The model of a configuration: every field by its value, the filter sets
/// as sequences.
pub struct ConfigView {
    pub log_level: Seq<char>,
    pub time_format: TimestampFormat,
    pub strict: bool,
    pub error_mode: ErrorMode,
    pub exclude_types: Seq<u8>,
    pub exclude_rts: Seq<u8>,
    pub exclude_buses: Seq<Bus>,
    pub exclude_subaddresses: Seq<u8>,
    pub include_types: Seq<u8>,
    pub include_rts: Seq<u8>,
    pub include_buses: Seq<Bus>,
    pub include_subaddresses: Seq<u8>,
    pub output_format: Seq<char>,
    pub no_clobber: bool,
    pub allow_partial: bool,
    pub detect_records: usize,
    pub lookahead_records: usize,
    pub standard_tick_rate_hz: Option<Seq<char>>,
    pub mux_enabled: bool,
    pub mux_delimiter: Seq<char>,
    pub mux_field: i64,
    pub collapse_duplicates: bool,
    pub collapse_window_us: u64,
    pub delta_scope: DeltaScope,
    pub max_sort_group: usize,
}

impl View for DecoderConfig {
    type V = ConfigView;

    open spec fn view(&self) -> ConfigView {
        ConfigView {
            log_level: self.log_level@,
            time_format: self.time_format,
            strict: self.strict,
            error_mode: self.error_mode,
            exclude_types: self.filters.exclude_types@,
            exclude_rts: self.filters.exclude_rts@,
            exclude_buses: self.filters.exclude_buses@,
            exclude_subaddresses: self.filters.exclude_subaddresses@,
            include_types: self.filters.include_types@,
            include_rts: self.filters.include_rts@,
            include_buses: self.filters.include_buses@,
            include_subaddresses: self.filters.include_subaddresses@,
            output_format: self.output_format@,
            no_clobber: self.no_clobber,
            allow_partial: self.allow_partial,
            detect_records: self.detect_records,
            lookahead_records: self.lookahead_records,
            standard_tick_rate_hz: match self.standard_tick_rate_hz {
                Some(t) => Some(t@),
                None => None,
            },
            mux_enabled: self.mux_enabled,
            mux_delimiter: self.mux_delimiter@,
            mux_field: self.mux_field,
            collapse_duplicates: self.collapse_duplicates,
            collapse_window_us: self.collapse_window_us,
            delta_scope: self.delta_scope,
            max_sort_group: self.max_sort_group,
        }
    }
}

/// The built-in defaults.
pub open spec fn default_view() -> ConfigView {
    ConfigView {
        log_level: "WARNING"@,
        time_format: TimestampFormat::Auto,
        strict: false,
        error_mode: ErrorMode::Inline,
        exclude_types: Seq::empty(),
        exclude_rts: Seq::empty(),
        exclude_buses: Seq::empty(),
        exclude_subaddresses: Seq::empty(),
        include_types: Seq::empty(),
        include_rts: Seq::empty(),
        include_buses: Seq::empty(),
        include_subaddresses: Seq::empty(),
        output_format: "csv"@,
        no_clobber: false,
        allow_partial: false,
        detect_records: DEFAULT_DETECT_RECORDS,
        lookahead_records: DEFAULT_LOOKAHEAD_RECORDS,
        standard_tick_rate_hz: None,
        mux_enabled: DEFAULT_MUX_ENABLED,
        mux_delimiter: DEFAULT_MUX_DELIMITER@,
        mux_field: DEFAULT_MUX_FIELD,
        collapse_duplicates: false,
        collapse_window_us: 0,
        delta_scope: DeltaScope::PerFile,
        max_sort_group: DEFAULT_MAX_SORT_GROUP,
    }
}

impl Default for DecoderConfig {
    fn default() -> (c: DecoderConfig)
        ensures
            c@ == default_view(),
    {
        let filters = FilterConfig::default();
        assert(filters.exclude_types@ =~= Seq::<u8>::empty());
        assert(filters.exclude_rts@ =~= Seq::<u8>::empty());
        assert(filters.exclude_buses@ =~= Seq::<Bus>::empty());
        assert(filters.exclude_subaddresses@ =~= Seq::<u8>::empty());
        assert(filters.include_types@ =~= Seq::<u8>::empty());
        assert(filters.include_rts@ =~= Seq::<u8>::empty());
        assert(filters.include_buses@ =~= Seq::<Bus>::empty());
        assert(filters.include_subaddresses@ =~= Seq::<u8>::empty());
        DecoderConfig {
            log_level: string_of("WARNING"),
            time_format: TimestampFormat::Auto,
            strict: false,
            error_mode: ErrorMode::Inline,
            filters,
            output_format: string_of("csv"),
            no_clobber: false,
            allow_partial: false,
            detect_records: DEFAULT_DETECT_RECORDS,
            lookahead_records: DEFAULT_LOOKAHEAD_RECORDS,
            standard_tick_rate_hz: None,
            mux_enabled: DEFAULT_MUX_ENABLED,
            mux_delimiter: string_of(DEFAULT_MUX_DELIMITER),
            mux_field: DEFAULT_MUX_FIELD,
            collapse_duplicates: false,
            collapse_window_us: 0,
            delta_scope: DeltaScope::PerFile,
            max_sort_group: DEFAULT_MAX_SORT_GROUP,
        }
    }
}

// ── Command-line overrides ────────────────────────────────────────────

/// Overrides: each present option replaces the configured value; the
/// filter lists are merged into the configured sets.
#[derive(Debug)]
pub struct ConfigOverrides {
    pub log_level: Option<String>,
    pub time_format: Option<TimestampFormat>,
    pub strict: Option<bool>,
    pub error_mode: Option<ErrorMode>,
    pub output_format: Option<String>,
    pub no_clobber: Option<bool>,
    pub allow_partial: Option<bool>,
    pub detect_records: Option<usize>,
    pub lookahead_records: Option<usize>,
    pub standard_tick_rate_hz: Option<String>,
    pub mux_enabled: Option<bool>,
    pub mux_delimiter: Option<String>,
    pub mux_field: Option<i64>,
    pub collapse_duplicates: Option<bool>,
    pub collapse_window_us: Option<i64>,
    pub delta_scope: Option<DeltaScope>,
    pub max_sort_group: Option<usize>,
    pub exclude_types: Vec<u8>,
    pub exclude_rts: Vec<u8>,
    pub exclude_buses: Vec<Bus>,
    pub exclude_subaddresses: Vec<u8>,
    pub include_types: Vec<u8>,
    pub include_rts: Vec<u8>,
    pub include_buses: Vec<Bus>,
    pub include_subaddresses: Vec<u8>,
}

impl Default for ConfigOverrides {
    fn default() -> (o: ConfigOverrides)
        ensures
            o.log_level is None,
            o.time_format is None,
            o.strict is None,
            o.error_mode is None,
            o.output_format is None,
            o.no_clobber is None,
            o.allow_partial is None,
            o.detect_records is None,
            o.lookahead_records is None,
            o.standard_tick_rate_hz is None,
            o.mux_enabled is None,
            o.mux_delimiter is None,
            o.mux_field is None,
            o.collapse_duplicates is None,
            o.collapse_window_us is None,
            o.delta_scope is None,
            o.max_sort_group is None,
            o.exclude_types@.len() == 0,
            o.exclude_rts@.len() == 0,
            o.exclude_buses@.len() == 0,
            o.exclude_subaddresses@.len() == 0,
            o.include_types@.len() == 0,
            o.include_rts@.len() == 0,
            o.include_buses@.len() == 0,
            o.include_subaddresses@.len() == 0,
    {
        ConfigOverrides {
            log_level: None,
            time_format: None,
            strict: None,
            error_mode: None,
            output_format: None,
            no_clobber: None,
            allow_partial: None,
            detect_records: None,
            lookahead_records: None,
            standard_tick_rate_hz: None,
            mux_enabled: None,
            mux_delimiter: None,
            mux_field: None,
            collapse_duplicates: None,
            collapse_window_us: None,
            delta_scope: None,
            max_sort_group: None,
            exclude_types: Vec::new(),
            exclude_rts: Vec::new(),
            exclude_buses: Vec::new(),
            exclude_subaddresses: Vec::new(),
            include_types: Vec::new(),
            include_rts: Vec::new(),
            include_buses: Vec::new(),
            include_subaddresses: Vec::new(),
        }
    }
}

/// `target` with each element of `source` appended unless already present,
/// in order.
pub open spec fn merge_unique<T>(target: Seq<T>, source: Seq<T>) -> Seq<T>
    decreases source.len(),
{
    if source.len() == 0 {
        target
    } else {
        let m = merge_unique(target, source.drop_last());
        if m.contains(source.last()) {
            m
        } else {
            m.push(source.last())
        }
    }
}

/// The present option, or the configured value.
pub open spec fn pick<T>(o: Option<T>, v: T) -> T {
    match o {
        Some(x) => x,
        None => v,
    }
}

/// The present text option, or the configured text.
pub open spec fn pick_text(o: Option<String>, v: Seq<char>) -> Seq<char> {
    match o {
        Some(x) => x@,
        None => v,
    }
}

/// A configuration with the overrides applied.
pub open spec fn overridden(c: ConfigView, ov: ConfigOverrides) -> ConfigView {
    ConfigView {
        log_level: pick_text(ov.log_level, c.log_level),
        time_format: pick(ov.time_format, c.time_format),
        strict: pick(ov.strict, c.strict),
        error_mode: pick(ov.error_mode, c.error_mode),
        exclude_types: merge_unique(c.exclude_types, ov.exclude_types@),
        exclude_rts: merge_unique(c.exclude_rts, ov.exclude_rts@),
        exclude_buses: merge_unique(c.exclude_buses, ov.exclude_buses@),
        exclude_subaddresses: merge_unique(c.exclude_subaddresses, ov.exclude_subaddresses@),
        include_types: merge_unique(c.include_types, ov.include_types@),
        include_rts: merge_unique(c.include_rts, ov.include_rts@),
        include_buses: merge_unique(c.include_buses, ov.include_buses@),
        include_subaddresses: merge_unique(c.include_subaddresses, ov.include_subaddresses@),
        output_format: pick_text(ov.output_format, c.output_format),
        no_clobber: pick(ov.no_clobber, c.no_clobber),
        allow_partial: pick(ov.allow_partial, c.allow_partial),
        detect_records: pick(ov.detect_records, c.detect_records),
        lookahead_records: pick(ov.lookahead_records, c.lookahead_records),
        standard_tick_rate_hz: match ov.standard_tick_rate_hz {
            Some(t) => Some(t@),
            None => c.standard_tick_rate_hz,
        },
        mux_enabled: pick(ov.mux_enabled, c.mux_enabled),
        mux_delimiter: pick_text(ov.mux_delimiter, c.mux_delimiter),
        mux_field: pick(ov.mux_field, c.mux_field),
        collapse_duplicates: pick(ov.collapse_duplicates, c.collapse_duplicates),
        collapse_window_us: match ov.collapse_window_us {
            Some(w) => if w < 0 {
                0u64
            } else {
                w as u64
            },
            None => c.collapse_window_us,
        },
        delta_scope: pick(ov.delta_scope, c.delta_scope),
        max_sort_group: pick(ov.max_sort_group, c.max_sort_group),
    }
}

fn merge_codes(target: Vec<u8>, source: Vec<u8>) -> (r: Vec<u8>)
    ensures
        r@ == merge_unique(target@, source@),
{
    let ghost start = target@;
    let mut target = target;
    let mut i: usize = 0;
    while i < source.len()
        invariant
            i <= source.len(),
            target@ == merge_unique(start, source@.take(i as int)),
        decreases source.len() - i,
    {
        let v = source[i];
        assert(source@.take(i + 1).drop_last() =~= source@.take(i as int));
        let mut found = false;
        let mut j: usize = 0;
        while j < target.len()
            invariant
                j <= target.len(),
                found == (exists|k: int| 0 <= k < j && target@[k] == v),
            decreases target.len() - j,
        {
            if target[j] == v {
                found = true;
            }
            j = j + 1;
        }
        if !found {
            target.push(v);
        }
        i = i + 1;
    }
    assert(source@.take(source@.len() as int) =~= source@);
    target
}

fn merge_buses(target: Vec<Bus>, source: Vec<Bus>) -> (r: Vec<Bus>)
    ensures
        r@ == merge_unique(target@, source@),
{
    let ghost start = target@;
    let mut target = target;
    let mut i: usize = 0;
    while i < source.len()
        invariant
            i <= source.len(),
            target@ == merge_unique(start, source@.take(i as int)),
        decreases source.len() - i,
    {
        let v = source[i];
        assert(source@.take(i + 1).drop_last() =~= source@.take(i as int));
        let mut found = false;
        let mut j: usize = 0;
        while j < target.len()
            invariant
                j <= target.len(),
                found == (exists|k: int| 0 <= k < j && target@[k] == v),
            decreases target.len() - j,
        {
            if target[j] == v {
                found = true;
            }
            j = j + 1;
        }
        if !found {
            target.push(v);
        }
        i = i + 1;
    }
    assert(source@.take(source@.len() as int) =~= source@);
    target
}

impl DecoderConfig {
    /// This configuration with `ov` applied: every option `ov` holds
    /// replaces the configured one (a negative collapse window counts as
    /// zero), and each filter list is appended to the configured set,
    /// skipping values already there.
    pub fn with_overrides(self, ov: ConfigOverrides) -> (c: DecoderConfig)
        ensures
            c@ == overridden(self@, ov),
    {
        let DecoderConfig {
            log_level: c_log_level,
            time_format: c_time_format,
            strict: c_strict,
            error_mode: c_error_mode,
            filters: c_filters,
            output_format: c_output_format,
            no_clobber: c_no_clobber,
            allow_partial: c_allow_partial,
            detect_records: c_detect_records,
            lookahead_records: c_lookahead_records,
            standard_tick_rate_hz: c_tick,
            mux_enabled: c_mux_enabled,
            mux_delimiter: c_mux_delimiter,
            mux_field: c_mux_field,
            collapse_duplicates: c_collapse,
            collapse_window_us: c_window,
            delta_scope: c_delta_scope,
            max_sort_group: c_max_sort_group,
        } = self;
        let ConfigOverrides {
            log_level,
            time_format,
            strict,
            error_mode,
            output_format,
            no_clobber,
            allow_partial,
            detect_records,
            lookahead_records,
            standard_tick_rate_hz,
            mux_enabled,
            mux_delimiter,
            mux_field,
            collapse_duplicates,
            collapse_window_us,
            delta_scope,
            max_sort_group,
            exclude_types,
            exclude_rts,
            exclude_buses,
            exclude_subaddresses,
            include_types,
            include_rts,
            include_buses,
            include_subaddresses,
        } = ov;
        let FilterConfig {
            exclude_types: f_exclude_types,
            exclude_rts: f_exclude_rts,
            exclude_buses: f_exclude_buses,
            exclude_subaddresses: f_exclude_subaddresses,
            include_types: f_include_types,
            include_rts: f_include_rts,
            include_buses: f_include_buses,
            include_subaddresses: f_include_subaddresses,
        } = c_filters;
        let filters = FilterConfig {
            exclude_types: merge_codes(f_exclude_types, exclude_types),
            exclude_rts: merge_codes(f_exclude_rts, exclude_rts),
            exclude_buses: merge_buses(f_exclude_buses, exclude_buses),
            exclude_subaddresses: merge_codes(f_exclude_subaddresses, exclude_subaddresses),
            include_types: merge_codes(f_include_types, include_types),
            include_rts: merge_codes(f_include_rts, include_rts),
            include_buses: merge_buses(f_include_buses, include_buses),
            include_subaddresses: merge_codes(f_include_subaddresses, include_subaddresses),
        };
        let window: u64 = match collapse_window_us {
            Some(w) => if w < 0 {
                0
            } else {
                w as u64
            },
            None => c_window,
        };
        DecoderConfig {
            log_level: match log_level {
                Some(v) => v,
                None => c_log_level,
            },
            time_format: match time_format {
                Some(v) => v,
                None => c_time_format,
            },
            strict: match strict {
                Some(v) => v,
                None => c_strict,
            },
            error_mode: match error_mode {
                Some(v) => v,
                None => c_error_mode,
            },
            filters,
            output_format: match output_format {
                Some(v) => v,
                None => c_output_format,
            },
            no_clobber: match no_clobber {
                Some(v) => v,
                None => c_no_clobber,
            },
            allow_partial: match allow_partial {
                Some(v) => v,
                None => c_allow_partial,
            },
            detect_records: match detect_records {
                Some(v) => v,
                None => c_detect_records,
            },
            lookahead_records: match lookahead_records {
                Some(v) => v,
                None => c_lookahead_records,
            },
            standard_tick_rate_hz: match standard_tick_rate_hz {
                Some(v) => Some(v),
                None => c_tick,
            },
            mux_enabled: match mux_enabled {
                Some(v) => v,
                None => c_mux_enabled,
            },
            mux_delimiter: match mux_delimiter {
                Some(v) => v,
                None => c_mux_delimiter,
            },
            mux_field: match mux_field {
                Some(v) => v,
                None => c_mux_field,
            },
            collapse_duplicates: match collapse_duplicates {
                Some(v) => v,
                None => c_collapse,
            },
            collapse_window_us: window,
            delta_scope: match delta_scope {
                Some(v) => v,
                None => c_delta_scope,
            },
            max_sort_group: match max_sort_group {
                Some(v) => v,
                None => c_max_sort_group,
            },
        }
    }
}

// ── Value checks ──────────────────────────────────────────────────────

/// The log level names, compared after ASCII upper-casing.
pub open spec fn is_log_level(s: Seq<char>) -> bool {
    let u = upper_seq(s);
    u == "DEBUG"@ || u == "INFO"@ || u == "WARNING"@ || u == "WARN"@ || u == "ERROR"@ || u
        == "CRITICAL"@ || u == "OFF"@
}

/// Whether `s` names a log level, ignoring ASCII case.
pub fn is_log_level_name(s: &str) -> (b: bool)
    ensures
        b == is_log_level(s@),
{
    let u = uppered(s);
    same_chars(&u, "DEBUG") || same_chars(&u, "INFO") || same_chars(&u, "WARNING") || same_chars(
        &u,
        "WARN",
    ) || same_chars(&u, "ERROR") || same_chars(&u, "CRITICAL") || same_chars(&u, "OFF")
}

/// A message built from three pieces.
fn message3(a: &str, b: &str, c: &str) -> (m: String)
    ensures
        m@ == a@ + b@ + c@,
{
    let mut m = String::new();
    push_str(&mut m, a);
    push_str(&mut m, b);
    push_str(&mut m, c);
    assert(m@ =~= a@ + b@ + c@);
    m
}

/// The timestamp format a name gives, ignoring ASCII case.
pub open spec fn time_format_named(s: Seq<char>) -> Option<TimestampFormat> {
    if lower_seq(s) == "auto"@ {
        Some(TimestampFormat::Auto)
    } else if lower_seq(s) == "irig"@ {
        Some(TimestampFormat::Irig)
    } else if lower_seq(s) == "standard"@ {
        Some(TimestampFormat::Standard)
    } else {
        None
    }
}

/// `decode.time_format`.
pub open spec fn time_format_result(s: Seq<char>) -> Result<TimestampFormat, Seq<char>> {
    match time_format_named(s) {
        Some(f) => Ok(f),
        None => Err("Invalid time_format: "@ + debug_str(s) + ". Valid: auto, irig, standard"@),
    }
}

/// Parses a timestamp format name.
pub fn parse_time_format(s: &str) -> (r: Result<TimestampFormat, ConfigError>)
    ensures
        match time_format_result(s@) {
            Ok(f) => r == Ok::<TimestampFormat, ConfigError>(f),
            Err(m) => r matches Err(e) && e.0@ == m,
        },
{
    match TimestampFormat::from_name_ci(s) {
        Some(f) => Ok(f),
        None => Err(
            ConfigError(
                message3("Invalid time_format: ", debug_text(s).as_str(), ". Valid: auto, irig, standard"),
            ),
        ),
    }
}

/// `decode.error_mode`, ignoring ASCII case.
pub open spec fn error_mode_result(s: Seq<char>) -> Result<ErrorMode, Seq<char>> {
    if lower_seq(s) == "separate"@ {
        Ok(ErrorMode::Separate)
    } else if lower_seq(s) == "inline"@ {
        Ok(ErrorMode::Inline)
    } else {
        Err("Invalid error_mode: "@ + debug_str(lower_seq(s)) + ". Valid: separate, inline"@)
    }
}

/// Parses an error routing mode name.
pub fn parse_error_mode(s: &str) -> (r: Result<ErrorMode, ConfigError>)
    ensures
        match error_mode_result(s@) {
            Ok(m) => r == Ok::<ErrorMode, ConfigError>(m),
            Err(m) => r matches Err(e) && e.0@ == m,
        },
{
    let l = lowered(s);
    if same_chars(&l, "separate") {
        Ok(ErrorMode::Separate)
    } else if same_chars(&l, "inline") {
        Ok(ErrorMode::Inline)
    } else {
        let t = string_from_chars(&l);
        Err(
            ConfigError(
                message3("Invalid error_mode: ", debug_text(t.as_str()).as_str(), ". Valid: separate, inline"),
            ),
        )
    }
}

/// The code of a message type given by its canonical name.
pub open spec fn type_code_named(u: Seq<char>) -> Option<u8> {
    if u == "MODE_COMMAND"@ {
        Some(0x01u8)
    } else if u == "BC_TO_RT"@ {
        Some(0x02u8)
    } else if u == "RT_TO_BC"@ {
        Some(0x04u8)
    } else if u == "RT_TO_RT"@ {
        Some(0x08u8)
    } else if u == "BROADCAST_BC_TO_RT"@ {
        Some(0x10u8)
    } else if u == "BROADCAST_RT_TO_RT"@ {
        Some(0x18u8)
    } else if u == "SPURIOUS_DATA"@ {
        Some(0x20u8)
    } else {
        None
    }
}

/// A hexadecimal digit of either case.
pub open spec fn is_hex_char(c: char) -> bool {
    ('0' <= c && c <= '9') || ('a' <= c && c <= 'f') || ('A' <= c && c <= 'F')
}

/// The value of a hexadecimal digit.
pub open spec fn hex_char_value(c: char) -> int {
    if '0' <= c && c <= '9' {
        c as int - 48
    } else if 'a' <= c && c <= 'f' {
        c as int - 87
    } else {
        c as int - 55
    }
}

/// The value of a run of hexadecimal digits.
pub open spec fn hex_digits_value(t: Seq<char>) -> int
    decreases t.len(),
{
    if t.len() == 0 {
        0
    } else {
        hex_digits_value(t.drop_last()) * 16 + hex_char_value(t.last())
    }
}

/// A byte written in hexadecimal as `u8::from_str_radix(t, 16)` reads it:
/// an optional `+`, then at least one hex digit, the value below 256.
pub open spec fn hex_byte(t: Seq<char>) -> Option<u8> {
    hex_digits_byte(
        if t.len() > 0 && t[0] == '+' {
            t.skip(1)
        } else {
            t
        },
    )
}

/// A non-empty run of hexadecimal digits whose value is below 256.
pub open spec fn hex_digits_byte(d: Seq<char>) -> Option<u8> {
    if d.len() > 0 && (forall|i: int| 0 <= i < d.len() ==> is_hex_char(#[trigger] d[i]))
        && hex_digits_value(d) <= 255 {
        Some(hex_digits_value(d) as u8)
    } else {
        None
    }
}

/// A message type given by name (any case, surrounding whitespace ignored)
/// or as a `0x`-prefixed hexadecimal code.
pub open spec fn type_name_result(s: Seq<char>) -> Result<u8, Seq<char>> {
    let u = unicode_upper(trim(s));
    match type_code_named(u) {
        Some(c) => Ok(c),
        None => if u.len() >= 2 && u[0] == '0' && u[1] == 'X' {
            match hex_byte(u.skip(2)) {
                Some(b) => Ok(b),
                None => Err("Invalid hex type code: "@ + debug_str(s)),
            }
        } else {
            Err(
                "Unknown message type: "@ + debug_str(s)
                    + ". Valid: MODE_COMMAND, BC_TO_RT, RT_TO_BC, RT_TO_RT, BROADCAST_BC_TO_RT, BROADCAST_RT_TO_RT, SPURIOUS_DATA"@,
            )
        },
    }
}

/// A message type's name, in any case and with surrounding whitespace,
/// parses to that type's code: parsing inverts `MessageType::name`.
pub proof fn law_type_name_round_trip(m: MessageType, s: Seq<char>)
    requires
        unicode_upper(trim(s)) == message_type_name(m),
    ensures
        type_name_result(s) == Ok::<u8, Seq<char>>(message_type_code(m)),
{
    reveal_strlit("MODE_COMMAND");
    reveal_strlit("BC_TO_RT");
    reveal_strlit("RT_TO_BC");
    reveal_strlit("RT_TO_RT");
    reveal_strlit("BROADCAST_BC_TO_RT");
    reveal_strlit("BROADCAST_RT_TO_RT");
    reveal_strlit("SPURIOUS_DATA");
    assert(type_code_named(message_type_name(m)) == Some(message_type_code(m))) by {
        match m {
            MessageType::ModeCommand => {},
            MessageType::BcToRt => {
                assert("BC_TO_RT"@ != "MODE_COMMAND"@);
            },
            MessageType::RtToBc => {
                assert("RT_TO_BC"@ != "MODE_COMMAND"@);
                assert("RT_TO_BC"@[0] != "BC_TO_RT"@[0]);
            },
            MessageType::RtToRt => {
                assert("RT_TO_RT"@ != "MODE_COMMAND"@);
                assert("RT_TO_RT"@[0] != "BC_TO_RT"@[0]);
                assert("RT_TO_RT"@[6] != "RT_TO_BC"@[6]);
            },
            MessageType::BroadcastBcToRt => {
                assert("BROADCAST_BC_TO_RT"@.len() != "MODE_COMMAND"@.len());
                assert("BROADCAST_BC_TO_RT"@.len() != "BC_TO_RT"@.len());
            },
            MessageType::BroadcastRtToRt => {
                assert("BROADCAST_RT_TO_RT"@.len() != "MODE_COMMAND"@.len());
                assert("BROADCAST_RT_TO_RT"@[10] != "BROADCAST_BC_TO_RT"@[10]);
            },
            MessageType::SpuriousData => {
                assert("SPURIOUS_DATA"@.len() != "MODE_COMMAND"@.len());
                assert("SPURIOUS_DATA"@[0] != "BC_TO_RT"@[0]);
            },
        }
    }
}

fn hex_byte_exec(t: &Vec<char>, start: usize) -> (r: Option<u8>)
    requires
        start <= t.len(),
    ensures
        r == hex_byte(t@.skip(start as int)),
{
    let ghost ts = t@.skip(start as int);
    let first: usize = if start < t.len() && t[start] == '+' {
        start + 1
    } else {
        start
    };
    let ghost d = t@.skip(first as int);
    assert(d =~= (if ts.len() > 0 && ts[0] == '+' {
        ts.skip(1)
    } else {
        ts
    }));
    if first >= t.len() {
        return None;
    }
    let mut acc: u32 = 0;
    let mut over = false;
    let mut i = first;
    assert(t@.subrange(first as int, first as int) =~= Seq::<char>::empty());
    while i < t.len()
        invariant
            first <= i <= t.len(),
            first < t.len(),
            ts == t@.skip(start as int),
            d == t@.skip(first as int),
            d == (if ts.len() > 0 && ts[0] == '+' {
                ts.skip(1)
            } else {
                ts
            }),
            forall|k: int| first <= k < i ==> is_hex_char(#[trigger] t@[k]),
            !over ==> acc as int == hex_digits_value(t@.subrange(first as int, i as int)) && acc
                <= 255,
            over ==> hex_digits_value(t@.subrange(first as int, i as int)) > 255,
        decreases t.len() - i,
    {
        let c = t[i];
        if !(('0' <= c && c <= '9') || ('a' <= c && c <= 'f') || ('A' <= c && c <= 'F')) {
            assert(d[i - first] == c);
            assert(!is_hex_char(d[i - first]));
            assert(!(forall|k: int| 0 <= k < d.len() ==> is_hex_char(#[trigger] d[k])));
            assert(hex_digits_byte(d) is None);
            return None;
        }
        let ghost prev = t@.subrange(first as int, i as int);
        assert(t@.subrange(first as int, i + 1).drop_last() =~= prev);
        let v: u32 = if '0' <= c && c <= '9' {
            (c as u32) - 48
        } else if 'a' <= c && c <= 'f' {
            (c as u32) - 87
        } else {
            (c as u32) - 55
        };
        assert(v as int == hex_char_value(c) && v < 16);
        if !over {
            let next = acc * 16 + v;
            if next > 255 {
                over = true;
            } else {
                acc = next;
            }
        }
        i = i + 1;
    }
    assert(t@.subrange(first as int, t@.len() as int) =~= d);
    assert forall|k: int| 0 <= k < d.len() implies is_hex_char(#[trigger] d[k]) by {
        assert(d[k] == t@[first + k]);
    }
    if over {
        None
    } else {
        Some(acc as u8)
    }
}

/// Parses a message-type identifier: a canonical name such as `BC_TO_RT`,
/// or a hexadecimal code such as `0x02`.
pub fn parse_type_name(s: &str) -> (r: Result<u8, ConfigError>)
    ensures
        match type_name_result(s@) {
            Ok(c) => r matches Ok(x) && x == c,
            Err(m) => r matches Err(e) && e.0@ == m,
        },
{
    let t = trimmed(&chars_of(s));
    let up = upper_text(string_from_chars(&t).as_str());
    let u = chars_of(up.as_str());
    if same_chars(&u, "MODE_COMMAND") {
        return Ok(0x01);
    } else if same_chars(&u, "BC_TO_RT") {
        return Ok(0x02);
    } else if same_chars(&u, "RT_TO_BC") {
        return Ok(0x04);
    } else if same_chars(&u, "RT_TO_RT") {
        return Ok(0x08);
    } else if same_chars(&u, "BROADCAST_BC_TO_RT") {
        return Ok(0x10);
    } else if same_chars(&u, "BROADCAST_RT_TO_RT") {
        return Ok(0x18);
    } else if same_chars(&u, "SPURIOUS_DATA") {
        return Ok(0x20);
    }
    if u.len() >= 2 && u[0] == '0' && u[1] == 'X' {
        match hex_byte_exec(&u, 2) {
            Some(b) => Ok(b),
            None => {
                let mut m = String::new();
                push_str(&mut m, "Invalid hex type code: ");
                push_str(&mut m, debug_text(s).as_str());
                assert(m@ =~= "Invalid hex type code: "@ + debug_str(s@));
                Err(ConfigError(m))
            },
        }
    } else {
        Err(
            ConfigError(
                message3(
                    "Unknown message type: ",
                    debug_text(s).as_str(),
                    ". Valid: MODE_COMMAND, BC_TO_RT, RT_TO_BC, RT_TO_RT, BROADCAST_BC_TO_RT, BROADCAST_RT_TO_RT, SPURIOUS_DATA",
                ),
            ),
        )
    }
}

/// An `exclude_types` element: a name or code string, or an integer code.
pub open spec fn type_value_result(d: TomlScalar) -> Result<u8, Seq<char>> {
    match d {
        TomlScalar::Text(s) => type_name_result(s),
        TomlScalar::Int(i) => if 0 <= i <= 255 {
            Ok(i as u8)
        } else {
            Err("Type code out of range: "@ + idec(i))
        },
        _ => Err("exclude_types entries must be strings or integers"@),
    }
}

/// Parses an `exclude_types` element.
pub fn parse_type_value(v: &TomlValue) -> (r: Result<u8, ConfigError>)
    ensures
        match type_value_result(scalar_view(*v)) {
            Ok(c) => r matches Ok(x) && x == c,
            Err(m) => r matches Err(e) && e.0@ == m,
        },
{
    match v {
        TomlValue::String(s) => parse_type_name(s.as_str()),
        TomlValue::Int(i) => {
            if 0 <= *i && *i <= 255 {
                Ok(*i as u8)
            } else {
                let mut m = String::new();
                push_str(&mut m, "Type code out of range: ");
                push_idec(&mut m, *i);
                assert(m@ =~= "Type code out of range: "@ + idec(*i as int));
                Err(ConfigError(m))
            }
        },
        _ => Err(ConfigError(string_of("exclude_types entries must be strings or integers"))),
    }
}

/// A bus name, `A` or `B`, ignoring ASCII case and surrounding whitespace.
pub open spec fn bus_name_result(s: Seq<char>) -> Result<Bus, Seq<char>> {
    let u = upper_seq(trim(s));
    if u == "A"@ {
        Ok(Bus::A)
    } else if u == "B"@ {
        Ok(Bus::B)
    } else {
        Err("Invalid bus: "@ + debug_str(u) + ". Valid: A, B"@)
    }
}

/// Parses a bus name.
pub fn parse_bus_name(s: &str) -> (r: Result<Bus, ConfigError>)
    ensures
        match bus_name_result(s@) {
            Ok(b) => r == Ok::<Bus, ConfigError>(b),
            Err(m) => r matches Err(e) && e.0@ == m,
        },
{
    let t = trimmed(&chars_of(s));
    let u = uppered(string_from_chars(&t).as_str());
    if same_chars(&u, "A") {
        Ok(Bus::A)
    } else if same_chars(&u, "B") {
        Ok(Bus::B)
    } else {
        let w = string_from_chars(&u);
        Err(ConfigError(message3("Invalid bus: ", debug_text(w.as_str()).as_str(), ". Valid: A, B")))
    }
}

/// A bus parses back from its own label: `A` to bus A and `B` to bus B.
pub proof fn law_bus_name_round_trip(b: Bus)
    ensures
        bus_name_result(bus_label(b)) == Ok::<Bus, Seq<char>>(b),
{
    reveal_strlit("A");
    reveal_strlit("B");
    let l = bus_label(b);
    assert(trim_start(l) == l);
    assert(trim_end(l) == l);
    assert(upper_seq(l) =~= l);
}

/// An `exclude_buses` element: a bus name string.
pub open spec fn bus_value_result(d: TomlScalar) -> Result<Bus, Seq<char>> {
    match d {
        TomlScalar::Text(s) => bus_name_result(s),
        _ => Err("exclude_buses entries must be strings"@),
    }
}

/// Parses an `exclude_buses` element.
pub fn parse_bus_value(v: &TomlValue) -> (r: Result<Bus, ConfigError>)
    ensures
        match bus_value_result(scalar_view(*v)) {
            Ok(b) => r == Ok::<Bus, ConfigError>(b),
            Err(m) => r matches Err(e) && e.0@ == m,
        },
{
    if let TomlValue::String(s) = v {
        parse_bus_name(s.as_str())
    } else {
        Err(ConfigError(string_of("exclude_buses entries must be strings")))
    }
}

/// An RT address or subaddress element: an integer in `[0, 31]`.
pub open spec fn rt_sa_result(d: TomlScalar, field: Seq<char>) -> Result<u8, Seq<char>> {
    match d {
        TomlScalar::Int(i) => if 0 <= i <= 31 {
            Ok(i as u8)
        } else {
            Err(field + " value out of MIL-STD-1553 range [0, 31]: "@ + idec(i))
        },
        _ => Err(field + " entries must be integers"@),
    }
}

fn parse_int_rt_sa(v: &TomlValue, field: &str) -> (r: Result<u8, ConfigError>)
    ensures
        match rt_sa_result(scalar_view(*v), field@) {
            Ok(c) => r matches Ok(x) && x == c,
            Err(m) => r matches Err(e) && e.0@ == m,
        },
{
    match v {
        TomlValue::Int(i) => {
            if 0 <= *i && *i <= 31 {
                Ok(*i as u8)
            } else {
                let mut m = String::new();
                push_str(&mut m, field);
                push_str(&mut m, " value out of MIL-STD-1553 range [0, 31]: ");
                push_idec(&mut m, *i);
                assert(m@ =~= field@ + " value out of MIL-STD-1553 range [0, 31]: "@ + idec(
                    *i as int,
                ));
                Err(ConfigError(m))
            }
        },
        _ => {
            let mut m = String::new();
            push_str(&mut m, field);
            push_str(&mut m, " entries must be integers");
            assert(m@ =~= field@ + " entries must be integers"@);
            Err(ConfigError(m))
        },
    }
}

/// An integer key checked against `[lo, hi]`.
pub open spec fn range_result(n: int, key: Seq<char>, lo: nat, hi: nat) -> Result<usize, Seq<char>> {
    if lo <= n <= hi {
        Ok(n as usize)
    } else {
        Err(
            "Invalid "@ + key + ": "@ + idec(n) + ". Valid range: ["@ + dec(lo) + ", "@ + dec(hi)
                + "]"@,
        )
    }
}

fn require_int_range(n: i64, key: &str, lo: usize, hi: usize) -> (r: Result<usize, ConfigError>)
    ensures
        match range_result(n as int, key@, lo as nat, hi as nat) {
            Ok(v) => r matches Ok(x) && x == v,
            Err(m) => r matches Err(e) && e.0@ == m,
        },
{
    if n >= 0 && (n as u64) >= (lo as u64) && (n as u64) <= (hi as u64) {
        Ok(n as usize)
    } else {
        let mut m = String::new();
        push_str(&mut m, "Invalid ");
        push_str(&mut m, key);
        push_str(&mut m, ": ");
        push_idec(&mut m, n);
        push_str(&mut m, ". Valid range: [");
        push_dec(&mut m, lo as u64);
        push_str(&mut m, ", ");
        push_dec(&mut m, hi as u64);
        push_str(&mut m, "]");
        assert(m@ =~= "Invalid "@ + key@ + ": "@ + idec(n as int) + ". Valid range: ["@ + dec(
            lo as nat,
        ) + ", "@ + dec(hi as nat) + "]"@);
        Err(ConfigError(m))
    }
}

// ── Sections ──────────────────────────────────────────────────────────

/// A string key: absent, present, or present with another kind of value.
pub open spec fn text_at(es: Seq<Entry>, sec: Seq<char>, key: Seq<char>) -> Result<Option<Seq<char>>, Seq<char>> {
    match lookup(es, sec, key) {
        None => Ok(None),
        Some(TomlData::Text(t)) => Ok(Some(t)),
        Some(_) => Err(kind_msg(sec, key, "a string"@)),
    }
}

/// A boolean key.
pub open spec fn flag_at(es: Seq<Entry>, sec: Seq<char>, key: Seq<char>) -> Result<Option<bool>, Seq<char>> {
    match lookup(es, sec, key) {
        None => Ok(None),
        Some(TomlData::Bool(b)) => Ok(Some(b)),
        Some(_) => Err(kind_msg(sec, key, "a boolean"@)),
    }
}

/// An integer key.
pub open spec fn int_at(es: Seq<Entry>, sec: Seq<char>, key: Seq<char>) -> Result<Option<int>, Seq<char>> {
    match lookup(es, sec, key) {
        None => Ok(None),
        Some(TomlData::Int(i)) => Ok(Some(i)),
        Some(_) => Err(kind_msg(sec, key, "an integer"@)),
    }
}

/// An array key.
pub open spec fn list_at(es: Seq<Entry>, sec: Seq<char>, key: Seq<char>) -> Result<Option<Seq<TomlScalar>>, Seq<char>> {
    match lookup(es, sec, key) {
        None => Ok(None),
        Some(TomlData::List(l)) => Ok(Some(l)),
        Some(_) => Err(kind_msg(sec, key, "an array"@)),
    }
}

/// A number key, as the literal that denotes it.
pub open spec fn number_at(es: Seq<Entry>, sec: Seq<char>, key: Seq<char>) -> Result<Option<Seq<char>>, Seq<char>> {
    match lookup(es, sec, key) {
        None => Ok(None),
        Some(TomlData::Number(t)) => Ok(Some(t)),
        Some(TomlData::Int(i)) => Ok(Some(idec(i))),
        Some(_) => Err(kind_msg(sec, key, "a number"@)),
    }
}

/// The next step when the previous one succeeded.
pub open spec fn and_then(r: Result<ConfigView, Seq<char>>, f: spec_fn(ConfigView) -> Result<ConfigView, Seq<char>>) -> Result<ConfigView, Seq<char>> {
    match r {
        Ok(c) => f(c),
        Err(m) => Err(m),
    }
}

/// An application step succeeded with `after`, or failed with the message.
pub open spec fn applied(r: Result<(), ConfigError>, after: ConfigView, want: Result<ConfigView, Seq<char>>) -> bool {
    match want {
        Ok(v) => r is Ok && after == v,
        Err(m) => r matches Err(e) && e.0@ == m,
    }
}

/// `[logging] level`: a level name, stored upper-cased.
pub open spec fn logging_section(es: Seq<Entry>, c: ConfigView) -> Result<ConfigView, Seq<char>> {
    match text_at(es, "logging"@, "level"@) {
        Err(m) => Err(m),
        Ok(None) => Ok(c),
        Ok(Some(level)) => if is_log_level(unicode_upper(level)) {
            Ok(ConfigView { log_level: unicode_upper(level), ..c })
        } else {
            Err(
                "Invalid logging.level: "@ + debug_str(level)
                    + ". Valid: DEBUG, INFO, WARNING, WARN, ERROR, CRITICAL, OFF"@,
            )
        },
    }
}

/// `[decode] time_format`.
pub open spec fn step_time_format(es: Seq<Entry>, c: ConfigView) -> Result<ConfigView, Seq<char>> {
    match text_at(es, "decode"@, "time_format"@) {
        Err(m) => Err(m),
        Ok(None) => Ok(c),
        Ok(Some(t)) => match time_format_result(t) {
            Ok(f) => Ok(ConfigView { time_format: f, ..c }),
            Err(m) => Err(m),
        },
    }
}

/// `[decode] strict`.
pub open spec fn step_strict(es: Seq<Entry>, c: ConfigView) -> Result<ConfigView, Seq<char>> {
    match flag_at(es, "decode"@, "strict"@) {
        Err(m) => Err(m),
        Ok(None) => Ok(c),
        Ok(Some(b)) => Ok(ConfigView { strict: b, ..c }),
    }
}

/// `[decode] error_mode`.
pub open spec fn step_error_mode(es: Seq<Entry>, c: ConfigView) -> Result<ConfigView, Seq<char>> {
    match text_at(es, "decode"@, "error_mode"@) {
        Err(m) => Err(m),
        Ok(None) => Ok(c),
        Ok(Some(t)) => match error_mode_result(t) {
            Ok(e) => Ok(ConfigView { error_mode: e, ..c }),
            Err(m) => Err(m),
        },
    }
}

/// `[decode] allow_partial`.
pub open spec fn step_allow_partial(es: Seq<Entry>, c: ConfigView) -> Result<ConfigView, Seq<char>> {
    match flag_at(es, "decode"@, "allow_partial"@) {
        Err(m) => Err(m),
        Ok(None) => Ok(c),
        Ok(Some(b)) => Ok(ConfigView { allow_partial: b, ..c }),
    }
}

/// `[decode] detect_records`, within its range.
pub open spec fn step_detect_records(es: Seq<Entry>, c: ConfigView) -> Result<ConfigView, Seq<char>> {
    match int_at(es, "decode"@, "detect_records"@) {
        Err(m) => Err(m),
        Ok(None) => Ok(c),
        Ok(Some(n)) => match range_result(
            n,
            "decode.detect_records"@,
            DETECT_RECORDS_MIN as nat,
            DETECT_RECORDS_MAX as nat,
        ) {
            Ok(v) => Ok(ConfigView { detect_records: v, ..c }),
            Err(m) => Err(m),
        },
    }
}

/// `[decode] lookahead_records`, within its range.
pub open spec fn step_lookahead_records(es: Seq<Entry>, c: ConfigView) -> Result<ConfigView, Seq<char>> {
    match int_at(es, "decode"@, "lookahead_records"@) {
        Err(m) => Err(m),
        Ok(None) => Ok(c),
        Ok(Some(n)) => match range_result(
            n,
            "decode.lookahead_records"@,
            LOOKAHEAD_RECORDS_MIN as nat,
            LOOKAHEAD_RECORDS_MAX as nat,
        ) {
            Ok(v) => Ok(ConfigView { lookahead_records: v, ..c }),
            Err(m) => Err(m),
        },
    }
}

/// `[decode] standard_tick_rate_hz`, kept as written.
pub open spec fn step_tick_rate(es: Seq<Entry>, c: ConfigView) -> Result<ConfigView, Seq<char>> {
    match number_at(es, "decode"@, "standard_tick_rate_hz"@) {
        Err(m) => Err(m),
        Ok(None) => Ok(c),
        Ok(Some(t)) => Ok(ConfigView { standard_tick_rate_hz: Some(t), ..c }),
    }
}

/// `[decode]`, key by key in this order.
pub open spec fn decode_section(es: Seq<Entry>, c: ConfigView) -> Result<ConfigView, Seq<char>> {
    let r1 = step_time_format(es, c);
    let r2 = and_then(r1, |x: ConfigView| step_strict(es, x));
    let r3 = and_then(r2, |x: ConfigView| step_error_mode(es, x));
    let r4 = and_then(r3, |x: ConfigView| step_allow_partial(es, x));
    let r5 = and_then(r4, |x: ConfigView| step_detect_records(es, x));
    let r6 = and_then(r5, |x: ConfigView| step_lookahead_records(es, x));
    and_then(r6, |x: ConfigView| step_tick_rate(es, x))
}

/// `[output] format`: only `csv`.
pub open spec fn step_output_format(es: Seq<Entry>, c: ConfigView) -> Result<ConfigView, Seq<char>> {
    match text_at(es, "output"@, "format"@) {
        Err(m) => Err(m),
        Ok(None) => Ok(c),
        Ok(Some(f)) => if f == "csv"@ {
            Ok(ConfigView { output_format: f, ..c })
        } else {
            Err("Invalid output.format: "@ + debug_str(f) + ". Valid: csv"@)
        },
    }
}

/// `[output] no_clobber`.
pub open spec fn step_no_clobber(es: Seq<Entry>, c: ConfigView) -> Result<ConfigView, Seq<char>> {
    match flag_at(es, "output"@, "no_clobber"@) {
        Err(m) => Err(m),
        Ok(None) => Ok(c),
        Ok(Some(b)) => Ok(ConfigView { no_clobber: b, ..c }),
    }
}

/// `[output] max_sort_group`, within its range.
pub open spec fn step_max_sort_group(es: Seq<Entry>, c: ConfigView) -> Result<ConfigView, Seq<char>> {
    match int_at(es, "output"@, "max_sort_group"@) {
        Err(m) => Err(m),
        Ok(None) => Ok(c),
        Ok(Some(n)) => match range_result(
            n,
            "output.max_sort_group"@,
            MAX_SORT_GROUP_MIN as nat,
            MAX_SORT_GROUP_MAX as nat,
        ) {
            Ok(v) => Ok(ConfigView { max_sort_group: v, ..c }),
            Err(m) => Err(m),
        },
    }
}

/// `[output]`.
pub open spec fn output_section(es: Seq<Entry>, c: ConfigView) -> Result<ConfigView, Seq<char>> {
    let r1 = step_output_format(es, c);
    let r2 = and_then(r1, |x: ConfigView| step_no_clobber(es, x));
    and_then(r2, |x: ConfigView| step_max_sort_group(es, x))
}

/// `[mux] enabled`.
pub open spec fn step_mux_enabled(es: Seq<Entry>, c: ConfigView) -> Result<ConfigView, Seq<char>> {
    match flag_at(es, "mux"@, "enabled"@) {
        Err(m) => Err(m),
        Ok(None) => Ok(c),
        Ok(Some(b)) => Ok(ConfigView { mux_enabled: b, ..c }),
    }
}

/// `[mux] delimiter`: not empty.
pub open spec fn step_mux_delimiter(es: Seq<Entry>, c: ConfigView) -> Result<ConfigView, Seq<char>> {
    match text_at(es, "mux"@, "delimiter"@) {
        Err(m) => Err(m),
        Ok(None) => Ok(c),
        Ok(Some(d)) => if d.len() == 0 {
            Err("Invalid mux.delimiter: must be a non-empty string"@)
        } else {
            Ok(ConfigView { mux_delimiter: d, ..c })
        },
    }
}

/// `[mux] field`: any integer.
pub open spec fn step_mux_field(es: Seq<Entry>, c: ConfigView) -> Result<ConfigView, Seq<char>> {
    match int_at(es, "mux"@, "field"@) {
        Err(m) => Err(m),
        Ok(None) => Ok(c),
        Ok(Some(n)) => Ok(ConfigView { mux_field: n as i64, ..c }),
    }
}

/// `[mux]`.
pub open spec fn mux_section(es: Seq<Entry>, c: ConfigView) -> Result<ConfigView, Seq<char>> {
    let r1 = step_mux_enabled(es, c);
    let r2 = and_then(r1, |x: ConfigView| step_mux_delimiter(es, x));
    and_then(r2, |x: ConfigView| step_mux_field(es, x))
}

/// `[merge] collapse_duplicates`.
pub open spec fn step_collapse(es: Seq<Entry>, c: ConfigView) -> Result<ConfigView, Seq<char>> {
    match flag_at(es, "merge"@, "collapse_duplicates"@) {
        Err(m) => Err(m),
        Ok(None) => Ok(c),
        Ok(Some(b)) => Ok(ConfigView { collapse_duplicates: b, ..c }),
    }
}

/// `[merge] delta_scope`, ignoring ASCII case.
pub open spec fn step_delta_scope(es: Seq<Entry>, c: ConfigView) -> Result<ConfigView, Seq<char>> {
    match text_at(es, "merge"@, "delta_scope"@) {
        Err(m) => Err(m),
        Ok(None) => Ok(c),
        Ok(Some(t)) => if lower_seq(t) == "per-file"@ {
            Ok(ConfigView { delta_scope: DeltaScope::PerFile, ..c })
        } else if lower_seq(t) == "global"@ {
            Ok(ConfigView { delta_scope: DeltaScope::Global, ..c })
        } else {
            Err("Invalid merge.delta_scope: "@ + debug_str(t) + ". Valid: per-file, global"@)
        },
    }
}

/// `[merge] collapse_window_us`: not negative.
pub open spec fn step_window(es: Seq<Entry>, c: ConfigView) -> Result<ConfigView, Seq<char>> {
    match int_at(es, "merge"@, "collapse_window_us"@) {
        Err(m) => Err(m),
        Ok(None) => Ok(c),
        Ok(Some(n)) => if n < 0 {
            Err(
                "Invalid merge.collapse_window_us: "@ + idec(n)
                    + "; must be a non-negative integer"@,
            )
        } else {
            Ok(ConfigView { collapse_window_us: n as u64, ..c })
        },
    }
}

/// `[merge]`.
pub open spec fn merge_section(es: Seq<Entry>, c: ConfigView) -> Result<ConfigView, Seq<char>> {
    let r1 = step_collapse(es, c);
    let r2 = and_then(r1, |x: ConfigView| step_delta_scope(es, x));
    and_then(r2, |x: ConfigView| step_window(es, x))
}

/// The type codes of the first `k` elements, or the first error.
pub open spec fn type_codes(l: Seq<TomlScalar>, k: int) -> Result<Seq<u8>, Seq<char>>
    decreases k,
{
    if k <= 0 {
        Ok(Seq::empty())
    } else {
        match type_codes(l, k - 1) {
            Err(m) => Err(m),
            Ok(v) => match type_value_result(l[k - 1]) {
                Ok(b) => Ok(v.push(b)),
                Err(m) => Err(m),
            },
        }
    }
}

/// The addresses of the first `k` elements, or the first error.
pub open spec fn address_codes(l: Seq<TomlScalar>, field: Seq<char>, k: int) -> Result<Seq<u8>, Seq<char>>
    decreases k,
{
    if k <= 0 {
        Ok(Seq::empty())
    } else {
        match address_codes(l, field, k - 1) {
            Err(m) => Err(m),
            Ok(v) => match rt_sa_result(l[k - 1], field) {
                Ok(b) => Ok(v.push(b)),
                Err(m) => Err(m),
            },
        }
    }
}

/// The buses of the first `k` elements, or the first error.
pub open spec fn bus_codes(l: Seq<TomlScalar>, k: int) -> Result<Seq<Bus>, Seq<char>>
    decreases k,
{
    if k <= 0 {
        Ok(Seq::empty())
    } else {
        match bus_codes(l, k - 1) {
            Err(m) => Err(m),
            Ok(v) => match bus_value_result(l[k - 1]) {
                Ok(b) => Ok(v.push(b)),
                Err(m) => Err(m),
            },
        }
    }
}

/// `[filter] exclude_types`: each element appended.
pub open spec fn step_exclude_types(es: Seq<Entry>, c: ConfigView) -> Result<ConfigView, Seq<char>> {
    match list_at(es, "filter"@, "exclude_types"@) {
        Err(m) => Err(m),
        Ok(None) => Ok(c),
        Ok(Some(l)) => match type_codes(l, l.len() as int) {
            Ok(v) => Ok(ConfigView { exclude_types: c.exclude_types + v, ..c }),
            Err(m) => Err(m),
        },
    }
}

/// `[filter] exclude_rts`.
pub open spec fn step_exclude_rts(es: Seq<Entry>, c: ConfigView) -> Result<ConfigView, Seq<char>> {
    match list_at(es, "filter"@, "exclude_rts"@) {
        Err(m) => Err(m),
        Ok(None) => Ok(c),
        Ok(Some(l)) => match address_codes(l, "exclude_rts"@, l.len() as int) {
            Ok(v) => Ok(ConfigView { exclude_rts: c.exclude_rts + v, ..c }),
            Err(m) => Err(m),
        },
    }
}

/// `[filter] exclude_buses`.
pub open spec fn step_exclude_buses(es: Seq<Entry>, c: ConfigView) -> Result<ConfigView, Seq<char>> {
    match list_at(es, "filter"@, "exclude_buses"@) {
        Err(m) => Err(m),
        Ok(None) => Ok(c),
        Ok(Some(l)) => match bus_codes(l, l.len() as int) {
            Ok(v) => Ok(ConfigView { exclude_buses: c.exclude_buses + v, ..c }),
            Err(m) => Err(m),
        },
    }
}

/// `[filter] exclude_subaddresses`.
pub open spec fn step_exclude_subaddresses(es: Seq<Entry>, c: ConfigView) -> Result<ConfigView, Seq<char>> {
    match list_at(es, "filter"@, "exclude_subaddresses"@) {
        Err(m) => Err(m),
        Ok(None) => Ok(c),
        Ok(Some(l)) => match address_codes(l, "exclude_subaddresses"@, l.len() as int) {
            Ok(v) => Ok(ConfigView { exclude_subaddresses: c.exclude_subaddresses + v, ..c }),
            Err(m) => Err(m),
        },
    }
}

/// `[filter]`.
pub open spec fn filter_section(es: Seq<Entry>, c: ConfigView) -> Result<ConfigView, Seq<char>> {
    let r1 = step_exclude_types(es, c);
    let r2 = and_then(r1, |x: ConfigView| step_exclude_rts(es, x));
    let r3 = and_then(r2, |x: ConfigView| step_exclude_buses(es, x));
    and_then(r3, |x: ConfigView| step_exclude_subaddresses(es, x))
}

/// The six section names of the schema.
pub open spec fn spec_known_section(name: Seq<char>) -> bool {
    name == "logging"@ || name == "decode"@ || name == "output"@ || name == "mux"@ || name
        == "merge"@ || name == "filter"@
}

/// The first key before any header that names a section, from entry `i` on.
pub open spec fn scalar_section_from(es: Seq<Entry>, i: int) -> Option<Seq<char>>
    decreases es.len() - i,
{
    if i < 0 || i >= es.len() {
        None
    } else if es[i].0.len() == 0 && spec_known_section(es[i].1) {
        Some(es[i].1)
    } else {
        scalar_section_from(es, i + 1)
    }
}

/// The configuration a document's entries give over the defaults: a
/// section name used as a plain key is refused, then the sections apply
/// in order, the first refusal winning.
pub open spec fn config_from_entries(es: Seq<Entry>) -> Result<ConfigView, Seq<char>> {
    match scalar_section_from(es, 0) {
        Some(k) => Err("Invalid ["@ + k + "]: expected a table, not a value"@),
        None => {
            let r1 = logging_section(es, default_view());
            let r2 = and_then(r1, |x: ConfigView| decode_section(es, x));
            let r3 = and_then(r2, |x: ConfigView| output_section(es, x));
            let r4 = and_then(r3, |x: ConfigView| mux_section(es, x));
            let r5 = and_then(r4, |x: ConfigView| merge_section(es, x));
            and_then(r5, |x: ConfigView| filter_section(es, x))
        },
    }
}

/// The configuration a configuration file's text gives.
pub open spec fn config_result(text: Seq<char>) -> Result<ConfigView, Seq<char>> {
    match toml_entries(text) {
        Err(m) => Err(m),
        Ok(es) => config_from_entries(es),
    }
}

// ── Applying the sections ─────────────────────────────────────────────

fn apply_logging_section(toml: &TomlDoc, cfg: &mut DecoderConfig) -> (r: Result<(), ConfigError>)
    ensures
        applied(r, final(cfg)@, logging_section(toml@, old(cfg)@)),
{
    match toml.get_string("logging", "level") {
        Err(e) => Err(e),
        Ok(None) => Ok(()),
        Ok(Some(level)) => {
            let upper = upper_text(level);
            if is_log_level_name(upper.as_str()) {
                cfg.log_level = upper;
                Ok(())
            } else {
                Err(
                    ConfigError(
                        message3(
                            "Invalid logging.level: ",
                            debug_text(level).as_str(),
                            ". Valid: DEBUG, INFO, WARNING, WARN, ERROR, CRITICAL, OFF",
                        ),
                    ),
                )
            }
        },
    }
}

fn apply_time_format(toml: &TomlDoc, cfg: &mut DecoderConfig) -> (r: Result<(), ConfigError>)
    ensures
        applied(r, final(cfg)@, step_time_format(toml@, old(cfg)@)),
{
    match toml.get_string("decode", "time_format") {
        Err(e) => Err(e),
        Ok(None) => Ok(()),
        Ok(Some(t)) => match parse_time_format(t) {
            Ok(f) => {
                cfg.time_format = f;
                Ok(())
            },
            Err(e) => Err(e),
        },
    }
}

fn apply_strict(toml: &TomlDoc, cfg: &mut DecoderConfig) -> (r: Result<(), ConfigError>)
    ensures
        applied(r, final(cfg)@, step_strict(toml@, old(cfg)@)),
{
    match toml.get_bool("decode", "strict") {
        Err(e) => Err(e),
        Ok(None) => Ok(()),
        Ok(Some(b)) => {
            cfg.strict = b;
            Ok(())
        },
    }
}

fn apply_error_mode(toml: &TomlDoc, cfg: &mut DecoderConfig) -> (r: Result<(), ConfigError>)
    ensures
        applied(r, final(cfg)@, step_error_mode(toml@, old(cfg)@)),
{
    match toml.get_string("decode", "error_mode") {
        Err(e) => Err(e),
        Ok(None) => Ok(()),
        Ok(Some(t)) => match parse_error_mode(t) {
            Ok(m) => {
                cfg.error_mode = m;
                Ok(())
            },
            Err(e) => Err(e),
        },
    }
}

fn apply_allow_partial(toml: &TomlDoc, cfg: &mut DecoderConfig) -> (r: Result<(), ConfigError>)
    ensures
        applied(r, final(cfg)@, step_allow_partial(toml@, old(cfg)@)),
{
    match toml.get_bool("decode", "allow_partial") {
        Err(e) => Err(e),
        Ok(None) => Ok(()),
        Ok(Some(b)) => {
            cfg.allow_partial = b;
            Ok(())
        },
    }
}

fn apply_detect_records(toml: &TomlDoc, cfg: &mut DecoderConfig) -> (r: Result<(), ConfigError>)
    ensures
        applied(r, final(cfg)@, step_detect_records(toml@, old(cfg)@)),
{
    match toml.get_int("decode", "detect_records") {
        Err(e) => Err(e),
        Ok(None) => Ok(()),
        Ok(Some(n)) => match require_int_range(
            n,
            "decode.detect_records",
            DETECT_RECORDS_MIN,
            DETECT_RECORDS_MAX,
        ) {
            Ok(v) => {
                cfg.detect_records = v;
                Ok(())
            },
            Err(e) => Err(e),
        },
    }
}

fn apply_lookahead_records(toml: &TomlDoc, cfg: &mut DecoderConfig) -> (r: Result<(), ConfigError>)
    ensures
        applied(r, final(cfg)@, step_lookahead_records(toml@, old(cfg)@)),
{
    match toml.get_int("decode", "lookahead_records") {
        Err(e) => Err(e),
        Ok(None) => Ok(()),
        Ok(Some(n)) => match require_int_range(
            n,
            "decode.lookahead_records",
            LOOKAHEAD_RECORDS_MIN,
            LOOKAHEAD_RECORDS_MAX,
        ) {
            Ok(v) => {
                cfg.lookahead_records = v;
                Ok(())
            },
            Err(e) => Err(e),
        },
    }
}

fn apply_tick_rate(toml: &TomlDoc, cfg: &mut DecoderConfig) -> (r: Result<(), ConfigError>)
    ensures
        applied(r, final(cfg)@, step_tick_rate(toml@, old(cfg)@)),
{
    match toml.get_float("decode", "standard_tick_rate_hz") {
        Err(e) => Err(e),
        Ok(None) => Ok(()),
        Ok(Some(t)) => {
            cfg.standard_tick_rate_hz = Some(t);
            Ok(())
        },
    }
}

fn apply_decode_section(toml: &TomlDoc, cfg: &mut DecoderConfig) -> (r: Result<(), ConfigError>)
    ensures
        applied(r, final(cfg)@, decode_section(toml@, old(cfg)@)),
{
    let r = apply_time_format(toml, cfg);
    if r.is_err() {
        return r;
    }
    let r = apply_strict(toml, cfg);
    if r.is_err() {
        return r;
    }
    let r = apply_error_mode(toml, cfg);
    if r.is_err() {
        return r;
    }
    let r = apply_allow_partial(toml, cfg);
    if r.is_err() {
        return r;
    }
    let r = apply_detect_records(toml, cfg);
    if r.is_err() {
        return r;
    }
    let r = apply_lookahead_records(toml, cfg);
    if r.is_err() {
        return r;
    }
    apply_tick_rate(toml, cfg)
}

fn apply_output_format(toml: &TomlDoc, cfg: &mut DecoderConfig) -> (r: Result<(), ConfigError>)
    ensures
        applied(r, final(cfg)@, step_output_format(toml@, old(cfg)@)),
{
    match toml.get_string("output", "format") {
        Err(e) => Err(e),
        Ok(None) => Ok(()),
        Ok(Some(f)) => {
            if crate::text::str_eq(f, "csv") {
                cfg.output_format = string_of(f);
                Ok(())
            } else {
                Err(ConfigError(message3("Invalid output.format: ", debug_text(f).as_str(), ". Valid: csv")))
            }
        },
    }
}

fn apply_no_clobber(toml: &TomlDoc, cfg: &mut DecoderConfig) -> (r: Result<(), ConfigError>)
    ensures
        applied(r, final(cfg)@, step_no_clobber(toml@, old(cfg)@)),
{
    match toml.get_bool("output", "no_clobber") {
        Err(e) => Err(e),
        Ok(None) => Ok(()),
        Ok(Some(b)) => {
            cfg.no_clobber = b;
            Ok(())
        },
    }
}

fn apply_max_sort_group(toml: &TomlDoc, cfg: &mut DecoderConfig) -> (r: Result<(), ConfigError>)
    ensures
        applied(r, final(cfg)@, step_max_sort_group(toml@, old(cfg)@)),
{
    match toml.get_int("output", "max_sort_group") {
        Err(e) => Err(e),
        Ok(None) => Ok(()),
        Ok(Some(n)) => match require_int_range(
            n,
            "output.max_sort_group",
            MAX_SORT_GROUP_MIN,
            MAX_SORT_GROUP_MAX,
        ) {
            Ok(v) => {
                cfg.max_sort_group = v;
                Ok(())
            },
            Err(e) => Err(e),
        },
    }
}

fn apply_output_section(toml: &TomlDoc, cfg: &mut DecoderConfig) -> (r: Result<(), ConfigError>)
    ensures
        applied(r, final(cfg)@, output_section(toml@, old(cfg)@)),
{
    let r = apply_output_format(toml, cfg);
    if r.is_err() {
        return r;
    }
    let r = apply_no_clobber(toml, cfg);
    if r.is_err() {
        return r;
    }
    apply_max_sort_group(toml, cfg)
}

fn apply_mux_enabled(toml: &TomlDoc, cfg: &mut DecoderConfig) -> (r: Result<(), ConfigError>)
    ensures
        applied(r, final(cfg)@, step_mux_enabled(toml@, old(cfg)@)),
{
    match toml.get_bool("mux", "enabled") {
        Err(e) => Err(e),
        Ok(None) => Ok(()),
        Ok(Some(b)) => {
            cfg.mux_enabled = b;
            Ok(())
        },
    }
}

fn apply_mux_delimiter(toml: &TomlDoc, cfg: &mut DecoderConfig) -> (r: Result<(), ConfigError>)
    ensures
        applied(r, final(cfg)@, step_mux_delimiter(toml@, old(cfg)@)),
{
    match toml.get_string("mux", "delimiter") {
        Err(e) => Err(e),
        Ok(None) => Ok(()),
        Ok(Some(d)) => {
            if d.is_empty() {
                Err(ConfigError(string_of("Invalid mux.delimiter: must be a non-empty string")))
            } else {
                cfg.mux_delimiter = string_of(d);
                Ok(())
            }
        },
    }
}

fn apply_mux_field(toml: &TomlDoc, cfg: &mut DecoderConfig) -> (r: Result<(), ConfigError>)
    ensures
        applied(r, final(cfg)@, step_mux_field(toml@, old(cfg)@)),
{
    match toml.get_int("mux", "field") {
        Err(e) => Err(e),
        Ok(None) => Ok(()),
        Ok(Some(n)) => {
            cfg.mux_field = n;
            Ok(())
        },
    }
}

fn apply_mux_section(toml: &TomlDoc, cfg: &mut DecoderConfig) -> (r: Result<(), ConfigError>)
    ensures
        applied(r, final(cfg)@, mux_section(toml@, old(cfg)@)),
{
    let r = apply_mux_enabled(toml, cfg);
    if r.is_err() {
        return r;
    }
    let r = apply_mux_delimiter(toml, cfg);
    if r.is_err() {
        return r;
    }
    apply_mux_field(toml, cfg)
}

fn apply_collapse(toml: &TomlDoc, cfg: &mut DecoderConfig) -> (r: Result<(), ConfigError>)
    ensures
        applied(r, final(cfg)@, step_collapse(toml@, old(cfg)@)),
{
    match toml.get_bool("merge", "collapse_duplicates") {
        Err(e) => Err(e),
        Ok(None) => Ok(()),
        Ok(Some(b)) => {
            cfg.collapse_duplicates = b;
            Ok(())
        },
    }
}

fn apply_delta_scope(toml: &TomlDoc, cfg: &mut DecoderConfig) -> (r: Result<(), ConfigError>)
    ensures
        applied(r, final(cfg)@, step_delta_scope(toml@, old(cfg)@)),
{
    match toml.get_string("merge", "delta_scope") {
        Err(e) => Err(e),
        Ok(None) => Ok(()),
        Ok(Some(t)) => match DeltaScope::from_name_ci(t) {
            Some(d) => {
                cfg.delta_scope = d;
                Ok(())
            },
            None => Err(
                ConfigError(
                    message3(
                        "Invalid merge.delta_scope: ",
                        debug_text(t).as_str(),
                        ". Valid: per-file, global",
                    ),
                ),
            ),
        },
    }
}

fn apply_window(toml: &TomlDoc, cfg: &mut DecoderConfig) -> (r: Result<(), ConfigError>)
    ensures
        applied(r, final(cfg)@, step_window(toml@, old(cfg)@)),
{
    match toml.get_int("merge", "collapse_window_us") {
        Err(e) => Err(e),
        Ok(None) => Ok(()),
        Ok(Some(n)) => {
            if n < 0 {
                let mut m = String::new();
                push_str(&mut m, "Invalid merge.collapse_window_us: ");
                push_idec(&mut m, n);
                push_str(&mut m, "; must be a non-negative integer");
                assert(m@ =~= "Invalid merge.collapse_window_us: "@ + idec(n as int)
                    + "; must be a non-negative integer"@);
                Err(ConfigError(m))
            } else {
                cfg.collapse_window_us = n as u64;
                Ok(())
            }
        },
    }
}

fn apply_merge_section(toml: &TomlDoc, cfg: &mut DecoderConfig) -> (r: Result<(), ConfigError>)
    ensures
        applied(r, final(cfg)@, merge_section(toml@, old(cfg)@)),
{
    let r = apply_collapse(toml, cfg);
    if r.is_err() {
        return r;
    }
    let r = apply_delta_scope(toml, cfg);
    if r.is_err() {
        return r;
    }
    apply_window(toml, cfg)
}

fn apply_exclude_types(toml: &TomlDoc, cfg: &mut DecoderConfig) -> (r: Result<(), ConfigError>)
    ensures
        applied(r, final(cfg)@, step_exclude_types(toml@, old(cfg)@)),
{
    match toml.get_array("filter", "exclude_types") {
        Err(e) => Err(e),
        Ok(None) => Ok(()),
        Ok(Some(a)) => {
            let ghost l = scalars(a@);
            let ghost start = cfg.filters.exclude_types@;
            assert(list_at(toml@, "filter"@, "exclude_types"@) == Ok::<Option<Seq<TomlScalar>>, Seq<char>>(Some(l)));
            let mut k: usize = 0;
            assert(start + Seq::<u8>::empty() =~= start);
            while k < a.len()
                invariant
                    k <= a@.len(),
                    l == scalars(a@),
                    list_at(toml@, "filter"@, "exclude_types"@) == Ok::<Option<Seq<TomlScalar>>, Seq<char>>(
                        Some(l),
                    ),
                    type_codes(l, k as int) matches Ok(v) && cfg.filters.exclude_types@ == start
                        + v,
                    cfg@ == (ConfigView { exclude_types: cfg.filters.exclude_types@, ..old(cfg)@ }),
                decreases a.len() - k,
            {
                let ghost before = cfg.filters.exclude_types@;
                assert(l[k as int] == scalar_view(a@[k as int]));
                match parse_type_value(&a[k]) {
                    Ok(b) => {
                        cfg.filters.exclude_types.push(b);
                        assert(cfg.filters.exclude_types@ =~= before.push(b));
                    },
                    Err(e) => {
                        proof {
                            lemma_type_codes_err(l, k as int + 1, l.len() as int);
                        }
                        return Err(e);
                    },
                }
                k = k + 1;
            }
            Ok(())
        },
    }
}

proof fn lemma_type_codes_err(l: Seq<TomlScalar>, j: int, m: int)
    requires
        0 <= j <= m,
        type_codes(l, j) is Err,
    ensures
        type_codes(l, m) == type_codes(l, j),
    decreases m - j,
{
    if m > j {
        lemma_type_codes_err(l, j, m - 1);
    }
}

proof fn lemma_address_codes_err(l: Seq<TomlScalar>, field: Seq<char>, j: int, m: int)
    requires
        0 <= j <= m,
        address_codes(l, field, j) is Err,
    ensures
        address_codes(l, field, m) == address_codes(l, field, j),
    decreases m - j,
{
    if m > j {
        lemma_address_codes_err(l, field, j, m - 1);
    }
}

proof fn lemma_bus_codes_err(l: Seq<TomlScalar>, j: int, m: int)
    requires
        0 <= j <= m,
        bus_codes(l, j) is Err,
    ensures
        bus_codes(l, m) == bus_codes(l, j),
    decreases m - j,
{
    if m > j {
        lemma_bus_codes_err(l, j, m - 1);
    }
}

fn apply_exclude_rts(toml: &TomlDoc, cfg: &mut DecoderConfig) -> (r: Result<(), ConfigError>)
    ensures
        applied(r, final(cfg)@, step_exclude_rts(toml@, old(cfg)@)),
{
    match toml.get_array("filter", "exclude_rts") {
        Err(e) => Err(e),
        Ok(None) => Ok(()),
        Ok(Some(a)) => {
            let ghost l = scalars(a@);
            let ghost start = cfg.filters.exclude_rts@;
            assert(list_at(toml@, "filter"@, "exclude_rts"@) == Ok::<Option<Seq<TomlScalar>>, Seq<char>>(Some(l)));
            let mut k: usize = 0;
            assert(start + Seq::<u8>::empty() =~= start);
            while k < a.len()
                invariant
                    k <= a@.len(),
                    l == scalars(a@),
                    list_at(toml@, "filter"@, "exclude_rts"@) == Ok::<Option<Seq<TomlScalar>>, Seq<char>>(
                        Some(l),
                    ),
                    address_codes(l, "exclude_rts"@, k as int) matches Ok(v)
                        && cfg.filters.exclude_rts@ == start + v,
                    cfg@ == (ConfigView { exclude_rts: cfg.filters.exclude_rts@, ..old(cfg)@ }),
                decreases a.len() - k,
            {
                let ghost before = cfg.filters.exclude_rts@;
                assert(l[k as int] == scalar_view(a@[k as int]));
                match parse_int_rt_sa(&a[k], "exclude_rts") {
                    Ok(b) => {
                        cfg.filters.exclude_rts.push(b);
                        assert(cfg.filters.exclude_rts@ =~= before.push(b));
                    },
                    Err(e) => {
                        proof {
                            lemma_address_codes_err(l, "exclude_rts"@, k as int + 1, l.len() as int);
                        }
                        return Err(e);
                    },
                }
                k = k + 1;
            }
            Ok(())
        },
    }
}

fn apply_exclude_buses(toml: &TomlDoc, cfg: &mut DecoderConfig) -> (r: Result<(), ConfigError>)
    ensures
        applied(r, final(cfg)@, step_exclude_buses(toml@, old(cfg)@)),
{
    match toml.get_array("filter", "exclude_buses") {
        Err(e) => Err(e),
        Ok(None) => Ok(()),
        Ok(Some(a)) => {
            let ghost l = scalars(a@);
            let ghost start = cfg.filters.exclude_buses@;
            assert(list_at(toml@, "filter"@, "exclude_buses"@) == Ok::<Option<Seq<TomlScalar>>, Seq<char>>(Some(l)));
            let mut k: usize = 0;
            assert(start + Seq::<Bus>::empty() =~= start);
            while k < a.len()
                invariant
                    k <= a@.len(),
                    l == scalars(a@),
                    list_at(toml@, "filter"@, "exclude_buses"@) == Ok::<Option<Seq<TomlScalar>>, Seq<char>>(
                        Some(l),
                    ),
                    bus_codes(l, k as int) matches Ok(v) && cfg.filters.exclude_buses@ == start
                        + v,
                    cfg@ == (ConfigView { exclude_buses: cfg.filters.exclude_buses@, ..old(cfg)@ }),
                decreases a.len() - k,
            {
                let ghost before = cfg.filters.exclude_buses@;
                assert(l[k as int] == scalar_view(a@[k as int]));
                match parse_bus_value(&a[k]) {
                    Ok(b) => {
                        cfg.filters.exclude_buses.push(b);
                        assert(cfg.filters.exclude_buses@ =~= before.push(b));
                    },
                    Err(e) => {
                        proof {
                            lemma_bus_codes_err(l, k as int + 1, l.len() as int);
                        }
                        return Err(e);
                    },
                }
                k = k + 1;
            }
            Ok(())
        },
    }
}

fn apply_exclude_subaddresses(toml: &TomlDoc, cfg: &mut DecoderConfig) -> (r: Result<(), ConfigError>)
    ensures
        applied(r, final(cfg)@, step_exclude_subaddresses(toml@, old(cfg)@)),
{
    match toml.get_array("filter", "exclude_subaddresses") {
        Err(e) => Err(e),
        Ok(None) => Ok(()),
        Ok(Some(a)) => {
            let ghost l = scalars(a@);
            let ghost start = cfg.filters.exclude_subaddresses@;
            assert(list_at(toml@, "filter"@, "exclude_subaddresses"@) == Ok::<Option<Seq<TomlScalar>>, Seq<char>>(Some(l)));
            let mut k: usize = 0;
            assert(start + Seq::<u8>::empty() =~= start);
            while k < a.len()
                invariant
                    k <= a@.len(),
                    l == scalars(a@),
                    list_at(toml@, "filter"@, "exclude_subaddresses"@) == Ok::<Option<Seq<TomlScalar>>, Seq<char>>(
                        Some(l),
                    ),
                    address_codes(l, "exclude_subaddresses"@, k as int) matches Ok(v)
                        && cfg.filters.exclude_subaddresses@ == start + v,
                    cfg@ == (ConfigView {
                        exclude_subaddresses: cfg.filters.exclude_subaddresses@,
                        ..old(cfg)@
                    }),
                decreases a.len() - k,
            {
                let ghost before = cfg.filters.exclude_subaddresses@;
                assert(l[k as int] == scalar_view(a@[k as int]));
                match parse_int_rt_sa(&a[k], "exclude_subaddresses") {
                    Ok(b) => {
                        cfg.filters.exclude_subaddresses.push(b);
                        assert(cfg.filters.exclude_subaddresses@ =~= before.push(b));
                    },
                    Err(e) => {
                        proof {
                            lemma_address_codes_err(
                                l,
                                "exclude_subaddresses"@,
                                k as int + 1,
                                l.len() as int,
                            );
                        }
                        return Err(e);
                    },
                }
                k = k + 1;
            }
            Ok(())
        },
    }
}

fn apply_filter_sections(toml: &TomlDoc, cfg: &mut DecoderConfig) -> (r: Result<(), ConfigError>)
    ensures
        applied(r, final(cfg)@, filter_section(toml@, old(cfg)@)),
{
    let r = apply_exclude_types(toml, cfg);
    if r.is_err() {
        return r;
    }
    let r = apply_exclude_rts(toml, cfg);
    if r.is_err() {
        return r;
    }
    let r = apply_exclude_buses(toml, cfg);
    if r.is_err() {
        return r;
    }
    apply_exclude_subaddresses(toml, cfg)
}

// ── Loading ───────────────────────────────────────────────────────────

/// Whether `name` is one of the six section names.
pub fn is_known_section(name: &str) -> (b: bool)
    ensures
        b == spec_known_section(name@),
{
    let v = chars_of(name);
    same_chars(&v, "logging") || same_chars(&v, "decode") || same_chars(&v, "output")
        || same_chars(&v, "mux") || same_chars(&v, "merge") || same_chars(&v, "filter")
}

/// The `(section, key)` pairs the schema defines.
pub open spec fn spec_known_key(section: Seq<char>, key: Seq<char>) -> bool {
    if section == "logging"@ {
        key == "level"@
    } else if section == "decode"@ {
        key == "time_format"@ || key == "strict"@ || key == "error_mode"@ || key
            == "allow_partial"@ || key == "detect_records"@ || key == "lookahead_records"@ || key
            == "standard_tick_rate_hz"@
    } else if section == "output"@ {
        key == "format"@ || key == "no_clobber"@ || key == "max_sort_group"@
    } else if section == "mux"@ {
        key == "enabled"@ || key == "delimiter"@ || key == "field"@
    } else if section == "merge"@ {
        key == "collapse_duplicates"@ || key == "collapse_window_us"@ || key == "delta_scope"@
    } else if section == "filter"@ {
        key == "exclude_types"@ || key == "exclude_rts"@ || key == "exclude_buses"@ || key
            == "exclude_subaddresses"@
    } else {
        false
    }
}

/// Whether `(section, key)` is part of the schema; other keys are reported
/// to the operator and otherwise ignored.
pub fn is_known_shared_key(section: &str, key: &str) -> (b: bool)
    ensures
        b == spec_known_key(section@, key@),
{
    let s = chars_of(section);
    let k = chars_of(key);
    if same_chars(&s, "logging") {
        same_chars(&k, "level")
    } else if same_chars(&s, "decode") {
        same_chars(&k, "time_format") || same_chars(&k, "strict") || same_chars(&k, "error_mode")
            || same_chars(&k, "allow_partial") || same_chars(&k, "detect_records") || same_chars(
            &k,
            "lookahead_records",
        ) || same_chars(&k, "standard_tick_rate_hz")
    } else if same_chars(&s, "output") {
        same_chars(&k, "format") || same_chars(&k, "no_clobber") || same_chars(
            &k,
            "max_sort_group",
        )
    } else if same_chars(&s, "mux") {
        same_chars(&k, "enabled") || same_chars(&k, "delimiter") || same_chars(&k, "field")
    } else if same_chars(&s, "merge") {
        same_chars(&k, "collapse_duplicates") || same_chars(&k, "collapse_window_us")
            || same_chars(&k, "delta_scope")
    } else if same_chars(&s, "filter") {
        same_chars(&k, "exclude_types") || same_chars(&k, "exclude_rts") || same_chars(
            &k,
            "exclude_buses",
        ) || same_chars(&k, "exclude_subaddresses")
    } else {
        false
    }
}

/// The entries outside the schema, as `(section, key)`, in file order.
pub open spec fn unknown_of(es: Seq<Entry>) -> Seq<(Seq<char>, Seq<char>)>
    decreases es.len(),
{
    if es.len() == 0 {
        Seq::empty()
    } else if spec_known_key(es.last().0, es.last().1) {
        unknown_of(es.drop_last())
    } else {
        unknown_of(es.drop_last()).push((es.last().0, es.last().1))
    }
}

/// The `(section, key)` pairs of `doc` that the schema does not define.
pub fn unknown_keys(doc: &TomlDoc) -> (r: Vec<(String, String)>)
    ensures
        r@.map_values(|p: (String, String)| (p.0@, p.1@)) == unknown_of(doc@),
{
    let es = doc.entries();
    let ghost all = doc@;
    let mut out: Vec<(String, String)> = Vec::new();
    let mut i: usize = 0;
    assert(out@.map_values(|p: (String, String)| (p.0@, p.1@)) =~= unknown_of(all.take(0)));
    while i < es.len()
        invariant
            i <= es@.len(),
            crate::toml_subset::entry_views(es@) == all,
            out@.map_values(|p: (String, String)| (p.0@, p.1@)) == unknown_of(all.take(i as int)),
        decreases es.len() - i,
    {
        let e = &es[i];
        assert(all.take(i + 1).drop_last() =~= all.take(i as int));
        assert(all[i as int].0 == e.0@ && all[i as int].1 == e.1@);
        if !is_known_shared_key(e.0.as_str(), e.1.as_str()) {
            let ghost before = out@.map_values(|p: (String, String)| (p.0@, p.1@));
            out.push((string_of(e.0.as_str()), string_of(e.1.as_str())));
            assert(out@.map_values(|p: (String, String)| (p.0@, p.1@)) =~= before.push(
                (e.0@, e.1@),
            ));
        }
        i = i + 1;
    }
    assert(all.take(es@.len() as int) =~= all);
    out
}

fn reject_section_used_as_scalar(toml: &TomlDoc) -> (r: Result<(), ConfigError>)
    ensures
        match scalar_section_from(toml@, 0) {
            Some(k) => r matches Err(e) && e.0@ == "Invalid ["@ + k
                + "]: expected a table, not a value"@,
            None => r is Ok,
        },
{
    let es = toml.entries();
    let ghost all = toml@;
    let mut i: usize = 0;
    while i < es.len()
        invariant
            i <= es@.len(),
            crate::toml_subset::entry_views(es@) == all,
            all == toml@,
            scalar_section_from(all, 0) == scalar_section_from(all, i as int),
        decreases es.len() - i,
    {
        let e = &es[i];
        assert(all[i as int].0 == e.0@ && all[i as int].1 == e.1@);
        if e.0.as_str().is_empty() && is_known_section(e.1.as_str()) {
            assert(scalar_section_from(all, i as int) == Some(e.1@));
            let m = message3("Invalid [", e.1.as_str(), "]: expected a table, not a value");
            assert(m@ == "Invalid ["@ + e.1@ + "]: expected a table, not a value"@);
            return Err(ConfigError(m));
        }
        i = i + 1;
    }
    Ok(())
}

/// The configuration a configuration file's text gives over the defaults,
/// or why it is refused: the file's own syntax error, a section name used
/// as a plain key, or the first key whose value fails its check.
pub fn parse_into_config(text: &str) -> (r: Result<DecoderConfig, ConfigError>)
    ensures
        match config_result(text@) {
            Ok(v) => r matches Ok(c) && c@ == v,
            Err(m) => r matches Err(e) && e.0@ == m,
        },
{
    let toml = match parse_toml(text) {
        Ok(d) => d,
        Err(e) => {
            return Err(ConfigError(e));
        },
    };
    if let Err(e) = reject_section_used_as_scalar(&toml) {
        return Err(e);
    }
    let mut cfg = DecoderConfig::default();
    if let Err(e) = apply_logging_section(&toml, &mut cfg) {
        return Err(e);
    }
    if let Err(e) = apply_decode_section(&toml, &mut cfg) {
        return Err(e);
    }
    if let Err(e) = apply_output_section(&toml, &mut cfg) {
        return Err(e);
    }
    if let Err(e) = apply_mux_section(&toml, &mut cfg) {
        return Err(e);
    }
    if let Err(e) = apply_merge_section(&toml, &mut cfg) {
        return Err(e);
    }
    if let Err(e) = apply_filter_sections(&toml, &mut cfg) {
        return Err(e);
    }
    Ok(cfg)
}

/// Where a configuration comes from, as probed by the caller: no file
/// named, a path that does not exist, a path that is not a regular file, a
/// file that could not be read (with the reason), or the file's text.
pub enum ConfigSource {
    Defaults,
    Missing(String),
    NotRegularFile(String),
    Unreadable(String, String),
    Text(String),
}

/// The configuration a source gives, or the message for the operator.
pub open spec fn load_result(src: ConfigSource) -> Result<ConfigView, Seq<char>> {
    match src {
        ConfigSource::Defaults => Ok(default_view()),
        ConfigSource::Missing(p) => Err("Config file not found: "@ + p@),
        ConfigSource::NotRegularFile(p) => Err("Config path is not a regular file: "@ + p@),
        ConfigSource::Unreadable(p, why) => Err("Reading "@ + p@ + ": "@ + why@),
        ConfigSource::Text(t) => config_result(t@),
    }
}

/// Loads the configuration: the defaults when no file was named, otherwise
/// the file's text over the defaults; a path that is missing, not a regular
/// file, or unreadable is refused.
pub fn load_config(source: ConfigSource) -> (r: Result<DecoderConfig, ConfigError>)
    ensures
        match load_result(source) {
            Ok(v) => r matches Ok(c) && c@ == v,
            Err(m) => r matches Err(e) && e.0@ == m,
        },
{
    match source {
        ConfigSource::Defaults => Ok(DecoderConfig::default()),
        ConfigSource::Missing(p) => {
            let mut m = String::new();
            push_str(&mut m, "Config file not found: ");
            push_str(&mut m, p.as_str());
            assert(m@ =~= "Config file not found: "@ + p@);
            Err(ConfigError(m))
        },
        ConfigSource::NotRegularFile(p) => {
            let mut m = String::new();
            push_str(&mut m, "Config path is not a regular file: ");
            push_str(&mut m, p.as_str());
            assert(m@ =~= "Config path is not a regular file: "@ + p@);
            Err(ConfigError(m))
        },
        ConfigSource::Unreadable(p, why) => {
            let mut m = message3("Reading ", p.as_str(), ": ");
            push_str(&mut m, why.as_str());
            assert(m@ =~= "Reading "@ + p@ + ": "@ + why@);
            Err(ConfigError(m))
        },
        ConfigSource::Text(t) => parse_into_config(t.as_str()),
    }
}

// ── Laws ──────────────────────────────────────────────────────────────

/// Every element occurs at most once.
pub open spec fn no_repeats<T>(s: Seq<T>) -> bool {
    forall|i: int, j: int| 0 <= i < j < s.len() ==> s[i] != s[j]
}

/// Merging a list into a set keeps the set as it was, in front; adds every
/// element of the list; adds nothing else; and, when the set has no
/// repeats, introduces none.
pub proof fn law_merge_unique<T>(target: Seq<T>, source: Seq<T>)
    ensures
        merge_unique(target, source).len() >= target.len(),
        merge_unique(target, source).take(target.len() as int) == target,
        forall|x: T| source.contains(x) ==> merge_unique(target, source).contains(x),
        forall|x: T|
            merge_unique(target, source).contains(x) ==> target.contains(x) || source.contains(x),
        no_repeats(target) ==> no_repeats(merge_unique(target, source)),
    decreases source.len(),
{
    if source.len() > 0 {
        let init = source.drop_last();
        let y = source.last();
        law_merge_unique(target, init);
        let m = merge_unique(target, init);
        let r = merge_unique(target, source);
        assert(r == (if m.contains(y) {
            m
        } else {
            m.push(y)
        }));
        assert(r.take(target.len() as int) =~= target) by {
            assert(m.take(target.len() as int) =~= target);
            if !m.contains(y) {
                assert forall|i: int| 0 <= i < target.len() implies r[i] == m[i] by {}
            }
        }
        assert forall|x: T| source.contains(x) implies r.contains(x) by {
            let w = choose|w: int| 0 <= w < source.len() && source[w] == x;
            if w == source.len() - 1 {
                if m.contains(y) {
                } else {
                    assert(r[r.len() - 1] == y);
                }
            } else {
                assert(init[w] == x);
                assert(init.contains(x));
                let v = choose|v: int| 0 <= v < m.len() && m[v] == x;
                assert(r[v] == x);
            }
        }
        assert forall|x: T| r.contains(x) implies target.contains(x) || source.contains(x) by {
            let v = choose|v: int| 0 <= v < r.len() && r[v] == x;
            if v < m.len() {
                assert(m[v] == x);
                assert(m.contains(x));
                if init.contains(x) {
                    let w = choose|w: int| 0 <= w < init.len() && init[w] == x;
                    assert(source[w] == x);
                }
            } else {
                assert(source[source.len() - 1] == x);
            }
        }
        if no_repeats(target) && !m.contains(y) {
            assert forall|i: int, j: int| 0 <= i < j < r.len() implies r[i] != r[j] by {
                if j == r.len() - 1 {
                    assert(r[i] == m[i]);
                    assert(r[j] == y);
                }
            }
        }
    }
}

/// Command-line overrides win over the configuration, which won over the
/// defaults: every option present on the command line replaces the
/// configured value, every absent one leaves it, and the filter lists keep
/// the configured sets in front and add the command line's values.
pub proof fn law_command_line_wins(c: ConfigView, ov: ConfigOverrides)
    ensures
        overridden(c, ov).time_format == (match ov.time_format {
            Some(t) => t,
            None => c.time_format,
        }),
        overridden(c, ov).strict == (match ov.strict {
            Some(b) => b,
            None => c.strict,
        }),
        overridden(c, ov).error_mode == (match ov.error_mode {
            Some(m) => m,
            None => c.error_mode,
        }),
        overridden(c, ov).detect_records == (match ov.detect_records {
            Some(n) => n,
            None => c.detect_records,
        }),
        overridden(c, ov).mux_delimiter == (match ov.mux_delimiter {
            Some(d) => d@,
            None => c.mux_delimiter,
        }),
        overridden(c, ov).no_clobber == pick(ov.no_clobber, c.no_clobber),
        overridden(c, ov).allow_partial == pick(ov.allow_partial, c.allow_partial),
        overridden(c, ov).max_sort_group == pick(ov.max_sort_group, c.max_sort_group),
        overridden(c, ov).delta_scope == pick(ov.delta_scope, c.delta_scope),
        overridden(c, ov).log_level == pick_text(ov.log_level, c.log_level),
        overridden(c, ov).collapse_window_us == (match ov.collapse_window_us {
            Some(w) => if w < 0 {
                0
            } else {
                w as u64
            },
            None => c.collapse_window_us,
        }),
        overridden(c, ov).exclude_rts.take(c.exclude_rts.len() as int) == c.exclude_rts,
        forall|x: u8| ov.exclude_rts@.contains(x) ==> overridden(c, ov).exclude_rts.contains(x),
        forall|x: u8| ov.include_rts@.contains(x) ==> overridden(c, ov).include_rts.contains(x),
{
    law_merge_unique(c.exclude_rts, ov.exclude_rts@);
    law_merge_unique(c.include_rts, ov.include_rts@);
}

/// A configuration whose values are all within their documented ranges:
/// a level name, both record counts in `[1, 32]`, the sort-group cap in
/// its range, `csv` output, a non-empty MUX delimiter, and RT addresses and
/// subaddresses no larger than 31.
pub open spec fn config_valid(c: ConfigView) -> bool {
    &&& is_log_level(c.log_level)
    &&& DETECT_RECORDS_MIN <= c.detect_records <= DETECT_RECORDS_MAX
    &&& LOOKAHEAD_RECORDS_MIN <= c.lookahead_records <= LOOKAHEAD_RECORDS_MAX
    &&& MAX_SORT_GROUP_MIN <= c.max_sort_group <= MAX_SORT_GROUP_MAX
    &&& c.output_format == "csv"@
    &&& c.mux_delimiter.len() > 0
    &&& forall|i: int| 0 <= i < c.exclude_rts.len() ==> #[trigger] c.exclude_rts[i] <= 31
    &&& forall|i: int|
        0 <= i < c.exclude_subaddresses.len() ==> #[trigger] c.exclude_subaddresses[i] <= 31
}

proof fn lemma_default_valid()
    ensures
        config_valid(default_view()),
{
    reveal_strlit("WARNING");
    reveal_strlit(".");
    assert(upper_seq("WARNING"@) =~= "WARNING"@);
}

proof fn lemma_address_codes_small(l: Seq<TomlScalar>, field: Seq<char>, k: int)
    ensures
        address_codes(l, field, k) matches Ok(v) ==> forall|i: int|
            0 <= i < v.len() ==> #[trigger] v[i] <= 31,
    decreases k,
{
    if k > 0 {
        lemma_address_codes_small(l, field, k - 1);
    }
}

proof fn lemma_steps_keep_valid(es: Seq<Entry>, c: ConfigView)
    requires
        config_valid(c),
    ensures
        logging_section(es, c) matches Ok(d) ==> config_valid(d),
        step_time_format(es, c) matches Ok(d) ==> config_valid(d),
        step_strict(es, c) matches Ok(d) ==> config_valid(d),
        step_error_mode(es, c) matches Ok(d) ==> config_valid(d),
        step_allow_partial(es, c) matches Ok(d) ==> config_valid(d),
        step_detect_records(es, c) matches Ok(d) ==> config_valid(d),
        step_lookahead_records(es, c) matches Ok(d) ==> config_valid(d),
        step_tick_rate(es, c) matches Ok(d) ==> config_valid(d),
        step_output_format(es, c) matches Ok(d) ==> config_valid(d),
        step_no_clobber(es, c) matches Ok(d) ==> config_valid(d),
        step_max_sort_group(es, c) matches Ok(d) ==> config_valid(d),
        step_mux_enabled(es, c) matches Ok(d) ==> config_valid(d),
        step_mux_delimiter(es, c) matches Ok(d) ==> config_valid(d),
        step_mux_field(es, c) matches Ok(d) ==> config_valid(d),
        step_collapse(es, c) matches Ok(d) ==> config_valid(d),
        step_delta_scope(es, c) matches Ok(d) ==> config_valid(d),
        step_window(es, c) matches Ok(d) ==> config_valid(d),
        step_exclude_types(es, c) matches Ok(d) ==> config_valid(d),
        step_exclude_rts(es, c) matches Ok(d) ==> config_valid(d),
        step_exclude_buses(es, c) matches Ok(d) ==> config_valid(d),
        step_exclude_subaddresses(es, c) matches Ok(d) ==> config_valid(d),
{
    if let Ok(Some(l)) = list_at(es, "filter"@, "exclude_rts"@) {
        lemma_address_codes_small(l, "exclude_rts"@, l.len() as int);
        if let Ok(v) = address_codes(l, "exclude_rts"@, l.len() as int) {
            let n = c.exclude_rts + v;
            assert forall|i: int| 0 <= i < n.len() implies #[trigger] n[i] <= 31 by {
                if i >= c.exclude_rts.len() {
                    assert(n[i] == v[i - c.exclude_rts.len()]);
                }
            }
        }
    }
    if let Ok(Some(l)) = list_at(es, "filter"@, "exclude_subaddresses"@) {
        lemma_address_codes_small(l, "exclude_subaddresses"@, l.len() as int);
        if let Ok(v) = address_codes(l, "exclude_subaddresses"@, l.len() as int) {
            let n = c.exclude_subaddresses + v;
            assert forall|i: int| 0 <= i < n.len() implies #[trigger] n[i] <= 31 by {
                if i >= c.exclude_subaddresses.len() {
                    assert(n[i] == v[i - c.exclude_subaddresses.len()]);
                }
            }
        }
    }
}

proof fn lemma_sections_keep_valid(es: Seq<Entry>, c: ConfigView)
    requires
        config_valid(c),
    ensures
        decode_section(es, c) matches Ok(d) ==> config_valid(d),
        output_section(es, c) matches Ok(d) ==> config_valid(d),
        mux_section(es, c) matches Ok(d) ==> config_valid(d),
        merge_section(es, c) matches Ok(d) ==> config_valid(d),
        filter_section(es, c) matches Ok(d) ==> config_valid(d),
{
    lemma_steps_keep_valid(es, c);
    if let Ok(c1) = step_time_format(es, c) {
        lemma_steps_keep_valid(es, c1);
        if let Ok(c2) = step_strict(es, c1) {
            lemma_steps_keep_valid(es, c2);
            if let Ok(c3) = step_error_mode(es, c2) {
                lemma_steps_keep_valid(es, c3);
                if let Ok(c4) = step_allow_partial(es, c3) {
                    lemma_steps_keep_valid(es, c4);
                    if let Ok(c5) = step_detect_records(es, c4) {
                        lemma_steps_keep_valid(es, c5);
                        if let Ok(c6) = step_lookahead_records(es, c5) {
                            lemma_steps_keep_valid(es, c6);
                        }
                    }
                }
            }
        }
    }
    if let Ok(c1) = step_output_format(es, c) {
        lemma_steps_keep_valid(es, c1);
        if let Ok(c2) = step_no_clobber(es, c1) {
            lemma_steps_keep_valid(es, c2);
        }
    }
    if let Ok(c1) = step_mux_enabled(es, c) {
        lemma_steps_keep_valid(es, c1);
        if let Ok(c2) = step_mux_delimiter(es, c1) {
            lemma_steps_keep_valid(es, c2);
        }
    }
    if let Ok(c1) = step_collapse(es, c) {
        lemma_steps_keep_valid(es, c1);
        if let Ok(c2) = step_delta_scope(es, c1) {
            lemma_steps_keep_valid(es, c2);
        }
    }
    if let Ok(c1) = step_exclude_types(es, c) {
        lemma_steps_keep_valid(es, c1);
        if let Ok(c2) = step_exclude_rts(es, c1) {
            lemma_steps_keep_valid(es, c2);
            if let Ok(c3) = step_exclude_buses(es, c2) {
                lemma_steps_keep_valid(es, c3);
            }
        }
    }
}

/// Every value is checked when the file is loaded: a configuration file
/// that loads gives a configuration whose values are all within their
/// documented ranges.
pub proof fn law_loaded_config_is_valid(text: Seq<char>)
    ensures
        config_result(text) matches Ok(c) ==> config_valid(c),
{
    if let Ok(es) = toml_entries(text) {
        if scalar_section_from(es, 0) is None {
            let c0 = default_view();
            lemma_default_valid();
            lemma_steps_keep_valid(es, c0);
            if let Ok(c1) = logging_section(es, c0) {
                lemma_sections_keep_valid(es, c1);
                if let Ok(c2) = decode_section(es, c1) {
                    lemma_sections_keep_valid(es, c2);
                    if let Ok(c3) = output_section(es, c2) {
                        lemma_sections_keep_valid(es, c3);
                        if let Ok(c4) = mux_section(es, c3) {
                            lemma_sections_keep_valid(es, c4);
                            if let Ok(c5) = merge_section(es, c4) {
                                lemma_sections_keep_valid(es, c5);
                            }
                        }
                    }
                }
            }
        }
    }
}

} // verus!
