//! Core data structures for decoded MIL-STD-1553 MIE records.
use vstd::prelude::*;

use crate::text::{
    chars_of, dec, dec_w, hex_w, lower_seq, lowered, push_char, push_dec, push_dec_w, push_hex_w,
    push_str, same_chars, string_of, is_dec_digit, lemma_dec_len, lemma_dec_w_digits, pow10, dec_value,
    lemma_dec_w_exact,
};

verus! {

// ── Enums ─────────────────────────────────────────────────────────────

/// MIL-STD-1553 redundant bus identifier. `A` orders before `B`.
#[derive(Debug, Clone, Copy, PartialEq, Eq, Structural, PartialOrd, Ord, Hash)]
pub enum Bus {
    A,
    B,
}

/// The label of a bus: `A` or `B`.
pub open spec fn bus_label(b: Bus) -> Seq<char> {
    match b {
        Bus::A => "A"@,
        Bus::B => "B"@,
    }
}

impl Bus {
    pub fn as_str(self) -> (s: &'static str)
        ensures
            s@ == bus_label(self),
    {
        match self {
            Bus::A => "A",
            Bus::B => "B",
        }
    }
}

/// MIL-STD-1553 transfer direction, from the RT's point of view.
#[derive(Debug, Clone, Copy, PartialEq, Eq, Structural, Hash)]
pub enum Direction {
    /// BC sends data to the RT.
    Receive,
    /// RT sends data to the BC.
    Transmit,
}

/// DDC MIE Type Word message type (bits 0-6).
#[derive(Debug, Clone, Copy, PartialEq, Eq, Structural, Hash)]
pub enum MessageType {
    ModeCommand,
    BcToRt,
    RtToBc,
    RtToRt,
    BroadcastBcToRt,
    BroadcastRtToRt,
    SpuriousData,
}

/// The on-disk code of a message type.
pub open spec fn message_type_code(m: MessageType) -> u8 {
    match m {
        MessageType::ModeCommand => 0x01,
        MessageType::BcToRt => 0x02,
        MessageType::RtToBc => 0x04,
        MessageType::RtToRt => 0x08,
        MessageType::BroadcastBcToRt => 0x10,
        MessageType::BroadcastRtToRt => 0x18,
        MessageType::SpuriousData => 0x20,
    }
}

/// The set of known type codes.
pub open spec fn spec_valid_message_type(code: u8) -> bool {
    code == 0x01 || code == 0x02 || code == 0x04 || code == 0x08 || code == 0x10 || code == 0x18
        || code == 0x20
}

/// The canonical name of a message type.
pub open spec fn message_type_name(m: MessageType) -> Seq<char> {
    match m {
        MessageType::ModeCommand => "MODE_COMMAND"@,
        MessageType::BcToRt => "BC_TO_RT"@,
        MessageType::RtToBc => "RT_TO_BC"@,
        MessageType::RtToRt => "RT_TO_RT"@,
        MessageType::BroadcastBcToRt => "BROADCAST_BC_TO_RT"@,
        MessageType::BroadcastRtToRt => "BROADCAST_RT_TO_RT"@,
        MessageType::SpuriousData => "SPURIOUS_DATA"@,
    }
}

impl MessageType {
    /// The message type with this code, or `None` for an unknown code.
    pub fn from_code(code: u8) -> (r: Option<MessageType>)
        ensures
            r is Some <==> spec_valid_message_type(code),
            r matches Some(m) ==> message_type_code(m) == code,
    {
        match code {
            0x01 => Some(MessageType::ModeCommand),
            0x02 => Some(MessageType::BcToRt),
            0x04 => Some(MessageType::RtToBc),
            0x08 => Some(MessageType::RtToRt),
            0x10 => Some(MessageType::BroadcastBcToRt),
            0x18 => Some(MessageType::BroadcastRtToRt),
            0x20 => Some(MessageType::SpuriousData),
            _ => None,
        }
    }

    /// The on-disk code of this message type.
    pub fn code(self) -> (c: u8)
        ensures
            c == message_type_code(self),
    {
        match self {
            MessageType::ModeCommand => 0x01,
            MessageType::BcToRt => 0x02,
            MessageType::RtToBc => 0x04,
            MessageType::RtToRt => 0x08,
            MessageType::BroadcastBcToRt => 0x10,
            MessageType::BroadcastRtToRt => 0x18,
            MessageType::SpuriousData => 0x20,
        }
    }

    /// Canonical command-line name.
    pub fn name(self) -> (s: &'static str)
        ensures
            s@ == message_type_name(self),
    {
        match self {
            MessageType::ModeCommand => "MODE_COMMAND",
            MessageType::BcToRt => "BC_TO_RT",
            MessageType::RtToBc => "RT_TO_BC",
            MessageType::RtToRt => "RT_TO_RT",
            MessageType::BroadcastBcToRt => "BROADCAST_BC_TO_RT",
            MessageType::BroadcastRtToRt => "BROADCAST_RT_TO_RT",
            MessageType::SpuriousData => "SPURIOUS_DATA",
        }
    }
}

/// Whether a raw type code is one of the seven known codes.
pub fn is_valid_message_type(code: u8) -> (b: bool)
    ensures
        b == spec_valid_message_type(code),
{
    code == 0x01 || code == 0x02 || code == 0x04 || code == 0x08 || code == 0x10 || code == 0x18
        || code == 0x20
}

/// Classified message format, which fixes the payload layout.
#[derive(Debug, Clone, Copy, PartialEq, Eq, Structural, Hash)]
pub enum MessageFormat {
    Receive,
    Transmit,
    RtToRt,
    ReceiveBroadcast,
    RtToRtBroadcast,
    ModeCodeTxData,
    ModeCodeRxData,
    ModeCodeNoData,
    ModeCodeBcastNoData,
    ModeCodeBcastData,
    SpuriousData,
}

/// Timestamp encoding used in the binary file.
#[derive(Debug, Clone, Copy, PartialEq, Eq, Structural, Hash)]
pub enum TimestampFormat {
    Auto,
    Irig,
    Standard,
}

impl TimestampFormat {
    /// Parses `auto` / `irig` / `standard`, ignoring ASCII case.
    pub fn from_name_ci(name: &str) -> (r: Option<TimestampFormat>)
        ensures
            r == (if lower_seq(name@) == "auto"@ {
                Some(TimestampFormat::Auto)
            } else if lower_seq(name@) == "irig"@ {
                Some(TimestampFormat::Irig)
            } else if lower_seq(name@) == "standard"@ {
                Some(TimestampFormat::Standard)
            } else {
                None
            }),
    {
        let v = lowered(name);
        if same_chars(&v, "auto") {
            Some(TimestampFormat::Auto)
        } else if same_chars(&v, "irig") {
            Some(TimestampFormat::Irig)
        } else if same_chars(&v, "standard") {
            Some(TimestampFormat::Standard)
        } else {
            None
        }
    }
}

/// Rendering of the `TIME_STAMP` column.
#[derive(Debug, Clone, Copy, PartialEq, Eq, Structural, Hash)]
pub enum OutputTimeFormat {
    /// `DAY:HH:MM:SS.uuuuuu`, the vendor rendering and the default.
    Doy,
    /// `YYYY-MM-DDTHH:MM:SS.uuuuuu` plus a zone designator.
    Iso,
    /// `DD:HH:MM:SS.uuuuuu`, day of month.
    Dom,
}

impl Default for OutputTimeFormat {
    fn default() -> (r: OutputTimeFormat)
        ensures
            r == OutputTimeFormat::Doy,
    {
        OutputTimeFormat::Doy
    }
}

/// The canonical spelling of an output time format.
pub open spec fn output_time_format_name(f: OutputTimeFormat) -> Seq<char> {
    match f {
        OutputTimeFormat::Doy => "doy"@,
        OutputTimeFormat::Iso => "iso"@,
        OutputTimeFormat::Dom => "dom"@,
    }
}

impl OutputTimeFormat {
    /// Parses `doy` / `iso` / `dom`, ignoring ASCII case.
    pub fn from_name_ci(name: &str) -> (r: Option<OutputTimeFormat>)
        ensures
            r == (if lower_seq(name@) == "doy"@ {
                Some(OutputTimeFormat::Doy)
            } else if lower_seq(name@) == "iso"@ {
                Some(OutputTimeFormat::Iso)
            } else if lower_seq(name@) == "dom"@ {
                Some(OutputTimeFormat::Dom)
            } else {
                None
            }),
    {
        let v = lowered(name);
        if same_chars(&v, "doy") {
            Some(OutputTimeFormat::Doy)
        } else if same_chars(&v, "iso") {
            Some(OutputTimeFormat::Iso)
        } else if same_chars(&v, "dom") {
            Some(OutputTimeFormat::Dom)
        } else {
            None
        }
    }

    pub fn as_str(self) -> (s: &'static str)
        ensures
            s@ == output_time_format_name(self),
    {
        match self {
            OutputTimeFormat::Doy => "doy",
            OutputTimeFormat::Iso => "iso",
            OutputTimeFormat::Dom => "dom",
        }
    }

    /// Whether this rendering resolves day-of-year to a calendar date.
    pub fn needs_calendar(self) -> (b: bool)
        ensures
            b == (self == OutputTimeFormat::Iso || self == OutputTimeFormat::Dom),
    {
        match self {
            OutputTimeFormat::Doy => false,
            _ => true,
        }
    }
}

/// What the `TIME_STAMP` formatter needs beyond the timestamp itself.
#[derive(Debug, Clone, Copy, PartialEq, Eq, Structural)]
pub struct TimeRender {
    pub format: OutputTimeFormat,
    /// Calendar year for day-of-year resolution; ignored by `Doy`.
    pub year: Option<u16>,
    /// Offset from UTC in minutes, used only by `Iso`. Zero renders as `Z`.
    pub utc_offset_minutes: i16,
}

impl Default for TimeRender {
    fn default() -> (r: TimeRender)
        ensures
            r == (TimeRender { format: OutputTimeFormat::Doy, year: None, utc_offset_minutes: 0 }),
    {
        TimeRender { format: OutputTimeFormat::Doy, year: None, utc_offset_minutes: 0 }
    }
}

impl TimeRender {
    /// The default rendering: day-of-year, no calendar resolution.
    pub fn doy() -> (r: TimeRender)
        ensures
            r == (TimeRender { format: OutputTimeFormat::Doy, year: None, utc_offset_minutes: 0 }),
    {
        TimeRender { format: OutputTimeFormat::Doy, year: None, utc_offset_minutes: 0 }
    }
}

/// Why a calendar rendering could not be produced.
#[derive(Debug, Clone, Copy, PartialEq, Eq, Structural)]
pub enum CalendarError {
    /// A calendar rendering was selected with no year configured.
    MissingYear,
    /// The day-of-year does not exist in the configured year.
    NoSuchDay { day: u16, year: u16 },
    /// A Standard free-running counter has no calendar meaning.
    NotCalendarLocked,
    /// A freerun IRIG timestamp is not calendar-anchored.
    FreerunNotAnchored,
}

/// Inclusive bounds on a configured calendar year.
pub const YEAR_MIN: u16 = 1;
pub const YEAR_MAX: u16 = 9999;

/// Proleptic Gregorian leap year: divisible by 4, except centuries, which
/// must also be divisible by 400.
pub open spec fn spec_is_leap(year: int) -> bool {
    year % 4 == 0 && (year % 100 != 0 || year % 400 == 0)
}

/// Length of month `m` (1-based) in a leap or common year.
pub open spec fn month_len(leap: bool, m: int) -> int {
    if m == 2 {
        if leap {
            29
        } else {
            28
        }
    } else if m == 4 || m == 6 || m == 9 || m == 11 {
        30
    } else {
        31
    }
}

/// Days in the months before month `m` (1-based).
pub open spec fn days_before(leap: bool, m: int) -> int
    decreases m,
{
    if m <= 1 {
        0
    } else {
        days_before(leap, m - 1) + month_len(leap, m - 1)
    }
}

/// Number of days in a leap or common year.
pub open spec fn year_len(leap: bool) -> int {
    if leap {
        366
    } else {
        365
    }
}

/// Walks months from `m`, subtracting their lengths from `rem` until `rem`
/// falls inside one; yields `(month, day_of_month)`.
pub open spec fn month_day_from(leap: bool, rem: int, m: int) -> (int, int)
    decreases 13 - m,
{
    if m >= 12 || rem <= month_len(leap, m) {
        (m, rem)
    } else {
        month_day_from(leap, rem - month_len(leap, m), m + 1)
    }
}

/// The calendar date of a day-of-year, or `None` when that day does not exist.
pub open spec fn spec_month_day(year: u16, doy: u16) -> Option<(u8, u8)> {
    let leap = spec_is_leap(year as int);
    if 1 <= doy <= year_len(leap) {
        let md = month_day_from(leap, doy as int, 1);
        Some((md.0 as u8, md.1 as u8))
    } else {
        None
    }
}

/// Month lengths sum to the year length.
pub proof fn lemma_days_before_total(leap: bool)
    ensures
        days_before(leap, 13) == year_len(leap),
{
    reveal_with_fuel(days_before, 13);
}

/// Proleptic Gregorian leap-year test.
pub fn is_leap_year(year: u16) -> (b: bool)
    ensures
        b == spec_is_leap(year as int),
{
    year % 4 == 0 && (year % 100 != 0 || year % 400 == 0)
}

fn month_length(leap: bool, m: u16) -> (n: u16)
    requires
        1 <= m <= 12,
    ensures
        n == month_len(leap, m as int),
{
    if m == 2 {
        if leap {
            29
        } else {
            28
        }
    } else if m == 4 || m == 6 || m == 9 || m == 11 {
        30
    } else {
        31
    }
}

/// Resolves a 1-based day-of-year to a 1-based `(month, day_of_month)`.
///
/// `None` when the day does not exist in that year: day 0, day 366 of a
/// common year, or anything above 366.
pub fn day_of_year_to_month_day(year: u16, day_of_year: u16) -> (r: Option<(u8, u8)>)
    ensures
        r == spec_month_day(year, day_of_year),
        r is Some <==> 1 <= day_of_year <= year_len(spec_is_leap(year as int)),
        r matches Some((m, d)) ==> {
            let leap = spec_is_leap(year as int);
            &&& 1 <= m <= 12
            &&& 1 <= d <= month_len(leap, m as int)
            &&& days_before(leap, m as int) + d == day_of_year
        },
{
    let leap = is_leap_year(year);
    let year_length: u16 = if leap {
        366
    } else {
        365
    };
    if day_of_year == 0 || day_of_year > year_length {
        return None;
    }
    proof {
        lemma_days_before_total(leap);
    }
    let mut remaining: u16 = day_of_year;
    let mut month: u16 = 1;
    while month <= 12
        invariant
            1 <= month <= 13,
            1 <= day_of_year <= year_len(leap),
            leap == spec_is_leap(year as int),
            days_before(leap, 13) == year_len(leap),
            remaining as int == day_of_year - days_before(leap, month as int),
            remaining >= 1,
            month_day_from(leap, day_of_year as int, 1) == month_day_from(
                leap,
                remaining as int,
                month as int,
            ),
        decreases 13 - month,
    {
        let length = month_length(leap, month);
        if remaining <= length {
            assert(month_day_from(leap, remaining as int, month as int) == (
                month as int,
                remaining as int,
            ));
            return Some((month as u8, remaining as u8));
        }
        remaining = remaining - length;
        month = month + 1;
    }
    // The month lengths sum to the year length, which bounds the day above.
    None
}

/// How errored messages are routed in CSV output.
#[derive(Debug, Clone, Copy, PartialEq, Eq, Structural, Hash)]
pub enum ErrorMode {
    /// Errored and spurious records go to a separate `<output>_errors.csv`.
    Separate,
    /// Everything in one CSV with the `ERROR` / `ERROR_CODE` columns populated.
    Inline,
}

/// Scope over which DELTA is measured in a multi-file merge.
#[derive(Debug, Clone, Copy, PartialEq, Eq, Structural, Hash)]
pub enum DeltaScope {
    /// Gap to the previous same-key record from the record's own file.
    PerFile,
    /// Gap to the previous same-key record from any input.
    Global,
}

/// Canonical spelling of a delta scope.
pub open spec fn delta_scope_name(d: DeltaScope) -> Seq<char> {
    match d {
        DeltaScope::PerFile => "per-file"@,
        DeltaScope::Global => "global"@,
    }
}

impl DeltaScope {
    /// Parses `per-file` / `global`, ignoring ASCII case.
    pub fn from_name_ci(name: &str) -> (r: Option<DeltaScope>)
        ensures
            r == (if lower_seq(name@) == "per-file"@ {
                Some(DeltaScope::PerFile)
            } else if lower_seq(name@) == "global"@ {
                Some(DeltaScope::Global)
            } else {
                None
            }),
    {
        let v = lowered(name);
        if same_chars(&v, "per-file") {
            Some(DeltaScope::PerFile)
        } else if same_chars(&v, "global") {
            Some(DeltaScope::Global)
        } else {
            None
        }
    }

    pub fn as_str(self) -> (s: &'static str)
        ensures
            s@ == delta_scope_name(self),
    {
        match self {
            DeltaScope::PerFile => "per-file",
            DeltaScope::Global => "global",
        }
    }
}

// ── DDC and decoder error codes ──────────────────────────────────────

/// Manchester encoding, parity, or bit count error.
pub const ERROR_MANCHESTER_PARITY: u16 = 0x011E;
/// No status word response, or too few data words.
pub const ERROR_NO_RESPONSE: u16 = 0x0120;
/// Inverted sync pattern detected on a data word.
pub const ERROR_INVERTED_SYNC: u16 = 0x0136;
/// More data words received than the Command Word specified.
pub const ERROR_TOO_MANY_WORDS: u16 = 0x0140;
/// Unknown or undocumented DDC error.
pub const ERROR_UNKNOWN_DDC: u16 = 0x0150;
/// Spurious data continuing a preceding errored message (decoder-assigned).
pub const ERROR_SPURIOUS_CONTINUATION: u16 = 0x2000;
/// Standalone spurious data with no preceding error (decoder-assigned).
pub const ERROR_SPURIOUS_STANDALONE: u16 = 0x2001;

/// The five DDC hardware error codes.
pub open spec fn spec_known_ddc(code: u16) -> bool {
    code == 0x011E || code == 0x0120 || code == 0x0136 || code == 0x0140 || code == 0x0150
}

/// The two decoder-assigned spurious codes.
pub open spec fn spec_known_custom(code: u16) -> bool {
    code == 0x2000 || code == 0x2001
}

/// Human description of a DDC error code; empty for any other code.
pub open spec fn ddc_description(code: u16) -> Seq<char> {
    if code == 0x011E {
        "Manchester/Parity Error or Bit Count Error"@
    } else if code == 0x0120 {
        "No Status Response or Too Few Data Words"@
    } else if code == 0x0136 {
        "Inverted Sync on Data Word"@
    } else if code == 0x0140 {
        "Too Many Data Words"@
    } else if code == 0x0150 {
        "Unknown DDC Error"@
    } else {
        Seq::empty()
    }
}

/// Whether `code` is a known DDC hardware error code.
pub fn is_known_ddc_error_code(code: u16) -> (b: bool)
    ensures
        b == spec_known_ddc(code),
{
    code == ERROR_MANCHESTER_PARITY || code == ERROR_NO_RESPONSE || code == ERROR_INVERTED_SYNC
        || code == ERROR_TOO_MANY_WORDS || code == ERROR_UNKNOWN_DDC
}

/// Whether `code` is a decoder-assigned spurious code.
pub fn is_known_custom_error_code(code: u16) -> (b: bool)
    ensures
        b == spec_known_custom(code),
{
    code == ERROR_SPURIOUS_CONTINUATION || code == ERROR_SPURIOUS_STANDALONE
}

/// Whether `code` is in either known set.
pub fn is_known_error_code(code: u16) -> (b: bool)
    ensures
        b == (spec_known_ddc(code) || spec_known_custom(code)),
{
    is_known_ddc_error_code(code) || is_known_custom_error_code(code)
}

/// Description of a known DDC code, else the empty string.
pub fn ddc_error_description(code: u16) -> (s: &'static str)
    ensures
        s@ == ddc_description(code),
{
    if code == ERROR_MANCHESTER_PARITY {
        "Manchester/Parity Error or Bit Count Error"
    } else if code == ERROR_NO_RESPONSE {
        "No Status Response or Too Few Data Words"
    } else if code == ERROR_INVERTED_SYNC {
        "Inverted Sync on Data Word"
    } else if code == ERROR_TOO_MANY_WORDS {
        "Too Many Data Words"
    } else if code == ERROR_UNKNOWN_DDC {
        "Unknown DDC Error"
    } else {
        proof {
            reveal_strlit("");
        }
        ""
    }
}

/// Description of a known DDC code, else `"unknown DDC error code"`.
pub fn ddc_error_description_or_unknown(code: u16) -> (s: &'static str)
    ensures
        s@ == (if spec_known_ddc(code) {
            ddc_description(code)
        } else {
            "unknown DDC error code"@
        }),
{
    let desc = ddc_error_description(code);
    if desc.is_empty() {
        proof {
            reveal_strlit("Manchester/Parity Error or Bit Count Error");
            reveal_strlit("No Status Response or Too Few Data Words");
            reveal_strlit("Inverted Sync on Data Word");
            reveal_strlit("Too Many Data Words");
            reveal_strlit("Unknown DDC Error");
        }
        "unknown DDC error code"
    } else {
        desc
    }
}

// ── Timestamps ────────────────────────────────────────────────────────

/// IRIG-format timestamp decoded from a three-word field.
#[derive(Debug, Clone, Copy, PartialEq, Eq, Structural)]
pub struct IrigTimestamp {
    pub day: u16,
    pub hour: u8,
    pub minute: u8,
    pub second: u8,
    pub microsecond: u32,
    pub freerun: bool,
}

/// Microseconds from the start of the year.
pub open spec fn irig_total_us(t: IrigTimestamp) -> int {
    (t.day * 86400 + t.hour * 3600 + t.minute * 60 + t.second) * 1000000 + t.microsecond
}

/// The absolute microseconds of an IRIG timestamp weigh each field by its
/// length in microseconds: zero at day 0, 00:00:00.000000; one more day adds
/// 86 400 000 000, one more hour 3 600 000 000, one more minute 60 000 000,
/// one more second 1 000 000 and one more microsecond 1. The freerun flag
/// does not count.
pub proof fn law_irig_field_weights(t: IrigTimestamp)
    ensures
        irig_total_us(IrigTimestamp { day: 0, hour: 0, minute: 0, second: 0, microsecond: 0, ..t }) == 0,
        t.day < u16::MAX ==> irig_total_us(IrigTimestamp { day: (t.day + 1) as u16, ..t }) == irig_total_us(t)
            + 86_400_000_000,
        t.hour < u8::MAX ==> irig_total_us(IrigTimestamp { hour: (t.hour + 1) as u8, ..t }) == irig_total_us(
            t,
        ) + 3_600_000_000,
        t.minute < u8::MAX ==> irig_total_us(IrigTimestamp { minute: (t.minute + 1) as u8, ..t })
            == irig_total_us(t) + 60_000_000,
        t.second < u8::MAX ==> irig_total_us(IrigTimestamp { second: (t.second + 1) as u8, ..t })
            == irig_total_us(t) + 1_000_000,
        t.microsecond < u32::MAX ==> irig_total_us(
            IrigTimestamp { microsecond: (t.microsecond + 1) as u32, ..t },
        ) == irig_total_us(t) + 1,
        irig_total_us(IrigTimestamp { freerun: !t.freerun, ..t }) == irig_total_us(t),
{
}

/// `HH:MM:SS.uuuuuu`, the part every rendering shares. The microsecond field
/// is always six digits: it is taken modulo one million.
pub open spec fn clock_text(t: IrigTimestamp) -> Seq<char> {
    dec_w(t.hour as nat, 2) + seq![':'] + dec_w(t.minute as nat, 2) + seq![':'] + dec_w(
        t.second as nat,
        2,
    ) + seq!['.'] + dec_w((t.microsecond % 1000000) as nat, 6)
}

/// `DAY:HH:MM:SS.uuuuuu`, the vendor rendering.
pub open spec fn irig_doy_text(t: IrigTimestamp) -> Seq<char> {
    dec(t.day as nat) + seq![':'] + clock_text(t)
}

/// ISO-8601 zone designator: `Z` at zero, else `+HH:MM` / `-HH:MM`.
pub open spec fn utc_offset_text(minutes: i16) -> Seq<char> {
    if minutes == 0 {
        seq!['Z']
    } else {
        let a: int = if minutes < 0 {
            -minutes
        } else {
            minutes as int
        };
        seq![
            if minutes < 0 {
                '-'
            } else {
                '+'
            },
        ] + dec_w((a / 60) as nat, 2) + seq![':'] + dec_w((a % 60) as nat, 2)
    }
}

/// The IRIG rendering a `TimeRender` selects, or why it has none.
pub open spec fn irig_render(t: IrigTimestamp, r: TimeRender) -> Result<Seq<char>, CalendarError> {
    if r.format == OutputTimeFormat::Doy {
        Ok(irig_doy_text(t))
    } else if t.freerun {
        Err(CalendarError::FreerunNotAnchored)
    } else {
        match r.year {
            None => Err(CalendarError::MissingYear),
            Some(y) => match spec_month_day(y, t.day) {
                None => Err(CalendarError::NoSuchDay { day: t.day, year: y }),
                Some((m, d)) => if r.format == OutputTimeFormat::Iso {
                    Ok(
                        dec_w(y as nat, 4) + seq!['-'] + dec_w(m as nat, 2) + seq!['-'] + dec_w(
                            d as nat,
                            2,
                        ) + seq!['T'] + clock_text(t) + utc_offset_text(r.utc_offset_minutes),
                    )
                } else {
                    Ok(dec_w(d as nat, 2) + seq![':'] + clock_text(t))
                },
            },
        }
    }
}

/// The clock part of every rendering reads back as the timestamp's fields:
/// two digits of hour, `:`, two of minute, `:`, two of second, `.`, and six
/// digits of the microseconds below one second.
pub proof fn law_clock_text_fields(t: IrigTimestamp)
    requires
        t.hour < 100,
        t.minute < 100,
        t.second < 100,
    ensures
        ({
            let c = clock_text(t);
            &&& c.len() == 15
            &&& c[2] == ':' && c[5] == ':' && c[8] == '.'
            &&& dec_value(c.subrange(0, 2)) == t.hour
            &&& dec_value(c.subrange(3, 5)) == t.minute
            &&& dec_value(c.subrange(6, 8)) == t.second
            &&& dec_value(c.subrange(9, 15)) == t.microsecond % 1000000
            &&& forall|i: int| 0 <= i < 15 && i != 2 && i != 5 && i != 8 ==> is_dec_digit(#[trigger] c[i])
        }),
{
    assert(pow10(2) == 100 && pow10(6) == 1000000) by {
        reveal_with_fuel(pow10, 7);
    }
    let h = dec_w(t.hour as nat, 2);
    let m = dec_w(t.minute as nat, 2);
    let sec = dec_w(t.second as nat, 2);
    let f = dec_w((t.microsecond % 1000000) as nat, 6);
    lemma_dec_w_exact(t.hour as nat, 2);
    lemma_dec_w_exact(t.minute as nat, 2);
    lemma_dec_w_exact(t.second as nat, 2);
    lemma_dec_w_exact((t.microsecond % 1000000) as nat, 6);
    let c = clock_text(t);
    assert(c == h + seq![':'] + m + seq![':'] + sec + seq!['.'] + f);
    assert(c.subrange(0, 2) =~= h);
    assert(c.subrange(3, 5) =~= m);
    assert(c.subrange(6, 8) =~= sec);
    assert(c.subrange(9, 15) =~= f);
    assert forall|i: int| 0 <= i < 15 && i != 2 && i != 5 && i != 8 implies is_dec_digit(#[trigger] c[i]) by {
        if i < 2 {
            assert(c[i] == h[i]);
        } else if i < 5 {
            assert(c[i] == m[i - 3]);
        } else if i < 8 {
            assert(c[i] == sec[i - 6]);
        } else {
            assert(c[i] == f[i - 9]);
        }
    }
}

/// The fractional seconds of a rendering: the microsecond field below one
/// second, as six digits.
pub open spec fn fraction_text(t: IrigTimestamp) -> Seq<char> {
    dec_w((t.microsecond % 1000000) as nat, 6)
}

proof fn lemma_offset_text_shape(minutes: i16)
    ensures
        !utc_offset_text(minutes).contains('.'),
        utc_offset_text(minutes).len() > 0 && !is_dec_digit(utc_offset_text(minutes)[0]),
{
    let o = utc_offset_text(minutes);
    if minutes != 0 {
        let a: int = if minutes < 0 {
            -minutes
        } else {
            minutes as int
        };
        let h = dec_w((a / 60) as nat, 2);
        let m = dec_w((a % 60) as nat, 2);
        lemma_dec_w_digits((a / 60) as nat, 2);
        lemma_dec_w_digits((a % 60) as nat, 2);
        let sign = if minutes < 0 {
            '-'
        } else {
            '+'
        };
        assert(o == seq![sign] + h + seq![':'] + m);
        assert forall|i: int| 0 <= i < o.len() implies o[i] != '.' by {
            if i == 0 {
            } else if i < 1 + h.len() {
                assert(o[i] == h[i - 1]);
                assert(is_dec_digit(h[i - 1]));
            } else if i == 1 + h.len() {
            } else {
                assert(o[i] == m[i - 2 - h.len()]);
                assert(is_dec_digit(m[i - 2 - h.len()]));
            }
        }
    } else {
        assert forall|i: int| 0 <= i < o.len() implies o[i] != '.' by {
            assert(o[i] == 'Z');
        }
    }
}

/// Every rendering of an IRIG timestamp has exactly six fractional digits,
/// the microsecond field below one second: its text is a prefix, a `.`, the
/// six digits, and a tail with no `.` that does not start with a digit.
pub proof fn law_fraction_is_six_digits(t: IrigTimestamp, r: TimeRender)
    ensures
        fraction_text(t).len() == 6,
        forall|i: int| 0 <= i < 6 ==> is_dec_digit(#[trigger] fraction_text(t)[i]),
        irig_render(t, r) matches Ok(s) ==> exists|pre: Seq<char>, post: Seq<char>|
            s == pre + seq!['.'] + fraction_text(t) + post && !post.contains('.') && (post.len() == 0
                || !is_dec_digit(post[0])),
{
    let us = (t.microsecond % 1000000) as nat;
    assert(pow10(6) == 1000000) by {
        reveal_with_fuel(pow10, 7);
    }
    lemma_dec_len(us, 6);
    lemma_dec_w_digits(us, 6);
    let f = fraction_text(t);
    let head = dec_w(t.hour as nat, 2) + seq![':'] + dec_w(t.minute as nat, 2) + seq![':'] + dec_w(
        t.second as nat,
        2,
    );
    assert(clock_text(t) == head + seq!['.'] + f);
    let empty = Seq::<char>::empty();
    assert(!empty.contains('.'));
    match irig_render(t, r) {
        Ok(s) => {
            if r.format == OutputTimeFormat::Doy {
                let pre = dec(t.day as nat) + seq![':'] + head;
                assert(s =~= pre + seq!['.'] + f + empty);
            } else {
                let y = r.year.unwrap();
                let (m, d) = spec_month_day(y, t.day).unwrap();
                if r.format == OutputTimeFormat::Iso {
                    let pre = dec_w(y as nat, 4) + seq!['-'] + dec_w(m as nat, 2) + seq!['-'] + dec_w(
                        d as nat,
                        2,
                    ) + seq!['T'] + head;
                    let post = utc_offset_text(r.utc_offset_minutes);
                    lemma_offset_text_shape(r.utc_offset_minutes);
                    assert(s =~= pre + seq!['.'] + f + post);
                } else {
                    let pre = dec_w(d as nat, 2) + seq![':'] + head;
                    assert(s =~= pre + seq!['.'] + f + empty);
                }
            }
        },
        Err(_) => {},
    }
}

/// Renders a UTC offset in minutes as an ISO-8601 designator.
pub fn format_utc_offset(minutes: i16) -> (s: String)
    ensures
        s@ == utc_offset_text(minutes),
{
    let mut s = String::new();
    if minutes == 0 {
        push_char(&mut s, 'Z');
        assert(s@ =~= seq!['Z']);
        return s;
    }
    let a: u64 = if minutes < 0 {
        (0i32 - minutes as i32) as u64
    } else {
        minutes as u64
    };
    push_char(&mut s, if minutes < 0 {
        '-'
    } else {
        '+'
    });
    push_dec_w(&mut s, a / 60, 2);
    push_char(&mut s, ':');
    push_dec_w(&mut s, a % 60, 2);
    assert(s@ =~= utc_offset_text(minutes));
    s
}

fn push_clock(s: &mut String, t: &IrigTimestamp)
    ensures
        final(s)@ == old(s)@ + clock_text(*t),
{
    let ghost start = s@;
    push_dec_w(s, t.hour as u64, 2);
    push_char(s, ':');
    push_dec_w(s, t.minute as u64, 2);
    push_char(s, ':');
    push_dec_w(s, t.second as u64, 2);
    push_char(s, '.');
    push_dec_w(s, (t.microsecond % 1_000_000) as u64, 6);
    assert(s@ =~= start + clock_text(*t));
}

impl IrigTimestamp {
    /// Absolute microseconds from the start of the year.
    pub fn to_total_microseconds(self) -> (us: u64)
        ensures
            us == irig_total_us(self),
    {
        let day = self.day as u64;
        let hour = self.hour as u64;
        let minute = self.minute as u64;
        let second = self.second as u64;
        let micro = self.microsecond as u64;
        (day * 86_400 + hour * 3_600 + minute * 60 + second) * 1_000_000 + micro
    }

    /// `DAY:HH:MM:SS.uuuuuu`, the DDC vendor layout.
    pub fn format(&self) -> (s: String)
        ensures
            s@ == irig_doy_text(*self),
    {
        let mut s = String::new();
        push_dec(&mut s, self.day as u64);
        push_char(&mut s, ':');
        push_clock(&mut s, self);
        assert(s@ =~= irig_doy_text(*self));
        s
    }

    /// Renders under `render`. `Doy` never fails; the calendar renderings
    /// refuse a freerun timestamp, a missing year, and a day that does not
    /// exist in the year.
    pub fn format_with(&self, render: TimeRender) -> (r: Result<String, CalendarError>)
        ensures
            match (r, irig_render(*self, render)) {
                (Ok(s), Ok(t)) => s@ == t,
                (Err(e), Err(f)) => e == f,
                _ => false,
            },
    {
        match render.format {
            OutputTimeFormat::Doy => {
                return Ok(self.format());
            },
            _ => {},
        }
        if self.freerun {
            return Err(CalendarError::FreerunNotAnchored);
        }
        let year = match render.year {
            None => {
                return Err(CalendarError::MissingYear);
            },
            Some(y) => y,
        };
        let (month, day_of_month) = match day_of_year_to_month_day(year, self.day) {
            None => {
                return Err(CalendarError::NoSuchDay { day: self.day, year });
            },
            Some(md) => md,
        };
        let mut s = String::new();
        match render.format {
            OutputTimeFormat::Iso => {
                push_dec_w(&mut s, year as u64, 4);
                push_char(&mut s, '-');
                push_dec_w(&mut s, month as u64, 2);
                push_char(&mut s, '-');
                push_dec_w(&mut s, day_of_month as u64, 2);
                push_char(&mut s, 'T');
                push_clock(&mut s, self);
                let zone = format_utc_offset(render.utc_offset_minutes);
                push_str(&mut s, zone.as_str());
            },
            _ => {
                push_dec_w(&mut s, day_of_month as u64, 2);
                push_char(&mut s, ':');
                push_clock(&mut s, self);
            },
        }
        proof {
            let t = irig_render(*self, render);
            assert(t is Ok);
            assert(s@ =~= t->Ok_0);
        }
        Ok(s)
    }
}

/// Standard-format timestamp: a free-running two-word counter.
#[derive(Debug, Clone, Copy, PartialEq, Eq, Structural)]
pub struct StandardTimestamp {
    pub raw_value: u32,
    pub upper_word: u16,
    pub lower_word: u16,
}

/// `0xNNNNNNNN`, upper-case hex.
pub open spec fn standard_text(t: StandardTimestamp) -> Seq<char> {
    seq!['0', 'x'] + hex_w(t.raw_value as nat, 8)
}

impl StandardTimestamp {
    /// The raw 32-bit counter value, in card-dependent tick units.
    pub fn raw_ticks(self) -> (v: u32)
        ensures
            v == self.raw_value,
    {
        self.raw_value
    }

    /// `0xNNNNNNNN`.
    pub fn format(&self) -> (s: String)
        ensures
            s@ == standard_text(*self),
    {
        let mut s = String::new();
        push_char(&mut s, '0');
        push_char(&mut s, 'x');
        push_hex_w(&mut s, self.raw_value as u64, 8);
        assert(s@ =~= standard_text(*self));
        s
    }

    /// The counter's rendering under `Doy`; the calendar renderings refuse it,
    /// since a free-running counter has no epoch.
    pub fn format_with(&self, render: TimeRender) -> (r: Result<String, CalendarError>)
        ensures
            match r {
                Ok(s) => render.format == OutputTimeFormat::Doy && s@ == standard_text(*self),
                Err(e) => render.format != OutputTimeFormat::Doy && e
                    == CalendarError::NotCalendarLocked,
            },
    {
        if render.format.needs_calendar() {
            return Err(CalendarError::NotCalendarLocked);
        }
        Ok(self.format())
    }
}

/// A decoded timestamp in either encoding.
#[derive(Debug, Clone, Copy, PartialEq, Eq, Structural)]
pub enum Timestamp {
    Irig(IrigTimestamp),
    Standard(StandardTimestamp),
}

/// The day-of-year rendering of a timestamp.
pub open spec fn timestamp_text(t: Timestamp) -> Seq<char> {
    match t {
        Timestamp::Irig(i) => irig_doy_text(i),
        Timestamp::Standard(s) => standard_text(s),
    }
}

/// The rendering `r` selects for a timestamp, or why it has none.
pub open spec fn timestamp_render(t: Timestamp, r: TimeRender) -> Result<Seq<char>, CalendarError> {
    match t {
        Timestamp::Irig(i) => irig_render(i, r),
        Timestamp::Standard(s) => if r.format == OutputTimeFormat::Doy {
            Ok(standard_text(s))
        } else {
            Err(CalendarError::NotCalendarLocked)
        },
    }
}

impl Timestamp {
    pub fn format(&self) -> (s: String)
        ensures
            s@ == timestamp_text(*self),
    {
        match self {
            Timestamp::Irig(t) => t.format(),
            Timestamp::Standard(t) => t.format(),
        }
    }

    pub fn format_with(&self, render: TimeRender) -> (r: Result<String, CalendarError>)
        ensures
            match (r, timestamp_render(*self, render)) {
                (Ok(s), Ok(t)) => s@ == t,
                (Err(e), Err(f)) => e == f,
                _ => false,
            },
    {
        match self {
            Timestamp::Irig(t) => t.format_with(render),
            Timestamp::Standard(t) => t.format_with(render),
        }
    }

    /// Microseconds from the start of the year for an IRIG timestamp; `None`
    /// for a Standard counter, whose conversion needs an external tick rate.
    pub fn irig_microseconds(&self) -> (us: Option<u64>)
        ensures
            us == (match *self {
                Timestamp::Irig(t) => Some(irig_total_us(t) as u64),
                Timestamp::Standard(_) => None,
            }),
    {
        match self {
            Timestamp::Irig(t) => Some(t.to_total_microseconds()),
            Timestamp::Standard(_) => None,
        }
    }
}

/// Number of 16-bit words each timestamp format occupies.
pub open spec fn spec_timestamp_words(fmt: TimestampFormat) -> u16 {
    match fmt {
        TimestampFormat::Irig => 3,
        TimestampFormat::Standard => 2,
        TimestampFormat::Auto => 0,
    }
}

pub fn timestamp_word_count(fmt: TimestampFormat) -> (n: u16)
    ensures
        n == spec_timestamp_words(fmt),
{
    match fmt {
        TimestampFormat::Irig => 3,
        TimestampFormat::Standard => 2,
        TimestampFormat::Auto => 0,
    }
}

// ── Type Word / Command Word ──────────────────────────────────────────

/// Decoded DDC Type Word.
#[derive(Debug, Clone, Copy, PartialEq, Eq, Structural)]
pub struct TypeWord {
    pub message_type: u8,
    pub bus: Bus,
    pub word_count: u16,
    pub error: bool,
    pub raw: u16,
}

/// Decoded MIL-STD-1553 Command Word.
#[derive(Debug, Clone, Copy, PartialEq, Eq, Structural)]
pub struct CommandWord {
    /// Remote Terminal address (0-30; 31 is broadcast).
    pub rt: u8,
    pub direction: Direction,
    /// Subaddress (0-31; 0 and 31 are mode codes).
    pub subaddress: u8,
    /// Number of data words (1-32; raw 0 means 32).
    pub data_word_count: u8,
    pub raw: u16,
}

impl CommandWord {
    pub fn is_broadcast(&self) -> (b: bool)
        ensures
            b == (self.rt == 31),
    {
        self.rt == 31
    }

    pub fn is_mode_code(&self) -> (b: bool)
        ensures
            b == (self.subaddress == 0 || self.subaddress == 31),
    {
        self.subaddress == 0 || self.subaddress == 31
    }
}

// ── DataWords ─────────────────────────────────────────────────────────

/// MIL-STD-1553B caps a single transaction at 32 data words.
pub const MAX_DATA_WORDS: usize = 32;

/// The data words of one message: at most [`MAX_DATA_WORDS`] of them.
#[derive(Debug, PartialEq, Eq)]
pub struct DataWords {
    words: Vec<u16>,
}

impl View for DataWords {
    type V = Seq<u16>;

    closed spec fn view(&self) -> Seq<u16> {
        self.words@
    }
}

impl Clone for DataWords {
    fn clone(&self) -> (d: DataWords)
        ensures
            d@ == self@,
    {
        self.duplicate()
    }
}

impl Default for DataWords {
    fn default() -> (d: DataWords)
        ensures
            d@ == Seq::<u16>::empty(),
    {
        DataWords::new()
    }
}

impl DataWords {
    #[verifier::type_invariant]
    spec fn within_cap(self) -> bool {
        self.words.len() <= 32
    }

    /// An empty buffer.
    pub fn new() -> (d: DataWords)
        ensures
            d@ == Seq::<u16>::empty(),
    {
        DataWords { words: Vec::new() }
    }

    /// The first [`MAX_DATA_WORDS`] words of `slice`; a longer slice is
    /// truncated rather than refused.
    pub fn from_slice(slice: &[u16]) -> (d: DataWords)
        ensures
            d@ == slice@.take(if slice@.len() <= 32 {
                slice@.len() as int
            } else {
                32
            }),
    {
        let n = if slice.len() < MAX_DATA_WORDS {
            slice.len()
        } else {
            MAX_DATA_WORDS
        };
        let mut words: Vec<u16> = Vec::new();
        let mut i: usize = 0;
        while i < n
            invariant
                i <= n <= 32,
                n <= slice@.len(),
                words@ == slice@.take(i as int),
            decreases n - i,
        {
            words.push(slice[i]);
            i = i + 1;
            assert(words@ =~= slice@.take(i as int));
        }
        DataWords { words }
    }

    /// Words taken in order until the buffer is full; later ones are dropped.
    pub fn from_iter_capped(items: Vec<u16>) -> (d: DataWords)
        ensures
            d@ == items@.take(if items@.len() <= 32 {
                items@.len() as int
            } else {
                32
            }),
    {
        let mut out = DataWords::new();
        let mut i: usize = 0;
        while i < items.len()
            invariant
                i <= items.len(),
                out@ == items@.take(if i <= 32 {
                    i as int
                } else {
                    32
                }),
            decreases items.len() - i,
        {
            if !out.try_push(items[i]) {
                proof {
                    assert(items@.take(32) =~= items@.take(if items@.len() <= 32 {
                        items@.len() as int
                    } else {
                        32
                    }));
                }
                return out;
            }
            i = i + 1;
            assert(out@ =~= items@.take(if i <= 32 {
                i as int
            } else {
                32
            }));
        }
        assert(items@.take(items.len() as int) =~= items@);
        out
    }

    /// Appends one word; `false` (and no change) when already full.
    pub fn try_push(&mut self, word: u16) -> (pushed: bool)
        ensures
            pushed == (old(self)@.len() < 32),
            final(self)@ == (if pushed {
                old(self)@.push(word)
            } else {
                old(self)@
            }),
    {
        proof {
            use_type_invariant(&*self);
        }
        if self.words.len() >= MAX_DATA_WORDS {
            return false;
        }
        let mut words: Vec<u16> = Vec::new();
        core::mem::swap(&mut words, &mut self.words);
        words.push(word);
        self.words = words;
        true
    }

    pub fn len(&self) -> (n: usize)
        ensures
            n == self@.len(),
            n <= 32,
    {
        proof {
            use_type_invariant(self);
        }
        self.words.len()
    }

    pub fn is_empty(&self) -> (b: bool)
        ensures
            b == (self@.len() == 0),
    {
        self.words.len() == 0
    }

    pub fn as_slice(&self) -> (s: &[u16])
        ensures
            s@ == self@,
    {
        self.words.as_slice()
    }

    /// An iterator over the words, in order.
    pub fn iter(&self) -> (it: std::slice::Iter<'_, u16>)
        ensures
            vstd::std_specs::iter::IteratorSpec::remaining(&it) == self@.as_ref(),
    {
        let s = self.as_slice();
        proof {
            broadcast use vstd::std_specs::slice::group_slice_axioms;

        }
        s.iter()
    }

    /// The word at `i`, if there is one.
    pub fn get(&self, i: usize) -> (w: Option<u16>)
        ensures
            w == (if i < self@.len() {
                Some(self@[i as int])
            } else {
                None
            }),
    {
        if i < self.words.len() {
            Some(self.words[i])
        } else {
            None
        }
    }

    /// A copy of the words.
    pub fn to_vec(&self) -> (v: Vec<u16>)
        ensures
            v@ == self@,
    {
        let mut v: Vec<u16> = Vec::new();
        let mut i: usize = 0;
        while i < self.words.len()
            invariant
                i <= self.words@.len(),
                v@ == self.words@.take(i as int),
            decreases self.words.len() - i,
        {
            v.push(self.words[i]);
            i = i + 1;
            assert(v@ =~= self.words@.take(i as int));
        }
        assert(self.words@.take(self.words@.len() as int) =~= self.words@);
        v
    }

    /// An identical buffer.
    pub fn duplicate(&self) -> (d: DataWords)
        ensures
            d@ == self@,
    {
        proof {
            use_type_invariant(self);
        }
        let v = self.to_vec();
        DataWords { words: v }
    }
}

// ── MieMessage ────────────────────────────────────────────────────────

/// One decoded record.
#[derive(Debug, Clone, PartialEq)]
pub struct MieMessage {
    pub timestamp: Timestamp,
    pub type_word: TypeWord,
    pub message_format: MessageFormat,
    pub command_word: Option<CommandWord>,
    pub command_word_2: Option<CommandWord>,
    pub status_word: Option<u16>,
    pub status_word_2: Option<u16>,
    pub data_words: DataWords,
    pub error_word: Option<u16>,
    /// Microseconds since the prior message with the same RT/MSG key:
    /// `Some(0)` on the first occurrence, `None` where no gap is meaningful
    /// (no RT/MSG key, an uncalibrated counter, or a backward clock step).
    /// The CSV renders it as seconds with six decimals.
    pub delta_us: Option<u64>,
    pub file_offset: u64,
    /// MUX column value derived from the source file name; `None` when MUX
    /// population is off or the configured field is absent.
    pub mux: Option<String>,
}

/// The direction letter of a `MSG` label: `T` for transmit, `R` for receive.
pub open spec fn direction_letter(d: Direction) -> char {
    match d {
        Direction::Transmit => 'T',
        Direction::Receive => 'R',
    }
}

/// `<SA><T|R>`, or empty for a record with no Command Word.
pub open spec fn msg_label_text(cw: Option<CommandWord>) -> Seq<char> {
    match cw {
        None => Seq::empty(),
        Some(c) => dec(c.subaddress as nat).push(direction_letter(c.direction)),
    }
}

/// `<RT>:<SA><T|R>`, or empty for a record with no Command Word.
pub open spec fn delta_key_text(cw: Option<CommandWord>) -> Seq<char> {
    match cw {
        None => Seq::empty(),
        Some(c) => dec(c.rt as nat) + seq![':'] + dec(c.subaddress as nat).push(
            direction_letter(c.direction),
        ),
    }
}

/// The `ERROR` column: `ERROR`, `SPURIOUS`, or empty.
pub open spec fn error_label_text(error: bool, format: MessageFormat) -> Seq<char> {
    if error {
        "ERROR"@
    } else if format == MessageFormat::SpuriousData {
        "SPURIOUS"@
    } else {
        Seq::empty()
    }
}

fn push_direction(s: &mut String, d: Direction)
    ensures
        final(s)@ == old(s)@.push(direction_letter(d)),
{
    match d {
        Direction::Transmit => push_char(s, 'T'),
        Direction::Receive => push_char(s, 'R'),
    }
}

impl MieMessage {
    pub fn rt(&self) -> (r: Option<u8>)
        ensures
            r == (match self.command_word {
                Some(c) => Some(c.rt),
                None => None,
            }),
    {
        match self.command_word {
            Some(c) => Some(c.rt),
            None => None,
        }
    }

    pub fn subaddress(&self) -> (r: Option<u8>)
        ensures
            r == (match self.command_word {
                Some(c) => Some(c.subaddress),
                None => None,
            }),
    {
        match self.command_word {
            Some(c) => Some(c.subaddress),
            None => None,
        }
    }

    pub fn bus(&self) -> (b: Bus)
        ensures
            b == self.type_word.bus,
    {
        self.type_word.bus
    }

    /// `<SA><T|R>`, or empty for `SPURIOUS_DATA`.
    pub fn msg_label(&self) -> (s: String)
        ensures
            s@ == msg_label_text(self.command_word),
    {
        let mut s = String::new();
        match self.command_word {
            None => {},
            Some(cw) => {
                push_dec(&mut s, cw.subaddress as u64);
                push_direction(&mut s, cw.direction);
            },
        }
        assert(s@ =~= msg_label_text(self.command_word));
        s
    }

    /// `<RT>:<SA><T|R>`, the per-RT/MSG key, or empty for `SPURIOUS_DATA`.
    pub fn delta_key(&self) -> (s: String)
        ensures
            s@ == delta_key_text(self.command_word),
    {
        let mut s = String::new();
        match self.command_word {
            None => {},
            Some(cw) => {
                push_dec(&mut s, cw.rt as u64);
                push_char(&mut s, ':');
                push_dec(&mut s, cw.subaddress as u64);
                push_direction(&mut s, cw.direction);
            },
        }
        assert(s@ =~= delta_key_text(self.command_word));
        s
    }

    pub fn is_error(&self) -> (b: bool)
        ensures
            b == self.type_word.error,
    {
        self.type_word.error
    }

    pub fn is_spurious(&self) -> (b: bool)
        ensures
            b == (self.message_format == MessageFormat::SpuriousData),
    {
        match self.message_format {
            MessageFormat::SpuriousData => true,
            _ => false,
        }
    }

    /// `ERROR` for an errored record, `SPURIOUS` for spurious data, else empty.
    pub fn error_label(&self) -> (s: &'static str)
        ensures
            s@ == error_label_text(self.type_word.error, self.message_format),
    {
        if self.type_word.error {
            "ERROR"
        } else if self.is_spurious() {
            "SPURIOUS"
        } else {
            proof {
                reveal_strlit("");
            }
            ""
        }
    }
}

} // verus!
