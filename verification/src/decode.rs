//! Binary-to-structure decoders for MIE record fields. All multi-byte values
//! are little-endian.
use vstd::prelude::*;

use crate::error::MieError;
use crate::models::{
    spec_valid_message_type, is_valid_message_type, Bus, CommandWord, Direction, IrigTimestamp,
    MessageFormat, MessageType, StandardTimestamp, TimestampFormat, TypeWord,
};
use crate::text::{
    chars_of, dec, hex_w, push_char, push_dec, push_hex_w, push_str, split_chars, split_on,
    string_from_chars, trim, trimmed, views, lemma_trim_idempotent,
};

verus! {

/// Minimum record size in bytes for IRIG: Type(2) + TS(6) + Cmd(2).
pub const MIN_RECORD_BYTES: usize = 10;
/// Minimum record size in bytes for Standard: Type(2) + TS(4) + Cmd(2).
pub const MIN_RECORD_BYTES_STANDARD: usize = 8;
/// Minimum record size in words for IRIG: Type(1) + TS(3) + Cmd(1).
pub const MIN_RECORD_WORDS: u16 = 5;
/// Minimum record size in words for Standard: Type(1) + TS(2) + Cmd(1).
pub const MIN_RECORD_WORDS_STANDARD: u16 = 4;

/// End-of-records terminator: a null Type Word. Its word count is zero, so it
/// can never be a record.
pub const TERMINATOR_TYPE_WORD: u16 = 0x0000;

/// True if `raw` is the end-of-records terminator.
pub fn is_terminator_type_word(raw: u16) -> (b: bool)
    ensures
        b == (raw == 0),
{
    raw == TERMINATOR_TYPE_WORD
}

// ── Primitive readers ─────────────────────────────────────────────────

/// The little-endian word at byte `off` of `data` (both bytes present).
pub open spec fn le_u16(data: Seq<u8>, off: int) -> u16 {
    (data[off] as int + 256 * data[off + 1] as int) as u16
}

/// The little-endian word at `off`, or `None` when it does not fit.
pub open spec fn spec_read_u16(data: Seq<u8>, off: int) -> Option<u16> {
    if 0 <= off && off + 2 <= data.len() {
        Some(le_u16(data, off))
    } else {
        None
    }
}

/// Reads the little-endian `u16` at `offset`; `None` if it runs past the end.
pub fn read_u16(data: &[u8], offset: usize) -> (r: Option<u16>)
    ensures
        r == spec_read_u16(data@, offset as int),
{
    if offset < data.len() && data.len() - offset >= 2 {
        let lo = data[offset] as u16;
        let hi = data[offset + 1] as u16;
        Some(lo + hi * 256)
    } else {
        None
    }
}

/// Reads `count` little-endian words starting at `offset` into `out`.
/// Returns `false`, leaving `out` unchanged, if they run past the end.
pub fn read_u16_array(data: &[u8], offset: usize, count: usize, out: &mut Vec<u16>) -> (ok: bool)
    requires
        count * 2 <= usize::MAX,
        offset + 2 * count <= data@.len() ==> count <= old(out)@.len(),
    ensures
        ok == (offset + 2 * count <= data@.len()),
        final(out)@.len() == old(out)@.len(),
        ok ==> forall|i: int|
            0 <= i < count ==> final(out)@[i] == le_u16(data@, offset + 2 * i),
        ok ==> forall|i: int| count <= i < old(out)@.len() ==> final(out)@[i] == old(out)@[i],
        !ok ==> final(out)@ == old(out)@,
{
    let needed = count * 2;
    if offset > data.len() || needed > data.len() - offset {
        return false;
    }
    let mut i: usize = 0;
    let mut at: usize = offset;
    while i < count
        invariant
            i <= count <= out@.len(),
            offset + 2 * count <= data@.len(),
            at == offset + 2 * i,
            out@.len() == old(out)@.len(),
            forall|k: int| 0 <= k < i ==> out@[k] == le_u16(data@, offset + 2 * k),
            forall|k: int| count <= k < out@.len() ==> out@[k] == old(out)@[k],
        decreases count - i,
    {
        let lo = data[at] as u16;
        let hi = data[at + 1] as u16;
        out.set(i, lo + hi * 256);
        i = i + 1;
        at = at + 2;
    }
    true
}

// ── Field decoders ────────────────────────────────────────────────────

/// The Type Word layout: type in bits 0-6, bus in bit 7, word count in bits
/// 8-13, error flag in bit 14.
pub open spec fn spec_type_word(raw: u16) -> TypeWord {
    TypeWord {
        message_type: (raw & 0x7F) as u8,
        bus: if (raw >> 7u16) & 1 == 0 {
            Bus::A
        } else {
            Bus::B
        },
        word_count: (raw >> 8u16) & 0x3F,
        error: (raw >> 14u16) & 1 != 0,
        raw,
    }
}

pub fn decode_type_word(raw: u16) -> (tw: TypeWord)
    ensures
        tw == spec_type_word(raw),
        tw.word_count <= 63,
        tw.message_type <= 127,
{
    assert(raw & 0x7F <= 127 && (raw >> 8u16) & 0x3F <= 63) by (bit_vector);
    let message_type = (raw & 0x7F) as u8;
    let bus = if (raw >> 7) & 1 == 0 {
        Bus::A
    } else {
        Bus::B
    };
    let word_count = (raw >> 8) & 0x3F;
    let error = ((raw >> 14) & 1) != 0;
    TypeWord { message_type, bus, word_count, error, raw }
}

/// The IRIG timestamp layout: freerun in bit 15 of the upper word, day in
/// bits 5-13, hour in bits 0-4; minute in bits 10-15 of the middle word,
/// second in bits 4-9; microseconds in the middle word's low four bits
/// followed by the lower word.
pub open spec fn spec_irig(upper: u16, middle: u16, lower: u16) -> IrigTimestamp {
    IrigTimestamp {
        day: (upper >> 5u16) & 0x01FF,
        hour: (upper & 0x1F) as u8,
        minute: ((middle >> 10u16) & 0x3F) as u8,
        second: ((middle >> 4u16) & 0x3F) as u8,
        microsecond: (((middle & 0xF) as int) * 65536 + lower as int) as u32,
        freerun: (upper >> 15u16) & 1 != 0,
    }
}

/// The decoded IRIG fields account for the three timestamp words: the upper
/// word holds the day (bits 5-13) and hour (bits 0-4) under the freerun flag
/// (bit 15); the middle word the minute (bits 10-15), the second (bits 4-9)
/// and the top four microsecond bits; the lower word the low sixteen
/// microsecond bits.
pub proof fn lemma_irig_fields_cover_words(upper: u16, middle: u16, lower: u16)
    ensures
        ({
            let t = spec_irig(upper, middle, lower);
            &&& upper as int % 16384 == t.day as int * 32 + t.hour as int
            &&& t.freerun == (upper >= 32768)
            &&& middle as int == t.minute as int * 1024 + t.second as int * 16 + t.microsecond as int / 65536
            &&& t.microsecond as int % 65536 == lower as int
            &&& t.microsecond < 1048576
        }),
{
    assert(upper % 16384 == ((upper >> 5u16) & 0x01FF) * 32 + (upper & 0x1F)) by (bit_vector);
    assert(((upper >> 15u16) & 1 != 0) == (upper >= 32768)) by (bit_vector);
    assert(middle == ((middle >> 10u16) & 0x3F) * 1024 + ((middle >> 4u16) & 0x3F) * 16 + (middle & 0xF))
        by (bit_vector);
    assert(middle & 0xF <= 15 && upper & 0x1F <= 31 && (middle >> 10u16) & 0x3F <= 63 && (middle
        >> 4u16) & 0x3F <= 63) by (bit_vector);
    let m = (middle & 0xF) as int;
    let us = m * 65536 + lower as int;
    assert(us / 65536 == m && us % 65536 == lower as int) by (nonlinear_arith)
        requires
            0 <= m <= 15,
            0 <= lower < 65536,
            us == m * 65536 + lower as int,
    ;
}

pub fn decode_irig_timestamp(upper: u16, middle: u16, lower: u16) -> (t: IrigTimestamp)
    ensures
        t == spec_irig(upper, middle, lower),
        t.day <= 511,
        t.hour <= 31,
        t.minute <= 63,
        t.second <= 63,
        t.microsecond < 1048576,
{
    assert(upper & 0x1F <= 31 && (middle >> 10u16) & 0x3F <= 63 && (middle >> 4u16) & 0x3F <= 63
        && middle & 0xF <= 15 && (upper >> 5u16) & 0x01FF <= 511) by (bit_vector);
    let freerun = ((upper >> 15) & 1) != 0;
    let day = (upper >> 5) & 0x01FF;
    let hour = (upper & 0x1F) as u8;
    let minute = ((middle >> 10) & 0x3F) as u8;
    let second = ((middle >> 4) & 0x3F) as u8;
    let us_hi = (middle & 0xF) as u32;
    let us_lo = lower as u32;
    let microsecond = us_hi * 65536 + us_lo;
    IrigTimestamp { day, hour, minute, second, microsecond, freerun }
}

pub fn decode_standard_timestamp(upper: u16, lower: u16) -> (t: StandardTimestamp)
    ensures
        t.raw_value == upper as int * 65536 + lower as int,
        t.upper_word == upper,
        t.lower_word == lower,
{
    let raw_value = (upper as u32) * 65536 + lower as u32;
    StandardTimestamp { raw_value, upper_word: upper, lower_word: lower }
}

/// The Command Word layout: RT in bits 11-15, direction in bit 10,
/// subaddress in bits 5-9, data word count in bits 0-4 (0 meaning 32).
pub open spec fn spec_command_word(raw: u16) -> CommandWord {
    CommandWord {
        rt: ((raw >> 11u16) & 0x1F) as u8,
        direction: if (raw >> 10u16) & 1 == 0 {
            Direction::Receive
        } else {
            Direction::Transmit
        },
        subaddress: ((raw >> 5u16) & 0x1F) as u8,
        data_word_count: if raw & 0x1F == 0 {
            32
        } else {
            (raw & 0x1F) as u8
        },
        raw,
    }
}

pub fn decode_command_word(raw: u16) -> (cw: CommandWord)
    ensures
        cw == spec_command_word(raw),
        cw.rt <= 31,
        cw.subaddress <= 31,
        1 <= cw.data_word_count <= 32,
{
    assert((raw >> 11u16) & 0x1F <= 31 && (raw >> 5u16) & 0x1F <= 31 && raw & 0x1F <= 31)
        by (bit_vector);
    let rt = ((raw >> 11) & 0x1F) as u8;
    let direction = if (raw >> 10) & 1 == 0 {
        Direction::Receive
    } else {
        Direction::Transmit
    };
    let subaddress = ((raw >> 5) & 0x1F) as u8;
    let mut data_word_count = (raw & 0x1F) as u8;
    if data_word_count == 0 {
        data_word_count = 32;
    }
    CommandWord { rt, direction, subaddress, data_word_count, raw }
}

/// The decoded Command Word fields account for every bit of the raw word:
/// `raw == rt·2048 + direction·1024 + subaddress·32 + (data_word_count mod 32)`.
pub proof fn lemma_command_word_fields_cover_raw(raw: u16)
    ensures
        ({
            let cw = spec_command_word(raw);
            let dir: int = if cw.direction == Direction::Transmit {
                1
            } else {
                0
            };
            &&& raw as int == cw.rt as int * 2048 + dir * 1024 + cw.subaddress as int * 32 + (
            cw.data_word_count as int % 32)
            &&& 1 <= cw.data_word_count <= 32
            &&& cw.rt <= 31 && cw.subaddress <= 31
            &&& cw.raw == raw
        }),
{
    assert(raw == ((raw >> 11u16) & 0x1F) * 2048 + ((raw >> 10u16) & 1) * 1024 + ((raw >> 5u16)
        & 0x1F) * 32 + (raw & 0x1F)) by (bit_vector);
    assert((raw >> 10u16) & 1 == 0 || (raw >> 10u16) & 1 == 1) by (bit_vector);
    assert(raw & 0x1F <= 31 && (raw >> 11u16) & 0x1F <= 31 && (raw >> 5u16) & 0x1F <= 31)
        by (bit_vector);
}

/// The decoded Type Word fields account for bits 0-14 of the raw word; bit 15
/// is reserved.
pub proof fn lemma_type_word_fields_cover_raw(raw: u16)
    ensures
        ({
            let tw = spec_type_word(raw);
            let b: int = if tw.bus == Bus::B {
                1
            } else {
                0
            };
            let e: int = if tw.error {
                1
            } else {
                0
            };
            raw as int % 32768 == tw.message_type as int + b * 128 + tw.word_count as int * 256 + e
                * 16384
        }),
{
    assert(raw % 32768 == (raw & 0x7F) + ((raw >> 7u16) & 1) * 128 + ((raw >> 8u16) & 0x3F) * 256
        + ((raw >> 14u16) & 1) * 16384) by (bit_vector);
    assert(((raw >> 7u16) & 1 == 0 || (raw >> 7u16) & 1 == 1) && ((raw >> 14u16) & 1 == 0 || (raw
        >> 14u16) & 1 == 1) && raw & 0x7F <= 127) by (bit_vector);
}

// ── MUX from the file name ────────────────────────────────────────────

/// Default: MUX population is on.
pub const DEFAULT_MUX_ENABLED: bool = true;
/// Default MUX field index: the fifth dot-separated field.
pub const DEFAULT_MUX_FIELD: i64 = 4;
/// Default MUX field delimiter.
pub const DEFAULT_MUX_DELIMITER: &'static str = ".";

/// The MUX value a file name yields: the `field`-th part (negative counts
/// from the end) after splitting on `delimiter`, trimmed; `None` when the
/// delimiter is empty, the index is out of range, or the part is blank.
pub open spec fn spec_mux(name: Seq<char>, delimiter: Seq<char>, field: int) -> Option<Seq<char>> {
    if delimiter.len() == 0 {
        None
    } else {
        let parts = split_on(name, delimiter);
        let idx = if field < 0 {
            parts.len() + field
        } else {
            field
        };
        if idx < 0 || idx >= parts.len() {
            None
        } else if trim(parts[idx]).len() == 0 {
            None
        } else {
            Some(trim(parts[idx]))
        }
    }
}

/// A MUX value is never blank and carries no surrounding whitespace.
pub proof fn law_mux_value_is_trimmed(name: Seq<char>, delimiter: Seq<char>, field: int)
    ensures
        spec_mux(name, delimiter, field) matches Some(v) ==> v.len() > 0 && trim(v) == v,
{
    if delimiter.len() > 0 {
        let parts = split_on(name, delimiter);
        let idx = if field < 0 {
            parts.len() + field
        } else {
            field
        };
        if 0 <= idx < parts.len() {
            lemma_trim_idempotent(parts[idx]);
        }
    }
}

/// A negative field counts from the end: field `-k` names the same part as
/// field `n - k` of the `n` parts, whenever that is not negative.
pub proof fn law_mux_negative_field(name: Seq<char>, delimiter: Seq<char>, field: int)
    requires
        field < 0,
        split_on(name, delimiter).len() + field >= 0,
    ensures
        spec_mux(name, delimiter, field) == spec_mux(
            name,
            delimiter,
            split_on(name, delimiter).len() + field,
        ),
{
}

/// Extracts the MUX column value from a file name (see [`spec_mux`]).
pub fn mux_from_filename(file_name: &str, delimiter: &str, field: i64) -> (r: Option<String>)
    ensures
        match (r, spec_mux(file_name@, delimiter@, field as int)) {
            (None, None) => true,
            (Some(s), Some(t)) => s@ == t,
            _ => false,
        },
{
    let d = chars_of(delimiter);
    if d.len() == 0 {
        return None;
    }
    let name = chars_of(file_name);
    let parts = split_chars(&name, &d);
    let len = parts.len();
    let idx: i128 = if field < 0 {
        len as i128 + field as i128
    } else {
        field as i128
    };
    if idx < 0 || idx >= len as i128 {
        return None;
    }
    let i = idx as usize;
    assert(views(parts@)[i as int] == parts@[i as int]@);
    let value = trimmed(&parts[i]);
    if value.len() == 0 {
        None
    } else {
        Some(string_from_chars(&value))
    }
}

// ── Format classification ─────────────────────────────────────────────

/// Mode-code shape, decided by the word count relative to the timestamp size:
/// broadcast carries data iff `word_count >= timestamp_words + 3`; otherwise
/// data is present iff `word_count >= timestamp_words + 4`, and its position
/// follows the direction.
pub open spec fn spec_mode_code(cmd: CommandWord, word_count: u16, ts_words: u16) -> MessageFormat {
    if cmd.rt == 31 {
        if word_count >= ts_words + 3 {
            MessageFormat::ModeCodeBcastData
        } else {
            MessageFormat::ModeCodeBcastNoData
        }
    } else if word_count >= ts_words + 4 {
        if cmd.direction == Direction::Transmit {
            MessageFormat::ModeCodeTxData
        } else {
            MessageFormat::ModeCodeRxData
        }
    } else {
        MessageFormat::ModeCodeNoData
    }
}

/// The format of a message type; `None` for an unknown type.
pub open spec fn spec_classify(message_type: u8, cmd: CommandWord, word_count: u16, ts_words: u16) -> Option<MessageFormat> {
    if message_type == 0x02 {
        Some(MessageFormat::Receive)
    } else if message_type == 0x04 {
        Some(MessageFormat::Transmit)
    } else if message_type == 0x08 {
        Some(MessageFormat::RtToRt)
    } else if message_type == 0x10 {
        Some(MessageFormat::ReceiveBroadcast)
    } else if message_type == 0x18 {
        Some(MessageFormat::RtToRtBroadcast)
    } else if message_type == 0x01 {
        Some(spec_mode_code(cmd, word_count, ts_words))
    } else if message_type == 0x20 {
        Some(MessageFormat::SpuriousData)
    } else {
        None
    }
}

fn classify_mode_code(cmd: &CommandWord, word_count: u16, timestamp_words: u16) -> (f: MessageFormat)
    ensures
        f == spec_mode_code(*cmd, word_count, timestamp_words),
{
    let wc = word_count as u32;
    let tw = timestamp_words as u32;
    if cmd.rt == 31 {
        if wc >= tw + 3 {
            MessageFormat::ModeCodeBcastData
        } else {
            MessageFormat::ModeCodeBcastNoData
        }
    } else if wc >= tw + 4 {
        match cmd.direction {
            Direction::Transmit => MessageFormat::ModeCodeTxData,
            Direction::Receive => MessageFormat::ModeCodeRxData,
        }
    } else {
        MessageFormat::ModeCodeNoData
    }
}

/// Classifies a record's payload layout from its type, Command Word and
/// word count. An unknown type is `UnknownTypeWord` (offset and raw word 0).
pub fn classify_message_format(
    message_type: u8,
    command_word: &CommandWord,
    word_count: u16,
    timestamp_words: u16,
) -> (r: Result<MessageFormat, MieError>)
    ensures
        match spec_classify(message_type, *command_word, word_count, timestamp_words) {
            Some(f) => r == Ok::<MessageFormat, MieError>(f),
            None => r == Err::<MessageFormat, MieError>(
                MieError::UnknownTypeWord { offset: 0, raw_type_word: 0, message_type },
            ),
        },
{
    match MessageType::from_code(message_type) {
        Some(MessageType::BcToRt) => Ok(MessageFormat::Receive),
        Some(MessageType::RtToBc) => Ok(MessageFormat::Transmit),
        Some(MessageType::RtToRt) => Ok(MessageFormat::RtToRt),
        Some(MessageType::BroadcastBcToRt) => Ok(MessageFormat::ReceiveBroadcast),
        Some(MessageType::BroadcastRtToRt) => Ok(MessageFormat::RtToRtBroadcast),
        Some(MessageType::ModeCommand) => Ok(
            classify_mode_code(command_word, word_count, timestamp_words),
        ),
        Some(MessageType::SpuriousData) => Ok(MessageFormat::SpuriousData),
        None => Err(MieError::UnknownTypeWord { offset: 0, raw_type_word: 0, message_type }),
    }
}

/// Whether a raw type code is known.
pub fn message_type_is_valid(code: u8) -> (b: bool)
    ensures
        b == spec_valid_message_type(code),
{
    is_valid_message_type(code)
}

// ── Structural invariants ─────────────────────────────────────────────

/// Which structural invariant a record violated.
#[derive(Debug, Clone, Copy, PartialEq, Eq, Structural)]
pub enum WhichInvariant {
    /// Type 0x02 (BC to RT) requires a Receive command.
    DirectionBcToRt,
    /// Type 0x04 (RT to BC) requires a Transmit command.
    DirectionRtToBc,
    /// The Type Word's word count is too small for the declared payload.
    WordCountCapacity,
    /// RT-to-RT: the second Command Word must be Receive.
    DirectionRtToRtCmd2,
    /// The Status Word's RT differs from the Command Word's RT (anomaly).
    StatusRtMismatch,
    /// Type Word bit 15, reserved, is set (anomaly).
    TypeWordReservedBit,
    /// RT-to-RT: the two Command Words disagree on the data word count.
    DataWordCountMismatch,
}

/// What a violation means for the record.
#[derive(Debug, Clone, Copy, PartialEq, Eq, Structural)]
pub enum InvariantSeverity {
    /// Strict mode aborts; lenient mode warns and skips the record.
    Reject,
    /// Both modes warn and keep the record.
    AnomalyWarn,
}

/// One violated invariant, with a human-readable detail line.
#[derive(Debug, Clone, PartialEq, Eq)]
pub struct InvariantViolation {
    pub kind: WhichInvariant,
    pub severity: InvariantSeverity,
    pub detail: String,
}

/// The `Debug` name of a message format.
pub open spec fn format_name(f: MessageFormat) -> Seq<char> {
    match f {
        MessageFormat::Receive => "Receive"@,
        MessageFormat::Transmit => "Transmit"@,
        MessageFormat::RtToRt => "RtToRt"@,
        MessageFormat::ReceiveBroadcast => "ReceiveBroadcast"@,
        MessageFormat::RtToRtBroadcast => "RtToRtBroadcast"@,
        MessageFormat::ModeCodeTxData => "ModeCodeTxData"@,
        MessageFormat::ModeCodeRxData => "ModeCodeRxData"@,
        MessageFormat::ModeCodeNoData => "ModeCodeNoData"@,
        MessageFormat::ModeCodeBcastNoData => "ModeCodeBcastNoData"@,
        MessageFormat::ModeCodeBcastData => "ModeCodeBcastData"@,
        MessageFormat::SpuriousData => "SpuriousData"@,
    }
}

fn format_debug_name(f: MessageFormat) -> (s: &'static str)
    ensures
        s@ == format_name(f),
{
    match f {
        MessageFormat::Receive => "Receive",
        MessageFormat::Transmit => "Transmit",
        MessageFormat::RtToRt => "RtToRt",
        MessageFormat::ReceiveBroadcast => "ReceiveBroadcast",
        MessageFormat::RtToRtBroadcast => "RtToRtBroadcast",
        MessageFormat::ModeCodeTxData => "ModeCodeTxData",
        MessageFormat::ModeCodeRxData => "ModeCodeRxData",
        MessageFormat::ModeCodeNoData => "ModeCodeNoData",
        MessageFormat::ModeCodeBcastNoData => "ModeCodeBcastNoData",
        MessageFormat::ModeCodeBcastData => "ModeCodeBcastData",
        MessageFormat::SpuriousData => "SpuriousData",
    }
}

/// Minimum payload words a format needs beyond Type, timestamp and Command
/// Word, from the primary Command Word's data word count. Spurious data is
/// variable (0: no check); RT-to-RT counts on Cmd1, which the bus requires to
/// agree with Cmd2.
pub open spec fn spec_min_payload(fmt: MessageFormat, cmd: CommandWord) -> int {
    let dwc = cmd.data_word_count as int;
    match fmt {
        MessageFormat::Receive | MessageFormat::Transmit => dwc + 1,
        MessageFormat::RtToRt => dwc + 3,
        MessageFormat::ReceiveBroadcast => dwc,
        MessageFormat::RtToRtBroadcast => dwc + 2,
        MessageFormat::ModeCodeTxData => 2,
        MessageFormat::ModeCodeRxData => 2,
        MessageFormat::ModeCodeNoData => 1,
        MessageFormat::ModeCodeBcastNoData => 0,
        MessageFormat::ModeCodeBcastData => 1,
        MessageFormat::SpuriousData => 0,
    }
}

pub fn min_payload_words(fmt: MessageFormat, cmd: &CommandWord) -> (n: u16)
    ensures
        n == spec_min_payload(fmt, *cmd),
{
    let dwc = cmd.data_word_count as u16;
    match fmt {
        MessageFormat::Receive | MessageFormat::Transmit => dwc + 1,
        MessageFormat::RtToRt => dwc + 3,
        MessageFormat::ReceiveBroadcast => dwc,
        MessageFormat::RtToRtBroadcast => dwc + 2,
        MessageFormat::ModeCodeTxData => 2,
        MessageFormat::ModeCodeRxData => 2,
        MessageFormat::ModeCodeNoData => 1,
        MessageFormat::ModeCodeBcastNoData => 0,
        MessageFormat::ModeCodeBcastData => 1,
        MessageFormat::SpuriousData => 0,
    }
}

/// Detail line for a BC-to-RT record with a Transmit command.
pub open spec fn bc_to_rt_detail(cmd: CommandWord) -> Seq<char> {
    "Type 0x02 (BC\u{2192}RT) requires Cmd direction = Receive; got Transmit (raw Cmd = 0x"@
        + hex_w(cmd.raw as nat, 4) + ")"@
}

/// Detail line for an RT-to-BC record with a Receive command.
pub open spec fn rt_to_bc_detail(cmd: CommandWord) -> Seq<char> {
    "Type 0x04 (RT\u{2192}BC) requires Cmd direction = Transmit; got Receive (raw Cmd = 0x"@
        + hex_w(cmd.raw as nat, 4) + ")"@
}

/// Detail line for a word count below the payload's minimum.
pub open spec fn capacity_detail(tw: TypeWord, cmd: CommandWord, fmt: MessageFormat, min_wc: int) -> Seq<char> {
    "TW.word_count = "@ + dec(tw.word_count as nat)
        + " is too small for declared payload (need at least "@ + dec(min_wc as nat) + " for "@
        + format_name(fmt) + " with data_word_count = "@ + dec(cmd.data_word_count as nat) + ")"@
}

/// The first pre-extraction invariant a record breaks, in checking order:
/// per-type direction, then word-count capacity.
pub open spec fn spec_structural(tw: TypeWord, cmd: CommandWord, fmt: MessageFormat, ts_words: u16) -> Option<(WhichInvariant, Seq<char>)> {
    let min_wc = 1 + ts_words + 1 + spec_min_payload(fmt, cmd);
    if tw.message_type == 0x02 && cmd.direction != Direction::Receive {
        Some((WhichInvariant::DirectionBcToRt, bc_to_rt_detail(cmd)))
    } else if tw.message_type == 0x04 && cmd.direction != Direction::Transmit {
        Some((WhichInvariant::DirectionRtToBc, rt_to_bc_detail(cmd)))
    } else if tw.word_count < min_wc {
        Some((WhichInvariant::WordCountCapacity, capacity_detail(tw, cmd, fmt, min_wc)))
    } else {
        None
    }
}

/// The minimum payload counts the words each 1553 transfer carries after
/// its Command Word: the data words, one status word from each responding
/// RT, and the second Command Word of an RT-to-RT transfer. A broadcast is
/// answered by no receiving RT, so it carries exactly one status word fewer
/// than the same transfer addressed to one RT; a data transfer grows by one
/// word per data word.
pub proof fn law_min_payload_counts_bus_words(cmd: CommandWord)
    ensures
        spec_min_payload(MessageFormat::Receive, cmd) == cmd.data_word_count + 1,
        spec_min_payload(MessageFormat::Transmit, cmd) == cmd.data_word_count + 1,
        spec_min_payload(MessageFormat::RtToRt, cmd) == 1 + cmd.data_word_count + 2,
        spec_min_payload(MessageFormat::ReceiveBroadcast, cmd) == cmd.data_word_count,
        spec_min_payload(MessageFormat::RtToRtBroadcast, cmd) == 1 + cmd.data_word_count + 1,
        spec_min_payload(MessageFormat::ReceiveBroadcast, cmd) + 1 == spec_min_payload(
            MessageFormat::Receive,
            cmd,
        ),
        spec_min_payload(MessageFormat::RtToRtBroadcast, cmd) + 1 == spec_min_payload(
            MessageFormat::RtToRt,
            cmd,
        ),
        spec_min_payload(MessageFormat::ModeCodeTxData, cmd) == 2,
        spec_min_payload(MessageFormat::ModeCodeRxData, cmd) == 2,
        spec_min_payload(MessageFormat::ModeCodeNoData, cmd) == 1,
        spec_min_payload(MessageFormat::ModeCodeBcastData, cmd) + 1 == spec_min_payload(
            MessageFormat::ModeCodeRxData,
            cmd,
        ),
        spec_min_payload(MessageFormat::ModeCodeBcastNoData, cmd) + 1 == spec_min_payload(
            MessageFormat::ModeCodeNoData,
            cmd,
        ),
        spec_min_payload(MessageFormat::SpuriousData, cmd) == 0,
{
}

/// A broadcast BC-to-RT record passes the capacity check exactly when it
/// holds the Type Word, the timestamp, the Command Word and its data words:
/// no status word is asked of it.
pub proof fn law_broadcast_record_capacity(tw: TypeWord, cmd: CommandWord, ts_words: u16)
    requires
        tw.message_type == 0x10,
    ensures
        spec_structural(tw, cmd, MessageFormat::ReceiveBroadcast, ts_words) is None <==> tw.word_count
            >= 1 + ts_words + 1 + cmd.data_word_count,
{
}

/// Checks the pre-extraction structural invariants; `Err` names the first
/// one broken, always with `Reject` severity.
pub fn validate_structural_invariants(
    tw: &TypeWord,
    cmd: &CommandWord,
    msg_fmt: MessageFormat,
    ts_words: u16,
) -> (r: Result<(), InvariantViolation>)
    requires
        2 + ts_words + spec_min_payload(msg_fmt, *cmd) <= u16::MAX,
    ensures
        match spec_structural(*tw, *cmd, msg_fmt, ts_words) {
            None => r is Ok,
            Some((k, d)) => r matches Err(v) && v.kind == k && v.severity
                == InvariantSeverity::Reject && v.detail@ == d,
        },
{
    if tw.message_type == 0x02 && cmd.direction != Direction::Receive {
        let mut d = String::new();
        push_str(&mut d, "Type 0x02 (BC\u{2192}RT) requires Cmd direction = Receive; got Transmit (raw Cmd = 0x");
        push_hex_w(&mut d, cmd.raw as u64, 4);
        push_str(&mut d, ")");
        assert(d@ =~= bc_to_rt_detail(*cmd));
        return Err(
            InvariantViolation {
                kind: WhichInvariant::DirectionBcToRt,
                severity: InvariantSeverity::Reject,
                detail: d,
            },
        );
    }
    if tw.message_type == 0x04 && cmd.direction != Direction::Transmit {
        let mut d = String::new();
        push_str(&mut d, "Type 0x04 (RT\u{2192}BC) requires Cmd direction = Transmit; got Receive (raw Cmd = 0x");
        push_hex_w(&mut d, cmd.raw as u64, 4);
        push_str(&mut d, ")");
        assert(d@ =~= rt_to_bc_detail(*cmd));
        return Err(
            InvariantViolation {
                kind: WhichInvariant::DirectionRtToBc,
                severity: InvariantSeverity::Reject,
                detail: d,
            },
        );
    }
    let min_wc = 1 + ts_words + 1 + min_payload_words(msg_fmt, cmd);
    if tw.word_count < min_wc {
        let mut d = String::new();
        push_str(&mut d, "TW.word_count = ");
        push_dec(&mut d, tw.word_count as u64);
        push_str(&mut d, " is too small for declared payload (need at least ");
        push_dec(&mut d, min_wc as u64);
        push_str(&mut d, " for ");
        push_str(&mut d, format_debug_name(msg_fmt));
        push_str(&mut d, " with data_word_count = ");
        push_dec(&mut d, cmd.data_word_count as u64);
        push_str(&mut d, ")");
        assert(d@ =~= capacity_detail(*tw, *cmd, msg_fmt, min_wc as int));
        return Err(
            InvariantViolation {
                kind: WhichInvariant::WordCountCapacity,
                severity: InvariantSeverity::Reject,
                detail: d,
            },
        );
    }
    Ok(())
}

/// Detail line for an RT-to-RT second command that is not Receive.
pub open spec fn cmd2_direction_detail(c2: CommandWord) -> Seq<char> {
    "RT-to-RT Cmd2 requires direction = Receive; got Transmit (raw Cmd2 = 0x"@ + hex_w(
        c2.raw as nat,
        4,
    ) + ")"@
}

/// Detail line for RT-to-RT commands disagreeing on the data word count.
pub open spec fn dwc_mismatch_detail(c1: CommandWord, c2: CommandWord) -> Seq<char> {
    "RT-to-RT Cmd1/Cmd2 data_word_count mismatch: Cmd1 = "@ + dec(c1.data_word_count as nat)
        + ", Cmd2 = "@ + dec(c2.data_word_count as nat) + " (raw Cmd1 = 0x"@ + hex_w(
        c1.raw as nat,
        4,
    ) + ", Cmd2 = 0x"@ + hex_w(c2.raw as nat, 4) + ")"@
}

/// The first post-extraction invariant an RT-to-RT record breaks; other
/// formats, or an absent second command, break none.
pub open spec fn spec_post_extract(fmt: MessageFormat, cmd: CommandWord, cmd2: Option<CommandWord>) -> Option<(WhichInvariant, Seq<char>)> {
    if !(fmt == MessageFormat::RtToRt || fmt == MessageFormat::RtToRtBroadcast) {
        None
    } else {
        match cmd2 {
            None => None,
            Some(c2) => if c2.direction != Direction::Receive {
                Some((WhichInvariant::DirectionRtToRtCmd2, cmd2_direction_detail(c2)))
            } else if cmd.data_word_count != c2.data_word_count {
                Some((WhichInvariant::DataWordCountMismatch, dwc_mismatch_detail(cmd, c2)))
            } else {
                None
            },
        }
    }
}

/// Checks the RT-to-RT invariants that need the second Command Word.
pub fn validate_post_extract_invariants(
    msg_fmt: MessageFormat,
    cmd: &CommandWord,
    cmd2: Option<&CommandWord>,
) -> (r: Result<(), InvariantViolation>)
    ensures
        match spec_post_extract(
            msg_fmt,
            *cmd,
            match cmd2 {
                Some(c) => Some(*c),
                None => None,
            },
        ) {
            None => r is Ok,
            Some((k, d)) => r matches Err(v) && v.kind == k && v.severity
                == InvariantSeverity::Reject && v.detail@ == d,
        },
{
    let is_rt_to_rt = match msg_fmt {
        MessageFormat::RtToRt | MessageFormat::RtToRtBroadcast => true,
        _ => false,
    };
    if !is_rt_to_rt {
        return Ok(());
    }
    let c2 = match cmd2 {
        None => {
            return Ok(());
        },
        Some(c) => c,
    };
    if c2.direction != Direction::Receive {
        let mut d = String::new();
        push_str(&mut d, "RT-to-RT Cmd2 requires direction = Receive; got Transmit (raw Cmd2 = 0x");
        push_hex_w(&mut d, c2.raw as u64, 4);
        push_str(&mut d, ")");
        assert(d@ =~= cmd2_direction_detail(*c2));
        return Err(
            InvariantViolation {
                kind: WhichInvariant::DirectionRtToRtCmd2,
                severity: InvariantSeverity::Reject,
                detail: d,
            },
        );
    }
    if cmd.data_word_count != c2.data_word_count {
        let mut d = String::new();
        push_str(&mut d, "RT-to-RT Cmd1/Cmd2 data_word_count mismatch: Cmd1 = ");
        push_dec(&mut d, cmd.data_word_count as u64);
        push_str(&mut d, ", Cmd2 = ");
        push_dec(&mut d, c2.data_word_count as u64);
        push_str(&mut d, " (raw Cmd1 = 0x");
        push_hex_w(&mut d, cmd.raw as u64, 4);
        push_str(&mut d, ", Cmd2 = 0x");
        push_hex_w(&mut d, c2.raw as u64, 4);
        push_str(&mut d, ")");
        assert(d@ =~= dwc_mismatch_detail(*cmd, *c2));
        return Err(
            InvariantViolation {
                kind: WhichInvariant::DataWordCountMismatch,
                severity: InvariantSeverity::Reject,
                detail: d,
            },
        );
    }
    Ok(())
}

/// The RT field of a Status Word (bits 11-15).
pub open spec fn status_rt(status: u16) -> u8 {
    ((status >> 11u16) & 0x1F) as u8
}

/// Detail line for a Status Word whose RT differs from the command's.
pub open spec fn status_rt_detail(cmd: CommandWord, status: u16) -> Seq<char> {
    "Status RT = "@ + dec(status_rt(status) as nat) + " does not match Cmd RT = "@ + dec(
        cmd.rt as nat,
    ) + " (raw Status = 0x"@ + hex_w(status as nat, 4) + "); possible bus interference"@
}

/// Detail line for a set reserved bit.
pub open spec fn reserved_bit_detail(tw: TypeWord) -> Seq<char> {
    "Type Word bit 15 (reserved) is set in raw 0x"@ + hex_w(tw.raw as nat, 4)
        + "; possible undocumented vendor extension"@
}

/// The anomalies a record shows, in order: a Status/Command RT mismatch,
/// then a set reserved bit.
pub open spec fn spec_anomalies(tw: TypeWord, cmd: CommandWord, status: Option<u16>) -> Seq<(WhichInvariant, Seq<char>)> {
    let first: Seq<(WhichInvariant, Seq<char>)> = match status {
        Some(st) => if status_rt(st) != cmd.rt {
            seq![(WhichInvariant::StatusRtMismatch, status_rt_detail(cmd, st))]
        } else {
            Seq::empty()
        },
        None => Seq::empty(),
    };
    if (tw.raw >> 15u16) & 1 != 0 {
        first.push((WhichInvariant::TypeWordReservedBit, reserved_bit_detail(tw)))
    } else {
        first
    }
}

/// Anomaly-class observations on a record, each with `AnomalyWarn` severity.
pub fn detect_record_anomalies(tw: &TypeWord, cmd: &CommandWord, status_word: Option<u16>) -> (out: Vec<InvariantViolation>)
    ensures
        out@.len() == spec_anomalies(*tw, *cmd, status_word).len(),
        forall|i: int|
            0 <= i < out@.len() ==> out@[i].kind == spec_anomalies(*tw, *cmd, status_word)[i].0
                && out@[i].detail@ == spec_anomalies(*tw, *cmd, status_word)[i].1
                && out@[i].severity == InvariantSeverity::AnomalyWarn,
{
    let mut out: Vec<InvariantViolation> = Vec::new();
    if let Some(status_raw) = status_word {
        assert((status_raw >> 11u16) & 0x1F <= 31) by (bit_vector);
        let srt = ((status_raw >> 11) & 0x1F) as u8;
        if srt != cmd.rt {
            let mut d = String::new();
            push_str(&mut d, "Status RT = ");
            push_dec(&mut d, srt as u64);
            push_str(&mut d, " does not match Cmd RT = ");
            push_dec(&mut d, cmd.rt as u64);
            push_str(&mut d, " (raw Status = 0x");
            push_hex_w(&mut d, status_raw as u64, 4);
            push_str(&mut d, "); possible bus interference");
            assert(d@ =~= status_rt_detail(*cmd, status_raw));
            out.push(
                InvariantViolation {
                    kind: WhichInvariant::StatusRtMismatch,
                    severity: InvariantSeverity::AnomalyWarn,
                    detail: d,
                },
            );
        }
    }
    let ghost first = out@;
    if (tw.raw >> 15) & 1 != 0 {
        let mut d = String::new();
        push_str(&mut d, "Type Word bit 15 (reserved) is set in raw 0x");
        push_hex_w(&mut d, tw.raw as u64, 4);
        push_str(&mut d, "; possible undocumented vendor extension");
        assert(d@ =~= reserved_bit_detail(*tw));
        out.push(
            InvariantViolation {
                kind: WhichInvariant::TypeWordReservedBit,
                severity: InvariantSeverity::AnomalyWarn,
                detail: d,
            },
        );
    }
    out
}

// ── Timestamp format auto-detection ───────────────────────────────────

/// Strength of an auto-detection outcome.
#[derive(Debug, Clone, Copy, PartialEq, Eq, Structural)]
pub enum DetectionConfidence {
    /// High absolute score and a wide margin.
    Decisive,
    /// Past the confidence floor but short of decisive.
    Marginal,
    /// Both candidates scored too low or too close.
    Ambiguous,
}

/// Result of a multi-record probe.
#[derive(Debug, Clone, Copy, PartialEq, Eq, Structural)]
pub struct DetectionOutcome {
    /// The chosen format; IRIG wins ties.
    pub format: TimestampFormat,
    pub irig_score: i32,
    pub std_score: i32,
    /// Records scored: at least one unless the first was unreadable or
    /// structurally impossible.
    pub records_probed: usize,
    pub confidence: DetectionConfidence,
}

pub const CONFIDENCE_FLOOR: i32 = 4;
pub const MIN_MARGIN: i32 = 3;
pub const DECISIVE_FLOOR: i32 = 8;
pub const DECISIVE_MARGIN: i32 = 6;

/// Default number of records the probe walks.
pub const DEFAULT_DETECT_RECORDS: usize = 8;

/// A `BC_TO_RT` type expects a Receive command, `RT_TO_BC` a Transmit one.
pub open spec fn tr_consistent(tw: TypeWord, cmd: CommandWord) -> bool {
    (tw.message_type == 0x02 && cmd.direction == Direction::Receive) || (tw.message_type == 0x04
        && cmd.direction == Direction::Transmit)
}

/// IRIG score of the record at `off`: Command Word at `off + 8`; +2 for a
/// consistent direction, +2 when `word_count - 6` equals the data word
/// count, +1 when the timestamp fields are in range. Zero without a command.
pub open spec fn irig_candidate_score(data: Seq<u8>, off: int, tw: TypeWord) -> int {
    match spec_read_u16(data, off + 8) {
        None => 0,
        Some(raw) => {
            let cmd = spec_command_word(raw);
            (if tr_consistent(tw, cmd) {
                2int
            } else {
                0int
            }) + (if tw.word_count - 6 == cmd.data_word_count {
                2int
            } else {
                0int
            }) + (match (spec_read_u16(data, off + 2), spec_read_u16(data, off + 4)) {
                (Some(u), Some(m)) => if (u & 0x1F) < 24 && ((m >> 10u16) & 0x3F) < 60 && ((m
                    >> 4u16) & 0x3F) < 60 && (m & 0xF) < 16 {
                    1int
                } else {
                    0int
                },
                _ => 0int,
            })
        },
    }
}

/// Standard score of the record at `off`: Command Word at `off + 6`; +2 for
/// a consistent direction, +2 when `word_count - 5` equals the data word
/// count. Zero without a command.
pub open spec fn std_candidate_score(data: Seq<u8>, off: int, tw: TypeWord) -> int {
    match spec_read_u16(data, off + 6) {
        None => 0,
        Some(raw) => {
            let cmd = spec_command_word(raw);
            (if tr_consistent(tw, cmd) {
                2int
            } else {
                0int
            }) + (if tw.word_count - 5 == cmd.data_word_count {
                2int
            } else {
                0int
            })
        },
    }
}

/// Walks at most `n` records from `offset`, advancing by each record's
/// declared length; stops at a record that does not leave room for a Type
/// Word plus minimal payload, one declaring fewer than four words, or one
/// running past the end. Yields `(irig score, standard score, records)`.
pub open spec fn probe_walk(data: Seq<u8>, offset: int, n: nat) -> (int, int, nat)
    decreases n,
{
    if n == 0 || offset + 8 > data.len() || offset < 0 {
        (0, 0, 0)
    } else {
        let tw = spec_type_word(le_u16(data, offset));
        if tw.word_count < 4 {
            (0, 0, 0)
        } else {
            let i = irig_candidate_score(data, offset, tw);
            let st = std_candidate_score(data, offset, tw);
            let next = offset + 2 * tw.word_count;
            if next > data.len() {
                (i, st, 1)
            } else {
                let r = probe_walk(data, next, (n - 1) as nat);
                (i + r.0, st + r.1, r.2 + 1)
            }
        }
    }
}

/// Confidence from the winning score and the margin.
pub open spec fn spec_confidence(max_score: int, margin: int) -> DetectionConfidence {
    if max_score < 4 || margin < 3 {
        DetectionConfidence::Ambiguous
    } else if max_score >= 8 && margin >= 6 {
        DetectionConfidence::Decisive
    } else {
        DetectionConfidence::Marginal
    }
}

fn tr_direction_matches(type_word: &TypeWord, cmd: &CommandWord) -> (b: bool)
    ensures
        b == tr_consistent(*type_word, *cmd),
{
    (type_word.message_type == 0x02 && cmd.direction == Direction::Receive) || (
    type_word.message_type == 0x04 && cmd.direction == Direction::Transmit)
}

fn score_irig_candidate(data: &[u8], offset: usize, type_word: &TypeWord) -> (sc: i32)
    requires
        offset + 8 <= data@.len(),
    ensures
        sc == irig_candidate_score(data@, offset as int, *type_word),
        0 <= sc <= 5,
{
    let _len = data.len();
    let cmd_raw = match read_u16(data, offset + 8) {
        None => {
            return 0;
        },
        Some(r) => r,
    };
    let cmd = decode_command_word(cmd_raw);
    let mut score: i32 = 0;
    if tr_direction_matches(type_word, &cmd) {
        score = score + 2;
    }
    if type_word.word_count as i32 - 6 == cmd.data_word_count as i32 {
        score = score + 2;
    }
    match (read_u16(data, offset + 2), read_u16(data, offset + 4)) {
        (Some(ts_upper), Some(ts_middle)) => {
            let hour = ts_upper & 0x1F;
            let minute = (ts_middle >> 10) & 0x3F;
            let second = (ts_middle >> 4) & 0x3F;
            let us_hi = ts_middle & 0xF;
            if hour < 24 && minute < 60 && second < 60 && us_hi < 16 {
                score = score + 1;
            }
        },
        _ => {},
    }
    score
}

fn score_standard_candidate(data: &[u8], offset: usize, type_word: &TypeWord) -> (sc: i32)
    requires
        offset + 8 <= data@.len(),
    ensures
        sc == std_candidate_score(data@, offset as int, *type_word),
        0 <= sc <= 4,
{
    let _len = data.len();
    let cmd_raw = match read_u16(data, offset + 6) {
        None => {
            return 0;
        },
        Some(r) => r,
    };
    let cmd = decode_command_word(cmd_raw);
    let mut score: i32 = 0;
    if tr_direction_matches(type_word, &cmd) {
        score = score + 2;
    }
    if type_word.word_count as i32 - 5 == cmd.data_word_count as i32 {
        score = score + 2;
    }
    score
}

fn score_single_record(data: &[u8], offset: usize, type_word: &TypeWord) -> (r: (i32, i32))
    requires
        offset + 8 <= data@.len(),
    ensures
        r.0 == irig_candidate_score(data@, offset as int, *type_word),
        r.1 == std_candidate_score(data@, offset as int, *type_word),
        0 <= r.0 <= 5,
        0 <= r.1 <= 4,
{
    (score_irig_candidate(data, offset, type_word), score_standard_candidate(data, offset, type_word))
}

/// The scores of a walk are bounded by its record count, and each record
/// spans at least eight bytes.
proof fn lemma_probe_walk_bounds(data: Seq<u8>, offset: int, n: nat)
    ensures
        ({
            let r = probe_walk(data, offset, n);
            &&& 0 <= r.0 <= 5 * r.2
            &&& 0 <= r.1 <= 4 * r.2
            &&& r.2 <= n
            &&& r.2 > 0 ==> 0 <= offset && offset + 8 * r.2 <= data.len()
        }),
    decreases n,
{
    if n == 0 || offset + 8 > data.len() || offset < 0 {
    } else {
        let tw = spec_type_word(le_u16(data, offset));
        if tw.word_count >= 4 {
            let next = offset + 2 * tw.word_count;
            if next <= data.len() {
                lemma_probe_walk_bounds(data, next, (n - 1) as nat);
            }
        }
    }
}

/// Inputs on which the probe's `i32` score sums cannot overflow: the walk
/// scores at most 429,496,729 records (each adds at most 5 to a sum).
pub open spec fn probe_fits(data: Seq<u8>, first_offset: int, max_records: int) -> bool {
    probe_walk(
        data,
        first_offset,
        (if max_records <= 0 {
            1
        } else {
            max_records
        }) as nat,
    ).2 <= 429496729
}

/// Walks up to `max(max_records, 1)` records from `first_offset`, summing
/// the per-record IRIG and Standard scores.
fn accumulate_probe_scores(data: &[u8], first_offset: usize, max_records: usize) -> (r: (i32, i32, usize))
    requires
        first_offset + 8 <= usize::MAX,
        probe_fits(data@, first_offset as int, max_records as int),
    ensures
        ({
            let w = probe_walk(
                data@,
                first_offset as int,
                (if max_records == 0 {
                    1
                } else {
                    max_records
                }) as nat,
            );
            r.0 == w.0 && r.1 == w.1 && r.2 == w.2
        }),
{
    let n: usize = if max_records == 0 {
        1
    } else {
        max_records
    };
    let file_len = data.len();
    let mut irig_score: i32 = 0;
    let mut std_score: i32 = 0;
    let mut records_probed: usize = 0;
    let mut offset = first_offset;
    let mut k: usize = 0;
    let ghost total = probe_walk(data@, first_offset as int, n as nat);
    proof {
        lemma_probe_walk_bounds(data@, first_offset as int, n as nat);
    }
    while k < n
        invariant
            k <= n,
            n == (if max_records == 0 {
                1
            } else {
                max_records
            }),
            file_len == data@.len(),
            first_offset + 8 <= usize::MAX,
            probe_fits(data@, first_offset as int, max_records as int),
            total == probe_walk(data@, first_offset as int, n as nat),
            records_probed <= k,
            first_offset <= offset,
            ({
                let rest = probe_walk(data@, offset as int, (n - k) as nat);
                &&& total.0 == irig_score + rest.0
                &&& total.1 == std_score + rest.1
                &&& total.2 == records_probed + rest.2
            }),
            0 <= total.0 <= 5 * total.2,
            0 <= total.1 <= 4 * total.2,
            total.2 <= n,
            total.2 > 0 ==> first_offset + 8 * total.2 <= data@.len(),
            offset == first_offset || offset <= file_len,
        decreases n - k,
    {
        let ghost rest = probe_walk(data@, offset as int, (n - k) as nat);
        if offset > file_len || file_len - offset < MIN_RECORD_BYTES_STANDARD {
            assert(rest == (0int, 0int, 0nat));
            return (irig_score, std_score, records_probed);
        }
        let tw_raw = match read_u16(data, offset) {
            Some(v) => v,
            None => {
                return (irig_score, std_score, records_probed);
            },
        };
        let tw = decode_type_word(tw_raw);
        if tw.word_count < MIN_RECORD_WORDS_STANDARD {
            assert(rest == (0int, 0int, 0nat));
            return (irig_score, std_score, records_probed);
        }
        let (i_delta, s_delta) = score_single_record(data, offset, &tw);
        let record_bytes = tw.word_count as usize * 2;
        proof {
            let next = offset + 2 * tw.word_count;
            if next <= data@.len() {
                lemma_probe_walk_bounds(data@, next, (n - k - 1) as nat);
            }
            assert(total.2 <= 429496729);
        }
        irig_score = irig_score + i_delta;
        std_score = std_score + s_delta;
        records_probed = records_probed + 1;
        k = k + 1;
        if record_bytes > file_len - offset {
            return (irig_score, std_score, records_probed);
        }
        offset = offset + record_bytes;
    }
    (irig_score, std_score, records_probed)
}

fn classify_confidence(max_score: i32, margin: i32) -> (c: DetectionConfidence)
    ensures
        c == spec_confidence(max_score as int, margin as int),
{
    if max_score < CONFIDENCE_FLOOR || margin < MIN_MARGIN {
        DetectionConfidence::Ambiguous
    } else if max_score >= DECISIVE_FLOOR && margin >= DECISIVE_MARGIN {
        DetectionConfidence::Decisive
    } else {
        DetectionConfidence::Marginal
    }
}

/// The outcome a probe walk yields: IRIG on ties, confidence from the
/// larger score and the absolute difference.
pub open spec fn spec_outcome(w: (int, int, nat)) -> (TimestampFormat, DetectionConfidence) {
    let fmt = if w.0 >= w.1 {
        TimestampFormat::Irig
    } else {
        TimestampFormat::Standard
    };
    let max_score = if w.0 >= w.1 {
        w.0
    } else {
        w.1
    };
    let margin = if w.0 >= w.1 {
        w.0 - w.1
    } else {
        w.1 - w.0
    };
    (fmt, spec_confidence(max_score, margin))
}

/// Probes up to `max(max_records, 1)` records from `first_offset` and picks
/// the timestamp format that scores higher, IRIG winning ties.
pub fn probe_timestamp_format(data: &[u8], first_offset: usize, max_records: usize) -> (out: DetectionOutcome)
    requires
        first_offset + 8 <= usize::MAX,
        probe_fits(data@, first_offset as int, max_records as int),
    ensures
        ({
            let w = probe_walk(
                data@,
                first_offset as int,
                (if max_records == 0 {
                    1
                } else {
                    max_records
                }) as nat,
            );
            &&& out.irig_score == w.0
            &&& out.std_score == w.1
            &&& out.records_probed == w.2
            &&& (out.format, out.confidence) == spec_outcome(w)
        }),
{
    let (irig_score, std_score, records_probed) = accumulate_probe_scores(
        data,
        first_offset,
        max_records,
    );
    proof {
        lemma_probe_walk_bounds(
            data@,
            first_offset as int,
            (if max_records == 0 {
                1
            } else {
                max_records
            }) as nat,
        );
    }
    let format = if irig_score >= std_score {
        TimestampFormat::Irig
    } else {
        TimestampFormat::Standard
    };
    let max_score = if irig_score >= std_score {
        irig_score
    } else {
        std_score
    };
    let margin = if irig_score >= std_score {
        irig_score - std_score
    } else {
        std_score - irig_score
    };
    DetectionOutcome {
        format,
        irig_score,
        std_score,
        records_probed,
        confidence: classify_confidence(max_score, margin),
    }
}

} // verus!
