//! Record alignment, validation, and sync recovery. Pure functions over the
//! file's bytes.
use vstd::prelude::*;

use crate::decode::{
    decode_type_word, le_u16, message_type_is_valid, read_u16, spec_read_u16, spec_type_word,
    MIN_RECORD_WORDS_STANDARD,
};
use crate::models::{spec_timestamp_words, spec_valid_message_type, timestamp_word_count, TimestampFormat};

verus! {

/// 64 KB scan cap for header skip and recovery.
pub const MAX_SCAN_BYTES: usize = 65_536;

/// The word count field has 6 bits, so a record is at most 126 bytes.
pub const MAX_RECORD_BYTES: usize = 126;

/// Default look-ahead depth: the candidate plus one further record.
pub const DEFAULT_LOOKAHEAD_RECORDS: usize = 2;

/// Why a candidate record failed sync validation.
#[derive(Debug, Clone, Copy, PartialEq, Eq, Structural)]
pub enum ValidationFailure {
    TypeWordUnreadable,
    UnknownMessageType,
    InvalidWordCount,
    RecordTruncated,
    IrigHourOutOfRange,
    IrigMinuteOutOfRange,
    IrigSecondOutOfRange,
    IrigMicrosecondOutOfRange,
    IrigDayOutOfRange,
    LookaheadUnknownMessageType,
    LookaheadInvalidWordCount,
}

/// The one-line description of a validation failure.
pub open spec fn failure_text(f: ValidationFailure) -> Seq<char> {
    match f {
        ValidationFailure::TypeWordUnreadable => "Type Word is not readable"@,
        ValidationFailure::UnknownMessageType => "message type is unknown"@,
        ValidationFailure::InvalidWordCount => "word count is outside the valid range"@,
        ValidationFailure::RecordTruncated => "record extends beyond end of file"@,
        ValidationFailure::IrigHourOutOfRange => "IRIG hour is out of range"@,
        ValidationFailure::IrigMinuteOutOfRange => "IRIG minute is out of range"@,
        ValidationFailure::IrigSecondOutOfRange => "IRIG second is out of range"@,
        ValidationFailure::IrigMicrosecondOutOfRange => "IRIG microsecond is out of range"@,
        ValidationFailure::IrigDayOutOfRange => "IRIG day-of-year is out of range"@,
        ValidationFailure::LookaheadUnknownMessageType => "look-ahead message type is unknown"@,
        ValidationFailure::LookaheadInvalidWordCount => "look-ahead word count is outside the valid range"@,
    }
}

impl ValidationFailure {
    /// The one-line description of this failure.
    pub fn describe(&self) -> (s: &'static str)
        ensures
            s@ == failure_text(*self),
    {
        match self {
            ValidationFailure::TypeWordUnreadable => "Type Word is not readable",
            ValidationFailure::UnknownMessageType => "message type is unknown",
            ValidationFailure::InvalidWordCount => "word count is outside the valid range",
            ValidationFailure::RecordTruncated => "record extends beyond end of file",
            ValidationFailure::IrigHourOutOfRange => "IRIG hour is out of range",
            ValidationFailure::IrigMinuteOutOfRange => "IRIG minute is out of range",
            ValidationFailure::IrigSecondOutOfRange => "IRIG second is out of range",
            ValidationFailure::IrigMicrosecondOutOfRange => "IRIG microsecond is out of range",
            ValidationFailure::IrigDayOutOfRange => "IRIG day-of-year is out of range",
            ValidationFailure::LookaheadUnknownMessageType => "look-ahead message type is unknown",
            ValidationFailure::LookaheadInvalidWordCount => "look-ahead word count is outside the valid range",
        }
    }
}

/// Minimum word count under a timestamp format: Type + timestamp + Command
/// Word; the smaller Standard minimum when the format is unknown.
pub open spec fn spec_min_wc(ts: Option<TimestampFormat>) -> u16 {
    match ts {
        Some(TimestampFormat::Irig) => 5,
        Some(TimestampFormat::Standard) => 4,
        _ => 4,
    }
}

pub fn min_word_count(ts_format: Option<TimestampFormat>) -> (n: u16)
    ensures
        n == spec_min_wc(ts_format),
{
    match ts_format {
        Some(TimestampFormat::Irig) => 1 + timestamp_word_count(TimestampFormat::Irig) + 1,
        Some(TimestampFormat::Standard) => 1 + timestamp_word_count(TimestampFormat::Standard) + 1,
        _ => MIN_RECORD_WORDS_STANDARD,
    }
}

/// The IRIG range checks on the three timestamp words, in order.
pub open spec fn irig_range_check(upper: u16, middle: u16, lower: u16) -> Result<(), ValidationFailure> {
    let freerun = (upper >> 15u16) & 1 == 1;
    let day = (upper >> 5u16) & 0x1FF;
    let hour = upper & 0x1F;
    let minute = (middle >> 10u16) & 0x3F;
    let second = (middle >> 4u16) & 0x3F;
    let micro = (middle & 0xF) as int * 65536 + lower as int;
    if hour >= 24 {
        Err(ValidationFailure::IrigHourOutOfRange)
    } else if minute >= 60 {
        Err(ValidationFailure::IrigMinuteOutOfRange)
    } else if second >= 60 {
        Err(ValidationFailure::IrigSecondOutOfRange)
    } else if micro > 999_999 {
        Err(ValidationFailure::IrigMicrosecondOutOfRange)
    } else if !freerun && !(1 <= day <= 366) {
        Err(ValidationFailure::IrigDayOutOfRange)
    } else {
        Ok(())
    }
}

/// Look-ahead over at most `count` records starting at `next`: each one that
/// exists must have a known type and a plausible word count. The end of the
/// file, or of the readable bytes, ends the walk without rejecting.
pub open spec fn lookahead(data: Seq<u8>, next: int, file_len: int, min_wc: u16, count: nat) -> Result<(), ValidationFailure>
    decreases count,
{
    if count == 0 || next + 2 > file_len {
        Ok(())
    } else {
        match spec_read_u16(data, next) {
            None => Ok(()),
            Some(raw) => {
                let tw = spec_type_word(raw);
                if !spec_valid_message_type(tw.message_type) {
                    Err(ValidationFailure::LookaheadUnknownMessageType)
                } else if tw.word_count < min_wc || tw.word_count > 63 {
                    Err(ValidationFailure::LookaheadInvalidWordCount)
                } else {
                    lookahead(data, next + 2 * tw.word_count, file_len, min_wc, (count - 1) as nat)
                }
            },
        }
    }
}

/// Validation of the candidate record at `offset`, checking in order: the
/// Type Word is readable and within `file_len`; its type is known; its word
/// count is plausible; the record fits; for IRIG, the timestamp fields are
/// in range (the day only when not freerun); then the look-ahead over the
/// next `max(lookahead_records, 1) - 1` records.
pub open spec fn spec_validate(
    data: Seq<u8>,
    offset: int,
    file_len: int,
    ts: Option<TimestampFormat>,
    lookahead_records: nat,
) -> Result<(), ValidationFailure> {
    let min_wc = spec_min_wc(ts);
    match spec_read_u16(data, offset) {
        None => Err(ValidationFailure::TypeWordUnreadable),
        Some(raw) => {
            let tw = spec_type_word(raw);
            if offset + 2 > file_len {
                Err(ValidationFailure::TypeWordUnreadable)
            } else if !spec_valid_message_type(tw.message_type) {
                Err(ValidationFailure::UnknownMessageType)
            } else if tw.word_count < min_wc || tw.word_count > 63 {
                Err(ValidationFailure::InvalidWordCount)
            } else if offset + 2 * tw.word_count > file_len {
                Err(ValidationFailure::RecordTruncated)
            } else {
                match irig_stage(data, offset, file_len, ts) {
                    Err(f) => Err(f),
                    Ok(()) => lookahead(
                        data,
                        offset + 2 * tw.word_count,
                        file_len,
                        min_wc,
                        (lookahead_depth(lookahead_records) - 1) as nat,
                    ),
                }
            }
        },
    }
}

/// The number of records a validation walk covers, the candidate included.
pub open spec fn lookahead_depth(lookahead_records: nat) -> nat {
    if lookahead_records == 0 {
        1
    } else {
        lookahead_records
    }
}

/// The IRIG timestamp stage of validation: applies only under the IRIG
/// format and when all three timestamp words lie within `file_len`.
pub open spec fn irig_stage(data: Seq<u8>, offset: int, file_len: int, ts: Option<TimestampFormat>) -> Result<(), ValidationFailure> {
    if ts == Some(TimestampFormat::Irig) && offset + 8 <= file_len {
        match spec_read_u16(data, offset + 2) {
            Some(u) => match spec_read_u16(data, offset + 4) {
                Some(m) => match spec_read_u16(data, offset + 6) {
                    Some(l) => irig_range_check(u, m, l),
                    None => Ok(()),
                },
                None => Ok(()),
            },
            None => Ok(()),
        }
    } else {
        Ok(())
    }
}

fn check_irig_ranges(upper: u16, middle: u16, lower: u16) -> (r: Result<(), ValidationFailure>)
    ensures
        r == irig_range_check(upper, middle, lower),
{
    let freerun = (upper >> 15) & 1 == 1;
    let day = (upper >> 5) & 0x1FF;
    let hour = upper & 0x1F;
    let minute = (middle >> 10) & 0x3F;
    let second = (middle >> 4) & 0x3F;
    let microsecond_hi4 = (middle & 0xF) as u32;
    let microsecond_lo16 = lower as u32;
    assert(middle & 0xF <= 15) by (bit_vector);
    let microsecond = microsecond_hi4 * 65536 + microsecond_lo16;
    if hour >= 24 {
        return Err(ValidationFailure::IrigHourOutOfRange);
    }
    if minute >= 60 {
        return Err(ValidationFailure::IrigMinuteOutOfRange);
    }
    if second >= 60 {
        return Err(ValidationFailure::IrigSecondOutOfRange);
    }
    if microsecond > 999_999 {
        return Err(ValidationFailure::IrigMicrosecondOutOfRange);
    }
    if !freerun && !(1 <= day && day <= 366) {
        return Err(ValidationFailure::IrigDayOutOfRange);
    }
    Ok(())
}

/// Validates a candidate record and reports the precise failure.
pub fn validate_record_detailed(
    data: &[u8],
    offset: usize,
    file_len: usize,
    ts_format: Option<TimestampFormat>,
    lookahead_records: usize,
) -> (r: Result<(), ValidationFailure>)
    ensures
        r == spec_validate(data@, offset as int, file_len as int, ts_format, lookahead_records as nat),
{
    // Check 1: the Type Word is readable.
    let type_raw = match read_u16(data, offset) {
        None => {
            return Err(ValidationFailure::TypeWordUnreadable);
        },
        Some(v) => v,
    };
    if offset > file_len || file_len - offset < 2 {
        return Err(ValidationFailure::TypeWordUnreadable);
    }
    let tw = decode_type_word(type_raw);

    // Check 2: a known message type.
    if !message_type_is_valid(tw.message_type) {
        return Err(ValidationFailure::UnknownMessageType);
    }

    // Check 3: a plausible word count.
    let min_wc = min_word_count(ts_format);
    if tw.word_count < min_wc || tw.word_count > 63 {
        return Err(ValidationFailure::InvalidWordCount);
    }

    // Check 4: the record fits in the file.
    let record_bytes = tw.word_count as usize * 2;
    if record_bytes > file_len - offset {
        return Err(ValidationFailure::RecordTruncated);
    }

    // Check 5: IRIG timestamp fields in range; the day only when not freerun.
    let is_irig = match ts_format {
        Some(TimestampFormat::Irig) => true,
        _ => false,
    };
    if is_irig && file_len - offset >= 8 {
        match (read_u16(data, offset + 2), read_u16(data, offset + 4), read_u16(data, offset + 6)) {
            (Some(ts_upper), Some(ts_middle), Some(ts_lower)) => {
                match check_irig_ranges(ts_upper, ts_middle, ts_lower) {
                    Err(f) => {
                        return Err(f);
                    },
                    Ok(()) => {},
                }
            },
            _ => {},
        }
    }

    // Check 6: look ahead through the following records.
    let n = if lookahead_records == 0 {
        1
    } else {
        lookahead_records
    };
    let mut next_offset: usize = offset + record_bytes;
    let mut i: usize = 1;
    let ghost target = spec_validate(
        data@,
        offset as int,
        file_len as int,
        ts_format,
        lookahead_records as nat,
    );
    assert(target == lookahead(data@, next_offset as int, file_len as int, min_wc, (n - 1) as nat));
    while i < n
        invariant
            1 <= i <= n,
            next_offset <= file_len,
            target == lookahead(data@, next_offset as int, file_len as int, min_wc, (n - i) as nat),
            target == spec_validate(
                data@,
                offset as int,
                file_len as int,
                ts_format,
                lookahead_records as nat,
            ),
        decreases n - i,
    {
        if file_len - next_offset < 2 {
            return Ok(());
        }
        let next_raw = match read_u16(data, next_offset) {
            None => {
                return Ok(());
            },
            Some(v) => v,
        };
        let next_tw = decode_type_word(next_raw);
        if !message_type_is_valid(next_tw.message_type) {
            return Err(ValidationFailure::LookaheadUnknownMessageType);
        }
        if next_tw.word_count < min_wc || next_tw.word_count > 63 {
            return Err(ValidationFailure::LookaheadInvalidWordCount);
        }
        let next_record_bytes = next_tw.word_count as usize * 2;
        i = i + 1;
        if next_record_bytes > file_len - next_offset {
            // The next candidate starts past the end: nothing left to check.
            assert(lookahead(
                data@,
                next_offset + next_record_bytes,
                file_len as int,
                min_wc,
                (n - i) as nat,
            ) == Ok::<(), ValidationFailure>(()));
            return Ok(());
        }
        next_offset = next_offset + next_record_bytes;
    }
    Ok(())
}

/// True if a valid record starts at `offset` (see [`validate_record_detailed`]).
pub fn validate_record(
    data: &[u8],
    offset: usize,
    file_len: usize,
    ts_format: Option<TimestampFormat>,
    lookahead_records: usize,
) -> (b: bool)
    ensures
        b == spec_validate(data@, offset as int, file_len as int, ts_format, lookahead_records as nat) is Ok,
{
    match validate_record_detailed(data, offset, file_len, ts_format, lookahead_records) {
        Ok(()) => true,
        Err(_) => false,
    }
}

/// Where the next valid record is, and how many bytes were skipped to reach it.
#[derive(Debug, Clone, Copy, PartialEq, Eq, Structural)]
pub struct ScanHit {
    pub offset: usize,
    pub skipped: usize,
}

/// A valid record starts at `o` (see [`spec_validate`]).
pub open spec fn valid_at(data: Seq<u8>, o: int, file_len: int, ts: Option<TimestampFormat>, lookahead_records: nat) -> bool {
    spec_validate(data, o, file_len, ts, lookahead_records) is Ok
}

/// `o` lies on the two-byte grid that starts at `start` and ends before `end`.
pub open spec fn on_grid(o: int, start: int, end: int) -> bool {
    start <= o < end && (o - start) % 2 == 0
}

/// The first valid record on the grid from `start` to `end`: `Some(o)` for
/// the first grid offset holding one, `None` where there is none.
pub open spec fn first_valid_on_grid(
    data: Seq<u8>,
    start: int,
    end: int,
    file_len: int,
    ts: Option<TimestampFormat>,
    lookahead_records: nat,
    found: Option<int>,
) -> bool {
    match found {
        Some(o) => {
            &&& on_grid(o, start, end)
            &&& valid_at(data, o, file_len, ts, lookahead_records)
            &&& forall|p: int| #[trigger] on_grid(p, start, end) && p < o ==> !valid_at(data, p, file_len, ts, lookahead_records)
        },
        None => forall|p: int| #[trigger] on_grid(p, start, end) ==> !valid_at(data, p, file_len, ts, lookahead_records),
    }
}

/// Scans the grid `start, start + 2, ...` below `end` for the first valid record.
fn scan_grid(
    data: &[u8],
    start: usize,
    end: usize,
    file_len: usize,
    ts_format: Option<TimestampFormat>,
    lookahead_records: usize,
) -> (r: Option<usize>)
    ensures
        first_valid_on_grid(
            data@,
            start as int,
            end as int,
            file_len as int,
            ts_format,
            lookahead_records as nat,
            match r {
                Some(o) => Some(o as int),
                None => None,
            },
        ),
{
    if start >= end {
        return None;
    }
    let mut candidate: usize = start;
    while candidate < end
        invariant
            start <= candidate,
            (candidate - start) % 2 == 0,
            forall|p: int| #[trigger] on_grid(p, start as int, end as int) && p < candidate
                ==> !valid_at(data@, p, file_len as int, ts_format, lookahead_records as nat),
        decreases end - candidate,
    {
        if validate_record(data, candidate, file_len, ts_format, lookahead_records) {
            return Some(candidate);
        }
        if end - candidate <= 2 {
            assert forall|p: int| #[trigger] on_grid(p, start as int, end as int)
                implies !valid_at(data@, p, file_len as int, ts_format, lookahead_records as nat) by {
                if p >= candidate {
                    assert(p == candidate);
                }
            }
            return None;
        }
        candidate = candidate + 2;
    }
    None
}

/// Finds the first valid record in `[0, min(file_len, max_scan))`, stepping
/// by two bytes. A record at offset 0 means the file has no header.
pub fn find_first_record(
    data: &[u8],
    file_len: usize,
    ts_format: Option<TimestampFormat>,
    max_scan: usize,
    lookahead_records: usize,
) -> (r: Option<ScanHit>)
    ensures
        first_valid_on_grid(
            data@,
            0,
            if file_len < max_scan { file_len as int } else { max_scan as int },
            file_len as int,
            ts_format,
            lookahead_records as nat,
            match r {
                Some(hit) => Some(hit.offset as int),
                None => None,
            },
        ),
        r matches Some(hit) ==> hit.skipped == hit.offset,
{
    let scan_end = if file_len < max_scan {
        file_len
    } else {
        max_scan
    };
    match scan_grid(data, 0, scan_end, file_len, ts_format, lookahead_records) {
        Some(o) => Some(ScanHit { offset: o, skipped: o }),
        None => None,
    }
}

/// Walks forward from `offset` (starting two bytes on, within `max_scan`
/// bytes of `offset` and before `file_len`) to the next valid record.
pub fn recover_sync(
    data: &[u8],
    offset: usize,
    file_len: usize,
    ts_format: Option<TimestampFormat>,
    max_scan: usize,
    lookahead_records: usize,
) -> (r: Option<ScanHit>)
    ensures
        first_valid_on_grid(
            data@,
            sat_add(offset as int, 2),
            min_int(file_len as int, sat_add(offset as int, max_scan as int)),
            file_len as int,
            ts_format,
            lookahead_records as nat,
            match r {
                Some(hit) => Some(hit.offset as int),
                None => None,
            },
        ),
        r matches Some(hit) ==> hit.skipped == hit.offset - offset,
{
    let scan_start = if offset <= usize::MAX - 2 {
        offset + 2
    } else {
        usize::MAX
    };
    let scan_limit = if offset <= usize::MAX - max_scan {
        offset + max_scan
    } else {
        usize::MAX
    };
    let scan_end = if file_len < scan_limit {
        file_len
    } else {
        scan_limit
    };
    match scan_grid(data, scan_start, scan_end, file_len, ts_format, lookahead_records) {
        Some(o) => Some(ScanHit { offset: o, skipped: o - offset }),
        None => None,
    }
}

/// `a + b`, saturated at `usize::MAX`.
pub open spec fn sat_add(a: int, b: int) -> int {
    if a + b > usize::MAX {
        usize::MAX as int
    } else {
        a + b
    }
}

pub open spec fn min_int(a: int, b: int) -> int {
    if a < b {
        a
    } else {
        b
    }
}

/// Number of consecutive records compared by [`is_homogeneous_payload`].
pub const HOMOGENEITY_SAMPLE_RECORDS: usize = 4;

/// Byte `j` of a record takes part in the homogeneity comparison: the
/// Type Word and everything from byte 8 on, but not the timestamp bytes.
pub open spec fn compared_byte(j: int, record_bytes: int) -> bool {
    (0 <= j < 2) || (8 <= j < record_bytes)
}

/// The next four `record_bytes`-sized records from `offset` all fit, and
/// agree with the first one on every compared byte.
pub open spec fn spec_homogeneous(data: Seq<u8>, offset: int, record_bytes: int) -> bool {
    &&& offset + 4 * record_bytes <= data.len()
    &&& forall|i: int, j: int|
        1 <= i < 4 && #[trigger] compared_byte(j, record_bytes) ==> data[offset + j] == #[trigger] data[offset + i * record_bytes + j]
}

/// True when the four records from `offset` are byte-identical outside the
/// timestamp bytes (a padded stream that merely parses as records). Such an
/// input is rejected.
pub fn is_homogeneous_payload(data: &[u8], offset: usize, record_bytes: usize) -> (b: bool)
    requires
        record_bytes >= 2 || offset + 4 * record_bytes > data@.len(),
    ensures
        b == spec_homogeneous(data@, offset as int, record_bytes as int),
{
    if offset > data.len() {
        return false;
    }
    let avail = data.len() - offset;
    if record_bytes > avail / 4 {
        return false;
    }
    assert(offset + 4 * record_bytes <= data.len());
    let mut i: usize = 1;
    while i < HOMOGENEITY_SAMPLE_RECORDS
        invariant
            1 <= i <= 4,
            record_bytes >= 2,
            offset + 4 * record_bytes <= data.len(),
            forall|k: int, j: int|
                1 <= k < i && #[trigger] compared_byte(j, record_bytes as int) ==> data@[offset + j] == #[trigger] data@[offset + k * record_bytes + j],
        decreases 4 - i,
    {
        assert(i * record_bytes <= 3 * record_bytes) by (nonlinear_arith)
            requires
                i < 4,
        ;
        let rec_start = offset + i * record_bytes;
        let mut j: usize = 0;
        while j < record_bytes
            invariant
                1 <= i < 4,
                record_bytes >= 2,
                offset + 4 * record_bytes <= data.len(),
                rec_start == offset + i * record_bytes,
                rec_start + record_bytes <= data.len(),
                j <= record_bytes,
                forall|k: int, jj: int|
                    1 <= k < i && #[trigger] compared_byte(jj, record_bytes as int) ==> data@[offset + jj] == #[trigger] data@[offset + k * record_bytes + jj],
                forall|jj: int| 0 <= jj < j && #[trigger] compared_byte(jj, record_bytes as int) ==> data@[offset + jj] == data@[rec_start + jj],
            decreases record_bytes - j,
        {
            if j < 2 || j >= 8 {
                if data[offset + j] != data[rec_start + j] {
                    assert(compared_byte(j as int, record_bytes as int));
                    assert(data@[offset + j] != data@[offset + i * record_bytes + j]);
                    return false;
                }
            }
            j = j + 1;
        }
        assert forall|k: int, jj: int|
            1 <= k < i + 1 && #[trigger] compared_byte(jj, record_bytes as int) implies data@[offset + jj] == #[trigger] data@[offset + k * record_bytes + jj] by {
            if k == i {
                assert(data@[offset + jj] == data@[rec_start + jj]);
            }
        }
        i = i + 1;
    }
    true
}

/// The Type Word at `o` is well formed (known type, plausible word count
/// under `min_wc`) but its declared record runs past `file_len`.
pub open spec fn length_only_failure(data: Seq<u8>, o: int, file_len: int, min_wc: u16) -> bool {
    match spec_read_u16(data, o) {
        None => false,
        Some(raw) => {
            let tw = spec_type_word(raw);
            &&& spec_valid_message_type(tw.message_type)
            &&& min_wc <= tw.word_count <= 63
            &&& o + 2 * tw.word_count > file_len
        },
    }
}

/// Minimum word count for the header diagnosis: Type Word, timestamp and
/// Command Word, with the IRIG layout when no format is given.
pub open spec fn diagnosis_min_wc(ts: Option<TimestampFormat>) -> u16 {
    match ts {
        Some(TimestampFormat::Standard) => 4,
        Some(TimestampFormat::Auto) => 2,
        _ => 5,
    }
}

/// After a failed header scan: the first grid offset in the scan window
/// (`o + 2 <= min(file_len, max_scan)`) whose Type Word is well formed but
/// whose record runs past the end, as `(offset, record_bytes, bytes
/// available)`. `None` when no offset fails on length alone.
pub fn diagnose_header_scan_failure(
    data: &[u8],
    file_len: usize,
    ts_format: Option<TimestampFormat>,
    max_scan: usize,
) -> (r: Option<(usize, usize, usize)>)
    ensures
        ({
            let end = min_int(file_len as int, max_scan as int);
            let min_wc = diagnosis_min_wc(ts_format);
            match r {
                Some((o, record_bytes, available)) => {
                    &&& o % 2 == 0
                    &&& o + 2 <= end
                    &&& length_only_failure(data@, o as int, file_len as int, min_wc)
                    &&& record_bytes == 2 * spec_type_word(le_u16(data@, o as int)).word_count
                    &&& available == file_len - o
                    &&& forall|p: int| 0 <= p < o && p % 2 == 0 ==> !#[trigger] length_only_failure(data@, p, file_len as int, min_wc)
                },
                None => forall|p: int|
                    0 <= p && p + 2 <= end && p % 2 == 0 ==> !#[trigger] length_only_failure(data@, p, file_len as int, min_wc),
            }
        }),
{
    let scan_end = if file_len < max_scan {
        file_len
    } else {
        max_scan
    };
    let resolved = match ts_format {
        Some(f) => f,
        None => TimestampFormat::Irig,
    };
    let ts_words = timestamp_word_count(resolved);
    let min_wc: u16 = 1 + ts_words + 1;
    let mut offset: usize = 0;
    while offset < scan_end && scan_end - offset >= 2
        invariant
            offset % 2 == 0,
            offset <= scan_end,
            scan_end <= file_len,
            scan_end == min_int(file_len as int, max_scan as int),
            min_wc == diagnosis_min_wc(ts_format),
            forall|p: int| 0 <= p < offset && p % 2 == 0 ==> !#[trigger] length_only_failure(data@, p, file_len as int, min_wc),
        decreases scan_end - offset,
    {
        let type_raw = match read_u16(data, offset) {
            None => {
                assert forall|p: int|
                    0 <= p && p + 2 <= scan_end && p % 2 == 0 implies !#[trigger] length_only_failure(data@, p, file_len as int, min_wc) by {
                    if p >= offset {
                        assert(spec_read_u16(data@, p) is None);
                    }
                }
                return None;
            },
            Some(v) => v,
        };
        let tw = decode_type_word(type_raw);
        if message_type_is_valid(tw.message_type) && tw.word_count >= min_wc && tw.word_count <= 63 {
            let record_bytes = tw.word_count as usize * 2;
            if record_bytes > file_len - offset {
                return Some((offset, record_bytes, file_len - offset));
            }
        }
        offset = offset + 2;
    }
    assert forall|p: int|
        0 <= p && p + 2 <= scan_end && p % 2 == 0 implies !#[trigger] length_only_failure(data@, p, file_len as int, min_wc) by {
        assert(p < offset);
    }
    None
}

} // verus!
