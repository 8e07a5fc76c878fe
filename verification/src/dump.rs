//! Hex dumps of a recording: a raw hex+ASCII view of a byte range, and a
//! record-aware view that annotates each record's Type Word, timestamp and
//! Command Word before its bytes. The dumps are rendered to text here.
use vstd::prelude::*;

use crate::decode::{
    decode_command_word, decode_irig_timestamp, decode_type_word, read_u16, spec_command_word,
    le_u16, spec_irig, spec_read_u16, spec_type_word, MIN_RECORD_BYTES, MIN_RECORD_WORDS,
};
use crate::error::{IoFailure, MieError};
use crate::models::{
    bus_label, direction_letter, irig_doy_text, spec_timestamp_words, CommandWord, Direction,
    IrigTimestamp, MessageType, TimestampFormat, TypeWord,
};
use crate::text::{dec, hex_w, push_char, push_dec, push_hex_w, push_str};
use crate::writer::{or_empty, path_file_name, std_path_file_name};

verus! {

// ── Reading ───────────────────────────────────────────────────────────

/// The outcome of loading a file, given whether it exists and what reading
/// it gave: a missing file, a read failure and an empty file are errors.
pub fn loaded_file(path: &str, exists: bool, read: Result<Vec<u8>, IoFailure>) -> (r: Result<Vec<u8>, MieError>)
    ensures
        !exists ==> (r matches Err(MieError::FileNotFound { path: p }) && p@ == path@),
        exists ==> match read {
            Err(e) => (r matches Err(MieError::FileIo { path: p, source }) && p@ == path@ && source == e),
            Ok(v) => if v@.len() == 0 {
                (r matches Err(MieError::FileEmpty { path: p }) && p@ == path@)
            } else {
                r == Ok::<Vec<u8>, MieError>(v)
            },
        },
{
    let mut p = String::new();
    push_str(&mut p, path);
    if !exists {
        return Err(MieError::FileNotFound { path: p });
    }
    match read {
        Err(e) => Err(MieError::FileIo { path: p, source: e }),
        Ok(v) => {
            if v.len() == 0 {
                Err(MieError::FileEmpty { path: p })
            } else {
                Ok(v)
            }
        },
    }
}

/// The error a failed write of the dump reports: the dump goes to standard
/// output, and the failure's kind is kept so that a closed pipe can end the
/// run cleanly.
pub fn writer_error(source: IoFailure) -> (e: MieError)
    ensures
        e matches MieError::WriterError { destination, source: s } && destination@ == "stdout"@ && s == source,
{
    let mut destination = String::new();
    push_str(&mut destination, "stdout");
    MieError::WriterError { destination, source }
}

// ── Hex lines ─────────────────────────────────────────────────────────

/// `n` copies of `c`.
pub open spec fn repeat_char(c: char, n: nat) -> Seq<char> {
    Seq::new(n, |i: int| c)
}

/// `s` padded on the right with spaces to `width` characters.
pub open spec fn pad_right(s: Seq<char>, width: nat) -> Seq<char> {
    if s.len() >= width {
        s
    } else {
        s + repeat_char(' ', (width - s.len()) as nat)
    }
}

/// Each byte as two hex digits, separated by single spaces.
pub open spec fn hex_bytes(b: Seq<u8>) -> Seq<char>
    decreases b.len(),
{
    if b.len() == 0 {
        Seq::empty()
    } else if b.len() == 1 {
        hex_w(b[0] as nat, 2)
    } else {
        hex_bytes(b.drop_last()) + seq![' '] + hex_w(b.last() as nat, 2)
    }
}

/// The printable-ASCII column: bytes 32..127 as themselves, others as `.`.
pub open spec fn ascii_char(b: u8) -> char {
    if 32 <= b < 127 {
        b as char
    } else {
        '.'
    }
}

pub open spec fn ascii_column(b: Seq<u8>) -> Seq<char> {
    b.map_values(|x: u8| ascii_char(x))
}

/// One dump line: indent, 8-digit address, the hex bytes padded to 48
/// columns, and the ASCII column between bars.
pub open spec fn hex_line(indent: Seq<char>, addr: nat, chunk: Seq<u8>) -> Seq<char> {
    indent + hex_w(addr, 8) + seq![' ', ' '] + pad_right(hex_bytes(chunk), 48) + seq![' ', ' ', '|']
        + ascii_column(chunk) + seq!['|', '\n']
}

/// The lines for `bytes`, sixteen bytes each, addressed from `addr`.
pub open spec fn hex_lines(indent: Seq<char>, addr: nat, bytes: Seq<u8>) -> Seq<char>
    decreases bytes.len(),
{
    if bytes.len() == 0 {
        Seq::empty()
    } else if bytes.len() <= 16 {
        hex_line(indent, addr, bytes)
    } else {
        hex_line(indent, addr, bytes.take(16)) + hex_lines(indent, addr + 16, bytes.skip(16))
    }
}

fn push_repeat(out: &mut String, c: char, n: usize)
    ensures
        final(out)@ == old(out)@ + repeat_char(c, n as nat),
{
    let ghost start = out@;
    let mut i: usize = 0;
    while i < n
        invariant
            i <= n,
            out@ == start + repeat_char(c, i as nat),
        decreases n - i,
    {
        push_char(out, c);
        i = i + 1;
        assert(out@ =~= start + repeat_char(c, i as nat));
    }
}

fn push_ascii(out: &mut String, b: u8)
    ensures
        final(out)@ == old(out)@.push(ascii_char(b)),
{
    if 32 <= b && b < 127 {
        push_char(out, b as char);
    } else {
        push_char(out, '.');
    }
}

/// Appends [`hex_line`] for `data[from..to]`.
fn push_hex_line(out: &mut String, indent: &str, addr: usize, data: &[u8], from: usize, to: usize)
    requires
        from < to <= data@.len(),
        to - from <= 16,
    ensures
        final(out)@ == old(out)@ + hex_line(indent@, addr as nat, data@.subrange(from as int, to as int)),
{
    let ghost chunk = data@.subrange(from as int, to as int);
    let ghost start = out@;
    push_str(out, indent);
    push_hex_w(out, addr as u64, 8);
    push_char(out, ' ');
    push_char(out, ' ');
    let ghost before_hex = out@;
    let mut hex_part = String::new();
    let mut i: usize = from;
    while i < to
        invariant
            from <= i <= to,
            to <= data@.len(),
            chunk == data@.subrange(from as int, to as int),
            hex_part@ == hex_bytes(data@.subrange(from as int, i as int)),
            hex_part@.len() == if i == from { 0 } else { 3 * (i - from) - 1 },
        decreases to - i,
    {
        if i > from {
            push_char(&mut hex_part, ' ');
        }
        push_hex_w(&mut hex_part, data[i] as u64, 2);
        proof {
            let sub = data@.subrange(from as int, i + 1);
            assert(sub.drop_last() =~= data@.subrange(from as int, i as int));
            assert(sub.last() == data@[i as int]);
            assert(hex_w(data@[i as int] as nat, 2).len() == 2) by {
                crate::text::lemma_hex2_len(data@[i as int] as nat);
            }
        }
        i = i + 1;
    }
    let n = 3 * (to - from) - 1;
    push_str(out, hex_part.as_str());
    if n < 48 {
        push_repeat(out, ' ', 48 - n);
    }
    push_char(out, ' ');
    push_char(out, ' ');
    push_char(out, '|');
    let ghost before_ascii = out@;
    let mut j: usize = from;
    while j < to
        invariant
            from <= j <= to,
            to <= data@.len(),
            out@ == before_ascii + ascii_column(data@.subrange(from as int, j as int)),
        decreases to - j,
    {
        push_ascii(out, data[j]);
        j = j + 1;
        assert(out@ =~= before_ascii + ascii_column(data@.subrange(from as int, j as int)));
    }
    push_char(out, '|');
    push_char(out, '\n');
    assert(out@ =~= start + hex_line(indent@, addr as nat, chunk));
}

/// Appends [`hex_lines`] for `data[from..to]`, addressed from `addr`.
fn push_hex_lines(out: &mut String, indent: &str, addr: usize, data: &[u8], from: usize, to: usize)
    requires
        from <= to <= data@.len(),
        addr + (to - from) <= usize::MAX,
    ensures
        final(out)@ == old(out)@ + hex_lines(indent@, addr as nat, data@.subrange(from as int, to as int)),
{
    let ghost target = out@ + hex_lines(indent@, addr as nat, data@.subrange(from as int, to as int));
    let mut i: usize = from;
    while i < to
        invariant
            from <= i <= to,
            to <= data@.len(),
            addr + (to - from) <= usize::MAX,
            out@ + hex_lines(indent@, (addr + (i - from)) as nat, data@.subrange(i as int, to as int)) == target,
        decreases to - i,
    {
        let line_end = if to - i > 16 {
            i + 16
        } else {
            to
        };
        let ghost rest = data@.subrange(i as int, to as int);
        proof {
            if to - i > 16 {
                assert(rest.take(16) =~= data@.subrange(i as int, line_end as int));
                assert(rest.skip(16) =~= data@.subrange(line_end as int, to as int));
            } else {
                assert(rest =~= data@.subrange(i as int, line_end as int));
                assert(data@.subrange(to as int, to as int) =~= Seq::<u8>::empty());
            }
        }
        push_hex_line(out, indent, addr + (i - from), data, i, line_end);
        i = line_end;
    }
    assert(data@.subrange(to as int, to as int) =~= Seq::<u8>::empty());
}

// ── Raw dump ──────────────────────────────────────────────────────────

/// The byte range a raw dump shows: from `start` (clamped to the file) for
/// `length` bytes (saturating, clamped), never ending before it starts.
pub open spec fn raw_range(file_len: nat, start: nat, length: Option<usize>) -> (nat, nat) {
    let chunk_start = if start < file_len { start } else { file_len };
    let end0 = match length {
        Some(n) => {
            let sum = if start + n > usize::MAX { usize::MAX as nat } else { (start + n) as nat };
            if sum < file_len { sum } else { file_len }
        },
        None => file_len,
    };
    (chunk_start, if end0 < chunk_start { chunk_start } else { end0 })
}

/// The shown range always lies within the file and never ends before it
/// starts, whatever the start and length asked for.
pub proof fn law_raw_range_within_file(file_len: nat, start: nat, length: Option<usize>)
    ensures
        raw_range(file_len, start, length).0 <= raw_range(file_len, start, length).1 <= file_len,
        start <= file_len ==> raw_range(file_len, start, length).0 == start,
{
}

/// The raw dump: a header naming the file, its size and the range, a blank
/// line, then the hex lines of the range.
pub open spec fn raw_dump_text(data: Seq<u8>, path: Seq<char>, start: nat, length: Option<usize>) -> Seq<char> {
    let (a, b) = raw_range(data.len(), start, length);
    "File: "@ + or_empty(std_path_file_name(path)) + " ("@ + dec(data.len()) + " bytes)\n"@
        + "Range: 0x"@ + hex_w(a, 8) + "-0x"@ + hex_w(b, 8) + seq!['\n', '\n'] + hex_lines(
        "  "@,
        a,
        data.subrange(a as int, b as int),
    )
}

/// A raw hex+ASCII dump of `data[start_offset..start_offset + length]`,
/// clamped to the data; an out-of-range start gives an empty body.
pub fn hex_dump_raw(data: &[u8], path: &str, start_offset: usize, length: Option<usize>) -> (s: String)
    ensures
        s@ == raw_dump_text(data@, path@, start_offset as nat, length),
{
    let file_len = data.len();
    let chunk_start = if start_offset < file_len {
        start_offset
    } else {
        file_len
    };
    let end0 = match length {
        Some(n) => {
            let sum = if start_offset <= usize::MAX - n {
                start_offset + n
            } else {
                usize::MAX
            };
            if sum < file_len {
                sum
            } else {
                file_len
            }
        },
        None => file_len,
    };
    let end = if end0 < chunk_start {
        chunk_start
    } else {
        end0
    };
    let mut out = String::new();
    push_str(&mut out, "File: ");
    match path_file_name(path) {
        Some(n) => push_str(&mut out, n.as_str()),
        None => {},
    }
    push_str(&mut out, " (");
    push_dec(&mut out, file_len as u64);
    push_str(&mut out, " bytes)\n");
    push_str(&mut out, "Range: 0x");
    push_hex_w(&mut out, chunk_start as u64, 8);
    push_str(&mut out, "-0x");
    push_hex_w(&mut out, end as u64, 8);
    push_char(&mut out, '\n');
    push_char(&mut out, '\n');
    let ghost before = out@;
    push_hex_lines(&mut out, "  ", chunk_start, data, chunk_start, end);
    assert(out@ =~= raw_dump_text(data@, path@, start_offset as nat, length));
    out
}

// ── Record-aware dump ─────────────────────────────────────────────────

/// The word at `off`, or zero past the end.
pub open spec fn word_at(data: Seq<u8>, off: int) -> u16 {
    match spec_read_u16(data, off) {
        Some(v) => v,
        None => 0,
    }
}

/// The readable name of a type code, or `UNKNOWN(0xNN)`.
pub open spec fn type_label(code: u8) -> Seq<char> {
    if code == 0x01 {
        "Mode Command"@
    } else if code == 0x02 {
        "BC->RT (Receive)"@
    } else if code == 0x04 {
        "RT->BC (Transmit)"@
    } else if code == 0x08 {
        "RT->RT"@
    } else if code == 0x10 {
        "Broadcast BC->RT"@
    } else if code == 0x18 {
        "Broadcast RT->RT"@
    } else if code == 0x20 {
        "Spurious Data"@
    } else {
        "UNKNOWN(0x"@ + hex_w(code as nat, 2) + ")"@
    }
}

/// The readable name of a type code (see [`type_label`]).
pub fn type_display_name(code: u8) -> (s: String)
    ensures
        s@ == type_label(code),
{
    let mut s = String::new();
    match MessageType::from_code(code) {
        Some(MessageType::ModeCommand) => push_str(&mut s, "Mode Command"),
        Some(MessageType::BcToRt) => push_str(&mut s, "BC->RT (Receive)"),
        Some(MessageType::RtToBc) => push_str(&mut s, "RT->BC (Transmit)"),
        Some(MessageType::RtToRt) => push_str(&mut s, "RT->RT"),
        Some(MessageType::BroadcastBcToRt) => push_str(&mut s, "Broadcast BC->RT"),
        Some(MessageType::BroadcastRtToRt) => push_str(&mut s, "Broadcast RT->RT"),
        Some(MessageType::SpuriousData) => push_str(&mut s, "Spurious Data"),
        None => {
            push_str(&mut s, "UNKNOWN(0x");
            push_hex_w(&mut s, code as u64, 2);
            push_str(&mut s, ")");
        },
    }
    s
}

/// The annotation block before a record's bytes: a rule, then the record
/// number, offset and size, the decoded Type Word, the timestamp read as
/// IRIG, and the Command Word.
pub open spec fn record_annotation(data: Seq<u8>, tw: TypeWord, offset: nat, record_bytes: nat, num: nat) -> Seq<char> {
    annotation_head(tw, offset, record_bytes, num) + time_line(
        spec_irig(word_at(data, offset + 2int), word_at(data, offset + 4int), word_at(data, offset + 6int)),
    ) + cmd_line(spec_command_word(word_at(data, offset + 8int)))
}

/// An annotation follows the record layout: after the Type Word come the
/// three IRIG timestamp words (upper, middle, lower), which its Time line
/// decodes, and then the Command Word, which its closing Cmd line decodes.
pub proof fn law_annotation_follows_record_layout(data: Seq<u8>, tw: TypeWord, offset: nat, record_bytes: nat, num: nat)
    requires
        offset + 10 <= data.len(),
    ensures
        ({
            let ts_words = spec_timestamp_words(TimestampFormat::Irig) as int;
            let cmd = cmd_line(spec_command_word(le_u16(data, offset + 2 * (1 + ts_words))));
            let time = time_line(
                spec_irig(le_u16(data, offset + 2int), le_u16(data, offset + 4int), le_u16(data, offset + 6int)),
            );
            let a = record_annotation(data, tw, offset, record_bytes, num);
            let n = a.len() as int;
            &&& n >= cmd.len() + time.len()
            &&& a.subrange(n - cmd.len(), n) == cmd
            &&& a.subrange(n - cmd.len() - time.len(), n - cmd.len()) == time
        }),
{
    let head = annotation_head(tw, offset, record_bytes, num);
    let time = time_line(
        spec_irig(le_u16(data, offset + 2int), le_u16(data, offset + 4int), le_u16(data, offset + 6int)),
    );
    let cmd = cmd_line(spec_command_word(le_u16(data, offset + 8int)));
    assert(word_at(data, offset + 2int) == le_u16(data, offset + 2int));
    assert(word_at(data, offset + 4int) == le_u16(data, offset + 4int));
    assert(word_at(data, offset + 6int) == le_u16(data, offset + 6int));
    assert(word_at(data, offset + 8int) == le_u16(data, offset + 8int));
    let a = record_annotation(data, tw, offset, record_bytes, num);
    assert(a == head + time + cmd);
    let n = a.len() as int;
    assert(a.subrange(n - cmd.len(), n) =~= cmd);
    assert(a.subrange(n - cmd.len() - time.len(), n - cmd.len()) =~= time);
}

/// The rule, the record line and the Type Word line of an annotation.
#[verifier::opaque]
pub open spec fn annotation_head(tw: TypeWord, offset: nat, record_bytes: nat, num: nat) -> Seq<char> {
    repeat_char('-', 72) + "\n"@ + "  Record #"@ + dec(num) + "  @  0x"@ + hex_w(offset, 8) + "  ("@
        + dec(record_bytes) + " bytes, "@ + dec(tw.word_count as nat) + " words)\n"@
        + "  Type: 0x"@ + hex_w(tw.raw as nat, 4) + "  ->  "@ + type_label(tw.message_type)
        + "  Bus "@ + bus_label(tw.bus) + "  "@ + (if tw.error {
        "ERROR"@
    } else {
        "OK"@
    }) + "\n"@
}

/// `  Time: <ddd:hh:mm:ss.uuuuuu>`, flagged when free-running.
#[verifier::opaque]
pub open spec fn time_line(ts: IrigTimestamp) -> Seq<char> {
    "  Time: "@ + irig_doy_text(ts) + (if ts.freerun {
        "  [FREERUN]"@
    } else {
        Seq::empty()
    }) + "\n"@
}

/// `  Cmd:  0x<raw>  ->  RT<rt> SA<sa> <T|R> WC=<count>`
#[verifier::opaque]
pub open spec fn cmd_line(cmd: CommandWord) -> Seq<char> {
    "  Cmd:  0x"@ + hex_w(cmd.raw as nat, 4) + "  ->  RT"@ + dec(cmd.rt as nat) + " SA"@ + dec(
        cmd.subaddress as nat,
    ) + seq![' ', direction_letter(cmd.direction)] + " WC="@ + dec(cmd.data_word_count as nat)
        + "\n"@
}

/// The record at `offset`: `(true, note, _)` when the scan stops there with
/// an inline note, else `(false, text, end)` with the record's annotation
/// and bytes and where the next record starts.
#[verifier::opaque]
pub open spec fn dump_step(data: Seq<u8>, offset: nat, num: nat) -> (bool, Seq<char>, nat) {
    let tw = spec_type_word(word_at(data, offset as int));
    let record_bytes = 2 * tw.word_count as nat;
    if tw.word_count < 5 {
        (
            true,
            "  !! Invalid word_count="@ + dec(tw.word_count as nat) + " at 0x"@ + hex_w(offset, 8)
                + ", stopping\n"@,
            0,
        )
    } else if offset + record_bytes > usize::MAX {
        (
            true,
            "  !! Offset overflow at 0x"@ + hex_w(offset, 8) + " (record_bytes="@ + dec(record_bytes)
                + "), stopping\n"@,
            0,
        )
    } else if offset + record_bytes > data.len() {
        (
            true,
            "  !! Truncated record at 0x"@ + hex_w(offset, 8) + " ("@ + dec(record_bytes)
                + " bytes needed, "@ + dec((data.len() - offset) as nat) + " available)\n"@,
            0,
        )
    } else {
        (
            false,
            record_annotation(data, tw, offset, record_bytes, num) + hex_lines(
                "    "@,
                offset,
                data.subrange(offset as int, (offset + record_bytes) as int),
            ) + "\n"@,
            offset + record_bytes,
        )
    }
}

/// The record section of the dump from `offset` on, and the number of
/// records dumped: records follow one another while at least a minimum
/// record's bytes remain and fewer than `max` have been dumped.
pub open spec fn dump_walk(data: Seq<u8>, offset: nat, num: nat, max: Option<u64>) -> (Seq<char>, nat)
    decreases data.len() - offset,
{
    if offset + 10 > data.len() {
        (Seq::empty(), num)
    } else if max matches Some(m) && num >= m {
        (Seq::empty(), num)
    } else {
        let (stop, text, end) = dump_step(data, offset, num);
        if stop || end <= offset || end > data.len() {
            (text, num)
        } else {
            let (rest, n) = dump_walk(data, end, num + 1, max);
            (text + rest, n)
        }
    }
}

/// The record-aware dump: a header, the record section from
/// `start_offset`, a rule and the count of records dumped.
pub open spec fn record_dump_text(data: Seq<u8>, path: Seq<char>, max: Option<u64>, start: nat) -> Seq<char> {
    let (body, n) = dump_walk(data, start, 0, max);
    "File: "@ + or_empty(std_path_file_name(path)) + " ("@ + dec(data.len()) + " bytes)\n"@
        + "Record dump starting at offset 0x"@ + hex_w(start, 8) + "\n"@ + "\n"@ + body
        + repeat_char('-', 72) + "\n"@ + dec(n) + " records dumped.\n"@
}

fn word_or_zero(data: &[u8], offset: usize) -> (w: u16)
    ensures
        w == word_at(data@, offset as int),
{
    match read_u16(data, offset) {
        Some(v) => v,
        None => 0,
    }
}

fn push_annotation_head(out: &mut String, tw: &TypeWord, offset: usize, record_bytes: usize, num: u64)
    ensures
        final(out)@ == old(out)@ + annotation_head(*tw, offset as nat, record_bytes as nat, num as nat),
{
    reveal(annotation_head);
    let ghost start = out@;
    push_repeat(out, '-', 72);
    push_str(out, "\n");
    push_str(out, "  Record #");
    push_dec(out, num);
    push_str(out, "  @  0x");
    push_hex_w(out, offset as u64, 8);
    push_str(out, "  (");
    push_dec(out, record_bytes as u64);
    push_str(out, " bytes, ");
    push_dec(out, tw.word_count as u64);
    push_str(out, " words)\n");
    push_str(out, "  Type: 0x");
    push_hex_w(out, tw.raw as u64, 4);
    push_str(out, "  ->  ");
    let name = type_display_name(tw.message_type);
    push_str(out, name.as_str());
    push_str(out, "  Bus ");
    push_str(out, tw.bus.as_str());
    push_str(out, "  ");
    if tw.error {
        push_str(out, "ERROR");
    } else {
        push_str(out, "OK");
    }
    push_str(out, "\n");
    assert(out@ =~= start + annotation_head(*tw, offset as nat, record_bytes as nat, num as nat));
}

fn push_time_line(out: &mut String, ts: &IrigTimestamp)
    ensures
        final(out)@ == old(out)@ + time_line(*ts),
{
    reveal(time_line);
    let ghost start = out@;
    push_str(out, "  Time: ");
    let t = ts.format();
    push_str(out, t.as_str());
    if ts.freerun {
        push_str(out, "  [FREERUN]");
    }
    push_str(out, "\n");
    assert(out@ =~= start + time_line(*ts));
}

fn push_cmd_line(out: &mut String, cmd: &CommandWord)
    ensures
        final(out)@ == old(out)@ + cmd_line(*cmd),
{
    reveal(cmd_line);
    let ghost start = out@;
    push_str(out, "  Cmd:  0x");
    push_hex_w(out, cmd.raw as u64, 4);
    push_str(out, "  ->  RT");
    push_dec(out, cmd.rt as u64);
    push_str(out, " SA");
    push_dec(out, cmd.subaddress as u64);
    push_char(out, ' ');
    match cmd.direction {
        Direction::Transmit => push_char(out, 'T'),
        Direction::Receive => push_char(out, 'R'),
    }
    push_str(out, " WC=");
    push_dec(out, cmd.data_word_count as u64);
    push_str(out, "\n");
    assert(out@ =~= start + cmd_line(*cmd));
}

fn push_record_annotation(out: &mut String, data: &[u8], tw: &TypeWord, offset: usize, record_bytes: usize, num: u64)
    requires
        offset + 10 <= data@.len(),
    ensures
        final(out)@ == old(out)@ + record_annotation(data@, *tw, offset as nat, record_bytes as nat, num as nat),
{
    let ghost start = out@;
    let len = data.len();
    assert(offset + 10 <= len);
    push_annotation_head(out, tw, offset, record_bytes, num);
    let upper = word_or_zero(data, offset + 2);
    let middle = word_or_zero(data, offset + 4);
    let lower = word_or_zero(data, offset + 6);
    let ts = decode_irig_timestamp(upper, middle, lower);
    push_time_line(out, &ts);
    let cmd = decode_command_word(word_or_zero(data, offset + 8));
    push_cmd_line(out, &cmd);
    assert(out@ =~= start + record_annotation(data@, *tw, offset as nat, record_bytes as nat, num as nat));
}

fn under_limit(max: Option<u64>, num: u64) -> (b: bool)
    ensures
        b == !(max matches Some(m) && num >= m),
{
    match max {
        Some(m) => num < m,
        None => true,
    }
}

/// Appends the stop note or the record at `offset` (see [`dump_step`]);
/// `Some(end)` when the scan goes on at `end`.
fn dump_one(out: &mut String, data: &[u8], offset: usize, num: u64) -> (r: Option<usize>)
    requires
        offset + 10 <= data@.len(),
    ensures
        ({
            let step = dump_step(data@, offset as nat, num as nat);
            &&& final(out)@ == old(out)@ + step.1
            &&& match r {
                None => step.0,
                Some(end) => !step.0 && end == step.2 && offset < end <= data@.len(),
            }
        }),
{
    reveal(dump_step);
    let ghost start = out@;
    let file_len = data.len();
    let tw = decode_type_word(word_or_zero(data, offset));
    if tw.word_count < MIN_RECORD_WORDS {
        push_str(out, "  !! Invalid word_count=");
        push_dec(out, tw.word_count as u64);
        push_str(out, " at 0x");
        push_hex_w(out, offset as u64, 8);
        push_str(out, ", stopping\n");
        assert(out@ =~= start + dump_step(data@, offset as nat, num as nat).1);
        return None;
    }
    let record_bytes = tw.word_count as usize * 2;
    if offset > usize::MAX - record_bytes {
        push_str(out, "  !! Offset overflow at 0x");
        push_hex_w(out, offset as u64, 8);
        push_str(out, " (record_bytes=");
        push_dec(out, record_bytes as u64);
        push_str(out, "), stopping\n");
        assert(out@ =~= start + dump_step(data@, offset as nat, num as nat).1);
        return None;
    }
    if offset + record_bytes > file_len {
        push_str(out, "  !! Truncated record at 0x");
        push_hex_w(out, offset as u64, 8);
        push_str(out, " (");
        push_dec(out, record_bytes as u64);
        push_str(out, " bytes needed, ");
        push_dec(out, (file_len - offset) as u64);
        push_str(out, " available)\n");
        assert(out@ =~= start + dump_step(data@, offset as nat, num as nat).1);
        return None;
    }
    let record_end = offset + record_bytes;
    push_record_annotation(out, data, &tw, offset, record_bytes, num);
    push_hex_lines(out, "    ", offset, data, offset, record_end);
    push_str(out, "\n");
    assert(out@ =~= start + dump_step(data@, offset as nat, num as nat).1);
    Some(record_end)
}

/// A record-aware dump from `start_offset`, of at most `max_records`
/// records (see [`record_dump_text`]). The scan stops, with an inline note,
/// at a record whose word count is below the minimum or whose bytes run
/// past the end.
pub fn hex_dump_records(data: &[u8], path: &str, max_records: Option<u64>, start_offset: usize) -> (s: String)
    ensures
        s@ == record_dump_text(data@, path@, max_records, start_offset as nat),
{
    let file_len = data.len();
    let mut out = String::new();
    push_str(&mut out, "File: ");
    match path_file_name(path) {
        Some(n) => push_str(&mut out, n.as_str()),
        None => {},
    }
    push_str(&mut out, " (");
    push_dec(&mut out, file_len as u64);
    push_str(&mut out, " bytes)\n");
    push_str(&mut out, "Record dump starting at offset 0x");
    push_hex_w(&mut out, start_offset as u64, 8);
    push_str(&mut out, "\n");
    push_str(&mut out, "\n");
    let ghost body_start = out@;
    let ghost walk = dump_walk(data@, start_offset as nat, 0, max_records);
    let mut offset: usize = start_offset;
    let mut num: u64 = 0;
    let mut done = false;
    while !done && offset < file_len && file_len - offset >= MIN_RECORD_BYTES && under_limit(max_records, num)
        invariant
            file_len == data@.len(),
            num <= offset,
            walk == dump_walk(data@, start_offset as nat, 0, max_records),
            done ==> out@ == body_start + walk.0 && num == walk.1,
            !done ==> out@ + dump_walk(data@, offset as nat, num as nat, max_records).0 == body_start + walk.0,
            !done ==> dump_walk(data@, offset as nat, num as nat, max_records).1 == walk.1,
        decreases (if done { 0int } else { 1int }), file_len - offset,
    {
        let ghost before = out@;
        let ghost w = dump_walk(data@, offset as nat, num as nat, max_records);
        let ghost step = dump_step(data@, offset as nat, num as nat);
        match dump_one(&mut out, data, offset, num) {
            None => {
                assert(w.0 == step.1);
                done = true;
            },
            Some(end) => {
                let ghost rest = dump_walk(data@, end as nat, (num + 1) as nat, max_records);
                assert(w.0 == step.1 + rest.0);
                assert(out@ + rest.0 =~= before + w.0);
                offset = end;
                num = num + 1;
            },
        }
    }
    push_repeat(&mut out, '-', 72);
    push_str(&mut out, "\n");
    push_dec(&mut out, num);
    push_str(&mut out, " records dumped.\n");
    assert(out@ =~= record_dump_text(data@, path@, max_records, start_offset as nat));
    out
}

} // verus!
