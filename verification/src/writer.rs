//! CSV output: the column layout, the row rendering, RFC 4180 field quoting,
//! the names of every file a run can commit, and the decisions that guard
//! and order those commits. Bytes reach the disk outside this library.
use vstd::prelude::*;

use crate::error::MieError;
use crate::models::{
    bus_label, error_label_text, ErrorMode, msg_label_text, timestamp_text, MieMessage, MAX_DATA_WORDS,
};
use crate::text::{
    chars_of, dec, dec_value, dec_w, hex_w, is_dec_digit, lemma_dec_exact, lemma_dec_w_exact, pow10,
    push_char, push_dec, push_dec_w, push_hex_w, push_str,
};

verus! {

/// Number of leading columns that make up the vendor layout. Everything past
/// this index is a decoder addition at the tail.
pub const VENDOR_COLUMN_COUNT: usize = 44;

/// Header row written before the first data row: the 44 vendor columns
/// (`TIME_STAMP` through `XMT_GAP`) and then the decoder's `ERROR` and
/// `ERROR_CODE`.
pub const CSV_HEADER: &'static str = "TIME_STAMP,RT,MSG,WD01,WD02,WD03,WD04,WD05,WD06,WD07,WD08,WD09,WD10,WD11,WD12,WD13,WD14,WD15,WD16,WD17,WD18,WD19,WD20,WD21,WD22,WD23,WD24,WD25,WD26,WD27,WD28,WD29,WD30,WD31,WD32,STAT,CMD,MUX,TERM_NAME,BUS,DELTA,IM_GAP,RCV_GAP,XMT_GAP,ERROR,ERROR_CODE\n";

// ── Field quoting ─────────────────────────────────────────────────────

/// A character that forces a CSV field into quotes.
pub open spec fn is_csv_special(c: char) -> bool {
    c == ',' || c == '"' || c == '\n' || c == '\r'
}

/// The field holds a delimiter, a double quote or a line break.
pub open spec fn needs_quoting(s: Seq<char>) -> bool {
    exists|i: int| 0 <= i < s.len() && is_csv_special(#[trigger] s[i])
}

/// The characters of `s` with each double quote doubled.
pub open spec fn quote_body(s: Seq<char>) -> Seq<char>
    decreases s.len(),
{
    if s.len() == 0 {
        Seq::empty()
    } else {
        quote_body(s.drop_last()) + (if s.last() == '"' {
            seq!['"', '"']
        } else {
            seq![s.last()]
        })
    }
}

/// Minimal RFC 4180 quoting: a field that needs it is wrapped in double
/// quotes with inner quotes doubled; any other field is written verbatim.
pub open spec fn csv_field(s: Seq<char>) -> Seq<char> {
    if needs_quoting(s) {
        seq!['"'] + quote_body(s) + seq!['"']
    } else {
        s
    }
}

fn has_special(v: &Vec<char>) -> (b: bool)
    ensures
        b == needs_quoting(v@),
{
    let mut i: usize = 0;
    while i < v.len()
        invariant
            i <= v.len(),
            forall|k: int| 0 <= k < i ==> !is_csv_special(#[trigger] v@[k]),
        decreases v.len() - i,
    {
        let c = v[i];
        if c == ',' || c == '"' || c == '\n' || c == '\r' {
            assert(is_csv_special(v@[i as int]));
            return true;
        }
        i = i + 1;
    }
    false
}

/// Appends `value` as one CSV field (see [`csv_field`]).
pub fn push_csv_field(out: &mut String, value: &str)
    ensures
        final(out)@ == old(out)@ + csv_field(value@),
{
    let v = chars_of(value);
    if has_special(&v) {
        let ghost start = out@;
        push_char(out, '"');
        let mut i: usize = 0;
        while i < v.len()
            invariant
                i <= v.len(),
                out@ == start + seq!['"'] + quote_body(v@.take(i as int)),
            decreases v.len() - i,
        {
            let c = v[i];
            if c == '"' {
                push_char(out, '"');
                push_char(out, '"');
            } else {
                push_char(out, c);
            }
            assert(v@.take(i + 1).drop_last() =~= v@.take(i as int));
            i = i + 1;
            assert(out@ =~= start + seq!['"'] + quote_body(v@.take(i as int)));
        }
        assert(v@.take(v@.len() as int) =~= v@);
        push_char(out, '"');
    } else {
        push_str(out, value);
    }
}

/// One CSV field rendered on its own (see [`csv_field`]).
pub fn csv_field_text(value: &str) -> (s: String)
    ensures
        s@ == csv_field(value@),
{
    let mut s = String::new();
    push_csv_field(&mut s, value);
    s
}

// ── Row layout ────────────────────────────────────────────────────────

/// The `WDnn` cell for word `i`: four upper-case hex digits, or empty past
/// the last data word.
pub open spec fn word_cell(words: Seq<u16>, i: int) -> Seq<char> {
    if 0 <= i < words.len() {
        hex_w(words[i] as nat, 4)
    } else {
        Seq::empty()
    }
}

/// The first `n` data-word cells, each followed by a comma.
pub open spec fn data_cells(words: Seq<u16>, n: nat) -> Seq<char>
    decreases n,
{
    if n == 0 {
        Seq::empty()
    } else {
        data_cells(words, (n - 1) as nat) + word_cell(words, n - 1) + seq![',']
    }
}

/// A 16-bit word as four upper-case hex digits, or empty.
pub open spec fn hex4_cell(v: Option<u16>) -> Seq<char> {
    match v {
        Some(x) => hex_w(x as nat, 4),
        None => Seq::empty(),
    }
}

/// The RT address in decimal, or empty.
pub open spec fn rt_cell(msg: MieMessage) -> Seq<char> {
    match msg.command_word {
        Some(c) => dec(c.rt as nat),
        None => Seq::empty(),
    }
}

/// The Command Word's raw value as four hex digits, or empty.
pub open spec fn cmd_cell(msg: MieMessage) -> Seq<char> {
    match msg.command_word {
        Some(c) => hex_w(c.raw as nat, 4),
        None => Seq::empty(),
    }
}

/// The MUX cell, quoted as a CSV field, or empty.
pub open spec fn mux_cell(msg: MieMessage) -> Seq<char> {
    match msg.mux {
        Some(m) => csv_field(m@),
        None => Seq::empty(),
    }
}

/// A delta in microseconds, as seconds with six decimals; empty for none.
pub open spec fn delta_cell(d: Option<u64>) -> Seq<char> {
    match d {
        Some(us) => dec((us / 1_000_000) as nat) + seq!['.'] + dec_w((us % 1_000_000) as nat, 6),
        None => Seq::empty(),
    }
}

/// The DELTA cell reads as the gap in seconds: whole seconds in decimal,
/// a `.`, then exactly six digits that denote the microseconds below one
/// second. No gap gives an empty cell.
pub proof fn law_delta_cell_is_seconds(us: u64)
    ensures
        delta_cell(None) == Seq::<char>::empty(),
        ({
            let t = delta_cell(Some(us));
            let n = t.len() as int;
            &&& n >= 8
            &&& t[n - 7] == '.'
            &&& forall|i: int| n - 6 <= i < n ==> is_dec_digit(#[trigger] t[i])
            &&& dec_value(t.subrange(n - 6, n)) == us % 1_000_000
            &&& forall|i: int| 0 <= i < n - 7 ==> is_dec_digit(#[trigger] t[i])
            &&& dec_value(t.subrange(0, n - 7)) == us / 1_000_000
        }),
{
    let w = (us / 1_000_000) as nat;
    let f = (us % 1_000_000) as nat;
    assert(pow10(6) == 1000000) by {
        reveal_with_fuel(pow10, 7);
    }
    lemma_dec_w_exact(f, 6);
    lemma_dec_exact(w);
    let t = delta_cell(Some(us));
    let a = dec(w);
    let b = dec_w(f, 6);
    assert(t == a + seq!['.'] + b);
    let n = t.len() as int;
    assert(t.subrange(n - 6, n) =~= b);
    assert(t.subrange(0, n - 7) =~= a);
    assert forall|i: int| n - 6 <= i < n implies is_dec_digit(#[trigger] t[i]) by {
        assert(t[i] == b[i - (n - 6)]);
    }
    assert forall|i: int| 0 <= i < n - 7 implies is_dec_digit(#[trigger] t[i]) by {
        assert(t[i] == a[i]);
    }
}

/// One data row: `TIME_STAMP,RT,MSG,WD01..WD32,STAT,CMD,MUX,TERM_NAME,BUS,
/// DELTA,IM_GAP,RCV_GAP,XMT_GAP,ERROR,ERROR_CODE` and a newline, with
/// `TERM_NAME` and the three gap columns always empty.
pub open spec fn row_text(msg: MieMessage) -> Seq<char> {
    row_head(msg) + row_words(msg) + row_tail(msg)
}

/// `TIME_STAMP,RT,MSG,`
pub open spec fn row_head(msg: MieMessage) -> Seq<char> {
    timestamp_text(msg.timestamp) + seq![','] + rt_cell(msg) + seq![','] + msg_label_text(
        msg.command_word,
    ) + seq![',']
}

/// `WD01,..,WD32,STAT,CMD,`
pub open spec fn row_words(msg: MieMessage) -> Seq<char> {
    data_cells(msg.data_words@, 32) + hex4_cell(msg.status_word) + seq![','] + cmd_cell(msg)
        + seq![',']
}

/// `MUX,TERM_NAME,BUS,DELTA,IM_GAP,RCV_GAP,XMT_GAP,ERROR,ERROR_CODE` and the newline.
pub open spec fn row_tail(msg: MieMessage) -> Seq<char> {
    row_links(msg) + row_errors(msg)
}

/// `MUX,TERM_NAME,BUS,DELTA,`
pub open spec fn row_links(msg: MieMessage) -> Seq<char> {
    mux_cell(msg) + seq![',', ','] + bus_label(msg.type_word.bus) + seq![','] + delta_cell(
        msg.delta_us,
    ) + seq![',']
}

/// `IM_GAP,RCV_GAP,XMT_GAP,ERROR,ERROR_CODE` and the newline.
pub open spec fn row_errors(msg: MieMessage) -> Seq<char> {
    seq![',', ',', ','] + error_label_text(msg.type_word.error, msg.message_format) + seq![',']
        + hex4_cell(msg.error_word) + seq!['\n']
}

fn push_hex4_opt(out: &mut String, v: Option<u16>)
    ensures
        final(out)@ == old(out)@ + hex4_cell(v),
{
    match v {
        Some(x) => push_hex_w(out, x as u64, 4),
        None => {},
    }
}

fn push_data_cells(out: &mut String, msg: &MieMessage)
    ensures
        final(out)@ == old(out)@ + data_cells(msg.data_words@, 32),
{
    let ghost start = out@;
    let mut i: usize = 0;
    while i < MAX_DATA_WORDS
        invariant
            i <= 32,
            out@ == start + data_cells(msg.data_words@, i as nat),
        decreases 32 - i,
    {
        match msg.data_words.get(i) {
            Some(w) => push_hex_w(out, w as u64, 4),
            None => {},
        }
        push_char(out, ',');
        i = i + 1;
        assert(out@ =~= start + data_cells(msg.data_words@, i as nat));
    }
}

fn push_delta(out: &mut String, d: Option<u64>)
    ensures
        final(out)@ == old(out)@ + delta_cell(d),
{
    match d {
        Some(us) => {
            push_dec(out, us / 1_000_000);
            push_char(out, '.');
            push_dec_w(out, us % 1_000_000, 6);
            assert(out@ =~= old(out)@ + delta_cell(d));
        },
        None => {},
    }
}

fn push_row_head(out: &mut String, msg: &MieMessage)
    ensures
        final(out)@ == old(out)@ + row_head(*msg),
{
    let ghost start = out@;
    let ts = msg.timestamp.format();
    push_str(out, ts.as_str());
    push_char(out, ',');
    match msg.command_word {
        Some(c) => push_dec(out, c.rt as u64),
        None => {},
    }
    push_char(out, ',');
    let label = msg.msg_label();
    push_str(out, label.as_str());
    push_char(out, ',');
    assert(out@ =~= start + row_head(*msg));
}

fn push_row_words(out: &mut String, msg: &MieMessage)
    ensures
        final(out)@ == old(out)@ + row_words(*msg),
{
    let ghost start = out@;
    push_data_cells(out, msg);
    push_hex4_opt(out, msg.status_word);
    push_char(out, ',');
    match msg.command_word {
        Some(c) => push_hex_w(out, c.raw as u64, 4),
        None => {},
    }
    push_char(out, ',');
    assert(out@ =~= start + row_words(*msg));
}

fn push_row_links(out: &mut String, msg: &MieMessage)
    ensures
        final(out)@ == old(out)@ + row_links(*msg),
{
    let ghost start = out@;
    match &msg.mux {
        Some(m) => push_csv_field(out, m.as_str()),
        None => {},
    }
    push_char(out, ',');
    push_char(out, ',');
    push_str(out, msg.bus().as_str());
    push_char(out, ',');
    push_delta(out, msg.delta_us);
    push_char(out, ',');
    assert(out@ =~= start + row_links(*msg));
}

fn push_row_errors(out: &mut String, msg: &MieMessage)
    ensures
        final(out)@ == old(out)@ + row_errors(*msg),
{
    let ghost start = out@;
    push_char(out, ',');
    push_char(out, ',');
    push_char(out, ',');
    push_str(out, msg.error_label());
    push_char(out, ',');
    push_hex4_opt(out, msg.error_word);
    push_char(out, '\n');
    assert(out@ =~= start + row_errors(*msg));
}

fn push_row_tail(out: &mut String, msg: &MieMessage)
    ensures
        final(out)@ == old(out)@ + row_tail(*msg),
{
    let ghost start = out@;
    push_row_links(out, msg);
    push_row_errors(out, msg);
    assert(out@ =~= start + row_tail(*msg));
}

/// Appends the row for `msg` (see [`row_text`]).
pub fn push_row(out: &mut String, msg: &MieMessage)
    ensures
        final(out)@ == old(out)@ + row_text(*msg),
{
    let ghost start = out@;
    push_row_head(out, msg);
    push_row_words(out, msg);
    push_row_tail(out, msg);
    assert(out@ =~= start + row_text(*msg));
}

/// The row for `msg` on its own (see [`row_text`]).
pub fn render_row(msg: &MieMessage) -> (s: String)
    ensures
        s@ == row_text(*msg),
{
    let mut s = String::new();
    push_row(&mut s, msg);
    s
}

// ── The row writer ────────────────────────────────────────────────────

/// Streaming CSV row writer. Rows are rendered into a pending buffer that
/// the caller drains to its sink with [`CsvWriter::take_output`]; the header
/// is the first text a writer produces.
pub struct CsvWriter {
    pending: String,
    rows_written: u64,
    destination: String,
    drained: Ghost<Seq<char>>,
}

impl CsvWriter {
    /// Everything this writer has produced: the text already drained,
    /// followed by what is still pending.
    pub closed spec fn produced(&self) -> Seq<char> {
        self.drained@ + self.pending@
    }

    /// The text not yet drained.
    pub closed spec fn pending_text(&self) -> Seq<char> {
        self.pending@
    }

    /// Rows written so far.
    pub closed spec fn rows(&self) -> nat {
        self.rows_written as nat
    }

    /// The destination name that errors report.
    pub closed spec fn destination_name(&self) -> Seq<char> {
        self.destination@
    }

    /// A writer whose output starts with the header row.
    pub fn new(destination: &str) -> (w: CsvWriter)
        ensures
            w.produced() == CSV_HEADER@,
            w.pending_text() == CSV_HEADER@,
            w.rows() == 0,
            w.destination_name() == destination@,
    {
        let mut pending = String::new();
        push_str(&mut pending, CSV_HEADER);
        let mut dest = String::new();
        push_str(&mut dest, destination);
        CsvWriter { pending, rows_written: 0, destination: dest, drained: Ghost(Seq::empty()) }
    }

    /// Renders one row after everything produced so far.
    pub fn write_message(&mut self, msg: &MieMessage)
        requires
            old(self).rows() < u64::MAX,
        ensures
            final(self).produced() == old(self).produced() + row_text(*msg),
            final(self).pending_text() == old(self).pending_text() + row_text(*msg),
            final(self).rows() == old(self).rows() + 1,
            final(self).destination_name() == old(self).destination_name(),
    {
        push_row(&mut self.pending, msg);
        self.rows_written = self.rows_written + 1;
        assert(self.drained@ + self.pending@ =~= old(self).drained@ + old(self).pending@ + row_text(*msg));
    }

    /// Hands out the pending text and leaves the buffer empty; what was
    /// produced overall is unchanged.
    pub fn take_output(&mut self) -> (s: String)
        ensures
            s@ == old(self).pending_text(),
            final(self).pending_text() == Seq::<char>::empty(),
            final(self).produced() == old(self).produced(),
            final(self).rows() == old(self).rows(),
            final(self).destination_name() == old(self).destination_name(),
    {
        let mut out = String::new();
        core::mem::swap(&mut out, &mut self.pending);
        self.drained = Ghost(self.drained@ + out@);
        assert(self.drained@ + self.pending@ =~= old(self).drained@ + old(self).pending@);
        out
    }

    /// Ends the writer and reports the number of rows written.
    pub fn finish(self) -> (n: u64)
        ensures
            n == self.rows(),
    {
        self.rows_written
    }

    pub fn rows_written(&self) -> (n: u64)
        ensures
            n == self.rows(),
    {
        self.rows_written
    }

    /// The destination name that errors report.
    pub fn destination(&self) -> (s: &str)
        ensures
            s@ == self.destination_name(),
    {
        self.destination.as_str()
    }
}

// ── File names ────────────────────────────────────────────────────────

/// What `Path::file_name` gives for a path, as text.
pub uninterp spec fn std_path_file_name(p: Seq<char>) -> Option<Seq<char>>;

/// What `Path::file_stem` gives for a path, as text.
pub uninterp spec fn std_path_file_stem(p: Seq<char>) -> Option<Seq<char>>;

/// What `Path::extension` gives for a path, as text.
pub uninterp spec fn std_path_extension(p: Seq<char>) -> Option<Seq<char>>;

/// What `Path::parent` gives for a path, as text.
pub uninterp spec fn std_path_parent(p: Seq<char>) -> Option<Seq<char>>;

/// What `Path::join` gives for a base path and a name, as text.
pub uninterp spec fn std_path_join(base: Seq<char>, name: Seq<char>) -> Seq<char>;

/// `std::path::Path::file_name`: the final component of `p`, if it is a
/// normal file name. The contract names the result; how std splits a path
/// (which depends on the platform's separators) is not restated here.
#[verifier::external_body]
pub(crate) fn path_file_name(p: &str) -> (r: Option<String>)
    ensures
        match r {
            Some(s) => std_path_file_name(p@) == Some(s@),
            None => std_path_file_name(p@) is None,
        },
{
    match std::path::Path::new(p).file_name() {
        Some(s) => Some(s.to_string_lossy().into_owned()),
        None => None,
    }
}

/// `std::path::Path::file_stem`: the file name without its final extension.
/// The contract names the result.
#[verifier::external_body]
fn path_file_stem(p: &str) -> (r: Option<String>)
    ensures
        match r {
            Some(s) => std_path_file_stem(p@) == Some(s@),
            None => std_path_file_stem(p@) is None,
        },
{
    match std::path::Path::new(p).file_stem() {
        Some(s) => Some(s.to_string_lossy().into_owned()),
        None => None,
    }
}

/// `std::path::Path::extension`: the text after the file name's last dot.
/// The contract names the result.
#[verifier::external_body]
fn path_extension(p: &str) -> (r: Option<String>)
    ensures
        match r {
            Some(s) => std_path_extension(p@) == Some(s@),
            None => std_path_extension(p@) is None,
        },
{
    match std::path::Path::new(p).extension() {
        Some(s) => Some(s.to_string_lossy().into_owned()),
        None => None,
    }
}

/// `std::path::Path::parent`: `p` without its final component, or `None` at
/// a root or for an empty path. The contract names the result.
#[verifier::external_body]
fn path_parent(p: &str) -> (r: Option<String>)
    ensures
        match r {
            Some(s) => std_path_parent(p@) == Some(s@),
            None => std_path_parent(p@) is None,
        },
{
    match std::path::Path::new(p).parent() {
        Some(s) => Some(s.to_string_lossy().into_owned()),
        None => None,
    }
}

/// `std::path::Path::join`: `name` appended to `base` as a further
/// component. The contract names the result.
#[verifier::external_body]
fn path_join(base: &str, name: &str) -> (r: String)
    ensures
        r@ == std_path_join(base@, name@),
{
    std::path::Path::new(base).join(name).to_string_lossy().into_owned()
}

/// Whether `Path::new(a) == Path::new(b)`.
pub uninterp spec fn std_path_eq(a: Seq<char>, b: Seq<char>) -> bool;

/// `==` on `std::path::Path`, which compares two paths component by
/// component, so that a repeated separator or an interior `.` makes no
/// difference. The contract names the result and states what `Eq` requires
/// of it: a path equals itself, and the comparison is symmetric.
#[verifier::external_body]
pub(crate) fn path_eq(a: &str, b: &str) -> (r: bool)
    ensures
        r == std_path_eq(a@, b@),
        r == std_path_eq(b@, a@),
        a@ == b@ ==> r,
{
    std::path::Path::new(a) == std::path::Path::new(b)
}

/// `opt` or the empty text.
pub open spec fn or_empty(opt: Option<Seq<char>>) -> Seq<char> {
    match opt {
        Some(s) => s,
        None => Seq::empty(),
    }
}

/// The errors file beside `output`: `<stem>_errors.<ext>`, or
/// `<stem>_errors` when the name has no extension.
pub open spec fn error_path_text(output: Seq<char>) -> Seq<char> {
    let stem = or_empty(std_path_file_stem(output));
    let name = match std_path_extension(output) {
        Some(e) => if e.len() > 0 {
            stem + "_errors."@ + e
        } else {
            stem + "_errors"@
        },
        None => stem + "_errors"@,
    };
    std_path_join(or_empty(std_path_parent(output)), name)
}

/// `<destination>.partial`, beside the destination.
pub open spec fn partial_path_text(destination: Seq<char>) -> Seq<char> {
    let name = or_empty(std_path_file_name(destination)) + ".partial"@;
    match std_path_parent(destination) {
        Some(p) => if p.len() > 0 {
            std_path_join(p, name)
        } else {
            name
        },
        None => name,
    }
}

fn unwrap_or_empty(opt: Option<String>) -> (s: String)
    ensures
        s@ == or_empty(match opt {
            Some(t) => Some(t@),
            None => None,
        }),
{
    match opt {
        Some(t) => t,
        None => {
            let e = String::new();
            e
        },
    }
}

/// The errors file of a split run (see [`error_path_text`]).
pub fn error_path_for(output: &str) -> (r: String)
    ensures
        r@ == error_path_text(output@),
{
    let stem = unwrap_or_empty(path_file_stem(output));
    let ext = path_extension(output);
    let parent = unwrap_or_empty(path_parent(output));
    let mut name = stem;
    match ext {
        Some(e) => {
            if !e.as_str().is_empty() {
                push_str(&mut name, "_errors.");
                push_str(&mut name, e.as_str());
            } else {
                push_str(&mut name, "_errors");
            }
        },
        None => {
            push_str(&mut name, "_errors");
        },
    }
    path_join(parent.as_str(), name.as_str())
}

/// Where an allow-partial run commits its rows (see [`partial_path_text`]).
pub fn partial_path_for(destination: &str) -> (r: String)
    ensures
        r@ == partial_path_text(destination@),
{
    let mut name = unwrap_or_empty(path_file_name(destination));
    push_str(&mut name, ".partial");
    match path_parent(destination) {
        Some(p) => {
            if !p.as_str().is_empty() {
                path_join(p.as_str(), name.as_str())
            } else {
                name
            }
        },
        None => name,
    }
}

/// Every path a run could commit, in order: the destination, the errors file
/// (split runs), then the `.partial` of each of those (allow-partial runs).
pub open spec fn commit_target_texts(output: Seq<char>, split_errors: bool, allow_partial: bool) -> Seq<Seq<char>> {
    let base = if split_errors {
        seq![output, error_path_text(output)]
    } else {
        seq![output]
    };
    if allow_partial {
        base + base.map_values(|t: Seq<char>| partial_path_text(t))
    } else {
        base
    }
}

/// The text of each path.
pub open spec fn path_texts(v: Seq<String>) -> Seq<Seq<char>> {
    v.map_values(|s: String| s@)
}

/// Every path a run could commit (see [`commit_target_texts`]).
pub fn commit_targets(output: &str, split_errors: bool, allow_partial: bool) -> (targets: Vec<String>)
    ensures
        path_texts(targets@) == commit_target_texts(output@, split_errors, allow_partial),
{
    let mut targets: Vec<String> = Vec::new();
    let mut first = String::new();
    push_str(&mut first, output);
    targets.push(first);
    if split_errors {
        targets.push(error_path_for(output));
    }
    let ghost base = path_texts(targets@);
    assert(base =~= (if split_errors {
        seq![output@, error_path_text(output@)]
    } else {
        seq![output@]
    }));
    if allow_partial {
        let committed = targets.len();
        let mut i: usize = 0;
        while i < committed
            invariant
                committed == base.len(),
                committed <= 2,
                i <= committed,
                targets@.len() == committed + i,
                path_texts(targets@) =~= base + base.take(i as int).map_values(|t: Seq<char>| partial_path_text(t)),
            decreases committed - i,
        {
            assert(path_texts(targets@)[i as int] == base[i as int]);
            let p = partial_path_for(targets[i].as_str());
            let ghost before = targets@;
            targets.push(p);
            assert(targets@ =~= before.push(p));
            assert(path_texts(targets@) =~= path_texts(before).push(partial_path_text(base[i as int])));
            assert(base.take(i + 1).map_values(|t: Seq<char>| partial_path_text(t)) =~= base.take(
                i as int,
            ).map_values(|t: Seq<char>| partial_path_text(t)).push(partial_path_text(base[i as int])));
            i = i + 1;
            assert(path_texts(targets@) =~= base + base.take(i as int).map_values(
                |t: Seq<char>| partial_path_text(t),
            ));
        }
        assert(base.take(committed as int) =~= base);
    }
    targets
}

// ── Run options and outcome ───────────────────────────────────────────

/// Output-side options for a CSV run. The default applies no checks.
#[derive(Debug, Clone)]
pub struct WriteOptions {
    /// The input whose identity every commit target is checked against;
    /// `None` skips the check.
    pub input_path: Option<String>,
    /// Refuse to overwrite an existing destination.
    pub no_clobber: bool,
    /// On an unrecoverable sync loss, commit the rows so far as
    /// `<destination>.partial` and succeed.
    pub allow_partial: bool,
}

impl Default for WriteOptions {
    fn default() -> (o: WriteOptions)
        ensures
            o.input_path is None,
            !o.no_clobber,
            !o.allow_partial,
    {
        WriteOptions { input_path: None, no_clobber: false, allow_partial: false }
    }
}

/// Where an allow-partial run left its rows after an unrecoverable sync loss.
#[derive(Debug, Clone)]
pub struct PartialCommit {
    pub main_path: String,
    /// Present only when the run had produced an errors file.
    pub errors_path: Option<String>,
    pub offset: u64,
    pub sync_losses: u64,
}

/// Outcome of a successful CSV run.
#[derive(Debug, Clone)]
pub struct WriteOutcome {
    pub normal_count: u64,
    pub error_count: u64,
    /// `Some` when an allow-partial run stopped at a sync loss.
    pub partial: Option<PartialCommit>,
}

// ── Pre-flight ────────────────────────────────────────────────────────

/// The index of the first `true` at or after `i`.
pub open spec fn first_true_from(s: Seq<bool>, i: int) -> Option<int>
    decreases s.len() - i,
{
    if i < 0 || i >= s.len() {
        None
    } else if s[i] {
        Some(i)
    } else {
        first_true_from(s, i + 1)
    }
}

/// The verdict of the pre-flight checks, as the refused path and the kind
/// of refusal: a commit target that resolves to the input (the first one,
/// in [`commit_target_texts`] order), then under no-clobber an existing
/// destination, then an existing errors file of a split run.
pub open spec fn preflight_verdict(
    output: Seq<char>,
    split_errors: bool,
    check_input: bool,
    no_clobber: bool,
    allow_partial: bool,
    same_file: Seq<bool>,
    output_exists: bool,
    errors_exists: bool,
) -> Result<(), (bool, Seq<char>)> {
    let targets = commit_target_texts(output, split_errors, allow_partial);
    match (if check_input { first_true_from(same_file, 0) } else { None }) {
        Some(i) => Err((true, targets[i])),
        None => if no_clobber && output_exists {
            Err((false, output))
        } else if no_clobber && split_errors && errors_exists {
            Err((false, error_path_text(output)))
        } else {
            Ok(())
        },
    }
}

/// A pre-flight result in the shape of [`preflight_verdict`]: `true` with
/// the path for a collision with the input, `false` with the path for a
/// clobber refusal.
pub open spec fn refusal_of(r: Result<(), MieError>) -> Result<(), (bool, Seq<char>)> {
    match r {
        Ok(()) => Ok(()),
        Err(MieError::InputOutputCollision { path }) => Err((true, path@)),
        Err(MieError::ClobberRefused { path }) => Err((false, path@)),
        Err(_) => Err((false, seq!['?', '?'])),
    }
}

fn first_true(s: &[bool]) -> (r: Option<usize>)
    ensures
        match r {
            Some(i) => i < s@.len() && first_true_from(s@, 0) == Some(i as int),
            None => first_true_from(s@, 0) is None,
        },
{
    let mut i: usize = 0;
    while i < s.len()
        invariant
            i <= s.len(),
            first_true_from(s@, 0) == first_true_from(s@, i as int),
        decreases s.len() - i,
    {
        if s[i] {
            return Some(i);
        }
        i = i + 1;
    }
    None
}

/// The checks made before any output file is opened. `same_file[i]` says
/// whether the `i`-th of [`commit_targets`] resolves to the input file;
/// `output_exists` and `errors_exists` whether the destination and the
/// errors file exist now. A colliding target is refused first; under
/// no-clobber an existing destination, then (split runs) an existing errors
/// file, is refused next.
pub fn preflight_output(
    output: &str,
    split_errors: bool,
    opts: &WriteOptions,
    same_file: &[bool],
    output_exists: bool,
    errors_exists: bool,
) -> (r: Result<(), MieError>)
    requires
        same_file@.len() == commit_target_texts(output@, split_errors, opts.allow_partial).len(),
    ensures
        refusal_of(r) == preflight_verdict(
            output@,
            split_errors,
            opts.input_path is Some,
            opts.no_clobber,
            opts.allow_partial,
            same_file@,
            output_exists,
            errors_exists,
        ),
        r matches Err(e) ==> (e is InputOutputCollision || e is ClobberRefused),
{
    if opts.input_path.is_some() {
        let targets = commit_targets(output, split_errors, opts.allow_partial);
        match first_true(same_file) {
            Some(i) => {
                assert(path_texts(targets@).len() == targets@.len());
                assert(path_texts(targets@)[i as int] == targets@[i as int]@);
                let path = targets[i].clone();
                return Err(MieError::InputOutputCollision { path });
            },
            None => {},
        }
    }
    if opts.no_clobber {
        if output_exists {
            let mut path = String::new();
            push_str(&mut path, output);
            return Err(MieError::ClobberRefused { path });
        }
        if split_errors && errors_exists {
            return Err(MieError::ClobberRefused { path: error_path_for(output) });
        }
    }
    Ok(())
}

// ── Streaming and committing ──────────────────────────────────────────

/// What a run does with one item of the message stream.
#[derive(Debug)]
pub enum StreamStep {
    /// Render the message.
    Write(MieMessage),
    /// Stop here and commit what was written as `.partial`.
    StopPartial { offset: u64, sync_losses: u64 },
    /// Stop and report the error; nothing is committed.
    Fail(MieError),
}

/// A message is rendered; an unrecoverable sync loss under allow-partial
/// stops the run for a partial commit; any other error fails it.
pub fn stream_step(item: Result<MieMessage, MieError>, allow_partial: bool) -> (step: StreamStep)
    ensures
        match item {
            Ok(m) => step == StreamStep::Write(m),
            Err(MieError::UnrecoverableSyncLoss { offset, sync_losses }) => if allow_partial {
                step == (StreamStep::StopPartial { offset, sync_losses })
            } else {
                step == StreamStep::Fail(MieError::UnrecoverableSyncLoss { offset, sync_losses })
            },
            Err(e) => step == StreamStep::Fail(e),
        },
{
    match item {
        Ok(m) => StreamStep::Write(m),
        Err(MieError::UnrecoverableSyncLoss { offset, sync_losses }) => {
            if allow_partial {
                StreamStep::StopPartial { offset, sync_losses }
            } else {
                StreamStep::Fail(MieError::UnrecoverableSyncLoss { offset, sync_losses })
            }
        },
        Err(e) => StreamStep::Fail(e),
    }
}

/// In a split run, a message goes to the errors file exactly when its
/// `ERROR` column is not empty (errored or spurious records).
pub fn routes_to_errors(msg: &MieMessage) -> (b: bool)
    ensures
        b == (error_label_text(msg.type_word.error, msg.message_format).len() > 0),
{
    proof {
        reveal_strlit("ERROR");
        reveal_strlit("SPURIOUS");
    }
    !msg.error_label().is_empty()
}

/// The two files of a split run.
#[derive(Debug, Clone, Copy, PartialEq, Eq, Structural)]
pub enum CommitFile {
    Main,
    Errors,
}

/// One commit: which file, and whether it goes to its `.partial` name.
#[derive(Debug, Clone, Copy, PartialEq, Eq, Structural)]
pub struct CommitStep {
    pub file: CommitFile,
    pub partial: bool,
}

/// The order in which a split run commits: the main file first, then the
/// errors file if one was opened; every commit goes to `.partial` names on
/// the allow-partial path and to the destinations otherwise.
pub fn split_commit_plan(errors_opened: bool, partial: bool) -> (plan: Vec<CommitStep>)
    ensures
        plan@.len() == (if errors_opened { 2int } else { 1int }),
        plan@[0] == (CommitStep { file: CommitFile::Main, partial }),
        errors_opened ==> plan@[1] == (CommitStep { file: CommitFile::Errors, partial }),
{
    let mut plan: Vec<CommitStep> = Vec::new();
    plan.push(CommitStep { file: CommitFile::Main, partial });
    if errors_opened {
        plan.push(CommitStep { file: CommitFile::Errors, partial });
    }
    plan
}


// ── The CSV run ───────────────────────────────────────────────────────

/// Row counts of a CSV run so far, and whether its errors file has been
/// opened.
#[derive(Debug, Clone, Copy, PartialEq, Eq, Structural)]
pub struct RunState {
    pub normal: u64,
    pub errors: u64,
    pub errors_opened: bool,
}

impl RunState {
    /// A run that has written nothing and opened no errors file.
    pub fn new() -> (st: RunState)
        ensures
            st == (RunState { normal: 0, errors: 0, errors_opened: false }),
    {
        RunState { normal: 0, errors: 0, errors_opened: false }
    }
}

/// What a run does with one item of the message stream.
#[derive(Debug)]
pub enum RunAction {
    /// Write the row to the main CSV.
    WriteMain(MieMessage),
    /// Open the errors file (the first error row of a split run), then
    /// write the row to it.
    OpenErrorsThenWrite(MieMessage),
    /// Write the row to the already open errors file.
    WriteErrors(MieMessage),
    /// Stop here and commit what was written under `.partial` names.
    StopPartial { offset: u64, sync_losses: u64 },
    /// Stop and report the error; nothing is committed.
    Fail(MieError),
}

/// In a split run a message goes to the errors file exactly when its
/// `ERROR` column is not empty; an unsplit run writes every row to the main
/// CSV.
pub open spec fn routed_to_errors(m: MieMessage, split: bool) -> bool {
    split && error_label_text(m.type_word.error, m.message_format).len() > 0
}

/// The state after one stream item, and the action taken on it.
pub open spec fn next_run(
    st: RunState,
    item: Result<MieMessage, MieError>,
    split: bool,
    allow_partial: bool,
) -> (RunState, RunAction) {
    match item {
        Ok(m) => if routed_to_errors(m, split) {
            let after = RunState { normal: st.normal, errors: (st.errors + 1) as u64, errors_opened: true };
            if st.errors_opened {
                (after, RunAction::WriteErrors(m))
            } else {
                (after, RunAction::OpenErrorsThenWrite(m))
            }
        } else {
            (RunState { normal: (st.normal + 1) as u64, ..st }, RunAction::WriteMain(m))
        },
        Err(MieError::UnrecoverableSyncLoss { offset, sync_losses }) => if allow_partial {
            (st, RunAction::StopPartial { offset, sync_losses })
        } else {
            (st, RunAction::Fail(MieError::UnrecoverableSyncLoss { offset, sync_losses }))
        },
        Err(e) => (st, RunAction::Fail(e)),
    }
}

/// Whether an action ends the run.
pub open spec fn stops(a: RunAction) -> bool {
    a is StopPartial || a is Fail
}

/// One step of a CSV run. A message is counted and written to the main CSV,
/// or in a split run with a non-empty `ERROR` column to the errors file,
/// which is opened on the first such row. An unrecoverable sync loss under
/// allow-partial stops the run for a partial commit; any other error fails
/// it. Stopping leaves the state as it was.
pub fn run_step(
    st: &mut RunState,
    item: Result<MieMessage, MieError>,
    split: bool,
    allow_partial: bool,
) -> (a: RunAction)
    requires
        old(st).normal < u64::MAX,
        old(st).errors < u64::MAX,
    ensures
        (*final(st), a) == next_run(*old(st), item, split, allow_partial),
        match item {
            Ok(m) => {
                &&& (a is WriteErrors || a is OpenErrorsThenWrite) <==> (split && error_label_text(
                    m.type_word.error,
                    m.message_format,
                ).len() > 0)
                &&& a is OpenErrorsThenWrite <==> (routed_to_errors(m, split) && !old(st).errors_opened)
            },
            Err(MieError::UnrecoverableSyncLoss { offset, sync_losses }) => allow_partial ==> (a == (
            RunAction::StopPartial { offset, sync_losses }) && *final(st) == *old(st)),
            Err(e) => *final(st) == *old(st),
        },
{
    match item {
        Ok(m) => {
            let to_errors = split && routes_to_errors(&m);
            if to_errors {
                st.errors = st.errors + 1;
                if st.errors_opened {
                    RunAction::WriteErrors(m)
                } else {
                    st.errors_opened = true;
                    RunAction::OpenErrorsThenWrite(m)
                }
            } else {
                st.normal = st.normal + 1;
                RunAction::WriteMain(m)
            }
        },
        Err(MieError::UnrecoverableSyncLoss { offset, sync_losses }) => {
            if allow_partial {
                RunAction::StopPartial { offset, sync_losses }
            } else {
                RunAction::Fail(MieError::UnrecoverableSyncLoss { offset, sync_losses })
            }
        },
        Err(e) => RunAction::Fail(e),
    }
}

/// What a run reports once its stream ended (`stopped` is `None`) or an
/// allow-partial stop gave the sync-loss offset and count: the row counts,
/// and for a partial run the `.partial` names the files were committed to,
/// with an errors file only when one was opened.
pub open spec fn outcome_of(
    st: RunState,
    stopped: Option<(u64, u64)>,
    main: Seq<char>,
    errors: Seq<char>,
) -> (u64, u64, Option<(Seq<char>, Option<Seq<char>>, u64, u64)>) {
    (
        st.normal,
        st.errors,
        match stopped {
            None => None,
            Some((offset, sync_losses)) => Some(
                (
                    partial_path_text(main),
                    if st.errors_opened {
                        Some(partial_path_text(errors))
                    } else {
                        None
                    },
                    offset,
                    sync_losses,
                ),
            ),
        },
    )
}

/// A [`WriteOutcome`] as plain values, in the shape of [`outcome_of`].
pub open spec fn outcome_view(o: WriteOutcome) -> (u64, u64, Option<(Seq<char>, Option<Seq<char>>, u64, u64)>) {
    (
        o.normal_count,
        o.error_count,
        match o.partial {
            None => None,
            Some(p) => Some(
                (
                    p.main_path@,
                    match p.errors_path {
                        None => None,
                        Some(e) => Some(e@),
                    },
                    p.offset,
                    p.sync_losses,
                ),
            ),
        },
    )
}

/// The outcome of a finished run whose main CSV is `main` and whose errors
/// file is `errors`.
pub fn run_outcome(st: &RunState, stopped: Option<(u64, u64)>, main: &str, errors: &str) -> (o: WriteOutcome)
    ensures
        outcome_view(o) == outcome_of(*st, stopped, main@, errors@),
        o.normal_count == st.normal,
        o.error_count == st.errors,
        o.partial is None <==> stopped is None,
{
    let partial = match stopped {
        None => None,
        Some((offset, sync_losses)) => {
            let errors_path = if st.errors_opened {
                Some(partial_path_for(errors))
            } else {
                None
            };
            Some(PartialCommit { main_path: partial_path_for(main), errors_path, offset, sync_losses })
        },
    };
    WriteOutcome { normal_count: st.normal, error_count: st.errors, partial }
}

/// How a decode writes its rows: split into a main and an errors file, and
/// with which options. `forced_inline` marks a separate-mode run on stdout,
/// which cannot be split and is written inline.
#[derive(Debug, Clone)]
pub struct WriteRoute {
    pub split: bool,
    pub forced_inline: bool,
    pub opts: WriteOptions,
}

/// A run is split exactly in separate mode with a file destination. Standard
/// output has no file identity: it takes no pre-flight checks, no commit and
/// no partial commit, so it runs with the default options.
pub fn write_route(mode: ErrorMode, to_stdout: bool, opts: WriteOptions) -> (r: WriteRoute)
    ensures
        r.split == (mode == ErrorMode::Separate && !to_stdout),
        r.forced_inline == (mode == ErrorMode::Separate && to_stdout),
        to_stdout ==> (r.opts.input_path is None && !r.opts.no_clobber && !r.opts.allow_partial),
        !to_stdout ==> r.opts == opts,
{
    if to_stdout {
        let forced_inline = match mode {
            ErrorMode::Separate => true,
            ErrorMode::Inline => false,
        };
        WriteRoute { split: false, forced_inline, opts: WriteOptions::default() }
    } else {
        let split = match mode {
            ErrorMode::Separate => true,
            ErrorMode::Inline => false,
        };
        WriteRoute { split, forced_inline: false, opts }
    }
}

/// The state a run reaches from `st` over `items`, stopping at the first item
/// whose action ends the run.
pub open spec fn run_through(
    st: RunState,
    items: Seq<Result<MieMessage, MieError>>,
    split: bool,
    allow_partial: bool,
) -> RunState
    decreases items.len(),
{
    if items.len() == 0 {
        st
    } else {
        let (next, a) = next_run(st, items[0], split, allow_partial);
        if stops(a) {
            next
        } else {
            run_through(next, items.drop_first(), split, allow_partial)
        }
    }
}

/// `item` is a message that is routed to the errors file.
pub open spec fn routed_item(item: Result<MieMessage, MieError>, split: bool) -> bool {
    match item {
        Ok(m) => routed_to_errors(m, split),
        Err(_) => false,
    }
}

/// Some message of `items` before the first error is routed to the errors
/// file.
pub open spec fn some_error_row(items: Seq<Result<MieMessage, MieError>>, split: bool) -> bool {
    exists|i: int|
        0 <= i < items.len() && (forall|j: int| 0 <= j < i ==> (#[trigger] items[j]) is Ok)
            && #[trigger] routed_item(items[i], split)
}

proof fn lemma_run_through_errors(
    st: RunState,
    items: Seq<Result<MieMessage, MieError>>,
    split: bool,
    allow_partial: bool,
)
    requires
        st.errors_opened == (st.errors > 0),
        st.errors + items.len() <= u64::MAX,
        st.normal + items.len() <= u64::MAX,
    ensures
        run_through(st, items, split, allow_partial).errors_opened == (st.errors_opened || some_error_row(
            items,
            split,
        )),
        run_through(st, items, split, allow_partial).errors_opened == (run_through(
            st,
            items,
            split,
            allow_partial,
        ).errors > 0),
    decreases items.len(),
{
    if items.len() == 0 {
        assert(!some_error_row(items, split));
    } else {
        let (next, a) = next_run(st, items[0], split, allow_partial);
        let rest = items.drop_first();
        if stops(a) {
            assert(items[0] is Err);
            if some_error_row(items, split) {
                let i = choose|i: int|
                    0 <= i < items.len() && (forall|j: int| 0 <= j < i ==> (#[trigger] items[j]) is Ok)
                        && routed_item(items[i], split);
                if i > 0 {
                    assert(items[0] is Ok);
                }
            }
        } else {
            lemma_run_through_errors(next, rest, split, allow_partial);
            let head_routed = routed_item(items[0], split);
            if some_error_row(rest, split) {
                let i = choose|i: int|
                    0 <= i < rest.len() && (forall|j: int| 0 <= j < i ==> (#[trigger] rest[j]) is Ok)
                        && routed_item(rest[i], split);
                assert forall|j: int| 0 <= j < i + 1 implies (#[trigger] items[j]) is Ok by {
                    if j > 0 {
                        assert(items[j] == rest[j - 1]);
                    }
                }
                assert(items[i + 1] == rest[i]);
                assert(some_error_row(items, split));
            }
            if head_routed {
                assert(forall|j: int| 0 <= j < 0 ==> (#[trigger] items[j]) is Ok);
                assert(some_error_row(items, split));
            }
            if some_error_row(items, split) {
                let i = choose|i: int|
                    0 <= i < items.len() && (forall|j: int| 0 <= j < i ==> (#[trigger] items[j]) is Ok)
                        && routed_item(items[i], split);
                if i > 0 {
                    assert forall|j: int| 0 <= j < i - 1 implies (#[trigger] rest[j]) is Ok by {
                        assert(rest[j] == items[j + 1]);
                    }
                    assert(rest[i - 1] == items[i]);
                    assert(some_error_row(rest, split));
                }
            }
        }
    }
}

/// A run's errors file is opened, and holds at least one row, exactly when
/// some message read before the run stopped was routed to it: a run with no
/// error rows creates no errors file.
pub proof fn law_errors_file_only_with_error_rows(
    items: Seq<Result<MieMessage, MieError>>,
    split: bool,
    allow_partial: bool,
)
    requires
        items.len() <= u64::MAX,
    ensures
        run_through(RunState { normal: 0, errors: 0, errors_opened: false }, items, split, allow_partial).errors_opened
            == some_error_row(items, split),
        run_through(RunState { normal: 0, errors: 0, errors_opened: false }, items, split, allow_partial).errors_opened
            == (run_through(
            RunState { normal: 0, errors: 0, errors_opened: false },
            items,
            split,
            allow_partial,
        ).errors > 0),
{
    lemma_run_through_errors(RunState { normal: 0, errors: 0, errors_opened: false }, items, split, allow_partial);
}

/// An unsplit run opens no errors file and counts no error rows.
pub proof fn law_unsplit_run_has_no_errors_file(
    items: Seq<Result<MieMessage, MieError>>,
    allow_partial: bool,
)
    requires
        items.len() <= u64::MAX,
    ensures
        !run_through(RunState { normal: 0, errors: 0, errors_opened: false }, items, false, allow_partial).errors_opened,
        run_through(RunState { normal: 0, errors: 0, errors_opened: false }, items, false, allow_partial).errors == 0,
{
    law_errors_file_only_with_error_rows(items, false, allow_partial);
}

} // verus!
