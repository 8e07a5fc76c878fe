//! The flat TOML subset the configuration file is written in: `[section]`
//! headers, `key = value` lines, double-quoted strings with four escapes,
//! integers, numbers with a fraction or exponent, booleans, one-level arrays
//! of those, and `#` comments. Anything else is refused with its line number.
use vstd::prelude::*;

use crate::config::ConfigError;
use crate::merge::strip_cr;
use crate::text::{
    chars_of, copy_range, debug_str, debug_text, dec, is_dec_digit, push_char, push_dec, push_str,
    split_chars, split_on, string_from_chars, trim, trimmed, views,
};

verus! {

// ── Values ────────────────────────────────────────────────────────────

/// A value as the library models it: text, an integer, a number written
/// with a fraction or exponent (kept as its literal), a boolean, or a list.
pub enum TomlData {
    Text(Seq<char>),
    Int(int),
    Number(Seq<char>),
    Bool(bool),
    List(Seq<TomlScalar>),
}

/// An element of a list; `Nested` stands for a list inside a list, which
/// the parser never produces.
pub enum TomlScalar {
    Text(Seq<char>),
    Int(int),
    Number(Seq<char>),
    Bool(bool),
    Nested,
}

/// A parsed value. A number with a fraction or exponent keeps its literal
/// text, which the TOML number grammar has already checked.
#[derive(Debug, PartialEq)]
pub enum TomlValue {
    String(String),
    Int(i64),
    Float(String),
    Bool(bool),
    Array(Vec<TomlValue>),
}

/// The model of a list element.
pub open spec fn scalar_view(v: TomlValue) -> TomlScalar {
    match v {
        TomlValue::String(s) => TomlScalar::Text(s@),
        TomlValue::Int(i) => TomlScalar::Int(i as int),
        TomlValue::Float(t) => TomlScalar::Number(t@),
        TomlValue::Bool(b) => TomlScalar::Bool(b),
        TomlValue::Array(_) => TomlScalar::Nested,
    }
}

/// The model of a value.
pub open spec fn value_view(v: TomlValue) -> TomlData {
    match v {
        TomlValue::String(s) => TomlData::Text(s@),
        TomlValue::Int(i) => TomlData::Int(i as int),
        TomlValue::Float(t) => TomlData::Number(t@),
        TomlValue::Bool(b) => TomlData::Bool(b),
        TomlValue::Array(a) => TomlData::List(a@.map_values(|x: TomlValue| scalar_view(x))),
    }
}

/// A value seen as a list element.
pub open spec fn scalar_of(d: TomlData) -> TomlScalar {
    match d {
        TomlData::Text(s) => TomlScalar::Text(s),
        TomlData::Int(i) => TomlScalar::Int(i),
        TomlData::Number(t) => TomlScalar::Number(t),
        TomlData::Bool(b) => TomlScalar::Bool(b),
        TomlData::List(_) => TomlScalar::Nested,
    }
}

// ── Small grammar pieces ──────────────────────────────────────────────

/// A message about line `n`: `line N: ` and the text.
pub open spec fn at_line(n: nat, rest: Seq<char>) -> Seq<char> {
    "line "@ + dec(n) + ": "@ + rest
}

/// An ASCII letter, digit or underscore.
pub open spec fn is_ident_char(c: char) -> bool {
    ('a' <= c && c <= 'z') || ('A' <= c && c <= 'Z') || ('0' <= c && c <= '9') || c == '_'
}

/// Every character is an ASCII letter, digit or underscore.
pub open spec fn is_plain_identifier(s: Seq<char>) -> bool {
    forall|i: int| 0 <= i < s.len() ==> is_ident_char(#[trigger] s[i])
}

/// The first position at or after `i` holding `c`.
pub open spec fn first_from(s: Seq<char>, c: char, i: int) -> Option<int>
    decreases s.len() - i,
{
    if i < 0 || i >= s.len() {
        None
    } else if s[i] == c {
        Some(i)
    } else {
        first_from(s, c, i + 1)
    }
}

/// Where a line's comment starts, scanning from `i` with the quote state
/// `in_q` and whether the previous quoted character was an escaping
/// backslash; the line's length when it has none. A `#` inside a
/// double-quoted string does not start a comment.
pub open spec fn cut_at(s: Seq<char>, i: int, in_q: bool, bs: bool) -> int
    decreases s.len() - i,
{
    if i < 0 || i >= s.len() {
        s.len() as int
    } else if in_q {
        if s[i] == '\\' && !bs {
            cut_at(s, i + 1, true, true)
        } else if s[i] == '"' && !bs {
            cut_at(s, i + 1, false, false)
        } else {
            cut_at(s, i + 1, true, false)
        }
    } else if s[i] == '"' {
        cut_at(s, i + 1, true, bs)
    } else if s[i] == '#' {
        i
    } else {
        cut_at(s, i + 1, false, bs)
    }
}

/// The line without its trailing `# comment`.
pub open spec fn strip_comment(s: Seq<char>) -> Seq<char> {
    s.take(cut_at(s, 0, false, false))
}

/// The lines of a text as `str::lines` yields them: split at `\n`, a `\r`
/// just before a `\n` removed, and no empty line after a final `\n`.
pub open spec fn text_lines(t: Seq<char>) -> Seq<Seq<char>> {
    let p = split_on(t, seq!['\n']);
    let q = if p.len() > 0 && p.last().len() == 0 {
        p.drop_last()
    } else {
        p
    };
    Seq::new(q.len(), |i: int| if i + 1 < p.len() { strip_cr(q[i]) } else { q[i] })
}

// ── Strings, booleans, numbers ────────────────────────────────────────

/// The body of a quoted string from position `i` on, with `out` already
/// unescaped: `\"`, `\\`, `\n` and `\t` are the escapes; any other escape,
/// a lone trailing backslash, or an unescaped quote is an error.
pub open spec fn unescape_from(s: Seq<char>, i: int, out: Seq<char>, n: nat) -> Result<Seq<char>, Seq<char>>
    decreases s.len() - i,
{
    if i < 0 || i >= s.len() {
        Ok(out)
    } else if s[i] == '\\' {
        if i + 1 >= s.len() {
            Err(at_line(n, "trailing backslash"@))
        } else {
            let e = s[i + 1];
            if e == '"' {
                unescape_from(s, i + 2, out.push('"'), n)
            } else if e == '\\' {
                unescape_from(s, i + 2, out.push('\\'), n)
            } else if e == 'n' {
                unescape_from(s, i + 2, out.push('\n'), n)
            } else if e == 't' {
                unescape_from(s, i + 2, out.push('\t'), n)
            } else {
                Err(at_line(n, "bad escape \\"@ + seq![e]))
            }
        }
    } else if s[i] == '"' {
        Err(at_line(n, "unescaped quote in string"@))
    } else {
        unescape_from(s, i + 1, out.push(s[i]), n)
    }
}

/// A double-quoted string literal.
pub open spec fn string_result(s: Seq<char>, n: nat) -> Result<Seq<char>, Seq<char>> {
    if !(s.len() >= 2 && s[0] == '"' && s.last() == '"') {
        Err(at_line(n, "malformed string "@ + debug_str(s)))
    } else {
        unescape_from(s.subrange(1, s.len() - 1), 0, Seq::empty(), n)
    }
}

/// `true` or `false`.
pub open spec fn bool_result(s: Seq<char>, n: nat) -> Result<TomlData, Seq<char>> {
    if s == "true"@ {
        Ok(TomlData::Bool(true))
    } else if s == "false"@ {
        Ok(TomlData::Bool(false))
    } else {
        Err(at_line(n, "expected boolean, got "@ + debug_str(s)))
    }
}

/// The end of the run of decimal digits starting at `i`.
pub open spec fn scan_digits(b: Seq<char>, i: int) -> int
    decreases b.len() - i,
{
    if 0 <= i < b.len() && is_dec_digit(b[i]) {
        scan_digits(b, i + 1)
    } else {
        i
    }
}

/// Past an optional `+` or `-` at `i`.
pub open spec fn scan_sign(b: Seq<char>, i: int) -> int {
    if 0 <= i < b.len() && (b[i] == '+' || b[i] == '-') {
        i + 1
    } else {
        i
    }
}

/// Past the integer part at `i`: a lone `0`, or a digit run starting with
/// a non-zero digit.
pub open spec fn scan_integer_part(b: Seq<char>, i: int) -> Option<int> {
    if !(0 <= i < b.len()) {
        None
    } else if b[i] == '0' {
        Some(i + 1)
    } else if is_dec_digit(b[i]) {
        Some(scan_digits(b, i))
    } else {
        None
    }
}

/// Past an optional fraction at `i`: a `.` and at least one digit.
pub open spec fn scan_fraction(b: Seq<char>, i: int) -> Option<int> {
    if !(0 <= i < b.len()) || b[i] != '.' {
        Some(i)
    } else if scan_digits(b, i + 1) > i + 1 {
        Some(scan_digits(b, i + 1))
    } else {
        None
    }
}

/// Past an optional exponent at `i`: `e` or `E`, an optional sign, and at
/// least one digit.
pub open spec fn scan_exponent(b: Seq<char>, i: int) -> Option<int> {
    if !(0 <= i < b.len()) || (b[i] != 'e' && b[i] != 'E') {
        Some(i)
    } else if scan_digits(b, scan_sign(b, i + 1)) > scan_sign(b, i + 1) {
        Some(scan_digits(b, scan_sign(b, i + 1)))
    } else {
        None
    }
}

/// The TOML number grammar `[+-]? (0 | [1-9][0-9]*) (. [0-9]+)?
/// ([eE] [+-]? [0-9]+)?`, matched by the whole of `s`.
pub open spec fn is_number_literal(s: Seq<char>) -> bool {
    match scan_integer_part(s, scan_sign(s, 0)) {
        None => false,
        Some(i) => match scan_fraction(s, i) {
            None => false,
            Some(j) => match scan_exponent(s, j) {
                None => false,
                Some(k) => k == s.len(),
            },
        },
    }
}

/// The value of a run of decimal digits.
pub open spec fn digits_value(t: Seq<char>) -> int
    decreases t.len(),
{
    if t.len() == 0 {
        0
    } else {
        digits_value(t.drop_last()) * 10 + (t.last() as int - 48)
    }
}

/// The integer a signed digit run denotes.
pub open spec fn signed_value(s: Seq<char>) -> int {
    if s.len() > 0 && s[0] == '-' {
        -digits_value(s.skip(1))
    } else if s.len() > 0 && s[0] == '+' {
        digits_value(s.skip(1))
    } else {
        digits_value(s)
    }
}

/// A number: refused unless it follows the grammar; with a `.`, `e` or `E`
/// it is kept as written, otherwise it must fit in an `i64`.
pub open spec fn number_result(s: Seq<char>, n: nat) -> Result<TomlData, Seq<char>> {
    if !is_number_literal(s) {
        Err(at_line(n, "invalid number literal "@ + debug_str(s)))
    } else if s.contains('.') || s.contains('e') || s.contains('E') {
        Ok(TomlData::Number(s))
    } else if i64::MIN <= signed_value(s) <= i64::MAX {
        Ok(TomlData::Int(signed_value(s)))
    } else {
        Err(at_line(n, "invalid integer "@ + debug_str(s)))
    }
}

// ── Arrays ────────────────────────────────────────────────────────────

/// Splitting state: the pieces so far, the current piece, whether inside a
/// quoted string, and whether the previous quoted character escapes.
pub type SplitState = (Seq<Seq<char>>, Seq<char>, bool, bool);

/// One character of an array body: a comma outside quotes ends a piece.
pub open spec fn item_step(st: SplitState, c: char) -> SplitState {
    if st.2 {
        if c == '\\' && !st.3 {
            (st.0, st.1.push(c), true, true)
        } else {
            (st.0, st.1.push(c), !(c == '"' && !st.3), false)
        }
    } else if c == ',' {
        (st.0.push(trim(st.1)), Seq::empty(), false, st.3)
    } else {
        (st.0, st.1.push(c), c == '"', st.3)
    }
}

/// The splitting state after the characters of `s`.
pub open spec fn items_run(s: Seq<char>) -> SplitState
    decreases s.len(),
{
    if s.len() == 0 {
        (Seq::empty(), Seq::empty(), false, false)
    } else {
        item_step(items_run(s.drop_last()), s.last())
    }
}

/// An array body split on the commas outside quoted strings, each piece
/// trimmed; a blank last piece is dropped.
pub open spec fn split_items(s: Seq<char>) -> Seq<Seq<char>> {
    let st = items_run(s);
    if trim(st.1).len() > 0 {
        st.0.push(trim(st.1))
    } else {
        st.0
    }
}

/// A value. `depth` bounds the nesting of arrays; a value cannot nest
/// deeper than it is long, so its own length is always enough.
pub open spec fn value_at(s0: Seq<char>, n: nat, depth: nat) -> Result<TomlData, Seq<char>>
    decreases depth, 2int, 0int,
{
    let s = trim(s0);
    if s.len() == 0 {
        Err(at_line(n, "empty value"@))
    } else if s[0] == '"' {
        match string_result(s, n) {
            Ok(t) => Ok(TomlData::Text(t)),
            Err(m) => Err(m),
        }
    } else if s[0] == '[' {
        array_at(s, n, depth)
    } else if s[0] == 't' || s[0] == 'f' {
        bool_result(s, n)
    } else if s[0] == '-' || s[0] == '+' || is_dec_digit(s[0]) {
        number_result(s, n)
    } else {
        Err(at_line(n, "cannot parse value "@ + debug_str(s)))
    }
}

/// An array `[a, b, ...]` of non-array values.
pub open spec fn array_at(s: Seq<char>, n: nat, depth: nat) -> Result<TomlData, Seq<char>>
    decreases depth, 1int, 0int,
{
    if !(s.len() >= 1 && s[0] == '[' && s.last() == ']') {
        Err(at_line(n, "malformed array "@ + debug_str(s)))
    } else if trim(s.subrange(1, s.len() - 1)).len() == 0 {
        Ok(TomlData::List(Seq::empty()))
    } else {
        items_at(split_items(trim(s.subrange(1, s.len() - 1))), n, depth, 0, Seq::empty())
    }
}

/// The array elements from the `k`-th on, with `acc` already parsed.
pub open spec fn items_at(items: Seq<Seq<char>>, n: nat, depth: nat, k: int, acc: Seq<TomlScalar>) -> Result<TomlData, Seq<char>>
    decreases depth, 0int, items.len() - k,
{
    if k < 0 || k >= items.len() {
        Ok(TomlData::List(acc))
    } else if depth == 0 {
        Err(at_line(n, "nested arrays not supported"@))
    } else {
        match value_at(trim(items[k]), n, (depth - 1) as nat) {
            Err(m) => Err(m),
            Ok(v) => if v is List {
                Err(at_line(n, "nested arrays not supported"@))
            } else {
                items_at(items, n, depth, k + 1, acc.push(scalar_of(v)))
            },
        }
    }
}

/// The value text of a `key = value` line.
pub open spec fn value_result(s: Seq<char>, n: nat) -> Result<TomlData, Seq<char>> {
    value_at(s, n, s.len())
}

// ── Lines ─────────────────────────────────────────────────────────────

/// A `[section]` header, given the line after its `[`, and the sections
/// already declared: the section's name, or why it is refused.
pub open spec fn header_result(stripped: Seq<char>, n: nat, seen: Seq<Seq<char>>) -> Result<Seq<char>, Seq<char>> {
    if stripped.len() > 0 && stripped[0] == '[' {
        Err(at_line(n, "array-of-tables headers ([[...]]) are not supported"@))
    } else if !(stripped.len() > 0 && stripped.last() == ']') {
        Err(at_line(n, "unterminated section header"@))
    } else {
        let name = trim(stripped.drop_last());
        if name.len() == 0 {
            Err(at_line(n, "empty section name"@))
        } else if name.contains('.') {
            Err(
                at_line(
                    n,
                    "dotted section headers ([a.b]) are not supported; use a flat [section] header"@,
                ),
            )
        } else if !is_plain_identifier(name) {
            Err(
                at_line(
                    n,
                    "unsupported section header ["@ + name
                        + "]; use a flat [section] name (letters, digits, underscore)"@,
                ),
            )
        } else if seen.contains(name) {
            Err(at_line(n, "section ["@ + name + "] declared more than once"@))
        } else {
            Ok(name)
        }
    }
}

/// A `key = value` line: the key and the value, or why it is refused.
pub open spec fn key_value_result(line: Seq<char>, n: nat) -> Result<(Seq<char>, TomlData), Seq<char>> {
    match first_from(line, '=', 0) {
        None => Err(at_line(n, "expected '=' in "@ + debug_str(line))),
        Some(e) => {
            let key = trim(line.take(e));
            if key.len() == 0 {
                Err(at_line(n, "empty key"@))
            } else if key[0] != '"' && key.contains('.') {
                Err(
                    at_line(
                        n,
                        "dotted keys (a.b = ...) are not supported; use a [section] header"@,
                    ),
                )
            } else if !is_plain_identifier(key) {
                Err(
                    at_line(
                        n,
                        "unsupported key "@ + debug_str(key) + "; keys must be simple identifiers"@,
                    ),
                )
            } else {
                match value_result(trim(line.skip(e + 1)), n) {
                    Ok(v) => Ok((key, v)),
                    Err(m) => Err(m),
                }
            }
        },
    }
}

/// One entry of a document: section (empty before the first header), key
/// and value.
pub type Entry = (Seq<char>, Seq<char>, TomlData);

/// The first entry for `(section, key)` at or after position `i`.
pub open spec fn find_entry_from(es: Seq<Entry>, section: Seq<char>, key: Seq<char>, i: int) -> Option<int>
    decreases es.len() - i,
{
    if i < 0 || i >= es.len() {
        None
    } else if es[i].0 == section && es[i].1 == key {
        Some(i)
    } else {
        find_entry_from(es, section, key, i + 1)
    }
}

/// The first entry for `(section, key)`.
pub open spec fn find_entry(es: Seq<Entry>, section: Seq<char>, key: Seq<char>) -> Option<int> {
    find_entry_from(es, section, key, 0)
}

/// The message for a key given twice in one section.
pub open spec fn duplicate_msg(section: Seq<char>, key: Seq<char>, n: nat) -> Seq<char> {
    at_line(
        n,
        "duplicate key '"@ + key + "'"@ + if section.len() == 0 {
            Seq::empty()
        } else {
            " in section '["@ + section + "]'"@
        },
    )
}

/// Parser state: the current section, the sections declared, the entries.
pub type DocState = (Seq<char>, Seq<Seq<char>>, Seq<Entry>);

/// One line, numbered `n`: blank and comment lines change nothing, a
/// header opens a section, anything else must be a new `key = value`.
pub open spec fn line_step(st: DocState, raw: Seq<char>, n: nat) -> Result<DocState, Seq<char>> {
    let line = trim(strip_comment(raw));
    if line.len() == 0 {
        Ok(st)
    } else if line[0] == '[' {
        match header_result(line.drop_first(), n, st.1) {
            Ok(name) => Ok((name, st.1.push(name), st.2)),
            Err(m) => Err(m),
        }
    } else {
        match key_value_result(line, n) {
            Err(m) => Err(m),
            Ok(kv) => if find_entry(st.2, st.0, kv.0) is Some {
                Err(duplicate_msg(st.0, kv.0, n))
            } else {
                Ok((st.0, st.1, st.2.push((st.0, kv.0, kv.1))))
            },
        }
    }
}

/// The state after the first `k` lines, or the first error.
pub open spec fn doc_fold(lines: Seq<Seq<char>>, k: int) -> Result<DocState, Seq<char>>
    decreases k,
{
    if k <= 0 {
        Ok((Seq::empty(), Seq::empty(), Seq::empty()))
    } else {
        match doc_fold(lines, k - 1) {
            Err(m) => Err(m),
            Ok(st) => line_step(st, lines[k - 1], k as nat),
        }
    }
}

/// The entries of a document in order, or the first line's error.
pub open spec fn toml_entries(text: Seq<char>) -> Result<Seq<Entry>, Seq<char>> {
    match doc_fold(text_lines(text), text_lines(text).len() as int) {
        Ok(st) => Ok(st.2),
        Err(m) => Err(m),
    }
}

// ── Character helpers ─────────────────────────────────────────────────

/// The models of a vector of values seen as list elements.
pub open spec fn scalars(a: Seq<TomlValue>) -> Seq<TomlScalar> {
    a.map_values(|x: TomlValue| scalar_view(x))
}

/// A string result and its model agree.
pub open spec fn text_matches(r: Result<String, String>, s: Result<Seq<char>, Seq<char>>) -> bool {
    match (r, s) {
        (Ok(a), Ok(b)) => a@ == b,
        (Err(a), Err(b)) => a@ == b,
        _ => false,
    }
}

/// A value result and its model agree.
pub open spec fn value_matches(r: Result<TomlValue, String>, s: Result<TomlData, Seq<char>>) -> bool {
    match (r, s) {
        (Ok(a), Ok(b)) => value_view(a) == b,
        (Err(a), Err(b)) => a@ == b,
        _ => false,
    }
}

fn has_char(v: &Vec<char>, c: char) -> (b: bool)
    ensures
        b == v@.contains(c),
{
    let mut i: usize = 0;
    while i < v.len()
        invariant
            i <= v.len(),
            forall|j: int| 0 <= j < i ==> v@[j] != c,
        decreases v.len() - i,
    {
        if v[i] == c {
            assert(v@[i as int] == c);
            return true;
        }
        i = i + 1;
    }
    false
}

fn first_index(v: &Vec<char>, c: char) -> (r: Option<usize>)
    ensures
        match first_from(v@, c, 0) {
            None => r is None,
            Some(i) => r == Some(i as usize) && 0 <= i < v@.len(),
        },
        r matches Some(i) ==> i < v@.len(),
{
    let mut i: usize = 0;
    while i < v.len()
        invariant
            i <= v.len(),
            first_from(v@, c, 0) == first_from(v@, c, i as int),
        decreases v.len() - i,
    {
        if v[i] == c {
            return Some(i);
        }
        i = i + 1;
    }
    None
}

fn chars_eq(a: &Vec<char>, b: &Vec<char>) -> (r: bool)
    ensures
        r == (a@ == b@),
{
    if a.len() != b.len() {
        return false;
    }
    let mut i: usize = 0;
    while i < a.len()
        invariant
            i <= a.len(),
            a.len() == b.len(),
            forall|j: int| 0 <= j < i ==> a@[j] == b@[j],
        decreases a.len() - i,
    {
        if a[i] != b[i] {
            return false;
        }
        i = i + 1;
    }
    assert(a@ =~= b@);
    true
}

fn is_identifier(v: &Vec<char>) -> (b: bool)
    ensures
        b == is_plain_identifier(v@),
{
    let mut i: usize = 0;
    while i < v.len()
        invariant
            i <= v.len(),
            forall|j: int| 0 <= j < i ==> is_ident_char(#[trigger] v@[j]),
        decreases v.len() - i,
    {
        let c = v[i];
        if !(('a' <= c && c <= 'z') || ('A' <= c && c <= 'Z') || ('0' <= c && c <= '9') || c
            == '_') {
            assert(!is_ident_char(v@[i as int]));
            return false;
        }
        i = i + 1;
    }
    true
}

fn comment_stripped(v: &Vec<char>) -> (r: Vec<char>)
    ensures
        r@ == strip_comment(v@),
{
    let mut in_q = false;
    let mut bs = false;
    let mut i: usize = 0;
    while i < v.len()
        invariant
            i <= v.len(),
            cut_at(v@, 0, false, false) == cut_at(v@, i as int, in_q, bs),
        decreases v.len() - i,
    {
        let c = v[i];
        if in_q {
            if c == '\\' && !bs {
                bs = true;
            } else {
                if c == '"' && !bs {
                    in_q = false;
                }
                bs = false;
            }
        } else if c == '"' {
            in_q = true;
        } else if c == '#' {
            return copy_range(v, 0, i);
        }
        i = i + 1;
    }
    let r = copy_range(v, 0, v.len());
    assert(r@ =~= v@.take(v@.len() as int));
    r
}

/// `line N: `.
fn line_prefix(n: usize) -> (s: String)
    ensures
        s@ == "line "@ + dec(n as nat) + ": "@,
{
    let mut s = String::new();
    push_str(&mut s, "line ");
    push_dec(&mut s, n as u64);
    push_str(&mut s, ": ");
    assert(s@ =~= "line "@ + dec(n as nat) + ": "@);
    s
}

/// `line N: ` and a fixed text.
fn line_error(n: usize, rest: &str) -> (s: String)
    ensures
        s@ == at_line(n as nat, rest@),
{
    let mut s = line_prefix(n);
    push_str(&mut s, rest);
    assert(s@ =~= at_line(n as nat, rest@));
    s
}

/// `line N: `, a fixed text and the `Debug` rendering of `v`.
fn line_error_quoting(n: usize, rest: &str, v: &Vec<char>) -> (s: String)
    ensures
        s@ == at_line(n as nat, rest@ + debug_str(v@)),
{
    let mut s = line_prefix(n);
    push_str(&mut s, rest);
    let t = string_from_chars(v);
    let d = debug_text(t.as_str());
    push_str(&mut s, d.as_str());
    assert(s@ =~= at_line(n as nat, rest@ + debug_str(v@)));
    s
}

// ── Scalars ───────────────────────────────────────────────────────────

fn parse_string(s: &Vec<char>, n: usize) -> (r: Result<String, String>)
    ensures
        text_matches(r, string_result(s@, n as nat)),
{
    if !(s.len() >= 2 && s[0] == '"' && s[s.len() - 1] == '"') {
        return Err(line_error_quoting(n, "malformed string ", s));
    }
    let inner = copy_range(s, 1, s.len() - 1);
    let mut out = String::new();
    let mut i: usize = 0;
    assert(out@ =~= Seq::<char>::empty());
    while i < inner.len()
        invariant
            i <= inner.len(),
            s@.len() >= 2 && s@[0] == '"' && s@.last() == '"',
            inner@ == s@.subrange(1, s@.len() - 1),
            unescape_from(inner@, 0, Seq::empty(), n as nat) == unescape_from(
                inner@,
                i as int,
                out@,
                n as nat,
            ),
        decreases inner.len() - i,
    {
        let c = inner[i];
        if c == '\\' {
            if i + 1 >= inner.len() {
                return Err(line_error(n, "trailing backslash"));
            }
            let e = inner[i + 1];
            if e == '"' {
                push_char(&mut out, '"');
            } else if e == '\\' {
                push_char(&mut out, '\\');
            } else if e == 'n' {
                push_char(&mut out, '\n');
            } else if e == 't' {
                push_char(&mut out, '\t');
            } else {
                let mut m = line_prefix(n);
                push_str(&mut m, "bad escape \\");
                push_char(&mut m, e);
                assert(m@ =~= at_line(n as nat, "bad escape \\"@ + seq![e]));
                return Err(m);
            }
            i = i + 2;
        } else if c == '"' {
            return Err(line_error(n, "unescaped quote in string"));
        } else {
            push_char(&mut out, c);
            i = i + 1;
        }
    }
    Ok(out)
}

fn parse_bool(s: &Vec<char>, n: usize) -> (r: Result<TomlValue, String>)
    ensures
        value_matches(r, bool_result(s@, n as nat)),
{
    if crate::text::same_chars(s, "true") {
        Ok(TomlValue::Bool(true))
    } else if crate::text::same_chars(s, "false") {
        Ok(TomlValue::Bool(false))
    } else {
        Err(line_error_quoting(n, "expected boolean, got ", s))
    }
}

proof fn lemma_scan_digits(b: Seq<char>, i: int)
    requires
        0 <= i,
    ensures
        i <= scan_digits(b, i),
        i <= b.len() ==> scan_digits(b, i) <= b.len(),
        forall|k: int| i <= k < scan_digits(b, i) ==> is_dec_digit(#[trigger] b[k]),
    decreases b.len() - i,
{
    if 0 <= i < b.len() && is_dec_digit(b[i]) {
        lemma_scan_digits(b, i + 1);
    }
}

fn scan_digits_exec(b: &Vec<char>, i: usize) -> (r: usize)
    requires
        i <= b.len(),
    ensures
        r == scan_digits(b@, i as int),
        i <= r <= b.len(),
{
    let mut j = i;
    while j < b.len() && b[j] >= '0' && b[j] <= '9'
        invariant
            i <= j <= b.len(),
            scan_digits(b@, i as int) == scan_digits(b@, j as int),
        decreases b.len() - j,
    {
        j = j + 1;
    }
    j
}

fn is_number(b: &Vec<char>) -> (ok: bool)
    ensures
        ok == is_number_literal(b@),
{
    let i: usize = if b.len() > 0 && (b[0] == '+' || b[0] == '-') {
        1
    } else {
        0
    };
    if i >= b.len() {
        return false;
    }
    let j: usize = if b[i] == '0' {
        i + 1
    } else if b[i] >= '0' && b[i] <= '9' {
        scan_digits_exec(b, i)
    } else {
        return false;
    };
    let k: usize = if j < b.len() && b[j] == '.' {
        let e = scan_digits_exec(b, j + 1);
        if e > j + 1 {
            e
        } else {
            return false;
        }
    } else {
        j
    };
    let m: usize = if k < b.len() && (b[k] == 'e' || b[k] == 'E') {
        let st: usize = if k + 1 < b.len() && (b[k + 1] == '+' || b[k + 1] == '-') {
            k + 2
        } else {
            k + 1
        };
        let e = scan_digits_exec(b, st);
        if e > st {
            e
        } else {
            return false;
        }
    } else {
        k
    };
    m == b.len()
}

/// Whether `s` is a TOML number literal (see [`is_number_literal`]).
pub fn is_toml_number_literal(s: &str) -> (b: bool)
    ensures
        b == is_number_literal(s@),
{
    is_number(&chars_of(s))
}

proof fn lemma_integer_literal(s: Seq<char>)
    requires
        is_number_literal(s),
        !s.contains('.'),
        !s.contains('e'),
        !s.contains('E'),
    ensures
        scan_sign(s, 0) < s.len(),
        forall|k: int| scan_sign(s, 0) <= k < s.len() ==> is_dec_digit(#[trigger] s[k]),
{
    let i = scan_sign(s, 0);
    lemma_scan_digits(s, i);
    let j = scan_integer_part(s, i).unwrap();
    if j < s.len() && s[j] == '.' {
        assert(s.contains('.'));
    }
    if j < s.len() && s[j] == 'e' {
        assert(s.contains('e'));
    }
    if j < s.len() && s[j] == 'E' {
        assert(s.contains('E'));
    }
}

/// The value of the signed digit run `s`, when it fits in an `i64`.
fn int_value(s: &Vec<char>) -> (r: Option<i64>)
    requires
        scan_sign(s@, 0) < s@.len(),
        forall|k: int| scan_sign(s@, 0) <= k < s@.len() ==> is_dec_digit(#[trigger] s@[k]),
    ensures
        match r {
            Some(v) => v == signed_value(s@),
            None => !(i64::MIN <= signed_value(s@) <= i64::MAX),
        },
{
    let limit: u128 = 9223372036854775808u128;
    let neg = s[0] == '-';
    let start: usize = if s[0] == '-' || s[0] == '+' {
        1
    } else {
        0
    };
    let mut acc: u128 = 0;
    let mut over = false;
    let mut i = start;
    assert(s@.subrange(start as int, start as int) =~= Seq::<char>::empty());
    while i < s.len()
        invariant
            limit == 9223372036854775808u128,
            start == scan_sign(s@, 0),
            start <= i <= s.len(),
            forall|k: int| scan_sign(s@, 0) <= k < s@.len() ==> is_dec_digit(#[trigger] s@[k]),
            !over ==> acc as int == digits_value(s@.subrange(start as int, i as int)) && acc
                <= limit,
            over ==> digits_value(s@.subrange(start as int, i as int)) > limit,
        decreases s.len() - i,
    {
        let ghost prev = s@.subrange(start as int, i as int);
        let ghost next = s@.subrange(start as int, i + 1);
        assert(next.drop_last() =~= prev);
        assert(next.last() == s@[i as int]);
        assert(is_dec_digit(s@[i as int]));
        let d: u128 = (s[i] as u32 - 48) as u128;
        assert(d <= 9);
        if !over {
            let v = acc * 10 + d;
            if v > limit {
                over = true;
            } else {
                acc = v;
            }
        }
        i = i + 1;
    }
    let ghost body = s@.subrange(start as int, s@.len() as int);
    assert(start == 1 ==> s@.skip(1) =~= body);
    assert(start == 0 ==> s@ =~= body);
    if over {
        return None;
    }
    if neg {
        if acc == limit {
            Some(i64::MIN)
        } else {
            Some(-(acc as i64))
        }
    } else if acc < limit {
        Some(acc as i64)
    } else {
        None
    }
}

fn parse_number(s: &Vec<char>, n: usize) -> (r: Result<TomlValue, String>)
    ensures
        value_matches(r, number_result(s@, n as nat)),
{
    if !is_number(s) {
        return Err(line_error_quoting(n, "invalid number literal ", s));
    }
    if has_char(s, '.') || has_char(s, 'e') || has_char(s, 'E') {
        return Ok(TomlValue::Float(string_from_chars(s)));
    }
    proof {
        lemma_integer_literal(s@);
    }
    match int_value(s) {
        Some(v) => Ok(TomlValue::Int(v)),
        None => Err(line_error_quoting(n, "invalid integer ", s)),
    }
}

// ── Arrays ────────────────────────────────────────────────────────────

fn split_array_items(s: &Vec<char>) -> (r: Vec<Vec<char>>)
    ensures
        views(r@) == split_items(s@),
{
    let mut out: Vec<Vec<char>> = Vec::new();
    let mut cur: Vec<char> = Vec::new();
    let mut in_q = false;
    let mut bs = false;
    let mut i: usize = 0;
    assert(s@.take(0) =~= Seq::<char>::empty());
    assert(views(out@) =~= Seq::<Seq<char>>::empty());
    assert(cur@ =~= Seq::<char>::empty());
    while i < s.len()
        invariant
            i <= s.len(),
            (views(out@), cur@, in_q, bs) == items_run(s@.take(i as int)),
        decreases s.len() - i,
    {
        let c = s[i];
        let ghost st = items_run(s@.take(i as int));
        assert(s@.take(i + 1).drop_last() =~= s@.take(i as int));
        assert(s@.take(i + 1).last() == c);
        assert(items_run(s@.take(i + 1)) == item_step(st, c));
        if in_q {
            cur.push(c);
            if c == '\\' && !bs {
                bs = true;
            } else {
                in_q = !(c == '"' && !bs);
                bs = false;
            }
        } else if c == ',' {
            let t = trimmed(&cur);
            let ghost before = views(out@);
            out.push(t);
            assert(views(out@) =~= before.push(t@));
            cur = Vec::new();
            assert(cur@ =~= Seq::<char>::empty());
            in_q = false;
        } else {
            cur.push(c);
            in_q = c == '"';
        }
        i = i + 1;
    }
    assert(s@.take(s@.len() as int) =~= s@);
    let t = trimmed(&cur);
    if t.len() > 0 {
        let ghost before = views(out@);
        out.push(t);
        assert(views(out@) =~= before.push(t@));
    }
    out
}

fn parse_value_at(s0: &Vec<char>, n: usize, depth: usize) -> (r: Result<TomlValue, String>)
    ensures
        value_matches(r, value_at(s0@, n as nat, depth as nat)),
    decreases depth, 1int,
{
    let s = trimmed(s0);
    if s.len() == 0 {
        return Err(line_error(n, "empty value"));
    }
    let c = s[0];
    if c == '"' {
        match parse_string(&s, n) {
            Ok(t) => Ok(TomlValue::String(t)),
            Err(e) => Err(e),
        }
    } else if c == '[' {
        parse_array_at(&s, n, depth)
    } else if c == 't' || c == 'f' {
        parse_bool(&s, n)
    } else if c == '-' || c == '+' || (c >= '0' && c <= '9') {
        parse_number(&s, n)
    } else {
        Err(line_error_quoting(n, "cannot parse value ", &s))
    }
}

fn parse_array_at(s: &Vec<char>, n: usize, depth: usize) -> (r: Result<TomlValue, String>)
    ensures
        value_matches(r, array_at(s@, n as nat, depth as nat)),
    decreases depth, 0int,
{
    if !(s.len() >= 1 && s[0] == '[' && s[s.len() - 1] == ']') {
        return Err(line_error_quoting(n, "malformed array ", s));
    }
    let body = copy_range(s, 1, s.len() - 1);
    let inner = trimmed(&body);
    if inner.len() == 0 {
        let out: Vec<TomlValue> = Vec::new();
        assert(scalars(out@) =~= Seq::<TomlScalar>::empty());
        return Ok(TomlValue::Array(out));
    }
    let items = split_array_items(&inner);
    let ghost its = views(items@);
    let mut out: Vec<TomlValue> = Vec::new();
    let mut k: usize = 0;
    assert(scalars(out@) =~= Seq::<TomlScalar>::empty());
    while k < items.len()
        invariant
            k <= items.len(),
            its == views(items@),
            array_at(s@, n as nat, depth as nat) == items_at(
                its,
                n as nat,
                depth as nat,
                k as int,
                scalars(out@),
            ),
        decreases items.len() - k,
    {
        if depth == 0 {
            return Err(line_error(n, "nested arrays not supported"));
        }
        let piece = trimmed(&items[k]);
        assert(piece@ == trim(its[k as int]));
        match parse_value_at(&piece, n, depth - 1) {
            Err(e) => {
                return Err(e);
            },
            Ok(v) => {
                if let TomlValue::Array(_) = v {
                    return Err(line_error(n, "nested arrays not supported"));
                }
                let ghost before = scalars(out@);
                assert(scalar_view(v) == scalar_of(value_view(v)));
                out.push(v);
                assert(scalars(out@) =~= before.push(scalar_view(v)));
            },
        }
        k = k + 1;
    }
    Ok(TomlValue::Array(out))
}

// ── Lines ─────────────────────────────────────────────────────────────

fn contains_name(seen: &Vec<Vec<char>>, name: &Vec<char>) -> (b: bool)
    ensures
        b == views(seen@).contains(name@),
{
    let mut i: usize = 0;
    while i < seen.len()
        invariant
            i <= seen.len(),
            forall|j: int| 0 <= j < i ==> views(seen@)[j] != name@,
        decreases seen.len() - i,
    {
        if chars_eq(&seen[i], name) {
            assert(views(seen@)[i as int] == name@);
            return true;
        }
        i = i + 1;
    }
    false
}

fn parse_section_header(stripped: &Vec<char>, n: usize, seen: &Vec<Vec<char>>) -> (r: Result<Vec<char>, String>)
    ensures
        match header_result(stripped@, n as nat, views(seen@)) {
            Ok(name) => r matches Ok(v) && v@ == name,
            Err(m) => r matches Err(e) && e@ == m,
        },
{
    if stripped.len() > 0 && stripped[0] == '[' {
        return Err(line_error(n, "array-of-tables headers ([[...]]) are not supported"));
    }
    if !(stripped.len() > 0 && stripped[stripped.len() - 1] == ']') {
        return Err(line_error(n, "unterminated section header"));
    }
    let body = copy_range(stripped, 0, stripped.len() - 1);
    assert(body@ =~= stripped@.drop_last());
    let name = trimmed(&body);
    if name.len() == 0 {
        return Err(line_error(n, "empty section name"));
    }
    if has_char(&name, '.') {
        return Err(
            line_error(
                n,
                "dotted section headers ([a.b]) are not supported; use a flat [section] header",
            ),
        );
    }
    if !is_identifier(&name) {
        let mut m = line_prefix(n);
        push_str(&mut m, "unsupported section header [");
        push_str(&mut m, string_from_chars(&name).as_str());
        push_str(&mut m, "]; use a flat [section] name (letters, digits, underscore)");
        assert(m@ =~= at_line(
            n as nat,
            "unsupported section header ["@ + name@
                + "]; use a flat [section] name (letters, digits, underscore)"@,
        ));
        return Err(m);
    }
    if contains_name(seen, &name) {
        let mut m = line_prefix(n);
        push_str(&mut m, "section [");
        push_str(&mut m, string_from_chars(&name).as_str());
        push_str(&mut m, "] declared more than once");
        assert(m@ =~= at_line(n as nat, "section ["@ + name@ + "] declared more than once"@));
        return Err(m);
    }
    Ok(name)
}

fn parse_key_value(line: &Vec<char>, n: usize) -> (r: Result<(Vec<char>, TomlValue), String>)
    ensures
        match key_value_result(line@, n as nat) {
            Ok(kv) => r matches Ok(p) && p.0@ == kv.0 && value_view(p.1) == kv.1,
            Err(m) => r matches Err(e) && e@ == m,
        },
{
    let eq = match first_index(line, '=') {
        None => {
            return Err(line_error_quoting(n, "expected '=' in ", line));
        },
        Some(e) => e,
    };
    let head = copy_range(line, 0, eq);
    assert(head@ =~= line@.take(eq as int));
    let key = trimmed(&head);
    let tail = copy_range(line, eq + 1, line.len());
    assert(tail@ =~= line@.skip(eq + 1));
    let value_text = trimmed(&tail);
    if key.len() == 0 {
        return Err(line_error(n, "empty key"));
    }
    if key[0] != '"' && has_char(&key, '.') {
        return Err(
            line_error(n, "dotted keys (a.b = ...) are not supported; use a [section] header"),
        );
    }
    if !is_identifier(&key) {
        let mut m = line_prefix(n);
        push_str(&mut m, "unsupported key ");
        let d = debug_text(string_from_chars(&key).as_str());
        push_str(&mut m, d.as_str());
        push_str(&mut m, "; keys must be simple identifiers");
        assert(m@ =~= at_line(
            n as nat,
            "unsupported key "@ + debug_str(key@) + "; keys must be simple identifiers"@,
        ));
        return Err(m);
    }
    match parse_value_at(&value_text, n, value_text.len()) {
        Ok(v) => Ok((key, v)),
        Err(e) => Err(e),
    }
}

// ── Documents ─────────────────────────────────────────────────────────

/// A parsed document: its `(section, key, value)` entries in file order.
/// Keys before the first header have the empty section.
#[derive(Debug)]
pub struct TomlDoc {
    entries: Vec<(String, String, TomlValue)>,
}

/// The models of stored entries.
pub open spec fn entry_views(es: Seq<(String, String, TomlValue)>) -> Seq<Entry> {
    es.map_values(|e: (String, String, TomlValue)| (e.0@, e.1@, value_view(e.2)))
}

impl View for TomlDoc {
    type V = Seq<Entry>;

    closed spec fn view(&self) -> Seq<Entry> {
        entry_views(self.entries@)
    }
}

/// The value stored for `(section, key)`, if any.
pub open spec fn lookup(es: Seq<Entry>, section: Seq<char>, key: Seq<char>) -> Option<TomlData> {
    match find_entry(es, section, key) {
        Some(i) => Some(es[i].2),
        None => None,
    }
}

/// The message for a key present with the wrong kind of value.
pub open spec fn kind_msg(section: Seq<char>, key: Seq<char>, kind: Seq<char>) -> Seq<char> {
    "["@ + section + "] "@ + key + " must be "@ + kind
}

fn kind_error(section: &str, key: &str, kind: &str) -> (e: ConfigError)
    ensures
        e.0@ == kind_msg(section@, key@, kind@),
{
    let mut m = String::new();
    push_str(&mut m, "[");
    push_str(&mut m, section);
    push_str(&mut m, "] ");
    push_str(&mut m, key);
    push_str(&mut m, " must be ");
    push_str(&mut m, kind);
    assert(m@ =~= kind_msg(section@, key@, kind@));
    ConfigError(m)
}

impl TomlDoc {
    /// The value of `(section, key)`, if present.
    pub fn get(&self, section: &str, key: &str) -> (r: Option<&TomlValue>)
        ensures
            match lookup(self@, section@, key@) {
                None => r is None,
                Some(d) => r matches Some(v) && value_view(*v) == d,
            },
    {
        let ghost es = self@;
        let mut i: usize = 0;
        while i < self.entries.len()
            invariant
                i <= self.entries@.len(),
                es == entry_views(self.entries@),
                find_entry(es, section@, key@) == find_entry_from(
                    es,
                    section@,
                    key@,
                    i as int,
                ),
            decreases self.entries.len() - i,
        {
            let e = &self.entries[i];
            assert(es[i as int] == (e.0@, e.1@, value_view(e.2)));
            if crate::text::str_eq(e.0.as_str(), section) && crate::text::str_eq(e.1.as_str(), key) {
                return Some(&e.2);
            }
            i = i + 1;
        }
        None
    }

    /// A string value; `Ok(None)` when absent, an error when present with
    /// another kind of value.
    pub fn get_string(&self, section: &str, key: &str) -> (r: Result<Option<&str>, ConfigError>)
        ensures
            match lookup(self@, section@, key@) {
                None => r matches Ok(o) && o is None,
                Some(TomlData::Text(t)) => r matches Ok(o) && o matches Some(x) && x@ == t,
                Some(_) => r matches Err(e) && e.0@ == kind_msg(section@, key@, "a string"@),
            },
    {
        match self.get(section, key) {
            None => Ok(None),
            Some(TomlValue::String(s)) => Ok(Some(s.as_str())),
            Some(_) => Err(kind_error(section, key, "a string")),
        }
    }

    /// A boolean value; `Ok(None)` when absent.
    pub fn get_bool(&self, section: &str, key: &str) -> (r: Result<Option<bool>, ConfigError>)
        ensures
            match lookup(self@, section@, key@) {
                None => r == Ok::<Option<bool>, ConfigError>(None),
                Some(TomlData::Bool(b)) => r == Ok::<Option<bool>, ConfigError>(Some(b)),
                Some(_) => r matches Err(e) && e.0@ == kind_msg(section@, key@, "a boolean"@),
            },
    {
        match self.get(section, key) {
            None => Ok(None),
            Some(TomlValue::Bool(b)) => Ok(Some(*b)),
            Some(_) => Err(kind_error(section, key, "a boolean")),
        }
    }

    /// An array value; `Ok(None)` when absent.
    pub fn get_array(&self, section: &str, key: &str) -> (r: Result<Option<&[TomlValue]>, ConfigError>)
        ensures
            match lookup(self@, section@, key@) {
                None => r matches Ok(o) && o is None,
                Some(TomlData::List(l)) => r matches Ok(o) && o matches Some(a) && scalars(a@)
                    == l,
                Some(_) => r matches Err(e) && e.0@ == kind_msg(section@, key@, "an array"@),
            },
    {
        match self.get(section, key) {
            None => Ok(None),
            Some(TomlValue::Array(a)) => Ok(Some(a.as_slice())),
            Some(_) => Err(kind_error(section, key, "an array")),
        }
    }

    /// An integer value; `Ok(None)` when absent.
    pub fn get_int(&self, section: &str, key: &str) -> (r: Result<Option<i64>, ConfigError>)
        ensures
            match lookup(self@, section@, key@) {
                None => r == Ok::<Option<i64>, ConfigError>(None),
                Some(TomlData::Int(i)) => r matches Ok(o) && o matches Some(x) && x == i,
                Some(_) => r matches Err(e) && e.0@ == kind_msg(section@, key@, "an integer"@),
            },
    {
        match self.get(section, key) {
            None => Ok(None),
            Some(TomlValue::Int(i)) => Ok(Some(*i)),
            Some(_) => Err(kind_error(section, key, "an integer")),
        }
    }

    /// A number, as the literal text that denotes it: a number written with
    /// a fraction or exponent as written, an integer in decimal. Converting
    /// the text to a float is left to the caller.
    pub fn get_float(&self, section: &str, key: &str) -> (r: Result<Option<String>, ConfigError>)
        ensures
            match lookup(self@, section@, key@) {
                None => r matches Ok(o) && o is None,
                Some(TomlData::Number(t)) => r matches Ok(o) && o matches Some(x) && x@ == t,
                Some(TomlData::Int(i)) => r matches Ok(o) && o matches Some(x) && x@
                    == crate::text::idec(i),
                Some(_) => r matches Err(e) && e.0@ == kind_msg(section@, key@, "a number"@),
            },
    {
        match self.get(section, key) {
            None => Ok(None),
            Some(TomlValue::Float(t)) => Ok(Some(crate::text::string_of(t.as_str()))),
            Some(TomlValue::Int(i)) => {
                let mut s = String::new();
                crate::text::push_idec(&mut s, *i);
                assert(s@ =~= crate::text::idec(*i as int));
                Ok(Some(s))
            },
            Some(_) => Err(kind_error(section, key, "a number")),
        }
    }

    /// The entries in file order, for a caller that walks them all.
    pub fn entries(&self) -> (r: &Vec<(String, String, TomlValue)>)
        ensures
            entry_views(r@) == self@,
    {
        &self.entries
    }
}

fn lines_of(text: &str) -> (r: Vec<Vec<char>>)
    ensures
        views(r@) == text_lines(text@),
{
    let chars = chars_of(text);
    let mut nl: Vec<char> = Vec::new();
    nl.push('\n');
    assert(nl@ =~= seq!['\n']);
    let p = split_chars(&chars, &nl);
    let ghost ps = views(p@);
    let q: usize = if p.len() > 0 && p[p.len() - 1].len() == 0 {
        p.len() - 1
    } else {
        p.len()
    };
    let ghost want = text_lines(text@);
    assert(want.len() == q);
    let mut out: Vec<Vec<char>> = Vec::new();
    let mut i: usize = 0;
    while i < q
        invariant
            i <= q <= p.len(),
            ps == views(p@),
            ps == split_on(text@, seq!['\n']),
            want == text_lines(text@),
            want.len() == q,
            views(out@) == want.take(i as int),
        decreases q - i,
    {
        let piece = &p[i];
        assert(ps[i as int] == piece@);
        let line = if i + 1 < p.len() && piece.len() > 0 && piece[piece.len() - 1] == '\r' {
            copy_range(piece, 0, piece.len() - 1)
        } else {
            copy_range(piece, 0, piece.len())
        };
        assert(line@ =~= want[i as int]);
        let ghost before = views(out@);
        out.push(line);
        assert(views(out@) =~= before.push(line@));
        assert(want.take(i + 1) =~= want.take(i as int).push(want[i as int]));
        i = i + 1;
    }
    assert(want.take(q as int) =~= want);
    out
}

proof fn lemma_fold_err_sticks(lines: Seq<Seq<char>>, j: int, m: int)
    requires
        0 <= j <= m,
        doc_fold(lines, j) is Err,
    ensures
        doc_fold(lines, m) == doc_fold(lines, j),
    decreases m - j,
{
    if m > j {
        lemma_fold_err_sticks(lines, j, m - 1);
    }
}

fn find_stored(entries: &Vec<(String, String, TomlValue)>, section: &Vec<char>, key: &Vec<char>) -> (b: bool)
    ensures
        b == find_entry(entry_views(entries@), section@, key@) is Some,
{
    let ghost es = entry_views(entries@);
    let mut i: usize = 0;
    while i < entries.len()
        invariant
            i <= entries@.len(),
            es == entry_views(entries@),
            find_entry(es, section@, key@) == find_entry_from(es, section@, key@, i as int),
        decreases entries.len() - i,
    {
        let e = &entries[i];
        assert(es[i as int] == (e.0@, e.1@, value_view(e.2)));
        if crate::text::same_chars(section, e.0.as_str()) && crate::text::same_chars(
            key,
            e.1.as_str(),
        ) {
            return true;
        }
        i = i + 1;
    }
    false
}

/// The message for a key given twice in one section.
fn duplicate_key_error(section: &Vec<char>, key: &Vec<char>, n: usize) -> (m: String)
    ensures
        m@ == duplicate_msg(section@, key@, n as nat),
{
    let mut m = line_prefix(n);
    push_str(&mut m, "duplicate key '");
    push_str(&mut m, string_from_chars(key).as_str());
    push_str(&mut m, "'");
    if section.len() > 0 {
        push_str(&mut m, " in section '[");
        push_str(&mut m, string_from_chars(section).as_str());
        push_str(&mut m, "]'");
    }
    assert(m@ =~= duplicate_msg(section@, key@, n as nat));
    m
}

/// Parses the TOML subset: the entries in file order, or the first
/// offending line's message.
pub fn parse_toml(text: &str) -> (r: Result<TomlDoc, String>)
    ensures
        match toml_entries(text@) {
            Ok(es) => r matches Ok(d) && d@ == es,
            Err(m) => r matches Err(e) && e@ == m,
        },
{
    let lines = lines_of(text);
    let ghost ls = views(lines@);
    let mut section: Vec<char> = Vec::new();
    let mut seen: Vec<Vec<char>> = Vec::new();
    let mut entries: Vec<(String, String, TomlValue)> = Vec::new();
    let mut k: usize = 0;
    assert(section@ =~= Seq::<char>::empty());
    assert(views(seen@) =~= Seq::<Seq<char>>::empty());
    assert(entry_views(entries@) =~= Seq::<Entry>::empty());
    while k < lines.len()
        invariant
            k <= lines@.len(),
            ls == views(lines@),
            ls == text_lines(text@),
            doc_fold(ls, k as int) == Ok::<DocState, Seq<char>>(
                (section@, views(seen@), entry_views(entries@)),
            ),
        decreases lines.len() - k,
    {
        let n = k + 1;
        assert(ls[k as int] == lines[k as int]@);
        let cut = comment_stripped(&lines[k]);
        let line = trimmed(&cut);
        if line.len() > 0 {
            if line[0] == '[' {
                let rest = copy_range(&line, 1, line.len());
                assert(rest@ =~= line@.drop_first());
                match parse_section_header(&rest, n, &seen) {
                    Err(e) => {
                        proof {
                            lemma_fold_err_sticks(ls, k + 1, ls.len() as int);
                        }
                        return Err(e);
                    },
                    Ok(name) => {
                        let ghost before = views(seen@);
                        let copy = copy_range(&name, 0, name.len());
                        assert(copy@ =~= name@);
                        seen.push(copy);
                        assert(views(seen@) =~= before.push(name@));
                        section = name;
                    },
                }
            } else {
                match parse_key_value(&line, n) {
                    Err(e) => {
                        proof {
                            lemma_fold_err_sticks(ls, k + 1, ls.len() as int);
                        }
                        return Err(e);
                    },
                    Ok(kv) => {
                        let (key, value) = kv;
                        if find_stored(&entries, &section, &key) {
                            let e = duplicate_key_error(&section, &key, n);
                            proof {
                                lemma_fold_err_sticks(ls, k + 1, ls.len() as int);
                            }
                            return Err(e);
                        }
                        let ghost before = entry_views(entries@);
                        let ghost vv = value_view(value);
                        entries.push(
                            (string_from_chars(&section), string_from_chars(&key), value),
                        );
                        assert(entry_views(entries@) =~= before.push((section@, key@, vv)));
                    },
                }
            }
        }
        k = k + 1;
    }
    assert(ls.len() == lines@.len());
    Ok(TomlDoc { entries })
}

// ── Laws ──────────────────────────────────────────────────────────────

/// No `(section, key)` pair occurs twice.
pub open spec fn keys_unique(es: Seq<Entry>) -> bool {
    forall|i: int, j: int|
        0 <= i < j < es.len() ==> !((#[trigger] es[i]).0 == (#[trigger] es[j]).0 && es[i].1
            == es[j].1)
}

proof fn lemma_find_none(es: Seq<Entry>, section: Seq<char>, key: Seq<char>, i: int)
    requires
        0 <= i,
        find_entry_from(es, section, key, i) is None,
    ensures
        forall|j: int| i <= j < es.len() ==> !((#[trigger] es[j]).0 == section && es[j].1 == key),
    decreases es.len() - i,
{
    if i < es.len() {
        lemma_find_none(es, section, key, i + 1);
    }
}

proof fn lemma_fold_keys_unique(lines: Seq<Seq<char>>, k: int)
    requires
        0 <= k <= lines.len(),
    ensures
        doc_fold(lines, k) matches Ok(st) ==> keys_unique(st.2),
    decreases k,
{
    if k > 0 {
        lemma_fold_keys_unique(lines, k - 1);
        if let Ok(st) = doc_fold(lines, k - 1) {
            let raw = lines[k - 1];
            let line = trim(strip_comment(raw));
            if line.len() > 0 && line[0] != '[' {
                if let Ok(kv) = key_value_result(line, k as nat) {
                    if find_entry(st.2, st.0, kv.0) is None {
                        lemma_find_none(st.2, st.0, kv.0, 0);
                        let es2 = st.2.push((st.0, kv.0, kv.1));
                        assert forall|i: int, j: int|
                            0 <= i < j < es2.len() implies !((#[trigger] es2[i]).0 == (
                            #[trigger] es2[j]).0 && es2[i].1 == es2[j].1) by {
                            if j == es2.len() - 1 {
                                assert(es2[i] == st.2[i]);
                            } else {
                                assert(es2[i] == st.2[i] && es2[j] == st.2[j]);
                            }
                        }
                    }
                }
            }
        }
    }
}

/// A parsed document never holds the same key twice in one section: a
/// repeated `(section, key)` is refused, never silently kept or replaced.
pub proof fn law_keys_are_unique(text: Seq<char>)
    ensures
        toml_entries(text) matches Ok(es) ==> keys_unique(es),
{
    lemma_fold_keys_unique(text_lines(text), text_lines(text).len() as int);
}

} // verus!
