//! The command line's grammar and decisions: `mie-decoder [--log-level L]
//! [--config PATH] <command> [options]` with the commands `decode`, `count`
//! and `dump`; how flags take values; the exit-code taxonomy; and how a
//! decode's outcome maps to an exit code. Reading and writing files, and
//! printing, are left to the program around the library.
use vstd::prelude::*;

use crate::config::{
    bus_name_result, hex_char_value, is_hex_char, is_log_level, is_log_level_name,
    parse_bus_name, parse_type_name, type_name_result, ConfigOverrides, DETECT_RECORDS_MAX,
    DETECT_RECORDS_MIN, LOOKAHEAD_RECORDS_MAX, LOOKAHEAD_RECORDS_MIN,
};
use crate::config::{load_config, load_result, ConfigSource, ConfigView, DecoderConfig};
use crate::error::{error_text, spec_kind, MieError, MieErrorKind};
use crate::merge::MAX_MERGE_FILES;
use crate::writer::{path_eq, std_path_eq, WriteOutcome};
use crate::models::{Bus, DeltaScope, ErrorMode, TimestampFormat};
use crate::order::{MAX_SORT_GROUP_MAX, MAX_SORT_GROUP_MIN};
use crate::text::{
    chars_of, copy_range, debug_str, debug_text, dec, idec, is_dec_digit, lower_seq, push_dec,
    push_str, same_chars, split_chars, split_on, string_from_chars, string_of, trim, trimmed,
    views,
};
use crate::toml_subset::first_from;

verus! {

// ── Exit codes ────────────────────────────────────────────────────────

/// Runtime or decode error: input I/O, writer failure, strict-mode failures.
pub const EXIT_RUNTIME: u8 = 1;
/// No valid records: the input is not an MIE recording.
pub const EXIT_NO_RECORDS: u8 = 2;
/// Unrecoverable mid-file sync loss without `--allow-partial`.
pub const EXIT_SYNC_LOSS: u8 = 3;
/// Usage error: unknown or invalid flag, argument or subcommand.
pub const EXIT_USAGE: u8 = 4;
/// Configuration error: missing file, malformed TOML, invalid value.
pub const EXIT_CONFIG: u8 = 5;
/// Merge inputs that cannot be ordered on one absolute timeline.
pub const EXIT_MERGE_INCOMPATIBLE: u8 = 6;

// ── Tokens ────────────────────────────────────────────────────────────

/// Every character is an ASCII decimal digit.
pub open spec fn all_digits(s: Seq<char>) -> bool {
    forall|i: int| 0 <= i < s.len() ==> is_dec_digit(#[trigger] s[i])
}

/// `-` followed by digits, or by optional digits, a point and at least one
/// digit: the negative-number shape `argparse` accepts as a value.
pub open spec fn spec_negative_number(t: Seq<char>) -> bool {
    t.len() >= 2 && t[0] == '-' && {
        let rest = t.skip(1);
        match first_from(rest, '.', 0) {
            None => all_digits(rest),
            Some(p) => rest.skip(p + 1).len() > 0 && all_digits(rest.take(p)) && all_digits(
                rest.skip(p + 1),
            ),
        }
    }
}

/// A token that looks like an option rather than a value: it starts with
/// `-`, has at least two characters, holds no space, and is not a negative
/// number.
pub open spec fn spec_looks_like_option(t: Seq<char>) -> bool {
    t.len() >= 2 && t[0] == '-' && !t.contains(' ') && !spec_negative_number(t)
}

fn digits_only(v: &Vec<char>, a: usize, b: usize) -> (r: bool)
    requires
        a <= b <= v.len(),
    ensures
        r == all_digits(v@.subrange(a as int, b as int)),
{
    let mut i = a;
    while i < b
        invariant
            a <= i <= b <= v.len(),
            forall|k: int| a <= k < i ==> is_dec_digit(#[trigger] v@[k]),
        decreases b - i,
    {
        if !(v[i] >= '0' && v[i] <= '9') {
            assert(v@.subrange(a as int, b as int)[i - a] == v@[i as int]);
            return false;
        }
        i = i + 1;
    }
    assert forall|k: int| 0 <= k < b - a implies is_dec_digit(
        #[trigger] v@.subrange(a as int, b as int)[k],
    ) by {
        assert(v@.subrange(a as int, b as int)[k] == v@[a + k]);
    }
    true
}

/// Whether `token` has the negative-number shape.
pub fn is_negative_number(token: &str) -> (b: bool)
    ensures
        b == spec_negative_number(token@),
{
    let t = chars_of(token);
    if t.len() < 2 || t[0] != '-' {
        return false;
    }
    let ghost rest = t@.skip(1);
    let mut p: usize = 1;
    while p < t.len() && t[p] != '.'
        invariant
            1 <= p <= t.len(),
            rest == t@.skip(1),
            first_from(rest, '.', 0) == first_from(rest, '.', p - 1),
        decreases t.len() - p,
    {
        p = p + 1;
    }
    if p == t.len() {
        assert(t@.subrange(1, t@.len() as int) =~= rest);
        digits_only(&t, 1, t.len())
    } else {
        assert(rest.take(p - 1) =~= t@.subrange(1, p as int));
        assert(rest.skip(p as int) =~= t@.subrange(p + 1, t@.len() as int));
        p + 1 < t.len() && digits_only(&t, 1, p) && digits_only(&t, p + 1, t.len())
    }
}

/// Whether a token looks like an option, so that a flag's separated value
/// may not be taken from it.
pub fn looks_like_option(token: &str) -> (b: bool)
    ensures
        b == spec_looks_like_option(token@),
{
    let t = chars_of(token);
    if t.len() < 2 || t[0] != '-' {
        return false;
    }
    let mut i: usize = 0;
    while i < t.len()
        invariant
            i <= t.len(),
            t@ == token@,
            forall|k: int| 0 <= k < i ==> t@[k] != ' ',
        decreases t.len() - i,
    {
        if t[i] == ' ' {
            assert(t@[i as int] == ' ');
            assert(token@.contains(' '));
            return false;
        }
        i = i + 1;
    }
    !is_negative_number(token)
}

/// The flag name of a token: before the first `=` of a `--` token, or the
/// whole token.
pub open spec fn arg_name(raw: Seq<char>) -> Seq<char> {
    if raw.len() >= 2 && raw[0] == '-' && raw[1] == '-' {
        match first_from(raw, '=', 0) {
            Some(at) => raw.take(at),
            None => raw,
        }
    } else {
        raw
    }
}

/// The value joined to a `--` token with `=`, if any (`Some` of the empty
/// text for `--flag=`).
pub open spec fn arg_inline(raw: Seq<char>) -> Option<Seq<char>> {
    if raw.len() >= 2 && raw[0] == '-' && raw[1] == '-' {
        match first_from(raw, '=', 0) {
            Some(at) => Some(raw.skip(at + 1)),
            None => None,
        }
    } else {
        None
    }
}

/// One argument token, split at its first `=` when it is a `--` token.
#[derive(Debug)]
pub struct Arg {
    /// The token as it arrived.
    pub raw: String,
    /// The flag name.
    pub name: String,
    /// The joined value, if any.
    pub inline: Option<String>,
}

impl Arg {
    /// Splits `raw` into its flag name and joined value.
    pub fn split(raw: String) -> (a: Arg)
        ensures
            a.raw@ == raw@,
            a.name@ == arg_name(raw@),
            match arg_inline(raw@) {
                Some(v) => a.inline matches Some(x) && x@ == v,
                None => a.inline is None,
            },
    {
        let t = chars_of(raw.as_str());
        if t.len() >= 2 && t[0] == '-' && t[1] == '-' {
            let mut i: usize = 0;
            while i < t.len() && t[i] != '='
                invariant
                    i <= t.len(),
                    first_from(t@, '=', 0) == first_from(t@, '=', i as int),
                decreases t.len() - i,
            {
                i = i + 1;
            }
            if i < t.len() {
                let name = copy_range(&t, 0, i);
                let value = copy_range(&t, i + 1, t.len());
                assert(name@ =~= t@.take(i as int));
                assert(value@ =~= t@.skip(i + 1));
                return Arg {
                    name: string_from_chars(&name),
                    inline: Some(string_from_chars(&value)),
                    raw,
                };
            }
        }
        let name = string_of(raw.as_str());
        Arg { name, inline: None, raw }
    }

    /// True when no value was joined to the token.
    pub fn bare(&self) -> (b: bool)
        ensures
            b == self.inline is None,
    {
        self.inline.is_none()
    }
}

// ── Numbers ───────────────────────────────────────────────────────────

/// A digit of base ten or sixteen.
pub open spec fn radix_digit(c: char, base: nat) -> bool {
    if base == 16 {
        is_hex_char(c)
    } else {
        is_dec_digit(c)
    }
}

/// The value of a run of digits in `base`.
pub open spec fn radix_value(d: Seq<char>, base: nat) -> int
    decreases d.len(),
{
    if d.len() == 0 {
        0
    } else {
        radix_value(d.drop_last(), base) * base + hex_char_value(d.last())
    }
}

/// At least one character, each a digit of `base`.
pub open spec fn digits_ok(d: Seq<char>, base: nat) -> bool {
    d.len() > 0 && forall|i: int| 0 <= i < d.len() ==> radix_digit(#[trigger] d[i], base)
}

/// An unsigned integer as `from_str_radix` reads it: an optional `+`, at
/// least one digit of `base`, the value at most `max`.
pub open spec fn unsigned_text(t: Seq<char>, base: nat, max: int) -> Option<int> {
    let d = if t.len() > 0 && t[0] == '+' {
        t.skip(1)
    } else {
        t
    };
    if digits_ok(d, base) && radix_value(d, base) <= max {
        Some(radix_value(d, base))
    } else {
        None
    }
}

/// A signed decimal integer as `i64::from_str` reads it.
pub open spec fn signed_text(t: Seq<char>) -> Option<int> {
    if t.len() > 0 && t[0] == '-' {
        let d = t.skip(1);
        if digits_ok(d, 10) && radix_value(d, 10) <= 9223372036854775808 {
            Some(-radix_value(d, 10))
        } else {
            None
        }
    } else {
        match unsigned_text(t, 10, 9223372036854775807) {
            Some(v) => Some(v),
            None => None,
        }
    }
}

fn digit_run_value(v: &Vec<char>, a: usize, base: u32, max: u128) -> (r: Option<u128>)
    requires
        a <= v.len(),
        base == 10 || base == 16,
        max < 0x1_0000_0000_0000_0000u128,
    ensures
        match r {
            Some(x) => digits_ok(v@.skip(a as int), base as nat) && x == radix_value(
                v@.skip(a as int),
                base as nat,
            ) && x <= max,
            None => !(digits_ok(v@.skip(a as int), base as nat) && radix_value(
                v@.skip(a as int),
                base as nat,
            ) <= max),
        },
{
    if a >= v.len() {
        return None;
    }
    let mut acc: u128 = 0;
    let mut over = false;
    let mut i = a;
    assert(v@.subrange(a as int, a as int) =~= Seq::<char>::empty());
    while i < v.len()
        invariant
            a <= i <= v.len(),
            base == 10 || base == 16,
            max < 0x1_0000_0000_0000_0000u128,
            forall|k: int| a <= k < i ==> radix_digit(#[trigger] v@[k], base as nat),
            !over ==> acc as int == radix_value(v@.subrange(a as int, i as int), base as nat)
                && acc <= max,
            over ==> radix_value(v@.subrange(a as int, i as int), base as nat) > max,
        decreases v.len() - i,
    {
        let c = v[i];
        let ok = if base == 16 {
            ('0' <= c && c <= '9') || ('a' <= c && c <= 'f') || ('A' <= c && c <= 'F')
        } else {
            '0' <= c && c <= '9'
        };
        if !ok {
            assert(!radix_digit(v@[i as int], base as nat));
            assert(v@.skip(a as int)[i - a] == v@[i as int]);
            return None;
        }
        assert(v@.subrange(a as int, i + 1).drop_last() =~= v@.subrange(a as int, i as int));
        let d: u128 = if '0' <= c && c <= '9' {
            ((c as u32) - 48) as u128
        } else if 'a' <= c && c <= 'f' {
            ((c as u32) - 87) as u128
        } else {
            ((c as u32) - 55) as u128
        };
        assert(d as int == hex_char_value(c) && d < 16);
        if !over {
            let next = if base == 16 {
                acc * 16 + d
            } else {
                acc * 10 + d
            };
            if next > max {
                over = true;
            } else {
                acc = next;
            }
        }
        i = i + 1;
    }
    assert(v@.subrange(a as int, v@.len() as int) =~= v@.skip(a as int));
    assert forall|k: int| 0 <= k < v@.skip(a as int).len() implies radix_digit(
        #[trigger] v@.skip(a as int)[k],
        base as nat,
    ) by {
        assert(v@.skip(a as int)[k] == v@[a + k]);
    }
    if over {
        None
    } else {
        Some(acc)
    }
}

/// An unsigned integer read from `v[a..]` (see [`unsigned_text`]).
fn unsigned_from(v: &Vec<char>, a: usize, base: u32, max: u128) -> (r: Option<u128>)
    requires
        a <= v.len(),
        base == 10 || base == 16,
        max < 0x1_0000_0000_0000_0000u128,
    ensures
        match unsigned_text(v@.skip(a as int), base as nat, max as int) {
            Some(x) => r matches Some(y) && y == x,
            None => r is None,
        },
        r matches Some(y) ==> y <= max,
{
    let ghost t = v@.skip(a as int);
    let start: usize = if a < v.len() && v[a] == '+' {
        a + 1
    } else {
        a
    };
    let ghost d = if t.len() > 0 && t[0] == '+' {
        t.skip(1)
    } else {
        t
    };
    assert(d =~= v@.skip(start as int));
    let r = digit_run_value(v, start, base, max);
    r
}

/// A signed decimal integer read from `v` (see [`signed_text`]).
fn signed_from(v: &Vec<char>) -> (r: Option<i64>)
    ensures
        match signed_text(v@) {
            Some(x) => r matches Some(y) && y == x,
            None => r is None,
        },
{
    let r: Option<i64>;
    if v.len() > 0 && v[0] == '-' {
        let m = digit_run_value(v, 1, 10, 9223372036854775808u128);
        r = match m {
            Some(x) => {
                if x == 9223372036854775808u128 {
                    Some(i64::MIN)
                } else {
                    let y = x as i64;
                    Some(-y)
                }
            },
            None => None,
        };
        proof {
            let d = v@.skip(1);
            assert(signed_text(v@) == (if digits_ok(d, 10) && radix_value(d, 10)
                <= 9223372036854775808 {
                Some(-radix_value(d, 10))
            } else {
                None
            }));
            match m {
                Some(x) => {
                    assert(signed_text(v@) == Some(-(x as int)));
                    assert(-(x as int) >= i64::MIN);
                    assert((-(x as int)) as i64 == -(x as int));
                    assert(r == Some((-(x as int)) as i64));
                },
                None => {
                    assert(signed_text(v@) is None);
                },
            }
        }
    } else {
        let u = unsigned_from(v, 0, 10, 9223372036854775807u128);
        r = match u {
            Some(x) => Some(x as i64),
            None => None,
        };
        proof {
            assert(v@.skip(0) =~= v@);
            match u {
                Some(x) => {
                    assert(unsigned_text(v@, 10, 9223372036854775807) == Some(x as int));
                    assert(signed_text(v@) == Some(x as int));
                    assert(x <= 9223372036854775807u128);
                    assert((x as int) as i64 == x as int);
                },
                None => {
                    assert(unsigned_text(v@, 10, 9223372036854775807) is None);
                    assert(signed_text(v@) is None);
                },
            }
        }
    }
    r
}

// ── Flag values ───────────────────────────────────────────────────────

/// The models of the argument tokens.
pub open spec fn token_views(t: Seq<String>) -> Seq<Seq<char>> {
    t.map_values(|s: String| s@)
}

/// The value a flag at token `i` takes, and the index of the next token:
/// the joined value, or else the next token unless there is none or it
/// looks like an option.
pub open spec fn value_of(inl: Option<Seq<char>>, name: Seq<char>, toks: Seq<Seq<char>>, i: int) -> Result<(Seq<char>, int), Seq<char>> {
    match inl {
        Some(v) => Ok((v, i + 1)),
        None => if i + 1 >= toks.len() {
            Err(name + " requires a value"@)
        } else if spec_looks_like_option(toks[i + 1]) {
            Err(
                name + " requires a value, but the next argument is an option: "@ + toks[i + 1]
                    + "; to pass it as a value, write "@ + name + "="@ + toks[i + 1],
            )
        } else {
            Ok((toks[i + 1], i + 2))
        },
    }
}

/// The value for the flag `a` at token `i` (see [`value_of`]).
fn take_value(a: &Arg, name: &str, tokens: &Vec<String>, i: usize) -> (r: Result<(String, usize), String>)
    requires
        i < tokens.len(),
    ensures
        match value_of(
            match a.inline {
                Some(x) => Some(x@),
                None => None,
            },
            name@,
            token_views(tokens@),
            i as int,
        ) {
            Ok(p) => r matches Ok(q) && q.0@ == p.0 && q.1 == p.1,
            Err(m) => r matches Err(e) && e@ == m,
        },
        r matches Ok(q) ==> i < q.1 <= tokens.len(),
{
    let ghost toks = token_views(tokens@);
    match &a.inline {
        Some(v) => Ok((string_of(v.as_str()), i + 1)),
        None => {
            if i + 1 >= tokens.len() {
                let mut m = string_of(name);
                push_str(&mut m, " requires a value");
                assert(m@ =~= name@ + " requires a value"@);
                return Err(m);
            }
            let next = &tokens[i + 1];
            assert(toks[i + 1] == next@);
            if looks_like_option(next.as_str()) {
                let mut m = string_of(name);
                push_str(&mut m, " requires a value, but the next argument is an option: ");
                push_str(&mut m, next.as_str());
                push_str(&mut m, "; to pass it as a value, write ");
                push_str(&mut m, name);
                push_str(&mut m, "=");
                push_str(&mut m, next.as_str());
                assert(m@ =~= name@ + " requires a value, but the next argument is an option: "@
                    + next@ + "; to pass it as a value, write "@ + name@ + "="@ + next@);
                return Err(m);
            }
            Ok((string_of(next.as_str()), i + 2))
        },
    }
}

/// A text result and its model agree.
pub open spec fn text_result_matches<T>(r: Result<T, String>, s: Result<T, Seq<char>>) -> bool {
    match (r, s) {
        (Ok(a), Ok(b)) => a == b,
        (Err(a), Err(b)) => a@ == b,
        _ => false,
    }
}

/// `--time-format`, ignoring ASCII case.
pub open spec fn time_format_arg_result(s: Seq<char>) -> Result<TimestampFormat, Seq<char>> {
    match crate::config::time_format_named(s) {
        Some(f) => Ok(f),
        None => Err("invalid --time-format: "@ + debug_str(s) + "; valid: auto, irig, standard"@),
    }
}

/// Parses a `--time-format` value.
pub fn parse_time_format_arg(s: &str) -> (r: Result<TimestampFormat, String>)
    ensures
        text_result_matches(r, time_format_arg_result(s@)),
{
    match TimestampFormat::from_name_ci(s) {
        Some(f) => Ok(f),
        None => {
            let mut m = string_of("invalid --time-format: ");
            push_str(&mut m, debug_text(s).as_str());
            push_str(&mut m, "; valid: auto, irig, standard");
            assert(m@ =~= "invalid --time-format: "@ + debug_str(s@)
                + "; valid: auto, irig, standard"@);
            Err(m)
        },
    }
}

/// A count flag: a decimal integer (surrounding whitespace ignored) within
/// `[lo, hi]`.
pub open spec fn count_arg_result(s: Seq<char>, flag: Seq<char>, lo: nat, hi: nat) -> Result<usize, Seq<char>> {
    match unsigned_text(trim(s), 10, usize::MAX as int) {
        None => Err("invalid "@ + flag + ": "@ + debug_str(s) + "; must be an integer"@),
        Some(n) => if lo <= n <= hi {
            Ok(n as usize)
        } else {
            Err(
                "invalid "@ + flag + ": "@ + dec(n as nat) + "; valid range: ["@ + dec(lo) + ", "@
                    + dec(hi) + "]"@,
            )
        },
    }
}

fn parse_count_arg(s: &str, flag: &str, lo: usize, hi: usize) -> (r: Result<usize, String>)
    ensures
        text_result_matches(r, count_arg_result(s@, flag@, lo as nat, hi as nat)),
{
    let t = trimmed(&chars_of(s));
    let n = unsigned_from(&t, 0, 10, usize::MAX as u128);
    assert(t@.skip(0) =~= t@);
    match n {
        None => {
            let mut m = string_of("invalid ");
            push_str(&mut m, flag);
            push_str(&mut m, ": ");
            push_str(&mut m, debug_text(s).as_str());
            push_str(&mut m, "; must be an integer");
            assert(m@ =~= "invalid "@ + flag@ + ": "@ + debug_str(s@) + "; must be an integer"@);
            Err(m)
        },
        Some(v) => {
            if lo as u128 <= v && v <= hi as u128 {
                Ok(v as usize)
            } else {
                let mut m = string_of("invalid ");
                push_str(&mut m, flag);
                push_str(&mut m, ": ");
                push_dec(&mut m, v as u64);
                push_str(&mut m, "; valid range: [");
                push_dec(&mut m, lo as u64);
                push_str(&mut m, ", ");
                push_dec(&mut m, hi as u64);
                push_str(&mut m, "]");
                assert(m@ =~= "invalid "@ + flag@ + ": "@ + dec(v as nat) + "; valid range: ["@
                    + dec(lo as nat) + ", "@ + dec(hi as nat) + "]"@);
                Err(m)
            }
        },
    }
}

/// Parses a `--detect-records` value.
pub fn parse_detect_records(s: &str) -> (r: Result<usize, String>)
    ensures
        text_result_matches(
            r,
            count_arg_result(
                s@,
                "--detect-records"@,
                DETECT_RECORDS_MIN as nat,
                DETECT_RECORDS_MAX as nat,
            ),
        ),
{
    parse_count_arg(s, "--detect-records", DETECT_RECORDS_MIN, DETECT_RECORDS_MAX)
}

/// Parses a `--lookahead-records` value.
pub fn parse_lookahead_records(s: &str) -> (r: Result<usize, String>)
    ensures
        text_result_matches(
            r,
            count_arg_result(
                s@,
                "--lookahead-records"@,
                LOOKAHEAD_RECORDS_MIN as nat,
                LOOKAHEAD_RECORDS_MAX as nat,
            ),
        ),
{
    parse_count_arg(s, "--lookahead-records", LOOKAHEAD_RECORDS_MIN, LOOKAHEAD_RECORDS_MAX)
}

/// Parses a `--max-sort-group` value.
pub fn parse_max_sort_group(s: &str) -> (r: Result<usize, String>)
    ensures
        text_result_matches(
            r,
            count_arg_result(
                s@,
                "--max-sort-group"@,
                MAX_SORT_GROUP_MIN as nat,
                MAX_SORT_GROUP_MAX as nat,
            ),
        ),
{
    parse_count_arg(s, "--max-sort-group", MAX_SORT_GROUP_MIN, MAX_SORT_GROUP_MAX)
}

/// `--mux-delimiter`: not empty.
pub open spec fn mux_delimiter_result(s: Seq<char>) -> Result<Seq<char>, Seq<char>> {
    if s.len() == 0 {
        Err("invalid --mux-delimiter: must be a non-empty string"@)
    } else {
        Ok(s)
    }
}

/// Parses a `--mux-delimiter` value.
pub fn parse_mux_delimiter(s: &str) -> (r: Result<String, String>)
    ensures
        match mux_delimiter_result(s@) {
            Ok(d) => r matches Ok(x) && x@ == d,
            Err(m) => r matches Err(e) && e@ == m,
        },
{
    if s.is_empty() {
        Err(string_of("invalid --mux-delimiter: must be a non-empty string"))
    } else {
        Ok(string_of(s))
    }
}

/// `--mux-field`: a signed decimal integer.
pub open spec fn mux_field_result(s: Seq<char>) -> Result<i64, Seq<char>> {
    match signed_text(trim(s)) {
        Some(n) => Ok(n as i64),
        None => Err("invalid --mux-field: "@ + debug_str(s) + "; must be an integer"@),
    }
}

/// Parses a `--mux-field` value.
pub fn parse_mux_field(s: &str) -> (r: Result<i64, String>)
    ensures
        text_result_matches(r, mux_field_result(s@)),
{
    let t = trimmed(&chars_of(s));
    match signed_from(&t) {
        Some(n) => Ok(n),
        None => {
            let mut m = string_of("invalid --mux-field: ");
            push_str(&mut m, debug_text(s).as_str());
            push_str(&mut m, "; must be an integer");
            assert(m@ =~= "invalid --mux-field: "@ + debug_str(s@) + "; must be an integer"@);
            Err(m)
        },
    }
}

/// `--delta-scope`, ignoring ASCII case and surrounding whitespace.
pub open spec fn delta_scope_result(s: Seq<char>) -> Result<DeltaScope, Seq<char>> {
    if lower_seq(trim(s)) == "per-file"@ {
        Ok(DeltaScope::PerFile)
    } else if lower_seq(trim(s)) == "global"@ {
        Ok(DeltaScope::Global)
    } else {
        Err("invalid --delta-scope: "@ + debug_str(s) + ". Valid: per-file, global"@)
    }
}

/// Parses a `--delta-scope` value.
pub fn parse_delta_scope(s: &str) -> (r: Result<DeltaScope, String>)
    ensures
        text_result_matches(r, delta_scope_result(s@)),
{
    let t = string_from_chars(&trimmed(&chars_of(s)));
    match DeltaScope::from_name_ci(t.as_str()) {
        Some(d) => Ok(d),
        None => {
            let mut m = string_of("invalid --delta-scope: ");
            push_str(&mut m, debug_text(s).as_str());
            push_str(&mut m, ". Valid: per-file, global");
            assert(m@ =~= "invalid --delta-scope: "@ + debug_str(s@) + ". Valid: per-file, global"@);
            Err(m)
        },
    }
}

/// `--collapse-window-us`: a non-negative decimal integer.
pub open spec fn collapse_window_result(s: Seq<char>) -> Result<i64, Seq<char>> {
    match signed_text(trim(s)) {
        Some(n) => if n >= 0 {
            Ok(n as i64)
        } else {
            Err(
                "invalid --collapse-window-us: "@ + debug_str(s)
                    + "; must be a non-negative integer"@,
            )
        },
        None => Err(
            "invalid --collapse-window-us: "@ + debug_str(s) + "; must be a non-negative integer"@,
        ),
    }
}

/// Parses a `--collapse-window-us` value.
pub fn parse_collapse_window_us(s: &str) -> (r: Result<i64, String>)
    ensures
        text_result_matches(r, collapse_window_result(s@)),
{
    let t = trimmed(&chars_of(s));
    match signed_from(&t) {
        Some(n) => {
            if n >= 0 {
                return Ok(n);
            }
        },
        None => {},
    }
    let mut m = string_of("invalid --collapse-window-us: ");
    push_str(&mut m, debug_text(s).as_str());
    push_str(&mut m, "; must be a non-negative integer");
    assert(m@ =~= "invalid --collapse-window-us: "@ + debug_str(s@)
        + "; must be a non-negative integer"@);
    Err(m)
}

/// A `dump` offset or count: decimal, or hexadecimal after `0x` or `0X`,
/// surrounding whitespace ignored.
pub open spec fn int_value_result(s: Seq<char>, name: Seq<char>) -> Result<usize, Seq<char>> {
    let t = trim(s);
    let v = if t.len() >= 2 && t[0] == '0' && (t[1] == 'x' || t[1] == 'X') {
        unsigned_text(t.skip(2), 16, usize::MAX as int)
    } else {
        unsigned_text(t, 10, usize::MAX as int)
    };
    match v {
        Some(n) => Ok(n as usize),
        None => Err(name + " expected integer, got "@ + debug_str(t)),
    }
}

/// Parses a decimal or `0x` hexadecimal count.
pub fn parse_int_value(s: &str, name: &str) -> (r: Result<usize, String>)
    ensures
        text_result_matches(r, int_value_result(s@, name@)),
{
    let t = trimmed(&chars_of(s));
    let hex = t.len() >= 2 && t[0] == '0' && (t[1] == 'x' || t[1] == 'X');
    let v = if hex {
        unsigned_from(&t, 2, 16, usize::MAX as u128)
    } else {
        let r = unsigned_from(&t, 0, 10, usize::MAX as u128);
        assert(t@.skip(0) =~= t@);
        r
    };
    match v {
        Some(n) => Ok(n as usize),
        None => {
            let mut m = string_of(name);
            push_str(&mut m, " expected integer, got ");
            let ts = string_from_chars(&t);
            push_str(&mut m, debug_text(ts.as_str()).as_str());
            assert(m@ =~= name@ + " expected integer, got "@ + debug_str(t@));
            Err(m)
        },
    }
}

/// An RT or subaddress filter value: a count no larger than 255.
pub open spec fn u8_value_result(s: Seq<char>, name: Seq<char>) -> Result<u8, Seq<char>> {
    match int_value_result(s, name) {
        Err(m) => Err(m),
        Ok(n) => if n <= 255 {
            Ok(n as u8)
        } else {
            Err(name + " value out of range (0-255): "@ + dec(n as nat))
        },
    }
}

/// Parses an RT or subaddress filter value.
pub fn parse_u8_value(s: &str, name: &str) -> (r: Result<u8, String>)
    ensures
        text_result_matches(r, u8_value_result(s@, name@)),
{
    match parse_int_value(s, name) {
        Err(e) => Err(e),
        Ok(n) => {
            if n <= 255 {
                Ok(n as u8)
            } else {
                let mut m = string_of(name);
                push_str(&mut m, " value out of range (0-255): ");
                push_dec(&mut m, n as u64);
                assert(m@ =~= name@ + " value out of range (0-255): "@ + dec(n as nat));
                Err(m)
            }
        },
    }
}

/// The non-empty trimmed pieces of the parts, in order.
pub open spec fn nonblank(parts: Seq<Seq<char>>) -> Seq<Seq<char>>
    decreases parts.len(),
{
    if parts.len() == 0 {
        Seq::empty()
    } else if trim(parts.last()).len() == 0 {
        nonblank(parts.drop_last())
    } else {
        nonblank(parts.drop_last()).push(trim(parts.last()))
    }
}

/// A comma-separated value's items: split on `,`, trimmed, blanks dropped.
pub open spec fn csv_items(s: Seq<char>) -> Seq<Seq<char>> {
    nonblank(split_on(s, seq![',']))
}

/// Splits a comma-separated value into its items.
pub fn split_csv(s: &str) -> (r: Vec<String>)
    ensures
        r@.map_values(|x: String| x@) == csv_items(s@),
{
    let chars = chars_of(s);
    let mut comma: Vec<char> = Vec::new();
    comma.push(',');
    assert(comma@ =~= seq![',']);
    let parts = split_chars(&chars, &comma);
    let ghost ps = views(parts@);
    let mut out: Vec<String> = Vec::new();
    let mut i: usize = 0;
    assert(out@.map_values(|x: String| x@) =~= nonblank(ps.take(0)));
    while i < parts.len()
        invariant
            i <= parts@.len(),
            ps == views(parts@),
            ps == split_on(s@, seq![',']),
            out@.map_values(|x: String| x@) == nonblank(ps.take(i as int)),
        decreases parts.len() - i,
    {
        assert(ps.take(i + 1).drop_last() =~= ps.take(i as int));
        assert(ps[i as int] == parts[i as int]@);
        let t = trimmed(&parts[i]);
        if t.len() > 0 {
            let ghost before = out@.map_values(|x: String| x@);
            out.push(string_from_chars(&t));
            assert(out@.map_values(|x: String| x@) =~= before.push(t@));
        }
        i = i + 1;
    }
    assert(ps.take(parts@.len() as int) =~= ps);
    out
}

// ── decode ────────────────────────────────────────────────────────────

/// Why argument parsing stopped: help was asked for, or a usage error.
#[derive(Debug)]
pub enum ParseError {
    HelpRequested,
    Other(String),
}

/// The arguments of `decode`. Paths are kept as given. The Standard tick
/// rate is kept as written; checking that it denotes a finite positive
/// frequency is left to the caller.
#[derive(Debug)]
pub struct DecodeArgs {
    pub inputs: Vec<String>,
    pub manifest: Option<String>,
    pub glob: Option<String>,
    pub output: Option<String>,
    pub separate_errors: bool,
    pub no_clobber: bool,
    pub allow_partial: bool,
    pub time_format: Option<TimestampFormat>,
    pub detect_records: Option<usize>,
    pub lookahead_records: Option<usize>,
    pub standard_tick_rate_hz: Option<String>,
    pub strict: Option<bool>,
    pub output_format: Option<String>,
    pub no_mux: bool,
    pub mux_delimiter: Option<String>,
    pub mux_field: Option<i64>,
    pub collapse_duplicates: bool,
    pub collapse_window_us: Option<i64>,
    pub delta_scope: Option<DeltaScope>,
    pub max_sort_group: Option<usize>,
    pub exclude_types: Vec<u8>,
    pub exclude_rts: Vec<u8>,
    pub exclude_buses: Vec<Bus>,
    pub exclude_subaddresses: Vec<u8>,
    pub include_types: Vec<u8>,
    pub include_rts: Vec<u8>,
    pub include_buses: Vec<Bus>,
    pub include_subaddresses: Vec<u8>,
}

/// The model of `decode`'s arguments.
pub struct DecodeView {
    pub inputs: Seq<Seq<char>>,
    pub manifest: Option<Seq<char>>,
    pub glob: Option<Seq<char>>,
    pub output: Option<Seq<char>>,
    pub separate_errors: bool,
    pub no_clobber: bool,
    pub allow_partial: bool,
    pub time_format: Option<TimestampFormat>,
    pub detect_records: Option<usize>,
    pub lookahead_records: Option<usize>,
    pub standard_tick_rate_hz: Option<Seq<char>>,
    pub strict: Option<bool>,
    pub output_format: Option<Seq<char>>,
    pub no_mux: bool,
    pub mux_delimiter: Option<Seq<char>>,
    pub mux_field: Option<i64>,
    pub collapse_duplicates: bool,
    pub collapse_window_us: Option<i64>,
    pub delta_scope: Option<DeltaScope>,
    pub max_sort_group: Option<usize>,
    pub exclude_types: Seq<u8>,
    pub exclude_rts: Seq<u8>,
    pub exclude_buses: Seq<Bus>,
    pub exclude_subaddresses: Seq<u8>,
    pub include_types: Seq<u8>,
    pub include_rts: Seq<u8>,
    pub include_buses: Seq<Bus>,
    pub include_subaddresses: Seq<u8>,
}

/// The model of an optional text.
pub open spec fn opt_view(o: Option<String>) -> Option<Seq<char>> {
    match o {
        Some(s) => Some(s@),
        None => None,
    }
}

impl View for DecodeArgs {
    type V = DecodeView;

    open spec fn view(&self) -> DecodeView {
        DecodeView {
            inputs: token_views(self.inputs@),
            manifest: opt_view(self.manifest),
            glob: opt_view(self.glob),
            output: opt_view(self.output),
            separate_errors: self.separate_errors,
            no_clobber: self.no_clobber,
            allow_partial: self.allow_partial,
            time_format: self.time_format,
            detect_records: self.detect_records,
            lookahead_records: self.lookahead_records,
            standard_tick_rate_hz: opt_view(self.standard_tick_rate_hz),
            strict: self.strict,
            output_format: opt_view(self.output_format),
            no_mux: self.no_mux,
            mux_delimiter: opt_view(self.mux_delimiter),
            mux_field: self.mux_field,
            collapse_duplicates: self.collapse_duplicates,
            collapse_window_us: self.collapse_window_us,
            delta_scope: self.delta_scope,
            max_sort_group: self.max_sort_group,
            exclude_types: self.exclude_types@,
            exclude_rts: self.exclude_rts@,
            exclude_buses: self.exclude_buses@,
            exclude_subaddresses: self.exclude_subaddresses@,
            include_types: self.include_types@,
            include_rts: self.include_rts@,
            include_buses: self.include_buses@,
            include_subaddresses: self.include_subaddresses@,
        }
    }
}

/// Nothing given yet.
pub open spec fn empty_decode_view() -> DecodeView {
    DecodeView {
        inputs: Seq::empty(),
        manifest: None,
        glob: None,
        output: None,
        separate_errors: false,
        no_clobber: false,
        allow_partial: false,
        time_format: None,
        detect_records: None,
        lookahead_records: None,
        standard_tick_rate_hz: None,
        strict: None,
        output_format: None,
        no_mux: false,
        mux_delimiter: None,
        mux_field: None,
        collapse_duplicates: false,
        collapse_window_us: None,
        delta_scope: None,
        max_sort_group: None,
        exclude_types: Seq::empty(),
        exclude_rts: Seq::empty(),
        exclude_buses: Seq::empty(),
        exclude_subaddresses: Seq::empty(),
        include_types: Seq::empty(),
        include_rts: Seq::empty(),
        include_buses: Seq::empty(),
        include_subaddresses: Seq::empty(),
    }
}

impl Default for DecodeArgs {
    fn default() -> (d: DecodeArgs)
        ensures
            d@ == empty_decode_view(),
    {
        let d = DecodeArgs {
            inputs: Vec::new(),
            manifest: None,
            glob: None,
            output: None,
            separate_errors: false,
            no_clobber: false,
            allow_partial: false,
            time_format: None,
            detect_records: None,
            lookahead_records: None,
            standard_tick_rate_hz: None,
            strict: None,
            output_format: None,
            no_mux: false,
            mux_delimiter: None,
            mux_field: None,
            collapse_duplicates: false,
            collapse_window_us: None,
            delta_scope: None,
            max_sort_group: None,
            exclude_types: Vec::new(),
            exclude_rts: Vec::new(),
            exclude_buses: Vec::new(),
            exclude_subaddresses: Vec::new(),
            include_types: Vec::new(),
            include_rts: Vec::new(),
            include_buses: Vec::new(),
            include_subaddresses: Vec::new(),
        };
        assert(d@.inputs =~= Seq::<Seq<char>>::empty());
        assert(d@.exclude_types =~= Seq::<u8>::empty());
        assert(d@.exclude_rts =~= Seq::<u8>::empty());
        assert(d@.exclude_buses =~= Seq::<Bus>::empty());
        assert(d@.exclude_subaddresses =~= Seq::<u8>::empty());
        assert(d@.include_types =~= Seq::<u8>::empty());
        assert(d@.include_rts =~= Seq::<u8>::empty());
        assert(d@.include_buses =~= Seq::<Bus>::empty());
        assert(d@.include_subaddresses =~= Seq::<u8>::empty());
        d
    }
}

/// The message-type codes of the first `k` items, or the first error.
pub open spec fn type_items(items: Seq<Seq<char>>, k: int) -> Result<Seq<u8>, Seq<char>>
    decreases k,
{
    if k <= 0 {
        Ok(Seq::empty())
    } else {
        match type_items(items, k - 1) {
            Err(m) => Err(m),
            Ok(v) => match type_name_result(items[k - 1]) {
                Ok(b) => Ok(v.push(b)),
                Err(m) => Err(m),
            },
        }
    }
}

/// The RT or subaddress values of the first `k` items, or the first error.
pub open spec fn u8_items(items: Seq<Seq<char>>, name: Seq<char>, k: int) -> Result<Seq<u8>, Seq<char>>
    decreases k,
{
    if k <= 0 {
        Ok(Seq::empty())
    } else {
        match u8_items(items, name, k - 1) {
            Err(m) => Err(m),
            Ok(v) => match u8_value_result(items[k - 1], name) {
                Ok(b) => Ok(v.push(b)),
                Err(m) => Err(m),
            },
        }
    }
}

/// The buses of the first `k` items, or the first error.
pub open spec fn bus_items(items: Seq<Seq<char>>, k: int) -> Result<Seq<Bus>, Seq<char>>
    decreases k,
{
    if k <= 0 {
        Ok(Seq::empty())
    } else {
        match bus_items(items, k - 1) {
            Err(m) => Err(m),
            Ok(v) => match bus_name_result(items[k - 1]) {
                Ok(b) => Ok(v.push(b)),
                Err(m) => Err(m),
            },
        }
    }
}

proof fn lemma_type_items_err(items: Seq<Seq<char>>, j: int, m: int)
    requires
        0 <= j <= m,
        type_items(items, j) is Err,
    ensures
        type_items(items, m) == type_items(items, j),
    decreases m - j,
{
    if m > j {
        lemma_type_items_err(items, j, m - 1);
    }
}

proof fn lemma_u8_items_err(items: Seq<Seq<char>>, name: Seq<char>, j: int, m: int)
    requires
        0 <= j <= m,
        u8_items(items, name, j) is Err,
    ensures
        u8_items(items, name, m) == u8_items(items, name, j),
    decreases m - j,
{
    if m > j {
        lemma_u8_items_err(items, name, j, m - 1);
    }
}

proof fn lemma_bus_items_err(items: Seq<Seq<char>>, j: int, m: int)
    requires
        0 <= j <= m,
        bus_items(items, j) is Err,
    ensures
        bus_items(items, m) == bus_items(items, j),
    decreases m - j,
{
    if m > j {
        lemma_bus_items_err(items, j, m - 1);
    }
}

fn push_type_items(target: &mut Vec<u8>, csv: &str) -> (r: Result<(), String>)
    ensures
        match type_items(csv_items(csv@), csv_items(csv@).len() as int) {
            Ok(v) => r is Ok && final(target)@ == old(target)@ + v,
            Err(m) => r matches Err(e) && e@ == m,
        },
{
    let items = split_csv(csv);
    let ghost its = items@.map_values(|x: String| x@);
    let ghost start = target@;
    let mut k: usize = 0;
    assert(start + Seq::<u8>::empty() =~= start);
    while k < items.len()
        invariant
            k <= items@.len(),
            its == items@.map_values(|x: String| x@),
            its == csv_items(csv@),
            type_items(its, k as int) matches Ok(v) && target@ == start + v,
        decreases items.len() - k,
    {
        let ghost before = target@;
        assert(its[k as int] == items[k as int]@);
        match parse_type_name(items[k].as_str()) {
            Ok(b) => {
                target.push(b);
                assert(target@ =~= before.push(b));
            },
            Err(e) => {
                proof {
                    lemma_type_items_err(its, k + 1, its.len() as int);
                }
                return Err(e.0);
            },
        }
        k = k + 1;
    }
    Ok(())
}

fn push_u8_items(target: &mut Vec<u8>, csv: &str, name: &str) -> (r: Result<(), String>)
    ensures
        match u8_items(csv_items(csv@), name@, csv_items(csv@).len() as int) {
            Ok(v) => r is Ok && final(target)@ == old(target)@ + v,
            Err(m) => r matches Err(e) && e@ == m,
        },
{
    let items = split_csv(csv);
    let ghost its = items@.map_values(|x: String| x@);
    let ghost start = target@;
    let mut k: usize = 0;
    assert(start + Seq::<u8>::empty() =~= start);
    while k < items.len()
        invariant
            k <= items@.len(),
            its == items@.map_values(|x: String| x@),
            its == csv_items(csv@),
            u8_items(its, name@, k as int) matches Ok(v) && target@ == start + v,
        decreases items.len() - k,
    {
        let ghost before = target@;
        assert(its[k as int] == items[k as int]@);
        match parse_u8_value(items[k].as_str(), name) {
            Ok(b) => {
                target.push(b);
                assert(target@ =~= before.push(b));
            },
            Err(e) => {
                proof {
                    lemma_u8_items_err(its, name@, k + 1, its.len() as int);
                }
                return Err(e);
            },
        }
        k = k + 1;
    }
    Ok(())
}

fn push_bus_items(target: &mut Vec<Bus>, csv: &str) -> (r: Result<(), String>)
    ensures
        match bus_items(csv_items(csv@), csv_items(csv@).len() as int) {
            Ok(v) => r is Ok && final(target)@ == old(target)@ + v,
            Err(m) => r matches Err(e) && e@ == m,
        },
{
    let items = split_csv(csv);
    let ghost its = items@.map_values(|x: String| x@);
    let ghost start = target@;
    let mut k: usize = 0;
    assert(start + Seq::<Bus>::empty() =~= start);
    while k < items.len()
        invariant
            k <= items@.len(),
            its == items@.map_values(|x: String| x@),
            its == csv_items(csv@),
            bus_items(its, k as int) matches Ok(v) && target@ == start + v,
        decreases items.len() - k,
    {
        let ghost before = target@;
        assert(its[k as int] == items[k as int]@);
        match parse_bus_name(items[k].as_str()) {
            Ok(b) => {
                target.push(b);
                assert(target@ =~= before.push(b));
            },
            Err(e) => {
                proof {
                    lemma_bus_items_err(its, k + 1, its.len() as int);
                }
                return Err(e.0);
            },
        }
        k = k + 1;
    }
    Ok(())
}

/// The scalar flags that take a value: what each does to the arguments and
/// which token comes next; `None` for any other flag name.
#[verifier::opaque]
pub open spec fn scalar_flag(v: DecodeView, nm: Seq<char>, inl: Option<Seq<char>>, toks: Seq<Seq<char>>, i: int) -> Option<Result<(DecodeView, int), Seq<char>>> {
    if nm == "-o"@ || nm == "--output"@ {
        Some(
            match value_of(inl, "--output"@, toks, i) {
                Err(m) => Err(m),
                Ok(p) => Ok((DecodeView { output: Some(p.0), ..v }, p.1)),
            },
        )
    } else if nm == "--time-format"@ {
        Some(
            match value_of(inl, "--time-format"@, toks, i) {
                Err(m) => Err(m),
                Ok(p) => match time_format_arg_result(p.0) {
                    Ok(x) => Ok((DecodeView { time_format: Some(x), ..v }, p.1)),
                    Err(m) => Err(m),
                },
            },
        )
    } else if nm == "--detect-records"@ {
        Some(
            match value_of(inl, "--detect-records"@, toks, i) {
                Err(m) => Err(m),
                Ok(p) => match count_arg_result(p.0, "--detect-records"@, DETECT_RECORDS_MIN as nat, DETECT_RECORDS_MAX as nat) {
                    Ok(x) => Ok((DecodeView { detect_records: Some(x), ..v }, p.1)),
                    Err(m) => Err(m),
                },
            },
        )
    } else if nm == "--lookahead-records"@ {
        Some(
            match value_of(inl, "--lookahead-records"@, toks, i) {
                Err(m) => Err(m),
                Ok(p) => match count_arg_result(p.0, "--lookahead-records"@, LOOKAHEAD_RECORDS_MIN as nat, LOOKAHEAD_RECORDS_MAX as nat) {
                    Ok(x) => Ok((DecodeView { lookahead_records: Some(x), ..v }, p.1)),
                    Err(m) => Err(m),
                },
            },
        )
    } else if nm == "--standard-tick-rate-hz"@ {
        Some(
            match value_of(inl, "--standard-tick-rate-hz"@, toks, i) {
                Err(m) => Err(m),
                Ok(p) => Ok((DecodeView { standard_tick_rate_hz: Some(p.0), ..v }, p.1)),
            },
        )
    } else if nm == "--format"@ {
        Some(
            match value_of(inl, "--format"@, toks, i) {
                Err(m) => Err(m),
                Ok(p) => Ok((DecodeView { output_format: Some(p.0), ..v }, p.1)),
            },
        )
    } else if nm == "--mux-delimiter"@ {
        Some(
            match value_of(inl, "--mux-delimiter"@, toks, i) {
                Err(m) => Err(m),
                Ok(p) => match mux_delimiter_result(p.0) {
                    Ok(x) => Ok((DecodeView { mux_delimiter: Some(x), ..v }, p.1)),
                    Err(m) => Err(m),
                },
            },
        )
    } else if nm == "--mux-field"@ {
        Some(
            match value_of(inl, "--mux-field"@, toks, i) {
                Err(m) => Err(m),
                Ok(p) => match mux_field_result(p.0) {
                    Ok(x) => Ok((DecodeView { mux_field: Some(x), ..v }, p.1)),
                    Err(m) => Err(m),
                },
            },
        )
    } else if nm == "--max-sort-group"@ {
        Some(
            match value_of(inl, "--max-sort-group"@, toks, i) {
                Err(m) => Err(m),
                Ok(p) => match count_arg_result(p.0, "--max-sort-group"@, MAX_SORT_GROUP_MIN as nat, MAX_SORT_GROUP_MAX as nat) {
                    Ok(x) => Ok((DecodeView { max_sort_group: Some(x), ..v }, p.1)),
                    Err(m) => Err(m),
                },
            },
        )
    } else if nm == "--delta-scope"@ {
        Some(
            match value_of(inl, "--delta-scope"@, toks, i) {
                Err(m) => Err(m),
                Ok(p) => match delta_scope_result(p.0) {
                    Ok(x) => Ok((DecodeView { delta_scope: Some(x), ..v }, p.1)),
                    Err(m) => Err(m),
                },
            },
        )
    } else if nm == "--collapse-window-us"@ {
        Some(
            match value_of(inl, "--collapse-window-us"@, toks, i) {
                Err(m) => Err(m),
                Ok(p) => match collapse_window_result(p.0) {
                    Ok(x) => Ok((DecodeView { collapse_window_us: Some(x), ..v }, p.1)),
                    Err(m) => Err(m),
                },
            },
        )
    } else if nm == "--manifest"@ {
        Some(
            match value_of(inl, "--manifest"@, toks, i) {
                Err(m) => Err(m),
                Ok(p) => Ok((DecodeView { manifest: Some(p.0), ..v }, p.1)),
            },
        )
    } else if nm == "--glob"@ {
        Some(
            match value_of(inl, "--glob"@, toks, i) {
                Err(m) => Err(m),
                Ok(p) => Ok((DecodeView { glob: Some(p.0), ..v }, p.1)),
            },
        )
    } else {
        None
    }
}

/// The filter flags: each takes one comma-separated value whose items are
/// appended to its list; `None` for any other flag name.
#[verifier::opaque]
pub open spec fn filter_flag(v: DecodeView, nm: Seq<char>, inl: Option<Seq<char>>, toks: Seq<Seq<char>>, i: int) -> Option<Result<(DecodeView, int), Seq<char>>> {
    if nm == "--exclude-types"@ {
        Some(
            match value_of(inl, "--exclude-types"@, toks, i) {
                Err(m) => Err(m),
                Ok(p) => match type_items(csv_items(p.0), csv_items(p.0).len() as int) {
                    Ok(x) => Ok((DecodeView { exclude_types: v.exclude_types + x, ..v }, p.1)),
                    Err(m) => Err(m),
                },
            },
        )
    } else if nm == "--include-types"@ {
        Some(
            match value_of(inl, "--include-types"@, toks, i) {
                Err(m) => Err(m),
                Ok(p) => match type_items(csv_items(p.0), csv_items(p.0).len() as int) {
                    Ok(x) => Ok((DecodeView { include_types: v.include_types + x, ..v }, p.1)),
                    Err(m) => Err(m),
                },
            },
        )
    } else if nm == "--exclude-rts"@ {
        Some(
            match value_of(inl, "--exclude-rts"@, toks, i) {
                Err(m) => Err(m),
                Ok(p) => match u8_items(csv_items(p.0), "--exclude-rts"@, csv_items(p.0).len() as int) {
                    Ok(x) => Ok((DecodeView { exclude_rts: v.exclude_rts + x, ..v }, p.1)),
                    Err(m) => Err(m),
                },
            },
        )
    } else if nm == "--include-rts"@ {
        Some(
            match value_of(inl, "--include-rts"@, toks, i) {
                Err(m) => Err(m),
                Ok(p) => match u8_items(csv_items(p.0), "--include-rts"@, csv_items(p.0).len() as int) {
                    Ok(x) => Ok((DecodeView { include_rts: v.include_rts + x, ..v }, p.1)),
                    Err(m) => Err(m),
                },
            },
        )
    } else if nm == "--exclude-buses"@ {
        Some(
            match value_of(inl, "--exclude-buses"@, toks, i) {
                Err(m) => Err(m),
                Ok(p) => match bus_items(csv_items(p.0), csv_items(p.0).len() as int) {
                    Ok(x) => Ok((DecodeView { exclude_buses: v.exclude_buses + x, ..v }, p.1)),
                    Err(m) => Err(m),
                },
            },
        )
    } else if nm == "--include-buses"@ {
        Some(
            match value_of(inl, "--include-buses"@, toks, i) {
                Err(m) => Err(m),
                Ok(p) => match bus_items(csv_items(p.0), csv_items(p.0).len() as int) {
                    Ok(x) => Ok((DecodeView { include_buses: v.include_buses + x, ..v }, p.1)),
                    Err(m) => Err(m),
                },
            },
        )
    } else if nm == "--exclude-subaddresses"@ {
        Some(
            match value_of(inl, "--exclude-subaddresses"@, toks, i) {
                Err(m) => Err(m),
                Ok(p) => match u8_items(csv_items(p.0), "--exclude-subaddresses"@, csv_items(p.0).len() as int) {
                    Ok(x) => Ok((DecodeView { exclude_subaddresses: v.exclude_subaddresses + x, ..v }, p.1)),
                    Err(m) => Err(m),
                },
            },
        )
    } else if nm == "--include-subaddresses"@ {
        Some(
            match value_of(inl, "--include-subaddresses"@, toks, i) {
                Err(m) => Err(m),
                Ok(p) => match u8_items(csv_items(p.0), "--include-subaddresses"@, csv_items(p.0).len() as int) {
                    Ok(x) => Ok((DecodeView { include_subaddresses: v.include_subaddresses + x, ..v }, p.1)),
                    Err(m) => Err(m),
                },
            },
        )
    } else {
        None
    }
}

fn decode_scalar_flag(args: &mut DecodeArgs, a: &Arg, tokens: &Vec<String>, i: usize) -> (r: Option<Result<usize, String>>)
    requires
        i < tokens.len(),
    ensures
        match scalar_flag(old(args)@, a.name@, opt_view(a.inline), token_views(tokens@), i as int) {
            None => r is None && final(args)@ == old(args)@,
            Some(Ok(p)) => (r matches Some(Ok(j)) && j == p.1) && final(args)@ == p.0,
            Some(Err(m)) => r matches Some(Err(e)) && e@ == m,
        },
        r matches Some(Ok(j)) ==> i < j <= tokens.len(),
{
    reveal(scalar_flag);
    let nm = a.name.as_str();
    if crate::text::str_eq(nm, "-o") || crate::text::str_eq(nm, "--output") {
        return Some(
            match take_value(a, "--output", tokens, i) {
                Err(e) => Err(e),
                Ok((val, j)) => {
                    args.output = Some(val);
                    Ok(j)
                },
            },
        );
    }
    if crate::text::str_eq(nm, "--time-format") {
        return Some(
            match take_value(a, "--time-format", tokens, i) {
                Err(e) => Err(e),
                Ok((val, j)) => match parse_time_format_arg(val.as_str()) {
                    Ok(x) => {
                        args.time_format = Some(x);
                        Ok(j)
                    },
                    Err(e) => Err(e),
                },
            },
        );
    }
    if crate::text::str_eq(nm, "--detect-records") {
        return Some(
            match take_value(a, "--detect-records", tokens, i) {
                Err(e) => Err(e),
                Ok((val, j)) => match parse_detect_records(val.as_str()) {
                    Ok(x) => {
                        args.detect_records = Some(x);
                        Ok(j)
                    },
                    Err(e) => Err(e),
                },
            },
        );
    }
    if crate::text::str_eq(nm, "--lookahead-records") {
        return Some(
            match take_value(a, "--lookahead-records", tokens, i) {
                Err(e) => Err(e),
                Ok((val, j)) => match parse_lookahead_records(val.as_str()) {
                    Ok(x) => {
                        args.lookahead_records = Some(x);
                        Ok(j)
                    },
                    Err(e) => Err(e),
                },
            },
        );
    }
    if crate::text::str_eq(nm, "--standard-tick-rate-hz") {
        return Some(
            match take_value(a, "--standard-tick-rate-hz", tokens, i) {
                Err(e) => Err(e),
                Ok((val, j)) => {
                    args.standard_tick_rate_hz = Some(val);
                    Ok(j)
                },
            },
        );
    }
    if crate::text::str_eq(nm, "--format") {
        return Some(
            match take_value(a, "--format", tokens, i) {
                Err(e) => Err(e),
                Ok((val, j)) => {
                    args.output_format = Some(val);
                    Ok(j)
                },
            },
        );
    }
    if crate::text::str_eq(nm, "--mux-delimiter") {
        return Some(
            match take_value(a, "--mux-delimiter", tokens, i) {
                Err(e) => Err(e),
                Ok((val, j)) => match parse_mux_delimiter(val.as_str()) {
                    Ok(x) => {
                        args.mux_delimiter = Some(x);
                        Ok(j)
                    },
                    Err(e) => Err(e),
                },
            },
        );
    }
    if crate::text::str_eq(nm, "--mux-field") {
        return Some(
            match take_value(a, "--mux-field", tokens, i) {
                Err(e) => Err(e),
                Ok((val, j)) => match parse_mux_field(val.as_str()) {
                    Ok(x) => {
                        args.mux_field = Some(x);
                        Ok(j)
                    },
                    Err(e) => Err(e),
                },
            },
        );
    }
    if crate::text::str_eq(nm, "--max-sort-group") {
        return Some(
            match take_value(a, "--max-sort-group", tokens, i) {
                Err(e) => Err(e),
                Ok((val, j)) => match parse_max_sort_group(val.as_str()) {
                    Ok(x) => {
                        args.max_sort_group = Some(x);
                        Ok(j)
                    },
                    Err(e) => Err(e),
                },
            },
        );
    }
    if crate::text::str_eq(nm, "--delta-scope") {
        return Some(
            match take_value(a, "--delta-scope", tokens, i) {
                Err(e) => Err(e),
                Ok((val, j)) => match parse_delta_scope(val.as_str()) {
                    Ok(x) => {
                        args.delta_scope = Some(x);
                        Ok(j)
                    },
                    Err(e) => Err(e),
                },
            },
        );
    }
    if crate::text::str_eq(nm, "--collapse-window-us") {
        return Some(
            match take_value(a, "--collapse-window-us", tokens, i) {
                Err(e) => Err(e),
                Ok((val, j)) => match parse_collapse_window_us(val.as_str()) {
                    Ok(x) => {
                        args.collapse_window_us = Some(x);
                        Ok(j)
                    },
                    Err(e) => Err(e),
                },
            },
        );
    }
    if crate::text::str_eq(nm, "--manifest") {
        return Some(
            match take_value(a, "--manifest", tokens, i) {
                Err(e) => Err(e),
                Ok((val, j)) => {
                    args.manifest = Some(val);
                    Ok(j)
                },
            },
        );
    }
    if crate::text::str_eq(nm, "--glob") {
        return Some(
            match take_value(a, "--glob", tokens, i) {
                Err(e) => Err(e),
                Ok((val, j)) => {
                    args.glob = Some(val);
                    Ok(j)
                },
            },
        );
    }
    None
}

fn decode_filter_flag(args: &mut DecodeArgs, a: &Arg, tokens: &Vec<String>, i: usize) -> (r: Option<Result<usize, String>>)
    requires
        i < tokens.len(),
    ensures
        match filter_flag(old(args)@, a.name@, opt_view(a.inline), token_views(tokens@), i as int) {
            None => r is None && final(args)@ == old(args)@,
            Some(Ok(p)) => (r matches Some(Ok(j)) && j == p.1) && final(args)@ == p.0,
            Some(Err(m)) => r matches Some(Err(e)) && e@ == m,
        },
        r matches Some(Ok(j)) ==> i < j <= tokens.len(),
{
    reveal(filter_flag);
    let nm = a.name.as_str();
    if crate::text::str_eq(nm, "--exclude-types") {
        return Some(
            match take_value(a, "--exclude-types", tokens, i) {
                Err(e) => Err(e),
                Ok((val, j)) => match push_type_items(&mut args.exclude_types, val.as_str()) {
                    Ok(()) => Ok(j),
                    Err(e) => Err(e),
                },
            },
        );
    }
    if crate::text::str_eq(nm, "--include-types") {
        return Some(
            match take_value(a, "--include-types", tokens, i) {
                Err(e) => Err(e),
                Ok((val, j)) => match push_type_items(&mut args.include_types, val.as_str()) {
                    Ok(()) => Ok(j),
                    Err(e) => Err(e),
                },
            },
        );
    }
    if crate::text::str_eq(nm, "--exclude-rts") {
        return Some(
            match take_value(a, "--exclude-rts", tokens, i) {
                Err(e) => Err(e),
                Ok((val, j)) => match push_u8_items(&mut args.exclude_rts, val.as_str(), "--exclude-rts") {
                    Ok(()) => Ok(j),
                    Err(e) => Err(e),
                },
            },
        );
    }
    if crate::text::str_eq(nm, "--include-rts") {
        return Some(
            match take_value(a, "--include-rts", tokens, i) {
                Err(e) => Err(e),
                Ok((val, j)) => match push_u8_items(&mut args.include_rts, val.as_str(), "--include-rts") {
                    Ok(()) => Ok(j),
                    Err(e) => Err(e),
                },
            },
        );
    }
    if crate::text::str_eq(nm, "--exclude-buses") {
        return Some(
            match take_value(a, "--exclude-buses", tokens, i) {
                Err(e) => Err(e),
                Ok((val, j)) => match push_bus_items(&mut args.exclude_buses, val.as_str()) {
                    Ok(()) => Ok(j),
                    Err(e) => Err(e),
                },
            },
        );
    }
    if crate::text::str_eq(nm, "--include-buses") {
        return Some(
            match take_value(a, "--include-buses", tokens, i) {
                Err(e) => Err(e),
                Ok((val, j)) => match push_bus_items(&mut args.include_buses, val.as_str()) {
                    Ok(()) => Ok(j),
                    Err(e) => Err(e),
                },
            },
        );
    }
    if crate::text::str_eq(nm, "--exclude-subaddresses") {
        return Some(
            match take_value(a, "--exclude-subaddresses", tokens, i) {
                Err(e) => Err(e),
                Ok((val, j)) => match push_u8_items(&mut args.exclude_subaddresses, val.as_str(), "--exclude-subaddresses") {
                    Ok(()) => Ok(j),
                    Err(e) => Err(e),
                },
            },
        );
    }
    if crate::text::str_eq(nm, "--include-subaddresses") {
        return Some(
            match take_value(a, "--include-subaddresses", tokens, i) {
                Err(e) => Err(e),
                Ok((val, j)) => match push_u8_items(&mut args.include_subaddresses, val.as_str(), "--include-subaddresses") {
                    Ok(()) => Ok(j),
                    Err(e) => Err(e),
                },
            },
        );
    }
    None
}

/// The flags that take no value.
pub open spec fn bare_flag(v: DecodeView, nm: Seq<char>) -> Option<DecodeView> {
    if nm == "--separate-errors"@ {
        Some(DecodeView { separate_errors: true, ..v })
    } else if nm == "--no-clobber"@ {
        Some(DecodeView { no_clobber: true, ..v })
    } else if nm == "--allow-partial"@ {
        Some(DecodeView { allow_partial: true, ..v })
    } else if nm == "--strict"@ {
        Some(DecodeView { strict: Some(true), ..v })
    } else if nm == "--no-mux"@ {
        Some(DecodeView { no_mux: true, ..v })
    } else if nm == "--collapse-duplicates"@ {
        Some(DecodeView { collapse_duplicates: true, ..v })
    } else {
        None
    }
}

fn decode_bare_flag(args: &mut DecodeArgs, nm: &str) -> (b: bool)
    ensures
        match bare_flag(old(args)@, nm@) {
            Some(w) => b && final(args)@ == w,
            None => !b && final(args)@ == old(args)@,
        },
{
    if crate::text::str_eq(nm, "--separate-errors") {
        args.separate_errors = true;
    } else if crate::text::str_eq(nm, "--no-clobber") {
        args.no_clobber = true;
    } else if crate::text::str_eq(nm, "--allow-partial") {
        args.allow_partial = true;
    } else if crate::text::str_eq(nm, "--strict") {
        args.strict = Some(true);
    } else if crate::text::str_eq(nm, "--no-mux") {
        args.no_mux = true;
    } else if crate::text::str_eq(nm, "--collapse-duplicates") {
        args.collapse_duplicates = true;
    } else {
        return false;
    }
    true
}

/// The model of [`ParseError`].
pub enum ArgsError {
    Help,
    Usage(Seq<char>),
}

/// One `decode` token at `i`: a flag with or without its value, help, an
/// unknown option, or an input path; the arguments after it and the index
/// of the next token.
#[verifier::opaque]
pub open spec fn decode_token(v: DecodeView, toks: Seq<Seq<char>>, i: int) -> Result<(DecodeView, int), ArgsError> {
    let raw = toks[i];
    let nm = arg_name(raw);
    let inl = arg_inline(raw);
    match scalar_flag(v, nm, inl, toks, i) {
        Some(Ok(p)) => Ok(p),
        Some(Err(m)) => Err(ArgsError::Usage(m)),
        None => match filter_flag(v, nm, inl, toks, i) {
            Some(Ok(p)) => Ok(p),
            Some(Err(m)) => Err(ArgsError::Usage(m)),
            None => if inl is None && bare_flag(v, nm) is Some {
                Ok((bare_flag(v, nm).unwrap(), i + 1))
            } else if inl is None && (nm == "-h"@ || nm == "--help"@) {
                Err(ArgsError::Help)
            } else if nm.len() > 0 && nm[0] == '-' {
                Err(ArgsError::Usage("unknown decode option: "@ + raw))
            } else {
                Ok((DecodeView { inputs: v.inputs.push(raw), ..v }, i + 1))
            },
        },
    }
}

/// The number of input methods given: positional paths, a manifest, a glob.
pub open spec fn input_methods(v: DecodeView) -> int {
    (if v.inputs.len() > 0 {
        1int
    } else {
        0int
    }) + (if v.manifest is Some {
        1int
    } else {
        0int
    }) + (if v.glob is Some {
        1int
    } else {
        0int
    })
}

/// `decode` needs exactly one input method.
pub open spec fn decode_finish(v: DecodeView) -> Result<DecodeView, ArgsError> {
    if input_methods(v) == 0 {
        Err(ArgsError::Usage("decode requires an input file (positional, --manifest, or --glob)"@))
    } else if input_methods(v) > 1 {
        Err(
            ArgsError::Usage(
                "decode accepts only one input method: positional paths, --manifest, or --glob — not a combination"@,
            ),
        )
    } else {
        Ok(v)
    }
}

/// `decode`'s arguments from token `i` on, starting from `v`.
pub open spec fn decode_run(v: DecodeView, toks: Seq<Seq<char>>, i: int) -> Result<DecodeView, ArgsError>
    decreases toks.len() - i,
{
    if i < 0 || i >= toks.len() {
        decode_finish(v)
    } else {
        match decode_token(v, toks, i) {
            Err(e) => Err(e),
            Ok(p) => if i < p.1 <= toks.len() {
                decode_run(p.0, toks, p.1)
            } else {
                Err(ArgsError::Help)
            },
        }
    }
}

/// The arguments `decode` collects from token `i` on, before the input
/// methods are checked.
pub open spec fn decode_scan(v: DecodeView, toks: Seq<Seq<char>>, i: int) -> Result<DecodeView, ArgsError>
    decreases toks.len() - i,
{
    if i < 0 || i >= toks.len() {
        Ok(v)
    } else {
        match decode_token(v, toks, i) {
            Err(e) => Err(e),
            Ok(p) => if i < p.1 <= toks.len() {
                decode_scan(p.0, toks, p.1)
            } else {
                Err(ArgsError::Help)
            },
        }
    }
}

proof fn lemma_run_is_scan_then_finish(v: DecodeView, toks: Seq<Seq<char>>, i: int)
    ensures
        decode_run(v, toks, i) == match decode_scan(v, toks, i) {
            Ok(w) => decode_finish(w),
            Err(e) => Err(e),
        },
    decreases toks.len() - i,
{
    if 0 <= i < toks.len() {
        match decode_token(v, toks, i) {
            Ok(p) => if i < p.1 <= toks.len() {
                lemma_run_is_scan_then_finish(p.0, toks, p.1);
            },
            Err(_) => {},
        }
    }
}

/// `decode` takes exactly one input method. Once every token has been read
/// without a refusal, no input method (positional paths, `--manifest`,
/// `--glob`) is refused as a missing input, more than one is refused as a
/// combination, and exactly one gives the collected arguments, holding
/// exactly one of the three. A token refused on the way is reported first.
pub proof fn law_one_input_method(toks: Seq<Seq<char>>)
    ensures
        decode_scan(empty_decode_view(), toks, 0) matches Err(e) ==> decode_run(empty_decode_view(), toks, 0)
            == Err::<DecodeView, ArgsError>(e),
        decode_scan(empty_decode_view(), toks, 0) matches Ok(w) ==> {
            &&& input_methods(w) == 0 ==> decode_run(empty_decode_view(), toks, 0) == Err::<
                DecodeView,
                ArgsError,
            >(ArgsError::Usage("decode requires an input file (positional, --manifest, or --glob)"@))
            &&& input_methods(w) > 1 ==> decode_run(empty_decode_view(), toks, 0) == Err::<
                DecodeView,
                ArgsError,
            >(
                ArgsError::Usage(
                    "decode accepts only one input method: positional paths, --manifest, or --glob — not a combination"@,
                ),
            )
            &&& input_methods(w) == 1 ==> {
                &&& decode_run(empty_decode_view(), toks, 0) == Ok::<DecodeView, ArgsError>(w)
                &&& (w.inputs.len() > 0) as int + (w.manifest is Some) as int + (w.glob is Some) as int
                    == 1
            }
        },
{
    lemma_run_is_scan_then_finish(empty_decode_view(), toks, 0);
}

/// One `decode` token (see [`decode_token`]); the index of the next token.
fn decode_one(args: &mut DecodeArgs, tokens: &Vec<String>, i: usize) -> (r: Result<usize, ParseError>)
    requires
        i < tokens.len(),
    ensures
        match decode_token(old(args)@, token_views(tokens@), i as int) {
            Ok(p) => (r matches Ok(j) && j == p.1) && final(args)@ == p.0 && i < p.1
                <= tokens.len(),
            Err(ArgsError::Help) => r matches Err(ParseError::HelpRequested),
            Err(ArgsError::Usage(m)) => r matches Err(ParseError::Other(e)) && e@ == m,
        },
{
    reveal(decode_token);
    let ghost toks = token_views(tokens@);
    let a = Arg::split(tokens[i].clone());
    assert(toks[i as int] == tokens[i as int]@);
    match decode_scalar_flag(args, &a, tokens, i) {
        Some(Ok(j)) => {
            return Ok(j);
        },
        Some(Err(e)) => {
            return Err(ParseError::Other(e));
        },
        None => {},
    }
    match decode_filter_flag(args, &a, tokens, i) {
        Some(Ok(j)) => {
            return Ok(j);
        },
        Some(Err(e)) => {
            return Err(ParseError::Other(e));
        },
        None => {},
    }
    if a.bare() && decode_bare_flag(args, a.name.as_str()) {
        return Ok(i + 1);
    }
    if a.bare() && (crate::text::str_eq(a.name.as_str(), "-h") || crate::text::str_eq(
        a.name.as_str(),
        "--help",
    )) {
        return Err(ParseError::HelpRequested);
    }
    let nm = chars_of(a.name.as_str());
    if nm.len() > 0 && nm[0] == '-' {
        let mut m = string_of("unknown decode option: ");
        push_str(&mut m, a.raw.as_str());
        assert(m@ =~= "unknown decode option: "@ + a.raw@);
        return Err(ParseError::Other(m));
    }
    let ghost before = token_views(args.inputs@);
    args.inputs.push(a.raw);
    assert(token_views(args.inputs@) =~= before.push(toks[i as int]));
    Ok(i + 1)
}

/// Parses `decode`'s arguments: every flag in either spelling, `-h`, and
/// the input paths, then checks that exactly one input method was given.
pub fn parse_decode(tokens: &Vec<String>) -> (r: Result<DecodeArgs, ParseError>)
    ensures
        match decode_run(empty_decode_view(), token_views(tokens@), 0) {
            Ok(v) => r matches Ok(a) && a@ == v,
            Err(ArgsError::Help) => r matches Err(ParseError::HelpRequested),
            Err(ArgsError::Usage(m)) => r matches Err(ParseError::Other(e)) && e@ == m,
        },
{
    let ghost toks = token_views(tokens@);
    let mut args = DecodeArgs::default();
    let mut i: usize = 0;
    while i < tokens.len()
        invariant
            i <= tokens.len(),
            toks == token_views(tokens@),
            decode_run(empty_decode_view(), toks, 0) == decode_run(args@, toks, i as int),
        decreases tokens.len() - i,
    {
        match decode_one(&mut args, tokens, i) {
            Ok(j) => {
                i = j;
            },
            Err(e) => {
                return Err(e);
            },
        }
    }
    let methods: u8 = (if args.inputs.len() > 0 {
        1u8
    } else {
        0u8
    }) + (if args.manifest.is_some() {
        1u8
    } else {
        0u8
    }) + (if args.glob.is_some() {
        1u8
    } else {
        0u8
    });
    if methods == 0 {
        return Err(
            ParseError::Other(
                string_of("decode requires an input file (positional, --manifest, or --glob)"),
            ),
        );
    }
    if methods > 1 {
        return Err(
            ParseError::Other(
                string_of(
                    "decode accepts only one input method: positional paths, --manifest, or --glob — not a combination",
                ),
            ),
        );
    }
    Ok(args)
}

// ── count and dump ────────────────────────────────────────────────────

/// `count`'s input path from token `i` on, given the one seen so far.
pub open spec fn count_run(path: Option<Seq<char>>, toks: Seq<Seq<char>>, i: int) -> Result<Seq<char>, ArgsError>
    decreases toks.len() - i,
{
    if i < 0 || i >= toks.len() {
        match path {
            Some(p) => Ok(p),
            None => Err(ArgsError::Usage("count requires an input file"@)),
        }
    } else {
        let raw = toks[i];
        let nm = arg_name(raw);
        if arg_inline(raw) is None && (nm == "-h"@ || nm == "--help"@) {
            Err(ArgsError::Help)
        } else if nm.len() > 0 && nm[0] == '-' {
            Err(ArgsError::Usage("unknown count option: "@ + raw))
        } else if path is Some {
            Err(ArgsError::Usage("unexpected positional argument: "@ + raw))
        } else {
            count_run(Some(raw), toks, i + 1)
        }
    }
}

fn starts_with_dash(s: &str) -> (b: bool)
    ensures
        b == (s@.len() > 0 && s@[0] == '-'),
{
    let v = chars_of(s);
    v.len() > 0 && v[0] == '-'
}

fn is_help(a: &Arg) -> (b: bool)
    ensures
        b == (a.inline is None && (a.name@ == "-h"@ || a.name@ == "--help"@)),
{
    a.bare() && (crate::text::str_eq(a.name.as_str(), "-h") || crate::text::str_eq(
        a.name.as_str(),
        "--help",
    ))
}

/// Parses `count`'s arguments: one input path, or `-h`.
pub fn parse_count(tokens: &Vec<String>) -> (r: Result<String, ParseError>)
    ensures
        match count_run(None, token_views(tokens@), 0) {
            Ok(p) => r matches Ok(x) && x@ == p,
            Err(ArgsError::Help) => r matches Err(ParseError::HelpRequested),
            Err(ArgsError::Usage(m)) => r matches Err(ParseError::Other(e)) && e@ == m,
        },
{
    let ghost toks = token_views(tokens@);
    let mut path: Option<String> = None;
    let mut i: usize = 0;
    while i < tokens.len()
        invariant
            i <= tokens.len(),
            toks == token_views(tokens@),
            count_run(None, toks, 0) == count_run(opt_view(path), toks, i as int),
        decreases tokens.len() - i,
    {
        let a = Arg::split(tokens[i].clone());
        assert(toks[i as int] == tokens[i as int]@);
        if is_help(&a) {
            return Err(ParseError::HelpRequested);
        }
        if starts_with_dash(a.name.as_str()) {
            let mut m = string_of("unknown count option: ");
            push_str(&mut m, a.raw.as_str());
            assert(m@ =~= "unknown count option: "@ + a.raw@);
            return Err(ParseError::Other(m));
        }
        if path.is_some() {
            let mut m = string_of("unexpected positional argument: ");
            push_str(&mut m, a.raw.as_str());
            assert(m@ =~= "unexpected positional argument: "@ + a.raw@);
            return Err(ParseError::Other(m));
        }
        path = Some(a.raw);
        i = i + 1;
    }
    match path {
        Some(p) => Ok(p),
        None => Err(ParseError::Other(string_of("count requires an input file"))),
    }
}

/// The arguments of `dump`.
#[derive(Debug)]
pub struct DumpArgs {
    pub input: String,
    pub raw: bool,
    pub offset: usize,
    pub length: Option<usize>,
    pub records: Option<u64>,
}

/// The model of `dump`'s arguments.
pub struct DumpView {
    pub input: Seq<char>,
    pub raw: bool,
    pub offset: usize,
    pub length: Option<usize>,
    pub records: Option<u64>,
}

impl View for DumpArgs {
    type V = DumpView;

    open spec fn view(&self) -> DumpView {
        DumpView {
            input: self.input@,
            raw: self.raw,
            offset: self.offset,
            length: self.length,
            records: self.records,
        }
    }
}

/// A numeric `dump` flag's value and the next token's index.
pub open spec fn dump_number(inl: Option<Seq<char>>, name: Seq<char>, toks: Seq<Seq<char>>, i: int) -> Result<(usize, int), Seq<char>> {
    match value_of(inl, name, toks, i) {
        Err(m) => Err(m),
        Ok(p) => match int_value_result(p.0, name) {
            Ok(n) => Ok((n, p.1)),
            Err(m) => Err(m),
        },
    }
}

/// `dump`'s arguments from token `i` on, given those so far and whether
/// the input path was seen.
pub open spec fn dump_run(v: DumpView, seen: bool, toks: Seq<Seq<char>>, i: int) -> Result<DumpView, ArgsError>
    decreases toks.len() - i,
{
    if i < 0 || i >= toks.len() {
        if seen {
            Ok(v)
        } else {
            Err(ArgsError::Usage("dump requires an input file"@))
        }
    } else {
        let raw = toks[i];
        let nm = arg_name(raw);
        let inl = arg_inline(raw);
        if inl is None && nm == "--raw"@ {
            dump_run(DumpView { raw: true, ..v }, seen, toks, i + 1)
        } else if nm == "--offset"@ || nm == "--length"@ || nm == "--records"@ {
            match dump_number(inl, nm, toks, i) {
                Err(m) => Err(ArgsError::Usage(m)),
                Ok(p) => if i < p.1 <= toks.len() {
                    dump_run(
                        if nm == "--offset"@ {
                            DumpView { offset: p.0, ..v }
                        } else if nm == "--length"@ {
                            DumpView { length: Some(p.0), ..v }
                        } else {
                            DumpView { records: Some(p.0 as u64), ..v }
                        },
                        seen,
                        toks,
                        p.1,
                    )
                } else {
                    Err(ArgsError::Help)
                },
            }
        } else if inl is None && (nm == "-h"@ || nm == "--help"@) {
            Err(ArgsError::Help)
        } else if nm.len() > 0 && nm[0] == '-' {
            Err(ArgsError::Usage("unknown dump option: "@ + raw))
        } else if seen {
            Err(ArgsError::Usage("unexpected positional argument: "@ + raw))
        } else {
            dump_run(DumpView { input: raw, ..v }, true, toks, i + 1)
        }
    }
}

/// Nothing given yet.
pub open spec fn empty_dump_view() -> DumpView {
    DumpView { input: Seq::empty(), raw: false, offset: 0, length: None, records: None }
}

/// Parses `dump`'s arguments: one input path, `--raw`, and the counts
/// `--offset`, `--length` and `--records` in decimal or `0x` hexadecimal.
pub fn parse_dump(tokens: &Vec<String>) -> (r: Result<DumpArgs, ParseError>)
    ensures
        match dump_run(empty_dump_view(), false, token_views(tokens@), 0) {
            Ok(v) => r matches Ok(a) && a@ == v,
            Err(ArgsError::Help) => r matches Err(ParseError::HelpRequested),
            Err(ArgsError::Usage(m)) => r matches Err(ParseError::Other(e)) && e@ == m,
        },
{
    let ghost toks = token_views(tokens@);
    let mut args = DumpArgs { input: String::new(), raw: false, offset: 0, length: None, records: None };
    assert(args@.input =~= Seq::<char>::empty());
    let mut seen = false;
    let mut i: usize = 0;
    while i < tokens.len()
        invariant
            i <= tokens.len(),
            toks == token_views(tokens@),
            dump_run(empty_dump_view(), false, toks, 0) == dump_run(args@, seen, toks, i as int),
        decreases tokens.len() - i,
    {
        let a = Arg::split(tokens[i].clone());
        assert(toks[i as int] == tokens[i as int]@);
        let nm = a.name.as_str();
        if a.bare() && crate::text::str_eq(nm, "--raw") {
            args.raw = true;
            i = i + 1;
            continue ;
        }
        let is_offset = crate::text::str_eq(nm, "--offset");
        let is_length = crate::text::str_eq(nm, "--length");
        let is_records = crate::text::str_eq(nm, "--records");
        if is_offset || is_length || is_records {
            let (val, j) = match take_value(&a, nm, tokens, i) {
                Ok(p) => p,
                Err(e) => {
                    return Err(ParseError::Other(e));
                },
            };
            let n = match parse_int_value(val.as_str(), nm) {
                Ok(n) => n,
                Err(e) => {
                    return Err(ParseError::Other(e));
                },
            };
            if is_offset {
                args.offset = n;
            } else if is_length {
                args.length = Some(n);
            } else {
                args.records = Some(n as u64);
            }
            i = j;
            continue ;
        }
        if is_help(&a) {
            return Err(ParseError::HelpRequested);
        }
        if starts_with_dash(nm) {
            let mut m = string_of("unknown dump option: ");
            push_str(&mut m, a.raw.as_str());
            assert(m@ =~= "unknown dump option: "@ + a.raw@);
            return Err(ParseError::Other(m));
        }
        if seen {
            let mut m = string_of("unexpected positional argument: ");
            push_str(&mut m, a.raw.as_str());
            assert(m@ =~= "unexpected positional argument: "@ + a.raw@);
            return Err(ParseError::Other(m));
        }
        args.input = a.raw;
        seen = true;
        i = i + 1;
    }
    if !seen {
        return Err(ParseError::Other(string_of("dump requires an input file")));
    }
    Ok(args)
}

// ── Global flags and subcommands ──────────────────────────────────────

/// The version flag: `-V`, `-v`, or `--version` in any ASCII case.
pub open spec fn spec_version_flag(s: Seq<char>) -> bool {
    s == "-V"@ || s == "-v"@ || (s.len() >= 2 && s[0] == '-' && s[1] == '-' && lower_seq(
        s.skip(2),
    ) == "version"@)
}

/// Whether `arg` asks for the version.
pub fn is_version_flag(arg: &str) -> (b: bool)
    ensures
        b == spec_version_flag(arg@),
{
    if crate::text::str_eq(arg, "-V") || crate::text::str_eq(arg, "-v") {
        return true;
    }
    let v = chars_of(arg);
    if v.len() >= 2 && v[0] == '-' && v[1] == '-' {
        let rest = copy_range(&v, 2, v.len());
        assert(rest@ =~= v@.skip(2));
        let low = crate::text::lowered(string_from_chars(&rest).as_str());
        same_chars(&low, "version")
    } else {
        false
    }
}

/// The options before the subcommand.
#[derive(Debug)]
pub struct GlobalArgs {
    pub log_level: Option<String>,
    pub config: Option<String>,
}

/// Why the global options ended the run before a subcommand: help or the
/// version was asked for, no subcommand was given, or a usage error.
#[derive(Debug)]
pub enum GlobalExit {
    Help,
    Version,
    NoCommand,
    Usage(String),
}

/// The model of [`GlobalExit`].
pub enum GlobalEnd {
    Help,
    Version,
    NoCommand,
    Usage(Seq<char>),
}

/// The global options from token `i` on, given the level and configuration
/// path so far: the subcommand token and the index after it, or why the
/// run ends.
pub open spec fn global_run(level: Option<Seq<char>>, config: Option<Seq<char>>, toks: Seq<Seq<char>>, i: int) -> Result<(Option<Seq<char>>, Option<Seq<char>>, Seq<char>, int), GlobalEnd>
    decreases toks.len() - i,
{
    if i < 0 || i >= toks.len() {
        Err(GlobalEnd::NoCommand)
    } else {
        let raw = toks[i];
        let nm = arg_name(raw);
        let inl = arg_inline(raw);
        if inl is None && (nm == "-h"@ || nm == "--help"@) {
            Err(GlobalEnd::Help)
        } else if inl is None && spec_version_flag(nm) {
            Err(GlobalEnd::Version)
        } else if nm == "--log-level"@ {
            match value_of(inl, "--log-level"@, toks, i) {
                Err(_) => Err(GlobalEnd::Usage("--log-level requires a value"@)),
                Ok(p) => if i < p.1 <= toks.len() {
                    global_run(Some(p.0), config, toks, p.1)
                } else {
                    Err(GlobalEnd::NoCommand)
                },
            }
        } else if nm == "--config"@ {
            match value_of(inl, "--config"@, toks, i) {
                Err(_) => Err(GlobalEnd::Usage("--config requires a path"@)),
                Ok(p) => if i < p.1 <= toks.len() {
                    global_run(level, Some(p.0), toks, p.1)
                } else {
                    Err(GlobalEnd::NoCommand)
                },
            }
        } else {
            Ok((level, config, raw, i + 1))
        }
    }
}

/// Reads the global options: `--log-level`, `--config`, `-h`, the version
/// flag, each in either spelling. Returns the subcommand token and the
/// index of the token after it.
pub fn parse_global_flags(tokens: &Vec<String>, globals: &mut GlobalArgs) -> (r: Result<(String, usize), GlobalExit>)
    ensures
        match global_run(
            opt_view(old(globals).log_level),
            opt_view(old(globals).config),
            token_views(tokens@),
            0,
        ) {
            Ok(g) => r matches Ok(p) && p.0@ == g.2 && p.1 == g.3 && opt_view(
                final(globals).log_level,
            ) == g.0 && opt_view(final(globals).config) == g.1,
            Err(GlobalEnd::Help) => r matches Err(GlobalExit::Help),
            Err(GlobalEnd::Version) => r matches Err(GlobalExit::Version),
            Err(GlobalEnd::NoCommand) => r matches Err(GlobalExit::NoCommand),
            Err(GlobalEnd::Usage(m)) => r matches Err(GlobalExit::Usage(e)) && e@ == m,
        },
{
    let ghost toks = token_views(tokens@);
    let ghost want = global_run(
        opt_view(globals.log_level),
        opt_view(globals.config),
        toks,
        0,
    );
    let mut i: usize = 0;
    loop
        invariant
            i <= tokens.len(),
            toks == token_views(tokens@),
            want == global_run(opt_view(globals.log_level), opt_view(globals.config), toks, i as int),
            want == global_run(
                opt_view(old(globals).log_level),
                opt_view(old(globals).config),
                toks,
                0,
            ),
        decreases tokens.len() - i,
    {
        if i >= tokens.len() {
            return Err(GlobalExit::NoCommand);
        }
        let a = Arg::split(tokens[i].clone());
        assert(toks[i as int] == tokens[i as int]@);
        let nm = a.name.as_str();
        if is_help(&a) {
            return Err(GlobalExit::Help);
        }
        if a.bare() && is_version_flag(nm) {
            return Err(GlobalExit::Version);
        }
        if crate::text::str_eq(nm, "--log-level") {
            match take_value(&a, "--log-level", tokens, i) {
                Ok((v, j)) => {
                    globals.log_level = Some(v);
                    i = j;
                },
                Err(_) => {
                    return Err(GlobalExit::Usage(string_of("--log-level requires a value")));
                },
            }
        } else if crate::text::str_eq(nm, "--config") {
            match take_value(&a, "--config", tokens, i) {
                Ok((v, j)) => {
                    globals.config = Some(v);
                    i = j;
                },
                Err(_) => {
                    return Err(GlobalExit::Usage(string_of("--config requires a path")));
                },
            }
        } else {
            return Ok((a.raw, i + 1));
        }
    }
}

/// A parsed subcommand.
#[derive(Debug)]
pub enum Command {
    Decode(DecodeArgs),
    Count(String),
    Dump(DumpArgs),
}

/// Why a subcommand was not run: help was printed, or a usage error.
#[derive(Debug)]
pub enum CommandExit {
    Help,
    Usage(String),
}

fn to_command_exit(e: ParseError) -> (x: CommandExit)
    ensures
        match e {
            ParseError::HelpRequested => x is Help,
            ParseError::Other(m) => x matches CommandExit::Usage(n) && n@ == m@,
        },
{
    match e {
        ParseError::HelpRequested => CommandExit::Help,
        ParseError::Other(m) => CommandExit::Usage(m),
    }
}

/// Dispatches the subcommand token `cmd` on the tokens after it: `decode`,
/// `count` and `dump` parse their arguments, `-h` asks for help, anything
/// else is an unknown command.
pub fn parse_subcommand(cmd: &str, rest: &Vec<String>) -> (r: Result<Command, CommandExit>)
    ensures
        cmd@ == "decode"@ ==> match decode_run(empty_decode_view(), token_views(rest@), 0) {
            Ok(v) => r matches Ok(Command::Decode(a)) && a@ == v,
            Err(ArgsError::Help) => r matches Err(CommandExit::Help),
            Err(ArgsError::Usage(m)) => r matches Err(CommandExit::Usage(e)) && e@ == m,
        },
        cmd@ != "decode"@ && cmd@ == "count"@ ==> match count_run(None, token_views(rest@), 0) {
            Ok(p) => r matches Ok(Command::Count(x)) && x@ == p,
            Err(ArgsError::Help) => r matches Err(CommandExit::Help),
            Err(ArgsError::Usage(m)) => r matches Err(CommandExit::Usage(e)) && e@ == m,
        },
        cmd@ != "decode"@ && cmd@ != "count"@ && cmd@ == "dump"@ ==> match dump_run(
            empty_dump_view(),
            false,
            token_views(rest@),
            0,
        ) {
            Ok(v) => r matches Ok(Command::Dump(a)) && a@ == v,
            Err(ArgsError::Help) => r matches Err(CommandExit::Help),
            Err(ArgsError::Usage(m)) => r matches Err(CommandExit::Usage(e)) && e@ == m,
        },
        cmd@ != "decode"@ && cmd@ != "count"@ && cmd@ != "dump"@ && (cmd@ == "-h"@ || cmd@
            == "--help"@) ==> r matches Err(CommandExit::Help),
        cmd@ != "decode"@ && cmd@ != "count"@ && cmd@ != "dump"@ && cmd@ != "-h"@ && cmd@
            != "--help"@ ==> (r matches Err(CommandExit::Usage(e)) && e@ == "Unknown command: "@
            + debug_str(cmd@)),
{
    if crate::text::str_eq(cmd, "decode") {
        match parse_decode(rest) {
            Ok(a) => Ok(Command::Decode(a)),
            Err(e) => Err(to_command_exit(e)),
        }
    } else if crate::text::str_eq(cmd, "count") {
        match parse_count(rest) {
            Ok(p) => Ok(Command::Count(p)),
            Err(e) => Err(to_command_exit(e)),
        }
    } else if crate::text::str_eq(cmd, "dump") {
        match parse_dump(rest) {
            Ok(a) => Ok(Command::Dump(a)),
            Err(e) => Err(to_command_exit(e)),
        }
    } else if crate::text::str_eq(cmd, "-h") || crate::text::str_eq(cmd, "--help") {
        Err(CommandExit::Help)
    } else {
        let mut m = string_of("Unknown command: ");
        push_str(&mut m, debug_text(cmd).as_str());
        assert(m@ =~= "Unknown command: "@ + debug_str(cmd@));
        Err(CommandExit::Usage(m))
    }
}

// ── Log levels ────────────────────────────────────────────────────────

/// A logging threshold; `Off` silences everything.
#[derive(Debug, Clone, Copy, PartialEq, Eq, Structural)]
pub enum Level {
    Debug,
    Info,
    Warn,
    Error,
    Off,
}

/// The level a name gives, ignoring ASCII case: `WARN` and `WARNING` are
/// one level, and `CRITICAL` silences like `OFF`.
pub open spec fn level_named(s: Seq<char>) -> Option<Level> {
    let u = crate::text::upper_seq(s);
    if u == "DEBUG"@ {
        Some(Level::Debug)
    } else if u == "INFO"@ {
        Some(Level::Info)
    } else if u == "WARNING"@ || u == "WARN"@ {
        Some(Level::Warn)
    } else if u == "ERROR"@ {
        Some(Level::Error)
    } else if u == "CRITICAL"@ || u == "OFF"@ {
        Some(Level::Off)
    } else {
        None
    }
}

/// Parses a level name.
pub fn parse_level(s: &str) -> (r: Option<Level>)
    ensures
        r == level_named(s@),
{
    let u = crate::text::uppered(s);
    if same_chars(&u, "DEBUG") {
        Some(Level::Debug)
    } else if same_chars(&u, "INFO") {
        Some(Level::Info)
    } else if same_chars(&u, "WARNING") || same_chars(&u, "WARN") {
        Some(Level::Warn)
    } else if same_chars(&u, "ERROR") {
        Some(Level::Error)
    } else if same_chars(&u, "CRITICAL") || same_chars(&u, "OFF") {
        Some(Level::Off)
    } else {
        None
    }
}

/// The message for a level name that names no level; `source` says where
/// the name came from.
pub open spec fn bad_level_msg(source: Seq<char>, value: Seq<char>) -> Seq<char> {
    "invalid "@ + source + ": "@ + debug_str(value)
        + "; valid: DEBUG, INFO, WARNING, WARN, ERROR, CRITICAL, OFF"@
}

/// Checks a log level name; `source` names where it came from.
pub fn apply_log_level(source: &str, value: &str) -> (r: Result<(), String>)
    ensures
        match level_named(value@) {
            Some(_) => r is Ok,
            None => r matches Err(e) && e@ == bad_level_msg(source@, value@),
        },
{
    match parse_level(value) {
        Some(_) => Ok(()),
        None => {
            let mut m = string_of("invalid ");
            push_str(&mut m, source);
            push_str(&mut m, ": ");
            push_str(&mut m, debug_text(value).as_str());
            push_str(&mut m, "; valid: DEBUG, INFO, WARNING, WARN, ERROR, CRITICAL, OFF");
            assert(m@ =~= bad_level_msg(source@, value@));
            Err(m)
        },
    }
}

// ── Subcommand failures ───────────────────────────────────────────────

/// A subcommand failure and the exit code it maps to.
#[derive(Debug)]
pub struct CliError {
    pub code: u8,
    pub message: String,
}

/// The exit code of a reader error: a wrong-file rejection is "no records",
/// anything else a runtime error.
pub open spec fn decode_error_code(k: MieErrorKind) -> u8 {
    match k {
        MieErrorKind::NoValidRecords | MieErrorKind::HomogeneousPayload
        | MieErrorKind::TimestampFormatMismatch => EXIT_NO_RECORDS,
        _ => EXIT_RUNTIME,
    }
}

impl CliError {
    /// A runtime or decode failure.
    pub fn runtime(message: String) -> (e: CliError)
        ensures
            e.code == EXIT_RUNTIME,
            e.message@ == message@,
    {
        CliError { code: EXIT_RUNTIME, message }
    }

    /// A configuration failure.
    pub fn config(message: String) -> (e: CliError)
        ensures
            e.code == EXIT_CONFIG,
            e.message@ == message@,
    {
        CliError { code: EXIT_CONFIG, message }
    }

    /// A usage failure.
    pub fn usage(message: String) -> (e: CliError)
        ensures
            e.code == EXIT_USAGE,
            e.message@ == message@,
    {
        CliError { code: EXIT_USAGE, message }
    }

    /// A reader error, classed as `decode` classes it.
    pub fn from_decode_error(e: MieError) -> (c: CliError)
        ensures
            c.code == decode_error_code(spec_kind(e)),
            c.message@ == error_text(e),
    {
        let code = match e.kind() {
            MieErrorKind::NoValidRecords | MieErrorKind::HomogeneousPayload
            | MieErrorKind::TimestampFormatMismatch => EXIT_NO_RECORDS,
            _ => EXIT_RUNTIME,
        };
        CliError { code, message: e.message() }
    }
}

/// The outcome of `dump`: a closed output pipe is a clean end; any other
/// error is a runtime failure.
pub fn finish_dump(result: Result<(), MieError>) -> (r: Result<(), CliError>)
    ensures
        match result {
            Ok(()) => r is Ok,
            Err(e) => if e matches MieError::WriterError { source, .. }
                && source.kind == crate::error::IoKind::BrokenPipe {
                r is Ok
            } else {
                r matches Err(c) && c.code == EXIT_RUNTIME && c.message@ == error_text(e)
            },
        },
{
    match result {
        Ok(()) => Ok(()),
        Err(e) => {
            if e.is_broken_pipe() {
                Ok(())
            } else {
                Err(CliError::runtime(e.message()))
            }
        },
    }
}

/// The configuration a subcommand runs with, and the log level: the
/// configuration file's level, unless the command line gave one.
pub open spec fn config_outcome(level: Option<Seq<char>>, src: ConfigSource) -> Result<(ConfigView, Level), (u8, Seq<char>)> {
    match load_result(src) {
        Err(m) => Err((EXIT_CONFIG, m)),
        Ok(c) => match level_named(c.log_level) {
            None => Err((EXIT_CONFIG, bad_level_msg("[logging].level (in config)"@, c.log_level))),
            Some(cl) => match level {
                None => Ok((c, cl)),
                Some(l) => match level_named(l) {
                    Some(ll) => Ok((c, ll)),
                    None => Err((EXIT_USAGE, bad_level_msg("--log-level"@, l))),
                },
            },
        },
    }
}

/// Loads the configuration from `source` and settles the log level.
pub fn resolve_config(globals: &GlobalArgs, source: ConfigSource) -> (r: Result<(DecoderConfig, Level), CliError>)
    ensures
        match config_outcome(opt_view(globals.log_level), source) {
            Ok(p) => r matches Ok(q) && q.0@ == p.0 && q.1 == p.1,
            Err(p) => r matches Err(e) && e.code == p.0 && e.message@ == p.1,
        },
{
    let cfg = match load_config(source) {
        Ok(c) => c,
        Err(e) => {
            return Err(CliError::config(e.0));
        },
    };
    let config_level = match parse_level(cfg.log_level.as_str()) {
        Some(l) => l,
        None => {
            let m = match apply_log_level("[logging].level (in config)", cfg.log_level.as_str()) {
                Err(m) => m,
                Ok(()) => String::new(),
            };
            return Err(CliError::config(m));
        },
    };
    match &globals.log_level {
        None => Ok((cfg, config_level)),
        Some(l) => match parse_level(l.as_str()) {
            Some(lv) => Ok((cfg, lv)),
            None => {
                let m = match apply_log_level("--log-level", l.as_str()) {
                    Err(m) => m,
                    Ok(()) => String::new(),
                };
                Err(CliError::usage(m))
            },
        },
    }
}

fn copy_opt(o: &Option<String>) -> (r: Option<String>)
    ensures
        opt_view(r) == opt_view(*o),
{
    match o {
        Some(s) => Some(string_of(s.as_str())),
        None => None,
    }
}

/// The configuration overrides the `decode` flags give. A flag that only
/// switches something on gives an override only when present, so the
/// configuration file's value stands otherwise. The filter lists move into
/// the overrides, leaving them empty in `args`.
pub fn build_config_overrides(args: &mut DecodeArgs, log_level: Option<String>) -> (o: ConfigOverrides)
    ensures
        opt_view(o.log_level) == opt_view(log_level),
        o.time_format == old(args).time_format,
        o.strict == old(args).strict,
        o.error_mode == (if old(args).separate_errors {
            Some(ErrorMode::Separate)
        } else {
            None
        }),
        opt_view(o.output_format) == opt_view(old(args).output_format),
        o.no_clobber == (if old(args).no_clobber {
            Some(true)
        } else {
            None
        }),
        o.allow_partial == (if old(args).allow_partial {
            Some(true)
        } else {
            None
        }),
        o.detect_records == old(args).detect_records,
        o.lookahead_records == old(args).lookahead_records,
        opt_view(o.standard_tick_rate_hz) == opt_view(old(args).standard_tick_rate_hz),
        o.mux_enabled == (if old(args).no_mux {
            Some(false)
        } else {
            None
        }),
        opt_view(o.mux_delimiter) == opt_view(old(args).mux_delimiter),
        o.mux_field == old(args).mux_field,
        o.collapse_duplicates == (if old(args).collapse_duplicates {
            Some(true)
        } else {
            None
        }),
        o.collapse_window_us == old(args).collapse_window_us,
        o.delta_scope == old(args).delta_scope,
        o.max_sort_group == old(args).max_sort_group,
        o.exclude_types@ == old(args).exclude_types@,
        o.exclude_rts@ == old(args).exclude_rts@,
        o.exclude_buses@ == old(args).exclude_buses@,
        o.exclude_subaddresses@ == old(args).exclude_subaddresses@,
        o.include_types@ == old(args).include_types@,
        o.include_rts@ == old(args).include_rts@,
        o.include_buses@ == old(args).include_buses@,
        o.include_subaddresses@ == old(args).include_subaddresses@,
        final(args)@ == (DecodeView {
            exclude_types: Seq::empty(),
            exclude_rts: Seq::empty(),
            exclude_buses: Seq::empty(),
            exclude_subaddresses: Seq::empty(),
            include_types: Seq::empty(),
            include_rts: Seq::empty(),
            include_buses: Seq::empty(),
            include_subaddresses: Seq::empty(),
            ..old(args)@
        }),
{
    let mut exclude_types: Vec<u8> = Vec::new();
    std::mem::swap(&mut exclude_types, &mut args.exclude_types);
    let mut exclude_rts: Vec<u8> = Vec::new();
    std::mem::swap(&mut exclude_rts, &mut args.exclude_rts);
    let mut exclude_buses: Vec<Bus> = Vec::new();
    std::mem::swap(&mut exclude_buses, &mut args.exclude_buses);
    let mut exclude_subaddresses: Vec<u8> = Vec::new();
    std::mem::swap(&mut exclude_subaddresses, &mut args.exclude_subaddresses);
    let mut include_types: Vec<u8> = Vec::new();
    std::mem::swap(&mut include_types, &mut args.include_types);
    let mut include_rts: Vec<u8> = Vec::new();
    std::mem::swap(&mut include_rts, &mut args.include_rts);
    let mut include_buses: Vec<Bus> = Vec::new();
    std::mem::swap(&mut include_buses, &mut args.include_buses);
    let mut include_subaddresses: Vec<u8> = Vec::new();
    std::mem::swap(&mut include_subaddresses, &mut args.include_subaddresses);
    assert(args@.exclude_types =~= Seq::<u8>::empty());
    assert(args@.exclude_rts =~= Seq::<u8>::empty());
    assert(args@.exclude_buses =~= Seq::<Bus>::empty());
    assert(args@.exclude_subaddresses =~= Seq::<u8>::empty());
    assert(args@.include_types =~= Seq::<u8>::empty());
    assert(args@.include_rts =~= Seq::<u8>::empty());
    assert(args@.include_buses =~= Seq::<Bus>::empty());
    assert(args@.include_subaddresses =~= Seq::<u8>::empty());
    ConfigOverrides {
        log_level,
        time_format: args.time_format,
        strict: args.strict,
        error_mode: if args.separate_errors {
            Some(ErrorMode::Separate)
        } else {
            None
        },
        output_format: copy_opt(&args.output_format),
        no_clobber: if args.no_clobber {
            Some(true)
        } else {
            None
        },
        allow_partial: if args.allow_partial {
            Some(true)
        } else {
            None
        },
        detect_records: args.detect_records,
        lookahead_records: args.lookahead_records,
        standard_tick_rate_hz: copy_opt(&args.standard_tick_rate_hz),
        mux_enabled: if args.no_mux {
            Some(false)
        } else {
            None
        },
        mux_delimiter: copy_opt(&args.mux_delimiter),
        mux_field: args.mux_field,
        collapse_duplicates: if args.collapse_duplicates {
            Some(true)
        } else {
            None
        },
        collapse_window_us: args.collapse_window_us,
        delta_scope: args.delta_scope,
        max_sort_group: args.max_sort_group,
        exclude_types,
        exclude_rts,
        exclude_buses,
        exclude_subaddresses,
        include_types,
        include_rts,
        include_buses,
        include_subaddresses,
    }
}

// ── Inputs ────────────────────────────────────────────────────────────

/// Why an input set is refused: empty (with the method that gave it), or
/// larger than a merge takes.
pub open spec fn input_set_error(n: nat, manifest: Option<Seq<char>>, glob: Option<Seq<char>>) -> Option<Seq<char>> {
    if n == 0 {
        Some(
            match (manifest, glob) {
                (Some(m), _) => "manifest "@ + m + " contains no input paths"@,
                (_, Some(g)) => "--glob "@ + debug_str(g) + " matched no files"@,
                _ => "decode requires at least one input file"@,
            },
        )
    } else if n > MAX_MERGE_FILES {
        Some(
            "too many input files: "@ + dec(n) + " (maximum is "@ + dec(MAX_MERGE_FILES as nat)
                + "); split the set into smaller batches"@,
        )
    } else {
        None
    }
}

/// The input set of `decode`: `listed` when a manifest or glob gave the
/// paths, else the positional paths; refused when empty or over the merge
/// cap.
pub fn resolve_inputs(args: &DecodeArgs, listed: Option<Vec<String>>) -> (r: Result<Vec<String>, CliError>)
    ensures
        ({
            let paths = match listed {
                Some(l) => token_views(l@),
                None => token_views(args.inputs@),
            };
            match input_set_error(paths.len(), opt_view(args.manifest), opt_view(args.glob)) {
                Some(m) => r matches Err(e) && e.code == EXIT_USAGE && e.message@ == m,
                None => r matches Ok(v) && token_views(v@) == paths,
            }
        }),
{
    let paths: Vec<String> = match listed {
        Some(l) => l,
        None => {
            let mut v: Vec<String> = Vec::new();
            let mut k: usize = 0;
            while k < args.inputs.len()
                invariant
                    k <= args.inputs.len(),
                    token_views(v@) == token_views(args.inputs@).take(k as int),
                decreases args.inputs.len() - k,
            {
                let ghost before = token_views(v@);
                v.push(string_of(args.inputs[k].as_str()));
                assert(token_views(v@) =~= before.push(args.inputs@[k as int]@));
                assert(token_views(args.inputs@).take(k + 1) =~= token_views(args.inputs@).take(
                    k as int,
                ).push(args.inputs@[k as int]@));
                k = k + 1;
            }
            assert(token_views(args.inputs@).take(args.inputs@.len() as int) =~= token_views(
                args.inputs@,
            ));
            v
        },
    };
    if paths.len() == 0 {
        let m = match (&args.manifest, &args.glob) {
            (Some(m), _) => {
                let mut s = string_of("manifest ");
                push_str(&mut s, m.as_str());
                push_str(&mut s, " contains no input paths");
                assert(s@ =~= "manifest "@ + m@ + " contains no input paths"@);
                s
            },
            (_, Some(g)) => {
                let mut s = string_of("--glob ");
                push_str(&mut s, debug_text(g.as_str()).as_str());
                push_str(&mut s, " matched no files");
                assert(s@ =~= "--glob "@ + debug_str(g@) + " matched no files"@);
                s
            },
            _ => string_of("decode requires at least one input file"),
        };
        return Err(CliError::usage(m));
    }
    if paths.len() > MAX_MERGE_FILES {
        let mut s = string_of("too many input files: ");
        push_dec(&mut s, paths.len() as u64);
        push_str(&mut s, " (maximum is ");
        push_dec(&mut s, MAX_MERGE_FILES as u64);
        push_str(&mut s, "); split the set into smaller batches");
        assert(s@ =~= "too many input files: "@ + dec(paths@.len()) + " (maximum is "@ + dec(
            MAX_MERGE_FILES as nat,
        ) + "); split the set into smaller batches"@);
        return Err(CliError::usage(s));
    }
    Ok(paths)
}

/// Whether an input is the output: their canonical paths are equal as
/// paths when both have one, else the paths as given are.
pub open spec fn collides(out: Seq<char>, out_canon: Option<Seq<char>>, inp: Seq<char>, inp_canon: Option<Seq<char>>) -> bool {
    match (out_canon, inp_canon) {
        (Some(o), Some(i)) => std_path_eq(o, i),
        _ => std_path_eq(out, inp),
    }
}

/// Refuses a merge whose output path is one of its inputs. Each input comes
/// with its canonical path where the caller could resolve one.
pub fn check_output_collision(output: &str, output_canon: Option<String>, inputs: &Vec<(String, Option<String>)>) -> (r: Result<(), CliError>)
    ensures
        match r {
            Ok(()) => forall|k: int|
                0 <= k < inputs@.len() ==> !collides(
                    output@,
                    opt_view(output_canon),
                    (#[trigger] inputs@[k]).0@,
                    opt_view(inputs@[k].1),
                ),
            Err(e) => e.code == EXIT_RUNTIME && exists|k: int|
                0 <= k < inputs@.len() && collides(
                    output@,
                    opt_view(output_canon),
                    (#[trigger] inputs@[k]).0@,
                    opt_view(inputs@[k].1),
                ) && (forall|j: int|
                    0 <= j < k ==> !collides(
                        output@,
                        opt_view(output_canon),
                        (#[trigger] inputs@[j]).0@,
                        opt_view(inputs@[j].1),
                    )) && e.message@ == "output path "@ + output@ + " resolves to merge input "@
                    + inputs@[k].0@ + "; choose a different output path"@,
        },
{
    let mut k: usize = 0;
    while k < inputs.len()
        invariant
            k <= inputs@.len(),
            forall|j: int|
                0 <= j < k ==> !collides(
                    output@,
                    opt_view(output_canon),
                    (#[trigger] inputs@[j]).0@,
                    opt_view(inputs@[j].1),
                ),
        decreases inputs.len() - k,
    {
        let (inp, canon) = &inputs[k];
        let hit = match (&output_canon, canon) {
            (Some(o), Some(i)) => path_eq(o.as_str(), i.as_str()),
            _ => path_eq(output, inp.as_str()),
        };
        if hit {
            let mut m = string_of("output path ");
            push_str(&mut m, output);
            push_str(&mut m, " resolves to merge input ");
            push_str(&mut m, inp.as_str());
            push_str(&mut m, "; choose a different output path");
            assert(m@ =~= "output path "@ + output@ + " resolves to merge input "@ + inp@
                + "; choose a different output path"@);
            return Err(CliError::runtime(m));
        }
        k = k + 1;
    }
    Ok(())
}

// ── Exit classification ───────────────────────────────────────────────

/// How a decode ends: the exit code, the exit-class line for the log (if
/// any), and the error text to report (if any).
#[derive(Debug)]
pub struct DecodeExit {
    pub code: u8,
    pub summary: Option<String>,
    pub error: Option<String>,
}

/// The exit class of a completed decode.
pub open spec fn outcome_class(o: WriteOutcome, sync_losses: u64, empty_recording: bool) -> Seq<char> {
    if o.partial is Some {
        "partial-unrecoverable"@
    } else if empty_recording && o.normal_count == 0 && o.error_count == 0 {
        "empty-recording"@
    } else if sync_losses > 0 {
        "partial-recovered"@
    } else {
        "complete"@
    }
}

/// The exit code, summary line and error text of a decode's result.
pub open spec fn exit_of(r: Result<WriteOutcome, MieError>, sync_losses: u64, empty_recording: bool) -> (u8, Option<Seq<char>>, Option<Seq<char>>) {
    match r {
        Ok(o) => (
            0,
            Some(
                "decode exit class: "@ + outcome_class(o, sync_losses, empty_recording)
                    + " (sync_losses="@ + dec(sync_losses as nat) + ")"@,
            ),
            None,
        ),
        Err(e) => if e matches MieError::WriterError { source, .. } && source.kind
            == crate::error::IoKind::BrokenPipe {
            (0, Some("decode exit class: complete (broken-pipe on stdout)"@), None)
        } else {
            match spec_kind(e) {
                MieErrorKind::NoValidRecords | MieErrorKind::HomogeneousPayload => (
                    EXIT_NO_RECORDS,
                    Some("decode exit class: no-records"@),
                    Some(error_text(e)),
                ),
                MieErrorKind::TimestampFormatMismatch => (
                    EXIT_NO_RECORDS,
                    Some("decode exit class: no-records (timestamp-format-mismatch)"@),
                    Some(error_text(e)),
                ),
                MieErrorKind::UnrecoverableSyncLoss => (
                    EXIT_SYNC_LOSS,
                    Some(
                        "decode exit class: partial-unrecoverable (sync_losses="@ + dec(
                            sync_losses as nat,
                        ) + "); pass --allow-partial to preserve the rows decoded so far"@,
                    ),
                    Some(error_text(e)),
                ),
                MieErrorKind::IncompatibleMergeInputs => (
                    EXIT_MERGE_INCOMPATIBLE,
                    Some("decode exit class: merge-incompatible"@),
                    Some(error_text(e)),
                ),
                MieErrorKind::NonMonotonicInput => (
                    EXIT_RUNTIME,
                    Some("decode exit class: non-monotonic-input (strict)"@),
                    Some(error_text(e)),
                ),
                _ => (EXIT_RUNTIME, None, Some(error_text(e))),
            }
        },
    }
}

/// Maps a decode's result, the sync losses across its inputs, and whether
/// every input was an empty recording, to the exit code and the lines to
/// report.
pub fn classify_decode_exit(r: Result<WriteOutcome, MieError>, sync_losses: u64, empty_recording: bool) -> (x: DecodeExit)
    ensures
        ({
            let want = exit_of(r, sync_losses, empty_recording);
            &&& x.code == want.0
            &&& opt_view(x.summary) == want.1
            &&& opt_view(x.error) == want.2
        }),
{
    match r {
        Ok(outcome) => {
            let class = if outcome.partial.is_some() {
                "partial-unrecoverable"
            } else if empty_recording && outcome.normal_count == 0 && outcome.error_count == 0 {
                "empty-recording"
            } else if sync_losses > 0 {
                "partial-recovered"
            } else {
                "complete"
            };
            let mut line = string_of("decode exit class: ");
            push_str(&mut line, class);
            push_str(&mut line, " (sync_losses=");
            push_dec(&mut line, sync_losses);
            push_str(&mut line, ")");
            assert(line@ =~= "decode exit class: "@ + class@ + " (sync_losses="@ + dec(
                sync_losses as nat,
            ) + ")"@);
            DecodeExit { code: 0, summary: Some(line), error: None }
        },
        Err(e) => {
            if e.is_broken_pipe() {
                return DecodeExit {
                    code: 0,
                    summary: Some(string_of("decode exit class: complete (broken-pipe on stdout)")),
                    error: None,
                };
            }
            let text = e.message();
            match e.kind() {
                MieErrorKind::NoValidRecords | MieErrorKind::HomogeneousPayload => DecodeExit {
                    code: EXIT_NO_RECORDS,
                    summary: Some(string_of("decode exit class: no-records")),
                    error: Some(text),
                },
                MieErrorKind::TimestampFormatMismatch => DecodeExit {
                    code: EXIT_NO_RECORDS,
                    summary: Some(
                        string_of("decode exit class: no-records (timestamp-format-mismatch)"),
                    ),
                    error: Some(text),
                },
                MieErrorKind::UnrecoverableSyncLoss => {
                    let mut line = string_of("decode exit class: partial-unrecoverable (sync_losses=");
                    push_dec(&mut line, sync_losses);
                    push_str(&mut line, "); pass --allow-partial to preserve the rows decoded so far");
                    assert(line@ =~= "decode exit class: partial-unrecoverable (sync_losses="@ + dec(
                        sync_losses as nat,
                    ) + "); pass --allow-partial to preserve the rows decoded so far"@);
                    DecodeExit { code: EXIT_SYNC_LOSS, summary: Some(line), error: Some(text) }
                },
                MieErrorKind::IncompatibleMergeInputs => DecodeExit {
                    code: EXIT_MERGE_INCOMPATIBLE,
                    summary: Some(string_of("decode exit class: merge-incompatible")),
                    error: Some(text),
                },
                MieErrorKind::NonMonotonicInput => DecodeExit {
                    code: EXIT_RUNTIME,
                    summary: Some(string_of("decode exit class: non-monotonic-input (strict)")),
                    error: Some(text),
                },
                _ => DecodeExit { code: EXIT_RUNTIME, summary: None, error: Some(text) },
            }
        },
    }
}

// ── Laws ──────────────────────────────────────────────────────────────

/// The long names of the `decode` flags that take a value.
pub open spec fn takes_value(nm: Seq<char>) -> bool {
    nm == "--output"@
        || nm == "--time-format"@
        || nm == "--detect-records"@
        || nm == "--lookahead-records"@
        || nm == "--standard-tick-rate-hz"@
        || nm == "--format"@
        || nm == "--mux-delimiter"@
        || nm == "--mux-field"@
        || nm == "--max-sort-group"@
        || nm == "--delta-scope"@
        || nm == "--collapse-window-us"@
        || nm == "--manifest"@
        || nm == "--glob"@
        || nm == "--exclude-types"@
        || nm == "--include-types"@
        || nm == "--exclude-rts"@
        || nm == "--include-rts"@
        || nm == "--exclude-buses"@
        || nm == "--include-buses"@
        || nm == "--exclude-subaddresses"@
        || nm == "--include-subaddresses"@
}

proof fn lemma_first_eq_from(s: Seq<char>, flag_len: int, i: int)
    requires
        0 <= i <= flag_len < s.len(),
        s[flag_len] == '=',
        forall|k: int| 0 <= k < flag_len ==> s[k] != '=',
    ensures
        first_from(s, '=', i) == Some(flag_len),
    decreases flag_len - i,
{
    if i < flag_len {
        lemma_first_eq_from(s, flag_len, i + 1);
    }
}

proof fn lemma_no_eq_from(s: Seq<char>, i: int)
    requires
        0 <= i,
        !s.contains('='),
    ensures
        first_from(s, '=', i) is None,
    decreases s.len() - i,
{
    if i < s.len() {
        assert(s[i] != '=');
        lemma_no_eq_from(s, i + 1);
    }
}

/// The value taken at token `i` is `val` and the next token is `j`,
/// whatever the flag's name.
pub open spec fn takes_at(inl: Option<Seq<char>>, t: Seq<Seq<char>>, i: int, val: Seq<char>, j: int) -> bool {
    ||| inl == Some(val) && j == i + 1
    ||| inl is None && 0 <= i && i + 1 < t.len() && t[i + 1] == val && !spec_looks_like_option(
        val,
    ) && j == i + 2
}

#[verifier::rlimit(60)]
proof fn lemma_scalar_same(v: DecodeView, nm: Seq<char>, inl1: Option<Seq<char>>, t1: Seq<Seq<char>>, i1: int, inl2: Option<Seq<char>>, t2: Seq<Seq<char>>, i2: int, val: Seq<char>, j1: int, j2: int)
    requires
        takes_at(inl1, t1, i1, val, j1),
        takes_at(inl2, t2, i2, val, j2),
    ensures
        match (scalar_flag(v, nm, inl1, t1, i1), scalar_flag(v, nm, inl2, t2, i2)) {
            (Some(Ok(a)), Some(Ok(b))) => a.0 == b.0 && a.1 == j1 && b.1 == j2,
            (Some(Err(x)), Some(Err(y))) => x == y,
            (None, None) => true,
            _ => false,
        },
{
    reveal(scalar_flag);
}

#[verifier::rlimit(60)]
proof fn lemma_filter_same(v: DecodeView, nm: Seq<char>, inl1: Option<Seq<char>>, t1: Seq<Seq<char>>, i1: int, inl2: Option<Seq<char>>, t2: Seq<Seq<char>>, i2: int, val: Seq<char>, j1: int, j2: int)
    requires
        takes_at(inl1, t1, i1, val, j1),
        takes_at(inl2, t2, i2, val, j2),
    ensures
        match (filter_flag(v, nm, inl1, t1, i1), filter_flag(v, nm, inl2, t2, i2)) {
            (Some(Ok(a)), Some(Ok(b))) => a.0 == b.0 && a.1 == j1 && b.1 == j2,
            (Some(Err(x)), Some(Err(y))) => x == y,
            (None, None) => true,
            _ => false,
        },
{
    reveal(filter_flag);
}

proof fn lemma_valued_is_some(v: DecodeView, nm: Seq<char>, inl: Option<Seq<char>>, t: Seq<Seq<char>>, i: int)
    requires
        takes_value(nm),
    ensures
        scalar_flag(v, nm, inl, t, i) is Some || filter_flag(v, nm, inl, t, i) is Some,
{
    reveal(scalar_flag);
    reveal(filter_flag);
}

proof fn lemma_valued_shape(flag: Seq<char>)
    requires
        takes_value(flag),
    ensures
        flag.len() >= 2 && flag[0] == '-' && flag[1] == '-' && !flag.contains('='),
{
    reveal_strlit("--output");
    reveal_strlit("--time-format");
    reveal_strlit("--detect-records");
    reveal_strlit("--lookahead-records");
    reveal_strlit("--standard-tick-rate-hz");
    reveal_strlit("--format");
    reveal_strlit("--mux-delimiter");
    reveal_strlit("--mux-field");
    reveal_strlit("--max-sort-group");
    reveal_strlit("--delta-scope");
    reveal_strlit("--collapse-window-us");
    reveal_strlit("--manifest");
    reveal_strlit("--glob");
    reveal_strlit("--exclude-types");
    reveal_strlit("--include-types");
    reveal_strlit("--exclude-rts");
    reveal_strlit("--include-rts");
    reveal_strlit("--exclude-buses");
    reveal_strlit("--include-buses");
    reveal_strlit("--exclude-subaddresses");
    reveal_strlit("--include-subaddresses");
}

/// Two token lists that hold the same tokens from `i1` and from `i2` on.
pub open spec fn same_tail(t1: Seq<Seq<char>>, i1: int, t2: Seq<Seq<char>>, i2: int) -> bool {
    &&& 0 <= i1 < t1.len()
    &&& 0 <= i2 < t2.len()
    &&& t1.len() - i1 == t2.len() - i2
    &&& forall|k: int| 0 <= k < t1.len() - i1 ==> #[trigger] t1[i1 + k] == t2[i2 + k]
}

/// Two flag outcomes that agree, up to where the token list was entered.
pub open spec fn flag_agrees(
    a: Option<Result<(DecodeView, int), Seq<char>>>,
    b: Option<Result<(DecodeView, int), Seq<char>>>,
    i1: int,
    i2: int,
) -> bool {
    match (a, b) {
        (Some(Ok(x)), Some(Ok(y))) => x.0 == y.0 && x.1 - i1 == y.1 - i2,
        (Some(Err(x)), Some(Err(y))) => x == y,
        (None, None) => true,
        _ => false,
    }
}

#[verifier::rlimit(60)]
proof fn lemma_scalar_shift(v: DecodeView, nm: Seq<char>, inl: Option<Seq<char>>, t1: Seq<Seq<char>>, i1: int, t2: Seq<Seq<char>>, i2: int)
    requires
        same_tail(t1, i1, t2, i2),
    ensures
        flag_agrees(scalar_flag(v, nm, inl, t1, i1), scalar_flag(v, nm, inl, t2, i2), i1, i2),
{
    reveal(scalar_flag);
    if i1 + 1 < t1.len() {
        assert(t1[i1 + 1] == t2[i2 + 1]);
    }
}

#[verifier::rlimit(60)]
proof fn lemma_filter_shift(v: DecodeView, nm: Seq<char>, inl: Option<Seq<char>>, t1: Seq<Seq<char>>, i1: int, t2: Seq<Seq<char>>, i2: int)
    requires
        same_tail(t1, i1, t2, i2),
    ensures
        flag_agrees(filter_flag(v, nm, inl, t1, i1), filter_flag(v, nm, inl, t2, i2), i1, i2),
{
    reveal(filter_flag);
    if i1 + 1 < t1.len() {
        assert(t1[i1 + 1] == t2[i2 + 1]);
    }
}

proof fn lemma_token_shift(v: DecodeView, t1: Seq<Seq<char>>, i1: int, t2: Seq<Seq<char>>, i2: int)
    requires
        same_tail(t1, i1, t2, i2),
    ensures
        match (decode_token(v, t1, i1), decode_token(v, t2, i2)) {
            (Ok(x), Ok(y)) => x.0 == y.0 && x.1 - i1 == y.1 - i2,
            (Err(x), Err(y)) => x == y,
            _ => false,
        },
{
    assert(t1[i1 + 0] == t2[i2 + 0]);
    let raw = t1[i1];
    lemma_scalar_shift(v, arg_name(raw), arg_inline(raw), t1, i1, t2, i2);
    lemma_filter_shift(v, arg_name(raw), arg_inline(raw), t1, i1, t2, i2);
    reveal(decode_token);
}

/// A `decode` run depends only on the tokens it has still to read.
proof fn lemma_run_shift(v: DecodeView, t1: Seq<Seq<char>>, i1: int, t2: Seq<Seq<char>>, i2: int)
    requires
        0 <= i1 <= t1.len(),
        0 <= i2 <= t2.len(),
        t1.len() - i1 == t2.len() - i2,
        forall|k: int| 0 <= k < t1.len() - i1 ==> #[trigger] t1[i1 + k] == t2[i2 + k],
    ensures
        decode_run(v, t1, i1) == decode_run(v, t2, i2),
    decreases t1.len() - i1,
{
    if i1 < t1.len() {
        lemma_token_shift(v, t1, i1, t2, i2);
        match decode_token(v, t1, i1) {
            Ok(p) => {
                if i1 < p.1 <= t1.len() {
                    let q = decode_token(v, t2, i2)->Ok_0;
                    assert forall|k: int| 0 <= k < t1.len() - p.1 implies #[trigger] t1[p.1 + k] == t2[q.1
                        + k] by {
                        assert(t1[i1 + (p.1 - i1 + k)] == t2[i2 + (p.1 - i1 + k)]);
                    }
                    lemma_run_shift(p.0, t1, p.1, t2, q.1);
                }
            },
            Err(_) => {},
        }
    }
}

/// The refusal of a flag whose next token looks like an option.
pub open spec fn option_value_refusal(flag: Seq<char>, next: Seq<char>) -> Seq<char> {
    flag + " requires a value, but the next argument is an option: "@ + next
        + "; to pass it as a value, write "@ + flag + "="@ + next
}

#[verifier::rlimit(60)]
proof fn lemma_option_value_refused(v: DecodeView, nm: Seq<char>, t: Seq<Seq<char>>, i: int)
    requires
        takes_value(nm),
        0 <= i,
        i + 1 < t.len(),
        spec_looks_like_option(t[i + 1]),
    ensures
        scalar_flag(v, nm, None, t, i) matches Some(r) ==> r == Err::<(DecodeView, int), Seq<char>>(
            option_value_refusal(nm, t[i + 1]),
        ),
        filter_flag(v, nm, None, t, i) matches Some(r) ==> r == Err::<(DecodeView, int), Seq<char>>(
            option_value_refusal(nm, t[i + 1]),
        ),
{
    reveal_strlit("-o");
    lemma_valued_shape(nm);
    if nm == "-o"@ {
        assert(nm[1] == 'o');
    }
    reveal(scalar_flag);
    reveal(filter_flag);
}

#[verifier::rlimit(60)]
proof fn lemma_joined_takes_one(v: DecodeView, nm: Seq<char>, val: Seq<char>, t: Seq<Seq<char>>, i: int)
    ensures
        scalar_flag(v, nm, Some(val), t, i) matches Some(Ok(p)) ==> p.1 == i + 1,
        filter_flag(v, nm, Some(val), t, i) matches Some(Ok(p)) ==> p.1 == i + 1,
{
    reveal(scalar_flag);
    reveal(filter_flag);
}

/// `--flag value` and `--flag=value` are the same invocation, whatever
/// tokens follow: for every flag that takes a value and a value that does
/// not look like an option, both spellings give the same arguments or the
/// same refusal. A separated value that looks like an option is refused,
/// and the refusal names the joined spelling that would pass it; the joined
/// spelling consumes its one token whatever the value looks like.
pub proof fn law_flag_spellings_agree(v: DecodeView, flag: Seq<char>, value: Seq<char>, rest: Seq<Seq<char>>)
    requires
        takes_value(flag),
    ensures
        !spec_looks_like_option(value) ==> decode_run(v, seq![flag, value] + rest, 0) == decode_run(
            v,
            seq![flag + seq!['='] + value] + rest,
            0,
        ),
        !spec_looks_like_option(value) ==> match (
            decode_token(v, seq![flag, value] + rest, 0),
            decode_token(v, seq![flag + seq!['='] + value] + rest, 0),
        ) {
            (Ok(a), Ok(b)) => a.0 == b.0 && a.1 == 2 && b.1 == 1,
            (Err(x), Err(y)) => x == y,
            _ => false,
        },
        spec_looks_like_option(value) ==> decode_run(v, seq![flag, value] + rest, 0) == Err::<
            DecodeView,
            ArgsError,
        >(ArgsError::Usage(option_value_refusal(flag, value))),
        decode_token(v, seq![flag + seq!['='] + value] + rest, 0) matches Ok(p) ==> p.1 == 1,
{
    let j = flag + seq!['='] + value;
    let t1 = seq![flag, value] + rest;
    let t2 = seq![j] + rest;
    lemma_valued_shape(flag);
    lemma_no_eq_from(flag, 0);
    assert forall|k: int| 0 <= k < flag.len() implies j[k] != '=' by {
        assert(j[k] == flag[k]);
    }
    lemma_first_eq_from(j, flag.len() as int, 0);
    assert(j.take(flag.len() as int) =~= flag);
    assert(j.skip(flag.len() as int + 1) =~= value);
    assert(t1[0] == flag && t1[1] == value);
    assert(t2[0] == j);
    assert(arg_name(t1[0]) == flag && arg_inline(t1[0]) is None);
    assert(arg_name(t2[0]) == flag && arg_inline(t2[0]) == Some(value));
    lemma_valued_is_some(v, flag, Some(value), t2, 0);
    if !spec_looks_like_option(value) {
        lemma_scalar_same(v, flag, None, t1, 0, Some(value), t2, 0, value, 2, 1);
        lemma_filter_same(v, flag, None, t1, 0, Some(value), t2, 0, value, 2, 1);
        lemma_valued_is_some(v, flag, None, t1, 0);
        reveal(decode_token);
        match decode_token(v, t1, 0) {
            Ok(a) => {
                let b = decode_token(v, t2, 0)->Ok_0;
                assert forall|k: int| 0 <= k < t1.len() - 2 implies #[trigger] t1[2 + k] == t2[1 + k] by {
                    assert(t1[2 + k] == rest[k]);
                    assert(t2[1 + k] == rest[k]);
                }
                lemma_run_shift(a.0, t1, 2, t2, 1);
            },
            Err(_) => {},
        }
    } else {
        lemma_option_value_refused(v, flag, t1, 0);
        lemma_valued_is_some(v, flag, None, t1, 0);
        reveal(decode_token);
    }
    lemma_joined_takes_one(v, flag, value, t2, 0);
    reveal(decode_token);
}

} // verus!
