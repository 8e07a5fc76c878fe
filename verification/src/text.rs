//! Building text: decimal and hexadecimal renderings with a stated meaning.
use vstd::prelude::*;

verus! {

/// The digit character for a value below sixteen (upper-case hex letters).
pub open spec fn digit_char(d: nat) -> char {
    if d < 10 {
        (48 + d) as char
    } else {
        (55 + d) as char
    }
}

/// Digits of `n` in `base` with no leading zeros (`"0"` for zero).
pub open spec fn digits(n: nat, base: nat) -> Seq<char>
    recommends
        base >= 2,
    decreases n,
{
    if base < 2 || n < base {
        seq![digit_char(n % 16)]
    } else {
        proof {
            lemma_quotient_smaller(n, base);
        }
        digits(n / base, base).push(digit_char(n % base))
    }
}

/// `s` left-padded with `'0'` to at least `width` characters.
pub open spec fn zero_pad(s: Seq<char>, width: nat) -> Seq<char> {
    if s.len() >= width {
        s
    } else {
        Seq::new((width - s.len()) as nat, |i: int| '0') + s
    }
}

/// Decimal rendering, as `{n}` formats it.
pub open spec fn dec(n: nat) -> Seq<char> {
    digits(n, 10)
}

/// Decimal rendering padded to `width`, as `{n:0width}` formats it.
pub open spec fn dec_w(n: nat, width: nat) -> Seq<char> {
    zero_pad(digits(n, 10), width)
}

/// Upper-case hexadecimal rendering padded to `width`, as `{n:0widthX}` formats it.
pub open spec fn hex_w(n: nat, width: nat) -> Seq<char> {
    zero_pad(digits(n, 16), width)
}

/// Ten to the power `k`.
pub open spec fn pow10(k: nat) -> nat
    decreases k,
{
    if k == 0 {
        1
    } else {
        10 * pow10((k - 1) as nat)
    }
}

/// A number below `10^k` has at most `k` decimal digits.
pub proof fn lemma_dec_len(n: nat, k: nat)
    requires
        k >= 1,
        n < pow10(k),
    ensures
        dec(n).len() <= k,
    decreases k,
{
    if n >= 10 {
        lemma_quotient_smaller(n, 10);
        assert(dec(n) == dec(n / 10).push(digit_char(n % 10)));
        let p = pow10((k - 1) as nat);
        assert(k >= 2) by {
            if k == 1 {
                assert(pow10(1) == 10 * pow10(0));
            }
        }
        assert(n / 10 < p) by (nonlinear_arith)
            requires
                n < 10 * p,
        ;
        lemma_dec_len(n / 10, (k - 1) as nat);
    }
}

/// The number a string of decimal digits denotes, most significant first.
pub open spec fn dec_value(s: Seq<char>) -> int
    decreases s.len(),
{
    if s.len() == 0 {
        0
    } else {
        dec_value(s.drop_last()) * 10 + (s.last() as int - 48)
    }
}

/// Reading a decimal rendering back gives the number.
pub proof fn lemma_dec_value_of_dec(n: nat)
    ensures
        dec_value(dec(n)) == n,
    decreases n,
{
    let d = n % 10;
    assert(digit_char(d) == (48 + d) as char);
    assert(((48 + d) as char) as int == 48 + d);
    if n >= 10 {
        lemma_quotient_smaller(n, 10);
        lemma_dec_value_of_dec(n / 10);
        assert(dec(n) == dec(n / 10).push(digit_char(d)));
        assert(dec(n).drop_last() =~= dec(n / 10));
        assert(dec(n).last() == digit_char(d));
        assert((n / 10) * 10 + d == n);
        assert(dec_value(dec(n)) == dec_value(dec(n).drop_last()) * 10 + (dec(n).last() as int - 48));
    } else {
        assert(dec(n) == seq![digit_char(n % 16)]);
        assert(n % 16 == n);
        assert(d == n);
        assert(dec(n).drop_last() =~= Seq::<char>::empty());
        assert(dec(n).last() == digit_char(d));
        assert(dec_value(Seq::<char>::empty()) == 0);
        assert(dec_value(dec(n)) == dec_value(dec(n).drop_last()) * 10 + (dec(n).last() as int - 48));
    }
}

proof fn lemma_dec_value_zeros(k: nat)
    ensures
        dec_value(Seq::new(k, |i: int| '0')) == 0,
    decreases k,
{
    if k > 0 {
        assert(Seq::new(k, |i: int| '0').drop_last() =~= Seq::new((k - 1) as nat, |i: int| '0'));
        lemma_dec_value_zeros((k - 1) as nat);
    }
}

/// Leading zeros do not change the number a digit string denotes.
pub proof fn lemma_dec_value_leading_zeros(k: nat, s: Seq<char>)
    ensures
        dec_value(Seq::new(k, |i: int| '0') + s) == dec_value(s),
    decreases s.len(),
{
    let z = Seq::new(k, |i: int| '0');
    if s.len() == 0 {
        assert(z + s =~= z);
        lemma_dec_value_zeros(k);
    } else {
        lemma_dec_value_leading_zeros(k, s.drop_last());
        assert((z + s).drop_last() =~= z + s.drop_last());
        assert((z + s).last() == s.last());
    }
}

/// A number below `10^width` rendered with `width` digits: exactly `width`
/// characters, every one a digit, denoting the number.
pub proof fn lemma_dec_w_exact(n: nat, width: nat)
    requires
        width >= 1,
        n < pow10(width),
    ensures
        dec_w(n, width).len() == width,
        forall|i: int| 0 <= i < width ==> is_dec_digit(#[trigger] dec_w(n, width)[i]),
        dec_value(dec_w(n, width)) == n,
{
    lemma_dec_len(n, width);
    lemma_dec_w_digits(n, width);
    lemma_dec_value_of_dec(n);
    let d = dec(n);
    if d.len() < width {
        lemma_dec_value_leading_zeros((width - d.len()) as nat, d);
    }
}

/// A decimal rendering is non-empty, all digits, and denotes the number.
pub proof fn lemma_dec_exact(n: nat)
    ensures
        dec(n).len() >= 1,
        forall|i: int| 0 <= i < dec(n).len() ==> is_dec_digit(#[trigger] dec(n)[i]),
        dec_value(dec(n)) == n,
    decreases n,
{
    lemma_dec_all_digits(n);
    lemma_dec_value_of_dec(n);
    if n >= 10 {
        lemma_quotient_smaller(n, 10);
        lemma_dec_exact(n / 10);
        assert(dec(n) == dec(n / 10).push(digit_char(n % 10)));
    }
}

/// An upper-case hexadecimal digit.
pub open spec fn is_hex_upper_digit(c: char) -> bool {
    ('0' <= c && c <= '9') || ('A' <= c && c <= 'F')
}

/// The number a string of upper-case hexadecimal digits denotes.
pub open spec fn hex_value(s: Seq<char>) -> int
    decreases s.len(),
{
    if s.len() == 0 {
        0
    } else {
        hex_value(s.drop_last()) * 16 + (if s.last() <= '9' {
            s.last() as int - 48
        } else {
            s.last() as int - 55
        })
    }
}

/// Sixteen to the power `k`.
pub open spec fn pow16(k: nat) -> nat
    decreases k,
{
    if k == 0 {
        1
    } else {
        16 * pow16((k - 1) as nat)
    }
}

proof fn lemma_hex_digits(n: nat)
    ensures
        digits(n, 16).len() >= 1,
        forall|i: int| 0 <= i < digits(n, 16).len() ==> is_hex_upper_digit(#[trigger] digits(n, 16)[i]),
        hex_value(digits(n, 16)) == n,
    decreases n,
{
    let d = n % 16;
    assert(d < 10 ==> digit_char(d) == (48 + d) as char && ((48 + d) as char) as int == 48 + d);
    assert(d >= 10 ==> digit_char(d) == (55 + d) as char && ((55 + d) as char) as int == 55 + d);
    if n >= 16 {
        lemma_quotient_smaller(n, 16);
        lemma_hex_digits(n / 16);
        let s = digits(n, 16);
        assert(s == digits(n / 16, 16).push(digit_char(d)));
        assert(s.drop_last() =~= digits(n / 16, 16));
        assert((n / 16) * 16 + d == n);
        assert forall|i: int| 0 <= i < s.len() implies is_hex_upper_digit(#[trigger] s[i]) by {
            if i < s.len() - 1 {
                assert(s[i] == digits(n / 16, 16)[i]);
            }
        }
    } else {
        let s = digits(n, 16);
        assert(s == seq![digit_char(n % 16)]);
        assert(s.drop_last() =~= Seq::<char>::empty());
        assert(hex_value(Seq::<char>::empty()) == 0);
    }
}

proof fn lemma_hex_len(n: nat, k: nat)
    requires
        k >= 1,
        n < pow16(k),
    ensures
        digits(n, 16).len() <= k,
    decreases k,
{
    if n >= 16 {
        lemma_quotient_smaller(n, 16);
        assert(digits(n, 16) == digits(n / 16, 16).push(digit_char(n % 16)));
        let p = pow16((k - 1) as nat);
        assert(k >= 2) by {
            if k == 1 {
                assert(pow16(1) == 16 * pow16(0));
            }
        }
        assert(n / 16 < p) by (nonlinear_arith)
            requires
                n < 16 * p,
        ;
        lemma_hex_len(n / 16, (k - 1) as nat);
    }
}

proof fn lemma_hex_value_leading_zeros(k: nat, s: Seq<char>)
    ensures
        hex_value(Seq::new(k, |i: int| '0') + s) == hex_value(s),
    decreases s.len(), k,
{
    let z = Seq::new(k, |i: int| '0');
    if s.len() == 0 {
        assert(z + s =~= z);
        if k > 0 {
            assert(z.drop_last() =~= Seq::new((k - 1) as nat, |i: int| '0'));
            lemma_hex_value_leading_zeros((k - 1) as nat, s);
            assert(Seq::new((k - 1) as nat, |i: int| '0') + s =~= Seq::new((k - 1) as nat, |i: int| '0'));
        }
    } else {
        lemma_hex_value_leading_zeros(k, s.drop_last());
        assert((z + s).drop_last() =~= z + s.drop_last());
        assert((z + s).last() == s.last());
    }
}

/// A number below `16^width` rendered with `width` hexadecimal digits:
/// exactly `width` upper-case hex digits, denoting the number.
pub proof fn lemma_hex_w_exact(n: nat, width: nat)
    requires
        width >= 1,
        n < pow16(width),
    ensures
        hex_w(n, width).len() == width,
        forall|i: int| 0 <= i < width ==> is_hex_upper_digit(#[trigger] hex_w(n, width)[i]),
        hex_value(hex_w(n, width)) == n,
{
    lemma_hex_len(n, width);
    lemma_hex_digits(n);
    let d = digits(n, 16);
    if d.len() < width {
        let z = Seq::new((width - d.len()) as nat, |i: int| '0');
        lemma_hex_value_leading_zeros((width - d.len()) as nat, d);
        assert forall|i: int| 0 <= i < width implies is_hex_upper_digit(#[trigger] hex_w(n, width)[i]) by {
            if i < z.len() {
                assert(hex_w(n, width)[i] == '0');
            } else {
                assert(hex_w(n, width)[i] == d[i - z.len()]);
            }
        }
    }
}

/// Every character of a padded decimal rendering is a digit.
pub proof fn lemma_dec_w_digits(n: nat, width: nat)
    ensures
        forall|i: int| 0 <= i < dec_w(n, width).len() ==> is_dec_digit(#[trigger] dec_w(n, width)[i]),
{
    lemma_dec_all_digits(n);
    let d = dec(n);
    if d.len() < width {
        let pad = Seq::new((width - d.len()) as nat, |i: int| '0');
        assert forall|i: int| 0 <= i < dec_w(n, width).len() implies is_dec_digit(#[trigger] dec_w(n, width)[i]) by {
            if i < pad.len() {
                assert(dec_w(n, width)[i] == '0');
            } else {
                assert(dec_w(n, width)[i] == d[i - pad.len()]);
            }
        }
    }
}

/// Appends one character to a `String`.
///
/// Calls `String::push`, which std documents as appending the character to
/// the end of the string; the contract states exactly that.
#[verifier::external_body]
pub fn push_char(s: &mut String, c: char)
    ensures
        final(s)@ == old(s)@.push(c),
{
    s.push(c);
}

/// Appends the characters of `t`.
pub fn push_str(s: &mut String, t: &str)
    ensures
        final(s)@ == old(s)@ + t@,
{
    s.append(t);
}

/// The characters of a string slice, in order.
pub fn chars_of(s: &str) -> (v: Vec<char>)
    ensures
        v@ == s@,
{
    let mut v: Vec<char> = Vec::new();
    for c in it: s.chars()
        invariant
            v@ == it.seq().take(it.index() as int),
    {
        v.push(c);
    }
    v
}

fn digit_of(d: u64) -> (c: char)
    requires
        d < 16,
    ensures
        c == digit_char(d as nat),
{
    if d < 10 {
        ((48 + d) as u8) as char
    } else {
        ((55 + d) as u8) as char
    }
}

/// Dividing by a base of at least two makes a positive number smaller.
pub proof fn lemma_quotient_smaller(n: nat, base: nat)
    requires
        base >= 2,
        n >= base,
    ensures
        n / base < n,
{
    assert(n / base < n) by (nonlinear_arith)
        requires
            base >= 2,
            n >= base,
    ;
}

proof fn lemma_digits_len_pos(n: nat, base: nat)
    ensures
        digits(n, base).len() >= 1,
    decreases n,
{
    if base >= 2 && n >= base {
        lemma_quotient_smaller(n, base);
        lemma_digits_len_pos(n / base, base);
    }
}

/// Appends the digits of `n` in `base` (ten or sixteen).
pub fn push_digits(s: &mut String, n: u64, base: u64)
    requires
        base == 10 || base == 16,
    ensures
        final(s)@ == old(s)@ + digits(n as nat, base as nat),
    decreases n,
{
    if n >= base {
        push_digits(s, n / base, base);
    }
    push_char(s, digit_of(n % base));
    proof {
        assert(digits(n as nat, base as nat) =~= if n < base {
            seq![digit_char((n % 16) as nat)]
        } else {
            digits((n / base) as nat, base as nat).push(digit_char((n % base) as nat))
        });
    }
}

/// `b` raised to `j`.
pub open spec fn power(b: nat, j: nat) -> nat
    decreases j,
{
    if j == 0 {
        1
    } else {
        b * power(b, (j - 1) as nat)
    }
}

proof fn lemma_digits_len_bound(n: nat, base: nat, j: nat)
    requires
        base >= 2,
        j >= 1,
        n < power(base, j),
    ensures
        digits(n, base).len() <= j,
    decreases n,
{
    if n >= base {
        let m = n / base;
        let p = power(base, (j - 1) as nat);
        if j == 1 {
            assert(power(base, 0) == 1);
            assert(power(base, 1) == base * power(base, 0));
            assert(base * power(base, 0) == base) by (nonlinear_arith)
                requires
                    power(base, 0) == 1,
            ;
            assert(false);
        }
        assert(power(base, j) == base * p);
        assert(m < p) by (nonlinear_arith)
            requires
                m == n / base,
                n < base * p,
                base >= 2,
        ;
        assert(m < n) by (nonlinear_arith)
            requires
                m == n / base,
                n >= base,
                base >= 2,
        ;
        lemma_digits_len_bound(m, base, (j - 1) as nat);
    }
}

proof fn lemma_u64_fits_twenty_digits(n: nat, base: nat)
    requires
        base == 10 || base == 16,
        n <= u64::MAX,
    ensures
        digits(n, base).len() <= 20,
{
    reveal_with_fuel(power, 21);
    assert(power(10, 20) == 100000000000000000000nat);
    assert(power(16, 20) == 1208925819614629174706176nat);
    lemma_digits_len_bound(n, base, 20);
}

/// A byte renders as exactly two hex digits.
pub proof fn lemma_hex2_len(n: nat)
    requires
        n < 256,
    ensures
        hex_w(n, 2).len() == 2,
{
    reveal_with_fuel(power, 3);
    lemma_digits_len_bound(n, 16, 2);
    lemma_digits_len_pos(n, 16);
}

/// A decimal digit character.
pub open spec fn is_dec_digit(c: char) -> bool {
    '0' <= c && c <= '9'
}

/// Every character of a decimal rendering is a digit.
pub proof fn lemma_dec_all_digits(n: nat)
    ensures
        forall|i: int| 0 <= i < dec(n).len() ==> is_dec_digit(#[trigger] dec(n)[i]),
    decreases n,
{
    let d = n % 10;
    assert(is_dec_digit(digit_char(d))) by {
        assert(digit_char(d) == (48 + d) as char);
    }
    if n >= 10 {
        lemma_quotient_smaller(n, 10);
        lemma_dec_all_digits(n / 10);
        assert(dec(n) == dec(n / 10).push(digit_char(d)));
        assert forall|i: int| 0 <= i < dec(n).len() implies is_dec_digit(#[trigger] dec(n)[i]) by {
            if i < dec(n).len() - 1 {
                assert(dec(n)[i] == dec(n / 10)[i]);
            }
        }
    } else {
        assert(dec(n) == seq![digit_char(n % 16)]);
        assert(n % 16 == d);
    }
}

/// The last character of a decimal rendering is the last digit.
proof fn lemma_dec_last(n: nat)
    ensures
        dec(n).len() >= 1,
        dec(n).last() == digit_char(n % 10),
        n >= 10 ==> dec(n).drop_last() == dec(n / 10),
        n < 10 ==> dec(n).len() == 1,
{
    lemma_digits_len_pos(n, 10);
    if n >= 10 {
        assert(dec(n) == digits(n / 10, 10).push(digit_char(n % 10)));
        assert(dec(n).drop_last() =~= dec(n / 10));
    }
}

/// Distinct numbers have distinct decimal renderings.
pub proof fn lemma_dec_injective(a: nat, b: nat)
    requires
        dec(a) == dec(b),
    ensures
        a == b,
    decreases a + b,
{
    lemma_dec_last(a);
    lemma_dec_last(b);
    assert(digit_char(a % 10) == digit_char(b % 10));
    assert(a % 10 == b % 10);
    if a >= 10 && b >= 10 {
        lemma_quotient_smaller(a, 10);
        lemma_quotient_smaller(b, 10);
        lemma_dec_injective(a / 10, b / 10);
    } else if a >= 10 {
        lemma_digits_len_pos(a / 10, 10);
        assert(dec(a).len() >= 2);
    } else if b >= 10 {
        lemma_digits_len_pos(b / 10, 10);
        assert(dec(b).len() >= 2);
    }
}

/// Number of digits of `n` in `base`.
pub fn digit_count(n: u64, base: u64) -> (k: usize)
    requires
        base == 10 || base == 16,
    ensures
        k == digits(n as nat, base as nat).len(),
        1 <= k <= 20,
    decreases n,
{
    proof {
        lemma_u64_fits_twenty_digits(n as nat, base as nat);
    }
    if n >= base {
        let k = digit_count(n / base, base);
        k + 1
    } else {
        1
    }
}

/// Appends `n` in `base`, left-padded with zeros to `width` characters.
pub fn push_padded(s: &mut String, n: u64, base: u64, width: usize)
    requires
        base == 10 || base == 16,
    ensures
        final(s)@ == old(s)@ + zero_pad(digits(n as nat, base as nat), width as nat),
{
    let k = digit_count(n, base);
    let ghost start = s@;
    let mut i = k;
    while i < width
        invariant
            k == digits(n as nat, base as nat).len(),
            k <= i <= width || (i == k && k >= width),
            s@ == start + Seq::new((i - k) as nat, |x: int| '0'),
        decreases width - i,
    {
        push_char(s, '0');
        i = i + 1;
        assert(s@ =~= start + Seq::new((i - k) as nat, |x: int| '0'));
    }
    push_digits(s, n, base);
    assert(s@ =~= start + zero_pad(digits(n as nat, base as nat), width as nat));
}

/// Appends the decimal rendering of `n`.
pub fn push_dec(s: &mut String, n: u64)
    ensures
        final(s)@ == old(s)@ + dec(n as nat),
{
    push_digits(s, n, 10);
}

/// Appends the decimal rendering of `n`, zero-padded to `width`.
pub fn push_dec_w(s: &mut String, n: u64, width: usize)
    ensures
        final(s)@ == old(s)@ + dec_w(n as nat, width as nat),
{
    push_padded(s, n, 10, width);
}

/// Appends the upper-case hexadecimal rendering of `n`, zero-padded to `width`.
pub fn push_hex_w(s: &mut String, n: u64, width: usize)
    ensures
        final(s)@ == old(s)@ + hex_w(n as nat, width as nat),
{
    push_padded(s, n, 16, width);
}

/// ASCII lower-casing of one character; other characters are unchanged.
pub open spec fn ascii_lower(c: char) -> char {
    if 'A' <= c && c <= 'Z' {
        ((c as u32) + 32) as char
    } else {
        c
    }
}

/// ASCII upper-casing of one character; other characters are unchanged.
pub open spec fn ascii_upper(c: char) -> char {
    if 'a' <= c && c <= 'z' {
        ((c as u32) - 32) as char
    } else {
        c
    }
}

/// ASCII lower-casing of a whole sequence.
pub open spec fn lower_seq(s: Seq<char>) -> Seq<char> {
    s.map_values(|c: char| ascii_lower(c))
}

/// ASCII upper-casing of a whole sequence.
pub open spec fn upper_seq(s: Seq<char>) -> Seq<char> {
    s.map_values(|c: char| ascii_upper(c))
}

pub fn to_ascii_lower(c: char) -> (r: char)
    ensures
        r == ascii_lower(c),
{
    if 'A' <= c && c <= 'Z' {
        let u = c as u32 + 32;
        assert(u < 128);
        (u as u8) as char
    } else {
        c
    }
}

pub fn to_ascii_upper(c: char) -> (r: char)
    ensures
        r == ascii_upper(c),
{
    if 'a' <= c && c <= 'z' {
        let u = c as u32 - 32;
        assert(u < 128);
        (u as u8) as char
    } else {
        c
    }
}

/// The characters of `s`, ASCII lower-cased.
pub fn lowered(s: &str) -> (v: Vec<char>)
    ensures
        v@ == lower_seq(s@),
{
    let cs = chars_of(s);
    let mut v: Vec<char> = Vec::new();
    let mut i: usize = 0;
    while i < cs.len()
        invariant
            i <= cs.len(),
            cs@ == s@,
            v@ == lower_seq(cs@.take(i as int)),
        decreases cs.len() - i,
    {
        v.push(to_ascii_lower(cs[i]));
        i = i + 1;
        assert(lower_seq(cs@.take(i as int)) =~= lower_seq(cs@.take((i - 1) as int)).push(
            ascii_lower(cs@[i - 1]),
        ));
    }
    assert(cs@.take(cs.len() as int) =~= cs@);
    v
}

/// The characters of `s`, ASCII upper-cased.
pub fn uppered(s: &str) -> (v: Vec<char>)
    ensures
        v@ == upper_seq(s@),
{
    let cs = chars_of(s);
    let mut v: Vec<char> = Vec::new();
    let mut i: usize = 0;
    while i < cs.len()
        invariant
            i <= cs.len(),
            cs@ == s@,
            v@ == upper_seq(cs@.take(i as int)),
        decreases cs.len() - i,
    {
        v.push(to_ascii_upper(cs[i]));
        i = i + 1;
        assert(upper_seq(cs@.take(i as int)) =~= upper_seq(cs@.take((i - 1) as int)).push(
            ascii_upper(cs@[i - 1]),
        ));
    }
    assert(cs@.take(cs.len() as int) =~= cs@);
    v
}

/// Whether `v` spells exactly the characters of `t`.
pub fn same_chars(v: &Vec<char>, t: &str) -> (b: bool)
    ensures
        b == (v@ == t@),
{
    let w = chars_of(t);
    if v.len() != w.len() {
        return false;
    }
    let mut i: usize = 0;
    while i < v.len()
        invariant
            i <= v.len(),
            v.len() == w.len(),
            w@ == t@,
            forall|j: int| 0 <= j < i ==> v@[j] == w@[j],
        decreases v.len() - i,
    {
        if v[i] != w[i] {
            return false;
        }
        i = i + 1;
    }
    assert(v@ =~= w@);
    true
}

/// A `String` holding exactly the characters of `t`.
pub fn string_of(t: &str) -> (s: String)
    ensures
        s@ == t@,
{
    let mut s = String::new();
    push_str(&mut s, t);
    assert(s@ =~= t@);
    s
}

/// Whether two string slices hold the same characters.
pub fn str_eq(a: &str, b: &str) -> (r: bool)
    ensures
        r == (a@ == b@),
{
    let v = chars_of(a);
    same_chars(&v, b)
}

/// A `String` holding exactly the characters of `v`.
pub fn string_from_chars(v: &Vec<char>) -> (s: String)
    ensures
        s@ == v@,
{
    let mut s = String::new();
    let mut i: usize = 0;
    while i < v.len()
        invariant
            i <= v.len(),
            s@ == v@.take(i as int),
        decreases v.len() - i,
    {
        push_char(&mut s, v[i]);
        i = i + 1;
        assert(s@ =~= v@.take(i as int));
    }
    assert(v@.take(v.len() as int) =~= v@);
    s
}

/// Upper-case hexadecimal rendering with no padding, as `{n:X}` formats it.
pub open spec fn hex(n: nat) -> Seq<char> {
    digits(n, 16)
}

/// Signed decimal rendering, as `{i}` formats it.
pub open spec fn idec(i: int) -> Seq<char> {
    if i < 0 {
        seq!['-'] + dec((-i) as nat)
    } else {
        dec(i as nat)
    }
}

/// Appends the upper-case hexadecimal rendering of `n`, unpadded.
pub fn push_hex(s: &mut String, n: u64)
    ensures
        final(s)@ == old(s)@ + hex(n as nat),
{
    push_digits(s, n, 16);
}

/// Appends the signed decimal rendering of `i`.
pub fn push_idec(s: &mut String, i: i64)
    ensures
        final(s)@ == old(s)@ + idec(i as int),
{
    let ghost start = s@;
    if i < 0 {
        push_char(s, '-');
        let m: u64 = if i == i64::MIN {
            9223372036854775808u64
        } else {
            (-i) as u64
        };
        push_dec(s, m);
        assert(s@ =~= start + idec(i as int));
    } else {
        push_dec(s, i as u64);
    }
}

/// The Unicode `White_Space` property, which `char::is_whitespace` and
/// `str::trim` go by.
pub open spec fn is_unicode_whitespace(c: char) -> bool {
    let u = c as u32;
    (0x09 <= u && u <= 0x0D) || u == 0x20 || u == 0x85 || u == 0xA0 || u == 0x1680 || (0x2000
        <= u && u <= 0x200A) || u == 0x2028 || u == 0x2029 || u == 0x202F || u == 0x205F || u
        == 0x3000
}

pub fn is_whitespace_char(c: char) -> (b: bool)
    ensures
        b == is_unicode_whitespace(c),
{
    let u = c as u32;
    (0x09 <= u && u <= 0x0D) || u == 0x20 || u == 0x85 || u == 0xA0 || u == 0x1680 || (0x2000
        <= u && u <= 0x200A) || u == 0x2028 || u == 0x2029 || u == 0x202F || u == 0x205F || u
        == 0x3000
}

/// `s` without its leading whitespace.
pub open spec fn trim_start(s: Seq<char>) -> Seq<char>
    decreases s.len(),
{
    if s.len() > 0 && is_unicode_whitespace(s[0]) {
        trim_start(s.drop_first())
    } else {
        s
    }
}

/// `s` without its trailing whitespace.
pub open spec fn trim_end(s: Seq<char>) -> Seq<char>
    decreases s.len(),
{
    if s.len() > 0 && is_unicode_whitespace(s.last()) {
        trim_end(s.drop_last())
    } else {
        s
    }
}

/// `s` without leading or trailing whitespace, as `str::trim` gives it.
pub open spec fn trim(s: Seq<char>) -> Seq<char> {
    trim_end(trim_start(s))
}

proof fn lemma_trim_start_shape(s: Seq<char>)
    ensures
        trim_start(s).len() == 0 || !is_unicode_whitespace(trim_start(s)[0]),
        trim_start(s) == s.skip(s.len() - trim_start(s).len()),
        trim_start(s).len() <= s.len(),
    decreases s.len(),
{
    if s.len() > 0 && is_unicode_whitespace(s[0]) {
        lemma_trim_start_shape(s.drop_first());
        assert(s.drop_first().skip(s.drop_first().len() - trim_start(s).len()) =~= s.skip(
            s.len() - trim_start(s).len(),
        ));
    } else {
        assert(s.skip(0) =~= s);
    }
}

proof fn lemma_trim_end_shape(s: Seq<char>)
    ensures
        trim_end(s).len() == 0 || !is_unicode_whitespace(trim_end(s).last()),
        trim_end(s) == s.take(trim_end(s).len() as int),
        trim_end(s).len() <= s.len(),
    decreases s.len(),
{
    if s.len() > 0 && is_unicode_whitespace(s.last()) {
        lemma_trim_end_shape(s.drop_last());
        assert(s.drop_last().take(trim_end(s).len() as int) =~= s.take(trim_end(s).len() as int));
    } else {
        assert(s.take(s.len() as int) =~= s);
    }
}

/// Trimming trimmed text changes nothing.
pub proof fn lemma_trim_idempotent(s: Seq<char>)
    ensures
        trim(trim(s)) == trim(s),
        trim(s).len() == 0 || (!is_unicode_whitespace(trim(s)[0]) && !is_unicode_whitespace(
            trim(s).last(),
        )),
{
    let a = trim_start(s);
    let b = trim_end(a);
    lemma_trim_start_shape(s);
    lemma_trim_end_shape(a);
    if b.len() > 0 {
        assert(b[0] == a[0]);
    }
    lemma_trim_end_shape(b);
    if b.len() > 0 {
        assert(trim_start(b) == b);
    } else {
        assert(trim_start(b) == b);
    }
    assert(trim_end(b) == b);
}

/// The characters of `v` with leading and trailing whitespace removed.
pub fn trimmed(v: &Vec<char>) -> (r: Vec<char>)
    ensures
        r@ == trim(v@),
{
    let mut a: usize = 0;
    assert(v@.skip(0) =~= v@);
    while a < v.len() && is_whitespace_char(v[a])
        invariant
            a <= v.len(),
            trim_start(v@) == trim_start(v@.skip(a as int)),
        decreases v.len() - a,
    {
        assert(v@.skip(a as int).drop_first() =~= v@.skip(a + 1));
        a = a + 1;
    }
    assert(trim_start(v@) == v@.skip(a as int)) by {
        if a < v.len() {
            assert(v@.skip(a as int)[0] == v@[a as int]);
        }
    }
    let mut b: usize = v.len();
    while b > a && is_whitespace_char(v[b - 1])
        invariant
            a <= b <= v.len(),
            trim_end(v@.skip(a as int)) == trim_end(v@.subrange(a as int, b as int)),
        decreases b,
    {
        assert(v@.subrange(a as int, b as int).drop_last() =~= v@.subrange(a as int, b - 1));
        b = b - 1;
    }
    assert(trim_end(v@.skip(a as int)) =~= v@.subrange(a as int, b as int)) by {
        assert(v@.skip(a as int) =~= v@.subrange(a as int, v.len() as int));
        if b > a {
            assert(v@.subrange(a as int, b as int).last() == v@[b - 1]);
        }
    }
    let mut r: Vec<char> = Vec::new();
    let mut i = a;
    while i < b
        invariant
            a <= i <= b <= v.len(),
            r@ == v@.subrange(a as int, i as int),
        decreases b - i,
    {
        r.push(v[i]);
        i = i + 1;
        assert(r@ =~= v@.subrange(a as int, i as int));
    }
    r
}

/// Whether `d` occurs in `s` at position `i`.
pub open spec fn occurs_at(s: Seq<char>, d: Seq<char>, i: int) -> bool {
    0 <= i && i + d.len() <= s.len() && s.subrange(i, i + d.len()) == d
}

/// The first position at or after `i` where `d` occurs in `s`.
pub open spec fn find_from(s: Seq<char>, d: Seq<char>, i: int) -> Option<int>
    decreases s.len() + 1 - i,
{
    if i < 0 || i + d.len() > s.len() {
        None
    } else if occurs_at(s, d, i) {
        Some(i)
    } else {
        find_from(s, d, i + 1)
    }
}

/// `s` split on every non-overlapping occurrence of the non-empty `d`,
/// scanning left to right, as `str::split` with a string pattern does.
pub open spec fn split_on(s: Seq<char>, d: Seq<char>) -> Seq<Seq<char>>
    recommends
        d.len() > 0,
    decreases s.len(),
{
    if d.len() == 0 {
        seq![s]
    } else {
        match find_from(s, d, 0) {
            None => seq![s],
            Some(j) => {
                if 0 <= j && j + d.len() <= s.len() {
                    seq![s.take(j)] + split_on(s.skip(j + d.len()), d)
                } else {
                    seq![s]
                }
            },
        }
    }
}

proof fn lemma_find_from_bounds(s: Seq<char>, d: Seq<char>, i: int)
    requires
        i >= 0,
    ensures
        find_from(s, d, i) matches Some(j) ==> i <= j && occurs_at(s, d, j),
    decreases s.len() + 1 - i,
{
    if i + d.len() <= s.len() && !occurs_at(s, d, i) {
        lemma_find_from_bounds(s, d, i + 1);
    }
}

/// Whether `d` occurs in `s` at position `i`.
fn occurs_at_exec(s: &Vec<char>, d: &Vec<char>, i: usize) -> (b: bool)
    ensures
        b == occurs_at(s@, d@, i as int),
{
    if i > s.len() || d.len() > s.len() - i {
        return false;
    }
    let mut k: usize = 0;
    while k < d.len()
        invariant
            k <= d.len(),
            i + d.len() <= s.len(),
            forall|m: int| 0 <= m < k ==> s@[i + m] == d@[m],
        decreases d.len() - k,
    {
        if s[i + k] != d[k] {
            assert(s@.subrange(i as int, i + d.len())[k as int] != d@[k as int]);
            return false;
        }
        k = k + 1;
    }
    assert(s@.subrange(i as int, i + d.len()) =~= d@);
    true
}

/// The first position where `d` occurs in `s`.
fn find_first(s: &Vec<char>, d: &Vec<char>) -> (r: Option<usize>)
    requires
        d@.len() > 0,
    ensures
        match find_from(s@, d@, 0) {
            None => r is None,
            Some(j) => r == Some(j as usize),
        },
        r matches Some(j) ==> occurs_at(s@, d@, j as int),
{
    let mut i: usize = 0;
    while i <= s.len() && d.len() <= s.len() - i
        invariant
            i <= s.len(),
            d@.len() > 0,
            find_from(s@, d@, 0) == find_from(s@, d@, i as int),
        decreases s.len() + 1 - i,
    {
        if occurs_at_exec(s, d, i) {
            return Some(i);
        }
        i = i + 1;
    }
    None
}

/// The characters of `s` from `a` up to `b`.
pub fn copy_range(s: &Vec<char>, a: usize, b: usize) -> (r: Vec<char>)
    requires
        a <= b <= s.len(),
    ensures
        r@ == s@.subrange(a as int, b as int),
{
    let mut r: Vec<char> = Vec::new();
    let mut i = a;
    while i < b
        invariant
            a <= i <= b <= s.len(),
            r@ == s@.subrange(a as int, i as int),
        decreases b - i,
    {
        r.push(s[i]);
        i = i + 1;
        assert(r@ =~= s@.subrange(a as int, i as int));
    }
    r
}

/// The views of a vector of character vectors.
pub open spec fn views(v: Seq<Vec<char>>) -> Seq<Seq<char>> {
    v.map_values(|x: Vec<char>| x@)
}

/// `s` split on every occurrence of the non-empty `d`.
pub fn split_chars(s: &Vec<char>, d: &Vec<char>) -> (parts: Vec<Vec<char>>)
    requires
        d@.len() > 0,
    ensures
        views(parts@) == split_on(s@, d@),
        parts@.len() >= 1,
{
    let mut parts: Vec<Vec<char>> = Vec::new();
    let mut rest = copy_range(s, 0, s.len());
    assert(rest@ =~= s@);
    loop
        invariant
            d@.len() > 0,
            views(parts@) + split_on(rest@, d@) == split_on(s@, d@),
        decreases rest@.len(),
    {
        match find_first(&rest, d) {
            None => {
                let ghost before = views(parts@);
                parts.push(rest);
                assert(views(parts@) =~= before.push(rest@));
                assert(split_on(rest@, d@) == seq![rest@]);
                assert(views(parts@) =~= split_on(s@, d@));
                return parts;
            },
            Some(j) => {
                proof {
                    lemma_find_from_bounds(rest@, d@, 0);
                }
                let head = copy_range(&rest, 0, j);
                let tail = copy_range(&rest, j + d.len(), rest.len());
                let ghost before = views(parts@);
                assert(split_on(rest@, d@) == seq![rest@.take(j as int)] + split_on(
                    rest@.skip(j + d@.len()),
                    d@,
                ));
                assert(head@ =~= rest@.take(j as int));
                assert(tail@ =~= rest@.skip(j + d@.len()));
                parts.push(head);
                assert(views(parts@) =~= before.push(head@));
                rest = tail;
                assert(views(parts@) + split_on(rest@, d@) =~= split_on(s@, d@));
            },
        }
    }
}

/// What `{:?}` renders for a string: the string in double quotes with
/// quotes, backslashes, control and non-printable characters escaped.
pub uninterp spec fn debug_str(s: Seq<char>) -> Seq<char>;

/// The `Debug` rendering of `s`.
///
/// Calls `format!("{:?}", s)`, std's `Debug` for `str`. Its escaping rules
/// follow Unicode's printable and grapheme-extend tables, so the contract
/// names the result instead of spelling it out: it depends on `s` alone.
#[verifier::external_body]
pub fn debug_text(s: &str) -> (r: String)
    ensures
        r@ == debug_str(s@),
{
    format!("{:?}", s)
}

/// What `str::to_uppercase` gives for a string: each character replaced by
/// its Unicode upper-case mapping, which may be longer than one character.
pub uninterp spec fn unicode_upper(s: Seq<char>) -> Seq<char>;

/// The Unicode upper-case form of `s`.
///
/// Calls `str::to_uppercase`, whose result follows the Unicode case tables
/// and depends on `s` alone; the contract names it.
#[verifier::external_body]
pub fn upper_text(s: &str) -> (r: String)
    ensures
        r@ == unicode_upper(s@),
{
    s.to_uppercase()
}

} // verus!
