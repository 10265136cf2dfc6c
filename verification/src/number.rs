//! Numbers written as text, and read back from it.
use vstd::prelude::*;

use crate::text::{chars_of, opt_str};

verus! {

/// The character of a decimal digit.
pub open spec fn digit_char(d: nat) -> char {
    (48 + d) as char
}

/// A number in decimal notation, without leading zeros.
pub open spec fn decimal(n: nat) -> Seq<char>
    decreases n,
{
    if n < 10 {
        seq![digit_char(n)]
    } else {
        decimal(n / 10).push(digit_char(n % 10))
    }
}

/// A whole number in decimal notation, with a sign where it is negative.
pub open spec fn signed_decimal(n: int) -> Seq<char> {
    if n < 0 {
        seq!['-'] + decimal((-n) as nat)
    } else {
        decimal(n as nat)
    }
}

/// Whether a character is a decimal digit.
pub open spec fn is_digit(c: char) -> bool {
    '0' <= c <= '9'
}

/// Whether a text holds nothing but decimal digits.
pub open spec fn all_digits(s: Seq<char>) -> bool {
    forall|i: int| 0 <= i < s.len() ==> is_digit(#[trigger] s[i])
}

/// The number that a run of decimal digits stands for.
pub open spec fn digits_value(s: Seq<char>) -> nat
    decreases s.len(),
{
    if s.len() == 0 {
        0
    } else {
        (digits_value(s.drop_last()) * 10 + (s.last() as nat - 48)) as nat
    }
}

/// A text without the plus sign that may stand before a number.
pub open spec fn without_plus(s: Seq<char>) -> Seq<char> {
    if s.len() > 0 && s[0] == '+' {
        s.skip(1)
    } else {
        s
    }
}

/// The number that a text stands for: an optional plus sign and at least one
/// decimal digit, up to `max`.
pub open spec fn parse_number(s: Seq<char>, max: nat) -> Option<nat> {
    let digits = without_plus(s);
    if digits.len() > 0 && all_digits(digits) && digits_value(digits) <= max {
        Some(digits_value(digits))
    } else {
        None
    }
}

fn digit_of(d: u128) -> (c: char)
    requires
        d < 10,
    ensures
        c == digit_char(d as nat),
{
    (48 + d as u8) as char
}

/// A number in decimal notation.
pub fn decimal_text(n: u128) -> (text: String)
    ensures
        text@ == decimal(n as nat),
    decreases n,
{
    if n < 10 {
        let mut text = String::new();
        text.push(digit_of(n));
        assert(text@ =~= seq![digit_char(n as nat)]);
        text
    } else {
        let mut text = decimal_text(n / 10);
        text.push(digit_of(n % 10));
        text
    }
}

/// A whole number in decimal notation, with a sign where it is negative.
pub fn signed_text(n: i64) -> (text: String)
    ensures
        text@ == signed_decimal(n as int),
{
    if n < 0 {
        let mut text = String::new();
        text.push('-');
        let digits = decimal_text((-(n as i128)) as u128);
        text.append(digits.as_str());
        assert(text@ =~= seq!['-'] + digits@);
        text
    } else {
        decimal_text(n as u128)
    }
}

/// Every prefix of a run of digits stands for a number no larger than the whole.
proof fn lemma_prefix_value(s: Seq<char>, n: int)
    requires
        all_digits(s),
        0 <= n <= s.len(),
    ensures
        digits_value(s.take(n)) <= digits_value(s),
    decreases s.len(),
{
    if n == s.len() {
        assert(s.take(n) =~= s);
    } else {
        let front = s.drop_last();
        assert forall|i: int| 0 <= i < front.len() implies is_digit(#[trigger] front[i]) by {
            assert(is_digit(s[i]));
        }
        assert(is_digit(s[s.len() - 1]));
        assert(front.take(n) =~= s.take(n));
        lemma_prefix_value(front, n);
    }
}

/// The number that a text stands for, up to `max`.
pub fn parse_up_to(text: &str, max: u64) -> (value: Option<u64>)
    ensures
        match value {
            Some(n) => parse_number(text@, max as nat) == Some(n as nat),
            None => parse_number(text@, max as nat) is None,
        },
        value matches Some(n) ==> n <= max,
{
    let chars = chars_of(text);
    let ghost digits = without_plus(text@);
    let mut at: usize = 0;
    if chars.len() > 0 && chars[0] == '+' {
        at = 1;
    }
    let start = at;
    assert(digits =~= text@.skip(start as int));
    if at == chars.len() {
        return None;
    }
    let mut value: u128 = 0;
    while at < chars.len()
        invariant
            start <= at <= chars.len(),
            start < chars.len(),
            chars@ == text@,
            digits == without_plus(text@),
            digits == text@.skip(start as int),
            forall|i: int| 0 <= i < at - start ==> is_digit(#[trigger] digits[i]),
            value == digits_value(digits.take(at - start)),
            value <= max,
        decreases chars.len() - at,
    {
        let ch = chars[at];
        assert(ch == digits[at - start]);
        if !('0' <= ch && ch <= '9') {
            assert(!is_digit(digits[at - start]));
            return None;
        }
        value = value * 10 + (ch as u128 - 48);
        assert(digits.take(at - start + 1).drop_last() =~= digits.take(at - start));
        at += 1;
        if value > max as u128 {
            proof {
                if all_digits(digits) {
                    lemma_prefix_value(digits, at - start);
                }
            }
            return None;
        }
    }
    assert(digits.take(at - start) =~= digits);
    Some(value as u64)
}

/// The number that a text stands for, where it fits in a `usize`.
pub fn parse_usize(text: &str) -> (value: Option<usize>)
    ensures
        match value {
            Some(n) => parse_number(text@, usize::MAX as nat) == Some(n as nat),
            None => parse_number(text@, usize::MAX as nat) is None,
        },
{
    match parse_up_to(text, usize::MAX as u64) {
        Some(n) => Some(n as usize),
        None => None,
    }
}

/// The number that a text stands for, where it fits in a `u64`.
pub fn parse_u64(text: &str) -> (value: Option<u64>)
    ensures
        match value {
            Some(n) => parse_number(text@, u64::MAX as nat) == Some(n as nat),
            None => parse_number(text@, u64::MAX as nat) is None,
        },
{
    parse_up_to(text, u64::MAX)
}

/// The number that a text stands for, where it fits in a `u32`.
pub fn parse_u32(text: &str) -> (value: Option<u32>)
    ensures
        match value {
            Some(n) => parse_number(text@, u32::MAX as nat) == Some(n as nat),
            None => parse_number(text@, u32::MAX as nat) is None,
        },
{
    match parse_up_to(text, u32::MAX as u64) {
        Some(n) => Some(n as u32),
        None => None,
    }
}

/// What is wrong with a run of characters that should stand for a number up to
/// `max`: the first character that is no digit, or that makes the number too large.
pub open spec fn digit_trouble(s: Seq<char>, max: nat) -> Option<Seq<char>>
    decreases s.len(),
{
    if s.len() == 0 {
        None
    } else {
        match digit_trouble(s.drop_last(), max) {
            Some(trouble) => Some(trouble),
            None => if !is_digit(s.last()) {
                Some("invalid digit found in string"@)
            } else if digits_value(s) > max {
                Some("number too large to fit in target type"@)
            } else {
                None
            },
        }
    }
}

/// Why a text does not stand for a number up to `max`, where it does not.
pub open spec fn number_trouble(s: Seq<char>, max: nat) -> Option<Seq<char>> {
    if s.len() == 0 {
        Some("cannot parse integer from empty string"@)
    } else if without_plus(s).len() == 0 {
        Some("invalid digit found in string"@)
    } else {
        digit_trouble(without_plus(s), max)
    }
}

proof fn lemma_digit_trouble(s: Seq<char>, max: nat)
    ensures
        digit_trouble(s, max) is None <==> all_digits(s) && digits_value(s) <= max,
    decreases s.len(),
{
    if s.len() > 0 {
        let front = s.drop_last();
        lemma_digit_trouble(front, max);
        if all_digits(s) {
            assert forall|i: int| 0 <= i < front.len() implies is_digit(#[trigger] front[i]) by {
                assert(is_digit(s[i]));
            }
            assert(is_digit(s[s.len() - 1]));
        }
        if all_digits(front) && is_digit(s.last()) {
            assert forall|i: int| 0 <= i < s.len() implies is_digit(#[trigger] s[i]) by {
                if i < front.len() {
                    assert(is_digit(front[i]));
                }
            }
        }
    }
}

proof fn lemma_trouble_stays(s: Seq<char>, max: nat, n: int)
    requires
        0 <= n <= s.len(),
        digit_trouble(s.take(n), max) is Some,
    ensures
        digit_trouble(s, max) == digit_trouble(s.take(n), max),
    decreases s.len() - n,
{
    if n == s.len() {
        assert(s.take(n) =~= s);
    } else {
        assert(s.take(n + 1).drop_last() =~= s.take(n));
        lemma_trouble_stays(s, max, n + 1);
    }
}

/// A text stands for a number unless there is some trouble with it.
pub proof fn lemma_number_trouble(s: Seq<char>, max: nat)
    ensures
        number_trouble(s, max) is None <==> parse_number(s, max) is Some,
{
    lemma_digit_trouble(without_plus(s), max);
}

/// Why a text does not stand for a number up to `max`.
pub fn number_trouble_text(text: &str, max: u64) -> (trouble: Option<&'static str>)
    ensures
        opt_str(trouble) == number_trouble(text@, max as nat),
{
    let chars = chars_of(text);
    if chars.len() == 0 {
        return Some("cannot parse integer from empty string");
    }
    let ghost digits = without_plus(text@);
    let mut at: usize = 0;
    if chars[0] == '+' {
        at = 1;
    }
    let start = at;
    assert(digits =~= text@.skip(start as int));
    if at == chars.len() {
        return Some("invalid digit found in string");
    }
    let mut value: u128 = 0;
    while at < chars.len()
        invariant
            start <= at <= chars.len(),
            start < chars.len(),
            chars@ == text@,
            digits == without_plus(text@),
            digits == text@.skip(start as int),
            digit_trouble(digits.take(at - start), max as nat) is None,
            value == digits_value(digits.take(at - start)),
            value <= max,
        decreases chars.len() - at,
    {
        let ch = chars[at];
        assert(ch == digits[at - start]);
        assert(digits.take(at - start + 1).drop_last() =~= digits.take(at - start));
        assert(digits.take(at - start + 1).last() == ch);
        if !('0' <= ch && ch <= '9') {
            proof {
                lemma_trouble_stays(digits, max as nat, at - start + 1);
            }
            return Some("invalid digit found in string");
        }
        value = value * 10 + (ch as u128 - 48);
        at += 1;
        if value > max as u128 {
            proof {
                lemma_trouble_stays(digits, max as nat, at - start);
            }
            return Some("number too large to fit in target type");
        }
    }
    assert(digits.take(at - start) =~= digits);
    None
}

/// Decimal notation holds digits alone, and stands for the number it was made of.
pub proof fn lemma_decimal(n: nat)
    ensures
        decimal(n).len() > 0,
        all_digits(decimal(n)),
        digits_value(decimal(n)) == n,
    decreases n,
{
    if n < 10 {
        let s = decimal(n);
        assert(digits_value(s.drop_last()) == 0);
        assert(s.last() == digit_char(n));
    } else {
        lemma_decimal(n / 10);
        let s = decimal(n);
        assert(s.drop_last() =~= decimal(n / 10));
        assert(s.last() == digit_char(n % 10));
        assert forall|i: int| 0 <= i < s.len() implies is_digit(#[trigger] s[i]) by {
            if i < s.len() - 1 {
                assert(is_digit(decimal(n / 10)[i]));
            }
        }
    }
}

/// Reading a number in decimal notation gives the number back.
pub proof fn lemma_parse_decimal(n: nat, max: nat)
    requires
        n <= max,
    ensures
        parse_number(decimal(n), max) == Some(n),
{
    lemma_decimal(n);
    assert(is_digit(decimal(n)[0]));
}

/// The character of a hexadecimal digit.
pub open spec fn hex_char(d: nat) -> char {
    if d < 10 {
        (48 + d) as char
    } else {
        (87 + d) as char
    }
}

/// The last `width` hexadecimal digits of a number.
pub open spec fn hex_digits(n: nat, width: nat) -> Seq<char>
    decreases width,
{
    if width == 0 {
        Seq::empty()
    } else {
        hex_digits(n / 16, (width - 1) as nat).push(hex_char(n % 16))
    }
}

fn hex_of(d: u64) -> (c: char)
    requires
        d < 16,
    ensures
        c == hex_char(d as nat),
{
    if d < 10 {
        (48 + d as u8) as char
    } else {
        (87 + d as u8) as char
    }
}

fn hex_text(n: u64, width: u64) -> (text: String)
    ensures
        text@ == hex_digits(n as nat, width as nat),
    decreases width,
{
    if width == 0 {
        String::new()
    } else {
        let mut text = hex_text(n / 16, width - 1);
        text.push(hex_of(n % 16));
        text
    }
}

/// A number as sixteen hexadecimal digits.
pub fn hex16(n: u64) -> (text: String)
    ensures
        text@ == hex_digits(n as nat, 16),
{
    hex_text(n, 16)
}

/// How many numbers some hexadecimal digits can tell apart.
pub open spec fn hex_limit(width: nat) -> nat
    decreases width,
{
    if width == 0 {
        1
    } else {
        16 * hex_limit((width - 1) as nat)
    }
}

/// Numbers that differ have digits that differ, where there are enough of them.
pub proof fn lemma_hex_digits_differ(a: nat, b: nat, width: nat)
    requires
        a != b,
        a < hex_limit(width),
        b < hex_limit(width),
    ensures
        hex_digits(a, width) != hex_digits(b, width),
    decreases width,
{
    if width > 0 {
        let front = (width - 1) as nat;
        if a / 16 != b / 16 {
            lemma_hex_digits_differ(a / 16, b / 16, front);
            assert(hex_digits(a, width).drop_last() =~= hex_digits(a / 16, front));
            assert(hex_digits(b, width).drop_last() =~= hex_digits(b / 16, front));
        } else {
            assert(a % 16 != b % 16);
            assert(hex_digits(a, width).last() == hex_char(a % 16));
            assert(hex_digits(b, width).last() == hex_char(b % 16));
        }
    }
}

/// Hexadecimal digits are as many as they are to be, and none separates names in a path.
pub proof fn lemma_hex_digits(n: nat, width: nat)
    ensures
        hex_digits(n, width).len() == width,
        forall|i: int| 0 <= i < width ==> #[trigger] hex_digits(n, width)[i] != '/',
    decreases width,
{
    if width > 0 {
        lemma_hex_digits(n / 16, (width - 1) as nat);
    }
}

/// A number is read back as it was written, with a plus sign or without, unless it is too
/// large; what holds anything but digits is no number.
pub proof fn law_numbers_are_read_as_written(n: nat, max: nat, s: Seq<char>, i: int)
    ensures
        n <= max ==> parse_number(decimal(n), max) == Some(n),
        n <= max ==> parse_number(seq!['+'] + decimal(n), max) == Some(n),
        n > max ==> parse_number(decimal(n), max) is None,
        0 <= i < s.len() && !('0' <= s[i] <= '9') && !(i == 0 && s[i] == '+') ==> parse_number(
            s,
            max,
        ) is None,
        parse_number(Seq::empty(), max) is None,
        parse_number(s, max) matches Some(value) ==> value <= max,
{
    lemma_decimal(n);
    assert(is_digit(decimal(n)[0]));
    let signed = seq!['+'] + decimal(n);
    assert(signed[0] == '+');
    assert(signed.skip(1) =~= decimal(n));
    if 0 <= i < s.len() && !('0' <= s[i] <= '9') && !(i == 0 && s[i] == '+') {
        let digits = without_plus(s);
        if s[0] == '+' {
            assert(digits[i - 1] == s[i]);
            assert(!is_digit(digits[i - 1]));
        } else {
            assert(!is_digit(digits[i]));
        }
    }
}

/// Decimal notation writes the digits from the highest to the lowest, without zeros in
/// front; each place counts ten times the one behind it.
pub proof fn law_decimal_places_count_tenfold(n: nat, d: nat, s: Seq<char>)
    requires
        d < 10,
    ensures
        n > 0 ==> decimal(10 * n + d) == decimal(n).push((48 + d) as char),
        decimal(d) == seq![(48 + d) as char],
        n > 0 ==> decimal(n)[0] != '0',
        digits_value(s.push((48 + d) as char)) == 10 * digits_value(s) + d,
        digits_value(Seq::empty()) == 0,
    decreases n,
{
    let c = (48 + d) as char;
    assert(s.push(c).drop_last() =~= s);
    assert(c as nat == 48 + d);
    if n > 0 {
        assert((10 * n + d) / 10 == n);
        assert((10 * n + d) % 10 == d);
        if n >= 10 {
            law_decimal_places_count_tenfold(n / 10, n % 10, s);
            assert(decimal(n)[0] == decimal(n / 10)[0]);
        } else {
            assert(decimal(n)[0] as nat == 48 + n);
        }
    }
}

/// A number below zero is written with a minus sign, any other without.
pub proof fn law_sign_is_written_below_zero_alone(n: int)
    ensures
        n >= 0 ==> signed_decimal(n) == decimal(n as nat),
        n < 0 ==> signed_decimal(n) == seq!['-'] + decimal((-n) as nat),
{
}

/// Hexadecimal notation has as many digits as are asked for, the lowest last; each is a digit
/// or a small letter, and counts sixteen times the one behind it.
pub proof fn law_hexadecimal_places_count_sixteenfold(n: nat, width: nat, d: nat)
    requires
        d < 16,
    ensures
        hex_digits(16 * n + d, width + 1) == hex_digits(n, width).push(
            if d < 10 {
                (48 + d) as char
            } else {
                (87 + d) as char
            },
        ),
        hex_digits(n, 0) == Seq::<char>::empty(),
{
    assert((16 * n + d) / 16 == n);
    assert((16 * n + d) % 16 == d);
}

/// What is wrong with a number is told: that there is none, that a character is no digit, or
/// that it is too large.
pub proof fn law_trouble_with_numbers_is_told(n: nat, max: nat, s: Seq<char>, i: int)
    ensures
        number_trouble(Seq::empty(), max) == Some("cannot parse integer from empty string"@),
        n <= max ==> number_trouble(decimal(n), max) is None,
        n > max ==> number_trouble(decimal(n), max) == Some(
            "number too large to fit in target type"@,
        ),
        number_trouble(s, max) is None <==> parse_number(s, max) is Some,
{
    lemma_number_trouble(s, max);
    lemma_number_trouble(decimal(n), max);
    lemma_decimal(n);
    assert(is_digit(decimal(n)[0]));
    if n <= max {
        lemma_parse_decimal(n, max);
    } else {
        lemma_digits_too_large(decimal(n), max);
    }
}

proof fn lemma_digits_too_large(s: Seq<char>, max: nat)
    requires
        all_digits(s),
    ensures
        digit_trouble(s, max) is None || digit_trouble(s, max) == Some(
            "number too large to fit in target type"@,
        ),
    decreases s.len(),
{
    if s.len() > 0 {
        let front = s.drop_last();
        assert forall|i: int| 0 <= i < front.len() implies is_digit(#[trigger] front[i]) by {
            assert(is_digit(s[i]));
        }
        assert(is_digit(s[s.len() - 1]));
        lemma_digits_too_large(front, max);
    }
}

} // verus!
