//! Decimal numbers as text.

use vstd::prelude::*;
use vstd::string::*;

verus! {

/// The character of a decimal digit.
pub open spec fn digit_char(digit: nat) -> char {
    ('0' as u32 + digit) as char
}

/// `n` in decimal, without leading zeros.
pub open spec fn decimal(n: nat) -> Seq<char>
    decreases n,
{
    if n < 10 {
        seq![digit_char(n)]
    } else {
        decimal(n / 10).push(digit_char(n % 10))
    }
}

/// `i` in decimal, with a sign where it is negative.
pub open spec fn signed_decimal(i: int) -> Seq<char> {
    if i < 0 {
        seq!['-'] + decimal((-i) as nat)
    } else {
        decimal(i as nat)
    }
}

/// The character of a decimal digit.
fn digit_text(digit: u128) -> (c: char)
    requires
        digit < 10,
    ensures
        c == digit_char(digit as nat),
{
    match digit {
        0 => '0',
        1 => '1',
        2 => '2',
        3 => '3',
        4 => '4',
        5 => '5',
        6 => '6',
        7 => '7',
        8 => '8',
        _ => '9',
    }
}

/// Writes `n` in decimal.
pub fn decimal_text(n: u128) -> (text: String)
    ensures
        text@ == decimal(n as nat),
    decreases n,
{
    if n < 10 {
        let mut text = String::new();
        text.push(digit_text(n));
        assert(text@ =~= decimal(n as nat));
        text
    } else {
        let mut text = decimal_text(n / 10);
        text.push(digit_text(n % 10));
        text
    }
}

/// Writes `i` in decimal.
pub fn signed_decimal_text(i: i64) -> (text: String)
    ensures
        text@ == signed_decimal(i as int),
{
    if i < 0 {
        let magnitude: i128 = 0 - (i as i128);
        let mut text = String::new();
        text.push('-');
        let digits = decimal_text(magnitude as u128);
        text.append(digits.as_str());
        assert(text@ =~= signed_decimal(i as int));
        text
    } else {
        decimal_text(i as u128)
    }
}

/// Whether `c` is one of `0` to `9`.
pub open spec fn is_digit(c: char) -> bool {
    '0' <= c <= '9'
}

/// The number that the digits `s` write.
pub open spec fn digits_value(s: Seq<char>) -> nat
    decreases s.len(),
{
    if s.len() == 0 {
        0
    } else {
        (10 * digits_value(s.drop_last()) + (s.last() as u32 - '0' as u32)) as nat
    }
}

/// `s` without a leading plus sign.
pub open spec fn without_plus(s: Seq<char>) -> Seq<char> {
    if s.len() > 0 && s.first() == '+' {
        s.drop_first()
    } else {
        s
    }
}

/// The number below 2^32 that `s` writes: decimal digits, at least one, with
/// an optional plus sign before them.
pub open spec fn u32_value(s: Seq<char>) -> Option<u32> {
    let digits = without_plus(s);
    if digits.len() > 0 && (forall|i: int| 0 <= i < digits.len() ==> is_digit(#[trigger] digits[i]))
        && digits_value(digits) <= u32::MAX {
        Some(digits_value(digits) as u32)
    } else {
        None
    }
}

/// More digits never make a number smaller.
proof fn lemma_digits_value_grows(s: Seq<char>, i: int)
    requires
        0 <= i <= s.len(),
        forall|j: int| 0 <= j < s.len() ==> is_digit(#[trigger] s[j]),
    ensures
        digits_value(s.take(i)) <= digits_value(s),
    decreases s.len(),
{
    if i == s.len() {
        assert(s.take(i) =~= s);
    } else {
        lemma_digits_value_grows(s.drop_last(), i);
        assert(s.drop_last().take(i) =~= s.take(i));
        assert(is_digit(s[s.len() - 1]));
    }
}

/// Reads a number below 2^32.
pub fn parse_u32(chars: &[char]) -> (value: Option<u32>)
    ensures
        value == u32_value(chars@),
{
    let len: usize = chars.len();
    let start: usize = if len > 0 && chars[0] == '+' { 1 } else { 0 };
    let ghost digits = without_plus(chars@);
    if start == len {
        assert(digits.len() == 0);
        return None;
    }
    assert(digits =~= chars@.skip(start as int));
    let mut value: u64 = 0;
    let mut i: usize = start;
    assert(digits.take(0) =~= Seq::empty());
    while i < len
        invariant
            len == chars@.len(),
            start <= i <= len,
            digits == without_plus(chars@),
            digits == chars@.skip(start as int),
            value == digits_value(digits.take(i - start)),
            value <= u32::MAX,
            forall|j: int| 0 <= j < i - start ==> is_digit(#[trigger] digits[j]),
        decreases len - i,
    {
        let c: char = chars[i];
        assert(digits[i - start] == c);
        if c < '0' || c > '9' {
            assert(!is_digit(digits[i - start]));
            return None;
        }
        assert(digits.take(i + 1 - start).drop_last() =~= digits.take(i - start));
        value = value * 10 + (c as u32 - '0' as u32) as u64;
        if value > u32::MAX as u64 {
            proof {
                if forall|j: int| 0 <= j < digits.len() ==> is_digit(#[trigger] digits[j]) {
                    lemma_digits_value_grows(digits, i + 1 - start);
                }
            }
            return None;
        }
        i += 1;
    }
    assert(digits.take(i - start) =~= digits);
    Some(value as u32)
}

// ---------------------------------------------------------------------------
// Laws
// ---------------------------------------------------------------------------

/// Decimal text is made of digits, at least one, and reads back as the number.
pub proof fn law_decimal_reads_back(n: nat)
    ensures
        decimal(n).len() > 0,
        forall|i: int| 0 <= i < decimal(n).len() ==> is_digit(#[trigger] decimal(n)[i]),
        digits_value(decimal(n)) == n,
        n <= u32::MAX ==> u32_value(decimal(n)) == Some(n as u32),
    decreases n,
{
    let s = decimal(n);
    if n < 10 {
        assert(s.drop_last() =~= Seq::empty());
        assert(digits_value(s.drop_last()) == 0);
    } else {
        law_decimal_reads_back(n / 10);
        assert(s.drop_last() =~= decimal(n / 10));
    }
    assert(is_digit(s[0]));
    assert(without_plus(s) == s);
}

/// Each digit counts ten times what the one behind it counts.
pub proof fn law_digits_count_by_ten(s: Seq<char>, c: char)
    requires
        '0' <= c <= '9',
    ensures
        digits_value(Seq::empty()) == 0,
        digits_value(s.push(c)) == 10 * digits_value(s) + (c as int - 48),
{
    assert(s.push(c).drop_last() =~= s);
}

/// Decimal text has no leading zero, but for zero itself.
pub proof fn law_decimal_has_no_leading_zero(n: nat)
    ensures
        n > 0 ==> decimal(n)[0] != '0',
        n == 0 ==> decimal(n) == seq!['0'],
    decreases n,
{
    if n >= 10 {
        law_decimal_has_no_leading_zero(n / 10);
        law_decimal_reads_back(n / 10);
    }
}

/// A negative number is a minus sign and the decimal text of its magnitude;
/// others are their decimal text.
pub proof fn law_signs(i: int)
    ensures
        i < 0 ==> signed_decimal(i)[0] == '-' && signed_decimal(i).skip(1) == decimal((-i) as nat),
        i >= 0 ==> signed_decimal(i) == decimal(i as nat),
{
    if i < 0 {
        assert(signed_decimal(i).skip(1) =~= decimal((-i) as nat));
    }
}

/// Whether a text is digits alone, at least one.
pub open spec fn is_digits(s: Seq<char>) -> bool {
    s.len() > 0 && forall|i: int| 0 <= i < s.len() ==> '0' <= #[trigger] s[i] <= '9'
}

/// Digits alone read as the number they write, up to the largest of 32 bits,
/// also behind a plus sign. Nothing else reads as a number.
pub proof fn law_numbers_are_digits(s: Seq<char>)
    ensures
        s.len() == 0 || s[0] != '+' ==> (u32_value(s) is Some <==> is_digits(s) && digits_value(s)
            <= 0xffff_ffff),
        s.len() == 0 || s[0] != '+' ==> (u32_value(s) matches Some(n) ==> n == digits_value(s)),
        s.len() == 0 || s[0] != '+' ==> u32_value(seq!['+'] + s) == u32_value(s),
        u32_value(seq!['+', '+'] + s) is None,
{
    let signed = seq!['+'] + s;
    assert(without_plus(signed) =~= s);
    let twice = seq!['+', '+'] + s;
    assert(without_plus(twice) =~= signed);
    assert(signed[0] == '+');
    assert(!is_digit(without_plus(twice)[0]));
    if is_digits(s) {
        assert forall|i: int| 0 <= i < s.len() implies is_digit(#[trigger] s[i]) by {
            assert('0' <= s[i] <= '9');
        }
    }
    if forall|i: int| 0 <= i < s.len() ==> is_digit(#[trigger] s[i]) {
        assert forall|i: int| 0 <= i < s.len() implies '0' <= #[trigger] s[i] <= '9' by {
            assert(is_digit(s[i]));
        }
    }
}

} // verus!
