//! Numbers in decimal notation: reading them from text and writing them out.

use vstd::prelude::*;
use vstd::arithmetic::div_mod::lemma_basic_div;
use vstd::arithmetic::div_mod::lemma_div_denominator;
use vstd::arithmetic::div_mod::lemma_fundamental_div_mod_converse;
use crate::rounding::lemma_round_is_odd;
use crate::rounding::lemma_round_of_whole_part;
use crate::rounding::round_half_away;
use crate::rounding::tenths_of;

verus! {

/// One of the ten decimal digits.
pub open spec fn is_digit(c: char) -> bool {
    '0' <= c <= '9'
}

/// The number that a decimal digit stands for.
pub open spec fn digit_value(c: char) -> nat {
    (c as u32 - '0' as u32) as nat
}

/// The decimal digit that stands for `d`. Meant for `d < 10`.
pub open spec fn digit_char(d: nat) -> char {
    (d + '0' as u32) as char
}

/// Every character of `s` is a decimal digit.
pub open spec fn all_digits(s: Seq<char>) -> bool {
    forall|i: int| 0 <= i < s.len() ==> is_digit(#[trigger] s[i])
}

/// The number that a run of decimal digits stands for; zero for none.
pub open spec fn digits_value(s: Seq<char>) -> nat
    decreases s.len(),
{
    if s.len() == 0 {
        0
    } else {
        digits_value(s.drop_last()) * 10 + digit_value(s.last())
    }
}

/// The integer that `s` writes out, if `s` is a decimal integer: an optional
/// sign, then one digit or more, and nothing else.
pub open spec fn signed_integer(s: Seq<char>) -> Option<int> {
    let signed = s.len() > 0 && (s.first() == '-' || s.first() == '+');
    let digits = if signed { s.drop_first() } else { s };
    if digits.len() > 0 && all_digits(digits) {
        if signed && s.first() == '-' {
            Some(-(digits_value(digits) as int))
        } else {
            Some(digits_value(digits) as int)
        }
    } else {
        None
    }
}

/// The number of decimal digits that `s` starts with.
pub open spec fn leading_digits(s: Seq<char>) -> nat
    decreases s.len(),
{
    if s.len() > 0 && is_digit(s.first()) {
        1 + leading_digits(s.drop_first())
    } else {
        0
    }
}

/// Ten to the power of `n`.
pub open spec fn power_of_ten(n: nat) -> nat
    decreases n,
{
    if n == 0 {
        1
    } else {
        10 * power_of_ten((n - 1) as nat)
    }
}

/// A number in decimal notation, taken apart.
pub struct DecimalNumber {
    /// The number starts with a minus sign.
    pub negative: bool,
    /// The digits before and after the decimal point, in order.
    pub digits: Seq<char>,
    /// How many of the digits stand before the decimal point once the
    /// exponent has moved it. The point may lie before the first digit
    /// (zero or less) or behind the last.
    pub point: int,
}

/// The power of ten that the end of a number asks for: none for an empty
/// end, else `e` or `E` and a decimal integer.
pub open spec fn exponent(s: Seq<char>) -> Option<int> {
    if s.len() == 0 {
        Some(0)
    } else if s.first() == 'e' || s.first() == 'E' {
        signed_integer(s.drop_first())
    } else {
        None
    }
}

/// The number that `s` writes out, if `s` is a number in decimal notation:
/// an optional sign, digits with at most one decimal point among, before or
/// behind them, and an optional exponent. There is one digit at least.
pub open spec fn decimal_number(s: Seq<char>) -> Option<DecimalNumber> {
    let signed = s.len() > 0 && (s.first() == '-' || s.first() == '+');
    let body = if signed { s.drop_first() } else { s };
    let whole = leading_digits(body);
    let rest = body.skip(whole as int);
    let pointed = rest.len() > 0 && rest.first() == '.';
    let fraction = if pointed { leading_digits(rest.drop_first()) } else { 0 };
    let end = if pointed { rest.skip(1 + fraction as int) } else { rest };
    let digits = if pointed {
        body.take(whole as int) + rest.subrange(1, 1 + fraction as int)
    } else {
        body.take(whole as int)
    };
    match exponent(end) {
        Some(e) if digits.len() > 0 => Some(
            DecimalNumber { negative: signed && s.first() == '-', digits, point: whole + e },
        ),
        _ => None,
    }
}

/// What the digits left of a decimal point stand for, the point standing
/// behind the first `point` of `digits`: nothing for a point before the
/// first digit, and the digits followed by zeros for a point behind the last.
pub open spec fn value_before_point(digits: Seq<char>, point: int) -> nat {
    if point <= 0 {
        0
    } else if point <= digits.len() {
        digits_value(digits.take(point))
    } else {
        digits_value(digits) * power_of_ten((point - digits.len()) as nat)
    }
}

/// The whole part of a number: the number without what stands behind its
/// decimal point.
pub open spec fn whole_part(n: DecimalNumber) -> int {
    if n.negative {
        -(value_before_point(n.digits, n.point) as int)
    } else {
        value_before_point(n.digits, n.point) as int
    }
}

/// The number as a fraction, its numerator: the digits with the zeros that
/// a point behind the last digit adds, and the sign.
pub open spec fn numerator(n: DecimalNumber) -> int {
    let size = if n.point > n.digits.len() {
        digits_value(n.digits) * power_of_ten((n.point - n.digits.len()) as nat)
    } else {
        digits_value(n.digits)
    };
    if n.negative {
        -(size as int)
    } else {
        size as int
    }
}

/// The number as a fraction, its denominator: the power of ten that the
/// digits behind the point divide by.
pub open spec fn denominator(n: DecimalNumber) -> nat {
    if n.point < n.digits.len() {
        power_of_ten((n.digits.len() - n.point) as nat)
    } else {
        1
    }
}

/// The whole part of the number that `s` writes out, if `s` is a number in
/// decimal notation and its whole part fits in 64 bits.
pub open spec fn whole_in_64_bits(s: Seq<char>) -> Option<int> {
    match decimal_number(s) {
        Some(n) if i64::MIN <= whole_part(n) <= i64::MAX => Some(whole_part(n)),
        _ => None,
    }
}

/// `v` kept within `-cap` and `cap`.
pub open spec fn clamped(v: int, cap: int) -> int {
    if v > cap {
        cap
    } else if v < -cap {
        -cap
    } else {
        v
    }
}

/// `n` written in decimal, without leading zeros.
pub open spec fn decimal(n: nat) -> Seq<char>
    decreases n,
{
    if n < 10 {
        seq![digit_char(n)]
    } else {
        decimal(n / 10).push(digit_char(n % 10))
    }
}

/// The sign in front of a negative number, and nothing for any other.
pub open spec fn sign(negative: bool) -> Seq<char> {
    if negative {
        seq!['-']
    } else {
        Seq::empty()
    }
}

/// The size of `n` without its sign.
pub open spec fn magnitude(n: int) -> nat {
    if n < 0 {
        (-n) as nat
    } else {
        n as nat
    }
}

/// A count of tenths written as a decimal number with exactly one digit
/// after the point: `203` reads `20.3`, `200` reads `20.0`, `-5` reads `-0.5`.
pub open spec fn tenths_fixed(tenths: int) -> Seq<char> {
    sign(tenths < 0) + decimal(magnitude(tenths) / 10) + seq![
        '.',
        digit_char(magnitude(tenths) % 10),
    ]
}

/// A count of tenths written as the shortest decimal number: like
/// `tenths_fixed`, but a whole number comes without point and digit, so `200`
/// reads `20`.
pub open spec fn tenths_plain(tenths: int) -> Seq<char> {
    if magnitude(tenths) % 10 == 0 {
        sign(tenths < 0) + decimal(magnitude(tenths) / 10)
    } else {
        tenths_fixed(tenths)
    }
}

/// A run of digits stands for at least as much as any of its prefixes.
pub proof fn lemma_digits_value_grows(s: Seq<char>, k: int)
    requires
        0 <= k <= s.len(),
    ensures
        digits_value(s.take(k)) <= digits_value(s),
    decreases s.len() - k,
{
    if k < s.len() {
        lemma_digits_value_grows(s, k + 1);
        assert(s.take(k + 1).drop_last() =~= s.take(k));
    } else {
        assert(s.take(k) =~= s);
    }
}

/// A power of ten is at least one, and it grows with the exponent.
pub proof fn lemma_power_of_ten_grows(a: nat, b: nat)
    requires
        a <= b,
    ensures
        1 <= power_of_ten(a) <= power_of_ten(b),
    decreases b,
{
    if a < b {
        lemma_power_of_ten_grows(a, (b - 1) as nat);
    } else if a > 0 {
        lemma_power_of_ten_grows((a - 1) as nat, (b - 1) as nat);
    }
}

/// Moving the decimal point to the right never makes the value before it
/// smaller.
pub proof fn lemma_value_before_point_grows(digits: Seq<char>, near: int, far: int)
    requires
        near <= far,
    ensures
        value_before_point(digits, near) <= value_before_point(digits, far),
{
    let count = digits.len() as int;
    if near <= 0 {
    } else if far <= count {
        lemma_digits_value_grows(digits.take(far), near);
        assert(digits.take(far).take(near) =~= digits.take(near));
    } else {
        let padded = digits_value(digits) * power_of_ten((far - count) as nat);
        lemma_power_of_ten_grows(0, (far - count) as nat);
        assert(digits_value(digits) <= padded) by (nonlinear_arith)
            requires
                padded == digits_value(digits) * power_of_ten((far - count) as nat),
                1 <= power_of_ten((far - count) as nat),
        ;
        if near <= count {
            lemma_digits_value_grows(digits, near);
        } else {
            lemma_power_of_ten_grows((near - count) as nat, (far - count) as nat);
            assert(digits_value(digits) * power_of_ten((near - count) as nat) <= padded)
                by (nonlinear_arith)
                requires
                    padded == digits_value(digits) * power_of_ten((far - count) as nat),
                    power_of_ten((near - count) as nat) <= power_of_ten((far - count) as nat),
            ;
        }
    }
}

/// Digits that stand for nothing stand for nothing wherever the point is.
pub proof fn lemma_value_of_zeros(digits: Seq<char>, point: int)
    requires
        digits_value(digits) == 0,
    ensures
        value_before_point(digits, point) == 0,
{
    if 0 < point <= digits.len() {
        lemma_digits_value_grows(digits, point);
    } else if point > digits.len() {
        assert(0 * power_of_ten((point - digits.len()) as nat) == 0) by (nonlinear_arith);
    }
}

/// A run of digits stands for less than the power of ten of its length.
pub proof fn lemma_digits_value_is_bounded(s: Seq<char>)
    requires
        all_digits(s),
    ensures
        digits_value(s) < power_of_ten(s.len()),
    decreases s.len(),
{
    if s.len() > 0 {
        assert(all_digits(s.drop_last())) by {
            assert forall|i: int| 0 <= i < s.drop_last().len() implies is_digit(
                #[trigger] s.drop_last()[i],
            ) by {
                assert(s.drop_last()[i] == s[i]);
            }
        }
        lemma_digits_value_is_bounded(s.drop_last());
        assert(is_digit(s[s.len() - 1]));
    }
}

/// The first `k` of a run of digits stand for what the run stands for,
/// divided by ten for each digit left out.
pub proof fn lemma_digits_value_of_prefix(s: Seq<char>, k: int)
    requires
        all_digits(s),
        0 <= k <= s.len(),
    ensures
        digits_value(s.take(k)) == digits_value(s) / power_of_ten((s.len() - k) as nat),
    decreases s.len(),
{
    let value = digits_value(s) as int;
    if k == s.len() {
        assert(s.take(k) =~= s);
        assert(power_of_ten(0) == 1);
        assert(value / 1 == value);
    } else {
        let shorter = s.drop_last();
        assert(all_digits(shorter)) by {
            assert forall|i: int| 0 <= i < shorter.len() implies is_digit(#[trigger] shorter[i]) by {
                assert(shorter[i] == s[i]);
            }
        }
        lemma_digits_value_of_prefix(shorter, k);
        assert(shorter.take(k) =~= s.take(k));
        assert(is_digit(s[s.len() - 1]));
        lemma_fundamental_div_mod_converse(
            value,
            10,
            digits_value(shorter) as int,
            digit_value(s.last()) as int,
        );
        assert(value / 10 == digits_value(shorter));
        let left_out = power_of_ten((s.len() - 1 - k) as nat) as int;
        assert(power_of_ten((s.len() - k) as nat) == 10 * left_out);
        lemma_power_of_ten_grows(0, (s.len() - 1 - k) as nat);
        lemma_div_denominator(value, 10, left_out);
        assert((value / 10) / left_out == value / (10 * left_out));
    }
}

/// The digits that a text starts with are digits, and they lie within the
/// text.
pub proof fn lemma_leading_digits_are_digits(s: Seq<char>)
    ensures
        leading_digits(s) <= s.len(),
        all_digits(s.take(leading_digits(s) as int)),
    decreases s.len(),
{
    if s.len() > 0 && is_digit(s.first()) {
        let later = s.drop_first();
        lemma_leading_digits_are_digits(later);
        let count = leading_digits(s) as int;
        assert forall|i: int| 0 <= i < count implies is_digit(#[trigger] s.take(count)[i]) by {
            if i > 0 {
                assert(s.take(count)[i] == later.take(count - 1)[i - 1]);
            }
        }
    }
}

/// A number is spelled in digits.
pub proof fn lemma_number_is_spelled_in_digits(s: Seq<char>)
    ensures
        decimal_number(s) matches Some(n) ==> all_digits(n.digits),
{
    let signed = s.len() > 0 && (s.first() == '-' || s.first() == '+');
    let body = if signed { s.drop_first() } else { s };
    lemma_leading_digits_are_digits(body);
    let whole = leading_digits(body) as int;
    let rest = body.skip(whole);
    if rest.len() > 0 && rest.first() == '.' {
        lemma_leading_digits_are_digits(rest.drop_first());
        let fraction = leading_digits(rest.drop_first()) as int;
        let behind = rest.subrange(1, 1 + fraction);
        assert(behind =~= rest.drop_first().take(fraction));
        let digits = body.take(whole) + behind;
        assert forall|i: int| 0 <= i < digits.len() implies is_digit(#[trigger] digits[i]) by {
            if i < whole {
                assert(digits[i] == body.take(whole)[i]);
            } else {
                assert(digits[i] == behind[i - whole]);
            }
        }
    }
}

/// A number and its whole part give the same reading. Rounded to hundreds,
/// which for a count of millidegrees are tenths of a degree, the whole part
/// comes to what the number itself comes to: what stands behind the decimal
/// point is too little to move the reading to another tenth.
pub proof fn law_whole_part_rounds_like_the_number(s: Seq<char>)
    requires
        decimal_number(s) is Some,
    ensures
        ({
            let n = decimal_number(s)->0;
            tenths_of(whole_part(n)) == round_half_away(
                numerator(n),
                100 * denominator(n) as int,
            )
        }),
{
    lemma_number_is_spelled_in_digits(s);
    lemma_whole_part_rounds_like_the_fraction(decimal_number(s)->0);
}

/// The whole part of a number spelled in digits rounds, in hundreds, to what
/// the number as a fraction rounds to.
pub proof fn lemma_whole_part_rounds_like_the_fraction(n: DecimalNumber)
    requires
        all_digits(n.digits),
    ensures
        tenths_of(whole_part(n)) == round_half_away(numerator(n), 100 * denominator(n) as int),
{
    let count = n.digits.len() as int;
    let value = digits_value(n.digits) as int;
    let size = value_before_point(n.digits, n.point) as int;
    if n.point >= count {
        if n.point == count {
            assert(n.digits.take(n.point) =~= n.digits);
        }
    } else {
        let cut = power_of_ten((count - n.point) as nat) as int;
        lemma_power_of_ten_grows(0, (count - n.point) as nat);
        assert(size == value / cut) by {
            if n.point <= 0 {
                lemma_digits_value_is_bounded(n.digits);
                lemma_power_of_ten_grows(count as nat, (count - n.point) as nat);
                lemma_basic_div(value, cut);
            } else {
                lemma_digits_value_of_prefix(n.digits, n.point);
            }
        }
        lemma_round_of_whole_part(value, cut, 100);
    }
    if n.negative {
        lemma_round_is_odd(size, 100);
        lemma_round_is_odd(numerator(n), 100 * denominator(n) as int);
    }
}

/// With twenty zeros or more behind digits that stand for something, the
/// value is beyond 64 bits.
pub proof fn lemma_far_point_overflows(digits: Seq<char>, point: int)
    requires
        digits_value(digits) > 0,
        point >= digits.len() + 20,
    ensures
        value_before_point(digits, point) > WHOLE_LIMIT,
{
    let zeros = (point - digits.len()) as nat;
    lemma_power_of_ten_grows(20, zeros);
    assert(power_of_ten(20) == 100_000_000_000_000_000_000) by {
        reveal_with_fuel(power_of_ten, 21);
    }
    assert(digits_value(digits) * power_of_ten(zeros) >= power_of_ten(zeros)) by (nonlinear_arith)
        requires
            digits_value(digits) >= 1,
    ;
}

/// Finds where the digits that `chars[from..to]` starts with end.
pub(crate) fn scan_digits(chars: &Vec<char>, from: usize, to: usize) -> (end: usize)
    requires
        from <= to <= chars.len(),
    ensures
        from <= end <= to,
        end - from == leading_digits(chars@.subrange(from as int, to as int)),
        all_digits(chars@.subrange(from as int, end as int)),
{
    let mut end = from;
    while end < to && chars[end] >= '0' && chars[end] <= '9'
        invariant
            from <= end <= to <= chars.len(),
            leading_digits(chars@.subrange(from as int, to as int)) == (end - from)
                + leading_digits(chars@.subrange(end as int, to as int)),
            all_digits(chars@.subrange(from as int, end as int)),
        decreases to - end,
    {
        assert(chars@.subrange(end as int, to as int).drop_first() =~= chars@.subrange(
            end + 1,
            to as int,
        ));
        assert(chars@.subrange(end as int, to as int).first() == chars@[end as int]);
        end = end + 1;
    }
    proof {
        if end < to {
            assert(chars@.subrange(end as int, to as int).first() == chars@[end as int]);
        }
    }
    end
}

/// Largest size of an exponent that is told apart from larger ones.
pub const EXPONENT_CAP: i128 = 0x40_0000_0000_0000_0000;

/// Largest size of a whole part that fits in 64 bits, the sign aside.
pub const WHOLE_LIMIT: u64 = 0x8000_0000_0000_0000;

/// Reads `chars[from..to]` as a decimal integer of any size. The value comes
/// back kept within `EXPONENT_CAP`.
#[verifier::loop_isolation(false)]
pub(crate) fn parse_integer(chars: &Vec<char>, from: usize, to: usize) -> (value: Option<i128>)
    requires
        from <= to <= chars.len(),
    ensures
        ({
            let written = signed_integer(chars@.subrange(from as int, to as int));
            match value {
                Some(v) => written matches Some(w) && v == clamped(w, EXPONENT_CAP as int),
                None => written is None,
            }
        }),
{
    let ghost text = chars@.subrange(from as int, to as int);
    if from == to {
        return None;
    }
    let signed = chars[from] == '-' || chars[from] == '+';
    let negative = chars[from] == '-';
    let first = if signed { from + 1 } else { from };
    let ghost digits = chars@.subrange(first as int, to as int);
    assert(text.first() == chars@[from as int]);
    assert(digits =~= if signed { text.drop_first() } else { text });
    if first == to {
        return None;
    }
    let mut size: i128 = 0;
    let mut i = first;
    while i < to
        invariant
            first <= i <= to <= chars.len(),
            all_digits(digits.take(i - first)),
            size == clamped(digits_value(digits.take(i - first)) as int, EXPONENT_CAP as int),
            0 <= size <= EXPONENT_CAP,
        decreases to - i,
    {
        let c = chars[i];
        assert(digits[i - first] == c);
        if !(c >= '0' && c <= '9') {
            return None;
        }
        let digit = (c as u32 - '0' as u32) as i128;
        assert(digits.take(i - first + 1).drop_last() =~= digits.take(i - first));
        size = if size > (EXPONENT_CAP - digit) / 10 {
            EXPONENT_CAP
        } else {
            size * 10 + digit
        };
        i = i + 1;
    }
    assert(digits.take(to - first) =~= digits);
    if negative {
        Some(-size)
    } else {
        Some(size)
    }
}

/// Computes the value before the decimal point of `digits`, as long as it
/// is no more than `WHOLE_LIMIT`.
#[verifier::loop_isolation(false)]
pub(crate) fn whole_value(digits: &Vec<char>, point: i128) -> (value: Option<u64>)
    requires
        all_digits(digits@),
    ensures
        match value {
            Some(v) => v == value_before_point(digits@, point as int) && v <= WHOLE_LIMIT,
            None => value_before_point(digits@, point as int) > WHOLE_LIMIT,
        },
{
    if point <= 0 {
        return Some(0);
    }
    let count = digits.len();
    let taken: usize = if point <= count as i128 { point as usize } else { count };
    let mut size: u64 = 0;
    let mut i: usize = 0;
    while i < taken
        invariant
            i <= taken <= count,
            size == digits_value(digits@.take(i as int)),
            size <= WHOLE_LIMIT,
        decreases taken - i,
    {
        let digit = (digits[i] as u32 - '0' as u32) as u64;
        assert(digits@.take(i + 1).drop_last() =~= digits@.take(i as int));
        if size > (WHOLE_LIMIT - digit) / 10 {
            proof {
                lemma_value_before_point_grows(digits@, i + 1, point as int);
            }
            return None;
        }
        size = size * 10 + digit;
        i = i + 1;
    }
    if point <= count as i128 {
        return Some(size);
    }
    assert(digits@.take(count as int) =~= digits@);
    if size == 0 {
        proof {
            lemma_value_of_zeros(digits@, point as int);
        }
        return Some(0);
    }
    let zeros: i128 = point - count as i128;
    let mut written: i128 = 0;
    assert(size == digits_value(digits@) * power_of_ten(0)) by (nonlinear_arith)
        requires
            size == digits_value(digits@),
            power_of_ten(0) == 1,
    ;
    while written < zeros
        invariant
            0 <= written <= zeros,
            size == digits_value(digits@) * power_of_ten(written as nat),
            1 <= size <= WHOLE_LIMIT,
        decreases zeros - written,
    {
        if size > WHOLE_LIMIT / 10 {
            proof {
                let further = digits_value(digits@) * power_of_ten((written + 1) as nat);
                assert(further == size * 10) by (nonlinear_arith)
                    requires
                        size == digits_value(digits@) * power_of_ten(written as nat),
                        further == digits_value(digits@) * (10 * power_of_ten(written as nat)),
                ;
                assert(further == value_before_point(digits@, count + written + 1));
                lemma_value_before_point_grows(digits@, count + written + 1, point as int);
            }
            return None;
        }
        proof {
            assert(digits_value(digits@) * power_of_ten((written + 1) as nat) == size * 10)
                by (nonlinear_arith)
                requires
                    size == digits_value(digits@) * power_of_ten(written as nat),
                    power_of_ten((written + 1) as nat) == 10 * power_of_ten(written as nat),
            ;
        }
        size = size * 10;
        written = written + 1;
    }
    Some(size)
}

/// Where the parts of a number stand within a text: the sign, if there is
/// one, stands before `first`; the digits before the decimal point reach up
/// to `whole_end`; those behind it stand from `fraction_start` up to
/// `fraction_end`, where the exponent starts.
pub struct NumberBounds {
    pub first: usize,
    pub whole_end: usize,
    pub fraction_start: usize,
    pub fraction_end: usize,
}

/// The bounds `b` are those of the number that `chars[from..to]` starts
/// with.
pub open spec fn bounds_fit(chars: Seq<char>, from: int, to: int, b: NumberBounds) -> bool {
    let signed = from < to && (chars[from] == '-' || chars[from] == '+');
    let pointed = b.whole_end < to && chars[b.whole_end as int] == '.';
    &&& 0 <= from <= b.first <= b.whole_end <= b.fraction_start <= b.fraction_end <= to
        <= chars.len()
    &&& b.first == if signed { from + 1 } else { from }
    &&& b.whole_end - b.first == leading_digits(chars.subrange(b.first as int, to))
    &&& b.fraction_start == if pointed { b.whole_end + 1 } else { b.whole_end as int }
    &&& b.fraction_end - b.fraction_start == if pointed {
        leading_digits(chars.subrange(b.fraction_start as int, to))
    } else {
        0
    }
    &&& all_digits(chars.subrange(b.first as int, b.whole_end as int))
    &&& all_digits(chars.subrange(b.fraction_start as int, b.fraction_end as int))
}

/// The digits within the bounds `b`.
pub open spec fn digits_within(chars: Seq<char>, b: NumberBounds) -> Seq<char> {
    chars.subrange(b.first as int, b.whole_end as int) + chars.subrange(
        b.fraction_start as int,
        b.fraction_end as int,
    )
}

/// A text is the number that its parts make up: the digits within the
/// bounds, and the exponent that stands behind them.
pub proof fn lemma_number_from_bounds(chars: Seq<char>, from: int, to: int, b: NumberBounds)
    requires
        bounds_fit(chars, from, to, b),
    ensures
        decimal_number(chars.subrange(from, to)) == match exponent(
            chars.subrange(b.fraction_end as int, to),
        ) {
            Some(e) if digits_within(chars, b).len() > 0 => Some(
                DecimalNumber {
                    negative: from < to && chars[from] == '-',
                    digits: digits_within(chars, b),
                    point: b.whole_end - b.first + e,
                },
            ),
            _ => None,
        },
{
    let text = chars.subrange(from, to);
    let signed = text.len() > 0 && (text.first() == '-' || text.first() == '+');
    let body = if signed { text.drop_first() } else { text };
    assert(body =~= chars.subrange(b.first as int, to));
    let whole = leading_digits(body);
    let rest = body.skip(whole as int);
    assert(rest =~= chars.subrange(b.whole_end as int, to));
    let pointed = rest.len() > 0 && rest.first() == '.';
    assert(body.take(whole as int) =~= chars.subrange(b.first as int, b.whole_end as int));
    if pointed {
        assert(rest.drop_first() =~= chars.subrange(b.fraction_start as int, to));
        let fraction = leading_digits(rest.drop_first());
        assert(rest.skip(1 + fraction as int) =~= chars.subrange(b.fraction_end as int, to));
        assert(rest.subrange(1, 1 + fraction as int) =~= chars.subrange(
            b.fraction_start as int,
            b.fraction_end as int,
        ));
    } else {
        assert(digits_within(chars, b) =~= chars.subrange(b.first as int, b.whole_end as int));
    }
}

/// Finds the sign and the digits of the number that `chars[from..to]`
/// starts with.
pub(crate) fn scan_number(chars: &Vec<char>, from: usize, to: usize) -> (b: NumberBounds)
    requires
        from <= to <= chars.len(),
    ensures
        bounds_fit(chars@, from as int, to as int, b),
{
    let signed = from < to && (chars[from] == '-' || chars[from] == '+');
    let first = if signed { from + 1 } else { from };
    let whole_end = scan_digits(chars, first, to);
    if whole_end < to && chars[whole_end] == '.' {
        let fraction_start = whole_end + 1;
        let fraction_end = scan_digits(chars, fraction_start, to);
        NumberBounds { first, whole_end, fraction_start, fraction_end }
    } else {
        assert(chars@.subrange(whole_end as int, whole_end as int) =~= Seq::<char>::empty());
        NumberBounds { first, whole_end, fraction_start: whole_end, fraction_end: whole_end }
    }
}

/// Copies what stands in `chars[from..to]` to the end of `out`.
pub(crate) fn push_range(out: &mut Vec<char>, chars: &Vec<char>, from: usize, to: usize)
    requires
        from <= to <= chars.len(),
    ensures
        final(out)@ == old(out)@ + chars@.subrange(from as int, to as int),
{
    let mut i = from;
    while i < to
        invariant
            from <= i <= to <= chars.len(),
            out@ == old(out)@ + chars@.subrange(from as int, i as int),
        decreases to - i,
    {
        out.push(chars[i]);
        assert(out@ =~= old(out)@ + chars@.subrange(from as int, i + 1));
        i = i + 1;
    }
}

/// Reads the exponent that stands in `chars[from..to]`. The value comes back
/// kept within `EXPONENT_CAP`.
pub(crate) fn parse_exponent(chars: &Vec<char>, from: usize, to: usize) -> (value: Option<i128>)
    requires
        from <= to <= chars.len(),
    ensures
        ({
            let written = exponent(chars@.subrange(from as int, to as int));
            match value {
                Some(v) => written matches Some(w) && v == clamped(w, EXPONENT_CAP as int),
                None => written is None,
            }
        }),
{
    let ghost end = chars@.subrange(from as int, to as int);
    if from == to {
        return Some(0);
    }
    assert(end.first() == chars@[from as int]);
    if chars[from] == 'e' || chars[from] == 'E' {
        assert(end.drop_first() =~= chars@.subrange(from + 1, to as int));
        parse_integer(chars, from + 1, to)
    } else {
        None
    }
}

/// A point that an exponent beyond `EXPONENT_CAP` has moved lies far outside
/// the digits, where its exact place changes nothing that fits in 64 bits.
pub proof fn lemma_capped_point(digits: Seq<char>, whole: int, moved: int)
    requires
        0 <= whole <= digits.len() <= usize::MAX,
    ensures
        ({
            let exact = value_before_point(digits, whole + moved);
            let capped = value_before_point(
                digits,
                whole + clamped(moved, EXPONENT_CAP as int),
            );
            exact == capped || (exact > WHOLE_LIMIT && capped > WHOLE_LIMIT)
        }),
{
    let cap = EXPONENT_CAP as int;
    if moved > cap {
        if digits_value(digits) == 0 {
            lemma_value_of_zeros(digits, whole + moved);
            lemma_value_of_zeros(digits, whole + cap);
        } else {
            lemma_far_point_overflows(digits, whole + moved);
            lemma_far_point_overflows(digits, whole + cap);
        }
    }
}

/// Reads `chars[from..to]` as a number in decimal notation and hands out its
/// whole part, if that fits in 64 bits.
pub(crate) fn parse_whole(chars: &Vec<char>, from: usize, to: usize) -> (value: Option<i64>)
    requires
        from <= to <= chars.len(),
    ensures
        ({
            let written = whole_in_64_bits(chars@.subrange(from as int, to as int));
            match value {
                Some(v) => written == Some(v as int),
                None => written is None,
            }
        }),
{
    let b = scan_number(chars, from, to);
    proof {
        lemma_number_from_bounds(chars@, from as int, to as int, b);
    }
    if b.whole_end - b.first + (b.fraction_end - b.fraction_start) == 0 {
        return None;
    }
    let moved = match parse_exponent(chars, b.fraction_end, to) {
        Some(moved) => moved,
        None => {
            return None;
        },
    };
    let mut digits: Vec<char> = Vec::new();
    push_range(&mut digits, chars, b.first, b.whole_end);
    push_range(&mut digits, chars, b.fraction_start, b.fraction_end);
    assert(digits@ =~= digits_within(chars@, b));
    let whole = b.whole_end - b.first;
    proof {
        let exact = exponent(chars@.subrange(b.fraction_end as int, to as int))->0;
        lemma_capped_point(digits@, whole as int, exact);
    }
    let size = match whole_value(&digits, whole as i128 + moved) {
        Some(size) => size,
        None => {
            return None;
        },
    };
    let negative = chars[from] == '-';
    if negative {
        if size == WHOLE_LIMIT {
            Some(i64::MIN)
        } else {
            Some(-(size as i64))
        }
    } else if size == WHOLE_LIMIT {
        None
    } else {
        Some(size as i64)
    }
}

/// The text of one decimal digit.
fn digit_text(d: u8) -> (text: &'static str)
    requires
        d < 10,
    ensures
        text@ == seq![digit_char(d as nat)],
{
    proof {
        reveal_strlit("0");
        reveal_strlit("1");
        reveal_strlit("2");
        reveal_strlit("3");
        reveal_strlit("4");
        reveal_strlit("5");
        reveal_strlit("6");
        reveal_strlit("7");
        reveal_strlit("8");
        reveal_strlit("9");
    }
    let text = match d {
        0 => "0",
        1 => "1",
        2 => "2",
        3 => "3",
        4 => "4",
        5 => "5",
        6 => "6",
        7 => "7",
        8 => "8",
        _ => "9",
    };
    assert(text@ =~= seq![digit_char(d as nat)]);
    text
}

/// Appends `n`, written in decimal, to `out`.
pub(crate) fn push_decimal(out: &mut String, n: u128)
    ensures
        final(out)@ == old(out)@ + decimal(n as nat),
    decreases n,
{
    if n >= 10 {
        push_decimal(out, n / 10);
    }
    out.append(digit_text((n % 10) as u8));
    assert(out@ =~= old(out)@ + decimal(n as nat));
}

/// Appends a count of tenths to `out`, with one digit after the point if
/// `fixed` is set and as the shortest decimal number if not.
pub(crate) fn push_tenths(out: &mut String, tenths: i64, fixed: bool)
    ensures
        final(out)@ == old(out)@ + if fixed {
            tenths_fixed(tenths as int)
        } else {
            tenths_plain(tenths as int)
        },
{
    let size: u128 = if tenths < 0 {
        (-(tenths as i128)) as u128
    } else {
        tenths as u128
    };
    if tenths < 0 {
        proof {
            reveal_strlit("-");
        }
        out.append("-");
    }
    assert(out@ =~= old(out)@ + sign(tenths < 0));
    push_decimal(out, size / 10);
    if fixed || size % 10 != 0 {
        proof {
            reveal_strlit(".");
        }
        out.append(".");
        out.append(digit_text((size % 10) as u8));
        assert(out@ =~= old(out)@ + tenths_fixed(tenths as int));
    } else {
        assert(out@ =~= old(out)@ + tenths_plain(tenths as int));
    }
}

} // verus!
