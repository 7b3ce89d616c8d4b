//! Exact decimal numbers with a fixed number of fractional digits, and the
//! text they are read from and written as.

use vstd::prelude::*;

use crate::error::DecodeError;

verus! {

/// Number of fractional digits a `Decimal` keeps.
pub const FRACTION_DIGITS: usize = 8;

/// How many units make one: ten to the power `FRACTION_DIGITS`.
pub const UNITS_PER_ONE: u64 = 100_000_000;

/// The byte that separates the whole part from the fraction.
pub const POINT: u8 = 0x2e;

/// The byte of the digit zero.
pub const ZERO: u8 = 0x30;

/// A non-negative decimal number, held as a count of units of
/// `1 / UNITS_PER_ONE`. Two decimals are equal exactly when their unit
/// counts are, and ordered as their unit counts are.
#[derive(Copy, Clone, PartialEq, Eq, Debug, Structural)]
pub struct Decimal {
    pub units: u64,
}

/// `byte` is one of the ten digits.
pub open spec fn is_digit(byte: u8) -> bool {
    ZERO <= byte <= ZERO + 9
}

/// Every byte of `text` is a digit.
pub open spec fn all_digits(text: Seq<u8>) -> bool {
    forall|i: int| 0 <= i < text.len() ==> is_digit(#[trigger] text[i])
}

/// The number that a digit byte stands for.
pub open spec fn digit_value(byte: u8) -> nat {
    if is_digit(byte) {
        (byte - ZERO) as nat
    } else {
        0
    }
}

/// The number that a run of digits spells, most significant digit first.
pub open spec fn digits_value(text: Seq<u8>) -> nat
    decreases text.len(),
{
    if text.len() == 0 {
        0
    } else {
        10 * digits_value(text.drop_last()) + digit_value(text.last())
    }
}

/// Ten to the power `exponent`.
pub open spec fn pow10(exponent: nat) -> nat
    decreases exponent,
{
    if exponent == 0 {
        1
    } else {
        10 * pow10((exponent - 1) as nat)
    }
}

/// Where the whole part of `text` ends: the index of its first point, or
/// its length when it has none.
pub open spec fn point_at(text: Seq<u8>) -> int
    decreases text.len(),
{
    if text.len() == 0 || text[0] == POINT {
        0
    } else {
        1 + point_at(text.drop_first())
    }
}

/// What precedes the first point; the whole text when there is no point.
pub open spec fn whole_part(text: Seq<u8>) -> Seq<u8> {
    text.take(point_at(text))
}

/// What follows the first point; empty when there is no point.
pub open spec fn fraction_part(text: Seq<u8>) -> Seq<u8> {
    if point_at(text) < text.len() {
        text.skip(point_at(text) + 1)
    } else {
        Seq::empty()
    }
}

/// `text` is a decimal numeral: one or more digits, and then, if anything
/// follows, a point and one or more digits. No sign, no exponent, no blanks.
pub open spec fn is_numeral(text: Seq<u8>) -> bool {
    &&& whole_part(text).len() > 0
    &&& all_digits(whole_part(text))
    &&& all_digits(fraction_part(text))
    &&& point_at(text) < text.len() ==> fraction_part(text).len() > 0
}

/// The value of a numeral in units, where the numeral has no more than
/// `FRACTION_DIGITS` fractional digits.
pub open spec fn numeral_units(text: Seq<u8>) -> nat {
    digits_value(whole_part(text)) * (UNITS_PER_ONE as nat) + digits_value(fraction_part(text))
        * pow10((FRACTION_DIGITS - fraction_part(text).len()) as nat)
}

/// What reading `text` as a decimal gives.
pub open spec fn read_bytes(text: Seq<u8>) -> Result<Decimal, DecodeError> {
    if !is_numeral(text) {
        Err(DecodeError::MalformedNumber)
    } else if fraction_part(text).len() > FRACTION_DIGITS || numeral_units(text) > u64::MAX {
        Err(DecodeError::NumberOutOfRange)
    } else {
        Ok(Decimal { units: numeral_units(text) as u64 })
    }
}

/// The bytes of a text that holds ASCII characters only.
pub open spec fn ascii_bytes(text: Seq<char>) -> Seq<u8> {
    Seq::new(text.len(), |i: int| text[i] as u8)
}

/// What reading a string as a decimal gives. A character outside ASCII
/// makes the string malformed.
pub open spec fn read_text(text: Seq<char>) -> Result<Decimal, DecodeError> {
    if !vstd::utf8::is_ascii_chars(text) {
        Err(DecodeError::MalformedNumber)
    } else {
        read_bytes(ascii_bytes(text))
    }
}

/// The byte of a digit.
pub open spec fn digit_byte(digit: nat) -> u8 {
    (ZERO + digit) as u8
}

/// The digits of `n`, most significant first, without leading zeros; the
/// single digit zero for zero.
pub open spec fn numeral(n: nat) -> Seq<u8>
    decreases n,
{
    if n < 10 {
        seq![digit_byte(n)]
    } else {
        numeral(n / 10).push(digit_byte(n % 10))
    }
}

/// The last `width` digits of `n`, most significant first, leading zeros
/// included.
pub open spec fn fixed_digits(n: nat, width: nat) -> Seq<u8>
    decreases width,
{
    if width == 0 {
        Seq::empty()
    } else {
        fixed_digits(n / 10, (width - 1) as nat).push(digit_byte(n % 10))
    }
}

/// The last `width` digits of `fraction` without their trailing zeros:
/// nothing at all when they are all zero.
pub open spec fn trimmed_digits(fraction: nat, width: nat) -> Seq<u8>
    decreases width,
{
    if width == 0 {
        Seq::empty()
    } else if fraction % 10 == 0 {
        trimmed_digits(fraction / 10, (width - 1) as nat)
    } else {
        fixed_digits(fraction, width)
    }
}

/// The shortest numeral of a decimal: the whole part, and the fraction
/// without trailing zeros where it is not zero.
pub open spec fn plain_text(units: nat) -> Seq<u8> {
    let whole = units / (UNITS_PER_ONE as nat);
    let fraction = units % (UNITS_PER_ONE as nat);
    if fraction == 0 {
        numeral(whole)
    } else {
        numeral(whole) + seq![POINT] + trimmed_digits(fraction, FRACTION_DIGITS as nat)
    }
}

/// How many units make one hundredth.
pub const UNITS_PER_HUNDREDTH: u64 = 1_000_000;

/// A decimal rounded to hundredths; a tie goes to the even neighbour.
pub open spec fn hundredths(units: nat) -> nat {
    let below = units / (UNITS_PER_HUNDREDTH as nat);
    let rest = units % (UNITS_PER_HUNDREDTH as nat);
    if 2 * rest > UNITS_PER_HUNDREDTH || (2 * rest == UNITS_PER_HUNDREDTH && below % 2 == 1) {
        below + 1
    } else {
        below
    }
}

/// The numeral of a decimal with exactly two fractional digits.
pub open spec fn two_place_text(units: nat) -> Seq<u8> {
    numeral(hundredths(units) / 100) + seq![POINT] + fixed_digits(hundredths(units) % 100, 2)
}

proof fn lemma_point_at(text: Seq<u8>, at: int)
    requires
        0 <= at <= text.len(),
        forall|i: int| 0 <= i < at ==> text[i] != POINT,
        at < text.len() ==> text[at] == POINT,
    ensures
        point_at(text) == at,
    decreases text.len(),
{
    if at > 0 {
        let rest = text.drop_first();
        assert(forall|i: int| 0 <= i < at - 1 ==> rest[i] == text[i + 1]);
        lemma_point_at(rest, at - 1);
    }
}

proof fn lemma_prefix_value(text: Seq<u8>, len: int)
    requires
        0 <= len <= text.len(),
    ensures
        digits_value(text.take(len)) <= digits_value(text),
    decreases text.len(),
{
    if len < text.len() {
        assert(text.drop_last().take(len) =~= text.take(len));
        lemma_prefix_value(text.drop_last(), len);
    } else {
        assert(text.take(len) =~= text);
    }
}

fn find_point(text: &[u8]) -> (at: usize)
    ensures
        at == point_at(text@),
        at <= text@.len(),
{
    let n: usize = text.len();
    let mut at: usize = 0;
    while at < n && text[at] != POINT
        invariant
            n == text@.len(),
            at <= n,
            forall|i: int| 0 <= i < at ==> text@[i] != POINT,
        decreases n - at,
    {
        at += 1;
    }
    proof {
        lemma_point_at(text@, at as int);
    }
    at
}

fn digits_only(text: &[u8], from: usize, to: usize) -> (yes: bool)
    requires
        from <= to <= text@.len(),
    ensures
        yes == all_digits(text@.subrange(from as int, to as int)),
{
    let ghost run = text@.subrange(from as int, to as int);
    let mut i: usize = from;
    while i < to
        invariant
            from <= i <= to <= text@.len(),
            run == text@.subrange(from as int, to as int),
            forall|j: int| 0 <= j < i - from ==> is_digit(#[trigger] run[j]),
        decreases to - i,
    {
        if text[i] < ZERO || text[i] > ZERO + 9 {
            assert(!is_digit(run[i - from]));
            return false;
        }
        i += 1;
    }
    true
}

/// Reads a run of digits, unless its value is beyond `u64`.
fn read_digits(text: &[u8], from: usize, to: usize) -> (value: Option<u64>)
    requires
        from <= to <= text@.len(),
        all_digits(text@.subrange(from as int, to as int)),
    ensures
        value == (if digits_value(text@.subrange(from as int, to as int)) <= u64::MAX {
            Some(digits_value(text@.subrange(from as int, to as int)) as u64)
        } else {
            None
        }),
{
    let ghost run = text@.subrange(from as int, to as int);
    let mut value: u128 = 0;
    let mut i: usize = from;
    while i < to
        invariant
            from <= i <= to <= text@.len(),
            run == text@.subrange(from as int, to as int),
            all_digits(run),
            value == digits_value(run.take(i - from)),
            value <= u64::MAX,
        decreases to - i,
    {
        assert(is_digit(run[i - from]));
        let digit: u8 = text[i] - ZERO;
        proof {
            assert(run.take(i - from + 1).drop_last() =~= run.take(i - from));
            assert(run.take(i - from + 1).last() == text@[i as int]);
        }
        value = value * 10 + digit as u128;
        i += 1;
        if value > u64::MAX as u128 {
            proof {
                lemma_prefix_value(run, i - from);
            }
            return None;
        }
    }
    proof {
        assert(run.take(to - from) =~= run);
    }
    Some(value as u64)
}

fn power_of_ten(exponent: usize) -> (power: u64)
    requires
        exponent <= FRACTION_DIGITS,
    ensures
        power == pow10(exponent as nat),
        power <= UNITS_PER_ONE,
{
    proof {
        reveal_with_fuel(pow10, 9);
    }
    let mut power: u64 = 1;
    let mut i: usize = 0;
    while i < exponent
        invariant
            i <= exponent <= FRACTION_DIGITS,
            power == pow10(i as nat),
            pow10(8) == 100_000_000,
            forall|k: nat| k < 8 ==> 10 * #[trigger] pow10(k) <= pow10(8),
        decreases exponent - i,
    {
        power = power * 10;
        i += 1;
    }
    power
}

proof fn lemma_pow10_positive(exponent: nat)
    ensures
        pow10(exponent) >= 1,
    decreases exponent,
{
    if exponent > 0 {
        lemma_pow10_positive((exponent - 1) as nat);
    }
}

fn push_numeral(out: &mut Vec<u8>, n: u64)
    ensures
        final(out)@ == old(out)@ + numeral(n as nat),
    decreases n,
{
    if n >= 10 {
        push_numeral(out, n / 10);
    }
    out.push(ZERO + (n % 10) as u8);
    proof {
        assert(out@ =~= old(out)@ + numeral(n as nat));
    }
}

fn push_fixed_digits(out: &mut Vec<u8>, n: u64, width: usize)
    ensures
        final(out)@ == old(out)@ + fixed_digits(n as nat, width as nat),
    decreases width,
{
    if width > 0 {
        push_fixed_digits(out, n / 10, width - 1);
        out.push(ZERO + (n % 10) as u8);
    }
    proof {
        assert(out@ =~= old(out)@ + fixed_digits(n as nat, width as nat));
    }
}

fn push_trimmed_digits(out: &mut Vec<u8>, fraction: u64, width: usize)
    ensures
        final(out)@ == old(out)@ + trimmed_digits(fraction as nat, width as nat),
    decreases width,
{
    if width == 0 {
        proof {
            assert(out@ =~= old(out)@ + trimmed_digits(fraction as nat, width as nat));
        }
    } else if fraction % 10 == 0 {
        push_trimmed_digits(out, fraction / 10, width - 1);
    } else {
        push_fixed_digits(out, fraction, width);
    }
}

impl Decimal {
    /// Writes the shortest numeral of this number to the end of `out`:
    /// `2`, `1.5`, `0.00000001`.
    pub fn write_plain(&self, out: &mut Vec<u8>)
        ensures
            final(out)@ == old(out)@ + plain_text(self.units as nat),
    {
        let whole: u64 = self.units / UNITS_PER_ONE;
        let fraction: u64 = self.units % UNITS_PER_ONE;
        push_numeral(out, whole);
        if fraction != 0 {
            out.push(POINT);
            push_trimmed_digits(out, fraction, FRACTION_DIGITS);
        }
        proof {
            assert(out@ =~= old(out)@ + plain_text(self.units as nat));
        }
    }

    /// Writes this number, rounded to two fractional digits, to the end of
    /// `out`: `100.50`, `2.00`.
    pub fn write_two_places(&self, out: &mut Vec<u8>)
        ensures
            final(out)@ == old(out)@ + two_place_text(self.units as nat),
    {
        let below: u64 = self.units / UNITS_PER_HUNDREDTH;
        let rest: u64 = self.units % UNITS_PER_HUNDREDTH;
        let rounded: u64 = if 2 * rest > UNITS_PER_HUNDREDTH || (2 * rest == UNITS_PER_HUNDREDTH
            && below % 2 == 1) {
            below + 1
        } else {
            below
        };
        push_numeral(out, rounded / 100);
        out.push(POINT);
        push_fixed_digits(out, rounded % 100, 2);
        proof {
            assert(out@ =~= old(out)@ + two_place_text(self.units as nat));
        }
    }

    /// The shortest numeral of this number.
    pub fn to_bytes(&self) -> (text: Vec<u8>)
        ensures
            text@ == plain_text(self.units as nat),
    {
        let mut text: Vec<u8> = Vec::new();
        self.write_plain(&mut text);
        text
    }

    /// The number zero.
    pub fn zero() -> (d: Decimal)
        ensures
            d.units == 0,
    {
        Decimal { units: 0 }
    }

    /// Whether this number is exactly zero.
    pub fn is_zero(&self) -> (z: bool)
        ensures
            z == (self.units == 0),
    {
        self.units == 0
    }

    /// Reads a decimal from the bytes of its numeral.
    pub fn from_bytes(text: &[u8]) -> (outcome: Result<Decimal, DecodeError>)
        ensures
            outcome == read_bytes(text@),
    {
        let n: usize = text.len();
        let at: usize = find_point(text);
        proof {
            assert(whole_part(text@) =~= text@.subrange(0, at as int));
            if at < n {
                assert(fraction_part(text@) =~= text@.subrange(at + 1, n as int));
            }
        }
        if at == 0 || !digits_only(text, 0, at) {
            return Err(DecodeError::MalformedNumber);
        }
        if at < n && (at + 1 == n || !digits_only(text, at + 1, n)) {
            return Err(DecodeError::MalformedNumber);
        }
        assert(is_numeral(text@));
        let fraction_len: usize = if at < n { n - at - 1 } else { 0 };
        if fraction_len > FRACTION_DIGITS {
            return Err(DecodeError::NumberOutOfRange);
        }
        let whole: u64 = match read_digits(text, 0, at) {
            Some(whole) => whole,
            None => {
                assert(numeral_units(text@) > u64::MAX) by (nonlinear_arith)
                    requires
                        digits_value(whole_part(text@)) > u64::MAX,
                        numeral_units(text@) >= digits_value(whole_part(text@)) * UNITS_PER_ONE,
                ;
                return Err(DecodeError::NumberOutOfRange);
            },
        };
        let fraction: u64 = if at < n {
            match read_digits(text, at + 1, n) {
                Some(fraction) => fraction,
                None => {
                    proof {
                        lemma_pow10_positive((FRACTION_DIGITS - fraction_len) as nat);
                    }
                    assert(numeral_units(text@) > u64::MAX) by (nonlinear_arith)
                        requires
                            digits_value(fraction_part(text@)) > u64::MAX,
                            pow10((FRACTION_DIGITS - fraction_len) as nat) >= 1,
                            numeral_units(text@) == digits_value(whole_part(text@)) * UNITS_PER_ONE
                                + digits_value(fraction_part(text@)) * pow10(
                                (FRACTION_DIGITS - fraction_len) as nat,
                            ),
                    ;
                    return Err(DecodeError::NumberOutOfRange);
                },
            }
        } else {
            0
        };
        let scale: u64 = power_of_ten(FRACTION_DIGITS - fraction_len);
        assert(fraction as u128 * scale as u128 <= u64::MAX * UNITS_PER_ONE) by (nonlinear_arith)
            requires
                fraction <= u64::MAX,
                scale <= UNITS_PER_ONE,
        ;
        let units: u128 = whole as u128 * UNITS_PER_ONE as u128 + fraction as u128 * scale as u128;
        assert(units == numeral_units(text@));
        if units > u64::MAX as u128 {
            return Err(DecodeError::NumberOutOfRange);
        }
        Ok(Decimal { units: units as u64 })
    }

    /// Reads a decimal from a string such as `"100.5"`.
    pub fn from_text(text: &str) -> (outcome: Result<Decimal, DecodeError>)
        ensures
            outcome == read_text(text@),
    {
        if !text.is_ascii() {
            return Err(DecodeError::MalformedNumber);
        }
        let bytes = text.as_bytes();
        proof {
            vstd::string::is_ascii_spec_bytes(text);
            assert(bytes@ =~= ascii_bytes(text@));
        }
        Decimal::from_bytes(bytes)
    }
}

proof fn lemma_numeral(n: nat)
    ensures
        numeral(n).len() > 0,
        all_digits(numeral(n)),
        digits_value(numeral(n)) == n,
    decreases n,
{
    if n < 10 {
        assert(numeral(n).drop_last() =~= Seq::<u8>::empty());
        assert(digits_value(Seq::<u8>::empty()) == 0);
        assert(numeral(n).last() == digit_byte(n));
    } else {
        lemma_numeral(n / 10);
        assert(numeral(n).drop_last() =~= numeral(n / 10));
        assert(numeral(n).last() == digit_byte(n % 10));
    }
}

proof fn lemma_fixed_digits(n: nat, width: nat)
    requires
        n < pow10(width),
    ensures
        fixed_digits(n, width).len() == width,
        all_digits(fixed_digits(n, width)),
        digits_value(fixed_digits(n, width)) == n,
    decreases width,
{
    if width > 0 {
        lemma_fixed_digits(n / 10, (width - 1) as nat);
        assert(fixed_digits(n, width).drop_last() =~= fixed_digits(n / 10, (width - 1) as nat));
    }
}

proof fn lemma_trimmed_digits(fraction: nat, width: nat)
    requires
        fraction < pow10(width),
    ensures
        trimmed_digits(fraction, width).len() <= width,
        fraction > 0 ==> trimmed_digits(fraction, width).len() > 0,
        all_digits(trimmed_digits(fraction, width)),
        digits_value(trimmed_digits(fraction, width)) * pow10(
            (width - trimmed_digits(fraction, width).len()) as nat,
        ) == fraction,
    decreases width,
{
    if width == 0 {
        assert(digits_value(Seq::<u8>::empty()) == 0);
    } else if fraction % 10 == 0 {
        let shorter = trimmed_digits(fraction / 10, (width - 1) as nat);
        lemma_trimmed_digits(fraction / 10, (width - 1) as nat);
        let gap = (width - 1 - shorter.len()) as nat;
        assert(trimmed_digits(fraction, width) == shorter);
        assert(pow10((width - shorter.len()) as nat) == 10 * pow10(gap));
        assert(digits_value(shorter) * (10 * pow10(gap)) == 10 * (digits_value(shorter) * pow10(
            gap,
        ))) by (nonlinear_arith);
        assert(10 * (fraction / 10) == fraction);
    } else {
        lemma_fixed_digits(fraction, width);
        assert(trimmed_digits(fraction, width) == fixed_digits(fraction, width));
        assert(pow10(0) == 1);
        assert(digits_value(fixed_digits(fraction, width)) * 1 == fraction);
    }
}

/// What `Decimal::write_plain` writes, `Decimal::from_bytes` reads back as
/// the same number.
pub proof fn lemma_written_is_read_back(units: u64)
    ensures
        read_bytes(plain_text(units as nat)) == Ok::<Decimal, DecodeError>(Decimal { units }),
{
    let one = UNITS_PER_ONE as nat;
    let whole = (units as nat) / one;
    let fraction = (units as nat) % one;
    let text = plain_text(units as nat);
    assert(pow10(FRACTION_DIGITS as nat) == one) by {
        reveal_with_fuel(pow10, 9);
    }
    assert(whole * one + fraction == units);
    lemma_numeral(whole);
    if fraction == 0 {
        assert(text == numeral(whole));
        assert forall|i: int| 0 <= i < text.len() implies text[i] != POINT by {
            assert(is_digit(text[i]));
        }
        lemma_point_at(text, text.len() as int);
        assert(whole_part(text) =~= numeral(whole));
        assert(fraction_part(text) =~= Seq::<u8>::empty());
        assert(digits_value(fraction_part(text)) == 0);
        lemma_units_of_parts(text, whole, 0, one);
    } else {
        let digits = trimmed_digits(fraction, FRACTION_DIGITS as nat);
        lemma_trimmed_digits(fraction, FRACTION_DIGITS as nat);
        assert(text == numeral(whole) + seq![POINT] + digits);
        assert forall|i: int| 0 <= i < numeral(whole).len() implies text[i] != POINT by {
            assert(is_digit(numeral(whole)[i]));
        }
        lemma_point_at(text, numeral(whole).len() as int);
        assert(whole_part(text) =~= numeral(whole));
        assert(fraction_part(text) =~= digits);
        assert(is_numeral(text));
        lemma_units_of_parts(
            text,
            whole,
            digits_value(digits),
            pow10((FRACTION_DIGITS - digits.len()) as nat),
        );
    }
}

proof fn lemma_units_of_parts(text: Seq<u8>, whole: nat, fraction: nat, scale: nat)
    requires
        digits_value(whole_part(text)) == whole,
        digits_value(fraction_part(text)) == fraction,
        pow10((FRACTION_DIGITS - fraction_part(text).len()) as nat) == scale,
    ensures
        numeral_units(text) == whole * (UNITS_PER_ONE as nat) + fraction * scale,
{
}

} // verus!
