//! Timestamps of variable precision: calendar fields held in UTC, an
//! optional fixed UTC offset in minutes, a precision tag, and an optional
//! sub-second mantissa.
//!
//! Two equalities live here. Value equality (`==`) compares the instants
//! denoted: the sub-second fractions must agree as values, and the
//! remaining fields, which are always stored normalized to UTC, must agree
//! outright; an unknown offset is treated as UTC for this comparison only.
//! Representation equality (`ion_eq`) additionally requires the same
//! precision and the same offset, including agreement on whether the offset
//! is known at all.

use vstd::prelude::*;
use vstd::arithmetic::div_mod::{
    lemma_fundamental_div_mod, lemma_basic_div, lemma_div_is_ordered_by_denominator,
};
use crate::coefficient::{Coefficient, Magnitude, Sign};
use crate::decimal::{Decimal, dec_value_eq};
use crate::digits::{
    num_digits, spec_first_n_digits, first_n_digits_of, num_decimal_digits_in_u64,
    lemma_num_digits_le, pow10, zero_bytes, padded_digit_bytes,
    dec_digit_bytes,
};
use crate::{IonError, IonResult};

verus! {

/// The most precise time unit a timestamp asserts, in increasing order.
#[derive(Clone, Copy, Debug, PartialEq, Eq, Structural)]
pub enum Precision {
    /// Year-level precision (e.g. `2020T`).
    Year,
    /// Month-level precision (e.g. `2020-08T`).
    Month,
    /// Day-level precision (e.g. `2020-08-01T`).
    Day,
    /// Minute-level precision (e.g. `2020-08-01T12:34Z`).
    HourAndMinute,
    /// Second-level precision or finer (e.g. `2020-08-01T12:34:56.123Z`).
    Second,
}

impl Precision {
    /// The position of this precision in the total order, year first.
    pub open spec fn spec_rank(self) -> int {
        match self {
            Precision::Year => 0,
            Precision::Month => 1,
            Precision::Day => 2,
            Precision::HourAndMinute => 3,
            Precision::Second => 4,
        }
    }

    /// The position of this precision in the total order, year first.
    pub fn rank(&self) -> (r: u8)
        ensures
            r == self.spec_rank(),
    {
        match self {
            Precision::Year => 0,
            Precision::Month => 1,
            Precision::Day => 2,
            Precision::HourAndMinute => 3,
            Precision::Second => 4,
        }
    }
}

/// The sub-second fraction of a timestamp. `Digits(n)` means: read the
/// first `n` decimal digits of the nanosecond field of the timestamp's
/// date-time. `Arbitrary(d)` carries the fraction itself as a decimal in
/// `[0, 1)`.
#[derive(Clone, Debug, PartialEq)]
pub enum Mantissa {
    /// The number of digits of precision sourced from the date-time's
    /// nanoseconds; `3` means milliseconds, `6` microseconds.
    Digits(u32),
    /// The fraction as an explicit decimal in `[0, 1)`.
    Arbitrary(Decimal),
}

/// Whether a mantissa denotes no sub-second precision at all: zero digits,
/// or a decimal that is zero with exponent zero.
pub open spec fn spec_mantissa_is_empty(m: Mantissa) -> bool {
    match m {
        Mantissa::Digits(d) => d == 0,
        Mantissa::Arbitrary(dec) => dec.spec_is_empty(),
    }
}

impl Mantissa {
    /// Whether this mantissa denotes no sub-second precision at all.
    pub fn is_empty(&self) -> (r: bool)
        ensures
            r == spec_mantissa_is_empty(*self),
    {
        match self {
            Mantissa::Digits(d) => *d == 0,
            Mantissa::Arbitrary(dec) => dec.is_empty_value(),
        }
    }

    /// Fraction-value equality of two decimals: empty fractions match each
    /// other, and zero coefficients match regardless of sign.
    pub fn decimals_equal(d1: &Decimal, d2: &Decimal) -> (r: bool)
        ensures
            r == dec_value_eq(*d1, *d2),
    {
        (d1.is_empty_value() && d2.is_empty_value()) || d1.eq(d2) || (d1.coefficient.is_zero()
            && d2.coefficient.is_zero() && d1.exponent == d2.exponent)
    }
}

/// A calendar date and time of day, without any zone or offset attached.
#[derive(Clone, Copy, Debug, PartialEq, Eq, Structural)]
pub struct CivilDateTime {
    pub year: i32,
    pub month: u8,
    pub day: u8,
    pub hour: u8,
    pub minute: u8,
    pub second: u8,
    pub nanosecond: u32,
}

/// The proleptic Gregorian leap-year rule.
pub open spec fn spec_is_leap_year(y: int) -> bool {
    (y % 4 == 0 && y % 100 != 0) || y % 400 == 0
}

/// The number of days of month `m` of year `y`.
pub open spec fn spec_days_in_month(y: int, m: int) -> int {
    if m == 2 {
        if spec_is_leap_year(y) {
            29
        } else {
            28
        }
    } else if m == 4 || m == 6 || m == 9 || m == 11 {
        30
    } else {
        31
    }
}

/// The number of days of month `m` of year `y`.
pub fn days_in_month(year: i32, month: u8) -> (r: u8)
    requires
        year >= 0,
        1 <= month <= 12,
    ensures
        r == spec_days_in_month(year as int, month as int),
{
    if month == 2 {
        if (year % 4 == 0 && year % 100 != 0) || year % 400 == 0 {
            29
        } else {
            28
        }
    } else if month == 4 || month == 6 || month == 9 || month == 11 {
        30
    } else {
        31
    }
}

impl CivilDateTime {
    /// Calendar validity: fields in range, the day within its month, the
    /// year within the representable span (one year of slack on each side
    /// of `1..=9999` for offset normalization).
    pub open spec fn wf(self) -> bool {
        &&& 0 <= self.year <= 10000
        &&& 1 <= self.month <= 12
        &&& 1 <= self.day <= spec_days_in_month(self.year as int, self.month as int)
        &&& self.hour < 24
        &&& self.minute < 60
        &&& self.second < 60
        &&& self.nanosecond < 1_000_000_000
    }
}

/// Whether two date-times agree on every field down to whole seconds,
/// ignoring the sub-second part.
pub open spec fn spec_civil_eq_to_second(a: CivilDateTime, b: CivilDateTime) -> bool {
    a.year == b.year && a.month == b.month && a.day == b.day && a.hour == b.hour && a.minute
        == b.minute && a.second == b.second
}

/// The calendar day after `(y, m, d)`.
pub open spec fn spec_next_day(y: int, m: int, d: int) -> (int, int, int) {
    if d < spec_days_in_month(y, m) {
        (y, m, d + 1)
    } else if m < 12 {
        (y, m + 1, 1)
    } else {
        (y + 1, 1, 1)
    }
}

/// The calendar day before `(y, m, d)`.
pub open spec fn spec_prev_day(y: int, m: int, d: int) -> (int, int, int) {
    if d > 1 {
        (y, m, d - 1)
    } else if m > 1 {
        (y, m - 1, spec_days_in_month(y, m - 1))
    } else {
        (y - 1, 12, 31)
    }
}

/// The date-time `delta` minutes later (or earlier, for negative `delta`).
/// Only shifts of less than a day arise: a fixed UTC offset never exceeds
/// `1439` minutes, so at most one calendar-day borrow or carry occurs.
pub open spec fn spec_shift_minutes(dt: CivilDateTime, delta: int) -> CivilDateTime {
    let total = dt.hour * 60 + dt.minute + delta;
    if total < 0 {
        let (y, m, d) = spec_prev_day(dt.year as int, dt.month as int, dt.day as int);
        CivilDateTime {
            year: y as i32,
            month: m as u8,
            day: d as u8,
            hour: ((total + 1440) / 60) as u8,
            minute: ((total + 1440) % 60) as u8,
            second: dt.second,
            nanosecond: dt.nanosecond,
        }
    } else if total >= 1440 {
        let (y, m, d) = spec_next_day(dt.year as int, dt.month as int, dt.day as int);
        CivilDateTime {
            year: y as i32,
            month: m as u8,
            day: d as u8,
            hour: ((total - 1440) / 60) as u8,
            minute: ((total - 1440) % 60) as u8,
            second: dt.second,
            nanosecond: dt.nanosecond,
        }
    } else {
        CivilDateTime {
            year: dt.year,
            month: dt.month,
            day: dt.day,
            hour: (total / 60) as u8,
            minute: (total % 60) as u8,
            second: dt.second,
            nanosecond: dt.nanosecond,
        }
    }
}

/// Shifts a date-time by `delta` minutes, carrying or borrowing at most one
/// calendar day.
pub fn shift_minutes(dt: CivilDateTime, delta: i32) -> (r: CivilDateTime)
    requires
        dt.wf(),
        -1439 <= delta <= 1439,
    ensures
        r == spec_shift_minutes(dt, delta as int),
        1 <= r.month <= 12,
        1 <= r.day <= spec_days_in_month(r.year as int, r.month as int),
        r.hour < 24,
        r.minute < 60,
        r.second == dt.second,
        r.nanosecond == dt.nanosecond,
        dt.year - 1 <= r.year <= dt.year + 1,
        delta >= 0 ==> r.year >= dt.year,
        delta <= 0 ==> r.year <= dt.year,
{
    let total: i32 = (dt.hour as i32) * 60 + (dt.minute as i32) + delta;
    if total < 0 {
        let (y, m, d): (i32, u8, u8) = if dt.day > 1 {
            (dt.year, dt.month, dt.day - 1)
        } else if dt.month > 1 {
            (dt.year, dt.month - 1, days_in_month(dt.year, dt.month - 1))
        } else {
            (dt.year - 1, 12, 31)
        };
        let adjusted: i32 = total + 1440;
        CivilDateTime {
            year: y,
            month: m,
            day: d,
            hour: (adjusted / 60) as u8,
            minute: (adjusted % 60) as u8,
            second: dt.second,
            nanosecond: dt.nanosecond,
        }
    } else if total >= 1440 {
        let (y, m, d): (i32, u8, u8) = if dt.day < days_in_month(dt.year, dt.month) {
            (dt.year, dt.month, dt.day + 1)
        } else if dt.month < 12 {
            (dt.year, dt.month + 1, 1)
        } else {
            (dt.year + 1, 1, 1)
        };
        let adjusted: i32 = total - 1440;
        CivilDateTime {
            year: y,
            month: m,
            day: d,
            hour: (adjusted / 60) as u8,
            minute: (adjusted % 60) as u8,
            second: dt.second,
            nanosecond: dt.nanosecond,
        }
    } else {
        CivilDateTime {
            year: dt.year,
            month: dt.month,
            day: dt.day,
            hour: (total / 60) as u8,
            minute: (total % 60) as u8,
            second: dt.second,
            nanosecond: dt.nanosecond,
        }
    }
}

/// Shifting by a nonzero sub-day amount always changes some field: the
/// minutes-of-day move by `delta` modulo a possible day borrow, and a
/// borrow changes the date itself.
pub proof fn lemma_shift_changes(dt: CivilDateTime, delta: int)
    requires
        dt.wf(),
        -1439 <= delta <= 1439,
        delta != 0,
    ensures
        spec_shift_minutes(dt, delta) != dt,
        !spec_civil_eq_to_second(spec_shift_minutes(dt, delta), dt),
{
    let r = spec_shift_minutes(dt, delta);
    let total = dt.hour * 60 + dt.minute + delta;
    if total < 0 {
        assert(r.day != dt.day || r.month != dt.month || r.year != dt.year);
    } else if total >= 1440 {
        assert(r.day != dt.day || r.month != dt.month || r.year != dt.year);
    } else {
        assert(r.hour * 60 + r.minute == total) by {
            lemma_fundamental_div_mod(total, 60);
        }
        assert(r.hour != dt.hour || r.minute != dt.minute);
    }
}

/// The day before the day after a valid date is that date, and so is the
/// day after the day before it.
pub proof fn lemma_adjacent_days_inverse(y: int, m: int, d: int)
    requires
        1 <= m <= 12,
        1 <= d <= spec_days_in_month(y, m),
    ensures
        spec_next_day(spec_prev_day(y, m, d).0, spec_prev_day(y, m, d).1, spec_prev_day(y, m, d).2)
            == (y, m, d),
        spec_prev_day(spec_next_day(y, m, d).0, spec_next_day(y, m, d).1, spec_next_day(y, m, d).2)
            == (y, m, d),
{
}

/// Shifting by `delta` minutes and then by `-delta` returns to the
/// starting date-time: the shift is invertible.
pub proof fn lemma_shift_minutes_round_trip(dt: CivilDateTime, delta: int)
    requires
        1 <= dt.month <= 12,
        1 <= dt.day <= spec_days_in_month(dt.year as int, dt.month as int),
        dt.hour < 24,
        dt.minute < 60,
        -1439 <= delta <= 1439,
        i32::MIN < dt.year < i32::MAX,
    ensures
        spec_shift_minutes(spec_shift_minutes(dt, delta), -delta) == dt,
{
    lemma_adjacent_days_inverse(dt.year as int, dt.month as int, dt.day as int);
    let r = spec_shift_minutes(dt, delta);
    let total = dt.hour * 60 + dt.minute + delta;
    if total < 0 {
        lemma_fundamental_div_mod(total + 1440, 60);
        assert(r.hour * 60 + r.minute == total + 1440);
        lemma_fundamental_div_mod(dt.hour * 60 + dt.minute, 60);
        lemma_div_mod_unique_u8(dt.hour as int, dt.minute as int);
    } else if total >= 1440 {
        lemma_fundamental_div_mod(total - 1440, 60);
        assert(r.hour * 60 + r.minute == total - 1440);
        lemma_fundamental_div_mod(dt.hour * 60 + dt.minute, 60);
        lemma_div_mod_unique_u8(dt.hour as int, dt.minute as int);
    } else {
        lemma_fundamental_div_mod(total, 60);
        assert(r.hour * 60 + r.minute == total);
        lemma_div_mod_unique_u8(dt.hour as int, dt.minute as int);
    }
}

/// Hours and minutes are recovered from a minute-of-day count.
proof fn lemma_div_mod_unique_u8(h: int, m: int)
    requires
        0 <= h,
        0 <= m < 60,
    ensures
        (h * 60 + m) / 60 == h,
        (h * 60 + m) % 60 == m,
{
    vstd::arithmetic::div_mod::lemma_fundamental_div_mod_converse_div(h * 60 + m, 60, h, m);
    vstd::arithmetic::div_mod::lemma_fundamental_div_mod_converse_mod(h * 60 + m, 60, h, m);
}

/// A fraction decimal a builder accepts: non-negative, strictly below one,
/// and with an exponent whose negation is still representable. A
/// non-negative exponent is allowed only for the canonical empty fraction.
pub open spec fn spec_mantissa_dec_ok(dec: Decimal) -> bool {
    &&& !dec.spec_is_negative()
    &&& dec.exponent > i64::MIN
    &&& (dec.exponent >= 0 ==> dec.mag_value() == 0 && dec.exponent == 0)
    &&& (dec.exponent < 0 ==> num_digits(dec.mag_value()) <= -(dec.exponent as int))
}

/// A point in time to a declared precision. The calendar fields are stored
/// normalized to UTC; `offset` records the fixed difference, in minutes,
/// between the asserted local time and UTC, or `None` when no offset is
/// asserted.
#[derive(Clone, Debug)]
pub struct Timestamp {
    pub date_time: CivilDateTime,
    pub offset: Option<i32>,
    pub precision: Precision,
    pub fractional_seconds: Option<Mantissa>,
}

/// The coefficient of the decimal equivalent of a `Digits(d)` mantissa:
/// the first `d` digits of the nine-digit zero-padded nanosecond field.
pub open spec fn spec_frac_coefficient(d: nat, nanos: nat) -> nat {
    let lz = 9 - num_digits(nanos);
    if lz >= d {
        0
    } else {
        spec_first_n_digits((d - lz) as nat, nanos)
    }
}

/// The decimal equivalent of a `Digits(d)` mantissa over nanoseconds.
pub open spec fn spec_frac_decimal(d: nat, nanos: nat) -> Decimal {
    Decimal {
        coefficient: Coefficient {
            sign: Sign::Positive,
            magnitude: Magnitude::U64(spec_frac_coefficient(d, nanos) as u64),
        },
        exponent: (-(d as int)) as i64,
    }
}

/// Fraction-value equality of two timestamps' sub-second parts: absent and
/// empty fractions match each other; two digit-counted fractions must agree
/// on count and truncated value; decimals compare as values; mixed
/// representations compare through the digit side's decimal equivalent.
pub open spec fn spec_ts_frac_eq(t1: Timestamp, t2: Timestamp) -> bool {
    match (t1.fractional_seconds, t2.fractional_seconds) {
        (None, None) => true,
        (Some(m), None) => spec_mantissa_is_empty(m),
        (None, Some(m)) => spec_mantissa_is_empty(m),
        (Some(Mantissa::Digits(d1)), Some(Mantissa::Digits(d2))) => d1 == d2 && spec_first_n_digits(
            d1 as nat,
            t1.date_time.nanosecond as nat,
        ) == spec_first_n_digits(d2 as nat, t2.date_time.nanosecond as nat),
        (Some(Mantissa::Arbitrary(a)), Some(Mantissa::Arbitrary(b))) => dec_value_eq(a, b),
        (Some(Mantissa::Digits(d1)), Some(Mantissa::Arbitrary(b))) => dec_value_eq(
            spec_frac_decimal(d1 as nat, t1.date_time.nanosecond as nat),
            b,
        ),
        (Some(Mantissa::Arbitrary(a)), Some(Mantissa::Digits(d2))) => dec_value_eq(
            a,
            spec_frac_decimal(d2 as nat, t2.date_time.nanosecond as nat),
        ),
    }
}

/// Truncating to zero digits always yields zero.
pub proof fn lemma_first_n_digits_zero(v: nat)
    ensures
        spec_first_n_digits(0, v) == 0,
{
    crate::digits::lemma_num_digits_positive(v);
    crate::digits::lemma_num_digits_le(v, num_digits(v));
    lemma_basic_div(v as int, crate::digits::pow10(num_digits(v)) as int);
}

/// A truncated digit coefficient never exceeds the nanoseconds it came
/// from.
pub proof fn lemma_frac_coefficient_fits(d: nat, nanos: nat)
    ensures
        spec_frac_coefficient(d, nanos) <= nanos,
{
    let lz = 9 - num_digits(nanos);
    if !(lz >= d) {
        let k = (d - lz) as nat;
        if num_digits(nanos) > k {
            crate::digits::lemma_pow10_positive((num_digits(nanos) - k) as nat);
            lemma_div_is_ordered_by_denominator(
                nanos as int,
                1,
                crate::digits::pow10((num_digits(nanos) - k) as nat) as int,
            );
        }
    }
}

/// A decimal that matches the observables of a digit mantissa's decimal
/// equivalent compares equally against any other decimal.
pub proof fn lemma_frac_decimal_observables(d: nat, nanos: nat, a: Decimal, b: Decimal)
    requires
        nanos <= u32::MAX,
        a.coefficient.sign == Sign::Positive,
        a.mag_value() == spec_frac_coefficient(d, nanos),
        a.exponent == spec_frac_decimal(d, nanos).exponent,
    ensures
        dec_value_eq(a, b) == dec_value_eq(spec_frac_decimal(d, nanos), b),
{
    lemma_frac_coefficient_fits(d, nanos);
    let sd = spec_frac_decimal(d, nanos);
    assert(sd.coefficient.sign == Sign::Positive);
    assert(sd.mag_value() == spec_frac_coefficient(d, nanos));
}

/// The rendered text of a timestamp's sub-second fraction, dot included;
/// empty when the fraction is empty or absent. A `Digits(d)` mantissa
/// renders the nanoseconds scaled down to `d` digits and zero-padded to
/// `d`; an `Arbitrary` mantissa renders its coefficient behind the leading
/// zeros its exponent implies.
pub open spec fn spec_frac_text(t: Timestamp) -> Seq<u8> {
    match t.fractional_seconds {
        None => Seq::<u8>::empty(),
        Some(m) => if spec_mantissa_is_empty(m) {
            Seq::<u8>::empty()
        } else {
            match m {
                Mantissa::Digits(d) => seq![46u8] + padded_digit_bytes(
                    (t.date_time.nanosecond as nat) / pow10((9 - d) as nat),
                    d as nat,
                ),
                Mantissa::Arbitrary(dec) => seq![46u8] + zero_bytes(
                    ((-(dec.exponent as int)) - num_digits(dec.mag_value())) as nat,
                ) + dec_digit_bytes(dec.mag_value()),
            }
        },
    }
}

/// Value equality of timestamps: equal sub-second fractions and the same
/// UTC instant down to whole seconds. Precision is ignored, and an unknown
/// offset is compared as if it were UTC.
pub open spec fn spec_ts_value_eq(t1: Timestamp, t2: Timestamp) -> bool {
    spec_ts_frac_eq(t1, t2) && spec_civil_eq_to_second(t1.date_time, t2.date_time)
}

/// Representation equality of timestamps: same precision, same offset
/// (including agreement on offset-unknownness), and matching calendar
/// fields up to the declared precision, with fraction-value equality at
/// second precision.
pub open spec fn spec_ts_ion_eq(t1: Timestamp, t2: Timestamp) -> bool {
    &&& t1.precision == t2.precision
    &&& t1.offset == t2.offset
    &&& t1.date_time.year == t2.date_time.year
    &&& (t1.precision.spec_rank() >= 1 ==> t1.date_time.month == t2.date_time.month)
    &&& (t1.precision.spec_rank() >= 2 ==> t1.date_time.day == t2.date_time.day)
    &&& (t1.precision.spec_rank() >= 3 ==> t1.date_time.hour == t2.date_time.hour
        && t1.date_time.minute == t2.date_time.minute)
    &&& (t1.precision.spec_rank() >= 4 ==> t1.date_time.second == t2.date_time.second
        && spec_ts_frac_eq(t1, t2))
}

impl Timestamp {
    /// The invariant every built timestamp satisfies: a valid UTC
    /// date-time; an offset within a day with the year positioned so the
    /// local rendering stays representable; floor values in every field
    /// beyond the declared precision; and a mantissa only at second
    /// precision, within its legal range.
    pub open spec fn wf(self) -> bool {
        &&& self.date_time.wf()
        &&& match self.offset {
            None => 1 <= self.date_time.year <= 9999,
            Some(m) => -1439 <= m <= 1439 && (m > 0 ==> self.date_time.year <= 9999) && (m < 0
                ==> self.date_time.year >= 1),
        }
        &&& (self.precision.spec_rank() < 1 ==> self.date_time.month == 1)
        &&& (self.precision.spec_rank() < 2 ==> self.date_time.day == 1)
        &&& (self.precision.spec_rank() < 3 ==> self.date_time.hour == 0 && self.date_time.minute
            == 0 && self.offset is None)
        &&& (self.precision.spec_rank() < 4 ==> self.date_time.second == 0
            && self.date_time.nanosecond == 0 && self.fractional_seconds is None)
        &&& match self.fractional_seconds {
            None => self.precision.spec_rank() == 4 ==> self.date_time.nanosecond == 0,
            Some(Mantissa::Digits(d)) => d <= 9,
            Some(Mantissa::Arbitrary(dec)) => spec_mantissa_dec_ok(dec)
                && self.date_time.nanosecond == 0,
        }
    }

    /// The declared precision of this timestamp.
    pub fn precision(&self) -> (r: Precision)
        ensures
            r == self.precision,
    {
        self.precision
    }

    /// The fixed offset from UTC in minutes, or `None` when unknown.
    pub fn offset(&self) -> (r: Option<i32>)
        ensures
            r == self.offset,
    {
        self.offset
    }

    /// The decimal scale of the sub-second fraction (digits after the
    /// point), or `None` below second precision.
    pub fn fractional_seconds_scale(&self) -> (r: Option<i64>)
        requires
            self.wf(),
        ensures
            r == match self.fractional_seconds {
                Some(Mantissa::Digits(d)) => Some(d as i64),
                Some(Mantissa::Arbitrary(dec)) => Some((-dec.exponent) as i64),
                None => None::<i64>,
            },
    {
        match &self.fractional_seconds {
            Some(Mantissa::Digits(d)) => Some(*d as i64),
            Some(Mantissa::Arbitrary(dec)) => Some(dec.scale()),
            None => None,
        }
    }

    /// The sub-second fraction as a decimal, or `None` below second
    /// precision. A `Digits` mantissa converts to coefficient `first n
    /// digits of the nanoseconds` with exponent `-n`.
    pub fn fractional_seconds_as_decimal(&self) -> (r: Option<Decimal>)
        ensures
            match self.fractional_seconds {
                None => r is None,
                Some(Mantissa::Digits(d)) => r matches Some(dec) && dec.coefficient.sign
                    == Sign::Positive && dec.mag_value() == spec_frac_coefficient(
                    d as nat,
                    self.date_time.nanosecond as nat,
                ) && dec.exponent == spec_frac_decimal(
                    d as nat,
                    self.date_time.nanosecond as nat,
                ).exponent,
                Some(Mantissa::Arbitrary(dec)) => r matches Some(c) && c.coefficient.sign
                    == dec.coefficient.sign && c.mag_value() == dec.mag_value() && c.exponent
                    == dec.exponent,
            },
    {
        match &self.fractional_seconds {
            None => None,
            Some(Mantissa::Arbitrary(dec)) => Some(dec.clone_value()),
            Some(Mantissa::Digits(d)) => {
                let nanos: u32 = self.date_time.nanosecond;
                let digit_count: u32 = num_decimal_digits_in_u64(nanos as u64);
                let coefficient: u32 = if digit_count <= 9 && 9 - digit_count >= *d {
                    0
                } else {
                    let keep: u32 = if digit_count <= 9 {
                        *d - (9 - digit_count)
                    } else {
                        if *d > u32::MAX - (digit_count - 9) {
                            u32::MAX
                        } else {
                            *d + (digit_count - 9)
                        }
                    };
                    if keep >= 10 {
                        proof {
                            lemma_num_digits_le(nanos as nat, 10);
                            crate::digits::lemma_pow10_10_value();
                        }
                        nanos
                    } else {
                        first_n_digits_of(keep, nanos)
                    }
                };
                let exponent: i64 = -(*d as i64);
                Some(Decimal::new(coefficient as i64, exponent))
            },
        }
    }

    /// Fraction-value equality of the sub-second parts of two timestamps.
    pub fn fractional_seconds_equal(&self, other: &Timestamp) -> (r: bool)
        ensures
            r == spec_ts_frac_eq(*self, *other),
    {
        match (&self.fractional_seconds, &other.fractional_seconds) {
            (None, None) => true,
            (Some(m), None) => m.is_empty(),
            (None, Some(m)) => m.is_empty(),
            (Some(Mantissa::Digits(d1)), Some(Mantissa::Digits(d2))) => {
                if *d1 != *d2 {
                    false
                } else if *d1 == 0 {
                    proof {
                        lemma_first_n_digits_zero(self.date_time.nanosecond as nat);
                        lemma_first_n_digits_zero(other.date_time.nanosecond as nat);
                    }
                    true
                } else {
                    let v1 = first_n_digits_of(*d1, self.date_time.nanosecond);
                    let v2 = first_n_digits_of(*d2, other.date_time.nanosecond);
                    v1 == v2
                }
            },
            (Some(Mantissa::Arbitrary(a)), Some(Mantissa::Arbitrary(b))) => Mantissa::decimals_equal(
                a,
                b,
            ),
            (Some(Mantissa::Digits(d1)), Some(Mantissa::Arbitrary(b))) => {
                let a = self.fractional_seconds_as_decimal().unwrap();
                proof {
                    lemma_frac_decimal_observables(
                        *d1 as nat,
                        self.date_time.nanosecond as nat,
                        a,
                        *b,
                    );
                }
                Mantissa::decimals_equal(&a, b)
            },
            (Some(Mantissa::Arbitrary(a)), Some(Mantissa::Digits(d2))) => {
                let b = other.fractional_seconds_as_decimal().unwrap();
                proof {
                    lemma_frac_decimal_observables(
                        *d2 as nat,
                        other.date_time.nanosecond as nat,
                        b,
                        *a,
                    );
                }
                Mantissa::decimals_equal(a, &b)
            },
        }
    }

    /// Appends the text of the sub-second fraction, with its leading dot:
    /// the truncated, zero-padded digits of a `Digits` mantissa, or the
    /// zero-padded coefficient of an `Arbitrary` one. An empty or absent
    /// fraction appends nothing.
    pub fn format_fractional_seconds(&self, output: &mut Vec<u8>) -> (r: IonResult<()>)
        requires
            self.wf(),
        ensures
            final(output)@ == old(output)@ + spec_frac_text(*self),
            r is Ok,
    {
        let ghost orig: Seq<u8> = output@;
        match &self.fractional_seconds {
            None => {
                proof {
                    assert(output@ =~= orig + spec_frac_text(*self));
                }
                Ok(())
            },
            Some(mantissa) => {
                if mantissa.is_empty() {
                    proof {
                        assert(output@ =~= orig + spec_frac_text(*self));
                    }
                    return Ok(());
                }
                match mantissa {
                    Mantissa::Digits(num_digits_arg) => {
                        let scaled: u32 = self.date_time.nanosecond / crate::digits::pow10_u32(
                            9 - *num_digits_arg,
                        );
                        output.push(46);
                        crate::digits::push_u64_padded(output, scaled as u64, *num_digits_arg);
                        proof {
                            assert(output@ =~= orig + spec_frac_text(*self));
                        }
                        Ok(())
                    },
                    Mantissa::Arbitrary(dec) => {
                        let digit_bytes = dec.coefficient.magnitude.decimal_digits();
                        let neg_exponent: u64 = ((-(dec.exponent + 1)) as u64) + 1;
                        let num_leading_zeros: u64 = neg_exponent - (digit_bytes.len() as u64);
                        output.push(46);
                        let mut i: u64 = 0;
                        proof {
                            assert(output@ =~= orig + seq![46u8] + crate::digits::zero_bytes(0));
                        }
                        while i < num_leading_zeros
                            invariant
                                i <= num_leading_zeros,
                                output@ == orig + seq![46u8] + crate::digits::zero_bytes(i as nat),
                            decreases num_leading_zeros - i,
                        {
                            output.push(48);
                            i = i + 1;
                            proof {
                                assert(output@ =~= orig + seq![46u8] + crate::digits::zero_bytes(
                                    i as nat,
                                ));
                            }
                        }
                        let mut j: usize = 0;
                        while j < digit_bytes.len()
                            invariant
                                j <= digit_bytes@.len(),
                                output@ == orig + seq![46u8] + crate::digits::zero_bytes(
                                    num_leading_zeros as nat,
                                ) + digit_bytes@.take(j as int),
                            decreases digit_bytes@.len() - j,
                        {
                            output.push(digit_bytes[j]);
                            j = j + 1;
                            proof {
                                assert(digit_bytes@.take(j as int) =~= digit_bytes@.take(
                                    j - 1,
                                ).push(digit_bytes@[j - 1]));
                                assert(output@ =~= orig + seq![46u8] + crate::digits::zero_bytes(
                                    num_leading_zeros as nat,
                                ) + digit_bytes@.take(j as int));
                            }
                        }
                        proof {
                            assert(digit_bytes@.take(digit_bytes@.len() as int) =~= digit_bytes@);
                            assert(output@ =~= orig + spec_frac_text(*self));
                        }
                        Ok(())
                    },
                }
            },
        }
    }

    /// Representation equality, as described at the top of this module.
    pub fn ion_eq(&self, other: &Timestamp) -> (r: bool)
        ensures
            r == spec_ts_ion_eq(*self, *other),
    {
        if self.precision != other.precision {
            return false;
        }
        let offsets_equal: bool = match (&self.offset, &other.offset) {
            (None, None) => true,
            (Some(a), Some(b)) => *a == *b,
            _ => false,
        };
        if !offsets_equal {
            return false;
        }
        let rank = self.precision.rank();
        if self.date_time.year != other.date_time.year {
            return false;
        }
        if rank >= 1 && self.date_time.month != other.date_time.month {
            return false;
        }
        if rank >= 2 && self.date_time.day != other.date_time.day {
            return false;
        }
        if rank >= 3 && (self.date_time.hour != other.date_time.hour || self.date_time.minute
            != other.date_time.minute) {
            return false;
        }
        if rank <= 3 {
            return true;
        }
        if self.date_time.second != other.date_time.second || !self.fractional_seconds_equal(
            other,
        ) {
            return false;
        }
        true
    }
}

impl PartialEq for Timestamp {
    /// Value equality, as described at the top of this module.
    fn eq(&self, other: &Timestamp) -> (r: bool) {
        if !self.fractional_seconds_equal(other) {
            return false;
        }
        self.date_time.year == other.date_time.year && self.date_time.month
            == other.date_time.month && self.date_time.day == other.date_time.day
            && self.date_time.hour == other.date_time.hour && self.date_time.minute
            == other.date_time.minute && self.date_time.second == other.date_time.second
    }
}

impl vstd::std_specs::cmp::PartialEqSpecImpl for Timestamp {
    open spec fn obeys_eq_spec() -> bool {
        true
    }

    open spec fn eq_spec(&self, other: &Timestamp) -> bool {
        spec_ts_value_eq(*self, *other)
    }
}

/// The shared configuration record behind the phase-specific builder
/// wrappers. Fields are written by the wrappers as the phases advance and
/// validated atomically by [`TimestampBuilder::build`].
#[derive(Clone, Debug)]
pub struct TimestampBuilder {
    pub fields_are_utc: bool,
    pub precision: Precision,
    pub offset: Option<i32>,
    pub year: u16,
    pub month: Option<u8>,
    pub day: Option<u8>,
    pub hour: Option<u8>,
    pub minute: Option<u8>,
    pub second: Option<u8>,
    pub fractional_seconds: Option<Mantissa>,
    pub nanoseconds: Option<u32>,
}

/// What the setter chain guarantees of a configuration record: every field
/// the declared precision needs is present, an offset only accompanies
/// minute precision or finer, and the cached nanoseconds agree with the
/// mantissa's representation.
pub open spec fn spec_builder_wf(b: TimestampBuilder) -> bool {
    &&& (b.precision.spec_rank() >= 1 ==> b.month is Some)
    &&& (b.precision.spec_rank() >= 2 ==> b.day is Some)
    &&& (b.precision.spec_rank() >= 3 ==> b.hour is Some && b.minute is Some)
    &&& (b.precision.spec_rank() >= 4 ==> b.second is Some)
    &&& (b.fractional_seconds is Some ==> b.precision.spec_rank() == 4)
    &&& (b.offset is Some ==> b.precision.spec_rank() >= 3)
    &&& match b.fractional_seconds {
        Some(Mantissa::Digits(_)) => b.nanoseconds is Some,
        Some(Mantissa::Arbitrary(_)) => b.nanoseconds is None,
        None => b.nanoseconds is None,
    }
}

/// The month a configuration denotes, with the floor value below month
/// precision.
pub open spec fn spec_builder_month(b: TimestampBuilder) -> u8 {
    if b.precision.spec_rank() >= 1 {
        match b.month {
            Some(m) => m,
            None => 1,
        }
    } else {
        1
    }
}

pub open spec fn spec_builder_day(b: TimestampBuilder) -> u8 {
    if b.precision.spec_rank() >= 2 {
        match b.day {
            Some(d) => d,
            None => 1,
        }
    } else {
        1
    }
}

pub open spec fn spec_builder_hour(b: TimestampBuilder) -> u8 {
    if b.precision.spec_rank() >= 3 {
        match b.hour {
            Some(h) => h,
            None => 0,
        }
    } else {
        0
    }
}

pub open spec fn spec_builder_minute(b: TimestampBuilder) -> u8 {
    if b.precision.spec_rank() >= 3 {
        match b.minute {
            Some(m) => m,
            None => 0,
        }
    } else {
        0
    }
}

pub open spec fn spec_builder_second(b: TimestampBuilder) -> u8 {
    if b.precision.spec_rank() >= 4 {
        match b.second {
            Some(s) => s,
            None => 0,
        }
    } else {
        0
    }
}

pub open spec fn spec_builder_nanos(b: TimestampBuilder) -> u32 {
    if b.precision.spec_rank() >= 4 {
        match b.nanoseconds {
            Some(n) => n,
            None => 0,
        }
    } else {
        0
    }
}

/// The local (pre-offset) date-time a configuration denotes: the declared
/// fields over a floor of `0001-01-01T00:00:00.0`.
pub open spec fn spec_built_datetime(b: TimestampBuilder) -> CivilDateTime {
    CivilDateTime {
        year: b.year as i32,
        month: spec_builder_month(b),
        day: spec_builder_day(b),
        hour: spec_builder_hour(b),
        minute: spec_builder_minute(b),
        second: spec_builder_second(b),
        nanosecond: spec_builder_nanos(b),
    }
}

/// Exactly when building succeeds: the year in `1..=9999`, every declared
/// field within its calendar range, the offset within a day, and a mantissa
/// that denotes a fraction in `[0, 1)` in its normalized form.
pub open spec fn spec_build_ok(b: TimestampBuilder) -> bool {
    &&& 1 <= b.year <= 9999
    &&& (b.precision.spec_rank() >= 1 ==> 1 <= spec_builder_month(b) <= 12)
    &&& (b.precision.spec_rank() >= 2 ==> 1 <= spec_builder_day(b) <= spec_days_in_month(
        b.year as int,
        spec_builder_month(b) as int,
    ))
    &&& (b.precision.spec_rank() >= 3 ==> spec_builder_hour(b) < 24 && spec_builder_minute(b)
        < 60)
    &&& (b.precision.spec_rank() >= 4 ==> spec_builder_second(b) < 60 && spec_builder_nanos(b)
        < 1_000_000_000)
    &&& (b.offset matches Some(m) ==> -1439 <= m <= 1439)
    &&& (b.precision.spec_rank() >= 4 ==> match b.fractional_seconds {
        None => true,
        Some(Mantissa::Digits(d)) => d <= 9,
        Some(Mantissa::Arbitrary(dec)) => spec_mantissa_dec_ok(dec),
    })
}

/// The timestamp a valid configuration builds: the declared fields,
/// normalized to UTC when an offset is given for local fields, with the
/// mantissa kept only at second precision.
pub open spec fn spec_built_timestamp(b: TimestampBuilder) -> Timestamp {
    let local = spec_built_datetime(b);
    let utc = match b.offset {
        Some(m) => if b.fields_are_utc {
            local
        } else {
            spec_shift_minutes(local, -(m as int))
        },
        None => local,
    };
    Timestamp {
        date_time: utc,
        offset: b.offset,
        precision: b.precision,
        fractional_seconds: if b.precision.spec_rank() >= 4 {
            b.fractional_seconds
        } else {
            None
        },
    }
}

impl TimestampBuilder {
    /// Validates every configured field and assembles the timestamp, as
    /// described by [`spec_build_ok`] and [`spec_built_timestamp`].
    pub fn build(self) -> (r: IonResult<Timestamp>)
        requires
            spec_builder_wf(self),
        ensures
            spec_build_ok(self) ==> (r matches Ok(t) && t == spec_built_timestamp(self)
                && t.wf()),
            !spec_build_ok(self) ==> (r matches Err(e) && (e matches IonError::IllegalOperation(
                _,
            ))),
    {
        if self.year == 0 || self.year > 9999 {
            return Err(IonError::IllegalOperation("timestamp year is out of range (1-9999)"));
        }
        let rank: u8 = self.precision.rank();
        let mut month: u8 = 1;
        if rank >= 1 {
            month = match self.month {
                Some(m) => m,
                None => 1,
            };
            if month < 1 || month > 12 {
                return Err(IonError::IllegalOperation("specified month is invalid"));
            }
        }
        let mut day: u8 = 1;
        if rank >= 2 {
            day = match self.day {
                Some(d) => d,
                None => 1,
            };
            if day < 1 || day > days_in_month(self.year as i32, month) {
                return Err(IonError::IllegalOperation("specified day is invalid"));
            }
        }
        let mut hour: u8 = 0;
        let mut minute: u8 = 0;
        if rank >= 3 {
            hour = match self.hour {
                Some(h) => h,
                None => 0,
            };
            if hour >= 24 {
                return Err(IonError::IllegalOperation("specified hour is invalid"));
            }
            minute = match self.minute {
                Some(m) => m,
                None => 0,
            };
            if minute >= 60 {
                return Err(IonError::IllegalOperation("specified minute is invalid"));
            }
        }
        let mut second: u8 = 0;
        let mut nanos: u32 = 0;
        if rank >= 4 {
            second = match self.second {
                Some(s) => s,
                None => 0,
            };
            if second >= 60 {
                return Err(IonError::IllegalOperation("provided second is invalid"));
            }
            nanos = match self.nanoseconds {
                Some(n) => n,
                None => 0,
            };
            if nanos >= 1_000_000_000 {
                return Err(IonError::IllegalOperation("provided nanosecond is invalid"));
            }
        }
        let local = CivilDateTime {
            year: self.year as i32,
            month,
            day,
            hour,
            minute,
            second,
            nanosecond: nanos,
        };
        proof {
            assert(local == spec_built_datetime(self));
        }
        let date_time: CivilDateTime = match self.offset {
            Some(m) => {
                if m < -1439 || m > 1439 {
                    return Err(IonError::IllegalOperation("specified offset is invalid"));
                }
                if self.fields_are_utc {
                    local
                } else {
                    shift_minutes(local, -m)
                }
            },
            None => local,
        };
        if rank >= 4 {
            match &self.fractional_seconds {
                Some(Mantissa::Arbitrary(dec)) => {
                    if dec.is_less_than_zero() {
                        return Err(
                            IonError::IllegalOperation(
                                "cannot create a timestamp with negative fractional seconds",
                            ),
                        );
                    }
                    if dec.exponent == i64::MIN {
                        return Err(
                            IonError::IllegalOperation(
                                "fractional seconds exponent is out of range",
                            ),
                        );
                    }
                    if dec.exponent >= 0 {
                        if !dec.coefficient.is_zero() {
                            return Err(
                                IonError::IllegalOperation(
                                    "cannot create a timestamp with a fractional seconds >= 1.0",
                                ),
                            );
                        }
                        if dec.exponent != 0 {
                            return Err(
                                IonError::IllegalOperation(
                                    "cannot create a timestamp whose zero fractional seconds have a positive exponent",
                                ),
                            );
                        }
                    } else {
                        let digit_bytes = dec.coefficient.magnitude.decimal_digits();
                        let neg_exponent: u64 = ((-(dec.exponent + 1)) as u64) + 1;
                        if digit_bytes.len() as u64 > neg_exponent {
                            return Err(
                                IonError::IllegalOperation(
                                    "cannot create a timestamp with a fractional seconds >= 1.0",
                                ),
                            );
                        }
                    }
                },
                Some(Mantissa::Digits(d)) => {
                    if *d > 9 {
                        return Err(
                            IonError::IllegalOperation(
                                "fractional second precision exceeds nanoseconds",
                            ),
                        );
                    }
                },
                None => {},
            }
        }
        let fractional_seconds: Option<Mantissa> = if rank >= 4 {
            self.fractional_seconds
        } else {
            None
        };
        let result = Timestamp { date_time, offset: self.offset, precision: self.precision, fractional_seconds };
        proof {
            assert(result == spec_built_timestamp(self));
            assert(result.wf());
        }
        Ok(result)
    }
}

impl Timestamp {
    /// Starts a builder at [`Precision::Year`] with the given year.
    pub fn with_year(year: u32) -> (r: MonthSetter)
        ensures
            r.builder == (TimestampBuilder {
                fields_are_utc: false,
                precision: Precision::Year,
                offset: None,
                year: year as u16,
                month: None,
                day: None,
                hour: None,
                minute: None,
                second: None,
                fractional_seconds: None,
                nanoseconds: None,
            }),
            r.wf(),
    {
        let builder = TimestampBuilder {
            fields_are_utc: false,
            precision: Precision::Year,
            offset: None,
            year: #[verifier::truncate] (year as u16),
            month: None,
            day: None,
            hour: None,
            minute: None,
            second: None,
            fractional_seconds: None,
            nanoseconds: None,
        };
        MonthSetter { builder }
    }

    /// Starts a builder at [`Precision::Day`] with the given year, month
    /// and day.
    pub fn with_ymd(year: u32, month: u32, day: u32) -> (r: HourAndMinuteSetter)
        ensures
            r.builder == (TimestampBuilder {
                fields_are_utc: false,
                precision: Precision::Day,
                offset: None,
                year: year as u16,
                month: Some(month as u8),
                day: Some(day as u8),
                hour: None,
                minute: None,
                second: None,
                fractional_seconds: None,
                nanoseconds: None,
            }),
            r.wf(),
    {
        let builder = Timestamp::with_year(year).with_month(month).with_day(day).builder;
        HourAndMinuteSetter { builder }
    }

    /// Starts a builder at [`Precision::Second`] with the given date and
    /// time of day.
    pub fn with_ymd_hms(year: u32, month: u32, day: u32, hour: u32, minute: u32, second: u32) -> (r:
        FractionalSecondSetter)
        ensures
            r.builder == (TimestampBuilder {
                fields_are_utc: false,
                precision: Precision::Second,
                offset: None,
                year: year as u16,
                month: Some(month as u8),
                day: Some(day as u8),
                hour: Some(hour as u8),
                minute: Some(minute as u8),
                second: Some(second as u8),
                fractional_seconds: None,
                nanoseconds: None,
            }),
            r.wf(),
    {
        let builder = Timestamp::with_ymd(year, month, day).with_hms(hour, minute, second).builder;
        FractionalSecondSetter { builder }
    }

    /// Starts a builder at [`Precision::Second`] with the given date, time
    /// of day, and milliseconds.
    pub fn with_ymd_hms_millis(
        year: u32,
        month: u32,
        day: u32,
        hour: u32,
        minute: u32,
        second: u32,
        milliseconds: u32,
    ) -> (r: FractionalSecondSetter)
        requires
            milliseconds <= 4294,
        ensures
            r.builder == (TimestampBuilder {
                fields_are_utc: false,
                precision: Precision::Second,
                offset: None,
                year: year as u16,
                month: Some(month as u8),
                day: Some(day as u8),
                hour: Some(hour as u8),
                minute: Some(minute as u8),
                second: Some(second as u8),
                fractional_seconds: Some(Mantissa::Digits(3)),
                nanoseconds: Some((milliseconds * 1_000_000) as u32),
            }),
            r.wf(),
    {
        Timestamp::with_ymd(year, month, day).with_hms(hour, minute, second).with_milliseconds(
            milliseconds,
        )
    }
}

/// Sets the month on a builder whose year is fixed, or builds at
/// [`Precision::Year`].
#[derive(Clone, Debug)]
pub struct MonthSetter {
    pub builder: TimestampBuilder,
}

impl MonthSetter {
    /// What holds of every month-phase builder: only the year is set.
    pub open spec fn wf(self) -> bool {
        &&& spec_builder_wf(self.builder)
        &&& self.builder.precision.spec_rank() == 0
        &&& self.builder.offset is None
        &&& self.builder.fractional_seconds is None
        &&& self.builder.nanoseconds is None
    }

    /// Sets a zero-indexed month (0 is January).
    pub fn with_month0(self, month0: u32) -> (r: DaySetter)
        requires
            month0 < u32::MAX,
        ensures
            r.builder == (TimestampBuilder {
                precision: Precision::Month,
                month: Some((month0 + 1) as u8),
                ..self.builder
            }),
            self.wf() ==> r.wf(),
    {
        self.with_month(month0 + 1)
    }

    /// Sets a one-indexed month (1 is January).
    pub fn with_month(self, month: u32) -> (r: DaySetter)
        ensures
            r.builder == (TimestampBuilder {
                precision: Precision::Month,
                month: Some(month as u8),
                ..self.builder
            }),
            self.wf() ==> r.wf(),
    {
        let mut builder = self.builder;
        builder.precision = Precision::Month;
        builder.month = Some(#[verifier::truncate] (month as u8));
        DaySetter { builder }
    }

    /// Builds the timestamp at the precision declared so far.
    pub fn build(self) -> (r: IonResult<Timestamp>)
        requires
            self.wf(),
        ensures
            spec_build_ok(self.builder) ==> (r matches Ok(t) && t == spec_built_timestamp(
                self.builder,
            ) && t.wf()),
            !spec_build_ok(self.builder) ==> (r matches Err(e) && (e
                matches IonError::IllegalOperation(_))),
    {
        self.builder.build()
    }
}

/// Sets the day on a builder whose year and month are fixed, or builds at
/// [`Precision::Month`].
#[derive(Clone, Debug)]
pub struct DaySetter {
    pub builder: TimestampBuilder,
}

impl DaySetter {
    /// What holds of every day-phase builder: year and month are set.
    pub open spec fn wf(self) -> bool {
        &&& spec_builder_wf(self.builder)
        &&& self.builder.precision.spec_rank() == 1
        &&& self.builder.offset is None
        &&& self.builder.fractional_seconds is None
        &&& self.builder.nanoseconds is None
    }

    /// Sets a zero-indexed day (0 is the first of the month).
    pub fn with_day0(self, day0: u32) -> (r: HourAndMinuteSetter)
        requires
            day0 < u32::MAX,
        ensures
            r.builder == (TimestampBuilder {
                precision: Precision::Day,
                day: Some((day0 + 1) as u8),
                ..self.builder
            }),
            self.wf() ==> r.wf(),
    {
        self.with_day(day0 + 1)
    }

    /// Sets a one-indexed day.
    pub fn with_day(self, day: u32) -> (r: HourAndMinuteSetter)
        ensures
            r.builder == (TimestampBuilder {
                precision: Precision::Day,
                day: Some(day as u8),
                ..self.builder
            }),
            self.wf() ==> r.wf(),
    {
        let mut builder = self.builder;
        builder.precision = Precision::Day;
        builder.day = Some(#[verifier::truncate] (day as u8));
        HourAndMinuteSetter { builder }
    }

    /// Builds the timestamp at the precision declared so far.
    pub fn build(self) -> (r: IonResult<Timestamp>)
        requires
            self.wf(),
        ensures
            spec_build_ok(self.builder) ==> (r matches Ok(t) && t == spec_built_timestamp(
                self.builder,
            ) && t.wf()),
            !spec_build_ok(self.builder) ==> (r matches Err(e) && (e
                matches IonError::IllegalOperation(_))),
    {
        self.builder.build()
    }
}

/// Sets the time of day on a builder whose date is fixed, or builds at
/// [`Precision::Day`].
#[derive(Clone, Debug)]
pub struct HourAndMinuteSetter {
    pub builder: TimestampBuilder,
}

impl HourAndMinuteSetter {
    /// What holds of every time-of-day-phase builder: the full date is
    /// set.
    pub open spec fn wf(self) -> bool {
        &&& spec_builder_wf(self.builder)
        &&& self.builder.precision.spec_rank() == 2
        &&& self.builder.offset is None
        &&& self.builder.fractional_seconds is None
        &&& self.builder.nanoseconds is None
    }

    /// Sets hour, minute and second at once, declaring second precision.
    pub fn with_hms(self, hour: u32, minute: u32, second: u32) -> (r: FractionalSecondSetter)
        ensures
            r.builder == (TimestampBuilder {
                precision: Precision::Second,
                hour: Some(hour as u8),
                minute: Some(minute as u8),
                second: Some(second as u8),
                ..self.builder
            }),
            self.wf() ==> r.wf(),
    {
        let mut builder = self.builder;
        builder.hour = Some(#[verifier::truncate] (hour as u8));
        builder.minute = Some(#[verifier::truncate] (minute as u8));
        builder.second = Some(#[verifier::truncate] (second as u8));
        builder.precision = Precision::Second;
        FractionalSecondSetter { builder }
    }

    /// Sets hour and minute, declaring minute precision.
    pub fn with_hour_and_minute(self, hour: u32, minute: u32) -> (r: SecondSetter)
        ensures
            r.builder == (TimestampBuilder {
                precision: Precision::HourAndMinute,
                hour: Some(hour as u8),
                minute: Some(minute as u8),
                ..self.builder
            }),
            self.wf() ==> r.wf(),
    {
        let mut builder = self.builder;
        builder.precision = Precision::HourAndMinute;
        builder.hour = Some(#[verifier::truncate] (hour as u8));
        builder.minute = Some(#[verifier::truncate] (minute as u8));
        SecondSetter { builder }
    }

    /// Builds the timestamp at the precision declared so far.
    pub fn build(self) -> (r: IonResult<Timestamp>)
        requires
            self.wf(),
        ensures
            spec_build_ok(self.builder) ==> (r matches Ok(t) && t == spec_built_timestamp(
                self.builder,
            ) && t.wf()),
            !spec_build_ok(self.builder) ==> (r matches Err(e) && (e
                matches IonError::IllegalOperation(_))),
    {
        self.builder.build()
    }
}

/// Sets the second on a builder whose hour and minute are fixed, or builds
/// at [`Precision::HourAndMinute`] with a chosen offset handling.
#[derive(Clone, Debug)]
pub struct SecondSetter {
    pub builder: TimestampBuilder,
}

impl SecondSetter {
    /// What holds of every second-phase builder: date, hour and minute are
    /// set.
    pub open spec fn wf(self) -> bool {
        &&& spec_builder_wf(self.builder)
        &&& self.builder.precision.spec_rank() == 3
        &&& self.builder.offset is None
        &&& self.builder.fractional_seconds is None
        &&& self.builder.nanoseconds is None
    }

    /// Sets the second, declaring second precision.
    pub fn with_second(self, second: u32) -> (r: FractionalSecondSetter)
        ensures
            r.builder == (TimestampBuilder {
                precision: Precision::Second,
                second: Some(second as u8),
                ..self.builder
            }),
            self.wf() ==> r.wf(),
    {
        let mut builder = self.builder;
        builder.precision = Precision::Second;
        builder.second = Some(#[verifier::truncate] (second as u8));
        FractionalSecondSetter { builder }
    }

    /// Builds with the given fixed offset from UTC, in minutes; the fields
    /// set so far are read as local time at that offset.
    pub fn build_at_offset(self, offset_minutes: i32) -> (r: IonResult<Timestamp>)
        requires
            self.wf(),
        ensures
            spec_build_ok(spec_with_offset(self.builder, offset_minutes)) ==> (r matches Ok(t) && t
                == spec_built_timestamp(spec_with_offset(self.builder, offset_minutes)) && t.wf()),
            !spec_build_ok(spec_with_offset(self.builder, offset_minutes)) ==> (r matches Err(e)
                && (e matches IonError::IllegalOperation(_))),
    {
        let mut builder = self.builder;
        builder.offset = Some(offset_minutes);
        builder.build()
    }

    /// Like [`Self::build_at_offset`], but the fields set so far are read
    /// as UTC and the offset is only recorded.
    pub fn build_utc_fields_at_offset(self, offset_minutes: i32) -> (r: IonResult<Timestamp>)
        requires
            self.wf(),
        ensures
            spec_build_ok(spec_with_utc_offset(self.builder, offset_minutes)) ==> (r matches Ok(t)
                && t == spec_built_timestamp(spec_with_utc_offset(self.builder, offset_minutes))
                && t.wf()),
            !spec_build_ok(spec_with_utc_offset(self.builder, offset_minutes)) ==> (r matches Err(
                e,
            ) && (e matches IonError::IllegalOperation(_))),
    {
        let mut builder = self.builder;
        builder.fields_are_utc = true;
        builder.offset = Some(offset_minutes);
        builder.build()
    }

    /// Builds with an unknown offset: the fields are read as UTC and no
    /// offset is asserted.
    pub fn build_at_unknown_offset(self) -> (r: IonResult<Timestamp>)
        requires
            self.wf(),
        ensures
            spec_build_ok(spec_with_no_offset(self.builder)) ==> (r matches Ok(t) && t
                == spec_built_timestamp(spec_with_no_offset(self.builder)) && t.wf()),
            !spec_build_ok(spec_with_no_offset(self.builder)) ==> (r matches Err(e) && (e
                matches IonError::IllegalOperation(_))),
    {
        let mut builder = self.builder;
        builder.offset = None;
        builder.build()
    }
}

/// The declared sub-second scale of a timestamp: the digit count or the
/// decimal's scale, and `None` when the fraction is absent or empty.
pub open spec fn spec_mantissa_scale(t: Timestamp) -> Option<int> {
    match t.fractional_seconds {
        None => None,
        Some(m) => if spec_mantissa_is_empty(m) {
            None
        } else {
            match m {
                Mantissa::Digits(d) => Some(d as int),
                Mantissa::Arbitrary(dec) => Some(-(dec.exponent as int)),
            }
        },
    }
}

/// Whether a timestamp's sub-second fraction denotes the value zero.
pub open spec fn spec_frac_value_is_zero(t: Timestamp) -> bool {
    match t.fractional_seconds {
        None => true,
        Some(Mantissa::Digits(d)) => spec_frac_coefficient(
            d as nat,
            t.date_time.nanosecond as nat,
        ) == 0,
        Some(Mantissa::Arbitrary(dec)) => dec.mag_value() == 0,
    }
}

/// Timestamps that declare different sub-second scales are never equal,
/// under either relation, unless both fractions denote zero: the fraction
/// comparison itself distinguishes them. (Two zero-valued fractions of
/// different scales compare equal as decimal values, so those pairs are
/// excluded.)
pub proof fn lemma_distinct_subsecond_scale_never_equal(t1: Timestamp, t2: Timestamp)
    requires
        t1.wf(),
        t2.wf(),
        spec_mantissa_scale(t1) != spec_mantissa_scale(t2),
        !(spec_frac_value_is_zero(t1) && spec_frac_value_is_zero(t2)),
    ensures
        !spec_ts_value_eq(t1, t2),
        !spec_ts_ion_eq(t1, t2),
{
    lemma_frac_coefficient_fits(
        match t1.fractional_seconds {
            Some(Mantissa::Digits(d)) => d as nat,
            _ => 0,
        },
        t1.date_time.nanosecond as nat,
    );
    lemma_frac_coefficient_fits(
        match t2.fractional_seconds {
            Some(Mantissa::Digits(d)) => d as nat,
            _ => 0,
        },
        t2.date_time.nanosecond as nat,
    );
    assert(!spec_ts_frac_eq(t1, t2));
    if t1.precision == t2.precision {
        if t1.precision.spec_rank() < 4 {
            assert(t1.fractional_seconds is None && t2.fractional_seconds is None);
        }
    }
}

/// A timestamp with a known offset is never representation-equal to one
/// with an unknown offset.
pub proof fn lemma_offset_knownness_never_ion_eq(t1: Timestamp, t2: Timestamp)
    requires
        t1.offset is Some,
        t2.offset is None,
    ensures
        !spec_ts_ion_eq(t1, t2),
        !spec_ts_ion_eq(t2, t1),
{
}

/// Building the same local fields once at a nonzero known offset and once
/// at an unknown offset yields timestamps that are equal under neither
/// relation: normalizing the local fields to UTC moves them, while the
/// unknown-offset build stores them unmoved.
pub proof fn lemma_known_vs_unknown_offset_never_equal(b: TimestampBuilder, offset_minutes: i32)
    requires
        !b.fields_are_utc,
        offset_minutes != 0,
        spec_build_ok(spec_with_offset(b, offset_minutes)),
        spec_build_ok(spec_with_no_offset(b)),
    ensures
        !spec_ts_value_eq(
            spec_built_timestamp(spec_with_offset(b, offset_minutes)),
            spec_built_timestamp(spec_with_no_offset(b)),
        ),
        !spec_ts_ion_eq(
            spec_built_timestamp(spec_with_offset(b, offset_minutes)),
            spec_built_timestamp(spec_with_no_offset(b)),
        ),
{
    let local = spec_built_datetime(b);
    assert(spec_built_datetime(spec_with_offset(b, offset_minutes)) == local);
    assert(spec_built_datetime(spec_with_no_offset(b)) == local);
    assert(local.wf()) by {
        assert(spec_days_in_month(local.year as int, local.month as int) >= 28);
    }
    lemma_shift_changes(local, -(offset_minutes as int));
}

/// Both timestamp equalities are reflexive and symmetric.
pub proof fn lemma_ts_eq_reflexive_symmetric(t1: Timestamp, t2: Timestamp)
    ensures
        spec_ts_value_eq(t1, t1),
        spec_ts_ion_eq(t1, t1),
        spec_ts_value_eq(t1, t2) == spec_ts_value_eq(t2, t1),
        spec_ts_ion_eq(t1, t2) == spec_ts_ion_eq(t2, t1),
{
}

/// The builder with a known offset recorded, fields kept local.
pub open spec fn spec_with_offset(b: TimestampBuilder, offset_minutes: i32) -> TimestampBuilder {
    TimestampBuilder { offset: Some(offset_minutes), ..b }
}

/// The builder with a known offset recorded and fields declared UTC.
pub open spec fn spec_with_utc_offset(b: TimestampBuilder, offset_minutes: i32) -> TimestampBuilder {
    TimestampBuilder { fields_are_utc: true, offset: Some(offset_minutes), ..b }
}

/// The builder with no offset asserted.
pub open spec fn spec_with_no_offset(b: TimestampBuilder) -> TimestampBuilder {
    TimestampBuilder { offset: None, ..b }
}

/// Sets the sub-second fraction on a builder of second precision, or
/// builds with a chosen offset handling. Every fraction setter overwrites
/// whatever fraction was set before.
#[derive(Clone, Debug)]
pub struct FractionalSecondSetter {
    pub builder: TimestampBuilder,
}

impl FractionalSecondSetter {
    /// What holds of every fraction-phase builder: everything down to the
    /// second is set, and any fraction so far is internally consistent.
    pub open spec fn wf(self) -> bool {
        &&& spec_builder_wf(self.builder)
        &&& self.builder.precision.spec_rank() == 4
        &&& self.builder.offset is None
    }

    /// Declares nine digits of fractional precision, sourced from the
    /// given nanoseconds.
    pub fn with_nanoseconds(self, nanosecond: u32) -> (r: FractionalSecondSetter)
        ensures
            r.builder == (TimestampBuilder {
                fractional_seconds: Some(Mantissa::Digits(9)),
                nanoseconds: Some(nanosecond),
                ..self.builder
            }),
            self.wf() ==> r.wf(),
    {
        let mut builder = self.builder;
        builder.fractional_seconds = Some(Mantissa::Digits(9));
        builder.nanoseconds = Some(nanosecond);
        FractionalSecondSetter { builder }
    }

    /// Declares six digits of fractional precision, sourced from the given
    /// microseconds.
    pub fn with_microseconds(self, microsecond: u32) -> (r: FractionalSecondSetter)
        requires
            microsecond <= 4_294_967,
        ensures
            r.builder == (TimestampBuilder {
                fractional_seconds: Some(Mantissa::Digits(6)),
                nanoseconds: Some((microsecond * 1000) as u32),
                ..self.builder
            }),
            self.wf() ==> r.wf(),
    {
        let mut builder = self.builder;
        builder.fractional_seconds = Some(Mantissa::Digits(6));
        builder.nanoseconds = Some(microsecond * 1000);
        FractionalSecondSetter { builder }
    }

    /// Declares three digits of fractional precision, sourced from the
    /// given milliseconds.
    pub fn with_milliseconds(self, millisecond: u32) -> (r: FractionalSecondSetter)
        requires
            millisecond <= 4294,
        ensures
            r.builder == (TimestampBuilder {
                fractional_seconds: Some(Mantissa::Digits(3)),
                nanoseconds: Some((millisecond * 1_000_000) as u32),
                ..self.builder
            }),
            self.wf() ==> r.wf(),
    {
        let mut builder = self.builder;
        builder.fractional_seconds = Some(Mantissa::Digits(3));
        builder.nanoseconds = Some(millisecond * 1_000_000);
        FractionalSecondSetter { builder }
    }

    /// Declares an explicit number of digits of fractional precision,
    /// sourced from the given nanoseconds.
    pub fn with_nanoseconds_and_precision(self, nanoseconds: u32, precision_digits: u32) -> (r:
        FractionalSecondSetter)
        ensures
            r.builder == (TimestampBuilder {
                fractional_seconds: Some(Mantissa::Digits(precision_digits)),
                nanoseconds: Some(nanoseconds),
                ..self.builder
            }),
            self.wf() ==> r.wf(),
    {
        let mut builder = self.builder;
        builder.fractional_seconds = Some(Mantissa::Digits(precision_digits));
        builder.nanoseconds = Some(nanoseconds);
        FractionalSecondSetter { builder }
    }

    /// Supplies the fraction as an explicit decimal, clearing any cached
    /// nanoseconds.
    pub fn with_fractional_seconds(self, fractional_seconds: Decimal) -> (r: FractionalSecondSetter)
        ensures
            r.builder == (TimestampBuilder {
                fractional_seconds: Some(Mantissa::Arbitrary(fractional_seconds)),
                nanoseconds: None,
                ..self.builder
            }),
            self.wf() ==> r.wf(),
    {
        let mut builder = self.builder;
        builder.fractional_seconds = Some(Mantissa::Arbitrary(fractional_seconds));
        builder.nanoseconds = None;
        FractionalSecondSetter { builder }
    }

    /// Builds with the given fixed offset from UTC, in minutes; the fields
    /// set so far are read as local time at that offset.
    pub fn build_at_offset(self, offset_minutes: i32) -> (r: IonResult<Timestamp>)
        requires
            self.wf(),
        ensures
            spec_build_ok(spec_with_offset(self.builder, offset_minutes)) ==> (r matches Ok(t) && t
                == spec_built_timestamp(spec_with_offset(self.builder, offset_minutes)) && t.wf()),
            !spec_build_ok(spec_with_offset(self.builder, offset_minutes)) ==> (r matches Err(e)
                && (e matches IonError::IllegalOperation(_))),
    {
        let mut builder = self.builder;
        builder.offset = Some(offset_minutes);
        builder.build()
    }

    /// Like [`Self::build_at_offset`], but the fields set so far are read
    /// as UTC and the offset is only recorded.
    pub fn build_utc_fields_at_offset(self, offset_minutes: i32) -> (r: IonResult<Timestamp>)
        requires
            self.wf(),
        ensures
            spec_build_ok(spec_with_utc_offset(self.builder, offset_minutes)) ==> (r matches Ok(t)
                && t == spec_built_timestamp(spec_with_utc_offset(self.builder, offset_minutes))
                && t.wf()),
            !spec_build_ok(spec_with_utc_offset(self.builder, offset_minutes)) ==> (r matches Err(
                e,
            ) && (e matches IonError::IllegalOperation(_))),
    {
        let mut builder = self.builder;
        builder.fields_are_utc = true;
        builder.offset = Some(offset_minutes);
        builder.build()
    }

    /// Builds with an unknown offset: the fields are read as UTC and no
    /// offset is asserted.
    pub fn build_at_unknown_offset(self) -> (r: IonResult<Timestamp>)
        requires
            self.wf(),
        ensures
            spec_build_ok(spec_with_no_offset(self.builder)) ==> (r matches Ok(t) && t
                == spec_built_timestamp(spec_with_no_offset(self.builder)) && t.wf()),
            !spec_build_ok(spec_with_no_offset(self.builder)) ==> (r matches Err(e) && (e
                matches IonError::IllegalOperation(_))),
    {
        let mut builder = self.builder;
        builder.offset = None;
        builder.build()
    }
}

} // verus!
