//! Conversion between calendar dates and Julian day numbers.
//!
//! A Julian day number is held exactly as a count of microseconds:
//! `JD == micros / 86_400_000_000` days, so the noon of a day (the `.0`
//! fractional part of the classical convention) is a whole multiple of
//! `86_400_000_000`. Fractional seconds are carried as whole microseconds.

use vstd::arithmetic::div_mod::*;
use vstd::prelude::*;

use crate::DateField;
use crate::Error;

verus! {

/// Truncating (round-toward-zero) division for a positive divisor: the
/// semantics of the integer `/` in the conversion formulas.
pub open spec fn tdiv(a: int, b: int) -> int {
    if a >= 0 {
        a / b
    } else {
        -((-a) / b)
    }
}

/// Integer Julian day number of a proleptic-Gregorian calendar day,
/// by the standard conversion (truncating integer division throughout).
pub open spec fn spec_jdn(year: int, month: int, day: int) -> int {
    let a = (14 - month) / 12;
    let y = year + 4800 - a;
    let m = month + 12 * a - 3;
    day + (153 * m + 2) / 5 + 365 * y + tdiv(y, 4) - tdiv(y, 100) + tdiv(y, 400) - 32045
}

/// Microseconds elapsed since midnight.
pub open spec fn spec_day_fraction_micros(hour: int, minute: int, second_micros: int) -> int {
    hour * 3_600_000_000 + minute * 60_000_000 + second_micros
}

/// Julian date in microseconds of a full calendar date and time of day.
pub open spec fn spec_calendar_to_julian_micros(
    year: int,
    month: int,
    day: int,
    hour: int,
    minute: int,
    second_micros: int,
) -> int {
    spec_jdn(year, month, day) * 86_400_000_000 + spec_day_fraction_micros(
        hour,
        minute,
        second_micros,
    ) - 43_200_000_000
}

/// The domain accepted by the converter: months `1..=12`, days `1..=31`
/// (the day is deliberately not checked against the month's true length),
/// hours `0..=23`, minutes `0..=59`, seconds in `[0, 60)`.
pub open spec fn spec_valid_time_fields(
    month: int,
    day: int,
    hour: int,
    minute: int,
    second_micros: int,
) -> bool {
    &&& 1 <= month <= 12
    &&& 1 <= day <= 31
    &&& 0 <= hour <= 23
    &&& 0 <= minute <= 59
    &&& 0 <= second_micros < 60_000_000
}

/// Inverse decomposition of an integer Julian day number into
/// `(year, month, day)`, truncating integer division throughout.
pub open spec fn spec_jdn_to_ymd(j: int) -> (int, int, int) {
    let j1 = j + 68569;
    let j2 = tdiv(4 * j1, 146097);
    let j3 = j1 - tdiv(146097 * j2 + 3, 4);
    let j4 = tdiv(4000 * (j3 + 1), 1461001);
    let j5 = j3 - tdiv(1461 * j4, 4) + 31;
    let j6 = tdiv(80 * j5, 2447);
    let j7 = j5 - tdiv(2447 * j6, 80);
    let j8 = tdiv(j6, 11);
    (100 * (j2 - 49) + j4 + j8, j6 + 2 - 12 * j8, j7)
}

/// Full inverse conversion: `(year, month, day, hour, minute, second_micros)`
/// of a Julian date given in microseconds. The integer day is split off by
/// floor division, so the fractional part is always nonnegative.
pub open spec fn spec_julian_to_calendar(micros: int) -> (int, int, int, int, int, int) {
    let j = (micros + 43_200_000_000) / 86_400_000_000;
    let f = (micros + 43_200_000_000) % 86_400_000_000;
    let ymd = spec_jdn_to_ymd(j);
    (ymd.0, ymd.1, ymd.2, f / 3_600_000_000, (f % 3_600_000_000) / 60_000_000, f % 60_000_000)
}

/// Magnitude facts about truncating division, used to bound intermediate
/// values of the conversion chains.
proof fn lemma_tdiv_bounds(a: int, b: int)
    requires
        b >= 1,
    ensures
        a >= 0 ==> 0 <= tdiv(a, b) && tdiv(a, b) * b <= a,
        a <= 0 ==> tdiv(a, b) <= 0 && a <= tdiv(a, b) * b,
{
    if a >= 0 {
        lemma_div_pos_is_pos(a, b);
        lemma_fundamental_div_mod(a, b);
        assert(tdiv(a, b) * b <= a) by (nonlinear_arith)
            requires
                b >= 1,
                a >= 0,
                tdiv(a, b) == a / b,
                b * (a / b) + a % b == a,
                0 <= a % b,
        ;
    } else {
        lemma_div_pos_is_pos(-a, b);
        lemma_fundamental_div_mod(-a, b);
        assert(a <= tdiv(a, b) * b) by (nonlinear_arith)
            requires
                b >= 1,
                a < 0,
                tdiv(a, b) == -((-a) / b),
                b * ((-a) / b) + (-a) % b == -a,
                0 <= (-a) % b,
        ;
    }
}

/// Division of nonnegative values, through unsigned machine arithmetic.
fn div_nn(a: i64, b: i64) -> (q: i64)
    requires
        0 <= a,
        0 < b,
    ensures
        q == a as int / b as int,
{
    proof {
        lemma_div_pos_is_pos(a as int, b as int);
        lemma_div_nonincreasing(a as int, b as int);
    }
    ((a as u64) / (b as u64)) as i64
}

/// Truncating division on machine integers, matching [`tdiv`].
fn tdiv64(a: i64, b: i64) -> (q: i64)
    requires
        0 < b,
        i64::MIN < a,
    ensures
        q == tdiv(a as int, b as int),
{
    if a >= 0 {
        div_nn(a, b)
    } else {
        let q = div_nn(-a, b);
        -q
    }
}

/// Floor division on machine integers: the Euclidean `/` of the
/// specifications, for a positive divisor.
fn fdiv64(a: i64, b: i64) -> (q: i64)
    requires
        0 < b,
        i64::MIN + b < a,
    ensures
        q == a as int / b as int,
{
    if a >= 0 {
        div_nn(a, b)
    } else {
        let n = -a;
        proof {
            lemma_div_pos_is_pos(n as int + b as int - 1, b as int);
            lemma_div_nonincreasing(n as int + b as int - 1, b as int);
            lemma_fundamental_div_mod(n as int + b as int - 1, b as int);
        }
        let c = div_nn(n + b - 1, b);
        proof {
            let ni = n as int;
            let bi = b as int;
            let ci = c as int;
            let r = ci * bi - ni;
            assert(0 <= r < bi) by (nonlinear_arith)
                requires
                    bi >= 1,
                    ni >= 1,
                    ci == (ni + bi - 1) / bi,
                    bi * ((ni + bi - 1) / bi) + (ni + bi - 1) % bi == ni + bi - 1,
                    0 <= (ni + bi - 1) % bi < bi,
                    r == ci * bi - ni,
            ;
            assert((-ci) * bi == -(ci * bi)) by (nonlinear_arith);
            lemma_fundamental_div_mod_converse(a as int, bi, -ci, r);
        }
        -c
    }
}

/// A Julian date: a day count on the continuous Julian time axis, held
/// exactly as microseconds, `JD == micros / 86_400_000_000` days.
#[derive(Clone, Copy, Debug, PartialEq, Eq, Structural)]
pub struct JulianDate {
    /// Julian day number scaled to microseconds.
    pub micros: i64,
}

/// A calendar date and time of day; fractional seconds are carried as
/// whole microseconds in `second_micros`.
#[derive(Clone, Copy, Debug, PartialEq, Eq, Structural)]
pub struct CalendarDate {
    pub year: i64,
    pub month: i64,
    pub day: i64,
    pub hour: i64,
    pub minute: i64,
    pub second_micros: i64,
}

impl JulianDate {
    /// Wrap a microsecond count as a Julian date.
    pub fn new(micros: i64) -> (r: Self)
        ensures
            r.micros == micros,
    {
        JulianDate { micros }
    }

    /// The raw microsecond count.
    pub fn as_micros(&self) -> (r: i64)
        ensures
            r == self.micros,
    {
        self.micros
    }

    /// Convert a calendar date to a Julian date.
    ///
    /// Succeeds exactly on the domain of [`spec_valid_time_fields`] and then
    /// returns precisely [`spec_calendar_to_julian_micros`]; otherwise
    /// reports the first field (in the order month, day, hour, minute,
    /// second) that lies outside its domain. The year bound is a machine
    /// limit keeping the microsecond count inside `i64`.
    pub fn from_calendar(
        year: i64,
        month: i64,
        day: i64,
        hour: i64,
        minute: i64,
        second_micros: i64,
    ) -> (r: Result<Self, Error>)
        requires
            -200_000 <= year <= 200_000,
        ensures
            r is Ok <==> spec_valid_time_fields(
                month as int,
                day as int,
                hour as int,
                minute as int,
                second_micros as int,
            ),
            r matches Ok(jd) ==> jd.micros == spec_calendar_to_julian_micros(
                year as int,
                month as int,
                day as int,
                hour as int,
                minute as int,
                second_micros as int,
            ),
            !(1 <= month <= 12) ==> r == Err::<Self, Error>(Error::InvalidDate(DateField::Month)),
            1 <= month <= 12 && !(1 <= day <= 31) ==> r == Err::<Self, Error>(
                Error::InvalidDate(DateField::Day),
            ),
            1 <= month <= 12 && 1 <= day <= 31 && !(0 <= hour <= 23) ==> r == Err::<Self, Error>(
                Error::InvalidDate(DateField::Hour),
            ),
            1 <= month <= 12 && 1 <= day <= 31 && 0 <= hour <= 23 && !(0 <= minute <= 59) ==> r
                == Err::<Self, Error>(Error::InvalidDate(DateField::Minute)),
            1 <= month <= 12 && 1 <= day <= 31 && 0 <= hour <= 23 && 0 <= minute <= 59 && !(0
                <= second_micros < 60_000_000) ==> r == Err::<Self, Error>(
                Error::InvalidDate(DateField::Second),
            ),
    {
        if !(1 <= month && month <= 12) {
            return Err(Error::InvalidDate(DateField::Month));
        }
        if !(1 <= day && day <= 31) {
            return Err(Error::InvalidDate(DateField::Day));
        }
        if !(0 <= hour && hour <= 23) {
            return Err(Error::InvalidDate(DateField::Hour));
        }
        if !(0 <= minute && minute <= 59) {
            return Err(Error::InvalidDate(DateField::Minute));
        }
        if !(0 <= second_micros && second_micros < 60_000_000) {
            return Err(Error::InvalidDate(DateField::Second));
        }
        let a: i64 = if month <= 2 {
            1
        } else {
            0
        };
        proof {
            if month <= 2 {
                lemma_fundamental_div_mod_converse(14 - month as int, 12, 1, 2 - month as int);
            } else {
                lemma_fundamental_div_mod_converse(14 - month as int, 12, 0, 14 - month as int);
            }
        }
        let y: i64 = year + 4800 - a;
        let m: i64 = month + 12 * a - 3;
        let mdays: i64 = div_nn(153 * m + 2, 5);
        proof {
            lemma_tdiv_bounds(y as int, 4);
            lemma_tdiv_bounds(y as int, 100);
            lemma_tdiv_bounds(y as int, 400);
        }
        let t4: i64 = tdiv64(y, 4);
        let t100: i64 = tdiv64(y, 100);
        let t400: i64 = tdiv64(y, 400);
        let jdn: i64 = day + mdays + 365 * y + t4 - t100 + t400 - 32045;
        let frac: i64 = hour * 3_600_000_000 + minute * 60_000_000 + second_micros;
        Ok(JulianDate { micros: jdn * 86_400_000_000 + frac - 43_200_000_000 })
    }

    /// Convert a Julian date back to a calendar date, by the integer
    /// decomposition of [`spec_julian_to_calendar`]. The bound on the
    /// microsecond count is a machine limit keeping every intermediate
    /// value of the chain inside `i64`.
    pub fn to_calendar(&self) -> (c: CalendarDate)
        requires
            -8_000_000_000_000_000_000 <= self.micros <= 8_000_000_000_000_000_000,
        ensures
            ({
                let t = spec_julian_to_calendar(self.micros as int);
                &&& c.year == t.0
                &&& c.month == t.1
                &&& c.day == t.2
                &&& c.hour == t.3
                &&& c.minute == t.4
                &&& c.second_micros == t.5
            }),
    {
        let shifted: i64 = self.micros + 43_200_000_000;
        let j: i64 = fdiv64(shifted, 86_400_000_000);
        proof {
            lemma_fundamental_div_mod(shifted as int, 86_400_000_000);
            lemma_mod_bound(shifted as int, 86_400_000_000);
        }
        let f: i64 = shifted - j * 86_400_000_000;
        proof {
            lemma_tdiv_bounds(4 * (j + 68569) as int, 146097);
        }
        let j1: i64 = j + 68569;
        let j2: i64 = tdiv64(4 * j1, 146097);
        proof {
            lemma_tdiv_bounds(146097 * j2 as int + 3, 4);
        }
        let j3: i64 = j1 - tdiv64(146097 * j2 + 3, 4);
        proof {
            lemma_tdiv_bounds(4000 * (j3 + 1) as int, 1461001);
        }
        let j4: i64 = tdiv64(4000 * (j3 + 1), 1461001);
        proof {
            lemma_tdiv_bounds(1461 * j4 as int, 4);
        }
        let j5: i64 = j3 - tdiv64(1461 * j4, 4) + 31;
        proof {
            lemma_tdiv_bounds(80 * j5 as int, 2447);
        }
        let j6: i64 = tdiv64(80 * j5, 2447);
        proof {
            lemma_tdiv_bounds(2447 * j6 as int, 80);
        }
        let j7: i64 = j5 - tdiv64(2447 * j6, 80);
        let j8: i64 = tdiv64(j6, 11);
        let fu: u64 = f as u64;
        proof {
            lemma_div_nonincreasing(fu as int, 3_600_000_000);
            lemma_div_pos_is_pos(fu as int, 3_600_000_000);
            lemma_mod_bound(fu as int, 3_600_000_000);
            lemma_div_nonincreasing((fu as int) % 3_600_000_000, 60_000_000);
            lemma_div_pos_is_pos((fu as int) % 3_600_000_000, 60_000_000);
            lemma_mod_bound(fu as int, 60_000_000);
        }
        let hour: i64 = (fu / 3_600_000_000) as i64;
        let minute: i64 = ((fu % 3_600_000_000) / 60_000_000) as i64;
        let second_micros: i64 = (fu % 60_000_000) as i64;
        CalendarDate {
            year: 100 * (j2 - 49) + j4 + j8,
            month: j6 + 2 - 12 * j8,
            day: j7,
            hour,
            minute,
            second_micros,
        }
    }
}

/// Proleptic-Gregorian leap year rule.
pub open spec fn spec_is_leap_year(year: int) -> bool {
    year % 4 == 0 && (year % 100 != 0 || year % 400 == 0)
}

/// True length of a month in the proleptic-Gregorian calendar.
pub open spec fn spec_days_in_month(year: int, month: int) -> int {
    if month == 2 {
        if spec_is_leap_year(year) {
            29
        } else {
            28
        }
    } else if month == 4 || month == 6 || month == 9 || month == 11 {
        30
    } else {
        31
    }
}

/// The integer-day core of the round trip: decomposing the Julian day
/// number of a true calendar day recovers exactly that day. Below year
/// -4799 the truncating divisions of the decomposition leave their
/// valid region and the identity genuinely fails.
#[verifier::rlimit(100)]
pub proof fn lemma_jdn_round_trip(year: int, month: int, day: int)
    requires
        year >= -4799,
        1 <= month <= 12,
        1 <= day <= spec_days_in_month(year, month),
    ensures
        spec_jdn_to_ymd(spec_jdn(year, month, day)) == (year, month, day),
{
    let a: int = if month <= 2 {
        1
    } else {
        0
    };
    if month <= 2 {
        lemma_fundamental_div_mod_converse(14 - month, 12, 1, 2 - month);
    } else {
        lemma_fundamental_div_mod_converse(14 - month, 12, 0, 14 - month);
    }
    assert((14 - month) / 12 == a);
    let yy = year + 4800 - a;
    let mp = month + 12 * a - 3;
    assert(0 <= mp <= 11);
    assert(yy >= 0);
    lemma_fundamental_div_mod(yy, 100);
    lemma_mod_bound(yy, 100);
    lemma_div_pos_is_pos(yy, 100);
    let c = yy / 100;
    let x = yy % 100;
    lemma_fundamental_div_mod(c, 4);
    lemma_mod_bound(c, 4);
    lemma_div_pos_is_pos(c, 4);
    let q4 = c / 4;
    let s4 = c % 4;
    lemma_fundamental_div_mod(x, 4);
    lemma_mod_bound(x, 4);
    lemma_div_pos_is_pos(x, 4);
    let p = x / 4;
    let t = x % 4;
    assert(p <= 24);
    lemma_fundamental_div_mod_converse(yy, 4, 25 * c + p, t);
    lemma_fundamental_div_mod_converse(yy, 400, q4, 100 * s4 + x);
    let mdays = (153 * mp + 2) / 5;
    if mp == 0 {
        lemma_fundamental_div_mod_converse(153 * mp + 2, 5, 0, 2);
    } else if mp == 1 {
        lemma_fundamental_div_mod_converse(153 * mp + 2, 5, 31, 0);
    } else if mp == 2 {
        lemma_fundamental_div_mod_converse(153 * mp + 2, 5, 61, 3);
    } else if mp == 3 {
        lemma_fundamental_div_mod_converse(153 * mp + 2, 5, 92, 1);
    } else if mp == 4 {
        lemma_fundamental_div_mod_converse(153 * mp + 2, 5, 122, 4);
    } else if mp == 5 {
        lemma_fundamental_div_mod_converse(153 * mp + 2, 5, 153, 2);
    } else if mp == 6 {
        lemma_fundamental_div_mod_converse(153 * mp + 2, 5, 184, 0);
    } else if mp == 7 {
        lemma_fundamental_div_mod_converse(153 * mp + 2, 5, 214, 3);
    } else if mp == 8 {
        lemma_fundamental_div_mod_converse(153 * mp + 2, 5, 245, 1);
    } else if mp == 9 {
        lemma_fundamental_div_mod_converse(153 * mp + 2, 5, 275, 4);
    } else if mp == 10 {
        lemma_fundamental_div_mod_converse(153 * mp + 2, 5, 306, 2);
    } else {
        lemma_fundamental_div_mod_converse(153 * mp + 2, 5, 337, 0);
    }
    if month == 2 && day >= 29 {
        assert(spec_is_leap_year(year));
        lemma_fundamental_div_mod(year, 4);
        lemma_fundamental_div_mod_converse(yy, 4, year / 4 + 1199, 3);
        assert(t == 3);
        if p == 24 {
            assert(x == 99);
            assert(year == 100 * (c - 47));
            lemma_fundamental_div_mod_converse(year, 100, c - 47, 0);
            assert(year % 100 == 0);
            assert(year % 400 == 0);
            lemma_fundamental_div_mod(year, 400);
            let y400 = year / 400;
            assert(100 * (c - 47) == 400 * y400);
            assert(c - 47 == 4 * y400);
            lemma_fundamental_div_mod_converse(c, 4, y400 + 11, 3);
            assert(s4 == 3);
        }
    }
    let r0 = 1461 * p + 365 * t + mdays + day + 36524;
    assert(4 * r0 - s4 < 292194);
    assert(4000 * (mdays + day) - 4 * p - 1001 * t < 1461001);
    assert(2447 * (mp + 1) <= 80 * (mdays + day + 30));
    assert(80 * (mdays + day + 30) < 2447 * (mp + 2));
    assert(80 * (mdays + 30) <= 2447 * (mp + 1));
    assert(2447 * (mp + 1) < 80 * (mdays + 31));
    let jdn = spec_jdn(year, month, day);
    assert(jdn == 146097 * q4 + 36524 * s4 + r0 - 68569);
    let j1 = jdn + 68569;
    assert(j1 == 146097 * q4 + 36524 * s4 + r0);
    assert(j1 > 0);
    lemma_fundamental_div_mod_converse(4 * j1, 146097, c + 1, 4 * r0 - s4 - 146097);
    assert(tdiv(4 * j1, 146097) == c + 1);
    lemma_fundamental_div_mod_converse(146097 * (c + 1) + 3, 4, 36524 * (c + 1) + q4 + 1, s4);
    assert(tdiv(146097 * (c + 1) + 3, 4) == 36524 * (c + 1) + q4 + 1);
    let j3 = j1 - (36524 * (c + 1) + q4 + 1);
    assert(j3 == 1461 * p + 365 * t + mdays + day - 1);
    lemma_fundamental_div_mod_converse(
        4000 * (j3 + 1),
        1461001,
        4 * p + t,
        4000 * (mdays + day) - 4 * p - 1001 * t,
    );
    assert(tdiv(4000 * (j3 + 1), 1461001) == x);
    lemma_fundamental_div_mod_converse(1461 * x, 4, 1461 * p + 365 * t, t);
    assert(tdiv(1461 * x, 4) == 1461 * p + 365 * t);
    let j5 = j3 - (1461 * p + 365 * t) + 31;
    assert(j5 == mdays + day + 30);
    lemma_fundamental_div_mod_converse(
        80 * j5,
        2447,
        mp + 1,
        80 * (mdays + day + 30) - 2447 * (mp + 1),
    );
    assert(tdiv(80 * j5, 2447) == mp + 1);
    lemma_fundamental_div_mod_converse(
        2447 * (mp + 1),
        80,
        mdays + 30,
        2447 * (mp + 1) - 80 * (mdays + 30),
    );
    assert(tdiv(2447 * (mp + 1), 80) == mdays + 30);
    if mp >= 10 {
        lemma_fundamental_div_mod_converse(mp + 1, 11, 1, mp - 10);
    } else {
        lemma_fundamental_div_mod_converse(mp + 1, 11, 0, mp + 1);
    }
    assert(tdiv(mp + 1, 11) == a);
    assert(spec_jdn_to_ymd(jdn) == (year, month, day));
}

/// Law: converting a true proleptic-Gregorian calendar date and time of
/// day to a Julian date and back reproduces every field exactly. The
/// domain starts at year -4799; below it the decomposition's truncating
/// divisions leave their valid region and the identity fails.
pub proof fn lemma_julian_calendar_round_trip(
    year: int,
    month: int,
    day: int,
    hour: int,
    minute: int,
    second_micros: int,
)
    requires
        year >= -4799,
        1 <= month <= 12,
        1 <= day <= spec_days_in_month(year, month),
        0 <= hour <= 23,
        0 <= minute <= 59,
        0 <= second_micros < 60_000_000,
    ensures
        spec_julian_to_calendar(
            spec_calendar_to_julian_micros(year, month, day, hour, minute, second_micros),
        ) == (year, month, day, hour, minute, second_micros),
{
    lemma_jdn_round_trip(year, month, day);
    let jdn = spec_jdn(year, month, day);
    let tod = spec_day_fraction_micros(hour, minute, second_micros);
    let micros = spec_calendar_to_julian_micros(year, month, day, hour, minute, second_micros);
    assert(micros + 43_200_000_000 == jdn * 86_400_000_000 + tod);
    lemma_fundamental_div_mod_converse(micros + 43_200_000_000, 86_400_000_000, jdn, tod);
    lemma_fundamental_div_mod_converse(
        tod,
        3_600_000_000,
        hour,
        minute * 60_000_000 + second_micros,
    );
    lemma_fundamental_div_mod_converse(
        minute * 60_000_000 + second_micros,
        60_000_000,
        minute,
        second_micros,
    );
    lemma_fundamental_div_mod_converse(tod, 60_000_000, hour * 60 + minute, second_micros);
}

impl CalendarDate {
    /// Bundle calendar fields; no validation happens here, the converter
    /// validates.
    pub fn new(year: i64, month: i64, day: i64, hour: i64, minute: i64, second_micros: i64) -> (r:
        Self)
        ensures
            r == (CalendarDate { year, month, day, hour, minute, second_micros }),
    {
        CalendarDate { year, month, day, hour, minute, second_micros }
    }

    /// Convert to a Julian date; the contract of
    /// [`JulianDate::from_calendar`] applies.
    pub fn to_julian(&self) -> (r: Result<JulianDate, Error>)
        requires
            -200_000 <= self.year <= 200_000,
        ensures
            r is Ok <==> spec_valid_time_fields(
                self.month as int,
                self.day as int,
                self.hour as int,
                self.minute as int,
                self.second_micros as int,
            ),
            r matches Ok(jd) ==> jd.micros == spec_calendar_to_julian_micros(
                self.year as int,
                self.month as int,
                self.day as int,
                self.hour as int,
                self.minute as int,
                self.second_micros as int,
            ),
    {
        JulianDate::from_calendar(
            self.year,
            self.month,
            self.day,
            self.hour,
            self.minute,
            self.second_micros,
        )
    }
}

} // verus!
