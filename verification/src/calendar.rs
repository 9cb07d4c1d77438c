//! Proleptic Gregorian calendar arithmetic on day counts relative to the
//! Unix epoch (1970-01-01).
use vstd::prelude::*;

verus! {

/// Whether a year is a Gregorian leap year.
pub open spec fn spec_is_leap_year(year: int) -> bool {
    year % 4 == 0 && (year % 100 != 0 || year % 400 == 0)
}

/// Number of days in a month, or 0 for a month outside `1..=12`.
pub open spec fn spec_days_in_month(year: int, month: int) -> int {
    if month == 1 || month == 3 || month == 5 || month == 7 || month == 8 || month == 10
        || month == 12 {
        31
    } else if month == 4 || month == 6 || month == 9 || month == 11 {
        30
    } else if month == 2 {
        if spec_is_leap_year(year) {
            29
        } else {
            28
        }
    } else {
        0
    }
}

/// A valid Gregorian date.
pub open spec fn is_valid_date(year: int, month: int, day: int) -> bool {
    1 <= month <= 12 && 1 <= day <= spec_days_in_month(year, month)
}

/// Days of the year that precede the first day of `month`.
pub open spec fn days_before_month(year: int, month: int) -> int
    decreases month,
{
    if month <= 1 {
        0
    } else {
        days_before_month(year, month - 1) + spec_days_in_month(year, month - 1)
    }
}

/// Number of leap years in `1..=year` (negative or zero for earlier years),
/// counted with floor division so that it extends to every integer year.
pub open spec fn leap_years_through(year: int) -> int {
    year / 4 - year / 100 + year / 400
}

/// Days from 1970-01-01 to the given date: whole years, then whole months,
/// then days.
pub open spec fn spec_days_from_civil(year: int, month: int, day: int) -> int {
    365 * (year - 1970) + (leap_years_through(year - 1) - leap_years_through(1969))
        + days_before_month(year, month) + day - 1
}

/// Division rounding toward zero, as Rust's integer `/` does.
pub open spec fn trunc_div(a: int, b: int) -> int {
    if a >= 0 {
        a / b
    } else {
        -((-a) / b)
    }
}

/// First day (0-based) of a March-based month `0..=11` within its year.
pub open spec fn march_month_start(shifted_month: int) -> int {
    (153 * shifted_month + 2) / 5
}

/// First day (0-based) of a March-based year `0..=399` within its 400-year era.
pub open spec fn era_year_start(year_of_era: int) -> int {
    365 * year_of_era + year_of_era / 4 - year_of_era / 100
}

proof fn lemma_leap_years_step(year: int)
    ensures
        leap_years_through(year) - leap_years_through(year - 1) == if spec_is_leap_year(year) {
            1int
        } else {
            0int
        },
{
}

proof fn lemma_era_split(era: int, yoe: int)
    requires
        0 <= yoe < 400,
    ensures
        365 * (400 * era + yoe) + leap_years_through(400 * era + yoe) == 146097 * era
            + era_year_start(yoe),
{
    let y = 400 * era + yoe;
    assert(y / 4 == 100 * era + yoe / 4) by (nonlinear_arith)
        requires y == 400 * era + yoe, 0 <= yoe < 400;
    assert(y / 100 == 4 * era + yoe / 100) by (nonlinear_arith)
        requires y == 400 * era + yoe, 0 <= yoe < 400;
    assert(y / 400 == era) by (nonlinear_arith)
        requires y == 400 * era + yoe, 0 <= yoe < 400;
}


/// The era-based day count computed by `days_from_civil`.
pub open spec fn era_days_from_civil(year: int, month: int, day: int) -> int {
    let shifted_year = if month <= 2 { year - 1 } else { year };
    let era = shifted_year / 400;
    let year_of_era = shifted_year - era * 400;
    let shifted_month = if month > 2 { month - 3 } else { month + 9 };
    let day_of_year = trunc_div(153 * shifted_month + 2, 5) + day - 1;
    let day_of_era = year_of_era * 365 + year_of_era / 4 - year_of_era / 100 + day_of_year;
    era * 146097 + day_of_era - 719468
}

pub proof fn lemma_days_before_month_values(year: int)
    ensures
        days_before_month(year, 1) == 0,
        days_before_month(year, 2) == 31,
        days_before_month(year, 3) == 59 + (if spec_is_leap_year(year) { 1int } else { 0int }),
        days_before_month(year, 4) == 90 + (if spec_is_leap_year(year) { 1int } else { 0int }),
        days_before_month(year, 5) == 120 + (if spec_is_leap_year(year) { 1int } else { 0int }),
        days_before_month(year, 6) == 151 + (if spec_is_leap_year(year) { 1int } else { 0int }),
        days_before_month(year, 7) == 181 + (if spec_is_leap_year(year) { 1int } else { 0int }),
        days_before_month(year, 8) == 212 + (if spec_is_leap_year(year) { 1int } else { 0int }),
        days_before_month(year, 9) == 243 + (if spec_is_leap_year(year) { 1int } else { 0int }),
        days_before_month(year, 10) == 273 + (if spec_is_leap_year(year) { 1int } else { 0int }),
        days_before_month(year, 11) == 304 + (if spec_is_leap_year(year) { 1int } else { 0int }),
        days_before_month(year, 12) == 334 + (if spec_is_leap_year(year) { 1int } else { 0int }),
        days_before_month(year, 13) == 365 + (if spec_is_leap_year(year) { 1int } else { 0int }),
{
    reveal_with_fuel(days_before_month, 13);
}

/// The era-based formula agrees with the direct count for every valid month.
pub proof fn lemma_era_formula_matches(year: int, month: int, day: int)
    requires
        1 <= month <= 12,
    ensures
        era_days_from_civil(year, month, day) == spec_days_from_civil(year, month, day),
{
    let shifted_year = if month <= 2 { year - 1 } else { year };
    let era = shifted_year / 400;
    let yoe = shifted_year - era * 400;
    assert(0 <= yoe < 400);
    assert(shifted_year == 400 * era + yoe);
    lemma_era_split(era, yoe);
    lemma_leap_years_step(year);
    lemma_days_before_month_values(year);
    assert(leap_years_through(1969) == 477);
}

/// Length in days of the March-based year `year_of_era` of an era.
pub open spec fn era_year_length(year_of_era: int) -> int {
    if year_of_era == 399 {
        366
    } else {
        era_year_start(year_of_era + 1) - era_year_start(year_of_era)
    }
}

/// March-based year of era recovered from a day of era.
pub open spec fn year_of_era_from_day(day_of_era: int) -> int {
    (day_of_era - day_of_era / 1460 + day_of_era / 36524 - day_of_era / 146096) / 365
}

proof fn lemma_year_of_era_recovery(yoe: int, doy: int)
    requires
        0 <= yoe < 400,
        0 <= doy < era_year_length(yoe),
    ensures
        year_of_era_from_day(era_year_start(yoe) + doy) == yoe,
{
    let a = yoe / 100;
    let b = yoe % 100;
    let q = b / 4;
    let r = b % 4;
    assert(yoe == 100 * a + 4 * q + r);
    assert(0 <= a < 4 && 0 <= q < 25 && 0 <= r < 4);
    assert(yoe / 4 == 25 * a + q);
    assert(yoe / 100 == a);
    let doe = era_year_start(yoe) + doy;
    assert(doe == 36524 * a + 1461 * q + 365 * r + doy);
    if yoe < 399 {
        let y2 = yoe + 1;
        assert(era_year_length(yoe) == 365 + (y2 / 4 - yoe / 4) - (y2 / 100 - yoe / 100));
    }
    assert(era_year_length(yoe) <= 366);
    assert(era_year_length(yoe) == 366 ==> r == 3);
    assert(era_year_length(yoe) == 366 && yoe != 399 ==> (q != 24 || a == 3));
    let rem_a = 24 * a + q + 365 * r + doy;
    let e1: int = if rem_a >= 1460 { 1 } else { 0 };
    assert(doe == 1460 * (25 * a + q) + rem_a);
    assert(0 <= rem_a < 2920);
    assert(doe / 1460 == 25 * a + q + e1) by {
        vstd::arithmetic::div_mod::lemma_fundamental_div_mod_converse_div(
            doe,
            1460,
            25 * a + q + e1,
            rem_a - 1460 * e1,
        );
    }
    let rem_b = 1461 * q + 365 * r + doy;
    let e2: int = if rem_b == 36524 { 1 } else { 0 };
    assert(0 <= rem_b <= 36524);
    assert(doe / 36524 == a + e2) by {
        vstd::arithmetic::div_mod::lemma_fundamental_div_mod_converse_div(
            doe,
            36524,
            a + e2,
            rem_b - 36524 * e2,
        );
    }
    let e3: int = if doe == 146096 { 1 } else { 0 };
    assert(doe / 146096 == e3) by {
        vstd::arithmetic::div_mod::lemma_fundamental_div_mod_converse_div(
            doe,
            146096,
            e3,
            doe - 146096 * e3,
        );
    }
    let x = doe - doe / 1460 + doe / 36524 - doe / 146096;
    assert(x == 365 * yoe + (doy - e1 + e2 - e3));
    assert(0 <= doy - e1 + e2 - e3 < 365);
    assert(x / 365 == yoe) by {
        vstd::arithmetic::div_mod::lemma_fundamental_div_mod_converse_div(
            x,
            365,
            yoe,
            doy - e1 + e2 - e3,
        );
    }
}

proof fn lemma_month_recovery(shifted_month: int, offset: int)
    requires
        0 <= shifted_month < 12,
        0 <= offset < march_month_start(shifted_month + 1) - march_month_start(shifted_month),
    ensures
        (5 * (march_month_start(shifted_month) + offset) + 2) / 153 == shifted_month,
{
    let doy = march_month_start(shifted_month) + offset;
    let x = 5 * doy + 2;
    assert(153 * shifted_month <= x < 153 * shifted_month + 153) by {
        if shifted_month == 0 {
        } else if shifted_month == 1 {
        } else if shifted_month == 2 {
        } else if shifted_month == 3 {
        } else if shifted_month == 4 {
        } else if shifted_month == 5 {
        } else if shifted_month == 6 {
        } else if shifted_month == 7 {
        } else if shifted_month == 8 {
        } else if shifted_month == 9 {
        } else if shifted_month == 10 {
        } else {
        }
    }
    vstd::arithmetic::div_mod::lemma_fundamental_div_mod_converse_div(
        x,
        153,
        shifted_month,
        x - 153 * shifted_month,
    );
}

/// Month lengths agree with the March-based month starts.
proof fn lemma_month_lengths(year: int, month: int)
    requires
        1 <= month <= 12,
        month != 2,
    ensures
        spec_days_in_month(year, month) == march_month_start(
            (if month > 2 { month - 3 } else { month + 9 }) + 1,
        ) - march_month_start(if month > 2 { month - 3 } else { month + 9 }),
{
}

/// A shifted year of era has 366 days exactly when the calendar year that
/// ends it is a leap year.
proof fn lemma_era_year_length_leap(era: int, yoe: int)
    requires
        0 <= yoe < 400,
    ensures
        era_year_length(yoe) == 365 + (if spec_is_leap_year(400 * era + yoe + 1) {
            1int
        } else {
            0int
        }),
{
    let k = yoe + 1;
    let y = 400 * era + k;
    assert(y % 4 == k % 4) by (nonlinear_arith)
        requires y == 400 * era + k;
    assert(y % 100 == k % 100) by (nonlinear_arith)
        requires y == 400 * era + k;
    assert(y % 400 == k % 400) by (nonlinear_arith)
        requires y == 400 * era + k;
    if yoe < 399 {
        assert(era_year_length(yoe) == 365 + (k / 4 - yoe / 4) - (k / 100 - yoe / 100));
    }
}

proof fn lemma_era_year_start_bounds(yoe: int)
    requires
        0 <= yoe < 400,
    ensures
        0 <= era_year_start(yoe),
        era_year_start(yoe) + era_year_length(yoe) <= 146097,
        365 <= era_year_length(yoe) <= 366,
{
    if yoe < 399 {
        assert(era_year_start(yoe + 1) <= era_year_start(399));
    }
}

/// Calendar date computed from a day count by the era method.
pub open spec fn era_civil_from_days(days: int) -> (int, int, int) {
    let shifted = days + 719468;
    let era = shifted / 146097;
    let day_of_era = shifted - era * 146097;
    let year_of_era = year_of_era_from_day(day_of_era);
    let day_of_year = day_of_era - era_year_start(year_of_era);
    let shifted_month = (5 * day_of_year + 2) / 153;
    let day = day_of_year - march_month_start(shifted_month) + 1;
    let month = if shifted_month < 10 { shifted_month + 3 } else { shifted_month - 9 };
    let year = year_of_era + era * 400 + (if month <= 2 { 1int } else { 0int });
    (year, month, day)
}

proof fn lemma_civil_era_round_trip(year: int, month: int, day: int)
    requires
        is_valid_date(year, month, day),
    ensures
        era_civil_from_days(era_days_from_civil(year, month, day)) == (year, month, day),
{
    let shifted_year = if month <= 2 { year - 1 } else { year };
    let era = shifted_year / 400;
    let yoe = shifted_year - era * 400;
    let mp = if month > 2 { month - 3 } else { month + 9 };
    assert(trunc_div(153 * mp + 2, 5) == march_month_start(mp));
    let doy = march_month_start(mp) + day - 1;
    let doe = era_year_start(yoe) + doy;
    lemma_era_year_length_leap(era, yoe);
    lemma_era_year_start_bounds(yoe);
    if month != 2 {
        lemma_month_lengths(year, month);
    }
    assert(shifted_year == 400 * era + yoe);
    assert(0 <= doy < era_year_length(yoe));
    lemma_year_of_era_recovery(yoe, doy);
    lemma_month_recovery(mp, day - 1);
    let z = era_days_from_civil(year, month, day);
    assert(z + 719468 == era * 146097 + doe);
    assert((z + 719468) / 146097 == era) by {
        vstd::arithmetic::div_mod::lemma_fundamental_div_mod_converse_div(
            z + 719468,
            146097,
            era,
            doe,
        );
    }
}

proof fn lemma_find_year_of_era(start: int, doe: int) -> (yoe: int)
    requires
        0 <= start < 400,
        era_year_start(start) <= doe < 146097,
    ensures
        start <= yoe < 400,
        era_year_start(yoe) <= doe < era_year_start(yoe) + era_year_length(yoe),
    decreases 400 - start,
{
    if start == 399 || doe < era_year_start(start) + era_year_length(start) {
        start
    } else {
        lemma_find_year_of_era(start + 1, doe)
    }
}

proof fn lemma_find_march_month(doy: int) -> (mp: int)
    requires
        0 <= doy < 366,
    ensures
        0 <= mp < 12,
        march_month_start(mp) <= doy < march_month_start(mp + 1),
{
    if doy < 31 {
        0
    } else if doy < 61 {
        1
    } else if doy < 92 {
        2
    } else if doy < 122 {
        3
    } else if doy < 153 {
        4
    } else if doy < 184 {
        5
    } else if doy < 214 {
        6
    } else if doy < 245 {
        7
    } else if doy < 275 {
        8
    } else if doy < 306 {
        9
    } else if doy < 337 {
        10
    } else {
        11
    }
}

proof fn lemma_days_era_round_trip(days: int)
    ensures
        is_valid_date(era_civil_from_days(days).0, era_civil_from_days(days).1, era_civil_from_days(days).2),
        era_days_from_civil(era_civil_from_days(days).0, era_civil_from_days(days).1, era_civil_from_days(days).2) == days,
{
    let shifted = days + 719468;
    let era = shifted / 146097;
    let doe = shifted - era * 146097;
    assert(0 <= doe < 146097);
    let yoe = lemma_find_year_of_era(0, doe);
    let doy = doe - era_year_start(yoe);
    lemma_year_of_era_recovery(yoe, doy);
    lemma_era_year_length_leap(era, yoe);
    lemma_era_year_start_bounds(yoe);
    let mp = lemma_find_march_month(doy);
    lemma_month_recovery(mp, doy - march_month_start(mp));
    let (y, m, d) = era_civil_from_days(days);
    assert(m == if mp < 10 { mp + 3 } else { mp - 9 });
    if m != 2 {
        lemma_month_lengths(y, m);
    }
    assert(y == 400 * era + yoe + (if m <= 2 { 1int } else { 0int }));
    let shifted_year = if m <= 2 { y - 1 } else { y };
    assert(shifted_year == 400 * era + yoe);
    assert(shifted_year / 400 == era) by {
        vstd::arithmetic::div_mod::lemma_fundamental_div_mod_converse_div(
            shifted_year,
            400,
            era,
            yoe,
        );
    }
    assert(trunc_div(153 * mp + 2, 5) == march_month_start(mp));
}

/// The unique valid calendar date that lies `days` days after 1970-01-01.
pub open spec fn spec_civil_from_days(days: int) -> (int, int, int) {
    choose|date: (int, int, int)|
        is_valid_date(date.0, date.1, date.2) && spec_days_from_civil(date.0, date.1, date.2)
            == days
}

proof fn lemma_civil_from_days_is_era(days: int)
    ensures
        spec_civil_from_days(days) == era_civil_from_days(days),
{
    let witness = era_civil_from_days(days);
    lemma_days_era_round_trip(days);
    lemma_era_formula_matches(witness.0, witness.1, witness.2);
    let chosen = spec_civil_from_days(days);
    assert(is_valid_date(chosen.0, chosen.1, chosen.2));
    lemma_era_formula_matches(chosen.0, chosen.1, chosen.2);
    lemma_civil_era_round_trip(chosen.0, chosen.1, chosen.2);
}

/// Every day count names exactly one valid date, and counting the days of that
/// date gives the day count back.
pub proof fn lemma_days_to_civil_round_trip(days: int)
    ensures
        is_valid_date(spec_civil_from_days(days).0, spec_civil_from_days(days).1, spec_civil_from_days(days).2),
        spec_days_from_civil(spec_civil_from_days(days).0, spec_civil_from_days(days).1, spec_civil_from_days(days).2) == days,
{
    lemma_civil_from_days_is_era(days);
    lemma_days_era_round_trip(days);
    let t = era_civil_from_days(days);
    lemma_era_formula_matches(t.0, t.1, t.2);
}

/// Converting a valid date to a day count and back gives the same date.
pub proof fn lemma_civil_to_days_round_trip(year: int, month: int, day: int)
    requires
        is_valid_date(year, month, day),
    ensures
        spec_civil_from_days(spec_days_from_civil(year, month, day)) == (year, month, day),
{
    lemma_era_formula_matches(year, month, day);
    lemma_civil_era_round_trip(year, month, day);
    lemma_civil_from_days_is_era(spec_days_from_civil(year, month, day));
}

/// Distinct valid dates have distinct day counts.
pub proof fn lemma_days_from_civil_injective(y1: int, m1: int, d1: int, y2: int, m2: int, d2: int)
    requires
        is_valid_date(y1, m1, d1),
        is_valid_date(y2, m2, d2),
        spec_days_from_civil(y1, m1, d1) == spec_days_from_civil(y2, m2, d2),
    ensures
        y1 == y2 && m1 == m2 && d1 == d2,
{
    lemma_civil_to_days_round_trip(y1, m1, d1);
    lemma_civil_to_days_round_trip(y2, m2, d2);
}

/// Floor division of a signed count by a positive constant-sized divisor.
fn floor_div_i64(value: i64, divisor: i64) -> (quotient: i64)
    requires
        divisor == 400 || divisor == 146_097,
    ensures
        quotient == value as int / divisor as int,
{
    let q = value / divisor;
    let r = value % divisor;
    assert(q == trunc_div(value as int, divisor as int));
    assert(r == value - divisor * q);
    if r < 0 {
        proof {
            vstd::arithmetic::div_mod::lemma_fundamental_div_mod_converse_div(
                value as int,
                divisor as int,
                q - 1,
                r + divisor,
            );
        }
        q - 1
    } else {
        proof {
            vstd::arithmetic::div_mod::lemma_fundamental_div_mod_converse_div(
                value as int,
                divisor as int,
                q as int,
                r as int,
            );
        }
        q
    }
}

/// Returns whether `year` is a Gregorian leap year.
pub fn is_gregorian_leap_year(year: i32) -> (leap: bool)
    ensures
        leap == spec_is_leap_year(year as int),
{
    year % 4 == 0 && (year % 100 != 0 || year % 400 == 0)
}

/// Returns the number of days in `month` of `year`, or 0 for a month outside
/// `1..=12`.
pub fn days_in_month(year: i32, month: i32) -> (days: i32)
    ensures
        days == spec_days_in_month(year as int, month as int),
{
    if month == 1 || month == 3 || month == 5 || month == 7 || month == 8 || month == 10
        || month == 12 {
        31
    } else if month == 4 || month == 6 || month == 9 || month == 11 {
        30
    } else if month == 2 {
        if is_gregorian_leap_year(year) {
            29
        } else {
            28
        }
    } else {
        0
    }
}

/// Counts the days from 1970-01-01 to a calendar date.
///
/// For a month in `1..=12` this is the whole-year, whole-month and day count
/// of [`spec_days_from_civil`]; the day need not lie inside the month.
pub fn days_from_civil(year: i32, month: i32, day: i32) -> (days: i64)
    ensures
        days == era_days_from_civil(year as int, month as int, day as int),
        1 <= month <= 12 ==> days == spec_days_from_civil(year as int, month as int, day as int),
{
    proof {
        if 1 <= month <= 12 {
            lemma_era_formula_matches(year as int, month as int, day as int);
        }
    }
    let mut year = year as i64;
    let month = month as i64;
    let day = day as i64;
    if month <= 2 {
        year = year - 1;
    }
    let era = floor_div_i64(year, 400);
    let year_of_era = year - era * 400;
    assert(0 <= year_of_era < 400);
    let shifted_month = month + if month > 2 { -3 } else { 9 };
    let month_start = (153 * shifted_month + 2) / 5;
    assert(month_start == trunc_div(153 * shifted_month + 2, 5));
    let day_of_year = month_start + day - 1;
    let day_of_era = year_of_era * 365 + year_of_era / 4 - year_of_era / 100 + day_of_year;
    era * 146_097 + day_of_era - 719_468
}

/// Converts a day count relative to 1970-01-01 into its calendar date.
///
/// Fails when the year of that date does not fit in an `i32`.
pub fn civil_from_days(days: i64) -> (date: Result<(i32, i32, i32), crate::error::Error>)
    requires
        days + 719_468 <= i64::MAX,
    ensures
        match date {
            Ok((year, month, day)) => (year as int, month as int, day as int)
                == spec_civil_from_days(days as int),
            Err(e) => !(i32::MIN <= spec_civil_from_days(days as int).0 <= i32::MAX) && (e matches crate::error::Error::InvalidGpsTime(_)),
        },
{
    proof {
        lemma_civil_from_days_is_era(days as int);
        lemma_days_to_civil_round_trip(days as int);
    }
    let days = days + 719_468;
    let era = floor_div_i64(days, 146_097);
    let day_of_era = days - era * 146_097;
    assert(0 <= day_of_era < 146_097);
    let d1 = day_of_era / 1_460;
    let d2 = day_of_era / 36_524;
    let d3 = day_of_era / 146_096;
    assert(d1 == trunc_div(day_of_era as int, 1460));
    assert(d2 == trunc_div(day_of_era as int, 36524));
    assert(d3 == trunc_div(day_of_era as int, 146096));
    let numerator = day_of_era - d1 + d2 - d3;
    assert(numerator >= 0);
    let year_of_era = numerator / 365;
    assert(year_of_era == trunc_div(numerator as int, 365));
    assert(year_of_era == year_of_era_from_day(day_of_era as int));
    let q4 = year_of_era / 4;
    let q100 = year_of_era / 100;
    assert(q4 == trunc_div(year_of_era as int, 4));
    assert(q100 == trunc_div(year_of_era as int, 100));
    let mut year = year_of_era + era * 400;
    let day_of_year = day_of_era - (365 * year_of_era + q4 - q100);
    assert(day_of_year == day_of_era - era_year_start(year_of_era as int));
    let ghost expected = era_civil_from_days(days - 719_468);
    assert(0 <= day_of_year < 366);
    let month_numerator = 5 * day_of_year + 2;
    let month_prime = month_numerator / 153;
    assert(month_prime == trunc_div(month_numerator as int, 153));
    let start_numerator = 153 * month_prime + 2;
    let start = start_numerator / 5;
    assert(start == trunc_div(start_numerator as int, 5));
    let day = day_of_year - start + 1;
    let month = month_prime + if month_prime < 10 { 3 } else { -9 };
    if month <= 2 {
        year = year + 1;
    }
    assert(year == expected.0 && month == expected.1 && day == expected.2);
    if year < i32::MIN as i64 || year > i32::MAX as i64 {
        return Err(crate::error::Error::InvalidGpsTime("calendar year exceeds i32 range".to_owned()));
    }
    Ok((year as i32, month as i32, day as i32))
}

/// Day counts of dates with 32-bit fields stay far inside the `i64` range.
pub proof fn lemma_era_days_bounds(year: int, month: int, day: int)
    requires
        i32::MIN <= year <= i32::MAX,
        i32::MIN <= month <= i32::MAX,
        i32::MIN <= day <= i32::MAX,
    ensures
        -1_000_000_000_000 < era_days_from_civil(year, month, day) < 1_000_000_000_000,
{
    let shifted_year = if month <= 2 { year - 1 } else { year };
    let era = shifted_year / 400;
    let yoe = shifted_year - era * 400;
    assert(-6_000_000 < era < 6_000_000);
    assert(-876_582_000_000 < era * 146097 < 876_582_000_000) by (nonlinear_arith)
        requires -6_000_000 < era < 6_000_000;
    let shifted_month = if month > 2 { month - 3 } else { month + 9 };
    let n = 153 * shifted_month + 2;
    assert(-400_000_000_000 < n < 400_000_000_000);
    assert(-100_000_000_000 < trunc_div(n, 5) < 100_000_000_000);
}


/// Day counts within ten million days of 1970-01-01 name years within forty
/// thousand years of year zero.
pub proof fn lemma_year_of_bounded_days(days: int)
    requires
        -10_000_000 <= days <= 10_000_000,
    ensures
        -40_000 <= spec_civil_from_days(days).0 <= 40_000,
{
    lemma_days_to_civil_round_trip(days);
    let date = spec_civil_from_days(days);
    let year = date.0;
    lemma_days_before_month_values(year);
    assert(0 <= days_before_month(year, date.1) <= 335);
    assert(1 <= date.2 <= 31);
    let x = year - 1;
    assert(x / 4 * 4 <= x < x / 4 * 4 + 4);
    assert(x / 100 * 100 <= x < x / 100 * 100 + 100);
    assert(x / 400 * 400 <= x < x / 400 * 400 + 400);
    assert(leap_years_through(1969) == 477);
}

} // verus!
