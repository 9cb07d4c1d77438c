//! Whole-second conversions between calendar labels, UTC and continuous GPS
//! time.
//!
//! Continuous GPS time counts whole seconds from the GPS epoch
//! (1980-01-06 00:00:00, never adjusted for leap seconds). Calendar labels in
//! the GPS scale never contain leap seconds; UTC labels may hold `23:59:60` on
//! a day listed in the leap-second history.
use vstd::prelude::*;

use crate::calendar::{
    civil_from_days, days_from_civil, era_days_from_civil, is_valid_date, spec_civil_from_days,
    spec_days_from_civil, spec_days_in_month, days_in_month, lemma_days_to_civil_round_trip,
    lemma_civil_to_days_round_trip,
};
use crate::error::Error;
use crate::leap_seconds::{
    first_match, gps_utc_leap_seconds, leading_run_last, lemma_first_match, lemma_leading_run_last,
    lemma_leap_history_is_regular, leap_effective_gps_day, leap_history_is_regular,
    leap_insertion_gps_day, spec_days_since_gps_epoch, spec_gps_effective_seconds,
    spec_gps_utc_leap_seconds, LeapSecond, bulletin_c_insertions, first_of_next_month,
    lemma_leap_history_follows_bulletin_c,
};

verus! {

/// Seconds in a GPS week.
pub const SECONDS_IN_WEEK: i64 = 604_800;

/// Seconds in a day.
pub const SECONDS_IN_DAY: i64 = 86_400;

/// Name of the GPS-system calendar scale in error reports.
pub const GPS_CALENDAR_SCALE: &'static str = "GPS calendar";

/// Name of the UTC scale in error reports.
pub const UTC_SCALE: &'static str = "UTC";

/// Name of the continuous GPS time scale in error reports.
pub const GPS_SCALE: &'static str = "GPS";

/// A civil calendar label with a whole second.
#[derive(Clone, Copy, Debug, PartialEq, Eq, Structural)]
pub struct CalendarLabel {
    /// Calendar year.
    pub year: i32,
    /// Calendar month, `1..=12`.
    pub month: i32,
    /// Day of the month.
    pub day: i32,
    /// Hour, `0..=23`.
    pub hour: i32,
    /// Minute, `0..=59`.
    pub minute: i32,
    /// Whole second, `0..=59`, or `60` for an inserted UTC leap second.
    pub second: i32,
}

/// Days from the GPS epoch day of the label's date.
pub open spec fn label_days(label: CalendarLabel) -> int {
    spec_days_since_gps_epoch(label.year as int, label.month as int, label.day as int)
}

/// Whole seconds from the GPS epoch to the label, counting every day as
/// 86400 seconds.
pub open spec fn spec_label_elapsed(label: CalendarLabel) -> int {
    label_days(label) * 86400 + label.hour * 3600 + label.minute * 60 + label.second
}

/// The label that lies `elapsed` whole seconds after the GPS epoch, counting
/// every day as 86400 seconds.
pub open spec fn spec_label_from_elapsed(elapsed: int) -> CalendarLabel {
    let date = spec_civil_from_days(3657 + elapsed / 86400);
    let second_of_day = elapsed % 86400;
    CalendarLabel {
        year: date.0 as i32,
        month: date.1 as i32,
        day: date.2 as i32,
        hour: (second_of_day / 3600) as i32,
        minute: (second_of_day % 3600 / 60) as i32,
        second: (second_of_day % 60) as i32,
    }
}

/// Whether a leap second's effective day is on or before `day`.
pub open spec fn effective_by_day(day: int) -> spec_fn(LeapSecond) -> bool {
    |leap: LeapSecond| leap_effective_gps_day(leap) <= day
}

/// Whether a leap second's new offset is effective at GPS second `seconds`.
pub open spec fn effective_by_seconds(seconds: int) -> spec_fn(LeapSecond) -> bool {
    |leap: LeapSecond| spec_gps_effective_seconds(leap) <= seconds
}

/// Whether GPS second `seconds` is a leap second's inserted second.
pub open spec fn inserted_at_seconds(seconds: int) -> spec_fn(LeapSecond) -> bool {
    |leap: LeapSecond| seconds == spec_gps_effective_seconds(leap) - 1
}

/// Whether a leap second is inserted on the given UTC date.
pub open spec fn inserted_on(year: int, month: int, day: int) -> spec_fn(LeapSecond) -> bool {
    |leap: LeapSecond|
        leap.insertion_year == year && leap.insertion_month == month && leap.insertion_day
            == day
}

/// GPS minus UTC at the start of a GPS day.
pub open spec fn spec_gps_utc_offset_at_day(day: int) -> int {
    match leading_run_last(spec_gps_utc_leap_seconds(), effective_by_day(day)) {
        Some(leap) => leap.gps_utc_offset as int,
        None => 0,
    }
}

/// The leap second inserted in the last minute of the label's date, if the
/// label lies in that minute.
pub open spec fn spec_leap_second_for_insertion(label: CalendarLabel) -> Option<LeapSecond> {
    if label.hour != 23 || label.minute != 59 {
        None
    } else {
        first_match(
            spec_gps_utc_leap_seconds(),
            inserted_on(label.year as int, label.month as int, label.day as int),
        )
    }
}

/// GPS minus UTC for a UTC label.
pub open spec fn spec_utc_offset(label: CalendarLabel) -> int {
    if label.second >= 60 {
        match spec_leap_second_for_insertion(label) {
            Some(leap) => leap.gps_utc_offset - 1,
            None => 0,
        }
    } else {
        spec_gps_utc_offset_at_day(label_days(label))
    }
}

/// Continuous GPS seconds of a UTC label.
pub open spec fn spec_gps_seconds_from_utc(label: CalendarLabel) -> int {
    spec_label_elapsed(label) + spec_utc_offset(label)
}

/// The UTC label of a continuous GPS second.
pub open spec fn spec_utc_from_gps_seconds(seconds: int) -> CalendarLabel {
    match first_match(spec_gps_utc_leap_seconds(), inserted_at_seconds(seconds)) {
        Some(leap) => CalendarLabel {
            year: leap.insertion_year,
            month: leap.insertion_month,
            day: leap.insertion_day,
            hour: 23,
            minute: 59,
            second: 60,
        },
        None => {
            let offset = match leading_run_last(spec_gps_utc_leap_seconds(), effective_by_seconds(seconds)) {
                Some(leap) => leap.gps_utc_offset as int,
                None => 0,
            };
            spec_label_from_elapsed(seconds - offset)
        },
    }
}

/// Whether the label names an ordinary civil second: a valid date, hour,
/// minute and a second in `0..=59`.
pub open spec fn is_ordinary_label(label: CalendarLabel) -> bool {
    &&& is_valid_date(label.year as int, label.month as int, label.day as int)
    &&& 0 <= label.hour <= 23
    &&& 0 <= label.minute <= 59
    &&& 0 <= label.second <= 59
}

/// Whether the label is a valid UTC instant: an ordinary second, or
/// `23:59:60` on a day whose last minute holds an inserted leap second.
pub open spec fn is_valid_utc_label(label: CalendarLabel) -> bool {
    ||| is_ordinary_label(label)
    ||| (is_valid_date(label.year as int, label.month as int, label.day as int) && label.second
        == 60 && spec_leap_second_for_insertion(label) is Some)
}

/// Counts days from the GPS epoch day (1980-01-06) to a calendar date.
pub fn days_since_gps_epoch(year: i32, month: i32, day: i32) -> (days: i64)
    ensures
        days == era_days_from_civil(year as int, month as int, day as int) - 3657,
        1 <= month <= 12 ==> days == spec_days_since_gps_epoch(year as int, month as int, day as int),
{
    days_from_civil(year, month, day) - 3_657
}

/// Continuous GPS seconds at which a leap second's new offset takes effect.
pub fn gps_effective_seconds(leap: LeapSecond) -> (seconds: i64)
    requires
        1 <= leap.effective_month <= 12,
        i64::MIN <= spec_gps_effective_seconds(leap) <= i64::MAX,
    ensures
        seconds == spec_gps_effective_seconds(leap),
{
    let days = days_since_gps_epoch(leap.effective_year, leap.effective_month, leap.effective_day);
    assert(-1_000_000_000_000 < days < 1_000_000_000_000) by {
        crate::calendar::lemma_era_days_bounds(
            leap.effective_year as int,
            leap.effective_month as int,
            leap.effective_day as int,
        );
    }
    days * SECONDS_IN_DAY + leap.gps_utc_offset
}

/// Facts about the maintained history that the exec lookups rely on.
proof fn lemma_table_entry(k: int)
    requires
        0 <= k < 18,
    ensures
        1 <= spec_gps_utc_leap_seconds()[k].effective_month <= 12,
        0 <= leap_effective_gps_day(spec_gps_utc_leap_seconds()[k]) <= 20000,
        spec_gps_utc_leap_seconds()[k].gps_utc_offset == k + 1,
{
    lemma_leap_history_is_regular();
    let t = spec_gps_utc_leap_seconds();
    assert(leap_effective_gps_day(t[k]) <= 20000);
    assert(leap_effective_gps_day(t[0]) >= 2);
    if k > 0 {
        assert(leap_effective_gps_day(t[0]) + 2 <= leap_effective_gps_day(t[k]));
    }
}

/// GPS minus UTC in seconds at the start of a GPS day.
pub fn gps_utc_offset_at_day(day: i64) -> (offset: i64)
    ensures
        offset == spec_gps_utc_offset_at_day(day as int),
{
    let table = gps_utc_leap_seconds();
    let mut index: usize = 0;
    let mut offset: i64 = 0;
    while index < 18
        invariant
            table@ == spec_gps_utc_leap_seconds(),
            0 <= index <= 18,
            forall|k: int| 0 <= k < index ==> #[trigger] effective_by_day(day as int)(table@[k]),
            offset == if index == 0 { 0 } else { table@[index - 1].gps_utc_offset },
        ensures
            index == 18 || !effective_by_day(day as int)(table@[index as int]),
        decreases 18 - index,
    {
        let leap = table[index];
        proof {
            lemma_table_entry(index as int);
        }
        let days = days_since_gps_epoch(leap.effective_year, leap.effective_month, leap.effective_day);
        if days > day {
            break;
        }
        offset = leap.gps_utc_offset;
        index = index + 1;
    }
    proof {
        lemma_leading_run_last(table@, effective_by_day(day as int), index as int);
    }
    offset
}

/// The leap second inserted in the last minute of the label's date, when the
/// label lies in that minute.
pub fn leap_second_for_insertion(label: &CalendarLabel) -> (leap: Option<LeapSecond>)
    ensures
        leap == spec_leap_second_for_insertion(*label),
{
    if label.hour != 23 || label.minute != 59 {
        return None;
    }
    let table = gps_utc_leap_seconds();
    let ghost pred = inserted_on(label.year as int, label.month as int, label.day as int);
    let mut index: usize = 0;
    while index < 18
        invariant
            table@ == spec_gps_utc_leap_seconds(),
            0 <= index <= 18,
            pred == inserted_on(label.year as int, label.month as int, label.day as int),
            label.hour == 23 && label.minute == 59,
            forall|k: int| 0 <= k < index ==> !#[trigger] pred(table@[k]),
        decreases 18 - index,
    {
        let leap = table[index];
        if leap.insertion_year == label.year && leap.insertion_month == label.month
            && leap.insertion_day == label.day {
            proof {
                assert(pred(table@[index as int]));
                lemma_first_match(table@, pred, index as int);
            }
            return Some(leap);
        }
        index = index + 1;
    }
    proof {
        lemma_first_match(table@, pred, 18);
    }
    None
}

/// Builds the calendar validation error of a scale.
fn invalid_calendar(scale: &'static str, reason: &str) -> (error: Error)
    ensures
        error matches Error::InvalidCalendarDate { scale: s, reason: r } && s == scale && r@
            == reason@,
{
    Error::InvalidCalendarDate { scale, reason: reason.to_owned() }
}

/// Whether the fields form a valid label of a scale whose seconds lie below
/// `maximum_second`.
pub open spec fn calendar_fields_valid(
    year: int,
    month: int,
    day: int,
    hour: int,
    minute: int,
    second: int,
    maximum_second: int,
) -> bool {
    &&& 1 <= month <= 12
    &&& 1 <= day <= spec_days_in_month(year, month)
    &&& 0 <= hour <= 23
    &&& 0 <= minute <= 59
    &&& 0 <= second < maximum_second
}

/// Validates the fields of a calendar label whose whole second must lie in
/// `0..maximum_second`; the first violated rule is reported.
pub fn check_calendar_fields(
    scale: &'static str,
    year: i32,
    month: i32,
    day: i32,
    hour: i32,
    minute: i32,
    second: i64,
    maximum_second: i64,
) -> (checked: Result<(), Error>)
    ensures
        checked is Ok <==> calendar_fields_valid(
            year as int,
            month as int,
            day as int,
            hour as int,
            minute as int,
            second as int,
            maximum_second as int,
        ),
        !(1 <= month <= 12) ==> (checked matches Err(Error::InvalidCalendarDate { scale: s, reason: r })
            && s == scale && r@ == "month must be in 1..=12"@),
        1 <= month <= 12 && !(1 <= day <= spec_days_in_month(year as int, month as int)) ==> (
        checked matches Err(Error::InvalidCalendarDate { scale: s, reason: r }) && s == scale && r@
            == "day is outside the selected month"@),
        is_valid_date(year as int, month as int, day as int) && !(0 <= hour <= 23) ==> (
        checked matches Err(Error::InvalidCalendarDate { scale: s, reason: r }) && s == scale && r@
            == "hour must be in 0..=23"@),
        is_valid_date(year as int, month as int, day as int) && 0 <= hour <= 23 && !(0 <= minute
            <= 59) ==> (checked matches Err(Error::InvalidCalendarDate { scale: s, reason: r }) && s
            == scale && r@ == "minute must be in 0..=59"@),
        is_valid_date(year as int, month as int, day as int) && 0 <= hour <= 23 && 0 <= minute <= 59
            && !(0 <= second < maximum_second) ==> (checked matches Err(
            Error::InvalidCalendarDate { scale: s, reason: r },
        ) && s == scale && r@ == "second is non-finite or outside the permitted range"@),
{
    if !(1 <= month && month <= 12) {
        return Err(invalid_calendar(scale, "month must be in 1..=12"));
    }
    if !(1 <= day && day <= days_in_month(year, month)) {
        return Err(invalid_calendar(scale, "day is outside the selected month"));
    }
    if !(0 <= hour && hour <= 23) {
        return Err(invalid_calendar(scale, "hour must be in 0..=23"));
    }
    if !(0 <= minute && minute <= 59) {
        return Err(invalid_calendar(scale, "minute must be in 0..=59"));
    }
    if !(0 <= second && second < maximum_second) {
        return Err(invalid_calendar(scale, "second is non-finite or outside the permitted range"));
    }
    Ok(())
}

/// Validates a UTC label: a valid calendar label with a whole second below
/// 61, whose second 60 lies in the last minute of a leap-second insertion day.
pub fn check_utc_label(label: &CalendarLabel) -> (checked: Result<(), Error>)
    ensures
        checked is Ok <==> is_valid_utc_label(*label),
        checked is Err ==> (checked matches Err(Error::InvalidCalendarDate { scale: s, .. }) && s
            == UTC_SCALE),
{
    check_calendar_fields(
        UTC_SCALE,
        label.year,
        label.month,
        label.day,
        label.hour,
        label.minute,
        label.second as i64,
        61,
    )?;
    if label.second >= 60 && leap_second_for_insertion(label).is_none() {
        return Err(invalid_calendar(UTC_SCALE, "second 60 is not valid at this UTC instant"));
    }
    Ok(())
}

/// Elapsed seconds of labels with 32-bit fields stay far inside the `i64`
/// range.
pub proof fn lemma_label_elapsed_bounds(label: CalendarLabel)
    requires
        1 <= label.month <= 12,
    ensures
        -200_000_000_000_000_000 < spec_label_elapsed(label) < 200_000_000_000_000_000,
{
    crate::calendar::lemma_era_days_bounds(label.year as int, label.month as int, label.day as int);
    crate::calendar::lemma_era_formula_matches(label.year as int, label.month as int, label.day as int);
}

/// Whole seconds from the GPS epoch to a calendar label, counting every day
/// as 86400 seconds.
pub fn elapsed_seconds(scale: &'static str, label: &CalendarLabel) -> (elapsed: Result<i64, Error>)
    requires
        1 <= label.month <= 12,
    ensures
        label_days(*label) < 0 ==> (elapsed matches Err(Error::TimeBeforeGpsEpoch { scale: s })
            && s == scale),
        label_days(*label) >= 0 ==> elapsed == Ok::<i64, Error>(spec_label_elapsed(*label) as i64),
{
    let days = days_since_gps_epoch(label.year, label.month, label.day);
    if days < 0 {
        return Err(Error::TimeBeforeGpsEpoch { scale });
    }
    assert(days < 1_000_000_000_000) by {
        crate::calendar::lemma_era_days_bounds(label.year as int, label.month as int, label.day as int);
    }
    Ok(days * SECONDS_IN_DAY + label.hour as i64 * 3_600 + label.minute as i64 * 60
        + label.second as i64)
}

/// Whether the label `elapsed` seconds after the GPS epoch has a year that
/// fits in an `i32`.
pub open spec fn label_year_fits(elapsed: int) -> bool {
    i32::MIN <= spec_civil_from_days(3657 + elapsed / 86400).0 <= i32::MAX
}

/// The calendar label `elapsed` whole seconds after the GPS epoch, counting
/// every day as 86400 seconds.
pub fn label_from_elapsed(elapsed: i64, scale: &'static str) -> (label: Result<CalendarLabel, Error>)
    ensures
        elapsed < 0 ==> (label matches Err(Error::TimeBeforeGpsEpoch { scale: s }) && s == scale),
        elapsed >= 0 && label_year_fits(elapsed as int) ==> label == Ok::<CalendarLabel, Error>(
            spec_label_from_elapsed(elapsed as int),
        ),
        elapsed >= 0 && !label_year_fits(elapsed as int) ==> (label matches Err(Error::InvalidGpsTime(_))),
{
    if elapsed < 0 {
        return Err(Error::TimeBeforeGpsEpoch { scale });
    }
    let days = elapsed / SECONDS_IN_DAY;
    let second_of_day = elapsed % SECONDS_IN_DAY;
    let (year, month, day) = civil_from_days(3_657 + days)?;
    proof {
        lemma_days_to_civil_round_trip(3657 + days);
    }
    let hour = second_of_day / 3_600;
    let minute = second_of_day % 3_600 / 60;
    let second = second_of_day % 60;
    check_calendar_fields(scale, year, month, day, hour as i32, minute as i32, second, 60)?;
    Ok(CalendarLabel { year, month, day, hour: hour as i32, minute: minute as i32, second: second as i32 })
}

/// Continuous GPS seconds of a valid UTC label.
///
/// An inserted leap second `23:59:60` maps to the GPS second just before the
/// new offset takes effect.
pub fn gps_seconds_from_utc(label: &CalendarLabel) -> (seconds: Result<i64, Error>)
    requires
        is_valid_utc_label(*label),
    ensures
        label_days(*label) < 0 ==> (seconds matches Err(Error::TimeBeforeGpsEpoch { scale: s })
            && s == UTC_SCALE),
        label_days(*label) >= 0 ==> seconds == Ok::<i64, Error>(
            spec_gps_seconds_from_utc(*label) as i64,
        ),
{
    proof {
        lemma_label_elapsed_bounds(*label);
    }
    let whole = elapsed_seconds(UTC_SCALE, label)?;
    let offset = if label.second >= 60 {
        match leap_second_for_insertion(label) {
            Some(leap) => {
                proof {
                    lemma_insertion_offset(*label);
                }
                leap.gps_utc_offset - 1
            },
            None => 0,
        }
    } else {
        proof {
            lemma_offset_at_day_bounds(label_days(*label));
        }
        gps_utc_offset_at_day(days_since_gps_epoch(label.year, label.month, label.day))
    };
    Ok(whole + offset)
}

/// A found insertion entry carries a small offset.
proof fn lemma_insertion_offset(label: CalendarLabel)
    ensures
        spec_leap_second_for_insertion(label) matches Some(leap) ==> 1 <= leap.gps_utc_offset
            <= 18,
{
    if let Some(leap) = spec_leap_second_for_insertion(label) {
        let t = spec_gps_utc_leap_seconds();
        let pred = inserted_on(label.year as int, label.month as int, label.day as int);
        lemma_first_match_in_table(t, pred);
    }
}

/// A first match is an entry of the table.
proof fn lemma_first_match_in_table(table: Seq<LeapSecond>, pred: spec_fn(LeapSecond) -> bool)
    ensures
        first_match(table, pred) matches Some(leap) ==> pred(leap) && exists|k: int|
            0 <= k < table.len() && table[k] == leap,
    decreases table.len(),
{
    if table.len() > 0 && !pred(table[0]) {
        lemma_first_match_in_table(table.drop_first(), pred);
        if let Some(leap) = first_match(table, pred) {
            let k = choose|k: int| 0 <= k < table.drop_first().len() && table.drop_first()[k] == leap;
            assert(table[k + 1] == leap);
        }
    } else if table.len() > 0 {
        assert(table[0] == table[0]);
    }
}

/// A last entry of a leading run is an entry of the table.
proof fn lemma_leading_run_in_table(table: Seq<LeapSecond>, pred: spec_fn(LeapSecond) -> bool)
    ensures
        leading_run_last(table, pred) matches Some(leap) ==> exists|k: int|
            0 <= k < table.len() && table[k] == leap,
    decreases table.len(),
{
    if table.len() > 0 && pred(table[0]) {
        lemma_leading_run_in_table(table.drop_first(), pred);
        if let Some(leap) = leading_run_last(table.drop_first(), pred) {
            let k = choose|k: int| 0 <= k < table.drop_first().len() && table.drop_first()[k] == leap;
            assert(table[k + 1] == leap);
        } else {
            assert(table[0] == table[0]);
        }
    }
}

/// Offsets from the table are small.
proof fn lemma_offset_at_day_bounds(day: int)
    ensures
        0 <= spec_gps_utc_offset_at_day(day) <= 18,
{
    let t = spec_gps_utc_leap_seconds();
    lemma_leading_run_in_table(t, effective_by_day(day));
    if let Some(leap) = leading_run_last(t, effective_by_day(day)) {
        let k = choose|k: int| 0 <= k < t.len() && t[k] == leap;
        lemma_table_entry(k);
    }
}

/// GPS minus UTC in effect at a continuous GPS second.
pub open spec fn spec_offset_at_seconds(seconds: int) -> int {
    match leading_run_last(spec_gps_utc_leap_seconds(), effective_by_seconds(seconds)) {
        Some(leap) => leap.gps_utc_offset as int,
        None => 0,
    }
}

/// Whether the UTC label of a continuous GPS second has a year that fits in
/// an `i32`.
pub open spec fn utc_year_fits(seconds: int) -> bool {
    first_match(spec_gps_utc_leap_seconds(), inserted_at_seconds(seconds)) is Some
        || label_year_fits(seconds - spec_offset_at_seconds(seconds))
}

/// The UTC label of a continuous GPS second counted from the GPS epoch.
///
/// The GPS second just before a new leap-second offset takes effect is the
/// inserted second `23:59:60` of the insertion day.
pub fn utc_from_gps_seconds(seconds: i64) -> (label: Result<CalendarLabel, Error>)
    requires
        seconds >= 0,
    ensures
        utc_year_fits(seconds as int) ==> label == Ok::<CalendarLabel, Error>(
            spec_utc_from_gps_seconds(seconds as int),
        ),
        !utc_year_fits(seconds as int) ==> (label matches Err(Error::InvalidGpsTime(_))),
{
    let table = gps_utc_leap_seconds();
    let ghost inserted = inserted_at_seconds(seconds as int);
    let mut index: usize = 0;
    while index < 18
        invariant
            table@ == spec_gps_utc_leap_seconds(),
            0 <= index <= 18,
            inserted == inserted_at_seconds(seconds as int),
            forall|k: int| 0 <= k < index ==> !#[trigger] inserted(table@[k]),
        decreases 18 - index,
    {
        let leap = table[index];
        proof {
            lemma_table_entry(index as int);
        }
        if seconds == gps_effective_seconds(leap) - 1 {
            proof {
                assert(inserted(table@[index as int]));
                lemma_first_match(table@, inserted, index as int);
                lemma_insertion_label_valid(index as int);
            }
            let label = CalendarLabel {
                year: leap.insertion_year,
                month: leap.insertion_month,
                day: leap.insertion_day,
                hour: 23,
                minute: 59,
                second: 60,
            };
            check_utc_label(&label)?;
            return Ok(label);
        }
        index = index + 1;
    }
    proof {
        lemma_first_match(table@, inserted, 18);
    }
    let ghost effective = effective_by_seconds(seconds as int);
    let mut index: usize = 0;
    let mut offset: i64 = 0;
    while index < 18
        invariant
            table@ == spec_gps_utc_leap_seconds(),
            0 <= index <= 18,
            effective == effective_by_seconds(seconds as int),
            forall|k: int| 0 <= k < index ==> #[trigger] effective(table@[k]),
            offset == if index == 0 { 0 } else { table@[index - 1].gps_utc_offset },
            0 <= offset <= 18,
            offset <= seconds,
        ensures
            index == 18 || !effective(table@[index as int]),
        decreases 18 - index,
    {
        let leap = table[index];
        proof {
            lemma_table_entry(index as int);
        }
        if gps_effective_seconds(leap) > seconds {
            break;
        }
        offset = leap.gps_utc_offset;
        index = index + 1;
    }
    proof {
        lemma_leading_run_last(table@, effective, index as int);
    }
    label_from_elapsed(seconds - offset, UTC_SCALE)
}

/// The insertion date of every history entry is a valid UTC leap-second label.
proof fn lemma_insertion_label_valid(k: int)
    requires
        0 <= k < 18,
    ensures
        ({
            let leap = spec_gps_utc_leap_seconds()[k];
            is_valid_utc_label(
                CalendarLabel {
                    year: leap.insertion_year,
                    month: leap.insertion_month,
                    day: leap.insertion_day,
                    hour: 23,
                    minute: 59,
                    second: 60,
                },
            )
        }),
{
    lemma_leap_history_is_regular();
    let t = spec_gps_utc_leap_seconds();
    let leap = t[k];
    let pred = inserted_on(leap.insertion_year as int, leap.insertion_month as int, leap.insertion_day as int);
    assert(pred(t[k]));
    lemma_first_match_exists(t, pred, k);
}

/// A table with a matching entry has a first match.
proof fn lemma_first_match_exists(table: Seq<LeapSecond>, pred: spec_fn(LeapSecond) -> bool, k: int)
    requires
        0 <= k < table.len(),
        pred(table[k]),
    ensures
        first_match(table, pred) is Some,
    decreases table.len(),
{
    if !pred(table[0]) {
        assert(table.drop_first()[k - 1] == table[k]);
        lemma_first_match_exists(table.drop_first(), pred, k - 1);
    }
}

/// Splits continuous GPS seconds into a full week number and whole seconds of
/// the week.
pub fn week_and_second(elapsed: i64) -> (split: Result<(i32, i64), Error>)
    ensures
        elapsed < 0 ==> (split matches Err(Error::TimeBeforeGpsEpoch { scale: s }) && s == GPS_SCALE),
        elapsed >= 0 && elapsed / 604800 <= i32::MAX ==> split == Ok::<(i32, i64), Error>(
            ((elapsed / 604800) as i32, (elapsed % 604800) as i64),
        ),
        elapsed >= 0 && elapsed / 604800 > i32::MAX ==> (split matches Err(Error::InvalidGpsTime(_))),
{
    if elapsed < 0 {
        return Err(Error::TimeBeforeGpsEpoch { scale: GPS_SCALE });
    }
    let week = elapsed / SECONDS_IN_WEEK;
    if week > i32::MAX as i64 {
        return Err(Error::InvalidGpsTime("week exceeds the supported i32 range".to_owned()));
    }
    Ok((week as i32, elapsed % SECONDS_IN_WEEK))
}

/// Continuous GPS seconds of a full week number and whole seconds of the week.
pub fn elapsed_from_week(week: i32, second_of_week: i64) -> (elapsed: Result<i64, Error>)
    ensures
        week < 0 ==> (elapsed matches Err(Error::TimeBeforeGpsEpoch { scale: s }) && s == GPS_SCALE),
        week >= 0 && !(0 <= second_of_week < 604800) ==> (elapsed matches Err(Error::InvalidGpsTime(_))),
        week >= 0 && 0 <= second_of_week < 604800 ==> elapsed == Ok::<i64, Error>(
            (week * 604800 + second_of_week) as i64,
        ),
{
    if week < 0 {
        return Err(Error::TimeBeforeGpsEpoch { scale: GPS_SCALE });
    }
    if !(0 <= second_of_week && second_of_week < SECONDS_IN_WEEK) {
        return Err(Error::InvalidGpsTime("seconds-of-week must be finite and normalized".to_owned()));
    }
    Ok(week as i64 * SECONDS_IN_WEEK + second_of_week)
}

/// Counting the elapsed seconds of an ordinary label after the GPS epoch and
/// converting them back gives the same label.
pub proof fn lemma_label_elapsed_round_trip(label: CalendarLabel)
    requires
        is_ordinary_label(label),
        label_days(label) >= 0,
    ensures
        label_year_fits(spec_label_elapsed(label)),
        spec_label_from_elapsed(spec_label_elapsed(label)) == label,
{
    let days = label_days(label);
    let second_of_day = label.hour * 3600 + label.minute * 60 + label.second;
    let elapsed = spec_label_elapsed(label);
    assert(0 <= second_of_day < 86400);
    vstd::arithmetic::div_mod::lemma_fundamental_div_mod_converse(elapsed, 86400, days, second_of_day);
    vstd::arithmetic::div_mod::lemma_fundamental_div_mod_converse(
        second_of_day,
        3600,
        label.hour as int,
        label.minute * 60 + label.second,
    );
    vstd::arithmetic::div_mod::lemma_fundamental_div_mod_converse(
        label.minute * 60 + label.second,
        60,
        label.minute as int,
        label.second as int,
    );
    vstd::arithmetic::div_mod::lemma_fundamental_div_mod_converse(
        second_of_day,
        60,
        label.hour * 60 + label.minute,
        label.second as int,
    );
    lemma_civil_to_days_round_trip(label.year as int, label.month as int, label.day as int);
}

/// Index of the first history entry that is not yet effective on `day`.
proof fn lemma_effective_count(day: int, start: int) -> (count: int)
    requires
        0 <= start <= 18,
        forall|k: int| 0 <= k < start ==> leap_effective_gps_day(#[trigger] spec_gps_utc_leap_seconds()[k]) <= day,
    ensures
        start <= count <= 18,
        forall|k: int| 0 <= k < count ==> leap_effective_gps_day(#[trigger] spec_gps_utc_leap_seconds()[k]) <= day,
        count < 18 ==> leap_effective_gps_day(spec_gps_utc_leap_seconds()[count]) > day,
    decreases 18 - start,
{
    if start == 18 || leap_effective_gps_day(spec_gps_utc_leap_seconds()[start]) > day {
        start
    } else {
        lemma_effective_count(day, start + 1)
    }
}

/// Converting a valid UTC label after the GPS epoch to continuous GPS seconds
/// and back gives the same label, inserted leap seconds included; the year of
/// the way back always fits, so `utc_from_gps_seconds` returns it.
pub proof fn lemma_utc_gps_round_trip(label: CalendarLabel)
    requires
        is_valid_utc_label(label),
        label_days(label) >= 0,
    ensures
        spec_gps_seconds_from_utc(label) >= 0,
        utc_year_fits(spec_gps_seconds_from_utc(label)),
        spec_utc_from_gps_seconds(spec_gps_seconds_from_utc(label)) == label,
{
    lemma_leap_history_is_regular();
    let t = spec_gps_utc_leap_seconds();
    let day = label_days(label);
    let seconds = spec_gps_seconds_from_utc(label);
    if label.second <= 59 {
        let count = lemma_effective_count(day, 0);
        assert forall|k: int| count <= k < 18 implies leap_effective_gps_day(#[trigger] t[k]) > day by {
            if k > count {
                assert(leap_effective_gps_day(t[count]) + 2 <= leap_effective_gps_day(t[k]));
            }
        }
        lemma_leading_run_last(t, effective_by_day(day), count);
        assert(spec_gps_utc_offset_at_day(day) == count) by {
            if count > 0 {
                lemma_table_entry(count - 1);
            }
        }
        let elapsed = spec_label_elapsed(label);
        assert(day * 86400 <= elapsed < day * 86400 + 86400);
        assert(seconds == elapsed + count);
        assert forall|k: int| 0 <= k < 18 implies !#[trigger] inserted_at_seconds(seconds)(t[k]) by {
            lemma_table_entry(k);
            if k < count {
                assert(leap_effective_gps_day(t[k]) * 86400 <= day * 86400) by (nonlinear_arith)
                    requires leap_effective_gps_day(t[k]) <= day;
            } else {
                assert(leap_effective_gps_day(t[k]) * 86400 >= (day + 1) * 86400) by (nonlinear_arith)
                    requires leap_effective_gps_day(t[k]) >= day + 1;
            }
        }
        lemma_first_match(t, inserted_at_seconds(seconds), 18);
        assert forall|k: int| 0 <= k < count implies #[trigger] effective_by_seconds(seconds)(t[k]) by {
            lemma_table_entry(k);
            assert(leap_effective_gps_day(t[k]) * 86400 <= day * 86400) by (nonlinear_arith)
                requires leap_effective_gps_day(t[k]) <= day;
        }
        if count < 18 {
            lemma_table_entry(count);
            assert(leap_effective_gps_day(t[count]) * 86400 >= (day + 1) * 86400) by (nonlinear_arith)
                requires leap_effective_gps_day(t[count]) >= day + 1;
            assert(!effective_by_seconds(seconds)(t[count]));
        }
        lemma_leading_run_last(t, effective_by_seconds(seconds), count);
        assert(spec_offset_at_seconds(seconds) == count) by {
            if count > 0 {
                lemma_table_entry(count - 1);
            }
        }
        lemma_label_elapsed_round_trip(label);
    } else {
        let pred = inserted_on(label.year as int, label.month as int, label.day as int);
        lemma_first_match_in_table(t, pred);
        let leap = spec_leap_second_for_insertion(label).unwrap();
        let k = choose|k: int| 0 <= k < t.len() && t[k] == leap;
        lemma_table_entry(k);
        assert(pred(leap));
        assert(day == leap_insertion_gps_day(t[k]));
        assert(spec_label_elapsed(label) == leap_effective_gps_day(t[k]) * 86400);
        assert(seconds == spec_gps_effective_seconds(t[k]) - 1);
        assert forall|j: int| 0 <= j < k implies !#[trigger] inserted_at_seconds(seconds)(t[j]) by {
            lemma_table_entry(j);
            assert(leap_effective_gps_day(t[j]) + 2 <= leap_effective_gps_day(t[k]));
            assert(leap_effective_gps_day(t[j]) * 86400 + 2 * 86400 <= leap_effective_gps_day(t[k]) * 86400) by (nonlinear_arith)
                requires leap_effective_gps_day(t[j]) + 2 <= leap_effective_gps_day(t[k]);
        }
        assert(inserted_at_seconds(seconds)(t[k]));
        lemma_first_match(t, inserted_at_seconds(seconds), k);
    }
}

/// Index of the first history entry that is not yet effective at GPS second
/// `seconds`.
proof fn lemma_effective_seconds_count(seconds: int, start: int) -> (count: int)
    requires
        0 <= start <= 18,
        forall|k: int| 0 <= k < start ==> spec_gps_effective_seconds(#[trigger] spec_gps_utc_leap_seconds()[k]) <= seconds,
    ensures
        start <= count <= 18,
        forall|k: int| 0 <= k < count ==> spec_gps_effective_seconds(#[trigger] spec_gps_utc_leap_seconds()[k]) <= seconds,
        count < 18 ==> spec_gps_effective_seconds(spec_gps_utc_leap_seconds()[count]) > seconds,
    decreases 18 - start,
{
    if start == 18 || spec_gps_effective_seconds(spec_gps_utc_leap_seconds()[start]) > seconds {
        start
    } else {
        lemma_effective_seconds_count(seconds, start + 1)
    }
}

/// The label of a non-negative elapsed count has that elapsed count, lies on
/// day `elapsed / 86400` and names an ordinary second.
pub proof fn lemma_elapsed_label_round_trip(elapsed: int)
    requires
        elapsed >= 0,
        label_year_fits(elapsed),
    ensures
        spec_label_elapsed(spec_label_from_elapsed(elapsed)) == elapsed,
        label_days(spec_label_from_elapsed(elapsed)) == elapsed / 86400,
        is_ordinary_label(spec_label_from_elapsed(elapsed)),
{
    let days = elapsed / 86400;
    let date = spec_civil_from_days(3657 + days);
    lemma_days_to_civil_round_trip(3657 + days);
    assert(1 <= date.2 <= 31) by {
        crate::calendar::lemma_days_before_month_values(date.0);
    }
    let label = spec_label_from_elapsed(elapsed);
    assert(label.year == date.0 && label.month == date.1 && label.day == date.2);
    let second_of_day = elapsed % 86400;
    vstd::arithmetic::div_mod::lemma_fundamental_div_mod(elapsed, 86400);
    vstd::arithmetic::div_mod::lemma_fundamental_div_mod(second_of_day, 3600);
    vstd::arithmetic::div_mod::lemma_fundamental_div_mod(second_of_day % 3600, 60);
    vstd::arithmetic::div_mod::lemma_fundamental_div_mod(second_of_day, 60);
    vstd::arithmetic::div_mod::lemma_mod_mod(second_of_day, 60, 60);
    assert((second_of_day % 3600) % 60 == second_of_day % 60) by {
        vstd::arithmetic::div_mod::lemma_mod_mod(second_of_day, 60, 60);
        vstd::arithmetic::div_mod::lemma_mod_breakdown(second_of_day, 60, 60);
    }
}

/// Converting a continuous GPS second to its UTC label and back gives the
/// same second; the label is a valid UTC instant.
pub proof fn lemma_gps_utc_round_trip(seconds: int)
    requires
        seconds >= 0,
        utc_year_fits(seconds),
    ensures
        is_valid_utc_label(spec_utc_from_gps_seconds(seconds)),
        spec_gps_seconds_from_utc(spec_utc_from_gps_seconds(seconds)) == seconds,
{
    lemma_leap_history_is_regular();
    let t = spec_gps_utc_leap_seconds();
    let inserted = first_match(t, inserted_at_seconds(seconds));
    lemma_first_match_in_table(t, inserted_at_seconds(seconds));
    if inserted is Some {
        let leap = inserted.unwrap();
        let k = choose|k: int| 0 <= k < t.len() && t[k] == leap;
        lemma_table_entry(k);
        lemma_insertion_label_valid(k);
        let label = spec_utc_from_gps_seconds(seconds);
        let pred = inserted_on(label.year as int, label.month as int, label.day as int);
        assert forall|j: int| 0 <= j < k implies !#[trigger] pred(t[j]) by {
            assert(leap_effective_gps_day(t[j]) + 2 <= leap_effective_gps_day(t[k]));
        }
        assert(pred(t[k]));
        lemma_first_match(t, pred, k);
        assert(spec_leap_second_for_insertion(label) == Some(t[k]));
        assert(label_days(label) == leap_insertion_gps_day(t[k]));
    } else {
        let count = lemma_effective_seconds_count(seconds, 0);
        assert forall|k: int| count <= k < 18 implies spec_gps_effective_seconds(#[trigger] t[k]) > seconds by {
            if k > count {
                lemma_table_entry(k);
                lemma_table_entry(count);
                assert(leap_effective_gps_day(t[count]) + 2 <= leap_effective_gps_day(t[k]));
                assert(leap_effective_gps_day(t[count]) * 86400 + 2 * 86400 <= leap_effective_gps_day(t[k]) * 86400) by (nonlinear_arith)
                    requires leap_effective_gps_day(t[count]) + 2 <= leap_effective_gps_day(t[k]);
            }
        }
        if count < 18 {
            assert(!effective_by_seconds(seconds)(t[count]));
        }
        lemma_leading_run_last(t, effective_by_seconds(seconds), count);
        assert(spec_offset_at_seconds(seconds) == count) by {
            if count > 0 {
                lemma_table_entry(count - 1);
            }
        }
        let elapsed = seconds - count;
        if count > 0 {
            lemma_table_entry(count - 1);
            assert(leap_effective_gps_day(t[count - 1]) * 86400 >= 0) by (nonlinear_arith)
                requires leap_effective_gps_day(t[count - 1]) >= 0;
        }
        assert(elapsed >= 0);
        lemma_elapsed_label_round_trip(elapsed);
        let label = spec_label_from_elapsed(elapsed);
        let day = elapsed / 86400;
        vstd::arithmetic::div_mod::lemma_fundamental_div_mod(elapsed, 86400);
        assert forall|k: int| 0 <= k < count implies #[trigger] effective_by_day(day)(t[k]) by {
            lemma_table_entry(k);
            lemma_table_entry(count - 1);
            if k < count - 1 {
                assert(leap_effective_gps_day(t[k]) + 2 <= leap_effective_gps_day(t[count - 1]));
            }
            let last = leap_effective_gps_day(t[count - 1]);
            assert(last * 86400 <= elapsed);
            assert(last <= day) by (nonlinear_arith)
                requires last * 86400 <= elapsed, elapsed == 86400 * day + elapsed % 86400, 0 <= elapsed % 86400 < 86400;
        }
        if count < 18 {
            lemma_table_entry(count);
            lemma_first_match_none(t, inserted_at_seconds(seconds), count);
            assert(!inserted_at_seconds(seconds)(t[count]));
            let next = leap_effective_gps_day(t[count]);
            assert(elapsed < next * 86400);
            assert(day < next) by (nonlinear_arith)
                requires elapsed < next * 86400, elapsed == 86400 * day + elapsed % 86400, 0 <= elapsed % 86400 < 86400;
            assert(!effective_by_day(day)(t[count]));
        }
        lemma_leading_run_last(t, effective_by_day(day), count);
        assert(spec_gps_utc_offset_at_day(day) == count) by {
            if count > 0 {
                lemma_table_entry(count - 1);
            }
        }
    }
}

/// No entry satisfies a predicate whose first match is none.
proof fn lemma_first_match_none(table: Seq<LeapSecond>, pred: spec_fn(LeapSecond) -> bool, j: int)
    requires
        first_match(table, pred) is None,
        0 <= j < table.len(),
    ensures
        !pred(table[j]),
    decreases table.len(),
{
    if j > 0 {
        assert(table.drop_first()[j - 1] == table[j]);
        lemma_first_match_none(table.drop_first(), pred, j - 1);
    }
}

/// GPS minus UTC never decreases from one day to a later one, and stays
/// between 0 and 18 seconds.
pub proof fn lemma_offset_is_monotonic(earlier: int, later: int)
    requires
        earlier <= later,
    ensures
        0 <= spec_gps_utc_offset_at_day(earlier) <= spec_gps_utc_offset_at_day(later) <= 18,
{
    lemma_leap_history_is_regular();
    let t = spec_gps_utc_leap_seconds();
    let first = lemma_effective_count(earlier, 0);
    let second = lemma_effective_count(later, 0);
    assert forall|k: int| first <= k < 18 implies leap_effective_gps_day(#[trigger] t[k]) > earlier by {
        if k > first {
            assert(leap_effective_gps_day(t[first]) + 2 <= leap_effective_gps_day(t[k]));
        }
    }
    assert forall|k: int| second <= k < 18 implies leap_effective_gps_day(#[trigger] t[k]) > later by {
        if k > second {
            assert(leap_effective_gps_day(t[second]) + 2 <= leap_effective_gps_day(t[k]));
        }
    }
    lemma_leading_run_last(t, effective_by_day(earlier), first);
    lemma_leading_run_last(t, effective_by_day(later), second);
    if second < first {
        assert(leap_effective_gps_day(t[second]) <= earlier);
    }
    if first > 0 {
        lemma_table_entry(first - 1);
    }
    if second > 0 {
        lemma_table_entry(second - 1);
    }
}


/// GPS day from which the new offset of the `k`-th Bulletin C leap second
/// applies: the first day of the month after its insertion.
pub open spec fn bulletin_c_effective_gps_day(k: int) -> int {
    let (year, month) = bulletin_c_insertions()[k];
    let effective = first_of_next_month(year, month);
    spec_days_since_gps_epoch(effective.0, effective.1, effective.2)
}

/// Number of the first `n` Bulletin C leap seconds whose new offset applies
/// on GPS day `day`.
pub open spec fn bulletin_c_count(day: int, n: int) -> int
    decreases n,
{
    if n <= 0 {
        0
    } else {
        bulletin_c_count(day, n - 1) + if bulletin_c_effective_gps_day(n - 1) <= day {
            1int
        } else {
            0int
        }
    }
}

proof fn lemma_bulletin_c_count_prefix(day: int, n: int, count: int)
    requires
        0 <= n <= 18,
        0 <= count <= 18,
        forall|k: int| 0 <= k < 18 ==> (#[trigger] bulletin_c_effective_gps_day(k) <= day <==> k
            < count),
    ensures
        bulletin_c_count(day, n) == if n < count {
            n
        } else {
            count
        },
    decreases n,
{
    if n > 0 {
        lemma_bulletin_c_count_prefix(day, n - 1, count);
        assert(bulletin_c_effective_gps_day(n - 1) <= day <==> n - 1 < count);
    }
}

/// GPS minus UTC on any day counts the Bulletin C leap seconds in effect:
/// it is the number of announced leap seconds whose new offset applies from
/// the first day of a month on or before that day.
pub proof fn lemma_offset_counts_bulletin_c(day: int)
    ensures
        spec_gps_utc_offset_at_day(day) == bulletin_c_count(day, 18),
{
    lemma_leap_history_is_regular();
    lemma_leap_history_follows_bulletin_c();
    let t = spec_gps_utc_leap_seconds();
    assert forall|k: int| 0 <= k < 18 implies leap_effective_gps_day(#[trigger] t[k])
        == bulletin_c_effective_gps_day(k) by {
        let (year, month) = bulletin_c_insertions()[k];
        assert((t[k].effective_year as int, t[k].effective_month as int, t[k].effective_day as int)
            == first_of_next_month(year, month));
    }
    let count = lemma_effective_count(day, 0);
    assert forall|k: int| count <= k < 18 implies leap_effective_gps_day(#[trigger] t[k]) > day by {
        if k > count {
            assert(leap_effective_gps_day(t[count]) + 2 <= leap_effective_gps_day(t[k]));
        }
    }
    assert forall|k: int| 0 <= k < 18 implies (#[trigger] bulletin_c_effective_gps_day(k) <= day
        <==> k < count) by {
        assert(leap_effective_gps_day(t[k]) == bulletin_c_effective_gps_day(k));
    }
    lemma_bulletin_c_count_prefix(day, 18, count);
    lemma_leading_run_last(t, effective_by_day(day), count);
    assert(spec_gps_utc_offset_at_day(day) == count) by {
        if count > 0 {
            lemma_table_entry(count - 1);
        }
    }
}


proof fn lemma_first_match_found(table: Seq<LeapSecond>, pred: spec_fn(LeapSecond) -> bool, k: int)
    requires
        0 <= k < table.len(),
        pred(table[k]),
    ensures
        first_match(table, pred) is Some,
    decreases table.len(),
{
    if !pred(table[0]) {
        assert(table.drop_first()[k - 1] == table[k]);
        lemma_first_match_found(table.drop_first(), pred, k - 1);
    }
}

/// A UTC label naming second 60 is valid exactly in the last minute of the
/// last day of a month in which IERS Bulletin C announced a leap second.
pub proof fn lemma_second_sixty_only_on_bulletin_c_days(label: CalendarLabel)
    requires
        is_valid_date(label.year as int, label.month as int, label.day as int),
        label.second == 60,
    ensures
        is_valid_utc_label(label) <==> {
            &&& label.hour == 23
            &&& label.minute == 59
            &&& label.day == spec_days_in_month(label.year as int, label.month as int)
            &&& exists|k: int|
                0 <= k < 18 && #[trigger] bulletin_c_insertions()[k] == (
                    label.year as int,
                    label.month as int,
                )
        },
{
    lemma_leap_history_follows_bulletin_c();
    let t = spec_gps_utc_leap_seconds();
    let pred = inserted_on(label.year as int, label.month as int, label.day as int);
    if is_valid_utc_label(label) {
        lemma_first_match_in_table(t, pred);
        let leap = spec_leap_second_for_insertion(label).unwrap();
        let k = choose|k: int| 0 <= k < t.len() && t[k] == leap;
        assert(pred(t[k]));
        assert(bulletin_c_insertions()[k] == (label.year as int, label.month as int));
    }
    if label.hour == 23 && label.minute == 59 && label.day == spec_days_in_month(
        label.year as int,
        label.month as int,
    ) && exists|k: int|
        0 <= k < 18 && #[trigger] bulletin_c_insertions()[k] == (label.year as int, label.month as int) {
        let k = choose|k: int|
            0 <= k < 18 && #[trigger] bulletin_c_insertions()[k] == (
                label.year as int,
                label.month as int,
            );
        assert(t[k].insertion_year == label.year && t[k].insertion_month == label.month);
        assert(pred(t[k]));
        lemma_first_match_found(t, pred, k);
    }
}

} // verus!
