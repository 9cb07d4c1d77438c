//! Requested start instants: RFC 3339 timestamps parsed by the `jiff` crate,
//! and the UTC calendar fields of an instant.
use vstd::prelude::*;

use crate::calendar::{civil_from_days, lemma_days_to_civil_round_trip, lemma_year_of_bounded_days, spec_civil_from_days};
use crate::error::Error;
use crate::gps_time::{is_ordinary_label, CalendarLabel};
use vstd::string::StringSliceAdditionalSpecFns;

verus! {

/// The instant an RFC 3339 timestamp with an explicit offset names, as whole
/// seconds and the signed nanoseconds beyond them from 1970-01-01T00:00:00Z
/// (the nanoseconds carry the sign of the seconds); `None` where the timestamp
/// parser of `jiff` refuses the text.
pub uninterp spec fn rfc3339_instant(text: Seq<char>) -> Option<(int, int)>;

/// Whether whole seconds and nanoseconds lie in the range of a `jiff`
/// timestamp.
pub open spec fn timestamp_in_range(seconds: int, nanosecond: int) -> bool {
    &&& -377_705_023_201 <= seconds <= 253_402_207_200
    &&& -999_999_999 <= nanosecond <= 999_999_999
}

/// Parses `text` with the `FromStr` parser of `jiff::Timestamp` and reads the
/// instant's `as_second` and `subsec_nanosecond`, handing back a failure as
/// the error's message.
///
/// The result is the one named by `rfc3339_instant`; the parsed values lie in
/// the range `jiff` keeps every timestamp in. The message of a failure is
/// left unsaid.
#[verifier::external_body]
fn parse_timestamp(text: &str) -> (parsed: Result<(i64, i32), String>)
    ensures
        parsed is Err <==> rfc3339_instant(text@) is None,
        parsed matches Ok((seconds, nanosecond)) ==> rfc3339_instant(text@) == Some(
            (seconds as int, nanosecond as int),
        ) && timestamp_in_range(seconds as int, nanosecond as int),
{
    match text.parse::<jiff::Timestamp>() {
        Ok(timestamp) => Ok((timestamp.as_second(), timestamp.subsec_nanosecond())),
        Err(error) => Err(format!("{error}")),
    }
}

/// The whole second, counted from 1970-01-01T00:00:00Z, that contains an
/// instant given as whole seconds and signed nanoseconds.
pub open spec fn utc_whole_second(seconds: int, nanosecond: int) -> int {
    if nanosecond < 0 {
        seconds - 1
    } else {
        seconds
    }
}

/// The nanoseconds of an instant within its UTC second.
pub open spec fn utc_subsecond(nanosecond: int) -> int {
    if nanosecond < 0 {
        nanosecond + 1_000_000_000
    } else {
        nanosecond
    }
}

/// The UTC civil fields of an instant: the calendar label of the second that
/// contains it, and the nanoseconds within that second.
pub open spec fn spec_utc_fields(seconds: int, nanosecond: int) -> (CalendarLabel, i32) {
    let whole = utc_whole_second(seconds, nanosecond);
    let date = spec_civil_from_days(whole / 86400);
    let second_of_day = whole % 86400;
    (
        CalendarLabel {
            year: date.0 as i32,
            month: date.1 as i32,
            day: date.2 as i32,
            hour: (second_of_day / 3600) as i32,
            minute: (second_of_day % 3600 / 60) as i32,
            second: (second_of_day % 60) as i32,
        },
        utc_subsecond(nanosecond) as i32,
    )
}

/// Converts an instant, given as whole seconds and signed nanoseconds from
/// 1970-01-01T00:00:00Z, to its UTC civil fields: the calendar label with its
/// whole second, and the nanoseconds within that second.
pub fn utc_label_from_instant(seconds: i64, nanosecond: i32) -> (fields: (CalendarLabel, i32))
    requires
        timestamp_in_range(seconds as int, nanosecond as int),
    ensures
        fields == spec_utc_fields(seconds as int, nanosecond as int),
        is_ordinary_label(fields.0),
        0 <= fields.1 <= 999_999_999,
{
    let (whole, subsecond) = if nanosecond < 0 {
        (seconds - 1, nanosecond + 1_000_000_000)
    } else {
        (seconds, nanosecond)
    };
    let q = whole / 86400;
    let r = whole % 86400;
    let (days, second_of_day) = if r < 0 {
        (q - 1, r + 86400)
    } else {
        (q, r)
    };
    proof {
        vstd::arithmetic::div_mod::lemma_fundamental_div_mod_converse(
            whole as int,
            86400,
            days as int,
            second_of_day as int,
        );
        lemma_year_of_bounded_days(days as int);
        lemma_days_to_civil_round_trip(days as int);
    }
    let date = civil_from_days(days);
    let (year, month, day) = match date {
        Ok(d) => d,
        Err(_) => {
            assert(false);
            (0, 0, 0)
        },
    };
    let label = CalendarLabel {
        year,
        month,
        day,
        hour: (second_of_day / 3600) as i32,
        minute: (second_of_day % 3600 / 60) as i32,
        second: (second_of_day % 60) as i32,
    };
    (label, subsecond)
}

/// An ASCII byte in lower case.
pub open spec fn ascii_lower(byte: u8) -> u8 {
    if 65 <= byte <= 90 {
        (byte + 32) as u8
    } else {
        byte
    }
}

/// Lowers one ASCII byte.
fn lower_byte(byte: u8) -> (lowered: u8)
    ensures
        lowered == ascii_lower(byte),
{
    if 65 <= byte && byte <= 90 {
        byte + 32
    } else {
        byte
    }
}

/// Whether a requested start time is the keyword `now`, in any letter case.
pub fn names_current_time(text: &str) -> (now: bool)
    ensures
        now == ({
            let bytes = text.spec_bytes();
            bytes.len() == 3 && ascii_lower(bytes[0]) == 110 && ascii_lower(bytes[1]) == 111
                && ascii_lower(bytes[2]) == 119
        }),
{
    let bytes = text.as_bytes();
    if bytes.len() != 3 {
        return false;
    }
    lower_byte(bytes[0]) == 110 && lower_byte(bytes[1]) == 111 && lower_byte(bytes[2]) == 119
}

/// Parses a requested start instant (an RFC 3339 timestamp with an explicit
/// offset) into its UTC civil fields: the calendar label with its whole
/// second, and the nanoseconds within that second.
///
/// Fails with a time error exactly where the timestamp parser refuses the
/// text.
pub fn parse_start_time(text: &str) -> (fields: Result<(CalendarLabel, i32), Error>)
    ensures
        fields is Ok <==> rfc3339_instant(text@) is Some,
        fields matches Ok(f) ==> f == spec_utc_fields(
            rfc3339_instant(text@).unwrap().0,
            rfc3339_instant(text@).unwrap().1,
        ),
        fields matches Ok(f) ==> is_ordinary_label(f.0) && 0 <= f.1 <= 999_999_999,
        fields is Err ==> (fields matches Err(Error::TimeParseError(_))),
{
    match parse_timestamp(text) {
        Ok((seconds, nanosecond)) => Ok(utc_label_from_instant(seconds, nanosecond)),
        Err(message) => Err(Error::TimeParseError(message)),
    }
}

} // verus!
