//! Validation and resolution of generator settings.
use vstd::prelude::*;

use crate::calendar::trunc_div;
use crate::error::Error;
use crate::packing::DataFormat;

verus! {

/// How the receiver position changes during a simulation.
#[derive(Clone, Copy, Debug, PartialEq, Eq, Structural)]
pub enum MotionMode {
    /// The receiver stays at a fixed position.
    Static,
    /// The receiver follows a predefined trajectory.
    Dynamic,
    /// The receiver position is controlled at runtime.
    UserControl,
}

/// Applies a requested I/Q bit depth: 1, 8 or 16 select a format, no request
/// keeps the current one, and any other depth is rejected.
pub fn requested_data_format(current: Option<DataFormat>, requested: Option<usize>) -> (format: Result<
    Option<DataFormat>,
    Error,
>)
    ensures
        requested is None ==> format == Ok::<Option<DataFormat>, Error>(current),
        requested == Some(1usize) ==> format == Ok::<Option<DataFormat>, Error>(Some(DataFormat::Bits1)),
        requested == Some(8usize) ==> format == Ok::<Option<DataFormat>, Error>(Some(DataFormat::Bits8)),
        requested == Some(16usize) ==> format == Ok::<Option<DataFormat>, Error>(
            Some(DataFormat::Bits16),
        ),
        (requested matches Some(bits) && bits != 1 && bits != 8 && bits != 16) ==> (format matches Err(
            Error::InvalidDataFormat,
        )),
{
    match requested {
        None => Ok(current),
        Some(bits) => match DataFormat::from_bits(bits) {
            Some(format) => Ok(Some(format)),
            None => Err(Error::InvalidDataFormat),
        },
    }
}

/// Applies a requested sampling frequency in Hz: at least 1 MHz is accepted,
/// no request keeps the current one, and a lower frequency is rejected.
pub fn requested_frequency(current: Option<usize>, requested: Option<usize>) -> (frequency: Result<
    Option<usize>,
    Error,
>)
    ensures
        requested is None ==> frequency == Ok::<Option<usize>, Error>(current),
        (requested matches Some(hz) && hz >= 1_000_000) ==> frequency == Ok::<Option<usize>, Error>(
            requested,
        ),
        (requested matches Some(hz) && hz < 1_000_000) ==> (frequency matches Err(
            Error::InvalidSamplingFrequency,
        )),
{
    match requested {
        Some(hz) => {
            if hz >= 1_000_000 {
                Ok(Some(hz))
            } else {
                Err(Error::InvalidSamplingFrequency)
            }
        },
        None => Ok(current),
    }
}

/// A scheduled leap second: GPS week, day of the week (1 = Sunday to 7) and
/// the leap-second count after it.
#[derive(Clone, Copy, Debug, PartialEq, Eq, Structural)]
pub struct LeapSchedule {
    /// GPS week of the scheduled leap second.
    pub week: i32,
    /// Day number, 1 (Sunday) to 7 (Saturday).
    pub day: i32,
    /// Leap-second count after the event.
    pub delta: i32,
}

/// Validates leap-second parameters `[week, day, delta]`; extra values are
/// ignored.
///
/// Fewer than three values, a day outside 1..=7, a negative week and a delta
/// outside -128..=127 are rejected, checked in that order.
pub fn leap_schedule(values: &[i32]) -> (schedule: Result<LeapSchedule, Error>)
    ensures
        values@.len() < 3 ==> (schedule matches Err(Error::InvalidLeapSecondParameters)),
        values@.len() >= 3 && !(1 <= values@[1] <= 7) ==> (schedule matches Err(Error::InvalidGpsDay)),
        values@.len() >= 3 && 1 <= values@[1] <= 7 && values@[0] < 0 ==> (schedule matches Err(
            Error::InvalidGpsWeek,
        )),
        values@.len() >= 3 && 1 <= values@[1] <= 7 && values@[0] >= 0 && !(-128 <= values@[2] <= 127)
            ==> (schedule matches Err(Error::InvalidDeltaLeapSecond)),
        values@.len() >= 3 && 1 <= values@[1] <= 7 && values@[0] >= 0 && -128 <= values@[2] <= 127
            ==> schedule == Ok::<LeapSchedule, Error>(
            LeapSchedule { week: values@[0], day: values@[1], delta: values@[2] },
        ),
{
    if values.len() < 3 {
        return Err(Error::InvalidLeapSecondParameters);
    }
    let week = values[0];
    let day = values[1];
    let delta = values[2];
    if !(1 <= day && day <= 7) {
        return Err(Error::InvalidGpsDay);
    }
    if week < 0 {
        return Err(Error::InvalidGpsWeek);
    }
    if !(-128 <= delta && delta <= 127) {
        return Err(Error::InvalidDeltaLeapSecond);
    }
    Ok(LeapSchedule { week, day, delta })
}

/// The motion mode a generator runs in: a single untimed position outside
/// runtime control runs static, no positions at all is rejected, otherwise
/// the requested mode (static by default) is kept. Without configured
/// positions, the default single position runs static.
pub fn resolved_mode(requested: Option<MotionMode>, position_count: Option<usize>, timestamped: bool) -> (mode:
    Result<MotionMode, Error>)
    ensures
        position_count is None ==> mode == Ok::<MotionMode, Error>(MotionMode::Static),
        position_count == Some(0usize) ==> (mode matches Err(Error::WrongPositions)),
        position_count == Some(1usize) && !timestamped && requested != Some(MotionMode::UserControl)
            ==> mode == Ok::<MotionMode, Error>(MotionMode::Static),
        (position_count matches Some(n) && n > 0 && !(n == 1 && !timestamped && requested != Some(
            MotionMode::UserControl,
        ))) ==> mode == Ok::<MotionMode, Error>(
            match requested {
                Some(m) => m,
                None => MotionMode::Static,
            },
        ),
{
    match position_count {
        None => Ok(MotionMode::Static),
        Some(count) => {
            let user_control = match requested {
                Some(MotionMode::UserControl) => true,
                _ => false,
            };
            if count == 1 && !timestamped && !user_control {
                Ok(MotionMode::Static)
            } else if count == 0 {
                Err(Error::WrongPositions)
            } else {
                match requested {
                    Some(m) => Ok(m),
                    None => Ok(MotionMode::Static),
                }
            }
        },
    }
}

/// The duration and interval limit of a generator's timeline: a static run
/// without a duration and every dynamic run are limited to the planned step
/// count; runtime control runs without a duration.
pub fn timeline_limits<D>(mode: MotionMode, duration: Option<D>, step_count: usize) -> (limits: (
    Option<D>,
    Option<usize>,
))
    ensures
        mode == MotionMode::UserControl ==> limits.0 is None && limits.1 is None,
        mode == MotionMode::Static ==> limits.0 == duration && limits.1 == if duration is None {
            Some(step_count)
        } else {
            None
        },
        mode == MotionMode::Dynamic ==> limits.0 == duration && limits.1 == Some(step_count),
{
    match mode {
        MotionMode::Static => {
            let limit = if duration.is_none() {
                Some(step_count)
            } else {
                None
            };
            (duration, limit)
        },
        MotionMode::Dynamic => (duration, Some(step_count)),
        MotionMode::UserControl => (None, None),
    }
}

/// Whole seconds of the week truncated to a two-hour boundary (toward zero),
/// as the time override applies to the scenario start.
pub fn two_hour_boundary(second_of_week: i32) -> (boundary: i32)
    ensures
        boundary == trunc_div(second_of_week as int, 7200) * 7200,
        second_of_week >= 0 ==> boundary <= second_of_week < boundary + 7200,
{
    let blocks = second_of_week / 7200;
    assert(blocks == trunc_div(second_of_week as int, 7200));
    blocks * 7200
}

/// Whether broadcast ionosphere/UTC parameters are valid: both Klobuchar
/// records and the UTC record are present and the UTC reference time
/// `utc_reference_time` (seconds of the week) is a multiple of 4096 s.
pub fn iono_utc_valid(has_alpha: bool, has_beta: bool, utc_reference_time: Option<i32>) -> (valid: bool)
    ensures
        valid == (has_alpha && has_beta && (utc_reference_time matches Some(tot) && tot % 4096 == 0)),
{
    match utc_reference_time {
        Some(tot) => has_alpha && has_beta && tot % 4096 == 0,
        None => false,
    }
}

} // verus!
