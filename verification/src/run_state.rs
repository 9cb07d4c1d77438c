//! Outcome tracking of finite runs over a sample timeline.
use vstd::prelude::*;

use crate::config::MotionMode;
use crate::error::Error;
use crate::rational::Rational;
use crate::timeline::{first_frame_fits, spec_initial_state, state_exhausted, SampleTimeline};

verus! {

/// Outcome of the most recent finite run invocation.
#[derive(Clone, Copy, Debug, PartialEq, Eq, Structural)]
pub enum FiniteRunState {
    /// The initialized timeline has not completed an invocation.
    Ready,
    /// An invocation returned before successful timeline exhaustion.
    Interrupted,
    /// An invocation successfully exhausted the finite timeline.
    Completed,
    /// Direct output failed and cannot safely continue on the same stream.
    OutputFailed,
}

impl Default for FiniteRunState {
    /// A freshly initialized run.
    fn default() -> (state: Self)
        ensures
            state == FiniteRunState::Ready,
    {
        FiniteRunState::Ready
    }
}

/// Starts or resumes one finite run invocation without replaying errors.
///
/// A completed run restarts its exhausted timeline at the given epoch; an
/// interrupted run resumes unless its timeline is already exhausted; a run
/// whose output failed cannot continue. On success the run is marked
/// interrupted until it completes; on an error nothing changes.
pub fn begin_finite_run(
    state: &mut FiniteRunState,
    timeline: &mut SampleTimeline,
    start_week: i32,
    start_seconds: Rational,
) -> (result: Result<(), Error>)
    requires
        start_seconds.denominator > 0,
    ensures
        *old(state) == FiniteRunState::OutputFailed ==> (result matches Err(
            Error::FiniteRunOutputFailed,
        )),
        *old(state) == FiniteRunState::Interrupted && state_exhausted(old(timeline)@) ==> (result matches Err(
            Error::FiniteRunInterruptedAtEnd,
        )),
        *old(state) == FiniteRunState::Interrupted && !state_exhausted(old(timeline)@) ==> result is Ok
            && final(timeline)@ == old(timeline)@,
        *old(state) == FiniteRunState::Ready ==> result is Ok && final(timeline)@ == old(timeline)@,
        *old(state) == FiniteRunState::Completed && !state_exhausted(old(timeline)@) ==> (result matches Err(
            Error::ParsingError(m),
        ) && m@ == "completed finite timeline is not exhausted"@),
        *old(state) == FiniteRunState::Completed && state_exhausted(old(timeline)@) ==> (result is Ok
            <==> first_frame_fits(start_week, start_seconds, old(timeline)@.sample_frequency_hz as int)),
        *old(state) == FiniteRunState::Completed && result is Ok ==> final(timeline)@ == spec_initial_state(
            start_week,
            start_seconds,
            old(timeline)@.sample_frequency_hz,
            old(timeline)@.step,
            old(timeline)@.total_samples,
        ),
        result is Ok ==> *final(state) == FiniteRunState::Interrupted,
        result is Err ==> *final(state) == *old(state) && final(timeline)@ == old(timeline)@,
{
    match *state {
        FiniteRunState::Completed => {
            let restarted = timeline.restarted_if_exhausted(start_week, start_seconds)?;
            match restarted {
                Some(fresh) => {
                    *timeline = fresh;
                },
                None => {
                    return Err(Error::msg("completed finite timeline is not exhausted"));
                },
            }
        },
        FiniteRunState::Interrupted => {
            if timeline.is_exhausted() {
                return Err(Error::FiniteRunInterruptedAtEnd);
            }
        },
        FiniteRunState::OutputFailed => {
            return Err(Error::FiniteRunOutputFailed);
        },
        FiniteRunState::Ready => {},
    }
    *state = FiniteRunState::Interrupted;
    Ok(())
}

/// Records the outcome of a finite run: completed when its output and
/// finalization succeeded, output-failed otherwise.
pub fn finish_finite_run(state: &mut FiniteRunState, result: Result<(), Error>) -> (returned: Result<(), Error>)
    ensures
        result is Ok ==> *final(state) == FiniteRunState::Completed,
        result is Err ==> *final(state) == FiniteRunState::OutputFailed,
        returned == result,
{
    if result.is_ok() {
        *state = FiniteRunState::Completed;
    } else {
        *state = FiniteRunState::OutputFailed;
    }
    result
}

/// Records the successful exhaustion of a streamed finite run.
pub fn complete_finite_run(state: &mut FiniteRunState)
    ensures
        *final(state) == FiniteRunState::Completed,
{
    *state = FiniteRunState::Completed;
}

/// Checks that a direct-file finite run may start: the generator is
/// initialized, not in runtime-control mode, and has an output writer.
pub fn check_direct_run(initialized: bool, mode: MotionMode, has_writer: bool) -> (checked: Result<(), Error>)
    ensures
        !initialized ==> (checked matches Err(Error::NotInitialized)),
        initialized && mode == MotionMode::UserControl ==> (checked matches Err(Error::ParsingError(m))
            && m@ == "run_simulation is not supported in runtime motion control mode"@),
        initialized && mode != MotionMode::UserControl && !has_writer ==> (checked matches Err(
            Error::IQWriterNotInitialized,
        )),
        initialized && mode != MotionMode::UserControl && has_writer ==> checked is Ok,
{
    if !initialized {
        return Err(Error::NotInitialized);
    }
    if mode == MotionMode::UserControl {
        return Err(Error::msg("run_simulation is not supported in runtime motion control mode"));
    }
    if !has_writer {
        return Err(Error::IQWriterNotInitialized);
    }
    Ok(())
}

/// Checks that a streamed finite run may start: the generator is
/// initialized and not in runtime-control mode.
pub fn check_streaming_run(initialized: bool, mode: MotionMode) -> (checked: Result<(), Error>)
    ensures
        !initialized ==> (checked matches Err(Error::NotInitialized)),
        initialized && mode == MotionMode::UserControl ==> (checked matches Err(Error::ParsingError(m))
            && m@ == "run_streaming is not supported in runtime motion control mode"@),
        initialized && mode != MotionMode::UserControl ==> checked is Ok,
{
    if !initialized {
        return Err(Error::NotInitialized);
    }
    if mode == MotionMode::UserControl {
        return Err(Error::msg("run_streaming is not supported in runtime motion control mode"));
    }
    Ok(())
}

/// Checks that a runtime-controlled stream may start: the generator is
/// initialized, in runtime-control mode, and has a motion control.
pub fn check_user_control_run(initialized: bool, mode: MotionMode, has_control: bool) -> (checked:
    Result<(), Error>)
    ensures
        !initialized ==> (checked matches Err(Error::NotInitialized)),
        initialized && mode != MotionMode::UserControl ==> (checked matches Err(Error::ParsingError(m))
            && m@ == "generator is not in runtime motion control mode"@),
        initialized && mode == MotionMode::UserControl && !has_control ==> (checked matches Err(
            Error::ParsingError(m),
        ) && m@ == "runtime motion control not configured"@),
        initialized && mode == MotionMode::UserControl && has_control ==> checked is Ok,
{
    if !initialized {
        return Err(Error::NotInitialized);
    }
    if mode != MotionMode::UserControl {
        return Err(Error::msg("generator is not in runtime motion control mode"));
    }
    if !has_control {
        return Err(Error::msg("runtime motion control not configured"));
    }
    Ok(())
}

/// The positions a dynamic block endpoint interpolates between: those of
/// update steps `step_index - 1` and `step_index`.
pub fn interpolation_indices(step_index: usize, position_count: usize) -> (indices: Result<(usize, usize), Error>)
    ensures
        1 <= step_index < position_count ==> indices == Ok::<(usize, usize), Error>(
            ((step_index - 1) as usize, step_index),
        ),
        !(1 <= step_index < position_count) ==> (indices matches Err(Error::WrongPositions)),
{
    if step_index == 0 || step_index >= position_count {
        return Err(Error::WrongPositions);
    }
    Ok((step_index - 1, step_index))
}

} // verus!
