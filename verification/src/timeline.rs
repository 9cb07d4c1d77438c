//! Authoritative emitted-sample timeline.
//!
//! The timeline cuts the emitted complex samples into blocks at configured
//! update-step boundaries, at the finite sample target and at exact 30-second
//! LNAV frame deadlines.
use vstd::prelude::*;

use crate::error::Error;
use crate::rational::{divide_ceiling, spec_ceiling_product, spec_rounded_product, Rational};
use crate::sizing::{IqBlockSizing, MAX_INTERLEAVED_BYTES};

verus! {

/// Duration of one complete LNAV frame in seconds.
pub const FRAME_SECONDS: u64 = 30;

/// An exact LNAV frame deadline: full GPS week and whole second of the week.
#[derive(Clone, Copy, Debug, PartialEq, Eq, Structural)]
pub struct FrameTime {
    /// Full GPS week number.
    pub week: i32,
    /// Whole seconds within the week.
    pub second: u64,
}

/// The frame deadline 30 seconds after `time`, rolling over into the next
/// week.
pub open spec fn spec_next_frame_time(time: FrameTime) -> FrameTime {
    if time.second + 30 >= 604800 {
        FrameTime { week: (time.week + 1) as i32, second: (time.second + 30 - 604800) as u64 }
    } else {
        FrameTime { week: time.week, second: (time.second + 30) as u64 }
    }
}

/// Advances an exact frame deadline across GPS-week rollover.
pub fn next_frame_time(time: &FrameTime) -> (next: FrameTime)
    requires
        time.second < 604800,
        time.week < i32::MAX,
    ensures
        next == spec_next_frame_time(*time),
        next.second < 604800,
        next.week * 604800 + next.second == time.week * 604800 + time.second + 30,
{
    let seconds = time.second + FRAME_SECONDS;
    if seconds >= 604_800 {
        FrameTime { week: time.week + 1, second: seconds - 604_800 }
    } else {
        FrameTime { week: time.week, second: seconds }
    }
}

/// Whole seconds of the first frame deadline strictly after `start` seconds of
/// the week: the next multiple of 30.
pub open spec fn spec_first_frame_seconds(start: Rational) -> int {
    (start.numerator as int / (start.denominator * 30) + 1) * 30
}

/// Sample offset of the first frame deadline: the samples in the time from the
/// start to the deadline, rounded up.
pub open spec fn spec_first_frame_sample(start: Rational, sample_frequency_hz: int) -> int {
    ((spec_first_frame_seconds(start) * start.denominator - start.numerator) * sample_frequency_hz
        + start.denominator - 1) / start.denominator as int
}

/// The first frame deadline after a start epoch given as week and rational
/// seconds of the week.
pub open spec fn spec_first_frame_time(start_week: i32, start: Rational) -> FrameTime {
    if spec_first_frame_seconds(start) >= 604800 {
        FrameTime { week: (start_week + 1) as i32, second: 0 }
    } else {
        FrameTime { week: start_week, second: spec_first_frame_seconds(start) as u64 }
    }
}

/// Whether every intermediate of the first-frame computation fits its
/// machine type, and the week can roll over when the deadline is in the next
/// week.
pub open spec fn first_frame_fits(start_week: i32, start: Rational, sample_frequency_hz: int) -> bool {
    let seconds = spec_first_frame_seconds(start);
    &&& start.denominator * 30 <= u128::MAX
    &&& seconds <= u128::MAX
    &&& seconds * start.denominator <= u128::MAX
    &&& (seconds * start.denominator - start.numerator) * sample_frequency_hz + start.denominator - 1
        <= u128::MAX
    &&& spec_first_frame_sample(start, sample_frequency_hz) <= u64::MAX
    &&& (seconds >= 604800 ==> start_week < i32::MAX)
}

/// The first frame deadline lies strictly after the start, and with a positive
/// sample frequency at least one sample away.
pub proof fn lemma_first_frame_after_start(start: Rational, sample_frequency_hz: int)
    requires
        start.denominator > 0,
        sample_frequency_hz >= 0,
    ensures
        spec_first_frame_seconds(start) * start.denominator > start.numerator,
        sample_frequency_hz > 0 ==> spec_first_frame_sample(start, sample_frequency_hz) >= 1,
        spec_first_frame_sample(start, sample_frequency_hz) >= 0,
{
    let n = start.numerator as int;
    let d = start.denominator as int;
    let q = n / (d * 30);
    vstd::arithmetic::div_mod::lemma_fundamental_div_mod(n, d * 30);
    assert((q + 1) * 30 * d > n) by (nonlinear_arith)
        requires
            n == (d * 30) * q + n % (d * 30),
            0 <= n % (d * 30) < d * 30,
            d > 0,
    ;
    let diff = spec_first_frame_seconds(start) * d - n;
    assert(diff * sample_frequency_hz >= 0) by (nonlinear_arith)
        requires diff > 0, sample_frequency_hz >= 0;
    if sample_frequency_hz > 0 {
        assert(diff * sample_frequency_hz >= 1) by (nonlinear_arith)
            requires diff >= 1, sample_frequency_hz >= 1;
        vstd::arithmetic::div_mod::lemma_div_is_ordered(d, diff * sample_frequency_hz + d - 1, d);
    }
    vstd::arithmetic::div_mod::lemma_div_pos_is_pos(diff * sample_frequency_hz + d - 1, d);
}

/// Finds the first exact LNAV frame deadline after a timeline start epoch.
pub fn first_frame_deadline(start_week: i32, start_seconds: Rational, sample_frequency_hz: u64) -> (deadline: Result<(u64, FrameTime), Error>)
    requires
        start_seconds.denominator > 0,
    ensures
        first_frame_fits(start_week, start_seconds, sample_frequency_hz as int) ==> deadline
            == Ok::<(u64, FrameTime), Error>(
            (
                spec_first_frame_sample(start_seconds, sample_frequency_hz as int) as u64,
                spec_first_frame_time(start_week, start_seconds),
            ),
        ),
        !first_frame_fits(start_week, start_seconds, sample_frequency_hz as int) ==> (deadline matches Err(
            Error::UnsupportedWorkload { .. },
        )),
        deadline matches Ok((_, time)) ==> time.second < 604800,
{
    proof {
        lemma_first_frame_after_start(start_seconds, sample_frequency_hz as int);
    }
    let frame_denominator = match start_seconds.denominator.checked_mul(FRAME_SECONDS as u128) {
        Some(value) => value,
        None => {
            return Err(Error::unsupported_workload("GPS frame sample calculation overflow"));
        },
    };
    assert(frame_denominator == start_seconds.denominator * 30);
    assert(frame_denominator >= 30);
    let whole_frames = start_seconds.numerator / frame_denominator;
    assert(whole_frames <= start_seconds.numerator / 30) by {
        vstd::arithmetic::div_mod::lemma_div_is_ordered_by_denominator(
            start_seconds.numerator as int,
            30,
            frame_denominator as int,
        );
    }
    let next_frame_seconds = match (whole_frames + 1).checked_mul(FRAME_SECONDS as u128) {
        Some(value) => value,
        None => {
            return Err(Error::unsupported_workload("GPS frame sample calculation overflow"));
        },
    };
    assert(next_frame_seconds == spec_first_frame_seconds(start_seconds));
    let scaled = match next_frame_seconds.checked_mul(start_seconds.denominator) {
        Some(value) => value,
        None => {
            return Err(Error::unsupported_workload("GPS frame sample calculation overflow"));
        },
    };
    let difference_numerator = match scaled.checked_sub(start_seconds.numerator) {
        Some(value) => value,
        None => {
            return Err(Error::unsupported_workload("GPS frame sample calculation overflow"));
        },
    };
    let sample_numerator = match difference_numerator.checked_mul(sample_frequency_hz as u128) {
        Some(value) => value,
        None => {
            return Err(Error::unsupported_workload("GPS frame sample calculation overflow"));
        },
    };
    let next_frame_sample = divide_ceiling(sample_numerator, start_seconds.denominator)?;
    if next_frame_sample > u64::MAX as u128 {
        return Err(Error::unsupported_workload("GPS frame sample exceeds supported range"));
    }
    let next_frame_time = if next_frame_seconds >= 604_800 {
        if start_week == i32::MAX {
            return Err(Error::unsupported_workload("GPS week exceeds the supported i32 range"));
        }
        FrameTime { week: start_week + 1, second: 0 }
    } else {
        FrameTime { week: start_week, second: next_frame_seconds as u64 }
    };
    Ok((next_frame_sample as u64, next_frame_time))
}

/// One non-empty contiguous range of emitted complex samples.
#[derive(Debug)]
pub struct TimelineBlock {
    /// Complex samples emitted by this block.
    pub sample_count: usize,
    /// Configured update-step endpoint associated with this block.
    pub step_index: usize,
    /// Sample offset of the configured step's starting epoch.
    pub step_start_sample: u64,
    /// Sample offset of the full configured step's ending epoch.
    pub step_end_sample: u64,
    /// Sample offset of this block's endpoint.
    pub end_sample: u64,
    /// Exact LNAV frame deadlines reached at this block endpoint.
    pub frame_deadlines: Vec<FrameTime>,
}

/// One configured step retained while a frame deadline splits its samples.
#[derive(Clone, Copy, Debug)]
pub struct PendingStep {
    /// Sample offset of the step's starting epoch.
    pub start_sample: u64,
    /// Sample offset of the full, unclipped configured step endpoint.
    pub full_end_sample: u64,
    /// Sample offset at which this finite run stops processing the step.
    pub emitted_end_sample: u64,
}

/// The mathematical state of a timeline.
pub struct TimelineState {
    /// Integer complex-sample frequency.
    pub sample_frequency_hz: u64,
    /// Configured state-update interval in seconds.
    pub step: Rational,
    /// Finite emitted-sample target, or none for runtime control.
    pub total_samples: Option<u64>,
    /// Number of complex samples emitted so far.
    pub emitted_samples: u64,
    /// Next configured update-step index.
    pub next_step_index: u64,
    /// Configured step retained when a frame deadline splits a block.
    pub pending_step: Option<PendingStep>,
    /// Sample offset of the next exact LNAV frame deadline.
    pub next_frame_sample: u64,
    /// GPS time of the next exact LNAV frame deadline.
    pub next_frame_time: FrameTime,
}

/// Sample offset of the end of configured update step `index`: the step
/// duration times the sample frequency times `index`, rounded to the nearest
/// sample.
pub open spec fn step_boundary(state: TimelineState, index: int) -> int {
    spec_rounded_product(state.step, state.sample_frequency_hz * index)
}

/// A sample offset clipped to the finite target.
pub open spec fn clipped(state: TimelineState, sample: int) -> int {
    match state.total_samples {
        Some(total) => if sample < total { sample } else { total as int },
        None => sample,
    }
}

/// Whether every finite target sample has been emitted.
pub open spec fn state_exhausted(state: TimelineState) -> bool {
    match state.total_samples {
        Some(total) => state.emitted_samples >= total,
        None => false,
    }
}

/// The consistency of a timeline state.
pub open spec fn state_consistent(state: TimelineState) -> bool {
    &&& state.step.denominator > 0
    &&& state.step.numerator > 0
    &&& (state.total_samples matches Some(total) ==> state.emitted_samples <= total)
    &&& state.sample_frequency_hz > 0
    &&& state.emitted_samples < state.next_frame_sample
    &&& state.next_frame_time.second < 604800
    &&& match state.pending_step {
        Some(pending) => {
            &&& state.next_step_index >= 1
            &&& pending.start_sample == step_boundary(state, state.next_step_index - 1)
            &&& pending.full_end_sample == step_boundary(state, state.next_step_index as int)
            &&& pending.emitted_end_sample == clipped(state, pending.full_end_sample as int)
            &&& pending.start_sample <= state.emitted_samples < pending.emitted_end_sample
        },
        None => clipped(state, step_boundary(state, state.next_step_index as int))
            <= state.emitted_samples,
    }
}

/// Whether `value * multiplier`, rounded to the nearest unit, is computed
/// without overflow and fits a `u64`.
pub open spec fn rounded_product_fits(value: Rational, multiplier: int) -> bool {
    &&& value.numerator * multiplier + value.denominator / 2 <= u128::MAX
    &&& spec_rounded_product(value, multiplier) <= u64::MAX
}

/// The samples emitted by `limit` whole update steps, when a limit is set.
pub open spec fn spec_limited_samples(step: Rational, sample_frequency_hz: int, interval_limit: Option<usize>) -> Option<u64> {
    match interval_limit {
        Some(limit) => Some(
            spec_rounded_product(step, sample_frequency_hz * limit) as u64,
        ),
        None => None,
    }
}

/// The samples emitted for a requested duration: none for a zero duration,
/// the interval-limited count when the duration reaches the limit, and
/// otherwise the duration times the frequency rounded to the nearest sample.
pub open spec fn spec_duration_samples(
    step: Rational,
    sample_frequency_hz: int,
    duration: Option<Rational>,
    interval_limit: Option<usize>,
    duration_reaches_limit: bool,
) -> Option<u64> {
    match duration {
        None => None,
        Some(length) => Some(
            if length.numerator == 0 {
                0u64
            } else if interval_limit is Some && duration_reaches_limit {
                spec_limited_samples(step, sample_frequency_hz, interval_limit).unwrap()
            } else {
                spec_rounded_product(length, sample_frequency_hz) as u64
            },
        ),
    }
}

/// The finite emitted-sample target: the smaller of the duration and the
/// interval-limit targets that are set.
pub open spec fn spec_total_samples(
    step: Rational,
    sample_frequency_hz: int,
    duration: Option<Rational>,
    interval_limit: Option<usize>,
    duration_reaches_limit: bool,
) -> Option<u64> {
    let by_duration = spec_duration_samples(
        step,
        sample_frequency_hz,
        duration,
        interval_limit,
        duration_reaches_limit,
    );
    let by_limit = spec_limited_samples(step, sample_frequency_hz, interval_limit);
    match (by_duration, by_limit) {
        (Some(a), Some(b)) => Some(if a < b { a } else { b }),
        (Some(a), None) => Some(a),
        (None, Some(b)) => Some(b),
        (None, None) => None,
    }
}

/// Whether every computation of a new plan fits its machine type.
pub open spec fn plan_fits(
    start_week: i32,
    start_seconds: Rational,
    sample_frequency_hz: int,
    step: Rational,
    duration: Option<Rational>,
    interval_limit: Option<usize>,
    duration_reaches_limit: bool,
) -> bool {
    &&& (interval_limit matches Some(limit) ==> rounded_product_fits(
        step,
        sample_frequency_hz * limit,
    ))
    &&& (duration matches Some(length) ==> (length.numerator != 0 && !(interval_limit is Some
        && duration_reaches_limit)) ==> rounded_product_fits(length, sample_frequency_hz))
    &&& first_frame_fits(start_week, start_seconds, sample_frequency_hz)
}

/// The state of a fresh plan, before any sample is emitted.
pub open spec fn spec_initial_state(
    start_week: i32,
    start_seconds: Rational,
    sample_frequency_hz: u64,
    step: Rational,
    total_samples: Option<u64>,
) -> TimelineState {
    TimelineState {
        sample_frequency_hz,
        step,
        total_samples,
        emitted_samples: 0,
        next_step_index: 0,
        pending_step: None,
        next_frame_sample: spec_first_frame_sample(start_seconds, sample_frequency_hz as int) as u64,
        next_frame_time: spec_first_frame_time(start_week, start_seconds),
    }
}

/// Authoritative rational plan and integer emitted-sample cursor.
#[derive(Clone, Copy, Debug)]
pub struct SampleTimeline {
    sample_frequency_hz: u64,
    step: Rational,
    total_samples: Option<u64>,
    emitted_samples: u64,
    next_step_index: u64,
    pending_step: Option<PendingStep>,
    next_frame_sample: u64,
    next_frame_time: FrameTime,
}

impl View for SampleTimeline {
    type V = TimelineState;

    closed spec fn view(&self) -> TimelineState {
        TimelineState {
            sample_frequency_hz: self.sample_frequency_hz,
            step: self.step,
            total_samples: self.total_samples,
            emitted_samples: self.emitted_samples,
            next_step_index: self.next_step_index,
            pending_step: self.pending_step,
            next_frame_sample: self.next_frame_sample,
            next_frame_time: self.next_frame_time,
        }
    }
}

impl SampleTimeline {
    #[verifier::type_invariant]
    spec fn consistent(self) -> bool {
        state_consistent(self@)
    }

    /// Builds a timeline from an integer sample frequency, a rational update
    /// step and optional duration and interval limits.
    ///
    /// `duration_reaches_limit` tells whether the duration covers at least
    /// `interval_limit` whole steps; the limit then alone sets the target.
    pub fn new(
        start_week: i32,
        start_seconds: Rational,
        sample_frequency_hz: u64,
        step: Rational,
        duration: Option<Rational>,
        interval_limit: Option<usize>,
        duration_reaches_limit: bool,
    ) -> (timeline: Result<Self, Error>)
        requires
            start_seconds.denominator > 0,
            step.denominator > 0,
            duration matches Some(length) ==> length.denominator > 0,
        ensures
            sample_frequency_hz == 0 ==> (timeline matches Err(Error::InvalidSamplingFrequency)),
            sample_frequency_hz > 0 && step.numerator == 0 ==> (timeline matches Err(
                Error::UnsupportedWorkload { .. },
            )),
            sample_frequency_hz > 0 && step.numerator > 0 ==> (timeline is Ok <==> plan_fits(
                start_week,
                start_seconds,
                sample_frequency_hz as int,
                step,
                duration,
                interval_limit,
                duration_reaches_limit,
            )),
            timeline matches Ok(t) ==> t@ == spec_initial_state(
                start_week,
                start_seconds,
                sample_frequency_hz,
                step,
                spec_total_samples(
                    step,
                    sample_frequency_hz as int,
                    duration,
                    interval_limit,
                    duration_reaches_limit,
                ),
            ),
            timeline is Err ==> (timeline matches Err(Error::InvalidSamplingFrequency)) || (
            timeline matches Err(Error::UnsupportedWorkload { .. })),
            timeline matches Ok(t) ==> state_consistent(t@),
    {
        if sample_frequency_hz == 0 {
            return Err(Error::InvalidSamplingFrequency);
        }
        if step.numerator == 0 {
            return Err(
                Error::unsupported_workload(
                    "configured update step is below supported timeline resolution",
                ),
            );
        }
        let limited_samples = match interval_limit {
            Some(limit) => {
                assert(sample_frequency_hz * limit <= u128::MAX) by (nonlinear_arith)
                    requires sample_frequency_hz <= u64::MAX, limit <= usize::MAX;
                let multiplier = (sample_frequency_hz as u128) * (limit as u128);
                Some(step.rounded_product(multiplier)?)
            },
            None => None,
        };
        let duration_samples = match duration {
            Some(length) => {
                if length.numerator == 0 {
                    Some(0u64)
                } else if limited_samples.is_some() && duration_reaches_limit {
                    limited_samples
                } else {
                    Some(length.rounded_product(sample_frequency_hz as u128)?)
                }
            },
            None => None,
        };
        let total_samples = match (duration_samples, limited_samples) {
            (Some(by_duration), Some(by_limit)) => Some(
                if by_duration < by_limit {
                    by_duration
                } else {
                    by_limit
                },
            ),
            (Some(by_duration), None) => Some(by_duration),
            (None, Some(by_limit)) => Some(by_limit),
            (None, None) => None,
        };
        let (next_frame_sample, next_frame_time) = first_frame_deadline(
            start_week,
            start_seconds,
            sample_frequency_hz,
        )?;
        proof {
            lemma_first_frame_after_start(start_seconds, sample_frequency_hz as int);
            lemma_step_boundary_zero(
                spec_initial_state(start_week, start_seconds, sample_frequency_hz, step, total_samples),
            );
        }
        Ok(
            SampleTimeline {
                sample_frequency_hz,
                step,
                total_samples,
                emitted_samples: 0,
                next_step_index: 0,
                pending_step: None,
                next_frame_sample,
                next_frame_time,
            },
        )
    }

    /// Returns a fresh finite plan, starting at the given epoch, after this
    /// timeline has been fully emitted; `None` while samples remain.
    pub fn restarted_if_exhausted(&self, start_week: i32, start_seconds: Rational) -> (restarted: Result<Option<Self>, Error>)
        requires
            start_seconds.denominator > 0,
        ensures
            !state_exhausted(self@) ==> restarted == Ok::<Option<Self>, Error>(None),
            state_exhausted(self@) && restarted is Ok ==> restarted matches Ok(Some(_)),
            state_exhausted(self@) ==> (restarted is Ok <==> first_frame_fits(
                start_week,
                start_seconds,
                self@.sample_frequency_hz as int,
            )),
            restarted matches Ok(Some(t)) ==> t@ == spec_initial_state(
                start_week,
                start_seconds,
                self@.sample_frequency_hz,
                self@.step,
                self@.total_samples,
            ),
            restarted is Err ==> (restarted matches Err(Error::UnsupportedWorkload { .. })),
            restarted matches Ok(Some(t)) ==> state_consistent(t@),
    {
        proof {
            use_type_invariant(self);
        }
        if !self.is_exhausted() {
            return Ok(None);
        }
        let (next_frame_sample, next_frame_time) = first_frame_deadline(
            start_week,
            start_seconds,
            self.sample_frequency_hz,
        )?;
        proof {
            lemma_first_frame_after_start(start_seconds, self.sample_frequency_hz as int);
            lemma_step_boundary_zero(self@);
        }
        Ok(
            Some(
                SampleTimeline {
                    sample_frequency_hz: self.sample_frequency_hz,
                    step: self.step,
                    total_samples: self.total_samples,
                    emitted_samples: 0,
                    next_step_index: 0,
                    pending_step: None,
                    next_frame_sample,
                    next_frame_time,
                },
            ),
        )
    }

    /// Returns whether every finite target sample has been emitted.
    pub fn is_exhausted(&self) -> (exhausted: bool)
        ensures
            exhausted == state_exhausted(self@),
    {
        match self.total_samples {
            Some(total) => self.emitted_samples >= total,
            None => false,
        }
    }

    /// Returns checked dimensions for any unsplit configured update block:
    /// the step duration times the sample frequency, rounded up.
    pub fn maximum_block_sizing(&self) -> (sizing: Result<IqBlockSizing, Error>)
        ensures
            sizing matches Ok(s) ==> s@ == spec_ceiling_product(
                self@.step,
                self@.sample_frequency_hz as int,
            ),
            ({
                let c = spec_ceiling_product(self@.step, self@.sample_frequency_hz as int);
                self@.step.numerator * self@.sample_frequency_hz + self@.step.denominator - 1
                    <= u128::MAX && 4 * c <= MAX_INTERLEAVED_BYTES
            }) <==> sizing is Ok,
            sizing is Err ==> (sizing matches Err(Error::UnsupportedWorkload { .. })),
    {
        proof {
            use_type_invariant(self);
        }
        let samples = self.step.ceiling_product(self.sample_frequency_hz as u128)?;
        if samples > usize::MAX as u64 {
            return Err(Error::unsupported_workload("I/Q block size exceeds supported range"));
        }
        IqBlockSizing::new(samples as usize)
    }

    /// Advances to the next duration-, step-, or frame-bounded sample block.
    ///
    /// The block starts at the first sample not yet emitted and ends at the
    /// earliest of the end of the update step that contains that sample, the
    /// finite target and the next frame deadline. On an error the timeline
    /// stays at its last consistent position.
    pub fn next_block(&mut self) -> (block: Result<Option<TimelineBlock>, Error>)
        ensures
            state_exhausted(old(self)@) ==> (block matches Ok(None) && final(self)@ == old(self)@),
            block matches Ok(None) ==> state_exhausted(old(self)@),
            block matches Ok(Some(b)) ==> block_follows(old(self)@, final(self)@, b),
            !state_exhausted(old(self)@) ==> (block is Ok <==> next_block_fits(old(self)@)),
            block is Err ==> (block matches Err(Error::UnsupportedWorkload { .. })),
            block is Err ==> final(self)@ == old(self)@,
            state_consistent(final(self)@),
    {
        proof {
            use_type_invariant(&*self);
        }
        if self.is_exhausted() {
            return Ok(None);
        }
        proof {
            if self.pending_step is None {
                lemma_step_target_exists(self@);
            }
        }
        let ghost old_state = self@;
        let (pending_step, step_number) = match self.pending_step {
            Some(step) => (step, self.next_step_index),
            None => {
                let mut index = self.next_step_index;
                let mut found = PendingStep { start_sample: 0, full_end_sample: 0, emitted_end_sample: 0 };
                loop
                    invariant_except_break
                        self@ == old_state,
                        state_consistent(old_state),
                        !state_exhausted(old_state),
                        old_state.pending_step is None,
                        old_state.next_step_index <= index,
                        clipped(old_state, step_boundary(old_state, index as int))
                            <= old_state.emitted_samples,
                        is_step_target(old_state, step_target(old_state)),
                        forall|k: int|
                            old_state.next_step_index <= k <= index ==> !#[trigger] reaches_past(
                                old_state,
                                k,
                            ),
                        forall|k: int|
                            old_state.next_step_index <= k < index ==> #[trigger] step_fits(
                                old_state,
                                k,
                            ),
                    ensures
                        self@ == old_state,
                        index >= 1,
                        old_state.next_step_index <= index,
                        index == step_target(old_state),
                        forall|k: int|
                            old_state.next_step_index <= k < index ==> #[trigger] step_fits(
                                old_state,
                                k,
                            ),
                        found.start_sample == step_boundary(old_state, index - 1),
                        found.full_end_sample == step_boundary(old_state, index as int),
                        found.emitted_end_sample == clipped(old_state, found.full_end_sample as int),
                        found.start_sample <= old_state.emitted_samples < found.emitted_end_sample,
                    decreases u64::MAX - index,
                {
                    proof {
                        if step_target(old_state) <= index {
                            assert(reaches_past(old_state, step_target(old_state)));
                        }
                    }
                    if index == u64::MAX {
                        assert(!step_fits(old_state, index as int));
                        return Err(Error::unsupported_workload("sample timeline step overflow"));
                    }
                    let previous_index = index;
                    index = index + 1;
                    assert(self.sample_frequency_hz * previous_index <= u128::MAX) by (nonlinear_arith)
                        requires self.sample_frequency_hz <= u64::MAX, previous_index <= u64::MAX;
                    let start_multiplier = (self.sample_frequency_hz as u128) * (previous_index as u128);
                    let start_sample = match self.step.rounded_product(start_multiplier) {
                        Ok(value) => value,
                        Err(error) => {
                            assert(!step_fits(old_state, previous_index as int));
                            return Err(error);
                        },
                    };
                    assert(self.sample_frequency_hz * index <= u128::MAX) by (nonlinear_arith)
                        requires self.sample_frequency_hz <= u64::MAX, index <= u64::MAX;
                    let end_multiplier = (self.sample_frequency_hz as u128) * (index as u128);
                    let full_end_sample = match self.step.rounded_product(end_multiplier) {
                        Ok(value) => value,
                        Err(error) => {
                            assert(!step_fits(old_state, previous_index as int));
                            return Err(error);
                        },
                    };
                    assert(step_fits(old_state, previous_index as int));
                    let emitted_end_sample = match self.total_samples {
                        Some(total) => if full_end_sample < total {
                            full_end_sample
                        } else {
                            total
                        },
                        None => full_end_sample,
                    };
                    if emitted_end_sample > self.emitted_samples {
                        proof {
                            if start_sample > self.emitted_samples {
                                lemma_step_boundary_monotonic(old_state, previous_index as int, index as int);
                            }
                            assert(is_step_target(old_state, index as int));
                        }
                        found = PendingStep { start_sample, full_end_sample, emitted_end_sample };
                        break;
                    }
                    if self.is_exhausted() {
                        return Ok(None);
                    }
                }
                (found, index)
            },
        };
        let start_sample = self.emitted_samples;
        let end_sample = if pending_step.emitted_end_sample < self.next_frame_sample {
            pending_step.emitted_end_sample
        } else {
            self.next_frame_sample
        };
        let sample_count = end_sample - start_sample;
        if sample_count > usize::MAX as u64 {
            return Err(Error::unsupported_workload("I/Q block size exceeds supported range"));
        }
        let sample_count = IqBlockSizing::new(sample_count as usize)?.complex_samples();
        let mut frame_deadlines = Vec::new();
        let mut next_frame_sample = self.next_frame_sample;
        let mut next_frame = self.next_frame_time;
        if end_sample == self.next_frame_sample {
            let frame_samples = match FRAME_SECONDS.checked_mul(self.sample_frequency_hz) {
                Some(value) => value,
                None => {
                    return Err(Error::unsupported_workload("GPS frame sample multiplication overflow"));
                },
            };
            next_frame_sample = match self.next_frame_sample.checked_add(frame_samples) {
                Some(value) => value,
                None => {
                    return Err(Error::unsupported_workload("GPS frame sample offset overflow"));
                },
            };
            if self.next_frame_time.week == i32::MAX {
                return Err(Error::unsupported_workload("GPS week exceeds the supported i32 range"));
            }
            frame_deadlines.push(self.next_frame_time);
            next_frame = next_frame_time(&self.next_frame_time);
        }
        if step_number > usize::MAX as u64 {
            return Err(Error::unsupported_workload("simulation step exceeds supported range"));
        }
        assert(frame_deadlines@ =~= if end_sample == self.next_frame_sample {
            seq![self.next_frame_time]
        } else {
            Seq::<FrameTime>::empty()
        });
        *self = SampleTimeline {
            sample_frequency_hz: self.sample_frequency_hz,
            step: self.step,
            total_samples: self.total_samples,
            emitted_samples: end_sample,
            next_step_index: step_number,
            pending_step: if end_sample == pending_step.emitted_end_sample {
                None
            } else {
                Some(pending_step)
            },
            next_frame_sample,
            next_frame_time: next_frame,
        };
        Ok(
            Some(
                TimelineBlock {
                    sample_count,
                    step_index: step_number as usize,
                    step_start_sample: pending_step.start_sample,
                    step_end_sample: pending_step.full_end_sample,
                    end_sample,
                    frame_deadlines,
                },
            ),
        )
    }
}

/// Whether the clipped end of update step `m` lies past the emitted samples.
pub open spec fn reaches_past(state: TimelineState, m: int) -> bool {
    clipped(state, step_boundary(state, m)) > state.emitted_samples
}

/// Whether `m` is the first step after the next step index whose clipped end
/// lies past the emitted samples.
pub open spec fn is_step_target(state: TimelineState, m: int) -> bool {
    &&& m > state.next_step_index
    &&& reaches_past(state, m)
    &&& forall|k: int| state.next_step_index <= k < m ==> !#[trigger] reaches_past(state, k)
}

/// The update step the next block belongs to: the retained step, or else
/// the first later step that reaches past the emitted samples.
pub open spec fn step_target(state: TimelineState) -> int {
    if state.pending_step is Some {
        state.next_step_index as int
    } else {
        choose|m: int| is_step_target(state, m)
    }
}

/// Whether the boundaries of steps `i` and `i + 1` are computed without
/// overflow.
pub open spec fn step_fits(state: TimelineState, i: int) -> bool {
    &&& i < u64::MAX
    &&& rounded_product_fits(state.step, state.sample_frequency_hz * i)
    &&& rounded_product_fits(state.step, state.sample_frequency_hz * (i + 1))
}

/// The clipped end of the next block's update step.
pub open spec fn target_step_end(state: TimelineState) -> int {
    clipped(state, step_boundary(state, step_target(state)))
}

/// The end of the next block: its step's clipped end or the next frame
/// deadline, whichever comes first.
pub open spec fn next_block_end(state: TimelineState) -> int {
    if target_step_end(state) < state.next_frame_sample {
        target_step_end(state)
    } else {
        state.next_frame_sample as int
    }
}

/// Whether every computation of the next block fits: the step boundaries
/// searched, the block size (64 MiB of interleaved samples), the next frame
/// deadline and the step index.
pub open spec fn next_block_fits(state: TimelineState) -> bool {
    &&& (state.pending_step is None ==> forall|i: int|
        state.next_step_index <= i < step_target(state) ==> #[trigger] step_fits(state, i))
    &&& 4 * (next_block_end(state) - state.emitted_samples) <= MAX_INTERLEAVED_BYTES
    &&& (next_block_end(state) == state.next_frame_sample ==> {
        &&& 30 * state.sample_frequency_hz <= u64::MAX
        &&& state.next_frame_sample + 30 * state.sample_frequency_hz <= u64::MAX
        &&& state.next_frame_time.week < i32::MAX
    })
    &&& step_target(state) <= usize::MAX
}

/// A step reaching past the emitted samples exists when samples remain, and
/// a least one after the next step index is then the step target.
pub proof fn lemma_step_target_exists(state: TimelineState)
    requires
        state_consistent(state),
        !state_exhausted(state),
        state.pending_step is None,
    ensures
        is_step_target(state, step_target(state)),
        forall|m: int| is_step_target(state, m) ==> m == step_target(state),
{
    let f = state.sample_frequency_hz as int;
    let n = state.step.numerator as int;
    let d = state.step.denominator as int;
    let e = state.emitted_samples as int;
    let far = d * (e + 1);
    let m = if far > state.next_step_index { far } else { state.next_step_index + 1 };
    assert(n * (f * far) + d / 2 >= d * (e + 1)) by (nonlinear_arith)
        requires n >= 1, f >= 1, far == d * (e + 1), d > 0, e >= 0;
    vstd::arithmetic::div_mod::lemma_div_is_ordered(d * (e + 1), n * (f * far) + d / 2, d);
    vstd::arithmetic::div_mod::lemma_div_multiples_vanish(e + 1, d);
    assert(far >= 0) by (nonlinear_arith)
        requires far == d * (e + 1), d > 0, e >= 0;
    lemma_step_boundary_monotonic(state, far, m);
    assert(reaches_past(state, m));
    lemma_least_reaching_step(state, m);
    assert forall|a: int| is_step_target(state, a) implies a == step_target(state) by {
        let b = step_target(state);
        if a < b {
            assert(!reaches_past(state, a));
        } else if b < a {
            assert(!reaches_past(state, b));
        }
    }
}

/// Below any reaching step after the next step index lies a least one.
proof fn lemma_least_reaching_step(state: TimelineState, m: int)
    requires
        m > state.next_step_index,
        reaches_past(state, m),
        !reaches_past(state, state.next_step_index as int),
    ensures
        exists|t: int| is_step_target(state, t),
    decreases m - state.next_step_index,
{
    if exists|k: int| state.next_step_index <= k < m && reaches_past(state, k) {
        let k = choose|k: int| state.next_step_index <= k < m && reaches_past(state, k);
        lemma_least_reaching_step(state, k);
    } else {
        assert(is_step_target(state, m));
    }
}

/// Whether the block `block` is the next block of `old`, leaving `new`.
pub open spec fn block_follows(old: TimelineState, new: TimelineState, block: TimelineBlock) -> bool {
    let index = new.next_step_index as int;
    let step_end = clipped(old, step_boundary(old, index));
    let frame_reached = block.end_sample == old.next_frame_sample;
    &&& !state_exhausted(old)
    &&& index >= 1 && block.step_index == index
    &&& block.step_start_sample == step_boundary(old, index - 1)
    &&& block.step_end_sample == step_boundary(old, index)
    &&& step_boundary(old, index - 1) <= old.emitted_samples < step_end
    &&& block.end_sample == if step_end < old.next_frame_sample {
        step_end
    } else {
        old.next_frame_sample as int
    }
    &&& block.sample_count == block.end_sample - old.emitted_samples
    &&& block.sample_count > 0
    &&& new.emitted_samples == block.end_sample
    &&& new.sample_frequency_hz == old.sample_frequency_hz
    &&& new.step == old.step
    &&& new.total_samples == old.total_samples
    &&& frame_reached ==> {
        &&& block.frame_deadlines@ == seq![old.next_frame_time]
        &&& new.next_frame_sample == old.next_frame_sample + 30 * old.sample_frequency_hz
        &&& new.next_frame_time == spec_next_frame_time(old.next_frame_time)
    }
    &&& !frame_reached ==> {
        &&& block.frame_deadlines@ == Seq::<FrameTime>::empty()
        &&& new.next_frame_sample == old.next_frame_sample
        &&& new.next_frame_time == old.next_frame_time
    }
}

/// The first step starts at sample zero.
pub proof fn lemma_step_boundary_zero(state: TimelineState)
    requires
        state.step.denominator > 0,
    ensures
        step_boundary(state, 0) == 0,
{
    let d = state.step.denominator as int;
    assert(state.sample_frequency_hz * 0 == 0);
    assert(state.step.numerator * 0int == 0);
    assert((d / 2) / d == 0) by {
        vstd::arithmetic::div_mod::lemma_basic_div(d / 2, d);
    }
}

/// Step boundaries never decrease.
pub proof fn lemma_step_boundary_monotonic(state: TimelineState, i: int, j: int)
    requires
        state.step.denominator > 0,
        0 <= i <= j,
    ensures
        step_boundary(state, i) <= step_boundary(state, j),
{
    let f = state.sample_frequency_hz as int;
    let n = state.step.numerator as int;
    assert(n * (f * i) <= n * (f * j)) by (nonlinear_arith)
        requires 0 <= i <= j, f >= 0, n >= 0;
    vstd::arithmetic::div_mod::lemma_div_is_ordered(
        n * (f * i) + state.step.denominator / 2,
        n * (f * j) + state.step.denominator / 2,
        state.step.denominator as int,
    );
}

/// Consecutive step boundaries are at most one rounded-up step apart, so every
/// block fits the maximum block sizing.
pub proof fn lemma_step_length_bounded(state: TimelineState, i: int)
    requires
        state.step.denominator > 0,
        i >= 1,
    ensures
        step_boundary(state, i) - step_boundary(state, i - 1) <= spec_ceiling_product(
            state.step,
            state.sample_frequency_hz as int,
        ),
{
    let f = state.sample_frequency_hz as int;
    let n = state.step.numerator as int;
    let d = state.step.denominator as int;
    let a = n * f;
    let low = n * (f * (i - 1)) + d / 2;
    let high = n * (f * i) + d / 2;
    assert(high == low + a) by (nonlinear_arith)
        requires low == n * (f * (i - 1)) + d / 2, high == n * (f * i) + d / 2, a == n * f;
    assert(low >= 0) by (nonlinear_arith)
        requires low == n * (f * (i - 1)) + d / 2, n >= 0, f >= 0, i >= 1, d > 0;
    vstd::arithmetic::div_mod::lemma_fundamental_div_mod(low, d);
    vstd::arithmetic::div_mod::lemma_fundamental_div_mod(high, d);
    vstd::arithmetic::div_mod::lemma_fundamental_div_mod(a + d - 1, d);
    let ql = low / d;
    let qh = high / d;
    let qc = (a + d - 1) / d;
    assert(qh - ql <= qc) by (nonlinear_arith)
        requires
            low == d * ql + low % d,
            0 <= low % d < d,
            high == d * qh + high % d,
            0 <= high % d < d,
            a + d - 1 == d * qc + (a + d - 1) % d,
            0 <= (a + d - 1) % d < d,
            high == low + a,
            d > 0,
            a >= 0,
    ;
}

/// Every block fits the maximum block sizing of its timeline: no block is
/// longer than one update step rounded up to whole samples.
pub proof fn lemma_block_within_maximum(old: TimelineState, new: TimelineState, block: TimelineBlock)
    requires
        state_consistent(old),
        block_follows(old, new, block),
    ensures
        block.sample_count <= spec_ceiling_product(old.step, old.sample_frequency_hz as int),
{
    let index = new.next_step_index as int;
    lemma_step_length_bounded(old, index);
}

/// An exhausted timeline has emitted exactly its finite target, so the block
/// sizes of a finite run add up to the target.
pub proof fn lemma_exhausted_emits_target(state: TimelineState)
    requires
        state_consistent(state),
        state_exhausted(state),
    ensures
        state.total_samples matches Some(total) && state.emitted_samples == total,
{
}

/// Total complex samples of a block sequence.
pub open spec fn blocks_sample_total(blocks: Seq<TimelineBlock>) -> int
    decreases blocks.len(),
{
    if blocks.len() == 0 {
        0
    } else {
        blocks_sample_total(blocks.drop_last()) + blocks.last().sample_count
    }
}

/// Blocks tile the emitted samples: along a run of consecutive blocks, the
/// emitted count grows by exactly the blocks' sample total.
pub proof fn lemma_blocks_tile_emitted_samples(states: Seq<TimelineState>, blocks: Seq<TimelineBlock>)
    requires
        states.len() == blocks.len() + 1,
        forall|i: int| 0 <= i < blocks.len() ==> block_follows(#[trigger] states[i], states[i + 1], blocks[i]),
    ensures
        states.last().emitted_samples == states[0].emitted_samples + blocks_sample_total(blocks),
    decreases blocks.len(),
{
    if blocks.len() > 0 {
        let n = blocks.len() as int;
        let front = states.take(n);
        let head = blocks.drop_last();
        assert forall|i: int| 0 <= i < head.len() implies block_follows(#[trigger] front[i], front[i + 1], head[i]) by {
            assert(block_follows(states[i], states[i + 1], blocks[i]));
        }
        lemma_blocks_tile_emitted_samples(front, head);
        assert(block_follows(states[n - 1], states[n], blocks[n - 1]));
    }
}

/// A finite run from an empty timeline to exhaustion emits exactly its
/// target: the block sizes add up to the finite sample target.
pub proof fn lemma_finite_run_emits_target(states: Seq<TimelineState>, blocks: Seq<TimelineBlock>)
    requires
        states.len() == blocks.len() + 1,
        forall|i: int| 0 <= i < blocks.len() ==> block_follows(#[trigger] states[i], states[i + 1], blocks[i]),
        states[0].emitted_samples == 0,
        state_consistent(states.last()),
        state_exhausted(states.last()),
    ensures
        states.last().total_samples matches Some(total) && blocks_sample_total(blocks) == total,
{
    lemma_blocks_tile_emitted_samples(states, blocks);
    lemma_exhausted_emits_target(states.last());
}


/// Each block a timeline emits is non-empty, starts at the first sample not
/// yet emitted, lies within its configured step and reaches at most one frame
/// deadline.
pub proof fn lemma_block_shape(old: TimelineState, new: TimelineState, block: TimelineBlock)
    requires
        block_follows(old, new, block),
    ensures
        block.sample_count >= 1,
        block.end_sample == old.emitted_samples + block.sample_count,
        new.emitted_samples == block.end_sample,
        block.step_start_sample <= block.end_sample - block.sample_count,
        block.end_sample <= block.step_end_sample,
        block.frame_deadlines@.len() <= 1,
{
}


/// A frame time as seconds on the continuous GPS time scale.
pub open spec fn continuous_seconds(time: FrameTime) -> int {
    time.week * 604800 + time.second
}

/// The frame deadline after `time` lies exactly 30 seconds later on the
/// continuous GPS time scale, and still within its week.
pub proof fn lemma_next_frame_is_thirty_seconds_later(time: FrameTime)
    requires
        time.second < 604800,
        time.week < i32::MAX,
    ensures
        continuous_seconds(spec_next_frame_time(time)) == continuous_seconds(time) + 30,
        spec_next_frame_time(time).second < 604800,
{
}

/// Frame deadlines advance in step with their samples: across every block,
/// the deadline time scaled by the sample frequency, less the deadline
/// sample, stays the same; a block that reaches a deadline moves it 30
/// seconds and `30 * sample_frequency_hz` samples on.
pub proof fn lemma_frame_deadlines_advance_with_samples(
    old: TimelineState,
    new: TimelineState,
    block: TimelineBlock,
)
    requires
        state_consistent(old),
        old.next_frame_time.week < i32::MAX,
        block_follows(old, new, block),
    ensures
        continuous_seconds(new.next_frame_time) * old.sample_frequency_hz - new.next_frame_sample
            == continuous_seconds(old.next_frame_time) * old.sample_frequency_hz
            - old.next_frame_sample,
        block.end_sample == old.next_frame_sample ==> continuous_seconds(new.next_frame_time)
            == continuous_seconds(old.next_frame_time) + 30,
{
    if block.end_sample == old.next_frame_sample {
        lemma_next_frame_is_thirty_seconds_later(old.next_frame_time);
        let f = old.sample_frequency_hz as int;
        let t = continuous_seconds(old.next_frame_time);
        assert((t + 30) * f == t * f + 30 * f) by (nonlinear_arith);
    }
}


/// The first frame deadline is the earliest whole multiple of 30 seconds
/// strictly after the start, and its sample is the first sample at or after
/// that instant.
pub proof fn lemma_first_frame_is_next_thirty_second_mark(
    start_week: i32,
    start: Rational,
    sample_frequency_hz: int,
)
    requires
        start.denominator > 0,
        start.numerator < 604800 * start.denominator,
        start_week < i32::MAX,
        sample_frequency_hz >= 0,
    ensures
        spec_first_frame_seconds(start) % 30 == 0,
        spec_first_frame_seconds(start) * start.denominator > start.numerator,
        (spec_first_frame_seconds(start) - 30) * start.denominator <= start.numerator,
        continuous_seconds(spec_first_frame_time(start_week, start)) == start_week * 604800
            + spec_first_frame_seconds(start),
        spec_first_frame_sample(start, sample_frequency_hz) * start.denominator >= (
        spec_first_frame_seconds(start) * start.denominator - start.numerator)
            * sample_frequency_hz,
        (spec_first_frame_sample(start, sample_frequency_hz) - 1) * start.denominator < (
        spec_first_frame_seconds(start) * start.denominator - start.numerator)
            * sample_frequency_hz,
{
    lemma_first_frame_after_start(start, sample_frequency_hz);
    let n = start.numerator as int;
    let d = start.denominator as int;
    let q = n / (d * 30);
    vstd::arithmetic::div_mod::lemma_fundamental_div_mod(n, d * 30);
    assert(q * 30 * d <= n) by (nonlinear_arith)
        requires
            n == (d * 30) * q + n % (d * 30),
            0 <= n % (d * 30),
    ;
    assert(q < 20160) by (nonlinear_arith)
        requires
            n == (d * 30) * q + n % (d * 30),
            0 <= n % (d * 30),
            n < 604800 * d,
            d > 0,
    ;
    let f = spec_first_frame_seconds(start);
    assert(f == (q + 1) * 30);
    let m = (f * d - n) * sample_frequency_hz;
    let s = spec_first_frame_sample(start, sample_frequency_hz);
    assert(s == (m + d - 1) / d);
    vstd::arithmetic::div_mod::lemma_fundamental_div_mod(m + d - 1, d);
    assert(s * d >= m && (s - 1) * d < m) by (nonlinear_arith)
        requires
            m + d - 1 == d * s + (m + d - 1) % d,
            0 <= (m + d - 1) % d < d,
    ;
}

} // verus!
