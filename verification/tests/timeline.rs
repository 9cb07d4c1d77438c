use gps_sdr::error::Error;
use gps_sdr::rational::Rational;
use gps_sdr::timeline::{FrameTime, SampleTimeline};

fn ratio(numerator: u128, denominator: u128) -> Rational {
    Rational { numerator, denominator }
}

#[test]
fn fractional_steps_preserve_long_run_sample_total() -> Result<(), Error> {
    let mut timeline = SampleTimeline::new(
        1,
        ratio(0, 1),
        1_000_000,
        ratio(1, 30),
        Some(ratio(1, 1)),
        None,
        false,
    )?;
    let mut sizes = Vec::new();
    while let Some(block) = timeline.next_block()? {
        sizes.push(block.sample_count);
    }
    assert_eq!(sizes.len(), 30);
    assert_eq!(sizes.iter().sum::<usize>(), 1_000_000);
    assert!(sizes.contains(&33_333));
    assert!(sizes.contains(&33_334));
    Ok(())
}

#[test]
fn block_is_split_at_exact_thirty_second_deadline() -> Result<(), Error> {
    let mut timeline = SampleTimeline::new(
        10,
        ratio(599, 20),
        1_000_000,
        ratio(1, 10),
        Some(ratio(1, 10)),
        None,
        false,
    )?;
    let first = timeline
        .next_block()?
        .ok_or_else(|| Error::msg("missing first timeline block"))?;
    let second = timeline
        .next_block()?
        .ok_or_else(|| Error::msg("missing second timeline block"))?;
    assert_eq!(first.sample_count, 50_000);
    assert_eq!(second.sample_count, 50_000);
    assert_eq!(first.step_start_sample, 0);
    assert_eq!(first.step_end_sample, 100_000);
    assert_eq!(first.end_sample, 50_000);
    assert_eq!(
        (first.end_sample - first.step_start_sample) * 2,
        first.step_end_sample - first.step_start_sample
    );
    assert_eq!(second.end_sample, second.step_end_sample);
    assert_eq!(first.frame_deadlines, vec![FrameTime { week: 10, second: 30 }]);
    assert!(second.frame_deadlines.is_empty());
    assert!(timeline.next_block()?.is_none());
    Ok(())
}

#[test]
fn clipped_step_retains_full_endpoint_fraction() -> Result<(), Error> {
    let mut timeline = SampleTimeline::new(
        10,
        ratio(1, 1),
        10_000,
        ratio(2, 1),
        Some(ratio(1, 1)),
        Some(1),
        false,
    )?;
    let block = timeline
        .next_block()?
        .ok_or_else(|| Error::msg("missing clipped timeline block"))?;
    assert_eq!(block.sample_count, 10_000);
    assert_eq!(block.step_start_sample, 0);
    assert_eq!(block.step_end_sample, 20_000);
    assert_eq!(block.end_sample, 10_000);
    assert_eq!(
        (block.end_sample - block.step_start_sample) * 2,
        block.step_end_sample - block.step_start_sample
    );
    Ok(())
}

#[test]
fn duration_rounds_to_nearest_sample_with_half_up_ties() -> Result<(), Error> {
    let mut below_half = SampleTimeline::new(
        1,
        ratio(0, 1),
        1_000_000,
        ratio(1, 10),
        Some(ratio(49, 100_000_000)),
        None,
        false,
    )?;
    assert!(below_half.next_block()?.is_none());

    let mut exact_half = SampleTimeline::new(
        1,
        ratio(0, 1),
        1_000_000,
        ratio(1, 10),
        Some(ratio(1, 2_000_000)),
        None,
        false,
    )?;
    let block = exact_half
        .next_block()?
        .ok_or_else(|| Error::msg("half-sample duration emitted no sample"))?;
    assert_eq!(block.sample_count, 1);
    assert!(exact_half.next_block()?.is_none());
    Ok(())
}

#[test]
fn frame_deadlines_cross_thirty_seconds_and_week_exactly() -> Result<(), Error> {
    let mut timeline = SampleTimeline::new(
        10,
        ratio(12_095_999, 20),
        1_000_000,
        ratio(1, 10),
        Some(ratio(1, 10)),
        None,
        false,
    )?;
    let first = timeline
        .next_block()?
        .ok_or_else(|| Error::msg("missing first timeline block"))?;
    let second = timeline
        .next_block()?
        .ok_or_else(|| Error::msg("missing second timeline block"))?;
    assert_eq!(first.end_sample, 50_000);
    assert_eq!(first.frame_deadlines, vec![FrameTime { week: 11, second: 0 }]);
    assert_eq!(second.end_sample, 100_000);
    assert!(second.frame_deadlines.is_empty());
    Ok(())
}

#[test]
fn maximum_block_covers_one_rounded_up_step() -> Result<(), Error> {
    let timeline = SampleTimeline::new(
        1,
        ratio(0, 1),
        1_000_000,
        ratio(1, 30),
        Some(ratio(1, 1)),
        None,
        false,
    )?;
    let sizing = timeline.maximum_block_sizing()?;
    assert_eq!(sizing.complex_samples(), 33_334);
    Ok(())
}

#[test]
fn exhausted_timeline_restarts_at_a_new_epoch() -> Result<(), Error> {
    let mut timeline = SampleTimeline::new(
        3,
        ratio(0, 1),
        1_000,
        ratio(1, 1),
        Some(ratio(2, 1)),
        None,
        false,
    )?;
    assert!(timeline.restarted_if_exhausted(3, ratio(5, 1))?.is_none());
    while timeline.next_block()?.is_some() {}
    assert!(timeline.is_exhausted());
    let mut restarted = timeline
        .restarted_if_exhausted(3, ratio(25, 1))?
        .ok_or_else(|| Error::msg("exhausted timeline did not restart"))?;
    let block = restarted
        .next_block()?
        .ok_or_else(|| Error::msg("restarted timeline emitted nothing"))?;
    assert_eq!(block.sample_count, 1_000);
    let block = restarted
        .next_block()?
        .ok_or_else(|| Error::msg("restarted timeline ended early"))?;
    assert_eq!(block.end_sample, 2_000);
    assert!(restarted.next_block()?.is_none());
    Ok(())
}

#[test]
fn zero_frequency_and_zero_step_are_rejected() {
    let zero_frequency =
        SampleTimeline::new(1, ratio(0, 1), 0, ratio(1, 10), None, None, false);
    assert!(matches!(zero_frequency, Err(Error::InvalidSamplingFrequency)));
    let zero_step =
        SampleTimeline::new(1, ratio(0, 1), 1_000, ratio(0, 10), None, None, false);
    assert!(matches!(zero_step, Err(Error::UnsupportedWorkload { .. })));
}

#[test]
fn limit_alone_sets_the_target_when_the_duration_reaches_it() -> Result<(), Error> {
    let mut timeline = SampleTimeline::new(
        1,
        ratio(0, 1),
        1_000,
        ratio(1, 2),
        Some(ratio(10, 1)),
        Some(3),
        true,
    )?;
    let mut total = 0usize;
    let mut blocks = 0usize;
    while let Some(block) = timeline.next_block()? {
        total += block.sample_count;
        blocks += 1;
    }
    assert_eq!(total, 1_500);
    assert_eq!(blocks, 3);
    Ok(())
}
