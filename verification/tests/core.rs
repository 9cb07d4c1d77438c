use gps_sdr::allocation::ChannelAllocation;
use gps_sdr::calendar::{civil_from_days, days_from_civil, days_in_month, is_gregorian_leap_year};
use gps_sdr::config::{
    iono_utc_valid, leap_schedule, requested_data_format, requested_frequency, resolved_mode, timeline_limits,
    two_hour_boundary, LeapSchedule, MotionMode,
};
use gps_sdr::ephemeris_sets::{adjusted_health, EphemerisSetCursor, RecordPlacement};
use gps_sdr::error::{resolve_with_finalization, Error};
use gps_sdr::periodic::{next_ephemeris_set, plan_frame_deadline};
use gps_sdr::gps_time::{
    check_utc_label, days_since_gps_epoch, elapsed_from_week, gps_seconds_from_utc,
    gps_utc_offset_at_day, utc_from_gps_seconds, week_and_second, CalendarLabel,
};
use gps_sdr::leap_seconds::gps_utc_leap_seconds;
use gps_sdr::packing::DataFormat;
use gps_sdr::rational::{divide_ceiling, greatest_common_divisor, Convergents, Rational};
use gps_sdr::run_state::{
    begin_finite_run, check_direct_run, check_streaming_run, check_user_control_run, finish_finite_run,
    interpolation_indices, FiniteRunState,
};
use gps_sdr::signal_state::{
    advance_carrier_phase, carrier_table_index, data_bit, quantize_sample, NavigationCursor,
    CARRIER_PHASE_MASK,
};
use gps_sdr::sizing::IqBlockSizing;
use gps_sdr::timeline::SampleTimeline;

fn label(year: i32, month: i32, day: i32, hour: i32, minute: i32, second: i32) -> CalendarLabel {
    CalendarLabel { year, month, day, hour, minute, second }
}

#[test]
fn gps_epoch_is_day_3657_after_unix_epoch() {
    assert_eq!(days_from_civil(1980, 1, 6), 3_657);
    assert_eq!(days_from_civil(1970, 1, 1), 0);
    assert_eq!(days_since_gps_epoch(1980, 1, 6), 0);
    assert_eq!(civil_from_days(3_657).ok(), Some((1980, 1, 6)));
    assert_eq!(civil_from_days(-1).ok(), Some((1969, 12, 31)));
}

#[test]
fn civil_days_round_trip_across_leap_days() {
    for days in [-800_000i64, -1, 0, 11_016, 11_017, 19_000, 2_932_896] {
        let (year, month, day) = civil_from_days(days).unwrap();
        assert_eq!(days_from_civil(year, month, day), days);
    }
    assert_eq!(civil_from_days(11_016).ok(), Some((2000, 2, 29)));
}

#[test]
fn gregorian_leap_years_and_month_lengths() {
    assert!(is_gregorian_leap_year(2000));
    assert!(!is_gregorian_leap_year(1900));
    assert!(is_gregorian_leap_year(2024));
    assert!(!is_gregorian_leap_year(2023));
    assert_eq!(days_in_month(2024, 2), 29);
    assert_eq!(days_in_month(2023, 2), 28);
    assert_eq!(days_in_month(2023, 4), 30);
    assert_eq!(days_in_month(2023, 12), 31);
}

#[test]
fn leap_history_ends_at_eighteen_seconds() {
    let table = gps_utc_leap_seconds();
    assert_eq!(table.len(), 18);
    assert_eq!(table[17].gps_utc_offset, 18);
    assert_eq!((table[17].insertion_year, table[17].insertion_month, table[17].insertion_day), (2016, 12, 31));
    assert_eq!(gps_utc_offset_at_day(0), 0);
    assert_eq!(gps_utc_offset_at_day(days_since_gps_epoch(2017, 1, 1)), 18);
    assert_eq!(gps_utc_offset_at_day(days_since_gps_epoch(2016, 12, 31)), 17);
}

#[test]
fn utc_leap_second_maps_to_the_gps_second_before_the_new_offset() -> Result<(), Error> {
    let leap = gps_seconds_from_utc(&label(2016, 12, 31, 23, 59, 60))?;
    let after = gps_seconds_from_utc(&label(2017, 1, 1, 0, 0, 0))?;
    let before = gps_seconds_from_utc(&label(2016, 12, 31, 23, 59, 59))?;
    assert_eq!(after - leap, 1);
    assert_eq!(leap - before, 1);
    assert_eq!(utc_from_gps_seconds(leap)?, label(2016, 12, 31, 23, 59, 60));
    assert_eq!(utc_from_gps_seconds(after)?, label(2017, 1, 1, 0, 0, 0));
    assert_eq!(utc_from_gps_seconds(before)?, label(2016, 12, 31, 23, 59, 59));
    assert_eq!(gps_seconds_from_utc(&label(1980, 1, 6, 0, 0, 0))?, 0);
    Ok(())
}

#[test]
fn second_sixty_outside_a_leap_day_is_rejected() {
    assert!(check_utc_label(&label(2016, 12, 31, 23, 59, 60)).is_ok());
    assert!(matches!(
        check_utc_label(&label(2017, 12, 31, 23, 59, 60)),
        Err(Error::InvalidCalendarDate { .. })
    ));
    assert!(matches!(
        check_utc_label(&label(2017, 2, 29, 0, 0, 0)),
        Err(Error::InvalidCalendarDate { .. })
    ));
}

#[test]
fn weeks_split_and_rejoin() -> Result<(), Error> {
    assert_eq!(week_and_second(604_800 * 2317 + 12)?, (2317, 12));
    assert_eq!(elapsed_from_week(2317, 12)?, 604_800 * 2317 + 12);
    assert!(matches!(week_and_second(-1), Err(Error::TimeBeforeGpsEpoch { .. })));
    assert!(elapsed_from_week(1, 604_800).is_err());
    Ok(())
}

#[test]
fn rational_helpers_round_and_reduce() -> Result<(), Error> {
    assert_eq!(greatest_common_divisor(84, 36), 12);
    assert_eq!(greatest_common_divisor(7, 0), 7);
    assert_eq!(divide_ceiling(10, 3)?, 4);
    assert_eq!(divide_ceiling(9, 3)?, 3);
    assert!(divide_ceiling(u128::MAX, 2).is_err());
    let step = Rational { numerator: 1, denominator: 30 };
    assert_eq!(step.rounded_product(1_000_000)?, 33_333);
    assert_eq!(step.ceiling_product(1_000_000)?, 33_334);
    let half = Rational { numerator: 1, denominator: 2 };
    assert_eq!(half.rounded_product(1)?, 1);
    let reduced = Rational::reduced(84, 36)?;
    assert_eq!((reduced.numerator, reduced.denominator), (7, 3));
    assert!(matches!(Rational::reduced(1, 0), Err(Error::UnsupportedWorkload { .. })));
    Ok(())
}

#[test]
fn convergents_of_one_thirtieth_have_unit_determinant() {
    let mut convergents = Convergents::start();
    for whole in [0u128, 30] {
        convergents = convergents.next(whole).unwrap();
        let determinant = convergents.numerator as i128 * convergents.previous_denominator as i128
            - convergents.previous_numerator as i128 * convergents.denominator as i128;
        assert_eq!(determinant.abs(), 1);
    }
    assert_eq!((convergents.numerator, convergents.denominator), (1, 30));
    assert!(convergents.next(2_000_000_000).is_none());
}

#[test]
fn block_sizing_limits_and_dimensions() -> Result<(), Error> {
    let sizing = IqBlockSizing::new(1_000)?;
    assert_eq!(sizing.complex_samples(), 1_000);
    assert_eq!(sizing.interleaved_i16_len(), 2_000);
    assert_eq!(sizing.interleaved_bytes(), 4_000);
    assert!(IqBlockSizing::new(16_777_216).is_ok());
    assert!(IqBlockSizing::new(16_777_217).is_err());
    assert_eq!(IqBlockSizing::from_interleaved_i16_len(10)?.complex_samples(), 5);
    match IqBlockSizing::from_interleaved_i16_len(11) {
        Err(Error::UnsupportedWorkload { reason }) => assert_eq!(reason, "interleaved I/Q length is not even"),
        _ => panic!("an odd interleaved length must be refused"),
    }
    match IqBlockSizing::from_interleaved_i16_len(33_554_434) {
        Err(Error::UnsupportedWorkload { reason }) => {
            assert_eq!(reason, "I/Q block exceeds the 64 MiB block limit")
        },
        _ => panic!("a block over 64 MiB must be refused"),
    }
    assert_eq!(IqBlockSizing::checked_i16_byte_len(3)?, 6);
    Ok(())
}

#[test]
fn channels_follow_visibility_and_stay_with_their_satellite() {
    let mut allocation = ChannelAllocation::new();
    let mut visible = [false; 32];
    visible[2] = true;
    visible[5] = true;
    visible[31] = true;
    let (count, assigned) = allocation.allocate(&visible);
    assert_eq!(count, 3);
    assert_eq!(assigned, vec![(2, 0), (5, 1), (31, 2)]);
    assert_eq!(allocation.channel_prn(1), 6);
    assert_eq!(allocation.satellite_channel(31), 2);

    visible[2] = false;
    visible[7] = true;
    let (count, assigned) = allocation.allocate(&visible);
    assert_eq!(count, 3);
    assert_eq!(assigned, vec![(7, 0)]);
    assert_eq!(allocation.satellite_channel(2), -1);
    assert_eq!(allocation.satellite_channel(5), 1);
    assert_eq!(allocation.satellite_channel(31), 2);
    assert_eq!(allocation.channel_prn(0), 8);
}

#[test]
fn at_most_sixteen_satellites_hold_channels() {
    let mut allocation = ChannelAllocation::new();
    let (count, assigned) = allocation.allocate(&[true; 32]);
    assert_eq!(count, 32);
    assert_eq!(assigned.len(), 16);
    for sv in 16..32 {
        assert_eq!(allocation.satellite_channel(sv), -1);
    }
    for channel in 0..16 {
        assert_eq!(allocation.channel_prn(channel), channel + 1);
    }
}

#[test]
fn settings_are_validated_like_the_builder() {
    assert!(matches!(requested_data_format(None, Some(8)), Ok(Some(DataFormat::Bits8))));
    assert!(matches!(requested_data_format(Some(DataFormat::Bits1), None), Ok(Some(DataFormat::Bits1))));
    assert!(matches!(requested_data_format(None, Some(4)), Err(Error::InvalidDataFormat)));
    assert!(matches!(requested_frequency(None, Some(2_600_000)), Ok(Some(2_600_000))));
    assert!(matches!(requested_frequency(None, Some(999_999)), Err(Error::InvalidSamplingFrequency)));
    assert!(matches!(requested_frequency(Some(5), None), Ok(Some(5))));
}

#[test]
fn leap_parameters_are_checked_in_order() {
    assert_eq!(
        leap_schedule(&[1929, 7, 18]).ok(),
        Some(LeapSchedule { week: 1929, day: 7, delta: 18 })
    );
    assert!(matches!(leap_schedule(&[1929, 7]), Err(Error::InvalidLeapSecondParameters)));
    assert!(matches!(leap_schedule(&[-1, 8, 500]), Err(Error::InvalidGpsDay)));
    assert!(matches!(leap_schedule(&[-1, 7, 500]), Err(Error::InvalidGpsWeek)));
    assert!(matches!(leap_schedule(&[1, 7, 128]), Err(Error::InvalidDeltaLeapSecond)));
    assert!(leap_schedule(&[1, 1, -128, 99]).is_ok());
}

#[test]
fn motion_mode_and_timeline_limits_resolve() {
    assert!(matches!(resolved_mode(Some(MotionMode::Dynamic), Some(1), false), Ok(MotionMode::Static)));
    assert!(matches!(resolved_mode(Some(MotionMode::Dynamic), Some(1), true), Ok(MotionMode::Dynamic)));
    assert!(matches!(resolved_mode(Some(MotionMode::UserControl), Some(1), false), Ok(MotionMode::UserControl)));
    assert!(matches!(resolved_mode(None, Some(0), false), Err(Error::WrongPositions)));
    assert!(matches!(resolved_mode(Some(MotionMode::Dynamic), None, false), Ok(MotionMode::Static)));
    assert_eq!(timeline_limits(MotionMode::Static, None::<u8>, 300), (None, Some(300)));
    assert_eq!(timeline_limits(MotionMode::Static, Some(5u8), 300), (Some(5), None));
    assert_eq!(timeline_limits(MotionMode::Dynamic, Some(5u8), 300), (Some(5), Some(300)));
    assert_eq!(timeline_limits(MotionMode::UserControl, Some(5u8), 300), (None, None));
    assert_eq!(two_hour_boundary(7_199), 0);
    assert_eq!(two_hour_boundary(7_200), 7_200);
    assert_eq!(two_hour_boundary(100_000), 93_600);
}

#[test]
fn finite_runs_restart_only_after_completion() -> Result<(), Error> {
    let start = Rational { numerator: 0, denominator: 1 };
    let mut timeline = SampleTimeline::new(
        1,
        start,
        1_000,
        Rational { numerator: 1, denominator: 1 },
        Some(Rational { numerator: 1, denominator: 1 }),
        None,
        false,
    )?;
    let mut state = FiniteRunState::default();
    begin_finite_run(&mut state, &mut timeline, 1, start)?;
    assert_eq!(state, FiniteRunState::Interrupted);
    while timeline.next_block()?.is_some() {}
    assert!(matches!(
        begin_finite_run(&mut state, &mut timeline, 1, start),
        Err(Error::FiniteRunInterruptedAtEnd)
    ));
    finish_finite_run(&mut state, Ok(()))?;
    assert_eq!(state, FiniteRunState::Completed);
    begin_finite_run(&mut state, &mut timeline, 1, start)?;
    assert!(!timeline.is_exhausted());
    assert!(finish_finite_run(&mut state, Err(Error::Unknown)).is_err());
    assert_eq!(state, FiniteRunState::OutputFailed);
    assert!(matches!(
        begin_finite_run(&mut state, &mut timeline, 1, start),
        Err(Error::FiniteRunOutputFailed)
    ));
    Ok(())
}

#[test]
fn finalization_failures_are_combined_in_order() {
    let both = resolve_with_finalization::<()>(Err(Error::NoEphemeris), Err(Error::Unknown));
    match both {
        Err(Error::OutputFinalization { primary, finalization }) => {
            assert!(matches!(*primary, Error::NoEphemeris));
            assert!(matches!(*finalization, Error::Unknown));
        },
        _ => panic!("expected a combined finalization error"),
    }
    assert!(matches!(resolve_with_finalization(Ok(3), Err(Error::Unknown)), Err(Error::Unknown)));
    assert!(matches!(resolve_with_finalization(Ok(3), Ok(())), Ok(3)));
    let text = Error::OutputFinalization {
        primary: Box::new(Error::NoEphemeris),
        finalization: Box::new(Error::Unknown),
    }
    .to_string();
    assert_eq!(
        text,
        "output operation failed: No ephemeris available; output finalization also failed: Unknown error"
    );
}

#[test]
fn carrier_phase_steps_wrap_modulo_25_bits() {
    assert_eq!(advance_carrier_phase(CARRIER_PHASE_MASK, 2), 1);
    assert_eq!(advance_carrier_phase(10, -2), 8);
    assert_eq!(advance_carrier_phase(1, -2), CARRIER_PHASE_MASK);
    assert_eq!(carrier_table_index(CARRIER_PHASE_MASK), 511);
    assert_eq!(carrier_table_index(0x0001_0000), 1);
}

#[test]
fn quantization_rounds_half_up_after_scaling() {
    assert_eq!(quantize_sample(63), 0);
    assert_eq!(quantize_sample(64), 1);
    assert_eq!(quantize_sample(-64), 0);
    assert_eq!(quantize_sample(-65), -1);
    assert_eq!(quantize_sample(128 * 300), 300);
}

#[test]
fn navigation_cursor_counts_epochs_bits_and_words() {
    let cursor = NavigationCursor::at_milliseconds(1_259);
    assert_eq!(cursor, NavigationCursor { word_index: 2, bit_index: 2, code_epoch_index: 19 });
    let mut next = cursor;
    assert!(next.advance_code_epoch());
    assert_eq!(next, NavigationCursor { word_index: 2, bit_index: 3, code_epoch_index: 0 });
    let mut end_of_word = NavigationCursor { word_index: 4, bit_index: 29, code_epoch_index: 19 };
    assert!(end_of_word.advance_code_epoch());
    assert_eq!(end_of_word, NavigationCursor { word_index: 5, bit_index: 0, code_epoch_index: 0 });
    let mut words = [0u32; 60];
    words[5] = 1 << 29;
    assert_eq!(data_bit(&words, &end_of_word), 1);
    end_of_word.bit_index = 1;
    assert_eq!(data_bit(&words, &end_of_word), -1);
}

#[test]
fn ephemeris_records_open_hourly_sets() {
    let mut cursor = EphemerisSetCursor::new();
    assert!(matches!(cursor.place(0, false), Ok(RecordPlacement::Skip)));
    assert!(matches!(cursor.place(33, true), Ok(RecordPlacement::Skip)));
    assert!(matches!(
        cursor.place(5, true),
        Ok(RecordPlacement::Slot { set: 0, sv: 4, starts_set: true })
    ));
    assert!(matches!(
        cursor.place(7, false),
        Ok(RecordPlacement::Slot { set: 0, sv: 6, starts_set: false })
    ));
    for set in 1..15 {
        assert!(matches!(
            cursor.place(1, true),
            Ok(RecordPlacement::Slot { set: s, starts_set: true, .. }) if s == set
        ));
    }
    assert_eq!(cursor.stored_set_count(), 15);
    assert!(matches!(
        cursor.place(1, true),
        Err(Error::TooManyEphemerisSets { max_supported: 15 })
    ));
    assert_eq!(adjusted_health(5), 37);
    assert_eq!(adjusted_health(0), 0);
    assert_eq!(adjusted_health(40), 40);
}

#[test]
fn run_preconditions_report_the_first_missing_piece() {
    assert!(matches!(check_direct_run(false, MotionMode::Static, true), Err(Error::NotInitialized)));
    assert!(matches!(
        check_direct_run(true, MotionMode::UserControl, true),
        Err(Error::ParsingError(ref m)) if m == "run_simulation is not supported in runtime motion control mode"
    ));
    assert!(matches!(check_direct_run(true, MotionMode::Dynamic, false), Err(Error::IQWriterNotInitialized)));
    assert!(check_direct_run(true, MotionMode::Dynamic, true).is_ok());
    assert!(check_streaming_run(true, MotionMode::Static).is_ok());
    assert!(check_streaming_run(true, MotionMode::UserControl).is_err());
    assert!(matches!(
        check_user_control_run(true, MotionMode::UserControl, false),
        Err(Error::ParsingError(ref m)) if m == "runtime motion control not configured"
    ));
    assert!(check_user_control_run(true, MotionMode::UserControl, true).is_ok());
    assert!(check_user_control_run(true, MotionMode::Static, true).is_err());
}

#[test]
fn dynamic_blocks_interpolate_between_neighbouring_positions() {
    assert!(matches!(interpolation_indices(3, 5), Ok((2, 3))));
    assert!(matches!(interpolation_indices(0, 5), Err(Error::WrongPositions)));
    assert!(matches!(interpolation_indices(5, 5), Err(Error::WrongPositions)));
}

#[test]
fn utc_parameters_need_every_record_and_an_aligned_reference() {
    assert!(iono_utc_valid(true, true, Some(4096 * 2317 % 604_800 / 4096 * 4096)));
    assert!(iono_utc_valid(true, true, Some(0)));
    assert!(!iono_utc_valid(true, true, Some(4095)));
    assert!(!iono_utc_valid(false, true, Some(4096)));
    assert!(!iono_utc_valid(true, false, Some(4096)));
    assert!(!iono_utc_valid(true, true, None));
}

#[test]
fn gps_seconds_survive_a_utc_round_trip_around_leap_seconds() -> Result<(), Error> {
    let after = gps_seconds_from_utc(&label(2017, 1, 1, 0, 0, 0))?;
    for seconds in (after - 5)..(after + 5) {
        let utc = utc_from_gps_seconds(seconds)?;
        assert_eq!(gps_seconds_from_utc(&utc)?, seconds);
    }
    for seconds in [0i64, 1, 86_399, 604_800 * 1000 + 17, 604_800 * 2317 + 36_000] {
        let utc = utc_from_gps_seconds(seconds)?;
        assert_eq!(gps_seconds_from_utc(&utc)?, seconds);
    }
    Ok(())
}

#[test]
fn gps_utc_offset_never_decreases() {
    let mut previous = 0;
    for day in (0..20_000).step_by(37) {
        let offset = gps_utc_offset_at_day(day);
        assert!(offset >= previous);
        assert!(offset <= 18);
        previous = offset;
    }
}

#[test]
fn frame_deadlines_switch_sets_and_rebuild_valid_channels() {
    assert_eq!(next_ephemeris_set(0, 3, true), Some(1));
    assert_eq!(next_ephemeris_set(2, 3, true), None);
    assert_eq!(next_ephemeris_set(0, 3, false), None);
    assert_eq!(next_ephemeris_set(usize::MAX, usize::MAX, true), None);

    let mut valid = [false; 32];
    valid[4] = true;
    valid[6] = true;
    let prns = [5, 0, 7, 9];
    let plan = plan_frame_deadline(&prns, 0, 2, true, &valid);
    assert_eq!(plan.new_set, Some(1));
    assert_eq!(plan.regenerate_message, vec![true, false, true, true]);
    assert_eq!(plan.rebuild_subframes, vec![true, false, true, false]);

    let plan = plan_frame_deadline(&prns, 1, 2, true, &valid);
    assert_eq!(plan.new_set, None);
    assert_eq!(plan.regenerate_message, vec![true, false, true, true]);
    assert_eq!(plan.rebuild_subframes, vec![false, false, false, false]);
}
