use gps_sdr::error::Error;
use gps_sdr::packing::{
    checked_as_bytes_i16, finish_packing_to, samples_in_order, pack_bits1_into, pack_bits8_into, write_samples_to,
    Bits1PackingState, DataFormat,
};

#[test]
fn pack_bits8_matches_i8_write_semantics() -> Result<(), Error> {
    let iq: [i16; 13] = [
        -32768, -2049, -2048, -17, -16, -1, 0, 1, 15, 16, 2047, 2048, 32767,
    ];
    let mut out = vec![0u8; iq.len()];
    pack_bits8_into(&iq, &mut out)?;

    let expected: Vec<u8> = iq
        .iter()
        .map(|&s| ((i32::from(s) >> 4) as i8) as u8)
        .collect();
    assert_eq!(out, expected);

    assert_eq!(out[5], 255); // -1 >> 4 == -1
    assert_eq!(out[3], 254); // -17 >> 4 == -2
    assert_eq!(out[11], 128); // 2048 >> 4 == 128 (wraps in i8)
    assert_eq!(out[12], 255); // 32767 >> 4 == 2047 (wraps in i8)
    Ok(())
}

#[test]
fn pack_bits8_output_length_mismatch_is_error() {
    let mut out = [0u8; 1];
    let result = pack_bits8_into(&[0i16, 1i16], &mut out);
    assert!(matches!(
        result,
        Err(ref error)
            if error
                .to_string()
                .contains("Bits8 output length mismatch")
    ));
}

#[test]
fn pack_bits1_bit_order_and_sign() -> Result<(), Error> {
    let iq: [i16; 8] = [1, -1, 1, -1, 1, -1, 1, -1];
    let mut out = [0u8; 1];
    pack_bits1_into(&iq, &mut out)?;
    assert_eq!(out[0], 0b1010_1010);
    Ok(())
}

#[test]
fn bits1_state_spans_blocks_and_zero_pads_the_final_byte() {
    let mut packed = Vec::new();
    let state = Bits1PackingState::default()
        .push(&[1, -1, 1], &mut packed)
        .push(&[-1, 1, -1, 1, -1, 1], &mut packed);
    assert_eq!(packed, vec![0b1010_1010]);
    state.finish(&mut packed);
    assert_eq!(packed, vec![0b1010_1010, 0b1000_0000]);
}

#[test]
fn pack_bits1_zero_is_a_cleared_bit_and_pads_partial_bytes() -> Result<(), Error> {
    let iq: [i16; 10] = [0, 5, -5, 0, 32767, -32768, 1, 0, 1, 1];
    let mut out = [0u8; 2];
    pack_bits1_into(&iq, &mut out)?;
    assert_eq!(out, [0b0100_1010, 0b1100_0000]);
    Ok(())
}

#[test]
fn pack_bits1_output_length_mismatch_is_error() {
    let mut out = [0u8; 1];
    let result = pack_bits1_into(&[1i16; 9], &mut out);
    assert!(matches!(
        result,
        Err(ref error) if error.to_string().contains("Bits1 output length mismatch")
    ));
    assert_eq!(out, [0u8; 1]);
}

#[test]
fn pack_bits1_rejects_blocks_over_the_block_limit() {
    let iq = vec![1i16; 33_554_433];
    let mut out = vec![0u8; (iq.len() + 7) / 8];
    let result = pack_bits1_into(&iq, &mut out);
    assert!(matches!(result, Err(Error::UnsupportedWorkload { .. })));
}

#[test]
fn native_bytes_hold_each_sample_in_machine_order() -> Result<(), Error> {
    let iq: [i16; 3] = [0x0102, -2, 0x7f00];
    let bytes = checked_as_bytes_i16(&iq)?;
    let mut expected = Vec::new();
    for sample in iq {
        expected.extend_from_slice(&sample.to_ne_bytes());
    }
    assert_eq!(bytes, expected);
    assert_eq!(bytes.len(), 6);
    Ok(())
}

#[test]
fn formatted_blocks_follow_their_format_and_carry_bits1_state() -> Result<(), Error> {
    let mut state = Bits1PackingState::default();
    let mut written = Vec::new();
    write_samples_to(&mut written, DataFormat::Bits1, &[1, -1, 1, -1, 1, -1], 3, &mut state)?;
    assert!(written.is_empty());
    assert!(state.has_pending());
    write_samples_to(&mut written, DataFormat::Bits1, &[1, 1, 1, 1], 2, &mut state)?;
    assert_eq!(written, vec![0b1010_1011]);
    finish_packing_to(&mut written, DataFormat::Bits1, &mut state);
    assert_eq!(written, vec![0b1010_1011, 0b1100_0000]);
    finish_packing_to(&mut written, DataFormat::Bits1, &mut state);
    assert_eq!(written, vec![0b1010_1011, 0b1100_0000]);

    let mut eight = Vec::new();
    write_samples_to(&mut eight, DataFormat::Bits8, &[16, -17], 1, &mut state)?;
    assert_eq!(eight, vec![1, 254]);

    let mut sixteen = Vec::new();
    write_samples_to(&mut sixteen, DataFormat::Bits16, &[0x0102, 0x0304], 1, &mut state)?;
    let mut expected = Vec::new();
    expected.extend_from_slice(&0x0102i16.to_ne_bytes());
    expected.extend_from_slice(&0x0304i16.to_ne_bytes());
    assert_eq!(sixteen, expected);
    Ok(())
}

#[test]
fn formatted_block_size_must_match_its_sample_count() {
    let mut state = Bits1PackingState::default();
    let mut written = vec![7u8];
    let odd = write_samples_to(&mut written, DataFormat::Bits8, &[1, 2, 3], 1, &mut state);
    assert!(matches!(odd, Err(Error::UnsupportedWorkload { .. })));
    let mismatch = write_samples_to(&mut written, DataFormat::Bits8, &[1, 2, 3, 4], 1, &mut state);
    assert!(matches!(mismatch, Err(Error::UnsupportedWorkload { .. })));
    assert_eq!(written, vec![7u8]);
}

#[test]
fn data_format_bits_round_trip() {
    for format in [DataFormat::Bits1, DataFormat::Bits8, DataFormat::Bits16] {
        assert_eq!(DataFormat::from_bits(usize::from(format.bits())), Some(format));
    }
    assert_eq!(DataFormat::from_bits(4), None);
}

#[test]
fn pushing_blocks_one_by_one_matches_pushing_them_at_once() {
    let first: Vec<i16> = vec![1, -1, 1, 1, 0, 3, -2, 9, 5, 5, -5];
    let second: Vec<i16> = vec![-1, 1, 1, 1, 1, -7, 2, 2, 0, 1];
    let mut split = Vec::new();
    let state = Bits1PackingState::default().push(&first, &mut split).push(&second, &mut split);
    state.finish(&mut split);
    let mut joined = Vec::new();
    let all: Vec<i16> = first.iter().chain(second.iter()).copied().collect();
    Bits1PackingState::default().push(&all, &mut joined).finish(&mut joined);
    assert_eq!(split, joined);
    let mut direct = vec![0u8; (all.len() + 7) / 8];
    pack_bits1_into(&all, &mut direct).unwrap();
    assert_eq!(direct, joined);
}

#[test]
fn samples_are_laid_out_in_the_requested_byte_order() {
    let iq: [i16; 3] = [0x0102, -2, 0x7f00];
    assert_eq!(samples_in_order(&iq, true), vec![0x02, 0x01, 0xfe, 0xff, 0x00, 0x7f]);
    assert_eq!(samples_in_order(&iq, false), vec![0x01, 0x02, 0xff, 0xfe, 0x7f, 0x00]);
    let native = samples_in_order(&iq, 1u16.to_ne_bytes()[0] == 1);
    assert_eq!(checked_as_bytes_i16(&iq).ok(), Some(native));
}
