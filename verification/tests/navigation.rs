use gps_sdr::codegen::{codegen, codegen_chips};
use gps_sdr::nav_message::{compute_checksum, generate_nav_msg, parity_of};
use gps_sdr::subframes::{generate_navigation_subframes, SubframeParameters};

/// Independent IS-GPS-200 parity of a source word, written with `count_ones`.
fn reference_checksum(source: u32, nib: bool) -> u32 {
    let masks: [u32; 6] = [0x3b1f_3480, 0x1d8f_9a40, 0x2ec7_cd00, 0x1763_e680, 0x2bb1_f340, 0x0b7a_89c0];
    let d29 = (source >> 31) & 1;
    let d30 = (source >> 30) & 1;
    let mut d = source & 0x3fff_ffc0;
    if nib {
        if (d30 + (masks[4] & d).count_ones()) % 2 != 0 {
            d ^= 1 << 6;
        }
        if (d29 + (masks[5] & d).count_ones()) % 2 != 0 {
            d ^= 1 << 7;
        }
    }
    let mut word = if d30 != 0 { d ^ 0x3fff_ffc0 } else { d };
    let previous = [d29, d30, d29, d30, d30, d29];
    for (index, mask) in masks.iter().enumerate() {
        word |= ((previous[index] + (mask & d).count_ones()) % 2) << (5 - index);
    }
    word & 0x3fff_ffff
}

#[test]
fn parity_counts_set_bits_modulo_two() {
    assert_eq!(parity_of(0), 0);
    assert_eq!(parity_of(0b1011), 1);
    assert_eq!(parity_of(u32::MAX), 0);
    assert_eq!(parity_of(0x8000_0001), 0);
    assert_eq!(parity_of(0x8000_0000), 1);
}

#[test]
fn checksum_matches_parity_equations() {
    let sources = [
        0u32,
        0x22c0_0000,
        0x8000_0100,
        0x4012_3440,
        0xc3ff_ffc0,
        0x7fff_ffff,
        0xffff_ffff,
        0x1234_5678,
    ];
    for source in sources {
        for nib in [false, true] {
            assert_eq!(compute_checksum(source, i32::from(nib)), reference_checksum(source, nib));
        }
    }
}

#[test]
fn non_information_bearing_words_end_in_two_zero_bits() {
    for source in [0x8000_0100u32, 0x4012_3440, 0xc3ff_ffc0, 0x7fff_ffff, 0xdead_beef] {
        assert_eq!(compute_checksum(source, 1) & 3, 0);
    }
}

#[test]
fn checksum_complements_data_bits_after_a_set_d30() {
    let plain = compute_checksum(0x0012_3440, 0);
    let complemented = compute_checksum(0x4012_3440, 0);
    assert_eq!((plain ^ complemented) & 0x3fff_ffc0, 0x3fff_ffc0);
}

#[test]
fn prn1_ca_code_starts_with_octal_1440() {
    let mut ca = [0i32; 1023];
    codegen(&mut ca, 1);
    assert_eq!(&ca[..10], &[1, 1, 0, 0, 1, 0, 0, 0, 0, 0]);
    let ones = ca.iter().filter(|&&bit| bit == 1).count();
    assert_eq!(ones, 512);
}

#[test]
fn prn_outside_range_leaves_code_unchanged() {
    let mut ca = [7i32; 1023];
    codegen(&mut ca, 0);
    codegen(&mut ca, 33);
    assert!(ca.iter().all(|&bit| bit == 7));
    let mut chips = [3i8; 1023];
    codegen_chips(&mut chips, 40);
    assert!(chips.iter().all(|&chip| chip == 3));
}

#[test]
fn chips_are_signed_bits() {
    for prn in [1usize, 7, 19, 32] {
        let mut ca = [0i32; 1023];
        let mut chips = [0i8; 1023];
        codegen(&mut ca, prn);
        codegen_chips(&mut chips, prn);
        for index in 0..1023 {
            assert_eq!(i32::from(chips[index]), 2 * ca[index] - 1);
        }
    }
}

#[test]
fn prn2_ca_code_starts_with_octal_1620() {
    let mut ca = [0i32; 1023];
    codegen(&mut ca, 2);
    assert_eq!(&ca[..10], &[1, 1, 1, 0, 0, 1, 0, 0, 0, 0]);
}

fn sample_parameters() -> SubframeParameters {
    SubframeParameters {
        toe: 0x1234,
        toc: 0x2345,
        iode: 0x5a,
        iodc: 0x15a,
        deltan: -3,
        cuc: 100,
        cus: -100,
        cic: 7,
        cis: -7,
        crc: 300,
        crs: -300,
        ecc: 0x0123_4567,
        sqrta: 0xa10d_1234,
        m0: -0x0123_4567,
        omg0: 0x0765_4321,
        inc0: 0x2800_0000,
        aop: -5,
        omgdot: -1000,
        idot: 200,
        af0: -12345,
        af1: 6,
        af2: 0,
        tgd: -9,
        svhlth: 0,
        code_l2: 1,
        toe_week: 2317,
        toa: 37,
        alpha: [10, -20, 30, -40],
        beta: [50, -60, 70, -80],
        a0: -123_456,
        a1: 7,
        dtls: 18,
        tot: 4096 * 37,
        week_number: 2317,
        leapen: 0,
        wnlsf: 0,
        day_number: 0,
        dtlsf: 0,
        vflg: true,
    }
}

#[test]
fn subframe_words_leave_parity_bits_empty() {
    let subframes = generate_navigation_subframes(&sample_parameters());
    for subframe in subframes {
        for word in subframe {
            assert!(word < 0x4000_0000);
            assert_eq!(word & 0x3f, 0);
        }
    }
}

#[test]
fn subframe_fields_sit_at_their_bit_positions() {
    let p = sample_parameters();
    let subframes = generate_navigation_subframes(&p);
    assert_eq!(subframes[0][0], 0x008b_0000 << 6);
    assert_eq!(subframes[2][1], 0x3 << 8);
    assert_eq!((subframes[1][9] >> 14) & 0xffff, p.toe);
    assert_eq!((subframes[0][7] >> 22) & 0xff, (p.iodc as u32) & 0xff);
    assert_eq!((subframes[0][2] >> 6) & 0x3, (p.iodc as u32) >> 8);
    assert_eq!((subframes[0][9] >> 8) as i32 & 0x3f_ffff, p.af0 & 0x3f_ffff);
    assert_eq!((subframes[3][7] >> 14) & 0xff, 37);
    assert_eq!((subframes[3][8] >> 14) & 0xff, 1929 % 256);
    assert_eq!((subframes[3][8] >> 6) & 0xff, 7);
    assert_eq!((subframes[3][9] >> 22) & 0xff, 18);
    assert_eq!((subframes[4][2] >> 6) & 0xff, 2317 % 256);
    let mut invalid = p;
    invalid.vflg = false;
    let page25 = generate_navigation_subframes(&invalid);
    assert_eq!(page25[3][2], (1 << 28) | (63 << 22));
    assert!(page25[3][3..].iter().all(|&word| word == 0));
}

#[test]
fn frame_words_chain_parity_and_carry_week_and_tow() {
    let subframes = generate_navigation_subframes(&sample_parameters());
    let mut words = [0u32; 60];
    generate_nav_msg(&subframes, &mut words, 2317, 36_000, true);
    let tow = 36_000 / 6;
    let mut previous = 0u32;
    for (index, &word) in words.iter().enumerate() {
        let (subframe, word_index) = if index < 10 { (4, index) } else { ((index - 10) / 10, index % 10) };
        let mut raw = subframes[subframe][word_index];
        if index >= 10 && subframe == 0 && word_index == 2 {
            raw |= (2317 % 1024) << 20;
        }
        if word_index == 1 {
            let count = if index < 10 { tow } else { tow + subframe as u32 + 1 };
            raw |= (count & 0x1ffff) << 13;
        }
        let nib = word_index == 1 || word_index == 9;
        assert_eq!(word, reference_checksum(raw | ((previous << 30) & 0xc000_0000), nib));
        previous = word;
    }
    let mut next = words;
    generate_nav_msg(&subframes, &mut next, 2317, 36_030, false);
    assert_eq!(&next[..10], &words[50..]);
}

#[test]
fn neighbouring_g2_delays_shift_the_code_sum_by_one_chip() {
    let mut c1 = [0i32; 1023];
    let mut c2 = [0i32; 1023];
    let mut c3 = [0i32; 1023];
    codegen(&mut c1, 1);
    codegen(&mut c2, 2);
    codegen(&mut c3, 3);
    for i in 0..1023 {
        let j = (i + 1022) % 1023;
        assert_eq!(c2[i] ^ c3[i], c1[j] ^ c2[j]);
    }
}

#[test]
fn generated_frame_words_stay_within_their_data_bits() {
    let subframes = generate_navigation_subframes(&sample_parameters());
    let mut words = [u32::MAX; 60];
    generate_nav_msg(&subframes, &mut words, 2317, 36_000, true);
    for (index, &word) in words.iter().enumerate() {
        assert!(word < 1 << 30);
        if index % 10 == 1 || index % 10 == 9 {
            assert_eq!(word & 0x3, 0);
        }
    }
    let mut next = words;
    next[0] = u32::MAX;
    generate_nav_msg(&subframes, &mut next, 2317, 36_030, false);
    assert_eq!(&next[..10], &words[50..]);
    assert!(next[10..].iter().all(|&word| word < 1 << 30));
}
