//! Bit layout of the five LNAV subframes (IS-GPS-200).
//!
//! Every parameter is placed, as its two's-complement bit field, at its
//! position in the 24 data bits (bits 29 to 6) of its word; the six parity
//! bits are left empty for the parity encoder.
use vstd::prelude::*;

use crate::calendar::trunc_div;

verus! {

/// Navigation-message parameters already scaled to their transmitted integer
/// units, with the integer ionosphere/UTC fields as broadcast.
#[derive(Clone, Copy, Debug)]
pub struct SubframeParameters {
    /// Ephemeris reference time in units of 16 s.
    pub toe: u32,
    /// Clock reference time in units of 16 s.
    pub toc: u32,
    /// Issue of data, ephemeris.
    pub iode: i32,
    /// Issue of data, clock.
    pub iodc: i32,
    /// Mean motion difference in units of 2^-43 semicircles/s.
    pub deltan: i32,
    /// Latitude cosine harmonic correction in units of 2^-29 rad.
    pub cuc: i32,
    /// Latitude sine harmonic correction in units of 2^-29 rad.
    pub cus: i32,
    /// Inclination cosine harmonic correction in units of 2^-29 rad.
    pub cic: i32,
    /// Inclination sine harmonic correction in units of 2^-29 rad.
    pub cis: i32,
    /// Orbit radius cosine harmonic correction in units of 2^-5 m.
    pub crc: i32,
    /// Orbit radius sine harmonic correction in units of 2^-5 m.
    pub crs: i32,
    /// Eccentricity in units of 2^-33.
    pub ecc: u32,
    /// Square root of the semi-major axis in units of 2^-19 m^1/2.
    pub sqrta: u32,
    /// Mean anomaly in units of 2^-31 semicircles.
    pub m0: i32,
    /// Longitude of the ascending node in units of 2^-31 semicircles.
    pub omg0: i32,
    /// Inclination in units of 2^-31 semicircles.
    pub inc0: i32,
    /// Argument of perigee in units of 2^-31 semicircles.
    pub aop: i32,
    /// Rate of right ascension in units of 2^-43 semicircles/s.
    pub omgdot: i32,
    /// Rate of inclination in units of 2^-43 semicircles/s.
    pub idot: i32,
    /// Clock bias in units of 2^-31 s.
    pub af0: i32,
    /// Clock drift in units of 2^-43 s/s.
    pub af1: i32,
    /// Clock drift rate in units of 2^-55 s/s^2.
    pub af2: i32,
    /// Group delay in units of 2^-31 s.
    pub tgd: i32,
    /// Satellite health.
    pub svhlth: i32,
    /// Codes on L2.
    pub code_l2: i32,
    /// Full GPS week of the ephemeris reference time.
    pub toe_week: i32,
    /// Almanac reference time in units of 4096 s.
    pub toa: u32,
    /// Klobuchar alpha terms in units of 2^-30, 2^-27, 2^-24 and 2^-24.
    pub alpha: [i32; 4],
    /// Klobuchar beta terms in units of 2^11, 2^14, 2^16 and 2^16.
    pub beta: [i32; 4],
    /// UTC constant term in units of 2^-30 s.
    pub a0: i32,
    /// UTC first-order term in units of 2^-50 s/s.
    pub a1: i32,
    /// Current leap-second count.
    pub dtls: i32,
    /// UTC reference time in seconds of the week.
    pub tot: i32,
    /// UTC reference week.
    pub week_number: i32,
    /// Whether a scheduled leap second is announced (1) or not.
    pub leapen: i32,
    /// Week of the scheduled leap second.
    pub wnlsf: i32,
    /// Day (1 to 7) of the scheduled leap second.
    pub day_number: i32,
    /// Leap-second count after the scheduled leap second.
    pub dtlsf: i32,
    /// Whether the ionosphere/UTC parameters are valid.
    pub vflg: bool,
}

/// Transmitted almanac week: the week modulo 256.
pub open spec fn week_mod_256(week: i32) -> u32 {
    (week as u32) % 256
}

/// Word 1 of every subframe: the TLM preamble.
pub open spec fn telemetry_word() -> u32 {
    0x008b_0000u32 << 6u32
}

/// Subframe 1: week number, health, clock parameters.
pub open spec fn spec_subframe1(p: SubframeParameters) -> Seq<u32> {
    let iodc = p.iodc as u32;
    seq![
        telemetry_word(),
        0x1u32 << 8u32,
        ((p.code_l2 as u32 & 0x3) << 18u32) | ((p.svhlth as u32 & 0x3f) << 8u32) | (((iodc >> 8u32)
            & 0x3) << 6u32),
        0,
        0,
        0,
        (p.tgd as u32 & 0xff) << 6u32,
        ((iodc & 0xff) << 22u32) | ((p.toc & 0xffff) << 6u32),
        ((p.af2 as u32 & 0xff) << 22u32) | ((p.af1 as u32 & 0xffff) << 6u32),
        (p.af0 as u32 & 0x003f_ffff) << 8u32,
    ]
}

/// Subframe 2: first ephemeris part.
pub open spec fn spec_subframe2(p: SubframeParameters) -> Seq<u32> {
    let iode = p.iode as u32;
    seq![
        telemetry_word(),
        0x2u32 << 8u32,
        ((iode & 0xff) << 22u32) | ((p.crs as u32 & 0xffff) << 6u32),
        ((p.deltan as u32 & 0xffff) << 14u32) | (((p.m0 >> 24u32) as u32 & 0xff) << 6u32),
        (p.m0 as u32 & 0x00ff_ffff) << 6u32,
        ((p.cuc as u32 & 0xffff) << 14u32) | (((p.ecc >> 24u32) & 0xff) << 6u32),
        (p.ecc & 0x00ff_ffff) << 6u32,
        ((p.cus as u32 & 0xffff) << 14u32) | (((p.sqrta >> 24u32) & 0xff) << 6u32),
        (p.sqrta & 0x00ff_ffff) << 6u32,
        (p.toe & 0xffff) << 14u32,
    ]
}

/// Subframe 3: second ephemeris part.
pub open spec fn spec_subframe3(p: SubframeParameters) -> Seq<u32> {
    let iode = p.iode as u32;
    seq![
        telemetry_word(),
        0x3u32 << 8u32,
        ((p.cic as u32 & 0xffff) << 14u32) | (((p.omg0 >> 24u32) as u32 & 0xff) << 6u32),
        (p.omg0 as u32 & 0x00ff_ffff) << 6u32,
        ((p.cis as u32 & 0xffff) << 14u32) | (((p.inc0 >> 24u32) as u32 & 0xff) << 6u32),
        (p.inc0 as u32 & 0x00ff_ffff) << 6u32,
        ((p.crc as u32 & 0xffff) << 14u32) | (((p.aop >> 24u32) as u32 & 0xff) << 6u32),
        (p.aop as u32 & 0x00ff_ffff) << 6u32,
        (p.omgdot as u32 & 0x00ff_ffff) << 6u32,
        ((iode & 0xff) << 22u32) | ((p.idot as u32 & 0x3fff) << 8u32),
    ]
}

/// The leap-second fields of page 18: the announced schedule, or the
/// schedule of the end of 2016 (week 1929, day 7, 18 s) when none is
/// announced.
pub open spec fn leap_fields(p: SubframeParameters) -> (u32, u32, u32) {
    if p.leapen == 1 {
        (week_mod_256(p.wnlsf), p.day_number as u32, p.dtlsf as u32)
    } else {
        (1929u32 % 256, 7u32, 18u32)
    }
}

/// Subframe 4: page 18 (ionosphere and UTC) when the parameters are valid,
/// page 25 otherwise.
pub open spec fn spec_subframe4(p: SubframeParameters) -> Seq<u32> {
    if p.vflg {
        let (wnlsf, dn, dtlsf) = leap_fields(p);
        let tot = trunc_div(p.tot as int, 4096) as u32;
        let week_number = week_mod_256(p.week_number);
        seq![
            telemetry_word(),
            0x4u32 << 8u32,
            (1u32 << 28u32) | (56u32 << 22u32) | ((p.alpha[0] as u32 & 0xff) << 14u32) | ((
            p.alpha[1] as u32 & 0xff) << 6u32),
            ((p.alpha[2] as u32 & 0xff) << 22u32) | ((p.alpha[3] as u32 & 0xff) << 14u32) | ((
            p.beta[0] as u32 & 0xff) << 6u32),
            ((p.beta[1] as u32 & 0xff) << 22u32) | ((p.beta[2] as u32 & 0xff) << 14u32) | ((
            p.beta[3] as u32 & 0xff) << 6u32),
            (p.a1 as u32 & 0x00ff_ffff) << 6u32,
            ((p.a0 >> 8u32) as u32 & 0x00ff_ffff) << 6u32,
            ((p.a0 as u32 & 0xff) << 22u32) | ((tot & 0xff) << 14u32) | ((week_number & 0xff)
                << 6u32),
            ((p.dtls as u32 & 0xff) << 22u32) | ((wnlsf & 0xff) << 14u32) | ((dn & 0xff) << 6u32),
            (dtlsf & 0xff) << 22u32,
        ]
    } else {
        seq![telemetry_word(), 0x4u32 << 8u32, (1u32 << 28u32) | (63u32 << 22u32), 0, 0, 0, 0, 0, 0, 0]
    }
}

/// Subframe 5: page 25 with the almanac reference time and week.
pub open spec fn spec_subframe5(p: SubframeParameters) -> Seq<u32> {
    seq![
        telemetry_word(),
        0x5u32 << 8u32,
        (1u32 << 28u32) | (51u32 << 22u32) | ((p.toa & 0xff) << 14u32) | ((week_mod_256(p.toe_week)
            & 0xff) << 6u32),
        0,
        0,
        0,
        0,
        0,
        0,
        0,
    ]
}

/// The five subframes, ten words each.
pub open spec fn spec_subframes(p: SubframeParameters) -> Seq<Seq<u32>> {
    seq![spec_subframe1(p), spec_subframe2(p), spec_subframe3(p), spec_subframe4(p), spec_subframe5(p)]
}

/// Builds the five navigation subframes from scaled parameters.
pub fn generate_navigation_subframes(p: &SubframeParameters) -> (subframes: [[u32; 10]; 5])
    ensures
        forall|k: int| 0 <= k < 5 ==> #[trigger] subframes@[k]@ == spec_subframes(*p)[k],
{
    let iodc = p.iodc as u32;
    let iode = p.iode as u32;
    let telemetry: u32 = 0x008b_0000u32 << 6u32;
    let first: [u32; 10] = [
        telemetry,
        0x1u32 << 8u32,
        ((p.code_l2 as u32 & 0x3) << 18u32) | ((p.svhlth as u32 & 0x3f) << 8u32) | (((iodc >> 8u32)
            & 0x3) << 6u32),
        0,
        0,
        0,
        (p.tgd as u32 & 0xff) << 6u32,
        ((iodc & 0xff) << 22u32) | ((p.toc & 0xffff) << 6u32),
        ((p.af2 as u32 & 0xff) << 22u32) | ((p.af1 as u32 & 0xffff) << 6u32),
        (p.af0 as u32 & 0x003f_ffff) << 8u32,
    ];
    let second: [u32; 10] = [
        telemetry,
        0x2u32 << 8u32,
        ((iode & 0xff) << 22u32) | ((p.crs as u32 & 0xffff) << 6u32),
        ((p.deltan as u32 & 0xffff) << 14u32) | (((p.m0 >> 24u32) as u32 & 0xff) << 6u32),
        (p.m0 as u32 & 0x00ff_ffff) << 6u32,
        ((p.cuc as u32 & 0xffff) << 14u32) | (((p.ecc >> 24u32) & 0xff) << 6u32),
        (p.ecc & 0x00ff_ffff) << 6u32,
        ((p.cus as u32 & 0xffff) << 14u32) | (((p.sqrta >> 24u32) & 0xff) << 6u32),
        (p.sqrta & 0x00ff_ffff) << 6u32,
        (p.toe & 0xffff) << 14u32,
    ];
    let third: [u32; 10] = [
        telemetry,
        0x3u32 << 8u32,
        ((p.cic as u32 & 0xffff) << 14u32) | (((p.omg0 >> 24u32) as u32 & 0xff) << 6u32),
        (p.omg0 as u32 & 0x00ff_ffff) << 6u32,
        ((p.cis as u32 & 0xffff) << 14u32) | (((p.inc0 >> 24u32) as u32 & 0xff) << 6u32),
        (p.inc0 as u32 & 0x00ff_ffff) << 6u32,
        ((p.crc as u32 & 0xffff) << 14u32) | (((p.aop >> 24u32) as u32 & 0xff) << 6u32),
        (p.aop as u32 & 0x00ff_ffff) << 6u32,
        (p.omgdot as u32 & 0x00ff_ffff) << 6u32,
        ((iode & 0xff) << 22u32) | ((p.idot as u32 & 0x3fff) << 8u32),
    ];
    let fourth: [u32; 10] = if p.vflg {
        let (wnlsf, dn, dtlsf): (u32, u32, u32) = if p.leapen == 1 {
            ((p.wnlsf as u32) % 256, p.day_number as u32, p.dtlsf as u32)
        } else {
            (1929u32 % 256, 7, 18)
        };
        let quotient = p.tot / 4096;
        assert(quotient == trunc_div(p.tot as int, 4096));
        let tot = quotient as u32;
        let week_number = (p.week_number as u32) % 256;
        [
            telemetry,
            0x4u32 << 8u32,
            (1u32 << 28u32) | (56u32 << 22u32) | ((p.alpha[0] as u32 & 0xff) << 14u32) | ((
            p.alpha[1] as u32 & 0xff) << 6u32),
            ((p.alpha[2] as u32 & 0xff) << 22u32) | ((p.alpha[3] as u32 & 0xff) << 14u32) | ((
            p.beta[0] as u32 & 0xff) << 6u32),
            ((p.beta[1] as u32 & 0xff) << 22u32) | ((p.beta[2] as u32 & 0xff) << 14u32) | ((
            p.beta[3] as u32 & 0xff) << 6u32),
            (p.a1 as u32 & 0x00ff_ffff) << 6u32,
            ((p.a0 >> 8u32) as u32 & 0x00ff_ffff) << 6u32,
            ((p.a0 as u32 & 0xff) << 22u32) | ((tot & 0xff) << 14u32) | ((week_number & 0xff)
                << 6u32),
            ((p.dtls as u32 & 0xff) << 22u32) | ((wnlsf & 0xff) << 14u32) | ((dn & 0xff) << 6u32),
            (dtlsf & 0xff) << 22u32,
        ]
    } else {
        [telemetry, 0x4u32 << 8u32, (1u32 << 28u32) | (63u32 << 22u32), 0, 0, 0, 0, 0, 0, 0]
    };
    let fifth: [u32; 10] = [
        telemetry,
        0x5u32 << 8u32,
        (1u32 << 28u32) | (51u32 << 22u32) | ((p.toa & 0xff) << 14u32) | ((((p.toe_week as u32)
            % 256) & 0xff) << 6u32),
        0,
        0,
        0,
        0,
        0,
        0,
        0,
    ];
    let subframes = [first, second, third, fourth, fifth];
    assert(first@ =~= spec_subframe1(*p));
    assert(second@ =~= spec_subframe2(*p));
    assert(third@ =~= spec_subframe3(*p));
    assert(fourth@ =~= spec_subframe4(*p));
    assert(fifth@ =~= spec_subframe5(*p));
    subframes
}

/// Whether a word is a 30-bit word whose six parity bits are empty.
pub open spec fn is_data_word(word: u32) -> bool {
    word < 0x4000_0000 && word & 0x3f == 0
}

/// Whether every word of a subframe is a data word with empty parity bits.
pub open spec fn all_data_words(words: Seq<u32>) -> bool {
    forall|i: int| 0 <= i < words.len() ==> #[trigger] is_data_word(words[i])
}

/// Every generated subframe word fits 30 bits and leaves its six parity bits
/// empty for the parity encoder.
pub proof fn lemma_subframe_words_are_data_words(p: SubframeParameters)
    ensures
        forall|k: int| 0 <= k < 5 ==> #[trigger] all_data_words(spec_subframes(p)[k]),
        forall|k: int| 0 <= k < 5 ==> (#[trigger] spec_subframes(p)[k]).len() == 10,
{
    let code_l2 = p.code_l2 as u32;
    let svhlth = p.svhlth as u32;
    let iodc = p.iodc as u32;
    let iode = p.iode as u32;
    let tgd = p.tgd as u32;
    let af2 = p.af2 as u32;
    let af1 = p.af1 as u32;
    let af0 = p.af0 as u32;
    let toc = p.toc;
    assert(is_data_word(0x008b_0000u32 << 6u32) && is_data_word(0x1u32 << 8u32) && is_data_word(
        ((code_l2 & 0x3) << 18u32) | ((svhlth & 0x3f) << 8u32) | (((iodc >> 8u32) & 0x3) << 6u32),
    ) && is_data_word(0) && is_data_word((tgd & 0xff) << 6u32) && is_data_word(
        ((iodc & 0xff) << 22u32) | ((toc & 0xffff) << 6u32),
    ) && is_data_word(((af2 & 0xff) << 22u32) | ((af1 & 0xffff) << 6u32)) && is_data_word(
        (af0 & 0x003f_ffff) << 8u32,
    )) by (bit_vector);
    assert(all_data_words(spec_subframe1(p)));
    let crs = p.crs as u32;
    let deltan = p.deltan as u32;
    let m0_high = (p.m0 >> 24u32) as u32;
    let m0 = p.m0 as u32;
    let cuc = p.cuc as u32;
    let ecc = p.ecc;
    let cus = p.cus as u32;
    let sqrta = p.sqrta;
    let toe = p.toe;
    assert(is_data_word(0x2u32 << 8u32) && is_data_word(((iode & 0xff) << 22u32) | ((crs & 0xffff)
        << 6u32)) && is_data_word(((deltan & 0xffff) << 14u32) | ((m0_high & 0xff) << 6u32))
        && is_data_word((m0 & 0x00ff_ffff) << 6u32) && is_data_word(((cuc & 0xffff) << 14u32) | (((
    ecc >> 24u32) & 0xff) << 6u32)) && is_data_word((ecc & 0x00ff_ffff) << 6u32) && is_data_word(
        ((cus & 0xffff) << 14u32) | (((sqrta >> 24u32) & 0xff) << 6u32),
    ) && is_data_word((sqrta & 0x00ff_ffff) << 6u32) && is_data_word((toe & 0xffff) << 14u32))
        by (bit_vector);
    assert(all_data_words(spec_subframe2(p)));
    let cic = p.cic as u32;
    let omg0_high = (p.omg0 >> 24u32) as u32;
    let omg0 = p.omg0 as u32;
    let cis = p.cis as u32;
    let inc0_high = (p.inc0 >> 24u32) as u32;
    let inc0 = p.inc0 as u32;
    let crc = p.crc as u32;
    let aop_high = (p.aop >> 24u32) as u32;
    let aop = p.aop as u32;
    let omgdot = p.omgdot as u32;
    let idot = p.idot as u32;
    assert(is_data_word(0x3u32 << 8u32) && is_data_word(((cic & 0xffff) << 14u32) | ((omg0_high
        & 0xff) << 6u32)) && is_data_word((omg0 & 0x00ff_ffff) << 6u32) && is_data_word(((cis
        & 0xffff) << 14u32) | ((inc0_high & 0xff) << 6u32)) && is_data_word((inc0 & 0x00ff_ffff)
        << 6u32) && is_data_word(((crc & 0xffff) << 14u32) | ((aop_high & 0xff) << 6u32))
        && is_data_word((aop & 0x00ff_ffff) << 6u32) && is_data_word((omgdot & 0x00ff_ffff) << 6u32)
        && is_data_word(((iode & 0xff) << 22u32) | ((idot & 0x3fff) << 8u32))) by (bit_vector);
    assert(all_data_words(spec_subframe3(p)));
    let a0 = p.alpha[0] as u32;
    let a1 = p.alpha[1] as u32;
    let a2 = p.alpha[2] as u32;
    let a3 = p.alpha[3] as u32;
    let b0 = p.beta[0] as u32;
    let b1 = p.beta[1] as u32;
    let b2 = p.beta[2] as u32;
    let b3 = p.beta[3] as u32;
    let utc1 = p.a1 as u32;
    let utc0_high = (p.a0 >> 8u32) as u32;
    let utc0 = p.a0 as u32;
    let tot = trunc_div(p.tot as int, 4096) as u32;
    let week_number = week_mod_256(p.week_number);
    let dtls = p.dtls as u32;
    let (wnlsf, dn, dtlsf) = leap_fields(p);
    assert(is_data_word(0x4u32 << 8u32) && is_data_word((1u32 << 28u32) | (56u32 << 22u32) | ((a0
        & 0xff) << 14u32) | ((a1 & 0xff) << 6u32)) && is_data_word(((a2 & 0xff) << 22u32) | ((a3
        & 0xff) << 14u32) | ((b0 & 0xff) << 6u32)) && is_data_word(((b1 & 0xff) << 22u32) | ((b2
        & 0xff) << 14u32) | ((b3 & 0xff) << 6u32)) && is_data_word((utc1 & 0x00ff_ffff) << 6u32)
        && is_data_word((utc0_high & 0x00ff_ffff) << 6u32) && is_data_word(((utc0 & 0xff) << 22u32)
        | ((tot & 0xff) << 14u32) | ((week_number & 0xff) << 6u32)) && is_data_word(((dtls & 0xff)
        << 22u32) | ((wnlsf & 0xff) << 14u32) | ((dn & 0xff) << 6u32)) && is_data_word((dtlsf
        & 0xff) << 22u32) && is_data_word((1u32 << 28u32) | (63u32 << 22u32))) by (bit_vector);
    assert(all_data_words(spec_subframe4(p)));
    let toa = p.toa;
    let wna = week_mod_256(p.toe_week);
    assert(is_data_word(0x5u32 << 8u32) && is_data_word((1u32 << 28u32) | (51u32 << 22u32) | ((toa
        & 0xff) << 14u32) | ((wna & 0xff) << 6u32))) by (bit_vector);
    assert(all_data_words(spec_subframe5(p)));
}


/// Bits `low` and up of `word`, masked by `mask`: the value a receiver reads
/// from a field of the word.
pub open spec fn field(word: u32, low: u32, mask: u32) -> u32 {
    (word >> low) & mask
}

/// The high bits of a signed value, shifted arithmetically and then
/// reinterpreted, are the high bits of its two's-complement pattern.
proof fn lemma_signed_high_bits(x: i32)
    by (bit_vector)
    ensures
        ((x >> 24u32) as u32) & 0xff == ((x as u32) >> 24u32) & 0xff,
        ((x >> 8u32) as u32) & 0x00ff_ffff == ((x as u32) >> 8u32) & 0x00ff_ffff,
{
}

/// Field read-back of the words of subframe 1.
proof fn lemma_subframe1_fields(
    code_l2: u32,
    svhlth: u32,
    iodc: u32,
    tgd: u32,
    toc: u32,
    af2: u32,
    af1: u32,
    af0: u32,
)
    by (bit_vector)
    ensures
        field(0x008b_0000u32 << 6u32, 22, 0xff) == 0x8b,
        field(0x1u32 << 8u32, 8, 0x7) == 1,
        field(((code_l2 & 0x3) << 18u32) | ((svhlth & 0x3f) << 8u32) | (((iodc >> 8u32) & 0x3) << 6u32), 18, 0x3) == code_l2 & 0x3,
        field(((code_l2 & 0x3) << 18u32) | ((svhlth & 0x3f) << 8u32) | (((iodc >> 8u32) & 0x3) << 6u32), 8, 0x3f) == svhlth & 0x3f,
        (field(((code_l2 & 0x3) << 18u32) | ((svhlth & 0x3f) << 8u32) | (((iodc >> 8u32) & 0x3) << 6u32), 6, 0x3) << 8u32)
            | field(((iodc & 0xff) << 22u32) | ((toc & 0xffff) << 6u32), 22, 0xff) == iodc & 0x3ff,
        field(((iodc & 0xff) << 22u32) | ((toc & 0xffff) << 6u32), 6, 0xffff) == toc & 0xffff,
        field((tgd & 0xff) << 6u32, 6, 0xff) == tgd & 0xff,
        field(((af2 & 0xff) << 22u32) | ((af1 & 0xffff) << 6u32), 22, 0xff) == af2 & 0xff,
        field(((af2 & 0xff) << 22u32) | ((af1 & 0xffff) << 6u32), 6, 0xffff) == af1 & 0xffff,
        field((af0 & 0x003f_ffff) << 8u32, 8, 0x003f_ffff) == af0 & 0x003f_ffff,
        (((code_l2 & 0x3) << 18u32) | ((svhlth & 0x3f) << 8u32) | (((iodc >> 8u32) & 0x3) << 6u32)) < 0x4000_0000,
        (((code_l2 & 0x3) << 18u32) | ((svhlth & 0x3f) << 8u32) | (((iodc >> 8u32) & 0x3) << 6u32)) & (0x3ffu32 << 20u32) == 0,
{
}

/// A value modulo 256 is its own low byte.
proof fn lemma_mod_256_is_a_byte(x: u32)
    by (bit_vector)
    ensures
        (x % 256) & 0xff == x % 256,
{
}

/// Field read-back of the word layouts of subframes 2 and 3.
proof fn lemma_ephemeris_fields(a: u32, b: u32, h: u32, whole: u32)
    by (bit_vector)
    ensures
        field(((a & 0xff) << 22u32) | ((b & 0xffff) << 6u32), 22, 0xff) == a & 0xff,
        field(((a & 0xff) << 22u32) | ((b & 0xffff) << 6u32), 6, 0xffff) == b & 0xffff,
        field(((a & 0xffff) << 14u32) | ((h & 0xff) << 6u32), 14, 0xffff) == a & 0xffff,
        h & 0xff == (whole >> 24u32) & 0xff ==> (field(((a & 0xffff) << 14u32) | ((h & 0xff) << 6u32), 6, 0xff) << 24u32) | field(
            (whole & 0x00ff_ffff) << 6u32,
            6,
            0x00ff_ffff,
        ) == whole,
        field((b & 0xffff) << 14u32, 14, 0xffff) == b & 0xffff,
        field((b & 0x00ff_ffff) << 6u32, 6, 0x00ff_ffff) == b & 0x00ff_ffff,
        field(((a & 0xff) << 22u32) | ((b & 0x3fff) << 8u32), 22, 0xff) == a & 0xff,
        field(((a & 0xff) << 22u32) | ((b & 0x3fff) << 8u32), 8, 0x3fff) == b & 0x3fff,
{
}

/// Field read-back of the word layouts of subframes 4 and 5.
proof fn lemma_page_fields(x: u32, y: u32, z: u32, id: u32, h: u32)
    by (bit_vector)
    requires
        id <= 0x3f,
    ensures
        field(((x & 0xff) << 22u32) | ((y & 0xff) << 14u32) | ((z & 0xff) << 6u32), 22, 0xff) == x
            & 0xff,
        field(((x & 0xff) << 22u32) | ((y & 0xff) << 14u32) | ((z & 0xff) << 6u32), 14, 0xff) == y
            & 0xff,
        field(((x & 0xff) << 22u32) | ((y & 0xff) << 14u32) | ((z & 0xff) << 6u32), 6, 0xff) == z
            & 0xff,
        field((1u32 << 28u32) | (id << 22u32) | ((y & 0xff) << 14u32) | ((z & 0xff) << 6u32), 28, 0x3)
            == 1,
        field((1u32 << 28u32) | (id << 22u32) | ((y & 0xff) << 14u32) | ((z & 0xff) << 6u32), 22, 0x3f)
            == id,
        field((1u32 << 28u32) | (id << 22u32) | ((y & 0xff) << 14u32) | ((z & 0xff) << 6u32), 14, 0xff)
            == y & 0xff,
        field((1u32 << 28u32) | (id << 22u32) | ((y & 0xff) << 14u32) | ((z & 0xff) << 6u32), 6, 0xff)
            == z & 0xff,
        field((1u32 << 28u32) | (id << 22u32), 22, 0x3f) == id,
        field((1u32 << 28u32) | (id << 22u32), 28, 0x3) == 1,
        h & 0x00ff_ffff == (x >> 8u32) & 0x00ff_ffff ==> (field((h & 0x00ff_ffff) << 6u32, 6, 0x00ff_ffff) << 8u32) | field(
            ((x & 0xff) << 22u32) | ((y & 0xff) << 14u32) | ((z & 0xff) << 6u32),
            22,
            0xff,
        ) == x,
        field((x & 0x00ff_ffff) << 6u32, 6, 0x00ff_ffff) == x & 0x00ff_ffff,
        field((x & 0xff) << 22u32, 22, 0xff) == x & 0xff,
        id <= 7 ==> field(id << 8u32, 8, 0x7) == id,
        id <= 7 ==> (id << 8u32) < 0x4000_0000 && (id << 8u32) & (0x1ffffu32 << 13u32) == 0,
{
}


/// Every parameter reads back from its IS-GPS-200 field: a receiver that
/// extracts each field of the five subframes (a split parameter from both of
/// its words) gets the parameter's transmitted bits, every subframe starts
/// with the preamble 0x8b, and each handover word carries its subframe ID.
pub proof fn lemma_subframe_fields_decode(p: SubframeParameters)
    ensures
        ({
            let sf = spec_subframes(p);
            &&& forall|k: int| 0 <= k < 5 ==> field(#[trigger] sf[k][0], 22, 0xff) == 0x8b
            &&& forall|k: int| 0 <= k < 5 ==> field(#[trigger] sf[k][1], 8, 0x7) == k + 1
            // Subframe 1: clock and health.
            &&& field(sf[0][2], 18, 0x3) == p.code_l2 as u32 & 0x3
            &&& field(sf[0][2], 8, 0x3f) == p.svhlth as u32 & 0x3f
            &&& (field(sf[0][2], 6, 0x3) << 8u32) | field(sf[0][7], 22, 0xff) == p.iodc as u32
                & 0x3ff
            &&& field(sf[0][6], 6, 0xff) == p.tgd as u32 & 0xff
            &&& field(sf[0][7], 6, 0xffff) == p.toc & 0xffff
            &&& field(sf[0][8], 22, 0xff) == p.af2 as u32 & 0xff
            &&& field(sf[0][8], 6, 0xffff) == p.af1 as u32 & 0xffff
            &&& field(sf[0][9], 8, 0x003f_ffff) == p.af0 as u32 & 0x003f_ffff
            // Subframe 2: first ephemeris part.
            &&& field(sf[1][2], 22, 0xff) == p.iode as u32 & 0xff
            &&& field(sf[1][2], 6, 0xffff) == p.crs as u32 & 0xffff
            &&& field(sf[1][3], 14, 0xffff) == p.deltan as u32 & 0xffff
            &&& (field(sf[1][3], 6, 0xff) << 24u32) | field(sf[1][4], 6, 0x00ff_ffff) == p.m0 as u32
            &&& field(sf[1][5], 14, 0xffff) == p.cuc as u32 & 0xffff
            &&& (field(sf[1][5], 6, 0xff) << 24u32) | field(sf[1][6], 6, 0x00ff_ffff) == p.ecc
            &&& field(sf[1][7], 14, 0xffff) == p.cus as u32 & 0xffff
            &&& (field(sf[1][7], 6, 0xff) << 24u32) | field(sf[1][8], 6, 0x00ff_ffff) == p.sqrta
            &&& field(sf[1][9], 14, 0xffff) == p.toe & 0xffff
            // Subframe 3: second ephemeris part.
            &&& field(sf[2][2], 14, 0xffff) == p.cic as u32 & 0xffff
            &&& (field(sf[2][2], 6, 0xff) << 24u32) | field(sf[2][3], 6, 0x00ff_ffff) == p.omg0
                as u32
            &&& field(sf[2][4], 14, 0xffff) == p.cis as u32 & 0xffff
            &&& (field(sf[2][4], 6, 0xff) << 24u32) | field(sf[2][5], 6, 0x00ff_ffff) == p.inc0
                as u32
            &&& field(sf[2][6], 14, 0xffff) == p.crc as u32 & 0xffff
            &&& (field(sf[2][6], 6, 0xff) << 24u32) | field(sf[2][7], 6, 0x00ff_ffff) == p.aop as u32
            &&& field(sf[2][8], 6, 0x00ff_ffff) == p.omgdot as u32 & 0x00ff_ffff
            &&& field(sf[2][9], 22, 0xff) == p.iode as u32 & 0xff
            &&& field(sf[2][9], 8, 0x3fff) == p.idot as u32 & 0x3fff
            // Subframe 4: page 18 (ionosphere and UTC) or page 25.
            &&& field(sf[3][2], 28, 0x3) == 1
            &&& p.vflg ==> {
                &&& field(sf[3][2], 22, 0x3f) == 56
                &&& field(sf[3][2], 14, 0xff) == p.alpha[0] as u32 & 0xff
                &&& field(sf[3][2], 6, 0xff) == p.alpha[1] as u32 & 0xff
                &&& field(sf[3][3], 22, 0xff) == p.alpha[2] as u32 & 0xff
                &&& field(sf[3][3], 14, 0xff) == p.alpha[3] as u32 & 0xff
                &&& field(sf[3][3], 6, 0xff) == p.beta[0] as u32 & 0xff
                &&& field(sf[3][4], 22, 0xff) == p.beta[1] as u32 & 0xff
                &&& field(sf[3][4], 14, 0xff) == p.beta[2] as u32 & 0xff
                &&& field(sf[3][4], 6, 0xff) == p.beta[3] as u32 & 0xff
                &&& field(sf[3][5], 6, 0x00ff_ffff) == p.a1 as u32 & 0x00ff_ffff
                &&& (field(sf[3][6], 6, 0x00ff_ffff) << 8u32) | field(sf[3][7], 22, 0xff) == p.a0
                    as u32
                &&& field(sf[3][7], 14, 0xff) == (trunc_div(p.tot as int, 4096) as u32) & 0xff
                &&& field(sf[3][7], 6, 0xff) == (p.week_number as u32) % 256
                &&& field(sf[3][8], 22, 0xff) == p.dtls as u32 & 0xff
                &&& field(sf[3][8], 14, 0xff) == leap_fields(p).0 & 0xff
                &&& field(sf[3][8], 6, 0xff) == leap_fields(p).1 & 0xff
                &&& field(sf[3][9], 22, 0xff) == leap_fields(p).2 & 0xff
            }
            &&& !p.vflg ==> field(sf[3][2], 22, 0x3f) == 63
            // Subframe 5: page 25.
            &&& field(sf[4][2], 28, 0x3) == 1
            &&& field(sf[4][2], 22, 0x3f) == 51
            &&& field(sf[4][2], 14, 0xff) == p.toa & 0xff
            &&& field(sf[4][2], 6, 0xff) == (p.toe_week as u32) % 256
        }),
{
    let sf = spec_subframes(p);
    lemma_subframe1_fields(
        p.code_l2 as u32,
        p.svhlth as u32,
        p.iodc as u32,
        p.tgd as u32,
        p.toc,
        p.af2 as u32,
        p.af1 as u32,
        p.af0 as u32,
    );
    lemma_signed_high_bits(p.m0);
    lemma_signed_high_bits(p.omg0);
    lemma_signed_high_bits(p.inc0);
    lemma_signed_high_bits(p.aop);
    lemma_signed_high_bits(p.a0);
    let iode = p.iode as u32;
    lemma_ephemeris_fields(iode, p.crs as u32, 0, 0);
    lemma_ephemeris_fields(p.deltan as u32, 0, (p.m0 >> 24u32) as u32, p.m0 as u32);
    lemma_ephemeris_fields(p.cuc as u32, 0, p.ecc >> 24u32, p.ecc);
    lemma_ephemeris_fields(p.cus as u32, p.toe, p.sqrta >> 24u32, p.sqrta);
    lemma_ephemeris_fields(p.cic as u32, 0, (p.omg0 >> 24u32) as u32, p.omg0 as u32);
    lemma_ephemeris_fields(p.cis as u32, 0, (p.inc0 >> 24u32) as u32, p.inc0 as u32);
    lemma_ephemeris_fields(p.crc as u32, p.omgdot as u32, (p.aop >> 24u32) as u32, p.aop as u32);
    lemma_ephemeris_fields(iode, p.idot as u32, 0, 0);
    let tot = trunc_div(p.tot as int, 4096) as u32;
    let week_number = week_mod_256(p.week_number);
    let (wnlsf, dn, dtlsf) = leap_fields(p);
    lemma_page_fields(0, p.alpha[0] as u32, p.alpha[1] as u32, 56, 0);
    lemma_page_fields(p.alpha[2] as u32, p.alpha[3] as u32, p.beta[0] as u32, 1, 0);
    lemma_page_fields(p.beta[1] as u32, p.beta[2] as u32, p.beta[3] as u32, 2, 0);
    lemma_page_fields(p.a1 as u32, 0, 0, 3, 0);
    lemma_page_fields(p.a0 as u32, tot, week_number, 4, (p.a0 >> 8u32) as u32);
    lemma_page_fields(p.dtls as u32, wnlsf, dn, 5, 0);
    lemma_page_fields(dtlsf, 0, 0, 63, 0);
    lemma_page_fields(0, p.toa, week_mod_256(p.toe_week), 51, 0);
    lemma_mod_256_is_a_byte(p.week_number as u32);
    lemma_mod_256_is_a_byte(p.toe_week as u32);
    assert(field(sf[0][0], 22, 0xff) == 0x8b);
    assert forall|k: int| 0 <= k < 5 implies field(#[trigger] sf[k][0], 22, 0xff) == 0x8b by {
        assert(sf[k][0] == telemetry_word());
    }
    assert forall|k: int| 0 <= k < 5 implies field(#[trigger] sf[k][1], 8, 0x7) == k + 1 by {
        lemma_page_fields(0, 0, 0, (k + 1) as u32, 0);
    }
}


/// The handover word of every subframe leaves its TOW field (bits 29 to 13)
/// clear for the frame assembler, and so does word 3 of subframe 1 for the
/// week number (bits 29 to 20); both fit 30 bits.
pub proof fn lemma_handover_words_are_clear(p: SubframeParameters)
    ensures
        spec_subframes(p)[0][2] < 0x4000_0000,
        spec_subframes(p)[0][2] & (0x3ffu32 << 20u32) == 0,
        forall|s: int| 0 <= s < 5 ==> #[trigger] spec_subframes(p)[s][1] < 0x4000_0000,
        forall|s: int|
            0 <= s < 5 ==> #[trigger] spec_subframes(p)[s][1] & (0x1ffffu32 << 13u32) == 0,
{
    assert forall|s: int| 0 <= s < 5 implies #[trigger] spec_subframes(p)[s][1] < 0x4000_0000
        && spec_subframes(p)[s][1] & (0x1ffffu32 << 13u32) == 0 by {
        lemma_page_fields(0, 0, 0, (s + 1) as u32, 0);
    }
    lemma_subframe1_fields(
        p.code_l2 as u32,
        p.svhlth as u32,
        p.iodc as u32,
        p.tgd as u32,
        p.toc,
        p.af2 as u32,
        p.af1 as u32,
        p.af0 as u32,
    );
}

} // verus!
