//! LNAV data words: parity encoding of 30-bit navigation words and the
//! assembly of a 30-second frame from its five subframes.
use vstd::prelude::*;

verus! {

/// Number of set bits of a word.
pub open spec fn popcount(x: u32) -> nat
    decreases x,
{
    if x == 0 {
        0
    } else {
        (x % 2) as nat + popcount(x / 2)
    }
}

/// Parity (0 or 1) of the set bits of a word.
pub open spec fn parity(x: u32) -> int {
    popcount(x) as int % 2
}

/// Parity masks of IS-GPS-200 for the parity bits D25 to D30, over the data
/// bits held in bits 29 to 6.
pub open spec fn parity_mask(index: int) -> u32 {
    seq![0x3b1f_3480u32, 0x1d8f_9a40, 0x2ec7_cd00, 0x1763_e680, 0x2bb1_f340, 0x0b7a_89c0][index]
}

/// Bit D29* of the previous word, held in bit 31 of a source word.
pub open spec fn previous_d29(source: u32) -> u32 {
    (source >> 31u32) & 1
}

/// Bit D30* of the previous word, held in bit 30 of a source word.
pub open spec fn previous_d30(source: u32) -> u32 {
    (source >> 30u32) & 1
}

/// The data bits d1 to d24 of a source word; for a word with
/// non-information-bearing bits, bits 23 and 24 are solved so that the
/// parity bits D29 and D30 come out zero.
pub open spec fn solved_data(source: u32, nib: i32) -> u32 {
    let d = source & 0x3fff_ffc0;
    if nib != 0 {
        let first = if (previous_d30(source) + parity(parity_mask(4) & d)) % 2 != 0 {
            d ^ 0x40
        } else {
            d
        };
        if (previous_d29(source) + parity(parity_mask(5) & first)) % 2 != 0 {
            first ^ 0x80
        } else {
            first
        }
    } else {
        d
    }
}

/// Parity bit `index` (0 for D25 to 5 for D30) of a word with data bits `d`.
pub open spec fn parity_bit(source: u32, d: u32, index: int) -> u32 {
    let previous = if index == 0 || index == 2 || index == 5 {
        previous_d29(source)
    } else {
        previous_d30(source)
    };
    ((previous + parity(parity_mask(index) & d)) % 2) as u32
}

/// The transmitted 30-bit word of IS-GPS-200: the data bits, complemented
/// when D30* is set, followed by the six parity bits D25 to D30.
pub open spec fn spec_checksum(source: u32, nib: i32) -> u32 {
    let d = solved_data(source, nib);
    let transmitted = if previous_d30(source) != 0 {
        d ^ 0x3fff_ffc0
    } else {
        d
    };
    (transmitted | (parity_bit(source, d, 0) << 5u32) | (parity_bit(source, d, 1) << 4u32) | (
    parity_bit(source, d, 2) << 3u32) | (parity_bit(source, d, 3) << 2u32) | (parity_bit(
        source,
        d,
        4,
    ) << 1u32) | parity_bit(source, d, 5)) & 0x3fff_ffff
}

/// Returns the parity (0 or 1) of the set bits of `x`.
pub fn parity_of(x: u32) -> (p: u32)
    ensures
        p == parity(x),
{
    let mut rest = x;
    let mut acc: u32 = 0;
    while rest != 0
        invariant
            acc <= 1,
            (acc + popcount(rest)) % 2 == popcount(x) % 2,
        decreases rest,
    {
        acc = (acc + rest % 2) % 2;
        rest = rest / 2;
    }
    acc
}

/// Computes the 6-bit parity of a 30-bit navigation word.
///
/// `source` holds D29* and D30* of the previous word in bits 31 and 30 and
/// the data bits in bits 29 to 6. A nonzero `nib` marks a word whose bits 23
/// and 24 are solved to make D29 and D30 zero (words 2 and 10).
pub fn compute_checksum(source: u32, nib: i32) -> (word: u32)
    ensures
        word == spec_checksum(source, nib),
{
    let masks: [u32; 6] = [0x3b1f_3480, 0x1d8f_9a40, 0x2ec7_cd00, 0x1763_e680, 0x2bb1_f340, 0x0b7a_89c0];
    assert(masks@ =~= seq![0x3b1f_3480u32, 0x1d8f_9a40, 0x2ec7_cd00, 0x1763_e680, 0x2bb1_f340, 0x0b7a_89c0]);
    let mut d: u32 = source & 0x3fff_ffc0;
    let d29: u32 = (source >> 31u32) & 1;
    let d30: u32 = (source >> 30u32) & 1;
    assert(d29 <= 1 && d30 <= 1) by (bit_vector)
        requires d29 == (source >> 31u32) & 1, d30 == (source >> 30u32) & 1;
    if nib != 0 {
        if (d30 + parity_of(masks[4] & d)) % 2 != 0 {
            d = d ^ 0x40;
        }
        if (d29 + parity_of(masks[5] & d)) % 2 != 0 {
            d = d ^ 0x80;
        }
    }
    let mut word = d;
    if d30 != 0 {
        word = word ^ 0x3fff_ffc0;
    }
    word = word | (((d29 + parity_of(masks[0] & d)) % 2) << 5u32);
    word = word | (((d30 + parity_of(masks[1] & d)) % 2) << 4u32);
    word = word | (((d29 + parity_of(masks[2] & d)) % 2) << 3u32);
    word = word | (((d30 + parity_of(masks[3] & d)) % 2) << 2u32);
    word = word | (((d30 + parity_of(masks[4] & d)) % 2) << 1u32);
    word = word | ((d29 + parity_of(masks[5] & d)) % 2);
    word & 0x3fff_ffff
}

/// The parity of an exclusive or is the sum of the parities.
pub proof fn lemma_parity_xor(x: u32, y: u32)
    ensures
        parity(x ^ y) == (parity(x) + parity(y)) % 2,
    decreases x,
{
    let z = x ^ y;
    if x == 0 {
        assert(z == y) by (bit_vector)
            requires x == 0u32, z == x ^ y;
    } else if y == 0 {
        assert(z == x) by (bit_vector)
            requires y == 0u32, z == x ^ y;
    } else if z == 0 {
        assert(x == y) by (bit_vector)
            requires z == 0u32, z == x ^ y;
    } else {
        assert(z % 2 == (x % 2 + y % 2) % 2 && z / 2 == (x / 2) ^ (y / 2)) by (bit_vector)
            requires z == x ^ y;
        lemma_parity_xor(x / 2, y / 2);
    }
}

/// Masking distributes over exclusive or.
proof fn lemma_mask_xor(m: u32, d: u32, e: u32)
    by (bit_vector)
    ensures
        m & (d ^ e) == (m & d) ^ (m & e),
{
}

/// Flipping bit 6 or 7 of the data bits flips the parity of every mask that
/// holds that bit and keeps the others.
proof fn lemma_flip_parity(index: int, d: u32, bit: u32)
    requires
        0 <= index < 6,
        bit == 0x40 || bit == 0x80,
    ensures
        parity(parity_mask(index) & (d ^ bit)) == (parity(parity_mask(index) & d) + parity(
            parity_mask(index) & bit,
        )) % 2,
{
    lemma_mask_xor(parity_mask(index), d, bit);
    lemma_parity_xor(parity_mask(index) & d, parity_mask(index) & bit);
}

/// For a word with non-information-bearing bits, the parity bits D29 and D30
/// are zero.
pub proof fn lemma_nib_word_ends_in_zero_bits(source: u32, nib: i32)
    requires
        nib != 0,
    ensures
        spec_checksum(source, nib) & 3 == 0,
{
    let b4 = parity_mask(4);
    let b5 = parity_mask(5);
    assert(b4 & 0x40 == 0x40 && b5 & 0x40 == 0x40 && b5 & 0x80 == 0x80 && b4 & 0x80 == 0) by (
    bit_vector)
        requires b4 == 0x2bb1_f340u32, b5 == 0x0b7a_89c0u32;
    assert(popcount(0x40) == 1) by {
        reveal_with_fuel(popcount, 8);
    }
    assert(popcount(0x80) == 1) by {
        reveal_with_fuel(popcount, 9);
    }
    let d = source & 0x3fff_ffc0;
    let d29 = previous_d29(source);
    let d30 = previous_d30(source);
    assert(d29 <= 1 && d30 <= 1) by (bit_vector)
        requires d29 == (source >> 31u32) & 1, d30 == (source >> 30u32) & 1;
    let first = if (d30 + parity(b4 & d)) % 2 != 0 {
        d ^ 0x40
    } else {
        d
    };
    lemma_flip_parity(4, d, 0x40);
    assert((d30 + parity(b4 & first)) % 2 == 0);
    let second = solved_data(source, nib);
    lemma_flip_parity(4, first, 0x80);
    lemma_flip_parity(5, first, 0x80);
    assert(popcount(0) == 0);
    assert((d30 + parity(b4 & second)) % 2 == 0);
    assert((d29 + parity(b5 & second)) % 2 == 0);
    assert(parity_bit(source, second, 4) == 0);
    assert(parity_bit(source, second, 5) == 0);
    assert(second & 0x3f == 0) by (bit_vector)
        requires
            d == source & 0x3fff_ffc0,
            first == d || first == d ^ 0x40,
            second == first || second == first ^ 0x80,
    ;
    let transmitted = if d30 != 0 {
        second ^ 0x3fff_ffc0
    } else {
        second
    };
    assert(transmitted & 0x3f == 0) by (bit_vector)
        requires
            second & 0x3f == 0,
            transmitted == second || transmitted == second ^ 0x3fff_ffc0,
    ;
    let p0 = parity_bit(source, second, 0);
    let p1 = parity_bit(source, second, 1);
    let p2 = parity_bit(source, second, 2);
    let p3 = parity_bit(source, second, 3);
    assert(((transmitted | (p0 << 5u32) | (p1 << 4u32) | (p2 << 3u32) | (p3 << 2u32) | (0u32
        << 1u32) | 0u32) & 0x3fff_ffff) & 3 == 0) by (bit_vector)
        requires
            transmitted & 0x3f == 0,
            p0 <= 1,
            p1 <= 1,
            p2 <= 1,
            p3 <= 1,
    ;
}

/// The data bits a receiver recovers from a transmitted word: bits 29 to 6,
/// complemented when the previous word ended with D30* set.
pub open spec fn recovered_data(word: u32, previous_d30_bit: u32) -> u32 {
    if previous_d30_bit != 0 {
        (word & 0x3fff_ffc0) ^ 0x3fff_ffc0
    } else {
        word & 0x3fff_ffc0
    }
}

/// Parity bit `index` (0 for D25 to 5 for D30) as transmitted in a word.
pub open spec fn transmitted_parity_bit(word: u32, index: int) -> u32 {
    (word >> ((5 - index) as u32)) & 1
}

/// An encoded word passes the IS-GPS-200 parity check: a receiver that
/// knows D29* and D30* recovers exactly the (solved) data bits, and every
/// transmitted parity bit equals its parity equation over them.
pub proof fn lemma_checksum_passes_parity_check(source: u32, nib: i32)
    ensures
        ({
            let word = spec_checksum(source, nib);
            let d = recovered_data(word, previous_d30(source));
            &&& word < 0x4000_0000
            &&& d == solved_data(source, nib)
            &&& forall|index: int| 0 <= index < 6 ==> #[trigger] transmitted_parity_bit(word, index)
                == parity_bit(source, d, index)
        }),
{
    let d = solved_data(source, nib);
    let base = source & 0x3fff_ffc0;
    let d30 = previous_d30(source);
    assert(d30 <= 1) by (bit_vector)
        requires d30 == (source >> 30u32) & 1;
    assert(d & 0xc000_003f == 0) by (bit_vector)
        requires
            base == source & 0x3fff_ffc0,
            d == base || d == base ^ 0x40 || d == base ^ 0x80 || d == (base ^ 0x40) ^ 0x80,
    ;
    let transmitted = if d30 != 0 {
        d ^ 0x3fff_ffc0
    } else {
        d
    };
    let p0 = parity_bit(source, d, 0);
    let p1 = parity_bit(source, d, 1);
    let p2 = parity_bit(source, d, 2);
    let p3 = parity_bit(source, d, 3);
    let p4 = parity_bit(source, d, 4);
    let p5 = parity_bit(source, d, 5);
    let word = spec_checksum(source, nib);
    assert(word == (transmitted | (p0 << 5u32) | (p1 << 4u32) | (p2 << 3u32) | (p3 << 2u32) | (p4
        << 1u32) | p5) & 0x3fff_ffff);
    assert({
        &&& word < 0x4000_0000
        &&& (if d30 != 0 {
            (word & 0x3fff_ffc0) ^ 0x3fff_ffc0
        } else {
            word & 0x3fff_ffc0
        }) == d
        &&& (word >> 5u32) & 1 == p0
        &&& (word >> 4u32) & 1 == p1
        &&& (word >> 3u32) & 1 == p2
        &&& (word >> 2u32) & 1 == p3
        &&& (word >> 1u32) & 1 == p4
        &&& (word >> 0u32) & 1 == p5
    }) by (bit_vector)
        requires
            d & 0xc000_003f == 0,
            d30 <= 1,
            transmitted == (if d30 != 0 {
                d ^ 0x3fff_ffc0
            } else {
                d
            }),
            p0 <= 1,
            p1 <= 1,
            p2 <= 1,
            p3 <= 1,
            p4 <= 1,
            p5 <= 1,
            word == (transmitted | (p0 << 5u32) | (p1 << 4u32) | (p2 << 3u32) | (p3 << 2u32) | (p4
                << 1u32) | p5) & 0x3fff_ffff,
    ;
    assert forall|index: int| 0 <= index < 6 implies #[trigger] transmitted_parity_bit(word, index)
        == parity_bit(source, d, index) by {
        if index == 0 {
        } else if index == 1 {
        } else if index == 2 {
        } else if index == 3 {
        } else if index == 4 {
        } else {
        }
    }
}

/// The 10-bit transmitted week number: the full week modulo 1024.
pub open spec fn week_field(week: i32) -> u32 {
    (week as u32) % 1024
}

/// Whether word `index` of a subframe carries non-information-bearing bits
/// (words 2 and 10).
pub open spec fn nib_flag(index: int) -> i32 {
    if index % 10 == 1 || index % 10 == 9 {
        1
    } else {
        0
    }
}

/// A source word with D29* and D30* of the previous transmitted word in bits
/// 31 and 30.
pub open spec fn with_previous(word: u32, previous: u32) -> u32 {
    word | ((previous << 30u32) & 0xc000_0000)
}

/// The transmitted words of consecutive raw subframe words, each encoded with
/// the last two bits of the word before it; `previous` precedes the first.
pub open spec fn chained(raws: Seq<u32>, previous: u32) -> Seq<u32>
    decreases raws.len(),
{
    if raws.len() == 0 {
        Seq::empty()
    } else {
        let head = chained(raws.drop_last(), previous);
        let before = if head.len() == 0 {
            previous
        } else {
            head.last()
        };
        head.push(spec_checksum(with_previous(raws.last(), before), nib_flag(raws.len() - 1)))
    }
}

/// The TOW count `offset` subframes after `tow`, wrapping at 32 bits.
pub open spec fn tow_after(tow: u32, offset: int) -> u32 {
    ((tow + offset) % 0x1_0000_0000) as u32
}

/// Raw word `index` (0 to 49) of a frame: the subframe word, with the
/// transmission week in word 3 of subframe 1 and the TOW count of the next
/// subframe in each handover word.
pub open spec fn frame_raw(subframes: [[u32; 10]; 5], week: i32, tow: u32, index: int) -> u32 {
    let subframe = index / 10;
    let word_index = index % 10;
    let word = subframes@[subframe]@[word_index];
    let with_week = if subframe == 0 && word_index == 2 {
        word | ((week_field(week) & 0x3ff) << 20u32)
    } else {
        word
    };
    if word_index == 1 {
        with_week | ((tow_after(tow, subframe + 1) & 0x1ffff) << 13u32)
    } else {
        with_week
    }
}

/// Raw word `index` (0 to 9) of the leading copy of subframe 5, which carries
/// the TOW count of the frame start.
pub open spec fn leading_raw(subframes: [[u32; 10]; 5], tow: u32, index: int) -> u32 {
    let word = subframes@[4]@[index];
    if index == 1 {
        word | ((tow & 0x1ffff) << 13u32)
    } else {
        word
    }
}

/// Appending a raw word encodes it with the previous transmitted word.
proof fn lemma_chained_push(raws: Seq<u32>, word: u32, previous: u32)
    ensures
        chained(raws.push(word), previous) == chained(raws, previous).push(
            spec_checksum(
                with_previous(
                    word,
                    if raws.len() == 0 {
                        previous
                    } else {
                        chained(raws, previous).last()
                    },
                ),
                nib_flag(raws.len() as int),
            ),
        ),
        chained(raws, previous).len() == raws.len(),
    decreases raws.len(),
{
    assert(raws.push(word).drop_last() =~= raws);
    if raws.len() > 0 {
        lemma_chained_push(raws.drop_last(), raws.last(), previous);
        assert(raws.drop_last().push(raws.last()) =~= raws);
    }
}

/// Whether `after` holds the data words generated for one frame from
/// `before`: with `init`, words 0 to 9 encode the leading subframe 5 from a
/// zero seed; otherwise they are words 50 to 59 of `before`. Words 10 to 59
/// encode the frame, chained on word 9.
pub open spec fn generated_frame(
    subframes: [[u32; 10]; 5],
    week: i32,
    frame_seconds: u32,
    init: bool,
    before: Seq<u32>,
    after: Seq<u32>,
) -> bool {
    let tow = frame_seconds / 6;
    let leading = Seq::new(10, |k: int| leading_raw(subframes, tow, k));
    let frame = Seq::new(50, |k: int| frame_raw(subframes, week, tow, k));
    &&& init ==> after.take(10) == chained(leading, 0)
    &&& !init ==> after.take(10) == before.subrange(50, 60)
    &&& after.skip(10) == chained(frame, after[9])
}

/// Every word of an encoded chain fits 30 bits, and every word with
/// non-information-bearing bits (words 2 and 10 of a subframe) ends in two
/// zero bits.
pub proof fn lemma_chained_words_are_data_words(raws: Seq<u32>, previous: u32)
    ensures
        chained(raws, previous).len() == raws.len(),
        forall|k: int| 0 <= k < raws.len() ==> #[trigger] chained(raws, previous)[k] < 0x4000_0000,
        forall|k: int|
            0 <= k < raws.len() && nib_flag(k) != 0 ==> #[trigger] chained(raws, previous)[k] & 3
                == 0,
    decreases raws.len(),
{
    if raws.len() > 0 {
        let front = raws.drop_last();
        lemma_chained_words_are_data_words(front, previous);
        let head = chained(front, previous);
        let before = if head.len() == 0 {
            previous
        } else {
            head.last()
        };
        let source = with_previous(raws.last(), before);
        let nib = nib_flag(raws.len() - 1);
        lemma_checksum_passes_parity_check(source, nib);
        if nib != 0 {
            lemma_nib_word_ends_in_zero_bits(source, nib);
        }
    }
}

/// After a frame is generated, every word it encoded fits 30 bits and words
/// 2 and 10 of every subframe end in two zero bits; without `init`, words 0 to
/// 9 are the previous frame's subframe 5 unchanged.
pub proof fn lemma_generated_frame_words(
    subframes: [[u32; 10]; 5],
    week: i32,
    frame_seconds: u32,
    init: bool,
    before: Seq<u32>,
    after: Seq<u32>,
)
    requires
        before.len() == 60,
        after.len() == 60,
        generated_frame(subframes, week, frame_seconds, init, before, after),
    ensures
        forall|i: int| 10 <= i < 60 ==> #[trigger] after[i] < 0x4000_0000,
        forall|i: int| 10 <= i < 60 && (i % 10 == 1 || i % 10 == 9) ==> #[trigger] after[i] & 3 == 0,
        init ==> forall|i: int| 0 <= i < 10 ==> #[trigger] after[i] < 0x4000_0000,
        init ==> forall|i: int| 0 <= i < 10 && (i % 10 == 1 || i % 10 == 9) ==> #[trigger] after[i] & 3 == 0,
        !init ==> forall|i: int| 0 <= i < 10 ==> #[trigger] after[i] == before[50 + i],
{
    let tow = frame_seconds / 6;
    let leading = Seq::new(10, |k: int| leading_raw(subframes, tow, k));
    let frame = Seq::new(50, |k: int| frame_raw(subframes, week, tow, k));
    lemma_chained_words_are_data_words(frame, after[9]);
    assert forall|i: int| 10 <= i < 60 implies #[trigger] after[i] < 0x4000_0000 && ((i % 10 == 1
        || i % 10 == 9) ==> after[i] & 3 == 0) by {
        assert(after[i] == after.skip(10)[i - 10]);
        assert(nib_flag(i - 10) == nib_flag(i));
        assert(chained(frame, after[9])[i - 10] < 0x4000_0000);
        if i % 10 == 1 || i % 10 == 9 {
            assert(chained(frame, after[9])[i - 10] & 3 == 0);
        }
    }
    if init {
        lemma_chained_words_are_data_words(leading, 0);
        assert forall|i: int| 0 <= i < 10 implies #[trigger] after[i] < 0x4000_0000 && ((i % 10
            == 1 || i % 10 == 9) ==> after[i] & 3 == 0) by {
            assert(after[i] == after.take(10)[i]);
            assert(chained(leading, 0)[i] < 0x4000_0000);
            if i % 10 == 1 || i % 10 == 9 {
                assert(chained(leading, 0)[i] & 3 == 0);
            }
        }
    } else {
        assert forall|i: int| 0 <= i < 10 implies #[trigger] after[i] == before[50 + i] by {
            assert(after[i] == after.take(10)[i]);
            assert(before.subrange(50, 60)[i] == before[50 + i]);
        }
    }
}

/// Word `k` of an encoded chain is the raw word `k` encoded with the word
/// before it, or with `previous` for the first word.
pub proof fn lemma_chained_index(raws: Seq<u32>, previous: u32, k: int)
    requires
        0 <= k < raws.len(),
    ensures
        chained(raws, previous).len() == raws.len(),
        chained(raws, previous)[k] == spec_checksum(
            with_previous(
                raws[k],
                if k == 0 {
                    previous
                } else {
                    chained(raws, previous)[k - 1]
                },
            ),
            nib_flag(k),
        ),
    decreases raws.len(),
{
    lemma_chained_words_are_data_words(raws, previous);
    let front = raws.drop_last();
    lemma_chained_words_are_data_words(front, previous);
    if k < raws.len() - 1 {
        lemma_chained_index(front, previous, k);
        if k > 0 {
            assert(chained(raws, previous)[k - 1] == chained(front, previous)[k - 1]);
        }
    }
}

/// The TOW count of a handover word: bits 29 to 13 of its data.
pub open spec fn tow_field(data: u32) -> u32 {
    (data >> 13u32) & 0x1ffff
}

/// How a TOW count inserted into a handover word survives encoding: the
/// previous word's D30 becomes D30*, and every form of the solved data keeps
/// bits 29 to 13.
proof fn lemma_handover_bits(word: u32, tow: u32, before: u32)
    by (bit_vector)
    requires
        word < 0x4000_0000,
        word & (0x1ffffu32 << 13u32) == 0,
    ensures
        ((((word | ((tow & 0x1ffff) << 13u32)) | ((before << 30u32) & 0xc000_0000)) >> 30u32) & 1)
            == before & 1,
        tow_field(((word | ((tow & 0x1ffff) << 13u32)) | ((before << 30u32) & 0xc000_0000)) & 0x3fff_ffc0) == tow & 0x1ffff,
        tow_field((((word | ((tow & 0x1ffff) << 13u32)) | ((before << 30u32) & 0xc000_0000)) & 0x3fff_ffc0) ^ 0x40) == tow & 0x1ffff,
        tow_field((((word | ((tow & 0x1ffff) << 13u32)) | ((before << 30u32) & 0xc000_0000)) & 0x3fff_ffc0) ^ 0x80) == tow & 0x1ffff,
        tow_field(((((word | ((tow & 0x1ffff) << 13u32)) | ((before << 30u32) & 0xc000_0000)) & 0x3fff_ffc0) ^ 0x40) ^ 0x80) == tow & 0x1ffff,
        tow & 0x1ffff == tow % 0x20000,
{
}

/// A handover word whose TOW field is clear, once the TOW count is inserted
/// and the word is encoded after `before`, gives back that count to a
/// receiver that knows D30 of `before`.
proof fn lemma_encoded_handover_word(word: u32, tow: u32, before: u32)
    requires
        word < 0x4000_0000,
        word & (0x1ffffu32 << 13u32) == 0,
    ensures
        tow_field(
            recovered_data(
                spec_checksum(with_previous(word | ((tow & 0x1ffff) << 13u32), before), 1),
                before & 1,
            ),
        ) == tow % 0x20000,
{
    let source = with_previous(word | ((tow & 0x1ffff) << 13u32), before);
    lemma_handover_bits(word, tow, before);
    lemma_checksum_passes_parity_check(source, 1);
    assert(previous_d30(source) == before & 1);
}

/// Every handover word of a generated frame carries its TOW count: a
/// receiver decoding the word with D30 of the word before reads the count
/// of the frame start (`frame_seconds / 6`) in the leading subframe 5 and
/// that count plus `s` in subframe `s` (1 to 5), modulo 2^17; for a frame
/// start on a 6-second boundary of the week, six times the leading count is
/// the frame start itself.
pub proof fn lemma_handover_words_carry_tow(
    subframes: [[u32; 10]; 5],
    week: i32,
    frame_seconds: u32,
    init: bool,
    before: Seq<u32>,
    after: Seq<u32>,
)
    requires
        before.len() == 60,
        after.len() == 60,
        generated_frame(subframes, week, frame_seconds, init, before, after),
        forall|s: int| 0 <= s < 5 ==> #[trigger] subframes@[s]@[1] < 0x4000_0000,
        forall|s: int| 0 <= s < 5 ==> #[trigger] subframes@[s]@[1] & (0x1ffffu32 << 13u32) == 0,
    ensures
        init ==> tow_field(recovered_data(after[1], after[0] & 1)) == (frame_seconds / 6) % 0x20000,
        init && frame_seconds < 604800 && frame_seconds % 6 == 0 ==> tow_field(
            recovered_data(after[1], after[0] & 1),
        ) * 6 == frame_seconds,
        forall|s: int|
            0 <= s < 5 ==> tow_field(
                recovered_data(#[trigger] after[10 * s + 11], after[10 * s + 10] & 1),
            ) == (frame_seconds / 6 + s + 1) % 0x20000,
{
    let tow = frame_seconds / 6;
    let leading = Seq::new(10, |k: int| leading_raw(subframes, tow, k));
    let frame = Seq::new(50, |k: int| frame_raw(subframes, week, tow, k));
    if init {
        lemma_chained_index(leading, 0, 1);
        assert(after[1] == after.take(10)[1]);
        assert(after[0] == after.take(10)[0]);
        lemma_encoded_handover_word(subframes@[4]@[1], tow, after[0]);
    }
    assert forall|s: int|
        0 <= s < 5 implies tow_field(
        recovered_data(#[trigger] after[10 * s + 11], after[10 * s + 10] & 1),
    ) == (frame_seconds / 6 + s + 1) % 0x20000 by {
        let k = 10 * s + 1;
        lemma_chained_index(frame, after[9], k);
        assert(after[10 * s + 11] == after.skip(10)[k]);
        assert(after[10 * s + 10] == after.skip(10)[k - 1]);
        assert(k / 10 == s && k % 10 == 1);
        let count = tow_after(tow, s + 1);
        assert(count == tow + s + 1);
        assert(frame[k] == subframes@[s]@[1] | ((count & 0x1ffff) << 13u32));
        lemma_encoded_handover_word(subframes@[s]@[1], count, after[10 * s + 10]);
    }
}

/// How a week number inserted into word 3 of subframe 1 survives encoding.
proof fn lemma_week_word_bits(word: u32, wn: u32, before: u32, week: u32)
    by (bit_vector)
    requires
        word < 0x4000_0000,
        word & (0x3ffu32 << 20u32) == 0,
    ensures
        ((((word | ((wn & 0x3ff) << 20u32)) | ((before << 30u32) & 0xc000_0000)) >> 30u32) & 1) == before & 1,
        ((((word | ((wn & 0x3ff) << 20u32)) | ((before << 30u32) & 0xc000_0000)) & 0x3fff_ffc0) >> 20u32) & 0x3ff == wn & 0x3ff,
        (week % 1024) & 0x3ff == week % 1024,
{
}

/// Word 3 of subframe 1 of a generated frame carries the transmitted week
/// number: a receiver decoding it with D30 of the word before reads the full
/// week modulo 1024 in bits 29 to 20.
pub proof fn lemma_frame_carries_week(
    subframes: [[u32; 10]; 5],
    week: i32,
    frame_seconds: u32,
    init: bool,
    before: Seq<u32>,
    after: Seq<u32>,
)
    requires
        before.len() == 60,
        after.len() == 60,
        generated_frame(subframes, week, frame_seconds, init, before, after),
        subframes@[0]@[2] < 0x4000_0000,
        subframes@[0]@[2] & (0x3ffu32 << 20u32) == 0,
    ensures
        (recovered_data(after[12], after[11] & 1) >> 20u32) & 0x3ff == (week as u32) % 1024,
{
    let tow = frame_seconds / 6;
    let frame = Seq::new(50, |k: int| frame_raw(subframes, week, tow, k));
    lemma_chained_index(frame, after[9], 2);
    assert(after[12] == after.skip(10)[2]);
    assert(after[11] == after.skip(10)[1]);
    let word = subframes@[0]@[2];
    let wn = week_field(week);
    lemma_week_word_bits(word, wn, after[11], week as u32);
    let source = with_previous(word | ((wn & 0x3ff) << 20u32), after[11]);
    assert(frame[2] == word | ((wn & 0x3ff) << 20u32));
    lemma_checksum_passes_parity_check(source, 0);
    assert(previous_d30(source) == after[11] & 1);
}

/// Generates the data words of one 30-second frame.
///
/// `frame_seconds` is the whole second of the week at the frame start and
/// `week` the full GPS week. Words 10 to 59 are subframes 1 to 5 with the week
/// number and TOW counts inserted and parity computed. With `init`, words 0
/// to 9 are subframe 5 carrying the frame-start TOW count; otherwise they are
/// the previous frame's subframe 5, and its last word seeds the parity chain.
#[verifier::spinoff_prover]
#[verifier::rlimit(40)]
pub fn generate_nav_msg(
    subframes: &[[u32; 10]; 5],
    data_words: &mut [u32; 60],
    week: i32,
    frame_seconds: u32,
    init: bool,
)
    ensures
        generated_frame(*subframes, week, frame_seconds, init, old(data_words)@, final(data_words)@),
{
    let wn: u32 = (week as u32) % 1024;
    let tow: u32 = frame_seconds / 6;
    let ghost leading = Seq::new(10, |k: int| leading_raw(*subframes, tow, k));
    let ghost frame = Seq::new(50, |k: int| frame_raw(*subframes, week, tow, k));
    let ghost old_words = data_words@;
    let mut previous: u32 = 0;
    if init {
        let mut index: usize = 0;
        assert(leading.take(0) =~= Seq::<u32>::empty());
        while index < 10
            invariant
                index <= 10,
                tow == frame_seconds / 6,
                leading == Seq::new(10, |k: int| leading_raw(*subframes, tow, k)),
                data_words@.take(index as int) == chained(leading.take(index as int), 0),
                index > 0 ==> previous == data_words@[index - 1],
                index == 0 ==> previous == 0,
            decreases 10 - index,
        {
            let mut word = subframes[4][index];
            if index == 1 {
                word = word | ((tow & 0x1ffff) << 13u32);
            }
            assert(word == leading[index as int]);
            let source = word | ((previous << 30u32) & 0xc000_0000);
            let nib: i32 = if index == 1 || index == 9 {
                1
            } else {
                0
            };
            let ghost before = data_words@;
            data_words[index] = compute_checksum(source, nib);
            proof {
                lemma_chained_push(leading.take(index as int), word, 0);
                assert(leading.take(index as int).push(word) =~= leading.take(index + 1));
                assert(data_words@.take(index + 1) =~= before.take(index as int).push(
                    data_words@[index as int],
                ));
            }
            previous = data_words[index];
            index = index + 1;
        }
        assert(leading.take(10) =~= leading);
    } else {
        let mut index: usize = 0;
        while index < 10
            invariant
                index <= 10,
                old_words.len() == 60,
                data_words@.subrange(50, 60) == old_words.subrange(50, 60),
                data_words@.take(index as int) == old_words.subrange(50, 50 + index),
            decreases 10 - index,
        {
            let ghost before = data_words@;
            assert(before[50 + index] == before.subrange(50, 60)[index as int]);
            assert(old_words[50 + index] == old_words.subrange(50, 60)[index as int]);
            data_words[index] = data_words[50 + index];
            assert(data_words@.take(index + 1) =~= before.take(index as int).push(
                old_words[50 + index],
            ));
            assert(data_words@.subrange(50, 60) =~= before.subrange(50, 60));
            index = index + 1;
        }
        previous = data_words[9];
        assert(data_words@.take(10) =~= old_words.subrange(50, 60));
    }
    let ghost head = data_words@.take(10);
    let ghost seed = previous;
    let mut index: usize = 0;
    assert(frame.take(0) =~= Seq::<u32>::empty());
    while index < 50
        invariant
            index <= 50,
            tow == frame_seconds / 6,
            wn == week_field(week),
            frame == Seq::new(50, |k: int| frame_raw(*subframes, week, tow, k)),
            data_words@.take(10) == head,
            seed == head[9],
            data_words@.subrange(10, 10 + index) == chained(frame.take(index as int), seed),
            index > 0 ==> previous == data_words@[10 + index - 1],
            index == 0 ==> previous == seed,
        decreases 50 - index,
    {
        let subframe = index / 10;
        let word_index = index % 10;
        let mut word = subframes[subframe][word_index];
        if subframe == 0 && word_index == 2 {
            word = word | ((wn & 0x3ff) << 20u32);
        }
        if word_index == 1 {
            let count = tow.wrapping_add((subframe + 1) as u32);
            word = word | ((count & 0x1ffff) << 13u32);
        }
        assert(word == frame[index as int]);
        let source = word | ((previous << 30u32) & 0xc000_0000);
        let nib: i32 = if word_index == 1 || word_index == 9 {
            1
        } else {
            0
        };
        let ghost before = data_words@;
        data_words[10 + index] = compute_checksum(source, nib);
        proof {
            lemma_chained_push(frame.take(index as int), word, seed);
            assert(frame.take(index as int).push(word) =~= frame.take(index + 1));
            assert(data_words@.subrange(10, 10 + index + 1) =~= before.subrange(
                10,
                10 + index,
            ).push(data_words@[10 + index]));
            assert(data_words@.take(10) =~= before.take(10));
        }
        previous = data_words[10 + index];
        index = index + 1;
    }
    assert(data_words@.skip(10) =~= data_words@.subrange(10, 60));
    assert(frame.take(50) =~= frame);
}

} // verus!
