//! Integer state a channel advances per sample: the navigation-message cursor
//! (code epochs, data bits, words), the current data bit, the fixed-point
//! carrier phase and the quantized I/Q output.
use vstd::prelude::*;

use crate::calendar::trunc_div;

verus! {

/// Number of effective bits of the fixed-point carrier phase accumulator.
pub const CARRIER_PHASE_BITS: u32 = 25;

/// Mask that keeps the carrier accumulator modulo one cycle.
pub const CARRIER_PHASE_MASK: u32 = 0x01ff_ffff;

/// Position in the navigation message: word (600 ms), bit within the word
/// (20 ms) and C/A code epoch within the bit (1 ms).
#[derive(Clone, Copy, Debug, PartialEq, Eq, Structural)]
pub struct NavigationCursor {
    /// Word index in the navigation message.
    pub word_index: i32,
    /// Bit index within the word, `0..30`.
    pub bit_index: i32,
    /// Code epoch within the bit, `0..20`.
    pub code_epoch_index: i32,
}

/// The cursor after `milliseconds` of the message: whole words of 600 ms,
/// then whole bits of 20 ms, then the remaining code epochs (each division
/// truncating toward zero).
pub open spec fn spec_cursor_at(milliseconds: int) -> NavigationCursor {
    let word = trunc_div(milliseconds, 600);
    let within_word = milliseconds - word * 600;
    let bit = trunc_div(within_word, 20);
    NavigationCursor {
        word_index: word as i32,
        bit_index: bit as i32,
        code_epoch_index: (within_word - bit * 20) as i32,
    }
}

/// The milliseconds from the message start of a cursor.
pub open spec fn cursor_milliseconds(cursor: NavigationCursor) -> int {
    cursor.word_index * 600 + cursor.bit_index * 20 + cursor.code_epoch_index
}

impl NavigationCursor {
    /// The cursor `milliseconds` into the navigation message.
    pub fn at_milliseconds(milliseconds: i32) -> (cursor: Self)
        ensures
            cursor == spec_cursor_at(milliseconds as int),
            milliseconds >= 0 ==> 0 <= cursor.bit_index < 30 && 0 <= cursor.code_epoch_index < 20
                && cursor.word_index >= 0,
            cursor_milliseconds(cursor) == milliseconds,
    {
        let word_index = milliseconds / 600;
        assert(word_index == trunc_div(milliseconds as int, 600));
        let within_word = milliseconds - word_index * 600;
        let bit_index = within_word / 20;
        assert(bit_index == trunc_div(within_word as int, 20));
        NavigationCursor { word_index, bit_index, code_epoch_index: within_word - bit_index * 20 }
    }

    /// Advances by one C/A code epoch; returns whether a new data bit
    /// begins, after 20 epochs. Every 30 bits the word index advances.
    pub fn advance_code_epoch(&mut self) -> (new_bit: bool)
        requires
            old(self).word_index < i32::MAX,
            old(self).bit_index < i32::MAX,
            old(self).code_epoch_index < i32::MAX,
        ensures
            new_bit == (old(self).code_epoch_index + 1 >= 20),
            !new_bit ==> *final(self) == (NavigationCursor {
                code_epoch_index: (old(self).code_epoch_index + 1) as i32,
                ..*old(self)
            }),
            new_bit && old(self).bit_index + 1 < 30 ==> *final(self) == (NavigationCursor {
                word_index: old(self).word_index,
                bit_index: (old(self).bit_index + 1) as i32,
                code_epoch_index: 0,
            }),
            new_bit && old(self).bit_index + 1 >= 30 ==> *final(self) == (NavigationCursor {
                word_index: (old(self).word_index + 1) as i32,
                bit_index: 0,
                code_epoch_index: 0,
            }),
    {
        self.code_epoch_index = self.code_epoch_index + 1;
        if self.code_epoch_index >= 20 {
            self.code_epoch_index = 0;
            self.bit_index = self.bit_index + 1;
            if self.bit_index >= 30 {
                self.bit_index = 0;
                self.word_index = self.word_index + 1;
            }
            true
        } else {
            false
        }
    }
}

/// A cursor inside a 60-word message with its bit and epoch in range.
pub open spec fn cursor_in_message(cursor: NavigationCursor) -> bool {
    &&& 0 <= cursor.word_index < 60
    &&& 0 <= cursor.bit_index < 30
    &&& 0 <= cursor.code_epoch_index < 20
}

/// Advancing one code epoch moves the cursor one millisecond on.
pub proof fn lemma_advance_is_one_millisecond(before: NavigationCursor, after: NavigationCursor)
    requires
        0 <= before.bit_index < 30,
        0 <= before.code_epoch_index < 20,
        before.code_epoch_index + 1 < 20 ==> after == (NavigationCursor {
            code_epoch_index: (before.code_epoch_index + 1) as i32,
            ..before
        }),
        before.code_epoch_index + 1 >= 20 && before.bit_index + 1 < 30 ==> after == (NavigationCursor {
            word_index: before.word_index,
            bit_index: (before.bit_index + 1) as i32,
            code_epoch_index: 0,
        }),
        before.code_epoch_index + 1 >= 20 && before.bit_index + 1 >= 30 ==> after == (NavigationCursor {
            word_index: (before.word_index + 1) as i32,
            bit_index: 0,
            code_epoch_index: 0,
        }),
        before.word_index < i32::MAX,
    ensures
        cursor_milliseconds(after) == cursor_milliseconds(before) + 1,
        0 <= after.bit_index < 30,
        0 <= after.code_epoch_index < 20,
{
}

/// The navigation data bit at a cursor, as -1 or +1: bit `29 - bit_index`
/// (counting from the least significant bit) of the cursor's word.
pub open spec fn spec_data_bit(data_words: Seq<u32>, cursor: NavigationCursor) -> i32 {
    if (data_words[cursor.word_index as int] >> ((29 - cursor.bit_index) as u32)) & 1 == 1 {
        1i32
    } else {
        -1i32
    }
}

/// Returns the navigation data bit at a cursor, as -1 or +1.
pub fn data_bit(data_words: &[u32; 60], cursor: &NavigationCursor) -> (bit: i32)
    requires
        0 <= cursor.word_index < 60,
        0 <= cursor.bit_index < 30,
    ensures
        bit == spec_data_bit(data_words@, *cursor),
{
    let word = data_words[cursor.word_index as usize];
    let shift = (29 - cursor.bit_index) as u32;
    let raw = (word >> shift) & 1;
    assert(raw <= 1) by (bit_vector)
        requires raw == (word >> shift) & 1;
    (raw as i32) * 2 - 1
}

/// Advances the carrier phase accumulator by a signed step, modulo one
/// cycle of 2^25 counts.
pub fn advance_carrier_phase(phase: u32, step: i32) -> (next: u32)
    ensures
        next == (phase as int + step as int) % 0x0200_0000,
        next <= CARRIER_PHASE_MASK,
{
    let total: i64 = phase as i64 + step as i64;
    let remainder = total % 0x0200_0000;
    let next = if remainder < 0 {
        remainder + 0x0200_0000
    } else {
        remainder
    };
    next as u32
}

/// The 9-bit sine/cosine table index of a carrier phase: its top nine of 25
/// bits.
pub fn carrier_table_index(phase: u32) -> (index: usize)
    requires
        phase <= CARRIER_PHASE_MASK,
    ensures
        index == phase / 0x1_0000,
        index < 512,
{
    let index = (phase >> 16u32) & 0x1ff;
    assert(index == phase / 0x1_0000 && index < 512) by (bit_vector)
        requires index == (phase >> 16u32) & 0x1ff, phase <= 0x01ff_ffffu32;
    index as usize
}

/// Quantizes an accumulated I or Q value scaled by 2^7 back to a sample:
/// adds half a step, divides by 128 rounding toward negative infinity, and
/// keeps the low 16 bits.
pub fn quantize_sample(accumulated: i32) -> (sample: i16)
    requires
        accumulated <= i32::MAX - 64,
    ensures
        sample == (((accumulated + 64) as int) / 128) as i16,
{
    let sum = accumulated + 64;
    let quotient = sum / 128;
    let remainder = sum % 128;
    let floor = if remainder < 0 {
        quotient - 1
    } else {
        quotient
    };
    floor as i16
}

} // verus!
