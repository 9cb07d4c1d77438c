//! Packing of interleaved `i16` I/Q samples into the output sample formats.
//!
//! One-bit output keeps only the sign decision of every scalar sample and
//! packs eight decisions per byte, most significant bit first; eight-bit
//! output keeps the high byte of a 12-bit sample; sixteen-bit output keeps
//! the samples in native byte order.
use vstd::prelude::*;

use crate::error::Error;
use crate::sizing::{IqBlockSizing, MAX_INTERLEAVED_BYTES};

verus! {

/// The one-bit decision of a sample: set exactly for positive samples.
pub open spec fn decision(sample: i16) -> bool {
    sample > 0
}

/// The one-bit decisions of a sample sequence, in order.
pub open spec fn decisions(samples: Seq<i16>) -> Seq<bool> {
    samples.map_values(|sample: i16| decision(sample))
}

/// Bit `position` of `byte`, counted from the most significant bit.
pub open spec fn bit_at(byte: u8, position: int) -> bool {
    (byte >> ((7 - position) as u8)) & 1u8 == 1u8
}

/// The byte whose leading bits are `bits`, most significant first, and whose
/// remaining low-order bits are zero.
pub open spec fn byte_from_bits(bits: Seq<bool>) -> u8
    decreases bits.len(),
{
    if bits.len() == 0 {
        0u8
    } else {
        byte_from_bits(bits.drop_last()) | ((if bits.last() {
            1u8
        } else {
            0u8
        }) << ((8 - bits.len()) as u8))
    }
}

/// The complete bytes of a decision sequence: every group of eight decisions,
/// most significant bit first; a trailing partial group is left out.
pub open spec fn pack_bits(bits: Seq<bool>) -> Seq<u8> {
    Seq::new(bits.len() / 8, |j: int| byte_from_bits(bits.subrange(8 * j, 8 * j + 8)))
}

/// The decisions after the last complete byte.
pub open spec fn unpacked_rest(bits: Seq<bool>) -> Seq<bool> {
    bits.skip(8 * (bits.len() / 8) as int)
}

/// The completed one-bit stream of a decision sequence: its complete bytes and,
/// if decisions remain, one final byte with zero low-order padding.
pub open spec fn padded_pack(bits: Seq<bool>) -> Seq<u8> {
    pack_bits(bits) + if unpacked_rest(bits).len() > 0 {
        seq![byte_from_bits(unpacked_rest(bits))]
    } else {
        Seq::<u8>::empty()
    }
}

/// The signed 8-bit sample of a 16-bit sample: arithmetic shift right by four,
/// kept as the two's-complement byte.
pub open spec fn sc8_byte(sample: i16) -> u8 {
    ((sample as i32) >> 4u32) as u8
}

/// Setting bit `k` of a byte changes that bit alone.
proof fn lemma_set_bit(byte: u8, k: u8, d: u8, i: u8)
    by (bit_vector)
    requires
        k < 8,
        i < 8,
        d <= 1,
        (byte >> ((7 - k) as u8)) & 1 != 1,
    ensures
        ((byte | (d << ((7 - k) as u8))) >> ((7 - i) as u8)) & 1 == if i == k {
            d
        } else {
            (byte >> ((7 - i) as u8)) & 1
        },
{
}

/// No bit of zero is set.
proof fn lemma_zero_bits(i: u8)
    by (bit_vector)
    requires
        i < 8,
    ensures
        (0u8 >> ((7 - i) as u8)) & 1 == 0,
{
}

/// Bit `i` of the packed byte of at most eight decisions is decision `i`, and
/// every bit after the decisions is zero.
pub proof fn lemma_byte_from_bits(bits: Seq<bool>)
    requires
        bits.len() <= 8,
    ensures
        forall|i: int| 0 <= i < 8 ==> #[trigger] bit_at(byte_from_bits(bits), i) == (i < bits.len()
            && bits[i]),
    decreases bits.len(),
{
    if bits.len() == 0 {
        assert forall|i: int| 0 <= i < 8 implies !#[trigger] bit_at(byte_from_bits(bits), i) by {
            lemma_zero_bits(i as u8);
        }
    } else {
        let head = bits.drop_last();
        lemma_byte_from_bits(head);
        let k = (bits.len() - 1) as u8;
        let d: u8 = if bits.last() {
            1
        } else {
            0
        };
        assert forall|i: int| 0 <= i < 8 implies #[trigger] bit_at(byte_from_bits(bits), i) == (i
            < bits.len() && bits[i]) by {
            assert(!bit_at(byte_from_bits(head), k as int));
            lemma_set_bit(byte_from_bits(head), k, d, i as u8);
            assert(bit_at(byte_from_bits(head), i) == (i < head.len() && head[i]));
        }
    }
}

/// Appending one decision adds a byte exactly when it completes a group of
/// eight.
proof fn lemma_pack_push(bits: Seq<bool>, d: bool)
    ensures
        pack_bits(bits.push(d)) == if (bits.len() + 1) % 8 == 0 {
            pack_bits(bits).push(byte_from_bits(unpacked_rest(bits).push(d)))
        } else {
            pack_bits(bits)
        },
        unpacked_rest(bits.push(d)) == if (bits.len() + 1) % 8 == 0 {
            Seq::<bool>::empty()
        } else {
            unpacked_rest(bits).push(d)
        },
{
    let longer = bits.push(d);
    let n = bits.len() as int;
    assert forall|j: int| 0 <= j < n / 8 implies #[trigger] pack_bits(longer)[j] == pack_bits(
        bits,
    )[j] by {
        assert(longer.subrange(8 * j, 8 * j + 8) =~= bits.subrange(8 * j, 8 * j + 8));
    }
    if (n + 1) % 8 == 0 {
        assert(longer.subrange(8 * (n / 8), 8 * (n / 8) + 8) =~= unpacked_rest(bits).push(d));
        assert(pack_bits(longer) =~= pack_bits(bits).push(byte_from_bits(unpacked_rest(bits).push(d))));
        assert(unpacked_rest(longer) =~= Seq::<bool>::empty());
    } else {
        assert(pack_bits(longer) =~= pack_bits(bits));
        assert(unpacked_rest(longer) =~= unpacked_rest(bits).push(d));
    }
}

/// The completed one-bit stream holds one byte per started group of eight
/// decisions, and bit `b` of byte `j` is decision `8 * j + b`, or zero padding
/// past the last decision.
pub proof fn lemma_padded_pack_bits(bits: Seq<bool>)
    ensures
        padded_pack(bits).len() == (bits.len() + 7) / 8,
        forall|j: int, b: int|
            0 <= j < padded_pack(bits).len() && 0 <= b < 8 ==> #[trigger] bit_at(
                padded_pack(bits)[j],
                b,
            ) == (8 * j + b < bits.len() && bits[8 * j + b]),
{
    let packed = padded_pack(bits);
    let n = bits.len() as int;
    assert forall|j: int, b: int| 0 <= j < packed.len() && 0 <= b < 8 implies #[trigger] bit_at(
        packed[j],
        b,
    ) == (8 * j + b < n && bits[8 * j + b]) by {
        if j < n / 8 {
            let group = bits.subrange(8 * j, 8 * j + 8);
            lemma_byte_from_bits(group);
            assert(bit_at(byte_from_bits(group), b) == (b < group.len() && group[b]));
        } else {
            let rest = unpacked_rest(bits);
            lemma_byte_from_bits(rest);
            assert(bit_at(byte_from_bits(rest), b) == (b < rest.len() && rest[b]));
        }
    }
}

/// Complete groups in front pack on their own: packing a decision sequence
/// whose length is a multiple of eight, followed by more decisions, packs
/// the front and then the rest.
pub proof fn lemma_pack_split(front: Seq<bool>, back: Seq<bool>)
    requires
        front.len() % 8 == 0,
    ensures
        pack_bits(front + back) == pack_bits(front) + pack_bits(back),
        unpacked_rest(front + back) == unpacked_rest(back),
{
    let whole = front + back;
    let f = front.len() / 8;
    assert((front.len() + back.len()) / 8 == f + back.len() / 8);
    assert forall|j: int| 0 <= j < pack_bits(whole).len() implies #[trigger] pack_bits(whole)[j] == (
    pack_bits(front) + pack_bits(back))[j] by {
        if j < f {
            assert(whole.subrange(8 * j, 8 * j + 8) =~= front.subrange(8 * j, 8 * j + 8));
        } else {
            assert(whole.subrange(8 * j, 8 * j + 8) =~= back.subrange(8 * (j - f), 8 * (j - f) + 8));
        }
    }
    assert(pack_bits(whole) =~= pack_bits(front) + pack_bits(back));
    assert(unpacked_rest(whole) =~= unpacked_rest(back));
}

/// Pushing two blocks one after the other emits the same bytes and keeps the
/// same remainder as pushing their concatenation at once.
pub proof fn lemma_push_composes(pending: Seq<bool>, first: Seq<i16>, second: Seq<i16>)
    requires
        pending.len() < 8,
    ensures
        ({
            let after_first = pending + decisions(first);
            let after_second = unpacked_rest(after_first) + decisions(second);
            &&& pack_bits(after_first) + pack_bits(after_second) == pack_bits(
                pending + decisions(first + second),
            )
            &&& unpacked_rest(after_second) == unpacked_rest(pending + decisions(first + second))
        }),
{
    let after_first = pending + decisions(first);
    let cut = 8 * (after_first.len() / 8) as int;
    let full = after_first.take(cut);
    let rest = unpacked_rest(after_first);
    assert(decisions(first + second) =~= decisions(first) + decisions(second));
    assert(after_first =~= full + rest);
    assert(pending + decisions(first + second) =~= full + (rest + decisions(second)));
    lemma_pack_split(full, rest);
    assert(pack_bits(rest) =~= Seq::<u8>::empty());
    assert(pack_bits(full) + Seq::<u8>::empty() =~= pack_bits(full));
    lemma_pack_split(full, rest + decisions(second));
}

/// Stateful most-significant-bit-first packer for signed I/Q decisions.
#[derive(Clone, Copy, Debug)]
pub struct Bits1PackingState {
    /// Partially filled output byte.
    pending_byte: u8,
    /// Number of high-order bits already filled in `pending_byte`.
    pending_bits: u8,
}

impl View for Bits1PackingState {
    type V = Seq<bool>;

    /// The decisions held in the partially filled byte.
    closed spec fn view(&self) -> Seq<bool> {
        Seq::new(self.pending_bits as nat, |i: int| bit_at(self.pending_byte, i))
    }
}

impl Default for Bits1PackingState {
    /// A packer that holds no decision.
    fn default() -> (state: Self)
        ensures
            state@ == Seq::<bool>::empty(),
    {
        let state = Bits1PackingState { pending_byte: 0, pending_bits: 0 };
        assert(state@ =~= Seq::<bool>::empty());
        state
    }
}

impl Bits1PackingState {
    #[verifier::type_invariant]
    spec fn holds_leading_bits(self) -> bool {
        &&& self.pending_bits < 8
        &&& self.pending_byte == byte_from_bits(self@)
    }

    /// Appends all complete bytes produced by `iq`, retaining any remainder.
    pub fn push(self, iq: &[i16], out: &mut Vec<u8>) -> (next: Self)
        ensures
            final(out)@ == old(out)@ + pack_bits(self@ + decisions(iq@)),
            next@ == unpacked_rest(self@ + decisions(iq@)),
    {
        proof {
            use_type_invariant(self);
        }
        let ghost start = self@;
        let ghost all = decisions(iq@);
        let mut state = self;
        let mut index: usize = 0;
        assert(start + all.take(0) =~= start);
        assert(pack_bits(start) =~= Seq::<u8>::empty());
        assert(unpacked_rest(start) =~= start);
        while index < iq.len()
            invariant
                index <= iq.len(),
                all == decisions(iq@),
                out@ == old(out)@ + pack_bits(start + all.take(index as int)),
                state@ == unpacked_rest(start + all.take(index as int)),
            decreases iq.len() - index,
        {
            proof {
                use_type_invariant(state);
            }
            let ghost before = start + all.take(index as int);
            let ghost held = state@;
            let sample = iq[index];
            let bit: u8 = if sample > 0 {
                1
            } else {
                0
            };
            let byte = state.pending_byte | (bit << (7 - state.pending_bits));
            let count = state.pending_bits + 1;
            proof {
                let d = sample > 0;
                let grown = held.push(d);
                assert(grown.drop_last() =~= held);
                assert(byte == byte_from_bits(grown));
                lemma_byte_from_bits(grown);
                assert(Seq::new(count as nat, |i: int| bit_at(byte, i)) =~= grown);
                assert(before.push(d) =~= start + all.take(index + 1));
                lemma_pack_push(before, d);
                assert(unpacked_rest(before).len() == held.len());
                assert((before.len() + 1) % 8 == 0 <==> count == 8) by {
                    assert(before.len() == 8 * (before.len() / 8) + held.len());
                }
            }
            if count == 8 {
                out.push(byte);
                state = Bits1PackingState { pending_byte: 0, pending_bits: 0 };
                assert(state@ =~= Seq::<bool>::empty());
            } else {
                state = Bits1PackingState { pending_byte: byte, pending_bits: count };
            }
            index = index + 1;
        }
        assert(all.take(iq.len() as int) =~= all);
        state
    }

    /// Emits a final byte with every unused low-order bit set to zero, and
    /// returns an empty packer.
    pub fn finish(self, out: &mut Vec<u8>) -> (next: Self)
        ensures
            final(out)@ == old(out)@ + if self@.len() > 0 {
                seq![byte_from_bits(self@)]
            } else {
                Seq::<u8>::empty()
            },
            next@ == Seq::<bool>::empty(),
    {
        proof {
            use_type_invariant(self);
        }
        if self.pending_bits != 0 {
            out.push(self.pending_byte);
        } else {
            assert(old(out)@ + Seq::<u8>::empty() =~= old(out)@);
        }
        Bits1PackingState::default()
    }

    /// Returns whether the packer holds decisions of an unfinished byte.
    pub fn has_pending(&self) -> (pending: bool)
        ensures
            pending == (self@.len() > 0),
    {
        self.pending_bits != 0
    }
}

/// Packs interleaved `i16` I/Q into the one-bit format.
///
/// Decisions are packed most significant bit first. If `iq` does not fill the
/// final byte, its unused low-order bits are zero. The output must hold
/// exactly one byte per started group of eight samples.
pub fn pack_bits1_into(iq: &[i16], out: &mut [u8]) -> (result: Result<(), Error>)
    ensures
        2 * iq@.len() > MAX_INTERLEAVED_BYTES ==> (result matches Err(
            Error::UnsupportedWorkload { .. },
        )) && final(out)@ == old(out)@,
        2 * iq@.len() <= MAX_INTERLEAVED_BYTES && old(out)@.len() != (iq@.len() + 7) / 8 ==> (
        result matches Err(Error::ParsingError(m)) && m@ == "Bits1 output length mismatch"@)
            && final(out)@ == old(out)@,
        2 * iq@.len() <= MAX_INTERLEAVED_BYTES && old(out)@.len() == (iq@.len() + 7) / 8 ==> result
            is Ok && final(out)@ == padded_pack(decisions(iq@)),
{
    IqBlockSizing::checked_i16_byte_len(iq.len())?;
    let expected_len = (iq.len() + 7) / 8;
    if out.len() != expected_len {
        return Err(Error::msg("Bits1 output length mismatch"));
    }
    let mut packed: Vec<u8> = Vec::new();
    let state = Bits1PackingState::default().push(iq, &mut packed);
    state.finish(&mut packed);
    proof {
        let all = decisions(iq@);
        assert(Seq::<bool>::empty() + all =~= all);
        lemma_padded_pack_bits(all);
    }
    assert(packed@ =~= padded_pack(decisions(iq@)));
    let mut index: usize = 0;
    while index < out.len()
        invariant
            index <= out.len(),
            out@.len() == packed@.len(),
            forall|k: int| 0 <= k < index ==> out@[k] == packed@[k],
        decreases out.len() - index,
    {
        out[index] = packed[index];
        index = index + 1;
    }
    assert(out@ =~= packed@);
    Ok(())
}

/// Packs interleaved `i16` I/Q into signed 8-bit bytes: each sample shifted
/// right by four bits, kept as its two's-complement byte.
pub fn pack_bits8_into(iq: &[i16], out: &mut [u8]) -> (result: Result<(), Error>)
    ensures
        2 * iq@.len() > MAX_INTERLEAVED_BYTES ==> (result matches Err(
            Error::UnsupportedWorkload { .. },
        )) && final(out)@ == old(out)@,
        2 * iq@.len() <= MAX_INTERLEAVED_BYTES && old(out)@.len() != iq@.len() ==> (
        result matches Err(Error::ParsingError(m)) && m@ == "Bits8 output length mismatch"@)
            && final(out)@ == old(out)@,
        2 * iq@.len() <= MAX_INTERLEAVED_BYTES && old(out)@.len() == iq@.len() ==> result is Ok
            && final(out)@ == iq@.map_values(|sample: i16| sc8_byte(sample)),
{
    IqBlockSizing::checked_i16_byte_len(iq.len())?;
    if out.len() != iq.len() {
        return Err(Error::msg("Bits8 output length mismatch"));
    }
    let mut index: usize = 0;
    while index < out.len()
        invariant
            index <= out.len(),
            out@.len() == iq@.len(),
            forall|k: int| 0 <= k < index ==> out@[k] == sc8_byte(#[trigger] iq@[k]),
        decreases out.len() - index,
    {
        out[index] = ((iq[index] as i32) >> 4u32) as u8;
        index = index + 1;
    }
    assert(out@ =~= iq@.map_values(|sample: i16| sc8_byte(sample)));
    Ok(())
}

/// Bit depth of the I/Q samples written to the output.
#[derive(Clone, Copy, Debug, PartialEq, Eq, Structural)]
pub enum DataFormat {
    /// 1-bit I/Q samples (smallest file size, lowest quality).
    Bits1,
    /// 8-bit I/Q samples (medium file size and quality).
    Bits8,
    /// 16-bit I/Q samples (largest file size, highest quality).
    Bits16,
}

/// The bits per scalar sample of a format.
pub open spec fn spec_format_bits(format: DataFormat) -> int {
    match format {
        DataFormat::Bits1 => 1,
        DataFormat::Bits8 => 8,
        DataFormat::Bits16 => 16,
    }
}

impl DataFormat {
    /// Returns the number of bits per scalar sample: 1, 8 or 16.
    pub fn bits(self) -> (bits: u8)
        ensures
            bits == spec_format_bits(self),
    {
        match self {
            DataFormat::Bits1 => 1,
            DataFormat::Bits8 => 8,
            DataFormat::Bits16 => 16,
        }
    }

    /// The format of a requested bit depth; `None` for an unsupported depth.
    pub fn from_bits(bits: usize) -> (format: Option<DataFormat>)
        ensures
            format matches Some(f) ==> spec_format_bits(f) == bits,
            format is None <==> !(bits == 1 || bits == 8 || bits == 16),
    {
        match bits {
            1 => Some(DataFormat::Bits1),
            8 => Some(DataFormat::Bits8),
            16 => Some(DataFormat::Bits16),
            _ => None,
        }
    }
}

/// The two bytes of `sample`, least significant first when `little` holds and
/// most significant first otherwise.
pub open spec fn sample_bytes(sample: i16, little: bool) -> Seq<u8> {
    let value = sample as u16 as int;
    if little {
        seq![(value % 256) as u8, (value / 256) as u8]
    } else {
        seq![(value / 256) as u8, (value % 256) as u8]
    }
}

/// The in-memory bytes of `samples`: each sample's two bytes in turn, all in
/// one byte order.
pub open spec fn native_sample_bytes(samples: Seq<i16>, little: bool) -> Seq<u8> {
    Seq::new(2 * samples.len(), |i: int| sample_bytes(samples[i / 2], little)[i % 2])
}

/// The in-memory bytes of the number one in the byte order of the machine.
///
/// Calls `u16::to_ne_bytes`; the contract says only that the machine stores
/// the number least significant byte first or most significant byte first.
#[verifier::external_body]
fn native_bytes_of_one() -> (bytes: [u8; 2])
    ensures
        bytes@ == seq![1u8, 0u8] || bytes@ == seq![0u8, 1u8],
{
    1u16.to_ne_bytes()
}

/// The bytes of `samples`, each sample least significant byte first when
/// `little` holds and most significant byte first otherwise.
pub fn samples_in_order(iq: &[i16], little: bool) -> (bytes: Vec<u8>)
    requires
        2 * iq@.len() <= MAX_INTERLEAVED_BYTES,
    ensures
        bytes@ == native_sample_bytes(iq@, little),
{
    let mut bytes: Vec<u8> = Vec::new();
    let mut index: usize = 0;
    while index < iq.len()
        invariant
            index <= iq.len(),
            2 * iq.len() <= MAX_INTERLEAVED_BYTES,
            bytes@ == native_sample_bytes(iq@.take(index as int), little),
        decreases iq.len() - index,
    {
        let value = iq[index] as u16;
        let low = (value % 256) as u8;
        let high = (value / 256) as u8;
        let ghost before = bytes@;
        if little {
            bytes.push(low);
            bytes.push(high);
        } else {
            bytes.push(high);
            bytes.push(low);
        }
        proof {
            let pair = sample_bytes(iq@[index as int], little);
            assert(bytes@ =~= before + pair);
            assert(native_sample_bytes(iq@.take(index + 1), little) =~= native_sample_bytes(
                iq@.take(index as int),
                little,
            ) + pair) by {
                let whole = native_sample_bytes(iq@.take(index + 1), little);
                let front = native_sample_bytes(iq@.take(index as int), little);
                assert forall|i: int| 0 <= i < whole.len() implies #[trigger] whole[i] == (front
                    + pair)[i] by {
                    if i < 2 * index {
                        assert(i / 2 < index) by (nonlinear_arith)
                            requires 0 <= i < 2 * index;
                    } else {
                        assert(i / 2 == index) by (nonlinear_arith)
                            requires 2 * index <= i < 2 * index + 2;
                        assert(i - 2 * index == i % 2) by (nonlinear_arith)
                            requires 2 * index <= i < 2 * index + 2;
                    }
                }
            }
        }
        index = index + 1;
    }
    assert(iq@.take(iq@.len() as int) =~= iq@);
    bytes
}

/// Checks the block limit, then returns the samples' in-memory bytes in the
/// byte order of the machine, one order for the whole block.
pub fn checked_as_bytes_i16(iq: &[i16]) -> (bytes: Result<Vec<u8>, Error>)
    ensures
        2 * iq@.len() > MAX_INTERLEAVED_BYTES ==> (bytes matches Err(
            Error::UnsupportedWorkload { .. },
        )),
        2 * iq@.len() <= MAX_INTERLEAVED_BYTES ==> (bytes matches Ok(b) && exists|little: bool|
            b@ == native_sample_bytes(iq@, little)),
{
    IqBlockSizing::checked_i16_byte_len(iq.len())?;
    let one = native_bytes_of_one();
    Ok(samples_in_order(iq, one[0] == 1))
}

/// Whether `bytes` are a formatted sample block: the complete one-bit bytes
/// with the packer advanced, the signed 8-bit bytes, or the 16-bit bytes in
/// the byte order `little` names.
pub open spec fn formats_block(
    format: DataFormat,
    samples: Seq<i16>,
    state: Seq<bool>,
    bytes: Seq<u8>,
    next_state: Seq<bool>,
    little: bool,
) -> bool {
    match format {
        DataFormat::Bits1 => bytes == pack_bits(state + decisions(samples)) && next_state
            == unpacked_rest(state + decisions(samples)),
        DataFormat::Bits8 => bytes == samples.map_values(|sample: i16| sc8_byte(sample))
            && next_state == state,
        DataFormat::Bits16 => bytes == native_sample_bytes(samples, little) && next_state == state,
    }
}

/// Formats one validated interleaved sample block, appending its bytes to
/// `writer`.
///
/// The buffer must hold an even number of scalars, at most 64 MiB of them as
/// `i16`, and exactly `buffer_size` complex samples. One-bit decisions left
/// over from the block stay in `bits1_state` for the next block. On an error
/// nothing is appended and the packer is unchanged.
pub fn write_samples_to(
    writer: &mut Vec<u8>,
    format: DataFormat,
    buffer: &[i16],
    buffer_size: usize,
    bits1_state: &mut Bits1PackingState,
) -> (result: Result<(), Error>)
    ensures
        ({
            let len = buffer@.len();
            len % 2 == 0 && 2 * len <= MAX_INTERLEAVED_BYTES && len == 2 * buffer_size
        }) ==> (result is Ok && exists|appended: Seq<u8>, little: bool|
            final(writer)@ == old(writer)@ + appended && formats_block(
                format,
                buffer@,
                old(bits1_state)@,
                appended,
                final(bits1_state)@,
                little,
            )),
        !({
            let len = buffer@.len();
            len % 2 == 0 && 2 * len <= MAX_INTERLEAVED_BYTES && len == 2 * buffer_size
        }) ==> (result matches Err(Error::UnsupportedWorkload { .. })) && final(writer)@ == old(
            writer,
        )@ && final(bits1_state)@ == old(bits1_state)@,
{
    let sizing = IqBlockSizing::from_interleaved_i16_len(buffer.len())?;
    if sizing.complex_samples() != buffer_size {
        return Err(
            Error::unsupported_workload(
                "I/Q writer buffer size does not match its complex sample count",
            ),
        );
    }
    let ghost start = writer@;
    match format {
        DataFormat::Bits1 => {
            let mut packed: Vec<u8> = Vec::new();
            let next_state = (*bits1_state).push(buffer, &mut packed);
            assert(Seq::<u8>::empty() + pack_bits(old(bits1_state)@ + decisions(buffer@)) =~= pack_bits(
                old(bits1_state)@ + decisions(buffer@),
            ));
            let ghost bytes = packed@;
            writer.append(&mut packed);
            *bits1_state = next_state;
            assert(formats_block(format, buffer@, old(bits1_state)@, bytes, bits1_state@, true));
        },
        DataFormat::Bits8 => {
            let mut packed: Vec<u8> = Vec::new();
            let mut index: usize = 0;
            while index < buffer.len()
                invariant
                    index <= buffer.len(),
                    packed@.len() == index,
                decreases buffer.len() - index,
            {
                packed.push(0u8);
                index = index + 1;
            }
            let packed_result = pack_bits8_into(buffer, packed.as_mut_slice());
            let ghost bytes = packed@;
            writer.append(&mut packed);
            assert(formats_block(format, buffer@, old(bits1_state)@, bytes, bits1_state@, true));
        },
        DataFormat::Bits16 => {
            let mut bytes = checked_as_bytes_i16(buffer)?;
            let ghost formatted = bytes@;
            let ghost little = choose|little: bool| formatted == native_sample_bytes(buffer@, little);
            writer.append(&mut bytes);
            assert(formats_block(format, buffer@, old(bits1_state)@, formatted, bits1_state@, little));
        },
    }
    Ok(())
}

/// The terminal bytes of a format: for the one-bit format with pending
/// decisions, their byte with zero low-order padding; nothing otherwise.
pub open spec fn finish_bytes(format: DataFormat, pending: Seq<bool>) -> Seq<u8> {
    if format == DataFormat::Bits1 && pending.len() > 0 {
        seq![byte_from_bits(pending)]
    } else {
        Seq::<u8>::empty()
    }
}

/// The packer after the terminal data is written: empty once its decisions
/// are emitted, unchanged otherwise.
pub open spec fn finish_pending(format: DataFormat, pending: Seq<bool>) -> Seq<bool> {
    if format == DataFormat::Bits1 && pending.len() > 0 {
        Seq::<bool>::empty()
    } else {
        pending
    }
}

/// Writes any pending format-level terminal data: for the one-bit format, the
/// final partial byte with zero low-order padding.
pub fn finish_packing_to(
    writer: &mut Vec<u8>,
    format: DataFormat,
    bits1_state: &mut Bits1PackingState,
)
    ensures
        final(writer)@ == old(writer)@ + finish_bytes(format, old(bits1_state)@),
        final(bits1_state)@ == finish_pending(format, old(bits1_state)@),
{
    if format == DataFormat::Bits1 && bits1_state.has_pending() {
        let mut packed: Vec<u8> = Vec::new();
        let next_state = (*bits1_state).finish(&mut packed);
        writer.append(&mut packed);
        *bits1_state = next_state;
    } else {
        assert(old(writer)@ + Seq::<u8>::empty() =~= old(writer)@);
    }
}

/// Finishing twice writes the terminal data once: the second finish adds no
/// byte and leaves the packer as the first left it.
pub proof fn lemma_finish_is_idempotent(format: DataFormat, pending: Seq<bool>)
    ensures
        finish_bytes(format, finish_pending(format, pending)) == Seq::<u8>::empty(),
        finish_pending(format, finish_pending(format, pending)) == finish_pending(format, pending),
{
}

/// The one-bit packing of a whole buffer matches a completed stream: pushing
/// the buffer into an empty packer and then finishing the output emits
/// exactly what `pack_bits1_into` writes.
pub proof fn lemma_completed_stream_matches_packing(iq: Seq<i16>)
    ensures
        ({
            let pushed = Seq::<bool>::empty() + decisions(iq);
            pack_bits(pushed) + finish_bytes(DataFormat::Bits1, unpacked_rest(pushed)) == padded_pack(
                decisions(iq),
            )
        }),
{
    assert(Seq::<bool>::empty() + decisions(iq) =~= decisions(iq));
}

} // verus!
