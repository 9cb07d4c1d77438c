//! C/A (coarse/acquisition) Gold codes of the GPS L1 signal.
//!
//! The code of a satellite is the product of the G1 and G2 maximal-length
//! sequences, G2 delayed by a satellite-specific number of chips. Both
//! sequences come from ten-stage shift registers that start with every stage
//! at -1 (the logic level one), with feedback taps 3 and 10 for G1 and
//! 2, 3, 6, 8, 9 and 10 for G2.
use vstd::prelude::*;

verus! {

/// Number of chips in one C/A code period.
pub const CA_SEQ_LEN: usize = 1023;

/// Whether every stage of a register holds -1 or +1.
pub open spec fn is_unit_register(register: Seq<i32>) -> bool {
    &&& register.len() == 10
    &&& forall|k: int| 0 <= k < 10 ==> #[trigger] register[k] == 1 || register[k] == -1
}

/// One clock of the G1 register: stages shift up by one and stage 1 takes
/// the product of stages 3 and 10.
pub open spec fn g1_step(register: Seq<i32>) -> Seq<i32> {
    seq![(register[2] * register[9]) as i32] + register.take(9)
}

/// One clock of the G2 register: stages shift up by one and stage 1 takes
/// the product of stages 2, 3, 6, 8, 9 and 10.
pub open spec fn g2_step(register: Seq<i32>) -> Seq<i32> {
    seq![
        (register[1] * register[2] * register[5] * register[7] * register[8] * register[9]) as i32,
    ] + register.take(9)
}

/// The initial register: every stage at -1.
pub open spec fn initial_register() -> Seq<i32> {
    Seq::new(10, |k: int| -1i32)
}

/// The G1 register after `clocks` clocks.
pub open spec fn g1_register(clocks: nat) -> Seq<i32>
    decreases clocks,
{
    if clocks == 0 {
        initial_register()
    } else {
        g1_step(g1_register((clocks - 1) as nat))
    }
}

/// The G2 register after `clocks` clocks.
pub open spec fn g2_register(clocks: nat) -> Seq<i32>
    decreases clocks,
{
    if clocks == 0 {
        initial_register()
    } else {
        g2_step(g2_register((clocks - 1) as nat))
    }
}

/// Chip `index` of G1, as -1 or +1: the output stage before clock `index`.
#[verifier::opaque]
pub open spec fn g1_chip(index: nat) -> i32 {
    g1_register(index)[9]
}

/// Chip `index` of G2, as -1 or +1.
#[verifier::opaque]
pub open spec fn g2_chip(index: nat) -> i32 {
    g2_register(index)[9]
}

/// Chips are the output stages of the registers, and are -1 or +1.
pub proof fn lemma_chip_is_output_stage(n: nat)
    ensures
        g1_chip(n) == g1_register(n)[9],
        g2_chip(n) == g2_register(n)[9],
        g1_chip(n) == 1 || g1_chip(n) == -1,
        g2_chip(n) == 1 || g2_chip(n) == -1,
{
    reveal(g1_chip);
    reveal(g2_chip);
    lemma_registers_are_units(n);
}

/// The G2 delay, in chips, of the satellite with a given PRN (1 to 32).
pub open spec fn g2_delay(prn: int) -> int {
    seq![
        5int, 6, 7, 8, 17, 18, 139, 140, 141, 251, 252, 254, 255, 256, 257, 258, 469, 470, 471, 472,
        473, 474, 509, 512, 513, 514, 515, 516, 859, 860, 861, 862,
    ][prn - 1]
}

/// The product of G1 chip `index` and the delayed G2 chip, as -1 or +1.
pub open spec fn gold_product(prn: int, index: int) -> int {
    g1_chip(index as nat) * g2_chip(((index + 1023 - g2_delay(prn)) % 1023) as nat)
}

/// C/A code bit `index` of a satellite, as 0 or 1: 1 where the G1 and delayed
/// G2 chips differ.
pub open spec fn ca_bit(prn: int, index: int) -> int {
    (1 - gold_product(prn, index)) / 2
}

/// C/A code chip `index` of a satellite, as -1 or +1: +1 where the G1 and
/// delayed G2 chips differ.
pub open spec fn ca_chip(prn: int, index: int) -> int {
    -gold_product(prn, index)
}

/// Products of -1 and +1 are -1 or +1.
proof fn lemma_unit_product(a: int, b: int)
    requires
        a == 1 || a == -1,
        b == 1 || b == -1,
    ensures
        a * b == 1 || a * b == -1,
{
}

/// Both registers only ever hold -1 and +1.
pub proof fn lemma_registers_are_units(clocks: nat)
    ensures
        is_unit_register(g1_register(clocks)),
        is_unit_register(g2_register(clocks)),
    decreases clocks,
{
    if clocks > 0 {
        lemma_registers_are_units((clocks - 1) as nat);
        let r1 = g1_register((clocks - 1) as nat);
        let r2 = g2_register((clocks - 1) as nat);
        lemma_unit_product(r1[2] as int, r1[9] as int);
        lemma_unit_product(r2[1] as int, r2[2] as int);
        lemma_unit_product(r2[1] * r2[2], r2[5] as int);
        lemma_unit_product(r2[1] * r2[2] * r2[5], r2[7] as int);
        lemma_unit_product(r2[1] * r2[2] * r2[5] * r2[7], r2[8] as int);
        lemma_unit_product(r2[1] * r2[2] * r2[5] * r2[7] * r2[8], r2[9] as int);
        assert(is_unit_register(g1_register(clocks)));
        assert(is_unit_register(g2_register(clocks)));
    } else {
        assert(is_unit_register(initial_register()));
    }
}

/// The G2 delay of a satellite.
fn g2_delay_of(prn: usize) -> (delay: usize)
    requires
        1 <= prn <= 32,
    ensures
        delay == g2_delay(prn as int),
        5 <= delay <= 862,
{
    let delays: [usize; 32] = [
        5, 6, 7, 8, 17, 18, 139, 140, 141, 251, 252, 254, 255, 256, 257, 258, 469, 470, 471, 472,
        473, 474, 509, 512, 513, 514, 515, 516, 859, 860, 861, 862,
    ];
    assert(delays@ =~= seq![
        5usize, 6, 7, 8, 17, 18, 139, 140, 141, 251, 252, 254, 255, 256, 257, 258, 469, 470, 471,
        472, 473, 474, 509, 512, 513, 514, 515, 516, 859, 860, 861, 862,
    ]);
    delays[prn - 1]
}

/// One full period of the G1 and G2 chips.
fn gold_sequences() -> (sequences: (Vec<i32>, Vec<i32>))
    ensures
        sequences.0@.len() == 1023,
        sequences.1@.len() == 1023,
        forall|i: int| 0 <= i < 1023 ==> #[trigger] sequences.0@[i] == g1_chip(i as nat),
        forall|i: int| 0 <= i < 1023 ==> #[trigger] sequences.1@[i] == g2_chip(i as nat),
{
    let mut g1: Vec<i32> = Vec::new();
    let mut g2: Vec<i32> = Vec::new();
    let mut r1: [i32; 10] = [-1, -1, -1, -1, -1, -1, -1, -1, -1, -1];
    let mut r2: [i32; 10] = [-1, -1, -1, -1, -1, -1, -1, -1, -1, -1];
    assert(r1@ =~= initial_register());
    assert(r2@ =~= initial_register());
    let mut i: usize = 0;
    while i < CA_SEQ_LEN
        invariant
            i <= 1023,
            g1@.len() == i,
            g2@.len() == i,
            r1@ == g1_register(i as nat),
            r2@ == g2_register(i as nat),
            forall|k: int| 0 <= k < i ==> #[trigger] g1@[k] == g1_chip(k as nat),
            forall|k: int| 0 <= k < i ==> #[trigger] g2@[k] == g2_chip(k as nat),
        decreases 1023 - i,
    {
        proof {
            lemma_registers_are_units(i as nat);
            lemma_chip_is_output_stage(i as nat);
            lemma_unit_product(r1[2] as int, r1[9] as int);
            lemma_unit_product(r2[1] as int, r2[2] as int);
            lemma_unit_product(r2[1] * r2[2], r2[5] as int);
            lemma_unit_product(r2[1] * r2[2] * r2[5], r2[7] as int);
            lemma_unit_product(r2[1] * r2[2] * r2[5] * r2[7], r2[8] as int);
            lemma_unit_product(r2[1] * r2[2] * r2[5] * r2[7] * r2[8], r2[9] as int);
        }
        g1.push(r1[9]);
        g2.push(r2[9]);
        let c1 = r1[2] * r1[9];
        let c2 = r2[1] * r2[2] * r2[5] * r2[7] * r2[8] * r2[9];
        let next1: [i32; 10] = [c1, r1[0], r1[1], r1[2], r1[3], r1[4], r1[5], r1[6], r1[7], r1[8]];
        let next2: [i32; 10] = [c2, r2[0], r2[1], r2[2], r2[3], r2[4], r2[5], r2[6], r2[7], r2[8]];
        assert(next1@ =~= g1_step(r1@));
        assert(next2@ =~= g2_step(r2@));
        r1 = next1;
        r2 = next2;
        i = i + 1;
    }
    (g1, g2)
}

/// Generates the C/A code of the satellite with PRN `prn` as 0/1 bits.
///
/// A PRN outside 1 to 32 leaves `ca` unchanged.
pub fn codegen(ca: &mut [i32; 1023], prn: usize)
    ensures
        1 <= prn <= 32 ==> forall|i: int| 0 <= i < 1023 ==> #[trigger] final(ca)@[i] == ca_bit(
            prn as int,
            i,
        ),
        !(1 <= prn <= 32) ==> final(ca)@ == old(ca)@,
{
    if !(1 <= prn && prn <= 32) {
        return;
    }
    let (g1, g2) = gold_sequences();
    let delay = g2_delay_of(prn);
    let mut i: usize = 0;
    while i < CA_SEQ_LEN
        invariant
            i <= 1023,
            1 <= prn <= 32,
            delay == g2_delay(prn as int),
            5 <= delay <= 862,
            g1@.len() == 1023,
            g2@.len() == 1023,
            forall|k: int| 0 <= k < 1023 ==> #[trigger] g1@[k] == g1_chip(k as nat),
            forall|k: int| 0 <= k < 1023 ==> #[trigger] g2@[k] == g2_chip(k as nat),
            forall|k: int| 0 <= k < i ==> #[trigger] ca@[k] == ca_bit(prn as int, k),
        decreases 1023 - i,
    {
        let j = (i + CA_SEQ_LEN - delay) % CA_SEQ_LEN;
        proof {
            lemma_chip_is_output_stage(i as nat);
            lemma_chip_is_output_stage(j as nat);
            lemma_unit_product(g1@[i as int] as int, g2@[j as int] as int);
        }
        ca[i] = (1 - g1[i] * g2[j]) / 2;
        i = i + 1;
    }
}

/// Generates the C/A code of the satellite with PRN `prn` as -1/+1 chips.
///
/// A PRN outside 1 to 32 leaves `chips` unchanged.
pub fn codegen_chips(chips: &mut [i8; 1023], prn: usize)
    ensures
        1 <= prn <= 32 ==> forall|i: int| 0 <= i < 1023 ==> #[trigger] final(chips)@[i] == ca_chip(
            prn as int,
            i,
        ),
        !(1 <= prn <= 32) ==> final(chips)@ == old(chips)@,
{
    if !(1 <= prn && prn <= 32) {
        return;
    }
    let (g1, g2) = gold_sequences();
    let delay = g2_delay_of(prn);
    let mut i: usize = 0;
    while i < CA_SEQ_LEN
        invariant
            i <= 1023,
            1 <= prn <= 32,
            delay == g2_delay(prn as int),
            5 <= delay <= 862,
            g1@.len() == 1023,
            g2@.len() == 1023,
            forall|k: int| 0 <= k < 1023 ==> #[trigger] g1@[k] == g1_chip(k as nat),
            forall|k: int| 0 <= k < 1023 ==> #[trigger] g2@[k] == g2_chip(k as nat),
            forall|k: int| 0 <= k < i ==> #[trigger] chips@[k] == ca_chip(prn as int, k),
        decreases 1023 - i,
    {
        let j = (i + CA_SEQ_LEN - delay) % CA_SEQ_LEN;
        proof {
            lemma_chip_is_output_stage(i as nat);
            lemma_chip_is_output_stage(j as nat);
            lemma_unit_product(g1@[i as int] as int, g2@[j as int] as int);
        }
        chips[i] = (-(g1[i] * g2[j])) as i8;
        i = i + 1;
    }
}

/// The -1/+1 chips and the 0/1 bits of a C/A code agree: chip +1 is bit 1
/// and chip -1 is bit 0.
pub proof fn lemma_chips_match_bits(prn: int, index: int)
    requires
        1 <= prn <= 32,
        0 <= index < 1023,
    ensures
        ca_chip(prn, index) == 2 * ca_bit(prn, index) - 1,
        ca_bit(prn, index) == 0 || ca_bit(prn, index) == 1,
{
    lemma_chip_is_output_stage(index as nat);
    lemma_chip_is_output_stage(((index + 1023 - g2_delay(prn)) % 1023) as nat);
    lemma_unit_product(
        g1_chip(index as nat) as int,
        g2_chip(((index + 1023 - g2_delay(prn)) % 1023) as nat) as int,
    );
}


/// The modulo-2 sum of two C/A codes depends on G2 alone: raising the G2
/// delays of both satellites by one chip shifts that sum one chip later.
pub proof fn lemma_neighbouring_delays_shift_code_sum(a: int, b: int, c: int, d: int, index: int)
    requires
        1 <= a <= 32,
        1 <= b <= 32,
        1 <= c <= 32,
        1 <= d <= 32,
        g2_delay(c) == g2_delay(a) + 1,
        g2_delay(d) == g2_delay(b) + 1,
        0 <= index < 1023,
    ensures
        (ca_bit(c, index) + ca_bit(d, index)) % 2 == (ca_bit(a, (index + 1022) % 1023) + ca_bit(
            b,
            (index + 1022) % 1023,
        )) % 2,
{
    let j = (index + 1022) % 1023;
    let da = g2_delay(a);
    let db = g2_delay(b);
    assert(5 <= da <= 862 && 5 <= db <= 862) by {
        assert(1 <= a <= 32 && 1 <= b <= 32);
    }
    let x = (index + 1023 - (da + 1)) % 1023;
    let y = (index + 1023 - (db + 1)) % 1023;
    if index >= 1 {
        assert(j == index - 1);
    } else {
        assert(j == 1022);
        assert((1022 + 1023 - da) % 1023 == (1022 - da) % 1023);
        assert((1022 + 1023 - db) % 1023 == (1022 - db) % 1023);
    }
    assert((j + 1023 - da) % 1023 == x);
    assert((j + 1023 - db) % 1023 == y);
    lemma_chip_is_output_stage(index as nat);
    lemma_chip_is_output_stage(j as nat);
    lemma_chip_is_output_stage(x as nat);
    lemma_chip_is_output_stage(y as nat);
    let g1i = g1_chip(index as nat) as int;
    let g1j = g1_chip(j as nat) as int;
    let g2x = g2_chip(x as nat) as int;
    let g2y = g2_chip(y as nat) as int;
    assert(gold_product(c, index) == g1i * g2x);
    assert(gold_product(d, index) == g1i * g2y);
    assert(gold_product(a, j) == g1j * g2x);
    assert(gold_product(b, j) == g1j * g2y);
    assert(((1 - g1i * g2x) / 2 + (1 - g1i * g2y) / 2) % 2 == ((1 - g1j * g2x) / 2 + (1 - g1j
        * g2y) / 2) % 2) by (nonlinear_arith)
        requires
            g1i == 1 || g1i == -1,
            g1j == 1 || g1j == -1,
            g2x == 1 || g2x == -1,
            g2y == 1 || g2y == -1,
    ;
}


/// Stage `i` of the G2 register holds, `j` clocks later, what stage `i - j`
/// holds now.
proof fn lemma_g2_shift(n: nat, j: nat, i: int)
    requires
        j <= i <= 9,
    ensures
        g2_register(n + j)[i] == g2_register(n)[i - j],
    decreases j,
{
    if j > 0 {
        lemma_g2_shift(n, (j - 1) as nat, i - 1);
        lemma_registers_are_units((n + j - 1) as nat);
        assert(g2_register(n + j) == g2_step(g2_register((n + j - 1) as nat)));
    }
}

/// Stage `i` of the G1 register holds, `j` clocks later, what stage `i - j`
/// holds now.
proof fn lemma_g1_shift(n: nat, j: nat, i: int)
    requires
        j <= i <= 9,
    ensures
        g1_register(n + j)[i] == g1_register(n)[i - j],
    decreases j,
{
    if j > 0 {
        lemma_g1_shift(n, (j - 1) as nat, i - 1);
        lemma_registers_are_units((n + j - 1) as nat);
        assert(g1_register(n + j) == g1_step(g1_register((n + j - 1) as nat)));
    }
}

/// Stage `i` of the G2 register after `n` clocks is G2 chip `n + 9 - i`.
proof fn lemma_g2_stage_is_chip(n: nat, i: int)
    requires
        0 <= i <= 9,
    ensures
        g2_register(n)[i] == g2_chip((n + 9 - i) as nat),
{
    lemma_g2_shift(n, (9 - i) as nat, 9);
    lemma_chip_is_output_stage((n + 9 - i) as nat);
}

/// The G2 chips follow the register's feedback as a recurrence.
proof fn lemma_g2_recurrence(n: nat)
    ensures
        g2_chip(n + 10) == g2_chip(n + 8) * g2_chip(n + 7) * g2_chip(n + 4) * g2_chip(n + 2) * g2_chip(
            n + 1,
        ) * g2_chip(n),
{
    lemma_g2_shift(n + 1, 9, 9);
    lemma_chip_is_output_stage(n + 10);
    lemma_registers_are_units(n);
    let r = g2_register(n);
    assert(g2_register(n + 1) == g2_step(r));
    lemma_unit_product(r[1] as int, r[2] as int);
    lemma_unit_product(r[1] * r[2], r[5] as int);
    lemma_unit_product(r[1] * r[2] * r[5], r[7] as int);
    lemma_unit_product(r[1] * r[2] * r[5] * r[7], r[8] as int);
    lemma_unit_product(r[1] * r[2] * r[5] * r[7] * r[8], r[9] as int);
    lemma_g2_stage_is_chip(n, 1);
    lemma_g2_stage_is_chip(n, 2);
    lemma_g2_stage_is_chip(n, 5);
    lemma_g2_stage_is_chip(n, 7);
    lemma_g2_stage_is_chip(n, 8);
    lemma_g2_stage_is_chip(n, 9);
}

/// A G2 chip as a bit: 1 for the chip -1 (logic one), 0 for +1.
pub open spec fn g2_bit(n: nat) -> int {
    (1 - g2_chip(n)) / 2
}

/// The bit of a product of two units is the modulo-2 sum of their bits.
proof fn lemma_unit_product_bit(a: int, b: int)
    requires
        a == 1 || a == -1,
        b == 1 || b == -1,
    ensures
        a * b == 1 || a * b == -1,
        (1 - a * b) / 2 == ((1 - a) / 2 + (1 - b) / 2) % 2,
{
}

/// The G2 bits follow the IS-GPS-200 polynomial 1 + X^2 + X^3 + X^6 + X^8 +
/// X^9 + X^10: each bit is the modulo-2 sum of the bits 10, 9, 8, 6, 3 and 2
/// chips before it.
pub proof fn lemma_g2_bit_recurrence(n: nat)
    ensures
        g2_bit(n + 10) == (g2_bit(n) + g2_bit(n + 1) + g2_bit(n + 2) + g2_bit(n + 4) + g2_bit(n + 7)
            + g2_bit(n + 8)) % 2,
{
    lemma_g2_recurrence(n);
    lemma_chip_is_output_stage(n);
    lemma_chip_is_output_stage(n + 1);
    lemma_chip_is_output_stage(n + 2);
    lemma_chip_is_output_stage(n + 4);
    lemma_chip_is_output_stage(n + 7);
    lemma_chip_is_output_stage(n + 8);
    let c8 = g2_chip(n + 8) as int;
    let c7 = g2_chip(n + 7) as int;
    let c4 = g2_chip(n + 4) as int;
    let c2 = g2_chip(n + 2) as int;
    let c1 = g2_chip(n + 1) as int;
    let c0 = g2_chip(n) as int;
    lemma_unit_product_bit(c8, c7);
    lemma_unit_product_bit(c8 * c7, c4);
    lemma_unit_product_bit(c8 * c7 * c4, c2);
    lemma_unit_product_bit(c8 * c7 * c4 * c2, c1);
    lemma_unit_product_bit(c8 * c7 * c4 * c2 * c1, c0);
}

/// Ten consecutive steps of the G2 bit recurrence.
proof fn lemma_g2_bit_recurrences(n: nat)
    ensures
        g2_bit(n + 10) == (g2_bit(n) + g2_bit(n + 1) + g2_bit(n + 2) + g2_bit(n + 4) + g2_bit(n + 7) + g2_bit(n + 8)) % 2,
        g2_bit(n + 11) == (g2_bit(n + 1) + g2_bit(n + 2) + g2_bit(n + 3) + g2_bit(n + 5) + g2_bit(n + 8) + g2_bit(n + 9)) % 2,
        g2_bit(n + 12) == (g2_bit(n + 2) + g2_bit(n + 3) + g2_bit(n + 4) + g2_bit(n + 6) + g2_bit(n + 9) + g2_bit(n + 10)) % 2,
        g2_bit(n + 13) == (g2_bit(n + 3) + g2_bit(n + 4) + g2_bit(n + 5) + g2_bit(n + 7) + g2_bit(n + 10) + g2_bit(n + 11)) % 2,
        g2_bit(n + 14) == (g2_bit(n + 4) + g2_bit(n + 5) + g2_bit(n + 6) + g2_bit(n + 8) + g2_bit(n + 11) + g2_bit(n + 12)) % 2,
        g2_bit(n + 15) == (g2_bit(n + 5) + g2_bit(n + 6) + g2_bit(n + 7) + g2_bit(n + 9) + g2_bit(n + 12) + g2_bit(n + 13)) % 2,
        g2_bit(n + 16) == (g2_bit(n + 6) + g2_bit(n + 7) + g2_bit(n + 8) + g2_bit(n + 10) + g2_bit(n + 13) + g2_bit(n + 14)) % 2,
        g2_bit(n + 17) == (g2_bit(n + 7) + g2_bit(n + 8) + g2_bit(n + 9) + g2_bit(n + 11) + g2_bit(n + 14) + g2_bit(n + 15)) % 2,
        g2_bit(n + 18) == (g2_bit(n + 8) + g2_bit(n + 9) + g2_bit(n + 10) + g2_bit(n + 12) + g2_bit(n + 15) + g2_bit(n + 16)) % 2,
        g2_bit(n + 19) == (g2_bit(n + 9) + g2_bit(n + 10) + g2_bit(n + 11) + g2_bit(n + 13) + g2_bit(n + 16) + g2_bit(n + 17)) % 2,
{
    lemma_g2_bit_recurrence(n);
    lemma_g2_bit_recurrence(n + 1);
    lemma_g2_bit_recurrence(n + 2);
    lemma_g2_bit_recurrence(n + 3);
    lemma_g2_bit_recurrence(n + 4);
    lemma_g2_bit_recurrence(n + 5);
    lemma_g2_bit_recurrence(n + 6);
    lemma_g2_bit_recurrence(n + 7);
    lemma_g2_bit_recurrence(n + 8);
    lemma_g2_bit_recurrence(n + 9);
}

/// Ten consecutive G2 bits starting at chip `n`.
pub open spec fn g2_window(n: nat) -> (int, int, int, int, int, int, int, int, int, int) {
    (
        g2_bit(n),
        g2_bit(n + 1),
        g2_bit(n + 2),
        g2_bit(n + 3),
        g2_bit(n + 4),
        g2_bit(n + 5),
        g2_bit(n + 6),
        g2_bit(n + 7),
        g2_bit(n + 8),
        g2_bit(n + 9),
    )
}

/// The first ten chips of both registers are -1: each register starts with
/// every stage at -1.
proof fn lemma_first_chips_are_ones()
    ensures
        forall|i: nat| i < 10 ==> #[trigger] g1_chip(i) == -1,
        forall|i: nat| i < 10 ==> #[trigger] g2_chip(i) == -1,
{
    assert forall|i: nat| i < 10 implies #[trigger] g1_chip(i) == -1 by {
        lemma_g1_shift(0, i, 9);
        lemma_chip_is_output_stage(i);
    }
    assert forall|i: nat| i < 10 implies #[trigger] g2_chip(i) == -1 by {
        lemma_g2_shift(0, i, 9);
        lemma_chip_is_output_stage(i);
    }
}

/// The G2 chips that the first ten chips of the 32 C/A codes read, found by
/// running the recurrence through one code period ten chips at a time.
#[verifier::rlimit(100)]
#[verifier::spinoff_prover]
proof fn lemma_g2_chip_values()
    ensures
        g2_chip(0) == -1, g2_chip(1) == -1, g2_chip(2) == -1, g2_chip(3) == -1,
        g2_chip(4) == -1, g2_chip(161) == 1, g2_chip(162) == 1, g2_chip(163) == 1,
        g2_chip(164) == 1, g2_chip(165) == -1, g2_chip(166) == -1, g2_chip(167) == 1,
        g2_chip(168) == -1, g2_chip(169) == 1, g2_chip(170) == -1, g2_chip(171) == 1,
        g2_chip(172) == 1, g2_chip(173) == 1, g2_chip(507) == 1, g2_chip(508) == 1,
        g2_chip(509) == 1, g2_chip(510) == 1, g2_chip(511) == 1, g2_chip(512) == 1,
        g2_chip(513) == 1, g2_chip(514) == 1, g2_chip(515) == -1, g2_chip(516) == -1,
        g2_chip(517) == -1, g2_chip(518) == 1, g2_chip(519) == 1, g2_chip(520) == -1,
        g2_chip(521) == -1, g2_chip(522) == 1, g2_chip(523) == 1, g2_chip(549) == 1,
        g2_chip(550) == 1, g2_chip(551) == 1, g2_chip(552) == 1, g2_chip(553) == 1,
        g2_chip(554) == 1, g2_chip(555) == -1, g2_chip(556) == -1, g2_chip(557) == 1,
        g2_chip(558) == 1, g2_chip(559) == -1, g2_chip(560) == 1, g2_chip(561) == 1,
        g2_chip(562) == 1, g2_chip(563) == -1, g2_chip(765) == 1, g2_chip(766) == 1,
        g2_chip(767) == 1, g2_chip(768) == 1, g2_chip(769) == 1, g2_chip(770) == 1,
        g2_chip(771) == 1, g2_chip(772) == 1, g2_chip(773) == 1, g2_chip(774) == -1,
        g2_chip(775) == 1, g2_chip(776) == -1, g2_chip(777) == -1, g2_chip(778) == -1,
        g2_chip(779) == 1, g2_chip(780) == -1, g2_chip(781) == -1, g2_chip(882) == 1,
        g2_chip(883) == 1, g2_chip(884) == 1, g2_chip(885) == -1, g2_chip(886) == -1,
        g2_chip(887) == 1, g2_chip(888) == -1, g2_chip(889) == 1, g2_chip(890) == 1,
        g2_chip(891) == -1, g2_chip(892) == -1, g2_chip(893) == 1, g2_chip(1005) == 1,
        g2_chip(1006) == 1, g2_chip(1007) == -1, g2_chip(1008) == -1, g2_chip(1009) == 1,
        g2_chip(1010) == -1, g2_chip(1011) == 1, g2_chip(1012) == 1, g2_chip(1013) == -1,
        g2_chip(1014) == 1, g2_chip(1015) == 1, g2_chip(1016) == 1, g2_chip(1017) == 1,
        g2_chip(1018) == 1, g2_chip(1019) == 1, g2_chip(1020) == -1, g2_chip(1021) == -1,
        g2_chip(1022) == 1,
{
    lemma_first_chips_are_ones();
    assert forall|n: nat| #[trigger] g2_chip(n) == 1 - 2 * g2_bit(n) by {
        lemma_chip_is_output_stage(n);
    }
    assert(g2_chip(0) == -1 && g2_chip(1) == -1 && g2_chip(2) == -1 && g2_chip(3) == -1 && g2_chip(4)
        == -1 && g2_chip(5) == -1 && g2_chip(6) == -1 && g2_chip(7) == -1 && g2_chip(8) == -1
        && g2_chip(9) == -1);
    assert(g2_window(10) == (0int, 0int, 1int, 0int, 1int, 1int, 0int, 1int, 0int, 0int)) by {
        lemma_g2_bit_recurrences(0);
    }
    assert(g2_window(20) == (1int, 0int, 1int, 0int, 1int, 1int, 1int, 1int, 0int, 1int)) by {
        lemma_g2_bit_recurrences(10);
    }
    assert(g2_window(30) == (0int, 1int, 0int, 0int, 0int, 0int, 0int, 1int, 1int, 1int)) by {
        lemma_g2_bit_recurrences(20);
    }
    assert(g2_window(40) == (1int, 1int, 0int, 1int, 0int, 1int, 0int, 1int, 0int, 1int)) by {
        lemma_g2_bit_recurrences(30);
    }
    assert(g2_window(50) == (1int, 0int, 1int, 0int, 0int, 0int, 0int, 0int, 1int, 0int)) by {
        lemma_g2_bit_recurrences(40);
    }
    assert(g2_window(60) == (1int, 0int, 0int, 1int, 1int, 1int, 0int, 1int, 1int, 1int)) by {
        lemma_g2_bit_recurrences(50);
    }
    assert(g2_window(70) == (0int, 0int, 1int, 0int, 0int, 0int, 0int, 1int, 1int, 0int)) by {
        lemma_g2_bit_recurrences(60);
    }
    assert(g2_window(80) == (1int, 0int, 0int, 0int, 1int, 1int, 0int, 0int, 1int, 1int)) by {
        lemma_g2_bit_recurrences(70);
    }
    assert(g2_window(90) == (1int, 1int, 1int, 0int, 1int, 1int, 1int, 1int, 0int, 1int)) by {
        lemma_g2_bit_recurrences(80);
    }
    assert(g2_window(100) == (1int, 0int, 1int, 0int, 0int, 1int, 1int, 1int, 1int, 0int)) by {
        lemma_g2_bit_recurrences(90);
    }
    assert(g2_window(110) == (0int, 1int, 0int, 1int, 0int, 0int, 0int, 1int, 1int, 1int)) by {
        lemma_g2_bit_recurrences(100);
    }
    assert(g2_window(120) == (1int, 0int, 1int, 1int, 0int, 0int, 0int, 1int, 0int, 0int)) by {
        lemma_g2_bit_recurrences(110);
    }
    assert(g2_window(130) == (1int, 0int, 1int, 1int, 1int, 1int, 0int, 1int, 1int, 1int)) by {
        lemma_g2_bit_recurrences(120);
    }
    assert(g2_window(140) == (1int, 1int, 1int, 0int, 1int, 0int, 0int, 1int, 0int, 0int)) by {
        lemma_g2_bit_recurrences(130);
    }
    assert(g2_window(150) == (1int, 0int, 1int, 1int, 0int, 1int, 1int, 0int, 0int, 1int)) by {
        lemma_g2_bit_recurrences(140);
    }
    assert(g2_window(160) == (0int, 0int, 0int, 0int, 0int, 1int, 1int, 0int, 1int, 0int)) by {
        lemma_g2_bit_recurrences(150);
    }
    assert(g2_window(170) == (1int, 0int, 0int, 0int, 1int, 0int, 0int, 0int, 0int, 1int)) by {
        lemma_g2_bit_recurrences(160);
    }
    assert(g2_window(180) == (0int, 1int, 0int, 0int, 0int, 1int, 0int, 1int, 0int, 1int)) by {
        lemma_g2_bit_recurrences(170);
    }
    assert(g2_window(190) == (0int, 1int, 1int, 1int, 1int, 1int, 1int, 1int, 0int, 1int)) by {
        lemma_g2_bit_recurrences(180);
    }
    assert(g2_window(200) == (0int, 1int, 1int, 1int, 1int, 0int, 0int, 0int, 0int, 1int)) by {
        lemma_g2_bit_recurrences(190);
    }
    assert(g2_window(210) == (1int, 0int, 1int, 1int, 0int, 1int, 0int, 0int, 0int, 1int)) by {
        lemma_g2_bit_recurrences(200);
    }
    assert(g2_window(220) == (0int, 0int, 1int, 0int, 0int, 1int, 0int, 0int, 1int, 1int)) by {
        lemma_g2_bit_recurrences(210);
    }
    assert(g2_window(230) == (0int, 0int, 0int, 1int, 0int, 1int, 0int, 1int, 1int, 1int)) by {
        lemma_g2_bit_recurrences(220);
    }
    assert(g2_window(240) == (0int, 0int, 0int, 1int, 0int, 0int, 1int, 1int, 1int, 0int)) by {
        lemma_g2_bit_recurrences(230);
    }
    assert(g2_window(250) == (0int, 0int, 0int, 0int, 0int, 0int, 1int, 0int, 0int, 1int)) by {
        lemma_g2_bit_recurrences(240);
    }
    assert(g2_window(260) == (0int, 1int, 0int, 1int, 0int, 1int, 0int, 1int, 0int, 0int)) by {
        lemma_g2_bit_recurrences(250);
    }
    assert(g2_window(270) == (0int, 1int, 1int, 0int, 1int, 1int, 0int, 0int, 0int, 1int)) by {
        lemma_g2_bit_recurrences(260);
    }
    assert(g2_window(280) == (1int, 0int, 0int, 1int, 0int, 1int, 0int, 0int, 1int, 1int)) by {
        lemma_g2_bit_recurrences(270);
    }
    assert(g2_window(290) == (0int, 0int, 0int, 0int, 0int, 0int, 1int, 0int, 1int, 0int)) by {
        lemma_g2_bit_recurrences(280);
    }
    assert(g2_window(300) == (1int, 1int, 0int, 0int, 1int, 1int, 0int, 0int, 1int, 0int)) by {
        lemma_g2_bit_recurrences(290);
    }
    assert(g2_window(310) == (0int, 1int, 1int, 1int, 1int, 1int, 1int, 0int, 0int, 1int)) by {
        lemma_g2_bit_recurrences(300);
    }
    assert(g2_window(320) == (1int, 1int, 0int, 1int, 0int, 0int, 1int, 0int, 1int, 1int)) by {
        lemma_g2_bit_recurrences(310);
    }
    assert(g2_window(330) == (1int, 0int, 0int, 0int, 0int, 0int, 1int, 0int, 0int, 1int)) by {
        lemma_g2_bit_recurrences(320);
    }
    assert(g2_window(340) == (1int, 1int, 1int, 0int, 1int, 1int, 1int, 0int, 1int, 0int)) by {
        lemma_g2_bit_recurrences(330);
    }
    assert(g2_window(350) == (1int, 0int, 0int, 1int, 0int, 1int, 0int, 0int, 1int, 0int)) by {
        lemma_g2_bit_recurrences(340);
    }
    assert(g2_window(360) == (0int, 1int, 1int, 1int, 0int, 1int, 0int, 1int, 1int, 1int)) by {
        lemma_g2_bit_recurrences(350);
    }
    assert(g2_window(370) == (0int, 0int, 1int, 1int, 1int, 1int, 0int, 1int, 0int, 1int)) by {
        lemma_g2_bit_recurrences(360);
    }
    assert(g2_window(380) == (1int, 0int, 1int, 1int, 1int, 1int, 0int, 0int, 0int, 1int)) by {
        lemma_g2_bit_recurrences(370);
    }
    assert(g2_window(390) == (1int, 0int, 1int, 0int, 1int, 1int, 0int, 1int, 0int, 1int)) by {
        lemma_g2_bit_recurrences(380);
    }
    assert(g2_window(400) == (0int, 1int, 1int, 0int, 0int, 0int, 1int, 1int, 1int, 0int)) by {
        lemma_g2_bit_recurrences(390);
    }
    assert(g2_window(410) == (0int, 1int, 0int, 0int, 1int, 0int, 0int, 0int, 1int, 1int)) by {
        lemma_g2_bit_recurrences(400);
    }
    assert(g2_window(420) == (1int, 1int, 1int, 1int, 0int, 1int, 1int, 0int, 0int, 1int)) by {
        lemma_g2_bit_recurrences(410);
    }
    assert(g2_window(430) == (1int, 1int, 1int, 0int, 0int, 0int, 0int, 0int, 1int, 1int)) by {
        lemma_g2_bit_recurrences(420);
    }
    assert(g2_window(440) == (0int, 0int, 0int, 0int, 1int, 1int, 0int, 0int, 1int, 1int)) by {
        lemma_g2_bit_recurrences(430);
    }
    assert(g2_window(450) == (0int, 1int, 0int, 1int, 0int, 1int, 0int, 0int, 1int, 1int)) by {
        lemma_g2_bit_recurrences(440);
    }
    assert(g2_window(460) == (0int, 1int, 0int, 1int, 1int, 1int, 1int, 1int, 0int, 1int)) by {
        lemma_g2_bit_recurrences(450);
    }
    assert(g2_window(470) == (1int, 0int, 1int, 1int, 0int, 0int, 0int, 0int, 1int, 1int)) by {
        lemma_g2_bit_recurrences(460);
    }
    assert(g2_window(480) == (1int, 0int, 0int, 0int, 1int, 1int, 1int, 0int, 1int, 1int)) by {
        lemma_g2_bit_recurrences(470);
    }
    assert(g2_window(490) == (1int, 1int, 0int, 0int, 1int, 1int, 0int, 1int, 0int, 0int)) by {
        lemma_g2_bit_recurrences(480);
    }
    assert(g2_window(500) == (0int, 0int, 1int, 1int, 1int, 0int, 1int, 0int, 0int, 0int)) by {
        lemma_g2_bit_recurrences(490);
    }
    assert(g2_window(510) == (0int, 0int, 0int, 0int, 0int, 1int, 1int, 1int, 0int, 0int)) by {
        lemma_g2_bit_recurrences(500);
    }
    assert(g2_window(520) == (1int, 1int, 0int, 0int, 1int, 1int, 0int, 0int, 0int, 0int)) by {
        lemma_g2_bit_recurrences(510);
    }
    assert(g2_window(530) == (1int, 0int, 0int, 1int, 0int, 0int, 0int, 0int, 1int, 0int)) by {
        lemma_g2_bit_recurrences(520);
    }
    assert(g2_window(540) == (0int, 0int, 1int, 1int, 0int, 0int, 0int, 1int, 0int, 0int)) by {
        lemma_g2_bit_recurrences(530);
    }
    assert(g2_window(550) == (0int, 0int, 0int, 0int, 0int, 1int, 1int, 0int, 0int, 1int)) by {
        lemma_g2_bit_recurrences(540);
    }
    assert(g2_window(560) == (0int, 0int, 0int, 1int, 0int, 0int, 0int, 1int, 1int, 1int)) by {
        lemma_g2_bit_recurrences(550);
    }
    assert(g2_window(570) == (0int, 1int, 0int, 1int, 0int, 1int, 1int, 1int, 0int, 1int)) by {
        lemma_g2_bit_recurrences(560);
    }
    assert(g2_window(580) == (0int, 0int, 1int, 1int, 1int, 0int, 0int, 1int, 0int, 1int)) by {
        lemma_g2_bit_recurrences(570);
    }
    assert(g2_window(590) == (1int, 1int, 1int, 1int, 1int, 0int, 0int, 0int, 1int, 0int)) by {
        lemma_g2_bit_recurrences(580);
    }
    assert(g2_window(600) == (1int, 0int, 0int, 1int, 0int, 1int, 1int, 0int, 0int, 1int)) by {
        lemma_g2_bit_recurrences(590);
    }
    assert(g2_window(610) == (1int, 1int, 0int, 0int, 1int, 1int, 1int, 0int, 0int, 0int)) by {
        lemma_g2_bit_recurrences(600);
    }
    assert(g2_window(620) == (1int, 0int, 1int, 1int, 0int, 0int, 1int, 0int, 1int, 1int)) by {
        lemma_g2_bit_recurrences(610);
    }
    assert(g2_window(630) == (1int, 0int, 1int, 0int, 1int, 1int, 0int, 0int, 1int, 0int)) by {
        lemma_g2_bit_recurrences(620);
    }
    assert(g2_window(640) == (0int, 1int, 0int, 1int, 0int, 0int, 0int, 0int, 1int, 0int)) by {
        lemma_g2_bit_recurrences(630);
    }
    assert(g2_window(650) == (0int, 1int, 1int, 0int, 1int, 1int, 0int, 0int, 1int, 1int)) by {
        lemma_g2_bit_recurrences(640);
    }
    assert(g2_window(660) == (0int, 1int, 1int, 1int, 1int, 0int, 1int, 0int, 0int, 0int)) by {
        lemma_g2_bit_recurrences(650);
    }
    assert(g2_window(670) == (1int, 1int, 1int, 0int, 0int, 0int, 0int, 1int, 0int, 1int)) by {
        lemma_g2_bit_recurrences(660);
    }
    assert(g2_window(680) == (0int, 1int, 0int, 0int, 1int, 0int, 0int, 0int, 1int, 0int)) by {
        lemma_g2_bit_recurrences(670);
    }
    assert(g2_window(690) == (1int, 0int, 0int, 0int, 0int, 0int, 0int, 1int, 0int, 0int)) by {
        lemma_g2_bit_recurrences(680);
    }
    assert(g2_window(700) == (0int, 0int, 0int, 1int, 0int, 0int, 0int, 1int, 0int, 0int)) by {
        lemma_g2_bit_recurrences(690);
    }
    assert(g2_window(710) == (1int, 1int, 0int, 0int, 1int, 1int, 1int, 0int, 1int, 1int)) by {
        lemma_g2_bit_recurrences(700);
    }
    assert(g2_window(720) == (0int, 0int, 1int, 0int, 1int, 0int, 1int, 1int, 0int, 1int)) by {
        lemma_g2_bit_recurrences(710);
    }
    assert(g2_window(730) == (1int, 0int, 1int, 1int, 1int, 1int, 1int, 0int, 1int, 0int)) by {
        lemma_g2_bit_recurrences(720);
    }
    assert(g2_window(740) == (0int, 0int, 0int, 1int, 0int, 1int, 1int, 0int, 1int, 0int)) by {
        lemma_g2_bit_recurrences(730);
    }
    assert(g2_window(750) == (1int, 1int, 1int, 0int, 1int, 1int, 0int, 0int, 0int, 0int)) by {
        lemma_g2_bit_recurrences(740);
    }
    assert(g2_window(760) == (0int, 1int, 0int, 1int, 1int, 0int, 0int, 0int, 0int, 0int)) by {
        lemma_g2_bit_recurrences(750);
    }
    assert(g2_window(770) == (0int, 0int, 0int, 0int, 1int, 0int, 1int, 1int, 1int, 0int)) by {
        lemma_g2_bit_recurrences(760);
    }
    assert(g2_window(780) == (1int, 1int, 1int, 0int, 1int, 1int, 1int, 1int, 1int, 0int)) by {
        lemma_g2_bit_recurrences(770);
    }
    assert(g2_window(790) == (0int, 0int, 1int, 1int, 1int, 1int, 1int, 0int, 0int, 0int)) by {
        lemma_g2_bit_recurrences(780);
    }
    assert(g2_window(800) == (0int, 1int, 0int, 0int, 0int, 0int, 1int, 1int, 1int, 1int)) by {
        lemma_g2_bit_recurrences(790);
    }
    assert(g2_window(810) == (1int, 1int, 1int, 1int, 0int, 1int, 1int, 1int, 0int, 0int)) by {
        lemma_g2_bit_recurrences(800);
    }
    assert(g2_window(820) == (0int, 0int, 1int, 1int, 1int, 1int, 0int, 1int, 0int, 0int)) by {
        lemma_g2_bit_recurrences(810);
    }
    assert(g2_window(830) == (1int, 1int, 0int, 0int, 1int, 0int, 1int, 1int, 0int, 0int)) by {
        lemma_g2_bit_recurrences(820);
    }
    assert(g2_window(840) == (0int, 1int, 0int, 1int, 1int, 1int, 0int, 0int, 1int, 0int)) by {
        lemma_g2_bit_recurrences(830);
    }
    assert(g2_window(850) == (1int, 0int, 1int, 0int, 0int, 0int, 0int, 1int, 1int, 0int)) by {
        lemma_g2_bit_recurrences(840);
    }
    assert(g2_window(860) == (0int, 0int, 1int, 1int, 0int, 1int, 1int, 1int, 0int, 1int)) by {
        lemma_g2_bit_recurrences(850);
    }
    assert(g2_window(870) == (0int, 0int, 0int, 1int, 0int, 1int, 1int, 1int, 1int, 0int)) by {
        lemma_g2_bit_recurrences(860);
    }
    assert(g2_window(880) == (0int, 1int, 0int, 0int, 0int, 1int, 1int, 0int, 1int, 0int)) by {
        lemma_g2_bit_recurrences(870);
    }
    assert(g2_window(890) == (0int, 1int, 1int, 0int, 1int, 1int, 1int, 0int, 0int, 0int)) by {
        lemma_g2_bit_recurrences(880);
    }
    assert(g2_window(900) == (1int, 1int, 0int, 0int, 0int, 0int, 0int, 1int, 1int, 1int)) by {
        lemma_g2_bit_recurrences(890);
    }
    assert(g2_window(910) == (0int, 1int, 1int, 0int, 1int, 1int, 1int, 0int, 1int, 1int)) by {
        lemma_g2_bit_recurrences(900);
    }
    assert(g2_window(920) == (0int, 1int, 0int, 1int, 1int, 0int, 0int, 0int, 0int, 1int)) by {
        lemma_g2_bit_recurrences(910);
    }
    assert(g2_window(930) == (0int, 1int, 1int, 1int, 1int, 1int, 0int, 0int, 1int, 1int)) by {
        lemma_g2_bit_recurrences(920);
    }
    assert(g2_window(940) == (0int, 0int, 0int, 1int, 1int, 1int, 1int, 0int, 0int, 1int)) by {
        lemma_g2_bit_recurrences(930);
    }
    assert(g2_window(950) == (1int, 1int, 1int, 1int, 1int, 1int, 0int, 0int, 0int, 0int)) by {
        lemma_g2_bit_recurrences(940);
    }
    assert(g2_window(960) == (0int, 0int, 1int, 1int, 1int, 1int, 0int, 0int, 0int, 1int)) by {
        lemma_g2_bit_recurrences(950);
    }
    assert(g2_window(970) == (0int, 0int, 0int, 1int, 0int, 1int, 1int, 0int, 1int, 1int)) by {
        lemma_g2_bit_recurrences(960);
    }
    assert(g2_window(980) == (1int, 0int, 0int, 1int, 1int, 0int, 1int, 1int, 0int, 1int)) by {
        lemma_g2_bit_recurrences(970);
    }
    assert(g2_window(990) == (1int, 0int, 1int, 0int, 1int, 0int, 0int, 1int, 1int, 1int)) by {
        lemma_g2_bit_recurrences(980);
    }
    assert(g2_window(1000) == (1int, 1int, 0int, 0int, 1int, 0int, 0int, 1int, 1int, 0int)) by {
        lemma_g2_bit_recurrences(990);
    }
    assert(g2_window(1010) == (1int, 0int, 0int, 1int, 0int, 0int, 0int, 0int, 0int, 0int)) by {
        lemma_g2_bit_recurrences(1000);
    }
    assert(g2_window(1020) == (1int, 1int, 0int, 1int, 1int, 1int, 1int, 1int, 1int, 1int)) by {
        lemma_g2_bit_recurrences(1010);
    }
}

/// The first ten chips of the C/A code of a satellite, as the octal number
/// IS-GPS-200 lists them with: chip 0 is the most significant bit.
pub open spec fn first_ten_chips(prn: int) -> int {
    ca_bit(prn, 0) * 512 + ca_bit(prn, 1) * 256 + ca_bit(prn, 2) * 128 + ca_bit(prn, 3) * 64
        + ca_bit(prn, 4) * 32 + ca_bit(prn, 5) * 16 + ca_bit(prn, 6) * 8 + ca_bit(prn, 7) * 4
        + ca_bit(prn, 8) * 2 + ca_bit(prn, 9)
}

/// The first ten chips of each C/A code in octal, as IS-GPS-200 Table 3-Ia
/// lists them for PRNs 1 to 32.
pub open spec fn icd_first_ten_chips(prn: int) -> int {
    seq![0o1440, 0o1620, 0o1710, 0o1744, 0o1133, 0o1455, 0o1131, 0o1454, 0o1626, 0o1504, 0o1642, 0o1750, 0o1764, 0o1772, 0o1775, 0o1776, 0o1156, 0o1467, 0o1633, 0o1715, 0o1746, 0o1763, 0o1063, 0o1706, 0o1743, 0o1761, 0o1770, 0o1774, 0o1127, 0o1453, 0o1625, 0o1712][prn - 1]
}

/// PRN 1 starts with its listed chips.
proof fn lemma_code_1_starts_as_listed()
    ensures
        first_ten_chips(1) == icd_first_ten_chips(1),
{
    lemma_first_chips_are_ones();
    lemma_g2_chip_values();
    assert(g2_delay(1) == 5);
}

/// PRN 2 starts with its listed chips.
proof fn lemma_code_2_starts_as_listed()
    ensures
        first_ten_chips(2) == icd_first_ten_chips(2),
{
    lemma_first_chips_are_ones();
    lemma_g2_chip_values();
    assert(g2_delay(2) == 6);
}

/// PRN 3 starts with its listed chips.
proof fn lemma_code_3_starts_as_listed()
    ensures
        first_ten_chips(3) == icd_first_ten_chips(3),
{
    lemma_first_chips_are_ones();
    lemma_g2_chip_values();
    assert(g2_delay(3) == 7);
}

/// PRN 4 starts with its listed chips.
proof fn lemma_code_4_starts_as_listed()
    ensures
        first_ten_chips(4) == icd_first_ten_chips(4),
{
    lemma_first_chips_are_ones();
    lemma_g2_chip_values();
    assert(g2_delay(4) == 8);
}

/// PRN 5 starts with its listed chips.
proof fn lemma_code_5_starts_as_listed()
    ensures
        first_ten_chips(5) == icd_first_ten_chips(5),
{
    lemma_first_chips_are_ones();
    lemma_g2_chip_values();
    assert(g2_delay(5) == 17);
}

/// PRN 6 starts with its listed chips.
proof fn lemma_code_6_starts_as_listed()
    ensures
        first_ten_chips(6) == icd_first_ten_chips(6),
{
    lemma_first_chips_are_ones();
    lemma_g2_chip_values();
    assert(g2_delay(6) == 18);
}

/// PRN 7 starts with its listed chips.
proof fn lemma_code_7_starts_as_listed()
    ensures
        first_ten_chips(7) == icd_first_ten_chips(7),
{
    lemma_first_chips_are_ones();
    lemma_g2_chip_values();
    assert(g2_delay(7) == 139);
}

/// PRN 8 starts with its listed chips.
proof fn lemma_code_8_starts_as_listed()
    ensures
        first_ten_chips(8) == icd_first_ten_chips(8),
{
    lemma_first_chips_are_ones();
    lemma_g2_chip_values();
    assert(g2_delay(8) == 140);
}

/// PRN 9 starts with its listed chips.
proof fn lemma_code_9_starts_as_listed()
    ensures
        first_ten_chips(9) == icd_first_ten_chips(9),
{
    lemma_first_chips_are_ones();
    lemma_g2_chip_values();
    assert(g2_delay(9) == 141);
}

/// PRN 10 starts with its listed chips.
proof fn lemma_code_10_starts_as_listed()
    ensures
        first_ten_chips(10) == icd_first_ten_chips(10),
{
    lemma_first_chips_are_ones();
    lemma_g2_chip_values();
    assert(g2_delay(10) == 251);
}

/// PRN 11 starts with its listed chips.
proof fn lemma_code_11_starts_as_listed()
    ensures
        first_ten_chips(11) == icd_first_ten_chips(11),
{
    lemma_first_chips_are_ones();
    lemma_g2_chip_values();
    assert(g2_delay(11) == 252);
}

/// PRN 12 starts with its listed chips.
proof fn lemma_code_12_starts_as_listed()
    ensures
        first_ten_chips(12) == icd_first_ten_chips(12),
{
    lemma_first_chips_are_ones();
    lemma_g2_chip_values();
    assert(g2_delay(12) == 254);
}

/// PRN 13 starts with its listed chips.
proof fn lemma_code_13_starts_as_listed()
    ensures
        first_ten_chips(13) == icd_first_ten_chips(13),
{
    lemma_first_chips_are_ones();
    lemma_g2_chip_values();
    assert(g2_delay(13) == 255);
}

/// PRN 14 starts with its listed chips.
proof fn lemma_code_14_starts_as_listed()
    ensures
        first_ten_chips(14) == icd_first_ten_chips(14),
{
    lemma_first_chips_are_ones();
    lemma_g2_chip_values();
    assert(g2_delay(14) == 256);
}

/// PRN 15 starts with its listed chips.
proof fn lemma_code_15_starts_as_listed()
    ensures
        first_ten_chips(15) == icd_first_ten_chips(15),
{
    lemma_first_chips_are_ones();
    lemma_g2_chip_values();
    assert(g2_delay(15) == 257);
}

/// PRN 16 starts with its listed chips.
proof fn lemma_code_16_starts_as_listed()
    ensures
        first_ten_chips(16) == icd_first_ten_chips(16),
{
    lemma_first_chips_are_ones();
    lemma_g2_chip_values();
    assert(g2_delay(16) == 258);
}

/// PRN 17 starts with its listed chips.
proof fn lemma_code_17_starts_as_listed()
    ensures
        first_ten_chips(17) == icd_first_ten_chips(17),
{
    lemma_first_chips_are_ones();
    lemma_g2_chip_values();
    assert(g2_delay(17) == 469);
}

/// PRN 18 starts with its listed chips.
proof fn lemma_code_18_starts_as_listed()
    ensures
        first_ten_chips(18) == icd_first_ten_chips(18),
{
    lemma_first_chips_are_ones();
    lemma_g2_chip_values();
    assert(g2_delay(18) == 470);
}

/// PRN 19 starts with its listed chips.
proof fn lemma_code_19_starts_as_listed()
    ensures
        first_ten_chips(19) == icd_first_ten_chips(19),
{
    lemma_first_chips_are_ones();
    lemma_g2_chip_values();
    assert(g2_delay(19) == 471);
}

/// PRN 20 starts with its listed chips.
proof fn lemma_code_20_starts_as_listed()
    ensures
        first_ten_chips(20) == icd_first_ten_chips(20),
{
    lemma_first_chips_are_ones();
    lemma_g2_chip_values();
    assert(g2_delay(20) == 472);
}

/// PRN 21 starts with its listed chips.
proof fn lemma_code_21_starts_as_listed()
    ensures
        first_ten_chips(21) == icd_first_ten_chips(21),
{
    lemma_first_chips_are_ones();
    lemma_g2_chip_values();
    assert(g2_delay(21) == 473);
}

/// PRN 22 starts with its listed chips.
proof fn lemma_code_22_starts_as_listed()
    ensures
        first_ten_chips(22) == icd_first_ten_chips(22),
{
    lemma_first_chips_are_ones();
    lemma_g2_chip_values();
    assert(g2_delay(22) == 474);
}

/// PRN 23 starts with its listed chips.
proof fn lemma_code_23_starts_as_listed()
    ensures
        first_ten_chips(23) == icd_first_ten_chips(23),
{
    lemma_first_chips_are_ones();
    lemma_g2_chip_values();
    assert(g2_delay(23) == 509);
}

/// PRN 24 starts with its listed chips.
proof fn lemma_code_24_starts_as_listed()
    ensures
        first_ten_chips(24) == icd_first_ten_chips(24),
{
    lemma_first_chips_are_ones();
    lemma_g2_chip_values();
    assert(g2_delay(24) == 512);
}

/// PRN 25 starts with its listed chips.
proof fn lemma_code_25_starts_as_listed()
    ensures
        first_ten_chips(25) == icd_first_ten_chips(25),
{
    lemma_first_chips_are_ones();
    lemma_g2_chip_values();
    assert(g2_delay(25) == 513);
}

/// PRN 26 starts with its listed chips.
proof fn lemma_code_26_starts_as_listed()
    ensures
        first_ten_chips(26) == icd_first_ten_chips(26),
{
    lemma_first_chips_are_ones();
    lemma_g2_chip_values();
    assert(g2_delay(26) == 514);
}

/// PRN 27 starts with its listed chips.
proof fn lemma_code_27_starts_as_listed()
    ensures
        first_ten_chips(27) == icd_first_ten_chips(27),
{
    lemma_first_chips_are_ones();
    lemma_g2_chip_values();
    assert(g2_delay(27) == 515);
}

/// PRN 28 starts with its listed chips.
proof fn lemma_code_28_starts_as_listed()
    ensures
        first_ten_chips(28) == icd_first_ten_chips(28),
{
    lemma_first_chips_are_ones();
    lemma_g2_chip_values();
    assert(g2_delay(28) == 516);
}

/// PRN 29 starts with its listed chips.
proof fn lemma_code_29_starts_as_listed()
    ensures
        first_ten_chips(29) == icd_first_ten_chips(29),
{
    lemma_first_chips_are_ones();
    lemma_g2_chip_values();
    assert(g2_delay(29) == 859);
}

/// PRN 30 starts with its listed chips.
proof fn lemma_code_30_starts_as_listed()
    ensures
        first_ten_chips(30) == icd_first_ten_chips(30),
{
    lemma_first_chips_are_ones();
    lemma_g2_chip_values();
    assert(g2_delay(30) == 860);
}

/// PRN 31 starts with its listed chips.
proof fn lemma_code_31_starts_as_listed()
    ensures
        first_ten_chips(31) == icd_first_ten_chips(31),
{
    lemma_first_chips_are_ones();
    lemma_g2_chip_values();
    assert(g2_delay(31) == 861);
}

/// PRN 32 starts with its listed chips.
proof fn lemma_code_32_starts_as_listed()
    ensures
        first_ten_chips(32) == icd_first_ten_chips(32),
{
    lemma_first_chips_are_ones();
    lemma_g2_chip_values();
    assert(g2_delay(32) == 862);
}

/// The C/A code of every PRN from 1 to 32 starts with the ten chips that
/// IS-GPS-200 lists for it.
pub proof fn lemma_codes_start_as_listed(prn: int)
    requires
        1 <= prn <= 32,
    ensures
        first_ten_chips(prn) == icd_first_ten_chips(prn),
{
    if prn == 1 {
        lemma_code_1_starts_as_listed();
    } else if prn == 2 {
        lemma_code_2_starts_as_listed();
    } else if prn == 3 {
        lemma_code_3_starts_as_listed();
    } else if prn == 4 {
        lemma_code_4_starts_as_listed();
    } else if prn == 5 {
        lemma_code_5_starts_as_listed();
    } else if prn == 6 {
        lemma_code_6_starts_as_listed();
    } else if prn == 7 {
        lemma_code_7_starts_as_listed();
    } else if prn == 8 {
        lemma_code_8_starts_as_listed();
    } else if prn == 9 {
        lemma_code_9_starts_as_listed();
    } else if prn == 10 {
        lemma_code_10_starts_as_listed();
    } else if prn == 11 {
        lemma_code_11_starts_as_listed();
    } else if prn == 12 {
        lemma_code_12_starts_as_listed();
    } else if prn == 13 {
        lemma_code_13_starts_as_listed();
    } else if prn == 14 {
        lemma_code_14_starts_as_listed();
    } else if prn == 15 {
        lemma_code_15_starts_as_listed();
    } else if prn == 16 {
        lemma_code_16_starts_as_listed();
    } else if prn == 17 {
        lemma_code_17_starts_as_listed();
    } else if prn == 18 {
        lemma_code_18_starts_as_listed();
    } else if prn == 19 {
        lemma_code_19_starts_as_listed();
    } else if prn == 20 {
        lemma_code_20_starts_as_listed();
    } else if prn == 21 {
        lemma_code_21_starts_as_listed();
    } else if prn == 22 {
        lemma_code_22_starts_as_listed();
    } else if prn == 23 {
        lemma_code_23_starts_as_listed();
    } else if prn == 24 {
        lemma_code_24_starts_as_listed();
    } else if prn == 25 {
        lemma_code_25_starts_as_listed();
    } else if prn == 26 {
        lemma_code_26_starts_as_listed();
    } else if prn == 27 {
        lemma_code_27_starts_as_listed();
    } else if prn == 28 {
        lemma_code_28_starts_as_listed();
    } else if prn == 29 {
        lemma_code_29_starts_as_listed();
    } else if prn == 30 {
        lemma_code_30_starts_as_listed();
    } else if prn == 31 {
        lemma_code_31_starts_as_listed();
    } else {
        lemma_code_32_starts_as_listed();
    }
}


/// A G1 chip as a bit: 1 for the chip -1 (logic one), 0 for +1.
pub open spec fn g1_bit(n: nat) -> int {
    (1 - g1_chip(n)) / 2
}

/// The G1 bits follow the IS-GPS-200 polynomial 1 + X^3 + X^10: each bit is
/// the modulo-2 sum of the bits 10 and 3 chips before it.
pub proof fn lemma_g1_bit_recurrence(n: nat)
    ensures
        g1_bit(n + 10) == (g1_bit(n) + g1_bit(n + 7)) % 2,
{
    lemma_g1_shift(n + 1, 9, 9);
    lemma_chip_is_output_stage(n + 10);
    lemma_registers_are_units(n);
    let r = g1_register(n);
    assert(g1_register(n + 1) == g1_step(r));
    lemma_g1_shift(n, 7, 9);
    lemma_g1_shift(n, 0, 9);
    lemma_chip_is_output_stage(n);
    lemma_chip_is_output_stage(n + 7);
    lemma_unit_product_bit(r[2] as int, r[9] as int);
}

} // verus!
