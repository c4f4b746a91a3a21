//! Equal-tempered frequencies as exact binary fractions.
//!
//! A frequency is held as `mantissa * 2^exponent` hertz. The twelve pitches
//! of the octave that starts at the 440 Hz anchor have their mantissas in a
//! table; every other pitch is one of them moved by whole octaves, which
//! changes the exponent alone.

use vstd::prelude::*;
use vstd::arithmetic::mul::{lemma_mul_inequality, lemma_mul_is_commutative};
use vstd::arithmetic::power2::{
    lemma2_to64, lemma2_to64_rest, lemma_pow2_adds, lemma_pow2_strictly_increases, pow2,
};
use crate::note::Note;

verus! {

/// Number of fraction bits that a mantissa carries at exponent 0 of the
/// anchor's octave.
pub const FRACTION_BITS: i64 = 43;

/// Mantissa of the anchor: 440 with `FRACTION_BITS` fraction bits.
pub const ANCHOR_MANTISSA: u64 = 3870280929771520;

/// A frequency of `mantissa * 2^exponent` hertz.
#[derive(Clone, Copy, Debug, PartialEq, Eq, Structural)]
pub struct Frequency {
    pub mantissa: u64,
    pub exponent: i64,
}

impl Frequency {
    /// The mantissa lies in the octave that starts at the anchor.
    pub open spec fn is_normal(self) -> bool {
        ANCHOR_MANTISSA <= self.mantissa < 2 * ANCHOR_MANTISSA
    }

    /// The frequency counted in units of `2^unit` hertz. The count is exact
    /// for every `unit` up to the exponent.
    pub open spec fn in_units(self, unit: int) -> int
        recommends
            unit <= self.exponent,
    {
        self.mantissa * pow2((self.exponent - unit) as nat)
    }

    /// The smaller of the two exponents: a unit in which both frequencies
    /// are whole numbers.
    pub open spec fn common_unit(self, other: Frequency) -> int {
        if self.exponent <= other.exponent {
            self.exponent as int
        } else {
            other.exponent as int
        }
    }

    /// `self` is a strictly lower frequency than `other`.
    pub open spec fn is_below(self, other: Frequency) -> bool {
        self.in_units(self.common_unit(other)) < other.in_units(self.common_unit(other))
    }

    /// `self` is exactly twice the frequency `other`.
    pub open spec fn is_double_of(self, other: Frequency) -> bool {
        self.in_units(self.common_unit(other)) == 2 * other.in_units(self.common_unit(other))
    }
}

/// The twelfth power of `x`.
pub open spec fn pow12(x: int) -> int {
    let x2 = x * x;
    let x4 = x2 * x2;
    x4 * x4 * x4
}

/// `m` is the anchor mantissa raised by `step` equal-tempered semitones and
/// rounded down: `m <= ANCHOR_MANTISSA * 2^(step/12) < m + 1`, stated over
/// twelfth powers.
pub open spec fn is_semitone_floor(m: int, step: int) -> bool {
    &&& 0 <= m
    &&& pow12(m) <= pow12(ANCHOR_MANTISSA as int) * pow2(step as nat)
    &&& pow12(ANCHOR_MANTISSA as int) * pow2(step as nat) < pow12(m + 1)
}

/// Mantissa of the pitch `step` semitones above the anchor, for the twelve
/// steps of one octave.
pub open spec fn semitone_mantissa(step: int) -> int {
    if step == 0 {
        3870280929771520
    } else if step == 1 {
        4100419809895504
    } else if step == 2 {
        4344243459964044
    } else if step == 3 {
        4602565618743638
    } else if step == 4 {
        4876248412425839
    } else if step == 5 {
        5166205231893280
    } else if step == 6 {
        5473403781076835
    } else if step == 7 {
        5798869306577531
    } else if step == 8 {
        6143688019331772
    } else if step == 9 {
        6509010719739368
    } else if step == 10 {
        6896056638352895
    } else {
        7306117504946318
    }
}

/// `f` is 440 Hz raised by `semitones` equal-tempered semitones and rounded
/// down to a whole multiple of `2^f.exponent` hertz. With `t` for the exact
/// frequency, `t^12 == 440^12 * 2^semitones`; the predicate says
/// `f <= t < f + 2^f.exponent`, with both sides counted in units of
/// `2^f.exponent` hertz and raised to the twelfth power.
pub open spec fn is_equal_tempered(f: Frequency, semitones: int) -> bool {
    let shift = semitones - 12 * f.exponent;
    &&& shift >= 0
    &&& pow12(f.mantissa as int) <= pow12(440) * pow2(shift as nat)
    &&& pow12(440) * pow2(shift as nat) < pow12(f.mantissa + 1)
}

/// The frequency of a note: the table entry of its semitone within the
/// anchor's octave, moved by the whole octaves between the two.
pub open spec fn note_frequency(note: Note) -> Frequency {
    let offset = note.spec_semitone_offset();
    Frequency {
        mantissa: semitone_mantissa(offset % 12) as u64,
        exponent: (offset / 12 - FRACTION_BITS) as i64,
    }
}

fn mantissa_of_step(step: u8) -> (m: u64)
    requires
        step < 12,
    ensures
        m == semitone_mantissa(step as int),
{
    match step {
        0 => 3870280929771520,
        1 => 4100419809895504,
        2 => 4344243459964044,
        3 => 4602565618743638,
        4 => 4876248412425839,
        5 => 5166205231893280,
        6 => 5473403781076835,
        7 => 5798869306577531,
        8 => 6143688019331772,
        9 => 6509010719739368,
        10 => 6896056638352895,
        _ => 7306117504946318,
    }
}

/// Resolves a note to its equal-tempered frequency.
pub fn get_note_frequency(note: &Note) -> (f: Frequency)
    ensures
        f == note_frequency(*note),
        f.is_normal(),
        is_equal_tempered(f, note.spec_semitone_offset()),
{
    proof {
        lemma_frequency_is_equal_tempered(*note);
    }
    let pc: u8 = note.note.pitch_class();
    let octave: i64 = note.octave as i64;
    if pc >= 9 {
        Frequency { mantissa: mantissa_of_step(pc - 9), exponent: octave - FRACTION_BITS }
    } else {
        Frequency { mantissa: mantissa_of_step(pc + 3), exponent: octave - 1 - FRACTION_BITS }
    }
}

/// Every entry of the mantissa table is the anchor raised by that many
/// semitones, rounded down to an integer.
pub proof fn lemma_semitone_mantissa_is_floor(step: int)
    requires
        0 <= step < 12,
    ensures
        is_semitone_floor(semitone_mantissa(step), step),
{
    lemma2_to64();
    if step == 0 {
        assert(pow12(3870280929771520) <= pow12(3870280929771520) * 1) by (nonlinear_arith);
        assert(pow12(3870280929771520) * 1 < pow12(3870280929771521)) by (nonlinear_arith);
    } else if step == 1 {
        assert(pow12(4100419809895504) <= pow12(3870280929771520) * 2) by (nonlinear_arith);
        assert(pow12(3870280929771520) * 2 < pow12(4100419809895505)) by (nonlinear_arith);
    } else if step == 2 {
        assert(pow12(4344243459964044) <= pow12(3870280929771520) * 4) by (nonlinear_arith);
        assert(pow12(3870280929771520) * 4 < pow12(4344243459964045)) by (nonlinear_arith);
    } else if step == 3 {
        assert(pow12(4602565618743638) <= pow12(3870280929771520) * 8) by (nonlinear_arith);
        assert(pow12(3870280929771520) * 8 < pow12(4602565618743639)) by (nonlinear_arith);
    } else if step == 4 {
        assert(pow12(4876248412425839) <= pow12(3870280929771520) * 16) by (nonlinear_arith);
        assert(pow12(3870280929771520) * 16 < pow12(4876248412425840)) by (nonlinear_arith);
    } else if step == 5 {
        assert(pow12(5166205231893280) <= pow12(3870280929771520) * 32) by (nonlinear_arith);
        assert(pow12(3870280929771520) * 32 < pow12(5166205231893281)) by (nonlinear_arith);
    } else if step == 6 {
        assert(pow12(5473403781076835) <= pow12(3870280929771520) * 64) by (nonlinear_arith);
        assert(pow12(3870280929771520) * 64 < pow12(5473403781076836)) by (nonlinear_arith);
    } else if step == 7 {
        assert(pow12(5798869306577531) <= pow12(3870280929771520) * 128) by (nonlinear_arith);
        assert(pow12(3870280929771520) * 128 < pow12(5798869306577532)) by (nonlinear_arith);
    } else if step == 8 {
        assert(pow12(6143688019331772) <= pow12(3870280929771520) * 256) by (nonlinear_arith);
        assert(pow12(3870280929771520) * 256 < pow12(6143688019331773)) by (nonlinear_arith);
    } else if step == 9 {
        assert(pow12(6509010719739368) <= pow12(3870280929771520) * 512) by (nonlinear_arith);
        assert(pow12(3870280929771520) * 512 < pow12(6509010719739369)) by (nonlinear_arith);
    } else if step == 10 {
        assert(pow12(6896056638352895) <= pow12(3870280929771520) * 1024) by (nonlinear_arith);
        assert(pow12(3870280929771520) * 1024 < pow12(6896056638352896)) by (nonlinear_arith);
    } else {
        assert(pow12(7306117504946318) <= pow12(3870280929771520) * 2048) by (nonlinear_arith);
        assert(pow12(3870280929771520) * 2048 < pow12(7306117504946319)) by (nonlinear_arith);
    }
}

proof fn lemma_pow12_of_anchor()
    ensures
        pow12(ANCHOR_MANTISSA as int) == pow12(440) * pow2(516),
{
    lemma2_to64_rest();
    let p: int = pow2(43) as int;
    assert(ANCHOR_MANTISSA as int == 440 * p);
    lemma_pow2_adds(43, 43);
    lemma_pow2_adds(86, 86);
    lemma_pow2_adds(172, 172);
    lemma_pow2_adds(344, 172);
    assert(pow12(p) == pow2(516));
    assert(pow12(440 * p) == pow12(440) * pow12(p)) by (nonlinear_arith);
}

/// The frequency of every note is the equal-tempered one: 440 Hz raised by
/// the note's distance from the anchor in semitones, rounded down at the
/// 53rd significant bit.
pub proof fn lemma_frequency_is_equal_tempered(note: Note)
    ensures
        note_frequency(note).is_normal(),
        is_equal_tempered(note_frequency(note), note.spec_semitone_offset()),
{
    let offset = note.spec_semitone_offset();
    let step = offset % 12;
    let f = note_frequency(note);
    lemma_semitone_mantissa_is_floor(step);
    lemma_pow12_of_anchor();
    lemma_pow2_adds(516, step as nat);
    let shift = offset - 12 * f.exponent;
    assert(shift == 516 + step);
    assert(pow12(ANCHOR_MANTISSA as int) * pow2(step as nat) == pow12(440) * pow2(shift as nat))
        by (nonlinear_arith)
        requires
            pow12(ANCHOR_MANTISSA as int) == pow12(440) * pow2(516),
            pow2(516) * pow2(step as nat) == pow2(shift as nat),
    ;
}

/// One octave up is exactly twice the frequency.
pub proof fn lemma_octave_doubles(lo: Note, hi: Note)
    requires
        hi.note == lo.note,
        hi.octave == lo.octave + 1,
    ensures
        note_frequency(hi).is_double_of(note_frequency(lo)),
{
    lemma2_to64();
    let f_lo = note_frequency(lo);
    let f_hi = note_frequency(hi);
    assert(hi.spec_semitone_offset() == lo.spec_semitone_offset() + 12);
    assert(f_hi.mantissa == f_lo.mantissa);
    assert(f_hi.exponent == f_lo.exponent + 1);
    let unit = f_hi.common_unit(f_lo);
    assert(unit == f_lo.exponent);
    assert(f_lo.in_units(unit) == f_lo.mantissa * pow2(0));
    assert(f_hi.in_units(unit) == f_hi.mantissa * pow2(1));
}

/// A note that lies more semitones above C of the reference octave than
/// another has the strictly higher frequency, in whichever octaves the two
/// lie.
pub proof fn lemma_higher_pitch_sounds_higher(lo: Note, hi: Note)
    requires
        lo.spec_semitone_index() < hi.spec_semitone_index(),
    ensures
        note_frequency(lo).is_below(note_frequency(hi)),
{
    lemma2_to64();
    let f_lo = note_frequency(lo);
    let f_hi = note_frequency(hi);
    let unit = f_lo.common_unit(f_hi);
    assert(unit == f_lo.exponent);
    assert(f_lo.in_units(unit) == f_lo.mantissa * pow2(0));
    let octaves = f_hi.exponent - f_lo.exponent;
    assert(f_hi.in_units(unit) == f_hi.mantissa * pow2(octaves as nat));
    if octaves == 0 {
        let step_lo = lo.spec_semitone_offset() % 12;
        let step_hi = hi.spec_semitone_offset() % 12;
        assert(step_lo < step_hi);
        assert(semitone_mantissa(step_lo) < semitone_mantissa(step_hi));
        assert(f_hi.in_units(unit) == f_hi.mantissa * pow2(0));
    } else {
        let factor = pow2(octaves as nat) as int;
        lemma_pow2_strictly_increases(0, octaves as nat);
        lemma_mul_inequality(2, factor, f_hi.mantissa as int);
        lemma_mul_is_commutative(factor, f_hi.mantissa as int);
        assert(f_lo.mantissa < 2 * ANCHOR_MANTISSA);
        assert(2 * ANCHOR_MANTISSA <= 2 * f_hi.mantissa);
    }
}

/// Within an octave, each pitch class sounds strictly higher than the one
/// before it.
pub proof fn lemma_pitch_class_rises(lo: Note, hi: Note)
    requires
        hi.octave == lo.octave,
        hi.note.spec_pitch_class() == lo.note.spec_pitch_class() + 1,
    ensures
        note_frequency(lo).is_below(note_frequency(hi)),
{
    lemma_higher_pitch_sounds_higher(lo, hi);
}

} // verus!
