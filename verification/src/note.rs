//! Notes, pitch classes and chords.

use vstd::prelude::*;

verus! {

/// The twelve pitch classes of an octave, in rising order.
#[derive(Clone, Copy, Debug, PartialEq, Eq, Structural)]
pub enum BaseNote {
    C,
    Cis,
    D,
    Dis,
    E,
    F,
    Fis,
    G,
    Gis,
    A,
    Ais,
    H,
}

/// A pitch class in an octave. Octave 0 holds the 440 Hz anchor.
#[derive(Clone, Copy, Debug, PartialEq, Eq, Structural)]
pub struct Note {
    pub note: BaseNote,
    pub octave: i32,
}

/// Notes that belong to one entry of a schedule, in the order in which they
/// are installed.
#[derive(Debug)]
pub struct Accord {
    pub notes: Vec<Note>,
}

impl View for Accord {
    type V = Seq<Note>;

    open spec fn view(&self) -> Seq<Note> {
        self.notes@
    }
}

/// Semitone position of the anchor pitch class (A) within its octave.
pub const ANCHOR_PITCH_CLASS: i64 = 9;

/// The number of semitones in an octave.
pub const SEMITONES_PER_OCTAVE: i64 = 12;

impl BaseNote {
    /// Position of the pitch class within the octave: 0 for C up to 11 for H.
    pub open spec fn spec_pitch_class(self) -> int {
        match self {
            BaseNote::C => 0,
            BaseNote::Cis => 1,
            BaseNote::D => 2,
            BaseNote::Dis => 3,
            BaseNote::E => 4,
            BaseNote::F => 5,
            BaseNote::Fis => 6,
            BaseNote::G => 7,
            BaseNote::Gis => 8,
            BaseNote::A => 9,
            BaseNote::Ais => 10,
            BaseNote::H => 11,
        }
    }

    /// Position of the pitch class within the octave: 0 for C up to 11 for H.
    pub fn pitch_class(self) -> (pc: u8)
        ensures
            pc == self.spec_pitch_class(),
            pc < 12,
    {
        match self {
            BaseNote::C => 0,
            BaseNote::Cis => 1,
            BaseNote::D => 2,
            BaseNote::Dis => 3,
            BaseNote::E => 4,
            BaseNote::F => 5,
            BaseNote::Fis => 6,
            BaseNote::G => 7,
            BaseNote::Gis => 8,
            BaseNote::A => 9,
            BaseNote::Ais => 10,
            BaseNote::H => 11,
        }
    }
}

impl Note {
    /// The note of the given pitch class in the reference octave.
    pub fn base(note: BaseNote) -> (n: Note)
        ensures
            n == (Note { note, octave: 0 }),
    {
        Note { note, octave: 0 }
    }

    /// The note of the given pitch class in the given octave.
    pub fn new(note: BaseNote, octave: i32) -> (n: Note)
        ensures
            n == (Note { note, octave }),
    {
        Note { note, octave }
    }

    /// Semitones counted from C of the reference octave.
    pub open spec fn spec_semitone_index(self) -> int {
        self.note.spec_pitch_class() + 12 * self.octave
    }

    /// Semitones counted from C of the reference octave.
    pub fn semitone_index(&self) -> (index: i64)
        ensures
            index == self.spec_semitone_index(),
    {
        let pc: u8 = self.note.pitch_class();
        let pc: i64 = pc as i64;
        let octave: i64 = self.octave as i64;
        pc + SEMITONES_PER_OCTAVE * octave
    }

    /// Semitones counted from the anchor, A of the reference octave.
    pub open spec fn spec_semitone_offset(self) -> int {
        self.spec_semitone_index() - 9
    }

    /// Semitones counted from the anchor, A of the reference octave.
    pub fn semitone_offset(&self) -> (offset: i64)
        ensures
            offset == self.spec_semitone_offset(),
    {
        self.semitone_index() - ANCHOR_PITCH_CLASS
    }
}

} // verus!
