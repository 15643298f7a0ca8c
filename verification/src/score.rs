//! The notes, scores and sheets that callers hand to the sequencer.

use vstd::prelude::*;

verus! {

/// The highest pitch that the device accepts.
pub const MAX_PITCH: u8 = 127;

/// A length of time in beats, counted in thousandths of a beat.
///
/// One and a half beats are `Beats { thousandths: 1500 }`.
#[derive(Clone, Copy, Debug, PartialEq, Eq, Structural)]
pub struct Beats {
    pub thousandths: u32,
}

/// One step of a score: a pitch that sounds for some beats, or a rest.
///
/// The pitch is the device's own number for it (concert A, 440 Hz, is 69).
#[derive(Clone, Copy, Debug, PartialEq, Eq, Structural)]
pub enum Note {
    Audible(u8, Beats),
    Silence(Beats),
}

/// Notes to be played one after another at one tempo.
#[derive(Clone, Debug, PartialEq, Eq)]
pub struct Score {
    /// Beats per minute.
    pub bpm: u8,
    pub notes: Vec<Note>,
}

/// What a caller hands in to be played: one score or more.
#[derive(Clone, Debug, PartialEq, Eq)]
pub struct Sheet {
    pub scores: Vec<Score>,
}

/// A score as a mathematical value.
pub struct ScoreView {
    pub bpm: u8,
    pub notes: Seq<Note>,
}

impl ScoreView {
    /// The tempo is above zero and every note is well formed.
    pub open spec fn well_formed(self) -> bool {
        &&& self.bpm > 0
        &&& forall|i: int| 0 <= i < self.notes.len() ==> (#[trigger] self.notes[i]).well_formed()
    }
}

/// A sheet holds at least one score, and each of its scores is well formed.
pub open spec fn sheet_well_formed(sheet: Seq<ScoreView>) -> bool {
    &&& sheet.len() > 0
    &&& forall|i: int| 0 <= i < sheet.len() ==> (#[trigger] sheet[i]).well_formed()
}

impl View for Score {
    type V = ScoreView;

    open spec fn view(&self) -> ScoreView {
        ScoreView { bpm: self.bpm, notes: self.notes@ }
    }
}

impl View for Sheet {
    type V = Seq<ScoreView>;

    open spec fn view(&self) -> Seq<ScoreView> {
        self.scores@.map_values(|s: Score| s@)
    }
}

impl Beats {
    /// As many thousandths of a beat as `n` says.
    pub fn from_thousandths(n: u32) -> (b: Beats)
        ensures
            b.thousandths == n,
    {
        Beats { thousandths: n }
    }
}

impl Note {
    /// How long the note lasts.
    pub open spec fn beats(self) -> Beats {
        match self {
            Note::Audible(_, d) => d,
            Note::Silence(d) => d,
        }
    }

    /// A rest is always well formed; a sounding note is when the device has its pitch.
    pub open spec fn well_formed(self) -> bool {
        match self {
            Note::Audible(pitch, _) => pitch <= MAX_PITCH,
            Note::Silence(_) => true,
        }
    }

    pub fn duration(&self) -> (d: Beats)
        ensures
            d == self.beats(),
    {
        match self {
            Note::Audible(_, d) => *d,
            Note::Silence(d) => *d,
        }
    }

    pub fn is_well_formed(&self) -> (ok: bool)
        ensures
            ok == self.well_formed(),
    {
        match self {
            Note::Audible(pitch, _) => *pitch <= MAX_PITCH,
            Note::Silence(_) => true,
        }
    }
}

impl Score {
    /// Whether the tempo is above zero and the device has the pitch of every note.
    pub fn is_well_formed(&self) -> (ok: bool)
        ensures
            ok == self@.well_formed(),
    {
        if self.bpm == 0 {
            return false;
        }
        let mut i: usize = 0;
        while i < self.notes.len()
            invariant
                i <= self.notes@.len(),
                forall|k: int| 0 <= k < i ==> (#[trigger] self.notes@[k]).well_formed(),
            decreases self.notes@.len() - i,
        {
            if !self.notes[i].is_well_formed() {
                assert(!self@.notes[i as int].well_formed());
                return false;
            }
            i = i + 1;
        }
        true
    }
}

impl Sheet {
    /// Whether there is a score to play and every score is well formed.
    pub fn is_well_formed(&self) -> (ok: bool)
        ensures
            ok == sheet_well_formed(self@),
    {
        if self.scores.len() == 0 {
            return false;
        }
        let mut i: usize = 0;
        while i < self.scores.len()
            invariant
                i <= self.scores@.len(),
                self@.len() == self.scores@.len(),
                forall|k: int| 0 <= k < i ==> (#[trigger] self@[k]).well_formed(),
            decreases self.scores@.len() - i,
        {
            assert(self@[i as int] == self.scores@[i as int]@);
            if !self.scores[i].is_well_formed() {
                assert(!self@[i as int].well_formed());
                return false;
            }
            i = i + 1;
        }
        true
    }
}

} // verus!
