//! Rendering: from notes at a tempo to commands in the order in which they are carried out.

use vstd::prelude::*;
use crate::command::{device_commands, total_hold, Command};
use crate::error::KeyboardError;
use crate::score::{Note, Score, ScoreView, Sheet};
use crate::timing::{hold_millis, hold_ms, lemma_nearest, MS_PER_MINUTE, PARTS_PER_BEAT};

verus! {

/// The commands for one note: a sounding note is started, held and ended; a
/// rest is held and nothing more.
pub open spec fn note_commands(bpm: u8, note: Note) -> Seq<Command> {
    match note {
        Note::Audible(pitch, d) => seq![
            Command::NoteOn(pitch),
            Command::Hold(hold_ms(bpm, d) as u64),
            Command::NoteOff(pitch),
        ],
        Note::Silence(d) => seq![Command::Hold(hold_ms(bpm, d) as u64)],
    }
}

/// The commands for `notes`, one note after the other.
pub open spec fn score_commands(bpm: u8, notes: Seq<Note>) -> Seq<Command>
    decreases notes.len(),
{
    if notes.len() == 0 {
        Seq::empty()
    } else {
        score_commands(bpm, notes.drop_last()) + note_commands(bpm, notes.last())
    }
}

/// The commands for a sheet: those of its first score. Further scores are not played.
pub open spec fn sheet_commands(sheet: Seq<ScoreView>) -> Seq<Command> {
    score_commands(sheet[0].bpm, sheet[0].notes)
}

/// All the beats of `notes`, in thousandths.
pub open spec fn total_thousandths(notes: Seq<Note>) -> int
    decreases notes.len(),
{
    if notes.len() == 0 {
        0
    } else {
        total_thousandths(notes.drop_last()) + notes.last().beats().thousandths
    }
}

/// How many of `notes` sound.
pub open spec fn audible_notes(notes: Seq<Note>) -> nat
    decreases notes.len(),
{
    if notes.len() == 0 {
        0
    } else {
        audible_notes(notes.drop_last()) + if notes.last() is Audible {
            1nat
        } else {
            0nat
        }
    }
}

impl Note {
    /// The commands for this note at `bpm` beats per minute.
    ///
    /// A tempo of zero is refused. A rest gives one hold and nothing for the device.
    pub fn render(&self, bpm: u8) -> (r: Result<Vec<Command>, KeyboardError>)
        ensures
            match r {
                Ok(commands) => bpm > 0 && commands@ == note_commands(bpm, *self),
                Err(e) => bpm == 0 && e == KeyboardError::InvalidTempo,
            },
            (bpm > 0 && *self is Silence) ==> (r matches Ok(commands) && commands@ == seq![
                Command::Hold(hold_ms(bpm, self.beats()) as u64),
            ] && device_commands(commands@) == 0),
    {
        let hold = match hold_millis(bpm, self.duration()) {
            Ok(ms) => ms,
            Err(e) => {
                return Err(e);
            },
        };
        let mut commands: Vec<Command> = Vec::new();
        match self {
            Note::Audible(pitch, _) => {
                commands.push(Command::NoteOn(*pitch));
                commands.push(Command::Hold(hold));
                commands.push(Command::NoteOff(*pitch));
            },
            Note::Silence(_) => {
                commands.push(Command::Hold(hold));
            },
        }
        proof {
            assert(commands@ =~= note_commands(bpm, *self));
            if *self is Silence {
                lemma_note_counts(bpm, *self);
            }
        }
        Ok(commands)
    }
}

impl Score {
    /// The commands for this score, note by note.
    ///
    /// A tempo of zero is refused, whatever the notes are.
    pub fn render(&self) -> (r: Result<Vec<Command>, KeyboardError>)
        ensures
            match r {
                Ok(commands) => self.bpm > 0 && commands@ == score_commands(self.bpm, self.notes@),
                Err(e) => self.bpm == 0 && e == KeyboardError::InvalidTempo,
            },
    {
        if self.bpm == 0 {
            return Err(KeyboardError::InvalidTempo);
        }
        let mut commands: Vec<Command> = Vec::new();
        let mut i: usize = 0;
        while i < self.notes.len()
            invariant
                self.bpm > 0,
                i <= self.notes@.len(),
                commands@ == score_commands(self.bpm, self.notes@.take(i as int)),
            decreases self.notes@.len() - i,
        {
            let mut more = match self.notes[i].render(self.bpm) {
                Ok(more) => more,
                Err(e) => {
                    return Err(e);
                },
            };
            commands.append(&mut more);
            proof {
                let upto = self.notes@.take(i + 1);
                assert(upto.drop_last() =~= self.notes@.take(i as int));
                assert(upto.last() == self.notes@[i as int]);
            }
            i = i + 1;
        }
        proof {
            assert(self.notes@.take(i as int) =~= self.notes@);
        }
        Ok(commands)
    }
}

impl Sheet {
    /// The commands for this sheet: its first score is rendered, the others are not.
    pub fn render(&self) -> (r: Result<Vec<Command>, KeyboardError>)
        requires
            self.scores@.len() > 0,
        ensures
            match r {
                Ok(commands) => self@[0].bpm > 0 && commands@ == sheet_commands(self@),
                Err(e) => self@[0].bpm == 0 && e == KeyboardError::InvalidTempo,
            },
    {
        assert(self@[0] == self.scores@[0]@);
        self.scores[0].render()
    }
}

/// Rendering one run of notes after another gives the commands of the first
/// run followed by those of the second.
pub proof fn lemma_score_commands_concat(bpm: u8, first: Seq<Note>, second: Seq<Note>)
    ensures
        score_commands(bpm, first + second) == score_commands(bpm, first) + score_commands(
            bpm,
            second,
        ),
    decreases second.len(),
{
    if second.len() == 0 {
        assert(first + second =~= first);
        assert(score_commands(bpm, first) + score_commands(bpm, second) =~= score_commands(
            bpm,
            first,
        ));
    } else {
        lemma_score_commands_concat(bpm, first, second.drop_last());
        assert((first + second).drop_last() =~= first + second.drop_last());
        assert((first + second).last() == second.last());
        assert(score_commands(bpm, first + second) =~= score_commands(bpm, first)
            + score_commands(bpm, second));
    }
}

/// The holds of two runs of commands add up.
pub proof fn lemma_total_hold_concat(first: Seq<Command>, second: Seq<Command>)
    ensures
        total_hold(first + second) == total_hold(first) + total_hold(second),
    decreases second.len(),
{
    if second.len() == 0 {
        assert(first + second =~= first);
    } else {
        lemma_total_hold_concat(first, second.drop_last());
        assert((first + second).drop_last() =~= first + second.drop_last());
        assert((first + second).last() == second.last());
    }
}

/// The device commands of two runs of commands add up.
pub proof fn lemma_device_commands_concat(first: Seq<Command>, second: Seq<Command>)
    ensures
        device_commands(first + second) == device_commands(first) + device_commands(second),
    decreases second.len(),
{
    if second.len() == 0 {
        assert(first + second =~= first);
    } else {
        lemma_device_commands_concat(first, second.drop_last());
        assert((first + second).drop_last() =~= first + second.drop_last());
        assert((first + second).last() == second.last());
    }
}

/// One note: a rest sends nothing to the device, a sounding note sends two
/// commands; either way the note's hold is all the time that passes.
pub proof fn lemma_note_counts(bpm: u8, note: Note)
    requires
        bpm > 0,
    ensures
        device_commands(note_commands(bpm, note)) == (if note is Audible {
            2nat
        } else {
            0nat
        }),
        total_hold(note_commands(bpm, note)) == hold_ms(bpm, note.beats()),
        0 <= hold_ms(bpm, note.beats()) <= u64::MAX,
{
    let exact = MS_PER_MINUTE * note.beats().thousandths;
    let unit = PARTS_PER_BEAT * bpm;
    let h = hold_ms(bpm, note.beats());
    lemma_nearest(exact, unit, 0);
    assert(h <= 2 * exact + unit) by (nonlinear_arith)
        requires
            0 <= h,
            0 < unit,
            2 * unit * h <= 2 * exact + unit,
    ;
    let commands = note_commands(bpm, note);
    reveal_with_fuel(device_commands, 4);
    reveal_with_fuel(total_hold, 4);
    match note {
        Note::Audible(pitch, d) => {
            assert(commands.drop_last() =~= seq![Command::NoteOn(pitch), Command::Hold(h as u64)]);
            assert(commands.drop_last().drop_last() =~= seq![Command::NoteOn(pitch)]);
            assert(commands.drop_last().drop_last().drop_last() =~= Seq::<Command>::empty());
        },
        Note::Silence(d) => {
            assert(commands.drop_last() =~= Seq::<Command>::empty());
        },
    }
}

/// A rendered score sends two commands to the device for each sounding note and
/// none for a rest.
pub proof fn lemma_score_device_commands(bpm: u8, notes: Seq<Note>)
    requires
        bpm > 0,
    ensures
        device_commands(score_commands(bpm, notes)) == 2 * audible_notes(notes),
    decreases notes.len(),
{
    if notes.len() > 0 {
        lemma_score_device_commands(bpm, notes.drop_last());
        lemma_note_counts(bpm, notes.last());
        lemma_device_commands_concat(
            score_commands(bpm, notes.drop_last()),
            note_commands(bpm, notes.last()),
        );
    }
}

/// Each command of a rendered score comes from one of its notes: where every
/// note is well formed, so is every message for the device.
pub proof fn lemma_messages_well_formed(bpm: u8, notes: Seq<Note>)
    requires
        forall|i: int| 0 <= i < notes.len() ==> (#[trigger] notes[i]).well_formed(),
    ensures
        forall|k: int|
            0 <= k < score_commands(bpm, notes).len() ==> (match (#[trigger] score_commands(
                bpm,
                notes,
            )[k]).wire_message() {
                Some(m) => m.well_formed(),
                None => true,
            }),
    decreases notes.len(),
{
    if notes.len() > 0 {
        let init = notes.drop_last();
        assert forall|i: int| 0 <= i < init.len() implies (#[trigger] init[i]).well_formed() by {
            assert(init[i] == notes[i]);
        }
        lemma_messages_well_formed(bpm, init);
        assert(notes.last().well_formed());
    }
}

/// The time that a rendered score takes is the sum of its holds, and that sum
/// is within half a millisecond per note of the exact length of the notes,
/// `60000 / bpm` ms for each beat.
///
/// With `unit = 1000 * bpm`, the exact length is `60000 * total_thousandths / unit`
/// ms; the claim is stated with both sides multiplied by `2 * unit`.
pub proof fn lemma_score_total_hold(bpm: u8, notes: Seq<Note>)
    requires
        bpm > 0,
    ensures
        ({
            let unit = PARTS_PER_BEAT * bpm;
            let planned = total_hold(score_commands(bpm, notes));
            let exact = MS_PER_MINUTE * total_thousandths(notes);
            &&& 0 <= planned
            &&& -(unit * notes.len()) <= 2 * (unit * planned - exact) <= unit * notes.len()
        }),
    decreases notes.len(),
{
    let unit = PARTS_PER_BEAT * bpm;
    if notes.len() > 0 {
        let init = notes.drop_last();
        let last = notes.last();
        lemma_score_total_hold(bpm, init);
        lemma_note_counts(bpm, last);
        lemma_total_hold_concat(score_commands(bpm, init), note_commands(bpm, last));
        let h = hold_ms(bpm, last.beats());
        let n = MS_PER_MINUTE * last.beats().thousandths;
        lemma_nearest(n, unit, 0);
        let before = total_hold(score_commands(bpm, init));
        let planned = total_hold(score_commands(bpm, notes));
        assert(planned == before + h);
        assert(unit * planned == unit * before + unit * h) by (nonlinear_arith)
            requires
                planned == before + h,
        ;
        assert(2 * unit * h == 2 * (unit * h)) by (nonlinear_arith);
        assert(unit * notes.len() == unit * init.len() + unit) by (nonlinear_arith)
            requires
                notes.len() == init.len() + 1,
        ;
        assert(MS_PER_MINUTE * total_thousandths(notes) == MS_PER_MINUTE * total_thousandths(init)
            + n) by (nonlinear_arith)
            requires
                total_thousandths(notes) == total_thousandths(init) + last.beats().thousandths,
                n == MS_PER_MINUTE * last.beats().thousandths,
        ;
    }
}

} // verus!
