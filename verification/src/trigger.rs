//! What sets the keyboard off, and what it then plays.

use vstd::prelude::*;
use crate::score::{Beats, Note, Score, ScoreView, Sheet};

verus! {

/// The alert as a mathematical value: six notes at 172 beats per minute.
pub open spec fn alert_view() -> Seq<ScoreView> {
    seq![
        ScoreView {
            bpm: 172,
            notes: seq![
                Note::Audible(67, Beats { thousandths: 1500 }),
                Note::Audible(67, Beats { thousandths: 1500 }),
                Note::Audible(70, Beats { thousandths: 1000 }),
                Note::Audible(72, Beats { thousandths: 1000 }),
                Note::Audible(67, Beats { thousandths: 1500 }),
                Note::Audible(67, Beats { thousandths: 1500 }),
            ],
        },
    ]
}

/// Whether a chat message with this text asks for the alert.
pub fn is_alert(content: &str) -> (yes: bool)
    ensures
        yes == (content@ == "!alert"@),
{
    content.to_owned() == "!alert".to_owned()
}

/// The sheet that is played for an alert.
pub fn alert_sheet() -> (sheet: Sheet)
    ensures
        sheet@ == alert_view(),
{
    let long = Beats { thousandths: 1500 };
    let short = Beats { thousandths: 1000 };
    let mut notes: Vec<Note> = Vec::new();
    notes.push(Note::Audible(67, long));
    notes.push(Note::Audible(67, long));
    notes.push(Note::Audible(70, short));
    notes.push(Note::Audible(72, short));
    notes.push(Note::Audible(67, long));
    notes.push(Note::Audible(67, long));
    let mut scores: Vec<Score> = Vec::new();
    scores.push(Score { bpm: 172, notes });
    let sheet = Sheet { scores };
    assert(sheet@[0].notes =~= alert_view()[0].notes);
    assert(sheet@ =~= alert_view());
    sheet
}

} // verus!
