//! What a worker asks for over a whole run of events, and what follows for
//! the order in which sheets are played.

use vstd::prelude::*;
use crate::command::Command;
use crate::render::sheet_commands;
use crate::score::Sheet;
use crate::worker::{action_of, answers, Action, Event, WorkerState, WorkerView};

verus! {

/// The worker after all of `events`, taken in order.
pub open spec fn run(w: WorkerView, events: Seq<Event>) -> WorkerView
    decreases events.len(),
{
    if events.len() == 0 {
        w
    } else {
        run(w, events.drop_last()).step(events.last())
    }
}

/// What the worker asks for after each of `events`.
pub open spec fn asked(w: WorkerView, events: Seq<Event>) -> Seq<Action> {
    Seq::new(events.len(), |i: int| run(w, events.take(i + 1)).action())
}

/// The driver's actions for `commands`, one for each.
pub open spec fn actions_of(commands: Seq<Command>) -> Seq<Action> {
    commands.map_values(|c: Command| action_of(c))
}

/// Whether `reports` holds one report for each of `commands`, each on its command.
pub open spec fn reports_on(reports: Seq<Event>, commands: Seq<Command>) -> bool {
    &&& reports.len() == commands.len()
    &&& forall|i: int|
        0 <= i < reports.len() ==> answers(#[trigger] reports[i], action_of(commands[i]))
}

/// What a driver sees of a sheet that it delivers to an idle worker and
/// carries out to the end: the sheet, then a report on each command.
pub open spec fn playing(sheet: Sheet, reports: Seq<Event>) -> Seq<Event> {
    seq![Event::Delivered(sheet)] + reports
}

/// Running over two stretches of events is running over the first and going
/// on from there over the second.
pub proof fn lemma_run_concat(w: WorkerView, first: Seq<Event>, second: Seq<Event>)
    ensures
        run(w, first + second) == run(run(w, first), second),
    decreases second.len(),
{
    if second.len() == 0 {
        assert(first + second =~= first);
    } else {
        lemma_run_concat(w, first, second.drop_last());
        assert((first + second).drop_last() =~= first + second.drop_last());
        assert((first + second).last() == second.last());
    }
}

/// What is asked for over two stretches of events is what is asked for over
/// the first, then what is asked for over the second from where the first ended.
pub proof fn lemma_asked_concat(w: WorkerView, first: Seq<Event>, second: Seq<Event>)
    ensures
        asked(w, first + second) == asked(w, first) + asked(run(w, first), second),
{
    let whole = first + second;
    let joined = asked(w, first) + asked(run(w, first), second);
    assert(asked(w, whole).len() == joined.len());
    assert forall|i: int| 0 <= i < whole.len() implies asked(w, whole)[i] == joined[i] by {
        if i < first.len() {
            assert(whole.take(i + 1) =~= first.take(i + 1));
        } else {
            let k = i - first.len();
            assert(whole.take(i + 1) =~= first + second.take(k + 1));
            lemma_run_concat(w, first, second.take(k + 1));
        }
    }
    assert(asked(w, whole) =~= joined);
}

/// A worker in the middle of a sheet takes no other: a delivery, a closed
/// queue or an unreadable entry changes nothing until the commands in hand are done.
pub proof fn lemma_not_preempted(w: WorkerView, event: Event)
    requires
        !w.stopped,
        w.pending.len() > 0,
        event is Delivered || event is Unreadable || event is Closed,
    ensures
        w.step(event) == w,
{
}

/// A stopped worker stays stopped, whatever is reported to it, and asks for
/// nothing but to leave.
pub proof fn lemma_stopped_for_good(w: WorkerView, events: Seq<Event>)
    requires
        w.stopped,
    ensures
        run(w, events) == w,
        forall|i: int| 0 <= i < events.len() ==> (#[trigger] asked(w, events)[i]) == Action::Exit,
    decreases events.len(),
{
    if events.len() > 0 {
        lemma_stopped_for_good(w, events.drop_last());
        assert forall|i: int| 0 <= i < events.len() implies (#[trigger] asked(w, events)[i])
            == Action::Exit by {
            lemma_stopped_for_good(w, events.take(i + 1).drop_last());
        }
    }
}

/// Reports on the first `k` of the commands in hand leave the others in hand,
/// in their order.
pub proof fn lemma_reports_consume(w: WorkerView, reports: Seq<Event>, k: int)
    requires
        !w.stopped,
        reports_on(reports, w.pending),
        0 <= k <= reports.len(),
    ensures
        run(w, reports.take(k)).pending == w.pending.skip(k),
        !run(w, reports.take(k)).stopped,
    decreases k,
{
    if k == 0 {
        assert(reports.take(0) =~= Seq::<Event>::empty());
        assert(w.pending.skip(0) =~= w.pending);
    } else {
        lemma_reports_consume(w, reports, k - 1);
        let before = run(w, reports.take(k - 1));
        assert(reports.take(k).drop_last() =~= reports.take(k - 1));
        assert(reports.take(k).last() == reports[k - 1]);
        assert(before.pending.len() > 0);
        assert(before.pending[0] == w.pending[k - 1]);
        assert(answers(reports[k - 1], before.action()));
        assert(before.pending.drop_first() =~= w.pending.skip(k));
    }
}

/// A sheet that an idle worker takes is played to the end before the worker
/// asks for the next: what the worker asks for, step by step, is the action for
/// each command of the sheet, in order, and then the next entry of the queue.
pub proof fn lemma_plays_to_the_end(w: WorkerView, sheet: Sheet, reports: Seq<Event>)
    requires
        w.state() == WorkerState::Idle,
        sheet@.len() > 0,
        sheet@[0].bpm > 0,
        reports_on(reports, sheet_commands(sheet@)),
    ensures
        asked(w, playing(sheet, reports)) == actions_of(sheet_commands(sheet@)).push(
            Action::Receive,
        ),
        run(w, playing(sheet, reports)).state() == WorkerState::Idle,
{
    let commands = sheet_commands(sheet@);
    let events = playing(sheet, reports);
    let delivery = seq![Event::Delivered(sheet)];
    let taken = w.step(Event::Delivered(sheet));
    assert(delivery.drop_last() =~= Seq::<Event>::empty());
    assert(run(w, delivery.drop_last()) == w);
    assert(delivery.last() == Event::Delivered(sheet));
    assert(run(w, delivery) == taken);
    assert(taken.pending == commands);
    let expected = actions_of(commands).push(Action::Receive);
    assert(asked(w, events).len() == expected.len());
    assert forall|i: int| 0 <= i < events.len() implies asked(w, events)[i] == expected[i] by {
        assert(events.take(i + 1) =~= delivery + reports.take(i));
        lemma_run_concat(w, delivery, reports.take(i));
        lemma_reports_consume(taken, reports, i);
        let now = run(taken, reports.take(i));
        assert(now.pending == commands.skip(i));
        if i < commands.len() {
            assert(now.pending[0] == commands[i]);
        }
    }
    assert(asked(w, events) =~= expected);
    assert(events.take(events.len() as int) =~= events);
    lemma_run_concat(w, delivery, reports);
    lemma_reports_consume(taken, reports, reports.len() as int);
    assert(reports.take(reports.len() as int) =~= reports);
}

/// First in, first out: of two sheets that the queue gives one after the
/// other, every command of the first is carried out before any of the second.
pub proof fn lemma_first_in_first_out(
    w: WorkerView,
    first: Sheet,
    first_reports: Seq<Event>,
    second: Sheet,
    second_reports: Seq<Event>,
)
    requires
        w.state() == WorkerState::Idle,
        first@.len() > 0,
        first@[0].bpm > 0,
        reports_on(first_reports, sheet_commands(first@)),
        second@.len() > 0,
        second@[0].bpm > 0,
        reports_on(second_reports, sheet_commands(second@)),
    ensures
        asked(w, playing(first, first_reports) + playing(second, second_reports)) == actions_of(
            sheet_commands(first@),
        ).push(Action::Receive) + actions_of(sheet_commands(second@)).push(Action::Receive),
        run(w, playing(first, first_reports) + playing(second, second_reports)).state()
            == WorkerState::Idle,
{
    let one = playing(first, first_reports);
    let two = playing(second, second_reports);
    lemma_plays_to_the_end(w, first, first_reports);
    lemma_plays_to_the_end(run(w, one), second, second_reports);
    lemma_asked_concat(w, one, two);
    lemma_run_concat(w, one, two);
}

/// A sheet with a tempo of zero is passed over: nothing of it reaches the
/// device and no time passes for it.
pub proof fn lemma_zero_tempo_passed_over(w: WorkerView, sheet: Sheet)
    requires
        w.state() == WorkerState::Idle,
        sheet@.len() > 0,
        sheet@[0].bpm == 0,
    ensures
        w.step(Event::Delivered(sheet)).state() == WorkerState::Idle,
        w.step(Event::Delivered(sheet)).action() == Action::Receive,
        w.step(Event::Delivered(sheet)).pending == w.pending,
{
}

} // verus!
