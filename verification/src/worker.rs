//! The worker: one sheet at a time, one command at a time.
//!
//! The worker decides and does nothing else. Whoever drives it carries out
//! the [`Action`] it asks for and reports back with the [`Event`] that
//! answers it; [`Worker::step`] then says what comes next.

use vstd::prelude::*;
use crate::command::{Command, Message, NOTE_OFF_MSG, NOTE_ON_MSG, VELOCITY};
use crate::render::sheet_commands;
use crate::score::Sheet;

verus! {

/// What the worker asks its driver to do.
#[derive(Clone, Copy, Debug, PartialEq, Eq, Structural)]
pub enum Action {
    /// Wait for the next entry of the queue.
    Receive,
    /// Hand this message to the device.
    Send(Message),
    /// Let this many milliseconds pass.
    Hold(u64),
    /// Leave: the queue is closed and nothing is left to play.
    Exit,
}

/// What the driver reports back.
#[derive(Clone, Debug, PartialEq, Eq)]
pub enum Event {
    /// The queue gave this sheet.
    Delivered(Sheet),
    /// The queue gave an entry that could not be read.
    Unreadable,
    /// The queue is closed and empty.
    Closed,
    /// The message went to the device; `false` where the device refused it.
    Sent(bool),
    /// The hold is over.
    Held,
}

/// Where the worker stands.
#[derive(Clone, Copy, Debug, PartialEq, Eq, Structural)]
pub enum WorkerState {
    /// Waiting for a sheet.
    Idle,
    /// In the middle of a sheet.
    Rendering,
    /// Done for good.
    Stopped,
}

/// The worker as a mathematical value.
pub struct WorkerView {
    /// The commands of the sheet in hand that are still to be carried out.
    pub pending: Seq<Command>,
    /// Whether the queue was seen closed.
    pub stopped: bool,
    /// How many messages the device refused.
    pub failed_sends: nat,
    /// How many entries of the queue were passed over.
    pub skipped: nat,
}

/// A sheet-playing worker. It starts idle.
pub struct Worker {
    plan: Vec<Command>,
    cursor: usize,
    stopped: bool,
    failed_sends: u64,
    skipped: u64,
}

/// What the driver does for one command.
pub open spec fn action_of(command: Command) -> Action {
    match command {
        Command::Hold(ms) => Action::Hold(ms),
        _ => Action::Send(command.wire_message().unwrap()),
    }
}

/// Whether `event` is a report on `action`.
pub open spec fn answers(event: Event, action: Action) -> bool {
    match action {
        Action::Receive => event is Delivered || event is Unreadable || event is Closed,
        Action::Send(_) => event is Sent,
        Action::Hold(_) => event is Held,
        Action::Exit => false,
    }
}

/// One more, as far as the counter goes.
pub open spec fn counted(n: nat) -> nat {
    if n < u64::MAX {
        n + 1
    } else {
        n
    }
}

impl WorkerView {
    /// A worker that has seen nothing yet.
    pub open spec fn fresh() -> WorkerView {
        WorkerView { pending: Seq::empty(), stopped: false, failed_sends: 0, skipped: 0 }
    }

    pub open spec fn state(self) -> WorkerState {
        if self.stopped {
            WorkerState::Stopped
        } else if self.pending.len() > 0 {
            WorkerState::Rendering
        } else {
            WorkerState::Idle
        }
    }

    /// What the worker is waiting for: the end of the command in hand, the
    /// next sheet, or nothing any more.
    pub open spec fn action(self) -> Action {
        if self.stopped {
            Action::Exit
        } else if self.pending.len() > 0 {
            action_of(self.pending[0])
        } else {
            Action::Receive
        }
    }

    /// The worker after `event`.
    ///
    /// An event that is no report on what the worker is waiting for changes
    /// nothing. A sheet becomes the commands in hand, or is passed over where
    /// its tempo is zero. A report on a command, good or bad, makes way for the
    /// next one.
    pub open spec fn step(self, event: Event) -> WorkerView {
        if !answers(event, self.action()) {
            self
        } else {
            match event {
                Event::Delivered(sheet) => if sheet@[0].bpm > 0 {
                    WorkerView { pending: sheet_commands(sheet@), ..self }
                } else {
                    WorkerView { skipped: counted(self.skipped), ..self }
                },
                Event::Unreadable => WorkerView { skipped: counted(self.skipped), ..self },
                Event::Closed => WorkerView { stopped: true, ..self },
                Event::Sent(taken) => WorkerView {
                    pending: self.pending.drop_first(),
                    failed_sends: if taken {
                        self.failed_sends
                    } else {
                        counted(self.failed_sends)
                    },
                    ..self
                },
                Event::Held => WorkerView { pending: self.pending.drop_first(), ..self },
            }
        }
    }
}

impl View for Worker {
    type V = WorkerView;

    closed spec fn view(&self) -> WorkerView {
        WorkerView {
            pending: self.plan@.skip(self.cursor as int),
            stopped: self.stopped,
            failed_sends: self.failed_sends as nat,
            skipped: self.skipped as nat,
        }
    }
}

impl Worker {
    #[verifier::type_invariant]
    spec fn in_bounds(self) -> bool {
        self.cursor <= self.plan@.len()
    }

    /// An idle worker.
    pub fn new() -> (w: Worker)
        ensures
            w@ == WorkerView::fresh(),
    {
        let w = Worker { plan: Vec::new(), cursor: 0, stopped: false, failed_sends: 0, skipped: 0 };
        assert(w@.pending =~= Seq::<Command>::empty());
        w
    }

    pub fn state(&self) -> (s: WorkerState)
        ensures
            s == self@.state(),
    {
        proof {
            use_type_invariant(self);
        }
        if self.stopped {
            WorkerState::Stopped
        } else if self.cursor < self.plan.len() {
            WorkerState::Rendering
        } else {
            WorkerState::Idle
        }
    }

    /// What the worker is waiting for.
    pub fn action(&self) -> (a: Action)
        ensures
            a == self@.action(),
    {
        proof {
            use_type_invariant(self);
        }
        if self.stopped {
            Action::Exit
        } else if self.cursor < self.plan.len() {
            match self.plan[self.cursor] {
                Command::NoteOn(pitch) => Action::Send(
                    Message { status: NOTE_ON_MSG, pitch, velocity: VELOCITY },
                ),
                Command::NoteOff(pitch) => Action::Send(
                    Message { status: NOTE_OFF_MSG, pitch, velocity: VELOCITY },
                ),
                Command::Hold(ms) => Action::Hold(ms),
            }
        } else {
            Action::Receive
        }
    }

    /// How many messages the device has refused so far.
    pub fn failed_sends(&self) -> (n: u64)
        ensures
            n == self@.failed_sends,
    {
        self.failed_sends
    }

    /// How many entries of the queue were passed over so far.
    pub fn skipped(&self) -> (n: u64)
        ensures
            n == self@.skipped,
    {
        self.skipped
    }

    /// Takes the driver's report and says what to do next.
    pub fn step(&mut self, event: Event) -> (action: Action)
        requires
            event matches Event::Delivered(sheet) ==> sheet.scores@.len() > 0,
        ensures
            final(self)@ == old(self)@.step(event),
            action == final(self)@.action(),
    {
        proof {
            use_type_invariant(&*self);
        }
        if !self.stopped {
            if self.cursor < self.plan.len() {
                let advance = match (self.plan[self.cursor], &event) {
                    (Command::Hold(_), Event::Held) => true,
                    (Command::NoteOn(_), Event::Sent(_)) => true,
                    (Command::NoteOff(_), Event::Sent(_)) => true,
                    _ => false,
                };
                if advance {
                    if let Event::Sent(false) = event {
                        if self.failed_sends < u64::MAX {
                            self.failed_sends = self.failed_sends + 1;
                        }
                    }
                    assert(self.plan@.skip(self.cursor as int).drop_first() =~= self.plan@.skip(
                        self.cursor + 1,
                    ));
                    self.cursor = self.cursor + 1;
                }
            } else {
                assert(self.plan@.skip(self.cursor as int) =~= Seq::<Command>::empty());
                match event {
                    Event::Delivered(sheet) => {
                        match sheet.render() {
                            Ok(commands) => {
                                self.cursor = 0;
                                self.plan = commands;
                                assert(self.plan@.skip(0) =~= self.plan@);
                            },
                            Err(_) => {
                                if self.skipped < u64::MAX {
                                    self.skipped = self.skipped + 1;
                                }
                            },
                        }
                    },
                    Event::Unreadable => {
                        if self.skipped < u64::MAX {
                            self.skipped = self.skipped + 1;
                        }
                    },
                    Event::Closed => {
                        self.stopped = true;
                    },
                    _ => {},
                }
            }
        }
        self.action()
    }
}

} // verus!
