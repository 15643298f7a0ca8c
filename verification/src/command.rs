//! What the worker tells the device, and the holds between.

use vstd::prelude::*;

verus! {

/// The status byte that starts a note.
pub const NOTE_ON_MSG: u8 = 0x90;

/// The status byte that ends a note.
pub const NOTE_OFF_MSG: u8 = 0x80;

/// Every note is struck and released at this velocity.
pub const VELOCITY: u8 = 0x64;

/// The three bytes that the device takes for one event.
#[derive(Clone, Copy, Debug, PartialEq, Eq, Structural)]
pub struct Message {
    pub status: u8,
    pub pitch: u8,
    pub velocity: u8,
}

/// One step of a rendered score.
#[derive(Clone, Copy, Debug, PartialEq, Eq, Structural)]
pub enum Command {
    /// Start the note of this pitch.
    NoteOn(u8),
    /// End the note of this pitch.
    NoteOff(u8),
    /// Let this many milliseconds pass.
    Hold(u64),
}

impl Message {
    /// A status byte has its highest bit set; a data byte has not.
    pub open spec fn well_formed(self) -> bool {
        &&& self.status >= 0x80
        &&& self.pitch < 0x80
        &&& self.velocity < 0x80
    }

    /// The bytes in the order in which the device takes them.
    pub open spec fn wire(self) -> Seq<u8> {
        seq![self.status, self.pitch, self.velocity]
    }

    pub fn bytes(&self) -> (b: [u8; 3])
        ensures
            b@ == self.wire(),
    {
        let b: [u8; 3] = [self.status, self.pitch, self.velocity];
        assert(b@ =~= self.wire());
        b
    }
}

impl Command {
    /// What goes to the device for this command: nothing for a hold.
    pub open spec fn wire_message(self) -> Option<Message> {
        match self {
            Command::NoteOn(pitch) => Some(
                Message { status: NOTE_ON_MSG, pitch, velocity: VELOCITY },
            ),
            Command::NoteOff(pitch) => Some(
                Message { status: NOTE_OFF_MSG, pitch, velocity: VELOCITY },
            ),
            Command::Hold(_) => None,
        }
    }

    /// The milliseconds that this command lets pass: none but for a hold.
    pub open spec fn wait(self) -> int {
        match self {
            Command::Hold(ms) => ms as int,
            _ => 0,
        }
    }

    pub fn message(&self) -> (m: Option<Message>)
        ensures
            m == self.wire_message(),
    {
        match self {
            Command::NoteOn(pitch) => Some(
                Message { status: NOTE_ON_MSG, pitch: *pitch, velocity: VELOCITY },
            ),
            Command::NoteOff(pitch) => Some(
                Message { status: NOTE_OFF_MSG, pitch: *pitch, velocity: VELOCITY },
            ),
            Command::Hold(_) => None,
        }
    }
}

/// How many of `commands` go to the device.
pub open spec fn device_commands(commands: Seq<Command>) -> nat
    decreases commands.len(),
{
    if commands.len() == 0 {
        0
    } else {
        device_commands(commands.drop_last()) + if commands.last().wire_message() is Some {
            1nat
        } else {
            0nat
        }
    }
}

/// The milliseconds that `commands` let pass, all holds together.
pub open spec fn total_hold(commands: Seq<Command>) -> int
    decreases commands.len(),
{
    if commands.len() == 0 {
        0
    } else {
        total_hold(commands.drop_last()) + commands.last().wait()
    }
}

} // verus!
