//! What can go wrong.

use vstd::prelude::*;

verus! {

/// The ways in which the keyboard refuses a request.
#[derive(Clone, Copy, Debug, PartialEq, Eq, Structural)]
pub enum KeyboardError {
    /// No visible device has the name that was asked for.
    DeviceNotFound,
    /// The device was found, but it could not be opened for this program alone.
    DeviceBusy,
    /// The worker is gone: nothing takes sheets any more.
    DeviceUnavailable,
    /// A tempo of zero beats per minute.
    InvalidTempo,
}

impl KeyboardError {
    /// The text of each error.
    pub open spec fn text(self) -> Seq<char> {
        match self {
            KeyboardError::DeviceNotFound => "Port not found"@,
            KeyboardError::DeviceBusy => "Could not bind to MIDI output"@,
            KeyboardError::DeviceUnavailable => "MIDI output is no longer available"@,
            KeyboardError::InvalidTempo => "Tempo must be above zero"@,
        }
    }

    /// A sentence for the user.
    pub fn message(&self) -> (s: &'static str)
        ensures
            s@ == self.text(),
    {
        match self {
            KeyboardError::DeviceNotFound => "Port not found",
            KeyboardError::DeviceBusy => "Could not bind to MIDI output",
            KeyboardError::DeviceUnavailable => "MIDI output is no longer available",
            KeyboardError::InvalidTempo => "Tempo must be above zero",
        }
    }
}

} // verus!
