//! The handle that callers hold: it takes sheets and passes them on to the worker.

use vstd::prelude::*;
use futures::sync::mpsc::{UnboundedReceiver, UnboundedSender};
use crate::error::KeyboardError;
use crate::ports::{port_map, Ports};
use crate::score::Sheet;

verus! {

/// The sending end of the queue of `futures`.
#[verifier::external_type_specification]
#[verifier::external_body]
#[verifier::reject_recursive_types(T)]
pub struct ExUnboundedSender<T>(UnboundedSender<T>);

/// The receiving end of the queue of `futures`.
#[verifier::external_type_specification]
#[verifier::external_body]
#[verifier::reject_recursive_types(T)]
pub struct ExUnboundedReceiver<T>(UnboundedReceiver<T>);

/// Calls `futures::sync::mpsc::unbounded`, which makes a queue without a
/// bound and gives its two ends. Nothing is claimed of them.
#[verifier::external_body]
fn open_queue() -> (ends: (UnboundedSender<Sheet>, UnboundedReceiver<Sheet>)) {
    futures::sync::mpsc::unbounded::<Sheet>()
}

/// Calls `UnboundedSender::unbounded_send`, which puts the sheet at the end of
/// the queue without waiting, or fails where the receiving end is closed or
/// gone. The claim: on failure the sheet that comes back is the one that was
/// given. Whether the call fails is not claimed: it depends on what the
/// other end has done. (`futures` gives up with a panic once as many entries
/// wait in the queue as half the range of `usize` can count.)
#[verifier::external_body]
fn enqueue(channel: &UnboundedSender<Sheet>, sheet: Sheet) -> (r: Result<(), Sheet>)
    ensures
        r matches Err(back) ==> back == sheet,
{
    match channel.unbounded_send(sheet) {
        Ok(()) => Ok(()),
        Err(e) => Err(e.into_inner()),
    }
}

/// The caller's side of the sequencer. All it owns is the sending end of the
/// queue; the device belongs to the worker.
pub struct Keyboard {
    channel: UnboundedSender<Sheet>,
}

impl Keyboard {
    /// The visible devices by name, from their names by number (`None` where
    /// a name could not be read).
    pub fn get_ports(names: &Vec<Option<String>>) -> (ports: Ports)
        ensures
            ports@ == port_map(names@),
    {
        Ports::collect(names)
    }

    /// A handle and the receiving end of its queue, for the worker.
    ///
    /// `connected` says whether the device could be opened for this program
    /// alone. Where it could not, the device is busy and there is no handle.
    pub fn new(connected: bool) -> (r: Result<(Keyboard, UnboundedReceiver<Sheet>), KeyboardError>)
        ensures
            match r {
                Ok(_) => connected,
                Err(e) => !connected && e == KeyboardError::DeviceBusy,
            },
    {
        if !connected {
            return Err(KeyboardError::DeviceBusy);
        }
        let (channel, inbox) = open_queue();
        Ok((Keyboard { channel }, inbox))
    }

    /// What `play` answers for what the queue said: a sheet that the queue
    /// took is on its way, one that came back found the worker gone.
    pub fn submitted(outcome: Result<(), Sheet>) -> (r: Result<(), KeyboardError>)
        ensures
            match outcome {
                Ok(_) => r == Ok::<(), KeyboardError>(()),
                Err(_) => r == Err::<(), KeyboardError>(KeyboardError::DeviceUnavailable),
            },
    {
        match outcome {
            Ok(()) => Ok(()),
            Err(_) => Err(KeyboardError::DeviceUnavailable),
        }
    }

    /// Hands `sheet` to the worker and comes back at once; it does not wait
    /// for the sheet to be played. It fails only where the worker is gone.
    pub fn play(&self, sheet: Sheet) -> (r: Result<(), KeyboardError>)
        ensures
            r matches Err(e) ==> e == KeyboardError::DeviceUnavailable,
    {
        Keyboard::submitted(enqueue(&self.channel, sheet))
    }
}

} // verus!
