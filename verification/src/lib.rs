//! A note sequencer for an external sound device.
//!
//! A caller hands a [`Sheet`] to a [`Keyboard`]; a single worker takes the
//! sheets in the order in which they were handed in and turns each into
//! note-on and note-off messages with timed holds between them.

pub mod command;
pub mod error;
pub mod keyboard;
pub mod ports;
pub mod render;
pub mod score;
pub mod timing;
pub mod trace;
pub mod trigger;
pub mod worker;

pub use command::{Command, Message};
pub use error::KeyboardError;
pub use keyboard::Keyboard;
pub use ports::{Port, Ports};
pub use score::{sheet_well_formed, Beats, Note, Score, ScoreView, Sheet};
pub use worker::{Action, Event, Worker, WorkerState, WorkerView};
