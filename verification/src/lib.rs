//! Core of a local speech agent: a playback manager that serialises
//! play, stop, pause and resume commands, lets at most one utterance hold
//! the output device, and starts waiting utterances in the order in which
//! they were accepted.
//!
//! The manager decides; it touches no device. A driver owns the sinks
//! and runs one tick after another:
//!
//! 1. it hands at most one command to `handle_command` and does to the
//!    sinks what the reply says;
//! 2. it reports a playing sink that has run empty with `sink_drained`,
//!    a lost device with `sink_failed`, and releases the sink as told;
//! 3. as long as `next_start` names a playback, it tries to build the
//!    sink of that playback and reports the outcome with
//!    `complete_start`;
//! 4. it ends the tick with `end_tick`.
//!
//! `model` states what each of these calls makes of the state, `laws`
//! what follows for every state that can be reached.

pub mod command;
pub mod error;
pub mod laws;
pub mod limits;
pub mod manager;
pub mod model;
pub mod preserve;
pub mod sentences;
pub mod state;

pub use command::{PlaybackCommand, SinkId};
pub use error::PlaybackError;
pub use manager::{AudioPlaybackManager, PlaybackEntry, StartRequest};
pub use model::{CommandReply, SinkAction};
pub use state::PlaybackState;
