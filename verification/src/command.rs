//! The commands that the facade sends to the playback manager.

use crate::model::Event;
use vstd::prelude::*;

verus! {

/// Handle by which one playback is addressed. Handles are handed out in
/// increasing order and double as the sequence number of acceptance.
pub type SinkId = usize;

/// A request to the playback manager.
pub enum PlaybackCommand {
    /// Enqueue the given audio buffer as a new playback.
    Play(Vec<u8>),
    /// Terminate the playback with this handle.
    Stop(SinkId),
    /// Pause the playback with this handle.
    Pause(SinkId),
    /// Resume the playback with this handle.
    Resume(SinkId),
}

impl View for PlaybackCommand {
    type V = Event;

    open spec fn view(&self) -> Event {
        match self {
            PlaybackCommand::Play(audio) => Event::Play(audio@),
            PlaybackCommand::Stop(id) => Event::Stop(*id),
            PlaybackCommand::Pause(id) => Event::Pause(*id),
            PlaybackCommand::Resume(id) => Event::Resume(*id),
        }
    }
}

} // verus!
