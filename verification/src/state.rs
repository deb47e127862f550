//! The states of one playback.

use vstd::prelude::*;

verus! {

/// Where one playback stands in its life.
#[derive(Clone, Copy, Debug, PartialEq, Eq, Structural)]
pub enum PlaybackState {
    /// Accepted and waiting for the output device.
    Queued,
    /// Holds the output device and emits audio.
    Playing,
    /// Holds the output device and emits nothing.
    Paused,
    /// Ended by a stop command.
    Stopped,
    /// Ended because its audio ran out.
    Finished,
    /// Ended by a decode or device failure.
    Failed,
}

impl PlaybackState {
    /// No transition leaves a terminal state.
    pub open spec fn is_terminal(self) -> bool {
        self is Stopped || self is Finished || self is Failed
    }

    /// The states in which a playback owns a sink and its output stream.
    pub open spec fn holds_sink(self) -> bool {
        self is Playing || self is Paused
    }

    pub fn terminal(&self) -> (r: bool)
        ensures
            r == self.is_terminal(),
    {
        match self {
            PlaybackState::Stopped | PlaybackState::Finished | PlaybackState::Failed => true,
            _ => false,
        }
    }

    pub fn has_sink(&self) -> (r: bool)
        ensures
            r == self.holds_sink(),
    {
        match self {
            PlaybackState::Playing | PlaybackState::Paused => true,
            _ => false,
        }
    }
}

} // verus!
