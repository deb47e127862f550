//! The kinds of failure, and how the facade reports each of them.

use crate::limits::RETRY_AFTER_SECS;
use vstd::prelude::*;

verus! {

/// The kinds of failure that the agent distinguishes.
#[derive(Clone, Copy, Debug, PartialEq, Eq, Structural)]
pub enum PlaybackError {
    /// The handle was never assigned or its playback has ended.
    UnknownHandle,
    /// Too many playbacks are waiting already.
    QueueFull,
    /// The audio container was not recognised.
    UnsupportedFormat,
    /// The audio stream could not be parsed.
    Corrupt,
    /// The output device could not be opened or was lost.
    DeviceUnavailable,
    /// The synthesis service did not deliver audio.
    SynthesisFailed,
    /// A call to an outside service took too long.
    Timeout,
    /// There was no text to speak.
    Empty,
    /// The manager itself could not go on.
    Internal,
}

impl PlaybackError {
    /// The failures that the client can mend by itself.
    pub open spec fn is_client_correctable(self) -> bool {
        self is Empty || self is UnknownHandle
    }

    /// The HTTP status under which the facade reports the failure.
    pub open spec fn status(self) -> u16 {
        match self {
            PlaybackError::Empty => 400,
            PlaybackError::UnknownHandle => 404,
            PlaybackError::SynthesisFailed => 502,
            PlaybackError::QueueFull => 503,
            PlaybackError::Timeout => 504,
            PlaybackError::UnsupportedFormat
            | PlaybackError::Corrupt
            | PlaybackError::DeviceUnavailable
            | PlaybackError::Internal => 500,
        }
    }

    /// The name of the kind, as the facade writes it into a response.
    pub open spec fn kind_name(self) -> Seq<char> {
        match self {
            PlaybackError::UnknownHandle => "UnknownHandle"@,
            PlaybackError::QueueFull => "QueueFull"@,
            PlaybackError::UnsupportedFormat => "UnsupportedFormat"@,
            PlaybackError::Corrupt => "Corrupt"@,
            PlaybackError::DeviceUnavailable => "DeviceUnavailable"@,
            PlaybackError::SynthesisFailed => "SynthesisFailed"@,
            PlaybackError::Timeout => "Timeout"@,
            PlaybackError::Empty => "Empty"@,
            PlaybackError::Internal => "Internal"@,
        }
    }

    /// The HTTP status under which the facade reports the failure: a
    /// status of the 4xx class where the client can mend it, of the 5xx
    /// class where it cannot.
    pub fn status_code(&self) -> (r: u16)
        ensures
            r == self.status(),
            self.is_client_correctable() <==> 400 <= r < 500,
            !self.is_client_correctable() <==> 500 <= r < 600,
    {
        match self {
            PlaybackError::Empty => 400,
            PlaybackError::UnknownHandle => 404,
            PlaybackError::SynthesisFailed => 502,
            PlaybackError::QueueFull => 503,
            PlaybackError::Timeout => 504,
            PlaybackError::UnsupportedFormat
            | PlaybackError::Corrupt
            | PlaybackError::DeviceUnavailable
            | PlaybackError::Internal => 500,
        }
    }

    /// The hint that goes with a full queue, and with no other failure.
    pub fn retry_after(&self) -> (r: Option<u64>)
        ensures
            r == if self is QueueFull {
                Some(RETRY_AFTER_SECS)
            } else {
                None
            },
    {
        match self {
            PlaybackError::QueueFull => Some(RETRY_AFTER_SECS),
            _ => None,
        }
    }

    /// The name of the kind.
    pub fn kind(&self) -> (r: &'static str)
        ensures
            r@ == self.kind_name(),
    {
        match self {
            PlaybackError::UnknownHandle => "UnknownHandle",
            PlaybackError::QueueFull => "QueueFull",
            PlaybackError::UnsupportedFormat => "UnsupportedFormat",
            PlaybackError::Corrupt => "Corrupt",
            PlaybackError::DeviceUnavailable => "DeviceUnavailable",
            PlaybackError::SynthesisFailed => "SynthesisFailed",
            PlaybackError::Timeout => "Timeout",
            PlaybackError::Empty => "Empty",
            PlaybackError::Internal => "Internal",
        }
    }
}

} // verus!
