//! The numbers that bound the agent: queue room, poll interval, time-outs.

use vstd::prelude::*;

verus! {

/// The number of waiting playbacks that a manager made by `new` admits.
pub const DEFAULT_CAPACITY: usize = 64;

/// The milliseconds between two looks at the playing sink. A sink that
/// has run empty is seen within this time, which keeps the gap between
/// two utterances short.
pub const POLL_INTERVAL_MS: u64 = 50;

/// The seconds that one call to an outside service may take.
pub const EXTERNAL_CALL_TIMEOUT_SECS: u64 = 30;

/// The seconds after which a client that met a full queue should try again.
pub const RETRY_AFTER_SECS: u64 = 1;

} // verus!
