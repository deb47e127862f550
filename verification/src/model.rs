//! The playback manager as mathematics: its state, the events that can
//! happen to it, and what each event makes of the state.

use crate::command::SinkId;
use crate::error::PlaybackError;
use crate::state::PlaybackState;
use vstd::prelude::*;

verus! {

/// What the driver of the output device has to do to a sink after the
/// manager has applied an event.
#[derive(Clone, Copy, Debug, PartialEq, Eq, Structural)]
pub enum SinkAction {
    /// Leave every sink as it is.
    Nothing,
    /// Pause the sink of this playback.
    Pause(SinkId),
    /// Let the sink of this playback emit audio again.
    Resume(SinkId),
    /// Stop the sink of this playback and drop it together with its stream.
    Release(SinkId),
}

/// The mathematical record of one playback.
pub struct EntryView {
    pub id: SinkId,
    pub state: PlaybackState,
    /// The buffer that waits to be decoded; empty once the entry has left the queue.
    pub audio: Seq<u8>,
    /// A pause was asked for while the entry was waiting.
    pub deferred_pause: bool,
    /// The entry has held a sink at some time.
    pub started: bool,
    /// Why the entry failed, if it did.
    pub failure: Option<PlaybackError>,
    /// The entry ended during the tick that is still running.
    pub fresh: bool,
}

impl EntryView {
    /// The entry that a play command creates. An empty buffer has nothing
    /// to emit and is finished at once.
    pub open spec fn accepted(id: SinkId, audio: Seq<u8>) -> EntryView {
        EntryView {
            id,
            state: if audio.len() == 0 {
                PlaybackState::Finished
            } else {
                PlaybackState::Queued
            },
            audio,
            deferred_pause: false,
            started: false,
            failure: None,
            fresh: audio.len() == 0,
        }
    }

    /// The entry after it has ended in the terminal state `state`.
    pub open spec fn ended(self, state: PlaybackState, failure: Option<PlaybackError>) -> EntryView {
        EntryView {
            id: self.id,
            state,
            audio: Seq::empty(),
            deferred_pause: false,
            started: self.started,
            failure,
            fresh: true,
        }
    }

    /// Stop: every entry that has not ended becomes `Stopped`.
    pub open spec fn stop(self) -> EntryView {
        if self.state.is_terminal() {
            self
        } else {
            self.ended(PlaybackState::Stopped, None)
        }
    }

    /// Pause: a playing entry becomes `Paused`, a waiting one is marked to
    /// start paused, any other is left alone.
    pub open spec fn pause(self) -> EntryView {
        match self.state {
            PlaybackState::Playing => EntryView { state: PlaybackState::Paused, ..self },
            PlaybackState::Queued => EntryView { deferred_pause: true, ..self },
            _ => self,
        }
    }

    /// Resume: a paused entry becomes `Playing`, any other is left alone.
    pub open spec fn resume(self) -> EntryView {
        if self.state is Paused {
            EntryView { state: PlaybackState::Playing, ..self }
        } else {
            self
        }
    }

    /// The waiting entry after its sink has been built.
    pub open spec fn promote(self) -> EntryView {
        EntryView {
            id: self.id,
            state: if self.deferred_pause {
                PlaybackState::Paused
            } else {
                PlaybackState::Playing
            },
            audio: Seq::empty(),
            deferred_pause: false,
            started: true,
            failure: None,
            fresh: false,
        }
    }

    /// The entry at the end of a tick.
    pub open spec fn aged(self) -> EntryView {
        EntryView { fresh: false, ..self }
    }

    /// An entry is purged at the end of the first tick that it began in a
    /// terminal state.
    pub open spec fn survives_tick(self) -> bool {
        !self.state.is_terminal() || self.fresh
    }

    /// What holds of every entry: only a waiting entry has a buffer and
    /// a deferred pause, and it has never held a sink; an entry that holds
    /// a sink has been started; a failure is recorded for the failed
    /// entries and for no others; and only an ended entry is fresh.
    pub open spec fn wf(self) -> bool {
        &&& self.state is Queued ==> self.audio.len() > 0 && !self.started
        &&& !(self.state is Queued) ==> self.audio.len() == 0 && !self.deferred_pause
        &&& self.state.holds_sink() ==> self.started
        &&& self.state is Failed <==> self.failure is Some
        &&& self.fresh ==> self.state.is_terminal()
    }
}

/// The mathematical state of the playback manager: its entries in the
/// order of acceptance, the next handle, and the bound on waiting entries.
pub struct ManagerView {
    pub entries: Seq<EntryView>,
    pub next_id: SinkId,
    pub capacity: usize,
}

/// What the driver reports after it has tried to build a sink.
pub type StartOutcome = Result<(), PlaybackError>;

impl ManagerView {
    /// The state of a new manager.
    pub open spec fn init(capacity: usize) -> ManagerView {
        ManagerView { entries: Seq::empty(), next_id: 0, capacity }
    }

    /// The invariant of the manager: every entry is well-formed; the
    /// handles are below the next handle and grow along the entries; at
    /// most one entry holds a sink; and where an entry has held a sink, no
    /// entry before it still waits.
    pub open spec fn wf(self) -> bool {
        &&& forall|i: int| 0 <= i < self.entries.len() ==> (#[trigger] self.entries[i]).wf()
        &&& forall|i: int| 0 <= i < self.entries.len() ==> (#[trigger] self.entries[i]).id < self.next_id
        &&& forall|i: int, j: int|
            0 <= i < j < self.entries.len() ==> (#[trigger] self.entries[i]).id < (
            #[trigger] self.entries[j]).id
        &&& forall|i: int, j: int|
            0 <= i < self.entries.len() && 0 <= j < self.entries.len() && (
            #[trigger] self.entries[i]).state.holds_sink() && (
            #[trigger] self.entries[j]).state.holds_sink() ==> i == j
        &&& forall|i: int, j: int|
            0 <= i < j < self.entries.len() && (#[trigger] self.entries[j]).started ==> !((
            #[trigger] self.entries[i]).state is Queued)
    }

    // ---- observation -------------------------------------------------

    /// The manager holds an entry under the handle `id`.
    pub open spec fn has(self, id: SinkId) -> bool {
        exists|i: int| 0 <= i < self.entries.len() && (#[trigger] self.entries[i]).id == id
    }

    /// The place of the entry with handle `id`.
    pub open spec fn index_of(self, id: SinkId) -> int {
        choose|i: int| 0 <= i < self.entries.len() && (#[trigger] self.entries[i]).id == id
    }

    /// The entry with handle `id`.
    pub open spec fn entry(self, id: SinkId) -> EntryView {
        self.entries[self.index_of(id)]
    }

    /// The state of the playback `id`, as long as the manager holds it.
    pub open spec fn state_of(self, id: SinkId) -> Option<PlaybackState> {
        if self.has(id) {
            Some(self.entry(id).state)
        } else {
            None
        }
    }

    /// The playback `id` has held a sink.
    pub open spec fn started(self, id: SinkId) -> bool {
        self.has(id) && self.entry(id).started
    }

    /// The handle addresses a playback that has not ended.
    pub open spec fn live(self, id: SinkId) -> bool {
        self.has(id) && !self.entry(id).state.is_terminal()
    }

    /// Some playback holds the output device.
    pub open spec fn has_active(self) -> bool {
        exists|i: int|
            0 <= i < self.entries.len() && (#[trigger] self.entries[i]).state.holds_sink()
    }

    /// The playback that holds the output device.
    pub open spec fn active(self) -> Option<SinkId> {
        if self.has_active() {
            Some(
                self.entries[choose|i: int|
                    0 <= i < self.entries.len() && (
                    #[trigger] self.entries[i]).state.holds_sink()].id,
            )
        } else {
            None
        }
    }

    /// `k` is the place of the oldest waiting entry.
    pub open spec fn is_head(self, k: int) -> bool {
        &&& 0 <= k < self.entries.len()
        &&& self.entries[k].state is Queued
        &&& forall|j: int| 0 <= j < k ==> !((#[trigger] self.entries[j]).state is Queued)
    }

    /// Some playback waits.
    pub open spec fn has_head(self) -> bool {
        exists|k: int| self.is_head(k)
    }

    /// The oldest waiting playback.
    pub open spec fn head(self) -> Option<SinkId> {
        if self.has_head() {
            Some(self.entries[choose|k: int| self.is_head(k)].id)
        } else {
            None
        }
    }

    /// The playback whose sink is to be built next: the oldest waiting one,
    /// as long as nothing holds the output device.
    pub open spec fn promotable(self) -> Option<SinkId> {
        if self.has_active() {
            None
        } else {
            self.head()
        }
    }

    /// The number of waiting playbacks.
    pub open spec fn waiting(self) -> nat {
        self.entries.filter(|e: EntryView| e.state is Queued).len()
    }

    /// The queue has no room for another playback.
    pub open spec fn saturated(self) -> bool {
        self.waiting() >= self.capacity
    }

    // ---- transitions -------------------------------------------------

    /// The same manager with other entries.
    pub open spec fn with_entries(self, entries: Seq<EntryView>) -> ManagerView {
        ManagerView { entries, next_id: self.next_id, capacity: self.capacity }
    }

    /// The answer to a play command: the next handle, unless the queue
    /// is saturated or the handles have run out.
    pub open spec fn play_reply(self) -> Result<SinkId, PlaybackError> {
        if self.saturated() {
            Err(PlaybackError::QueueFull)
        } else if self.next_id == usize::MAX {
            Err(PlaybackError::Internal)
        } else {
            Ok(self.next_id)
        }
    }

    /// Play: an accepted playback is put behind the others; a refused one
    /// changes nothing.
    pub open spec fn play(self, audio: Seq<u8>) -> ManagerView {
        if self.play_reply() is Ok {
            ManagerView {
                entries: self.entries.push(EntryView::accepted(self.next_id, audio)),
                next_id: (self.next_id + 1) as usize,
                capacity: self.capacity,
            }
        } else {
            self
        }
    }

    /// The answer to a stop command: the sink to release, if the
    /// playback holds one.
    pub open spec fn stop_reply(self, id: SinkId) -> Result<SinkAction, PlaybackError> {
        if !self.live(id) {
            Err(PlaybackError::UnknownHandle)
        } else if self.entry(id).state.holds_sink() {
            Ok(SinkAction::Release(id))
        } else {
            Ok(SinkAction::Nothing)
        }
    }

    /// Stop: the playback `id` ends, if it has not ended yet.
    pub open spec fn stop(self, id: SinkId) -> ManagerView {
        self.with_entries(
            self.entries.map_values(
                |e: EntryView|
                    if e.id == id {
                        e.stop()
                    } else {
                        e
                    },
            ),
        )
    }

    /// The answer to a pause command: the sink to pause, if the playback
    /// is playing.
    pub open spec fn pause_reply(self, id: SinkId) -> Result<SinkAction, PlaybackError> {
        if !self.live(id) {
            Err(PlaybackError::UnknownHandle)
        } else if self.entry(id).state is Playing {
            Ok(SinkAction::Pause(id))
        } else {
            Ok(SinkAction::Nothing)
        }
    }

    /// Pause: the playback `id` is paused, at once or as soon as it starts.
    pub open spec fn pause(self, id: SinkId) -> ManagerView {
        self.with_entries(
            self.entries.map_values(
                |e: EntryView|
                    if e.id == id {
                        e.pause()
                    } else {
                        e
                    },
            ),
        )
    }

    /// The answer to a resume command: the sink to resume, if the
    /// playback is paused.
    pub open spec fn resume_reply(self, id: SinkId) -> Result<SinkAction, PlaybackError> {
        if !self.live(id) {
            Err(PlaybackError::UnknownHandle)
        } else if self.entry(id).state is Paused {
            Ok(SinkAction::Resume(id))
        } else {
            Ok(SinkAction::Nothing)
        }
    }

    /// Resume: the playback `id` plays again, if it is paused.
    pub open spec fn resume(self, id: SinkId) -> ManagerView {
        self.with_entries(
            self.entries.map_values(
                |e: EntryView|
                    if e.id == id {
                        e.resume()
                    } else {
                        e
                    },
            ),
        )
    }

    /// A sink that was built for anything but the promotable playback has
    /// no entry to belong to and is released again.
    pub open spec fn start_reply(self, id: SinkId, outcome: StartOutcome) -> SinkAction {
        if outcome is Ok && self.promotable() != Some(id) {
            SinkAction::Release(id)
        } else {
            SinkAction::Nothing
        }
    }

    /// The driver has tried to build the sink of playback `id`.
    pub open spec fn complete_start(self, id: SinkId, outcome: StartOutcome) -> ManagerView {
        if self.promotable() == Some(id) {
            self.with_entries(
                self.entries.map_values(
                    |e: EntryView|
                        if e.id == id {
                            match outcome {
                                Ok(_) => e.promote(),
                                Err(reason) => e.ended(PlaybackState::Failed, Some(reason)),
                            }
                        } else {
                            e
                        },
                ),
            )
        } else {
            self
        }
    }

    /// The playing sink, if there is one.
    pub open spec fn playing(self) -> Option<SinkId> {
        match self.active() {
            Some(id) => if self.entry(id).state is Playing {
                Some(id)
            } else {
                None
            },
            None => None,
        }
    }

    /// The sink of `target` is to be released, if there is a target.
    pub open spec fn release_reply(target: Option<SinkId>) -> SinkAction {
        match target {
            Some(id) => SinkAction::Release(id),
            None => SinkAction::Nothing,
        }
    }

    /// The sink of the playing entry has run out of audio.
    pub open spec fn drain(self) -> ManagerView {
        self.with_entries(
            self.entries.map_values(
                |e: EntryView|
                    if e.state is Playing {
                        e.ended(PlaybackState::Finished, None)
                    } else {
                        e
                    },
            ),
        )
    }

    /// The output device of the active entry has failed.
    pub open spec fn fail_active(self, reason: PlaybackError) -> ManagerView {
        self.with_entries(
            self.entries.map_values(
                |e: EntryView|
                    if e.state.holds_sink() {
                        e.ended(PlaybackState::Failed, Some(reason))
                    } else {
                        e
                    },
            ),
        )
    }

    /// Shutdown: every playback that has not ended is stopped.
    pub open spec fn stop_all(self) -> ManagerView {
        self.with_entries(self.entries.map_values(|e: EntryView| e.stop()))
    }

    /// The end of a tick: entries that began the tick in a terminal state
    /// are purged, the others grow one tick older.
    pub open spec fn end_tick(self) -> ManagerView {
        self.with_entries(
            self.entries.filter(|e: EntryView| e.survives_tick()).map_values(
                |e: EntryView| e.aged(),
            ),
        )
    }
}

/// What the manager answers to a command.
#[derive(Clone, Copy, Debug, PartialEq, Eq, Structural)]
pub enum CommandReply {
    /// The playback was accepted under this handle.
    Accepted(SinkId),
    /// The command was applied; the driver has this to do.
    Done(SinkAction),
}

/// Everything that can happen to the manager.
pub enum Event {
    Play(Seq<u8>),
    Stop(SinkId),
    Pause(SinkId),
    Resume(SinkId),
    /// The driver has tried to build the sink of a playback.
    Started(SinkId, StartOutcome),
    /// The sink of the playing entry has run out of audio.
    Drained,
    /// The output device of the active entry has failed.
    DeviceLost(PlaybackError),
    /// A tick has ended.
    Tick,
    /// The process is asked to end.
    Shutdown,
}

impl ManagerView {
    /// The state after one event.
    pub open spec fn step(self, event: Event) -> ManagerView {
        match event {
            Event::Play(audio) => self.play(audio),
            Event::Stop(id) => self.stop(id),
            Event::Pause(id) => self.pause(id),
            Event::Resume(id) => self.resume(id),
            Event::Started(id, outcome) => self.complete_start(id, outcome),
            Event::Drained => self.drain(),
            Event::DeviceLost(reason) => self.fail_active(reason),
            Event::Tick => self.end_tick(),
            Event::Shutdown => self.stop_all(),
        }
    }

    /// The state after a sequence of events, taken in order.
    pub open spec fn run(self, events: Seq<Event>) -> ManagerView
        decreases events.len(),
    {
        if events.len() == 0 {
            self
        } else {
            self.run(events.drop_last()).step(events.last())
        }
    }

    /// The state after the first `k` of the events.
    pub open spec fn after(self, events: Seq<Event>, k: int) -> ManagerView {
        self.run(events.take(k))
    }

    /// The answer to an event: the handle of an accepted playback, what
    /// the driver has to do, or why a command was refused.
    pub open spec fn reply(self, event: Event) -> Result<CommandReply, PlaybackError> {
        match event {
            Event::Play(_) => match self.play_reply() {
                Ok(id) => Ok(CommandReply::Accepted(id)),
                Err(e) => Err(e),
            },
            Event::Stop(id) => match self.stop_reply(id) {
                Ok(action) => Ok(CommandReply::Done(action)),
                Err(e) => Err(e),
            },
            Event::Pause(id) => match self.pause_reply(id) {
                Ok(action) => Ok(CommandReply::Done(action)),
                Err(e) => Err(e),
            },
            Event::Resume(id) => match self.resume_reply(id) {
                Ok(action) => Ok(CommandReply::Done(action)),
                Err(e) => Err(e),
            },
            Event::Started(id, outcome) => Ok(CommandReply::Done(self.start_reply(id, outcome))),
            Event::Drained => Ok(CommandReply::Done(Self::release_reply(self.playing()))),
            Event::DeviceLost(_) => Ok(CommandReply::Done(Self::release_reply(self.active()))),
            Event::Tick => Ok(CommandReply::Done(SinkAction::Nothing)),
            Event::Shutdown => Ok(CommandReply::Done(Self::release_reply(self.active()))),
        }
    }
}

} // verus!
