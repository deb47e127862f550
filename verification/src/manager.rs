//! The playback manager itself: executable code that does to its entries
//! what the model says.

use crate::command::{PlaybackCommand, SinkId};
use crate::error::PlaybackError;
use crate::limits::DEFAULT_CAPACITY;
use crate::model::{CommandReply, EntryView, ManagerView, SinkAction, StartOutcome};
use crate::preserve::{
    lemma_active_at, lemma_complete_start_wf, lemma_drain_wf, lemma_end_tick_wf,
    lemma_fail_active_wf, lemma_head_at, lemma_init_wf, lemma_pause_wf, lemma_place_of,
    lemma_play_wf, lemma_resume_wf, lemma_stop_all_wf, lemma_stop_wf,
};
use crate::state::PlaybackState;
use vstd::prelude::*;

verus! {

/// The manager's record of one playback.
pub struct PlaybackEntry {
    id: SinkId,
    state: PlaybackState,
    audio: Vec<u8>,
    deferred_pause: bool,
    started: bool,
    failure: Option<PlaybackError>,
    fresh: bool,
}

impl View for PlaybackEntry {
    type V = EntryView;

    closed spec fn view(&self) -> EntryView {
        EntryView {
            id: self.id,
            state: self.state,
            audio: self.audio@,
            deferred_pause: self.deferred_pause,
            started: self.started,
            failure: self.failure,
            fresh: self.fresh,
        }
    }
}

impl PlaybackEntry {
    /// The handle of the playback.
    pub fn id(&self) -> (r: SinkId)
        ensures
            r == self@.id,
    {
        self.id
    }

    /// Where the playback stands.
    pub fn state(&self) -> (r: PlaybackState)
        ensures
            r == self@.state,
    {
        self.state
    }

    /// The playback waits and is to start paused.
    pub fn is_pause_deferred(&self) -> (r: bool)
        ensures
            r == self@.deferred_pause,
    {
        self.deferred_pause
    }

    /// The playback has held a sink at some time. An entry that ended
    /// without ever having one was cancelled before it began.
    pub fn was_started(&self) -> (r: bool)
        ensures
            r == self@.started,
    {
        self.started
    }

    /// Why the playback failed, if it did.
    pub fn failure(&self) -> (r: Option<PlaybackError>)
        ensures
            r == self@.failure,
    {
        self.failure
    }

    /// The entry in the terminal state `state`, without its buffer.
    fn ended(&self, state: PlaybackState, failure: Option<PlaybackError>) -> (r: PlaybackEntry)
        ensures
            r@ == self@.ended(state, failure),
    {
        let r = PlaybackEntry {
            id: self.id,
            state,
            audio: Vec::new(),
            deferred_pause: false,
            started: self.started,
            failure,
            fresh: true,
        };
        assert(r@.audio =~= Seq::empty());
        r
    }
}

/// The mathematical records of a sequence of entries.
spec fn views(entries: Seq<PlaybackEntry>) -> Seq<EntryView> {
    entries.map_values(|e: PlaybackEntry| e@)
}

/// Owner of all playbacks. It assigns handles, keeps the entries in the
/// order of acceptance and decides what the driver has to do to which
/// sink. Its view is well-formed at all times.
pub struct AudioPlaybackManager {
    next_id: SinkId,
    entries: Vec<PlaybackEntry>,
    capacity: usize,
}

impl View for AudioPlaybackManager {
    type V = ManagerView;

    closed spec fn view(&self) -> ManagerView {
        ManagerView {
            entries: views(self.entries@),
            next_id: self.next_id,
            capacity: self.capacity,
        }
    }
}

/// What the driver needs to build the sink of the next playback.
pub struct StartRequest {
    pub id: SinkId,
    /// The buffer to decode.
    pub audio: Vec<u8>,
    /// The sink is to be built paused.
    pub paused: bool,
}

impl AudioPlaybackManager {
    #[verifier::type_invariant]
    spec fn inv(self) -> bool {
        self@.wf()
    }

    /// The invariant of the manager, stated over its view.
    pub open spec fn wf(&self) -> bool {
        self@.wf()
    }

    /// A manager without playbacks that admits `DEFAULT_CAPACITY` waiting ones.
    pub fn new() -> (m: Self)
        ensures
            m.wf(),
            m@ == ManagerView::init(DEFAULT_CAPACITY),
    {
        Self::with_capacity(DEFAULT_CAPACITY)
    }

    /// A manager without playbacks that admits `capacity` waiting ones.
    pub fn with_capacity(capacity: usize) -> (m: Self)
        ensures
            m.wf(),
            m@ == ManagerView::init(capacity),
    {
        proof {
            lemma_init_wf(capacity);
            assert(views(Seq::empty()) =~= ManagerView::init(capacity).entries);
        }
        AudioPlaybackManager { next_id: 0, entries: Vec::new(), capacity }
    }

    /// The place of the entry with handle `id`.
    fn find(&self, id: SinkId) -> (r: Option<usize>)
        ensures
            self.wf(),
            match r {
                Some(i) => i < self.entries.len() && self@.has(id) && self@.index_of(id) == i
                    && self@.entry(id) == self.entries[i as int]@ && self@.entries[i as int]
                    == self.entries[i as int]@ && self.entries[i as int].id == id,
                None => !self@.has(id),
            },
    {
        proof {
            use_type_invariant(self);
        }
        let mut i: usize = 0;
        while i < self.entries.len()
            invariant
                self.wf(),
                i <= self.entries.len(),
                forall|k: int| 0 <= k < i ==> (#[trigger] self@.entries[k]).id != id,
            decreases self.entries.len() - i,
        {
            if self.entries[i].id == id {
                proof {
                    assert(self@.entries[i as int].id == id);
                    lemma_place_of(self@, i as int);
                }
                return Some(i);
            }
            i = i + 1;
        }
        None
    }

    /// The place of the entry that holds the output device.
    fn active_place(&self) -> (r: Option<usize>)
        ensures
            self.wf(),
            match r {
                Some(i) => i < self.entries.len() && self@.entries[i as int]
                    == self.entries[i as int]@ && self.entries[i as int]@.state.holds_sink()
                    && self@.active() == Some(self.entries[i as int].id),
                None => !self@.has_active(),
            },
    {
        proof {
            use_type_invariant(self);
        }
        let mut i: usize = 0;
        while i < self.entries.len()
            invariant
                self.wf(),
                i <= self.entries.len(),
                forall|k: int| 0 <= k < i ==> !(#[trigger] self@.entries[k]).state.holds_sink(),
            decreases self.entries.len() - i,
        {
            if self.entries[i].state.has_sink() {
                proof {
                    assert(self@.entries[i as int].state.holds_sink());
                    lemma_active_at(self@, i as int);
                }
                return Some(i);
            }
            i = i + 1;
        }
        None
    }

    /// The place of the oldest waiting entry.
    fn head_place(&self) -> (r: Option<usize>)
        ensures
            match r {
                Some(k) => self@.is_head(k as int) && self@.head() == Some(
                    self.entries[k as int].id,
                ),
                None => !self@.has_head(),
            },
    {
        let mut i: usize = 0;
        while i < self.entries.len()
            invariant
                i <= self.entries.len(),
                forall|k: int| 0 <= k < i ==> !((#[trigger] self@.entries[k]).state is Queued),
            decreases self.entries.len() - i,
        {
            if matches!(self.entries[i].state, PlaybackState::Queued) {
                proof {
                    assert(self@.entries[i as int].state is Queued);
                    lemma_head_at(self@, i as int);
                }
                return Some(i);
            }
            i = i + 1;
        }
        None
    }

    /// The place of the playback whose sink is to be built next.
    fn promotable_place(&self) -> (r: Option<usize>)
        ensures
            self.wf(),
            match r {
                Some(k) => self@.is_head(k as int) && self@.promotable() == Some(
                    self.entries[k as int].id,
                ),
                None => self@.promotable() is None,
            },
    {
        match self.active_place() {
            Some(_) => None,
            None => self.head_place(),
        }
    }

    /// Puts `entry` at place `i`.
    fn put(&mut self, i: usize, entry: PlaybackEntry)
        requires
            i < old(self).entries.len(),
            old(self)@.with_entries(old(self)@.entries.update(i as int, entry@)).wf(),
        ensures
            final(self)@ == old(self)@.with_entries(old(self)@.entries.update(i as int, entry@)),
    {
        let mut entries: Vec<PlaybackEntry> = Vec::new();
        std::mem::swap(&mut entries, &mut self.entries);
        entries.set(i, entry);
        proof {
            assert(views(entries@) =~= old(self)@.entries.update(i as int, entry@));
        }
        self.entries = entries;
    }

    /// Gives the entry at place `i` the state `state` and the mark
    /// `deferred_pause`.
    fn retouch(&mut self, i: usize, state: PlaybackState, deferred_pause: bool)
        requires
            i < old(self).entries.len(),
            old(self)@.with_entries(
                old(self)@.entries.update(
                    i as int,
                    (EntryView { state, deferred_pause, ..old(self)@.entries[i as int] }),
                ),
            ).wf(),
        ensures
            final(self)@ == old(self)@.with_entries(
                old(self)@.entries.update(
                    i as int,
                    (EntryView { state, deferred_pause, ..old(self)@.entries[i as int] }),
                ),
            ),
    {
        let mut entries: Vec<PlaybackEntry> = Vec::new();
        std::mem::swap(&mut entries, &mut self.entries);
        entries[i].state = state;
        entries[i].deferred_pause = deferred_pause;
        proof {
            assert(views(entries@) =~= old(self)@.entries.update(
                i as int,
                (EntryView { state, deferred_pause, ..old(self)@.entries[i as int] }),
            ));
        }
        self.entries = entries;
    }

    /// The number of waiting playbacks.
    pub fn waiting(&self) -> (n: usize)
        ensures
            n == self@.waiting(),
    {
        let mut n: usize = 0;
        let mut i: usize = 0;
        let ghost waits = |e: EntryView| e.state is Queued;
        proof {
            reveal(Seq::filter);
            assert(self@.entries.take(0).filter(waits).len() == 0);
        }
        while i < self.entries.len()
            invariant
                i <= self.entries.len(),
                n <= i,
                waits == (|e: EntryView| e.state is Queued),
                n == self@.entries.take(i as int).filter(waits).len(),
            decreases self.entries.len() - i,
        {
            proof {
                let before = self@.entries.take(i as int);
                assert(self@.entries.take(i + 1) =~= before.push(self@.entries[i as int]));
                before.lemma_filter_push(self@.entries[i as int], waits);
            }
            if matches!(self.entries[i].state, PlaybackState::Queued) {
                n = n + 1;
            }
            i = i + 1;
        }
        proof {
            assert(self@.entries.take(i as int) =~= self@.entries);
        }
        n
    }

    /// Accepts a new playback, unless too many are waiting or the handles
    /// have run out. The handle of an accepted playback is returned. A
    /// playback with an empty buffer is finished at once.
    pub fn play_audio(&mut self, audio_data: Vec<u8>) -> (r: Result<SinkId, PlaybackError>)
        ensures
            final(self).wf(),
            final(self)@ == old(self)@.play(audio_data@),
            r == old(self)@.play_reply(),
    {
        proof {
            use_type_invariant(&*self);
            lemma_play_wf(self@, audio_data@);
        }
        if self.waiting() >= self.capacity {
            return Err(PlaybackError::QueueFull);
        }
        if self.next_id == usize::MAX {
            return Err(PlaybackError::Internal);
        }
        let id = self.next_id;
        let silent = audio_data.len() == 0;
        let ghost audio = audio_data@;
        let entry = PlaybackEntry {
            id,
            state: if silent {
                PlaybackState::Finished
            } else {
                PlaybackState::Queued
            },
            audio: audio_data,
            deferred_pause: false,
            started: false,
            failure: None,
            fresh: silent,
        };
        let mut entries: Vec<PlaybackEntry> = Vec::new();
        std::mem::swap(&mut entries, &mut self.entries);
        entries.push(entry);
        proof {
            assert(views(entries@) =~= old(self)@.play(audio).entries);
        }
        self.next_id = id + 1;
        self.entries = entries;
        Ok(id)
    }

    /// Ends the playback `id` now. A playback that holds a sink gives it
    /// up: the reply names the sink to release. An unknown or ended handle
    /// changes nothing.
    pub fn stop_audio(&mut self, id: SinkId) -> (r: Result<SinkAction, PlaybackError>)
        ensures
            final(self).wf(),
            final(self)@ == old(self)@.stop(id),
            r == old(self)@.stop_reply(id),
    {
        proof {
            use_type_invariant(&*self);
            lemma_stop_wf(self@, id);
        }
        match self.find(id) {
            None => {
                proof {
                    assert(self@.stop(id).entries =~= self@.entries);
                }
                Err(PlaybackError::UnknownHandle)
            },
            Some(i) => {
                let state = self.entries[i].state;
                if state.terminal() {
                    proof {
                        assert(self@.stop(id).entries =~= self@.entries);
                    }
                    return Err(PlaybackError::UnknownHandle);
                }
                let entry = self.entries[i].ended(PlaybackState::Stopped, None);
                proof {
                    let before = self@;
                    assert forall|k: int| 0 <= k < before.entries.len() && k != i implies (
                    #[trigger] before.entries[k]).id != id by {
                        lemma_place_of(before, k);
                    }
                    assert(before.entries.update(i as int, entry@) =~= before.stop(id).entries);
                }
                self.put(i, entry);
                if state.has_sink() {
                    Ok(SinkAction::Release(id))
                } else {
                    Ok(SinkAction::Nothing)
                }
            },
        }
    }

    /// Pauses the playback `id`: a playing one at once, a waiting one as
    /// soon as it gets its sink. On any other handle nothing changes.
    pub fn pause_audio(&mut self, id: SinkId) -> (r: Result<SinkAction, PlaybackError>)
        ensures
            final(self).wf(),
            final(self)@ == old(self)@.pause(id),
            r == old(self)@.pause_reply(id),
    {
        proof {
            use_type_invariant(&*self);
            lemma_pause_wf(self@, id);
        }
        match self.find(id) {
            None => {
                proof {
                    assert(self@.pause(id).entries =~= self@.entries);
                }
                Err(PlaybackError::UnknownHandle)
            },
            Some(i) => {
                proof {
                    let before = self@;
                    assert forall|k: int| 0 <= k < before.entries.len() && k != i implies (
                    #[trigger] before.entries[k]).id != id by {
                        lemma_place_of(before, k);
                    }
                }
                match self.entries[i].state {
                    PlaybackState::Playing => {
                        proof {
                            let before = self@;
                            assert(before.entries.update(
                                i as int,
                                (EntryView {
                                    state: PlaybackState::Paused,
                                    deferred_pause: before.entries[i as int].deferred_pause,
                                    ..before.entries[i as int]
                                }),
                            ) =~= before.pause(id).entries);
                        }
                        let deferred = self.entries[i].deferred_pause;
                        self.retouch(i, PlaybackState::Paused, deferred);
                        Ok(SinkAction::Pause(id))
                    },
                    PlaybackState::Queued => {
                        proof {
                            let before = self@;
                            assert(before.entries.update(
                                i as int,
                                (EntryView {
                                    state: PlaybackState::Queued,
                                    deferred_pause: true,
                                    ..before.entries[i as int]
                                }),
                            ) =~= before.pause(id).entries);
                        }
                        self.retouch(i, PlaybackState::Queued, true);
                        Ok(SinkAction::Nothing)
                    },
                    PlaybackState::Paused => {
                        proof {
                            assert(self@.pause(id).entries =~= self@.entries);
                        }
                        Ok(SinkAction::Nothing)
                    },
                    _ => {
                        proof {
                            assert(self@.pause(id).entries =~= self@.entries);
                        }
                        Err(PlaybackError::UnknownHandle)
                    },
                }
            },
        }
    }

    /// Lets a paused playback emit audio again. On any other handle
    /// nothing changes.
    pub fn resume_audio(&mut self, id: SinkId) -> (r: Result<SinkAction, PlaybackError>)
        ensures
            final(self).wf(),
            final(self)@ == old(self)@.resume(id),
            r == old(self)@.resume_reply(id),
    {
        proof {
            use_type_invariant(&*self);
            lemma_resume_wf(self@, id);
        }
        match self.find(id) {
            None => {
                proof {
                    assert(self@.resume(id).entries =~= self@.entries);
                }
                Err(PlaybackError::UnknownHandle)
            },
            Some(i) => {
                proof {
                    let before = self@;
                    assert forall|k: int| 0 <= k < before.entries.len() && k != i implies (
                    #[trigger] before.entries[k]).id != id by {
                        lemma_place_of(before, k);
                    }
                }
                match self.entries[i].state {
                    PlaybackState::Paused => {
                        proof {
                            let before = self@;
                            assert(before.entries.update(
                                i as int,
                                (EntryView {
                                    state: PlaybackState::Playing,
                                    deferred_pause: before.entries[i as int].deferred_pause,
                                    ..before.entries[i as int]
                                }),
                            ) =~= before.resume(id).entries);
                        }
                        let deferred = self.entries[i].deferred_pause;
                        self.retouch(i, PlaybackState::Playing, deferred);
                        Ok(SinkAction::Resume(id))
                    },
                    PlaybackState::Queued | PlaybackState::Playing => {
                        proof {
                            assert(self@.resume(id).entries =~= self@.entries);
                        }
                        Ok(SinkAction::Nothing)
                    },
                    _ => {
                        proof {
                            assert(self@.resume(id).entries =~= self@.entries);
                        }
                        Err(PlaybackError::UnknownHandle)
                    },
                }
            },
        }
    }

    /// The playback whose sink the driver has to build now: the oldest
    /// waiting one, as long as no playback holds the output device.
    pub fn next_start(&self) -> (r: Option<StartRequest>)
        ensures
            self.wf(),
            match r {
                Some(request) => self@.promotable() == Some(request.id) && request.audio@
                    == self@.entry(request.id).audio && request.paused == self@.entry(
                    request.id,
                ).deferred_pause,
                None => self@.promotable() is None,
            },
    {
        match self.promotable_place() {
            None => None,
            Some(k) => {
                proof {
                    lemma_place_of(self@, k as int);
                }
                let audio = self.entries[k].audio.clone();
                assert(audio@ =~= self.entries[k as int].audio@);
                Some(
                    StartRequest {
                        id: self.entries[k].id,
                        audio,
                        paused: self.entries[k].deferred_pause,
                    },
                )
            },
        }
    }

    /// Records what became of building the sink of playback `id`. Built,
    /// the playback holds the output device, paused if a pause was
    /// waiting for it; not built, the playback has failed. A sink built
    /// for any other playback is to be released again.
    pub fn complete_start(&mut self, id: SinkId, outcome: StartOutcome) -> (r: SinkAction)
        ensures
            final(self).wf(),
            final(self)@ == old(self)@.complete_start(id, outcome),
            r == old(self)@.start_reply(id, outcome),
    {
        proof {
            use_type_invariant(&*self);
            lemma_complete_start_wf(self@, id, outcome);
        }
        let place = self.promotable_place();
        let applies = match place {
            Some(k) => self.entries[k].id == id,
            None => false,
        };
        if !applies {
            return match outcome {
                Ok(_) => SinkAction::Release(id),
                Err(_) => SinkAction::Nothing,
            };
        }
        let k = place.unwrap();
        let entry = match outcome {
            Ok(_) => PlaybackEntry {
                id,
                state: if self.entries[k].deferred_pause {
                    PlaybackState::Paused
                } else {
                    PlaybackState::Playing
                },
                audio: Vec::new(),
                deferred_pause: false,
                started: true,
                failure: None,
                fresh: false,
            },
            Err(reason) => self.entries[k].ended(PlaybackState::Failed, Some(reason)),
        };
        proof {
            let before = self@;
            assert forall|j: int| 0 <= j < before.entries.len() && j != k implies (
            #[trigger] before.entries[j]).id != id by {
                lemma_place_of(before, j);
            }
            assert(entry@.audio =~= Seq::empty());
            assert(before.entries.update(k as int, entry@) =~= before.complete_start(
                id,
                outcome,
            ).entries);
        }
        self.put(k, entry);
        SinkAction::Nothing
    }

    /// The driver has seen the sink of the playing entry run empty: the
    /// entry is finished and its sink is to be released.
    pub fn sink_drained(&mut self) -> (r: SinkAction)
        ensures
            final(self).wf(),
            final(self)@ == old(self)@.drain(),
            r == ManagerView::release_reply(old(self)@.playing()),
    {
        proof {
            use_type_invariant(&*self);
            lemma_drain_wf(self@);
        }
        match self.active_place() {
            None => {
                proof {
                    assert(self@.drain().entries =~= self@.entries);
                }
                SinkAction::Nothing
            },
            Some(i) => {
                let id = self.entries[i].id;
                proof {
                    lemma_place_of(self@, i as int);
                }
                if !matches!(self.entries[i].state, PlaybackState::Playing) {
                    proof {
                        assert(self@.drain().entries =~= self@.entries);
                    }
                    return SinkAction::Nothing;
                }
                let entry = self.entries[i].ended(PlaybackState::Finished, None);
                proof {
                    let before = self@;
                    assert(before.entries[i as int].state.holds_sink());
                    assert forall|j: int| 0 <= j < before.entries.len() && j != i implies !(
                    #[trigger] before.entries[j]).state.holds_sink() by {}
                    assert(before.entries.update(i as int, entry@) =~= before.drain().entries);
                }
                self.put(i, entry);
                SinkAction::Release(id)
            },
        }
    }

    /// The output device of the active entry has failed: the entry has
    /// failed with `reason` and its sink is to be released.
    pub fn sink_failed(&mut self, reason: PlaybackError) -> (r: SinkAction)
        ensures
            final(self).wf(),
            final(self)@ == old(self)@.fail_active(reason),
            r == ManagerView::release_reply(old(self)@.active()),
    {
        proof {
            use_type_invariant(&*self);
            lemma_fail_active_wf(self@, reason);
        }
        match self.active_place() {
            None => {
                proof {
                    assert(self@.fail_active(reason).entries =~= self@.entries);
                }
                SinkAction::Nothing
            },
            Some(i) => {
                let id = self.entries[i].id;
                let entry = self.entries[i].ended(PlaybackState::Failed, Some(reason));
                proof {
                    let before = self@;
                    assert(before.entries[i as int].state.holds_sink());
                    assert forall|j: int| 0 <= j < before.entries.len() && j != i implies !(
                    #[trigger] before.entries[j]).state.holds_sink() by {}
                    assert(before.entries.update(i as int, entry@) =~= before.fail_active(
                        reason,
                    ).entries);
                }
                self.put(i, entry);
                SinkAction::Release(id)
            },
        }
    }

    /// Applies one command and says what the driver has to do.
    pub fn handle_command(&mut self, command: PlaybackCommand) -> (r: Result<
        CommandReply,
        PlaybackError,
    >)
        ensures
            final(self).wf(),
            final(self)@ == old(self)@.step(command@),
            r == old(self)@.reply(command@),
    {
        match command {
            PlaybackCommand::Play(audio_data) => match self.play_audio(audio_data) {
                Ok(id) => Ok(CommandReply::Accepted(id)),
                Err(e) => Err(e),
            },
            PlaybackCommand::Stop(id) => match self.stop_audio(id) {
                Ok(action) => Ok(CommandReply::Done(action)),
                Err(e) => Err(e),
            },
            PlaybackCommand::Pause(id) => match self.pause_audio(id) {
                Ok(action) => Ok(CommandReply::Done(action)),
                Err(e) => Err(e),
            },
            PlaybackCommand::Resume(id) => match self.resume_audio(id) {
                Ok(action) => Ok(CommandReply::Done(action)),
                Err(e) => Err(e),
            },
        }
    }

    /// Stops every playback that has not ended, as a shutdown asks. The
    /// reply names the one sink that was held, if any.
    pub fn stop_all(&mut self) -> (r: SinkAction)
        ensures
            final(self).wf(),
            final(self)@ == old(self)@.stop_all(),
            r == ManagerView::release_reply(old(self)@.active()),
    {
        let ghost before = self@;
        proof {
            use_type_invariant(&*self);
            lemma_stop_all_wf(before);
        }
        let action = match self.active() {
            Some(id) => SinkAction::Release(id),
            None => SinkAction::Nothing,
        };
        let mut entries: Vec<PlaybackEntry> = Vec::new();
        std::mem::swap(&mut entries, &mut self.entries);
        let mut i: usize = 0;
        while i < entries.len()
            invariant
                i <= entries.len(),
                entries.len() == before.entries.len(),
                forall|k: int| 0 <= k < i ==> #[trigger] views(entries@)[k] == before.entries[k].stop(),
                forall|k: int|
                    i <= k < before.entries.len() ==> #[trigger] views(entries@)[k]
                        == before.entries[k],
            decreases entries.len() - i,
        {
            let ghost current = views(entries@);
            assert(current[i as int] == before.entries[i as int]);
            if !entries[i].state.terminal() {
                let entry = entries[i].ended(PlaybackState::Stopped, None);
                entries.set(i, entry);
            }
            proof {
                assert(views(entries@)[i as int] == before.entries[i as int].stop());
                assert forall|k: int| 0 <= k < before.entries.len() && k != i implies (
                #[trigger] views(entries@)[k]) == current[k] by {}
            }
            i = i + 1;
        }
        proof {
            assert(views(entries@) =~= before.stop_all().entries);
        }
        self.entries = entries;
        action
    }

    /// Ends a tick. Entries that ended before this tick began are purged,
    /// so that a handle can be observed for one whole tick after its
    /// playback has ended; every other entry stays.
    pub fn end_tick(&mut self)
        ensures
            final(self).wf(),
            final(self)@ == old(self)@.end_tick(),
    {
        let ghost before = self@;
        let ghost survives = |e: EntryView| e.survives_tick();
        let ghost aged = |e: EntryView| e.aged();
        let ghost mut done: int = 0;
        proof {
            use_type_invariant(&*self);
            lemma_end_tick_wf(before);
        }
        let mut entries: Vec<PlaybackEntry> = Vec::new();
        std::mem::swap(&mut entries, &mut self.entries);
        let mut i: usize = 0;
        proof {
            reveal(Seq::filter);
            assert(before.entries.take(0).filter(survives).map_values(aged) =~= views(
                entries@,
            ).take(0));
            assert(views(entries@).skip(0) =~= before.entries.skip(0));
        }
        while i < entries.len()
            invariant
                survives == (|e: EntryView| e.survives_tick()),
                aged == (|e: EntryView| e.aged()),
                i <= entries.len(),
                i <= done <= before.entries.len(),
                entries.len() - i == before.entries.len() - done,
                views(entries@).take(i as int) == before.entries.take(done).filter(
                    survives,
                ).map_values(aged),
                views(entries@).skip(i as int) == before.entries.skip(done),
            decreases entries.len() - i,
        {
            let ghost current = views(entries@);
            proof {
                assert(current[i as int] == current.skip(i as int)[0]);
                assert(before.entries[done] == before.entries.skip(done)[0]);
                assert(before.entries.take(done + 1) =~= before.entries.take(done).push(
                    before.entries[done],
                ));
                before.entries.take(done).lemma_filter_push(before.entries[done], survives);
            }
            if entries[i].state.terminal() && !entries[i].fresh {
                entries.remove(i);
                proof {
                    assert(views(entries@).take(i as int) =~= current.take(i as int));
                    assert forall|k: int| 0 <= k < entries.len() - i implies (#[trigger] views(
                        entries@,
                    ).skip(i as int)[k]) == before.entries.skip(done + 1)[k] by {
                        assert(current.skip(i as int)[k + 1] == before.entries.skip(done)[k + 1]);
                    }
                    assert(views(entries@).skip(i as int) =~= before.entries.skip(done + 1));
                    done = done + 1;
                }
            } else {
                entries[i].fresh = false;
                proof {
                    assert(views(entries@).take(i + 1) =~= current.take(i as int).push(
                        before.entries[done].aged(),
                    ));
                    assert forall|k: int| 0 <= k < entries.len() - i - 1 implies (#[trigger] views(
                        entries@,
                    ).skip(i + 1)[k]) == before.entries.skip(done + 1)[k] by {
                        assert(current.skip(i as int)[k + 1] == before.entries.skip(done)[k + 1]);
                    }
                    assert(views(entries@).skip(i + 1) =~= before.entries.skip(done + 1));
                    done = done + 1;
                }
                i = i + 1;
            }
        }
        proof {
            assert(views(entries@).take(i as int) =~= views(entries@));
            assert(before.entries.take(done) =~= before.entries);
        }
        self.entries = entries;
    }

    /// The entry of the playback `id`, as long as the manager holds it.
    pub fn entry(&self, id: SinkId) -> (r: Option<&PlaybackEntry>)
        ensures
            self.wf(),
            match r {
                Some(entry) => self@.has(id) && entry@ == self@.entry(id),
                None => !self@.has(id),
            },
    {
        match self.find(id) {
            Some(i) => Some(&self.entries[i]),
            None => None,
        }
    }

    /// The state of the playback `id`, as long as the manager holds its entry.
    pub fn state_of(&self, id: SinkId) -> (r: Option<PlaybackState>)
        ensures
            self.wf(),
            r == self@.state_of(id),
    {
        match self.find(id) {
            Some(i) => Some(self.entries[i].state),
            None => None,
        }
    }

    /// Why the playback `id` failed, if the manager holds it as failed.
    pub fn failure_of(&self, id: SinkId) -> (r: Option<PlaybackError>)
        ensures
            self.wf(),
            r == if self@.has(id) {
                self@.entry(id).failure
            } else {
                None
            },
    {
        match self.find(id) {
            Some(i) => self.entries[i].failure,
            None => None,
        }
    }

    /// The playback that holds the output device.
    pub fn active(&self) -> (r: Option<SinkId>)
        ensures
            self.wf(),
            r == self@.active(),
    {
        match self.active_place() {
            Some(i) => Some(self.entries[i].id),
            None => None,
        }
    }

    /// No playback holds the output device.
    pub fn is_idle(&self) -> (r: bool)
        ensures
            self.wf(),
            r == self@.active().is_none(),
    {
        self.active_place().is_none()
    }

    /// The number of waiting playbacks that the manager admits.
    pub fn capacity(&self) -> (r: usize)
        ensures
            r == self@.capacity,
    {
        self.capacity
    }

    /// The handle that the next accepted playback gets.
    pub fn next_id(&self) -> (r: SinkId)
        ensures
            r == self@.next_id,
    {
        self.next_id
    }
}

} // verus!
