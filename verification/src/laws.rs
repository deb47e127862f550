//! What holds of the playback manager in every state it can reach.

use crate::command::SinkId;
use crate::error::PlaybackError;
use crate::model::{EntryView, Event, ManagerView, SinkAction, StartOutcome};
use crate::preserve::{
    lemma_active_at, lemma_complete_start_wf, lemma_drain_wf, lemma_end_tick_wf,
    lemma_fail_active_wf, lemma_filter_places, lemma_head_at, lemma_init_wf, lemma_pause_wf,
    lemma_place_of, lemma_play_wf, lemma_promotable_place, lemma_resume_wf, lemma_stop_all_wf,
    lemma_stop_wf,
};
use crate::state::PlaybackState;
use vstd::prelude::*;

verus! {

// ---- the invariant holds in every reachable state ----------------------

/// Every event leads from a well-formed state to a well-formed state.
pub proof fn lemma_step_keeps_wf(m: ManagerView, event: Event)
    requires
        m.wf(),
    ensures
        m.step(event).wf(),
{
    match event {
        Event::Play(audio) => lemma_play_wf(m, audio),
        Event::Stop(id) => lemma_stop_wf(m, id),
        Event::Pause(id) => lemma_pause_wf(m, id),
        Event::Resume(id) => lemma_resume_wf(m, id),
        Event::Started(id, outcome) => lemma_complete_start_wf(m, id, outcome),
        Event::Drained => lemma_drain_wf(m),
        Event::DeviceLost(reason) => lemma_fail_active_wf(m, reason),
        Event::Tick => lemma_end_tick_wf(m),
        Event::Shutdown => lemma_stop_all_wf(m),
    }
}

/// Every sequence of events leads from a well-formed state to a
/// well-formed state.
pub proof fn lemma_run_keeps_wf(m: ManagerView, events: Seq<Event>)
    requires
        m.wf(),
    ensures
        m.run(events).wf(),
    decreases events.len(),
{
    if events.len() > 0 {
        lemma_run_keeps_wf(m, events.drop_last());
        lemma_step_keeps_wf(m.run(events.drop_last()), events.last());
    }
}

/// In a well-formed state at most one entry is playing, and at most one
/// holds a sink at all.
pub proof fn lemma_at_most_one_playing(m: ManagerView, i: int, j: int)
    requires
        m.wf(),
        0 <= i < m.entries.len(),
        0 <= j < m.entries.len(),
        m.entries[i].state.holds_sink(),
        m.entries[j].state.holds_sink(),
    ensures
        i == j,
{
}

/// Whatever happens to a fresh manager, at most one of its entries is
/// playing.
pub proof fn lemma_one_playing_in_every_reachable_state(
    capacity: usize,
    events: Seq<Event>,
    i: int,
    j: int,
)
    requires
        0 <= i < ManagerView::init(capacity).run(events).entries.len(),
        0 <= j < ManagerView::init(capacity).run(events).entries.len(),
        ManagerView::init(capacity).run(events).entries[i].state is Playing,
        ManagerView::init(capacity).run(events).entries[j].state is Playing,
    ensures
        i == j,
{
    lemma_init_wf(capacity);
    lemma_run_keeps_wf(ManagerView::init(capacity), events);
}

// ---- what an event does to one handle ----------------------------------

/// Two well-formed states that hold the same handles at the same places
/// resolve every handle alike.
pub proof fn lemma_same_places(m: ManagerView, n: ManagerView, id: SinkId)
    requires
        m.wf(),
        n.wf(),
        m.entries.len() == n.entries.len(),
        forall|i: int| 0 <= i < m.entries.len() ==> (#[trigger] n.entries[i]).id == m.entries[i].id,
    ensures
        n.has(id) == m.has(id),
        m.has(id) ==> n.index_of(id) == m.index_of(id),
{
    if m.has(id) {
        let i = m.index_of(id);
        assert(n.entries[i].id == id);
        lemma_place_of(n, i);
    }
    if n.has(id) {
        let i = n.index_of(id);
        assert(m.entries[i].id == id);
        lemma_place_of(m, i);
    }
}

/// A stop command ends the playback it names and touches no other.
pub proof fn lemma_stop_entry(m: ManagerView, id: SinkId, other: SinkId)
    requires
        m.wf(),
    ensures
        m.stop(id).has(other) == m.has(other),
        m.has(other) ==> m.stop(id).entry(other) == if other == id {
            m.entry(other).stop()
        } else {
            m.entry(other)
        },
{
    lemma_stop_wf(m, id);
    lemma_same_places(m, m.stop(id), other);
}

/// A pause command pauses the playback it names and touches no other.
pub proof fn lemma_pause_entry(m: ManagerView, id: SinkId, other: SinkId)
    requires
        m.wf(),
    ensures
        m.pause(id).has(other) == m.has(other),
        m.has(other) ==> m.pause(id).entry(other) == if other == id {
            m.entry(other).pause()
        } else {
            m.entry(other)
        },
{
    lemma_pause_wf(m, id);
    lemma_same_places(m, m.pause(id), other);
}

/// A resume command resumes the playback it names and touches no other.
pub proof fn lemma_resume_entry(m: ManagerView, id: SinkId, other: SinkId)
    requires
        m.wf(),
    ensures
        m.resume(id).has(other) == m.has(other),
        m.has(other) ==> m.resume(id).entry(other) == if other == id {
            m.entry(other).resume()
        } else {
            m.entry(other)
        },
{
    lemma_resume_wf(m, id);
    lemma_same_places(m, m.resume(id), other);
}

/// An accepted play command adds the entry of its handle and touches no
/// other.
pub proof fn lemma_play_entry(m: ManagerView, audio: Seq<u8>, other: SinkId)
    requires
        m.wf(),
        m.play_reply() is Ok,
    ensures
        !m.has(m.next_id),
        m.play(audio).has(other) == (m.has(other) || other == m.next_id),
        m.play(audio).has(other) ==> m.play(audio).entry(other) == if other == m.next_id {
            EntryView::accepted(m.next_id, audio)
        } else {
            m.entry(other)
        },
{
    let n = m.play(audio);
    lemma_play_wf(m, audio);
    let last = m.entries.len() as int;
    assert(n.entries[last].id == m.next_id);
    lemma_place_of(n, last);
    if m.has(other) {
        let i = m.index_of(other);
        assert(n.entries[i] == m.entries[i]);
        lemma_place_of(n, i);
    }
    if n.has(other) && other != m.next_id {
        let i = n.index_of(other);
        assert(i < last);
        assert(m.entries[i] == n.entries[i]);
        lemma_place_of(m, i);
    }
}

/// The outcome of building a sink changes the promotable playback and
/// touches no other.
pub proof fn lemma_complete_start_entry(
    m: ManagerView,
    id: SinkId,
    outcome: StartOutcome,
    other: SinkId,
)
    requires
        m.wf(),
    ensures
        m.complete_start(id, outcome).has(other) == m.has(other),
        m.has(other) ==> m.complete_start(id, outcome).entry(other) == if other == id
            && m.promotable() == Some(id) {
            match outcome {
                Ok(_) => m.entry(other).promote(),
                Err(reason) => m.entry(other).ended(PlaybackState::Failed, Some(reason)),
            }
        } else {
            m.entry(other)
        },
{
    lemma_complete_start_wf(m, id, outcome);
    if m.promotable() == Some(id) {
        lemma_same_places(m, m.complete_start(id, outcome), other);
    }
}

/// A drained sink ends the playing entry and touches no other.
pub proof fn lemma_drain_entry(m: ManagerView, other: SinkId)
    requires
        m.wf(),
    ensures
        m.drain().has(other) == m.has(other),
        m.has(other) ==> m.drain().entry(other) == if m.entry(other).state is Playing {
            m.entry(other).ended(PlaybackState::Finished, None)
        } else {
            m.entry(other)
        },
{
    lemma_drain_wf(m);
    lemma_same_places(m, m.drain(), other);
}

/// A lost device fails the active entry and touches no other.
pub proof fn lemma_fail_active_entry(m: ManagerView, reason: PlaybackError, other: SinkId)
    requires
        m.wf(),
    ensures
        m.fail_active(reason).has(other) == m.has(other),
        m.has(other) ==> m.fail_active(reason).entry(other) == if m.entry(
            other,
        ).state.holds_sink() {
            m.entry(other).ended(PlaybackState::Failed, Some(reason))
        } else {
            m.entry(other)
        },
{
    lemma_fail_active_wf(m, reason);
    lemma_same_places(m, m.fail_active(reason), other);
}

/// Shutdown stops every playback that has not ended.
pub proof fn lemma_stop_all_entry(m: ManagerView, other: SinkId)
    requires
        m.wf(),
    ensures
        m.stop_all().has(other) == m.has(other),
        m.has(other) ==> m.stop_all().entry(other) == m.entry(other).stop(),
{
    lemma_stop_all_wf(m);
    lemma_same_places(m, m.stop_all(), other);
}

/// The end of a tick purges the entries that began the tick ended, and
/// leaves every other entry as it was but for its age.
pub proof fn lemma_end_tick_entry(m: ManagerView, other: SinkId)
    requires
        m.wf(),
    ensures
        m.end_tick().has(other) == (m.has(other) && m.entry(other).survives_tick()),
        m.end_tick().has(other) ==> m.end_tick().entry(other) == m.entry(other).aged(),
{
    let n = m.end_tick();
    lemma_end_tick_wf(m);
    let keep = |e: EntryView| e.survives_tick();
    let places = lemma_filter_places(m.entries, keep);
    if n.has(other) {
        let a = n.index_of(other);
        m.entries.lemma_filter_pred(keep, a);
        assert(n.entries[a] == m.entries[places[a]].aged());
        lemma_place_of(m, places[a]);
    }
    if m.has(other) && m.entry(other).survives_tick() {
        let i = m.index_of(other);
        let a = choose|a: int| 0 <= a < places.len() && #[trigger] places[a] == i;
        assert(n.entries[a] == m.entries[places[a]].aged());
        lemma_place_of(n, a);
    }
}

// ---- handles -------------------------------------------------------------

/// No event lowers the next handle, and no event brings back a handle
/// below it that the manager does not hold.
pub proof fn lemma_step_handles(m: ManagerView, event: Event, id: SinkId)
    requires
        m.wf(),
    ensures
        m.step(event).next_id >= m.next_id,
        m.step(event).has(id) ==> m.has(id) || m.next_id <= id,
{
    match event {
        Event::Play(audio) => {
            if m.play_reply() is Ok {
                lemma_play_entry(m, audio, id);
            }
        },
        Event::Stop(x) => lemma_stop_entry(m, x, id),
        Event::Pause(x) => lemma_pause_entry(m, x, id),
        Event::Resume(x) => lemma_resume_entry(m, x, id),
        Event::Started(x, outcome) => lemma_complete_start_entry(m, x, outcome, id),
        Event::Drained => lemma_drain_entry(m, id),
        Event::DeviceLost(reason) => lemma_fail_active_entry(m, reason, id),
        Event::Tick => lemma_end_tick_entry(m, id),
        Event::Shutdown => lemma_stop_all_entry(m, id),
    }
}

/// Handles are never reused: whatever happens, the next handle does not
/// fall, and a handle below it that the manager no longer holds stays
/// unknown.
pub proof fn lemma_handles_are_never_reused(m: ManagerView, events: Seq<Event>, id: SinkId)
    requires
        m.wf(),
    ensures
        m.run(events).next_id >= m.next_id,
        id < m.next_id && !m.has(id) ==> !m.run(events).has(id),
    decreases events.len(),
{
    if events.len() > 0 {
        let before = m.run(events.drop_last());
        lemma_handles_are_never_reused(m, events.drop_last(), id);
        lemma_run_keeps_wf(m, events.drop_last());
        lemma_step_handles(before, events.last(), id);
    }
}

/// Handles are strictly increasing: of two accepted play commands the
/// later one gets the greater handle, whatever happened in between.
pub proof fn lemma_handles_increase(
    m: ManagerView,
    first: Seq<u8>,
    between: Seq<Event>,
    second: Seq<u8>,
)
    requires
        m.wf(),
        m.play_reply() is Ok,
        m.play(first).run(between).play_reply() is Ok,
    ensures
        m.play_reply()->Ok_0 < m.play(first).run(between).play_reply()->Ok_0,
        !m.has(m.play_reply()->Ok_0),
{
    lemma_play_wf(m, first);
    lemma_play_entry(m, first, m.next_id);
    lemma_handles_are_never_reused(m.play(first), between, 0);
}

// ---- commands ------------------------------------------------------------

/// A play command that meets a saturated queue is refused with
/// `QueueFull` and changes nothing.
pub proof fn lemma_saturated_play_changes_nothing(m: ManagerView, audio: Seq<u8>)
    requires
        m.saturated(),
    ensures
        m.play_reply() == Err::<SinkId, PlaybackError>(PlaybackError::QueueFull),
        m.play(audio) == m,
{
}

/// A play command with an empty buffer is finished at once: its entry
/// never waits, never holds a sink, and leaves the other entries alone.
pub proof fn lemma_empty_buffer_finishes_at_once(m: ManagerView)
    requires
        m.wf(),
        m.play_reply() is Ok,
    ensures
        m.play(Seq::empty()).state_of(m.next_id) == Some(PlaybackState::Finished),
        !m.play(Seq::empty()).entry(m.next_id).started,
        m.play(Seq::empty()).promotable() == m.promotable(),
        m.play(Seq::empty()).active() == m.active(),
{
    let n = m.play(Seq::empty());
    lemma_play_wf(m, Seq::empty());
    lemma_play_entry(m, Seq::empty(), m.next_id);
    lemma_silent_entry_changes_no_turn(m);
}

/// Two well-formed states whose entries hold sinks at the same places
/// under the same handles have the same active playback.
pub proof fn lemma_same_active(m: ManagerView, n: ManagerView)
    requires
        m.wf(),
        n.wf(),
        forall|j: int|
            0 <= j < m.entries.len() && (#[trigger] m.entries[j]).state.holds_sink() ==> j
                < n.entries.len() && n.entries[j].state.holds_sink() && n.entries[j].id
                == m.entries[j].id,
        forall|j: int|
            0 <= j < n.entries.len() && (#[trigger] n.entries[j]).state.holds_sink() ==> j
                < m.entries.len() && m.entries[j].state.holds_sink(),
    ensures
        n.has_active() == m.has_active(),
        n.active() == m.active(),
{
    if m.has_active() {
        let i = choose|i: int|
            0 <= i < m.entries.len() && (#[trigger] m.entries[i]).state.holds_sink();
        lemma_active_at(m, i);
        lemma_active_at(n, i);
    }
    if n.has_active() {
        let i = choose|i: int|
            0 <= i < n.entries.len() && (#[trigger] n.entries[i]).state.holds_sink();
        assert(m.entries[i].state.holds_sink());
    }
}

/// Two states whose oldest waiting entries stand at the same place under
/// the same handle have the same oldest waiting playback.
pub proof fn lemma_same_head(m: ManagerView, n: ManagerView)
    requires
        forall|k: int| m.is_head(k) ==> n.is_head(k) && n.entries[k].id == m.entries[k].id,
        forall|k: int| n.is_head(k) ==> m.is_head(k),
    ensures
        n.head() == m.head(),
{
    if m.has_head() {
        let k = choose|k: int| m.is_head(k);
        assert(n.is_head(k));
        lemma_head_at(n, k);
    }
    if n.has_head() {
        let k = choose|k: int| n.is_head(k);
        assert(m.is_head(k));
    }
}

/// An accepted entry that neither waits nor holds a sink leaves the
/// active and the oldest waiting playback as they were.
pub proof fn lemma_silent_entry_changes_no_turn(m: ManagerView)
    requires
        m.wf(),
        m.play_reply() is Ok,
    ensures
        m.play(Seq::empty()).active() == m.active(),
        m.play(Seq::empty()).head() == m.head(),
        m.play(Seq::empty()).promotable() == m.promotable(),
{
    let n = m.play(Seq::empty());
    lemma_play_wf(m, Seq::empty());
    assert forall|i: int| 0 <= i < m.entries.len() implies #[trigger] n.entries[i]
        == m.entries[i] by {}
    assert forall|j: int|
        0 <= j < n.entries.len() && (#[trigger] n.entries[j]).state.holds_sink() implies j
        < m.entries.len() && m.entries[j].state.holds_sink() by {
        if j < m.entries.len() {
            assert(n.entries[j] == m.entries[j]);
        }
    }
    lemma_same_active(m, n);
    assert forall|k: int| m.is_head(k) implies n.is_head(k) && n.entries[k].id
        == m.entries[k].id by {
        assert(n.entries[k] == m.entries[k]);
        assert forall|j: int| 0 <= j < k implies !((#[trigger] n.entries[j]).state is Queued) by {
            assert(n.entries[j] == m.entries[j]);
        }
    }
    assert forall|k: int| n.is_head(k) implies m.is_head(k) by {
        assert(k < m.entries.len());
        assert(n.entries[k] == m.entries[k]);
        assert forall|j: int| 0 <= j < k implies !((#[trigger] m.entries[j]).state is Queued) by {
            assert(n.entries[j] == m.entries[j]);
        }
    }
    lemma_same_head(m, n);
}

/// A stop command is accepted for every playback that has not ended, and
/// ends it at once.
pub proof fn lemma_stop_ends_a_live_playback(m: ManagerView, id: SinkId)
    requires
        m.wf(),
        m.live(id),
    ensures
        m.stop_reply(id) is Ok,
        m.stop(id).state_of(id) == Some(PlaybackState::Stopped),
        !m.stop(id).live(id),
{
    lemma_stop_entry(m, id, id);
}

/// A stop command for the playback that holds the output device has its
/// sink released, and leaves a state in which no entry holds a sink.
pub proof fn lemma_stop_releases_the_device(m: ManagerView, id: SinkId)
    requires
        m.wf(),
        m.active() == Some(id),
    ensures
        m.stop_reply(id) == Ok::<SinkAction, PlaybackError>(SinkAction::Release(id)),
        m.stop(id).active() is None,
        forall|i: int|
            0 <= i < m.stop(id).entries.len() ==> !(#[trigger] m.stop(
                id,
            ).entries[i]).state.holds_sink(),
{
    let i = choose|i: int| 0 <= i < m.entries.len() && (#[trigger] m.entries[i]).state.holds_sink();
    lemma_place_of(m, i);
    let n = m.stop(id);
    assert forall|j: int| 0 <= j < n.entries.len() implies !(
    #[trigger] n.entries[j]).state.holds_sink() by {
        if m.entries[j].state.holds_sink() {
            assert(j == i);
        }
    }
}

/// A stop command for a waiting playback ends it without any sink: the
/// driver is told to do nothing, and the entry never held a sink.
pub proof fn lemma_stop_of_a_waiting_playback(m: ManagerView, id: SinkId)
    requires
        m.wf(),
        m.state_of(id) == Some(PlaybackState::Queued),
    ensures
        m.stop_reply(id) == Ok::<SinkAction, PlaybackError>(SinkAction::Nothing),
        m.stop(id).state_of(id) == Some(PlaybackState::Stopped),
        !m.stop(id).entry(id).started,
        m.stop(id).active() == m.active(),
{
    lemma_stop_entry(m, id, id);
    let i = m.index_of(id);
    assert(m.entries[i].wf());
    let n = m.stop(id);
    lemma_stop_wf(m, id);
    assert forall|j: int| 0 <= j < m.entries.len() implies (
    #[trigger] n.entries[j]).state.holds_sink() == m.entries[j].state.holds_sink() && n.entries[j].id
        == m.entries[j].id by {
        if m.entries[j].id == id {
            lemma_place_of(m, j);
        }
    }
    lemma_same_active(m, n);
}

/// A second stop command on the same handle is refused as unknown and
/// changes nothing.
pub proof fn lemma_stop_twice(m: ManagerView, id: SinkId)
    requires
        m.wf(),
    ensures
        m.stop(id).stop_reply(id) == Err::<SinkAction, PlaybackError>(
            PlaybackError::UnknownHandle,
        ),
        m.stop(id).stop(id) == m.stop(id),
{
    lemma_stop_entry(m, id, id);
    assert(m.stop(id).stop(id).entries =~= m.stop(id).entries);
}

/// A second pause command on the same handle changes nothing and asks
/// nothing of the driver.
pub proof fn lemma_pause_twice(m: ManagerView, id: SinkId)
    requires
        m.wf(),
    ensures
        m.pause(id).pause(id) == m.pause(id),
        m.pause(id).pause_reply(id) is Ok ==> m.pause(id).pause_reply(id) == Ok::<
            SinkAction,
            PlaybackError,
        >(SinkAction::Nothing),
{
    lemma_pause_entry(m, id, id);
    assert(m.pause(id).pause(id).entries =~= m.pause(id).entries);
}

/// Pause and then resume give a playing entry back as it was: the same
/// sink goes on, nothing is decoded again.
pub proof fn lemma_pause_then_resume(m: ManagerView, id: SinkId)
    requires
        m.wf(),
        m.state_of(id) == Some(PlaybackState::Playing),
    ensures
        m.pause_reply(id) == Ok::<SinkAction, PlaybackError>(SinkAction::Pause(id)),
        m.pause(id).state_of(id) == Some(PlaybackState::Paused),
        m.pause(id).resume_reply(id) == Ok::<SinkAction, PlaybackError>(SinkAction::Resume(id)),
        m.pause(id).resume(id) == m,
{
    lemma_pause_entry(m, id, id);
    assert(m.pause(id).resume(id).entries =~= m.entries);
}

/// A pause command for a waiting playback is kept for later: the entry
/// goes on waiting, and is paused from the moment its sink is built.
pub proof fn lemma_pause_of_a_waiting_playback(m: ManagerView, id: SinkId)
    requires
        m.wf(),
        m.state_of(id) == Some(PlaybackState::Queued),
    ensures
        m.pause_reply(id) == Ok::<SinkAction, PlaybackError>(SinkAction::Nothing),
        m.pause(id).state_of(id) == Some(PlaybackState::Queued),
        m.pause(id).entry(id).deferred_pause,
        m.pause(id).entry(id).promote().state == PlaybackState::Paused,
{
    lemma_pause_entry(m, id, id);
}

// ---- promotion -----------------------------------------------------------

/// The playback whose sink is built is the oldest waiting one, and it is
/// built only while no entry holds a sink.
pub proof fn lemma_promotion_takes_the_oldest(m: ManagerView, id: SinkId, i: int)
    requires
        m.wf(),
        m.promotable() == Some(id),
        0 <= i < m.entries.len(),
    ensures
        m.state_of(id) == Some(PlaybackState::Queued),
        !m.entries[i].state.holds_sink(),
        m.entries[i].state is Queued ==> id <= m.entries[i].id,
{
    let k = lemma_promotable_place(m, id);
    if i < k {
        assert(!(m.entries[i].state is Queued));
    } else if k < i {
        assert(m.entries[k].id < m.entries[i].id);
    }
}

/// Entries get their sinks in the order of their handles: where a later
/// entry has held a sink, no earlier one still waits.
pub proof fn lemma_started_in_order(m: ManagerView, earlier: SinkId, later: SinkId)
    requires
        m.wf(),
        m.has(earlier),
        m.has(later),
        earlier < later,
        m.entry(later).started,
    ensures
        m.state_of(earlier) != Some(PlaybackState::Queued),
{
    let i = m.index_of(earlier);
    let j = m.index_of(later);
    if j <= i {
        if j < i {
            assert(m.entries[j].id < m.entries[i].id);
        }
    }
}

/// A sink that was built makes its playback the active one: playing, or
/// paused where a pause was waiting for it.
pub proof fn lemma_built_sink_is_active(m: ManagerView, id: SinkId)
    requires
        m.wf(),
        m.promotable() == Some(id),
    ensures
        m.complete_start(id, Ok(())).active() == Some(id),
        m.complete_start(id, Ok(())).state_of(id) == Some(
            if m.entry(id).deferred_pause {
                PlaybackState::Paused
            } else {
                PlaybackState::Playing
            },
        ),
        m.start_reply(id, Ok(())) == SinkAction::Nothing,
{
    let k = lemma_promotable_place(m, id);
    let n = m.complete_start(id, Ok(()));
    lemma_complete_start_wf(m, id, Ok(()));
    lemma_complete_start_entry(m, id, Ok(()), id);
    assert(n.entries[k].state.holds_sink());
    lemma_active_at(n, k);
}

/// A sink that could not be built fails its playback alone: the manager
/// goes on, no entry holds a sink, and the next waiting playback can be
/// started in the same tick.
pub proof fn lemma_failed_start_fails_the_entry_alone(
    m: ManagerView,
    id: SinkId,
    reason: PlaybackError,
)
    requires
        m.wf(),
        m.promotable() == Some(id),
    ensures
        m.complete_start(id, Err(reason)).state_of(id) == Some(PlaybackState::Failed),
        m.complete_start(id, Err(reason)).entry(id).failure == Some(reason),
        m.complete_start(id, Err(reason)).active() is None,
        m.complete_start(id, Err(reason)).promotable() == m.complete_start(
            id,
            Err(reason),
        ).head(),
        m.start_reply(id, Err(reason)) == SinkAction::Nothing,
{
    let k = lemma_promotable_place(m, id);
    let n = m.complete_start(id, Err(reason));
    lemma_complete_start_entry(m, id, Err(reason), id);
    assert forall|j: int| 0 <= j < n.entries.len() implies !(
    #[trigger] n.entries[j]).state.holds_sink() by {
        assert(!m.entries[j].state.holds_sink());
    }
}

/// The sink of the playing entry ran empty: the entry is finished and its
/// sink is released.
pub proof fn lemma_drained_sink_finishes(m: ManagerView, id: SinkId)
    requires
        m.wf(),
        m.state_of(id) == Some(PlaybackState::Playing),
    ensures
        m.playing() == Some(id),
        ManagerView::release_reply(m.playing()) == SinkAction::Release(id),
        m.drain().state_of(id) == Some(PlaybackState::Finished),
{
    lemma_active_at(m, m.index_of(id));
    lemma_drain_entry(m, id);
}

/// After shutdown no playback is left that has not ended, and the one
/// sink that was held is released.
pub proof fn lemma_shutdown_ends_every_playback(m: ManagerView, id: SinkId)
    requires
        m.wf(),
    ensures
        !m.stop_all().live(id),
        m.stop_all().active() is None,
        m.stop_all().promotable() is None,
        m.live(id) ==> m.stop_all().state_of(id) == Some(PlaybackState::Stopped),
{
    lemma_stop_all_entry(m, id);
    let n = m.stop_all();
    assert forall|i: int| 0 <= i < n.entries.len() implies (
    #[trigger] n.entries[i]).state.is_terminal() by {}
    if n.has_head() {
        let k = choose|k: int| n.is_head(k);
        assert(n.entries[k].state.is_terminal());
    }
}

// ---- ended playbacks -----------------------------------------------------

/// A terminal state is never left: an entry that has ended keeps its
/// state for as long as the manager holds it.
pub proof fn lemma_terminal_is_final(m: ManagerView, event: Event, id: SinkId)
    requires
        m.wf(),
        m.has(id),
        m.entry(id).state.is_terminal(),
    ensures
        m.step(event).has(id) ==> m.step(event).entry(id).state == m.entry(id).state,
{
    assert(m.entries[m.index_of(id)].wf());
    match event {
        Event::Play(audio) => {
            if m.play_reply() is Ok {
                lemma_play_entry(m, audio, id);
            }
        },
        Event::Stop(x) => lemma_stop_entry(m, x, id),
        Event::Pause(x) => lemma_pause_entry(m, x, id),
        Event::Resume(x) => lemma_resume_entry(m, x, id),
        Event::Started(x, outcome) => {
            lemma_complete_start_entry(m, x, outcome, id);
            if m.promotable() == Some(x) {
                lemma_promotable_place(m, x);
            }
        },
        Event::Drained => lemma_drain_entry(m, id),
        Event::DeviceLost(reason) => lemma_fail_active_entry(m, reason, id),
        Event::Tick => lemma_end_tick_entry(m, id),
        Event::Shutdown => lemma_stop_all_entry(m, id),
    }
}

/// Every command on a handle whose playback has ended, or that the
/// manager does not hold, is refused as unknown and changes nothing.
pub proof fn lemma_retired_handle_is_unknown(m: ManagerView, id: SinkId)
    requires
        m.wf(),
        !m.live(id),
    ensures
        m.stop_reply(id) == Err::<SinkAction, PlaybackError>(PlaybackError::UnknownHandle),
        m.pause_reply(id) == Err::<SinkAction, PlaybackError>(PlaybackError::UnknownHandle),
        m.resume_reply(id) == Err::<SinkAction, PlaybackError>(PlaybackError::UnknownHandle),
        m.stop(id) == m,
        m.pause(id) == m,
        m.resume(id) == m,
{
    assert forall|i: int| 0 <= i < m.entries.len() && (#[trigger] m.entries[i]).id
        == id implies m.entries[i].state.is_terminal() by {
        lemma_place_of(m, i);
    }
    assert(m.stop(id).entries =~= m.entries);
    assert(m.pause(id).entries =~= m.entries);
    assert(m.resume(id).entries =~= m.entries);
}

/// An entry that ends during a tick can be observed until the end of the
/// next tick, and is purged then.
pub proof fn lemma_ended_entry_lingers_one_tick(m: ManagerView, id: SinkId)
    requires
        m.wf(),
        m.has(id),
        m.entry(id).state.is_terminal(),
        m.entry(id).fresh,
    ensures
        m.end_tick().state_of(id) == m.state_of(id),
        m.end_tick().end_tick().state_of(id) is None,
{
    lemma_end_tick_entry(m, id);
    lemma_end_tick_wf(m);
    lemma_end_tick_entry(m.end_tick(), id);
}

/// The end of a tick leaves every playback that has not ended as it was.
pub proof fn lemma_tick_keeps_live_entries(m: ManagerView, id: SinkId)
    requires
        m.wf(),
        m.live(id),
    ensures
        m.end_tick().has(id),
        m.end_tick().entry(id) == m.entry(id),
{
    lemma_end_tick_entry(m, id);
    assert(m.entries[m.index_of(id)].wf());
}

// ---- the order in which playbacks start ----------------------------------

/// An entry that has left the queue never waits again.
pub proof fn lemma_queue_is_left_for_good(m: ManagerView, event: Event, id: SinkId)
    requires
        m.wf(),
        m.has(id),
        !(m.entry(id).state is Queued),
        m.step(event).has(id),
    ensures
        !(m.step(event).entry(id).state is Queued),
{
    lemma_place_of(m, m.index_of(id));
    match event {
        Event::Play(audio) => {
            if m.play_reply() is Ok {
                lemma_play_entry(m, audio, id);
            }
        },
        Event::Stop(x) => lemma_stop_entry(m, x, id),
        Event::Pause(x) => lemma_pause_entry(m, x, id),
        Event::Resume(x) => lemma_resume_entry(m, x, id),
        Event::Started(x, outcome) => {
            lemma_complete_start_entry(m, x, outcome, id);
        },
        Event::Drained => lemma_drain_entry(m, id),
        Event::DeviceLost(reason) => lemma_fail_active_entry(m, reason, id),
        Event::Tick => lemma_end_tick_entry(m, id),
        Event::Shutdown => lemma_stop_all_entry(m, id),
    }
}

/// An entry comes to hold its first sink in one way only: the driver
/// reports that the sink of the promotable playback was built.
pub proof fn lemma_only_a_built_sink_starts(m: ManagerView, event: Event, id: SinkId)
    requires
        m.wf(),
        !m.started(id),
        m.step(event).started(id),
    ensures
        event matches Event::Started(x, outcome) && x == id && outcome is Ok,
        m.promotable() == Some(id),
{
    match event {
        Event::Play(audio) => {
            if m.play_reply() is Ok {
                lemma_play_entry(m, audio, id);
            }
        },
        Event::Stop(x) => lemma_stop_entry(m, x, id),
        Event::Pause(x) => lemma_pause_entry(m, x, id),
        Event::Resume(x) => lemma_resume_entry(m, x, id),
        Event::Started(x, outcome) => {
            lemma_complete_start_entry(m, x, outcome, id);
        },
        Event::Drained => lemma_drain_entry(m, id),
        Event::DeviceLost(reason) => lemma_fail_active_entry(m, reason, id),
        Event::Tick => lemma_end_tick_entry(m, id),
        Event::Shutdown => lemma_stop_all_entry(m, id),
    }
}

/// The state after `k + 1` events is the state after `k` events and one
/// step more.
pub proof fn lemma_after_next(m: ManagerView, events: Seq<Event>, k: int)
    requires
        0 <= k < events.len(),
    ensures
        m.after(events, k + 1) == m.after(events, k).step(events[k]),
{
    assert(events.take(k + 1).drop_last() =~= events.take(k));
}

/// The state after any number of the events is well-formed.
pub proof fn lemma_after_wf(m: ManagerView, events: Seq<Event>, k: int)
    requires
        m.wf(),
        0 <= k <= events.len(),
    ensures
        m.after(events, k).wf(),
{
    lemma_run_keeps_wf(m, events.take(k));
}

/// A handle that was assigned before event `lo`, and that the manager
/// still holds after event `hi`, was held all the time between; and if
/// its entry did not wait at `lo`, it does not wait at `hi`.
pub proof fn lemma_held_between(m: ManagerView, events: Seq<Event>, id: SinkId, lo: int, hi: int)
    requires
        m.wf(),
        0 <= lo <= hi <= events.len(),
        id < m.after(events, lo).next_id,
        m.after(events, hi).has(id),
    ensures
        m.after(events, lo).has(id),
        m.after(events, lo).next_id <= m.after(events, hi).next_id,
        !(m.after(events, lo).entry(id).state is Queued) ==> !(m.after(events, hi).entry(
            id,
        ).state is Queued),
    decreases hi - lo,
{
    if lo < hi {
        let mid = m.after(events, hi - 1);
        lemma_after_next(m, events, hi - 1);
        lemma_after_wf(m, events, hi - 1);
        lemma_after_wf(m, events, lo);
        lemma_step_handles(mid, events[hi - 1], id);
        lemma_next_id_between(m, events, lo, hi - 1);
        lemma_held_between(m, events, id, lo, hi - 1);
        if !(m.after(events, lo).entry(id).state is Queued) {
            lemma_queue_is_left_for_good(mid, events[hi - 1], id);
        }
    }
}

/// The next handle does not fall from one event to a later one.
pub proof fn lemma_next_id_between(m: ManagerView, events: Seq<Event>, lo: int, hi: int)
    requires
        m.wf(),
        0 <= lo <= hi <= events.len(),
    ensures
        m.after(events, lo).next_id <= m.after(events, hi).next_id,
    decreases hi - lo,
{
    if lo < hi {
        lemma_after_next(m, events, hi - 1);
        lemma_after_wf(m, events, hi - 1);
        lemma_step_handles(m.after(events, hi - 1), events[hi - 1], 0);
        lemma_next_id_between(m, events, lo, hi - 1);
    }
}

/// Playbacks start in the order in which they were accepted: if, in any
/// sequence of events, event `ka` gives playback `a` its sink and event
/// `kb` gives playback `b` its sink, and `a` got the smaller handle, then
/// `ka` comes before `kb`.
pub proof fn lemma_playbacks_start_in_order(
    m: ManagerView,
    events: Seq<Event>,
    a: SinkId,
    b: SinkId,
    ka: int,
    kb: int,
)
    requires
        m.wf(),
        a < b,
        0 <= ka < events.len(),
        0 <= kb < events.len(),
        !m.after(events, ka).started(a),
        m.after(events, ka + 1).started(a),
        !m.after(events, kb).started(b),
        m.after(events, kb + 1).started(b),
    ensures
        ka < kb,
{
    let before_a = m.after(events, ka);
    let before_b = m.after(events, kb);
    lemma_after_wf(m, events, ka);
    lemma_after_wf(m, events, kb);
    lemma_after_next(m, events, ka);
    lemma_after_next(m, events, kb);
    lemma_only_a_built_sink_starts(before_a, events[ka], a);
    lemma_only_a_built_sink_starts(before_b, events[kb], b);
    if kb < ka {
        let pa = lemma_promotable_place(before_a, a);
        let pb = lemma_promotable_place(before_b, b);
        assert(before_b.entries[pb].id < before_b.next_id);
        lemma_held_between(m, events, a, kb, ka);
        let i = before_b.index_of(a);
        lemma_promotion_takes_the_oldest(before_b, b, i);
    }
}

// ---- room in the queue ---------------------------------------------------

/// Two sequences of entries that wait at the same places have the same
/// number of waiting entries.
pub proof fn lemma_waiting_alike(a: Seq<EntryView>, b: Seq<EntryView>)
    requires
        a.len() == b.len(),
        forall|i: int|
            0 <= i < a.len() ==> ((#[trigger] a[i]).state is Queued) == (b[i].state is Queued),
    ensures
        a.filter(|e: EntryView| e.state is Queued).len() == b.filter(
            |e: EntryView| e.state is Queued,
        ).len(),
    decreases a.len(),
{
    reveal(Seq::filter);
    if a.len() > 0 {
        assert(a.last().state is Queued == b.last().state is Queued);
        assert forall|i: int| 0 <= i < a.drop_last().len() implies ((
        #[trigger] a.drop_last()[i]).state is Queued) == (b.drop_last()[i].state is Queued) by {
            assert(a.drop_last()[i] == a[i]);
            assert(b.drop_last()[i] == b[i]);
        }
        lemma_waiting_alike(a.drop_last(), b.drop_last());
    }
}

/// Two sequences of entries that wait at the same places but for place
/// `k` differ in their number of waiting entries by what place `k` adds.
pub proof fn lemma_waiting_differs_at(a: Seq<EntryView>, b: Seq<EntryView>, k: int)
    requires
        a.len() == b.len(),
        0 <= k < a.len(),
        forall|i: int|
            0 <= i < a.len() && i != k ==> ((#[trigger] a[i]).state is Queued) == (
            b[i].state is Queued),
    ensures
        a.filter(|e: EntryView| e.state is Queued).len() - (if a[k].state is Queued {
            1int
        } else {
            0int
        }) == b.filter(|e: EntryView| e.state is Queued).len() - (if b[k].state is Queued {
            1int
        } else {
            0int
        }),
    decreases a.len(),
{
    reveal(Seq::filter);
    let last = a.len() - 1;
    if k == last {
        assert forall|i: int| 0 <= i < a.drop_last().len() implies ((
        #[trigger] a.drop_last()[i]).state is Queued) == (b.drop_last()[i].state is Queued) by {
            assert(a.drop_last()[i] == a[i]);
            assert(b.drop_last()[i] == b[i]);
        }
        lemma_waiting_alike(a.drop_last(), b.drop_last());
    } else {
        assert(a.last().state is Queued == b.last().state is Queued);
        assert forall|i: int| 0 <= i < a.drop_last().len() && i != k implies ((
        #[trigger] a.drop_last()[i]).state is Queued) == (b.drop_last()[i].state is Queued) by {
            assert(a.drop_last()[i] == a[i]);
            assert(b.drop_last()[i] == b[i]);
        }
        assert(a.drop_last()[k] == a[k]);
        assert(b.drop_last()[k] == b[k]);
        lemma_waiting_differs_at(a.drop_last(), b.drop_last(), k);
    }
}

/// An accepted playback with audio takes one place in the queue; one
/// without audio takes none.
pub proof fn lemma_play_takes_room(m: ManagerView, audio: Seq<u8>)
    requires
        m.play_reply() is Ok,
    ensures
        m.play(audio).waiting() == m.waiting() + if audio.len() > 0 {
            1int
        } else {
            0int
        },
{
    m.entries.lemma_filter_push(
        EntryView::accepted(m.next_id, audio),
        |e: EntryView| e.state is Queued,
    );
}

/// A stop command for a waiting playback gives its place in the queue
/// back.
pub proof fn lemma_stop_gives_room(m: ManagerView, id: SinkId)
    requires
        m.wf(),
        m.state_of(id) == Some(PlaybackState::Queued),
    ensures
        m.stop(id).waiting() == m.waiting() - 1,
{
    let k = m.index_of(id);
    let n = m.stop(id);
    assert forall|i: int| 0 <= i < m.entries.len() && i != k implies ((
    #[trigger] m.entries[i]).state is Queued) == (n.entries[i].state is Queued) by {
        if m.entries[i].id == id {
            lemma_place_of(m, i);
        }
    }
    lemma_waiting_differs_at(m.entries, n.entries, k);
}

/// Whatever became of its sink, the promotable playback leaves the
/// queue: the driver that builds sinks as long as one is asked for comes
/// to an end.
pub proof fn lemma_start_gives_room(m: ManagerView, id: SinkId, outcome: StartOutcome)
    requires
        m.wf(),
        m.promotable() == Some(id),
    ensures
        m.complete_start(id, outcome).waiting() == m.waiting() - 1,
        outcome is Ok ==> m.complete_start(id, outcome).promotable() is None,
{
    let k = lemma_promotable_place(m, id);
    let n = m.complete_start(id, outcome);
    assert forall|i: int| 0 <= i < m.entries.len() && i != k implies ((
    #[trigger] m.entries[i]).state is Queued) == (n.entries[i].state is Queued) by {
        if m.entries[i].id == id {
            lemma_place_of(m, i);
        }
    }
    lemma_waiting_differs_at(m.entries, n.entries, k);
    if outcome is Ok {
        assert(n.entries[k].state.holds_sink());
    }
}

} // verus!
