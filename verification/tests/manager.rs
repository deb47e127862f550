use response_engine::command::PlaybackCommand;
use response_engine::error::PlaybackError;
use response_engine::limits::DEFAULT_CAPACITY;
use response_engine::manager::AudioPlaybackManager;
use response_engine::model::{CommandReply, SinkAction};
use response_engine::state::PlaybackState;

fn audio(n: u8) -> Vec<u8> {
    vec![n, n, n]
}

/// Builds the sink of the promotable playback and reports success.
fn start_next(m: &mut AudioPlaybackManager) -> Option<usize> {
    let request = m.next_start()?;
    assert_eq!(m.complete_start(request.id, Ok(())), SinkAction::Nothing);
    Some(request.id)
}

#[test]
fn new_manager_is_empty_and_idle() {
    let m = AudioPlaybackManager::new();
    assert_eq!(m.capacity(), DEFAULT_CAPACITY);
    assert_eq!(m.capacity(), 64);
    assert_eq!(m.next_id(), 0);
    assert_eq!(m.waiting(), 0);
    assert_eq!(m.active(), None);
    assert!(m.is_idle());
    assert!(m.next_start().is_none());
    assert_eq!(m.state_of(0), None);
}

#[test]
fn first_play_gets_handle_zero_and_waits() {
    let mut m = AudioPlaybackManager::new();
    assert_eq!(m.play_audio(audio(1)), Ok(0));
    assert_eq!(m.state_of(0), Some(PlaybackState::Queued));
    assert_eq!(m.waiting(), 1);
    assert_eq!(m.next_id(), 1);
    assert!(m.is_idle());
}

#[test]
fn handles_are_dense_and_increasing() {
    let mut m = AudioPlaybackManager::new();
    for expected in 0..10usize {
        assert_eq!(m.play_audio(audio(expected as u8)), Ok(expected));
    }
    assert_eq!(m.next_id(), 10);
    assert_eq!(m.waiting(), 10);
}

#[test]
fn next_start_hands_out_the_oldest_buffer() {
    let mut m = AudioPlaybackManager::new();
    m.play_audio(vec![10, 11]).unwrap();
    m.play_audio(vec![20, 21]).unwrap();
    let request = m.next_start().unwrap();
    assert_eq!(request.id, 0);
    assert_eq!(request.audio, vec![10, 11]);
    assert!(!request.paused);
    // Asking does not change anything.
    assert_eq!(m.state_of(0), Some(PlaybackState::Queued));
    assert_eq!(m.next_start().unwrap().id, 0);
}

#[test]
fn built_sink_makes_the_entry_playing() {
    let mut m = AudioPlaybackManager::new();
    m.play_audio(audio(1)).unwrap();
    assert_eq!(start_next(&mut m), Some(0));
    assert_eq!(m.state_of(0), Some(PlaybackState::Playing));
    assert_eq!(m.active(), Some(0));
    assert!(!m.is_idle());
    assert_eq!(m.waiting(), 0);
    assert!(m.next_start().is_none());
}

#[test]
fn drained_sink_finishes_the_entry() {
    let mut m = AudioPlaybackManager::new();
    m.play_audio(audio(1)).unwrap();
    start_next(&mut m);
    assert_eq!(m.sink_drained(), SinkAction::Release(0));
    assert_eq!(m.state_of(0), Some(PlaybackState::Finished));
    assert!(m.is_idle());
    // Nothing is playing any more: to say it again changes nothing.
    assert_eq!(m.sink_drained(), SinkAction::Nothing);
    assert_eq!(m.state_of(0), Some(PlaybackState::Finished));
}

#[test]
fn pause_and_resume_a_playing_entry() {
    let mut m = AudioPlaybackManager::new();
    m.play_audio(audio(1)).unwrap();
    start_next(&mut m);
    assert_eq!(m.pause_audio(0), Ok(SinkAction::Pause(0)));
    assert_eq!(m.state_of(0), Some(PlaybackState::Paused));
    assert_eq!(m.active(), Some(0));
    assert_eq!(m.resume_audio(0), Ok(SinkAction::Resume(0)));
    assert_eq!(m.state_of(0), Some(PlaybackState::Playing));
    assert_eq!(m.active(), Some(0));
    // The entry is as it was: it finishes like any playing entry.
    assert_eq!(m.sink_drained(), SinkAction::Release(0));
    assert_eq!(m.state_of(0), Some(PlaybackState::Finished));
}

#[test]
fn paused_entry_does_not_finish_when_its_sink_runs_empty() {
    let mut m = AudioPlaybackManager::new();
    m.play_audio(audio(1)).unwrap();
    start_next(&mut m);
    m.pause_audio(0).unwrap();
    assert_eq!(m.sink_drained(), SinkAction::Nothing);
    assert_eq!(m.state_of(0), Some(PlaybackState::Paused));
}

#[test]
fn repeated_pause_is_a_no_op() {
    let mut m = AudioPlaybackManager::new();
    m.play_audio(audio(1)).unwrap();
    start_next(&mut m);
    assert_eq!(m.pause_audio(0), Ok(SinkAction::Pause(0)));
    assert_eq!(m.pause_audio(0), Ok(SinkAction::Nothing));
    assert_eq!(m.pause_audio(0), Ok(SinkAction::Nothing));
    assert_eq!(m.state_of(0), Some(PlaybackState::Paused));
}

#[test]
fn resume_of_a_playing_entry_is_a_no_op() {
    let mut m = AudioPlaybackManager::new();
    m.play_audio(audio(1)).unwrap();
    start_next(&mut m);
    assert_eq!(m.resume_audio(0), Ok(SinkAction::Nothing));
    assert_eq!(m.state_of(0), Some(PlaybackState::Playing));
}

#[test]
fn repeated_stop_is_a_no_op() {
    let mut m = AudioPlaybackManager::new();
    m.play_audio(audio(1)).unwrap();
    start_next(&mut m);
    assert_eq!(m.stop_audio(0), Ok(SinkAction::Release(0)));
    assert_eq!(m.state_of(0), Some(PlaybackState::Stopped));
    assert!(m.is_idle());
    assert_eq!(m.stop_audio(0), Err(PlaybackError::UnknownHandle));
    assert_eq!(m.state_of(0), Some(PlaybackState::Stopped));
}

#[test]
fn commands_on_an_unknown_handle_are_refused() {
    let mut m = AudioPlaybackManager::new();
    m.play_audio(audio(1)).unwrap();
    assert_eq!(m.stop_audio(7), Err(PlaybackError::UnknownHandle));
    assert_eq!(m.pause_audio(7), Err(PlaybackError::UnknownHandle));
    assert_eq!(m.resume_audio(7), Err(PlaybackError::UnknownHandle));
    assert_eq!(m.state_of(7), None);
    assert_eq!(m.state_of(0), Some(PlaybackState::Queued));
}

#[test]
fn commands_on_an_ended_handle_are_refused() {
    let mut m = AudioPlaybackManager::new();
    m.play_audio(audio(1)).unwrap();
    start_next(&mut m);
    m.sink_drained();
    assert_eq!(m.pause_audio(0), Err(PlaybackError::UnknownHandle));
    assert_eq!(m.resume_audio(0), Err(PlaybackError::UnknownHandle));
    assert_eq!(m.stop_audio(0), Err(PlaybackError::UnknownHandle));
    assert_eq!(m.state_of(0), Some(PlaybackState::Finished));
}

#[test]
fn second_playback_waits_until_the_first_has_finished() {
    let mut m = AudioPlaybackManager::new();
    // Handle 0 has come and gone; handles 1 and 2 follow back to back.
    m.play_audio(audio(0)).unwrap();
    start_next(&mut m);
    m.sink_drained();
    assert_eq!(m.play_audio(audio(1)), Ok(1));
    assert_eq!(m.play_audio(audio(2)), Ok(2));
    assert_eq!(start_next(&mut m), Some(1));
    assert_eq!(m.state_of(1), Some(PlaybackState::Playing));
    assert_eq!(m.state_of(2), Some(PlaybackState::Queued));
    assert!(m.next_start().is_none());
    assert_eq!(m.sink_drained(), SinkAction::Release(1));
    assert_eq!(m.state_of(1), Some(PlaybackState::Finished));
    assert_eq!(start_next(&mut m), Some(2));
    assert_eq!(m.state_of(2), Some(PlaybackState::Playing));
}

#[test]
fn queued_entry_waits_while_the_active_one_is_paused() {
    let mut m = AudioPlaybackManager::new();
    m.play_audio(audio(1)).unwrap();
    m.play_audio(audio(2)).unwrap();
    start_next(&mut m);
    m.pause_audio(0).unwrap();
    assert!(m.next_start().is_none());
    assert_eq!(m.state_of(1), Some(PlaybackState::Queued));
}

#[test]
fn stop_of_a_queued_entry_leaves_the_playing_one_alone() {
    let mut m = AudioPlaybackManager::new();
    m.play_audio(audio(0)).unwrap();
    start_next(&mut m);
    m.sink_drained();
    m.play_audio(audio(1)).unwrap();
    m.play_audio(audio(2)).unwrap();
    start_next(&mut m);
    assert_eq!(m.stop_audio(2), Ok(SinkAction::Nothing));
    assert_eq!(m.state_of(2), Some(PlaybackState::Stopped));
    assert_eq!(m.state_of(1), Some(PlaybackState::Playing));
    assert_eq!(m.active(), Some(1));
    assert_eq!(m.waiting(), 0);
    // The stopped entry is never started.
    m.sink_drained();
    assert!(m.next_start().is_none());
}

#[test]
fn stopped_entry_in_the_middle_of_the_queue_is_skipped() {
    let mut m = AudioPlaybackManager::new();
    m.play_audio(audio(0)).unwrap();
    m.play_audio(audio(1)).unwrap();
    m.play_audio(audio(2)).unwrap();
    start_next(&mut m);
    m.stop_audio(1).unwrap();
    m.sink_drained();
    assert_eq!(start_next(&mut m), Some(2));
}

#[test]
fn empty_buffer_is_finished_at_once() {
    let mut m = AudioPlaybackManager::new();
    assert_eq!(m.play_audio(Vec::new()), Ok(0));
    assert_eq!(m.state_of(0), Some(PlaybackState::Finished));
    assert_eq!(m.waiting(), 0);
    assert!(m.is_idle());
    assert!(m.next_start().is_none());
}

#[test]
fn empty_buffer_does_not_disturb_the_playing_entry() {
    let mut m = AudioPlaybackManager::new();
    m.play_audio(audio(1)).unwrap();
    start_next(&mut m);
    assert_eq!(m.play_audio(Vec::new()), Ok(1));
    assert_eq!(m.state_of(1), Some(PlaybackState::Finished));
    assert_eq!(m.state_of(0), Some(PlaybackState::Playing));
    assert_eq!(m.active(), Some(0));
}

#[test]
fn full_queue_refuses_play_and_changes_nothing() {
    let mut m = AudioPlaybackManager::with_capacity(2);
    assert_eq!(m.play_audio(audio(0)), Ok(0));
    assert_eq!(m.play_audio(audio(1)), Ok(1));
    assert_eq!(m.play_audio(audio(2)), Err(PlaybackError::QueueFull));
    assert_eq!(m.next_id(), 2);
    assert_eq!(m.waiting(), 2);
    assert_eq!(m.state_of(2), None);
    assert_eq!(m.state_of(0), Some(PlaybackState::Queued));
    assert_eq!(m.state_of(1), Some(PlaybackState::Queued));
    // Room comes back when the oldest entry gets its sink.
    start_next(&mut m);
    assert_eq!(m.play_audio(audio(2)), Ok(2));
    assert_eq!(m.play_audio(audio(3)), Err(PlaybackError::QueueFull));
}

#[test]
fn manager_without_room_refuses_every_play() {
    let mut m = AudioPlaybackManager::with_capacity(0);
    assert_eq!(m.play_audio(audio(0)), Err(PlaybackError::QueueFull));
    assert_eq!(m.play_audio(Vec::new()), Err(PlaybackError::QueueFull));
    assert_eq!(m.next_id(), 0);
}

#[test]
fn default_capacity_admits_sixty_four_waiting_entries() {
    let mut m = AudioPlaybackManager::new();
    for i in 0..64usize {
        assert_eq!(m.play_audio(audio(1)), Ok(i));
    }
    assert_eq!(m.play_audio(audio(1)), Err(PlaybackError::QueueFull));
}

#[test]
fn failed_decode_fails_the_entry_and_frees_the_turn() {
    let mut m = AudioPlaybackManager::new();
    m.play_audio(audio(0)).unwrap();
    m.play_audio(audio(1)).unwrap();
    let request = m.next_start().unwrap();
    assert_eq!(
        m.complete_start(request.id, Err(PlaybackError::Corrupt)),
        SinkAction::Nothing
    );
    assert_eq!(m.state_of(0), Some(PlaybackState::Failed));
    assert_eq!(m.failure_of(0), Some(PlaybackError::Corrupt));
    assert!(m.is_idle());
    // The next waiting entry is promoted in the same tick.
    assert_eq!(start_next(&mut m), Some(1));
    assert_eq!(m.state_of(1), Some(PlaybackState::Playing));
    assert_eq!(m.failure_of(1), None);
}

#[test]
fn unavailable_device_fails_the_entry_only() {
    let mut m = AudioPlaybackManager::new();
    m.play_audio(audio(0)).unwrap();
    let request = m.next_start().unwrap();
    m.complete_start(request.id, Err(PlaybackError::DeviceUnavailable));
    assert_eq!(m.state_of(0), Some(PlaybackState::Failed));
    assert_eq!(m.failure_of(0), Some(PlaybackError::DeviceUnavailable));
    assert_eq!(m.play_audio(audio(1)), Ok(1));
    assert_eq!(start_next(&mut m), Some(1));
}

#[test]
fn unsupported_format_is_recorded_as_the_failure() {
    let mut m = AudioPlaybackManager::new();
    m.play_audio(audio(0)).unwrap();
    m.complete_start(0, Err(PlaybackError::UnsupportedFormat));
    assert_eq!(m.failure_of(0), Some(PlaybackError::UnsupportedFormat));
}

#[test]
fn sink_built_for_the_wrong_entry_is_released() {
    let mut m = AudioPlaybackManager::new();
    m.play_audio(audio(0)).unwrap();
    m.play_audio(audio(1)).unwrap();
    // Entry 1 is not the oldest waiting one.
    assert_eq!(m.complete_start(1, Ok(())), SinkAction::Release(1));
    assert_eq!(m.state_of(1), Some(PlaybackState::Queued));
    start_next(&mut m);
    // The device is taken.
    assert_eq!(m.complete_start(1, Ok(())), SinkAction::Release(1));
    assert_eq!(m.state_of(1), Some(PlaybackState::Queued));
    assert_eq!(m.complete_start(1, Err(PlaybackError::Corrupt)), SinkAction::Nothing);
    assert_eq!(m.state_of(1), Some(PlaybackState::Queued));
    assert_eq!(m.complete_start(9, Ok(())), SinkAction::Release(9));
}

#[test]
fn pause_of_a_queued_entry_is_deferred() {
    let mut m = AudioPlaybackManager::new();
    m.play_audio(audio(0)).unwrap();
    assert_eq!(m.pause_audio(0), Ok(SinkAction::Nothing));
    assert_eq!(m.state_of(0), Some(PlaybackState::Queued));
    let request = m.next_start().unwrap();
    assert!(request.paused);
    m.complete_start(request.id, Ok(()));
    assert_eq!(m.state_of(0), Some(PlaybackState::Paused));
    assert_eq!(m.active(), Some(0));
    assert_eq!(m.resume_audio(0), Ok(SinkAction::Resume(0)));
    assert_eq!(m.state_of(0), Some(PlaybackState::Playing));
}

#[test]
fn resume_of_a_queued_entry_is_a_no_op() {
    let mut m = AudioPlaybackManager::new();
    m.play_audio(audio(0)).unwrap();
    m.pause_audio(0).unwrap();
    assert_eq!(m.resume_audio(0), Ok(SinkAction::Nothing));
    assert_eq!(m.state_of(0), Some(PlaybackState::Queued));
    assert!(m.next_start().unwrap().paused);
}

#[test]
fn stop_of_a_paused_entry_releases_its_sink() {
    let mut m = AudioPlaybackManager::new();
    m.play_audio(audio(0)).unwrap();
    start_next(&mut m);
    m.pause_audio(0).unwrap();
    assert_eq!(m.stop_audio(0), Ok(SinkAction::Release(0)));
    assert_eq!(m.state_of(0), Some(PlaybackState::Stopped));
    assert!(m.is_idle());
}

#[test]
fn lost_device_fails_the_active_entry() {
    let mut m = AudioPlaybackManager::new();
    m.play_audio(audio(0)).unwrap();
    m.play_audio(audio(1)).unwrap();
    start_next(&mut m);
    assert_eq!(
        m.sink_failed(PlaybackError::DeviceUnavailable),
        SinkAction::Release(0)
    );
    assert_eq!(m.state_of(0), Some(PlaybackState::Failed));
    assert_eq!(m.failure_of(0), Some(PlaybackError::DeviceUnavailable));
    assert_eq!(m.state_of(1), Some(PlaybackState::Queued));
    assert_eq!(m.sink_failed(PlaybackError::DeviceUnavailable), SinkAction::Nothing);
    assert_eq!(start_next(&mut m), Some(1));
}

#[test]
fn ended_entry_is_observable_for_one_tick() {
    let mut m = AudioPlaybackManager::new();
    m.play_audio(audio(0)).unwrap();
    start_next(&mut m);
    m.sink_drained();
    m.end_tick();
    assert_eq!(m.state_of(0), Some(PlaybackState::Finished));
    m.end_tick();
    assert_eq!(m.state_of(0), None);
    assert_eq!(m.stop_audio(0), Err(PlaybackError::UnknownHandle));
}

#[test]
fn tick_keeps_live_entries() {
    let mut m = AudioPlaybackManager::new();
    m.play_audio(vec![1, 2, 3]).unwrap();
    m.play_audio(vec![4, 5]).unwrap();
    m.play_audio(vec![6]).unwrap();
    start_next(&mut m);
    m.stop_audio(1).unwrap();
    m.end_tick();
    m.end_tick();
    m.end_tick();
    assert_eq!(m.state_of(0), Some(PlaybackState::Playing));
    assert_eq!(m.state_of(1), None);
    assert_eq!(m.state_of(2), Some(PlaybackState::Queued));
    m.sink_drained();
    let request = m.next_start().unwrap();
    assert_eq!(request.id, 2);
    assert_eq!(request.audio, vec![6]);
}

#[test]
fn purged_handles_are_not_assigned_again() {
    let mut m = AudioPlaybackManager::new();
    m.play_audio(audio(0)).unwrap();
    m.stop_audio(0).unwrap();
    m.end_tick();
    m.end_tick();
    assert_eq!(m.state_of(0), None);
    assert_eq!(m.play_audio(audio(1)), Ok(1));
    assert_eq!(m.state_of(0), None);
}

#[test]
fn shutdown_stops_every_live_entry() {
    let mut m = AudioPlaybackManager::new();
    m.play_audio(audio(0)).unwrap();
    m.play_audio(audio(1)).unwrap();
    m.play_audio(audio(2)).unwrap();
    start_next(&mut m);
    m.sink_drained();
    start_next(&mut m);
    assert_eq!(m.stop_all(), SinkAction::Release(1));
    assert_eq!(m.state_of(0), Some(PlaybackState::Finished));
    assert_eq!(m.state_of(1), Some(PlaybackState::Stopped));
    assert_eq!(m.state_of(2), Some(PlaybackState::Stopped));
    assert!(m.is_idle());
    assert!(m.next_start().is_none());
    assert_eq!(m.stop_all(), SinkAction::Nothing);
}

#[test]
fn handle_command_dispatches_each_command() {
    let mut m = AudioPlaybackManager::new();
    assert_eq!(
        m.handle_command(PlaybackCommand::Play(audio(0))),
        Ok(CommandReply::Accepted(0))
    );
    assert_eq!(
        m.handle_command(PlaybackCommand::Pause(0)),
        Ok(CommandReply::Done(SinkAction::Nothing))
    );
    start_next(&mut m);
    assert_eq!(m.state_of(0), Some(PlaybackState::Paused));
    assert_eq!(
        m.handle_command(PlaybackCommand::Resume(0)),
        Ok(CommandReply::Done(SinkAction::Resume(0)))
    );
    assert_eq!(
        m.handle_command(PlaybackCommand::Pause(0)),
        Ok(CommandReply::Done(SinkAction::Pause(0)))
    );
    assert_eq!(
        m.handle_command(PlaybackCommand::Stop(0)),
        Ok(CommandReply::Done(SinkAction::Release(0)))
    );
    assert_eq!(
        m.handle_command(PlaybackCommand::Stop(0)),
        Err(PlaybackError::UnknownHandle)
    );
    assert_eq!(
        m.handle_command(PlaybackCommand::Resume(5)),
        Err(PlaybackError::UnknownHandle)
    );
}

#[test]
fn handle_command_reports_a_full_queue() {
    let mut m = AudioPlaybackManager::with_capacity(1);
    assert_eq!(
        m.handle_command(PlaybackCommand::Play(audio(0))),
        Ok(CommandReply::Accepted(0))
    );
    assert_eq!(
        m.handle_command(PlaybackCommand::Play(audio(1))),
        Err(PlaybackError::QueueFull)
    );
    assert_eq!(m.next_id(), 1);
}

#[test]
fn playbacks_start_in_the_order_of_acceptance() {
    let mut m = AudioPlaybackManager::new();
    for i in 0..5u8 {
        m.play_audio(audio(i)).unwrap();
    }
    m.stop_audio(3).unwrap();
    let mut order = Vec::new();
    while let Some(id) = start_next(&mut m) {
        order.push(id);
        m.end_tick();
        assert_eq!(m.sink_drained(), SinkAction::Release(id));
    }
    assert_eq!(order, vec![0, 1, 2, 4]);
}

#[test]
fn at_most_one_entry_holds_the_device() {
    let mut m = AudioPlaybackManager::new();
    for i in 0..4u8 {
        m.play_audio(audio(i)).unwrap();
    }
    start_next(&mut m);
    for id in 1..4usize {
        assert_eq!(m.complete_start(id, Ok(())), SinkAction::Release(id));
    }
    let holding = (0..4usize)
        .filter(|id| {
            matches!(
                m.state_of(*id),
                Some(PlaybackState::Playing) | Some(PlaybackState::Paused)
            )
        })
        .count();
    assert_eq!(holding, 1);
}

#[test]
fn state_predicates_agree_with_the_life_cycle() {
    assert!(!PlaybackState::Queued.terminal());
    assert!(!PlaybackState::Playing.terminal());
    assert!(!PlaybackState::Paused.terminal());
    assert!(PlaybackState::Stopped.terminal());
    assert!(PlaybackState::Finished.terminal());
    assert!(PlaybackState::Failed.terminal());
    assert!(PlaybackState::Playing.has_sink());
    assert!(PlaybackState::Paused.has_sink());
    assert!(!PlaybackState::Queued.has_sink());
    assert!(!PlaybackState::Stopped.has_sink());
    assert!(!PlaybackState::Finished.has_sink());
    assert!(!PlaybackState::Failed.has_sink());
}

#[test]
fn entry_tells_whether_the_playback_ever_began() {
    let mut m = AudioPlaybackManager::new();
    m.play_audio(audio(0)).unwrap();
    m.play_audio(audio(1)).unwrap();
    m.play_audio(audio(2)).unwrap();
    start_next(&mut m);
    m.stop_audio(0).unwrap();
    m.stop_audio(1).unwrap();
    m.pause_audio(2).unwrap();
    let began = m.entry(0).unwrap();
    assert_eq!(began.id(), 0);
    assert_eq!(began.state(), PlaybackState::Stopped);
    assert!(began.was_started());
    assert_eq!(began.failure(), None);
    let cancelled = m.entry(1).unwrap();
    assert_eq!(cancelled.state(), PlaybackState::Stopped);
    assert!(!cancelled.was_started());
    let waiting = m.entry(2).unwrap();
    assert_eq!(waiting.state(), PlaybackState::Queued);
    assert!(waiting.is_pause_deferred());
    assert!(m.entry(3).is_none());
}

#[test]
fn items_are_reachable_from_the_crate_root() {
    let mut m = response_engine::AudioPlaybackManager::new();
    let reply = m.handle_command(response_engine::PlaybackCommand::Play(vec![1]));
    assert_eq!(reply, Ok(response_engine::CommandReply::Accepted(0)));
}
