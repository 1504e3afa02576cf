//! Playback sessions and the start of playbacks.

use remux::media::MediaKind;
use remux::playback_session::{
    duration_ms, playback_offset, remembered, requested_source, stale_transcoders,
    PlaybackInfo, PlaybackSession, PlaybackSessionManager, ProgressOutcome, ProgressUpdate,
    TranscodeHandle, Viewer,
};

const SECOND: u64 = 1_000_000_000;

fn manager() -> PlaybackSessionManager {
    PlaybackSessionManager::new("/tmp/transcodes".to_string())
}

#[test]
fn startup_progress_exposes_in_flight_milestones() {
    let mut manager = manager();
    let play_session_id = "progress-test";

    manager.begin_startup(play_session_id, 1, 7, "device", "client", 0, SECOND);
    manager.mark_playback_info_ready(play_session_id, SECOND);
    manager.mark_hls_requested(play_session_id, SECOND);
    manager.mark_source_selected(play_session_id, 9, SECOND);

    let progress = manager.startup_progress_for_device("device", 3 * SECOND).unwrap();
    assert_eq!(progress.play_session_id, play_session_id);
    assert_eq!(progress.user_id, 7);
    assert_eq!(progress.elapsed, 2 * SECOND);
    assert!(progress.playback_info_ready);
    assert!(progress.hls_requested);
    assert!(progress.source_selected);
    assert!(!progress.transcode_started);
    assert!(!progress.first_segment_served);
    manager.mark_transcode_started(play_session_id, 3 * SECOND);
    let progress = manager.startup_progress_for_device("device", 3 * SECOND).unwrap();
    assert!(progress.transcode_started);
    assert!(manager.startup_progress_for_device("other", 3 * SECOND).is_none());
}

#[test]
fn startup_progress_uses_the_newest_attempt_for_a_device() {
    let mut manager = manager();
    manager.begin_startup("older", 1, 7, "device", "client", 0, SECOND);
    manager.begin_startup("newer", 2, 7, "device", "client", 0, 2 * SECOND);
    assert_eq!(
        manager
            .startup_progress_for_device("device", 2 * SECOND)
            .unwrap()
            .play_session_id,
        "newer"
    );
}

#[test]
fn failed_startup_remains_visible_across_automatic_same_item_retry() {
    let mut manager = manager();
    manager.begin_startup("failed", 1, 7, "device", "client", 0, 0);
    manager
        .fail_startup("failed", "no playable source".to_string(), 0)
        .unwrap();

    assert!(manager.has_recent_startup_failure("device", 7, 0));
    manager.begin_startup("retry", 1, 7, "device", "client", 0, 0);
    assert!(manager.has_recent_startup_failure("device", 7, 0));
}

#[test]
fn different_item_or_explicit_acknowledgement_clears_startup_failure() {
    let mut manager = manager();
    manager.begin_startup("failed", 1, 7, "device", "client", 0, 0);
    manager
        .fail_startup("failed", "no playable source".to_string(), 0)
        .unwrap();
    manager.begin_startup("different", 2, 7, "device", "client", 0, 0);
    assert!(!manager.has_recent_startup_failure("device", 7, 0));

    manager
        .fail_startup("different", "no playable source".to_string(), 0)
        .unwrap();
    assert!(manager.has_recent_startup_failure("device", 7, 0));
    manager.clear_startup_failure("device");
    assert!(!manager.has_recent_startup_failure("device", 7, 0));
}

#[test]
fn failures_are_forgotten_after_five_minutes() {
    let mut manager = manager();
    manager.begin_startup("failed", 1, 7, "device", "client", 0, 0);
    manager.fail_startup("failed", "x".to_string(), 0).unwrap();
    assert!(!manager.has_recent_startup_failure("device", 8, 0));
    assert!(!manager.has_recent_startup_failure("device", 7, 301 * SECOND));
}

#[test]
fn startup_can_own_a_stream_until_it_reaches_a_terminal_outcome() {
    let mut manager = manager();
    let play_session_id = "ownership-test";

    manager.begin_startup(play_session_id, 1, 7, "device", "client", 0, 0);
    assert!(manager.has_startup(play_session_id));
    assert_eq!(
        manager.playback_ids_for_stream(9, Some(play_session_id)),
        vec![play_session_id.to_string()]
    );

    manager
        .fail_startup(play_session_id, "test complete".to_string(), 0)
        .unwrap();
    assert!(!manager.has_startup(play_session_id));
    assert!(manager
        .playback_ids_for_stream(9, Some(play_session_id))
        .is_empty());
}

#[test]
fn progress_backdates_actual_playback_but_not_before_first_segment() {
    let mut manager = manager();
    let play_session_id = "startup-test";
    manager.begin_startup(play_session_id, 1, 7, "device", "client", 0, 0);
    manager.mark_first_segment_served(play_session_id, 3 * SECOND);

    let report = manager
        .confirm_startup(play_session_id, 0, Some(9 * 10_000_000), false, 10 * SECOND)
        .unwrap();

    assert_eq!(report.outcome, "started");
    assert_eq!(report.estimated_actual_playback_ms, Some(3_000));
    assert!(report.first_progress_ms.is_some_and(|value| value >= 9_900));
    assert!(report.confirmation_delay_ms.is_some_and(|value| value >= 6_900));
    assert_eq!(report.first_progress_ms, Some(10_000));
    assert_eq!(report.confirmation_delay_ms, Some(7_000));
}

#[test]
fn paused_or_nonadvancing_progress_does_not_confirm_playback() {
    let mut manager = manager();
    manager.begin_startup("paused-test", 1, 7, "device", "client", 0, 0);

    assert!(manager
        .confirm_startup("paused-test", 0, Some(10_000_000), true, SECOND)
        .is_none());
    assert!(manager
        .confirm_startup("paused-test", 0, Some(0), false, SECOND)
        .is_none());
}

#[test]
fn stopping_before_progress_records_an_abandoned_attempt() {
    let mut manager = manager();
    manager.begin_startup("abandoned-test", 1, 7, "device", "client", 0, 0);
    manager.mark_hls_requested("abandoned-test", SECOND);

    let report = manager
        .abandon_startup("abandoned-test", "client stopped".to_string())
        .unwrap();

    assert_eq!(report.outcome, "abandoned");
    assert_eq!(report.failure_reason.as_deref(), Some("client stopped"));
    assert_eq!(report.hls_requested_ms, Some(1_000));
    assert!(manager
        .abandon_startup("abandoned-test", "duplicate stop".to_string())
        .is_none());
}

fn info(psid: &str, item_id: u128) -> PlaybackInfo {
    PlaybackInfo {
        play_session_id: Some(psid.to_string()),
        item_id,
        media_source_id: None,
        position_ticks: None,
        can_seek: true,
        is_paused: false,
        is_muted: false,
        volume_level: None,
        audio_stream_index: None,
        subtitle_stream_index: None,
        play_method: None,
        now_playing_queue: None,
        playlist_item_id: None,
    }
}

fn viewer(device: &str, limit: i32) -> Viewer {
    Viewer {
        user_id: 7,
        device_id: device.to_string(),
        app_name: "app".to_string(),
        max_active_sessions: limit,
    }
}

#[test]
fn a_device_has_one_session_and_a_user_no_more_than_allowed() {
    let mut manager = manager();
    manager.start(&viewer("tv", 2), &info("a", 1), "fresh", None, None, 0).unwrap();
    let started = manager
        .start(&viewer("tv", 2), &info("b", 1), "fresh", None, Some(MediaKind::Movie), 1)
        .unwrap();
    assert_eq!(started.play_session_id, "b");
    assert_eq!(started.stopped, vec!["a".to_string()]);
    assert_eq!(manager.get_all().len(), 1);
    manager.start(&viewer("phone", 2), &info("c", 1), "fresh", None, None, 2).unwrap();
    assert!(manager.start(&viewer("tablet", 2), &info("d", 1), "fresh", None, None, 3).is_err());
    assert_eq!(manager.count_for_user(7, None), 2);
    assert_eq!(manager.count_for_user(7, Some("tv")), 1);
    assert_eq!(manager.get_by_device("phone").unwrap().play_session_id, "c");
}

#[test]
fn a_transcode_that_came_first_belongs_to_the_session() {
    let mut manager = manager();
    let handle = TranscodeHandle { number: 3, media_source_id: 9 };
    manager.attach_transcode("a", handle, 0);
    assert_eq!(manager.get_transcode("a"), Some(handle));
    manager.start(&viewer("tv", 0), &info("a", 1), "fresh", None, None, 1).unwrap();
    assert_eq!(manager.get_transcode("a"), Some(handle));
    assert_eq!(manager.playback_ids_for_media_source(9), vec!["a".to_string()]);
    assert_eq!(manager.stop_transcode("a"), Some(handle));
    assert_eq!(manager.get_transcode("a"), None);
    assert_eq!(manager.active_session_ids(), vec!["a".to_string()]);
}

#[test]
fn progress_is_noted_and_a_stop_ends_the_session() {
    let mut manager = manager();
    manager.start(&viewer("tv", 0), &info("a", 1), "fresh", None, None, 0).unwrap();
    let report = PlaybackInfo { position_ticks: Some(50), ..info("a", 1) };
    match manager.progress("a", &report, 5, 5) {
        ProgressOutcome::Updated(update) => {
            assert_eq!(update.item_id, 1);
            assert_eq!(update.position_ticks, 50);
        }
        other => panic!("{other:?}"),
    }
    assert!(matches!(manager.progress("zz", &report, 5, 5), ProgressOutcome::Unknown));
    manager.ping("a", 9);
    assert_eq!(manager.get("a").unwrap().last_activity, 9);
    manager.update("a", |s| PlaybackSession { is_muted: true, ..s });
    assert!(manager.get("a").unwrap().is_muted);
    assert_eq!(manager.idle_since(10), vec!["a".to_string()]);
    let outcome = manager.stopped("a", &info("a", 0));
    assert_eq!(outcome.item_id, Some(1));
    assert_eq!(outcome.final_ticks, Some(50));
    assert!(manager.stop("a").is_some() || manager.get("a").is_none());
}

#[test]
fn sessions_without_an_item_are_taken_out() {
    let mut manager = manager();
    manager.attach_transcode("stub", TranscodeHandle { number: 1, media_source_id: 2 }, 0);
    assert!(matches!(
        manager.progress("stub", &info("stub", 0), 1, 1),
        ProgressOutcome::Evicted
    ));
    assert!(manager.get("stub").is_none());
}

#[test]
fn sources_are_read_from_either_form_of_an_identifier() {
    let id = 0x0123_4567_89ab_cdef_0123_4567_89ab_cdef;
    let hyphenated = Some("01234567-89ab-cdef-0123-456789abcdef".to_string());
    let simple = Some("0123456789abcdef0123456789abcdef".to_string());
    assert_eq!(requested_source(&hyphenated), Some(id));
    assert_eq!(requested_source(&simple), Some(id));
    assert_eq!(requested_source(&Some("auto".to_string())), None);
    assert_eq!(requested_source(&None), None);
}

#[test]
fn segments_are_looked_for_in_the_latest_directory() {
    let manager = manager();
    assert_eq!(
        manager.segment_path("a", "segment_00001", &vec![]),
        "/tmp/transcodes/a/segment_00001.ts"
    );
    let dirs = vec![("/x/old".to_string(), 1), ("/x/new".to_string(), 2)];
    assert_eq!(manager.segment_path("a", "segment_00001", &dirs), "/x/new/segment_00001.ts");
    assert_eq!(manager.base_dir(), "/tmp/transcodes");
}

#[test]
fn stale_transcoders_are_found_in_a_process_list() {
    let list = " 12 ffmpeg -i x /tmp/transcodes/a/main.m3u8\n 13 ffmpeg -i y /elsewhere\n 14 vim /tmp/transcodes\n";
    assert_eq!(stale_transcoders(list, "/tmp/transcodes"), vec![12]);
}

#[test]
fn spans_and_offsets() {
    assert_eq!(duration_ms(Some(1_999_999)), Some(1));
    assert_eq!(duration_ms(None), None);
    assert_eq!(playback_offset(400_000_000, 30), 10);
    assert_eq!(playback_offset(100_000_000, 30), 0);
}

#[test]
fn selections_are_remembered_where_the_user_wants_it() {
    let update = ProgressUpdate {
        item_id: 1,
        report: None,
        params_changed: false,
        position_ticks: 0,
        transcode: None,
        selected_stream_id: None,
        audio_stream_index: Some(3),
        subtitle_stream_index: Some(-1),
    };
    assert_eq!(remembered(&update, true, true), (Some(3), Some(-1)));
    assert_eq!(remembered(&update, true, false), (Some(3), None));
    assert_eq!(remembered(&update, false, true), (None, Some(-1)));
    assert_eq!(remembered(&update, false, false), (None, None));
}
