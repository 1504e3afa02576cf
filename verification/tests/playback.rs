//! Probing, playlists, and watching over a transcode.

use remux::media::{Media, MediaKind};
use remux::playback::fallback::{
    are_names_readable, decide_probe, judge_probe, probe_attempt_timeout, probe_overall_deadline, resolve_stream_root,
    select_candidates, ProbeDecision, ProbeRun, ProbeVerdict,
};
use remux::playback::hw_accel::VideoToolbox;
use remux::playback::monitor::{
    adaptive_buffer_secs, count_segments, is_old_segment, is_segment, produced_segments,
    segment_index, BufferMonitor, Signal, MAX_BUFFER_SECS, MIN_BUFFER_SECS,
};
use remux::playback::playlists::{
    generate_master_playlist, generate_variant_playlist, hevc_hls_codec_string,
};
use remux::playback::probe::{
    apply_video_bitrate_fallback, bit_depth_from_pix_fmt, chapter_title_to_type,
    chapters_to_segments, nonzero, read_probe, Chapter, FfprobeOutput, FfprobeStream,
    MediaSegmentType,
};
use remux::playback::session::{
    start_secs, NextStep, RunResult, RunState, TranscodeSession, TranscodeState,
};
use remux::playback::source::{MediaSourceInfo, MediaStream, MediaStreamType, Segment};
use remux::playback::titles::{
    append_tags_to_title, display_title_audio, display_title_subtitle, first_to_upper, join,
    video_resolution_text, StreamMeta,
};
use remux::stream::{StreamDescriptor, StreamInfo};

// ---------------------------------------------------------------------------
// The buffer
// ---------------------------------------------------------------------------

/// The time that a disruption of thirty seconds takes to make up for, when
/// media is produced at `ratio` times the speed of playback.
fn recovery(ratio: f64) -> Option<u64> {
    if !ratio.is_finite() || ratio <= 1.05 {
        None
    } else {
        Some((30.0 / (ratio - 1.0)).ceil() as u64)
    }
}

#[test]
fn adaptive_buffer_tracks_production_margin() {
    assert_eq!(adaptive_buffer_secs(recovery(1.0), 6), MAX_BUFFER_SECS);
    assert_eq!(adaptive_buffer_secs(recovery(1.25), 6), 120);
    assert_eq!(adaptive_buffer_secs(recovery(2.0), 6), MIN_BUFFER_SECS);
    assert_eq!(adaptive_buffer_secs(recovery(10.0), 6), MIN_BUFFER_SECS);
}

#[test]
fn buffers_are_whole_segments() {
    assert_eq!(adaptive_buffer_secs(Some(31), 6), 36);
    assert_eq!(adaptive_buffer_secs(Some(45), 0), 45);
}

#[test]
fn buffers_stay_within_their_bounds() {
    assert_eq!(adaptive_buffer_secs(Some(1000), 7), MAX_BUFFER_SECS);
    assert_eq!(adaptive_buffer_secs(Some(300), 7), MAX_BUFFER_SECS);
    assert_eq!(adaptive_buffer_secs(Some(294), 7), 294);
    assert_eq!(adaptive_buffer_secs(Some(0), 7), 35);
    assert_eq!(adaptive_buffer_secs(Some(40), 1000), MAX_BUFFER_SECS);
    let mut m = BufferMonitor::new(0);
    m.retarget(Some(299), 7);
    assert_eq!(m.target_secs, MAX_BUFFER_SECS);
}

#[test]
fn a_full_buffer_stops_the_transcoder_until_it_is_played() {
    let mut m = BufferMonitor::new(0);
    assert_eq!(m.tick(60, 4), None);
    // 300 seconds ahead.
    assert_eq!(m.decide(true, 75, 4, 0).signal, Some(Signal::Pause));
    assert_eq!(m.decide(true, 75, 4, 0).signal, None);
    assert_eq!(m.decide(true, 75, 4, 8).signal, None);
    assert_eq!(m.decide(true, 75, 4, 9).signal, Some(Signal::Resume));
    assert_eq!(m.finish(true), None);
    m.paused = true;
    assert_eq!(m.finish(true), Some(Signal::Resume));
    assert_eq!(m.finish(false), None);
}

#[test]
fn speed_is_measured_every_five_seconds() {
    let mut m = BufferMonitor::new(0);
    for _ in 0..4 {
        assert_eq!(m.tick(10, 4), None);
    }
    assert_eq!(m.tick(10, 4), Some(40));
    for _ in 0..4 {
        assert_eq!(m.tick(12, 4), None);
    }
    assert_eq!(m.tick(12, 4), Some(8));
    m.retarget(Some(120), 6);
    assert_eq!(m.target_secs, 120);
}

#[test]
fn segments_that_were_played_are_deleted() {
    let mut m = BufferMonitor::new(0);
    m.ticks = 30;
    assert_eq!(m.decide(true, 100, 4, 130).delete_below, Some(25));
    m.ticks = 31;
    assert_eq!(m.decide(true, 100, 4, 130).delete_below, None);
    assert_eq!(segment_index("segment_00024.ts"), Some(24));
    assert_eq!(segment_index("main.m3u8"), None);
    assert!(is_old_segment("segment_00024.ts", 25));
    assert!(!is_old_segment("segment_00025.ts", 25));
    let names = vec!["segment_00000.ts".to_string(), "main.m3u8".to_string()];
    assert_eq!(count_segments(&names), 1);
    // A run that starts at its hundredth segment.
    let mut m = BufferMonitor::new(100);
    m.ticks = 30;
    assert_eq!(m.decide(true, 100, 4, 130).delete_below, Some(125));
}

fn file_names(names: &[&str]) -> Vec<String> {
    names.iter().map(|n| n.to_string()).collect()
}

#[test]
fn segments_of_both_kinds_are_counted() {
    assert!(is_segment("segment_00001.ts") && is_segment("segment_00001.m4s"));
    assert!(!is_segment("init.mp4"));
    let names = file_names(&["init.mp4", "segment_00000.m4s", "segment_00001.m4s", "main.m3u8"]);
    assert_eq!(count_segments(&names), 2);
    assert_eq!(produced_segments(&names, 0), 2);
}

#[test]
fn deleted_segments_still_count_as_produced() {
    let names = file_names(&["segment_00107.ts", "segment_00109.ts", "segment_00108.ts"]);
    assert_eq!(count_segments(&names), 3);
    assert_eq!(produced_segments(&names, 100), 10);
    assert_eq!(produced_segments(&names, 0), 110);
    // A number behind the first one says nothing, and a name without one is a file.
    assert_eq!(produced_segments(&names, 200), 3);
    assert_eq!(produced_segments(&file_names(&["a.ts", "b.ts"]), 0), 2);
    assert_eq!(produced_segments(&vec![], 0), 0);
}

#[test]
fn a_lead_of_more_than_the_maximum_is_always_stopped() {
    let names: Vec<String> = (0..78).map(|i| format!("segment_{i:05}.m4s")).collect();
    let produced = produced_segments(&names, 0);
    for recovery in [None, Some(31), Some(120), Some(300), Some(5000)] {
        let mut m = BufferMonitor::new(0);
        m.retarget(recovery, 4);
        // 78 segments of four seconds, of which eight seconds were played.
        assert_eq!(m.decide(true, produced, 4, 8).signal, Some(Signal::Pause));
    }
}

// ---------------------------------------------------------------------------
// Playlists
// ---------------------------------------------------------------------------

fn session() -> TranscodeSession {
    TranscodeSession {
        id: "play-session".into(),
        item_id: 0,
        media_source_id: 0,
        output_dir: "/tmp/test_playlist".into(),
        input_url: "http://example.invalid/video".into(),
        state: TranscodeState::Running,
        video_codec: "copy".into(),
        audio_codec: "aac".into(),
        audio_stream_index: None,
        subtitle_stream_index: None,
        burn_subtitle: false,
        segment_length: 4,
        last_segment_index: 0,
        start_time_secs: 30,
        playback_offset_secs: 0,
        playback_paused: false,
        source_is_p2p: false,
        runtime_ticks: 120 * 10_000_000,
        is_live: false,
        source_video_codec: Some("h264".into()),
        source_audio_codec: Some("aac".into()),
        source_video_profile: None,
        source_video_level: None,
        source_video_range_type: None,
        source_video_width: None,
        source_video_height: None,
        source_frame_rate: None,
        video_bitrate: None,
        hardware_acceleration_type: None,
    }
}

#[test]
fn resumed_vod_playlist_advertises_start_offset_and_full_seek_map() {
    let playlist = generate_variant_playlist(&session(), "");

    assert!(playlist.contains("#EXT-X-START:TIME-OFFSET=30.000000,PRECISE=YES"));
    assert!(playlist.contains("segment_00000.ts?PlaySessionId=play-session&runtimeTicks=0&actualSegmentLengthTicks=40000000"));
    assert!(playlist.contains("segment_00007.ts?PlaySessionId=play-session&runtimeTicks=280000000&actualSegmentLengthTicks=40000000"));
}

#[test]
fn last_segment_is_as_long_as_what_is_left() {
    let s = TranscodeSession { runtime_ticks: 90_000_000, start_time_secs: 0, ..session() };
    let playlist = generate_variant_playlist(&s, "ApiKey=k");
    assert!(playlist.contains("segment_00002.ts?"), "{playlist}");
    assert!(!playlist.contains("segment_00003.ts?"), "{playlist}");
    assert!(playlist.contains("&runtimeTicks=80000000&actualSegmentLengthTicks=10000000"), "{playlist}");
    assert!(playlist.contains("ApiKey=k"), "{playlist}");
}

#[test]
fn master_playlist_names_the_codecs() {
    let master = generate_master_playlist(&session());
    assert!(master.starts_with("#EXTM3U\n#EXT-X-VERSION:6\n#EXT-X-INDEPENDENT-SEGMENTS\n"));
    assert!(master.ends_with("main.m3u8?PlaySessionId=play-session\n"));
    assert_eq!(hevc_hls_codec_string(Some("Main 10"), Some(153)), "hvc1.2.4.L153.B0");
}

#[test]
fn session_paths_and_address() {
    let s = session();
    assert_eq!(s.master_playlist_path(), "/tmp/test_playlist/master.m3u8");
    assert_eq!(s.variant_playlist_path(), "/tmp/test_playlist/main.m3u8");
    assert_eq!(s.segment_path("segment_00001"), "/tmp/test_playlist/segment_00001.ts");
    assert_eq!(s.init_segment_path(), "/tmp/test_playlist/init.mp4");
    assert!(!s.use_fmp4());
    let hevc = TranscodeSession { source_video_codec: Some("hevc".into()), ..session() };
    assert!(hevc.use_fmp4());
    assert_eq!(hevc.segment_path("segment_00001"), "/tmp/test_playlist/segment_00001.m4s");
    assert_eq!(
        s.transcoding_url(),
        "/videos/00000000000000000000000000000000/master.m3u8?PlaySessionId=play-session&VideoCodec=copy&AudioCodec=aac&SegmentContainer=ts&SegmentLength=4&MediaSourceId=00000000000000000000000000000000"
    );
}

#[test]
fn new_session_has_not_started() {
    let s = TranscodeSession::new(
        "p".into(),
        1,
        2,
        "http://in".into(),
        "/out".into(),
        "copy".into(),
        "aac".into(),
        None,
        None,
        false,
        6,
        100,
        false,
        true,
        None,
        None,
        None,
        None,
        None,
        None,
        None,
        None,
        None,
        None,
    );
    assert!(matches!(s.state, TranscodeState::Starting));
    assert_eq!(s.last_segment_index, 0);
    assert_eq!(s.segment_length, 6);
}

// ---------------------------------------------------------------------------
// Runs of the transcoder
// ---------------------------------------------------------------------------

fn exited(success: bool) -> RunResult {
    RunResult::Exited { success, status: "1".into() }
}

#[test]
fn hardware_failure_is_retried_once_in_software() {
    let mut run = RunState::new(true);
    assert!(matches!(run.after_run(false, &exited(false), ""), NextStep::RetryInSoftware));
    match run.after_run(false, &exited(false), " broken pipe\n") {
        NextStep::Finish(Some(TranscodeState::Error(e))) => {
            assert_eq!(e, "ffmpeg exited with status 1: broken pipe")
        }
        other => panic!("{other:?}"),
    }
}

#[test]
fn live_sources_are_restarted_ten_times() {
    let mut run = RunState::new(false);
    for _ in 0..10 {
        assert!(matches!(run.after_run(true, &exited(true), ""), NextStep::RestartLive));
    }
    match run.after_run(true, &RunResult::Failed("gone".into()), "") {
        NextStep::Finish(Some(TranscodeState::Error(e))) => assert_eq!(
            e,
            "live stream ffmpeg exited after 10 restarts (status error): gone"
        ),
        other => panic!("{other:?}"),
    }
}

#[test]
fn stopped_and_complete_runs_end_the_transcode() {
    let mut run = RunState::new(true);
    assert!(matches!(run.after_run(true, &RunResult::Killed, ""), NextStep::Finish(None)));
    assert!(matches!(
        run.after_run(false, &exited(true), ""),
        NextStep::Finish(Some(TranscodeState::Complete))
    ));
    assert_eq!(start_secs(Some(305_000_000)), 30);
    assert_eq!(start_secs(None), 0);
}

// ---------------------------------------------------------------------------
// Reading a probe
// ---------------------------------------------------------------------------

#[test]
fn videotoolbox_decode_decision_uses_av1_hardware_capability() {
    let vt_no_av1 = VideoToolbox { av1_hw_decode: false };
    let vt_av1 = VideoToolbox { av1_hw_decode: true };

    // AV1 without hw decode → sw decode
    assert!(vt_no_av1.requires_software_decode(Some("av1"), false));
    // AV1 with hw decode → hw decode ok
    assert!(!vt_av1.requires_software_decode(Some("av1"), false));
    // HDR always forces sw decode regardless of av1 hw cap
    assert!(vt_av1.requires_software_decode(Some("h264"), true));
    // Non-HDR h264 with no av1 cap → hw decode ok
    assert!(!vt_no_av1.requires_software_decode(Some("h264"), false));
}

#[test]
fn bit_depth_from_pix_fmt_known_formats() {
    assert_eq!(bit_depth_from_pix_fmt("yuv420p10le"), Some(10));
    assert_eq!(bit_depth_from_pix_fmt("yuv420p12le"), Some(12));
    assert_eq!(bit_depth_from_pix_fmt("yuv444p16le"), Some(16));
    assert_eq!(bit_depth_from_pix_fmt("yuv420p"), Some(8));
    assert_eq!(bit_depth_from_pix_fmt("yuvj420p"), Some(8));
    assert_eq!(bit_depth_from_pix_fmt(""), None);
}

#[test]
fn bit_depth_is_the_suffix_of_a_layout() {
    assert_eq!(bit_depth_from_pix_fmt("yuv410p"), Some(8));
    assert_eq!(bit_depth_from_pix_fmt("yuv411p"), Some(8));
    assert_eq!(bit_depth_from_pix_fmt("yuv420p9be"), Some(9));
    assert_eq!(bit_depth_from_pix_fmt("gbrp14le"), Some(14));
    assert_eq!(bit_depth_from_pix_fmt("gray10le"), Some(10));
    assert_eq!(bit_depth_from_pix_fmt("p010le"), Some(10));
    assert_eq!(bit_depth_from_pix_fmt("yuv444p12"), Some(12));
    assert_eq!(bit_depth_from_pix_fmt("nv21"), Some(8));
    assert_eq!(bit_depth_from_pix_fmt("le"), Some(8));
}

fn probed_stream(kind: &str, codec: &str) -> FfprobeStream {
    FfprobeStream {
        index: 0,
        codec_type: Some(kind.to_string()),
        codec: codec.to_string(),
        friendly_codec: codec.to_string(),
        is_image: false,
        is_text: false,
        codec_tag_string: None,
        profile: None,
        level: None,
        width: None,
        height: None,
        bit_rate: None,
        frame_rate: None,
        color_transfer: None,
        channels: None,
        channel_layout: None,
        sample_rate: None,
        pix_fmt: None,
        bits_per_raw_sample: None,
        language: None,
        title: None,
        default: 0,
        forced: 0,
        hearing_impaired: 0,
        attached_pic: 0,
    }
}

#[test]
fn probe_output_becomes_a_source() {
    let out = FfprobeOutput {
        streams: vec![
            FfprobeStream {
                width: Some(1920),
                height: Some(1080),
                pix_fmt: Some("yuv420p10le".to_string()),
                color_transfer: Some("smpte2084".to_string()),
                ..probed_stream("video", "hevc")
            },
            FfprobeStream {
                index: 1,
                bit_rate: Some("640000".to_string()),
                channels: Some(6),
                language: Some("eng".to_string()),
                ..probed_stream("audio", "ac3")
            },
        ],
        chapters: vec![Chapter {
            title: Some("Intro".to_string()),
            start_ticks: Some(10),
            end_ticks: Some(20),
        }],
        duration_us: Some(1_000_000),
        container: Some("matroska".to_string()),
        bit_rate: Some("5640000".to_string()),
        size: Some("1234".to_string()),
    };
    let (source, segments) = read_probe(&out);
    assert_eq!(source.run_time_ticks, Some(10_000_000));
    assert_eq!(source.size, Some(1234));
    assert_eq!(source.bitrate, Some(5_640_000));
    assert_eq!(source.media_streams.len(), 2);
    let video = source.video_stream().unwrap();
    assert_eq!(video.bit_depth, Some(10));
    // What the audio leaves of the whole.
    assert_eq!(video.bit_rate, Some(5_000_000));
    assert_eq!(segments.intro, Some(Segment { start_ticks: 10, end_ticks: 20 }));
}

#[test]
fn chapters_mark_segments() {
    assert_eq!(chapter_title_to_type("INTRO"), Some(MediaSegmentType::Intro));
    assert_eq!(chapter_title_to_type("Recap"), Some(MediaSegmentType::Recap));
    assert_eq!(chapter_title_to_type("End Credits"), Some(MediaSegmentType::Outro));
    assert_eq!(chapter_title_to_type("Preview"), Some(MediaSegmentType::Preview));
    assert_eq!(chapter_title_to_type("Ad"), Some(MediaSegmentType::Commercial));
    assert_eq!(chapter_title_to_type("Adventure"), None);
    assert_eq!(chapter_title_to_type("Chapter 1"), None);
    assert!(chapters_to_segments(&vec![]).is_empty());
    assert_eq!(nonzero(0), None);
    assert_eq!(nonzero(7), Some(7));
}

#[test]
fn video_bitrate_is_not_guessed_without_the_audio_bitrate() {
    let mut streams = vec![
        MediaStream { type_: Some(MediaStreamType::Video), ..Default::default() },
        MediaStream { type_: Some(MediaStreamType::Audio), ..Default::default() },
    ];
    apply_video_bitrate_fallback(&mut streams, Some(1000));
    assert_eq!(streams[0].bit_rate, None);
    streams[1].bit_rate = Some(300);
    apply_video_bitrate_fallback(&mut streams, Some(1000));
    assert_eq!(streams[0].bit_rate, Some(700));
}

#[test]
fn titles_of_streams() {
    // Characters beyond ASCII have capitals too.
    assert_eq!(first_to_upper("éa"), "Éa");
    assert_eq!(first_to_upper("stereo"), "Stereo");
    assert_eq!(first_to_upper(""), "");
    assert_eq!(video_resolution_text(Some(1920), Some(1080)), Some("1080p".to_string()));
    assert_eq!(video_resolution_text(None, None), None);
    let tags = vec!["English".to_string(), "5.1".to_string()];
    assert_eq!(append_tags_to_title("Director", &tags), "Director - English - 5.1");
    assert_eq!(append_tags_to_title("English", &tags), "English - 5.1");
    assert_eq!(join(&tags, ", "), "English, 5.1");
    let meta = StreamMeta {
        language: Some("eng"),
        codec: Some("ac3"),
        friendly_codec: "Dolby Digital",
        profile: None,
        channels: Some(6),
        channel_layout: Some("5.1"),
        width: None,
        height: None,
        video_range: None,
        is_default: true,
        is_forced: false,
        is_external: false,
        is_hearing_impaired: false,
        title: None,
    };
    assert_eq!(
        display_title_audio(&meta),
        Some("English - Dolby Digital - 5.1 - Default".to_string())
    );
    assert_eq!(
        display_title_subtitle(&StreamMeta { codec: Some("subrip"), ..meta }),
        Some("English - SUBRIP".to_string())
    );
}

// ---------------------------------------------------------------------------
// One source after the other
// ---------------------------------------------------------------------------

fn http_media(id: u128, url: &str) -> Media {
    Media {
        id,
        stream_info: Some(StreamInfo {
            descriptor: StreamDescriptor::http(url.to_string()),
            ..Default::default()
        }),
        ..Default::default()
    }
}

fn http_media_with_filename(id: u128, url: &str, filename: &str) -> Media {
    Media {
        id,
        stream_info: Some(StreamInfo {
            descriptor: StreamDescriptor::http(url.to_string()),
            filename: Some(filename.to_string()),
            ..Default::default()
        }),
        ..Default::default()
    }
}

fn p2p_media(id: u128) -> Media {
    Media {
        id,
        stream_info: Some(StreamInfo {
            descriptor: StreamDescriptor::Torrent {
                info_hash: "abc123".to_string(),
                file_hint: None,
                file_idx: None,
                trackers: vec![],
            },
            ..Default::default()
        }),
        ..Default::default()
    }
}

fn video_probe() -> Option<MediaSourceInfo> {
    Some(MediaSourceInfo {
        media_streams: vec![MediaStream {
            type_: Some(MediaStreamType::Video),
            ..Default::default()
        }],
        ..Default::default()
    })
}

/// Probes one source after the other, with these results in turn; the
/// identifier of the source that is taken, or what is said when none is.
fn run_probes(mut run: ProbeRun<'_>, results: Vec<Option<MediaSourceInfo>>) -> Result<u128, String> {
    let mut results = results.into_iter();
    while let Some(place) = run.next_attempt(0) {
        let media = run.queue[place].0;
        if let Some(Some(probed)) = results.next() {
            if judge_probe(media.runtime, &probed) != ProbeVerdict::TooShort {
                return Ok(media.id);
            }
        }
    }
    Err(run.failure("Movie"))
}

#[test]
fn no_fallback_when_auto_next_stream_false() {
    let all = vec![http_media(1, "http://a.example.com"), http_media(2, "http://b.example.com")];
    let result = select_candidates(&all[0], &all, false, 3, false, 3000);
    assert!(result.is_empty());
}

#[test]
fn excludes_primary_from_candidates() {
    let all = vec![http_media(1, "http://a.example.com"), http_media(2, "http://b.example.com")];
    let result = select_candidates(&all[0], &all, true, 10, false, 3000);
    assert!(result.iter().all(|(m, _)| m.id != all[0].id));
    assert_eq!(result.len(), 1);
    assert_eq!(result[0].1, "http://b.example.com");
}

#[test]
fn p2p_mismatch_excluded() {
    let all = vec![http_media(1, "http://a.example.com"), p2p_media(2)];
    let result = select_candidates(&all[0], &all, true, 10, false, 3000);
    assert!(result.is_empty());
}

#[test]
fn probe_timeout_cap_does_not_override_non_p2p_configuration() {
    assert_eq!(probe_attempt_timeout(&http_media(1, "http://example.com"), 75), 75);
    assert_eq!(probe_attempt_timeout(&p2p_media(1), 75), 30);
    assert_eq!(probe_overall_deadline(&http_media(1, "http://example.com"), 75, 10), None);
    assert_eq!(probe_overall_deadline(&p2p_media(1), 30, 10), Some(125));
}

#[test]
fn resolution_mismatch_excluded_when_restricted() {
    let all = vec![
        http_media_with_filename(1, "http://a.example.com", "Movie.1080p.BluRay.mkv"),
        http_media_with_filename(2, "http://b.example.com", "Movie.720p.BluRay.mkv"),
    ];
    let result = select_candidates(&all[0], &all, true, 10, true, 3000);
    assert!(result.is_empty());
}

#[test]
fn resolution_mismatch_allowed_in_cascade() {
    let all = vec![
        http_media_with_filename(1, "http://a.example.com", "Movie.1080p.BluRay.mkv"),
        http_media_with_filename(2, "http://b.example.com", "Movie.720p.BluRay.mkv"),
    ];
    let result = select_candidates(&all[0], &all, true, 10, false, 3000);
    assert_eq!(result.len(), 1);
}

fn six_streams() -> Vec<Media> {
    let mut all = vec![http_media(1, "http://a.example.com")];
    for i in 0..5u128 {
        all.push(http_media(2 + i, &format!("http://s{i}.example.com")));
    }
    all
}

#[test]
fn max_retries_caps_result() {
    let all = six_streams();
    let result = select_candidates(&all[0], &all, true, 2, true, 3000);
    assert!(result.len() <= 2);
    assert_eq!(result.len(), 2);
}

#[test]
fn cascade_mode_ignores_retry_cap() {
    let all = six_streams();
    let result = select_candidates(&all[0], &all, true, 1, false, 3000);
    assert_eq!(result.len(), 5);
}

#[test]
fn names_are_read_only_as_far_as_they_are_needed() {
    let unreadable = "Movie.320\u{212a}bps.mkv";
    let all = vec![
        http_media_with_filename(1, "http://a.example.com", "Movie.1080p.mkv"),
        http_media_with_filename(2, "http://b.example.com", "Movie.1080p.x264.mkv"),
        http_media_with_filename(3, "http://c.example.com", unreadable),
    ];
    assert!(are_names_readable(&all[0], &all, true, 1, true));
    assert_eq!(select_candidates(&all[0], &all, true, 1, true, 3000).len(), 1);
    assert!(are_names_readable(&all[0], &all, true, 9, false));
    assert_eq!(select_candidates(&all[0], &all, true, 9, false, 3000).len(), 2);
    assert!(!are_names_readable(&all[0], &all, true, 2, true));
    assert!(!are_names_readable(&all[2], &all, true, 1, false));
    assert!(are_names_readable(&all[2], &all, false, 1, true));
    let url = Some("http://a.example.com".to_string());
    assert!(ProbeRun::start(&all[0], url.clone(), 10, true, 2, &all, true, 3000).is_none());
    let run = ProbeRun::start(&all[0], url, 10, true, 1, &all, true, 3000).unwrap();
    assert_eq!(run.queue.len(), 2);
}

#[test]
fn primary_success() {
    let all = vec![http_media(1, "http://a.example.com")];
    let url = Some("http://a.example.com".to_string());
    let run = ProbeRun::new(&all[0], url, 10, false, 0, &all, false, 3000);
    assert_eq!(run_probes(run, vec![video_probe()]), Ok(1));
}

#[test]
fn primary_fails_fallback_succeeds() {
    let all = vec![http_media(1, "http://a.example.com"), http_media(2, "http://b.example.com")];
    let url = Some("http://a.example.com".to_string());
    let run = ProbeRun::new(&all[0], url, 10, true, 5, &all, false, 3000);
    assert_eq!(run_probes(run, vec![None, video_probe()]), Ok(2));
}

#[test]
fn all_fail_returns_error_with_counts() {
    let all = vec![http_media(1, "http://a.example.com"), http_media(2, "http://b.example.com")];
    let url = Some("http://a.example.com".to_string());
    let run = ProbeRun::new(&all[0], url, 10, true, 5, &all, false, 3000);
    let err = run_probes(run, vec![None, None]).unwrap_err();
    assert!(err.contains("tried 2 of 2 streams"), "unexpected error: {err}");
}

#[test]
fn short_duration_skips_to_next() {
    // 1 minute, below the three minutes where the length is not known.
    let short = Some(MediaSourceInfo {
        run_time_ticks: Some(60 * 10_000_000),
        media_streams: vec![MediaStream {
            type_: Some(MediaStreamType::Video),
            ..Default::default()
        }],
        ..Default::default()
    });
    let all = vec![http_media(1, "http://a.example.com"), http_media(2, "http://b.example.com")];
    let url = Some("http://a.example.com".to_string());
    let run = ProbeRun::new(&all[0], url, 10, true, 5, &all, false, 3000);
    assert_eq!(run_probes(run, vec![short, video_probe()]), Ok(2));
}

#[test]
fn no_url_stream_not_counted_as_attempt() {
    let all = vec![http_media(1, "http://a.example.com")];
    let run = ProbeRun::new(&all[0], None, 10, false, 0, &all, false, 3000);
    let err = run_probes(run, vec![]).unwrap_err();
    assert!(err.contains("tried 0 of 1 streams"), "unexpected error: {err}");
}

#[test]
fn cascade_mode_tries_all_streams() {
    let mut all = Vec::new();
    for i in 0..4u128 {
        all.push(http_media(1 + i, &format!("http://s{i}.example.com")));
    }
    let url = Some("http://s0.example.com".to_string());
    let run = ProbeRun::new(&all[0], url, 10, true, 1, &all, false, 3000);
    let err = run_probes(run, vec![None, None, None, None]).unwrap_err();
    assert!(err.contains("tried 4 of 4 streams"), "unexpected error: {err}");
}

#[test]
fn specific_stream_request_falls_back_through_all_streams() {
    let all = vec![
        http_media(1, "http://a.example.com"),
        http_media(2, "http://b.example.com"),
        http_media(3, "http://c.example.com"),
    ];
    let url = Some("http://a.example.com".to_string());
    let run = ProbeRun::new(&all[0], url, 10, true, 5, &all, false, 3000);
    let err = run_probes(run, vec![None, None, None]).unwrap_err();
    assert!(err.contains("tried 3 of 3 streams"), "unexpected error: {err}");
}

#[test]
fn probing_a_torrent_ends_when_the_time_is_over() {
    let all = vec![p2p_media(1), p2p_media(2)];
    let mut run = ProbeRun::new(&all[0], Some("u".to_string()), 60, true, 5, &all, false, 3000);
    assert_eq!(run.timeout_secs, 30);
    assert_eq!(run.deadline_secs, Some(65));
    assert_eq!(run.next_attempt(64_999_999_999), Some(0));
    assert_eq!(run.next_attempt(65_000_000_000), None);
}

#[test]
fn stream_root_passes_through_when_media_is_top_level() {
    let movie = Media { id: 7, kind: MediaKind::Movie, ..Default::default() };
    let other = Media { id: 8, ..Default::default() };
    assert_eq!(resolve_stream_root(&movie, Some(&other)).id, 7);
}

#[test]
fn stream_root_passes_through_for_episode_and_track() {
    for kind in [MediaKind::Episode, MediaKind::Track] {
        let media = Media { id: 7, kind, ..Default::default() };
        assert_eq!(resolve_stream_root(&media, None).id, 7);
    }
}

#[test]
fn stream_root_loads_parent_when_media_is_stream_record() {
    let movie = Media { id: 7, kind: MediaKind::Movie, ..Default::default() };
    let stream = Media { id: 9, kind: MediaKind::Stream, ..Default::default() };
    let root = resolve_stream_root(&stream, Some(&movie));
    assert_eq!(root.id, 7);
    assert!(matches!(root.kind, MediaKind::Movie));
    assert_ne!(root.id, stream.id);
}

#[test]
fn torrents_are_described_without_a_probe() {
    assert_eq!(decide_probe(&p2p_media(1), false), ProbeDecision::Inferred);
    assert_eq!(decide_probe(&http_media(1, "http://a"), false), ProbeDecision::Probe);
    assert_eq!(decide_probe(&http_media(1, "http://a"), true), ProbeDecision::Inferred);
    let cached = Media { probe_data: video_probe(), ..http_media(1, "http://a") };
    assert_eq!(decide_probe(&cached, false), ProbeDecision::Cached);
}
