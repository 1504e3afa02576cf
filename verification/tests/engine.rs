//! The transcoder's command lines.

use remux::playback::engine::{
    build_hls_args, build_progressive_args, ProgressiveTranscodeParams, TranscodeParams,
};
use remux::playback::hw_accel::{NoAccel, Nvenc, Qsv, Vaapi, VideoToolbox};
use remux::playback::media::{EncodingPreset, VideoRangeType};

fn args_contains(args: &[String], flag: &str) -> bool {
    args.iter().any(|a| a == flag)
}

fn arg_after<'a>(args: &'a [String], flag: &str) -> Option<&'a str> {
    args.windows(2)
        .find(|w| w[0] == flag)
        .map(|w| w[1].as_str())
}

fn default_hls(output_dir: &str) -> TranscodeParams {
    TranscodeParams {
        input_url: "http://localhost/test.mkv".into(),
        output_dir: output_dir.into(),
        ..Default::default()
    }
}

fn default_progressive() -> ProgressiveTranscodeParams {
    ProgressiveTranscodeParams {
        input_url: "http://localhost/test.mkv".into(),
        container: "mp4".into(),
        video_codec: "copy".into(),
        audio_codec: "aac".into(),
        start_time_ticks: None,
        max_width: None,
        max_height: None,
        video_bitrate: None,
        audio_bitrate: None,
        audio_channels: None,
        audio_stream_index: None,
        subtitle_stream_index: None,
        burn_subtitle: false,
        subtitle_width: None,
        subtitle_height: None,
        encoding_preset: None,
        source_video_codec: None,
        source_audio_codec: None,
        source_video_range_type: None,
        enable_tonemapping: false,
        enable_vpp_tonemapping: false,
        tonemapping_algorithm: "hable".into(),
        tonemapping_desat: "0.0".into(),
        tonemapping_peak: "0.0".into(),
        allow_hevc_encoding: false,
        allow_av1_encoding: false,
        h264_crf: 23,
        h265_crf: 28,
        normalize_audio_loudness: false,
    }
}

#[test]
fn hls_basic_copy() {
    let dir = "/tmp/test_session";
    let args = build_hls_args(&default_hls(dir), &NoAccel);

    assert_eq!(arg_after(&args, "-c:v"), Some("copy"));
    assert_eq!(arg_after(&args, "-c:a"), Some("aac"));
    assert_eq!(arg_after(&args, "-f"), Some("hls"));
    // Default TS segments — no fmp4 flag
    assert!(!args_contains(&args, "-hls_segment_type"));
    // Playlist and segment paths
    assert!(
        args.iter()
            .any(|a| a.ends_with("main.m3u8"))
    );
    assert!(
        args.iter()
            .any(|a| a.contains("segment_") && a.ends_with(".ts"))
    );
}

#[test]
fn hls_hevc_copy_uses_fmp4() {
    let dir = "/tmp/test_hevc";
    let args = build_hls_args(&TranscodeParams {
        video_codec: "copy".into(),
        source_video_codec: Some("hevc".into()),
        ..default_hls(dir)
    }, &NoAccel);

    assert_eq!(arg_after(&args, "-hls_segment_type"), Some("fmp4"));
    assert_eq!(
        arg_after(&args, "-hls_fmp4_init_filename"),
        Some("init.mp4")
    );
    assert_eq!(arg_after(&args, "-tag:v"), Some("hvc1"));
    assert_eq!(arg_after(&args, "-avoid_negative_ts"), Some("disabled"));
    assert!(args_contains(&args, "-start_at_zero"));
    assert_eq!(
        arg_after(&args, "-hls_segment_options"),
        Some("movflags=+frag_discont")
    );
    // No DoVi range type → dovi_rpu must NOT be injected (would crash on non-HEVC/AV1)
    assert!(
        !args
            .windows(2)
            .any(|w| w[0] == "-bsf:v" && w[1].contains("dovi_rpu"))
    );
    // Segments use .m4s extension
    assert!(
        args.iter()
            .any(|a| a.contains("segment_") && a.ends_with(".m4s"))
    );
}

#[test]
fn hls_hevc_dovi_copy_strips_rpu() {
    let dir = "/tmp/test_hevc_dovi";
    let args = build_hls_args(&TranscodeParams {
        video_codec: "copy".into(),
        source_video_codec: Some("hevc".into()),
        source_video_range_type: Some(VideoRangeType::DoviWithHdr10),
        ..default_hls(dir)
    }, &NoAccel);
    assert_eq!(arg_after(&args, "-tag:v"), Some("hvc1"));
    assert!(
        args.windows(2)
            .any(|w| w[0] == "-bsf:v" && w[1].contains("dovi_rpu")),
        "dovi_rpu bsf must be present for DoVi HEVC copy"
    );
}

#[test]
fn hls_aac_copy_adds_adtstoasc() {
    let dir = "/tmp/test_aac_copy";
    let args = build_hls_args(&TranscodeParams {
        audio_codec: "copy".into(),
        source_audio_codec: Some("aac".into()),
        ..default_hls(dir)
    }, &NoAccel);
    assert!(
        args.windows(2)
            .any(|w| w[0] == "-bsf:a" && w[1] == "aac_adtstoasc"),
        "aac_adtstoasc bsf must be present when copying AAC audio"
    );
}

#[test]
fn hls_aac_transcode_no_adtstoasc() {
    let dir = "/tmp/test_aac_transcode";
    let args = build_hls_args(&TranscodeParams {
        audio_codec: "aac".into(),
        source_audio_codec: Some("aac".into()),
        ..default_hls(dir)
    }, &NoAccel);
    assert!(
        !args
            .windows(2)
            .any(|w| w[0] == "-bsf:a"),
        "aac_adtstoasc must NOT be added when re-encoding audio"
    );
}

#[test]
fn hls_non_aac_copy_no_adtstoasc() {
    let dir = "/tmp/test_ac3_copy";
    let args = build_hls_args(&TranscodeParams {
        audio_codec: "copy".into(),
        source_audio_codec: Some("ac3".into()),
        ..default_hls(dir)
    }, &NoAccel);
    assert!(
        !args
            .windows(2)
            .any(|w| w[0] == "-bsf:a"),
        "aac_adtstoasc must NOT be added for non-AAC audio"
    );
}

#[test]
fn hls_hevc_copy_hvc1_tag_alias() {
    // "hvc1" codec string should also trigger fMP4 path
    let dir = "/tmp/test_hvc1";
    let args = build_hls_args(&TranscodeParams {
        video_codec: "copy".into(),
        source_video_codec: Some("hvc1".into()),
        ..default_hls(dir)
    }, &NoAccel);
    assert_eq!(arg_after(&args, "-hls_segment_type"), Some("fmp4"));
    assert_eq!(arg_after(&args, "-tag:v"), Some("hvc1"));
}

#[test]
fn hls_libx264_transcode_flags() {
    let dir = "/tmp/test_x264";
    let args = build_hls_args(&TranscodeParams {
        video_codec: "libx264".into(),
        ..default_hls(dir)
    }, &NoAccel);

    assert_eq!(arg_after(&args, "-c:v"), Some("libx264"));
    assert_eq!(arg_after(&args, "-crf"), Some("23"));
    assert_eq!(arg_after(&args, "-preset"), Some("ultrafast"));
    assert_eq!(arg_after(&args, "-profile:v"), Some("high"));
    assert_eq!(arg_after(&args, "-tune"), Some("zerolatency"));
    assert_eq!(arg_after(&args, "-pix_fmt"), Some("yuv420p"));
}

#[test]
fn hls_libx264_custom_preset_and_bitrate() {
    let dir = "/tmp/test_x264_br";
    let args = build_hls_args(&TranscodeParams {
        video_codec: "libx264".into(),
        encoding_preset: Some(EncodingPreset::Veryfast),
        video_bitrate: Some(4_000_000),
        ..default_hls(dir)
    }, &NoAccel);

    assert_eq!(arg_after(&args, "-preset"), Some("veryfast"));
    assert_eq!(arg_after(&args, "-maxrate"), Some("4000000"));
    assert_eq!(arg_after(&args, "-bufsize"), Some("8000000"));
}

#[test]
fn hls_seek_offset_placed_before_input() {
    let dir = "/tmp/test_seek";
    let ticks: i64 = 30 * 10_000_000;
    let args = build_hls_args(&TranscodeParams {
        start_time_ticks: Some(ticks),
        ..default_hls(dir)
    }, &NoAccel);

    let ss_pos = args
        .iter()
        .position(|a| a == "-ss")
        .expect("-ss missing");
    let i_pos = args
        .iter()
        .position(|a| a == "-i")
        .expect("-i missing");
    assert!(ss_pos < i_pos, "-ss must come before -i");
    assert_eq!(args[ss_pos + 1], "30.000000");

    // Default segment length is 4 seconds: floor(30 / 4) = 7.
    assert_eq!(arg_after(&args, "-start_number"), Some("7"));
}

#[test]
fn hls_no_seek_start_number_zero() {
    let dir = "/tmp/test_noseek";
    let args = build_hls_args(&default_hls(dir), &NoAccel);
    assert_eq!(arg_after(&args, "-start_number"), Some("0"));
    assert!(!args_contains(&args, "-ss"));
}

#[test]
fn hls_scale_filter_both_dimensions() {
    let dir = "/tmp/test_scale";
    let args = build_hls_args(&TranscodeParams {
        video_codec: "libx264".into(),
        max_width: Some(1920),
        max_height: Some(1080),
        ..default_hls(dir)
    }, &NoAccel);

    let vf = arg_after(&args, "-vf").expect("-vf missing");
    assert!(vf.contains("min(1920,iw)"), "vf: {vf}");
    assert!(vf.contains("min(1080,ih)"), "vf: {vf}");
    assert!(
        vf.contains("force_original_aspect_ratio=decrease"),
        "vf: {vf}"
    );
}

#[test]
fn hls_scale_filter_width_only() {
    let dir = "/tmp/test_scale_w";
    let args = build_hls_args(&TranscodeParams {
        video_codec: "libx264".into(),
        max_width: Some(1280),
        ..default_hls(dir)
    }, &NoAccel);
    let vf = arg_after(&args, "-vf").expect("-vf missing");
    assert!(vf.contains("min(1280,iw)"), "vf: {vf}");
    assert!(vf.contains(":-2"), "vf: {vf}");
}

#[test]
fn hls_audio_bitrate_and_channels() {
    let dir = "/tmp/test_audio";
    let args = build_hls_args(&TranscodeParams {
        audio_bitrate: Some(192_000),
        audio_channels: Some(2),
        ..default_hls(dir)
    }, &NoAccel);

    assert_eq!(arg_after(&args, "-b:a"), Some("192000"));
    assert_eq!(arg_after(&args, "-ac"), Some("2"));
}

#[test]
fn hls_audio_copy_no_bitrate_flags() {
    let dir = "/tmp/test_acopy";
    let args = build_hls_args(&TranscodeParams {
        audio_codec: "copy".into(),
        ..default_hls(dir)
    }, &NoAccel);
    assert_eq!(arg_after(&args, "-c:a"), Some("copy"));
    assert!(
        !args_contains(&args, "-b:a"),
        "must not set -b:a when copying audio"
    );
    assert!(
        !args_contains(&args, "-ac"),
        "must not set -ac when copying audio"
    );
}

#[test]
fn hls_subtitle_burn_forces_reencode_and_filter_complex() {
    let dir = "/tmp/test_sub";
    let args = build_hls_args(&TranscodeParams {
        video_codec: "copy".into(),
        burn_subtitle: true,
        subtitle_stream_index: Some(2),
        ..default_hls(dir)
    }, &NoAccel);

    // copy → libx264 forced by subtitle burn
    assert_eq!(arg_after(&args, "-c:v"), Some("libx264"));
    // filter_complex with overlay
    let fc = arg_after(&args, "-filter_complex").expect("-filter_complex missing");
    assert!(fc.contains("overlay"), "filter_complex: {fc}");
    assert!(
        fc.contains("[0:2]"),
        "filter_complex should reference sub stream: {fc}"
    );
    // map [v] output label
    assert!(
        args.windows(2)
            .any(|w| w[0] == "-map" && w[1] == "[v]")
    );
}

#[test]
fn hls_subtitle_burn_with_scale_in_filter_complex() {
    let dir = "/tmp/test_sub_scale";
    let args = build_hls_args(&TranscodeParams {
        video_codec: "libx264".into(),
        burn_subtitle: true,
        subtitle_stream_index: Some(3),
        max_width: Some(1280),
        max_height: Some(720),
        ..default_hls(dir)
    }, &NoAccel);

    let fc = arg_after(&args, "-filter_complex").expect("-filter_complex missing");
    assert!(
        fc.contains("scale=1280:720:fast_bilinear"),
        "sub scale: {fc}"
    );
    assert!(fc.contains("min(1280,iw)"), "video scale: {fc}");
    assert!(fc.contains("overlay"), "overlay: {fc}");
}

#[test]
fn hls_nvenc_hardware_accel() {
    let dir = "/tmp/test_nvenc";
    let args = build_hls_args(&TranscodeParams {
        video_codec: "libx264".into(),
        ..default_hls(dir)
    }, &Nvenc);

    // Input flag before -i
    let hwaccel_pos = args
        .iter()
        .position(|a| a == "-hwaccel")
        .expect("-hwaccel missing");
    let i_pos = args
        .iter()
        .position(|a| a == "-i")
        .expect("-i missing");
    assert!(hwaccel_pos < i_pos);
    assert_eq!(args[hwaccel_pos + 1], "cuda");
    // Encoder remapped
    assert_eq!(arg_after(&args, "-c:v"), Some("h264_nvenc"));
}

#[test]
fn hls_videotoolbox_software_decode_keeps_hardware_encode() {
    let dir = "/tmp/test_videotoolbox_hdr";
    let args = build_hls_args(&TranscodeParams {
        video_codec: "h264".into(),
        source_video_codec: Some("hevc".into()),
        source_video_range_type: Some(VideoRangeType::Hdr10),
        ..default_hls(dir)
    }, &VideoToolbox { av1_hw_decode: false, });

    assert!(
        !args
            .iter()
            .any(|arg| arg == "-hwaccel"),
        "HDR input must stay in system memory for CPU tone mapping: {args:?}"
    );
    assert_eq!(arg_after(&args, "-c:v"), Some("h264_videotoolbox"));
}

#[test]
fn hls_vaapi_hardware_accel() {
    let dir = "/tmp/test_vaapi";
    let args = build_hls_args(&TranscodeParams {
        video_codec: "libx264".into(),
        ..default_hls(dir)
    }, &Vaapi { device: "/dev/dri/renderD128".into(), driver: "iHD".into(), });

    // init_hw_device with driver= instead of legacy -vaapi_device
    assert!(
        args.windows(2)
            .any(|w| w[0] == "-init_hw_device"
                && w[1].contains("vaapi=va:")
                && w[1].contains("/dev/dri/renderD128")
                && w[1].contains("driver=iHD")),
        "expected init_hw_device vaapi with iHD driver, got: {args:?}"
    );
    assert!(
        args.windows(2)
            .any(|w| w[0] == "-filter_hw_device" && w[1] == "va"),
        "expected -filter_hw_device va"
    );
    // legacy -vaapi_device must NOT appear
    assert!(
        !args
            .windows(2)
            .any(|w| w[0] == "-vaapi_device")
    );
    // Encoder remapped
    assert_eq!(arg_after(&args, "-c:v"), Some("h264_vaapi"));
}

#[test]
fn hls_codec_list_defaults_to_h264() {
    let dir = "/tmp/test_codec_list";
    let args = build_hls_args(&TranscodeParams {
        video_codec: "av1,hevc,vp9,h264".into(),
        ..default_hls(dir)
    }, &NoAccel);
    assert_eq!(arg_after(&args, "-c:v"), Some("libx264"));
}

#[test]
fn hls_vaapi_no_driver_omits_driver_option() {
    let dir = "/tmp/test_vaapi_amd";
    let args = build_hls_args(&TranscodeParams {
        video_codec: "libx264".into(),
        ..default_hls(dir)
    }, &Vaapi { device: "/dev/dri/renderD128".into(), driver: String::new(), });

    let init_dev = args
        .windows(2)
        .find(|w| w[0] == "-init_hw_device")
        .expect("init_hw_device missing");
    assert!(
        !init_dev[1].contains("driver="),
        "unexpected driver= in {}",
        init_dev[1]
    );
    assert!(init_dev[1].contains("vaapi=va:"));
}

#[test]
fn hls_qsv_hardware_accel() {
    let dir = "/tmp/test_qsv";
    let args = build_hls_args(&TranscodeParams {
        video_codec: "libx264".into(),
        ..default_hls(dir)
    }, &Qsv { vaapi_device: "/dev/dri/renderD128".into(), vaapi_driver: "iHD".into(), });

    // VAAPI device init with iHD driver
    assert!(
        args.windows(2)
            .any(|w| w[0] == "-init_hw_device"
                && w[1].starts_with("vaapi=va:")
                && w[1].contains("driver=iHD")),
        "expected VAAPI init with iHD: {args:?}"
    );
    // QSV device derived from VAAPI
    assert!(
        args.windows(2)
            .any(|w| w[0] == "-init_hw_device" && w[1] == "qsv=qs@va"),
        "expected qsv=qs@va init"
    );
    // filter_hw_device points at QSV
    assert!(
        args.windows(2)
            .any(|w| w[0] == "-filter_hw_device" && w[1] == "qs"),
        "expected -filter_hw_device qs"
    );
    // VAAPI hwaccel (not qsv) for decode
    assert!(
        args.windows(2)
            .any(|w| w[0] == "-hwaccel" && w[1] == "vaapi"),
        "expected -hwaccel vaapi"
    );
    assert!(
        args.windows(2)
            .any(|w| w[0] == "-hwaccel_output_format" && w[1] == "vaapi"),
        "expected -hwaccel_output_format vaapi"
    );
    // Encoder remapped to QSV
    assert_eq!(arg_after(&args, "-c:v"), Some("h264_qsv"));
    // scale_vaapi in -vf
    let vf = arg_after(&args, "-vf").expect("-vf missing for QSV");
    assert!(
        vf.contains("scale_vaapi"),
        "expected scale_vaapi in vf: {vf}"
    );
    assert!(
        vf.contains("hwmap=derive_device=qsv"),
        "expected hwmap in vf: {vf}"
    );
    assert!(vf.contains("format=qsv"), "expected format=qsv in vf: {vf}");
}

#[test]
fn progressive_basic_copy() {
    let args = build_progressive_args(&default_progressive(), &NoAccel);

    assert_eq!(arg_after(&args, "-c:v"), Some("copy"));
    assert_eq!(arg_after(&args, "-c:a"), Some("aac"));
    // Copy into mp4 is promoted to matroska to avoid bsf issues
    assert_eq!(arg_after(&args, "-f"), Some("matroska"));
    assert!(args.last() == Some(&"pipe:1".to_string()));
}

#[test]
fn progressive_mp4_transcode_uses_mp4_format() {
    let args = build_progressive_args(&ProgressiveTranscodeParams {
        video_codec: "libx264".into(),
        container: "mp4".into(),
        ..default_progressive()
    }, &NoAccel);
    assert_eq!(arg_after(&args, "-f"), Some("mp4"));
    assert!(args_contains(&args, "-movflags"));
}

#[test]
fn progressive_ts_container() {
    let args = build_progressive_args(&ProgressiveTranscodeParams {
        container: "ts".into(),
        ..default_progressive()
    }, &NoAccel);
    assert_eq!(arg_after(&args, "-f"), Some("mpegts"));
}

#[test]
fn progressive_seek_before_input() {
    let ticks: i64 = 60 * 10_000_000;
    let args = build_progressive_args(&ProgressiveTranscodeParams {
        start_time_ticks: Some(ticks),
        ..default_progressive()
    }, &NoAccel);
    let ss_pos = args
        .iter()
        .position(|a| a == "-ss")
        .expect("-ss missing");
    let i_pos = args
        .iter()
        .position(|a| a == "-i")
        .expect("-i missing");
    assert!(ss_pos < i_pos);
    assert_eq!(args[ss_pos + 1], "60.000000");
}

#[test]
fn progressive_hevc_copy_adds_hvc1_tag() {
    let args = build_progressive_args(&ProgressiveTranscodeParams {
        source_video_codec: Some("hevc".into()),
        ..default_progressive()
    }, &NoAccel);
    assert_eq!(arg_after(&args, "-tag:v"), Some("hvc1"));
}

#[test]
fn progressive_nvenc_remaps_encoder() {
    let args = build_progressive_args(&ProgressiveTranscodeParams {
        video_codec: "libx264".into(),
        container: "mp4".into(),
        ..default_progressive()
    }, &Nvenc);
    assert_eq!(arg_after(&args, "-c:v"), Some("h264_nvenc"));
}

#[test]
fn progressive_subtitle_burn_filter_complex() {
    let args = build_progressive_args(&ProgressiveTranscodeParams {
        video_codec: "copy".into(),
        burn_subtitle: true,
        subtitle_stream_index: Some(1),
        ..default_progressive()
    }, &NoAccel);
    // copy → libx264 forced
    assert_eq!(arg_after(&args, "-c:v"), Some("libx264"));
    let fc = arg_after(&args, "-filter_complex").expect("-filter_complex missing");
    assert!(fc.contains("overlay"), "fc: {fc}");
}

#[test]
fn progressive_audio_channels_and_bitrate() {
    let args = build_progressive_args(&ProgressiveTranscodeParams {
        audio_codec: "aac".into(),
        audio_bitrate: Some(256_000),
        audio_channels: Some(6),
        ..default_progressive()
    }, &NoAccel);
    assert_eq!(arg_after(&args, "-b:a"), Some("256000"));
    assert_eq!(arg_after(&args, "-ac"), Some("6"));
}

#[test]
fn progressive_reconnect_flags_present() {
    let args = build_progressive_args(&default_progressive(), &NoAccel);
    assert!(args_contains(&args, "-reconnect"));
    assert!(args_contains(&args, "-reconnect_at_eof"));
    assert!(args_contains(&args, "-reconnect_streamed"));
}

#[test]
fn hls_loudnorm_added_when_transcoding_audio() {
    let dir = "/tmp/test_session";
    let args = build_hls_args(&TranscodeParams {
        audio_codec: "aac".into(),
        normalize_audio_loudness: true,
        ..default_hls(dir)
    }, &NoAccel);
    assert!(args_contains(&args, "loudnorm=I=-14:TP=-1:LRA=11"));
}

#[test]
fn hls_loudnorm_absent_when_disabled() {
    let dir = "/tmp/test_session";
    let args = build_hls_args(&TranscodeParams {
        audio_codec: "aac".into(),
        normalize_audio_loudness: false,
        ..default_hls(dir)
    }, &NoAccel);
    assert!(!args_contains(&args, "loudnorm=I=-14:TP=-1:LRA=11"));
}

#[test]
fn hls_loudnorm_absent_when_audio_copy() {
    let dir = "/tmp/test_session";
    let args = build_hls_args(&TranscodeParams {
        audio_codec: "copy".into(),
        normalize_audio_loudness: true,
        ..default_hls(dir)
    }, &NoAccel);
    assert!(!args_contains(&args, "loudnorm=I=-14:TP=-1:LRA=11"));
}

#[test]
fn progressive_loudnorm_added_when_transcoding_audio() {
    let args = build_progressive_args(&ProgressiveTranscodeParams {
        audio_codec: "aac".into(),
        normalize_audio_loudness: true,
        ..default_progressive()
    }, &NoAccel);
    assert!(args_contains(&args, "loudnorm=I=-14:TP=-1:LRA=11"));
}

#[test]
fn progressive_loudnorm_absent_when_disabled() {
    let args = build_progressive_args(&ProgressiveTranscodeParams {
        audio_codec: "aac".into(),
        normalize_audio_loudness: false,
        ..default_progressive()
    }, &NoAccel);
    assert!(!args_contains(&args, "loudnorm=I=-14:TP=-1:LRA=11"));
}

#[test]
fn progressive_loudnorm_absent_when_audio_copy() {
    let args = build_progressive_args(&ProgressiveTranscodeParams {
        audio_codec: "copy".into(),
        normalize_audio_loudness: true,
        ..default_progressive()
    }, &NoAccel);
    assert!(!args_contains(&args, "loudnorm=I=-14:TP=-1:LRA=11"));
}

#[test]
fn hls_command_line_in_full() {
    let args = build_hls_args(
        &TranscodeParams {
            audio_stream_index: Some(3),
            start_time_ticks: Some(305_000_000),
            ..default_hls("/tmp/full")
        },
        &NoAccel,
    );
    let expected = [
        "-v", "error", "-analyzeduration", "1000000", "-probesize", "1000000", "-ss",
        "30.500000", "-copyts", "-i", "http://localhost/test.mkv", "-avoid_negative_ts",
        "disabled", "-max_muxing_queue_size", "2048", "-map", "0:v:0", "-map", "0:3", "-c:v",
        "copy", "-c:a", "aac", "-b:a", "128000", "-f", "hls", "-hls_time", "4",
        "-start_number", "7", "-hls_segment_filename", "/tmp/full/segment_%05d.ts",
        "-hls_playlist_type", "event", "-hls_list_size", "0", "/tmp/full/main.m3u8",
    ];
    assert_eq!(args, expected);
}

#[test]
fn live_sources_are_not_sought_in() {
    let args = build_hls_args(
        &TranscodeParams {
            input_url: "rtsp://camera/1".into(),
            is_live: true,
            start_time_ticks: Some(300_000_000),
            output_dir: "/tmp/live".into(),
            ..Default::default()
        },
        &NoAccel,
    );
    assert!(!args_contains(&args, "-ss"));
    assert_eq!(arg_after(&args, "-rtsp_transport"), Some("tcp"));
    assert_eq!(arg_after(&args, "-timeout"), Some("5000000"));
    assert_eq!(arg_after(&args, "-i"), Some("rtsp://camera/1"));
}

#[test]
fn progressive_command_line_in_full() {
    let args = build_progressive_args(
        &ProgressiveTranscodeParams {
            container: "webm".into(),
            audio_codec: "opus".into(),
            subtitle_stream_index: Some(2),
            ..default_progressive()
        },
        &NoAccel,
    );
    let expected = [
        "-v", "error", "-analyzeduration", "5000000", "-probesize", "5000000", "-reconnect",
        "1", "-reconnect_at_eof", "1", "-reconnect_streamed", "1", "-reconnect_delay_max", "5",
        "-i", "http://localhost/test.mkv", "-map", "0:v:0", "-map", "0:a?", "-map", "0:2?",
        "-c:v", "copy", "-c:a", "libopus", "-strict", "unofficial", "-f", "webm", "pipe:1",
    ];
    assert_eq!(args, expected);
}

#[test]
fn hdr_is_tonemapped_by_the_cpu_where_enabled() {
    let args = build_hls_args(
        &TranscodeParams {
            video_codec: "h264".into(),
            source_video_range_type: Some(VideoRangeType::Hdr10),
            enable_tonemapping: true,
            ..default_hls("/tmp/hdr")
        },
        &NoAccel,
    );
    assert_eq!(
        arg_after(&args, "-vf"),
        Some("tonemapx=tonemap=hable:desat=0.0:peak=0.0:t=bt709:m=bt709:p=bt709:format=yuv420p")
    );
}
