//! Streams, ranges and what clients are answered.

use remux::proxy::{
    answer_file, answer_proxied, valid_headers, HeaderSource, CONNECT_TIMEOUT_SECS, KEEPALIVE_SECS,
    POOL_IDLE_SECS, POOL_MAX_IDLE_PER_HOST, USER_AGENT,
};
use remux::release_name::is_readable_release;
use remux::stream::{
    default_trackers, extract_btih, is_tracker_url, mime_from_path, min_screen_size,
    parse_open_or_finite_range, parse_range, upstream_range_header, valid_trackers, RangeError,
    StreamDescriptor, StreamInfo, StreamSource, TrackerUrl,
};
use remux::urls::extract_query_param;
use std::time::Duration;

#[test]
fn mime_from_path_video() {
    assert_eq!(mime_from_path("movie.mkv"), "video/x-matroska");
    assert_eq!(mime_from_path("movie.mp4"), "video/mp4");
    assert_eq!(mime_from_path("movie.m4v"), "video/mp4");
    assert_eq!(mime_from_path("movie.mov"), "video/quicktime");
    assert_eq!(mime_from_path("movie.avi"), "video/x-msvideo");
    assert_eq!(mime_from_path("movie.webm"), "video/webm");
    assert_eq!(mime_from_path("movie.ts"), "video/mp2t");
    assert_eq!(mime_from_path("movie.MKV"), "video/x-matroska");
}

#[test]
fn mime_from_path_audio() {
    assert_eq!(mime_from_path("track.mp3"), "audio/mpeg");
    assert_eq!(mime_from_path("track.flac"), "audio/flac");
    assert_eq!(mime_from_path("track.m4a"), "audio/mp4");
    assert_eq!(mime_from_path("track.ogg"), "audio/ogg");
    assert_eq!(mime_from_path("track.opus"), "audio/opus");
    assert_eq!(mime_from_path("track.wav"), "audio/wav");
    assert_eq!(mime_from_path("track.aac"), "audio/aac");
}

#[test]
fn mime_from_path_fallback() {
    assert_eq!(mime_from_path("file.m3u8"), "application/octet-stream");
    assert_eq!(mime_from_path("file.txt"), "application/octet-stream");
    assert_eq!(mime_from_path("noextension"), "application/octet-stream");
}

#[test]
fn tracker_url_validates_absolute_urls() {
    assert!(is_tracker_url("udp://tracker.opentrackr.org:1337/announce"));
    assert!(is_tracker_url("udp://opentor.net:6969"));
    assert!(is_tracker_url("https://private.example/announce"));
    assert!(is_tracker_url("http://tracker.example:8080/announce"));

    // Missing announce paths for HTTP, missing UDP ports, relative paths,
    // unsupported schemes, and non-URLs are rejected.
    assert!(!is_tracker_url("https://tracker.example"));
    assert!(!is_tracker_url("udp://tracker.example"));
    assert!(!is_tracker_url("/announce"));
    assert!(!is_tracker_url("tracker:udp://x/announce"));
    assert!(!is_tracker_url("not-a-tracker"));
    assert!(
        TrackerUrl::try_new("udp://tracker.opentrackr.org:1337/announce".to_string()).is_ok()
    );
    assert!(TrackerUrl::try_new("not-a-tracker".to_string()).is_err());
}

#[test]
fn torrent_descriptor_ignores_invalid_persisted_trackers() {
    let trackers = valid_trackers(vec![
        "udp://opentor.net:6969".to_string(),
        "not-a-tracker".to_string(),
    ]);
    let descriptor = StreamDescriptor::Torrent {
        info_hash: "abc".to_string(),
        file_hint: None,
        file_idx: Some(0),
        trackers,
    };
    let StreamDescriptor::Torrent { trackers, .. } = descriptor else {
        panic!("expected torrent descriptor");
    };
    assert_eq!(trackers.len(), 1);
    assert_eq!(trackers[0].as_str(), "udp://opentor.net:6969");
}

#[test]
fn parses_open_and_finite_http_ranges() {
    assert_eq!(parse_open_or_finite_range("bytes=10-"), Some((10, None)));
    assert_eq!(parse_open_or_finite_range("bytes=10-99"), Some((10, Some(99))));
    assert_eq!(parse_open_or_finite_range("bytes=-99"), None);
    assert_eq!(parse_open_or_finite_range("bytes=99-10"), None);
}

#[test]
fn stream_proxy_client_builds_without_panic() {
    let _ = reqwest::Client::builder()
        .user_agent(USER_AGENT)
        .connect_timeout(Duration::from_secs(CONNECT_TIMEOUT_SECS))
        .pool_max_idle_per_host(POOL_MAX_IDLE_PER_HOST)
        .pool_idle_timeout(Duration::from_secs(POOL_IDLE_SECS))
        .tcp_keepalive(Duration::from_secs(KEEPALIVE_SECS))
        .build()
        .expect("failed to build stream proxy client");
}

#[test]
fn torrent_magnet_uses_stream_filename_when_descriptor_hint_is_missing() {
    let info = StreamInfo {
        descriptor: StreamDescriptor::Torrent {
            info_hash: "aaaaaaaaaaaaaaaaaaaaaaaaaaaaaaaaaaaaaaaa".to_string(),
            file_hint: None,
            file_idx: Some(4),
            trackers: Vec::new(),
        },
        filename: Some("Bundle/Movie Two.mkv".to_string()),
        ..Default::default()
    };

    let magnet = info.torrent_magnet().expect("torrent magnet");
    assert!(magnet.contains("file_idx=4"));
    assert!(magnet.contains("file=Bundle%2FMovie%20Two.mkv"));
}

#[test]
fn ranges_of_files() {
    assert_eq!(parse_range("bytes=0-99", 1000), Ok((0, 99)));
    assert_eq!(parse_range("bytes=500-", 1000), Ok((500, 999)));
    assert_eq!(parse_range("bytes=-100", 1000), Ok((900, 999)));
    assert_eq!(parse_range("bytes=-5000", 1000), Ok((0, 999)));
    assert_eq!(parse_range("bytes=10-5000", 1000), Ok((10, 999)));
    assert_eq!(parse_range("items=0-1", 1000), Err(RangeError::MissingPrefix));
    assert_eq!(parse_range("bytes=5", 1000), Err(RangeError::Malformed));
    assert_eq!(parse_range("bytes=a-b", 1000), Err(RangeError::BadNumber));
}

fn text_of(source: Option<&HeaderSource>) -> Option<String> {
    match source {
        Some(HeaderSource::Text(s)) => Some(s.clone()),
        _ => None,
    }
}

#[test]
fn torrent_proxy_bounds_finite_ranges() {
    assert_eq!(
        upstream_range_header(Some("bytes=0-1023"), true),
        Some("bytes=0-".to_string())
    );
    let names = vec!["content-range".to_string(), "accept-ranges".to_string()];
    let answer = answer_proxied(
        Some("bytes=0-1023"),
        true,
        true,
        Some("bytes 0-2047/2048"),
        &names,
        &vec![],
    );
    assert_eq!(answer.range.map(|r| r.length), Some(1024));
    assert_eq!(text_of(answer.headers.get("content-length")), Some("1024".to_string()));
    assert_eq!(
        text_of(answer.headers.get("content-range")),
        Some("bytes 0-1023/2048".to_string())
    );
    assert!(matches!(answer.headers.get("accept-ranges"), Some(HeaderSource::Upstream(1))));
}

#[test]
fn torrent_proxy_does_not_rewrite_full_responses_as_partial() {
    let answer = answer_proxied(Some("bytes=0-1023"), true, false, None, &vec![], &vec![]);
    assert!(answer.range.is_none());
    assert!(answer.headers.get("content-range").is_none());
}

#[test]
fn stream_proxy_client_forwards_range_and_returns_206() {
    assert_eq!(
        upstream_range_header(Some("bytes=0-1023"), false),
        Some("bytes=0-1023".to_string())
    );
    let names = vec!["content-range".to_string()];
    let answer = answer_proxied(
        Some("bytes=0-1023"),
        false,
        true,
        Some("bytes 0-1023/1048576"),
        &names,
        &vec![],
    );
    assert!(answer.range.is_none());
    assert!(matches!(answer.headers.get("content-range"), Some(HeaderSource::Upstream(0))));
}

#[test]
fn names_of_headers_are_tokens() {
    let named = |name: &str| valid_headers(&vec![(name.to_string(), "x".to_string())]);
    let all = "!#$%&'*+-.^_`|~09AZaz";
    assert_eq!(named(all)[0].0, "!#$%&'*+-.^_`|~09azaz");
    for bad in ["", " ", "a:b", "a/b", "a\"b", "a,b", "(a)", "a@b", "\u{e9}", "a\u{7f}"] {
        assert!(named(bad).is_empty(), "{bad:?}");
    }
    let longest = "A".repeat(65_535);
    assert_eq!(named(&longest)[0].0, "a".repeat(65_535));
    assert!(named(&"a".repeat(65_536)).is_empty());
}

#[test]
fn headers_of_the_provider_come_last_and_have_to_be_valid() {
    let raw = vec![
        ("Content-Type".to_string(), "video/mp4".to_string()),
        ("bad name".to_string(), "x".to_string()),
        ("X-Bad".to_string(), "a\nb".to_string()),
        ("X-Tab".to_string(), "a\tb".to_string()),
    ];
    assert_eq!(
        valid_headers(&raw),
        vec![
            ("content-type".to_string(), "video/mp4".to_string()),
            ("x-tab".to_string(), "a\tb".to_string()),
        ]
    );
    let names = vec!["content-type".to_string(), "set-cookie".to_string()];
    let answer = answer_proxied(None, false, false, None, &names, &raw);
    assert_eq!(text_of(answer.headers.get("content-type")), Some("video/mp4".to_string()));
    assert!(answer.headers.get("set-cookie").is_none());
    let plain = answer_proxied(None, false, false, None, &vec![], &vec![]);
    assert_eq!(
        text_of(plain.headers.get("content-type")),
        Some("application/octet-stream".to_string())
    );
}

#[test]
fn files_are_answered_whole_or_in_part() {
    let whole = answer_file("/a/movie.mkv", None, 1000).unwrap();
    assert_eq!((whole.start, whole.length, whole.content_range), (0, 1000, None));
    assert_eq!(whole.content_type, "video/x-matroska");
    let part = answer_file("/a/movie.mkv", Some("bytes=100-199"), 1000).unwrap();
    assert_eq!((part.start, part.length), (100, 100));
    assert_eq!(part.content_range, Some("bytes 100-199/1000".to_string()));
    assert_eq!(
        answer_file("/a/movie.mkv", Some("100-199"), 1000).unwrap_err(),
        RangeError::MissingPrefix
    );
}

#[test]
fn hashes_and_parameters_are_read_from_addresses() {
    let hash = "AAAAAAAAAAAAAAAAAAAAAAAAAAAAAAAAAAAAAAAA";
    let magnet = format!("magnet:?xt=urn:btih:{hash}");
    assert_eq!(extract_btih(&magnet), Some(hash.to_lowercase()));
    assert_eq!(extract_btih("nonsense"), None);
    assert_eq!(
        extract_query_param("http://h/p?a=1&b=x%20y", "b"),
        Some("x y".to_string())
    );
    assert_eq!(extract_query_param("http://h/p?a=1", "b"), None);
}

#[test]
fn descriptors_say_where_they_are_read() {
    let http = StreamDescriptor::http("http://h/a.mkv".to_string());
    assert_eq!(http.server_input(1, 3000), "http://h/a.mkv");
    assert_eq!(http.as_http_url(), Some("http://h/a.mkv"));
    let torrent = StreamDescriptor::Torrent {
        info_hash: "abc".to_string(),
        file_hint: None,
        file_idx: None,
        trackers: vec![],
    };
    assert!(torrent.server_input(1, 3000).starts_with("http://127.0.0.1:3000/"));
    assert!(torrent
        .server_input(1, 3000)
        .contains("00000000-0000-0000-0000-000000000001"));
    assert_eq!(torrent.as_http_url(), None);
    assert!(matches!(torrent.into_source(), StreamSource::Torrent(_)));
    assert_eq!(default_trackers().len(), 7);
}

#[test]
fn resolutions_are_read_from_release_names() {
    let info = StreamInfo {
        filename: Some("Movie.2020.1080p.BluRay.mkv".to_string()),
        ..Default::default()
    };
    assert_eq!(info.resolution_tag(), Some("1080p".to_string()));
    let sizes = vec!["1080p".to_string(), "720p".to_string()];
    assert_eq!(min_screen_size(&sizes), Some("720p".to_string()));
}

fn tag(name: &str) -> Option<String> {
    assert!(is_readable_release(name), "{name}");
    let info = StreamInfo { name: Some(name.to_string()), ..Default::default() };
    assert!(info.is_readable());
    info.resolution_tag()
}

#[test]
fn names_in_other_scripts_are_read() {
    assert_eq!(tag("Am\u{e9}lie.2001.1080p.BluRay.x264-GRP.mkv"), Some("1080p".to_string()));
    assert_eq!(tag("\u{8fdb}\u{51fb}\u{7684}\u{5de8}\u{4eba}.S01E01.720p.mkv"), Some("720p".to_string()));
    assert_eq!(tag("\u{e9}S01E01.2160p.mkv"), Some("2160p".to_string()));
    assert_eq!(tag("\u{c9}t\u{e9} - \u{e9}\u{e9} - 480p.mkv"), Some("480p".to_string()));
    assert_eq!(tag("Movie.REPACK2.Disc 1-3.1080p-\u{b5}GRP.mkv"), Some("1080p".to_string()));
    assert_eq!(tag("\u{130}stanbul.H264.384Kbps.1080p.mkv"), Some("1080p".to_string()));
    assert_eq!(tag("Movie \u{2003}GRP"), None);
    assert_eq!(tag(""), None);
}

#[test]
fn names_that_only_look_hard_are_read() {
    assert_eq!(tag("A.REPACK1080p.720p.mkv"), Some("720p".to_string()));
    assert_eq!(tag("Movie.REPACK4294967295.1080p.mkv"), Some("1080p".to_string()));
    assert_eq!(tag("Movie.RERIP1000.PROPER.1080p.mkv"), Some("1080p".to_string()));
    assert_eq!(tag("\u{7b2c}\u{ff11}\u{ff12}\u{8a71}.1080p.mkv"), Some("1080p".to_string()));
    assert_eq!(tag("S\u{661}\u{662}E\u{663}.1080p.mkv"), Some("1080p".to_string()));
    assert_eq!(tag("20\u{662}\u{663}.\u{661}\u{662}.\u{663}\u{664}.1080p.mkv"), Some("1080p".to_string()));
    assert_eq!(tag("Movie.\u{663}kbps.1080p.mkv"), Some("1080p".to_string()));
    assert_eq!(tag("Movie.a320\u{212a}bps.1080p.mkv"), Some("1080p".to_string()));
    assert_eq!(tag("4\u{212a}.Movie.1080p.mkv"), Some("1080p".to_string()));
    assert_eq!(tag("\u{17f}01E02.1080p.mkv"), Some("1080p".to_string()));
    assert_eq!(tag("Movie.Disc 3-1.Disc 0000001-0000003.1080p.mkv"), Some("1080p".to_string()));
    assert_eq!(tag("Movie.Disc 1-99999999999.1080p.mkv"), Some("1080p".to_string()));
    assert_eq!(tag("\u{e9} -  - Show.1080p.mkv"), Some("1080p".to_string()));
    assert_eq!(tag("Movie.1080p.\u{e9}-ab"), Some("1080p".to_string()));
    assert_eq!(tag("Movie.1080p.....\u{e9}-ab"), Some("1080p".to_string()));
    assert_eq!(tag("Movie.1080p.Dual.\u{e9}-ab"), Some("1080p".to_string()));
    assert_eq!(tag("REPACK4294967295/Movie.PROPER.1080p.mkv"), Some("1080p".to_string()));
}

#[test]
fn names_that_cannot_be_read_are_told() {
    // Bit rates with digits of other scripts or the Kelvin sign.
    assert!(!is_readable_release("a\u{663}kbps"));
    assert!(!is_readable_release("\u{663}.5 Mbitx"));
    assert!(!is_readable_release("a1\u{ff11}kbps"));
    assert!(!is_readable_release("320\u{212a}bps"));
    assert!(!is_readable_release("a1.5\u{2003}\u{212a}BIT\u{17f}"));
    assert!(is_readable_release("\u{663}.5 Mbits"));
    assert!(is_readable_release("a\u{663}.448kbps"));
    // Seasons that are joined by a long s.
    assert!(!is_readable_release("S01\u{17f}02"));
    assert!(!is_readable_release("\u{17f}01S02"));
    // Numbers of repacks are added up, and ranges of discs are listed.
    assert!(!is_readable_release("Movie.Repack4294967295.PROPER.1080p"));
    assert!(!is_readable_release("Movie.RERIP4294967295.repac\u{212a}.1080p"));
    assert!(!is_readable_release("Movie.RERIP4294967294.Real"));
    assert!(is_readable_release("Movie.RERIP4294967294.PROPER.1080p"));
    assert!(!is_readable_release("Movie.Disc 1-4294967295"));
    assert!(!is_readable_release("Movie.S1D2&1-9999999"));
    assert!(!is_readable_release("Movie.Di\u{17f}1-1000001"));
    assert!(is_readable_release("Movie.Disc 1-1000000"));
    assert!(is_readable_release("Movie.1-4294967295"));
    // Separators without a title between them, and endings that are misplaced.
    assert!(!is_readable_release("Show -  - \u{e9}\u{e9}"));
    assert!(is_readable_release("Show -  - ee"));
    assert!(!is_readable_release("Show...\u{e9}-ab"));
    assert!(is_readable_release("Show...\u{e9}abc-ab"));
    assert!(!is_readable_release("S01E01.Title.m\u{212a}v"));
    let info = StreamInfo {
        filename: Some("320\u{212a}bps".to_string()),
        name: Some("Movie.1080p".to_string()),
        ..Default::default()
    };
    assert!(!info.is_readable());
    assert!(StreamInfo::default().is_readable());
}
