//! Torrents: their files, their storage, and who uses them.

use remux::keyed::Keyed;
use remux::paths::{join_storage_components, top_level_storage_root};
use remux::store::Store;
use remux::stream::{StreamDescriptor, TorrentSource};
use remux::torrent::{
    add_options, cached_preflight, file_download_complete, find_torrent, fresh_preflight,
    managed_availability, managed_preflight, parse_file_idx_param, parse_file_param,
    parse_info_hash_param, parse_tracker_params, plan_preflight, plan_resolve, prioritize_peers,
    resolve_stream, select_file_index, select_sidecar_subtitles, speed_limits,
    torrent_id_from_url, CachedTorrentFile, CachedTorrentMetadata, FileSelectionError,
    ManagedTorrent, PreflightPlan, PreflightResponse, ResolveError, TorrentPreflight,
};
use remux::torrent_activity::{wait_for_release, TorrentActivity};
use remux::torrent_availability::{
    announce_requests, cache_key, connect_request, decode_info_hash, finish_peer_probe,
    finish_scrape, handshake, is_complete_bitfield, is_handshake_answer, is_public_peer,
    message_length, new_connect_request, new_handshake, peer_message, plan_peer_probe, plan_scrape,
    read_connect_response, sample_peers, summarize_peers, tracker_address, udp_trackers,
    AnnounceBatch, ConnectError, Ip, Peer, PeerLength, PeerProbePlan, TrackerAddressError,
    TrackerAvailability,
};
use remux::torrent_cache::{sidecars_from, PreflightCache};
use remux::torrent_storage::{
    is_under_pressure, latest_watched, remove_orphan, retention_delete_ids, torrent_storage_paths,
    StorageEntry, StorageSweep,
};
use std::collections::HashSet;

fn file(name: &str, length: u64) -> CachedTorrentFile {
    CachedTorrentFile { name: name.to_string(), length }
}

fn peer(a: u8, b: u8, c: u8, d: u8) -> Peer {
    Peer { ip: Ip::V4(u32::from_be_bytes([a, b, c, d])), port: 6881 }
}

const HASH: &str = "aaaaaaaaaaaaaaaaaaaaaaaaaaaaaaaaaaaaaaaa";

// ---------------------------------------------------------------------------
// Magnets and files
// ---------------------------------------------------------------------------

#[test]
fn parses_magnet_preflight_parameters() {
    let magnet = "magnet:?xt=urn:btih:AAAAAAAAAAAAAAAAAAAAAAAAAAAAAAAAAAAAAAAA&tr=udp%3A%2F%2Ftracker.example%3A80%2Fannounce&tr=udp%3A%2F%2Ftracker.example%3A80%2Fannounce";
    assert_eq!(
        parse_info_hash_param(magnet).as_deref(),
        Some("aaaaaaaaaaaaaaaaaaaaaaaaaaaaaaaaaaaaaaaa")
    );
    assert_eq!(parse_tracker_params(magnet), vec!["udp://tracker.example:80/announce"]);
}

#[test]
fn magnets_are_read_back() {
    let source = TorrentSource {
        info_hash: HASH.to_string(),
        file_hint: Some("A b&c=é.mkv".to_string()),
        file_idx: Some(3),
        trackers: vec![],
    };
    let magnet = source.to_magnet();
    assert_eq!(parse_info_hash_param(&magnet).as_deref(), Some(HASH));
    assert_eq!(parse_file_idx_param(&magnet), Some(3));
    assert_eq!(parse_file_param(&magnet).as_deref(), Some("A b&c=é.mkv"));
    assert_eq!(parse_tracker_params(&magnet).len(), 7);
}

#[test]
fn bundle_uses_exact_requested_file_and_rejects_invalid_ambiguous_index() {
    let files = vec![
        file("Bundle/Movie.One.1080p.mkv", 2_000),
        file("Bundle/Movie.Two.1080p.mkv", 2_100),
        file("Bundle/Movie.Three.1080p.mkv", 1_900),
    ];
    assert_eq!(select_file_index(&files, Some(1), None).unwrap(), 1);
    assert!(select_file_index(&files, Some(99), None).is_err());
}

#[test]
fn bundle_filename_overrides_non_video_provider_index() {
    let files = vec![
        file("Bundle/Movie.One.1080p.mkv", 2_000),
        file("Bundle/release.nfo", 1),
        file("Bundle/Movie.Two.1080p.mkv", 2_100),
    ];
    assert_eq!(
        select_file_index(&files, Some(1), Some("Movie.Two.1080p.mkv")).unwrap(),
        2
    );
    assert!(select_file_index(&files, Some(1), None).is_err());
}

#[test]
fn multi_file_release_can_choose_unique_main_feature() {
    let files = vec![
        file("Release/sample.mkv", 100),
        file("Release/Movie.1080p.mkv", 2_000),
        file("Release/subtitles.srt", 2),
    ];
    assert_eq!(select_file_index(&files, None, None).unwrap(), 1);
}

#[test]
fn file_selection_says_what_is_wrong() {
    assert_eq!(select_file_index(&vec![], None, None), Err(FileSelectionError::NoFiles));
    let two = vec![file("a.mkv", 100), file("b.mkv", 100)];
    assert_eq!(
        select_file_index(&two, None, None),
        Err(FileSelectionError::Ambiguous { videos: 2 })
    );
    assert_eq!(
        select_file_index(&two, Some(7), None),
        Err(FileSelectionError::BadIndex { index: 7, files: 2 })
    );
}

#[test]
fn single_movie_release_exposes_generic_subtitle_directory() {
    let files = vec![
        file("Movie.2016.1080p.mp4", 2_000),
        file("Subs/2_English.srt", 20),
        file("Subs/3_English.srt", 25),
        file("Subs/4_English.ass", 30),
        file("RARBG.txt", 1),
    ];

    let subtitles = select_sidecar_subtitles(&files, 0);
    assert_eq!(subtitles.len(), 2);
    assert_eq!(subtitles[0].file_idx, 1);
    assert_eq!(subtitles[0].language.as_deref(), Some("en"));
    assert_eq!(subtitles[1].file_idx, 2);
    assert_eq!(subtitles[1].language.as_deref(), Some("en"));
}

#[test]
fn movie_bundle_does_not_attach_ambiguous_generic_subtitles() {
    let files = vec![
        file("Movie.One.1080p.mkv", 2_000),
        file("Movie.Two.1080p.mkv", 2_100),
        file("Subs/2_English.srt", 20),
    ];

    assert!(select_sidecar_subtitles(&files, 0).is_empty());
    assert!(select_sidecar_subtitles(&files, 1).is_empty());
}

#[test]
fn episode_pack_exposes_only_filename_matched_sidecar() {
    let files = vec![
        file("Show.S01E01.mkv", 1_000),
        file("Show.S01E01.en.forced.srt", 10),
        file("Show.S01E02.mkv", 1_000),
        file("Show.S01E02.en.srt", 10),
    ];

    let subtitles = select_sidecar_subtitles(&files, 0);
    assert_eq!(subtitles.len(), 1);
    assert_eq!(subtitles[0].file_idx, 1);
    assert_eq!(subtitles[0].language.as_deref(), Some("en"));
    assert!(subtitles[0].is_forced);
}

#[test]
fn no_file_selection_means_stream_only_not_all_files() {
    let options = add_options(None, None, None);
    assert_eq!(options.connect_timeout_ms, 1200);
    assert_eq!(options.only_files, Some(Vec::new()));
}

#[test]
fn named_files_become_a_literal_pattern() {
    let options = add_options(None, Some("A (1).mkv"), None);
    assert_eq!(options.only_files, None);
    assert_eq!(options.only_files_regex.as_deref(), Some("(?i)A \\(1\\)\\.mkv$"));
    assert_eq!(add_options(Some(2), Some("x"), None).only_files, Some(vec![2]));
}

#[test]
fn empty_stream_only_queue_is_not_a_completed_movie() {
    assert!(!file_download_complete(0, 0));
    assert!(!file_download_complete(50, 100));
    assert!(file_download_complete(100, 100));
    assert!(file_download_complete(120, 100));
    assert!(managed_availability(100, 100, Some(3)).finished);
    assert_eq!(managed_availability(1, 100, None).live_peers, 0);
}

// ---------------------------------------------------------------------------
// Looking at a torrent before it is played
// ---------------------------------------------------------------------------

fn metadata() -> CachedTorrentMetadata {
    CachedTorrentMetadata {
        torrent_bytes: vec![1],
        seen_peers: vec![peer(1, 1, 1, 1), peer(2, 2, 2, 2)],
        trackers: vec![],
        files: vec![file("Movie.mkv", 500), file("Movie.en.srt", 5)],
    }
}

fn magnet() -> String {
    format!("magnet:?xt=urn:btih:{HASH}")
}

#[test]
fn metadata_is_looked_at_once() {
    let response = PreflightResponse::Listed {
        torrent_bytes: vec![9],
        seen_peers: vec![peer(1, 1, 1, 1)],
        files: vec![file("Movie.mkv", 500)],
    };
    let (seen, kept) = fresh_preflight(response, &magnet(), 12).unwrap();
    assert_eq!((seen.elapsed_ms, seen.seen_peers, seen.from_cache), (12, 1, false));
    assert_eq!(seen.selected_file_bytes, Some(500));
    let kept = kept.unwrap();
    assert_eq!(kept.torrent_bytes, vec![9]);
    let again = cached_preflight(&kept, &magnet());
    assert!(again.from_cache);
    assert_eq!(again.total_bytes, 500);
    assert!(fresh_preflight(PreflightResponse::Added, &magnet(), 1).is_err());
    let state = managed_availability(0, 500, Some(1));
    let (managed, none) =
        fresh_preflight(PreflightResponse::AlreadyManaged(Some(state)), &magnet(), 1).unwrap();
    assert_eq!(managed.managed, Some(state));
    assert!(none.is_none());
}

fn answer(plan: Result<PreflightPlan, ResolveError>) -> TorrentPreflight {
    match plan {
        Ok(PreflightPlan::Answer(p)) => p,
        _ => panic!("the torrent is asked for"),
    }
}

#[test]
fn a_second_look_agrees_with_the_first() {
    let mut cache = PreflightCache::new();
    let request = match cache.preflight(&magnet(), None, &vec![peer(9, 9, 9, 9)]) {
        Ok(PreflightPlan::Ask(request)) => request,
        _ => panic!("nothing is known yet"),
    };
    assert_eq!(request.info_hash, HASH);
    assert!(request.list_only);
    assert_eq!(request.initial_peers, Some(vec![peer(9, 9, 9, 9)]));
    assert_eq!((request.connect_timeout_ms, request.read_write_timeout_ms), (1200, 2500));
    let response = PreflightResponse::Listed {
        torrent_bytes: vec![9],
        seen_peers: (0..40).map(|i| peer(1, 1, 1, i)).collect(),
        files: vec![file("Movie.mkv", 500), file("Movie.en.srt", 5)],
    };
    let first = cache.learn(request.info_hash, response, &magnet(), 12).unwrap();
    assert_eq!((first.elapsed_ms, first.from_cache, first.seen_peers), (12, false, 40));
    assert_eq!(first.peers.len(), 32);
    let second = answer(cache.preflight(&magnet(), None, &vec![]));
    assert_eq!((second.elapsed_ms, second.from_cache, second.seen_peers), (0, true, 40));
    assert_eq!(second.selected_file_bytes, first.selected_file_bytes);
    assert_eq!(second.total_bytes, first.total_bytes);
    assert_eq!(second.file_count, first.file_count);
    assert_eq!(second.peers, first.peers);
}

#[test]
fn looks_are_planned() {
    let state = managed_availability(505, 505, Some(1));
    let managed = ManagedTorrent {
        state,
        files: vec![file("Movie.mkv", 600)],
        file_progress: vec![600],
    };
    let p = answer(plan_preflight(&magnet(), Some(&managed), Some(&metadata()), &vec![]));
    assert_eq!((p.total_bytes, p.from_cache), (600, false));
    assert!(p.managed.unwrap().finished);
    assert!(matches!(
        plan_preflight("magnet:?dn=x", Some(&managed), None, &vec![]),
        Err(ResolveError::NoInfoHash)
    ));
    match plan_preflight(&magnet(), None, None, &vec![]) {
        Ok(PreflightPlan::Ask(request)) => assert_eq!(request.initial_peers, None),
        _ => panic!("nothing is known"),
    }
    let mut cache = PreflightCache::new();
    assert!(cache.learn(HASH.to_string(), PreflightResponse::Added, &magnet(), 1).is_err());
    let managed = PreflightResponse::AlreadyManaged(Some(state));
    let p = cache.learn(HASH.to_string(), managed, &magnet(), 7).unwrap();
    assert_eq!((p.elapsed_ms, p.managed), (7, Some(state)));
    assert!(cache.get(HASH).is_none());
}

#[test]
fn a_download_is_finished_when_the_file_is() {
    let files = vec![file("Movie.mkv", 500), file("extra.txt", 5)];
    let state = managed_availability(505, 505, Some(1));
    let p = managed_preflight(state, &files, &vec![499, 5], &magnet());
    assert!(!p.managed.unwrap().finished);
    let p = managed_preflight(state, &files, &vec![500, 0], &magnet());
    assert!(p.managed.unwrap().finished);
}

#[test]
fn cached_metadata_gives_subtitles_and_peers() {
    let mut cache = PreflightCache::new();
    let descriptor = StreamDescriptor::Torrent {
        info_hash: HASH.to_uppercase(),
        file_hint: None,
        file_idx: None,
        trackers: vec![],
    };
    assert!(cache.subtitle_sidecars(&descriptor).is_empty());
    assert!(cache.get(HASH).is_none());
    cache.insert(HASH.to_string(), metadata());
    assert_eq!(cache.get(HASH).unwrap().torrent_bytes, vec![1]);
    let subtitles = cache.subtitle_sidecars(&descriptor);
    assert_eq!(subtitles.len(), 1);
    assert_eq!(subtitles[0].path, "Movie.en.srt");
    let p = answer(cache.preflight(&magnet(), None, &vec![]));
    assert_eq!((p.seen_peers, p.from_cache, p.total_bytes), (2, true, 505));
    cache.prioritize_preflight_peers(&HASH.to_uppercase(), &vec![peer(2, 2, 2, 2), peer(3, 3, 3, 3)]);
    assert_eq!(
        cache.get(HASH).unwrap().seen_peers,
        vec![peer(2, 2, 2, 2), peer(3, 3, 3, 3), peer(1, 1, 1, 1)]
    );
    assert_eq!(
        prioritize_peers(&vec![peer(2, 2, 2, 2)], &vec![peer(1, 1, 1, 1), peer(2, 2, 2, 2)]),
        vec![peer(2, 2, 2, 2), peer(1, 1, 1, 1)]
    );
}

#[test]
fn metadata_that_was_found_is_used() {
    let p = answer(plan_preflight(&magnet(), None, Some(&metadata()), &vec![]));
    assert_eq!((p.seen_peers, p.from_cache, p.total_bytes), (2, true, 505));
    assert_eq!(p.selected_file_bytes, Some(500));

    let descriptor = StreamDescriptor::Torrent {
        info_hash: HASH.to_string(),
        file_hint: None,
        file_idx: None,
        trackers: vec![],
    };
    assert!(sidecars_from(None, &descriptor).is_empty());
    assert_eq!(sidecars_from(Some(&metadata()), &descriptor)[0].path, "Movie.en.srt");
    let local = StreamDescriptor::Local("/a.mkv".to_string());
    assert!(sidecars_from(Some(&metadata()), &local).is_empty());

    let mut cache = PreflightCache::new();
    cache.keep_peers_first(HASH.to_string(), Some(metadata()), &vec![]);
    cache.keep_peers_first(HASH.to_string(), None, &vec![peer(2, 2, 2, 2)]);
    assert!(cache.get(HASH).is_none());
    cache.keep_peers_first(HASH.to_string(), Some(metadata()), &vec![peer(2, 2, 2, 2)]);
    let kept = cache.get(HASH).unwrap();
    assert_eq!(kept.seen_peers, vec![peer(2, 2, 2, 2), peer(1, 1, 1, 1)]);
    assert_eq!(kept.torrent_bytes, vec![1]);
}

#[test]
fn torrents_are_resolved_to_addresses() {
    let files = vec![file("Movie.mkv", 500)];
    assert_eq!(plan_resolve("magnet:?dn=x", None), Err(ResolveError::NoInfoHash));
    assert_eq!(plan_resolve(&magnet(), Some(&metadata())), Ok(HASH.to_string()));
    let empty = CachedTorrentMetadata { files: vec![], ..metadata() };
    assert_eq!(
        plan_resolve(&magnet(), Some(&empty)),
        Err(ResolveError::File(FileSelectionError::NoFiles))
    );
    let (idx, url) = resolve_stream(3030, 7, &files, &magnet()).unwrap();
    assert_eq!(idx, 0);
    assert_eq!(url, "http://127.0.0.1:3030/torrents/7/stream/0");
    assert_eq!(torrent_id_from_url(&url), Some(7));
    assert_eq!(torrent_id_from_url("http://h/other/7"), None);
    let hashes = vec!["bb".to_string(), "AA".to_string()];
    assert_eq!(find_torrent(&hashes, "aa"), Some(1));
    assert_eq!(find_torrent(&hashes, "cc"), None);
    assert_eq!(speed_limits(0, 0), (Some(1), None));
    assert_eq!(speed_limits(10, 20), (Some(10_240), Some(20_480)));
    assert_eq!(speed_limits(4_194_303, 4_194_304), (Some(4_294_966_272), Some(u32::MAX)));
    // Only the low 32 bits of a rate count.
    assert_eq!(speed_limits((1 << 32) + 1, 1 << 32), (Some(1_024), None));
    assert_eq!(speed_limits(1 << 32, -1), (None, None));
    assert_eq!(speed_limits(i64::MAX, (1 << 33) + 7), (Some(u32::MAX), Some(7_168)));
}

#[test]
fn an_answer_that_comes_twice_only_counts_twice() {
    let answer = TrackerAvailability {
        seeders: 5,
        leechers: 2,
        completed: 9,
        responses: 1,
        peers: vec![peer(1, 1, 1, 1), peer(2, 2, 2, 2)],
    };
    let mut all = TrackerAvailability::default();
    all.merge(&answer);
    let once = all.peers.clone();
    all.merge(&answer);
    assert_eq!((all.seeders, all.leechers, all.completed, all.responses), (5, 2, 9, 2));
    assert_eq!(all.peers, once);
}

// ---------------------------------------------------------------------------
// Storage
// ---------------------------------------------------------------------------

const HOUR: i128 = 3_600_000_000_000;
const NOW: i128 = 1_787_000_000_000_000_000;

fn entry(id: usize, age_hours: Option<i128>) -> StorageEntry {
    StorageEntry {
        id,
        info_hash: id.to_string(),
        storage_paths: Vec::new(),
        allocated_bytes: 0,
        last_watched: age_hours.map(|hours| NOW - hours * HOUR),
    }
}

#[test]
fn retention_uses_watch_history_and_never_deletes_active_torrents() {
    let entries = vec![
        entry(1, None),
        entry(2, Some(1)),
        entry(3, Some(24)),
        entry(4, Some(72)),
        entry(5, None),
    ];
    let active = HashSet::from([1]);

    assert_eq!(
        retention_delete_ids(&entries, &active, NOW, Some(2), Some(2)),
        HashSet::from([4, 5])
    );
    assert_eq!(
        retention_delete_ids(&entries, &active, NOW, None, Some(1)),
        HashSet::from([3, 4, 5])
    );
}

#[test]
fn torrent_storage_paths_reject_parent_traversal() {
    let root = "/torrent-data/release";
    assert_eq!(
        join_storage_components(root, &vec!["Subs".into(), "English.srt".into()]),
        Some("/torrent-data/release/Subs/English.srt".to_string())
    );
    assert_eq!(
        join_storage_components(root, &vec!["..".into(), "outside".into()]),
        None
    );
}

#[test]
fn orphan_cleanup_preserves_managed_top_level_paths() {
    let mut managed = entry(1, None);
    managed.storage_paths = vec!["/data/managed/movie.mkv".to_string()];
    let sweep = StorageSweep::new(vec![managed], &HashSet::new(), NOW, None, None, 0);
    assert!(sweep.orphan_cleanup_safe("/data"));
    assert!(sweep.is_protected("/data", "/data/managed"));
    assert!(!sweep.is_protected("/data", "/data/orphan"));
    assert!(!remove_orphan(true, Some(0), 0));
    assert!(remove_orphan(false, Some(0), 0));
    assert!(!remove_orphan(false, Some(599), 600));
    assert!(!remove_orphan(false, None, 0));
    assert_eq!(
        top_level_storage_root("/data", "/data/managed/movie.mkv"),
        Some("/data/managed".to_string())
    );
    assert_eq!(top_level_storage_root("/data", "/elsewhere/x"), None);
}

#[test]
fn sweeps_delete_the_oldest_until_there_is_room() {
    let mut old = entry(1, Some(100));
    old.allocated_bytes = 1_073_741_824;
    let mut new = entry(2, Some(1));
    new.allocated_bytes = 1_073_741_824;
    let active = HashSet::new();
    let mut sweep =
        StorageSweep::new(vec![new, old], &active, NOW, None, None, 2 * 1_073_741_824);
    assert_eq!(sweep.policy_step(&active), None);
    sweep.restart();
    let place = sweep.pressure_step(&active, Some(1), None, None).unwrap();
    assert_eq!(sweep.entries[place].id, 1);
    sweep.note_deleted(place);
    assert_eq!(sweep.total_allocated, 1_073_741_824);
    assert_eq!(sweep.pressure_step(&active, Some(1), None, None), None);
    assert!(is_under_pressure(0, None, Some(1), Some(1)));
    assert!(!is_under_pressure(0, None, None, Some(1)));
    assert_eq!(latest_watched(Some(1), Some(2)), Some(2));
    assert_eq!(latest_watched(None, None), None);
    let paths = torrent_storage_paths("/data/x", &vec![vec!["a.mkv".to_string()]]);
    assert_eq!(paths, vec!["/data/x/a.mkv".to_string()]);
}

// ---------------------------------------------------------------------------
// Who uses a torrent
// ---------------------------------------------------------------------------

#[test]
fn claimed_torrents_are_in_use_until_they_are_let_go() {
    let mut activity = TorrentActivity::new();
    assert!(!activity.is_active(7));
    assert!(activity.claim(7, &vec!["a".to_string()]).is_empty());
    assert!(activity.is_active(7));
    assert!(activity.has_playback(7));
    assert_eq!(activity.active_ids(), HashSet::from([7]));
    assert_eq!(activity.to_pause(7, &vec![7, 8]), vec![8]);
    assert!(activity.release_request(7));
    assert!(activity.is_active(7));
    // The playback moves on to another torrent.
    assert_eq!(activity.claim(8, &vec!["a".to_string()]), vec![7]);
    assert!(!activity.is_active(7));
    assert_eq!(activity.release_playback("a"), Some((8, true)));
    assert_eq!(activity.release_playback("a"), None);
    assert!(activity.is_active(8));
    assert!(activity.release_request(8));
    assert!(!activity.is_active(8));
}

#[test]
fn watched_torrents_are_not_discarded() {
    let mut activity = TorrentActivity::new();
    activity.claim(7, &vec!["a".to_string()]);
    assert!(!activity.may_discard(7, false));
    activity.mark_playback_watched("a", 5);
    activity.release_request(7);
    activity.release_playback("a");
    assert_eq!(activity.watched_at(7), Some(5));
    assert!(!activity.may_discard(7, false));
    activity.forget(7);
    assert!(activity.may_discard(7, false));
    assert!(!activity.may_discard(7, true));
    assert!(wait_for_release(19, true));
    assert!(!wait_for_release(20, true));
    assert!(!wait_for_release(0, false));
}

// ---------------------------------------------------------------------------
// Trackers and peers
// ---------------------------------------------------------------------------

#[test]
fn rejects_invalid_info_hashes() {
    assert!(decode_info_hash("abc").is_none());
    assert!(decode_info_hash(&"z".repeat(40)).is_none());
    assert!(decode_info_hash(&"a".repeat(40)).is_some());
    assert_eq!(decode_info_hash(&"aB".repeat(20)).unwrap(), vec![0xab; 20]);
}

#[test]
fn recognizes_complete_peer_bitfields() {
    assert!(is_complete_bitfield(&[0xff]));
    assert!(is_complete_bitfield(&[0xff, 0xf0]));
    assert!(is_complete_bitfield(&[0x80]));
    assert!(!is_complete_bitfield(&[]));
    assert!(!is_complete_bitfield(&[0xff, 0]));
    assert!(!is_complete_bitfield(&[0xfe, 0xff]));
    assert!(!is_complete_bitfield(&[0xff, 0xa0]));
}

#[test]
fn active_probe_sample_spans_the_full_peer_pool() {
    let peers: Vec<Peer> = (1..=100).map(|last| peer(192, 0, 2, last)).collect();
    let sampled = sample_peers(&peers, 12);
    assert_eq!(sampled.len(), 12);
    assert_eq!(sampled.first(), peers.first());
    assert_eq!(sampled.last(), peers.last());
}

#[test]
fn active_probes_reject_local_and_reserved_addresses() {
    for p in [
        peer(127, 0, 0, 1),
        peer(10, 0, 0, 1),
        peer(192, 168, 1, 2),
        peer(169, 254, 1, 2),
        peer(192, 0, 2, 1),
    ] {
        assert!(!is_public_peer(&p), "{p:?} must not be probed");
    }
    assert!(is_public_peer(&peer(8, 8, 8, 8)));
}

#[test]
fn handshakes_name_the_torrent() {
    let hash = decode_info_hash(HASH).unwrap();
    let sent = new_handshake(&hash);
    assert_eq!(sent.len(), 68);
    assert_eq!(sent[0], 19);
    assert_eq!(&sent[1..20], b"BitTorrent protocol");
    assert!(is_handshake_answer(&sent, &hash));
    assert!(!is_handshake_answer(&sent, &vec![0; 20]));
    // Two are told apart by what is random in them.
    assert_ne!(sent, new_handshake(&hash));
    assert_eq!(handshake(&hash, &vec![7; 12])[56..], [7; 12]);
}

#[test]
fn peer_messages_tell_seeders() {
    assert!(matches!(message_length(&vec![0, 0, 0, 0]), PeerLength::Skip));
    assert!(matches!(message_length(&vec![0, 0, 0, 5]), PeerLength::Read(5)));
    assert!(matches!(message_length(&vec![1, 0, 0, 0]), PeerLength::TooLong));
    assert_eq!(peer_message(&vec![5, 0xff]), Some(true));
    assert_eq!(peer_message(&vec![5, 0x0f]), Some(false));
}

#[test]
fn trackers_are_connected_to_and_asked() {
    let (id, sent) = new_connect_request();
    assert_eq!(sent, connect_request(id));
    assert_eq!(&sent[0..8], &[0, 0, 4, 0x17, 0x27, 0x10, 0x19, 0x80]);
    assert_eq!(sent.len(), 16);
    let mut answer = vec![0, 0, 0, 0];
    answer.extend_from_slice(&id.to_be_bytes());
    answer.extend_from_slice(&77u64.to_be_bytes());
    assert!(matches!(read_connect_response(&answer, id), Ok(77)));
    assert!(matches!(
        read_connect_response(&answer, id.wrapping_add(1)),
        Err(ConnectError::TransactionMismatch)
    ));
    assert!(matches!(read_connect_response(&vec![0], id), Err(ConnectError::Short)));
    answer[3] = 3;
    assert!(matches!(read_connect_response(&answer, id), Err(ConnectError::Refused(_))));
    answer[3] = 9;
    assert!(matches!(read_connect_response(&answer, id), Err(ConnectError::Unexpected)));

    let requests = announce_requests(77, &vec![HASH.to_string()]).unwrap();
    assert_eq!(requests.len(), 1);
    assert_eq!(requests[0].bytes.len(), 98);
    assert_eq!(&requests[0].bytes[0..8], &77u64.to_be_bytes());
    assert!(announce_requests(77, &vec!["nonsense".to_string()]).is_err());

    let mut batch = AnnounceBatch::new();
    batch.sent(requests[0].transaction_id, HASH.to_string());
    assert!(!batch.is_done());
    let mut reply = vec![0, 0, 0, 1];
    reply.extend_from_slice(&requests[0].transaction_id.to_be_bytes());
    reply.extend_from_slice(&[0, 0, 7, 8, 0, 0, 0, 2, 0, 0, 0, 5]);
    reply.extend_from_slice(&[8, 8, 8, 8, 0x1a, 0xe1]);
    batch.receive(&reply);
    assert!(batch.is_done());
    let found = batch.output.get(HASH).unwrap();
    assert_eq!((found.leechers, found.seeders), (2, 5));
    assert_eq!(found.peers, vec![peer(8, 8, 8, 8)]);
}

#[test]
fn tracker_addresses_need_a_host_and_a_port() {
    assert_eq!(
        tracker_address("udp://tracker.example:6969/announce"),
        Ok(("tracker.example".to_string(), 6969))
    );
    assert_eq!(tracker_address("nonsense"), Err(TrackerAddressError::InvalidUrl));
    assert_eq!(tracker_address("udp://tracker.example"), Err(TrackerAddressError::MissingPort));
    assert_eq!(tracker_address("mailto:a@b"), Err(TrackerAddressError::MissingHost));
    let all = vec![
        "http://a/announce".to_string(),
        "udp://b:1".to_string(),
        "udp://c:1".to_string(),
        "udp://d:1".to_string(),
        "udp://e:1".to_string(),
    ];
    assert_eq!(udp_trackers(&all).len(), 3);
}

#[test]
fn answers_of_trackers_are_remembered() {
    let mut store = Store::new();
    let hashes = vec![HASH.to_string()];
    let plan = plan_scrape(&store, &hashes, 0);
    assert_eq!(plan.unique, hashes);
    let mut a: Keyed<TrackerAvailability> = Keyed::new();
    a.insert(
        HASH.to_string(),
        TrackerAvailability {
            seeders: 5,
            leechers: 1,
            completed: 0,
            responses: 1,
            peers: vec![peer(8, 8, 8, 8)],
        },
    );
    let mut b: Keyed<TrackerAvailability> = Keyed::new();
    b.insert(
        HASH.to_string(),
        TrackerAvailability {
            seeders: 3,
            leechers: 2,
            completed: 0,
            responses: 1,
            peers: vec![peer(8, 8, 8, 8), peer(9, 9, 9, 9)],
        },
    );
    let results = finish_scrape(&mut store, plan, &vec![a, b], 0);
    let merged = results.get(HASH).unwrap();
    assert_eq!((merged.seeders, merged.leechers, merged.responses), (5, 2, 2));
    assert_eq!(merged.peers.len(), 2);
    let again = plan_scrape(&store, &hashes, 44_999);
    assert!(again.unique.is_empty());
    assert_eq!(again.results.get(HASH).unwrap().seeders, 5);
    assert_eq!(plan_scrape(&store, &hashes, 45_000).unique, hashes);
    assert_eq!(cache_key("ab"), "torrent-scrape:ab");
}

#[test]
fn peers_that_answer_are_counted_seeders_first() {
    let mut store = Store::new();
    let peers = vec![peer(8, 8, 8, 8), peer(10, 0, 0, 1)];
    match plan_peer_probe(&store, HASH, &peers, 0) {
        PeerProbePlan::Ask { info_hash, peers } => {
            assert_eq!(info_hash, vec![0xaa; 20]);
            assert_eq!(peers, vec![peer(8, 8, 8, 8)]);
        }
        PeerProbePlan::Known(_) => panic!("nothing is known yet"),
    }
    let probes = vec![
        (peer(1, 1, 1, 1), Some(false)),
        (peer(2, 2, 2, 2), None),
        (peer(3, 3, 3, 3), Some(true)),
    ];
    let found = finish_peer_probe(&mut store, HASH, &probes, 0);
    assert_eq!((found.responsive, found.seeders), (2, 1));
    assert_eq!(found.peers, vec![peer(3, 3, 3, 3), peer(1, 1, 1, 1)]);
    assert_eq!(summarize_peers(&probes).peers, found.peers);
    assert!(matches!(
        plan_peer_probe(&store, HASH, &peers, 19_999),
        PeerProbePlan::Known(p) if p.seeders == 1
    ));
    assert!(matches!(
        plan_peer_probe(&store, HASH, &peers, 20_000),
        PeerProbePlan::Ask { .. }
    ));
    assert!(matches!(
        plan_peer_probe(&store, "bad", &peers, 0),
        PeerProbePlan::Known(p) if p.responsive == 0
    ));
}
