//! Choosing the streams of an item.

use remux::keyed::Keyed;
use remux::languages::{lang_to_two_letter, normalize_lang};
use remux::media::{ExternalIds, Media, MediaKind};
use remux::playback::source::{MediaSourceInfo, MediaStream, MediaStreamType};
use remux::services::auto_score::{
    auto_candidate_score, is_blocked_auto_candidate, is_language_mismatched_auto_candidate,
    is_stereoscopic_auto_candidate, known_candidate_file_bytes, lower_median,
    relative_size_fit_score, release_language_tag, startup_compatibility_score,
};
use remux::services::auto_select::{
    after_first_wave, auto_candidates, canonical, confirmed_live, first_wave, peer_probe_jobs, pick_auto_source,
    reuse_auto_choice, scrape_hashes, second_wave, target_file_bytes, torrent_candidates,
    tracker_urls, AutoError,
};
use remux::services::media_info::media_info_from_probe;
use remux::services::stream_service::{
    choose_source, decide_submission, first_of_group, plan_load, plan_lookup, plan_probe,
    raw_streams, stream_filter_applies, LoadPlan, LookupError, LookupPlan, ProbeSettings,
    StreamService, StreamServiceConfig, Submission,
};
use remux::store::{AutoRankedChoice, Store, Stored};
use remux::stream::{StreamDescriptor, StreamInfo};
use remux::torrent::{managed_availability, TorrentPreflight};
use remux::torrent_availability::{Ip, Peer, PeerAvailability, TrackerAvailability};
use uuid::Uuid;

#[test]
fn auto_resolution_round_trips_synthetic_id() {
    let item_id = Uuid::new_v4();
    let auto_id = Uuid::new_v5(
        &Uuid::NAMESPACE_URL,
        format!("{item_id}-auto-1080p").as_bytes(),
    );

    assert_eq!(
        StreamService::auto_resolution(item_id.as_u128(), auto_id.as_u128()),
        Some("1080p")
    );
    assert_eq!(
        StreamService::auto_resolution(item_id.as_u128(), Uuid::new_v4().as_u128()),
        None
    );
    for resolution in ["4K", "1080p", "720p", "480p", "1440p"] {
        let id = StreamService::auto_source_id(item_id.as_u128(), resolution);
        assert_eq!(
            StreamService::auto_resolution(item_id.as_u128(), id),
            Some(resolution)
        );
    }
}

#[test]
fn size_fit_penalizes_equal_relative_outliers_symmetrically() {
    assert_eq!(
        relative_size_fit_score(Some(600), Some(3_000)),
        relative_size_fit_score(Some(15_000), Some(3_000)),
    );
    assert_eq!(relative_size_fit_score(Some(600), Some(3_000)), 200);
}

#[test]
fn size_fit_favors_the_relative_target() {
    assert_eq!(relative_size_fit_score(Some(3_000), Some(3_000)), 1_000);
    assert_eq!(relative_size_fit_score(Some(1_500), Some(3_000)), 500);
    assert_eq!(relative_size_fit_score(Some(6_000), Some(3_000)), 500);
}

#[test]
fn lower_median_is_not_anchored_by_one_large_outlier() {
    assert_eq!(lower_median(vec![600, 2_000, 3_000, 11_000]), Some(2_000));
    assert_eq!(lower_median(vec![]), None);
}

#[test]
fn the_lower_median_does_not_depend_on_the_order() {
    assert_eq!(lower_median(vec![]), None);
    assert_eq!(lower_median(vec![9]), Some(9));
    assert_eq!(lower_median(vec![4, 1, 3, 2]), Some(2));
    assert_eq!(lower_median(vec![2, 3, 1, 4]), Some(2));
    assert_eq!(lower_median(vec![5, 5, 1, 5, 1]), Some(5));
    assert_eq!(lower_median(vec![1, 5, 5, 1, 5]), Some(5));
}

#[test]
fn size_fit_is_symmetric_up_to_rounding() {
    // 2000 * 4500 is 3000 * 3000.
    assert_eq!(relative_size_fit_score(Some(2_000), Some(3_000)), 666);
    assert_eq!(relative_size_fit_score(Some(4_500), Some(3_000)), 666);
    // No whole number is as much too large as 7000 is too small.
    assert_eq!(relative_size_fit_score(Some(7_000), Some(9_001)), 777);
    assert_eq!(relative_size_fit_score(Some(11_574), Some(9_001)), 777);
}

#[test]
fn items_of_groups_are_kept_for_each_user() {
    let mut store = Store::new();
    StreamService::save_group_item(&mut store, 1, 10, 100, 0);
    StreamService::save_group_item(&mut store, 2, 10, 200, 0);
    StreamService::save_group_item(&mut store, 1, 11, 300, 0);
    assert_eq!(StreamService::get_group_item(&store, 1, 10, 604_799_999), Some(100));
    assert_eq!(StreamService::get_group_item(&store, 2, 10, 604_799_999), Some(200));
    assert_eq!(StreamService::get_group_item(&store, 1, 11, 5), Some(300));
    assert_eq!(StreamService::get_group_item(&store, 2, 11, 5), None);
    assert_eq!(StreamService::get_group_item(&store, 10, 1, 5), None);
    assert_eq!(StreamService::get_group_item(&store, 1, 10, 604_800_000), None);
}

#[test]
fn candidate_size_uses_existing_probe_metadata() {
    let candidate = Media {
        probe_data: Some(MediaSourceInfo { size: Some(42_000), ..Default::default() }),
        ..Default::default()
    };
    assert_eq!(known_candidate_file_bytes(&candidate, None), Some(42_000));
}

#[test]
fn auto_excludes_stereoscopic_releases() {
    let stereoscopic = Media {
        title: "Torrentio\n1080p 3D HSBS".to_string(),
        ..Default::default()
    };
    let ordinary = Media {
        title: "Torrentio\n1080p BluRay H.264".to_string(),
        ..Default::default()
    };

    assert!(is_stereoscopic_auto_candidate(&stereoscopic));
    assert!(!is_stereoscopic_auto_candidate(&ordinary));
}

fn named(filename: &str) -> Media {
    Media {
        title: "Torrentio\n1080p".to_string(),
        stream_info: Some(StreamInfo {
            filename: Some(filename.to_string()),
            ..Default::default()
        }),
        ..Default::default()
    }
}

#[test]
fn auto_excludes_alternate_cuts_and_bad_captures_from_filenames() {
    for filename in [
        "Example.Movie.2020.1080p.Rifftrax.6ch.x265.mkv",
        "Movie.2026.1080p.TELESYNC.x264.mkv",
        "Movie.2026.1080p.Fan.Edit.mkv",
    ] {
        assert!(is_blocked_auto_candidate(&named(filename)), "{filename}");
    }
    assert!(!is_blocked_auto_candidate(&named("Movie.2026.1080p.BluRay.mkv")));
}

#[test]
fn auto_flags_unprobed_foreign_default_release_for_english_title() {
    let candidate = named("Example.Feature.2026.MULTi.VF2.1080p.WEB.H264.mkv");
    assert!(is_language_mismatched_auto_candidate(
        &candidate,
        Some("en"),
        "Example Feature",
    ));
    assert!(!is_language_mismatched_auto_candidate(&candidate, None, "Example Feature"));
    assert!(!is_language_mismatched_auto_candidate(
        &candidate,
        Some("fr"),
        "Example Feature",
    ));
}

fn audio(index: i64, language: Option<&str>) -> MediaStream {
    MediaStream {
        type_: Some(MediaStreamType::Audio),
        index,
        language: language.map(str::to_string),
        ..Default::default()
    }
}

#[test]
fn probed_matching_audio_overrides_release_language_hint() {
    let candidate = Media {
        probe_data: Some(MediaSourceInfo {
            media_streams: vec![audio(1, Some("fra")), audio(3, Some("eng"))],
            ..Default::default()
        }),
        ..named("Movie.MULTi.VF2.1080p.mkv")
    };
    assert!(!is_language_mismatched_auto_candidate(&candidate, Some("en"), "Movie"));
}

#[test]
fn partially_unlabeled_audio_is_not_assumed_to_lack_desired_language() {
    let candidate = Media {
        probe_data: Some(MediaSourceInfo {
            media_streams: vec![audio(1, Some("fra")), audio(2, None)],
            ..Default::default()
        }),
        ..named("Movie.2026.1080p.WEB.mkv")
    };
    assert!(!is_language_mismatched_auto_candidate(&candidate, Some("en"), "Movie"));
    let foreign = Media {
        probe_data: Some(MediaSourceInfo {
            media_streams: vec![audio(1, Some("fra"))],
            ..Default::default()
        }),
        ..named("Movie.2026.1080p.WEB.mkv")
    };
    assert!(is_language_mismatched_auto_candidate(&foreign, Some("en"), "Movie"));
}

#[test]
fn language_word_in_movie_title_is_not_treated_as_a_release_tag() {
    let candidate = named("A.French.Journey.2021.1080p.BluRay.mkv");
    assert!(!is_language_mismatched_auto_candidate(
        &candidate,
        Some("en"),
        "A French Journey",
    ));
}

#[test]
fn auto_startup_allows_only_one_post_selection_failover() {
    let mut store = Store::new();

    assert!(StreamService::claim_auto_failover_slot(&mut store, "play-session", 0));
    assert!(!StreamService::claim_auto_failover_slot(&mut store, "play-session", 0));
    assert!(StreamService::claim_auto_failover_slot(&mut store, "other-session", 0));
    // It can be claimed again when its time is over.
    assert!(!StreamService::claim_auto_failover_slot(&mut store, "play-session", 599_999));
    assert!(StreamService::claim_auto_failover_slot(&mut store, "play-session", 600_000));
    assert!(StreamService::claim_auto_failover_attempt(&mut store, "play-session", 3, 0));
    assert!(!StreamService::claim_auto_failover_attempt(&mut store, "play-session", 3, 1));
    assert!(StreamService::claim_auto_failover_attempt(&mut store, "play-session", 4, 1));
}

#[test]
fn empirical_auto_winner_keeps_the_ranked_candidates_as_fallbacks() {
    let mut store = Store::new();
    let item_id = Uuid::new_v4().as_u128();
    let ranked_winner = Uuid::new_v4().as_u128();
    let empirical_winner = Uuid::new_v4().as_u128();
    let other = Uuid::new_v4().as_u128();
    let auto_id = Uuid::new_v5(
        &Uuid::NAMESPACE_URL,
        format!("{}-auto-1080p", Uuid::from_u128(item_id)).as_bytes(),
    )
    .as_u128();
    store.save(
        StreamService::auto_ranked_choice_key(item_id, "1080p"),
        Stored::Ranked(AutoRankedChoice {
            winner_id: ranked_winner,
            fallback_ids: vec![empirical_winner, other],
        }),
        60_000,
        0,
    );

    StreamService::pin_auto_session_winner(
        &mut store,
        "play-session",
        item_id,
        auto_id,
        empirical_winner,
        None,
        0,
    );

    let choice = StreamService::auto_session_choice(&store, "play-session", 0).unwrap();
    assert_eq!(choice.winner_id, empirical_winner);
    assert_eq!(choice.fallback_ids, vec![ranked_winner, other]);
    assert_eq!(choice.resolution, "1080p");

    assert!(StreamService::update_auto_session_choice(
        &mut store,
        "play-session",
        other,
        vec![other, ranked_winner],
        1
    ));
    let choice = StreamService::auto_session_choice(&store, "play-session", 1).unwrap();
    assert_eq!((choice.winner_id, choice.fallback_ids), (other, vec![ranked_winner]));
    assert!(!StreamService::update_auto_session_choice(&mut store, "none", 1, vec![], 1));
    StreamService::clear_auto_session_winner(&mut store, "play-session");
    assert_eq!(StreamService::auto_session_winner(&store, "play-session", 1), None);
    // A source that is none of the item's automatic ones is refused.
    StreamService::pin_auto_session_winner(&mut store, "x", item_id, 5, 6, None, 0);
    assert_eq!(StreamService::auto_session_winner(&store, "x", 0), None);
}

// ---------------------------------------------------------------------------
// Scores
// ---------------------------------------------------------------------------

fn hash(n: u128) -> String {
    format!("{n:040x}")
}

fn torrent(id: u128, seeders: i64) -> Media {
    Media {
        id,
        kind: MediaKind::Stream,
        title: "Torrentio\n1080p".to_string(),
        stream_info: Some(StreamInfo {
            descriptor: StreamDescriptor::Torrent {
                info_hash: hash(id).to_uppercase(),
                file_hint: None,
                file_idx: None,
                trackers: vec![],
            },
            seeders: Some(seeders),
            size: Some(1_000),
            ..Default::default()
        }),
        ..Default::default()
    }
}

fn preflight(seen: usize) -> TorrentPreflight {
    TorrentPreflight {
        elapsed_ms: 100,
        seen_peers: seen,
        peers: vec![peer(1)],
        from_cache: false,
        selected_file_bytes: Some(1_000),
        total_bytes: 1_000,
        file_count: 1,
        managed: None,
    }
}

fn peer(n: u32) -> Peer {
    Peer { ip: Ip::V4(0x0808_0800 + n), port: 6881 }
}

#[test]
fn scores_in_full() {
    let c = torrent(1, 7);
    let p = preflight(3);
    let tracker = TrackerAvailability {
        seeders: 8,
        leechers: 0,
        completed: 0,
        responses: 1,
        peers: vec![peer(1)],
    };
    let answers = PeerAvailability { responsive: 2, seeders: 1, peers: vec![peer(1)] };
    let s = auto_candidate_score(&c, Some(&p), Some(&tracker), Some(&answers), Some(2_000));
    assert_eq!(s.tier, 3);
    // 5000 + 0 + 1000 + 2*100 + 1*75 + 4*50, halved by the size.
    assert_eq!(s.startup_score, 3_237);
    assert_eq!(s.compatibility_score, 700);
    assert_eq!(s.quality_score, 500);
    assert_eq!((s.active_seeders, s.responsive_peers), (1, 2));
    assert_eq!((s.tracker_seeders, s.provider_seeders), (8, 7));
    assert_eq!((s.file_bytes, s.elapsed_ms), (1_000, 100));
    let none = auto_candidate_score(&torrent(1, -3), None, None, None, None);
    assert_eq!(none.tier, 0);
    assert_eq!(none.quality_score, 1_000);
    assert_eq!(none.elapsed_ms, u64::MAX);
    let finished = TorrentPreflight {
        managed: Some(managed_availability(500, 1_000, Some(2))),
        ..preflight(0)
    };
    let s = auto_candidate_score(&c, Some(&finished), None, None, None);
    assert_eq!((s.tier, s.progress_per_thousand), (4, 500));
}

#[test]
fn common_formats_start_more_easily() {
    let mut c = torrent(1, 1);
    assert_eq!(startup_compatibility_score(&c), 700);
    c.probe_data = Some(MediaSourceInfo {
        container: Some("MP4".to_string()),
        media_streams: vec![
            MediaStream {
                type_: Some(MediaStreamType::Video),
                codec: Some("h264".to_string()),
                ..Default::default()
            },
            MediaStream {
                type_: Some(MediaStreamType::Audio),
                codec: Some("AAC".to_string()),
                ..Default::default()
            },
        ],
        ..Default::default()
    });
    assert_eq!(startup_compatibility_score(&c), 1_000);
    let probe = c.probe_data.as_mut().unwrap();
    probe.container = Some("mkv".to_string());
    probe.media_streams[0].codec = Some("hevc".to_string());
    probe.media_streams[1].codec = Some("dts".to_string());
    // 650 * 800 / 1000 * 800 / 1000.
    assert_eq!(startup_compatibility_score(&c), 416);
}

#[test]
fn languages_have_two_letters() {
    assert_eq!(lang_to_two_letter("eng"), Some("en".to_string()));
    assert_eq!(lang_to_two_letter("French"), Some("fr".to_string()));
    assert_eq!(lang_to_two_letter("ger"), Some("de".to_string()));
    assert_eq!(lang_to_two_letter("zz9"), None);
    assert_eq!(normalize_lang("fre"), "fra");
    assert_eq!(release_language_tag("latino"), Some("es"));
    assert_eq!(release_language_tag("bluray"), None);
}

// ---------------------------------------------------------------------------
// The pick
// ---------------------------------------------------------------------------

fn parent() -> Media {
    Media {
        id: 50,
        title: "Movie".to_string(),
        original_language: Some("en".to_string()),
        ..Default::default()
    }
}

#[test]
fn candidates_are_narrowed_down() {
    let mut store = Store::new();
    let mut all = vec![torrent(1, 5), torrent(2, 9), torrent(3, 7), torrent(4, 9)];
    all[2].title = "Torrentio\n720p".to_string();
    all.push(Media { title: "1080p CAMRip".to_string(), ..torrent(5, 99) });
    all.push(Media { title: "1080p VFF".to_string(), ..torrent(6, 99) });
    let c = auto_candidates(&all, "1080p", &parent(), &store, 50, 0).unwrap();
    let ids: Vec<u128> = c.iter().map(|m| m.id).collect();
    assert_eq!(ids, vec![2, 4, 1]);
    assert_eq!(
        auto_candidates(&all, "4K", &parent(), &store, 50, 0).unwrap_err(),
        AutoError::NoCandidates
    );
    StreamService::mark_auto_candidate_failed(&mut store, 50, "720P", &all[2], 0);
    assert!(StreamService::is_auto_candidate_failed(&store, 50, "720p", &all[2], 0));
    assert_eq!(
        auto_candidates(&all, "720p", &parent(), &store, 50, 0).unwrap_err(),
        AutoError::AllFailed(1)
    );
    StreamService::clear_auto_candidate_failed(&mut store, 50, "720p", &all[2]);
    assert!(auto_candidates(&all, "720p", &parent(), &store, 50, 0).is_ok());
    assert_eq!(AutoError::NoCandidates.message("4K"), "no candidates for resolution 4K");
    assert_eq!(
        AutoError::AllFailed(2).message("4K"),
        "all 2 candidates for 4K recently failed"
    );
    assert_eq!(canonical("x.2160P.y"), "4K");
    assert_eq!(canonical("x"), "");
}

#[test]
fn remembered_picks_are_used_while_they_are_fit() {
    let mut store = Store::new();
    let winner = torrent(1, 5);
    StreamService::remember_auto_choice(&mut store, 50, "1080p", 1, 0);
    assert_eq!(StreamService::auto_choice(&store, 50, "1080P", 299_999), Some(1));
    assert_eq!(StreamService::auto_choice(&store, 50, "1080p", 300_000), None);
    let key = StreamService::auto_choice_key(50, "1080p");
    assert!(reuse_auto_choice(&mut store, 50, "1080p", Some(&winner), &parent(), 0));
    assert_eq!(store.get_id(&key, 0), Some(1));
    assert!(!reuse_auto_choice(&mut store, 50, "1080p", None, &parent(), 0));
    assert_eq!(store.get_id(&key, 0), None);
}

#[test]
fn waves_are_small_and_diverse() {
    let all: Vec<Media> = vec![
        Media { probe_data: Some(Default::default()), ..torrent(1, 1) },
        Media { probe_data: Some(Default::default()), ..torrent(2, 1) },
        Media { probe_data: Some(Default::default()), ..torrent(3, 1) },
        torrent(4, 3),
        torrent(5, 90),
        torrent(6, 2),
    ];
    let refs: Vec<&Media> = all.iter().collect();
    let mut managed = Keyed::new();
    managed.insert(hash(3), managed_availability(1, 1, None));
    let t = torrent_candidates(&refs, &managed);
    let ids: Vec<u128> = t.iter().map(|t| t.id).collect();
    assert_eq!(ids, vec![3, 1, 2, 5, 4, 6]);
    assert_eq!(first_wave(&t), vec![0, 1, 2, 3]);
    assert_eq!(scrape_hashes(&refs).len(), 6);
    assert_eq!(tracker_urls(&refs).len(), 7);

    let mut trackers: Keyed<TrackerAvailability> = Keyed::new();
    let none = second_wave(&t, &trackers, &vec![3, 1, 2, 5]);
    assert_eq!(none.budget_ms, 2200);
    let places: Vec<usize> = none.jobs.iter().map(|j| j.candidate).collect();
    assert_eq!(places, vec![4, 5]);
    trackers.insert(
        hash(6),
        TrackerAvailability {
            seeders: 1,
            leechers: 0,
            completed: 0,
            responses: 1,
            peers: vec![peer(1)],
        },
    );
    let some = second_wave(&t, &trackers, &vec![3, 1, 2, 5]);
    assert_eq!(some.budget_ms, 3800);
    assert_eq!(some.jobs.len(), 1);
    assert_eq!((some.jobs[0].candidate, some.jobs[0].peers.len()), (5, 1));

    let found = vec![(3u128, preflight(0)), (5u128, preflight(2))];
    assert!(confirmed_live(&found));
    assert!(after_first_wave(&t, &found, &trackers, &vec![]).is_none());
    let silent = vec![(3u128, preflight(0))];
    assert_eq!(after_first_wave(&t, &silent, &trackers, &vec![]).unwrap().jobs.len(), 1);
    assert!(!confirmed_live(&vec![(3u128, preflight(0))]));
    let jobs = peer_probe_jobs(&t, &found, &trackers);
    let places: Vec<usize> = jobs.iter().map(|j| j.candidate).collect();
    assert_eq!(places, vec![0, 3]);
}

#[test]
fn the_best_candidate_wins_and_others_remain() {
    let mut store = Store::new();
    let mut twin = torrent(2, 50);
    twin.id = 22;
    let all = vec![torrent(1, 5), torrent(2, 50), twin, torrent(3, 1)];
    let refs: Vec<&Media> = all.iter().collect();
    let found = vec![(3u128, preflight(4))];
    assert_eq!(target_file_bytes(&refs, &found), Some(1_000));
    let trackers = Keyed::new();
    let pick = pick_auto_source(
        &mut store, 50, "1080p", &refs, &found, &trackers, &vec![], 0,
    );
    // Seen peers beat stated seeders; the twin is the same swarm.
    let ids: Vec<u128> = pick.iter().map(|i| all[*i].id).collect();
    assert_eq!(ids, vec![3, 2, 1]);
    let key = StreamService::auto_choice_key(50, "1080p");
    assert_eq!(store.get_id(&key, 0), Some(3));
    let auto = StreamService::auto_source_id(50, "1080p");
    StreamService::pin_auto_session_winner(&mut store, "p", 50, auto, 2, Some(7), 0);
    let choice = StreamService::auto_session_choice(&store, "p", 0).unwrap();
    assert_eq!(choice.fallback_ids, vec![3, 1]);
}

// ---------------------------------------------------------------------------
// Requests
// ---------------------------------------------------------------------------

fn service(requested_id: Option<u128>) -> StreamService {
    StreamService::new(StreamServiceConfig {
        item_id: 50,
        requested_id,
        show_ungrouped: true,
        user_id: Some(7),
    })
}

#[test]
fn requests_select_streams() {
    let streams = || vec![torrent(1, 1), torrent(2, 1)];
    let mut s = service(None);
    s.set_streams(streams());
    let all = s.select_streams();
    assert_eq!((all.candidates.len(), all.probe_only_first), (2, true));
    assert!(!all.specific_requested);
    let mut s = service(Some(2));
    s.set_streams(streams());
    let one = s.select_streams();
    assert_eq!(one.candidates[0].id, 2);
    assert_eq!((one.candidates.len(), one.probe_pool.len()), (1, 2));
    assert!(one.specific_requested && one.restrict_resolution);
    // A client that names the item gets the first stream.
    let mut s = service(Some(50));
    s.set_streams(streams());
    let first = s.select_streams();
    assert_eq!((first.candidates.len(), first.candidates[0].id), (1, 1));
    assert!(!first.specific_requested);
    assert_eq!(s.client_facing_id(), 1);
    s.set_streams(vec![]);
    assert_eq!(s.candidate().id, 1);
}

#[test]
fn groups_stand_for_their_streams() {
    let mut store = Store::new();
    let mut s = service(None);
    assert_eq!(
        s.resolve_stream_group(9, "HD".to_string(), vec![], vec![]),
        Err(LookupError::EmptyGroup(9))
    );
    s.resolve_stream_group(9, "HD".to_string(), vec![torrent(1, 1)], vec![torrent(2, 1)])
        .unwrap();
    let selection = s.select_streams();
    assert_eq!((selection.candidates.len(), selection.probe_pool.len()), (1, 2));
    assert!(!selection.restrict_resolution);
    assert_eq!(s.client_facing_id(), 9);
    assert_eq!(s.group().unwrap().1, "HD");
    let stamp = s.stamp(&torrent(1, 1), &torrent(2, 1), "display");
    assert_eq!(stamp.e_tag, stamp.id);
    assert!(stamp.has_segments && !stamp.is_remote);
    assert_eq!((stamp.id, stamp.name.as_str()), (9, "HD"));
    assert_eq!(stamp.path, "/remux/00000000-0000-0000-0000-000000000002");
    let grouped = Media { group_id: Some(77), ..torrent(1, 1) };
    let stamp = s.stamp(&grouped, &torrent(2, 1), "display");
    assert_eq!((stamp.id, stamp.e_tag), (77, 77));
    s.save_preference(&mut store, "tv", 0);
    assert_eq!(StreamService::get_group_item(&store, 7, 9, 604_799_999), Some(50));
    assert_eq!(StreamService::get_group_item(&store, 7, 9, 604_800_000), None);
    let sources = vec![torrent(3, 1), torrent(1, 1)];
    assert_eq!(choose_source(&sources, 50, None, Some("tv"), &store, 1).unwrap().id, 1);
    assert_eq!(choose_source(&sources, 50, None, None, &store, 1).unwrap().id, 3);
    assert_eq!(choose_source(&sources, 50, Some(1), None, &store, 1).unwrap().id, 1);
    assert_eq!(
        choose_source(&sources, 50, Some(8), None, &store, 1).unwrap_err(),
        LookupError::NotFound(8)
    );
    assert_eq!(
        choose_source(&vec![], 50, None, None, &store, 1).unwrap_err().message(),
        "no playable sources for 00000000-0000-0000-0000-000000000032"
    );
    assert_eq!(first_of_group(&sources, 9).unwrap().id, 3);
}

#[test]
fn things_are_loaded_by_their_kind() {
    let auto = Media {
        kind: MediaKind::Stream,
        title: "1080p (auto)".to_string(),
        ..Default::default()
    };
    assert_eq!(plan_load(&auto), LoadPlan::Automatic);
    assert_eq!(plan_load(&torrent(1, 1)), LoadPlan::Root);
    let group = Media { kind: MediaKind::StreamGroup, ..Default::default() };
    assert_eq!(plan_load(&group), LoadPlan::Group);
    assert_eq!(plan_lookup(MediaKind::StreamGroup), LookupPlan::Group);
    assert_eq!(plan_lookup(MediaKind::Episode), LookupPlan::Sources);
    assert_eq!(plan_lookup(MediaKind::Stream), LookupPlan::Itself);
    assert_eq!(raw_streams(torrent(1, 1), vec![]).len(), 1);
    assert_eq!(raw_streams(parent(), vec![]).len(), 0);
    assert_eq!(raw_streams(parent(), vec![torrent(1, 1), torrent(2, 1)]).len(), 2);
    assert!(stream_filter_applies(1, MediaKind::Movie));
    assert!(!stream_filter_applies(0, MediaKind::Movie));
    assert!(!stream_filter_applies(1, MediaKind::Track));
}

#[test]
fn probes_follow_the_settings() {
    let mut settings = ProbeSettings {
        probe_timeout_secs: None,
        probe_timeout_p2p_secs: None,
        auto_next_stream_on_probe_fail: None,
        max_probe_fallback_streams: None,
        remuxdb_enabled: None,
    };
    let job = plan_probe(&torrent(1, 1), 1, true, &settings, 3000);
    assert_eq!((job.timeout_secs, job.max_retries), (60, 3));
    assert!(job.skip_probe && job.auto_next && !job.was_cached);
    assert!(job.url.unwrap().starts_with("http://127.0.0.1:3000/"));
    settings.probe_timeout_secs = Some(9);
    assert_eq!(plan_probe(&parent(), 0, true, &settings, 3000).timeout_secs, 9);
    let movie = Some(MediaKind::Movie);
    assert_eq!(decide_submission(false, &settings, movie, true), Submission::Submit);
    assert_eq!(decide_submission(true, &settings, movie, true), Submission::AlreadyProbed);
    assert_eq!(decide_submission(false, &settings, movie, false), Submission::NoService);
    assert_eq!(decide_submission(false, &settings, None, true), Submission::OtherKind);
    settings.remuxdb_enabled = Some(false);
    assert_eq!(decide_submission(false, &settings, movie, true), Submission::Disabled);
}

#[test]
fn files_that_can_be_found_are_shared() {
    let probe = MediaSourceInfo {
        size: Some(900),
        run_time_ticks: Some(70),
        container: Some("mkv".to_string()),
        ..Default::default()
    };
    let mut stream = torrent(1, 1);
    if let Some(StreamInfo {
        descriptor: StreamDescriptor::Torrent { file_idx, .. },
        ..
    }) = stream.stream_info.as_mut()
    {
        *file_idx = Some((1 << 32) + 5);
    }
    let episode = Media {
        kind: MediaKind::Episode,
        parent_idx: Some(2),
        idx: Some(-1),
        external_ids: ExternalIds { tmdb: Some(5), ..Default::default() },
        grandparent_imdb: Some("tt1".to_string()),
        ..Default::default()
    };
    let p = media_info_from_probe(&probe, &stream, Some(&episode)).unwrap();
    assert_eq!((p.kind.as_str(), p.size, p.run_time_ticks), ("episode", 900, 70));
    assert_eq!(p.torrent_file_idx, Some(5));
    assert_eq!((p.season, p.episode), (Some(2), Some(-1)));
    assert_eq!(p.external_ids.unwrap().imdb_id.as_deref(), Some("tt1"));
    assert_eq!(p.filename, "Torrentio\n1080p");
    let empty = MediaSourceInfo { size: Some(0), ..Default::default() };
    assert!(media_info_from_probe(&empty, &stream, None).is_none());
    assert!(media_info_from_probe(&probe, &parent(), None).is_none());
}
