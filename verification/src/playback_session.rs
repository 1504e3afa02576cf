//! Playbacks: those that run, those that are starting, and those that failed to
//! start. Times are nanoseconds of one clock.

use vstd::prelude::*;

use dashmap::DashMap;

use crate::dash::{
    failure_map, lists_all, lookup, new_failure_map, new_session_map, new_startup_map, session_map,
    startup_map, text_contains, text_entries, text_get, text_insert, text_len, text_remove,
};
use crate::media::MediaKind;
use crate::ids::{hyphenated_id, hyphenated_text, parse_id, parsed_id};
use crate::text::{in_dir, join_path, same_text, text_opt, texts};

verus! {

/// A transcode that belongs to a playback: the number under which it runs, and
/// the source that it reads.
#[derive(Debug, Clone, Copy, PartialEq, Eq, Structural)]
pub struct TranscodeHandle {
    pub number: u64,
    pub media_source_id: u128,
}

/// A playback.
#[derive(Debug)]
pub struct PlaybackSession {
    pub play_session_id: String,
    pub user_id: u128,
    pub item_id: u128,
    pub media_source_id: Option<String>,
    pub device_id: String,
    pub client_name: String,
    pub position_ticks: i64,
    pub can_seek: bool,
    pub is_paused: bool,
    pub last_paused_at: Option<i128>,
    pub is_muted: bool,
    pub volume_level: Option<i32>,
    pub audio_stream_index: Option<i32>,
    pub subtitle_stream_index: Option<i32>,
    pub play_method: Option<String>,
    /// The queue of the client, as it was sent.
    pub now_playing_queue: Option<String>,
    pub playlist_item_id: Option<String>,
    pub started_at: i128,
    pub last_activity: i128,
    pub transcode: Option<TranscodeHandle>,
    /// The group that the source belongs to.
    pub group_id: Option<u128>,
    pub item_kind: Option<MediaKind>,
}

fn copy_text_opt(s: &Option<String>) -> (r: Option<String>)
    ensures
        r == *s,
{
    match s {
        Some(t) => Some(t.clone()),
        None => None,
    }
}

impl Clone for PlaybackSession {
    fn clone(&self) -> (r: PlaybackSession)
        ensures
            r == *self,
    {
        PlaybackSession {
            play_session_id: self.play_session_id.clone(),
            user_id: self.user_id,
            item_id: self.item_id,
            media_source_id: copy_text_opt(&self.media_source_id),
            device_id: self.device_id.clone(),
            client_name: self.client_name.clone(),
            position_ticks: self.position_ticks,
            can_seek: self.can_seek,
            is_paused: self.is_paused,
            last_paused_at: self.last_paused_at,
            is_muted: self.is_muted,
            volume_level: self.volume_level,
            audio_stream_index: self.audio_stream_index,
            subtitle_stream_index: self.subtitle_stream_index,
            play_method: copy_text_opt(&self.play_method),
            now_playing_queue: copy_text_opt(&self.now_playing_queue),
            playlist_item_id: copy_text_opt(&self.playlist_item_id),
            started_at: self.started_at,
            last_activity: self.last_activity,
            transcode: self.transcode,
            group_id: self.group_id,
            item_kind: self.item_kind,
        }
    }
}

/// A playback that is starting, with the time that each step took from the
/// start on.
#[derive(Debug)]
pub struct PlaybackStartup {
    pub started_at: i128,
    /// The start by the clock that measures spans.
    pub started: u64,
    pub item_id: u128,
    pub user_id: u128,
    pub device_id: String,
    pub client_name: String,
    pub media_source_id: Option<u128>,
    pub playback_info_ready: Option<u64>,
    pub hls_requested: Option<u64>,
    pub source_selected: Option<u64>,
    pub transcode_started: Option<u64>,
    pub first_segment_served: Option<u64>,
}

impl Clone for PlaybackStartup {
    fn clone(&self) -> (r: PlaybackStartup)
        ensures
            r == *self,
    {
        PlaybackStartup {
            started_at: self.started_at,
            started: self.started,
            item_id: self.item_id,
            user_id: self.user_id,
            device_id: self.device_id.clone(),
            client_name: self.client_name.clone(),
            media_source_id: self.media_source_id,
            playback_info_ready: self.playback_info_ready,
            hls_requested: self.hls_requested,
            source_selected: self.source_selected,
            transcode_started: self.transcode_started,
            first_segment_served: self.first_segment_served,
        }
    }
}

/// A playback that failed to start.
#[derive(Debug, Clone, Copy, PartialEq, Eq, Structural)]
pub struct PlaybackStartupFailure {
    pub item_id: u128,
    pub user_id: u128,
    pub failed_at: u64,
}

/// How far a playback that is starting has come.
#[derive(Debug, Clone)]
pub struct PlaybackStartupProgress {
    pub play_session_id: String,
    pub user_id: u128,
    pub elapsed: u64,
    pub playback_info_ready: bool,
    pub hls_requested: bool,
    pub source_selected: bool,
    pub transcode_started: bool,
    pub first_segment_served: bool,
}

/// What became of a playback that was starting. Spans are milliseconds.
#[derive(Debug, Clone)]
pub struct PlaybackStartupReport {
    pub play_session_id: String,
    pub item_id: u128,
    pub media_source_id: Option<u128>,
    pub user_id: u128,
    pub device_id: String,
    pub client_name: String,
    pub outcome: String,
    pub started_at: i128,
    pub playback_info_ms: Option<i64>,
    pub hls_requested_ms: Option<i64>,
    pub source_selected_ms: Option<i64>,
    pub transcode_started_ms: Option<i64>,
    pub first_segment_served_ms: Option<i64>,
    pub first_progress_ms: Option<i64>,
    pub estimated_actual_playback_ms: Option<i64>,
    pub confirmation_delay_ms: Option<i64>,
    pub failure_reason: Option<String>,
}

/// How long a failure is remembered, in nanoseconds.
pub const FAILURE_WINDOW_NS: u64 = 300_000_000_000;

/// How long a playback may be starting before it can be forgotten.
pub const STARTUP_WINDOW_NS: u64 = 1_800_000_000_000;

/// The number of starting playbacks above which old ones are forgotten.
pub const MAX_STARTUPS: usize = 128;

/// The time since `then`.
pub open spec fn elapsed(now: u64, then: u64) -> u64 {
    if now >= then {
        (now - then) as u64
    } else {
        0
    }
}

fn elapsed_since(now: u64, then: u64) -> (r: u64)
    ensures
        r == elapsed(now, then),
{
    now.saturating_sub(then)
}

/// A span in whole milliseconds.
pub open spec fn millis(span: Option<u64>) -> Option<i64> {
    match span {
        Some(ns) => Some((ns / 1_000_000) as i64),
        None => None,
    }
}

pub fn duration_ms(duration: Option<u64>) -> (r: Option<i64>)
    ensures
        r == millis(duration),
{
    match duration {
        Some(ns) => Some((ns / 1_000_000) as i64),
        None => None,
    }
}

/// The playbacks of a server.
pub struct PlaybackSessionManager {
    sessions: DashMap<String, PlaybackSession>,
    startups: DashMap<String, PlaybackStartup>,
    startup_failures: DashMap<String, PlaybackStartupFailure>,
    base_dir: String,
}

/// The failure of a device that still counts for a user.
pub open spec fn recent_failure(
    failures: Map<Seq<char>, PlaybackStartupFailure>,
    device: Seq<char>,
    user_id: u128,
    now: u64,
) -> Option<PlaybackStartupFailure> {
    if failures.contains_key(device) && elapsed(now, failures[device].failed_at)
        <= FAILURE_WINDOW_NS && failures[device].user_id == user_id {
        Some(failures[device])
    } else {
        None
    }
}

/// Whether the failure of a device that still counts for a user was with an
/// item.
pub open spec fn failed_with(
    failures: Map<Seq<char>, PlaybackStartupFailure>,
    device: Seq<char>,
    user_id: u128,
    item_id: u128,
    now: u64,
) -> bool {
    match recent_failure(failures, device, user_id, now) {
        Some(f) => f.item_id == item_id,
        None => false,
    }
}

/// The failures without that of a device which no longer counts.
pub open spec fn fresh_failures(
    failures: Map<Seq<char>, PlaybackStartupFailure>,
    device: Seq<char>,
    now: u64,
) -> Map<Seq<char>, PlaybackStartupFailure> {
    if failures.contains_key(device) && elapsed(now, failures[device].failed_at)
        > FAILURE_WINDOW_NS {
        failures.remove(device)
    } else {
        failures
    }
}

/// The starting playbacks without those that began too long ago.
pub open spec fn fresh_startups(startups: Map<Seq<char>, PlaybackStartup>, now: u64) -> Map<
    Seq<char>,
    PlaybackStartup,
> {
    Map::new(
        |k: Seq<char>|
            startups.contains_key(k) && elapsed(now, startups[k].started) < STARTUP_WINDOW_NS,
        |k: Seq<char>| startups[k],
    )
}

impl PlaybackSessionManager {
    /// The playbacks that run.
    pub closed spec fn sessions(&self) -> Map<Seq<char>, PlaybackSession> {
        session_map(self.sessions)
    }

    /// The playbacks that are starting.
    pub closed spec fn startups(&self) -> Map<Seq<char>, PlaybackStartup> {
        startup_map(self.startups)
    }

    /// The last failure of each device.
    pub closed spec fn failures(&self) -> Map<Seq<char>, PlaybackStartupFailure> {
        failure_map(self.startup_failures)
    }

    /// The directory of all transcodes.
    pub closed spec fn dir(&self) -> Seq<char> {
        self.base_dir@
    }

    pub fn new(base_dir: String) -> (r: PlaybackSessionManager)
        ensures
            r.sessions() == Map::<Seq<char>, PlaybackSession>::empty(),
            r.startups() == Map::<Seq<char>, PlaybackStartup>::empty(),
            r.failures() == Map::<Seq<char>, PlaybackStartupFailure>::empty(),
            r.dir() == base_dir@,
    {
        let r = PlaybackSessionManager {
            sessions: new_session_map(),
            startups: new_startup_map(),
            startup_failures: new_failure_map(),
            base_dir,
        };
        assert(r.sessions() =~= Map::<Seq<char>, PlaybackSession>::empty());
        assert(r.startups() =~= Map::<Seq<char>, PlaybackStartup>::empty());
        assert(r.failures() =~= Map::<Seq<char>, PlaybackStartupFailure>::empty());
        r
    }

    /// The failure of a device that still counts for a user; one that is too old
    /// is forgotten.
    fn recent_startup_failure(&mut self, device_id: &str, user_id: u128, now: u64) -> (r: Option<
        PlaybackStartupFailure,
    >)
        ensures
            r == recent_failure(old(self).failures(), device_id@, user_id, now),
            final(self).failures() == fresh_failures(old(self).failures(), device_id@, now),
            final(self).sessions() == old(self).sessions(),
            final(self).startups() == old(self).startups(),
            final(self).dir() == old(self).dir(),
    {
        match text_get(&self.startup_failures, device_id) {
            Some(failure) => {
                if elapsed_since(now, failure.failed_at) > FAILURE_WINDOW_NS {
                    text_remove(&mut self.startup_failures, device_id);
                    None
                } else if failure.user_id == user_id {
                    Some(failure)
                } else {
                    None
                }
            },
            None => None,
        }
    }

    pub fn has_recent_startup_failure(&mut self, device_id: &str, user_id: u128, now: u64) -> (r:
        bool)
        ensures
            r == recent_failure(old(self).failures(), device_id@, user_id, now) is Some,
            final(self).failures() == fresh_failures(old(self).failures(), device_id@, now),
            final(self).sessions() == old(self).sessions(),
            final(self).startups() == old(self).startups(),
            final(self).dir() == old(self).dir(),
    {
        self.recent_startup_failure(device_id, user_id, now).is_some()
    }

    pub fn clear_startup_failure(&mut self, device_id: &str)
        ensures
            final(self).failures() == old(self).failures().remove(device_id@),
            final(self).sessions() == old(self).sessions(),
            final(self).startups() == old(self).startups(),
            final(self).dir() == old(self).dir(),
    {
        text_remove(&mut self.startup_failures, device_id);
    }

    /// Forgets the starting playbacks that began too long ago.
    fn drop_old_startups(&mut self, now: u64)
        ensures
            final(self).startups() == fresh_startups(old(self).startups(), now),
            final(self).failures() == old(self).failures(),
            final(self).sessions() == old(self).sessions(),
            final(self).dir() == old(self).dir(),
    {
        let entries = text_entries(&self.startups);
        let ghost all = old(self).startups();
        let ghost old_before = |n: int|
            Map::new(
                |k: Seq<char>|
                    all.contains_key(k) && !(exists|j: int|
                        0 <= j < n && (#[trigger] entries@[j]).0@ == k && elapsed(
                            now,
                            all[k].started,
                        ) >= STARTUP_WINDOW_NS),
                |k: Seq<char>| all[k],
            );
        let mut i: usize = 0;
        assert(self.startups() =~= old_before(0));
        while i < entries.len()
            invariant
                i <= entries.len(),
                all == old(self).startups(),
                lists_all(entries@, all),
                old_before == (|n: int|
                    Map::new(
                        |k: Seq<char>|
                            all.contains_key(k) && !(exists|j: int|
                                0 <= j < n && (#[trigger] entries@[j]).0@ == k && elapsed(
                                    now,
                                    all[k].started,
                                ) >= STARTUP_WINDOW_NS),
                        |k: Seq<char>| all[k],
                    )),
                self.startups() == old_before(i as int),
                self.failures() == old(self).failures(),
                self.sessions() == old(self).sessions(),
                self.dir() == old(self).dir(),
            decreases entries.len() - i,
        {
            let ghost before = self.startups();
            let ghost key = entries@[i as int].0@;
            let started: u64 = entries[i].1.started;
            assert(started == all[key].started);
            if elapsed_since(now, started) >= STARTUP_WINDOW_NS {
                text_remove(&mut self.startups, entries[i].0.as_str());
                assert(self.startups() == before.remove(key));
            }
            assert(self.startups() =~= old_before(i + 1)) by {
                assert forall|k: Seq<char>| old_before(i + 1).contains_key(k) implies (
                self.startups()).contains_key(k) by {
                    assert(old_before(i as int).contains_key(k));
                    if k == key {
                        assert(entries@[i as int].0@ == k);
                    }
                }
                assert forall|k: Seq<char>| self.startups().contains_key(k) implies old_before(
                    i + 1,
                ).contains_key(k) by {
                    assert(old_before(i as int).contains_key(k));
                }
            }
            i = i + 1;
        }
        proof {
            let n = entries@.len() as int;
            assert forall|k: Seq<char>| old_before(n).contains_key(k) implies fresh_startups(
                all,
                now,
            ).contains_key(k) by {
                let j = choose|j: int| 0 <= j < n && (#[trigger] entries@[j]).0@ == k;
                assert(entries@[j].0@ == k);
            }
            assert(self.startups() =~= fresh_startups(all, now));
        }
    }

    /// Notes that a client wants to play something. A failure of the same device
    /// with the same item stays visible; one with another item is forgotten.
    pub fn begin_startup(
        &mut self,
        play_session_id: &str,
        item_id: u128,
        user_id: u128,
        device_id: &str,
        client_name: &str,
        started_at: i128,
        now: u64,
    )
        ensures
            final(self).failures() == if failed_with(
                old(self).failures(),
                device_id@,
                user_id,
                item_id,
                now,
            ) {
                old(self).failures()
            } else {
                old(self).failures().remove(device_id@)
            },
            exists|startup: PlaybackStartup|
                {
                    &&& final(self).startups() == (if old(self).startups().len() > MAX_STARTUPS {
                        fresh_startups(old(self).startups(), now)
                    } else {
                        old(self).startups()
                    }).insert(play_session_id@, startup)
                    &&& #[trigger] new_startup(
                        startup,
                        item_id,
                        user_id,
                        device_id@,
                        client_name@,
                        started_at,
                        now,
                    )
                },
            final(self).sessions() == old(self).sessions(),
            final(self).dir() == old(self).dir(),
    {
        let preserve = match self.recent_startup_failure(device_id, user_id, now) {
            Some(failure) => failure.item_id == item_id,
            None => false,
        };
        if !preserve {
            text_remove(&mut self.startup_failures, device_id);
            assert(self.failures() =~= old(self).failures().remove(device_id@));
        }
        if text_len(&self.startups) > MAX_STARTUPS {
            self.drop_old_startups(now);
        }
        let startup = PlaybackStartup {
            started_at,
            started: now,
            item_id,
            user_id,
            device_id: device_id.to_owned(),
            client_name: client_name.to_owned(),
            media_source_id: None,
            playback_info_ready: None,
            hls_requested: None,
            source_selected: None,
            transcode_started: None,
            first_segment_served: None,
        };
        assert(new_startup(
            startup,
            item_id,
            user_id,
            device_id@,
            client_name@,
            started_at,
            now,
        ));
        text_insert(&mut self.startups, play_session_id.to_owned(), startup);
    }

    /// Whether a playback is starting.
    pub fn has_startup(&self, play_session_id: &str) -> (r: bool)
        ensures
            r == self.startups().contains_key(play_session_id@),
    {
        text_contains(&self.startups, play_session_id)
    }
}

/// A playback that has just begun to start.
pub open spec fn new_startup(
    s: PlaybackStartup,
    item_id: u128,
    user_id: u128,
    device_id: Seq<char>,
    client_name: Seq<char>,
    started_at: i128,
    now: u64,
) -> bool {
    &&& s.started_at == started_at
    &&& s.started == now
    &&& s.item_id == item_id
    &&& s.user_id == user_id
    &&& s.device_id@ == device_id
    &&& s.client_name@ == client_name
    &&& s.media_source_id is None
    &&& s.playback_info_ready is None
    &&& s.hls_requested is None
    &&& s.source_selected is None
    &&& s.transcode_started is None
    &&& s.first_segment_served is None
}

/// Whether `p` tells of the startup `s` under `key`.
pub open spec fn tells_of(
    p: PlaybackStartupProgress,
    key: Seq<char>,
    s: PlaybackStartup,
    now: u64,
) -> bool {
    &&& p.play_session_id@ == key
    &&& p.user_id == s.user_id
    &&& p.elapsed == elapsed(now, s.started)
    &&& p.playback_info_ready == s.playback_info_ready is Some
    &&& p.hls_requested == s.hls_requested is Some
    &&& p.source_selected == s.source_selected is Some
    &&& p.transcode_started == s.transcode_started is Some
    &&& p.first_segment_served == s.first_segment_served is Some
}

/// Whether the startup under `key` is a newest one of its device.
pub open spec fn newest_of(
    startups: Map<Seq<char>, PlaybackStartup>,
    device: Seq<char>,
    key: Seq<char>,
) -> bool {
    &&& startups.contains_key(key)
    &&& startups[key].device_id@ == device
    &&& forall|k: Seq<char>| #[trigger]
        startups.contains_key(k) && startups[k].device_id@ == device ==> startups[k].started
            <= startups[key].started
}

/// What a report says of a startup that has ended.
pub open spec fn reports(
    r: PlaybackStartupReport,
    key: Seq<char>,
    s: PlaybackStartup,
    outcome: Seq<char>,
    first_progress: Option<u64>,
    estimated: Option<u64>,
    reason: Option<Seq<char>>,
) -> bool {
    &&& r.play_session_id@ == key
    &&& r.item_id == s.item_id
    &&& r.media_source_id == s.media_source_id
    &&& r.user_id == s.user_id
    &&& r.device_id@ == s.device_id@
    &&& r.client_name@ == s.client_name@
    &&& r.outcome@ == outcome
    &&& r.started_at == s.started_at
    &&& r.playback_info_ms == millis(s.playback_info_ready)
    &&& r.hls_requested_ms == millis(s.hls_requested)
    &&& r.source_selected_ms == millis(s.source_selected)
    &&& r.transcode_started_ms == millis(s.transcode_started)
    &&& r.first_segment_served_ms == millis(s.first_segment_served)
    &&& r.first_progress_ms == millis(first_progress)
    &&& r.estimated_actual_playback_ms == millis(estimated)
    &&& r.confirmation_delay_ms == millis(
        match (first_progress, estimated) {
            (Some(c), Some(e)) => Some(elapsed(c, e)),
            _ => None,
        },
    )
    &&& text_opt(r.failure_reason) == reason
}

fn startup_report(
    play_session_id: &str,
    startup: PlaybackStartup,
    outcome: &str,
    first_progress: Option<u64>,
    estimated_actual_playback: Option<u64>,
    failure_reason: Option<String>,
) -> (r: PlaybackStartupReport)
    ensures
        reports(
            r,
            play_session_id@,
            startup,
            outcome@,
            first_progress,
            estimated_actual_playback,
            text_opt(failure_reason),
        ),
{
    let delay: Option<u64> = match (first_progress, estimated_actual_playback) {
        (Some(c), Some(e)) => Some(elapsed_since(c, e)),
        _ => None,
    };
    PlaybackStartupReport {
        play_session_id: play_session_id.to_owned(),
        item_id: startup.item_id,
        media_source_id: startup.media_source_id,
        user_id: startup.user_id,
        device_id: startup.device_id,
        client_name: startup.client_name,
        outcome: outcome.to_owned(),
        started_at: startup.started_at,
        playback_info_ms: duration_ms(startup.playback_info_ready),
        hls_requested_ms: duration_ms(startup.hls_requested),
        source_selected_ms: duration_ms(startup.source_selected),
        transcode_started_ms: duration_ms(startup.transcode_started),
        first_segment_served_ms: duration_ms(startup.first_segment_served),
        first_progress_ms: duration_ms(first_progress),
        estimated_actual_playback_ms: duration_ms(estimated_actual_playback),
        confirmation_delay_ms: duration_ms(delay),
        failure_reason,
    }
}

/// The ticks by which playback has advanced.
pub open spec fn advanced_ticks(initial: i64, position: Option<i64>) -> int {
    match position {
        Some(p) => if p - initial > i64::MAX {
            i64::MAX as int
        } else if p > initial {
            p - initial
        } else {
            0
        },
        None => 0,
    }
}

/// Whether a progress report confirms that playback has started.
pub open spec fn confirms(initial: i64, position: Option<i64>, is_paused: bool) -> bool {
    !is_paused && advanced_ticks(initial, position) > 0
}

/// When playback really started, counted from the start of the trace: the time
/// of the report less what was played, but not before the first segment.
pub open spec fn estimated_start(s: PlaybackStartup, advanced: int, now: u64) -> u64 {
    let confirmed = elapsed(now, s.started);
    let played = if advanced * 100 <= u64::MAX {
        (advanced * 100) as u64
    } else {
        u64::MAX
    };
    let backdated = elapsed(confirmed, played);
    match s.first_segment_served {
        Some(f) => if f > backdated {
            f
        } else {
            backdated
        },
        None => backdated,
    }
}

/// The steps of a startup that are timed.
#[derive(Debug, Clone, Copy, PartialEq, Eq, Structural)]
pub enum Milestone {
    PlaybackInfoReady,
    HlsRequested,
    /// The source that was chosen.
    SourceSelected(u128),
    TranscodeStarted,
    FirstSegmentServed,
}

/// The first of two spans that is known.
pub open spec fn first_known(known: Option<u64>, now: u64) -> Option<u64> {
    match known {
        Some(t) => Some(t),
        None => Some(now),
    }
}

/// A startup after a step. The first time of a step counts, but for the choice
/// of a source, where the last one does.
pub open spec fn after_milestone(s: PlaybackStartup, step: Milestone, span: u64) -> PlaybackStartup {
    match step {
        Milestone::PlaybackInfoReady => PlaybackStartup {
            playback_info_ready: first_known(s.playback_info_ready, span),
            ..s
        },
        Milestone::HlsRequested => PlaybackStartup {
            hls_requested: first_known(s.hls_requested, span),
            ..s
        },
        Milestone::SourceSelected(id) => PlaybackStartup {
            source_selected: Some(span),
            media_source_id: Some(id),
            ..s
        },
        Milestone::TranscodeStarted => PlaybackStartup {
            transcode_started: first_known(s.transcode_started, span),
            ..s
        },
        Milestone::FirstSegmentServed => PlaybackStartup {
            first_segment_served: first_known(s.first_segment_served, span),
            ..s
        },
    }
}

fn keep_first(known: Option<u64>, now: u64) -> (r: Option<u64>)
    ensures
        r == first_known(known, now),
{
    match known {
        Some(t) => Some(t),
        None => Some(now),
    }
}

impl PlaybackSessionManager {
    /// The newest startup of a device.
    pub fn startup_progress_for_device(&self, device_id: &str, now: u64) -> (r: Option<
        PlaybackStartupProgress,
    >)
        ensures
            match r {
                Some(p) => exists|key: Seq<char>| #[trigger]
                    newest_of(self.startups(), device_id@, key) && tells_of(
                        p,
                        key,
                        self.startups()[key],
                        now,
                    ),
                None => forall|k: Seq<char>| #[trigger]
                    self.startups().contains_key(k) ==> self.startups()[k].device_id@
                        != device_id@,
            },
    {
        let entries = text_entries(&self.startups);
        let ghost all = self.startups();
        let mut best: Option<usize> = None;
        let mut i: usize = 0;
        while i < entries.len()
            invariant
                i <= entries.len(),
                all == self.startups(),
                lists_all(entries@, all),
                match best {
                    Some(b) => b < i && entries@[b as int].1.device_id@ == device_id@ && forall|
                        j: int,
                    |
                        0 <= j < i && (#[trigger] entries@[j]).1.device_id@ == device_id@
                            ==> entries@[j].1.started <= entries@[b as int].1.started,
                    None => forall|j: int|
                        0 <= j < i ==> (#[trigger] entries@[j]).1.device_id@ != device_id@,
                },
            decreases entries.len() - i,
        {
            if same_text(entries[i].1.device_id.as_str(), device_id) {
                let newer = match best {
                    Some(b) => entries[i].1.started >= entries[b].1.started,
                    None => true,
                };
                if newer {
                    best = Some(i);
                }
            }
            i = i + 1;
        }
        match best {
            Some(b) => {
                let s = &entries[b].1;
                let p = PlaybackStartupProgress {
                    play_session_id: entries[b].0.clone(),
                    user_id: s.user_id,
                    elapsed: elapsed_since(now, s.started),
                    playback_info_ready: s.playback_info_ready.is_some(),
                    hls_requested: s.hls_requested.is_some(),
                    source_selected: s.source_selected.is_some(),
                    transcode_started: s.transcode_started.is_some(),
                    first_segment_served: s.first_segment_served.is_some(),
                };
                proof {
                    let key = entries@[b as int].0@;
                    assert(all[key] == *s);
                    assert forall|k: Seq<char>| #[trigger]
                        all.contains_key(k) && all[k].device_id@ == device_id@ implies all[k].started
                        <= all[key].started by {
                        let j = choose|j: int|
                            0 <= j < entries@.len() && (#[trigger] entries@[j]).0@ == k;
                        assert(all[k] == entries@[j].1);
                    }
                    assert(newest_of(all, device_id@, key));
                }
                Some(p)
            },
            None => {
                proof {
                    assert forall|k: Seq<char>| #[trigger] all.contains_key(k) implies all[k].device_id@
                        != device_id@ by {
                        let j = choose|j: int|
                            0 <= j < entries@.len() && (#[trigger] entries@[j]).0@ == k;
                        assert(all[k] == entries@[j].1);
                    }
                }
                None
            },
        }
    }

    /// Notes a step of a startup, where there is one.
    pub fn mark(&mut self, play_session_id: &str, step: Milestone, now: u64)
        ensures
            final(self).startups() == match lookup(old(self).startups(), play_session_id@) {
                Some(s) => old(self).startups().insert(
                    play_session_id@,
                    after_milestone(s, step, elapsed(now, s.started)),
                ),
                None => old(self).startups(),
            },
            final(self).failures() == old(self).failures(),
            final(self).sessions() == old(self).sessions(),
            final(self).dir() == old(self).dir(),
    {
        match text_remove(&mut self.startups, play_session_id) {
            Some(startup) => {
                let mut s = startup;
                let span = elapsed_since(now, s.started);
                match step {
                    Milestone::PlaybackInfoReady => {
                        s.playback_info_ready = keep_first(s.playback_info_ready, span);
                    },
                    Milestone::HlsRequested => {
                        s.hls_requested = keep_first(s.hls_requested, span);
                    },
                    Milestone::SourceSelected(id) => {
                        s.source_selected = Some(span);
                        s.media_source_id = Some(id);
                    },
                    Milestone::TranscodeStarted => {
                        s.transcode_started = keep_first(s.transcode_started, span);
                    },
                    Milestone::FirstSegmentServed => {
                        s.first_segment_served = keep_first(s.first_segment_served, span);
                    },
                }
                text_insert(&mut self.startups, play_session_id.to_owned(), s);
                assert(self.startups() =~= old(self).startups().insert(
                    play_session_id@,
                    after_milestone(startup, step, elapsed(now, startup.started)),
                ));
            },
            None => {
                assert(self.startups() =~= old(self).startups());
            },
        }
    }

    pub fn mark_playback_info_ready(&mut self, play_session_id: &str, now: u64)
        ensures
            final(self).startups() == match lookup(old(self).startups(), play_session_id@) {
                Some(s) => old(self).startups().insert(
                    play_session_id@,
                    after_milestone(s, Milestone::PlaybackInfoReady, elapsed(now, s.started)),
                ),
                None => old(self).startups(),
            },
            final(self).failures() == old(self).failures(),
            final(self).sessions() == old(self).sessions(),
            final(self).dir() == old(self).dir(),
    {
        self.mark(play_session_id, Milestone::PlaybackInfoReady, now);
    }

    pub fn mark_hls_requested(&mut self, play_session_id: &str, now: u64)
        ensures
            final(self).startups() == match lookup(old(self).startups(), play_session_id@) {
                Some(s) => old(self).startups().insert(
                    play_session_id@,
                    after_milestone(s, Milestone::HlsRequested, elapsed(now, s.started)),
                ),
                None => old(self).startups(),
            },
            final(self).failures() == old(self).failures(),
            final(self).sessions() == old(self).sessions(),
            final(self).dir() == old(self).dir(),
    {
        self.mark(play_session_id, Milestone::HlsRequested, now);
    }

    pub fn mark_source_selected(&mut self, play_session_id: &str, media_source_id: u128, now: u64)
        ensures
            final(self).startups() == match lookup(old(self).startups(), play_session_id@) {
                Some(s) => old(self).startups().insert(
                    play_session_id@,
                    after_milestone(
                        s,
                        Milestone::SourceSelected(media_source_id),
                        elapsed(now, s.started),
                    ),
                ),
                None => old(self).startups(),
            },
            final(self).failures() == old(self).failures(),
            final(self).sessions() == old(self).sessions(),
            final(self).dir() == old(self).dir(),
    {
        self.mark(play_session_id, Milestone::SourceSelected(media_source_id), now);
    }

    pub fn mark_transcode_started(&mut self, play_session_id: &str, now: u64)
        ensures
            final(self).startups() == match lookup(old(self).startups(), play_session_id@) {
                Some(s) => old(self).startups().insert(
                    play_session_id@,
                    after_milestone(s, Milestone::TranscodeStarted, elapsed(now, s.started)),
                ),
                None => old(self).startups(),
            },
            final(self).failures() == old(self).failures(),
            final(self).sessions() == old(self).sessions(),
            final(self).dir() == old(self).dir(),
    {
        self.mark(play_session_id, Milestone::TranscodeStarted, now);
    }

    pub fn mark_first_segment_served(&mut self, play_session_id: &str, now: u64)
        ensures
            final(self).startups() == match lookup(old(self).startups(), play_session_id@) {
                Some(s) => old(self).startups().insert(
                    play_session_id@,
                    after_milestone(s, Milestone::FirstSegmentServed, elapsed(now, s.started)),
                ),
                None => old(self).startups(),
            },
            final(self).failures() == old(self).failures(),
            final(self).sessions() == old(self).sessions(),
            final(self).dir() == old(self).dir(),
    {
        self.mark(play_session_id, Milestone::FirstSegmentServed, now);
    }

    /// Ends a startup with the first report of a position that advances.
    pub fn confirm_startup(
        &mut self,
        play_session_id: &str,
        initial_position_ticks: i64,
        position_ticks: Option<i64>,
        is_paused: bool,
        now: u64,
    ) -> (r: Option<PlaybackStartupReport>)
        ensures
            ({
                let startup = lookup(old(self).startups(), play_session_id@);
                if confirms(initial_position_ticks, position_ticks, is_paused) && startup is Some {
                    let s = startup->0;
                    &&& r matches Some(report) && reports(
                        report,
                        play_session_id@,
                        s,
                        "started"@,
                        Some(elapsed(now, s.started)),
                        Some(
                            estimated_start(
                                s,
                                advanced_ticks(initial_position_ticks, position_ticks),
                                now,
                            ),
                        ),
                        None,
                    )
                    &&& final(self).startups() == old(self).startups().remove(play_session_id@)
                    &&& final(self).failures() == old(self).failures().remove(s.device_id@)
                } else {
                    &&& r is None
                    &&& final(self).startups() == old(self).startups()
                    &&& final(self).failures() == old(self).failures()
                }
            }),
            final(self).sessions() == old(self).sessions(),
            final(self).dir() == old(self).dir(),
    {
        if is_paused {
            return None;
        }
        let position: i64 = match position_ticks {
            Some(p) => p,
            None => {
                return None;
            },
        };
        let difference: i128 = position as i128 - initial_position_ticks as i128;
        if difference <= 0 {
            return None;
        }
        let advanced: u64 = if difference > i64::MAX as i128 {
            i64::MAX as u64
        } else {
            difference as u64
        };
        match text_remove(&mut self.startups, play_session_id) {
            Some(startup) => {
                text_remove(&mut self.startup_failures, startup.device_id.as_str());
                let confirmed = elapsed_since(now, startup.started);
                let played: u64 = if advanced as u128 * 100 <= u64::MAX as u128 {
                    advanced * 100
                } else {
                    u64::MAX
                };
                let backdated = elapsed_since(confirmed, played);
                let estimated: u64 = match startup.first_segment_served {
                    Some(f) => if f > backdated {
                        f
                    } else {
                        backdated
                    },
                    None => backdated,
                };
                Some(
                    startup_report(
                        play_session_id,
                        startup,
                        "started",
                        Some(confirmed),
                        Some(estimated),
                        None,
                    ),
                )
            },
            None => {
                assert(self.startups() =~= old(self).startups());
                None
            },
        }
    }

    fn end_startup(&mut self, play_session_id: &str, outcome: &str, reason: String) -> (r: Option<
        PlaybackStartupReport,
    >)
        ensures
            match lookup(old(self).startups(), play_session_id@) {
                Some(s) => r matches Some(report) && reports(
                    report,
                    play_session_id@,
                    s,
                    outcome@,
                    None,
                    None,
                    Some(reason@),
                ),
                None => r is None,
            },
            final(self).startups() == old(self).startups().remove(play_session_id@),
            final(self).failures() == old(self).failures(),
            final(self).sessions() == old(self).sessions(),
            final(self).dir() == old(self).dir(),
    {
        match text_remove(&mut self.startups, play_session_id) {
            Some(startup) => Some(
                startup_report(play_session_id, startup, outcome, None, None, Some(reason)),
            ),
            None => None,
        }
    }

    /// Ends a startup that failed, and remembers the failure of its device.
    pub fn fail_startup(&mut self, play_session_id: &str, reason: String, now: u64) -> (r: Option<
        PlaybackStartupReport,
    >)
        ensures
            match lookup(old(self).startups(), play_session_id@) {
                Some(s) => {
                    &&& r matches Some(report) && reports(
                        report,
                        play_session_id@,
                        s,
                        "failed"@,
                        None,
                        None,
                        Some(reason@),
                    )
                    &&& final(self).failures() == old(self).failures().insert(
                        s.device_id@,
                        PlaybackStartupFailure {
                            item_id: s.item_id,
                            user_id: s.user_id,
                            failed_at: now,
                        },
                    )
                },
                None => r is None && final(self).failures() == old(self).failures(),
            },
            final(self).startups() == old(self).startups().remove(play_session_id@),
            final(self).sessions() == old(self).sessions(),
            final(self).dir() == old(self).dir(),
    {
        match self.end_startup(play_session_id, "failed", reason) {
            Some(report) => {
                text_insert(
                    &mut self.startup_failures,
                    report.device_id.clone(),
                    PlaybackStartupFailure {
                        item_id: report.item_id,
                        user_id: report.user_id,
                        failed_at: now,
                    },
                );
                Some(report)
            },
            None => None,
        }
    }

    /// Ends a startup that the client gave up.
    pub fn abandon_startup(&mut self, play_session_id: &str, reason: String) -> (r: Option<
        PlaybackStartupReport,
    >)
        ensures
            match lookup(old(self).startups(), play_session_id@) {
                Some(s) => r matches Some(report) && reports(
                    report,
                    play_session_id@,
                    s,
                    "abandoned"@,
                    None,
                    None,
                    Some(reason@),
                ),
                None => r is None,
            },
            final(self).startups() == old(self).startups().remove(play_session_id@),
            final(self).failures() == old(self).failures(),
            final(self).sessions() == old(self).sessions(),
            final(self).dir() == old(self).dir(),
    {
        self.end_startup(play_session_id, "abandoned", reason)
    }
}

/// The estimate of the real start lies neither before the first segment nor,
/// where that was served in time, behind the report.
pub proof fn law_estimate_is_bounded(s: PlaybackStartup, advanced: int, now: u64)
    requires
        advanced >= 0,
    ensures
        s.first_segment_served matches Some(f) ==> estimated_start(s, advanced, now) >= f,
        (s.first_segment_served matches Some(f) ==> f <= elapsed(now, s.started))
            ==> estimated_start(s, advanced, now) <= elapsed(now, s.started),
{
}

/// A startup that ended in failure is visible to the same user of the device
/// for five minutes, also across a new attempt at the same item; an attempt at
/// another item hides it.
pub proof fn law_failure_stays_visible(
    failures: Map<Seq<char>, PlaybackStartupFailure>,
    device: Seq<char>,
    failure: PlaybackStartupFailure,
    item_id: u128,
    now: u64,
)
    requires
        elapsed(now, failure.failed_at) <= FAILURE_WINDOW_NS,
    ensures
        ({
            let after = failures.insert(device, failure);
            &&& recent_failure(after, device, failure.user_id, now) == Some(failure)
            &&& failed_with(after, device, failure.user_id, item_id, now) <==> failure.item_id
                == item_id
            &&& recent_failure(after.remove(device), device, failure.user_id, now) is None
        }),
{
}

// ---------------------------------------------------------------------------
// Playbacks that run
// ---------------------------------------------------------------------------

/// What a client reports of a playback. A missing item is zero.
#[derive(Debug)]
pub struct PlaybackInfo {
    pub play_session_id: Option<String>,
    pub item_id: u128,
    pub media_source_id: Option<String>,
    pub position_ticks: Option<i64>,
    pub can_seek: bool,
    pub is_paused: bool,
    pub is_muted: bool,
    pub volume_level: Option<i32>,
    pub audio_stream_index: Option<i32>,
    pub subtitle_stream_index: Option<i32>,
    pub play_method: Option<String>,
    pub now_playing_queue: Option<String>,
    pub playlist_item_id: Option<String>,
}

/// Whether a session is another one of the same device.
pub open spec fn other_of_device(
    key: Seq<char>,
    s: PlaybackSession,
    device: Seq<char>,
    except: Seq<char>,
) -> bool {
    device.len() > 0 && s.device_id@ == device && key != except
}

/// The sessions without the other ones of a device.
pub open spec fn without_others(
    sessions: Map<Seq<char>, PlaybackSession>,
    device: Seq<char>,
    except: Seq<char>,
) -> Map<Seq<char>, PlaybackSession> {
    Map::new(
        |k: Seq<char>|
            sessions.contains_key(k) && !other_of_device(k, sessions[k], device, except),
        |k: Seq<char>| sessions[k],
    )
}

/// Whether a list names the other sessions of a device, each once.
pub open spec fn names_others(
    list: Seq<Seq<char>>,
    sessions: Map<Seq<char>, PlaybackSession>,
    device: Seq<char>,
    except: Seq<char>,
) -> bool {
    &&& list.no_duplicates()
    &&& forall|k: Seq<char>| #[trigger]
        list.contains(k) <==> sessions.contains_key(k) && other_of_device(
            k,
            sessions[k],
            device,
            except,
        )
}

/// Whether a session plays a source, directly or through its transcode.
pub open spec fn plays_source(s: PlaybackSession, source_id: u128) -> bool {
    ||| s.media_source_id matches Some(id) && parsed_id(id@) == Some(source_id)
    ||| s.transcode matches Some(t) && t.media_source_id == source_id
}

fn is_playing_source(s: &PlaybackSession, source_id: u128) -> (r: bool)
    ensures
        r == plays_source(*s, source_id),
{
    let direct = match &s.media_source_id {
        Some(id) => match parse_id(id.as_str()) {
            Some(x) => x == source_id,
            None => false,
        },
        None => false,
    };
    let transcoded = match s.transcode {
        Some(t) => t.media_source_id == source_id,
        None => false,
    };
    direct || transcoded
}

/// A session with the transcode of an earlier one, where it has none.
pub open spec fn with_transcode(s: PlaybackSession, earlier: Option<PlaybackSession>) -> PlaybackSession {
    match earlier {
        Some(e) if s.transcode is None => PlaybackSession { transcode: e.transcode, ..s },
        _ => s,
    }
}

/// Whether a user's session counts towards the limit, where a device is left
/// out.
pub open spec fn counts(s: PlaybackSession, user_id: u128, exclude: Option<Seq<char>>) -> bool {
    s.user_id == user_id && match exclude {
        Some(d) => s.device_id@ != d,
        None => true,
    }
}

/// The sessions that count.
pub open spec fn counted(
    sessions: Map<Seq<char>, PlaybackSession>,
    user_id: u128,
    exclude: Option<Seq<char>>,
) -> Set<Seq<char>> {
    Set::new(|k: Seq<char>| sessions.contains_key(k) && counts(sessions[k], user_id, exclude))
}

/// Whether the session under `key` is a most lately active one of a device.
pub open spec fn latest_of(
    sessions: Map<Seq<char>, PlaybackSession>,
    device: Seq<char>,
    key: Seq<char>,
) -> bool {
    &&& sessions.contains_key(key)
    &&& sessions[key].device_id@ == device
    &&& forall|k: Seq<char>| #[trigger]
        sessions.contains_key(k) && sessions[k].device_id@ == device ==> sessions[k].last_activity
            <= sessions[key].last_activity
}

/// A session whose device a new transcode can belong to.
pub open spec fn lends_device(s: PlaybackSession) -> bool {
    s.transcode is None && s.device_id@.len() > 0
}

/// Whether a device is that of a most lately active session without a
/// transcode, or empty where there is none.
pub open spec fn inherited_device(
    sessions: Map<Seq<char>, PlaybackSession>,
    device: Seq<char>,
) -> bool {
    ||| device.len() == 0 && forall|k: Seq<char>| #[trigger]
        sessions.contains_key(k) ==> !lends_device(sessions[k])
    ||| exists|key: Seq<char>|
        {
            &&& #[trigger] sessions.contains_key(key)
            &&& lends_device(sessions[key])
            &&& sessions[key].device_id@ == device
            &&& forall|k: Seq<char>| #[trigger]
                sessions.contains_key(k) && lends_device(sessions[k])
                    ==> sessions[k].last_activity <= sessions[key].last_activity
        }
}

/// A session that stands for a transcode before its playback is reported.
pub open spec fn is_stub(
    s: PlaybackSession,
    id: Seq<char>,
    device: Seq<char>,
    transcode: TranscodeHandle,
    now: i128,
) -> bool {
    &&& s.play_session_id@ == id
    &&& s.user_id == 0
    &&& s.item_id == 0
    &&& s.media_source_id is None
    &&& s.device_id@ == device
    &&& s.client_name@.len() == 0
    &&& s.position_ticks == 0
    &&& s.can_seek
    &&& !s.is_paused
    &&& s.last_paused_at is None
    &&& !s.is_muted
    &&& s.volume_level is None
    &&& s.audio_stream_index is None
    &&& s.subtitle_stream_index is None
    &&& s.play_method is None
    &&& s.now_playing_queue is None
    &&& s.playlist_item_id is None
    &&& s.started_at == now
    &&& s.last_activity == now
    &&& s.transcode == Some(transcode)
    &&& s.group_id is None
    &&& s.item_kind is None
}

proof fn lemma_all_listed<V: Clone>(
    entries: Seq<(String, V)>,
    held: Map<Seq<char>, V>,
    key: Seq<char>,
) -> (i: int)
    requires
        lists_all(entries, held),
        held.contains_key(key),
    ensures
        0 <= i < entries.len(),
        entries[i].0@ == key,
{
    choose|i: int| 0 <= i < entries.len() && (#[trigger] entries[i]).0@ == key
}

impl PlaybackSessionManager {
    /// What the other maps hold is as before.
    pub open spec fn only_sessions_differ(&self, before: PlaybackSessionManager) -> bool {
        &&& self.startups() == before.startups()
        &&& self.failures() == before.failures()
        &&& self.dir() == before.dir()
    }

    /// The session under an identifier.
    pub fn get(&self, id: &str) -> (r: Option<PlaybackSession>)
        ensures
            r == lookup(self.sessions(), id@),
    {
        text_get(&self.sessions, id)
    }

    /// The transcode of a session.
    pub fn get_transcode(&self, id: &str) -> (r: Option<TranscodeHandle>)
        ensures
            r == match lookup(self.sessions(), id@) {
                Some(s) => s.transcode,
                None => None,
            },
    {
        match text_get(&self.sessions, id) {
            Some(s) => s.transcode,
            None => None,
        }
    }

    /// All sessions, in any order.
    pub fn get_all(&self) -> (r: Vec<PlaybackSession>)
        ensures
            exists|entries: Seq<(String, PlaybackSession)>| #[trigger]
                lists_all(entries, self.sessions()) && r@ == entries.map_values(
                    |e: (String, PlaybackSession)| e.1,
                ),
    {
        let entries = text_entries(&self.sessions);
        let mut r: Vec<PlaybackSession> = Vec::new();
        let ghost value = |e: (String, PlaybackSession)| e.1;
        let mut i: usize = 0;
        while i < entries.len()
            invariant
                i <= entries.len(),
                value == (|e: (String, PlaybackSession)| e.1),
                r@ =~= entries@.map_values(value).take(i as int),
            decreases entries.len() - i,
        {
            r.push(entries[i].1.clone());
            i = i + 1;
        }
        assert(r@ =~= entries@.map_values(value));
        assert(lists_all(entries@, self.sessions()));
        r
    }

    /// The identifiers of all sessions, in any order.
    pub fn active_session_ids(&self) -> (r: Vec<String>)
        ensures
            texts(r@).no_duplicates(),
            forall|k: Seq<char>| #[trigger]
                texts(r@).contains(k) <==> self.sessions().contains_key(k),
    {
        let entries = text_entries(&self.sessions);
        let ghost all = self.sessions();
        let mut r: Vec<String> = Vec::new();
        let mut i: usize = 0;
        while i < entries.len()
            invariant
                i <= entries.len(),
                lists_all(entries@, all),
                texts(r@).len() == i,
                forall|j: int| 0 <= j < i ==> #[trigger] texts(r@)[j] == entries@[j].0@,
            decreases entries.len() - i,
        {
            crate::text::push_arg(&mut r, entries[i].0.as_str());
            i = i + 1;
        }
        proof {
            assert forall|k: Seq<char>| #[trigger] texts(r@).contains(k) <==> all.contains_key(k) by {
                if all.contains_key(k) {
                    let j = lemma_all_listed(entries@, all, k);
                    assert(texts(r@)[j] == k);
                }
                if texts(r@).contains(k) {
                    let j = choose|j: int| 0 <= j < texts(r@).len() && texts(r@)[j] == k;
                    assert(texts(r@)[j] == entries@[j].0@);
                }
            }
            assert forall|a: int, b: int|
                0 <= a < texts(r@).len() && 0 <= b < texts(r@).len() && a != b implies texts(
                r@,
            )[a] != texts(r@)[b] by {
                assert(texts(r@)[a] == entries@[a].0@ && texts(r@)[b] == entries@[b].0@);
                if a < b {
                    assert(entries@[a].0@ != entries@[b].0@);
                } else {
                    assert(entries@[b].0@ != entries@[a].0@);
                }
            }
        }
        r
    }

    /// A most lately active session of a device.
    pub fn get_by_device(&self, device_id: &str) -> (r: Option<PlaybackSession>)
        ensures
            match r {
                Some(s) => exists|key: Seq<char>| #[trigger]
                    latest_of(self.sessions(), device_id@, key) && s == self.sessions()[key],
                None => forall|k: Seq<char>| #[trigger]
                    self.sessions().contains_key(k) ==> self.sessions()[k].device_id@
                        != device_id@,
            },
    {
        let entries = text_entries(&self.sessions);
        let ghost all = self.sessions();
        let mut best: Option<usize> = None;
        let mut i: usize = 0;
        while i < entries.len()
            invariant
                i <= entries.len(),
                all == self.sessions(),
                lists_all(entries@, all),
                match best {
                    Some(b) => b < i && entries@[b as int].1.device_id@ == device_id@ && forall|
                        j: int,
                    |
                        0 <= j < i && (#[trigger] entries@[j]).1.device_id@ == device_id@
                            ==> entries@[j].1.last_activity <= entries@[b as int].1.last_activity,
                    None => forall|j: int|
                        0 <= j < i ==> (#[trigger] entries@[j]).1.device_id@ != device_id@,
                },
            decreases entries.len() - i,
        {
            if same_text(entries[i].1.device_id.as_str(), device_id) {
                let newer = match best {
                    Some(b) => entries[i].1.last_activity >= entries[b].1.last_activity,
                    None => true,
                };
                if newer {
                    best = Some(i);
                }
            }
            i = i + 1;
        }
        proof {
            assert forall|k: Seq<char>| #[trigger] all.contains_key(k) implies exists|j: int|
                0 <= j < entries@.len() && (#[trigger] entries@[j]).0@ == k && all[k]
                    == entries@[j].1 by {
                let j = lemma_all_listed(entries@, all, k);
                assert(entries@[j].0@ == k);
            }
        }
        match best {
            Some(b) => {
                proof {
                    let key = entries@[b as int].0@;
                    assert(all[key] == entries@[b as int].1);
                    assert(latest_of(all, device_id@, key));
                }
                Some(entries[b].1.clone())
            },
            None => None,
        }
    }

    /// The number of a user's sessions, where a device may be left out.
    pub fn count_for_user(&self, user_id: u128, exclude_device: Option<&str>) -> (n: usize)
        ensures
            n == counted(self.sessions(), user_id, crate::text::str_opt(exclude_device)).len(),
            counted(self.sessions(), user_id, crate::text::str_opt(exclude_device)).finite(),
    {
        let entries = text_entries(&self.sessions);
        let ghost all = self.sessions();
        let ghost exclude = crate::text::str_opt(exclude_device);
        let ghost mut found = Set::<Seq<char>>::empty();
        let mut n: usize = 0;
        let mut i: usize = 0;
        while i < entries.len()
            invariant
                i <= entries.len(),
                lists_all(entries@, all),
                exclude == crate::text::str_opt(exclude_device),
                found.finite(),
                n == found.len(),
                n <= i,
                forall|k: Seq<char>| #[trigger]
                    found.contains(k) <==> exists|j: int|
                        0 <= j < i && (#[trigger] entries@[j]).0@ == k && counts(
                            entries@[j].1,
                            user_id,
                            exclude,
                        ),
            decreases entries.len() - i,
        {
            let ghost before = found;
            let s = &entries[i].1;
            let counts_here = s.user_id == user_id && match exclude_device {
                Some(d) => !same_text(s.device_id.as_str(), d),
                None => true,
            };
            if counts_here {
                n = n + 1;
                proof {
                    let key = entries@[i as int].0@;
                    assert(!found.contains(key));
                    found = found.insert(key);
                }
            }
            proof {
                assert forall|k: Seq<char>| #[trigger] found.contains(k) <==> exists|j: int|
                    0 <= j < i + 1 && (#[trigger] entries@[j]).0@ == k && counts(
                        entries@[j].1,
                        user_id,
                        exclude,
                    ) by {
                    if found.contains(k) {
                        if before.contains(k) {
                            let j = choose|j: int|
                                0 <= j < i && (#[trigger] entries@[j]).0@ == k && counts(
                                    entries@[j].1,
                                    user_id,
                                    exclude,
                                );
                            assert(entries@[j].0@ == k);
                        } else {
                            assert(entries@[i as int].0@ == k);
                        }
                    }
                }
            }
            i = i + 1;
        }
        proof {
            assert forall|k: Seq<char>| #[trigger] found.contains(k) <==> counted(
                all,
                user_id,
                exclude,
            ).contains(k) by {
                if all.contains_key(k) {
                    let j = lemma_all_listed(entries@, all, k);
                    assert(all[k] == entries@[j].1);
                }
                if found.contains(k) {
                    let j = choose|j: int|
                        0 <= j < entries@.len() && (#[trigger] entries@[j]).0@ == k && counts(
                            entries@[j].1,
                            user_id,
                            exclude,
                        );
                    assert(all[k] == entries@[j].1);
                }
            }
            assert(found =~= counted(all, user_id, exclude));
        }
        n
    }

    /// The other sessions of a device.
    fn others_of_device(&self, device_id: &str, except: &str) -> (r: Vec<String>)
        ensures
            names_others(texts(r@), self.sessions(), device_id@, except@),
    {
        let mut r: Vec<String> = Vec::new();
        let ghost all = self.sessions();
        if device_id.is_empty() {
            assert(texts(r@) =~= Seq::empty());
            return r;
        }
        let entries = text_entries(&self.sessions);
        let mut i: usize = 0;
        while i < entries.len()
            invariant
                i <= entries.len(),
                device_id@.len() > 0,
                lists_all(entries@, all),
                texts(r@).no_duplicates(),
                forall|k: Seq<char>| #[trigger]
                    texts(r@).contains(k) <==> exists|j: int|
                        0 <= j < i && (#[trigger] entries@[j]).0@ == k && other_of_device(
                            k,
                            entries@[j].1,
                            device_id@,
                            except@,
                        ),
            decreases entries.len() - i,
        {
            let ghost before = texts(r@);
            let ghost key = entries@[i as int].0@;
            if same_text(entries[i].1.device_id.as_str(), device_id) && !same_text(
                entries[i].0.as_str(),
                except,
            ) {
                proof {
                    assert(!before.contains(key));
                }
                crate::text::push_arg(&mut r, entries[i].0.as_str());
                proof {
                    assert(texts(r@) == before.push(key));
                }
            }
            proof {
                assert forall|k: Seq<char>| #[trigger] texts(r@).contains(k) <==> exists|j: int|
                    0 <= j < i + 1 && (#[trigger] entries@[j]).0@ == k && other_of_device(
                        k,
                        entries@[j].1,
                        device_id@,
                        except@,
                    ) by {
                    if before.contains(k) {
                        let x = choose|x: int| 0 <= x < before.len() && before[x] == k;
                        assert(texts(r@)[x] == k);
                        let j = choose|j: int|
                            0 <= j < i && (#[trigger] entries@[j]).0@ == k && other_of_device(
                                k,
                                entries@[j].1,
                                device_id@,
                                except@,
                            );
                        assert(entries@[j].0@ == k);
                    }
                    if texts(r@).contains(k) && !before.contains(k) {
                        let x = choose|x: int| 0 <= x < texts(r@).len() && texts(r@)[x] == k;
                        assert(x >= before.len());
                        assert(entries@[i as int].0@ == k);
                    }
                    if exists|j: int|
                        0 <= j < i + 1 && (#[trigger] entries@[j]).0@ == k && other_of_device(
                            k,
                            entries@[j].1,
                            device_id@,
                            except@,
                        ) {
                        let j = choose|j: int|
                            0 <= j < i + 1 && (#[trigger] entries@[j]).0@ == k && other_of_device(
                                k,
                                entries@[j].1,
                                device_id@,
                                except@,
                            );
                        if j == i {
                            assert(texts(r@)[before.len() as int] == k);
                        } else {
                            assert(before.contains(k));
                        }
                    }
                }
            }
            i = i + 1;
        }
        proof {
            assert forall|k: Seq<char>| #[trigger] texts(r@).contains(k) <==> all.contains_key(k)
                && other_of_device(k, all[k], device_id@, except@) by {
                if all.contains_key(k) {
                    let j = lemma_all_listed(entries@, all, k);
                    assert(all[k] == entries@[j].1);
                }
                if texts(r@).contains(k) {
                    let j = choose|j: int|
                        0 <= j < entries@.len() && (#[trigger] entries@[j]).0@ == k
                            && other_of_device(k, entries@[j].1, device_id@, except@);
                    assert(all[k] == entries@[j].1);
                }
            }
        }
        r
    }

    /// Takes out all sessions that a list names, and gives their transcodes.
    fn remove_all(&mut self, ids: &Vec<String>) -> (kill: Vec<TranscodeHandle>)
        ensures
            final(self).sessions() == old(self).sessions().remove_keys(texts(ids@).to_set()),
            final(self).only_sessions_differ(*old(self)),
            kill@ == transcodes_of(old(self).sessions(), texts(ids@)),
    {
        let mut kill: Vec<TranscodeHandle> = Vec::new();
        let ghost all = texts(ids@);
        let mut i: usize = 0;
        assert(self.sessions() =~= old(self).sessions().remove_keys(all.take(0).to_set()));
        while i < ids.len()
            invariant
                i <= ids.len(),
                all == texts(ids@),
                self.sessions() == old(self).sessions().remove_keys(all.take(i as int).to_set()),
                self.only_sessions_differ(*old(self)),
                kill@ == transcodes_of(old(self).sessions(), all.take(i as int)),
            decreases ids.len() - i,
        {
            let ghost key = all[i as int];
            let ghost before = self.sessions();
            proof {
                assert(all.take(i + 1) =~= all.take(i as int).push(key));
                assert(all.take(i + 1).drop_last() =~= all.take(i as int));
                lemma_to_set_push(all.take(i as int), key);
            }
            let removed = text_remove(&mut self.sessions, ids[i].as_str());
            if let Some(s) = removed {
                if let Some(t) = s.transcode {
                    kill.push(t);
                }
            }
            proof {
                assert(self.sessions() =~= old(self).sessions().remove_keys(
                    all.take(i + 1).to_set(),
                ));
            }
            i = i + 1;
        }
        assert(all.take(all.len() as int) =~= all);
        kill
    }
}

/// The transcodes of the sessions that a list names, each session once.
pub open spec fn transcodes_of(
    sessions: Map<Seq<char>, PlaybackSession>,
    ids: Seq<Seq<char>>,
) -> Seq<TranscodeHandle>
    decreases ids.len(),
{
    if ids.len() == 0 {
        Seq::empty()
    } else {
        let before = transcodes_of(sessions, ids.drop_last());
        let last = ids.last();
        if sessions.contains_key(last) && !ids.drop_last().contains(last)
            && sessions[last].transcode is Some {
            before.push(sessions[last].transcode->0)
        } else {
            before
        }
    }
}

proof fn lemma_to_set_push(s: Seq<Seq<char>>, x: Seq<char>)
    ensures
        s.push(x).to_set() == s.to_set().insert(x),
{
    let t = s.push(x);
    assert forall|k: Seq<char>| t.contains(k) <==> (s.contains(k) || k == x) by {
        if s.contains(k) {
            let j = choose|j: int| 0 <= j < s.len() && s[j] == k;
            assert(t[j] == k);
        }
        if k == x {
            assert(t[s.len() as int] == k);
        }
    }
    assert(t.to_set() =~= s.to_set().insert(x));
}

/// A session of a client that has just started to play.
pub open spec fn is_new_session(
    s: PlaybackSession,
    id: Seq<char>,
    viewer: Viewer,
    data: PlaybackInfo,
    group_id: Option<u128>,
    item_kind: Option<MediaKind>,
    transcode: Option<TranscodeHandle>,
    now: i128,
) -> bool {
    &&& s.play_session_id@ == id
    &&& s.user_id == viewer.user_id
    &&& s.item_id == data.item_id
    &&& s.media_source_id == data.media_source_id
    &&& s.device_id@ == viewer.device_id@
    &&& s.client_name@ == viewer.app_name@
    &&& s.position_ticks == match data.position_ticks {
        Some(p) => p,
        None => 0,
    }
    &&& s.can_seek == data.can_seek
    &&& s.is_paused == data.is_paused
    &&& s.last_paused_at == if data.is_paused {
        Some(now)
    } else {
        None
    }
    &&& s.is_muted == data.is_muted
    &&& s.volume_level == data.volume_level
    &&& s.audio_stream_index == data.audio_stream_index
    &&& s.subtitle_stream_index == data.subtitle_stream_index
    &&& s.play_method == data.play_method
    &&& s.now_playing_queue == data.now_playing_queue
    &&& s.playlist_item_id == data.playlist_item_id
    &&& s.started_at == now
    &&& s.last_activity == now
    &&& s.transcode == transcode
    &&& s.group_id == group_id
    &&& s.item_kind == item_kind
}

/// Who plays, on which device, and how many sessions they may have. No limit is
/// zero or less.
#[derive(Debug)]
pub struct Viewer {
    pub user_id: u128,
    pub device_id: String,
    pub app_name: String,
    pub max_active_sessions: i32,
}

/// The sessions that a new one replaces, and the transcodes to stop for it.
#[derive(Debug)]
pub struct Started {
    pub play_session_id: String,
    pub stopped: Vec<String>,
    pub kill: Vec<TranscodeHandle>,
}

/// The user plays as much as they may.
#[derive(Debug, Clone, Copy, PartialEq, Eq, Structural)]
pub struct StreamLimitReached;

/// Whether one more session of a user on a device would be too many.
pub open spec fn over_limit(sessions: Map<Seq<char>, PlaybackSession>, viewer: Viewer) -> bool {
    viewer.max_active_sessions > 0 && counted(
        sessions,
        viewer.user_id,
        Some(viewer.device_id@),
    ).len() >= viewer.max_active_sessions
}

/// The source that a report names.
pub open spec fn named_source(source: Option<String>) -> Option<u128> {
    match source {
        Some(id) => parsed_id(id@),
        None => None,
    }
}

pub fn requested_source(source: &Option<String>) -> (r: Option<u128>)
    ensures
        r == named_source(*source),
{
    match source {
        Some(id) => parse_id(id.as_str()),
        None => None,
    }
}

/// The identifier that a report names, or a fresh one.
pub open spec fn reported_id(named: Option<String>, fresh: Seq<char>) -> Seq<char> {
    match named {
        Some(id) => id@,
        None => fresh,
    }
}

/// The group of sources that a report names, where what it names is one.
pub open spec fn named_group(source: Option<String>, kind: Option<MediaKind>) -> Option<u128> {
    if kind == Some(MediaKind::StreamGroup) {
        named_source(source)
    } else {
        None
    }
}

/// What a progress report comes to.
#[derive(Debug)]
pub struct ProgressUpdate {
    pub item_id: u128,
    /// The startup that the report confirms.
    pub report: Option<PlaybackStartupReport>,
    /// The streams or the method of the playback are others than before.
    pub params_changed: bool,
    pub position_ticks: i64,
    pub transcode: Option<TranscodeHandle>,
    pub selected_stream_id: Option<u128>,
    pub audio_stream_index: Option<i32>,
    pub subtitle_stream_index: Option<i32>,
}

#[derive(Debug)]
pub enum ProgressOutcome {
    /// There is no such session.
    Unknown,
    /// The session plays nothing and has been taken out.
    Evicted,
    Updated(ProgressUpdate),
}

/// The first of two values that is there.
pub open spec fn either<T>(a: Option<T>, b: Option<T>) -> Option<T> {
    match a {
        Some(x) => Some(x),
        None => b,
    }
}

/// A session after a progress report.
pub open spec fn after_progress(s: PlaybackSession, data: PlaybackInfo, now: i128) -> PlaybackSession {
    PlaybackSession {
        item_id: if data.item_id != 0 {
            data.item_id
        } else {
            s.item_id
        },
        position_ticks: match data.position_ticks {
            Some(p) => p,
            None => s.position_ticks,
        },
        last_paused_at: if !data.is_paused {
            None
        } else if !s.is_paused {
            Some(now)
        } else {
            s.last_paused_at
        },
        is_paused: data.is_paused,
        is_muted: data.is_muted,
        volume_level: either(data.volume_level, s.volume_level),
        audio_stream_index: either(data.audio_stream_index, s.audio_stream_index),
        subtitle_stream_index: either(data.subtitle_stream_index, s.subtitle_stream_index),
        play_method: either(data.play_method, s.play_method),
        last_activity: now,
        ..s
    }
}

/// The source that is played: that of the transcode, or else the one that the
/// report or the session names.
pub open spec fn played_source(s: Option<PlaybackSession>, reported: Option<String>) -> Option<u128> {
    match s {
        Some(s) => match s.transcode {
            Some(t) => Some(t.media_source_id),
            None => named_source(either(reported, s.media_source_id)),
        },
        None => named_source(reported),
    }
}

fn source_of(s: Option<&PlaybackSession>, reported: &Option<String>) -> (r: Option<u128>)
    ensures
        r == played_source(
            match s {
                Some(s) => Some(*s),
                None => None,
            },
            *reported,
        ),
{
    match s {
        Some(s) => match s.transcode {
            Some(t) => Some(t.media_source_id),
            None => match reported {
                Some(id) => parse_id(id.as_str()),
                None => requested_source(&s.media_source_id),
            },
        },
        None => requested_source(reported),
    }
}

/// Whether a report names other streams or another method than the session.
pub open spec fn changes_params(s: PlaybackSession, data: PlaybackInfo) -> bool {
    ||| data.audio_stream_index is Some && data.audio_stream_index != s.audio_stream_index
    ||| data.subtitle_stream_index is Some && data.subtitle_stream_index != s.subtitle_stream_index
    ||| data.play_method is Some && text_opt(data.play_method) != text_opt(s.play_method)
}

/// What the end of a playback comes to.
#[derive(Debug)]
pub struct StoppedOutcome {
    pub item_id: Option<u128>,
    pub final_ticks: Option<i64>,
    pub selected_stream_id: Option<u128>,
    /// The transcode to stop.
    pub kill: Option<TranscodeHandle>,
}

impl PlaybackSessionManager {
    /// Puts a session in. It keeps the transcode that was started for it, and
    /// takes the place of the other sessions of its device.
    pub fn insert(&mut self, session: PlaybackSession)
        ensures
            final(self).sessions() == without_others(
                old(self).sessions(),
                session.device_id@,
                session.play_session_id@,
            ).insert(
                session.play_session_id@,
                with_transcode(
                    session,
                    lookup(old(self).sessions(), session.play_session_id@),
                ),
            ),
            final(self).only_sessions_differ(*old(self)),
    {
        let mut s = session;
        if s.transcode.is_none() {
            if let Some(existing) = text_get(&self.sessions, s.play_session_id.as_str()) {
                s.transcode = existing.transcode;
            }
        }
        let stale = self.others_of_device(s.device_id.as_str(), s.play_session_id.as_str());
        let kill = self.remove_all(&stale);
        assert(self.sessions() =~= without_others(
            old(self).sessions(),
            session.device_id@,
            session.play_session_id@,
        ));
        text_insert(&mut self.sessions, s.play_session_id.clone(), s);
    }

    /// Takes out the other sessions of a device, and gives their identifiers and
    /// their transcodes.
    pub fn stop_other_for_device(&mut self, device_id: &str, except_play_session_id: &str) -> (r: (
        Vec<String>,
        Vec<TranscodeHandle>,
    ))
        ensures
            names_others(
                texts(r.0@),
                old(self).sessions(),
                device_id@,
                except_play_session_id@,
            ),
            r.1@ == transcodes_of(old(self).sessions(), texts(r.0@)),
            final(self).sessions() == without_others(
                old(self).sessions(),
                device_id@,
                except_play_session_id@,
            ),
            final(self).only_sessions_differ(*old(self)),
    {
        let stale = self.others_of_device(device_id, except_play_session_id);
        let kill = self.remove_all(&stale);
        assert(self.sessions() =~= without_others(
            old(self).sessions(),
            device_id@,
            except_play_session_id@,
        ));
        (stale, kill)
    }

    /// Takes out a session; its transcode is to be stopped.
    pub fn stop(&mut self, id: &str) -> (r: Option<PlaybackSession>)
        ensures
            r == lookup(old(self).sessions(), id@),
            final(self).sessions() == old(self).sessions().remove(id@),
            final(self).only_sessions_differ(*old(self)),
    {
        text_remove(&mut self.sessions, id)
    }

    /// Takes the transcode from a session, to be stopped.
    pub fn stop_transcode(&mut self, id: &str) -> (r: Option<TranscodeHandle>)
        ensures
            r == match lookup(old(self).sessions(), id@) {
                Some(s) => s.transcode,
                None => None,
            },
            final(self).sessions() == match lookup(old(self).sessions(), id@) {
                Some(s) => old(self).sessions().insert(
                    id@,
                    PlaybackSession { transcode: None, ..s },
                ),
                None => old(self).sessions(),
            },
            final(self).only_sessions_differ(*old(self)),
    {
        match text_remove(&mut self.sessions, id) {
            Some(session) => {
                let mut s = session;
                let transcode = s.transcode;
                s.transcode = None;
                text_insert(&mut self.sessions, id.to_owned(), s);
                assert(self.sessions() =~= old(self).sessions().insert(
                    id@,
                    PlaybackSession { transcode: None, ..session },
                ));
                transcode
            },
            None => {
                assert(self.sessions() =~= old(self).sessions());
                None
            },
        }
    }

    /// Puts in place of a session what `f` makes of it.
    pub fn update<F: FnOnce(PlaybackSession) -> PlaybackSession>(&mut self, id: &str, f: F)
        requires
            lookup(old(self).sessions(), id@) matches Some(s) ==> f.requires((s,)),
        ensures
            match lookup(old(self).sessions(), id@) {
                Some(s) => exists|t: PlaybackSession| #[trigger]
                    f.ensures((s,), t) && final(self).sessions() == old(self).sessions().insert(
                        id@,
                        t,
                    ),
                None => final(self).sessions() == old(self).sessions(),
            },
            final(self).only_sessions_differ(*old(self)),
    {
        match text_remove(&mut self.sessions, id) {
            Some(session) => {
                let changed = f(session);
                text_insert(&mut self.sessions, id.to_owned(), changed);
                assert(self.sessions() =~= old(self).sessions().insert(id@, changed));
            },
            None => {
                assert(self.sessions() =~= old(self).sessions());
            },
        }
    }

    /// Notes that a session is alive.
    pub fn ping(&mut self, id: &str, now: i128)
        ensures
            final(self).sessions() == match lookup(old(self).sessions(), id@) {
                Some(s) => old(self).sessions().insert(
                    id@,
                    PlaybackSession { last_activity: now, ..s },
                ),
                None => old(self).sessions(),
            },
            final(self).only_sessions_differ(*old(self)),
    {
        match text_remove(&mut self.sessions, id) {
            Some(session) => {
                let mut s = session;
                s.last_activity = now;
                text_insert(&mut self.sessions, id.to_owned(), s);
                assert(self.sessions() =~= old(self).sessions().insert(
                    id@,
                    PlaybackSession { last_activity: now, ..session },
                ));
            },
            None => {
                assert(self.sessions() =~= old(self).sessions());
            },
        }
    }

    /// The device that a transcode without a session belongs to.
    fn device_to_inherit(&self) -> (device: String)
        ensures
            inherited_device(self.sessions(), device@),
    {
        let entries = text_entries(&self.sessions);
        let ghost all = self.sessions();
        let mut best: Option<usize> = None;
        let mut i: usize = 0;
        while i < entries.len()
            invariant
                i <= entries.len(),
                lists_all(entries@, all),
                match best {
                    Some(b) => b < i && lends_device(entries@[b as int].1) && forall|j: int|
                        0 <= j < i && lends_device((#[trigger] entries@[j]).1)
                            ==> entries@[j].1.last_activity <= entries@[b as int].1.last_activity,
                    None => forall|j: int|
                        0 <= j < i ==> !lends_device((#[trigger] entries@[j]).1),
                },
            decreases entries.len() - i,
        {
            if entries[i].1.transcode.is_none() && !entries[i].1.device_id.as_str().is_empty() {
                let newer = match best {
                    Some(b) => entries[i].1.last_activity >= entries[b].1.last_activity,
                    None => true,
                };
                if newer {
                    best = Some(i);
                }
            }
            i = i + 1;
        }
        proof {
            assert forall|k: Seq<char>| #[trigger] all.contains_key(k) implies exists|j: int|
                0 <= j < entries@.len() && (#[trigger] entries@[j]).0@ == k && all[k]
                    == entries@[j].1 by {
                let j = lemma_all_listed(entries@, all, k);
                assert(entries@[j].0@ == k);
            }
        }
        match best {
            Some(b) => {
                proof {
                    let key = entries@[b as int].0@;
                    assert(all.contains_key(key) && all[key] == entries@[b as int].1);
                }
                entries[b].1.device_id.clone()
            },
            None => String::new(),
        }
    }

    /// Gives a transcode to a session. Where there is none yet, a session is put
    /// in that stands for it until playback is reported.
    pub fn attach_transcode(&mut self, id: &str, transcode: TranscodeHandle, now: i128)
        ensures
            match lookup(old(self).sessions(), id@) {
                Some(s) => final(self).sessions() == old(self).sessions().insert(
                    id@,
                    PlaybackSession { transcode: Some(transcode), ..s },
                ),
                None => exists|stub: PlaybackSession|
                    {
                        &&& #[trigger] is_stub(stub, id@, stub.device_id@, transcode, now)
                        &&& inherited_device(old(self).sessions(), stub.device_id@)
                        &&& final(self).sessions() == old(self).sessions().insert(id@, stub)
                    },
            },
            final(self).only_sessions_differ(*old(self)),
    {
        match text_remove(&mut self.sessions, id) {
            Some(session) => {
                let mut s = session;
                s.transcode = Some(transcode);
                text_insert(&mut self.sessions, id.to_owned(), s);
                assert(self.sessions() =~= old(self).sessions().insert(
                    id@,
                    PlaybackSession { transcode: Some(transcode), ..session },
                ));
            },
            None => {
                assert(self.sessions() =~= old(self).sessions());
                let device_id = self.device_to_inherit();
                let stub = PlaybackSession {
                    play_session_id: id.to_owned(),
                    user_id: 0,
                    item_id: 0,
                    media_source_id: None,
                    device_id,
                    client_name: String::new(),
                    position_ticks: 0,
                    can_seek: true,
                    is_paused: false,
                    last_paused_at: None,
                    is_muted: false,
                    volume_level: None,
                    audio_stream_index: None,
                    subtitle_stream_index: None,
                    play_method: None,
                    now_playing_queue: None,
                    playlist_item_id: None,
                    started_at: now,
                    last_activity: now,
                    transcode: Some(transcode),
                    group_id: None,
                    item_kind: None,
                };
                assert(is_stub(stub, id@, stub.device_id@, transcode, now));
                text_insert(&mut self.sessions, id.to_owned(), stub);
            },
        }
    }

    /// The sessions that play a source, in any order.
    pub fn playback_ids_for_media_source(&self, source_id: u128) -> (r: Vec<String>)
        ensures
            plays_listed(texts(r@), self.sessions(), source_id),
    {
        let entries = text_entries(&self.sessions);
        let ghost plays = |e: (String, PlaybackSession)| plays_source(e.1, source_id);
        let ghost name = |e: (String, PlaybackSession)| e.1.play_session_id@;
        let mut r: Vec<String> = Vec::new();
        let mut i: usize = 0;
        proof {
            reveal(Seq::filter);
            assert(texts(r@) =~= entries@.take(0).filter(plays).map_values(name));
        }
        while i < entries.len()
            invariant
                i <= entries.len(),
                plays == (|e: (String, PlaybackSession)| plays_source(e.1, source_id)),
                name == (|e: (String, PlaybackSession)| e.1.play_session_id@),
                texts(r@) == entries@.take(i as int).filter(plays).map_values(name),
            decreases entries.len() - i,
        {
            let ghost done = entries@.take(i as int).filter(plays);
            proof {
                assert(entries@.take(i + 1).drop_last() =~= entries@.take(i as int));
                reveal(Seq::filter);
            }
            if is_playing_source(&entries[i].1, source_id) {
                crate::text::push_arg(&mut r, entries[i].1.play_session_id.as_str());
                assert(done.push(entries@[i as int]).map_values(name) =~= done.map_values(
                    name,
                ).push(name(entries@[i as int])));
            }
            i = i + 1;
        }
        assert(entries@.take(entries@.len() as int) =~= entries@);
        assert(lists_all(entries@, self.sessions()));
        r
    }

    /// The playbacks that a request for a stream belongs to: the sessions that
    /// play the source, and the one that the request names, where it runs or is
    /// starting. A session that is named so plays the source from then on.
    pub fn playback_ids_for_stream(
        &mut self,
        source_id: u128,
        requested_play_session_id: Option<&str>,
    ) -> (r: Vec<String>)
        ensures
            ({
                let named = crate::text::str_opt(requested_play_session_id);
                let known = named matches Some(id) && (old(self).sessions().contains_key(id) || old(
                    self,
                ).startups().contains_key(id));
                exists|ids: Seq<Seq<char>>|
                    {
                        &&& #[trigger] plays_listed(ids, old(self).sessions(), source_id)
                        &&& texts(r@) == if known {
                            crate::order::extended(ids, seq![named->0])
                        } else {
                            ids
                        }
                    }
            }),
            match lookup_opt(
                old(self).sessions(),
                crate::text::str_opt(requested_play_session_id),
            ) {
                Some((id, s)) => exists|t: PlaybackSession|
                    {
                        &&& #[trigger] renamed_source(s, t, source_id)
                        &&& final(self).sessions() == old(self).sessions().insert(id, t)
                    },
                None => final(self).sessions() == old(self).sessions(),
            },
            final(self).only_sessions_differ(*old(self)),
    {
        let mut ids = self.playback_ids_for_media_source(source_id);
        let ghost listed = texts(ids@);
        let id = match requested_play_session_id {
            Some(id) => id,
            None => {
                return ids;
            },
        };
        match text_remove(&mut self.sessions, id) {
            Some(session) => {
                let mut s = session;
                s.media_source_id = Some(hyphenated_text(source_id));
                assert(renamed_source(session, s, source_id));
                text_insert(&mut self.sessions, id.to_owned(), s);
                assert(self.sessions() =~= old(self).sessions().insert(id@, s));
            },
            None => {
                assert(self.sessions() =~= old(self).sessions());
                if !text_contains(&self.startups, id) {
                    return ids;
                }
            },
        }
        crate::order::push_distinct(&mut ids, id);
        ids
    }

    /// Handles the report that a client has started to play. The kind of what
    /// the named source is, and of the item, come from the library.
    pub fn start(
        &mut self,
        viewer: &Viewer,
        data: &PlaybackInfo,
        fresh_id: &str,
        source_kind: Option<MediaKind>,
        item_kind: Option<MediaKind>,
        now: i128,
    ) -> (r: Result<Started, StreamLimitReached>)
        ensures
            r is Err <==> over_limit(old(self).sessions(), *viewer),
            r is Err ==> final(self).sessions() == old(self).sessions(),
            r matches Ok(started) ==> {
                let id = reported_id(data.play_session_id, fresh_id@);
                let others = texts(started.stopped@);
                &&& started.play_session_id@ == id
                &&& data.item_id == 0 ==> others.len() == 0 && started.kill@.len() == 0
                    && final(self).sessions() == old(self).sessions()
                &&& data.item_id != 0 ==> {
                    &&& names_others(others, old(self).sessions(), viewer.device_id@, id)
                    &&& started.kill@ == transcodes_of(old(self).sessions(), others)
                    &&& exists|s: PlaybackSession|
                        {
                            &&& #[trigger] is_new_session(
                                s,
                                id,
                                *viewer,
                                *data,
                                named_group(data.media_source_id, source_kind),
                                item_kind,
                                kept_transcode(old(self).sessions(), id),
                                now,
                            )
                            &&& final(self).sessions() == without_others(
                                old(self).sessions(),
                                viewer.device_id@,
                                id,
                            ).insert(id, s)
                        }
                }
            },
            final(self).only_sessions_differ(*old(self)),
    {
        let play_session_id = match &data.play_session_id {
            Some(id) => id.clone(),
            None => fresh_id.to_owned(),
        };
        if viewer.max_active_sessions > 0 {
            let current = self.count_for_user(viewer.user_id, Some(viewer.device_id.as_str()));
            if current >= viewer.max_active_sessions as usize {
                return Err(StreamLimitReached);
            }
        }
        if data.item_id == 0 {
            let stopped: Vec<String> = Vec::new();
            return Ok(Started { play_session_id, stopped, kill: Vec::new() });
        }
        let grouped = match source_kind {
            Some(kind) => kind == MediaKind::StreamGroup,
            None => false,
        };
        let group_id = if grouped {
            requested_source(&data.media_source_id)
        } else {
            None
        };
        assert(group_id == named_group(data.media_source_id, source_kind));
        let session = PlaybackSession {
            play_session_id: play_session_id.clone(),
            user_id: viewer.user_id,
            item_id: data.item_id,
            media_source_id: copy_text_opt(&data.media_source_id),
            device_id: viewer.device_id.clone(),
            client_name: viewer.app_name.clone(),
            position_ticks: match data.position_ticks {
                Some(p) => p,
                None => 0,
            },
            can_seek: data.can_seek,
            is_paused: data.is_paused,
            last_paused_at: if data.is_paused {
                Some(now)
            } else {
                None
            },
            is_muted: data.is_muted,
            volume_level: data.volume_level,
            audio_stream_index: data.audio_stream_index,
            subtitle_stream_index: data.subtitle_stream_index,
            play_method: copy_text_opt(&data.play_method),
            now_playing_queue: copy_text_opt(&data.now_playing_queue),
            playlist_item_id: copy_text_opt(&data.playlist_item_id),
            started_at: now,
            last_activity: now,
            transcode: None,
            group_id,
            item_kind,
        };
        let (stopped, kill) = self.stop_other_for_device(
            viewer.device_id.as_str(),
            play_session_id.as_str(),
        );
        let ghost id = play_session_id@;
        let ghost middle = self.sessions();
        self.insert(session);
        proof {
            let s = with_transcode(session, lookup(middle, id));
            assert(lookup(middle, id) == lookup(old(self).sessions(), id));
            assert(is_new_session(
                s,
                id,
                *viewer,
                *data,
                group_id,
                item_kind,
                kept_transcode(old(self).sessions(), id),
                now,
            ));
            assert(without_others(middle, viewer.device_id@, id) =~= middle);
        }
        Ok(Started { play_session_id, stopped, kill })
    }

    /// Handles a progress report.
    pub fn progress(&mut self, psid: &str, data: &PlaybackInfo, now: i128, instant: u64) -> (r:
        ProgressOutcome)
        ensures
            match lookup(old(self).sessions(), psid@) {
                None => r is Unknown && final(self).sessions() == old(self).sessions()
                    && final(self).startups() == old(self).startups() && final(self).failures()
                    == old(self).failures(),
                Some(s) => if s.item_id == 0 && data.item_id == 0 {
                    r is Evicted && final(self).sessions() == old(self).sessions().remove(psid@)
                        && final(self).startups() == old(self).startups() && final(self).failures()
                        == old(self).failures()
                } else {
                    let startup = lookup(old(self).startups(), psid@);
                    let confirmed = confirms(s.position_ticks, data.position_ticks, data.is_paused)
                        && startup is Some;
                    &&& r matches ProgressOutcome::Updated(u) && {
                        &&& u.item_id == after_progress(s, *data, now).item_id
                        &&& u.params_changed == changes_params(s, *data)
                        &&& u.position_ticks == after_progress(s, *data, now).position_ticks
                        &&& u.transcode == s.transcode
                        &&& u.selected_stream_id == played_source(Some(s), data.media_source_id)
                        &&& u.audio_stream_index == either(
                            data.audio_stream_index,
                            s.audio_stream_index,
                        )
                        &&& u.subtitle_stream_index == either(
                            data.subtitle_stream_index,
                            s.subtitle_stream_index,
                        )
                        &&& u.report is Some == confirmed
                        &&& u.report matches Some(report) ==> reports(
                            report,
                            psid@,
                            startup->0,
                            "started"@,
                            Some(elapsed(instant, startup->0.started)),
                            Some(
                                estimated_start(
                                    startup->0,
                                    advanced_ticks(s.position_ticks, data.position_ticks),
                                    instant,
                                ),
                            ),
                            None,
                        )
                    }
                    &&& final(self).sessions() == old(self).sessions().insert(
                        psid@,
                        after_progress(s, *data, now),
                    )
                    &&& final(self).startups() == if confirmed {
                        old(self).startups().remove(psid@)
                    } else {
                        old(self).startups()
                    }
                    &&& final(self).failures() == if confirmed {
                        old(self).failures().remove(startup->0.device_id@)
                    } else {
                        old(self).failures()
                    }
                },
            },
            final(self).dir() == old(self).dir(),
            r matches ProgressOutcome::Updated(u) ==> {
                let before = old(self).sessions()[psid@];
                let after = final(self).sessions()[psid@];
                &&& old(self).sessions().contains_key(psid@)
                &&& final(self).sessions().contains_key(psid@)
                &&& data.position_ticks matches Some(p) ==> u.position_ticks == p
                    && after.position_ticks == p
                &&& data.position_ticks is None ==> u.position_ticks == before.position_ticks
                    && after.position_ticks == before.position_ticks
                &&& data.item_id != 0 ==> u.item_id == data.item_id && after.item_id == data.item_id
                &&& data.item_id == 0 ==> u.item_id == before.item_id && after.item_id
                    == before.item_id
                &&& data.audio_stream_index is Some ==> u.audio_stream_index
                    == data.audio_stream_index && after.audio_stream_index
                    == data.audio_stream_index
                &&& data.audio_stream_index is None ==> u.audio_stream_index
                    == before.audio_stream_index && after.audio_stream_index
                    == before.audio_stream_index
                &&& data.subtitle_stream_index is Some ==> u.subtitle_stream_index
                    == data.subtitle_stream_index && after.subtitle_stream_index
                    == data.subtitle_stream_index
                &&& data.subtitle_stream_index is None ==> u.subtitle_stream_index
                    == before.subtitle_stream_index && after.subtitle_stream_index
                    == before.subtitle_stream_index
                &&& after.is_paused == data.is_paused
                &&& after.is_muted == data.is_muted
                &&& after.last_activity == now
                &&& after.transcode == before.transcode
                &&& after.user_id == before.user_id
                &&& after.device_id == before.device_id
                &&& after.started_at == before.started_at
                &&& after.media_source_id == before.media_source_id
            },
            forall|k: Seq<char>|
                k != psid@ ==> final(self).sessions().contains_key(k) == old(
                    self,
                ).sessions().contains_key(k) && (old(self).sessions().contains_key(k)
                    ==> #[trigger] final(self).sessions()[k] == old(self).sessions()[k]),
    {
        let session = match text_remove(&mut self.sessions, psid) {
            Some(s) => s,
            None => {
                assert(self.sessions() =~= old(self).sessions());
                return ProgressOutcome::Unknown;
            },
        };
        if session.item_id == 0 && data.item_id == 0 {
            return ProgressOutcome::Evicted;
        }
        let report = self.confirm_startup(
            psid,
            session.position_ticks,
            data.position_ticks,
            data.is_paused,
            instant,
        );
        let audio_changed = match data.audio_stream_index {
            Some(a) => match session.audio_stream_index {
                Some(b) => a != b,
                None => true,
            },
            None => false,
        };
        let subtitle_changed = match data.subtitle_stream_index {
            Some(a) => match session.subtitle_stream_index {
                Some(b) => a != b,
                None => true,
            },
            None => false,
        };
        let method_changed = match &data.play_method {
            Some(a) => match &session.play_method {
                Some(b) => !same_text(a.as_str(), b.as_str()),
                None => true,
            },
            None => false,
        };
        let selected_stream_id = source_of(Some(&session), &data.media_source_id);
        let transcode = session.transcode;
        let ghost before = session;
        let mut s = session;
        if data.item_id != 0 {
            s.item_id = data.item_id;
        }
        if let Some(p) = data.position_ticks {
            s.position_ticks = p;
        }
        if data.is_paused && !s.is_paused {
            s.last_paused_at = Some(now);
        } else if !data.is_paused {
            s.last_paused_at = None;
        }
        s.is_paused = data.is_paused;
        s.is_muted = data.is_muted;
        if data.volume_level.is_some() {
            s.volume_level = data.volume_level;
        }
        if data.audio_stream_index.is_some() {
            s.audio_stream_index = data.audio_stream_index;
        }
        if data.subtitle_stream_index.is_some() {
            s.subtitle_stream_index = data.subtitle_stream_index;
        }
        if data.play_method.is_some() {
            s.play_method = copy_text_opt(&data.play_method);
        }
        s.last_activity = now;
        assert(s == after_progress(before, *data, now));
        let update = ProgressUpdate {
            item_id: s.item_id,
            report,
            params_changed: audio_changed || subtitle_changed || method_changed,
            position_ticks: s.position_ticks,
            transcode,
            selected_stream_id,
            audio_stream_index: s.audio_stream_index,
            subtitle_stream_index: s.subtitle_stream_index,
        };
        text_insert(&mut self.sessions, psid.to_owned(), s);
        assert(self.sessions() =~= old(self).sessions().insert(
            psid@,
            after_progress(before, *data, now),
        ));
        ProgressOutcome::Updated(update)
    }

    /// Handles the report that a client has stopped.
    pub fn stopped(&mut self, psid: &str, data: &PlaybackInfo) -> (r: StoppedOutcome)
        ensures
            ({
                let session = lookup(old(self).sessions(), psid@);
                &&& r.item_id == if data.item_id != 0 {
                    Some(data.item_id)
                } else {
                    match session {
                        Some(s) => Some(s.item_id),
                        None => None,
                    }
                }
                &&& r.final_ticks == either(
                    data.position_ticks,
                    match session {
                        Some(s) => Some(s.position_ticks),
                        None => None,
                    },
                )
                &&& r.selected_stream_id == played_source(session, data.media_source_id)
                &&& r.kill == match session {
                    Some(s) => s.transcode,
                    None => None,
                }
            }),
            final(self).sessions() == old(self).sessions().remove(psid@),
            final(self).only_sessions_differ(*old(self)),
    {
        let session = self.stop(psid);
        let borrowed = match &session {
            Some(s) => Some(s),
            None => None,
        };
        let selected_stream_id = source_of(borrowed, &data.media_source_id);
        let item_id = if data.item_id != 0 {
            Some(data.item_id)
        } else {
            match borrowed {
                Some(s) => Some(s.item_id),
                None => None,
            }
        };
        let final_ticks = match data.position_ticks {
            Some(p) => Some(p),
            None => match borrowed {
                Some(s) => Some(s.position_ticks),
                None => None,
            },
        };
        let kill = match borrowed {
            Some(s) => s.transcode,
            None => None,
        };
        StoppedOutcome { item_id, final_ticks, selected_stream_id, kill }
    }

    /// The directory of all transcodes.
    pub fn base_dir(&self) -> (r: &str)
        ensures
            r@ == self.dir(),
    {
        self.base_dir.as_str()
    }

    /// Where a segment of a playback lies: in the latest directory of the
    /// playback, or in its own where it has none.
    pub fn segment_path(
        &self,
        play_session_id: &str,
        segment_id: &str,
        dirs: &Vec<(String, i128)>,
    ) -> (r: String)
        ensures
            r@ == in_dir(
                match latest_dir(dirs@) {
                    Some(i) => dirs@[i].0@,
                    None => in_dir(self.dir(), play_session_id@),
                },
                segment_id@ + ".ts"@,
            ),
    {
        let name = crate::text::concat2(segment_id, ".ts");
        let mut best: Option<usize> = None;
        let mut i: usize = 0;
        while i < dirs.len()
            invariant
                i <= dirs.len(),
                match best {
                    Some(b) => latest_dir(dirs@.take(i as int)) == Some(b as int) && b < i,
                    None => latest_dir(dirs@.take(i as int)) is None,
                },
            decreases dirs.len() - i,
        {
            proof {
                assert(dirs@.take(i + 1).drop_last() =~= dirs@.take(i as int));
            }
            let later = match best {
                Some(b) => dirs[i].1 > dirs[b].1,
                None => true,
            };
            if later {
                best = Some(i);
            }
            i = i + 1;
        }
        assert(dirs@.take(dirs@.len() as int) =~= dirs@);
        match best {
            Some(b) => join_path(dirs[b].0.as_str(), name.as_str()),
            None => {
                let dir = join_path(self.base_dir.as_str(), play_session_id);
                join_path(dir.as_str(), name.as_str())
            },
        }
    }

    /// The sessions without activity since a time, in any order.
    pub fn idle_since(&self, cutoff: i128) -> (r: Vec<String>)
        ensures
            texts(r@).no_duplicates(),
            forall|k: Seq<char>| #[trigger]
                texts(r@).contains(k) <==> self.sessions().contains_key(k)
                    && self.sessions()[k].last_activity < cutoff,
    {
        let entries = text_entries(&self.sessions);
        let ghost all = self.sessions();
        let mut r: Vec<String> = Vec::new();
        let mut i: usize = 0;
        assert(texts(r@) =~= Seq::empty());
        while i < entries.len()
            invariant
                i <= entries.len(),
                lists_all(entries@, all),
                texts(r@).no_duplicates(),
                forall|k: Seq<char>| #[trigger]
                    texts(r@).contains(k) <==> exists|j: int|
                        0 <= j < i && (#[trigger] entries@[j]).0@ == k
                            && entries@[j].1.last_activity < cutoff,
            decreases entries.len() - i,
        {
            let ghost before = texts(r@);
            let ghost key = entries@[i as int].0@;
            if entries[i].1.last_activity < cutoff {
                assert(!before.contains(key));
                crate::text::push_arg(&mut r, entries[i].0.as_str());
                assert(texts(r@) == before.push(key));
            }
            proof {
                assert forall|k: Seq<char>| #[trigger] texts(r@).contains(k) <==> exists|j: int|
                    0 <= j < i + 1 && (#[trigger] entries@[j]).0@ == k
                        && entries@[j].1.last_activity < cutoff by {
                    if before.contains(k) {
                        let x = choose|x: int| 0 <= x < before.len() && before[x] == k;
                        assert(texts(r@)[x] == k);
                        let j = choose|j: int|
                            0 <= j < i && (#[trigger] entries@[j]).0@ == k
                                && entries@[j].1.last_activity < cutoff;
                        assert(entries@[j].0@ == k);
                    }
                    if texts(r@).contains(k) && !before.contains(k) {
                        let x = choose|x: int| 0 <= x < texts(r@).len() && texts(r@)[x] == k;
                        assert(x >= before.len());
                        assert(entries@[i as int].0@ == k);
                    }
                    if exists|j: int|
                        0 <= j < i + 1 && (#[trigger] entries@[j]).0@ == k
                            && entries@[j].1.last_activity < cutoff {
                        let j = choose|j: int|
                            0 <= j < i + 1 && (#[trigger] entries@[j]).0@ == k
                                && entries@[j].1.last_activity < cutoff;
                        if j == i {
                            assert(texts(r@)[before.len() as int] == k);
                        } else {
                            assert(before.contains(k));
                        }
                    }
                }
            }
            i = i + 1;
        }
        proof {
            assert forall|k: Seq<char>| #[trigger] texts(r@).contains(k) <==> all.contains_key(k)
                && all[k].last_activity < cutoff by {
                if all.contains_key(k) {
                    let j = lemma_all_listed(entries@, all, k);
                    assert(all[k] == entries@[j].1);
                }
                if texts(r@).contains(k) {
                    let j = choose|j: int|
                        0 <= j < entries@.len() && (#[trigger] entries@[j]).0@ == k
                            && entries@[j].1.last_activity < cutoff;
                    assert(all[k] == entries@[j].1);
                }
            }
        }
        r
    }
}

/// The place of the latest directory, the first of several of one age.
pub open spec fn latest_dir(dirs: Seq<(String, i128)>) -> Option<int>
    decreases dirs.len(),
{
    if dirs.len() == 0 {
        None
    } else {
        match latest_dir(dirs.drop_last()) {
            Some(b) if dirs.last().1 <= dirs[b].1 => Some(b),
            _ => Some(dirs.len() - 1),
        }
    }
}

/// The transcode that was started for a session before it was reported.
pub open spec fn kept_transcode(
    sessions: Map<Seq<char>, PlaybackSession>,
    id: Seq<char>,
) -> Option<TranscodeHandle> {
    match lookup(sessions, id) {
        Some(s) => s.transcode,
        None => None,
    }
}

/// A session that is named, with its identifier.
pub open spec fn lookup_opt(
    sessions: Map<Seq<char>, PlaybackSession>,
    id: Option<Seq<char>>,
) -> Option<(Seq<char>, PlaybackSession)> {
    match id {
        Some(id) if sessions.contains_key(id) => Some((id, sessions[id])),
        _ => None,
    }
}

/// Whether `t` is the session `s` with a source put in.
pub open spec fn renamed_source(s: PlaybackSession, t: PlaybackSession, source_id: u128) -> bool {
    &&& t == (PlaybackSession { media_source_id: t.media_source_id, ..s })
    &&& text_opt(t.media_source_id) == Some(hyphenated_id(source_id))
}

/// Whether a list names the sessions that play a source, in some order of all
/// sessions.
pub open spec fn plays_listed(
    ids: Seq<Seq<char>>,
    sessions: Map<Seq<char>, PlaybackSession>,
    source_id: u128,
) -> bool {
    exists|entries: Seq<(String, PlaybackSession)>| #[trigger]
        lists_all(entries, sessions) && ids == entries.filter(
            |e: (String, PlaybackSession)| plays_source(e.1, source_id),
        ).map_values(|e: (String, PlaybackSession)| e.1.play_session_id@)
}

/// How far a client has played since a transcode started, in seconds.
pub fn playback_offset(position_ticks: i64, start_time_secs: u32) -> (r: u32)
    ensures
        r == ({
            let position = crate::playback::session::start_secs_spec(Some(position_ticks));
            if position >= start_time_secs {
                position - start_time_secs
            } else {
                0
            }
        }),
{
    crate::playback::session::start_secs(Some(position_ticks)).saturating_sub(start_time_secs)
}

/// The streams of a report that a user wants remembered: the audio and the
/// subtitle stream, each only where the user's settings say so.
pub fn remembered(update: &ProgressUpdate, audio: bool, subtitle: bool) -> (r: (
    Option<i32>,
    Option<i32>,
))
    ensures
        r.0 == (if audio {
            update.audio_stream_index
        } else {
            None
        }),
        r.1 == (if subtitle {
            update.subtitle_stream_index
        } else {
            None
        }),
{
    (
        if audio {
            update.audio_stream_index
        } else {
            None
        },
        if subtitle {
            update.subtitle_stream_index
        } else {
            None
        },
    )
}

/// Once a session has been put in, its device has no other.
pub proof fn law_one_session_per_device(
    sessions: Map<Seq<char>, PlaybackSession>,
    s: PlaybackSession,
    id: Seq<char>,
    other: Seq<char>,
)
    requires
        s.device_id@.len() > 0,
        other != id,
    ensures
        ({
            let after = without_others(sessions, s.device_id@, id).insert(id, s);
            after.contains_key(other) ==> after[other].device_id@ != s.device_id@
        }),
{
}

/// A transcode that was started before its playback was reported belongs to the
/// session that is then put in.
pub proof fn law_transcode_survives_the_report(
    sessions: Map<Seq<char>, PlaybackSession>,
    id: Seq<char>,
    stub: PlaybackSession,
    s: PlaybackSession,
)
    requires
        s.transcode is None,
    ensures
        with_transcode(s, lookup(sessions.insert(id, stub), id)).transcode == stub.transcode,
{
}

/// A user never has more sessions than they may: where a new one is let in, the
/// limit holds with it.
pub proof fn law_limit_is_kept(
    sessions: Map<Seq<char>, PlaybackSession>,
    viewer: Viewer,
    id: Seq<char>,
    s: PlaybackSession,
)
    requires
        viewer.max_active_sessions > 0,
        viewer.device_id@.len() > 0,
        !over_limit(sessions, viewer),
        counted(sessions, viewer.user_id, Some(viewer.device_id@)).finite(),
    ensures
        ({
            let after = without_others(sessions, viewer.device_id@, id).insert(id, s);
            counted(after, viewer.user_id, None).len() <= viewer.max_active_sessions
        }),
{
    let after = without_others(sessions, viewer.device_id@, id).insert(id, s);
    let small = counted(sessions, viewer.user_id, Some(viewer.device_id@));
    let big = counted(after, viewer.user_id, None);
    assert forall|k: Seq<char>| #[trigger] big.contains(k) implies small.insert(id).contains(k) by {
        if k != id {
            assert(sessions.contains_key(k));
            assert(!other_of_device(k, sessions[k], viewer.device_id@, id));
        }
    }
    assert(big.subset_of(small.insert(id)));
    vstd::set_lib::lemma_len_subset(big, small.insert(id));
}

// ---------------------------------------------------------------------------
// Transcoders that an earlier server left running
// ---------------------------------------------------------------------------

/// The first white space of a text, or its length.
pub open spec fn first_space(s: Seq<char>) -> int
    decreases s.len(),
{
    if s.len() == 0 || crate::text::is_space_spec(s[0]) {
        0
    } else {
        1 + first_space(s.skip(1))
    }
}

/// The process of a line of the process list, where its command is a
/// transcoder that writes below a directory.
pub open spec fn stale_process(line: Seq<char>, base_dir: Seq<char>) -> Option<int> {
    let text = crate::text::trim_start(line);
    let i = first_space(text);
    let command = text.skip(i + 1);
    if i < text.len() && crate::text::has(command, "ffmpeg"@) && crate::text::has(
        command,
        base_dir,
    ) {
        match crate::text::signed_value(text.take(i)) {
            Some(pid) if 0 < pid <= i32::MAX => Some(pid),
            _ => None,
        }
    } else {
        None
    }
}

/// The processes of some lines, each once.
pub open spec fn stale_processes(lines: Seq<Seq<char>>, base_dir: Seq<char>) -> Seq<i32>
    decreases lines.len(),
{
    if lines.len() == 0 {
        Seq::empty()
    } else {
        let before = stale_processes(lines.drop_last(), base_dir);
        match stale_process(lines.last(), base_dir) {
            Some(pid) => if before.contains(pid as i32) {
                before
            } else {
                before.push(pid as i32)
            },
            None => before,
        }
    }
}

fn stale_process_of(line: &str, base_dir: &str) -> (r: Option<i32>)
    ensures
        (match r {
            Some(p) => Some(p as int),
            None => None,
        }) == stale_process(line@, base_dir@),
{
    let all = crate::text::chars_of(line);
    let mut from: usize = 0;
    assert(all@.skip(0) =~= all@);
    while from < all.len() && crate::text::is_space(all[from])
        invariant
            from <= all.len(),
            crate::text::trim_start(all@) == crate::text::trim_start(all@.skip(from as int)),
        decreases all.len() - from,
    {
        assert(all@.skip(from as int).skip(1) =~= all@.skip(from + 1));
        from = from + 1;
    }
    let ghost text = crate::text::trim_start(all@);
    assert(text == all@.skip(from as int));
    let mut to: usize = from;
    assert(text.skip(0) =~= text);
    while to < all.len() && !crate::text::is_space(all[to])
        invariant
            from <= to <= all.len(),
            text == all@.skip(from as int),
            first_space(text) == (to - from) + first_space(text.skip(to - from)),
        decreases all.len() - to,
    {
        assert(text.skip(to - from).skip(1) =~= text.skip(to + 1 - from));
        assert(text.skip(to - from)[0] == all@[to as int]);
        to = to + 1;
    }
    proof {
        if to < all.len() {
            assert(text.skip(to - from)[0] == all@[to as int]);
        }
        assert(first_space(text) == to - from);
    }
    if to >= all.len() {
        return None;
    }
    let pid = crate::text::slice(&all, from, to);
    let command = crate::text::slice(&all, to + 1, all.len());
    proof {
        assert(pid@ =~= text.take(to - from));
        assert(command@ =~= text.skip(to - from + 1));
    }
    if crate::text::contains(command.as_str(), "ffmpeg") && crate::text::contains(
        command.as_str(),
        base_dir,
    ) {
        match crate::text::parse_signed(pid.as_str()) {
            Some(p) => {
                if p > 0 && p <= i32::MAX as i64 {
                    Some(p as i32)
                } else {
                    None
                }
            },
            None => None,
        }
    } else {
        None
    }
}

/// The transcoders in a process list, each line of which is a number and a
/// command, that write below a directory.
pub fn stale_transcoders(process_list: &str, base_dir: &str) -> (r: Vec<i32>)
    ensures
        r@ == stale_processes(
            crate::text::pieces(process_list@, crate::text::Separator::At('\n')),
            base_dir@,
        ),
{
    let lines = crate::text::split(process_list, crate::text::Separator::At('\n'));
    let ghost all = texts(lines@);
    let mut r: Vec<i32> = Vec::new();
    let mut i: usize = 0;
    while i < lines.len()
        invariant
            i <= lines.len(),
            all == texts(lines@),
            r@ == stale_processes(all.take(i as int), base_dir@),
        decreases lines.len() - i,
    {
        proof {
            assert(all.take(i + 1).drop_last() =~= all.take(i as int));
            assert(all.take(i + 1).last() == lines@[i as int]@);
        }
        if let Some(pid) = stale_process_of(lines[i].as_str(), base_dir) {
            let mut known = false;
            let mut k: usize = 0;
            while k < r.len()
                invariant
                    k <= r.len(),
                    known == r@.take(k as int).contains(pid),
                decreases r.len() - k,
            {
                proof {
                    let a = r@.take(k as int);
                    let b = r@.take(k + 1);
                    assert(b =~= a.push(r@[k as int]));
                    if a.contains(pid) {
                        let j = choose|j: int| 0 <= j < a.len() && a[j] == pid;
                        assert(b[j] == pid);
                    }
                    if r@[k as int] == pid {
                        assert(b[k as int] == pid);
                    }
                }
                if r[k] == pid {
                    known = true;
                }
                k = k + 1;
            }
            assert(r@.take(r@.len() as int) =~= r@);
            if !known {
                r.push(pid);
            }
        }
        i = i + 1;
    }
    assert(all.take(all.len() as int) =~= all);
    r
}

// ---------------------------------------------------------------------------
// Laws of reports
// ---------------------------------------------------------------------------

/// A progress report moves a playback to the position that it gives, forwards or
/// backwards, and leaves it where it was if it gives none; what else it gives takes
/// the place of what was known, and what it does not give stays.
pub proof fn law_progress_is_noted(s: PlaybackSession, data: PlaybackInfo, now: i128)
    ensures
        ({
            let t = after_progress(s, data, now);
            &&& data.position_ticks matches Some(p) ==> t.position_ticks == p
            &&& data.position_ticks is None ==> t.position_ticks == s.position_ticks
            &&& data.item_id != 0 ==> t.item_id == data.item_id
            &&& data.item_id == 0 ==> t.item_id == s.item_id
            &&& t.is_paused == data.is_paused
            &&& t.is_muted == data.is_muted
            &&& t.last_activity == now
            &&& data.is_paused && !s.is_paused ==> t.last_paused_at == Some(now)
            &&& data.is_paused && s.is_paused ==> t.last_paused_at == s.last_paused_at
            &&& !data.is_paused ==> t.last_paused_at is None
            &&& data.volume_level is Some ==> t.volume_level == data.volume_level
            &&& data.volume_level is None ==> t.volume_level == s.volume_level
            &&& data.audio_stream_index is Some ==> t.audio_stream_index == data.audio_stream_index
            &&& data.audio_stream_index is None ==> t.audio_stream_index == s.audio_stream_index
            &&& data.subtitle_stream_index is Some ==> t.subtitle_stream_index
                == data.subtitle_stream_index
            &&& data.subtitle_stream_index is None ==> t.subtitle_stream_index
                == s.subtitle_stream_index
            &&& data.play_method is Some ==> t.play_method == data.play_method
            &&& data.play_method is None ==> t.play_method == s.play_method
            &&& t.transcode == s.transcode && t.user_id == s.user_id && t.device_id == s.device_id
            &&& t.play_session_id == s.play_session_id && t.media_source_id == s.media_source_id
            &&& t.started_at == s.started_at && t.group_id == s.group_id && t.item_kind
                == s.item_kind && t.can_seek == s.can_seek && t.client_name == s.client_name
        }),
{
}

/// Of two reports the later one counts, in whichever direction it moves the playback.
pub proof fn law_the_last_report_counts(
    s: PlaybackSession,
    first: PlaybackInfo,
    second: PlaybackInfo,
    then: i128,
    now: i128,
)
    requires
        second.position_ticks is Some,
    ensures
        ({
            let t = after_progress(after_progress(s, first, then), second, now);
            &&& Some(t.position_ticks) == second.position_ticks
            &&& t.is_paused == second.is_paused
            &&& t.last_activity == now
        }),
{
}

/// The streams or the method of a playback change where a report names others than
/// those that are known.
pub proof fn law_changes_are_noticed(s: PlaybackSession, data: PlaybackInfo)
    ensures
        changes_params(s, data) <==> {
            ||| data.audio_stream_index is Some && data.audio_stream_index != s.audio_stream_index
            ||| data.subtitle_stream_index is Some && data.subtitle_stream_index
                != s.subtitle_stream_index
            ||| data.play_method is Some && (s.play_method is None || data.play_method->Some_0@
                != s.play_method->Some_0@)
        },
{
}

/// A session starts where the client says, or at the beginning, with the streams that
/// the client plays, for the user and the device that report it.
pub proof fn law_new_sessions_are_as_reported(
    s: PlaybackSession,
    id: Seq<char>,
    viewer: Viewer,
    data: PlaybackInfo,
    group_id: Option<u128>,
    item_kind: Option<MediaKind>,
    transcode: Option<TranscodeHandle>,
    now: i128,
)
    requires
        is_new_session(s, id, viewer, data, group_id, item_kind, transcode, now),
    ensures
        data.position_ticks matches Some(p) ==> s.position_ticks == p,
        data.position_ticks is None ==> s.position_ticks == 0,
        s.item_id == data.item_id,
        s.user_id == viewer.user_id,
        s.device_id@ == viewer.device_id@,
        s.client_name@ == viewer.app_name@,
        s.play_session_id@ == id,
        s.is_paused == data.is_paused,
        data.is_paused ==> s.last_paused_at == Some(now),
        !data.is_paused ==> s.last_paused_at is None,
        s.audio_stream_index == data.audio_stream_index,
        s.subtitle_stream_index == data.subtitle_stream_index,
        s.volume_level == data.volume_level,
        s.is_muted == data.is_muted,
        s.play_method == data.play_method,
        s.media_source_id == data.media_source_id,
        s.can_seek == data.can_seek,
        s.started_at == now && s.last_activity == now,
        s.transcode == transcode,
        s.group_id == group_id && s.item_kind == item_kind,
{
}

/// A new session ends the others of its device and no one else's, and what another
/// device plays stays as it is. A device without a name ends none.
pub proof fn law_other_devices_play_on(
    sessions: Map<Seq<char>, PlaybackSession>,
    device: Seq<char>,
    id: Seq<char>,
    k: Seq<char>,
)
    requires
        sessions.contains_key(k),
    ensures
        without_others(sessions, device, id).contains_key(k) <==> k == id || device.len() == 0
            || sessions[k].device_id@ != device,
        without_others(sessions, device, id).contains_key(k) ==> without_others(
            sessions,
            device,
            id,
        )[k] == sessions[k],
{
}

/// A user may start one more session where there is no limit, or fewer sessions of
/// theirs on other devices than the limit.
pub proof fn law_limits_count_other_devices(
    sessions: Map<Seq<char>, PlaybackSession>,
    viewer: Viewer,
    others: Set<Seq<char>>,
)
    requires
        forall|k: Seq<char>| #[trigger]
            others.contains(k) <==> sessions.contains_key(k) && sessions[k].user_id
                == viewer.user_id && sessions[k].device_id@ != viewer.device_id@,
    ensures
        viewer.max_active_sessions <= 0 ==> !over_limit(sessions, viewer),
        viewer.max_active_sessions > 0 ==> (over_limit(sessions, viewer) <==> others.len()
            >= viewer.max_active_sessions),
{
    assert(others =~= counted(sessions, viewer.user_id, Some(viewer.device_id@)));
}

/// The source that is played is that of the transcode where there is one, else the one
/// that the report names, else that of the session.
pub proof fn law_played_source(s: PlaybackSession, reported: Option<String>)
    ensures
        s.transcode matches Some(t) ==> played_source(Some(s), reported) == Some(t.media_source_id),
        s.transcode is None && reported is Some ==> played_source(Some(s), reported) == parsed_id(
            reported->Some_0@,
        ),
        s.transcode is None && reported is None && s.media_source_id is Some ==> played_source(
            Some(s),
            reported,
        ) == parsed_id(s.media_source_id->Some_0@),
        reported is Some ==> played_source(None, reported) == parsed_id(reported->Some_0@),
        reported is None ==> played_source(None, reported) is None,
{
}

/// A report names a group where what it names is one.
pub proof fn law_named_group(source: String, kind: Option<MediaKind>)
    ensures
        kind == Some(MediaKind::StreamGroup) ==> named_group(Some(source), kind) == parsed_id(
            source@,
        ),
        kind != Some(MediaKind::StreamGroup) ==> named_group(Some(source), kind) is None,
        named_group(None, kind) is None,
{
}

/// Playback is confirmed by the first report that is further on and not paused. When it
/// really began is the time of the report less what was played since, a hundred
/// nanoseconds for each tick, but not before the first segment was served.
pub proof fn law_real_start(s: PlaybackStartup, from: i64, to: i64, paused: bool, now: u64)
    requires
        s.started <= now,
        -0x1000_0000_0000_0000 < from < 0x1000_0000_0000_0000,
        -0x1000_0000_0000_0000 < to < 0x1000_0000_0000_0000,
    ensures
        confirms(from, Some(to), paused) <==> to > from && !paused,
        !confirms(from, None, paused),
        to > from && (to - from) * 100 <= now - s.started ==> ({
            let actual = estimated_start(s, advanced_ticks(from, Some(to)), now);
            &&& s.first_segment_served is None ==> actual == now - s.started - (to - from) * 100
            &&& s.first_segment_served matches Some(f) ==> actual == if f > now - s.started - (to
                - from) * 100 {
                f as int
            } else {
                now - s.started - (to - from) * 100
            }
        }),
        to > from && (to - from) * 100 > now - s.started && s.first_segment_served is None
            ==> estimated_start(s, advanced_ticks(from, Some(to)), now) == 0,
{
}

/// What is told of a startup is what was noted: whose it is, how long it has taken and
/// which steps are behind it.
pub proof fn law_startups_are_told(
    p: PlaybackStartupProgress,
    key: Seq<char>,
    s: PlaybackStartup,
    now: u64,
)
    requires
        tells_of(p, key, s, now),
        s.started <= now,
    ensures
        p.play_session_id@ == key,
        p.user_id == s.user_id,
        p.elapsed == now - s.started,
        p.playback_info_ready <==> s.playback_info_ready is Some,
        p.hls_requested <==> s.hls_requested is Some,
        p.source_selected <==> s.source_selected is Some,
        p.transcode_started <==> s.transcode_started is Some,
        p.first_segment_served <==> s.first_segment_served is Some,
{
}

/// A report on a startup gives the spans of its steps in whole milliseconds.
pub proof fn law_reports_are_in_milliseconds(
    r: PlaybackStartupReport,
    key: Seq<char>,
    s: PlaybackStartup,
    outcome: Seq<char>,
    first: u64,
    actual: u64,
    reason: Option<Seq<char>>,
)
    requires
        reports(r, key, s, outcome, Some(first), Some(actual), reason),
        actual <= first,
    ensures
        r.play_session_id@ == key && r.outcome@ == outcome && text_opt(r.failure_reason) == reason,
        r.item_id == s.item_id && r.user_id == s.user_id && r.media_source_id == s.media_source_id,
        r.device_id@ == s.device_id@ && r.client_name@ == s.client_name@ && r.started_at
            == s.started_at,
        r.first_progress_ms is Some && r.first_progress_ms->Some_0 * 1_000_000 <= first < (
        r.first_progress_ms->Some_0 + 1) * 1_000_000,
        r.estimated_actual_playback_ms is Some && r.estimated_actual_playback_ms->Some_0
            * 1_000_000 <= actual < (r.estimated_actual_playback_ms->Some_0 + 1) * 1_000_000,
        r.confirmation_delay_ms is Some && r.confirmation_delay_ms->Some_0 * 1_000_000 <= first
            - actual < (r.confirmation_delay_ms->Some_0 + 1) * 1_000_000,
        s.hls_requested matches Some(t) ==> r.hls_requested_ms is Some
            && r.hls_requested_ms->Some_0 * 1_000_000 <= t < (r.hls_requested_ms->Some_0 + 1)
            * 1_000_000,
        s.hls_requested is None ==> r.hls_requested_ms is None,
        s.playback_info_ready matches Some(t) ==> r.playback_info_ms is Some
            && r.playback_info_ms->Some_0 * 1_000_000 <= t < (r.playback_info_ms->Some_0 + 1)
            * 1_000_000,
        s.playback_info_ready is None ==> r.playback_info_ms is None,
        s.source_selected matches Some(t) ==> r.source_selected_ms is Some
            && r.source_selected_ms->Some_0 * 1_000_000 <= t < (r.source_selected_ms->Some_0 + 1)
            * 1_000_000,
        s.transcode_started matches Some(t) ==> r.transcode_started_ms is Some
            && r.transcode_started_ms->Some_0 * 1_000_000 <= t < (r.transcode_started_ms->Some_0
            + 1) * 1_000_000,
        s.first_segment_served matches Some(t) ==> r.first_segment_served_ms is Some
            && r.first_segment_served_ms->Some_0 * 1_000_000 <= t < (
        r.first_segment_served_ms->Some_0 + 1) * 1_000_000,
{
}

/// The first time of a step of a startup counts, and the last choice of a source;
/// marking a step changes nothing else.
pub proof fn law_milestones(s: PlaybackStartup, first: u64, second: u64, source: u128)
    ensures
        ({
            let t = after_milestone(s, Milestone::HlsRequested, first);
            &&& s.hls_requested is None ==> t.hls_requested == Some(first)
            &&& s.hls_requested is Some ==> t.hls_requested == s.hls_requested
            &&& after_milestone(t, Milestone::HlsRequested, second) == t
            &&& t.first_segment_served == s.first_segment_served && t.transcode_started
                == s.transcode_started && t.playback_info_ready == s.playback_info_ready
                && t.source_selected == s.source_selected
        }),
        ({
            let t = after_milestone(s, Milestone::FirstSegmentServed, first);
            &&& s.first_segment_served is None ==> t.first_segment_served == Some(first)
            &&& s.first_segment_served is Some ==> t.first_segment_served == s.first_segment_served
            &&& t.hls_requested == s.hls_requested && t.started == s.started
        }),
        ({
            let t = after_milestone(s, Milestone::TranscodeStarted, first);
            &&& s.transcode_started is None ==> t.transcode_started == Some(first)
            &&& s.transcode_started is Some ==> t.transcode_started == s.transcode_started
            &&& t.first_segment_served == s.first_segment_served
        }),
        ({
            let t = after_milestone(s, Milestone::PlaybackInfoReady, first);
            &&& s.playback_info_ready is None ==> t.playback_info_ready == Some(first)
            &&& s.playback_info_ready is Some ==> t.playback_info_ready == s.playback_info_ready
        }),
        ({
            let t = after_milestone(s, Milestone::SourceSelected(source), first);
            &&& t.source_selected == Some(first)
            &&& t.media_source_id == Some(source)
            &&& t.first_segment_served == s.first_segment_served
        }),
{
}

/// A failure counts for five minutes, for the user that had it and on the device where
/// it happened; a startup is forgotten after half an hour.
pub proof fn law_windows(
    failures: Map<Seq<char>, PlaybackStartupFailure>,
    startups: Map<Seq<char>, PlaybackStartup>,
    device: Seq<char>,
    user_id: u128,
    k: Seq<char>,
    now: u64,
)
    requires
        failures.contains_key(device) && failures[device].failed_at <= now,
        startups.contains_key(k) && startups[k].started <= now,
    ensures
        recent_failure(failures, device, user_id, now) is Some <==> failures[device].user_id
            == user_id && now - failures[device].failed_at <= 300_000_000_000,
        recent_failure(failures, device, user_id, now) matches Some(f) ==> f == failures[device],
        fresh_failures(failures, device, now).contains_key(device) <==> now
            - failures[device].failed_at <= 300_000_000_000,
        fresh_startups(startups, now).contains_key(k) <==> now - startups[k].started
            < 1_800_000_000_000,
        fresh_startups(startups, now).contains_key(k) ==> fresh_startups(startups, now)[k]
            == startups[k],
{
}

/// A transcode that no session asked for yet belongs to the device that was active
/// last among those without one.
pub proof fn law_transcodes_find_their_device(
    sessions: Map<Seq<char>, PlaybackSession>,
    device: Seq<char>,
    k: Seq<char>,
)
    requires
        inherited_device(sessions, device),
        sessions.contains_key(k),
        sessions[k].transcode is None,
        sessions[k].device_id@.len() > 0,
    ensures
        exists|j: Seq<char>|
            {
                &&& #[trigger] sessions.contains_key(j)
                &&& sessions[j].device_id@ == device
                &&& sessions[j].transcode is None
                &&& sessions[j].last_activity >= sessions[k].last_activity
            },
{
    assert(lends_device(sessions[k]));
}

/// The latest directory is none older than any other.
pub proof fn law_latest_directory(dirs: Seq<(String, i128)>, k: int)
    requires
        0 <= k < dirs.len(),
    ensures
        latest_dir(dirs) matches Some(b) && 0 <= b < dirs.len() && dirs[b].1 >= dirs[k].1 && (
        dirs[b].1 == dirs[k].1 ==> b <= k),
    decreases dirs.len(),
{
    let short = dirs.drop_last();
    if short.len() > 0 {
        if k < short.len() {
            law_latest_directory(short, k);
        } else {
            law_latest_directory(short, 0);
        }
        let b = latest_dir(short)->Some_0;
        assert(short[b] == dirs[b]);
    }
}

/// A process is left over from an earlier server where its command names the
/// transcoder and the directory of the transcodes; the number before the command is
/// its own.
pub proof fn law_left_over_processes(pid: nat, command: Seq<char>, base_dir: Seq<char>)
    requires
        0 < pid <= i32::MAX,
    ensures
        ({
            let line = crate::text::dec(pid) + seq![' '] + command;
            &&& crate::text::has(command, "ffmpeg"@) && crate::text::has(command, base_dir)
                ==> stale_process(line, base_dir) == Some(pid as int)
            &&& !crate::text::has(command, "ffmpeg"@) ==> stale_process(line, base_dir) is None
            &&& !crate::text::has(command, base_dir) ==> stale_process(line, base_dir) is None
        }),
{
    let digits = crate::text::dec(pid);
    let line = digits + seq![' '] + command;
    crate::text::law_decimal_reads_back(pid);
    lemma_digits_before_space(digits, command);
    assert(crate::text::trim_start(line) =~= line) by {
        assert(line[0] == digits[0]);
        assert(crate::text::is_digit_spec(digits[0]));
    }
    assert(line.take(digits.len() as int) =~= digits);
    assert(line.skip(digits.len() as int + 1) =~= command);
    crate::text::lemma_dec_chars(pid);
    assert(digits[0] != '-' && digits[0] != '+');
}

proof fn lemma_digits_before_space(digits: Seq<char>, rest: Seq<char>)
    requires
        crate::text::all_digits(digits),
    ensures
        first_space(digits + seq![' '] + rest) == digits.len(),
    decreases digits.len(),
{
    let line = digits + seq![' '] + rest;
    if digits.len() == 0 {
        assert(line[0] == ' ');
    } else {
        assert(line[0] == digits[0]);
        assert(crate::text::is_digit_spec(digits[0]));
        let short = digits.skip(1);
        assert forall|i: int| 0 <= i < short.len() implies crate::text::is_digit_spec(
            #[trigger] short[i],
        ) by {
            assert(short[i] == digits[i + 1]);
        }
        assert(line.skip(1) =~= short + seq![' '] + rest);
        lemma_digits_before_space(short, rest);
    }
}

/// A session plays a source where it reports it or transcodes it.
pub proof fn law_sessions_of_a_source(s: PlaybackSession, source_id: u128)
    ensures
        (s.media_source_id matches Some(id) && parsed_id(id@) == Some(source_id)) ==> plays_source(
            s,
            source_id,
        ),
        (s.transcode matches Some(t) && t.media_source_id == source_id) ==> plays_source(
            s,
            source_id,
        ),
        (s.media_source_id matches Some(id) ==> parsed_id(id@) != Some(source_id)) && (
        s.transcode matches Some(t) ==> t.media_source_id != source_id) ==> !plays_source(
            s,
            source_id,
        ),
{
}

} // verus!
