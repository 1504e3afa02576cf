//! Probing one source after the other until one is of use.

use vstd::prelude::*;

use super::source::{first_of, MediaSourceInfo, MediaStreamType};
use crate::media::{Media, MediaKind};
use crate::text::{concat3, dec, dec_text, same_text, text_opt};

verus! {

/// Whether streams are looked up for the thing itself, and not for what it
/// belongs to.
pub open spec fn stream_root_kind(kind: MediaKind) -> bool {
    kind is Movie || kind is Episode || kind is Track
}

pub fn is_stream_root(kind: MediaKind) -> (r: bool)
    ensures
        r == stream_root_kind(kind),
{
    match kind {
        MediaKind::Movie => true,
        MediaKind::Episode => true,
        MediaKind::Track => true,
        _ => false,
    }
}

/// The thing whose streams are looked up: itself, or what it belongs to where
/// that is known.
pub fn resolve_stream_root<'a>(media: &'a Media, parent: Option<&'a Media>) -> (r: &'a Media)
    ensures
        *r == match parent {
            Some(p) if !stream_root_kind(media.kind) => *p,
            _ => *media,
        },
{
    if is_stream_root(media.kind) {
        media
    } else {
        match parent {
            Some(p) => p,
            None => media,
        }
    }
}

/// How a stream is described to a client.
#[derive(Debug, Clone, Copy, PartialEq, Eq, Structural)]
pub enum ProbeDecision {
    /// By what its provider says of it.
    Inferred,
    /// By an earlier probe.
    Cached,
    /// By a probe now.
    Probe,
}

/// A torrent is never probed for its description, since that would download
/// parts of it; an earlier probe counts where it found a video.
pub open spec fn probe_decision(stream: Media, skip: bool) -> ProbeDecision {
    if skip {
        ProbeDecision::Inferred
    } else {
        match stream.probe_data {
            Some(p) => if first_of(p.media_streams@, MediaStreamType::Video) is Some {
                ProbeDecision::Cached
            } else {
                ProbeDecision::Probe
            },
            None => if stream.p2p() {
                ProbeDecision::Inferred
            } else {
                ProbeDecision::Probe
            },
        }
    }
}

pub fn decide_probe(stream: &Media, skip_probe: bool) -> (r: ProbeDecision)
    ensures
        r == probe_decision(*stream, skip_probe),
{
    if skip_probe {
        return ProbeDecision::Inferred;
    }
    match &stream.probe_data {
        Some(p) => if p.video_stream().is_some() {
            ProbeDecision::Cached
        } else {
            ProbeDecision::Probe
        },
        None => if stream.is_p2p() {
            ProbeDecision::Inferred
        } else {
            ProbeDecision::Probe
        },
    }
}

// ---------------------------------------------------------------------------
// Which sources are tried
// ---------------------------------------------------------------------------

/// The resolution that a stream's name states.
pub open spec fn stated_resolution(m: Media) -> Option<Seq<char>> {
    match m.stream_info {
        Some(info) => info.resolution(),
        None => None,
    }
}

/// Whether the name of a stream's release, where there is one, can be read.
pub open spec fn readable_stream(m: Media) -> bool {
    match m.stream_info {
        Some(info) => info.readable(),
        None => true,
    }
}

fn is_readable_stream(m: &Media) -> (r: bool)
    ensures
        r == readable_stream(*m),
{
    match &m.stream_info {
        Some(info) => info.is_readable(),
        None => true,
    }
}

fn resolution_of(m: &Media) -> (r: Option<String>)
    requires
        readable_stream(*m),
    ensures
        text_opt(r) == stated_resolution(*m),
{
    match &m.stream_info {
        Some(info) => info.resolution_tag(),
        None => None,
    }
}

/// Whether a stream can stand in for another: it is a different one, reached in
/// the same way and, where that is asked for, of the same resolution.
pub open spec fn stands_in(primary: Media, c: Media, restrict: bool) -> bool {
    &&& c.id != primary.id
    &&& c.p2p() == primary.p2p()
    &&& restrict ==> stated_resolution(c) == stated_resolution(primary)
}

/// The streams that stand in for `primary`, as a property of a stream.
pub open spec fn fits(primary: Media, restrict: bool) -> spec_fn(Media) -> bool {
    |c: Media| stands_in(primary, c, restrict)
}

/// Whether the name of the stream at `i` is read for the streams that can stand
/// in: those before it are not yet as many as are asked for.
pub open spec fn name_is_read(
    primary: Media,
    pool: Seq<Media>,
    max_retries: nat,
    restrict: bool,
    i: int,
) -> bool {
    &&& restrict
    &&& pool[i].id != primary.id
    &&& pool[i].p2p() == primary.p2p()
    &&& pool.take(i).filter(fits(primary, restrict)).len() < max_retries
}

/// Whether every name that is read for the streams to try can be read.
pub open spec fn readable_names(
    primary: Media,
    pool: Seq<Media>,
    auto_next: bool,
    max_retries: nat,
    restrict: bool,
) -> bool {
    auto_next ==> {
        &&& readable_stream(primary)
        &&& forall|i: int|
            0 <= i < pool.len() && #[trigger] name_is_read(primary, pool, max_retries, restrict, i)
                ==> readable_stream(pool[i])
    }
}

/// The streams that can stand in, in order: no more than the limit where the
/// resolution is restricted.
pub open spec fn stand_ins(
    primary: Media,
    pool: Seq<Media>,
    max_retries: nat,
    restrict: bool,
) -> Seq<Media> {
    held_to(pool.filter(fits(primary, restrict)), max_retries, restrict)
}

/// The first `n` of some streams where there is a limit, and else all of them.
pub open spec fn held_to(all: Seq<Media>, n: nat, limited: bool) -> Seq<Media> {
    if limited && all.len() > n {
        all.take(n as int)
    } else {
        all
    }
}

/// The streams with an address, each with it.
pub open spec fn addressed(streams: Seq<Media>, port: u16) -> Seq<(Media, Seq<char>)>
    decreases streams.len(),
{
    if streams.len() == 0 {
        Seq::empty()
    } else {
        let before = addressed(streams.drop_last(), port);
        let c = streams.last();
        match c.stream_info {
            Some(info) => before.push((c, info.descriptor.input(c.id, port))),
            None => before,
        }
    }
}

/// The streams to try when the first one fails.
pub open spec fn fallback_candidates(
    primary: Media,
    pool: Seq<Media>,
    auto_next: bool,
    max_retries: nat,
    restrict: bool,
    port: u16,
) -> Seq<(Media, Seq<char>)> {
    if auto_next {
        addressed(stand_ins(primary, pool, max_retries, restrict), port)
    } else {
        Seq::empty()
    }
}

pub open spec fn candidate_views(list: Seq<(&Media, String)>) -> Seq<(Media, Seq<char>)> {
    list.map_values(|p: (&Media, String)| (*p.0, p.1@))
}

fn same_resolution(a: &Option<String>, b: &Option<String>) -> (r: bool)
    ensures
        r == (text_opt(*a) == text_opt(*b)),
{
    match (a, b) {
        (Some(x), Some(y)) => same_text(x.as_str(), y.as_str()),
        (None, None) => true,
        _ => false,
    }
}

/// Finds the streams to try when `primary` fails.
pub fn select_candidates<'a>(
    primary: &Media,
    probe_pool: &'a Vec<Media>,
    auto_next_stream: bool,
    max_retries: usize,
    restrict_resolution: bool,
    port: u16,
) -> (r: Vec<(&'a Media, String)>)
    requires
        readable_names(
            *primary,
            probe_pool@,
            auto_next_stream,
            max_retries as nat,
            restrict_resolution,
        ),
    ensures
        candidate_views(r@) == fallback_candidates(
            *primary,
            probe_pool@,
            auto_next_stream,
            max_retries as nat,
            restrict_resolution,
            port,
        ),
{
    let mut r: Vec<(&'a Media, String)> = Vec::new();
    assert(candidate_views(r@) =~= Seq::empty());
    if !auto_next_stream {
        return r;
    }
    let primary_p2p = primary.is_p2p();
    let primary_resolution = resolution_of(primary);
    let ghost fit = fits(*primary, restrict_resolution);
    let mut taken: usize = 0;
    let mut i: usize = 0;
    proof {
        reveal(Seq::filter);
        assert(held_to(probe_pool@.take(0).filter(fit), max_retries as nat, restrict_resolution)
            =~= Seq::empty());
    }
    while i < probe_pool.len() && (!restrict_resolution || taken < max_retries)
        invariant
            i <= probe_pool.len(),
            taken <= i,
            restrict_resolution ==> taken <= max_retries,
            auto_next_stream,
            fit == fits(*primary, restrict_resolution),
            primary_p2p == primary.p2p(),
            text_opt(primary_resolution) == stated_resolution(*primary),
            readable_names(
                *primary,
                probe_pool@,
                auto_next_stream,
                max_retries as nat,
                restrict_resolution,
            ),
            taken == probe_pool@.take(i as int).filter(fit).len(),
            candidate_views(r@) == addressed(probe_pool@.take(i as int).filter(fit), port),
        decreases probe_pool.len() - i,
    {
        let c = &probe_pool[i];
        let ghost done = probe_pool@.take(i as int).filter(fit);
        let ghost before = candidate_views(r@);
        proof {
            assert(probe_pool@.take(i + 1).drop_last() =~= probe_pool@.take(i as int));
            assert(probe_pool@.take(i + 1).last() == *c);
            reveal(Seq::filter);
        }
        let mut eligible = c.id != primary.id && c.is_p2p() == primary_p2p;
        if eligible && restrict_resolution {
            assert(name_is_read(
                *primary,
                probe_pool@,
                max_retries as nat,
                restrict_resolution,
                i as int,
            ));
            let resolution = resolution_of(c);
            eligible = same_resolution(&resolution, &primary_resolution);
        }
        assert(eligible == fit(*c));
        if eligible {
            assert(done.push(*c).drop_last() =~= done);
            if let Some(info) = &c.stream_info {
                let url = info.descriptor.server_input(c.id, port);
                let ghost view = (*c, url@);
                r.push((c, url));
                assert(candidate_views(r@) =~= before.push(view));
            }
            taken = taken + 1;
        }
        i = i + 1;
    }
    proof {
        lemma_enough(probe_pool@, fit, i as int);
        let all = probe_pool@.filter(fit);
        let some = probe_pool@.take(i as int).filter(fit);
        assert(probe_pool@.take(probe_pool@.len() as int) =~= probe_pool@);
        assert(held_to(all, max_retries as nat, restrict_resolution) =~= some);
    }
    r
}

/// What a part of a list from its start has that fits is what the list has of
/// them first.
proof fn lemma_enough(pool: Seq<Media>, fit: spec_fn(Media) -> bool, i: int)
    requires
        0 <= i <= pool.len(),
    ensures
        pool.take(i).filter(fit).len() <= pool.filter(fit).len(),
        pool.filter(fit).take(pool.take(i).filter(fit).len() as int) == pool.take(i).filter(fit),
{
    Seq::filter_distributes_over_add(pool.take(i), pool.skip(i), fit);
    assert(pool.take(i) + pool.skip(i) =~= pool);
    let some = pool.take(i).filter(fit);
    assert(pool.filter(fit).take(some.len() as int) =~= some);
}

/// Whether every name that is read for the streams to try can be read.
pub fn are_names_readable(
    primary: &Media,
    probe_pool: &Vec<Media>,
    auto_next_stream: bool,
    max_retries: usize,
    restrict_resolution: bool,
) -> (r: bool)
    ensures
        r == readable_names(
            *primary,
            probe_pool@,
            auto_next_stream,
            max_retries as nat,
            restrict_resolution,
        ),
{
    if !auto_next_stream {
        return true;
    }
    if !is_readable_stream(primary) {
        return false;
    }
    if !restrict_resolution {
        return true;
    }
    let primary_p2p = primary.is_p2p();
    let primary_resolution = resolution_of(primary);
    let ghost fit = fits(*primary, true);
    let mut taken: usize = 0;
    let mut i: usize = 0;
    assert(probe_pool@.take(0).filter(fit).len() == 0) by {
        reveal(Seq::filter);
    }
    while i < probe_pool.len() && taken < max_retries
        invariant
            i <= probe_pool.len(),
            taken <= i,
            auto_next_stream,
            restrict_resolution,
            fit == fits(*primary, true),
            primary_p2p == primary.p2p(),
            text_opt(primary_resolution) == stated_resolution(*primary),
            taken == probe_pool@.take(i as int).filter(fit).len(),
            forall|k: int|
                0 <= k < i && #[trigger] name_is_read(
                    *primary,
                    probe_pool@,
                    max_retries as nat,
                    true,
                    k,
                ) ==> readable_stream(probe_pool@[k]),
        decreases probe_pool.len() - i,
    {
        let c = &probe_pool[i];
        proof {
            assert(probe_pool@.take(i + 1).drop_last() =~= probe_pool@.take(i as int));
            assert(probe_pool@.take(i + 1).last() == *c);
            reveal(Seq::filter);
        }
        if c.id != primary.id && c.is_p2p() == primary_p2p {
            assert(name_is_read(*primary, probe_pool@, max_retries as nat, true, i as int));
            if !is_readable_stream(c) {
                return false;
            }
            let resolution = resolution_of(c);
            if same_resolution(&resolution, &primary_resolution) {
                taken = taken + 1;
            }
        }
        i = i + 1;
    }
    proof {
        assert forall|k: int|
            0 <= k < probe_pool.len() && #[trigger] name_is_read(
                *primary,
                probe_pool@,
                max_retries as nat,
                true,
                k,
            ) implies readable_stream(probe_pool@[k]) by {
            if k >= i {
                lemma_enough(probe_pool@.take(k), fit, i as int);
                assert(probe_pool@.take(k).take(i as int) =~= probe_pool@.take(i as int));
            }
        }
    }
    true
}

/// Every stream that is tried in place of another is a different one of the
/// pool, reached in the same way and, where that is asked for, of the same
/// resolution; there are then no more of them than may be tried.
pub proof fn law_stand_ins_resemble_the_primary(
    primary: Media,
    pool: Seq<Media>,
    auto_next: bool,
    max_retries: nat,
    restrict: bool,
    port: u16,
)
    ensures
        ({
            let list = fallback_candidates(primary, pool, auto_next, max_retries, restrict, port);
            &&& !auto_next ==> list.len() == 0
            &&& restrict ==> list.len() <= max_retries
            &&& forall|i: int|
                0 <= i < list.len() ==> pool.contains((#[trigger] list[i]).0) && stands_in(
                    primary,
                    list[i].0,
                    restrict,
                )
        }),
{
    if auto_next {
        let fit = fits(primary, restrict);
        let all = pool.filter(fit);
        let kept = stand_ins(primary, pool, max_retries, restrict);
        lemma_addressed(kept, port);
        let list = addressed(kept, port);
        assert forall|i: int| 0 <= i < list.len() implies pool.contains((#[trigger] list[i]).0)
            && stands_in(primary, list[i].0, restrict) by {
            let k = choose|k: int| 0 <= k < kept.len() && kept[k] == list[i].0;
            assert(all[k] == kept[k]);
            assert(all.contains(kept[k]));
            pool.lemma_filter_pred(fit, k);
            pool.lemma_filter_contains_rev(fit, kept[k]);
        }
    }
}

proof fn lemma_addressed(streams: Seq<Media>, port: u16)
    ensures
        addressed(streams, port).len() <= streams.len(),
        forall|i: int|
            0 <= i < addressed(streams, port).len() ==> streams.contains(
                (#[trigger] addressed(streams, port)[i]).0,
            ),
    decreases streams.len(),
{
    if streams.len() > 0 {
        let short = streams.drop_last();
        lemma_addressed(short, port);
        let before = addressed(short, port);
        let list = addressed(streams, port);
        assert forall|i: int| 0 <= i < list.len() implies streams.contains(
            (#[trigger] list[i]).0,
        ) by {
            if i < before.len() {
                assert(list[i] == before[i]);
                let k = choose|k: int| 0 <= k < short.len() && short[k] == before[i].0;
                assert(streams[k] == list[i].0);
            } else {
                assert(streams[streams.len() - 1] == list[i].0);
            }
        }
    }
}

// ---------------------------------------------------------------------------
// For how long
// ---------------------------------------------------------------------------

/// The longest that a probe of a torrent takes, in seconds.
pub const P2P_PROBE_SECS: u64 = 30;

/// How long one probe may take, in seconds.
pub open spec fn attempt_timeout(p2p: bool, configured: u64) -> u64 {
    if p2p && configured > P2P_PROBE_SECS {
        P2P_PROBE_SECS
    } else {
        configured
    }
}

pub fn probe_attempt_timeout(primary: &Media, configured_secs: u64) -> (r: u64)
    ensures
        r == attempt_timeout(primary.p2p(), configured_secs),
{
    if primary.is_p2p() && configured_secs > P2P_PROBE_SECS {
        P2P_PROBE_SECS
    } else {
        configured_secs
    }
}

/// How long all probes together may take: for torrents, as long as four
/// attempts at most, and five seconds more.
pub open spec fn overall_deadline(p2p: bool, timeout: u64, candidates: nat) -> Option<int> {
    if p2p {
        Some(
            timeout * (if candidates < 4 {
                candidates as int
            } else {
                4
            }) + 5,
        )
    } else {
        None
    }
}

pub fn probe_overall_deadline(
    primary: &Media,
    attempt_timeout_secs: u64,
    candidate_count: usize,
) -> (r: Option<u64>)
    requires
        overall_deadline(primary.p2p(), attempt_timeout_secs, candidate_count as nat) matches Some(
            d,
        ) ==> d <= u64::MAX,
    ensures
        (match r {
            Some(d) => Some(d as int),
            None => None,
        }) == overall_deadline(primary.p2p(), attempt_timeout_secs, candidate_count as nat),
{
    if primary.is_p2p() {
        let count: u64 = if candidate_count < 4 {
            candidate_count as u64
        } else {
            4
        };
        let total: u128 = attempt_timeout_secs as u128 * count as u128 + 5;
        Some(total as u64)
    } else {
        None
    }
}

/// However many candidates there are, the probes of a torrent end within two
/// minutes and five seconds.
pub proof fn law_torrent_probes_are_bounded(configured: u64, candidates: nat)
    ensures
        overall_deadline(true, attempt_timeout(true, configured), candidates) matches Some(d)
            && 5 <= d <= 125,
{
    let t = attempt_timeout(true, configured);
    let n = if candidates < 4 {
        candidates as int
    } else {
        4
    };
    assert(0 <= t * n <= 120) by (nonlinear_arith)
        requires
            0 <= t <= 30,
            0 <= n <= 4,
    ;
}

// ---------------------------------------------------------------------------
// What counts as a success
// ---------------------------------------------------------------------------

/// Five minutes and three minutes, in ticks.
pub const MAX_SHORT_TICKS: i64 = 3_000_000_000;

pub const UNKNOWN_SHORT_TICKS: i64 = 1_800_000_000;

/// The length below which a video is taken for a placeholder: half of what it
/// should be, but no more than five minutes; three minutes where it is not
/// known what it should be.
pub open spec fn short_limit(runtime: Option<i64>) -> int {
    match runtime {
        Some(secs) => {
            let ticks = secs * 10_000_000;
            if ticks > i64::MAX || ticks < i64::MIN {
                MAX_SHORT_TICKS as int
            } else {
                let half = if ticks >= 0 {
                    ticks / 2
                } else {
                    -((-ticks) / 2)
                };
                if half < MAX_SHORT_TICKS {
                    half
                } else {
                    MAX_SHORT_TICKS as int
                }
            }
        },
        None => UNKNOWN_SHORT_TICKS as int,
    }
}

fn short_limit_of(runtime: Option<i64>) -> (r: i64)
    ensures
        r == short_limit(runtime),
{
    match runtime {
        Some(secs) => {
            let ticks: i128 = secs as i128 * 10_000_000;
            if ticks > i64::MAX as i128 || ticks < i64::MIN as i128 {
                MAX_SHORT_TICKS
            } else if ticks >= 0 {
                let half: u64 = ticks as u64 / 2;
                if half < MAX_SHORT_TICKS as u64 {
                    half as i64
                } else {
                    MAX_SHORT_TICKS
                }
            } else {
                let half: u64 = (-ticks) as u64 / 2;
                (-(half as i128)) as i64
            }
        },
        None => UNKNOWN_SHORT_TICKS,
    }
}

/// What a probe that ended well comes to.
#[derive(Debug, Clone, Copy, PartialEq, Eq, Structural)]
pub enum ProbeVerdict {
    /// The video is too short to be what it should be: try the next.
    TooShort,
    /// The source is of use, and what was found is worth keeping.
    Keep,
    /// The source is taken, but nothing playable was found in it.
    Use,
}

pub open spec fn probe_verdict(runtime: Option<i64>, probed: MediaSourceInfo) -> ProbeVerdict {
    let video = first_of(probed.media_streams@, MediaStreamType::Video) is Some;
    let audio = first_of(probed.media_streams@, MediaStreamType::Audio) is Some;
    if video && (probed.run_time_ticks matches Some(t) && t < short_limit(runtime)) {
        ProbeVerdict::TooShort
    } else if video || audio {
        ProbeVerdict::Keep
    } else {
        ProbeVerdict::Use
    }
}

pub fn judge_probe(runtime: Option<i64>, probed: &MediaSourceInfo) -> (r: ProbeVerdict)
    ensures
        r == probe_verdict(runtime, *probed),
{
    let video = probed.video_stream().is_some();
    let audio = probed.audio_stream().is_some();
    let limit = short_limit_of(runtime);
    let short = match probed.run_time_ticks {
        Some(t) => t < limit,
        None => false,
    };
    if video && short {
        ProbeVerdict::TooShort
    } else if video || audio {
        ProbeVerdict::Keep
    } else {
        ProbeVerdict::Use
    }
}

// ---------------------------------------------------------------------------
// The sequence of attempts
// ---------------------------------------------------------------------------

/// The attempts at one source after the other.
#[derive(Debug)]
pub struct ProbeRun<'a> {
    /// The sources to try, each with its address where it has one.
    pub queue: Vec<(&'a Media, Option<String>)>,
    /// The next source to try.
    pub next: usize,
    /// How many probes have been made.
    pub attempts: usize,
    /// How many streams there are in all.
    pub total_available: usize,
    /// How long one probe may take, in seconds.
    pub timeout_secs: u64,
    /// How long all of them may take together, in seconds.
    pub deadline_secs: Option<u64>,
}

/// The first source from a place on that has an address.
pub open spec fn next_addressed(queue: Seq<(&Media, Option<String>)>, from: nat) -> Option<nat>
    decreases queue.len() - from,
{
    if from >= queue.len() {
        None
    } else if queue[from as int].1 is Some {
        Some(from)
    } else {
        next_addressed(queue, from + 1)
    }
}

/// Whether the time for all probes is over.
pub open spec fn time_is_over(deadline_secs: Option<u64>, elapsed_ns: u128) -> bool {
    deadline_secs matches Some(d) && elapsed_ns >= d * 1_000_000_000
}

impl<'a> ProbeRun<'a> {
    /// Whether nothing has been tried yet of `primary`, then of those that can
    /// stand in for it.
    pub open spec fn starts_with_primary(
        &self,
        primary: Media,
        primary_url: Option<String>,
        timeout_secs: u64,
        auto_next: bool,
        max_retries: nat,
        pool: Seq<Media>,
        restrict: bool,
        port: u16,
    ) -> bool {
        let others = fallback_candidates(primary, pool, auto_next, max_retries, restrict, port);
        &&& self.queue@.len() == others.len() + 1
        &&& *self.queue@[0].0 == primary
        &&& self.queue@[0].1 == primary_url
        &&& forall|i: int|
            0 <= i < others.len() ==> *(#[trigger] self.queue@[i + 1]).0 == others[i].0 && text_opt(
                self.queue@[i + 1].1,
            ) == Some(others[i].1)
        &&& (match self.deadline_secs {
            Some(d) => Some(d as int),
            None => None,
        }) == overall_deadline(
            primary.p2p(),
            attempt_timeout(primary.p2p(), timeout_secs),
            others.len() + 1,
        )
        &&& self.next == 0
        &&& self.attempts == 0
        &&& self.total_available == pool.len()
        &&& self.timeout_secs == attempt_timeout(primary.p2p(), timeout_secs)
    }

    /// The attempts at `primary` and then at those that can stand in for it.
    pub fn new(
        primary: &'a Media,
        primary_url: Option<String>,
        timeout_secs: u64,
        auto_next_stream: bool,
        max_retries: usize,
        probe_pool: &'a Vec<Media>,
        restrict_resolution: bool,
        port: u16,
    ) -> (r: ProbeRun<'a>)
        requires
            probe_pool@.len() < usize::MAX,
            readable_names(
                *primary,
                probe_pool@,
                auto_next_stream,
                max_retries as nat,
                restrict_resolution,
            ),
        ensures
            r.starts_with_primary(
                *primary,
                primary_url,
                timeout_secs,
                auto_next_stream,
                max_retries as nat,
                probe_pool@,
                restrict_resolution,
                port,
            ),
    {
        let candidates = select_candidates(
            primary,
            probe_pool,
            auto_next_stream,
            max_retries,
            restrict_resolution,
            port,
        );
        let ghost others = candidate_views(candidates@);
        let mut queue: Vec<(&'a Media, Option<String>)> = Vec::new();
        queue.push((primary, primary_url));
        let mut i: usize = 0;
        while i < candidates.len()
            invariant
                i <= candidates.len(),
                others == candidate_views(candidates@),
                queue@.len() == i + 1,
                *queue@[0].0 == *primary,
                queue@[0].1 == primary_url,
                forall|k: int|
                    0 <= k < i ==> *(#[trigger] queue@[k + 1]).0 == others[k].0 && text_opt(
                        queue@[k + 1].1,
                    ) == Some(others[k].1),
            decreases candidates.len() - i,
        {
            let c: &'a Media = candidates[i].0;
            queue.push((c, Some(candidates[i].1.clone())));
            assert(others[i as int] == (*candidates@[i as int].0, candidates@[i as int].1@));
            i = i + 1;
        }
        let timeout = probe_attempt_timeout(primary, timeout_secs);
        proof {
            if primary.p2p() {
                law_torrent_probes_are_bounded(timeout_secs, queue@.len());
            }
        }
        let deadline_secs = probe_overall_deadline(primary, timeout, queue.len());
        ProbeRun {
            queue,
            next: 0,
            attempts: 0,
            total_available: probe_pool.len(),
            timeout_secs: timeout,
            deadline_secs,
        }
    }

    /// The attempts at `primary` and then at those that can stand in for it,
    /// where every name that is read for them can be read.
    pub fn start(
        primary: &'a Media,
        primary_url: Option<String>,
        timeout_secs: u64,
        auto_next_stream: bool,
        max_retries: usize,
        probe_pool: &'a Vec<Media>,
        restrict_resolution: bool,
        port: u16,
    ) -> (r: Option<ProbeRun<'a>>)
        requires
            probe_pool@.len() < usize::MAX,
        ensures
            r is Some == readable_names(
                *primary,
                probe_pool@,
                auto_next_stream,
                max_retries as nat,
                restrict_resolution,
            ),
            r matches Some(run) ==> run.starts_with_primary(
                *primary,
                primary_url,
                timeout_secs,
                auto_next_stream,
                max_retries as nat,
                probe_pool@,
                restrict_resolution,
                port,
            ),
    {
        if are_names_readable(
            primary,
            probe_pool,
            auto_next_stream,
            max_retries,
            restrict_resolution,
        ) {
            Some(
                ProbeRun::new(
                    primary,
                    primary_url,
                    timeout_secs,
                    auto_next_stream,
                    max_retries,
                    probe_pool,
                    restrict_resolution,
                    port,
                ),
            )
        } else {
            None
        }
    }

    /// The place of the next source to probe, where the time is not over. A
    /// source without an address is passed over and is no attempt.
    pub fn next_attempt(&mut self, elapsed_ns: u128) -> (r: Option<usize>)
        requires
            old(self).next <= old(self).queue@.len(),
            old(self).attempts <= old(self).next,
        ensures
            final(self).attempts <= final(self).next <= final(self).queue@.len(),
            final(self).queue == old(self).queue,
            final(self).total_available == old(self).total_available,
            final(self).timeout_secs == old(self).timeout_secs,
            final(self).deadline_secs == old(self).deadline_secs,
            match r {
                Some(p) => {
                    &&& !time_is_over(old(self).deadline_secs, elapsed_ns)
                    &&& next_addressed(old(self).queue@, old(self).next as nat) == Some(p as nat)
                    &&& p < old(self).queue@.len() && old(self).queue@[p as int].1 is Some
                    &&& final(self).next == p + 1
                    &&& final(self).attempts == old(self).attempts + 1
                },
                None => {
                    &&& time_is_over(old(self).deadline_secs, elapsed_ns) || next_addressed(
                        old(self).queue@,
                        old(self).next as nat,
                    ) is None
                    &&& final(self).attempts == old(self).attempts
                    &&& final(self).next == if time_is_over(old(self).deadline_secs, elapsed_ns) {
                        old(self).next
                    } else {
                        old(self).queue@.len() as usize
                    }
                },
            },
    {
        if let Some(d) = self.deadline_secs {
            if elapsed_ns >= d as u128 * 1_000_000_000 {
                return None;
            }
        }
        let ghost start = self.next as nat;
        while self.next < self.queue.len()
            invariant
                self.next <= self.queue@.len(),
                self.attempts <= self.next,
                self.queue == old(self).queue,
                self.attempts == old(self).attempts,
                self.total_available == old(self).total_available,
                self.timeout_secs == old(self).timeout_secs,
                self.deadline_secs == old(self).deadline_secs,
                !time_is_over(old(self).deadline_secs, elapsed_ns),
                start == old(self).next,
                next_addressed(self.queue@, start) == next_addressed(
                    self.queue@,
                    self.next as nat,
                ),
            decreases self.queue@.len() - self.next,
        {
            let p: usize = self.next;
            self.next = p + 1;
            if self.queue[p].1.is_some() {
                self.attempts = self.attempts + 1;
                return Some(p);
            }
        }
        None
    }

    /// What is said when no source was of use.
    pub fn failure(&self, title: &str) -> (r: String)
        ensures
            r@ == "all probe attempts failed for '"@ + title@ + "' (tried "@ + dec(
                self.attempts as nat,
            ) + " of "@ + dec(self.total_available as nat) + " streams)"@,
    {
        let mut r = concat3("all probe attempts failed for '", title, "' (tried ");
        r.append(dec_text(self.attempts as u64).as_str());
        r.append(" of ");
        r.append(dec_text(self.total_available as u64).as_str());
        r.append(" streams)");
        r
    }
}

// ---------------------------------------------------------------------------
// Laws of probing
// ---------------------------------------------------------------------------

/// A torrent is not probed for its description, and no stream that is to be skipped;
/// what an earlier probe found of a video is used again, and all else is probed.
pub proof fn law_probes_are_spared(stream: Media, k: int)
    ensures
        probe_decision(stream, true) is Inferred,
        stream.probe_data is None && (stream.stream_info matches Some(i)
            && i.descriptor is Torrent) ==> probe_decision(stream, false) is Inferred,
        stream.probe_data is None && !(stream.stream_info matches Some(i)
            && i.descriptor is Torrent) ==> probe_decision(stream, false) is Probe,
        (stream.probe_data matches Some(p) && 0 <= k < p.media_streams@.len()
            && p.media_streams@[k].type_ == Some(MediaStreamType::Video)) ==> probe_decision(
            stream,
            false,
        ) is Cached,
        (stream.probe_data matches Some(p) && forall|j: int|
            0 <= j < p.media_streams@.len() ==> #[trigger] p.media_streams@[j].type_ != Some(
                MediaStreamType::Video,
            )) ==> probe_decision(stream, false) is Probe,
{
    if let Some(p) = stream.probe_data {
        let streams = p.media_streams@;
        if 0 <= k < streams.len() {
            super::source::law_first_stream(streams, MediaStreamType::Video, k);
        }
        if forall|j: int|
            0 <= j < streams.len() ==> #[trigger] streams[j].type_ != Some(MediaStreamType::Video) {
            if streams.len() > 0 {
                super::source::law_first_stream(streams, MediaStreamType::Video, 0);
            }
        }
    }
}

/// A probe of a torrent takes half a minute at most, and any other as long as is
/// configured; all probes of a torrent together take as long as four attempts at most,
/// and five seconds more, and those of other streams as long as they need.
pub proof fn law_probe_times(configured: u64, candidates: nat)
    ensures
        attempt_timeout(false, configured) == configured,
        configured <= 30 ==> attempt_timeout(true, configured) == configured,
        configured > 30 ==> attempt_timeout(true, configured) == 30,
        overall_deadline(false, configured, candidates) is None,
        candidates <= 4 ==> overall_deadline(true, configured, candidates) == Some(
            configured * candidates + 5,
        ),
        candidates > 4 ==> overall_deadline(true, configured, candidates) == Some(
            configured * 4 + 5,
        ),
{
}

/// A video that is shorter than half of what it should be is passed over, unless it
/// lasts five minutes; where it is not known how long it should be, one of less than
/// three minutes is. Sound alone is never too short.
pub proof fn law_placeholders_are_passed_over(runtime: Option<i64>, probed: MediaSourceInfo, k: int)
    requires
        0 <= k < probed.media_streams@.len(),
    ensures
        ({
            let v = probe_verdict(runtime, probed);
            let video = probed.media_streams@[k].type_ == Some(MediaStreamType::Video);
            &&& video && (probed.run_time_ticks matches Some(t) && (runtime matches Some(secs) && 0
                <= secs < 900_000_000_000 && t * 2 + 1 < secs * 10_000_000 && t < 3_000_000_000))
                ==> v is TooShort
            &&& video && (probed.run_time_ticks matches Some(t) && runtime is None && t
                < 1_800_000_000) ==> v is TooShort
            &&& (probed.run_time_ticks matches Some(t) && t >= 3_000_000_000) ==> !(v is TooShort)
            &&& (probed.run_time_ticks matches Some(t) && (runtime matches Some(secs) && 0 <= secs
                < 900_000_000_000 && t * 2 >= secs * 10_000_000)) ==> !(v is TooShort)
            &&& (probed.run_time_ticks matches Some(t) && runtime is None && t >= 1_800_000_000)
                ==> !(v is TooShort)
            &&& probed.run_time_ticks is None ==> !(v is TooShort)
            &&& (forall|j: int|
                0 <= j < probed.media_streams@.len() ==> #[trigger] probed.media_streams@[j].type_
                    != Some(MediaStreamType::Video)) ==> !(v is TooShort)
            &&& (video || probed.media_streams@[k].type_ == Some(MediaStreamType::Audio)) ==> !(
            v is Use)
        }),
{
    let streams = probed.media_streams@;
    super::source::law_first_stream(streams, MediaStreamType::Video, k);
    super::source::law_first_stream(streams, MediaStreamType::Audio, k);
    if forall|j: int|
        0 <= j < streams.len() ==> #[trigger] streams[j].type_ != Some(MediaStreamType::Video) {
        if let Some(i) = first_of(streams, MediaStreamType::Video) {
            assert(streams[i].type_ == Some(MediaStreamType::Video));
        }
    }
}

/// A source with neither sound nor picture is taken, but nothing is kept of it.
pub proof fn law_empty_probes_are_not_kept(runtime: Option<i64>, probed: MediaSourceInfo)
    requires
        forall|j: int|
            0 <= j < probed.media_streams@.len() ==> #[trigger] probed.media_streams@[j].type_
                != Some(MediaStreamType::Video) && probed.media_streams@[j].type_ != Some(
                MediaStreamType::Audio,
            ),
    ensures
        probe_verdict(runtime, probed) is Use,
{
    let streams = probed.media_streams@;
    if streams.len() > 0 {
        super::source::law_first_stream(streams, MediaStreamType::Video, 0);
        super::source::law_first_stream(streams, MediaStreamType::Audio, 0);
    }
}

/// Every stream of the pool that can stand in for the first is tried in its turn, with
/// its own address: where the resolution does not matter, each that is another one and
/// is reached in the same way.
pub proof fn law_all_stand_ins_are_tried(
    primary: Media,
    pool: Seq<Media>,
    max_retries: nat,
    port: u16,
    k: int,
)
    requires
        0 <= k < pool.len(),
        pool[k].id != primary.id,
        pool[k].stream_info is Some,
        pool[k].p2p() == primary.p2p(),
    ensures
        ({
            let list = fallback_candidates(primary, pool, true, max_retries, false, port);
            let info = pool[k].stream_info->Some_0;
            list.contains((pool[k], info.descriptor.input(pool[k].id, port)))
        }),
{
    let fit = fits(primary, false);
    let all = pool.filter(fit);
    pool.lemma_filter_contains(fit, k);
    let j = choose|j: int| 0 <= j < all.len() && all[j] == pool[k];
    lemma_addressed_holds(all, port, j);
}

proof fn lemma_addressed_holds(streams: Seq<Media>, port: u16, j: int)
    requires
        0 <= j < streams.len(),
        streams[j].stream_info is Some,
    ensures
        addressed(streams, port).contains(
            (streams[j], streams[j].stream_info->Some_0.descriptor.input(streams[j].id, port)),
        ),
    decreases streams.len(),
{
    let list = addressed(streams, port);
    let want = (streams[j], streams[j].stream_info->Some_0.descriptor.input(streams[j].id, port));
    if j == streams.len() - 1 {
        assert(list[list.len() - 1] == want);
    } else {
        let short = streams.drop_last();
        assert(short[j] == streams[j]);
        lemma_addressed_holds(short, port, j);
        let before = addressed(short, port);
        let i = choose|i: int| 0 <= i < before.len() && before[i] == want;
        assert(list[i] == want);
    }
}

/// The time for all probes is over once it has passed, and never where there is no limit.
pub proof fn law_deadlines(deadline: u64, elapsed_ns: u128)
    ensures
        elapsed_ns >= deadline * 1_000_000_000 ==> time_is_over(Some(deadline), elapsed_ns),
        elapsed_ns < deadline * 1_000_000_000 ==> !time_is_over(Some(deadline), elapsed_ns),
        !time_is_over(None, elapsed_ns),
{
}

/// The next stream to probe is the first in the queue that has an address.
pub proof fn law_streams_without_address_are_passed_over(
    queue: Seq<(&Media, Option<String>)>,
    from: nat,
    k: int,
)
    requires
        from <= k < queue.len(),
    ensures
        queue[k].1 is Some ==> (next_addressed(queue, from) matches Some(n) && from <= n <= k),
        next_addressed(queue, from) matches Some(n) ==> from <= n < queue.len() && queue[n as int].1
            is Some,
    decreases queue.len() - from,
{
    if queue[from as int].1 is None {
        if from + 1 <= k {
            law_streams_without_address_are_passed_over(queue, from + 1, k);
        } else if from + 1 < queue.len() {
            law_streams_without_address_are_passed_over(queue, from + 1, from as int + 1);
        }
    }
}

/// Only another stream stands in for one that cannot be played, reached in the same way
/// and, where that is asked for, of the same resolution; as many are tried as may be.
pub proof fn law_stand_ins_are_of_a_kind(
    primary: Media,
    pool: Seq<Media>,
    auto_next: bool,
    max_retries: nat,
    restrict: bool,
    port: u16,
    i: int,
)
    ensures
        ({
            let list = fallback_candidates(primary, pool, auto_next, max_retries, restrict, port);
            &&& 0 <= i < list.len() ==> {
                let m = list[i].0;
                &&& m.id != primary.id
                &&& m.p2p() == primary.p2p()
                &&& (restrict && m.stream_info is Some && primary.stream_info is Some) ==> (
                m.stream_info->Some_0.resolution() == primary.stream_info->Some_0.resolution())
            }
            &&& !auto_next ==> list.len() == 0
            &&& restrict ==> list.len() <= max_retries
        }),
{
    law_stand_ins_resemble_the_primary(primary, pool, auto_next, max_retries, restrict, port);
    let list = fallback_candidates(primary, pool, auto_next, max_retries, restrict, port);
    if 0 <= i < list.len() {
        assert(stands_in(primary, list[i].0, restrict));
    }
}

/// Films, episodes and tracks have streams of their own, and nothing else has.
pub proof fn law_roots_of_streams(kind: MediaKind)
    ensures
        stream_root_kind(kind) <==> kind is Movie || kind is Episode || kind is Track,
{
}

} // verus!
