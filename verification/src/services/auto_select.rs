//! Picking the torrent behind an automatic source.
//!
//! The candidates of a resolution are narrowed down, asked about at trackers
//! and peers in a few bounded waves, and ranked by what came back. Each step is
//! a function from what is known to what to ask next.

use vstd::prelude::*;

use super::auto_score::{
    auto_candidate_score, auto_score, blocked, candidate_bytes, deref, is_blocked_auto_candidate,
    is_language_mismatched_auto_candidate, is_stereoscopic_auto_candidate,
    known_candidate_file_bytes, language_mismatch, lower_median, median, stereoscopic, AutoScore,
};
use super::stream_service::{
    choice_key, failure_token, ranked_key, recently_failed, StreamService, AUTO_CHOICE_TTL_MS,
    AUTO_SESSION_CANDIDATE_LIMIT,
};
use crate::keyed::Keyed;
use crate::media::Media;
use crate::order::{
    distinct, extended, key_ge, key_seqs, law_ranking, lemma_extended_push,
    positions, push_distinct, rank, ranked,
};
use crate::store::{expiry, RankedView, Store, StoredView};
use crate::stream::{
    default_trackers, default_trackers_spec, magnet_text, tracker_texts, TrackerUrl,
};
use crate::text::{
    concat2, concat3, contains, dec, dec_text, has, list_has, lower, same_text, text_opt,
    texts, to_lower,
};
use crate::torrent::{ManagedTorrentAvailability, TorrentPreflight};
use crate::torrent_availability::{
    copy_peers, has_peer, Peer, PeerAvailability, TrackerAvailability,
};

verus! {

// ---------------------------------------------------------------------------
// Candidates
// ---------------------------------------------------------------------------

/// The resolution that a name mentions.
pub open spec fn mentioned_resolution(name: Seq<char>) -> Seq<char> {
    let l = lower(name);
    if has(l, "2160p"@) || has(l, "4k"@) {
        "4K"@
    } else if has(l, "1080p"@) {
        "1080p"@
    } else if has(l, "720p"@) {
        "720p"@
    } else if has(l, "480p"@) {
        "480p"@
    } else if has(l, "1440p"@) {
        "1440p"@
    } else {
        ""@
    }
}

pub fn canonical(name: &str) -> (r: &'static str)
    ensures
        r@ == mentioned_resolution(name@),
{
    let l = to_lower(name);
    let l = l.as_str();
    if contains(l, "2160p") || contains(l, "4k") {
        "4K"
    } else if contains(l, "1080p") {
        "1080p"
    } else if contains(l, "720p") {
        "720p"
    } else if contains(l, "480p") {
        "480p"
    } else if contains(l, "1440p") {
        "1440p"
    } else {
        ""
    }
}

/// The resolution of a stream, by its title or else by its file's name.
pub open spec fn media_resolution(m: Media) -> Seq<char> {
    if mentioned_resolution(m.title@) != ""@ {
        mentioned_resolution(m.title@)
    } else {
        match m.stream_info {
            Some(info) => match info.filename {
                Some(f) => mentioned_resolution(f@),
                None => ""@,
            },
            None => ""@,
        }
    }
}

pub fn canonical_for_media(m: &Media) -> (r: &'static str)
    ensures
        r@ == media_resolution(*m),
{
    let c = canonical(m.title.as_str());
    if !same_text(c, "") {
        return c;
    }
    match &m.stream_info {
        Some(info) => match &info.filename {
            Some(f) => canonical(f.as_str()),
            None => "",
        },
        None => "",
    }
}

/// The torrents of a resolution that show the film as it is meant to be seen.
pub open spec fn fit_for(resolution: Seq<char>) -> spec_fn(Media) -> bool {
    |m: Media|
        m.p2p() && media_resolution(m) == resolution && !blocked(m) && !stereoscopic(m)
}

/// Those that may be in the language of the title.
pub open spec fn spoken_in(parent: Media) -> spec_fn(Media) -> bool {
    |m: Media| !language_mismatch(m, text_opt(parent.original_language), parent.title@)
}

/// Those that did not fail a short while ago.
pub open spec fn still_good(
    store: Store,
    item_id: u128,
    resolution: Seq<char>,
    now: u64,
) -> spec_fn(Media) -> bool {
    |m: Media| !recently_failed(store, item_id, resolution, m, now)
}

/// The streams of a resolution that come into question. Those in the wrong
/// language do so only where there are no others.
pub open spec fn suited(all: Seq<Media>, resolution: Seq<char>, parent: Media) -> Seq<Media> {
    let fit = all.filter(fit_for(resolution));
    let spoken = fit.filter(spoken_in(parent));
    if spoken.len() > 0 {
        spoken
    } else {
        fit
    }
}

/// A key by which more seeders come first, negative numbers included.
pub open spec fn seeders_key(m: Media) -> Seq<u64> {
    seq![(m.stated_seeders() + 0x8000_0000_0000_0000) as u64]
}

pub open spec fn seeders_keys(c: Seq<Media>) -> Seq<Seq<u64>> {
    c.map_values(|m: Media| seeders_key(m))
}

/// The members at some positions.
pub open spec fn picked<A>(c: Seq<A>, order: Seq<int>) -> Seq<A> {
    order.map_values(|i: int| c[i])
}

/// From the most stated seeders to the fewest.
pub open spec fn by_seeders(c: Seq<Media>) -> Seq<Media> {
    picked(c, ranked(seeders_keys(c)))
}

/// Why there is nothing to choose from.
#[derive(Debug, Clone, Copy, PartialEq, Eq, Structural)]
pub enum AutoError {
    NoCandidates,
    /// So many candidates all failed a short while ago.
    AllFailed(usize),
}

impl AutoError {
    pub open spec fn text(&self, resolution: Seq<char>) -> Seq<char> {
        match self {
            AutoError::NoCandidates => "no candidates for resolution "@ + resolution,
            AutoError::AllFailed(n) => "all "@ + dec(*n as nat) + " candidates for "@ + resolution
                + " recently failed"@,
        }
    }

    pub fn message(&self, resolution: &str) -> (s: String)
        ensures
            s@ == self.text(resolution@),
    {
        match self {
            AutoError::NoCandidates => concat2("no candidates for resolution ", resolution),
            AutoError::AllFailed(n) => {
                let number = dec_text(*n as u64);
                let head = concat3("all ", number.as_str(), " candidates for ");
                concat3(head.as_str(), resolution, " recently failed")
            },
        }
    }
}

/// The candidates of a resolution.
pub open spec fn candidates_of(
    all: Seq<Media>,
    resolution: Seq<char>,
    parent: Media,
    store: Store,
    item_id: u128,
    now: u64,
) -> Result<Seq<Media>, AutoError> {
    let c = suited(all, resolution, parent);
    let good = c.filter(still_good(store, item_id, resolution, now));
    if c.len() == 0 {
        Err(AutoError::NoCandidates)
    } else if good.len() == 0 {
        Err(AutoError::AllFailed(c.len() as usize))
    } else {
        Ok(by_seeders(good))
    }
}

pub open spec fn derefs<A>(v: Seq<&A>) -> Seq<A> {
    v.map_values(|m: &A| *m)
}

fn keep_fit<'a>(all: &'a Vec<Media>, resolution: &str) -> (r: Vec<&'a Media>)
    ensures
        derefs(r@) == all@.filter(fit_for(resolution@)),
{
    let mut r: Vec<&'a Media> = Vec::new();
    let ghost p = fit_for(resolution@);
    proof {
        reveal(Seq::filter);
        assert(derefs(r@) =~= all@.take(0).filter(p));
    }
    let mut i: usize = 0;
    while i < all.len()
        invariant
            i <= all.len(),
            p == fit_for(resolution@),
            derefs(r@) == all@.take(i as int).filter(p),
        decreases all.len() - i,
    {
        let m = &all[i];
        proof {
            reveal(Seq::filter);
            assert(all@.take(i + 1).drop_last() =~= all@.take(i as int));
            assert(all@.take(i + 1).last() == all@[i as int]);
        }
        if m.is_p2p() && same_text(canonical_for_media(m), resolution)
            && !is_blocked_auto_candidate(m) && !is_stereoscopic_auto_candidate(m) {
            let ghost before = r@;
            r.push(m);
            assert(derefs(r@) =~= derefs(before).push(*m));
        }
        i = i + 1;
    }
    assert(all@.take(all@.len() as int) =~= all@);
    r
}

fn mismatched(m: &Media, parent: &Media) -> (r: bool)
    ensures
        r == !spoken_in(*parent)(*m),
{
    let language: Option<&str> = match &parent.original_language {
        Some(l) => Some(l.as_str()),
        None => None,
    };
    is_language_mismatched_auto_candidate(m, language, parent.title.as_str())
}

fn keep_spoken<'a>(c: &Vec<&'a Media>, parent: &Media) -> (r: Vec<&'a Media>)
    ensures
        derefs(r@) == derefs(c@).filter(spoken_in(*parent)),
{
    let mut r: Vec<&'a Media> = Vec::new();
    let ghost all = derefs(c@);
    let ghost p = spoken_in(*parent);
    proof {
        reveal(Seq::filter);
        assert(derefs(r@) =~= all.take(0).filter(p));
    }
    let mut i: usize = 0;
    while i < c.len()
        invariant
            i <= c.len(),
            all == derefs(c@),
            p == spoken_in(*parent),
            derefs(r@) == all.take(i as int).filter(p),
        decreases c.len() - i,
    {
        let m: &'a Media = c[i];
        proof {
            reveal(Seq::filter);
            assert(all.take(i + 1).drop_last() =~= all.take(i as int));
            assert(all.take(i + 1).last() == *c@[i as int]);
        }
        if !mismatched(m, parent) {
            let ghost before = r@;
            r.push(m);
            assert(derefs(r@) =~= derefs(before).push(*m));
        }
        i = i + 1;
    }
    assert(all.take(all.len() as int) =~= all);
    r
}

fn keep_good<'a>(
    c: &Vec<&'a Media>,
    store: &Store,
    item_id: u128,
    resolution: &str,
    now: u64,
) -> (r: Vec<&'a Media>)
    requires
        store.wf(),
    ensures
        derefs(r@) == derefs(c@).filter(still_good(*store, item_id, resolution@, now)),
{
    let mut r: Vec<&'a Media> = Vec::new();
    let ghost all = derefs(c@);
    let ghost p = still_good(*store, item_id, resolution@, now);
    proof {
        reveal(Seq::filter);
        assert(derefs(r@) =~= all.take(0).filter(p));
    }
    let mut i: usize = 0;
    while i < c.len()
        invariant
            i <= c.len(),
            store.wf(),
            all == derefs(c@),
            p == still_good(*store, item_id, resolution@, now),
            derefs(r@) == all.take(i as int).filter(p),
        decreases c.len() - i,
    {
        let m: &'a Media = c[i];
        proof {
            reveal(Seq::filter);
            assert(all.take(i + 1).drop_last() =~= all.take(i as int));
            assert(all.take(i + 1).last() == *c@[i as int]);
        }
        if !StreamService::is_auto_candidate_failed(store, item_id, resolution, m, now) {
            let ghost before = r@;
            r.push(m);
            assert(derefs(r@) =~= derefs(before).push(*m));
        }
        i = i + 1;
    }
    assert(all.take(all.len() as int) =~= all);
    r
}

fn sort_by_seeders<'a>(c: &Vec<&'a Media>) -> (r: Vec<&'a Media>)
    ensures
        derefs(r@) == by_seeders(derefs(c@)),
{
    let ghost all = derefs(c@);
    let mut keys: Vec<Vec<u64>> = Vec::new();
    let mut i: usize = 0;
    while i < c.len()
        invariant
            i <= c.len(),
            all == derefs(c@),
            key_seqs(keys@) =~= seeders_keys(all).take(i as int),
        decreases c.len() - i,
    {
        let ghost before = key_seqs(keys@);
        let shifted: i128 = c[i].seeders() as i128 + 0x8000_0000_0000_0000;
        let mut key: Vec<u64> = Vec::new();
        key.push(shifted as u64);
        assert(key@ =~= seeders_key(*c@[i as int]));
        keys.push(key);
        assert(key_seqs(keys@) =~= before.push(key@));
        i = i + 1;
    }
    assert(seeders_keys(all).take(all.len() as int) =~= seeders_keys(all));
    let order = rank(&keys);
    let mut r: Vec<&'a Media> = Vec::new();
    let mut k: usize = 0;
    while k < order.len()
        invariant
            k <= order.len(),
            order.len() == c.len(),
            all == derefs(c@),
            forall|j: int| 0 <= j < order.len() ==> (#[trigger] order@[j]) < c.len(),
            derefs(r@) =~= picked(all, positions(order@).take(k as int)),
        decreases order.len() - k,
    {
        let ghost before = r@;
        r.push(c[order[k]]);
        assert(derefs(r@) =~= derefs(before).push(*c@[order@[k as int] as int]));
        k = k + 1;
    }
    assert(positions(order@).take(order@.len() as int) =~= positions(order@));
    r
}

/// The candidates of a resolution among an item's streams, from the most
/// stated seeders to the fewest.
pub fn auto_candidates<'a>(
    all: &'a Vec<Media>,
    resolution: &str,
    parent: &Media,
    store: &Store,
    item_id: u128,
    now: u64,
) -> (r: Result<Vec<&'a Media>, AutoError>)
    requires
        store.wf(),
    ensures
        match r {
            Ok(c) => candidates_of(all@, resolution@, *parent, *store, item_id, now) == Ok::<
                Seq<Media>,
                AutoError,
            >(derefs(c@)),
            Err(e) => candidates_of(all@, resolution@, *parent, *store, item_id, now) == Err::<
                Seq<Media>,
                AutoError,
            >(e),
        },
{
    let fit = keep_fit(all, resolution);
    let spoken = keep_spoken(&fit, parent);
    let c = if spoken.len() > 0 {
        spoken
    } else {
        fit
    };
    assert(derefs(c@) == suited(all@, resolution@, *parent));
    if c.len() == 0 {
        return Err(AutoError::NoCandidates);
    }
    let good = keep_good(&c, store, item_id, resolution, now);
    if good.len() == 0 {
        return Err(AutoError::AllFailed(c.len()));
    }
    Ok(sort_by_seeders(&good))
}

/// Whether what was picked a short while ago may be used again.
pub open spec fn reusable(
    store: Store,
    item_id: u128,
    resolution: Seq<char>,
    winner: Media,
    parent: Media,
    now: u64,
) -> bool {
    &&& !recently_failed(store, item_id, resolution, winner, now)
    &&& winner.p2p()
    &&& !stereoscopic(winner)
    &&& !blocked(winner)
    &&& spoken_in(parent)(winner)
}

/// Whether the remembered pick is used again; where it is not, it is
/// forgotten. `winner` is the thing under the remembered identifier, if it is
/// still there.
pub fn reuse_auto_choice(
    store: &mut Store,
    item_id: u128,
    resolution: &str,
    winner: Option<&Media>,
    parent: &Media,
    now: u64,
) -> (reused: bool)
    requires
        old(store).wf(),
    ensures
        final(store).wf(),
        reused == match winner {
            Some(w) => reusable(*old(store), item_id, resolution@, *w, *parent, now),
            None => false,
        },
        final(store).view() == if reused {
            old(store).view()
        } else {
            old(store).view().remove(choice_key(item_id, resolution@))
        },
{
    if let Some(w) = winner {
        if !StreamService::is_auto_candidate_failed(store, item_id, resolution, w, now)
            && w.is_p2p() && !is_stereoscopic_auto_candidate(w) && !is_blocked_auto_candidate(w)
            && !mismatched(w, parent) {
            return true;
        }
    }
    let key = StreamService::auto_choice_key(item_id, resolution);
    store.delete(key.as_str());
    false
}

/// Every candidate is a torrent of the resolution, none is another cut, a bad
/// recording or stereoscopic, none failed a short while ago, and one in the
/// wrong language is there only where all are.
pub proof fn law_candidates_are_fit(
    all: Seq<Media>,
    resolution: Seq<char>,
    parent: Media,
    store: Store,
    item_id: u128,
    now: u64,
)
    requires
        candidates_of(all, resolution, parent, store, item_id, now) is Ok,
    ensures
        ({
            let c = candidates_of(all, resolution, parent, store, item_id, now)->Ok_0;
            &&& c.len() > 0
            &&& forall|i: int|
                0 <= i < c.len() ==> {
                    &&& all.contains(#[trigger] c[i])
                    &&& fit_for(resolution)(c[i])
                    &&& !recently_failed(store, item_id, resolution, c[i], now)
                }
            &&& (exists|j: int|
                0 <= j < all.len() && fit_for(resolution)(#[trigger] all[j]) && spoken_in(parent)(
                    all[j],
                )) ==> forall|i: int| 0 <= i < c.len() ==> spoken_in(parent)(#[trigger] c[i])
        }),
{
    let fit = all.filter(fit_for(resolution));
    let spoken = fit.filter(spoken_in(parent));
    let s = suited(all, resolution, parent);
    let good = s.filter(still_good(store, item_id, resolution, now));
    let c = by_seeders(good);
    law_ranking(seeders_keys(good));
    assert forall|i: int| 0 <= i < c.len() implies all.contains(#[trigger] c[i]) && fit_for(
        resolution,
    )(c[i]) && !recently_failed(store, item_id, resolution, c[i], now) && s.contains(c[i]) by {
        let k = ranked(seeders_keys(good))[i];
        assert(0 <= k < good.len());
        assert(c[i] == good[k]);
        s.lemma_filter_pred(still_good(store, item_id, resolution, now), k);
        assert(good.contains(c[i]));
        s.lemma_filter_contains_rev(still_good(store, item_id, resolution, now), c[i]);
        if spoken.len() > 0 {
            fit.lemma_filter_contains_rev(spoken_in(parent), c[i]);
        }
        assert(fit.contains(c[i]));
        let f = choose|f: int| 0 <= f < fit.len() && fit[f] == c[i];
        all.lemma_filter_pred(fit_for(resolution), f);
        all.lemma_filter_contains_rev(fit_for(resolution), c[i]);
    }
    if exists|j: int|
        0 <= j < all.len() && fit_for(resolution)(#[trigger] all[j]) && spoken_in(parent)(all[j]) {
        let j = choose|j: int|
            0 <= j < all.len() && fit_for(resolution)(#[trigger] all[j]) && spoken_in(parent)(
                all[j],
            );
        all.lemma_filter_contains(fit_for(resolution), j);
        let f = choose|f: int| 0 <= f < fit.len() && fit[f] == all[j];
        fit.lemma_filter_contains(spoken_in(parent), f);
        assert(spoken.contains(all[j]));
        assert forall|i: int| 0 <= i < c.len() implies spoken_in(parent)(#[trigger] c[i]) by {
            assert(s.contains(c[i]));
            let g = choose|g: int| 0 <= g < spoken.len() && spoken[g] == c[i];
            fit.lemma_filter_pred(spoken_in(parent), g);
        }
    }
}

// ---------------------------------------------------------------------------
// What to ask the trackers
// ---------------------------------------------------------------------------

/// The most torrents that the trackers are asked about.
pub const MAX_SCRAPED: usize = 50;

/// The info hashes of the torrents among the candidates, in lower case.
pub open spec fn hashes_of(c: Seq<Media>) -> Seq<Seq<char>>
    decreases c.len(),
{
    if c.len() == 0 {
        Seq::empty()
    } else {
        let before = hashes_of(c.drop_last());
        match c.last().info_hash() {
            Some(h) => before.push(lower(h)),
            None => before,
        }
    }
}

/// The first `n` of a list, or all where there are fewer.
pub open spec fn at_most<A>(s: Seq<A>, n: nat) -> Seq<A> {
    if s.len() <= n {
        s
    } else {
        s.take(n as int)
    }
}

/// The torrents to ask about: each once, the best seeded first.
pub fn scrape_hashes(candidates: &Vec<&Media>) -> (r: Vec<String>)
    ensures
        texts(r@) == at_most(distinct(hashes_of(derefs(candidates@))), MAX_SCRAPED as nat),
{
    let ghost all = derefs(candidates@);
    let mut r: Vec<String> = Vec::new();
    assert(texts(r@) =~= distinct(hashes_of(all.take(0))));
    let mut i: usize = 0;
    while i < candidates.len()
        invariant
            i <= candidates.len(),
            all == derefs(candidates@),
            texts(r@) == distinct(hashes_of(all.take(i as int))),
        decreases candidates.len() - i,
    {
        proof {
            assert(all.take(i + 1).drop_last() =~= all.take(i as int));
            assert(all.take(i + 1).last() == *candidates@[i as int]);
        }
        if let Some(h) = candidates[i].torrent_info_hash() {
            let h = to_lower(h);
            proof {
                lemma_extended_push(Seq::empty(), hashes_of(all.take(i as int)), h@);
            }
            push_distinct(&mut r, h.as_str());
        }
        i = i + 1;
    }
    assert(all.take(all.len() as int) =~= all);
    let ghost whole = r@;
    if r.len() > MAX_SCRAPED {
        r.truncate(MAX_SCRAPED);
        assert(texts(r@) =~= texts(whole).take(MAX_SCRAPED as int));
    }
    r
}

/// The trackers that the candidates name.
pub open spec fn named_trackers(c: Seq<Media>) -> Seq<Seq<char>>
    decreases c.len(),
{
    if c.len() == 0 {
        Seq::empty()
    } else {
        named_trackers(c.drop_last()) + match c.last().stream_info {
            Some(info) => info.descriptor.trackers(),
            None => Seq::empty(),
        }
    }
}

fn push_trackers(
    urls: &mut Vec<String>,
    Ghost(base): Ghost<Seq<Seq<char>>>,
    Ghost(named): Ghost<Seq<Seq<char>>>,
    trackers: &Vec<TrackerUrl>,
)
    requires
        texts(old(urls)@) == extended(base, named),
    ensures
        texts(final(urls)@) == extended(base, named + tracker_texts(trackers@)),
{
    let ghost all = tracker_texts(trackers@);
    assert(named + all.take(0) =~= named);
    let mut i: usize = 0;
    while i < trackers.len()
        invariant
            i <= trackers.len(),
            all == tracker_texts(trackers@),
            all.len() == trackers@.len(),
            texts(urls@) == extended(base, named + all.take(i as int)),
        decreases trackers.len() - i,
    {
        let t = trackers[i].as_str();
        proof {
            assert(all[i as int] == t@);
            assert(named + all.take(i + 1) =~= (named + all.take(i as int)).push(t@));
            lemma_extended_push(base, named + all.take(i as int), t@);
        }
        push_distinct(urls, t);
        i = i + 1;
    }
    assert(all.take(all.len() as int) =~= all);
}

/// The trackers to ask: the usual ones, then those that the candidates name.
pub fn tracker_urls(candidates: &Vec<&Media>) -> (r: Vec<String>)
    ensures
        texts(r@) == extended(default_trackers_spec(), named_trackers(derefs(candidates@))),
{
    let ghost all = derefs(candidates@);
    let ghost base = default_trackers_spec();
    let mut r = default_trackers();
    let mut i: usize = 0;
    while i < candidates.len()
        invariant
            i <= candidates.len(),
            all == derefs(candidates@),
            texts(r@) == extended(base, named_trackers(all.take(i as int))),
        decreases candidates.len() - i,
    {
        let ghost named = named_trackers(all.take(i as int));
        proof {
            assert(all.take(i + 1).drop_last() =~= all.take(i as int));
            assert(all.take(i + 1).last() == *candidates@[i as int]);
            assert(named + Seq::<Seq<char>>::empty() =~= named);
        }
        if let Some(info) = &candidates[i].stream_info {
            if let Some(trackers) = info.descriptor.torrent_trackers() {
                push_trackers(&mut r, Ghost(base), Ghost(named), trackers);
            }
        }
        i = i + 1;
    }
    assert(all.take(all.len() as int) =~= all);
    r
}

// ---------------------------------------------------------------------------
// Torrents
// ---------------------------------------------------------------------------

/// A candidate as the torrent engine sees it.
#[derive(Debug)]
pub struct TorrentCandidate {
    pub id: u128,
    pub hash: String,
    pub magnet: String,
    pub provider_seeders: u64,
    pub probed: bool,
    /// 2 where the download is complete, 1 where it has live peers.
    pub managed_rank: u8,
}

pub ghost struct TorrentView {
    pub id: u128,
    pub hash: Seq<char>,
    pub magnet: Seq<char>,
    pub provider_seeders: u64,
    pub probed: bool,
    pub managed_rank: u8,
}

impl View for TorrentCandidate {
    type V = TorrentView;

    open spec fn view(&self) -> TorrentView {
        TorrentView {
            id: self.id,
            hash: self.hash@,
            magnet: self.magnet@,
            provider_seeders: self.provider_seeders,
            probed: self.probed,
            managed_rank: self.managed_rank,
        }
    }
}

impl TorrentCandidate {
    fn duplicate(&self) -> (r: TorrentCandidate)
        ensures
            r@ == self@,
    {
        TorrentCandidate {
            id: self.id,
            hash: self.hash.clone(),
            magnet: self.magnet.clone(),
            provider_seeders: self.provider_seeders,
            probed: self.probed,
            managed_rank: self.managed_rank,
        }
    }
}

impl TorrentView {
    /// What is already downloading ranks first, then what was probed before,
    /// then what has more seeders.
    pub open spec fn key(&self) -> Seq<u64> {
        seq![
            self.managed_rank as u64,
            if self.probed {
                1
            } else {
                0
            },
            self.provider_seeders,
        ]
    }
}

pub open spec fn torrent_views(t: Seq<TorrentCandidate>) -> Seq<TorrentView> {
    t.map_values(|t: TorrentCandidate| t@)
}

pub open spec fn torrent_keys(t: Seq<TorrentView>) -> Seq<Seq<u64>> {
    t.map_values(|t: TorrentView| t.key())
}

pub open spec fn rank_of_managed(state: Option<ManagedTorrentAvailability>) -> u8 {
    match state {
        Some(m) => if m.finished {
            2
        } else if m.live_peers > 0 {
            1
        } else {
            0
        },
        None => 0,
    }
}

pub open spec fn looked_up<V>(m: Map<Seq<char>, V>, key: Seq<char>) -> Option<V> {
    if m.contains_key(key) {
        Some(m[key])
    } else {
        None
    }
}

/// A candidate as a torrent, where it is one.
pub open spec fn torrent_of(
    m: Media,
    managed: Map<Seq<char>, ManagedTorrentAvailability>,
) -> Option<TorrentView> {
    match m.stream_info {
        Some(info) => match (info.descriptor.info_hash(), info.fields()) {
            (Some(h), Some(f)) => Some(
                TorrentView {
                    id: m.id,
                    hash: lower(h),
                    magnet: magnet_text(f),
                    provider_seeders: if m.stated_seeders() > 0 {
                        m.stated_seeders() as u64
                    } else {
                        0
                    },
                    probed: m.probe_data is Some,
                    managed_rank: rank_of_managed(looked_up(managed, lower(h))),
                },
            ),
            _ => None,
        },
        None => None,
    }
}

pub open spec fn torrents_of(
    c: Seq<Media>,
    managed: Map<Seq<char>, ManagedTorrentAvailability>,
) -> Seq<TorrentView>
    decreases c.len(),
{
    if c.len() == 0 {
        Seq::empty()
    } else {
        let before = torrents_of(c.drop_last(), managed);
        match torrent_of(c.last(), managed) {
            Some(t) => before.push(t),
            None => before,
        }
    }
}

/// The torrents, the most promising first.
pub open spec fn ranked_torrents(
    c: Seq<Media>,
    managed: Map<Seq<char>, ManagedTorrentAvailability>,
) -> Seq<TorrentView> {
    let t = torrents_of(c, managed);
    picked(t, ranked(torrent_keys(t)))
}

fn as_torrent(m: &Media, managed: &Keyed<ManagedTorrentAvailability>) -> (r: Option<
    TorrentCandidate,
>)
    requires
        managed.wf(),
    ensures
        match r {
            Some(t) => torrent_of(*m, managed.view()) == Some(t@),
            None => torrent_of(*m, managed.view()) is None,
        },
{
    let info = match &m.stream_info {
        Some(info) => info,
        None => {
            return None;
        },
    };
    let hash = match info.descriptor.torrent_info_hash() {
        Some(h) => to_lower(h),
        None => {
            return None;
        },
    };
    let magnet = match info.torrent_magnet() {
        Some(m) => m,
        None => {
            return None;
        },
    };
    let stated: i64 = m.seeders();
    let managed_rank: u8 = match managed.get(hash.as_str()) {
        Some(state) => {
            if state.finished {
                2
            } else if state.live_peers > 0 {
                1
            } else {
                0
            }
        },
        None => 0,
    };
    Some(
        TorrentCandidate {
            id: m.id,
            hash,
            magnet,
            provider_seeders: if stated > 0 {
                stated as u64
            } else {
                0
            },
            probed: m.probe_data.is_some(),
            managed_rank,
        },
    )
}

/// The torrents among the candidates, the most promising first. `managed`
/// holds the state of those that the torrent engine already has.
pub fn torrent_candidates(
    candidates: &Vec<&Media>,
    managed: &Keyed<ManagedTorrentAvailability>,
) -> (r: Vec<TorrentCandidate>)
    requires
        managed.wf(),
    ensures
        torrent_views(r@) == ranked_torrents(derefs(candidates@), managed.view()),
{
    let ghost all = derefs(candidates@);
    let mut list: Vec<TorrentCandidate> = Vec::new();
    let mut keys: Vec<Vec<u64>> = Vec::new();
    assert(torrent_views(list@) =~= torrents_of(all.take(0), managed.view()));
    assert(key_seqs(keys@) =~= torrent_keys(torrent_views(list@)));
    let mut i: usize = 0;
    while i < candidates.len()
        invariant
            i <= candidates.len(),
            managed.wf(),
            all == derefs(candidates@),
            torrent_views(list@) == torrents_of(all.take(i as int), managed.view()),
            key_seqs(keys@) == torrent_keys(torrent_views(list@)),
        decreases candidates.len() - i,
    {
        proof {
            assert(all.take(i + 1).drop_last() =~= all.take(i as int));
            assert(all.take(i + 1).last() == *candidates@[i as int]);
        }
        if let Some(t) = as_torrent(candidates[i], managed) {
            let ghost before = list@;
            let ghost keys_before = keys@;
            let mut key: Vec<u64> = Vec::new();
            key.push(t.managed_rank as u64);
            key.push(
                if t.probed {
                    1
                } else {
                    0
                },
            );
            key.push(t.provider_seeders);
            assert(key@ =~= t@.key());
            keys.push(key);
            list.push(t);
            assert(torrent_views(list@) =~= torrent_views(before).push(t@));
            assert(key_seqs(keys@) =~= key_seqs(keys_before).push(key@));
            assert(torrent_keys(torrent_views(list@)) =~= torrent_keys(torrent_views(before)).push(
                t@.key(),
            ));
        }
        i = i + 1;
    }
    assert(all.take(all.len() as int) =~= all);
    let order = rank(&keys);
    let ghost views = torrent_views(list@);
    assert(keys@.len() == key_seqs(keys@).len() == list@.len());
    let mut r: Vec<TorrentCandidate> = Vec::new();
    let mut k: usize = 0;
    while k < order.len()
        invariant
            k <= order.len(),
            order.len() == list.len(),
            views == torrent_views(list@),
            forall|j: int| 0 <= j < order.len() ==> (#[trigger] order@[j]) < list.len(),
            torrent_views(r@) =~= picked(views, positions(order@).take(k as int)),
        decreases order.len() - k,
    {
        let ghost before = r@;
        let t = list[order[k]].duplicate();
        r.push(t);
        assert(torrent_views(r@) =~= torrent_views(before).push(views[order@[k as int] as int]));
        k = k + 1;
    }
    assert(positions(order@).take(order@.len() as int) =~= positions(order@));
    r
}

// ---------------------------------------------------------------------------
// The first wave
// ---------------------------------------------------------------------------

/// The torrents that are asked about first.
pub const FIRST_WAVE: usize = 4;

pub const FIRST_WAVE_BUDGET_MS: u64 = 2800;

/// How long the trackers may take to answer.
pub const SCRAPE_BUDGET_MS: u64 = 2700;

/// The torrent with the most stated seeders; of equal ones the last.
pub open spec fn best_seeded(t: Seq<TorrentView>) -> int
    decreases t.len(),
{
    if t.len() <= 1 {
        0
    } else {
        let before = best_seeded(t.drop_last());
        if t.last().provider_seeders >= t[before].provider_seeders {
            t.len() - 1
        } else {
            before
        }
    }
}

proof fn lemma_best_seeded(t: Seq<TorrentView>)
    requires
        t.len() > 0,
    ensures
        0 <= best_seeded(t) < t.len(),
        forall|i: int|
            0 <= i < t.len() ==> (#[trigger] t[i]).provider_seeders
                <= t[best_seeded(t)].provider_seeders,
    decreases t.len(),
{
    if t.len() > 1 {
        lemma_best_seeded(t.drop_last());
        assert forall|i: int| 0 <= i < t.len() implies (#[trigger] t[i]).provider_seeders
            <= t[best_seeded(t)].provider_seeders by {
            if i < t.len() - 1 {
                assert(t.drop_last()[i] == t[i]);
            }
        }
    }
}

fn best_seeded_of(t: &Vec<TorrentCandidate>) -> (r: usize)
    requires
        t@.len() > 0,
    ensures
        r == best_seeded(torrent_views(t@)),
        r < t@.len(),
{
    let ghost views = torrent_views(t@);
    let mut best: usize = 0;
    let mut i: usize = 1;
    assert(best_seeded(views.take(1)) == 0);
    while i < t.len()
        invariant
            1 <= i <= t.len(),
            best < i,
            views == torrent_views(t@),
            best == best_seeded(views.take(i as int)),
        decreases t.len() - i,
    {
        proof {
            assert(views.take(i + 1).drop_last() =~= views.take(i as int));
        }
        if t[i].provider_seeders >= t[best].provider_seeders {
            best = i;
        }
        i = i + 1;
    }
    assert(views.take(views.len() as int) =~= views);
    best
}

/// Whether a candidate is among the chosen ones.
pub open spec fn is_chosen(t: Seq<TorrentView>, chosen: Seq<int>, id: u128) -> bool {
    exists|i: int| 0 <= i < chosen.len() && t[#[trigger] chosen[i]].id == id
}

fn has_chosen(t: &Vec<TorrentCandidate>, chosen: &Vec<usize>, id: u128) -> (r: bool)
    requires
        forall|i: int| 0 <= i < chosen@.len() ==> (#[trigger] chosen@[i]) < t@.len(),
    ensures
        r == is_chosen(torrent_views(t@), positions(chosen@), id),
{
    let ghost views = torrent_views(t@);
    let ghost places = positions(chosen@);
    let mut i: usize = 0;
    while i < chosen.len()
        invariant
            i <= chosen.len(),
            views == torrent_views(t@),
            places == positions(chosen@),
            forall|j: int| 0 <= j < chosen@.len() ==> (#[trigger] chosen@[j]) < t@.len(),
            forall|j: int| 0 <= j < i ==> views[#[trigger] places[j]].id != id,
        decreases chosen.len() - i,
    {
        let k: usize = chosen[i];
        assert(places[i as int] == k);
        assert(views[k as int] == t@[k as int]@);
        if t[k].id == id {
            return true;
        }
        i = i + 1;
    }
    false
}

/// The positions below `n`.
pub open spec fn first_places(n: nat) -> Seq<int> {
    Seq::new(n, |i: int| i)
}

/// The first few torrents, and the best seeded one where it is not among them.
pub open spec fn leading(t: Seq<TorrentView>, n: nat) -> Seq<int> {
    let first = first_places(
        if t.len() < n {
            t.len()
        } else {
            n
        },
    );
    if t.len() == 0 || is_chosen(t, first, t[best_seeded(t)].id) {
        first
    } else {
        first.push(best_seeded(t))
    }
}

fn leading_of(t: &Vec<TorrentCandidate>, n: usize) -> (r: Vec<usize>)
    ensures
        positions(r@) == leading(torrent_views(t@), n as nat),
        forall|i: int| 0 <= i < r@.len() ==> (#[trigger] r@[i]) < t@.len(),
        r@.len() <= n + 1,
{
    let mut r: Vec<usize> = Vec::new();
    let mut i: usize = 0;
    assert(positions(r@) =~= first_places(0));
    while i < n && i < t.len()
        invariant
            i <= n,
            i <= t.len(),
            r@.len() == i,
            positions(r@) == first_places(i as nat),
            forall|j: int| 0 <= j < r@.len() ==> (#[trigger] r@[j]) < t@.len(),
        decreases n - i,
    {
        let ghost before = r@;
        r.push(i);
        assert(positions(r@) =~= positions(before).push(i as int));
        assert(first_places((i + 1) as nat) =~= first_places(i as nat).push(i as int));
        i = i + 1;
    }
    if t.len() > 0 {
        let best = best_seeded_of(t);
        let ghost before = r@;
        if !has_chosen(t, &r, t[best].id) {
            r.push(best);
            assert(positions(r@) =~= positions(before).push(best as int));
        }
    }
    r
}

/// `chosen`, filled up with torrents from place `i` on that are not in it.
pub open spec fn filled(t: Seq<TorrentView>, chosen: Seq<int>, i: int, limit: nat) -> Seq<int>
    decreases t.len() - i,
{
    if i >= t.len() || chosen.len() >= limit {
        chosen
    } else if is_chosen(t, chosen, t[i].id) {
        filled(t, chosen, i + 1, limit)
    } else {
        filled(t, chosen.push(i), i + 1, limit)
    }
}

/// The places of the first wave: three from the front, the best seeded one,
/// and more from the front where there is room.
pub open spec fn first_wave_places(t: Seq<TorrentView>) -> Seq<int> {
    filled(t, leading(t, (FIRST_WAVE - 1) as nat), 0, FIRST_WAVE as nat)
}

/// The torrents to ask about first, as places in the list.
pub fn first_wave(t: &Vec<TorrentCandidate>) -> (r: Vec<usize>)
    ensures
        positions(r@) == first_wave_places(torrent_views(t@)),
        forall|i: int| 0 <= i < r@.len() ==> (#[trigger] r@[i]) < t@.len(),
{
    let ghost views = torrent_views(t@);
    let mut r = leading_of(t, FIRST_WAVE - 1);
    let mut i: usize = 0;
    while i < t.len() && r.len() < FIRST_WAVE
        invariant
            i <= t.len(),
            views == torrent_views(t@),
            forall|j: int| 0 <= j < r@.len() ==> (#[trigger] r@[j]) < t@.len(),
            filled(views, positions(r@), i as int, FIRST_WAVE as nat) == first_wave_places(views),
        decreases t.len() - i,
    {
        let ghost before = r@;
        assert(views[i as int] == t@[i as int]@);
        if !has_chosen(t, &r, t[i].id) {
            r.push(i);
            assert(positions(r@) =~= positions(before).push(i as int));
        }
        i = i + 1;
    }
    r
}

proof fn lemma_filled(t: Seq<TorrentView>, chosen: Seq<int>, i: int, limit: nat)
    requires
        0 <= i,
        chosen.len() <= limit,
        forall|k: int| 0 <= k < chosen.len() ==> 0 <= #[trigger] chosen[k] < t.len(),
    ensures
        ({
            let f = filled(t, chosen, i, limit);
            &&& f.len() <= limit
            &&& chosen.len() <= f.len()
            &&& f.take(chosen.len() as int) == chosen
            &&& forall|k: int| 0 <= k < f.len() ==> 0 <= #[trigger] f[k] < t.len()
        }),
    decreases t.len() - i,
{
    let f = filled(t, chosen, i, limit);
    if i >= t.len() || chosen.len() >= limit {
        assert(f.take(chosen.len() as int) =~= chosen);
    } else if is_chosen(t, chosen, t[i].id) {
        lemma_filled(t, chosen, i + 1, limit);
    } else {
        lemma_filled(t, chosen.push(i), i + 1, limit);
        assert(f.take(chosen.len() as int) =~= f.take(chosen.push(i).len() as int).take(chosen.len() as int));
        assert(chosen.push(i).take(chosen.len() as int) =~= chosen);
    }
}

/// The first wave is small, and the torrent with the most seeders is always in
/// it, however low it ranks otherwise.
pub proof fn law_first_wave_is_diverse(t: Seq<TorrentView>)
    requires
        t.len() > 0,
    ensures
        ({
            let wave = first_wave_places(t);
            let best = best_seeded(t);
            &&& 0 < wave.len() <= FIRST_WAVE
            &&& is_chosen(t, wave, t[best].id)
            &&& forall|i: int|
                0 <= i < t.len() ==> (#[trigger] t[i]).provider_seeders <= t[best].provider_seeders
        }),
{
    lemma_best_seeded(t);
    let first = leading(t, (FIRST_WAVE - 1) as nat);
    let wave = first_wave_places(t);
    let best = best_seeded(t);
    lemma_filled(t, first, 0, FIRST_WAVE as nat);
    assert(is_chosen(t, first, t[best].id)) by {
        let plain = first_places(
            if t.len() < (FIRST_WAVE - 1) as nat {
                t.len()
            } else {
                (FIRST_WAVE - 1) as nat
            },
        );
        if !is_chosen(t, plain, t[best].id) {
            assert(first[plain.len() as int] == best);
        }
    }
    let k = choose|k: int| 0 <= k < first.len() && t[#[trigger] first[k]].id == t[best].id;
    assert(wave[k] == wave.take(first.len() as int)[k]);
}

// ---------------------------------------------------------------------------
// What came back
// ---------------------------------------------------------------------------

/// What was last learnt of a candidate.
pub open spec fn latest<V>(found: Seq<(u128, V)>, id: u128) -> Option<V>
    decreases found.len(),
{
    if found.len() == 0 {
        None
    } else if found.last().0 == id {
        Some(found.last().1)
    } else {
        latest(found.drop_last(), id)
    }
}

/// What was last learnt of a candidate.
pub fn find_latest<V>(found: &Vec<(u128, V)>, id: u128) -> (r: Option<&V>)
    ensures
        deref(r) == latest(found@, id),
{
    let mut n: usize = found.len();
    assert(found@.take(n as int) =~= found@);
    while n > 0
        invariant
            n <= found.len(),
            latest(found@, id) == latest(found@.take(n as int), id),
        decreases n,
    {
        assert(found@.take(n as int).drop_last() =~= found@.take(n - 1));
        assert(found@.take(n as int).last() == found@[n - 1]);
        n = n - 1;
        if found[n].0 == id {
            return Some(&found[n].1);
        }
    }
    None
}

/// Whether a torrent certainly has peers, or needs none.
pub open spec fn is_live(p: TorrentPreflight) -> bool {
    p.seen_peers > 0 || (p.managed matches Some(m) && (m.finished || m.live_peers > 0))
}

/// Whether some torrent that was asked about is live, by what was last learnt.
pub open spec fn some_live(found: Seq<(u128, TorrentPreflight)>) -> bool {
    exists|i: int|
        0 <= i < found.len() && is_live(latest(found, (#[trigger] found[i]).0)->Some_0)
}

proof fn lemma_latest_is_some<V>(found: Seq<(u128, V)>, i: int)
    requires
        0 <= i < found.len(),
    ensures
        latest(found, found[i].0) is Some,
    decreases found.len(),
{
    if found.last().0 != found[i].0 {
        lemma_latest_is_some(found.drop_last(), i);
    }
}

pub fn confirmed_live(found: &Vec<(u128, TorrentPreflight)>) -> (r: bool)
    ensures
        r == some_live(found@),
{
    let mut i: usize = 0;
    while i < found.len()
        invariant
            i <= found.len(),
            forall|j: int|
                0 <= j < i ==> !is_live(latest(found@, (#[trigger] found@[j]).0)->Some_0),
        decreases found.len() - i,
    {
        proof {
            lemma_latest_is_some(found@, i as int);
        }
        if let Some(p) = find_latest(found, found[i].0) {
            let managed = match p.managed {
                Some(m) => m.finished || m.live_peers > 0,
                None => false,
            };
            if p.seen_peers > 0 || managed {
                assert(is_live(latest(found@, found@[i as int].0)->Some_0));
                return true;
            }
        }
        i = i + 1;
    }
    false
}

// ---------------------------------------------------------------------------
// The second wave
// ---------------------------------------------------------------------------

/// The peers that the trackers know of a torrent.
pub open spec fn tracker_peers(
    trackers: Map<Seq<char>, TrackerAvailability>,
    hash: Seq<char>,
) -> Seq<Peer> {
    if trackers.contains_key(hash) {
        trackers[hash].peers@
    } else {
        Seq::empty()
    }
}

pub open spec fn tracker_seeders(
    trackers: Map<Seq<char>, TrackerAvailability>,
    hash: Seq<char>,
) -> u32 {
    if trackers.contains_key(hash) {
        trackers[hash].seeders
    } else {
        0
    }
}

/// Whether the trackers know peers of any of the torrents.
pub open spec fn some_announced(
    t: Seq<TorrentView>,
    trackers: Map<Seq<char>, TrackerAvailability>,
) -> bool {
    exists|i: int| 0 <= i < t.len() && tracker_peers(trackers, (#[trigger] t[i]).hash).len() > 0
}

/// Whether a torrent is asked about again: one with peers where there are
/// such, else one that was not asked about.
pub open spec fn in_second_wave(
    t: TorrentView,
    announced: bool,
    trackers: Map<Seq<char>, TrackerAvailability>,
    checked: Seq<u128>,
) -> bool {
    if announced {
        tracker_peers(trackers, t.hash).len() > 0
    } else {
        !checked.contains(t.id)
    }
}

/// The places below `n` of the torrents that are asked about again.
pub open spec fn second_wave_members(
    t: Seq<TorrentView>,
    n: nat,
    trackers: Map<Seq<char>, TrackerAvailability>,
    checked: Seq<u128>,
) -> Seq<int>
    decreases n,
{
    if n == 0 {
        Seq::empty()
    } else {
        let before = second_wave_members(t, (n - 1) as nat, trackers, checked);
        if in_second_wave(t[n - 1], some_announced(t, trackers), trackers, checked) {
            before.push(n - 1)
        } else {
            before
        }
    }
}

/// More peers first, then more seeders by the trackers, then by the provider.
pub open spec fn second_wave_key(
    t: TorrentView,
    trackers: Map<Seq<char>, TrackerAvailability>,
) -> Seq<u64> {
    seq![
        tracker_peers(trackers, t.hash).len() as u64,
        tracker_seeders(trackers, t.hash) as u64,
        t.provider_seeders,
    ]
}

pub open spec fn second_wave_keys(
    t: Seq<TorrentView>,
    members: Seq<int>,
    trackers: Map<Seq<char>, TrackerAvailability>,
) -> Seq<Seq<u64>> {
    members.map_values(|i: int| second_wave_key(t[i], trackers))
}

/// The places of the second wave, the most promising first.
pub open spec fn second_wave_places(
    t: Seq<TorrentView>,
    trackers: Map<Seq<char>, TrackerAvailability>,
    checked: Seq<u128>,
) -> Seq<int> {
    let members = second_wave_members(t, t.len(), trackers, checked);
    at_most(
        picked(members, ranked(second_wave_keys(t, members, trackers))),
        if some_announced(t, trackers) {
            8
        } else {
            4
        },
    )
}

/// A torrent to ask about, with the peers to start from.
#[derive(Debug)]
pub struct PreflightJob {
    /// Its place in the list of torrents.
    pub candidate: usize,
    pub peers: Vec<Peer>,
}

#[derive(Debug)]
pub struct SecondWave {
    pub jobs: Vec<PreflightJob>,
    pub budget_ms: u64,
}

/// Whether a second wave is the one that is due: its torrents, the peers to
/// start from, and the time for it.
pub open spec fn wave_of(
    wave: SecondWave,
    t: Seq<TorrentView>,
    trackers: Map<Seq<char>, TrackerAvailability>,
    checked: Seq<u128>,
) -> bool {
    &&& job_places(wave.jobs@) == second_wave_places(t, trackers, checked)
    &&& forall|i: int|
        0 <= i < wave.jobs@.len() ==> {
            let j = #[trigger] wave.jobs@[i];
            j.candidate < t.len() && j.peers@ == tracker_peers(
                trackers,
                t[j.candidate as int].hash,
            )
        }
    &&& wave.budget_ms == if some_announced(t, trackers) {
        3800int
    } else {
        2200
    }
}

pub open spec fn job_places(jobs: Seq<PreflightJob>) -> Seq<int> {
    jobs.map_values(|j: PreflightJob| j.candidate as int)
}

fn any_announced(t: &Vec<TorrentCandidate>, trackers: &Keyed<TrackerAvailability>) -> (r: bool)
    requires
        trackers.wf(),
    ensures
        r == some_announced(torrent_views(t@), trackers.view()),
{
    let ghost views = torrent_views(t@);
    let mut i: usize = 0;
    while i < t.len()
        invariant
            i <= t.len(),
            trackers.wf(),
            views == torrent_views(t@),
            forall|j: int|
                0 <= j < i ==> tracker_peers(trackers.view(), (#[trigger] views[j]).hash).len()
                    == 0,
        decreases t.len() - i,
    {
        assert(views[i as int] == t@[i as int]@);
        if let Some(a) = trackers.get(t[i].hash.as_str()) {
            if a.peers.len() > 0 {
                return true;
            }
        }
        i = i + 1;
    }
    false
}

fn has_id(ids: &Vec<u128>, id: u128) -> (r: bool)
    ensures
        r == ids@.contains(id),
{
    let mut i: usize = 0;
    while i < ids.len()
        invariant
            i <= ids.len(),
            forall|j: int| 0 <= j < i ==> ids@[j] != id,
        decreases ids.len() - i,
    {
        if ids[i] == id {
            return true;
        }
        i = i + 1;
    }
    false
}

/// The torrents to ask about after a first wave that found none alive.
/// `checked` are the candidates of that wave.
pub fn second_wave(
    t: &Vec<TorrentCandidate>,
    trackers: &Keyed<TrackerAvailability>,
    checked: &Vec<u128>,
) -> (r: SecondWave)
    requires
        trackers.wf(),
    ensures
        wave_of(r, torrent_views(t@), trackers.view(), checked@),
{
    let ghost views = torrent_views(t@);
    let ghost map = trackers.view();
    let announced = any_announced(t, trackers);
    let mut members: Vec<usize> = Vec::new();
    let mut keys: Vec<Vec<u64>> = Vec::new();
    assert(positions(members@) =~= second_wave_members(views, 0, map, checked@));
    assert(key_seqs(keys@) =~= second_wave_keys(views, positions(members@), map));
    let mut i: usize = 0;
    while i < t.len()
        invariant
            i <= t.len(),
            trackers.wf(),
            views == torrent_views(t@),
            map == trackers.view(),
            announced == some_announced(views, map),
            positions(members@) == second_wave_members(views, i as nat, map, checked@),
            key_seqs(keys@) == second_wave_keys(views, positions(members@), map),
            forall|j: int| 0 <= j < members@.len() ==> (#[trigger] members@[j]) < t@.len(),
        decreases t.len() - i,
    {
        assert(views[i as int] == t@[i as int]@);
        let mut peer_count: usize = 0;
        let mut seeders: u32 = 0;
        if let Some(a) = trackers.get(t[i].hash.as_str()) {
            peer_count = a.peers.len();
            seeders = a.seeders;
        }
        let wanted = if announced {
            peer_count > 0
        } else {
            !has_id(checked, t[i].id)
        };
        if wanted {
            let ghost before = members@;
            let ghost keys_before = keys@;
            let mut key: Vec<u64> = Vec::new();
            key.push(peer_count as u64);
            key.push(seeders as u64);
            key.push(t[i].provider_seeders);
            assert(key@ =~= second_wave_key(views[i as int], map));
            keys.push(key);
            members.push(i);
            assert(positions(members@) =~= positions(before).push(i as int));
            assert(key_seqs(keys@) =~= key_seqs(keys_before).push(key@));
            assert(second_wave_keys(views, positions(members@), map) =~= second_wave_keys(
                views,
                positions(before),
                map,
            ).push(key@));
        }
        i = i + 1;
    }
    let order = rank(&keys);
    assert(keys@.len() == key_seqs(keys@).len() == members@.len());
    let ghost places = picked(positions(members@), positions(order@));
    let limit: usize = if announced {
        8
    } else {
        4
    };
    let mut jobs: Vec<PreflightJob> = Vec::new();
    let mut k: usize = 0;
    while k < order.len() && k < limit
        invariant
            k <= order.len(),
            k <= limit,
            trackers.wf(),
            map == trackers.view(),
            order.len() == members.len(),
            places == picked(positions(members@), positions(order@)),
            forall|j: int| 0 <= j < order.len() ==> (#[trigger] order@[j]) < members.len(),
            forall|j: int| 0 <= j < members@.len() ==> (#[trigger] members@[j]) < t@.len(),
            job_places(jobs@) =~= places.take(k as int),
            forall|j: int|
                0 <= j < jobs@.len() ==> {
                    let job = #[trigger] jobs@[j];
                    job.candidate < t@.len() && job.peers@ == tracker_peers(
                        map,
                        t@[job.candidate as int].hash@,
                    )
                },
        decreases order.len() - k,
    {
        let c: usize = members[order[k]];
        assert(places[k as int] == c);
        let peers = match trackers.get(t[c].hash.as_str()) {
            Some(a) => copy_peers(&a.peers),
            None => Vec::new(),
        };
        assert(peers@ =~= tracker_peers(map, t@[c as int].hash@));
        let ghost before = jobs@;
        jobs.push(PreflightJob { candidate: c, peers });
        assert(job_places(jobs@) =~= job_places(before).push(c as int));
        k = k + 1;
    }
    assert(places.take(places.len() as int) =~= places);
    SecondWave {
        jobs,
        budget_ms: if announced {
            3800
        } else {
            2200
        },
    }
}

/// What to ask after the first wave: nothing where it found a torrent alive.
pub fn after_first_wave(
    t: &Vec<TorrentCandidate>,
    found: &Vec<(u128, TorrentPreflight)>,
    trackers: &Keyed<TrackerAvailability>,
    checked: &Vec<u128>,
) -> (r: Option<SecondWave>)
    requires
        trackers.wf(),
    ensures
        match r {
            None => some_live(found@),
            Some(wave) => !some_live(found@) && wave_of(
                wave,
                torrent_views(t@),
                trackers.view(),
                checked@,
            ),
        },
{
    if confirmed_live(found) {
        None
    } else {
        Some(second_wave(t, trackers, checked))
    }
}

// ---------------------------------------------------------------------------
// Asking peers
// ---------------------------------------------------------------------------

/// The torrents whose peers are asked, at most five from the front and the
/// best seeded one.
pub const PROBED_TORRENTS: usize = 5;

/// The peers to ask about a torrent: those that the engine found, then those
/// that the trackers know.
pub open spec fn peers_to_ask(
    t: TorrentView,
    found: Seq<(u128, TorrentPreflight)>,
    trackers: Map<Seq<char>, TrackerAvailability>,
) -> Seq<Peer> {
    extended(
        match latest(found, t.id) {
            Some(p) => p.peers@,
            None => Seq::empty(),
        },
        tracker_peers(trackers, t.hash),
    )
}

/// Of some places, those of torrents with peers.
pub open spec fn with_peers(
    t: Seq<TorrentView>,
    places: Seq<int>,
    found: Seq<(u128, TorrentPreflight)>,
    trackers: Map<Seq<char>, TrackerAvailability>,
) -> Seq<int>
    decreases places.len(),
{
    if places.len() == 0 {
        Seq::empty()
    } else {
        let before = with_peers(t, places.drop_last(), found, trackers);
        if peers_to_ask(t[places.last()], found, trackers).len() > 0 {
            before.push(places.last())
        } else {
            before
        }
    }
}

fn collect_peers(
    t: &TorrentCandidate,
    found: &Vec<(u128, TorrentPreflight)>,
    trackers: &Keyed<TrackerAvailability>,
) -> (r: Vec<Peer>)
    requires
        trackers.wf(),
    ensures
        r@ == peers_to_ask(t@, found@, trackers.view()),
{
    let mut peers: Vec<Peer> = match find_latest(found, t.id) {
        Some(p) => copy_peers(&p.peers),
        None => Vec::new(),
    };
    let ghost base = peers@;
    proof {
        assert(base =~= match latest(found@, t.id) {
            Some(p) => p.peers@,
            None => Seq::empty(),
        });
    }
    if let Some(a) = trackers.get(t.hash.as_str()) {
        let mut i: usize = 0;
        assert(a.peers@.take(0) =~= Seq::<Peer>::empty());
        while i < a.peers.len()
            invariant
                i <= a.peers.len(),
                peers@ == extended(base, a.peers@.take(i as int)),
            decreases a.peers.len() - i,
        {
            proof {
                assert(a.peers@.take(i + 1).drop_last() =~= a.peers@.take(i as int));
                assert(a.peers@.take(i + 1).last() == a.peers@[i as int]);
            }
            let p = a.peers[i];
            if !has_peer(&peers, p) {
                peers.push(p);
            }
            i = i + 1;
        }
        assert(a.peers@.take(a.peers@.len() as int) =~= a.peers@);
    }
    peers
}

/// The torrents whose peers to ask, each with the peers.
pub fn peer_probe_jobs(
    t: &Vec<TorrentCandidate>,
    found: &Vec<(u128, TorrentPreflight)>,
    trackers: &Keyed<TrackerAvailability>,
) -> (r: Vec<PreflightJob>)
    requires
        trackers.wf(),
    ensures
        job_places(r@) == with_peers(
            torrent_views(t@),
            leading(torrent_views(t@), PROBED_TORRENTS as nat),
            found@,
            trackers.view(),
        ),
        forall|i: int|
            0 <= i < r@.len() ==> {
                let j = #[trigger] r@[i];
                j.candidate < t@.len() && j.peers@ == peers_to_ask(
                    t@[j.candidate as int]@,
                    found@,
                    trackers.view(),
                )
            },
        r@.len() <= PROBED_TORRENTS + 1,
{
    let ghost views = torrent_views(t@);
    let ghost map = trackers.view();
    let chosen = leading_of(t, PROBED_TORRENTS);
    let ghost places = positions(chosen@);
    let mut jobs: Vec<PreflightJob> = Vec::new();
    assert(job_places(jobs@) =~= with_peers(views, places.take(0), found@, map));
    let mut i: usize = 0;
    while i < chosen.len()
        invariant
            i <= chosen.len(),
            trackers.wf(),
            views == torrent_views(t@),
            map == trackers.view(),
            places == positions(chosen@),
            forall|j: int| 0 <= j < chosen@.len() ==> (#[trigger] chosen@[j]) < t@.len(),
            job_places(jobs@) == with_peers(views, places.take(i as int), found@, map),
            jobs@.len() <= i,
            forall|j: int|
                0 <= j < jobs@.len() ==> {
                    let job = #[trigger] jobs@[j];
                    job.candidate < t@.len() && job.peers@ == peers_to_ask(
                        t@[job.candidate as int]@,
                        found@,
                        map,
                    )
                },
        decreases chosen.len() - i,
    {
        let c: usize = chosen[i];
        proof {
            assert(places.take(i + 1).drop_last() =~= places.take(i as int));
            assert(places.take(i + 1).last() == c);
            assert(views[c as int] == t@[c as int]@);
        }
        let peers = collect_peers(&t[c], found, trackers);
        if peers.len() > 0 {
            let ghost before = jobs@;
            jobs.push(PreflightJob { candidate: c, peers });
            assert(job_places(jobs@) =~= job_places(before).push(c as int));
        }
        i = i + 1;
    }
    assert(places.take(places.len() as int) =~= places);
    jobs
}

// ---------------------------------------------------------------------------
// The pick
// ---------------------------------------------------------------------------

/// The release and the size of each candidate whose size is known.
pub open spec fn release_sizes(c: Seq<Media>, found: Seq<(u128, TorrentPreflight)>) -> Seq<
    (Seq<char>, u64),
>
    decreases c.len(),
{
    if c.len() == 0 {
        Seq::empty()
    } else {
        let before = release_sizes(c.drop_last(), found);
        match candidate_bytes(c.last(), latest(found, c.last().id)) {
            Some(size) => before.push((failure_token(c.last()), size)),
            None => before,
        }
    }
}

/// The sizes of the releases, each counted once.
pub open spec fn population(c: Seq<Media>, found: Seq<(u128, TorrentPreflight)>) -> Seq<u64> {
    distinct(release_sizes(c, found)).map_values(|p: (Seq<char>, u64)| p.1)
}

/// The size that a release of this resolution usually has.
pub open spec fn usual_size(c: Seq<Media>, found: Seq<(u128, TorrentPreflight)>) -> Option<u64> {
    median(population(c, found))
}

pub open spec fn pairs(tokens: Seq<String>, sizes: Seq<u64>) -> Seq<(Seq<char>, u64)>
    recommends
        tokens.len() == sizes.len(),
{
    Seq::new(tokens.len(), |i: int| (tokens[i]@, sizes[i]))
}

fn has_pair(tokens: &Vec<String>, sizes: &Vec<u64>, token: &str, size: u64) -> (r: bool)
    requires
        tokens@.len() == sizes@.len(),
    ensures
        r == pairs(tokens@, sizes@).contains((token@, size)),
{
    let ghost p = pairs(tokens@, sizes@);
    let mut i: usize = 0;
    while i < tokens.len()
        invariant
            i <= tokens.len(),
            tokens@.len() == sizes@.len(),
            p == pairs(tokens@, sizes@),
            forall|j: int| 0 <= j < i ==> p[j] != (token@, size),
        decreases tokens.len() - i,
    {
        if sizes[i] == size && same_text(tokens[i].as_str(), token) {
            assert(p[i as int] == (token@, size));
            return true;
        }
        i = i + 1;
    }
    false
}

/// The size that a release of this resolution usually has: the median of all
/// known sizes, the same file counted once.
pub fn target_file_bytes(
    candidates: &Vec<&Media>,
    found: &Vec<(u128, TorrentPreflight)>,
) -> (r: Option<u64>)
    ensures
        r == usual_size(derefs(candidates@), found@),
{
    let ghost all = derefs(candidates@);
    let mut tokens: Vec<String> = Vec::new();
    let mut sizes: Vec<u64> = Vec::new();
    assert(pairs(tokens@, sizes@) =~= distinct(release_sizes(all.take(0), found@)));
    let mut i: usize = 0;
    while i < candidates.len()
        invariant
            i <= candidates.len(),
            all == derefs(candidates@),
            tokens@.len() == sizes@.len(),
            pairs(tokens@, sizes@) == distinct(release_sizes(all.take(i as int), found@)),
        decreases candidates.len() - i,
    {
        let c = candidates[i];
        proof {
            assert(all.take(i + 1).drop_last() =~= all.take(i as int));
            assert(all.take(i + 1).last() == *c);
        }
        if let Some(size) = known_candidate_file_bytes(c, find_latest(found, c.id)) {
            let token = StreamService::auto_candidate_failure_token(c);
            let ghost before = pairs(tokens@, sizes@);
            proof {
                let more = release_sizes(all.take(i as int), found@);
                assert(more.push((token@, size)).drop_last() =~= more);
            }
            if !has_pair(&tokens, &sizes, token.as_str(), size) {
                tokens.push(token);
                sizes.push(size);
                assert(pairs(tokens@, sizes@) =~= before.push((token@, size)));
            }
        }
        i = i + 1;
    }
    assert(all.take(all.len() as int) =~= all);
    assert(sizes@ =~= population(all, found@));
    lower_median(sizes)
}

/// What is known of the candidates when the pick is made.
pub ghost struct Evidence {
    pub found: Seq<(u128, TorrentPreflight)>,
    pub trackers: Map<Seq<char>, TrackerAvailability>,
    pub probes: Seq<(u128, PeerAvailability)>,
}

/// The score of a candidate.
pub open spec fn score_of(m: Media, e: Evidence, target: Option<u64>) -> AutoScore {
    auto_score(
        m,
        latest(e.found, m.id),
        match m.info_hash() {
            Some(h) => looked_up(e.trackers, lower(h)),
            None => None,
        },
        latest(e.probes, m.id),
        target,
    )
}

pub open spec fn score_keys(c: Seq<Media>, e: Evidence, target: Option<u64>) -> Seq<Seq<u64>> {
    c.map_values(|m: Media| score_of(m, e, target).key())
}

/// The candidates from the best score to the worst.
pub open spec fn ranking(c: Seq<Media>, e: Evidence) -> Seq<int> {
    ranked(score_keys(c, e, usual_size(c, e.found)))
}

/// What was learnt is within the machine's limits.
pub open spec fn sane(e: Evidence) -> bool {
    &&& forall|i: int| 0 <= i < e.found.len() ==> (#[trigger] e.found[i]).1.seen_peers < usize::MAX
    &&& forall|h: Seq<char>| #[trigger]
        e.trackers.contains_key(h) ==> e.trackers[h].peers@.len() < usize::MAX
}

proof fn lemma_latest_is_member<V>(found: Seq<(u128, V)>, id: u128)
    ensures
        latest(found, id) matches Some(v) ==> exists|i: int|
            0 <= i < found.len() && (#[trigger] found[i]).1 == v,
    decreases found.len(),
{
    if found.len() > 0 {
        if found.last().0 == id {
            assert(found[found.len() - 1].1 == found.last().1);
        } else {
            lemma_latest_is_member(found.drop_last(), id);
            if latest(found, id) is Some {
                let v = latest(found, id)->Some_0;
                let i = choose|i: int|
                    0 <= i < found.len() - 1 && (#[trigger] found.drop_last()[i]).1 == v;
                assert(found[i].1 == v);
            }
        }
    }
}

fn score_candidate(
    m: &Media,
    found: &Vec<(u128, TorrentPreflight)>,
    trackers: &Keyed<TrackerAvailability>,
    probes: &Vec<(u128, PeerAvailability)>,
    target: Option<u64>,
) -> (r: AutoScore)
    requires
        trackers.wf(),
        sane(Evidence { found: found@, trackers: trackers.view(), probes: probes@ }),
    ensures
        r == score_of(
            *m,
            (Evidence { found: found@, trackers: trackers.view(), probes: probes@ }),
            target,
        ),
{
    let ghost e = Evidence { found: found@, trackers: trackers.view(), probes: probes@ };
    let tracker = match m.torrent_info_hash() {
        Some(h) => {
            let hash = to_lower(h);
            let known = trackers.get(hash.as_str());
            assert(known is Some ==> e.trackers.contains_key(hash@));
            known
        },
        None => None,
    };
    proof {
        lemma_latest_is_member(found@, m.id);
    }
    auto_candidate_score(m, find_latest(found, m.id), tracker, find_latest(probes, m.id), target)
}

/// Ranks the candidates by what is known of them.
pub fn rank_candidates(
    candidates: &Vec<&Media>,
    found: &Vec<(u128, TorrentPreflight)>,
    trackers: &Keyed<TrackerAvailability>,
    probes: &Vec<(u128, PeerAvailability)>,
) -> (r: Vec<usize>)
    requires
        trackers.wf(),
        sane(Evidence { found: found@, trackers: trackers.view(), probes: probes@ }),
    ensures
        positions(r@) == ranking(
            derefs(candidates@),
            (Evidence { found: found@, trackers: trackers.view(), probes: probes@ }),
        ),
        r@.len() == candidates@.len(),
        forall|i: int| 0 <= i < r@.len() ==> (#[trigger] r@[i]) < candidates@.len(),
{
    let ghost all = derefs(candidates@);
    let ghost e = Evidence { found: found@, trackers: trackers.view(), probes: probes@ };
    let target = target_file_bytes(candidates, found);
    let mut keys: Vec<Vec<u64>> = Vec::new();
    let mut i: usize = 0;
    while i < candidates.len()
        invariant
            i <= candidates.len(),
            trackers.wf(),
            sane(e),
            e == (Evidence { found: found@, trackers: trackers.view(), probes: probes@ }),
            all == derefs(candidates@),
            key_seqs(keys@) =~= score_keys(all, e, target).take(i as int),
        decreases candidates.len() - i,
    {
        let ghost before = key_seqs(keys@);
        let score = score_candidate(candidates[i], found, trackers, probes, target);
        let key = score.rank_key();
        keys.push(key);
        assert(key_seqs(keys@) =~= before.push(key@));
        assert(score_keys(all, e, target)[i as int] == key@);
        i = i + 1;
    }
    assert(score_keys(all, e, target).take(all.len() as int) =~= score_keys(all, e, target));
    assert(keys@.len() == key_seqs(keys@).len());
    rank(&keys)
}

/// Of a ranking the places whose swarm has not come before.
pub open spec fn independent(c: Seq<Media>, order: Seq<int>) -> Seq<int>
    decreases order.len(),
{
    if order.len() == 0 {
        Seq::empty()
    } else {
        let before = independent(c, order.drop_last());
        if swarm_among(c, before, failure_token(c[order.last()])) {
            before
        } else {
            before.push(order.last())
        }
    }
}

pub open spec fn swarm_among(c: Seq<Media>, places: Seq<int>, token: Seq<char>) -> bool {
    exists|i: int| 0 <= i < places.len() && failure_token(c[#[trigger] places[i]]) == token
}

/// The winner and those to fall back to, as places in the list of candidates.
pub open spec fn shortlist(c: Seq<Media>, order: Seq<int>) -> Seq<int> {
    at_most(independent(c, order), AUTO_SESSION_CANDIDATE_LIMIT as nat)
}

/// Keeps of a ranking the swarms to try, each once.
pub fn shortlist_of(candidates: &Vec<&Media>, order: &Vec<usize>) -> (r: Vec<usize>)
    requires
        forall|i: int| 0 <= i < order@.len() ==> (#[trigger] order@[i]) < candidates@.len(),
    ensures
        positions(r@) == shortlist(derefs(candidates@), positions(order@)),
        forall|i: int| 0 <= i < r@.len() ==> (#[trigger] r@[i]) < candidates@.len(),
{
    let ghost all = derefs(candidates@);
    let ghost places = positions(order@);
    let mut r: Vec<usize> = Vec::new();
    let mut tokens: Vec<String> = Vec::new();
    assert(positions(r@) =~= independent(all, places.take(0)));
    let mut i: usize = 0;
    while i < order.len()
        invariant
            i <= order.len(),
            all == derefs(candidates@),
            places == positions(order@),
            forall|j: int| 0 <= j < order@.len() ==> (#[trigger] order@[j]) < candidates@.len(),
            forall|j: int| 0 <= j < r@.len() ==> (#[trigger] r@[j]) < candidates@.len(),
            positions(r@) == independent(all, places.take(i as int)),
            tokens@.len() == r@.len(),
            forall|j: int|
                0 <= j < r@.len() ==> (#[trigger] tokens@[j])@ == failure_token(all[r@[j] as int]),
        decreases order.len() - i,
    {
        let k: usize = order[i];
        proof {
            assert(places.take(i + 1).drop_last() =~= places.take(i as int));
            assert(places.take(i + 1).last() == k);
            assert(all[k as int] == *candidates@[k as int]);
        }
        let token = StreamService::auto_candidate_failure_token(candidates[k]);
        let seen = list_has(&tokens, token.as_str());
        proof {
            let kept = positions(r@);
            let t = texts(tokens@);
            if seen {
                let j = choose|j: int| 0 <= j < t.len() && t[j] == token@;
                assert(tokens@[j]@ == token@);
                assert(failure_token(all[kept[j]]) == token@);
            } else {
                assert forall|j: int| 0 <= j < kept.len() implies failure_token(
                    all[#[trigger] kept[j]],
                ) != token@ by {
                    assert(tokens@[j]@ == t[j]);
                    assert(t.contains(t[j]));
                }
            }
        }
        if !seen {
            let ghost before = r@;
            r.push(k);
            tokens.push(token);
            assert(positions(r@) =~= positions(before).push(k as int));
        }
        i = i + 1;
    }
    assert(places.take(places.len() as int) =~= places);
    let ghost whole = r@;
    if r.len() > AUTO_SESSION_CANDIDATE_LIMIT {
        r.truncate(AUTO_SESSION_CANDIDATE_LIMIT);
        assert(positions(r@) =~= positions(whole).take(AUTO_SESSION_CANDIDATE_LIMIT as int));
    }
    r
}

/// The identifiers at some places.
pub open spec fn ids_at(c: Seq<Media>, places: Seq<int>) -> Seq<u128> {
    places.map_values(|i: int| c[i].id)
}

/// The places to try, the winner first.
pub open spec fn auto_pick(c: Seq<Media>, e: Evidence) -> Seq<int> {
    shortlist(c, ranking(c, e))
}

/// Picks the source: the winner and those to fall back to, as places in the
/// list of candidates. Both are remembered.
pub fn pick_auto_source(
    store: &mut Store,
    item_id: u128,
    resolution: &str,
    candidates: &Vec<&Media>,
    found: &Vec<(u128, TorrentPreflight)>,
    trackers: &Keyed<TrackerAvailability>,
    probes: &Vec<(u128, PeerAvailability)>,
    now: u64,
) -> (r: Vec<usize>)
    requires
        old(store).wf(),
        trackers.wf(),
        candidates@.len() > 0,
        sane(Evidence { found: found@, trackers: trackers.view(), probes: probes@ }),
    ensures
        final(store).wf(),
        r@.len() > 0,
        positions(r@) == auto_pick(
            derefs(candidates@),
            (Evidence { found: found@, trackers: trackers.view(), probes: probes@ }),
        ),
        forall|i: int| 0 <= i < r@.len() ==> (#[trigger] r@[i]) < candidates@.len(),
        ({
            let ids = ids_at(derefs(candidates@), positions(r@));
            final(store).view() == old(store).view().insert(
                choice_key(item_id, resolution@),
                (StoredView::Id(ids[0]), expiry(now, AUTO_CHOICE_TTL_MS)),
            ).insert(
                ranked_key(item_id, resolution@),
                (
                    StoredView::Ranked(
                        RankedView { winner_id: ids[0], fallback_ids: ids.skip(1) },
                    ),
                    expiry(now, AUTO_CHOICE_TTL_MS),
                ),
            )
        }),
{
    let ghost all = derefs(candidates@);
    let order = rank_candidates(candidates, found, trackers, probes);
    let places = shortlist_of(candidates, &order);
    proof {
        law_shortlist(all, positions(order@));
        assert(positions(places@).len() == places@.len());
    }
    let winner_id: u128 = candidates[places[0]].id;
    let ghost ids = ids_at(all, positions(places@));
    let mut fallback_ids: Vec<u128> = Vec::new();
    let mut i: usize = 1;
    while i < places.len()
        invariant
            1 <= i <= places.len(),
            all == derefs(candidates@),
            ids == ids_at(all, positions(places@)),
            forall|j: int| 0 <= j < places@.len() ==> (#[trigger] places@[j]) < candidates@.len(),
            fallback_ids@ =~= ids.subrange(1, i as int),
        decreases places.len() - i,
    {
        fallback_ids.push(candidates[places[i]].id);
        i = i + 1;
    }
    assert(fallback_ids@ =~= ids.skip(1));
    StreamService::remember_auto_choice(store, item_id, resolution, winner_id, now);
    StreamService::remember_ranking(store, item_id, resolution, winner_id, fallback_ids, now);
    places
}

/// The shortlist begins with the best of the ranking, holds no swarm twice and
/// no more than may be tried; what it leaves out is of a swarm that it holds,
/// or it is full.
pub proof fn law_shortlist(c: Seq<Media>, order: Seq<int>)
    requires
        order.len() > 0,
    ensures
        ({
            let s = shortlist(c, order);
            &&& 0 < s.len() <= AUTO_SESSION_CANDIDATE_LIMIT
            &&& s[0] == order[0]
            &&& forall|i: int, j: int|
                0 <= i < j < s.len() ==> failure_token(c[#[trigger] s[i]]) != failure_token(
                    c[#[trigger] s[j]],
                )
            &&& forall|i: int| 0 <= i < s.len() ==> order.contains(#[trigger] s[i])
            &&& s.len() < AUTO_SESSION_CANDIDATE_LIMIT ==> forall|i: int|
                0 <= i < order.len() ==> swarm_among(c, s, failure_token(c[#[trigger] order[i]]))
        }),
{
    lemma_independent(c, order);
    let all = independent(c, order);
    let s = shortlist(c, order);
    if all.len() > AUTO_SESSION_CANDIDATE_LIMIT {
        assert forall|i: int, j: int| 0 <= i < j < s.len() implies failure_token(c[#[trigger] s[i]])
            != failure_token(c[#[trigger] s[j]]) by {
            assert(s[i] == all[i] && s[j] == all[j]);
        }
        assert forall|i: int| 0 <= i < s.len() implies order.contains(#[trigger] s[i]) by {
            assert(s[i] == all[i]);
        }
    }
}

proof fn lemma_independent(c: Seq<Media>, order: Seq<int>)
    ensures
        ({
            let s = independent(c, order);
            &&& s.len() <= order.len()
            &&& order.len() > 0 ==> s.len() > 0 && s[0] == order[0]
            &&& forall|i: int, j: int|
                0 <= i < j < s.len() ==> failure_token(c[#[trigger] s[i]]) != failure_token(
                    c[#[trigger] s[j]],
                )
            &&& forall|i: int| 0 <= i < s.len() ==> order.contains(#[trigger] s[i])
            &&& forall|i: int|
                0 <= i < order.len() ==> swarm_among(c, s, failure_token(c[#[trigger] order[i]]))
        }),
    decreases order.len(),
{
    if order.len() > 0 {
        let short = order.drop_last();
        lemma_independent(c, short);
        let before = independent(c, short);
        let s = independent(c, order);
        let token = failure_token(c[order.last()]);
        assert forall|i: int| 0 <= i < s.len() implies order.contains(#[trigger] s[i]) by {
            if i < before.len() {
                assert(s[i] == before[i]);
                let k = choose|k: int| 0 <= k < short.len() && short[k] == before[i];
                assert(order[k] == s[i]);
            } else {
                assert(order[order.len() - 1] == s[i]);
            }
        }
        assert forall|i: int, j: int| 0 <= i < j < s.len() implies failure_token(c[#[trigger] s[i]])
            != failure_token(c[#[trigger] s[j]]) by {
            assert(s[i] == before[i]);
            if j < before.len() {
                assert(s[j] == before[j]);
            }
        }
        assert forall|i: int| 0 <= i < order.len() implies swarm_among(
            c,
            s,
            failure_token(c[#[trigger] order[i]]),
        ) by {
            if i < short.len() {
                assert(order[i] == short[i]);
                let t = failure_token(c[short[i]]);
                assert(swarm_among(c, before, t));
                let k = choose|k: int|
                    0 <= k < before.len() && failure_token(c[#[trigger] before[k]]) == t;
                assert(s[k] == before[k]);
            } else if !swarm_among(c, before, token) {
                assert(s[before.len() as int] == order.last());
            }
        }
    }
}

/// No candidate scores better than the winner.
pub proof fn law_the_best_candidate_wins(c: Seq<Media>, e: Evidence)
    requires
        c.len() > 0,
    ensures
        ({
            let winner = auto_pick(c, e)[0];
            let target = usual_size(c, e.found);
            &&& 0 <= winner < c.len()
            &&& forall|i: int|
                0 <= i < c.len() ==> key_ge(
                    score_of(c[winner], e, target).key(),
                    score_of(#[trigger] c[i], e, target).key(),
                )
        }),
{
    let target = usual_size(c, e.found);
    let keys = score_keys(c, e, target);
    let order = ranked(keys);
    law_ranking(keys);
    law_shortlist(c, order);
    let winner = order[0];
    assert forall|i: int| 0 <= i < c.len() implies key_ge(
        score_of(c[winner], e, target).key(),
        score_of(#[trigger] c[i], e, target).key(),
    ) by {
        assert(order.contains(i));
        let k = choose|k: int| 0 <= k < order.len() && order[k] == i;
        assert(keys[i] == score_of(c[i], e, target).key());
        assert(keys[winner] == score_of(c[winner], e, target).key());
        if k == 0 {
            lemma_key_is_at_least_itself(keys[i]);
        } else {
            assert(key_ge(keys[order[0]], keys[order[k]]));
        }
    }
}

/// What is picked, and what remains to fall back to, is never another cut, a
/// bad recording, stereoscopic or a torrent that failed a short while ago.
pub proof fn law_picks_are_fit(
    all: Seq<Media>,
    resolution: Seq<char>,
    parent: Media,
    store: Store,
    item_id: u128,
    now: u64,
    e: Evidence,
)
    requires
        candidates_of(all, resolution, parent, store, item_id, now) is Ok,
    ensures
        ({
            let c = candidates_of(all, resolution, parent, store, item_id, now)->Ok_0;
            let picks = auto_pick(c, e);
            &&& picks.len() > 0
            &&& forall|i: int|
                0 <= i < picks.len() ==> {
                    let m = c[#[trigger] picks[i]];
                    &&& m.p2p() && media_resolution(m) == resolution
                    &&& !blocked(m) && !stereoscopic(m)
                    &&& !recently_failed(store, item_id, resolution, m, now)
                }
        }),
{
    law_candidates_are_fit(all, resolution, parent, store, item_id, now);
    let c = candidates_of(all, resolution, parent, store, item_id, now)->Ok_0;
    let keys = score_keys(c, e, usual_size(c, e.found));
    let order = ranked(keys);
    law_ranking(keys);
    law_shortlist(c, order);
    let picks = auto_pick(c, e);
    assert forall|i: int| 0 <= i < picks.len() implies {
        let m = c[#[trigger] picks[i]];
        &&& m.p2p() && media_resolution(m) == resolution
        &&& !blocked(m) && !stereoscopic(m)
        &&& !recently_failed(store, item_id, resolution, m, now)
    } by {
        assert(order.contains(picks[i]));
        let k = choose|k: int| 0 <= k < order.len() && order[k] == picks[i];
        assert(0 <= order[k] < c.len());
        assert(fit_for(resolution)(c[picks[i]]));
    }
}

proof fn lemma_key_is_at_least_itself(a: Seq<u64>)
    ensures
        key_ge(a, a),
    decreases a.len(),
{
    if a.len() > 0 {
        lemma_key_is_at_least_itself(a.skip(1));
    }
}

// ---------------------------------------------------------------------------
// Laws of the candidates
// ---------------------------------------------------------------------------

/// A name tells its resolution in whatever case, and the highest of several counts but
/// that 1440 lines count last.
pub proof fn law_names_tell_their_resolution(name: Seq<char>, other: Seq<char>)
    ensures
        ({
            let r = mentioned_resolution(name);
            let l = lower(name);
            &&& has(l, "2160p"@) ==> r == "4K"@
            &&& has(l, "4k"@) ==> r == "4K"@
            &&& r == "4K"@ ==> has(l, "2160p"@) || has(l, "4k"@)
            &&& r == "1080p"@ ==> has(l, "1080p"@)
            &&& r == "720p"@ ==> has(l, "720p"@)
            &&& r == "480p"@ ==> has(l, "480p"@)
            &&& r == "1440p"@ ==> has(l, "1440p"@)
            &&& has(l, "1080p"@) ==> r == "4K"@ || r == "1080p"@
            &&& has(l, "720p"@) ==> r == "4K"@ || r == "1080p"@ || r == "720p"@
            &&& has(l, "480p"@) ==> r == "4K"@ || r == "1080p"@ || r == "720p"@ || r == "480p"@
            &&& has(l, "1440p"@) ==> r.len() > 0
            &&& r.len() == 0 || r == "4K"@ || r == "1080p"@ || r == "720p"@ || r == "480p"@ || r
                == "1440p"@
        }),
        lower(name) == lower(other) ==> mentioned_resolution(name) == mentioned_resolution(other),
{
    lemma_resolutions_differ();
}

proof fn lemma_resolutions_differ()
    ensures
        "4K"@.len() == 2 && "1080p"@.len() == 5 && "720p"@.len() == 4 && "480p"@.len() == 4,
        "1440p"@.len() == 5 && ""@.len() == 0,
        "1080p"@ != "1440p"@,
        "720p"@ != "480p"@,
{
    reveal_strlit("4K");
    reveal_strlit("1080p");
    reveal_strlit("720p");
    reveal_strlit("480p");
    reveal_strlit("1440p");
    reveal_strlit("");
    assert("1080p"@[1] == '0' && "1440p"@[1] == '4');
    assert("720p"@[0] == '7' && "480p"@[0] == '4');
}

/// A stream's own title tells its resolution before its file does.
pub proof fn law_titles_come_before_files(m: Media)
    ensures
        mentioned_resolution(m.title@).len() > 0 ==> media_resolution(m) == mentioned_resolution(
            m.title@,
        ),
        mentioned_resolution(m.title@).len() == 0 && (m.stream_info matches Some(info)
            && info.filename is Some) ==> media_resolution(m) == mentioned_resolution(
            m.stream_info->Some_0.filename->Some_0@,
        ),
        mentioned_resolution(m.title@).len() == 0 && (m.stream_info matches Some(info)
            ==> info.filename is None) ==> media_resolution(m).len() == 0,
{
    lemma_resolutions_differ();
    let t = mentioned_resolution(m.title@);
    if t.len() == 0 {
        assert(t =~= ""@);
    }
}

/// No stream that is fit, in the language of the title and did not fail is lost, and
/// where none is in that language, none that is fit otherwise.
pub proof fn law_no_candidate_is_lost(
    all: Seq<Media>,
    resolution: Seq<char>,
    parent: Media,
    store: Store,
    item_id: u128,
    now: u64,
    k: int,
)
    requires
        0 <= k < all.len(),
        all[k].p2p() && media_resolution(all[k]) == resolution,
        !blocked(all[k]) && !stereoscopic(all[k]),
        !recently_failed(store, item_id, resolution, all[k], now),
        !language_mismatch(all[k], text_opt(parent.original_language), parent.title@) || forall|
            j: int,
        |
            0 <= j < all.len() ==> language_mismatch(
                #[trigger] all[j],
                text_opt(parent.original_language),
                parent.title@,
            ),
    ensures
        candidates_of(all, resolution, parent, store, item_id, now) matches Ok(c) && c.contains(
            all[k],
        ),
{
    let fit = all.filter(fit_for(resolution));
    let spoken = fit.filter(spoken_in(parent));
    let s = suited(all, resolution, parent);
    let good = s.filter(still_good(store, item_id, resolution, now));
    all.lemma_filter_contains(fit_for(resolution), k);
    let f = choose|f: int| 0 <= f < fit.len() && fit[f] == all[k];
    if spoken_in(parent)(all[k]) {
        fit.lemma_filter_contains(spoken_in(parent), f);
    } else if spoken.len() > 0 {
        fit.lemma_filter_pred(spoken_in(parent), 0);
        assert(spoken.contains(spoken[0]));
        fit.lemma_filter_contains_rev(spoken_in(parent), spoken[0]);
        all.lemma_filter_contains_rev(fit_for(resolution), spoken[0]);
        let j = choose|j: int| 0 <= j < all.len() && all[j] == spoken[0];
        assert(language_mismatch(all[j], text_opt(parent.original_language), parent.title@));
    }
    let g = choose|g: int| 0 <= g < s.len() && s[g] == all[k];
    s.lemma_filter_contains(still_good(store, item_id, resolution, now), g);
    let h = choose|h: int| 0 <= h < good.len() && good[h] == all[k];
    law_ranking(seeders_keys(good));
    let order = ranked(seeders_keys(good));
    assert(order.contains(h));
    let i = choose|i: int| 0 <= i < order.len() && order[i] == h;
    assert(by_seeders(good)[i] == all[k]);
}

/// Where nothing comes into question, or everything failed a short while ago, the refusal
/// tells which.
pub proof fn law_refusals_tell_why(
    all: Seq<Media>,
    resolution: Seq<char>,
    parent: Media,
    store: Store,
    item_id: u128,
    now: u64,
    n: usize,
)
    ensures
        (forall|j: int|
            0 <= j < all.len() ==> !(#[trigger] all[j]).p2p() || media_resolution(all[j])
                != resolution) ==> candidates_of(all, resolution, parent, store, item_id, now)
            == Err::<Seq<Media>, AutoError>(AutoError::NoCandidates),
        candidates_of(all, resolution, parent, store, item_id, now) matches Err(
            AutoError::AllFailed(_),
        ) ==> exists|j: int|
            0 <= j < all.len() && (#[trigger] all[j]).p2p() && media_resolution(all[j])
                == resolution && recently_failed(store, item_id, resolution, all[j], now),
        AutoError::NoCandidates.text(resolution) == "no candidates for resolution "@ + resolution,
        AutoError::AllFailed(n).text(resolution) == "all "@ + dec(n as nat) + " candidates for "@
            + resolution + " recently failed"@,
{
    let fit = all.filter(fit_for(resolution));
    let spoken = fit.filter(spoken_in(parent));
    let c = suited(all, resolution, parent);
    if c.len() > 0 {
        let m = c[0];
        assert(c.contains(m));
        if spoken.len() > 0 {
            fit.lemma_filter_contains_rev(spoken_in(parent), m);
        }
        let f = choose|f: int| 0 <= f < fit.len() && fit[f] == m;
        all.lemma_filter_pred(fit_for(resolution), f);
        all.lemma_filter_contains_rev(fit_for(resolution), m);
        let j = choose|j: int| 0 <= j < all.len() && all[j] == m;
        assert(all[j].p2p());
        let good = c.filter(still_good(store, item_id, resolution, now));
        if good.len() == 0 && !recently_failed(store, item_id, resolution, m, now) {
            c.lemma_filter_contains(still_good(store, item_id, resolution, now), 0);
            assert(good.contains(m));
        }
    }
}

/// Candidates come by the seeders that their providers state, the most first.
pub proof fn law_candidates_come_by_seeders(c: Seq<Media>, i: int, j: int)
    requires
        0 <= i < j < c.len(),
    ensures
        by_seeders(c).len() == c.len(),
        by_seeders(c)[i].stated_seeders() >= by_seeders(c)[j].stated_seeders(),
        c[i].stated_seeders() == (match c[i].stream_info {
            Some(info) => match info.seeders {
                Some(n) => n,
                None => 0,
            },
            None => 0,
        }),
{
    let keys = seeders_keys(c);
    law_ranking(keys);
    let a = ranked(keys)[i];
    let b = ranked(keys)[j];
    assert(key_ge(keys[a], keys[b]));
    assert(keys[a] == seeders_key(c[a]) && keys[b] == seeders_key(c[b]));
    if keys[a][0] < keys[b][0] {
        crate::order::law_keys_are_compared_from_the_front(keys[b], keys[a], 0);
    }
}

/// What was picked before is used again only where it would still be a candidate.
pub proof fn law_picks_are_reused_while_fit(
    store: Store,
    item_id: u128,
    resolution: Seq<char>,
    winner: Media,
    parent: Media,
    now: u64,
)
    ensures
        reusable(store, item_id, resolution, winner, parent, now) <==> winner.p2p() && !blocked(
            winner,
        ) && !stereoscopic(winner) && !language_mismatch(
            winner,
            text_opt(parent.original_language),
            parent.title@,
        ) && !recently_failed(store, item_id, resolution, winner, now),
{
}

// ---------------------------------------------------------------------------
// Laws of the waves
// ---------------------------------------------------------------------------

/// The first members of a list are kept, as many as there may be.
pub proof fn law_first_few<A>(s: Seq<A>, n: nat, i: int)
    ensures
        s.len() <= n ==> at_most(s, n) == s,
        s.len() > n ==> at_most(s, n).len() == n,
        0 <= i < at_most(s, n).len() ==> at_most(s, n)[i] == s[i],
{
}

/// The trackers are asked about every torrent, and the usual ones and those that the
/// candidates name are asked.
pub proof fn law_trackers_are_asked_about_all(c: Seq<Media>, k: int)
    requires
        0 <= k < c.len(),
    ensures
        c[k].info_hash() matches Some(h) ==> hashes_of(c).contains(lower(h)),
        hashes_of(c).len() <= c.len(),
        forall|u: Seq<char>|
            (c[k].stream_info matches Some(info) && info.descriptor.trackers().contains(u))
                ==> #[trigger] named_trackers(c).contains(u),
    decreases c.len(),
{
    let short = c.drop_last();
    let all = hashes_of(c);
    let before = hashes_of(short);
    if k < short.len() {
        assert(short[k] == c[k]);
        law_trackers_are_asked_about_all(short, k);
        if let Some(h) = c[k].info_hash() {
            let i = choose|i: int| 0 <= i < before.len() && before[i] == lower(h);
            assert(all[i] == lower(h));
        }
        assert forall|u: Seq<char>|
            (c[k].stream_info matches Some(info) && info.descriptor.trackers().contains(
                u,
            )) implies #[trigger] named_trackers(c).contains(u) by {
            let named = named_trackers(short);
            assert(named.contains(u));
            let i = choose|i: int| 0 <= i < named.len() && named[i] == u;
            assert(named_trackers(c)[i] == u);
        }
    } else {
        if short.len() > 0 {
            law_trackers_are_asked_about_all(short, 0);
        }
        if let Some(h) = c[k].info_hash() {
            assert(all[all.len() - 1] == lower(h));
        }
        if let Some(info) = c[k].stream_info {
            let own = info.descriptor.trackers();
            let named = named_trackers(short);
            assert forall|u: Seq<char>| own.contains(u) implies #[trigger] named_trackers(
                c,
            ).contains(u) by {
                let i = choose|i: int| 0 <= i < own.len() && own[i] == u;
                assert(named_trackers(c)[named.len() + i] == u);
            }
        }
    }
}

/// A torrent is known by its candidate's number, its hash in lower case and its magnet;
/// one that is complete in the engine ranks above one with live peers, and that above
/// the rest.
pub proof fn law_torrents_of_candidates(
    m: Media,
    managed: Map<Seq<char>, ManagedTorrentAvailability>,
    state: ManagedTorrentAvailability,
)
    ensures
        m.info_hash() is None ==> torrent_of(m, managed) is None,
        m.info_hash() matches Some(h) ==> (torrent_of(m, managed) matches Some(t) && t.id == m.id
            && t.hash == lower(h) && (t.probed <==> m.probe_data is Some)
                && (m.stated_seeders() >= 0
            ==> t.provider_seeders == m.stated_seeders()) && (m.stated_seeders() < 0
            ==> t.provider_seeders == 0) && (managed.contains_key(lower(h)) ==> t.managed_rank
            == rank_of_managed(Some(managed[lower(h)]))) && (!managed.contains_key(lower(h))
            ==> t.managed_rank == 0) && (m.stream_info matches Some(info)
                && info.fields() matches Some(
            f,
        ) && t.magnet == magnet_text(f))),
        rank_of_managed(None) == 0,
        state.finished ==> rank_of_managed(Some(state)) == 2,
        !state.finished && state.live_peers > 0 ==> rank_of_managed(Some(state)) == 1,
        !state.finished && state.live_peers == 0 ==> rank_of_managed(Some(state)) == 0,
{
}

/// Every torrent among the candidates is ranked: the more of it is there the earlier, then
/// those that were probed, then by their seeders.
pub proof fn law_promising_torrents_come_first(
    c: Seq<Media>,
    managed: Map<Seq<char>, ManagedTorrentAvailability>,
    i: int,
    j: int,
    k: int,
)
    requires
        0 <= i < j < ranked_torrents(c, managed).len(),
        0 <= k < c.len(),
    ensures
        ({
            let t = ranked_torrents(c, managed);
            &&& t[i].managed_rank >= t[j].managed_rank
            &&& t[i].managed_rank == t[j].managed_rank ==> (t[j].probed ==> t[i].probed)
            &&& t[i].managed_rank == t[j].managed_rank && t[i].probed == t[j].probed
                ==> t[i].provider_seeders >= t[j].provider_seeders
            &&& torrent_of(c[k], managed) matches Some(x) ==> t.contains(x)
        }),
{
    let all = torrents_of(c, managed);
    let keys = torrent_keys(all);
    let order = ranked(keys);
    law_ranking(keys);
    let a = order[i];
    let b = order[j];
    assert(key_ge(keys[a], keys[b]));
    let x = all[a].key();
    let y = all[b].key();
    assert(keys[a] == x && keys[b] == y);
    if x[0] < y[0] {
        crate::order::law_keys_are_compared_from_the_front(y, x, 0);
    } else if x[0] == y[0] {
        if x[1] < y[1] {
            crate::order::law_keys_are_compared_from_the_front(y, x, 1);
        } else if x[1] == y[1] && x[2] < y[2] {
            crate::order::law_keys_are_compared_from_the_front(y, x, 2);
        }
    }
    lemma_torrents_hold(c, managed, k);
    if let Some(want) = torrent_of(c[k], managed) {
        let p = choose|p: int| 0 <= p < all.len() && all[p] == want;
        assert(order.contains(p));
        let q = choose|q: int| 0 <= q < order.len() && order[q] == p;
        assert(ranked_torrents(c, managed)[q] == want);
    }
}

proof fn lemma_torrents_hold(
    c: Seq<Media>,
    managed: Map<Seq<char>, ManagedTorrentAvailability>,
    k: int,
)
    requires
        0 <= k < c.len(),
    ensures
        torrent_of(c[k], managed) matches Some(x) ==> torrents_of(c, managed).contains(x),
    decreases c.len(),
{
    let short = c.drop_last();
    let all = torrents_of(c, managed);
    if k < short.len() {
        assert(short[k] == c[k]);
        lemma_torrents_hold(short, managed, k);
        if let Some(x) = torrent_of(c[k], managed) {
            let before = torrents_of(short, managed);
            let i = choose|i: int| 0 <= i < before.len() && before[i] == x;
            assert(all[i] == x);
        }
    } else if let Some(x) = torrent_of(c[k], managed) {
        assert(all[all.len() - 1] == x);
    }
}

/// The first wave begins with the three most promising torrents, and is four at most.
pub proof fn law_first_wave_leads_with_the_best(t: Seq<TorrentView>, k: int)
    requires
        0 <= k < 3,
        k < t.len(),
    ensures
        first_wave_places(t).len() <= 4,
        k < first_wave_places(t).len() && first_wave_places(t)[k] == k,
{
    lemma_best_seeded(t);
    let first = leading(t, 3);
    lemma_filled(t, first, 0, 4);
    assert(first[k] == k);
    assert(first_wave_places(t).take(first.len() as int)[k] == first_wave_places(t)[k]);
}

/// What was last learnt of a candidate counts.
pub proof fn law_last_finding_counts<V>(found: Seq<(u128, V)>, id: u128, k: int)
    ensures
        0 <= k < found.len() && found[k].0 == id && (forall|j: int|
            k < j < found.len() ==> (#[trigger] found[j]).0 != id) ==> latest(found, id) == Some(
            found[k].1,
        ),
        (forall|j: int| 0 <= j < found.len() ==> (#[trigger] found[j]).0 != id)
            ==> latest(found, id)
            is None,
    decreases found.len(),
{
    if found.len() > 0 {
        let short = found.drop_last();
        assert forall|j: int| 0 <= j < short.len() implies #[trigger] short[j] == found[j] by {}
        law_last_finding_counts(short, id, k);
        assert(found[found.len() - 1] == found.last());
    }
}

/// A torrent lives where peers were seen, or where the engine has all of it or is
/// connected to peers; one living torrent ends the asking.
pub proof fn law_living_torrents(found: Seq<(u128, TorrentPreflight)>, k: int)
    requires
        0 <= k < found.len(),
        forall|j: int| k < j < found.len() ==> (#[trigger] found[j]).0 != found[k].0,
    ensures
        found[k].1.seen_peers > 0 ==> some_live(found),
        (found[k].1.managed matches Some(m) && (m.finished || m.live_peers > 0))
            ==> some_live(found),
        found.len() == 1 && found[k].1.seen_peers == 0 && found[k].1.managed is None ==> !some_live(
            found,
        ),
        found.len() == 1 && found[k].1.seen_peers == 0 && (found[k].1.managed matches Some(m)
            && !m.finished && m.live_peers == 0) ==> !some_live(found),
{
    law_last_finding_counts(found, found[k].0, k);
    assert(latest(found, found[k].0) == Some(found[k].1));
}

proof fn lemma_members(
    t: Seq<TorrentView>,
    n: nat,
    trackers: Map<Seq<char>, TrackerAvailability>,
    checked: Seq<u128>,
    k: int,
    i: int,
)
    requires
        n <= t.len(),
    ensures
        ({
            let m = second_wave_members(t, n, trackers, checked);
            &&& 0 <= k < n && in_second_wave(t[k], some_announced(t, trackers), trackers, checked)
                ==> m.contains(k)
            &&& 0 <= i < m.len() ==> 0 <= m[i] < n && in_second_wave(
                t[m[i]],
                some_announced(t, trackers),
                trackers,
                checked,
            )
        }),
    decreases n,
{
    if n > 0 {
        lemma_members(t, (n - 1) as nat, trackers, checked, k, i);
        let before = second_wave_members(t, (n - 1) as nat, trackers, checked);
        let m = second_wave_members(t, n, trackers, checked);
        if before.contains(k) {
            let j = choose|j: int| 0 <= j < before.len() && before[j] == k;
            assert(m[j] == k);
        }
        if k == n - 1 && m.len() > before.len() {
            assert(m[m.len() - 1] == k);
        }
        if 0 <= i < before.len() {
            assert(m[i] == before[i]);
        }
    }
}

/// Where the trackers know peers, up to eight torrents with peers are asked about again,
/// in 3.8 seconds; else up to four that were not asked about, in 2.2 seconds. Those with
/// the most peers come first, then those with the most seeders.
pub proof fn law_second_wave(
    wave: SecondWave,
    t: Seq<TorrentView>,
    trackers: Map<Seq<char>, TrackerAvailability>,
    checked: Seq<u128>,
    i: int,
    j: int,
)
    requires
        wave_of(wave, t, trackers, checked),
        forall|h: Seq<char>| #[trigger]
            trackers.contains_key(h) ==> trackers[h].peers@.len() <= usize::MAX,
    ensures
        ({
            let peers = |h: Seq<char>|
                if trackers.contains_key(h) {
                    trackers[h].peers@
                } else {
                    Seq::empty()
                };
            let announced = exists|k: int| 0 <= k < t.len()
                && peers((#[trigger] t[k]).hash).len() > 0;
            &&& announced ==> wave.budget_ms == 3800 && wave.jobs@.len() <= 8
            &&& !announced ==> wave.budget_ms == 2200 && wave.jobs@.len() <= 4
            &&& 0 <= i < wave.jobs@.len() ==> {
                let x = t[wave.jobs@[i].candidate as int];
                &&& wave.jobs@[i].peers@ == peers(x.hash)
                &&& announced ==> peers(x.hash).len() > 0
                &&& !announced ==> !checked.contains(x.id)
            }
            &&& 0 <= i < j < wave.jobs@.len() ==> {
                let x = t[wave.jobs@[i].candidate as int];
                let y = t[wave.jobs@[j].candidate as int];
                peers(x.hash).len() >= peers(y.hash).len()
            }
        }),
{
    let peers = |h: Seq<char>|
        if trackers.contains_key(h) {
            trackers[h].peers@
        } else {
            Seq::empty()
        };
    assert forall|h: Seq<char>| #[trigger] peers(h) == tracker_peers(trackers, h) by {}
    let announced = exists|k: int| 0 <= k < t.len() && peers((#[trigger] t[k]).hash).len() > 0;
    assert(announced == some_announced(t, trackers)) by {
        if announced {
            let k = choose|k: int| 0 <= k < t.len() && peers((#[trigger] t[k]).hash).len() > 0;
            assert(tracker_peers(trackers, t[k].hash).len() > 0);
        }
        if some_announced(t, trackers) {
            let k = choose|k: int|
                0 <= k < t.len() && tracker_peers(trackers, (#[trigger] t[k]).hash).len() > 0;
            assert(peers(t[k].hash).len() > 0);
        }
    }
    let members = second_wave_members(t, t.len(), trackers, checked);
    let keys = second_wave_keys(t, members, trackers);
    let order = ranked(keys);
    law_ranking(keys);
    let places = second_wave_places(t, trackers, checked);
    let jobs = wave.jobs@;
    assert(jobs.len() == job_places(jobs).len());
    if 0 <= i < jobs.len() {
        assert(job_places(jobs)[i] == jobs[i].candidate);
        assert(places[i] == members[order[i]]);
        lemma_members(t, t.len(), trackers, checked, 0, order[i]);
        if i < j < jobs.len() {
            assert(job_places(jobs)[j] == jobs[j].candidate);
            assert(places[j] == members[order[j]]);
            lemma_members(t, t.len(), trackers, checked, 0, order[j]);
            let x = keys[order[i]];
            let y = keys[order[j]];
            assert(key_ge(x, y));
            assert(x == second_wave_key(t[members[order[i]]], trackers));
            assert(y == second_wave_key(t[members[order[j]]], trackers));
            if x[0] < y[0] {
                crate::order::law_keys_are_compared_from_the_front(y, x, 0);
            }
        }
    }
}

/// Of two torrents of the second wave with as many peers, the one that the trackers give
/// more seeders comes first, and then the one that its provider does.
pub proof fn law_second_wave_goes_by_seeders(
    t: Seq<TorrentView>,
    trackers: Map<Seq<char>, TrackerAvailability>,
    checked: Seq<u128>,
    i: int,
    j: int,
)
    requires
        0 <= i < j < second_wave_places(t, trackers, checked).len(),
    ensures
        ({
            let x = t[second_wave_places(t, trackers, checked)[i]];
            let y = t[second_wave_places(t, trackers, checked)[j]];
            let seeders = |h: Seq<char>|
                if trackers.contains_key(h) {
                    trackers[h].seeders
                } else {
                    0
                };
            &&& tracker_peers(trackers, x.hash).len() == tracker_peers(trackers, y.hash).len()
                ==> seeders(x.hash) >= seeders(y.hash)
            &&& tracker_peers(trackers, x.hash).len() == tracker_peers(trackers, y.hash).len()
                && seeders(x.hash) == seeders(y.hash) ==> x.provider_seeders >= y.provider_seeders
        }),
{
    let members = second_wave_members(t, t.len(), trackers, checked);
    let keys = second_wave_keys(t, members, trackers);
    let order = ranked(keys);
    law_ranking(keys);
    let places = second_wave_places(t, trackers, checked);
    assert(places[i] == members[order[i]]);
    assert(places[j] == members[order[j]]);
    let x = keys[order[i]];
    let y = keys[order[j]];
    assert(key_ge(x, y));
    assert(x == second_wave_key(t[members[order[i]]], trackers));
    assert(y == second_wave_key(t[members[order[j]]], trackers));
    if x[0] == y[0] {
        if x[1] < y[1] {
            crate::order::law_keys_are_compared_from_the_front(y, x, 1);
        } else if x[1] == y[1] && x[2] < y[2] {
            crate::order::law_keys_are_compared_from_the_front(y, x, 2);
        }
    }
}

/// No torrent that is due is left out of the second wave while there is room.
pub proof fn law_second_wave_leaves_none_out(
    t: Seq<TorrentView>,
    trackers: Map<Seq<char>, TrackerAvailability>,
    checked: Seq<u128>,
    k: int,
)
    requires
        0 <= k < t.len(),
    ensures
        ({
            let places = second_wave_places(t, trackers, checked);
            let has_peers = trackers.contains_key(t[k].hash)
                && trackers[t[k].hash].peers@.len() > 0;
            &&& has_peers ==> places.contains(k) || places.len() == 8
            &&& !checked.contains(t[k].id) && (forall|j: int|
                0 <= j < t.len() ==> !(trackers.contains_key((#[trigger] t[j]).hash)
                    && trackers[t[j].hash].peers@.len() > 0)) ==> places.contains(k) || places.len()
                == 4
        }),
{
    let members = second_wave_members(t, t.len(), trackers, checked);
    let keys = second_wave_keys(t, members, trackers);
    let order = ranked(keys);
    let all = picked(members, order);
    law_ranking(keys);
    lemma_members(t, t.len(), trackers, checked, k, 0);
    let has_peers = trackers.contains_key(t[k].hash) && trackers[t[k].hash].peers@.len() > 0;
    if has_peers {
        assert(tracker_peers(trackers, t[k].hash).len() > 0);
        assert(some_announced(t, trackers));
    }
    if some_announced(t, trackers) {
        let j = choose|j: int|
            0 <= j < t.len() && tracker_peers(trackers, (#[trigger] t[j]).hash).len() > 0;
        assert(trackers.contains_key(t[j].hash) && trackers[t[j].hash].peers@.len() > 0);
    }
    if members.contains(k) {
        let p = choose|p: int| 0 <= p < members.len() && members[p] == k;
        assert(order.contains(p));
        let q = choose|q: int| 0 <= q < order.len() && order[q] == p;
        assert(all[q] == k);
        assert(all.contains(k));
    }
}

/// The peers to ask are those that the engine found and those that the trackers know, and
/// the engine's come first.
pub proof fn law_known_peers_are_asked(
    t: TorrentView,
    found: Seq<(u128, TorrentPreflight)>,
    trackers: Map<Seq<char>, TrackerAvailability>,
    p: Peer,
)
    ensures
        ({
            let asked = peers_to_ask(t, found, trackers);
            &&& latest(found, t.id) matches Some(f) ==> f.peers@.len() <= asked.len() && asked.take(
                f.peers@.len() as int,
            ) == f.peers@
            &&& trackers.contains_key(t.hash) && trackers[t.hash].peers@.contains(p)
                ==> asked.contains(p)
            &&& asked.contains(p) ==> (latest(found, t.id) matches Some(f) && f.peers@.contains(p))
                || (trackers.contains_key(t.hash) && trackers[t.hash].peers@.contains(p))
        }),
{
    let base = match latest(found, t.id) {
        Some(f) => f.peers@,
        None => Seq::empty(),
    };
    lemma_extended_members(base, tracker_peers(trackers, t.hash), p);
}

proof fn lemma_extended_members(base: Seq<Peer>, more: Seq<Peer>, p: Peer)
    ensures
        base.len() <= extended(base, more).len(),
        extended(base, more).take(base.len() as int) == base,
        extended(base, more).contains(p) <==> base.contains(p) || more.contains(p),
    decreases more.len(),
{
    let all = extended(base, more);
    if more.len() > 0 {
        let short = more.drop_last();
        lemma_extended_members(base, short, p);
        let before = extended(base, short);
        assert(all.take(base.len() as int) =~= before.take(base.len() as int));
        assert(more[more.len() - 1] == more.last());
        if before.contains(p) {
            let i = choose|i: int| 0 <= i < before.len() && before[i] == p;
            assert(all[i] == p);
        }
        if all.contains(p) && !before.contains(p) {
            let i = choose|i: int| 0 <= i < all.len() && all[i] == p;
            if i < before.len() {
                assert(before[i] == p);
            }
        }
        if more.contains(p) {
            let i = choose|i: int| 0 <= i < more.len() && more[i] == p;
            if i < short.len() {
                assert(short[i] == p);
            } else if !before.contains(p) {
                assert(all[all.len() - 1] == p);
            }
        }
        if short.contains(p) {
            let i = choose|i: int| 0 <= i < short.len() && short[i] == p;
            assert(more[i] == p);
        }
    } else {
        assert(base.take(base.len() as int) =~= base);
    }
}

/// Of the torrents that lead, those with peers are asked, in their order, and no others.
pub proof fn law_torrents_with_peers_are_probed(
    t: Seq<TorrentView>,
    places: Seq<int>,
    found: Seq<(u128, TorrentPreflight)>,
    trackers: Map<Seq<char>, TrackerAvailability>,
    k: int,
    i: int,
)
    ensures
        ({
            let asked = with_peers(t, places, found, trackers);
            &&& 0 <= k < places.len() && peers_to_ask(t[places[k]], found, trackers).len() > 0
                ==> asked.contains(places[k])
            &&& 0 <= i < asked.len() ==> places.contains(asked[i]) && peers_to_ask(
                t[asked[i]],
                found,
                trackers,
            ).len() > 0
            &&& asked.len() <= places.len()
        }),
    decreases places.len(),
{
    if places.len() > 0 {
        let short = places.drop_last();
        law_torrents_with_peers_are_probed(t, short, found, trackers, k, i);
        let before = with_peers(t, short, found, trackers);
        let asked = with_peers(t, places, found, trackers);
        if 0 <= k < short.len() {
            assert(short[k] == places[k]);
            if before.contains(places[k]) {
                let j = choose|j: int| 0 <= j < before.len() && before[j] == places[k];
                assert(asked[j] == places[k]);
            }
        } else if k == short.len() && asked.len() > before.len() {
            assert(asked[asked.len() - 1] == places[k]);
        }
        if 0 <= i < before.len() {
            assert(asked[i] == before[i]);
            let j = choose|j: int| 0 <= j < short.len() && short[j] == before[i];
            assert(places[j] == asked[i]);
        } else if i == before.len() && i < asked.len() {
            assert(places[places.len() - 1] == asked[i]);
        }
    }
}

/// The first torrents lead, and the one with the most seeders always does.
pub proof fn law_leading_torrents(t: Seq<TorrentView>, n: nat, k: int)
    requires
        t.len() > 0,
    ensures
        ({
            let first = leading(t, n);
            &&& first.len() <= n + 1
            &&& 0 <= k < n && k < t.len() ==> k < first.len() && first[k] == k
            &&& exists|i: int|
                0 <= i < first.len() && 0 <= #[trigger] first[i] < t.len() && t[first[i]].id
                    == t[best_seeded(t)].id
        }),
{
    lemma_best_seeded(t);
    let plain = first_places(
        if t.len() < n {
            t.len()
        } else {
            n
        },
    );
    let first = leading(t, n);
    if is_chosen(t, plain, t[best_seeded(t)].id) {
        let i = choose|i: int|
            0 <= i < plain.len() && t[#[trigger] plain[i]].id == t[best_seeded(t)].id;
        assert(first[i] == plain[i]);
        assert(0 <= first[i] < t.len());
    } else {
        assert(first[plain.len() as int] == best_seeded(t));
    }
}

// ---------------------------------------------------------------------------
// Laws of the pick
// ---------------------------------------------------------------------------

/// The size of every release that is known counts for the usual one, and the same file
/// counts once however many streams offer it.
pub proof fn law_files_count_once(c: Seq<Media>, found: Seq<(u128, TorrentPreflight)>, k: int, m: Media)
    ensures
        0 <= k < c.len() && (candidate_bytes(c[k], latest(found, c[k].id)) matches Some(size))
            ==> population(c, found).contains(
            candidate_bytes(c[k], latest(found, c[k].id))->Some_0,
        ),
        0 <= k < c.len() && failure_token(m) == failure_token(c[k]) && candidate_bytes(
            m,
            latest(found, m.id),
        ) == candidate_bytes(c[k], latest(found, c[k].id)) ==> usual_size(c.push(m), found)
            == usual_size(c, found),
        candidate_bytes(m, latest(found, m.id)) is None ==> usual_size(c.push(m), found)
            == usual_size(c, found),
{
    let sizes = release_sizes(c, found);
    lemma_release_sizes(c, found, k);
    crate::order::law_distinct(sizes);
    assert(c.push(m).drop_last() =~= c);
    if 0 <= k < c.len() {
        if let Some(size) = candidate_bytes(c[k], latest(found, c[k].id)) {
            let want = (failure_token(c[k]), size);
            assert(distinct(sizes).contains(want));
            let i = choose|i: int| 0 <= i < distinct(sizes).len() && distinct(sizes)[i] == want;
            assert(population(c, found)[i] == size);
            assert(sizes.push(want).drop_last() =~= sizes);
            assert(distinct(sizes.push(want)) == distinct(sizes));
        }
    }
}

proof fn lemma_release_sizes(c: Seq<Media>, found: Seq<(u128, TorrentPreflight)>, k: int)
    ensures
        0 <= k < c.len() && (candidate_bytes(c[k], latest(found, c[k].id)) is Some)
            ==> release_sizes(
            c,
            found,
        ).contains((failure_token(c[k]), candidate_bytes(c[k], latest(found, c[k].id))->Some_0)),
    decreases c.len(),
{
    if c.len() > 0 {
        let short = c.drop_last();
        let before = release_sizes(short, found);
        let all = release_sizes(c, found);
        lemma_release_sizes(short, found, k);
        if 0 <= k < c.len() && (candidate_bytes(c[k], latest(found, c[k].id)) is Some) {
            let want = (
                failure_token(c[k]),
                candidate_bytes(c[k], latest(found, c[k].id))->Some_0,
            );
            if k < short.len() {
                assert(short[k] == c[k]);
                let i = choose|i: int| 0 <= i < before.len() && before[i] == want;
                assert(all[i] == want);
            } else {
                assert(all[all.len() - 1] == want);
            }
        }
    }
}

/// A candidate is scored by what was last found of itself, by what its peers last said,
/// and by what the trackers say of its hash in lower case.
pub proof fn law_candidates_are_scored_by_their_own_evidence(
    m: Media,
    e: Evidence,
    target: Option<u64>,
)
    ensures
        (m.info_hash() matches Some(h) && e.trackers.contains_key(lower(h))) ==> score_of(
            m,
            e,
            target,
        ) == auto_score(
            m,
            latest(e.found, m.id),
            Some(e.trackers[lower(m.info_hash()->Some_0)]),
            latest(e.probes, m.id),
            target,
        ),
        (m.info_hash() matches Some(h) ==> !e.trackers.contains_key(lower(h))) ==> score_of(
            m,
            e,
            target,
        ) == auto_score(m, latest(e.found, m.id), None, latest(e.probes, m.id), target),
{
}

/// A ranking goes from the best score to the worst, those with equal scores in the order
/// in which they came, and leaves none out.
pub proof fn law_ranking_goes_by_score(c: Seq<Media>, e: Evidence, i: int, j: int)
    requires
        0 <= i < j < c.len(),
    ensures
        ({
            let order = ranking(c, e);
            let target = usual_size(c, e.found);
            let a = score_of(c[order[i]], e, target).key();
            let b = score_of(c[order[j]], e, target).key();
            &&& order.len() == c.len() && order.no_duplicates()
            &&& 0 <= order[i] < c.len() && 0 <= order[j] < c.len()
            &&& key_ge(a, b)
            &&& a == b ==> order[i] < order[j]
        }),
{
    let keys = score_keys(c, e, usual_size(c, e.found));
    law_ranking(keys);
    let order = ranked(keys);
    lemma_key_is_at_least_itself(keys[order[j]]);
}

/// Twelve swarms are tried at most.
pub proof fn law_twelve_swarms_are_tried(c: Seq<Media>, e: Evidence, k: int)
    requires
        0 <= k < c.len(),
    ensures
        auto_pick(c, e).len() <= 12,
        swarm_among(c, auto_pick(c, e), failure_token(c[k])) || auto_pick(c, e).len() == 12,
{
    let order = ranking(c, e);
    law_ranking(score_keys(c, e, usual_size(c, e.found)));
    law_shortlist(c, order);
    assert(order.contains(k));
    let i = choose|i: int| 0 <= i < order.len() && order[i] == k;
    assert(c[order[i]] == c[k]);
}

} // verus!
