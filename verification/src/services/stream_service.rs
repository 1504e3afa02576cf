//! Which streams of an item are offered, and what is remembered of the choices.
//!
//! An item can be played from an automatic source: one name for each
//! resolution, behind which the server picks a torrent. What was picked, what
//! failed and what to fall back to is kept in the store for a while.

use vstd::prelude::*;

use crate::ids::{hyphenated_id, hyphenated_text, name_id, url_name_id};
use super::auto_select::{at_most, derefs};
use crate::media::{Media, MediaKind};
use crate::playback::source::{first_of, MediaStreamType};
use crate::store::{
    copy_ids, expiry, AutoRankedChoice, AutoSessionChoice, RankedView, SessionView, Store, Stored,
    StoredView,
};
use crate::text::{concat2, concat3, ends, ends_with, lower, str_opt, text_opt, to_lower};

verus! {

// ---------------------------------------------------------------------------
// Texts
// ---------------------------------------------------------------------------

/// The resolutions at which an item has an automatic source.
pub open spec fn auto_resolutions() -> Seq<Seq<char>> {
    seq!["4K"@, "1080p"@, "720p"@, "480p"@, "1440p"@]
}

/// The name that numbers the automatic source of an item.
pub open spec fn auto_name(item_id: u128, resolution: Seq<char>) -> Seq<char> {
    hyphenated_id(item_id) + "-auto-"@ + resolution
}

/// The automatic source of an item at a resolution.
pub open spec fn auto_id(item_id: u128, resolution: Seq<char>) -> u128 {
    url_name_id(auto_name(item_id, resolution))
}

/// The first of some resolutions whose automatic source is `id`.
pub open spec fn resolution_among(
    resolutions: Seq<Seq<char>>,
    item_id: u128,
    id: u128,
) -> Option<Seq<char>>
    decreases resolutions.len(),
{
    if resolutions.len() == 0 {
        None
    } else if auto_id(item_id, resolutions[0]) == id {
        Some(resolutions[0])
    } else {
        resolution_among(resolutions.skip(1), item_id, id)
    }
}

/// The resolution of an automatic source.
pub open spec fn resolution_of(item_id: u128, id: u128) -> Option<Seq<char>> {
    resolution_among(auto_resolutions(), item_id, id)
}

pub open spec fn session_key(play_session_id: Seq<char>) -> Seq<char> {
    "auto-session-winner:"@ + play_session_id
}

pub open spec fn choice_key(item_id: u128, resolution: Seq<char>) -> Seq<char> {
    "auto-choice:"@ + hyphenated_id(item_id) + ":"@ + lower(resolution)
}

pub open spec fn ranked_key(item_id: u128, resolution: Seq<char>) -> Seq<char> {
    "auto-ranked-choice:"@ + hyphenated_id(item_id) + ":"@ + lower(resolution)
}

pub open spec fn failed_key(item_id: u128, resolution: Seq<char>, token: Seq<char>) -> Seq<char> {
    "auto-failed:"@ + hyphenated_id(item_id) + ":"@ + lower(resolution) + ":"@ + lower(token)
}

pub open spec fn attempt_key(play_session_id: Seq<char>, candidate_id: u128) -> Seq<char> {
    "auto-failover-attempt:"@ + play_session_id + ":"@ + hyphenated_id(candidate_id)
}

pub open spec fn slot_key(play_session_id: Seq<char>) -> Seq<char> {
    "auto-failover-slot:"@ + play_session_id
}

pub open spec fn preference_key(item_id: u128, device_key: Seq<char>) -> Seq<char> {
    "pstream:"@ + hyphenated_id(item_id) + ":"@ + device_key
}

pub open spec fn group_item_key(user_id: u128, group_id: u128) -> Seq<char> {
    "gitem:"@ + hyphenated_id(user_id) + ":"@ + hyphenated_id(group_id)
}

/// What stands for a candidate when it fails: the swarm, or the candidate
/// itself where it is no torrent.
pub open spec fn failure_token(candidate: Media) -> Seq<char> {
    match candidate.info_hash() {
        Some(h) => lower(h),
        None => hyphenated_id(candidate.id),
    }
}

fn id_then_text(prefix: &str, id: u128, rest: &str) -> (key: String)
    ensures
        key@ == prefix@ + hyphenated_id(id) + ":"@ + rest@,
{
    let id = hyphenated_text(id);
    let head = concat3(prefix, id.as_str(), ":");
    concat2(head.as_str(), rest)
}

// ---------------------------------------------------------------------------
// The memory of automatic choices
// ---------------------------------------------------------------------------

/// The most candidates that a playback may try, the first one included.
pub const AUTO_SESSION_CANDIDATE_LIMIT: usize = 12;

/// How long the pick for a resolution is remembered. It is only a hint.
pub const AUTO_CHOICE_TTL_MS: u64 = 300_000;

pub const AUTO_SESSION_TTL_MS: u64 = 21_600_000;

pub const FAILOVER_ATTEMPT_TTL_MS: u64 = 60_000;

pub const FAILOVER_SLOT_TTL_MS: u64 = 600_000;

pub const FAILED_CANDIDATE_TTL_MS: u64 = 600_000;

pub const PREFERENCE_TTL_MS: u64 = 86_400_000;

pub const GROUP_ITEM_TTL_MS: u64 = 604_800_000;

pub open spec fn all_but(winner_id: u128) -> spec_fn(u128) -> bool {
    |id: u128| id != winner_id
}

/// Those to fall back to: all but the winner, as many as may be tried.
pub open spec fn fallbacks_of(ids: Seq<u128>, winner_id: u128) -> Seq<u128> {
    let others = ids.filter(all_but(winner_id));
    if others.len() < AUTO_SESSION_CANDIDATE_LIMIT {
        others
    } else {
        others.take(AUTO_SESSION_CANDIDATE_LIMIT - 1)
    }
}

fn keep_fallbacks(ids: &Vec<u128>, winner_id: u128) -> (r: Vec<u128>)
    ensures
        r@ == fallbacks_of(ids@, winner_id),
{
    let mut r: Vec<u128> = Vec::new();
    let ghost other = all_but(winner_id);
    let ghost limit = AUTO_SESSION_CANDIDATE_LIMIT - 1;
    proof {
        reveal(Seq::filter);
        assert(ids@.take(0).filter(other) =~= Seq::<u128>::empty());
    }
    let mut i: usize = 0;
    while i < ids.len() && r.len() < AUTO_SESSION_CANDIDATE_LIMIT - 1
        invariant
            i <= ids.len(),
            r@.len() < AUTO_SESSION_CANDIDATE_LIMIT,
            other == all_but(winner_id),
            r@ == ids@.take(i as int).filter(other),
        decreases ids.len() - i,
    {
        proof {
            reveal(Seq::filter);
            assert(ids@.take(i + 1).drop_last() =~= ids@.take(i as int));
            assert(ids@.take(i + 1).last() == ids@[i as int]);
        }
        if ids[i] != winner_id {
            r.push(ids[i]);
        }
        i = i + 1;
    }
    proof {
        let rest = ids@.skip(i as int);
        assert(ids@ =~= ids@.take(i as int) + rest);
        Seq::filter_distributes_over_add(ids@.take(i as int), rest, other);
        assert(ids@.filter(other) =~= r@ + rest.filter(other));
        if i < ids@.len() {
            assert(ids@.filter(other).take(limit) =~= r@);
        } else {
            assert(rest =~= Seq::<u128>::empty());
            assert(rest.filter(other) =~= Seq::<u128>::empty()) by {
                reveal(Seq::filter);
            }
            assert(ids@.filter(other) =~= r@);
        }
        if ids@.filter(other).len() >= AUTO_SESSION_CANDIDATE_LIMIT {
            assert(ids@.filter(other).take(limit) =~= r@);
        } else if i < ids@.len() {
            assert(r@.len() == limit);
            assert(ids@.filter(other) =~= r@);
        }
    }
    r
}

/// The ranking of an item's candidates, winner first, or nothing.
pub open spec fn ranking_at(store: Store, key: Seq<char>, now: u64) -> Seq<u128> {
    match store.at(key, now) {
        Some(StoredView::Ranked(r)) => seq![r.winner_id] + r.fallback_ids,
        _ => Seq::empty(),
    }
}

/// The choice of a playback.
pub open spec fn session_at(store: Store, play_session_id: Seq<char>, now: u64) -> Option<
    SessionView,
> {
    match store.at(session_key(play_session_id), now) {
        Some(StoredView::Session(c)) => Some(c),
        _ => None,
    }
}

/// What selects the streams of one playback request.
pub struct StreamService {
    pub item_id: u128,
    pub requested_id: Option<u128>,
    pub show_ungrouped: bool,
    pub user_id: Option<u128>,
    /// The group that was asked for: its identifier, its title and its streams.
    pub group: Option<(u128, String, Vec<Media>)>,
    pub streams: Vec<Media>,
    /// Where the chosen stream stands, once there is one.
    pub stream: Option<StreamPlace>,
}

/// The first stream of the group, or the first of all streams.
#[derive(Debug, Clone, Copy, PartialEq, Eq, Structural)]
pub enum StreamPlace {
    Group,
    Streams,
}

impl StreamService {
    pub fn auto_source_id(item_id: u128, resolution: &str) -> (id: u128)
        ensures
            id == auto_id(item_id, resolution@),
    {
        let item = hyphenated_text(item_id);
        let name = concat3(item.as_str(), "-auto-", resolution);
        name_id(name.as_str())
    }

    pub fn auto_session_winner_key(play_session_id: &str) -> (key: String)
        ensures
            key@ == session_key(play_session_id@),
    {
        concat2("auto-session-winner:", play_session_id)
    }

    pub fn auto_choice_key(item_id: u128, resolution: &str) -> (key: String)
        ensures
            key@ == choice_key(item_id, resolution@),
    {
        id_then_text("auto-choice:", item_id, to_lower(resolution).as_str())
    }

    pub fn auto_ranked_choice_key(item_id: u128, resolution: &str) -> (key: String)
        ensures
            key@ == ranked_key(item_id, resolution@),
    {
        id_then_text("auto-ranked-choice:", item_id, to_lower(resolution).as_str())
    }

    pub fn auto_failed_candidate_key(item_id: u128, resolution: &str, failure_token: &str) -> (key:
        String)
        ensures
            key@ == failed_key(item_id, resolution@, failure_token@),
    {
        let head = id_then_text("auto-failed:", item_id, to_lower(resolution).as_str());
        concat3(head.as_str(), ":", to_lower(failure_token).as_str())
    }

    pub fn auto_candidate_failure_token(candidate: &Media) -> (token: String)
        ensures
            token@ == failure_token(*candidate),
    {
        match candidate.torrent_info_hash() {
            Some(h) => to_lower(h),
            None => hyphenated_text(candidate.id),
        }
    }

    pub fn auto_failover_attempt_key(play_session_id: &str, candidate_id: u128) -> (key: String)
        ensures
            key@ == attempt_key(play_session_id@, candidate_id),
    {
        let id = hyphenated_text(candidate_id);
        let head = concat3("auto-failover-attempt:", play_session_id, ":");
        concat2(head.as_str(), id.as_str())
    }

    pub fn auto_failover_slot_key(play_session_id: &str) -> (key: String)
        ensures
            key@ == slot_key(play_session_id@),
    {
        concat2("auto-failover-slot:", play_session_id)
    }

    /// The resolution whose automatic source this is.
    pub fn auto_resolution(item_id: u128, auto_id: u128) -> (r: Option<&'static str>)
        ensures
            str_opt(r) == resolution_of(item_id, auto_id),
    {
        proof {
            let all = auto_resolutions();
            reveal_with_fuel(resolution_among, 6);
            assert(all.skip(1) =~= seq!["1080p"@, "720p"@, "480p"@, "1440p"@]);
            assert(all.skip(1).skip(1) =~= seq!["720p"@, "480p"@, "1440p"@]);
            assert(all.skip(1).skip(1).skip(1) =~= seq!["480p"@, "1440p"@]);
            assert(all.skip(1).skip(1).skip(1).skip(1) =~= seq!["1440p"@]);
            assert(all.skip(1).skip(1).skip(1).skip(1).skip(1) =~= Seq::<Seq<char>>::empty());
        }
        if Self::auto_source_id(item_id, "4K") == auto_id {
            Some("4K")
        } else if Self::auto_source_id(item_id, "1080p") == auto_id {
            Some("1080p")
        } else if Self::auto_source_id(item_id, "720p") == auto_id {
            Some("720p")
        } else if Self::auto_source_id(item_id, "480p") == auto_id {
            Some("480p")
        } else if Self::auto_source_id(item_id, "1440p") == auto_id {
            Some("1440p")
        } else {
            None
        }
    }

    /// Remembers the pick for a resolution.
    pub fn remember_auto_choice(
        store: &mut Store,
        item_id: u128,
        resolution: &str,
        winner_id: u128,
        now: u64,
    )
        requires
            old(store).wf(),
        ensures
            final(store).wf(),
            final(store).view() == old(store).view().insert(
                choice_key(item_id, resolution@),
                (StoredView::Id(winner_id), expiry(now, AUTO_CHOICE_TTL_MS)),
            ),
    {
        let key = Self::auto_choice_key(item_id, resolution);
        store.save(key, Stored::Id(winner_id), AUTO_CHOICE_TTL_MS, now);
    }

    /// The pick for a resolution that is remembered.
    pub fn auto_choice(store: &Store, item_id: u128, resolution: &str, now: u64) -> (r: Option<
        u128,
    >)
        requires
            store.wf(),
        ensures
            r == store.id_at(choice_key(item_id, resolution@), now),
    {
        let key = Self::auto_choice_key(item_id, resolution);
        store.get_id(key.as_str(), now)
    }

    /// Remembers the ranking of an item's candidates.
    pub fn remember_ranking(
        store: &mut Store,
        item_id: u128,
        resolution: &str,
        winner_id: u128,
        fallback_ids: Vec<u128>,
        now: u64,
    )
        requires
            old(store).wf(),
        ensures
            final(store).wf(),
            final(store).view() == old(store).view().insert(
                ranked_key(item_id, resolution@),
                (
                    StoredView::Ranked(RankedView { winner_id, fallback_ids: fallback_ids@ }),
                    expiry(now, AUTO_CHOICE_TTL_MS),
                ),
            ),
    {
        let key = Self::auto_ranked_choice_key(item_id, resolution);
        let choice = Stored::Ranked(AutoRankedChoice { winner_id, fallback_ids });
        store.save(key, choice, AUTO_CHOICE_TTL_MS, now);
    }

    fn ranking(store: &Store, key: &str, now: u64) -> (r: Vec<u128>)
        requires
            store.wf(),
        ensures
            r@ == ranking_at(*store, key@, now),
    {
        match store.get(key, now) {
            Some(Stored::Ranked(choice)) => {
                let mut r = copy_ids(&choice.fallback_ids);
                r.insert(0, choice.winner_id);
                assert(r@ =~= seq![choice.winner_id] + choice.fallback_ids@);
                r
            },
            _ => Vec::new(),
        }
    }

    /// Settles a playback of an automatic source on a candidate. The others of
    /// the ranking remain to fall back to. A source that is none of the item's
    /// automatic ones is refused.
    pub fn pin_auto_session_winner(
        store: &mut Store,
        play_session_id: &str,
        item_id: u128,
        auto_id: u128,
        winner_id: u128,
        user_id: Option<u128>,
        now: u64,
    )
        requires
            old(store).wf(),
        ensures
            final(store).wf(),
            final(store).view() == match resolution_of(item_id, auto_id) {
                None => old(store).view(),
                Some(resolution) => old(store).view().insert(
                    session_key(play_session_id@),
                    (
                        StoredView::Session(
                            SessionView {
                                item_id,
                                resolution,
                                winner_id,
                                fallback_ids: fallbacks_of(
                                    ranking_at(*old(store), ranked_key(item_id, resolution), now),
                                    winner_id,
                                ),
                                user_id,
                            },
                        ),
                        expiry(now, AUTO_SESSION_TTL_MS),
                    ),
                ),
            },
    {
        let resolution = match Self::auto_resolution(item_id, auto_id) {
            Some(r) => r,
            None => {
                return;
            },
        };
        let key = Self::auto_ranked_choice_key(item_id, resolution);
        let ids = Self::ranking(store, key.as_str(), now);
        let fallback_ids = keep_fallbacks(&ids, winner_id);
        let choice = AutoSessionChoice {
            item_id,
            resolution: resolution.to_owned(),
            winner_id,
            fallback_ids,
            user_id,
        };
        store.save(
            Self::auto_session_winner_key(play_session_id),
            Stored::Session(choice),
            AUTO_SESSION_TTL_MS,
            now,
        );
    }

    /// Gives a playback another winner and other fallbacks; says whether it had
    /// a choice to change.
    pub fn update_auto_session_choice(
        store: &mut Store,
        play_session_id: &str,
        winner_id: u128,
        fallback_ids: Vec<u128>,
        now: u64,
    ) -> (changed: bool)
        requires
            old(store).wf(),
        ensures
            final(store).wf(),
            match session_at(*old(store), play_session_id@, now) {
                None => !changed && final(store).view() == old(store).view(),
                Some(c) => changed && final(store).view() == old(store).view().insert(
                    session_key(play_session_id@),
                    (
                        StoredView::Session(
                            SessionView {
                                winner_id,
                                fallback_ids: fallbacks_of(fallback_ids@, winner_id),
                                ..c
                            },
                        ),
                        expiry(now, AUTO_SESSION_TTL_MS),
                    ),
                ),
            },
    {
        match Self::auto_session_choice(store, play_session_id, now) {
            None => false,
            Some(c) => {
                let choice = AutoSessionChoice {
                    item_id: c.item_id,
                    resolution: c.resolution,
                    winner_id,
                    fallback_ids: keep_fallbacks(&fallback_ids, winner_id),
                    user_id: c.user_id,
                };
                store.save(
                    Self::auto_session_winner_key(play_session_id),
                    Stored::Session(choice),
                    AUTO_SESSION_TTL_MS,
                    now,
                );
                true
            },
        }
    }

    pub fn auto_session_choice(store: &Store, play_session_id: &str, now: u64) -> (r: Option<
        AutoSessionChoice,
    >)
        requires
            store.wf(),
        ensures
            match r {
                Some(c) => session_at(*store, play_session_id@, now) == Some(c@),
                None => session_at(*store, play_session_id@, now) is None,
            },
    {
        let key = Self::auto_session_winner_key(play_session_id);
        match store.get(key.as_str(), now) {
            Some(Stored::Session(c)) => Some(c.duplicate()),
            _ => None,
        }
    }

    pub fn auto_session_winner(store: &Store, play_session_id: &str, now: u64) -> (r: Option<u128>)
        requires
            store.wf(),
        ensures
            r == match session_at(*store, play_session_id@, now) {
                Some(c) => Some(c.winner_id),
                None => None,
            },
    {
        match Self::auto_session_choice(store, play_session_id, now) {
            Some(c) => Some(c.winner_id),
            None => None,
        }
    }

    pub fn clear_auto_session_winner(store: &mut Store, play_session_id: &str)
        requires
            old(store).wf(),
        ensures
            final(store).wf(),
            final(store).view() == old(store).view().remove(session_key(play_session_id@)),
    {
        let key = Self::auto_session_winner_key(play_session_id);
        store.delete(key.as_str());
    }

    /// Claims the right to try a candidate; says whether it was free.
    pub fn claim_auto_failover_attempt(
        store: &mut Store,
        play_session_id: &str,
        candidate_id: u128,
        now: u64,
    ) -> (claimed: bool)
        requires
            old(store).wf(),
        ensures
            final(store).wf(),
            claims(
                *old(store),
                *final(store),
                attempt_key(play_session_id@, candidate_id),
                FAILOVER_ATTEMPT_TTL_MS,
                now,
                claimed,
            ),
    {
        let key = Self::auto_failover_attempt_key(play_session_id, candidate_id);
        store.insert(key, Stored::Mark, FAILOVER_ATTEMPT_TTL_MS, now)
    }

    /// Claims the one change of source that a playback is granted after its
    /// source was selected; says whether it was free.
    pub fn claim_auto_failover_slot(store: &mut Store, play_session_id: &str, now: u64) -> (claimed:
        bool)
        requires
            old(store).wf(),
        ensures
            final(store).wf(),
            claims(
                *old(store),
                *final(store),
                slot_key(play_session_id@),
                FAILOVER_SLOT_TTL_MS,
                now,
                claimed,
            ),
    {
        let key = Self::auto_failover_slot_key(play_session_id);
        store.insert(key, Stored::Mark, FAILOVER_SLOT_TTL_MS, now)
    }

    /// Keeps a candidate from being picked for a while, and forgets the pick
    /// and the ranking that it may stand in.
    pub fn mark_auto_candidate_failed(
        store: &mut Store,
        item_id: u128,
        resolution: &str,
        candidate: &Media,
        now: u64,
    )
        requires
            old(store).wf(),
        ensures
            final(store).wf(),
            final(store).view() == old(store).view().insert(
                failed_key(item_id, resolution@, failure_token(*candidate)),
                (StoredView::Mark, expiry(now, FAILED_CANDIDATE_TTL_MS)),
            ).remove(choice_key(item_id, resolution@)).remove(ranked_key(item_id, resolution@)),
    {
        let token = Self::auto_candidate_failure_token(candidate);
        let key = Self::auto_failed_candidate_key(item_id, resolution, token.as_str());
        store.save(key, Stored::Mark, FAILED_CANDIDATE_TTL_MS, now);
        let choice = Self::auto_choice_key(item_id, resolution);
        store.delete(choice.as_str());
        let ranked = Self::auto_ranked_choice_key(item_id, resolution);
        store.delete(ranked.as_str());
    }

    pub fn clear_auto_candidate_failed(
        store: &mut Store,
        item_id: u128,
        resolution: &str,
        candidate: &Media,
    )
        requires
            old(store).wf(),
        ensures
            final(store).wf(),
            final(store).view() == old(store).view().remove(
                failed_key(item_id, resolution@, failure_token(*candidate)),
            ),
    {
        let token = Self::auto_candidate_failure_token(candidate);
        let key = Self::auto_failed_candidate_key(item_id, resolution, token.as_str());
        store.delete(key.as_str());
    }

    pub fn is_auto_candidate_failed(
        store: &Store,
        item_id: u128,
        resolution: &str,
        candidate: &Media,
        now: u64,
    ) -> (r: bool)
        requires
            store.wf(),
        ensures
            r == recently_failed(*store, item_id, resolution@, *candidate, now),
    {
        let token = Self::auto_candidate_failure_token(candidate);
        let key = Self::auto_failed_candidate_key(item_id, resolution, token.as_str());
        store.is_marked(key.as_str(), now)
    }

    /// Remembers which item of a user a group belongs to.
    pub fn save_group_item(store: &mut Store, user_id: u128, group_id: u128, item_id: u128, now: u64)
        requires
            old(store).wf(),
        ensures
            final(store).wf(),
            final(store).view() == old(store).view().insert(
                group_item_key(user_id, group_id),
                (StoredView::Id(item_id), expiry(now, GROUP_ITEM_TTL_MS)),
            ),
    {
        let group = hyphenated_text(group_id);
        let key = id_then_text("gitem:", user_id, group.as_str());
        store.save(key, Stored::Id(item_id), GROUP_ITEM_TTL_MS, now);
    }

    /// The item of a user that a group belongs to.
    pub fn get_group_item(store: &Store, user_id: u128, group_id: u128, now: u64) -> (r: Option<
        u128,
    >)
        requires
            store.wf(),
        ensures
            r == store.id_at(group_item_key(user_id, group_id), now),
    {
        let group = hyphenated_text(group_id);
        let key = id_then_text("gitem:", user_id, group.as_str());
        store.get_id(key.as_str(), now)
    }
}

/// What a claim does: it succeeds where nothing holds under the text, and only
/// then is a mark kept.
pub open spec fn claims(
    before: Store,
    after: Store,
    key: Seq<char>,
    ttl: u64,
    now: u64,
    claimed: bool,
) -> bool {
    &&& claimed == (before.at(key, now) is None)
    &&& after.view() == if claimed {
        before.view().insert(key, (StoredView::Mark, expiry(now, ttl)))
    } else {
        before.view()
    }
}

/// Whether a candidate failed a short while ago.
pub open spec fn recently_failed(
    store: Store,
    item_id: u128,
    resolution: Seq<char>,
    candidate: Media,
    now: u64,
) -> bool {
    store.marked(failed_key(item_id, resolution, failure_token(candidate)), now)
}

// ---------------------------------------------------------------------------
// Loading
// ---------------------------------------------------------------------------

/// How the streams of a thing are found.
#[derive(Debug, Clone, Copy, PartialEq, Eq, Structural)]
pub enum LoadPlan {
    /// The thing is an automatic source and stands for itself.
    Automatic,
    /// The thing is a group of streams.
    Group,
    /// The streams are those of the thing or of what it belongs to.
    Root,
}

pub open spec fn load_plan(kind: MediaKind, title: Seq<char>) -> LoadPlan {
    if kind is Stream && ends(title, "(auto)"@) {
        LoadPlan::Automatic
    } else if kind is StreamGroup {
        LoadPlan::Group
    } else {
        LoadPlan::Root
    }
}

pub fn plan_load(media: &Media) -> (r: LoadPlan)
    ensures
        r == load_plan(media.kind, media.title@),
{
    if media.kind == MediaKind::Stream && ends_with(media.title.as_str(), "(auto)") {
        LoadPlan::Automatic
    } else if media.kind == MediaKind::StreamGroup {
        LoadPlan::Group
    } else {
        LoadPlan::Root
    }
}

/// The streams of a root: those that are known, or the root itself where there
/// are none and it can be played.
pub fn raw_streams(root: Media, known: Vec<Media>) -> (r: Vec<Media>)
    ensures
        r@ == if known@.len() > 0 {
            known@
        } else if root.stream_info is Some {
            seq![root]
        } else {
            Seq::empty()
        },
{
    if known.len() > 0 {
        known
    } else if root.stream_info.is_some() {
        let mut r: Vec<Media> = Vec::new();
        r.push(root);
        assert(r@ =~= seq![root]);
        r
    } else {
        Vec::new()
    }
}

/// Whether the user's stream rules apply: there are some, and the root is a
/// film or an episode.
pub fn stream_filter_applies(rule_count: usize, root_kind: MediaKind) -> (r: bool)
    ensures
        r == (rule_count > 0 && (root_kind is Movie || root_kind is Episode)),
{
    rule_count > 0 && (root_kind == MediaKind::Movie || root_kind == MediaKind::Episode)
}

/// Why no stream is found.
#[derive(Debug, Clone, Copy, PartialEq, Eq, Structural)]
pub enum LookupError {
    /// There is no stream with this identifier.
    NotFound(u128),
    /// This item has no streams.
    NoPlayable(u128),
    /// This group has no streams.
    EmptyGroup(u128),
}

impl LookupError {
    pub open spec fn text(&self) -> Seq<char> {
        match self {
            LookupError::NotFound(id) => "stream not found: "@ + hyphenated_id(*id),
            LookupError::NoPlayable(id) => "no playable sources for "@ + hyphenated_id(*id),
            LookupError::EmptyGroup(id) => "no streams available for group "@ + hyphenated_id(*id),
        }
    }

    pub fn message(&self) -> (s: String)
        ensures
            s@ == self.text(),
    {
        match self {
            LookupError::NotFound(id) => concat2("stream not found: ", hyphenated_text(*id).as_str()),
            LookupError::NoPlayable(id) => concat2(
                "no playable sources for ",
                hyphenated_text(*id).as_str(),
            ),
            LookupError::EmptyGroup(id) => concat2(
                "no streams available for group ",
                hyphenated_text(*id).as_str(),
            ),
        }
    }
}

/// What a request is about.
pub struct StreamServiceConfig {
    pub item_id: u128,
    pub requested_id: Option<u128>,
    pub show_ungrouped: bool,
    pub user_id: Option<u128>,
}

fn push_media(list: &mut Vec<Media>, more: Vec<Media>)
    ensures
        final(list)@ == old(list)@ + more@,
{
    let mut more = more;
    list.append(&mut more);
}

impl StreamService {
    /// The chosen stream is there.
    pub open spec fn wf(&self) -> bool {
        &&& self.group matches Some(g) ==> g.2@.len() > 0 && self.stream is Some
        &&& match self.stream {
            Some(StreamPlace::Group) => self.group is Some,
            Some(StreamPlace::Streams) => self.streams@.len() > 0,
            None => self.streams@.len() == 0,
        }
    }

    /// The chosen stream.
    pub open spec fn chosen(&self) -> Media {
        match self.stream {
            Some(StreamPlace::Group) => self.group->Some_0.2@[0],
            _ => self.streams@[0],
        }
    }

    pub fn new(cfg: StreamServiceConfig) -> (r: StreamService)
        ensures
            r.wf(),
            r.item_id == cfg.item_id,
            r.requested_id == cfg.requested_id,
            r.show_ungrouped == cfg.show_ungrouped,
            r.user_id == cfg.user_id,
            r.group is None,
            r.stream is None,
            r.streams@.len() == 0,
    {
        StreamService {
            item_id: cfg.item_id,
            requested_id: cfg.requested_id,
            show_ungrouped: cfg.show_ungrouped,
            user_id: cfg.user_id,
            group: None,
            streams: Vec::new(),
            stream: None,
        }
    }

    /// Takes the streams that were found. Where there are none, nothing
    /// changes.
    pub fn set_streams(&mut self, streams: Vec<Media>)
        requires
            old(self).wf(),
        ensures
            final(self).wf(),
            streams@.len() == 0 ==> *final(self) == *old(self),
            streams@.len() > 0 ==> *final(self) == (StreamService {
                streams,
                stream: Some(StreamPlace::Streams),
                ..*old(self)
            }),
    {
        if streams.len() > 0 {
            self.streams = streams;
            self.stream = Some(StreamPlace::Streams);
        }
    }

    /// Takes a group with its streams; those of the groups behind it follow.
    pub fn resolve_stream_group(
        &mut self,
        id: u128,
        title: String,
        streams: Vec<Media>,
        cascade: Vec<Media>,
    ) -> (r: Result<(), LookupError>)
        requires
            old(self).wf(),
        ensures
            final(self).wf(),
            streams@.len() == 0 ==> r == Err::<(), LookupError>(LookupError::EmptyGroup(id))
                && *final(self) == *old(self),
            streams@.len() > 0 ==> {
                &&& r is Ok
                &&& final(self).group matches Some(g) && g.0 == id && g.1 == title && g.2@
                    == streams@ + cascade@
                &&& final(self).stream == Some(StreamPlace::Group)
                &&& final(self).item_id == old(self).item_id
                &&& final(self).requested_id == old(self).requested_id
                &&& final(self).show_ungrouped == old(self).show_ungrouped
                &&& final(self).user_id == old(self).user_id
                &&& final(self).streams == old(self).streams
            },
    {
        if streams.len() == 0 {
            return Err(LookupError::EmptyGroup(id));
        }
        let mut all = streams;
        push_media(&mut all, cascade);
        self.group = Some((id, title, all));
        self.stream = Some(StreamPlace::Group);
        Ok(())
    }

    /// The chosen stream.
    pub fn candidate(&self) -> (r: &Media)
        requires
            self.wf(),
            self.stream is Some,
        ensures
            *r == self.chosen(),
    {
        match self.stream {
            Some(StreamPlace::Group) => match &self.group {
                Some(g) => &g.2[0],
                None => &self.streams[0],
            },
            _ => &self.streams[0],
        }
    }

    pub fn group(&self) -> (r: Option<&(u128, String, Vec<Media>)>)
        ensures
            match r {
                Some(g) => self.group == Some(*g),
                None => self.group is None,
            },
    {
        match &self.group {
            Some(g) => Some(g),
            None => None,
        }
    }

    /// The identifier that a client sees: the group's, or the stream's.
    pub open spec fn id_for(&self, effective: Media) -> u128 {
        match self.group {
            Some(g) => g.0,
            None => effective.id,
        }
    }

    pub fn client_facing_id(&self) -> (r: u128)
        requires
            self.wf(),
            self.stream is Some,
        ensures
            r == self.id_for(self.chosen()),
    {
        match &self.group {
            Some(g) => g.0,
            None => self.candidate().id,
        }
    }

    pub fn source_id_for(&self, effective: &Media) -> (r: u128)
        ensures
            r == self.id_for(*effective),
    {
        match &self.group {
            Some(g) => g.0,
            None => effective.id,
        }
    }

    /// The name that a client sees: the group's title, or the display name of
    /// the stream.
    pub fn source_name_for(&self, display_name: &str) -> (r: String)
        ensures
            r@ == match self.group {
                Some(g) => g.1@,
                None => display_name@,
            },
    {
        match &self.group {
            Some(g) => g.1.clone(),
            None => display_name.to_owned(),
        }
    }
}

// ---------------------------------------------------------------------------
// Looking up one stream
// ---------------------------------------------------------------------------

/// How a single stream is found.
#[derive(Debug, Clone, Copy, PartialEq, Eq, Structural)]
pub enum LookupPlan {
    /// It is the first of the group.
    Group,
    /// It is one of the sources of the thing.
    Sources,
    /// It is the thing itself.
    Itself,
}

pub fn plan_lookup(kind: MediaKind) -> (r: LookupPlan)
    ensures
        r == if kind is StreamGroup {
            LookupPlan::Group
        } else if kind is Movie || kind is Episode || kind is Track {
            LookupPlan::Sources
        } else {
            LookupPlan::Itself
        },
{
    match kind {
        MediaKind::StreamGroup => LookupPlan::Group,
        MediaKind::Movie => LookupPlan::Sources,
        MediaKind::Episode => LookupPlan::Sources,
        MediaKind::Track => LookupPlan::Sources,
        _ => LookupPlan::Itself,
    }
}

/// The first stream with an identifier.
pub open spec fn first_with_id(streams: Seq<Media>, id: u128) -> Option<Media>
    decreases streams.len(),
{
    if streams.len() == 0 {
        None
    } else if streams[0].id == id {
        Some(streams[0])
    } else {
        first_with_id(streams.skip(1), id)
    }
}

fn find_stream<'a>(streams: &'a Vec<Media>, id: u128) -> (r: Option<&'a Media>)
    ensures
        crate::services::auto_score::deref(r) == first_with_id(streams@, id),
{
    let mut i: usize = 0;
    assert(streams@.skip(0) =~= streams@);
    while i < streams.len()
        invariant
            i <= streams.len(),
            first_with_id(streams@, id) == first_with_id(streams@.skip(i as int), id),
        decreases streams.len() - i,
    {
        if streams[i].id == id {
            return Some(&streams[i]);
        }
        assert(streams@.skip(i as int).skip(1) =~= streams@.skip(i + 1));
        i = i + 1;
    }
    None
}

/// The first stream of a group.
pub fn first_of_group<'a>(streams: &'a Vec<Media>, group_id: u128) -> (r: Result<
    &'a Media,
    LookupError,
>)
    ensures
        match r {
            Ok(m) => streams@.len() > 0 && *m == streams@[0],
            Err(e) => streams@.len() == 0 && e == LookupError::EmptyGroup(group_id),
        },
{
    if streams.len() == 0 {
        Err(LookupError::EmptyGroup(group_id))
    } else {
        Ok(&streams[0])
    }
}

/// The source that is asked for: the one that is named, or the one that the
/// device played before, or the first.
pub open spec fn wanted_source(
    sources: Seq<Media>,
    item_id: u128,
    requested_id: Option<u128>,
    remembered: Option<u128>,
) -> Result<Media, LookupError> {
    match requested_id {
        Some(sid) if sid != item_id => match first_with_id(sources, sid) {
            Some(m) => Ok(m),
            None => Err(LookupError::NotFound(sid)),
        },
        _ => {
            let preferred = match remembered {
                Some(id) => first_with_id(sources, id),
                None => None,
            };
            match preferred {
                Some(m) => Ok(m),
                None => if sources.len() > 0 {
                    Ok(sources[0])
                } else {
                    Err(LookupError::NoPlayable(item_id))
                },
            }
        },
    }
}

pub fn choose_source<'a>(
    sources: &'a Vec<Media>,
    item_id: u128,
    requested_id: Option<u128>,
    device_key: Option<&str>,
    store: &Store,
    now: u64,
) -> (r: Result<&'a Media, LookupError>)
    requires
        store.wf(),
    ensures
        ({
            let remembered = match device_key {
                Some(key) => store.id_at(preference_key(item_id, key@), now),
                None => None,
            };
            let wanted = wanted_source(sources@, item_id, requested_id, remembered);
            match r {
                Ok(m) => wanted == Ok::<Media, LookupError>(*m),
                Err(e) => wanted == Err::<Media, LookupError>(e),
            }
        }),
{
    if let Some(sid) = requested_id {
        if sid != item_id {
            return match find_stream(sources, sid) {
                Some(m) => Ok(m),
                None => Err(LookupError::NotFound(sid)),
            };
        }
    }
    if let Some(key) = device_key {
        let key = id_then_text("pstream:", item_id, key);
        if let Some(id) = store.get_id(key.as_str(), now) {
            if let Some(m) = find_stream(sources, id) {
                return Ok(m);
            }
        }
    }
    if sources.len() > 0 {
        Ok(&sources[0])
    } else {
        Err(LookupError::NoPlayable(item_id))
    }
}

// ---------------------------------------------------------------------------
// Selection
// ---------------------------------------------------------------------------

/// The streams to present and to probe.
pub struct StreamSelection<'a> {
    pub candidates: Vec<&'a Media>,
    /// The streams among which another is tried when a probe fails.
    pub probe_pool: &'a Vec<Media>,
    /// Whether that other one must have the same resolution.
    pub restrict_resolution: bool,
    pub probe_only_first: bool,
    /// Whether the client named a stream, which then keeps its identifier.
    pub specific_requested: bool,
}

pub ghost struct SelectionView {
    pub candidates: Seq<Media>,
    pub probe_pool: Seq<Media>,
    pub restrict_resolution: bool,
    pub probe_only_first: bool,
    pub specific_requested: bool,
}

impl<'a> View for StreamSelection<'a> {
    type V = SelectionView;

    open spec fn view(&self) -> SelectionView {
        SelectionView {
            candidates: derefs(self.candidates@),
            probe_pool: self.probe_pool@,
            restrict_resolution: self.restrict_resolution,
            probe_only_first: self.probe_only_first,
            specific_requested: self.specific_requested,
        }
    }
}

pub open spec fn with_id(id: u128) -> spec_fn(Media) -> bool {
    |m: Media| m.id == id
}

/// The selection among streams that are not in a group: the one that is named,
/// the first for a client that names the item or nothing known, or all.
pub open spec fn selection(
    streams: Seq<Media>,
    item_id: u128,
    requested_id: Option<u128>,
) -> SelectionView {
    let specific = requested_id matches Some(sid) && sid != item_id && first_with_id(
        streams,
        sid,
    ) is Some;
    SelectionView {
        candidates: match requested_id {
            Some(sid) => if specific {
                streams.filter(with_id(sid))
            } else {
                at_most(streams, 1)
            },
            None => streams,
        },
        probe_pool: streams,
        restrict_resolution: true,
        probe_only_first: requested_id is None,
        specific_requested: specific,
    }
}

fn keep_with_id<'a>(streams: &'a Vec<Media>, id: u128) -> (r: Vec<&'a Media>)
    ensures
        derefs(r@) == streams@.filter(with_id(id)),
{
    let mut r: Vec<&'a Media> = Vec::new();
    let ghost p = with_id(id);
    proof {
        reveal(Seq::filter);
        assert(derefs(r@) =~= streams@.take(0).filter(p));
    }
    let mut i: usize = 0;
    while i < streams.len()
        invariant
            i <= streams.len(),
            p == with_id(id),
            derefs(r@) == streams@.take(i as int).filter(p),
        decreases streams.len() - i,
    {
        proof {
            reveal(Seq::filter);
            assert(streams@.take(i + 1).drop_last() =~= streams@.take(i as int));
            assert(streams@.take(i + 1).last() == streams@[i as int]);
        }
        if streams[i].id == id {
            let ghost before = r@;
            r.push(&streams[i]);
            assert(derefs(r@) =~= derefs(before).push(streams@[i as int]));
        }
        i = i + 1;
    }
    assert(streams@.take(streams@.len() as int) =~= streams@);
    r
}

fn first_few<'a>(streams: &'a Vec<Media>, n: usize) -> (r: Vec<&'a Media>)
    ensures
        derefs(r@) == at_most(streams@, n as nat),
{
    let mut r: Vec<&'a Media> = Vec::new();
    let mut i: usize = 0;
    while i < streams.len() && i < n
        invariant
            i <= streams.len(),
            i <= n,
            derefs(r@) =~= streams@.take(i as int),
        decreases streams.len() - i,
    {
        let ghost before = r@;
        r.push(&streams[i]);
        assert(derefs(r@) =~= derefs(before).push(streams@[i as int]));
        i = i + 1;
    }
    assert(streams@.take(streams@.len() as int) =~= streams@);
    r
}

impl StreamService {
    /// Which streams are presented and probed. Of a group the client sees one
    /// stream, and any other of the group may take its place.
    pub fn select_streams(&self) -> (r: StreamSelection<'_>)
        requires
            self.wf(),
        ensures
            r@ == match self.group {
                Some(g) => SelectionView {
                    candidates: seq![self.chosen()],
                    probe_pool: g.2@,
                    restrict_resolution: false,
                    probe_only_first: false,
                    specific_requested: true,
                },
                None => selection(self.streams@, self.item_id, self.requested_id),
            },
    {
        if let Some(g) = &self.group {
            let mut candidates: Vec<&Media> = Vec::new();
            candidates.push(self.candidate());
            assert(derefs(candidates@) =~= seq![self.chosen()]);
            return StreamSelection {
                candidates,
                probe_pool: &g.2,
                restrict_resolution: false,
                probe_only_first: false,
                specific_requested: true,
            };
        }
        let mut specific = false;
        let candidates = match self.requested_id {
            Some(sid) => {
                specific = sid != self.item_id && find_stream(&self.streams, sid).is_some();
                if specific {
                    keep_with_id(&self.streams, sid)
                } else {
                    first_few(&self.streams, 1)
                }
            },
            None => first_few(&self.streams, self.streams.len()),
        };
        StreamSelection {
            candidates,
            probe_pool: &self.streams,
            restrict_resolution: true,
            probe_only_first: self.requested_id.is_none(),
            specific_requested: specific,
        }
    }

    /// Remembers for a device which stream of a group it plays, and for the
    /// user which item the group belongs to. Without a group nothing is
    /// remembered.
    pub fn save_preference(&self, store: &mut Store, device_key: &str, now: u64)
        requires
            self.wf(),
            old(store).wf(),
        ensures
            final(store).wf(),
            final(store).view() == match self.group {
                None => old(store).view(),
                Some(g) => {
                    let kept = old(store).view().insert(
                        preference_key(self.item_id, device_key@),
                        (StoredView::Id(self.chosen().id), expiry(now, PREFERENCE_TTL_MS)),
                    );
                    match self.user_id {
                        Some(user) => kept.insert(
                            group_item_key(user, g.0),
                            (StoredView::Id(self.item_id), expiry(now, GROUP_ITEM_TTL_MS)),
                        ),
                        None => kept,
                    }
                },
            },
    {
        if let Some(g) = &self.group {
            let key = id_then_text("pstream:", self.item_id, device_key);
            store.save(key, Stored::Id(self.candidate().id), PREFERENCE_TTL_MS, now);
            if let Some(user) = self.user_id {
                Self::save_group_item(store, user, g.0, self.item_id, now);
            }
        }
    }
}

// ---------------------------------------------------------------------------
// Probing
// ---------------------------------------------------------------------------

/// What the administrator set for probing.
#[derive(Debug, Clone, Copy, PartialEq, Eq, Structural)]
pub struct ProbeSettings {
    pub probe_timeout_secs: Option<u32>,
    pub probe_timeout_p2p_secs: Option<u32>,
    pub auto_next_stream_on_probe_fail: Option<bool>,
    pub max_probe_fallback_streams: Option<u32>,
    pub remuxdb_enabled: Option<bool>,
}

/// How one candidate is probed.
#[derive(Debug)]
pub struct ProbeJob {
    /// Where the stream is read.
    pub url: Option<String>,
    pub skip_probe: bool,
    pub timeout_secs: u64,
    pub auto_next: bool,
    pub max_retries: u32,
    /// Whether an earlier probe found a video.
    pub was_cached: bool,
}

pub fn plan_probe(
    stream: &Media,
    idx: usize,
    probe_only_first: bool,
    settings: &ProbeSettings,
    port: u16,
) -> (r: ProbeJob)
    ensures
        text_opt(r.url) == match stream.stream_info {
            Some(info) => Some(info.descriptor.input(stream.id, port)),
            None => None,
        },
        r.skip_probe == (probe_only_first && idx > 0),
        r.timeout_secs == if stream.p2p() {
            match settings.probe_timeout_p2p_secs {
                Some(n) => n as int,
                None => 60,
            }
        } else {
            match settings.probe_timeout_secs {
                Some(n) => n as int,
                None => 20,
            }
        },
        r.auto_next == (settings.auto_next_stream_on_probe_fail != Some(false)),
        r.max_retries == match settings.max_probe_fallback_streams {
            Some(n) => n as int,
            None => 3,
        },
        r.was_cached == (stream.probe_data matches Some(p) && first_of(
            p.media_streams@,
            MediaStreamType::Video,
        ) is Some),
{
    let url = match &stream.stream_info {
        Some(info) => Some(info.descriptor.server_input(stream.id, port)),
        None => None,
    };
    let timeout_secs: u64 = if stream.is_p2p() {
        match settings.probe_timeout_p2p_secs {
            Some(n) => n as u64,
            None => 60,
        }
    } else {
        match settings.probe_timeout_secs {
            Some(n) => n as u64,
            None => 20,
        }
    };
    ProbeJob {
        url,
        skip_probe: probe_only_first && idx > 0,
        timeout_secs,
        auto_next: match settings.auto_next_stream_on_probe_fail {
            Some(b) => b,
            None => true,
        },
        max_retries: match settings.max_probe_fallback_streams {
            Some(n) => n,
            None => 3,
        },
        was_cached: match &stream.probe_data {
            Some(p) => p.video_stream().is_some(),
            None => false,
        },
    }
}

/// What a probed source is stamped with.
#[derive(Debug)]
pub struct SourceStamp {
    pub id: u128,
    pub e_tag: u128,
    pub name: String,
    pub path: String,
    pub has_segments: bool,
    pub is_remote: bool,
}

impl StreamService {
    /// What a probed source is known by. A stream that stands for a group bears
    /// the group's identifier, which does not change when streams are refreshed.
    /// Every source is reached through this server, with its segments.
    pub fn stamp(&self, stream: &Media, effective: &Media, display_name: &str) -> (r: SourceStamp)
        ensures
            r.id == match stream.group_id {
                Some(gid) => gid,
                None => self.id_for(*effective),
            },
            r.name@ == match stream.group_id {
                Some(_) => stream.title@,
                None => match self.group {
                    Some(g) => g.1@,
                    None => display_name@,
                },
            },
            r.path@ == "/remux/"@ + hyphenated_id(effective.id),
            r.e_tag == r.id,
            r.has_segments,
            !r.is_remote,
    {
        let path = concat2("/remux/", hyphenated_text(effective.id).as_str());
        let (id, name) = match stream.group_id {
            Some(gid) => (gid, stream.title.clone()),
            None => (self.source_id_for(effective), self.source_name_for(display_name)),
        };
        SourceStamp { id, e_tag: id, name, path, has_segments: true, is_remote: false }
    }
}

/// Whether what a probe found is shared with the media database.
#[derive(Debug, Clone, Copy, PartialEq, Eq, Structural)]
pub enum Submission {
    /// It was known before.
    AlreadyProbed,
    Disabled,
    /// The item is neither a film nor an episode.
    OtherKind,
    /// There is no database to send it to.
    NoService,
    Submit,
}

pub fn decide_submission(
    was_cached: bool,
    settings: &ProbeSettings,
    item_kind: Option<MediaKind>,
    has_service: bool,
) -> (r: Submission)
    ensures
        r == if was_cached {
            Submission::AlreadyProbed
        } else if settings.remuxdb_enabled == Some(false) {
            Submission::Disabled
        } else if !(item_kind matches Some(k) && (k is Movie || k is Episode)) {
            Submission::OtherKind
        } else if !has_service {
            Submission::NoService
        } else {
            Submission::Submit
        },
{
    let enabled = match settings.remuxdb_enabled {
        Some(b) => b,
        None => true,
    };
    let known_kind = match item_kind {
        Some(k) => k == MediaKind::Movie || k == MediaKind::Episode,
        None => false,
    };
    if was_cached {
        Submission::AlreadyProbed
    } else if !enabled {
        Submission::Disabled
    } else if !known_kind {
        Submission::OtherKind
    } else if !has_service {
        Submission::NoService
    } else {
        Submission::Submit
    }
}

// ---------------------------------------------------------------------------
// Laws
// ---------------------------------------------------------------------------

/// From an automatic source its resolution is found again, unless the source of
/// an earlier resolution has the same number.
pub proof fn law_auto_source_names_its_resolution(item_id: u128, k: int)
    requires
        0 <= k < auto_resolutions().len(),
    ensures
        ({
            let id = auto_id(item_id, auto_resolutions()[k]);
            let found = resolution_of(item_id, id);
            &&& found matches Some(r) && auto_resolutions().contains(r) && auto_id(item_id, r) == id
            &&& (forall|j: int|
                0 <= j < k ==> auto_id(item_id, #[trigger] auto_resolutions()[j]) != id)
                ==> found == Some(auto_resolutions()[k])
        }),
{
    lemma_resolution_among(auto_resolutions(), item_id, k);
}

proof fn lemma_resolution_among(all: Seq<Seq<char>>, item_id: u128, k: int)
    requires
        0 <= k < all.len(),
    ensures
        ({
            let id = auto_id(item_id, all[k]);
            let found = resolution_among(all, item_id, id);
            &&& found matches Some(r) && all.contains(r) && auto_id(item_id, r) == id
            &&& (forall|j: int| 0 <= j < k ==> auto_id(item_id, #[trigger] all[j]) != id) ==> found
                == Some(all[k])
        }),
    decreases k,
{
    let id = auto_id(item_id, all[k]);
    assert(all.contains(all[0]));
    if k > 0 && auto_id(item_id, all[0]) != id {
        let rest = all.skip(1);
        assert(rest[k - 1] == all[k]);
        lemma_resolution_among(rest, item_id, k - 1);
        let r = resolution_among(rest, item_id, id)->Some_0;
        let i = choose|i: int| 0 <= i < rest.len() && rest[i] == r;
        assert(all[i + 1] == r);
        if forall|j: int| 0 <= j < k ==> auto_id(item_id, #[trigger] all[j]) != id {
            assert forall|j: int| 0 <= j < k - 1 implies auto_id(item_id, #[trigger] rest[j])
                != id by {
                assert(rest[j] == all[j + 1]);
            }
        }
    }
}

/// The item of a group is kept for each user and group on its own.
proof fn lemma_group_item_keys(user_id: u128, group_id: u128, other_user: u128, other_group: u128)
    requires
        group_item_key(user_id, group_id) == group_item_key(other_user, other_group),
    ensures
        user_id == other_user,
        group_id == other_group,
{
    crate::ids::law_ids_have_texts_of_their_own(user_id, other_user);
    crate::ids::law_ids_have_texts_of_their_own(group_id, other_group);
    crate::ids::law_ids_have_texts_of_their_own(other_user, user_id);
    crate::ids::law_ids_have_texts_of_their_own(other_group, group_id);
    reveal_strlit("gitem:");
    reveal_strlit(":");
    let key = group_item_key(user_id, group_id);
    assert(hyphenated_id(user_id) =~= key.subrange(6, 42));
    assert(hyphenated_id(other_user) =~= key.subrange(6, 42));
    assert(hyphenated_id(group_id) =~= key.subrange(43, 79));
    assert(hyphenated_id(other_group) =~= key.subrange(43, 79));
}

/// The item that a user's group was kept with is read back as long as it holds
/// and not after that, and keeping it leaves every other user's and every other
/// group's item as it was.
pub proof fn law_group_item_is_read_back(
    before: Store,
    after: Store,
    user_id: u128,
    group_id: u128,
    item_id: u128,
    now: u64,
    later: u64,
    other_user: u128,
    other_group: u128,
)
    requires
        after.view() == before.view().insert(
            group_item_key(user_id, group_id),
            (StoredView::Id(item_id), expiry(now, GROUP_ITEM_TTL_MS)),
        ),
    ensures
        after.id_at(group_item_key(user_id, group_id), later) == if later < expiry(
            now,
            GROUP_ITEM_TTL_MS,
        ) {
            Some(item_id)
        } else {
            None
        },
        other_user != user_id || other_group != group_id ==> after.id_at(
            group_item_key(other_user, other_group),
            later,
        ) == before.id_at(group_item_key(other_user, other_group), later),
{
    if other_user != user_id || other_group != group_id {
        if group_item_key(user_id, group_id) == group_item_key(other_user, other_group) {
            lemma_group_item_keys(user_id, group_id, other_user, other_group);
        }
    }
}

/// A playback is granted one change of source: a second claim is refused until
/// the time of the first is over, and the claims of other playbacks are not
/// touched.
pub proof fn law_failover_slot_is_granted_once(
    before: Store,
    after: Store,
    play_session_id: Seq<char>,
    now: u64,
    later: u64,
    claimed: bool,
)
    requires
        claims(before, after, slot_key(play_session_id), FAILOVER_SLOT_TTL_MS, now, claimed),
        now <= later,
        now + FAILOVER_SLOT_TTL_MS <= u64::MAX,
    ensures
        claimed && later - now < FAILOVER_SLOT_TTL_MS ==> after.at(
            slot_key(play_session_id),
            later,
        ) is Some,
        forall|other: Seq<char>, t: u64|
            other != play_session_id ==> #[trigger] after.at(slot_key(other), t) == before.at(
                slot_key(other),
                t,
            ),
{
    assert forall|other: Seq<char>, t: u64| other != play_session_id implies #[trigger] after.at(
        slot_key(other),
        t,
    ) == before.at(slot_key(other), t) by {
        let prefix = "auto-failover-slot:"@;
        assert(slot_key(other) != slot_key(play_session_id)) by {
            lemma_same_tail(prefix, other, play_session_id);
        }
    }
}

proof fn lemma_same_tail(prefix: Seq<char>, a: Seq<char>, b: Seq<char>)
    ensures
        prefix + a == prefix + b ==> a == b,
{
    if prefix + a == prefix + b {
        assert((prefix + a).skip(prefix.len() as int) =~= a);
        assert((prefix + b).skip(prefix.len() as int) =~= b);
    }
}

/// What a playback has settled on is read back until its time is over, and the
/// choices of other playbacks are not touched.
pub proof fn law_settled_choice_is_read_back(
    before: Store,
    after: Store,
    play_session_id: Seq<char>,
    choice: SessionView,
    now: u64,
    later: u64,
)
    requires
        after.view() == before.view().insert(
            session_key(play_session_id),
            (StoredView::Session(choice), expiry(now, AUTO_SESSION_TTL_MS)),
        ),
        now <= later,
        now + AUTO_SESSION_TTL_MS <= u64::MAX,
    ensures
        later - now < AUTO_SESSION_TTL_MS ==> session_at(after, play_session_id, later) == Some(
            choice,
        ),
        later - now >= AUTO_SESSION_TTL_MS ==> session_at(after, play_session_id, later) is None,
        forall|other: Seq<char>, t: u64|
            other != play_session_id ==> #[trigger] session_at(after, other, t) == session_at(
                before,
                other,
                t,
            ),
{
    assert forall|other: Seq<char>, t: u64| other != play_session_id implies #[trigger] session_at(
        after,
        other,
        t,
    ) == session_at(before, other, t) by {
        lemma_same_tail("auto-session-winner:"@, other, play_session_id);
    }
}

/// The winner is none of its own fallbacks, there are never more than may be
/// tried, and each comes from the list that was given.
pub proof fn law_fallbacks(ids: Seq<u128>, winner_id: u128)
    ensures
        fallbacks_of(ids, winner_id).len() < AUTO_SESSION_CANDIDATE_LIMIT,
        !fallbacks_of(ids, winner_id).contains(winner_id),
        forall|id: u128| #[trigger]
            fallbacks_of(ids, winner_id).contains(id) ==> ids.contains(id),
{
    let others = ids.filter(all_but(winner_id));
    assert forall|id: u128| #[trigger] fallbacks_of(ids, winner_id).contains(id) implies ids.contains(
        id,
    ) && id != winner_id by {
        let f = fallbacks_of(ids, winner_id);
        let i = choose|i: int| 0 <= i < f.len() && f[i] == id;
        assert(others[i] == id);
        assert(others.contains(id));
        ids.lemma_filter_pred(all_but(winner_id), i);
        ids.lemma_filter_contains_rev(all_but(winner_id), id);
    }
}

/// A candidate that failed is avoided until its time is over, and with it every
/// candidate of the same swarm, however its hash is written; what was picked
/// before is forgotten.
pub proof fn law_failed_candidates_are_avoided(
    before: Store,
    after: Store,
    item_id: u128,
    resolution: Seq<char>,
    candidate: Media,
    other: Media,
    now: u64,
    later: u64,
)
    requires
        after.view() == before.view().insert(
            failed_key(item_id, resolution, failure_token(candidate)),
            (StoredView::Mark, expiry(now, FAILED_CANDIDATE_TTL_MS)),
        ).remove(choice_key(item_id, resolution)).remove(ranked_key(item_id, resolution)),
        failure_token(other) == failure_token(candidate),
        now <= later,
        now + FAILED_CANDIDATE_TTL_MS <= u64::MAX,
    ensures
        recently_failed(after, item_id, resolution, other, later) == (later - now
            < FAILED_CANDIDATE_TTL_MS),
        after.id_at(choice_key(item_id, resolution), later) is None,
        ranking_at(after, ranked_key(item_id, resolution), later) == Seq::<u128>::empty(),
{
    let f = failed_key(item_id, resolution, failure_token(candidate));
    reveal_strlit("auto-failed:");
    reveal_strlit("auto-choice:");
    reveal_strlit("auto-ranked-choice:");
    assert(f[5] == 'f');
    assert(choice_key(item_id, resolution)[5] == 'c');
    assert(ranked_key(item_id, resolution)[5] == 'r');
}

/// What is remembered of choices is kept under texts of its own: for each kind of memory,
/// and within a kind for each item, resolution, playback and candidate. In which case a
/// resolution or a hash is written does not matter.
pub proof fn law_memories_are_kept_apart(
    item_id: u128,
    other_item: u128,
    resolution: Seq<char>,
    other_resolution: Seq<char>,
    token: Seq<char>,
    session: Seq<char>,
    other_session: Seq<char>,
)
    ensures
        choice_key(item_id, resolution) == choice_key(other_item, other_resolution) <==> item_id
            == other_item && lower(resolution) == lower(other_resolution),
        ranked_key(item_id, resolution) == ranked_key(other_item, other_resolution) <==> item_id
            == other_item && lower(resolution) == lower(other_resolution),
        session_key(session) == session_key(other_session) <==> session == other_session,
        slot_key(session) == slot_key(other_session) <==> session == other_session,
        preference_key(item_id, session) == preference_key(other_item, other_session) <==> item_id
            == other_item && session == other_session,
        choice_key(item_id, resolution) != ranked_key(other_item, other_resolution),
        choice_key(item_id, resolution) != session_key(session),
        choice_key(item_id, resolution) != failed_key(other_item, other_resolution, token),
        ranked_key(item_id, resolution) != session_key(session),
        ranked_key(item_id, resolution) != failed_key(other_item, other_resolution, token),
        failed_key(item_id, resolution, token) != slot_key(session),
        failed_key(item_id, resolution, token) != attempt_key(session, other_item),
        failed_key(item_id, resolution, token) != session_key(session),
        slot_key(session) != attempt_key(other_session, item_id),
        slot_key(session) != session_key(other_session),
        preference_key(item_id, session) != group_item_key(item_id, other_item),
        failed_key(item_id, resolution, token) == failed_key(item_id, resolution, lower(token)),
{
    reveal_strlit("auto-choice:");
    reveal_strlit("auto-ranked-choice:");
    reveal_strlit("auto-session-winner:");
    reveal_strlit("auto-failed:");
    reveal_strlit("auto-failover-attempt:");
    reveal_strlit("auto-failover-slot:");
    reveal_strlit("pstream:");
    reveal_strlit("gitem:");
    lemma_id_key("auto-choice:"@, item_id, lower(resolution), other_item, lower(other_resolution));
    lemma_id_key(
        "auto-ranked-choice:"@,
        item_id,
        lower(resolution),
        other_item,
        lower(other_resolution),
    );
    lemma_id_key("pstream:"@, item_id, session, other_item, other_session);
    lemma_same_tail("auto-session-winner:"@, session, other_session);
    lemma_same_tail("auto-failover-slot:"@, session, other_session);
    assert(choice_key(item_id, resolution)[5] == 'c');
    assert(ranked_key(item_id, resolution)[5] == 'r');
    assert(ranked_key(other_item, other_resolution)[5] == 'r');
    assert(session_key(session)[5] == 's');
    assert(session_key(other_session)[5] == 's');
    assert(failed_key(item_id, resolution, token)[5] == 'f');
    assert(failed_key(other_item, other_resolution, token)[5] == 'f');
    assert(failed_key(item_id, resolution, token)[9] == 'e');
    assert(slot_key(session)[5] == 'f' && slot_key(session)[9] == 'o' && slot_key(session)[14]
        == 's');
    assert(attempt_key(session, other_item)[9] == 'o');
    assert(attempt_key(other_session, item_id)[14] == 'a');
    assert(preference_key(item_id, session)[0] == 'p');
    assert(group_item_key(item_id, other_item)[0] == 'g');
    assert(lower(lower(token)) =~= lower(token));
}

proof fn lemma_id_key(
    prefix: Seq<char>,
    id: u128,
    rest: Seq<char>,
    other_id: u128,
    other_rest: Seq<char>,
)
    ensures
        prefix + hyphenated_id(id) + ":"@ + rest == prefix + hyphenated_id(other_id) + ":"@
            + other_rest <==> id == other_id && rest == other_rest,
{
    crate::ids::law_ids_have_texts_of_their_own(id, other_id);
    crate::ids::law_ids_have_texts_of_their_own(other_id, id);
    let a = prefix + hyphenated_id(id) + ":"@ + rest;
    let b = prefix + hyphenated_id(other_id) + ":"@ + other_rest;
    if a == b {
        let n = prefix.len() as int;
        assert(a.subrange(n, n + 36) =~= hyphenated_id(id));
        assert(b.subrange(n, n + 36) =~= hyphenated_id(other_id));
        let m = (prefix + hyphenated_id(id) + ":"@).len() as int;
        assert(a.skip(m) =~= rest);
        assert(b.skip(m) =~= other_rest);
    }
}

/// A choice is remembered for five minutes and that of a playback for six hours; a
/// failure and the change of source after it for ten minutes, one attempt for a minute,
/// what a device plays for a day and the item of a group for a week.
pub proof fn law_how_long_choices_are_remembered(now: u64)
    requires
        now <= 0xffff_ffff_0000_0000,
    ensures
        expiry(now, AUTO_CHOICE_TTL_MS) == now + 5 * 60 * 1000,
        expiry(now, AUTO_SESSION_TTL_MS) == now + 6 * 60 * 60 * 1000,
        expiry(now, FAILED_CANDIDATE_TTL_MS) == now + 10 * 60 * 1000,
        expiry(now, FAILOVER_SLOT_TTL_MS) == now + 10 * 60 * 1000,
        expiry(now, FAILOVER_ATTEMPT_TTL_MS) == now + 60 * 1000,
        expiry(now, PREFERENCE_TTL_MS) == now + 24 * 60 * 60 * 1000,
        expiry(now, GROUP_ITEM_TTL_MS) == now + 7 * 24 * 60 * 60 * 1000,
{
}

/// There is an automatic source for each of five resolutions, numbered by the item and
/// the resolution.
pub proof fn law_automatic_sources(item_id: u128, id: u128)
    ensures
        auto_resolutions().len() == 5,
        auto_resolutions().contains("4K"@),
        auto_resolutions().contains("1440p"@),
        auto_resolutions().contains("1080p"@),
        auto_resolutions().contains("720p"@),
        auto_resolutions().contains("480p"@),
        auto_id(item_id, "1080p"@) == url_name_id(hyphenated_id(item_id) + "-auto-"@ + "1080p"@),
        resolution_of(item_id, id) matches Some(r) ==> url_name_id(
            hyphenated_id(item_id) + "-auto-"@ + r,
        ) == id,
        resolution_of(item_id, id) is None ==> id != url_name_id(
            hyphenated_id(item_id) + "-auto-"@ + "1080p"@,
        ),
{
    let all = auto_resolutions();
    assert(all[0] == "4K"@ && all[1] == "1080p"@ && all[2] == "720p"@ && all[3] == "480p"@ && all[4]
        == "1440p"@);
    lemma_among(all, item_id, id);
    law_auto_source_names_its_resolution(item_id, 1);
}

proof fn lemma_among(all: Seq<Seq<char>>, item_id: u128, id: u128)
    ensures
        resolution_among(all, item_id, id) matches Some(r) ==> all.contains(r)
            && auto_id(item_id, r)
            == id,
    decreases all.len(),
{
    if all.len() > 0 {
        lemma_among(all.skip(1), item_id, id);
        if auto_id(item_id, all[0]) != id {
            if let Some(r) = resolution_among(all.skip(1), item_id, id) {
                let i = choose|i: int| 0 <= i < all.skip(1).len() && all.skip(1)[i] == r;
                assert(all[i + 1] == r);
            }
        }
    }
}

/// Candidates of one swarm fail together, however its hash is written; a candidate that
/// is no torrent fails alone.
pub proof fn law_swarms_fail_together(a: Media, b: Media)
    ensures
        (a.info_hash() matches Some(x) && (b.info_hash() matches Some(y) && lower(x) == lower(y)))
            ==> failure_token(a) == failure_token(b),
        (a.info_hash() matches Some(x) && (b.info_hash() matches Some(y) && lower(x) != lower(y)))
            ==> failure_token(a) != failure_token(b),
        a.info_hash() is None && b.info_hash() is None ==> (failure_token(a) == failure_token(b)
            <==> a.id == b.id),
{
    crate::ids::law_ids_have_texts_of_their_own(a.id, b.id);
}

/// The first eleven others of a ranking are fallen back to, in their order.
pub proof fn law_fallbacks_keep_their_order(ids: Seq<u128>, winner_id: u128)
    requires
        !ids.contains(winner_id),
    ensures
        ids.len() <= 11 ==> fallbacks_of(ids, winner_id) == ids,
        ids.len() > 11 ==> fallbacks_of(ids, winner_id) == ids.take(11),
        fallbacks_of(seq![winner_id] + ids, winner_id) == fallbacks_of(ids, winner_id),
{
    lemma_others(ids, winner_id);
    let f = all_but(winner_id);
    Seq::filter_distributes_over_add(seq![winner_id], ids, f);
    reveal(Seq::filter);
    reveal_with_fuel(Seq::filter, 2);
    let one = seq![winner_id];
    assert(one.drop_last() =~= Seq::<u128>::empty());
    assert(one.last() == winner_id && !f(one.last()));
    assert(one.drop_last().filter(f) =~= Seq::<u128>::empty());
    assert(one.filter(f) =~= Seq::<u128>::empty());
    assert(Seq::<u128>::empty() + ids.filter(f) =~= ids.filter(f));
}

proof fn lemma_others(ids: Seq<u128>, winner_id: u128)
    requires
        !ids.contains(winner_id),
    ensures
        ids.filter(all_but(winner_id)) == ids,
    decreases ids.len(),
{
    reveal(Seq::filter);
    if ids.len() > 0 {
        let short = ids.drop_last();
        if short.contains(winner_id) {
            let i = choose|i: int| 0 <= i < short.len() && short[i] == winner_id;
            assert(ids[i] == winner_id);
        }
        assert(ids[ids.len() - 1] != winner_id);
        lemma_others(short, winner_id);
        assert(short.push(ids.last()) =~= ids);
    }
}

/// A ranking that is remembered is read back with its winner in front, as long as it
/// holds.
pub proof fn law_rankings_are_read_back(
    before: Store,
    after: Store,
    item_id: u128,
    resolution: Seq<char>,
    winner_id: u128,
    fallback_ids: Seq<u128>,
    now: u64,
    later: u64,
)
    requires
        after.view() == before.view().insert(
            ranked_key(item_id, resolution),
            (
                StoredView::Ranked(RankedView { winner_id, fallback_ids }),
                expiry(now, AUTO_CHOICE_TTL_MS),
            ),
        ),
        now <= later <= 0xffff_ffff_0000_0000,
    ensures
        later - now < 300_000 ==> ({
            let ids = ranking_at(after, ranked_key(item_id, resolution), later);
            &&& ids.len() == fallback_ids.len() + 1
            &&& ids[0] == winner_id
            &&& forall|i: int| 0 <= i < fallback_ids.len()
                ==> ids[i + 1] == #[trigger] fallback_ids[i]
        }),
        later - now >= 300_000 ==> ranking_at(after, ranked_key(item_id, resolution), later).len()
            == 0,
{
}

/// An attempt at a candidate is granted once a minute to a playback, and attempts at
/// others are not affected.
pub proof fn law_attempts_are_granted_once(
    before: Store,
    after: Store,
    session: Seq<char>,
    candidate_id: u128,
    other_id: u128,
    now: u64,
    later: u64,
    claimed: bool,
)
    requires
        claims(
            before,
            after,
            attempt_key(session, candidate_id),
            FAILOVER_ATTEMPT_TTL_MS,
            now,
            claimed,
        ),
        now <= later <= 0xffff_ffff_0000_0000,
    ensures
        claimed <==> before.at(attempt_key(session, candidate_id), now) is None,
        claimed && later - now < 60_000 ==> after.at(attempt_key(session, candidate_id), later)
            == Some(StoredView::Mark),
        claimed && later - now >= 60_000 ==> after.at(attempt_key(session, candidate_id), later)
            is None,
        !claimed ==> after.view() == before.view(),
        other_id != candidate_id ==> after.at(attempt_key(session, other_id), later) == before.at(
            attempt_key(session, other_id),
            later,
        ),
{
    let head = "auto-failover-attempt:"@ + session + ":"@;
    lemma_same_tail(head, hyphenated_id(candidate_id), hyphenated_id(other_id));
    crate::ids::law_ids_have_texts_of_their_own(candidate_id, other_id);
}

/// A stream that bears the name of an automatic source stands for itself, a group for its
/// streams, and everything else for what it belongs to.
pub proof fn law_what_is_loaded(kind: MediaKind, name: Seq<char>)
    ensures
        kind is Stream ==> load_plan(kind, name + "(auto)"@) is Automatic,
        kind is StreamGroup ==> load_plan(kind, name) is Group,
        kind is Stream && !ends(name, "(auto)"@) ==> load_plan(kind, name) is Root,
        !(kind is Stream) && !(kind is StreamGroup) ==> load_plan(kind, name) is Root,
{
    crate::text::lemma_ends_of_sum(name, "(auto)"@);
}

/// A refusal names what was looked for.
pub proof fn law_refusals_name_what_was_asked(id: u128)
    ensures
        LookupError::NotFound(id).text() == "stream not found: "@ + hyphenated_id(id),
        LookupError::NoPlayable(id).text() == "no playable sources for "@ + hyphenated_id(id),
        LookupError::EmptyGroup(id).text() == "no streams available for group "@ + hyphenated_id(id),
{
}

/// The stream with a number is the first that has it; there is one where any has it.
pub proof fn law_streams_are_found_by_number(streams: Seq<Media>, id: u128, k: int)
    requires
        0 <= k < streams.len(),
    ensures
        streams[k].id == id ==> first_with_id(streams, id) is Some,
        first_with_id(streams, id) matches Some(m) ==> m.id == id && streams.contains(m),
        streams[k].id == id && (forall|j: int| 0 <= j < k ==> (#[trigger] streams[j]).id != id)
            ==> first_with_id(streams, id) == Some(streams[k]),
    decreases streams.len(),
{
    let rest = streams.skip(1);
    assert forall|j: int| 0 <= j < rest.len() implies #[trigger] rest[j] == streams[j + 1] by {}
    if streams[0].id == id {
        assert(streams.contains(streams[0]));
    } else if rest.len() > 0 {
        law_streams_are_found_by_number(
            rest,
            id,
            if k > 0 {
                k - 1
            } else {
                0
            },
        );
        if let Some(m) = first_with_id(rest, id) {
            let i = choose|i: int| 0 <= i < rest.len() && rest[i] == m;
            assert(streams[i + 1] == m);
        }
        if forall|j: int| 0 <= j < k ==> (#[trigger] streams[j]).id != id {
            assert forall|j: int| 0 <= j < k - 1 implies (#[trigger] rest[j]).id != id by {
                assert(streams[j + 1].id != id);
            }
        }
    }
}

/// A source that is named is played, or the request is refused with its name; where none
/// is, what the device played before is, and else the first.
pub proof fn law_sources_are_played_as_asked(
    sources: Seq<Media>,
    item_id: u128,
    requested_id: Option<u128>,
    remembered: Option<u128>,
    k: int,
)
    requires
        0 <= k < sources.len(),
    ensures
        ({
            let wanted = wanted_source(sources, item_id, requested_id, remembered);
            let named = requested_id is Some && requested_id != Some(item_id);
            &&& named && requested_id == Some(sources[k].id) ==> (wanted matches Ok(m) && m.id
                == sources[k].id)
            &&& named && (forall|j: int|
                0 <= j < sources.len() ==> Some((#[trigger] sources[j]).id) != requested_id)
                ==> wanted == Err::<Media, LookupError>(
                LookupError::NotFound(requested_id->Some_0),
            )
            &&& !named && remembered == Some(sources[k].id) ==> (wanted matches Ok(m) && m.id
                == sources[k].id)
            &&& !named && remembered is None ==> wanted == Ok::<Media, LookupError>(sources[0])
            &&& !named && (forall|j: int|
                0 <= j < sources.len() ==> Some((#[trigger] sources[j]).id) != remembered)
                    ==> wanted
                == Ok::<Media, LookupError>(sources[0])
        }),
        wanted_source(Seq::empty(), item_id, None, remembered) == Err::<Media, LookupError>(
            LookupError::NoPlayable(item_id),
        ),
{
    if let Some(id) = requested_id {
        law_streams_are_found_by_number(sources, id, k);
        if let Some(m) = first_with_id(sources, id) {
            let i = choose|i: int| 0 <= i < sources.len() && sources[i] == m;
            assert(sources[i].id == id);
        }
    }
    if let Some(id) = remembered {
        law_streams_are_found_by_number(sources, id, k);
        if let Some(m) = first_with_id(sources, id) {
            let i = choose|i: int| 0 <= i < sources.len() && sources[i] == m;
            assert(sources[i].id == id);
        }
    }
}

/// A client that names a stream is offered that one; one that names the item, or a
/// stream that is not there, is offered the first; and one that names nothing is offered
/// all, of which the first is probed. Another one of all is tried where a probe fails.
pub proof fn law_offered_streams(
    streams: Seq<Media>,
    item_id: u128,
    requested_id: Option<u128>,
    k: int,
    i: int,
)
    requires
        0 <= k < streams.len(),
    ensures
        ({
            let s = selection(streams, item_id, requested_id);
            &&& s.probe_pool == streams && s.restrict_resolution
            &&& requested_id is None ==> s.candidates == streams && s.probe_only_first
                && !s.specific_requested
            &&& requested_id is Some ==> !s.probe_only_first
            &&& requested_id == Some(item_id) ==> s.candidates.len() == 1 && s.candidates[0]
                == streams[0] && !s.specific_requested
            &&& requested_id == Some(streams[k].id) && streams[k].id != item_id
                ==> s.specific_requested && s.candidates.contains(streams[k]) && (0 <= i
                < s.candidates.len() ==> s.candidates[i].id == streams[k].id)
            &&& requested_id is Some && (forall|j: int|
                0 <= j < streams.len() ==> Some((#[trigger] streams[j]).id) != requested_id)
                ==> s.candidates.len() == 1 && s.candidates[0] == streams[0]
                && !s.specific_requested
        }),
{
    if let Some(id) = requested_id {
        law_streams_are_found_by_number(streams, id, k);
        if let Some(m) = first_with_id(streams, id) {
            let j = choose|j: int| 0 <= j < streams.len() && streams[j] == m;
            assert(streams[j].id == id);
        }
        if streams[k].id == id {
            streams.lemma_filter_contains(with_id(id), k);
            lemma_kept_pass(streams, with_id(id), i);
        }
    }
}

proof fn lemma_kept_pass(s: Seq<Media>, f: spec_fn(Media) -> bool, i: int)
    ensures
        0 <= i < s.filter(f).len() ==> f(s.filter(f)[i]),
    decreases s.len(),
{
    reveal(Seq::filter);
    if s.len() > 0 {
        lemma_kept_pass(s.drop_last(), f, i);
        let before = s.drop_last().filter(f);
        if 0 <= i < before.len() {
            assert(s.filter(f)[i] == before[i]);
        }
    }
}

/// A client sees a group by its own number and its first stream, and a stream by its own.
pub proof fn law_clients_see_the_group(service: StreamService, effective: Media)
    ensures
        service.group matches Some(g) ==> service.id_for(effective) == g.0,
        service.group is None ==> service.id_for(effective) == effective.id,
        service.wf() && service.stream == Some(StreamPlace::Group) ==> (
        service.group matches Some(g) && g.2@.len() > 0 && service.chosen() == g.2@[0]),
        service.wf() && service.stream == Some(StreamPlace::Streams) ==> service.streams@.len() > 0
            && service.chosen() == service.streams@[0],
{
}

/// The texts under which choices are remembered.
pub proof fn law_memories_have_their_names(
    item_id: u128,
    other_id: u128,
    resolution: Seq<char>,
    token: Seq<char>,
    session: Seq<char>,
)
    ensures
        session_key(session) == "auto-session-winner:"@ + session,
        slot_key(session) == "auto-failover-slot:"@ + session,
        attempt_key(session, item_id) == "auto-failover-attempt:"@ + session + ":"@ + hyphenated_id(
            item_id,
        ),
        choice_key(item_id, resolution) == "auto-choice:"@ + hyphenated_id(item_id) + ":"@ + lower(
            resolution,
        ),
        ranked_key(item_id, resolution) == "auto-ranked-choice:"@ + hyphenated_id(item_id) + ":"@
            + lower(resolution),
        failed_key(item_id, resolution, token) == "auto-failed:"@ + hyphenated_id(item_id) + ":"@
            + lower(resolution) + ":"@ + lower(token),
        preference_key(item_id, session) == "pstream:"@ + hyphenated_id(item_id) + ":"@ + session,
        group_item_key(item_id, other_id) == "gitem:"@ + hyphenated_id(item_id) + ":"@
            + hyphenated_id(other_id),
{
}

} // verus!
