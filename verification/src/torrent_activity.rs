//! Which torrents are in use: by requests for their bytes, and by playbacks.
//! Times are nanoseconds of one clock.

use std::collections::HashSet;

use vstd::prelude::*;

use dashmap::DashMap;

use crate::dash::{
    count_map, lists_all, lists_numbers, lookup, new_count_map, new_owner_map, new_time_map,
    number_entries, number_get, number_insert, number_remove, owner_map, text_entries, text_get,
    text_insert, text_remove, time_map,
};
use crate::text::texts;

verus! {

/// The torrents in use.
pub struct TorrentActivity {
    active_requests: DashMap<u64, u64>,
    playback_torrents: DashMap<String, u64>,
    last_watched: DashMap<u64, i128>,
}

/// Whether a playback owns a torrent.
pub open spec fn owned(owners: Map<Seq<char>, u64>, torrent: u64) -> bool {
    exists|k: Seq<char>| #[trigger] owners.contains_key(k) && owners[k] == torrent
}

/// Whether a torrent is in use.
pub open spec fn in_use(
    requests: Map<u64, u64>,
    owners: Map<Seq<char>, u64>,
    torrent: u64,
) -> bool {
    (requests.contains_key(torrent) && requests[torrent] > 0) || owned(owners, torrent)
}

/// The requests after one more for a torrent.
pub open spec fn with_request(requests: Map<u64, u64>, torrent: u64) -> Map<u64, u64> {
    requests.insert(
        torrent,
        match lookup(requests, torrent) {
            Some(n) => (n + 1) as u64,
            None => 1,
        },
    )
}

/// The requests after one for a torrent has ended.
pub open spec fn without_request(requests: Map<u64, u64>, torrent: u64) -> Map<u64, u64> {
    match lookup(requests, torrent) {
        Some(n) => if n <= 1 {
            requests.remove(torrent)
        } else {
            requests.insert(torrent, (n - 1) as u64)
        },
        None => requests,
    }
}

/// The owners after some playbacks have taken a torrent.
pub open spec fn claimed(
    owners: Map<Seq<char>, u64>,
    playbacks: Seq<Seq<char>>,
    torrent: u64,
) -> Map<Seq<char>, u64>
    decreases playbacks.len(),
{
    if playbacks.len() == 0 {
        owners
    } else {
        claimed(owners, playbacks.drop_last(), torrent).insert(playbacks.last(), torrent)
    }
}

/// The torrents that some playbacks leave when they take another, in order.
pub open spec fn replaced(
    owners: Map<Seq<char>, u64>,
    playbacks: Seq<Seq<char>>,
    torrent: u64,
) -> Seq<u64>
    decreases playbacks.len(),
{
    if playbacks.len() == 0 {
        Seq::empty()
    } else {
        let before = replaced(owners, playbacks.drop_last(), torrent);
        match lookup(claimed(owners, playbacks.drop_last(), torrent), playbacks.last()) {
            Some(left) if left != torrent => before.push(left),
            _ => before,
        }
    }
}

impl TorrentActivity {
    /// The open requests for each torrent.
    pub closed spec fn requests(&self) -> Map<u64, u64> {
        count_map(self.active_requests)
    }

    /// The torrent of each playback.
    pub closed spec fn owners(&self) -> Map<Seq<char>, u64> {
        owner_map(self.playback_torrents)
    }

    /// When each torrent was last watched.
    pub closed spec fn watched(&self) -> Map<u64, i128> {
        time_map(self.last_watched)
    }

    pub fn new() -> (r: TorrentActivity)
        ensures
            r.requests() == Map::<u64, u64>::empty(),
            r.owners() == Map::<Seq<char>, u64>::empty(),
            r.watched() == Map::<u64, i128>::empty(),
    {
        let r = TorrentActivity {
            active_requests: new_count_map(),
            playback_torrents: new_owner_map(),
            last_watched: new_time_map(),
        };
        assert(r.requests() =~= Map::<u64, u64>::empty());
        assert(r.owners() =~= Map::<Seq<char>, u64>::empty());
        assert(r.watched() =~= Map::<u64, i128>::empty());
        r
    }

    /// Whether a playback owns a torrent.
    pub fn has_playback(&self, torrent_id: u64) -> (r: bool)
        ensures
            r == owned(self.owners(), torrent_id),
    {
        let entries = text_entries(&self.playback_torrents);
        let ghost all = self.owners();
        let mut i: usize = 0;
        while i < entries.len()
            invariant
                i <= entries.len(),
                all == self.owners(),
                lists_all(entries@, all),
                forall|j: int| 0 <= j < i ==> (#[trigger] entries@[j]).1 != torrent_id,
            decreases entries.len() - i,
        {
            if entries[i].1 == torrent_id {
                proof {
                    let k = entries@[i as int].0@;
                    assert(all.contains_key(k) && all[k] == torrent_id);
                }
                return true;
            }
            i = i + 1;
        }
        proof {
            assert forall|k: Seq<char>| #[trigger] all.contains_key(k) implies all[k] != torrent_id by {
                let j = choose|j: int| 0 <= j < entries@.len() && (#[trigger] entries@[j]).0@ == k;
                assert(all[k] == entries@[j].1);
            }
        }
        false
    }

    /// Whether a torrent is in use.
    pub fn is_active(&self, torrent_id: u64) -> (r: bool)
        ensures
            r == in_use(self.requests(), self.owners(), torrent_id),
    {
        let requested = match number_get(&self.active_requests, torrent_id) {
            Some(count) => count > 0,
            None => false,
        };
        requested || self.has_playback(torrent_id)
    }

    /// The torrents in use.
    pub fn active_ids(&self) -> (r: HashSet<u64>)
        ensures
            forall|id: u64| #[trigger]
                r@.contains(id) <==> in_use(self.requests(), self.owners(), id),
    {
        broadcast use vstd::std_specs::hash::group_hash_axioms;

        let mut r: HashSet<u64> = HashSet::new();
        let counts = number_entries(&self.active_requests);
        let ghost requests = self.requests();
        let ghost owners = self.owners();
        let mut i: usize = 0;
        while i < counts.len()
            invariant
                i <= counts.len(),
                lists_numbers(counts@, requests),
                forall|id: u64| #[trigger]
                    r@.contains(id) <==> exists|j: int|
                        0 <= j < i && (#[trigger] counts@[j]).0 == id && counts@[j].1 > 0,
            decreases counts.len() - i,
        {
            let ghost before = r@;
            if counts[i].1 > 0 {
                r.insert(counts[i].0);
            }
            proof {
                assert forall|id: u64| #[trigger] r@.contains(id) <==> exists|j: int|
                    0 <= j < i + 1 && (#[trigger] counts@[j]).0 == id && counts@[j].1 > 0 by {
                    if before.contains(id) {
                        let j = choose|j: int|
                            0 <= j < i && (#[trigger] counts@[j]).0 == id && counts@[j].1 > 0;
                        assert(counts@[j].0 == id);
                    }
                    if r@.contains(id) && !before.contains(id) {
                        assert(counts@[i as int].0 == id);
                    }
                }
            }
            i = i + 1;
        }
        proof {
            assert forall|id: u64| #[trigger] r@.contains(id) <==> requests.contains_key(id)
                && requests[id] > 0 by {
                if requests.contains_key(id) {
                    let j = choose|j: int| 0 <= j < counts@.len() && (#[trigger] counts@[j]).0 == id;
                    assert(counts@[j].1 == requests[id]);
                }
            }
        }
        let entries = text_entries(&self.playback_torrents);
        let mut k: usize = 0;
        while k < entries.len()
            invariant
                k <= entries.len(),
                lists_all(entries@, owners),
                forall|id: u64| #[trigger]
                    r@.contains(id) <==> (requests.contains_key(id) && requests[id] > 0) || exists|
                        j: int,
                    |
                        0 <= j < k && (#[trigger] entries@[j]).1 == id,
            decreases entries.len() - k,
        {
            let ghost before = r@;
            r.insert(entries[k].1);
            proof {
                assert forall|id: u64| #[trigger] r@.contains(id) <==> (requests.contains_key(id)
                    && requests[id] > 0) || exists|j: int|
                    0 <= j < k + 1 && (#[trigger] entries@[j]).1 == id by {
                    if before.contains(id) && !(requests.contains_key(id) && requests[id] > 0) {
                        let j = choose|j: int| 0 <= j < k && (#[trigger] entries@[j]).1 == id;
                        assert(entries@[j].1 == id);
                    }
                    if r@.contains(id) && !before.contains(id) {
                        assert(entries@[k as int].1 == id);
                    }
                }
            }
            k = k + 1;
        }
        proof {
            assert forall|id: u64| #[trigger] r@.contains(id) <==> in_use(requests, owners, id) by {
                if owned(owners, id) {
                    let key = choose|key: Seq<char>| #[trigger]
                        owners.contains_key(key) && owners[key] == id;
                    let j = choose|j: int|
                        0 <= j < entries@.len() && (#[trigger] entries@[j]).0@ == key;
                    assert(entries@[j].1 == id);
                }
                if exists|j: int| 0 <= j < entries@.len() && (#[trigger] entries@[j]).1 == id {
                    let j = choose|j: int|
                        0 <= j < entries@.len() && (#[trigger] entries@[j]).1 == id;
                    let key = entries@[j].0@;
                    assert(owners.contains_key(key) && owners[key] == id);
                }
            }
        }
        r
    }

    /// Opens a request for a torrent's bytes, and gives the torrent to the
    /// playbacks that it is for. Gives the torrents that they leave.
    pub fn claim(&mut self, torrent_id: u64, playback_ids: &Vec<String>) -> (left: Vec<u64>)
        requires
            old(self).requests().contains_key(torrent_id) ==> old(self).requests()[torrent_id]
                < u64::MAX,
        ensures
            final(self).requests() == with_request(old(self).requests(), torrent_id),
            final(self).owners() == claimed(old(self).owners(), texts(playback_ids@), torrent_id),
            left@ == replaced(old(self).owners(), texts(playback_ids@), torrent_id),
            final(self).watched() == old(self).watched(),
    {
        let count: u64 = match number_get(&self.active_requests, torrent_id) {
            Some(n) => n + 1,
            None => 1,
        };
        number_insert(&mut self.active_requests, torrent_id, count);
        let ghost counted = self.requests();
        let ghost all = texts(playback_ids@);
        let mut left: Vec<u64> = Vec::new();
        let mut i: usize = 0;
        while i < playback_ids.len()
            invariant
                i <= playback_ids.len(),
                all == texts(playback_ids@),
                self.requests() == counted,
                self.watched() == old(self).watched(),
                self.owners() == claimed(old(self).owners(), all.take(i as int), torrent_id),
                left@ == replaced(old(self).owners(), all.take(i as int), torrent_id),
            decreases playback_ids.len() - i,
        {
            proof {
                assert(all.take(i + 1).drop_last() =~= all.take(i as int));
                assert(all.take(i + 1).last() == playback_ids@[i as int]@);
            }
            let earlier = text_insert(
                &mut self.playback_torrents,
                playback_ids[i].clone(),
                torrent_id,
            );
            if let Some(id) = earlier {
                if id != torrent_id {
                    left.push(id);
                }
            }
            i = i + 1;
        }
        assert(all.take(all.len() as int) =~= all);
        left
    }

    /// Closes a request. Tells whether it was the last one for the torrent.
    pub fn release_request(&mut self, torrent_id: u64) -> (last: bool)
        ensures
            last == (lookup(old(self).requests(), torrent_id) matches Some(n) && n <= 1),
            final(self).requests() == without_request(old(self).requests(), torrent_id),
            final(self).owners() == old(self).owners(),
            final(self).watched() == old(self).watched(),
    {
        match number_get(&self.active_requests, torrent_id) {
            Some(n) => {
                if n <= 1 {
                    number_remove(&mut self.active_requests, torrent_id);
                    true
                } else {
                    number_insert(&mut self.active_requests, torrent_id, n - 1);
                    false
                }
            },
            None => false,
        }
    }

    /// Ends the claim of a playback. Gives its torrent, and whether no playback
    /// owns that any more, so that it is to be paused.
    pub fn release_playback(&mut self, play_session_id: &str) -> (r: Option<(u64, bool)>)
        ensures
            final(self).owners() == old(self).owners().remove(play_session_id@),
            final(self).requests() == old(self).requests(),
            final(self).watched() == old(self).watched(),
            r == match lookup(old(self).owners(), play_session_id@) {
                Some(id) => Some((id, !owned(old(self).owners().remove(play_session_id@), id))),
                None => None,
            },
    {
        match text_remove(&mut self.playback_torrents, play_session_id) {
            Some(id) => {
                let free = !self.has_playback(id);
                Some((id, free))
            },
            None => None,
        }
    }

    /// Notes that the torrent of a playback is really watched.
    pub fn mark_playback_watched(&mut self, play_session_id: &str, now: i128)
        ensures
            final(self).watched() == match lookup(old(self).owners(), play_session_id@) {
                Some(id) => old(self).watched().insert(id, now),
                None => old(self).watched(),
            },
            final(self).requests() == old(self).requests(),
            final(self).owners() == old(self).owners(),
    {
        if let Some(id) = text_get(&self.playback_torrents, play_session_id) {
            number_insert(&mut self.last_watched, id, now);
        }
    }

    /// When a torrent was last watched.
    pub fn watched_at(&self, torrent_id: u64) -> (r: Option<i128>)
        ensures
            r == lookup(self.watched(), torrent_id),
    {
        number_get(&self.last_watched, torrent_id)
    }

    /// Whether a torrent was watched, by what is remembered here or by the
    /// history of the users.
    pub open spec fn seen_by_someone(&self, torrent: u64, in_history: bool) -> bool {
        self.watched().contains_key(torrent) || in_history
    }

    pub fn source_was_watched(&self, torrent_id: u64, in_history: bool) -> (r: bool)
        ensures
            r == self.seen_by_someone(torrent_id, in_history),
    {
        self.watched_at(torrent_id).is_some() || in_history
    }

    /// Whether a torrent that was only tried may be deleted: nobody watched it
    /// and nobody uses it.
    pub fn may_discard(&self, torrent_id: u64, in_history: bool) -> (r: bool)
        ensures
            r == (!self.seen_by_someone(torrent_id, in_history) && !in_use(
                self.requests(),
                self.owners(),
                torrent_id,
            )),
    {
        !self.source_was_watched(torrent_id, in_history) && !self.is_active(torrent_id)
    }

    /// Forgets when a torrent was watched.
    pub fn forget(&mut self, torrent_id: u64)
        ensures
            final(self).watched() == old(self).watched().remove(torrent_id),
            final(self).requests() == old(self).requests(),
            final(self).owners() == old(self).owners(),
    {
        number_remove(&mut self.last_watched, torrent_id);
    }

    /// The torrents that a new playback puts out of work: all but its own and
    /// those in use.
    pub fn to_pause(&self, torrent_id: u64, all: &Vec<u64>) -> (r: Vec<u64>)
        ensures
            r@ == all@.filter(
                |id: u64| id != torrent_id && !in_use(self.requests(), self.owners(), id),
            ),
    {
        broadcast use vstd::std_specs::hash::group_hash_axioms;

        let active = self.active_ids();
        let ghost kept = |id: u64|
            id != torrent_id && !in_use(self.requests(), self.owners(), id);
        let mut r: Vec<u64> = Vec::new();
        let mut i: usize = 0;
        while i < all.len()
            invariant
                i <= all.len(),
                forall|id: u64| #[trigger]
                    active@.contains(id) <==> in_use(self.requests(), self.owners(), id),
                kept == (|id: u64|
                    id != torrent_id && !in_use(self.requests(), self.owners(), id)),
                r@ == all@.take(i as int).filter(kept),
            decreases all.len() - i,
        {
            proof {
                assert(all@.take(i + 1).drop_last() =~= all@.take(i as int));
                reveal(Seq::filter);
            }
            if all[i] != torrent_id && !active.contains(&all[i]) {
                r.push(all[i]);
            }
            i = i + 1;
        }
        assert(all@.take(all@.len() as int) =~= all@);
        r
    }
}

/// A torrent that has been claimed is in use until its request and its
/// playbacks have let it go.
pub proof fn law_claimed_torrents_are_in_use(
    requests: Map<u64, u64>,
    owners: Map<Seq<char>, u64>,
    playbacks: Seq<Seq<char>>,
    torrent: u64,
)
    requires
        requests.contains_key(torrent) ==> requests[torrent] < u64::MAX,
    ensures
        ({
            let opened = with_request(requests, torrent);
            let taken = claimed(owners, playbacks, torrent);
            &&& in_use(opened, taken, torrent)
            &&& playbacks.len() > 0 ==> owned(taken, torrent)
            &&& forall|p: Seq<char>| #[trigger]
                playbacks.contains(p) ==> lookup(taken, p) == Some(torrent)
        }),
    decreases playbacks.len(),
{
    if playbacks.len() > 0 {
        let taken = claimed(owners, playbacks, torrent);
        law_claimed_torrents_are_in_use(requests, owners, playbacks.drop_last(), torrent);
        assert(taken.contains_key(playbacks.last()) && taken[playbacks.last()] == torrent);
        assert forall|p: Seq<char>| #[trigger] playbacks.contains(p) implies lookup(taken, p)
            == Some(torrent) by {
            if p != playbacks.last() {
                let j = choose|j: int| 0 <= j < playbacks.len() && playbacks[j] == p;
                assert(playbacks.drop_last()[j] == p);
                assert(playbacks.drop_last().contains(p));
            }
        }
    }
}

/// Ending the request and the playback that claimed a torrent leaves everything
/// as it was before the claim.
pub proof fn law_release_undoes_a_claim(
    requests: Map<u64, u64>,
    owners: Map<Seq<char>, u64>,
    playback: Seq<char>,
    torrent: u64,
)
    requires
        requests.contains_key(torrent) ==> 0 < requests[torrent] < u64::MAX,
        !owners.contains_key(playback),
    ensures
        without_request(with_request(requests, torrent), torrent) == requests,
        claimed(owners, seq![playback], torrent).remove(playback) == owners,
{
    assert(without_request(with_request(requests, torrent), torrent) =~= requests);
    reveal_with_fuel(claimed, 2);
    assert(seq![playback].drop_last() =~= Seq::<Seq<char>>::empty());
    assert(claimed(owners, seq![playback], torrent).remove(playback) =~= owners);
}

/// How often it is looked whether the last request of a torrent has ended.
pub const DISCARD_POLLS: u32 = 20;

pub const DISCARD_POLL_MS: u64 = 25;

/// Whether to wait for a torrent that is still in use before it is decided
/// whether to delete it.
pub fn wait_for_release(polls: u32, active: bool) -> (r: bool)
    ensures
        r == (active && polls < DISCARD_POLLS),
        r == (active && polls < 20),
{
    active && polls < DISCARD_POLLS
}

/// A torrent is in use while a request for it is open or a playback has it.
pub proof fn law_use(
    requests: Map<u64, u64>,
    owners: Map<Seq<char>, u64>,
    torrent: u64,
    playback: Seq<char>,
)
    ensures
        owners.contains_key(playback) && owners[playback] == torrent ==> in_use(
            requests,
            owners,
            torrent,
        ),
        requests.contains_key(torrent) && requests[torrent] > 0 ==> in_use(
            requests,
            owners,
            torrent,
        ),
        !(requests.contains_key(torrent) && requests[torrent] > 0)
            && (forall|p: Seq<char>| #[trigger]
            owners.contains_key(p) ==> owners[p] != torrent) ==> !in_use(requests, owners, torrent),
{
}

/// Requests are counted: each adds one, and each that ends takes one off, until none is
/// left. Those for other torrents are not touched.
pub proof fn law_requests_are_counted(requests: Map<u64, u64>, torrent: u64, other: u64)
    requires
        requests.contains_key(torrent) ==> requests[torrent] < u64::MAX,
    ensures
        ({
            let more = with_request(requests, torrent);
            let fewer = without_request(requests, torrent);
            &&& more.contains_key(torrent)
            &&& requests.contains_key(torrent) ==> more[torrent] == requests[torrent] + 1
            &&& !requests.contains_key(torrent) ==> more[torrent] == 1
            &&& fewer.contains_key(torrent) <==> requests.contains_key(torrent)
                && requests[torrent] > 1
            &&& fewer.contains_key(torrent) ==> fewer[torrent] == requests[torrent] - 1
            &&& other != torrent ==> lookup(more, other) == lookup(requests, other) && lookup(
                fewer,
                other,
            ) == lookup(requests, other)
        }),
{
}

/// Taking a torrent changes nothing for other playbacks, and every torrent that one of
/// these playbacks had before, and no longer has, is told.
pub proof fn law_left_torrents_are_told(
    owners: Map<Seq<char>, u64>,
    playbacks: Seq<Seq<char>>,
    torrent: u64,
    p: Seq<char>,
)
    ensures
        !playbacks.contains(p) ==> lookup(claimed(owners, playbacks, torrent), p) == lookup(
            owners,
            p,
        ),
        playbacks.contains(p) ==> lookup(claimed(owners, playbacks, torrent), p) == Some(torrent),
        playbacks.contains(p) && (lookup(owners, p) matches Some(t) && t != torrent) ==> replaced(
            owners,
            playbacks,
            torrent,
        ).contains(lookup(owners, p)->Some_0),
        !replaced(owners, playbacks, torrent).contains(torrent),
    decreases playbacks.len(),
{
    if playbacks.len() > 0 {
        let short = playbacks.drop_last();
        law_left_torrents_are_told(owners, short, torrent, p);
        let before = replaced(owners, short, torrent);
        let all = replaced(owners, playbacks, torrent);
        assert(playbacks.last() == playbacks[playbacks.len() - 1]);
        if short.contains(p) {
            let i = choose|i: int| 0 <= i < short.len() && short[i] == p;
            assert(playbacks[i] == p);
        }
        if playbacks.contains(p) && !short.contains(p) {
            let i = choose|i: int| 0 <= i < playbacks.len() && playbacks[i] == p;
            if i < short.len() {
                assert(short[i] == p);
            }
            assert(p == playbacks.last());
            if let Some(t) = lookup(owners, p) {
                if t != torrent {
                    assert(all[all.len() - 1] == t);
                }
            }
        }
        if let Some(t) = lookup(owners, p) {
            if before.contains(t) {
                let i = choose|i: int| 0 <= i < before.len() && before[i] == t;
                assert(all[i] == t);
            }
        }
        if all.contains(torrent) {
            let i = choose|i: int| 0 <= i < all.len() && all[i] == torrent;
            if i < before.len() {
                assert(before[i] == torrent);
            }
        }
    }
}

} // verus!
