//! A store of short-lived facts. Each is kept under a text until a time; times
//! are milliseconds of one clock.

use vstd::prelude::*;

use crate::keyed::Keyed;
use crate::torrent_availability::{PeerAvailability, PeersView, TrackerAvailability, TrackerView};

verus! {

/// The source that a playback has settled on, and those to fall back to.
#[derive(Debug)]
pub struct AutoSessionChoice {
    pub item_id: u128,
    pub resolution: String,
    pub winner_id: u128,
    pub fallback_ids: Vec<u128>,
    pub user_id: Option<u128>,
}

/// The best source of an item at a resolution, and those that come next.
#[derive(Debug)]
pub struct AutoRankedChoice {
    pub winner_id: u128,
    pub fallback_ids: Vec<u128>,
}

pub ghost struct SessionView {
    pub item_id: u128,
    pub resolution: Seq<char>,
    pub winner_id: u128,
    pub fallback_ids: Seq<u128>,
    pub user_id: Option<u128>,
}

pub ghost struct RankedView {
    pub winner_id: u128,
    pub fallback_ids: Seq<u128>,
}

impl View for AutoSessionChoice {
    type V = SessionView;

    open spec fn view(&self) -> SessionView {
        SessionView {
            item_id: self.item_id,
            resolution: self.resolution@,
            winner_id: self.winner_id,
            fallback_ids: self.fallback_ids@,
            user_id: self.user_id,
        }
    }
}

impl View for AutoRankedChoice {
    type V = RankedView;

    open spec fn view(&self) -> RankedView {
        RankedView { winner_id: self.winner_id, fallback_ids: self.fallback_ids@ }
    }
}

/// A copy of a list of identifiers.
pub fn copy_ids(ids: &Vec<u128>) -> (r: Vec<u128>)
    ensures
        r@ == ids@,
{
    let mut r: Vec<u128> = Vec::new();
    let mut i: usize = 0;
    while i < ids.len()
        invariant
            i <= ids.len(),
            r@ == ids@.take(i as int),
        decreases ids.len() - i,
    {
        r.push(ids[i]);
        i = i + 1;
        assert(r@ =~= ids@.take(i as int));
    }
    assert(ids@.take(ids@.len() as int) =~= ids@);
    r
}

impl AutoSessionChoice {
    /// A copy.
    pub fn duplicate(&self) -> (r: AutoSessionChoice)
        ensures
            r@ == self@,
    {
        AutoSessionChoice {
            item_id: self.item_id,
            resolution: self.resolution.clone(),
            winner_id: self.winner_id,
            fallback_ids: copy_ids(&self.fallback_ids),
            user_id: self.user_id,
        }
    }
}

/// A fact.
#[derive(Debug)]
pub enum Stored {
    Mark,
    Id(u128),
    Session(AutoSessionChoice),
    Ranked(AutoRankedChoice),
    Tracker(TrackerAvailability),
    Peers(PeerAvailability),
}

pub ghost enum StoredView {
    Mark,
    Id(u128),
    Session(SessionView),
    Ranked(RankedView),
    Tracker(TrackerView),
    Peers(PeersView),
}

impl View for Stored {
    type V = StoredView;

    open spec fn view(&self) -> StoredView {
        match self {
            Stored::Mark => StoredView::Mark,
            Stored::Id(id) => StoredView::Id(*id),
            Stored::Session(c) => StoredView::Session(c@),
            Stored::Ranked(c) => StoredView::Ranked(c@),
            Stored::Tracker(t) => StoredView::Tracker(t@),
            Stored::Peers(p) => StoredView::Peers(p@),
        }
    }
}

#[derive(Debug)]
pub struct Entry {
    pub value: Stored,
    /// The first time at which the fact no longer holds.
    pub expires_at: u64,
}

#[derive(Debug)]
pub struct Store {
    entries: Keyed<Entry>,
}

/// The time at which what is kept for `ttl` from `now` on expires.
pub open spec fn expiry(now: u64, ttl: u64) -> u64 {
    if now + ttl <= u64::MAX {
        (now + ttl) as u64
    } else {
        u64::MAX
    }
}

impl Store {
    pub closed spec fn wf(&self) -> bool {
        self.entries.wf()
    }

    /// What is kept under each text, and until when.
    pub closed spec fn view(&self) -> Map<Seq<char>, (StoredView, u64)> {
        Map::new(
            |k: Seq<char>| self.entries.view().contains_key(k),
            |k: Seq<char>| (self.entries.view()[k].value@, self.entries.view()[k].expires_at),
        )
    }

    /// What holds under a text at a time.
    pub open spec fn at(&self, key: Seq<char>, now: u64) -> Option<StoredView> {
        if self.view().contains_key(key) && now < self.view()[key].1 {
            Some(self.view()[key].0)
        } else {
            None
        }
    }

    pub fn new() -> (r: Store)
        ensures
            r.wf(),
            r.view() == Map::<Seq<char>, (StoredView, u64)>::empty(),
    {
        let r = Store { entries: Keyed::new() };
        assert(r.view() =~= Map::<Seq<char>, (StoredView, u64)>::empty());
        r
    }

    pub fn get(&self, key: &str, now: u64) -> (r: Option<&Stored>)
        requires
            self.wf(),
        ensures
            match r {
                Some(v) => self.at(key@, now) == Some(v@),
                None => self.at(key@, now) is None,
            },
    {
        match self.entries.get(key) {
            Some(e) => {
                if now < e.expires_at {
                    Some(&e.value)
                } else {
                    None
                }
            },
            None => None,
        }
    }

    /// Keeps a fact for a time, in place of another under the same text.
    pub fn save(&mut self, key: String, value: Stored, ttl: u64, now: u64)
        requires
            old(self).wf(),
        ensures
            final(self).wf(),
            final(self).view() == old(self).view().insert(key@, (value@, expiry(now, ttl))),
    {
        let expires_at: u64 = now.saturating_add(ttl);
        let ghost before = *self;
        let ghost k0 = key@;
        self.entries.insert(key, Entry { value, expires_at });
        assert(self.view() =~= before.view().insert(k0, (value@, expiry(now, ttl))));
    }

    /// Keeps a fact for a time unless one holds under the same text.
    pub fn insert(&mut self, key: String, value: Stored, ttl: u64, now: u64) -> (added: bool)
        requires
            old(self).wf(),
        ensures
            final(self).wf(),
            added == (old(self).at(key@, now) is None),
            final(self).view() == if added {
                old(self).view().insert(key@, (value@, expiry(now, ttl)))
            } else {
                old(self).view()
            },
    {
        let held = self.get(key.as_str(), now).is_some();
        if held {
            false
        } else {
            self.save(key, value, ttl, now);
            true
        }
    }

    pub fn delete(&mut self, key: &str)
        requires
            old(self).wf(),
        ensures
            final(self).wf(),
            final(self).view() == old(self).view().remove(key@),
    {
        let ghost before = *self;
        self.entries.remove(key);
        assert(self.view() =~= before.view().remove(key@));
    }

    /// The identifier under a text.
    pub open spec fn id_at(&self, key: Seq<char>, now: u64) -> Option<u128> {
        match self.at(key, now) {
            Some(StoredView::Id(id)) => Some(id),
            _ => None,
        }
    }

    pub fn get_id(&self, key: &str, now: u64) -> (r: Option<u128>)
        requires
            self.wf(),
        ensures
            r == self.id_at(key@, now),
    {
        match self.get(key, now) {
            Some(Stored::Id(id)) => Some(*id),
            _ => None,
        }
    }

    /// Whether a mark holds under a text.
    pub open spec fn marked(&self, key: Seq<char>, now: u64) -> bool {
        self.at(key, now) matches Some(StoredView::Mark)
    }

    pub fn is_marked(&self, key: &str, now: u64) -> (r: bool)
        requires
            self.wf(),
        ensures
            r == self.marked(key@, now),
    {
        match self.get(key, now) {
            Some(Stored::Mark) => true,
            _ => false,
        }
    }
}

/// A fact that is kept is found until its time is over, and neither keeping nor
/// deleting it touches what is kept under another text.
pub proof fn law_kept_until_expiry(
    before: Map<Seq<char>, (StoredView, u64)>,
    store: Store,
    key: Seq<char>,
    value: StoredView,
    ttl: u64,
    now: u64,
    later: u64,
)
    requires
        store.view() == before.insert(key, (value, expiry(now, ttl))),
        now <= later,
        now + ttl <= u64::MAX,
    ensures
        later - now < ttl ==> store.at(key, later) == Some(value),
        later - now >= ttl ==> store.at(key, later) is None,
        forall|other: Seq<char>|
            other != key ==> store.view().contains_key(other) == before.contains_key(other) && (
            before.contains_key(other) ==> #[trigger] store.view()[other] == before[other]),
{
}

} // verus!
