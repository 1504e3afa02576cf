//! Which torrents are deleted: those that nobody has watched of late, and the
//! longest unwatched ones when the disk is full. Times are nanoseconds of one
//! clock.

use std::collections::HashSet;

use vstd::prelude::*;

use crate::order::{key_seqs, positions, rank, ranked};
use crate::paths::{storage_root, top_level_storage_root};
use crate::text::{same_text, texts};

verus! {

pub const NANOS_PER_DAY: i128 = 86_400_000_000_000;

/// The torrent engine's files, and when each torrent was last watched.
#[derive(Debug)]
pub struct StorageEntry {
    pub id: usize,
    pub info_hash: String,
    pub storage_paths: Vec<String>,
    pub allocated_bytes: u64,
    pub last_watched: Option<i128>,
}

/// A time that is far from the ends of the clock.
pub open spec fn sane_time(t: i128) -> bool {
    -0x100_0000_0000_0000_0000_0000_0000_0000 <= t <= 0x100_0000_0000_0000_0000_0000_0000_0000
}

/// The key of a torrent by which the longest unwatched comes first, and one
/// that was never watched before all others.
pub open spec fn age_key(watched: Option<i128>) -> Seq<u64> {
    match watched {
        None => seq![1u64, 0u64, 0u64],
        Some(t) => {
            let n = (t + 0x8000_0000_0000_0000_0000_0000_0000_0000) as u128;
            seq![
                0u64,
                (u64::MAX - n / 0x1_0000_0000_0000_0000) as u64,
                (u64::MAX - n % 0x1_0000_0000_0000_0000) as u64,
            ]
        },
    }
}

fn age_key_of(watched: Option<i128>) -> (r: Vec<u64>)
    ensures
        r@ == age_key(watched),
{
    let mut r: Vec<u64> = Vec::new();
    match watched {
        None => {
            r.push(1);
            r.push(0);
            r.push(0);
        },
        Some(t) => {
            let n: u128 = if t >= 0 {
                t as u128 + 0x8000_0000_0000_0000_0000_0000_0000_0000
            } else if t == i128::MIN {
                0
            } else {
                0x8000_0000_0000_0000_0000_0000_0000_0000 - (-t) as u128
            };
            r.push(0);
            r.push(u64::MAX - (n / 0x1_0000_0000_0000_0000) as u64);
            r.push(u64::MAX - (n % 0x1_0000_0000_0000_0000) as u64);
        },
    }
    assert(r@ =~= age_key(watched));
    r
}

pub open spec fn age_keys(entries: Seq<StorageEntry>) -> Seq<Seq<u64>> {
    entries.map_values(|e: StorageEntry| age_key(e.last_watched))
}

/// Earlier watched means a greater key.
proof fn lemma_age_key(a: Option<i128>, b: Option<i128>)
    ensures
        crate::order::key_ge(age_key(a), age_key(b)) <==> match (a, b) {
            (None, _) => true,
            (Some(_), None) => false,
            (Some(x), Some(y)) => x <= y,
        },
{
    reveal_with_fuel(crate::order::key_ge, 4);
    let x = age_key(a);
    let y = age_key(b);
    assert(x.skip(1)[0] == x[1] && y.skip(1)[0] == y[1]);
    assert(x.skip(1).skip(1)[0] == x[2] && y.skip(1).skip(1)[0] == y[2]);
    if a is Some && b is Some {
        let m = (a->0 + 0x8000_0000_0000_0000_0000_0000_0000_0000) as int;
        let n = (b->0 + 0x8000_0000_0000_0000_0000_0000_0000_0000) as int;
        let q = 0x1_0000_0000_0000_0000int;
        assert(m == q * (m / q) + m % q && n == q * (n / q) + n % q) by (nonlinear_arith)
            requires
                q > 0,
        ;
        if m / q < n / q {
            assert(m < n) by (nonlinear_arith)
                requires
                    m == q * (m / q) + m % q,
                    n == q * (n / q) + n % q,
                    m / q < n / q,
                    m % q < q,
                    n % q >= 0,
                    q > 0,
            ;
        }
        if m / q > n / q {
            assert(m > n) by (nonlinear_arith)
                requires
                    m == q * (m / q) + m % q,
                    n == q * (n / q) + n % q,
                    m / q > n / q,
                    n % q < q,
                    m % q >= 0,
                    q > 0,
            ;
        }
    }
}

fn rank_by_age(entries: &Vec<StorageEntry>) -> (order: Vec<usize>)
    ensures
        positions(order@) == ranked(age_keys(entries@)),
        order.len() == entries.len(),
        forall|i: int| 0 <= i < order.len() ==> (#[trigger] order@[i]) < entries.len(),
{
    let mut keys: Vec<Vec<u64>> = Vec::new();
    let mut i: usize = 0;
    while i < entries.len()
        invariant
            i <= entries.len(),
            keys@.len() == i,
            key_seqs(keys@) =~= age_keys(entries@).take(i as int),
        decreases entries.len() - i,
    {
        let ghost before = key_seqs(keys@);
        let key = age_key_of(entries[i].last_watched);
        keys.push(key);
        assert(key_seqs(keys@) =~= before.push(key@));
        i = i + 1;
    }
    assert(age_keys(entries@).take(entries@.len() as int) =~= age_keys(entries@));
    rank(&keys)
}

/// The torrents, the longest unwatched first and those that were never watched
/// before all others.
pub open spec fn by_age(entries: Seq<StorageEntry>) -> Seq<StorageEntry> {
    ranked(age_keys(entries)).map_values(|i: int| entries[i])
}

/// Sorts the torrents by age.
pub fn sort_by_age(entries: Vec<StorageEntry>) -> (r: Vec<StorageEntry>)
    ensures
        r@ == by_age(entries@),
{
    let order = rank_by_age(&entries);
    let ghost all = entries@;
    let mut slots: Vec<Option<StorageEntry>> = Vec::new();
    let mut rest = entries;
    let n: usize = rest.len();
    let mut i: usize = 0;
    while i < n
        invariant
            i <= n,
            n == all.len(),
            rest@ == all.take(n - i),
            slots@.len() == i,
            forall|k: int| 0 <= k < i ==> #[trigger] slots@[k] == Some(all[n - 1 - k]),
        decreases n - i,
    {
        let last = rest.pop();
        assert(rest@ =~= all.take(n - i - 1));
        slots.push(last);
        i = i + 1;
    }
    proof {
        crate::order::law_ranking(age_keys(all));
        assert(positions(order@).len() == order@.len());
    }
    let mut r: Vec<StorageEntry> = Vec::new();
    let mut k: usize = 0;
    while k < n
        invariant
            k <= n,
            n == all.len(),
            order.len() == n,
            slots@.len() == n,
            positions(order@) == ranked(age_keys(all)),
            positions(order@).no_duplicates(),
            forall|j: int| 0 <= j < n ==> (#[trigger] order@[j]) < n,
            r@.len() == k,
            forall|j: int| 0 <= j < k ==> #[trigger] r@[j] == all[order@[j] as int],
            forall|j: int|
                k <= j < n ==> slots@[n - 1 - #[trigger] order@[j]] == Some(all[order@[j] as int]),
        decreases n - k,
    {
        let p: usize = order[k];
        let slot: usize = n - 1 - p;
        let ghost before = slots@;
        let mut taken: Option<StorageEntry> = None;
        std::mem::swap(&mut taken, &mut slots[slot]);
        proof {
            assert(before[n - 1 - order@[k as int]] == Some(all[order@[k as int] as int]));
            assert forall|j: int| k < j < n implies slots@[n - 1 - #[trigger] order@[j]] == Some(
                all[order@[j] as int],
            ) by {
                assert(positions(order@)[j] != positions(order@)[k as int]);
            }
        }
        match taken {
            Some(e) => r.push(e),
            None => {
                assert(false);
            },
        }
        k = k + 1;
    }
    proof {
        assert forall|j: int| 0 <= j < r@.len() implies r@[j] == by_age(all)[j] by {
            assert(positions(order@)[j] == order@[j]);
        }
        assert(r@ =~= by_age(all));
    }
    r
}

/// The later of two times at which a torrent was watched, as far as they are
/// known.
pub fn latest_watched(recorded: Option<i128>, in_memory: Option<i128>) -> (r: Option<i128>)
    ensures
        r == match (recorded, in_memory) {
            (Some(a), Some(b)) => Some(
                if a >= b {
                    a
                } else {
                    b
                },
            ),
            (Some(a), None) => Some(a),
            (None, m) => m,
        },
{
    match (recorded, in_memory) {
        (Some(a), Some(b)) => if a >= b {
            Some(a)
        } else {
            Some(b)
        },
        (Some(a), None) => Some(a),
        (None, m) => m,
    }
}

pub open spec fn component_texts(files: Seq<Vec<String>>) -> Seq<Seq<Seq<char>>> {
    files.map_values(|f: Vec<String>| texts(f@))
}

/// The paths of a torrent's files, without those that would lead out of its
/// folder.
pub open spec fn file_paths(folder: Seq<char>, files: Seq<Seq<Seq<char>>>) -> Seq<Seq<char>>
    decreases files.len(),
{
    if files.len() == 0 {
        Seq::empty()
    } else {
        let before = file_paths(folder, files.drop_last());
        let parts = files.last();
        if forall|i: int| 0 <= i < parts.len() ==> crate::paths::safe_component(#[trigger] parts[i]) {
            before.push(crate::paths::joined(folder, parts))
        } else {
            before
        }
    }
}

/// Where a torrent is stored: its files, or its folder where none is known.
pub fn torrent_storage_paths(output_folder: &str, files: &Vec<Vec<String>>) -> (r: Vec<String>)
    ensures
        ({
            let paths = file_paths(output_folder@, component_texts(files@));
            texts(r@) == if paths.len() == 0 {
                seq![output_folder@]
            } else {
                paths
            }
        }),
{
    let mut r: Vec<String> = Vec::new();
    let ghost all = component_texts(files@);
    let mut i: usize = 0;
    assert(texts(r@) =~= file_paths(output_folder@, all.take(0)));
    while i < files.len()
        invariant
            i <= files.len(),
            all == component_texts(files@),
            texts(r@) == file_paths(output_folder@, all.take(i as int)),
        decreases files.len() - i,
    {
        proof {
            assert(all.take(i + 1).drop_last() =~= all.take(i as int));
            assert(all.take(i + 1).last() == texts(files@[i as int]@));
        }
        if let Some(path) = crate::paths::join_storage_components(output_folder, &files[i]) {
            crate::text::push_arg(&mut r, path.as_str());
        }
        i = i + 1;
    }
    assert(all.take(all.len() as int) =~= all);
    assert(texts(r@).len() == r@.len());
    if r.len() == 0 {
        crate::text::push_arg(&mut r, output_folder);
        assert(texts(r@) =~= seq![output_folder@]);
    }
    r
}

// ---------------------------------------------------------------------------
// Retention
// ---------------------------------------------------------------------------

/// The torrents that are not in use, by age.
pub open spec fn idle_by_age(entries: Seq<StorageEntry>, active: Set<usize>) -> Seq<StorageEntry> {
    by_age(entries.filter(|e: StorageEntry| !active.contains(e.id)))
}

/// Whether a torrent was last watched before a time, or never.
pub open spec fn unwatched_since(e: StorageEntry, cutoff: int) -> bool {
    match e.last_watched {
        Some(t) => t < cutoff,
        None => true,
    }
}

/// The torrents that were ever watched.
pub open spec fn ever_watched(entries: Seq<StorageEntry>) -> Seq<StorageEntry> {
    entries.filter(|e: StorageEntry| e.last_watched is Some)
}

/// The last `n` of some torrents.
pub open spec fn last_n(entries: Seq<StorageEntry>, n: nat) -> Seq<StorageEntry> {
    if entries.len() <= n {
        entries
    } else {
        entries.skip(entries.len() - n)
    }
}

pub open spec fn ids_of(entries: Seq<StorageEntry>) -> Set<usize> {
    entries.map_values(|e: StorageEntry| e.id).to_set()
}

/// Whether the policy deletes an idle torrent: it was not watched for
/// `keep_days` days, or it is not among the `keep_count` most lately watched
/// idle ones.
pub open spec fn outside_policy(
    idle: Seq<StorageEntry>,
    e: StorageEntry,
    now: int,
    keep_days: Option<u32>,
    keep_count: Option<usize>,
) -> bool {
    ||| keep_days matches Some(d) && unwatched_since(e, now - d * NANOS_PER_DAY)
    ||| keep_count matches Some(n) && !ids_of(last_n(ever_watched(idle), n as nat)).contains(e.id)
}

/// The torrents that the policy deletes.
pub open spec fn policy_deletes(
    entries: Seq<StorageEntry>,
    active: Set<usize>,
    now: int,
    keep_days: Option<u32>,
    keep_count: Option<usize>,
) -> Set<usize> {
    let idle = idle_by_age(entries, active);
    ids_of(idle.filter(|e: StorageEntry| outside_policy(idle, e, now, keep_days, keep_count)))
}

/// A torrent as far as the policy looks at it.
#[derive(Clone, Copy)]
struct Idle {
    id: usize,
    last_watched: Option<i128>,
}

spec fn stands_for(idle: Seq<Idle>, entries: Seq<StorageEntry>) -> bool {
    idle.len() == entries.len() && forall|i: int|
        0 <= i < idle.len() ==> (#[trigger] idle[i]).id == entries[i].id && idle[i].last_watched
            == entries[i].last_watched
}

fn collect_idle(entries: &Vec<StorageEntry>, active: &HashSet<usize>) -> (r: Vec<Idle>)
    ensures
        stands_for(r@, entries@.filter(|e: StorageEntry| !active@.contains(e.id))),
{
    broadcast use vstd::std_specs::hash::group_hash_axioms;

    let mut r: Vec<Idle> = Vec::new();
    let ghost kept = |e: StorageEntry| !active@.contains(e.id);
    let mut i: usize = 0;
    while i < entries.len()
        invariant
            i <= entries.len(),
            kept == (|e: StorageEntry| !active@.contains(e.id)),
            stands_for(r@, entries@.take(i as int).filter(kept)),
        decreases entries.len() - i,
    {
        proof {
            assert(entries@.take(i + 1).drop_last() =~= entries@.take(i as int));
            reveal(Seq::filter);
        }
        let e = &entries[i];
        if !active.contains(&e.id) {
            r.push(Idle { id: e.id, last_watched: e.last_watched });
        }
        i = i + 1;
    }
    assert(entries@.take(entries@.len() as int) =~= entries@);
    r
}

fn sort_idle(idle: Vec<Idle>, Ghost(entries): Ghost<Seq<StorageEntry>>) -> (r: Vec<Idle>)
    requires
        stands_for(idle@, entries),
    ensures
        stands_for(r@, by_age(entries)),
{
    let mut keys: Vec<Vec<u64>> = Vec::new();
    let mut i: usize = 0;
    while i < idle.len()
        invariant
            i <= idle.len(),
            stands_for(idle@, entries),
            keys@.len() == i,
            key_seqs(keys@) =~= age_keys(entries).take(i as int),
        decreases idle.len() - i,
    {
        let ghost before = key_seqs(keys@);
        let key = age_key_of(idle[i].last_watched);
        keys.push(key);
        assert(key_seqs(keys@) =~= before.push(key@));
        i = i + 1;
    }
    assert(age_keys(entries).take(entries.len() as int) =~= age_keys(entries));
    let order = rank(&keys);
    let mut r: Vec<Idle> = Vec::new();
    let mut k: usize = 0;
    while k < order.len()
        invariant
            k <= order.len(),
            order.len() == idle.len(),
            forall|j: int| 0 <= j < order.len() ==> (#[trigger] order@[j]) < idle.len(),
            r@.len() == k,
            forall|j: int| 0 <= j < k ==> #[trigger] r@[j] == idle@[order@[j] as int],
        decreases order.len() - k,
    {
        r.push(idle[order[k]]);
        k = k + 1;
    }
    proof {
        assert(positions(order@).len() == order@.len());
        let sorted = by_age(entries);
        assert forall|j: int| 0 <= j < r@.len() implies (#[trigger] r@[j]).id == sorted[j].id
            && r@[j].last_watched == sorted[j].last_watched by {
            assert(positions(order@)[j] == order@[j]);
            assert(idle@[order@[j] as int].id == entries[order@[j] as int].id);
        }
    }
    r
}

proof fn lemma_ids_push(entries: Seq<StorageEntry>, e: StorageEntry)
    ensures
        ids_of(entries.push(e)) == ids_of(entries).insert(e.id),
{
    let f = |e: StorageEntry| e.id;
    let a = entries.map_values(f);
    let b = entries.push(e).map_values(f);
    assert(b =~= a.push(e.id));
    assert forall|x: usize| b.contains(x) <==> (a.contains(x) || x == e.id) by {
        if a.contains(x) {
            let k = choose|k: int| 0 <= k < a.len() && a[k] == x;
            assert(b[k] == x);
        }
        if x == e.id {
            assert(b[a.len() as int] == x);
        }
    }
    assert(ids_of(entries.push(e)) =~= ids_of(entries).insert(e.id));
}

/// The identifiers of the last `n` torrents that were ever watched.
fn lately_watched(idle: &Vec<Idle>, n: usize, Ghost(entries): Ghost<Seq<StorageEntry>>) -> (r:
    HashSet<usize>)
    requires
        stands_for(idle@, entries),
    ensures
        r@ == ids_of(last_n(ever_watched(entries), n as nat)),
{
    broadcast use vstd::std_specs::hash::group_hash_axioms;

    let ghost kept = |e: StorageEntry| e.last_watched is Some;
    let ghost watched = ever_watched(entries);
    // The number of watched torrents before each place.
    let mut total: usize = 0;
    let mut i: usize = 0;
    while i < idle.len()
        invariant
            i <= idle.len(),
            stands_for(idle@, entries),
            kept == (|e: StorageEntry| e.last_watched is Some),
            total == entries.take(i as int).filter(kept).len(),
            total <= i,
        decreases idle.len() - i,
    {
        proof {
            assert(entries.take(i + 1).drop_last() =~= entries.take(i as int));
            reveal(Seq::filter);
        }
        if idle[i].last_watched.is_some() {
            total = total + 1;
        }
        i = i + 1;
    }
    assert(entries.take(entries.len() as int) =~= entries);
    let skip: usize = if total <= n {
        0
    } else {
        total - n
    };
    let mut r: HashSet<usize> = HashSet::new();
    let mut seen: usize = 0;
    let mut k: usize = 0;
    assert(r@ =~= ids_of(Seq::empty()));
    while k < idle.len()
        invariant
            k <= idle.len(),
            stands_for(idle@, entries),
            kept == (|e: StorageEntry| e.last_watched is Some),
            seen == entries.take(k as int).filter(kept).len(),
            seen <= k,
            r@ == ids_of(
                if seen <= skip {
                    Seq::empty()
                } else {
                    entries.take(k as int).filter(kept).skip(skip as int)
                },
            ),
        decreases idle.len() - k,
    {
        let ghost done = entries.take(k as int).filter(kept);
        let ghost e = entries[k as int];
        proof {
            assert(entries.take(k + 1).drop_last() =~= entries.take(k as int));
            assert(entries.take(k + 1).last() == e);
            reveal(Seq::filter);
        }
        if idle[k].last_watched.is_some() {
            if seen >= skip {
                r.insert(idle[k].id);
                proof {
                    let before = if seen <= skip {
                        Seq::empty()
                    } else {
                        done.skip(skip as int)
                    };
                    assert(done.push(e).skip(skip as int) =~= before.push(e));
                    lemma_ids_push(before, e);
                }
            }
            seen = seen + 1;
        }
        k = k + 1;
    }
    proof {
        assert(total == watched.len());
        if skip == 0 {
            assert(watched.skip(0) =~= watched);
            if watched.len() == 0 {
                assert(watched =~= Seq::empty());
            }
        }
    }
    r
}

/// The torrents that are outside the policy. A torrent in use never is.
pub fn retention_delete_ids(
    entries: &Vec<StorageEntry>,
    active: &HashSet<usize>,
    now: i128,
    keep_days: Option<u32>,
    keep_count: Option<usize>,
) -> (delete: HashSet<usize>)
    requires
        sane_time(now),
    ensures
        delete@ == policy_deletes(entries@, active@, now as int, keep_days, keep_count),
{
    broadcast use vstd::std_specs::hash::group_hash_axioms;

    let ghost idle_entries = entries@.filter(|e: StorageEntry| !active@.contains(e.id));
    let collected = collect_idle(entries, active);
    let idle = sort_idle(collected, Ghost(idle_entries));
    let ghost sorted = by_age(idle_entries);
    let ghost out = |e: StorageEntry|
        outside_policy(sorted, e, now as int, keep_days, keep_count);
    let cutoff: Option<i128> = match keep_days {
        Some(d) => Some(now - d as i128 * NANOS_PER_DAY),
        None => None,
    };
    let keep: Option<HashSet<usize>> = match keep_count {
        Some(n) => Some(lately_watched(&idle, n, Ghost(sorted))),
        None => None,
    };
    let mut delete: HashSet<usize> = HashSet::new();
    let mut i: usize = 0;
    proof {
        reveal(Seq::filter);
        assert(delete@ =~= ids_of(sorted.take(0).filter(out)));
    }
    while i < idle.len()
        invariant
            i <= idle.len(),
            stands_for(idle@, sorted),
            out == (|e: StorageEntry|
                outside_policy(sorted, e, now as int, keep_days, keep_count)),
            match (keep_days, cutoff) {
                (Some(d), Some(c)) => c == now - d * NANOS_PER_DAY,
                (None, None) => true,
                _ => false,
            },
            match (keep_count, keep) {
                (Some(n), Some(k)) => k@ == ids_of(last_n(ever_watched(sorted), n as nat)),
                (None, None) => true,
                _ => false,
            },
            delete@ == ids_of(sorted.take(i as int).filter(out)),
        decreases idle.len() - i,
    {
        let ghost e = sorted[i as int];
        let ghost done = sorted.take(i as int).filter(out);
        proof {
            assert(sorted.take(i + 1).drop_last() =~= sorted.take(i as int));
            assert(sorted.take(i + 1).last() == e);
            reveal(Seq::filter);
        }
        let stale = match cutoff {
            Some(c) => match idle[i].last_watched {
                Some(t) => t < c,
                None => true,
            },
            None => false,
        };
        let surplus = match &keep {
            Some(k) => !k.contains(&idle[i].id),
            None => false,
        };
        if stale || surplus {
            delete.insert(idle[i].id);
            proof {
                assert(out(e));
                lemma_ids_push(done, e);
            }
        }
        i = i + 1;
    }
    assert(sorted.take(sorted.len() as int) =~= sorted);
    delete
}

proof fn lemma_by_age_members(entries: Seq<StorageEntry>)
    ensures
        by_age(entries).len() == entries.len(),
        forall|i: int|
            0 <= i < by_age(entries).len() ==> entries.contains(#[trigger] by_age(entries)[i]),
{
    crate::order::law_ranking(age_keys(entries));
    let order = ranked(age_keys(entries));
    assert forall|i: int| 0 <= i < by_age(entries).len() implies entries.contains(
        #[trigger] by_age(entries)[i],
    ) by {
        assert(entries[order[i]] == by_age(entries)[i]);
    }
}

/// The policy never deletes a torrent that is in use, and without a policy
/// nothing is deleted.
pub proof fn law_active_torrents_are_kept(
    entries: Seq<StorageEntry>,
    active: Set<usize>,
    now: int,
    keep_days: Option<u32>,
    keep_count: Option<usize>,
)
    ensures
        forall|id: usize| #[trigger]
            policy_deletes(entries, active, now, keep_days, keep_count).contains(id)
                ==> !active.contains(id),
        forall|id: usize| !#[trigger] policy_deletes(entries, active, now, None, None).contains(id),
{
    let kept = |e: StorageEntry| !active.contains(e.id);
    let idle_entries = entries.filter(kept);
    let idle = by_age(idle_entries);
    lemma_by_age_members(idle_entries);
    assert forall|days: Option<u32>, count: Option<usize>, id: usize| #[trigger]
        policy_deletes(entries, active, now, days, count).contains(id) implies !active.contains(
        id,
    ) && (days is Some || count is Some) by {
        let out = |e: StorageEntry| outside_policy(idle, e, now, days, count);
        let chosen = idle.filter(out);
        let ids = chosen.map_values(|e: StorageEntry| e.id);
        assert(ids.contains(id));
        let k = choose|k: int| 0 <= k < ids.len() && ids[k] == id;
        let e = chosen[k];
        chosen_is_member(idle, out, k);
        assert(idle.contains(e));
        let j = choose|j: int| 0 <= j < idle.len() && idle[j] == e;
        assert(idle_entries.contains(e));
        let m = choose|m: int| 0 <= m < idle_entries.len() && idle_entries[m] == e;
        chosen_is_member(entries, kept, m);
    }
}

/// What a filter lets through was there before and passes the filter.
proof fn chosen_is_member(s: Seq<StorageEntry>, f: spec_fn(StorageEntry) -> bool, k: int)
    requires
        0 <= k < s.filter(f).len(),
    ensures
        s.contains(s.filter(f)[k]),
        f(s.filter(f)[k]),
    decreases s.len(),
{
    reveal(Seq::filter);
    if s.len() > 0 {
        let before = s.drop_last().filter(f);
        if k < before.len() {
            chosen_is_member(s.drop_last(), f, k);
            let e = before[k];
            let j = choose|j: int| 0 <= j < s.len() - 1 && s.drop_last()[j] == e;
            assert(s[j] == e);
        } else {
            assert(s[s.len() - 1] == s.filter(f)[k]);
        }
    }
}

/// Sorted by age, no torrent comes before one that was watched earlier or
/// never.
pub proof fn law_oldest_first(entries: Seq<StorageEntry>)
    ensures
        by_age(entries).len() == entries.len(),
        forall|i: int, j: int|
            0 <= i < j < entries.len() ==> match (
                (#[trigger] by_age(entries)[i]).last_watched,
                (#[trigger] by_age(entries)[j]).last_watched,
            ) {
                (None, _) => true,
                (Some(_), None) => false,
                (Some(x), Some(y)) => x <= y,
            },
{
    let keys = age_keys(entries);
    crate::order::law_ranking(keys);
    let order = ranked(keys);
    assert forall|i: int, j: int| 0 <= i < j < entries.len() implies match (
        (#[trigger] by_age(entries)[i]).last_watched,
        (#[trigger] by_age(entries)[j]).last_watched,
    ) {
        (None, _) => true,
        (Some(_), None) => false,
        (Some(x), Some(y)) => x <= y,
    } by {
        let a = order[i];
        let b = order[j];
        assert(crate::order::key_ge(keys[a], keys[b]));
        lemma_age_key(entries[a].last_watched, entries[b].last_watched);
    }
}

// ---------------------------------------------------------------------------
// A sweep over the torrents
// ---------------------------------------------------------------------------

/// One sweep: first the torrents outside the policy are deleted, then, while
/// the disk is too full, the longest unwatched ones.
#[derive(Debug)]
pub struct StorageSweep {
    /// The torrents by age.
    pub entries: Vec<StorageEntry>,
    /// Those outside the policy.
    pub policy: HashSet<usize>,
    /// Those that have been deleted.
    pub deleted_ids: HashSet<usize>,
    /// How many have been deleted.
    pub deleted: usize,
    /// The bytes that the torrents and what they left behind take up.
    pub total_allocated: u64,
    /// The next torrent to look at.
    pub cursor: usize,
}

/// The bytes of a number of gigabytes, held to `u64`.
pub open spec fn gigabytes(gb: u64) -> u64 {
    if gb * 0x4000_0000 <= u64::MAX {
        (gb * 0x4000_0000) as u64
    } else {
        u64::MAX
    }
}

fn bytes_of_gigabytes(gb: u64) -> (r: u64)
    ensures
        r == gigabytes(gb),
{
    let bytes: u128 = gb as u128 * 0x4000_0000;
    if bytes <= u64::MAX as u128 {
        bytes as u64
    } else {
        u64::MAX
    }
}

/// Whether the torrents take up more than they may, or less than enough of the
/// disk is free.
pub open spec fn under_pressure(
    total: u64,
    max_storage_gb: Option<u64>,
    free: Option<u64>,
    min_free_gb: Option<u64>,
) -> bool {
    ||| max_storage_gb matches Some(gb) && total > gigabytes(gb)
    ||| min_free_gb matches Some(gb) && (free matches Some(f) && f < gigabytes(gb))
}

pub fn is_under_pressure(
    total: u64,
    max_storage_gb: Option<u64>,
    free: Option<u64>,
    min_free_gb: Option<u64>,
) -> (r: bool)
    ensures
        r == under_pressure(total, max_storage_gb, free, min_free_gb),
{
    let over = match max_storage_gb {
        Some(gb) => total > bytes_of_gigabytes(gb),
        None => false,
    };
    let below = match min_free_gb {
        Some(gb) => match free {
            Some(f) => f < bytes_of_gigabytes(gb),
            None => false,
        },
        None => false,
    };
    over || below
}

/// The first torrent from a place on of which something holds.
pub open spec fn next_where(
    entries: Seq<StorageEntry>,
    from: nat,
    f: spec_fn(StorageEntry) -> bool,
) -> Option<nat>
    decreases entries.len() - from,
{
    if from >= entries.len() {
        None
    } else if f(entries[from as int]) {
        Some(from)
    } else {
        next_where(entries, from + 1, f)
    }
}

impl StorageSweep {
    /// Begins a sweep over torrents of which the given ones are in use.
    pub fn new(
        entries: Vec<StorageEntry>,
        active: &HashSet<usize>,
        now: i128,
        keep_days: Option<u32>,
        keep_count: Option<usize>,
        total_allocated: u64,
    ) -> (r: StorageSweep)
        requires
            sane_time(now),
        ensures
            r.entries@ == by_age(entries@),
            r.policy@ == policy_deletes(
                by_age(entries@),
                active@,
                now as int,
                keep_days,
                keep_count,
            ),
            r.deleted_ids@ == Set::<usize>::empty(),
            r.deleted == 0,
            r.total_allocated == total_allocated,
            r.cursor == 0,
    {
        let sorted = sort_by_age(entries);
        let policy = retention_delete_ids(&sorted, active, now, keep_days, keep_count);
        StorageSweep {
            entries: sorted,
            policy,
            deleted_ids: HashSet::new(),
            deleted: 0,
            total_allocated,
            cursor: 0,
        }
    }

    /// The next torrent outside the policy that is not in use.
    pub fn policy_step(&mut self, active: &HashSet<usize>) -> (r: Option<usize>)
        requires
            old(self).cursor <= old(self).entries@.len(),
        ensures
            ({
                let next = next_where(
                    old(self).entries@,
                    old(self).cursor as nat,
                    |e: StorageEntry| old(self).policy@.contains(e.id) && !active@.contains(e.id),
                );
                match r {
                    Some(p) => next == Some(p as nat) && p < old(self).entries@.len()
                        && final(self).cursor == p + 1,
                    None => next is None && final(self).cursor == old(self).entries@.len(),
                }
            }),
            final(self).entries == old(self).entries,
            final(self).policy == old(self).policy,
            final(self).deleted_ids == old(self).deleted_ids,
            final(self).deleted == old(self).deleted,
            final(self).total_allocated == old(self).total_allocated,
    {
        broadcast use vstd::std_specs::hash::group_hash_axioms;

        let ghost f = |e: StorageEntry|
            old(self).policy@.contains(e.id) && !active@.contains(e.id);
        let ghost start = self.cursor as nat;
        while self.cursor < self.entries.len()
            invariant
                self.cursor <= self.entries@.len(),
                self.entries == old(self).entries,
                self.policy == old(self).policy,
                self.deleted_ids == old(self).deleted_ids,
                self.deleted == old(self).deleted,
                self.total_allocated == old(self).total_allocated,
                f == (|e: StorageEntry|
                    old(self).policy@.contains(e.id) && !active@.contains(e.id)),
                start == old(self).cursor,
                next_where(self.entries@, start, f) == next_where(
                    self.entries@,
                    self.cursor as nat,
                    f,
                ),
            decreases self.entries@.len() - self.cursor,
        {
            let p: usize = self.cursor;
            let id: usize = self.entries[p].id;
            self.cursor = p + 1;
            if self.policy.contains(&id) && !active.contains(&id) {
                return Some(p);
            }
        }
        None
    }

    /// Goes back to the first torrent, for the disk's sake.
    pub fn restart(&mut self)
        ensures
            *final(self) == (StorageSweep { cursor: 0, ..*old(self) }),
    {
        self.cursor = 0;
    }

    /// The next torrent to delete while the disk is too full: the longest
    /// unwatched one that is neither deleted nor in use. None where the disk is
    /// not too full, or no such torrent is left.
    pub fn pressure_step(
        &mut self,
        active: &HashSet<usize>,
        max_storage_gb: Option<u64>,
        free: Option<u64>,
        min_free_gb: Option<u64>,
    ) -> (r: Option<usize>)
        requires
            old(self).cursor <= old(self).entries@.len(),
        ensures
            ({
                let pressed = under_pressure(
                    old(self).total_allocated,
                    max_storage_gb,
                    free,
                    min_free_gb,
                );
                let next = next_where(
                    old(self).entries@,
                    old(self).cursor as nat,
                    |e: StorageEntry|
                        !old(self).deleted_ids@.contains(e.id) && !active@.contains(e.id),
                );
                match r {
                    Some(p) => pressed && next == Some(p as nat) && p < old(self).entries@.len()
                        && final(self).cursor == p + 1,
                    None => !pressed && final(self).cursor == old(self).cursor || pressed && next
                        is None && final(self).cursor == old(self).entries@.len(),
                }
            }),
            final(self).entries == old(self).entries,
            final(self).policy == old(self).policy,
            final(self).deleted_ids == old(self).deleted_ids,
            final(self).deleted == old(self).deleted,
            final(self).total_allocated == old(self).total_allocated,
    {
        broadcast use vstd::std_specs::hash::group_hash_axioms;

        if !is_under_pressure(self.total_allocated, max_storage_gb, free, min_free_gb) {
            return None;
        }
        let ghost f = |e: StorageEntry|
            !old(self).deleted_ids@.contains(e.id) && !active@.contains(e.id);
        let ghost start = self.cursor as nat;
        while self.cursor < self.entries.len()
            invariant
                under_pressure(old(self).total_allocated, max_storage_gb, free, min_free_gb),
                self.cursor <= self.entries@.len(),
                self.entries == old(self).entries,
                self.policy == old(self).policy,
                self.deleted_ids == old(self).deleted_ids,
                self.deleted == old(self).deleted,
                self.total_allocated == old(self).total_allocated,
                f == (|e: StorageEntry|
                    !old(self).deleted_ids@.contains(e.id) && !active@.contains(e.id)),
                start == old(self).cursor,
                next_where(self.entries@, start, f) == next_where(
                    self.entries@,
                    self.cursor as nat,
                    f,
                ),
            decreases self.entries@.len() - self.cursor,
        {
            let p: usize = self.cursor;
            let id: usize = self.entries[p].id;
            self.cursor = p + 1;
            if !self.deleted_ids.contains(&id) && !active.contains(&id) {
                return Some(p);
            }
        }
        None
    }

    /// Notes that a torrent has been deleted.
    pub fn note_deleted(&mut self, position: usize)
        requires
            position < old(self).entries@.len(),
            old(self).deleted < usize::MAX,
        ensures
            final(self).deleted == old(self).deleted + 1,
            final(self).deleted_ids@ == old(self).deleted_ids@.insert(
                old(self).entries@[position as int].id,
            ),
            final(self).total_allocated == less(
                old(self).total_allocated,
                old(self).entries@[position as int].allocated_bytes,
            ),
            final(self).entries == old(self).entries,
            final(self).policy == old(self).policy,
            final(self).cursor == old(self).cursor,
    {
        broadcast use vstd::std_specs::hash::group_hash_axioms;

        let id: usize = self.entries[position].id;
        let bytes: u64 = self.entries[position].allocated_bytes;
        self.deleted = self.deleted + 1;
        self.deleted_ids.insert(id);
        self.total_allocated = self.total_allocated.saturating_sub(bytes);
    }

    /// Notes that something left behind has been removed.
    pub fn note_orphan(&mut self, bytes: u64)
        ensures
            *final(self) == (StorageSweep {
                total_allocated: less(old(self).total_allocated, bytes),
                ..*old(self)
            }),
    {
        self.total_allocated = self.total_allocated.saturating_sub(bytes);
    }

    /// Whether what was left behind can be told from what belongs to a torrent:
    /// no torrent is stored in the data directory itself.
    pub fn orphan_cleanup_safe(&self, data_dir: &str) -> (r: bool)
        ensures
            r == forall|i: int|
                0 <= i < self.entries@.len() ==> !texts(
                    (#[trigger] self.entries@[i]).storage_paths@,
                ).contains(data_dir@),
    {
        let mut i: usize = 0;
        while i < self.entries.len()
            invariant
                i <= self.entries.len(),
                forall|k: int|
                    0 <= k < i ==> !texts((#[trigger] self.entries@[k]).storage_paths@).contains(
                        data_dir@,
                    ),
            decreases self.entries.len() - i,
        {
            if crate::text::list_has(&self.entries[i].storage_paths, data_dir) {
                return false;
            }
            i = i + 1;
        }
        true
    }

    /// Whether an entry of the data directory belongs to a torrent that has not
    /// been deleted.
    pub open spec fn protects(&self, data_dir: Seq<char>, path: Seq<char>) -> bool {
        exists|i: int, k: int|
            0 <= i < self.entries@.len() && 0 <= k < self.entries@[i].storage_paths@.len()
                && !self.deleted_ids@.contains(self.entries@[i].id) && #[trigger] storage_root(
                data_dir,
                self.entries@[i].storage_paths@[k]@,
            ) == Some(path)
    }

    pub fn is_protected(&self, data_dir: &str, path: &str) -> (r: bool)
        ensures
            r == self.protects(data_dir@, path@),
    {
        broadcast use vstd::std_specs::hash::group_hash_axioms;

        let mut i: usize = 0;
        while i < self.entries.len()
            invariant
                i <= self.entries.len(),
                forall|a: int, k: int|
                    0 <= a < i && 0 <= k < self.entries@[a].storage_paths@.len()
                        && !self.deleted_ids@.contains(self.entries@[a].id)
                        ==> #[trigger] storage_root(
                        data_dir@,
                        self.entries@[a].storage_paths@[k]@,
                    ) != Some(path@),
            decreases self.entries.len() - i,
        {
            if !self.deleted_ids.contains(&self.entries[i].id) {
                let paths = &self.entries[i].storage_paths;
                let mut k: usize = 0;
                while k < paths.len()
                    invariant
                        k <= paths.len(),
                        i < self.entries.len(),
                        !self.deleted_ids@.contains(self.entries@[i as int].id),
                        *paths == self.entries@[i as int].storage_paths,
                        forall|j: int|
                            0 <= j < k ==> #[trigger] storage_root(data_dir@, paths@[j]@) != Some(
                                path@,
                            ),
                    decreases paths.len() - k,
                {
                    if let Some(root) = top_level_storage_root(data_dir, paths[k].as_str()) {
                        if same_text(root.as_str(), path) {
                            assert(storage_root(
                                data_dir@,
                                self.entries@[i as int].storage_paths@[k as int]@,
                            ) == Some(path@));
                            return true;
                        }
                    }
                    k = k + 1;
                }
            }
            i = i + 1;
        }
        false
    }
}

/// A difference, or nothing where it would be negative.
pub open spec fn less(a: u64, b: u64) -> u64 {
    if a >= b {
        (a - b) as u64
    } else {
        0
    }
}

/// How old something left behind must be before it is removed, in seconds.
pub const ORPHAN_AGE_SECS: u64 = 600;

/// Whether an entry of the data directory is removed: it belongs to no torrent
/// and its age is known and great enough.
pub fn remove_orphan(protected: bool, age_secs: Option<u64>, minimum_age_secs: u64) -> (r: bool)
    ensures
        r == (!protected && (age_secs matches Some(a) && a >= minimum_age_secs)),
{
    !protected && match age_secs {
        Some(a) => a >= minimum_age_secs,
        None => false,
    }
}

proof fn lemma_next_where(entries: Seq<StorageEntry>, from: nat, f: spec_fn(StorageEntry) -> bool)
    ensures
        match next_where(entries, from, f) {
            Some(p) => from <= p < entries.len() && f(entries[p as int]) && forall|k: int|
                from <= k < p ==> !f(#[trigger] entries[k]),
            None => forall|k: int| from <= k < entries.len() ==> !f(#[trigger] entries[k]),
        },
    decreases entries.len() - from,
{
    if from < entries.len() && !f(entries[from as int]) {
        lemma_next_where(entries, from + 1, f);
    }
}

/// A sweep deletes only torrents that are not in use, and for the disk's sake
/// the longest unwatched of them first.
pub proof fn law_sweep_spares_active_torrents(
    entries: Seq<StorageEntry>,
    from: nat,
    chosen: Set<usize>,
    active: Set<usize>,
)
    ensures
        ({
            let next = next_where(
                entries,
                from,
                |e: StorageEntry| chosen.contains(e.id) && !active.contains(e.id),
            );
            next matches Some(p) ==> from <= p < entries.len() && !active.contains(
                entries[p as int].id,
            ) && forall|k: int|
                from <= k < p ==> !chosen.contains((#[trigger] entries[k]).id) || active.contains(
                    entries[k].id,
                )
        }),
        ({
            let next = next_where(
                entries,
                from,
                |e: StorageEntry| !chosen.contains(e.id) && !active.contains(e.id),
            );
            next matches Some(p) ==> from <= p < entries.len() && !active.contains(
                entries[p as int].id,
            ) && forall|k: int|
                from <= k < p ==> chosen.contains((#[trigger] entries[k]).id) || active.contains(
                    entries[k].id,
                )
        }),
{
    lemma_next_where(
        entries,
        from,
        |e: StorageEntry| chosen.contains(e.id) && !active.contains(e.id),
    );
    lemma_next_where(
        entries,
        from,
        |e: StorageEntry| !chosen.contains(e.id) && !active.contains(e.id),
    );
}

// ---------------------------------------------------------------------------
// Laws of deletion
// ---------------------------------------------------------------------------

proof fn lemma_by_age_holds(entries: Seq<StorageEntry>, k: int)
    requires
        0 <= k < entries.len(),
    ensures
        by_age(entries).contains(entries[k]),
{
    let keys = age_keys(entries);
    crate::order::law_ranking(keys);
    let order = ranked(keys);
    assert(order.contains(k));
    let j = choose|j: int| 0 <= j < order.len() && order[j] == k;
    assert(by_age(entries)[j] == entries[k]);
}

/// Of a list whose later members all pass a filter once one does, the filter leaves the
/// end.
proof fn lemma_filter_is_the_end(s: Seq<StorageEntry>, f: spec_fn(StorageEntry) -> bool)
    requires
        forall|i: int, j: int|
            0 <= i < j < s.len() && f(#[trigger] s[i]) ==> f(#[trigger] s[j]),
    ensures
        s.filter(f).len() <= s.len(),
        s.filter(f) == s.skip(s.len() - s.filter(f).len()),
        forall|i: int| 0 <= i < s.len() - s.filter(f).len() ==> !f(#[trigger] s[i]),
    decreases s.len(),
{
    reveal(Seq::filter);
    if s.len() > 0 {
        let short = s.drop_last();
        assert forall|i: int, j: int|
            0 <= i < j < short.len() && f(#[trigger] short[i]) implies f(#[trigger] short[j]) by {
            assert(short[i] == s[i] && short[j] == s[j]);
        }
        lemma_filter_is_the_end(short, f);
        let before = short.filter(f);
        let all = s.filter(f);
        if f(s.last()) {
            assert(all =~= s.skip(s.len() - all.len()));
            assert forall|i: int| 0 <= i < s.len() - all.len() implies !f(#[trigger] s[i]) by {
                assert(short[i] == s[i]);
            }
        } else {
            assert forall|i: int| 0 <= i < s.len() implies !f(#[trigger] s[i]) by {
                if i < s.len() - 1 {
                    assert(s[s.len() - 1] == s.last());
                }
            }
            if before.len() > 0 {
                assert(before[0] == short[short.len() - before.len()]);
                chosen_is_member(short, f, 0);
                assert(f(s[short.len() - before.len()]));
            }
            assert(all =~= s.skip(s.len() - all.len()));
        }
    } else {
        assert(s.filter(f) =~= s.skip(0));
    }
}

proof fn lemma_deleted(
    idle: Seq<StorageEntry>,
    p: int,
    now: int,
    keep_days: Option<u32>,
    keep_count: Option<usize>,
)
    requires
        0 <= p < idle.len(),
        outside_policy(idle, idle[p], now, keep_days, keep_count),
    ensures
        ids_of(
            idle.filter(|e: StorageEntry| outside_policy(idle, e, now, keep_days, keep_count)),
        ).contains(idle[p].id),
{
    let f = |e: StorageEntry| outside_policy(idle, e, now, keep_days, keep_count);
    idle.lemma_filter_contains(f, p);
    let chosen = idle.filter(f);
    let ids = chosen.map_values(|e: StorageEntry| e.id);
    let j = choose|j: int| 0 <= j < chosen.len() && chosen[j] == idle[p];
    assert(ids[j] == idle[p].id);
}

/// A torrent that is not in use is deleted where it was not watched for the days that
/// torrents are kept, or never.
pub proof fn law_unwatched_torrents_go(
    entries: Seq<StorageEntry>,
    active: Set<usize>,
    now: int,
    keep_days: u32,
    keep_count: Option<usize>,
    k: int,
)
    requires
        0 <= k < entries.len(),
        !active.contains(entries[k].id),
        entries[k].last_watched matches Some(t) ==> now - t > keep_days * 86_400_000_000_000,
    ensures
        policy_deletes(entries, active, now, Some(keep_days), keep_count).contains(entries[k].id),
{
    let kept = |e: StorageEntry| !active.contains(e.id);
    entries.lemma_filter_contains(kept, k);
    let rest = entries.filter(kept);
    let j = choose|j: int| 0 <= j < rest.len() && rest[j] == entries[k];
    lemma_by_age_holds(rest, j);
    let idle = by_age(rest);
    let p = choose|p: int| 0 <= p < idle.len() && idle[p] == entries[k];
    assert(idle == idle_by_age(entries, active));
    lemma_deleted(idle, p, now, Some(keep_days), keep_count);
}

/// A torrent that was watched within the days that torrents are kept stays, where
/// nothing else is asked for.
pub proof fn law_lately_watched_torrents_stay(
    entries: Seq<StorageEntry>,
    active: Set<usize>,
    now: int,
    keep_days: u32,
    id: usize,
)
    requires
        forall|k: int|
            0 <= k < entries.len() && (#[trigger] entries[k]).id == id ==> (
            entries[k].last_watched matches Some(t) && now - t <= keep_days * 86_400_000_000_000),
    ensures
        !policy_deletes(entries, active, now, Some(keep_days), None).contains(id),
{
    let kept = |e: StorageEntry| !active.contains(e.id);
    let rest = entries.filter(kept);
    let idle = by_age(rest);
    lemma_by_age_members(rest);
    if policy_deletes(entries, active, now, Some(keep_days), None).contains(id) {
        let f = |e: StorageEntry| outside_policy(idle, e, now, Some(keep_days), None);
        let chosen = idle.filter(f);
        let ids = chosen.map_values(|e: StorageEntry| e.id);
        assert(idle == idle_by_age(entries, active));
        assert(ids.contains(id));
        let k = choose|k: int| 0 <= k < ids.len() && ids[k] == id;
        chosen_is_member(idle, f, k);
        let e = chosen[k];
        assert(idle.contains(e));
        let j = choose|j: int| 0 <= j < idle.len() && idle[j] == e;
        assert(rest.contains(idle[j]));
        let m = choose|m: int| 0 <= m < rest.len() && rest[m] == e;
        chosen_is_member(entries, kept, m);
        let i = choose|i: int| 0 <= i < entries.len() && entries[i] == e;
        assert(entries[i].id == id);
    }
}

/// Where a number of torrents is kept, it is the most lately watched ones: of those not
/// in use, by age, the one at a place is deleted where it was never watched or where so
/// many come behind it, and else it stays.
pub proof fn law_most_lately_watched_are_kept(
    entries: Seq<StorageEntry>,
    active: Set<usize>,
    now: int,
    keep_count: usize,
    p: int,
)
    requires
        0 <= p < idle_by_age(entries, active).len(),
        forall|i: int, j: int|
            0 <= i < j < idle_by_age(entries, active).len() ==> (#[trigger] idle_by_age(
                entries,
                active,
            )[i]).id != (#[trigger] idle_by_age(entries, active)[j]).id,
    ensures
        ({
            let idle = idle_by_age(entries, active);
            policy_deletes(entries, active, now, None, Some(keep_count)).contains(idle[p].id) <==> (
            idle[p].last_watched is None || idle.len() - p > keep_count)
        }),
{
    let rest = entries.filter(|e: StorageEntry| !active.contains(e.id));
    let idle = by_age(rest);
    assert(idle == idle_by_age(entries, active));
    law_oldest_first(rest);
    let seen = |e: StorageEntry| e.last_watched is Some;
    assert forall|i: int, j: int|
        0 <= i < j < idle.len() && seen(#[trigger] idle[i]) implies seen(#[trigger] idle[j]) by {}
    lemma_filter_is_the_end(idle, seen);
    let watched = idle.filter(seen);
    assert(watched == ever_watched(idle));
    let last = last_n(watched, keep_count as nat);
    let from = idle.len() - last.len();
    assert(last =~= idle.skip(from));
    let ids = last.map_values(|e: StorageEntry| e.id);
    let keeps = idle[p].last_watched is Some && idle.len() - p <= keep_count;
    if p >= from {
        assert(ids[p - from] == idle[p].id);
        assert(ids.contains(idle[p].id));
        assert(last[p - from] == idle[p]);
        assert(seen(idle[p])) by {
            assert(idle[p] == watched[p - (idle.len() - watched.len())]);
            chosen_is_member(idle, seen, p - (idle.len() - watched.len()));
        }
    } else if ids.contains(idle[p].id) {
        let k = choose|k: int| 0 <= k < ids.len() && ids[k] == idle[p].id;
        assert(last[k] == idle[from + k]);
        assert(idle[p].id != idle[from + k].id);
    }
    assert(ids_of(last).contains(idle[p].id) <==> p >= from);
    assert(p >= from <==> keeps);
    if !keeps {
        lemma_deleted(idle, p, now, None, Some(keep_count));
    } else if policy_deletes(entries, active, now, None, Some(keep_count)).contains(idle[p].id) {
        let f = |e: StorageEntry| outside_policy(idle, e, now, None, Some(keep_count));
        let chosen = idle.filter(f);
        let chosen_ids = chosen.map_values(|e: StorageEntry| e.id);
        assert(chosen_ids.contains(idle[p].id));
        let k = choose|k: int| 0 <= k < chosen_ids.len() && chosen_ids[k] == idle[p].id;
        chosen_is_member(idle, f, k);
        assert(!ids_of(last).contains(chosen[k].id));
    }
}

/// The torrents by age are the same torrents.
pub proof fn law_ageing_loses_none(entries: Seq<StorageEntry>, e: StorageEntry)
    ensures
        by_age(entries).contains(e) <==> entries.contains(e),
{
    lemma_by_age_members(entries);
    if entries.contains(e) {
        let k = choose|k: int| 0 <= k < entries.len() && entries[k] == e;
        lemma_by_age_holds(entries, k);
    }
    if by_age(entries).contains(e) {
        let k = choose|k: int| 0 <= k < by_age(entries).len() && by_age(entries)[k] == e;
        assert(entries.contains(by_age(entries)[k]));
    }
}

/// The disk is too full where the torrents take up more gigabytes of 1024 megabytes
/// than they may, or fewer are free than must be; what is not limited or not known
/// never makes it so.
pub proof fn law_pressure(
    total: u64,
    max_storage_gb: Option<u64>,
    free: Option<u64>,
    min_free_gb: Option<u64>,
)
    ensures
        max_storage_gb matches Some(gb) && total > gb * (1024 * 1024 * 1024) ==> under_pressure(
            total,
            max_storage_gb,
            free,
            min_free_gb,
        ),
        (min_free_gb matches Some(gb) && (free matches Some(f) && gb * (1024 * 1024 * 1024)
            <= u64::MAX && f < gb * (1024 * 1024 * 1024))) ==> under_pressure(
            total,
            max_storage_gb,
            free,
            min_free_gb,
        ),
        (max_storage_gb matches Some(gb) ==> total <= gb * (1024 * 1024 * 1024)) && (
        min_free_gb matches Some(gb) ==> (free matches Some(f) ==> f >= gb * (1024 * 1024 * 1024)))
            ==> !under_pressure(total, max_storage_gb, free, min_free_gb),
{
}

/// A sweep passes over no torrent that it is to delete.
pub proof fn law_sweep_misses_none(
    entries: Seq<StorageEntry>,
    from: nat,
    f: spec_fn(StorageEntry) -> bool,
    k: int,
)
    requires
        from <= k < entries.len(),
        f(entries[k]),
    ensures
        next_where(entries, from, f) matches Some(p) && from <= p <= k && f(entries[p as int]),
    decreases entries.len() - from,
{
    if !f(entries[from as int]) {
        law_sweep_misses_none(entries, from + 1, f, k);
    }
}

/// What is freed no longer counts, and never more than there was.
pub proof fn law_freed_bytes(total: u64, bytes: u64)
    ensures
        bytes <= total ==> less(total, bytes) + bytes == total,
        bytes > total ==> less(total, bytes) == 0,
{
}

/// Every file of a torrent whose name leads nowhere else is stored in its folder, and
/// nothing is stored outside.
pub proof fn law_files_are_in_the_folder(
    folder: Seq<char>,
    files: Seq<Seq<Seq<char>>>,
    k: int,
    j: int,
)
    ensures
        0 <= k < files.len() && (forall|i: int|
            0 <= i < files[k].len() ==> crate::paths::safe_component(#[trigger] files[k][i]))
            ==> file_paths(folder, files).contains(crate::paths::joined(folder, files[k])),
        0 <= j < file_paths(folder, files).len() ==> crate::text::begins(
            file_paths(folder, files)[j],
            folder,
        ),
    decreases files.len(),
{
    if files.len() > 0 {
        let before = file_paths(folder, files.drop_last());
        let all = file_paths(folder, files);
        let parts = files.last();
        law_files_are_in_the_folder(folder, files.drop_last(), k, j);
        if 0 <= k < files.len() - 1 {
            let path = crate::paths::joined(folder, files[k]);
            assert(files.drop_last()[k] == files[k]);
            if before.contains(path) {
                let i = choose|i: int| 0 <= i < before.len() && before[i] == path;
                assert(all[i] == path);
            }
        } else if k == files.len() - 1 && forall|i: int|
            0 <= i < parts.len() ==> crate::paths::safe_component(#[trigger] parts[i]) {
            assert(all[all.len() - 1] == crate::paths::joined(folder, parts));
        }
        if j == before.len() && j < all.len() {
            crate::paths::law_joined_path_stays_inside(folder, parts);
        } else if 0 <= j < before.len() {
            assert(all[j] == before[j]);
        }
    }
}

} // verus!
