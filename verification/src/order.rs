//! Ranking by keys that are compared number by number, and lists without
//! repetitions.

use vstd::prelude::*;

use crate::text::{list_has, push_arg, texts};

verus! {

// ---------------------------------------------------------------------------
// Keys
// ---------------------------------------------------------------------------

/// Whether key `a` is at least key `b`: at the first place where they differ,
/// `a` has the greater number.
pub open spec fn key_ge(a: Seq<u64>, b: Seq<u64>) -> bool
    decreases a.len(),
{
    if b.len() == 0 {
        true
    } else if a.len() == 0 {
        false
    } else if a[0] != b[0] {
        a[0] > b[0]
    } else {
        key_ge(a.skip(1), b.skip(1))
    }
}

proof fn lemma_key_total(a: Seq<u64>, b: Seq<u64>)
    ensures
        key_ge(a, b) || key_ge(b, a),
        key_ge(a, a),
    decreases a.len(),
{
    if a.len() > 0 {
        lemma_key_total(a.skip(1), b.skip(1));
    }
}

proof fn lemma_key_transitive(a: Seq<u64>, b: Seq<u64>, c: Seq<u64>)
    requires
        key_ge(a, b),
        key_ge(b, c),
    ensures
        key_ge(a, c),
    decreases a.len(),
{
    if c.len() > 0 && a[0] == b[0] && b[0] == c[0] {
        lemma_key_transitive(a.skip(1), b.skip(1), c.skip(1));
    }
}

fn key_at_least(a: &Vec<u64>, b: &Vec<u64>) -> (r: bool)
    ensures
        r == key_ge(a@, b@),
{
    let mut i: usize = 0;
    assert(a@.skip(0) =~= a@);
    assert(b@.skip(0) =~= b@);
    while i < a.len() && i < b.len() && a[i] == b[i]
        invariant
            i <= a.len(),
            i <= b.len(),
            key_ge(a@, b@) == key_ge(a@.skip(i as int), b@.skip(i as int)),
        decreases a.len() - i,
    {
        assert(a@.skip(i as int).skip(1) =~= a@.skip(i + 1));
        assert(b@.skip(i as int).skip(1) =~= b@.skip(i + 1));
        i = i + 1;
    }
    if i == b.len() {
        true
    } else if i == a.len() {
        false
    } else {
        a[i] > b[i]
    }
}

// ---------------------------------------------------------------------------
// Ranking
// ---------------------------------------------------------------------------

/// The keys as sequences.
pub open spec fn key_seqs(keys: Seq<Vec<u64>>) -> Seq<Seq<u64>> {
    keys.map_values(|k: Vec<u64>| k@)
}

pub open spec fn positions(order: Seq<usize>) -> Seq<int> {
    order.map_values(|i: usize| i as int)
}

/// Where a new key goes in a ranking: behind the last one that is at least as
/// great.
pub open spec fn place(keys: Seq<Seq<u64>>, order: Seq<int>, key: Seq<u64>) -> int
    decreases order.len(),
{
    if order.len() == 0 || key_ge(keys[order.last()], key) {
        order.len() as int
    } else {
        place(keys, order.drop_last(), key)
    }
}

/// The positions of some keys from the greatest to the least, equal ones in
/// their order.
pub open spec fn ranked(keys: Seq<Seq<u64>>) -> Seq<int>
    decreases keys.len(),
{
    if keys.len() == 0 {
        Seq::empty()
    } else {
        let order = ranked(keys.drop_last());
        order.insert(place(keys, order, keys.last()), keys.len() - 1)
    }
}

pub(crate) proof fn lemma_place(keys: Seq<Seq<u64>>, order: Seq<int>, key: Seq<u64>)
    ensures
        0 <= place(keys, order, key) <= order.len(),
        place(keys, order, key) > 0 ==> key_ge(keys[order[place(keys, order, key) - 1]], key),
        forall|i: int|
            place(keys, order, key) <= i < order.len() ==> !key_ge(keys[#[trigger] order[i]], key),
    decreases order.len(),
{
    if order.len() > 0 && !key_ge(keys[order.last()], key) {
        lemma_place(keys, order.drop_last(), key);
        assert forall|i: int| place(keys, order, key) <= i < order.len() implies !key_ge(
            keys[#[trigger] order[i]],
            key,
        ) by {
            if i < order.len() - 1 {
                assert(order[i] == order.drop_last()[i]);
            }
        }
    }
}

/// A ranking holds every position once, from the greatest key to the least;
/// equal keys keep their order.
pub proof fn law_ranking(keys: Seq<Seq<u64>>)
    ensures
        ranked(keys).len() == keys.len(),
        ranked(keys).no_duplicates(),
        forall|i: int| 0 <= i < keys.len() ==> 0 <= #[trigger] ranked(keys)[i] < keys.len(),
        forall|p: int| 0 <= p < keys.len() ==> ranked(keys).contains(p),
        forall|i: int, j: int|
            0 <= i < j < keys.len() ==> {
                let a = #[trigger] ranked(keys)[i];
                let b = #[trigger] ranked(keys)[j];
                key_ge(keys[a], keys[b]) && (key_ge(keys[b], keys[a]) ==> a < b)
            },
    decreases keys.len(),
{
    if keys.len() > 0 {
        let short = keys.drop_last();
        let order = ranked(short);
        let n = keys.len() - 1;
        law_ranking(short);
        let p = place(keys, order, keys.last());
        lemma_place(keys, order, keys.last());
        let r = order.insert(p, n);
        assert forall|i: int| 0 <= i < keys.len() implies 0 <= #[trigger] r[i] < keys.len() by {
            if i < p {
                assert(r[i] == order[i]);
            } else if i > p {
                assert(r[i] == order[i - 1]);
            }
        }
        assert forall|x: int| 0 <= x < keys.len() implies r.contains(x) by {
            if x == n {
                assert(r[p] == n);
            } else {
                assert(order.contains(x));
                let k = choose|k: int| 0 <= k < order.len() && order[k] == x;
                if k < p {
                    assert(r[k] == x);
                } else {
                    assert(r[k + 1] == x);
                }
            }
        }
        assert forall|i: int, j: int| 0 <= i < j < keys.len() implies {
            let a = #[trigger] r[i];
            let b = #[trigger] r[j];
            key_ge(keys[a], keys[b]) && (key_ge(keys[b], keys[a]) ==> a < b)
        } by {
            let oi = if i < p {
                i
            } else {
                i - 1
            };
            let oj = if j < p {
                j
            } else {
                j - 1
            };
            if i != p && j != p {
                assert(r[i] == order[oi] && r[j] == order[oj]);
                assert(keys[order[oi]] == short[order[oi]]);
                assert(keys[order[oj]] == short[order[oj]]);
            } else if j == p {
                // The new key comes behind one that is at least as great, and so
                // behind all before that.
                assert(r[i] == order[i]);
                let q = order[p - 1];
                if i < p - 1 {
                    assert(key_ge(short[order[i]], short[q]));
                    lemma_key_transitive(keys[order[i]], keys[q], keys.last());
                }
            } else {
                assert(r[j] == order[j - 1]);
                lemma_key_total(keys[order[j - 1]], keys.last());
            }
        }
        assert(r.no_duplicates()) by {
            assert forall|i: int, j: int| 0 <= i < r.len() && 0 <= j < r.len() && i != j implies r[i]
                != r[j] by {
                let oi = if i < p {
                    i
                } else {
                    i - 1
                };
                let oj = if j < p {
                    j
                } else {
                    j - 1
                };
                if i != p && j != p {
                    assert(r[i] == order[oi] && r[j] == order[oj]);
                } else if i == p {
                    assert(r[j] == order[oj]);
                } else {
                    assert(r[i] == order[oi]);
                }
            }
        }
    }
}

/// Ranks some keys from the greatest to the least, equal ones in their order.
pub fn rank(keys: &Vec<Vec<u64>>) -> (order: Vec<usize>)
    ensures
        positions(order@) == ranked(key_seqs(keys@)),
        order.len() == keys.len(),
        forall|i: int| 0 <= i < order.len() ==> (#[trigger] order@[i]) < keys.len(),
{
    let ghost all = key_seqs(keys@);
    let mut order: Vec<usize> = Vec::new();
    let mut i: usize = 0;
    assert(positions(order@) =~= ranked(all.take(0)));
    while i < keys.len()
        invariant
            i <= keys.len(),
            all == key_seqs(keys@),
            positions(order@) == ranked(all.take(i as int)),
            order.len() == i,
            forall|k: int| 0 <= k < order.len() ==> (#[trigger] order@[k]) < i,
        decreases keys.len() - i,
    {
        let ghost pos = positions(order@);
        let ghost upto = all.take(i + 1);
        let mut p: usize = order.len();
        assert(pos.take(p as int) =~= pos);
        proof {
            assert(upto.drop_last() =~= all.take(i as int));
        }
        while p > 0 && !key_at_least(&keys[order[p - 1]], &keys[i])
            invariant
                i < keys.len(),
                p <= order.len(),
                order.len() == i,
                all == key_seqs(keys@),
                upto == all.take(i + 1),
                pos == positions(order@),
                forall|k: int| 0 <= k < order.len() ==> (#[trigger] order@[k]) < i,
                place(upto, pos, all[i as int]) == place(upto, pos.take(p as int), all[i as int]),
            decreases p,
        {
            assert(pos.take(p as int).drop_last() =~= pos.take(p - 1));
            assert(upto[order@[p - 1] as int] == keys@[order@[p - 1] as int]@);
            p = p - 1;
        }
        proof {
            if p > 0 {
                assert(upto[order@[p - 1] as int] == keys@[order@[p - 1] as int]@);
                assert(pos.take(p as int).last() == order@[p - 1]);
            }
            assert(upto.last() == all[i as int]);
        }
        let ghost before = order@;
        order.insert(p, i);
        proof {
            assert(positions(order@) =~= pos.insert(p as int, i as int));
            assert forall|k: int| 0 <= k < order.len() implies (#[trigger] order@[k]) < i + 1 by {
                if k < p {
                    assert(order@[k] == before[k]);
                } else if k > p {
                    assert(order@[k] == before[k - 1]);
                }
            }
        }
        i = i + 1;
    }
    assert(all.take(all.len() as int) =~= all);
    order
}

// ---------------------------------------------------------------------------
// Lists without repetitions
// ---------------------------------------------------------------------------

/// `base` followed by those of `more` that have not come before.
pub open spec fn extended<A>(base: Seq<A>, more: Seq<A>) -> Seq<A>
    decreases more.len(),
{
    if more.len() == 0 {
        base
    } else {
        let before = extended(base, more.drop_last());
        if before.contains(more.last()) {
            before
        } else {
            before.push(more.last())
        }
    }
}

/// The members of a list, each where it first comes.
pub open spec fn distinct<A>(s: Seq<A>) -> Seq<A> {
    extended(Seq::empty(), s)
}

/// Nothing comes twice in a list that is made distinct, and nothing is lost.
pub proof fn law_distinct<A>(s: Seq<A>)
    ensures
        distinct(s).no_duplicates(),
        distinct(s).len() <= s.len(),
        forall|x: A| distinct(s).contains(x) <==> s.contains(x),
    decreases s.len(),
{
    if s.len() > 0 {
        law_distinct(s.drop_last());
        let before = distinct(s.drop_last());
        assert forall|x: A| distinct(s).contains(x) <==> s.contains(x) by {
            if s.contains(x) {
                let i = choose|i: int| 0 <= i < s.len() && s[i] == x;
                if i < s.len() - 1 {
                    assert(s.drop_last()[i] == x);
                    assert(s.drop_last().contains(x));
                    assert(before.contains(x));
                    let k = choose|k: int| 0 <= k < before.len() && before[k] == x;
                    assert(distinct(s)[k] == x);
                } else if !before.contains(x) {
                    assert(distinct(s).last() == x);
                }
            }
            if distinct(s).contains(x) {
                let k = choose|k: int| 0 <= k < distinct(s).len() && distinct(s)[k] == x;
                if k < before.len() {
                    assert(before[k] == x);
                    assert(s.drop_last().contains(x));
                    let i = choose|i: int| 0 <= i < s.len() - 1 && s.drop_last()[i] == x;
                    assert(s[i] == x);
                } else {
                    assert(s[s.len() - 1] == x);
                }
            }
        }
    }
}

/// Appends `s` where the list does not hold it.
pub fn push_distinct(list: &mut Vec<String>, s: &str) -> (added: bool)
    ensures
        texts(final(list)@) == extended(texts(old(list)@), seq![s@]),
        added == !texts(old(list)@).contains(s@),
{
    let ghost before = texts(list@);
    proof {
        reveal_with_fuel(extended, 2);
        assert(seq![s@].drop_last() =~= Seq::<Seq<char>>::empty());
    }
    if list_has(list, s) {
        false
    } else {
        push_arg(list, s);
        true
    }
}

/// Adding one at a time is adding all.
pub proof fn lemma_extended_push<A>(base: Seq<A>, more: Seq<A>, x: A)
    ensures
        extended(base, more.push(x)) == extended(extended(base, more), seq![x]),
{
    reveal_with_fuel(extended, 2);
    assert(more.push(x).drop_last() =~= more);
    assert(seq![x].drop_last() =~= Seq::<A>::empty());
}

/// Of two keys the one with the greater number at the first place where they differ is
/// the greater one, and one that another begins with is the lesser.
pub proof fn law_keys_are_compared_from_the_front(a: Seq<u64>, b: Seq<u64>, k: int)
    requires
        0 <= k < a.len(),
        k <= b.len(),
        forall|i: int| 0 <= i < k ==> a[i] == b[i],
        k < b.len() ==> a[k] > b[k],
    ensures
        key_ge(a, b),
        !key_ge(b, a),
    decreases k,
{
    if k > 0 {
        assert(a[0] == b[0]);
        assert forall|i: int| 0 <= i < k - 1 implies a.skip(1)[i] == b.skip(1)[i] by {
            assert(a.skip(1)[i] == a[i + 1] && b.skip(1)[i] == b[i + 1]);
        }
        law_keys_are_compared_from_the_front(a.skip(1), b.skip(1), k - 1);
    }
}

/// A list without repetitions begins as that of any of its beginnings does: what comes
/// first stays first.
pub proof fn law_first_occurrences_stay_in_order<A>(x: Seq<A>, y: Seq<A>)
    ensures
        distinct(x).len() <= distinct(x + y).len(),
        distinct(x + y).take(distinct(x).len() as int) == distinct(x),
        x.no_duplicates() ==> distinct(x) == x,
    decreases x.len() + y.len(),
{
    let first = distinct(x);
    if y.len() == 0 {
        assert(x + y =~= x);
        assert(first.take(first.len() as int) =~= first);
    } else {
        law_first_occurrences_stay_in_order(x, y.drop_last());
        assert((x + y).drop_last() =~= x + y.drop_last());
        let before = distinct(x + y.drop_last());
        let all = distinct(x + y);
        assert(all.take(first.len() as int) =~= before.take(first.len() as int));
    }
    if x.no_duplicates() && x.len() > 0 {
        let short = x.drop_last();
        law_first_occurrences_stay_in_order(short, Seq::empty());
        assert(short.no_duplicates());
        if short.contains(x.last()) {
            let i = choose|i: int| 0 <= i < short.len() && short[i] == x.last();
            assert(x[i] == x[x.len() - 1]);
        }
        assert(short.push(x.last()) =~= x);
    }
}

} // verus!
