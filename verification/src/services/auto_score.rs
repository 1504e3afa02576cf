//! How good a torrent is as the source of a playback that is to start at once.

use vstd::prelude::*;

use crate::languages::{lang_to_two_letter, two_letters};
use crate::media::Media;
use crate::order::{key_seqs, positions, rank, ranked};
use crate::playback::source::{first_of, is_type, MediaSourceInfo, MediaStream, MediaStreamType};
use crate::text::{
    eq_ignore_case, list_has, lower, push_arg, push_args, same_folded, same_text, split_words,
    str_opt, text_opt, texts, to_lower, words, Separator,
};
use crate::torrent::{ManagedTorrentAvailability, TorrentPreflight};
use crate::torrent_availability::{PeerAvailability, TrackerAvailability};

verus! {

// ---------------------------------------------------------------------------
// Arithmetic
// ---------------------------------------------------------------------------

/// A number, held to `u64`.
pub open spec fn held(n: int) -> u64 {
    if n <= u64::MAX {
        n as u64
    } else {
        u64::MAX
    }
}

fn times(a: u64, b: u64) -> (r: u64)
    ensures
        r == held(a * b),
{
    assert(0 <= a * b <= u64::MAX * u64::MAX) by (nonlinear_arith)
        requires
            a <= u64::MAX,
            b <= u64::MAX,
            a >= 0,
            b >= 0,
    ;
    let product: u128 = a as u128 * b as u128;
    if product <= u64::MAX as u128 {
        product as u64
    } else {
        u64::MAX
    }
}

fn plus(a: u64, b: u64) -> (r: u64)
    ensures
        r == held(a + b),
{
    a.saturating_add(b)
}

/// The greatest `k` with `2^k <= n`.
pub open spec fn log2(n: nat) -> nat
    decreases n,
{
    if n < 2 {
        0
    } else {
        1 + log2(n / 2)
    }
}

fn log2_of(n: u64) -> (k: u64)
    ensures
        k == log2(n as nat),
        k <= n,
        k <= 64,
{
    let mut rest: u64 = n;
    let mut k: u64 = 0;
    proof {
        crate::binary64::lemma_two_to_small();
        lemma_log2_bound(n as nat, 64);
    }
    while rest >= 2
        invariant
            log2(n as nat) == k + log2(rest as nat),
            k + rest <= n,
            log2(n as nat) <= 64,
        decreases rest,
    {
        rest = rest / 2;
        k = k + 1;
    }
    k
}

proof fn lemma_log2_bound(n: nat, k: nat)
    requires
        n <= crate::binary64::two_to(k),
    ensures
        log2(n) <= k,
    decreases k,
{
    if n >= 2 {
        if k == 0 {
            assert(crate::binary64::two_to(0) == 1);
        } else {
            assert(crate::binary64::two_to(k) == 2 * crate::binary64::two_to((k - 1) as nat));
            lemma_log2_bound(n / 2, (k - 1) as nat);
        }
    }
}

// ---------------------------------------------------------------------------
// Sizes
// ---------------------------------------------------------------------------

/// How near a file's size is to the target, in thousandths: the smaller of the
/// two over the greater.
pub open spec fn size_fit(file: Option<u64>, target: Option<u64>) -> u64 {
    match (file, target) {
        (Some(s), Some(t)) => if s > 0 && t > 0 {
            let (small, large) = if s <= t {
                (s, t)
            } else {
                (t, s)
            };
            (held(small * 1000) / large) as u64
        } else {
            500
        },
        (Some(_), None) => 1000,
        _ => 500,
    }
}

pub fn relative_size_fit_score(file_bytes: Option<u64>, target_file_bytes: Option<u64>) -> (r: u64)
    ensures
        r == size_fit(file_bytes, target_file_bytes),
{
    match (file_bytes, target_file_bytes) {
        (Some(s), Some(t)) => {
            if s > 0 && t > 0 {
                let small: u64 = if s <= t {
                    s
                } else {
                    t
                };
                let large: u64 = if s <= t {
                    t
                } else {
                    s
                };
                times(small, 1000) / large
            } else {
                500
            }
        },
        (Some(_), None) => 1000,
        _ => 500,
    }
}

/// A file that is too small and one that is too large by the same factor are
/// worth the same, no file is worth more than one of the size that is asked for,
/// and a factor between whole numbers of bytes makes a difference of no more than
/// one thousandth.
pub proof fn law_size_fit_is_symmetric(target: u64, small: u64, large: u64)
    requires
        0 < small <= target <= large,
        target * 1000 <= u64::MAX,
    ensures
        small * large == target * target ==> size_fit(Some(small), Some(target)) == size_fit(
            Some(large),
            Some(target),
        ),
        large > 1000 && small * large <= target * target < small * (large + 1) ==> {
            let lesser = size_fit(Some(small), Some(target));
            lesser <= size_fit(Some(large), Some(target)) <= lesser + 1
        },
        size_fit(Some(target), Some(target)) == 1000,
        size_fit(Some(small), Some(target)) <= 1000,
        size_fit(Some(large), Some(target)) <= 1000,
{
    let s = small as int;
    let t = target as int;
    let l = large as int;
    let x = s * 1000 / t;
    let y = t * 1000 / l;
    vstd::arithmetic::div_mod::lemma_fundamental_div_mod(s * 1000, t);
    vstd::arithmetic::div_mod::lemma_fundamental_div_mod(t * 1000, l);
    assert(x * t <= s * 1000 < (x + 1) * t) by (nonlinear_arith)
        requires
            s * 1000 == t * x + s * 1000 % t,
            0 <= s * 1000 % t < t,
    ;
    assert(y * l <= t * 1000 < (y + 1) * l) by (nonlinear_arith)
        requires
            t * 1000 == l * y + t * 1000 % l,
            0 <= t * 1000 % l < l,
    ;
    assert(0 <= x <= 1000) by (nonlinear_arith)
        requires
            0 < s <= t,
            x * t <= s * 1000 < (x + 1) * t,
    ;
    assert(0 <= y <= 1000) by (nonlinear_arith)
        requires
            0 < t <= l,
            y * l <= t * 1000 < (y + 1) * l,
    ;
    assert(t * 1000 / t == 1000) by (nonlinear_arith)
        requires
            t > 0,
    ;
    if s * l <= t * t {
        lemma_no_less(s, t, t, l, x, y);
    }
    if s * l == t * t {
        assert(y <= x) by {
            lemma_no_less(t, l, s, t, y, x);
        }
    }
    if l > 1000 && s * l <= t * t && t * t < s * (l + 1) {
        lemma_one_more(s, t, l, x, y);
    }
}

/// Thousandths of `a` in `b` and of `c` in `d` compare as the products across.
proof fn lemma_no_less(a: int, b: int, c: int, d: int, x: int, y: int)
    requires
        a > 0,
        b > 0,
        c > 0,
        d > 0,
        a * d <= c * b,
        x * b <= a * 1000,
        c * 1000 < (y + 1) * d,
    ensures
        x <= y,
{
    assert(x * b * d <= a * 1000 * d) by (nonlinear_arith)
        requires
            x * b <= a * 1000,
            d > 0,
    ;
    assert(a * 1000 * d <= 1000 * c * b) by (nonlinear_arith)
        requires
            a * d <= c * b,
    ;
    assert(x * d <= 1000 * c) by (nonlinear_arith)
        requires
            x * b * d <= 1000 * c * b,
            b > 0,
    ;
    assert(x < y + 1) by (nonlinear_arith)
        requires
            x * d < (y + 1) * d,
            d > 0,
    ;
}

proof fn lemma_one_more(s: int, t: int, l: int, x: int, y: int)
    requires
        s > 0,
        t > 0,
        l > 1000,
        t * t < s * (l + 1),
        0 <= x <= 1000,
        s * 1000 < (x + 1) * t,
        y * l <= t * 1000,
    ensures
        y <= x + 1,
{
    assert(1000 * t * t < 1000 * s * (l + 1)) by (nonlinear_arith)
        requires
            t * t < s * (l + 1),
    ;
    assert(1000 * s * (l + 1) < (x + 1) * t * (l + 1)) by (nonlinear_arith)
        requires
            s * 1000 < (x + 1) * t,
            l > 0,
    ;
    assert(1000 * t < (x + 1) * (l + 1)) by (nonlinear_arith)
        requires
            1000 * t * t < (x + 1) * t * (l + 1),
            t > 0,
    ;
    assert(y < x + 2) by (nonlinear_arith)
        requires
            y * l < (x + 1) * (l + 1),
            l > 1000,
            0 <= x <= 1000,
    ;
}

pub open spec fn rising_keys(values: Seq<u64>) -> Seq<Seq<u64>> {
    values.map_values(|v: u64| seq![(u64::MAX - v) as u64])
}

/// The values from the least to the greatest.
pub open spec fn rising(values: Seq<u64>) -> Seq<u64> {
    ranked(rising_keys(values)).map_values(|i: int| values[i])
}

/// The middle value, or the lower of the two in the middle.
pub open spec fn median(values: Seq<u64>) -> Option<u64> {
    if values.len() == 0 {
        None
    } else {
        Some(rising(values)[(values.len() - 1) / 2])
    }
}

pub fn lower_median(values: Vec<u64>) -> (r: Option<u64>)
    ensures
        r == median(values@),
{
    if values.len() == 0 {
        return None;
    }
    let mut keys: Vec<Vec<u64>> = Vec::new();
    let mut i: usize = 0;
    while i < values.len()
        invariant
            i <= values.len(),
            keys@.len() == i,
            key_seqs(keys@) =~= rising_keys(values@).take(i as int),
        decreases values.len() - i,
    {
        let ghost before = key_seqs(keys@);
        let mut key: Vec<u64> = Vec::new();
        key.push(u64::MAX - values[i]);
        assert(key@ =~= seq![(u64::MAX - values@[i as int]) as u64]);
        keys.push(key);
        assert(key_seqs(keys@) =~= before.push(key@));
        i = i + 1;
    }
    assert(rising_keys(values@).take(values@.len() as int) =~= rising_keys(values@));
    let order = rank(&keys);
    let middle: usize = order[(values.len() - 1) / 2];
    assert(positions(order@)[(values@.len() - 1) / 2] == middle);
    Some(values[middle])
}

/// The values that are less than `m`.
pub open spec fn below(m: u64) -> spec_fn(u64) -> bool {
    |v: u64| v < m
}

/// The values that are no greater than `m`.
pub open spec fn up_to(m: u64) -> spec_fn(u64) -> bool {
    |v: u64| v <= m
}

proof fn lemma_rising(values: Seq<u64>)
    ensures
        rising(values).len() == values.len(),
        forall|i: int, j: int|
            0 <= i < j < values.len() ==> #[trigger] rising(values)[i] <= #[trigger] rising(
                values,
            )[j],
        values.len() > 0 ==> values.contains(median(values)->0),
{
    let keys = rising_keys(values);
    crate::order::law_ranking(keys);
    let order = ranked(keys);
    assert forall|i: int, j: int| 0 <= i < j < values.len() implies #[trigger] rising(values)[i]
        <= #[trigger] rising(values)[j] by {
        let a = order[i];
        let b = order[j];
        assert(crate::order::key_ge(keys[a], keys[b]));
        assert(keys[a][0] >= keys[b][0]) by {
            reveal_with_fuel(crate::order::key_ge, 2);
        }
    }
    if values.len() > 0 {
        let m = (values.len() - 1) / 2;
        assert(values[order[m]] == median(values)->0);
    }
}

proof fn lemma_count_of_insert(s: Seq<u64>, i: int, v: u64, f: spec_fn(u64) -> bool)
    requires
        0 <= i <= s.len(),
    ensures
        s.insert(i, v).filter(f).len() == s.filter(f).len() + (if f(v) {
            1int
        } else {
            0
        }),
{
    let a = s.take(i);
    let b = s.skip(i);
    assert(s =~= a + b);
    assert(s.insert(i, v) =~= a.push(v) + b);
    Seq::filter_distributes_over_add(a, b, f);
    Seq::filter_distributes_over_add(a.push(v), b, f);
    assert(a.push(v).drop_last() =~= a);
    assert(a.push(v).filter(f).len() == a.filter(f).len() + (if f(v) {
        1int
    } else {
        0
    })) by {
        reveal(Seq::filter);
    }
}

/// Values in order are the same values.
proof fn lemma_rising_counts(values: Seq<u64>, f: spec_fn(u64) -> bool)
    ensures
        rising(values).filter(f).len() == values.filter(f).len(),
    decreases values.len(),
{
    let keys = rising_keys(values);
    if values.len() == 0 {
        assert(rising(values) =~= values);
    } else {
        let short = values.drop_last();
        let last = values.last();
        let order = ranked(keys.drop_last());
        assert(keys.drop_last() =~= rising_keys(short));
        crate::order::law_ranking(keys.drop_last());
        crate::order::lemma_place(keys, order, keys.last());
        let p = crate::order::place(keys, order, keys.last());
        assert(rising(values) =~= rising(short).insert(p, last)) by {
            let r = rising(short).insert(p, last);
            assert forall|i: int| 0 <= i < values.len() implies rising(values)[i] == r[i] by {
                if i < p {
                    assert(ranked(keys)[i] == order[i]);
                } else if i > p {
                    assert(ranked(keys)[i] == order[i - 1]);
                }
            }
        }
        lemma_count_of_insert(rising(short), p, last, f);
        lemma_rising_counts(short, f);
        assert(values.filter(f).len() == short.filter(f).len() + (if f(last) {
            1int
        } else {
            0
        })) by {
            reveal(Seq::filter);
        }
    }
}

proof fn lemma_filter_none(s: Seq<u64>, f: spec_fn(u64) -> bool)
    requires
        forall|i: int| 0 <= i < s.len() ==> !f(#[trigger] s[i]),
    ensures
        s.filter(f).len() == 0,
    decreases s.len(),
{
    reveal(Seq::filter);
    if s.len() > 0 {
        assert(!f(s[s.len() - 1]));
        assert forall|i: int| 0 <= i < s.len() - 1 implies !f(#[trigger] s.drop_last()[i]) by {
            assert(s.drop_last()[i] == s[i]);
        }
        lemma_filter_none(s.drop_last(), f);
    }
}

proof fn lemma_filter_all(s: Seq<u64>, f: spec_fn(u64) -> bool)
    requires
        forall|i: int| 0 <= i < s.len() ==> f(#[trigger] s[i]),
    ensures
        s.filter(f).len() == s.len(),
    decreases s.len(),
{
    reveal(Seq::filter);
    if s.len() > 0 {
        assert(f(s[s.len() - 1]));
        assert forall|i: int| 0 <= i < s.len() - 1 implies f(#[trigger] s.drop_last()[i]) by {
            assert(s.drop_last()[i] == s[i]);
        }
        lemma_filter_all(s.drop_last(), f);
    }
}

/// The values that fit one thing are no more than those that fit a weaker one.
proof fn lemma_filter_weaker(s: Seq<u64>, f: spec_fn(u64) -> bool, g: spec_fn(u64) -> bool)
    requires
        forall|v: u64| #[trigger] f(v) ==> g(v),
    ensures
        s.filter(f).len() <= s.filter(g).len(),
    decreases s.len(),
{
    reveal(Seq::filter);
    if s.len() > 0 {
        lemma_filter_weaker(s.drop_last(), f, g);
    }
}

/// How many values fit is a matter of the values alone, not of their order.
proof fn lemma_filter_of_multiset(s: Seq<u64>, f: spec_fn(u64) -> bool)
    ensures
        s.filter(f).len() == s.to_multiset().filter(f).len(),
    decreases s.len(),
{
    s.to_multiset_ensures();
    if s.len() == 0 {
        reveal(Seq::filter);
        assert(s.to_multiset().filter(f) =~= vstd::multiset::Multiset::empty());
    } else {
        let short = s.drop_last();
        let last = s.last();
        lemma_filter_of_multiset(short, f);
        short.to_multiset_ensures();
        assert(s =~= short.push(last));
        let before = short.to_multiset();
        assert(s.to_multiset() =~= before.insert(last));
        if f(last) {
            assert(before.insert(last).filter(f) =~= before.filter(f).insert(last));
        } else {
            assert(before.insert(last).filter(f) =~= before.filter(f));
        }
        reveal(Seq::filter);
    }
}

/// The median is one of the values: no more than half of the others are less
/// than it, and with it more than half of them are no greater. There is none of
/// no values.
pub proof fn law_median(values: Seq<u64>)
    ensures
        median(values) is None <==> values.len() == 0,
        median(values) matches Some(m) ==> {
            &&& values.contains(m)
            &&& values.filter(below(m)).len() <= (values.len() - 1) / 2
            &&& values.filter(up_to(m)).len() > (values.len() - 1) / 2
        },
{
    if values.len() > 0 {
        lemma_rising(values);
        let m = median(values)->0;
        let r = rising(values);
        let k = (values.len() - 1) / 2;
        lemma_rising_counts(values, below(m));
        lemma_rising_counts(values, up_to(m));
        assert(r =~= r.take(k) + r.skip(k));
        Seq::filter_distributes_over_add(r.take(k), r.skip(k), below(m));
        assert forall|i: int| 0 <= i < r.skip(k).len() implies !below(m)(#[trigger] r.skip(k)[i]) by {
            assert(r.skip(k)[i] == r[k + i]);
            assert(r[k] <= r[k + i]);
        }
        lemma_filter_none(r.skip(k), below(m));
        r.take(k).lemma_filter_len(below(m));
        assert(r =~= r.take(k + 1) + r.skip(k + 1));
        Seq::filter_distributes_over_add(r.take(k + 1), r.skip(k + 1), up_to(m));
        assert forall|i: int| 0 <= i < r.take(k + 1).len() implies up_to(m)(
            #[trigger] r.take(k + 1)[i],
        ) by {
            assert(r.take(k + 1)[i] == r[i]);
            assert(r[i] <= r[k]);
        }
        lemma_filter_all(r.take(k + 1), up_to(m));
    }
}

/// The median does not depend on the order in which the values come.
pub proof fn law_median_of_any_order(values: Seq<u64>, other: Seq<u64>)
    requires
        values.to_multiset() == other.to_multiset(),
    ensures
        median(values) == median(other),
{
    values.to_multiset_ensures();
    other.to_multiset_ensures();
    law_median(values);
    law_median(other);
    if values.len() > 0 {
        let m = median(values)->0;
        let n = median(other)->0;
        lemma_filter_of_multiset(values, below(m));
        lemma_filter_of_multiset(other, below(m));
        lemma_filter_of_multiset(values, below(n));
        lemma_filter_of_multiset(other, below(n));
        if m < n {
            lemma_filter_weaker(values, up_to(m), below(n));
        } else if n < m {
            lemma_filter_weaker(other, up_to(n), below(m));
        }
    }
}

/// A size that is greater than zero.
pub open spec fn known_size(size: Option<i64>) -> Option<u64> {
    match size {
        Some(n) if n > 0 => Some(n as u64),
        _ => None,
    }
}

fn positive_size(size: Option<i64>) -> (r: Option<u64>)
    ensures
        r == known_size(size),
{
    match size {
        Some(n) => if n > 0 {
            Some(n as u64)
        } else {
            None
        },
        None => None,
    }
}

/// The size of a candidate's file: as its metadata say, or else as a probe
/// found it, or else as its provider states it.
pub open spec fn candidate_bytes(c: Media, preflight: Option<TorrentPreflight>) -> Option<u64> {
    let fetched = match preflight {
        Some(p) => p.selected_file_bytes,
        None => None,
    };
    let probed = match c.probe_data {
        Some(p) => known_size(p.size),
        None => None,
    };
    let stated = match c.stream_info {
        Some(i) => known_size(i.size),
        None => None,
    };
    if fetched is Some {
        fetched
    } else if probed is Some {
        probed
    } else {
        stated
    }
}

pub open spec fn deref<T>(r: Option<&T>) -> Option<T> {
    match r {
        Some(x) => Some(*x),
        None => None,
    }
}

pub fn known_candidate_file_bytes(candidate: &Media, preflight: Option<&TorrentPreflight>) -> (r:
    Option<u64>)
    ensures
        r == candidate_bytes(*candidate, deref(preflight)),
{
    if let Some(p) = preflight {
        if p.selected_file_bytes.is_some() {
            return p.selected_file_bytes;
        }
    }
    if let Some(p) = &candidate.probe_data {
        let probed = positive_size(p.size);
        if probed.is_some() {
            return probed;
        }
    }
    match &candidate.stream_info {
        Some(i) => positive_size(i.size),
        None => None,
    }
}

// ---------------------------------------------------------------------------
// What a release says of itself
// ---------------------------------------------------------------------------

pub open spec fn tokens_of(value: Seq<char>) -> Seq<Seq<char>> {
    words(value, Separator::NotAlphanumeric)
}

pub open spec fn stereo_word(t: Seq<char>) -> bool {
    same_folded(t, "3d"@) || same_folded(t, "hsbs"@) || same_folded(t, "hou"@) || same_folded(
        t,
        "mvc"@,
    )
}

pub open spec fn stereo_pair(a: Seq<char>, b: Seq<char>) -> bool {
    (same_folded(a, "h"@) || same_folded(a, "half"@)) && (same_folded(b, "sbs"@) || same_folded(
        b,
        "ou"@,
    ))
}

/// Whether a name announces a stereoscopic picture.
pub open spec fn stereoscopic_tag(value: Seq<char>) -> bool {
    let t = tokens_of(value);
    ||| exists|i: int| 0 <= i < t.len() && stereo_word(#[trigger] t[i])
    ||| exists|i: int| 0 <= i < t.len() - 1 && stereo_pair(#[trigger] t[i], t[i + 1])
}

pub fn has_stereoscopic_release_tag(value: &str) -> (r: bool)
    ensures
        r == stereoscopic_tag(value@),
{
    let tokens = split_words(value, Separator::NotAlphanumeric);
    let ghost t = texts(tokens@);
    assert(t.len() == tokens@.len());
    let mut i: usize = 0;
    while i < tokens.len()
        invariant
            i <= tokens.len(),
            t == texts(tokens@),
            t.len() == tokens@.len(),
            t == tokens_of(value@),
            forall|j: int| 0 <= j < i ==> !stereo_word(#[trigger] t[j]),
            forall|j: int| 0 <= j < i && j + 1 < t.len() ==> !stereo_pair(#[trigger] t[j], t[j + 1]),
        decreases tokens.len() - i,
    {
        let a = tokens[i].as_str();
        assert(a@ == t[i as int]);
        if eq_ignore_case(a, "3d") || eq_ignore_case(a, "hsbs") || eq_ignore_case(a, "hou")
            || eq_ignore_case(a, "mvc") {
            return true;
        }
        if i + 1 < tokens.len() && (eq_ignore_case(a, "h") || eq_ignore_case(a, "half")) {
            let b = tokens[i + 1].as_str();
            assert(b@ == t[i + 1]);
            if eq_ignore_case(b, "sbs") || eq_ignore_case(b, "ou") {
                assert(stereo_pair(t[i as int], t[i + 1]));
                return true;
            }
        }
        i = i + 1;
    }
    false
}

/// The names of a candidate: its title, and what its provider says.
pub open spec fn release_names(c: Media) -> Seq<Seq<char>> {
    seq![c.title@] + match c.stream_info {
        Some(info) => opt_seq(text_opt(info.filename)) + opt_seq(text_opt(info.name)) + opt_seq(
            text_opt(info.description),
        ),
        None => seq![],
    }
}

pub open spec fn opt_seq(s: Option<Seq<char>>) -> Seq<Seq<char>> {
    match s {
        Some(t) => seq![t],
        None => seq![],
    }
}

fn push_opt(list: &mut Vec<String>, s: &Option<String>)
    ensures
        texts(final(list)@) == texts(old(list)@) + opt_seq(text_opt(*s)),
{
    if let Some(t) = s {
        push_arg(list, t.as_str());
    }
    assert(texts(list@) =~= texts(old(list)@) + opt_seq(text_opt(*s)));
}

fn names_of(c: &Media) -> (r: Vec<String>)
    ensures
        texts(r@) == release_names(*c),
{
    let mut r: Vec<String> = Vec::new();
    push_arg(&mut r, c.title.as_str());
    if let Some(info) = &c.stream_info {
        push_opt(&mut r, &info.filename);
        push_opt(&mut r, &info.name);
        push_opt(&mut r, &info.description);
    }
    assert(texts(r@) =~= release_names(*c));
    r
}

/// Whether one of a candidate's names announces a stereoscopic picture.
pub open spec fn stereoscopic(c: Media) -> bool {
    exists|i: int| 0 <= i < release_names(c).len() && stereoscopic_tag(#[trigger] release_names(c)[i])
}

pub fn is_stereoscopic_auto_candidate(candidate: &Media) -> (r: bool)
    ensures
        r == stereoscopic(*candidate),
{
    let names = names_of(candidate);
    let mut i: usize = 0;
    while i < names.len()
        invariant
            i <= names.len(),
            texts(names@) == release_names(*candidate),
            forall|j: int| 0 <= j < i ==> !stereoscopic_tag(#[trigger] texts(names@)[j]),
        decreases names.len() - i,
    {
        if has_stereoscopic_release_tag(names[i].as_str()) {
            assert(stereoscopic_tag(texts(names@)[i as int]));
            return true;
        }
        i = i + 1;
    }
    assert(texts(names@).len() == names@.len());
    false
}

/// The words of some names, in lower case.
pub open spec fn lower_tokens(names: Seq<Seq<char>>) -> Seq<Seq<char>>
    decreases names.len(),
{
    if names.len() == 0 {
        Seq::empty()
    } else {
        lower_tokens(names.drop_last()) + tokens_of(names.last()).map_values(
            |t: Seq<char>| lower(t),
        )
    }
}

/// The words of a candidate's names.
pub open spec fn release_tokens(c: Media) -> Seq<Seq<char>> {
    lower_tokens(release_names(c))
}

fn lower_words(value: &str) -> (r: Vec<String>)
    ensures
        texts(r@) == tokens_of(value@).map_values(|t: Seq<char>| lower(t)),
{
    let tokens = split_words(value, Separator::NotAlphanumeric);
    let ghost want = texts(tokens@).map_values(|t: Seq<char>| lower(t));
    let mut r: Vec<String> = Vec::new();
    let mut i: usize = 0;
    while i < tokens.len()
        invariant
            i <= tokens.len(),
            want == texts(tokens@).map_values(|t: Seq<char>| lower(t)),
            texts(r@) =~= want.take(i as int),
        decreases tokens.len() - i,
    {
        let low = to_lower(tokens[i].as_str());
        push_arg(&mut r, low.as_str());
        i = i + 1;
    }
    assert(want.take(want.len() as int) =~= want);
    r
}

pub fn auto_release_tokens(candidate: &Media) -> (r: Vec<String>)
    ensures
        texts(r@) == release_tokens(*candidate),
{
    let names = names_of(candidate);
    let ghost all = texts(names@);
    let mut r: Vec<String> = Vec::new();
    let mut i: usize = 0;
    assert(texts(r@) =~= Seq::empty());
    while i < names.len()
        invariant
            i <= names.len(),
            all == texts(names@),
            texts(r@) == lower_tokens(all.take(i as int)),
        decreases names.len() - i,
    {
        proof {
            assert(all.take(i + 1).drop_last() =~= all.take(i as int));
            assert(all.take(i + 1).last() == names@[i as int]@);
        }
        let more = lower_words(names[i].as_str());
        push_args(&mut r, more);
        i = i + 1;
    }
    assert(all.take(all.len() as int) =~= all);
    r
}

/// The words of releases that are another cut or a bad recording.
pub open spec fn blocked_word(t: Seq<char>) -> bool {
    t == "rifftrax"@ || t == "parody"@ || t == "fanedit"@ || t == "fanedited"@ || t == "mst3k"@ || t
        == "commentary"@ || t == "camrip"@ || t == "hdcam"@ || t == "telesync"@ || t == "hdts"@ || t
        == "telecine"@ || t == "workprint"@
}

/// Whether a candidate is another cut or a bad recording.
pub open spec fn blocked(c: Media) -> bool {
    let t = release_tokens(c);
    ||| exists|i: int| 0 <= i < t.len() && blocked_word(#[trigger] t[i])
    ||| exists|i: int| 0 <= i < t.len() - 1 && #[trigger] t[i] == "fan"@ && t[i + 1] == "edit"@
}

fn is_blocked_word(t: &str) -> (r: bool)
    ensures
        r == blocked_word(t@),
{
    same_text(t, "rifftrax") || same_text(t, "parody") || same_text(t, "fanedit") || same_text(
        t,
        "fanedited",
    ) || same_text(t, "mst3k") || same_text(t, "commentary") || same_text(t, "camrip")
        || same_text(t, "hdcam") || same_text(t, "telesync") || same_text(t, "hdts") || same_text(
        t,
        "telecine",
    ) || same_text(t, "workprint")
}

pub fn is_blocked_auto_candidate(candidate: &Media) -> (r: bool)
    ensures
        r == blocked(*candidate),
{
    let tokens = auto_release_tokens(candidate);
    let ghost t = texts(tokens@);
    assert(t.len() == tokens@.len());
    let mut i: usize = 0;
    while i < tokens.len()
        invariant
            i <= tokens.len(),
            t == texts(tokens@),
            t.len() == tokens@.len(),
            t == release_tokens(*candidate),
            forall|j: int| 0 <= j < i ==> !blocked_word(#[trigger] t[j]),
            forall|j: int|
                0 <= j < i && j + 1 < t.len() ==> !(#[trigger] t[j] == "fan"@ && t[j + 1] == "edit"@),
        decreases tokens.len() - i,
    {
        let a = tokens[i].as_str();
        assert(a@ == t[i as int]);
        if is_blocked_word(a) {
            return true;
        }
        if i + 1 < tokens.len() && same_text(a, "fan") {
            let b = tokens[i + 1].as_str();
            assert(b@ == t[i + 1]);
            if same_text(b, "edit") {
                assert(t[i as int] == "fan"@ && t[i + 1] == "edit"@);
                return true;
            }
        }
        i = i + 1;
    }
    false
}

// ---------------------------------------------------------------------------
// Languages
// ---------------------------------------------------------------------------

/// The language that a word of a release name announces.
pub open spec fn tag_language(t: Seq<char>) -> Option<Seq<char>> {
    if t == "eng"@ || t == "english"@ {
        Some("en"@)
    } else if t == "vf2"@ || t == "vff"@ || t == "vfi"@ || t == "truefrench"@ || t == "fra"@
        || t == "fre"@ || t == "french"@ {
        Some("fr"@)
    } else if t == "dublado"@ || t == "portuguese"@ || t == "brazilian"@ {
        Some("pt"@)
    } else if t == "latino"@ || t == "castellano"@ || t == "spanish"@ || t == "espanol"@ {
        Some("es"@)
    } else if t == "pldub"@ || t == "lektor"@ || t == "polish"@ {
        Some("pl"@)
    } else if t == "rus"@ || t == "russian"@ {
        Some("ru"@)
    } else if t == "german"@ || t == "deutsch"@ {
        Some("de"@)
    } else if t == "italian"@ {
        Some("it"@)
    } else if t == "hindi"@ {
        Some("hi"@)
    } else if t == "jpn"@ || t == "japanese"@ {
        Some("ja"@)
    } else if t == "korean"@ {
        Some("ko"@)
    } else if t == "mandarin"@ || t == "cantonese"@ || t == "chinese"@ {
        Some("zh"@)
    } else {
        None
    }
}

pub fn release_language_tag(token: &str) -> (r: Option<&'static str>)
    ensures
        str_opt(r) == tag_language(token@),
{
    if same_text(token, "eng") || same_text(token, "english") {
        Some("en")
    } else if same_text(token, "vf2") || same_text(token, "vff") || same_text(token, "vfi")
        || same_text(token, "truefrench") || same_text(token, "fra") || same_text(token, "fre")
        || same_text(token, "french") {
        Some("fr")
    } else if same_text(token, "dublado") || same_text(token, "portuguese")
        || same_text(token, "brazilian") {
        Some("pt")
    } else if same_text(token, "latino") || same_text(token, "castellano")
        || same_text(token, "spanish") || same_text(token, "espanol") {
        Some("es")
    } else if same_text(token, "pldub") || same_text(token, "lektor")
        || same_text(token, "polish") {
        Some("pl")
    } else if same_text(token, "rus") || same_text(token, "russian") {
        Some("ru")
    } else if same_text(token, "german") || same_text(token, "deutsch") {
        Some("de")
    } else if same_text(token, "italian") {
        Some("it")
    } else if same_text(token, "hindi") {
        Some("hi")
    } else if same_text(token, "jpn") || same_text(token, "japanese") {
        Some("ja")
    } else if same_text(token, "korean") {
        Some("ko")
    } else if same_text(token, "mandarin") || same_text(token, "cantonese")
        || same_text(token, "chinese") {
        Some("zh")
    } else {
        None
    }
}

/// The words that are never part of a title.
pub open spec fn strong_tag(t: Seq<char>) -> bool {
    t == "vf2"@ || t == "vff"@ || t == "vfi"@ || t == "truefrench"@ || t == "dublado"@
        || t == "latino"@ || t == "castellano"@ || t == "pldub"@ || t == "lektor"@
}

pub fn is_strong_release_language_tag(token: &str) -> (r: bool)
    ensures
        r == strong_tag(token@),
{
    same_text(token, "vf2") || same_text(token, "vff") || same_text(token, "vfi")
        || same_text(token, "truefrench") || same_text(token, "dublado")
        || same_text(token, "latino") || same_text(token, "castellano")
        || same_text(token, "pldub") || same_text(token, "lektor")
}

/// Whether a stream is audio.
pub open spec fn is_audio(s: MediaStream) -> bool {
    s.type_ == Some(MediaStreamType::Audio)
}

/// The language of a stream, in two letters.
pub open spec fn stream_language(s: MediaStream) -> Option<Seq<char>> {
    match s.language {
        Some(l) => two_letters(l@),
        None => None,
    }
}

/// The evidence of a probe: whether the wanted language is there, or certainly
/// is not.
pub open spec fn probe_evidence(streams: Seq<MediaStream>, wanted: Seq<char>) -> Option<bool> {
    let found = exists|i: int|
        0 <= i < streams.len() && is_audio(#[trigger] streams[i]) && stream_language(streams[i])
            == Some(wanted);
    let some_audio = exists|i: int| 0 <= i < streams.len() && is_audio(#[trigger] streams[i]);
    let all_known = forall|i: int|
        0 <= i < streams.len() && is_audio(#[trigger] streams[i]) ==> stream_language(streams[i])
            is Some;
    if found {
        Some(true)
    } else if some_audio && all_known {
        Some(false)
    } else {
        None
    }
}

fn weigh_probe(streams: &Vec<MediaStream>, wanted: &str) -> (r: Option<bool>)
    ensures
        r == probe_evidence(streams@, wanted@),
{
    let mut some_audio = false;
    let mut all_known = true;
    let mut i: usize = 0;
    while i < streams.len()
        invariant
            i <= streams.len(),
            forall|j: int|
                0 <= j < i && is_audio(#[trigger] streams@[j]) ==> stream_language(streams@[j])
                    != Some(wanted@),
            some_audio == exists|j: int| 0 <= j < i && is_audio(#[trigger] streams@[j]),
            all_known == forall|j: int|
                0 <= j < i && is_audio(#[trigger] streams@[j]) ==> stream_language(streams@[j])
                    is Some,
        decreases streams.len() - i,
    {
        let s = &streams[i];
        if is_type(s, MediaStreamType::Audio) {
            assert(is_audio(streams@[i as int]));
            some_audio = true;
            let language = match &s.language {
                Some(l) => lang_to_two_letter(l.as_str()),
                None => None,
            };
            match language {
                Some(l) => {
                    if same_text(l.as_str(), wanted) {
                        return Some(true);
                    }
                },
                None => {
                    all_known = false;
                },
            }
        }
        i = i + 1;
    }
    if some_audio && all_known {
        Some(false)
    } else {
        None
    }
}

/// Whether a word of a release counts as an announcement of a language: a word
/// of the title does not, unless it is never part of a title.
#[verifier::opaque]
pub open spec fn announces(t: Seq<char>, title_words: Seq<Seq<char>>) -> Option<Seq<char>> {
    if strong_tag(t) || !title_words.contains(t) {
        tag_language(t)
    } else {
        None
    }
}

fn announced(token: &str, title_words: &Vec<String>) -> (r: Option<&'static str>)
    ensures
        str_opt(r) == announces(token@, texts(title_words@)),
{
    proof {
        reveal(announces);
    }
    if is_strong_release_language_tag(token) || !list_has(title_words, token) {
        release_language_tag(token)
    } else {
        None
    }
}

/// Whether the words of a release announce languages, but not the wanted one.
pub open spec fn tags_mismatch(
    tokens: Seq<Seq<char>>,
    title_words: Seq<Seq<char>>,
    wanted: Seq<char>,
) -> bool {
    &&& exists|i: int| 0 <= i < tokens.len() && announces(#[trigger] tokens[i], title_words) is Some
    &&& forall|i: int|
        0 <= i < tokens.len() ==> announces(#[trigger] tokens[i], title_words) != Some(wanted)
}

fn mismatch_of(tokens: &Vec<String>, title_words: &Vec<String>, wanted: &str) -> (r: bool)
    ensures
        r == tags_mismatch(texts(tokens@), texts(title_words@), wanted@),
{
    let ghost t = texts(tokens@);
    let ghost w = texts(title_words@);
    assert(t.len() == tokens@.len());
    let mut some = false;
    let mut i: usize = 0;
    while i < tokens.len()
        invariant
            i <= tokens.len(),
            t == texts(tokens@),
            t.len() == tokens@.len(),
            w == texts(title_words@),
            some == exists|j: int| 0 <= j < i && announces(#[trigger] t[j], w) is Some,
            forall|j: int| 0 <= j < i ==> announces(#[trigger] t[j], w) != Some(wanted@),
        decreases tokens.len() - i,
    {
        let a = tokens[i].as_str();
        assert(a@ == t[i as int]);
        if let Some(l) = announced(a, title_words) {
            assert(announces(t[i as int], w) == Some(l@));
            if same_text(l, wanted) {
                return false;
            }
            some = true;
        }
        i = i + 1;
    }
    some
}

/// Whether a candidate certainly lacks the wanted language. A probe decides
/// where it can; else the words of the release do.
pub open spec fn language_mismatch(
    c: Media,
    wanted: Option<Seq<char>>,
    parent_title: Seq<char>,
) -> bool {
    let letters = match wanted {
        Some(w) => two_letters(w),
        None => None,
    };
    match letters {
        None => false,
        Some(w) => {
            let evidence = match c.probe_data {
                Some(p) => probe_evidence(p.media_streams@, w),
                None => None,
            };
            match evidence {
                Some(found) => !found,
                None => tags_mismatch(
                    release_tokens(c),
                    tokens_of(parent_title).map_values(|t: Seq<char>| lower(t)),
                    w,
                ),
            }
        },
    }
}

pub fn is_language_mismatched_auto_candidate(
    candidate: &Media,
    desired_language: Option<&str>,
    parent_title: &str,
) -> (r: bool)
    ensures
        r == language_mismatch(*candidate, str_opt(desired_language), parent_title@),
{
    let letters = match desired_language {
        Some(w) => lang_to_two_letter(w),
        None => None,
    };
    let wanted = match letters {
        Some(w) => w,
        None => {
            return false;
        },
    };
    if let Some(p) = &candidate.probe_data {
        if let Some(found) = weigh_probe(&p.media_streams, wanted.as_str()) {
            return !found;
        }
    }
    let title_words = lower_words(parent_title);
    let tokens = auto_release_tokens(candidate);
    mismatch_of(&tokens, &title_words, wanted.as_str())
}

// ---------------------------------------------------------------------------
// How easily a file starts
// ---------------------------------------------------------------------------

pub open spec fn video_ease(codec: Seq<char>) -> int {
    if codec == "h264"@ || codec == "avc"@ || codec == "avc1"@ {
        1000
    } else if codec == "hevc"@ || codec == "h265"@ || codec == "hev1"@ || codec == "hvc1"@ {
        650
    } else if codec == "av1"@ {
        600
    } else if codec == "vp9"@ {
        700
    } else {
        750
    }
}

pub open spec fn container_ease(container: Seq<char>) -> int {
    if container == "mp4"@ || container == "m4v"@ || container == "mov"@ {
        1000
    } else if container == "mkv"@ || container == "matroska"@ || container == "webm"@ {
        800
    } else {
        850
    }
}

pub open spec fn audio_ease(codec: Seq<char>) -> int {
    if codec == "aac"@ || codec == "mp3"@ {
        1000
    } else if codec == "ac3"@ || codec == "eac3"@ || codec == "dts"@ || codec == "truehd"@ {
        800
    } else if codec == "opus"@ || codec == "vorbis"@ {
        850
    } else if codec.len() == 0 {
        900
    } else {
        850
    }
}

/// The codec of the first stream of a kind, in lower case.
pub open spec fn codec_of(p: MediaSourceInfo, kind: MediaStreamType) -> Seq<char> {
    match first_of(p.media_streams@, kind) {
        Some(i) => match p.media_streams@[i].codec {
            Some(c) => lower(c@),
            None => Seq::empty(),
        },
        None => Seq::empty(),
    }
}

/// How easily a file starts, in thousandths, as far as a probe tells.
pub open spec fn compatibility(c: Media) -> int {
    match c.probe_data {
        None => 700,
        Some(p) => video_ease(codec_of(p, MediaStreamType::Video)) * container_ease(
            match p.container {
                Some(c) => lower(c@),
                None => Seq::empty(),
            },
        ) / 1000 * audio_ease(codec_of(p, MediaStreamType::Audio)) / 1000,
    }
}

fn lower_codec(s: Option<&MediaStream>) -> (r: String)
    ensures
        r@ == match s {
            Some(s) => match s.codec {
                Some(c) => lower(c@),
                None => Seq::empty(),
            },
            None => Seq::empty(),
        },
{
    match s {
        Some(s) => match &s.codec {
            Some(c) => to_lower(c.as_str()),
            None => String::new(),
        },
        None => String::new(),
    }
}

fn video_ease_of(codec: &str) -> (r: u64)
    ensures
        r == video_ease(codec@),
        r <= 1000,
{
    if same_text(codec, "h264") || same_text(codec, "avc") || same_text(codec, "avc1") {
        1000
    } else if same_text(codec, "hevc") || same_text(codec, "h265") || same_text(codec, "hev1")
        || same_text(codec, "hvc1") {
        650
    } else if same_text(codec, "av1") {
        600
    } else if same_text(codec, "vp9") {
        700
    } else {
        750
    }
}

fn container_ease_of(container: &str) -> (r: u64)
    ensures
        r == container_ease(container@),
        r <= 1000,
{
    if same_text(container, "mp4") || same_text(container, "m4v") || same_text(container, "mov") {
        1000
    } else if same_text(container, "mkv") || same_text(container, "matroska") || same_text(
        container,
        "webm",
    ) {
        800
    } else {
        850
    }
}

fn audio_ease_of(codec: &str) -> (r: u64)
    ensures
        r == audio_ease(codec@),
        r <= 1000,
{
    if same_text(codec, "aac") || same_text(codec, "mp3") {
        1000
    } else if same_text(codec, "ac3") || same_text(codec, "eac3") || same_text(codec, "dts")
        || same_text(codec, "truehd") {
        800
    } else if same_text(codec, "opus") || same_text(codec, "vorbis") {
        850
    } else if codec.is_empty() {
        900
    } else {
        850
    }
}

pub fn startup_compatibility_score(candidate: &Media) -> (r: u64)
    ensures
        r == compatibility(*candidate),
{
    match &candidate.probe_data {
        None => 700,
        Some(p) => {
            let container = match &p.container {
                Some(c) => to_lower(c.as_str()),
                None => String::new(),
            };
            let video_codec = lower_codec(p.video_stream());
            let audio_codec = lower_codec(p.audio_stream());
            let v: u64 = video_ease_of(video_codec.as_str());
            let c: u64 = container_ease_of(container.as_str());
            let a: u64 = audio_ease_of(audio_codec.as_str());
            assert(0 <= v * c <= 1_000_000) by (nonlinear_arith)
                requires
                    0 <= v <= 1000,
                    0 <= c <= 1000,
            ;
            let vc: u64 = v * c / 1000;
            assert(0 <= vc * a <= 1_000_000) by (nonlinear_arith)
                requires
                    0 <= vc <= 1000,
                    0 <= a <= 1000,
            ;
            vc * a / 1000
        },
    }
}

// ---------------------------------------------------------------------------
// The score
// ---------------------------------------------------------------------------

/// How good a candidate is. The first number in which two scores differ
/// decides; of the last two the smaller is the better.
#[derive(Debug, Clone, Copy, PartialEq, Eq, Structural)]
pub struct AutoScore {
    pub tier: u8,
    pub startup_score: u64,
    pub compatibility_score: u64,
    pub quality_score: u64,
    pub active_seeders: usize,
    pub responsive_peers: usize,
    pub progress_per_thousand: u64,
    pub tracker_seeders: u32,
    pub provider_seeders: u64,
    pub file_bytes: u64,
    pub elapsed_ms: u64,
}

impl AutoScore {
    /// The key by which scores are ranked.
    pub open spec fn key(&self) -> Seq<u64> {
        seq![
            self.tier as u64,
            self.startup_score,
            self.compatibility_score,
            self.quality_score,
            self.active_seeders as u64,
            self.responsive_peers as u64,
            self.progress_per_thousand,
            self.tracker_seeders as u64,
            self.provider_seeders,
            (u64::MAX - self.file_bytes) as u64,
            (u64::MAX - self.elapsed_ms) as u64,
        ]
    }

    pub fn rank_key(&self) -> (r: Vec<u64>)
        ensures
            r@ == self.key(),
    {
        let mut r: Vec<u64> = Vec::new();
        r.push(self.tier as u64);
        r.push(self.startup_score);
        r.push(self.compatibility_score);
        r.push(self.quality_score);
        r.push(self.active_seeders as u64);
        r.push(self.responsive_peers as u64);
        r.push(self.progress_per_thousand);
        r.push(self.tracker_seeders as u64);
        r.push(self.provider_seeders);
        r.push(u64::MAX - self.file_bytes);
        r.push(u64::MAX - self.elapsed_ms);
        assert(r@ =~= self.key());
        r
    }
}

/// The state of a candidate that is being downloaded.
pub open spec fn managed_state(preflight: Option<TorrentPreflight>) -> Option<
    ManagedTorrentAvailability,
> {
    match preflight {
        Some(p) => p.managed,
        None => None,
    }
}

/// What is known of a candidate's torrent, in plain numbers.
pub struct Signals {
    pub finished: bool,
    pub live_peers: usize,
    pub seen_peers: usize,
    pub tracker_seeders: u32,
    pub tracker_peers: usize,
    pub active_seeders: usize,
    pub responsive_peers: usize,
    pub provider_seeders: u64,
    pub progress_per_thousand: u64,
}

pub open spec fn signals(
    c: Media,
    preflight: Option<TorrentPreflight>,
    tracker: Option<TrackerAvailability>,
    peer: Option<PeerAvailability>,
) -> Signals {
    let managed = managed_state(preflight);
    Signals {
        finished: managed matches Some(m) && m.finished,
        live_peers: match managed {
            Some(m) => m.live_peers,
            None => 0,
        },
        seen_peers: match preflight {
            Some(p) => p.seen_peers,
            None => 0,
        },
        tracker_seeders: match tracker {
            Some(t) => t.seeders,
            None => 0,
        },
        tracker_peers: match tracker {
            Some(t) => t.peers@.len() as usize,
            None => 0,
        },
        active_seeders: match peer {
            Some(p) => p.seeders,
            None => 0,
        },
        responsive_peers: match peer {
            Some(p) => p.responsive,
            None => 0,
        },
        provider_seeders: if c.stated_seeders() > 0 {
            c.stated_seeders() as u64
        } else {
            0
        },
        progress_per_thousand: match managed {
            Some(m) => if m.total_bytes > 0 {
                (held(m.progress_bytes * 1000) / m.total_bytes) as u64
            } else {
                0
            },
            None => 0,
        },
    }
}

/// The surer it is that the file can be had, the higher the tier.
pub open spec fn tier(s: Signals, probed: bool) -> u8 {
    if s.finished {
        5
    } else if s.live_peers > 0 {
        4
    } else if s.active_seeders > 0 || s.responsive_peers > 0 || s.seen_peers > 0 {
        3
    } else if probed || s.tracker_seeders > 0 {
        2
    } else if s.provider_seeders > 0 {
        1
    } else {
        0
    }
}

/// The strength of a swarm. Peers that answered count in full, all others only
/// by their order of magnitude.
pub open spec fn seed_signal(s: Signals) -> u64 {
    let a = held(s.active_seeders * 5000);
    let b = held(a + held(s.live_peers * 1500));
    let c = held(b + held(s.responsive_peers * 500));
    let d = held(c + log2((s.seen_peers + 1) as nat) * 100);
    let e = held(d + log2((s.tracker_peers + 1) as nat) * 75);
    let f = held(e + log2((s.tracker_seeders + s.provider_seeders + 1) as nat) * 50);
    if f > 1 {
        f
    } else {
        1
    }
}

/// The share of the target size, in thousandths; more than the target counts as
/// the target.
pub open spec fn quality(file: Option<u64>, target: Option<u64>) -> u64 {
    match (file, target) {
        (Some(s), Some(t)) => if t > 0 {
            (held(
                (if s <= t {
                    s
                } else {
                    t
                }) * 1000,
            ) / t) as u64
        } else {
            500
        },
        (Some(_), None) => 1000,
        _ => 500,
    }
}

/// The score of a candidate.
pub open spec fn auto_score(
    c: Media,
    preflight: Option<TorrentPreflight>,
    tracker: Option<TrackerAvailability>,
    peer: Option<PeerAvailability>,
    target: Option<u64>,
) -> AutoScore {
    let s = signals(c, preflight, tracker, peer);
    let file = candidate_bytes(c, preflight);
    let fit = size_fit(file, target);
    AutoScore {
        tier: tier(s, c.probe_data is Some),
        startup_score: (held(
            seed_signal(s) * (if fit > 1 {
                fit
            } else {
                1
            }),
        ) / 1000) as u64,
        compatibility_score: compatibility(c) as u64,
        quality_score: quality(file, target),
        active_seeders: s.active_seeders,
        responsive_peers: s.responsive_peers,
        progress_per_thousand: s.progress_per_thousand,
        tracker_seeders: s.tracker_seeders,
        provider_seeders: s.provider_seeders,
        file_bytes: match file {
            Some(b) => b,
            None => u64::MAX,
        },
        elapsed_ms: match preflight {
            Some(p) => p.elapsed_ms,
            None => u64::MAX,
        },
    }
}

fn read_signals(
    candidate: &Media,
    preflight: Option<&TorrentPreflight>,
    tracker: Option<&TrackerAvailability>,
    peer: Option<&PeerAvailability>,
) -> (r: Signals)
    ensures
        r == signals(*candidate, deref(preflight), deref(tracker), deref(peer)),
{
    let managed: Option<ManagedTorrentAvailability> = match preflight {
        Some(p) => p.managed,
        None => None,
    };
    let stated: i64 = candidate.seeders();
    Signals {
        finished: match managed {
            Some(m) => m.finished,
            None => false,
        },
        live_peers: match managed {
            Some(m) => m.live_peers,
            None => 0,
        },
        seen_peers: match preflight {
            Some(p) => p.seen_peers,
            None => 0,
        },
        tracker_seeders: match tracker {
            Some(t) => t.seeders,
            None => 0,
        },
        tracker_peers: match tracker {
            Some(t) => t.peers.len(),
            None => 0,
        },
        active_seeders: match peer {
            Some(p) => p.seeders,
            None => 0,
        },
        responsive_peers: match peer {
            Some(p) => p.responsive,
            None => 0,
        },
        provider_seeders: if stated > 0 {
            stated as u64
        } else {
            0
        },
        progress_per_thousand: match managed {
            Some(m) => if m.total_bytes > 0 {
                times(m.progress_bytes, 1000) / m.total_bytes
            } else {
                0
            },
            None => 0,
        },
    }
}

fn seed_signal_of(s: &Signals) -> (r: u64)
    requires
        s.seen_peers < usize::MAX,
        s.tracker_peers < usize::MAX,
        s.provider_seeders <= i64::MAX,
    ensures
        r == seed_signal(*s),
{
    let a = times(s.active_seeders as u64, 5000);
    let b = plus(a, times(s.live_peers as u64, 1500));
    let c = plus(b, times(s.responsive_peers as u64, 500));
    let d = plus(c, log2_of(s.seen_peers as u64 + 1) * 100);
    let e = plus(d, log2_of(s.tracker_peers as u64 + 1) * 75);
    let f = plus(e, log2_of(s.tracker_seeders as u64 + s.provider_seeders + 1) * 50);
    if f > 1 {
        f
    } else {
        1
    }
}

/// Scores a candidate by what the torrent engine, the trackers and the peers
/// say, and by how near its size is to the target.
pub fn auto_candidate_score(
    candidate: &Media,
    preflight: Option<&TorrentPreflight>,
    tracker: Option<&TrackerAvailability>,
    peer: Option<&PeerAvailability>,
    target_file_bytes: Option<u64>,
) -> (r: AutoScore)
    requires
        preflight matches Some(p) ==> p.seen_peers < usize::MAX,
        tracker matches Some(t) ==> t.peers@.len() < usize::MAX,
    ensures
        r == auto_score(
            *candidate,
            deref(preflight),
            deref(tracker),
            deref(peer),
            target_file_bytes,
        ),
{
    let s = read_signals(candidate, preflight, tracker, peer);
    let file = known_candidate_file_bytes(candidate, preflight);
    let probed = candidate.probe_data.is_some();
    let tier: u8 = if s.finished {
        5
    } else if s.live_peers > 0 {
        4
    } else if s.active_seeders > 0 || s.responsive_peers > 0 || s.seen_peers > 0 {
        3
    } else if probed || s.tracker_seeders > 0 {
        2
    } else if s.provider_seeders > 0 {
        1
    } else {
        0
    };
    let quality_score: u64 = match (file, target_file_bytes) {
        (Some(b), Some(t)) => {
            if t > 0 {
                times(
                    if b <= t {
                        b
                    } else {
                        t
                    },
                    1000,
                ) / t
            } else {
                500
            }
        },
        (Some(_), None) => 1000,
        _ => 500,
    };
    let fit = relative_size_fit_score(file, target_file_bytes);
    let weight: u64 = if fit > 1 {
        fit
    } else {
        1
    };
    AutoScore {
        tier,
        startup_score: times(seed_signal_of(&s), weight) / 1000,
        compatibility_score: startup_compatibility_score(candidate),
        quality_score,
        active_seeders: s.active_seeders,
        responsive_peers: s.responsive_peers,
        progress_per_thousand: s.progress_per_thousand,
        tracker_seeders: s.tracker_seeders,
        provider_seeders: s.provider_seeders,
        file_bytes: match file {
            Some(b) => b,
            None => u64::MAX,
        },
        elapsed_ms: match preflight {
            Some(p) => p.elapsed_ms,
            None => u64::MAX,
        },
    }
}

/// A file that is complete ranks before one with live peers, and that before
/// one of which only its provider says that it can be had.
pub proof fn law_availability_comes_first(a: AutoScore, b: AutoScore)
    requires
        a.tier > b.tier,
    ensures
        crate::order::key_ge(a.key(), b.key()),
        !crate::order::key_ge(b.key(), a.key()),
{
    assert(a.key()[0] > b.key()[0]);
}

/// The tier of a candidate says how sure it is that its file can be had, and each
/// kind of evidence counts for more than all of the next: a complete download, then
/// connected peers, then peers that answered or were seen, then a probe or seeders
/// that a tracker counts, then seeders that the provider states.
pub proof fn law_tiers(
    c: Media,
    preflight: Option<TorrentPreflight>,
    tracker: Option<TrackerAvailability>,
    peer: Option<PeerAvailability>,
    target: Option<u64>,
)
    ensures
        ({
            let r = auto_score(c, preflight, tracker, peer, target);
            let complete = preflight matches Some(p) && p.managed matches Some(m) && m.finished;
            let connected = preflight matches Some(p) && p.managed matches Some(m) && m.live_peers
                > 0;
            let answered = (peer matches Some(q) && (q.seeders > 0 || q.responsive > 0)) || (
            preflight matches Some(p) && p.seen_peers > 0);
            let counted = c.probe_data is Some || (tracker matches Some(t) && t.seeders > 0);
            let stated = c.stream_info matches Some(i) && i.seeders matches Some(n) && n > 0;
            &&& r.tier == 5 <==> complete
            &&& r.tier == 4 <==> connected && !complete
            &&& r.tier == 3 <==> answered && !connected && !complete
            &&& r.tier == 2 <==> counted && !answered && !connected && !complete
            &&& r.tier == 1 <==> stated && !counted && !answered && !connected && !complete
            &&& r.tier == 0 <==> !stated && !counted && !answered && !connected && !complete
            &&& r.tier <= 5
        }),
{
}

/// A torrent that is complete on disk ranks before every one that still has to be
/// fetched, whatever else is known of the two.
pub proof fn law_complete_downloads_win(
    c: Media,
    preflight: Option<TorrentPreflight>,
    tracker: Option<TrackerAvailability>,
    peer: Option<PeerAvailability>,
    other: Media,
    other_preflight: Option<TorrentPreflight>,
    other_tracker: Option<TrackerAvailability>,
    other_peer: Option<PeerAvailability>,
    target: Option<u64>,
)
    requires
        preflight matches Some(p) && p.managed matches Some(m) && m.finished,
        !(other_preflight matches Some(p) && p.managed matches Some(m) && m.finished),
    ensures
        ({
            let a = auto_score(c, preflight, tracker, peer, target);
            let b = auto_score(other, other_preflight, other_tracker, other_peer, target);
            &&& crate::order::key_ge(a.key(), b.key())
            &&& !crate::order::key_ge(b.key(), a.key())
        }),
{
    law_tiers(c, preflight, tracker, peer, target);
    law_tiers(other, other_preflight, other_tracker, other_peer, target);
    law_availability_comes_first(
        auto_score(c, preflight, tracker, peer, target),
        auto_score(other, other_preflight, other_tracker, other_peer, target),
    );
}

/// What a score tells besides the tier is what was found: the seeders and the peers
/// that answered, those that the tracker and the provider count, the size of the
/// file, the time that the look took, and the share of the file that is there.
pub proof fn law_scores_tell_what_was_found(
    c: Media,
    preflight: Option<TorrentPreflight>,
    tracker: Option<TrackerAvailability>,
    peer: Option<PeerAvailability>,
    target: Option<u64>,
)
    ensures
        ({
            let r = auto_score(c, preflight, tracker, peer, target);
            &&& peer matches Some(q) ==> r.active_seeders == q.seeders && r.responsive_peers
                == q.responsive
            &&& peer is None ==> r.active_seeders == 0 && r.responsive_peers == 0
            &&& tracker matches Some(t) ==> r.tracker_seeders == t.seeders
            &&& tracker is None ==> r.tracker_seeders == 0
            &&& (c.stream_info matches Some(i) && i.seeders matches Some(n) && n > 0) ==> {
                r.provider_seeders == c.stream_info->Some_0.seeders->Some_0
            }
            &&& !(c.stream_info matches Some(i) && i.seeders matches Some(n) && n > 0)
                ==> r.provider_seeders == 0
            &&& preflight matches Some(p) ==> r.elapsed_ms == p.elapsed_ms
            &&& preflight is None ==> r.elapsed_ms == u64::MAX
            &&& (preflight matches Some(p) && p.selected_file_bytes is Some) ==> Some(r.file_bytes)
                == preflight->Some_0.selected_file_bytes
            &&& r.quality_score <= 1000
            &&& (preflight matches Some(p) && p.managed matches Some(m) && m.total_bytes > 0
                && m.progress_bytes * 1000 <= u64::MAX) ==> {
                let m = preflight->Some_0.managed->Some_0;
                r.progress_per_thousand * m.total_bytes <= m.progress_bytes * 1000 < (
                r.progress_per_thousand + 1) * m.total_bytes
            }
        }),
{
    let r = auto_score(c, preflight, tracker, peer, target);
    if preflight matches Some(p) && p.managed matches Some(m) && m.total_bytes > 0
        && m.progress_bytes * 1000 <= u64::MAX {
        let m = preflight->Some_0.managed->Some_0;
        let x = m.progress_bytes * 1000;
        let t = m.total_bytes as int;
        vstd::arithmetic::div_mod::lemma_fundamental_div_mod(x, t);
        let q = x / t;
        assert(q <= x) by (nonlinear_arith)
            requires
                q == x / t,
                t >= 1,
                x >= 0,
        ;
        assert(r.progress_per_thousand == q);
        assert(q * t <= x < (q + 1) * t) by (nonlinear_arith)
            requires
                x == t * q + x % t,
                0 <= x % t < t,
        ;
    }
    if let (Some(s), Some(t)) = (candidate_bytes(c, preflight), target) {
        if t > 0 {
            let least = if s <= t {
                s
            } else {
                t
            };
            let top = held(least * 1000);
            assert(top as int / t as int <= 1000) by (nonlinear_arith)
                requires
                    0 <= top <= least * 1000,
                    least <= t,
                    t > 0,
            ;
        }
    }
}

/// A file as large as the target has the full quality, a larger one no more, and of
/// two smaller ones the larger has at least as much.
pub proof fn law_quality_grows_to_the_target(small: u64, large: u64, target: u64)
    requires
        small <= large,
        0 < target,
        target * 1000 <= u64::MAX,
    ensures
        quality(Some(small), Some(target)) <= quality(Some(large), Some(target)) <= 1000,
        quality(Some(large), Some(target)) == 1000 <==> large >= target,
{
    let a = if small <= target {
        small as int
    } else {
        target as int
    };
    let b = if large <= target {
        large as int
    } else {
        target as int
    };
    let t = target as int;
    vstd::arithmetic::div_mod::lemma_div_is_ordered(a * 1000, b * 1000, t);
    assert(t * 1000 / t == 1000) by (nonlinear_arith)
        requires
            t > 0,
    ;
    if large < target {
        assert(b * 1000 / t < 1000) by (nonlinear_arith)
            requires
                0 <= b < t,
        ;
    }
    vstd::arithmetic::div_mod::lemma_div_is_ordered(b * 1000, t * 1000, t);
}

/// The order of magnitude of a number is the greatest power of two in it.
pub proof fn law_log2(n: nat)
    requires
        n > 0,
    ensures
        crate::binary64::two_to(log2(n)) <= n < 2 * crate::binary64::two_to(log2(n)),
    decreases n,
{
    if n >= 2 {
        law_log2(n / 2);
        assert(crate::binary64::two_to(log2(n)) == 2 * crate::binary64::two_to(log2(n / 2)));
    } else {
        assert(crate::binary64::two_to(0) == 1);
    }
}

/// The strength of a swarm is counted, as far as numbers of 64 bits allow: 5000 for
/// each seeder that answered, 1500 for each connected peer, 500 for each peer that
/// answered, and for all others only the order of magnitude. Weighed by how near the
/// file is to the target, it is what a candidate's start is worth.
pub proof fn law_start_is_worth_the_swarm(
    c: Media,
    preflight: TorrentPreflight,
    tracker: TrackerAvailability,
    peer: PeerAvailability,
    target: Option<u64>,
    live: usize,
    stated: u64,
)
    requires
        live == (match preflight.managed {
            Some(m) => m.live_peers,
            None => 0,
        }),
        stated == (match c.stream_info {
            Some(i) => match i.seeders {
                Some(n) if n > 0 => n as u64,
                _ => 0,
            },
            None => 0,
        }),
        peer.seeders < 1_000_000,
        peer.responsive < 1_000_000,
        live < 1_000_000,
        preflight.seen_peers < 1_000_000,
        tracker.peers@.len() < 1_000_000,
        stated < 1_000_000_000,
    ensures
        ({
            let r = auto_score(c, Some(preflight), Some(tracker), Some(peer), target);
            let sure = 5000 * peer.seeders + 1500 * live + 500 * peer.responsive;
            let vague = 100 * log2((preflight.seen_peers + 1) as nat) + 75 * log2(
                (tracker.peers@.len() + 1) as nat,
            ) + 50 * log2((tracker.seeders + stated + 1) as nat);
            let fit = size_fit(candidate_bytes(c, Some(preflight)), target);
            let strength = if sure + vague > 1 {
                sure + vague
            } else {
                1
            };
            let weight = if fit > 1 {
                fit as int
            } else {
                1
            };
            r.startup_score == strength * weight / 1000
        }),
{
    crate::binary64::lemma_two_to_small();
    lemma_log2_small((preflight.seen_peers + 1) as nat);
    lemma_log2_small((tracker.peers@.len() + 1) as nat);
    lemma_log2_small((tracker.seeders + stated + 1) as nat);
    let fit = size_fit(candidate_bytes(c, Some(preflight)), target);
    lemma_fit_bound(candidate_bytes(c, Some(preflight)), target);
    let sure = 5000 * peer.seeders + 1500 * live + 500 * peer.responsive;
    let vague = 100 * log2((preflight.seen_peers + 1) as nat) + 75 * log2(
        (tracker.peers@.len() + 1) as nat,
    ) + 50 * log2((tracker.seeders + stated + 1) as nat);
    let strength = if sure + vague > 1 {
        sure + vague
    } else {
        1
    };
    let weight = if fit > 1 {
        fit as int
    } else {
        1
    };
    assert(0 <= strength * weight <= 100_000_000_000 * 1000) by (nonlinear_arith)
        requires
            1 <= strength <= 100_000_000_000,
            1 <= weight <= 1000,
    ;
}

proof fn lemma_log2_small(n: nat)
    requires
        0 < n <= 0x1_0000_0000_0000,
    ensures
        log2(n) <= 48,
{
    assert(crate::binary64::two_to(48) == 0x1_0000_0000_0000) by {
        reveal_with_fuel(crate::binary64::two_to, 49);
    }
    lemma_log2_bound(n, 48);
}

proof fn lemma_fit_bound(file: Option<u64>, target: Option<u64>)
    ensures
        size_fit(file, target) <= 1000,
{
    if let (Some(s), Some(t)) = (file, target) {
        if s > 0 && t > 0 {
            let (small, large) = if s <= t {
                (s, t)
            } else {
                (t, s)
            };
            let top = held(small * 1000);
            assert(top as int / large as int <= 1000) by (nonlinear_arith)
                requires
                    0 <= top <= small * 1000,
                    small <= large,
                    large > 0,
            ;
        }
    }
}

/// The size of a candidate's file is that of the file that was chosen, else that
/// which a probe found, else that which the provider states; sizes of nothing do not
/// count.
pub proof fn law_sizes_are_believed_in_order(c: Media, preflight: Option<TorrentPreflight>)
    ensures
        ({
            let chosen = preflight matches Some(p) && p.selected_file_bytes is Some;
            let probed = c.probe_data matches Some(d) && d.size matches Some(n) && n > 0;
            let stated = c.stream_info matches Some(i) && i.size matches Some(n) && n > 0;
            let r = candidate_bytes(c, preflight);
            &&& chosen ==> r == preflight->Some_0.selected_file_bytes
            &&& !chosen && probed ==> r is Some && r->Some_0
                == c.probe_data->Some_0.size->Some_0
            &&& !chosen && !probed && stated ==> r is Some && r->Some_0
                == c.stream_info->Some_0.size->Some_0
            &&& !chosen && !probed && !stated ==> r is None
        }),
{
}

/// What starts most easily is H.264 with AAC or MP3 in MP4: no file starts more
/// easily, HEVC, AV1 and VP9 start less easily, and one that was not probed is taken
/// to start less easily than that.
pub proof fn law_common_formats_start_best(c: Media, p: MediaSourceInfo)
    requires
        c.probe_data == Some(p),
    ensures
        ({
            let video = codec_of(p, MediaStreamType::Video);
            let audio = codec_of(p, MediaStreamType::Audio);
            let container = match p.container {
                Some(t) => lower(t@),
                None => Seq::empty(),
            };
            &&& 0 < compatibility(c) <= 1000
            &&& (video == "h264"@ || video == "avc"@ || video == "avc1"@) && (container == "mp4"@
                || container == "m4v"@ || container == "mov"@) && (audio == "aac"@ || audio
                == "mp3"@) ==> compatibility(c) == 1000
            &&& video == "hevc"@ || video == "h265"@ || video == "hev1"@ || video == "hvc1"@
                ==> compatibility(c) <= 650
            &&& video == "av1"@ ==> compatibility(c) <= 600
            &&& video == "vp9"@ ==> compatibility(c) <= 700
            &&& container == "mkv"@ || container == "matroska"@ || container == "webm"@
                ==> compatibility(c) <= 800
            &&& audio == "ac3"@ || audio == "eac3"@ || audio == "dts"@ || audio == "truehd"@
                ==> compatibility(c) <= 800
        }),
        forall|d: Media| #[trigger] d.probe_data is None ==> compatibility(d) == 700,
{
    let video = codec_of(p, MediaStreamType::Video);
    let audio = codec_of(p, MediaStreamType::Audio);
    let container = match p.container {
        Some(t) => lower(t@),
        None => Seq::empty(),
    };
    let v = video_ease(video);
    let k = container_ease(container);
    let a = audio_ease(audio);
    lemma_format_names();
    assert(600 <= v <= 1000 && 800 <= k <= 1000 && 800 <= a <= 1000);
    let vk = v * k / 1000;
    assert(480 <= vk <= v && vk <= k) by (nonlinear_arith)
        requires
            600 <= v <= 1000,
            800 <= k <= 1000,
            vk == v * k / 1000,
    ;
    assert(0 < vk * a / 1000 <= vk && vk * a / 1000 <= a) by (nonlinear_arith)
        requires
            480 <= vk <= 1000,
            800 <= a <= 1000,
    ;
}

proof fn lemma_format_names()
    ensures
        "h264"@ != "hevc"@,
        "hevc"@ != "avc1"@,
        "h265"@ != "h264"@,
        "h265"@ != "avc1"@,
        "hev1"@ != "h264"@,
        "hev1"@ != "avc1"@,
        "hvc1"@ != "h264"@,
        "hvc1"@ != "avc1"@,
        "av1"@ != "avc"@,
        "vp9"@ != "avc"@,
        "vp9"@ != "av1"@,
        "av1"@.len() == 3,
        "vp9"@.len() == 3,
        "avc"@.len() == 3,
        "h264"@.len() == 4,
        "avc1"@.len() == 4,
        "hevc"@.len() == 4,
        "h265"@.len() == 4,
        "hev1"@.len() == 4,
        "hvc1"@.len() == 4,
        "mkv"@ != "mp4"@,
        "mkv"@ != "m4v"@,
        "mkv"@ != "mov"@,
        "mp4"@.len() == 3,
        "m4v"@.len() == 3,
        "mov"@.len() == 3,
        "matroska"@.len() == 8,
        "webm"@.len() == 4,
        "ac3"@ != "aac"@,
        "ac3"@ != "mp3"@,
        "dts"@ != "aac"@,
        "dts"@ != "mp3"@,
        "aac"@.len() == 3,
        "mp3"@.len() == 3,
        "eac3"@.len() == 4,
        "truehd"@.len() == 6,
{
    reveal_strlit("h264");
    reveal_strlit("avc");
    reveal_strlit("avc1");
    reveal_strlit("hevc");
    reveal_strlit("h265");
    reveal_strlit("hev1");
    reveal_strlit("hvc1");
    reveal_strlit("av1");
    reveal_strlit("vp9");
    reveal_strlit("mkv");
    reveal_strlit("mp4");
    reveal_strlit("m4v");
    reveal_strlit("mov");
    reveal_strlit("matroska");
    reveal_strlit("webm");
    reveal_strlit("aac");
    reveal_strlit("mp3");
    reveal_strlit("ac3");
    reveal_strlit("eac3");
    reveal_strlit("dts");
    reveal_strlit("truehd");
    assert("h264"@[1] != "hevc"@[1]);
    assert("hevc"@[0] != "avc1"@[0]);
    assert("h265"@[3] != "h264"@[3]);
    assert("h265"@[0] != "avc1"@[0]);
    assert("hev1"@[1] != "h264"@[1]);
    assert("hev1"@[0] != "avc1"@[0]);
    assert("hvc1"@[1] != "h264"@[1]);
    assert("hvc1"@[0] != "avc1"@[0]);
    assert("av1"@[2] != "avc"@[2]);
    assert("vp9"@[0] != "avc"@[0]);
    assert("vp9"@[0] != "av1"@[0]);
    assert("mkv"@[1] != "mp4"@[1]);
    assert("mkv"@[1] != "m4v"@[1]);
    assert("mkv"@[1] != "mov"@[1]);
    assert("ac3"@[1] != "aac"@[1]);
    assert("ac3"@[0] != "mp3"@[0]);
    assert("dts"@[0] != "aac"@[0]);
    assert("dts"@[0] != "mp3"@[0]);
}

/// Of two scores with the same tier the greater worth of the start decides, and of
/// two that are equal in all else the smaller file and then the quicker look.
pub proof fn law_ties_are_broken_in_order(a: AutoScore, b: AutoScore)
    requires
        a.tier == b.tier,
    ensures
        a.startup_score > b.startup_score ==> !crate::order::key_ge(b.key(), a.key()),
        a.startup_score == b.startup_score && a.compatibility_score > b.compatibility_score
            ==> !crate::order::key_ge(b.key(), a.key()),
        a.startup_score == b.startup_score && a.compatibility_score == b.compatibility_score
            && a.quality_score > b.quality_score ==> !crate::order::key_ge(b.key(), a.key()),
        a.startup_score == b.startup_score && a.compatibility_score == b.compatibility_score
            && a.quality_score == b.quality_score && a.active_seeders > b.active_seeders
            ==> !crate::order::key_ge(b.key(), a.key()),
        a.startup_score == b.startup_score && a.compatibility_score == b.compatibility_score
            && a.quality_score == b.quality_score && a.active_seeders == b.active_seeders
            && a.responsive_peers > b.responsive_peers
            ==> !crate::order::key_ge(b.key(), a.key()),
        a.startup_score == b.startup_score && a.compatibility_score == b.compatibility_score
            && a.quality_score == b.quality_score && a.active_seeders == b.active_seeders
            && a.responsive_peers == b.responsive_peers
            && a.progress_per_thousand > b.progress_per_thousand
            ==> !crate::order::key_ge(b.key(), a.key()),
        a.startup_score == b.startup_score && a.compatibility_score == b.compatibility_score
            && a.quality_score == b.quality_score && a.active_seeders == b.active_seeders
            && a.responsive_peers == b.responsive_peers
            && a.progress_per_thousand == b.progress_per_thousand
            && a.tracker_seeders > b.tracker_seeders ==> !crate::order::key_ge(b.key(), a.key()),
        a.startup_score == b.startup_score && a.compatibility_score == b.compatibility_score
            && a.quality_score == b.quality_score && a.active_seeders == b.active_seeders
            && a.responsive_peers == b.responsive_peers
            && a.progress_per_thousand == b.progress_per_thousand
            && a.tracker_seeders == b.tracker_seeders && a.provider_seeders > b.provider_seeders
            ==> !crate::order::key_ge(b.key(), a.key()),
        a.startup_score == b.startup_score && a.compatibility_score == b.compatibility_score
            && a.quality_score == b.quality_score && a.active_seeders == b.active_seeders
            && a.responsive_peers == b.responsive_peers
            && a.progress_per_thousand == b.progress_per_thousand
            && a.tracker_seeders == b.tracker_seeders && a.provider_seeders == b.provider_seeders
            && a.file_bytes < b.file_bytes ==> !crate::order::key_ge(b.key(), a.key()),
        a.startup_score == b.startup_score && a.compatibility_score == b.compatibility_score
            && a.quality_score == b.quality_score && a.active_seeders == b.active_seeders
            && a.responsive_peers == b.responsive_peers
            && a.progress_per_thousand == b.progress_per_thousand
            && a.tracker_seeders == b.tracker_seeders && a.provider_seeders == b.provider_seeders
            && a.file_bytes == b.file_bytes && a.elapsed_ms < b.elapsed_ms
            ==> !crate::order::key_ge(b.key(), a.key()),
{
    let x = b.key();
    let y = a.key();
    assert(x[1] == b.startup_score && x[2] == b.compatibility_score && x[3] == b.quality_score);
    assert(x[4] == b.active_seeders && x[5] == b.responsive_peers);
    assert(x[6] == b.progress_per_thousand && x[7] == b.tracker_seeders);
    assert(x[8] == b.provider_seeders && x[9] == u64::MAX - b.file_bytes);
    assert(x[10] == u64::MAX - b.elapsed_ms);
    lemma_key_at(x, y);
}

/// Keys that agree before a place are compared there.
proof fn lemma_key_at(x: Seq<u64>, y: Seq<u64>)
    requires
        x.len() == 11,
        y.len() == 11,
    ensures
        forall|k: int|
            0 <= k < 11 && #[trigger] x[k] < y[k] && (forall|j: int|
                0 <= j < k ==> #[trigger] x[j] == y[j]) ==> !crate::order::key_ge(x, y),
{
    assert forall|k: int|
        0 <= k < 11 && #[trigger] x[k] < y[k] && (forall|j: int|
            0 <= j < k ==> #[trigger] x[j] == y[j]) implies !crate::order::key_ge(x, y) by {
        lemma_key_less(x, y, k);
    }
}

proof fn lemma_key_less(x: Seq<u64>, y: Seq<u64>, k: int)
    requires
        0 <= k < x.len(),
        k < y.len(),
        x[k] < y[k],
        forall|j: int| 0 <= j < k ==> #[trigger] x[j] == y[j],
    ensures
        !crate::order::key_ge(x, y),
    decreases k,
{
    if k > 0 {
        assert(x[0] == y[0]);
        assert forall|j: int| 0 <= j < k - 1 implies #[trigger] x.skip(1)[j] == y.skip(1)[j] by {
            assert(x.skip(1)[j] == x[j + 1]);
            assert(x[j + 1] == y[j + 1]);
        }
        lemma_key_less(x.skip(1), y.skip(1), k - 1);
    }
}

/// A release with a word that marks another cut or a bad recording is never picked
/// by itself, in whichever of its names the word stands and however it is written.
pub proof fn law_marked_releases_are_blocked(c: Media, k: int, word: Seq<char>)
    requires
        0 <= k < release_tokens(c).len(),
        release_tokens(c)[k] == word,
    ensures
        word == "camrip"@ || word == "hdcam"@ || word == "telesync"@ || word == "hdts"@ || word
            == "telecine"@ || word == "workprint"@ || word == "rifftrax"@ || word == "parody"@
            || word == "fanedit"@ || word == "fanedited"@ || word == "mst3k"@ || word
            == "commentary"@ ==> blocked(c),
        word == "fan"@ && k + 1 < release_tokens(c).len() && release_tokens(c)[k + 1] == "edit"@
            ==> blocked(c),
{
}

/// The words of a candidate are those of its title and of all that its provider
/// says.
pub proof fn law_every_name_is_read(c: Media, name: Seq<char>, k: int)
    requires
        name == c.title@ || (c.stream_info matches Some(i) && (text_opt(i.filename) == Some(name)
            || text_opt(i.name) == Some(name) || text_opt(i.description) == Some(name))),
        0 <= k < tokens_of(name).len(),
    ensures
        release_tokens(c).contains(lower(tokens_of(name)[k])),
        stereoscopic_tag(name) ==> stereoscopic(c),
{
    let names = release_names(c);
    assert(names.contains(name)) by {
        if name == c.title@ {
            assert(names[0] == name);
        } else {
            let i = c.stream_info->Some_0;
            let f = opt_seq(text_opt(i.filename));
            let n = opt_seq(text_opt(i.name));
            let d = opt_seq(text_opt(i.description));
            if text_opt(i.filename) == Some(name) {
                assert(names[1] == name);
            } else if text_opt(i.name) == Some(name) {
                assert(names[1 + f.len() as int] == name);
            } else {
                assert(names[1 + f.len() + n.len() as int] == name);
            }
        }
    }
    let at = choose|at: int| 0 <= at < names.len() && names[at] == name;
    lemma_tokens_of_name(names, at, k);
}

proof fn lemma_tokens_of_name(names: Seq<Seq<char>>, at: int, k: int)
    requires
        0 <= at < names.len(),
        0 <= k < tokens_of(names[at]).len(),
    ensures
        lower_tokens(names).contains(lower(tokens_of(names[at])[k])),
    decreases names.len(),
{
    let last = tokens_of(names.last()).map_values(|t: Seq<char>| lower(t));
    let before = lower_tokens(names.drop_last());
    if at == names.len() - 1 {
        assert(last[k] == lower(tokens_of(names[at])[k]));
        assert((before + last)[before.len() + k] == last[k]);
    } else {
        assert(names.drop_last()[at] == names[at]);
        lemma_tokens_of_name(names.drop_last(), at, k);
        let want = lower(tokens_of(names[at])[k]);
        let j = choose|j: int| 0 <= j < before.len() && before[j] == want;
        assert((before + last)[j] == want);
    }
}

/// Where a probe found the wanted language, a candidate is not left out for its
/// language, and where it found only others, it is; nothing is left out where no
/// language is wanted.
pub proof fn law_probes_decide_on_languages(
    c: Media,
    wanted: Option<Seq<char>>,
    title: Seq<char>,
    k: int,
)
    requires
        c.probe_data matches Some(p) && 0 <= k < p.media_streams@.len()
            && p.media_streams@[k].type_ == Some(MediaStreamType::Audio),
    ensures
        wanted is None ==> !language_mismatch(c, wanted, title),
        (wanted matches Some(w) && two_letters(w) is Some && (
        c.probe_data->Some_0.media_streams@[k].language matches Some(l) && two_letters(l@)
            == two_letters(w))) ==> !language_mismatch(c, wanted, title),
        (wanted matches Some(w) && two_letters(w) is Some && (forall|i: int|
            0 <= i < c.probe_data->Some_0.media_streams@.len()
                && #[trigger] c.probe_data->Some_0.media_streams@[i].type_ == Some(
                MediaStreamType::Audio,
            ) ==> (c.probe_data->Some_0.media_streams@[i].language matches Some(l) && two_letters(
                l@,
            ) is Some && two_letters(l@) != two_letters(w)))) ==> language_mismatch(
            c,
            wanted,
            title,
        ),
{
    let streams = c.probe_data->Some_0.media_streams@;
    assert(is_audio(streams[k]));
    if let Some(w) = wanted {
        if two_letters(w) is Some {
            let letters = two_letters(w)->Some_0;
            if forall|i: int|
                0 <= i < streams.len() && #[trigger] streams[i].type_ == Some(
                    MediaStreamType::Audio,
                ) ==> (streams[i].language matches Some(l) && two_letters(l@) is Some
                    && two_letters(l@) != two_letters(w)) {
                assert forall|i: int| 0 <= i < streams.len()
                    && is_audio(#[trigger] streams[i]) implies
                    stream_language(streams[i]) is Some && stream_language(streams[i]) != Some(
                    letters,
                ) by {
                    assert(streams[i].type_ == Some(MediaStreamType::Audio));
                }
            }
        }
    }
}

// ---------------------------------------------------------------------------
// Laws of names
// ---------------------------------------------------------------------------

/// The words that announce a language in the name of a release, and the language of each.
pub proof fn law_words_announce_languages(t: Seq<char>)
    ensures
        t == "eng"@ ==> tag_language(t) == Some("en"@),
        t == "english"@ ==> tag_language(t) == Some("en"@),
        t == "vf2"@ ==> tag_language(t) == Some("fr"@),
        t == "vff"@ ==> tag_language(t) == Some("fr"@),
        t == "vfi"@ ==> tag_language(t) == Some("fr"@),
        t == "truefrench"@ ==> tag_language(t) == Some("fr"@),
        t == "fra"@ ==> tag_language(t) == Some("fr"@),
        t == "fre"@ ==> tag_language(t) == Some("fr"@),
        t == "french"@ ==> tag_language(t) == Some("fr"@),
        t == "dublado"@ ==> tag_language(t) == Some("pt"@),
        t == "portuguese"@ ==> tag_language(t) == Some("pt"@),
        t == "brazilian"@ ==> tag_language(t) == Some("pt"@),
        t == "latino"@ ==> tag_language(t) == Some("es"@),
        t == "castellano"@ ==> tag_language(t) == Some("es"@),
        t == "spanish"@ ==> tag_language(t) == Some("es"@),
        t == "espanol"@ ==> tag_language(t) == Some("es"@),
        t == "pldub"@ ==> tag_language(t) == Some("pl"@),
        t == "lektor"@ ==> tag_language(t) == Some("pl"@),
        t == "polish"@ ==> tag_language(t) == Some("pl"@),
        t == "rus"@ ==> tag_language(t) == Some("ru"@),
        t == "russian"@ ==> tag_language(t) == Some("ru"@),
        t == "german"@ ==> tag_language(t) == Some("de"@),
        t == "deutsch"@ ==> tag_language(t) == Some("de"@),
        t == "italian"@ ==> tag_language(t) == Some("it"@),
        t == "hindi"@ ==> tag_language(t) == Some("hi"@),
        t == "jpn"@ ==> tag_language(t) == Some("ja"@),
        t == "japanese"@ ==> tag_language(t) == Some("ja"@),
        t == "korean"@ ==> tag_language(t) == Some("ko"@),
        t == "mandarin"@ ==> tag_language(t) == Some("zh"@),
        t == "cantonese"@ ==> tag_language(t) == Some("zh"@),
        t == "chinese"@ ==> tag_language(t) == Some("zh"@),
        tag_language(t) is Some ==> t == "eng"@ || t == "english"@ || t == "vf2"@ || t == "vff"@
            || t == "vfi"@ || t == "truefrench"@ || t == "fra"@ || t == "fre"@ || t == "french"@
            || t == "dublado"@ || t == "portuguese"@ || t == "brazilian"@ || t == "latino"@
            || t == "castellano"@ || t == "spanish"@ || t == "espanol"@ || t == "pldub"@
            || t == "lektor"@ || t == "polish"@ || t == "rus"@ || t == "russian"@
            || t == "german"@ || t == "deutsch"@ || t == "italian"@ || t == "hindi"@
            || t == "jpn"@ || t == "japanese"@ || t == "korean"@ || t == "mandarin"@
            || t == "cantonese"@ || t == "chinese"@,
{
    reveal_strlit("eng");
    reveal_strlit("english");
    reveal_strlit("vf2");
    reveal_strlit("vff");
    reveal_strlit("vfi");
    reveal_strlit("truefrench");
    reveal_strlit("fra");
    reveal_strlit("fre");
    reveal_strlit("french");
    reveal_strlit("dublado");
    reveal_strlit("portuguese");
    reveal_strlit("brazilian");
    reveal_strlit("latino");
    reveal_strlit("castellano");
    reveal_strlit("spanish");
    reveal_strlit("espanol");
    reveal_strlit("pldub");
    reveal_strlit("lektor");
    reveal_strlit("polish");
    reveal_strlit("rus");
    reveal_strlit("russian");
    reveal_strlit("german");
    reveal_strlit("deutsch");
    reveal_strlit("italian");
    reveal_strlit("hindi");
    reveal_strlit("jpn");
    reveal_strlit("japanese");
    reveal_strlit("korean");
    reveal_strlit("mandarin");
    reveal_strlit("cantonese");
    reveal_strlit("chinese");
    assert("eng"@.len() == 3 && "eng"@[0] == 'e' && "eng"@[1] == 'n' && "eng"@[2] == 'g');
    assert("english"@.len() == 7 && "english"@[0] == 'e' && "english"@[1] == 'n'
        && "english"@[2] == 'g' && "english"@[3] == 'l' && "english"@[4] == 'i'
        && "english"@[5] == 's' && "english"@[6] == 'h');
    assert("vf2"@.len() == 3 && "vf2"@[0] == 'v' && "vf2"@[1] == 'f' && "vf2"@[2] == '2');
    assert("vff"@.len() == 3 && "vff"@[0] == 'v' && "vff"@[1] == 'f' && "vff"@[2] == 'f');
    assert("vfi"@.len() == 3 && "vfi"@[0] == 'v' && "vfi"@[1] == 'f' && "vfi"@[2] == 'i');
    assert("truefrench"@.len() == 10 && "truefrench"@[0] == 't' && "truefrench"@[1] == 'r'
        && "truefrench"@[2] == 'u' && "truefrench"@[3] == 'e' && "truefrench"@[4] == 'f'
        && "truefrench"@[5] == 'r' && "truefrench"@[6] == 'e' && "truefrench"@[7] == 'n'
        && "truefrench"@[8] == 'c' && "truefrench"@[9] == 'h');
    assert("fra"@.len() == 3 && "fra"@[0] == 'f' && "fra"@[1] == 'r' && "fra"@[2] == 'a');
    assert("fre"@.len() == 3 && "fre"@[0] == 'f' && "fre"@[1] == 'r' && "fre"@[2] == 'e');
    assert("french"@.len() == 6 && "french"@[0] == 'f' && "french"@[1] == 'r'
        && "french"@[2] == 'e' && "french"@[3] == 'n' && "french"@[4] == 'c'
        && "french"@[5] == 'h');
    assert("dublado"@.len() == 7 && "dublado"@[0] == 'd' && "dublado"@[1] == 'u'
        && "dublado"@[2] == 'b' && "dublado"@[3] == 'l' && "dublado"@[4] == 'a'
        && "dublado"@[5] == 'd' && "dublado"@[6] == 'o');
    assert("portuguese"@.len() == 10 && "portuguese"@[0] == 'p' && "portuguese"@[1] == 'o'
        && "portuguese"@[2] == 'r' && "portuguese"@[3] == 't' && "portuguese"@[4] == 'u'
        && "portuguese"@[5] == 'g' && "portuguese"@[6] == 'u' && "portuguese"@[7] == 'e'
        && "portuguese"@[8] == 's' && "portuguese"@[9] == 'e');
    assert("brazilian"@.len() == 9 && "brazilian"@[0] == 'b' && "brazilian"@[1] == 'r'
        && "brazilian"@[2] == 'a' && "brazilian"@[3] == 'z' && "brazilian"@[4] == 'i'
        && "brazilian"@[5] == 'l' && "brazilian"@[6] == 'i' && "brazilian"@[7] == 'a'
        && "brazilian"@[8] == 'n');
    assert("latino"@.len() == 6 && "latino"@[0] == 'l' && "latino"@[1] == 'a'
        && "latino"@[2] == 't' && "latino"@[3] == 'i' && "latino"@[4] == 'n'
        && "latino"@[5] == 'o');
    assert("castellano"@.len() == 10 && "castellano"@[0] == 'c' && "castellano"@[1] == 'a'
        && "castellano"@[2] == 's' && "castellano"@[3] == 't' && "castellano"@[4] == 'e'
        && "castellano"@[5] == 'l' && "castellano"@[6] == 'l' && "castellano"@[7] == 'a'
        && "castellano"@[8] == 'n' && "castellano"@[9] == 'o');
    assert("spanish"@.len() == 7 && "spanish"@[0] == 's' && "spanish"@[1] == 'p'
        && "spanish"@[2] == 'a' && "spanish"@[3] == 'n' && "spanish"@[4] == 'i'
        && "spanish"@[5] == 's' && "spanish"@[6] == 'h');
    assert("espanol"@.len() == 7 && "espanol"@[0] == 'e' && "espanol"@[1] == 's'
        && "espanol"@[2] == 'p' && "espanol"@[3] == 'a' && "espanol"@[4] == 'n'
        && "espanol"@[5] == 'o' && "espanol"@[6] == 'l');
    assert("pldub"@.len() == 5 && "pldub"@[0] == 'p' && "pldub"@[1] == 'l' && "pldub"@[2] == 'd'
        && "pldub"@[3] == 'u' && "pldub"@[4] == 'b');
    assert("lektor"@.len() == 6 && "lektor"@[0] == 'l' && "lektor"@[1] == 'e'
        && "lektor"@[2] == 'k' && "lektor"@[3] == 't' && "lektor"@[4] == 'o'
        && "lektor"@[5] == 'r');
    assert("polish"@.len() == 6 && "polish"@[0] == 'p' && "polish"@[1] == 'o'
        && "polish"@[2] == 'l' && "polish"@[3] == 'i' && "polish"@[4] == 's'
        && "polish"@[5] == 'h');
    assert("rus"@.len() == 3 && "rus"@[0] == 'r' && "rus"@[1] == 'u' && "rus"@[2] == 's');
    assert("russian"@.len() == 7 && "russian"@[0] == 'r' && "russian"@[1] == 'u'
        && "russian"@[2] == 's' && "russian"@[3] == 's' && "russian"@[4] == 'i'
        && "russian"@[5] == 'a' && "russian"@[6] == 'n');
    assert("german"@.len() == 6 && "german"@[0] == 'g' && "german"@[1] == 'e'
        && "german"@[2] == 'r' && "german"@[3] == 'm' && "german"@[4] == 'a'
        && "german"@[5] == 'n');
    assert("deutsch"@.len() == 7 && "deutsch"@[0] == 'd' && "deutsch"@[1] == 'e'
        && "deutsch"@[2] == 'u' && "deutsch"@[3] == 't' && "deutsch"@[4] == 's'
        && "deutsch"@[5] == 'c' && "deutsch"@[6] == 'h');
    assert("italian"@.len() == 7 && "italian"@[0] == 'i' && "italian"@[1] == 't'
        && "italian"@[2] == 'a' && "italian"@[3] == 'l' && "italian"@[4] == 'i'
        && "italian"@[5] == 'a' && "italian"@[6] == 'n');
    assert("hindi"@.len() == 5 && "hindi"@[0] == 'h' && "hindi"@[1] == 'i' && "hindi"@[2] == 'n'
        && "hindi"@[3] == 'd' && "hindi"@[4] == 'i');
    assert("jpn"@.len() == 3 && "jpn"@[0] == 'j' && "jpn"@[1] == 'p' && "jpn"@[2] == 'n');
    assert("japanese"@.len() == 8 && "japanese"@[0] == 'j' && "japanese"@[1] == 'a'
        && "japanese"@[2] == 'p' && "japanese"@[3] == 'a' && "japanese"@[4] == 'n'
        && "japanese"@[5] == 'e' && "japanese"@[6] == 's' && "japanese"@[7] == 'e');
    assert("korean"@.len() == 6 && "korean"@[0] == 'k' && "korean"@[1] == 'o'
        && "korean"@[2] == 'r' && "korean"@[3] == 'e' && "korean"@[4] == 'a'
        && "korean"@[5] == 'n');
    assert("mandarin"@.len() == 8 && "mandarin"@[0] == 'm' && "mandarin"@[1] == 'a'
        && "mandarin"@[2] == 'n' && "mandarin"@[3] == 'd' && "mandarin"@[4] == 'a'
        && "mandarin"@[5] == 'r' && "mandarin"@[6] == 'i' && "mandarin"@[7] == 'n');
    assert("cantonese"@.len() == 9 && "cantonese"@[0] == 'c' && "cantonese"@[1] == 'a'
        && "cantonese"@[2] == 'n' && "cantonese"@[3] == 't' && "cantonese"@[4] == 'o'
        && "cantonese"@[5] == 'n' && "cantonese"@[6] == 'e' && "cantonese"@[7] == 's'
        && "cantonese"@[8] == 'e');
    assert("chinese"@.len() == 7 && "chinese"@[0] == 'c' && "chinese"@[1] == 'h'
        && "chinese"@[2] == 'i' && "chinese"@[3] == 'n' && "chinese"@[4] == 'e'
        && "chinese"@[5] == 's' && "chinese"@[6] == 'e');
}

/// A word of the title announces nothing, but for those that are never part of a title.
pub proof fn law_title_words_announce_nothing(t: Seq<char>, title_words: Seq<Seq<char>>)
    ensures
        !title_words.contains(t) ==> announces(t, title_words) == tag_language(t),
        t == "vf2"@ ==> announces(t, title_words) == tag_language(t),
        t == "vff"@ ==> announces(t, title_words) == tag_language(t),
        t == "vfi"@ ==> announces(t, title_words) == tag_language(t),
        t == "truefrench"@ ==> announces(t, title_words) == tag_language(t),
        t == "dublado"@ ==> announces(t, title_words) == tag_language(t),
        t == "latino"@ ==> announces(t, title_words) == tag_language(t),
        t == "castellano"@ ==> announces(t, title_words) == tag_language(t),
        t == "pldub"@ ==> announces(t, title_words) == tag_language(t),
        t == "lektor"@ ==> announces(t, title_words) == tag_language(t),
        title_words.contains(t) && announces(t, title_words) is Some ==> t == "vf2"@
            || t == "vff"@ || t == "vfi"@ || t == "truefrench"@ || t == "dublado"@
            || t == "latino"@ || t == "castellano"@ || t == "pldub"@ || t == "lektor"@,
{
    reveal(announces);
}

/// Where no probe tells, the words of a release do: it lacks a language where it announces
/// others and not that one, and it does not where it announces that one or none.
pub proof fn law_names_decide_on_languages(
    c: Media,
    wanted: Seq<char>,
    title: Seq<char>,
    letters: Seq<char>,
    k: int,
)
    requires
        c.probe_data is None,
        two_letters(wanted) == Some(letters),
        0 <= k < release_tokens(c).len(),
    ensures
        ({
            let own = tokens_of(title).map_values(|t: Seq<char>| lower(t));
            let said = release_tokens(c);
            &&& announces(said[k], own) == Some(letters) ==> !language_mismatch(
                c,
                Some(wanted),
                title,
            )
            &&& announces(said[k], own) is Some && (forall|i: int|
                0 <= i < said.len() ==> announces(#[trigger] said[i], own) != Some(letters))
                ==> language_mismatch(c, Some(wanted), title)
            &&& (forall|i: int| 0 <= i < said.len() ==> announces(#[trigger] said[i], own) is None)
                ==> !language_mismatch(c, Some(wanted), title)
        }),
{
}

/// A picture for two eyes is announced by one of four words, or by half a picture side by
/// side or one above the other; in whatever case.
pub proof fn law_stereoscopic_names(name: Seq<char>, k: int)
    requires
        0 <= k < tokens_of(name).len(),
    ensures
        ({
            let t = tokens_of(name);
            let is = |i: int, w: Seq<char>| lower(t[i]) == lower(w);
            &&& is(k, "3d"@) || is(k, "hsbs"@) || is(k, "hou"@) || is(k, "mvc"@)
                ==> stereoscopic_tag(
                name,
            )
            &&& k + 1 < t.len() && (is(k, "h"@) || is(k, "half"@)) && (is(k + 1, "sbs"@) || is(
                k + 1,
                "ou"@,
            )) ==> stereoscopic_tag(name)
            &&& stereoscopic_tag(name) ==> exists|i: int|
                0 <= i < t.len() && (lower(#[trigger] t[i]) == lower("3d"@) || lower(t[i]) == lower(
                    "hsbs"@,
                ) || lower(t[i]) == lower("hou"@) || lower(t[i]) == lower("mvc"@) || lower(t[i])
                    == lower("h"@) || lower(t[i]) == lower("half"@))
        }),
{
    let t = tokens_of(name);
    if k + 1 < t.len() && (lower(t[k]) == lower("h"@) || lower(t[k]) == lower("half"@)) && (lower(
        t[k + 1],
    ) == lower("sbs"@) || lower(t[k + 1]) == lower("ou"@)) {
        assert(stereo_pair(t[k], t[k + 1]));
    }
}

/// A release is only blocked for one of the words that mark it, or for a fan's edit.
pub proof fn law_unmarked_releases_are_not_blocked(c: Media)
    ensures
        blocked(c) ==> exists|i: int|
            0 <= i < release_tokens(c).len() && ({
                let word = #[trigger] release_tokens(c)[i];
                word == "camrip"@ || word == "hdcam"@ || word == "telesync"@ || word == "hdts"@
                    || word == "telecine"@ || word == "workprint"@ || word == "rifftrax"@ || word
                    == "parody"@ || word == "fanedit"@ || word == "fanedited"@ || word == "mst3k"@
                    || word == "commentary"@ || (word == "fan"@ && i + 1 < release_tokens(c).len()
                    && release_tokens(c)[i + 1] == "edit"@)
            }),
{
    let t = release_tokens(c);
    if blocked(c) {
        if exists|i: int| 0 <= i < t.len() && blocked_word(#[trigger] t[i]) {
            let i = choose|i: int| 0 <= i < t.len() && blocked_word(#[trigger] t[i]);
            assert(blocked_word(release_tokens(c)[i]));
        } else {
            let i = choose|i: int|
                0 <= i < t.len() - 1 && #[trigger] t[i] == "fan"@ && t[i + 1] == "edit"@;
            assert(release_tokens(c)[i] == "fan"@);
        }
    }
}

/// What a codec or a container takes off how easily a file starts is the same in whatever
/// file: 350 thousandths for HEVC, 400 for AV1, 300 for VP9 and 250 for any other video;
/// 200 for Matroska and 150 for any other container; 200 for surround sound, 150 for any
/// other sound and 100 for none.
pub proof fn law_formats_cost_what_they_cost(c: Media, p: MediaSourceInfo)
    requires
        c.probe_data == Some(p),
    ensures
        ({
            let video = codec_of(p, MediaStreamType::Video);
            let audio = codec_of(p, MediaStreamType::Audio);
            let container = match p.container {
                Some(t) => lower(t@),
                None => Seq::empty(),
            };
            let v: int = if video == "h264"@ || video == "avc"@ || video == "avc1"@ {
                1000
            } else if video == "hevc"@ || video == "h265"@ || video == "hev1"@ || video == "hvc1"@ {
                1000 - 350
            } else if video == "av1"@ {
                1000 - 400
            } else if video == "vp9"@ {
                1000 - 300
            } else {
                1000 - 250
            };
            let k: int = if container == "mp4"@ || container == "m4v"@ || container == "mov"@ {
                1000
            } else if container == "mkv"@ || container == "matroska"@ || container == "webm"@ {
                1000 - 200
            } else {
                1000 - 150
            };
            let a: int = if audio == "aac"@ || audio == "mp3"@ {
                1000
            } else if audio == "ac3"@ || audio == "eac3"@ || audio == "dts"@ || audio == "truehd"@ {
                1000 - 200
            } else if audio.len() == 0 {
                1000 - 100
            } else {
                1000 - 150
            };
            compatibility(c) == v * k / 1000 * a / 1000
        }),
{
    lemma_format_names();
    reveal_strlit("opus");
    reveal_strlit("vorbis");
    assert("opus"@.len() == 4 && "vorbis"@.len() == 6);
}

} // verus!
