//! Concurrent maps, each used by one owner at a time.

use vstd::prelude::*;

use dashmap::DashMap;

use crate::playback_session::{PlaybackSession, PlaybackStartup, PlaybackStartupFailure};

verus! {

/// `dashmap::DashMap`.
#[verifier::external_type_specification]
#[verifier::external_body]
#[verifier::reject_recursive_types(K)]
#[verifier::reject_recursive_types(V)]
#[verifier::reject_recursive_types(S)]
pub struct ExDashMap<K, V, S>(dashmap::DashMap<K, V, S>);

/// What a map of playback sessions holds.
pub uninterp spec fn session_map(m: DashMap<String, PlaybackSession>) -> Map<
    Seq<char>,
    PlaybackSession,
>;

/// What a map of playbacks that are starting holds.
pub uninterp spec fn startup_map(m: DashMap<String, PlaybackStartup>) -> Map<
    Seq<char>,
    PlaybackStartup,
>;

/// What a map of playbacks that failed to start holds.
pub uninterp spec fn failure_map(m: DashMap<String, PlaybackStartupFailure>) -> Map<
    Seq<char>,
    PlaybackStartupFailure,
>;

/// What a map from texts to numbers holds.
pub uninterp spec fn owner_map(m: DashMap<String, u64>) -> Map<Seq<char>, u64>;

/// What a map from numbers to counts holds.
pub uninterp spec fn count_map(m: DashMap<u64, u64>) -> Map<u64, u64>;

/// What a map from numbers to times holds.
pub uninterp spec fn time_map(m: DashMap<u64, i128>) -> Map<u64, i128>;

/// What is kept in a map under texts. For each type of values, `held` is the name
/// above for what such a map holds: the wrappers below say of it what they do to
/// the map, so that an impl with a meaning of its own would contradict them.
pub(crate) trait InTextMap: Sized {
    spec fn held(m: DashMap<String, Self>) -> Map<Seq<char>, Self>;
}

impl InTextMap for PlaybackSession {
    open spec fn held(m: DashMap<String, PlaybackSession>) -> Map<Seq<char>, PlaybackSession> {
        session_map(m)
    }
}

impl InTextMap for PlaybackStartup {
    open spec fn held(m: DashMap<String, PlaybackStartup>) -> Map<Seq<char>, PlaybackStartup> {
        startup_map(m)
    }
}

impl InTextMap for PlaybackStartupFailure {
    open spec fn held(m: DashMap<String, PlaybackStartupFailure>) -> Map<
        Seq<char>,
        PlaybackStartupFailure,
    > {
        failure_map(m)
    }
}

impl InTextMap for u64 {
    open spec fn held(m: DashMap<String, u64>) -> Map<Seq<char>, u64> {
        owner_map(m)
    }
}

/// What is kept in a map under numbers. For each type of values, `numbered` is the
/// name above for what such a map holds, and nothing else, as with texts.
pub(crate) trait InNumberMap: Sized + Copy {
    spec fn numbered(m: DashMap<u64, Self>) -> Map<u64, Self>;
}

impl InNumberMap for u64 {
    open spec fn numbered(m: DashMap<u64, u64>) -> Map<u64, u64> {
        count_map(m)
    }
}

impl InNumberMap for i128 {
    open spec fn numbered(m: DashMap<u64, i128>) -> Map<u64, i128> {
        time_map(m)
    }
}

/// `dashmap::DashMap::new`: an empty map.
#[verifier::external_body]
pub(crate) fn new_session_map() -> (m: DashMap<String, PlaybackSession>)
    ensures
        forall|k: Seq<char>| !session_map(m).contains_key(k),
{
    DashMap::new()
}

/// `dashmap::DashMap::new`: an empty map.
#[verifier::external_body]
pub(crate) fn new_startup_map() -> (m: DashMap<String, PlaybackStartup>)
    ensures
        forall|k: Seq<char>| !startup_map(m).contains_key(k),
{
    DashMap::new()
}

/// `dashmap::DashMap::new`: an empty map.
#[verifier::external_body]
pub(crate) fn new_failure_map() -> (m: DashMap<String, PlaybackStartupFailure>)
    ensures
        forall|k: Seq<char>| !failure_map(m).contains_key(k),
{
    DashMap::new()
}

/// `dashmap::DashMap::new`: an empty map.
#[verifier::external_body]
pub(crate) fn new_owner_map() -> (m: DashMap<String, u64>)
    ensures
        forall|k: Seq<char>| !owner_map(m).contains_key(k),
{
    DashMap::new()
}

/// `dashmap::DashMap::new`: an empty map.
#[verifier::external_body]
pub(crate) fn new_count_map() -> (m: DashMap<u64, u64>)
    ensures
        forall|k: u64| !count_map(m).contains_key(k),
{
    DashMap::new()
}

/// `dashmap::DashMap::new`: an empty map.
#[verifier::external_body]
pub(crate) fn new_time_map() -> (m: DashMap<u64, i128>)
    ensures
        forall|k: u64| !time_map(m).contains_key(k),
{
    DashMap::new()
}

/// What a map holds under a key.
pub open spec fn lookup<K, V>(m: Map<K, V>, key: K) -> Option<V> {
    if m.contains_key(key) {
        Some(m[key])
    } else {
        None
    }
}

/// `dashmap::DashMap::insert`: puts a value in and gives back the one that was
/// there.
#[verifier::external_body]
pub(crate) fn text_insert<V: InTextMap>(
    m: &mut DashMap<String, V>,
    key: String,
    value: V,
) -> (r: Option<V>)
    ensures
        V::held(*final(m)) == V::held(*old(m)).insert(key@, value),
        r == lookup(V::held(*old(m)), key@),
{
    m.insert(key, value)
}

/// `dashmap::DashMap::remove`: takes out what is under a key and gives it back.
#[verifier::external_body]
pub(crate) fn text_remove<V: InTextMap>(m: &mut DashMap<String, V>, key: &str) -> (r: Option<V>)
    ensures
        V::held(*final(m)) == V::held(*old(m)).remove(key@),
        r == lookup(V::held(*old(m)), key@),
{
    m.remove(key).map(|entry| entry.1)
}

/// Whether `r` is what a map holds under a key, or a clone of it.
pub open spec fn found<V: Clone>(held: Option<V>, r: Option<V>) -> bool {
    match (held, r) {
        (Some(a), Some(b)) => vstd::pervasive::cloned(a, b),
        (None, None) => true,
        _ => false,
    }
}

/// `dashmap::DashMap::get`: a clone of what is under a key.
#[verifier::external_body]
pub(crate) fn text_get<V: InTextMap + Clone>(m: &DashMap<String, V>, key: &str) -> (r: Option<V>)
    ensures
        found(lookup(V::held(*m), key@), r),
{
    m.get(key).map(|entry| entry.value().clone())
}

/// `dashmap::DashMap::contains_key`.
#[verifier::external_body]
pub(crate) fn text_contains<V: InTextMap>(m: &DashMap<String, V>, key: &str) -> (r: bool)
    ensures
        r == V::held(*m).contains_key(key@),
{
    m.contains_key(key)
}

/// `dashmap::DashMap::len`.
#[verifier::external_body]
pub(crate) fn text_len<V: InTextMap>(m: &DashMap<String, V>) -> (n: usize)
    ensures
        n == V::held(*m).len(),
{
    m.len()
}

/// Whether a list holds every entry of a map once, in any order, with a clone
/// of its value.
pub open spec fn lists_all<V: Clone>(list: Seq<(String, V)>, held: Map<Seq<char>, V>) -> bool {
    &&& forall|i: int|
        0 <= i < list.len() ==> held.contains_key((#[trigger] list[i]).0@)
            && vstd::pervasive::cloned(held[list[i].0@], list[i].1)
    &&& forall|k: Seq<char>| #[trigger]
        held.contains_key(k) ==> exists|i: int| 0 <= i < list.len() && (#[trigger] list[i]).0@ == k
    &&& forall|i: int, j: int|
        0 <= i < j < list.len() ==> (#[trigger] list[i]).0@ != (#[trigger] list[j]).0@
}

/// `dashmap::DashMap::iter`: every key with a clone of its value, in any order.
#[verifier::external_body]
pub(crate) fn text_entries<V: InTextMap + Clone>(m: &DashMap<String, V>) -> (r: Vec<(String, V)>)
    ensures
        lists_all(r@, V::held(*m)),
{
    m.iter().map(|entry| (entry.key().clone(), entry.value().clone())).collect()
}

/// `dashmap::DashMap::insert`: puts a value in and gives back the one that was
/// there.
#[verifier::external_body]
pub(crate) fn number_insert<V: InNumberMap>(m: &mut DashMap<u64, V>, key: u64, value: V) -> (r:
    Option<V>)
    ensures
        V::numbered(*final(m)) == V::numbered(*old(m)).insert(key, value),
        r == lookup(V::numbered(*old(m)), key),
{
    m.insert(key, value)
}

/// `dashmap::DashMap::remove`: takes out what is under a key and gives it back.
#[verifier::external_body]
pub(crate) fn number_remove<V: InNumberMap>(m: &mut DashMap<u64, V>, key: u64) -> (r: Option<V>)
    ensures
        V::numbered(*final(m)) == V::numbered(*old(m)).remove(key),
        r == lookup(V::numbered(*old(m)), key),
{
    m.remove(&key).map(|entry| entry.1)
}

/// `dashmap::DashMap::get`: what is under a key.
#[verifier::external_body]
pub(crate) fn number_get<V: InNumberMap>(m: &DashMap<u64, V>, key: u64) -> (r: Option<V>)
    ensures
        r == lookup(V::numbered(*m), key),
{
    m.get(&key).map(|entry| *entry.value())
}

/// Whether a list holds every entry of a map once, in any order.
pub open spec fn lists_numbers<V>(list: Seq<(u64, V)>, held: Map<u64, V>) -> bool {
    &&& forall|i: int|
        0 <= i < list.len() ==> held.contains_key((#[trigger] list[i]).0) && held[list[i].0]
            == list[i].1
    &&& forall|k: u64| #[trigger]
        held.contains_key(k) ==> exists|i: int| 0 <= i < list.len() && (#[trigger] list[i]).0 == k
    &&& forall|i: int, j: int|
        0 <= i < j < list.len() ==> (#[trigger] list[i]).0 != (#[trigger] list[j]).0
}

/// `dashmap::DashMap::iter`: every entry, in any order.
#[verifier::external_body]
pub(crate) fn number_entries<V: InNumberMap>(m: &DashMap<u64, V>) -> (r: Vec<(u64, V)>)
    ensures
        lists_numbers(r@, V::numbered(*m)),
{
    m.iter().map(|entry| (*entry.key(), *entry.value())).collect()
}

} // verus!
