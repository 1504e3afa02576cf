//! The metadata of torrents that were looked at a short while ago.

use vstd::prelude::*;

use moka::sync::Cache;

use crate::stream::StreamDescriptor;
use crate::text::{lower, text_opt, to_lower};
use crate::torrent::{
    fresh_preflight, learnt, magnet_hash, managed_of, parse_info_hash_param, plan_preflight,
    plan_view, planned, prioritize_peers, prioritized, select_file_index, select_sidecar_subtitles,
    selected_file, sidecar_views, sidecars, total_length, CachedTorrentMetadata, ManagedTorrent,
    MetadataView, PreflightPlan, PreflightResponse, ResolveError, SidecarView, TorrentPreflight,
    TorrentSidecarSubtitle, UnexpectedDownload,
};
use crate::torrent_availability::Peer;

verus! {

/// `moka::sync::Cache`.
#[verifier::external_type_specification]
#[verifier::external_body]
#[verifier::reject_recursive_types(K)]
#[verifier::reject_recursive_types(V)]
#[verifier::reject_recursive_types(S)]
pub struct ExCache<K, V, S>(moka::sync::Cache<K, V, S>);

/// What was last put into a cache under each text. The cache may have dropped
/// it since.
pub uninterp spec fn kept_in(c: Cache<String, CachedTorrentMetadata>) -> Map<
    Seq<char>,
    CachedTorrentMetadata,
>;

/// A thousand years.
pub const LONGEST_TTL_SECS: u64 = 31_536_000_000;

/// `moka::sync::Cache::builder` with `max_capacity` and `time_to_live`, built:
/// a cache into which nothing has been put. It is refused for more than a
/// thousand years.
#[verifier::external_body]
fn new_cache(max_capacity: u64, ttl_secs: u64) -> (c: Cache<String, CachedTorrentMetadata>)
    requires
        ttl_secs <= LONGEST_TTL_SECS,
    ensures
        forall|k: Seq<char>| !kept_in(c).contains_key(k),
{
    Cache::builder()
        .max_capacity(max_capacity)
        .time_to_live(std::time::Duration::from_secs(ttl_secs))
        .build()
}

/// `moka::sync::Cache::get`: a copy of what was last put in, unless it has been
/// dropped. When it is dropped depends on the time and on what else was put in,
/// so nothing is said of that.
#[verifier::external_body]
fn cache_get(c: &Cache<String, CachedTorrentMetadata>, key: &str) -> (r: Option<
    CachedTorrentMetadata,
>)
    ensures
        r matches Some(m) ==> kept_in(*c).contains_key(key@) && m@ == kept_in(*c)[key@]@,
{
    c.get(key)
}

/// `moka::sync::Cache::insert`: the value takes the place of what was put in
/// under the same text.
#[verifier::external_body]
fn cache_insert(
    c: &mut Cache<String, CachedTorrentMetadata>,
    key: String,
    value: CachedTorrentMetadata,
)
    ensures
        kept_in(*final(c)) == kept_in(*old(c)).insert(key@, value),
{
    c.insert(key, value)
}

/// The metadata of torrents that were looked at a short while ago.
pub struct PreflightCache {
    cache: Cache<String, CachedTorrentMetadata>,
}

pub const CACHED_TORRENTS: u64 = 64;

pub const CACHED_SECS: u64 = 120;

/// The subtitles beside the file that a stream plays, by the torrent's
/// metadata.
pub open spec fn sidecars_by(metadata: MetadataView, descriptor: StreamDescriptor) -> Seq<
    SidecarView,
> {
    match descriptor {
        StreamDescriptor::Torrent { file_hint, file_idx, .. } => match selected_file(
            metadata.files,
            file_idx,
            text_opt(file_hint),
        ) {
            Ok(i) => sidecars(metadata.files, i, metadata.files.len()),
            Err(_) => Seq::empty(),
        },
        _ => Seq::empty(),
    }
}

/// The subtitles beside the file that a stream plays; none where the metadata
/// is not known or no file can be told from it.
pub fn sidecars_from(
    metadata: Option<&CachedTorrentMetadata>,
    descriptor: &StreamDescriptor,
) -> (r: Vec<TorrentSidecarSubtitle>)
    ensures
        sidecar_views(r@) == match metadata {
            Some(m) => sidecars_by(m@, *descriptor),
            None => Seq::empty(),
        },
{
    if let StreamDescriptor::Torrent { file_hint, file_idx, .. } = descriptor {
        if let Some(m) = metadata {
            let hint: Option<&str> = match file_hint {
                Some(h) => Some(h.as_str()),
                None => None,
            };
            if let Ok(i) = select_file_index(&m.files, *file_idx, hint) {
                return select_sidecar_subtitles(&m.files, i);
            }
        }
    }
    let r: Vec<TorrentSidecarSubtitle> = Vec::new();
    assert(sidecar_views(r@) =~= Seq::empty());
    r
}

/// Metadata with the peers that answered before the others.
pub open spec fn with_peers_first(metadata: MetadataView, responsive: Seq<Peer>) -> MetadataView {
    MetadataView { seen_peers: prioritized(responsive, metadata.seen_peers), ..metadata }
}

impl PreflightCache {
    /// What was last put in under each text.
    pub closed spec fn kept(&self) -> Map<Seq<char>, CachedTorrentMetadata> {
        kept_in(self.cache)
    }

    /// The files of each torrent have a total size that fits in 64 bits.
    pub open spec fn wf(&self) -> bool {
        forall|k: Seq<char>| #[trigger]
            self.kept().contains_key(k) ==> total_length(self.kept()[k].files@) <= u64::MAX
    }

    pub fn new() -> (r: PreflightCache)
        ensures
            r.wf(),
            forall|k: Seq<char>| !r.kept().contains_key(k),
    {
        PreflightCache { cache: new_cache(CACHED_TORRENTS, CACHED_SECS) }
    }

    /// What is known of a torrent.
    pub fn get(&self, info_hash: &str) -> (r: Option<CachedTorrentMetadata>)
        ensures
            r matches Some(m) ==> self.kept().contains_key(info_hash@) && m@
                == self.kept()[info_hash@]@,
    {
        cache_get(&self.cache, info_hash)
    }

    /// Keeps the metadata of a torrent.
    pub fn insert(&mut self, info_hash: String, metadata: CachedTorrentMetadata)
        requires
            old(self).wf(),
            total_length(metadata.files@) <= u64::MAX,
        ensures
            final(self).wf(),
            final(self).kept() == old(self).kept().insert(info_hash@, metadata),
    {
        cache_insert(&mut self.cache, info_hash, metadata);
    }

    /// The subtitles beside the file that a stream plays: what `sidecars_from`
    /// gives for the metadata that the cache still has. Whether it has dropped
    /// it depends on the time, so nothing is said of that.
    pub fn subtitle_sidecars(&self, descriptor: &StreamDescriptor) -> (r: Vec<
        TorrentSidecarSubtitle,
    >)
        ensures
            match descriptor {
                StreamDescriptor::Torrent { info_hash, .. } => r@.len() == 0 || (
                self.kept().contains_key(lower(info_hash@)) && sidecar_views(r@) == sidecars_by(
                    self.kept()[lower(info_hash@)]@,
                    *descriptor,
                )),
                _ => r@.len() == 0,
            },
    {
        let metadata = match descriptor {
            StreamDescriptor::Torrent { info_hash, .. } => self.get(to_lower(info_hash).as_str()),
            _ => None,
        };
        let found: Option<&CachedTorrentMetadata> = match &metadata {
            Some(m) => Some(m),
            None => None,
        };
        let r = sidecars_from(found, descriptor);
        assert(sidecar_views(r@).len() == r@.len());
        r
    }

    /// Decides how a torrent is looked at: what `plan_preflight` gives for the
    /// metadata that the cache still has under the magnet's hash. Whether it has
    /// dropped it depends on the time, so nothing is said of that.
    pub fn preflight(
        &self,
        magnet: &str,
        managed: Option<&ManagedTorrent>,
        initial_peers: &Vec<Peer>,
    ) -> (r: Result<PreflightPlan, ResolveError>)
        requires
            self.wf(),
            managed matches Some(m) ==> total_length(m.files@) <= u64::MAX,
        ensures
            plan_view(r) == planned(magnet@, managed_of(managed), None, initial_peers@) || {
                &&& magnet_hash(magnet@) is Some
                &&& self.kept().contains_key(magnet_hash(magnet@)->Some_0)
                &&& plan_view(r) == planned(
                    magnet@,
                    managed_of(managed),
                    Some(self.kept()[magnet_hash(magnet@)->Some_0]@),
                    initial_peers@,
                )
            },
    {
        let found = match parse_info_hash_param(magnet) {
            Some(hash) => self.get(hash.as_str()),
            None => None,
        };
        let cached: Option<&CachedTorrentMetadata> = match &found {
            Some(m) => {
                assert(m@.files == self.kept()[magnet_hash(magnet@)->Some_0]@.files);
                Some(m)
            },
            None => None,
        };
        plan_preflight(magnet, managed, cached, initial_peers)
    }

    /// Learns from the engine's answer, and keeps the metadata where it lists
    /// them.
    pub fn learn(
        &mut self,
        info_hash: String,
        response: PreflightResponse,
        magnet: &str,
        elapsed_ms: u64,
    ) -> (r: Result<TorrentPreflight, UnexpectedDownload>)
        requires
            old(self).wf(),
            response matches PreflightResponse::Listed { files, .. } ==> total_length(files@)
                <= u64::MAX,
        ensures
            final(self).wf(),
            match learnt(response, magnet@, elapsed_ms) {
                Ok((p, kept)) => {
                    &&& r matches Ok(preflight) && preflight@ == p
                    &&& match kept {
                        Some(metadata) => {
                            &&& final(self).kept() == old(self).kept().insert(
                                info_hash@,
                                final(self).kept()[info_hash@],
                            )
                            &&& final(self).kept()[info_hash@]@ == metadata
                        },
                        None => final(self).kept() == old(self).kept(),
                    }
                },
                Err(_) => r is Err && final(self).kept() == old(self).kept(),
            },
    {
        match fresh_preflight(response, magnet, elapsed_ms) {
            Ok((preflight, kept)) => {
                if let Some(metadata) = kept {
                    self.insert(info_hash, metadata);
                }
                Ok(preflight)
            },
            Err(e) => Err(e),
        }
    }

    /// Keeps metadata that was found under a text with the peers that answered
    /// in front. Where nobody answered or nothing was found, nothing changes.
    pub fn keep_peers_first(
        &mut self,
        key: String,
        found: Option<CachedTorrentMetadata>,
        responsive_peers: &Vec<Peer>,
    )
        requires
            old(self).wf(),
            found matches Some(m) ==> total_length(m.files@) <= u64::MAX,
        ensures
            final(self).wf(),
            match found {
                Some(m) if responsive_peers@.len() > 0 => {
                    &&& final(self).kept().contains_key(key@)
                    &&& final(self).kept() == old(self).kept().insert(
                        key@,
                        final(self).kept()[key@],
                    )
                    &&& final(self).kept()[key@]@ == with_peers_first(m@, responsive_peers@)
                },
                _ => final(self).kept() == old(self).kept(),
            },
    {
        if responsive_peers.len() == 0 {
            return;
        }
        if let Some(cached) = found {
            let seen_peers = prioritize_peers(responsive_peers, &cached.seen_peers);
            let changed = CachedTorrentMetadata {
                torrent_bytes: cached.torrent_bytes,
                seen_peers,
                trackers: cached.trackers,
                files: cached.files,
            };
            assert(changed@ == with_peers_first(cached@, responsive_peers@));
            self.insert(key, changed);
        }
    }

    /// Puts the peers that answered in front of the others that are known of a
    /// torrent, as `keep_peers_first` does for the metadata that the cache still
    /// has. Whether it has dropped it depends on the time, so nothing is said of
    /// that. Where nobody answered or nothing was ever kept, nothing changes.
    pub fn prioritize_preflight_peers(&mut self, info_hash: &str, responsive_peers: &Vec<Peer>)
        requires
            old(self).wf(),
        ensures
            final(self).wf(),
            responsive_peers@.len() == 0 ==> final(self).kept() == old(self).kept(),
            final(self).kept() == old(self).kept() || {
                let key = lower(info_hash@);
                &&& old(self).kept().contains_key(key)
                &&& final(self).kept() == old(self).kept().insert(key, final(self).kept()[key])
                &&& final(self).kept()[key]@ == with_peers_first(
                    old(self).kept()[key]@,
                    responsive_peers@,
                )
            },
    {
        if responsive_peers.len() == 0 {
            return;
        }
        let key = to_lower(info_hash);
        let found = self.get(key.as_str());
        proof {
            if found is Some {
                assert(found->Some_0@.files == self.kept()[key@]@.files);
            }
        }
        self.keep_peers_first(key, found, responsive_peers);
    }
}

/// Only a torrent has subtitles beside its file, and they are those that go with the
/// file that its stream asks for.
pub proof fn law_sidecars_go_with_the_stream(
    metadata: MetadataView,
    descriptor: StreamDescriptor,
    k: int,
)
    ensures
        !(descriptor is Torrent) ==> sidecars_by(metadata, descriptor).len() == 0,
        0 <= k < sidecars_by(metadata, descriptor).len() ==> {
            let s = sidecars_by(metadata, descriptor)[k];
            exists|i: int|
                0 <= i < metadata.files.len() && crate::torrent::video_file(
                    (#[trigger] metadata.files[i]).name@,
                ) && crate::torrent::goes_with(
                    metadata.files,
                    i,
                    metadata.files[s.file_idx].name@,
                )
        },
        (descriptor matches StreamDescriptor::Torrent { file_hint: None, file_idx: Some(i), .. }
            && i
            < metadata.files.len() && crate::torrent::video_file(metadata.files[i as int].name@))
            ==> sidecars_by(metadata, descriptor) == sidecars(
            metadata.files,
            descriptor->file_idx->Some_0 as int,
            metadata.files.len(),
        ),
{
    if let StreamDescriptor::Torrent { file_hint, file_idx, .. } = descriptor {
        let wanted = text_opt(file_hint);
        crate::torrent::law_a_video_is_chosen(metadata.files, file_idx, wanted);
        if let Ok(i) = selected_file(metadata.files, file_idx, wanted) {
            crate::torrent::law_subtitles_are_listed(
                metadata.files,
                i,
                metadata.files.len(),
                k,
                0,
            );
            assert(crate::torrent::video_file(metadata.files[i].name@));
        }
    }
}

/// Of the metadata only the order of the peers changes: those that answered come first.
pub proof fn law_only_peers_change(metadata: MetadataView, responsive: Seq<Peer>, k: int, p: Peer)
    requires
        0 <= k < responsive.len(),
    ensures
        ({
            let after = with_peers_first(metadata, responsive);
            &&& after.torrent_bytes == metadata.torrent_bytes
            &&& after.trackers == metadata.trackers
            &&& after.files == metadata.files
            &&& after.seen_peers.contains(p) <==> responsive.contains(p)
                || metadata.seen_peers.contains(p)
            &&& after.seen_peers.len() > 0 && after.seen_peers[0] == responsive[0]
        }),
{
    crate::torrent::law_responsive_peers_come_first(responsive, metadata.seen_peers, k, p);
    crate::order::law_first_occurrences_stay_in_order(responsive.take(1), responsive.skip(1));
    assert(responsive.take(1) + responsive.skip(1) =~= responsive);
    let one = responsive.take(1);
    assert(one.no_duplicates());
    let first = crate::order::distinct(responsive);
    assert(first.take(1)[0] == first[0]);
    let all = prioritized(responsive, metadata.seen_peers);
    assert(all.take(first.len() as int)[0] == all[0]);
}

} // verus!
