//! What is shared with the media database about a file that was probed.

use vstd::prelude::*;

use crate::media::{Media, MediaKind};
use crate::playback::source::MediaSourceInfo;
use crate::stream::StreamDescriptor;
use crate::text::text_opt;

verus! {

/// The article of a newsgroup that a file was posted in.
#[derive(Debug)]
pub struct NzbSubmission {
    pub indexer: String,
    pub indexer_guid: String,
    pub title: Option<String>,
}

/// The numbers of a thing in other catalogues.
#[derive(Debug)]
pub struct SharedIds {
    pub imdb_id: Option<String>,
    pub tmdb_id: Option<i64>,
    pub tvdb_id: Option<i64>,
    pub kitsu_id: Option<i64>,
}

/// A file: where it can be found, and what its container says. Its tracks are told
/// from the probe where the payload is sent.
#[derive(Debug)]
pub struct MediaInfoPayload {
    pub kind: String,
    pub filename: String,
    pub torrent_info_hash: Option<String>,
    pub torrent_file_idx: Option<i32>,
    pub nzb: Option<NzbSubmission>,
    pub container: String,
    pub size: i64,
    pub run_time_ticks: i64,
    pub bitrate: Option<i64>,
    pub season: Option<i32>,
    pub episode: Option<i32>,
    pub external_ids: Option<SharedIds>,
}

pub ghost struct NzbView {
    pub indexer: Seq<char>,
    pub indexer_guid: Seq<char>,
    pub title: Option<Seq<char>>,
}

pub ghost struct SharedIdsView {
    pub imdb_id: Option<Seq<char>>,
    pub tmdb_id: Option<i64>,
    pub tvdb_id: Option<i64>,
    pub kitsu_id: Option<i64>,
}

pub ghost struct PayloadView {
    pub kind: Seq<char>,
    pub filename: Seq<char>,
    pub torrent_info_hash: Option<Seq<char>>,
    pub torrent_file_idx: Option<i32>,
    pub nzb: Option<NzbView>,
    pub container: Seq<char>,
    pub size: i64,
    pub run_time_ticks: i64,
    pub bitrate: Option<i64>,
    pub season: Option<i32>,
    pub episode: Option<i32>,
    pub external_ids: Option<SharedIdsView>,
}

impl View for NzbSubmission {
    type V = NzbView;

    open spec fn view(&self) -> NzbView {
        NzbView {
            indexer: self.indexer@,
            indexer_guid: self.indexer_guid@,
            title: text_opt(self.title),
        }
    }
}

impl View for SharedIds {
    type V = SharedIdsView;

    open spec fn view(&self) -> SharedIdsView {
        SharedIdsView {
            imdb_id: text_opt(self.imdb_id),
            tmdb_id: self.tmdb_id,
            tvdb_id: self.tvdb_id,
            kitsu_id: self.kitsu_id,
        }
    }
}

impl View for MediaInfoPayload {
    type V = PayloadView;

    open spec fn view(&self) -> PayloadView {
        PayloadView {
            kind: self.kind@,
            filename: self.filename@,
            torrent_info_hash: text_opt(self.torrent_info_hash),
            torrent_file_idx: self.torrent_file_idx,
            nzb: match self.nzb {
                Some(n) => Some(n@),
                None => None,
            },
            container: self.container@,
            size: self.size,
            run_time_ticks: self.run_time_ticks,
            bitrate: self.bitrate,
            season: self.season,
            episode: self.episode,
            external_ids: match self.external_ids {
                Some(e) => Some(e@),
                None => None,
            },
        }
    }
}

/// A number cut down to 32 bits, the highest of which is its sign.
pub open spec fn wrapped32(n: int) -> i32 {
    let low = n % 0x1_0000_0000;
    if low < 0x8000_0000 {
        low as i32
    } else {
        (low - 0x1_0000_0000) as i32
    }
}

fn wrap32(n: i128) -> (r: i32)
    requires
        -0x1_0000_0000_0000_0000 <= n <= 0x1_0000_0000_0000_0000,
    ensures
        r == wrapped32(n as int),
{
    let shifted: u128 = (n + 0x1_0000_0000_0000_0000) as u128;
    let low: i64 = (shifted % 0x1_0000_0000) as i64;
    assert(low == n % 0x1_0000_0000);
    if low < 0x8000_0000 {
        low as i32
    } else {
        (low - 0x1_0000_0000) as i32
    }
}

fn wrap_opt(n: Option<i64>) -> (r: Option<i32>)
    ensures
        r == match n {
            Some(v) => Some(wrapped32(v as int)),
            None => None,
        },
{
    match n {
        Some(v) => Some(wrap32(v as i128)),
        None => None,
    }
}

/// The torrent that a stream comes from, and the file in it.
pub open spec fn shared_torrent(stream: Media) -> (Option<Seq<char>>, Option<i32>) {
    match stream.stream_info {
        Some(info) => match info.descriptor {
            StreamDescriptor::Torrent { info_hash, file_idx, .. } => (
                Some(info_hash@),
                match file_idx {
                    Some(i) => Some(wrapped32(i as int)),
                    None => None,
                },
            ),
            _ => (None, None),
        },
        None => (None, None),
    }
}

pub open spec fn shared_nzb(stream: Media) -> Option<NzbView> {
    match stream.stream_info {
        Some(info) => match (info.usenet_guid, info.usenet_indexer) {
            (Some(guid), Some(indexer)) => Some(
                NzbView { indexer: indexer@, indexer_guid: guid@, title: text_opt(info.filename) },
            ),
            _ => None,
        },
        None => None,
    }
}

/// The name of the file, or else the title of the stream.
pub open spec fn shared_name(stream: Media) -> Seq<char> {
    match stream.stream_info {
        Some(info) => match info.filename {
            Some(f) => f@,
            None => stream.title@,
        },
        None => stream.title@,
    }
}

/// The size by the probe, or else by the provider; it has to be positive.
pub open spec fn shared_size(probe: MediaSourceInfo, stream: Media) -> Option<i64> {
    let size = match probe.size {
        Some(s) => Some(s),
        None => match stream.stream_info {
            Some(info) => info.size,
            None => None,
        },
    };
    match size {
        Some(s) => if s > 0 {
            Some(s)
        } else {
            None
        },
        None => None,
    }
}

/// The catalogue numbers of an item, where it has any. An episode without its
/// own film number has that of its series.
pub open spec fn shared_ids(item: Media) -> Option<SharedIdsView> {
    let ids = item.external_ids;
    let imdb_id = match ids.imdb {
        Some(i) => Some(i@),
        None => text_opt(item.grandparent_imdb),
    };
    if imdb_id is Some || ids.tmdb is Some || ids.tvdb is Some || ids.kitsu is Some {
        Some(SharedIdsView { imdb_id, tmdb_id: ids.tmdb, tvdb_id: ids.tvdb, kitsu_id: ids.kitsu })
    } else {
        None
    }
}

pub open spec fn shared_place(n: Option<i64>, item: Media) -> Option<i32> {
    match n {
        Some(v) if item.kind is Episode => Some(wrapped32(v as int)),
        _ => None,
    }
}

/// What is shared. Only files that others can find, by a torrent or by an
/// article, and whose size is known, are.
pub open spec fn payload(probe: MediaSourceInfo, stream: Media, item: Option<Media>) -> Option<
    PayloadView,
> {
    let (hash, idx) = shared_torrent(stream);
    let nzb = shared_nzb(stream);
    match shared_size(probe, stream) {
        Some(size) if hash is Some || nzb is Some => Some(
            PayloadView {
                kind: match item {
                    Some(m) if m.kind is Episode => "episode"@,
                    _ => "movie"@,
                },
                filename: shared_name(stream),
                torrent_info_hash: hash,
                torrent_file_idx: idx,
                nzb,
                container: match probe.container {
                    Some(c) => c@,
                    None => ""@,
                },
                size,
                run_time_ticks: match probe.run_time_ticks {
                    Some(t) => t,
                    None => 0,
                },
                bitrate: probe.bitrate,
                season: match item {
                    Some(m) => shared_place(m.parent_idx, m),
                    None => None,
                },
                episode: match item {
                    Some(m) => shared_place(m.idx, m),
                    None => None,
                },
                external_ids: match item {
                    Some(m) => shared_ids(m),
                    None => None,
                },
            },
        ),
        _ => None,
    }
}

fn copy_opt(s: &Option<String>) -> (r: Option<String>)
    ensures
        text_opt(r) == text_opt(*s),
{
    match s {
        Some(s) => Some(s.clone()),
        None => None,
    }
}

fn torrent_to_share(stream: &Media) -> (r: (Option<String>, Option<i32>))
    ensures
        (text_opt(r.0), r.1) == shared_torrent(*stream),
{
    match &stream.stream_info {
        Some(info) => match &info.descriptor {
            StreamDescriptor::Torrent { info_hash, file_idx, .. } => (
                Some(info_hash.clone()),
                match file_idx {
                    Some(i) => Some(wrap32(*i as i128)),
                    None => None,
                },
            ),
            _ => (None, None),
        },
        None => (None, None),
    }
}

fn nzb_to_share(stream: &Media) -> (r: Option<NzbSubmission>)
    ensures
        match r {
            Some(n) => shared_nzb(*stream) == Some(n@),
            None => shared_nzb(*stream) is None,
        },
{
    match &stream.stream_info {
        Some(info) => match (&info.usenet_guid, &info.usenet_indexer) {
            (Some(guid), Some(indexer)) => Some(
                NzbSubmission {
                    indexer: indexer.clone(),
                    indexer_guid: guid.clone(),
                    title: copy_opt(&info.filename),
                },
            ),
            _ => None,
        },
        None => None,
    }
}

fn ids_to_share(item: &Media) -> (r: Option<SharedIds>)
    ensures
        match r {
            Some(e) => shared_ids(*item) == Some(e@),
            None => shared_ids(*item) is None,
        },
{
    let ids = &item.external_ids;
    let imdb_id = match &ids.imdb {
        Some(i) => Some(i.clone()),
        None => copy_opt(&item.grandparent_imdb),
    };
    if imdb_id.is_some() || ids.tmdb.is_some() || ids.tvdb.is_some() || ids.kitsu.is_some() {
        Some(SharedIds { imdb_id, tmdb_id: ids.tmdb, tvdb_id: ids.tvdb, kitsu_id: ids.kitsu })
    } else {
        None
    }
}

/// What is shared of a file that was probed.
pub fn media_info_from_probe(
    probe: &MediaSourceInfo,
    stream: &Media,
    item: Option<&Media>,
) -> (r: Option<MediaInfoPayload>)
    ensures
        ({
            let wanted = payload(*probe, *stream, super::auto_score::deref(item));
            match r {
                Some(p) => wanted == Some(p@),
                None => wanted is None,
            }
        }),
{
    let (torrent_info_hash, torrent_file_idx) = torrent_to_share(stream);
    let nzb = nzb_to_share(stream);
    if torrent_info_hash.is_none() && nzb.is_none() {
        return None;
    }
    let size: i64 = match probe.size {
        Some(s) => s,
        None => match &stream.stream_info {
            Some(info) => match info.size {
                Some(s) => s,
                None => {
                    return None;
                },
            },
            None => {
                return None;
            },
        },
    };
    if size <= 0 {
        return None;
    }
    let filename = match &stream.stream_info {
        Some(info) => match &info.filename {
            Some(f) => f.clone(),
            None => stream.title.clone(),
        },
        None => stream.title.clone(),
    };
    let mut kind = "movie";
    let mut season: Option<i32> = None;
    let mut episode: Option<i32> = None;
    let mut external_ids: Option<SharedIds> = None;
    if let Some(m) = item {
        if m.kind == MediaKind::Episode {
            kind = "episode";
            season = wrap_opt(m.parent_idx);
            episode = wrap_opt(m.idx);
        }
        external_ids = ids_to_share(m);
    }
    Some(
        MediaInfoPayload {
            kind: kind.to_owned(),
            filename,
            torrent_info_hash,
            torrent_file_idx,
            nzb,
            container: match &probe.container {
                Some(c) => c.clone(),
                None => "".to_owned(),
            },
            size,
            run_time_ticks: match probe.run_time_ticks {
                Some(t) => t,
                None => 0,
            },
            bitrate: probe.bitrate,
            season,
            episode,
            external_ids,
        },
    )
}

/// Only a file that others can find is shared: by the hash of its torrent or by its
/// article and who indexed it. Its size has to be known.
pub proof fn law_findable_files_are_shared(
    probe: MediaSourceInfo,
    stream: Media,
    item: Option<Media>,
)
    ensures
        ({
            let shared = payload(probe, stream, item);
            let torrent = stream.stream_info matches Some(info) && info.descriptor is Torrent;
            let article = stream.stream_info matches Some(info) && info.usenet_guid is Some
                && info.usenet_indexer is Some;
            let sized = (probe.size matches Some(s) && s > 0) || (probe.size is None && (
            stream.stream_info matches Some(info) && (info.size matches Some(s) && s > 0)));
            &&& shared is Some <==> (torrent || article) && sized
            &&& shared matches Some(p) ==> {
                &&& p.torrent_info_hash == stream.info_hash()
                &&& p.size > 0
                &&& probe.size matches Some(s) ==> p.size == s
                &&& probe.size is None ==> stream.stream_info->Some_0.size == Some(p.size)
                &&& p.nzb is Some <==> article
                &&& p.nzb matches Some(n) ==> n.indexer
                    == stream.stream_info->Some_0.usenet_indexer->Some_0@ && n.indexer_guid
                    == stream.stream_info->Some_0.usenet_guid->Some_0@
                &&& p.bitrate == probe.bitrate
                &&& probe.run_time_ticks matches Some(t) ==> p.run_time_ticks == t
                &&& probe.run_time_ticks is None ==> p.run_time_ticks == 0
                &&& probe.container matches Some(c) ==> p.container == c@
            }
        }),
{
}

/// A file goes by its own name, and by the title of the stream where it has none.
pub proof fn law_files_go_by_their_names(probe: MediaSourceInfo, stream: Media, item: Option<Media>)
    ensures
        payload(probe, stream, item) matches Some(p) ==> (stream.stream_info matches Some(info) && (
        info.filename matches Some(f) ==> p.filename == f@) && (info.filename is None ==> p.filename
            == stream.title@)),
{
}

/// The number of the file in its torrent is told as it is, as far as 32 bits can.
pub proof fn law_file_numbers_are_told(stream: Media, n: int)
    ensures
        -0x8000_0000 <= n < 0x8000_0000 ==> wrapped32(n) == n,
        wrapped32(n + 0x1_0000_0000) == wrapped32(n),
        stream.stream_info matches Some(info)
            ==> (info.descriptor matches StreamDescriptor::Torrent {
            file_idx: Some(i),
            ..
        } ==> shared_torrent(stream).1 == Some(wrapped32(i as int))),
        stream.stream_info matches Some(info)
            ==> (info.descriptor matches StreamDescriptor::Torrent {
            file_idx: None,
            ..
        } ==> shared_torrent(stream).1 is None),
{
}

/// An episode is told as one, with its season, its number and its own numbers in other
/// catalogues or its series'; anything else is told as a film.
pub proof fn law_episodes_are_told(probe: MediaSourceInfo, stream: Media, item: Media)
    ensures
        payload(probe, stream, Some(item)) matches Some(p) ==> {
            &&& item.kind is Episode ==> p.kind == "episode"@
            &&& !(item.kind is Episode) ==> p.kind == "movie"@ && p.season is None && p.episode
                is None
            &&& (item.kind is Episode && item.parent_idx is Some) ==> p.season == Some(
                wrapped32(item.parent_idx->Some_0 as int),
            )
            &&& (item.kind is Episode && item.idx is Some) ==> p.episode == Some(
                wrapped32(item.idx->Some_0 as int),
            )
            &&& item.parent_idx is None ==> p.season is None
            &&& item.idx is None ==> p.episode is None
            &&& item.external_ids.imdb matches Some(i) ==> (p.external_ids matches Some(e)
                && e.imdb_id == Some(i@))
            &&& item.external_ids.imdb is None && item.grandparent_imdb is Some ==> (
            p.external_ids matches Some(e) && e.imdb_id == text_opt(item.grandparent_imdb))
            &&& p.external_ids matches Some(e) ==> e.tmdb_id == item.external_ids.tmdb && e.tvdb_id
                == item.external_ids.tvdb && e.kitsu_id == item.external_ids.kitsu
            &&& item.external_ids.tmdb is Some || item.external_ids.tvdb is Some
                || item.external_ids.kitsu is Some ==> p.external_ids is Some
        },
        payload(probe, stream, None) matches Some(p) ==> p.kind == "movie"@ && p.season is None
            && p.episode is None && p.external_ids is None,
{
}

} // verus!
