//! The things of a library: films, episodes, and the streams of each.

use vstd::prelude::*;

use crate::playback::source::MediaSourceInfo;
use crate::stream::StreamInfo;

verus! {

/// The kind of a thing in the library.
#[derive(Debug, Clone, Copy, PartialEq, Eq, Structural)]
pub enum MediaKind {
    Movie,
    Series,
    Season,
    Episode,
    Track,
    Channel,
    Stream,
    StreamGroup,
    Other,
}

/// The numbers of a thing in other catalogues.
#[derive(Debug)]
pub struct ExternalIds {
    pub imdb: Option<String>,
    pub tmdb: Option<i64>,
    pub tvdb: Option<i64>,
    pub kitsu: Option<i64>,
}

impl Default for ExternalIds {
    fn default() -> (r: Self)
        ensures
            r == (ExternalIds { imdb: None, tmdb: None, tvdb: None, kitsu: None }),
    {
        ExternalIds { imdb: None, tmdb: None, tvdb: None, kitsu: None }
    }
}

/// A thing of the library.
#[derive(Debug)]
pub struct Media {
    pub id: u128,
    pub kind: MediaKind,
    pub title: String,
    pub stream_info: Option<StreamInfo>,
    pub probe_data: Option<MediaSourceInfo>,
    /// The group that a stream stands for.
    pub group_id: Option<u128>,
    pub original_language: Option<String>,
    /// The length in seconds.
    pub runtime: Option<i64>,
    pub external_ids: ExternalIds,
    /// The number of the series in the film catalogue.
    pub grandparent_imdb: Option<String>,
    /// The season of an episode.
    pub parent_idx: Option<i64>,
    /// The number of an episode.
    pub idx: Option<i64>,
}

impl Default for Media {
    fn default() -> (r: Self)
        ensures
            r.id == 0,
            r.kind is Movie,
            r.title@ == ""@,
            r.stream_info is None,
            r.probe_data is None,
            r.group_id is None,
            r.original_language is None,
            r.runtime is None,
            r.external_ids == (ExternalIds { imdb: None, tmdb: None, tvdb: None, kitsu: None }),
            r.grandparent_imdb is None,
            r.parent_idx is None,
            r.idx is None,
    {
        Media {
            id: 0,
            kind: MediaKind::Movie,
            title: "".to_owned(),
            stream_info: None,
            probe_data: None,
            group_id: None,
            original_language: None,
            runtime: None,
            external_ids: ExternalIds::default(),
            grandparent_imdb: None,
            parent_idx: None,
            idx: None,
        }
    }
}

impl Media {
    /// Whether the stream comes from the torrent engine.
    pub open spec fn p2p(&self) -> bool {
        self.stream_info matches Some(info) && info.p2p()
    }

    pub fn is_p2p(&self) -> (r: bool)
        ensures
            r == self.p2p(),
    {
        match &self.stream_info {
            Some(info) => info.is_p2p(),
            None => false,
        }
    }

    /// The info hash of a torrent.
    pub open spec fn info_hash(&self) -> Option<Seq<char>> {
        match self.stream_info {
            Some(info) => info.descriptor.info_hash(),
            None => None,
        }
    }

    pub fn torrent_info_hash(&self) -> (r: Option<&str>)
        ensures
            crate::text::str_opt(r) == self.info_hash(),
    {
        match &self.stream_info {
            Some(info) => info.descriptor.torrent_info_hash(),
            None => None,
        }
    }

    /// The seeders that the provider states.
    pub open spec fn stated_seeders(&self) -> i64 {
        match self.stream_info {
            Some(info) => match info.seeders {
                Some(n) => n,
                None => 0,
            },
            None => 0,
        }
    }

    pub fn seeders(&self) -> (r: i64)
        ensures
            r == self.stated_seeders(),
    {
        match &self.stream_info {
            Some(info) => match info.seeders {
                Some(n) => n,
                None => 0,
            },
            None => 0,
        }
    }
}

} // verus!
