//! The decision logic of a media server: which streams to offer, how to
//! drive the transcoder, and how to keep track of playback and torrents.

pub mod binary64;
pub mod dash;
pub mod ids;
pub mod keyed;
pub mod languages;
pub mod media;
pub mod order;
pub mod paths;
pub mod playback;
pub mod playback_session;
pub mod proxy;
pub mod release_name;
pub mod services;
pub mod store;
pub mod stream;
pub mod tasks;
pub mod text;
pub mod torrent;
pub mod torrent_activity;
pub mod torrent_availability;
pub mod torrent_cache;
pub mod torrent_storage;
pub mod urls;
pub mod web_patches;
