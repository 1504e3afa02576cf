//! Probing a stream, transcoding it and describing it to a client.

pub mod engine;
pub mod fallback;
pub mod filters;
pub mod hw_accel;
pub mod media;
pub mod monitor;
pub mod playlists;
pub mod probe;
pub mod session;
pub mod source;
pub mod titles;
