//! Choosing the streams of an item.

pub mod auto_score;
pub mod auto_select;
pub mod media_info;
pub mod stream_service;
