//! Housekeeping.

pub mod clean_transcode_folder;
