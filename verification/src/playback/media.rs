//! What is known of a source: its dynamic range and its codecs.

use vstd::prelude::*;

use crate::text::{same_text, str_opt};

verus! {

#[derive(Clone, Copy, Debug, PartialEq, Eq, Structural)]
pub enum VideoRange {
    Unknown,
    Sdr,
    Hdr,
}

#[derive(Clone, Copy, Debug, PartialEq, Eq, Structural)]
pub enum VideoRangeType {
    Unknown,
    Sdr,
    Hdr10,
    Hdr10Plus,
    Hlg,
    Dovi,
    DoviWithHdr10,
    DoviWithHlg,
    DoviWithSdr,
}

/// The sources whose colours a standard display cannot show.
pub open spec fn hdr_source(range: Option<VideoRangeType>) -> bool {
    range matches Some(r) && (r is Hdr10 || r is Hdr10Plus || r is Hlg || r is Dovi
        || r is DoviWithHdr10 || r is DoviWithHlg)
}

pub fn is_hdr(range: Option<VideoRangeType>) -> (r: bool)
    ensures
        r == hdr_source(range),
{
    match range {
        Some(VideoRangeType::Hdr10) => true,
        Some(VideoRangeType::Hdr10Plus) => true,
        Some(VideoRangeType::Hlg) => true,
        Some(VideoRangeType::Dovi) => true,
        Some(VideoRangeType::DoviWithHdr10) => true,
        Some(VideoRangeType::DoviWithHlg) => true,
        _ => false,
    }
}

/// The sources that carry Dolby Vision metadata.
pub open spec fn dovi_source(range: Option<VideoRangeType>) -> bool {
    range matches Some(r) && (r is Dovi || r is DoviWithHdr10 || r is DoviWithHlg
        || r is DoviWithSdr)
}

pub fn is_dovi(range: Option<VideoRangeType>) -> (r: bool)
    ensures
        r == dovi_source(range),
{
    match range {
        Some(VideoRangeType::Dovi) => true,
        Some(VideoRangeType::DoviWithHdr10) => true,
        Some(VideoRangeType::DoviWithHlg) => true,
        Some(VideoRangeType::DoviWithSdr) => true,
        _ => false,
    }
}

/// How much time the software encoder spends on a frame.
#[derive(Clone, Copy, Debug, PartialEq, Eq, Structural)]
pub enum EncodingPreset {
    Ultrafast,
    Superfast,
    Veryfast,
    Faster,
    Fast,
    Medium,
    Slow,
    Slower,
    Veryslow,
}

/// The encoder's own name for a preset; `ultrafast` where none is set.
pub open spec fn preset_spec(preset: Option<EncodingPreset>) -> Seq<char> {
    match preset {
        None => "ultrafast"@,
        Some(EncodingPreset::Ultrafast) => "ultrafast"@,
        Some(EncodingPreset::Superfast) => "superfast"@,
        Some(EncodingPreset::Veryfast) => "veryfast"@,
        Some(EncodingPreset::Faster) => "faster"@,
        Some(EncodingPreset::Fast) => "fast"@,
        Some(EncodingPreset::Medium) => "medium"@,
        Some(EncodingPreset::Slow) => "slow"@,
        Some(EncodingPreset::Slower) => "slower"@,
        Some(EncodingPreset::Veryslow) => "veryslow"@,
    }
}

pub fn preset_name(preset: Option<EncodingPreset>) -> (r: String)
    ensures
        r@ == preset_spec(preset),
{
    let name = match preset {
        None => "ultrafast",
        Some(EncodingPreset::Ultrafast) => "ultrafast",
        Some(EncodingPreset::Superfast) => "superfast",
        Some(EncodingPreset::Veryfast) => "veryfast",
        Some(EncodingPreset::Faster) => "faster",
        Some(EncodingPreset::Fast) => "fast",
        Some(EncodingPreset::Medium) => "medium",
        Some(EncodingPreset::Slow) => "slow",
        Some(EncodingPreset::Slower) => "slower",
        Some(EncodingPreset::Veryslow) => "veryslow",
    };
    name.to_owned()
}

/// The names under which HEVC goes.
pub open spec fn hevc_name(codec: Seq<char>) -> bool {
    codec == "hevc"@ || codec == "h265"@ || codec == "hvc1"@ || codec == "hev1"@
}

pub open spec fn hevc_source(codec: Option<Seq<char>>) -> bool {
    codec matches Some(c) && hevc_name(c)
}

pub fn is_hevc(codec: Option<&str>) -> (r: bool)
    ensures
        r == hevc_source(str_opt(codec)),
{
    match codec {
        Some(c) => same_text(c, "hevc") || same_text(c, "h265") || same_text(c, "hvc1")
            || same_text(c, "hev1"),
        None => false,
    }
}

/// AAC is framed anew when it is copied out of a transport stream.
pub open spec fn adts_source(codec: Option<Seq<char>>) -> bool {
    codec == Some("aac"@)
}

pub fn needs_adts_reframe(codec: Option<&str>) -> (r: bool)
    ensures
        r == adts_source(str_opt(codec)),
{
    match codec {
        Some(c) => same_text(c, "aac"),
        None => false,
    }
}

/// The text in `s`, if there is one.
pub fn borrowed(s: &Option<String>) -> (r: Option<&str>)
    ensures
        str_opt(r) == crate::text::text_opt(*s),
{
    match s {
        Some(t) => Some(t.as_str()),
        None => None,
    }
}

/// Every preset goes under the name that the encoder knows it by, and the quickest is
/// taken where none is set.
pub proof fn law_presets_have_their_names()
    ensures
        preset_spec(None) == "ultrafast"@,
        preset_spec(Some(EncodingPreset::Ultrafast)) == "ultrafast"@,
        preset_spec(Some(EncodingPreset::Superfast)) == "superfast"@,
        preset_spec(Some(EncodingPreset::Veryfast)) == "veryfast"@,
        preset_spec(Some(EncodingPreset::Faster)) == "faster"@,
        preset_spec(Some(EncodingPreset::Fast)) == "fast"@,
        preset_spec(Some(EncodingPreset::Medium)) == "medium"@,
        preset_spec(Some(EncodingPreset::Slow)) == "slow"@,
        preset_spec(Some(EncodingPreset::Slower)) == "slower"@,
        preset_spec(Some(EncodingPreset::Veryslow)) == "veryslow"@,
{
}

} // verus!
