//! What is known of a media source: its container, its streams and its marked
//! segments.

use vstd::prelude::*;

use super::media::{VideoRange, VideoRangeType};
use crate::text::text_opt;

verus! {

#[derive(Debug, Clone, Copy, PartialEq, Eq, Structural)]
pub enum MediaStreamType {
    Video,
    Audio,
    Subtitle,
}

#[derive(Debug, Clone, Copy, PartialEq, Eq, Structural)]
pub enum SubtitleDeliveryMethod {
    Embed,
}

/// A stream of a source. The level and the frame rates are texts.
#[derive(Debug)]
pub struct MediaStream {
    pub type_: Option<MediaStreamType>,
    pub index: i64,
    pub codec: Option<String>,
    pub codec_tag: Option<String>,
    pub profile: Option<String>,
    pub level: Option<String>,
    pub width: Option<i64>,
    pub height: Option<i64>,
    pub bit_rate: Option<i64>,
    pub bit_depth: Option<i64>,
    pub average_frame_rate: Option<String>,
    pub real_frame_rate: Option<String>,
    pub channels: Option<i64>,
    pub channel_layout: Option<String>,
    pub sample_rate: Option<i64>,
    pub is_default: Option<bool>,
    pub is_forced: bool,
    pub is_external: bool,
    pub is_hearing_impaired: bool,
    pub is_avc: Option<bool>,
    pub time_base: Option<String>,
    pub video_range: Option<VideoRange>,
    pub video_range_type: Option<VideoRangeType>,
    pub audio_spatial_format: Option<String>,
    pub localized_undefined: Option<String>,
    pub localized_default: Option<String>,
    pub localized_forced: Option<String>,
    pub localized_external: Option<String>,
    pub localized_hearing_impaired: Option<String>,
    pub display_title: Option<String>,
    pub language: Option<String>,
    pub title: Option<String>,
    pub supports_external_stream: bool,
    pub is_text_subtitle_stream: bool,
    pub delivery_method: Option<SubtitleDeliveryMethod>,
}

pub ghost struct MediaStreamView {
    pub type_: Option<MediaStreamType>,
    pub index: i64,
    pub codec: Option<Seq<char>>,
    pub codec_tag: Option<Seq<char>>,
    pub profile: Option<Seq<char>>,
    pub level: Option<Seq<char>>,
    pub width: Option<i64>,
    pub height: Option<i64>,
    pub bit_rate: Option<i64>,
    pub bit_depth: Option<i64>,
    pub average_frame_rate: Option<Seq<char>>,
    pub real_frame_rate: Option<Seq<char>>,
    pub channels: Option<i64>,
    pub channel_layout: Option<Seq<char>>,
    pub sample_rate: Option<i64>,
    pub is_default: Option<bool>,
    pub is_forced: bool,
    pub is_external: bool,
    pub is_hearing_impaired: bool,
    pub is_avc: Option<bool>,
    pub time_base: Option<Seq<char>>,
    pub video_range: Option<VideoRange>,
    pub video_range_type: Option<VideoRangeType>,
    pub audio_spatial_format: Option<Seq<char>>,
    pub localized_undefined: Option<Seq<char>>,
    pub localized_default: Option<Seq<char>>,
    pub localized_forced: Option<Seq<char>>,
    pub localized_external: Option<Seq<char>>,
    pub localized_hearing_impaired: Option<Seq<char>>,
    pub display_title: Option<Seq<char>>,
    pub language: Option<Seq<char>>,
    pub title: Option<Seq<char>>,
    pub supports_external_stream: bool,
    pub is_text_subtitle_stream: bool,
    pub delivery_method: Option<SubtitleDeliveryMethod>,
}

impl View for MediaStream {
    type V = MediaStreamView;

    open spec fn view(&self) -> MediaStreamView {
        MediaStreamView {
            type_: self.type_,
            index: self.index,
            codec: text_opt(self.codec),
            codec_tag: text_opt(self.codec_tag),
            profile: text_opt(self.profile),
            level: text_opt(self.level),
            width: self.width,
            height: self.height,
            bit_rate: self.bit_rate,
            bit_depth: self.bit_depth,
            average_frame_rate: text_opt(self.average_frame_rate),
            real_frame_rate: text_opt(self.real_frame_rate),
            channels: self.channels,
            channel_layout: text_opt(self.channel_layout),
            sample_rate: self.sample_rate,
            is_default: self.is_default,
            is_forced: self.is_forced,
            is_external: self.is_external,
            is_hearing_impaired: self.is_hearing_impaired,
            is_avc: self.is_avc,
            time_base: text_opt(self.time_base),
            video_range: self.video_range,
            video_range_type: self.video_range_type,
            audio_spatial_format: text_opt(self.audio_spatial_format),
            localized_undefined: text_opt(self.localized_undefined),
            localized_default: text_opt(self.localized_default),
            localized_forced: text_opt(self.localized_forced),
            localized_external: text_opt(self.localized_external),
            localized_hearing_impaired: text_opt(self.localized_hearing_impaired),
            display_title: text_opt(self.display_title),
            language: text_opt(self.language),
            title: text_opt(self.title),
            supports_external_stream: self.supports_external_stream,
            is_text_subtitle_stream: self.is_text_subtitle_stream,
            delivery_method: self.delivery_method,
        }
    }
}

/// A stream of which nothing is known.
pub open spec fn blank_stream() -> MediaStreamView {
    MediaStreamView {
        type_: None,
        index: 0,
        codec: None,
        codec_tag: None,
        profile: None,
        level: None,
        width: None,
        height: None,
        bit_rate: None,
        bit_depth: None,
        average_frame_rate: None,
        real_frame_rate: None,
        channels: None,
        channel_layout: None,
        sample_rate: None,
        is_default: None,
        is_forced: false,
        is_external: false,
        is_hearing_impaired: false,
        is_avc: None,
        time_base: None,
        video_range: None,
        video_range_type: None,
        audio_spatial_format: None,
        localized_undefined: None,
        localized_default: None,
        localized_forced: None,
        localized_external: None,
        localized_hearing_impaired: None,
        display_title: None,
        language: None,
        title: None,
        supports_external_stream: false,
        is_text_subtitle_stream: false,
        delivery_method: None,
    }
}

impl Default for MediaStream {
    fn default() -> (r: Self)
        ensures
            r@ == blank_stream(),
    {
        MediaStream {
            type_: None,
            index: 0,
            codec: None,
            codec_tag: None,
            profile: None,
            level: None,
            width: None,
            height: None,
            bit_rate: None,
            bit_depth: None,
            average_frame_rate: None,
            real_frame_rate: None,
            channels: None,
            channel_layout: None,
            sample_rate: None,
            is_default: None,
            is_forced: false,
            is_external: false,
            is_hearing_impaired: false,
            is_avc: None,
            time_base: None,
            video_range: None,
            video_range_type: None,
            audio_spatial_format: None,
            localized_undefined: None,
            localized_default: None,
            localized_forced: None,
            localized_external: None,
            localized_hearing_impaired: None,
            display_title: None,
            language: None,
            title: None,
            supports_external_stream: false,
            is_text_subtitle_stream: false,
            delivery_method: None,
        }
    }
}

/// A marked part of the media.
#[derive(Debug, Clone, Copy, PartialEq, Eq, Structural)]
pub struct Segment {
    pub start_ticks: i64,
    pub end_ticks: i64,
}

/// The marked parts of the media.
#[derive(Debug, Clone, Copy, PartialEq, Eq, Structural)]
pub struct MediaSegments {
    pub intro: Option<Segment>,
    pub outro: Option<Segment>,
    pub recap: Option<Segment>,
    pub preview: Option<Segment>,
    pub commercial: Option<Segment>,
}

pub open spec fn no_segments() -> MediaSegments {
    MediaSegments { intro: None, outro: None, recap: None, preview: None, commercial: None }
}

impl Default for MediaSegments {
    fn default() -> (r: Self)
        ensures
            r == no_segments(),
    {
        MediaSegments { intro: None, outro: None, recap: None, preview: None, commercial: None }
    }
}

impl MediaSegments {
    pub fn is_empty(&self) -> (r: bool)
        ensures
            r == (*self == no_segments()),
    {
        self.intro.is_none() && self.outro.is_none() && self.recap.is_none()
            && self.preview.is_none() && self.commercial.is_none()
    }
}

/// A source of media.
#[derive(Debug)]
pub struct MediaSourceInfo {
    pub media_streams: Vec<MediaStream>,
    pub container: Option<String>,
    pub run_time_ticks: Option<i64>,
    pub bitrate: Option<i64>,
    pub size: Option<i64>,
    pub segments: Option<MediaSegments>,
}

impl Default for MediaSourceInfo {
    fn default() -> (r: Self)
        ensures
            r.media_streams@.len() == 0,
            r.container is None,
            r.run_time_ticks is None,
            r.bitrate is None,
            r.size is None,
            r.segments is None,
    {
        MediaSourceInfo {
            media_streams: Vec::new(),
            container: None,
            run_time_ticks: None,
            bitrate: None,
            size: None,
            segments: None,
        }
    }
}

/// The first stream of a kind.
pub open spec fn first_of(streams: Seq<MediaStream>, kind: MediaStreamType) -> Option<int>
    decreases streams.len(),
{
    if streams.len() == 0 {
        None
    } else {
        match first_of(streams.drop_last(), kind) {
            Some(i) => Some(i),
            None => if streams.last().type_ == Some(kind) {
                Some(streams.len() - 1)
            } else {
                None
            },
        }
    }
}

proof fn lemma_first_of_prefix(streams: Seq<MediaStream>, kind: MediaStreamType, n: int)
    requires
        0 <= n <= streams.len(),
        first_of(streams.take(n), kind) is Some,
    ensures
        first_of(streams, kind) == first_of(streams.take(n), kind),
    decreases streams.len() - n,
{
    if n < streams.len() {
        assert(streams.take(n + 1).drop_last() =~= streams.take(n));
        lemma_first_of_prefix(streams, kind, n + 1);
    } else {
        assert(streams.take(n) =~= streams);
    }
}

pub fn is_type(stream: &MediaStream, kind: MediaStreamType) -> (r: bool)
    ensures
        r == (stream.type_ == Some(kind)),
{
    match stream.type_ {
        Some(t) => t == kind,
        None => false,
    }
}

impl MediaSourceInfo {
    fn first_stream(&self, kind: MediaStreamType) -> (r: Option<&MediaStream>)
        ensures
            match r {
                Some(s) => first_of(self.media_streams@, kind) matches Some(i) && 0 <= i
                    < self.media_streams@.len() && *s == self.media_streams@[i],
                None => first_of(self.media_streams@, kind) is None,
            },
    {
        let streams = &self.media_streams;
        let mut i: usize = 0;
        while i < streams.len()
            invariant
                i <= streams.len(),
                *streams == self.media_streams,
                first_of(streams@.take(i as int), kind) is None,
            decreases streams.len() - i,
        {
            proof {
                assert(streams@.take(i + 1).drop_last() =~= streams@.take(i as int));
            }
            if is_type(&streams[i], kind) {
                proof {
                    lemma_first_of_prefix(streams@, kind, i + 1);
                }
                return Some(&streams[i]);
            }
            i = i + 1;
        }
        assert(streams@.take(streams@.len() as int) =~= streams@);
        None
    }

    /// The video stream.
    pub fn video_stream(&self) -> (r: Option<&MediaStream>)
        ensures
            match r {
                Some(s) => first_of(self.media_streams@, MediaStreamType::Video) matches Some(i)
                    && 0 <= i < self.media_streams@.len() && *s == self.media_streams@[i],
                None => first_of(self.media_streams@, MediaStreamType::Video) is None,
            },
    {
        self.first_stream(MediaStreamType::Video)
    }

    /// The first audio stream.
    pub fn audio_stream(&self) -> (r: Option<&MediaStream>)
        ensures
            match r {
                Some(s) => first_of(self.media_streams@, MediaStreamType::Audio) matches Some(i)
                    && 0 <= i < self.media_streams@.len() && *s == self.media_streams@[i],
                None => first_of(self.media_streams@, MediaStreamType::Audio) is None,
            },
    {
        self.first_stream(MediaStreamType::Audio)
    }
}

/// The first stream of a kind is of that kind, and none before it is; there is one
/// where any stream is of the kind.
pub proof fn law_first_stream(streams: Seq<MediaStream>, kind: MediaStreamType, k: int)
    requires
        0 <= k < streams.len(),
    ensures
        first_of(streams, kind) matches Some(i) ==> 0 <= i < streams.len() && streams[i].type_
            == Some(kind) && (k < i ==> streams[k].type_ != Some(kind)),
        streams[k].type_ == Some(kind) ==> first_of(streams, kind) is Some && first_of(
            streams,
            kind,
        )->Some_0 <= k,
    decreases streams.len(),
{
    let short = streams.drop_last();
    if k < short.len() {
        law_first_stream(short, kind, k);
        assert(short[k] == streams[k]);
        if let Some(i) = first_of(short, kind) {
            assert(short[i] == streams[i]);
        }
    } else if short.len() > 0 {
        law_first_stream(short, kind, 0);
        if let Some(i) = first_of(short, kind) {
            assert(short[i] == streams[i]);
        }
    }
}

} // verus!
