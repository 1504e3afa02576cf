//! What a probe of a source finds, which other sources are tried when it fails,
//! and for how long.

use vstd::prelude::*;

use super::media::{VideoRange, VideoRangeType};
use super::source::{
    blank_stream, is_type, no_segments, MediaSegments, MediaSourceInfo, MediaStream,
    MediaStreamType, MediaStreamView, Segment, SubtitleDeliveryMethod,
};
use super::titles::{
    display_title_audio, display_title_subtitle, display_title_video, joined_with, MetaView, StreamMeta,
};
use crate::languages::{normalize_lang, normalized};
use crate::text::{
    chars_of, contains, ends, ends_with, has, lower, parse_signed, same_text, signed_value,
    slice, str_opt, text_opt, to_lower,
};

verus! {

/// A number that is greater than zero.
pub open spec fn positive(n: Option<i64>) -> Option<i64> {
    match n {
        Some(n) if n > 0 => Some(n),
        _ => None,
    }
}

pub fn nonzero(n: i64) -> (r: Option<i64>)
    ensures
        r == positive(Some(n)),
{
    if n > 0 {
        Some(n)
    } else {
        None
    }
}

fn only_positive(n: Option<i64>) -> (r: Option<i64>)
    ensures
        r == positive(n),
{
    match n {
        Some(n) => nonzero(n),
        None => None,
    }
}

/// The positive number that a text stands for.
pub open spec fn positive_text(s: Option<Seq<char>>) -> Option<i64> {
    match s {
        Some(t) => match signed_value(t) {
            Some(n) => positive(Some(n as i64)),
            None => None,
        },
        None => None,
    }
}

fn parse_positive(s: &Option<String>) -> (r: Option<i64>)
    ensures
        r == positive_text(text_opt(*s)),
{
    match s {
        Some(t) => match parse_signed(t.as_str()) {
            Some(n) => nonzero(n),
            None => None,
        },
        None => None,
    }
}

/// A pixel format without its byte order.
pub open spec fn pixel_layout(pix_fmt: Seq<char>) -> Seq<char> {
    if ends(pix_fmt, "le"@) || ends(pix_fmt, "be"@) {
        pix_fmt.take(pix_fmt.len() - 2)
    } else {
        pix_fmt
    }
}

/// The bits of a colour in a pixel format: the number of 16, 14, 12, 10 and 9
/// that its layout ends with, and else 8. Digits further in name the sampling of
/// the planes.
pub open spec fn pixel_depth(pix_fmt: Seq<char>) -> Option<i64> {
    let layout = pixel_layout(pix_fmt);
    if pix_fmt.len() == 0 {
        None
    } else if ends(layout, "16"@) {
        Some(16)
    } else if ends(layout, "14"@) {
        Some(14)
    } else if ends(layout, "12"@) {
        Some(12)
    } else if ends(layout, "10"@) {
        Some(10)
    } else if ends(layout, "9"@) {
        Some(9)
    } else {
        Some(8)
    }
}

pub fn bit_depth_from_pix_fmt(pix_fmt: &str) -> (r: Option<i64>)
    ensures
        r == pixel_depth(pix_fmt@),
{
    let chars = chars_of(pix_fmt);
    let layout = if ends_with(pix_fmt, "le") || ends_with(pix_fmt, "be") {
        proof {
            reveal_strlit("le");
            reveal_strlit("be");
        }
        slice(&chars, 0, chars.len() - 2)
    } else {
        slice(&chars, 0, chars.len())
    };
    assert(layout@ =~= pixel_layout(pix_fmt@));
    let layout = layout.as_str();
    if chars.len() == 0 {
        None
    } else if ends_with(layout, "16") {
        Some(16)
    } else if ends_with(layout, "14") {
        Some(14)
    } else if ends_with(layout, "12") {
        Some(12)
    } else if ends_with(layout, "10") {
        Some(10)
    } else if ends_with(layout, "9") {
        Some(9)
    } else {
        Some(8)
    }
}

// ---------------------------------------------------------------------------
// Chapters
// ---------------------------------------------------------------------------

#[derive(Debug, Clone, Copy, PartialEq, Eq, Structural)]
pub enum MediaSegmentType {
    Intro,
    Recap,
    Outro,
    Preview,
    Commercial,
}

/// A chapter, with its bounds where they are numbers.
#[derive(Debug)]
pub struct Chapter {
    pub title: Option<String>,
    pub start_ticks: Option<i64>,
    pub end_ticks: Option<i64>,
}

/// The kind of part that a chapter's title announces.
pub open spec fn announced(title: Seq<char>) -> Option<MediaSegmentType> {
    let t = lower(title);
    if has(t, "intro"@) {
        Some(MediaSegmentType::Intro)
    } else if has(t, "recap"@) {
        Some(MediaSegmentType::Recap)
    } else if has(t, "credits"@) || has(t, "outro"@) {
        Some(MediaSegmentType::Outro)
    } else if has(t, "preview"@) {
        Some(MediaSegmentType::Preview)
    } else if has(t, "commercial"@) || has(t, " ad "@) || t == "ad"@ {
        Some(MediaSegmentType::Commercial)
    } else {
        None
    }
}

pub fn chapter_title_to_type(title: &str) -> (r: Option<MediaSegmentType>)
    ensures
        r == announced(title@),
{
    let low = to_lower(title);
    let t = low.as_str();
    if contains(t, "intro") {
        Some(MediaSegmentType::Intro)
    } else if contains(t, "recap") {
        Some(MediaSegmentType::Recap)
    } else if contains(t, "credits") || contains(t, "outro") {
        Some(MediaSegmentType::Outro)
    } else if contains(t, "preview") {
        Some(MediaSegmentType::Preview)
    } else if contains(t, "commercial") || contains(t, " ad ") || same_text(t, "ad") {
        Some(MediaSegmentType::Commercial)
    } else {
        None
    }
}

/// The part that a chapter marks.
pub open spec fn marked(c: Chapter) -> Option<(MediaSegmentType, Segment)> {
    let title = match c.title {
        Some(t) => t@,
        None => Seq::empty(),
    };
    match (announced(title), c.start_ticks, c.end_ticks) {
        (Some(kind), Some(start_ticks), Some(end_ticks)) => Some(
            (kind, Segment { start_ticks, end_ticks }),
        ),
        _ => None,
    }
}

/// The first of two parts that is there.
pub open spec fn earlier(known: Option<Segment>, new: Segment) -> Option<Segment> {
    match known {
        Some(s) => Some(s),
        None => Some(new),
    }
}

/// The parts that some chapters mark: the first one of each kind.
pub open spec fn marked_segments(chapters: Seq<Chapter>) -> MediaSegments
    decreases chapters.len(),
{
    if chapters.len() == 0 {
        no_segments()
    } else {
        let before = marked_segments(chapters.drop_last());
        match marked(chapters.last()) {
            Some((MediaSegmentType::Intro, s)) => MediaSegments {
                intro: earlier(before.intro, s),
                ..before
            },
            Some((MediaSegmentType::Outro, s)) => MediaSegments {
                outro: earlier(before.outro, s),
                ..before
            },
            Some((MediaSegmentType::Recap, s)) => MediaSegments {
                recap: earlier(before.recap, s),
                ..before
            },
            Some((MediaSegmentType::Preview, s)) => MediaSegments {
                preview: earlier(before.preview, s),
                ..before
            },
            Some((MediaSegmentType::Commercial, s)) => MediaSegments {
                commercial: earlier(before.commercial, s),
                ..before
            },
            None => before,
        }
    }
}

fn keep_earlier(known: Option<Segment>, new: Segment) -> (r: Option<Segment>)
    ensures
        r == earlier(known, new),
{
    match known {
        Some(s) => Some(s),
        None => Some(new),
    }
}

pub fn chapters_to_segments(chapters: &Vec<Chapter>) -> (r: MediaSegments)
    ensures
        r == marked_segments(chapters@),
{
    let mut r = MediaSegments::default();
    let mut i: usize = 0;
    while i < chapters.len()
        invariant
            i <= chapters.len(),
            r == marked_segments(chapters@.take(i as int)),
        decreases chapters.len() - i,
    {
        proof {
            assert(chapters@.take(i + 1).drop_last() =~= chapters@.take(i as int));
        }
        let c = &chapters[i];
        let kind = match &c.title {
            Some(t) => chapter_title_to_type(t.as_str()),
            None => {
                let empty = String::new();
                chapter_title_to_type(empty.as_str())
            },
        };
        if let (Some(kind), Some(start_ticks), Some(end_ticks)) = (kind, c.start_ticks, c.end_ticks) {
            let s = Segment { start_ticks, end_ticks };
            match kind {
                MediaSegmentType::Intro => {
                    r.intro = keep_earlier(r.intro, s);
                },
                MediaSegmentType::Outro => {
                    r.outro = keep_earlier(r.outro, s);
                },
                MediaSegmentType::Recap => {
                    r.recap = keep_earlier(r.recap, s);
                },
                MediaSegmentType::Preview => {
                    r.preview = keep_earlier(r.preview, s);
                },
                MediaSegmentType::Commercial => {
                    r.commercial = keep_earlier(r.commercial, s);
                },
            }
        }
        i = i + 1;
    }
    assert(chapters@.take(chapters@.len() as int) =~= chapters@);
    r
}

// ---------------------------------------------------------------------------
// The bitrate of the video
// ---------------------------------------------------------------------------

/// Whether a stream is a video without a bitrate.
pub open spec fn unrated_video(s: MediaStreamView) -> bool {
    s.type_ == Some(MediaStreamType::Video) && s.bit_rate is None
}

/// Whether a stream takes its share of the container's bitrate from the video.
pub open spec fn beside_video(s: MediaStreamView) -> bool {
    s.type_ != Some(MediaStreamType::Video) && !s.is_external
}

/// The videos without a bitrate, in order.
pub open spec fn unrated_videos(streams: Seq<MediaStreamView>) -> Seq<int>
    decreases streams.len(),
{
    if streams.len() == 0 {
        Seq::empty()
    } else {
        let before = unrated_videos(streams.drop_last());
        if unrated_video(streams.last()) {
            before.push(streams.len() - 1)
        } else {
            before
        }
    }
}

/// Whether every audio stream of the container has a bitrate.
pub open spec fn audio_rated(streams: Seq<MediaStreamView>) -> bool {
    forall|i: int|
        0 <= i < streams.len() && beside_video(#[trigger] streams[i]) && streams[i].type_ == Some(
            MediaStreamType::Audio,
        ) ==> streams[i].bit_rate is Some
}

/// The bitrates of all streams beside the video.
pub open spec fn other_bitrates(streams: Seq<MediaStreamView>) -> int
    decreases streams.len(),
{
    if streams.len() == 0 {
        0
    } else {
        other_bitrates(streams.drop_last()) + match streams.last().bit_rate {
            Some(b) if beside_video(streams.last()) => b as int,
            _ => 0,
        }
    }
}

/// The bitrate that is left for the only video without one, and its place.
pub open spec fn estimated_bitrate(streams: Seq<MediaStreamView>, total: Option<i64>) -> Option<
    (int, i64),
> {
    match total {
        Some(t) => {
            let left = t - other_bitrates(streams);
            if unrated_videos(streams).len() == 1 && audio_rated(streams) && 0 < left <= i64::MAX {
                Some((unrated_videos(streams)[0], left as i64))
            } else {
                None
            }
        },
        None => None,
    }
}

proof fn lemma_unrated_videos(streams: Seq<MediaStreamView>)
    ensures
        forall|k: int|
            0 <= k < unrated_videos(streams).len() ==> 0 <= #[trigger] unrated_videos(streams)[k]
                < streams.len(),
    decreases streams.len(),
{
    if streams.len() > 0 {
        lemma_unrated_videos(streams.drop_last());
        let before = unrated_videos(streams.drop_last());
        assert forall|k: int| 0 <= k < unrated_videos(streams).len() implies 0
            <= #[trigger] unrated_videos(streams)[k] < streams.len() by {
            if k < before.len() {
                assert(unrated_videos(streams)[k] == before[k]);
            }
        }
    }
}

/// The streams with the bitrate of the video filled in.
pub open spec fn with_bitrate(streams: Seq<MediaStreamView>, total: Option<i64>) -> Seq<
    MediaStreamView,
> {
    match estimated_bitrate(streams, total) {
        Some((i, b)) => streams.update(i, MediaStreamView { bit_rate: Some(b), ..streams[i] }),
        None => streams,
    }
}

pub open spec fn stream_views(streams: Seq<MediaStream>) -> Seq<MediaStreamView> {
    streams.map_values(|s: MediaStream| s@)
}

/// Gives the only video without a bitrate what the container's bitrate leaves
/// for it, where the bitrates of all audio streams are known.
pub fn apply_video_bitrate_fallback(streams: &mut Vec<MediaStream>, total_bitrate: Option<i64>)
    ensures
        stream_views(final(streams)@) == with_bitrate(stream_views(old(streams)@), total_bitrate),
{
    let total: i64 = match total_bitrate {
        Some(t) => t,
        None => {
            return;
        },
    };
    let ghost all = stream_views(streams@);
    let ghost start = streams@;
    let mut first: usize = 0;
    let mut videos: usize = 0;
    let mut rated = true;
    let mut others: i128 = 0;
    let mut i: usize = 0;
    while i < streams.len()
        invariant
            i <= streams.len(),
            streams@ == start,
            all == stream_views(start),
            videos == unrated_videos(all.take(i as int)).len(),
            videos <= i,
            videos > 0 ==> first < i && unrated_videos(all.take(i as int))[0] == first,
            rated == audio_rated(all.take(i as int)),
            others == other_bitrates(all.take(i as int)),
            -0x8000_0000_0000_0000 * i <= others <= 0x8000_0000_0000_0000 * i,
        decreases streams.len() - i,
    {
        let ghost upto = all.take(i + 1);
        proof {
            assert(upto.drop_last() =~= all.take(i as int));
            assert(upto.last() == all[i as int]);
        }
        let is_video = is_type(&streams[i], MediaStreamType::Video);
        let beside = !is_video && !streams[i].is_external;
        if is_video && streams[i].bit_rate.is_none() {
            if videos == 0 {
                first = i;
            }
            videos = videos + 1;
        }
        let bad = beside && is_type(&streams[i], MediaStreamType::Audio)
            && streams[i].bit_rate.is_none();
        proof {
            if bad {
                assert(upto[i as int] == all[i as int]);
            }
            if rated && !bad {
                assert forall|k: int|
                    0 <= k < upto.len() && beside_video(#[trigger] upto[k]) && upto[k].type_
                        == Some(MediaStreamType::Audio) implies upto[k].bit_rate is Some by {
                    if k < i {
                        assert(all.take(i as int)[k] == upto[k]);
                    }
                }
            }
            if !rated {
                let k = choose|k: int|
                    0 <= k < i && beside_video(#[trigger] all.take(i as int)[k]) && all.take(
                        i as int,
                    )[k].type_ == Some(MediaStreamType::Audio) && all.take(
                        i as int,
                    )[k].bit_rate is None;
                assert(upto[k] == all.take(i as int)[k]);
            }
        }
        if bad {
            rated = false;
        }
        if beside {
            if let Some(b) = streams[i].bit_rate {
                others = others + b as i128;
            }
        }
        i = i + 1;
    }
    assert(all.take(all.len() as int) =~= all);
    let left: i128 = total as i128 - others;
    if videos == 1 && rated && left > 0 && left <= i64::MAX as i128 {
        proof {
            lemma_unrated_videos(all);
        }
        streams[first].bit_rate = Some(left as i64);
        assert(stream_views(streams@) =~= with_bitrate(all, total_bitrate));
    }
}

// ---------------------------------------------------------------------------
// What a probe finds
// ---------------------------------------------------------------------------

/// A stream as the probe reports it. The codec is under its common name, with
/// what the tables of codecs say of it; the frame rate is a text, where it is
/// positive.
#[derive(Debug)]
pub struct FfprobeStream {
    pub index: i64,
    pub codec_type: Option<String>,
    pub codec: String,
    /// The name under which viewers know an audio codec.
    pub friendly_codec: String,
    /// The subtitle is a picture.
    pub is_image: bool,
    /// The subtitle is a text.
    pub is_text: bool,
    pub codec_tag_string: Option<String>,
    pub profile: Option<String>,
    pub level: Option<String>,
    pub width: Option<i64>,
    pub height: Option<i64>,
    pub bit_rate: Option<String>,
    pub frame_rate: Option<String>,
    pub color_transfer: Option<String>,
    pub channels: Option<i64>,
    pub channel_layout: Option<String>,
    pub sample_rate: Option<String>,
    pub pix_fmt: Option<String>,
    pub bits_per_raw_sample: Option<String>,
    pub language: Option<String>,
    pub title: Option<String>,
    pub default: i64,
    pub forced: i64,
    pub hearing_impaired: i64,
    pub attached_pic: i64,
}

/// What the probe reports of a source. The container is under its common name,
/// and the length is in microseconds.
#[derive(Debug)]
pub struct FfprobeOutput {
    pub streams: Vec<FfprobeStream>,
    pub chapters: Vec<Chapter>,
    pub duration_us: Option<i64>,
    pub container: Option<String>,
    pub bit_rate: Option<String>,
    pub size: Option<String>,
}

/// The dynamic range that a transfer function stands for.
pub open spec fn range_of(transfer: Option<Seq<char>>) -> (VideoRange, VideoRangeType) {
    if transfer == Some("smpte2084"@) {
        (VideoRange::Hdr, VideoRangeType::Hdr10)
    } else if transfer == Some("arib-std-b67"@) {
        (VideoRange::Hdr, VideoRangeType::Hlg)
    } else {
        (VideoRange::Sdr, VideoRangeType::Sdr)
    }
}

fn video_range(transfer: &Option<String>) -> (r: (VideoRange, VideoRangeType))
    ensures
        r == range_of(text_opt(*transfer)),
{
    match transfer {
        Some(t) => {
            if same_text(t.as_str(), "smpte2084") {
                (VideoRange::Hdr, VideoRangeType::Hdr10)
            } else if same_text(t.as_str(), "arib-std-b67") {
                (VideoRange::Hdr, VideoRangeType::Hlg)
            } else {
                (VideoRange::Sdr, VideoRangeType::Sdr)
            }
        },
        None => (VideoRange::Sdr, VideoRangeType::Sdr),
    }
}

fn copied(s: &Option<String>) -> (r: Option<String>)
    ensures
        text_opt(r) == text_opt(*s),
{
    match s {
        Some(t) => Some(t.clone()),
        None => None,
    }
}

fn owned(s: Option<&str>) -> (r: Option<String>)
    ensures
        text_opt(r) == str_opt(s),
{
    match s {
        Some(t) => Some(t.to_owned()),
        None => None,
    }
}

impl FfprobeStream {
    pub open spec fn lang(&self) -> Option<Seq<char>> {
        match self.language {
            Some(l) => Some(normalized(l@)),
            None => None,
        }
    }

    fn normal_language(&self) -> (r: Option<&str>)
        ensures
            str_opt(r) == self.lang(),
    {
        match &self.language {
            Some(l) => Some(normalize_lang(l.as_str())),
            None => None,
        }
    }

    /// The depth that is stated, or else that of the pixel format.
    pub open spec fn depth(&self) -> Option<i64> {
        match positive_text(text_opt(self.bits_per_raw_sample)) {
            Some(d) => Some(d),
            None => match self.pix_fmt {
                Some(p) => pixel_depth(p@),
                None => None,
            },
        }
    }

    /// What the names of streams are made of.
    pub open spec fn meta(&self) -> MetaView {
        MetaView {
            language: self.lang(),
            codec: Some(self.codec@),
            friendly_codec: self.friendly_codec@,
            profile: None,
            channels: None,
            channel_layout: None,
            width: None,
            height: None,
            video_range: None,
            is_default: false,
            is_forced: self.forced != 0,
            is_external: false,
            is_hearing_impaired: false,
            title: None,
        }
    }

    pub open spec fn video_title(&self, first: bool) -> Option<Seq<char>> {
        let m = MetaView {
            profile: text_opt(self.profile),
            width: positive(self.width),
            height: positive(self.height),
            video_range: Some(range_of(text_opt(self.color_transfer)).0),
            is_default: first,
            title: text_opt(self.title),
            ..self.meta()
        };
        m.titled(m.video_parts(), " "@)
    }

    pub open spec fn audio_title(&self) -> Option<Seq<char>> {
        let m = MetaView {
            profile: text_opt(self.profile),
            channels: positive(self.channels),
            channel_layout: text_opt(self.channel_layout),
            is_default: self.default != 0,
            title: text_opt(self.title),
            ..self.meta()
        };
        m.titled(m.audio_parts(), " - "@)
    }

    pub open spec fn subtitle_title(&self) -> Option<Seq<char>> {
        let m = MetaView {
            is_default: self.default != 0,
            is_hearing_impaired: self.hearing_impaired != 0,
            ..self.meta()
        };
        Some(joined_with(m.subtitle_parts(), " - "@))
    }

    /// The stream as a video.
    pub open spec fn as_video(&self, first: bool) -> MediaStreamView {
        let (range, range_type) = range_of(text_opt(self.color_transfer));
        MediaStreamView {
            type_: Some(MediaStreamType::Video),
            index: self.index,
            codec: Some(self.codec@),
            codec_tag: text_opt(self.codec_tag_string),
            profile: text_opt(self.profile),
            level: text_opt(self.level),
            width: positive(self.width),
            height: positive(self.height),
            bit_rate: positive_text(text_opt(self.bit_rate)),
            bit_depth: self.depth(),
            average_frame_rate: text_opt(self.frame_rate),
            real_frame_rate: text_opt(self.frame_rate),
            is_default: Some(first),
            is_forced: self.forced != 0,
            is_avc: Some(false),
            time_base: Some("1/1000"@),
            audio_spatial_format: Some("None"@),
            video_range: Some(range),
            video_range_type: Some(range_type),
            display_title: self.video_title(first),
            language: self.lang(),
            title: text_opt(self.title),
            ..blank_stream()
        }
    }

    /// The stream as audio.
    pub open spec fn as_audio(&self) -> MediaStreamView {
        MediaStreamView {
            type_: Some(MediaStreamType::Audio),
            index: self.index,
            codec: Some(self.codec@),
            channels: positive(self.channels),
            channel_layout: text_opt(self.channel_layout),
            sample_rate: positive_text(text_opt(self.sample_rate)),
            bit_rate: positive_text(text_opt(self.bit_rate)),
            is_default: Some(self.default != 0),
            is_forced: self.forced != 0,
            is_avc: Some(false),
            time_base: Some("1/1000"@),
            video_range: Some(VideoRange::Unknown),
            video_range_type: Some(VideoRangeType::Unknown),
            audio_spatial_format: Some("None"@),
            localized_default: Some("Default"@),
            localized_external: Some("External"@),
            display_title: self.audio_title(),
            language: self.lang(),
            title: text_opt(self.title),
            ..blank_stream()
        }
    }

    /// The stream as a subtitle.
    pub open spec fn as_subtitle(&self) -> MediaStreamView {
        MediaStreamView {
            type_: Some(MediaStreamType::Subtitle),
            index: self.index,
            codec: Some(self.codec@),
            is_default: Some(self.default != 0),
            is_forced: self.forced != 0,
            is_hearing_impaired: self.hearing_impaired != 0,
            is_avc: Some(false),
            time_base: Some("1/1000"@),
            video_range: Some(VideoRange::Unknown),
            video_range_type: Some(VideoRangeType::Unknown),
            audio_spatial_format: Some("None"@),
            localized_undefined: Some("Undefined"@),
            localized_default: Some("Default"@),
            localized_forced: Some("Forced"@),
            localized_external: Some("External"@),
            localized_hearing_impaired: Some("Hearing Impaired"@),
            display_title: self.subtitle_title(),
            language: self.lang(),
            title: text_opt(self.title),
            supports_external_stream: true,
            is_text_subtitle_stream: self.is_text,
            delivery_method: if self.is_image {
                Some(SubtitleDeliveryMethod::Embed)
            } else {
                None
            },
            ..blank_stream()
        }
    }

    fn bit_depth(&self) -> (r: Option<i64>)
        ensures
            r == self.depth(),
    {
        match parse_positive(&self.bits_per_raw_sample) {
            Some(d) => Some(d),
            None => match &self.pix_fmt {
                Some(p) => bit_depth_from_pix_fmt(p.as_str()),
                None => None,
            },
        }
    }

    fn to_video(&self, first: bool) -> (r: MediaStream)
        ensures
            r@ == self.as_video(first),
    {
        let (range, range_type) = video_range(&self.color_transfer);
        let width = only_positive(self.width);
        let height = only_positive(self.height);
        let language = self.normal_language();
        let display_title = display_title_video(
            &StreamMeta {
                language,
                codec: Some(self.codec.as_str()),
                friendly_codec: self.friendly_codec.as_str(),
                profile: super::media::borrowed(&self.profile),
                channels: None,
                channel_layout: None,
                width,
                height,
                video_range: Some(range),
                is_default: first,
                is_forced: self.forced != 0,
                is_external: false,
                is_hearing_impaired: false,
                title: super::media::borrowed(&self.title),
            },
        );
        let mut r = MediaStream::default();
        r.type_ = Some(MediaStreamType::Video);
        r.index = self.index;
        r.codec = Some(self.codec.clone());
        r.codec_tag = copied(&self.codec_tag_string);
        r.profile = copied(&self.profile);
        r.level = copied(&self.level);
        r.width = width;
        r.height = height;
        r.bit_rate = parse_positive(&self.bit_rate);
        r.bit_depth = self.bit_depth();
        r.average_frame_rate = copied(&self.frame_rate);
        r.real_frame_rate = copied(&self.frame_rate);
        r.is_default = Some(first);
        r.is_forced = self.forced != 0;
        r.is_avc = Some(false);
        r.time_base = Some("1/1000".to_owned());
        r.audio_spatial_format = Some("None".to_owned());
        r.video_range = Some(range);
        r.video_range_type = Some(range_type);
        r.display_title = display_title;
        r.language = owned(language);
        r.title = copied(&self.title);
        r
    }

    fn to_audio(&self) -> (r: MediaStream)
        ensures
            r@ == self.as_audio(),
    {
        let channels = only_positive(self.channels);
        let language = self.normal_language();
        let display_title = display_title_audio(
            &StreamMeta {
                language,
                codec: Some(self.codec.as_str()),
                friendly_codec: self.friendly_codec.as_str(),
                profile: super::media::borrowed(&self.profile),
                channels,
                channel_layout: super::media::borrowed(&self.channel_layout),
                width: None,
                height: None,
                video_range: None,
                is_default: self.default != 0,
                is_forced: self.forced != 0,
                is_external: false,
                is_hearing_impaired: false,
                title: super::media::borrowed(&self.title),
            },
        );
        let mut r = MediaStream::default();
        r.type_ = Some(MediaStreamType::Audio);
        r.index = self.index;
        r.codec = Some(self.codec.clone());
        r.channels = channels;
        r.channel_layout = copied(&self.channel_layout);
        r.sample_rate = parse_positive(&self.sample_rate);
        r.bit_rate = parse_positive(&self.bit_rate);
        r.is_default = Some(self.default != 0);
        r.is_forced = self.forced != 0;
        r.is_avc = Some(false);
        r.time_base = Some("1/1000".to_owned());
        r.video_range = Some(VideoRange::Unknown);
        r.video_range_type = Some(VideoRangeType::Unknown);
        r.audio_spatial_format = Some("None".to_owned());
        r.localized_default = Some("Default".to_owned());
        r.localized_external = Some("External".to_owned());
        r.display_title = display_title;
        r.language = owned(language);
        r.title = copied(&self.title);
        r
    }

    fn to_subtitle(&self) -> (r: MediaStream)
        ensures
            r@ == self.as_subtitle(),
    {
        let language = self.normal_language();
        let display_title = display_title_subtitle(
            &StreamMeta {
                language,
                codec: Some(self.codec.as_str()),
                friendly_codec: self.friendly_codec.as_str(),
                profile: None,
                channels: None,
                channel_layout: None,
                width: None,
                height: None,
                video_range: None,
                is_default: self.default != 0,
                is_forced: self.forced != 0,
                is_external: false,
                is_hearing_impaired: self.hearing_impaired != 0,
                title: None,
            },
        );
        let mut r = MediaStream::default();
        r.type_ = Some(MediaStreamType::Subtitle);
        r.index = self.index;
        r.codec = Some(self.codec.clone());
        r.is_default = Some(self.default != 0);
        r.is_forced = self.forced != 0;
        r.is_hearing_impaired = self.hearing_impaired != 0;
        r.is_avc = Some(false);
        r.time_base = Some("1/1000".to_owned());
        r.video_range = Some(VideoRange::Unknown);
        r.video_range_type = Some(VideoRangeType::Unknown);
        r.audio_spatial_format = Some("None".to_owned());
        r.localized_undefined = Some("Undefined".to_owned());
        r.localized_default = Some("Default".to_owned());
        r.localized_forced = Some("Forced".to_owned());
        r.localized_external = Some("External".to_owned());
        r.localized_hearing_impaired = Some("Hearing Impaired".to_owned());
        r.display_title = display_title;
        r.language = owned(language);
        r.title = copied(&self.title);
        r.supports_external_stream = true;
        r.is_text_subtitle_stream = self.is_text;
        r.delivery_method = if self.is_image {
            Some(SubtitleDeliveryMethod::Embed)
        } else {
            None
        };
        r
    }

    /// Whether the stream is a video; an attached picture is none.
    pub open spec fn is_video(&self) -> bool {
        text_opt(self.codec_type) == Some("video"@) && self.attached_pic == 0
    }

    /// The stream of a source that this is, where `videos` came before it.
    pub open spec fn converted(&self, videos: nat) -> Option<MediaStreamView> {
        if self.is_video() {
            Some(self.as_video(videos == 0))
        } else if text_opt(self.codec_type) == Some("audio"@) {
            Some(self.as_audio())
        } else if text_opt(self.codec_type) == Some("subtitle"@) {
            Some(self.as_subtitle())
        } else {
            None
        }
    }
}

/// The number of videos.
pub open spec fn video_count(streams: Seq<FfprobeStream>) -> nat
    decreases streams.len(),
{
    if streams.len() == 0 {
        0
    } else {
        video_count(streams.drop_last()) + if streams.last().is_video() {
            1nat
        } else {
            0
        }
    }
}

/// The streams of a source.
pub open spec fn converted_streams(streams: Seq<FfprobeStream>) -> Seq<MediaStreamView>
    decreases streams.len(),
{
    if streams.len() == 0 {
        Seq::empty()
    } else {
        let before = converted_streams(streams.drop_last());
        match streams.last().converted(video_count(streams.drop_last())) {
            Some(s) => before.push(s),
            None => before,
        }
    }
}

fn convert_streams(streams: &Vec<FfprobeStream>) -> (r: Vec<MediaStream>)
    ensures
        stream_views(r@) == converted_streams(streams@),
{
    let mut r: Vec<MediaStream> = Vec::new();
    let mut videos: usize = 0;
    let mut i: usize = 0;
    assert(stream_views(r@) =~= Seq::empty());
    while i < streams.len()
        invariant
            i <= streams.len(),
            videos <= i,
            videos == video_count(streams@.take(i as int)),
            stream_views(r@) == converted_streams(streams@.take(i as int)),
        decreases streams.len() - i,
    {
        let ghost before = stream_views(r@);
        proof {
            assert(streams@.take(i + 1).drop_last() =~= streams@.take(i as int));
        }
        let s = &streams[i];
        let kind = match &s.codec_type {
            Some(t) => t.as_str(),
            None => "",
        };
        if s.codec_type.is_some() {
            if same_text(kind, "video") {
                proof {
                    lemma_codec_types();
                }
                if s.attached_pic == 0 {
                    let v = s.to_video(videos == 0);
                    r.push(v);
                    assert(stream_views(r@) =~= before.push(v@));
                    videos = videos + 1;
                }
            } else if same_text(kind, "audio") {
                let a = s.to_audio();
                r.push(a);
                assert(stream_views(r@) =~= before.push(a@));
            } else if same_text(kind, "subtitle") {
                let t = s.to_subtitle();
                r.push(t);
                assert(stream_views(r@) =~= before.push(t@));
            }
        }
        i = i + 1;
    }
    assert(streams@.take(streams@.len() as int) =~= streams@);
    r
}

proof fn lemma_codec_types()
    ensures
        "video"@ != "audio"@,
        "video"@ != "subtitle"@,
{
    reveal_strlit("video");
    reveal_strlit("audio");
    reveal_strlit("subtitle");
    assert("video"@[0] != "audio"@[0]);
    assert("video"@[0] != "subtitle"@[0]);
}

/// Makes a source, and its marked parts, out of what a probe reports.
pub fn read_probe(probe: &FfprobeOutput) -> (r: (MediaSourceInfo, MediaSegments))
    requires
        probe.duration_us matches Some(us) ==> us * 10 <= i64::MAX,
    ensures
        stream_views(r.0.media_streams@) == with_bitrate(
            converted_streams(probe.streams@),
            positive_text(text_opt(probe.bit_rate)),
        ),
        text_opt(r.0.container) == text_opt(probe.container),
        r.0.run_time_ticks == match positive(probe.duration_us) {
            Some(us) => Some((us * 10) as i64),
            None => None,
        },
        r.0.bitrate == positive_text(text_opt(probe.bit_rate)),
        r.0.size == positive_text(text_opt(probe.size)),
        r.0.segments is None,
        r.1 == marked_segments(probe.chapters@),
{
    let mut streams = convert_streams(&probe.streams);
    let bitrate = parse_positive(&probe.bit_rate);
    apply_video_bitrate_fallback(&mut streams, bitrate);
    let run_time_ticks = match only_positive(probe.duration_us) {
        Some(us) => Some(us * 10),
        None => None,
    };
    let segments = chapters_to_segments(&probe.chapters);
    (
        MediaSourceInfo {
            media_streams: streams,
            container: copied(&probe.container),
            run_time_ticks,
            bitrate,
            size: parse_positive(&probe.size),
            segments: None,
        },
        segments,
    )
}

// ---------------------------------------------------------------------------
// Laws
// ---------------------------------------------------------------------------

/// The streams that are read: videos, but for attached pictures, sound and subtitles.
pub open spec fn read_streams() -> spec_fn(FfprobeStream) -> bool {
    |s: FfprobeStream|
        match s.codec_type {
            Some(t) => t@ == "video"@ && s.attached_pic == 0 || t@ == "audio"@ || t@ == "subtitle"@,
            None => false,
        }
}

proof fn lemma_place_of_stream(streams: Seq<FfprobeStream>, i: int)
    requires
        0 <= i < streams.len(),
        read_streams()(streams[i]),
    ensures
        converted_streams(streams).len() == streams.filter(read_streams()).len(),
        streams.take(i).filter(read_streams()).len() < converted_streams(streams).len(),
        Some(
            converted_streams(streams)[streams.take(i).filter(read_streams()).len() as int],
        ) == streams[i].converted(video_count(streams.take(i))),
    decreases streams.len(),
{
    lemma_kept_streams(streams);
    let short = streams.drop_last();
    lemma_kept_streams(short);
    reveal(Seq::filter);
    lemma_kinds();
    if i < streams.len() - 1 {
        assert(short[i] == streams[i]);
        lemma_place_of_stream(short, i);
        assert(short.take(i) =~= streams.take(i));
    } else {
        assert(streams.take(i) =~= short);
    }
}

proof fn lemma_kept_streams(streams: Seq<FfprobeStream>)
    ensures
        converted_streams(streams).len() == streams.filter(read_streams()).len(),
    decreases streams.len(),
{
    reveal(Seq::filter);
    lemma_kinds();
    if streams.len() > 0 {
        lemma_kept_streams(streams.drop_last());
    }
}

proof fn lemma_kinds()
    ensures
        "video"@ != "audio"@,
        "video"@ != "subtitle"@,
        "audio"@ != "subtitle"@,
        "smpte2084"@ != "arib-std-b67"@,
{
    lemma_codec_types();
    reveal_strlit("audio");
    reveal_strlit("subtitle");
    reveal_strlit("smpte2084");
    reveal_strlit("arib-std-b67");
    assert("audio"@.len() != "subtitle"@.len());
    assert("smpte2084"@.len() != "arib-std-b67"@.len());
}

/// Every video, sound and subtitle stream of a file is read, in order and under its
/// own number, and nothing else is.
pub proof fn law_streams_keep_their_order(streams: Seq<FfprobeStream>, i: int)
    requires
        0 <= i < streams.len(),
    ensures
        converted_streams(streams).len() == streams.filter(read_streams()).len(),
        read_streams()(streams[i]) ==> {
            let k = streams.take(i).filter(read_streams()).len() as int;
            let v = converted_streams(streams)[k];
            &&& k < converted_streams(streams).len()
            &&& v.index == streams[i].index
            &&& v.codec == Some(streams[i].codec@)
            &&& text_opt(streams[i].codec_type) == Some("video"@) <==> v.type_ == Some(
                MediaStreamType::Video,
            )
            &&& text_opt(streams[i].codec_type) == Some("audio"@) <==> v.type_ == Some(
                MediaStreamType::Audio,
            )
            &&& text_opt(streams[i].codec_type) == Some("subtitle"@) <==> v.type_ == Some(
                MediaStreamType::Subtitle,
            )
            &&& v.title == text_opt(streams[i].title)
            &&& streams[i].language is None ==> v.language is None
            &&& streams[i].language matches Some(l) ==> v.language == Some(normalized(l@))
            &&& v.is_forced == (streams[i].forced != 0)
            &&& !v.is_external
        },
{
    lemma_kept_streams(streams);
    lemma_kinds();
    if read_streams()(streams[i]) {
        lemma_place_of_stream(streams, i);
    }
}

/// A video is HDR10 where its transfer function is `smpte2084`, HLG where it is
/// `arib-std-b67`, and else of standard range; its size and its bitrate are those that
/// are stated and positive, and the first video of a file is its default.
pub proof fn law_videos_are_read(streams: Seq<FfprobeStream>, i: int)
    requires
        0 <= i < streams.len(),
        text_opt(streams[i].codec_type) == Some("video"@),
        streams[i].attached_pic == 0,
    ensures
        ({
            let s = streams[i];
            let k = streams.take(i).filter(read_streams()).len() as int;
            let v = converted_streams(streams)[k];
            &&& 0 <= k < converted_streams(streams).len()
            &&& v.video_range_type == Some(VideoRangeType::Hdr10) <==> text_opt(s.color_transfer)
                == Some("smpte2084"@)
            &&& v.video_range_type == Some(VideoRangeType::Hlg) <==> text_opt(s.color_transfer)
                == Some("arib-std-b67"@)
            &&& v.video_range == Some(VideoRange::Hdr) <==> text_opt(s.color_transfer) == Some(
                "smpte2084"@,
            ) || text_opt(s.color_transfer) == Some("arib-std-b67"@)
            &&& v.video_range != Some(VideoRange::Hdr) ==> v.video_range == Some(VideoRange::Sdr)
                && v.video_range_type == Some(VideoRangeType::Sdr)
            &&& (s.width matches Some(w) && w > 0) ==> v.width == s.width
            &&& (s.height matches Some(h) && h > 0) ==> v.height == s.height
            &&& !(s.width matches Some(w) && w > 0) ==> v.width is None
            &&& !(s.height matches Some(h) && h > 0) ==> v.height is None
            &&& v.profile == text_opt(s.profile)
            &&& v.level == text_opt(s.level)
            &&& v.codec_tag == text_opt(s.codec_tag_string)
            &&& v.average_frame_rate == text_opt(s.frame_rate)
            &&& v.real_frame_rate == text_opt(s.frame_rate)
            &&& v.bit_rate is Some ==> v.bit_rate->Some_0 > 0 && s.bit_rate is Some
                && signed_value(s.bit_rate->Some_0@) == Some(v.bit_rate->Some_0 as int)
            &&& v.bit_rate is None ==> s.bit_rate is None || signed_value(s.bit_rate->Some_0@)
                is None || signed_value(s.bit_rate->Some_0@)->Some_0 <= 0
            &&& (s.bits_per_raw_sample matches Some(b) && signed_value(b@) matches Some(n) && n
                > 0) ==> v.bit_depth is Some && v.bit_depth->Some_0 == signed_value(
                s.bits_per_raw_sample->Some_0@,
            )->Some_0
            &&& s.bits_per_raw_sample is None && s.pix_fmt is None ==> v.bit_depth is None
            &&& s.bits_per_raw_sample is None && s.pix_fmt is Some && s.pix_fmt->Some_0@.len() > 0
                ==> v.bit_depth is Some && v.bit_depth->Some_0 >= 8
            &&& v.is_default == Some(
                forall|j: int|
                    0 <= j < i ==> !(text_opt((#[trigger] streams[j]).codec_type) == Some("video"@)
                        && streams[j].attached_pic == 0),
            )
        }),
{
    lemma_place_of_stream(streams, i);
    lemma_kinds();
    lemma_first_video(streams.take(i));
    let none = forall|j: int|
        0 <= j < i ==> !(text_opt((#[trigger] streams[j]).codec_type) == Some("video"@)
            && streams[j].attached_pic == 0);
    if none {
        assert forall|j: int| 0 <= j < streams.take(i).len() implies !(
        #[trigger] streams.take(i)[j]).is_video() by {
            assert(streams.take(i)[j] == streams[j]);
        }
    } else {
        let j = choose|j: int|
            0 <= j < i && text_opt((#[trigger] streams[j]).codec_type) == Some("video"@)
                && streams[j].attached_pic == 0;
        assert(streams.take(i)[j] == streams[j]);
        assert(streams.take(i)[j].is_video());
    }
}

proof fn lemma_first_video(streams: Seq<FfprobeStream>)
    ensures
        video_count(streams) == 0 <==> forall|j: int|
            0 <= j < streams.len() ==> !(#[trigger] streams[j]).is_video(),
    decreases streams.len(),
{
    if streams.len() > 0 {
        let short = streams.drop_last();
        lemma_first_video(short);
        if video_count(streams) == 0 {
            assert forall|j: int| 0 <= j < streams.len() implies !(#[trigger] streams[j]).is_video() by {
                if j < short.len() {
                    assert(short[j] == streams[j]);
                }
            }
        }
        if forall|j: int| 0 <= j < streams.len() ==> !(#[trigger] streams[j]).is_video() {
            assert forall|j: int| 0 <= j < short.len() implies !(#[trigger] short[j]).is_video() by {
                assert(short[j] == streams[j]);
            }
            assert(!streams[streams.len() - 1].is_video());
        }
    }
}

/// A sound stream has the channels, the layout, the sample rate and the bitrate that
/// are stated, and is the default where the container says so.
pub proof fn law_sound_is_read(streams: Seq<FfprobeStream>, i: int)
    requires
        0 <= i < streams.len(),
        text_opt(streams[i].codec_type) == Some("audio"@),
    ensures
        ({
            let s = streams[i];
            let k = streams.take(i).filter(read_streams()).len() as int;
            let v = converted_streams(streams)[k];
            &&& 0 <= k < converted_streams(streams).len()
            &&& v.is_default == Some(s.default != 0)
            &&& (s.channels matches Some(c) && c > 0) ==> v.channels == s.channels
            &&& !(s.channels matches Some(c) && c > 0) ==> v.channels is None
            &&& v.channel_layout == text_opt(s.channel_layout)
            &&& (s.sample_rate matches Some(r) && signed_value(r@) matches Some(n) && n > 0) ==> {
                v.sample_rate is Some && v.sample_rate->Some_0 == signed_value(
                    s.sample_rate->Some_0@,
                )->Some_0
            }
            &&& (s.bit_rate matches Some(r) && signed_value(r@) matches Some(n) && n > 0) ==> {
                v.bit_rate is Some && v.bit_rate->Some_0 == signed_value(
                    s.bit_rate->Some_0@,
                )->Some_0
            }
            &&& s.bit_rate is None ==> v.bit_rate is None
            &&& s.sample_rate is None ==> v.sample_rate is None
        }),
{
    lemma_place_of_stream(streams, i);
    lemma_kinds();
}

/// A subtitle is the default, forced or for the hard of hearing where the container
/// says so; one that is a picture is embedded, and one that is a text is marked so.
pub proof fn law_subtitles_are_read(streams: Seq<FfprobeStream>, i: int)
    requires
        0 <= i < streams.len(),
        text_opt(streams[i].codec_type) == Some("subtitle"@),
    ensures
        ({
            let s = streams[i];
            let k = streams.take(i).filter(read_streams()).len() as int;
            let v = converted_streams(streams)[k];
            &&& 0 <= k < converted_streams(streams).len()
            &&& v.is_default == Some(s.default != 0)
            &&& v.is_hearing_impaired == (s.hearing_impaired != 0)
            &&& v.is_text_subtitle_stream == s.is_text
            &&& s.is_image <==> v.delivery_method == Some(SubtitleDeliveryMethod::Embed)
            &&& !s.is_image <==> v.delivery_method is None
            &&& v.supports_external_stream
        }),
{
    lemma_place_of_stream(streams, i);
    lemma_kinds();
}

/// A depth is the number that a pixel format ends with, before its byte order.
pub proof fn law_depth_is_a_suffix(stem: Seq<char>)
    requires
        stem.len() > 0,
        !ends(stem, "le"@),
        !ends(stem, "be"@),
    ensures
        pixel_depth(stem + "le"@) == pixel_depth(stem),
        pixel_depth(stem + "be"@) == pixel_depth(stem),
        ends(stem, "10"@) ==> pixel_depth(stem) == Some(10i64),
        ends(stem, "12"@) ==> pixel_depth(stem) == Some(12i64),
        ends(stem, "14"@) ==> pixel_depth(stem) == Some(14i64),
        ends(stem, "16"@) ==> pixel_depth(stem) == Some(16i64),
        ends(stem, "9"@) ==> pixel_depth(stem) == Some(9i64),
        stem.last() == 'p' ==> pixel_depth(stem) == Some(8i64),
{
    reveal_strlit("le");
    reveal_strlit("be");
    reveal_strlit("9");
    reveal_strlit("10");
    reveal_strlit("12");
    reveal_strlit("14");
    reveal_strlit("16");
    let x = stem + "le"@;
    let y = stem + "be"@;
    assert(x.subrange(x.len() - 2, x.len() as int) =~= "le"@);
    assert(y.subrange(y.len() - 2, y.len() as int) =~= "be"@);
    assert(x.take(x.len() - 2) =~= stem);
    assert(y.take(y.len() - 2) =~= stem);
    lemma_last_of_end(stem, "10"@);
    lemma_last_of_end(stem, "12"@);
    lemma_last_of_end(stem, "14"@);
    lemma_last_of_end(stem, "16"@);
    lemma_last_of_end(stem, "9"@);
    assert("10"@.last() == '0' && "12"@.last() == '2' && "14"@.last() == '4' && "16"@.last() == '6'
        && "9"@.last() == '9');
}

proof fn lemma_last_of_end(s: Seq<char>, e: Seq<char>)
    requires
        e.len() > 0,
    ensures
        ends(s, e) ==> s.last() == e.last(),
{
    if ends(s, e) {
        let tail = s.subrange(s.len() - e.len(), s.len() as int);
        assert(tail.last() == s.last());
    }
}

/// The bitrate of a container is shared out: where exactly one video has none of its
/// own and every sound stream has one, the video gets what the streams beside it
/// leave, and all else stays as it was.
pub proof fn law_bitrates_add_up(streams: Seq<MediaStreamView>, total: Option<i64>, i: int)
    requires
        0 <= i < streams.len(),
    ensures
        ({
            let r = with_bitrate(streams, total);
            &&& r.len() == streams.len()
            &&& r[i] == (MediaStreamView { bit_rate: r[i].bit_rate, ..streams[i] })
            &&& r[i].bit_rate != streams[i].bit_rate ==> {
                &&& streams[i].type_ == Some(MediaStreamType::Video)
                &&& streams[i].bit_rate is None
                &&& total is Some && r[i].bit_rate is Some
                &&& r[i].bit_rate->Some_0 + other_bitrates(streams) == total->Some_0
                &&& r[i].bit_rate->Some_0 > 0
                &&& forall|j: int|
                    0 <= j < streams.len() && j != i && #[trigger] streams[j].type_ == Some(
                        MediaStreamType::Video,
                    ) ==> streams[j].bit_rate is Some
            }
            &&& total is None ==> r == streams
            &&& (streams[i].type_ == Some(MediaStreamType::Video) && streams[i].bit_rate is None
                && total is Some && 0 < total->Some_0 - other_bitrates(streams) <= i64::MAX && (
            forall|j: int|
                0 <= j < streams.len() && j != i && #[trigger] streams[j].type_ == Some(
                    MediaStreamType::Video,
                ) ==> streams[j].bit_rate is Some) && (forall|j: int|
                0 <= j < streams.len() && #[trigger] streams[j].type_ == Some(
                    MediaStreamType::Audio,
                ) ==> streams[j].bit_rate is Some)) ==> r[i].bit_rate is Some
        }),
{
    lemma_unrated_places(streams);
    let u = unrated_videos(streams);
    let r = with_bitrate(streams, total);
    if u.len() == 1 {
        assert(0 <= u[0] < streams.len() && unrated_video(streams[u[0]]));
        assert forall|j: int|
            0 <= j < streams.len() && j != u[0] && #[trigger] streams[j].type_ == Some(
                MediaStreamType::Video,
            ) implies streams[j].bit_rate is Some by {
            if unrated_video(streams[j]) {
                let k = choose|k: int| 0 <= k < u.len() && u[k] == j;
                assert(k == 0);
            }
        }
    }
    if streams[i].type_ == Some(MediaStreamType::Video) && streams[i].bit_rate is None && (forall|
        j: int,
    |
        0 <= j < streams.len() && j != i && #[trigger] streams[j].type_ == Some(
            MediaStreamType::Video,
        ) ==> streams[j].bit_rate is Some) {
        assert(unrated_video(streams[i]));
        let k = choose|k: int| 0 <= k < u.len() && u[k] == i;
        assert(u[k] == i);
        assert forall|m: int| 0 <= m < u.len() implies u[m] == i by {
            assert(unrated_video(streams[u[m]]));
            assert(streams[u[m]].type_ == Some(MediaStreamType::Video));
        }
        if u.len() > 1 {
            assert(u[0] == i && u[1] == i);
        }
    }
}

proof fn lemma_unrated_places(streams: Seq<MediaStreamView>)
    ensures
        forall|k: int|
            0 <= k < unrated_videos(streams).len() ==> 0 <= #[trigger] unrated_videos(streams)[k]
                < streams.len() && unrated_video(streams[unrated_videos(streams)[k]]),
        forall|j: int|
            0 <= j < streams.len() && unrated_video(#[trigger] streams[j]) ==> exists|k: int|
                0 <= k < unrated_videos(streams).len() && unrated_videos(streams)[k] == j,
        forall|k: int, l: int|
            0 <= k < l < unrated_videos(streams).len() ==> #[trigger] unrated_videos(streams)[k]
                < #[trigger] unrated_videos(streams)[l],
    decreases streams.len(),
{
    if streams.len() > 0 {
        let short = streams.drop_last();
        lemma_unrated_places(short);
        let b = unrated_videos(short);
        let u = unrated_videos(streams);
        assert forall|k: int| 0 <= k < u.len() implies 0 <= #[trigger] u[k] < streams.len()
            && unrated_video(streams[u[k]]) by {
            if k < b.len() {
                assert(u[k] == b[k]);
                assert(short[b[k]] == streams[b[k]]);
            }
        }
        assert forall|j: int| 0 <= j < streams.len() && unrated_video(#[trigger] streams[j]) implies
            exists|k: int| 0 <= k < u.len() && u[k] == j by {
            if j < short.len() {
                assert(short[j] == streams[j]);
                let k = choose|k: int| 0 <= k < b.len() && b[k] == j;
                assert(u[k] == j);
            } else {
                assert(u[u.len() - 1] == j);
            }
        }
        assert forall|k: int, l: int| 0 <= k < l < u.len() implies #[trigger] u[k]
            < #[trigger] u[l] by {
            if l < b.len() {
                assert(u[k] == b[k] && u[l] == b[l]);
            } else {
                assert(u[k] == b[k]);
                assert(b[k] < short.len());
            }
        }
    }
}

/// The bitrates of what is beside a video are those of the streams in the container
/// that are no video, each counted once.
pub proof fn law_other_bitrates_are_counted(streams: Seq<MediaStreamView>, s: MediaStreamView)
    ensures
        other_bitrates(Seq::empty()) == 0,
        ({
            let more = other_bitrates(streams.push(s)) - other_bitrates(streams);
            &&& s.type_ == Some(MediaStreamType::Video) || s.is_external || s.bit_rate is None
                ==> more == 0
            &&& s.type_ != Some(MediaStreamType::Video) && !s.is_external && s.bit_rate is Some
                ==> more == s.bit_rate->Some_0
        }),
{
    assert(streams.push(s).drop_last() =~= streams);
}

/// The part of a kind among the marked ones.
pub open spec fn part_of(segments: MediaSegments, kind: MediaSegmentType) -> Option<Segment> {
    match kind {
        MediaSegmentType::Intro => segments.intro,
        MediaSegmentType::Recap => segments.recap,
        MediaSegmentType::Outro => segments.outro,
        MediaSegmentType::Preview => segments.preview,
        MediaSegmentType::Commercial => segments.commercial,
    }
}

/// Whether a chapter announces a part of a kind and has bounds.
pub open spec fn bounds_part(c: Chapter, kind: MediaSegmentType) -> bool {
    &&& c.title matches Some(t) && announced(t@) == Some(kind)
    &&& c.start_ticks is Some
    &&& c.end_ticks is Some
}

/// A part of a film is marked by the first chapter that announces it and has bounds,
/// with just these bounds; where no chapter does, it is not marked.
pub proof fn law_first_chapter_of_a_kind_counts(
    chapters: Seq<Chapter>,
    kind: MediaSegmentType,
    k: int,
)
    requires
        0 <= k <= chapters.len(),
        k < chapters.len() ==> bounds_part(chapters[k], kind),
        forall|j: int| 0 <= j < k ==> !bounds_part(#[trigger] chapters[j], kind),
    ensures
        k < chapters.len() ==> part_of(marked_segments(chapters), kind) == Some(
            Segment {
                start_ticks: chapters[k].start_ticks->Some_0,
                end_ticks: chapters[k].end_ticks->Some_0,
            },
        ),
        k == chapters.len() ==> part_of(marked_segments(chapters), kind) is None,
    decreases chapters.len(),
{
    if chapters.len() > 0 {
        let short = chapters.drop_last();
        let last = chapters[chapters.len() - 1];
        let at = if k < short.len() {
            k
        } else {
            short.len() as int
        };
        assert forall|j: int| 0 <= j < at implies !bounds_part(#[trigger] short[j], kind) by {
            assert(short[j] == chapters[j]);
        }
        if at < short.len() {
            assert(short[at] == chapters[at]);
        }
        law_first_chapter_of_a_kind_counts(short, kind, at);
        if last.title is None {
            lemma_untitled();
        }
    }
}

proof fn lemma_untitled()
    ensures
        announced(Seq::empty()) is None,
{
    let t = lower(Seq::empty());
    assert(t.len() == 0);
    lemma_nothing_in(t, "intro"@);
    lemma_nothing_in(t, "recap"@);
    lemma_nothing_in(t, "credits"@);
    lemma_nothing_in(t, "outro"@);
    lemma_nothing_in(t, "preview"@);
    lemma_nothing_in(t, "commercial"@);
    lemma_nothing_in(t, " ad "@);
    reveal_strlit("intro");
    reveal_strlit("recap");
    reveal_strlit("credits");
    reveal_strlit("outro");
    reveal_strlit("preview");
    reveal_strlit("commercial");
    reveal_strlit(" ad ");
    reveal_strlit("ad");
    assert("ad"@.len() == 2);
    assert("intro"@.len() > 0 && "recap"@.len() > 0 && "credits"@.len() > 0 && "outro"@.len() > 0
        && "preview"@.len() > 0 && "commercial"@.len() > 0 && " ad "@.len() > 0);
}

proof fn lemma_nothing_in(t: Seq<char>, n: Seq<char>)
    ensures
        t.len() < n.len() ==> !crate::text::has(t, n),
{
    if crate::text::has(t, n) {
        let i = choose|i: int| crate::text::occurs_at(t, n, i);
    }
}

/// A chapter announces the kind of part whose name stands in its title, in capitals
/// or not.
pub proof fn law_titles_announce_parts(title: Seq<char>)
    ensures
        ({
            let t = lower(title);
            let intro = has(t, "intro"@);
            let recap = has(t, "recap"@);
            let outro = has(t, "credits"@) || has(t, "outro"@);
            let preview = has(t, "preview"@);
            let commercial = has(t, "commercial"@) || has(t, " ad "@) || t == "ad"@;
            &&& announced(title) == Some(MediaSegmentType::Intro) <==> intro
            &&& announced(title) == Some(MediaSegmentType::Recap) <==> recap && !intro
            &&& announced(title) == Some(MediaSegmentType::Outro) <==> outro && !recap && !intro
            &&& announced(title) == Some(MediaSegmentType::Preview) <==> preview && !outro && !recap
                && !intro
            &&& announced(title) == Some(MediaSegmentType::Commercial) <==> commercial && !preview
                && !outro && !recap && !intro
        }),
{
}

/// A video gets what is left of a file's bitrate only where every sound stream in the file
/// states its own.
pub proof fn law_unknown_sound_leaves_videos_unrated(
    streams: Seq<MediaStreamView>,
    total: Option<i64>,
    i: int,
)
    requires
        0 <= i < streams.len(),
        streams[i].type_ == Some(MediaStreamType::Audio),
        streams[i].bit_rate is None,
        !streams[i].is_external,
    ensures
        with_bitrate(streams, total) == streams,
{
    assert(beside_video(streams[i]));
}

/// What a stream is not told of is as it is for every stream of its kind.
pub proof fn law_other_fields_are_fixed(streams: Seq<FfprobeStream>, i: int)
    requires
        0 <= i < streams.len(),
        read_streams()(streams[i]),
    ensures
        ({
            let k = streams.take(i).filter(read_streams()).len() as int;
            let v = converted_streams(streams)[k];
            &&& v.is_avc == Some(false)
            &&& v.time_base == Some("1/1000"@)
            &&& v.audio_spatial_format == Some("None"@)
            &&& v.type_ != Some(MediaStreamType::Video) ==> {
                &&& v.video_range == Some(VideoRange::Unknown)
                &&& v.video_range_type == Some(VideoRangeType::Unknown)
                &&& v.localized_default == Some("Default"@)
                &&& v.localized_external == Some("External"@)
                &&& v.width is None && v.height is None && v.bit_depth is None
            }
            &&& v.type_ == Some(MediaStreamType::Subtitle) ==> {
                &&& v.localized_undefined == Some("Undefined"@)
                &&& v.localized_forced == Some("Forced"@)
                &&& v.localized_hearing_impaired == Some("Hearing Impaired"@)
                &&& v.bit_rate is None && v.channels is None
            }
            &&& v.type_ != Some(MediaStreamType::Subtitle) ==> !v.is_hearing_impaired
                && !v.supports_external_stream && v.delivery_method is None
        }),
{
    lemma_place_of_stream(streams, i);
    lemma_kinds();
}

} // verus!
