//! The transcoder's command lines.

use vstd::prelude::*;

use super::filters::{
    build_burn_filter, build_encode_filter, build_encode_scale, build_scale_filter, burn_filter,
    encode_filter, encode_scale, scale_filter, Treatment,
};
use super::hw_accel::Accelerator;
use super::media::{
    adts_source, borrowed, dovi_source, hdr_source, hevc_source, is_dovi, is_hdr, is_hevc,
    needs_adts_reframe, preset_name, preset_spec, EncodingPreset, VideoRangeType,
};
use super::session::TranscodeSession;
use crate::binary64::{seconds_chars, seconds_text, segment_at, segment_number};
use crate::text::{
    begins, concat2, concat3, dec, dec_int, dec_int_text, dec_text, in_dir, join_path, push_arg,
    has_pair, lemma_pair_itself, lemma_pair_of_sum, push_args, push_pair, same_text, starts_with, str_opt, text_opt, texts,
};

verus! {

/// What an HLS transcode is asked to do.
///
/// The tone-mapping coefficients are texts with one decimal.
#[derive(Clone, Debug)]
pub struct TranscodeParams {
    pub input_url: String,
    pub output_dir: String,
    pub video_codec: String,
    pub audio_codec: String,
    /// Seconds in a segment.
    pub segment_length: u32,
    pub start_time_ticks: Option<i64>,
    pub max_width: Option<u32>,
    pub max_height: Option<u32>,
    pub video_bitrate: Option<u32>,
    pub audio_bitrate: Option<u32>,
    pub audio_channels: Option<u32>,
    pub audio_stream_index: Option<i32>,
    pub subtitle_stream_index: Option<i32>,
    pub burn_subtitle: bool,
    pub subtitle_width: Option<u32>,
    pub subtitle_height: Option<u32>,
    pub encoding_preset: Option<EncodingPreset>,
    pub source_video_codec: Option<String>,
    pub source_audio_codec: Option<String>,
    pub source_video_range_type: Option<VideoRangeType>,
    pub enable_tonemapping: bool,
    pub enable_vpp_tonemapping: bool,
    pub tonemapping_algorithm: String,
    pub tonemapping_desat: String,
    pub tonemapping_peak: String,
    pub allow_hevc_encoding: bool,
    pub allow_av1_encoding: bool,
    pub h264_crf: u32,
    pub h265_crf: u32,
    /// The source never ends and cannot be seeked.
    pub is_live: bool,
    pub normalize_audio_loudness: bool,
}

impl Default for TranscodeParams {
    fn default() -> (r: Self)
        ensures
            r.input_url@ == ""@,
            r.output_dir@ == ""@,
            r.video_codec@ == "copy"@,
            r.audio_codec@ == "aac"@,
            r.segment_length == 4,
            r.start_time_ticks is None,
            r.max_width is None,
            r.max_height is None,
            r.video_bitrate is None,
            r.audio_bitrate is None,
            r.audio_channels is None,
            r.audio_stream_index is None,
            r.subtitle_stream_index is None,
            !r.burn_subtitle,
            r.subtitle_width is None,
            r.subtitle_height is None,
            r.encoding_preset is None,
            r.source_video_codec is None,
            r.source_audio_codec is None,
            r.source_video_range_type is None,
            !r.enable_tonemapping,
            !r.enable_vpp_tonemapping,
            r.tonemapping_algorithm@ == "hable"@,
            r.tonemapping_desat@ == "0.0"@,
            r.tonemapping_peak@ == "0.0"@,
            !r.allow_hevc_encoding,
            !r.allow_av1_encoding,
            r.h264_crf == 23,
            r.h265_crf == 28,
            !r.is_live,
            !r.normalize_audio_loudness,
    {
        TranscodeParams {
            input_url: "".to_owned(),
            output_dir: "".to_owned(),
            video_codec: "copy".to_owned(),
            audio_codec: "aac".to_owned(),
            segment_length: 4,
            start_time_ticks: None,
            max_width: None,
            max_height: None,
            video_bitrate: None,
            audio_bitrate: None,
            audio_channels: None,
            audio_stream_index: None,
            subtitle_stream_index: None,
            burn_subtitle: false,
            subtitle_width: None,
            subtitle_height: None,
            encoding_preset: None,
            source_video_codec: None,
            source_audio_codec: None,
            source_video_range_type: None,
            enable_tonemapping: false,
            enable_vpp_tonemapping: false,
            tonemapping_algorithm: "hable".to_owned(),
            tonemapping_desat: "0.0".to_owned(),
            tonemapping_peak: "0.0".to_owned(),
            allow_hevc_encoding: false,
            allow_av1_encoding: false,
            h264_crf: 23,
            h265_crf: 28,
            is_live: false,
            normalize_audio_loudness: false,
        }
    }
}

/// What a progressive transcode, which writes to standard output, is asked to
/// do.
#[derive(Clone, Debug)]
pub struct ProgressiveTranscodeParams {
    pub input_url: String,
    pub container: String,
    pub video_codec: String,
    pub audio_codec: String,
    pub start_time_ticks: Option<i64>,
    pub max_width: Option<u32>,
    pub max_height: Option<u32>,
    pub video_bitrate: Option<u32>,
    pub audio_bitrate: Option<u32>,
    pub audio_channels: Option<u32>,
    pub audio_stream_index: Option<i32>,
    pub subtitle_stream_index: Option<i32>,
    pub burn_subtitle: bool,
    pub subtitle_width: Option<u32>,
    pub subtitle_height: Option<u32>,
    pub encoding_preset: Option<EncodingPreset>,
    pub source_video_codec: Option<String>,
    pub source_audio_codec: Option<String>,
    pub source_video_range_type: Option<VideoRangeType>,
    pub enable_tonemapping: bool,
    pub enable_vpp_tonemapping: bool,
    pub tonemapping_algorithm: String,
    pub tonemapping_desat: String,
    pub tonemapping_peak: String,
    pub allow_hevc_encoding: bool,
    pub allow_av1_encoding: bool,
    pub h264_crf: u32,
    pub h265_crf: u32,
    pub normalize_audio_loudness: bool,
}

// ---------------------------------------------------------------------------
// What both kinds of transcode share
// ---------------------------------------------------------------------------

/// Whether the picture is passed on as it is: asked for, and no subtitle is
/// drawn into it.
pub open spec fn copies_video(codec: Seq<char>, burn: bool, subtitle: Option<i32>) -> bool {
    codec == "copy"@ && !(burn && subtitle is Some)
}

/// The video codec argument: `copy`, or the H.264 encoder of the machine.
pub open spec fn video_encoder<A: Accelerator>(accel: A, copies: bool) -> Seq<char> {
    if copies {
        "copy"@
    } else if accel.hardware() {
        accel.encoder("libx264"@)
    } else {
        "libx264"@
    }
}

fn video_encoder_name<A: Accelerator>(
    accel: &A,
    codec: &str,
    burn: bool,
    subtitle: Option<i32>,
) -> (r: String)
    ensures
        r@ == video_encoder(*accel, copies_video(codec@, burn, subtitle)),
{
    if same_text(codec, "copy") && !(burn && subtitle.is_some()) {
        "copy".to_owned()
    } else if accel.is_hw() {
        accel.encoder_name("libx264")
    } else {
        "libx264".to_owned()
    }
}

/// How an HDR source is brought to standard colours: by the GPU where that is
/// enabled and possible, else by the CPU where that is enabled or wanted.
pub open spec fn treatment<A: Accelerator>(
    accel: A,
    range: Option<VideoRangeType>,
    tonemapping: bool,
    vpp_tonemapping: bool,
) -> Treatment {
    let hdr = hdr_source(range);
    let vpp = hdr && vpp_tonemapping && accel.vpp_tonemap();
    Treatment {
        kind: accel.kind(),
        is_hw: accel.hardware(),
        hdr,
        vpp_tonemap: vpp,
        sw_tonemap: hdr && (tonemapping || accel.wants_sw_tonemap()) && !vpp,
    }
}

fn choose_treatment<A: Accelerator>(
    accel: &A,
    range: Option<VideoRangeType>,
    tonemapping: bool,
    vpp_tonemapping: bool,
) -> (t: Treatment)
    ensures
        t == treatment(*accel, range, tonemapping, vpp_tonemapping),
{
    let hdr = is_hdr(range);
    let vpp = hdr && vpp_tonemapping && accel.supports_vpp_tonemap();
    let prefers = accel.prefers_sw_tonemap();
    Treatment {
        kind: accel.as_type(),
        is_hw: accel.is_hw(),
        hdr,
        vpp_tonemap: vpp,
        sw_tonemap: hdr && (tonemapping || prefers) && !vpp,
    }
}

/// The seek before the input.
pub open spec fn seek_args(start: Option<i64>) -> Seq<Seq<char>> {
    match start {
        Some(ticks) => seq!["-ss"@, seconds_chars(ticks as int)],
        None => seq![],
    }
}

fn push_seek(args: &mut Vec<String>, start: Option<i64>)
    ensures
        texts(final(args)@) == texts(old(args)@) + seek_args(start),
{
    match start {
        Some(ticks) => push_pair(args, "-ss", seconds_text(ticks).as_str()),
        None => {
            assert(texts(args@) + seek_args(start) =~= texts(args@));
        },
    }
}

/// The audio stream, by number where one is chosen.
pub open spec fn audio_map(index: Option<i32>) -> Seq<Seq<char>> {
    match index {
        Some(i) => seq!["-map"@, "0:"@ + dec_int(i as int)],
        None => seq!["-map"@, "0:a?"@],
    }
}

fn push_audio_map(args: &mut Vec<String>, index: Option<i32>)
    ensures
        texts(final(args)@) == texts(old(args)@) + audio_map(index),
{
    match index {
        Some(i) => push_pair(args, "-map", concat2("0:", dec_int_text(i as i64).as_str()).as_str()),
        None => push_pair(args, "-map", "0:a?"),
    }
}

/// The flags of the software encoder. A bitrate is a ceiling, with a buffer of
/// twice its size.
pub open spec fn x264_args(
    crf: u32,
    preset: Option<EncodingPreset>,
    zerolatency: bool,
    bitrate: Option<u32>,
) -> Seq<Seq<char>> {
    seq!["-profile:v"@, "high"@] + seq!["-pix_fmt"@, "yuv420p"@] + seq!["-crf"@, dec(crf as nat)]
        + seq!["-preset"@, preset_spec(preset)] + if zerolatency {
        seq!["-tune"@, "zerolatency"@]
    } else {
        seq![]
    } + match bitrate {
        Some(b) => seq!["-maxrate"@, dec(b as nat)] + seq!["-bufsize"@, dec((b * 2) as nat)],
        None => seq![],
    }
}

fn push_x264(
    args: &mut Vec<String>,
    crf: u32,
    preset: Option<EncodingPreset>,
    zerolatency: bool,
    bitrate: Option<u32>,
)
    requires
        bitrate matches Some(b) ==> b * 2 <= u32::MAX,
    ensures
        texts(final(args)@) == texts(old(args)@) + x264_args(crf, preset, zerolatency, bitrate),
{
    push_pair(args, "-profile:v", "high");
    push_pair(args, "-pix_fmt", "yuv420p");
    push_pair(args, "-crf", dec_text(crf as u64).as_str());
    push_pair(args, "-preset", preset_name(preset).as_str());
    if zerolatency {
        push_pair(args, "-tune", "zerolatency");
    }
    if let Some(b) = bitrate {
        push_pair(args, "-maxrate", dec_text(b as u64).as_str());
        push_pair(args, "-bufsize", dec_text((b * 2) as u64).as_str());
    }
    assert(texts(args@) =~= texts(old(args)@) + x264_args(crf, preset, zerolatency, bitrate));
}

/// The bitrate of a hardware encoder.
pub open spec fn hw_bitrate_args(bitrate: Option<u32>) -> Seq<Seq<char>> {
    match bitrate {
        Some(b) => seq!["-b:v"@, dec(b as nat)],
        None => seq![],
    }
}

fn push_hw_bitrate(args: &mut Vec<String>, bitrate: Option<u32>)
    ensures
        texts(final(args)@) == texts(old(args)@) + hw_bitrate_args(bitrate),
{
    match bitrate {
        Some(b) => push_pair(args, "-b:v", dec_text(b as u64).as_str()),
        None => {
            assert(texts(args@) + hw_bitrate_args(bitrate) =~= texts(args@));
        },
    }
}

/// The flags of the audio codec `codec`. A copy is only framed anew where it
/// must be; an encoding has a bitrate, channels and loudness.
pub open spec fn audio_args(
    codec: Seq<char>,
    source: Option<Seq<char>>,
    bitrate: Option<u32>,
    channels: Option<u32>,
    normalize: bool,
) -> Seq<Seq<char>> {
    seq!["-c:a"@, codec] + if codec == "copy"@ {
        if adts_source(source) {
            seq!["-bsf:a"@, "aac_adtstoasc"@]
        } else {
            seq![]
        }
    } else {
        (match bitrate {
            Some(b) => seq!["-b:a"@, dec(b as nat)],
            None => seq![],
        }) + (match channels {
            Some(c) => seq!["-ac"@, dec(c as nat)],
            None => seq![],
        }) + if normalize {
            seq!["-af"@, "loudnorm=I=-14:TP=-1:LRA=11"@]
        } else {
            seq![]
        }
    }
}

fn push_audio(
    args: &mut Vec<String>,
    codec: &str,
    source: Option<&str>,
    bitrate: Option<u32>,
    channels: Option<u32>,
    normalize: bool,
)
    ensures
        texts(final(args)@) == texts(old(args)@) + audio_args(
            codec@,
            str_opt(source),
            bitrate,
            channels,
            normalize,
        ),
{
    push_pair(args, "-c:a", codec);
    if same_text(codec, "copy") {
        if needs_adts_reframe(source) {
            push_pair(args, "-bsf:a", "aac_adtstoasc");
        }
    } else {
        if let Some(b) = bitrate {
            push_pair(args, "-b:a", dec_text(b as u64).as_str());
        }
        if let Some(c) = channels {
            push_pair(args, "-ac", dec_text(c as u64).as_str());
        }
        if normalize {
            push_pair(args, "-af", "loudnorm=I=-14:TP=-1:LRA=11");
        }
    }
    assert(texts(args@) =~= texts(old(args)@) + audio_args(
        codec@,
        str_opt(source),
        bitrate,
        channels,
        normalize,
    ));
}

// ---------------------------------------------------------------------------
// HLS
// ---------------------------------------------------------------------------

impl TranscodeParams {
    pub open spec fn copies(&self) -> bool {
        copies_video(self.video_codec@, self.burn_subtitle, self.subtitle_stream_index)
    }

    pub open spec fn treatment<A: Accelerator>(&self, accel: A) -> Treatment {
        treatment(
            accel,
            self.source_video_range_type,
            self.enable_tonemapping,
            self.enable_vpp_tonemapping,
        )
    }

    /// The video codec argument.
    pub open spec fn encoder<A: Accelerator>(&self, accel: A) -> Seq<char> {
        video_encoder(accel, self.copies())
    }

    /// Whether HEVC is passed on as it is. It then goes in fragmented MP4.
    pub open spec fn hevc_copy<A: Accelerator>(&self, accel: A) -> bool {
        self.encoder(accel) == "copy"@ && hevc_source(text_opt(self.source_video_codec))
    }

    /// The video filter, where no subtitle is burnt in.
    pub open spec fn filter<A: Accelerator>(&self, accel: A) -> Option<Seq<char>> {
        let t = self.treatment(accel);
        if self.encoder(accel) == "copy"@ {
            None
        } else {
            encode_filter(
                t,
                encode_scale(t, self.max_width, self.max_height),
                accel.suffix(t.hdr, t.vpp_tonemap),
                self.tonemapping_algorithm@,
                self.tonemapping_desat@,
                self.tonemapping_peak@,
            )
        }
    }

    /// The filters, and the streams that are taken.
    pub open spec fn mapping<A: Accelerator>(&self, accel: A) -> Seq<Seq<char>> {
        let t = self.treatment(accel);
        if self.burn_subtitle {
            match self.subtitle_stream_index {
                Some(sub) => seq![
                    "-filter_complex"@,
                    burn_filter(
                        t,
                        sub as int,
                        self.max_width,
                        self.max_height,
                        scale_filter(self.max_width, self.max_height),
                        accel.suffix(t.hdr, t.vpp_tonemap),
                        self.tonemapping_algorithm@,
                        self.tonemapping_desat@,
                        self.tonemapping_peak@,
                    ),
                ] + seq!["-map"@, "[v]"@] + audio_map(self.audio_stream_index),
                None => seq![],
            }
        } else {
            match self.filter(accel) {
                Some(f) => seq!["-vf"@, f],
                None => if self.audio_stream_index is Some {
                    seq!["-map"@, "0:v:0"@] + audio_map(self.audio_stream_index)
                } else {
                    seq![]
                },
            }
        }
    }

    /// The video codec and its flags.
    pub open spec fn video_args<A: Accelerator>(&self, accel: A) -> Seq<Seq<char>> {
        let codec = self.encoder(accel);
        seq!["-c:v"@, codec] + if codec == "copy"@ {
            if self.hevc_copy(accel) {
                seq!["-tag:v"@, "hvc1"@] + if dovi_source(self.source_video_range_type) {
                    seq!["-bsf:v"@, "dovi_rpu=strip=1"@]
                } else {
                    seq![]
                }
            } else {
                seq![]
            }
        } else if accel.hardware() {
            hw_bitrate_args(self.video_bitrate)
        } else {
            x264_args(self.h264_crf, self.encoding_preset, true, self.video_bitrate)
        }
    }

    /// What comes before the input and does not depend on the accelerator.
    pub open spec fn source_args(&self) -> Seq<Seq<char>> {
        (if self.is_live {
            seq![]
        } else {
            seek_args(self.start_time_ticks)
        }) + (if self.is_live && begins(self.input_url@, "rtsp://"@) {
            seq!["-rtsp_transport"@, "tcp"@] + seq!["-timeout"@, "5000000"@]
        } else {
            seq![]
        }) + seq!["-copyts"@] + seq!["-i"@, self.input_url@]
    }

    /// The number of the first segment.
    pub open spec fn start_number(&self) -> nat {
        match self.start_time_ticks {
            Some(t) => segment_at(t as int, self.segment_length as nat),
            None => 0,
        }
    }

    /// The playlist and its segments: transport streams, or fragmented MP4.
    pub open spec fn output_args(&self, fmp4: bool) -> Seq<Seq<char>> {
        let name = if fmp4 {
            "segment_%05d.m4s"@
        } else {
            "segment_%05d.ts"@
        };
        seq!["-f"@, "hls"@] + seq!["-hls_time"@, dec(self.segment_length as nat)] + seq![
            "-start_number"@,
            dec(self.start_number()),
        ] + seq!["-hls_segment_filename"@, in_dir(self.output_dir@, name)] + seq![
            "-hls_playlist_type"@,
            "event"@,
        ] + seq!["-hls_list_size"@, "0"@] + (if fmp4 {
            seq!["-hls_segment_type"@, "fmp4"@] + seq!["-hls_fmp4_init_filename"@, "init.mp4"@]
                + seq!["-start_at_zero"@] + seq!["-hls_segment_options"@, "movflags=+frag_discont"@]
        } else {
            seq![]
        }) + seq![in_dir(self.output_dir@, "main.m3u8"@)]
    }

    /// The audio codec argument: `copy` or AAC.
    pub open spec fn audio_encoder(&self) -> Seq<char> {
        if self.audio_codec@ == "copy"@ {
            "copy"@
        } else {
            "aac"@
        }
    }

    /// The bitrate of encoded audio.
    pub open spec fn encoded_audio_bitrate(&self) -> u32 {
        match self.audio_bitrate {
            Some(b) => b,
            None => 128_000,
        }
    }

    /// What comes before the accelerator's own arguments.
    pub open spec fn preamble() -> Seq<Seq<char>> {
        seq!["-v"@, "error"@] + seq!["-analyzeduration"@, "1000000"@] + seq![
            "-probesize"@,
            "1000000"@,
        ]
    }

    /// The whole command line.
    pub open spec fn hls_args<A: Accelerator>(&self, accel: A) -> Seq<Seq<char>> {
        let t = self.treatment(accel);
        Self::preamble() + accel.input_args(
            text_opt(self.source_video_codec),
            t.hdr,
            t.vpp_tonemap,
        ) + self.source_args() + seq!["-avoid_negative_ts"@, "disabled"@] + seq![
            "-max_muxing_queue_size"@,
            "2048"@,
        ] + self.mapping(accel) + self.video_args(accel) + audio_args(
            self.audio_encoder(),
            text_opt(self.source_audio_codec),
            Some(self.encoded_audio_bitrate()),
            self.audio_channels,
            self.normalize_audio_loudness,
        ) + self.output_args(self.hevc_copy(accel))
    }

    /// Twice the bitrate is a number that the encoder's buffer size can be.
    pub open spec fn buffer_fits<A: Accelerator>(&self, accel: A) -> bool {
        !self.copies() && !accel.hardware() ==> (self.video_bitrate matches Some(b) ==> b * 2
            <= u32::MAX)
    }
}

fn push_hls_mapping<A: Accelerator>(
    args: &mut Vec<String>,
    params: &TranscodeParams,
    accel: &A,
    t: &Treatment,
    codec: &str,
)
    requires
        *t == params.treatment(*accel),
        codec@ == params.encoder(*accel),
    ensures
        texts(final(args)@) == texts(old(args)@) + params.mapping(*accel),
{
    let suffix = accel.hw_filter_suffix(t.hdr, t.vpp_tonemap);
    if params.burn_subtitle {
        if let Some(sub) = params.subtitle_stream_index {
            let scale = build_scale_filter(params.max_width, params.max_height);
            let filter = build_burn_filter(
                t,
                sub,
                params.max_width,
                params.max_height,
                borrowed(&scale),
                borrowed(&suffix),
                params.tonemapping_algorithm.as_str(),
                params.tonemapping_desat.as_str(),
                params.tonemapping_peak.as_str(),
            );
            push_pair(args, "-filter_complex", filter.as_str());
            push_pair(args, "-map", "[v]");
            push_audio_map(args, params.audio_stream_index);
        }
    } else {
        let filter = if same_text(codec, "copy") {
            None
        } else {
            let scale = build_encode_scale(t, params.max_width, params.max_height);
            build_encode_filter(
                t,
                borrowed(&scale),
                borrowed(&suffix),
                params.tonemapping_algorithm.as_str(),
                params.tonemapping_desat.as_str(),
                params.tonemapping_peak.as_str(),
            )
        };
        assert(text_opt(filter) == params.filter(*accel));
        if let Some(f) = filter {
            push_pair(args, "-vf", f.as_str());
        } else if params.audio_stream_index.is_some() {
            push_pair(args, "-map", "0:v:0");
            push_audio_map(args, params.audio_stream_index);
        }
    }
    assert(texts(args@) =~= texts(old(args)@) + params.mapping(*accel));
}

fn push_hls_video<A: Accelerator>(
    args: &mut Vec<String>,
    params: &TranscodeParams,
    accel: &A,
    codec: &str,
    hevc_copy: bool,
)
    requires
        codec@ == params.encoder(*accel),
        hevc_copy == params.hevc_copy(*accel),
        params.buffer_fits(*accel),
    ensures
        texts(final(args)@) == texts(old(args)@) + params.video_args(*accel),
{
    push_pair(args, "-c:v", codec);
    if same_text(codec, "copy") {
        if hevc_copy {
            push_pair(args, "-tag:v", "hvc1");
            if is_dovi(params.source_video_range_type) {
                push_pair(args, "-bsf:v", "dovi_rpu=strip=1");
            }
        }
    } else if accel.is_hw() {
        push_hw_bitrate(args, params.video_bitrate);
    } else {
        push_x264(args, params.h264_crf, params.encoding_preset, true, params.video_bitrate);
    }
    assert(texts(args@) =~= texts(old(args)@) + params.video_args(*accel));
}

fn push_hls_output(args: &mut Vec<String>, params: &TranscodeParams, fmp4: bool)
    ensures
        texts(final(args)@) == texts(old(args)@) + params.output_args(fmp4),
{
    let playlist = join_path(params.output_dir.as_str(), "main.m3u8");
    let name = if fmp4 {
        "segment_%05d.m4s"
    } else {
        "segment_%05d.ts"
    };
    let segment = join_path(params.output_dir.as_str(), name);
    let start_number: u32 = match params.start_time_ticks {
        Some(t) => segment_number(t, params.segment_length),
        None => 0,
    };
    push_pair(args, "-f", "hls");
    push_pair(args, "-hls_time", dec_text(params.segment_length as u64).as_str());
    push_pair(args, "-start_number", dec_text(start_number as u64).as_str());
    push_pair(args, "-hls_segment_filename", segment.as_str());
    push_pair(args, "-hls_playlist_type", "event");
    push_pair(args, "-hls_list_size", "0");
    if fmp4 {
        push_pair(args, "-hls_segment_type", "fmp4");
        push_pair(args, "-hls_fmp4_init_filename", "init.mp4");
        push_arg(args, "-start_at_zero");
        push_pair(args, "-hls_segment_options", "movflags=+frag_discont");
    }
    push_arg(args, playlist.as_str());
    assert(texts(args@) =~= texts(old(args)@) + params.output_args(fmp4));
}

fn push_hls_source(args: &mut Vec<String>, params: &TranscodeParams)
    ensures
        texts(final(args)@) == texts(old(args)@) + params.source_args(),
{
    if !params.is_live {
        push_seek(args, params.start_time_ticks);
    }
    if params.is_live && starts_with(params.input_url.as_str(), "rtsp://") {
        push_pair(args, "-rtsp_transport", "tcp");
        push_pair(args, "-timeout", "5000000");
    }
    push_arg(args, "-copyts");
    push_pair(args, "-i", params.input_url.as_str());
    assert(texts(args@) =~= texts(old(args)@) + params.source_args());
}

/// The arguments of an HLS transcode.
pub fn build_hls_args<A: Accelerator>(params: &TranscodeParams, accel: &A) -> (args: Vec<String>)
    requires
        params.buffer_fits(*accel),
    ensures
        texts(args@) == params.hls_args(*accel),
{
    let t = choose_treatment(
        accel,
        params.source_video_range_type,
        params.enable_tonemapping,
        params.enable_vpp_tonemapping,
    );
    let codec = video_encoder_name(
        accel,
        params.video_codec.as_str(),
        params.burn_subtitle,
        params.subtitle_stream_index,
    );
    let source_codec = borrowed(&params.source_video_codec);
    let hevc_copy = same_text(codec.as_str(), "copy") && is_hevc(source_codec);
    let audio_codec = if same_text(params.audio_codec.as_str(), "copy") {
        "copy"
    } else {
        "aac"
    };
    let audio_bitrate: u32 = match params.audio_bitrate {
        Some(b) => b,
        None => 128_000,
    };

    let mut args: Vec<String> = Vec::new();
    push_pair(&mut args, "-v", "error");
    push_pair(&mut args, "-analyzeduration", "1000000");
    push_pair(&mut args, "-probesize", "1000000");
    assert(texts(args@) =~= TranscodeParams::preamble());
    push_args(&mut args, accel.decode_input_args(source_codec, t.hdr, t.vpp_tonemap));
    push_hls_source(&mut args, params);
    push_pair(&mut args, "-avoid_negative_ts", "disabled");
    push_pair(&mut args, "-max_muxing_queue_size", "2048");
    push_hls_mapping(&mut args, params, accel, &t, codec.as_str());
    push_hls_video(&mut args, params, accel, codec.as_str(), hevc_copy);
    push_audio(
        &mut args,
        audio_codec,
        borrowed(&params.source_audio_codec),
        Some(audio_bitrate),
        params.audio_channels,
        params.normalize_audio_loudness,
    );
    push_hls_output(&mut args, params, hevc_copy);
    args
}

// ---------------------------------------------------------------------------
// Progressive
// ---------------------------------------------------------------------------

impl ProgressiveTranscodeParams {
    pub open spec fn copies(&self) -> bool {
        copies_video(self.video_codec@, self.burn_subtitle, self.subtitle_stream_index)
    }

    pub open spec fn treatment<A: Accelerator>(&self, accel: A) -> Treatment {
        treatment(
            accel,
            self.source_video_range_type,
            self.enable_tonemapping,
            self.enable_vpp_tonemapping,
        )
    }

    pub open spec fn encoder<A: Accelerator>(&self, accel: A) -> Seq<char> {
        video_encoder(accel, self.copies())
    }

    /// The audio codec argument.
    pub open spec fn audio_encoder(&self) -> Seq<char> {
        let codec = self.audio_codec@;
        if codec == "libopus"@ || codec == "opus"@ {
            "libopus"@
        } else if codec == "mp3"@ {
            "libmp3lame"@
        } else {
            codec
        }
    }

    /// The container that is asked for; MP4 where the name is not known.
    pub open spec fn requested_format(&self) -> Seq<char> {
        let c = self.container@;
        if c == "ts"@ || c == "mpegts"@ {
            "mpegts"@
        } else if c == "webm"@ {
            "webm"@
        } else if c == "mkv"@ || c == "matroska"@ {
            "matroska"@
        } else {
            "mp4"@
        }
    }

    /// The container that is written: copied video goes in Matroska where MP4
    /// was asked for.
    pub open spec fn format<A: Accelerator>(&self, accel: A) -> Seq<char> {
        if self.encoder(accel) == "copy"@ && self.requested_format() == "mp4"@ {
            "matroska"@
        } else {
            self.requested_format()
        }
    }

    /// The scaling step, which only an encoded picture has.
    pub open spec fn scale<A: Accelerator>(&self, accel: A) -> Option<Seq<char>> {
        if self.encoder(accel) == "copy"@ {
            None
        } else {
            encode_scale(self.treatment(accel), self.max_width, self.max_height)
        }
    }

    pub open spec fn filter<A: Accelerator>(&self, accel: A) -> Option<Seq<char>> {
        let t = self.treatment(accel);
        if self.encoder(accel) == "copy"@ {
            None
        } else {
            encode_filter(
                t,
                self.scale(accel),
                accel.suffix(t.hdr, t.vpp_tonemap),
                self.tonemapping_algorithm@,
                self.tonemapping_desat@,
                self.tonemapping_peak@,
            )
        }
    }

    /// The filters, and the streams that are taken.
    pub open spec fn mapping<A: Accelerator>(&self, accel: A) -> Seq<Seq<char>> {
        let t = self.treatment(accel);
        if self.burn_subtitle {
            match self.subtitle_stream_index {
                Some(sub) => seq![
                    "-filter_complex"@,
                    burn_filter(
                        t,
                        sub as int,
                        self.max_width,
                        self.max_height,
                        self.scale(accel),
                        accel.suffix(t.hdr, t.vpp_tonemap),
                        self.tonemapping_algorithm@,
                        self.tonemapping_desat@,
                        self.tonemapping_peak@,
                    ),
                ] + seq!["-map"@, "[v]"@] + audio_map(self.audio_stream_index),
                None => seq![],
            }
        } else {
            match self.filter(accel) {
                Some(f) => seq!["-vf"@, f],
                None => if self.audio_stream_index is Some || self.subtitle_stream_index is Some {
                    seq!["-map"@, "0:v:0"@] + audio_map(self.audio_stream_index) + (
                    match self.subtitle_stream_index {
                        Some(sub) if sub >= 0 => seq!["-map"@, "0:"@ + dec_int(sub as int) + "?"@],
                        _ => seq![],
                    })
                } else {
                    seq![]
                },
            }
        }
    }

    pub open spec fn video_args<A: Accelerator>(&self, accel: A) -> Seq<Seq<char>> {
        let codec = self.encoder(accel);
        seq!["-c:v"@, codec] + if codec == "copy"@ {
            if hevc_source(text_opt(self.source_video_codec)) {
                seq!["-tag:v"@, "hvc1"@]
            } else {
                seq![]
            }
        } else if accel.hardware() {
            hw_bitrate_args(self.video_bitrate)
        } else {
            x264_args(self.h264_crf, self.encoding_preset, false, self.video_bitrate)
        }
    }

    /// What comes before the accelerator's own arguments.
    pub open spec fn preamble() -> Seq<Seq<char>> {
        seq!["-v"@, "error"@] + seq!["-analyzeduration"@, "5000000"@] + seq![
            "-probesize"@,
            "5000000"@,
        ] + seq!["-reconnect"@, "1"@] + seq!["-reconnect_at_eof"@, "1"@] + seq![
            "-reconnect_streamed"@,
            "1"@,
        ] + seq!["-reconnect_delay_max"@, "5"@]
    }

    /// The container, written to standard output.
    pub open spec fn output_args<A: Accelerator>(&self, accel: A) -> Seq<Seq<char>> {
        seq!["-strict"@, "unofficial"@] + (if self.format(accel) == "mp4"@ {
            seq!["-movflags"@, "frag_keyframe+empty_moov+default_base_moof"@]
        } else {
            seq![]
        }) + seq!["-f"@, self.format(accel)] + seq!["pipe:1"@]
    }

    /// The whole command line.
    pub open spec fn progressive_args<A: Accelerator>(&self, accel: A) -> Seq<Seq<char>> {
        let t = self.treatment(accel);
        Self::preamble() + accel.input_args(
            text_opt(self.source_video_codec),
            t.hdr,
            t.vpp_tonemap,
        ) + seek_args(self.start_time_ticks) + seq!["-i"@, self.input_url@] + self.mapping(accel)
            + self.video_args(accel) + audio_args(
            self.audio_encoder(),
            text_opt(self.source_audio_codec),
            self.audio_bitrate,
            self.audio_channels,
            self.normalize_audio_loudness,
        ) + self.output_args(accel)
    }

    /// Twice the bitrate is a number that the encoder's buffer size can be.
    pub open spec fn buffer_fits<A: Accelerator>(&self, accel: A) -> bool {
        !self.copies() && !accel.hardware() ==> (self.video_bitrate matches Some(b) ==> b * 2
            <= u32::MAX)
    }
}

fn push_progressive_mapping<A: Accelerator>(
    args: &mut Vec<String>,
    params: &ProgressiveTranscodeParams,
    accel: &A,
    t: &Treatment,
    codec: &str,
)
    requires
        *t == params.treatment(*accel),
        codec@ == params.encoder(*accel),
    ensures
        texts(final(args)@) == texts(old(args)@) + params.mapping(*accel),
{
    let suffix = accel.hw_filter_suffix(t.hdr, t.vpp_tonemap);
    let copies = same_text(codec, "copy");
    let scale = if copies {
        None
    } else {
        build_encode_scale(t, params.max_width, params.max_height)
    };
    assert(text_opt(scale) == params.scale(*accel));
    if params.burn_subtitle {
        if let Some(sub) = params.subtitle_stream_index {
            let filter = build_burn_filter(
                t,
                sub,
                params.max_width,
                params.max_height,
                borrowed(&scale),
                borrowed(&suffix),
                params.tonemapping_algorithm.as_str(),
                params.tonemapping_desat.as_str(),
                params.tonemapping_peak.as_str(),
            );
            push_pair(args, "-filter_complex", filter.as_str());
            push_pair(args, "-map", "[v]");
            push_audio_map(args, params.audio_stream_index);
        }
    } else {
        let filter = if copies {
            None
        } else {
            build_encode_filter(
                t,
                borrowed(&scale),
                borrowed(&suffix),
                params.tonemapping_algorithm.as_str(),
                params.tonemapping_desat.as_str(),
                params.tonemapping_peak.as_str(),
            )
        };
        assert(text_opt(filter) == params.filter(*accel));
        if let Some(f) = filter {
            push_pair(args, "-vf", f.as_str());
        } else if params.audio_stream_index.is_some() || params.subtitle_stream_index.is_some() {
            push_pair(args, "-map", "0:v:0");
            push_audio_map(args, params.audio_stream_index);
            if let Some(sub) = params.subtitle_stream_index {
                if sub >= 0 {
                    let map = concat3("0:", dec_int_text(sub as i64).as_str(), "?");
                    push_pair(args, "-map", map.as_str());
                }
            }
        }
    }
    assert(texts(args@) =~= texts(old(args)@) + params.mapping(*accel));
}

fn push_progressive_video<A: Accelerator>(
    args: &mut Vec<String>,
    params: &ProgressiveTranscodeParams,
    accel: &A,
    codec: &str,
)
    requires
        codec@ == params.encoder(*accel),
        params.buffer_fits(*accel),
    ensures
        texts(final(args)@) == texts(old(args)@) + params.video_args(*accel),
{
    push_pair(args, "-c:v", codec);
    if same_text(codec, "copy") {
        if is_hevc(borrowed(&params.source_video_codec)) {
            push_pair(args, "-tag:v", "hvc1");
        }
    } else if accel.is_hw() {
        push_hw_bitrate(args, params.video_bitrate);
    } else {
        push_x264(args, params.h264_crf, params.encoding_preset, false, params.video_bitrate);
    }
    assert(texts(args@) =~= texts(old(args)@) + params.video_args(*accel));
}

fn requested_format(params: &ProgressiveTranscodeParams) -> (r: &'static str)
    ensures
        r@ == params.requested_format(),
{
    let c = params.container.as_str();
    if same_text(c, "ts") || same_text(c, "mpegts") {
        "mpegts"
    } else if same_text(c, "webm") {
        "webm"
    } else if same_text(c, "mkv") || same_text(c, "matroska") {
        "matroska"
    } else {
        "mp4"
    }
}

fn progressive_audio_encoder(params: &ProgressiveTranscodeParams) -> (r: String)
    ensures
        r@ == params.audio_encoder(),
{
    let codec = params.audio_codec.as_str();
    if same_text(codec, "libopus") || same_text(codec, "opus") {
        "libopus".to_owned()
    } else if same_text(codec, "mp3") {
        "libmp3lame".to_owned()
    } else {
        codec.to_owned()
    }
}

/// The arguments of a progressive transcode.
pub fn build_progressive_args<A: Accelerator>(
    params: &ProgressiveTranscodeParams,
    accel: &A,
) -> (args: Vec<String>)
    requires
        params.buffer_fits(*accel),
    ensures
        texts(args@) == params.progressive_args(*accel),
{
    let t = choose_treatment(
        accel,
        params.source_video_range_type,
        params.enable_tonemapping,
        params.enable_vpp_tonemapping,
    );
    let codec = video_encoder_name(
        accel,
        params.video_codec.as_str(),
        params.burn_subtitle,
        params.subtitle_stream_index,
    );
    let audio_codec = progressive_audio_encoder(params);
    let requested = requested_format(params);
    let format = if same_text(codec.as_str(), "copy") && same_text(requested, "mp4") {
        "matroska"
    } else {
        requested
    };
    assert(format@ == params.format(*accel));

    let mut args: Vec<String> = Vec::new();
    push_pair(&mut args, "-v", "error");
    push_pair(&mut args, "-analyzeduration", "5000000");
    push_pair(&mut args, "-probesize", "5000000");
    push_pair(&mut args, "-reconnect", "1");
    push_pair(&mut args, "-reconnect_at_eof", "1");
    push_pair(&mut args, "-reconnect_streamed", "1");
    push_pair(&mut args, "-reconnect_delay_max", "5");
    assert(texts(args@) =~= ProgressiveTranscodeParams::preamble());
    push_args(
        &mut args,
        accel.decode_input_args(borrowed(&params.source_video_codec), t.hdr, t.vpp_tonemap),
    );
    push_seek(&mut args, params.start_time_ticks);
    push_pair(&mut args, "-i", params.input_url.as_str());
    push_progressive_mapping(&mut args, params, accel, &t, codec.as_str());
    push_progressive_video(&mut args, params, accel, codec.as_str());
    push_audio(
        &mut args,
        audio_codec.as_str(),
        borrowed(&params.source_audio_codec),
        params.audio_bitrate,
        params.audio_channels,
        params.normalize_audio_loudness,
    );
    let ghost before = texts(args@);
    push_pair(&mut args, "-strict", "unofficial");
    if same_text(format, "mp4") {
        push_pair(&mut args, "-movflags", "frag_keyframe+empty_moov+default_base_moof");
    }
    push_pair(&mut args, "-f", format);
    push_arg(&mut args, "pipe:1");
    assert(texts(args@) =~= before + params.output_args(*accel));
    args
}

// ---------------------------------------------------------------------------
// Laws
// ---------------------------------------------------------------------------

/// A transcode writes its segments under the names by which its session looks
/// for them, unless a subtitle is burnt in.
pub proof fn law_segments_are_found<A: Accelerator>(
    params: TranscodeParams,
    session: TranscodeSession,
    accel: A,
)
    requires
        params.output_dir@ == session.output_dir@,
        params.video_codec@ == session.video_codec@,
        text_opt(params.source_video_codec) == text_opt(session.source_video_codec),
        !params.burn_subtitle,
        accel.encoder("libx264"@) != "copy"@,
    ensures
        params.hevc_copy(accel) == session.fmp4(),
        ({
            let args = params.output_args(params.hevc_copy(accel));
            &&& args[6] == "-hls_segment_filename"@
            &&& args[7] == in_dir(session.output_dir@, "segment_%05d."@ + session.segment_ext())
            &&& args.last() == in_dir(session.output_dir@, "main.m3u8"@)
        }),
{
    reveal_strlit("copy");
    reveal_strlit("libx264");
    assert("copy"@.len() != "libx264"@.len());
    reveal_strlit("segment_%05d.");
    reveal_strlit("segment_%05d.m4s");
    reveal_strlit("segment_%05d.ts");
    reveal_strlit("m4s");
    reveal_strlit("ts");
    assert("segment_%05d."@ + "m4s"@ =~= "segment_%05d.m4s"@);
    assert("segment_%05d."@ + "ts"@ =~= "segment_%05d.ts"@);
}

/// What a transcode reads follows the options for reading it: a recording is
/// sought in before it is opened, and a live source never.
pub proof fn law_input_follows_its_options<A: Accelerator>(params: TranscodeParams, accel: A)
    ensures
        ({
            let t = params.treatment(accel);
            let head = TranscodeParams::preamble() + accel.input_args(
                text_opt(params.source_video_codec),
                t.hdr,
                t.vpp_tonemap,
            );
            let n = head.len() as int;
            let m = n + params.source_args().len();
            let args = params.hls_args(accel);
            &&& m <= args.len()
            &&& args.subrange(0, n) == head
            &&& args[m - 2] == "-i"@
            &&& args[m - 1] == params.input_url@
            &&& !params.is_live && params.start_time_ticks is Some ==> args[n] == "-ss"@ && args[n
                + 1] == seconds_chars(params.start_time_ticks->Some_0 as int)
            &&& params.is_live ==> !params.source_args().take(m - n - 2).contains("-ss"@)
        }),
{
    let t = params.treatment(accel);
    let head = TranscodeParams::preamble() + accel.input_args(
        text_opt(params.source_video_codec),
        t.hdr,
        t.vpp_tonemap,
    );
    let args = params.hls_args(accel);
    let n = head.len() as int;
    let source = params.source_args();
    let m = n + source.len();
    let rest = args.skip(m);
    assert(args =~= head + source + rest);
    assert(args.subrange(0, n) =~= head);
    assert(forall|i: int| 0 <= i < source.len() ==> args[n + i] == source[i]);
    assert(source[source.len() - 2] == "-i"@);
    assert(source[source.len() - 1] == params.input_url@);
    if params.is_live {
        reveal_strlit("-ss");
        reveal_strlit("-rtsp_transport");
        reveal_strlit("tcp");
        reveal_strlit("-timeout");
        reveal_strlit("5000000");
        reveal_strlit("-copyts");
        assert("-ss"@[0] != "tcp"@[0]);
        let before = source.take(m - n - 2);
        assert forall|i: int| 0 <= i < before.len() implies before[i] != "-ss"@ by {
            assert(before[i] == source[i]);
        }
    }
}

/// The stream that a viewer chose is the one that is taken: wherever streams are
/// named at all, because a subtitle is burnt in or the picture is not filtered, the
/// chosen audio stream is named by its number, and the audio is not left to the
/// transcoder.
pub proof fn law_chosen_audio_is_taken<A: Accelerator>(params: TranscodeParams, accel: A, i: i32)
    requires
        params.audio_stream_index == Some(i),
        params.burn_subtitle ==> params.subtitle_stream_index is Some,
        !params.burn_subtitle ==> params.filter(accel) is None,
    ensures
        has_pair(params.hls_args(accel), "-map"@, "0:"@ + dec_int(i as int)),
        ({
            let t = params.treatment(accel);
            !has_pair(
                accel.input_args(text_opt(params.source_video_codec), t.hdr, t.vpp_tonemap),
                "-map"@,
                "0:a?"@,
            )
        }) ==> !has_pair(params.hls_args(accel), "-map"@, "0:a?"@),
{
    broadcast use {lemma_pair_of_sum, lemma_pair_itself};
    lemma_map_is_no_flag();
    lemma_chosen_is_not_any(i as int);
    let a = "-map"@;
    let b = "0:a?"@;
    let t = params.treatment(accel);
    let input = accel.input_args(text_opt(params.source_video_codec), t.hdr, t.vpp_tonemap);
    let x0 = TranscodeParams::preamble();
    let x1 = x0 + input;
    let x2 = x1 + params.source_args();
    let x3 = x2 + seq!["-avoid_negative_ts"@, "disabled"@];
    let x4 = x3 + seq!["-max_muxing_queue_size"@, "2048"@];
    let x5 = x4 + params.mapping(accel);
    let x6 = x5 + params.video_args(accel);
    let audio = audio_args(
        params.audio_encoder(),
        text_opt(params.source_audio_codec),
        Some(params.encoded_audio_bitrate()),
        params.audio_channels,
        params.normalize_audio_loudness,
    );
    let x7 = x6 + audio;
    let output = params.output_args(params.hevc_copy(accel));
    if !has_pair(input, a, b) {
        lemma_apart_preamble(a, b);
        lemma_apart(x0, input, a, b);
        lemma_apart_source(params);
        assert(params.source_args()[0] != b);
        lemma_apart(x1, params.source_args(), a, b);
        lemma_apart(x2, seq!["-avoid_negative_ts"@, "disabled"@], a, b);
        lemma_apart(x3, seq!["-max_muxing_queue_size"@, "2048"@], a, b);
        assert(!has_pair(params.mapping(accel), a, b) && params.mapping(accel)[0] != b) by {
            let chosen = seq!["-map"@, "0:"@ + dec_int(i as int)];
            if params.burn_subtitle {
                let f = params.mapping(accel)[1];
                let m = seq!["-filter_complex"@, f] + seq!["-map"@, "[v]"@];
                lemma_apart(seq!["-filter_complex"@, f], seq!["-map"@, "[v]"@], a, b);
                lemma_apart(m, chosen, a, b);
                assert(params.mapping(accel) =~= m + chosen);
            } else {
                lemma_apart(seq!["-map"@, "0:v:0"@], chosen, a, b);
                assert(params.mapping(accel) =~= seq!["-map"@, "0:v:0"@] + chosen);
            }
        }
        lemma_apart(x4, params.mapping(accel), a, b);
        lemma_apart_video(params, accel);
        lemma_apart(x5, params.video_args(accel), a, b);
        lemma_apart_audio(
            params.audio_encoder(),
            text_opt(params.source_audio_codec),
            Some(params.encoded_audio_bitrate()),
            params.audio_channels,
            params.normalize_audio_loudness,
        );
        lemma_apart(x6, audio, a, b);
        lemma_apart_output(params, params.hevc_copy(accel));
        lemma_apart(x7, output, a, b);
        assert(params.hls_args(accel) == x7 + output);
    }
}

/// Two lists without a pair have none together, unless it stands across the two.
proof fn lemma_apart(x: Seq<Seq<char>>, y: Seq<Seq<char>>, a: Seq<char>, b: Seq<char>)
    requires
        !has_pair(x, a, b),
        !has_pair(y, a, b),
        y.len() > 0 ==> y[0] != b || (x.len() > 0 ==> x.last() != a),
    ensures
        !has_pair(x + y, a, b),
{
    let z = x + y;
    if has_pair(z, a, b) {
        let i = choose|i: int| 0 <= i < z.len() - 1 && #[trigger] z[i] == a && z[i + 1] == b;
        if i + 1 < x.len() {
            assert(x[i] == a && x[i + 1] == b);
        } else if i >= x.len() {
            assert(y[i - x.len()] == a && y[i - x.len() + 1] == b);
        } else {
            assert(x.last() == a && y[0] == b);
        }
    }
}

proof fn lemma_apart_preamble(a: Seq<char>, b: Seq<char>)
    requires
        a == "-map"@,
        b == "0:a?"@,
    ensures
        !has_pair(TranscodeParams::preamble(), a, b),
{
    lemma_map_is_no_flag();
    lemma_apart(seq!["-v"@, "error"@], seq!["-analyzeduration"@, "1000000"@], a, b);
    lemma_apart(
        seq!["-v"@, "error"@] + seq!["-analyzeduration"@, "1000000"@],
        seq!["-probesize"@, "1000000"@],
        a,
        b,
    );
}

proof fn lemma_apart_source(params: TranscodeParams)
    ensures
        !has_pair(params.source_args(), "-map"@, "0:a?"@),
        params.source_args().len() > 0,
        params.source_args()[0] != "0:a?"@,
{
    let a = "-map"@;
    let b = "0:a?"@;
    lemma_map_is_no_flag();
    let seek = if params.is_live {
        seq![]
    } else {
        seek_args(params.start_time_ticks)
    };
    let rtsp = if params.is_live && begins(params.input_url@, "rtsp://"@) {
        seq!["-rtsp_transport"@, "tcp"@] + seq!["-timeout"@, "5000000"@]
    } else {
        seq![]
    };
    lemma_apart(seq!["-rtsp_transport"@, "tcp"@], seq!["-timeout"@, "5000000"@], a, b);
    assert(!has_pair(seek, a, b));
    assert(!has_pair(rtsp, a, b));
    lemma_apart(seek, rtsp, a, b);
    lemma_apart(seek + rtsp, seq!["-copyts"@], a, b);
    lemma_apart(seek + rtsp + seq!["-copyts"@], seq!["-i"@, params.input_url@], a, b);
    assert(params.source_args() =~= seek + rtsp + seq!["-copyts"@] + seq!["-i"@, params.input_url@]);
}

proof fn lemma_apart_x264(
    crf: u32,
    preset: Option<EncodingPreset>,
    zerolatency: bool,
    bitrate: Option<u32>,
)
    ensures
        !has_pair(x264_args(crf, preset, zerolatency, bitrate), "-map"@, "0:a?"@),
        x264_args(crf, preset, zerolatency, bitrate).len() > 0,
        x264_args(crf, preset, zerolatency, bitrate)[0] == "-profile:v"@,
{
    let a = "-map"@;
    let b = "0:a?"@;
    lemma_map_is_no_flag();
    let x0 = seq!["-profile:v"@, "high"@];
    let x1 = x0 + seq!["-pix_fmt"@, "yuv420p"@];
    let x2 = x1 + seq!["-crf"@, dec(crf as nat)];
    let x3 = x2 + seq!["-preset"@, preset_spec(preset)];
    lemma_apart(x0, seq!["-pix_fmt"@, "yuv420p"@], a, b);
    lemma_apart(x1, seq!["-crf"@, dec(crf as nat)], a, b);
    lemma_apart(x2, seq!["-preset"@, preset_spec(preset)], a, b);
    let tune = if zerolatency {
        seq!["-tune"@, "zerolatency"@]
    } else {
        seq![]
    };
    lemma_apart(x3, tune, a, b);
    let x4 = x3 + tune;
    let rate = match bitrate {
        Some(r) => seq!["-maxrate"@, dec(r as nat)] + seq!["-bufsize"@, dec((r * 2) as nat)],
        None => seq![],
    };
    if let Some(r) = bitrate {
        lemma_apart(seq!["-maxrate"@, dec(r as nat)], seq!["-bufsize"@, dec((r * 2) as nat)], a, b);
    }
    lemma_apart(x4, rate, a, b);
    assert(x264_args(crf, preset, zerolatency, bitrate) =~= x4 + rate);
}

proof fn lemma_apart_video<A: Accelerator>(params: TranscodeParams, accel: A)
    ensures
        !has_pair(params.video_args(accel), "-map"@, "0:a?"@),
        params.video_args(accel).len() > 0,
        params.video_args(accel)[0] != "0:a?"@,
{
    let a = "-map"@;
    let b = "0:a?"@;
    lemma_map_is_no_flag();
    let codec = params.encoder(accel);
    let head = seq!["-c:v"@, codec];
    let rest = params.video_args(accel).skip(2);
    assert(params.video_args(accel) =~= head + rest);
    if codec == "copy"@ {
        lemma_apart(seq!["-tag:v"@, "hvc1"@], seq!["-bsf:v"@, "dovi_rpu=strip=1"@], a, b);
        if params.hevc_copy(accel) {
            if dovi_source(params.source_video_range_type) {
                assert(rest =~= seq!["-tag:v"@, "hvc1"@] + seq!["-bsf:v"@, "dovi_rpu=strip=1"@]);
            } else {
                assert(rest =~= seq!["-tag:v"@, "hvc1"@]);
            }
        } else {
            assert(rest =~= seq![]);
        }
    } else if accel.hardware() {
        assert(rest =~= hw_bitrate_args(params.video_bitrate));
    } else {
        lemma_apart_x264(params.h264_crf, params.encoding_preset, true, params.video_bitrate);
        assert(rest =~= x264_args(
            params.h264_crf,
            params.encoding_preset,
            true,
            params.video_bitrate,
        ));
    }
    lemma_apart(head, rest, a, b);
}

proof fn lemma_apart_audio(
    codec: Seq<char>,
    source: Option<Seq<char>>,
    bitrate: Option<u32>,
    channels: Option<u32>,
    normalize: bool,
)
    ensures
        !has_pair(audio_args(codec, source, bitrate, channels, normalize), "-map"@, "0:a?"@),
        audio_args(codec, source, bitrate, channels, normalize).len() > 0,
        audio_args(codec, source, bitrate, channels, normalize)[0] != "0:a?"@,
{
    let a = "-map"@;
    let b = "0:a?"@;
    lemma_map_is_no_flag();
    let head = seq!["-c:a"@, codec];
    let all = audio_args(codec, source, bitrate, channels, normalize);
    if codec == "copy"@ {
        let rest = if adts_source(source) {
            seq!["-bsf:a"@, "aac_adtstoasc"@]
        } else {
            seq![]
        };
        lemma_apart(head, rest, a, b);
        assert(all =~= head + rest);
    } else {
        let x = match bitrate {
            Some(n) => seq!["-b:a"@, dec(n as nat)],
            None => seq![],
        };
        let y = match channels {
            Some(n) => seq!["-ac"@, dec(n as nat)],
            None => seq![],
        };
        let z = if normalize {
            seq!["-af"@, "loudnorm=I=-14:TP=-1:LRA=11"@]
        } else {
            seq![]
        };
        lemma_apart(x, y, a, b);
        lemma_apart(x + y, z, a, b);
        lemma_apart(head, x + y + z, a, b);
        assert(all =~= head + (x + y + z));
    }
}

proof fn lemma_apart_output(params: TranscodeParams, fmp4: bool)
    ensures
        !has_pair(params.output_args(fmp4), "-map"@, "0:a?"@),
        params.output_args(fmp4).len() > 0,
        params.output_args(fmp4)[0] != "0:a?"@,
{
    let a = "-map"@;
    let b = "0:a?"@;
    lemma_map_is_no_flag();
    let name = params.output_args(fmp4)[7];
    let last = in_dir(params.output_dir@, "main.m3u8"@);
    let x0 = seq!["-f"@, "hls"@];
    let x1 = x0 + seq!["-hls_time"@, dec(params.segment_length as nat)];
    let x2 = x1 + seq!["-start_number"@, dec(params.start_number())];
    let x3 = x2 + seq!["-hls_segment_filename"@, name];
    let x4 = x3 + seq!["-hls_playlist_type"@, "event"@];
    let x5 = x4 + seq!["-hls_list_size"@, "0"@];
    lemma_apart(x0, seq!["-hls_time"@, dec(params.segment_length as nat)], a, b);
    lemma_apart(x1, seq!["-start_number"@, dec(params.start_number())], a, b);
    lemma_apart(x2, seq!["-hls_segment_filename"@, name], a, b);
    lemma_apart(x3, seq!["-hls_playlist_type"@, "event"@], a, b);
    lemma_apart(x4, seq!["-hls_list_size"@, "0"@], a, b);
    let y0 = seq!["-hls_segment_type"@, "fmp4"@];
    let y1 = y0 + seq!["-hls_fmp4_init_filename"@, "init.mp4"@];
    let y2 = y1 + seq!["-start_at_zero"@];
    let y3 = y2 + seq!["-hls_segment_options"@, "movflags=+frag_discont"@];
    lemma_apart(y0, seq!["-hls_fmp4_init_filename"@, "init.mp4"@], a, b);
    lemma_apart(y1, seq!["-start_at_zero"@], a, b);
    lemma_apart(y2, seq!["-hls_segment_options"@, "movflags=+frag_discont"@], a, b);
    let y = if fmp4 {
        y3
    } else {
        seq![]
    };
    lemma_apart(x5, y, a, b);
    assert(last.last() == '8') by {
        reveal_strlit("main.m3u8");
    }
    assert("0:a?"@.last() == '?') by {
        reveal_strlit("0:a?");
    }
    lemma_apart(x5 + y, seq![last], a, b);
    assert(params.output_args(fmp4) =~= x5 + y + seq![last]);
}

/// The number of a stream is not a wish for any audio.
proof fn lemma_chosen_is_not_any(i: int)
    ensures
        "0:"@ + dec_int(i) != "0:a?"@,
{
    reveal_strlit("0:");
    reveal_strlit("0:a?");
    crate::text::lemma_dec_int_chars(i);
    let s = "0:"@ + dec_int(i);
    if s == "0:a?"@ {
        assert("0:"@.len() == 2 && s.len() == 4);
        assert(s[3] == dec_int(i)[1]);
        assert(s[3] == '?');
    }
}

/// None of the other options is `-map`, and none of them looks like a stream.
proof fn lemma_map_is_no_flag()
    ensures
        "0:a?"@.len() == 4,
        "0:a?"@[0] == '0',
        "-map"@ != "0:a?"@,
        "1000000"@ != "-map"@,
        "[v]"@ != "0:a?"@,
        "0:v:0"@ != "0:a?"@,
        "-v"@ != "-map"@ && "-v"@ != "0:a?"@,
        "-analyzeduration"@ != "-map"@ && "-analyzeduration"@ != "0:a?"@,
        "-probesize"@ != "-map"@ && "-probesize"@ != "0:a?"@,
        "-ss"@ != "-map"@ && "-ss"@ != "0:a?"@,
        "-rtsp_transport"@ != "-map"@ && "-rtsp_transport"@ != "0:a?"@,
        "-timeout"@ != "-map"@ && "-timeout"@ != "0:a?"@,
        "-copyts"@ != "-map"@ && "-copyts"@ != "0:a?"@,
        "-i"@ != "-map"@ && "-i"@ != "0:a?"@,
        "-avoid_negative_ts"@ != "-map"@ && "-avoid_negative_ts"@ != "0:a?"@,
        "-max_muxing_queue_size"@ != "-map"@ && "-max_muxing_queue_size"@ != "0:a?"@,
        "-filter_complex"@ != "-map"@ && "-filter_complex"@ != "0:a?"@,
        "-c:v"@ != "-map"@ && "-c:v"@ != "0:a?"@,
        "-tag:v"@ != "-map"@ && "-tag:v"@ != "0:a?"@,
        "-bsf:v"@ != "-map"@ && "-bsf:v"@ != "0:a?"@,
        "-b:v"@ != "-map"@ && "-b:v"@ != "0:a?"@,
        "-profile:v"@ != "-map"@ && "-profile:v"@ != "0:a?"@,
        "-pix_fmt"@ != "-map"@ && "-pix_fmt"@ != "0:a?"@,
        "-crf"@ != "-map"@ && "-crf"@ != "0:a?"@,
        "-preset"@ != "-map"@ && "-preset"@ != "0:a?"@,
        "-tune"@ != "-map"@ && "-tune"@ != "0:a?"@,
        "-maxrate"@ != "-map"@ && "-maxrate"@ != "0:a?"@,
        "-bufsize"@ != "-map"@ && "-bufsize"@ != "0:a?"@,
        "-c:a"@ != "-map"@ && "-c:a"@ != "0:a?"@,
        "-bsf:a"@ != "-map"@ && "-bsf:a"@ != "0:a?"@,
        "-b:a"@ != "-map"@ && "-b:a"@ != "0:a?"@,
        "-ac"@ != "-map"@ && "-ac"@ != "0:a?"@,
        "-af"@ != "-map"@ && "-af"@ != "0:a?"@,
        "-f"@ != "-map"@ && "-f"@ != "0:a?"@,
        "-hls_time"@ != "-map"@ && "-hls_time"@ != "0:a?"@,
        "-start_number"@ != "-map"@ && "-start_number"@ != "0:a?"@,
        "-hls_segment_filename"@ != "-map"@ && "-hls_segment_filename"@ != "0:a?"@,
        "-hls_playlist_type"@ != "-map"@ && "-hls_playlist_type"@ != "0:a?"@,
        "-hls_list_size"@ != "-map"@ && "-hls_list_size"@ != "0:a?"@,
        "-hls_segment_type"@ != "-map"@ && "-hls_segment_type"@ != "0:a?"@,
        "-hls_fmp4_init_filename"@ != "-map"@ && "-hls_fmp4_init_filename"@ != "0:a?"@,
        "-start_at_zero"@ != "-map"@ && "-start_at_zero"@ != "0:a?"@,
        "-hls_segment_options"@ != "-map"@ && "-hls_segment_options"@ != "0:a?"@,
{
    reveal_strlit("-ac");
    reveal_strlit("-af");
    reveal_strlit("-analyzeduration");
    reveal_strlit("-avoid_negative_ts");
    reveal_strlit("-b:a");
    reveal_strlit("-b:v");
    reveal_strlit("-bsf:a");
    reveal_strlit("-bsf:v");
    reveal_strlit("-bufsize");
    reveal_strlit("-c:a");
    reveal_strlit("-c:v");
    reveal_strlit("-copyts");
    reveal_strlit("-crf");
    reveal_strlit("-f");
    reveal_strlit("-filter_complex");
    reveal_strlit("-hls_fmp4_init_filename");
    reveal_strlit("-hls_list_size");
    reveal_strlit("-hls_playlist_type");
    reveal_strlit("-hls_segment_filename");
    reveal_strlit("-hls_segment_options");
    reveal_strlit("-hls_segment_type");
    reveal_strlit("-hls_time");
    reveal_strlit("-i");
    reveal_strlit("-map");
    reveal_strlit("-max_muxing_queue_size");
    reveal_strlit("-maxrate");
    reveal_strlit("-pix_fmt");
    reveal_strlit("-preset");
    reveal_strlit("-probesize");
    reveal_strlit("-profile:v");
    reveal_strlit("-rtsp_transport");
    reveal_strlit("-ss");
    reveal_strlit("-start_at_zero");
    reveal_strlit("-start_number");
    reveal_strlit("-tag:v");
    reveal_strlit("-timeout");
    reveal_strlit("-tune");
    reveal_strlit("-v");
    reveal_strlit("0:a?");
    reveal_strlit("0:v:0");
    reveal_strlit("[v]");
    assert("0:a?"@[0] == '0');
    assert("-map"@[1] == 'm');
    assert("-b:a"@[1] != "-map"@[1] && "-b:a"@[0] != "0:a?"@[0]);
    assert("-b:v"@[1] != "-map"@[1] && "-b:v"@[0] != "0:a?"@[0]);
    assert("-c:a"@[1] != "-map"@[1] && "-c:a"@[0] != "0:a?"@[0]);
    assert("-c:v"@[1] != "-map"@[1] && "-c:v"@[0] != "0:a?"@[0]);
    assert("-crf"@[1] != "-map"@[1] && "-crf"@[0] != "0:a?"@[0]);
    assert("-map"@[0] != "0:a?"@[0]);
    assert("-ac"@.len() == 3);
    assert("-af"@.len() == 3);
    assert("-analyzeduration"@.len() == 16);
    assert("-avoid_negative_ts"@.len() == 18);
    assert("-b:a"@.len() == 4);
    assert("-b:v"@.len() == 4);
    assert("-bsf:a"@.len() == 6);
    assert("-bsf:v"@.len() == 6);
    assert("-bufsize"@.len() == 8);
    assert("-c:a"@.len() == 4);
    assert("-c:v"@.len() == 4);
    assert("-copyts"@.len() == 7);
    assert("-crf"@.len() == 4);
    assert("-f"@.len() == 2);
    assert("-filter_complex"@.len() == 15);
    assert("-hls_fmp4_init_filename"@.len() == 23);
    assert("-hls_list_size"@.len() == 14);
    assert("-hls_playlist_type"@.len() == 18);
    assert("-hls_segment_filename"@.len() == 21);
    assert("-hls_segment_options"@.len() == 20);
    assert("-hls_segment_type"@.len() == 17);
    assert("-hls_time"@.len() == 9);
    assert("-i"@.len() == 2);
    assert("-map"@.len() == 4);
    assert("-max_muxing_queue_size"@.len() == 22);
    assert("-maxrate"@.len() == 8);
    assert("-pix_fmt"@.len() == 8);
    assert("-preset"@.len() == 7);
    assert("-probesize"@.len() == 10);
    assert("-profile:v"@.len() == 10);
    assert("-rtsp_transport"@.len() == 15);
    assert("-ss"@.len() == 3);
    assert("-start_at_zero"@.len() == 14);
    assert("-start_number"@.len() == 13);
    assert("-tag:v"@.len() == 6);
    assert("-timeout"@.len() == 8);
    assert("-tune"@.len() == 5);
    assert("-v"@.len() == 2);
    assert("0:a?"@.len() == 4);
    assert("0:v:0"@.len() == 5);
    assert("[v]"@.len() == 3);
    reveal_strlit("1000000");
    assert("1000000"@.len() == 7);
}

/// What a transcode is told of what it reads and where it writes: the source, and
/// where in it to start, unless it is live; the length of the segments, the number of
/// the first one, and the directory for all files, with the playlist as the last
/// argument.
pub proof fn law_source_and_output_are_told<A: Accelerator>(params: TranscodeParams, accel: A)
    requires
        accel.encoder("libx264"@) != "copy"@,
    ensures
        ({
            let args = params.hls_args(accel);
            let copied = params.video_codec@ == "copy"@ && !(params.burn_subtitle
                && params.subtitle_stream_index is Some);
            let source = text_opt(params.source_video_codec);
            let hevc = source == Some("hevc"@) || source == Some("h265"@) || source == Some("hvc1"@)
                || source == Some("hev1"@);
            &&& has_pair(args, "-i"@, params.input_url@)
            &&& !params.is_live && params.start_time_ticks is Some ==> has_pair(
                args,
                "-ss"@,
                seconds_chars(params.start_time_ticks->Some_0 as int),
            )
            &&& params.is_live && begins(params.input_url@, "rtsp://"@) ==> has_pair(
                args,
                "-rtsp_transport"@,
                "tcp"@,
            )
            &&& has_pair(args, "-f"@, "hls"@)
            &&& has_pair(args, "-hls_time"@, dec(params.segment_length as nat))
            &&& params.start_time_ticks is None ==> has_pair(args, "-start_number"@, dec(0))
            &&& params.start_time_ticks is Some ==> has_pair(
                args,
                "-start_number"@,
                dec(
                    segment_at(
                        params.start_time_ticks->Some_0 as int,
                        params.segment_length as nat,
                    ),
                ),
            )
            &&& has_pair(args, "-hls_playlist_type"@, "event"@)
            &&& has_pair(args, "-hls_list_size"@, "0"@)
            &&& copied && hevc ==> {
                &&& has_pair(
                    args,
                    "-hls_segment_filename"@,
                    in_dir(params.output_dir@, "segment_%05d.m4s"@),
                )
                &&& has_pair(args, "-hls_segment_type"@, "fmp4"@)
                &&& has_pair(args, "-hls_fmp4_init_filename"@, "init.mp4"@)
            }
            &&& !(copied && hevc) ==> has_pair(
                args,
                "-hls_segment_filename"@,
                in_dir(params.output_dir@, "segment_%05d.ts"@),
            )
            &&& args.last() == in_dir(params.output_dir@, "main.m3u8"@)
            &&& has_pair(args, "-max_muxing_queue_size"@, "2048"@)
            &&& has_pair(args, "-avoid_negative_ts"@, "disabled"@)
        }),
{
    broadcast use {lemma_pair_of_sum, lemma_pair_itself};
    lemma_encoders();
}

/// What a transcode is told of the codecs: the picture is copied only where that was
/// asked for and no subtitle goes into it, and else encoded to H.264, in hardware
/// where there is any; the sound is copied where that was asked for and else encoded
/// to AAC, with the bitrate, the channels and the loudness that were asked for.
pub proof fn law_codecs_are_told<A: Accelerator>(params: TranscodeParams, accel: A)
    requires
        accel.encoder("libx264"@) != "copy"@,
    ensures
        ({
            let args = params.hls_args(accel);
            let copied = params.video_codec@ == "copy"@ && !(params.burn_subtitle
                && params.subtitle_stream_index is Some);
            let source = text_opt(params.source_video_codec);
            let hevc = source == Some("hevc"@) || source == Some("h265"@) || source == Some("hvc1"@)
                || source == Some("hev1"@);
            let sound_copied = params.audio_codec@ == "copy"@;
            &&& copied ==> has_pair(args, "-c:v"@, "copy"@)
            &&& copied && hevc ==> has_pair(args, "-tag:v"@, "hvc1"@)
            &&& copied && hevc && (params.source_video_range_type matches Some(r) && (r is Dovi
                || r is DoviWithHdr10 || r is DoviWithHlg || r is DoviWithSdr)) ==> has_pair(
                args,
                "-bsf:v"@,
                "dovi_rpu=strip=1"@,
            )
            &&& !copied && accel.hardware() ==> has_pair(args, "-c:v"@, accel.encoder("libx264"@))
            &&& !copied && accel.hardware() && params.video_bitrate is Some ==> has_pair(
                args,
                "-b:v"@,
                dec(params.video_bitrate->Some_0 as nat),
            )
            &&& !copied && !accel.hardware() ==> {
                &&& has_pair(args, "-c:v"@, "libx264"@)
                &&& has_pair(args, "-profile:v"@, "high"@)
                &&& has_pair(args, "-pix_fmt"@, "yuv420p"@)
                &&& has_pair(args, "-crf"@, dec(params.h264_crf as nat))
                &&& has_pair(args, "-preset"@, preset_spec(params.encoding_preset))
                &&& has_pair(args, "-tune"@, "zerolatency"@)
                &&& params.video_bitrate matches Some(b) ==> has_pair(
                    args,
                    "-maxrate"@,
                    dec(b as nat),
                ) && has_pair(args, "-bufsize"@, dec((b * 2) as nat))
            }
            &&& sound_copied ==> has_pair(args, "-c:a"@, "copy"@)
            &&& sound_copied && text_opt(params.source_audio_codec) == Some("aac"@) ==> has_pair(
                args,
                "-bsf:a"@,
                "aac_adtstoasc"@,
            )
            &&& !sound_copied ==> {
                &&& has_pair(args, "-c:a"@, "aac"@)
                &&& params.audio_bitrate matches Some(b) ==> has_pair(args, "-b:a"@, dec(b as nat))
                &&& params.audio_bitrate is None ==> has_pair(args, "-b:a"@, dec(128_000))
                &&& params.audio_channels matches Some(c) ==> has_pair(args, "-ac"@, dec(c as nat))
                &&& params.normalize_audio_loudness ==> has_pair(
                    args,
                    "-af"@,
                    "loudnorm=I=-14:TP=-1:LRA=11"@,
                )
            }
        }),
{
    broadcast use {lemma_pair_of_sum, lemma_pair_itself};
    lemma_encoders();
}

/// Nothing else is told: with the options above, and the accelerator's own, the
/// arguments are as many as these.
pub proof fn law_nothing_else_is_told<A: Accelerator>(params: TranscodeParams, accel: A)
    requires
        accel.encoder("libx264"@) != "copy"@,
    ensures
        ({
            let copied = params.video_codec@ == "copy"@ && !(params.burn_subtitle
                && params.subtitle_stream_index is Some);
            let source = text_opt(params.source_video_codec);
            let hevc = copied && (source == Some("hevc"@) || source == Some("h265"@) || source
                == Some("hvc1"@) || source == Some("hev1"@));
            let dovi = params.source_video_range_type matches Some(r) && (r is Dovi
                || r is DoviWithHdr10 || r is DoviWithHlg || r is DoviWithSdr);
            let t = params.treatment(accel);
            let own = accel.input_args(
                text_opt(params.source_video_codec),
                t.hdr,
                t.vpp_tonemap,
            ).len();
            let seek: nat = if !params.is_live && params.start_time_ticks is Some {
                2
            } else {
                0
            };
            let rtsp: nat = if params.is_live && begins(params.input_url@, "rtsp://"@) {
                4
            } else {
                0
            };
            let burnt = params.burn_subtitle && params.subtitle_stream_index is Some;
            let maps: nat = if burnt {
                6
            } else if params.burn_subtitle {
                0
            } else if params.filter(accel) is Some {
                2
            } else if params.audio_stream_index is Some {
                4
            } else {
                0
            };
            let video: nat = if hevc {
                if dovi {
                    6
                } else {
                    4
                }
            } else if copied {
                2
            } else if accel.hardware() {
                if params.video_bitrate is Some {
                    4
                } else {
                    2
                }
            } else if params.video_bitrate is Some {
                16
            } else {
                12
            };
            let sound: nat = if params.audio_codec@ == "copy"@ {
                if text_opt(params.source_audio_codec) == Some("aac"@) {
                    4
                } else {
                    2
                }
            } else {
                4 + (if params.audio_channels is Some {
                    2nat
                } else {
                    0
                }) + (if params.normalize_audio_loudness {
                    2nat
                } else {
                    0
                })
            };
            let output: nat = if hevc {
                20
            } else {
                13
            };
            params.hls_args(accel).len() == 6 + own + seek + rtsp + 3 + 4 + maps + video + sound
                + output
        }),
{
    lemma_encoders();
}

proof fn lemma_encoders()
    ensures
        "libx264"@ != "copy"@,
        "aac"@ != "copy"@,
        "libopus"@ != "copy"@,
        "libmp3lame"@ != "copy"@,
{
    reveal_strlit("copy");
    reveal_strlit("libx264");
    reveal_strlit("aac");
    reveal_strlit("libopus");
    reveal_strlit("libmp3lame");
    assert("copy"@.len() == 4);
}

/// What a progressive transcode is told: the source and where to start, the codecs
/// with what was asked of them, the chosen streams, and a container that can be
/// written as it comes.
pub proof fn law_progressive_is_told<A: Accelerator>(params: ProgressiveTranscodeParams, accel: A)
    requires
        accel.encoder("libx264"@) != "copy"@,
    ensures
        ({
            let args = params.progressive_args(accel);
            let copied = params.video_codec@ == "copy"@ && !(params.burn_subtitle
                && params.subtitle_stream_index is Some);
            let source = text_opt(params.source_video_codec);
            let hevc = source == Some("hevc"@) || source == Some("h265"@) || source == Some("hvc1"@)
                || source == Some("hev1"@);
            let c = params.container@;
            let sound = params.audio_codec@;
            &&& has_pair(args, "-i"@, params.input_url@)
            &&& params.start_time_ticks matches Some(t) ==> has_pair(
                args,
                "-ss"@,
                seconds_chars(t as int),
            )
            &&& has_pair(args, "-reconnect"@, "1"@)
            &&& has_pair(args, "-reconnect_streamed"@, "1"@)
            &&& copied ==> has_pair(args, "-c:v"@, "copy"@)
            &&& copied && hevc ==> has_pair(args, "-tag:v"@, "hvc1"@)
            &&& !copied && accel.hardware() ==> has_pair(args, "-c:v"@, accel.encoder("libx264"@))
            &&& !copied && accel.hardware() && params.video_bitrate is Some ==> has_pair(
                args,
                "-b:v"@,
                dec(params.video_bitrate->Some_0 as nat),
            )
            &&& !copied && !accel.hardware() ==> {
                &&& has_pair(args, "-c:v"@, "libx264"@)
                &&& has_pair(args, "-crf"@, dec(params.h264_crf as nat))
                &&& has_pair(args, "-pix_fmt"@, "yuv420p"@)
                &&& has_pair(args, "-preset"@, preset_spec(params.encoding_preset))
                &&& params.video_bitrate matches Some(b) ==> has_pair(
                    args,
                    "-maxrate"@,
                    dec(b as nat),
                ) && has_pair(args, "-bufsize"@, dec((b * 2) as nat))
            }
            &&& sound == "opus"@ || sound == "libopus"@ ==> has_pair(args, "-c:a"@, "libopus"@)
            &&& sound == "mp3"@ ==> has_pair(args, "-c:a"@, "libmp3lame"@)
            &&& sound == "aac"@ || sound == "copy"@ || sound == "flac"@ ==> has_pair(
                args,
                "-c:a"@,
                sound,
            )
            &&& sound != "copy"@ ==> {
                &&& params.audio_bitrate matches Some(b) ==> has_pair(args, "-b:a"@, dec(b as nat))
                &&& params.audio_channels matches Some(n) ==> has_pair(args, "-ac"@, dec(n as nat))
                &&& params.normalize_audio_loudness ==> has_pair(
                    args,
                    "-af"@,
                    "loudnorm=I=-14:TP=-1:LRA=11"@,
                )
            }
            &&& c == "ts"@ || c == "mpegts"@ ==> has_pair(args, "-f"@, "mpegts"@)
            &&& c == "webm"@ ==> has_pair(args, "-f"@, "webm"@)
            &&& c == "mkv"@ || c == "matroska"@ ==> has_pair(args, "-f"@, "matroska"@)
            &&& c == "mp4"@ && copied ==> has_pair(args, "-f"@, "matroska"@)
            &&& c == "mp4"@ && !copied ==> has_pair(args, "-f"@, "mp4"@) && has_pair(
                args,
                "-movflags"@,
                "frag_keyframe+empty_moov+default_base_moof"@,
            )
            &&& args.last() == "pipe:1"@
            &&& (params.burn_subtitle && params.subtitle_stream_index is Some
                && params.audio_stream_index is Some) ==> has_pair(
                args,
                "-map"@,
                "0:"@ + dec_int(params.audio_stream_index->Some_0 as int),
            )
            &&& (!params.burn_subtitle && params.filter(accel) is None
                && params.audio_stream_index is Some) ==> has_pair(
                args,
                "-map"@,
                "0:"@ + dec_int(params.audio_stream_index->Some_0 as int),
            )
            &&& (!params.burn_subtitle && params.filter(accel) is None && (
            params.subtitle_stream_index matches Some(n) && n >= 0)) ==> has_pair(
                args,
                "-map"@,
                "0:"@ + dec_int(params.subtitle_stream_index->Some_0 as int) + "?"@,
            )
        }),
{
    broadcast use {lemma_pair_of_sum, lemma_pair_itself};
    lemma_encoders();
    lemma_containers();
}

proof fn lemma_containers()
    ensures
        "ts"@.len() == 2,
        "mpegts"@.len() == 6,
        "webm"@.len() == 4,
        "mkv"@.len() == 3,
        "matroska"@.len() == 8,
        "mp4"@.len() == 3,
        "mkv"@ != "mp4"@,
        "mp3"@ != "aac"@,
        "opus"@.len() == 4,
        "copy"@.len() == 4,
        "flac"@.len() == 4,
        "opus"@ != "copy"@,
        "opus"@ != "flac"@,
        "flac"@ != "copy"@,
        "libopus"@.len() == 7,
        "mp3"@.len() == 3,
        "aac"@.len() == 3,
{
    reveal_strlit("ts");
    reveal_strlit("mpegts");
    reveal_strlit("webm");
    reveal_strlit("mkv");
    reveal_strlit("matroska");
    reveal_strlit("mp4");
    reveal_strlit("mp3");
    reveal_strlit("aac");
    reveal_strlit("opus");
    reveal_strlit("copy");
    reveal_strlit("flac");
    reveal_strlit("libopus");
    assert("mkv"@[1] != "mp4"@[1]);
    assert("mp3"@[0] != "aac"@[0]);
    assert("opus"@[0] != "copy"@[0]);
    assert("opus"@[0] != "flac"@[0]);
    assert("flac"@[0] != "copy"@[0]);
}

/// The same, told of a progressive transcode: nothing but the options above.
pub proof fn law_nothing_else_is_told_progressive<A: Accelerator>(
    params: ProgressiveTranscodeParams,
    accel: A,
)
    requires
        accel.encoder("libx264"@) != "copy"@,
    ensures
        ({
            let copied = params.video_codec@ == "copy"@ && !(params.burn_subtitle
                && params.subtitle_stream_index is Some);
            let source = text_opt(params.source_video_codec);
            let hevc = copied && (source == Some("hevc"@) || source == Some("h265"@) || source
                == Some("hvc1"@) || source == Some("hev1"@));
            let t = params.treatment(accel);
            let own = accel.input_args(
                text_opt(params.source_video_codec),
                t.hdr,
                t.vpp_tonemap,
            ).len();
            let seek: nat = if params.start_time_ticks is Some {
                2
            } else {
                0
            };
            let burnt = params.burn_subtitle && params.subtitle_stream_index is Some;
            let maps: nat = if burnt {
                6
            } else if params.burn_subtitle {
                0
            } else if params.filter(accel) is Some {
                2
            } else if params.subtitle_stream_index matches Some(n) && n >= 0 {
                6
            } else if params.audio_stream_index is Some || params.subtitle_stream_index is Some {
                4
            } else {
                0
            };
            let video: nat = if hevc {
                4
            } else if copied {
                2
            } else if accel.hardware() {
                if params.video_bitrate is Some {
                    4
                } else {
                    2
                }
            } else if params.video_bitrate is Some {
                14
            } else {
                10
            };
            let sound: nat = if params.audio_codec@ == "copy"@ {
                if text_opt(params.source_audio_codec) == Some("aac"@) {
                    4
                } else {
                    2
                }
            } else {
                2 + (if params.audio_bitrate is Some {
                    2nat
                } else {
                    0
                }) + (if params.audio_channels is Some {
                    2nat
                } else {
                    0
                }) + (if params.normalize_audio_loudness {
                    2nat
                } else {
                    0
                })
            };
            let output: nat = if params.format(accel) == "mp4"@ {
                7
            } else {
                5
            };
            params.progressive_args(accel).len() == 14 + own + seek + 2 + maps + video + sound
                + output
        }),
{
    lemma_encoders();
    lemma_containers();
}

/// An HDR source is brought to standard colours once: by the GPU where that is
/// enabled and it can, else by the CPU where that is enabled or the device wants it,
/// and never by both; a source of standard colours is left alone.
pub proof fn law_colours_are_treated_once<A: Accelerator>(
    accel: A,
    range: Option<VideoRangeType>,
    tonemapping: bool,
    vpp_tonemapping: bool,
)
    ensures
        ({
            let t = treatment(accel, range, tonemapping, vpp_tonemapping);
            let hdr = range == Some(VideoRangeType::Hdr10) || range == Some(
                VideoRangeType::Hdr10Plus,
            ) || range == Some(VideoRangeType::Hlg) || range == Some(VideoRangeType::Dovi) || range
                == Some(VideoRangeType::DoviWithHdr10)
                    || range == Some(VideoRangeType::DoviWithHlg);
            &&& t.hdr == hdr
            &&& !(t.vpp_tonemap && t.sw_tonemap)
            &&& !hdr ==> !t.vpp_tonemap && !t.sw_tonemap
            &&& hdr && vpp_tonemapping && accel.vpp_tonemap() ==> t.vpp_tonemap
            &&& hdr && tonemapping && !(vpp_tonemapping && accel.vpp_tonemap()) ==> t.sw_tonemap
            &&& hdr && !tonemapping && !vpp_tonemapping && !accel.wants_sw_tonemap()
                ==> !t.vpp_tonemap && !t.sw_tonemap
            &&& t.is_hw == accel.hardware()
        }),
{
}

/// A transcode tells only of errors and looks at no more of its input than it must; one
/// that is played as it is made looks at more, and takes its input up again where it
/// breaks off.
pub proof fn law_inputs_are_opened_carefully<A: Accelerator>(
    params: TranscodeParams,
    progressive: ProgressiveTranscodeParams,
    accel: A,
)
    ensures
        ({
            let args = params.hls_args(accel);
            &&& has_pair(args, "-v"@, "error"@)
            &&& has_pair(args, "-analyzeduration"@, "1000000"@)
            &&& has_pair(args, "-probesize"@, "1000000"@)
        }),
        ({
            let args = progressive.progressive_args(accel);
            &&& has_pair(args, "-v"@, "error"@)
            &&& has_pair(args, "-analyzeduration"@, "5000000"@)
            &&& has_pair(args, "-probesize"@, "5000000"@)
            &&& has_pair(args, "-reconnect"@, "1"@)
            &&& has_pair(args, "-reconnect_at_eof"@, "1"@)
            &&& has_pair(args, "-reconnect_streamed"@, "1"@)
            &&& has_pair(args, "-reconnect_delay_max"@, "5"@)
        }),
{
    broadcast use {lemma_pair_of_sum, lemma_pair_itself};

}

} // verus!
