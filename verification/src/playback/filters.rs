//! The transcoder's video filter graphs.

use vstd::prelude::*;

use super::hw_accel::HardwareAccelerationType;
use crate::text::{
    begins, concat2, concat3, dec, dec_int, dec_int_text, dec_text, ends, has, lemma_ends_of_sum,
    lemma_has_itself, lemma_has_of_sum, str_opt, text_opt,
};

verus! {

/// The scaling step: shrinks to the given bounds and never enlarges.
pub open spec fn scale_filter(width: Option<u32>, height: Option<u32>) -> Option<Seq<char>> {
    match (width, height) {
        (Some(w), Some(h)) => Some(
            "scale='min("@ + dec(w as nat) + ",iw)':'min("@ + dec(h as nat)
                + ",ih)':force_original_aspect_ratio=decrease"@,
        ),
        (Some(w), None) => Some("scale='min("@ + dec(w as nat) + ",iw)':-2"@),
        (None, Some(h)) => Some("scale=-2:'min("@ + dec(h as nat) + ",ih)'"@),
        (None, None) => None,
    }
}

pub fn build_scale_filter(max_width: Option<u32>, max_height: Option<u32>) -> (r: Option<String>)
    ensures
        text_opt(r) == scale_filter(max_width, max_height),
{
    match (max_width, max_height) {
        (Some(w), Some(h)) => {
            let mut s = concat2("scale='min(", dec_text(w as u64).as_str());
            s.append(",iw)':'min(");
            s.append(dec_text(h as u64).as_str());
            s.append(",ih)':force_original_aspect_ratio=decrease");
            Some(s)
        },
        (Some(w), None) => Some(concat3("scale='min(", dec_text(w as u64).as_str(), ",iw)':-2")),
        (None, Some(h)) => Some(concat3("scale=-2:'min(", dec_text(h as u64).as_str(), ",ih)'")),
        (None, None) => None,
    }
}

/// The scaling step for frames in VAAPI memory. It is there even without
/// bounds, to convert the pixel format.
pub open spec fn qsv_scale_filter(width: Option<u32>, height: Option<u32>) -> Seq<char> {
    match (width, height) {
        (Some(w), Some(h)) => "scale_vaapi=w='min("@ + dec(w as nat) + ",iw)':h='min("@ + dec(
            h as nat,
        ) + ",ih)':format=nv12:extra_hw_frames=24:force_original_aspect_ratio=decrease"@,
        (Some(w), None) => "scale_vaapi=w='min("@ + dec(w as nat)
            + ",iw)':h=-2:format=nv12:extra_hw_frames=24"@,
        (None, Some(h)) => "scale_vaapi=w=-2:h='min("@ + dec(h as nat)
            + ",ih)':format=nv12:extra_hw_frames=24"@,
        (None, None) => "scale_vaapi=format=nv12:extra_hw_frames=24"@,
    }
}

pub fn build_qsv_scale_filter(max_width: Option<u32>, max_height: Option<u32>) -> (r: String)
    ensures
        r@ == qsv_scale_filter(max_width, max_height),
{
    match (max_width, max_height) {
        (Some(w), Some(h)) => {
            let mut s = concat2("scale_vaapi=w='min(", dec_text(w as u64).as_str());
            s.append(",iw)':h='min(");
            s.append(dec_text(h as u64).as_str());
            s.append(",ih)':format=nv12:extra_hw_frames=24:force_original_aspect_ratio=decrease");
            s
        },
        (Some(w), None) => concat3(
            "scale_vaapi=w='min(",
            dec_text(w as u64).as_str(),
            ",iw)':h=-2:format=nv12:extra_hw_frames=24",
        ),
        (None, Some(h)) => concat3(
            "scale_vaapi=w=-2:h='min(",
            dec_text(h as u64).as_str(),
            ",ih)':format=nv12:extra_hw_frames=24",
        ),
        (None, None) => "scale_vaapi=format=nv12:extra_hw_frames=24".to_owned(),
    }
}

/// Tone-mapping on the CPU, with output in the pixel format `format`. The
/// coefficients are texts with one decimal.
pub open spec fn tonemapx(
    algorithm: Seq<char>,
    desat: Seq<char>,
    peak: Seq<char>,
    format: Seq<char>,
) -> Seq<char> {
    "tonemapx=tonemap="@ + algorithm + ":desat="@ + desat + ":peak="@ + peak
        + ":t=bt709:m=bt709:p=bt709:format="@ + format
}

fn tonemapx_text(algorithm: &str, desat: &str, peak: &str, format: &str) -> (r: String)
    ensures
        r@ == tonemapx(algorithm@, desat@, peak@, format@),
{
    let mut s = concat2("tonemapx=tonemap=", algorithm);
    s.append(":desat=");
    s.append(desat);
    s.append(":peak=");
    s.append(peak);
    s.append(":t=bt709:m=bt709:p=bt709:format=");
    s.append(format);
    s
}

/// One filter, or two in a row.
pub open spec fn chained(first: Option<Seq<char>>, second: Seq<char>) -> Seq<char> {
    match first {
        Some(f) => f + ","@ + second,
        None => second,
    }
}

fn chain(first: Option<&str>, second: &str) -> (r: String)
    ensures
        r@ == chained(str_opt(first), second@),
{
    match first {
        Some(f) => concat3(f, ",", second),
        None => second.to_owned(),
    }
}

/// The chain of the main picture under an overlay on the CPU: scaling and, for
/// an HDR source, tone-mapping or a relabelling of the colours.
pub open spec fn cpu_main_video(
    scale: Option<Seq<char>>,
    hdr: bool,
    sw_tonemap: bool,
    algorithm: Seq<char>,
    desat: Seq<char>,
    peak: Seq<char>,
) -> Seq<char> {
    let hdr_part = if sw_tonemap {
        tonemapx(algorithm, desat, peak, "yuv420p"@)
    } else {
        "setparams=color_primaries=bt709:color_trc=bt709:colorspace=bt709,format=yuv420p"@
    };
    match scale {
        Some(s) if s.len() > 0 => if hdr {
            s + ","@ + hdr_part
        } else {
            s
        },
        _ => if hdr {
            hdr_part
        } else {
            Seq::empty()
        },
    }
}

pub fn build_cpu_main_video_filters(
    scale: Option<&str>,
    hdr: bool,
    do_sw_tonemap: bool,
    algo: &str,
    desat: &str,
    peak: &str,
) -> (r: String)
    ensures
        r@ == cpu_main_video(str_opt(scale), hdr, do_sw_tonemap, algo@, desat@, peak@),
{
    let scale_part = match scale {
        Some(s) => s.to_owned(),
        None => String::new(),
    };
    if !hdr {
        assert(scale_part@ =~= cpu_main_video(
            str_opt(scale),
            hdr,
            do_sw_tonemap,
            algo@,
            desat@,
            peak@,
        ));
        return scale_part;
    }
    let hdr_part = if do_sw_tonemap {
        tonemapx_text(algo, desat, peak, "yuv420p")
    } else {
        "setparams=color_primaries=bt709:color_trc=bt709:colorspace=bt709,format=yuv420p".to_owned()
    };
    if scale_part.as_str().is_empty() {
        hdr_part
    } else {
        concat3(scale_part.as_str(), ",", hdr_part.as_str())
    }
}

/// The graph that lays a subtitle picture over the main one on the CPU.
pub open spec fn cpu_overlay(
    sub_idx: int,
    sub_preproc: Seq<char>,
    main_video: Seq<char>,
    hw_suffix: Option<Seq<char>>,
) -> Seq<char> {
    let sub = "[0:"@ + dec_int(sub_idx) + "]"@ + sub_preproc;
    let main = if main_video.len() == 0 {
        sub + "[sub];[0:v:0][sub]overlay=eof_action=pass:repeatlast=0"@
    } else {
        sub + "[sub];[0:v:0]"@ + main_video
            + "[main];[main][sub]overlay=eof_action=pass:repeatlast=0"@
    };
    match hw_suffix {
        Some(suffix) => main + "[vraw];[vraw]"@ + suffix + "[v]"@,
        None => main + "[v]"@,
    }
}

pub fn build_cpu_overlay_complex(
    sub_idx: i32,
    sub_preproc: &str,
    main_video: &str,
    hw_suffix: Option<&str>,
) -> (r: String)
    ensures
        r@ == cpu_overlay(sub_idx as int, sub_preproc@, main_video@, str_opt(hw_suffix)),
{
    let mut s = concat3("[0:", dec_int_text(sub_idx as i64).as_str(), "]");
    s.append(sub_preproc);
    if main_video.is_empty() {
        s.append("[sub];[0:v:0][sub]overlay=eof_action=pass:repeatlast=0");
    } else {
        s.append("[sub];[0:v:0]");
        s.append(main_video);
        s.append("[main];[main][sub]overlay=eof_action=pass:repeatlast=0");
    }
    match hw_suffix {
        Some(suffix) => {
            s.append("[vraw];[vraw]");
            s.append(suffix);
            s.append("[v]");
        },
        None => {
            s.append("[v]");
        },
    }
    s
}

/// The steps on the subtitle picture: a change of pixel format, then a resize
/// to the size of the output as far as it is known.
pub open spec fn subtitle_steps(width: Option<u32>, height: Option<u32>) -> Seq<char> {
    match (width, height) {
        (Some(w), Some(h)) => "scale,scale="@ + dec(w as nat) + ":"@ + dec(h as nat)
            + ":fast_bilinear"@,
        (Some(w), None) => "scale,scale="@ + dec(w as nat) + ":-1:fast_bilinear"@,
        (None, Some(h)) => "scale,scale=-1:"@ + dec(h as nat) + ":fast_bilinear"@,
        (None, None) => "scale"@,
    }
}

fn build_subtitle_steps(width: Option<u32>, height: Option<u32>) -> (r: String)
    ensures
        r@ == subtitle_steps(width, height),
{
    match (width, height) {
        (Some(w), Some(h)) => {
            let mut s = concat3("scale,scale=", dec_text(w as u64).as_str(), ":");
            s.append(dec_text(h as u64).as_str());
            s.append(":fast_bilinear");
            s
        },
        (Some(w), None) => concat3(
            "scale,scale=",
            dec_text(w as u64).as_str(),
            ":-1:fast_bilinear",
        ),
        (None, Some(h)) => concat3(
            "scale,scale=-1:",
            dec_text(h as u64).as_str(),
            ":fast_bilinear",
        ),
        (None, None) => "scale".to_owned(),
    }
}

/// The graph that lays a subtitle picture over the main one without leaving
/// the memory of the GPU.
pub open spec fn qsv_overlay(sub_idx: int, width: Option<u32>, height: Option<u32>) -> Seq<char> {
    let size = match (width, height) {
        (Some(w), Some(h)) => ":w="@ + dec(w as nat) + ":h="@ + dec(h as nat),
        _ => Seq::empty(),
    };
    "[0:"@ + dec_int(sub_idx) + "]"@ + subtitle_steps(width, height)
        + ",format=bgra,hwupload=derive_device=qsv:extra_hw_frames=64[sub];[0:v:0]"@
        + qsv_scale_filter(width, height)
        + ",hwmap=derive_device=qsv,format=qsv[vmain];[vmain][sub]overlay_qsv=eof_action=pass:repeatlast=0"@
        + size + "[v]"@
}

fn build_qsv_overlay(sub_idx: i32, width: Option<u32>, height: Option<u32>) -> (r: String)
    ensures
        r@ == qsv_overlay(sub_idx as int, width, height),
{
    let size = match (width, height) {
        (Some(w), Some(h)) => {
            let mut s = concat3(":w=", dec_text(w as u64).as_str(), ":h=");
            s.append(dec_text(h as u64).as_str());
            s
        },
        _ => String::new(),
    };
    let mut s = concat3("[0:", dec_int_text(sub_idx as i64).as_str(), "]");
    s.append(build_subtitle_steps(width, height).as_str());
    s.append(",format=bgra,hwupload=derive_device=qsv:extra_hw_frames=64[sub];[0:v:0]");
    s.append(build_qsv_scale_filter(width, height).as_str());
    s.append(
        ",hwmap=derive_device=qsv,format=qsv[vmain];[vmain][sub]overlay_qsv=eof_action=pass:repeatlast=0",
    );
    s.append(size.as_str());
    s.append("[v]");
    s
}

/// How the picture is treated on its way to the encoder.
#[derive(Clone, Copy)]
pub struct Treatment {
    pub kind: HardwareAccelerationType,
    /// The encoder runs in hardware.
    pub is_hw: bool,
    /// The source has a high dynamic range.
    pub hdr: bool,
    /// The GPU tone-maps.
    pub vpp_tonemap: bool,
    /// The CPU tone-maps.
    pub sw_tonemap: bool,
}

/// The graph that burns subtitle stream `sub_idx` into the picture.
pub open spec fn burn_filter(
    t: Treatment,
    sub_idx: int,
    width: Option<u32>,
    height: Option<u32>,
    scale: Option<Seq<char>>,
    suffix: Option<Seq<char>>,
    algorithm: Seq<char>,
    desat: Seq<char>,
    peak: Seq<char>,
) -> Seq<char> {
    if t.is_hw && t.kind is Qsv && !t.hdr && !t.vpp_tonemap {
        qsv_overlay(sub_idx, width, height)
    } else {
        cpu_overlay(
            sub_idx,
            subtitle_steps(width, height),
            cpu_main_video(scale, t.hdr, t.sw_tonemap, algorithm, desat, peak),
            suffix,
        )
    }
}

pub fn build_burn_filter(
    t: &Treatment,
    sub_idx: i32,
    width: Option<u32>,
    height: Option<u32>,
    scale: Option<&str>,
    suffix: Option<&str>,
    algorithm: &str,
    desat: &str,
    peak: &str,
) -> (r: String)
    ensures
        r@ == burn_filter(
            *t,
            sub_idx as int,
            width,
            height,
            str_opt(scale),
            str_opt(suffix),
            algorithm@,
            desat@,
            peak@,
        ),
{
    if t.is_hw && t.kind == HardwareAccelerationType::Qsv && !t.hdr && !t.vpp_tonemap {
        build_qsv_overlay(sub_idx, width, height)
    } else {
        let steps = build_subtitle_steps(width, height);
        let main = build_cpu_main_video_filters(
            scale,
            t.hdr,
            t.sw_tonemap,
            algorithm,
            desat,
            peak,
        );
        build_cpu_overlay_complex(sub_idx, steps.as_str(), main.as_str(), suffix)
    }
}

/// The scaling step before an encoder.
pub open spec fn encode_scale(
    t: Treatment,
    width: Option<u32>,
    height: Option<u32>,
) -> Option<Seq<char>> {
    if t.kind is Qsv && (!t.hdr || t.vpp_tonemap) {
        Some(qsv_scale_filter(width, height))
    } else {
        scale_filter(width, height)
    }
}

pub fn build_encode_scale(t: &Treatment, width: Option<u32>, height: Option<u32>) -> (r: Option<
    String,
>)
    ensures
        text_opt(r) == encode_scale(*t, width, height),
{
    if t.kind == HardwareAccelerationType::Qsv && (!t.hdr || t.vpp_tonemap) {
        Some(build_qsv_scale_filter(width, height))
    } else {
        build_scale_filter(width, height)
    }
}

/// The filters of an encoded picture without burnt-in subtitles.
///
/// An HDR source is tone-mapped by the GPU or by the CPU, or else only labelled
/// as having standard colours.
pub open spec fn encode_filter(
    t: Treatment,
    scale: Option<Seq<char>>,
    suffix: Option<Seq<char>>,
    algorithm: Seq<char>,
    desat: Seq<char>,
    peak: Seq<char>,
) -> Option<Seq<char>> {
    let plain = match suffix {
        Some(suf) => Some(chained(scale, suf)),
        None => scale,
    };
    if !t.hdr {
        plain
    } else if t.vpp_tonemap && t.kind is Vaapi {
        let vpp = "tonemap_vaapi=format=nv12:p=bt709:t=bt709:m=bt709:extra_hw_frames=32"@;
        match plain {
            Some(f) if f.len() > 0 => Some(f + ","@ + vpp),
            _ => Some("format=nv12,hwupload,"@ + vpp),
        }
    } else if t.vpp_tonemap {
        plain
    } else if t.sw_tonemap {
        let format = if !t.is_hw || t.kind is V4l2m2m {
            "yuv420p"@
        } else {
            "nv12"@
        };
        let upload = if t.kind is Vaapi {
            ",hwupload"@
        } else {
            ""@
        };
        Some(chained(scale, tonemapx(algorithm, desat, peak, format)) + upload)
    } else {
        let setparams = "setparams=color_primaries=bt709:color_trc=bt709:colorspace=bt709"@;
        match plain {
            Some(f) => Some(setparams + ","@ + f),
            None => Some(setparams),
        }
    }
}

pub fn build_encode_filter(
    t: &Treatment,
    scale: Option<&str>,
    suffix: Option<&str>,
    algorithm: &str,
    desat: &str,
    peak: &str,
) -> (r: Option<String>)
    ensures
        text_opt(r) == encode_filter(
            *t,
            str_opt(scale),
            str_opt(suffix),
            algorithm@,
            desat@,
            peak@,
        ),
{
    let plain: Option<String> = match suffix {
        Some(suf) => Some(chain(scale, suf)),
        None => match scale {
            Some(s) => Some(s.to_owned()),
            None => None,
        },
    };
    if !t.hdr {
        plain
    } else if t.vpp_tonemap && t.kind == HardwareAccelerationType::Vaapi {
        let vpp = "tonemap_vaapi=format=nv12:p=bt709:t=bt709:m=bt709:extra_hw_frames=32";
        match plain {
            Some(f) => {
                if f.as_str().is_empty() {
                    Some(concat2("format=nv12,hwupload,", vpp))
                } else {
                    Some(concat3(f.as_str(), ",", vpp))
                }
            },
            None => Some(concat2("format=nv12,hwupload,", vpp)),
        }
    } else if t.vpp_tonemap {
        plain
    } else if t.sw_tonemap {
        let format = if !t.is_hw || t.kind == HardwareAccelerationType::V4l2m2m {
            "yuv420p"
        } else {
            "nv12"
        };
        let upload = if t.kind == HardwareAccelerationType::Vaapi {
            ",hwupload"
        } else {
            ""
        };
        let map = tonemapx_text(algorithm, desat, peak, format);
        Some(concat2(chain(scale, map.as_str()).as_str(), upload))
    } else {
        let setparams = "setparams=color_primaries=bt709:color_trc=bt709:colorspace=bt709";
        match plain {
            Some(f) => Some(concat3(setparams, ",", f.as_str())),
            None => Some(setparams.to_owned()),
        }
    }
}

// ---------------------------------------------------------------------------
// Laws
// ---------------------------------------------------------------------------

/// A picture is never enlarged: the bounds that are set are upper bounds, each for
/// its own side, and without any there is no scaling.
pub proof fn law_scaling_only_shrinks(width: Option<u32>, height: Option<u32>)
    ensures
        width is None && height is None <==> scale_filter(width, height) is None,
        width matches Some(w) ==> scale_filter(width, height) is Some && has(
            scale_filter(width, height)->Some_0,
            "min("@ + dec(w as nat) + ",iw)"@,
        ),
        height matches Some(h) ==> scale_filter(width, height) is Some && has(
            scale_filter(width, height)->Some_0,
            "min("@ + dec(h as nat) + ",ih)"@,
        ),
        width matches Some(w) ==> has(
            qsv_scale_filter(width, height),
            "min("@ + dec(w as nat) + ",iw)"@,
        ),
        height matches Some(h) ==> has(
            qsv_scale_filter(width, height),
            "min("@ + dec(h as nat) + ",ih)"@,
        ),
        has(qsv_scale_filter(width, height), "format=nv12"@),
        width is Some && height is Some ==> has(
            scale_filter(width, height)->Some_0,
            "force_original_aspect_ratio=decrease"@,
        ) && has(qsv_scale_filter(width, height), "force_original_aspect_ratio=decrease"@),
        width is Some && height is None ==> has(scale_filter(width, height)->Some_0, ":-2"@),
        width is None && height is Some ==> has(scale_filter(width, height)->Some_0, "=-2:"@),
{
    match (width, height) {
        (Some(w), Some(h)) => {
            lemma_both_bounds(w, h);
            lemma_both_bounds_gpu(w, h);
        },
        (Some(w), None) => lemma_width_bound(w),
        (None, Some(h)) => {
            lemma_height_bound(h);
            lemma_height_bound_gpu(h);
        },
        (None, None) => {
            lemma_scale_literals();
            let g = qsv_scale_filter(width, height);
            lemma_part(g, "scale_vaapi="@, "format=nv12"@, ":extra_hw_frames=24"@);
        },
    }
}

proof fn lemma_both_bounds(w: u32, h: u32)
    ensures
        ({
            let f = scale_filter(Some(w), Some(h))->Some_0;
            &&& has(f, "min("@ + dec(w as nat) + ",iw)"@)
            &&& has(f, "min("@ + dec(h as nat) + ",ih)"@)
            &&& has(f, "force_original_aspect_ratio=decrease"@)
        }),
{
    lemma_scale_literals();
    let x = "min("@ + dec(w as nat) + ",iw)"@;
    let y = "min("@ + dec(h as nat) + ",ih)"@;
    let f = scale_filter(Some(w), Some(h))->Some_0;
    let ratio = "force_original_aspect_ratio=decrease"@;
    let a = "scale='"@;
    let b = "':'"@;
    let c = "':"@;
    assert(f =~= a + x + b + y + c + ratio);
    lemma_part(f, a, x, b + y + c + ratio);
    lemma_part(f, a + x + b, y, c + ratio);
    lemma_part(f, a + x + b + y + c, ratio, Seq::empty());
}

proof fn lemma_both_bounds_gpu(w: u32, h: u32)
    ensures
        ({
            let f = qsv_scale_filter(Some(w), Some(h));
            &&& has(f, "min("@ + dec(w as nat) + ",iw)"@)
            &&& has(f, "min("@ + dec(h as nat) + ",ih)"@)
            &&& has(f, "format=nv12"@)
            &&& has(f, "force_original_aspect_ratio=decrease"@)
        }),
{
    lemma_scale_literals();
    let x = "min("@ + dec(w as nat) + ",iw)"@;
    let y = "min("@ + dec(h as nat) + ",ih)"@;
    let f = qsv_scale_filter(Some(w), Some(h));
    let ratio = "force_original_aspect_ratio=decrease"@;
    let a = "scale_vaapi=w='"@;
    let b = "':h='"@;
    let c = "':"@;
    let d = "format=nv12"@;
    let e = ":extra_hw_frames=24:"@;
    assert(f =~= a + x + b + y + c + d + e + ratio);
    lemma_part(f, a, x, b + y + c + d + e + ratio);
    lemma_part(f, a + x + b, y, c + d + e + ratio);
    lemma_part(f, a + x + b + y + c, d, e + ratio);
    lemma_part(f, a + x + b + y + c + d + e, ratio, Seq::empty());
}

proof fn lemma_width_bound(w: u32)
    ensures
        has(scale_filter(Some(w), None)->Some_0, "min("@ + dec(w as nat) + ",iw)"@),
        has(scale_filter(Some(w), None)->Some_0, ":-2"@),
        has(qsv_scale_filter(Some(w), None), "min("@ + dec(w as nat) + ",iw)"@),
        has(qsv_scale_filter(Some(w), None), "format=nv12"@),
{
    lemma_scale_literals();
    let x = "min("@ + dec(w as nat) + ",iw)"@;
    let f = scale_filter(Some(w), None)->Some_0;
    assert(f =~= "scale='"@ + x + "'"@ + ":-2"@);
    lemma_part(f, "scale='"@, x, "'"@ + ":-2"@);
    lemma_part(f, "scale='"@ + x + "'"@, ":-2"@, Seq::empty());
    let g = qsv_scale_filter(Some(w), None);
    let d = "format=nv12"@;
    let e = ":extra_hw_frames=24"@;
    assert(g =~= "scale_vaapi=w='"@ + x + "':h=-2:"@ + d + e);
    lemma_part(g, "scale_vaapi=w='"@, x, "':h=-2:"@ + d + e);
    lemma_part(g, "scale_vaapi=w='"@ + x + "':h=-2:"@, d, e);
}

proof fn lemma_height_bound(h: u32)
    ensures
        has(scale_filter(None, Some(h))->Some_0, "min("@ + dec(h as nat) + ",ih)"@),
        has(scale_filter(None, Some(h))->Some_0, "=-2:"@),
{
    lemma_scale_literals();
    let y = "min("@ + dec(h as nat) + ",ih)"@;
    let f = scale_filter(None, Some(h))->Some_0;
    let a = "scale"@;
    let b = "=-2:"@;
    let c = "'"@;
    assert(f =~= a + b + c + y + c);
    lemma_part(f, a + b + c, y, c);
    lemma_part(f, a, b, c + y + c);
}

proof fn lemma_height_bound_gpu(h: u32)
    ensures
        has(qsv_scale_filter(None, Some(h)), "min("@ + dec(h as nat) + ",ih)"@),
        has(qsv_scale_filter(None, Some(h)), "format=nv12"@),
{
    lemma_scale_literals();
    let y = "min("@ + dec(h as nat) + ",ih)"@;
    let g = qsv_scale_filter(None, Some(h));
    let d = "format=nv12"@;
    let e = ":extra_hw_frames=24"@;
    assert(g =~= "scale_vaapi=w=-2:h='"@ + y + "':"@ + d + e);
    lemma_part(g, "scale_vaapi=w=-2:h='"@, y, "':"@ + d + e);
    lemma_part(g, "scale_vaapi=w=-2:h='"@ + y + "':"@, d, e);
}

/// A part of a text stands in it.
proof fn lemma_part(whole: Seq<char>, before: Seq<char>, part: Seq<char>, behind: Seq<char>)
    requires
        whole =~= before + part + behind,
    ensures
        has(whole, part),
{
    broadcast use {lemma_has_of_sum, lemma_has_itself};

}

/// A burnt-in subtitle is the one that was chosen, laid over the picture of the
/// source: the graph starts with that stream, and gives the picture that is mapped.
/// What scales the picture and what brings it to the encoder is part of it, and an
/// HDR source is brought to standard colours.
pub proof fn law_chosen_subtitle_is_burnt_in(
    t: Treatment,
    sub: int,
    width: Option<u32>,
    height: Option<u32>,
    scale: Option<Seq<char>>,
    suffix: Option<Seq<char>>,
    algorithm: Seq<char>,
    desat: Seq<char>,
    peak: Seq<char>,
)
    ensures
        ({
            let f = burn_filter(t, sub, width, height, scale, suffix, algorithm, desat, peak);
            let gpu = t.is_hw && t.kind is Qsv && !t.hdr && !t.vpp_tonemap;
            &&& begins(f, "[0:"@ + dec_int(sub) + "]"@)
            &&& ends(f, "[v]"@)
            &&& has(f, "[0:v:0]"@)
            &&& has(f, "[sub]"@)
            &&& gpu ==> has(f, "overlay_qsv="@)
            &&& !gpu ==> has(f, "overlay=eof_action=pass"@)
            &&& !gpu && suffix is Some ==> has(f, suffix->Some_0)
            &&& !gpu && scale is Some && scale->Some_0.len() > 0 ==> has(f, scale->Some_0)
            &&& !gpu && t.hdr && t.sw_tonemap ==> has(
                f,
                "tonemapx=tonemap="@ + algorithm + ":desat="@ + desat + ":peak="@ + peak,
            )
            &&& !gpu && t.hdr ==> has(f, "format=yuv420p"@)
            &&& width matches Some(w) ==> has(f, dec(w as nat))
            &&& height matches Some(h) ==> has(f, dec(h as nat))
        }),
{
    broadcast use {lemma_has_of_sum, lemma_has_itself};

    let f = burn_filter(t, sub, width, height, scale, suffix, algorithm, desat, peak);
    let start = "[0:"@ + dec_int(sub) + "]"@;
    lemma_overlay_literals();
    if t.is_hw && t.kind is Qsv && !t.hdr && !t.vpp_tonemap {
        let rest = f.skip(start.len() as int);
        assert(f =~= start + rest);
        lemma_ends_of_sum(start, rest);
        let front = f.take(f.len() - 3);
        assert(f =~= front + "[v]"@);
        lemma_ends_of_sum(front, "[v]"@);
    } else {
        let steps = subtitle_steps(width, height);
        let main = cpu_main_video(scale, t.hdr, t.sw_tonemap, algorithm, desat, peak);
        let rest = f.skip(start.len() as int);
        assert(f =~= start + rest);
        lemma_ends_of_sum(start, rest);
        let front = f.take(f.len() - 3);
        assert(f =~= front + "[v]"@);
        lemma_ends_of_sum(front, "[v]"@);
        if t.hdr {
            reveal_strlit("tonemapx=tonemap=");
            reveal_strlit("format=yuv420p");
            assert("tonemapx=tonemap="@.len() > 0 && "format=yuv420p"@.len() > 0);
            assert(main.len() > 0);
            let map = tonemapx(algorithm, desat, peak, "yuv420p"@);
            let part = "tonemapx=tonemap="@ + algorithm + ":desat="@ + desat + ":peak="@ + peak;
            assert(map =~= part + (":t=bt709:m=bt709:p=bt709:"@ + "format=yuv420p"@)) by {
                reveal_strlit(":t=bt709:m=bt709:p=bt709:format=");
                reveal_strlit(":t=bt709:m=bt709:p=bt709:");
                reveal_strlit("format=yuv420p");
                reveal_strlit("yuv420p");
            }
        }
        assert(has(f, main) || main.len() == 0);
        assert(has(f, steps));
        lemma_has_transitive(f, main);
        lemma_has_transitive(f, steps);
    }
}

/// What stands in a part stands in the whole.
proof fn lemma_has_transitive(f: Seq<char>, part: Seq<char>)
    ensures
        has(f, part) ==> forall|n: Seq<char>| #[trigger] has(part, n) ==> has(f, n),
{
    if has(f, part) {
        let i = choose|i: int| crate::text::occurs_at(f, part, i);
        assert forall|n: Seq<char>| #[trigger] has(part, n) implies has(f, n) by {
            let j = choose|j: int| crate::text::occurs_at(part, n, j);
            assert(f.subrange(i + j, i + j + n.len()) =~= part.subrange(j, j + n.len())) by {
                assert(part =~= f.subrange(i, i + part.len()));
            }
            assert(crate::text::occurs_at(f, n, i + j));
        }
    }
}

/// A picture of standard colours is only scaled and brought to the encoder. One of
/// an HDR source is tone-mapped by the GPU or by the CPU, as was decided, and is
/// labelled as one of standard colours where it is not.
pub proof fn law_hdr_is_never_passed_on_unlabelled(
    t: Treatment,
    scale: Option<Seq<char>>,
    suffix: Option<Seq<char>>,
    algorithm: Seq<char>,
    desat: Seq<char>,
    peak: Seq<char>,
)
    ensures
        ({
            let f = encode_filter(t, scale, suffix, algorithm, desat, peak);
            &&& !t.hdr && scale is None && suffix is None ==> f is None
            &&& !t.hdr && scale is Some && suffix is None ==> f == scale
            &&& !t.hdr && scale is None && suffix is Some ==> f == suffix
            &&& !t.hdr && scale is Some && suffix is Some ==> f == Some(
                scale->Some_0 + ","@ + suffix->Some_0,
            )
            &&& t.hdr && t.vpp_tonemap && t.kind is Vaapi ==> f is Some && ends(
                f->Some_0,
                "tonemap_vaapi=format=nv12:p=bt709:t=bt709:m=bt709:extra_hw_frames=32"@,
            )
            &&& t.hdr && !t.vpp_tonemap && t.sw_tonemap ==> f is Some && has(
                f->Some_0,
                "tonemapx=tonemap="@ + algorithm + ":desat="@ + desat + ":peak="@ + peak,
            )
            &&& t.hdr && !t.vpp_tonemap && t.sw_tonemap && scale is Some ==> begins(
                f->Some_0,
                scale->Some_0,
            )
            &&& t.hdr && !t.vpp_tonemap && !t.sw_tonemap ==> f is Some && begins(
                f->Some_0,
                "setparams=color_primaries=bt709:color_trc=bt709:colorspace=bt709"@,
            )
            &&& t.hdr && !t.sw_tonemap && scale is Some && scale->Some_0.len() > 0 ==> f is Some
                && has(f->Some_0, scale->Some_0)
            &&& t.hdr && !t.sw_tonemap && suffix is Some && suffix->Some_0.len() > 0 ==> f is Some
                && has(f->Some_0, suffix->Some_0)
        }),
{
    broadcast use {lemma_has_of_sum, lemma_has_itself};

    let f = encode_filter(t, scale, suffix, algorithm, desat, peak);
    let vpp = "tonemap_vaapi=format=nv12:p=bt709:t=bt709:m=bt709:extra_hw_frames=32"@;
    let setparams = "setparams=color_primaries=bt709:color_trc=bt709:colorspace=bt709"@;
    let plain = match suffix {
        Some(suf) => Some(chained(scale, suf)),
        None => scale,
    };
    if t.hdr && t.vpp_tonemap && t.kind is Vaapi {
        let front = f->Some_0.take(f->Some_0.len() - vpp.len());
        assert(f->Some_0 =~= front + vpp);
        lemma_ends_of_sum(front, vpp);
    } else if t.hdr && !t.vpp_tonemap && t.sw_tonemap {
        let format = if !t.is_hw || t.kind is V4l2m2m {
            "yuv420p"@
        } else {
            "nv12"@
        };
        let map = tonemapx(algorithm, desat, peak, format);
        let part = "tonemapx=tonemap="@ + algorithm + ":desat="@ + desat + ":peak="@ + peak;
        assert(map =~= part + (":t=bt709:m=bt709:p=bt709:format="@ + format));
        if let Some(s) = scale {
            let rest = f->Some_0.skip(s.len() as int);
            assert(f->Some_0 =~= s + rest);
            lemma_ends_of_sum(s, rest);
        }
    } else if t.hdr && !t.vpp_tonemap {
        let rest = f->Some_0.skip(setparams.len() as int);
        assert(f->Some_0 =~= setparams + rest);
        lemma_ends_of_sum(setparams, rest);
    }
}

proof fn lemma_scale_literals()
    ensures
        "scale='min("@ == "scale='"@ + "min("@,
        ",iw)':'min("@ == ",iw)"@ + "':'"@ + "min("@,
        ",ih)':force_original_aspect_ratio=decrease"@ == ",ih)"@ + "':force_original_aspect_ratio=decrease"@,
        "':force_original_aspect_ratio=decrease"@ == "':"@ + "force_original_aspect_ratio=decrease"@,
        "scale_vaapi=w='min("@ == "scale_vaapi=w='"@ + "min("@,
        ",iw)':h='min("@ == ",iw)"@ + "':h='"@ + "min("@,
        ",ih)':format=nv12:extra_hw_frames=24:force_original_aspect_ratio=decrease"@ == ",ih)"@ + "':"@ + "format=nv12"@ + ":extra_hw_frames=24:"@ + "force_original_aspect_ratio=decrease"@,
        ",iw)':-2"@ == ",iw)"@ + "'"@ + ":-2"@,
        ",iw)':h=-2:format=nv12:extra_hw_frames=24"@ == ",iw)"@ + "':h=-2:"@ + "format=nv12"@ + ":extra_hw_frames=24"@,
        "scale=-2:'min("@ == "scale"@ + "=-2:"@ + "'"@ + "min("@,
        ",ih)'"@ == ",ih)"@ + "'"@,
        "scale_vaapi=w=-2:h='min("@ == "scale_vaapi=w=-2:h='"@ + "min("@,
        ",ih)':format=nv12:extra_hw_frames=24"@ == ",ih)"@ + "':"@ + "format=nv12"@ + ":extra_hw_frames=24"@,
        "scale_vaapi=format=nv12:extra_hw_frames=24"@ == "scale_vaapi="@ + "format=nv12"@ + ":extra_hw_frames=24"@,
{
    reveal_strlit("scale='min(");
    reveal_strlit("scale='");
    reveal_strlit("min(");
    reveal_strlit("");
    reveal_strlit(",iw)':'min(");
    reveal_strlit(",iw)");
    reveal_strlit("':'");
    reveal_strlit(",ih)':force_original_aspect_ratio=decrease");
    reveal_strlit(",ih)");
    reveal_strlit("':force_original_aspect_ratio=decrease");
    reveal_strlit("':");
    reveal_strlit("force_original_aspect_ratio=decrease");
    reveal_strlit("scale_vaapi=w='min(");
    reveal_strlit("scale_vaapi=w='");
    reveal_strlit(",iw)':h='min(");
    reveal_strlit("':h='");
    reveal_strlit(",ih)':format=nv12:extra_hw_frames=24:force_original_aspect_ratio=decrease");
    reveal_strlit("format=nv12");
    reveal_strlit(":extra_hw_frames=24:");
    reveal_strlit(",iw)':-2");
    reveal_strlit("'");
    reveal_strlit(":-2");
    reveal_strlit(",iw)':h=-2:format=nv12:extra_hw_frames=24");
    reveal_strlit("':h=-2:");
    reveal_strlit(":extra_hw_frames=24");
    reveal_strlit("scale=-2:'min(");
    reveal_strlit("scale");
    reveal_strlit("=-2:");
    reveal_strlit(",ih)'");
    reveal_strlit("scale_vaapi=w=-2:h='min(");
    reveal_strlit("scale_vaapi=w=-2:h='");
    reveal_strlit(",ih)':format=nv12:extra_hw_frames=24");
    reveal_strlit("scale_vaapi=format=nv12:extra_hw_frames=24");
    reveal_strlit("scale_vaapi=");
    assert("scale='min("@ =~= "scale='"@ + "min("@);
    assert(",iw)':'min("@ =~= ",iw)"@ + "':'"@ + "min("@);
    assert(",ih)':force_original_aspect_ratio=decrease"@ =~= ",ih)"@ + "':force_original_aspect_ratio=decrease"@);
    assert("':force_original_aspect_ratio=decrease"@ =~= "':"@ + "force_original_aspect_ratio=decrease"@);
    assert("scale_vaapi=w='min("@ =~= "scale_vaapi=w='"@ + "min("@);
    assert(",iw)':h='min("@ =~= ",iw)"@ + "':h='"@ + "min("@);
    assert(",ih)':format=nv12:extra_hw_frames=24:force_original_aspect_ratio=decrease"@ =~= ",ih)"@ + "':"@ + "format=nv12"@ + ":extra_hw_frames=24:"@ + "force_original_aspect_ratio=decrease"@);
    assert(",iw)':-2"@ =~= ",iw)"@ + "'"@ + ":-2"@);
    assert(",iw)':h=-2:format=nv12:extra_hw_frames=24"@ =~= ",iw)"@ + "':h=-2:"@ + "format=nv12"@ + ":extra_hw_frames=24"@);
    assert("scale=-2:'min("@ =~= "scale"@ + "=-2:"@ + "'"@ + "min("@);
    assert(",ih)'"@ =~= ",ih)"@ + "'"@);
    assert("scale_vaapi=w=-2:h='min("@ =~= "scale_vaapi=w=-2:h='"@ + "min("@);
    assert(",ih)':format=nv12:extra_hw_frames=24"@ =~= ",ih)"@ + "':"@ + "format=nv12"@ + ":extra_hw_frames=24"@);
    assert("scale_vaapi=format=nv12:extra_hw_frames=24"@ =~= "scale_vaapi="@ + "format=nv12"@ + ":extra_hw_frames=24"@);
}

proof fn lemma_overlay_literals()
    ensures
        "[sub];[0:v:0][sub]overlay=eof_action=pass:repeatlast=0"@ == "[sub]"@ + ";"@ + "[0:v:0]"@ + "[sub]"@ + "overlay=eof_action=pass"@ + ":repeatlast=0"@,
        "[sub];[0:v:0]"@ == "[sub]"@ + ";"@ + "[0:v:0]"@,
        "[main];[main][sub]overlay=eof_action=pass:repeatlast=0"@ == "[main];[main]"@ + "[sub]"@ + "overlay=eof_action=pass"@ + ":repeatlast=0"@,
        ",format=bgra,hwupload=derive_device=qsv:extra_hw_frames=64[sub];[0:v:0]"@ == ",format=bgra,hwupload=derive_device=qsv:extra_hw_frames=64"@ + "[sub]"@ + ";"@ + "[0:v:0]"@,
        ",hwmap=derive_device=qsv,format=qsv[vmain];[vmain][sub]overlay_qsv=eof_action=pass:repeatlast=0"@ == ",hwmap=derive_device=qsv,format=qsv[vmain];[vmain]"@ + "[sub]"@ + "overlay_qsv="@ + "eof_action=pass:repeatlast=0"@,
        "setparams=color_primaries=bt709:color_trc=bt709:colorspace=bt709,format=yuv420p"@ == "setparams=color_primaries=bt709:color_trc=bt709:colorspace=bt709,"@ + "format=yuv420p"@,
        "[v]"@.len() == 3,
{
    reveal_strlit("[v]");
    reveal_strlit("[sub];[0:v:0][sub]overlay=eof_action=pass:repeatlast=0");
    reveal_strlit("[sub]");
    reveal_strlit(";");
    reveal_strlit("[0:v:0]");
    reveal_strlit("overlay=eof_action=pass");
    reveal_strlit(":repeatlast=0");
    reveal_strlit("[sub];[0:v:0]");
    reveal_strlit("[main];[main][sub]overlay=eof_action=pass:repeatlast=0");
    reveal_strlit("[main];[main]");
    reveal_strlit(",format=bgra,hwupload=derive_device=qsv:extra_hw_frames=64[sub];[0:v:0]");
    reveal_strlit(",format=bgra,hwupload=derive_device=qsv:extra_hw_frames=64");
    reveal_strlit(",hwmap=derive_device=qsv,format=qsv[vmain];[vmain][sub]overlay_qsv=eof_action=pass:repeatlast=0");
    reveal_strlit(",hwmap=derive_device=qsv,format=qsv[vmain];[vmain]");
    reveal_strlit("overlay_qsv=");
    reveal_strlit("eof_action=pass:repeatlast=0");
    reveal_strlit("setparams=color_primaries=bt709:color_trc=bt709:colorspace=bt709,format=yuv420p");
    reveal_strlit("setparams=color_primaries=bt709:color_trc=bt709:colorspace=bt709,");
    reveal_strlit("format=yuv420p");
    assert("[sub];[0:v:0][sub]overlay=eof_action=pass:repeatlast=0"@ =~= "[sub]"@ + ";"@ + "[0:v:0]"@ + "[sub]"@ + "overlay=eof_action=pass"@ + ":repeatlast=0"@);
    assert("[sub];[0:v:0]"@ =~= "[sub]"@ + ";"@ + "[0:v:0]"@);
    assert("[main];[main][sub]overlay=eof_action=pass:repeatlast=0"@ =~= "[main];[main]"@ + "[sub]"@ + "overlay=eof_action=pass"@ + ":repeatlast=0"@);
    assert(",format=bgra,hwupload=derive_device=qsv:extra_hw_frames=64[sub];[0:v:0]"@ =~= ",format=bgra,hwupload=derive_device=qsv:extra_hw_frames=64"@ + "[sub]"@ + ";"@ + "[0:v:0]"@);
    assert(",hwmap=derive_device=qsv,format=qsv[vmain];[vmain][sub]overlay_qsv=eof_action=pass:repeatlast=0"@ =~= ",hwmap=derive_device=qsv,format=qsv[vmain];[vmain]"@ + "[sub]"@ + "overlay_qsv="@ + "eof_action=pass:repeatlast=0"@);
    assert("setparams=color_primaries=bt709:color_trc=bt709:colorspace=bt709,format=yuv420p"@ =~= "setparams=color_primaries=bt709:color_trc=bt709:colorspace=bt709,"@ + "format=yuv420p"@);
}

} // verus!
