//! The HLS playlists of a transcode.

use vstd::prelude::*;

use super::media::{borrowed, hevc_source, is_hevc, VideoRangeType};
use super::session::TranscodeSession;
use crate::binary64::{seconds_chars, seconds_text, segment_at, TICKS_PER_SECOND};
use crate::text::{
    begins, concat2, concat3, dec, dec_int, dec_int_text, dec_padded, dec_padded_text, dec_text,
    ends, eq_ignore_case, has, lemma_ends_of_sum, lemma_has_itself, lemma_has_of_sum, same_folded,
    same_text, str_opt, text_opt,
};

verus! {

// ---------------------------------------------------------------------------
// The variant playlist
// ---------------------------------------------------------------------------

/// The ticks of a full segment.
pub open spec fn full_segment(length: nat) -> nat {
    length * TICKS_PER_SECOND as nat
}

/// The number of segments of a media of `runtime` ticks: the full ones, and one
/// for the rest.
pub open spec fn segment_total(runtime: nat, length: nat) -> nat {
    runtime / full_segment(length) + if runtime % full_segment(length) > 0 {
        1nat
    } else {
        0
    }
}

/// The ticks of segment `i`.
pub open spec fn segment_ticks(runtime: nat, length: nat, i: nat) -> nat {
    if i < runtime / full_segment(length) {
        full_segment(length)
    } else {
        runtime % full_segment(length)
    }
}

/// The ticks of the first `n` segments.
pub open spec fn segments_before(runtime: nat, length: nat, n: nat) -> nat
    decreases n,
{
    if n == 0 {
        0
    } else {
        segments_before(runtime, length, (n - 1) as nat) + segment_ticks(
            runtime,
            length,
            (n - 1) as nat,
        )
    }
}

/// What the query string adds to a segment's address.
pub open spec fn extra_query(query: Seq<char>) -> Seq<char> {
    if query.len() == 0 {
        Seq::empty()
    } else {
        "&"@ + query
    }
}

impl TranscodeSession {
    /// The two lines of segment `i`.
    pub open spec fn segment_lines(&self, extra: Seq<char>, i: nat) -> Seq<char> {
        let runtime = self.runtime_ticks as nat;
        let length = self.segment_length as nat;
        let ticks = segment_ticks(runtime, length, i);
        "#EXTINF:"@ + seconds_chars(ticks as int) + ", nodesc\nsegment_"@ + dec_padded(i, 5) + "."@
            + self.segment_ext() + "?PlaySessionId="@ + self.id@ + "&runtimeTicks="@ + dec(
            segments_before(runtime, length, i),
        ) + "&actualSegmentLengthTicks="@ + dec(ticks) + extra + "\n"@
    }

    /// The lines of the first `n` segments.
    pub open spec fn all_segment_lines(&self, extra: Seq<char>, n: nat) -> Seq<char>
        decreases n,
    {
        if n == 0 {
            Seq::empty()
        } else {
            self.all_segment_lines(extra, (n - 1) as nat) + self.segment_lines(
                extra,
                (n - 1) as nat,
            )
        }
    }

    pub open spec fn hls_version(&self) -> Seq<char> {
        if self.fmp4() {
            "7"@
        } else {
            "6"@
        }
    }

    /// The line that names the initialization segment of fragmented MP4.
    pub open spec fn map_line(&self) -> Seq<char> {
        if self.fmp4() {
            "#EXT-X-MAP:URI=\"init.mp4?PlaySessionId="@ + self.id@ + "\"\n"@
        } else {
            Seq::empty()
        }
    }

    /// The line that tells the client where to start. Fragmented MP4 has none.
    pub open spec fn start_line(&self) -> Seq<char> {
        if self.start_time_secs > 0 && !self.fmp4() {
            "#EXT-X-START:TIME-OFFSET="@ + dec(self.start_time_secs as nat)
                + ".000000,PRECISE=YES\n"@
        } else {
            Seq::empty()
        }
    }

    /// The head of the playlist.
    pub open spec fn variant_head(&self, target: nat) -> Seq<char> {
        "#EXTM3U\n#EXT-X-PLAYLIST-TYPE:VOD\n#EXT-X-VERSION:"@ + self.hls_version()
            + "\n#EXT-X-TARGETDURATION:"@ + dec(target) + "\n#EXT-X-MEDIA-SEQUENCE:0\n"@
    }

    /// Whether the length of the media and of its segments is known.
    pub open spec fn has_timeline(&self) -> bool {
        self.runtime_ticks > 0 && self.segment_length > 0
    }

    /// The playlist: every segment of the media from its start to its end, or
    /// one segment where the length is not known.
    pub open spec fn variant_playlist(&self, query: Seq<char>) -> Seq<char> {
        let extra = extra_query(query);
        if self.has_timeline() {
            self.variant_head((self.segment_length + 1) as nat) + self.start_line()
                + self.map_line() + self.all_segment_lines(
                extra,
                segment_total(self.runtime_ticks as nat, self.segment_length as nat),
            ) + "#EXT-X-ENDLIST\n"@
        } else {
            self.variant_head(self.segment_length as nat) + self.map_line() + "#EXTINF:"@ + dec(
                self.segment_length as nat,
            ) + ".000000, nodesc\nsegment_00000."@ + self.segment_ext() + "?PlaySessionId="@
                + self.id@ + extra + "\n#EXT-X-ENDLIST\n"@
        }
    }
}

fn variant_head_text(session: &TranscodeSession, target: u64) -> (s: String)
    ensures
        s@ == session.variant_head(target as nat),
{
    let version = if session.use_fmp4() {
        "7"
    } else {
        "6"
    };
    let mut s = concat3(
        "#EXTM3U\n#EXT-X-PLAYLIST-TYPE:VOD\n#EXT-X-VERSION:",
        version,
        "\n#EXT-X-TARGETDURATION:",
    );
    s.append(dec_text(target).as_str());
    s.append("\n#EXT-X-MEDIA-SEQUENCE:0\n");
    s
}

fn push_map_line(s: &mut String, session: &TranscodeSession)
    ensures
        final(s)@ == old(s)@ + session.map_line(),
{
    if session.use_fmp4() {
        let line = concat3(
            "#EXT-X-MAP:URI=\"init.mp4?PlaySessionId=",
            session.id.as_str(),
            "\"\n",
        );
        s.append(line.as_str());
    } else {
        assert(s@ + session.map_line() =~= s@);
    }
}

fn push_start_line(s: &mut String, session: &TranscodeSession)
    ensures
        final(s)@ == old(s)@ + session.start_line(),
{
    if session.start_time_secs > 0 && !session.use_fmp4() {
        let line = concat3(
            "#EXT-X-START:TIME-OFFSET=",
            dec_text(session.start_time_secs as u64).as_str(),
            ".000000,PRECISE=YES\n",
        );
        s.append(line.as_str());
    } else {
        assert(s@ + session.start_line() =~= s@);
    }
}

fn segment_lines_text(
    session: &TranscodeSession,
    extra: &str,
    i: u64,
    start: u64,
    ticks: u64,
) -> (s: String)
    requires
        ticks == segment_ticks(
            session.runtime_ticks as nat,
            session.segment_length as nat,
            i as nat,
        ),
        start == segments_before(
            session.runtime_ticks as nat,
            session.segment_length as nat,
            i as nat,
        ),
        ticks <= i64::MAX,
    ensures
        s@ == session.segment_lines(extra@, i as nat),
{
    let mut s = concat3("#EXTINF:", seconds_text(ticks as i64).as_str(), ", nodesc\nsegment_");
    s.append(dec_padded_text(i, 5).as_str());
    s.append(".");
    s.append(session.segment_extension());
    s.append("?PlaySessionId=");
    s.append(session.id.as_str());
    s.append("&runtimeTicks=");
    s.append(dec_text(start).as_str());
    s.append("&actualSegmentLengthTicks=");
    s.append(dec_text(ticks).as_str());
    s.append(extra);
    s.append("\n");
    s
}

/// The first `n` segments, full or not, hold at most the whole runtime, and all
/// of them exactly that.
proof fn lemma_segments_before(runtime: nat, length: nat, n: nat)
    requires
        length > 0,
        n <= segment_total(runtime, length),
    ensures
        segments_before(runtime, length, n) <= runtime,
        n <= runtime / full_segment(length) ==> segments_before(runtime, length, n) == n
            * full_segment(length),
        n == segment_total(runtime, length) ==> segments_before(runtime, length, n) == runtime,
    decreases n,
{
    let full = full_segment(length);
    let whole = runtime / full;
    vstd::arithmetic::div_mod::lemma_fundamental_div_mod(runtime as int, full as int);
    assert(full * whole == whole * full) by (nonlinear_arith);
    if n > 0 {
        lemma_segments_before(runtime, length, (n - 1) as nat);
        if n <= whole {
            assert(n * full == (n - 1) * full + full) by (nonlinear_arith);
            assert(n * full <= whole * full) by (nonlinear_arith)
                requires
                    n <= whole,
            ;
        }
    } else {
        assert(0 * full == 0);
    }
}

/// The variant playlist of a session. The query string is added to the address
/// of every segment.
pub fn generate_variant_playlist(session: &TranscodeSession, query_string: &str) -> (s: String)
    requires
        session.has_timeline() ==> session.segment_length < u32::MAX,
    ensures
        s@ == session.variant_playlist(query_string@),
{
    let extra = if query_string.is_empty() {
        String::new()
    } else {
        concat2("&", query_string)
    };
    if session.runtime_ticks <= 0 || session.segment_length == 0 {
        let mut s = variant_head_text(session, session.segment_length as u64);
        push_map_line(&mut s, session);
        s.append("#EXTINF:");
        s.append(dec_text(session.segment_length as u64).as_str());
        s.append(".000000, nodesc\nsegment_00000.");
        s.append(session.segment_extension());
        s.append("?PlaySessionId=");
        s.append(session.id.as_str());
        s.append(extra.as_str());
        s.append("\n#EXT-X-ENDLIST\n");
        return s;
    }
    let runtime: u64 = session.runtime_ticks as u64;
    let full: u64 = session.segment_length as u64 * TICKS_PER_SECOND;
    let ghost length = session.segment_length as nat;
    assert(full == full_segment(length));
    let whole: u64 = runtime / full;
    let rest: u64 = runtime % full;
    assert(whole <= runtime) by (nonlinear_arith)
        requires
            whole == runtime / full,
            full > 0,
    ;
    let total: u64 = whole + if rest > 0 {
        1
    } else {
        0
    };
    let mut s = variant_head_text(session, session.segment_length as u64 + 1);
    push_start_line(&mut s, session);
    push_map_line(&mut s, session);
    let ghost head = s@;
    assert(head =~= head + session.all_segment_lines(extra@, 0));
    let mut start: u64 = 0;
    let mut i: u64 = 0;
    while i < total
        invariant
            session.runtime_ticks > 0,
            length > 0,
            length == session.segment_length,
            runtime == session.runtime_ticks,
            full == full_segment(length),
            whole == runtime / full,
            rest == runtime % full,
            i <= total,
            total == segment_total(runtime as nat, length),
            start == segments_before(runtime as nat, length, i as nat),
            s@ == head + session.all_segment_lines(extra@, i as nat),
        decreases total - i,
    {
        let ticks: u64 = if i < whole {
            full
        } else {
            rest
        };
        proof {
            lemma_segments_before(runtime as nat, length, (i + 1) as nat);
        }
        let lines = segment_lines_text(session, extra.as_str(), i, start, ticks);
        let ghost before = s@;
        s.append(lines.as_str());
        start = start + ticks;
        assert(s@ =~= head + session.all_segment_lines(extra@, (i + 1) as nat));
        i = i + 1;
    }
    s.append("#EXT-X-ENDLIST\n");
    s
}

/// The playlist covers the media: its segments follow each other without a gap
/// from the start, none of them is empty or longer than a full one, and
/// together they are as long as the media.
pub proof fn law_playlist_covers_the_media(runtime: nat, length: nat)
    requires
        length > 0,
    ensures
        segments_before(runtime, length, 0) == 0,
        segments_before(runtime, length, segment_total(runtime, length)) == runtime,
        forall|i: nat|
            i < segment_total(runtime, length) ==> {
                &&& 0 < #[trigger] segment_ticks(runtime, length, i) <= full_segment(length)
                &&& segments_before(runtime, length, i + 1) == segments_before(runtime, length, i)
                    + segment_ticks(runtime, length, i)
                &&& segments_before(runtime, length, i) == i * full_segment(length)
            },
{
    lemma_segments_before(runtime, length, segment_total(runtime, length));
    assert forall|i: nat| i < segment_total(runtime, length) implies {
        &&& 0 < #[trigger] segment_ticks(runtime, length, i) <= full_segment(length)
        &&& segments_before(runtime, length, i + 1) == segments_before(runtime, length, i)
            + segment_ticks(runtime, length, i)
        &&& segments_before(runtime, length, i) == i * full_segment(length)
    } by {
        lemma_segments_before(runtime, length, i);
    }
}

/// A transcode that starts where the playlist says segment `i` starts numbers
/// its first segment `i`.
pub proof fn law_restart_finds_the_segment(runtime: nat, length: nat, i: nat)
    requires
        0 < length <= u32::MAX,
        i <= u32::MAX,
        i < segment_total(runtime, length),
        runtime < 0x1000_0000_0000_0000,
    ensures
        segment_at(segments_before(runtime, length, i) as int, length) == i,
{
    law_playlist_covers_the_media(runtime, length);
    lemma_segments_before(runtime, length, i);
    let start = segments_before(runtime, length, i);
    assert(segment_ticks(runtime, length, i) > 0);
    assert(i * length * TICKS_PER_SECOND == i * full_segment(length)) by (nonlinear_arith)
        requires
            full_segment(length) == length * TICKS_PER_SECOND,
    ;
    crate::binary64::law_segment_start(i, length);
}

// ---------------------------------------------------------------------------
// The master playlist
// ---------------------------------------------------------------------------

/// The codec attribute of HEVC: its profile, and its level or level 5.
pub open spec fn hevc_attribute(profile: Option<Seq<char>>, level: Option<i32>) -> Seq<char> {
    let main10 = profile matches Some(p) && (same_folded(p, "main 10"@) || same_folded(
        p,
        "main10"@,
    ));
    (if main10 {
        "hvc1.2.4.L"@
    } else {
        "hvc1.1.4.L"@
    }) + dec_int(
        match level {
            Some(l) => l as int,
            None => 150,
        },
    ) + ".B0"@
}

pub fn hevc_hls_codec_string(profile: Option<&str>, level: Option<i32>) -> (s: String)
    ensures
        s@ == hevc_attribute(str_opt(profile), level),
{
    let main10 = match profile {
        Some(p) => eq_ignore_case(p, "main 10") || eq_ignore_case(p, "main10"),
        None => false,
    };
    let level: i32 = match level {
        Some(l) => l,
        None => 150,
    };
    concat3(
        if main10 {
            "hvc1.2.4.L"
        } else {
            "hvc1.1.4.L"
        },
        dec_int_text(level as i64).as_str(),
        ".B0",
    )
}

impl TranscodeSession {
    /// The codec attribute of the video.
    pub open spec fn video_attribute(&self) -> Seq<char> {
        let codec = self.video_codec@;
        let hevc = if codec == "copy"@ {
            hevc_source(text_opt(self.source_video_codec))
        } else {
            codec == "hevc"@ || codec == "libx265"@
        };
        if hevc {
            hevc_attribute(text_opt(self.source_video_profile), self.source_video_level)
        } else {
            "avc1.640028"@
        }
    }

    /// The codec attribute of the audio: that of the source where it is copied.
    pub open spec fn audio_attribute(&self) -> Seq<char> {
        if self.audio_codec@ == "copy"@ && text_opt(self.source_audio_codec) == Some("eac3"@) {
            "ec-3"@
        } else if self.audio_codec@ == "copy"@ && text_opt(self.source_audio_codec) == Some(
            "ac3"@,
        ) {
            "ac-3"@
        } else {
            "mp4a.40.2"@
        }
    }

    /// The dynamic range: that of the source where the video is copied, else
    /// the standard one.
    pub open spec fn range_attribute(&self) -> Seq<char> {
        if self.video_codec@ == "copy"@ {
            match self.source_video_range_type {
                Some(r) => if r is Hdr10 || r is Hdr10Plus || r is DoviWithHdr10 || r is Dovi {
                    ",VIDEO-RANGE=PQ"@
                } else if r is Hlg || r is DoviWithHlg {
                    ",VIDEO-RANGE=HLG"@
                } else {
                    ",VIDEO-RANGE=SDR"@
                },
                None => ",VIDEO-RANGE=SDR"@,
            }
        } else {
            ",VIDEO-RANGE=SDR"@
        }
    }

    pub open spec fn resolution_attribute(&self) -> Seq<char> {
        match (self.source_video_width, self.source_video_height) {
            (Some(w), Some(h)) => ",RESOLUTION="@ + dec_int(w as int) + "x"@ + dec_int(h as int),
            _ => Seq::empty(),
        }
    }

    pub open spec fn frame_rate_attribute(&self) -> Seq<char> {
        match self.source_frame_rate {
            Some(fps) => ",FRAME-RATE="@ + fps@,
            None => Seq::empty(),
        }
    }

    pub open spec fn master_playlist(&self) -> Seq<char> {
        "#EXTM3U\n#EXT-X-VERSION:6\n#EXT-X-INDEPENDENT-SEGMENTS\n#EXT-X-STREAM-INF:BANDWIDTH=2000000,AVERAGE-BANDWIDTH=2000000,CODECS=\""@
            + self.video_attribute() + ","@ + self.audio_attribute() + "\""@
            + self.range_attribute() + self.resolution_attribute() + self.frame_rate_attribute()
            + "\nmain.m3u8?PlaySessionId="@ + self.id@ + "\n"@
    }
}

fn video_attribute_text(session: &TranscodeSession) -> (s: String)
    ensures
        s@ == session.video_attribute(),
{
    let codec = session.video_codec.as_str();
    let hevc = if same_text(codec, "copy") {
        is_hevc(borrowed(&session.source_video_codec))
    } else {
        same_text(codec, "hevc") || same_text(codec, "libx265")
    };
    if hevc {
        hevc_hls_codec_string(borrowed(&session.source_video_profile), session.source_video_level)
    } else {
        "avc1.640028".to_owned()
    }
}

fn audio_attribute_text(session: &TranscodeSession) -> (s: &'static str)
    ensures
        s@ == session.audio_attribute(),
{
    if same_text(session.audio_codec.as_str(), "copy") {
        match &session.source_audio_codec {
            Some(c) => {
                if same_text(c.as_str(), "eac3") {
                    "ec-3"
                } else if same_text(c.as_str(), "ac3") {
                    "ac-3"
                } else {
                    "mp4a.40.2"
                }
            },
            None => "mp4a.40.2",
        }
    } else {
        "mp4a.40.2"
    }
}

fn range_attribute_text(session: &TranscodeSession) -> (s: &'static str)
    ensures
        s@ == session.range_attribute(),
{
    if same_text(session.video_codec.as_str(), "copy") {
        match session.source_video_range_type {
            Some(VideoRangeType::Hdr10) => ",VIDEO-RANGE=PQ",
            Some(VideoRangeType::Hdr10Plus) => ",VIDEO-RANGE=PQ",
            Some(VideoRangeType::DoviWithHdr10) => ",VIDEO-RANGE=PQ",
            Some(VideoRangeType::Dovi) => ",VIDEO-RANGE=PQ",
            Some(VideoRangeType::Hlg) => ",VIDEO-RANGE=HLG",
            Some(VideoRangeType::DoviWithHlg) => ",VIDEO-RANGE=HLG",
            _ => ",VIDEO-RANGE=SDR",
        }
    } else {
        ",VIDEO-RANGE=SDR"
    }
}

/// The master playlist, which names the variant playlist and its codecs.
pub fn generate_master_playlist(session: &TranscodeSession) -> (s: String)
    ensures
        s@ == session.master_playlist(),
{
    let mut s = concat3(
        "#EXTM3U\n#EXT-X-VERSION:6\n#EXT-X-INDEPENDENT-SEGMENTS\n#EXT-X-STREAM-INF:BANDWIDTH=2000000,AVERAGE-BANDWIDTH=2000000,CODECS=\"",
        video_attribute_text(session).as_str(),
        ",",
    );
    s.append(audio_attribute_text(session));
    s.append("\"");
    s.append(range_attribute_text(session));
    let ghost before = s@;
    match (session.source_video_width, session.source_video_height) {
        (Some(w), Some(h)) => {
            let mut r = concat3(",RESOLUTION=", dec_int_text(w).as_str(), "x");
            r.append(dec_int_text(h).as_str());
            s.append(r.as_str());
        },
        _ => {
            assert(before + session.resolution_attribute() =~= before);
        },
    }
    let ghost before = s@;
    match &session.source_frame_rate {
        Some(fps) => {
            s.append(concat2(",FRAME-RATE=", fps.as_str()).as_str());
        },
        None => {
            assert(before + session.frame_rate_attribute() =~= before);
        },
    }
    s.append("\nmain.m3u8?PlaySessionId=");
    s.append(session.id.as_str());
    s.append("\n");
    s
}

/// Every segment of the media is listed, one after the other: segment `i`, which
/// begins at `i` times the length of a segment, with its duration in seconds to the
/// nearest microsecond, the number and the kind of its file, the session, the place
/// where it begins, and its duration in ticks, which is that of a full segment or what
/// is left of the media.
pub proof fn law_segments_are_listed(
    session: TranscodeSession,
    query: Seq<char>,
    i: nat,
) -> (micros: nat)
    requires
        session.runtime_ticks > 0,
        session.segment_length > 0,
        session.segment_length * 10_000_000 < 0x20_0000_0000_0000,
        i * (session.segment_length * 10_000_000) < session.runtime_ticks,
    ensures
        ({
            let full = session.segment_length * 10_000_000;
            let start = i * full;
            let left = session.runtime_ticks - start;
            let ticks = if left < full {
                left
            } else {
                full
            };
            let more = if query.len() == 0 {
                Seq::empty()
            } else {
                "&"@ + query
            };
            let line = "#EXTINF:"@ + (dec(micros / 1_000_000) + seq!['.'] + dec_padded(
                micros % 1_000_000,
                6,
            )) + ", nodesc\nsegment_"@ + dec_padded(i, 5) + "."@ + session.segment_ext()
                + "?PlaySessionId="@ + session.id@ + "&runtimeTicks="@ + dec(start as nat)
                + "&actualSegmentLengthTicks="@ + dec(ticks as nat) + more + "\n"@;
            &&& has(session.variant_playlist(query), line)
            &&& ticks - 5 <= 10 * micros <= ticks + 5
            &&& ticks % 10 == 0 ==> 10 * micros == ticks
            &&& (i + 1) * full >= session.runtime_ticks ==> ends(
                session.variant_playlist(query),
                line + "#EXT-X-ENDLIST\n"@,
            )
        }),
{
    broadcast use {lemma_has_of_sum, lemma_has_itself};

    let runtime = session.runtime_ticks as nat;
    let length = session.segment_length as nat;
    let full = full_segment(length);
    let extra = extra_query(query);
    let total = segment_total(runtime, length);
    lemma_total(runtime, full, i);
    law_playlist_covers_the_media(runtime, length);
    assert(segments_before(runtime, length, i) == i * full) by {
        assert(segment_ticks(runtime, length, i) > 0);
    }
    let ticks = segment_ticks(runtime, length, i);
    lemma_ticks(runtime, full, i);
    let micros = crate::binary64::law_positions_are_printed(ticks);
    let line = session.segment_lines(extra, i);
    lemma_lines_hold(session, extra, total, i);
    let all = session.all_segment_lines(extra, total);
    assert(has(all, line));
    let front = session.variant_head((session.segment_length + 1) as nat) + session.start_line()
        + session.map_line();
    assert(session.variant_playlist(query) == front + all + "#EXT-X-ENDLIST\n"@);
    if (i + 1) * full >= runtime {
        lemma_last(runtime, full, i);
        assert(total == i + 1);
        let before = session.all_segment_lines(extra, i);
        assert(all == before + line);
        assert(session.variant_playlist(query) =~= (front + before) + (line
            + "#EXT-X-ENDLIST\n"@));
        lemma_ends_of_sum(front + before, line + "#EXT-X-ENDLIST\n"@);
    }
    micros
}

/// The segments are listed in order, with nothing between them.
pub proof fn law_segments_follow_each_other(session: TranscodeSession, query: Seq<char>, i: nat)
    requires
        session.runtime_ticks > 0,
        session.segment_length > 0,
        (i + 1) * (session.segment_length * 10_000_000) < session.runtime_ticks,
    ensures
        has(
            session.variant_playlist(query),
            session.segment_lines(extra_query(query), i) + session.segment_lines(
                extra_query(query),
                i + 1,
            ),
        ),
{
    broadcast use {lemma_has_of_sum, lemma_has_itself};

    let runtime = session.runtime_ticks as nat;
    let length = session.segment_length as nat;
    let full = full_segment(length);
    let extra = extra_query(query);
    let total = segment_total(runtime, length);
    lemma_total(runtime, full, i + 1);
    let x = session.segment_lines(extra, i);
    let y = session.segment_lines(extra, i + 1);
    let two = session.all_segment_lines(extra, i + 2);
    let before = session.all_segment_lines(extra, i);
    assert(session.all_segment_lines(extra, i + 1) == before + x);
    assert(two == before + x + y);
    assert(two =~= before + (x + y));
    assert(has(two, x + y));
    lemma_lines_grow(session, extra, i + 2, total);
    let all = session.all_segment_lines(extra, total);
    let j = choose|j: int| crate::text::occurs_at(two, x + y, j);
    assert(all.subrange(j, j + (x + y).len()) =~= two.subrange(j, j + (x + y).len()));
    assert(crate::text::occurs_at(all, x + y, j));
}

proof fn lemma_lines_grow(session: TranscodeSession, extra: Seq<char>, m: nat, n: nat)
    requires
        m <= n,
    ensures
        session.all_segment_lines(extra, m).len() <= session.all_segment_lines(extra, n).len(),
        session.all_segment_lines(extra, n).take(
            session.all_segment_lines(extra, m).len() as int,
        ) == session.all_segment_lines(extra, m),
    decreases n,
{
    let a = session.all_segment_lines(extra, m);
    let b = session.all_segment_lines(extra, n);
    if m < n {
        lemma_lines_grow(session, extra, m, (n - 1) as nat);
        let c = session.all_segment_lines(extra, (n - 1) as nat);
        assert(b.take(a.len() as int) =~= c.take(a.len() as int));
    } else {
        assert(b.take(a.len() as int) =~= a);
    }
}

proof fn lemma_lines_hold(session: TranscodeSession, extra: Seq<char>, n: nat, i: nat)
    requires
        i < n,
    ensures
        has(session.all_segment_lines(extra, n), session.segment_lines(extra, i)),
    decreases n,
{
    broadcast use {lemma_has_of_sum, lemma_has_itself};

    if i < n - 1 {
        lemma_lines_hold(session, extra, (n - 1) as nat, i);
    }
}

proof fn lemma_total(runtime: nat, full: nat, i: nat)
    requires
        full > 0,
        i * full < runtime,
    ensures
        i < runtime / full + if runtime % full > 0 {
            1nat
        } else {
            0
        },
{
    vstd::arithmetic::div_mod::lemma_fundamental_div_mod(runtime as int, full as int);
    let w = runtime / full;
    assert(full * (w + 1) == full * w + full) by (nonlinear_arith);
    assert(i < w + 1) by (nonlinear_arith)
        requires
            i * full < full * (w + 1),
            full > 0,
    ;
    if i == w {
        assert(i * full == full * w) by (nonlinear_arith)
            requires
                i == w,
        ;
    }
}

proof fn lemma_last(runtime: nat, full: nat, i: nat)
    requires
        full > 0,
        i * full < runtime <= (i + 1) * full,
    ensures
        i + 1 == runtime / full + if runtime % full > 0 {
            1nat
        } else {
            0
        },
{
    vstd::arithmetic::div_mod::lemma_fundamental_div_mod(runtime as int, full as int);
    let w = runtime / full;
    lemma_total(runtime, full, i);
    assert(w <= i + 1) by (nonlinear_arith)
        requires
            runtime <= (i + 1) * full,
            runtime >= full * w,
            full > 0,
    ;
    if w == i + 1 {
        assert(full * w == (i + 1) * full) by (nonlinear_arith)
            requires
                w == i + 1,
        ;
    }
}

proof fn lemma_ticks(runtime: nat, full: nat, i: nat)
    requires
        full > 0,
        i * full < runtime,
    ensures
        (if i < runtime / full {
            full
        } else {
            runtime % full
        }) == if runtime - i * full < full {
            (runtime - i * full) as nat
        } else {
            full
        },
{
    vstd::arithmetic::div_mod::lemma_fundamental_div_mod(runtime as int, full as int);
    let w = runtime / full;
    lemma_total(runtime, full, i);
    if i < w {
        assert(runtime - i * full >= full) by (nonlinear_arith)
            requires
                i + 1 <= w,
                runtime >= full * w,
                full > 0,
        ;
    } else {
        assert(i * full == full * w) by (nonlinear_arith)
            requires
                i == w,
        ;
    }
}

/// The playlist is of a finished recording whose segments are no longer than it says,
/// and tells a client where to start, and where the initialization of fragmented MP4
/// is.
pub proof fn law_playlist_tells_how_to_play(session: TranscodeSession, query: Seq<char>)
    requires
        session.runtime_ticks > 0,
        session.segment_length > 0,
    ensures
        ({
            let p = session.variant_playlist(query);
            &&& begins(p, "#EXTM3U\n"@)
            &&& has(p, "#EXT-X-PLAYLIST-TYPE:VOD\n"@)
            &&& has(p, "#EXT-X-TARGETDURATION:"@ + dec((session.segment_length + 1) as nat) + "\n"@)
            &&& has(p, "#EXT-X-MEDIA-SEQUENCE:0\n"@)
            &&& ends(p, "#EXT-X-ENDLIST\n"@)
            &&& session.fmp4() ==> has(p, "#EXT-X-VERSION:7\n"@) && has(
                p,
                "#EXT-X-MAP:URI=\"init.mp4?PlaySessionId="@ + session.id@ + "\"\n"@,
            )
            &&& !session.fmp4() ==> has(p, "#EXT-X-VERSION:6\n"@)
            &&& !session.fmp4() && session.start_time_secs > 0 ==> has(
                p,
                "#EXT-X-START:TIME-OFFSET="@ + dec(session.start_time_secs as nat)
                    + ".000000,PRECISE=YES\n"@,
            )
        }),
{
    broadcast use {lemma_has_of_sum, lemma_has_itself};

    lemma_head_literals();
    let p = session.variant_playlist(query);
    let target = dec((session.segment_length + 1) as nat);
    let head = session.variant_head((session.segment_length + 1) as nat);
    let version = if session.fmp4() {
        "#EXT-X-VERSION:7\n"@
    } else {
        "#EXT-X-VERSION:6\n"@
    };
    let kind = "#EXT-X-PLAYLIST-TYPE:VOD\n"@;
    let duration = "#EXT-X-TARGETDURATION:"@ + target + "\n"@;
    assert(head =~= "#EXTM3U\n"@ + kind + version + duration + "#EXT-X-MEDIA-SEQUENCE:0\n"@);
    let rest = p.skip("#EXTM3U\n"@.len() as int);
    assert(p =~= "#EXTM3U\n"@ + rest);
    lemma_ends_of_sum("#EXTM3U\n"@, rest);
    let front = head + session.start_line() + session.map_line() + session.all_segment_lines(
        extra_query(query),
        segment_total(session.runtime_ticks as nat, session.segment_length as nat),
    );
    lemma_ends_of_sum(front, "#EXT-X-ENDLIST\n"@);
}

proof fn lemma_head_literals()
    ensures
        "#EXTM3U\n#EXT-X-PLAYLIST-TYPE:VOD\n#EXT-X-VERSION:"@ == "#EXTM3U\n"@
            + "#EXT-X-PLAYLIST-TYPE:VOD\n"@ + "#EXT-X-VERSION:"@,
        "#EXT-X-VERSION:7\n"@ == "#EXT-X-VERSION:"@ + "7"@ + "\n"@,
        "#EXT-X-VERSION:6\n"@ == "#EXT-X-VERSION:"@ + "6"@ + "\n"@,
        "\n#EXT-X-TARGETDURATION:"@ == "\n"@ + "#EXT-X-TARGETDURATION:"@,
        "\n#EXT-X-MEDIA-SEQUENCE:0\n"@ == "\n"@ + "#EXT-X-MEDIA-SEQUENCE:0\n"@,
{
    reveal_strlit("#EXTM3U\n#EXT-X-PLAYLIST-TYPE:VOD\n#EXT-X-VERSION:");
    reveal_strlit("#EXTM3U\n");
    reveal_strlit("#EXT-X-PLAYLIST-TYPE:VOD\n");
    reveal_strlit("#EXT-X-VERSION:");
    reveal_strlit("#EXT-X-VERSION:7\n");
    reveal_strlit("#EXT-X-VERSION:6\n");
    reveal_strlit("7");
    reveal_strlit("6");
    reveal_strlit("\n");
    reveal_strlit("\n#EXT-X-TARGETDURATION:");
    reveal_strlit("#EXT-X-TARGETDURATION:");
    reveal_strlit("\n#EXT-X-MEDIA-SEQUENCE:0\n");
    reveal_strlit("#EXT-X-MEDIA-SEQUENCE:0\n");
    assert("#EXTM3U\n#EXT-X-PLAYLIST-TYPE:VOD\n#EXT-X-VERSION:"@ =~= "#EXTM3U\n"@
        + "#EXT-X-PLAYLIST-TYPE:VOD\n"@ + "#EXT-X-VERSION:"@);
    assert("#EXT-X-VERSION:7\n"@ =~= "#EXT-X-VERSION:"@ + "7"@ + "\n"@);
    assert("#EXT-X-VERSION:6\n"@ =~= "#EXT-X-VERSION:"@ + "6"@ + "\n"@);
    assert("\n#EXT-X-TARGETDURATION:"@ =~= "\n"@ + "#EXT-X-TARGETDURATION:"@);
    assert("\n#EXT-X-MEDIA-SEQUENCE:0\n"@ =~= "\n"@ + "#EXT-X-MEDIA-SEQUENCE:0\n"@);
}

/// Where the length is not known, one segment is listed, of the length that segments
/// have.
pub proof fn law_unknown_lengths_list_one_segment(session: TranscodeSession, query: Seq<char>)
    requires
        session.runtime_ticks <= 0 || session.segment_length == 0,
    ensures
        ({
            let p = session.variant_playlist(query);
            let more = if query.len() == 0 {
                Seq::empty()
            } else {
                "&"@ + query
            };
            &&& ends(
                p,
                "#EXTINF:"@ + dec(session.segment_length as nat)
                    + ".000000, nodesc\nsegment_00000."@ + session.segment_ext()
                    + "?PlaySessionId="@ + session.id@ + more + "\n#EXT-X-ENDLIST\n"@,
            )
            &&& session.fmp4() ==> has(
                p,
                "#EXT-X-MAP:URI=\"init.mp4?PlaySessionId="@ + session.id@ + "\"\n"@,
            )
        }),
{
    broadcast use {lemma_has_of_sum, lemma_has_itself};

    let p = session.variant_playlist(query);
    let tail = "#EXTINF:"@ + dec(session.segment_length as nat)
        + ".000000, nodesc\nsegment_00000."@ + session.segment_ext() + "?PlaySessionId="@
        + session.id@ + extra_query(query) + "\n#EXT-X-ENDLIST\n"@;
    let front = session.variant_head(session.segment_length as nat) + session.map_line();
    assert(p =~= front + tail);
    lemma_ends_of_sum(front, tail);
}

/// The master playlist names the variant playlist of its session, and the codecs, the
/// dynamic range, the size and the frame rate of what is sent: those of the source
/// where it is copied.
pub proof fn law_master_tells_what_is_sent(session: TranscodeSession)
    ensures
        ({
            let p = session.master_playlist();
            let copied = session.video_codec@ == "copy"@;
            let source = text_opt(session.source_video_codec);
            let hevc = if copied {
                source == Some("hevc"@) || source == Some("h265"@) || source == Some("hvc1"@)
                    || source == Some("hev1"@)
            } else {
                session.video_codec@ == "hevc"@ || session.video_codec@ == "libx265"@
            };
            let ten = session.source_video_profile matches Some(f) && (same_folded(
                f@,
                "main 10"@,
            ) || same_folded(f@, "main10"@));
            let level = match session.source_video_level {
                Some(l) => l as int,
                None => 150,
            };
            let sound_copied = session.audio_codec@ == "copy"@;
            let sound = text_opt(session.source_audio_codec);
            let range = session.source_video_range_type;
            &&& begins(p, "#EXTM3U\n"@)
            &&& ends(p, "\nmain.m3u8?PlaySessionId="@ + session.id@ + "\n"@)
            &&& hevc && ten ==> has(p, "hvc1.2.4.L"@ + dec_int(level) + ".B0"@)
            &&& hevc && !ten ==> has(p, "hvc1.1.4.L"@ + dec_int(level) + ".B0"@)
            &&& !hevc ==> has(p, "avc1.640028"@)
            &&& sound_copied && sound == Some("eac3"@) ==> has(p, ",ec-3\""@)
            &&& sound_copied && sound == Some("ac3"@) ==> has(p, ",ac-3\""@)
            &&& !sound_copied || (sound != Some("eac3"@) && sound != Some("ac3"@)) ==> has(
                p,
                ",mp4a.40.2\""@,
            )
            &&& copied && (range matches Some(r) && (r is Hdr10 || r is Hdr10Plus || r is Dovi
                || r is DoviWithHdr10)) ==> has(p, ",VIDEO-RANGE=PQ"@)
            &&& copied && (range matches Some(r) && (r is Hlg || r is DoviWithHlg)) ==> has(
                p,
                ",VIDEO-RANGE=HLG"@,
            )
            &&& !copied || range is None || (range matches Some(r) && (r is Sdr || r is Unknown
                || r is DoviWithSdr)) ==> has(p, ",VIDEO-RANGE=SDR"@)
            &&& (session.source_video_width is Some && session.source_video_height is Some) ==> has(
                p,
                ",RESOLUTION="@ + dec_int(session.source_video_width->Some_0 as int) + "x"@
                    + dec_int(session.source_video_height->Some_0 as int),
            )
            &&& session.source_frame_rate matches Some(fps) ==> has(p, ",FRAME-RATE="@ + fps@)
        }),
{
    broadcast use {lemma_has_of_sum, lemma_has_itself};

    reveal_strlit("eac3");
    reveal_strlit("ac3");
    assert("eac3"@.len() != "ac3"@.len());
    let p = session.master_playlist();
    let head =
        "#EXTM3U\n#EXT-X-VERSION:6\n#EXT-X-INDEPENDENT-SEGMENTS\n#EXT-X-STREAM-INF:BANDWIDTH=2000000,AVERAGE-BANDWIDTH=2000000,CODECS=\""@;
    let start = "#EXTM3U\n"@;
    reveal_strlit(
        "#EXTM3U\n#EXT-X-VERSION:6\n#EXT-X-INDEPENDENT-SEGMENTS\n#EXT-X-STREAM-INF:BANDWIDTH=2000000,AVERAGE-BANDWIDTH=2000000,CODECS=\"",
    );
    reveal_strlit("#EXTM3U\n");
    assert(head.take(8) =~= start);
    let rest = p.skip(8);
    assert(p =~= start + rest);
    lemma_ends_of_sum(start, rest);
    let tail = "\nmain.m3u8?PlaySessionId="@ + session.id@ + "\n"@;
    let video = head + session.video_attribute();
    let quoted = ","@ + session.audio_attribute() + "\""@;
    let more = session.range_attribute() + session.resolution_attribute()
        + session.frame_rate_attribute();
    assert(p =~= (video + quoted + more) + tail);
    lemma_ends_of_sum(video + quoted + more, tail);
    reveal_strlit(",");
    reveal_strlit("\"");
    reveal_strlit("ec-3");
    reveal_strlit("ac-3");
    reveal_strlit("mp4a.40.2");
    reveal_strlit(",ec-3\"");
    reveal_strlit(",ac-3\"");
    reveal_strlit(",mp4a.40.2\"");
    assert(","@ + "ec-3"@ + "\""@ =~= ",ec-3\""@);
    assert(","@ + "ac-3"@ + "\""@ =~= ",ac-3\""@);
    assert(","@ + "mp4a.40.2"@ + "\""@ =~= ",mp4a.40.2\""@);
}

} // verus!
