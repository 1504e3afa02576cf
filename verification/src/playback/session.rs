//! One transcode: what it reads, what it writes, and how far it has come.

use vstd::prelude::*;

use super::media::{borrowed, hevc_source, is_hevc, VideoRangeType};
use crate::ids::{simple_id, simple_text};
use crate::text::{
    begins, concat2, concat3, dec, dec_text, ends, has, in_dir, join_path, lemma_ends_of_sum,
    lemma_has_itself, lemma_has_of_sum, same_text, text_opt, trim, trim_spec,
};

verus! {

#[derive(Debug, Clone, PartialEq)]
pub enum TranscodeState {
    Starting,
    Running,
    Complete,
    Error(String),
}

/// A transcode of one media source for one playback.
///
/// The level of the video is a whole number and the frame rate a text with
/// three decimals, which is there only where the rate is positive.
#[derive(Debug, Clone)]
pub struct TranscodeSession {
    pub id: String,
    pub item_id: u128,
    pub media_source_id: u128,
    pub output_dir: String,
    pub input_url: String,
    pub state: TranscodeState,
    pub video_codec: String,
    pub audio_codec: String,
    pub audio_stream_index: Option<i32>,
    pub subtitle_stream_index: Option<i32>,
    pub burn_subtitle: bool,
    /// Seconds in a segment.
    pub segment_length: u32,
    /// The last segment that the client has asked for.
    pub last_segment_index: u32,
    /// Where in the media this transcode starts, in seconds.
    pub start_time_secs: u32,
    /// How far the client has played since `start_time_secs`.
    pub playback_offset_secs: u32,
    pub playback_paused: bool,
    /// The input comes from the torrent engine.
    pub source_is_p2p: bool,
    /// The length of the media in ticks.
    pub runtime_ticks: i64,
    pub is_live: bool,
    pub source_video_codec: Option<String>,
    pub source_audio_codec: Option<String>,
    pub source_video_profile: Option<String>,
    pub source_video_level: Option<i32>,
    pub source_video_range_type: Option<VideoRangeType>,
    pub source_video_width: Option<i64>,
    pub source_video_height: Option<i64>,
    pub source_frame_rate: Option<String>,
    pub video_bitrate: Option<u32>,
    pub hardware_acceleration_type: Option<String>,
}

impl TranscodeSession {
    /// A transcode that has not started.
    pub fn new(
        play_session_id: String,
        item_id: u128,
        media_source_id: u128,
        input_url: String,
        output_dir: String,
        video_codec: String,
        audio_codec: String,
        audio_stream_index: Option<i32>,
        subtitle_stream_index: Option<i32>,
        burn_subtitle: bool,
        segment_length: u32,
        runtime_ticks: i64,
        is_live: bool,
        source_is_p2p: bool,
        source_video_codec: Option<String>,
        source_audio_codec: Option<String>,
        source_video_profile: Option<String>,
        source_video_level: Option<i32>,
        source_video_range_type: Option<VideoRangeType>,
        source_video_width: Option<i64>,
        source_video_height: Option<i64>,
        source_frame_rate: Option<String>,
        video_bitrate: Option<u32>,
        hardware_acceleration_type: Option<String>,
    ) -> (r: TranscodeSession)
        ensures
            r == (TranscodeSession {
                id: play_session_id,
                item_id,
                media_source_id,
                output_dir,
                input_url,
                state: TranscodeState::Starting,
                video_codec,
                audio_codec,
                audio_stream_index,
                subtitle_stream_index,
                burn_subtitle,
                segment_length,
                last_segment_index: 0,
                start_time_secs: 0,
                playback_offset_secs: 0,
                playback_paused: false,
                source_is_p2p,
                runtime_ticks,
                is_live,
                source_video_codec,
                source_audio_codec,
                source_video_profile,
                source_video_level,
                source_video_range_type,
                source_video_width,
                source_video_height,
                source_frame_rate,
                video_bitrate,
                hardware_acceleration_type,
            }),
    {
        TranscodeSession {
            id: play_session_id,
            item_id,
            media_source_id,
            output_dir,
            input_url,
            state: TranscodeState::Starting,
            video_codec,
            audio_codec,
            audio_stream_index,
            subtitle_stream_index,
            burn_subtitle,
            segment_length,
            last_segment_index: 0,
            start_time_secs: 0,
            playback_offset_secs: 0,
            playback_paused: false,
            source_is_p2p,
            runtime_ticks,
            is_live,
            source_video_codec,
            source_audio_codec,
            source_video_profile,
            source_video_level,
            source_video_range_type,
            source_video_width,
            source_video_height,
            source_frame_rate,
            video_bitrate,
            hardware_acceleration_type,
        }
    }

    pub fn master_playlist_path(&self) -> (path: String)
        ensures
            path@ == in_dir(self.output_dir@, "master.m3u8"@),
    {
        join_path(self.output_dir.as_str(), "master.m3u8")
    }

    pub fn variant_playlist_path(&self) -> (path: String)
        ensures
            path@ == in_dir(self.output_dir@, "main.m3u8"@),
    {
        join_path(self.output_dir.as_str(), "main.m3u8")
    }

    /// Copied HEVC goes in fragmented MP4, all else in transport streams.
    pub open spec fn fmp4(&self) -> bool {
        self.video_codec@ == "copy"@ && hevc_source(text_opt(self.source_video_codec))
    }

    pub fn use_fmp4(&self) -> (r: bool)
        ensures
            r == self.fmp4(),
    {
        same_text(self.video_codec.as_str(), "copy") && is_hevc(borrowed(&self.source_video_codec))
    }

    /// The file name extension of the segments.
    pub open spec fn segment_ext(&self) -> Seq<char> {
        if self.fmp4() {
            "m4s"@
        } else {
            "ts"@
        }
    }

    pub fn segment_extension(&self) -> (r: &'static str)
        ensures
            r@ == self.segment_ext(),
    {
        if self.use_fmp4() {
            "m4s"
        } else {
            "ts"
        }
    }

    pub open spec fn segment_file(&self, segment_id: Seq<char>) -> Seq<char> {
        in_dir(self.output_dir@, segment_id + "."@ + self.segment_ext())
    }

    pub fn segment_path(&self, segment_id: &str) -> (path: String)
        ensures
            path@ == self.segment_file(segment_id@),
    {
        let name = concat3(segment_id, ".", self.segment_extension());
        join_path(self.output_dir.as_str(), name.as_str())
    }

    /// The initialization segment of fragmented MP4.
    pub fn init_segment_path(&self) -> (path: String)
        ensures
            path@ == in_dir(self.output_dir@, "init.mp4"@),
    {
        join_path(self.output_dir.as_str(), "init.mp4")
    }

    pub open spec fn url(&self) -> Seq<char> {
        "/videos/"@ + simple_id(self.item_id) + "/master.m3u8?PlaySessionId="@ + self.id@
            + "&VideoCodec="@ + self.video_codec@
            + "&AudioCodec=aac&SegmentContainer=ts&SegmentLength="@ + dec(
            self.segment_length as nat,
        ) + "&MediaSourceId="@ + simple_id(self.media_source_id)
    }

    /// The address under which a client asks for this transcode.
    pub fn transcoding_url(&self) -> (url: String)
        ensures
            url@ == self.url(),
    {
        let mut url = concat2("/videos/", simple_text(self.item_id).as_str());
        url.append("/master.m3u8?PlaySessionId=");
        url.append(self.id.as_str());
        url.append("&VideoCodec=");
        url.append(self.video_codec.as_str());
        url.append("&AudioCodec=aac&SegmentContainer=ts&SegmentLength=");
        url.append(dec_text(self.segment_length as u64).as_str());
        url.append("&MediaSourceId=");
        url.append(simple_text(self.media_source_id).as_str());
        url
    }
}

// ---------------------------------------------------------------------------
// Runs of the transcoder
// ---------------------------------------------------------------------------

/// A live source is started again at most so often.
pub const MAX_LIVE_RESTARTS: u32 = 10;

/// How one run of the transcoder ended.
#[derive(Debug, Clone)]
pub enum RunResult {
    /// The process ended by itself, with this status.
    Exited { success: bool, status: String },
    /// The process could not be started or waited for.
    Failed(String),
    /// The session was stopped.
    Killed,
}

/// What the runs of a transcode so far have used up.
#[derive(Debug, Clone, Copy, PartialEq, Eq, Structural)]
pub struct RunState {
    /// Encoding is done in hardware.
    pub using_hw: bool,
    /// A failure in hardware has been answered by encoding in software.
    pub sw_fallback: bool,
    /// How often a live source has been started again.
    pub live_restarts: u32,
}

/// What to do when a run has ended.
#[derive(Debug, Clone)]
pub enum NextStep {
    /// Clear the output and run again with software encoding.
    RetryInSoftware,
    /// Wait three seconds and run again.
    RestartLive,
    /// Stop, and set the state where one is given.
    Finish(Option<TranscodeState>),
}

/// The same, as far as a contract speaks of it.
pub ghost enum StepView {
    RetryInSoftware,
    RestartLive,
    Stopped,
    Completed,
    Failed(Seq<char>),
}

impl NextStep {
    pub open spec fn view(&self) -> StepView {
        match self {
            NextStep::RetryInSoftware => StepView::RetryInSoftware,
            NextStep::RestartLive => StepView::RestartLive,
            NextStep::Finish(None) => StepView::Stopped,
            NextStep::Finish(Some(TranscodeState::Complete)) => StepView::Completed,
            NextStep::Finish(Some(TranscodeState::Error(e))) => StepView::Failed(e@),
            NextStep::Finish(Some(_)) => StepView::Stopped,
        }
    }

    /// Only a terminal state is ever set.
    pub open spec fn terminal(&self) -> bool {
        self matches NextStep::Finish(Some(s)) ==> s is Complete || s is Error
    }
}

/// A failed run in hardware is repeated once in software; a live source that
/// ends by itself is started again up to ten times; all else ends the
/// transcode.
pub open spec fn step_after(
    run: RunState,
    is_live: bool,
    result: RunResult,
    stderr: Seq<char>,
) -> (RunState, StepView) {
    if !run.sw_fallback && run.using_hw && (result matches RunResult::Exited { success, .. }
        && !success) {
        (RunState { using_hw: false, sw_fallback: true, ..run }, StepView::RetryInSoftware)
    } else if result is Killed {
        (run, StepView::Stopped)
    } else if is_live && run.live_restarts < MAX_LIVE_RESTARTS {
        (
            RunState { live_restarts: (run.live_restarts + 1) as u32, ..run },
            StepView::RestartLive,
        )
    } else if is_live {
        (
            run,
            StepView::Failed(
                match result {
                    RunResult::Exited { status, .. } =>
                    "live stream ffmpeg exited after 10 restarts (status "@ + status@ + "): "@
                        + trim_spec(stderr),
                    RunResult::Failed(e) =>
                    "live stream ffmpeg exited after 10 restarts (status error): "@ + e@,
                    RunResult::Killed => Seq::empty(),
                },
            ),
        )
    } else {
        match result {
            RunResult::Exited { success: true, .. } => (run, StepView::Completed),
            RunResult::Exited { success: false, status } => (
                run,
                StepView::Failed(
                    "ffmpeg exited with status "@ + status@ + ": "@ + trim_spec(stderr),
                ),
            ),
            RunResult::Failed(e) => (run, StepView::Failed("Failed to wait for ffmpeg: "@ + e@)),
            RunResult::Killed => (run, StepView::Stopped),
        }
    }
}

impl RunState {
    pub fn new(using_hw: bool) -> (r: RunState)
        ensures
            r == (RunState { using_hw, sw_fallback: false, live_restarts: 0 }),
    {
        RunState { using_hw, sw_fallback: false, live_restarts: 0 }
    }

    /// Decides what follows a run, and notes what it uses up.
    pub fn after_run(&mut self, is_live: bool, result: &RunResult, stderr: &str) -> (step: NextStep)
        ensures
            (*final(self), step.view()) == step_after(*old(self), is_live, *result, stderr@),
            step.terminal(),
    {
        let exited_badly = match result {
            RunResult::Exited { success, .. } => !*success,
            _ => false,
        };
        if !self.sw_fallback && self.using_hw && exited_badly {
            self.using_hw = false;
            self.sw_fallback = true;
            return NextStep::RetryInSoftware;
        }
        if is_live {
            match result {
                RunResult::Killed => NextStep::Finish(None),
                RunResult::Exited { success, status } => {
                    if self.live_restarts < MAX_LIVE_RESTARTS {
                        self.live_restarts = self.live_restarts + 1;
                        NextStep::RestartLive
                    } else {
                        let mut e = concat3(
                            "live stream ffmpeg exited after 10 restarts (status ",
                            status.as_str(),
                            "): ",
                        );
                        e.append(trim(stderr).as_str());
                        NextStep::Finish(Some(TranscodeState::Error(e)))
                    }
                },
                RunResult::Failed(error) => {
                    if self.live_restarts < MAX_LIVE_RESTARTS {
                        self.live_restarts = self.live_restarts + 1;
                        NextStep::RestartLive
                    } else {
                        let e = concat2(
                            "live stream ffmpeg exited after 10 restarts (status error): ",
                            error.as_str(),
                        );
                        NextStep::Finish(Some(TranscodeState::Error(e)))
                    }
                },
            }
        } else {
            match result {
                RunResult::Killed => NextStep::Finish(None),
                RunResult::Exited { success, status } => {
                    if *success {
                        NextStep::Finish(Some(TranscodeState::Complete))
                    } else {
                        let mut e = concat3("ffmpeg exited with status ", status.as_str(), ": ");
                        e.append(trim(stderr).as_str());
                        NextStep::Finish(Some(TranscodeState::Error(e)))
                    }
                },
                RunResult::Failed(error) => NextStep::Finish(
                    Some(
                        TranscodeState::Error(
                            concat2("Failed to wait for ffmpeg: ", error.as_str()),
                        ),
                    ),
                ),
            }
        }
    }

    /// How many more runs a transcode can have after the present one.
    pub open spec fn runs_left(&self) -> int {
        (if self.sw_fallback {
            0int
        } else {
            1
        }) + (if self.live_restarts < MAX_LIVE_RESTARTS {
            MAX_LIVE_RESTARTS - self.live_restarts
        } else {
            0
        })
    }
}

/// Every run that is followed by another uses up one of at most eleven, so
/// that a transcode ends whatever its runs do.
pub proof fn law_runs_are_used_up(
    run: RunState,
    is_live: bool,
    result: RunResult,
    stderr: Seq<char>,
)
    ensures
        ({
            let (next, step) = step_after(run, is_live, result, stderr);
            &&& 0 <= next.runs_left() <= run.runs_left() <= 11
            &&& step is RetryInSoftware || step is RestartLive ==> next.runs_left()
                == run.runs_left() - 1
            &&& !(step is RetryInSoftware || step is RestartLive) ==> next == run
        }),
{
}

/// A stopped session is never run again, and a failure in software is never
/// answered by a switch to software.
pub proof fn law_stop_and_fallback_are_final(
    run: RunState,
    is_live: bool,
    result: RunResult,
    stderr: Seq<char>,
)
    ensures
        result is Killed ==> step_after(run, is_live, result, stderr) == (run, StepView::Stopped),
        run.sw_fallback || !run.using_hw ==> !(step_after(run, is_live, result, stderr).1 is
            RetryInSoftware),
{
}

/// The start of a transcode in whole seconds: the ticks divided by ten million
/// towards zero, modulo `2^32`.
pub open spec fn start_secs_spec(ticks: Option<i64>) -> int {
    match ticks {
        Some(t) => (if t >= 0 {
            t as int / 10_000_000
        } else {
            -((-(t as int)) / 10_000_000)
        }) % 0x1_0000_0000,
        None => 0,
    }
}

pub fn start_secs(ticks: Option<i64>) -> (secs: u32)
    ensures
        secs == start_secs_spec(ticks),
{
    match ticks {
        Some(t) => {
            if t >= 0 {
                ((t as u64 / 10_000_000) % 0x1_0000_0000) as u32
            } else {
                let magnitude: u64 = (-(t as i128)) as u64;
                let whole: u64 = magnitude / 10_000_000;
                let low: u64 = whole % 0x1_0000_0000;
                let secs: u64 = (0x1_0000_0000 - low) % 0x1_0000_0000;
                proof {
                    let w = whole as int;
                    assert((-w) % 0x1_0000_0000 == (0x1_0000_0000 - w % 0x1_0000_0000)
                        % 0x1_0000_0000);
                }
                secs as u32
            }
        },
        None => 0,
    }
}

/// A session's files are in its own directory, and its address names the item, the
/// source and the session.
pub proof fn law_addresses_name_the_session(session: TranscodeSession)
    ensures
        begins(session.url(), "/videos/"@ + simple_id(session.item_id)),
        has(session.url(), "PlaySessionId="@ + session.id@),
        has(session.url(), "VideoCodec="@ + session.video_codec@),
        has(session.url(), "SegmentLength="@ + dec(session.segment_length as nat)),
        ends(session.url(), "&MediaSourceId="@ + simple_id(session.media_source_id)),
        session.fmp4() <==> session.video_codec@ == "copy"@ && (session.source_video_codec matches
            Some(c) && (c@ == "hevc"@ || c@ == "h265"@ || c@ == "hvc1"@ || c@ == "hev1"@)),
        session.fmp4() ==> session.segment_ext() == "m4s"@,
        !session.fmp4() ==> session.segment_ext() == "ts"@,
        forall|id: Seq<char>| #[trigger]
            session.segment_file(id) == in_dir(
                session.output_dir@,
                id + "."@ + session.segment_ext(),
            ),
{
    broadcast use {lemma_has_of_sum, lemma_has_itself};

    reveal_strlit("/master.m3u8?PlaySessionId=");
    reveal_strlit("/master.m3u8?");
    reveal_strlit("PlaySessionId=");
    reveal_strlit("&VideoCodec=");
    reveal_strlit("&");
    reveal_strlit("VideoCodec=");
    reveal_strlit("&AudioCodec=aac&SegmentContainer=ts&SegmentLength=");
    reveal_strlit("&AudioCodec=aac&SegmentContainer=ts&");
    reveal_strlit("SegmentLength=");
    assert("/master.m3u8?PlaySessionId="@ =~= "/master.m3u8?"@ + "PlaySessionId="@);
    assert("&VideoCodec="@ =~= "&"@ + "VideoCodec="@);
    assert("&AudioCodec=aac&SegmentContainer=ts&SegmentLength="@
        =~= "&AudioCodec=aac&SegmentContainer=ts&"@ + "SegmentLength="@);
    let a = "/videos/"@ + simple_id(session.item_id);
    let b = "PlaySessionId="@ + session.id@;
    let c = "VideoCodec="@ + session.video_codec@;
    let d = "SegmentLength="@ + dec(session.segment_length as nat);
    let e = "&MediaSourceId="@ + simple_id(session.media_source_id);
    let front = a + "/master.m3u8?"@ + b + "&"@ + c + "&AudioCodec=aac&SegmentContainer=ts&"@ + d;
    assert(session.url() =~= front + e);
    lemma_ends_of_sum(front, e);
    let rest = session.url().skip(a.len() as int);
    assert(session.url() =~= a + rest);
    lemma_ends_of_sum(a, rest);
}

/// How a run ended decides what follows: a failure of the hardware is answered once by
/// software, a live source that ends is started again as long as it may, and else a
/// success completes the transcode and everything else fails it, with what the
/// transcoder said.
pub proof fn law_runs_are_followed_up(
    run: RunState,
    is_live: bool,
    status: String,
    success: bool,
    stderr: Seq<char>,
    error: String,
)
    ensures
        ({
            let (next, step) = step_after(
                run,
                is_live,
                RunResult::Exited { success, status },
                stderr,
            );
            let retried = run.using_hw && !run.sw_fallback && !success;
            &&& step is RetryInSoftware <==> retried
            &&& retried ==> !next.using_hw && next.sw_fallback
            &&& step is RestartLive <==> !retried && is_live && run.live_restarts < 10
            &&& step is Completed <==> success && !is_live
            &&& step is Failed <==> !retried && (is_live && run.live_restarts >= 10 || !is_live
                && !success)
            &&& step matches StepView::Failed(e) ==> has(e, status@) && ends(e, trim_spec(stderr))
        }),
        ({
            let (next, step) = step_after(run, is_live, RunResult::Failed(error), stderr);
            &&& step is RestartLive <==> is_live && run.live_restarts < 10
            &&& step is Failed <==> !(is_live && run.live_restarts < 10)
            &&& step matches StepView::Failed(e) ==> ends(e, error@)
        }),
{
    broadcast use {lemma_has_of_sum, lemma_has_itself};

    lemma_ends_of_sum(
        "live stream ffmpeg exited after 10 restarts (status "@ + status@ + "): "@,
        trim_spec(stderr),
    );
    lemma_ends_of_sum("ffmpeg exited with status "@ + status@ + ": "@, trim_spec(stderr));
    lemma_ends_of_sum("live stream ffmpeg exited after 10 restarts (status error): "@, error@);
    lemma_ends_of_sum("Failed to wait for ffmpeg: "@, error@);
}

/// A start is counted in whole seconds, rounded down.
pub proof fn law_starts_are_whole_seconds(ticks: i64)
    requires
        0 <= ticks < 0x1_0000_0000 * 10_000_000,
    ensures
        start_secs_spec(Some(ticks)) * 10_000_000 <= ticks < (start_secs_spec(Some(ticks)) + 1)
            * 10_000_000,
        start_secs_spec(None) == 0,
{
}

} // verus!
