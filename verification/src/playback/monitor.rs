//! Keeping the transcoder a bounded time ahead of the viewer.

use vstd::prelude::*;

use crate::text::{
    chars_of, ends, ends_with, find_char, first_index, last_index, parse_unsigned, rfind_char,
    slice, texts, unsigned_value,
};

verus! {

/// The most seconds that are ever buffered ahead of playback.
pub const MAX_BUFFER_SECS: u32 = 300;

/// The seconds that are always buffered ahead of playback.
pub const MIN_BUFFER_SECS: u32 = 30;

/// The seconds behind playback for which segments are kept.
pub const SEGMENT_KEEP_SECS: u32 = 30;

/// The buffer for a transcode that needs `recovery` seconds to make up for a
/// thirty second disruption, or that never makes up for it: whole segments that
/// cover the time, and between thirty and three hundred seconds in any case.
pub open spec fn buffer_target(recovery: Option<u64>, segment_length: u32) -> nat {
    match recovery {
        None => MAX_BUFFER_SECS as nat,
        Some(r) => {
            let raw = if r < MIN_BUFFER_SECS {
                MIN_BUFFER_SECS as nat
            } else if r > MAX_BUFFER_SECS {
                MAX_BUFFER_SECS as nat
            } else {
                r as nat
            };
            let length = if segment_length == 0 {
                1
            } else {
                segment_length as nat
            };
            let whole = (raw + length - 1) as nat / length * length;
            if whole > MAX_BUFFER_SECS {
                MAX_BUFFER_SECS as nat
            } else {
                whole
            }
        },
    }
}

/// A target is the least whole number of segments that covers the clamped
/// recovery time.
proof fn lemma_round_up(raw: nat, length: nat)
    requires
        length > 0,
        raw > 0,
    ensures
        raw <= (raw + length - 1) as nat / length * length < raw + length,
{
    let n = (raw + length - 1) as nat;
    vstd::arithmetic::div_mod::lemma_fundamental_div_mod(n as int, length as int);
    assert(n / length * length == length * (n / length)) by (nonlinear_arith);
}

/// The clamped and rounded buffer.
pub fn adaptive_buffer_secs(recovery: Option<u64>, segment_length: u32) -> (secs: u32)
    ensures
        secs == buffer_target(recovery, segment_length),
        MIN_BUFFER_SECS <= secs <= MAX_BUFFER_SECS,
{
    match recovery {
        None => MAX_BUFFER_SECS,
        Some(r) => {
            let raw: u64 = if r < MIN_BUFFER_SECS as u64 {
                MIN_BUFFER_SECS as u64
            } else if r > MAX_BUFFER_SECS as u64 {
                MAX_BUFFER_SECS as u64
            } else {
                r
            };
            let length: u64 = if segment_length == 0 {
                1
            } else {
                segment_length as u64
            };
            proof {
                lemma_round_up(raw as nat, length as nat);
            }
            let whole: u64 = (raw + length - 1) / length * length;
            if whole > MAX_BUFFER_SECS as u64 {
                MAX_BUFFER_SECS
            } else {
                whole as u32
            }
        },
    }
}

/// The state of the task that watches one run of the transcoder.
#[derive(Debug, Clone, Copy, PartialEq, Eq, Structural)]
pub struct BufferMonitor {
    /// The transcoder has been stopped.
    pub paused: bool,
    /// The seconds since the run began.
    pub ticks: u32,
    /// The seconds to buffer.
    pub target_secs: u32,
    /// The number of segments when the speed was last measured.
    pub last_sample_segments: u32,
    /// The number in the name of the run's first segment.
    pub first_segment: u32,
}

#[derive(Debug, Clone, Copy, PartialEq, Eq, Structural)]
pub enum Signal {
    Pause,
    Resume,
}

/// What the monitor asks for once a second.
#[derive(Debug, Clone, Copy, PartialEq, Eq, Structural)]
pub struct MonitorAction {
    pub signal: Option<Signal>,
    /// Segments with a number below this one can be deleted.
    pub delete_below: Option<u32>,
}

/// The seconds of media that lie ahead of the viewer.
pub open spec fn ahead_secs(produced: u32, segment_length: u32, playback_secs: u32) -> int {
    if produced * segment_length > playback_secs {
        produced * segment_length - playback_secs
    } else {
        0
    }
}

/// The buffer below which a stopped transcoder goes on: two segments less than
/// the target.
pub open spec fn resume_below(target: u32, segment_length: u32) -> int {
    if target > segment_length * 2 {
        target - segment_length * 2
    } else {
        0
    }
}

impl BufferMonitor {
    pub fn new(first_segment: u32) -> (r: BufferMonitor)
        ensures
            r == (BufferMonitor {
                paused: false,
                ticks: 0,
                target_secs: MAX_BUFFER_SECS,
                last_sample_segments: 0,
                first_segment,
            }),
    {
        BufferMonitor {
            paused: false,
            ticks: 0,
            target_secs: MAX_BUFFER_SECS,
            last_sample_segments: 0,
            first_segment,
        }
    }

    /// The seconds of media made since the last sample, held to `u32`.
    pub open spec fn sampled_secs(&self, produced: u32, segment_length: u32) -> nat {
        let fresh = if produced > self.last_sample_segments {
            (produced - self.last_sample_segments) as nat
        } else {
            0
        };
        if fresh * segment_length <= u32::MAX {
            fresh * segment_length as nat
        } else {
            u32::MAX as nat
        }
    }

    /// Counts a second. Every fifth one gives the seconds of media made since
    /// the last sample.
    pub fn tick(&mut self, produced: u32, segment_length: u32) -> (sample: Option<u32>)
        requires
            old(self).ticks < u32::MAX,
        ensures
            final(self).ticks == old(self).ticks + 1,
            final(self).paused == old(self).paused,
            final(self).target_secs == old(self).target_secs,
            final(self).first_segment == old(self).first_segment,
            if (old(self).ticks + 1) % 5 == 0 {
                &&& sample matches Some(s) && s == old(self).sampled_secs(produced, segment_length)
                &&& final(self).last_sample_segments == produced
            } else {
                &&& sample is None
                &&& final(self).last_sample_segments == old(self).last_sample_segments
            },
    {
        self.ticks = self.ticks + 1;
        if self.ticks % 5 == 0 {
            let fresh: u32 = produced.saturating_sub(self.last_sample_segments);
            assert(fresh * segment_length <= u32::MAX * u32::MAX) by (nonlinear_arith)
                requires
                    fresh <= u32::MAX,
                    segment_length <= u32::MAX,
            ;
            let secs: u64 = fresh as u64 * segment_length as u64;
            let sample: u32 = if secs <= u32::MAX as u64 {
                secs as u32
            } else {
                u32::MAX
            };
            self.last_sample_segments = produced;
            Some(sample)
        } else {
            None
        }
    }

    /// Sets the buffer from the time that a disruption takes to make up for.
    pub fn retarget(&mut self, recovery: Option<u64>, segment_length: u32)
        ensures
            MIN_BUFFER_SECS <= final(self).target_secs <= MAX_BUFFER_SECS,
            *final(self) == (BufferMonitor {
                target_secs: buffer_target(recovery, segment_length) as u32,
                ..*old(self)
            }),
    {
        self.target_secs = adaptive_buffer_secs(recovery, segment_length);
    }

    /// The signal for a running transcoder: it is stopped when the buffer is
    /// full and goes on when two segments of it have been played.
    pub open spec fn signal(
        &self,
        running: bool,
        produced: u32,
        segment_length: u32,
        playback_secs: u32,
    ) -> Option<Signal> {
        let ahead = ahead_secs(produced, segment_length, playback_secs);
        if running && !self.paused && ahead >= self.target_secs {
            Some(Signal::Pause)
        } else if running && self.paused && ahead < resume_below(
            self.target_secs,
            segment_length,
        ) {
            Some(Signal::Resume)
        } else {
            None
        }
    }

    /// The segments to delete, every thirty seconds: those that end more than
    /// thirty seconds before the viewer's place, where the run's first segment
    /// begins at its start.
    pub open spec fn cutoff(&self, segment_length: u32, playback_secs: u32) -> Option<nat> {
        if self.ticks % 30 == 0 && playback_secs > SEGMENT_KEEP_SECS {
            let played = (playback_secs - SEGMENT_KEEP_SECS) / segment_length as int;
            Some(
                if self.first_segment + played <= u32::MAX {
                    (self.first_segment + played) as nat
                } else {
                    u32::MAX as nat
                },
            )
        } else {
            None
        }
    }

    /// Decides what to do this second.
    pub fn decide(
        &mut self,
        running: bool,
        produced: u32,
        segment_length: u32,
        playback_secs: u32,
    ) -> (action: MonitorAction)
        requires
            produced * segment_length <= u32::MAX,
            running && old(self).paused ==> segment_length * 2 <= u32::MAX,
            old(self).cutoff(segment_length, playback_secs) is Some ==> segment_length > 0,
        ensures
            action.signal == old(self).signal(running, produced, segment_length, playback_secs),
            match action.delete_below {
                Some(n) => old(self).cutoff(segment_length, playback_secs) == Some(n as nat),
                None => old(self).cutoff(segment_length, playback_secs) is None,
            },
            *final(self) == (BufferMonitor {
                paused: match action.signal {
                    Some(Signal::Pause) => true,
                    Some(Signal::Resume) => false,
                    None => old(self).paused,
                },
                ..*old(self)
            }),
    {
        let buffered: u32 = produced * segment_length;
        let ahead: u32 = buffered.saturating_sub(playback_secs);
        let signal = if running && !self.paused && ahead >= self.target_secs {
            self.paused = true;
            Some(Signal::Pause)
        } else if running && self.paused && ahead < self.target_secs.saturating_sub(
            segment_length * 2,
        ) {
            self.paused = false;
            Some(Signal::Resume)
        } else {
            None
        };
        let delete_below = if self.ticks % 30 == 0 && playback_secs > SEGMENT_KEEP_SECS {
            let played: u32 = (playback_secs - SEGMENT_KEEP_SECS) / segment_length;
            Some(self.first_segment.saturating_add(played))
        } else {
            None
        };
        MonitorAction { signal, delete_below }
    }

    /// When the watch ends, a transcoder that was stopped goes on.
    pub fn finish(&self, running: bool) -> (signal: Option<Signal>)
        ensures
            signal == if self.paused && running {
                Some(Signal::Resume)
            } else {
                None
            },
    {
        if self.paused && running {
            Some(Signal::Resume)
        } else {
            None
        }
    }
}

/// A signal is not taken back in the same situation: deciding once more on the
/// same numbers gives no signal.
pub proof fn law_no_flapping(
    monitor: BufferMonitor,
    running: bool,
    produced: u32,
    segment_length: u32,
    playback_secs: u32,
)
    ensures
        ({
            let signal = monitor.signal(running, produced, segment_length, playback_secs);
            let next = BufferMonitor {
                paused: match signal {
                    Some(Signal::Pause) => true,
                    Some(Signal::Resume) => false,
                    None => monitor.paused,
                },
                ..monitor
            };
            next.signal(running, produced, segment_length, playback_secs) is None
        }),
{
}

/// A segment that playback can still reach back to is never deleted: one that
/// ends within the last thirty seconds, where `index` counts the run's segments.
pub proof fn law_recent_segments_are_kept(
    monitor: BufferMonitor,
    segment_length: u32,
    playback_secs: u32,
    index: nat,
)
    requires
        segment_length > 0,
        (index + 1) * segment_length > playback_secs - SEGMENT_KEEP_SECS,
    ensures
        monitor.cutoff(segment_length, playback_secs) matches Some(n) ==> monitor.first_segment
            + index >= n,
{
    if playback_secs > SEGMENT_KEEP_SECS {
        let x = playback_secs - SEGMENT_KEEP_SECS;
        let n = x / segment_length as int;
        assert(index >= n) by (nonlinear_arith)
            requires
                (index + 1) * segment_length > x,
                n == x / segment_length as int,
                segment_length > 0,
                x > 0,
                index >= 0,
        ;
    }
}

/// The number in a segment's file name: between its last underscore and the
/// first full stop after it.
pub open spec fn segment_index_spec(name: Seq<char>) -> Option<nat> {
    let tail = name.skip(last_index(name, '_') + 1);
    unsigned_value(tail.take(first_index(tail, '.')), u32::MAX as nat)
}

pub fn segment_index(name: &str) -> (index: Option<u32>)
    ensures
        match index {
            Some(i) => segment_index_spec(name@) == Some(i as nat),
            None => segment_index_spec(name@) is None,
        },
{
    let chars = chars_of(name);
    let from: usize = match rfind_char(&chars, '_') {
        Some(i) => i + 1,
        None => 0,
    };
    let tail = chars_of(slice(&chars, from, chars.len()).as_str());
    assert(tail@ =~= name@.skip(last_index(name@, '_') + 1));
    let to = find_char(&tail, '.');
    let digits = slice(&tail, 0, to);
    assert(digits@ =~= tail@.take(to as int));
    match parse_unsigned(digits.as_str(), u32::MAX as u64) {
        Some(n) => Some(n as u32),
        None => None,
    }
}

/// Whether a file is a segment with a number below `cutoff`.
pub fn is_old_segment(name: &str, cutoff_idx: u32) -> (r: bool)
    ensures
        r == (segment_index_spec(name@) matches Some(i) && i < cutoff_idx),
{
    match segment_index(name) {
        Some(i) => i < cutoff_idx,
        None => false,
    }
}

/// Whether a file is a segment: a transport stream or a fragment of an MP4.
pub open spec fn segment_file(name: Seq<char>) -> bool {
    ends(name, ".ts"@) || ends(name, ".m4s"@)
}

pub fn is_segment(name: &str) -> (r: bool)
    ensures
        r == segment_file(name@),
{
    ends_with(name, ".ts") || ends_with(name, ".m4s")
}

/// The number of segments among the files of a directory.
pub open spec fn segment_count(names: Seq<Seq<char>>) -> nat {
    names.filter(|n: Seq<char>| segment_file(n)).len()
}

pub fn count_segments(names: &Vec<String>) -> (n: u32)
    requires
        names.len() <= u32::MAX,
    ensures
        n == segment_count(texts(names@)),
{
    let mut n: u32 = 0;
    let mut i: usize = 0;
    let ghost all = texts(names@);
    let ghost kept = |n: Seq<char>| segment_file(n);
    while i < names.len()
        invariant
            i <= names.len() <= u32::MAX,
            all == texts(names@),
            kept == (|n: Seq<char>| segment_file(n)),
            n == all.take(i as int).filter(kept).len(),
            n <= i,
        decreases names.len() - i,
    {
        proof {
            assert(all.take(i + 1).drop_last() =~= all.take(i as int));
            reveal(Seq::filter);
        }
        if is_segment(names[i].as_str()) {
            n = n + 1;
        }
        i = i + 1;
    }
    assert(all.take(all.len() as int) =~= all);
    n
}

/// One more than the highest number of a segment among the files of a directory.
pub open spec fn segment_end(names: Seq<Seq<char>>) -> nat
    decreases names.len(),
{
    if names.len() == 0 {
        0
    } else {
        let rest = segment_end(names.drop_last());
        match segment_index_spec(names.last()) {
            Some(i) if segment_file(names.last()) && i + 1 > rest => i + 1,
            _ => rest,
        }
    }
}

/// The segments that a run has made, those that were deleted since among them:
/// the numbers from the first one on, and no fewer than there are files.
pub open spec fn produced(names: Seq<Seq<char>>, first: u32) -> nat {
    let numbered = segment_end(names) - first;
    let held = if numbered > u32::MAX {
        u32::MAX as int
    } else {
        numbered
    };
    if held > segment_count(names) {
        held as nat
    } else {
        segment_count(names)
    }
}

pub fn produced_segments(names: &Vec<String>, first: u32) -> (n: u32)
    requires
        names.len() <= u32::MAX,
    ensures
        n == produced(texts(names@), first),
        n >= segment_count(texts(names@)),
{
    let ghost all = texts(names@);
    let mut end: u64 = 0;
    let mut i: usize = 0;
    while i < names.len()
        invariant
            i <= names.len(),
            all == texts(names@),
            end == segment_end(all.take(i as int)),
            end <= u32::MAX + 1,
        decreases names.len() - i,
    {
        proof {
            assert(all.take(i + 1).drop_last() =~= all.take(i as int));
            assert(all.take(i + 1).last() == all[i as int]);
        }
        let name = names[i].as_str();
        if is_segment(name) {
            match segment_index(name) {
                Some(k) if k as u64 + 1 > end => {
                    end = k as u64 + 1;
                },
                _ => {},
            }
        }
        i = i + 1;
    }
    assert(all.take(all.len() as int) =~= all);
    let count: u32 = count_segments(names);
    if end > first as u64 + count as u64 {
        let numbered: u64 = end - first as u64;
        if numbered <= u32::MAX as u64 {
            numbered as u32
        } else {
            u32::MAX
        }
    } else {
        count
    }
}

/// A segment file is counted from its number: those before it were made too.
pub proof fn law_numbered_segments_are_produced(names: Seq<Seq<char>>, first: u32, k: int)
    requires
        0 <= k < names.len(),
        segment_file(names[k]),
        segment_index_spec(names[k]) is Some,
    ensures
        produced(names, first) >= segment_index_spec(names[k])->Some_0 + 1 - first || produced(
            names,
            first,
        ) == u32::MAX,
{
    lemma_segment_end(names, k);
}

proof fn lemma_segment_end(names: Seq<Seq<char>>, k: int)
    requires
        0 <= k < names.len(),
        segment_file(names[k]),
        segment_index_spec(names[k]) is Some,
    ensures
        segment_end(names) >= segment_index_spec(names[k])->Some_0 + 1,
    decreases names.len(),
{
    if k < names.len() - 1 {
        assert(names.drop_last()[k] == names[k]);
        lemma_segment_end(names.drop_last(), k);
    }
}

/// A transcoder that runs never gets further ahead than the largest buffer and
/// one segment: with that much in files that the viewer has not reached, it is
/// stopped, whatever its target was last set to.
pub proof fn law_full_buffer_pauses(
    monitor: BufferMonitor,
    names: Seq<Seq<char>>,
    segment_length: u32,
    playback_secs: u32,
    made: u32,
)
    requires
        monitor.target_secs <= MAX_BUFFER_SECS,
        made == produced(names, monitor.first_segment),
        segment_count(names) * segment_length - playback_secs >= MAX_BUFFER_SECS + segment_length,
    ensures
        !monitor.paused ==> monitor.signal(true, made, segment_length, playback_secs) == Some(
            Signal::Pause,
        ),
        monitor.paused ==> monitor.signal(true, made, segment_length, playback_secs) is None,
{
    assert(made >= segment_count(names));
    assert(made * segment_length >= segment_count(names) * segment_length) by (nonlinear_arith)
        requires
            made >= segment_count(names),
            segment_length >= 0,
    ;
}

/// The transcoder is stopped exactly when it runs with the full buffer ahead of the
/// viewer, and goes on exactly when it is stopped and less than the buffer without two
/// segments is left.
pub proof fn law_signals(
    monitor: BufferMonitor,
    running: bool,
    made: u32,
    segment_length: u32,
    playback_secs: u32,
)
    requires
        made * segment_length >= playback_secs,
        monitor.target_secs >= 2 * segment_length,
    ensures
        ({
            let ahead = made * segment_length - playback_secs;
            let signal = monitor.signal(running, made, segment_length, playback_secs);
            &&& signal == Some(Signal::Pause) <==> running && !monitor.paused && ahead
                >= monitor.target_secs
            &&& signal == Some(Signal::Resume) <==> running && monitor.paused && ahead
                < monitor.target_secs - 2 * segment_length
        }),
{
}

/// A transcode whose disruptions take `recovery` seconds to make up for buffers at least
/// that long, in whole segments, within thirty and three hundred seconds; one that never
/// makes up for them buffers as much as it may.
pub proof fn law_buffers_cover_the_recovery(recovery: u64, segment_length: u32)
    requires
        0 < segment_length <= 30,
    ensures
        ({
            let t = buffer_target(Some(recovery), segment_length);
            &&& 30 <= t <= 300
            &&& recovery <= 300 ==> t >= recovery
            &&& t < 300 ==> t % (segment_length as nat) == 0
            &&& 30 <= recovery && recovery + segment_length <= 300 ==> t < recovery + segment_length
            &&& recovery < 30 ==> t < 30 + segment_length
            &&& recovery >= 300 ==> t == 300
        }),
        buffer_target(None, segment_length) == 300,
{
    let raw: nat = if recovery < 30 {
        30
    } else if recovery > 300 {
        300
    } else {
        recovery as nat
    };
    let length = segment_length as nat;
    lemma_round_up(raw, length);
    let n = (raw + length - 1) as nat / length;
    vstd::arithmetic::div_mod::lemma_mod_multiples_basic(n as int, length as int);
}

/// Every fifth second gives the seconds of media that were made since the last sample.
pub proof fn law_samples(monitor: BufferMonitor, made: u32, segment_length: u32)
    requires
        made >= monitor.last_sample_segments,
        (made - monitor.last_sample_segments) * segment_length <= u32::MAX,
    ensures
        monitor.sampled_secs(made, segment_length) == (made - monitor.last_sample_segments)
            * segment_length,
{
}

/// Segments that lie further back than half a minute are deleted, every half minute.
pub proof fn law_played_segments_are_deleted(
    monitor: BufferMonitor,
    segment_length: u32,
    playback_secs: u32,
    index: nat,
)
    requires
        segment_length > 0,
        monitor.ticks % 30 == 0,
        monitor.first_segment + playback_secs <= u32::MAX,
        (index + 1) * segment_length + 30 <= playback_secs,
    ensures
        monitor.cutoff(segment_length, playback_secs) matches Some(n) && monitor.first_segment
            + index < n,
{
    let x = playback_secs - SEGMENT_KEEP_SECS;
    let n = x / segment_length as int;
    assert(index + 1 <= n) by (nonlinear_arith)
        requires
            (index + 1) * segment_length <= x,
            n == x / segment_length as int,
            segment_length > 0,
    ;
    assert(n <= x) by (nonlinear_arith)
        requires
            n == x / segment_length as int,
            segment_length > 0,
            x >= 0,
    ;
    assert(index + 1 > 0);
    assert((index + 1) * segment_length >= 1) by (nonlinear_arith)
        requires
            segment_length >= 1,
            index >= 0,
    ;
}

/// A segment's file bears its number: what the transcoder names after the number `n` is
/// read back as `n`.
pub proof fn law_segment_numbers_are_read_back(n: nat, ext: Seq<char>)
    requires
        n <= u32::MAX,
    ensures
        ext.len() > 0 && ext[0] == '.' && !ext.contains('_') ==> segment_index_spec(
            "segment_"@ + crate::text::dec(n) + ext,
        ) == Some(n),
{
    if ext.len() > 0 && ext[0] == '.' && !ext.contains('_') {
        let digits = crate::text::dec(n);
        let name = "segment_"@ + digits + ext;
        reveal_strlit("segment_");
        crate::text::law_decimal_reads_back(n);
        assert("segment_"@[7] == '_' && "segment_"@.len() == 8);
        assert forall|i: int| 8 <= i < name.len() implies name[i] != '_' by {
            if i < 8 + digits.len() {
                assert(name[i] == digits[i - 8]);
                assert(crate::text::is_digit_spec(digits[i - 8]));
            } else {
                assert(name[i] == ext[i - 8 - digits.len()]);
                assert(ext.contains(ext[i - 8 - digits.len()]));
            }
        }
        lemma_last_at(name, '_', 7);
        let tail = name.skip(8);
        assert(tail =~= digits + ext);
        assert forall|i: int| 0 <= i < digits.len() implies tail[i] != '.' by {
            assert(tail[i] == digits[i]);
            assert(crate::text::is_digit_spec(digits[i]));
        }
        lemma_first_at(tail, '.', digits.len() as int);
        assert(tail.take(digits.len() as int) =~= digits);
    }
}

proof fn lemma_last_at(s: Seq<char>, c: char, k: int)
    requires
        0 <= k < s.len(),
        s[k] == c,
        forall|i: int| k < i < s.len() ==> s[i] != c,
    ensures
        last_index(s, c) == k,
    decreases s.len(),
{
    if k < s.len() - 1 {
        assert(s.last() != c);
        assert(s.drop_last()[k] == c);
        lemma_last_at(s.drop_last(), c, k);
    }
}

proof fn lemma_first_at(s: Seq<char>, c: char, k: int)
    requires
        0 <= k < s.len(),
        s[k] == c,
        forall|i: int| 0 <= i < k ==> s[i] != c,
    ensures
        first_index(s, c) == k,
    decreases s.len(),
{
    if k > 0 {
        assert(s.skip(1)[k - 1] == c);
        assert forall|i: int| 0 <= i < k - 1 implies s.skip(1)[i] != c by {
            assert(s.skip(1)[i] == s[i + 1]);
        }
        lemma_first_at(s.skip(1), c, k - 1);
    }
}

/// Files that end in `.ts` or `.m4s` are segments, and each counts once.
pub proof fn law_segments_are_counted(names: Seq<Seq<char>>, stem: Seq<char>, other: Seq<char>)
    ensures
        segment_count(Seq::empty()) == 0,
        segment_count(names.push(stem + ".ts"@)) == segment_count(names) + 1,
        segment_count(names.push(stem + ".m4s"@)) == segment_count(names) + 1,
        !ends(other, ".ts"@) && !ends(other, ".m4s"@) ==> segment_count(names.push(other))
            == segment_count(names),
        names.len() == 0 ==> produced(names, 0) == 0,
{
    reveal(Seq::filter);
    crate::text::lemma_ends_of_sum(stem, ".ts"@);
    crate::text::lemma_ends_of_sum(stem, ".m4s"@);
    assert(names.push(stem + ".ts"@).drop_last() =~= names);
    assert(names.push(stem + ".m4s"@).drop_last() =~= names);
    assert(names.push(other).drop_last() =~= names);
    assert(names.push(stem + ".ts"@).last() == stem + ".ts"@);
    assert(names.push(stem + ".m4s"@).last() == stem + ".m4s"@);
    assert(names.push(other).last() == other);
}

} // verus!
