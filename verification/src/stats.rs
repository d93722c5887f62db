//! Rolling stream statistics: FPS and bitrate windows over the last two
//! seconds, keyframe spacing, and cumulative byte totals. Time is the
//! caller's monotonic clock in milliseconds.

use vstd::prelude::*;
use crate::strutil::{sat_add, sat_add64};

verus! {

/// Length of the rolling windows, in milliseconds.
pub const WINDOW_MS: u64 = 2000;

/// Drop the leading entries older than `cutoff`.
pub open spec fn trim_front(s: Seq<u64>, cutoff: int) -> Seq<u64>
    decreases s.len(),
{
    if s.len() > 0 && s[0] < cutoff {
        trim_front(s.drop_first(), cutoff)
    } else {
        s
    }
}

/// Drop the leading timestamped pairs older than `cutoff`.
pub open spec fn trim_front_pairs(s: Seq<(u64, usize)>, cutoff: int) -> Seq<(u64, usize)>
    decreases s.len(),
{
    if s.len() > 0 && s[0].0 < cutoff {
        trim_front_pairs(s.drop_first(), cutoff)
    } else {
        s
    }
}

/// The sum of the byte counts in a window.
pub open spec fn window_bytes(s: Seq<(u64, usize)>) -> nat
    decreases s.len(),
{
    if s.len() == 0 {
        0
    } else {
        (s[0].1 + window_bytes(s.drop_first())) as nat
    }
}

/// A timestamp sequence is ascending.
pub open spec fn ascending(s: Seq<u64>) -> bool {
    forall|i: int, j: int| 0 <= i <= j < s.len() ==> s[i] <= s[j]
}

/// A timestamped-pair sequence is ascending.
pub open spec fn ascending_pairs(s: Seq<(u64, usize)>) -> bool {
    forall|i: int, j: int| 0 <= i <= j < s.len() ==> s[i].0 <= s[j].0
}

/// Trimming an ascending sequence leaves an ascending suffix of it whose
/// every entry is at least the cutoff.
pub proof fn lemma_trim_front_props(s: Seq<u64>, cutoff: int)
    requires
        ascending(s),
    ensures
        trim_front(s, cutoff).len() <= s.len(),
        forall|i: int|
            0 <= i < trim_front(s, cutoff).len() ==> #[trigger] trim_front(s, cutoff)[i] == s[i
                + (s.len() - trim_front(s, cutoff).len())],
        forall|i: int|
            0 <= i < trim_front(s, cutoff).len() ==> #[trigger] trim_front(s, cutoff)[i] >= cutoff,
        ascending(trim_front(s, cutoff)),
    decreases s.len(),
{
    if s.len() > 0 && s[0] < cutoff {
        assert(ascending(s.drop_first()));
        lemma_trim_front_props(s.drop_first(), cutoff);
        assert(forall|i: int|
            0 <= i < s.drop_first().len() ==> #[trigger] s.drop_first()[i] == s[i + 1]);
    } else if s.len() > 0 {
        assert(forall|i: int| 0 <= i < s.len() ==> #[trigger] s[i] >= s[0]);
    }
}

/// The pairwise version of `lemma_trim_front_props`.
pub proof fn lemma_trim_front_pairs_props(s: Seq<(u64, usize)>, cutoff: int)
    requires
        ascending_pairs(s),
    ensures
        trim_front_pairs(s, cutoff).len() <= s.len(),
        forall|i: int|
            0 <= i < trim_front_pairs(s, cutoff).len() ==> #[trigger] trim_front_pairs(s, cutoff)[i]
                == s[i + (s.len() - trim_front_pairs(s, cutoff).len())],
        forall|i: int|
            0 <= i < trim_front_pairs(s, cutoff).len() ==> (#[trigger] trim_front_pairs(
                s,
                cutoff,
            )[i]).0 >= cutoff,
        ascending_pairs(trim_front_pairs(s, cutoff)),
    decreases s.len(),
{
    if s.len() > 0 && s[0].0 < cutoff {
        assert(ascending_pairs(s.drop_first()));
        lemma_trim_front_pairs_props(s.drop_first(), cutoff);
        assert(forall|i: int|
            0 <= i < s.drop_first().len() ==> #[trigger] s.drop_first()[i] == s[i + 1]);
    } else if s.len() > 0 {
        assert(forall|i: int| 0 <= i < s.len() ==> (#[trigger] s[i]).0 >= s[0].0);
    }
}


/// How `record_video_frame` moves the state: every field of `r` pinned
/// from `s` and the call's arguments.
pub open spec fn video_frame_recorded(
    s: StreamStats,
    byte_count: usize,
    is_keyframe: bool,
    now_ms: u64,
    r: StreamStats,
) -> bool {
    &&& r.stream_start == (if s.stream_start is Some {
        s.stream_start
    } else {
        Some(now_ms)
    })
    &&& r.total_video_bytes == sat_add(s.total_video_bytes as nat, byte_count as nat)
    &&& r.total_audio_bytes == s.total_audio_bytes
    &&& r.video_frame_times@ == trim_front(s.video_frame_times@.push(now_ms), now_ms - WINDOW_MS)
    &&& r.video_byte_window@ == trim_front_pairs(
        s.video_byte_window@.push((now_ms, byte_count)),
        now_ms - WINDOW_MS,
    )
    &&& r.audio_byte_window == s.audio_byte_window
    &&& r.keyframe_interval_ms == (if is_keyframe && s.last_keyframe_time is Some {
        Some((now_ms - s.last_keyframe_time->Some_0) as u64)
    } else {
        s.keyframe_interval_ms
    })
    &&& r.last_keyframe_time == (if is_keyframe {
        Some(now_ms)
    } else {
        s.last_keyframe_time
    })
    &&& r.duration_ms == now_ms - r.stream_start->Some_0
    &&& r.last_now == now_ms
}

/// How `record_audio_frame` moves the state.
pub open spec fn audio_frame_recorded(
    s: StreamStats,
    byte_count: usize,
    now_ms: u64,
    r: StreamStats,
) -> bool {
    &&& r.stream_start == (if s.stream_start is Some {
        s.stream_start
    } else {
        Some(now_ms)
    })
    &&& r.total_audio_bytes == sat_add(s.total_audio_bytes as nat, byte_count as nat)
    &&& r.total_video_bytes == s.total_video_bytes
    &&& r.audio_byte_window@ == trim_front_pairs(
        s.audio_byte_window@.push((now_ms, byte_count)),
        now_ms - WINDOW_MS,
    )
    &&& r.video_frame_times == s.video_frame_times
    &&& r.video_byte_window == s.video_byte_window
    &&& r.keyframe_interval_ms == s.keyframe_interval_ms
    &&& r.last_keyframe_time == s.last_keyframe_time
    &&& r.duration_ms == now_ms - r.stream_start->Some_0
    &&& r.last_now == now_ms
}


/// Below the 64-bit limit the video byte total is an exact running sum:
/// after any run of record calls it equals the sum of their byte counts.
pub proof fn lemma_video_bytes_sum(
    s: StreamStats,
    byte_count: usize,
    is_keyframe: bool,
    now_ms: u64,
    r: StreamStats,
)
    requires
        video_frame_recorded(s, byte_count, is_keyframe, now_ms, r),
        s.total_video_bytes + byte_count <= u64::MAX,
    ensures
        r.total_video_bytes == s.total_video_bytes + byte_count,
{
}

/// The audio byte total is likewise an exact running sum below the limit.
pub proof fn lemma_audio_bytes_sum(
    s: StreamStats,
    byte_count: usize,
    now_ms: u64,
    r: StreamStats,
)
    requires
        audio_frame_recorded(s, byte_count, now_ms, r),
        s.total_audio_bytes + byte_count <= u64::MAX,
    ensures
        r.total_audio_bytes == s.total_audio_bytes + byte_count,
{
}

/// Per-stream rolling statistics.
pub struct StreamStats {
    pub stream_start: Option<u64>,
    pub duration_ms: u64,
    pub video_frame_times: Vec<u64>,
    pub video_byte_window: Vec<(u64, usize)>,
    pub audio_byte_window: Vec<(u64, usize)>,
    pub last_keyframe_time: Option<u64>,
    pub keyframe_interval_ms: Option<u64>,
    pub total_video_bytes: u64,
    pub total_audio_bytes: u64,
    pub last_now: u64,
}

impl StreamStats {
    /// The video frame-arrival window.
    pub open spec fn frame_times(&self) -> Seq<u64> {
        self.video_frame_times@
    }

    /// The video byte window.
    pub open spec fn video_window(&self) -> Seq<(u64, usize)> {
        self.video_byte_window@
    }

    /// The audio byte window.
    pub open spec fn audio_window(&self) -> Seq<(u64, usize)> {
        self.audio_byte_window@
    }

    /// The latest clock value any record call carried.
    pub open spec fn last_time(&self) -> u64 {
        self.last_now
    }

    /// Windows are ascending, bounded by the clock, and already trimmed
    /// to the two-second cutoff.
    pub closed spec fn wf(&self) -> bool {
        &&& ascending(self.video_frame_times@)
        &&& ascending_pairs(self.video_byte_window@)
        &&& ascending_pairs(self.audio_byte_window@)
        &&& forall|i: int|
            0 <= i < self.video_frame_times@.len() ==> #[trigger] self.video_frame_times@[i]
                <= self.last_now
        &&& forall|i: int|
            0 <= i < self.video_byte_window@.len() ==> (#[trigger] self.video_byte_window@[i]).0
                <= self.last_now
        &&& forall|i: int|
            0 <= i < self.audio_byte_window@.len() ==> (#[trigger] self.audio_byte_window@[i]).0
                <= self.last_now
        &&& (self.last_keyframe_time is Some ==> self.last_keyframe_time->Some_0 <= self.last_now)
        &&& (self.stream_start is Some ==> self.stream_start->Some_0 <= self.last_now)
    }

    pub fn new() -> (r: StreamStats)
        ensures
            r.wf(),
            r.stream_start is None,
            r.duration_ms == 0,
            r.frame_times() == Seq::<u64>::empty(),
            r.video_window() == Seq::<(u64, usize)>::empty(),
            r.audio_window() == Seq::<(u64, usize)>::empty(),
            r.keyframe_interval_ms is None,
            r.total_video_bytes == 0,
            r.total_audio_bytes == 0,
            r.last_time() == 0,
    {
        StreamStats {
            stream_start: None,
            duration_ms: 0,
            video_frame_times: Vec::new(),
            video_byte_window: Vec::new(),
            audio_byte_window: Vec::new(),
            last_keyframe_time: None,
            keyframe_interval_ms: None,
            total_video_bytes: 0,
            total_audio_bytes: 0,
            last_now: 0,
        }
    }

    /// Record one video frame at `now_ms`: append to the FPS and bitrate
    /// windows, trim both to the two-second cutoff, track keyframe
    /// spacing, and advance the totals. Every surviving window entry is
    /// within the window of `now_ms`.
    pub fn record_video_frame(&mut self, byte_count: usize, is_keyframe: bool, now_ms: u64)
        requires
            old(self).wf(),
            now_ms >= old(self).last_time(),
        ensures
            final(self).wf(),
            video_frame_recorded(*old(self), byte_count, is_keyframe, now_ms, *final(self)),
            // every entry of each window lies inside the two-second cutoff
            forall|i: int|
                0 <= i < final(self).frame_times().len()
                    ==> #[trigger] final(self).frame_times()[i] + WINDOW_MS >= now_ms,
            forall|i: int|
                0 <= i < final(self).video_window().len()
                    ==> (#[trigger] final(self).video_window()[i]).0 + WINDOW_MS >= now_ms,
    {
        if self.stream_start.is_none() {
            self.stream_start = Some(now_ms);
        }
        self.video_frame_times.push(now_ms);
        self.video_byte_window.push((now_ms, byte_count));
        self.total_video_bytes = sat_add64(self.total_video_bytes, byte_count as u64);

        let cutoff: u64 = if now_ms >= WINDOW_MS {
            now_ms - WINDOW_MS
        } else {
            0
        };
        let ghost pushed = self.video_frame_times@;
        let ghost pushed_bytes = self.video_byte_window@;
        proof {
            assert(ascending(pushed)) by {
                assert(forall|i: int|
                    0 <= i < old(self).video_frame_times@.len() ==> #[trigger] pushed[i] == old(
                        self,
                    ).video_frame_times@[i]);
            }
            assert(ascending_pairs(pushed_bytes)) by {
                assert(forall|i: int|
                    0 <= i < old(self).video_byte_window@.len() ==> #[trigger] pushed_bytes[i]
                        == old(self).video_byte_window@[i]);
            }
        }
        let ghost mid = *self;
        while self.video_frame_times.len() > 0 && self.video_frame_times[0] < cutoff
            invariant
                trim_front(self.video_frame_times@, cutoff as int) == trim_front(
                    pushed,
                    cutoff as int,
                ),
                self.video_byte_window == mid.video_byte_window,
                self.audio_byte_window == mid.audio_byte_window,
                self.stream_start == mid.stream_start,
                self.duration_ms == mid.duration_ms,
                self.last_keyframe_time == mid.last_keyframe_time,
                self.keyframe_interval_ms == mid.keyframe_interval_ms,
                self.total_video_bytes == mid.total_video_bytes,
                self.total_audio_bytes == mid.total_audio_bytes,
                self.last_now == mid.last_now,
            decreases self.video_frame_times@.len(),
        {
            self.video_frame_times.remove(0);
        }
        proof {
            assert(self.video_frame_times@ == trim_front(pushed, cutoff as int));
            lemma_trim_front_props(pushed, cutoff as int);
            if now_ms < WINDOW_MS {
                assert(trim_front(pushed, now_ms - WINDOW_MS) == pushed);
                assert(trim_front(pushed, cutoff as int) == pushed);
            }
        }
        let ghost mid2 = *self;
        while self.video_byte_window.len() > 0 && self.video_byte_window[0].0 < cutoff
            invariant
                trim_front_pairs(self.video_byte_window@, cutoff as int) == trim_front_pairs(
                    pushed_bytes,
                    cutoff as int,
                ),
                self.video_frame_times == mid2.video_frame_times,
                self.audio_byte_window == mid2.audio_byte_window,
                self.stream_start == mid2.stream_start,
                self.duration_ms == mid2.duration_ms,
                self.last_keyframe_time == mid2.last_keyframe_time,
                self.keyframe_interval_ms == mid2.keyframe_interval_ms,
                self.total_video_bytes == mid2.total_video_bytes,
                self.total_audio_bytes == mid2.total_audio_bytes,
                self.last_now == mid2.last_now,
            decreases self.video_byte_window@.len(),
        {
            self.video_byte_window.remove(0);
        }
        proof {
            assert(self.video_byte_window@ == trim_front_pairs(pushed_bytes, cutoff as int));
            lemma_trim_front_pairs_props(pushed_bytes, cutoff as int);
            if now_ms < WINDOW_MS {
                assert(trim_front_pairs(pushed_bytes, now_ms - WINDOW_MS) == pushed_bytes);
                assert(trim_front_pairs(pushed_bytes, cutoff as int) == pushed_bytes);
            }
        }

        if is_keyframe {
            match self.last_keyframe_time {
                Some(last_kf) => {
                    proof {
                        assert(last_kf <= old(self).last_time());
                    }
                    self.keyframe_interval_ms = Some(now_ms - last_kf);
                },
                None => {
                },
            }
            self.last_keyframe_time = Some(now_ms);
        }

        let start = match self.stream_start {
            Some(s) => s,
            None => now_ms,
        };
        self.duration_ms = now_ms - start;
        self.last_now = now_ms;
    }

    /// Record one audio frame at `now_ms`, maintaining the audio byte
    /// window analogously.
    pub fn record_audio_frame(&mut self, byte_count: usize, now_ms: u64)
        requires
            old(self).wf(),
            now_ms >= old(self).last_time(),
        ensures
            final(self).wf(),
            audio_frame_recorded(*old(self), byte_count, now_ms, *final(self)),
            forall|i: int|
                0 <= i < final(self).audio_window().len()
                    ==> (#[trigger] final(self).audio_window()[i]).0 + WINDOW_MS >= now_ms,
    {
        if self.stream_start.is_none() {
            self.stream_start = Some(now_ms);
        }
        self.audio_byte_window.push((now_ms, byte_count));
        self.total_audio_bytes = sat_add64(self.total_audio_bytes, byte_count as u64);

        let cutoff: u64 = if now_ms >= WINDOW_MS {
            now_ms - WINDOW_MS
        } else {
            0
        };
        let ghost pushed_bytes = self.audio_byte_window@;
        proof {
            assert(ascending_pairs(pushed_bytes)) by {
                assert(forall|i: int|
                    0 <= i < old(self).audio_byte_window@.len() ==> #[trigger] pushed_bytes[i]
                        == old(self).audio_byte_window@[i]);
            }
        }
        let ghost mid = *self;
        while self.audio_byte_window.len() > 0 && self.audio_byte_window[0].0 < cutoff
            invariant
                trim_front_pairs(self.audio_byte_window@, cutoff as int) == trim_front_pairs(
                    pushed_bytes,
                    cutoff as int,
                ),
                self.video_frame_times == mid.video_frame_times,
                self.video_byte_window == mid.video_byte_window,
                self.stream_start == mid.stream_start,
                self.duration_ms == mid.duration_ms,
                self.last_keyframe_time == mid.last_keyframe_time,
                self.keyframe_interval_ms == mid.keyframe_interval_ms,
                self.total_video_bytes == mid.total_video_bytes,
                self.total_audio_bytes == mid.total_audio_bytes,
                self.last_now == mid.last_now,
            decreases self.audio_byte_window@.len(),
        {
            self.audio_byte_window.remove(0);
        }
        proof {
            assert(self.audio_byte_window@ == trim_front_pairs(pushed_bytes, cutoff as int));
            lemma_trim_front_pairs_props(pushed_bytes, cutoff as int);
            if now_ms < WINDOW_MS {
                assert(trim_front_pairs(pushed_bytes, now_ms - WINDOW_MS) == pushed_bytes);
                assert(trim_front_pairs(pushed_bytes, cutoff as int) == pushed_bytes);
            }
        }

        let start = match self.stream_start {
            Some(s) => s,
            None => now_ms,
        };
        self.duration_ms = now_ms - start;
        self.last_now = now_ms;
    }

    /// Frames per second over the rolling window: frame count less one,
    /// divided by the window span; `None` below two samples or a
    /// millisecond of span.
    pub fn current_fps(&self) -> (r: Option<u64>)
        requires
            self.wf(),
        ensures
            ({
                let w = self.frame_times();
                if w.len() < 2 || w.last() - w.first() < 1 || w.len() - 1 > u64::MAX / 1000 {
                    r is None
                } else {
                    r == Some((((w.len() - 1) * 1000) / (w.last() - w.first())) as u64)
                }
            }),
    {
        let n = self.video_frame_times.len();
        if n < 2 {
            return None;
        }
        let first = self.video_frame_times[0];
        let last = self.video_frame_times[n - 1];
        proof {
            assert(self.frame_times().first() == self.frame_times()[0]);
            assert(self.frame_times().last() == self.frame_times()[n - 1]);
            assert(first <= last);
        }
        let elapsed = last - first;
        if elapsed < 1 {
            return None;
        }
        if (n - 1) as u64 > u64::MAX / 1000 {
            return None;
        }
        Some(((n - 1) as u64 * 1000) / elapsed)
    }

    /// Video bitrate in whole kilobits per second over the rolling
    /// window: window bytes times eight, divided by the window span.
    pub fn current_video_bitrate_kbps(&self) -> (r: Option<u64>)
        requires
            self.wf(),
        ensures
            r == rolling_kbps(self.video_window()),
    {
        rolling_bitrate_kbps(&self.video_byte_window)
    }

    /// Audio bitrate in whole kilobits per second over the rolling window.
    pub fn current_audio_bitrate_kbps(&self) -> (r: Option<u64>)
        requires
            self.wf(),
        ensures
            r == rolling_kbps(self.audio_window()),
    {
        rolling_bitrate_kbps(&self.audio_byte_window)
    }
}

/// The bitrate a window witnesses: `None` below two samples, a
/// millisecond of span, or byte counts beyond the 64-bit range.
pub open spec fn rolling_kbps(w: Seq<(u64, usize)>) -> Option<u64> {
    if w.len() < 2 || w.last().0 - w.first().0 < 1 || window_bytes(w) * 8 > u64::MAX {
        None
    } else {
        Some(((window_bytes(w) * 8) as int / (w.last().0 - w.first().0) as int) as u64)
    }
}

/// Compute the rolling bitrate of one window.
fn rolling_bitrate_kbps(window: &Vec<(u64, usize)>) -> (r: Option<u64>)
    requires
        ascending_pairs(window@),
    ensures
        r == rolling_kbps(window@),
{
    let n = window.len();
    if n < 2 {
        return None;
    }
    let first = window[0].0;
    let last = window[n - 1].0;
    proof {
        assert(window@.first() == window@[0]);
        assert(window@.last() == window@[n - 1]);
        assert(first <= last);
    }
    let elapsed = last - first;
    if elapsed < 1 {
        return None;
    }
    let mut total: u64 = 0;
    let mut i: usize = 0;
    let mut overflow = false;
    while i < n
        invariant
            n == window@.len(),
            i <= n,
            !overflow ==> total == window_bytes(window@.take(i as int)),
            overflow ==> window_bytes(window@.take(i as int)) > u64::MAX,
            overflow ==> total == u64::MAX,
        decreases n - i,
    {
        let b = window[i].1 as u64;
        proof {
            lemma_window_bytes_snoc(window@, i as int);
        }
        if total > u64::MAX - b {
            overflow = true;
            total = u64::MAX;
        } else if !overflow {
            total = total + b;
        }
        i = i + 1;
    }
    proof {
        assert(window@.take(n as int) =~= window@);
    }
    if overflow || total > u64::MAX / 8 {
        if overflow {
            return None;
        }
        proof {
            assert(window_bytes(window@) * 8 > u64::MAX);
        }
        return None;
    }
    Some((total * 8) / elapsed)
}

/// Window sums grow by the appended entry.
pub proof fn lemma_window_bytes_snoc(s: Seq<(u64, usize)>, i: int)
    requires
        0 <= i < s.len(),
    ensures
        window_bytes(s.take(i + 1)) == window_bytes(s.take(i)) + s[i].1,
    decreases i,
{
    if i == 0 {
        assert(s.take(1).drop_first() =~= s.take(0));
        assert(s.take(0).len() == 0);
    } else {
        assert(s.take(i + 1).drop_first() =~= s.drop_first().take(i));
        assert(s.take(i).drop_first() =~= s.drop_first().take(i - 1));
        lemma_window_bytes_snoc(s.drop_first(), i - 1);
    }
}

} // verus!
