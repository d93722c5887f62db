//! Stream-health diagnostics: per-event bookkeeping and the throttled
//! rule engine that rebuilds the issue list. Time is the caller's
//! monotonic clock in milliseconds.

use vstd::prelude::*;
use crate::strutil::{
    contains_sub, dec_chars, int_chars, secs1_chars, secs2_chars, str_contains, u64_string,
    i64_string, secs1_string, secs2_string,
};

verus! {

/// Subtraction floored at zero.
pub open spec fn sub_floor(a: u64, b: u64) -> u64 {
    if a >= b {
        (a - b) as u64
    } else {
        0u64
    }
}

/// Severity level for diagnostic findings.
#[derive(Clone, Copy, PartialEq, Eq, Structural, Debug)]
pub enum Severity {
    Info,
    Warning,
    Error,
}

/// A rank that orders severities: higher is more severe.
pub open spec fn severity_rank(s: Severity) -> int {
    match s {
        Severity::Info => 0,
        Severity::Warning => 1,
        Severity::Error => 2,
    }
}

/// A single finding about the stream.
pub struct Diagnostic {
    pub severity: Severity,
    pub category: String,
    pub message: String,
}

/// The mathematical content of a [`Diagnostic`].
#[verifier::ext_equal]
pub struct DiagView {
    pub severity: Severity,
    pub category: Seq<char>,
    pub message: Seq<char>,
}

impl View for Diagnostic {
    type V = DiagView;

    open spec fn view(&self) -> DiagView {
        DiagView { severity: self.severity, category: self.category@, message: self.message@ }
    }
}

impl Diagnostic {
    pub fn info(category: &str, message: String) -> (r: Diagnostic)
        ensures
            r@ == (DiagView { severity: Severity::Info, category: category@, message: message@ }),
    {
        Diagnostic { severity: Severity::Info, category: String::from_str(category), message }
    }

    pub fn warning(category: &str, message: String) -> (r: Diagnostic)
        ensures
            r@ == (DiagView {
                severity: Severity::Warning,
                category: category@,
                message: message@,
            }),
    {
        Diagnostic { severity: Severity::Warning, category: String::from_str(category), message }
    }

    pub fn error(category: &str, message: String) -> (r: Diagnostic)
        ensures
            r@ == (DiagView { severity: Severity::Error, category: category@, message: message@ }),
    {
        Diagnostic { severity: Severity::Error, category: String::from_str(category), message }
    }
}

/// The streaming services whose ingest rules are checked.
#[derive(Clone, Copy, PartialEq, Eq, Structural, Debug)]
pub enum ServiceProfile {
    Twitch,
    YouTube,
    Generic,
}

/// The display name of each service profile.
pub open spec fn profile_chars(p: ServiceProfile) -> Seq<char> {
    match p {
        ServiceProfile::Twitch => "Twitch"@,
        ServiceProfile::YouTube => "YouTube"@,
        ServiceProfile::Generic => "Generic"@,
    }
}

impl ServiceProfile {
    pub fn name(&self) -> (r: &'static str)
        ensures
            r@ == profile_chars(*self),
    {
        match self {
            ServiceProfile::Twitch => "Twitch",
            ServiceProfile::YouTube => "YouTube",
            ServiceProfile::Generic => "Generic",
        }
    }

    /// The keyframe-interval ceiling for this service, in milliseconds.
    pub fn max_keyframe_interval_ms(&self) -> (r: u64)
        ensures
            r == max_kf_ms(*self),
    {
        match self {
            ServiceProfile::Twitch => 2000,
            ServiceProfile::YouTube => 4000,
            ServiceProfile::Generic => 4000,
        }
    }
}

/// The keyframe-interval ceiling, in milliseconds.
pub open spec fn max_kf_ms(p: ServiceProfile) -> u64 {
    match p {
        ServiceProfile::Twitch => 2000u64,
        ServiceProfile::YouTube => 4000u64,
        ServiceProfile::Generic => 4000u64,
    }
}

/// A resolution on the common-format whitelist.
pub open spec fn is_standard_resolution(w: u32, h: u32) -> bool {
    ||| (w == 1920 && h == 1080)
    ||| (w == 1280 && h == 720)
    ||| (w == 854 && h == 480)
    ||| (w == 640 && h == 360)
    ||| (w == 2560 && h == 1440)
    ||| (w == 3840 && h == 2160)
    ||| (w == 1080 && h == 1920)
    ||| (w == 720 && h == 1280)
}

/// A sample rate the service accepts.
pub open spec fn rate_allowed(p: ServiceProfile, sr: u32) -> bool {
    match p {
        ServiceProfile::Twitch => sr == 44100 || sr == 48000,
        ServiceProfile::YouTube => sr == 44100 || sr == 48000 || sr == 96000,
        ServiceProfile::Generic => sr == 22050 || sr == 44100 || sr == 48000 || sr == 96000,
    }
}

/// Tracks stream health and compatibility issues.
pub struct StreamDiagnostics {
    pub profile: ServiceProfile,
    pub avc_seq_header_received: bool,
    pub avc_seq_header_time: Option<u64>,
    pub aac_seq_header_received: bool,
    pub aac_seq_header_time: Option<u64>,
    pub first_keyframe_time: Option<u64>,
    pub stream_start_time: Option<u64>,
    pub last_video_ts: Option<u32>,
    pub last_audio_ts: Option<u32>,
    pub video_ts_rollbacks: u32,
    pub audio_ts_rollbacks: u32,
    pub max_video_ts_gap: u32,
    pub max_audio_ts_gap: u32,
    pub max_av_desync_ms: i64,
    pub metadata_received: bool,
    pub metadata_has_dimensions: bool,
    pub metadata_has_framerate: bool,
    pub metadata_has_bitrate: bool,
    pub has_b_frames: bool,
    pub keyframe_intervals: Vec<u64>,
    pub diagnostics: Vec<Diagnostic>,
    pub last_check_time: Option<u64>,
}

/// Element-wise views of a diagnostic buffer.
pub open spec fn diags_view(v: Seq<Diagnostic>) -> Seq<DiagView> {
    Seq::new(v.len(), |i: int| v[i]@)
}

// ─── The rule table, as mathematical message and list builders ───

#[verifier::opaque]
pub open spec fn msg_kf_exceeds(iv_ms: u64, p: ServiceProfile) -> Seq<char> {
    "Keyframe interval "@ + secs1_chars(iv_ms as nat) + "s exceeds "@ + profile_chars(p)
        + " max ("@ + dec_chars((max_kf_ms(p) / 1000) as nat) + "s)"@
}

#[verifier::opaque]
pub open spec fn msg_kf_near(iv_ms: u64, p: ServiceProfile) -> Seq<char> {
    "Keyframe interval "@ + secs1_chars(iv_ms as nat) + "s near "@ + profile_chars(p) + " limit ("@
        + dec_chars((max_kf_ms(p) / 1000) as nat) + "s)"@
}

#[verifier::opaque]
pub open spec fn msg_no_keyframe(elapsed_ms: u64) -> Seq<char> {
    "No keyframe received after "@ + secs1_chars(elapsed_ms as nat) + "s"@
}

#[verifier::opaque]
pub open spec fn msg_late_keyframe(delay_ms: u64) -> Seq<char> {
    "First keyframe took "@ + secs2_chars(delay_ms as nat) + "s to arrive"@
}

#[verifier::opaque]
pub open spec fn msg_odd_resolution(w: u32, h: u32) -> Seq<char> {
    "Resolution "@ + dec_chars(w as nat) + "x"@ + dec_chars(h as nat)
        + " has odd dimensions (must be even)"@
}

#[verifier::opaque]
pub open spec fn msg_bad_rate(sr: u32, p: ServiceProfile) -> Seq<char> {
    dec_chars(sr as nat) + " Hz sample rate not supported by "@ + profile_chars(p)
}

#[verifier::opaque]
pub open spec fn msg_channels(ch: u8) -> Seq<char> {
    dec_chars(ch as nat) + " channels not supported by Twitch (max 2)"@
}

#[verifier::opaque]
pub open spec fn msg_rollbacks(n: u32, which: Seq<char>) -> Seq<char> {
    dec_chars(n as nat) + which
}

#[verifier::opaque]
pub open spec fn msg_gap(gap: u32, which: Seq<char>) -> Seq<char> {
    which + dec_chars(gap as nat) + "ms)"@
}

#[verifier::opaque]
pub open spec fn msg_desync(d: i64) -> Seq<char> {
    "A/V desync detected ("@ + int_chars(d as int) + "ms)"@
}

/// The first half of the Error-severity findings, in rule order.
pub open spec fn error_diags_head(
    d: StreamDiagnostics,
    video_width: Option<u32>,
    video_height: Option<u32>,
    kf_interval_ms: Option<u64>,
) -> Seq<DiagView> {
    let e1: Seq<DiagView> = if !d.avc_seq_header_received {
        seq![
            DiagView {
                severity: Severity::Error,
                category: "Video"@,
                message: "No AVC sequence header received"@,
            },
        ]
    } else {
        Seq::empty()
    };
    let e2: Seq<DiagView> = if !d.aac_seq_header_received {
        seq![
            DiagView {
                severity: Severity::Error,
                category: "Audio"@,
                message: "No AAC sequence header received"@,
            },
        ]
    } else {
        Seq::empty()
    };
    let e3: Seq<DiagView> = if kf_interval_ms is Some && kf_interval_ms->Some_0 > max_kf_ms(
        d.profile,
    ) {
        seq![
            DiagView {
                severity: Severity::Error,
                category: "Video"@,
                message: msg_kf_exceeds(kf_interval_ms->Some_0, d.profile),
            },
        ]
    } else {
        Seq::empty()
    };
    let e4: Seq<DiagView> = if video_width is Some && video_height is Some && ((
    !is_standard_resolution(video_width->Some_0, video_height->Some_0) && video_width->Some_0 % 2
        != 0) || video_height->Some_0 % 2 != 0) {
        seq![
            DiagView {
                severity: Severity::Error,
                category: "Video"@,
                message: msg_odd_resolution(video_width->Some_0, video_height->Some_0),
            },
        ]
    } else {
        Seq::empty()
    };
    e1 + e2 + e3 + e4
}

/// The second half of the Error-severity findings, in rule order.
pub open spec fn error_diags_tail(
    d: StreamDiagnostics,
    audio_sample_rate: Option<u32>,
    audio_channels: Option<u8>,
) -> Seq<DiagView> {
    let e5: Seq<DiagView> = if audio_sample_rate is Some && !rate_allowed(
        d.profile,
        audio_sample_rate->Some_0,
    ) {
        seq![
            DiagView {
                severity: Severity::Error,
                category: "Audio"@,
                message: msg_bad_rate(audio_sample_rate->Some_0, d.profile),
            },
        ]
    } else {
        Seq::empty()
    };
    let e6: Seq<DiagView> = if audio_channels is Some && audio_channels->Some_0 != 1
        && audio_channels->Some_0 > 2 && d.profile is Twitch {
        seq![
            DiagView {
                severity: Severity::Error,
                category: "Audio"@,
                message: msg_channels(audio_channels->Some_0),
            },
        ]
    } else {
        Seq::empty()
    };
    let e7: Seq<DiagView> = if d.video_ts_rollbacks > 0 {
        seq![
            DiagView {
                severity: Severity::Error,
                category: "Timing"@,
                message: msg_rollbacks(d.video_ts_rollbacks, " video timestamp rollback(s) detected"@),
            },
        ]
    } else {
        Seq::empty()
    };
    let e8: Seq<DiagView> = if d.audio_ts_rollbacks > 0 {
        seq![
            DiagView {
                severity: Severity::Error,
                category: "Timing"@,
                message: msg_rollbacks(d.audio_ts_rollbacks, " audio timestamp rollback(s) detected"@),
            },
        ]
    } else {
        Seq::empty()
    };
    e5 + e6 + e7 + e8
}

/// The Error-severity findings, in rule order.
pub open spec fn error_diags(
    d: StreamDiagnostics,
    video_width: Option<u32>,
    video_height: Option<u32>,
    audio_sample_rate: Option<u32>,
    audio_channels: Option<u8>,
    kf_interval_ms: Option<u64>,
) -> Seq<DiagView> {
    error_diags_head(d, video_width, video_height, kf_interval_ms) + error_diags_tail(
        d,
        audio_sample_rate,
        audio_channels,
    )
}

/// The first half of the Warning-severity findings, in rule order.
pub open spec fn warning_diags_head(
    d: StreamDiagnostics,
    audio_channels: Option<u8>,
    aac_profile: Option<Seq<char>>,
    kf_interval_ms: Option<u64>,
    now_ms: u64,
) -> Seq<DiagView> {
    let w1: Seq<DiagView> = if d.stream_start_time is Some && d.first_keyframe_time is None
        && sub_floor(now_ms, d.stream_start_time->Some_0) > 2000 {
        seq![
            DiagView {
                severity: Severity::Warning,
                category: "Video"@,
                message: msg_no_keyframe(sub_floor(now_ms, d.stream_start_time->Some_0)),
            },
        ]
    } else if d.stream_start_time is Some && d.first_keyframe_time is Some && sub_floor(
        d.first_keyframe_time->Some_0,
        d.stream_start_time->Some_0,
    ) > 1000 {
        seq![
            DiagView {
                severity: Severity::Warning,
                category: "Video"@,
                message: msg_late_keyframe(
                    sub_floor(d.first_keyframe_time->Some_0, d.stream_start_time->Some_0),
                ),
            },
        ]
    } else {
        Seq::empty()
    };
    let w2: Seq<DiagView> = if kf_interval_ms is Some && !(kf_interval_ms->Some_0 > max_kf_ms(
        d.profile,
    )) && 10 * kf_interval_ms->Some_0 > 9 * max_kf_ms(d.profile) {
        seq![
            DiagView {
                severity: Severity::Warning,
                category: "Video"@,
                message: msg_kf_near(kf_interval_ms->Some_0, d.profile),
            },
        ]
    } else {
        Seq::empty()
    };
    let w3: Seq<DiagView> = if d.has_b_frames && d.profile is Twitch {
        seq![
            DiagView {
                severity: Severity::Warning,
                category: "Video"@,
                message: "B-frames detected (may increase latency on Twitch)"@,
            },
        ]
    } else {
        Seq::empty()
    };
    let w4: Seq<DiagView> = if audio_channels is Some && audio_channels->Some_0 == 1 {
        seq![
            DiagView {
                severity: Severity::Warning,
                category: "Audio"@,
                message: "Mono audio (stereo recommended for streaming)"@,
            },
        ]
    } else {
        Seq::empty()
    };
    let w5: Seq<DiagView> = if aac_profile is Some && contains_sub(aac_profile->Some_0, "Main"@) {
        seq![
            DiagView {
                severity: Severity::Warning,
                category: "Audio"@,
                message: "AAC Main profile (AAC-LC recommended for compatibility)"@,
            },
        ]
    } else if aac_profile is Some && (contains_sub(aac_profile->Some_0, "HE-AAC"@) || contains_sub(
        aac_profile->Some_0,
        "SBR"@,
    )) && d.profile is Twitch {
        seq![
            DiagView {
                severity: Severity::Warning,
                category: "Audio"@,
                message: "HE-AAC may have compatibility issues on Twitch"@,
            },
        ]
    } else {
        Seq::empty()
    };
    w1 + w2 + w3 + w4 + w5
}

/// The second half of the Warning-severity findings, in rule order.
pub open spec fn warning_diags_tail(d: StreamDiagnostics, now_ms: u64) -> Seq<DiagView> {
    let w6: Seq<DiagView> = if d.max_video_ts_gap > 1000 {
        seq![
            DiagView {
                severity: Severity::Warning,
                category: "Timing"@,
                message: msg_gap(d.max_video_ts_gap, "Large video timestamp gap detected ("@),
            },
        ]
    } else {
        Seq::empty()
    };
    let w7: Seq<DiagView> = if d.max_audio_ts_gap > 1000 {
        seq![
            DiagView {
                severity: Severity::Warning,
                category: "Timing"@,
                message: msg_gap(d.max_audio_ts_gap, "Large audio timestamp gap detected ("@),
            },
        ]
    } else {
        Seq::empty()
    };
    let w8: Seq<DiagView> = if d.max_av_desync_ms > 500 || d.max_av_desync_ms < -500 {
        seq![
            DiagView {
                severity: Severity::Warning,
                category: "Timing"@,
                message: msg_desync(d.max_av_desync_ms),
            },
        ]
    } else {
        Seq::empty()
    };
    let w9: Seq<DiagView> = if !d.metadata_received && d.stream_start_time is Some && sub_floor(
        now_ms,
        d.stream_start_time->Some_0,
    ) >= 3000 {
        seq![
            DiagView {
                severity: Severity::Warning,
                category: "Metadata"@,
                message: "No onMetaData received from encoder"@,
            },
        ]
    } else {
        Seq::empty()
    };
    w6 + w7 + w8 + w9
}

/// The Warning-severity findings, in rule order.
pub open spec fn warning_diags(
    d: StreamDiagnostics,
    video_profile: Option<Seq<char>>,
    audio_sample_rate: Option<u32>,
    audio_channels: Option<u8>,
    aac_profile: Option<Seq<char>>,
    kf_interval_ms: Option<u64>,
    now_ms: u64,
) -> Seq<DiagView> {
    warning_diags_head(d, audio_channels, aac_profile, kf_interval_ms, now_ms)
        + warning_diags_tail(d, now_ms)
}

/// The Info-severity findings, in rule order.
pub open spec fn info_diags(d: StreamDiagnostics, video_profile: Option<Seq<char>>) -> Seq<
    DiagView,
> {
    let i1: Seq<DiagView> = if d.has_b_frames && !(d.profile is Twitch) {
        seq![
            DiagView {
                severity: Severity::Info,
                category: "Video"@,
                message: "B-frames detected"@,
            },
        ]
    } else {
        Seq::empty()
    };
    let i2: Seq<DiagView> = if video_profile is Some && contains_sub(
        video_profile->Some_0,
        "Baseline"@,
    ) {
        seq![
            DiagView {
                severity: Severity::Info,
                category: "Video"@,
                message: "Baseline profile (consider Main/High for better compression)"@,
            },
        ]
    } else {
        Seq::empty()
    };
    i1 + i2
}

/// Every finding the rule table yields, most severe class first.
pub open spec fn all_diags(
    d: StreamDiagnostics,
    video_width: Option<u32>,
    video_height: Option<u32>,
    video_profile: Option<Seq<char>>,
    audio_sample_rate: Option<u32>,
    audio_channels: Option<u8>,
    aac_profile: Option<Seq<char>>,
    kf_interval_ms: Option<u64>,
    now_ms: u64,
) -> Seq<DiagView> {
    error_diags(d, video_width, video_height, audio_sample_rate, audio_channels, kf_interval_ms)
        + warning_diags(
        d,
        video_profile,
        audio_sample_rate,
        audio_channels,
        aac_profile,
        kf_interval_ms,
        now_ms,
    ) + info_diags(d, video_profile)
}

/// Whether a `check_all` call at `now_ms` is absorbed by the throttle.
pub open spec fn check_throttled(d: StreamDiagnostics, now_ms: u64) -> bool {
    d.last_check_time is Some && now_ms - d.last_check_time->Some_0 < 500
}



// ─── The record transitions, as mathematical functions ───

/// State after `record_stream_start`.
pub open spec fn after_stream_start(d: StreamDiagnostics, now_ms: u64) -> StreamDiagnostics {
    StreamDiagnostics {
        stream_start_time: if d.stream_start_time is Some {
            d.stream_start_time
        } else {
            Some(now_ms)
        },
        ..d
    }
}

/// State after `record_avc_seq_header`.
pub open spec fn after_avc_header(d: StreamDiagnostics, now_ms: u64) -> StreamDiagnostics {
    StreamDiagnostics {
        avc_seq_header_received: true,
        avc_seq_header_time: if d.avc_seq_header_received {
            d.avc_seq_header_time
        } else {
            Some(now_ms)
        },
        ..d
    }
}

/// State after `record_aac_seq_header`.
pub open spec fn after_aac_header(d: StreamDiagnostics, now_ms: u64) -> StreamDiagnostics {
    StreamDiagnostics {
        aac_seq_header_received: true,
        aac_seq_header_time: if d.aac_seq_header_received {
            d.aac_seq_header_time
        } else {
            Some(now_ms)
        },
        ..d
    }
}

/// State after `record_keyframe`, with the new interval list passed in
/// (its content is pinned separately by `intervals_after_keyframe`).
pub open spec fn after_keyframe(
    d: StreamDiagnostics,
    now_ms: u64,
    intervals: Vec<u64>,
) -> StreamDiagnostics {
    StreamDiagnostics {
        first_keyframe_time: if d.first_keyframe_time is Some {
            d.first_keyframe_time
        } else {
            Some(now_ms)
        },
        keyframe_intervals: intervals,
        ..d
    }
}

/// The interval list after `record_keyframe`: the newest value appended,
/// the oldest dropped beyond ten entries.
pub open spec fn intervals_after_keyframe(s: Seq<u64>, interval_ms: Option<u64>) -> Seq<u64> {
    if interval_ms is Some {
        if s.len() >= 10 {
            s.push(interval_ms->Some_0).drop_first()
        } else {
            s.push(interval_ms->Some_0)
        }
    } else {
        s
    }
}

/// State after `record_video_timestamp`.
pub open spec fn after_video_ts(d: StreamDiagnostics, ts: u32) -> StreamDiagnostics {
    StreamDiagnostics {
        last_video_ts: Some(ts),
        video_ts_rollbacks: if d.last_video_ts is Some && ts < d.last_video_ts->Some_0
            && d.last_video_ts->Some_0 - ts < 0x8000_0000 {
            if d.video_ts_rollbacks < u32::MAX {
                (d.video_ts_rollbacks + 1) as u32
            } else {
                u32::MAX
            }
        } else {
            d.video_ts_rollbacks
        },
        max_video_ts_gap: if d.last_video_ts is Some && ts > d.last_video_ts->Some_0 && ts
            - d.last_video_ts->Some_0 > d.max_video_ts_gap {
            (ts - d.last_video_ts->Some_0) as u32
        } else {
            d.max_video_ts_gap
        },
        max_av_desync_ms: desync_update(d.max_av_desync_ms, Some(ts), d.last_audio_ts),
        ..d
    }
}

/// State after `record_audio_timestamp`.
pub open spec fn after_audio_ts(d: StreamDiagnostics, ts: u32) -> StreamDiagnostics {
    StreamDiagnostics {
        last_audio_ts: Some(ts),
        audio_ts_rollbacks: if d.last_audio_ts is Some && ts < d.last_audio_ts->Some_0
            && d.last_audio_ts->Some_0 - ts < 0x8000_0000 {
            if d.audio_ts_rollbacks < u32::MAX {
                (d.audio_ts_rollbacks + 1) as u32
            } else {
                u32::MAX
            }
        } else {
            d.audio_ts_rollbacks
        },
        max_audio_ts_gap: if d.last_audio_ts is Some && ts > d.last_audio_ts->Some_0 && ts
            - d.last_audio_ts->Some_0 > d.max_audio_ts_gap {
            (ts - d.last_audio_ts->Some_0) as u32
        } else {
            d.max_audio_ts_gap
        },
        max_av_desync_ms: desync_update(d.max_av_desync_ms, d.last_video_ts, Some(ts)),
        ..d
    }
}

/// State after `record_b_frame`.
pub open spec fn after_b_frame(d: StreamDiagnostics) -> StreamDiagnostics {
    StreamDiagnostics { has_b_frames: true, ..d }
}

/// State after `record_metadata`.
pub open spec fn after_metadata(
    d: StreamDiagnostics,
    has_dimensions: bool,
    has_framerate: bool,
    has_bitrate: bool,
) -> StreamDiagnostics {
    StreamDiagnostics {
        metadata_received: true,
        metadata_has_dimensions: has_dimensions,
        metadata_has_framerate: has_framerate,
        metadata_has_bitrate: has_bitrate,
        ..d
    }
}

impl StreamDiagnostics {
    pub fn new() -> (r: StreamDiagnostics)
        ensures
            r.profile == ServiceProfile::Generic,
            !r.avc_seq_header_received,
            !r.aac_seq_header_received,
            r.first_keyframe_time is None,
            r.stream_start_time is None,
            r.last_video_ts is None,
            r.last_audio_ts is None,
            r.video_ts_rollbacks == 0,
            r.audio_ts_rollbacks == 0,
            r.max_video_ts_gap == 0,
            r.max_audio_ts_gap == 0,
            r.max_av_desync_ms == 0,
            !r.metadata_received,
            !r.has_b_frames,
            r.keyframe_intervals@ == Seq::<u64>::empty(),
            diags_view(r.diagnostics@) == Seq::<DiagView>::empty(),
            r.last_check_time is None,
    {
        let r = StreamDiagnostics {
            profile: ServiceProfile::Generic,
            avc_seq_header_received: false,
            avc_seq_header_time: None,
            aac_seq_header_received: false,
            aac_seq_header_time: None,
            first_keyframe_time: None,
            stream_start_time: None,
            last_video_ts: None,
            last_audio_ts: None,
            video_ts_rollbacks: 0,
            audio_ts_rollbacks: 0,
            max_video_ts_gap: 0,
            max_audio_ts_gap: 0,
            max_av_desync_ms: 0,
            metadata_received: false,
            metadata_has_dimensions: false,
            metadata_has_framerate: false,
            metadata_has_bitrate: false,
            has_b_frames: false,
            keyframe_intervals: Vec::new(),
            diagnostics: Vec::new(),
            last_check_time: None,
        };
        proof {
            assert(diags_view(r.diagnostics@) =~= Seq::<DiagView>::empty());
        }
        r
    }

    pub fn set_profile(&mut self, profile: ServiceProfile)
        ensures
            *final(self) == (StreamDiagnostics { profile, ..*old(self) }),
    {
        self.profile = profile;
    }

    /// Record the start of publishing, once.
    pub fn record_stream_start(&mut self, now_ms: u64)
        ensures
            *final(self) == after_stream_start(*old(self), now_ms),
    {
        if self.stream_start_time.is_none() {
            self.stream_start_time = Some(now_ms);
        }
    }

    /// Record the first AVC sequence header, once.
    pub fn record_avc_seq_header(&mut self, now_ms: u64)
        ensures
            *final(self) == after_avc_header(*old(self), now_ms),
    {
        if !self.avc_seq_header_received {
            self.avc_seq_header_received = true;
            self.avc_seq_header_time = Some(now_ms);
        }
    }

    /// Record the first AAC sequence header, once.
    pub fn record_aac_seq_header(&mut self, now_ms: u64)
        ensures
            *final(self) == after_aac_header(*old(self), now_ms),
    {
        if !self.aac_seq_header_received {
            self.aac_seq_header_received = true;
            self.aac_seq_header_time = Some(now_ms);
        }
    }

    /// Record a keyframe arrival and, when known, the interval since the
    /// previous one; the interval list keeps its last ten entries.
    pub fn record_keyframe(&mut self, interval_ms: Option<u64>, now_ms: u64)
        ensures
            *final(self) == after_keyframe(*old(self), now_ms, final(self).keyframe_intervals),
            final(self).keyframe_intervals@ == intervals_after_keyframe(
                old(self).keyframe_intervals@,
                interval_ms,
            ),
            final(self).keyframe_intervals@.len() <= 10 || final(self).keyframe_intervals@.len()
                == old(self).keyframe_intervals@.len(),
    {
        if self.first_keyframe_time.is_none() {
            self.first_keyframe_time = Some(now_ms);
        }
        if let Some(interval) = interval_ms {
            self.keyframe_intervals.push(interval);
            if self.keyframe_intervals.len() > 10 {
                self.keyframe_intervals.remove(0);
                proof {
                    assert(self.keyframe_intervals@ =~= old(self).keyframe_intervals@.push(
                        interval,
                    ).drop_first());
                }
            }
        }
    }

    /// Record a video timestamp: count rollbacks (a backward step smaller
    /// than half the 32-bit range) and track the largest forward gap,
    /// then refresh the A/V desync extreme.
    pub fn record_video_timestamp(&mut self, ts: u32)
        ensures
            *final(self) == after_video_ts(*old(self), ts),
    {
        if let Some(last) = self.last_video_ts {
            if ts < last && last - ts < 0x8000_0000 {
                if self.video_ts_rollbacks < u32::MAX {
                    self.video_ts_rollbacks = self.video_ts_rollbacks + 1;
                }
            } else if ts > last {
                let gap = ts - last;
                if gap > self.max_video_ts_gap {
                    self.max_video_ts_gap = gap;
                }
            }
        }
        self.last_video_ts = Some(ts);
        self.update_av_desync();
    }

    /// Record an audio timestamp, symmetrically.
    pub fn record_audio_timestamp(&mut self, ts: u32)
        ensures
            *final(self) == after_audio_ts(*old(self), ts),
    {
        if let Some(last) = self.last_audio_ts {
            if ts < last && last - ts < 0x8000_0000 {
                if self.audio_ts_rollbacks < u32::MAX {
                    self.audio_ts_rollbacks = self.audio_ts_rollbacks + 1;
                }
            } else if ts > last {
                let gap = ts - last;
                if gap > self.max_audio_ts_gap {
                    self.max_audio_ts_gap = gap;
                }
            }
        }
        self.last_audio_ts = Some(ts);
        self.update_av_desync();
    }

    /// Track the signed video-minus-audio gap with the largest magnitude.
    fn update_av_desync(&mut self)
        ensures
            final(self).max_av_desync_ms == desync_update(
                old(self).max_av_desync_ms,
                old(self).last_video_ts,
                old(self).last_audio_ts,
            ),
            *final(self) == (StreamDiagnostics {
                max_av_desync_ms: final(self).max_av_desync_ms,
                ..*old(self)
            }),
    {
        if self.last_video_ts.is_some() && self.last_audio_ts.is_some() {
            let v = match self.last_video_ts {
                Some(v) => v,
                None => 0,
            };
            let a = match self.last_audio_ts {
                Some(a) => a,
                None => 0,
            };
            let desync: i64 = v as i64 - a as i64;
            let mag: i64 = if desync >= 0 {
                desync
            } else {
                -desync
            };
            let old_mag: i64 = if self.max_av_desync_ms >= 0 {
                self.max_av_desync_ms
            } else if self.max_av_desync_ms == i64::MIN {
                i64::MAX
            } else {
                -self.max_av_desync_ms
            };
            if mag > old_mag {
                self.max_av_desync_ms = desync;
            }
        }
    }

    pub fn record_b_frame(&mut self)
        ensures
            *final(self) == after_b_frame(*old(self)),
    {
        self.has_b_frames = true;
    }

    pub fn record_metadata(&mut self, has_dimensions: bool, has_framerate: bool, has_bitrate: bool)
        ensures
            *final(self) == after_metadata(*old(self), has_dimensions, has_framerate, has_bitrate),
    {
        self.metadata_received = true;
        self.metadata_has_dimensions = has_dimensions;
        self.metadata_has_framerate = has_framerate;
        self.metadata_has_bitrate = has_bitrate;
    }

    /// How many findings of the current buffer are errors.
    pub fn error_count(&self) -> (r: usize)
        ensures
            r == count_severity(diags_view(self.diagnostics@), Severity::Error),
    {
        count_with_severity(&self.diagnostics, Severity::Error)
    }

    /// How many findings of the current buffer are warnings.
    pub fn warning_count(&self) -> (r: usize)
        ensures
            r == count_severity(diags_view(self.diagnostics@), Severity::Warning),
    {
        count_with_severity(&self.diagnostics, Severity::Warning)
    }
}

/// The signed desync with the largest magnitude, after folding in the
/// newest video and audio timestamps (when both exist).
pub open spec fn desync_update(current: i64, v: Option<u32>, a: Option<u32>) -> i64 {
    if v is Some && a is Some {
        let d = v->Some_0 - a->Some_0;
        let mag = if d >= 0 {
            d
        } else {
            -d
        };
        let cur_mag = if current >= 0 {
            current as int
        } else if current == i64::MIN {
            i64::MAX as int
        } else {
            -current as int
        };
        if mag > cur_mag {
            d as i64
        } else {
            current
        }
    } else {
        current
    }
}

/// How many findings in a list carry the given severity.
pub open spec fn count_severity(v: Seq<DiagView>, sev: Severity) -> int
    decreases v.len(),
{
    if v.len() == 0 {
        0
    } else {
        (if v[0].severity == sev {
            1int
        } else {
            0int
        }) + count_severity(v.drop_first(), sev)
    }
}

/// Count buffer entries of one severity.
fn count_with_severity(v: &Vec<Diagnostic>, sev: Severity) -> (r: usize)
    ensures
        r == count_severity(diags_view(v@), sev),
{
    let ghost dv = diags_view(v@);
    let mut n: usize = 0;
    let mut i: usize = 0;
    proof {
        lemma_count_severity_take(dv, sev, 0);
    }
    while i < v.len()
        invariant
            dv == diags_view(v@),
            dv.len() == v@.len(),
            i <= v@.len(),
            n <= i,
            n == count_severity(dv.take(i as int), sev),
        decreases v@.len() - i,
    {
        proof {
            lemma_count_severity_snoc(dv, sev, i as int);
        }
        if v[i].severity == sev {
            n = n + 1;
        }
        i = i + 1;
    }
    proof {
        assert(dv.take(v@.len() as int) =~= dv);
    }
    n
}

/// Counts grow entry by entry.
pub proof fn lemma_count_severity_snoc(v: Seq<DiagView>, sev: Severity, i: int)
    requires
        0 <= i < v.len(),
    ensures
        count_severity(v.take(i + 1), sev) == count_severity(v.take(i), sev) + (
        if v[i].severity == sev {
            1int
        } else {
            0int
        }),
    decreases i,
{
    if i == 0 {
        assert(v.take(1).drop_first() =~= v.take(0));
    } else {
        assert(v.take(i + 1).drop_first() =~= v.drop_first().take(i));
        assert(v.take(i).drop_first() =~= v.drop_first().take(i - 1));
        lemma_count_severity_snoc(v.drop_first(), sev, i - 1);
    }
}

/// The empty prefix has no findings.
pub proof fn lemma_count_severity_take(v: Seq<DiagView>, sev: Severity, i: int)
    ensures
        count_severity(v.take(0), sev) == 0,
{
    assert(v.take(0).len() == 0);
}


/// The view of an optional borrowed string.
pub open spec fn opt_chars(s: Option<&str>) -> Option<Seq<char>> {
    match s {
        None => None,
        Some(x) => Some(x@),
    }
}

/// The view of an optional owned string.
pub open spec fn opt_string_chars(s: Option<String>) -> Option<Seq<char>> {
    match s {
        None => None,
        Some(x) => Some(x@),
    }
}

/// Copy a diagnostic buffer.
fn clone_diags(v: &Vec<Diagnostic>) -> (r: Vec<Diagnostic>)
    ensures
        diags_view(r@) == diags_view(v@),
{
    let mut r: Vec<Diagnostic> = Vec::new();
    let mut i: usize = 0;
    while i < v.len()
        invariant
            i <= v@.len(),
            r@.len() == i,
            forall|j: int| 0 <= j < i ==> #[trigger] r@[j]@ == v@[j]@,
        decreases v@.len() - i,
    {
        let sev = v[i].severity;
        let cat = v[i].category.clone();
        let msg = v[i].message.clone();
        r.push(Diagnostic { severity: sev, category: cat, message: msg });
        i = i + 1;
    }
    proof {
        assert(diags_view(r@) =~~= diags_view(v@));
    }
    r
}

impl StreamDiagnostics {
    /// Build the first half of the Error-severity findings.
    #[verifier::rlimit(100)]
    #[verifier::spinoff_prover]
    fn build_error_head(
        &self,
        video_width: Option<u32>,
        video_height: Option<u32>,
        current_keyframe_interval_ms: Option<u64>,
    ) -> (out: Vec<Diagnostic>)
        ensures
            diags_view(out@) == error_diags_head(
                *self,
                video_width,
                video_height,
                current_keyframe_interval_ms,
            ),
    {
        let ghost d0 = *self;
        let mut out: Vec<Diagnostic> = Vec::new();
        let ghost mut acc: Seq<DiagView> = Seq::empty();
        proof {
            assert(diags_view(out@) =~~= acc);
        }
        let max_kf = self.profile.max_keyframe_interval_ms();
        if !self.avc_seq_header_received {
            out.push(Diagnostic::error("Video", String::from_str("No AVC sequence header received")));
        }

        proof {
            acc = acc + (if !d0.avc_seq_header_received {
                seq![
                    DiagView {
                        severity: Severity::Error,
                        category: "Video"@,
                        message: "No AVC sequence header received"@,
                    },
                ]
            } else {
                Seq::empty()
            });
            assert(diags_view(out@) =~~= acc);
        }
        if !self.aac_seq_header_received {
            out.push(Diagnostic::error("Audio", String::from_str("No AAC sequence header received")));
        }

        proof {
            acc = acc + (if !d0.aac_seq_header_received {
                seq![
                    DiagView {
                        severity: Severity::Error,
                        category: "Audio"@,
                        message: "No AAC sequence header received"@,
                    },
                ]
            } else {
                Seq::empty()
            });
            assert(diags_view(out@) =~~= acc);
        }
        let max_kf = self.profile.max_keyframe_interval_ms();
        match current_keyframe_interval_ms {
            Some(iv) => {
                if iv > max_kf {
                    let mut m = String::from_str("Keyframe interval ");
                    let t = secs1_string(iv);
                    m.append(t.as_str());
                    m.append("s exceeds ");
                    m.append(self.profile.name());
                    m.append(" max (");
                    let x = u64_string(max_kf / 1000);
                    m.append(x.as_str());
                    m.append("s)");
                    proof {
                        reveal(msg_kf_exceeds);
                assert(m@ =~= msg_kf_exceeds(iv, d0.profile));
                    }
                    out.push(Diagnostic::error("Video", m));
                }
            },
            None => {
            },
        }

        proof {
            acc = acc + (if current_keyframe_interval_ms is Some && current_keyframe_interval_ms->Some_0
                > max_kf_ms(d0.profile) {
                seq![
                    DiagView {
                        severity: Severity::Error,
                        category: "Video"@,
                        message: msg_kf_exceeds(current_keyframe_interval_ms->Some_0, d0.profile),
                    },
                ]
            } else {
                Seq::empty()
            });
            assert(diags_view(out@) =~~= acc);
        }
        if video_width.is_some() && video_height.is_some() {
            let w = match video_width {
                Some(w) => w,
                None => 0,
            };
            let h = match video_height {
                Some(h) => h,
                None => 0,
            };
            let is_standard = (w == 1920 && h == 1080) || (w == 1280 && h == 720) || (w == 854 && h
                == 480) || (w == 640 && h == 360) || (w == 2560 && h == 1440) || (w == 3840 && h
                == 2160) || (w == 1080 && h == 1920) || (w == 720 && h == 1280);
            if (!is_standard && w % 2 != 0) || h % 2 != 0 {
                let mut m = String::from_str("Resolution ");
                let xw = u64_string(w as u64);
                m.append(xw.as_str());
                m.append("x");
                let xh = u64_string(h as u64);
                m.append(xh.as_str());
                m.append(" has odd dimensions (must be even)");
                proof {
                    reveal(msg_odd_resolution);
                assert(m@ =~= msg_odd_resolution(w, h));
                }
                out.push(Diagnostic::error("Video", m));
            }
        }
        proof {
            acc = acc + (if video_width is Some && video_height is Some && ((
            !is_standard_resolution(video_width->Some_0, video_height->Some_0)
                && video_width->Some_0 % 2 != 0) || video_height->Some_0 % 2 != 0) {
                seq![
                    DiagView {
                        severity: Severity::Error,
                        category: "Video"@,
                        message: msg_odd_resolution(video_width->Some_0, video_height->Some_0),
                    },
                ]
            } else {
                Seq::empty()
            });
            assert(diags_view(out@) =~~= acc);
        }
        proof {
            assert(acc =~~= error_diags_head(
                d0,
                video_width,
                video_height,
                current_keyframe_interval_ms,
            ));
        }
        out
    }

    /// Build the second half of the Error-severity findings.
    #[verifier::rlimit(100)]
    #[verifier::spinoff_prover]
    fn build_error_tail(
        &self,
        audio_sample_rate: Option<u32>,
        audio_channels: Option<u8>,
    ) -> (out: Vec<Diagnostic>)
        ensures
            diags_view(out@) == error_diags_tail(*self, audio_sample_rate, audio_channels),
    {
        let ghost d0 = *self;
        let mut out: Vec<Diagnostic> = Vec::new();
        let ghost mut acc: Seq<DiagView> = Seq::empty();
        proof {
            assert(diags_view(out@) =~~= acc);
        }
        match audio_sample_rate {
            Some(sr) => {
                let allowed = match self.profile {
                    ServiceProfile::Twitch => sr == 44100 || sr == 48000,
                    ServiceProfile::YouTube => sr == 44100 || sr == 48000 || sr == 96000,
                    ServiceProfile::Generic => sr == 22050 || sr == 44100 || sr == 48000 || sr
                        == 96000,
                };
                if !allowed {
                    let mut m = u64_string(sr as u64);
                    m.append(" Hz sample rate not supported by ");
                    m.append(self.profile.name());
                    proof {
                        reveal(msg_bad_rate);
                assert(m@ =~= msg_bad_rate(sr, d0.profile));
                    }
                    out.push(Diagnostic::error("Audio", m));
                }
            },
            None => {
            },
        }
        proof {
            acc = acc + (if audio_sample_rate is Some && !rate_allowed(
                d0.profile,
                audio_sample_rate->Some_0,
            ) {
                seq![
                    DiagView {
                        severity: Severity::Error,
                        category: "Audio"@,
                        message: msg_bad_rate(audio_sample_rate->Some_0, d0.profile),
                    },
                ]
            } else {
                Seq::empty()
            });
            assert(diags_view(out@) =~~= acc);
        }
        match audio_channels {
            Some(ch) => {
                if ch != 1 && ch > 2 {
                    match self.profile {
                        ServiceProfile::Twitch => {
                            let mut m = u64_string(ch as u64);
                            m.append(" channels not supported by Twitch (max 2)");
                            proof {
                                reveal(msg_channels);
                assert(m@ =~= msg_channels(ch));
                            }
                            out.push(Diagnostic::error("Audio", m));
                        },
                        _ => {
                        },
                    }
                }
            },
            None => {
            },
        }
        proof {
            acc = acc + (if audio_channels is Some && audio_channels->Some_0 != 1
                && audio_channels->Some_0 > 2 && d0.profile is Twitch {
                seq![
                    DiagView {
                        severity: Severity::Error,
                        category: "Audio"@,
                        message: msg_channels(audio_channels->Some_0),
                    },
                ]
            } else {
                Seq::empty()
            });
            assert(diags_view(out@) =~~= acc);
        }
        if self.video_ts_rollbacks > 0 {
            let mut m = u64_string(self.video_ts_rollbacks as u64);
            m.append(" video timestamp rollback(s) detected");
            proof {
                reveal(msg_rollbacks);
                assert(m@ =~= msg_rollbacks(d0.video_ts_rollbacks, " video timestamp rollback(s) detected"@));
            }
            out.push(Diagnostic::error("Timing", m));
        }

        proof {
            acc = acc + (if d0.video_ts_rollbacks > 0 {
                seq![
                    DiagView {
                        severity: Severity::Error,
                        category: "Timing"@,
                        message: msg_rollbacks(d0.video_ts_rollbacks, " video timestamp rollback(s) detected"@),
                    },
                ]
            } else {
                Seq::empty()
            });
            assert(diags_view(out@) =~~= acc);
        }
        if self.audio_ts_rollbacks > 0 {
            let mut m = u64_string(self.audio_ts_rollbacks as u64);
            m.append(" audio timestamp rollback(s) detected");
            proof {
                reveal(msg_rollbacks);
                assert(m@ =~= msg_rollbacks(d0.audio_ts_rollbacks, " audio timestamp rollback(s) detected"@));
            }
            out.push(Diagnostic::error("Timing", m));
        }

        proof {
            acc = acc + (if d0.audio_ts_rollbacks > 0 {
                seq![
                    DiagView {
                        severity: Severity::Error,
                        category: "Timing"@,
                        message: msg_rollbacks(d0.audio_ts_rollbacks, " audio timestamp rollback(s) detected"@),
                    },
                ]
            } else {
                Seq::empty()
            });
            assert(diags_view(out@) =~~= acc);
        }
        proof {
            assert(acc =~~= error_diags_tail(d0, audio_sample_rate, audio_channels));
        }
        out
    }

    /// Build the Error-severity findings, in rule order.
    fn build_error_diags(
        &self,
        video_width: Option<u32>,
        video_height: Option<u32>,
        audio_sample_rate: Option<u32>,
        audio_channels: Option<u8>,
        current_keyframe_interval_ms: Option<u64>,
    ) -> (out: Vec<Diagnostic>)
        ensures
            diags_view(out@) == error_diags(
                *self,
                video_width,
                video_height,
                audio_sample_rate,
                audio_channels,
                current_keyframe_interval_ms,
            ),
    {
        let mut out = self.build_error_head(video_width, video_height, current_keyframe_interval_ms);
        let mut tail = self.build_error_tail(audio_sample_rate, audio_channels);
        let ghost hv = diags_view(out@);
        let ghost tv = diags_view(tail@);
        out.append(&mut tail);
        proof {
            assert(diags_view(out@) =~~= hv + tv);
        }
        out
    }

    /// Build the first half of the Warning-severity findings.
    #[verifier::rlimit(100)]
    #[verifier::spinoff_prover]
    fn build_warning_head(
        &self,
        audio_channels: Option<u8>,
        aac_profile: Option<&str>,
        current_keyframe_interval_ms: Option<u64>,
        now_ms: u64,
    ) -> (out: Vec<Diagnostic>)
        ensures
            diags_view(out@) == warning_diags_head(
                *self,
                audio_channels,
                opt_chars(aac_profile),
                current_keyframe_interval_ms,
                now_ms,
            ),
    {
        let ghost d0 = *self;
        let ghost ap = opt_chars(aac_profile);
        let mut out: Vec<Diagnostic> = Vec::new();
        let ghost mut acc: Seq<DiagView> = Seq::empty();
        proof {
            assert(diags_view(out@) =~~= acc);
        }
        let max_kf = self.profile.max_keyframe_interval_ms();
        match self.stream_start_time {
            Some(start) => {
                match self.first_keyframe_time {
                    None => {
                        let elapsed = if now_ms >= start {
                            now_ms - start
                        } else {
                            0
                        };
                        if elapsed > 2000 {
                            let mut m = String::from_str("No keyframe received after ");
                            let t = secs1_string(elapsed);
                            m.append(t.as_str());
                            m.append("s");
                            proof {
                                reveal(msg_no_keyframe);
                assert(m@ =~= msg_no_keyframe(sub_floor(now_ms, d0.stream_start_time->Some_0)));
                            }
                            out.push(Diagnostic::warning("Video", m));
                        }
                    },
                    Some(kf_time) => {
                        let delay = if kf_time >= start {
                            kf_time - start
                        } else {
                            0
                        };
                        if delay > 1000 {
                            let mut m = String::from_str("First keyframe took ");
                            let t = secs2_string(delay);
                            m.append(t.as_str());
                            m.append("s to arrive");
                            proof {
                                reveal(msg_late_keyframe);
                assert(m@ =~= msg_late_keyframe(sub_floor(
                                    d0.first_keyframe_time->Some_0,
                                    d0.stream_start_time->Some_0,
                                )));
                            }
                            out.push(Diagnostic::warning("Video", m));
                        }
                    },
                }
            },
            None => {
            },
        }
        proof {
            acc = acc + (if d0.stream_start_time is Some && d0.first_keyframe_time is None && sub_floor(
                now_ms,
                d0.stream_start_time->Some_0,
            ) > 2000 {
                seq![
                    DiagView {
                        severity: Severity::Warning,
                        category: "Video"@,
                        message: msg_no_keyframe(sub_floor(now_ms, d0.stream_start_time->Some_0)),
                    },
                ]
            } else if d0.stream_start_time is Some && d0.first_keyframe_time is Some && sub_floor(
                d0.first_keyframe_time->Some_0,
                d0.stream_start_time->Some_0,
            ) > 1000 {
                seq![
                    DiagView {
                        severity: Severity::Warning,
                        category: "Video"@,
                        message: msg_late_keyframe(
                            sub_floor(d0.first_keyframe_time->Some_0, d0.stream_start_time->Some_0),
                        ),
                    },
                ]
            } else {
                Seq::empty()
            });
            assert(diags_view(out@) =~~= acc);
        }
        match current_keyframe_interval_ms {
            Some(iv) => {
                if !(iv > max_kf) && 10 * iv > 9 * max_kf {
                    let mut m = String::from_str("Keyframe interval ");
                    let t = secs1_string(iv);
                    m.append(t.as_str());
                    m.append("s near ");
                    m.append(self.profile.name());
                    m.append(" limit (");
                    let x = u64_string(max_kf / 1000);
                    m.append(x.as_str());
                    m.append("s)");
                    proof {
                        reveal(msg_kf_near);
                assert(m@ =~= msg_kf_near(iv, d0.profile));
                    }
                    out.push(Diagnostic::warning("Video", m));
                }
            },
            None => {
            },
        }
        proof {
            acc = acc + (if current_keyframe_interval_ms is Some && !(
            current_keyframe_interval_ms->Some_0 > max_kf_ms(d0.profile)) && 10
                * current_keyframe_interval_ms->Some_0 > 9 * max_kf_ms(d0.profile) {
                seq![
                    DiagView {
                        severity: Severity::Warning,
                        category: "Video"@,
                        message: msg_kf_near(current_keyframe_interval_ms->Some_0, d0.profile),
                    },
                ]
            } else {
                Seq::empty()
            });
            assert(diags_view(out@) =~~= acc);
        }
        if self.has_b_frames {
            match self.profile {
                ServiceProfile::Twitch => {
                    out.push(
                        Diagnostic::warning(
                            "Video",
                            String::from_str("B-frames detected (may increase latency on Twitch)"),
                        ),
                    );
                },
                _ => {
                },
            }
        }
        proof {
            acc = acc + (if d0.has_b_frames && d0.profile is Twitch {
                seq![
                    DiagView {
                        severity: Severity::Warning,
                        category: "Video"@,
                        message: "B-frames detected (may increase latency on Twitch)"@,
                    },
                ]
            } else {
                Seq::empty()
            });
            assert(diags_view(out@) =~~= acc);
        }
        match audio_channels {
            Some(ch) => {
                if ch == 1 {
                    out.push(
                        Diagnostic::warning(
                            "Audio",
                            String::from_str("Mono audio (stereo recommended for streaming)"),
                        ),
                    );
                }
            },
            None => {
            },
        }
        proof {
            acc = acc + (if audio_channels is Some && audio_channels->Some_0 == 1 {
                seq![
                    DiagView {
                        severity: Severity::Warning,
                        category: "Audio"@,
                        message: "Mono audio (stereo recommended for streaming)"@,
                    },
                ]
            } else {
                Seq::empty()
            });
            assert(diags_view(out@) =~~= acc);
        }
        match aac_profile {
            Some(p) => {
                if str_contains(p, "Main") {
                    out.push(
                        Diagnostic::warning(
                            "Audio",
                            String::from_str("AAC Main profile (AAC-LC recommended for compatibility)"),
                        ),
                    );
                } else if str_contains(p, "HE-AAC") || str_contains(p, "SBR") {
                    match self.profile {
                        ServiceProfile::Twitch => {
                            out.push(
                                Diagnostic::warning(
                                    "Audio",
                                    String::from_str("HE-AAC may have compatibility issues on Twitch"),
                                ),
                            );
                        },
                        _ => {
                        },
                    }
                }
            },
            None => {
            },
        }
        proof {
            acc = acc + (if ap is Some && contains_sub(ap->Some_0, "Main"@) {
                seq![
                    DiagView {
                        severity: Severity::Warning,
                        category: "Audio"@,
                        message: "AAC Main profile (AAC-LC recommended for compatibility)"@,
                    },
                ]
            } else if ap is Some && (contains_sub(ap->Some_0, "HE-AAC"@) || contains_sub(
                ap->Some_0,
                "SBR"@,
            )) && d0.profile is Twitch {
                seq![
                    DiagView {
                        severity: Severity::Warning,
                        category: "Audio"@,
                        message: "HE-AAC may have compatibility issues on Twitch"@,
                    },
                ]
            } else {
                Seq::empty()
            });
            assert(diags_view(out@) =~~= acc);
        }
        proof {
            assert(acc =~~= warning_diags_head(
                d0,
                audio_channels,
                ap,
                current_keyframe_interval_ms,
                now_ms,
            ));
        }
        out
    }

    /// Build the second half of the Warning-severity findings.
    #[verifier::rlimit(100)]
    #[verifier::spinoff_prover]
    fn build_warning_tail(&self, now_ms: u64) -> (out: Vec<Diagnostic>)
        ensures
            diags_view(out@) == warning_diags_tail(*self, now_ms),
    {
        let ghost d0 = *self;
        let mut out: Vec<Diagnostic> = Vec::new();
        let ghost mut acc: Seq<DiagView> = Seq::empty();
        proof {
            assert(diags_view(out@) =~~= acc);
        }
        if self.max_video_ts_gap > 1000 {
            let mut m = String::from_str("Large video timestamp gap detected (");
            let x = u64_string(self.max_video_ts_gap as u64);
            m.append(x.as_str());
            m.append("ms)");
            proof {
                reveal(msg_gap);
                assert(m@ =~= msg_gap(d0.max_video_ts_gap, "Large video timestamp gap detected ("@));
            }
            out.push(Diagnostic::warning("Timing", m));
        }
        proof {
            acc = acc + (if d0.max_video_ts_gap > 1000 {
                seq![
                    DiagView {
                        severity: Severity::Warning,
                        category: "Timing"@,
                        message: msg_gap(d0.max_video_ts_gap, "Large video timestamp gap detected ("@),
                    },
                ]
            } else {
                Seq::empty()
            });
            assert(diags_view(out@) =~~= acc);
        }
        if self.max_audio_ts_gap > 1000 {
            let mut m = String::from_str("Large audio timestamp gap detected (");
            let x = u64_string(self.max_audio_ts_gap as u64);
            m.append(x.as_str());
            m.append("ms)");
            proof {
                reveal(msg_gap);
                assert(m@ =~= msg_gap(d0.max_audio_ts_gap, "Large audio timestamp gap detected ("@));
            }
            out.push(Diagnostic::warning("Timing", m));
        }
        proof {
            acc = acc + (if d0.max_audio_ts_gap > 1000 {
                seq![
                    DiagView {
                        severity: Severity::Warning,
                        category: "Timing"@,
                        message: msg_gap(d0.max_audio_ts_gap, "Large audio timestamp gap detected ("@),
                    },
                ]
            } else {
                Seq::empty()
            });
            assert(diags_view(out@) =~~= acc);
        }
        if self.max_av_desync_ms > 500 || self.max_av_desync_ms < -500 {
            let mut m = String::from_str("A/V desync detected (");
            let x = i64_string(self.max_av_desync_ms);
            m.append(x.as_str());
            m.append("ms)");
            proof {
                reveal(msg_desync);
                assert(m@ =~= msg_desync(d0.max_av_desync_ms));
            }
            out.push(Diagnostic::warning("Timing", m));
        }
        proof {
            acc = acc + (if d0.max_av_desync_ms > 500 || d0.max_av_desync_ms < -500 {
                seq![
                    DiagView {
                        severity: Severity::Warning,
                        category: "Timing"@,
                        message: msg_desync(d0.max_av_desync_ms),
                    },
                ]
            } else {
                Seq::empty()
            });
            assert(diags_view(out@) =~~= acc);
        }
        if !self.metadata_received {
            match self.stream_start_time {
                Some(start) => {
                    let elapsed = if now_ms >= start {
                        now_ms - start
                    } else {
                        0
                    };
                    if elapsed >= 3000 {
                        out.push(
                            Diagnostic::warning(
                                "Metadata",
                                String::from_str("No onMetaData received from encoder"),
                            ),
                        );
                    }
                },
                None => {
                },
            }
        }
        proof {
            acc = acc + (if !d0.metadata_received && d0.stream_start_time is Some && sub_floor(
                now_ms,
                d0.stream_start_time->Some_0,
            ) >= 3000 {
                seq![
                    DiagView {
                        severity: Severity::Warning,
                        category: "Metadata"@,
                        message: "No onMetaData received from encoder"@,
                    },
                ]
            } else {
                Seq::empty()
            });
            assert(diags_view(out@) =~~= acc);
            assert(acc =~~= warning_diags_tail(d0, now_ms));
        }

        out
    }

    /// Build the Warning-severity findings, in rule order.
    fn build_warning_diags(
        &self,
        video_profile: Option<&str>,
        audio_sample_rate: Option<u32>,
        audio_channels: Option<u8>,
        aac_profile: Option<&str>,
        current_keyframe_interval_ms: Option<u64>,
        now_ms: u64,
    ) -> (out: Vec<Diagnostic>)
        ensures
            diags_view(out@) == warning_diags(
                *self,
                opt_chars(video_profile),
                audio_sample_rate,
                audio_channels,
                opt_chars(aac_profile),
                current_keyframe_interval_ms,
                now_ms,
            ),
    {
        let mut out = self.build_warning_head(
            audio_channels,
            aac_profile,
            current_keyframe_interval_ms,
            now_ms,
        );
        let mut tail = self.build_warning_tail(now_ms);
        let ghost hv = diags_view(out@);
        let ghost tv = diags_view(tail@);
        out.append(&mut tail);
        proof {
            assert(diags_view(out@) =~~= hv + tv);
        }
        out
    }

    /// Build the Info-severity findings, in rule order.
    #[verifier::rlimit(100)]
    #[verifier::spinoff_prover]
    fn build_info_diags(&self, video_profile: Option<&str>) -> (out: Vec<Diagnostic>)
        ensures
            diags_view(out@) == info_diags(*self, opt_chars(video_profile)),
    {
        let ghost d0 = *self;
        let ghost vp = opt_chars(video_profile);
        let mut out: Vec<Diagnostic> = Vec::new();
        let ghost mut acc: Seq<DiagView> = Seq::empty();
        proof {
            assert(diags_view(out@) =~~= acc);
        }
        if self.has_b_frames {
            match self.profile {
                ServiceProfile::Twitch => {
                },
                _ => {
                    out.push(Diagnostic::info("Video", String::from_str("B-frames detected")));
                },
            }
        }
        proof {
            acc = acc + (if d0.has_b_frames && !(d0.profile is Twitch) {
                seq![
                    DiagView {
                        severity: Severity::Info,
                        category: "Video"@,
                        message: "B-frames detected"@,
                    },
                ]
            } else {
                Seq::empty()
            });
            assert(diags_view(out@) =~~= acc);
        }
        match video_profile {
            Some(p) => {
                if str_contains(p, "Baseline") {
                    out.push(
                        Diagnostic::info(
                            "Video",
                            String::from_str("Baseline profile (consider Main/High for better compression)"),
                        ),
                    );
                }
            },
            None => {
            },
        }
        proof {
            acc = acc + (if vp is Some && contains_sub(vp->Some_0, "Baseline"@) {
                seq![
                    DiagView {
                        severity: Severity::Info,
                        category: "Video"@,
                        message: "Baseline profile (consider Main/High for better compression)"@,
                    },
                ]
            } else {
                Seq::empty()
            });
            assert(diags_view(out@) =~~= acc);
            assert(acc =~~= info_diags(d0, vp));
        }
        out
    }

    /// Run every rule and rebuild the findings, most severe first; calls
    /// within 500 ms of the previous rebuild return the cached buffer
    /// unchanged.
    #[verifier::rlimit(100)]
    #[verifier::spinoff_prover]
    pub fn check_all(
        &mut self,
        video_width: Option<u32>,
        video_height: Option<u32>,
        video_profile: Option<&str>,
        audio_sample_rate: Option<u32>,
        audio_channels: Option<u8>,
        aac_profile: Option<&str>,
        current_keyframe_interval_ms: Option<u64>,
        now_ms: u64,
    ) -> (r: Vec<Diagnostic>)
        ensures
            check_throttled(*old(self), now_ms) ==> {
                &&& *final(self) == *old(self)
                &&& diags_view(r@) == diags_view(old(self).diagnostics@)
            },
            !check_throttled(*old(self), now_ms) ==> {
                &&& diags_view(final(self).diagnostics@) == all_diags(
                    *old(self),
                    video_width,
                    video_height,
                    opt_chars(video_profile),
                    audio_sample_rate,
                    audio_channels,
                    opt_chars(aac_profile),
                    current_keyframe_interval_ms,
                    now_ms,
                )
                &&& diags_view(r@) == diags_view(final(self).diagnostics@)
                &&& *final(self) == (StreamDiagnostics {
                    diagnostics: final(self).diagnostics,
                    last_check_time: Some(now_ms),
                    ..*old(self)
                })
            },
    {
        match self.last_check_time {
            Some(last) => {
                let elapsed = if now_ms >= last {
                    now_ms - last
                } else {
                    0
                };
                if elapsed < 500 {
                    return clone_diags(&self.diagnostics);
                }
            },
            None => {
            },
        }
        self.last_check_time = Some(now_ms);

        let ghost d0 = *old(self);
        let ghost vp = opt_chars(video_profile);
        let ghost ap = opt_chars(aac_profile);
        let mut out: Vec<Diagnostic> = Vec::new();
        let ghost mut acc: Seq<DiagView> = Seq::empty();
        proof {
            assert(diags_view(out@) =~~= acc);
        }

        let mut out = self.build_error_diags(
            video_width,
            video_height,
            audio_sample_rate,
            audio_channels,
            current_keyframe_interval_ms,
        );
        let mut warns = self.build_warning_diags(
            video_profile,
            audio_sample_rate,
            audio_channels,
            aac_profile,
            current_keyframe_interval_ms,
            now_ms,
        );
        let mut infos = self.build_info_diags(video_profile);
        let ghost ov = diags_view(out@);
        let ghost wv = diags_view(warns@);
        let ghost iv0 = diags_view(infos@);
        out.append(&mut warns);
        proof {
            assert(diags_view(out@) =~~= ov + wv);
        }
        out.append(&mut infos);
        proof {
            assert(diags_view(out@) =~~= ov + wv + iv0);
            assert(error_diags(
                *self,
                video_width,
                video_height,
                audio_sample_rate,
                audio_channels,
                current_keyframe_interval_ms,
            ) =~~= error_diags(
                d0,
                video_width,
                video_height,
                audio_sample_rate,
                audio_channels,
                current_keyframe_interval_ms,
            ));
            assert(warning_diags(
                *self,
                vp,
                audio_sample_rate,
                audio_channels,
                ap,
                current_keyframe_interval_ms,
                now_ms,
            ) =~~= warning_diags(
                d0,
                vp,
                audio_sample_rate,
                audio_channels,
                ap,
                current_keyframe_interval_ms,
                now_ms,
            ));
            assert(info_diags(*self, vp) =~~= info_diags(d0, vp));
            assert(diags_view(out@) =~~= all_diags(
                d0,
                video_width,
                video_height,
                vp,
                audio_sample_rate,
                audio_channels,
                ap,
                current_keyframe_interval_ms,
                now_ms,
            ));
        }
        let r = clone_diags(&out);
        self.diagnostics = out;
        r
    }
}

/// Every entry of a list carries the given severity.
pub open spec fn all_severity(v: Seq<DiagView>, sev: Severity) -> bool {
    forall|i: int| 0 <= i < v.len() ==> (#[trigger] v[i]).severity == sev
}

/// Uniform severity survives concatenation.
pub proof fn lemma_all_severity_app(a: Seq<DiagView>, b: Seq<DiagView>, sev: Severity)
    requires
        all_severity(a, sev),
        all_severity(b, sev),
    ensures
        all_severity(a + b, sev),
{
    assert forall|i: int| 0 <= i < (a + b).len() implies ((a + b)[i]).severity == sev by {
        if i < a.len() {
            assert((a + b)[i] == a[i]);
        } else {
            assert((a + b)[i] == b[i - a.len()]);
        }
    }
}

/// The first error half is all errors.
pub proof fn lemma_error_head_severity(
    d: StreamDiagnostics,
    video_width: Option<u32>,
    video_height: Option<u32>,
    kf_interval_ms: Option<u64>,
)
    ensures
        all_severity(error_diags_head(d, video_width, video_height, kf_interval_ms), Severity::Error),
{
}

/// The second error half is all errors.
pub proof fn lemma_error_tail_severity(
    d: StreamDiagnostics,
    audio_sample_rate: Option<u32>,
    audio_channels: Option<u8>,
)
    ensures
        all_severity(error_diags_tail(d, audio_sample_rate, audio_channels), Severity::Error),
{
}

/// The first warning half is all warnings.
pub proof fn lemma_warning_head_severity(
    d: StreamDiagnostics,
    audio_channels: Option<u8>,
    aac_profile: Option<Seq<char>>,
    kf_interval_ms: Option<u64>,
    now_ms: u64,
)
    ensures
        all_severity(
            warning_diags_head(d, audio_channels, aac_profile, kf_interval_ms, now_ms),
            Severity::Warning,
        ),
{
}

/// The second warning half is all warnings.
pub proof fn lemma_warning_tail_severity(d: StreamDiagnostics, now_ms: u64)
    ensures
        all_severity(warning_diags_tail(d, now_ms), Severity::Warning),
{
}

/// The info list is all infos.
pub proof fn lemma_info_severity(d: StreamDiagnostics, video_profile: Option<Seq<char>>)
    ensures
        all_severity(info_diags(d, video_profile), Severity::Info),
{
}

/// A severity class never mixes into the others: the rebuilt list is
/// sorted by severity descending, and its error count is the length of
/// its error segment.
pub proof fn lemma_diags_sorted(
    d: StreamDiagnostics,
    video_width: Option<u32>,
    video_height: Option<u32>,
    video_profile: Option<Seq<char>>,
    audio_sample_rate: Option<u32>,
    audio_channels: Option<u8>,
    aac_profile: Option<Seq<char>>,
    kf_interval_ms: Option<u64>,
    now_ms: u64,
)
    ensures
        ({
            let l = all_diags(
                d,
                video_width,
                video_height,
                video_profile,
                audio_sample_rate,
                audio_channels,
                aac_profile,
                kf_interval_ms,
                now_ms,
            );
            &&& forall|i: int, j: int|
                0 <= i <= j < l.len() ==> severity_rank(#[trigger] l[i].severity) >= severity_rank(
                    #[trigger] l[j].severity,
                )
            &&& count_severity(l, Severity::Error) == error_diags(
                d,
                video_width,
                video_height,
                audio_sample_rate,
                audio_channels,
                kf_interval_ms,
            ).len()
        }),
{
    let e = error_diags(d, video_width, video_height, audio_sample_rate, audio_channels, kf_interval_ms);
    let w = warning_diags(d, video_profile, audio_sample_rate, audio_channels, aac_profile, kf_interval_ms, now_ms);
    let inf = info_diags(d, video_profile);
    let l = e + w + inf;
    lemma_error_head_severity(d, video_width, video_height, kf_interval_ms);
    lemma_error_tail_severity(d, audio_sample_rate, audio_channels);
    lemma_all_severity_app(
        error_diags_head(d, video_width, video_height, kf_interval_ms),
        error_diags_tail(d, audio_sample_rate, audio_channels),
        Severity::Error,
    );
    lemma_warning_head_severity(d, audio_channels, aac_profile, kf_interval_ms, now_ms);
    lemma_warning_tail_severity(d, now_ms);
    lemma_all_severity_app(
        warning_diags_head(d, audio_channels, aac_profile, kf_interval_ms, now_ms),
        warning_diags_tail(d, now_ms),
        Severity::Warning,
    );
    lemma_info_severity(d, video_profile);
    assert(all_severity(e, Severity::Error));
    assert(all_severity(w, Severity::Warning));
    assert(all_severity(inf, Severity::Info));
    assert forall|i: int, j: int|
        0 <= i <= j < l.len() implies severity_rank(#[trigger] l[i].severity) >= severity_rank(
        #[trigger] l[j].severity,
    ) by {
        assert(l[i].severity == if i < e.len() {
            Severity::Error
        } else if i < e.len() + w.len() {
            Severity::Warning
        } else {
            Severity::Info
        });
        assert(l[j].severity == if j < e.len() {
            Severity::Error
        } else if j < e.len() + w.len() {
            Severity::Warning
        } else {
            Severity::Info
        });
    }
    lemma_count_all_severity(e, Severity::Error);
    lemma_count_none_severity(w, Severity::Error);
    lemma_count_none_severity(inf, Severity::Error);
    lemma_count_severity_app(e, w + inf, Severity::Error);
    lemma_count_severity_app(w, inf, Severity::Error);
    assert(e + w + inf =~= e + (w + inf));
}

/// Counting distributes over concatenation.
pub proof fn lemma_count_severity_app(a: Seq<DiagView>, b: Seq<DiagView>, sev: Severity)
    ensures
        count_severity(a + b, sev) == count_severity(a, sev) + count_severity(b, sev),
    decreases a.len(),
{
    if a.len() == 0 {
        assert(a + b =~= b);
    } else {
        assert((a + b).drop_first() =~= a.drop_first() + b);
        lemma_count_severity_app(a.drop_first(), b, sev);
    }
}

/// A list whose entries all carry `sev` counts as its length.
pub proof fn lemma_count_all_severity(v: Seq<DiagView>, sev: Severity)
    requires
        forall|i: int| 0 <= i < v.len() ==> (#[trigger] v[i]).severity == sev,
    ensures
        count_severity(v, sev) == v.len(),
    decreases v.len(),
{
    if v.len() > 0 {
        lemma_count_all_severity(v.drop_first(), sev);
    }
}

/// A list with no entry of `sev` counts zero.
pub proof fn lemma_count_none_severity(v: Seq<DiagView>, sev: Severity)
    requires
        forall|i: int| 0 <= i < v.len() ==> (#[trigger] v[i]).severity != sev,
    ensures
        count_severity(v, sev) == 0,
    decreases v.len(),
{
    if v.len() > 0 {
        lemma_count_none_severity(v.drop_first(), sev);
    }
}

/// After any `check_all` at `now1`, a second call within half a second is
/// absorbed by the throttle, so (by `check_all`'s contract) it returns the
/// first call's buffer unchanged.
pub proof fn lemma_check_all_throttle(d2: StreamDiagnostics, now1: u64, now2: u64)
    requires
        d2.last_check_time == Some(now1),
        now2 - now1 < 500,
    ensures
        check_throttled(d2, now2),
{
}

} // verus!
