//! Per-connection session state: the analyzers, statistics and
//! diagnostics one publisher feeds, and the decisions taken for each
//! protocol event. The socket loop around it only performs I/O.

use vstd::prelude::*;
use crate::amf0::Amf0Value;
use crate::audio::{audio_processed, AudioAnalyzer};
use crate::bytes::be24;
use crate::diagnostics::{
    after_aac_header, after_avc_header, after_b_frame, after_keyframe, after_metadata,
    after_stream_start, after_video_ts, after_audio_ts, all_diags, check_throttled, diags_view,
    intervals_after_keyframe, opt_string_chars, Diagnostic, ServiceProfile, StreamDiagnostics,
};
use crate::message::RtmpEvent;
use crate::stats::{audio_frame_recorded, video_frame_recorded, StreamStats};
use crate::strutil::str_eq;
use crate::video::{video_processed, VideoAnalyzer};

verus! {

/// Everything one connection tracks about its publisher.
pub struct Session {
    pub video: VideoAnalyzer,
    pub audio: AudioAnalyzer,
    pub stats: StreamStats,
    pub diagnostics: StreamDiagnostics,
    pub encoder_name: Option<String>,
    pub publishing: bool,
}

/// Whether a metadata pair list carries either of two keys.
pub open spec fn props_have_upto(
    ps: Seq<(String, Amf0Value)>,
    k1: Seq<char>,
    k2: Seq<char>,
    n: int,
) -> bool {
    exists|j: int| 0 <= j < n && ((#[trigger] ps[j]).0@ == k1 || ps[j].0@ == k2)
}

/// Whether a metadata pair list carries either of two keys.
pub open spec fn props_have(ps: Seq<(String, Amf0Value)>, k1: Seq<char>, k2: Seq<char>) -> bool {
    props_have_upto(ps, k1, k2, ps.len() as int)
}

/// The last `encoder` string a metadata pair list carries, folding over
/// the pairs from a starting value.
pub open spec fn encoder_of(
    ps: Seq<(String, Amf0Value)>,
    current: Option<Seq<char>>,
) -> Option<Seq<char>>
    decreases ps.len(),
{
    if ps.len() == 0 {
        current
    } else {
        let next = if ps[0].0@ == "encoder"@ && ps[0].1 is Str {
            Some(ps[0].1->Str_0@)
        } else {
            current
        };
        encoder_of(ps.drop_first(), next)
    }
}


/// Extending the scanned prefix by one pair either finds a key there or
/// keeps the earlier answer.
proof fn lemma_props_have_step(ps: Seq<(String, Amf0Value)>, k1: Seq<char>, k2: Seq<char>, i: int)
    requires
        0 <= i < ps.len(),
    ensures
        props_have_upto(ps, k1, k2, i + 1) == (props_have_upto(ps, k1, k2, i) || ps[i].0@ == k1
            || ps[i].0@ == k2),
{
    if props_have_upto(ps, k1, k2, i + 1) {
        let j = choose|j: int| 0 <= j < i + 1 && ((#[trigger] ps[j]).0@ == k1 || ps[j].0@ == k2);
        if j < i {
            assert(props_have_upto(ps, k1, k2, i));
        }
    }
    if props_have_upto(ps, k1, k2, i) {
        let j = choose|j: int| 0 <= j < i && ((#[trigger] ps[j]).0@ == k1 || ps[j].0@ == k2);
        assert(0 <= j < i + 1 && (ps[j].0@ == k1 || ps[j].0@ == k2));
    }
    if ps[i].0@ == k1 || ps[i].0@ == k2 {
        assert(props_have_upto(ps, k1, k2, i + 1));
    }
}

/// The diagnostics state after one video payload: timestamp bookkeeping,
/// then the sequence-header, keyframe and B-frame observations the
/// payload carries.
pub open spec fn video_event_diag(
    d: StreamDiagnostics,
    data: Seq<u8>,
    ts: u32,
    now_ms: u64,
    intervals: Vec<u64>,
) -> StreamDiagnostics {
    let d1 = after_video_ts(d, ts);
    let d2 = if data.len() >= 2 && data[0] % 16 == 7 && data[1] == 0 {
        after_avc_header(d1, now_ms)
    } else {
        d1
    };
    let d3 = if data.len() > 0 && data[0] / 16 == 1 {
        after_keyframe(d2, now_ms, intervals)
    } else {
        d2
    };
    if data.len() >= 5 && data[0] % 16 == 7 && data[1] == 1 && be24(data[2], data[3], data[4])
        != 0 {
        after_b_frame(d3)
    } else {
        d3
    }
}

impl Session {
    /// The statistics windows stay well formed and timestamped by one
    /// monotonic clock.
    pub open spec fn wf(&self) -> bool {
        self.stats.wf()
    }

    pub fn new(profile: ServiceProfile) -> (r: Session)
        ensures
            r.wf(),
            r.diagnostics.profile == profile,
            !r.publishing,
            r.encoder_name is None,
            r.stats.last_time() == 0,
    {
        let mut diagnostics = StreamDiagnostics::new();
        diagnostics.set_profile(profile);
        Session {
            video: VideoAnalyzer::new(),
            audio: AudioAnalyzer::new(),
            stats: StreamStats::new(),
            diagnostics,
            encoder_name: None,
            publishing: false,
        }
    }

    /// Absorb one metadata event: scan the pairs for the encoder name and
    /// the dimension, framerate and bitrate flags, then record them.
    fn apply_metadata(&mut self, properties: Vec<(String, Amf0Value)>)
        ensures
            *final(self) == (Session {
                diagnostics: final(self).diagnostics,
                encoder_name: final(self).encoder_name,
                ..*old(self)
            }),
            final(self).diagnostics == after_metadata(
                old(self).diagnostics,
                props_have(properties@, "width"@, "height"@),
                props_have(properties@, "framerate"@, "fps"@),
                props_have(properties@, "videodatarate"@, "audiodatarate"@),
            ),
            opt_string_chars(final(self).encoder_name) == encoder_of(
                properties@,
                opt_string_chars(old(self).encoder_name),
            ),
    {
        let ghost ps = properties@;
        let ghost enc0 = opt_string_chars(self.encoder_name);
        let mut has_dims = false;
        let mut has_fps = false;
        let mut has_bitrate = false;
        let mut i: usize = 0;
        proof {
            assert(ps.skip(0int) =~= ps);
        }
        while i < properties.len()
            invariant
                ps == properties@,
                self.stats == old(self).stats,
                self.video == old(self).video,
                self.audio == old(self).audio,
                self.publishing == old(self).publishing,
                self.diagnostics == old(self).diagnostics,
                enc0 == opt_string_chars(old(self).encoder_name),
                i <= ps.len(),
                has_dims == props_have_upto(ps, "width"@, "height"@, i as int),
                has_fps == props_have_upto(ps, "framerate"@, "fps"@, i as int),
                has_bitrate == props_have_upto(
                    ps,
                    "videodatarate"@,
                    "audiodatarate"@,
                    i as int,
                ),
                encoder_of(ps, enc0) == encoder_of(
                    ps.skip(i as int),
                    opt_string_chars(self.encoder_name),
                ),
            decreases ps.len() - i,
        {
            proof {
                assert(ps.skip(i as int)[0] == ps[i as int]);
                assert(ps.skip(i as int).drop_first() =~= ps.skip(i + 1));
                lemma_props_have_step(ps, "width"@, "height"@, i as int);
                lemma_props_have_step(ps, "framerate"@, "fps"@, i as int);
                lemma_props_have_step(ps, "videodatarate"@, "audiodatarate"@, i as int);
            }
            let key = properties[i].0.as_str();
            if str_eq(key, "encoder") {
                match properties[i].1.as_str() {
                    Some(name) => {
                        self.encoder_name = Some(String::from_str(name));
                    },
                    None => {
                    },
                }
            }
            if str_eq(key, "width") || str_eq(key, "height") {
                has_dims = true;
            }
            if str_eq(key, "framerate") || str_eq(key, "fps") {
                has_fps = true;
            }
            if str_eq(key, "videodatarate") || str_eq(key, "audiodatarate") {
                has_bitrate = true;
            }
            i = i + 1;
        }
        proof {
            assert(ps.skip(ps.len() as int) =~= Seq::<(String, Amf0Value)>::empty());
        }
        self.diagnostics.record_metadata(has_dims, has_fps, has_bitrate);
    }

    /// Absorb one video payload at `now_ms`.
    #[verifier::rlimit(100)]
    #[verifier::spinoff_prover]
    fn apply_video(&mut self, timestamp: u32, data: Vec<u8>, now_ms: u64)
        requires
            old(self).wf(),
            now_ms >= old(self).stats.last_time(),
        ensures
            final(self).wf(),
            video_processed(old(self).video, data@, final(self).video),
            video_frame_recorded(
                old(self).stats,
                data@.len() as usize,
                data@.len() > 0 && data@[0] / 16 == 1,
                now_ms,
                final(self).stats,
            ),
            final(self).diagnostics == video_event_diag(
                old(self).diagnostics,
                data@,
                timestamp,
                now_ms,
                final(self).diagnostics.keyframe_intervals,
            ),
            final(self).diagnostics.keyframe_intervals@ == (if data@.len() > 0 && data@[0] / 16
                == 1 {
                intervals_after_keyframe(
                    old(self).diagnostics.keyframe_intervals@,
                    old(self).stats.keyframe_interval_ms,
                )
            } else {
                old(self).diagnostics.keyframe_intervals@
            }),
            final(self).audio == old(self).audio,
            final(self).encoder_name == old(self).encoder_name,
            final(self).publishing == old(self).publishing,
    {
        self.diagnostics.record_video_timestamp(timestamp);
        if data.len() >= 2 {
            // an AVC payload whose packet type is 0 is a sequence header
            if data[0] % 16 == 7 && data[1] == 0 {
                self.diagnostics.record_avc_seq_header(now_ms);
            }
        }
        self.video.process(data.as_slice(), timestamp);
        let is_keyframe = data.len() > 0 && data[0] / 16 == 1;
        if is_keyframe {
            self.diagnostics.record_keyframe(self.stats.keyframe_interval_ms, now_ms);
        }
        if data.len() >= 5 && data[0] % 16 == 7 && data[1] == 1 {
            let cto = crate::bytes::read_be24(data[2], data[3], data[4]);
            if cto != 0 {
                self.diagnostics.record_b_frame();
            }
        }
        self.stats.record_video_frame(data.len(), is_keyframe, now_ms);
    }

    /// Absorb one audio payload at `now_ms`.
    #[verifier::rlimit(100)]
    #[verifier::spinoff_prover]
    fn apply_audio(&mut self, timestamp: u32, data: Vec<u8>, now_ms: u64)
        requires
            old(self).wf(),
            now_ms >= old(self).stats.last_time(),
        ensures
            final(self).wf(),
            audio_processed(old(self).audio, data@, final(self).audio),
            ({
                let seq_header = data@.len() >= 2 && data@[0] / 16 == 10 && data@[1] == 0;
                &&& (if seq_header {
                    final(self).stats == old(self).stats
                } else {
                    audio_frame_recorded(
                        old(self).stats,
                        data@.len() as usize,
                        now_ms,
                        final(self).stats,
                    )
                })
                &&& final(self).diagnostics == (if seq_header {
                    after_aac_header(after_audio_ts(old(self).diagnostics, timestamp), now_ms)
                } else {
                    after_audio_ts(old(self).diagnostics, timestamp)
                })
            }),
            final(self).video == old(self).video,
            final(self).encoder_name == old(self).encoder_name,
            final(self).publishing == old(self).publishing,
    {
        self.diagnostics.record_audio_timestamp(timestamp);
        let is_aac_seq_header = data.len() >= 2 && data[0] / 16 == 10 && data[1] == 0;
        if is_aac_seq_header {
            self.diagnostics.record_aac_seq_header(now_ms);
        }
        self.audio.process(data.as_slice(), timestamp);
        if !is_aac_seq_header {
            self.stats.record_audio_frame(data.len(), now_ms);
        }
    }

    /// React to one protocol event at `now_ms`: feed the analyzers,
    /// statistics and diagnostics exactly as the event requires. Returns
    /// whether the stream ended.
    pub fn apply_event(&mut self, event: RtmpEvent, now_ms: u64) -> (ended: bool)
        requires
            old(self).wf(),
            now_ms >= old(self).stats.last_time(),
        ensures
            final(self).wf(),
            ended == (event is StreamEnded),
            ({
                match event {
                    RtmpEvent::Connected { .. } => *final(self) == *old(self),
                    RtmpEvent::Publishing { .. } => {
                        &&& *final(self) == (Session {
                            publishing: true,
                            diagnostics: final(self).diagnostics,
                            ..*old(self)
                        })
                        &&& final(self).diagnostics == after_stream_start(
                            old(self).diagnostics,
                            now_ms,
                        )
                    },
                    RtmpEvent::Metadata { properties } => {
                        &&& *final(self) == (Session {
                            diagnostics: final(self).diagnostics,
                            encoder_name: final(self).encoder_name,
                            ..*old(self)
                        })
                        &&& final(self).diagnostics == after_metadata(
                            old(self).diagnostics,
                            props_have(properties@, "width"@, "height"@),
                            props_have(properties@, "framerate"@, "fps"@),
                            props_have(properties@, "videodatarate"@, "audiodatarate"@),
                        )
                        &&& opt_string_chars(final(self).encoder_name) == encoder_of(
                            properties@,
                            opt_string_chars(old(self).encoder_name),
                        )
                    },
                    RtmpEvent::VideoData { timestamp, data } => {
                        &&& video_processed(old(self).video, data@, final(self).video)
                        &&& video_frame_recorded(
                            old(self).stats,
                            data@.len() as usize,
                            data@.len() > 0 && data@[0] / 16 == 1,
                            now_ms,
                            final(self).stats,
                        )
                        &&& final(self).diagnostics == video_event_diag(
                            old(self).diagnostics,
                            data@,
                            timestamp,
                            now_ms,
                            final(self).diagnostics.keyframe_intervals,
                        )
                        &&& final(self).diagnostics.keyframe_intervals@ == (if data@.len() > 0
                            && data@[0] / 16 == 1 {
                            intervals_after_keyframe(
                                old(self).diagnostics.keyframe_intervals@,
                                old(self).stats.keyframe_interval_ms,
                            )
                        } else {
                            old(self).diagnostics.keyframe_intervals@
                        })
                        &&& final(self).audio == old(self).audio
                        &&& final(self).encoder_name == old(self).encoder_name
                        &&& final(self).publishing == old(self).publishing
                    },
                    RtmpEvent::AudioData { timestamp, data } => {
                        let seq_header = data@.len() >= 2 && data@[0] / 16 == 10 && data@[1] == 0;
                        &&& audio_processed(old(self).audio, data@, final(self).audio)
                        &&& (if seq_header {
                            final(self).stats == old(self).stats
                        } else {
                            audio_frame_recorded(
                                old(self).stats,
                                data@.len() as usize,
                                now_ms,
                                final(self).stats,
                            )
                        })
                        &&& final(self).diagnostics == (if seq_header {
                            after_aac_header(after_audio_ts(old(self).diagnostics, timestamp), now_ms)
                        } else {
                            after_audio_ts(old(self).diagnostics, timestamp)
                        })
                        &&& final(self).video == old(self).video
                        &&& final(self).encoder_name == old(self).encoder_name
                        &&& final(self).publishing == old(self).publishing
                    },
                    RtmpEvent::StreamEnded => *final(self) == (Session {
                        publishing: false,
                        ..*old(self)
                    }),
                }
            }),
    {
        match event {
            RtmpEvent::Connected { .. } => false,
            RtmpEvent::Publishing { .. } => {
                self.publishing = true;
                self.diagnostics.record_stream_start(now_ms);
                false
            },
            RtmpEvent::Metadata { properties } => {
                self.apply_metadata(properties);
                false
            },
            RtmpEvent::VideoData { timestamp, data } => {
                self.apply_video(timestamp, data, now_ms);
                false
            },
            RtmpEvent::AudioData { timestamp, data } => {
                self.apply_audio(timestamp, data, now_ms);
                false
            },
            RtmpEvent::StreamEnded => {
                self.publishing = false;
                true
            },
        }
    }

    /// Run the diagnostic rules against the current analyzer readings:
    /// exactly `check_all` applied to the session's own snapshot.
    pub fn run_checks(&mut self, now_ms: u64) -> (r: Vec<Diagnostic>)
        requires
            old(self).wf(),
        ensures
            final(self).wf(),
            *final(self) == (Session { diagnostics: final(self).diagnostics, ..*old(self) }),
            ({
                let d0 = old(self).diagnostics;
                let sr = if old(self).audio.asc_sample_rate is Some {
                    old(self).audio.asc_sample_rate
                } else {
                    old(self).audio.sample_rate
                };
                let ch = if old(self).audio.asc_channels is Some {
                    old(self).audio.asc_channels
                } else {
                    old(self).audio.channels
                };
                if check_throttled(d0, now_ms) {
                    &&& final(self).diagnostics == d0
                    &&& diags_view(r@) == diags_view(d0.diagnostics@)
                } else {
                    &&& diags_view(final(self).diagnostics.diagnostics@) == all_diags(
                        d0,
                        old(self).video.width,
                        old(self).video.height,
                        opt_string_chars(old(self).video.profile),
                        sr,
                        ch,
                        opt_string_chars(old(self).audio.aac_profile),
                        old(self).stats.keyframe_interval_ms,
                        now_ms,
                    )
                    &&& diags_view(r@) == diags_view(final(self).diagnostics.diagnostics@)
                    &&& final(self).diagnostics == (StreamDiagnostics {
                        diagnostics: final(self).diagnostics.diagnostics,
                        last_check_time: Some(now_ms),
                        ..d0
                    })
                }
            }),
    {
        let video_profile: Option<&str> = match &self.video.profile {
            Some(p) => Some(p.as_str()),
            None => None,
        };
        let aac_profile: Option<&str> = match &self.audio.aac_profile {
            Some(p) => Some(p.as_str()),
            None => None,
        };
        let sr = self.audio.effective_sample_rate();
        let ch = self.audio.effective_channels();
        self.diagnostics.check_all(
            self.video.width,
            self.video.height,
            video_profile,
            sr,
            ch,
            aac_profile,
            self.stats.keyframe_interval_ms,
            now_ms,
        )
    }
}

} // verus!
