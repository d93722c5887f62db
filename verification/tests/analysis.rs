use rustmp::audio::{AudioAnalyzer, AudioCodec};
use rustmp::diagnostics::{ServiceProfile, Severity, StreamDiagnostics};
use rustmp::session::Session;
use rustmp::message::RtmpEvent;
use rustmp::stats::StreamStats;
use rustmp::video::{VideoAnalyzer, VideoCodec};

/// AVC sequence-header payload for a 1280x720 high-profile SPS whose NAL
/// unit carries two emulation-prevention bytes.
const GOLDEN_AVC_SEQ_HEADER: [u8; 34] = [
    0x17, 0x00, 0, 0, 0, // keyframe, AVC, sequence header, zero cto
    1, 100, 0, 31, 0xFF, 0xE1, 0, 21, // config: High, level 3.1, one SPS of 21 bytes
    0x67, 0x64, 0x00, 0x1F, 0xAC, 0xE4, 0x01, 0x40, 0x16, 0xE8, // SPS head
    0x00, 0x00, 0x03, 0x00, 0x01, 0x00, 0x00, 0x03, 0x00, 0x03, 0xC0, // escaped tail
];

#[test]
fn avc_sps_parsing() {
    let mut v = VideoAnalyzer::new();
    v.process(&GOLDEN_AVC_SEQ_HEADER, 0);
    assert_eq!(v.codec, Some(VideoCodec::Avc));
    assert_eq!(v.width, Some(1280));
    assert_eq!(v.height, Some(720));
    assert_eq!(v.profile.as_deref(), Some("High"));
    assert_eq!(v.level.as_deref(), Some("3.1"));
    assert!(v.avc_config_received);
    // a sequence header is not a frame
    assert_eq!(v.total_video_frames, 0);
}

#[test]
fn video_counters_balance() {
    let mut v = VideoAnalyzer::new();
    // keyframe NALU
    v.process(&[0x17, 0x01, 0, 0, 0, 0xAA], 0);
    // inter NALU with zero composition offset
    v.process(&[0x27, 0x01, 0, 0, 0, 0xBB], 33);
    // inter NALU with nonzero composition offset: a B-frame
    v.process(&[0x27, 0x01, 0, 0, 5, 0xCC], 66);
    // end of sequence: not counted
    v.process(&[0x27, 0x02, 0, 0, 0], 99);
    assert_eq!(v.keyframe_count, 1);
    assert_eq!(v.inter_frame_count, 1);
    assert_eq!(v.b_frame_count, 1);
    assert_eq!(v.total_video_frames, 3);
    assert_eq!(
        v.keyframe_count + v.inter_frame_count + v.b_frame_count,
        v.total_video_frames
    );
    let expected_bytes = 6 + 6 + 6 + 5;
    assert_eq!(v.total_video_bytes, expected_bytes);
}

#[test]
fn non_avc_frames_counted_directly() {
    let mut v = VideoAnalyzer::new();
    v.process(&[0x12, 1, 2, 3], 0); // keyframe, Sorenson H.263
    v.process(&[0x22, 1, 2], 40); // inter frame
    assert_eq!(v.codec, Some(VideoCodec::H263));
    assert_eq!(v.keyframe_count, 1);
    assert_eq!(v.inter_frame_count, 1);
    assert_eq!(v.total_video_frames, 2);
    assert_eq!(v.total_video_bytes, 7);
}

#[test]
fn video_info_frames_not_counted() {
    let mut v = VideoAnalyzer::new();
    v.process(&[0x57, 0x01, 0, 0, 0], 0);
    assert_eq!(v.total_video_frames, 0);
    assert_eq!(v.total_video_bytes, 5);
}

#[test]
fn codec_labels() {
    assert_eq!(VideoCodec::Avc.label(), "H.264/AVC");
    assert_eq!(VideoCodec::Unknown(12).label(), "Unknown (12)");
    assert_eq!(AudioCodec::Aac.label(), "AAC");
    assert_eq!(AudioCodec::Unknown(9).label(), "Unknown (9)");
}

#[test]
fn aac_audio_specific_config() {
    let mut a = AudioAnalyzer::new();
    // AAC, 44.1 kHz header bits, 16-bit, stereo; ASC: AAC-LC, 44100, 2ch
    a.process(&[0xAF, 0x00, 0x12, 0x10], 0);
    assert_eq!(a.codec, Some(AudioCodec::Aac));
    assert!(a.asc_received);
    assert_eq!(a.aac_profile.as_deref(), Some("AAC-LC"));
    assert_eq!(a.asc_sample_rate, Some(44100));
    assert_eq!(a.asc_channels, Some(2));
    // the config record is not an audio frame
    assert_eq!(a.total_audio_frames, 0);
    // raw AAC counts
    a.process(&[0xAF, 0x01, 1, 2, 3], 23);
    assert_eq!(a.total_audio_frames, 1);
    assert_eq!(a.total_audio_bytes, 9);
    // ASC values take precedence over the FLV header fields
    assert_eq!(a.effective_sample_rate(), Some(44100));
    assert_eq!(a.effective_channels(), Some(2));
}

#[test]
fn flv_header_fields_without_asc() {
    let mut a = AudioAnalyzer::new();
    // MP3, 22050, 16-bit, mono
    a.process(&[0x2A, 1, 2], 0);
    assert_eq!(a.codec, Some(AudioCodec::Mp3));
    assert_eq!(a.sample_rate, Some(22050));
    assert_eq!(a.sample_size, Some(16));
    assert_eq!(a.channels, Some(1));
    assert_eq!(a.effective_sample_rate(), Some(22050));
    assert_eq!(a.total_audio_frames, 1);
}

#[test]
fn he_aac_profile_name() {
    let mut a = AudioAnalyzer::new();
    // object type 5 (SBR), index 3 (48000), 2 channels:
    // byte0 = 5<<3 | 3>>1 = 0x29, byte1 = (3&1)<<7 | 2<<3 = 0x90
    a.process(&[0xAF, 0x00, 0x29, 0x90], 0);
    assert_eq!(a.aac_profile.as_deref(), Some("HE-AAC (SBR)"));
    assert_eq!(a.asc_sample_rate, Some(48000));
}

#[test]
fn rolling_windows_trim_to_cutoff() {
    let mut s = StreamStats::new();
    s.record_video_frame(100, true, 0);
    s.record_video_frame(100, false, 1000);
    s.record_video_frame(100, false, 2600);
    // the frame at 0 is older than 2600 - 2000 and fell out
    assert_eq!(s.total_video_bytes, 300);
    assert_eq!(s.duration_ms, 2600);
    // both audio and video windows honor the two-second cutoff
    s.record_audio_frame(50, 2700);
    s.record_audio_frame(50, 5000);
    assert_eq!(s.total_audio_bytes, 100);
    let kbps = s.current_audio_bitrate_kbps();
    // one surviving entry only: no rate
    assert_eq!(kbps, None);
}

#[test]
fn fps_over_window() {
    let mut s = StreamStats::new();
    for i in 0..10u64 {
        s.record_video_frame(1000, i == 0, i * 100);
    }
    // 9 intervals over 900 ms
    assert_eq!(s.current_fps(), Some(10));
    // 10 frames x 1000 bytes x 8 bits over 900 ms
    assert_eq!(s.current_video_bitrate_kbps(), Some(88));
}

#[test]
fn keyframe_interval_tracked() {
    let mut s = StreamStats::new();
    s.record_video_frame(10, true, 0);
    assert_eq!(s.keyframe_interval_ms, None);
    s.record_video_frame(10, false, 1000);
    s.record_video_frame(10, true, 2500);
    assert_eq!(s.keyframe_interval_ms, Some(2500));
}

#[test]
fn keyframe_interval_rule_on_twitch() {
    let mut d = StreamDiagnostics::new();
    d.set_profile(ServiceProfile::Twitch);
    let result = d.check_all(None, None, None, None, None, None, Some(2500), 10_000);
    let hit = result.iter().any(|x| {
        x.severity == Severity::Error
            && x.category == "Video"
            && x.message == "Keyframe interval 2.5s exceeds Twitch max (2s)"
    });
    assert!(hit, "expected the keyframe-interval error");
}

#[test]
fn keyframe_interval_near_limit_warns() {
    let mut d = StreamDiagnostics::new();
    d.set_profile(ServiceProfile::Twitch);
    let result = d.check_all(None, None, None, None, None, None, Some(1900), 10_000);
    let hit = result.iter().any(|x| {
        x.severity == Severity::Warning
            && x.message == "Keyframe interval 1.9s near Twitch limit (2s)"
    });
    assert!(hit, "expected the near-limit warning");
}

#[test]
fn diagnostics_sorted_by_severity() {
    let mut d = StreamDiagnostics::new();
    d.set_profile(ServiceProfile::Twitch);
    d.record_b_frame();
    d.record_stream_start(0);
    let result = d.check_all(
        Some(853),
        Some(481),
        Some("Baseline"),
        Some(11025),
        Some(1),
        Some("AAC Main"),
        Some(2500),
        10_000,
    );
    // severity never increases along the list
    let rank = |s: &Severity| match s {
        Severity::Error => 2,
        Severity::Warning => 1,
        Severity::Info => 0,
    };
    for pair in result.windows(2) {
        assert!(rank(&pair[0].severity) >= rank(&pair[1].severity));
    }
    let errors = result.iter().filter(|x| x.severity == Severity::Error).count();
    assert_eq!(d.error_count(), errors);
    let warnings = result.iter().filter(|x| x.severity == Severity::Warning).count();
    assert_eq!(d.warning_count(), warnings);
    assert!(errors > 0);
    // baseline profile note is informational and comes last
    assert_eq!(result.last().unwrap().severity, Severity::Info);
}

#[test]
fn check_all_throttled_within_half_second() {
    let mut d = StreamDiagnostics::new();
    d.set_profile(ServiceProfile::Twitch);
    let first = d.check_all(None, None, None, None, None, None, Some(2500), 1000);
    // different inputs, 300 ms later: the cached buffer comes back
    let second = d.check_all(Some(1920), Some(1080), None, Some(44100), Some(2), None, None, 1300);
    assert_eq!(first.len(), second.len());
    for (a, b) in first.iter().zip(second.iter()) {
        assert_eq!(a.severity, b.severity);
        assert_eq!(a.category, b.category);
        assert_eq!(a.message, b.message);
    }
    // past the throttle the rules run again
    let third = d.check_all(Some(1920), Some(1080), None, Some(44100), Some(2), None, None, 1600);
    assert!(third.len() != first.len() || third.iter().zip(first.iter()).any(|(a, b)| a.message != b.message));
}

#[test]
fn odd_dimensions_flagged() {
    let mut d = StreamDiagnostics::new();
    let r = d.check_all(Some(854), Some(481), None, None, None, None, None, 1000);
    assert!(r.iter().any(|x| x.message == "Resolution 854x481 has odd dimensions (must be even)"));
    let mut d2 = StreamDiagnostics::new();
    let r2 = d2.check_all(Some(854), Some(480), None, None, None, None, None, 1000);
    assert!(!r2.iter().any(|x| x.message.contains("odd dimensions")));
}

#[test]
fn sample_rate_rule_by_profile() {
    let mut d = StreamDiagnostics::new();
    d.set_profile(ServiceProfile::Twitch);
    let r = d.check_all(None, None, None, Some(22050), None, None, None, 1000);
    assert!(r.iter().any(|x| x.message == "22050 Hz sample rate not supported by Twitch"));
    let mut d2 = StreamDiagnostics::new();
    d2.set_profile(ServiceProfile::Generic);
    let r2 = d2.check_all(None, None, None, Some(22050), None, None, None, 1000);
    assert!(!r2.iter().any(|x| x.message.contains("sample rate")));
}

#[test]
fn timestamp_rollback_detected() {
    let mut d = StreamDiagnostics::new();
    d.record_video_timestamp(5000);
    d.record_video_timestamp(1000); // a rollback, not a 32-bit wrap
    d.record_audio_timestamp(100);
    d.record_audio_timestamp(4_294_967_290); // near-wrap values are tolerated
    let r = d.check_all(None, None, None, None, None, None, None, 1000);
    assert!(r.iter().any(|x| x.message == "1 video timestamp rollback(s) detected"));
    assert!(!r.iter().any(|x| x.message.contains("audio timestamp rollback")));
}

#[test]
fn av_desync_warning() {
    let mut d = StreamDiagnostics::new();
    d.record_video_timestamp(2000);
    d.record_audio_timestamp(900);
    let r = d.check_all(None, None, None, None, None, None, None, 1000);
    assert!(r.iter().any(|x| x.message == "A/V desync detected (1100ms)"));
}

#[test]
fn session_counts_through_events() {
    let mut s = Session::new(ServiceProfile::Twitch);
    let ended = s.apply_event(
        RtmpEvent::Publishing {
            app_name: String::from("live"),
            stream_key: String::from("k"),
        },
        0,
    );
    assert!(!ended && s.publishing);
    s.apply_event(
        RtmpEvent::VideoData { timestamp: 0, data: GOLDEN_AVC_SEQ_HEADER.to_vec() },
        10,
    );
    assert!(s.diagnostics.avc_seq_header_received);
    s.apply_event(
        RtmpEvent::VideoData { timestamp: 33, data: vec![0x17, 0x01, 0, 0, 0, 1, 2, 3] },
        43,
    );
    s.apply_event(
        RtmpEvent::AudioData { timestamp: 40, data: vec![0xAF, 0x00, 0x12, 0x10] },
        50,
    );
    assert!(s.diagnostics.aac_seq_header_received);
    assert_eq!(s.video.keyframe_count, 1);
    assert_eq!(s.video.width, Some(1280));
    let ended = s.apply_event(RtmpEvent::StreamEnded, 60);
    assert!(ended && !s.publishing);
}

#[test]
fn session_metadata_flags() {
    let mut s = Session::new(ServiceProfile::Generic);
    let props = vec![
        (String::from("encoder"), rustmp::amf0::Amf0Value::Str(String::from("obs-output"))),
        (String::from("width"), rustmp::amf0::Amf0Value::Number(0)),
        (String::from("fps"), rustmp::amf0::Amf0Value::Number(0)),
    ];
    s.apply_event(RtmpEvent::Metadata { properties: props }, 5);
    assert_eq!(s.encoder_name.as_deref(), Some("obs-output"));
    assert!(s.diagnostics.metadata_received);
    assert!(s.diagnostics.metadata_has_dimensions);
    assert!(s.diagnostics.metadata_has_framerate);
    assert!(!s.diagnostics.metadata_has_bitrate);
}
