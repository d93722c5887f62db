//! FLV audio-tag analysis: codec and format fields from the tag header,
//! and the AAC AudioSpecificConfig record.

use vstd::prelude::*;
use crate::strutil::{dec_chars, sat_add, sat_add64, u64_string};

verus! {

/// FLV audio codec ids.
#[derive(Clone, Copy, PartialEq, Eq, Structural, Debug)]
pub enum AudioCodec {
    LinearPcmPlatformEndian,
    Adpcm,
    Mp3,
    LinearPcmLittleEndian,
    Nellymoser16k,
    Nellymoser8k,
    Nellymoser,
    G711ALaw,
    G711MuLaw,
    Aac,
    Speex,
    Mp3_8k,
    DeviceSpecific,
    Unknown(u8),
}

/// The codec selected by the high nibble of an FLV audio tag.
pub open spec fn audio_codec_of(id: u8) -> AudioCodec {
    if id == 0 {
        AudioCodec::LinearPcmPlatformEndian
    } else if id == 1 {
        AudioCodec::Adpcm
    } else if id == 2 {
        AudioCodec::Mp3
    } else if id == 3 {
        AudioCodec::LinearPcmLittleEndian
    } else if id == 4 {
        AudioCodec::Nellymoser16k
    } else if id == 5 {
        AudioCodec::Nellymoser8k
    } else if id == 6 {
        AudioCodec::Nellymoser
    } else if id == 7 {
        AudioCodec::G711ALaw
    } else if id == 8 {
        AudioCodec::G711MuLaw
    } else if id == 10 {
        AudioCodec::Aac
    } else if id == 11 {
        AudioCodec::Speex
    } else if id == 14 {
        AudioCodec::Mp3_8k
    } else if id == 15 {
        AudioCodec::DeviceSpecific
    } else {
        AudioCodec::Unknown(id)
    }
}

impl AudioCodec {
    pub fn from_id(id: u8) -> (r: AudioCodec)
        ensures
            r == audio_codec_of(id),
    {
        match id {
            0 => AudioCodec::LinearPcmPlatformEndian,
            1 => AudioCodec::Adpcm,
            2 => AudioCodec::Mp3,
            3 => AudioCodec::LinearPcmLittleEndian,
            4 => AudioCodec::Nellymoser16k,
            5 => AudioCodec::Nellymoser8k,
            6 => AudioCodec::Nellymoser,
            7 => AudioCodec::G711ALaw,
            8 => AudioCodec::G711MuLaw,
            10 => AudioCodec::Aac,
            11 => AudioCodec::Speex,
            14 => AudioCodec::Mp3_8k,
            15 => AudioCodec::DeviceSpecific,
            _ => AudioCodec::Unknown(id),
        }
    }

    /// Human-readable codec name.
    pub fn label(&self) -> (s: String)
        ensures
            s@ == audio_codec_label(*self),
    {
        match self {
            AudioCodec::LinearPcmPlatformEndian => String::from_str("Linear PCM"),
            AudioCodec::Adpcm => String::from_str("ADPCM"),
            AudioCodec::Mp3 => String::from_str("MP3"),
            AudioCodec::LinearPcmLittleEndian => String::from_str("Linear PCM (LE)"),
            AudioCodec::Nellymoser16k => String::from_str("Nellymoser 16kHz"),
            AudioCodec::Nellymoser8k => String::from_str("Nellymoser 8kHz"),
            AudioCodec::Nellymoser => String::from_str("Nellymoser"),
            AudioCodec::G711ALaw => String::from_str("G.711 A-law"),
            AudioCodec::G711MuLaw => String::from_str("G.711 mu-law"),
            AudioCodec::Aac => String::from_str("AAC"),
            AudioCodec::Speex => String::from_str("Speex"),
            AudioCodec::Mp3_8k => String::from_str("MP3 8kHz"),
            AudioCodec::DeviceSpecific => String::from_str("Device Specific"),
            AudioCodec::Unknown(id) => {
                proof {
                    reveal_strlit("Unknown (");
                    reveal_strlit(")");
                }
                let mut s = String::from_str("Unknown (");
                let d = u64_string(*id as u64);
                s.append(d.as_str());
                s.append(")");
                proof {
                    assert(s@ =~= audio_codec_label(AudioCodec::Unknown(*id)));
                }
                s
            },
        }
    }
}

/// The display name of each codec.
pub open spec fn audio_codec_label(c: AudioCodec) -> Seq<char> {
    match c {
        AudioCodec::LinearPcmPlatformEndian => "Linear PCM"@,
        AudioCodec::Adpcm => "ADPCM"@,
        AudioCodec::Mp3 => "MP3"@,
        AudioCodec::LinearPcmLittleEndian => "Linear PCM (LE)"@,
        AudioCodec::Nellymoser16k => "Nellymoser 16kHz"@,
        AudioCodec::Nellymoser8k => "Nellymoser 8kHz"@,
        AudioCodec::Nellymoser => "Nellymoser"@,
        AudioCodec::G711ALaw => "G.711 A-law"@,
        AudioCodec::G711MuLaw => "G.711 mu-law"@,
        AudioCodec::Aac => "AAC"@,
        AudioCodec::Speex => "Speex"@,
        AudioCodec::Mp3_8k => "MP3 8kHz"@,
        AudioCodec::DeviceSpecific => "Device Specific"@,
        AudioCodec::Unknown(id) => "Unknown ("@ + dec_chars(id as nat) + ")"@,
    }
}

/// The sample rate declared by the FLV header's 2-bit rate index.
pub open spec fn flv_rate_of(idx: u8) -> u32 {
    if idx == 0 {
        5500u32
    } else if idx == 1 {
        11025u32
    } else if idx == 2 {
        22050u32
    } else if idx == 3 {
        44100u32
    } else {
        0u32
    }
}

/// The MPEG-4 sampling-frequency table, indexed 0 through 12.
pub open spec fn asc_rate_of(idx: int) -> u32 {
    if idx == 0 {
        96000u32
    } else if idx == 1 {
        88200u32
    } else if idx == 2 {
        64000u32
    } else if idx == 3 {
        48000u32
    } else if idx == 4 {
        44100u32
    } else if idx == 5 {
        32000u32
    } else if idx == 6 {
        24000u32
    } else if idx == 7 {
        22050u32
    } else if idx == 8 {
        16000u32
    } else if idx == 9 {
        12000u32
    } else if idx == 10 {
        11025u32
    } else if idx == 11 {
        8000u32
    } else {
        7350u32
    }
}

/// The display name of an AAC audio object type.
pub open spec fn aac_profile_chars(aot: u8) -> Seq<char> {
    if aot == 1 {
        "AAC Main"@
    } else if aot == 2 {
        "AAC-LC"@
    } else if aot == 3 {
        "AAC SSR"@
    } else if aot == 4 {
        "AAC LTP"@
    } else if aot == 5 {
        "HE-AAC (SBR)"@
    } else if aot == 6 {
        "AAC Scalable"@
    } else if aot == 23 {
        "ER AAC LD"@
    } else if aot == 29 {
        "HE-AAC v2 (SBR+PS)"@
    } else if aot == 39 {
        "ER AAC ELD"@
    } else {
        "AAC Object Type "@ + dec_chars(aot as nat)
    }
}

/// Render an AAC audio object type's name.
pub fn aac_profile_name(aot: u8) -> (s: String)
    ensures
        s@ == aac_profile_chars(aot),
{
    if aot == 1 {
        String::from_str("AAC Main")
    } else if aot == 2 {
        String::from_str("AAC-LC")
    } else if aot == 3 {
        String::from_str("AAC SSR")
    } else if aot == 4 {
        String::from_str("AAC LTP")
    } else if aot == 5 {
        String::from_str("HE-AAC (SBR)")
    } else if aot == 6 {
        String::from_str("AAC Scalable")
    } else if aot == 23 {
        String::from_str("ER AAC LD")
    } else if aot == 29 {
        String::from_str("HE-AAC v2 (SBR+PS)")
    } else if aot == 39 {
        String::from_str("ER AAC ELD")
    } else {
        proof {
            reveal_strlit("AAC Object Type ");
        }
        let mut s = String::from_str("AAC Object Type ");
        let d = u64_string(aot as u64);
        s.append(d.as_str());
        proof {
            assert(s@ =~= aac_profile_chars(aot));
        }
        s
    }
}

/// Whether one audio payload counts as a frame: an AAC sequence header
/// does not, everything else does.
pub open spec fn audio_frame_delta(data: Seq<u8>) -> int {
    if data.len() == 0 {
        0int
    } else if data[0] / 16 == 10 && data.len() >= 2 {
        if data[1] == 0 || data[1] > 1 {
            0int
        } else {
            1int
        }
    } else {
        1int
    }
}


/// How `process` moves the analyzer: the byte and frame totals advance,
/// the FLV header fields follow the tag's first byte, and an
/// AudioSpecificConfig takes effect when one arrives.
pub open spec fn audio_processed(a: AudioAnalyzer, data: Seq<u8>, r: AudioAnalyzer) -> bool {
    &&& r.total_audio_bytes == sat_add(a.total_audio_bytes as nat, data.len())
    &&& r.total_audio_frames == sat_add(
        a.total_audio_frames as nat,
        audio_frame_delta(data) as nat,
    )
    &&& (data.len() == 0 ==> r == a)
    &&& (data.len() > 0 ==> {
        &&& r.codec == Some(audio_codec_of(data[0] / 16))
        &&& r.sample_rate == Some(flv_rate_of((data[0] / 4) % 4))
        &&& r.sample_size == Some(
            if (data[0] / 2) % 2 == 0 {
                8u8
            } else {
                16u8
            },
        )
        &&& r.channels == Some(
            if data[0] % 2 == 0 {
                1u8
            } else {
                2u8
            },
        )
    })
    &&& ((data.len() >= 4 && data[0] / 16 == 10 && data[1] == 0) ==> {
        let aot = data[2] / 8;
        let freq_idx = (data[2] % 8) * 2 + data[3] / 128;
        let chans = (data[3] / 8) % 16;
        &&& r.asc_received
        &&& r.aac_profile is Some
        &&& r.aac_profile->Some_0@ == aac_profile_chars(aot)
        &&& r.asc_channels == Some(chans)
        &&& (freq_idx < 13 ==> r.asc_sample_rate == Some(asc_rate_of(freq_idx as int)))
        &&& (freq_idx >= 13 ==> r.asc_sample_rate == a.asc_sample_rate)
    })
    &&& (a.asc_received ==> r.asc_received)
}

/// Per-stream audio state: header-declared format fields and the values
/// the AudioSpecificConfig overrides them with.
pub struct AudioAnalyzer {
    pub codec: Option<AudioCodec>,
    pub sample_rate: Option<u32>,
    pub channels: Option<u8>,
    pub sample_size: Option<u8>,
    pub aac_profile: Option<String>,
    pub asc_sample_rate: Option<u32>,
    pub asc_channels: Option<u8>,
    pub asc_received: bool,
    pub total_audio_bytes: u64,
    pub total_audio_frames: u64,
}

impl AudioAnalyzer {
    pub fn new() -> (r: AudioAnalyzer)
        ensures
            r.codec is None,
            r.sample_rate is None,
            r.channels is None,
            r.sample_size is None,
            r.aac_profile is None,
            r.asc_sample_rate is None,
            r.asc_channels is None,
            !r.asc_received,
            r.total_audio_bytes == 0,
            r.total_audio_frames == 0,
    {
        AudioAnalyzer {
            codec: None,
            sample_rate: None,
            channels: None,
            sample_size: None,
            aac_profile: None,
            asc_sample_rate: None,
            asc_channels: None,
            asc_received: false,
            total_audio_bytes: 0,
            total_audio_frames: 0,
        }
    }

    /// The ASC-declared sample rate when one arrived, else the FLV one.
    pub fn effective_sample_rate(&self) -> (r: Option<u32>)
        ensures
            r == if self.asc_sample_rate is Some {
                self.asc_sample_rate
            } else {
                self.sample_rate
            },
    {
        match self.asc_sample_rate {
            Some(v) => Some(v),
            None => self.sample_rate,
        }
    }

    /// The ASC-declared channel count when one arrived, else the FLV one.
    pub fn effective_channels(&self) -> (r: Option<u8>)
        ensures
            r == if self.asc_channels is Some {
                self.asc_channels
            } else {
                self.channels
            },
    {
        match self.asc_channels {
            Some(v) => Some(v),
            None => self.channels,
        }
    }

    /// Absorb one audio-tag payload: refresh the header-declared fields,
    /// count the frame, and parse an AAC sequence header when one arrives.
    pub fn process(&mut self, data: &[u8], timestamp: u32)
        ensures
            audio_processed(*old(self), data@, *final(self)),
    {
        if data.len() == 0 {
            return;
        }
        self.total_audio_bytes = sat_add64(self.total_audio_bytes, data.len() as u64);

        let first_byte = data[0];
        let sound_format = first_byte / 16;
        let sound_rate_idx = (first_byte / 4) % 4;
        let sound_size_flag = (first_byte / 2) % 2;
        let sound_type_flag = first_byte % 2;

        self.codec = Some(AudioCodec::from_id(sound_format));
        self.sample_size = Some(
            if sound_size_flag == 0 {
                8
            } else {
                16
            },
        );
        self.channels = Some(
            if sound_type_flag == 0 {
                1
            } else {
                2
            },
        );
        self.sample_rate = Some(
            if sound_rate_idx == 0 {
                5500
            } else if sound_rate_idx == 1 {
                11025
            } else if sound_rate_idx == 2 {
                22050
            } else {
                44100
            },
        );

        if sound_format == 10 && data.len() >= 2 {
            let aac_packet_type = data[1];
            if aac_packet_type == 0 {
                // AudioSpecificConfig: not an audio frame
                if data.len() >= 4 {
                    self.parse_audio_specific_config(data[2], data[3]);
                }
            } else if aac_packet_type == 1 {
                self.total_audio_frames = sat_add64(self.total_audio_frames, 1);
            }
        } else {
            self.total_audio_frames = sat_add64(self.total_audio_frames, 1);
        }
    }

    /// Decode the first two AudioSpecificConfig bytes: object type,
    /// sampling-frequency index (straddling the byte boundary), and
    /// channel configuration.
    fn parse_audio_specific_config(&mut self, byte0: u8, byte1: u8)
        ensures
            final(self).codec == old(self).codec,
            final(self).sample_rate == old(self).sample_rate,
            final(self).channels == old(self).channels,
            final(self).sample_size == old(self).sample_size,
            final(self).total_audio_bytes == old(self).total_audio_bytes,
            final(self).total_audio_frames == old(self).total_audio_frames,
            final(self).asc_received,
            final(self).aac_profile is Some,
            final(self).aac_profile->Some_0@ == aac_profile_chars(byte0 / 8),
            final(self).asc_channels == Some((byte1 / 8) % 16),
            ({
                let freq_idx = (byte0 % 8) * 2 + byte1 / 128;
                &&& freq_idx < 13 ==> final(self).asc_sample_rate == Some(asc_rate_of(freq_idx))
                &&& freq_idx >= 13 ==> final(self).asc_sample_rate == old(self).asc_sample_rate
            }),
    {
        let audio_object_type = byte0 / 8;
        let sample_freq_index = (byte0 % 8) * 2 + byte1 / 128;
        let channel_config = (byte1 / 8) % 16;

        self.aac_profile = Some(aac_profile_name(audio_object_type));

        if sample_freq_index < 13 {
            self.asc_sample_rate = Some(
                if sample_freq_index == 0 {
                    96000
                } else if sample_freq_index == 1 {
                    88200
                } else if sample_freq_index == 2 {
                    64000
                } else if sample_freq_index == 3 {
                    48000
                } else if sample_freq_index == 4 {
                    44100
                } else if sample_freq_index == 5 {
                    32000
                } else if sample_freq_index == 6 {
                    24000
                } else if sample_freq_index == 7 {
                    22050
                } else if sample_freq_index == 8 {
                    16000
                } else if sample_freq_index == 9 {
                    12000
                } else if sample_freq_index == 10 {
                    11025
                } else if sample_freq_index == 11 {
                    8000
                } else {
                    7350
                },
            );
        }
        self.asc_channels = Some(channel_config);
        self.asc_received = true;
    }
}

} // verus!
