//! FLV video-tag analysis: frame and codec classification, AVC decoder
//! configuration records, and H.264 SPS geometry.

use vstd::prelude::*;
use crate::bitstream::{BitstreamReader, lemma_bits_val_byte, sg_bits, sg_se, sg_ue};
use crate::bytes::{be16, be24, read_be16, read_be24};
use crate::strutil::{dec_chars, sat_add, sat_add64, u64_string};

verus! {

/// FLV video codec ids.
#[derive(Clone, Copy, PartialEq, Eq, Structural, Debug)]
pub enum VideoCodec {
    H263,
    Screen,
    VP6,
    VP6Alpha,
    ScreenV2,
    Avc,
    Unknown(u8),
}

/// The codec selected by the low nibble of an FLV video tag.
pub open spec fn video_codec_of(id: u8) -> VideoCodec {
    if id == 2 {
        VideoCodec::H263
    } else if id == 3 {
        VideoCodec::Screen
    } else if id == 4 {
        VideoCodec::VP6
    } else if id == 5 {
        VideoCodec::VP6Alpha
    } else if id == 6 {
        VideoCodec::ScreenV2
    } else if id == 7 {
        VideoCodec::Avc
    } else {
        VideoCodec::Unknown(id)
    }
}

impl VideoCodec {
    pub fn from_id(id: u8) -> (r: VideoCodec)
        ensures
            r == video_codec_of(id),
    {
        match id {
            2 => VideoCodec::H263,
            3 => VideoCodec::Screen,
            4 => VideoCodec::VP6,
            5 => VideoCodec::VP6Alpha,
            6 => VideoCodec::ScreenV2,
            7 => VideoCodec::Avc,
            _ => VideoCodec::Unknown(id),
        }
    }

    /// Human-readable codec name.
    pub fn label(&self) -> (s: String)
        ensures
            s@ == video_codec_label(*self),
    {
        match self {
            VideoCodec::H263 => String::from_str("Sorenson H.263"),
            VideoCodec::Screen => String::from_str("Screen Video"),
            VideoCodec::VP6 => String::from_str("VP6"),
            VideoCodec::VP6Alpha => String::from_str("VP6 Alpha"),
            VideoCodec::ScreenV2 => String::from_str("Screen Video V2"),
            VideoCodec::Avc => String::from_str("H.264/AVC"),
            VideoCodec::Unknown(id) => {
                proof {
                    reveal_strlit("Unknown (");
                    reveal_strlit(")");
                }
                let mut s = String::from_str("Unknown (");
                let d = u64_string(*id as u64);
                s.append(d.as_str());
                s.append(")");
                proof {
                    assert(s@ =~= video_codec_label(VideoCodec::Unknown(*id)));
                }
                s
            },
        }
    }
}

/// The display name of each codec.
pub open spec fn video_codec_label(c: VideoCodec) -> Seq<char> {
    match c {
        VideoCodec::H263 => "Sorenson H.263"@,
        VideoCodec::Screen => "Screen Video"@,
        VideoCodec::VP6 => "VP6"@,
        VideoCodec::VP6Alpha => "VP6 Alpha"@,
        VideoCodec::ScreenV2 => "Screen Video V2"@,
        VideoCodec::Avc => "H.264/AVC"@,
        VideoCodec::Unknown(id) => "Unknown ("@ + dec_chars(id as nat) + ")"@,
    }
}

/// FLV frame types, from the high nibble of a video tag.
#[derive(Clone, Copy, PartialEq, Eq, Structural, Debug)]
pub enum FrameType {
    Keyframe,
    Inter,
    DisposableInter,
    GeneratedKeyframe,
    VideoInfo,
    Unknown(u8),
}

/// The frame type selected by the high nibble of an FLV video tag.
pub open spec fn frame_type_of(id: u8) -> FrameType {
    if id == 1 {
        FrameType::Keyframe
    } else if id == 2 {
        FrameType::Inter
    } else if id == 3 {
        FrameType::DisposableInter
    } else if id == 4 {
        FrameType::GeneratedKeyframe
    } else if id == 5 {
        FrameType::VideoInfo
    } else {
        FrameType::Unknown(id)
    }
}

/// How one video payload moves the frame counters:
/// (keyframes, inter frames, B-frames, total frames).
pub open spec fn video_frame_deltas(data: Seq<u8>) -> (int, int, int, int) {
    if data.len() == 0 {
        (0int, 0int, 0int, 0int)
    } else {
        let ft = frame_type_of(data[0] / 16);
        let codec = video_codec_of(data[0] % 16);
        if ft is VideoInfo {
            (0int, 0int, 0int, 0int)
        } else if codec is Avc && data.len() >= 5 {
            let pkt = data[1];
            if pkt == 1 {
                let b_frame = be24(data[2], data[3], data[4]) != 0;
                match ft {
                    FrameType::Keyframe => (1int, 0int, 0int, 1int),
                    FrameType::GeneratedKeyframe => (1int, 0int, 0int, 1int),
                    FrameType::Inter => if b_frame {
                        (0int, 0int, 1int, 1int)
                    } else {
                        (0int, 1int, 0int, 1int)
                    },
                    FrameType::DisposableInter => if b_frame {
                        (0int, 0int, 1int, 1int)
                    } else {
                        (0int, 1int, 0int, 1int)
                    },
                    _ => (0int, 0int, 0int, 1int),
                }
            } else {
                (0int, 0int, 0int, 0int)
            }
        } else {
            match ft {
                FrameType::Keyframe => (1int, 0int, 0int, 1int),
                FrameType::GeneratedKeyframe => (1int, 0int, 0int, 1int),
                FrameType::Inter => (0int, 1int, 0int, 1int),
                FrameType::DisposableInter => (0int, 1int, 0int, 1int),
                _ => (0int, 0int, 0int, 1int),
            }
        }
    }
}

/// The frame-class counters always balance against the total: every
/// counted frame lands in exactly one class, and a frame whose type
/// nibble is recognized lands in some class.
pub proof fn lemma_video_counter_balance(data: Seq<u8>)
    ensures
        ({
            let d = video_frame_deltas(data);
            &&& 0 <= d.0 + d.1 + d.2
            &&& d.0 + d.1 + d.2 <= d.3
            &&& d.3 <= 1
            &&& (data.len() > 0 && !(frame_type_of(data[0] / 16) is Unknown)) ==> d.0 + d.1 + d.2
                == d.3
        }),
{
}


/// Counter bookkeeping over any run of `process` calls: when no counter
/// saturates, one call adds exactly its payload's deltas, so the class
/// counters keep summing to the total for frames whose type nibble is
/// recognized, and the byte total keeps summing the payload lengths.
pub proof fn lemma_video_process_preserves_balance(
    pre_key: u64,
    pre_inter: u64,
    pre_b: u64,
    pre_total: u64,
    data: Seq<u8>,
)
    requires
        pre_key + pre_inter + pre_b == pre_total,
        pre_total < u64::MAX,
    ensures
        ({
            let d = video_frame_deltas(data);
            (data.len() > 0 && !(frame_type_of(data[0] / 16) is Unknown)) ==> sat_add(
                pre_key as nat,
                d.0 as nat,
            ) + sat_add(pre_inter as nat, d.1 as nat) + sat_add(pre_b as nat, d.2 as nat)
                == sat_add(pre_total as nat, d.3 as nat)
        }),
{
    lemma_video_counter_balance(data);
}

/// The display name of an H.264 profile idc.
pub open spec fn h264_profile_chars(idc: u8) -> Seq<char> {
    if idc == 66 {
        "Baseline"@
    } else if idc == 77 {
        "Main"@
    } else if idc == 88 {
        "Extended"@
    } else if idc == 100 {
        "High"@
    } else if idc == 110 {
        "High 10"@
    } else if idc == 122 {
        "High 4:2:2"@
    } else if idc == 244 {
        "High 4:4:4 Predictive"@
    } else if idc == 44 {
        "CAVLC 4:4:4 Intra"@
    } else if idc == 83 {
        "Scalable Baseline"@
    } else if idc == 86 {
        "Scalable High"@
    } else if idc == 118 {
        "Multiview High"@
    } else if idc == 128 {
        "Stereo High"@
    } else if idc == 138 {
        "Multiview Depth High"@
    } else {
        "Profile "@ + dec_chars(idc as nat)
    }
}

/// Human-readable H.264 profile name.
pub fn h264_profile_name(idc: u8) -> (s: String)
    ensures
        s@ == h264_profile_chars(idc),
{
    if idc == 66 {
        String::from_str("Baseline")
    } else if idc == 77 {
        String::from_str("Main")
    } else if idc == 88 {
        String::from_str("Extended")
    } else if idc == 100 {
        String::from_str("High")
    } else if idc == 110 {
        String::from_str("High 10")
    } else if idc == 122 {
        String::from_str("High 4:2:2")
    } else if idc == 244 {
        String::from_str("High 4:4:4 Predictive")
    } else if idc == 44 {
        String::from_str("CAVLC 4:4:4 Intra")
    } else if idc == 83 {
        String::from_str("Scalable Baseline")
    } else if idc == 86 {
        String::from_str("Scalable High")
    } else if idc == 118 {
        String::from_str("Multiview High")
    } else if idc == 128 {
        String::from_str("Stereo High")
    } else if idc == 138 {
        String::from_str("Multiview Depth High")
    } else {
        proof {
            reveal_strlit("Profile ");
        }
        let mut s = String::from_str("Profile ");
        let d = u64_string(idc as u64);
        s.append(d.as_str());
        proof {
            assert(s@ =~= h264_profile_chars(idc));
        }
        s
    }
}

/// The `major.minor` rendering of a level idc (for example 31 as `3.1`).
pub open spec fn level_chars(idc: u8) -> Seq<char> {
    dec_chars((idc / 10) as nat) + seq!['.'] + dec_chars((idc % 10) as nat)
}

/// Render a level idc as `major.minor`.
pub fn level_name(idc: u8) -> (s: String)
    ensures
        s@ == level_chars(idc),
{
    let mut s = u64_string((idc / 10) as u64);
    proof {
        reveal_strlit(".");
    }
    s.append(".");
    let d = u64_string((idc % 10) as u64);
    s.append(d.as_str());
    proof {
        assert(s@ =~= level_chars(idc));
    }
    s
}


// ─── The SPS bitstream grammar, as a mathematical walk ───
//
// Each function consumes fields from bit position `pos` of the
// unescaped SPS (with its NAL header byte removed) and yields the
// position after them. `None` marks a read the executable parser would
// only satisfy with a truncated or capped value; geometry is pinned
// exactly on the `Some` domain.

/// A profile idc that carries the chroma subclause.
pub open spec fn sps_high_profile(p: nat) -> bool {
    ||| p == 100
    ||| p == 110
    ||| p == 122
    ||| p == 244
    ||| p == 44
    ||| p == 83
    ||| p == 86
    ||| p == 118
    ||| p == 128
    ||| p == 138
    ||| p == 139
    ||| p == 134
    ||| p == 135
}

/// Rust's truncated remainder by 256, as the scaling-list recurrence
/// computes it on a signed value.
pub open spec fn rem256(a: int) -> int {
    if a >= 0 {
        a % 256
    } else {
        -((-a) % 256)
    }
}

/// One scaling list: deltas are consumed until the running scale hits
/// zero or `size` entries are done.
pub open spec fn sg_scaling_list(
    d: Seq<u8>,
    pos: int,
    size: nat,
    last: int,
    next: int,
) -> Option<int>
    decreases size,
{
    if size == 0 {
        Some(pos)
    } else if next != 0 {
        match sg_se(d, pos) {
            None => None,
            Some((delta, p2)) => {
                let n2 = rem256(last + delta + 256);
                let l2 = if n2 != 0 {
                    n2
                } else {
                    last
                };
                sg_scaling_list(d, p2, (size - 1) as nat, l2, n2)
            },
        }
    } else {
        Some(pos)
    }
}

/// The run of `total` scaling lists, each present behind a 1-bit flag;
/// the first six have 16 entries, the rest 64.
pub open spec fn sg_scaling_lists(d: Seq<u8>, pos: int, li: nat, total: nat) -> Option<int>
    decreases total - li,
        when li <= total
{
    if li >= total {
        Some(pos)
    } else {
        match sg_bits(d, pos, 1) {
            None => None,
            Some((present, p1)) => {
                if present != 0 {
                    let size: nat = if li < 6 {
                        16
                    } else {
                        64
                    };
                    match sg_scaling_list(d, p1, size, 8, 8) {
                        None => None,
                        Some(p2) => sg_scaling_lists(d, p2, (li + 1) as nat, total),
                    }
                } else {
                    sg_scaling_lists(d, p1, (li + 1) as nat, total)
                }
            },
        }
    }
}

/// The first three header bytes and the sps id: the profile idc and the
/// position after the id.
pub open spec fn sg_after_header(d: Seq<u8>) -> Option<(nat, int)> {
    match sg_bits(d, 0, 8) {
        None => None,
        Some((profile, p1)) => match sg_bits(d, p1, 8) {
            None => None,
            Some((_c, p2)) => match sg_bits(d, p2, 8) {
                None => None,
                Some((_l, p3)) => match sg_ue(d, p3) {
                    None => None,
                    Some((_id, p4)) => Some((profile, p4)),
                },
            },
        },
    }
}

/// The high-profile chroma subclause, scaling lists included.
pub open spec fn sg_chroma_subclause(d: Seq<u8>, pos: int) -> Option<int> {
    match sg_ue(d, pos) {
        None => None,
        Some((chroma, p1)) => {
            let p2o: Option<int> = if chroma == 3 {
                match sg_bits(d, p1, 1) {
                    None => None,
                    Some((_s, p)) => Some(p),
                }
            } else {
                Some(p1)
            };
            match p2o {
                None => None,
                Some(p2) => match sg_ue(d, p2) {
                    None => None,
                    Some((_bdl, p3)) => match sg_ue(d, p3) {
                        None => None,
                        Some((_bdc, p4)) => match sg_bits(d, p4, 1) {
                            None => None,
                            Some((_qp, p5)) => match sg_bits(d, p5, 1) {
                                None => None,
                                Some((sm, p6)) => {
                                    if sm != 0 {
                                        sg_scaling_lists(d, p6, 0, if chroma != 3 {
                                            8nat
                                        } else {
                                            12nat
                                        })
                                    } else {
                                        Some(p6)
                                    }
                                },
                            },
                        },
                    },
                },
            }
        },
    }
}

/// The run of signed offsets inside picture-order-count type 1.
pub open spec fn sg_poc_offsets(d: Seq<u8>, pos: int, k: nat) -> Option<int>
    decreases k,
{
    if k == 0 {
        Some(pos)
    } else {
        match sg_se(d, pos) {
            None => None,
            Some((_o, p)) => sg_poc_offsets(d, p, (k - 1) as nat),
        }
    }
}

/// From the frame-number field through the gaps flag: the fields between
/// the chroma subclause and the picture geometry.
pub open spec fn sg_mid_fields(d: Seq<u8>, pos: int) -> Option<int> {
    match sg_ue(d, pos) {
        None => None,
        Some((_l2mfn, p1)) => match sg_ue(d, p1) {
            None => None,
            Some((pt, p2)) => {
                let p3o: Option<int> = if pt == 0 {
                    match sg_ue(d, p2) {
                        None => None,
                        Some((_lsb, p)) => Some(p),
                    }
                } else if pt == 1 {
                    match sg_bits(d, p2, 1) {
                        None => None,
                        Some((_z, q1)) => match sg_se(d, q1) {
                            None => None,
                            Some((_onr, q2)) => match sg_se(d, q2) {
                                None => None,
                                Some((_oft, q3)) => match sg_ue(d, q3) {
                                    None => None,
                                    Some((n, q4)) => sg_poc_offsets(d, q4, n),
                                },
                            },
                        },
                    }
                } else {
                    Some(p2)
                };
                match p3o {
                    None => None,
                    Some(p3) => match sg_ue(d, p3) {
                        None => None,
                        Some((_mrf, p4)) => match sg_bits(d, p4, 1) {
                            None => None,
                            Some((_g, p5)) => Some(p5),
                        },
                    },
                }
            },
        },
    }
}

/// The geometry fields: widths and heights in macroblock units, the
/// frame-coding flag, and the four crop offsets.
pub open spec fn sg_geometry_fields(d: Seq<u8>, pos: int) -> Option<
    (nat, nat, nat, nat, nat, nat, nat),
> {
    match sg_ue(d, pos) {
        None => None,
        Some((wraw, p1)) => match sg_ue(d, p1) {
            None => None,
            Some((hraw, p2)) => match sg_bits(d, p2, 1) {
                None => None,
                Some((fmo, p3)) => {
                    let p4o: Option<int> = if fmo == 0 {
                        match sg_bits(d, p3, 1) {
                            None => None,
                            Some((_mb, p)) => Some(p),
                        }
                    } else {
                        Some(p3)
                    };
                    match p4o {
                        None => None,
                        Some(p4) => match sg_bits(d, p4, 1) {
                            None => None,
                            Some((_d8, p5)) => match sg_bits(d, p5, 1) {
                                None => None,
                                Some((crop, p6)) => {
                                    if crop != 0 {
                                        match sg_ue(d, p6) {
                                            None => None,
                                            Some((cl, q1)) => match sg_ue(d, q1) {
                                                None => None,
                                                Some((cr, q2)) => match sg_ue(d, q2) {
                                                    None => None,
                                                    Some((ct, q3)) => match sg_ue(d, q3) {
                                                        None => None,
                                                        Some((cb, _q4)) => Some(
                                                            (wraw, hraw, fmo, cl, cr, ct, cb),
                                                        ),
                                                    },
                                                },
                                            },
                                        }
                                    } else {
                                        Some((wraw, hraw, fmo, 0nat, 0nat, 0nat, 0nat))
                                    }
                                },
                            },
                        },
                    }
                },
            },
        },
    }
}

/// The frame size the geometry fields denote: macroblocks times sixteen,
/// doubled vertically for field coding, less the crop margins in 4:2:0
/// sample units; truncated to 32 bits as the analyzer stores it.
pub open spec fn sps_dimensions(
    wraw: nat,
    hraw: nat,
    fmo: nat,
    cl: nat,
    cr: nat,
    ct: nat,
    cb: nat,
) -> Option<(u32, u32)> {
    if wraw >= 0x1_0000_0000 || hraw >= 0x1_0000_0000 {
        None
    } else {
        let hf = (2 - fmo) as nat;
        let width = (wraw + 1) * 16;
        let height = (hraw + 1) * 16 * hf;
        let cx = 2 * (cl + cr);
        let cy = (2 * hf) * (ct + cb);
        if cx > width || cy > height {
            None
        } else {
            Some(
                (
                    (((width - cx) as nat % 0x1_0000_0000) as u32),
                    (((height - cy) as nat % 0x1_0000_0000) as u32),
                ),
            )
        }
    }
}

/// The width and height an SPS declares, walked over its unescaped bits
/// after the NAL header byte; `None` where the executable parser falls
/// back to tolerant partial reads.
pub open spec fn sps_geometry(d: Seq<u8>) -> Option<(u32, u32)> {
    match sg_after_header(d) {
        None => None,
        Some((profile, p4)) => {
            let p5o: Option<int> = if sps_high_profile(profile) {
                sg_chroma_subclause(d, p4)
            } else {
                Some(p4)
            };
            match p5o {
                None => None,
                Some(p5) => match sg_mid_fields(d, p5) {
                    None => None,
                    Some(p6) => match sg_geometry_fields(d, p6) {
                        None => None,
                        Some((wraw, hraw, fmo, cl, cr, ct, cb)) => sps_dimensions(
                            wraw,
                            hraw,
                            fmo,
                            cl,
                            cr,
                            ct,
                            cb,
                        ),
                    },
                },
            }
        },
    }
}

/// A NAL unit with emulation-prevention bytes removed: every `00 00 03`
/// collapses to `00 00`.
pub open spec fn unescape(data: Seq<u8>) -> Seq<u8>
    decreases data.len(),
{
    if data.len() >= 3 && data[0] == 0 && data[1] == 0 && data[2] == 3 {
        seq![0u8, 0u8] + unescape(data.skip(3))
    } else if data.len() == 0 {
        Seq::<u8>::empty()
    } else {
        seq![data[0]] + unescape(data.skip(1))
    }
}

/// Remove emulation-prevention bytes from a NAL unit.
pub fn remove_emulation_prevention(data: &[u8]) -> (r: Vec<u8>)
    ensures
        r@ == unescape(data@),
{
    let mut rbsp: Vec<u8> = Vec::new();
    let mut i: usize = 0;
    proof {
        assert(data@.skip(0int) =~= data@);
    }
    while i < data.len()
        invariant
            i <= data@.len(),
            rbsp@ + unescape(data@.skip(i as int)) == unescape(data@),
        decreases data@.len() - i,
    {
        if data.len() - i > 2 && data[i] == 0 && data[i + 1] == 0 && data[i + 2] == 3 {
            rbsp.push(0);
            rbsp.push(0);
            proof {
                assert(data@.skip(i as int).skip(3) =~= data@.skip(i + 3));
                assert(rbsp@ + unescape(data@.skip(i + 3)) =~= unescape(data@));
            }
            i = i + 3;
        } else {
            rbsp.push(data[i]);
            proof {
                assert(data@.skip(i as int).skip(1) =~= data@.skip(i + 1));
                assert(rbsp@ + unescape(data@.skip(i + 1)) =~= unescape(data@));
            }
            i = i + 1;
        }
    }
    proof {
        assert(data@.skip(data@.len() as int) =~= Seq::<u8>::empty());
        assert(rbsp@ =~= unescape(data@));
    }
    rbsp
}

/// Skip one scaling list of `size` entries, following the delta-scale
/// recurrence; when the specification walk decodes cleanly, the reader
/// lands exactly where it says.
fn skip_scaling_list(reader: &mut BitstreamReader, size: usize)
    requires
        old(reader).wf(),
    ensures
        final(reader).wf(),
        final(reader).bytes() == old(reader).bytes(),
        final(reader).pos() >= old(reader).pos(),
        final(reader).pos() <= old(reader).total_bits(),
        ({
            let g = sg_scaling_list(old(reader).bytes(), old(reader).pos(), size as nat, 8, 8);
            g is Some ==> final(reader).pos() == g->Some_0
        }),
{
    let ghost d = reader.bytes();
    let ghost entry = reader.pos();
    let ghost g = sg_scaling_list(d, entry, size as nat, 8, 8);
    proof {
        reader.lemma_wf_pos();
    }
    let mut last_scale: i64 = 8;
    let mut next_scale: i64 = 8;
    let mut j: usize = 0;
    while j < size
        invariant
            reader.wf(),
            reader.bytes() == d,
            old(reader).bytes() == d,
            old(reader).pos() == entry,
            old(reader).total_bits() == d.len() * 8int,
            reader.pos() >= entry,
            reader.pos() <= d.len() * 8,
            j <= size,
            g == sg_scaling_list(d, entry, size as nat, 8, 8),
            -256 < last_scale < 256,
            -256 < next_scale < 256,
            g is Some ==> sg_scaling_list(
                d,
                reader.pos(),
                (size - j) as nat,
                last_scale as int,
                next_scale as int,
            ) == g,
        decreases size - j,
    {
        if next_scale != 0 {
            let ghost before = reader.pos();
            let delta = reader.read_signed_exp_golomb();
            proof {
                if g is Some {
                    // the walk is alive here, so this read decodes cleanly
                    if sg_se(d, before) is None {
                        assert(sg_scaling_list(
                            d,
                            before,
                            (size - j) as nat,
                            last_scale as int,
                            next_scale as int,
                        ) is None);
                        assert(false);
                    }
                }
            }
            let sum: i64 = last_scale + delta + 256;
            let m: i64 = if sum >= 0 {
                sum % 256
            } else {
                -((-sum) % 256)
            };
            proof {
                assert(m as int == rem256(last_scale + delta + 256));
            }
            next_scale = m;
        }
        if next_scale != 0 {
            last_scale = next_scale;
        }
        j = j + 1;
    }
    proof {
        if g is Some {
            assert(sg_scaling_list(
                d,
                reader.pos(),
                0,
                last_scale as int,
                next_scale as int,
            ) == Some(reader.pos()));
        }
    }
}


/// What an AVCDecoderConfigurationRecord leaves behind: the NAL length
/// size and profile/level from the record, and — when it carries exactly
/// one SPS entry in bounds — that SPS's profile, level and geometry.
pub open spec fn avc_config_applied(cfg: Seq<u8>, r: VideoAnalyzer) -> bool {
    &&& (cfg.len() >= 6 ==> {
        &&& r.nalu_length_size == cfg[4] % 4 + 1
        &&& r.profile is Some
        &&& r.level is Some
    })
    &&& ((cfg.len() >= 8 && cfg[5] % 32 == 1 && 8 + be16(cfg[6], cfg[7]) <= cfg.len()) ==> {
        let sps = cfg.subrange(8, 8 + be16(cfg[6], cfg[7]));
        let rbsp = unescape(sps);
        &&& r.avc_config_received
        &&& (rbsp.len() >= 2 ==> r.profile is Some && r.profile->Some_0@ == h264_profile_chars(
            rbsp[1],
        ))
        &&& (rbsp.len() >= 4 ==> r.level is Some && r.level->Some_0@ == level_chars(rbsp[3]))
        &&& ((rbsp.len() >= 2 && sps_geometry(rbsp.skip(1)) is Some) ==> r.width == Some(
            sps_geometry(rbsp.skip(1))->Some_0.0,
        ) && r.height == Some(sps_geometry(rbsp.skip(1))->Some_0.1))
    })
}

/// How `process` moves the analyzer: counters advance by the payload's
/// frame deltas, the byte total by its length, and the codec follows the
/// tag's low nibble.
pub open spec fn video_processed(v: VideoAnalyzer, data: Seq<u8>, r: VideoAnalyzer) -> bool {
    let d = video_frame_deltas(data);
    &&& r.keyframe_count == sat_add(v.keyframe_count as nat, d.0 as nat)
    &&& r.inter_frame_count == sat_add(v.inter_frame_count as nat, d.1 as nat)
    &&& r.b_frame_count == sat_add(v.b_frame_count as nat, d.2 as nat)
    &&& r.total_video_frames == sat_add(v.total_video_frames as nat, d.3 as nat)
    &&& r.total_video_bytes == sat_add(v.total_video_bytes as nat, data.len())
    &&& (data.len() == 0 ==> r == v)
    &&& (data.len() > 0 ==> r.codec == Some(video_codec_of(data[0] % 16)))
    &&& (v.avc_config_received ==> r.avc_config_received)
    &&& ((data.len() > 5 && data[0] % 16 == 7 && data[0] / 16 != 5 && data[1] == 0)
        ==> avc_config_applied(data.skip(5), r))
}


/// Skip the high-profile chroma subclause; when the specification walk
/// decodes cleanly the reader lands exactly where it says.
#[verifier::rlimit(100)]
#[verifier::spinoff_prover]
fn skip_chroma_subclause(reader: &mut BitstreamReader)
    requires
        old(reader).wf(),
    ensures
        final(reader).wf(),
        final(reader).bytes() == old(reader).bytes(),
        final(reader).pos() >= old(reader).pos(),
        ({
            let g = sg_chroma_subclause(old(reader).bytes(), old(reader).pos());
            g is Some ==> final(reader).pos() == g->Some_0
        }),
{
    let ghost d = reader.bytes();
    let ghost entry = reader.pos();
    let ghost g = sg_chroma_subclause(d, entry);
    let chroma_format_idc = reader.read_exp_golomb();
    if chroma_format_idc == 3 {
        let _separate_colour_plane = reader.read_bits(1);
    }
    let _bit_depth_luma = reader.read_exp_golomb();
    let _bit_depth_chroma = reader.read_exp_golomb();
    let _qpprime_y_zero = reader.read_bits(1);
    let scaling_matrix_present = reader.read_bits(1);
    if scaling_matrix_present != 0 {
        let count: usize = if chroma_format_idc != 3 {
            8
        } else {
            12
        };
        let ghost scl_entry = reader.pos();
        let ghost scl_target = sg_scaling_lists(d, scl_entry, 0, count as nat);
        let mut li: usize = 0;
        while li < count
            invariant
                reader.wf(),
                reader.bytes() == d,
                li <= count,
                scl_target == sg_scaling_lists(d, scl_entry, 0, count as nat),
                reader.pos() >= scl_entry,
                scl_target is Some ==> sg_scaling_lists(d, reader.pos(), li as nat, count as nat)
                    == scl_target,
            decreases count - li,
        {
            let ghost before = reader.pos();
            let present = reader.read_bits(1);
            proof {
                if scl_target is Some {
                    if sg_bits(d, before, 1) is None {
                        assert(sg_scaling_lists(d, before, li as nat, count as nat) is None);
                        assert(false);
                    }
                }
            }
            if present != 0 {
                let size: usize = if li < 6 {
                    16
                } else {
                    64
                };
                proof {
                    if scl_target is Some {
                        if sg_scaling_list(d, reader.pos(), size as nat, 8, 8) is None {
                            assert(sg_scaling_lists(d, before, li as nat, count as nat) is None);
                            assert(false);
                        }
                    }
                }
                skip_scaling_list(reader, size);
            }
            li = li + 1;
        }
        proof {
            if scl_target is Some {
                assert(sg_scaling_lists(d, reader.pos(), count as nat, count as nat) == Some(
                    reader.pos(),
                ));
            }
        }
    }
    proof {
        if g is Some {
            assert(final(reader).pos() == g->Some_0);
        }
    }
}

/// Skip the fields between the chroma subclause and the geometry; when
/// the specification walk decodes cleanly the reader lands where it says.
#[verifier::rlimit(100)]
#[verifier::spinoff_prover]
fn skip_mid_fields(reader: &mut BitstreamReader)
    requires
        old(reader).wf(),
    ensures
        final(reader).wf(),
        final(reader).bytes() == old(reader).bytes(),
        final(reader).pos() >= old(reader).pos(),
        ({
            let g = sg_mid_fields(old(reader).bytes(), old(reader).pos());
            g is Some ==> final(reader).pos() == g->Some_0
        }),
{
    let ghost d = reader.bytes();
    let ghost entry = reader.pos();
    let ghost g = sg_mid_fields(d, entry);
    let _log2_max_frame_num = reader.read_exp_golomb();
    let poc_type = reader.read_exp_golomb();
    if poc_type == 0 {
        let _log2_max_poc_lsb = reader.read_exp_golomb();
    } else if poc_type == 1 {
        let _delta_pic_order_always_zero = reader.read_bits(1);
        let _offset_for_non_ref = reader.read_signed_exp_golomb();
        let _offset_for_top = reader.read_signed_exp_golomb();
        let num_ref_frames_in_poc = reader.read_exp_golomb();
        let ghost poc_entry = reader.pos();
        let ghost poc_target = sg_poc_offsets(d, poc_entry, num_ref_frames_in_poc as nat);
        let mut ri: u64 = 0;
        while ri < num_ref_frames_in_poc
            invariant
                reader.wf(),
                reader.bytes() == d,
                ri <= num_ref_frames_in_poc,
                poc_target == sg_poc_offsets(d, poc_entry, num_ref_frames_in_poc as nat),
                reader.pos() >= poc_entry,
                poc_target is Some ==> sg_poc_offsets(
                    d,
                    reader.pos(),
                    (num_ref_frames_in_poc - ri) as nat,
                ) == poc_target,
            decreases num_ref_frames_in_poc - ri,
        {
            let ghost before = reader.pos();
            let _offset = reader.read_signed_exp_golomb();
            proof {
                if poc_target is Some {
                    if sg_se(d, before) is None {
                        assert(sg_poc_offsets(d, before, (num_ref_frames_in_poc - ri) as nat)
                            is None);
                        assert(false);
                    }
                }
            }
            ri = ri + 1;
        }
        proof {
            if poc_target is Some {
                assert(sg_poc_offsets(d, reader.pos(), 0) == Some(reader.pos()));
            }
        }
    }
    let _max_ref_frames = reader.read_exp_golomb();
    let _gaps = reader.read_bits(1);
    proof {
        if g is Some {
            assert(final(reader).pos() == g->Some_0);
        }
    }
}

/// Read the geometry fields; when the specification walk decodes cleanly
/// the values and final position are exactly its.
#[verifier::rlimit(100)]
#[verifier::spinoff_prover]
fn read_geometry_fields(reader: &mut BitstreamReader) -> (r: (u64, u64, u64, u64, u64, u64, u64))
    requires
        old(reader).wf(),
    ensures
        final(reader).wf(),
        final(reader).bytes() == old(reader).bytes(),
        final(reader).pos() >= old(reader).pos(),
        r.2 < 2,
        r.0 <= 0x1_FFFF_FFFE && r.1 <= 0x1_FFFF_FFFE && r.3 <= 0x1_FFFF_FFFE && r.4
            <= 0x1_FFFF_FFFE && r.5 <= 0x1_FFFF_FFFE && r.6 <= 0x1_FFFF_FFFE,
        ({
            let g = sg_geometry_fields(old(reader).bytes(), old(reader).pos());
            g is Some ==> g->Some_0 == (
                r.0 as nat,
                r.1 as nat,
                r.2 as nat,
                r.3 as nat,
                r.4 as nat,
                r.5 as nat,
                r.6 as nat,
            )
        }),
{
    let ghost d = reader.bytes();
    let ghost entry = reader.pos();
    let ghost g = sg_geometry_fields(d, entry);
    let pic_width_raw = reader.read_exp_golomb();
    let pic_height_raw = reader.read_exp_golomb();
    let frame_mbs_only = reader.read_bits(1);
    proof {
        vstd::arithmetic::power2::lemma2_to64();
        assert(frame_mbs_only < 2);
    }
    if frame_mbs_only == 0 {
        let _mb_adaptive = reader.read_bits(1);
    }
    let _direct_8x8 = reader.read_bits(1);
    let cropping = reader.read_bits(1);
    let crop_left: u64;
    let crop_right: u64;
    let crop_top: u64;
    let crop_bottom: u64;
    if cropping != 0 {
        crop_left = reader.read_exp_golomb();
        crop_right = reader.read_exp_golomb();
        crop_top = reader.read_exp_golomb();
        crop_bottom = reader.read_exp_golomb();
    } else {
        crop_left = 0;
        crop_right = 0;
        crop_top = 0;
        crop_bottom = 0;
    }
    (pic_width_raw, pic_height_raw, frame_mbs_only, crop_left, crop_right, crop_top, crop_bottom)
}

/// Per-stream video state: codec, geometry and profile from the newest
/// sequence header, and monotonically growing frame counters.
pub struct VideoAnalyzer {
    pub codec: Option<VideoCodec>,
    pub width: Option<u32>,
    pub height: Option<u32>,
    pub profile: Option<String>,
    pub level: Option<String>,
    pub avc_config_received: bool,
    pub nalu_length_size: u8,
    pub keyframe_count: u64,
    pub inter_frame_count: u64,
    pub b_frame_count: u64,
    pub total_video_frames: u64,
    pub total_video_bytes: u64,
}

impl VideoAnalyzer {
    pub fn new() -> (r: VideoAnalyzer)
        ensures
            r.codec is None,
            r.width is None,
            r.height is None,
            r.profile is None,
            r.level is None,
            !r.avc_config_received,
            r.keyframe_count == 0,
            r.inter_frame_count == 0,
            r.b_frame_count == 0,
            r.total_video_frames == 0,
            r.total_video_bytes == 0,
    {
        VideoAnalyzer {
            codec: None,
            width: None,
            height: None,
            profile: None,
            level: None,
            avc_config_received: false,
            nalu_length_size: 4,
            keyframe_count: 0,
            inter_frame_count: 0,
            b_frame_count: 0,
            total_video_frames: 0,
            total_video_bytes: 0,
        }
    }

    /// Absorb one video-tag payload: count the carried frame and, for an
    /// AVC sequence header, refresh codec geometry and profile.
    pub fn process(&mut self, data: &[u8], timestamp: u32)
        ensures
            video_processed(*old(self), data@, *final(self)),
    {
        if data.len() == 0 {
            return;
        }
        self.total_video_bytes = sat_add64(self.total_video_bytes, data.len() as u64);

        let first_byte = data[0];
        let frame_type_id = first_byte / 16;
        let codec_id = first_byte % 16;

        let codec = VideoCodec::from_id(codec_id);
        self.codec = Some(codec);

        let is_video_info = frame_type_id == 5;
        if is_video_info {
            return;
        }
        let is_key = frame_type_id == 1 || frame_type_id == 4;
        let is_inter = frame_type_id == 2 || frame_type_id == 3;
        let known = is_key || is_inter;

        if codec_id == 7 && data.len() >= 5 {
            let avc_packet_type = data[1];
            let composition_time = read_be24(data[2], data[3], data[4]);
            if avc_packet_type == 0 {
                // sequence header: parse the configuration record
                if data.len() > 5 {
                    let cfg = &data[5..data.len()];
                    self.parse_avc_sequence_header(cfg);
                }
            } else if avc_packet_type == 1 {
                self.total_video_frames = sat_add64(self.total_video_frames, 1);
                if is_key {
                    self.keyframe_count = sat_add64(self.keyframe_count, 1);
                } else if is_inter {
                    if composition_time != 0 {
                        self.b_frame_count = sat_add64(self.b_frame_count, 1);
                    } else {
                        self.inter_frame_count = sat_add64(self.inter_frame_count, 1);
                    }
                }
            }
        } else {
            self.total_video_frames = sat_add64(self.total_video_frames, 1);
            if is_key {
                self.keyframe_count = sat_add64(self.keyframe_count, 1);
            } else if is_inter {
                self.inter_frame_count = sat_add64(self.inter_frame_count, 1);
            }
        }
    }

    /// Parse an AVCDecoderConfigurationRecord: profile and level from the
    /// record, geometry from its first SPS entries. Counters never move.
    #[verifier::rlimit(100)]
    #[verifier::spinoff_prover]
    fn parse_avc_sequence_header(&mut self, data: &[u8])
        ensures
            final(self).keyframe_count == old(self).keyframe_count,
            final(self).inter_frame_count == old(self).inter_frame_count,
            final(self).b_frame_count == old(self).b_frame_count,
            final(self).total_video_frames == old(self).total_video_frames,
            final(self).total_video_bytes == old(self).total_video_bytes,
            final(self).codec == old(self).codec,
            old(self).avc_config_received ==> final(self).avc_config_received,
            data@.len() < 6 ==> *final(self) == *old(self),
            data@.len() >= 6 ==> final(self).profile is Some && final(self).level is Some,
            avc_config_applied(data@, *final(self)),
    {
        if data.len() < 6 {
            return;
        }
        let ghost cfg = data@;
        let ghost single = cfg.len() >= 8 && cfg[5] % 32 == 1 && 8 + be16(cfg[6], cfg[7])
            <= cfg.len();
        let profile_idc = data[1];
        let level_idc = data[3];
        self.nalu_length_size = data[4] % 4 + 1;
        let num_sps = (data[5] % 32) as usize;

        self.profile = Some(h264_profile_name(profile_idc));
        self.level = Some(level_name(level_idc));

        let mut offset: usize = 6;
        let mut k: usize = 0;
        while k < num_sps
            invariant
                cfg == data@,
                cfg.len() >= 6,
                single == (cfg.len() >= 8 && cfg[5] % 32 == 1 && 8 + be16(cfg[6], cfg[7])
                    <= cfg.len()),
                single ==> num_sps == 1,
                k <= num_sps,
                single && k == 0 ==> offset == 6,
                old(self).avc_config_received ==> self.avc_config_received,
                self.keyframe_count == old(self).keyframe_count,
                self.inter_frame_count == old(self).inter_frame_count,
                self.b_frame_count == old(self).b_frame_count,
                self.total_video_frames == old(self).total_video_frames,
                self.total_video_bytes == old(self).total_video_bytes,
                self.codec == old(self).codec,
                self.nalu_length_size == cfg[4] % 4 + 1,
                self.profile is Some,
                self.level is Some,
                offset <= data@.len(),
                single && k == 1 ==> ({
                    let sps = cfg.subrange(8, 8 + be16(cfg[6], cfg[7]));
                    let rbsp = unescape(sps);
                    &&& (rbsp.len() >= 2 ==> self.profile is Some && self.profile->Some_0@
                        == h264_profile_chars(rbsp[1]))
                    &&& (rbsp.len() >= 4 ==> self.level is Some && self.level->Some_0@
                        == level_chars(rbsp[3]))
                    &&& ((rbsp.len() >= 2 && sps_geometry(rbsp.skip(1)) is Some) ==> self.width
                        == Some(sps_geometry(rbsp.skip(1))->Some_0.0) && self.height == Some(
                        sps_geometry(rbsp.skip(1))->Some_0.1,
                    ))
                }),
            decreases num_sps - k,
        {
            if data.len() - offset < 2 {
                proof {
                    assert(!single);
                }
                return;
            }
            let sps_len = read_be16(data[offset], data[offset + 1]) as usize;
            offset = offset + 2;
            if sps_len > data.len() - offset {
                proof {
                    assert(!single);
                }
                return;
            }
            let sps_nalu = &data[offset..offset + sps_len];
            proof {
                if single {
                    assert(sps_nalu@ =~= cfg.subrange(8, 8 + be16(cfg[6], cfg[7])));
                }
            }
            self.parse_sps(sps_nalu);
            offset = offset + sps_len;
            k = k + 1;
        }
        self.avc_config_received = true;
    }

    /// Apply the geometry formula to the fields an SPS carried: exactly
    /// `sps_dimensions`, leaving the size untouched where it is undefined.
    #[verifier::rlimit(100)]
    #[verifier::spinoff_prover]
    fn apply_dimensions(
        &mut self,
        pic_width_raw: u64,
        pic_height_raw: u64,
        frame_mbs_only: u64,
        crop_left: u64,
        crop_right: u64,
        crop_top: u64,
        crop_bottom: u64,
    )
        requires
            frame_mbs_only < 2,
            pic_width_raw <= 0x1_FFFF_FFFE,
            pic_height_raw <= 0x1_FFFF_FFFE,
            crop_left <= 0x1_FFFF_FFFE,
            crop_right <= 0x1_FFFF_FFFE,
            crop_top <= 0x1_FFFF_FFFE,
            crop_bottom <= 0x1_FFFF_FFFE,
        ensures
            *final(self) == (VideoAnalyzer {
                width: final(self).width,
                height: final(self).height,
                ..*old(self)
            }),
            ({
                let dim = sps_dimensions(
                    pic_width_raw as nat,
                    pic_height_raw as nat,
                    frame_mbs_only as nat,
                    crop_left as nat,
                    crop_right as nat,
                    crop_top as nat,
                    crop_bottom as nat,
                );
                match dim {
                    Some(p) => final(self).width == Some(p.0) && final(self).height == Some(p.1),
                    None => final(self).width == old(self).width && final(self).height == old(
                        self,
                    ).height,
                }
            }),
    {
        // geometry in whole macroblocks, then cropping in sample pairs
        if pic_width_raw >= 0x1_0000_0000 || pic_height_raw >= 0x1_0000_0000 {
            return;
        }
        let pic_width_mbs = pic_width_raw + 1;
        let pic_height_map_units = pic_height_raw + 1;
        let height_factor: u64 = 2 - frame_mbs_only;
        let width: u64 = pic_width_mbs * 16;
        let height_full: u64 = pic_height_map_units * 16;
        proof {
            assert(height_full * height_factor <= 0x20_0000_0000_0000) by (nonlinear_arith)
                requires
                    height_full <= 0x10_0000_0000u64,
                    height_factor <= 2,
            ;
        }
        let height: u64 = height_full * height_factor;
        let crop_unit_x: u64 = 2;
        let crop_unit_y: u64 = 2 * height_factor;
        let crop_x_total = crop_left + crop_right;
        let crop_y_total = crop_top + crop_bottom;
        let crop_x = crop_unit_x * crop_x_total;
        proof {
            assert(crop_unit_y * crop_y_total <= 0x10_0000_0000_0000) by (nonlinear_arith)
                requires
                    crop_unit_y <= 4,
                    crop_y_total <= 0x4_0000_0000u64,
            ;
        }
        let crop_y = crop_unit_y * crop_y_total;
        if crop_x > width || crop_y > height {
            return;
        }
        let final_width = width - crop_x;
        let final_height = height - crop_y;
        proof {
            let wraw = pic_width_raw as nat;
            let hraw = pic_height_raw as nat;
            let fmo = frame_mbs_only as nat;
            let hf = (2 - fmo) as nat;
            assert(width as nat == (wraw + 1) * 16);
            assert(height_factor as nat == hf);
            assert(height as nat == (hraw + 1) * 16 * hf);
            assert(crop_x as nat == 2 * (crop_left as nat + crop_right as nat));
            assert(crop_y as nat == (2 * hf) * (crop_top as nat + crop_bottom as nat));
            let dim = sps_dimensions(
                pic_width_raw as nat,
                pic_height_raw as nat,
                frame_mbs_only as nat,
                crop_left as nat,
                crop_right as nat,
                crop_top as nat,
                crop_bottom as nat,
            );
            assert(dim is Some);
            assert(dim->Some_0.0 == ((final_width as nat % 0x1_0000_0000) as u32));
            assert(dim->Some_0.1 == ((final_height as nat % 0x1_0000_0000) as u32));
        }
        // stored as 32-bit values, truncating as the field width demands
        let w32: u32 = (final_width % 0x1_0000_0000) as u32;
        let h32: u32 = (final_height % 0x1_0000_0000) as u32;
        self.width = Some(w32);
        self.height = Some(h32);
    }

    /// Parse one SPS NAL unit for profile, level, and frame geometry.
    #[verifier::rlimit(100)]
    #[verifier::spinoff_prover]
    fn parse_sps(&mut self, nalu: &[u8])
        ensures
            final(self).keyframe_count == old(self).keyframe_count,
            final(self).inter_frame_count == old(self).inter_frame_count,
            final(self).b_frame_count == old(self).b_frame_count,
            final(self).total_video_frames == old(self).total_video_frames,
            final(self).total_video_bytes == old(self).total_video_bytes,
            final(self).codec == old(self).codec,
            final(self).avc_config_received == old(self).avc_config_received,
            final(self).nalu_length_size == old(self).nalu_length_size,
            unescape(nalu@).len() < 2 ==> *final(self) == *old(self),
            unescape(nalu@).len() >= 2 ==> final(self).level is Some,
            unescape(nalu@).len() >= 2 ==> final(self).profile is Some
                && final(self).profile->Some_0@ == h264_profile_chars(unescape(nalu@)[1]),
            unescape(nalu@).len() >= 4 ==> final(self).level is Some
                && final(self).level->Some_0@ == level_chars(unescape(nalu@)[3]),
            ({
                let d = unescape(nalu@).skip(1);
                (unescape(nalu@).len() >= 2 && sps_geometry(d) is Some) ==> {
                    &&& final(self).width == Some(sps_geometry(d)->Some_0.0)
                    &&& final(self).height == Some(sps_geometry(d)->Some_0.1)
                }
            }),
    {
        if nalu.len() == 0 {
            return;
        }
        let rbsp = remove_emulation_prevention(nalu);
        if rbsp.len() < 2 {
            return;
        }
        // skip the NAL header byte
        let mut tail: Vec<u8> = Vec::new();
        tail.extend_from_slice(&rbsp[1..rbsp.len()]);
        let ghost d = tail@;
        proof {
            assert(d =~= unescape(nalu@).skip(1));
        }
        let ghost geo = sps_geometry(d);
        let mut reader = BitstreamReader::new(tail);

        proof {
            lemma_bits_val_byte(d, 0);
            if d.len() >= 3 {
                lemma_bits_val_byte(d, 2);
            }
        }
        let profile_idc = reader.read_bits(8) as u8;
        let _constraints = reader.read_bits(8);
        let level_idc = reader.read_bits(8) as u8;
        let _sps_id = reader.read_exp_golomb();
        let ghost q4 = reader.pos();
        proof {
            if geo is Some {
                assert(sg_after_header(d) is Some);
                assert(profile_idc as nat == sg_after_header(d)->Some_0.0);
                assert(q4 == sg_after_header(d)->Some_0.1);
            }
        }

        self.profile = Some(h264_profile_name(profile_idc));
        self.level = Some(level_name(level_idc));

        // high-family profiles carry a chroma subclause
        let is_high = profile_idc == 100 || profile_idc == 110 || profile_idc == 122
            || profile_idc == 244 || profile_idc == 44 || profile_idc == 83 || profile_idc == 86
            || profile_idc == 118 || profile_idc == 128 || profile_idc == 138 || profile_idc == 139
            || profile_idc == 134 || profile_idc == 135;
        proof {
            assert(is_high == sps_high_profile(profile_idc as nat));
        }
        if is_high {
            skip_chroma_subclause(&mut reader);
        }
        let ghost q5 = reader.pos();
        proof {
            if geo is Some {
                if sps_high_profile(profile_idc as nat) {
                    assert(q5 == sg_chroma_subclause(d, q4)->Some_0);
                } else {
                    assert(q5 == q4);
                }
            }
        }

        skip_mid_fields(&mut reader);
        let ghost q6 = reader.pos();
        proof {
            if geo is Some {
                assert(sg_mid_fields(d, q5) is Some);
                assert(q6 == sg_mid_fields(d, q5)->Some_0);
            }
        }

        let fields = read_geometry_fields(&mut reader);
        let pic_width_raw = fields.0;
        let pic_height_raw = fields.1;
        let frame_mbs_only = fields.2;
        let crop_left = fields.3;
        let crop_right = fields.4;
        let crop_top = fields.5;
        let crop_bottom = fields.6;
        proof {
            if geo is Some {
                assert(sg_geometry_fields(d, q6) is Some);
                assert(sg_geometry_fields(d, q6)->Some_0 == (
                    pic_width_raw as nat,
                    pic_height_raw as nat,
                    frame_mbs_only as nat,
                    crop_left as nat,
                    crop_right as nat,
                    crop_top as nat,
                    crop_bottom as nat,
                ));
                assert(geo == sps_dimensions(
                    pic_width_raw as nat,
                    pic_height_raw as nat,
                    frame_mbs_only as nat,
                    crop_left as nat,
                    crop_right as nat,
                    crop_top as nat,
                    crop_bottom as nat,
                ));
            }
        }

        self.apply_dimensions(
            pic_width_raw,
            pic_height_raw,
            frame_mbs_only,
            crop_left,
            crop_right,
            crop_top,
            crop_bottom,
        );
    }
}

} // verus!
