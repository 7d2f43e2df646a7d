//! The MP4 muxer: per-track state, the write-ordering state machine, and
//! the ingress API.
//!
//! The muxer owns its output as a growing byte vector; a caller that
//! streams hands those bytes to its sink. Every public operation is
//! specified by a transition function on [`MuxV`], the muxer's
//! mathematical view, so the exact bytes produced by any call sequence
//! are pinned down.

use vstd::prelude::*;

use crate::boxes::{
    ftyp_bytes, mdat_frag_bytes, mdat_header_bytes, moof_bytes, moov_bytes,
    write_ftyp, write_mdat, write_mdat_header, write_moof,
};
use crate::bytes::{push_bytes, push_u32_be, u32_be, u64_be};
use crate::nalu::{split_nalu, split_spans, lemma_split_spans_props};
use crate::types::{track_emit_ok, Codec, SampleInfo, SampleType, Track, TrackType, TrackV};
use crate::util::{get_sample_rate_idx, sample_rate_idx, ue_value, BitReader};

verus! {

/// The largest payload one call may carry: keeps every derived quantity,
/// including the bit count of a NAL unit, within 32-bit arithmetic.
pub const DATA_MAX: usize = 0x0FFF_FFFF;

/// The largest sample table the muxer will record.
pub const SAMPLES_MAX: usize = 0x0100_0000;

/// Mathematical view of the muxer.
pub ghost struct MuxV {
    pub fragment: bool,
    pub init_header: bool,
    pub write_pos: u64,
    pub create_time: u64,
    pub fragment_id: u32,
    pub duration: u32,
    pub track_ids: u32,
    pub write_moov: bool,
    pub send_first_random_access: bool,
    pub language: Seq<u8>,
    pub out: Seq<u8>,
    pub video_track: Option<TrackV>,
    pub audio_track: Option<TrackV>,
}

/// The streaming MP4 multiplexer.
pub struct Mp4e {
    /// Whether the muxer emits a fragmented stream.
    pub fragment: bool,
    /// Whether the `ftyp` header (and, non-fragmented, the `mdat` header)
    /// has been emitted.
    pub init_header: bool,
    /// Cumulative bytes written; always the length of `out`.
    pub write_pos: u64,
    /// Creation time in seconds since 1904-01-01; zero means unset.
    pub create_time: u64,
    /// The sequence number of the last emitted fragment.
    pub fragment_id: u32,
    /// The overall media duration in the video timescale.
    pub duration: u32,
    /// The next track id to assign.
    pub track_ids: u32,
    /// Whether the `moov` box has been emitted.
    pub write_moov: bool,
    /// Whether any video key frame has been observed.
    pub send_first_random_access: bool,
    /// The ISO-639-2/T language code.
    pub language: [u8; 3],
    /// The produced byte stream.
    pub out: Vec<u8>,
    /// The video track, if one was set up.
    pub video_track: Option<Track>,
    /// The audio track, if one was set up.
    pub audio_track: Option<Track>,
}

impl View for Mp4e {
    type V = MuxV;

    open spec fn view(&self) -> MuxV {
        MuxV {
            fragment: self.fragment,
            init_header: self.init_header,
            write_pos: self.write_pos,
            create_time: self.create_time,
            fragment_id: self.fragment_id,
            duration: self.duration,
            track_ids: self.track_ids,
            write_moov: self.write_moov,
            send_first_random_access: self.send_first_random_access,
            language: self.language@,
            out: self.out@,
            video_track: crate::types::opt_track_view(&self.video_track),
            audio_track: crate::types::opt_track_view(&self.audio_track),
        }
    }
}

/// The first 40 bytes of a non-fragmented stream: the `ftyp` box and the
/// size and type of the large-size `mdat` box. Only the 8 size bytes that
/// follow are ever backpatched.
pub open spec fn nonfrag_prefix() -> Seq<u8> {
    ftyp_bytes() + u32_be(1) + u32_be(crate::boxes::T_MDAT)
}

/// The muxer's invariant: the write position tracks the output length,
/// tracks are well-formed for emission, a video track exists once a key
/// frame was seen, the `moov` was emitted at the first key frame in
/// fragmented mode, sample tables stay empty in fragmented mode, and the
/// first recorded sample of any track is a random access point.
pub open spec fn mux_wf(m: MuxV) -> bool {
    &&& m.language.len() == 3
    &&& m.write_pos == m.out.len()
    &&& (!m.init_header ==> m.out.len() == 0 && !m.send_first_random_access && !m.write_moov)
    &&& (m.init_header && !m.fragment ==> m.out.len() >= 48)
    &&& (m.init_header && !m.fragment ==> m.out.subrange(0, 40) == nonfrag_prefix())
    &&& (m.video_track is Some ==> track_emit_ok(m.video_track.unwrap()))
    &&& (m.video_track is Some ==> m.video_track.unwrap().timescale == 90000)
    &&& (m.video_track is Some ==> m.video_track.unwrap().track_type is Video)
    &&& (m.audio_track is Some ==> track_emit_ok(m.audio_track.unwrap()))
    &&& (m.audio_track is Some ==> m.audio_track.unwrap().track_type is Audio)
    &&& (m.audio_track is Some ==> m.audio_track.unwrap().timescale
        == m.audio_track.unwrap().sample_rate)
    &&& (m.audio_track is Some ==> m.audio_track.unwrap().timescale >= 1000)
    &&& (m.send_first_random_access ==> m.video_track is Some)
    &&& (m.fragment && m.send_first_random_access ==> m.write_moov)
    &&& (m.fragment && m.video_track is Some ==> m.video_track.unwrap().samples.len() == 0)
    &&& (m.fragment && m.audio_track is Some ==> m.audio_track.unwrap().samples.len() == 0)
    &&& (!m.fragment && m.send_first_random_access ==> m.video_track.unwrap().samples.len() >= 1)
    &&& (m.video_track is Some && m.video_track.unwrap().samples.len() > 0
        ==> m.video_track.unwrap().samples[0].random_access)
    &&& (m.audio_track is Some && m.audio_track.unwrap().samples.len() > 0
        ==> m.audio_track.unwrap().samples[0].random_access)
}

/// The muxer's invariant between the observation of a key frame and the
/// write it triggers: everything [`mux_wf`] says except the two clauses
/// that follow from `send_first_random_access`, which the write restores.
pub open spec fn mux_wf_step(m: MuxV) -> bool {
    &&& m.language.len() == 3
    &&& m.write_pos == m.out.len()
    &&& (!m.init_header ==> m.out.len() == 0 && !m.send_first_random_access && !m.write_moov)
    &&& (m.init_header && !m.fragment ==> m.out.len() >= 48)
    &&& (m.init_header && !m.fragment ==> m.out.subrange(0, 40) == nonfrag_prefix())
    &&& (m.video_track is Some ==> track_emit_ok(m.video_track.unwrap()))
    &&& (m.video_track is Some ==> m.video_track.unwrap().timescale == 90000)
    &&& (m.video_track is Some ==> m.video_track.unwrap().track_type is Video)
    &&& (m.audio_track is Some ==> track_emit_ok(m.audio_track.unwrap()))
    &&& (m.audio_track is Some ==> m.audio_track.unwrap().track_type is Audio)
    &&& (m.audio_track is Some ==> m.audio_track.unwrap().timescale
        == m.audio_track.unwrap().sample_rate)
    &&& (m.audio_track is Some ==> m.audio_track.unwrap().timescale >= 1000)
    &&& (m.send_first_random_access ==> m.video_track is Some)
    &&& (m.fragment && m.video_track is Some ==> m.video_track.unwrap().samples.len() == 0)
    &&& (m.fragment && m.audio_track is Some ==> m.audio_track.unwrap().samples.len() == 0)
    &&& (m.video_track is Some && m.video_track.unwrap().samples.len() > 0
        ==> m.video_track.unwrap().samples[0].random_access)
    &&& (m.audio_track is Some && m.audio_track.unwrap().samples.len() > 0
        ==> m.audio_track.unwrap().samples[0].random_access)
}

/// A freshly constructed muxer: nothing written, track ids from 1, the
/// language `und`.
pub open spec fn fresh_mux(fragment: bool) -> MuxV {
    MuxV {
        fragment,
        init_header: false,
        write_pos: 0,
        create_time: 0,
        fragment_id: 0,
        duration: 0,
        track_ids: 1,
        write_moov: false,
        send_first_random_access: false,
        language: seq![0x75u8, 0x6Eu8, 0x64u8],
        out: Seq::empty(),
        video_track: Option::None,
        audio_track: Option::None,
    }
}

/// The muxer after the stream header: the `ftyp` box, and in
/// non-fragmented mode the large-size `mdat` header, emitted once.
pub open spec fn with_header(m: MuxV) -> MuxV {
    if m.init_header {
        m
    } else {
        let add = if m.fragment {
            ftyp_bytes()
        } else {
            ftyp_bytes() + mdat_header_bytes()
        };
        MuxV {
            init_header: true,
            out: m.out + add,
            write_pos: (m.write_pos + add.len()) as u64,
            ..m
        }
    }
}

/// The muxer after ensuring the `moov` box was emitted.
pub open spec fn with_moov(m: MuxV) -> MuxV {
    if m.write_moov {
        m
    } else {
        let b = moov_bytes(
            m.video_track,
            m.audio_track,
            m.create_time,
            m.track_ids,
            m.language,
            m.fragment,
        );
        MuxV {
            write_moov: true,
            out: m.out + b,
            write_pos: (m.write_pos + b.len()) as u64,
            ..m
        }
    }
}

/// The muxer after absorbing one sample. In fragmented mode the sample
/// becomes a `moof`+`mdat` pair (after the `moov`, at the first sample);
/// otherwise it is recorded in the sample table and its payload appended,
/// video with a 4-byte NAL length prefix. A continuation merges into the
/// last video sample; one with no predecessor is dropped.
pub open spec fn put_sample_spec(
    m: MuxV,
    data: Seq<u8>,
    duration: u32,
    video: bool,
    ct_offset: i32,
    st: SampleType,
) -> MuxV {
    if m.fragment {
        let m1 = with_moov(m);
        let fid = (m1.fragment_id + 1) as u32;
        let t = if video {
            m1.video_track.unwrap()
        } else {
            m1.audio_track.unwrap()
        };
        let add = moof_bytes(fid, t.id, video, st, (data.len() + 4) as u32, duration, ct_offset)
            + mdat_frag_bytes(data, video);
        MuxV {
            fragment_id: fid,
            out: m1.out + add,
            write_pos: (m1.write_pos + add.len()) as u64,
            ..m1
        }
    } else if !video {
        let t = m.audio_track.unwrap();
        let si = SampleInfo {
            random_access: true,
            offset: m.write_pos,
            sample_size: data.len() as u32,
            sample_delta: duration,
            sample_ct_offset: ct_offset,
        };
        MuxV {
            audio_track: Option::Some(TrackV { samples: t.samples.push(si), ..t }),
            out: m.out + data,
            write_pos: (m.write_pos + data.len()) as u64,
            ..m
        }
    } else if st is Continuation {
        let t = m.video_track.unwrap();
        if t.samples.len() == 0 {
            m
        } else {
            let last = t.samples.last();
            let merged = SampleInfo {
                sample_size: (last.sample_size + data.len() + 4) as u32,
                ..last
            };
            MuxV {
                video_track: Option::Some(
                    TrackV { samples: t.samples.update(t.samples.len() - 1, merged), ..t },
                ),
                out: m.out + u32_be(data.len() as u32) + data,
                write_pos: (m.write_pos + data.len() + 4) as u64,
                ..m
            }
        }
    } else {
        let t = m.video_track.unwrap();
        let si = SampleInfo {
            random_access: st is RandomAccess,
            offset: m.write_pos,
            sample_size: (data.len() + 4) as u32,
            sample_delta: duration,
            sample_ct_offset: ct_offset,
        };
        MuxV {
            video_track: Option::Some(TrackV { samples: t.samples.push(si), ..t }),
            out: m.out + u32_be(data.len() as u32) + data,
            write_pos: (m.write_pos + data.len() + 4) as u64,
            ..m
        }
    }
}

/// The muxer after one AVC NAL unit: parameter sets are captured once
/// (within the 16-bit length fields), and once SPS and PPS are present a
/// slice is classified by `first_mb_in_slice` and the IDR type. IDR
/// samples are always written; others only after the first key frame.
pub open spec fn avc_nal_step(m: MuxV, nal: Seq<u8>, duration: u32, ct_offset: i32) -> MuxV {
    if nal.len() == 0 {
        m
    } else {
        let nalu_type = nal[0] & 0x1f;
        let vt = m.video_track.unwrap();
        if nalu_type == 7 {
            if vt.sps is None && 4 <= nal.len() <= 0xffff {
                MuxV { video_track: Option::Some(TrackV { sps: Option::Some(nal), ..vt }), ..m }
            } else {
                m
            }
        } else if nalu_type == 8 {
            if vt.pps is None && nal.len() <= 0xffff {
                MuxV { video_track: Option::Some(TrackV { pps: Option::Some(nal), ..vt }), ..m }
            } else {
                m
            }
        } else if vt.sps is Some && vt.pps is Some {
            let first_mb = ue_value(nal.skip(1), 0, 32);
            let st = if first_mb != 0 {
                SampleType::Continuation
            } else if nalu_type == 5 {
                SampleType::RandomAccess
            } else {
                SampleType::Default
            };
            if nalu_type == 5 {
                if !m.fragment && st is Continuation && vt.samples.len() == 0 {
                    m
                } else {
                    put_sample_spec(
                        MuxV { send_first_random_access: true, ..m },
                        nal,
                        duration,
                        true,
                        ct_offset,
                        st,
                    )
                }
            } else if m.send_first_random_access {
                put_sample_spec(m, nal, duration, true, ct_offset, st)
            } else {
                m
            }
        } else {
            m
        }
    }
}

/// The muxer after one HEVC NAL unit: VPS, SPS and PPS are captured once,
/// and once all three are present, types 16 through 21 are written as
/// random-access samples and everything else as an ordinary sample after
/// the first key frame.
pub open spec fn hevc_nal_step(m: MuxV, nal: Seq<u8>, duration: u32, ct_offset: i32) -> MuxV {
    if nal.len() == 0 {
        m
    } else {
        let nalu_type = (nal[0] & 0x7e) >> 1;
        let vt = m.video_track.unwrap();
        if nalu_type == 32 {
            if vt.vps is None && nal.len() <= 0xffff {
                MuxV { video_track: Option::Some(TrackV { vps: Option::Some(nal), ..vt }), ..m }
            } else {
                m
            }
        } else if nalu_type == 33 {
            if vt.sps is None && nal.len() <= 0xffff {
                MuxV { video_track: Option::Some(TrackV { sps: Option::Some(nal), ..vt }), ..m }
            } else {
                m
            }
        } else if nalu_type == 34 {
            if vt.pps is None && nal.len() <= 0xffff {
                MuxV { video_track: Option::Some(TrackV { pps: Option::Some(nal), ..vt }), ..m }
            } else {
                m
            }
        } else if vt.vps is Some && vt.sps is Some && vt.pps is Some {
            if 16 <= nalu_type <= 21 {
                put_sample_spec(
                    MuxV { send_first_random_access: true, ..m },
                    nal,
                    duration,
                    true,
                    ct_offset,
                    SampleType::RandomAccess,
                )
            } else if m.send_first_random_access {
                put_sample_spec(m, nal, duration, true, ct_offset, SampleType::Default)
            } else {
                m
            }
        } else {
            m
        }
    }
}

/// The fold of [`avc_nal_step`] over the NAL units of a buffer.
pub open spec fn avc_fold(
    m: MuxV,
    d: Seq<u8>,
    spans: Seq<(int, int)>,
    duration: u32,
    ct_offset: i32,
) -> MuxV
    decreases spans.len(),
{
    if spans.len() == 0 {
        m
    } else {
        avc_fold(
            avc_nal_step(m, d.subrange(spans[0].0, spans[0].1), duration, ct_offset),
            d,
            spans.skip(1),
            duration,
            ct_offset,
        )
    }
}

/// The fold of [`hevc_nal_step`] over the NAL units of a buffer.
pub open spec fn hevc_fold(
    m: MuxV,
    d: Seq<u8>,
    spans: Seq<(int, int)>,
    duration: u32,
    ct_offset: i32,
) -> MuxV
    decreases spans.len(),
{
    if spans.len() == 0 {
        m
    } else {
        hevc_fold(
            hevc_nal_step(m, d.subrange(spans[0].0, spans[0].1), duration, ct_offset),
            d,
            spans.skip(1),
            duration,
            ct_offset,
        )
    }
}

/// The muxer after one video access unit: the header is ensured, the
/// track duration grows by `duration_ms` converted to timescale ticks,
/// the movie duration follows, and each NAL unit of the buffer is
/// classified and written. With a presentation timestamp, the composition
/// offset is `pts*timescale/1000` minus the accumulated track duration.
pub open spec fn encode_video_core(
    m: MuxV,
    data: Seq<u8>,
    duration_ms: u32,
    with_pts: bool,
    pts: u32,
) -> MuxV {
    let m1 = with_header(m);
    match m1.video_track {
        Option::None => m1,
        Option::Some(t) => {
            let ticks = ((duration_ms * t.timescale) / 1000) as u32;
            let newdur = (t.duration + ticks) as u32;
            let gdur = if newdur > m1.duration {
                newdur
            } else {
                m1.duration
            };
            let m2 = MuxV {
                video_track: Option::Some(TrackV { duration: newdur, ..t }),
                duration: gdur,
                ..m1
            };
            let ct: i32 = if with_pts {
                (((pts as i64) * (t.timescale as i64) / 1000 - (newdur as i64)) as i32)
            } else {
                0
            };
            match t.codec {
                Codec::AVC => avc_fold(m2, data, split_spans(data), ticks, ct),
                Codec::HEVC => hevc_fold(m2, data, split_spans(data), ticks, ct),
                _ => m2,
            }
        },
    }
}

/// The muxer after [`Mp4e::encode_video`].
pub open spec fn encode_video_spec(m: MuxV, data: Seq<u8>, duration_ms: u32) -> MuxV {
    encode_video_core(m, data, duration_ms, false, 0)
}

/// The muxer after [`Mp4e::encode_video_with_pts`].
pub open spec fn encode_video_with_pts_spec(
    m: MuxV,
    data: Seq<u8>,
    duration_ms: u32,
    pts: u32,
) -> MuxV {
    encode_video_core(m, data, duration_ms, true, pts)
}

/// The muxer after one audio access unit: the header is ensured, and once
/// a video key frame has been seen the sample is recorded with a duration
/// of `samples` ticks in the audio timescale.
pub open spec fn encode_audio_spec(m: MuxV, data: Seq<u8>, samples: u32) -> MuxV {
    let m1 = with_header(m);
    match m1.audio_track {
        Option::None => m1,
        Option::Some(t) => {
            if m1.send_first_random_access {
                let newdur = (t.duration + samples) as u32;
                let m2 = MuxV { audio_track: Option::Some(TrackV { duration: newdur, ..t }), ..m1 };
                put_sample_spec(m2, data, samples, false, 0, SampleType::RandomAccess)
            } else {
                m1
            }
        },
    }
}

/// The muxer after [`Mp4e::flush`]: the header is ensured; in
/// non-fragmented mode, once, the large-size `mdat` field at offset 40 is
/// backpatched to the bytes written so far minus the 32-byte `ftyp`, and
/// the `moov` box is appended. Fragmented flushing only ensures the
/// header.
pub open spec fn flush_spec(m: MuxV) -> MuxV {
    let m1 = with_header(m);
    if m1.fragment || m1.write_moov {
        m1
    } else {
        let patched = m1.out.update_subrange_with(40, u64_be((m1.write_pos - 32) as u64));
        let b = moov_bytes(
            m1.video_track,
            m1.audio_track,
            m1.create_time,
            m1.track_ids,
            m1.language,
            false,
        );
        MuxV {
            write_moov: true,
            out: patched + b,
            write_pos: (m1.write_pos + b.len()) as u64,
            ..m1
        }
    }
}

/// The AAC audio object type for a codec; 0 for codecs that are not AAC.
pub open spec fn aac_profile(codec: Codec) -> u8 {
    match codec {
        Codec::AACMAIN => 1,
        Codec::AACLC => 2,
        Codec::AACSSR => 3,
        Codec::AACLTP => 4,
        Codec::HEAAC => 5,
        Codec::HEAACV2 => 29,
        _ => 0,
    }
}

/// The 2-byte AAC AudioSpecificConfig: object type, sample-rate index and
/// channel configuration.
pub open spec fn aac_dsi(codec: Codec, sample_rate: u32, channel_count: u32) -> Seq<u8> {
    let idx = sample_rate_idx(sample_rate);
    seq![
        ((aac_profile(codec) << 3) | (((idx & 0x0e) >> 1) as u8)) as u8,
        ((((idx & 0x01) << 7) as u8) | ((channel_count << 3) as u8)) as u8,
    ]
}

/// The muxer after [`Mp4e::set_audio_track`]: ignored once the header has
/// been emitted, otherwise the audio track is created with the next id,
/// the sample rate as timescale, and for AAC codecs the 2-byte
/// decoder-specific info.
pub open spec fn set_audio_track_spec(
    m: MuxV,
    sample_rate: u32,
    channel_count: u32,
    codec: Codec,
) -> MuxV {
    if m.init_header {
        m
    } else {
        let dsi = match codec {
            Codec::OPUS => Option::<Seq<u8>>::None,
            _ => Option::Some(aac_dsi(codec, sample_rate, channel_count)),
        };
        MuxV {
            audio_track: Option::Some(
                TrackV {
                    id: m.track_ids,
                    duration: 0,
                    timescale: sample_rate,
                    sample_rate,
                    channel_count,
                    width: 0,
                    height: 0,
                    codec,
                    vps: Option::None,
                    sps: Option::None,
                    pps: Option::None,
                    dsi,
                    samples: Seq::empty(),
                    track_type: TrackType::Audio,
                },
            ),
            track_ids: (m.track_ids + 1) as u32,
            ..m
        }
    }
}

/// The muxer after [`Mp4e::set_video_track`]: ignored once the header has
/// been emitted, otherwise the video track is created with the next id
/// and a timescale of 90000.
pub open spec fn set_video_track_spec(m: MuxV, width: u32, height: u32, codec: Codec) -> MuxV {
    if m.init_header {
        m
    } else {
        MuxV {
            video_track: Option::Some(
                TrackV {
                    id: m.track_ids,
                    duration: 0,
                    timescale: 90000,
                    sample_rate: 0,
                    channel_count: 0,
                    width,
                    height,
                    codec,
                    vps: Option::None,
                    sps: Option::None,
                    pps: Option::None,
                    dsi: Option::None,
                    samples: Seq::empty(),
                    track_type: TrackType::Video,
                },
            ),
            track_ids: (m.track_ids + 1) as u32,
            ..m
        }
    }
}

impl Mp4e {
    /// Creates a muxer in non-fragmented, `moov`-at-end mode.
    pub fn new() -> (m: Mp4e)
        ensures
            m@ == fresh_mux(false),
            mux_wf(m@),
    {
        Self::new_encoder(false)
    }

    /// Creates a muxer in fragmented mode.
    pub fn new_with_fragment() -> (m: Mp4e)
        ensures
            m@ == fresh_mux(true),
            mux_wf(m@),
    {
        Self::new_encoder(true)
    }

    fn new_encoder(fragment: bool) -> (m: Mp4e)
        ensures
            m@ == fresh_mux(fragment),
            mux_wf(m@),
    {
        let m = Mp4e {
            fragment,
            init_header: false,
            write_pos: 0,
            create_time: 0,
            fragment_id: 0,
            duration: 0,
            track_ids: 1,
            write_moov: false,
            send_first_random_access: false,
            language: [0x75, 0x6E, 0x64],
            out: Vec::new(),
            video_track: Option::None,
            audio_track: Option::None,
        };
        proof {
            assert(m.language@ =~= seq![0x75u8, 0x6Eu8, 0x64u8]);
            assert(m@ == fresh_mux(fragment));
        }
        m
    }

    /// The bytes produced so far.
    pub fn output(&self) -> (r: &Vec<u8>)
        ensures
            r@ == self@.out,
    {
        &self.out
    }

    /// Sets the three-character ISO-639-2/T language code; ignored once
    /// the header has been emitted.
    pub fn set_language(&mut self, language: [u8; 3])
        requires
            mux_wf(old(self)@),
        ensures
            mux_wf(final(self)@),
            old(self)@.init_header ==> final(self)@ == old(self)@,
            !old(self)@.init_header ==> final(self)@ == (MuxV {
                language: language@,
                ..old(self)@
            }),
    {
        if !self.init_header {
            self.language = language;
        }
    }

    /// Sets the creation time from seconds since the Unix epoch, offset to
    /// the 1904 epoch; ignored once the header has been emitted.
    pub fn set_create_time(&mut self, create_time: u64)
        requires
            mux_wf(old(self)@),
            create_time + 2082844800 <= u64::MAX,
        ensures
            mux_wf(final(self)@),
            old(self)@.init_header ==> final(self)@ == old(self)@,
            !old(self)@.init_header ==> final(self)@ == (MuxV {
                create_time: (create_time + 2082844800) as u64,
                ..old(self)@
            }),
    {
        if !self.init_header {
            self.create_time = create_time + 2082844800;
        }
    }

    /// Sets up the audio track; ignored once the header has been emitted.
    pub fn set_audio_track(&mut self, sample_rate: u32, channel_count: u32, codec: Codec)
        requires
            mux_wf(old(self)@),
            sample_rate >= 1000,
            channel_count <= 0xffff,
            old(self)@.track_ids < u32::MAX,
        ensures
            mux_wf(final(self)@),
            final(self)@ == set_audio_track_spec(old(self)@, sample_rate, channel_count, codec),
    {
        if self.init_header {
            return ;
        }
        let profile: u8 = match codec {
            Codec::AACMAIN => 1,
            Codec::AACLC => 2,
            Codec::AACSSR => 3,
            Codec::AACLTP => 4,
            Codec::HEAAC => 5,
            Codec::HEAACV2 => 29,
            _ => 0,
        };
        let mut dsi: Option<Vec<u8>> = Option::None;
        match codec {
            Codec::OPUS => {},
            _ => {
                let idx: u32 = get_sample_rate_idx(sample_rate);
                let b0: u8 = (profile << 3u8) | (((idx & 0x0e) >> 1u32) as u8);
                let b1: u8 = (((idx & 0x01) << 7u32) as u8) | ((channel_count << 3u32) as u8);
                let mut dsi_buf: Vec<u8> = Vec::new();
                dsi_buf.push(b0);
                dsi_buf.push(b1);
                proof {
                    assert(dsi_buf@ =~= aac_dsi(codec, sample_rate, channel_count));
                }
                dsi = Option::Some(dsi_buf);
            },
        }
        self.audio_track = Option::Some(
            Track {
                id: self.track_ids,
                duration: 0,
                timescale: sample_rate,
                samples: Vec::new(),
                sample_rate,
                channel_count,
                codec,
                width: 0,
                height: 0,
                dsi,
                vps: Option::None,
                sps: Option::None,
                pps: Option::None,
                track_type: TrackType::Audio,
            },
        );
        self.track_ids = self.track_ids + 1;
        proof {
            assert(final(self)@ == set_audio_track_spec(old(self)@, sample_rate, channel_count, codec));
        }
    }

    /// Sets up the video track; ignored once the header has been emitted.
    pub fn set_video_track(&mut self, width: u32, height: u32, codec: Codec)
        requires
            mux_wf(old(self)@),
            width <= 0xffff,
            height <= 0xffff,
            old(self)@.track_ids < u32::MAX,
        ensures
            mux_wf(final(self)@),
            final(self)@ == set_video_track_spec(old(self)@, width, height, codec),
    {
        if self.init_header {
            return ;
        }
        self.video_track = Option::Some(
            Track {
                id: self.track_ids,
                duration: 0,
                timescale: 90000,
                samples: Vec::new(),
                width,
                height,
                codec,
                sample_rate: 0,
                channel_count: 0,
                dsi: Option::None,
                vps: Option::None,
                sps: Option::None,
                pps: Option::None,
                track_type: TrackType::Video,
            },
        );
        self.track_ids = self.track_ids + 1;
    }

    /// Emits the stream header once.
    fn init_header_if_needed(&mut self)
        requires
            mux_wf(old(self)@),
        ensures
            mux_wf(final(self)@),
            final(self)@ == with_header(old(self)@),
    {
        if !self.init_header {
            write_ftyp(&mut self.out);
            if !self.fragment {
                write_mdat_header(&mut self.out);
            }
            self.write_pos = self.out.len() as u64;
            self.init_header = true;
            proof {
                if !self.fragment {
                    assert(self.out@.subrange(0, 40) =~= nonfrag_prefix());
                }
            }
        }
    }

    /// Emits the `moov` box once.
    fn write_moov_if_needed(&mut self)
        requires
            mux_wf_step(old(self)@),
            old(self)@.init_header,
            !old(self)@.write_moov ==> old(self)@.video_track is Some,
        ensures
            mux_wf_step(final(self)@),
            final(self)@ == with_moov(old(self)@),
    {
        if !self.write_moov {
            crate::boxes::write_moov(
                &self.video_track,
                &self.audio_track,
                self.create_time,
                self.track_ids,
                &self.language,
                self.fragment,
                &mut self.out,
            );
            self.write_pos = self.out.len() as u64;
            self.write_moov = true;
            proof {
                if !self.fragment {
                    crate::bytes::lemma_append_preserves_prefix(
                        old(self)@.out,
                        moov_bytes(
                            old(self)@.video_track,
                            old(self)@.audio_track,
                            old(self)@.create_time,
                            old(self)@.track_ids,
                            old(self)@.language,
                            old(self)@.fragment,
                        ),
                        40,
                    );
                }
            }
        }
    }

    /// Absorbs one sample: in fragmented mode as an immediate
    /// `moof`+`mdat` pair, otherwise into the sample table and payload
    /// area.
    fn put_sample(
        &mut self,
        data: &[u8],
        duration: u32,
        video: bool,
        ct_offset: i32,
        sample_type: SampleType,
    )
        requires
            mux_wf_step(old(self)@),
            old(self)@.init_header,
            data@.len() <= DATA_MAX,
            video ==> old(self)@.video_track is Some,
            !video ==> old(self)@.audio_track is Some,
            old(self)@.fragment ==> old(self)@.fragment_id < u32::MAX,
            old(self)@.fragment && !old(self)@.write_moov ==> old(self)@.video_track is Some,
            !video ==> old(self)@.send_first_random_access,
            !old(self)@.fragment && !video && old(self)@.video_track is Some ==> old(
                self,
            )@.video_track.unwrap().samples.len() >= 1,
            !old(self)@.fragment && video && sample_type is Default ==> old(
                self,
            )@.video_track.unwrap().samples.len() >= 1,
            !old(self)@.fragment && video && sample_type is Continuation && old(
                self,
            )@.send_first_random_access ==> old(self)@.video_track.unwrap().samples.len() >= 1,
            !old(self)@.fragment && video && sample_type is RandomAccess ==> old(
                self,
            )@.send_first_random_access,
            !old(self)@.fragment && video && !(sample_type is Continuation) ==> old(
                self,
            )@.video_track.unwrap().samples.len() < SAMPLES_MAX,
            !old(self)@.fragment && !video ==> old(self)@.audio_track.unwrap().samples.len()
                < SAMPLES_MAX,
        ensures
            mux_wf(final(self)@),
            final(self)@ == put_sample_spec(
                old(self)@,
                data@,
                duration,
                video,
                ct_offset,
                sample_type,
            ),
    {
        if self.fragment {
            self.write_moov_if_needed();
            self.fragment_id = self.fragment_id + 1;
            if video {
                match &self.video_track {
                    Option::Some(t) => {
                        write_moof(
                            self.fragment_id,
                            data,
                            duration,
                            t,
                            ct_offset,
                            &sample_type,
                            &mut self.out,
                        );
                    },
                    Option::None => {
                        proof {
                            assert(false);
                        }
                    },
                }
            } else {
                match &self.audio_track {
                    Option::Some(t) => {
                        write_moof(
                            self.fragment_id,
                            data,
                            duration,
                            t,
                            ct_offset,
                            &sample_type,
                            &mut self.out,
                        );
                    },
                    Option::None => {
                        proof {
                            assert(false);
                        }
                    },
                }
            }
            write_mdat(data, video, &mut self.out);
            self.write_pos = self.out.len() as u64;
            proof {
                let m1 = with_moov(old(self)@);
                let t = if video {
                    m1.video_track.unwrap()
                } else {
                    m1.audio_track.unwrap()
                };
                crate::bytes::lemma_add_assoc(
                    m1.out,
                    moof_bytes(
                        (m1.fragment_id + 1) as u32,
                        t.id,
                        video,
                        sample_type,
                        (data@.len() + 4) as u32,
                        duration,
                        ct_offset,
                    ),
                    mdat_frag_bytes(data@, video),
                );
            }
            return ;
        }
        if !video {
            let si = SampleInfo {
                random_access: true,
                offset: self.write_pos,
                sample_size: data.len() as u32,
                sample_delta: duration,
                sample_ct_offset: ct_offset,
            };
            match &mut self.audio_track {
                Option::Some(t) => {
                    t.samples.push(si);
                },
                Option::None => {
                    proof {
                        assert(false);
                    }
                },
            }
            push_bytes(&mut self.out, data);
            self.write_pos = self.out.len() as u64;
            proof {
                crate::bytes::lemma_append_preserves_prefix(old(self)@.out, data@, 40);
            }
            return ;
        }
        match sample_type {
            SampleType::Continuation => {
                let mut empty_table: bool = false;
                match &mut self.video_track {
                    Option::Some(t) => {
                        let n = t.samples.len();
                        if n == 0 {
                            empty_table = true;
                        } else {
                            let old_size: u32 = t.samples[n - 1].sample_size;
                            let merged: u32 = #[verifier::truncate] ((old_size as u64
                                + data.len() as u64 + 4) as u32);
                            t.samples[n - 1].sample_size = merged;
                        }
                    },
                    Option::None => {
                        proof {
                            assert(false);
                        }
                    },
                }
                if empty_table {
                    return ;
                }
            },
            _ => {
                let si = SampleInfo {
                    random_access: matches!(sample_type, SampleType::RandomAccess),
                    offset: self.write_pos,
                    sample_size: (data.len() as u32) + 4,
                    sample_delta: duration,
                    sample_ct_offset: ct_offset,
                };
                match &mut self.video_track {
                    Option::Some(t) => {
                        t.samples.push(si);
                    },
                    Option::None => {
                        proof {
                            assert(false);
                        }
                    },
                }
            },
        }
        push_u32_be(&mut self.out, data.len() as u32);
        push_bytes(&mut self.out, data);
        self.write_pos = self.out.len() as u64;
        proof {
            crate::bytes::lemma_append_preserves_prefix(
                old(self)@.out,
                u32_be(data@.len() as u32),
                40,
            );
            crate::bytes::lemma_append_preserves_prefix(
                old(self)@.out + u32_be(data@.len() as u32),
                data@,
                40,
            );
        }
    }

    /// Classifies and writes the NAL units of one AVC access unit.
    fn write_avc_frame(&mut self, data: &[u8], duration: u32, ct_offset: i32)
        requires
            mux_wf(old(self)@),
            old(self)@.init_header,
            old(self)@.video_track is Some,
            old(self)@.video_track.unwrap().codec is AVC,
            data@.len() <= DATA_MAX,
            old(self)@.fragment ==> old(self)@.fragment_id + data@.len() + 1 <= u32::MAX,
            !old(self)@.fragment ==> old(self)@.video_track.unwrap().samples.len() + data@.len()
                + 1 <= SAMPLES_MAX,
        ensures
            mux_wf(final(self)@),
            final(self)@ == avc_fold(old(self)@, data@, split_spans(data@), duration, ct_offset),
    {
        let ghost d = data@;
        let ghost all = split_spans(d);
        let ghost m0 = old(self)@;
        proof {
            lemma_split_spans_props(d);
            assert(all.skip(0) =~= all);
        }
        let nalus = split_nalu(data);
        let n: usize = nalus.len();
        let mut i: usize = 0;
        while i < n
            invariant
                mux_wf(self@),
                self@.init_header,
                self@.video_track is Some,
                d == data@,
                d.len() <= DATA_MAX,
                all == split_spans(d),
                n == nalus@.len(),
                n == all.len(),
                n <= d.len() + 1,
                i <= n,
                forall|j: int|
                    0 <= j < n ==> (#[trigger] nalus@[j])@ == d.subrange(all[j].0, all[j].1),
                forall|j: int|
                    0 <= j < n ==> 0 <= (#[trigger] all[j]).0 <= all[j].1 <= d.len(),
                self@.fragment == m0.fragment,
                self@.video_track.unwrap().codec is AVC,
                m0.fragment ==> self@.fragment_id <= m0.fragment_id + i,
                m0.fragment ==> m0.fragment_id + d.len() + 1 <= u32::MAX,
                !m0.fragment ==> self@.video_track.unwrap().samples.len()
                    <= m0.video_track.unwrap().samples.len() + i,
                !m0.fragment ==> m0.video_track.unwrap().samples.len() + d.len() + 1
                    <= SAMPLES_MAX,
                avc_fold(m0, d, all, duration, ct_offset) == avc_fold(
                    self@,
                    d,
                    all.skip(i as int),
                    duration,
                    ct_offset,
                ),
            decreases n - i,
        {
            let ghost prev = self@;
            let nal: &[u8] = nalus[i];
            proof {
                assert(nal@ == d.subrange(all[i as int].0, all[i as int].1));
                assert(nal@.len() <= d.len());
            }
            if nal.len() > 0 {
                let b0: u8 = *vstd::slice::slice_index_get(nal, 0);
                let nalu_type: u8 = b0 & 0x1f;
                if nalu_type == 7 {
                    match &mut self.video_track {
                        Option::Some(t) => {
                            if t.sps.is_none() && nal.len() >= 4 && nal.len() <= 0xffff {
                                t.sps = Option::Some(vstd::slice::slice_to_vec(nal));
                            }
                        },
                        Option::None => {
                            proof {
                                assert(false);
                            }
                        },
                    }
                } else if nalu_type == 8 {
                    match &mut self.video_track {
                        Option::Some(t) => {
                            if t.pps.is_none() && nal.len() <= 0xffff {
                                t.pps = Option::Some(vstd::slice::slice_to_vec(nal));
                            }
                        },
                        Option::None => {
                            proof {
                                assert(false);
                            }
                        },
                    }
                } else {
                    let mut have_config: bool = false;
                    match &self.video_track {
                        Option::Some(t) => {
                            have_config = t.sps.is_some() && t.pps.is_some();
                        },
                        Option::None => {
                            proof {
                                assert(false);
                            }
                        },
                    }
                    if have_config {
                        let hdr = vstd::slice::slice_subrange(nal, 1, nal.len());
                        proof {
                            assert(hdr@ =~= nal@.skip(1));
                        }
                        let mut br = BitReader::new(hdr);
                        let first_mb: u32 = br.ue_bits(32);
                        let st: SampleType = if first_mb != 0 {
                            SampleType::Continuation
                        } else if nalu_type == 5 {
                            SampleType::RandomAccess
                        } else {
                            SampleType::Default
                        };
                        if nalu_type == 5 {
                            let mut dropit: bool = false;
                            if !self.fragment && matches!(st, SampleType::Continuation) {
                                match &self.video_track {
                                    Option::Some(t) => {
                                        if t.samples.len() == 0 {
                                            dropit = true;
                                        }
                                    },
                                    Option::None => {
                                        proof {
                                            assert(false);
                                        }
                                    },
                                }
                            }
                            if !dropit {
                                self.send_first_random_access = true;
                                self.put_sample(nal, duration, true, ct_offset, st);
                            }
                        } else if self.send_first_random_access {
                            self.put_sample(nal, duration, true, ct_offset, st);
                        }
                    }
                }
            }
            proof {
                assert(self@ == avc_nal_step(prev, nal@, duration, ct_offset));
                // the invariant clauses the solver needs spelled out one by one
                let mm = self@;
                assert(mm.video_track is Some && mm.video_track.unwrap().samples.len() > 0
                    ==> mm.video_track.unwrap().samples[0].random_access);
                assert(!mm.fragment && mm.send_first_random_access
                    ==> mm.video_track.unwrap().samples.len() >= 1);
                assert(mm.fragment && mm.send_first_random_access ==> mm.write_moov);
                assert(mm.video_track is Some ==> track_emit_ok(mm.video_track.unwrap()));
                assert(mux_wf(self@));
                assert(all.skip(i as int)[0] == all[i as int]);
                assert(avc_fold(prev, d, all.skip(i as int), duration, ct_offset) == avc_fold(
                    self@,
                    d,
                    all.skip(i as int).skip(1),
                    duration,
                    ct_offset,
                ));
                assert(all.skip(i as int).skip(1) =~= all.skip(i as int + 1));
            }
            i = i + 1;
        }
        proof {
            assert(all.skip(n as int) =~= Seq::<(int, int)>::empty());
        }
    }

    /// Classifies and writes the NAL units of one HEVC access unit.
    fn write_hevc_frame(&mut self, data: &[u8], duration: u32, ct_offset: i32)
        requires
            mux_wf(old(self)@),
            old(self)@.init_header,
            old(self)@.video_track is Some,
            old(self)@.video_track.unwrap().codec is HEVC,
            data@.len() <= DATA_MAX,
            old(self)@.fragment ==> old(self)@.fragment_id + data@.len() + 1 <= u32::MAX,
            !old(self)@.fragment ==> old(self)@.video_track.unwrap().samples.len() + data@.len()
                + 1 <= SAMPLES_MAX,
        ensures
            mux_wf(final(self)@),
            final(self)@ == hevc_fold(old(self)@, data@, split_spans(data@), duration, ct_offset),
    {
        let ghost d = data@;
        let ghost all = split_spans(d);
        let ghost m0 = old(self)@;
        proof {
            lemma_split_spans_props(d);
            assert(all.skip(0) =~= all);
        }
        let nalus = split_nalu(data);
        let n: usize = nalus.len();
        let mut i: usize = 0;
        while i < n
            invariant
                mux_wf(self@),
                self@.init_header,
                self@.video_track is Some,
                d == data@,
                d.len() <= DATA_MAX,
                all == split_spans(d),
                n == nalus@.len(),
                n == all.len(),
                n <= d.len() + 1,
                i <= n,
                forall|j: int|
                    0 <= j < n ==> (#[trigger] nalus@[j])@ == d.subrange(all[j].0, all[j].1),
                forall|j: int|
                    0 <= j < n ==> 0 <= (#[trigger] all[j]).0 <= all[j].1 <= d.len(),
                self@.fragment == m0.fragment,
                self@.video_track.unwrap().codec is HEVC,
                m0.fragment ==> self@.fragment_id <= m0.fragment_id + i,
                m0.fragment ==> m0.fragment_id + d.len() + 1 <= u32::MAX,
                !m0.fragment ==> self@.video_track.unwrap().samples.len()
                    <= m0.video_track.unwrap().samples.len() + i,
                !m0.fragment ==> m0.video_track.unwrap().samples.len() + d.len() + 1
                    <= SAMPLES_MAX,
                hevc_fold(m0, d, all, duration, ct_offset) == hevc_fold(
                    self@,
                    d,
                    all.skip(i as int),
                    duration,
                    ct_offset,
                ),
            decreases n - i,
        {
            let ghost prev = self@;
            let nal: &[u8] = nalus[i];
            proof {
                assert(nal@ == d.subrange(all[i as int].0, all[i as int].1));
                assert(nal@.len() <= d.len());
            }
            if nal.len() > 0 {
                let b0: u8 = *vstd::slice::slice_index_get(nal, 0);
                let nalu_type: u8 = (b0 & 0x7e) >> 1u8;
                if nalu_type == 32 {
                    match &mut self.video_track {
                        Option::Some(t) => {
                            if t.vps.is_none() && nal.len() <= 0xffff {
                                t.vps = Option::Some(vstd::slice::slice_to_vec(nal));
                            }
                        },
                        Option::None => {
                            proof {
                                assert(false);
                            }
                        },
                    }
                } else if nalu_type == 33 {
                    match &mut self.video_track {
                        Option::Some(t) => {
                            if t.sps.is_none() && nal.len() <= 0xffff {
                                t.sps = Option::Some(vstd::slice::slice_to_vec(nal));
                            }
                        },
                        Option::None => {
                            proof {
                                assert(false);
                            }
                        },
                    }
                } else if nalu_type == 34 {
                    match &mut self.video_track {
                        Option::Some(t) => {
                            if t.pps.is_none() && nal.len() <= 0xffff {
                                t.pps = Option::Some(vstd::slice::slice_to_vec(nal));
                            }
                        },
                        Option::None => {
                            proof {
                                assert(false);
                            }
                        },
                    }
                } else {
                    let mut have_config: bool = false;
                    match &self.video_track {
                        Option::Some(t) => {
                            have_config = t.vps.is_some() && t.sps.is_some() && t.pps.is_some();
                        },
                        Option::None => {
                            proof {
                                assert(false);
                            }
                        },
                    }
                    if have_config {
                        if 16 <= nalu_type && nalu_type <= 21 {
                            self.send_first_random_access = true;
                            self.put_sample(
                                nal,
                                duration,
                                true,
                                ct_offset,
                                SampleType::RandomAccess,
                            );
                        } else if self.send_first_random_access {
                            self.put_sample(nal, duration, true, ct_offset, SampleType::Default);
                        }
                    }
                }
            }
            proof {
                assert(self@ == hevc_nal_step(prev, nal@, duration, ct_offset));
                // the invariant clauses the solver needs spelled out one by one
                let mm = self@;
                assert(mm.video_track is Some && mm.video_track.unwrap().samples.len() > 0
                    ==> mm.video_track.unwrap().samples[0].random_access);
                assert(!mm.fragment && mm.send_first_random_access
                    ==> mm.video_track.unwrap().samples.len() >= 1);
                assert(mm.fragment && mm.send_first_random_access ==> mm.write_moov);
                assert(mm.video_track is Some ==> track_emit_ok(mm.video_track.unwrap()));
                assert(mux_wf(self@));
                assert(all.skip(i as int)[0] == all[i as int]);
                assert(hevc_fold(prev, d, all.skip(i as int), duration, ct_offset) == hevc_fold(
                    self@,
                    d,
                    all.skip(i as int).skip(1),
                    duration,
                    ct_offset,
                ));
                assert(all.skip(i as int).skip(1) =~= all.skip(i as int + 1));
            }
            i = i + 1;
        }
        proof {
            assert(all.skip(n as int) =~= Seq::<(int, int)>::empty());
        }
    }

    /// Converts the duration, accumulates it into the track and the
    /// movie, computes the composition offset, and dispatches on the
    /// codec.
    fn encode_video_inner(&mut self, data: &[u8], duration: u32, with_pts: bool, pts: u32)
        requires
            mux_wf(old(self)@),
            data@.len() <= DATA_MAX,
            old(self)@.video_track is Some ==> {
                let t = old(self)@.video_track.unwrap();
                &&& duration * t.timescale <= u32::MAX
                &&& t.duration + (duration * t.timescale) / 1000 <= u32::MAX
                &&& (old(self)@.fragment ==> old(self)@.fragment_id + data@.len() + 1
                    <= u32::MAX)
                &&& (!old(self)@.fragment ==> t.samples.len() + data@.len() + 1 <= SAMPLES_MAX)
            },
        ensures
            mux_wf(final(self)@),
            final(self)@ == encode_video_core(old(self)@, data@, duration, with_pts, pts),
    {
        self.init_header_if_needed();
        let ghost m1 = with_header(old(self)@);
        if self.video_track.is_some() {
            let mut ticks: u32 = 0;
            let mut ct: i32 = 0;
            let mut which: u8 = 0;
            match &mut self.video_track {
                Option::Some(t) => {
                    ticks = duration * t.timescale / 1000;
                    t.duration = t.duration + ticks;
                    if t.duration > self.duration {
                        self.duration = t.duration;
                    }
                    if with_pts {
                        proof {
                            assert(t.timescale == 90000);
                        }
                        let ct64: i64 = (pts as i64) * (t.timescale as i64) / 1000 - (
                        t.duration as i64);
                        ct = #[verifier::truncate] (ct64 as i32);
                    }
                    match t.codec {
                        Codec::AVC => {
                            which = 1;
                        },
                        Codec::HEVC => {
                            which = 2;
                        },
                        _ => {
                            which = 0;
                        },
                    }
                },
                Option::None => {
                    proof {
                        assert(false);
                    }
                },
            }
            if which == 1 {
                self.write_avc_frame(data, ticks, ct);
            } else if which == 2 {
                self.write_hevc_frame(data, ticks, ct);
            }
        }
    }

    /// Writes one video access unit with the given duration in
    /// milliseconds and no composition offset.
    pub fn encode_video(&mut self, data: &[u8], duration: u32)
        requires
            mux_wf(old(self)@),
            data@.len() <= DATA_MAX,
            old(self)@.video_track is Some ==> {
                let t = old(self)@.video_track.unwrap();
                &&& duration * t.timescale <= u32::MAX
                &&& t.duration + (duration * t.timescale) / 1000 <= u32::MAX
                &&& (old(self)@.fragment ==> old(self)@.fragment_id + data@.len() + 1
                    <= u32::MAX)
                &&& (!old(self)@.fragment ==> t.samples.len() + data@.len() + 1 <= SAMPLES_MAX)
            },
        ensures
            mux_wf(final(self)@),
            final(self)@ == encode_video_spec(old(self)@, data@, duration),
    {
        self.encode_video_inner(data, duration, false, 0);
    }

    /// Writes one video access unit with a presentation timestamp in
    /// milliseconds: the composition-time offset becomes
    /// `pts*timescale/1000` minus the accumulated track duration.
    pub fn encode_video_with_pts(&mut self, data: &[u8], duration: u32, pts: u32)
        requires
            mux_wf(old(self)@),
            data@.len() <= DATA_MAX,
            old(self)@.video_track is Some ==> {
                let t = old(self)@.video_track.unwrap();
                &&& duration * t.timescale <= u32::MAX
                &&& t.duration + (duration * t.timescale) / 1000 <= u32::MAX
                &&& (old(self)@.fragment ==> old(self)@.fragment_id + data@.len() + 1
                    <= u32::MAX)
                &&& (!old(self)@.fragment ==> t.samples.len() + data@.len() + 1 <= SAMPLES_MAX)
            },
        ensures
            mux_wf(final(self)@),
            final(self)@ == encode_video_with_pts_spec(old(self)@, data@, duration, pts),
    {
        self.encode_video_inner(data, duration, true, pts);
    }

    /// Writes one audio access unit whose duration is `samples` ticks of
    /// the audio timescale. Audio arriving before the first video key
    /// frame is dropped.
    pub fn encode_audio(&mut self, data: &[u8], samples: u32)
        requires
            mux_wf(old(self)@),
            data@.len() <= DATA_MAX,
            old(self)@.audio_track is Some && old(self)@.send_first_random_access ==> {
                let t = old(self)@.audio_track.unwrap();
                &&& t.duration + samples <= u32::MAX
                &&& (!old(self)@.fragment ==> t.samples.len() < SAMPLES_MAX)
                &&& (old(self)@.fragment ==> old(self)@.fragment_id < u32::MAX)
            },
        ensures
            mux_wf(final(self)@),
            final(self)@ == encode_audio_spec(old(self)@, data@, samples),
    {
        self.init_header_if_needed();
        let mut go: bool = false;
        if self.audio_track.is_some() && self.send_first_random_access {
            match &mut self.audio_track {
                Option::Some(t) => {
                    t.duration = t.duration + samples;
                },
                Option::None => {
                    proof {
                        assert(false);
                    }
                },
            }
            go = true;
        }
        if go {
            self.put_sample(data, samples, false, 0, SampleType::RandomAccess);
        }
    }

    /// Backpatches the 64-bit `mdat` size at offset 40 to everything
    /// written so far beyond the 32-byte `ftyp` box.
    fn write_mdat_size(&mut self)
        requires
            mux_wf(old(self)@),
            old(self)@.init_header,
            !old(self)@.fragment,
        ensures
            mux_wf(final(self)@),
            final(self)@ == (MuxV {
                out: old(self)@.out.update_subrange_with(
                    40,
                    u64_be((old(self)@.write_pos - 32) as u64),
                ),
                ..old(self)@
            }),
    {
        let size: u64 = self.write_pos - 32;
        self.out[40] = (size >> 56) as u8;
        self.out[41] = (size >> 48) as u8;
        self.out[42] = (size >> 40) as u8;
        self.out[43] = (size >> 32) as u8;
        self.out[44] = (size >> 24) as u8;
        self.out[45] = (size >> 16) as u8;
        self.out[46] = (size >> 8) as u8;
        self.out[47] = size as u8;
        proof {
            assert(self.out@ =~= old(self)@.out.update_subrange_with(40, u64_be(size)));
            assert(self.out@.subrange(0, 40) =~= old(self)@.out.subrange(0, 40));
        }
    }

    /// Finalizes the stream: in non-fragmented mode backpatches the
    /// `mdat` size and emits the `moov` box, once; in fragmented mode
    /// only ensures the header was emitted.
    pub fn flush(&mut self)
        requires
            mux_wf(old(self)@),
            !old(self)@.fragment && !old(self)@.write_moov ==> old(self)@.video_track is Some,
        ensures
            mux_wf(final(self)@),
            final(self)@ == flush_spec(old(self)@),
    {
        self.init_header_if_needed();
        if !self.fragment && !self.write_moov {
            self.write_mdat_size();
            self.write_moov_if_needed();
        }
    }
}

} // verus!
