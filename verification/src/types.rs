//! Core data types of the muxer: sample classification, codecs, tracks.

use vstd::prelude::*;

verus! {

/// How an access unit relates to the samples around it.
pub enum SampleType {
    /// An ordinary sample.
    Default,
    /// A random access sample (key frame).
    RandomAccess,
    /// A NAL unit that continues the previous sample.
    Continuation,
}

/// The codecs the muxer can describe in a sample entry.
#[derive(Clone, Copy)]
pub enum Codec {
    /// H.264/AVC video.
    AVC,
    /// H.265/HEVC video.
    HEVC,
    /// AAC-LC audio.
    AACLC,
    /// AAC Main audio.
    AACMAIN,
    /// AAC SSR audio.
    AACSSR,
    /// AAC LTP audio.
    AACLTP,
    /// HE-AAC audio.
    HEAAC,
    /// HE-AAC v2 audio.
    HEAACV2,
    /// Opus audio.
    OPUS,
}

/// Whether a track carries video or audio.
pub enum TrackType {
    /// A video track.
    Video,
    /// An audio track.
    Audio,
}

/// Bookkeeping for a single recorded access unit.
pub struct SampleInfo {
    /// Whether this sample is a random access point.
    pub random_access: bool,
    /// Absolute byte offset of the sample in the output stream.
    pub offset: u64,
    /// Size of the sample in bytes (for video, inclusive of the 4-byte
    /// NAL length prefix).
    pub sample_size: u32,
    /// Decode duration of the sample in the track's timescale.
    pub sample_delta: u32,
    /// Composition-time offset in the track's timescale.
    pub sample_ct_offset: i32,
}

/// Per-track state: identity, timing, codec configuration and the sample table.
pub struct Track {
    /// Track id, allocated from 1 upward.
    pub id: u32,
    /// Accumulated duration in the track's timescale.
    pub duration: u32,
    /// Ticks per second for this track.
    pub timescale: u32,
    /// Audio sample rate in Hz.
    pub sample_rate: u32,
    /// Audio channel count.
    pub channel_count: u32,
    /// Video width in pixels.
    pub width: u32,
    /// Video height in pixels.
    pub height: u32,
    /// The codec of this track's samples.
    pub codec: Codec,
    /// Captured video parameter set (HEVC only).
    pub vps: Option<Vec<u8>>,
    /// Captured sequence parameter set.
    pub sps: Option<Vec<u8>>,
    /// Captured picture parameter set.
    pub pps: Option<Vec<u8>>,
    /// AAC decoder-specific info (2 bytes).
    pub dsi: Option<Vec<u8>>,
    /// The recorded samples, in decode order.
    pub samples: Vec<SampleInfo>,
    /// Whether this track carries video or audio.
    pub track_type: TrackType,
}

/// Mathematical view of a [`Track`].
pub ghost struct TrackV {
    pub id: u32,
    pub duration: u32,
    pub timescale: u32,
    pub sample_rate: u32,
    pub channel_count: u32,
    pub width: u32,
    pub height: u32,
    pub codec: Codec,
    pub vps: Option<Seq<u8>>,
    pub sps: Option<Seq<u8>>,
    pub pps: Option<Seq<u8>>,
    pub dsi: Option<Seq<u8>>,
    pub samples: Seq<SampleInfo>,
    pub track_type: TrackType,
}

pub open spec fn opt_bytes_view(o: Option<Vec<u8>>) -> Option<Seq<u8>> {
    match o {
        Option::Some(v) => Option::Some(v@),
        Option::None => Option::None,
    }
}

impl View for Track {
    type V = TrackV;

    open spec fn view(&self) -> TrackV {
        TrackV {
            id: self.id,
            duration: self.duration,
            timescale: self.timescale,
            sample_rate: self.sample_rate,
            channel_count: self.channel_count,
            width: self.width,
            height: self.height,
            codec: self.codec,
            vps: opt_bytes_view(self.vps),
            sps: opt_bytes_view(self.sps),
            pps: opt_bytes_view(self.pps),
            dsi: opt_bytes_view(self.dsi),
            samples: self.samples@,
            track_type: self.track_type,
        }
    }
}

pub open spec fn opt_track_view(o: &Option<Track>) -> Option<TrackV> {
    match o {
        Option::Some(t) => Option::Some(t@),
        Option::None => Option::None,
    }
}

/// The machine-limit bounds a track must satisfy so that its metadata boxes
/// can be serialized: a timescale of at least 1000 (the movie timescale),
/// dimensions and channel count within 16 bits, parameter sets within the
/// 16-bit length fields, a 2-byte decoder-specific info, and a sample table
/// the 32-bit box sizes can describe.
pub open spec fn track_emit_ok(t: TrackV) -> bool {
    &&& t.timescale >= 1000
    &&& t.width <= 0xffff
    &&& t.height <= 0xffff
    &&& t.channel_count <= 0xffff
    &&& t.samples.len() <= 0x0100_0000
    &&& (t.vps is Some ==> 1 <= t.vps.unwrap().len() <= 0xffff)
    &&& (t.sps is Some ==> 1 <= t.sps.unwrap().len() <= 0xffff)
    &&& (t.pps is Some ==> 1 <= t.pps.unwrap().len() <= 0xffff)
    &&& (t.codec is AVC && t.sps is Some ==> t.sps.unwrap().len() >= 4)
    &&& (t.dsi is Some ==> t.dsi.unwrap().len() == 2)
}

} // verus!
