//! A streaming MP4 (ISO Base Media File Format) multiplexer.
//!
//! The muxer consumes elementary-stream video (H.264/AVC, H.265/HEVC as
//! Annex-B NAL unit streams) and audio (AAC, Opus) access units and produces
//! a valid MP4 byte stream, either as a single `moov`-at-end file or as a
//! fragmented `ftyp` + `moov` + (`moof` + `mdat`)* stream.

pub mod bytes;
pub mod types;
pub mod util;
pub mod nalu;
pub mod boxes;
pub mod mp4e;
pub mod laws;

pub use mp4e::Mp4e;
pub use types::{Codec, SampleInfo, SampleType, Track, TrackType};
