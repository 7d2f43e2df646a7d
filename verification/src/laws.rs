//! Global properties of the muxer, stated and proved over its
//! mathematical model.

use vstd::prelude::*;

use crate::boxes::{
    chunk_offset_bytes, co64_bytes, ct_offsets, ctts_opt_bytes, deltas, has_ct_offsets,
    lemma_moof_len, lemma_rle_roundtrip, lemma_trak_len, mdat_frag_bytes, moof_bytes, moof_len_of,
    moov_bytes, mvhd_bytes, pairs_total, rle, rle_expand, stco_bytes, tracks_bytes, T_CO64,
    T_MOOV, T_STCO,
};
use crate::bytes::{
    be32_at, be64_at, box_bytes, lemma_be32_roundtrip, lemma_be64_roundtrip, u32_be, u64_be,
};
use crate::mp4e::{flush_spec, mux_wf, nonfrag_prefix, put_sample_spec, with_header, MuxV};
use crate::types::{track_emit_ok, SampleInfo, SampleType, TrackV};

verus! {

/// The whole `moov` box stays under the 32-bit box size limit.
pub proof fn lemma_moov_len_bound(
    video: Option<TrackV>,
    audio: Option<TrackV>,
    create_time: u64,
    track_ids: u32,
    language: Seq<u8>,
    fragment: bool,
)
    requires
        video is Some,
        track_emit_ok(video.unwrap()),
        audio is Some ==> track_emit_ok(audio.unwrap()),
    ensures
        8 <= moov_bytes(video, audio, create_time, track_ids, language, fragment).len()
            <= 0x4500_0000,
{
    reveal(moov_bytes);
    lemma_trak_len(language, fragment, video.unwrap());
    if audio is Some {
        lemma_trak_len(language, fragment, audio.unwrap());
    }
}

/// For any track with at least one recorded sample, the first sample is a
/// random access point; likewise for audio, where every sample is one.
pub proof fn lemma_first_sample_random_access(m: MuxV)
    requires
        mux_wf(m),
    ensures
        m.video_track is Some && m.video_track.unwrap().samples.len() > 0
            ==> m.video_track.unwrap().samples[0].random_access,
        m.audio_track is Some && m.audio_track.unwrap().samples.len() > 0
            ==> m.audio_track.unwrap().samples[0].random_access,
{
}

/// The `stts` and `ctts` run-length tables are lossless and complete:
/// expanding the `(count, value)` pairs reproduces the per-sample delta
/// and composition-offset sequences, and the counts sum to the number of
/// samples.
pub proof fn lemma_time_table_roundtrip(samples: Seq<SampleInfo>)
    requires
        samples.len() <= u32::MAX,
    ensures
        rle_expand(rle(deltas(samples))) == deltas(samples),
        pairs_total(rle(deltas(samples))) == samples.len(),
        rle_expand(rle(ct_offsets(samples))) == ct_offsets(samples),
        pairs_total(rle(ct_offsets(samples))) == samples.len(),
{
    lemma_rle_roundtrip(deltas(samples));
    lemma_rle_roundtrip(ct_offsets(samples));
}

/// The `ctts` box is emitted exactly when some sample has a non-zero
/// composition-time offset.
pub proof fn lemma_ctts_presence(samples: Seq<SampleInfo>)
    ensures
        ctts_opt_bytes(samples).len() > 0 <==> has_ct_offsets(samples),
{
}

/// The chunk-offset box is `stco` exactly when the last sample's offset
/// fits in 32 bits, and `co64` otherwise; the chosen box carries its type
/// code in its type field.
pub proof fn lemma_chunk_offset_box_choice(samples: Seq<SampleInfo>)
    requires
        samples.len() > 0,
    ensures
        samples.last().offset <= 0xffffffff ==> chunk_offset_bytes(samples) == stco_bytes(samples)
            && be32_at(chunk_offset_bytes(samples), 4) == T_STCO,
        samples.last().offset > 0xffffffff ==> chunk_offset_bytes(samples) == co64_bytes(samples)
            && be32_at(chunk_offset_bytes(samples), 4) == T_CO64,
{
    if samples.last().offset <= 0xffffffff {
        lemma_be32_roundtrip(T_STCO);
        assert(stco_bytes(samples).subrange(4, 8) =~= u32_be(T_STCO));
        assert(be32_at(stco_bytes(samples), 4) == be32_at(u32_be(T_STCO), 0));
    } else {
        lemma_be32_roundtrip(T_CO64);
        assert(co64_bytes(samples).subrange(4, 8) =~= u32_be(T_CO64));
        assert(be32_at(co64_bytes(samples), 4) == be32_at(u32_be(T_CO64), 0));
    }
}

/// Finalizing a non-fragmented stream yields a file whose top-level box
/// sizes account for every byte: the `ftyp` size is 32, the backpatched
/// 64-bit `mdat` size at offset 40 equals the total size minus 32 minus
/// the `moov` size, the `moov` size field equals the `moov` length, and
/// the three sizes sum to the file length.
pub proof fn lemma_nonfragmented_file_layout(m: MuxV)
    requires
        mux_wf(m),
        !m.fragment,
        !m.write_moov,
        m.video_track is Some,
    ensures
        ({
            let m1 = with_header(m);
            let f = flush_spec(m);
            let moov = moov_bytes(
                m1.video_track,
                m1.audio_track,
                m1.create_time,
                m1.track_ids,
                m1.language,
                false,
            );
            &&& f.out.len() == m1.write_pos + moov.len()
            &&& be32_at(f.out, 0) == 32
            &&& be64_at(f.out, 40) == f.out.len() - 32 - moov.len()
            &&& be32_at(f.out, m1.write_pos as int) == moov.len()
            &&& 32 + be64_at(f.out, 40) + be32_at(f.out, m1.write_pos as int) == f.out.len()
        }),
{
    let m1 = with_header(m);
    let f = flush_spec(m);
    let moov = moov_bytes(m1.video_track, m1.audio_track, m1.create_time, m1.track_ids, m1.language, false);
    assert(m1.video_track == m.video_track && m1.audio_track == m.audio_track);
    lemma_moov_len_bound(m1.video_track, m1.audio_track, m1.create_time, m1.track_ids, m1.language, false);
    if !m.init_header {
        assert(m1.out =~= crate::boxes::ftyp_bytes() + crate::boxes::mdat_header_bytes());
        assert(m1.out.subrange(0, 40) =~= nonfrag_prefix());
        assert(m1.out.len() == 48);
        assert(m1.write_pos == 48);
    }
    assert(m1.write_pos == m1.out.len());
    assert(m1.out.len() >= 48);
    assert(m1.out.subrange(0, 40) == nonfrag_prefix());
    let w = m1.write_pos as int;
    let size64: u64 = (m1.write_pos - 32) as u64;
    let patched = m1.out.update_subrange_with(40, u64_be(size64));
    assert(f.out == patched + moov);
    assert(patched.len() == m1.out.len());
    assert(f.out.len() == w + moov.len());
    assert forall|k: int| 0 <= k < 40 implies #[trigger] m1.out[k] == nonfrag_prefix()[k] by {
        assert(m1.out.subrange(0, 40)[k] == m1.out[k]);
        assert(m1.out.subrange(0, 40)[k] == nonfrag_prefix()[k]);
    }
    // the ftyp size field is untouched by the backpatch
    lemma_be32_roundtrip(0x20);
    assert(f.out.subrange(0, 4) =~= u32_be(0x20));
    assert(be32_at(f.out, 0) == be32_at(u32_be(0x20), 0));
    // the backpatched mdat size
    lemma_be64_roundtrip(size64);
    assert(f.out.subrange(40, 48) =~= u64_be(size64));
    assert(be64_at(f.out, 40) == be64_at(u64_be(size64), 0));
    // the moov size field
    reveal(crate::boxes::moov_bytes);
    let moov_body = mvhd_bytes(
        m1.create_time,
        m1.video_track.unwrap().duration,
        m1.video_track.unwrap().timescale,
        m1.track_ids,
    ) + tracks_bytes(m1.language, false, m1.video_track, m1.audio_track) + Seq::<u8>::empty();
    assert(moov == box_bytes(T_MOOV, moov_body));
    assert(moov.len() == moov_body.len() + 8);
    let msize: u32 = (moov_body.len() + 8) as u32;
    lemma_be32_roundtrip(msize);
    assert(f.out.subrange(w, w + 4) =~= u32_be(msize));
    assert(be32_at(f.out, w) == be32_at(u32_be(msize), 0));
}

/// Fragment numbering: writing a sample in fragmented mode increments the
/// sequence counter by exactly 1, and the emitted `moof` carries that
/// number in its `mfhd` box, so consecutive fragments are numbered
/// 1, 2, 3, ... from the first.
pub proof fn lemma_fragment_sequence_number(
    m: MuxV,
    data: Seq<u8>,
    duration: u32,
    video: bool,
    ct_offset: i32,
    st: SampleType,
)
    requires
        m.fragment,
        m.write_moov,
        m.fragment_id < u32::MAX,
        data.len() <= 0x0FFF_FFFF,
        video ==> m.video_track is Some,
        !video ==> m.audio_track is Some,
    ensures
        ({
            let f = put_sample_spec(m, data, duration, video, ct_offset, st);
            &&& f.fragment_id == m.fragment_id + 1
            &&& f.out.len() == m.out.len() + moof_len_of(video, st) + mdat_frag_bytes(
                data,
                video,
            ).len()
            &&& be32_at(f.out, m.out.len() as int + 20) == m.fragment_id + 1
        }),
{
    let f = put_sample_spec(m, data, duration, video, ct_offset, st);
    let fid: u32 = (m.fragment_id + 1) as u32;
    let t = if video {
        m.video_track.unwrap()
    } else {
        m.audio_track.unwrap()
    };
    let moof = moof_bytes(fid, t.id, video, st, (data.len() + 4) as u32, duration, ct_offset);
    lemma_moof_len(fid, t.id, video, st, (data.len() + 4) as u32, duration, ct_offset);
    assert(f.out == m.out + (moof + mdat_frag_bytes(data, video)));
    reveal(crate::boxes::moof_bytes);
    lemma_be32_roundtrip(fid);
    assert(moof.subrange(20, 24) =~= u32_be(fid));
    assert(f.out.subrange(m.out.len() as int + 20, m.out.len() as int + 24) =~= u32_be(fid));
    assert(be32_at(f.out, m.out.len() as int + 20) == be32_at(u32_be(fid), 0));
}

/// The run's data offset in a fragment's `moof` equals the length of the
/// `moof` plus the 8-byte `mdat` header: it addresses the first payload
/// byte of the following `mdat`, relative to the start of the `moof`.
pub proof fn lemma_trun_data_offset(
    fragment_id: u32,
    track_id: u32,
    video: bool,
    st: SampleType,
    data_size: u32,
    sample_duration: u32,
    ct_offset: i32,
)
    ensures
        be32_at(
            moof_bytes(fragment_id, track_id, video, st, data_size, sample_duration, ct_offset),
            68,
        ) == moof_len_of(video, st) + 8,
{
    let moof = moof_bytes(fragment_id, track_id, video, st, data_size, sample_duration, ct_offset);
    let doffset: u32 = (moof_len_of(video, st) + 8) as u32;
    reveal(crate::boxes::moof_bytes);
    lemma_be32_roundtrip(doffset);
    assert(moof.subrange(68, 72) =~= u32_be(doffset));
    assert(be32_at(moof, 68) == be32_at(u32_be(doffset), 0));
}

/// A fragment's two boxes account for every byte of the chunk: the `moof`
/// size field plus the `mdat` size field equals the chunk's length.
pub proof fn lemma_fragment_chunk_sizes(
    fragment_id: u32,
    track_id: u32,
    video: bool,
    st: SampleType,
    data: Seq<u8>,
    sample_duration: u32,
    ct_offset: i32,
)
    requires
        data.len() <= 0x0FFF_FFFF,
    ensures
        ({
            let moof = moof_bytes(
                fragment_id,
                track_id,
                video,
                st,
                (data.len() + 4) as u32,
                sample_duration,
                ct_offset,
            );
            let chunk = moof + mdat_frag_bytes(data, video);
            be32_at(chunk, 0) + be32_at(chunk, moof.len() as int) == chunk.len()
        }),
{
    let moof = moof_bytes(
        fragment_id,
        track_id,
        video,
        st,
        (data.len() + 4) as u32,
        sample_duration,
        ct_offset,
    );
    let mdat = mdat_frag_bytes(data, video);
    let chunk = moof + mdat;
    lemma_moof_len(fragment_id, track_id, video, st, (data.len() + 4) as u32, sample_duration, ct_offset);
    reveal(crate::boxes::moof_bytes);
    let msize: u32 = (moof_len_of(video, st)) as u32;
    lemma_be32_roundtrip(msize);
    assert(chunk.subrange(0, 4) =~= u32_be(msize));
    assert(be32_at(chunk, 0) == be32_at(u32_be(msize), 0));
    let dsize: u32 = if video {
        (data.len() + 12) as u32
    } else {
        (data.len() + 8) as u32
    };
    lemma_be32_roundtrip(dsize);
    assert(chunk.subrange(moof.len() as int, moof.len() as int + 4) =~= u32_be(dsize));
    assert(be32_at(chunk, moof.len() as int) == be32_at(u32_be(dsize), 0));
}

/// One classifier step never removes samples, never changes the timing of
/// already-recorded samples, and stamps every sample it records with the
/// call's delta and composition offset.
proof fn lemma_avc_step_samples(m: MuxV, nal: Seq<u8>, dur: u32, ct: i32)
    requires
        !m.fragment,
        m.video_track is Some,
    ensures
        ({
            let f = crate::mp4e::avc_nal_step(m, nal, dur, ct);
            let old_s = m.video_track.unwrap().samples;
            let new_s = f.video_track.unwrap().samples;
            &&& f.video_track is Some
            &&& f.fragment == m.fragment
            &&& new_s.len() >= old_s.len()
            &&& forall|j: int|
                0 <= j < old_s.len() ==> (#[trigger] new_s[j]).sample_ct_offset
                    == old_s[j].sample_ct_offset && new_s[j].sample_delta == old_s[j].sample_delta
            &&& forall|j: int|
                old_s.len() <= j < new_s.len() ==> (#[trigger] new_s[j]).sample_ct_offset == ct
                    && new_s[j].sample_delta == dur
        }),
{
}

/// The same, for an HEVC classifier step.
proof fn lemma_hevc_step_samples(m: MuxV, nal: Seq<u8>, dur: u32, ct: i32)
    requires
        !m.fragment,
        m.video_track is Some,
    ensures
        ({
            let f = crate::mp4e::hevc_nal_step(m, nal, dur, ct);
            let old_s = m.video_track.unwrap().samples;
            let new_s = f.video_track.unwrap().samples;
            &&& f.video_track is Some
            &&& f.fragment == m.fragment
            &&& new_s.len() >= old_s.len()
            &&& forall|j: int|
                0 <= j < old_s.len() ==> (#[trigger] new_s[j]).sample_ct_offset
                    == old_s[j].sample_ct_offset && new_s[j].sample_delta == old_s[j].sample_delta
            &&& forall|j: int|
                old_s.len() <= j < new_s.len() ==> (#[trigger] new_s[j]).sample_ct_offset == ct
                    && new_s[j].sample_delta == dur
        }),
{
}

/// The same, folded over all NAL units of one call.
proof fn lemma_avc_fold_samples(m: MuxV, d: Seq<u8>, spans: Seq<(int, int)>, dur: u32, ct: i32)
    requires
        !m.fragment,
        m.video_track is Some,
    ensures
        ({
            let f = crate::mp4e::avc_fold(m, d, spans, dur, ct);
            let old_s = m.video_track.unwrap().samples;
            let new_s = f.video_track.unwrap().samples;
            &&& f.video_track is Some
            &&& f.fragment == m.fragment
            &&& new_s.len() >= old_s.len()
            &&& forall|j: int|
                0 <= j < old_s.len() ==> (#[trigger] new_s[j]).sample_ct_offset
                    == old_s[j].sample_ct_offset && new_s[j].sample_delta == old_s[j].sample_delta
            &&& forall|j: int|
                old_s.len() <= j < new_s.len() ==> (#[trigger] new_s[j]).sample_ct_offset == ct
                    && new_s[j].sample_delta == dur
        }),
    decreases spans.len(),
{
    if spans.len() > 0 {
        let m2 = crate::mp4e::avc_nal_step(m, d.subrange(spans[0].0, spans[0].1), dur, ct);
        lemma_avc_step_samples(m, d.subrange(spans[0].0, spans[0].1), dur, ct);
        lemma_avc_fold_samples(m2, d, spans.skip(1), dur, ct);
    }
}

/// The same, folded over all NAL units of one HEVC call.
proof fn lemma_hevc_fold_samples(m: MuxV, d: Seq<u8>, spans: Seq<(int, int)>, dur: u32, ct: i32)
    requires
        !m.fragment,
        m.video_track is Some,
    ensures
        ({
            let f = crate::mp4e::hevc_fold(m, d, spans, dur, ct);
            let old_s = m.video_track.unwrap().samples;
            let new_s = f.video_track.unwrap().samples;
            &&& f.video_track is Some
            &&& f.fragment == m.fragment
            &&& new_s.len() >= old_s.len()
            &&& forall|j: int|
                0 <= j < old_s.len() ==> (#[trigger] new_s[j]).sample_ct_offset
                    == old_s[j].sample_ct_offset && new_s[j].sample_delta == old_s[j].sample_delta
            &&& forall|j: int|
                old_s.len() <= j < new_s.len() ==> (#[trigger] new_s[j]).sample_ct_offset == ct
                    && new_s[j].sample_delta == dur
        }),
    decreases spans.len(),
{
    if spans.len() > 0 {
        let m2 = crate::mp4e::hevc_nal_step(m, d.subrange(spans[0].0, spans[0].1), dur, ct);
        lemma_hevc_step_samples(m, d.subrange(spans[0].0, spans[0].1), dur, ct);
        lemma_hevc_fold_samples(m2, d, spans.skip(1), dur, ct);
    }
}

/// Writing with a presentation timestamp stamps every sample the call
/// records with a composition-time offset of `pts*timescale/1000` minus
/// the track duration accumulated through this call, and a decode delta
/// of the converted duration; earlier samples keep their timing.
pub proof fn lemma_pts_composition_offset(m: MuxV, data: Seq<u8>, duration_ms: u32, pts: u32)
    requires
        mux_wf(m),
        !m.fragment,
        m.video_track is Some,
    ensures
        ({
            let m1 = with_header(m);
            let t = m1.video_track.unwrap();
            let ticks = ((duration_ms * t.timescale) / 1000) as u32;
            let newdur = (t.duration + ticks) as u32;
            let ctv = (((pts as i64) * (t.timescale as i64) / 1000 - (newdur as i64)) as i32);
            let f = crate::mp4e::encode_video_with_pts_spec(m, data, duration_ms, pts);
            let old_s = m.video_track.unwrap().samples;
            let new_s = f.video_track.unwrap().samples;
            &&& f.video_track is Some
            &&& new_s.len() >= old_s.len()
            &&& forall|j: int|
                0 <= j < old_s.len() ==> (#[trigger] new_s[j]).sample_ct_offset
                    == old_s[j].sample_ct_offset
            &&& forall|j: int|
                old_s.len() <= j < new_s.len() ==> (#[trigger] new_s[j]).sample_ct_offset == ctv
                    && new_s[j].sample_delta == ticks
        }),
{
    let m1 = with_header(m);
    let t = m1.video_track.unwrap();
    let ticks = ((duration_ms * t.timescale) / 1000) as u32;
    let newdur = (t.duration + ticks) as u32;
    let ctv = (((pts as i64) * (t.timescale as i64) / 1000 - (newdur as i64)) as i32);
    let gdur = if newdur > m1.duration {
        newdur
    } else {
        m1.duration
    };
    let m2 = MuxV {
        video_track: Option::Some(TrackV { duration: newdur, ..t }),
        duration: gdur,
        ..m1
    };
    match t.codec {
        crate::types::Codec::AVC => {
            lemma_avc_fold_samples(m2, data, crate::nalu::split_spans(data), ticks, ctv);
        },
        crate::types::Codec::HEVC => {
            lemma_hevc_fold_samples(m2, data, crate::nalu::split_spans(data), ticks, ctv);
        },
        _ => {},
    }
}

} // verus!
