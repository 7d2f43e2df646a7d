use mp4e::{Codec, Mp4e};

/// Returns the position of the 4-byte box type `code`, searching from
/// `from`; the box itself starts 4 bytes earlier.
fn find_box(out: &[u8], code: &[u8; 4], from: usize) -> usize {
    let mut i = from;
    while i + 4 <= out.len() {
        if &out[i..i + 4] == code {
            return i;
        }
        i += 1;
    }
    panic!();
}

fn read_u32(out: &[u8], at: usize) -> u32 {
    (out[at] as u32) << 24 | (out[at + 1] as u32) << 16 | (out[at + 2] as u32) << 8 | out[at
        + 3] as u32
}

fn read_u64(out: &[u8], at: usize) -> u64 {
    (read_u32(out, at) as u64) << 32 | read_u32(out, at + 4) as u64
}

fn annexb(nals: &[&[u8]]) -> Vec<u8> {
    let mut data: Vec<u8> = Vec::new();
    for nal in nals {
        data.extend_from_slice(&[0, 0, 0, 1]);
        data.extend_from_slice(nal);
    }
    data
}

const SPS: [u8; 5] = [0x67, 0x42, 0xC0, 0x0D, 0xF4];
const PPS: [u8; 2] = [0x68, 0xE1];
// an IDR slice whose first bit after the type byte is 1: first_mb_in_slice = 0
const IDR: [u8; 4] = [0x65, 0x88, 0x84, 0x00];
// a non-IDR slice with first_mb_in_slice = 0
const SLICE: [u8; 5] = [0x41, 0x9A, 0x00, 0x00, 0x11];
// a non-IDR slice with first_mb_in_slice = 1 (Exp-Golomb "010"): a
// continuation of the previous sample
const CONT: [u8; 3] = [0x41, 0x40, 0x00];

#[test]
fn avc_single_idr_non_fragmented() {
    let mut m = Mp4e::new();
    m.set_video_track(1920, 1080, Codec::AVC);
    m.encode_video(&annexb(&[&SPS, &PPS, &IDR]), 33);
    m.flush();
    let out = m.output().clone();

    // ftyp literal
    assert_eq!(&out[0..32], b"\x00\x00\x00\x20ftypisom\x00\x00\x00\x00mp41isomiso6iso2");
    // mdat large-size header
    assert_eq!(&out[32..36], &[0, 0, 0, 1]);
    assert_eq!(&out[36..40], b"mdat");
    // payload: 4-byte NAL length prefix then the IDR bytes
    assert_eq!(read_u32(&out, 48), IDR.len() as u32);
    assert_eq!(&out[52..52 + IDR.len()], &IDR);
    // mdat size field: 16-byte header plus the one sample
    assert_eq!(read_u64(&out, 40), 16 + 4 + IDR.len() as u64);
    // the moov starts right after the payload
    let moov_start = 52 + IDR.len();
    assert_eq!(&out[moov_start + 4..moov_start + 8], b"moov");
    // the top-level box sizes account for every byte
    let ftyp_size = read_u32(&out, 0) as u64;
    let mdat_size = read_u64(&out, 40);
    let moov_size = read_u32(&out, moov_start) as u64;
    assert_eq!(ftyp_size + mdat_size + moov_size, out.len() as u64);

    // one random-access sample was recorded
    let vt = m.video_track.as_ref().unwrap();
    assert_eq!(vt.samples.len(), 1);
    assert!(vt.samples[0].random_access);
    assert_eq!(vt.samples[0].sample_delta, 2970);

    // stts holds one run: (1, 2970)
    let stts = find_box(&out, b"stts", 0);
    assert_eq!(read_u32(&out, stts + 8), 1);
    assert_eq!(read_u32(&out, stts + 12), 1);
    assert_eq!(read_u32(&out, stts + 16), 2970);
    // stss lists sample 1
    let stss = find_box(&out, b"stss", 0);
    assert_eq!(read_u32(&out, stss + 8), 1);
    assert_eq!(read_u32(&out, stss + 12), 1);
    // tkhd duration is in the movie timescale: 33
    let tkhd = find_box(&out, b"tkhd", 0);
    assert_eq!(read_u32(&out, tkhd + 24), 33);
    // no ctts: every composition offset is zero
    let mut has_ctts = false;
    for i in 0..out.len() - 4 {
        if &out[i..i + 4] == b"ctts" {
            has_ctts = true;
        }
    }
    assert!(!has_ctts);
    // the captured parameter sets are embedded in the avcC box
    let avcc = find_box(&out, b"avcC", 0);
    assert_eq!(read_u32(&out, avcc + 4) >> 24, 1); // configurationVersion
    let sps_len = ((out[avcc + 10] as usize) << 8) | out[avcc + 11] as usize;
    assert_eq!(sps_len, SPS.len());
    assert_eq!(&out[avcc + 12..avcc + 12 + SPS.len()], &SPS);
    let pps_at = avcc + 12 + SPS.len();
    assert_eq!(out[pps_at], 1); // one picture parameter set
    let pps_len = ((out[pps_at + 1] as usize) << 8) | out[pps_at + 2] as usize;
    assert_eq!(pps_len, PPS.len());
    assert_eq!(&out[pps_at + 3..pps_at + 3 + PPS.len()], &PPS);
    // stsz agrees with the sample table
    let stsz = find_box(&out, b"stsz", 0);
    assert_eq!(read_u32(&out, stsz + 12), 1); // sample count
    assert_eq!(read_u32(&out, stsz + 16), 4 + IDR.len() as u32);
}

#[test]
fn avc_continuation_merges_into_previous_sample() {
    let mut m = Mp4e::new();
    m.set_video_track(640, 480, Codec::AVC);
    m.encode_video(&annexb(&[&SPS, &PPS, &IDR, &SLICE, &CONT]), 33);
    m.flush();
    let vt = m.video_track.as_ref().unwrap();
    assert_eq!(vt.samples.len(), 2);
    assert_eq!(
        vt.samples[1].sample_size as usize,
        SLICE.len() + 4 + CONT.len() + 4
    );
    assert!(vt.samples[0].random_access);
    assert!(!vt.samples[1].random_access);
}

#[test]
fn hevc_parameter_sets_and_cra() {
    let vps: [u8; 3] = [0x40, 0x01, 0x0C];
    let sps: [u8; 4] = [0x42, 0x01, 0x01, 0x02];
    let pps: [u8; 3] = [0x44, 0x01, 0xC0];
    // CRA_NUT: type 21 = 0x2A >> 1
    let cra: [u8; 4] = [0x2A, 0x01, 0xAC, 0x0D];
    let mut m = Mp4e::new();
    m.set_video_track(1280, 720, Codec::HEVC);
    m.encode_video(&annexb(&[&vps, &sps, &pps, &cra]), 40);
    m.flush();
    let out = m.output().clone();
    let vt = m.video_track.as_ref().unwrap();
    assert_eq!(vt.samples.len(), 1);
    assert!(vt.samples[0].random_access);
    assert_eq!(vt.vps.as_ref().unwrap().as_slice(), &vps);
    assert_eq!(vt.sps.as_ref().unwrap().as_slice(), &sps);
    assert_eq!(vt.pps.as_ref().unwrap().as_slice(), &pps);
    // the hvcC arrays are all populated: each has a NALU count of 1
    let hvcc = find_box(&out, b"hvcC", 0);
    let arrays = hvcc + 4 + 23; // past the fixed hvcC fields
    assert_eq!(out[arrays], 0x80 | 32);
    assert_eq!(&out[arrays + 1..arrays + 3], &[0, 1]);
    assert_eq!(&out[arrays + 5..arrays + 5 + vps.len()], &vps);
    // stss lists sample 1
    let stss = find_box(&out, b"stss", 0);
    assert_eq!(read_u32(&out, stss + 8), 1);
    assert_eq!(read_u32(&out, stss + 12), 1);
}

#[test]
fn aac_lc_dsi_and_esds() {
    let mut m = Mp4e::new();
    m.set_video_track(320, 240, Codec::AVC);
    m.set_audio_track(48000, 2, Codec::AACLC);
    assert_eq!(
        m.audio_track.as_ref().unwrap().dsi.as_ref().unwrap().as_slice(),
        &[0x11, 0x90]
    );
    m.encode_video(&annexb(&[&SPS, &PPS, &IDR]), 33);
    m.encode_audio(&[0xAAu8; 12], 1024);
    m.flush();
    let out = m.output().clone();
    let esds = find_box(&out, b"esds", 0);
    // ES descriptor, DecoderConfigDescriptor tagged 0x04, object type 0x40
    assert_eq!(out[esds + 8], 0x03);
    assert_eq!(out[esds + 13], 0x04);
    assert_eq!(out[esds + 15], 0x40);
    // bufferSizeDB = 2 * 6144 / 8 = 1536
    let buffer_size = ((out[esds + 18] as u32) << 8) | out[esds + 19] as u32;
    assert_eq!(buffer_size, 1536);
    // the 2-byte AudioSpecificConfig sits at the end of the descriptor
    assert_eq!(&out[esds + 30..esds + 32], &[0x11, 0x90]);
}

#[test]
fn fragmented_sequence_numbers_and_data_offsets() {
    let mut m = Mp4e::new_with_fragment();
    m.set_video_track(1920, 1080, Codec::AVC);
    m.set_audio_track(48000, 2, Codec::AACLC);
    m.encode_video(&annexb(&[&SPS, &PPS, &IDR]), 33);
    m.encode_audio(&[0x55u8; 8], 1024);
    m.encode_video(&annexb(&[&IDR]), 33);
    let out = m.output().clone();

    // layout: ftyp, then the moov with its mvex
    assert_eq!(&out[4..8], b"ftyp");
    assert_eq!(&out[36..40], b"moov");
    find_box(&out, b"mvex", 0);
    find_box(&out, b"trex", 0);

    // three fragments, numbered 1, 2, 3
    let mut pos = 0usize;
    let mut seqs: Vec<u32> = Vec::new();
    loop {
        let mut found = None;
        let mut i = pos;
        while i + 4 <= out.len() {
            if &out[i..i + 4] == b"moof" {
                found = Some(i - 4);
                break;
            }
            i += 1;
        }
        match found {
            Some(start) => {
                seqs.push(read_u32(&out, start + 20));
                // the run's data offset points just past the mdat header
                let moof_size = read_u32(&out, start);
                let data_offset = read_u32(&out, start + 68);
                assert_eq!(data_offset, moof_size + 8);
                // the moof and mdat sizes account for the whole chunk
                let mdat_at = start + moof_size as usize;
                assert_eq!(&out[mdat_at + 4..mdat_at + 8], b"mdat");
                pos = i + 4;
            },
            None => break,
        }
    }
    assert_eq!(seqs, vec![1, 2, 3]);
}

#[test]
fn drop_before_keyframe() {
    let mut m = Mp4e::new();
    m.set_video_track(640, 480, Codec::AVC);
    m.set_audio_track(48000, 2, Codec::AACLC);
    // audio before any keyframe: dropped
    m.encode_audio(&[1u8, 2, 3], 1024);
    // a non-IDR frame before any keyframe: parameter sets captured, sample dropped
    m.encode_video(&annexb(&[&SPS, &PPS, &SLICE]), 33);
    assert_eq!(m.video_track.as_ref().unwrap().samples.len(), 0);
    assert_eq!(m.audio_track.as_ref().unwrap().samples.len(), 0);
    // the first keyframe lets samples through
    m.encode_video(&annexb(&[&IDR]), 33);
    m.encode_audio(&[4u8, 5, 6], 1024);
    m.flush();
    let vt = m.video_track.as_ref().unwrap();
    let at = m.audio_track.as_ref().unwrap();
    assert_eq!(vt.samples.len(), 1);
    assert!(vt.samples[0].random_access);
    assert_eq!(at.samples.len(), 1);
    assert!(at.samples[0].offset > vt.samples[0].offset);
}

#[test]
fn pts_yields_ctts_offsets() {
    let mut m = Mp4e::new();
    m.set_video_track(640, 480, Codec::AVC);
    // duration 33 ms = 2970 ticks; pts 100 ms = 9000 ticks
    m.encode_video_with_pts(&annexb(&[&SPS, &PPS, &IDR]), 33, 100);
    m.flush();
    let out = m.output().clone();
    let vt = m.video_track.as_ref().unwrap();
    assert_eq!(vt.samples.len(), 1);
    assert_eq!(vt.samples[0].sample_ct_offset, 9000 - 2970);
    let ctts = find_box(&out, b"ctts", 0);
    assert_eq!(read_u32(&out, ctts + 8), 1); // one run
    assert_eq!(read_u32(&out, ctts + 12), 1); // of one sample
    assert_eq!(read_u32(&out, ctts + 16) as i32, 6030);
}

#[test]
fn stts_run_length_encodes_deltas() {
    let mut m = Mp4e::new();
    m.set_video_track(640, 480, Codec::AVC);
    m.encode_video(&annexb(&[&SPS, &PPS, &IDR]), 33);
    m.encode_video(&annexb(&[&SLICE]), 33);
    m.encode_video(&annexb(&[&SLICE]), 40);
    m.flush();
    let out = m.output().clone();
    let stts = find_box(&out, b"stts", 0);
    assert_eq!(read_u32(&out, stts + 8), 2); // two runs
    assert_eq!(read_u32(&out, stts + 12), 2); // (2, 2970)
    assert_eq!(read_u32(&out, stts + 16), 2970);
    assert_eq!(read_u32(&out, stts + 20), 1); // (1, 3600)
    assert_eq!(read_u32(&out, stts + 24), 3600);
    // the counts sum to the number of samples
    assert_eq!(m.video_track.as_ref().unwrap().samples.len(), 3);
}

#[test]
fn language_is_packed_into_mdhd() {
    let mut m = Mp4e::new();
    m.set_video_track(640, 480, Codec::AVC);
    m.set_language([0x6A, 0x70, 0x6E]); // "jpn"
    m.encode_video(&annexb(&[&SPS, &PPS, &IDR]), 33);
    m.flush();
    let out = m.output().clone();
    let mdhd = find_box(&out, b"mdhd", 0);
    // three 5-bit characters: (10 << 10) | (16 << 5) | 14
    assert_eq!(&out[mdhd + 24..mdhd + 26], &[0x2A, 0x0E]);
}

#[test]
fn opus_track_uses_dops() {
    let mut m = Mp4e::new();
    m.set_video_track(640, 480, Codec::AVC);
    m.set_audio_track(48000, 2, Codec::OPUS);
    assert!(m.audio_track.as_ref().unwrap().dsi.is_none());
    m.encode_video(&annexb(&[&SPS, &PPS, &IDR]), 33);
    m.encode_audio(&[9u8; 4], 960);
    m.flush();
    let out = m.output().clone();
    find_box(&out, b"opus", 0);
    let dops = find_box(&out, b"dops", 0);
    // output channel count and input sample rate
    assert_eq!(&out[dops + 5..dops + 7], &[0, 2]);
    assert_eq!(read_u32(&out, dops + 9), 48000);
}

#[test]
fn setters_are_ignored_after_the_header() {
    let mut m = Mp4e::new();
    m.set_video_track(640, 480, Codec::AVC);
    m.encode_video(&annexb(&[&SPS, &PPS, &IDR]), 33);
    // the header is out: further setup calls are refused silently
    m.set_language([0x65, 0x6E, 0x67]);
    m.set_audio_track(44100, 2, Codec::AACLC);
    assert!(m.audio_track.is_none());
    m.flush();
    let out = m.output().clone();
    let mdhd = find_box(&out, b"mdhd", 0);
    // still "und"
    let code = ((out[mdhd + 24] as u16) << 8) | out[mdhd + 25] as u16;
    assert_eq!(code, (21 << 10) | (14 << 5) | 4);
}

#[test]
fn create_time_switches_mvhd_to_version_1() {
    let mut m = Mp4e::new();
    m.set_video_track(640, 480, Codec::AVC);
    m.set_create_time(0x100);
    m.encode_video(&annexb(&[&SPS, &PPS, &IDR]), 33);
    m.flush();
    let out = m.output().clone();
    let mvhd = find_box(&out, b"mvhd", 0);
    assert_eq!(out[mvhd + 4], 1); // version 1: 64-bit times
    let expect = 0x100u64 + 2082844800;
    let creation = ((read_u32(&out, mvhd + 8) as u64) << 32) | read_u32(&out, mvhd + 12) as u64;
    assert_eq!(creation, expect);

    // without a creation time the movie header stays version 0
    let mut m0 = Mp4e::new();
    m0.set_video_track(640, 480, Codec::AVC);
    m0.encode_video(&annexb(&[&SPS, &PPS, &IDR]), 33);
    m0.flush();
    let out0 = m0.output().clone();
    let mvhd0 = find_box(&out0, b"mvhd", 0);
    assert_eq!(out0[mvhd0 + 4], 0);
}

#[test]
fn continuation_idr_with_no_predecessor_is_dropped() {
    // an IDR whose slice header claims a continuation, arriving first:
    // there is nothing to continue, so nothing is recorded
    let cont_idr: [u8; 3] = [0x65, 0x40, 0x00];
    let mut m = Mp4e::new();
    m.set_video_track(640, 480, Codec::AVC);
    m.encode_video(&annexb(&[&SPS, &PPS, &cont_idr]), 33);
    assert_eq!(m.video_track.as_ref().unwrap().samples.len(), 0);
    // a real IDR afterwards is recorded normally
    m.encode_video(&annexb(&[&IDR]), 33);
    assert_eq!(m.video_track.as_ref().unwrap().samples.len(), 1);
    m.flush();
}
