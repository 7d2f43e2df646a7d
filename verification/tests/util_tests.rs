use mp4e::boxes::{write_ftyp, write_mdat, write_mdat_header};
use mp4e::util::{get_sample_rate_idx, BitReader};

#[test]
fn sample_rate_index_lookup() {
    assert_eq!(get_sample_rate_idx(96000), 0);
    assert_eq!(get_sample_rate_idx(48000), 3);
    assert_eq!(get_sample_rate_idx(44100), 4);
    assert_eq!(get_sample_rate_idx(8000), 11);
    assert_eq!(get_sample_rate_idx(7350), 12);
    // an unlisted rate falls back to index 11
    assert_eq!(get_sample_rate_idx(12345), 0x0b);
}

#[test]
fn exp_golomb_decoding() {
    // "1" encodes 0
    let mut br = BitReader::new(&[0b1000_0000]);
    assert_eq!(br.ue_bits(32), 0);
    // "010" encodes 1
    let mut br = BitReader::new(&[0b0100_0000]);
    assert_eq!(br.ue_bits(32), 1);
    // "011" encodes 2
    let mut br = BitReader::new(&[0b0110_0000]);
    assert_eq!(br.ue_bits(32), 2);
    // "00111" encodes 6
    let mut br = BitReader::new(&[0b0011_1000]);
    assert_eq!(br.ue_bits(32), 6);
    // consecutive values from one buffer: "1", "010"
    let mut br = BitReader::new(&[0b1010_0000]);
    assert_eq!(br.ue_bits(32), 0);
    assert_eq!(br.ue_bits(32), 1);
}

#[test]
fn exp_golomb_prefix_cap() {
    // with a cap of 1 leading zero, any value needing a zero bit reads as 0
    let mut br = BitReader::new(&[0b0100_0000]);
    assert_eq!(br.ue_bits(1), 0);
    // past the end of the data every bit reads as zero, so the cap trips
    let mut br = BitReader::new(&[]);
    assert_eq!(br.ue_bits(32), 0);
}

#[test]
fn ftyp_and_mdat_header_literals() {
    let mut out: Vec<u8> = Vec::new();
    let n = write_ftyp(&mut out);
    assert_eq!(n, 32);
    assert_eq!(&out[..], b"\x00\x00\x00\x20ftypisom\x00\x00\x00\x00mp41isomiso6iso2");
    let mut out: Vec<u8> = Vec::new();
    let n = write_mdat_header(&mut out);
    assert_eq!(n, 16);
    assert_eq!(&out[..], b"\x00\x00\x00\x01mdat\x00\x00\x00\x00\x00\x00\x00\x10");
}

#[test]
fn fragmented_mdat_prefixes_video_length() {
    let payload = [0xDEu8, 0xAD, 0xBE, 0xEF];
    let mut out: Vec<u8> = Vec::new();
    let n = write_mdat(&payload, true, &mut out);
    assert_eq!(n, 4 + 12);
    assert_eq!(&out[0..4], &[0, 0, 0, 16]);
    assert_eq!(&out[4..8], b"mdat");
    assert_eq!(&out[8..12], &[0, 0, 0, 4]);
    assert_eq!(&out[12..16], &payload);
    let mut out: Vec<u8> = Vec::new();
    let n = write_mdat(&payload, false, &mut out);
    assert_eq!(n, 4 + 8);
    assert_eq!(&out[0..4], &[0, 0, 0, 12]);
    assert_eq!(&out[4..8], b"mdat");
    assert_eq!(&out[8..12], &payload);
}
