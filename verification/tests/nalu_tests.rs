use mp4e::nalu::split_nalu;

#[test]
fn parse_nalu_test() {
    let nalu0 = [
        0x00, 0x00, 0x00, 0x01, 0x67, 0x42, 0xC0, 0x0D, 0xF4, 0x01, 0x00, 0x03, 0x00, 0x04,
        0x00, 0x00, 0x03, 0x00, 0x64, 0x00, 0x00, 3,
    ];
    let nalu1: [u8; 15] = [
        0x00, 0x00, 0x01, 0x68, 0xE1, 0x01, 0x00, 0x00, 0x03, 0x00, 0x04, 0x00, 0x00, 0x03,
        0x00,
    ];
    let nalu: Vec<u8> = [&nalu0[..], &nalu1[..]].concat();
    let nalus = split_nalu(&nalu[..]);
    assert!(nalus[0].eq(&nalu0[4..]));
    assert!(nalus[1].eq(&nalu1[3..]));
    assert!(nalus.len() == 2);
}

#[test]
fn split_without_start_code_yields_whole_buffer() {
    let data = [10u8, 20, 30, 40];
    let nalus = split_nalu(&data);
    assert_eq!(nalus.len(), 1);
    assert_eq!(nalus[0], &data[..]);
}

#[test]
fn split_empty_buffer_yields_nothing() {
    let data: [u8; 0] = [];
    let nalus = split_nalu(&data);
    assert_eq!(nalus.len(), 0);
}

#[test]
fn split_mixed_start_codes() {
    let data = [0u8, 0, 0, 1, 10, 20, 30, 0, 0, 1, 40, 50, 0, 0, 0, 1, 60, 70, 80];
    let nalus = split_nalu(&data);
    assert_eq!(nalus.len(), 3);
    assert_eq!(nalus[0], &[10u8, 20, 30][..]);
    assert_eq!(nalus[1], &[40u8, 50][..]);
    assert_eq!(nalus[2], &[60u8, 70, 80][..]);
}

#[test]
fn split_consecutive_start_codes_yield_empty_unit() {
    let data = [0u8, 0, 1, 0, 0, 1, 9];
    let nalus = split_nalu(&data);
    assert_eq!(nalus.len(), 2);
    assert_eq!(nalus[0].len(), 0);
    assert_eq!(nalus[1], &[9u8][..]);
}

#[test]
fn split_reconstructs_input() {
    // concatenating each NAL unit's start code and payload reproduces the
    // input byte for byte
    let data = [0u8, 0, 0, 1, 7, 7, 0, 0, 1, 8, 0, 0, 0, 1, 5, 5, 5];
    let nalus = split_nalu(&data);
    let mut rebuilt: Vec<u8> = Vec::new();
    let mut pos = 0usize;
    for nal in &nalus {
        let sc_len = if data[pos..].starts_with(&[0, 0, 0, 1]) { 4 } else { 3 };
        rebuilt.extend_from_slice(&data[pos..pos + sc_len]);
        rebuilt.extend_from_slice(nal);
        pos += sc_len + nal.len();
    }
    assert_eq!(rebuilt, data);
    assert_eq!(pos, data.len());
}
