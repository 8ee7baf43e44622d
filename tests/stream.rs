use puremp3::decoder::{find_frame, huffman_tables_ok, process_frame};
use puremp3::reservoir::DecoderState;
use puremp3::error::ErrorKind;
use puremp3::huffman::HuffmanTable;
use puremp3::Mp3Decoder;

/// Code tables that decode nothing: enough for frames whose spectra are empty.
fn silent_tables() -> Vec<HuffmanTable> {
    (0..34).map(|i| HuffmanTable { data: vec![], linbits: 0, quads: i >= 32 }).collect()
}

/// An MPEG-1 mono 128 kbps 44.1 kHz frame whose side information holds
/// `main_data_begin` and otherwise zeros: 4 header bytes and 413 body bytes.
fn mono_frame(main_data_begin: u16) -> Vec<u8> {
    let mut f = vec![0xFF, 0xFB, 0x90, 0xC4];
    let mut body = vec![0u8; 413];
    body[0] = (main_data_begin >> 1) as u8;
    body[1] = ((main_data_begin & 1) << 7) as u8;
    f.extend_from_slice(&body);
    f
}

fn decode_all(data: &[u8]) -> Vec<(usize, u16)> {
    let mut d = Mp3Decoder::with_huffman_tables((), silent_tables());
    let mut out = Vec::new();
    let mut pos = 0;
    while let Ok((frame, end)) = d.decode_next(data, pos) {
        out.push((end, frame.side_info.main_data_begin));
        pos = end;
    }
    out
}

#[test]
fn tables_are_checked() {
    assert!(huffman_tables_ok(&silent_tables()));
    assert!(!huffman_tables_ok(&silent_tables()[..33].to_vec()));
    let mut bad = silent_tables();
    bad[3].quads = true;
    assert!(!huffman_tables_ok(&bad));
}

#[test]
fn decodes_silent_frames() {
    let mut data = mono_frame(0);
    data.extend(mono_frame(0));
    let frames = decode_all(&data);
    assert_eq!(frames, vec![(417, 0), (834, 0)]);
    let mut d = Mp3Decoder::with_huffman_tables(0u8, silent_tables());
    let (frame, _) = d.decode_next(&data, 0).unwrap();
    assert_eq!(frame.header.num_granules() * 576, 1152);
    assert_eq!(frame.main_data.granules[0].channels[0].count1, 0);
    assert!(frame.main_data.granules[1].channels[0].samples.iter().all(|&s| s == 0));
}

#[test]
fn sync_recovery_after_zero_prefix() {
    let mut data = mono_frame(0);
    data.extend(mono_frame(0));
    let mut prefixed = vec![0u8; 1024];
    prefixed.extend_from_slice(&data);
    let plain = decode_all(&data);
    let shifted: Vec<(usize, u16)> = decode_all(&prefixed).iter().map(|&(e, m)| (e - 1024, m)).collect();
    assert_eq!(plain, shifted);
    assert_eq!(find_frame(&prefixed, 0).unwrap().0, 1024);
}

#[test]
fn truncated_stream_ends_cleanly() {
    let mut data = mono_frame(0);
    data.extend_from_slice(&mono_frame(0)[..200]);
    let mut d = Mp3Decoder::with_huffman_tables((), silent_tables());
    let (_, end) = d.decode_next(&data, 0).unwrap();
    assert_eq!(end, 417);
    let e = d.decode_next(&data, end).unwrap_err();
    assert_eq!(e.error_kind(), ErrorKind::Io);
}

#[test]
fn reservoir_underflow_skips_first_frame() {
    let mut data = mono_frame(100);
    data.extend(mono_frame(0));
    data.extend(mono_frame(100));
    let frames = decode_all(&data);
    assert_eq!(frames, vec![(834, 0), (1251, 100)]);
}

#[test]
fn no_tables_no_frames() {
    let data = mono_frame(0);
    let mut d = Mp3Decoder::new(vec![1u8, 2]);
    assert_eq!(d.decode_next(&data, 0).unwrap_err().error_kind(), ErrorKind::InvalidData);
    assert_eq!(d.get_ref(), &vec![1u8, 2]);
    d.get_mut().push(3);
    assert_eq!(d.into_inner(), vec![1u8, 2, 3]);
}

#[test]
fn empty_stream_is_end_of_stream() {
    let mut d = Mp3Decoder::with_huffman_tables((), silent_tables());
    assert_eq!(d.decode_next(&[], 0).unwrap_err().error_kind(), ErrorKind::Io);
    assert_eq!(d.decode_next(&[0u8; 100], 0).unwrap_err().error_kind(), ErrorKind::Io);
}

#[test]
fn unsupported_headers_are_skipped() {
    let mut data = vec![0xFF, 0xFD, 0x90, 0xC4, 0x00, 0x00];
    data.extend(vec![0xFF, 0xFB, 0x00, 0xC4, 0x00, 0x00]);
    data.extend(mono_frame(0));
    let frames = decode_all(&data);
    assert_eq!(frames, vec![(12 + 417, 0)]);
}

#[test]
fn side_info_fault_leaves_reservoir() {
    let header = puremp3::read_frame_header(&[0xFF, 0xFB, 0x90, 0xC4]).unwrap();
    let mut state = DecoderState::new();
    state.read_logical_frame_data(&[5, 6, 7], 0).unwrap();
    let mut body = vec![0u8; 413];
    // big_values of the first record (bits 18 + 12 .. 18 + 21) set to 511
    body[3] = 0x3F;
    body[4] = 0xE0;
    let e = process_frame(&mut state, &header, &body, &silent_tables()).unwrap_err();
    assert_eq!(e.error_kind(), ErrorKind::InvalidData);
    assert_eq!(state.contents(), &[5, 6, 7]);
}
