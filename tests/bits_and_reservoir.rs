use puremp3::bits::BitReader;
use puremp3::error::ErrorKind;
use puremp3::reservoir::DecoderState;

#[test]
fn reads_bits_most_significant_first() {
    let data = [0b1011_0111u8, 0xFF, 0x00];
    let mut r = BitReader::new(&data);
    assert_eq!(r.read(3).unwrap(), 0b101);
    assert_eq!(r.read(5).unwrap(), 0b10111);
    assert!(r.read_bit().unwrap());
    assert_eq!(r.read(11).unwrap(), 0b111_1111_0000);
    assert_eq!(r.bits_left(), 4);
    assert_eq!(r.read(0).unwrap(), 0);
}

#[test]
fn reads_across_bytes_up_to_32_bits() {
    let data = [0x12u8, 0x34, 0x56, 0x78, 0x9A];
    let mut r = BitReader::new(&data);
    r.skip(4).unwrap();
    assert_eq!(r.read(32).unwrap(), 0x2345_6789);
    assert_eq!(r.read(4).unwrap(), 0xA);
}

#[test]
fn reading_past_the_end_is_invalid_data() {
    let data = [0xABu8];
    let mut r = BitReader::new(&data);
    assert_eq!(r.read(6).unwrap(), 0b101010);
    let e = r.read(3).unwrap_err();
    assert_eq!(e.error_kind(), ErrorKind::InvalidData);
    assert_eq!(r.pos, 6);
    assert_eq!(r.skip(3).unwrap_err().error_kind(), ErrorKind::InvalidData);
    assert_eq!(r.read(2).unwrap(), 0b11);
    assert_eq!(r.read_bit().unwrap_err().error_kind(), ErrorKind::InvalidData);
}

#[test]
fn reservoir_keeps_back_pointed_bytes() {
    let mut state = DecoderState::new();
    assert_eq!(state.len(), 0);
    state.read_logical_frame_data(&[1, 2, 3], 0).unwrap();
    assert_eq!(state.contents(), &[1, 2, 3]);
    state.read_logical_frame_data(&[4, 5], 2).unwrap();
    assert_eq!(state.contents(), &[2, 3, 4, 5]);
    assert_eq!(state.len(), 2 + 2);
}

#[test]
fn reservoir_underflow_is_rejected_and_leaves_state() {
    let mut state = DecoderState::new();
    let e = state.read_logical_frame_data(&[9, 9], 100).unwrap_err();
    assert_eq!(e.error_kind(), ErrorKind::InvalidData);
    assert_eq!(state.len(), 0);
    state.read_logical_frame_data(&[7; 10], 0).unwrap();
    let e = state.read_logical_frame_data(&[1], 11).unwrap_err();
    assert_eq!(e.error_kind(), ErrorKind::InvalidData);
    assert_eq!(state.contents(), &[7; 10]);
}

#[test]
fn reservoir_length_is_back_pointer_plus_main_data() {
    let mut state = DecoderState::new();
    let main = vec![3u8; 396];
    state.read_logical_frame_data(&main, 0).unwrap();
    state.read_logical_frame_data(&main, 100).unwrap();
    assert_eq!(state.len(), 100 + 396);
    let big = vec![1u8; 4096 - 511];
    state.read_logical_frame_data(&big, 0).unwrap();
    state.read_logical_frame_data(&big, 511).unwrap();
    assert_eq!(state.len(), 4096);
}
