use puremp3::error::ErrorKind;
use puremp3::header::header_advance;
use puremp3::{read_frame_header, BitRate, Channels, Emphasis, MpegLayer, MpegVersion, SampleRate};

#[test]
fn parses_mpeg1_joint_stereo_header() {
    let h = read_frame_header(&[0xFF, 0xFB, 0x90, 0x64]).unwrap();
    assert_eq!(h.version, MpegVersion::Mpeg1);
    assert_eq!(h.layer, MpegLayer::Layer3);
    assert!(!h.crc);
    assert_eq!(h.bitrate, BitRate::Kbps128);
    assert_eq!(h.sample_rate, SampleRate::Hz44100);
    assert!(!h.padding);
    assert_eq!(h.channels, Channels::JointStereo { intensity_stereo: false, mid_side_stereo: true });
    assert!(!h.copyright);
    assert!(h.original);
    assert_eq!(h.emphasis, Emphasis::NoEmphasis);
    assert_eq!(h.sample_rate_table(), 0);
    assert_eq!(h.data_size(), 413);
    assert_eq!(h.side_data_len(), 32);
    assert_eq!(h.num_granules(), 2);
    assert!(!h.is_intensity_stereo());
}

#[test]
fn parses_mono_cbr192_header() {
    let h = read_frame_header(&[0xFF, 0xFB, 0xB0, 0xC4]).unwrap();
    assert_eq!(h.bitrate, BitRate::Kbps192);
    assert_eq!(h.channels, Channels::Mono);
    assert_eq!(h.channels.num_channels(), 1);
    assert_eq!(h.data_size(), 622);
    assert_eq!(h.side_data_len(), 17);
    let padded = read_frame_header(&[0xFF, 0xFB, 0xB2, 0xC4]).unwrap();
    assert!(padded.padding);
    assert_eq!(padded.data_size(), 623);
}

#[test]
fn parses_mpeg25_low_rate_header() {
    let h = read_frame_header(&[0xFF, 0xE3, 0x28, 0xC0]).unwrap();
    assert_eq!(h.version, MpegVersion::Mpeg2_5);
    assert_eq!(h.sample_rate, SampleRate::Hz8000);
    assert_eq!(h.bitrate, BitRate::Kbps16);
    assert_eq!(h.sample_rate_table(), 8);
    assert_eq!(h.side_data_len(), 9);
    assert_eq!(h.num_granules(), 1);
    assert_eq!(h.data_size(), 140);
}

#[test]
fn parses_intensity_stereo_mpeg2_header() {
    let h = read_frame_header(&[0xFF, 0xF3, 0x94, 0x50]).unwrap();
    assert_eq!(h.version, MpegVersion::Mpeg2);
    assert_eq!(h.sample_rate, SampleRate::Hz24000);
    assert_eq!(h.bitrate, BitRate::Kbps80);
    assert_eq!(h.channels, Channels::JointStereo { intensity_stereo: true, mid_side_stereo: false });
    assert!(h.is_intensity_stereo());
    assert_eq!(h.sample_rate_table(), 4);
    assert_eq!(h.side_data_len(), 17);
    assert_eq!(h.data_size(), 72 * 80_000 / 24_000 - 4);
}

#[test]
fn header_with_crc_skips_two_bytes() {
    let h = read_frame_header(&[0xFF, 0xFA, 0x90, 0x64, 0x12, 0x34]).unwrap();
    assert!(h.crc);
    assert_eq!(h.data_size(), 411);
    assert_eq!(header_advance(&[0xFF, 0xFA, 0x90, 0x64, 0x12, 0x34]), 6);
    let short = read_frame_header(&[0xFF, 0xFA, 0x90, 0x64]).unwrap_err();
    assert_eq!(short.error_kind(), ErrorKind::Io);
}

#[test]
fn header_faults_have_their_kinds() {
    let kind = |b: &[u8]| read_frame_header(b).unwrap_err().error_kind();
    assert_eq!(kind(&[0x00, 0xFB, 0x90, 0x64]), ErrorKind::InvalidData);
    assert_eq!(kind(&[0xFF, 0x1B, 0x90, 0x64]), ErrorKind::InvalidData);
    assert_eq!(kind(&[0xFF, 0xEB, 0x90, 0x64]), ErrorKind::InvalidData);
    assert_eq!(kind(&[0xFF, 0xF9, 0x90, 0x64]), ErrorKind::InvalidData);
    assert_eq!(kind(&[0xFF, 0xFD, 0x90, 0x64]), ErrorKind::Unsupported);
    assert_eq!(kind(&[0xFF, 0xFF, 0x90, 0x64]), ErrorKind::Unsupported);
    assert_eq!(kind(&[0xFF, 0xFB, 0x00, 0x64]), ErrorKind::Unsupported);
    assert_eq!(kind(&[0xFF, 0xFB, 0xF0, 0x64]), ErrorKind::InvalidData);
    assert_eq!(kind(&[0xFF, 0xFB, 0x9C, 0x64]), ErrorKind::InvalidData);
    assert_eq!(kind(&[0xFF, 0xFB, 0x90, 0x66]), ErrorKind::InvalidData);
    assert_eq!(kind(&[]), ErrorKind::Io);
    assert_eq!(kind(&[0xFF]), ErrorKind::Io);
    assert_eq!(kind(&[0xFF, 0xFB, 0x90]), ErrorKind::Io);
}

#[test]
fn header_advance_counts_consumed_bytes() {
    assert_eq!(header_advance(&[0x00, 0xFF, 0xFB, 0x90]), 1);
    assert_eq!(header_advance(&[0xFF, 0x1B, 0x90, 0x64]), 2);
    assert_eq!(header_advance(&[0xFF, 0xFD, 0x90, 0x64]), 2);
    assert_eq!(header_advance(&[0xFF, 0xFB, 0xF0, 0x64]), 4);
    assert_eq!(header_advance(&[0xFF, 0xFB, 0x90, 0x64]), 4);
}

#[test]
fn header_parse_is_idempotent() {
    let bytes = [0xFF, 0xFB, 0x90, 0x64];
    let a = read_frame_header(&bytes).unwrap();
    let b = read_frame_header(&bytes).unwrap();
    assert_eq!(a, b);
}

#[test]
fn rates_in_units() {
    assert_eq!(BitRate::Kbps8.bps(), 8_000);
    assert_eq!(BitRate::Kbps320.bps(), 320_000);
    assert_eq!(SampleRate::Hz11025.hz(), 11_025);
    assert_eq!(SampleRate::Hz48000.hz(), 48_000);
    assert_eq!(Channels::Stereo.num_channels(), 2);
    assert_eq!(Channels::DualMono.num_channels(), 2);
}
