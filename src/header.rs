//! Parsing of the 32-bit frame header.
use crate::error::{end_of_stream, invalid, unsupported, Error, ErrorKind};
use crate::types::{
    spec_side_data_len, version_table_offset, BitRate, Channels, Emphasis, FrameHeader, MpegLayer,
    MpegVersion, SampleRate,
};
use vstd::prelude::*;

verus! {

/// The MPEG version that the two version bits of the second header byte name;
/// code 1 is reserved.
pub open spec fn version_of_code(code: u8) -> MpegVersion {
    if code == 0 {
        MpegVersion::Mpeg2_5
    } else if code == 2 {
        MpegVersion::Mpeg2
    } else {
        MpegVersion::Mpeg1
    }
}

/// The layer that the two layer bits name; code 0 is reserved.
pub open spec fn layer_of_code(code: u8) -> MpegLayer {
    if code == 1 {
        MpegLayer::Layer3
    } else if code == 2 {
        MpegLayer::Layer2
    } else {
        MpegLayer::Layer1
    }
}

/// The bit rate that bitrate index `idx` (1 to 14) names, for MPEG-1 or for
/// MPEG-2 and 2.5.
pub open spec fn bitrate_of_index(idx: u8, is_version2: bool) -> BitRate {
    if !is_version2 {
        if idx == 1 { BitRate::Kbps32 }
        else if idx == 2 { BitRate::Kbps40 }
        else if idx == 3 { BitRate::Kbps48 }
        else if idx == 4 { BitRate::Kbps56 }
        else if idx == 5 { BitRate::Kbps64 }
        else if idx == 6 { BitRate::Kbps80 }
        else if idx == 7 { BitRate::Kbps96 }
        else if idx == 8 { BitRate::Kbps112 }
        else if idx == 9 { BitRate::Kbps128 }
        else if idx == 10 { BitRate::Kbps160 }
        else if idx == 11 { BitRate::Kbps192 }
        else if idx == 12 { BitRate::Kbps224 }
        else if idx == 13 { BitRate::Kbps256 }
        else { BitRate::Kbps320 }
    } else {
        if idx == 1 { BitRate::Kbps8 }
        else if idx == 2 { BitRate::Kbps16 }
        else if idx == 3 { BitRate::Kbps24 }
        else if idx == 4 { BitRate::Kbps32 }
        else if idx == 5 { BitRate::Kbps40 }
        else if idx == 6 { BitRate::Kbps48 }
        else if idx == 7 { BitRate::Kbps56 }
        else if idx == 8 { BitRate::Kbps64 }
        else if idx == 9 { BitRate::Kbps80 }
        else if idx == 10 { BitRate::Kbps96 }
        else if idx == 11 { BitRate::Kbps112 }
        else if idx == 12 { BitRate::Kbps128 }
        else if idx == 13 { BitRate::Kbps144 }
        else { BitRate::Kbps160 }
    }
}

/// The sample rate that rate code `code` (0 to 2) names for version `v`.
pub open spec fn sample_rate_of_code(code: u8, v: MpegVersion) -> SampleRate {
    match v {
        MpegVersion::Mpeg1 => if code == 0 { SampleRate::Hz44100 } else if code == 1 { SampleRate::Hz48000 } else { SampleRate::Hz32000 },
        MpegVersion::Mpeg2 => if code == 0 { SampleRate::Hz22050 } else if code == 1 { SampleRate::Hz24000 } else { SampleRate::Hz16000 },
        MpegVersion::Mpeg2_5 => if code == 0 { SampleRate::Hz11025 } else if code == 1 { SampleRate::Hz12000 } else { SampleRate::Hz8000 },
    }
}

/// The channel mode of the fourth header byte.
pub open spec fn channels_of_byte(b: u8) -> Channels {
    let mode = b >> 6u8;
    if mode == 0 {
        Channels::Stereo
    } else if mode == 1 {
        Channels::JointStereo {
            mid_side_stereo: b & 0x20u8 != 0,
            intensity_stereo: b & 0x10u8 != 0,
        }
    } else if mode == 2 {
        Channels::DualMono
    } else {
        Channels::Mono
    }
}

/// The emphasis that code `code` names; code 2 is reserved.
pub open spec fn emphasis_of_code(code: u8) -> Emphasis {
    if code == 0 {
        Emphasis::NoEmphasis
    } else if code == 1 {
        Emphasis::FiftyFifteen
    } else {
        Emphasis::CcitJ17
    }
}

/// The body size of a frame:
/// `bits_per_sample * bitrate / sample_rate + padding - crc_bytes - 4`, with
/// 144 bits per sample for MPEG-1 and 72 otherwise.
pub open spec fn frame_data_size(v: MpegVersion, bitrate: BitRate, rate: SampleRate, padding: bool, crc: bool) -> int {
    let bits_per_sample: int = if v == MpegVersion::Mpeg1 { 144 } else { 72 };
    bits_per_sample * bitrate.spec_bps() / (rate.spec_hz() as int)
        + (if padding { 1int } else { 0 }) - (if crc { 2int } else { 0 }) - 4
}

/// What parsing the bytes `s` at the start of a frame gives: the header, or
/// the class of the first fault met. The checks come in the order of the
/// fields: sync, version, layer, bitrate, sample rate, emphasis; a stream that
/// ends before the bytes a check needs is an I/O fault.
pub open spec fn header_of(s: Seq<u8>) -> Result<FrameHeader, ErrorKind> {
    if s.len() < 1 {
        Err(ErrorKind::Io)
    } else if s[0] != 0xffu8 {
        Err(ErrorKind::InvalidData)
    } else if s.len() < 2 {
        Err(ErrorKind::Io)
    } else if s[1] & 0xe0u8 != 0xe0u8 {
        Err(ErrorKind::InvalidData)
    } else if (s[1] >> 3u8) & 3u8 == 1 {
        Err(ErrorKind::InvalidData)
    } else if (s[1] >> 1u8) & 3u8 == 0 {
        Err(ErrorKind::InvalidData)
    } else if (s[1] >> 1u8) & 3u8 != 1 {
        Err(ErrorKind::Unsupported)
    } else if s.len() < 4 {
        Err(ErrorKind::Io)
    } else if s[2] >> 4u8 == 0 {
        Err(ErrorKind::Unsupported)
    } else if s[2] >> 4u8 == 15 {
        Err(ErrorKind::InvalidData)
    } else if (s[2] >> 2u8) & 3u8 == 3 {
        Err(ErrorKind::InvalidData)
    } else if s[3] & 3u8 == 2 {
        Err(ErrorKind::InvalidData)
    } else if s[1] & 1u8 == 0 && s.len() < 6 {
        Err(ErrorKind::Io)
    } else {
        let version = version_of_code((s[1] >> 3u8) & 3u8);
        let bitrate = bitrate_of_index(s[2] >> 4u8, version != MpegVersion::Mpeg1);
        let sample_rate = sample_rate_of_code((s[2] >> 2u8) & 3u8, version);
        let padding = s[2] & 2u8 != 0;
        let crc = s[1] & 1u8 == 0;
        Ok(FrameHeader {
            version,
            layer: MpegLayer::Layer3,
            crc,
            bitrate,
            sample_rate,
            padding,
            channels: channels_of_byte(s[3]),
            copyright: s[3] & 8u8 != 0,
            original: s[3] & 4u8 != 0,
            emphasis: emphasis_of_code(s[3] & 3u8),
            sample_rate_table: (((s[2] >> 2u8) & 3u8) as nat + version_table_offset(version)) as usize,
            data_size: frame_data_size(version, bitrate, sample_rate, padding, crc) as usize,
        })
    }
}

/// The bytes that a header occupies in the stream: 4, and 2 more of CRC.
pub open spec fn header_len_of(h: FrameHeader) -> nat {
    if h.crc { 6 } else { 4 }
}

/// The bytes that the parser consumed before it found a fault in the header
/// fields: 1 for a first byte that is not `0xff`, 2 for a fault in the second
/// byte, else 4.
pub open spec fn header_fault_len(s: Seq<u8>) -> nat {
    if s.len() < 1 || s[0] != 0xffu8 {
        1
    } else if s.len() < 2 || s[1] & 0xe0u8 != 0xe0u8 || (s[1] >> 3u8) & 3u8 == 1 || (s[1] >> 1u8) & 3u8 != 1 {
        2
    } else {
        4
    }
}

/// The body size of a frame is positive and holds its side information.
pub proof fn lemma_data_size_bounds(v: MpegVersion, idx: u8, code: u8, padding: bool, crc: bool, c: Channels)
    requires
        1 <= idx <= 14,
        code <= 2,
    ensures
        ({
            let d = frame_data_size(v, bitrate_of_index(idx, v != MpegVersion::Mpeg1), sample_rate_of_code(code, v), padding, crc);
            spec_side_data_len(v, c) <= d <= 2000
        }),
{
    let bps = bitrate_of_index(idx, v != MpegVersion::Mpeg1).spec_bps() as int;
    let hz = sample_rate_of_code(code, v).spec_hz() as int;
    if v == MpegVersion::Mpeg1 {
        assert(32000 <= bps <= 320000);
        assert(hz == 32000 || hz == 44100 || hz == 48000);
        let q = 144 * bps / hz;
        if hz == 32000 {
            assert(144 * 32000 / 32000 <= q <= 144 * 320000 / 32000);
        } else if hz == 44100 {
            assert(144 * 32000 / 44100 <= q <= 144 * 320000 / 44100);
        } else {
            assert(144 * 32000 / 48000 <= q <= 144 * 320000 / 48000);
        }
    } else {
        assert(8000 <= bps <= 160000);
        let q = 72 * bps / hz;
        if hz == 8000 {
            assert(72 * 8000 / 8000 <= q <= 72 * 160000 / 8000);
        } else if hz == 11025 {
            assert(72 * 8000 / 11025 <= q <= 72 * 160000 / 11025);
        } else if hz == 12000 {
            assert(72 * 8000 / 12000 <= q <= 72 * 160000 / 12000);
        } else if hz == 16000 {
            assert(72 * 8000 / 16000 <= q <= 72 * 160000 / 16000);
        } else if hz == 22050 {
            assert(72 * 8000 / 22050 <= q <= 72 * 160000 / 22050);
        } else {
            assert(hz == 24000);
            assert(72 * 8000 / 24000 <= q <= 72 * 160000 / 24000);
        }
    }
}

fn parse_version(code: u8) -> (r: MpegVersion)
    ensures
        r == version_of_code(code),
{
    if code == 0 {
        MpegVersion::Mpeg2_5
    } else if code == 2 {
        MpegVersion::Mpeg2
    } else {
        MpegVersion::Mpeg1
    }
}

fn parse_bitrate(idx: u8, is_version2: bool) -> (r: BitRate)
    ensures
        r == bitrate_of_index(idx, is_version2),
{
    if !is_version2 {
        match idx {
            1 => BitRate::Kbps32,
            2 => BitRate::Kbps40,
            3 => BitRate::Kbps48,
            4 => BitRate::Kbps56,
            5 => BitRate::Kbps64,
            6 => BitRate::Kbps80,
            7 => BitRate::Kbps96,
            8 => BitRate::Kbps112,
            9 => BitRate::Kbps128,
            10 => BitRate::Kbps160,
            11 => BitRate::Kbps192,
            12 => BitRate::Kbps224,
            13 => BitRate::Kbps256,
            _ => BitRate::Kbps320,
        }
    } else {
        match idx {
            1 => BitRate::Kbps8,
            2 => BitRate::Kbps16,
            3 => BitRate::Kbps24,
            4 => BitRate::Kbps32,
            5 => BitRate::Kbps40,
            6 => BitRate::Kbps48,
            7 => BitRate::Kbps56,
            8 => BitRate::Kbps64,
            9 => BitRate::Kbps80,
            10 => BitRate::Kbps96,
            11 => BitRate::Kbps112,
            12 => BitRate::Kbps128,
            13 => BitRate::Kbps144,
            _ => BitRate::Kbps160,
        }
    }
}

fn parse_sample_rate(code: u8, v: MpegVersion) -> (r: SampleRate)
    ensures
        r == sample_rate_of_code(code, v),
{
    match v {
        MpegVersion::Mpeg1 => if code == 0 { SampleRate::Hz44100 } else if code == 1 { SampleRate::Hz48000 } else { SampleRate::Hz32000 },
        MpegVersion::Mpeg2 => if code == 0 { SampleRate::Hz22050 } else if code == 1 { SampleRate::Hz24000 } else { SampleRate::Hz16000 },
        MpegVersion::Mpeg2_5 => if code == 0 { SampleRate::Hz11025 } else if code == 1 { SampleRate::Hz12000 } else { SampleRate::Hz8000 },
    }
}

fn parse_channels(b: u8) -> (r: Channels)
    ensures
        r == channels_of_byte(b),
{
    let mode = b >> 6u8;
    if mode == 0 {
        Channels::Stereo
    } else if mode == 1 {
        Channels::JointStereo {
            mid_side_stereo: b & 0x20u8 != 0,
            intensity_stereo: b & 0x10u8 != 0,
        }
    } else if mode == 2 {
        Channels::DualMono
    } else {
        Channels::Mono
    }
}

fn parse_emphasis(code: u8) -> (r: Emphasis)
    ensures
        r == emphasis_of_code(code),
{
    if code == 0 {
        Emphasis::NoEmphasis
    } else if code == 1 {
        Emphasis::FiftyFifteen
    } else {
        Emphasis::CcitJ17
    }
}

/// The body size of a frame of the given version, bitrate index, sample rate
/// code, padding and CRC.
fn data_size_of(v: MpegVersion, idx: u8, code: u8, padding: bool, crc: bool, c: Channels) -> (r: usize)
    requires
        1 <= idx <= 14,
        code <= 2,
    ensures
        r == frame_data_size(v, bitrate_of_index(idx, v != MpegVersion::Mpeg1), sample_rate_of_code(code, v), padding, crc),
        spec_side_data_len(v, c) <= r <= 2000,
{
    proof {
        lemma_data_size_bounds(v, idx, code, padding, crc, c);
    }
    let bitrate = parse_bitrate(idx, v != MpegVersion::Mpeg1);
    let rate = parse_sample_rate(code, v);
    let bits_per_sample: u32 = if v == MpegVersion::Mpeg1 { 144 } else { 72 };
    let size = bits_per_sample * bitrate.bps() / rate.hz() + if padding { 1 } else { 0 } - if crc { 2 } else { 0 } - 4;
    size as usize
}

/// Parses the frame header at the start of `data`: the four header bytes,
/// and two CRC bytes when the header announces a CRC (they are not checked).
/// A bad sync word, a reserved version, layer, bitrate, sample rate or
/// emphasis code is `InvalidData`; a layer other than III and the free
/// bitrate are `Unsupported`; running out of bytes is an I/O error.
pub fn read_frame_header(data: &[u8]) -> (r: Result<FrameHeader, Error>)
    ensures
        match r {
            Ok(h) => header_of(data@) == Ok::<FrameHeader, ErrorKind>(h) && h.wf(),
            Err(e) => header_of(data@) == Err::<FrameHeader, ErrorKind>(e.kind()),
        },
{
    if data.len() < 1 {
        return Err(end_of_stream());
    }
    if data[0] != 0xff {
        return Err(invalid("Frame sync not found"));
    }
    if data.len() < 2 {
        return Err(end_of_stream());
    }
    let byte = data[1];
    if byte & 0xe0 != 0xe0 {
        return Err(invalid("Frame sync not found"));
    }
    let version_code = (byte >> 3u8) & 3u8;
    if version_code == 1 {
        return Err(invalid("Invalid MPEG version"));
    }
    let version = parse_version(version_code);
    let layer_code = (byte >> 1u8) & 3u8;
    if layer_code == 0 {
        return Err(invalid("Invalid MPEG layer"));
    }
    if layer_code != 1 {
        return Err(unsupported("Only MPEG Layer III is supported"));
    }
    let crc = byte & 1 == 0;
    if data.len() < 4 {
        return Err(end_of_stream());
    }
    let b2 = data[2];
    let b3 = data[3];
    let bitrate_index = b2 >> 4u8;
    assert(b2 >> 4u8 <= 15u8) by (bit_vector);
    if bitrate_index == 0 {
        return Err(unsupported("Free bitrate is unsupported"));
    }
    if bitrate_index == 15 {
        return Err(invalid("Invalid bitrate"));
    }
    let bitrate = parse_bitrate(bitrate_index, version != MpegVersion::Mpeg1);
    let rate_code = (b2 >> 2u8) & 3u8;
    assert((b2 >> 2u8) & 3u8 <= 3u8) by (bit_vector);
    if rate_code == 3 {
        return Err(invalid("Invalid sample rate"));
    }
    let sample_rate = parse_sample_rate(rate_code, version);
    let table_offset: usize = match version {
        MpegVersion::Mpeg1 => 0,
        MpegVersion::Mpeg2 => 3,
        MpegVersion::Mpeg2_5 => 6,
    };
    let sample_rate_table = rate_code as usize + table_offset;
    let padding = b2 & 2 != 0;
    let channels = parse_channels(b3);
    let copyright = b3 & 8 != 0;
    let original = b3 & 4 != 0;
    let emphasis_code = b3 & 3u8;
    if emphasis_code == 2 {
        return Err(invalid("Invalid emphasis"));
    }
    let emphasis = parse_emphasis(emphasis_code);
    if crc && data.len() < 6 {
        return Err(end_of_stream());
    }
    let size = data_size_of(version, bitrate_index, rate_code, padding, crc, channels);
    Ok(FrameHeader {
        version,
        layer: MpegLayer::Layer3,
        crc,
        bitrate,
        sample_rate,
        padding,
        channels,
        copyright,
        original,
        emphasis,
        sample_rate_table,
        data_size: size,
    })
}

/// The number of bytes the header at the start of `data` occupies, or, where
/// it has a fault in its fields, the number of bytes to pass over before the
/// search for the next sync word goes on.
pub fn header_advance(data: &[u8]) -> (r: usize)
    ensures
        r >= 1,
        match header_of(data@) {
            Ok(h) => r == header_len_of(h),
            Err(_) => r == header_fault_len(data@),
        },
{
    let parsed = read_frame_header(data);
    match parsed {
        Ok(h) => if h.crc { 6 } else { 4 },
        Err(_) => {
            if data.len() < 1 || data[0] != 0xff {
                1
            } else if data.len() < 2 {
                2
            } else {
                let b = data[1];
                if b & 0xe0 != 0xe0 || (b >> 3u8) & 3u8 == 1 || (b >> 1u8) & 3u8 != 1 {
                    2
                } else {
                    4
                }
            }
        },
    }
}

/// Parsing the same bytes twice gives the same header.
pub proof fn lemma_header_parse_idempotent(s: Seq<u8>, h1: FrameHeader, h2: FrameHeader)
    requires
        header_of(s) == Ok::<FrameHeader, ErrorKind>(h1),
        header_of(s) == Ok::<FrameHeader, ErrorKind>(h2),
    ensures
        h1 == h2,
{
}

} // verus!
