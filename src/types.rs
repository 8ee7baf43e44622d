//! Types that describe an MP3 stream and the data of one frame.
use vstd::prelude::*;

verus! {

/// The maximum number of channels in an MP3 stream.
pub const MAX_CHANNELS: usize = 2;

/// The maximum number of granules in an MP3 frame.
pub const MAX_GRANULES: usize = 2;

/// The version of the MPEG standard used in encoding audio.
#[derive(Copy, Clone, PartialEq, Eq, Debug, Structural)]
#[allow(clippy::enum_variant_names)]
pub enum MpegVersion {
    /// MPEG-1 (ISO/IEC 11172-3)
    Mpeg1,
    /// MPEG-2 (ISO/IEC 13818-3)
    Mpeg2,
    /// MPEG-2.5
    Mpeg2_5,
}

/// The MPEG Layer used in encoding audio.
#[derive(Copy, Clone, PartialEq, Eq, Debug, Structural)]
#[allow(clippy::enum_variant_names)]
pub enum MpegLayer {
    /// MPEG Layer I
    Layer1,
    /// MPEG Layer II
    Layer2,
    /// MPEG Layer III
    Layer3,
}

/// The channel mode.
#[derive(Copy, Clone, PartialEq, Eq, Debug, Structural)]
pub enum Channels {
    /// One audio channel.
    Mono,
    /// Two unrelated audio channels (e.g. for different languages).
    DualMono,
    /// Stereo.
    Stereo,
    /// Joint stereo. Improves compression by utilizing the correlation
    /// in stereo channels.
    JointStereo { intensity_stereo: bool, mid_side_stereo: bool },
}

impl Channels {
    pub open spec fn spec_num_channels(self) -> nat {
        match self {
            Channels::Mono => 1,
            _ => 2,
        }
    }

    /// The number of audio channels.
    pub fn num_channels(self) -> (r: usize)
        ensures
            r == self.spec_num_channels(),
    {
        match self {
            Channels::Mono => 1,
            _ => 2,
        }
    }
}

/// The bit rate of an MP3 stream.
#[derive(Copy, Clone, PartialEq, Eq, Debug, Structural)]
pub enum BitRate {
    Kbps8,
    Kbps16,
    Kbps24,
    Kbps32,
    Kbps40,
    Kbps48,
    Kbps56,
    Kbps64,
    Kbps80,
    Kbps96,
    Kbps112,
    Kbps128,
    Kbps144,
    Kbps160,
    Kbps192,
    Kbps224,
    Kbps256,
    Kbps320,
}

impl BitRate {
    pub open spec fn spec_bps(self) -> u32 {
        match self {
            BitRate::Kbps8 => 8_000,
            BitRate::Kbps16 => 16_000,
            BitRate::Kbps24 => 24_000,
            BitRate::Kbps32 => 32_000,
            BitRate::Kbps40 => 40_000,
            BitRate::Kbps48 => 48_000,
            BitRate::Kbps56 => 56_000,
            BitRate::Kbps64 => 64_000,
            BitRate::Kbps80 => 80_000,
            BitRate::Kbps96 => 96_000,
            BitRate::Kbps112 => 112_000,
            BitRate::Kbps128 => 128_000,
            BitRate::Kbps144 => 144_000,
            BitRate::Kbps160 => 160_000,
            BitRate::Kbps192 => 192_000,
            BitRate::Kbps224 => 224_000,
            BitRate::Kbps256 => 256_000,
            BitRate::Kbps320 => 320_000,
        }
    }

    /// Returns the bit rate in bits per second.
    pub fn bps(self) -> (r: u32)
        ensures
            r == self.spec_bps(),
            8_000 <= r <= 320_000,
    {
        match self {
            BitRate::Kbps8 => 8_000,
            BitRate::Kbps16 => 16_000,
            BitRate::Kbps24 => 24_000,
            BitRate::Kbps32 => 32_000,
            BitRate::Kbps40 => 40_000,
            BitRate::Kbps48 => 48_000,
            BitRate::Kbps56 => 56_000,
            BitRate::Kbps64 => 64_000,
            BitRate::Kbps80 => 80_000,
            BitRate::Kbps96 => 96_000,
            BitRate::Kbps112 => 112_000,
            BitRate::Kbps128 => 128_000,
            BitRate::Kbps144 => 144_000,
            BitRate::Kbps160 => 160_000,
            BitRate::Kbps192 => 192_000,
            BitRate::Kbps224 => 224_000,
            BitRate::Kbps256 => 256_000,
            BitRate::Kbps320 => 320_000,
        }
    }
}

/// The sample rate of an MP3 stream.
#[derive(Copy, Clone, PartialEq, Eq, Debug, Structural)]
pub enum SampleRate {
    Hz8000,
    Hz11025,
    Hz12000,
    Hz16000,
    Hz22050,
    Hz24000,
    Hz32000,
    Hz44100,
    Hz48000,
}

impl SampleRate {
    pub open spec fn spec_hz(self) -> u32 {
        match self {
            SampleRate::Hz8000 => 8_000,
            SampleRate::Hz11025 => 11_025,
            SampleRate::Hz12000 => 12_000,
            SampleRate::Hz16000 => 16_000,
            SampleRate::Hz22050 => 22_050,
            SampleRate::Hz24000 => 24_000,
            SampleRate::Hz32000 => 32_000,
            SampleRate::Hz44100 => 44_100,
            SampleRate::Hz48000 => 48_000,
        }
    }

    /// Returns the sample rate in hertz.
    pub fn hz(self) -> (r: u32)
        ensures
            r == self.spec_hz(),
            8_000 <= r <= 48_000,
    {
        match self {
            SampleRate::Hz8000 => 8_000,
            SampleRate::Hz11025 => 11_025,
            SampleRate::Hz12000 => 12_000,
            SampleRate::Hz16000 => 16_000,
            SampleRate::Hz22050 => 22_050,
            SampleRate::Hz24000 => 24_000,
            SampleRate::Hz32000 => 32_000,
            SampleRate::Hz44100 => 44_100,
            SampleRate::Hz48000 => 48_000,
        }
    }
}

/// Emphasis used in encoding an MP3 audio stream.
#[derive(Copy, Clone, PartialEq, Eq, Debug, Structural)]
pub enum Emphasis {
    NoEmphasis,
    FiftyFifteen,
    CcitJ17,
}

/// Header of an MP3 frame.
///
/// Contains info about the format of the audio samples.
#[derive(Copy, Clone, PartialEq, Eq, Debug, Structural)]
pub struct FrameHeader {
    /// The MPEG standard used in encoding this frame.
    pub version: MpegVersion,
    /// The MPEG layer of the frame. Only Layer III is decoded.
    pub layer: MpegLayer,
    /// Whether the frame contains a CRC checksum.
    pub crc: bool,
    /// The bitrate of this frame.
    pub bitrate: BitRate,
    /// The sample rate of this frame.
    pub sample_rate: SampleRate,
    /// Whether the frame has an extra padding byte.
    pub padding: bool,
    /// The channel mode of this frame.
    pub channels: Channels,
    /// Whether this frame is under copyright.
    pub copyright: bool,
    /// Whether this frame contains original data or a copy.
    pub original: bool,
    /// The emphasis of this frame.
    pub emphasis: Emphasis,
    /// The row of the scale-factor band tables for this sample rate (0..9).
    pub sample_rate_table: usize,
    /// The number of bytes of the frame body after the header and CRC.
    pub data_size: usize,
}

/// The position of a version's sample rates in the tables: 0, 3 or 6.
pub open spec fn version_table_offset(v: MpegVersion) -> nat {
    match v {
        MpegVersion::Mpeg1 => 0,
        MpegVersion::Mpeg2 => 3,
        MpegVersion::Mpeg2_5 => 6,
    }
}

/// The bytes of side information in a frame of the given version and channels.
pub open spec fn spec_side_data_len(v: MpegVersion, c: Channels) -> nat {
    if c == Channels::Mono && v != MpegVersion::Mpeg1 {
        9
    } else if c != Channels::Mono && v == MpegVersion::Mpeg1 {
        32
    } else {
        17
    }
}

impl FrameHeader {
    pub open spec fn spec_num_granules(self) -> nat {
        if self.version == MpegVersion::Mpeg1 {
            2
        } else {
            1
        }
    }

    pub open spec fn spec_data_size(self) -> int {
        self.data_size as int
    }

    pub open spec fn spec_sample_rate_table(self) -> int {
        self.sample_rate_table as int
    }

    pub open spec fn spec_is_intensity_stereo(self) -> bool {
        match self.channels {
            Channels::JointStereo { intensity_stereo, .. } => intensity_stereo,
            _ => false,
        }
    }

    /// What every header that the parser accepts satisfies: a Layer III frame
    /// whose body holds at least its side information.
    pub open spec fn wf(self) -> bool {
        &&& self.layer == MpegLayer::Layer3
        &&& self.sample_rate_table < 9
        &&& spec_side_data_len(self.version, self.channels) <= self.data_size <= 2000
    }

    /// The number of bytes of side information: 9, 17 or 32.
    pub fn side_data_len(&self) -> (r: usize)
        ensures
            r == spec_side_data_len(self.version, self.channels),
    {
        if self.channels == Channels::Mono && self.version != MpegVersion::Mpeg1 {
            9
        } else if self.channels != Channels::Mono && self.version == MpegVersion::Mpeg1 {
            32
        } else {
            17
        }
    }

    /// The number of granules in the frame: 2 for MPEG-1, else 1.
    pub fn num_granules(&self) -> (r: usize)
        ensures
            r == self.spec_num_granules(),
    {
        if self.version == MpegVersion::Mpeg1 {
            2
        } else {
            1
        }
    }

    /// The number of samples per channel that the frame decodes to: 576 for
    /// each granule.
    pub fn num_samples(&self) -> (r: usize)
        ensures
            r == 576 * self.spec_num_granules(),
            r == 576 || r == 1152,
    {
        if self.version == MpegVersion::Mpeg1 {
            1152
        } else {
            576
        }
    }

    /// Whether the frame uses intensity stereo.
    pub fn is_intensity_stereo(&self) -> (r: bool)
        ensures
            r == self.spec_is_intensity_stereo(),
    {
        match self.channels {
            Channels::JointStereo { intensity_stereo, .. } => intensity_stereo,
            _ => false,
        }
    }

    /// The number of bytes of the frame body: everything after the header
    /// and its CRC.
    pub fn data_size(&self) -> (r: usize)
        ensures
            r == self.data_size,
    {
        self.data_size
    }

    /// The row of the scale-factor band tables for this frame's sample rate:
    /// the rate's code plus 3 for MPEG-2 or 6 for MPEG-2.5.
    pub fn sample_rate_table(&self) -> (r: usize)
        ensures
            r == self.sample_rate_table,
    {
        self.sample_rate_table
    }
}

/// The window shape of a granule.
#[derive(Debug, Copy, Clone, Eq, PartialEq, Structural)]
pub enum BlockType {
    Long,
    Short,
    Mixed,
    Start,
    End,
}

impl Default for BlockType {
    fn default() -> (r: BlockType)
        ensures
            r == BlockType::Long,
    {
        BlockType::Long
    }
}

impl BlockType {
    /// Whether the granule holds short windows (in part or whole).
    pub open spec fn is_short_or_mixed(self) -> bool {
        self == BlockType::Short || self == BlockType::Mixed
    }
}

} // verus!

verus! {

/// Main data of one granule of one channel: scale factors and the quantized
/// spectrum.
#[derive(Debug, Clone, Copy)]
pub struct MainDataChannel {
    /// Long-window scale factors.
    pub scalefac_l: [u8; 22],
    /// Short-window scale factors, per band and window.
    pub scalefac_s: [[u8; 3]; 13],
    /// The bin at which Huffman decoding ended; bins from here on are zero.
    pub count1: u32,
    /// The quantized spectral values.
    pub samples: [i32; 576],
}

} // verus!

verus! {

/// Main data of one granule.
#[derive(Debug, Clone, Copy)]
pub struct MainDataGranule {
    pub channels: [MainDataChannel; 2],
}

/// Main data of one frame.
#[derive(Debug, Clone, Copy)]
pub struct MainData {
    pub granules: [MainDataGranule; 2],
}

impl MainDataChannel {
    /// The Huffman decode of this channel ended at `count1`, within the
    /// granule, and every bin from there on is zero.
    pub open spec fn count1_ok(&self) -> bool {
        &&& self.count1 <= 576
        &&& forall|i: int| self.count1 <= i < 576 ==> #[trigger] self.samples@[i] == 0
    }

    /// No scale factors and a silent spectrum: the data of a channel that a
    /// frame does not carry.
    pub open spec fn is_silent(&self) -> bool {
        &&& self.count1 == 0
        &&& forall|i: int| 0 <= i < 576 ==> #[trigger] self.samples@[i] == 0
        &&& forall|i: int| 0 <= i < 22 ==> #[trigger] self.scalefac_l@[i] == 0
        &&& forall|b: int, w: int| 0 <= b < 13 && 0 <= w < 3 ==> #[trigger] self.scalefac_s@[b]@[w] == 0
    }

    /// A channel with no scale factors and a silent spectrum.
    pub fn empty() -> (r: MainDataChannel)
        ensures
            r.count1 == 0,
            r.count1_ok(),
            r.is_silent(),
    {
        MainDataChannel { scalefac_l: [0u8; 22], scalefac_s: [[0u8; 3]; 13], count1: 0, samples: [0i32; 576] }
    }
}

} // verus!
