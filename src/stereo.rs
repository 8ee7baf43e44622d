//! The decisions of joint-stereo reconstruction, and the copy that turns a
//! mono granule into two channels.
use crate::requantize::ScaleBand;
use crate::side_info::GranuleChannelSideInfo;
use crate::tables::{band_long, band_short, long_bands, short_bands};
use crate::types::{BlockType, FrameHeader, MpegVersion};
use vstd::prelude::*;

verus! {

/// How intensity stereo rebuilds a bin of the right channel from the left.
#[derive(Debug, Clone, Copy, PartialEq, Eq, Structural)]
pub enum IntensityRatio {
    /// The bin is left as it is.
    Keep,
    /// Left keeps its value; right becomes zero.
    LeftOnly,
    /// The MPEG-1 ratio pair for intensity position `pos` (0 to 5).
    Ratio(u8),
    /// Left keeps its value; right gets the MPEG-2 ratio of index `i`.
    LfsRight(usize),
    /// Left gets the MPEG-2 ratio of index `i`; right gets the left value.
    LfsLeft(usize),
}

/// The ratio that intensity position `pos` of band `sfb` selects. For
/// MPEG-1, positions 7 and above leave the band alone and 6 pans it fully
/// left. For MPEG-2 and 2.5, position 7 leaves the band alone, and otherwise
/// the parity of the band picks the side that keeps its value while the other
/// gets ratio `(sfb >> 1) << (scalefac_compress & 1)`.
pub open spec fn ratio_for(mpeg1: bool, pos: int, sfb: int, sfc: int) -> IntensityRatio {
    if mpeg1 {
        if pos >= 7 {
            IntensityRatio::Keep
        } else if pos == 6 {
            IntensityRatio::LeftOnly
        } else {
            IntensityRatio::Ratio(pos as u8)
        }
    } else if pos == 7 {
        IntensityRatio::Keep
    } else {
        let i = (sfb / 2) * (if sfc % 2 == 1 { 2int } else { 1 });
        if sfb % 2 == 0 {
            IntensityRatio::LfsRight(i as usize)
        } else {
            IntensityRatio::LfsLeft(i as usize)
        }
    }
}

/// The intensity-stereo treatment of the bins of band `b`: bands that start
/// at or beyond the right channel's `count1` take the ratio of the left
/// channel's scale factor there; long bands from 21 on, short bands from 12
/// on, and the first three short bands of a mixed block are left alone.
pub open spec fn intensity_of_band(
    t: int,
    bt: BlockType,
    mpeg1: bool,
    sfc: int,
    l: Seq<u8>,
    s: Seq<[u8; 3]>,
    count1_right: int,
    b: ScaleBand,
) -> IntensityRatio {
    if b.long {
        if b.sfb >= 21 || long_bands(t)[b.sfb as int] < count1_right {
            IntensityRatio::Keep
        } else {
            ratio_for(mpeg1, l[b.sfb as int] as int, b.sfb as int, sfc)
        }
    } else {
        if b.sfb >= 12 || (bt == BlockType::Mixed && b.sfb < 3) || 3 * short_bands(t)[b.sfb as int] < count1_right {
            IntensityRatio::Keep
        } else {
            ratio_for(mpeg1, s[b.sfb as int]@[b.window as int] as int, b.sfb as int, sfc)
        }
    }
}

/// The intensity-stereo treatment of the bins of band `b` of a granule whose
/// left channel has side information `left` and scale factors
/// `scalefac_l`, `scalefac_s`, and whose right channel's spectrum ends at
/// `count1_right`.
pub fn intensity_ratio(
    header: &FrameHeader,
    left: &GranuleChannelSideInfo,
    scalefac_l: &[u8; 22],
    scalefac_s: &[[u8; 3]; 13],
    count1_right: u32,
    b: ScaleBand,
) -> (r: IntensityRatio)
    requires
        header.sample_rate_table < 9,
        b.long ==> b.sfb < 22,
        !b.long ==> b.sfb < 13 && b.window < 3,
    ensures
        r == intensity_of_band(
            header.sample_rate_table as int,
            left.block_type,
            header.version == MpegVersion::Mpeg1,
            left.scalefac_compress as int,
            scalefac_l@,
            scalefac_s@,
            count1_right as int,
            b,
        ),
{
    let t = header.sample_rate_table;
    let pos: u8;
    if b.long {
        if b.sfb >= 21 || (band_long(t, b.sfb) as u32) < count1_right {
            return IntensityRatio::Keep;
        }
        pos = scalefac_l[b.sfb];
    } else {
        if b.sfb >= 12 || (left.block_type == BlockType::Mixed && b.sfb < 3) || 3 * (band_short(t, b.sfb) as u32) < count1_right {
            return IntensityRatio::Keep;
        }
        pos = scalefac_s[b.sfb][b.window];
    }
    if header.version == MpegVersion::Mpeg1 {
        if pos >= 7 {
            IntensityRatio::Keep
        } else if pos == 6 {
            IntensityRatio::LeftOnly
        } else {
            IntensityRatio::Ratio(pos)
        }
    } else if pos == 7 {
        IntensityRatio::Keep
    } else {
        let i = (b.sfb / 2) * (if left.scalefac_compress % 2 == 1 { 2 } else { 1 });
        if b.sfb % 2 == 0 {
            IntensityRatio::LfsRight(i)
        } else {
            IntensityRatio::LfsLeft(i)
        }
    }
}

/// The bins that mid-side stereo rebuilds: those below the larger of the two
/// channels' `count1`.
pub fn mid_side_limit(count1_left: u32, count1_right: u32) -> (r: usize)
    ensures
        r == if count1_left >= count1_right { count1_left } else { count1_right },
{
    if count1_left >= count1_right { count1_left as usize } else { count1_right as usize }
}

/// Copies the first channel of a frame's output into the second, as a mono
/// stream's frames carry the same samples on both channels.
pub fn duplicate_mono<T: Copy>(samples: &mut [[T; 1152]; 2])
    ensures
        final(samples)@[0] == old(samples)@[0],
        final(samples)@[1] == old(samples)@[0],
        forall|i: int| 0 <= i < 1152 ==> #[trigger] final(samples)@[1]@[i] == final(samples)@[0]@[i],
{
    let first = samples[0];
    samples[1] = first;
}

} // verus!
