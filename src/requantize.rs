//! The integer side of requantization: which scale-factor band and window a
//! bin belongs to, and the power of two that scales it.
use crate::side_info::GranuleChannelSideInfo;
use crate::tables::{band_long, band_short, lemma_band_tables, long_bands, short_bands};
use crate::types::BlockType;
use vstd::prelude::*;

verus! {

/// The scale-factor band of a bin: a long band, or a short band and window.
#[derive(Debug, Clone, Copy, PartialEq, Eq, Structural)]
pub struct ScaleBand {
    pub long: bool,
    pub sfb: usize,
    pub window: usize,
}

/// Whether bin `i` lies in the short part of a block: all of a short block,
/// and bins from 36 on in a mixed block.
pub open spec fn is_short_bin(bt: BlockType, i: int) -> bool {
    bt == BlockType::Short || (bt == BlockType::Mixed && i >= 36)
}

/// `b` is the band of bin `i` in sample-rate row `t` for block type `bt`.
pub open spec fn band_of_bin(t: int, bt: BlockType, i: int, b: ScaleBand) -> bool {
    if is_short_bin(bt, i) {
        let lo = 3 * short_bands(t)[b.sfb as int];
        let w = short_bands(t)[b.sfb + 1] - short_bands(t)[b.sfb as int];
        &&& !b.long
        &&& b.sfb < 13
        &&& lo <= i < 3 * short_bands(t)[b.sfb + 1]
        &&& b.window == (i - lo) / w
    } else {
        &&& b.long
        &&& b.sfb < 22
        &&& long_bands(t)[b.sfb as int] <= i < long_bands(t)[b.sfb + 1]
        &&& b.window == 0
    }
}

/// The scale-factor band and window of bin `i`.
pub fn scale_band_of(t: usize, bt: BlockType, i: usize) -> (b: ScaleBand)
    requires
        t < 9,
        i < 576,
    ensures
        band_of_bin(t as int, bt, i as int, b),
        b.window < 3,
{
    proof {
        lemma_band_tables(t as int);
    }
    if bt == BlockType::Short || (bt == BlockType::Mixed && i >= 36) {
        let mut sfb: usize = 0;
        while 3 * (band_short(t, sfb + 1) as usize) <= i
            invariant
                t < 9,
                i < 576,
                sfb < 13,
                3 * short_bands(t as int)[sfb as int] <= i,
                short_bands(t as int)[13] == 192,
                forall|a: int, c: int| 0 <= a < c < 14 ==> short_bands(t as int)[a] < short_bands(t as int)[c],
            decreases 13 - sfb,
        {
            sfb = sfb + 1;
        }
        let lo = 3 * band_short(t, sfb) as usize;
        let w = (band_short(t, sfb + 1) - band_short(t, sfb)) as usize;
        assert(((i - lo) as int) / (w as int) < 3) by (nonlinear_arith)
            requires
                lo <= i < lo + 3 * w,
                w > 0,
        ;
        ScaleBand { long: false, sfb, window: (i - lo) / w }
    } else {
        let mut sfb: usize = 0;
        while band_long(t, sfb + 1) as usize <= i
            invariant
                t < 9,
                i < 576,
                sfb < 22,
                long_bands(t as int)[sfb as int] <= i,
                long_bands(t as int)[22] == 576,
            decreases 22 - sfb,
        {
            sfb = sfb + 1;
        }
        ScaleBand { long: true, sfb, window: 0 }
    }
}

/// The pretab values that preflag adds to the long scale factors.
pub open spec fn pretab(sfb: int) -> int {
    seq![0int, 0, 0, 0, 0, 0, 0, 0, 0, 0, 0, 1, 1, 1, 1, 2, 2, 3, 3, 3, 2, 0][sfb]
}

/// Four times the base-2 exponent that scales a bin of band `b`:
/// `global_gain - 210 - 8 * subblock_gain[window]` (the gain term for short
/// windows only), less `2 * (1 + scalefac_scale)` times the scale factor (plus
/// pretab for long bands where preflag is set).
pub open spec fn gain_exponent_of(side: GranuleChannelSideInfo, l: Seq<u8>, s: Seq<[u8; 3]>, b: ScaleBand) -> int {
    let mult: int = if side.scalefac_scale { 4 } else { 2 };
    if b.long {
        side.global_gain - 210 - mult * (l[b.sfb as int] + if side.preflag { pretab(b.sfb as int) } else { 0 })
    } else {
        side.global_gain - 210 - 8 * side.subblock_gain[b.window as int] - mult * s[b.sfb as int]@[b.window as int]
    }
}

/// Four times the base-2 exponent of the gain of a bin in band `b`: the bin's
/// requantized value is `sign(x) * |x|^(4/3) * 2^(e / 4)`.
pub fn gain_exponent(side: &GranuleChannelSideInfo, scalefac_l: &[u8; 22], scalefac_s: &[[u8; 3]; 13], b: ScaleBand) -> (e: i32)
    requires
        b.long ==> b.sfb < 22,
        !b.long ==> b.sfb < 13 && b.window < 3,
    ensures
        e == gain_exponent_of(*side, scalefac_l@, scalefac_s@, b),
{
    let mult: i32 = if side.scalefac_scale { 4 } else { 2 };
    if b.long {
        let pre: [i32; 22] = [0, 0, 0, 0, 0, 0, 0, 0, 0, 0, 0, 1, 1, 1, 1, 2, 2, 3, 3, 3, 2, 0];
        assert(pre@.map_values(|x: i32| x as int) =~= seq![0int, 0, 0, 0, 0, 0, 0, 0, 0, 0, 0, 1, 1, 1, 1, 2, 2, 3, 3, 3, 2, 0]);
        assert(pre@.map_values(|x: i32| x as int)[b.sfb as int] == pre@[b.sfb as int] as int);
        let p = if side.preflag { pre[b.sfb] } else { 0 };
        side.global_gain as i32 - 210 - mult * (scalefac_l[b.sfb] as i32 + p)
    } else {
        side.global_gain as i32 - 210 - 8 * side.subblock_gain[b.window] as i32 - mult * scalefac_s[b.sfb][b.window] as i32
    }
}

} // verus!
