//! Reordering of short-block bins.
use crate::tables::{band_short, lemma_band_tables, short_bands};
use crate::types::BlockType;
use vstd::prelude::*;

verus! {

/// The first short band that a block of type `bt` holds: 3 for mixed blocks
/// (their first 36 bins are long bands), else 0.
pub open spec fn first_short_band(bt: BlockType) -> int {
    if bt == BlockType::Mixed { 3 } else { 0 }
}

/// Whether short band `sfb` is reordered: where it starts below `count1`.
pub open spec fn band_reordered(t: int, bt: BlockType, count1: int, sfb: int) -> bool {
    3 * short_bands(t)[sfb] < count1
}

/// What bin `start + off` of a reordered band of width `w` holds: the bin
/// that sat at window `off % 3`, frequency `off / 3` of the band.
pub open spec fn reordered_source(start: int, w: int, off: int) -> int {
    start + (off % 3) * w + off / 3
}

/// The first bin of short band `sfb`.
pub open spec fn band_start(t: int, sfb: int) -> int {
    3 * short_bands(t)[sfb]
}

/// The width of short band `sfb` within one window.
pub open spec fn band_width(t: int, sfb: int) -> int {
    short_bands(t)[sfb + 1] - short_bands(t)[sfb]
}

/// What bin `band_start(t, sfb) + off` holds after reordering.
pub open spec fn reordered_bin<T>(t: int, bt: BlockType, count1: int, prior: Seq<T>, sfb: int, off: int) -> T {
    if band_reordered(t, bt, count1, sfb) {
        prior[reordered_source(band_start(t, sfb), band_width(t, sfb), off)]
    } else {
        prior[band_start(t, sfb) + off]
    }
}

/// Reorders the bins of the short bands of a short or mixed block from
/// window-major order (each window's frequencies in turn) to frequency-major
/// order (the three windows of each frequency together). Short band `sfb`
/// spans bins `3 * short[sfb] .. 3 * short[sfb + 1]`. Long blocks, bins below
/// the first short band, and bands that start at or beyond `count1`
/// are left as they are.
pub fn reorder<T: Copy>(sample_rate_table: usize, block_type: BlockType, count1: u32, samples: &mut [T; 576])
    requires
        sample_rate_table < 9,
    ensures
        !block_type.is_short_or_mixed() ==> final(samples)@ == old(samples)@,
        block_type.is_short_or_mixed() ==> forall|i: int|
            0 <= i < band_start(sample_rate_table as int, first_short_band(block_type)) ==> #[trigger] final(samples)@[i] == old(samples)@[i],
        block_type.is_short_or_mixed() ==> forall|sfb: int, off: int|
            first_short_band(block_type) <= sfb < 13 && 0 <= off < 3 * band_width(sample_rate_table as int, sfb) ==>
                #[trigger] final(samples)@[band_start(sample_rate_table as int, sfb) + off]
                    == reordered_bin(sample_rate_table as int, block_type, count1 as int, old(samples)@, sfb, off),
{
    if block_type != BlockType::Short && block_type != BlockType::Mixed {
        return;
    }
    let ghost t = sample_rate_table as int;
    proof {
        lemma_band_tables(t);
    }
    let snapshot: [T; 576] = *samples;
    let first: usize = if block_type == BlockType::Mixed { 3 } else { 0 };
    let mut sfb: usize = first;
    let mut go = true;
    while sfb < 13
        invariant
            sample_rate_table < 9,
            t == sample_rate_table as int,
            first == first_short_band(block_type),
            first <= sfb <= 13,
            snapshot@ == old(samples)@,
            short_bands(t).len() == 14,
            short_bands(t)[13] == 192,
            forall|i: int, j: int| 0 <= i < j < 14 ==> short_bands(t)[i] < short_bands(t)[j],
            go ==> forall|b: int| first <= b < sfb ==> band_reordered(t, block_type, count1 as int, b),
            !go ==> forall|b: int| sfb <= b < 13 ==> !band_reordered(t, block_type, count1 as int, b),
            forall|i: int| 0 <= i < 3 * short_bands(t)[first as int] ==> #[trigger] samples@[i] == old(samples)@[i],
            forall|i: int| 3 * short_bands(t)[sfb as int] <= i < 576 ==> #[trigger] samples@[i] == old(samples)@[i],
            forall|b: int, off: int| first <= b < sfb && 0 <= off < 3 * band_width(t, b) ==>
                #[trigger] samples@[band_start(t, b) + off] == reordered_bin(t, block_type, count1 as int, old(samples)@, b, off),
        decreases 13 - sfb,
    {
        let lo = band_short(sample_rate_table, sfb) as usize;
        let hi = band_short(sample_rate_table, sfb + 1) as usize;
        let start = 3 * lo;
        let w = hi - lo;
        if start >= count1 as usize {
            go = false;
        }
        if go {
            let ghost before = samples@;
            let mut off: usize = 0;
            while off < 3 * w
                invariant
                    start == 3 * short_bands(t)[sfb as int],
                    w == short_bands(t)[sfb + 1] - short_bands(t)[sfb as int],
                    start + 3 * w <= 576,
                    off <= 3 * w,
                    snapshot@ == old(samples)@,
                    before.len() == 576,
                    forall|i: int| 0 <= i < start ==> #[trigger] samples@[i] == before[i],
                    forall|i: int| start + off <= i < 576 ==> #[trigger] samples@[i] == before[i],
                    forall|o: int| 0 <= o < off ==> #[trigger] samples@[start + o] == old(samples)@[reordered_source(start as int, w as int, o)],
                decreases 3 * w - off,
            {
                assert((off % 3) * w + off / 3 < 3 * w) by (nonlinear_arith)
                    requires
                        off < 3 * w,
                ;
                let src = start + (off % 3) * w + off / 3;
                samples[start + off] = snapshot[src];
                off = off + 1;
            }
        }
        sfb = sfb + 1;
    }
}

} // verus!
