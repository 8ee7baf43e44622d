//! Fixed tables of the Layer III format.
use vstd::prelude::*;

verus! {

/// The start bin of each long-window scale-factor band, and 576 at the end,
/// for sample-rate row `t`: 44.1, 48, 32 kHz (MPEG-1), 22.05, 24, 16 kHz
/// (MPEG-2), 11.025, 12, 8 kHz (MPEG-2.5).
pub open spec fn long_bands(t: int) -> Seq<u16> {
    if t == 0 {
        seq![0u16, 4, 8, 12, 16, 20, 24, 30, 36, 44, 52, 62, 74, 90, 110, 134, 162, 196, 238, 288, 342, 418, 576]
    } else if t == 1 {
        seq![0u16, 4, 8, 12, 16, 20, 24, 30, 36, 42, 50, 60, 72, 88, 106, 128, 156, 190, 230, 276, 330, 384, 576]
    } else if t == 2 {
        seq![0u16, 4, 8, 12, 16, 20, 24, 30, 36, 44, 54, 66, 82, 102, 126, 156, 194, 240, 296, 364, 448, 550, 576]
    } else if t == 3 {
        seq![0u16, 6, 12, 18, 24, 30, 36, 44, 54, 66, 80, 96, 116, 140, 168, 200, 238, 284, 336, 396, 464, 522, 576]
    } else if t == 4 {
        seq![0u16, 6, 12, 18, 24, 30, 36, 44, 54, 66, 80, 96, 114, 136, 162, 194, 232, 278, 332, 394, 464, 540, 576]
    } else if t == 5 {
        seq![0u16, 6, 12, 18, 24, 30, 36, 44, 54, 66, 80, 96, 116, 140, 168, 200, 238, 284, 336, 396, 464, 522, 576]
    } else if t == 6 {
        seq![0u16, 6, 12, 18, 24, 30, 36, 44, 54, 66, 80, 96, 116, 140, 168, 200, 238, 284, 336, 396, 464, 522, 576]
    } else if t == 7 {
        seq![0u16, 6, 12, 18, 24, 30, 36, 44, 54, 66, 80, 96, 116, 140, 168, 200, 238, 284, 336, 396, 464, 522, 576]
    } else {
        seq![0u16, 12, 24, 36, 48, 60, 72, 88, 108, 132, 160, 192, 232, 280, 336, 400, 476, 566, 568, 570, 572, 574, 576]
    }
}

/// The start of each short-window scale-factor band within one window, and
/// 192 at the end, for sample-rate row `t`.
pub open spec fn short_bands(t: int) -> Seq<u16> {
    if t == 0 {
        seq![0u16, 4, 8, 12, 16, 22, 30, 40, 52, 66, 84, 106, 136, 192]
    } else if t == 1 {
        seq![0u16, 4, 8, 12, 16, 22, 28, 38, 50, 64, 80, 100, 126, 192]
    } else if t == 2 {
        seq![0u16, 4, 8, 12, 16, 22, 30, 42, 58, 78, 104, 138, 180, 192]
    } else if t == 3 {
        seq![0u16, 4, 8, 12, 18, 24, 32, 42, 56, 74, 100, 132, 174, 192]
    } else if t == 4 {
        seq![0u16, 4, 8, 12, 18, 26, 36, 48, 62, 80, 104, 136, 180, 192]
    } else if t == 5 {
        seq![0u16, 4, 8, 12, 18, 26, 36, 48, 62, 80, 104, 134, 174, 192]
    } else if t == 6 {
        seq![0u16, 4, 8, 12, 18, 26, 36, 48, 62, 80, 104, 134, 174, 192]
    } else if t == 7 {
        seq![0u16, 4, 8, 12, 18, 26, 36, 48, 62, 80, 104, 134, 174, 192]
    } else {
        seq![0u16, 8, 16, 24, 36, 52, 72, 96, 124, 160, 162, 164, 166, 192]
    }
}

/// The band tables start at 0, rise strictly and end at 576 (long) and 192
/// (short).
pub proof fn lemma_band_tables(t: int)
    requires
        0 <= t < 9,
    ensures
        long_bands(t).len() == 23,
        short_bands(t).len() == 14,
        long_bands(t)[0] == 0,
        long_bands(t)[22] == 576,
        short_bands(t)[0] == 0,
        short_bands(t)[13] == 192,
        forall|i: int, j: int| 0 <= i < j < 23 ==> long_bands(t)[i] < long_bands(t)[j],
        forall|i: int, j: int| 0 <= i < j < 14 ==> short_bands(t)[i] < short_bands(t)[j],
{
    assert(forall|i: int| 0 <= i < 22 ==> #[trigger] long_bands(t)[i] < long_bands(t)[i + 1]);
    assert(forall|i: int| 0 <= i < 13 ==> #[trigger] short_bands(t)[i] < short_bands(t)[i + 1]);
    assert forall|i: int, j: int| 0 <= i < j < 23 implies long_bands(t)[i] < long_bands(t)[j] by {
        lemma_rising(long_bands(t), i, j);
    }
    assert forall|i: int, j: int| 0 <= i < j < 14 implies short_bands(t)[i] < short_bands(t)[j] by {
        lemma_rising(short_bands(t), i, j);
    }
}

proof fn lemma_rising(s: Seq<u16>, i: int, j: int)
    requires
        0 <= i < j < s.len(),
        forall|k: int| 0 <= k < s.len() - 1 ==> #[trigger] s[k] < s[k + 1],
    ensures
        s[i] < s[j],
    decreases j - i,
{
    if j > i + 1 {
        lemma_rising(s, i, j - 1);
    }
}

/// Entry `i` of the long-window band table of sample-rate row `t`.
pub fn band_long(t: usize, i: usize) -> (r: u16)
    requires
        t < 9,
        i < 23,
    ensures
        r == long_bands(t as int)[i as int],
        r <= 576,
{
    proof {
        lemma_band_tables(t as int);
    }
    let row: [u16; 23] = if t == 0 {
        [0u16, 4, 8, 12, 16, 20, 24, 30, 36, 44, 52, 62, 74, 90, 110, 134, 162, 196, 238, 288, 342, 418, 576]
    } else if t == 1 {
        [0u16, 4, 8, 12, 16, 20, 24, 30, 36, 42, 50, 60, 72, 88, 106, 128, 156, 190, 230, 276, 330, 384, 576]
    } else if t == 2 {
        [0u16, 4, 8, 12, 16, 20, 24, 30, 36, 44, 54, 66, 82, 102, 126, 156, 194, 240, 296, 364, 448, 550, 576]
    } else if t == 3 {
        [0u16, 6, 12, 18, 24, 30, 36, 44, 54, 66, 80, 96, 116, 140, 168, 200, 238, 284, 336, 396, 464, 522, 576]
    } else if t == 4 {
        [0u16, 6, 12, 18, 24, 30, 36, 44, 54, 66, 80, 96, 114, 136, 162, 194, 232, 278, 332, 394, 464, 540, 576]
    } else if t == 5 {
        [0u16, 6, 12, 18, 24, 30, 36, 44, 54, 66, 80, 96, 116, 140, 168, 200, 238, 284, 336, 396, 464, 522, 576]
    } else if t == 6 {
        [0u16, 6, 12, 18, 24, 30, 36, 44, 54, 66, 80, 96, 116, 140, 168, 200, 238, 284, 336, 396, 464, 522, 576]
    } else if t == 7 {
        [0u16, 6, 12, 18, 24, 30, 36, 44, 54, 66, 80, 96, 116, 140, 168, 200, 238, 284, 336, 396, 464, 522, 576]
    } else {
        [0u16, 12, 24, 36, 48, 60, 72, 88, 108, 132, 160, 192, 232, 280, 336, 400, 476, 566, 568, 570, 572, 574, 576]
    };
    assert(row@ == long_bands(t as int));
    row[i]
}

/// Entry `i` of the short-window band table of sample-rate row `t`.
pub fn band_short(t: usize, i: usize) -> (r: u16)
    requires
        t < 9,
        i < 14,
    ensures
        r == short_bands(t as int)[i as int],
        r <= 192,
{
    proof {
        lemma_band_tables(t as int);
    }
    let row: [u16; 14] = if t == 0 {
        [0u16, 4, 8, 12, 16, 22, 30, 40, 52, 66, 84, 106, 136, 192]
    } else if t == 1 {
        [0u16, 4, 8, 12, 16, 22, 28, 38, 50, 64, 80, 100, 126, 192]
    } else if t == 2 {
        [0u16, 4, 8, 12, 16, 22, 30, 42, 58, 78, 104, 138, 180, 192]
    } else if t == 3 {
        [0u16, 4, 8, 12, 18, 24, 32, 42, 56, 74, 100, 132, 174, 192]
    } else if t == 4 {
        [0u16, 4, 8, 12, 18, 26, 36, 48, 62, 80, 104, 136, 180, 192]
    } else if t == 5 {
        [0u16, 4, 8, 12, 18, 26, 36, 48, 62, 80, 104, 134, 174, 192]
    } else if t == 6 {
        [0u16, 4, 8, 12, 18, 26, 36, 48, 62, 80, 104, 134, 174, 192]
    } else if t == 7 {
        [0u16, 4, 8, 12, 18, 26, 36, 48, 62, 80, 104, 134, 174, 192]
    } else {
        [0u16, 8, 16, 24, 36, 52, 72, 96, 124, 160, 162, 164, 166, 192]
    };
    assert(row@ == short_bands(t as int));
    row[i]
}

/// The widths `slen1` and `slen2` of MPEG-1 scale factors for each value of
/// scalefac_compress.
pub open spec fn slen1_of(c: int) -> nat {
    seq![0nat, 0, 0, 0, 3, 1, 1, 1, 2, 2, 2, 3, 3, 3, 4, 4][c]
}

pub open spec fn slen2_of(c: int) -> nat {
    seq![0nat, 1, 2, 3, 0, 1, 2, 3, 1, 2, 3, 1, 2, 3, 2, 3][c]
}

/// The widths of MPEG-1 scale factors for scalefac_compress `c`.
pub fn scale_factor_sizes(c: usize) -> (r: (u32, u32))
    requires
        c < 16,
    ensures
        r.0 == slen1_of(c as int),
        r.1 == slen2_of(c as int),
        r.0 <= 4,
        r.1 <= 3,
{
    let s1: [u32; 16] = [0u32, 0, 0, 0, 3, 1, 1, 1, 2, 2, 2, 3, 3, 3, 4, 4];
    let s2: [u32; 16] = [0u32, 1, 2, 3, 0, 1, 2, 3, 1, 2, 3, 1, 2, 3, 2, 3];
    assert(s1@.map_values(|v: u32| v as nat) == seq![0nat, 0, 0, 0, 3, 1, 1, 1, 2, 2, 2, 3, 3, 3, 4, 4]);
    assert(s2@.map_values(|v: u32| v as nat) == seq![0nat, 1, 2, 3, 0, 1, 2, 3, 1, 2, 3, 1, 2, 3, 2, 3]);
    assert(s1@[c as int] as nat == s1@.map_values(|v: u32| v as nat)[c as int]);
    assert(s2@[c as int] as nat == s2@.map_values(|v: u32| v as nat)[c as int]);
    (s1[c], s2[c])
}

/// The number of scale factors in each of the four partitions of an MPEG-2
/// or MPEG-2.5 granule, by partition table `p` (0 to 5: three for ordinary
/// channels, three for the intensity-stereo right channel) and block kind
/// `b` (0 long, 1 short, 2 mixed).
pub open spec fn lfs_counts(p: int, b: int) -> Seq<u8> {
    if p == 0 && b == 0 {
        seq![6u8, 5, 5, 5]
    } else if p == 0 && b == 1 {
        seq![9u8, 9, 9, 9]
    } else if p == 0 && b == 2 {
        seq![6u8, 9, 9, 9]
    } else if p == 1 && b == 0 {
        seq![6u8, 5, 7, 3]
    } else if p == 1 && b == 1 {
        seq![9u8, 9, 12, 6]
    } else if p == 1 && b == 2 {
        seq![6u8, 9, 12, 6]
    } else if p == 2 && b == 0 {
        seq![11u8, 10, 0, 0]
    } else if p == 2 && b == 1 {
        seq![18u8, 18, 0, 0]
    } else if p == 2 && b == 2 {
        seq![15u8, 18, 0, 0]
    } else if p == 3 && b == 0 {
        seq![7u8, 7, 7, 0]
    } else if p == 3 && b == 1 {
        seq![12u8, 12, 12, 0]
    } else if p == 3 && b == 2 {
        seq![6u8, 15, 12, 0]
    } else if p == 4 && b == 0 {
        seq![6u8, 6, 6, 3]
    } else if p == 4 && b == 1 {
        seq![12u8, 9, 9, 6]
    } else if p == 4 && b == 2 {
        seq![6u8, 12, 9, 6]
    } else if p == 5 && b == 0 {
        seq![8u8, 8, 5, 0]
    } else if p == 5 && b == 1 {
        seq![15u8, 12, 9, 0]
    } else {
        seq![6u8, 18, 9, 0]
    }
}

/// The four partition counts of table `p`, block kind `b`.
pub fn lfs_table(p: usize, b: usize) -> (r: [u8; 4])
    requires
        p < 6,
        b < 3,
    ensures
        r@ == lfs_counts(p as int, b as int),
        r[0] + r[1] + r[2] + r[3] <= 36,
{
    let r: [u8; 4] = if p == 0 && b == 0 {
        [6u8, 5, 5, 5]
    } else if p == 0 && b == 1 {
        [9u8, 9, 9, 9]
    } else if p == 0 && b == 2 {
        [6u8, 9, 9, 9]
    } else if p == 1 && b == 0 {
        [6u8, 5, 7, 3]
    } else if p == 1 && b == 1 {
        [9u8, 9, 12, 6]
    } else if p == 1 && b == 2 {
        [6u8, 9, 12, 6]
    } else if p == 2 && b == 0 {
        [11u8, 10, 0, 0]
    } else if p == 2 && b == 1 {
        [18u8, 18, 0, 0]
    } else if p == 2 && b == 2 {
        [15u8, 18, 0, 0]
    } else if p == 3 && b == 0 {
        [7u8, 7, 7, 0]
    } else if p == 3 && b == 1 {
        [12u8, 12, 12, 0]
    } else if p == 3 && b == 2 {
        [6u8, 15, 12, 0]
    } else if p == 4 && b == 0 {
        [6u8, 6, 6, 3]
    } else if p == 4 && b == 1 {
        [12u8, 9, 9, 6]
    } else if p == 4 && b == 2 {
        [6u8, 12, 9, 6]
    } else if p == 5 && b == 0 {
        [8u8, 8, 5, 0]
    } else if p == 5 && b == 1 {
        [15u8, 12, 9, 0]
    } else {
        [6u8, 18, 9, 0]
    };
    assert(r@ == lfs_counts(p as int, b as int));
    r
}

} // verus!
