//! Reading of scale factors from the main data.
use crate::bits::{bits_value, lemma_bits_bound, BitReader};
use crate::error::{Error, ErrorKind};
use crate::tables::{lfs_counts, lfs_table, scale_factor_sizes, slen1_of, slen2_of};
use crate::types::BlockType;
use vstd::prelude::*;

verus! {

/// Field `j` of a run of `w`-bit fields that starts at bit `p`.
pub open spec fn run_field(s: Seq<u8>, p: int, w: nat, j: int) -> nat {
    bits_value(s, p + j * w, w)
}

/// Reads `n` fields of `w` bits each. A width of 0 reads nothing and gives
/// zeros. Running out of bits is `InvalidData`.
pub fn read_run(r: &mut BitReader, w: u32, n: usize) -> (res: Result<Vec<u8>, Error>)
    requires
        old(r).wf(),
        w <= 8,
        n <= 64,
    ensures
        final(r).data@ == old(r).data@,
        final(r).wf(),
        match res {
            Ok(v) => {
                &&& old(r).pos + n * w <= old(r).bit_len()
                &&& final(r).pos == old(r).pos + n * w
                &&& v@.len() == n
                &&& forall|j: int| 0 <= j < n ==> #[trigger] v@[j] == run_field(old(r).data@, old(r).pos as int, w as nat, j)
            },
            Err(e) => old(r).pos + n * w > old(r).bit_len() && e.kind() == ErrorKind::InvalidData,
        },
{
    let ghost s = r.data@;
    let ghost p = r.pos as int;
    assert(n * w <= 64 * 8) by (nonlinear_arith)
        requires
            n <= 64,
            w <= 8,
    ;
    if n * (w as usize) > r.bits_left() {
        return Err(crate::error::invalid("scale factors run past the main data"));
    }
    let mut v: Vec<u8> = Vec::new();
    let mut j: usize = 0;
    while j < n
        invariant
            r.wf(),
            r.data@ == s,
            s == old(r).data@,
            p == old(r).pos,
            j <= n,
            n <= 64,
            w <= 8,
            r.pos == p + j * w,
            p + n * w <= r.bit_len(),
            v@.len() == j,
            forall|k: int| 0 <= k < j ==> #[trigger] v@[k] == run_field(s, p, w as nat, k),
        decreases n - j,
    {
        assert((j + 1) * w == j * w + w) by (nonlinear_arith);
        assert(n * w >= (j + 1) * w) by (nonlinear_arith)
            requires
                j + 1 <= n,
        ;
        let x = match r.read(w) {
            Ok(x) => x,
            Err(_) => 0,
        };
        proof {
            lemma_bits_bound(s, p + j * w, w as nat);
            vstd::arithmetic::power2::lemma2_to64();
            if w < 8 {
                vstd::arithmetic::power2::lemma_pow2_strictly_increases(w as nat, 8);
            }
        }
        v.push(x as u8);
        j = j + 1;
    }
    Ok(v)
}

/// The first long band of region `k` of an MPEG-1 long block: 0, 6, 11, 16,
/// and 21 past the last region.
pub open spec fn long_region_start(k: int) -> int {
    if k <= 0 { 0 } else if k == 1 { 6 } else if k == 2 { 11 } else if k == 3 { 16 } else { 21 }
}

/// The region of long band `sfb` (below 21).
pub open spec fn long_region_of(sfb: int) -> int {
    if sfb < 6 { 0 } else if sfb < 11 { 1 } else if sfb < 16 { 2 } else { 3 }
}

/// The width of the scale factors of region `k`: `slen1` for the first two
/// regions, `slen2` for the last two.
pub open spec fn region_width(c: int, k: int) -> nat {
    if k < 2 { slen1_of(c) } else { slen2_of(c) }
}

/// Whether region `k` is read from the stream: its width is not zero, and it
/// belongs to the first granule or its SCFSI bit is clear.
pub open spec fn region_read(c: int, k: int, granule: int, scfsi: Seq<bool>) -> bool {
    region_width(c, k) > 0 && (granule == 0 || !scfsi[k])
}

/// The bit offset at which region `k` starts.
pub open spec fn region_offset(c: int, k: int, granule: int, scfsi: Seq<bool>) -> int
    decreases k,
{
    if k <= 0 {
        0
    } else {
        region_offset(c, k - 1, granule, scfsi) + if region_read(c, k - 1, granule, scfsi) {
            (long_region_start(k) - long_region_start(k - 1)) * region_width(c, k - 1)
        } else {
            0
        }
    }
}

/// Long scale factor `sfb` of an MPEG-1 long, start or end block whose scale
/// factors start at bit `p`: read from the stream, copied from the first
/// granule's `prev` where SCFSI says so, or zero where the width is zero.
pub open spec fn long_scale_factor(s: Seq<u8>, p: int, c: int, granule: int, scfsi: Seq<bool>, prev: Seq<u8>, sfb: int) -> u8 {
    let k = long_region_of(sfb);
    if sfb >= 21 {
        0
    } else if region_read(c, k, granule, scfsi) {
        run_field(s, p + region_offset(c, k, granule, scfsi), region_width(c, k), sfb - long_region_start(k)) as u8
    } else if region_width(c, k) > 0 {
        prev[sfb]
    } else {
        0
    }
}

/// The bits of scale factors of an MPEG-1 short or mixed block: 8 long ones
/// for a mixed block, then 18 at `slen1` and 18 at `slen2`.
pub open spec fn short_block_bits(c: int, mixed: bool) -> nat {
    (if mixed { 8 * slen1_of(c) } else { 0 }) + 18 * slen1_of(c) + 18 * slen2_of(c)
}

/// Short scale factor of band `sfb`, window `win` of an MPEG-1 short or
/// mixed block whose scale factors start at bit `p`.
pub open spec fn short_scale_factor(s: Seq<u8>, p: int, c: int, mixed: bool, sfb: int, win: int) -> u8 {
    let base = p + if mixed { 8 * slen1_of(c) } else { 0 };
    if sfb < 6 {
        run_field(s, base, slen1_of(c), sfb * 3 + win) as u8
    } else if sfb < 12 {
        run_field(s, base + 18 * slen1_of(c), slen2_of(c), (sfb - 6) * 3 + win) as u8
    } else {
        0
    }
}

/// Copies `v` into `l` from index `start` on.
fn place(l: &mut [u8; 22], start: usize, v: &Vec<u8>)
    requires
        start + v@.len() <= 22,
    ensures
        forall|i: int| 0 <= i < 22 ==> #[trigger] final(l)@[i] == if start <= i < start + v@.len() {
            v@[i - start]
        } else {
            old(l)@[i]
        },
{
    let mut j: usize = 0;
    while j < v.len()
        invariant
            j <= v@.len(),
            start + v@.len() <= 22,
            forall|i: int| 0 <= i < 22 ==> #[trigger] l@[i] == if start <= i < start + j {
                v@[i - start]
            } else {
                old(l)@[i]
            },
        decreases v@.len() - j,
    {
        l[start + j] = v[j];
        j = j + 1;
    }
}

/// Reads the long scale factors of an MPEG-1 long, start or end block.
#[verifier::rlimit(40)]
fn read_long_scale_factors(r: &mut BitReader, c: usize, granule: usize, scfsi: &[bool; 4], prev: &[u8; 22]) -> (res: Result<[u8; 22], Error>)
    requires
        old(r).wf(),
        c < 16,
    ensures
        final(r).data@ == old(r).data@,
        final(r).wf(),
        match res {
            Ok(l) => {
                &&& old(r).pos + region_offset(c as int, 4, granule as int, scfsi@) <= old(r).bit_len()
                &&& final(r).pos == old(r).pos + region_offset(c as int, 4, granule as int, scfsi@)
                &&& forall|sfb: int| 0 <= sfb < 22 ==> #[trigger] l@[sfb]
                    == long_scale_factor(old(r).data@, old(r).pos as int, c as int, granule as int, scfsi@, prev@, sfb)
            },
            Err(e) => {
                &&& old(r).pos + region_offset(c as int, 4, granule as int, scfsi@) > old(r).bit_len()
                &&& e.kind() == ErrorKind::InvalidData
            },
        },
{
    let ghost s = r.data@;
    let ghost p = r.pos as int;
    let ghost g = granule as int;
    let (s1, s2) = scale_factor_sizes(c);
    let mut l = [0u8; 22];
    let mut k: usize = 0;
    while k < 4
        invariant
            r.wf(),
            r.data@ == s,
            s == old(r).data@,
            p == old(r).pos,
            g == granule as int,
            c < 16,
            k <= 4,
            s1 == slen1_of(c as int),
            s2 == slen2_of(c as int),
            r.pos == p + region_offset(c as int, k as int, g, scfsi@),
            forall|sfb: int| 0 <= sfb < 22 ==> #[trigger] l@[sfb] == if sfb < long_region_start(k as int) {
                long_scale_factor(s, p, c as int, g, scfsi@, prev@, sfb)
            } else {
                0
            },
        decreases 4 - k,
    {
        let start: usize = if k == 0 { 0 } else if k == 1 { 6 } else if k == 2 { 11 } else { 16 };
        let end: usize = if k == 0 { 6 } else if k == 1 { 11 } else if k == 2 { 16 } else { 21 };
        let w = if k < 2 { s1 } else { s2 };
        let ghost before = l@;
        let ghost pos0 = r.pos as int;
        assert(start == long_region_start(k as int) && end == long_region_start(k as int + 1));
        assert(w == region_width(c as int, k as int));
        assert(region_offset(c as int, k as int + 1, g, scfsi@) == region_offset(c as int, k as int, g, scfsi@) + if region_read(c as int, k as int, g, scfsi@) {
            (end - start) * w
        } else {
            0
        });
        if w > 0 && (granule == 0 || !scfsi[k]) {
            let v = match read_run(r, w, end - start) {
                Ok(v) => v,
                Err(e) => {
                    proof {
                        lemma_region_offset_grows(c as int, k as int + 1, 4, g, scfsi@);
                    }
                    return Err(e);
                },
            };
            assert(r.pos == pos0 + (end - start) * w);
            place(&mut l, start, &v);
            proof {
                assert forall|sfb: int| 0 <= sfb < 22 implies #[trigger] l@[sfb] == if sfb < long_region_start(k as int + 1) {
                    long_scale_factor(s, p, c as int, g, scfsi@, prev@, sfb)
                } else {
                    0
                } by {
                    if start <= sfb < end {
                        assert(long_region_of(sfb) == k);
                        assert(v@[sfb - start] == run_field(s, pos0, w as nat, sfb - start));
                    }
                }
            }
        } else if w > 0 {
            let mut j: usize = start;
            while j < end
                invariant
                    start <= j <= end <= 21,
                    forall|i: int| 0 <= i < 22 ==> #[trigger] l@[i] == if start <= i < j { prev@[i] } else { before[i] },
                    before.len() == 22,
                decreases end - j,
            {
                l[j] = prev[j];
                j = j + 1;
            }
        }
        k = k + 1;
    }
    proof {
        assert(long_scale_factor(s, p, c as int, g, scfsi@, prev@, 21) == 0);
    }
    Ok(l)
}

/// The offset of a later region is no smaller.
proof fn lemma_region_offset_grows(c: int, k: int, m: int, granule: int, scfsi: Seq<bool>)
    requires
        0 <= k <= m,
    ensures
        region_offset(c, k, granule, scfsi) <= region_offset(c, m, granule, scfsi),
    decreases m - k,
{
    if k < m {
        lemma_region_offset_grows(c, k, m - 1, granule, scfsi);
    }
}

/// Copies 18 values into bands `first .. first + 6` of `sf`, three windows
/// per band.
fn place_short(sf: &mut [[u8; 3]; 13], first: usize, v: &Vec<u8>)
    requires
        first + 6 <= 13,
        v@.len() == 18,
    ensures
        forall|b: int, w: int| 0 <= b < 13 && 0 <= w < 3 ==> #[trigger] final(sf)@[b]@[w] == if first <= b < first + 6 {
            v@[(b - first) * 3 + w]
        } else {
            old(sf)@[b]@[w]
        },
{
    let mut j: usize = 0;
    while j < 18
        invariant
            j <= 18,
            first + 6 <= 13,
            v@.len() == 18,
            forall|b: int, w: int| 0 <= b < 13 && 0 <= w < 3 ==> #[trigger] sf@[b]@[w] == if first <= b < first + 6 && (b - first) * 3 + w < j {
                v@[(b - first) * 3 + w]
            } else {
                old(sf)@[b]@[w]
            },
        decreases 18 - j,
    {
        let b = first + j / 3;
        let w = j % 3;
        let x = v[j];
        sf[b][w] = x;
        assert forall|bb: int, ww: int| 0 <= bb < 13 && 0 <= ww < 3 implies #[trigger] sf@[bb]@[ww] == if first <= bb < first + 6 && (bb - first) * 3 + ww < j + 1 {
            v@[(bb - first) * 3 + ww]
        } else {
            old(sf)@[bb]@[ww]
        } by {
            if bb == b && ww == w {
                assert((bb - first) * 3 + ww == j);
            } else if first <= bb < first + 6 && (bb - first) * 3 + ww == j {
                assert(bb == b && ww == w);
            }
        }
        j = j + 1;
    }
}

/// Reads the scale factors of an MPEG-1 short or mixed block.
#[verifier::rlimit(40)]
fn read_short_scale_factors(r: &mut BitReader, c: usize, mixed: bool) -> (res: Result<([u8; 22], [[u8; 3]; 13]), Error>)
    requires
        old(r).wf(),
        c < 16,
    ensures
        final(r).data@ == old(r).data@,
        final(r).wf(),
        match res {
            Ok((l, sf)) => {
                &&& old(r).pos + short_block_bits(c as int, mixed) <= old(r).bit_len()
                &&& final(r).pos == old(r).pos + short_block_bits(c as int, mixed)
                &&& forall|sfb: int| 0 <= sfb < 22 ==> #[trigger] l@[sfb] == if mixed && sfb < 8 {
                    run_field(old(r).data@, old(r).pos as int, slen1_of(c as int), sfb) as u8
                } else {
                    0
                }
                &&& forall|sfb: int, win: int| 0 <= sfb < 13 && 0 <= win < 3 ==> #[trigger] sf@[sfb]@[win]
                    == short_scale_factor(old(r).data@, old(r).pos as int, c as int, mixed, sfb, win)
            },
            Err(e) => {
                &&& old(r).pos + short_block_bits(c as int, mixed) > old(r).bit_len()
                &&& e.kind() == ErrorKind::InvalidData
            },
        },
{
    let ghost s = r.data@;
    let ghost p = r.pos as int;
    let (s1, s2) = scale_factor_sizes(c);
    let mut l = [0u8; 22];
    let mut sf = [[0u8; 3]; 13];
    let ghost total = short_block_bits(c as int, mixed);
    if mixed {
        let v = read_run(r, s1, 8)?;
        place(&mut l, 0, &v);
    }
    let ghost base = r.pos as int;
    assert(base == p + if mixed { 8 * slen1_of(c as int) } else { 0 });
    let v1 = match read_run(r, s1, 18) {
        Ok(v) => v,
        Err(e) => return Err(e),
    };
    place_short(&mut sf, 0, &v1);
    let v2 = match read_run(r, s2, 18) {
        Ok(v) => v,
        Err(e) => return Err(e),
    };
    place_short(&mut sf, 6, &v2);
    proof {
        assert forall|sfb: int, win: int| 0 <= sfb < 13 && 0 <= win < 3 implies #[trigger] sf@[sfb]@[win]
            == short_scale_factor(s, p, c as int, mixed, sfb, win) by {
            if sfb < 6 {
                assert(v1@[sfb * 3 + win] == run_field(s, base, s1 as nat, sfb * 3 + win));
            } else if sfb < 12 {
                assert(v2@[(sfb - 6) * 3 + win] == run_field(s, base + 18 * s1, s2 as nat, (sfb - 6) * 3 + win));
            }
        }
    }
    Ok((l, sf))
}

/// What `read_scale_factors` gives from bit `p` of `s`: the long and short
/// scale factors `l` and `sf`, with the reader left at bit `end`.
#[verifier::opaque]
pub open spec fn scale_factors_read(
    s: Seq<u8>,
    p: usize,
    block_type: BlockType,
    scalefac_compress: u16,
    scfsi: Seq<bool>,
    granule: usize,
    prev: Seq<u8>,
    l: Seq<u8>,
    sf: Seq<[u8; 3]>,
    end: usize,
) -> bool {
    let c = scalefac_compress as int;
    let mixed = block_type == BlockType::Mixed;
    &&& end == p + if block_type.is_short_or_mixed() { short_block_bits(c, mixed) as int } else { region_offset(c, 4, granule as int, scfsi) }
    &&& if block_type.is_short_or_mixed() {
        &&& forall|sfb: int| 0 <= sfb < 22 ==> #[trigger] l[sfb] == if mixed && sfb < 8 {
            run_field(s, p as int, slen1_of(c), sfb) as u8
        } else {
            0
        }
        &&& forall|sfb: int, win: int| 0 <= sfb < 13 && 0 <= win < 3 ==> #[trigger] sf[sfb]@[win]
            == short_scale_factor(s, p as int, c, mixed, sfb, win)
    } else {
        &&& forall|sfb: int| 0 <= sfb < 22 ==> #[trigger] l[sfb] == long_scale_factor(s, p as int, c, granule as int, scfsi, prev, sfb)
        &&& forall|sfb: int, win: int| 0 <= sfb < 13 && 0 <= win < 3 ==> #[trigger] sf[sfb]@[win] == 0
    }
}

/// Reads the scale factors of one granule of one channel of an MPEG-1 frame.
/// `prev` holds the first granule's long scale factors, which a later
/// granule reuses for each region whose SCFSI bit is set.
pub fn read_scale_factors(
    r: &mut BitReader,
    block_type: BlockType,
    scalefac_compress: u16,
    scfsi: &[bool; 4],
    granule: usize,
    prev: &[u8; 22],
) -> (res: Result<([u8; 22], [[u8; 3]; 13]), Error>)
    requires
        old(r).wf(),
        scalefac_compress < 16,
    ensures
        final(r).data@ == old(r).data@,
        final(r).wf(),
        res is Ok ==> final(r).pos >= old(r).pos,
        res is Ok ==> scale_factors_read(old(r).data@, old(r).pos, block_type, scalefac_compress, scfsi@, granule, prev@,
            res->Ok_0.0@, res->Ok_0.1@, final(r).pos),
        ({
            let c = scalefac_compress as int;
            let bits = if block_type.is_short_or_mixed() {
                short_block_bits(c, block_type == BlockType::Mixed) as int
            } else {
                region_offset(c, 4, granule as int, scfsi@)
            };
            match res {
                Ok((l, sf)) => {
                    &&& old(r).pos + bits <= old(r).bit_len()
                    &&& final(r).pos == old(r).pos + bits
                    &&& if block_type.is_short_or_mixed() {
                        let mixed = block_type == BlockType::Mixed;
                        &&& forall|sfb: int| 0 <= sfb < 22 ==> #[trigger] l@[sfb] == if mixed && sfb < 8 {
                            run_field(old(r).data@, old(r).pos as int, slen1_of(c), sfb) as u8
                        } else {
                            0
                        }
                        &&& forall|sfb: int, win: int| 0 <= sfb < 13 && 0 <= win < 3 ==> #[trigger] sf@[sfb]@[win]
                            == short_scale_factor(old(r).data@, old(r).pos as int, c, mixed, sfb, win)
                    } else {
                        &&& forall|sfb: int| 0 <= sfb < 22 ==> #[trigger] l@[sfb]
                            == long_scale_factor(old(r).data@, old(r).pos as int, c, granule as int, scfsi@, prev@, sfb)
                        &&& forall|sfb: int, win: int| 0 <= sfb < 13 && 0 <= win < 3 ==> #[trigger] sf@[sfb]@[win] == 0
                    }
                },
                Err(e) => old(r).pos + bits > old(r).bit_len() && e.kind() == ErrorKind::InvalidData,
            }
        }),
{
    let c = scalefac_compress as usize;
    if block_type == BlockType::Short || block_type == BlockType::Mixed {
        let res = read_short_scale_factors(r, c, block_type == BlockType::Mixed);
        proof {
            reveal(scale_factors_read);
        }
        res
    } else {
        proof {
            lemma_region_offset_grows(c as int, 0, 4, granule as int, scfsi@);
        }
        let l = read_long_scale_factors(r, c, granule, scfsi, prev)?;
        let sf = [[0u8; 3]; 13];
        proof {
            reveal(scale_factors_read);
        }
        Ok((l, sf))
    }
}

/// The four scale-factor widths of an MPEG-2 or MPEG-2.5 granule, derived
/// from scalefac_compress `sfc`; for the right channel of an intensity-stereo
/// frame the derivation uses `sfc / 2`.
pub open spec fn lfs_widths(sfc: int, intensity: bool) -> Seq<nat> {
    if intensity {
        let x = sfc / 2;
        if x < 180 {
            seq![(x / 36) as nat, ((x % 36) / 6) as nat, (x % 6) as nat, 0]
        } else if x < 244 {
            seq![(((x - 180) % 64) / 16) as nat, (((x - 180) % 16) / 4) as nat, ((x - 180) % 4) as nat, 0]
        } else {
            seq![((x - 244) / 3) as nat, ((x - 244) % 3) as nat, 0, 0]
        }
    } else {
        if sfc < 400 {
            seq![(sfc / 80) as nat, ((sfc / 16) % 5) as nat, ((sfc % 16) / 4) as nat, (sfc % 4) as nat]
        } else if sfc < 500 {
            seq![((sfc - 400) / 20) as nat, (((sfc - 400) / 4) % 5) as nat, ((sfc - 400) % 4) as nat, 0]
        } else {
            seq![((sfc - 500) / 3) as nat, ((sfc - 500) % 3) as nat, 0, 0]
        }
    }
}

/// The partition table (0 to 5) that scalefac_compress selects.
pub open spec fn lfs_partition(sfc: int, intensity: bool) -> int {
    if intensity {
        let x = sfc / 2;
        if x < 180 { 3 } else if x < 244 { 4 } else { 5 }
    } else {
        if sfc < 400 { 0 } else if sfc < 500 { 1 } else { 2 }
    }
}

/// The block kind of the partition tables: 0 long, 1 short, 2 mixed.
pub open spec fn lfs_block(bt: BlockType) -> int {
    if bt == BlockType::Short { 1 } else if bt == BlockType::Mixed { 2 } else { 0 }
}

/// Value `i` of the sequence of scale factors read for a granule: the
/// partitions follow each other, partition `k` holding `n[k]` fields of
/// `w[k]` bits; a width of zero gives zeros, and past the last partition
/// every value is zero.
pub open spec fn lfs_slot(s: Seq<u8>, p: int, w: Seq<nat>, n: Seq<u8>, i: int) -> u8 {
    let n0 = n[0] as int;
    let n1 = n[1] as int;
    let n2 = n[2] as int;
    let n3 = n[3] as int;
    let o1 = p + n0 * w[0];
    let o2 = o1 + n1 * w[1];
    let o3 = o2 + n2 * w[2];
    if i < n0 {
        run_field(s, p, w[0], i) as u8
    } else if i < n0 + n1 {
        run_field(s, o1, w[1], i - n0) as u8
    } else if i < n0 + n1 + n2 {
        run_field(s, o2, w[2], i - n0 - n1) as u8
    } else if i < n0 + n1 + n2 + n3 {
        run_field(s, o3, w[3], i - n0 - n1 - n2) as u8
    } else {
        0
    }
}

/// The bits that the four partitions occupy.
pub open spec fn lfs_bits(w: Seq<nat>, n: Seq<u8>) -> int {
    n[0] * w[0] + n[1] * w[1] + n[2] * w[2] + n[3] * w[3]
}

fn compute_lfs_widths(sfc: u16, intensity: bool) -> (r: [u32; 4])
    requires
        sfc < 512,
    ensures
        r@.map_values(|x: u32| x as nat) == lfs_widths(sfc as int, intensity),
        forall|k: int| 0 <= k < 4 ==> #[trigger] r@[k] <= 8,
{
    let r: [u32; 4] = if intensity {
        let x = (sfc / 2) as u32;
        if x < 180 {
            [x / 36, (x % 36) / 6, x % 6, 0]
        } else if x < 244 {
            [((x - 180) % 64) / 16, ((x - 180) % 16) / 4, (x - 180) % 4, 0]
        } else {
            [(x - 244) / 3, (x - 244) % 3, 0, 0]
        }
    } else {
        let x = sfc as u32;
        if x < 400 {
            [x / 80, (x / 16) % 5, (x % 16) / 4, x % 4]
        } else if x < 500 {
            [(x - 400) / 20, ((x - 400) / 4) % 5, (x - 400) % 4, 0]
        } else {
            [(x - 500) / 3, (x - 500) % 3, 0, 0]
        }
    };
    assert(r@.map_values(|x: u32| x as nat) =~= lfs_widths(sfc as int, intensity));
    r
}

/// Appends `v` to `buf`.
fn push_all(buf: &mut Vec<u8>, v: &Vec<u8>)
    ensures
        final(buf)@ == old(buf)@ + v@,
{
    let mut j: usize = 0;
    while j < v.len()
        invariant
            j <= v@.len(),
            buf@ == old(buf)@ + v@.subrange(0, j as int),
        decreases v@.len() - j,
    {
        buf.push(v[j]);
        j = j + 1;
        assert(buf@ =~= old(buf)@ + v@.subrange(0, j as int));
    }
    assert(v@.subrange(0, v@.len() as int) =~= v@);
}

/// What `read_lfs_scale_factors` gives from bit `p` of `s`: the long and
/// short scale factors `l` and `sf`, with the reader left at bit `end`.
#[verifier::opaque]
pub open spec fn lfs_scale_factors_read(
    s: Seq<u8>,
    p: usize,
    intensity: bool,
    block_type: BlockType,
    scalefac_compress: u16,
    l: Seq<u8>,
    sf: Seq<[u8; 3]>,
    end: usize,
) -> bool {
    let c = scalefac_compress as int;
    let w = lfs_widths(c, intensity);
    let n = lfs_counts(lfs_partition(c, intensity), lfs_block(block_type));
    &&& end == p + lfs_bits(w, n)
    &&& forall|sfb: int| 0 <= sfb < 22 ==> #[trigger] l[sfb] == if block_type == BlockType::Short {
        0
    } else if block_type == BlockType::Mixed {
        if sfb < 8 { lfs_slot(s, p as int, w, n, sfb) } else { 0 }
    } else {
        if sfb < 21 { lfs_slot(s, p as int, w, n, sfb) } else { 0 }
    }
    &&& forall|sfb: int, win: int| 0 <= sfb < 13 && 0 <= win < 3 ==> #[trigger] sf[sfb]@[win] == if block_type == BlockType::Short {
        if sfb < 12 { lfs_slot(s, p as int, w, n, sfb * 3 + win) } else { 0 }
    } else if block_type == BlockType::Mixed {
        if 3 <= sfb < 12 { lfs_slot(s, p as int, w, n, 8 + (sfb - 3) * 3 + win) } else { 0 }
    } else {
        0
    }
}

/// Reads the scale factors of one granule of one channel of an MPEG-2 or
/// MPEG-2.5 frame. `intensity_stereo_channel` marks the right channel of an
/// intensity-stereo frame.
#[verifier::rlimit(60)]
pub fn read_lfs_scale_factors(
    r: &mut BitReader,
    intensity_stereo_channel: bool,
    block_type: BlockType,
    scalefac_compress: u16,
) -> (res: Result<([u8; 22], [[u8; 3]; 13]), Error>)
    requires
        old(r).wf(),
        scalefac_compress < 512,
    ensures
        final(r).data@ == old(r).data@,
        final(r).wf(),
        res is Ok ==> final(r).pos >= old(r).pos,
        res is Ok ==> lfs_scale_factors_read(old(r).data@, old(r).pos, intensity_stereo_channel, block_type, scalefac_compress,
            res->Ok_0.0@, res->Ok_0.1@, final(r).pos),
        ({
            let sfc = scalefac_compress as int;
            let w = lfs_widths(sfc, intensity_stereo_channel);
            let n = lfs_counts(lfs_partition(sfc, intensity_stereo_channel), lfs_block(block_type));
            let s = old(r).data@;
            let p = old(r).pos as int;
            match res {
                Ok((l, sf)) => {
                    &&& p + lfs_bits(w, n) <= old(r).bit_len()
                    &&& final(r).pos == p + lfs_bits(w, n)
                    &&& forall|sfb: int| 0 <= sfb < 22 ==> #[trigger] l@[sfb] == if block_type == BlockType::Short {
                        0
                    } else if block_type == BlockType::Mixed {
                        if sfb < 8 { lfs_slot(s, p, w, n, sfb) } else { 0 }
                    } else {
                        if sfb < 21 { lfs_slot(s, p, w, n, sfb) } else { 0 }
                    }
                    &&& forall|sfb: int, win: int| 0 <= sfb < 13 && 0 <= win < 3 ==> #[trigger] sf@[sfb]@[win] == if block_type == BlockType::Short {
                        if sfb < 12 { lfs_slot(s, p, w, n, sfb * 3 + win) } else { 0 }
                    } else if block_type == BlockType::Mixed {
                        if 3 <= sfb < 12 { lfs_slot(s, p, w, n, 8 + (sfb - 3) * 3 + win) } else { 0 }
                    } else {
                        0
                    }
                },
                Err(e) => p + lfs_bits(w, n) > old(r).bit_len() && e.kind() == ErrorKind::InvalidData,
            }
        }),
{
    let ghost s = r.data@;
    let ghost p = r.pos as int;
    let widths = compute_lfs_widths(scalefac_compress, intensity_stereo_channel);
    let part: usize = if intensity_stereo_channel {
        let x = scalefac_compress / 2;
        if x < 180 { 3 } else if x < 244 { 4 } else { 5 }
    } else {
        if scalefac_compress < 400 { 0 } else if scalefac_compress < 500 { 1 } else { 2 }
    };
    let kind: usize = if block_type == BlockType::Short { 1 } else if block_type == BlockType::Mixed { 2 } else { 0 };
    let counts = lfs_table(part, kind);
    let ghost w = lfs_widths(scalefac_compress as int, intensity_stereo_channel);
    let ghost n = counts@;
    assert(w[0] == widths[0] && w[1] == widths[1] && w[2] == widths[2] && w[3] == widths[3]) by {
        assert(widths@.map_values(|x: u32| x as nat)[0] == widths@[0]);
        assert(widths@.map_values(|x: u32| x as nat)[1] == widths@[1]);
        assert(widths@.map_values(|x: u32| x as nat)[2] == widths@[2]);
        assert(widths@.map_values(|x: u32| x as nat)[3] == widths@[3]);
    }
    let ghost o1 = p + n[0] * w[0];
    let ghost o2 = o1 + n[1] * w[1];
    let ghost o3 = o2 + n[2] * w[2];
    let v0 = read_run(r, widths[0], counts[0] as usize);
    let v0 = match v0 {
        Ok(v) => v,
        Err(e) => {
            assert(n[1] * w[1] >= 0 && n[2] * w[2] >= 0 && n[3] * w[3] >= 0) by (nonlinear_arith);
            return Err(e);
        },
    };
    let v1 = match read_run(r, widths[1], counts[1] as usize) {
        Ok(v) => v,
        Err(e) => {
            assert(n[2] * w[2] >= 0 && n[3] * w[3] >= 0) by (nonlinear_arith);
            return Err(e);
        },
    };
    let v2 = match read_run(r, widths[2], counts[2] as usize) {
        Ok(v) => v,
        Err(e) => {
            assert(n[3] * w[3] >= 0) by (nonlinear_arith);
            return Err(e);
        },
    };
    let v3 = read_run(r, widths[3], counts[3] as usize)?;
    assert(n[0] * w[0] >= 0 && n[1] * w[1] >= 0 && n[2] * w[2] >= 0 && n[3] * w[3] >= 0) by (nonlinear_arith);
    let mut buf: Vec<u8> = Vec::new();
    push_all(&mut buf, &v0);
    push_all(&mut buf, &v1);
    push_all(&mut buf, &v2);
    push_all(&mut buf, &v3);
    let ghost filled = buf@.len();
    while buf.len() < 54
        invariant
            filled <= buf@.len() <= 54,
            filled == n[0] + n[1] + n[2] + n[3],
            forall|i: int| filled <= i < buf@.len() ==> #[trigger] buf@[i] == 0,
            buf@.subrange(0, filled as int) == v0@ + v1@ + v2@ + v3@,
        decreases 54 - buf@.len(),
    {
        buf.push(0);
        assert(buf@.subrange(0, filled as int) =~= v0@ + v1@ + v2@ + v3@);
    }
    proof {
        assert forall|i: int| 0 <= i < 54 implies #[trigger] buf@[i] == lfs_slot(s, p, w, n, i) by {
            let n0 = n[0] as int;
            let n1 = n[1] as int;
            let n2 = n[2] as int;
            if i < filled {
                assert(buf@[i] == buf@.subrange(0, filled as int)[i]);
                if i < n0 {
                    assert(buf@[i] == v0@[i]);
                } else if i < n0 + n1 {
                    assert(buf@[i] == v1@[i - n0]);
                } else if i < n0 + n1 + n2 {
                    assert(buf@[i] == v2@[i - n0 - n1]);
                } else {
                    assert(buf@[i] == v3@[i - n0 - n1 - n2]);
                }
            }
        }
    }
    let mut l = [0u8; 22];
    let mut sf = [[0u8; 3]; 13];
    if block_type == BlockType::Short || block_type == BlockType::Mixed {
        let short_start: usize = if block_type == BlockType::Mixed {
            fill_long(&mut l, 8, &buf);
            3
        } else {
            0
        };
        let base: usize = if block_type == BlockType::Mixed { 8 } else { 0 };
        fill_short(&mut sf, short_start, base, &buf);
    } else {
        fill_long(&mut l, 21, &buf);
    }
    proof {
        reveal(lfs_scale_factors_read);
    }
    Ok((l, sf))
}

/// Sets `l[i] = buf[i]` for `i < count`.
fn fill_long(l: &mut [u8; 22], count: usize, buf: &Vec<u8>)
    requires
        count <= 21,
        buf@.len() == 54,
    ensures
        forall|i: int| 0 <= i < 22 ==> #[trigger] final(l)@[i] == if i < count { buf@[i] } else { old(l)@[i] },
{
    let mut i: usize = 0;
    while i < count
        invariant
            i <= count <= 21,
            buf@.len() == 54,
            forall|k: int| 0 <= k < 22 ==> #[trigger] l@[k] == if k < i { buf@[k] } else { old(l)@[k] },
        decreases count - i,
    {
        l[i] = buf[i];
        i = i + 1;
    }
}

/// Sets `sf[b][w] = buf[base + (b - first) * 3 + w]` for `first <= b < 12`.
fn fill_short(sf: &mut [[u8; 3]; 13], first: usize, base: usize, buf: &Vec<u8>)
    requires
        first <= 3,
        base <= 8,
        buf@.len() == 54,
    ensures
        forall|b: int, w: int| 0 <= b < 13 && 0 <= w < 3 ==> #[trigger] final(sf)@[b]@[w] == if first <= b < 12 {
            buf@[base + (b - first) * 3 + w]
        } else {
            old(sf)@[b]@[w]
        },
{
    let mut b: usize = first;
    while b < 12
        invariant
            first <= b <= 12,
            first <= 3,
            base <= 8,
            buf@.len() == 54,
            forall|bb: int, w: int| 0 <= bb < 13 && 0 <= w < 3 ==> #[trigger] sf@[bb]@[w] == if first <= bb < b {
                buf@[base + (bb - first) * 3 + w]
            } else {
                old(sf)@[bb]@[w]
            },
        decreases 12 - b,
    {
        let k = base + (b - first) * 3;
        let row = [buf[k], buf[k + 1], buf[k + 2]];
        sf[b] = row;
        b = b + 1;
    }
}

} // verus!
