//! Huffman decoding of the quantized spectrum.
use crate::bits::{bit_at, bits_value, lemma_bits_bound, BitReader};
use crate::error::{invalid, Error, ErrorKind};
use crate::side_info::GranuleChannelSideInfo;
use crate::tables::{band_long, long_bands};
use vstd::prelude::*;

verus! {

/// A Huffman code table in its flat form: each 16-bit entry is either a leaf,
/// whose high byte is zero and whose low byte holds the values `x` (high
/// nibble) and `y` (low nibble), or a branch, whose high byte is the forward
/// offset to follow on a 0 bit and whose low byte the offset on a 1 bit. An
/// offset of 250 or more chains: it is added, and the offset at the entry it
/// reaches is used in its turn.
#[derive(Debug, Clone)]
pub struct HuffmanTable {
    pub data: Vec<u16>,
    /// Bits of the escape that extends a value of 15 (pair tables).
    pub linbits: u32,
    /// Whether the table codes quadruples of values in -1..=1.
    pub quads: bool,
}

impl HuffmanTable {
    pub open spec fn wf(&self) -> bool {
        self.linbits <= 16
    }
}

/// The entry reached from `point` by the offset that bit `one` selects,
/// following chained offsets; `None` where the chain leaves the table.
pub open spec fn chase(t: Seq<u16>, point: int, one: bool) -> Option<int>
    decreases t.len() - point,
{
    if point < 0 || point >= t.len() {
        None
    } else {
        let f: int = if one { (t[point] & 0xffu16) as int } else { (t[point] >> 8u16) as int };
        if f >= 250 {
            if point + f < t.len() {
                chase(t, point + f, one)
            } else {
                None
            }
        } else {
            Some(point + f)
        }
    }
}

/// Walking the code tree from entry `point` with the bits of `s` from bit
/// `pos` on, reading at most `steps` bits: the leaf entry reached and the bits
/// read, or `None` where the walk leaves the table or reads too many bits.
pub open spec fn walk(t: Seq<u16>, s: Seq<u8>, pos: int, point: int, steps: nat) -> Option<(u16, nat)>
    decreases steps,
{
    if point < 0 || point >= t.len() {
        None
    } else if t[point] & 0xff00u16 == 0 {
        Some((t[point], 0))
    } else if steps == 0 {
        None
    } else {
        match chase(t, point, bit_at(s, pos) == 1) {
            None => None,
            Some(next) => match walk(t, s, pos + 1, next, (steps - 1) as nat) {
                None => None,
                Some((leaf, n)) => Some((leaf, n + 1)),
            },
        }
    }
}

/// The most bits a codeword may take.
pub open spec fn max_code_bits() -> nat {
    31
}

/// A value followed by its sign bit where it is not zero: the value, and the
/// bits read.
pub open spec fn with_sign(v: int, s: Seq<u8>, pos: int) -> (int, int) {
    if v > 0 {
        (if bit_at(s, pos) == 1 { -v } else { v }, 1)
    } else {
        (v, 0)
    }
}

/// A pair value `v`, extended by a `linbits` escape where it is 15.
pub open spec fn with_escape(v: int, linbits: nat, s: Seq<u8>, pos: int) -> (int, int) {
    if linbits > 0 && v == 15 {
        (15 + bits_value(s, pos, linbits) as int, linbits as int)
    } else {
        (v, 0)
    }
}

/// What decoding one codeword of table `t` from bit `pos` of `s` gives: the
/// four values `(x, y, v, w)` (the last two zero for pair tables) and the bits
/// read; `None` where the code walk fails. An empty table gives zeros and
/// reads nothing.
pub open spec fn decode_values(t: HuffmanTable, s: Seq<u8>, pos: int) -> Option<(Seq<int>, int)> {
    if t.data@.len() == 0 {
        Some((seq![0int, 0, 0, 0], 0))
    } else {
        match walk(t.data@, s, pos, 0, max_code_bits()) {
            None => None,
            Some((leaf, n)) => {
                let p0 = pos + n;
                if t.quads {
                    let y0 = (leaf & 0xfu16) as int;
                    let (v, a) = with_sign((y0 / 8) % 2, s, p0);
                    let (w, b) = with_sign((y0 / 4) % 2, s, p0 + a);
                    let (x, c) = with_sign((y0 / 2) % 2, s, p0 + a + b);
                    let (y, d) = with_sign(y0 % 2, s, p0 + a + b + c);
                    Some((seq![x, y, v, w], n + a + b + c + d))
                } else {
                    let (x1, a) = with_escape(((leaf >> 4u16) & 0xfu16) as int, t.linbits as nat, s, p0);
                    let (x, b) = with_sign(x1, s, p0 + a);
                    let (y1, c) = with_escape((leaf & 0xfu16) as int, t.linbits as nat, s, p0 + a + b);
                    let (y, d) = with_sign(y1, s, p0 + a + b + c);
                    Some((seq![x, y, 0int, 0int], n + a + b + c + d))
                }
            },
        }
    }
}

/// Follows the offset that bit `one` selects from entry `point`, with chains.
fn follow(t: &Vec<u16>, point: usize, one: bool) -> (r: Option<usize>)
    requires
        t@.len() < 0x10000,
    ensures
        match r {
            Some(np) => chase(t@, point as int, one) == Some(np as int),
            None => chase(t@, point as int, one) is None,
        },
{
    let mut p = point;
    while p < t.len()
        invariant
            t@.len() < 0x10000,
            chase(t@, point as int, one) == chase(t@, p as int, one),
        decreases t@.len() - p,
    {
        let e = t[p];
        let f = if one { (e & 0xff) as usize } else { (e >> 8u16) as usize };
        if f >= 250 {
            if p + f >= t.len() {
                return None;
            }
            p = p + f;
        } else {
            return Some(p + f);
        }
    }
    None
}

/// Walks the code tree of `t` from its root with the reader's bits.
fn walk_tree(r: &mut BitReader, t: &Vec<u16>) -> (res: Result<(u16, u32), Error>)
    requires
        old(r).wf(),
        0 < t@.len() < 0x10000,
    ensures
        final(r).data@ == old(r).data@,
        final(r).wf(),
        final(r).pos >= old(r).pos,
        match res {
            Ok((leaf, n)) => {
                &&& walk(t@, old(r).data@, old(r).pos as int, 0, max_code_bits()) == Some((leaf, n as nat))
                &&& old(r).pos + n <= old(r).bit_len()
                &&& final(r).pos == old(r).pos + n
            },
            Err(e) => {
                &&& (walk(t@, old(r).data@, old(r).pos as int, 0, max_code_bits()) is None
                    || old(r).pos + walk(t@, old(r).data@, old(r).pos as int, 0, max_code_bits())->Some_0.1 > old(r).bit_len())
                &&& e.kind() == ErrorKind::InvalidData
            },
        },
{
    let ghost s = r.data@;
    let ghost p0 = r.pos as int;
    let mut point: usize = 0;
    let mut n: u32 = 0;
    loop
        invariant
            r.wf(),
            r.data@ == s,
            s == old(r).data@,
            p0 == old(r).pos,
            0 < t@.len() < 0x10000,
            n <= max_code_bits(),
            r.pos == p0 + n,
            point < t@.len(),
            walk(t@, s, p0, 0, max_code_bits()) == match walk(t@, s, r.pos as int, point as int, (max_code_bits() - n) as nat) {
                None => None,
                Some((leaf, k)) => Some((leaf, (k + n) as nat)),
            },
        decreases max_code_bits() - n,
    {
        let e = t[point];
        if e & 0xff00 == 0 {
            return Ok((e, n));
        }
        if n == 31 {
            return Err(invalid("Huffman code too long"));
        }
        let ghost pos = r.pos as int;
        let ghost k = (max_code_bits() - n) as nat;
        assert(walk(t@, s, pos, point as int, k) == match chase(t@, point as int, bit_at(s, pos) == 1) {
            None => None,
            Some(next) => match walk(t@, s, pos + 1, next, (k - 1) as nat) {
                None => None,
                Some((leaf, m)) => Some((leaf, m + 1)),
            },
        });
        let bit = match r.read_bit() {
            Ok(b) => b,
            Err(e) => {
                proof {
                    lemma_walk_bits(t@, s, r.pos as int, point as int, (max_code_bits() - n) as nat);
                }
                return Err(e);
            },
        };
        match follow(t, point, bit) {
            Some(np) => {
                if np >= t.len() {
                    assert(walk(t@, s, pos + 1, np as int, (k - 1) as nat) is None);
                    return Err(invalid("Huffman code leaves its table"));
                }
                point = np;
            },
            None => {
                return Err(invalid("Huffman code leaves its table"));
            },
        }
        n = n + 1;
    }
}

/// A walk that does not stop at its first entry reads at least one bit.
proof fn lemma_walk_bits(t: Seq<u16>, s: Seq<u8>, pos: int, point: int, steps: nat)
    requires
        0 <= point < t.len(),
        t[point] & 0xff00u16 != 0,
    ensures
        match walk(t, s, pos, point, steps) {
            Some((_, k)) => k >= 1,
            None => true,
        },
{
}

/// Reads the sign bit that follows a value that is not zero.
fn read_sign(r: &mut BitReader, v: i32) -> (res: Result<i32, Error>)
    requires
        old(r).wf(),
        0 <= v <= 0x10000 + 15,
    ensures
        final(r).data@ == old(r).data@,
        final(r).wf(),
        final(r).pos >= old(r).pos,
        ({
            let (x, k) = with_sign(v as int, old(r).data@, old(r).pos as int);
            match res {
                Ok(y) => y == x && old(r).pos + k <= old(r).bit_len() && final(r).pos == old(r).pos + k,
                Err(e) => old(r).pos + k > old(r).bit_len() && e.kind() == ErrorKind::InvalidData,
            }
        }),
{
    if v > 0 {
        let negative = r.read_bit()?;
        Ok(if negative { -v } else { v })
    } else {
        Ok(v)
    }
}

/// Reads the escape that extends a pair value of 15.
fn read_escape(r: &mut BitReader, v: i32, linbits: u32) -> (res: Result<i32, Error>)
    requires
        old(r).wf(),
        0 <= v <= 15,
        linbits <= 16,
    ensures
        final(r).data@ == old(r).data@,
        final(r).wf(),
        final(r).pos >= old(r).pos,
        ({
            let (x, k) = with_escape(v as int, linbits as nat, old(r).data@, old(r).pos as int);
            match res {
                Ok(y) => y == x && 0 <= y <= 0x10000 + 15 && old(r).pos + k <= old(r).bit_len() && final(r).pos == old(r).pos + k,
                Err(e) => old(r).pos + k > old(r).bit_len() && e.kind() == ErrorKind::InvalidData,
            }
        }),
{
    if linbits > 0 && v == 15 {
        let ghost s = r.data@;
        let ghost p = r.pos as int;
        let extra = r.read(linbits)?;
        proof {
            lemma_bits_bound(s, p, linbits as nat);
            vstd::arithmetic::power2::lemma2_to64();
            if linbits < 16 {
                vstd::arithmetic::power2::lemma_pow2_strictly_increases(linbits as nat, 16);
            }
        }
        Ok(15 + extra as i32)
    } else {
        Ok(v)
    }
}

/// Decodes one codeword of `table`: the values `[x, y, v, w]` (`v` and `w`
/// are zero for pair tables). A code walk that leaves the table or takes more
/// than 31 bits, and a read past the end of the buffer, are `InvalidData`.
pub fn huffman_decode(r: &mut BitReader, table: &HuffmanTable) -> (res: Result<[i32; 4], Error>)
    requires
        old(r).wf(),
        table.wf(),
        table.data@.len() < 0x10000,
    ensures
        final(r).data@ == old(r).data@,
        final(r).wf(),
        final(r).pos >= old(r).pos,
        match decode_values(*table, old(r).data@, old(r).pos as int) {
            Some((vals, k)) => match res {
                Ok(out) => {
                    &&& out@.map_values(|x: i32| x as int) == vals
                    &&& old(r).pos + k <= old(r).bit_len()
                    &&& final(r).pos == old(r).pos + k
                },
                Err(e) => old(r).pos + k > old(r).bit_len() && e.kind() == ErrorKind::InvalidData,
            },
            None => res is Err && res->Err_0.kind() == ErrorKind::InvalidData,
        },
{
    let ghost s = r.data@;
    let ghost p = r.pos as int;
    if table.data.len() == 0 {
        let out = [0i32, 0, 0, 0];
        assert(out@.map_values(|x: i32| x as int) =~= seq![0int, 0, 0, 0]);
        return Ok(out);
    }
    let (leaf, n) = match walk_tree(r, &table.data) {
        Ok(w) => w,
        Err(e) => return Err(e),
    };
    if table.quads {
        let y0 = (leaf & 0xf) as i32;
        let v = read_sign(r, (y0 / 8) % 2)?;
        let w = read_sign(r, (y0 / 4) % 2)?;
        let x = read_sign(r, (y0 / 2) % 2)?;
        let y = read_sign(r, y0 % 2)?;
        let out = [x, y, v, w];
        assert(out@.map_values(|x: i32| x as int) =~= decode_values(*table, s, p)->Some_0.0);
        Ok(out)
    } else {
        assert(((leaf >> 4u16) & 0xfu16) <= 15u16) by (bit_vector);
        assert((leaf & 0xfu16) <= 15u16) by (bit_vector);
        let x1 = read_escape(r, ((leaf >> 4u16) & 0xf) as i32, table.linbits)?;
        let x = read_sign(r, x1)?;
        let y1 = read_escape(r, (leaf & 0xf) as i32, table.linbits)?;
        let y = read_sign(r, y1)?;
        let out = [x, y, 0, 0];
        assert(out@.map_values(|x: i32| x as int) =~= decode_values(*table, s, p)->Some_0.0);
        Ok(out)
    }
}

/// The code tables of a stream: 32 pair tables, then the two quadruple
/// tables of the count1 region.
pub open spec fn tables_wf(tables: Seq<HuffmanTable>) -> bool {
    &&& tables.len() == 34
    &&& forall|i: int| 0 <= i < 34 ==> (#[trigger] tables[i]).wf() && tables[i].data@.len() < 0x10000
    &&& forall|i: int| 0 <= i < 32 ==> !(#[trigger] tables[i]).quads
    &&& tables[32].quads
    &&& tables[33].quads
}

/// The bins at which the second and third big-values regions start: 36 and
/// 576 for short and mixed blocks, else the long bands that follow
/// region0_count + 1 and region0_count + region1_count + 2 bands (the last
/// band where the counts reach past it).
pub open spec fn region_bounds(side: GranuleChannelSideInfo, t: int) -> (int, int) {
    if side.block_type.is_short_or_mixed() {
        (36, 576)
    } else {
        let a = side.region0_count as int + 1;
        let b = side.region0_count as int + side.region1_count as int + 2;
        (long_bands(t)[if a > 22 { 22 } else { a }] as int, long_bands(t)[if b > 22 { 22 } else { b }] as int)
    }
}

/// The pair table that codes bin `i` of the big-values region.
pub open spec fn pair_table(side: GranuleChannelSideInfo, t: int, i: int) -> int {
    let (r1, r2) = region_bounds(side, t);
    if i < r1 {
        side.table_select[0] as int
    } else if i < r2 {
        side.table_select[1] as int
    } else {
        side.table_select[2] as int
    }
}

/// The first `k` pairs of the big-values region, read from bit `pos` on, and
/// the bits they take.
pub open spec fn big_values_decode(tables: Seq<HuffmanTable>, s: Seq<u8>, pos: int, side: GranuleChannelSideInfo, t: int, k: nat) -> Option<(Seq<int>, int)>
    decreases k,
{
    if k == 0 {
        Some((Seq::<int>::empty(), 0))
    } else {
        match big_values_decode(tables, s, pos, side, t, (k - 1) as nat) {
            None => None,
            Some((vals, b)) => match decode_values(tables[pair_table(side, t, 2 * (k - 1))], s, pos + b) {
                None => None,
                Some((v, c)) => Some((vals + seq![v[0], v[1]], b + c)),
            },
        }
    }
}

/// One more pair extends the decoded big values by the pair's two values.
proof fn lemma_big_values_step(tables: Seq<HuffmanTable>, s: Seq<u8>, pos: int, side: GranuleChannelSideInfo, t: int, k: nat)
    requires
        big_values_decode(tables, s, pos, side, t, k) is Some,
        decode_values(tables[pair_table(side, t, 2 * k as int)], s, pos + big_values_decode(tables, s, pos, side, t, k)->Some_0.1) is Some,
    ensures
        ({
            let (vals, b) = big_values_decode(tables, s, pos, side, t, k)->Some_0;
            let (v, c) = decode_values(tables[pair_table(side, t, 2 * k as int)], s, pos + b)->Some_0;
            big_values_decode(tables, s, pos, side, t, k + 1) == Some((vals + seq![v[0], v[1]], b + c))
        }),
{
    assert(((k + 1) - 1) as nat == k);
}

/// The first `k` quadruples of the count1 region, coded with table `tab`
/// from bit `q` on: their values in bin order `(v, w, x, y)`, and the bit
/// that follows them.
pub open spec fn quads_decode(tab: HuffmanTable, s: Seq<u8>, q: int, k: nat) -> Option<(Seq<int>, int)>
    decreases k,
{
    if k == 0 {
        Some((Seq::<int>::empty(), q))
    } else {
        match quads_decode(tab, s, q, (k - 1) as nat) {
            None => None,
            Some((vals, e)) => match decode_values(tab, s, e) {
                None => None,
                Some((v, c)) => Some((vals + seq![v[2], v[3], v[0], v[1]], e + c)),
            },
        }
    }
}

/// Whether quadruple `j` of the count1 region is read: it would start at a
/// bin no later than 572, and the spectrum read so far, from bit `p0` on,
/// takes fewer than `len` bits.
pub open spec fn quad_read(tab: HuffmanTable, s: Seq<u8>, p0: int, q0: int, len: int, big_len: int, j: nat) -> bool {
    &&& big_len + 4 * j <= 572
    &&& quads_decode(tab, s, q0, j) is Some
    &&& quads_decode(tab, s, q0, j)->Some_0.1 - p0 < len
}

/// The count1 region of a spectrum `out` that ends at `count1`, for a
/// granule whose spectrum starts at bit `p0` of `s` and owns `len` bits: `k`
/// quadruples were read after the big-values region, each while `quad_read`
/// allowed it, until it did not; the last one is dropped where the reading
/// overran `len` bits. The reader then stands at bit `end`: `len` bits past
/// `p0`, or where the reading stopped if that is further.
#[verifier::opaque]
pub open spec fn count1_region_ok(
    tables: Seq<HuffmanTable>,
    s: Seq<u8>,
    p0: usize,
    side: GranuleChannelSideInfo,
    t: usize,
    len: u32,
    k: nat,
    count1: u32,
    out: Seq<i32>,
    end: usize,
) -> bool {
    let tab = tables[count1_table_of(side)];
    let q0 = p0 + big_values_decode(tables, s, p0 as int, side, t as int, side.big_values as nat)->Some_0.1;
    let big_len = 2 * side.big_values;
    let d = quads_decode(tab, s, q0, k);
    &&& d is Some
    &&& end == if d->Some_0.1 > p0 + len { d->Some_0.1 } else { p0 + len }
    &&& forall|j: nat| j < k ==> #[trigger] quad_read(tab, s, p0 as int, q0, len as int, big_len, j)
    &&& !quad_read(tab, s, p0 as int, q0, len as int, big_len, k)
    &&& count1 == if d->Some_0.1 - p0 > len && big_len + 4 * k >= 4 { big_len + 4 * k - 4 } else { big_len + 4 * k }
    &&& forall|i: int| big_len <= i < count1 ==> #[trigger] out[i] as int == d->Some_0.0[i - big_len]
}

/// The table of the count1 region: 33 where count1table_select is set, else 32.
pub open spec fn count1_table_of(side: GranuleChannelSideInfo) -> int {
    if side.count1table_select { 33 } else { 32 }
}

/// One more quadruple extends the decoded count1 region by its four values.
proof fn lemma_quads_step(tab: HuffmanTable, s: Seq<u8>, q: int, k: nat)
    requires
        quads_decode(tab, s, q, k) is Some,
        decode_values(tab, s, quads_decode(tab, s, q, k)->Some_0.1) is Some,
    ensures
        ({
            let (vals, e) = quads_decode(tab, s, q, k)->Some_0;
            let (v, c) = decode_values(tab, s, e)->Some_0;
            quads_decode(tab, s, q, k + 1) == Some((vals + seq![v[2], v[3], v[0], v[1]], e + c))
        }),
{
    assert(((k + 1) - 1) as nat == k);
}

/// Chooses the pair table of bin `i`.
fn select_table(side: &GranuleChannelSideInfo, r1: usize, r2: usize, i: usize) -> (r: usize)
    ensures
        r == if i < r1 { side.table_select[0] as int } else if i < r2 { side.table_select[1] as int } else { side.table_select[2] as int },
{
    if i < r1 {
        side.table_select[0] as usize
    } else if i < r2 {
        side.table_select[1] as usize
    } else {
        side.table_select[2] as usize
    }
}

/// A decoded codeword takes no negative number of bits.
proof fn lemma_decode_bits_nonneg(tab: HuffmanTable, s: Seq<u8>, pos: int)
    requires
        decode_values(tab, s, pos) is Some,
    ensures
        decode_values(tab, s, pos)->Some_0.1 >= 0,
{
}

/// A shorter run of big-values pairs decodes where a longer one does, and
/// ends no later.
proof fn lemma_big_values_prefix(tables: Seq<HuffmanTable>, s: Seq<u8>, pos: int, side: GranuleChannelSideInfo, t: int, k1: nat, k2: nat)
    requires
        k1 <= k2,
        big_values_decode(tables, s, pos, side, t, k2) is Some,
    ensures
        big_values_decode(tables, s, pos, side, t, k1) is Some,
        big_values_decode(tables, s, pos, side, t, k1)->Some_0.1 <= big_values_decode(tables, s, pos, side, t, k2)->Some_0.1,
    decreases k2 - k1,
{
    if k1 < k2 {
        let k = (k2 - 1) as nat;
        assert(big_values_decode(tables, s, pos, side, t, k) is Some);
        let b = big_values_decode(tables, s, pos, side, t, k)->Some_0.1;
        lemma_decode_bits_nonneg(tables[pair_table(side, t, 2 * k as int)], s, pos + b);
        lemma_big_values_prefix(tables, s, pos, side, t, k1, k);
    }
}

/// A shorter run of quadruples decodes where a longer one does, and ends no
/// later.
proof fn lemma_quads_prefix(tab: HuffmanTable, s: Seq<u8>, q: int, k1: nat, k2: nat)
    requires
        k1 <= k2,
        quads_decode(tab, s, q, k2) is Some,
    ensures
        quads_decode(tab, s, q, k1) is Some,
        quads_decode(tab, s, q, k1)->Some_0.1 <= quads_decode(tab, s, q, k2)->Some_0.1,
    decreases k2 - k1,
{
    if k1 < k2 {
        let k = (k2 - 1) as nat;
        assert(quads_decode(tab, s, q, k) is Some);
        lemma_decode_bits_nonneg(tab, s, quads_decode(tab, s, q, k)->Some_0.1);
        lemma_quads_prefix(tab, s, q, k1, k);
    }
}

/// The count1 loop, begun at bit `q0` for a spectrum that starts at bit `p0`,
/// stops after `k` quadruples, all of which end within `bit_len` bits.
pub open spec fn count1_fits(tab: HuffmanTable, s: Seq<u8>, p0: int, q0: int, len: int, big_len: int, k: nat, bit_len: int) -> bool {
    &&& quads_decode(tab, s, q0, k) is Some
    &&& forall|j: nat| j < k ==> #[trigger] quad_read(tab, s, p0, q0, len, big_len, j)
    &&& !quad_read(tab, s, p0, q0, len, big_len, k)
    &&& quads_decode(tab, s, q0, k)->Some_0.1 <= bit_len
}

/// The count1 loop comes to its end within `bit_len` bits.
pub open spec fn count1_reachable(tab: HuffmanTable, s: Seq<u8>, p0: int, q0: int, len: int, big_len: int, bit_len: int) -> bool {
    exists|k: nat| #[trigger] count1_fits(tab, s, p0, q0, len, big_len, k, bit_len)
}

/// The spectrum of a granule that starts at bit `p0` of `s` and owns `len`
/// bits can be read from a buffer of `bit_len` bits: nothing is to be read,
/// or the big-values pairs decode and end within the buffer, the count1 loop
/// comes to its end within it, and the `len` bits lie within it.
pub open spec fn spectrum_decodable(
    tables: Seq<HuffmanTable>,
    s: Seq<u8>,
    p0: usize,
    side: GranuleChannelSideInfo,
    t: usize,
    len: u32,
    bit_len: int,
) -> bool {
    let d = big_values_decode(tables, s, p0 as int, side, t as int, side.big_values as nat);
    len == 0 || {
        &&& d is Some
        &&& p0 + d->Some_0.1 <= bit_len
        &&& p0 + len <= bit_len
        &&& count1_reachable(tables[count1_table_of(side)], s, p0 as int, p0 + d->Some_0.1, len as int, 2 * side.big_values, bit_len)
    }
}

/// What `read_huffman` gives for a granule whose spectrum starts at bit
/// `p0` of `s` and owns `len` bits: `count1` and the spectrum `out`, with the
/// reader left at bit `end`.
#[verifier::opaque]
pub open spec fn spectrum_read(
    tables: Seq<HuffmanTable>,
    s: Seq<u8>,
    p0: usize,
    side: GranuleChannelSideInfo,
    t: usize,
    len: u32,
    count1: u32,
    out: Seq<i32>,
    end: usize,
) -> bool {
    let d = big_values_decode(tables, s, p0 as int, side, t as int, side.big_values as nat);
    &&& count1 <= 576
    &&& count1 % 2 == 0
    &&& forall|i: int| count1 <= i < 576 ==> #[trigger] out[i] == 0
    &&& end >= p0 + len
    &&& len == 0 ==> count1 == 0 && end == p0
    &&& len > 0 ==> d is Some
    &&& forall|i: int| 0 <= i < count1 && i < 2 * side.big_values ==> #[trigger] out[i] as int == d->Some_0.0[i]
    &&& forall|i: int| 2 * side.big_values <= i < count1 ==> -1 <= #[trigger] out[i] <= 1
    &&& len > 0 ==> exists|k: nat| #[trigger] count1_region_ok(tables, s, p0, side, t, len, k, count1, out, end)
}

/// Ends the spectrum of a granule whose decoding began at bit `start` and
/// reached bin `is_pos`: skips the bits left of the `len` it owns, or, where
/// decoding overran them, drops the last quadruple; then zeroes every bin
/// from the resulting `count1` on.
fn finish_spectrum(r: &mut BitReader, start: usize, len: u32, is_pos: usize, samples: &mut [i32; 576]) -> (res: Result<usize, Error>)
    requires
        old(r).wf(),
        start <= old(r).pos,
        is_pos <= 576,
        is_pos % 2 == 0,
    ensures
        final(r).wf(),
        final(r).data@ == old(r).data@,
        match res {
            Ok(count1) => {
                &&& count1 == if old(r).pos - start > len && is_pos >= 4 { is_pos - 4 } else { is_pos as int }
                &&& final(r).pos == if old(r).pos > start + len { old(r).pos as int } else { start + len }
                &&& forall|i: int| 0 <= i < count1 ==> #[trigger] final(samples)@[i] == old(samples)@[i]
                &&& forall|i: int| count1 <= i < 576 ==> #[trigger] final(samples)@[i] == 0
            },
            Err(e) => e.kind() == ErrorKind::InvalidData && start + len > old(r).bit_len(),
        },
{
    let used = r.pos - start;
    let mut count1 = is_pos;
    if used < len as usize {
        r.skip(len - used as u32)?;
    } else if used > len as usize && is_pos >= 4 {
        count1 = is_pos - 4;
    }
    let mut i = count1;
    while i < 576
        invariant
            count1 <= i <= 576,
            forall|j: int| count1 <= j < i ==> #[trigger] samples@[j] == 0,
            forall|j: int| 0 <= j < count1 ==> #[trigger] samples@[j] == old(samples)@[j],
        decreases 576 - i,
    {
        samples[i] = 0;
        i = i + 1;
    }
    Ok(count1)
}

/// Reads the big-values region: `big_values` pairs, each coded with the
/// table of the region its first bin falls in.
#[verifier::rlimit(40)]
fn read_big_values(
    r: &mut BitReader,
    tables: &Vec<HuffmanTable>,
    sample_rate_table: usize,
    side: &GranuleChannelSideInfo,
    r1: usize,
    r2: usize,
    samples: &mut [i32; 576],
) -> (res: Result<(), Error>)
    requires
        old(r).wf(),
        tables_wf(tables@),
        sample_rate_table < 9,
        (r1 as int, r2 as int) == region_bounds(*side, sample_rate_table as int),
        side.big_values <= 288,
        side.table_select[0] < 32 && side.table_select[1] < 32 && side.table_select[2] < 32,
    ensures
        final(r).wf(),
        final(r).data@ == old(r).data@,
        match res {
            Ok(_) => {
                let d = big_values_decode(tables@, old(r).data@, old(r).pos as int, *side, sample_rate_table as int, side.big_values as nat);
                &&& d is Some
                &&& final(r).pos == old(r).pos + d->Some_0.1
                &&& final(r).pos >= old(r).pos
                &&& forall|i: int| 0 <= i < 2 * side.big_values ==> #[trigger] final(samples)@[i] as int == d->Some_0.0[i]
                &&& forall|i: int| 2 * side.big_values <= i < 576 ==> #[trigger] final(samples)@[i] == old(samples)@[i]
            },
            Err(e) => {
                let d = big_values_decode(tables@, old(r).data@, old(r).pos as int, *side, sample_rate_table as int, side.big_values as nat);
                &&& e.kind() == ErrorKind::InvalidData
                &&& !(d is Some && old(r).pos + d->Some_0.1 <= old(r).bit_len())
            },
        },
{
    let ghost s = r.data@;
    let ghost p0 = r.pos as int;
    let ghost t = sample_rate_table as int;
    let big_len = side.big_values as usize * 2;
    let mut is_pos: usize = 0;
    let mut k: usize = 0;
    while is_pos < big_len
        invariant
            r.wf(),
            r.data@ == s,
            s == old(r).data@,
            p0 == old(r).pos,
            t == sample_rate_table as int,
            tables_wf(tables@),
            sample_rate_table < 9,
            (r1 as int, r2 as int) == region_bounds(*side, t),
            big_len == 2 * side.big_values,
            big_len <= 576,
            is_pos == 2 * k,
            is_pos <= big_len,
            side.table_select[0] < 32 && side.table_select[1] < 32 && side.table_select[2] < 32,
            p0 <= r.pos,
            big_values_decode(tables@, s, p0, *side, t, k as nat) is Some,
            big_values_decode(tables@, s, p0, *side, t, k as nat)->Some_0.1 == r.pos - p0,
            big_values_decode(tables@, s, p0, *side, t, k as nat)->Some_0.0.len() == is_pos,
            forall|i: int| 0 <= i < is_pos ==> #[trigger] samples@[i] as int == big_values_decode(tables@, s, p0, *side, t, k as nat)->Some_0.0[i],
            forall|i: int| is_pos <= i < 576 ==> #[trigger] samples@[i] == old(samples)@[i],
        decreases big_len - is_pos,
    {
        let table_num = select_table(side, r1, r2, is_pos);
        assert(table_num == pair_table(*side, t, is_pos as int));
        let ghost pos = r.pos as int;
        let vals = match huffman_decode(r, &tables[table_num]) {
            Ok(v) => v,
            Err(e) => {
                proof {
                    let bv = side.big_values as nat;
                    let dd = big_values_decode(tables@, s, p0, *side, t, bv);
                    if dd is Some && p0 + dd->Some_0.1 <= old(r).bit_len() {
                        lemma_big_values_prefix(tables@, s, p0, *side, t, (k + 1) as nat, bv);
                        assert(((k + 1) - 1) as nat == k as nat);
                    }
                }
                return Err(e);
            },
        };
        samples[is_pos] = vals[0];
        samples[is_pos + 1] = vals[1];
        proof {
            assert(vals@.map_values(|x: i32| x as int)[0] == vals@[0] as int);
            assert(vals@.map_values(|x: i32| x as int)[1] == vals@[1] as int);
            lemma_big_values_step(tables@, s, p0, *side, t, k as nat);
        }
        is_pos = is_pos + 2;
        k = k + 1;
    }
    assert(k == side.big_values);
    Ok(())
}

/// Reads quadruples with table `tab` from bin `big_len` on, while bins up to
/// 576 remain and the spectrum, begun at bit `start`, has taken fewer than
/// `len` bits. Returns the bin after the last quadruple and their number.
#[verifier::rlimit(40)]
fn read_count1(
    r: &mut BitReader,
    tab: &HuffmanTable,
    start: usize,
    len: u32,
    big_len: usize,
    samples: &mut [i32; 576],
) -> (res: Result<(usize, Ghost<nat>), Error>)
    requires
        old(r).wf(),
        tab.wf(),
        tab.data@.len() < 0x10000,
        tab.quads,
        start <= old(r).pos,
        big_len <= 576,
        big_len % 2 == 0,
    ensures
        final(r).wf(),
        final(r).data@ == old(r).data@,
        match res {
            Ok((is_pos, k)) => {
                let d = quads_decode(*tab, old(r).data@, old(r).pos as int, k@);
                &&& is_pos == big_len + 4 * k@
                &&& is_pos <= 576
                &&& d is Some
                &&& final(r).pos == d->Some_0.1
                &&& final(r).pos >= old(r).pos
                &&& forall|j: nat| j < k@ ==> #[trigger] quad_read(*tab, old(r).data@, start as int, old(r).pos as int, len as int, big_len as int, j)
                &&& !quad_read(*tab, old(r).data@, start as int, old(r).pos as int, len as int, big_len as int, k@)
                &&& forall|i: int| big_len <= i < is_pos ==> #[trigger] final(samples)@[i] as int == d->Some_0.0[i - big_len]
                &&& forall|i: int| big_len <= i < is_pos ==> -1 <= #[trigger] final(samples)@[i] <= 1
                &&& forall|i: int| 0 <= i < big_len ==> #[trigger] final(samples)@[i] == old(samples)@[i]
            },
            Err(e) => e.kind() == ErrorKind::InvalidData
                && !count1_reachable(*tab, old(r).data@, start as int, old(r).pos as int, len as int, big_len as int, old(r).bit_len()),
        },
{
    let ghost s = r.data@;
    let ghost q0 = r.pos as int;
    let ghost p0 = start as int;
    let mut is_pos = big_len;
    let mut kq: usize = 0;
    while is_pos <= 572 && r.pos - start < len as usize
        invariant
            r.wf(),
            r.data@ == s,
            s == old(r).data@,
            q0 == old(r).pos,
            p0 == start,
            start <= r.pos,
            q0 <= r.pos,
            tab.wf(),
            tab.data@.len() < 0x10000,
            tab.quads,
            big_len <= 576,
            is_pos == big_len + 4 * kq,
            is_pos <= 576,
            quads_decode(*tab, s, q0, kq as nat) is Some,
            quads_decode(*tab, s, q0, kq as nat)->Some_0.1 == r.pos,
            quads_decode(*tab, s, q0, kq as nat)->Some_0.0.len() == 4 * kq,
            forall|i: int| big_len <= i < is_pos ==> #[trigger] samples@[i] as int == quads_decode(*tab, s, q0, kq as nat)->Some_0.0[i - big_len],
            forall|i: int| big_len <= i < is_pos ==> -1 <= #[trigger] samples@[i] <= 1,
            forall|i: int| 0 <= i < big_len ==> #[trigger] samples@[i] == old(samples)@[i],
            forall|j: nat| j < kq ==> #[trigger] quad_read(*tab, s, p0, q0, len as int, big_len as int, j),
        decreases 576 - is_pos,
    {
        let vals = match huffman_decode(r, tab) {
            Ok(v) => v,
            Err(e) => {
                proof {
                    let bl = old(r).bit_len();
                    if count1_reachable(*tab, s, p0, q0, len as int, big_len as int, bl) {
                        let k = choose|k: nat| #[trigger] count1_fits(*tab, s, p0, q0, len as int, big_len as int, k, bl);
                        if k < kq {
                            assert(quad_read(*tab, s, p0, q0, len as int, big_len as int, k));
                        } else if k == kq {
                            assert(quad_read(*tab, s, p0, q0, len as int, big_len as int, kq as nat));
                        } else {
                            lemma_quads_prefix(*tab, s, q0, (kq + 1) as nat, k);
                            assert(((kq + 1) - 1) as nat == kq as nat);
                        }
                    }
                }
                return Err(e);
            },
        };
        proof {
            assert(vals@.map_values(|x: i32| x as int)[0] == vals@[0] as int);
            assert(vals@.map_values(|x: i32| x as int)[1] == vals@[1] as int);
            assert(vals@.map_values(|x: i32| x as int)[2] == vals@[2] as int);
            assert(vals@.map_values(|x: i32| x as int)[3] == vals@[3] as int);
        }
        samples[is_pos] = vals[2];
        samples[is_pos + 1] = vals[3];
        samples[is_pos + 2] = vals[0];
        samples[is_pos + 3] = vals[1];
        proof {
            assert(quad_read(*tab, s, p0, q0, len as int, big_len as int, kq as nat));
            lemma_quads_step(*tab, s, q0, kq as nat);
        }
        is_pos = is_pos + 4;
        kq = kq + 1;
    }
    assert(!quad_read(*tab, s, p0, q0, len as int, big_len as int, kq as nat));
    Ok((is_pos, Ghost(kq as nat)))
}

/// Decodes the quantized spectrum of one granule of one channel from the
/// `len` bits that follow its scale factors. The big-values region holds
/// `2 * big_values` values coded in pairs; quadruples of values in -1..=1
/// follow while bins up to 576 remain and fewer than `len` bits have been
/// read. A quadruple that ends past `len` bits is dropped; bits left unread
/// are skipped. Returns `count1`, the bin at which decoding ended; every
/// bin from there on is zero.
#[verifier::rlimit(60)]
pub fn read_huffman(
    r: &mut BitReader,
    tables: &Vec<HuffmanTable>,
    sample_rate_table: usize,
    side: &GranuleChannelSideInfo,
    len: u32,
    samples: &mut [i32; 576],
) -> (res: Result<u32, Error>)
    requires
        old(r).wf(),
        tables_wf(tables@),
        sample_rate_table < 9,
        side.big_values <= 288,
        side.table_select[0] < 32 && side.table_select[1] < 32 && side.table_select[2] < 32,
    ensures
        final(r).data@ == old(r).data@,
        final(r).wf(),
        res is Err ==> res->Err_0.kind() == ErrorKind::InvalidData,
        len == 0 ==> res is Ok,
        res is Err ==> !spectrum_decodable(tables@, old(r).data@, old(r).pos, *side, sample_rate_table, len, old(r).bit_len()),
        res is Ok ==> res->Ok_0 <= 576 && res->Ok_0 % 2 == 0,
        res is Ok ==> forall|i: int| res->Ok_0 <= i < 576 ==> #[trigger] final(samples)@[i] == 0,
        res is Ok ==> final(r).pos >= old(r).pos + len,
        res is Ok && len == 0 ==> res->Ok_0 == 0 && final(r).pos == old(r).pos,
        res is Ok && len > 0 ==> big_values_decode(tables@, old(r).data@, old(r).pos as int, *side, sample_rate_table as int, side.big_values as nat) is Some,
        res is Ok ==> forall|i: int| 0 <= i < res->Ok_0 && i < 2 * side.big_values ==> #[trigger] final(samples)@[i] as int
            == big_values_decode(tables@, old(r).data@, old(r).pos as int, *side, sample_rate_table as int, side.big_values as nat)->Some_0.0[i],
        res is Ok ==> forall|i: int| 2 * side.big_values <= i < res->Ok_0 ==> -1 <= #[trigger] final(samples)@[i] <= 1,
        res is Ok && len > 0 ==> exists|k: nat| #[trigger] count1_region_ok(
            tables@,
            old(r).data@,
            old(r).pos,
            *side,
            sample_rate_table,
            len,
            k,
            res->Ok_0,
            final(samples)@,
            final(r).pos,
        ),
        res is Ok ==> spectrum_read(tables@, old(r).data@, old(r).pos, *side, sample_rate_table, len, res->Ok_0, final(samples)@, final(r).pos),
{
    if len == 0 {
        let mut i: usize = 0;
        while i < 576
            invariant
                i <= 576,
                forall|j: int| 0 <= j < i ==> #[trigger] samples@[j] == 0,
            decreases 576 - i,
        {
            samples[i] = 0;
            i = i + 1;
        }
        proof {
            reveal(spectrum_read);
        }
        return Ok(0);
    }
    let ghost s = r.data@;
    let ghost p0 = r.pos as int;
    let start = r.pos;
    let (r1, r2) = if side.block_type == crate::types::BlockType::Short || side.block_type == crate::types::BlockType::Mixed {
        (36usize, 576usize)
    } else {
        let a = side.region0_count as usize + 1;
        let b = side.region0_count as usize + side.region1_count as usize + 2;
        (band_long(sample_rate_table, if a > 22 { 22 } else { a }) as usize, band_long(sample_rate_table, if b > 22 { 22 } else { b }) as usize)
    };
    assert((r1 as int, r2 as int) == region_bounds(*side, sample_rate_table as int));
    read_big_values(r, tables, sample_rate_table, side, r1, r2, samples)?;
    let ghost d = big_values_decode(tables@, s, p0, *side, sample_rate_table as int, side.big_values as nat);
    let ghost q0 = r.pos as int;
    let ghost after_big = samples@;
    let big_len = side.big_values as usize * 2;
    let count1_table: usize = if side.count1table_select { 33 } else { 32 };
    let ghost tab = tables@[count1_table as int];
    let (is_pos, k) = read_count1(r, &tables[count1_table], start, len, big_len, samples)?;
    let ghost after_quads = samples@;
    let ghost stop = r.pos as int;
    let count1 = finish_spectrum(r, start, len, is_pos, samples)?;
    let result = count1 as u32;
    proof {
        assert(tab == tables@[count1_table_of(*side)]);
        assert(q0 == p0 + d->Some_0.1);
        assert forall|i: int| 0 <= i < count1 && i < 2 * side.big_values implies #[trigger] samples@[i] as int == d->Some_0.0[i] by {
            assert(samples@[i] == after_quads[i]);
            assert(after_quads[i] == after_big[i]);
        }
        assert forall|i: int| big_len <= i < count1 implies #[trigger] samples@[i] as int == quads_decode(tab, s, q0, k@)->Some_0.0[i - big_len] by {
            assert(samples@[i] == after_quads[i]);
        }
        assert forall|i: int| 2 * side.big_values <= i < count1 implies -1 <= #[trigger] samples@[i] <= 1 by {
            assert(samples@[i] == after_quads[i]);
        }
        assert(count1_region_ok(tables@, s, start, *side, sample_rate_table, len, k@, result, samples@, r.pos)) by {
            reveal(count1_region_ok);
        }
        assert(s == old(r).data@);
        assert(start == old(r).pos);
    }
    let ret: Result<u32, Error> = Ok(result);
    assert(ret->Ok_0 == result);
    assert(exists|kk: nat| #[trigger] count1_region_ok(tables@, old(r).data@, old(r).pos, *side, sample_rate_table, len, kk, ret->Ok_0, samples@, r.pos));
    proof {
        assert(forall|i: int| 0 <= i < count1 && i < 2 * side.big_values ==> #[trigger] samples@[i] as int
            == big_values_decode(tables@, old(r).data@, old(r).pos as int, *side, sample_rate_table as int, side.big_values as nat)->Some_0.0[i]);
        assert(forall|i: int| 2 * side.big_values <= i < count1 ==> -1 <= #[trigger] samples@[i] <= 1);
        reveal(spectrum_read);
    }
    ret
}

} // verus!
