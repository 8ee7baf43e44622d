//! MSB-first bit reading over a byte buffer.
use crate::error::{invalid, Error, ErrorKind};
use vstd::arithmetic::div_mod::lemma_fundamental_div_mod_converse;
use vstd::arithmetic::power::lemma_pow0;
use vstd::arithmetic::power2::{lemma2_to64, lemma_pow2_pos, lemma_pow2_unfold, pow2};
use vstd::bits::{lemma_u64_pow2_no_overflow, lemma_u64_shl_is_mul};
use vstd::prelude::*;
use vstd::slice::slice_subrange;

verus! {

/// Bit `i` of the byte sequence `s`, counting from the most significant bit
/// of the first byte.
pub open spec fn bit_at(s: Seq<u8>, i: int) -> nat {
    ((s[i / 8] as nat) / pow2((7 - i % 8) as nat)) % 2
}

/// The `n` bits of `s` starting at bit `start`, read as an unsigned integer
/// with the first bit most significant.
pub open spec fn bits_value(s: Seq<u8>, start: int, n: nat) -> nat
    decreases n,
{
    if n == 0 {
        0
    } else {
        bits_value(s, start, (n - 1) as nat) * 2 + bit_at(s, start + n - 1)
    }
}

/// Reading `m + n` bits is reading `m` bits, then `n` more.
pub proof fn lemma_bits_split(s: Seq<u8>, a: int, m: nat, n: nat)
    ensures
        bits_value(s, a, m + n) == bits_value(s, a, m) * pow2(n) + bits_value(s, a + m, n),
    decreases n,
{
    if n == 0 {
        lemma_pow0(2);
        assert(m + n == m);
        assert(pow2(n) == 1);
        assert(bits_value(s, a, m) * pow2(n) == bits_value(s, a, m) * 1);
        assert(bits_value(s, a + m, 0) == 0);
        assert(bits_value(s, a, m + n) == bits_value(s, a, m) * pow2(n) + bits_value(s, a + m, n));
    } else {
        let k = (n - 1) as nat;
        lemma_bits_split(s, a, m, k);
        lemma_pow2_unfold(n);
        assert(bits_value(s, a, m + n) == bits_value(s, a, m + k) * 2 + bit_at(s, a + m + k));
        assert(bits_value(s, a + m, n) == bits_value(s, a + m, k) * 2 + bit_at(s, a + m + k));
        let x = bits_value(s, a, m);
        let y = bits_value(s, a + m, k);
        let p = pow2(k);
        assert((x * p + y) * 2 == x * (p * 2) + y * 2) by (nonlinear_arith);
    }
}

/// `n` bits hold a value below `2^n`.
pub proof fn lemma_bits_bound(s: Seq<u8>, a: int, n: nat)
    ensures
        bits_value(s, a, n) < pow2(n),
    decreases n,
{
    if n == 0 {
        lemma_pow0(2);
    } else {
        lemma_bits_bound(s, a, (n - 1) as nat);
        lemma_pow2_unfold(n);
    }
}

/// Reading from a suffix that starts at byte `b` is reading from bit `8 * b`.
pub proof fn lemma_bits_suffix(s: Seq<u8>, b: int, k: nat)
    requires
        0 <= b <= s.len(),
        8 * b + k <= 8 * s.len(),
    ensures
        bits_value(s.subrange(b, s.len() as int), 0, k) == bits_value(s, 8 * b, k),
    decreases k,
{
    if k > 0 {
        lemma_bits_suffix(s, b, (k - 1) as nat);
        let j = k - 1;
        assert((8 * b + j) / 8 == b + j / 8);
        assert((8 * b + j) % 8 == j % 8);
    }
}

/// Relies on bitstream_io's `BitReader::read_unsigned_var` in big-endian order:
/// the first `n` bits of `data`, most significant first, or an error when
/// `data` holds fewer than `n` bits.
#[verifier::external_body]
fn read_leading_bits(data: &[u8], n: u32) -> (r: Option<u64>)
    requires
        n <= 64,
    ensures
        n <= 8 * data@.len() ==> r == Some(bits_value(data@, 0, n as nat) as u64),
        n > 8 * data@.len() ==> r is None,
{
    let mut reader = bitstream_io::BitReader::endian(data, bitstream_io::BigEndian);
    bitstream_io::BitRead::read_unsigned_var::<u64>(&mut reader, n).ok()
}

/// A cursor that reads bits, most significant first, from a byte buffer.
pub struct BitReader<'a> {
    pub data: &'a [u8],
    pub pos: usize,
}

impl<'a> BitReader<'a> {
    /// The number of bits in the buffer.
    pub open spec fn bit_len(&self) -> int {
        8 * self.data@.len() as int
    }

    /// The cursor stands inside the buffer, whose bit count fits in `usize`.
    pub open spec fn wf(&self) -> bool {
        self.pos <= self.bit_len() <= usize::MAX
    }

    /// A reader at the first bit of `data`.
    pub fn new(data: &'a [u8]) -> (r: BitReader<'a>)
        requires
            8 * data@.len() <= usize::MAX,
        ensures
            r.data@ == data@,
            r.pos == 0,
            r.wf(),
    {
        BitReader { data, pos: 0 }
    }

    /// The number of bits left to read.
    pub fn bits_left(&self) -> (r: usize)
        requires
            self.wf(),
        ensures
            r == self.bit_len() - self.pos,
    {
        8 * self.data.len() - self.pos
    }

    /// Reads `n` bits as an unsigned integer, most significant first.
    /// Reading past the end of the buffer is `InvalidData` and moves nothing.
    pub fn read(&mut self, n: u32) -> (r: Result<u32, Error>)
        requires
            old(self).wf(),
            n <= 32,
        ensures
            final(self).data@ == old(self).data@,
            final(self).wf(),
            match r {
                Ok(v) => {
                    &&& old(self).pos + n <= old(self).bit_len()
                    &&& v == bits_value(old(self).data@, old(self).pos as int, n as nat)
                    &&& final(self).pos == old(self).pos + n
                },
                Err(e) => {
                    &&& old(self).pos + n > old(self).bit_len()
                    &&& e.kind() == ErrorKind::InvalidData
                    &&& final(self).pos == old(self).pos
                },
            },
    {
        let len = self.data.len();
        if n as usize > 8 * len - self.pos {
            return Err(invalid("bit read past end of buffer"));
        }
        let byte = self.pos / 8;
        let off = (self.pos % 8) as u32;
        let rest = slice_subrange(self.data, byte, len);
        let count = off + n;
        let raw = read_leading_bits(rest, count);
        proof {
            lemma_bits_suffix(self.data@, byte as int, count as nat);
            assert(8 * byte + off == self.pos);
            lemma_bits_split(self.data@, 8 * byte, off as nat, n as nat);
            lemma_bits_bound(self.data@, self.pos as int, n as nat);
            lemma_pow2_pos(n as nat);
        }
        match raw {
            Some(raw) => {
                let ghost hi = bits_value(self.data@, 8 * byte, off as nat);
                let ghost lo = bits_value(self.data@, self.pos as int, n as nat);
                proof {
                    assert(rest@ == self.data@.subrange(byte as int, len as int));
                    lemma_u64_pow2_no_overflow(n as nat);
                    lemma_u64_shl_is_mul(1, n as u64);
                    lemma2_to64();
                    lemma_bits_bound(rest@, 0, count as nat);
                    lemma_u64_pow2_no_overflow(count as nat);
                    assert(raw == hi * pow2(n as nat) + lo);
                    lemma_fundamental_div_mod_converse(raw as int, pow2(n as nat) as int, hi as int, lo as int);
                }
                let v = raw % (1u64 << n as u64);
                assert(v == lo);
                self.pos = self.pos + n as usize;
                Ok(v as u32)
            },
            None => {
                proof {
                    assert(rest@ == self.data@.subrange(byte as int, len as int));
                }
                Err(invalid("bit read past end of buffer"))
            },
        }
    }

    /// Reads one bit.
    pub fn read_bit(&mut self) -> (r: Result<bool, Error>)
        requires
            old(self).wf(),
        ensures
            final(self).data@ == old(self).data@,
            final(self).wf(),
            match r {
                Ok(b) => {
                    &&& old(self).pos + 1 <= old(self).bit_len()
                    &&& b == (bit_at(old(self).data@, old(self).pos as int) == 1)
                    &&& final(self).pos == old(self).pos + 1
                },
                Err(e) => {
                    &&& old(self).pos + 1 > old(self).bit_len()
                    &&& e.kind() == ErrorKind::InvalidData
                    &&& final(self).pos == old(self).pos
                },
            },
    {
        let v = self.read(1)?;
        proof {
            reveal_with_fuel(bits_value, 2);
            assert(bits_value(old(self).data@, old(self).pos as int, 1) == bit_at(old(self).data@, old(self).pos as int));
        }
        Ok(v == 1)
    }

    /// Moves the cursor `n` bits forward. Skipping past the end of the buffer
    /// is `InvalidData` and moves nothing.
    pub fn skip(&mut self, n: u32) -> (r: Result<(), Error>)
        requires
            old(self).wf(),
        ensures
            final(self).data@ == old(self).data@,
            final(self).wf(),
            match r {
                Ok(_) => {
                    &&& old(self).pos + n <= old(self).bit_len()
                    &&& final(self).pos == old(self).pos + n
                },
                Err(e) => {
                    &&& old(self).pos + n > old(self).bit_len()
                    &&& e.kind() == ErrorKind::InvalidData
                    &&& final(self).pos == old(self).pos
                },
            },
    {
        if n as usize > 8 * self.data.len() - self.pos {
            return Err(invalid("bit skip past end of buffer"));
        }
        self.pos = self.pos + n as usize;
        Ok(())
    }
}

} // verus!
