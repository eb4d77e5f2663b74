//! Big-endian, MSB-first bit reader over a byte slice, and the bit-level
//! model every decoder contract of this crate is stated in.

use crate::error::Error;
use vstd::prelude::*;

verus! {

/// Bit `k` (0 = most significant) of the byte `b`.
pub open spec fn byte_bit(b: u8, k: int) -> bool {
    (b >> ((7 - k) as u8)) & 1u8 == 1u8
}

/// Bit `i` of the MSB-first bit stream carried by `data`.
pub open spec fn bit_at(data: Seq<u8>, i: int) -> bool {
    byte_bit(data[i / 8], i % 8)
}

/// The whole MSB-first bit stream carried by `data`.
pub open spec fn bits_of(data: Seq<u8>) -> Seq<bool> {
    Seq::new((data.len() * 8) as nat, |i: int| bit_at(data, i))
}

/// `2^n`.
pub open spec fn two_pow(n: nat) -> nat
    decreases n,
{
    if n == 0 {
        1
    } else {
        2 * two_pow((n - 1) as nat)
    }
}

/// Unsigned value of a bit sequence read MSB-first.
pub open spec fn bits_value(s: Seq<bool>) -> nat
    decreases s.len(),
{
    if s.len() == 0 {
        0
    } else {
        2 * bits_value(s.drop_last()) + if s.last() {
            1nat
        } else {
            0nat
        }
    }
}

/// Unsigned value of the `n` bits of `data` that start at bit `pos`.
pub open spec fn field_value(data: Seq<u8>, pos: int, n: int) -> nat {
    bits_value(bits_of(data).subrange(pos, pos + n))
}

/// Whether the `n` bits starting at bit `pos` lie inside `data` (and the
/// end position is addressable).
pub open spec fn fits(data: Seq<u8>, pos: int, n: int) -> bool {
    0 <= pos && 0 <= n && pos + n <= data.len() * 8 && pos + n <= usize::MAX
}

/// Bits left after bit `pos` of `data` (zero at or past the end).
pub open spec fn remaining_bits(data: Seq<u8>, pos: nat) -> nat {
    if pos <= data.len() * 8 {
        (data.len() * 8 - pos) as nat
    } else {
        0
    }
}

/// When the input's length in bits is addressable, `n` bits fit at `pos`
/// (so [`BitReader::read`] succeeds) exactly when at least `n` bits remain
/// ([`BitReader::bits_remaining`]); a zero-bit read also needs the cursor
/// within the input.
pub proof fn lemma_read_fits_remaining(data: Seq<u8>, pos: nat, n: nat)
    requires
        data.len() * 8 <= usize::MAX,
        pos <= data.len() * 8 || n > 0,
    ensures
        fits(data, pos as int, n as int) <==> remaining_bits(data, pos) >= n,
{
}

/// Two's-complement value of an `n`-bit field whose unsigned value is `raw`.
pub open spec fn signed_value(raw: nat, n: nat) -> int {
    if n > 0 && raw >= two_pow((n - 1) as nat) {
        raw - two_pow(n)
    } else {
        raw as int
    }
}

/// Powers of two are positive.
pub proof fn lemma_two_pow_pos(n: nat)
    ensures
        two_pow(n) >= 1,
    decreases n,
{
    if n > 0 {
        lemma_two_pow_pos((n - 1) as nat);
    }
}

/// Powers of two grow with the exponent.
pub proof fn lemma_two_pow_mono(a: nat, b: nat)
    requires
        a <= b,
    ensures
        two_pow(a) <= two_pow(b),
    decreases b,
{
    if a < b {
        lemma_two_pow_mono(a, (b - 1) as nat);
        lemma_two_pow_pos((b - 1) as nat);
    }
}

/// The powers of two the 8-, 16- and 32-bit bounds use.
pub proof fn lemma_two_pow_32()
    ensures
        two_pow(8) == 0x100,
        two_pow(16) == 0x10000,
        two_pow(31) == 0x8000_0000,
        two_pow(32) == 0x1_0000_0000,
{
    reveal_with_fuel(two_pow, 33);
}

/// A bit sequence of length `n` has a value below `2^n`.
pub proof fn lemma_bits_value_bound(s: Seq<bool>)
    ensures
        bits_value(s) < two_pow(s.len()),
    decreases s.len(),
{
    if s.len() > 0 {
        lemma_bits_value_bound(s.drop_last());
    }
}

/// Extending a field by one bit doubles its value and adds the new bit.
pub proof fn lemma_bits_value_extend(s: Seq<bool>, a: int, b: int)
    requires
        0 <= a <= b < s.len(),
    ensures
        bits_value(s.subrange(a, b + 1)) == 2 * bits_value(s.subrange(a, b)) + if s[b] {
            1nat
        } else {
            0nat
        },
{
    assert(s.subrange(a, b + 1).drop_last() =~= s.subrange(a, b));
}

/// The value of a concatenation.
pub proof fn lemma_bits_value_append(x: Seq<bool>, y: Seq<bool>)
    ensures
        bits_value(x + y) == bits_value(x) * two_pow(y.len()) + bits_value(y),
    decreases y.len(),
{
    if y.len() == 0 {
        assert(x + y =~= x);
        assert(two_pow(0) == 1);
        assert(bits_value(y) == 0);
    } else {
        let yd = y.drop_last();
        lemma_bits_value_append(x, yd);
        assert((x + y).drop_last() =~= x + yd);
        assert((x + y).last() == y.last());
        let lb: nat = if y.last() {
            1nat
        } else {
            0nat
        };
        let a = bits_value(x);
        let t = two_pow(yd.len());
        let c = bits_value(yd);
        assert(bits_value(x + y) == 2 * bits_value(x + yd) + lb);
        assert(bits_value(x + yd) == a * t + c);
        assert(bits_value(y) == 2 * c + lb);
        assert(two_pow(y.len()) == 2 * t);
        assert(2 * (a * t + c) + lb == a * (2 * t) + (2 * c + lb)) by (nonlinear_arith);
    }
}

/// Exec view of one stream bit equals the model.
proof fn lemma_bit_exec(b: u8, k: u8)
    requires
        k < 8,
    ensures
        ((b >> (7 - k) as u8) & 1u8) <= 1,
        (((b >> (7 - k) as u8) & 1u8) == 1) == byte_bit(b, k as int),
{
    assert(((b >> (7 - k) as u8) & 1u8) <= 1) by (bit_vector);
}

/// A cursor over a byte slice that reads MSB-first bit fields.
#[derive(Clone, Debug)]
pub struct BitReader<'a> {
    data: &'a [u8],
    bit_pos: usize,
}

impl<'a> BitReader<'a> {
    /// The bytes being read.
    pub closed spec fn bytes(&self) -> Seq<u8> {
        self.data@
    }

    /// The current bit cursor.
    pub closed spec fn pos(&self) -> nat {
        self.bit_pos as nat
    }

    /// A reader positioned at the first bit of `data`.
    pub fn new(data: &'a [u8]) -> (r: Self)
        ensures
            r.bytes() == data@,
            r.pos() == 0,
    {
        Self { data, bit_pos: 0 }
    }

    /// A reader positioned at bit `bit_offset` of `data` (the cursor may
    /// lie past the end; reads then fail).
    pub fn at_bit(data: &'a [u8], bit_offset: usize) -> (r: Self)
        ensures
            r.bytes() == data@,
            r.pos() == bit_offset,
    {
        Self { data, bit_pos: bit_offset }
    }

    /// The bytes being read, as a slice.
    pub fn backing_bytes(&self) -> (b: &'a [u8])
        ensures
            b@ == self.bytes(),
    {
        self.data
    }

    /// Total number of bits in the slice, saturated at `usize::MAX`.
    fn total_bits(&self) -> (t: usize)
        ensures
            t as int == if self.bytes().len() * 8 <= usize::MAX {
                (self.bytes().len() * 8) as int
            } else {
                usize::MAX as int
            },
    {
        let len = self.data.len();
        if len <= usize::MAX / 8 {
            len * 8
        } else {
            usize::MAX
        }
    }

    /// Number of bits left after the cursor (zero when the cursor is at or
    /// past the end; the total is saturated at `usize::MAX`).
    pub fn bits_remaining(&self) -> (r: usize)
        ensures
            self.bytes().len() * 8 <= usize::MAX ==> r as nat == remaining_bits(
                self.bytes(),
                self.pos(),
            ),
    {
        let t = self.total_bits();
        if self.bit_pos <= t {
            t - self.bit_pos
        } else {
            0
        }
    }

    /// Current bit cursor.
    pub fn bit_pos(&self) -> (p: usize)
        ensures
            p == self.pos(),
    {
        self.bit_pos
    }

    /// Current bit cursor, counted from the first bit of the slice.
    pub fn absolute_bit_position(&self) -> (p: usize)
        ensures
            p == self.pos(),
    {
        self.bit_pos
    }

    /// Whether `n` more bits can be read.
    fn can_read(&self, n: usize) -> (b: bool)
        ensures
            b == fits(self.bytes(), self.pos() as int, n as int),
    {
        let t = self.total_bits();
        self.bit_pos <= t && n <= t - self.bit_pos
    }

    /// Advance the cursor to the next byte boundary (no-op when aligned).
    pub fn byte_align(&mut self)
        requires
            old(self).pos() <= usize::MAX - 7,
        ensures
            final(self).bytes() == old(self).bytes(),
            final(self).pos() % 8 == 0,
            old(self).pos() <= final(self).pos() < old(self).pos() + 8,
    {
        let r = self.bit_pos % 8;
        if r != 0 {
            self.bit_pos = self.bit_pos + (8 - r);
        }
    }

    /// Skip `n` bits.
    pub fn skip(&mut self, n: usize) -> (res: Result<(), Error>)
        ensures
            final(self).bytes() == old(self).bytes(),
            res is Ok <==> fits(old(self).bytes(), old(self).pos() as int, n as int),
            res is Ok ==> final(self).pos() == old(self).pos() + n,
            res is Err ==> res == Err::<(), Error>(Error::UnexpectedEof) && final(self).pos()
                == old(self).pos(),
    {
        if !self.can_read(n) {
            return Err(Error::UnexpectedEof);
        }
        self.bit_pos = self.bit_pos + n;
        Ok(())
    }

    /// Skip `n` bits (same as [`Self::skip`]).
    pub fn skip_bits(&mut self, n: usize) -> (res: Result<(), Error>)
        ensures
            final(self).bytes() == old(self).bytes(),
            res is Ok <==> fits(old(self).bytes(), old(self).pos() as int, n as int),
            res is Ok ==> final(self).pos() == old(self).pos() + n,
            res is Err ==> res == Err::<(), Error>(Error::UnexpectedEof) && final(self).pos()
                == old(self).pos(),
    {
        self.skip(n)
    }

    /// Read one bit.
    pub fn read_bit(&mut self) -> (res: Result<bool, Error>)
        ensures
            final(self).bytes() == old(self).bytes(),
            res is Ok <==> fits(old(self).bytes(), old(self).pos() as int, 1),
            res matches Ok(b) ==> b == bits_of(old(self).bytes())[old(self).pos() as int]
                && field_value(old(self).bytes(), old(self).pos() as int, 1) == if b {
                1nat
            } else {
                0nat
            } && final(self).pos() == old(self).pos() + 1,
            res is Err ==> res == Err::<bool, Error>(Error::UnexpectedEof) && final(self).pos()
                == old(self).pos(),
    {
        if !self.can_read(1) {
            return Err(Error::UnexpectedEof);
        }
        let p = self.bit_pos;
        let byte = self.data[p / 8];
        let k = (p % 8) as u8;
        let bit = (byte >> (7 - k)) & 1u8;
        proof {
            lemma_bit_exec(byte, k);
            let s = bits_of(self.data@);
            lemma_bits_value_extend(s, p as int, p as int);
            assert(s.subrange(p as int, p as int) =~= Seq::<bool>::empty());
        }
        self.bit_pos = p + 1;
        Ok(bit == 1u8)
    }

    /// Read `n <= 32` bits MSB-first as an unsigned integer.
    pub fn read(&mut self, n: usize) -> (res: Result<u32, Error>)
        requires
            n <= 32,
        ensures
            final(self).bytes() == old(self).bytes(),
            res is Ok <==> fits(old(self).bytes(), old(self).pos() as int, n as int),
            res matches Ok(v) ==> v == field_value(old(self).bytes(), old(self).pos() as int, n as int)
                && final(self).pos() == old(self).pos() + n,
            res is Err ==> res == Err::<u32, Error>(Error::UnexpectedEof) && final(self).pos()
                == old(self).pos(),
    {
        if !self.can_read(n) {
            return Err(Error::UnexpectedEof);
        }
        let ghost s = bits_of(self.data@);
        let ghost start = self.bit_pos as int;
        let mut acc: u32 = 0;
        let mut i: usize = 0;
        proof {
            assert(s.subrange(start, start) =~= Seq::<bool>::empty());
            lemma_two_pow_32();
        }
        while i < n
            invariant
                i <= n <= 32,
                0 <= start,
                s == bits_of(self.data@),
                start + n <= self.data@.len() * 8,
                start + n <= usize::MAX,
                self.bit_pos == start + i,
                acc as nat == bits_value(s.subrange(start, start + i)),
                (acc as nat) < two_pow(i as nat),
                self.data@ == old(self).bytes(),
                two_pow(31) == 0x8000_0000,
            decreases n - i,
        {
            let p = self.bit_pos;
            let byte = self.data[p / 8];
            let k = (p % 8) as u8;
            let bit = (byte >> (7 - k)) & 1u8;
            proof {
                lemma_bit_exec(byte, k);
                lemma_bits_value_extend(s, start, p as int);
                lemma_two_pow_mono(i as nat, 31);
                assert(acc <= 0x7fff_ffff);
            }
            let b32 = bit as u32;
            assert(((acc << 1u32) | b32) == 2 * acc + b32) by (bit_vector)
                requires
                    acc <= 0x7fff_ffff,
                    b32 <= 1,
            ;
            acc = (acc << 1u32) | b32;
            self.bit_pos = p + 1;
            i = i + 1;
        }
        Ok(acc)
    }

    /// Read `n` bits (same as [`Self::read`]).
    pub fn read_bits(&mut self, n: usize) -> (res: Result<u32, Error>)
        requires
            n <= 32,
        ensures
            final(self).bytes() == old(self).bytes(),
            res is Ok <==> fits(old(self).bytes(), old(self).pos() as int, n as int),
            res matches Ok(v) ==> v == field_value(old(self).bytes(), old(self).pos() as int, n as int)
                && final(self).pos() == old(self).pos() + n,
            res is Err ==> res == Err::<u32, Error>(Error::UnexpectedEof) && final(self).pos()
                == old(self).pos(),
    {
        self.read(n)
    }

    /// Read `1 <= n <= 32` bits as a two's-complement signed integer.
    pub fn read_signed(&mut self, n: usize) -> (res: Result<i32, Error>)
        requires
            1 <= n <= 32,
        ensures
            final(self).bytes() == old(self).bytes(),
            res is Ok <==> fits(old(self).bytes(), old(self).pos() as int, n as int),
            res matches Ok(v) ==> v == signed_value(
                field_value(old(self).bytes(), old(self).pos() as int, n as int),
                n as nat,
            ) && final(self).pos() == old(self).pos() + n,
            res is Err ==> res == Err::<i32, Error>(Error::UnexpectedEof) && final(self).pos()
                == old(self).pos(),
    {
        let raw = self.read(n)?;
        proof {
            lemma_two_pow_32();
            lemma_bits_value_bound(bits_of(old(self).bytes()).subrange(
                old(self).pos() as int,
                old(self).pos() + n,
            ));
            lemma_two_pow_mono(n as nat, 32);
            lemma_two_pow_mono((n - 1) as nat, 31);
            assert(two_pow(n as nat) == 2 * two_pow((n - 1) as nat));
        }
        let sign_bit: u32 = 1u32 << ((n - 1) as u32);
        let half: i64 = sign_bit as i64;
        assert(sign_bit as nat == two_pow((n - 1) as nat)) by {
            lemma_shl_is_two_pow((n - 1) as u32);
        }
        let val: i64 = if raw as i64 >= half {
            raw as i64 - 2 * half
        } else {
            raw as i64
        };
        Ok(val as i32)
    }
}

/// `1 << k` equals `2^k` for `k < 32`.
proof fn lemma_shl_is_two_pow(k: u32)
    requires
        k < 32,
    ensures
        (1u32 << k) as nat == two_pow(k as nat),
    decreases k,
{
    if k == 0 {
        assert(1u32 << 0u32 == 1u32) by (bit_vector);
    } else {
        lemma_shl_is_two_pow((k - 1) as u32);
        let j = (k - 1) as u32;
        assert((1u32 << k) == 2 * (1u32 << j)) by (bit_vector)
            requires
                j < 31,
                k == j + 1,
        ;
    }
}


/// The low `w` bits of `v`, most significant first.
pub open spec fn uint_bits(v: u32, w: nat) -> Seq<bool> {
    Seq::new(w, |i: int| (v >> ((w - 1 - i) as u32)) & 1u32 == 1u32)
}

proof fn lemma_uint_bits_step(v: u32, w: nat)
    requires
        1 <= w <= 32,
    ensures
        uint_bits(v, w) =~= uint_bits(v >> 1u32, (w - 1) as nat).push((v & 1u32) == 1u32),
{
    let a = uint_bits(v, w);
    let b = uint_bits(v >> 1u32, (w - 1) as nat).push((v & 1u32) == 1u32);
    assert forall|i: int| 0 <= i < w implies a[i] == b[i] by {
        if i < w - 1 {
            let k = (w - 1 - i) as u32;
            assert(((v >> 1u32) >> ((k - 1) as u32)) == v >> k) by (bit_vector)
                requires
                    1 <= k <= 31,
            ;
        } else {
            assert(v >> 0u32 == v) by (bit_vector);
        }
    }
}

/// Reading back the low `w` bits of a value smaller than `2^w` yields it.
pub proof fn lemma_uint_bits_value(v: u32, w: nat)
    requires
        w <= 32,
        (v as nat) < two_pow(w),
    ensures
        bits_value(uint_bits(v, w)) == v,
        uint_bits(v, w).len() == w,
    decreases w,
{
    if w == 0 {
        assert(uint_bits(v, w) =~= Seq::<bool>::empty());
    } else {
        lemma_uint_bits_step(v, w);
        let h = v >> 1u32;
        assert(h as nat == v as nat / 2) by {
            assert(v >> 1u32 == v / 2) by (bit_vector);
        }
        assert((v & 1u32) as nat == v as nat % 2) by {
            assert(v & 1u32 == v % 2) by (bit_vector);
        }
        lemma_uint_bits_value(h, (w - 1) as nat);
        let s = uint_bits(v, w);
        assert(s.drop_last() =~= uint_bits(h, (w - 1) as nat));
    }
}

/// Append the low `width` bits of `value`, most significant first.
pub fn push_bits(bv: &mut Vec<bool>, value: u32, width: u32)
    requires
        width <= 32,
    ensures
        final(bv)@ == old(bv)@ + uint_bits(value, width as nat),
{
    let mut i: u32 = width;
    let ghost start = bv@;
    while i > 0
        invariant
            i <= width <= 32,
            bv@ == start + uint_bits(value, width as nat).subrange(0, (width - i) as int),
        decreases i,
    {
        i = i - 1;
        let bit = ((value >> i) & 1u32) == 1u32;
        bv.push(bit);
        proof {
            let u = uint_bits(value, width as nat);
            assert(u.subrange(0, (width - i) as int) =~= u.subrange(0, (width - i - 1) as int).push(
                u[(width - i - 1) as int],
            ));
        }
    }
    assert(uint_bits(value, width as nat).subrange(0, width as int) =~= uint_bits(
        value,
        width as nat,
    ));
}

/// The bit stream `bv` padded with zero bits up to a whole number of bytes.
pub open spec fn padded_bits(bv: Seq<bool>) -> Seq<bool> {
    bv + Seq::new(((8 - bv.len() % 8) % 8) as nat, |i: int| false)
}

/// Number of bytes needed to hold `n` bits.
pub open spec fn bytes_for_bits(n: nat) -> nat {
    (n + 7) / 8
}

proof fn lemma_set_bit(b: u8, i: u8, k: u8)
    requires
        i < 8,
        k < 8,
    ensures
        ((b | (1u8 << (7 - i) as u8)) >> (7 - k) as u8) & 1u8 == if k == i {
            1u8
        } else {
            (b >> (7 - k) as u8) & 1u8
        },
{
    assert(((b | (1u8 << (7 - i) as u8)) >> (7 - k) as u8) & 1u8 == if k == i {
        1u8
    } else {
        (b >> (7 - k) as u8) & 1u8
    }) by (bit_vector)
        requires
            i < 8,
            k < 8,
    ;
}

/// Pack a bit stream MSB-first into bytes, zero-padding the last byte.
pub fn pack_bits(bv: &Vec<bool>) -> (out: Vec<u8>)
    requires
        bv@.len() + 8 <= usize::MAX,
    ensures
        out@.len() == bytes_for_bits(bv@.len()),
        bits_of(out@) == padded_bits(bv@),
{
    let n = bv.len();
    let nbytes = (n + 7) / 8;
    let ghost pb = padded_bits(bv@);
    assert(pb.len() == nbytes * 8);
    let mut out: Vec<u8> = Vec::with_capacity(nbytes);
    let mut j: usize = 0;
    while j < nbytes
        invariant
            n == bv@.len(),
            nbytes == (n + 7) / 8,
            pb == padded_bits(bv@),
            pb.len() == nbytes * 8,
            j <= nbytes,
            out@.len() == j,
            forall|q: int| 0 <= q < j * 8 ==> #[trigger] bit_at(out@, q) == pb[q],
        decreases nbytes - j,
    {
        let mut b: u8 = 0;
        let mut i: u8 = 0;
        assert forall|k: u8| 0 <= k < 8 implies !#[trigger] byte_bit(0u8, k as int) by {
            assert((0u8 >> (7 - k) as u8) & 1u8 == 0u8) by (bit_vector)
                requires
                    k < 8,
            ;
        }
        while i < 8
            invariant
                i <= 8,
                j < nbytes,
                n == bv@.len(),
                pb == padded_bits(bv@),
                pb.len() == nbytes * 8,
                forall|k: u8| k < i ==> #[trigger] byte_bit(b, k as int) == pb[j * 8 + k],
                forall|k: u8| i <= k < 8 ==> !#[trigger] byte_bit(b, k as int),
            decreases 8 - i,
        {
            let idx = j * 8 + i as usize;
            let bit = if idx < n {
                bv[idx]
            } else {
                false
            };
            assert(bit == pb[idx as int]);
            let ghost old_b = b;
            if bit {
                b = b | (1u8 << (7 - i));
                proof {
                    assert forall|k: u8| k < 8 implies #[trigger] byte_bit(b, k as int) == (if k
                        == i {
                        true
                    } else {
                        byte_bit(old_b, k as int)
                    }) by {
                        lemma_set_bit(old_b, i, k);
                    }
                }
            }
            i = i + 1;
        }
        let ghost old_out = out@;
        out.push(b);
        proof {
            assert forall|q: int| 0 <= q < (j + 1) * 8 implies #[trigger] bit_at(out@, q)
                == pb[q] by {
                if q < j * 8 {
                    assert(out@[q / 8] == old_out[q / 8]);
                    assert(bit_at(old_out, q) == pb[q]);
                } else {
                    let k = (q % 8) as u8;
                    assert(q / 8 == j);
                    assert(byte_bit(b, k as int) == pb[j * 8 + k]);
                }
            }
        }
        j = j + 1;
    }
    assert(bits_of(out@) =~= pb) by {
        assert forall|q: int| 0 <= q < pb.len() implies bits_of(out@)[q] == pb[q] by {
            assert(bit_at(out@, q) == pb[q]);
        }
    }
    out
}

} // verus!
