//! Primary Audio Coding Side Information field decoders: the ABITS
//! (bit allocation), TMODE (transition mode) and SCALES (scale factor)
//! code books and their single-field decoders, the RMS square-root tables
//! and the SSC/PSC subsubframe-count prefix.

use crate::bits::{
    bits_of, bits_value, field_value, fits, lemma_bits_value_append, lemma_bits_value_bound,
    lemma_two_pow_pos, two_pow, BitReader,
};
use crate::error::Error;
use crate::header::fld;
use vstd::arithmetic::div_mod::lemma_fundamental_div_mod_converse;
use vstd::prelude::*;

verus! {

/// One Huffman code-book entry: `(symbol, code_length, code)`; the code
/// is the low `code_length` bits of `code`, read MSB-first.
pub type HuffmanEntry = (i16, u8, u16);

/// Longest code the side-information decoders try before giving up.
pub const MAX_HUFFMAN_CODE_LEN: u32 = 14;

// ---------------------------------------------------------------------
// Generic Huffman decoding
// ---------------------------------------------------------------------

/// Index of the first entry at or after `k` with code length `len` and
/// code `v`.
pub open spec fn huff_lookup_from(t: Seq<HuffmanEntry>, len: nat, v: nat, k: nat) -> Option<nat>
    decreases t.len() - k,
{
    if k >= t.len() {
        None
    } else if t[k as int].1 == len && t[k as int].2 == v {
        Some(k)
    } else {
        huff_lookup_from(t, len, v, k + 1)
    }
}

/// Decoding with a code book, having already read `l - 1` bits without a
/// match: read one more bit; on a match return `(symbol, end position)`;
/// after `max_len` bits without a match fail with `HuffmanDecodeFailed`;
/// when the input ends fail with `UnexpectedEof`.
pub open spec fn spec_huff_from(
    t: Seq<HuffmanEntry>,
    name: &'static str,
    bits: Seq<bool>,
    pos: nat,
    l: nat,
    max_len: nat,
) -> Result<(i16, nat), Error>
    decreases max_len + 1 - l,
{
    if l > max_len || l == 0 {
        Err(Error::HuffmanDecodeFailed { table: name })
    } else if !(pos + l <= bits.len() && pos + l <= usize::MAX) {
        Err(Error::UnexpectedEof)
    } else {
        match huff_lookup_from(t, l, fld(bits, pos as int, l as int), 0) {
            Some(k) => Ok((t[k as int].0, pos + l)),
            None => spec_huff_from(t, name, bits, pos, l + 1, max_len),
        }
    }
}

/// Where the cursor stands when decoding from `l` fails: after the
/// `l - 1` bits already read, or after every bit read before the input
/// ended or the walk gave up.
pub open spec fn spec_huff_stop(
    t: Seq<HuffmanEntry>,
    bits: Seq<bool>,
    pos: nat,
    l: nat,
    max_len: nat,
) -> nat
    decreases max_len + 1 - l,
{
    if l > max_len || l == 0 {
        if l == 0 {
            pos
        } else {
            (pos + l - 1) as nat
        }
    } else if !(pos + l <= bits.len() && pos + l <= usize::MAX) {
        (pos + l - 1) as nat
    } else {
        match huff_lookup_from(t, l, fld(bits, pos as int, l as int), 0) {
            Some(k) => pos + l,
            None => spec_huff_stop(t, bits, pos, l + 1, max_len),
        }
    }
}

/// A successful decode ends after its start.
pub proof fn lemma_huff_advances(
    t: Seq<HuffmanEntry>,
    name: &'static str,
    bits: Seq<bool>,
    pos: nat,
    l: nat,
    max_len: nat,
)
    ensures
        spec_huff_from(t, name, bits, pos, l, max_len) matches Ok((_, p)) ==> pos < p <= pos
            + max_len,
    decreases max_len + 1 - l,
{
    if !(l > max_len || l == 0) && pos + l <= bits.len() && pos + l <= usize::MAX {
        if huff_lookup_from(t, l, fld(bits, pos as int, l as int), 0) is None {
            lemma_huff_advances(t, name, bits, pos, l + 1, max_len);
        }
    }
}

/// The leading `l` bits of an `m`-bit field are the field divided by
/// `2^(m - l)`.
pub proof fn lemma_fld_prefix(bits: Seq<bool>, pos: nat, l: nat, m: nat)
    requires
        l <= m,
        pos + m <= bits.len(),
    ensures
        fld(bits, pos as int, l as int) == fld(bits, pos as int, m as int) / two_pow((m - l) as nat),
{
    let x = bits.subrange(pos as int, (pos + l) as int);
    let y = bits.subrange((pos + l) as int, (pos + m) as int);
    assert(bits.subrange(pos as int, (pos + m) as int) =~= x + y);
    lemma_bits_value_append(x, y);
    lemma_bits_value_bound(y);
    lemma_two_pow_pos(y.len());
    lemma_fundamental_div_mod_converse(
        bits_value(x + y) as int,
        two_pow(y.len()) as int,
        bits_value(x) as int,
        bits_value(y) as int,
    );
}

/// No code of `t` shorter than `len` bits is a leading part of the
/// `len`-bit code `code`.
pub open spec fn no_shorter_code(t: Seq<HuffmanEntry>, code: nat, len: nat) -> bool
    decreases len,
{
    if len <= 1 {
        true
    } else {
        huff_lookup_from(t, (len - 1) as nat, code / 2, 0) is None && no_shorter_code(
            t,
            code / 2,
            (len - 1) as nat,
        )
    }
}

proof fn lemma_no_shorter_code_at(
    t: Seq<HuffmanEntry>,
    bits: Seq<bool>,
    pos: nat,
    code: nat,
    len: nat,
    j: nat,
)
    requires
        1 <= j < len,
        pos + len <= bits.len(),
        fld(bits, pos as int, len as int) == code,
        no_shorter_code(t, code, len),
    ensures
        huff_lookup_from(t, j, fld(bits, pos as int, j as int), 0) is None,
    decreases len,
{
    lemma_fld_prefix(bits, pos, (len - 1) as nat, len);
    assert(two_pow(1) == 2) by {
        reveal_with_fuel(two_pow, 2);
    }
    if j < len - 1 {
        lemma_no_shorter_code_at(t, bits, pos, code / 2, (len - 1) as nat, j);
    }
}

/// Whether `code` of `len` bits is a code of `t` for `symbol` (the first
/// entry with that length and code).
pub open spec fn huff_code_is(t: Seq<HuffmanEntry>, code: nat, len: nat, symbol: i16) -> bool {
    match huff_lookup_from(t, len, code, 0) {
        Some(k) => t[k as int].0 == symbol,
        None => false,
    }
}

proof fn lemma_huff_code_from(
    t: Seq<HuffmanEntry>,
    name: &'static str,
    bits: Seq<bool>,
    pos: nat,
    code: nat,
    len: nat,
    symbol: i16,
    l: nat,
    max_len: nat,
)
    requires
        1 <= l <= len <= max_len,
        pos + len <= bits.len(),
        pos + len <= usize::MAX,
        fld(bits, pos as int, len as int) == code,
        no_shorter_code(t, code, len),
        huff_code_is(t, code, len, symbol),
    ensures
        spec_huff_from(t, name, bits, pos, l, max_len) == Ok::<(i16, nat), Error>((symbol, pos + len)),
    decreases len - l,
{
    lemma_fld_prefix(bits, pos, l, len);
    if l < len {
        lemma_no_shorter_code_at(t, bits, pos, code, len, l);
        lemma_huff_code_from(t, name, bits, pos, code, len, symbol, l + 1, max_len);
    } else {
        assert(two_pow(0) == 1);
    }
}

/// A stream that starts with a code of `t` decodes to that code's symbol,
/// ending after the code, when no shorter code of `t` starts the stream.
pub proof fn lemma_huff_code_decodes(
    t: Seq<HuffmanEntry>,
    name: &'static str,
    bits: Seq<bool>,
    pos: nat,
    code: nat,
    len: nat,
    symbol: i16,
    max_len: nat,
)
    requires
        1 <= len <= max_len,
        pos + len <= bits.len(),
        pos + len <= usize::MAX,
        fld(bits, pos as int, len as int) == code,
        no_shorter_code(t, code, len),
        huff_code_is(t, code, len, symbol),
    ensures
        spec_huff_decode(t, name, bits, pos, max_len) == Ok::<(i16, nat), Error>((symbol, pos + len)),
{
    lemma_huff_code_from(t, name, bits, pos, code, len, symbol, 1, max_len);
}

/// Decoding one symbol at bit `pos` of `bits` with code book `t`.
pub open spec fn spec_huff_decode(
    t: Seq<HuffmanEntry>,
    name: &'static str,
    bits: Seq<bool>,
    pos: nat,
    max_len: nat,
) -> Result<(i16, nat), Error> {
    spec_huff_from(t, name, bits, pos, 1, max_len)
}

/// Walk a Huffman code book one bit at a time, MSB-first.
pub fn decode_huffman_table(
    br: &mut BitReader,
    table: &[HuffmanEntry],
    name: &'static str,
    max_len: u32,
) -> (res: Result<i16, Error>)
    requires
        1 <= max_len <= 31,
    ensures
        final(br).bytes() == old(br).bytes(),
        match spec_huff_decode(table@, name, bits_of(old(br).bytes()), old(br).pos(), max_len as nat) {
            Ok((s, p)) => res == Ok::<i16, Error>(s) && final(br).pos() == p,
            Err(e) => res == Err::<i16, Error>(e),
        },
        res is Ok ==> final(br).pos() > old(br).pos(),
        res is Err ==> final(br).pos() == spec_huff_stop(
            table@,
            bits_of(old(br).bytes()),
            old(br).pos(),
            1,
            max_len as nat,
        ),
{
    let ghost bits = bits_of(br.bytes());
    let ghost pos0 = br.pos();
    let mut value: u32 = 0;
    let mut bits_read: u32 = 0;
    while bits_read < max_len
        invariant
            bits_read <= max_len <= 31,
            bits == bits_of(br.bytes()),
            br.bytes() == old(br).bytes(),
            pos0 == old(br).pos(),
            br.pos() == pos0 + bits_read,
            bits_read > 0 ==> value as nat == fld(bits, pos0 as int, bits_read as int),
            bits_read == 0 ==> value == 0,
            bits_read > 0 ==> pos0 + bits_read <= bits.len(),
            (value as nat) < two_pow(bits_read as nat),
            bits_read as nat + 1 <= max_len as nat + 1,
            spec_huff_decode(table@, name, bits, pos0, max_len as nat) == spec_huff_from(
                table@,
                name,
                bits,
                pos0,
                bits_read as nat + 1,
                max_len as nat,
            ),
            spec_huff_stop(table@, bits, pos0, 1, max_len as nat) == spec_huff_stop(
                table@,
                bits,
                pos0,
                bits_read as nat + 1,
                max_len as nat,
            ),
        decreases max_len - bits_read,
    {
        let ghost p = br.pos();
        let bit = br.read_bits(1)?;
        proof {
            assert(bits.subrange(pos0 as int, pos0 as int) =~= Seq::<bool>::empty());
            lemma_bits_value_bound(bits.subrange(p as int, p + 1int));
            crate::bits::lemma_bits_value_extend(bits, pos0 as int, p as int);
            assert(bits.subrange(p as int, p + 1int).drop_last() =~= Seq::<bool>::empty());
            crate::bits::lemma_two_pow_mono(bits_read as nat, 30);
            crate::bits::lemma_two_pow_32();
            assert(two_pow(31) == 2 * two_pow(30));
            reveal_with_fuel(two_pow, 2);
            assert(two_pow(1) == 2);
            assert(bit <= 1);
            assert(value <= 0x3fff_ffff);
        }
        let ghost old_value = value;
        assert(((value << 1u32) | bit) == 2 * value + bit) by (bit_vector)
            requires
                value <= 0x3fff_ffff,
                bit <= 1,
        ;
        value = (value << 1u32) | bit;
        proof {
            assert(value as nat == fld(bits, pos0 as int, bits_read + 1));
        }
        bits_read = bits_read + 1;
        let mut k: usize = 0;
        while k < table.len()
            invariant
                k <= table@.len(),
                1 <= bits_read <= max_len <= 31,
                bits == bits_of(br.bytes()),
                br.bytes() == old(br).bytes(),
                pos0 == old(br).pos(),
                br.pos() == pos0 + bits_read,
                pos0 + bits_read <= bits.len(),
                pos0 + bits_read <= usize::MAX,
                value as nat == fld(bits, pos0 as int, bits_read as int),
                (value as nat) < two_pow(bits_read as nat),
                spec_huff_decode(table@, name, bits, pos0, max_len as nat) == spec_huff_from(
                    table@,
                    name,
                    bits,
                    pos0,
                    bits_read as nat,
                    max_len as nat,
                ),
                spec_huff_stop(table@, bits, pos0, 1, max_len as nat) == spec_huff_stop(
                    table@,
                    bits,
                    pos0,
                    bits_read as nat,
                    max_len as nat,
                ),
                huff_lookup_from(table@, bits_read as nat, value as nat, 0) == huff_lookup_from(
                    table@,
                    bits_read as nat,
                    value as nat,
                    k as nat,
                ),
            decreases table@.len() - k,
        {
            let (symbol, code_len, code) = table[k];
            if code_len as u32 == bits_read && value == code as u32 {
                return Ok(symbol);
            }
            k = k + 1;
        }
    }
    Err(Error::HuffmanDecodeFailed { table: name })
}


/// Reading an `n`-bit unsigned field at `pos`: `(value, end position)`.
pub open spec fn spec_read_fixed(bits: Seq<bool>, pos: nat, n: nat) -> Result<(nat, nat), Error> {
    if pos + n <= bits.len() && pos + n <= usize::MAX {
        Ok((fld(bits, pos as int, n as int), pos + n))
    } else {
        Err(Error::UnexpectedEof)
    }
}

/// `2^12`, the bound of a 12-bit field.
pub proof fn lemma_small_pow_12()
    ensures
        two_pow(12) == 4096,
{
    reveal_with_fuel(two_pow, 13);
}

/// A successfully read field is below `2^n`.
pub proof fn lemma_read_fixed_bound(bits: Seq<bool>, pos: nat, n: nat)
    ensures
        spec_read_fixed(bits, pos, n) matches Ok((v, p)) ==> v < two_pow(n) && p == pos + n,
{
    if pos + n <= bits.len() {
        lemma_bits_value_bound(bits.subrange(pos as int, (pos + n) as int));
    }
}

/// Read `n <= 32` bits with the contract stated over [`spec_read_fixed`].
fn read_fixed(br: &mut BitReader, n: usize) -> (res: Result<u32, Error>)
    requires
        n <= 32,
    ensures
        final(br).bytes() == old(br).bytes(),
        res matches Ok(v) ==> (v as nat) < two_pow(n as nat),
        match spec_read_fixed(bits_of(old(br).bytes()), old(br).pos(), n as nat) {
            Ok((v, p)) => res == Ok::<u32, Error>(v as u32) && v == res->Ok_0 && final(br).pos()
                == p,
            Err(e) => res == Err::<u32, Error>(e),
        },
        res is Err ==> final(br).pos() == old(br).pos(),
{
    let ghost bits = bits_of(br.bytes());
    let ghost p = br.pos();
    let r = br.read_bits(n);
    proof {
        if r is Ok {
            lemma_bits_value_bound(bits.subrange(p as int, p + n));
        }
    }
    r
}

// ---------------------------------------------------------------------
// ABITS code books (BHUFF selector)
// ---------------------------------------------------------------------

/// Code book for the bit-allocation index ABITS, selected by `BHUFF`.
#[derive(Debug, Clone, Copy, PartialEq, Eq)]
pub enum AbitsCodebook {
    /// `BHUFF=0` — Huffman table A12.
    A12,
    /// `BHUFF=1` — Huffman table B12.
    B12,
    /// `BHUFF=2` — Huffman table C12.
    C12,
    /// `BHUFF=3` — Huffman table D12.
    D12,
    /// `BHUFF=4` — Huffman table E12.
    E12,
    /// `BHUFF=5` — raw 4-bit index.
    Linear4Bit,
    /// `BHUFF=6` — raw 5-bit index.
    Linear5Bit,
}

/// The ABITS code book a BHUFF value selects; 7 and above are invalid.
pub open spec fn spec_abits_codebook(bhuff: u8) -> Result<AbitsCodebook, Error> {
    if bhuff == 0 {
        Ok(AbitsCodebook::A12)
    } else if bhuff == 1 {
        Ok(AbitsCodebook::B12)
    } else if bhuff == 2 {
        Ok(AbitsCodebook::C12)
    } else if bhuff == 3 {
        Ok(AbitsCodebook::D12)
    } else if bhuff == 4 {
        Ok(AbitsCodebook::E12)
    } else if bhuff == 5 {
        Ok(AbitsCodebook::Linear4Bit)
    } else if bhuff == 6 {
        Ok(AbitsCodebook::Linear5Bit)
    } else {
        Err(Error::InvalidSideInfo { field: "BHUFF", value: bhuff as u32 })
    }
}

impl AbitsCodebook {
    /// Resolve a `BHUFF` selector; `BHUFF >= 7` is rejected.
    pub fn from_bhuff(bhuff: u8) -> (r: Result<Self, Error>)
        ensures
            r == spec_abits_codebook(bhuff),
    {
        match bhuff {
            0 => Ok(Self::A12),
            1 => Ok(Self::B12),
            2 => Ok(Self::C12),
            3 => Ok(Self::D12),
            4 => Ok(Self::E12),
            5 => Ok(Self::Linear4Bit),
            6 => Ok(Self::Linear5Bit),
            _ => Err(Error::InvalidSideInfo { field: "BHUFF", value: bhuff as u32 }),
        }
    }
}

/// Table A12 (12 levels).
pub const TABLE_A12: [HuffmanEntry; 12] = [
    (1, 1, 0),
    (2, 2, 2),
    (3, 3, 6),
    (4, 4, 14),
    (5, 5, 30),
    (6, 6, 62),
    (7, 8, 255),
    (8, 8, 254),
    (9, 9, 507),
    (10, 9, 506),
    (11, 9, 505),
    (12, 9, 504),
];

/// Table B12 (12 levels).
pub const TABLE_B12: [HuffmanEntry; 12] = [
    (1, 1, 1),
    (2, 2, 0),
    (3, 3, 2),
    (4, 5, 15),
    (5, 5, 12),
    (6, 6, 29),
    (7, 7, 57),
    (8, 7, 56),
    (9, 7, 55),
    (10, 7, 54),
    (11, 7, 53),
    (12, 7, 52),
];

/// Table C12 (12 levels).
pub const TABLE_C12: [HuffmanEntry; 12] = [
    (1, 2, 0),
    (2, 3, 7),
    (3, 3, 5),
    (4, 3, 4),
    (5, 3, 2),
    (6, 4, 13),
    (7, 4, 12),
    (8, 4, 6),
    (9, 5, 15),
    (10, 6, 29),
    (11, 7, 57),
    (12, 7, 56),
];

/// Table D12 (12 levels).
pub const TABLE_D12: [HuffmanEntry; 12] = [
    (1, 2, 3),
    (2, 2, 2),
    (3, 2, 0),
    (4, 3, 2),
    (5, 4, 6),
    (6, 5, 14),
    (7, 6, 30),
    (8, 7, 62),
    (9, 8, 126),
    (10, 9, 254),
    (11, 10, 511),
    (12, 10, 510),
];

/// Table E12 (12 levels).
pub const TABLE_E12: [HuffmanEntry; 12] = [
    (1, 1, 1),
    (2, 2, 0),
    (3, 3, 2),
    (4, 4, 6),
    (5, 5, 14),
    (6, 7, 63),
    (7, 7, 61),
    (8, 8, 124),
    (9, 8, 121),
    (10, 8, 120),
    (11, 9, 251),
    (12, 9, 250),
];

/// The Huffman table and its name for a Huffman ABITS code book.
pub open spec fn abits_table(cb: AbitsCodebook) -> (Seq<HuffmanEntry>, &'static str) {
    match cb {
        AbitsCodebook::A12 => (TABLE_A12@, "A12"),
        AbitsCodebook::B12 => (TABLE_B12@, "B12"),
        AbitsCodebook::C12 => (TABLE_C12@, "C12"),
        AbitsCodebook::D12 => (TABLE_D12@, "D12"),
        _ => (TABLE_E12@, "E12"),
    }
}

/// Decoding one ABITS field at bit `pos`: `(ABITS, end position)`.
pub open spec fn spec_decode_abits(bits: Seq<bool>, pos: nat, cb: AbitsCodebook) -> Result<
    (u8, nat),
    Error,
> {
    match cb {
        AbitsCodebook::Linear4Bit => match spec_read_fixed(bits, pos, 4) {
            Ok((v, p)) => Ok((v as u8, p)),
            Err(e) => Err(e),
        },
        AbitsCodebook::Linear5Bit => match spec_read_fixed(bits, pos, 5) {
            Ok((v, p)) => Ok((v as u8, p)),
            Err(e) => Err(e),
        },
        _ => match spec_huff_decode(
            abits_table(cb).0,
            abits_table(cb).1,
            bits,
            pos,
            MAX_HUFFMAN_CODE_LEN as nat,
        ) {
            Ok((s, p)) => Ok((s as u8, p)),
            Err(e) => Err(e),
        },
    }
}

/// Where the cursor stands when decoding an ABITS field at `pos` fails:
/// a linear field that does not fit reads nothing.
pub open spec fn spec_abits_stop(bits: Seq<bool>, pos: nat, cb: AbitsCodebook) -> nat {
    match cb {
        AbitsCodebook::Linear4Bit | AbitsCodebook::Linear5Bit => pos,
        _ => spec_huff_stop(abits_table(cb).0, bits, pos, 1, MAX_HUFFMAN_CODE_LEN as nat),
    }
}

/// Decode one ABITS field from the reader.
pub fn decode_abits(br: &mut BitReader, codebook: AbitsCodebook) -> (res: Result<u8, Error>)
    ensures
        final(br).bytes() == old(br).bytes(),
        match spec_decode_abits(bits_of(old(br).bytes()), old(br).pos(), codebook) {
            Ok((v, p)) => res == Ok::<u8, Error>(v) && final(br).pos() == p,
            Err(e) => res == Err::<u8, Error>(e),
        },
        res is Ok ==> final(br).pos() > old(br).pos(),
        res is Err ==> final(br).pos() == spec_abits_stop(
            bits_of(old(br).bytes()),
            old(br).pos(),
            codebook,
        ),
{
    let r = match codebook {
        AbitsCodebook::A12 => decode_huffman_table(br, TABLE_A12.as_slice(), "A12", MAX_HUFFMAN_CODE_LEN),
        AbitsCodebook::B12 => decode_huffman_table(br, TABLE_B12.as_slice(), "B12", MAX_HUFFMAN_CODE_LEN),
        AbitsCodebook::C12 => decode_huffman_table(br, TABLE_C12.as_slice(), "C12", MAX_HUFFMAN_CODE_LEN),
        AbitsCodebook::D12 => decode_huffman_table(br, TABLE_D12.as_slice(), "D12", MAX_HUFFMAN_CODE_LEN),
        AbitsCodebook::E12 => decode_huffman_table(br, TABLE_E12.as_slice(), "E12", MAX_HUFFMAN_CODE_LEN),
        AbitsCodebook::Linear4Bit => {
            let v = read_fixed(br, 4)?;
            return Ok(v as u8);
        },
        AbitsCodebook::Linear5Bit => {
            let v = read_fixed(br, 5)?;
            return Ok(v as u8);
        },
    };
    match r {
        Ok(s) => Ok(s as u8),
        Err(e) => Err(e),
    }
}

/// Decode one ABITS field starting at bit `bit_offset` of `bytes`:
/// `(ABITS, bits consumed)`.
pub fn decode_abits_at(bytes: &[u8], bit_offset: usize, codebook: AbitsCodebook) -> (res: Result<
    (u8, usize),
    Error,
>)
    ensures
        res == match spec_decode_abits(bits_of(bytes@), bit_offset as nat, codebook) {
            Ok((v, p)) => Ok::<(u8, usize), Error>((v, (p - bit_offset) as usize)),
            Err(e) => Err(e),
        },
{
    let mut br = BitReader::at_bit(bytes, bit_offset);
    proof {
        let t = abits_table(codebook);
        lemma_huff_advances(t.0, t.1, bits_of(bytes@), bit_offset as nat, 1, 14);
    }
    let value = decode_abits(&mut br, codebook)?;
    let consumed = br.absolute_bit_position() - bit_offset;
    Ok((value, consumed))
}


// ---------------------------------------------------------------------
// TMODE code books (THUFF selector)
// ---------------------------------------------------------------------

/// Code book for the transition mode TMODE, selected by `THUFF`.
#[derive(Debug, Clone, Copy, PartialEq, Eq)]
pub enum TmodeCodebook {
    /// `THUFF=0` — table A4.
    A4,
    /// `THUFF=1` — table B4.
    B4,
    /// `THUFF=2` — table C4.
    C4,
    /// `THUFF=3` — table D4 (every code two bits long).
    D4,
}

/// The TMODE code book a THUFF value selects; 4 and above are invalid.
pub open spec fn spec_tmode_codebook(thuff: u8) -> Result<TmodeCodebook, Error> {
    if thuff == 0 {
        Ok(TmodeCodebook::A4)
    } else if thuff == 1 {
        Ok(TmodeCodebook::B4)
    } else if thuff == 2 {
        Ok(TmodeCodebook::C4)
    } else if thuff == 3 {
        Ok(TmodeCodebook::D4)
    } else {
        Err(Error::InvalidSideInfo { field: "THUFF", value: thuff as u32 })
    }
}

impl TmodeCodebook {
    /// Resolve a `THUFF` selector; values above 3 are rejected.
    pub fn from_thuff(thuff: u8) -> (r: Result<Self, Error>)
        ensures
            r == spec_tmode_codebook(thuff),
    {
        match thuff {
            0 => Ok(Self::A4),
            1 => Ok(Self::B4),
            2 => Ok(Self::C4),
            3 => Ok(Self::D4),
            _ => Err(Error::InvalidSideInfo { field: "THUFF", value: thuff as u32 }),
        }
    }
}

/// Table A4.
pub const TABLE_A4: [HuffmanEntry; 4] = [(0, 1, 0), (1, 2, 2), (2, 3, 6), (3, 3, 7)];

/// Table B4.
pub const TABLE_B4: [HuffmanEntry; 4] = [(3, 1, 0), (0, 2, 2), (1, 3, 6), (2, 3, 7)];

/// Table C4.
pub const TABLE_C4: [HuffmanEntry; 4] = [(2, 1, 0), (3, 2, 2), (0, 3, 6), (1, 3, 7)];

/// Table D4.
pub const TABLE_D4: [HuffmanEntry; 4] = [(0, 2, 0), (1, 2, 1), (2, 2, 2), (3, 2, 3)];

/// The Huffman table and its name for a TMODE code book.
pub open spec fn tmode_table(cb: TmodeCodebook) -> (Seq<HuffmanEntry>, &'static str) {
    match cb {
        TmodeCodebook::A4 => (TABLE_A4@, "A4"),
        TmodeCodebook::B4 => (TABLE_B4@, "B4"),
        TmodeCodebook::C4 => (TABLE_C4@, "C4"),
        TmodeCodebook::D4 => (TABLE_D4@, "D4"),
    }
}

/// Decoding one TMODE field at bit `pos`: `(TMODE, end position)`.
pub open spec fn spec_decode_tmode(bits: Seq<bool>, pos: nat, cb: TmodeCodebook) -> Result<
    (u8, nat),
    Error,
> {
    match spec_huff_decode(
        tmode_table(cb).0,
        tmode_table(cb).1,
        bits,
        pos,
        MAX_HUFFMAN_CODE_LEN as nat,
    ) {
        Ok((s, p)) => Ok((s as u8, p)),
        Err(e) => Err(e),
    }
}

/// Where the cursor stands when decoding a TMODE field at `pos` fails.
pub open spec fn spec_tmode_stop(bits: Seq<bool>, pos: nat, cb: TmodeCodebook) -> nat {
    spec_huff_stop(tmode_table(cb).0, bits, pos, 1, MAX_HUFFMAN_CODE_LEN as nat)
}

/// Decode one TMODE field from the reader.
pub fn decode_tmode(br: &mut BitReader, codebook: TmodeCodebook) -> (res: Result<u8, Error>)
    ensures
        final(br).bytes() == old(br).bytes(),
        match spec_decode_tmode(bits_of(old(br).bytes()), old(br).pos(), codebook) {
            Ok((v, p)) => res == Ok::<u8, Error>(v) && final(br).pos() == p,
            Err(e) => res == Err::<u8, Error>(e),
        },
        res is Ok ==> final(br).pos() > old(br).pos(),
        res is Err ==> final(br).pos() == spec_tmode_stop(
            bits_of(old(br).bytes()),
            old(br).pos(),
            codebook,
        ),
{
    let r = match codebook {
        TmodeCodebook::A4 => decode_huffman_table(br, TABLE_A4.as_slice(), "A4", MAX_HUFFMAN_CODE_LEN),
        TmodeCodebook::B4 => decode_huffman_table(br, TABLE_B4.as_slice(), "B4", MAX_HUFFMAN_CODE_LEN),
        TmodeCodebook::C4 => decode_huffman_table(br, TABLE_C4.as_slice(), "C4", MAX_HUFFMAN_CODE_LEN),
        TmodeCodebook::D4 => decode_huffman_table(br, TABLE_D4.as_slice(), "D4", MAX_HUFFMAN_CODE_LEN),
    };
    match r {
        Ok(s) => Ok(s as u8),
        Err(e) => Err(e),
    }
}

// ---------------------------------------------------------------------
// SCALES code books (SHUFF selector) and RMS tables
// ---------------------------------------------------------------------

/// Code book for the scale-factor field SCALES, selected by `SHUFF`.
#[derive(Debug, Clone, Copy, PartialEq, Eq)]
pub enum ScalesCodebook {
    /// `SHUFF=0` — differences coded with table A5; 6-bit RMS table.
    Sa129,
    /// `SHUFF=1` — differences coded with table B5; 6-bit RMS table.
    Sb129,
    /// `SHUFF=2` — differences coded with table C5; 6-bit RMS table.
    Sc129,
    /// `SHUFF=3` — differences coded with table A7; 6-bit RMS table.
    Sd129,
    /// `SHUFF=4` — differences coded with table B7; 6-bit RMS table.
    Se129,
    /// `SHUFF=5` — raw 6-bit absolute index; 6-bit RMS table.
    Linear6Bit,
    /// `SHUFF=6` — raw 7-bit absolute index; 7-bit RMS table.
    Linear7Bit,
}

/// The SCALES code book a SHUFF value selects; 7 and above are invalid.
pub open spec fn spec_scales_codebook(shuff: u8) -> Result<ScalesCodebook, Error> {
    if shuff == 0 {
        Ok(ScalesCodebook::Sa129)
    } else if shuff == 1 {
        Ok(ScalesCodebook::Sb129)
    } else if shuff == 2 {
        Ok(ScalesCodebook::Sc129)
    } else if shuff == 3 {
        Ok(ScalesCodebook::Sd129)
    } else if shuff == 4 {
        Ok(ScalesCodebook::Se129)
    } else if shuff == 5 {
        Ok(ScalesCodebook::Linear6Bit)
    } else if shuff == 6 {
        Ok(ScalesCodebook::Linear7Bit)
    } else {
        Err(Error::InvalidSideInfo { field: "SHUFF", value: shuff as u32 })
    }
}

/// Whether the code book transmits index differences (the five Huffman
/// books) rather than absolute indexes.
pub open spec fn spec_is_huffman_scales(cb: ScalesCodebook) -> bool {
    !(cb == ScalesCodebook::Linear6Bit || cb == ScalesCodebook::Linear7Bit)
}

impl ScalesCodebook {
    /// Resolve a `SHUFF` selector; `SHUFF >= 7` is rejected.
    pub fn from_shuff(shuff: u8) -> (r: Result<Self, Error>)
        ensures
            r == spec_scales_codebook(shuff),
    {
        match shuff {
            0 => Ok(Self::Sa129),
            1 => Ok(Self::Sb129),
            2 => Ok(Self::Sc129),
            3 => Ok(Self::Sd129),
            4 => Ok(Self::Se129),
            5 => Ok(Self::Linear6Bit),
            6 => Ok(Self::Linear7Bit),
            _ => Err(Error::InvalidSideInfo { field: "SHUFF", value: shuff as u32 }),
        }
    }

    /// `true` for the five difference-coding Huffman books.
    pub fn is_huffman_encoded(self) -> (b: bool)
        ensures
            b == spec_is_huffman_scales(self),
    {
        matches!(self, Self::Sa129 | Self::Sb129 | Self::Sc129 | Self::Sd129 | Self::Se129)
    }

    /// `true` only for `Linear7Bit`, the one book resolved through the
    /// 7-bit RMS table.
    pub fn uses_7bit_rms_table(self) -> (b: bool)
        ensures
            b == (self == ScalesCodebook::Linear7Bit),
    {
        matches!(self, Self::Linear7Bit)
    }
}

/// Table A5 (5 levels).
pub const TABLE_A5: [HuffmanEntry; 5] = [(0, 1, 0), (1, 2, 2), (-1, 3, 6), (2, 4, 14), (-2, 4, 15)];

/// Table B5 (5 levels).
pub const TABLE_B5: [HuffmanEntry; 5] = [(0, 2, 2), (1, 2, 0), (-1, 2, 1), (2, 3, 6), (-2, 3, 7)];

/// Table C5 (5 levels).
pub const TABLE_C5: [HuffmanEntry; 5] = [(0, 1, 0), (1, 3, 4), (-1, 3, 5), (2, 3, 6), (-2, 3, 7)];

/// Table A7 (7 levels).
pub const TABLE_A7: [HuffmanEntry; 7] = [
    (0, 1, 0),
    (1, 3, 6),
    (-1, 3, 5),
    (2, 3, 4),
    (-2, 4, 14),
    (3, 5, 31),
    (-3, 5, 30),
];

/// Table B7 (7 levels).
pub const TABLE_B7: [HuffmanEntry; 7] = [
    (0, 2, 3),
    (1, 2, 1),
    (-1, 2, 0),
    (2, 3, 4),
    (-2, 4, 11),
    (3, 5, 21),
    (-3, 5, 20),
];

/// 6-bit scale-factor RMS table (index 63 is reserved).
pub const RMS_6BIT: [u32; 64] = [
    1, 2, 2, 3, 3, 4, 6, 7, 10, 12, 16, 20, 26, 34, 44, 56, 72, 93, 120, 155, 200, 257, 331, 427,
    550, 708, 912, 1175, 1514, 1950, 2512, 3236, 4169, 5370, 6918, 8913, 11482, 14791, 19055,
    24547, 31623, 40738, 52481, 67608, 87096, 112202, 144544, 186209, 239883, 309030, 398107,
    512861, 660693, 851138, 1096478, 1412538, 1819701, 2344229, 3019952, 3890451, 5011872, 6456542,
    8317638, 0,
];

/// 7-bit scale-factor RMS table (indexes 125..=127 are reserved).
pub const RMS_7BIT: [u32; 128] = [
    1, 1, 2, 2, 2, 2, 3, 3, 3, 4, 4, 5, 6, 7, 7, 8, 10, 11, 12, 14, 16, 18, 20, 23, 26, 30, 34, 38,
    44, 50, 56, 64, 72, 82, 93, 106, 120, 136, 155, 176, 200, 226, 257, 292, 331, 376, 427, 484,
    550, 624, 708, 804, 912, 1035, 1175, 1334, 1514, 1718, 1950, 2213, 2512, 2851, 3236, 3673,
    4169, 4732, 5370, 6095, 6918, 7852, 8913, 10116, 11482, 13032, 14791, 16788, 19055, 21627,
    24547, 27861, 31623, 35892, 40738, 46238, 52481, 59566, 67608, 76736, 87096, 98855, 112202,
    127350, 144544, 164059, 186209, 211349, 239883, 272270, 309030, 350752, 398107, 451856, 512861,
    582103, 660693, 749894, 851138, 966051, 1096478, 1244515, 1412538, 1603245, 1819701, 2065380,
    2344229, 2660725, 3019952, 3427678, 3890451, 4415704, 5011872, 5688529, 6456542, 7328245,
    8317638, 0, 0, 0,
];

/// The Huffman table and its name for a difference-coding SCALES book.
pub open spec fn scales_table(cb: ScalesCodebook) -> (Seq<HuffmanEntry>, &'static str) {
    match cb {
        ScalesCodebook::Sa129 => (TABLE_A5@, "A5"),
        ScalesCodebook::Sb129 => (TABLE_B5@, "B5"),
        ScalesCodebook::Sc129 => (TABLE_C5@, "C5"),
        ScalesCodebook::Sd129 => (TABLE_A7@, "A7"),
        _ => (TABLE_B7@, "B7"),
    }
}

/// The transmitted SCALES symbol at `pos`: a signed difference for the
/// Huffman books, an absolute index for the linear ones.
pub open spec fn spec_scales_symbol(bits: Seq<bool>, pos: nat, cb: ScalesCodebook) -> Result<
    (int, nat),
    Error,
> {
    if spec_is_huffman_scales(cb) {
        match spec_huff_decode(
            scales_table(cb).0,
            scales_table(cb).1,
            bits,
            pos,
            MAX_HUFFMAN_CODE_LEN as nat,
        ) {
            Ok((s, p)) => Ok((s as int, p)),
            Err(e) => Err(e),
        }
    } else {
        match spec_read_fixed(
            bits,
            pos,
            if cb == ScalesCodebook::Linear7Bit {
                7
            } else {
                6
            },
        ) {
            Ok((v, p)) => Ok((v as int, p)),
            Err(e) => Err(e),
        }
    }
}

/// The running scale index after one SCALES symbol.
pub open spec fn spec_next_scale_sum(cb: ScalesCodebook, sum: int, symbol: int) -> int {
    if spec_is_huffman_scales(cb) {
        sum + symbol
    } else {
        symbol
    }
}

/// Resolving a scale index through the code book's RMS table: the table
/// value, or `InvalidSideInfo { field: "SCALES" }` for an index outside
/// the table or on a reserved entry.
pub open spec fn spec_scale_lookup(cb: ScalesCodebook, idx: int) -> Result<u32, Error> {
    let seven = cb == ScalesCodebook::Linear7Bit;
    let len: int = if seven {
        128
    } else {
        64
    };
    if !(0 <= idx < len) {
        Err(Error::InvalidSideInfo { field: "SCALES", value: (idx as i32) as u32 })
    } else if (!seven && idx == 63) || (seven && idx >= 125) {
        Err(Error::InvalidSideInfo { field: "SCALES", value: idx as u32 })
    } else if seven {
        Ok(RMS_7BIT@[idx])
    } else {
        Ok(RMS_6BIT@[idx])
    }
}

/// Decoding one SCALES field at `pos` with running index `sum`:
/// `(scale factor, new running index, end position)`.
pub open spec fn spec_decode_scales(bits: Seq<bool>, pos: nat, cb: ScalesCodebook, sum: int) -> Result<
    (u32, int, nat),
    Error,
> {
    match spec_scales_symbol(bits, pos, cb) {
        Err(e) => Err(e),
        Ok((symbol, p)) => {
            let new_sum = spec_next_scale_sum(cb, sum, symbol);
            match spec_scale_lookup(cb, new_sum) {
                Ok(v) => Ok((v, new_sum, p)),
                Err(e) => Err(e),
            }
        },
    }
}

/// Whether a running scale index can take one more difference without
/// leaving the `i32` range.
pub open spec fn scale_sum_in_range(cb: ScalesCodebook, sum: int) -> bool {
    spec_is_huffman_scales(cb) ==> i32::MIN + 3 <= sum <= i32::MAX - 3
}

proof fn lemma_scales_symbol_range(bits: Seq<bool>, pos: nat, cb: ScalesCodebook)
    ensures
        spec_scales_symbol(bits, pos, cb) matches Ok((s, p)) ==> (spec_is_huffman_scales(cb)
            ==> -3 <= s <= 3) && (!spec_is_huffman_scales(cb) ==> 0 <= s < 128) && pos < p,
{
    let t = scales_table(cb);
    lemma_huff_advances(t.0, t.1, bits, pos, 1, 14);
    lemma_huff_symbol_in_table(t.0, t.1, bits, pos, 1, 14);
    if !spec_is_huffman_scales(cb) {
        let n: nat = if cb == ScalesCodebook::Linear7Bit {
            7
        } else {
            6
        };
        if pos + n <= bits.len() {
            lemma_bits_value_bound(bits.subrange(pos as int, (pos + n) as int));
            reveal_with_fuel(two_pow, 8);
        }
    }
}

/// A decoded symbol is one of the table's symbols.
pub proof fn lemma_huff_symbol_in_table(
    t: Seq<HuffmanEntry>,
    name: &'static str,
    bits: Seq<bool>,
    pos: nat,
    l: nat,
    max_len: nat,
)
    ensures
        spec_huff_from(t, name, bits, pos, l, max_len) matches Ok((s, _)) ==> exists|k: int|
            0 <= k < t.len() && #[trigger] t[k].0 == s,
    decreases max_len + 1 - l,
{
    if !(l > max_len || l == 0) && pos + l <= bits.len() && pos + l <= usize::MAX {
        let v = fld(bits, pos as int, l as int);
        lemma_lookup_in_range(t, l, v, 0);
        if huff_lookup_from(t, l, v, 0) is None {
            lemma_huff_symbol_in_table(t, name, bits, pos, l + 1, max_len);
        }
    }
}

proof fn lemma_lookup_in_range(t: Seq<HuffmanEntry>, len: nat, v: nat, k: nat)
    ensures
        huff_lookup_from(t, len, v, k) matches Some(i) ==> k <= i < t.len(),
    decreases t.len() - k,
{
    if k < t.len() && !(t[k as int].1 == len && t[k as int].2 == v) {
        lemma_lookup_in_range(t, len, v, k + 1);
    }
}

/// Where the cursor stands when decoding a SCALES field at `pos` fails:
/// after the symbol when the symbol was read and its index was refused,
/// else where reading the symbol stopped (a linear field that does not
/// fit reads nothing).
pub open spec fn spec_scales_stop(bits: Seq<bool>, pos: nat, cb: ScalesCodebook) -> nat {
    match spec_scales_symbol(bits, pos, cb) {
        Ok((_, p)) => p,
        Err(_) => if spec_is_huffman_scales(cb) {
            spec_huff_stop(scales_table(cb).0, bits, pos, 1, MAX_HUFFMAN_CODE_LEN as nat)
        } else {
            pos
        },
    }
}

/// Decode one SCALES field from the reader given the running index
/// `n_scale_sum`: `(scale factor, updated running index)`.
pub fn decode_scales(br: &mut BitReader, codebook: ScalesCodebook, n_scale_sum: i32) -> (res:
    Result<(u32, i32), Error>)
    requires
        scale_sum_in_range(codebook, n_scale_sum as int),
    ensures
        final(br).bytes() == old(br).bytes(),
        match spec_decode_scales(
            bits_of(old(br).bytes()),
            old(br).pos(),
            codebook,
            n_scale_sum as int,
        ) {
            Ok((v, sum, p)) => res == Ok::<(u32, i32), Error>((v, sum as i32)) && sum == res->Ok_0.1
                && final(br).pos() == p,
            Err(e) => res == Err::<(u32, i32), Error>(e),
        },
        res is Ok ==> final(br).pos() > old(br).pos(),
        res is Err ==> final(br).pos() == spec_scales_stop(
            bits_of(old(br).bytes()),
            old(br).pos(),
            codebook,
        ),
{
    proof {
        lemma_scales_symbol_range(bits_of(br.bytes()), br.pos(), codebook);
        let t = scales_table(codebook);
        assert forall|k: int| 0 <= k < t.0.len() implies -3 <= #[trigger] t.0[k].0 <= 3 by {}
    }
    let symbol: i32 = if codebook.is_huffman_encoded() {
        let r = match codebook {
            ScalesCodebook::Sa129 => decode_huffman_table(br, TABLE_A5.as_slice(), "A5", MAX_HUFFMAN_CODE_LEN),
            ScalesCodebook::Sb129 => decode_huffman_table(br, TABLE_B5.as_slice(), "B5", MAX_HUFFMAN_CODE_LEN),
            ScalesCodebook::Sc129 => decode_huffman_table(br, TABLE_C5.as_slice(), "C5", MAX_HUFFMAN_CODE_LEN),
            ScalesCodebook::Sd129 => decode_huffman_table(br, TABLE_A7.as_slice(), "A7", MAX_HUFFMAN_CODE_LEN),
            _ => decode_huffman_table(br, TABLE_B7.as_slice(), "B7", MAX_HUFFMAN_CODE_LEN),
        };
        match r {
            Ok(s) => s as i32,
            Err(e) => {
                return Err(e);
            },
        }
    } else {
        let n_bits: usize = if codebook.uses_7bit_rms_table() {
            7
        } else {
            6
        };
        let v = read_fixed(br, n_bits)?;
        proof {
            reveal_with_fuel(two_pow, 8);
        }
        v as i32
    };
    let new_scale_sum: i32 = if codebook.is_huffman_encoded() {
        n_scale_sum + symbol
    } else {
        symbol
    };
    let seven = codebook.uses_7bit_rms_table();
    let len_signed: i32 = if seven {
        128
    } else {
        64
    };
    if !(0 <= new_scale_sum && new_scale_sum < len_signed) {
        return Err(Error::InvalidSideInfo { field: "SCALES", value: new_scale_sum as u32 });
    }
    let idx = new_scale_sum as usize;
    if (!seven && idx == 63) || (seven && idx >= 125) {
        return Err(Error::InvalidSideInfo { field: "SCALES", value: idx as u32 });
    }
    let value = if seven {
        RMS_7BIT[idx]
    } else {
        RMS_6BIT[idx]
    };
    Ok((value, new_scale_sum))
}

/// Decode one SCALES field starting at bit `bit_offset` of `bytes`:
/// `(scale factor, updated running index, bits consumed)`.
pub fn decode_scales_at(
    bytes: &[u8],
    bit_offset: usize,
    codebook: ScalesCodebook,
    n_scale_sum: i32,
) -> (res: Result<(u32, i32, usize), Error>)
    requires
        scale_sum_in_range(codebook, n_scale_sum as int),
    ensures
        res == match spec_decode_scales(
            bits_of(bytes@),
            bit_offset as nat,
            codebook,
            n_scale_sum as int,
        ) {
            Ok((v, sum, p)) => Ok::<(u32, i32, usize), Error>(
                (v, sum as i32, (p - bit_offset) as usize),
            ),
            Err(e) => Err(e),
        },
{
    let mut br = BitReader::at_bit(bytes, bit_offset);
    proof {
        lemma_scales_symbol_range(bits_of(bytes@), bit_offset as nat, codebook);
    }
    let (scale, new_sum) = decode_scales(&mut br, codebook, n_scale_sum)?;
    let consumed = br.absolute_bit_position() - bit_offset;
    Ok((scale, new_sum, consumed))
}

// ---------------------------------------------------------------------
// SSC / PSC prefix
// ---------------------------------------------------------------------

/// The 2-bit `SSC` and 3-bit `PSC` fields that open every subframe's side
/// information.
#[derive(Debug, Clone, Copy, PartialEq, Eq)]
pub struct SubsubframeCount {
    /// Raw `SSC` (the subframe holds `SSC + 1` subsubframes).
    pub ssc: u8,
    /// Raw `PSC` (partial subsubframe sample count).
    pub psc: u8,
}

impl SubsubframeCount {
    /// Width of the `SSC` + `PSC` prefix in bits.
    pub const WIRE_BITS: u32 = 5;

    /// Wrap raw `SSC` / `PSC` values.
    pub fn new(ssc: u8, psc: u8) -> (r: Self)
        ensures
            r.ssc == ssc,
            r.psc == psc,
    {
        SubsubframeCount { ssc, psc }
    }

    /// Number of subsubframes, `SSC + 1`.
    pub fn n_ssc(&self) -> (n: u16)
        ensures
            n == self.ssc + 1,
    {
        self.ssc as u16 + 1
    }
}


// ---------------------------------------------------------------------
// Reading the same bits at another offset
// ---------------------------------------------------------------------

/// Whether `b` holds the bits of `a` from bit `k` on (and its length is
/// addressable).
pub open spec fn shifted(a: Seq<bool>, b: Seq<bool>, k: nat) -> bool {
    &&& b.len() >= a.len() + k
    &&& b.len() <= usize::MAX
    &&& forall|j: int| 0 <= j < a.len() ==> #[trigger] b[j + k] == a[j]
}

/// A field read from `a` reads the same from `b`, `k` bits later.
pub proof fn lemma_read_fixed_shift(a: Seq<bool>, b: Seq<bool>, k: nat, p: nat, n: nat)
    requires
        shifted(a, b, k),
    ensures
        spec_read_fixed(a, p, n) matches Ok((v, p2)) ==> spec_read_fixed(b, p + k, n) == Ok::<
            (nat, nat),
            Error,
        >((v, p2 + k)),
{
    if spec_read_fixed(a, p, n) is Ok {
        let q: int = (p + k) as int;
        let e: int = (p + n) as int;
        assert(b.subrange(q, q + n) =~= a.subrange(p as int, e)) by {
            assert forall|j: int| 0 <= j < n implies b.subrange(q, q + n)[j] == a.subrange(
                p as int,
                e,
            )[j] by {
                assert(b[(p + j) + k] == a[p + j]);
            }
        }
    }
}

/// A Huffman decode from `a` decodes the same from `b`, `k` bits later.
pub proof fn lemma_huff_shift(
    t: Seq<HuffmanEntry>,
    name: &'static str,
    a: Seq<bool>,
    b: Seq<bool>,
    k: nat,
    p: nat,
    l: nat,
    max_len: nat,
)
    requires
        shifted(a, b, k),
    ensures
        spec_huff_from(t, name, a, p, l, max_len) matches Ok((v, p2)) ==> spec_huff_from(
            t,
            name,
            b,
            p + k,
            l,
            max_len,
        ) == Ok::<(i16, nat), Error>((v, p2 + k)),
    decreases max_len + 1 - l,
{
    if !(l > max_len || l == 0) && p + l <= a.len() && p + l <= usize::MAX {
        lemma_read_fixed_shift(a, b, k, p, l);
        assert(fld(a, p as int, l as int) == fld(b, (p + k) as int, l as int));
        lemma_huff_shift(t, name, a, b, k, p, l + 1, max_len);
    }
}

/// The ABITS, TMODE and SCALES decoders read the same from `b`, `k` bits
/// later.
pub proof fn lemma_side_fields_shift(a: Seq<bool>, b: Seq<bool>, k: nat, p: nat, sum: int)
    requires
        shifted(a, b, k),
    ensures
        forall|cb: AbitsCodebook| #[trigger] spec_decode_abits(a, p, cb) is Ok
            ==> spec_decode_abits(b, p + k, cb) == Ok::<(u8, nat), Error>(
            (spec_decode_abits(a, p, cb)->Ok_0.0, spec_decode_abits(a, p, cb)->Ok_0.1 + k),
        ),
        forall|cb: TmodeCodebook| #[trigger] spec_decode_tmode(a, p, cb) is Ok
            ==> spec_decode_tmode(b, p + k, cb) == Ok::<(u8, nat), Error>(
            (spec_decode_tmode(a, p, cb)->Ok_0.0, spec_decode_tmode(a, p, cb)->Ok_0.1 + k),
        ),
        forall|cb: ScalesCodebook| #[trigger] spec_decode_scales(a, p, cb, sum) is Ok
            ==> spec_decode_scales(b, p + k, cb, sum) == Ok::<(u32, int, nat), Error>(
            (
                spec_decode_scales(a, p, cb, sum)->Ok_0.0,
                spec_decode_scales(a, p, cb, sum)->Ok_0.1,
                spec_decode_scales(a, p, cb, sum)->Ok_0.2 + k,
            ),
        ),
{
    lemma_read_fixed_shift(a, b, k, p, 4);
    lemma_read_fixed_shift(a, b, k, p, 5);
    lemma_read_fixed_shift(a, b, k, p, 6);
    lemma_read_fixed_shift(a, b, k, p, 7);
    assert forall|cb: AbitsCodebook| #[trigger] spec_decode_abits(a, p, cb) is Ok implies spec_decode_abits(
        b,
        p + k,
        cb,
    ) == Ok::<(u8, nat), Error>(
        (spec_decode_abits(a, p, cb)->Ok_0.0, spec_decode_abits(a, p, cb)->Ok_0.1 + k),
    ) by {
        let t = abits_table(cb);
        lemma_huff_shift(t.0, t.1, a, b, k, p, 1, MAX_HUFFMAN_CODE_LEN as nat);
    }
    assert forall|cb: TmodeCodebook| #[trigger] spec_decode_tmode(a, p, cb) is Ok implies spec_decode_tmode(
        b,
        p + k,
        cb,
    ) == Ok::<(u8, nat), Error>(
        (spec_decode_tmode(a, p, cb)->Ok_0.0, spec_decode_tmode(a, p, cb)->Ok_0.1 + k),
    ) by {
        let t = tmode_table(cb);
        lemma_huff_shift(t.0, t.1, a, b, k, p, 1, MAX_HUFFMAN_CODE_LEN as nat);
    }
    assert forall|cb: ScalesCodebook| #[trigger] spec_decode_scales(a, p, cb, sum) is Ok implies spec_decode_scales(
        b,
        p + k,
        cb,
        sum,
    ) == Ok::<(u32, int, nat), Error>(
        (
            spec_decode_scales(a, p, cb, sum)->Ok_0.0,
            spec_decode_scales(a, p, cb, sum)->Ok_0.1,
            spec_decode_scales(a, p, cb, sum)->Ok_0.2 + k,
        ),
    ) by {
        let t = scales_table(cb);
        lemma_huff_shift(t.0, t.1, a, b, k, p, 1, MAX_HUFFMAN_CODE_LEN as nat);
    }
}


/// Every stream that starts with the `len`-bit code `code` decodes, as
/// an ABITS field with book `cb`, to `value`, ending `len` bits on.
pub open spec fn abits_code_decodes(cb: AbitsCodebook, code: nat, len: nat, value: u8) -> bool {
    forall|bits: Seq<bool>, pos: nat|
        pos + len <= bits.len() && pos + len <= usize::MAX && fld(bits, pos as int, len as int)
            == code ==> #[trigger] spec_decode_abits(bits, pos, cb) == Ok::<(u8, nat), Error>((value, pos + len))
}

proof fn lemma_abits_code(cb: AbitsCodebook, code: nat, len: nat, symbol: i16)
    requires
        cb != AbitsCodebook::Linear4Bit && cb != AbitsCodebook::Linear5Bit,
        1 <= len <= MAX_HUFFMAN_CODE_LEN,
        no_shorter_code(abits_table(cb).0, code, len),
        huff_code_is(abits_table(cb).0, code, len, symbol),
    ensures
        abits_code_decodes(cb, code, len, symbol as u8),
{
    assert forall|bits: Seq<bool>, pos: nat|
        pos + len <= bits.len() && pos + len <= usize::MAX && fld(bits, pos as int, len as int)
            == code implies #[trigger] spec_decode_abits(bits, pos, cb) == Ok::<(u8, nat), Error>(
        (symbol as u8, pos + len),
    ) by {
        lemma_huff_code_decodes(
            abits_table(cb).0,
            abits_table(cb).1,
            bits,
            pos,
            code,
            len,
            symbol,
            MAX_HUFFMAN_CODE_LEN as nat,
        );
    }
}

/// BHUFF 0 (table A12), code by code: 0 -> 1, 10 -> 2, 110 -> 3, 1110 -> 4, 11110 -> 5, 111110 ->
/// 6, 11111111 -> 7, 11111110 -> 8, 111111011 -> 9, 111111010 -> 10, 111111001 -> 11, 111111000 ->
/// 12.
pub proof fn lemma_abits_a12_codes()
    ensures
        abits_code_decodes(AbitsCodebook::A12, 0b0, 1, 1u8),
        abits_code_decodes(AbitsCodebook::A12, 0b10, 2, 2u8),
        abits_code_decodes(AbitsCodebook::A12, 0b110, 3, 3u8),
        abits_code_decodes(AbitsCodebook::A12, 0b1110, 4, 4u8),
        abits_code_decodes(AbitsCodebook::A12, 0b11110, 5, 5u8),
        abits_code_decodes(AbitsCodebook::A12, 0b111110, 6, 6u8),
        abits_code_decodes(AbitsCodebook::A12, 0b11111111, 8, 7u8),
        abits_code_decodes(AbitsCodebook::A12, 0b11111110, 8, 8u8),
        abits_code_decodes(AbitsCodebook::A12, 0b111111011, 9, 9u8),
        abits_code_decodes(AbitsCodebook::A12, 0b111111010, 9, 10u8),
        abits_code_decodes(AbitsCodebook::A12, 0b111111001, 9, 11u8),
        abits_code_decodes(AbitsCodebook::A12, 0b111111000, 9, 12u8),
{
    reveal_with_fuel(huff_lookup_from, 13);
    reveal_with_fuel(no_shorter_code, 10);
    lemma_abits_code(AbitsCodebook::A12, 0b0, 1, 1i16);
    lemma_abits_code(AbitsCodebook::A12, 0b10, 2, 2i16);
    lemma_abits_code(AbitsCodebook::A12, 0b110, 3, 3i16);
    lemma_abits_code(AbitsCodebook::A12, 0b1110, 4, 4i16);
    lemma_abits_code(AbitsCodebook::A12, 0b11110, 5, 5i16);
    lemma_abits_code(AbitsCodebook::A12, 0b111110, 6, 6i16);
    lemma_abits_code(AbitsCodebook::A12, 0b11111111, 8, 7i16);
    lemma_abits_code(AbitsCodebook::A12, 0b11111110, 8, 8i16);
    lemma_abits_code(AbitsCodebook::A12, 0b111111011, 9, 9i16);
    lemma_abits_code(AbitsCodebook::A12, 0b111111010, 9, 10i16);
    lemma_abits_code(AbitsCodebook::A12, 0b111111001, 9, 11i16);
    lemma_abits_code(AbitsCodebook::A12, 0b111111000, 9, 12i16);
}

/// BHUFF 1 (table B12), code by code: 1 -> 1, 00 -> 2, 010 -> 3, 01111 -> 4, 01100 -> 5, 011101 ->
/// 6, 0111001 -> 7, 0111000 -> 8, 0110111 -> 9, 0110110 -> 10, 0110101 -> 11, 0110100 -> 12.
pub proof fn lemma_abits_b12_codes()
    ensures
        abits_code_decodes(AbitsCodebook::B12, 0b1, 1, 1u8),
        abits_code_decodes(AbitsCodebook::B12, 0b00, 2, 2u8),
        abits_code_decodes(AbitsCodebook::B12, 0b010, 3, 3u8),
        abits_code_decodes(AbitsCodebook::B12, 0b01111, 5, 4u8),
        abits_code_decodes(AbitsCodebook::B12, 0b01100, 5, 5u8),
        abits_code_decodes(AbitsCodebook::B12, 0b011101, 6, 6u8),
        abits_code_decodes(AbitsCodebook::B12, 0b0111001, 7, 7u8),
        abits_code_decodes(AbitsCodebook::B12, 0b0111000, 7, 8u8),
        abits_code_decodes(AbitsCodebook::B12, 0b0110111, 7, 9u8),
        abits_code_decodes(AbitsCodebook::B12, 0b0110110, 7, 10u8),
        abits_code_decodes(AbitsCodebook::B12, 0b0110101, 7, 11u8),
        abits_code_decodes(AbitsCodebook::B12, 0b0110100, 7, 12u8),
{
    reveal_with_fuel(huff_lookup_from, 13);
    reveal_with_fuel(no_shorter_code, 8);
    lemma_abits_code(AbitsCodebook::B12, 0b1, 1, 1i16);
    lemma_abits_code(AbitsCodebook::B12, 0b00, 2, 2i16);
    lemma_abits_code(AbitsCodebook::B12, 0b010, 3, 3i16);
    lemma_abits_code(AbitsCodebook::B12, 0b01111, 5, 4i16);
    lemma_abits_code(AbitsCodebook::B12, 0b01100, 5, 5i16);
    lemma_abits_code(AbitsCodebook::B12, 0b011101, 6, 6i16);
    lemma_abits_code(AbitsCodebook::B12, 0b0111001, 7, 7i16);
    lemma_abits_code(AbitsCodebook::B12, 0b0111000, 7, 8i16);
    lemma_abits_code(AbitsCodebook::B12, 0b0110111, 7, 9i16);
    lemma_abits_code(AbitsCodebook::B12, 0b0110110, 7, 10i16);
    lemma_abits_code(AbitsCodebook::B12, 0b0110101, 7, 11i16);
    lemma_abits_code(AbitsCodebook::B12, 0b0110100, 7, 12i16);
}

/// BHUFF 2 (table C12), code by code: 00 -> 1, 111 -> 2, 101 -> 3, 100 -> 4, 010 -> 5, 1101 -> 6,
/// 1100 -> 7, 0110 -> 8, 01111 -> 9, 011101 -> 10, 0111001 -> 11, 0111000 -> 12.
pub proof fn lemma_abits_c12_codes()
    ensures
        abits_code_decodes(AbitsCodebook::C12, 0b00, 2, 1u8),
        abits_code_decodes(AbitsCodebook::C12, 0b111, 3, 2u8),
        abits_code_decodes(AbitsCodebook::C12, 0b101, 3, 3u8),
        abits_code_decodes(AbitsCodebook::C12, 0b100, 3, 4u8),
        abits_code_decodes(AbitsCodebook::C12, 0b010, 3, 5u8),
        abits_code_decodes(AbitsCodebook::C12, 0b1101, 4, 6u8),
        abits_code_decodes(AbitsCodebook::C12, 0b1100, 4, 7u8),
        abits_code_decodes(AbitsCodebook::C12, 0b0110, 4, 8u8),
        abits_code_decodes(AbitsCodebook::C12, 0b01111, 5, 9u8),
        abits_code_decodes(AbitsCodebook::C12, 0b011101, 6, 10u8),
        abits_code_decodes(AbitsCodebook::C12, 0b0111001, 7, 11u8),
        abits_code_decodes(AbitsCodebook::C12, 0b0111000, 7, 12u8),
{
    reveal_with_fuel(huff_lookup_from, 13);
    reveal_with_fuel(no_shorter_code, 8);
    lemma_abits_code(AbitsCodebook::C12, 0b00, 2, 1i16);
    lemma_abits_code(AbitsCodebook::C12, 0b111, 3, 2i16);
    lemma_abits_code(AbitsCodebook::C12, 0b101, 3, 3i16);
    lemma_abits_code(AbitsCodebook::C12, 0b100, 3, 4i16);
    lemma_abits_code(AbitsCodebook::C12, 0b010, 3, 5i16);
    lemma_abits_code(AbitsCodebook::C12, 0b1101, 4, 6i16);
    lemma_abits_code(AbitsCodebook::C12, 0b1100, 4, 7i16);
    lemma_abits_code(AbitsCodebook::C12, 0b0110, 4, 8i16);
    lemma_abits_code(AbitsCodebook::C12, 0b01111, 5, 9i16);
    lemma_abits_code(AbitsCodebook::C12, 0b011101, 6, 10i16);
    lemma_abits_code(AbitsCodebook::C12, 0b0111001, 7, 11i16);
    lemma_abits_code(AbitsCodebook::C12, 0b0111000, 7, 12i16);
}

/// BHUFF 3 (table D12), code by code: 11 -> 1, 10 -> 2, 00 -> 3, 010 -> 4, 0110 -> 5, 01110 -> 6,
/// 011110 -> 7, 0111110 -> 8, 01111110 -> 9, 011111110 -> 10, 0111111111 -> 11, 0111111110 -> 12.
pub proof fn lemma_abits_d12_codes()
    ensures
        abits_code_decodes(AbitsCodebook::D12, 0b11, 2, 1u8),
        abits_code_decodes(AbitsCodebook::D12, 0b10, 2, 2u8),
        abits_code_decodes(AbitsCodebook::D12, 0b00, 2, 3u8),
        abits_code_decodes(AbitsCodebook::D12, 0b010, 3, 4u8),
        abits_code_decodes(AbitsCodebook::D12, 0b0110, 4, 5u8),
        abits_code_decodes(AbitsCodebook::D12, 0b01110, 5, 6u8),
        abits_code_decodes(AbitsCodebook::D12, 0b011110, 6, 7u8),
        abits_code_decodes(AbitsCodebook::D12, 0b0111110, 7, 8u8),
        abits_code_decodes(AbitsCodebook::D12, 0b01111110, 8, 9u8),
        abits_code_decodes(AbitsCodebook::D12, 0b011111110, 9, 10u8),
        abits_code_decodes(AbitsCodebook::D12, 0b0111111111, 10, 11u8),
        abits_code_decodes(AbitsCodebook::D12, 0b0111111110, 10, 12u8),
{
    reveal_with_fuel(huff_lookup_from, 13);
    reveal_with_fuel(no_shorter_code, 11);
    lemma_abits_code(AbitsCodebook::D12, 0b11, 2, 1i16);
    lemma_abits_code(AbitsCodebook::D12, 0b10, 2, 2i16);
    lemma_abits_code(AbitsCodebook::D12, 0b00, 2, 3i16);
    lemma_abits_code(AbitsCodebook::D12, 0b010, 3, 4i16);
    lemma_abits_code(AbitsCodebook::D12, 0b0110, 4, 5i16);
    lemma_abits_code(AbitsCodebook::D12, 0b01110, 5, 6i16);
    lemma_abits_code(AbitsCodebook::D12, 0b011110, 6, 7i16);
    lemma_abits_code(AbitsCodebook::D12, 0b0111110, 7, 8i16);
    lemma_abits_code(AbitsCodebook::D12, 0b01111110, 8, 9i16);
    lemma_abits_code(AbitsCodebook::D12, 0b011111110, 9, 10i16);
    lemma_abits_code(AbitsCodebook::D12, 0b0111111111, 10, 11i16);
    lemma_abits_code(AbitsCodebook::D12, 0b0111111110, 10, 12i16);
}

/// BHUFF 4 (table E12), code by code: 1 -> 1, 00 -> 2, 010 -> 3, 0110 -> 4, 01110 -> 5, 0111111 ->
/// 6, 0111101 -> 7, 01111100 -> 8, 01111001 -> 9, 01111000 -> 10, 011111011 -> 11, 011111010 ->
/// 12.
pub proof fn lemma_abits_e12_codes()
    ensures
        abits_code_decodes(AbitsCodebook::E12, 0b1, 1, 1u8),
        abits_code_decodes(AbitsCodebook::E12, 0b00, 2, 2u8),
        abits_code_decodes(AbitsCodebook::E12, 0b010, 3, 3u8),
        abits_code_decodes(AbitsCodebook::E12, 0b0110, 4, 4u8),
        abits_code_decodes(AbitsCodebook::E12, 0b01110, 5, 5u8),
        abits_code_decodes(AbitsCodebook::E12, 0b0111111, 7, 6u8),
        abits_code_decodes(AbitsCodebook::E12, 0b0111101, 7, 7u8),
        abits_code_decodes(AbitsCodebook::E12, 0b01111100, 8, 8u8),
        abits_code_decodes(AbitsCodebook::E12, 0b01111001, 8, 9u8),
        abits_code_decodes(AbitsCodebook::E12, 0b01111000, 8, 10u8),
        abits_code_decodes(AbitsCodebook::E12, 0b011111011, 9, 11u8),
        abits_code_decodes(AbitsCodebook::E12, 0b011111010, 9, 12u8),
{
    reveal_with_fuel(huff_lookup_from, 13);
    reveal_with_fuel(no_shorter_code, 10);
    lemma_abits_code(AbitsCodebook::E12, 0b1, 1, 1i16);
    lemma_abits_code(AbitsCodebook::E12, 0b00, 2, 2i16);
    lemma_abits_code(AbitsCodebook::E12, 0b010, 3, 3i16);
    lemma_abits_code(AbitsCodebook::E12, 0b0110, 4, 4i16);
    lemma_abits_code(AbitsCodebook::E12, 0b01110, 5, 5i16);
    lemma_abits_code(AbitsCodebook::E12, 0b0111111, 7, 6i16);
    lemma_abits_code(AbitsCodebook::E12, 0b0111101, 7, 7i16);
    lemma_abits_code(AbitsCodebook::E12, 0b01111100, 8, 8i16);
    lemma_abits_code(AbitsCodebook::E12, 0b01111001, 8, 9i16);
    lemma_abits_code(AbitsCodebook::E12, 0b01111000, 8, 10i16);
    lemma_abits_code(AbitsCodebook::E12, 0b011111011, 9, 11i16);
    lemma_abits_code(AbitsCodebook::E12, 0b011111010, 9, 12i16);
}

/// Every stream that starts with the `len`-bit code `code` decodes, as
/// a TMODE field with book `cb`, to `value`, ending `len` bits on.
pub open spec fn tmode_code_decodes(cb: TmodeCodebook, code: nat, len: nat, value: u8) -> bool {
    forall|bits: Seq<bool>, pos: nat|
        pos + len <= bits.len() && pos + len <= usize::MAX && fld(bits, pos as int, len as int)
            == code ==> #[trigger] spec_decode_tmode(bits, pos, cb) == Ok::<(u8, nat), Error>((value, pos + len))
}

proof fn lemma_tmode_code(cb: TmodeCodebook, code: nat, len: nat, symbol: i16)
    requires
        true,
        1 <= len <= MAX_HUFFMAN_CODE_LEN,
        no_shorter_code(tmode_table(cb).0, code, len),
        huff_code_is(tmode_table(cb).0, code, len, symbol),
    ensures
        tmode_code_decodes(cb, code, len, symbol as u8),
{
    assert forall|bits: Seq<bool>, pos: nat|
        pos + len <= bits.len() && pos + len <= usize::MAX && fld(bits, pos as int, len as int)
            == code implies #[trigger] spec_decode_tmode(bits, pos, cb) == Ok::<(u8, nat), Error>(
        (symbol as u8, pos + len),
    ) by {
        lemma_huff_code_decodes(
            tmode_table(cb).0,
            tmode_table(cb).1,
            bits,
            pos,
            code,
            len,
            symbol,
            MAX_HUFFMAN_CODE_LEN as nat,
        );
    }
}

/// THUFF 0 (table A4), code by code: 0 -> 0, 10 -> 1, 110 -> 2, 111 -> 3.
pub proof fn lemma_tmode_a4_codes()
    ensures
        tmode_code_decodes(TmodeCodebook::A4, 0b0, 1, 0u8),
        tmode_code_decodes(TmodeCodebook::A4, 0b10, 2, 1u8),
        tmode_code_decodes(TmodeCodebook::A4, 0b110, 3, 2u8),
        tmode_code_decodes(TmodeCodebook::A4, 0b111, 3, 3u8),
{
    reveal_with_fuel(huff_lookup_from, 5);
    reveal_with_fuel(no_shorter_code, 4);
    lemma_tmode_code(TmodeCodebook::A4, 0b0, 1, 0i16);
    lemma_tmode_code(TmodeCodebook::A4, 0b10, 2, 1i16);
    lemma_tmode_code(TmodeCodebook::A4, 0b110, 3, 2i16);
    lemma_tmode_code(TmodeCodebook::A4, 0b111, 3, 3i16);
}

/// THUFF 1 (table B4), code by code: 0 -> 3, 10 -> 0, 110 -> 1, 111 -> 2.
pub proof fn lemma_tmode_b4_codes()
    ensures
        tmode_code_decodes(TmodeCodebook::B4, 0b0, 1, 3u8),
        tmode_code_decodes(TmodeCodebook::B4, 0b10, 2, 0u8),
        tmode_code_decodes(TmodeCodebook::B4, 0b110, 3, 1u8),
        tmode_code_decodes(TmodeCodebook::B4, 0b111, 3, 2u8),
{
    reveal_with_fuel(huff_lookup_from, 5);
    reveal_with_fuel(no_shorter_code, 4);
    lemma_tmode_code(TmodeCodebook::B4, 0b0, 1, 3i16);
    lemma_tmode_code(TmodeCodebook::B4, 0b10, 2, 0i16);
    lemma_tmode_code(TmodeCodebook::B4, 0b110, 3, 1i16);
    lemma_tmode_code(TmodeCodebook::B4, 0b111, 3, 2i16);
}

/// THUFF 2 (table C4), code by code: 0 -> 2, 10 -> 3, 110 -> 0, 111 -> 1.
pub proof fn lemma_tmode_c4_codes()
    ensures
        tmode_code_decodes(TmodeCodebook::C4, 0b0, 1, 2u8),
        tmode_code_decodes(TmodeCodebook::C4, 0b10, 2, 3u8),
        tmode_code_decodes(TmodeCodebook::C4, 0b110, 3, 0u8),
        tmode_code_decodes(TmodeCodebook::C4, 0b111, 3, 1u8),
{
    reveal_with_fuel(huff_lookup_from, 5);
    reveal_with_fuel(no_shorter_code, 4);
    lemma_tmode_code(TmodeCodebook::C4, 0b0, 1, 2i16);
    lemma_tmode_code(TmodeCodebook::C4, 0b10, 2, 3i16);
    lemma_tmode_code(TmodeCodebook::C4, 0b110, 3, 0i16);
    lemma_tmode_code(TmodeCodebook::C4, 0b111, 3, 1i16);
}

/// THUFF 3 (table D4), code by code: 00 -> 0, 01 -> 1, 10 -> 2, 11 -> 3.
pub proof fn lemma_tmode_d4_codes()
    ensures
        tmode_code_decodes(TmodeCodebook::D4, 0b00, 2, 0u8),
        tmode_code_decodes(TmodeCodebook::D4, 0b01, 2, 1u8),
        tmode_code_decodes(TmodeCodebook::D4, 0b10, 2, 2u8),
        tmode_code_decodes(TmodeCodebook::D4, 0b11, 2, 3u8),
{
    reveal_with_fuel(huff_lookup_from, 5);
    reveal_with_fuel(no_shorter_code, 3);
    lemma_tmode_code(TmodeCodebook::D4, 0b00, 2, 0i16);
    lemma_tmode_code(TmodeCodebook::D4, 0b01, 2, 1i16);
    lemma_tmode_code(TmodeCodebook::D4, 0b10, 2, 2i16);
    lemma_tmode_code(TmodeCodebook::D4, 0b11, 2, 3i16);
}

/// Every stream that starts with the `len`-bit code `code` decodes, as
/// a SCALES difference with book `cb`, to `value`, ending `len` bits on.
pub open spec fn scales_code_decodes(cb: ScalesCodebook, code: nat, len: nat, value: int) -> bool {
    forall|bits: Seq<bool>, pos: nat|
        pos + len <= bits.len() && pos + len <= usize::MAX && fld(bits, pos as int, len as int)
            == code ==> #[trigger] spec_scales_symbol(bits, pos, cb) == Ok::<(int, nat), Error>((value, pos + len))
}

proof fn lemma_scales_code(cb: ScalesCodebook, code: nat, len: nat, symbol: i16)
    requires
        spec_is_huffman_scales(cb),
        1 <= len <= MAX_HUFFMAN_CODE_LEN,
        no_shorter_code(scales_table(cb).0, code, len),
        huff_code_is(scales_table(cb).0, code, len, symbol),
    ensures
        scales_code_decodes(cb, code, len, symbol as int),
{
    assert forall|bits: Seq<bool>, pos: nat|
        pos + len <= bits.len() && pos + len <= usize::MAX && fld(bits, pos as int, len as int)
            == code implies #[trigger] spec_scales_symbol(bits, pos, cb) == Ok::<(int, nat), Error>(
        (symbol as int, pos + len),
    ) by {
        lemma_huff_code_decodes(
            scales_table(cb).0,
            scales_table(cb).1,
            bits,
            pos,
            code,
            len,
            symbol,
            MAX_HUFFMAN_CODE_LEN as nat,
        );
    }
}

/// SHUFF 0 (table A5), code by code: 0 -> 0, 10 -> 1, 110 -> -1, 1110 -> 2, 1111 -> -2.
pub proof fn lemma_scales_sa129_codes()
    ensures
        scales_code_decodes(ScalesCodebook::Sa129, 0b0, 1, 0),
        scales_code_decodes(ScalesCodebook::Sa129, 0b10, 2, 1),
        scales_code_decodes(ScalesCodebook::Sa129, 0b110, 3, -1),
        scales_code_decodes(ScalesCodebook::Sa129, 0b1110, 4, 2),
        scales_code_decodes(ScalesCodebook::Sa129, 0b1111, 4, -2),
{
    reveal_with_fuel(huff_lookup_from, 6);
    reveal_with_fuel(no_shorter_code, 5);
    lemma_scales_code(ScalesCodebook::Sa129, 0b0, 1, 0i16);
    lemma_scales_code(ScalesCodebook::Sa129, 0b10, 2, 1i16);
    lemma_scales_code(ScalesCodebook::Sa129, 0b110, 3, -1i16);
    lemma_scales_code(ScalesCodebook::Sa129, 0b1110, 4, 2i16);
    lemma_scales_code(ScalesCodebook::Sa129, 0b1111, 4, -2i16);
}

/// SHUFF 1 (table B5), code by code: 10 -> 0, 00 -> 1, 01 -> -1, 110 -> 2, 111 -> -2.
pub proof fn lemma_scales_sb129_codes()
    ensures
        scales_code_decodes(ScalesCodebook::Sb129, 0b10, 2, 0),
        scales_code_decodes(ScalesCodebook::Sb129, 0b00, 2, 1),
        scales_code_decodes(ScalesCodebook::Sb129, 0b01, 2, -1),
        scales_code_decodes(ScalesCodebook::Sb129, 0b110, 3, 2),
        scales_code_decodes(ScalesCodebook::Sb129, 0b111, 3, -2),
{
    reveal_with_fuel(huff_lookup_from, 6);
    reveal_with_fuel(no_shorter_code, 4);
    lemma_scales_code(ScalesCodebook::Sb129, 0b10, 2, 0i16);
    lemma_scales_code(ScalesCodebook::Sb129, 0b00, 2, 1i16);
    lemma_scales_code(ScalesCodebook::Sb129, 0b01, 2, -1i16);
    lemma_scales_code(ScalesCodebook::Sb129, 0b110, 3, 2i16);
    lemma_scales_code(ScalesCodebook::Sb129, 0b111, 3, -2i16);
}

/// SHUFF 2 (table C5), code by code: 0 -> 0, 100 -> 1, 101 -> -1, 110 -> 2, 111 -> -2.
pub proof fn lemma_scales_sc129_codes()
    ensures
        scales_code_decodes(ScalesCodebook::Sc129, 0b0, 1, 0),
        scales_code_decodes(ScalesCodebook::Sc129, 0b100, 3, 1),
        scales_code_decodes(ScalesCodebook::Sc129, 0b101, 3, -1),
        scales_code_decodes(ScalesCodebook::Sc129, 0b110, 3, 2),
        scales_code_decodes(ScalesCodebook::Sc129, 0b111, 3, -2),
{
    reveal_with_fuel(huff_lookup_from, 6);
    reveal_with_fuel(no_shorter_code, 4);
    lemma_scales_code(ScalesCodebook::Sc129, 0b0, 1, 0i16);
    lemma_scales_code(ScalesCodebook::Sc129, 0b100, 3, 1i16);
    lemma_scales_code(ScalesCodebook::Sc129, 0b101, 3, -1i16);
    lemma_scales_code(ScalesCodebook::Sc129, 0b110, 3, 2i16);
    lemma_scales_code(ScalesCodebook::Sc129, 0b111, 3, -2i16);
}

/// SHUFF 3 (table A7), code by code: 0 -> 0, 110 -> 1, 101 -> -1, 100 -> 2, 1110 -> -2, 11111 ->
/// 3, 11110 -> -3.
pub proof fn lemma_scales_sd129_codes()
    ensures
        scales_code_decodes(ScalesCodebook::Sd129, 0b0, 1, 0),
        scales_code_decodes(ScalesCodebook::Sd129, 0b110, 3, 1),
        scales_code_decodes(ScalesCodebook::Sd129, 0b101, 3, -1),
        scales_code_decodes(ScalesCodebook::Sd129, 0b100, 3, 2),
        scales_code_decodes(ScalesCodebook::Sd129, 0b1110, 4, -2),
        scales_code_decodes(ScalesCodebook::Sd129, 0b11111, 5, 3),
        scales_code_decodes(ScalesCodebook::Sd129, 0b11110, 5, -3),
{
    reveal_with_fuel(huff_lookup_from, 8);
    reveal_with_fuel(no_shorter_code, 6);
    lemma_scales_code(ScalesCodebook::Sd129, 0b0, 1, 0i16);
    lemma_scales_code(ScalesCodebook::Sd129, 0b110, 3, 1i16);
    lemma_scales_code(ScalesCodebook::Sd129, 0b101, 3, -1i16);
    lemma_scales_code(ScalesCodebook::Sd129, 0b100, 3, 2i16);
    lemma_scales_code(ScalesCodebook::Sd129, 0b1110, 4, -2i16);
    lemma_scales_code(ScalesCodebook::Sd129, 0b11111, 5, 3i16);
    lemma_scales_code(ScalesCodebook::Sd129, 0b11110, 5, -3i16);
}

/// SHUFF 4 (table B7), code by code: 11 -> 0, 01 -> 1, 00 -> -1, 100 -> 2, 1011 -> -2, 10101 -> 3,
/// 10100 -> -3.
pub proof fn lemma_scales_se129_codes()
    ensures
        scales_code_decodes(ScalesCodebook::Se129, 0b11, 2, 0),
        scales_code_decodes(ScalesCodebook::Se129, 0b01, 2, 1),
        scales_code_decodes(ScalesCodebook::Se129, 0b00, 2, -1),
        scales_code_decodes(ScalesCodebook::Se129, 0b100, 3, 2),
        scales_code_decodes(ScalesCodebook::Se129, 0b1011, 4, -2),
        scales_code_decodes(ScalesCodebook::Se129, 0b10101, 5, 3),
        scales_code_decodes(ScalesCodebook::Se129, 0b10100, 5, -3),
{
    reveal_with_fuel(huff_lookup_from, 8);
    reveal_with_fuel(no_shorter_code, 6);
    lemma_scales_code(ScalesCodebook::Se129, 0b11, 2, 0i16);
    lemma_scales_code(ScalesCodebook::Se129, 0b01, 2, 1i16);
    lemma_scales_code(ScalesCodebook::Se129, 0b00, 2, -1i16);
    lemma_scales_code(ScalesCodebook::Se129, 0b100, 3, 2i16);
    lemma_scales_code(ScalesCodebook::Se129, 0b1011, 4, -2i16);
    lemma_scales_code(ScalesCodebook::Se129, 0b10101, 5, 3i16);
    lemma_scales_code(ScalesCodebook::Se129, 0b10100, 5, -3i16);
}


/// The ABITS book a BHUFF value selects: BHUFF 0 to 4 pick the Huffman
/// tables lettered A to E in order (A12 to E12); 5 and 6 read a raw 4- or
/// 5-bit index; 7 and above are refused.
pub proof fn lemma_bhuff_selection(bhuff: u8)
    ensures
        bhuff <= 4 ==> (spec_abits_codebook(bhuff) matches Ok(cb) && {
            let name = abits_table(cb).1@;
            &&& cb != AbitsCodebook::Linear4Bit
            &&& cb != AbitsCodebook::Linear5Bit
            &&& name.len() == 3
            &&& name[0] as int == 'A' as int + bhuff
            &&& name[1] == '1'
            &&& name[2] == '2'
        }),
        bhuff == 5 ==> spec_abits_codebook(bhuff) == Ok::<AbitsCodebook, Error>(
            AbitsCodebook::Linear4Bit,
        ),
        bhuff == 6 ==> spec_abits_codebook(bhuff) == Ok::<AbitsCodebook, Error>(
            AbitsCodebook::Linear5Bit,
        ),
        bhuff >= 7 ==> spec_abits_codebook(bhuff) is Err,
{
    reveal_strlit("A12");
    reveal_strlit("B12");
    reveal_strlit("C12");
    reveal_strlit("D12");
    reveal_strlit("E12");
}

/// The TMODE book a THUFF value selects: THUFF 0 to 3 pick the tables
/// lettered A to D in order (A4 to D4); 4 and above are refused.
pub proof fn lemma_thuff_selection(thuff: u8)
    ensures
        thuff <= 3 ==> (spec_tmode_codebook(thuff) matches Ok(cb) && {
            let name = tmode_table(cb).1@;
            &&& name.len() == 2
            &&& name[0] as int == 'A' as int + thuff
            &&& name[1] == '4'
        }),
        thuff >= 4 ==> spec_tmode_codebook(thuff) is Err,
{
    reveal_strlit("A4");
    reveal_strlit("B4");
    reveal_strlit("C4");
    reveal_strlit("D4");
}

/// The SCALES book a SHUFF value selects: SHUFF 0 to 2 code differences
/// with the 5-level tables A5, B5, C5, SHUFF 3 and 4 with the 7-level
/// tables A7, B7; 5 and 6 send raw 6- and 7-bit indexes; 7 and above are
/// refused.
pub proof fn lemma_shuff_selection(shuff: u8)
    ensures
        shuff <= 4 ==> (spec_scales_codebook(shuff) matches Ok(cb) && {
            let name = scales_table(cb).1@;
            &&& spec_is_huffman_scales(cb)
            &&& name.len() == 2
            &&& shuff <= 2 ==> name[0] as int == 'A' as int + shuff && name[1] == '5'
            &&& shuff >= 3 ==> name[0] as int == 'A' as int + shuff - 3 && name[1] == '7'
        }),
        shuff == 5 ==> spec_scales_codebook(shuff) == Ok::<ScalesCodebook, Error>(
            ScalesCodebook::Linear6Bit,
        ),
        shuff == 6 ==> spec_scales_codebook(shuff) == Ok::<ScalesCodebook, Error>(
            ScalesCodebook::Linear7Bit,
        ),
        shuff >= 7 ==> spec_scales_codebook(shuff) is Err,
{
    reveal_strlit("A5");
    reveal_strlit("B5");
    reveal_strlit("C5");
    reveal_strlit("A7");
    reveal_strlit("B7");
}

} // verus!
