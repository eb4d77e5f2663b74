//! Audio-data quantization-index Huffman code books of the four lowest
//! ABITS families (3, 5, 7 and 9 levels) and the single-symbol decoder
//! of the Huffman-coded `AUDIO[m]` path.
//!
//! Unlike the side-information books, these decode to signed
//! quantization levels `0, 1, -1, 2, -2, ...`.

use crate::bits::{bits_of, BitReader};
use crate::error::Error;
use crate::header::fld;
use crate::side_info::{
    decode_huffman_table, huff_code_is, huff_lookup_from, lemma_huff_advances,
    lemma_huff_code_decodes, no_shorter_code, spec_huff_decode, spec_huff_stop, HuffmanEntry,
};
use vstd::prelude::*;

verus! {

/// Longest codeword of the books below (the 9-level books reach 6 bits).
pub const MAX_AUDIO_HUFF_CODE_LEN: u32 = 6;

/// Table A3 (ABITS 1, SEL 0).
pub const TABLE_A3: [HuffmanEntry; 3] = [(0, 1, 0), (1, 2, 2), (-1, 2, 3)];

/// Table A5 (ABITS 2, SEL 0).
pub const TABLE_A5: [HuffmanEntry; 5] = [(0, 1, 0), (1, 2, 2), (-1, 3, 6), (2, 4, 14), (-2, 4, 15)];

/// Table B5 (ABITS 2, SEL 1).
pub const TABLE_B5: [HuffmanEntry; 5] = [(0, 2, 2), (1, 2, 0), (-1, 2, 1), (2, 3, 6), (-2, 3, 7)];

/// Table C5 (ABITS 2, SEL 2).
pub const TABLE_C5: [HuffmanEntry; 5] = [(0, 1, 0), (1, 3, 4), (-1, 3, 5), (2, 3, 6), (-2, 3, 7)];

/// Table A7 (ABITS 3, SEL 0).
pub const TABLE_A7: [HuffmanEntry; 7] = [
    (0, 1, 0),
    (1, 3, 6),
    (-1, 3, 5),
    (2, 3, 4),
    (-2, 4, 14),
    (3, 5, 31),
    (-3, 5, 30),
];

/// Table B7 (ABITS 3, SEL 1).
pub const TABLE_B7: [HuffmanEntry; 7] = [
    (0, 2, 3),
    (1, 2, 1),
    (-1, 2, 0),
    (2, 3, 4),
    (-2, 4, 11),
    (3, 5, 21),
    (-3, 5, 20),
];

/// Table C7 (ABITS 3, SEL 2).
pub const TABLE_C7: [HuffmanEntry; 7] = [
    (0, 2, 3),
    (1, 2, 2),
    (-1, 2, 1),
    (2, 4, 3),
    (-2, 4, 2),
    (3, 4, 1),
    (-3, 4, 0),
];

/// Table A9 (ABITS 4, SEL 0).
pub const TABLE_A9: [HuffmanEntry; 9] = [
    (0, 1, 0),
    (1, 3, 7),
    (-1, 3, 5),
    (2, 4, 13),
    (-2, 4, 9),
    (3, 4, 8),
    (-3, 5, 25),
    (4, 6, 49),
    (-4, 6, 48),
];

/// Table B9 (ABITS 4, SEL 1).
pub const TABLE_B9: [HuffmanEntry; 9] = [
    (0, 2, 2),
    (1, 2, 0),
    (-1, 3, 7),
    (2, 3, 3),
    (-2, 3, 2),
    (3, 5, 27),
    (-3, 5, 26),
    (4, 5, 25),
    (-4, 5, 24),
];

/// Table C9 (ABITS 4, SEL 2).
pub const TABLE_C9: [HuffmanEntry; 9] = [
    (0, 2, 2),
    (1, 2, 0),
    (-1, 3, 7),
    (2, 3, 6),
    (-2, 3, 2),
    (3, 4, 6),
    (-3, 5, 15),
    (4, 6, 29),
    (-4, 6, 28),
];

/// One of the audio-data Huffman code books, selected by `(ABITS, SEL)`.
#[derive(Debug, Clone, Copy, PartialEq, Eq, Hash)]
pub enum AudioHuffCodebook {
    /// Table A3 — ABITS 1, SEL 0 (3 levels).
    A3,
    /// Table A5 — ABITS 2, SEL 0 (5 levels).
    A5,
    /// Table B5 — ABITS 2, SEL 1 (5 levels).
    B5,
    /// Table C5 — ABITS 2, SEL 2 (5 levels).
    C5,
    /// Table A7 — ABITS 3, SEL 0 (7 levels).
    A7,
    /// Table B7 — ABITS 3, SEL 1 (7 levels).
    B7,
    /// Table C7 — ABITS 3, SEL 2 (7 levels).
    C7,
    /// Table A9 — ABITS 4, SEL 0 (9 levels).
    A9,
    /// Table B9 — ABITS 4, SEL 1 (9 levels).
    B9,
    /// Table C9 — ABITS 4, SEL 2 (9 levels).
    C9,
}

/// The book an `(ABITS, SEL)` pair selects, if it selects a Huffman book
/// of this module.
pub open spec fn spec_audio_book(abits: u8, sel: u8) -> Option<AudioHuffCodebook> {
    if abits == 1 && sel == 0 {
        Some(AudioHuffCodebook::A3)
    } else if abits == 2 && sel <= 2 {
        Some(
            if sel == 0 {
                AudioHuffCodebook::A5
            } else if sel == 1 {
                AudioHuffCodebook::B5
            } else {
                AudioHuffCodebook::C5
            },
        )
    } else if abits == 3 && sel <= 2 {
        Some(
            if sel == 0 {
                AudioHuffCodebook::A7
            } else if sel == 1 {
                AudioHuffCodebook::B7
            } else {
                AudioHuffCodebook::C7
            },
        )
    } else if abits == 4 && sel <= 2 {
        Some(
            if sel == 0 {
                AudioHuffCodebook::A9
            } else if sel == 1 {
                AudioHuffCodebook::B9
            } else {
                AudioHuffCodebook::C9
            },
        )
    } else {
        None
    }
}

/// The ABITS family of a book.
pub open spec fn spec_book_abits(cb: AudioHuffCodebook) -> u8 {
    match cb {
        AudioHuffCodebook::A3 => 1,
        AudioHuffCodebook::A5 | AudioHuffCodebook::B5 | AudioHuffCodebook::C5 => 2,
        AudioHuffCodebook::A7 | AudioHuffCodebook::B7 | AudioHuffCodebook::C7 => 3,
        _ => 4,
    }
}

/// The code-book table of a book and its name.
pub open spec fn audio_table(cb: AudioHuffCodebook) -> (Seq<HuffmanEntry>, &'static str) {
    match cb {
        AudioHuffCodebook::A3 => (TABLE_A3@, "A3"),
        AudioHuffCodebook::A5 => (TABLE_A5@, "A5"),
        AudioHuffCodebook::B5 => (TABLE_B5@, "B5"),
        AudioHuffCodebook::C5 => (TABLE_C5@, "C5"),
        AudioHuffCodebook::A7 => (TABLE_A7@, "A7"),
        AudioHuffCodebook::B7 => (TABLE_B7@, "B7"),
        AudioHuffCodebook::C7 => (TABLE_C7@, "C7"),
        AudioHuffCodebook::A9 => (TABLE_A9@, "A9"),
        AudioHuffCodebook::B9 => (TABLE_B9@, "B9"),
        AudioHuffCodebook::C9 => (TABLE_C9@, "C9"),
    }
}

/// Decoding one quantization level at bit `pos`: `(level, end position)`.
pub open spec fn spec_decode_audio_huff(bits: Seq<bool>, pos: nat, cb: AudioHuffCodebook) -> Result<
    (i16, nat),
    Error,
> {
    spec_huff_decode(
        audio_table(cb).0,
        audio_table(cb).1,
        bits,
        pos,
        MAX_AUDIO_HUFF_CODE_LEN as nat,
    )
}

impl AudioHuffCodebook {
    /// The book for an `(ABITS, SEL)` pair: `None` outside ABITS 1..=4 or
    /// at the group's terminal block-code entry.
    pub fn from_abits_sel(abits: u8, sel: u8) -> (r: Option<Self>)
        ensures
            r == spec_audio_book(abits, sel),
    {
        match (abits, sel) {
            (1, 0) => Some(Self::A3),
            (2, 0) => Some(Self::A5),
            (2, 1) => Some(Self::B5),
            (2, 2) => Some(Self::C5),
            (3, 0) => Some(Self::A7),
            (3, 1) => Some(Self::B7),
            (3, 2) => Some(Self::C7),
            (4, 0) => Some(Self::A9),
            (4, 1) => Some(Self::B9),
            (4, 2) => Some(Self::C9),
            _ => None,
        }
    }

    /// The ABITS family: 1, 2, 3 or 4.
    pub fn abits(self) -> (a: u8)
        ensures
            a == spec_book_abits(self),
    {
        match self {
            Self::A3 => 1,
            Self::A5 | Self::B5 | Self::C5 => 2,
            Self::A7 | Self::B7 | Self::C7 => 3,
            Self::A9 | Self::B9 | Self::C9 => 4,
        }
    }

    /// The quantizer level count of the family, `2 * ABITS + 1`.
    pub fn levels(self) -> (n: u16)
        ensures
            n == 2 * spec_book_abits(self) + 1,
            n == audio_table(self).0.len(),
    {
        match self.abits() {
            1 => 3,
            2 => 5,
            3 => 7,
            _ => 9,
        }
    }

    /// The code-book table backing this book and its name.
    pub fn table(self) -> (r: (&'static [HuffmanEntry], &'static str))
        ensures
            r.0@ == audio_table(self).0,
            r.1 == audio_table(self).1,
    {
        match self {
            Self::A3 => (TABLE_A3.as_slice(), "A3"),
            Self::A5 => (TABLE_A5.as_slice(), "A5"),
            Self::B5 => (TABLE_B5.as_slice(), "B5"),
            Self::C5 => (TABLE_C5.as_slice(), "C5"),
            Self::A7 => (TABLE_A7.as_slice(), "A7"),
            Self::B7 => (TABLE_B7.as_slice(), "B7"),
            Self::C7 => (TABLE_C7.as_slice(), "C7"),
            Self::A9 => (TABLE_A9.as_slice(), "A9"),
            Self::B9 => (TABLE_B9.as_slice(), "B9"),
            Self::C9 => (TABLE_C9.as_slice(), "C9"),
        }
    }
}

/// Decode one signed quantization level from the reader.
pub fn decode_audio_huff(br: &mut BitReader, codebook: AudioHuffCodebook) -> (res: Result<
    i16,
    Error,
>)
    ensures
        final(br).bytes() == old(br).bytes(),
        match spec_decode_audio_huff(bits_of(old(br).bytes()), old(br).pos(), codebook) {
            Ok((v, p)) => res == Ok::<i16, Error>(v) && final(br).pos() == p,
            Err(e) => res == Err::<i16, Error>(e),
        },
        res is Ok ==> final(br).pos() > old(br).pos(),
        res is Err ==> final(br).pos() == spec_huff_stop(
            audio_table(codebook).0,
            bits_of(old(br).bytes()),
            old(br).pos(),
            1,
            MAX_AUDIO_HUFF_CODE_LEN as nat,
        ),
{
    let (table, name) = codebook.table();
    decode_huffman_table(br, table, name, MAX_AUDIO_HUFF_CODE_LEN)
}

/// Decode one signed quantization level starting at bit `bit_offset` of
/// `bytes`: `(level, bits consumed)`.
pub fn decode_audio_huff_at(bytes: &[u8], bit_offset: usize, codebook: AudioHuffCodebook) -> (res:
    Result<(i16, usize), Error>)
    ensures
        res == match spec_decode_audio_huff(bits_of(bytes@), bit_offset as nat, codebook) {
            Ok((v, p)) => Ok::<(i16, usize), Error>((v, (p - bit_offset) as usize)),
            Err(e) => Err(e),
        },
{
    let mut br = BitReader::at_bit(bytes, bit_offset);
    proof {
        let t = audio_table(codebook);
        lemma_huff_advances(t.0, t.1, bits_of(bytes@), bit_offset as nat, 1, 6);
    }
    let level = decode_audio_huff(&mut br, codebook)?;
    let consumed = br.absolute_bit_position() - bit_offset;
    Ok((level, consumed))
}


/// Every stream that starts with the `len`-bit code `code` decodes through
/// book `cb` to the quantization level `level`, ending `len` bits on.
pub open spec fn audio_code_decodes(cb: AudioHuffCodebook, code: nat, len: nat, level: i16) -> bool {
    forall|bits: Seq<bool>, pos: nat|
        pos + len <= bits.len() && pos + len <= usize::MAX && fld(bits, pos as int, len as int)
            == code ==> #[trigger] spec_decode_audio_huff(bits, pos, cb) == Ok::<(i16, nat), Error>(
            (level, pos + len),
        )
}

proof fn lemma_audio_code(cb: AudioHuffCodebook, code: nat, len: nat, level: i16)
    requires
        1 <= len <= MAX_AUDIO_HUFF_CODE_LEN,
        no_shorter_code(audio_table(cb).0, code, len),
        huff_code_is(audio_table(cb).0, code, len, level),
    ensures
        audio_code_decodes(cb, code, len, level),
{
    assert forall|bits: Seq<bool>, pos: nat|
        pos + len <= bits.len() && pos + len <= usize::MAX && fld(bits, pos as int, len as int)
            == code implies #[trigger] spec_decode_audio_huff(bits, pos, cb) == Ok::<(i16, nat), Error>(
        (level, pos + len),
    ) by {
        lemma_huff_code_decodes(
            audio_table(cb).0,
            audio_table(cb).1,
            bits,
            pos,
            code,
            len,
            level,
            MAX_AUDIO_HUFF_CODE_LEN as nat,
        );
    }
}

/// Table A3 (ABITS 1, SEL 0), code by code: 0 -> 0, 10 -> +1, 11 -> -1.
pub proof fn lemma_table_a3_codes()
    ensures
        audio_code_decodes(AudioHuffCodebook::A3, 0b0, 1, 0i16),
        audio_code_decodes(AudioHuffCodebook::A3, 0b10, 2, 1i16),
        audio_code_decodes(AudioHuffCodebook::A3, 0b11, 2, -1i16),
{
    reveal_with_fuel(huff_lookup_from, 10);
    reveal_with_fuel(no_shorter_code, 7);
    lemma_audio_code(AudioHuffCodebook::A3, 0b0, 1, 0i16);
    lemma_audio_code(AudioHuffCodebook::A3, 0b10, 2, 1i16);
    lemma_audio_code(AudioHuffCodebook::A3, 0b11, 2, -1i16);
}

/// Table A5 (ABITS 2, SEL 0), code by code: 0 -> 0, 10 -> +1, 110 -> -1, 1110 -> +2, 1111 -> -2.
pub proof fn lemma_table_a5_codes()
    ensures
        audio_code_decodes(AudioHuffCodebook::A5, 0b0, 1, 0i16),
        audio_code_decodes(AudioHuffCodebook::A5, 0b10, 2, 1i16),
        audio_code_decodes(AudioHuffCodebook::A5, 0b110, 3, -1i16),
        audio_code_decodes(AudioHuffCodebook::A5, 0b1110, 4, 2i16),
        audio_code_decodes(AudioHuffCodebook::A5, 0b1111, 4, -2i16),
{
    reveal_with_fuel(huff_lookup_from, 10);
    reveal_with_fuel(no_shorter_code, 7);
    lemma_audio_code(AudioHuffCodebook::A5, 0b0, 1, 0i16);
    lemma_audio_code(AudioHuffCodebook::A5, 0b10, 2, 1i16);
    lemma_audio_code(AudioHuffCodebook::A5, 0b110, 3, -1i16);
    lemma_audio_code(AudioHuffCodebook::A5, 0b1110, 4, 2i16);
    lemma_audio_code(AudioHuffCodebook::A5, 0b1111, 4, -2i16);
}

/// Table B5 (ABITS 2, SEL 1), code by code: 10 -> 0, 00 -> +1, 01 -> -1, 110 -> +2, 111 -> -2.
pub proof fn lemma_table_b5_codes()
    ensures
        audio_code_decodes(AudioHuffCodebook::B5, 0b10, 2, 0i16),
        audio_code_decodes(AudioHuffCodebook::B5, 0b00, 2, 1i16),
        audio_code_decodes(AudioHuffCodebook::B5, 0b01, 2, -1i16),
        audio_code_decodes(AudioHuffCodebook::B5, 0b110, 3, 2i16),
        audio_code_decodes(AudioHuffCodebook::B5, 0b111, 3, -2i16),
{
    reveal_with_fuel(huff_lookup_from, 10);
    reveal_with_fuel(no_shorter_code, 7);
    lemma_audio_code(AudioHuffCodebook::B5, 0b10, 2, 0i16);
    lemma_audio_code(AudioHuffCodebook::B5, 0b00, 2, 1i16);
    lemma_audio_code(AudioHuffCodebook::B5, 0b01, 2, -1i16);
    lemma_audio_code(AudioHuffCodebook::B5, 0b110, 3, 2i16);
    lemma_audio_code(AudioHuffCodebook::B5, 0b111, 3, -2i16);
}

/// Table C5 (ABITS 2, SEL 2), code by code: 0 -> 0, 100 -> +1, 101 -> -1, 110 -> +2, 111 -> -2.
pub proof fn lemma_table_c5_codes()
    ensures
        audio_code_decodes(AudioHuffCodebook::C5, 0b0, 1, 0i16),
        audio_code_decodes(AudioHuffCodebook::C5, 0b100, 3, 1i16),
        audio_code_decodes(AudioHuffCodebook::C5, 0b101, 3, -1i16),
        audio_code_decodes(AudioHuffCodebook::C5, 0b110, 3, 2i16),
        audio_code_decodes(AudioHuffCodebook::C5, 0b111, 3, -2i16),
{
    reveal_with_fuel(huff_lookup_from, 10);
    reveal_with_fuel(no_shorter_code, 7);
    lemma_audio_code(AudioHuffCodebook::C5, 0b0, 1, 0i16);
    lemma_audio_code(AudioHuffCodebook::C5, 0b100, 3, 1i16);
    lemma_audio_code(AudioHuffCodebook::C5, 0b101, 3, -1i16);
    lemma_audio_code(AudioHuffCodebook::C5, 0b110, 3, 2i16);
    lemma_audio_code(AudioHuffCodebook::C5, 0b111, 3, -2i16);
}

/// Table A7 (ABITS 3, SEL 0), code by code: 0 -> 0, 110 -> +1, 101 -> -1, 100 -> +2, 1110 -> -2,
/// 11111 -> +3, 11110 -> -3.
pub proof fn lemma_table_a7_codes()
    ensures
        audio_code_decodes(AudioHuffCodebook::A7, 0b0, 1, 0i16),
        audio_code_decodes(AudioHuffCodebook::A7, 0b110, 3, 1i16),
        audio_code_decodes(AudioHuffCodebook::A7, 0b101, 3, -1i16),
        audio_code_decodes(AudioHuffCodebook::A7, 0b100, 3, 2i16),
        audio_code_decodes(AudioHuffCodebook::A7, 0b1110, 4, -2i16),
        audio_code_decodes(AudioHuffCodebook::A7, 0b11111, 5, 3i16),
        audio_code_decodes(AudioHuffCodebook::A7, 0b11110, 5, -3i16),
{
    reveal_with_fuel(huff_lookup_from, 10);
    reveal_with_fuel(no_shorter_code, 7);
    lemma_audio_code(AudioHuffCodebook::A7, 0b0, 1, 0i16);
    lemma_audio_code(AudioHuffCodebook::A7, 0b110, 3, 1i16);
    lemma_audio_code(AudioHuffCodebook::A7, 0b101, 3, -1i16);
    lemma_audio_code(AudioHuffCodebook::A7, 0b100, 3, 2i16);
    lemma_audio_code(AudioHuffCodebook::A7, 0b1110, 4, -2i16);
    lemma_audio_code(AudioHuffCodebook::A7, 0b11111, 5, 3i16);
    lemma_audio_code(AudioHuffCodebook::A7, 0b11110, 5, -3i16);
}

/// Table B7 (ABITS 3, SEL 1), code by code: 11 -> 0, 01 -> +1, 00 -> -1, 100 -> +2, 1011 -> -2,
/// 10101 -> +3, 10100 -> -3.
pub proof fn lemma_table_b7_codes()
    ensures
        audio_code_decodes(AudioHuffCodebook::B7, 0b11, 2, 0i16),
        audio_code_decodes(AudioHuffCodebook::B7, 0b01, 2, 1i16),
        audio_code_decodes(AudioHuffCodebook::B7, 0b00, 2, -1i16),
        audio_code_decodes(AudioHuffCodebook::B7, 0b100, 3, 2i16),
        audio_code_decodes(AudioHuffCodebook::B7, 0b1011, 4, -2i16),
        audio_code_decodes(AudioHuffCodebook::B7, 0b10101, 5, 3i16),
        audio_code_decodes(AudioHuffCodebook::B7, 0b10100, 5, -3i16),
{
    reveal_with_fuel(huff_lookup_from, 10);
    reveal_with_fuel(no_shorter_code, 7);
    lemma_audio_code(AudioHuffCodebook::B7, 0b11, 2, 0i16);
    lemma_audio_code(AudioHuffCodebook::B7, 0b01, 2, 1i16);
    lemma_audio_code(AudioHuffCodebook::B7, 0b00, 2, -1i16);
    lemma_audio_code(AudioHuffCodebook::B7, 0b100, 3, 2i16);
    lemma_audio_code(AudioHuffCodebook::B7, 0b1011, 4, -2i16);
    lemma_audio_code(AudioHuffCodebook::B7, 0b10101, 5, 3i16);
    lemma_audio_code(AudioHuffCodebook::B7, 0b10100, 5, -3i16);
}

/// Table C7 (ABITS 3, SEL 2), code by code: 11 -> 0, 10 -> +1, 01 -> -1, 0011 -> +2, 0010 -> -2,
/// 0001 -> +3, 0000 -> -3.
pub proof fn lemma_table_c7_codes()
    ensures
        audio_code_decodes(AudioHuffCodebook::C7, 0b11, 2, 0i16),
        audio_code_decodes(AudioHuffCodebook::C7, 0b10, 2, 1i16),
        audio_code_decodes(AudioHuffCodebook::C7, 0b01, 2, -1i16),
        audio_code_decodes(AudioHuffCodebook::C7, 0b0011, 4, 2i16),
        audio_code_decodes(AudioHuffCodebook::C7, 0b0010, 4, -2i16),
        audio_code_decodes(AudioHuffCodebook::C7, 0b0001, 4, 3i16),
        audio_code_decodes(AudioHuffCodebook::C7, 0b0000, 4, -3i16),
{
    reveal_with_fuel(huff_lookup_from, 10);
    reveal_with_fuel(no_shorter_code, 7);
    lemma_audio_code(AudioHuffCodebook::C7, 0b11, 2, 0i16);
    lemma_audio_code(AudioHuffCodebook::C7, 0b10, 2, 1i16);
    lemma_audio_code(AudioHuffCodebook::C7, 0b01, 2, -1i16);
    lemma_audio_code(AudioHuffCodebook::C7, 0b0011, 4, 2i16);
    lemma_audio_code(AudioHuffCodebook::C7, 0b0010, 4, -2i16);
    lemma_audio_code(AudioHuffCodebook::C7, 0b0001, 4, 3i16);
    lemma_audio_code(AudioHuffCodebook::C7, 0b0000, 4, -3i16);
}

/// Table A9 (ABITS 4, SEL 0), code by code: 0 -> 0, 111 -> +1, 101 -> -1, 1101 -> +2, 1001 -> -2,
/// 1000 -> +3, 11001 -> -3, 110001 -> +4, 110000 -> -4.
pub proof fn lemma_table_a9_codes()
    ensures
        audio_code_decodes(AudioHuffCodebook::A9, 0b0, 1, 0i16),
        audio_code_decodes(AudioHuffCodebook::A9, 0b111, 3, 1i16),
        audio_code_decodes(AudioHuffCodebook::A9, 0b101, 3, -1i16),
        audio_code_decodes(AudioHuffCodebook::A9, 0b1101, 4, 2i16),
        audio_code_decodes(AudioHuffCodebook::A9, 0b1001, 4, -2i16),
        audio_code_decodes(AudioHuffCodebook::A9, 0b1000, 4, 3i16),
        audio_code_decodes(AudioHuffCodebook::A9, 0b11001, 5, -3i16),
        audio_code_decodes(AudioHuffCodebook::A9, 0b110001, 6, 4i16),
        audio_code_decodes(AudioHuffCodebook::A9, 0b110000, 6, -4i16),
{
    reveal_with_fuel(huff_lookup_from, 10);
    reveal_with_fuel(no_shorter_code, 7);
    lemma_audio_code(AudioHuffCodebook::A9, 0b0, 1, 0i16);
    lemma_audio_code(AudioHuffCodebook::A9, 0b111, 3, 1i16);
    lemma_audio_code(AudioHuffCodebook::A9, 0b101, 3, -1i16);
    lemma_audio_code(AudioHuffCodebook::A9, 0b1101, 4, 2i16);
    lemma_audio_code(AudioHuffCodebook::A9, 0b1001, 4, -2i16);
    lemma_audio_code(AudioHuffCodebook::A9, 0b1000, 4, 3i16);
    lemma_audio_code(AudioHuffCodebook::A9, 0b11001, 5, -3i16);
    lemma_audio_code(AudioHuffCodebook::A9, 0b110001, 6, 4i16);
    lemma_audio_code(AudioHuffCodebook::A9, 0b110000, 6, -4i16);
}

/// Table B9 (ABITS 4, SEL 1), code by code: 10 -> 0, 00 -> +1, 111 -> -1, 011 -> +2, 010 -> -2,
/// 11011 -> +3, 11010 -> -3, 11001 -> +4, 11000 -> -4.
pub proof fn lemma_table_b9_codes()
    ensures
        audio_code_decodes(AudioHuffCodebook::B9, 0b10, 2, 0i16),
        audio_code_decodes(AudioHuffCodebook::B9, 0b00, 2, 1i16),
        audio_code_decodes(AudioHuffCodebook::B9, 0b111, 3, -1i16),
        audio_code_decodes(AudioHuffCodebook::B9, 0b011, 3, 2i16),
        audio_code_decodes(AudioHuffCodebook::B9, 0b010, 3, -2i16),
        audio_code_decodes(AudioHuffCodebook::B9, 0b11011, 5, 3i16),
        audio_code_decodes(AudioHuffCodebook::B9, 0b11010, 5, -3i16),
        audio_code_decodes(AudioHuffCodebook::B9, 0b11001, 5, 4i16),
        audio_code_decodes(AudioHuffCodebook::B9, 0b11000, 5, -4i16),
{
    reveal_with_fuel(huff_lookup_from, 10);
    reveal_with_fuel(no_shorter_code, 7);
    lemma_audio_code(AudioHuffCodebook::B9, 0b10, 2, 0i16);
    lemma_audio_code(AudioHuffCodebook::B9, 0b00, 2, 1i16);
    lemma_audio_code(AudioHuffCodebook::B9, 0b111, 3, -1i16);
    lemma_audio_code(AudioHuffCodebook::B9, 0b011, 3, 2i16);
    lemma_audio_code(AudioHuffCodebook::B9, 0b010, 3, -2i16);
    lemma_audio_code(AudioHuffCodebook::B9, 0b11011, 5, 3i16);
    lemma_audio_code(AudioHuffCodebook::B9, 0b11010, 5, -3i16);
    lemma_audio_code(AudioHuffCodebook::B9, 0b11001, 5, 4i16);
    lemma_audio_code(AudioHuffCodebook::B9, 0b11000, 5, -4i16);
}

/// Table C9 (ABITS 4, SEL 2), code by code: 10 -> 0, 00 -> +1, 111 -> -1, 110 -> +2, 010 -> -2,
/// 0110 -> +3, 01111 -> -3, 011101 -> +4, 011100 -> -4.
pub proof fn lemma_table_c9_codes()
    ensures
        audio_code_decodes(AudioHuffCodebook::C9, 0b10, 2, 0i16),
        audio_code_decodes(AudioHuffCodebook::C9, 0b00, 2, 1i16),
        audio_code_decodes(AudioHuffCodebook::C9, 0b111, 3, -1i16),
        audio_code_decodes(AudioHuffCodebook::C9, 0b110, 3, 2i16),
        audio_code_decodes(AudioHuffCodebook::C9, 0b010, 3, -2i16),
        audio_code_decodes(AudioHuffCodebook::C9, 0b0110, 4, 3i16),
        audio_code_decodes(AudioHuffCodebook::C9, 0b01111, 5, -3i16),
        audio_code_decodes(AudioHuffCodebook::C9, 0b011101, 6, 4i16),
        audio_code_decodes(AudioHuffCodebook::C9, 0b011100, 6, -4i16),
{
    reveal_with_fuel(huff_lookup_from, 10);
    reveal_with_fuel(no_shorter_code, 7);
    lemma_audio_code(AudioHuffCodebook::C9, 0b10, 2, 0i16);
    lemma_audio_code(AudioHuffCodebook::C9, 0b00, 2, 1i16);
    lemma_audio_code(AudioHuffCodebook::C9, 0b111, 3, -1i16);
    lemma_audio_code(AudioHuffCodebook::C9, 0b110, 3, 2i16);
    lemma_audio_code(AudioHuffCodebook::C9, 0b010, 3, -2i16);
    lemma_audio_code(AudioHuffCodebook::C9, 0b0110, 4, 3i16);
    lemma_audio_code(AudioHuffCodebook::C9, 0b01111, 5, -3i16);
    lemma_audio_code(AudioHuffCodebook::C9, 0b011101, 6, 4i16);
    lemma_audio_code(AudioHuffCodebook::C9, 0b011100, 6, -4i16);
}


/// The book an `(ABITS, SEL)` pair selects: there is one exactly for
/// ABITS 1 with SEL 0 and for ABITS 2 to 4 with SEL 0 to 2; it is of that
/// ABITS family, has `2 * ABITS + 1` rows (one per quantization level),
/// and is the table named by SEL's letter (A, B, C) and its level count.
pub proof fn lemma_audio_book_selection(abits: u8, sel: u8)
    ensures
        spec_audio_book(abits, sel) is Some <==> (abits == 1 && sel == 0) || (2 <= abits <= 4
            && sel <= 2),
        spec_audio_book(abits, sel) matches Some(cb) ==> {
            &&& spec_book_abits(cb) == abits
            &&& audio_table(cb).0.len() == 2 * abits + 1
            &&& audio_table(cb).1@.len() == 2
            &&& audio_table(cb).1@[0] as int == 'A' as int + sel
            &&& audio_table(cb).1@[1] as int == '0' as int + 2 * abits + 1
        },
{
    reveal_strlit("A3");
    reveal_strlit("A5");
    reveal_strlit("B5");
    reveal_strlit("C5");
    reveal_strlit("A7");
    reveal_strlit("B7");
    reveal_strlit("C7");
    reveal_strlit("A9");
    reveal_strlit("B9");
    reveal_strlit("C9");
}

} // verus!
