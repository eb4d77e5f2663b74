//! DTS Coherent Acoustics frame-sync header: sync detection, parsing of
//! the raw 16-bit and 14-bit-packed encodings, and encoding back to the
//! raw big-endian on-wire form.
//!
//! Field layout after the 32-bit sync, MSB-first: FTYPE(1) SHORT(5)
//! CRC_PRESENT(1) NBLKS(7) FSIZE-1(14) AMODE(6) SFREQ(4) RATE(5)
//! DOWNMIX(1) DYNRANGE(1) TIMSTP(1) AUXDATA(1) HDCD(1) EXT_DESCR(3)
//! EXT_CODING(1) ASPF(1) LFE(2) PRED_HISTORY(1) [HEADER_CRC(16)]
//! MULTIRATE_INTER(1) VERSION(4) COPY_HISTORY(2) PCMR(3) FRONT_SUM(1)
//! SURROUND_SUM(1) DIALNORM(4).

use crate::bits::{
    bit_at, bits_of, bits_value, byte_bit, field_value, fits, lemma_bits_value_bound,
    lemma_two_pow_32, lemma_uint_bits_value, pack_bits, padded_bits, push_bits, two_pow,
    uint_bits, BitReader,
};
use crate::error::Error;
use crate::unpack14::{spec_unpacked_bits, unpack_14bit_to_16bit, FourteenBitByteOrder};
use vstd::prelude::*;

verus! {

/// The four documented DTS Core sync-word encodings.
#[derive(Debug, Clone, Copy, PartialEq, Eq, Hash)]
#[non_exhaustive]
pub enum SyncWordEncoding {
    /// `7F FE 80 01` — raw big-endian 16-bit words.
    RawBigEndian,
    /// `FE 7F 01 80` — raw little-endian (byte-swapped) 16-bit words.
    RawLittleEndian,
    /// `1F FF E8 00 07 Fx` — 14-bit payloads in big-endian containers.
    FourteenBitBigEndian,
    /// `FF 1F 00 E8 Fx 07` — 14-bit payloads in little-endian containers.
    FourteenBitLittleEndian,
}

/// Frame type (FTYPE bit).
#[derive(Debug, Clone, Copy, PartialEq, Eq, Hash)]
pub enum FrameType {
    /// `FTYPE == 0` — termination frame.
    Termination,
    /// `FTYPE == 1` — normal frame.
    Normal,
}

/// LFE-channel mode (2-bit LFE field).
#[derive(Debug, Clone, Copy, PartialEq, Eq, Hash)]
pub enum LfeMode {
    /// Code 0.
    NoLfe,
    /// Code 1.
    Mode1,
    /// Code 2.
    Mode2,
    /// Code 3.
    Mode3,
}

/// The LFE mode a 2-bit code selects (only the low two bits count).
pub open spec fn lfe_from_code(code: nat) -> LfeMode {
    if code % 4 == 0 {
        LfeMode::NoLfe
    } else if code % 4 == 1 {
        LfeMode::Mode1
    } else if code % 4 == 2 {
        LfeMode::Mode2
    } else {
        LfeMode::Mode3
    }
}

/// The 2-bit code of an LFE mode.
pub open spec fn lfe_code(m: LfeMode) -> u8 {
    match m {
        LfeMode::NoLfe => 0,
        LfeMode::Mode1 => 1,
        LfeMode::Mode2 => 2,
        LfeMode::Mode3 => 3,
    }
}

impl LfeMode {
    /// Construct from the raw code; only its low two bits are used.
    fn from_raw(code: u8) -> (m: Self)
        ensures
            m == lfe_from_code(code as nat),
    {
        let c = code & 0b11;
        assert(c == code % 4) by (bit_vector)
            requires
                c == code & 0b11,
        ;
        match c {
            0 => LfeMode::NoLfe,
            1 => LfeMode::Mode1,
            2 => LfeMode::Mode2,
            _ => LfeMode::Mode3,
        }
    }

    /// The raw 2-bit LFE code.
    pub fn code(self) -> (c: u8)
        ensures
            c == lfe_code(self),
            c <= 3,
    {
        match self {
            LfeMode::NoLfe => 0,
            LfeMode::Mode1 => 1,
            LfeMode::Mode2 => 2,
            LfeMode::Mode3 => 3,
        }
    }

    /// Whether any LFE channel is present (every code but 0).
    pub fn is_present(self) -> (b: bool)
        ensures
            b == (self != LfeMode::NoLfe),
    {
        !matches!(self, LfeMode::NoLfe)
    }
}

/// Decoding the code of a mode gives the mode back.
pub proof fn lemma_lfe_code_round_trip(m: LfeMode)
    ensures
        lfe_from_code(lfe_code(m) as nat) == m,
{
}

/// Parsed DTS Core frame-sync header.
#[derive(Debug, Clone, Copy, PartialEq, Eq, Hash)]
pub struct DtsFrameHeader {
    /// Which sync encoding the input carried.
    pub sync_word_encoding: SyncWordEncoding,
    /// Frame type.
    pub frame_type: FrameType,
    /// Samples per sub-block (SHORT + 1, 1..=32).
    pub sample_count_per_block: u8,
    /// Whether the 16-bit header CRC field is present.
    pub crc_present: bool,
    /// Number of blocks in the frame (NBLKS, 5..=127).
    pub blocks_per_frame: u8,
    /// Frame size in bytes (FSIZE-1 + 1, 95..=16384).
    pub frame_size_bytes: u16,
    /// Channel-arrangement code (AMODE, 0..=63).
    pub amode: u8,
    /// Sample-frequency index (SFREQ, 0..=15).
    pub sfreq_index: u8,
    /// Transmission bit-rate index (RATE, 0..=31).
    pub rate_index: u8,
    /// Embedded downmix-coefficients flag.
    pub downmix: bool,
    /// Embedded dynamic-range flag.
    pub dynamic_range: bool,
    /// Time-stamp field flag.
    pub time_stamp: bool,
    /// Auxiliary-data flag.
    pub aux_data: bool,
    /// HDCD source flag.
    pub hdcd: bool,
    /// Extension-audio descriptor (0..=7).
    pub ext_descr: u8,
    /// Extension-audio coding flag.
    pub ext_coding: bool,
    /// Audio-sync-word insertion flag.
    pub aspf: bool,
    /// LFE mode.
    pub lfe: LfeMode,
    /// Predictor-history flag.
    pub predictor_history: bool,
    /// The 16-bit header CRC, present iff `crc_present`.
    pub header_crc: Option<u16>,
    /// Multirate-interpolator flag.
    pub multirate_inter: bool,
    /// Encoder version (0..=15).
    pub version: u8,
    /// Copy-history code (0..=3).
    pub copy_history: u8,
    /// Source PCM resolution index (0..=7).
    pub source_pcm_resolution_index: u8,
    /// Front sum/difference flag.
    pub front_sum: bool,
    /// Surround sum/difference flag.
    pub surround_sum: bool,
    /// Dialog-normalization code (0..=15).
    pub dialog_normalization: u8,
}

/// Bits in the header window: 104, or 120 with the CRC field.
pub open spec fn spec_header_bit_length(crc_present: bool) -> u32 {
    if crc_present {
        120
    } else {
        104
    }
}

impl DtsFrameHeader {
    /// Sample rate in Hz: not resolved (the index table is not part of the
    /// documented bit layout); always `None`.
    pub fn sample_rate_hz(&self) -> (r: Option<u32>)
        ensures
            r is None,
    {
        None
    }

    /// Bit rate in bits per second: not resolved; always `None`.
    pub fn bit_rate_bps(&self) -> (r: Option<u32>)
        ensures
            r is None,
    {
        None
    }

    /// Channel count for AMODE: not resolved; always `None`.
    pub fn channel_count(&self) -> (r: Option<u8>)
        ensures
            r is None,
    {
        None
    }

    /// Source PCM bits per sample: not resolved; always `None`.
    pub fn source_pcm_bits_per_sample(&self) -> (r: Option<u8>)
        ensures
            r is None,
    {
        None
    }

    /// Dialog normalization in dB: not resolved; always `None`.
    pub fn dialog_normalization_db(&self) -> (r: Option<i8>)
        ensures
            r is None,
    {
        None
    }

    /// Header CRC verification: the polynomial is undocumented, so the
    /// result is always `None` (also when no CRC is present).
    pub fn verify_header_crc(&self) -> (r: Option<bool>)
        ensures
            r is None,
    {
        None
    }

    /// Bit length of the header window (sync to the first SUBFRAMES bit).
    pub fn header_bit_length(&self) -> (n: u32)
        ensures
            n == spec_header_bit_length(self.crc_present),
    {
        if self.crc_present {
            120
        } else {
            104
        }
    }

    /// Byte length of the header window: 13, or 15 with the CRC field.
    pub fn header_byte_length(&self) -> (n: usize)
        ensures
            n * 8 == spec_header_bit_length(self.crc_present),
            n == if self.crc_present {
                15usize
            } else {
                13usize
            },
    {
        (self.header_bit_length() / 8) as usize
    }
}

// ---------------------------------------------------------------------
// Sync detection
// ---------------------------------------------------------------------

/// Low 14 bits of the 16-bit word `a b` (big-endian) or `b a`.
pub open spec fn word14(a: u8, b: u8, big_endian: bool) -> u16 {
    (if big_endian {
        ((a as u16) << 8u16) | (b as u16)
    } else {
        ((b as u16) << 8u16) | (a as u16)
    }) & 0x3FFFu16
}

/// Whether the first six bytes carry a 14-bit sync in the given order:
/// container payloads `0x1FFF`, `0x2800`, and a third whose top four
/// payload bits are `0001`.
pub open spec fn is_sync14(b: Seq<u8>, big_endian: bool) -> bool {
    &&& word14(b[0], b[1], big_endian) == 0x1FFF
    &&& word14(b[2], b[3], big_endian) == 0x2800
    &&& (word14(b[4], b[5], big_endian) >> 10u16) & 0xFu16 == 1
}

/// The sync encoding found at the start of `b`, or why none is.
pub open spec fn spec_detect_sync(b: Seq<u8>) -> Result<SyncWordEncoding, Error> {
    if b.len() < 4 {
        Err(Error::UnexpectedEof)
    } else if b[0] == 0x7F && b[1] == 0xFE && b[2] == 0x80 && b[3] == 0x01 {
        Ok(SyncWordEncoding::RawBigEndian)
    } else if b[0] == 0xFE && b[1] == 0x7F && b[2] == 0x01 && b[3] == 0x80 {
        Ok(SyncWordEncoding::RawLittleEndian)
    } else if b.len() >= 6 && is_sync14(b, true) {
        Ok(SyncWordEncoding::FourteenBitBigEndian)
    } else if b.len() >= 6 && is_sync14(b, false) {
        Ok(SyncWordEncoding::FourteenBitLittleEndian)
    } else {
        Err(Error::NoSync)
    }
}

fn word14_exec(a: u8, b: u8, big_endian: bool) -> (w: u16)
    ensures
        w == word14(a, b, big_endian),
{
    (if big_endian {
        ((a as u16) << 8u16) | (b as u16)
    } else {
        ((b as u16) << 8u16) | (a as u16)
    }) & 0x3FFFu16
}

fn sync14_at(bytes: &[u8], big_endian: bool) -> (r: bool)
    requires
        bytes@.len() >= 6,
    ensures
        r == is_sync14(bytes@, big_endian),
{
    let c0 = word14_exec(bytes[0], bytes[1], big_endian);
    let c1 = word14_exec(bytes[2], bytes[3], big_endian);
    let c2 = word14_exec(bytes[4], bytes[5], big_endian);
    c0 == 0x1FFF && c1 == 0x2800 && (c2 >> 10u16) & 0xFu16 == 1
}

/// Detect which of the four sync sequences starts `bytes`.
pub fn detect_sync(bytes: &[u8]) -> (res: Result<SyncWordEncoding, Error>)
    ensures
        res == spec_detect_sync(bytes@),
{
    if bytes.len() < 4 {
        return Err(Error::UnexpectedEof);
    }
    if bytes[0] == 0x7F && bytes[1] == 0xFE && bytes[2] == 0x80 && bytes[3] == 0x01 {
        return Ok(SyncWordEncoding::RawBigEndian);
    }
    if bytes[0] == 0xFE && bytes[1] == 0x7F && bytes[2] == 0x01 && bytes[3] == 0x80 {
        return Ok(SyncWordEncoding::RawLittleEndian);
    }
    if bytes.len() >= 6 {
        if sync14_at(bytes, true) {
            return Ok(SyncWordEncoding::FourteenBitBigEndian);
        }
        if sync14_at(bytes, false) {
            return Ok(SyncWordEncoding::FourteenBitLittleEndian);
        }
    }
    Err(Error::NoSync)
}

// ---------------------------------------------------------------------
// Parsing
// ---------------------------------------------------------------------

/// Unsigned value of the `w`-bit field at bit `pos` of `bits`.
pub open spec fn fld(bits: Seq<bool>, pos: int, w: int) -> nat {
    bits_value(bits.subrange(pos, pos + w))
}

/// `s` with every pair of bytes swapped (an unpaired last byte stays).
pub open spec fn swap_pairs(s: Seq<u8>) -> Seq<u8> {
    Seq::new(
        s.len(),
        |i: int|
            if i % 2 == 1 {
                s[i - 1]
            } else if i + 1 < s.len() {
                s[i + 1]
            } else {
                s[i]
            },
    )
}

/// The first eight 16-bit words of a little-endian stream, each with its
/// two bytes swapped; a byte past the end of the input reads as zero.
pub open spec fn le_window(b: Seq<u8>) -> Seq<u8> {
    Seq::new(
        16,
        |i: int|
            {
                let j = if i % 2 == 0 {
                    i + 1
                } else {
                    i - 1
                };
                if j < b.len() {
                    b[j]
                } else {
                    0u8
                }
            },
    )
}

/// The header a bit stream starting with a raw big-endian sync carries
/// (at least 120 bits), tagged with `sync`.
pub open spec fn spec_header_from_bits(bits: Seq<bool>, sync: SyncWordEncoding) -> Result<
    DtsFrameHeader,
    Error,
> {
    let nblks = fld(bits, 39, 7);
    let fsize = fld(bits, 46, 14) + 1;
    if nblks < 5 {
        Err(Error::BlockCountOutOfRange { blocks: nblks as u8 })
    } else if fsize < 95 {
        Err(Error::FrameSizeOutOfRange { frame_size: fsize as u16 })
    } else {
        let crc_present = fld(bits, 38, 1) == 1;
        let p: int = if crc_present {
            104
        } else {
            88
        };
        Ok(
            DtsFrameHeader {
                sync_word_encoding: sync,
                frame_type: if fld(bits, 32, 1) == 1 {
                    FrameType::Normal
                } else {
                    FrameType::Termination
                },
                sample_count_per_block: (fld(bits, 33, 5) + 1) as u8,
                crc_present,
                blocks_per_frame: nblks as u8,
                frame_size_bytes: fsize as u16,
                amode: fld(bits, 60, 6) as u8,
                sfreq_index: fld(bits, 66, 4) as u8,
                rate_index: fld(bits, 70, 5) as u8,
                downmix: fld(bits, 75, 1) == 1,
                dynamic_range: fld(bits, 76, 1) == 1,
                time_stamp: fld(bits, 77, 1) == 1,
                aux_data: fld(bits, 78, 1) == 1,
                hdcd: fld(bits, 79, 1) == 1,
                ext_descr: fld(bits, 80, 3) as u8,
                ext_coding: fld(bits, 83, 1) == 1,
                aspf: fld(bits, 84, 1) == 1,
                lfe: lfe_from_code(fld(bits, 85, 2)),
                predictor_history: fld(bits, 87, 1) == 1,
                header_crc: if crc_present {
                    Some(fld(bits, 88, 16) as u16)
                } else {
                    None
                },
                multirate_inter: fld(bits, p, 1) == 1,
                version: fld(bits, p + 1, 4) as u8,
                copy_history: fld(bits, p + 5, 2) as u8,
                source_pcm_resolution_index: fld(bits, p + 7, 3) as u8,
                front_sum: fld(bits, p + 10, 1) == 1,
                surround_sum: fld(bits, p + 11, 1) == 1,
                dialog_normalization: fld(bits, p + 12, 4) as u8,
            },
        )
    }
}

/// What [`parse_frame_header`] returns for the input `b`.
pub open spec fn spec_parse_frame_header(b: Seq<u8>) -> Result<DtsFrameHeader, Error> {
    match spec_detect_sync(b) {
        Err(e) => Err(e),
        Ok(SyncWordEncoding::RawBigEndian) => if b.len() < 15 {
            Err(Error::UnexpectedEof)
        } else {
            spec_header_from_bits(bits_of(b), SyncWordEncoding::RawBigEndian)
        },
        Ok(SyncWordEncoding::RawLittleEndian) => if b.len() < 15 {
            Err(Error::UnexpectedEof)
        } else if b.len() < 16 && fld(bits_of(le_window(b)), 38, 1) == 1 {
            Err(Error::UnexpectedEof)
        } else {
            spec_header_from_bits(bits_of(le_window(b)), SyncWordEncoding::RawLittleEndian)
        },
        Ok(_) => Err(Error::UnsupportedFourteenBit),
    }
}

/// Read `n <= 32` bits that are known to be present.
fn read_field(br: &mut BitReader, n: usize) -> (v: u32)
    requires
        n <= 32,
        fits(old(br).bytes(), old(br).pos() as int, n as int),
    ensures
        final(br).bytes() == old(br).bytes(),
        final(br).pos() == old(br).pos() + n,
        v == fld(bits_of(old(br).bytes()), old(br).pos() as int, n as int),
        (v as nat) < two_pow(n as nat),
{
    let r = br.read(n);
    match r {
        Ok(v) => {
            proof {
                lemma_bits_value_bound(
                    bits_of(old(br).bytes()).subrange(old(br).pos() as int, old(br).pos() + n),
                );
            }
            v
        },
        Err(_) => {
            assert(false);
            0
        },
    }
}

/// Read a one-bit flag that is known to be present.
fn read_flag(br: &mut BitReader) -> (b: bool)
    requires
        fits(old(br).bytes(), old(br).pos() as int, 1),
    ensures
        final(br).bytes() == old(br).bytes(),
        final(br).pos() == old(br).pos() + 1,
        b == (fld(bits_of(old(br).bytes()), old(br).pos() as int, 1) == 1),
{
    read_field(br, 1) == 1
}

/// Decode the header fields from a normalised (raw big-endian) window of
/// at least 15 bytes.
fn parse_normalised(hb: &[u8], sync: SyncWordEncoding) -> (res: Result<DtsFrameHeader, Error>)
    requires
        hb@.len() >= 15,
    ensures
        res == spec_header_from_bits(bits_of(hb@), sync),
{
    let ghost bits = bits_of(hb@);
    proof {
        lemma_two_pow_32();
        reveal_with_fuel(two_pow, 17);
    }
    let mut br = BitReader::at_bit(hb, 32);
    let ftype = read_flag(&mut br);
    let frame_type = if ftype {
        FrameType::Normal
    } else {
        FrameType::Termination
    };
    let scm1 = read_field(&mut br, 5);
    let sample_count_per_block = (scm1 as u8) + 1;
    let crc_present = read_flag(&mut br);
    let nblks32 = read_field(&mut br, 7);
    let nblks = nblks32 as u8;
    if nblks < 5 {
        return Err(Error::BlockCountOutOfRange { blocks: nblks });
    }
    let fsm1 = read_field(&mut br, 14);
    let frame_size_bytes = (fsm1 as u16) + 1;
    if frame_size_bytes < 95 {
        return Err(Error::FrameSizeOutOfRange { frame_size: frame_size_bytes });
    }
    let amode = read_field(&mut br, 6) as u8;
    let sfreq_index = read_field(&mut br, 4) as u8;
    let rate_index = read_field(&mut br, 5) as u8;
    let downmix = read_flag(&mut br);
    let dynamic_range = read_flag(&mut br);
    let time_stamp = read_flag(&mut br);
    let aux_data = read_flag(&mut br);
    let hdcd = read_flag(&mut br);
    let ext_descr = read_field(&mut br, 3) as u8;
    let ext_coding = read_flag(&mut br);
    let aspf = read_flag(&mut br);
    let lfe_raw = read_field(&mut br, 2) as u8;
    let lfe = LfeMode::from_raw(lfe_raw);
    let predictor_history = read_flag(&mut br);
    let header_crc = if crc_present {
        Some(read_field(&mut br, 16) as u16)
    } else {
        None
    };
    let multirate_inter = read_flag(&mut br);
    let version = read_field(&mut br, 4) as u8;
    let copy_history = read_field(&mut br, 2) as u8;
    let source_pcm_resolution_index = read_field(&mut br, 3) as u8;
    let front_sum = read_flag(&mut br);
    let surround_sum = read_flag(&mut br);
    let dialog_normalization = read_field(&mut br, 4) as u8;
    Ok(
        DtsFrameHeader {
            sync_word_encoding: sync,
            frame_type,
            sample_count_per_block,
            crc_present,
            blocks_per_frame: nblks,
            frame_size_bytes,
            amode,
            sfreq_index,
            rate_index,
            downmix,
            dynamic_range,
            time_stamp,
            aux_data,
            hdcd,
            ext_descr,
            ext_coding,
            aspf,
            lfe,
            predictor_history,
            header_crc,
            multirate_inter,
            version,
            copy_history,
            source_pcm_resolution_index,
            front_sum,
            surround_sum,
            dialog_normalization,
        },
    )
}

/// Parse a frame-sync header from the start of `bytes`, which must begin
/// with one of the two raw 16-bit syncs and hold at least 15 bytes. A
/// 15-byte little-endian buffer lacks the byte that completes its eighth
/// word, so it parses only when the header carries no CRC field (the
/// header then ends within the first seven words). Nothing is allocated.
pub fn parse_frame_header(bytes: &[u8]) -> (res: Result<DtsFrameHeader, Error>)
    ensures
        res == spec_parse_frame_header(bytes@),
{
    let sync = detect_sync(bytes)?;
    match sync {
        SyncWordEncoding::RawBigEndian => {
            if bytes.len() < 15 {
                return Err(Error::UnexpectedEof);
            }
            parse_normalised(bytes, sync)
        },
        SyncWordEncoding::RawLittleEndian => {
            if bytes.len() < 15 {
                return Err(Error::UnexpectedEof);
            }
            let mut w = [0u8; 16];
            let mut i: usize = 0;
            while i < 16
                invariant
                    i <= 16,
                    w@.len() == 16,
                    forall|k: int| 0 <= k < i ==> #[trigger] w@[k] == le_window(bytes@)[k],
                decreases 16 - i,
            {
                let j = if i % 2 == 0 {
                    i + 1
                } else {
                    i - 1
                };
                let v = if j < bytes.len() {
                    bytes[j]
                } else {
                    0u8
                };
                w[i] = v;
                i = i + 1;
            }
            assert(w@ =~= le_window(bytes@));
            if bytes.len() < 16 {
                let mut br = BitReader::at_bit(&w, 38);
                proof {
                    lemma_two_pow_32();
                }
                let crc_flag = read_field(&mut br, 1);
                if crc_flag == 1 {
                    return Err(Error::UnexpectedEof);
                }
            }
            parse_normalised(&w, sync)
        },
        _ => Err(Error::UnsupportedFourteenBit),
    }
}

/// What [`parse_frame_header_14bit`] returns for the input `b`.
pub open spec fn spec_parse_frame_header_14bit(b: Seq<u8>) -> Result<DtsFrameHeader, Error> {
    match spec_detect_sync(b) {
        Err(_) => Err(Error::NoSync),
        Ok(sync) => if sync == SyncWordEncoding::RawBigEndian || sync
            == SyncWordEncoding::RawLittleEndian {
            Err(Error::NoSync)
        } else if b.len() < 18 || b.len() % 2 == 1 {
            Err(Error::UnexpectedEof)
        } else {
            let order = if sync == SyncWordEncoding::FourteenBitBigEndian {
                FourteenBitByteOrder::BigEndian
            } else {
                FourteenBitByteOrder::LittleEndian
            };
            match spec_parse_unpacked(spec_unpacked_bits(b, order)) {
                Ok(h) => Ok(DtsFrameHeader { sync_word_encoding: sync, ..h }),
                Err(e) => Err(e),
            }
        },
    }
}

/// What [`parse_frame_header`] returns for any byte sequence whose bit
/// stream is `bits`.
pub open spec fn spec_parse_unpacked(bits: Seq<bool>) -> Result<DtsFrameHeader, Error> {
    spec_parse_frame_header(choose|u: Seq<u8>| bits_of(u) == bits)
}

/// Bytes are determined by their bit stream.
pub proof fn lemma_bits_of_injective(a: Seq<u8>, b: Seq<u8>)
    requires
        bits_of(a) == bits_of(b),
    ensures
        a == b,
{
    assert(bits_of(a).len() == a.len() * 8);
    assert(bits_of(b).len() == b.len() * 8);
    assert(a.len() == b.len());
    assert forall|j: int| 0 <= j < a.len() implies a[j] == b[j] by {
        assert forall|k: int| 0 <= k < 8 implies byte_bit(a[j], k) == byte_bit(b[j], k) by {
            let q = 8 * j + k;
            assert(q < a.len() * 8);
            assert(q / 8 == j && q % 8 == k);
            assert(bits_of(a)[q] == bit_at(a, q));
            assert(bits_of(b)[q] == bit_at(b, q));
        }
        lemma_byte_from_bits(a[j], b[j]);
    }
    assert(a =~= b);
}

/// Two bytes with the same eight bits are equal.
pub proof fn lemma_byte_from_bits(x: u8, y: u8)
    requires
        forall|k: int| 0 <= k < 8 ==> byte_bit(x, k) == byte_bit(y, k),
    ensures
        x == y,
{
    assert(byte_bit(x, 0) == byte_bit(y, 0));
    assert(byte_bit(x, 1) == byte_bit(y, 1));
    assert(byte_bit(x, 2) == byte_bit(y, 2));
    assert(byte_bit(x, 3) == byte_bit(y, 3));
    assert(byte_bit(x, 4) == byte_bit(y, 4));
    assert(byte_bit(x, 5) == byte_bit(y, 5));
    assert(byte_bit(x, 6) == byte_bit(y, 6));
    assert(byte_bit(x, 7) == byte_bit(y, 7));
    assert(x == y) by (bit_vector)
        requires
            ((x >> 7u8) & 1u8 == 1u8) == ((y >> 7u8) & 1u8 == 1u8),
            ((x >> 6u8) & 1u8 == 1u8) == ((y >> 6u8) & 1u8 == 1u8),
            ((x >> 5u8) & 1u8 == 1u8) == ((y >> 5u8) & 1u8 == 1u8),
            ((x >> 4u8) & 1u8 == 1u8) == ((y >> 4u8) & 1u8 == 1u8),
            ((x >> 3u8) & 1u8 == 1u8) == ((y >> 3u8) & 1u8 == 1u8),
            ((x >> 2u8) & 1u8 == 1u8) == ((y >> 2u8) & 1u8 == 1u8),
            ((x >> 1u8) & 1u8 == 1u8) == ((y >> 1u8) & 1u8 == 1u8),
            ((x >> 0u8) & 1u8 == 1u8) == ((y >> 0u8) & 1u8 == 1u8),
    ;
}

/// Parse a frame-sync header from a 14-bit-packed buffer: the input must
/// start with a 14-bit sync (else `NoSync`, also for a buffer too short to
/// hold one), hold at least 18 bytes and have even length;
/// it is unpacked and parsed as raw big-endian, and the result reports the
/// 14-bit encoding that was found.
pub fn parse_frame_header_14bit(bytes: &[u8]) -> (res: Result<DtsFrameHeader, Error>)
    requires
        bytes@.len() <= usize::MAX / 8,
    ensures
        res == spec_parse_frame_header_14bit(bytes@),
{
    let sync = match detect_sync(bytes) {
        Ok(sync) => sync,
        Err(_) => {
            return Err(Error::NoSync);
        },
    };
    let order = match FourteenBitByteOrder::from_sync(sync) {
        Some(o) => o,
        None => {
            return Err(Error::NoSync);
        },
    };
    if bytes.len() < 18 {
        return Err(Error::UnexpectedEof);
    }
    let unpacked = unpack_14bit_to_16bit(bytes, order)?;
    if unpacked.len() < 15 {
        return Err(Error::UnexpectedEof);
    }
    let r = parse_frame_header(unpacked.as_slice());
    proof {
        let bits = spec_unpacked_bits(bytes@, order);
        assert(bits_of(unpacked@) == bits);
        let u = choose|u: Seq<u8>| bits_of(u) == bits;
        lemma_bits_of_injective(u, unpacked@);
    }
    let mut hdr = r?;
    hdr.sync_word_encoding = sync;
    Ok(hdr)
}

// ---------------------------------------------------------------------
// Encoding
// ---------------------------------------------------------------------

/// `1` for `true`, `0` for `false`.
pub open spec fn flag(b: bool) -> u32 {
    if b {
        1
    } else {
        0
    }
}

/// The `(value, width)` fields the encoder writes for `h`, in wire order.
pub open spec fn header_fields(h: DtsFrameHeader) -> Seq<(u32, u32)> {
    header_fields_base(h) + header_fields_crc(h) + header_fields_post(h)
}

/// The fields from the sync through PRED_HISTORY.
pub open spec fn header_fields_base(h: DtsFrameHeader) -> Seq<(u32, u32)> {
    header_fields_a(h) + header_fields_b(h) + header_fields_c(h)
}

/// Sync through FSIZE-1.
#[verifier::opaque]
pub open spec fn header_fields_a(h: DtsFrameHeader) -> Seq<(u32, u32)> {
    seq![
        (0x7FFE_8001u32, 32u32),
        (flag(h.frame_type == FrameType::Normal), 1u32),
        ((h.sample_count_per_block - 1) as u32, 5u32),
        (flag(h.crc_present), 1u32),
        (h.blocks_per_frame as u32, 7u32),
        ((h.frame_size_bytes - 1) as u32, 14u32),
    ]
}

/// AMODE through HDCD.
#[verifier::opaque]
pub open spec fn header_fields_b(h: DtsFrameHeader) -> Seq<(u32, u32)> {
    seq![
        (h.amode as u32, 6u32),
        (h.sfreq_index as u32, 4u32),
        (h.rate_index as u32, 5u32),
        (flag(h.downmix), 1u32),
        (flag(h.dynamic_range), 1u32),
        (flag(h.time_stamp), 1u32),
        (flag(h.aux_data), 1u32),
    ]
}

/// HDCD through PRED_HISTORY.
#[verifier::opaque]
pub open spec fn header_fields_c(h: DtsFrameHeader) -> Seq<(u32, u32)> {
    seq![
        (flag(h.hdcd), 1u32),
        (h.ext_descr as u32, 3u32),
        (flag(h.ext_coding), 1u32),
        (flag(h.aspf), 1u32),
        (lfe_code(h.lfe) as u32, 2u32),
        (flag(h.predictor_history), 1u32),
    ]
}

/// The optional header-CRC field.
#[verifier::opaque]
pub open spec fn header_fields_crc(h: DtsFrameHeader) -> Seq<(u32, u32)> {
    match h.header_crc {
        Some(c) => seq![(c as u32, 16u32)],
        None => Seq::<(u32, u32)>::empty(),
    }
}

/// The post-CRC fields.
#[verifier::opaque]
pub open spec fn header_fields_post(h: DtsFrameHeader) -> Seq<(u32, u32)> {
    seq![
        (flag(h.multirate_inter), 1u32),
        (h.version as u32, 4u32),
        (h.copy_history as u32, 2u32),
        (h.source_pcm_resolution_index as u32, 3u32),
        (flag(h.front_sum), 1u32),
        (flag(h.surround_sum), 1u32),
        (h.dialog_normalization as u32, 4u32),
    ]
}

/// Concatenated bits of the first `k` fields of a field list.
pub open spec fn fields_bits_upto(fs: Seq<(u32, u32)>, k: nat) -> Seq<bool>
    decreases k,
{
    if k == 0 {
        Seq::empty()
    } else {
        fields_bits_upto(fs, (k - 1) as nat) + uint_bits(fs[k - 1].0, fs[k - 1].1 as nat)
    }
}

/// Concatenated bits of a field list.
pub open spec fn fields_bits(fs: Seq<(u32, u32)>) -> Seq<bool> {
    fields_bits_upto(fs, fs.len())
}

/// Total width of the first `k` fields.
pub open spec fn width_upto(fs: Seq<(u32, u32)>, k: nat) -> nat
    decreases k,
{
    if k == 0 {
        0
    } else {
        width_upto(fs, (k - 1) as nat) + fs[k - 1].1 as nat
    }
}

/// The first validation failure of the encoder for `h`, if any.
pub open spec fn spec_encode_error(h: DtsFrameHeader) -> Option<Error> {
    if h.blocks_per_frame < 5 || h.blocks_per_frame > 127 {
        Some(Error::BlockCountOutOfRange { blocks: h.blocks_per_frame })
    } else if h.frame_size_bytes < 95 || h.frame_size_bytes > 16384 {
        Some(Error::FrameSizeOutOfRange { frame_size: h.frame_size_bytes })
    } else if h.sample_count_per_block == 0 || h.sample_count_per_block > 32 {
        Some(
            Error::FieldOutOfRange {
                field: "sample_count_per_block",
                value: h.sample_count_per_block as u32,
                max: 32,
            },
        )
    } else if h.amode > 63 {
        Some(Error::FieldOutOfRange { field: "amode", value: h.amode as u32, max: 63 })
    } else if h.sfreq_index > 15 {
        Some(Error::FieldOutOfRange { field: "sfreq_index", value: h.sfreq_index as u32, max: 15 })
    } else if h.rate_index > 31 {
        Some(Error::FieldOutOfRange { field: "rate_index", value: h.rate_index as u32, max: 31 })
    } else if h.ext_descr > 7 {
        Some(Error::FieldOutOfRange { field: "ext_descr", value: h.ext_descr as u32, max: 7 })
    } else if h.version > 15 {
        Some(Error::FieldOutOfRange { field: "version", value: h.version as u32, max: 15 })
    } else if h.copy_history > 3 {
        Some(Error::FieldOutOfRange { field: "copy_history", value: h.copy_history as u32, max: 3 })
    } else if h.source_pcm_resolution_index > 7 {
        Some(
            Error::FieldOutOfRange {
                field: "source_pcm_resolution_index",
                value: h.source_pcm_resolution_index as u32,
                max: 7,
            },
        )
    } else if h.dialog_normalization > 15 {
        Some(
            Error::FieldOutOfRange {
                field: "dialog_normalization",
                value: h.dialog_normalization as u32,
                max: 15,
            },
        )
    } else if h.crc_present != (h.header_crc is Some) {
        Some(
            Error::FieldOutOfRange {
                field: "header_crc",
                value: match h.header_crc {
                    Some(c) => c as u32,
                    None => 0u32,
                },
                max: 0,
            },
        )
    } else {
        None
    }
}

proof fn lemma_width_append(a: Seq<(u32, u32)>, b: Seq<(u32, u32)>, k: nat)
    requires
        k <= b.len(),
    ensures
        width_upto(a + b, a.len() + k) == width_upto(a, a.len()) + width_upto(b, k),
    decreases k,
{
    if k == 0 {
        lemma_width_prefix(a, b, a.len());
    } else {
        lemma_width_append(a, b, (k - 1) as nat);
    }
}

proof fn lemma_width_prefix(a: Seq<(u32, u32)>, b: Seq<(u32, u32)>, k: nat)
    requires
        k <= a.len(),
    ensures
        width_upto(a + b, k) == width_upto(a, k),
    decreases k,
{
    if k > 0 {
        lemma_width_prefix(a, b, (k - 1) as nat);
    }
}

proof fn lemma_width_a(h: DtsFrameHeader)
    ensures
        header_fields_a(h).len() == 6,
        width_upto(header_fields_a(h), 0) == 0,
        width_upto(header_fields_a(h), 1) == 32,
        width_upto(header_fields_a(h), 2) == 33,
        width_upto(header_fields_a(h), 3) == 38,
        width_upto(header_fields_a(h), 4) == 39,
        width_upto(header_fields_a(h), 5) == 46,
        width_upto(header_fields_a(h), 6) == 60,
{
    reveal(header_fields_a);
    let fa = header_fields_a(h);
    assert(width_upto(fa, 0) == 0);
    assert(width_upto(fa, 1) == 32);
    assert(width_upto(fa, 2) == 33);
    assert(width_upto(fa, 3) == 38);
    assert(width_upto(fa, 4) == 39);
    assert(width_upto(fa, 5) == 46);
}

proof fn lemma_width_b(h: DtsFrameHeader)
    ensures
        header_fields_b(h).len() == 7,
        width_upto(header_fields_b(h), 0) == 0,
        width_upto(header_fields_b(h), 1) == 6,
        width_upto(header_fields_b(h), 2) == 10,
        width_upto(header_fields_b(h), 3) == 15,
        width_upto(header_fields_b(h), 4) == 16,
        width_upto(header_fields_b(h), 5) == 17,
        width_upto(header_fields_b(h), 6) == 18,
        width_upto(header_fields_b(h), 7) == 19,
{
    reveal(header_fields_b);
    let fb = header_fields_b(h);
    assert(width_upto(fb, 0) == 0);
    assert(width_upto(fb, 1) == 6);
    assert(width_upto(fb, 2) == 10);
    assert(width_upto(fb, 3) == 15);
    assert(width_upto(fb, 4) == 16);
    assert(width_upto(fb, 5) == 17);
    assert(width_upto(fb, 6) == 18);
}

proof fn lemma_width_c(h: DtsFrameHeader)
    ensures
        header_fields_c(h).len() == 6,
        width_upto(header_fields_c(h), 0) == 0,
        width_upto(header_fields_c(h), 1) == 1,
        width_upto(header_fields_c(h), 2) == 4,
        width_upto(header_fields_c(h), 3) == 5,
        width_upto(header_fields_c(h), 4) == 6,
        width_upto(header_fields_c(h), 5) == 8,
        width_upto(header_fields_c(h), 6) == 9,
{
    reveal(header_fields_c);
    let fc = header_fields_c(h);
    assert(width_upto(fc, 0) == 0);
    assert(width_upto(fc, 1) == 1);
    assert(width_upto(fc, 2) == 4);
    assert(width_upto(fc, 3) == 5);
    assert(width_upto(fc, 4) == 6);
    assert(width_upto(fc, 5) == 8);
}

proof fn lemma_width_post(h: DtsFrameHeader)
    ensures
        header_fields_post(h).len() == 7,
        width_upto(header_fields_post(h), 0) == 0,
        width_upto(header_fields_post(h), 1) == 1,
        width_upto(header_fields_post(h), 2) == 5,
        width_upto(header_fields_post(h), 3) == 7,
        width_upto(header_fields_post(h), 4) == 10,
        width_upto(header_fields_post(h), 5) == 11,
        width_upto(header_fields_post(h), 6) == 12,
        width_upto(header_fields_post(h), 7) == 16,
{
    reveal(header_fields_post);
    let fp = header_fields_post(h);
    assert(width_upto(fp, 0) == 0);
    assert(width_upto(fp, 1) == 1);
    assert(width_upto(fp, 2) == 5);
    assert(width_upto(fp, 3) == 7);
    assert(width_upto(fp, 4) == 10);
    assert(width_upto(fp, 5) == 11);
    assert(width_upto(fp, 6) == 12);
}

proof fn lemma_width_crc(h: DtsFrameHeader)
    ensures
        header_fields_crc(h).len() == if h.header_crc is Some {
            1nat
        } else {
            0nat
        },
        width_upto(header_fields_crc(h), header_fields_crc(h).len()) == if h.header_crc is Some {
            16nat
        } else {
            0nat
        },
{
    reveal(header_fields_crc);
    let fcrc = header_fields_crc(h);
    assert(width_upto(fcrc, 0) == 0);
}

proof fn lemma_chunk_widths(h: DtsFrameHeader)
    requires
        h.crc_present == (h.header_crc is Some),
    ensures
        header_fields_a(h).len() == 6,
        header_fields_b(h).len() == 7,
        header_fields_c(h).len() == 6,
        header_fields_post(h).len() == 7,
        width_upto(header_fields_a(h), 6) == 60,
        width_upto(header_fields_b(h), 7) == 19,
        width_upto(header_fields_c(h), 6) == 9,
        width_upto(header_fields_post(h), 7) == 16,
        header_fields_crc(h).len() == if h.crc_present {
            1nat
        } else {
            0nat
        },
        width_upto(header_fields_crc(h), header_fields_crc(h).len()) == if h.crc_present {
            16nat
        } else {
            0nat
        },
{
    lemma_width_a(h);
    lemma_width_b(h);
    lemma_width_c(h);
    lemma_width_post(h);
    lemma_width_crc(h);
}

proof fn lemma_header_fields_width(h: DtsFrameHeader)
    requires
        h.crc_present == (h.header_crc is Some),
    ensures
        width_upto(header_fields(h), header_fields(h).len()) == spec_header_bit_length(
            h.crc_present,
        ),
{
    let fa = header_fields_a(h);
    let fb = header_fields_b(h);
    let fc = header_fields_c(h);
    let c = header_fields_crc(h);
    let p = header_fields_post(h);
    lemma_chunk_widths(h);
    lemma_width_append(fa, fb, 7);
    lemma_width_append(fa + fb, fc, 6);
    lemma_width_append(fa + fb + fc, c, c.len());
    lemma_width_append(fa + fb + fc + c, p, 7);
}

proof fn lemma_header_fields_narrow(h: DtsFrameHeader)
    ensures
        forall|j: int| 0 <= j < header_fields(h).len() ==> #[trigger] header_fields(h)[j].1 <= 32,
{
    reveal(header_fields_a);
    reveal(header_fields_b);
    reveal(header_fields_c);
    reveal(header_fields_crc);
    reveal(header_fields_post);
    let all = header_fields(h);
    let base = header_fields_base(h);
    let fa = header_fields_a(h);
    let fb = header_fields_b(h);
    let fc = header_fields_c(h);
    let c = header_fields_crc(h);
    let p = header_fields_post(h);
    assert forall|j: int| 0 <= j < fa.len() implies #[trigger] fa[j].1 <= 32 by {}
    assert forall|j: int| 0 <= j < fb.len() implies #[trigger] fb[j].1 <= 32 by {}
    assert forall|j: int| 0 <= j < fc.len() implies #[trigger] fc[j].1 <= 32 by {}
    assert forall|j: int| 0 <= j < c.len() implies #[trigger] c[j].1 <= 32 by {}
    assert forall|j: int| 0 <= j < p.len() implies #[trigger] p[j].1 <= 32 by {}
    assert forall|j: int| 0 <= j < base.len() implies #[trigger] base[j].1 <= 32 by {
        if j < fa.len() {
            assert(base[j] == fa[j]);
        } else if j < fa.len() + fb.len() {
            assert(base[j] == fb[j - fa.len()]);
        } else {
            assert(base[j] == fc[j - fa.len() - fb.len()]);
        }
    }
    assert forall|j: int| 0 <= j < all.len() implies #[trigger] all[j].1 <= 32 by {
        if j < base.len() {
            assert(all[j] == base[j]);
        } else if j < base.len() + c.len() {
            assert(all[j] == c[j - base.len()]);
        } else {
            assert(all[j] == p[j - base.len() - c.len()]);
        }
    }
}

fn flag_exec(b: bool) -> (v: u32)
    ensures
        v == flag(b),
{
    if b {
        1
    } else {
        0
    }
}

proof fn lemma_fields_bits_len(fs: Seq<(u32, u32)>, k: nat)
    ensures
        fields_bits_upto(fs, k).len() == width_upto(fs, k),
    decreases k,
{
    if k > 0 {
        lemma_fields_bits_len(fs, (k - 1) as nat);
    }
}

fn fields_a_exec(header: &DtsFrameHeader) -> (fs: Vec<(u32, u32)>)
    requires
        header.sample_count_per_block >= 1,
        header.frame_size_bytes >= 1,
    ensures
        fs@ == header_fields_a(*header),
{
    reveal(header_fields_a);
    let ft: u32 = match header.frame_type {
        FrameType::Termination => 0u32,
        FrameType::Normal => 1u32,
    };
    let v = vec![
        (0x7FFE_8001u32, 32u32),
        (ft, 1u32),
        ((header.sample_count_per_block - 1) as u32, 5u32),
        (flag_exec(header.crc_present), 1u32),
        (header.blocks_per_frame as u32, 7u32),
        ((header.frame_size_bytes - 1) as u32, 14u32),
    ];
    assert(v@ =~= header_fields_a(*header));
    v
}

fn fields_b_exec(header: &DtsFrameHeader) -> (fs: Vec<(u32, u32)>)
    ensures
        fs@ == header_fields_b(*header),
{
    reveal(header_fields_b);
    let v = vec![
        (header.amode as u32, 6u32),
        (header.sfreq_index as u32, 4u32),
        (header.rate_index as u32, 5u32),
        (flag_exec(header.downmix), 1u32),
        (flag_exec(header.dynamic_range), 1u32),
        (flag_exec(header.time_stamp), 1u32),
        (flag_exec(header.aux_data), 1u32),
    ];
    assert(v@ =~= header_fields_b(*header));
    v
}

fn fields_c_exec(header: &DtsFrameHeader) -> (fs: Vec<(u32, u32)>)
    ensures
        fs@ == header_fields_c(*header),
{
    reveal(header_fields_c);
    let v = vec![
        (flag_exec(header.hdcd), 1u32),
        (header.ext_descr as u32, 3u32),
        (flag_exec(header.ext_coding), 1u32),
        (flag_exec(header.aspf), 1u32),
        (header.lfe.code() as u32, 2u32),
        (flag_exec(header.predictor_history), 1u32),
    ];
    assert(v@ =~= header_fields_c(*header));
    v
}

fn fields_crc_exec(header: &DtsFrameHeader) -> (fs: Vec<(u32, u32)>)
    ensures
        fs@ == header_fields_crc(*header),
{
    reveal(header_fields_crc);
    let mut v: Vec<(u32, u32)> = Vec::new();
    if let Some(crc) = header.header_crc {
        v.push((crc as u32, 16u32));
    }
    assert(v@ =~= header_fields_crc(*header));
    v
}

fn fields_post_exec(header: &DtsFrameHeader) -> (fs: Vec<(u32, u32)>)
    ensures
        fs@ == header_fields_post(*header),
{
    reveal(header_fields_post);
    let v = vec![
        (flag_exec(header.multirate_inter), 1u32),
        (header.version as u32, 4u32),
        (header.copy_history as u32, 2u32),
        (header.source_pcm_resolution_index as u32, 3u32),
        (flag_exec(header.front_sum), 1u32),
        (flag_exec(header.surround_sum), 1u32),
        (header.dialog_normalization as u32, 4u32),
    ];
    assert(v@ =~= header_fields_post(*header));
    v
}

/// The encoder's field list for a header whose SHORT and FSIZE fields are
/// in range.
fn build_fields(header: &DtsFrameHeader) -> (fs: Vec<(u32, u32)>)
    requires
        header.sample_count_per_block >= 1,
        header.frame_size_bytes >= 1,
    ensures
        fs@ == header_fields(*header),
{
    let mut fs = fields_a_exec(header);
    let mut b = fields_b_exec(header);
    let mut c = fields_c_exec(header);
    let mut crc = fields_crc_exec(header);
    let mut post = fields_post_exec(header);
    fs.append(&mut b);
    fs.append(&mut c);
    fs.append(&mut crc);
    fs.append(&mut post);
    assert(fs@ =~= header_fields(*header));
    fs
}

/// Serialise `header` into the raw big-endian header window (13 or 15
/// bytes, always starting with `7F FE 80 01`), after checking every field
/// against its bit width.
#[verifier::rlimit(40)]
pub fn encode_frame_header_be(header: &DtsFrameHeader) -> (res: Result<Vec<u8>, Error>)
    ensures
        res is Err <==> spec_encode_error(*header) is Some,
        res matches Err(e) ==> spec_encode_error(*header) == Some(e),
        res matches Ok(out) ==> out@.len() * 8 == spec_header_bit_length(header.crc_present)
            && bits_of(out@) == fields_bits(header_fields(*header)),
{
    if header.blocks_per_frame < 5 || header.blocks_per_frame > 127 {
        return Err(Error::BlockCountOutOfRange { blocks: header.blocks_per_frame });
    }
    if header.frame_size_bytes < 95 || header.frame_size_bytes > 16384 {
        return Err(Error::FrameSizeOutOfRange { frame_size: header.frame_size_bytes });
    }
    if header.sample_count_per_block == 0 || header.sample_count_per_block > 32 {
        return Err(
            Error::FieldOutOfRange {
                field: "sample_count_per_block",
                value: header.sample_count_per_block as u32,
                max: 32,
            },
        );
    }
    if header.amode > 63 {
        return Err(Error::FieldOutOfRange { field: "amode", value: header.amode as u32, max: 63 });
    }
    if header.sfreq_index > 15 {
        return Err(
            Error::FieldOutOfRange {
                field: "sfreq_index",
                value: header.sfreq_index as u32,
                max: 15,
            },
        );
    }
    if header.rate_index > 31 {
        return Err(
            Error::FieldOutOfRange { field: "rate_index", value: header.rate_index as u32, max: 31 },
        );
    }
    if header.ext_descr > 7 {
        return Err(
            Error::FieldOutOfRange { field: "ext_descr", value: header.ext_descr as u32, max: 7 },
        );
    }
    if header.version > 15 {
        return Err(
            Error::FieldOutOfRange { field: "version", value: header.version as u32, max: 15 },
        );
    }
    if header.copy_history > 3 {
        return Err(
            Error::FieldOutOfRange {
                field: "copy_history",
                value: header.copy_history as u32,
                max: 3,
            },
        );
    }
    if header.source_pcm_resolution_index > 7 {
        return Err(
            Error::FieldOutOfRange {
                field: "source_pcm_resolution_index",
                value: header.source_pcm_resolution_index as u32,
                max: 7,
            },
        );
    }
    if header.dialog_normalization > 15 {
        return Err(
            Error::FieldOutOfRange {
                field: "dialog_normalization",
                value: header.dialog_normalization as u32,
                max: 15,
            },
        );
    }
    let crc_is_some = match header.header_crc {
        Some(_) => true,
        None => false,
    };
    if header.crc_present != crc_is_some {
        let v: u32 = match header.header_crc {
            Some(c) => c as u32,
            None => 0,
        };
        return Err(Error::FieldOutOfRange { field: "header_crc", value: v, max: 0 });
    }
    let fs = build_fields(header);
    let ghost spec_fs = header_fields(*header);
    proof {
        lemma_header_fields_narrow(*header);
    }
    // Write every field MSB-first into a bit vector.
    let mut bv: Vec<bool> = Vec::with_capacity(120);
    let mut k: usize = 0;
    while k < fs.len()
        invariant
            k <= fs@.len(),
            fs@ == spec_fs,
            forall|j: int| 0 <= j < spec_fs.len() ==> #[trigger] spec_fs[j].1 <= 32,
            bv@ == fields_bits_upto(spec_fs, k as nat),
        decreases fs@.len() - k,
    {
        let (v, w) = fs[k];
        push_bits(&mut bv, v, w);
        k = k + 1;
    }
    proof {
        lemma_fields_bits_len(spec_fs, spec_fs.len());
        lemma_header_fields_width(*header);
        assert(bv@.len() == spec_header_bit_length(header.crc_present));
        assert(padded_bits(bv@) =~= bv@);
    }
    let out = pack_bits(&bv);
    Ok(out)
}


// ---------------------------------------------------------------------
// Round trip: parsing what the encoder wrote
// ---------------------------------------------------------------------

proof fn lemma_width_mono(fs: Seq<(u32, u32)>, i: nat, j: nat)
    requires
        i <= j,
    ensures
        width_upto(fs, i) <= width_upto(fs, j),
    decreases j,
{
    if i < j {
        lemma_width_mono(fs, i, (j - 1) as nat);
    }
}

/// Field `k` of a field list occupies its own slot of the bit stream.
proof fn lemma_fields_piece(fs: Seq<(u32, u32)>, n: nat, k: nat)
    requires
        k < n,
    ensures
        fields_bits_upto(fs, n).subrange(width_upto(fs, k) as int, width_upto(fs, k + 1) as int)
            == uint_bits(fs[k as int].0, fs[k as int].1 as nat),
    decreases n,
{
    lemma_fields_bits_len(fs, (n - 1) as nat);
    let x = fields_bits_upto(fs, (n - 1) as nat);
    let y = uint_bits(fs[n - 1].0, fs[n - 1].1 as nat);
    if k == n - 1 {
        assert((x + y).subrange(x.len() as int, (x.len() + y.len()) as int) =~= y);
    } else {
        lemma_fields_piece(fs, (n - 1) as nat, k);
        lemma_width_mono(fs, k + 1, (n - 1) as nat);
        assert((x + y).subrange(width_upto(fs, k) as int, width_upto(fs, k + 1) as int)
            =~= x.subrange(width_upto(fs, k) as int, width_upto(fs, k + 1) as int));
    }
}

/// Every field of a list can be read back from the list's bits.
proof fn lemma_fields_read(fs: Seq<(u32, u32)>, k: nat)
    requires
        k < fs.len(),
        fs[k as int].1 <= 32,
        (fs[k as int].0 as nat) < two_pow(fs[k as int].1 as nat),
    ensures
        fld(fields_bits(fs), width_upto(fs, k) as int, fs[k as int].1 as int) == fs[k as int].0,
{
    lemma_fields_piece(fs, fs.len(), k);
    lemma_uint_bits_value(fs[k as int].0, fs[k as int].1 as nat);
}

proof fn lemma_fields_bits_prefix(a: Seq<(u32, u32)>, b: Seq<(u32, u32)>, k: nat)
    requires
        k <= a.len(),
    ensures
        fields_bits_upto(a + b, k) == fields_bits_upto(a, k),
    decreases k,
{
    if k > 0 {
        lemma_fields_bits_prefix(a, b, (k - 1) as nat);
    }
}

proof fn lemma_fields_bits_append_upto(a: Seq<(u32, u32)>, b: Seq<(u32, u32)>, k: nat)
    requires
        k <= b.len(),
    ensures
        fields_bits_upto(a + b, a.len() + k) == fields_bits(a) + fields_bits_upto(b, k),
    decreases k,
{
    if k == 0 {
        lemma_fields_bits_prefix(a, b, a.len());
        assert(fields_bits(a) + Seq::<bool>::empty() =~= fields_bits(a));
    } else {
        lemma_fields_bits_append_upto(a, b, (k - 1) as nat);
        assert((a + b)[a.len() + k - 1] == b[k - 1]);
        let u = uint_bits(b[k - 1].0, b[k - 1].1 as nat);
        assert(fields_bits(a) + fields_bits_upto(b, (k - 1) as nat) + u =~= fields_bits(a) + (
        fields_bits_upto(b, (k - 1) as nat) + u));
    }
}

/// The bits of a concatenated field list are the concatenated bits.
proof fn lemma_fields_bits_append(a: Seq<(u32, u32)>, b: Seq<(u32, u32)>)
    ensures
        fields_bits(a + b) == fields_bits(a) + fields_bits(b),
{
    lemma_fields_bits_append_upto(a, b, b.len());
}

/// A field read inside an embedded sub-stream.
proof fn lemma_fld_shift(w: Seq<bool>, f: Seq<bool>, s: int, i: int, n: int)
    requires
        0 <= s,
        s + f.len() <= w.len(),
        w.subrange(s, s + f.len()) == f,
        0 <= i,
        0 <= n,
        i + n <= f.len(),
    ensures
        fld(w, s + i, n) == fld(f, i, n),
{
    assert(w.subrange(s + i, s + i + n) =~= f.subrange(i, i + n));
}

/// The powers of two of the header's field widths.
pub proof fn lemma_small_pows()
    ensures
        two_pow(1) == 2,
        two_pow(2) == 4,
        two_pow(3) == 8,
        two_pow(4) == 16,
        two_pow(5) == 32,
        two_pow(6) == 64,
        two_pow(7) == 128,
        two_pow(14) == 16384,
        two_pow(16) == 65536,
        two_pow(32) == 0x1_0000_0000,
{
    lemma_two_pow_32();
    reveal_with_fuel(two_pow, 17);
}

/// The frame size a header carries at bit 46 of a stream of at least 60
/// bits lies in `1..=16384`.
proof fn lemma_fsize_field_bound(bits: Seq<bool>)
    requires
        bits.len() >= 60,
    ensures
        fld(bits, 46, 14) + 1 <= 16384,
{
    lemma_bits_value_bound(bits.subrange(46, 60));
    lemma_small_pows();
}

/// Every header the 16-bit parser accepts declares a frame of 95 to
/// 16384 bytes, which leaves at least 80 bytes after the header window.
pub proof fn lemma_parsed_frame_size(b: Seq<u8>)
    ensures
        spec_parse_frame_header(b) matches Ok(h) ==> 95 <= h.frame_size_bytes <= 16384
            && h.frame_size_bytes - spec_header_bit_length(h.crc_present) / 8 >= 80,
{
    match spec_detect_sync(b) {
        Ok(SyncWordEncoding::RawBigEndian) => {
            if b.len() >= 15 {
                lemma_fsize_field_bound(bits_of(b));
            }
        },
        Ok(SyncWordEncoding::RawLittleEndian) => {
            if b.len() >= 15 {
                lemma_fsize_field_bound(bits_of(le_window(b)));
            }
        },
        _ => {},
    }
}

/// The encoder accepts exactly the headers whose fields fit their widths
/// and ranges and whose CRC flag agrees with the CRC value.
pub proof fn lemma_encode_accepts(h: DtsFrameHeader)
    ensures
        spec_encode_error(h) is None <==> {
            &&& 5 <= h.blocks_per_frame <= 127
            &&& 95 <= h.frame_size_bytes <= 16384
            &&& 1 <= h.sample_count_per_block <= 32
            &&& h.amode <= 63
            &&& h.sfreq_index <= 15
            &&& h.rate_index <= 31
            &&& h.ext_descr <= 7
            &&& h.version <= 15
            &&& h.copy_history <= 3
            &&& h.source_pcm_resolution_index <= 7
            &&& h.dialog_normalization <= 15
            &&& h.crc_present == h.header_crc is Some
        },
{
}

/// A raw big-endian header of at least 15 bytes is refused for its block
/// count below 5 (`NBLKS`, bits 39..46), else for its frame size below 95
/// (`FSIZE + 1`, bits 46..60), and is accepted otherwise.
pub proof fn lemma_parse_range_errors(b: Seq<u8>)
    requires
        b.len() >= 15,
        spec_detect_sync(b) == Ok::<SyncWordEncoding, Error>(SyncWordEncoding::RawBigEndian),
    ensures
        ({
            let n = fld(bits_of(b), 39, 7);
            let f = fld(bits_of(b), 46, 14);
            &&& n < 5 ==> spec_parse_frame_header(b) == Err::<DtsFrameHeader, Error>(
                Error::BlockCountOutOfRange { blocks: n as u8 },
            )
            &&& n >= 5 && f < 94 ==> spec_parse_frame_header(b) == Err::<DtsFrameHeader, Error>(
                Error::FrameSizeOutOfRange { frame_size: (f + 1) as u16 },
            )
            &&& n >= 5 && f >= 94 ==> spec_parse_frame_header(b) is Ok
        }),
{
}

/// A bit sequence is determined by its length and value.
proof fn lemma_bits_value_injective(x: Seq<bool>, y: Seq<bool>)
    requires
        x.len() == y.len(),
        bits_value(x) == bits_value(y),
    ensures
        x == y,
    decreases x.len(),
{
    if x.len() > 0 {
        lemma_bits_value_injective(x.drop_last(), y.drop_last());
        assert(x =~= x.drop_last().push(x.last()));
        assert(y =~= y.drop_last().push(y.last()));
    }
}

/// Two streams with the same value in a field agree on its bits.
proof fn lemma_field_bits_agree(b1: Seq<bool>, b2: Seq<bool>, pos: int, w: int)
    requires
        0 <= pos,
        0 <= w,
        pos + w <= b1.len(),
        pos + w <= b2.len(),
        fld(b1, pos, w) == fld(b2, pos, w),
    ensures
        forall|i: int| pos <= i < pos + w ==> #[trigger] b1[i] == b2[i],
{
    let x = b1.subrange(pos, pos + w);
    let y = b2.subrange(pos, pos + w);
    lemma_bits_value_injective(x, y);
    assert forall|i: int| pos <= i < pos + w implies #[trigger] b1[i] == b2[i] by {
        assert(x[i - pos] == b1[i] && y[i - pos] == b2[i]);
    }
}

/// A field's value is below `2^w`.
proof fn lemma_fld_lt(b: Seq<bool>, pos: int, w: int)
    requires
        0 <= pos,
        0 <= w,
        pos + w <= b.len(),
    ensures
        fld(b, pos, w) < two_pow(w as nat),
{
    lemma_bits_value_bound(b.subrange(pos, pos + w));
}

/// Both fields are below `2^w`, and when they are equal the streams agree
/// on the field's bits.
proof fn lemma_field_same(b1: Seq<bool>, b2: Seq<bool>, pos: int, w: int)
    requires
        0 <= pos,
        0 <= w,
        pos + w <= b1.len(),
        pos + w <= b2.len(),
    ensures
        fld(b1, pos, w) < two_pow(w as nat),
        fld(b2, pos, w) < two_pow(w as nat),
        fld(b1, pos, w) == fld(b2, pos, w) ==> forall|i: int|
            pos <= i < pos + w ==> #[trigger] b1[i] == b2[i],
{
    lemma_fld_lt(b1, pos, w);
    lemma_fld_lt(b2, pos, w);
    if fld(b1, pos, w) == fld(b2, pos, w) {
        lemma_field_bits_agree(b1, b2, pos, w);
    }
}

/// Two streams with the same sync bits that parse to the same header agree
/// on every bit of the header window.
proof fn lemma_header_bits_determined(b1: Seq<bool>, b2: Seq<bool>, s: SyncWordEncoding)
    requires
        b1.len() >= 120,
        b2.len() >= 120,
        forall|i: int| 0 <= i < 32 ==> b1[i] == b2[i],
        spec_header_from_bits(b1, s) is Ok,
        spec_header_from_bits(b1, s) == spec_header_from_bits(b2, s),
    ensures
        forall|i: int|
            0 <= i < spec_header_bit_length(spec_header_from_bits(b1, s)->Ok_0.crc_present) ==> b1[i]
                == b2[i],
{
    let h = spec_header_from_bits(b1, s)->Ok_0;
    lemma_small_pows();
    lemma_two_pow_32();
    reveal_with_fuel(two_pow, 17);
    let p: int = if h.crc_present {
        104
    } else {
        88
    };
    lemma_field_same(b1, b2, 32, 1);
    lemma_field_same(b1, b2, 33, 5);
    lemma_field_same(b1, b2, 38, 1);
    lemma_field_same(b1, b2, 39, 7);
    lemma_field_same(b1, b2, 46, 14);
    lemma_field_same(b1, b2, 60, 6);
    lemma_field_same(b1, b2, 66, 4);
    lemma_field_same(b1, b2, 70, 5);
    lemma_field_same(b1, b2, 75, 1);
    lemma_field_same(b1, b2, 76, 1);
    lemma_field_same(b1, b2, 77, 1);
    lemma_field_same(b1, b2, 78, 1);
    lemma_field_same(b1, b2, 79, 1);
    lemma_field_same(b1, b2, 80, 3);
    lemma_field_same(b1, b2, 83, 1);
    lemma_field_same(b1, b2, 84, 1);
    lemma_field_same(b1, b2, 85, 2);
    lemma_field_same(b1, b2, 87, 1);
    if h.crc_present {
        lemma_field_same(b1, b2, 88, 16);
    }
    lemma_field_same(b1, b2, p + 0, 1);
    lemma_field_same(b1, b2, p + 1, 4);
    lemma_field_same(b1, b2, p + 5, 2);
    lemma_field_same(b1, b2, p + 7, 3);
    lemma_field_same(b1, b2, p + 10, 1);
    lemma_field_same(b1, b2, p + 11, 1);
    lemma_field_same(b1, b2, p + 12, 4);
    assert forall|i: int| 0 <= i < spec_header_bit_length(h.crc_present) implies b1[i] == b2[i] by {
        if i < 32 {
        } else if i < 88 {
        } else {
        }
    }
}

/// The bit stream of the first `k` bytes is the first `8 * k` bits.
proof fn lemma_bits_of_prefix(b: Seq<u8>, k: int)
    requires
        0 <= k <= b.len(),
    ensures
        bits_of(b.subrange(0, k)) == bits_of(b).subrange(0, 8 * k),
{
    let l = bits_of(b.subrange(0, k));
    let r = bits_of(b).subrange(0, 8 * k);
    assert forall|i: int| 0 <= i < l.len() implies l[i] == r[i] by {
        assert(b.subrange(0, k)[i / 8] == b[i / 8]);
    }
    assert(l =~= r);
}

/// The encoder accepts every header the 16-bit parser returns.
proof fn lemma_parsed_header_encodable(b: Seq<u8>)
    ensures
        spec_parse_frame_header(b) matches Ok(h) ==> spec_encode_error(h) is None,
{
    if spec_parse_frame_header(b) is Ok {
        let h = spec_parse_frame_header(b)->Ok_0;
        lemma_parsed_frame_size(b);
        lemma_small_pows();
        let wb = if spec_detect_sync(b) == Ok::<SyncWordEncoding, Error>(
            SyncWordEncoding::RawBigEndian,
        ) {
            bits_of(b)
        } else {
            bits_of(le_window(b))
        };
        assert(wb.len() >= 120);
        lemma_fld_lt(wb, 33, 5);
        lemma_fld_lt(wb, 39, 7);
        lemma_fld_lt(wb, 60, 6);
        lemma_fld_lt(wb, 66, 4);
        lemma_fld_lt(wb, 70, 5);
        lemma_fld_lt(wb, 80, 3);
        let p: int = if h.crc_present {
            104
        } else {
            88
        };
        lemma_fld_lt(wb, p + 1, 4);
        lemma_fld_lt(wb, p + 5, 2);
        lemma_fld_lt(wb, p + 7, 3);
        lemma_fld_lt(wb, p + 12, 4);
    }
}

/// Parsing a raw big-endian header and re-encoding it reproduces the
/// header window bit for bit: the encoder accepts the parsed header, and
/// the bytes whose bits are the encoder's fields are the input's first
/// `header_byte_length` bytes.
#[verifier::rlimit(60)]
pub proof fn lemma_parse_encode_round_trip(b: Seq<u8>, out: Seq<u8>)
    requires
        spec_detect_sync(b) == Ok::<SyncWordEncoding, Error>(SyncWordEncoding::RawBigEndian),
        spec_parse_frame_header(b) is Ok,
        bits_of(out) == fields_bits(header_fields(spec_parse_frame_header(b)->Ok_0)),
    ensures
        spec_encode_error(spec_parse_frame_header(b)->Ok_0) is None,
        out == b.subrange(
            0,
            spec_header_bit_length(spec_parse_frame_header(b)->Ok_0.crc_present) as int / 8,
        ),
{
    let h = spec_parse_frame_header(b)->Ok_0;
    let wb = bits_of(b);
    lemma_parsed_header_encodable(b);
    let l = spec_header_bit_length(h.crc_present) as int;
    lemma_header_fields_width(h);
    lemma_fields_bits_len(header_fields(h), header_fields(h).len());
    assert(out.len() * 8 == l);
    let tail = b.subrange(out.len() as int, b.len() as int);
    lemma_encode_parse_round_trip(h, out, tail);
    let b2 = out + tail;
    lemma_round_trip_bits(b, out, tail);
    let w2 = bits_of(b2);
    lemma_bits_of_append(out, tail);
    let k = l / 8;
    lemma_bits_of_prefix(b, k);
    assert(bits_of(out) =~= bits_of(b.subrange(0, k))) by {
        assert forall|i: int| 0 <= i < l implies bits_of(out)[i] == w2[i] by {}
    }
    lemma_bits_of_injective(out, b.subrange(0, k));
}

/// A header the 16-bit parser returns reports the sync it found, and a
/// big-endian one comes from at least 15 bytes.
proof fn lemma_parse_reports_sync(x: Seq<u8>)
    ensures
        spec_parse_frame_header(x) matches Ok(h) ==> spec_detect_sync(x) == Ok::<
            SyncWordEncoding,
            Error,
        >(h.sync_word_encoding) && x.len() >= 15,
{
}

/// Two big-endian buffers agree on their 32 sync bits.
proof fn lemma_sync_bits_agree(x: Seq<u8>, y: Seq<u8>)
    requires
        spec_detect_sync(x) == Ok::<SyncWordEncoding, Error>(SyncWordEncoding::RawBigEndian),
        spec_detect_sync(y) == Ok::<SyncWordEncoding, Error>(SyncWordEncoding::RawBigEndian),
    ensures
        forall|i: int| 0 <= i < 32 ==> bits_of(x)[i] == bits_of(y)[i],
{
    assert forall|i: int| 0 <= i < 32 implies bits_of(x)[i] == bits_of(y)[i] by {
        assert(0 <= i / 8 < 4);
        assert(x[i / 8] == y[i / 8]);
    }
}

/// A big-endian buffer of at least 15 bytes parses as its bit stream.
proof fn lemma_parse_be(x: Seq<u8>)
    requires
        spec_detect_sync(x) == Ok::<SyncWordEncoding, Error>(SyncWordEncoding::RawBigEndian),
        x.len() >= 15,
    ensures
        spec_parse_frame_header(x) == spec_header_from_bits(bits_of(x), SyncWordEncoding::RawBigEndian),
{
}

/// The re-encoded window followed by the rest of the input agrees with
/// the input on every header bit.
#[verifier::rlimit(40)]
proof fn lemma_round_trip_bits(b: Seq<u8>, out: Seq<u8>, tail: Seq<u8>)
    requires
        spec_detect_sync(b) == Ok::<SyncWordEncoding, Error>(SyncWordEncoding::RawBigEndian),
        spec_parse_frame_header(b) is Ok,
        spec_parse_frame_header(out + tail) == Ok::<DtsFrameHeader, Error>(
            DtsFrameHeader {
                sync_word_encoding: SyncWordEncoding::RawBigEndian,
                ..spec_parse_frame_header(b)->Ok_0
            },
        ),
        out.len() + tail.len() == b.len(),
    ensures
        forall|i: int|
            0 <= i < spec_header_bit_length(spec_parse_frame_header(b)->Ok_0.crc_present) ==> bits_of(
                out + tail,
            )[i] == bits_of(b)[i],
{
    let b2 = out + tail;
    let wb = bits_of(b);
    let w2 = bits_of(b2);
    let r = spec_parse_frame_header(b);
    let h = r->Ok_0;
    lemma_parse_reports_sync(b);
    lemma_parse_reports_sync(b2);
    assert(h.sync_word_encoding == SyncWordEncoding::RawBigEndian);
    assert(DtsFrameHeader { sync_word_encoding: SyncWordEncoding::RawBigEndian, ..h } == h);
    lemma_parse_be(b);
    lemma_parse_be(b2);
    lemma_sync_bits_agree(b2, b);
    assert(spec_header_from_bits(w2, SyncWordEncoding::RawBigEndian) == spec_header_from_bits(
        wb,
        SyncWordEncoding::RawBigEndian,
    ));
    lemma_header_bits_determined(w2, wb, SyncWordEncoding::RawBigEndian);
}

/// Reads of a chunk embedded at bit `s` of `w`.
proof fn lemma_chunk_read(w: Seq<bool>, s: int, chunk: Seq<(u32, u32)>, k: nat)
    requires
        0 <= s,
        s + fields_bits(chunk).len() <= w.len(),
        w.subrange(s, s + fields_bits(chunk).len()) == fields_bits(chunk),
        k < chunk.len(),
        chunk[k as int].1 <= 32,
        (chunk[k as int].0 as nat) < two_pow(chunk[k as int].1 as nat),
    ensures
        fld(w, s + width_upto(chunk, k), chunk[k as int].1 as int) == chunk[k as int].0,
{
    lemma_fields_read(chunk, k);
    lemma_fields_piece(chunk, chunk.len(), k);
    lemma_fields_bits_len(chunk, chunk.len());
    lemma_width_mono(chunk, k + 1, chunk.len());
    lemma_fld_shift(
        w,
        fields_bits(chunk),
        s,
        width_upto(chunk, k) as int,
        chunk[k as int].1 as int,
    );
}

proof fn lemma_sync_bytes(k: u32)
    requires
        k < 8,
    ensures
        byte_bit(0x7Fu8, k as int) == ((0x7FFE_8001u32 >> (31 - k) as u32) & 1u32 == 1u32),
        byte_bit(0xFEu8, k as int) == ((0x7FFE_8001u32 >> (23 - k) as u32) & 1u32 == 1u32),
        byte_bit(0x80u8, k as int) == ((0x7FFE_8001u32 >> (15 - k) as u32) & 1u32 == 1u32),
        byte_bit(0x01u8, k as int) == ((0x7FFE_8001u32 >> (7 - k) as u32) & 1u32 == 1u32),
{
    let kk = k as u8;
    assert(((0x7Fu8 >> (7 - kk) as u8) & 1u8 == 1u8) == ((0x7FFE_8001u32 >> (31 - k) as u32) & 1u32
        == 1u32)) by (bit_vector)
        requires
            k < 8,
            kk == k,
    ;
    assert(((0xFEu8 >> (7 - kk) as u8) & 1u8 == 1u8) == ((0x7FFE_8001u32 >> (23 - k) as u32) & 1u32
        == 1u32)) by (bit_vector)
        requires
            k < 8,
            kk == k,
    ;
    assert(((0x80u8 >> (7 - kk) as u8) & 1u8 == 1u8) == ((0x7FFE_8001u32 >> (15 - k) as u32) & 1u32
        == 1u32)) by (bit_vector)
        requires
            k < 8,
            kk == k,
    ;
    assert(((0x01u8 >> (7 - kk) as u8) & 1u8 == 1u8) == ((0x7FFE_8001u32 >> (7 - k) as u32) & 1u32
        == 1u32)) by (bit_vector)
        requires
            k < 8,
            kk == k,
    ;
}

/// A byte stream whose first 32 bits are the raw big-endian sync word
/// starts with `7F FE 80 01`.
proof fn lemma_sync_prefix(b: Seq<u8>)
    requires
        b.len() >= 4,
        bits_of(b).subrange(0, 32) == uint_bits(0x7FFE_8001u32, 32),
    ensures
        b[0] == 0x7F && b[1] == 0xFE && b[2] == 0x80 && b[3] == 0x01,
{
    let w = bits_of(b);
    let u = uint_bits(0x7FFE_8001u32, 32);
    assert forall|j: int, k: int| 0 <= j < 4 && 0 <= k < 8 implies byte_bit(b[j], k) == #[trigger] u[8
        * j + k] by {
        assert(w.subrange(0, 32)[8 * j + k] == w[8 * j + k]);
        assert((8 * j + k) / 8 == j && (8 * j + k) % 8 == k);
    }
    assert forall|k: int| 0 <= k < 8 implies byte_bit(b[0], k) == byte_bit(0x7Fu8, k) by {
        lemma_sync_bytes(k as u32);
        assert(u[8 * 0 + k] == u[k]);
    }
    assert forall|k: int| 0 <= k < 8 implies byte_bit(b[1], k) == byte_bit(0xFEu8, k) by {
        lemma_sync_bytes(k as u32);
        assert(u[8 * 1 + k] == u[8 + k]);
    }
    assert forall|k: int| 0 <= k < 8 implies byte_bit(b[2], k) == byte_bit(0x80u8, k) by {
        lemma_sync_bytes(k as u32);
        assert(u[8 * 2 + k] == u[16 + k]);
    }
    assert forall|k: int| 0 <= k < 8 implies byte_bit(b[3], k) == byte_bit(0x01u8, k) by {
        lemma_sync_bytes(k as u32);
        assert(u[8 * 3 + k] == u[24 + k]);
    }
    lemma_byte_from_bits(b[0], 0x7Fu8);
    lemma_byte_from_bits(b[1], 0xFEu8);
    lemma_byte_from_bits(b[2], 0x80u8);
    lemma_byte_from_bits(b[3], 0x01u8);
}

proof fn lemma_bits_of_append(x: Seq<u8>, y: Seq<u8>)
    ensures
        bits_of(x + y) == bits_of(x) + bits_of(y),
{
    let l = bits_of(x + y);
    let r = bits_of(x) + bits_of(y);
    assert forall|i: int| 0 <= i < l.len() implies l[i] == r[i] by {
        if i < x.len() * 8 {
            assert((x + y)[i / 8] == x[i / 8]);
        } else {
            let j = i - x.len() * 8;
            assert(j / 8 == i / 8 - x.len() && j % 8 == i % 8);
            assert((x + y)[i / 8] == y[j / 8]);
        }
    }
    assert(l =~= r);
}


proof fn lemma_read_chunk_a(w: Seq<bool>, h: DtsFrameHeader)
    requires
        spec_encode_error(h) is None,
        w.len() >= 60,
        w.subrange(0, 60) == fields_bits(header_fields_a(h)),
    ensures
        fld(w, 32, 1) == flag(h.frame_type == FrameType::Normal),
        fld(w, 33, 5) == h.sample_count_per_block - 1,
        fld(w, 38, 1) == flag(h.crc_present),
        fld(w, 39, 7) == h.blocks_per_frame,
        fld(w, 46, 14) == h.frame_size_bytes - 1,
{
    reveal(header_fields_a);
    let c = header_fields_a(h);
    lemma_width_a(h);
    lemma_small_pows();
    lemma_fields_bits_len(c, c.len());
    lemma_chunk_read(w, 0, c, 1);
    lemma_chunk_read(w, 0, c, 2);
    lemma_chunk_read(w, 0, c, 3);
    lemma_chunk_read(w, 0, c, 4);
    lemma_chunk_read(w, 0, c, 5);
}

proof fn lemma_read_chunk_b(w: Seq<bool>, h: DtsFrameHeader)
    requires
        spec_encode_error(h) is None,
        w.len() >= 79,
        w.subrange(60, 79) == fields_bits(header_fields_b(h)),
    ensures
        fld(w, 60, 6) == h.amode,
        fld(w, 66, 4) == h.sfreq_index,
        fld(w, 70, 5) == h.rate_index,
        fld(w, 75, 1) == flag(h.downmix),
        fld(w, 76, 1) == flag(h.dynamic_range),
        fld(w, 77, 1) == flag(h.time_stamp),
        fld(w, 78, 1) == flag(h.aux_data),
{
    reveal(header_fields_b);
    let c = header_fields_b(h);
    lemma_width_b(h);
    lemma_small_pows();
    lemma_fields_bits_len(c, c.len());
    lemma_chunk_read(w, 60, c, 0);
    lemma_chunk_read(w, 60, c, 1);
    lemma_chunk_read(w, 60, c, 2);
    lemma_chunk_read(w, 60, c, 3);
    lemma_chunk_read(w, 60, c, 4);
    lemma_chunk_read(w, 60, c, 5);
    lemma_chunk_read(w, 60, c, 6);
}

proof fn lemma_read_chunk_c(w: Seq<bool>, h: DtsFrameHeader)
    requires
        spec_encode_error(h) is None,
        w.len() >= 88,
        w.subrange(79, 88) == fields_bits(header_fields_c(h)),
    ensures
        fld(w, 79, 1) == flag(h.hdcd),
        fld(w, 80, 3) == h.ext_descr,
        fld(w, 83, 1) == flag(h.ext_coding),
        fld(w, 84, 1) == flag(h.aspf),
        fld(w, 85, 2) == lfe_code(h.lfe),
        fld(w, 87, 1) == flag(h.predictor_history),
{
    reveal(header_fields_c);
    let c = header_fields_c(h);
    lemma_width_c(h);
    lemma_small_pows();
    lemma_fields_bits_len(c, c.len());
    lemma_chunk_read(w, 79, c, 0);
    lemma_chunk_read(w, 79, c, 1);
    lemma_chunk_read(w, 79, c, 2);
    lemma_chunk_read(w, 79, c, 3);
    lemma_chunk_read(w, 79, c, 4);
    lemma_chunk_read(w, 79, c, 5);
}

proof fn lemma_read_chunk_post(w: Seq<bool>, h: DtsFrameHeader, s: int)
    requires
        spec_encode_error(h) is None,
        0 <= s,
        w.len() >= s + 16,
        w.subrange(s, s + 16) == fields_bits(header_fields_post(h)),
    ensures
        fld(w, s, 1) == flag(h.multirate_inter),
        fld(w, s + 1, 4) == h.version,
        fld(w, s + 5, 2) == h.copy_history,
        fld(w, s + 7, 3) == h.source_pcm_resolution_index,
        fld(w, s + 10, 1) == flag(h.front_sum),
        fld(w, s + 11, 1) == flag(h.surround_sum),
        fld(w, s + 12, 4) == h.dialog_normalization,
{
    reveal(header_fields_post);
    let c = header_fields_post(h);
    lemma_width_post(h);
    lemma_small_pows();
    lemma_fields_bits_len(c, c.len());
    lemma_chunk_read(w, s, c, 0);
    lemma_chunk_read(w, s, c, 1);
    lemma_chunk_read(w, s, c, 2);
    lemma_chunk_read(w, s, c, 3);
    lemma_chunk_read(w, s, c, 4);
    lemma_chunk_read(w, s, c, 5);
    lemma_chunk_read(w, s, c, 6);
}

proof fn lemma_read_chunk_crc(w: Seq<bool>, h: DtsFrameHeader)
    requires
        h.header_crc is Some,
        w.len() >= 104,
        w.subrange(88, 104) == fields_bits(header_fields_crc(h)),
    ensures
        fld(w, 88, 16) == h.header_crc->0,
{
    reveal(header_fields_crc);
    let c = header_fields_crc(h);
    lemma_width_crc(h);
    assert(width_upto(c, 0) == 0);
    lemma_small_pows();
    lemma_fields_bits_len(c, c.len());
    lemma_chunk_read(w, 88, c, 0);
}

/// Split of the encoder's bit stream into its five chunks.
proof fn lemma_encoded_layout(h: DtsFrameHeader, w: Seq<bool>)
    requires
        spec_encode_error(h) is None,
        w.len() >= spec_header_bit_length(h.crc_present),
        w.subrange(0, spec_header_bit_length(h.crc_present) as int) == fields_bits(header_fields(h)),
    ensures
        w.subrange(0, 60) == fields_bits(header_fields_a(h)),
        w.subrange(60, 79) == fields_bits(header_fields_b(h)),
        w.subrange(79, 88) == fields_bits(header_fields_c(h)),
        h.crc_present ==> w.subrange(88, 104) == fields_bits(header_fields_crc(h)),
        w.subrange(
            if h.crc_present {
                104
            } else {
                88
            },
            if h.crc_present {
                120
            } else {
                104
            },
        ) == fields_bits(header_fields_post(h)),
{
    let fa = header_fields_a(h);
    let fb = header_fields_b(h);
    let fc = header_fields_c(h);
    let c = header_fields_crc(h);
    let p = header_fields_post(h);
    lemma_fields_bits_append(fa, fb);
    lemma_fields_bits_append(fa + fb, fc);
    lemma_fields_bits_append(fa + fb + fc, c);
    lemma_fields_bits_append(fa + fb + fc + c, p);
    lemma_chunk_widths(h);
    lemma_fields_bits_len(fa, fa.len());
    lemma_fields_bits_len(fb, fb.len());
    lemma_fields_bits_len(fc, fc.len());
    lemma_fields_bits_len(c, c.len());
    lemma_fields_bits_len(p, p.len());
    let ba = fields_bits(fa);
    let bb = fields_bits(fb);
    let bc = fields_bits(fc);
    let bcrc = fields_bits(c);
    let bp = fields_bits(p);
    let all = ba + bb + bc + bcrc + bp;
    let l = spec_header_bit_length(h.crc_present) as int;
    assert(w.subrange(0, l) == all);
    let q = if h.crc_present {
        104int
    } else {
        88int
    };
    assert(w.subrange(0, 60) =~= all.subrange(0, 60));
    assert(all.subrange(0, 60) =~= ba);
    assert(w.subrange(60, 79) =~= all.subrange(60, 79));
    assert(all.subrange(60, 79) =~= bb);
    assert(w.subrange(79, 88) =~= all.subrange(79, 88));
    assert(all.subrange(79, 88) =~= bc);
    if h.crc_present {
        assert(w.subrange(88, 104) =~= all.subrange(88, 104));
        assert(all.subrange(88, 104) =~= bcrc);
    }
    assert(w.subrange(q, q + 16) =~= all.subrange(q, q + 16));
    assert(all.subrange(q, q + 16) =~= bp);
}

/// The header fields read from the encoder's bit stream.
#[verifier::rlimit(100)]
proof fn lemma_header_from_encoded_bits(w: Seq<bool>, h: DtsFrameHeader)
    requires
        spec_encode_error(h) is None,
        w.len() >= 120,
        w.subrange(0, spec_header_bit_length(h.crc_present) as int) == fields_bits(header_fields(h)),
    ensures
        spec_header_from_bits(w, SyncWordEncoding::RawBigEndian) == Ok::<DtsFrameHeader, Error>(
            DtsFrameHeader { sync_word_encoding: SyncWordEncoding::RawBigEndian, ..h },
        ),
{
    lemma_encoded_layout(h, w);
    lemma_read_chunk_a(w, h);
    lemma_read_chunk_b(w, h);
    lemma_read_chunk_c(w, h);
    let q = if h.crc_present {
        104int
    } else {
        88int
    };
    lemma_read_chunk_post(w, h, q);
    if h.crc_present {
        lemma_read_chunk_crc(w, h);
    }
    lemma_lfe_code_round_trip(h.lfe);
}

/// Round trip: the raw big-endian bytes the encoder writes for a valid
/// header, followed by any bytes that bring the input to the parser's
/// 15-byte minimum, parse back to the same header, reported as raw
/// big-endian.
pub proof fn lemma_encode_parse_round_trip(h: DtsFrameHeader, enc: Seq<u8>, tail: Seq<u8>)
    requires
        spec_encode_error(h) is None,
        bits_of(enc) == fields_bits(header_fields(h)),
        enc.len() + tail.len() >= 15,
    ensures
        spec_parse_frame_header(enc + tail) == Ok::<DtsFrameHeader, Error>(
            DtsFrameHeader { sync_word_encoding: SyncWordEncoding::RawBigEndian, ..h },
        ),
{
    let b = enc + tail;
    let w = bits_of(b);
    let l = spec_header_bit_length(h.crc_present) as int;
    lemma_header_fields_width(h);
    lemma_fields_bits_len(header_fields(h), header_fields(h).len());
    lemma_bits_of_append(enc, tail);
    assert(bits_of(enc).len() == l);
    assert(w.subrange(0, l) =~= bits_of(enc));
    lemma_sync_from_encoded(h, b);
    lemma_header_from_encoded_bits(w, h);
}

/// The encoder's bytes start with the raw big-endian sync.
proof fn lemma_sync_from_encoded(h: DtsFrameHeader, b: Seq<u8>)
    requires
        spec_encode_error(h) is None,
        b.len() >= 15,
        bits_of(b).subrange(0, spec_header_bit_length(h.crc_present) as int) == fields_bits(
            header_fields(h),
        ),
    ensures
        spec_detect_sync(b) == Ok::<SyncWordEncoding, Error>(SyncWordEncoding::RawBigEndian),
{
    let w = bits_of(b);
    lemma_encoded_layout(h, w);
    let fa = header_fields_a(h);
    lemma_width_a(h);
    lemma_fields_bits_len(fa, fa.len());
    lemma_fields_piece(fa, fa.len(), 0);
    reveal(header_fields_a);
    assert(w.subrange(0, 32) =~= fields_bits(fa).subrange(0, 32));
    lemma_sync_prefix(b);
}


/// `fld` reads only the bits it covers.
proof fn lemma_fld_agree(b1: Seq<bool>, b2: Seq<bool>, pos: int, w: int)
    requires
        0 <= pos,
        0 <= w,
        pos + w <= b1.len(),
        pos + w <= b2.len(),
        forall|i: int| pos <= i < pos + w ==> b1[i] == b2[i],
    ensures
        fld(b1, pos, w) == fld(b2, pos, w),
{
    assert(b1.subrange(pos, pos + w) =~= b2.subrange(pos, pos + w));
}

/// The header depends on the first 120 bits only.
proof fn lemma_header_bits_prefix(b1: Seq<bool>, b2: Seq<bool>, s: SyncWordEncoding)
    requires
        b1.len() >= 120,
        b2.len() >= 120,
        forall|i: int| 0 <= i < 120 ==> b1[i] == b2[i],
    ensures
        spec_header_from_bits(b1, s) == spec_header_from_bits(b2, s),
{
    assert forall|pos: int, w: int| 0 <= pos && 0 <= w && pos + w <= 120 implies #[trigger] fld(
        b1,
        pos,
        w,
    ) == fld(b2, pos, w) by {
        lemma_fld_agree(b1, b2, pos, w);
    }
}

/// A raw little-endian stream (every 16-bit word of a raw big-endian
/// stream of at least 16 bytes byte-swapped, of any length) parses to the
/// same header as the big-endian stream, reported as little-endian; a
/// big-endian stream the parser rejects is rejected with the same error
/// in little-endian form.
pub proof fn lemma_le_parses_like_be(b: Seq<u8>)
    requires
        b.len() >= 16,
        spec_detect_sync(b) == Ok::<SyncWordEncoding, Error>(SyncWordEncoding::RawBigEndian),
    ensures
        spec_parse_frame_header(swap_pairs(b)) == match spec_parse_frame_header(b) {
            Ok(h) => Ok::<DtsFrameHeader, Error>(
                DtsFrameHeader { sync_word_encoding: SyncWordEncoding::RawLittleEndian, ..h },
            ),
            Err(e) => Err(e),
        },
{
    let le = swap_pairs(b);
    assert(le[0] == b[1] && le[1] == b[0] && le[2] == b[3] && le[3] == b[2]);
    assert(spec_detect_sync(le) == Ok::<SyncWordEncoding, Error>(SyncWordEncoding::RawLittleEndian));
    let head = b.subrange(0, 16);
    assert(le_window(le) =~= head);
    let hb = bits_of(head);
    let wb = bits_of(b);
    assert forall|i: int| 0 <= i < 120 implies hb[i] == wb[i] by {
        assert(head[i / 8] == b[i / 8]);
    }
    lemma_header_bits_prefix(hb, wb, SyncWordEncoding::RawLittleEndian);
}


/// The 14-bit entry point parses a 14-bit-packed buffer exactly as the
/// 16-bit entry point parses the unpacked raw big-endian bytes `u`
/// (the output of the unpacker), reporting the 14-bit sync encoding.
pub proof fn lemma_14bit_parses_like_unpacked(b: Seq<u8>, u: Seq<u8>)
    requires
        spec_detect_sync(b) == Ok::<SyncWordEncoding, Error>(SyncWordEncoding::FourteenBitBigEndian)
            || spec_detect_sync(b) == Ok::<SyncWordEncoding, Error>(
            SyncWordEncoding::FourteenBitLittleEndian,
        ),
        b.len() >= 18,
        b.len() % 2 == 0,
        bits_of(u) == spec_unpacked_bits(
            b,
            if spec_detect_sync(b) == Ok::<SyncWordEncoding, Error>(
                SyncWordEncoding::FourteenBitBigEndian,
            ) {
                FourteenBitByteOrder::BigEndian
            } else {
                FourteenBitByteOrder::LittleEndian
            },
        ),
    ensures
        spec_parse_frame_header_14bit(b) == match spec_parse_frame_header(u) {
            Ok(h) => Ok::<DtsFrameHeader, Error>(
                DtsFrameHeader { sync_word_encoding: spec_detect_sync(b)->Ok_0, ..h },
            ),
            Err(e) => Err(e),
        },
{
    let bits = bits_of(u);
    let c = choose|v: Seq<u8>| bits_of(v) == bits;
    assert(bits_of(c) == bits);
    lemma_bits_of_injective(c, u);
}

} // verus!
