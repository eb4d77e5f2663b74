//! Integer pieces of the Primary Audio Data Arrays walk: the code-word
//! widths of the block-coded and unencoded quantizer paths, two's
//! complement sign extension, the read of the decimated LFE samples, and
//! the error types of the walk.

use crate::bits::{bits_of, lemma_two_pow_pos, two_pow, BitReader};
use crate::error::{error_text, Error};
use crate::header::fld;
use crate::side_info::{lemma_read_fixed_bound, spec_read_fixed};
use crate::subframe::{read_field, ChannelSideInfo};
use crate::text::{decimal, push_decimal};
use vstd::prelude::*;

verus! {

/// Errors of the audio-data walk that the crate-level [`Error`] does not
/// cover.
#[derive(Debug, Clone, Copy, PartialEq, Eq)]
#[non_exhaustive]
pub enum AudioArrayError {
    /// A subband needs a vector-quantization code book that is not
    /// available: the high-frequency book (a subband at or past
    /// `n_vqsub`) or the ADPCM coefficient book (a subband with PMODE
    /// set).
    VqCodebookUnavailable {
        /// 0-based channel index.
        ch: usize,
        /// 0-based subband index.
        n: usize,
        /// `true` for the high-frequency book, `false` for the ADPCM
        /// coefficient book.
        high_frequency_vq: bool,
    },
    /// The LFE phase carried values the LFE channel cannot use.
    LfePhase(LfeChannelError),
}

/// Error of the LFE phase.
#[derive(Debug, Clone, Copy, PartialEq, Eq)]
#[non_exhaustive]
pub enum LfeChannelError {
    /// The 8-bit LFE scale index is one of the reserved entries (125 and
    /// above) of the 7-bit RMS table.
    ReservedScaleIndex {
        /// The offending index.
        index: u8,
    },
    /// `LFF` is zero: the frame carries no LFE channel to interpolate.
    ZeroLff,
}

/// Error of the audio-data walk: a bit-stream error or a missing code
/// book.
#[derive(Debug, Clone, Copy, PartialEq, Eq)]
#[non_exhaustive]
pub enum AudioArrayDecodeError {
    /// A bit-stream-level decode error.
    Bitstream(Error),
    /// A subband needed a code book that is not available.
    Blocked(AudioArrayError),
}

/// The human-readable message of a missing-code-book error.
pub open spec fn audio_array_error_text(e: AudioArrayError) -> Seq<char> {
    match e {
        AudioArrayError::VqCodebookUnavailable { ch, n, high_frequency_vq } => "oxideav-dts: channel "@
            + decimal(ch as nat) + " subband "@ + decimal(n as nat) + " needs the "@ + (if high_frequency_vq {
            "high-frequency VQ"@
        } else {
            "ADPCM-coefficient VQ"@
        }) + " code book, which is not available"@,
        AudioArrayError::LfePhase(LfeChannelError::ReservedScaleIndex { index }) =>
            "oxideav-dts: LFE phase: reserved LFE scale index "@ + decimal(index as nat),
        AudioArrayError::LfePhase(LfeChannelError::ZeroLff) =>
            "oxideav-dts: LFE phase: LFF is zero"@,
    }
}

impl AudioArrayError {
    /// The human-readable message of this error.
    pub fn message(&self) -> (s: String)
        ensures
            s@ == audio_array_error_text(*self),
    {
        match self {
            AudioArrayError::VqCodebookUnavailable { ch, n, high_frequency_vq } => {
                let mut s = String::from_str("oxideav-dts: channel ");
                push_decimal(&mut s, *ch as u64);
                s.append(" subband ");
                push_decimal(&mut s, *n as u64);
                s.append(" needs the ");
                if *high_frequency_vq {
                    s.append("high-frequency VQ");
                } else {
                    s.append("ADPCM-coefficient VQ");
                }
                s.append(" code book, which is not available");
                s
            },
            AudioArrayError::LfePhase(LfeChannelError::ReservedScaleIndex { index }) => {
                let mut s = String::from_str("oxideav-dts: LFE phase: reserved LFE scale index ");
                push_decimal(&mut s, *index as u64);
                s
            },
            AudioArrayError::LfePhase(LfeChannelError::ZeroLff) => String::from_str(
                "oxideav-dts: LFE phase: LFF is zero",
            ),
        }
    }
}

/// The human-readable message of an audio-data walk error: that of the
/// wrapped one.
pub open spec fn audio_array_decode_error_text(e: AudioArrayDecodeError) -> Seq<char> {
    match e {
        AudioArrayDecodeError::Bitstream(e) => error_text(e),
        AudioArrayDecodeError::Blocked(e) => audio_array_error_text(e),
    }
}

impl AudioArrayDecodeError {
    /// The human-readable message of this error: that of the wrapped one.
    pub fn message(&self) -> (s: String)
        ensures
            s@ == audio_array_decode_error_text(*self),
    {
        match self {
            AudioArrayDecodeError::Bitstream(e) => e.message(),
            AudioArrayDecodeError::Blocked(e) => e.message(),
        }
    }
}

/// The block-code word width of an ABITS family.
pub open spec fn spec_block_code_word_bits(abits: u8) -> Option<u32> {
    if abits == 1 {
        Some(7u32)
    } else if abits == 2 {
        Some(10u32)
    } else if abits == 3 {
        Some(12u32)
    } else if abits == 4 {
        Some(13u32)
    } else if abits == 5 {
        Some(15u32)
    } else if abits == 6 {
        Some(17u32)
    } else if abits == 7 {
        Some(19u32)
    } else {
        None
    }
}

/// Width in bits of one block-code word (four samples) for ABITS 1..=7:
/// 7, 10, 12, 13, 15, 17 and 19 bits.
pub fn block_code_word_bits(abits: u8) -> (r: Option<u32>)
    ensures
        r == spec_block_code_word_bits(abits),
{
    match abits {
        1 => Some(7),
        2 => Some(10),
        3 => Some(12),
        4 => Some(13),
        5 => Some(15),
        6 => Some(17),
        7 => Some(19),
        _ => None,
    }
}

/// Width in bits of one unencoded (sign-extended binary) sample for an
/// ABITS index: `ABITS - 3` for ABITS 8 and above, as long as that is at
/// most 32.
pub fn nfe_word_bits(abits: u8) -> (r: Option<u32>)
    ensures
        r == (if 8 <= abits <= 35 {
            Some((abits - 3) as u32)
        } else {
            None::<u32>
        }),
{
    if abits < 8 {
        return None;
    }
    let bits = abits as u32 - 3;
    if 1 <= bits && bits <= 32 {
        Some(bits)
    } else {
        None
    }
}

/// The low `width` bits of `value` read as a two's-complement number.
pub open spec fn spec_sign_extend(value: u32, width: nat) -> int {
    let m = two_pow(width) as int;
    let v = value as int % m;
    if v >= m / 2 {
        v - m
    } else {
        v
    }
}

/// Sign-extend the low `width` bits of `value` (two's complement).
pub fn sign_extend(value: u32, width: u32) -> (r: i32)
    requires
        1 <= width <= 32,
    ensures
        r as int == spec_sign_extend(value, width as nat),
{
    let mut m: u64 = 1;
    let mut i: u32 = 0;
    while i < width
        invariant
            i <= width <= 32,
            m as nat == two_pow(i as nat),
            m <= 0x1_0000_0000,
        decreases width - i,
    {
        proof {
            crate::bits::lemma_two_pow_mono(i as nat, 31);
            crate::bits::lemma_two_pow_32();
            reveal_with_fuel(two_pow, 2);
            assert(two_pow(32) == 2 * two_pow(31));
        }
        m = m * 2;
        i = i + 1;
    }
    proof {
        lemma_two_pow_pos(width as nat);
        reveal_with_fuel(two_pow, 2);
        assert(two_pow(width as nat) == 2 * two_pow((width - 1) as nat));
        crate::bits::lemma_two_pow_mono((width - 1) as nat, 31);
        crate::bits::lemma_two_pow_32();
    }
    let v: u64 = value as u64 % m;
    let half: u64 = m / 2;
    if v >= half {
        (v as i64 - m as i64) as i32
    } else {
        v as i32
    }
}

/// A byte read as a two's-complement signed value.
pub open spec fn spec_signed_byte(b: nat) -> int {
    if b < 128 {
        b as int
    } else {
        b - 256
    }
}

/// Whether `n` decimated LFE samples plus the scale index fit from bit
/// `pos` of `bits`.
pub open spec fn lfe_fits(bits: Seq<bool>, pos: nat, n: nat) -> bool {
    pos + 8 * (n + 1) <= bits.len() && pos + 8 * (n + 1) <= usize::MAX
}

/// Read the LFE phase of one subframe from bit `bit_offset` of `bytes`:
/// `2 * lff * n_ssc` decimated 8-bit two's-complement LFE samples, then
/// the 8-bit scale index. Returns the samples, the scale index and the
/// number of bits consumed. A zero `LFF` (no LFE channel) and a reserved
/// scale index (125 and above) are refused once the fields are read. The
/// interpolation of the decimated samples up to the output rate belongs to
/// the LFE channel filter, which takes these values.
pub fn decode_lfe_phase_at(bytes: &[u8], bit_offset: usize, lff: u8, n_ssc: usize) -> (res: Result<
    (Vec<i8>, u8, usize),
    AudioArrayDecodeError,
>)
    requires
        2 * lff * n_ssc < usize::MAX,
    ensures
        ({
            let bits = bits_of(bytes@);
            let n = 2 * lff * n_ssc;
            if lfe_fits(bits, bit_offset as nat, n as nat) && lff == 0 {
                res == Err::<(Vec<i8>, u8, usize), AudioArrayDecodeError>(
                    AudioArrayDecodeError::Blocked(AudioArrayError::LfePhase(LfeChannelError::ZeroLff)),
                )
            } else if lfe_fits(bits, bit_offset as nat, n as nat) && fld(bits, bit_offset + 8 * n, 8)
                >= 125 {
                res == Err::<(Vec<i8>, u8, usize), AudioArrayDecodeError>(
                    AudioArrayDecodeError::Blocked(
                        AudioArrayError::LfePhase(
                            LfeChannelError::ReservedScaleIndex {
                                index: fld(bits, bit_offset + 8 * n, 8) as u8,
                            },
                        ),
                    ),
                )
            } else if lfe_fits(bits, bit_offset as nat, n as nat) {
                res matches Ok((samples, scale, used)) && samples@.len() == n && (forall|i: int|
                    0 <= i < n ==> #[trigger] samples@[i] as int == spec_signed_byte(
                        fld(bits, bit_offset + 8 * i, 8),
                    )) && scale as nat == fld(bits, bit_offset + 8 * n, 8) && used == 8 * (n + 1)
            } else {
                res == Err::<(Vec<i8>, u8, usize), AudioArrayDecodeError>(
                    AudioArrayDecodeError::Bitstream(Error::UnexpectedEof),
                )
            }
        }),
{
    let ghost bits = bits_of(bytes@);
    let n_lfe: usize = 2 * (lff as usize) * n_ssc;
    let mut br = BitReader::at_bit(bytes, bit_offset);
    let mut samples: Vec<i8> = Vec::new();
    let mut i: usize = 0;
    while i < n_lfe
        invariant
            i <= n_lfe,
            n_lfe == 2 * lff * n_ssc,
            n_lfe < usize::MAX,
            bits == bits_of(br.bytes()),
            bits == bits_of(bytes@),
            br.pos() == bit_offset + 8 * i,
            samples@.len() == i,
            forall|j: int|
                0 <= j < i ==> #[trigger] samples@[j] as int == spec_signed_byte(
                    fld(bits, bit_offset + 8 * j, 8),
                ),
        decreases n_lfe - i,
    {
        let ghost p = br.pos();
        let r = read_field(&mut br, 8);
        let v = match r {
            Ok(v) => v,
            Err(e) => {
                proof {
                    assert(!lfe_fits(bits, bit_offset as nat, n_lfe as nat));
                }
                return Err(AudioArrayDecodeError::Bitstream(e));
            },
        };
        proof {
            lemma_read_fixed_bound(bits, p, 8);
            reveal_with_fuel(two_pow, 9);
        }
        let s: i8 = if v < 128 {
            v as i8
        } else {
            (v as i16 - 256) as i8
        };
        samples.push(s);
        i = i + 1;
    }
    let ghost p = br.pos();
    let scale = match read_field(&mut br, 8) {
        Ok(v) => v,
        Err(e) => {
            return Err(AudioArrayDecodeError::Bitstream(e));
        },
    };
    proof {
        lemma_read_fixed_bound(bits, p, 8);
        reveal_with_fuel(two_pow, 9);
    }
    if lff == 0 {
        return Err(AudioArrayDecodeError::Blocked(AudioArrayError::LfePhase(LfeChannelError::ZeroLff)));
    }
    if scale >= 125 {
        return Err(
            AudioArrayDecodeError::Blocked(
                AudioArrayError::LfePhase(LfeChannelError::ReservedScaleIndex { index: scale as u8 }),
            ),
        );
    }
    let used = br.absolute_bit_position() - bit_offset;
    Ok((samples, scale as u8, used))
}


// ---------------------------------------------------------------------
// Code books the audio-data walk cannot do without
// ---------------------------------------------------------------------

/// The first subband from `k` below `nv` whose prediction mode is set.
pub open spec fn first_pmode_from(pm: Seq<u8>, nv: nat, k: nat) -> Option<nat>
    decreases nv - k,
{
    if k >= nv {
        None
    } else if pm[k as int] != 0 {
        Some(k)
    } else {
        first_pmode_from(pm, nv, k + 1)
    }
}

/// The first missing code book from channel `ch` on: a channel with high-
/// frequency VQ subbands (`n_vqsub < n_subs`) needs the high-frequency VQ
/// book, else its first subband below `n_vqsub` with a prediction mode
/// set needs the ADPCM coefficient book.
pub open spec fn blocker_from(
    side: Seq<ChannelSideInfo>,
    nv: Seq<usize>,
    ns: Seq<usize>,
    ch: nat,
) -> Option<AudioArrayError>
    decreases side.len() - ch,
{
    if ch >= side.len() {
        None
    } else if nv[ch as int] < ns[ch as int] {
        Some(
            AudioArrayError::VqCodebookUnavailable {
                ch: ch as usize,
                n: nv[ch as int],
                high_frequency_vq: true,
            },
        )
    } else {
        match first_pmode_from(side[ch as int].pmode@, nv[ch as int] as nat, 0) {
            Some(n) => Some(
                AudioArrayError::VqCodebookUnavailable {
                    ch: ch as usize,
                    n: n as usize,
                    high_frequency_vq: false,
                },
            ),
            None => blocker_from(side, nv, ns, ch + 1),
        }
    }
}

/// Whether the scan from channel `ch` on reaches a channel whose bounds
/// are missing or whose `n_vqsub` runs past the 32 prediction modes.
pub open spec fn blocker_out_of_bounds(
    side: Seq<ChannelSideInfo>,
    nv: Seq<usize>,
    ns: Seq<usize>,
    ch: nat,
) -> bool
    decreases side.len() - ch,
{
    if ch >= side.len() {
        false
    } else if ch >= nv.len() || ch >= ns.len() {
        true
    } else if nv[ch as int] < ns[ch as int] {
        false
    } else if nv[ch as int] > 32 {
        true
    } else {
        match first_pmode_from(side[ch as int].pmode@, nv[ch as int] as nat, 0) {
            Some(_) => false,
            None => blocker_out_of_bounds(side, nv, ns, ch + 1),
        }
    }
}

/// The first subband of the audio-data walk that needs a code book this
/// library does not hold, scanning channel by channel: see
/// [`blocker_from`]. `None` when every channel can be walked.
pub fn vq_blocker(side: &[ChannelSideInfo], n_vqsub: &[usize], n_subs: &[usize]) -> (r: Option<
    AudioArrayError,
>)
    requires
        !blocker_out_of_bounds(side@, n_vqsub@, n_subs@, 0),
    ensures
        r == blocker_from(side@, n_vqsub@, n_subs@, 0),
{
    let mut ch: usize = 0;
    while ch < side.len()
        invariant
            ch <= side@.len(),
            blocker_from(side@, n_vqsub@, n_subs@, 0) == blocker_from(
                side@,
                n_vqsub@,
                n_subs@,
                ch as nat,
            ),
            !blocker_out_of_bounds(side@, n_vqsub@, n_subs@, ch as nat),
        decreases side@.len() - ch,
    {
        let nv = n_vqsub[ch];
        if nv < n_subs[ch] {
            return Some(AudioArrayError::VqCodebookUnavailable { ch, n: nv, high_frequency_vq: true });
        }
        let pm = side[ch].pmode;
        let mut n: usize = 0;
        while n < nv
            invariant
                n <= nv <= 32,
                ch < side@.len(),
                ch < n_vqsub@.len() && ch < n_subs@.len(),
                nv >= n_subs@[ch as int],
                blocker_from(side@, n_vqsub@, n_subs@, 0) == blocker_from(
                    side@,
                    n_vqsub@,
                    n_subs@,
                    ch as nat,
                ),
                !blocker_out_of_bounds(side@, n_vqsub@, n_subs@, ch as nat),
                pm@ == side@[ch as int].pmode@,
                nv == n_vqsub@[ch as int],
                first_pmode_from(pm@, nv as nat, 0) == first_pmode_from(pm@, nv as nat, n as nat),
            decreases nv - n,
        {
            if pm[n] != 0 {
                return Some(AudioArrayError::VqCodebookUnavailable { ch, n, high_frequency_vq: false });
            }
            n = n + 1;
        }
        ch = ch + 1;
    }
    None
}

/// Sign extension inverts the `width`-bit two's-complement encoding:
/// every value of `[-2^(width-1), 2^(width-1))` whose encoding is `raw`
/// reads back as itself.
pub proof fn lemma_sign_extend_round_trip(x: int, width: nat, raw: u32)
    requires
        1 <= width <= 32,
        -(two_pow((width - 1) as nat) as int) <= x < two_pow((width - 1) as nat),
        raw as int == x % (two_pow(width) as int),
    ensures
        spec_sign_extend(raw, width) == x,
{
    let m = two_pow(width) as int;
    let h = two_pow((width - 1) as nat) as int;
    reveal_with_fuel(two_pow, 2);
    assert(m == 2 * h);
    lemma_two_pow_pos((width - 1) as nat);
    if x >= 0 {
        vstd::arithmetic::div_mod::lemma_small_mod(x as nat, m as nat);
    } else {
        vstd::arithmetic::div_mod::lemma_mod_add_multiples_vanish(x, m);
        vstd::arithmetic::div_mod::lemma_small_mod((m + x) as nat, m as nat);
    }
    vstd::arithmetic::div_mod::lemma_small_mod(raw as nat, m as nat);
}

} // verus!
