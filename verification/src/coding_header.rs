//! The Primary Audio Coding Header that follows the frame header: the
//! subframe and channel counts, then per channel the subband activity
//! count, the first VQ subband, the joint-intensity index and the TMODE,
//! SCALES and ABITS code-book selectors, then the per-channel quantizer
//! selector slab and the optional header CRC.

use crate::bits::{bits_of, fits, BitReader};
use crate::error::Error;
use crate::header::fld;
use crate::side_info::lemma_read_fixed_bound;
use crate::subframe::read_field;
use crate::tables::{QUANT_INDEX_GROUP_SIZE, QUANT_INDEX_SEL_NBITS};
use vstd::prelude::*;

verus! {

/// The decoded audio coding header.
#[derive(Debug, Clone, PartialEq, Eq)]
pub struct AudioCodingHeader {
    /// Number of subframes (`SUBFS + 1`).
    pub nsubframes: u8,
    /// Number of primary channels (`PCHS + 1`).
    pub nchannels: u8,
    /// Per channel: active subbands (`SUBS + 2`).
    pub subs: Vec<u8>,
    /// Per channel: first VQ-coded subband (`VQSUB + 1`).
    pub subvq: Vec<u8>,
    /// Per channel: joint-intensity index (0 = none).
    pub jch: Vec<u8>,
    /// Per channel: transition-mode code book (0..3).
    pub thuff: Vec<u8>,
    /// Per channel: scale-factor code book (0..7).
    pub shuff: Vec<u8>,
    /// Per channel: bit-allocation code book (0..7).
    pub bhuff: Vec<u8>,
}

/// Bits of the quantizer selectors of class `c`: `group size` fields of
/// `selector width` bits (1 x 1 bit, 3 x 2 bits, 7 x 3 bits).
pub open spec fn slab_class_bits(c: nat) -> nat {
    if c == 0 {
        1
    } else if c <= 4 {
        6
    } else {
        21
    }
}

/// Bits of the quantizer selector slab of classes `0..c`.
pub open spec fn slab_prefix(c: nat) -> nat
    decreases c,
{
    if c == 0 {
        0
    } else {
        slab_prefix((c - 1) as nat) + slab_class_bits((c - 1) as nat)
    }
}

proof fn lemma_slab_total()
    ensures
        slab_prefix(10) == 130,
{
    reveal_with_fuel(slab_prefix, 11);
}

proof fn lemma_slab_prefix(c: nat)
    requires
        c <= 10,
    ensures
        slab_prefix(c) <= slab_prefix(10),
        slab_prefix(10) == 130,
    decreases 10 - c,
{
    lemma_slab_total();
    if c < 10 {
        lemma_slab_prefix(c + 1);
    }
}

/// Length in bits of the audio coding header of `n` channels.
pub open spec fn coding_header_bits(n: nat, crc_present: bool) -> nat {
    7 + 21 * n + 130 * n + if crc_present {
        16nat
    } else {
        0nat
    }
}

/// Field `c` of a per-channel pass of `width`-bit fields starting at `pos`.
pub open spec fn pass_field(bits: Seq<bool>, pos: nat, width: nat, c: nat) -> nat {
    fld(bits, (pos + width * c) as int, width as int)
}

/// Whether `h` holds the fields of the header of `n` channels at `s`.
pub open spec fn coding_header_fields(h: AudioCodingHeader, bits: Seq<bool>, s: nat, n: nat) -> bool {
    &&& h.nsubframes == fld(bits, s as int, 4) + 1
    &&& h.nchannels == n
    &&& h.subs@.len() == n && h.subvq@.len() == n && h.jch@.len() == n
    &&& h.thuff@.len() == n && h.shuff@.len() == n && h.bhuff@.len() == n
    &&& forall|c: int|
        0 <= c < n ==> {
            &&& #[trigger] h.subs@[c] == pass_field(bits, s + 7, 5, c as nat) + 2
            &&& h.subvq@[c] == pass_field(bits, s + 7 + 5 * n, 5, c as nat) + 1
            &&& h.jch@[c] == pass_field(bits, s + 7 + 10 * n, 3, c as nat)
            &&& h.thuff@[c] == pass_field(bits, s + 7 + 13 * n, 2, c as nat)
            &&& h.shuff@[c] == pass_field(bits, s + 7 + 15 * n, 3, c as nat)
            &&& h.bhuff@[c] == pass_field(bits, s + 7 + 18 * n, 3, c as nat)
        }
}

/// Read `n` fields of `width` bits and add `bias` to each.
fn read_pass(br: &mut BitReader, n: usize, width: usize, bias: u8) -> (res: Result<Vec<u8>, Error>)
    requires
        1 <= width <= 5,
        1 <= n <= 8,
        bias <= 2,
    ensures
        final(br).bytes() == old(br).bytes(),
        fits(old(br).bytes(), old(br).pos() as int, (n * width) as int) ==> (res matches Ok(v)
            && v@.len() == n && final(br).pos() == old(br).pos() + n * width && forall|c: int|
            0 <= c < n ==> #[trigger] v@[c] == pass_field(
                bits_of(old(br).bytes()),
                old(br).pos(),
                width as nat,
                c as nat,
            ) + bias),
        !fits(old(br).bytes(), old(br).pos() as int, (n * width) as int) ==> res == Err::<
            Vec<u8>,
            Error,
        >(Error::UnexpectedEof),
{
    let ghost bits = bits_of(br.bytes());
    let ghost s = br.pos();
    let mut v: Vec<u8> = Vec::new();
    let mut c: usize = 0;
    while c < n
        invariant
            c <= n <= 8,
            1 <= n,
            1 <= width <= 5,
            bias <= 2,
            bits == bits_of(br.bytes()),
            br.bytes() == old(br).bytes(),
            s == old(br).pos(),
            br.pos() == s + width * c,
            c >= 1 ==> s + width * c <= bits.len() && s + width * c <= usize::MAX,
            v@.len() == c,
            forall|j: int| 0 <= j < c ==> #[trigger] v@[j] == pass_field(bits, s, width as nat, j as nat) + bias,
        decreases n - c,
    {
        let ghost p = br.pos();
        proof {
            assert(width * (c + 1) == width * c + width) by (nonlinear_arith);
            assert(width * (c + 1) <= width * n) by (nonlinear_arith)
                requires
                    c + 1 <= n,
            ;
        }
        let x = match read_field(br, width) {
            Ok(x) => x,
            Err(e) => {
                return Err(e);
            },
        };
        proof {
            lemma_read_fixed_bound(bits, p, width as nat);
            crate::bits::lemma_two_pow_mono(width as nat, 5);
            reveal_with_fuel(crate::bits::two_pow, 6);
        }
        v.push(x as u8 + bias);
        c = c + 1;
    }
    Ok(v)
}

/// Skip `count` fields of `width` bits.
fn skip_fields(br: &mut BitReader, count: u8, width: u8) -> (res: Result<(), Error>)
    requires
        width <= 8,
        count >= 1,
    ensures
        final(br).bytes() == old(br).bytes(),
        fits(old(br).bytes(), old(br).pos() as int, count * width) ==> res is Ok && final(br).pos()
            == old(br).pos() + count * width,
        !fits(old(br).bytes(), old(br).pos() as int, count * width) ==> res == Err::<(), Error>(
            Error::UnexpectedEof,
        ),
{
    let ghost s = br.pos();
    let mut k: u8 = 0;
    while k < count
        invariant
            k <= count,
            count >= 1,
            width <= 8,
            br.bytes() == old(br).bytes(),
            s == old(br).pos(),
            br.pos() == s + k * width,
            k >= 1 ==> s + k * width <= br.bytes().len() * 8 && s + k * width <= usize::MAX,
        decreases count - k,
    {
        proof {
            assert((k + 1) * width == k * width + width) by (nonlinear_arith);
            assert((k + 1) * width <= count * width) by (nonlinear_arith)
                requires
                    k + 1 <= count,
            ;
        }
        match read_field(br, width as usize) {
            Ok(_) => {},
            Err(e) => {
                return Err(e);
            },
        }
        k = k + 1;
    }
    Ok(())
}

/// Parse the audio coding header from the reader. `primary_channels` is
/// the frame header's primary channel count (the channel count the
/// header must declare); `crc_present` says whether the 16-bit header
/// CRC follows.
#[verifier::rlimit(40)]
#[verifier::loop_isolation(false)]
pub fn parse_audio_coding_header(
    r: &mut BitReader,
    primary_channels: u8,
    crc_present: bool,
) -> (res: Result<AudioCodingHeader, Error>)
    ensures
        final(r).bytes() == old(r).bytes(),
        ({
            let bits = bits_of(old(r).bytes());
            let s = old(r).pos();
            let n = fld(bits, s + 4int, 3) + 1;
            if !fits(old(r).bytes(), s as int, 7) {
                res == Err::<AudioCodingHeader, Error>(Error::UnexpectedEof)
            } else if n != primary_channels {
                res == Err::<AudioCodingHeader, Error>(
                    Error::ChannelCountMismatch { expected: primary_channels, declared: n as u8 },
                )
            } else if !fits(old(r).bytes(), s as int, coding_header_bits(n, crc_present) as int) {
                res == Err::<AudioCodingHeader, Error>(Error::UnexpectedEof)
            } else {
                res matches Ok(h) && coding_header_fields(h, bits, s, n) && final(r).pos() == s
                    + coding_header_bits(n, crc_present)
            }
        }),
{
    let ghost bits = bits_of(r.bytes());
    let ghost s = r.pos();
    let ns = read_field(r, 4)?;
    let nc = read_field(r, 3)?;
    proof {
        lemma_read_fixed_bound(bits, s, 4);
        lemma_read_fixed_bound(bits, s + 4, 3);
        reveal_with_fuel(crate::bits::two_pow, 5);
    }
    let nsubframes = ns as u8 + 1;
    let nchannels = nc as u8 + 1;
    if nchannels != primary_channels {
        return Err(Error::ChannelCountMismatch { expected: primary_channels, declared: nchannels });
    }
    let nch = nchannels as usize;
    let ghost n = nch as nat;
    let ghost total = coding_header_bits(n, crc_present);
    let ghost limit_ok = fits(r.bytes(), s as int, total as int);
    let subs = read_pass(r, nch, 5, 2)?;
    let subvq = read_pass(r, nch, 5, 1)?;
    let jch = read_pass(r, nch, 3, 0)?;
    let thuff = read_pass(r, nch, 2, 0)?;
    let shuff = read_pass(r, nch, 3, 0)?;
    let bhuff = read_pass(r, nch, 3, 0)?;
    proof {
        assert(r.pos() == s + 7 + 21 * n);
        assert(r.pos() <= r.bytes().len() * 8 && r.pos() <= usize::MAX);
    }
    let mut ch: usize = 0;
    while ch < nch
        invariant
            ch <= nch <= 8,
            n == nch,
            r.bytes() == old(r).bytes(),
            r.pos() == s + 7 + 21 * n + 130 * ch,
            r.pos() <= r.bytes().len() * 8 && r.pos() <= usize::MAX,
            limit_ok == fits(r.bytes(), s as int, total as int),
            total == coding_header_bits(n, crc_present),
        decreases nch - ch,
    {
        let ghost sch = r.pos();
        let mut c: usize = 0;
        while c < 10
            invariant
                c <= 10,
                ch < nch <= 8,
                n == nch,
                r.bytes() == old(r).bytes(),
                r.pos() == sch + slab_prefix(c as nat),
                r.pos() <= r.bytes().len() * 8 && r.pos() <= usize::MAX,
                sch == s + 7 + 21 * n + 130 * ch,
                limit_ok == fits(r.bytes(), s as int, total as int),
                total == coding_header_bits(n, crc_present),
            decreases 10 - c,
        {
            let g = QUANT_INDEX_GROUP_SIZE[c];
            let w = QUANT_INDEX_SEL_NBITS[c];
            proof {
                lemma_slab_prefix((c + 1) as nat);
                assert(QUANT_INDEX_GROUP_SIZE@ =~= seq![1u8, 3, 3, 3, 3, 7, 7, 7, 7, 7]);
                assert(QUANT_INDEX_SEL_NBITS@ =~= seq![1u8, 2, 2, 2, 2, 3, 3, 3, 3, 3]);
                assert(g * w == slab_class_bits(c as nat)) by (nonlinear_arith)
                    requires
                        c == 0 ==> g == 1 && w == 1,
                        1 <= c <= 4 ==> g == 3 && w == 2,
                        5 <= c ==> g == 7 && w == 3,
                ;
                assert(w <= 3 && g >= 1);
                assert(sch + slab_prefix((c + 1) as nat) <= s + total);
            }
            let ghost p = r.pos();
            match skip_fields(r, g, w) {
                Ok(()) => {},
                Err(e) => {
                    proof {
                        assert(p + g * w <= s + total);
                    }
                    return Err(e);
                },
            }
            c = c + 1;
        }
        proof {
            lemma_slab_prefix(10);
        }
        ch = ch + 1;
    }
    if crc_present {
        let _crc = read_field(r, 16)?;
    }
    Ok(AudioCodingHeader { nsubframes, nchannels, subs, subvq, jch, thuff, shuff, bhuff })
}

} // verus!
