//! The integer walk of a Core frame's audio payload with the direct
//! code books: after the audio coding header, per subframe the SSC/PSC
//! prefix, the prediction modes and their VQ indices, linear ABITS,
//! transition modes, linear scale factors, the scale factors of the
//! high-frequency VQ subbands, then per subsubframe and sample block one
//! code per channel and active subband (a 10-bit VQ index from `subvq`
//! on, else a two's-complement sample of the ABITS word width), and an
//! optional `DSYNC` word.

use crate::audio_array::spec_sign_extend;
use crate::bits::{bits_of, lemma_two_pow_pos, signed_value, two_pow, BitReader};
use crate::coding_header::{
    coding_header_bits, coding_header_fields, parse_audio_coding_header, pass_field,
    AudioCodingHeader,
};
use crate::error::Error;
use crate::header::fld;
use crate::side_info::{lemma_read_fixed_bound, spec_read_fixed};
use crate::tables::{QUANT_LEVELS, SCALE_FACTOR_QUANT6, SCALE_FACTOR_QUANT7};
use crate::subframe::{lemma_run_each, lemma_run_err, lemma_run_len, read_field, run, Step};
use vstd::prelude::*;

verus! {

/// Subbands per channel.
pub const SUBBANDS: usize = 32;

/// Sample blocks of a frame's subband output.
pub const BLOCKS_PER_FRAME: usize = 16;

/// Sample blocks per subsubframe.
pub const SAMPLES_PER_BLOCK: usize = 8;

/// The code of one active subband in one sample block.
#[derive(Debug, Clone, Copy, PartialEq, Eq)]
pub enum BandCode {
    /// A 10-bit high-frequency VQ index.
    Vq(u16),
    /// A two's-complement quantized sample.
    Sample(i32),
    /// No bits allocated (or no usable word width): nothing was read.
    Silent,
}

// ---------------------------------------------------------------------
// Field runs: a row of fields of given widths, and a plane of rows
// ---------------------------------------------------------------------

/// Reads the fields of widths `ws` in order; a width of zero reads
/// nothing and yields zero.
pub open spec fn width_step(bits: Seq<bool>, ws: Seq<nat>) -> Step<nat, ()> {
    |i: nat, p: nat, s: ()|
        if ws[i as int] == 0 {
            Ok((0nat, (), p))
        } else {
            match spec_read_fixed(bits, p, ws[i as int]) {
                Ok((v, p2)) => Ok((v, (), p2)),
                Err(e) => Err(e),
            }
        }
}

/// One row per channel: `pre(c)` is the error raised before the row of
/// channel `c` is read, if any; `ws(c)` are its field widths.
pub open spec fn chan_step(
    bits: Seq<bool>,
    pre: spec_fn(nat) -> Option<Error>,
    ws: spec_fn(nat) -> Seq<nat>,
) -> Step<Seq<nat>, ()> {
    |c: nat, p: nat, s: ()|
        match pre(c) {
            Some(e) => Err(e),
            None => match run(width_step(bits, ws(c)), p, (), ws(c).len()) {
                Ok((vs, _, p2)) => Ok((vs, (), p2)),
                Err(e) => Err(e),
            },
        }
}

/// Whether the exec widths `w` are the spec widths `ws`.
pub open spec fn widths_are(w: Seq<usize>, ws: Seq<nat>) -> bool {
    &&& w.len() == ws.len()
    &&& forall|b: int| 0 <= b < w.len() ==> #[trigger] w[b] as nat == ws[b] && w[b] <= 32
}

/// Whether the exec values `v` are the spec values `vs`.
pub open spec fn values_are(v: Seq<u32>, vs: Seq<nat>) -> bool {
    &&& v.len() == vs.len()
    &&& forall|b: int| 0 <= b < v.len() ==> #[trigger] v[b] as nat == vs[b]
}

/// Read one row of fields.
#[verifier::loop_isolation(false)]
fn read_row(br: &mut BitReader, w: &Vec<usize>, Ghost(ws): Ghost<Seq<nat>>) -> (res: Result<
    Vec<u32>,
    Error,
>)
    requires
        widths_are(w@, ws),
    ensures
        final(br).bytes() == old(br).bytes(),
        match run(width_step(bits_of(old(br).bytes()), ws), old(br).pos(), (), ws.len()) {
            Ok((vs, _, p)) => res matches Ok(v) && values_are(v@, vs) && final(br).pos() == p
                && v@.len() == ws.len() && forall|b: int| 0 <= b < v@.len() ==> (#[trigger] v@[b] as nat) < two_pow(ws[b]),
            Err(e) => res == Err::<Vec<u32>, Error>(e),
        },
{
    let ghost bits = bits_of(br.bytes());
    let ghost p0 = br.pos();
    let ghost step = width_step(bits, ws);
    let mut out: Vec<u32> = Vec::new();
    let mut i: usize = 0;
    while i < w.len()
        invariant
            i <= w@.len(),
            widths_are(w@, ws),
            bits == bits_of(br.bytes()),
            br.bytes() == old(br).bytes(),
            p0 == old(br).pos(),
            step == width_step(bits, ws),
            run(step, p0, (), i as nat) matches Ok((vs, _, p)) && p == br.pos() && values_are(
                out@,
                vs,
            ),
            out@.len() == i,
            forall|b: int| 0 <= b < i ==> (#[trigger] out@[b] as nat) < two_pow(ws[b]),
        decreases w@.len() - i,
    {
        let ghost prev = run(step, p0, (), i as nat);
        proof {
            lemma_run_len(step, p0, (), i as nat);
        }
        let wi = w[i];
        assert(wi as nat == ws[i as int]);
        if wi == 0 {
            out.push(0);
            proof {
                lemma_two_pow_pos(0);
                assert(values_are(out@, prev->Ok_0.0.push(0nat)));
            }
        } else {
            match read_field(br, wi) {
                Ok(v) => {
                    proof {
                        lemma_read_fixed_bound(bits, prev->Ok_0.2, wi as nat);
                    }
                    out.push(v);
                    proof {
                        assert(values_are(out@, prev->Ok_0.0.push(v as nat)));
                    }
                },
                Err(e) => {
                    proof {
                        lemma_run_err(step, p0, (), (i + 1) as nat, ws.len());
                    }
                    return Err(e);
                },
            }
        }
        i = i + 1;
    }
    Ok(out)
}

/// Whether the exec widths of every channel are the spec widths.
pub open spec fn plane_widths_are(w: Seq<Vec<usize>>, ws: spec_fn(nat) -> Seq<nat>) -> bool {
    forall|c: int| 0 <= c < w.len() ==> widths_are(#[trigger] w[c]@, ws(c as nat))
}

/// Whether the exec rows are the spec rows.
pub open spec fn rows_are(v: Seq<Vec<u32>>, vs: Seq<Seq<nat>>) -> bool {
    &&& v.len() == vs.len()
    &&& forall|c: int| 0 <= c < v.len() ==> values_are(#[trigger] v[c]@, vs[c])
}

/// Whether every value of the exec rows fits its width.
pub open spec fn rows_bounded(v: Seq<Vec<u32>>, ws: spec_fn(nat) -> Seq<nat>) -> bool {
    forall|c: int, b: int|
        0 <= c < v.len() && 0 <= b < v[c]@.len() ==> (#[trigger] v[c]@[b] as nat) < two_pow(
            ws(c as nat)[b],
        )
}

/// Read one row per channel, raising `bad[c]` before row `c` where set.
#[verifier::loop_isolation(false)]
fn read_plane(
    br: &mut BitReader,
    w: &Vec<Vec<usize>>,
    bad: &Vec<Option<Error>>,
    Ghost(pre): Ghost<spec_fn(nat) -> Option<Error>>,
    Ghost(ws): Ghost<spec_fn(nat) -> Seq<nat>>,
) -> (res: Result<Vec<Vec<u32>>, Error>)
    requires
        bad@.len() == w@.len(),
        plane_widths_are(w@, ws),
        forall|c: int| 0 <= c < bad@.len() ==> #[trigger] bad@[c] == pre(c as nat),
    ensures
        final(br).bytes() == old(br).bytes(),
        match run(chan_step(bits_of(old(br).bytes()), pre, ws), old(br).pos(), (), w@.len() as nat) {
            Ok((vs, _, p)) => res matches Ok(v) && rows_are(v@, vs) && final(br).pos() == p
                && rows_bounded(v@, ws) && v@.len() == w@.len() && forall|c: int|
                0 <= c < v@.len() ==> (#[trigger] v@[c]@.len()) == ws(c as nat).len(),
            Err(e) => res == Err::<Vec<Vec<u32>>, Error>(e),
        },
{
    let ghost bits = bits_of(br.bytes());
    let ghost p0 = br.pos();
    let ghost step = chan_step(bits, pre, ws);
    let mut out: Vec<Vec<u32>> = Vec::new();
    let mut c: usize = 0;
    while c < w.len()
        invariant
            c <= w@.len(),
            bits == bits_of(br.bytes()),
            br.bytes() == old(br).bytes(),
            p0 == old(br).pos(),
            step == chan_step(bits, pre, ws),
            run(step, p0, (), c as nat) matches Ok((vs, _, p)) && p == br.pos() && rows_are(
                out@,
                vs,
            ),
            rows_bounded(out@, ws),
            out@.len() == c,
            forall|k: int| 0 <= k < out@.len() ==> (#[trigger] out@[k]@.len()) == ws(k as nat).len(),
        decreases w@.len() - c,
    {
        let ghost prev = run(step, p0, (), c as nat);
        proof {
            lemma_run_len(step, p0, (), c as nat);
        }
        if let Some(e) = bad[c] {
            proof {
                lemma_run_err(step, p0, (), (c + 1) as nat, w@.len() as nat);
            }
            return Err(e);
        }
        assert(widths_are(w@[c as int]@, ws(c as nat)));
        match read_row(br, &w[c], Ghost(ws(c as nat))) {
            Ok(row) => {
                let ghost old_out = out@;
                out.push(row);
                proof {
                    let cur = run(width_step(bits, ws(c as nat)), prev->Ok_0.2, (), ws(c as nat).len());
                    let vs2 = prev->Ok_0.0.push(cur->Ok_0.0);
                    assert forall|k: int| 0 <= k < out@.len() implies values_are(
                        #[trigger] out@[k]@,
                        vs2[k],
                    ) by {
                        if k < c {
                            assert(out@[k] == old_out[k]);
                        }
                    }
                    assert forall|k: int| 0 <= k < out@.len() implies (#[trigger] out@[k]@.len())
                        == ws(k as nat).len() by {
                        if k < c {
                            assert(out@[k] == old_out[k]);
                        }
                    }
                    assert forall|k: int, b: int|
                        0 <= k < out@.len() && 0 <= b < out@[k]@.len() implies (
                        #[trigger] out@[k]@[b] as nat) < two_pow(ws(k as nat)[b]) by {
                        if k < c {
                            assert(out@[k] == old_out[k]);
                        }
                    }
                }
            },
            Err(e) => {
                proof {
                    lemma_run_err(step, p0, (), (c + 1) as nat, w@.len() as nat);
                }
                return Err(e);
            },
        }
        c = c + 1;
    }
    Ok(out)
}


// ---------------------------------------------------------------------
// The walk, as a function of the bit stream
// ---------------------------------------------------------------------

/// The per-channel header tables the walk reads: `SUBS`, `SUBVQ`,
/// `SHUFF` and `BHUFF`.
pub type Tables = (Seq<nat>, Seq<nat>, Seq<nat>, Seq<nat>);

/// The tables of the audio coding header of `n` channels at bit `s`.
pub open spec fn tables_at(bits: Seq<bool>, s: nat, n: nat) -> Tables {
    (
        Seq::new(n, |c: int| pass_field(bits, s + 7, 5, c as nat) + 2),
        Seq::new(n, |c: int| pass_field(bits, s + 7 + 5 * n, 5, c as nat) + 1),
        Seq::new(n, |c: int| pass_field(bits, s + 7 + 15 * n, 3, c as nat)),
        Seq::new(n, |c: int| pass_field(bits, s + 7 + 18 * n, 3, c as nat)),
    )
}

/// No error before any row.
pub open spec fn no_pre() -> spec_fn(nat) -> Option<Error> {
    |c: nat| None::<Error>
}

/// One row per channel from position `p`.
pub open spec fn plane(
    bits: Seq<bool>,
    pre: spec_fn(nat) -> Option<Error>,
    ws: spec_fn(nat) -> Seq<nat>,
    p: nat,
    n: nat,
) -> Result<(Seq<Seq<nat>>, (), nat), Error> {
    run(chan_step(bits, pre, ws), p, (), n)
}

/// Prediction modes: one bit per active subband.
pub open spec fn pm_w(t: Tables) -> spec_fn(nat) -> Seq<nat> {
    |c: nat| Seq::new(t.0[c as int], |b: int| 1nat)
}

/// Prediction VQ indices: 12 bits where the prediction mode is on.
pub open spec fn pvq_w(t: Tables, pm: Seq<Seq<nat>>) -> spec_fn(nat) -> Seq<nat> {
    |c: nat| Seq::new(t.0[c as int], |b: int| if pm[c as int][b] != 0 { 12nat } else { 0nat })
}

/// ABITS: `BHUFF` 5 and 6 are 4-bit, 7 is 5-bit linear codes.
pub open spec fn ab_w(t: Tables) -> spec_fn(nat) -> Seq<nat> {
    |c: nat| Seq::new(t.0[c as int], |b: int| if t.3[c as int] == 7 { 5nat } else { 4nat })
}

/// The Huffman `BHUFF` books are refused.
pub open spec fn ab_pre(t: Tables) -> spec_fn(nat) -> Option<Error> {
    |c: nat|
        if 5 <= t.3[c as int] <= 7 {
            None::<Error>
        } else {
            Some(Error::InvalidSideInfo { field: "BHUFF", value: t.3[c as int] as u32 })
        }
}

/// Transition modes: 2 bits where bits are allocated.
pub open spec fn tm_w(t: Tables, ab: Seq<Seq<nat>>) -> spec_fn(nat) -> Seq<nat> {
    |c: nat| Seq::new(t.0[c as int], |b: int| if ab[c as int][b] != 0 { 2nat } else { 0nat })
}

/// Scale indices: `SHUFF` 5 is 6-bit, 6 is 7-bit.
pub open spec fn sc_w(t: Tables) -> spec_fn(nat) -> Seq<nat> {
    |c: nat| Seq::new(t.0[c as int], |b: int| if t.2[c as int] == 5 { 6nat } else { 7nat })
}

/// The Huffman `SHUFF` books are refused.
pub open spec fn sc_pre(t: Tables) -> spec_fn(nat) -> Option<Error> {
    |c: nat|
        if t.2[c as int] == 5 || t.2[c as int] == 6 {
            None::<Error>
        } else {
            Some(Error::InvalidSideInfo { field: "SHUFF", value: t.2[c as int] as u32 })
        }
}

/// Number of subbands from `lo` up to `hi`.
pub open spec fn span(lo: nat, hi: nat) -> nat {
    if lo < hi {
        (hi - lo) as nat
    } else {
        0
    }
}

/// Scale indices of the VQ subbands `SUBVQ..SUBS`: 7 bits each.
pub open spec fn vq_w(t: Tables) -> spec_fn(nat) -> Seq<nat> {
    |c: nat| Seq::new(span(t.1[c as int], t.0[c as int]), |b: int| 7nat)
}

/// Number of bits of `x`.
pub open spec fn bit_length(x: nat) -> nat
    decreases x,
{
    if x == 0 {
        0
    } else {
        1 + bit_length(x / 2)
    }
}

/// Word width of a sample with allocation `a`: `a - 3` from 8 on, else
/// the bit length of the quantizer's level count.
pub open spec fn sample_width(a: nat) -> nat {
    if a >= 8 {
        (a - 3) as nat
    } else {
        bit_length(QUANT_LEVELS@[a as int] as nat)
    }
}

/// Width of the code of subband `b`: a 10-bit VQ index from `lo` on,
/// else the sample width, or nothing for a band without allocation or
/// without a usable width.
pub open spec fn code_width(lo: nat, ab: Seq<nat>, b: int) -> nat {
    if b >= lo {
        10
    } else if ab[b] == 0 || sample_width(ab[b]) == 0 || sample_width(ab[b]) > 26 {
        0
    } else {
        sample_width(ab[b])
    }
}

/// Codes of one sample block.
pub open spec fn code_w(t: Tables, ab: Seq<Seq<nat>>) -> spec_fn(nat) -> Seq<nat> {
    |c: nat| Seq::new(t.0[c as int], |b: int| code_width(t.1[c as int], ab[c as int], b))
}

/// One sample block: a row of codes per channel.
pub open spec fn block_step(bits: Seq<bool>, t: Tables, ab: Seq<Seq<nat>>, n: nat) -> Step<
    Seq<Seq<nat>>,
    (),
> {
    |k: nat, p: nat, s: ()| plane(bits, no_pre(), code_w(t, ab), p, n)
}

/// Position after the optional `DSYNC` word: read when 16 bits remain.
pub open spec fn dsync_end(bits_len: nat, p: nat) -> nat {
    if p + 16 <= bits_len {
        p + 16
    } else {
        p
    }
}

/// A subframe's side information: `(nSSC, ABITS, scale indices, VQ
/// scale indices, end)`.
pub type SideWalk = (nat, Seq<Seq<nat>>, Seq<Seq<nat>>, Seq<Seq<nat>>, nat);

/// The side information of one subframe from position `p`.
pub open spec fn side_walk(bits: Seq<bool>, t: Tables, n: nat, p: nat) -> Result<SideWalk, Error> {
    match spec_read_fixed(bits, p, 2) {
        Err(e) => Err(e),
        Ok((sc, p1)) => match spec_read_fixed(bits, p1, 3) {
            Err(e) => Err(e),
            Ok((_, p2)) => match plane(bits, no_pre(), pm_w(t), p2, n) {
                Err(e) => Err(e),
                Ok((pm, _, p3)) => match plane(bits, no_pre(), pvq_w(t, pm), p3, n) {
                    Err(e) => Err(e),
                    Ok((_, _, p4)) => match plane(bits, ab_pre(t), ab_w(t), p4, n) {
                        Err(e) => Err(e),
                        Ok((ab, _, p5)) => match (if sc > 0 {
                            plane(bits, no_pre(), tm_w(t, ab), p5, n)
                        } else {
                            Ok((Seq::empty(), (), p5))
                        }) {
                            Err(e) => Err(e),
                            Ok((_, _, p6)) => match plane(bits, sc_pre(t), sc_w(t), p6, n) {
                                Err(e) => Err(e),
                                Ok((si, _, p7)) => match plane(bits, no_pre(), vq_w(t), p7, n) {
                                    Err(e) => Err(e),
                                    Ok((vi, _, p8)) => Ok((sc + 1, ab, si, vi, p8)),
                                },
                            },
                        },
                    },
                },
            },
        },
    }
}

/// One decoded subframe: `(nSSC, ABITS, scale indices, VQ scale indices,
/// codes by block, channel and subband)`.
pub type SubframeWalk = (nat, Seq<Seq<nat>>, Seq<Seq<nat>>, Seq<Seq<nat>>, Seq<Seq<Seq<nat>>>);

/// One subframe of the walk.
#[verifier::opaque]
pub open spec fn subframe_step(bits: Seq<bool>, t: Tables, n: nat) -> Step<SubframeWalk, ()> {
    |k: nat, p: nat, s: ()|
        match side_walk(bits, t, n, p) {
            Err(e) => Err(e),
            Ok((ssc, ab, si, vi, p8)) => match run(block_step(bits, t, ab, n), p8, (), ssc * 8) {
                Err(e) => Err(e),
                Ok((codes, _, p9)) => Ok(((ssc, ab, si, vi, codes), (), dsync_end(bits.len(), p9))),
            },
        }
}

/// Whether the first subframe reads all ABITS of a channel declaring more
/// than 32 subbands (more than the 32-slot ABITS plane holds).
pub open spec fn overflows(bits: Seq<bool>, t: Tables, n: nat, p: nat) -> bool {
    match spec_read_fixed(bits, p, 2) {
        Err(_) => false,
        Ok((_, p1)) => match spec_read_fixed(bits, p1, 3) {
            Err(_) => false,
            Ok((_, p2)) => match plane(bits, no_pre(), pm_w(t), p2, n) {
                Err(_) => false,
                Ok((pm, _, p3)) => match plane(bits, no_pre(), pvq_w(t, pm), p3, n) {
                    Err(_) => false,
                    Ok((_, _, p4)) => exists|c: nat|
                        c < n && t.0[c as int] > 32 && #[trigger] plane(bits, ab_pre(t), ab_w(t), p4, c + 1) is Ok,
                },
            },
        },
    }
}

/// The walk of a frame whose header takes `hb` bits: the channel count,
/// the tables and the subframes.
pub open spec fn payload_walk(bits: Seq<bool>, hb: nat, pc: nat, crc: bool) -> Result<
    (nat, Tables, Seq<SubframeWalk>),
    Error,
> {
    let n = fld(bits, hb + 4int, 3) + 1;
    if !(hb + 7 <= bits.len() && hb + 7 <= usize::MAX) {
        Err(Error::UnexpectedEof)
    } else if n != pc {
        Err(Error::ChannelCountMismatch { expected: pc as u8, declared: n as u8 })
    } else if !(hb + coding_header_bits(n, crc) <= bits.len() && hb + coding_header_bits(n, crc)
        <= usize::MAX) {
        Err(Error::UnexpectedEof)
    } else {
        let t = tables_at(bits, hb, n);
        match run(
            subframe_step(bits, t, n),
            hb + coding_header_bits(n, crc),
            (),
            fld(bits, hb as int, 4) + 1,
        ) {
            Err(e) => Err(e),
            Ok((sfs, _, _)) => Ok((n, t, sfs)),
        }
    }
}

/// Whether the walk reaches a channel declaring more than 32 subbands.
pub open spec fn payload_overflows(bits: Seq<bool>, hb: nat, pc: nat, crc: bool) -> bool {
    let n = fld(bits, hb + 4int, 3) + 1;
    &&& hb + 7 <= bits.len() && hb + 7 <= usize::MAX
    &&& n == pc
    &&& hb + coding_header_bits(n, crc) <= bits.len() && hb + coding_header_bits(n, crc) <= usize::MAX
    &&& overflows(bits, tables_at(bits, hb, n), n, hb + coding_header_bits(n, crc))
}


// ---------------------------------------------------------------------
// The walk
// ---------------------------------------------------------------------

/// Whether `h` holds the tables `t` of `n` channels.
pub open spec fn header_tables(h: AudioCodingHeader, t: Tables, n: nat) -> bool {
    &&& h.nchannels == n
    &&& h.subs@.len() == n && h.subvq@.len() == n && h.shuff@.len() == n && h.bhuff@.len() == n
    &&& t.0.len() == n && t.1.len() == n && t.2.len() == n && t.3.len() == n
    &&& forall|c: int| 0 <= c < n ==> #[trigger] h.subs@[c] as nat == t.0[c]
    &&& forall|c: int| 0 <= c < n ==> #[trigger] h.subvq@[c] as nat == t.1[c]
    &&& forall|c: int| 0 <= c < n ==> #[trigger] h.shuff@[c] as nat == t.2[c]
    &&& forall|c: int| 0 <= c < n ==> #[trigger] h.bhuff@[c] as nat == t.3[c]
}

/// Whether `row` holds `len` copies of `w`.
pub open spec fn filled(row: Seq<usize>, len: nat, w: usize) -> bool {
    &&& row.len() == len
    &&& forall|b: int| 0 <= b < len ==> #[trigger] row[b] == w
}

/// Whether `row` holds `w` where `vals` is non-zero, else zero.
pub open spec fn masked(row: Seq<usize>, vals: Seq<u32>, w: usize) -> bool {
    &&& row.len() == vals.len()
    &&& forall|b: int| 0 <= b < vals.len() ==> #[trigger] row[b] == if vals[b] != 0 { w } else { 0usize }
}

/// Rows of `lens[c]` fields of width `widths[c]`.
fn fill_plane(lens: &Vec<usize>, widths: &Vec<usize>) -> (w: Vec<Vec<usize>>)
    requires
        lens@.len() == widths@.len(),
    ensures
        w@.len() == lens@.len(),
        forall|c: int| 0 <= c < w@.len() ==> #[trigger] filled(w@[c]@, lens@[c] as nat, widths@[c]),
{
    let mut w: Vec<Vec<usize>> = Vec::new();
    let mut c: usize = 0;
    while c < lens.len()
        invariant
            c <= lens@.len() == widths@.len(),
            w@.len() == c,
            forall|k: int| 0 <= k < c ==> #[trigger] filled(w@[k]@, lens@[k] as nat, widths@[k]),
        decreases lens@.len() - c,
    {
        let mut row: Vec<usize> = Vec::new();
        let mut b: usize = 0;
        while b < lens[c]
            invariant
                c < lens@.len() == widths@.len(),
                b <= lens@[c as int],
                row@.len() == b,
                forall|j: int| 0 <= j < b ==> #[trigger] row@[j] == widths@[c as int],
            decreases lens@[c as int] - b,
        {
            row.push(widths[c]);
            b = b + 1;
        }
        assert(filled(row@, lens@[c as int] as nat, widths@[c as int]));
        let ghost old_w = w@;
        w.push(row);
        proof {
            assert forall|k: int| 0 <= k < c + 1 implies #[trigger] filled(
                w@[k]@,
                lens@[k] as nat,
                widths@[k],
            ) by {
                if k < c {
                    assert(w@[k] == old_w[k]);
                }
            }
        }
        c = c + 1;
    }
    w
}

/// Rows of the widths `width` where `rows` is non-zero, else zero.
fn masked_plane(rows: &Vec<Vec<u32>>, width: usize) -> (w: Vec<Vec<usize>>)
    ensures
        w@.len() == rows@.len(),
        forall|c: int| 0 <= c < w@.len() ==> #[trigger] masked(w@[c]@, rows@[c]@, width),
{
    let mut w: Vec<Vec<usize>> = Vec::new();
    let mut c: usize = 0;
    while c < rows.len()
        invariant
            c <= rows@.len(),
            w@.len() == c,
            forall|k: int| 0 <= k < c ==> #[trigger] masked(w@[k]@, rows@[k]@, width),
        decreases rows@.len() - c,
    {
        let mut row: Vec<usize> = Vec::new();
        let mut b: usize = 0;
        while b < rows[c].len()
            invariant
                c < rows@.len(),
                b <= rows@[c as int]@.len(),
                row@.len() == b,
                forall|j: int|
                    0 <= j < b ==> #[trigger] row@[j] == if rows@[c as int]@[j] != 0 {
                        width
                    } else {
                        0usize
                    },
            decreases rows@[c as int]@.len() - b,
        {
            row.push(if rows[c][b] != 0 { width } else { 0 });
            b = b + 1;
        }
        assert(masked(row@, rows@[c as int]@, width));
        let ghost old_w = w@;
        w.push(row);
        proof {
            assert forall|k: int| 0 <= k < c + 1 implies #[trigger] masked(w@[k]@, rows@[k]@, width) by {
                if k < c {
                    assert(w@[k] == old_w[k]);
                }
            }
        }
        c = c + 1;
    }
    w
}

/// Number of bits of `x`.
fn bit_length_of(x: u32) -> (r: usize)
    ensures
        r as nat == bit_length(x as nat),
        r <= 32,
{
    let mut y: u32 = x;
    let mut k: usize = 0;
    proof {
        lemma_bit_length_bound(x as nat);
    }
    while y > 0
        invariant
            bit_length(x as nat) == k + bit_length(y as nat),
            k + bit_length(y as nat) <= 32,
        decreases y,
    {
        proof {
            lemma_bit_length_bound(y as nat);
        }
        y = y / 2;
        k = k + 1;
    }
    k
}

/// `bit_length(x) <= 32` for a 32-bit `x`, and it drops by one on halving.
proof fn lemma_bit_length_bound(x: nat)
    ensures
        x < 0x1_0000_0000 ==> bit_length(x) <= 32,
        x > 0 ==> bit_length(x) == 1 + bit_length(x / 2),
{
    crate::bits::lemma_two_pow_32();
    lemma_bit_length_pow(x, 32);
}

/// `bit_length(x) <= k` below `2^k`.
proof fn lemma_bit_length_pow(x: nat, k: nat)
    ensures
        x < two_pow(k) ==> bit_length(x) <= k,
    decreases k,
{
    if k > 0 && x > 0 {
        lemma_bit_length_pow(x / 2, (k - 1) as nat);
        assert(two_pow(k) == 2 * two_pow((k - 1) as nat));
    } else if k == 0 {
        assert(two_pow(0) == 1);
    }
    if k == 32 {
        crate::bits::lemma_two_pow_32();
    }
}

/// The sample word width of allocation `a`.
fn sample_width_of(a: u32) -> (r: usize)
    ensures
        r as nat == sample_width(a as nat),
        a < 8 ==> r <= 32,
{
    if a >= 8 {
        (a - 3) as usize
    } else {
        bit_length_of(QUANT_LEVELS[a as usize])
    }
}

/// Whether `row` holds the code widths of a channel with first VQ
/// subband `lo` and allocations `a`.
pub open spec fn code_row_ok(row: Seq<usize>, lo: nat, a: Seq<nat>) -> bool {
    &&& row.len() == a.len()
    &&& forall|b: int|
        0 <= b < row.len() ==> #[trigger] row[b] as nat == code_width(lo, a, b) && row[b] <= 26
}

/// The widths of the codes of one sample block.
fn code_plane(subvq: &Vec<u8>, ab: &Vec<Vec<u32>>, Ghost(abm): Ghost<Seq<Seq<nat>>>) -> (w: Vec<
    Vec<usize>,
>)
    requires
        subvq@.len() == ab@.len(),
        rows_are(ab@, abm),
    ensures
        w@.len() == ab@.len(),
        forall|c: int|
            0 <= c < w@.len() ==> #[trigger] code_row_ok(w@[c]@, subvq@[c] as nat, abm[c]),
{
    let mut w: Vec<Vec<usize>> = Vec::new();
    let mut c: usize = 0;
    while c < ab.len()
        invariant
            c <= ab@.len() == subvq@.len(),
            rows_are(ab@, abm),
            w@.len() == c,
            forall|k: int|
                0 <= k < c ==> #[trigger] code_row_ok(w@[k]@, subvq@[k] as nat, abm[k]),
        decreases ab@.len() - c,
    {
        let lo = subvq[c] as usize;
        let mut row: Vec<usize> = Vec::new();
        let mut b: usize = 0;
        assert(values_are(ab@[c as int]@, abm[c as int]));
        while b < ab[c].len()
            invariant
                c < ab@.len() == subvq@.len(),
                lo == subvq@[c as int],
                values_are(ab@[c as int]@, abm[c as int]),
                b <= ab@[c as int]@.len(),
                row@.len() == b,
                forall|j: int|
                    0 <= j < b ==> #[trigger] row@[j] as nat == code_width(
                        subvq@[c as int] as nat,
                        abm[c as int],
                        j,
                    ) && row@[j] <= 26,
            decreases ab@[c as int]@.len() - b,
        {
            let a = ab[c][b];
            assert(a as nat == abm[c as int][b as int]);
            let cw: usize = if b >= lo {
                10
            } else if a == 0 {
                0
            } else {
                let sw = sample_width_of(a);
                if sw == 0 || sw > 26 {
                    0
                } else {
                    sw
                }
            };
            row.push(cw);
            b = b + 1;
        }
        assert(code_row_ok(row@, subvq@[c as int] as nat, abm[c as int]));
        let ghost old_w = w@;
        w.push(row);
        proof {
            assert forall|k: int| 0 <= k < c + 1 implies #[trigger] code_row_ok(
                w@[k]@,
                subvq@[k] as nat,
                abm[k],
            ) by {
                if k < c {
                    assert(w@[k] == old_w[k]);
                }
            }
        }
        c = c + 1;
    }
    w
}

/// A parsed audio coding header holds the tables of its bits.
proof fn lemma_header_tables(h: AudioCodingHeader, bits: Seq<bool>, s: nat, n: nat)
    requires
        coding_header_fields(h, bits, s, n),
    ensures
        header_tables(h, tables_at(bits, s, n), n),
{
    let t = tables_at(bits, s, n);
    assert forall|c: int| 0 <= c < n implies #[trigger] h.subs@[c] as nat == t.0[c] && h.subvq@[
        c
    ] as nat == t.1[c] && h.shuff@[c] as nat == t.2[c] && h.bhuff@[c] as nat == t.3[c] by {
        assert(h.subs@[c] == pass_field(bits, s + 7, 5, c as nat) + 2);
    }
    assert forall|c: int| 0 <= c < n implies #[trigger] h.subvq@[c] as nat == t.1[c] by {
        assert(h.subs@[c] as nat == t.0[c]);
    }
    assert forall|c: int| 0 <= c < n implies #[trigger] h.shuff@[c] as nat == t.2[c] by {
        assert(h.subs@[c] as nat == t.0[c]);
    }
    assert forall|c: int| 0 <= c < n implies #[trigger] h.bhuff@[c] as nat == t.3[c] by {
        assert(h.subs@[c] as nat == t.0[c]);
    }
}

/// Per-channel vectors that drive the planes of every subframe.
struct ChannelPlan {
    lens: Vec<usize>,
    vq_lens: Vec<usize>,
    ones: Vec<usize>,
    sevens: Vec<usize>,
    ab_widths: Vec<usize>,
    ab_bad: Vec<Option<Error>>,
    sc_widths: Vec<usize>,
    sc_bad: Vec<Option<Error>>,
    nones: Vec<Option<Error>>,
}

/// Whether `pl` drives the planes of the tables `t` of `n` channels.
spec fn plan_ok(pl: ChannelPlan, t: Tables, n: nat) -> bool {
    &&& pl.lens@.len() == n && pl.vq_lens@.len() == n && pl.ones@.len() == n
    &&& pl.sevens@.len() == n && pl.ab_widths@.len() == n && pl.ab_bad@.len() == n
    &&& pl.sc_widths@.len() == n && pl.sc_bad@.len() == n && pl.nones@.len() == n
    &&& forall|c: int| 0 <= c < n ==> #[trigger] pl.lens@[c] as nat == t.0[c]
    &&& forall|c: int| 0 <= c < n ==> #[trigger] pl.vq_lens@[c] as nat == span(t.1[c], t.0[c])
    &&& forall|c: int| 0 <= c < n ==> #[trigger] pl.ones@[c] == 1
    &&& forall|c: int| 0 <= c < n ==> #[trigger] pl.sevens@[c] == 7
    &&& forall|c: int|
        0 <= c < n ==> #[trigger] pl.ab_widths@[c] as nat == if t.3[c] == 7 {
            5nat
        } else {
            4nat
        }
    &&& forall|c: int| 0 <= c < n ==> #[trigger] pl.ab_bad@[c] == ab_pre(t)(c as nat)
    &&& forall|c: int|
        0 <= c < n ==> #[trigger] pl.sc_widths@[c] as nat == if t.2[c] == 5 {
            6nat
        } else {
            7nat
        }
    &&& forall|c: int| 0 <= c < n ==> #[trigger] pl.sc_bad@[c] == sc_pre(t)(c as nat)
    &&& forall|c: int| 0 <= c < n ==> #[trigger] pl.nones@[c] == no_pre()(c as nat)
}

/// The per-channel vectors of the header `h`.
fn channel_plan(h: &AudioCodingHeader, Ghost(t): Ghost<Tables>, Ghost(n): Ghost<nat>) -> (pl:
    ChannelPlan)
    requires
        header_tables(*h, t, n),
    ensures
        plan_ok(pl, t, n),
{
    let mut lens: Vec<usize> = Vec::new();
    let mut vq_lens: Vec<usize> = Vec::new();
    let mut ones: Vec<usize> = Vec::new();
    let mut sevens: Vec<usize> = Vec::new();
    let mut ab_widths: Vec<usize> = Vec::new();
    let mut ab_bad: Vec<Option<Error>> = Vec::new();
    let mut sc_widths: Vec<usize> = Vec::new();
    let mut sc_bad: Vec<Option<Error>> = Vec::new();
    let mut nones: Vec<Option<Error>> = Vec::new();
    let nch = h.subs.len();
    let mut c: usize = 0;
    while c < nch
        invariant
            nch == n,
            header_tables(*h, t, n),
            c <= n,
            lens@.len() == c && vq_lens@.len() == c && ones@.len() == c,
            sevens@.len() == c && ab_widths@.len() == c && ab_bad@.len() == c,
            sc_widths@.len() == c && sc_bad@.len() == c && nones@.len() == c,
            forall|k: int| 0 <= k < c ==> #[trigger] lens@[k] as nat == t.0[k],
            forall|k: int| 0 <= k < c ==> #[trigger] vq_lens@[k] as nat == span(t.1[k], t.0[k]),
            forall|k: int| 0 <= k < c ==> #[trigger] ones@[k] == 1,
            forall|k: int| 0 <= k < c ==> #[trigger] sevens@[k] == 7,
            forall|k: int|
                0 <= k < c ==> #[trigger] ab_widths@[k] as nat == if t.3[k] == 7 {
                    5nat
                } else {
                    4nat
                },
            forall|k: int| 0 <= k < c ==> #[trigger] ab_bad@[k] == ab_pre(t)(k as nat),
            forall|k: int|
                0 <= k < c ==> #[trigger] sc_widths@[k] as nat == if t.2[k] == 5 {
                    6nat
                } else {
                    7nat
                },
            forall|k: int| 0 <= k < c ==> #[trigger] sc_bad@[k] == sc_pre(t)(k as nat),
            forall|k: int| 0 <= k < c ==> #[trigger] nones@[k] == no_pre()(k as nat),
        decreases n - c,
    {
        let subs = h.subs[c];
        let subvq = h.subvq[c];
        let bh = h.bhuff[c];
        let sh = h.shuff[c];
        proof {
            assert(subs as nat == t.0[c as int] && bh as nat == t.3[c as int] && sh as nat
                == t.2[c as int] && subvq as nat == t.1[c as int]);
        }
        lens.push(subs as usize);
        vq_lens.push(if subvq < subs { (subs - subvq) as usize } else { 0 });
        ones.push(1);
        sevens.push(7);
        ab_widths.push(if bh == 7 { 5 } else { 4 });
        ab_bad.push(
            if 5 <= bh && bh <= 7 {
                None
            } else {
                Some(Error::InvalidSideInfo { field: "BHUFF", value: bh as u32 })
            },
        );
        sc_widths.push(if sh == 5 { 6 } else { 7 });
        sc_bad.push(
            if sh == 5 || sh == 6 {
                None
            } else {
                Some(Error::InvalidSideInfo { field: "SHUFF", value: sh as u32 })
            },
        );
        nones.push(None);
        c = c + 1;
    }
    ChannelPlan { lens, vq_lens, ones, sevens, ab_widths, ab_bad, sc_widths, sc_bad, nones }
}

/// The side information of one subframe: `(nSSC, ABITS, scale indices,
/// VQ scale indices)`.
#[verifier::rlimit(60)]
fn read_side(
    br: &mut BitReader,
    pl: &ChannelPlan,
    subvq: &Vec<u8>,
    Ghost(t): Ghost<Tables>,
    Ghost(n): Ghost<nat>,
) -> (res: Result<(u8, Vec<Vec<u32>>, Vec<Vec<u32>>, Vec<Vec<u32>>), Error>)
    requires
        plan_ok(*pl, t, n),
        subvq@.len() == n,
        forall|c: int| 0 <= c < n ==> #[trigger] subvq@[c] as nat == t.1[c],
    ensures
        final(br).bytes() == old(br).bytes(),
        match side_walk(bits_of(old(br).bytes()), t, n, old(br).pos()) {
            Ok((ssc, ab, si, vi, p)) => res matches Ok((s, a, x, y)) && s as nat == ssc && rows_are(
                a@,
                ab,
            ) && rows_are(x@, si) && rows_are(y@, vi) && rows_bounded(a@, ab_w(t))
                && rows_bounded(x@, sc_w(t)) && rows_bounded(y@, vq_w(t)) && final(br).pos() == p
                && a@.len() == n && x@.len() == n && y@.len() == n
                && (forall|c: int| 0 <= c < n ==> (#[trigger] a@[c]@.len()) == t.0[c])
                && (forall|c: int| 0 <= c < n ==> (#[trigger] x@[c]@.len()) == t.0[c])
                && (forall|c: int| 0 <= c < n ==> (#[trigger] y@[c]@.len()) == span(t.1[c], t.0[c])),
            Err(e) => res == Err::<(u8, Vec<Vec<u32>>, Vec<Vec<u32>>, Vec<Vec<u32>>), Error>(e),
        },
{
    let ghost bits = bits_of(br.bytes());
    let ghost p0 = br.pos();
    let sc = read_field(br, 2)?;
    proof {
        lemma_read_fixed_bound(bits, p0, 2);
        reveal_with_fuel(two_pow, 3);
    }
    let ghost p1 = br.pos();
    let _psc = read_field(br, 3)?;
    let ghost p2 = br.pos();
    // Prediction modes and their VQ indices.
    let wpm = fill_plane(&pl.lens, &pl.ones);
    assert(plane_widths_are(wpm@, pm_w(t))) by {
        assert forall|c: int| 0 <= c < wpm@.len() implies widths_are(
            #[trigger] wpm@[c]@,
            pm_w(t)(c as nat),
        ) by {
            assert(filled(wpm@[c]@, pl.lens@[c] as nat, pl.ones@[c]));
            assert(pl.ones@[c] == 1);
        }
    }
    let pm = read_plane(br, &wpm, &pl.nones, Ghost(no_pre()), Ghost(pm_w(t)))?;
    let ghost pmm = plane(bits, no_pre(), pm_w(t), p2, n)->Ok_0.0;
    let ghost p3 = br.pos();
    let wpvq = masked_plane(&pm, 12);
    assert(plane_widths_are(wpvq@, pvq_w(t, pmm))) by {
        assert forall|c: int| 0 <= c < wpvq@.len() implies widths_are(
            #[trigger] wpvq@[c]@,
            pvq_w(t, pmm)(c as nat),
        ) by {
            assert(values_are(pm@[c]@, pmm[c]));
            assert(masked(wpvq@[c]@, pm@[c]@, 12));
            assert forall|b: int| 0 <= b < wpvq@[c]@.len() implies #[trigger] wpvq@[c]@[b] as nat
                == pvq_w(t, pmm)(c as nat)[b] && wpvq@[c]@[b] <= 32 by {
                assert(pm@[c]@[b] as nat == pmm[c][b]);
            }
        }
    }
    let _pvq = read_plane(br, &wpvq, &pl.nones, Ghost(no_pre()), Ghost(pvq_w(t, pmm)))?;
    let ghost p4 = br.pos();
    // ABITS.
    let wab = fill_plane(&pl.lens, &pl.ab_widths);
    assert(plane_widths_are(wab@, ab_w(t))) by {
        assert forall|c: int| 0 <= c < wab@.len() implies widths_are(
            #[trigger] wab@[c]@,
            ab_w(t)(c as nat),
        ) by {
            assert(filled(wab@[c]@, pl.lens@[c] as nat, pl.ab_widths@[c]));
            assert(pl.ab_widths@[c] as nat == if t.3[c] == 7 { 5nat } else { 4nat });
        }
    }
    let ab = read_plane(br, &wab, &pl.ab_bad, Ghost(ab_pre(t)), Ghost(ab_w(t)))?;
    let ghost abm = plane(bits, ab_pre(t), ab_w(t), p4, n)->Ok_0.0;
    let ghost p5 = br.pos();
    // Transition modes, with more than one subsubframe.
    if sc > 0 {
        let wtm = masked_plane(&ab, 2);
        assert(plane_widths_are(wtm@, tm_w(t, abm))) by {
            assert forall|c: int| 0 <= c < wtm@.len() implies widths_are(
                #[trigger] wtm@[c]@,
                tm_w(t, abm)(c as nat),
            ) by {
                assert(values_are(ab@[c]@, abm[c]));
                assert(masked(wtm@[c]@, ab@[c]@, 2));
                assert forall|b: int| 0 <= b < wtm@[c]@.len() implies #[trigger] wtm@[c]@[b] as nat
                    == tm_w(t, abm)(c as nat)[b] && wtm@[c]@[b] <= 32 by {
                    assert(ab@[c]@[b] as nat == abm[c][b]);
                }
            }
        }
        let _tm = read_plane(br, &wtm, &pl.nones, Ghost(no_pre()), Ghost(tm_w(t, abm)))?;
    }
    let ghost p6 = br.pos();
    // Scale factor indices.
    let wsc = fill_plane(&pl.lens, &pl.sc_widths);
    assert(plane_widths_are(wsc@, sc_w(t))) by {
        assert forall|c: int| 0 <= c < wsc@.len() implies widths_are(
            #[trigger] wsc@[c]@,
            sc_w(t)(c as nat),
        ) by {
            assert(filled(wsc@[c]@, pl.lens@[c] as nat, pl.sc_widths@[c]));
            assert(pl.sc_widths@[c] as nat == if t.2[c] == 5 { 6nat } else { 7nat });
        }
    }
    let si = read_plane(br, &wsc, &pl.sc_bad, Ghost(sc_pre(t)), Ghost(sc_w(t)))?;
    let ghost p7 = br.pos();
    // Scale factor indices of the VQ subbands.
    let wvq = fill_plane(&pl.vq_lens, &pl.sevens);
    assert(plane_widths_are(wvq@, vq_w(t))) by {
        assert forall|c: int| 0 <= c < wvq@.len() implies widths_are(
            #[trigger] wvq@[c]@,
            vq_w(t)(c as nat),
        ) by {
            assert(filled(wvq@[c]@, pl.vq_lens@[c] as nat, pl.sevens@[c]));
            assert(pl.sevens@[c] == 7);
        }
    }
    let vi = read_plane(br, &wvq, &pl.nones, Ghost(no_pre()), Ghost(vq_w(t)))?;
    Ok(((sc + 1) as u8, ab, si, vi))
}


/// Read `count` sample blocks of codes.
#[verifier::loop_isolation(false)]
fn read_blocks(
    br: &mut BitReader,
    pl: &ChannelPlan,
    wc: &Vec<Vec<usize>>,
    count: usize,
    Ghost(t): Ghost<Tables>,
    Ghost(n): Ghost<nat>,
    Ghost(abm): Ghost<Seq<Seq<nat>>>,
) -> (res: Result<Vec<Vec<Vec<u32>>>, Error>)
    requires
        plan_ok(*pl, t, n),
        wc@.len() == n,
        plane_widths_are(wc@, code_w(t, abm)),
    ensures
        final(br).bytes() == old(br).bytes(),
        match run(block_step(bits_of(old(br).bytes()), t, abm, n), old(br).pos(), (), count as nat) {
            Ok((codes, _, p)) => res matches Ok(v) && v@.len() == codes.len() && final(br).pos() == p
                && forall|k: int|
                0 <= k < v@.len() ==> rows_are(#[trigger] v@[k]@, codes[k]) && rows_bounded(
                    v@[k]@,
                    code_w(t, abm),
                ) && v@[k]@.len() == n && forall|c: int|
                    0 <= c < n ==> (#[trigger] v@[k]@[c]@.len()) == code_w(t, abm)(c as nat).len(),
            Err(e) => res == Err::<Vec<Vec<Vec<u32>>>, Error>(e),
        },
{
    let ghost bits = bits_of(br.bytes());
    let ghost p0 = br.pos();
    let ghost step = block_step(bits, t, abm, n);
    let mut out: Vec<Vec<Vec<u32>>> = Vec::new();
    let mut k: usize = 0;
    while k < count
        invariant
            k <= count,
            bits == bits_of(br.bytes()),
            br.bytes() == old(br).bytes(),
            p0 == old(br).pos(),
            step == block_step(bits, t, abm, n),
            plane_widths_are(wc@, code_w(t, abm)),
            wc@.len() == n,
            run(step, p0, (), k as nat) matches Ok((vs, _, p)) && p == br.pos() && out@.len() == k
                && vs.len() == k && forall|j: int|
                0 <= j < k ==> rows_are(#[trigger] out@[j]@, vs[j]) && rows_bounded(
                    out@[j]@,
                    code_w(t, abm),
                ) && out@[j]@.len() == n && forall|c: int|
                    0 <= c < n ==> (#[trigger] out@[j]@[c]@.len()) == code_w(t, abm)(c as nat).len(),
        decreases count - k,
    {
        let ghost prev = run(step, p0, (), k as nat);
        match read_plane(br, wc, &pl.nones, Ghost(no_pre()), Ghost(code_w(t, abm))) {
            Ok(rows) => {
                let ghost old_out = out@;
                out.push(rows);
                proof {
                    let cur = plane(bits, no_pre(), code_w(t, abm), prev->Ok_0.2, n);
                    assert(step(k as nat, prev->Ok_0.2, ()) == cur);
                    let vs2 = prev->Ok_0.0.push(cur->Ok_0.0);
                    assert forall|j: int| 0 <= j < k + 1 implies rows_are(
                        #[trigger] out@[j]@,
                        vs2[j],
                    ) && rows_bounded(out@[j]@, code_w(t, abm)) && out@[j]@.len() == n && forall|
                        c: int,
                    |
                        0 <= c < n ==> (#[trigger] out@[j]@[c]@.len()) == code_w(t, abm)(
                            c as nat,
                        ).len() by {
                        if j < k {
                            assert(out@[j] == old_out[j]);
                        }
                    }
                }
            },
            Err(e) => {
                proof {
                    let cur = plane(bits, no_pre(), code_w(t, abm), prev->Ok_0.2, n);
                    assert(step(k as nat, prev->Ok_0.2, ()) == cur);
                    lemma_run_err(step, p0, (), (k + 1) as nat, count as nat);
                }
                return Err(e);
            },
        }
        k = k + 1;
    }
    Ok(out)
}

/// The code of subband `b` of a channel with first VQ subband `lo` and
/// allocations `a`, read as `raw`.
pub open spec fn band_code(lo: nat, a: Seq<nat>, b: int, raw: nat) -> BandCode {
    if b >= lo {
        BandCode::Vq(raw as u16)
    } else if code_width(lo, a, b) == 0 {
        BandCode::Silent
    } else {
        BandCode::Sample(signed_value(raw, code_width(lo, a, b)) as i32)
    }
}

/// The codes of one channel in one block.
pub open spec fn band_codes(lo: nat, a: Seq<nat>, raws: Seq<nat>) -> Seq<BandCode> {
    Seq::new(raws.len(), |b: int| band_code(lo, a, b, raws[b]))
}

/// Scale factor of index `idx` with book `sh`: the 6-bit table for 5,
/// else the 7-bit table; zero past the table.
pub open spec fn scale_of(sh: nat, idx: nat) -> u32 {
    if sh == 5 {
        if idx < 64 {
            SCALE_FACTOR_QUANT6@[idx as int]
        } else {
            0
        }
    } else if idx < 128 {
        SCALE_FACTOR_QUANT7@[idx as int]
    } else {
        0
    }
}

/// The scale factors of channel `c`: the VQ subbands' factors replace
/// the ones read first.
pub open spec fn merged_scales(t: Tables, c: int, si: Seq<nat>, vi: Seq<nat>) -> Seq<u32> {
    Seq::new(
        si.len(),
        |b: int|
            if b >= t.1[c] && b - t.1[c] < vi.len() {
                SCALE_FACTOR_QUANT7@[(vi[b - t.1[c]] % 128) as int]
            } else {
                scale_of(t.2[c], si[b])
            },
    )
}

/// `sign_extend` of a value below `2^w` is its two's-complement value.
proof fn lemma_sign_extend_signed(raw: u32, w: nat)
    requires
        1 <= w <= 32,
        (raw as nat) < two_pow(w),
    ensures
        spec_sign_extend(raw, w) == signed_value(raw as nat, w),
{
    reveal_with_fuel(two_pow, 2);
    assert(two_pow(w) == 2 * two_pow((w - 1) as nat));
    vstd::arithmetic::div_mod::lemma_small_mod(raw as nat, two_pow(w));
}

/// The codes of one block, channel by channel.
fn convert_block(
    raw: &Vec<Vec<u32>>,
    subvq: &Vec<u8>,
    wc: &Vec<Vec<usize>>,
    Ghost(t): Ghost<Tables>,
    Ghost(abm): Ghost<Seq<Seq<nat>>>,
    Ghost(vs): Ghost<Seq<Seq<nat>>>,
) -> (out: Vec<Vec<BandCode>>)
    requires
        raw@.len() == subvq@.len(),
        wc@.len() == raw@.len(),
        plane_widths_are(wc@, code_w(t, abm)),
        rows_are(raw@, vs),
        rows_bounded(raw@, code_w(t, abm)),
        forall|c: int| 0 <= c < raw@.len() ==> #[trigger] subvq@[c] as nat == t.1[c],
        forall|c: int| 0 <= c < raw@.len() ==> (#[trigger] raw@[c]@.len()) == t.0[c],
    ensures
        out@.len() == raw@.len(),
        forall|c: int|
            0 <= c < out@.len() ==> #[trigger] out@[c]@ == band_codes(t.1[c], abm[c], vs[c]),
{
    let mut out: Vec<Vec<BandCode>> = Vec::new();
    let mut c: usize = 0;
    while c < raw.len()
        invariant
            c <= raw@.len() == subvq@.len(),
            wc@.len() == raw@.len(),
            plane_widths_are(wc@, code_w(t, abm)),
            rows_are(raw@, vs),
            rows_bounded(raw@, code_w(t, abm)),
            forall|k: int| 0 <= k < raw@.len() ==> #[trigger] subvq@[k] as nat == t.1[k],
            forall|k: int| 0 <= k < raw@.len() ==> (#[trigger] raw@[k]@.len()) == t.0[k],
            out@.len() == c,
            forall|k: int| 0 <= k < c ==> #[trigger] out@[k]@ == band_codes(t.1[k], abm[k], vs[k]),
        decreases raw@.len() - c,
    {
        let lo = subvq[c] as usize;
        let mut row: Vec<BandCode> = Vec::new();
        let mut b: usize = 0;
        let ghost ci = c as int;
        assert(values_are(raw@[ci]@, vs[ci]));
        assert(subvq@[ci] as nat == t.1[ci]);
        assert(widths_are(wc@[ci]@, code_w(t, abm)(c as nat)));
        while b < raw[c].len()
            invariant
                c < raw@.len() == subvq@.len(),
                wc@.len() == raw@.len(),
                widths_are(wc@[ci]@, code_w(t, abm)(c as nat)),
                ci == c,
                lo as nat == t.1[ci],
                values_are(raw@[ci]@, vs[ci]),
                rows_bounded(raw@, code_w(t, abm)),
                raw@[ci]@.len() == t.0[ci],
                b <= raw@[ci]@.len(),
                row@.len() == b,
                forall|j: int| 0 <= j < b ==> #[trigger] row@[j] == band_code(t.1[ci], abm[ci], j, vs[ci][j]),
            decreases raw@[ci]@.len() - b,
        {
            let v = raw[c][b];
            let ghost cw = code_w(t, abm)(c as nat)[b as int];
            proof {
                assert(v as nat == vs[ci][b as int]);
                assert((v as nat) < two_pow(cw));
                assert(cw == code_width(t.1[ci], abm[ci], b as int));
            }
            let w = wc[c][b];
            assert(w as nat == cw);
            let code = if b >= lo {
                proof {
                    reveal_with_fuel(two_pow, 11);
                }
                BandCode::Vq(v as u16)
            } else {
                if w == 0 {
                    BandCode::Silent
                } else {
                    proof {
                        lemma_sign_extend_signed(v, w as nat);
                    }
                    BandCode::Sample(crate::audio_array::sign_extend(v, w as u32))
                }
            };
            row.push(code);
            b = b + 1;
        }
        proof {
            assert(row@ =~= band_codes(t.1[ci], abm[ci], vs[ci]));
        }
        let ghost old_out = out@;
        out.push(row);
        proof {
            assert forall|k: int| 0 <= k < c + 1 implies #[trigger] out@[k]@ == band_codes(
                t.1[k],
                abm[k],
                vs[k],
            ) by {
                if k < c {
                    assert(out@[k] == old_out[k]);
                }
            }
        }
        c = c + 1;
    }
    out
}


/// ABITS as stored: the low byte of each field.
pub open spec fn abits_u8(a: Seq<nat>) -> Seq<u8> {
    Seq::new(a.len(), |b: int| a[b] as u8)
}

/// ABITS bytes and merged scale factors of one subframe.
fn convert_side(
    ab: &Vec<Vec<u32>>,
    si: &Vec<Vec<u32>>,
    vi: &Vec<Vec<u32>>,
    subvq: &Vec<u8>,
    shuff: &Vec<u8>,
    Ghost(t): Ghost<Tables>,
    Ghost(n): Ghost<nat>,
    Ghost(abm): Ghost<Seq<Seq<nat>>>,
    Ghost(sim): Ghost<Seq<Seq<nat>>>,
    Ghost(vim): Ghost<Seq<Seq<nat>>>,
) -> (out: (Vec<Vec<u8>>, Vec<Vec<u32>>))
    requires
        ab@.len() == n && si@.len() == n && vi@.len() == n && subvq@.len() == n && shuff@.len() == n,
        rows_are(ab@, abm),
        rows_are(si@, sim),
        rows_are(vi@, vim),
        forall|c: int| 0 <= c < n ==> #[trigger] subvq@[c] as nat == t.1[c],
        forall|c: int| 0 <= c < n ==> #[trigger] shuff@[c] as nat == t.2[c],
    ensures
        out.0@.len() == n && out.1@.len() == n,
        forall|c: int| 0 <= c < n ==> #[trigger] out.0@[c]@ == abits_u8(abm[c]),
        forall|c: int| 0 <= c < n ==> #[trigger] out.1@[c]@ == merged_scales(t, c, sim[c], vim[c]),
{
    let mut abits: Vec<Vec<u8>> = Vec::new();
    let mut scales: Vec<Vec<u32>> = Vec::new();
    let mut c: usize = 0;
    while c < ab.len()
        invariant
            ab@.len() == n && si@.len() == n && vi@.len() == n && subvq@.len() == n && shuff@.len()
                == n,
            rows_are(ab@, abm),
            rows_are(si@, sim),
            rows_are(vi@, vim),
            forall|k: int| 0 <= k < n ==> #[trigger] subvq@[k] as nat == t.1[k],
            forall|k: int| 0 <= k < n ==> #[trigger] shuff@[k] as nat == t.2[k],
            c <= n,
            abits@.len() == c && scales@.len() == c,
            forall|k: int| 0 <= k < c ==> #[trigger] abits@[k]@ == abits_u8(abm[k]),
            forall|k: int| 0 <= k < c ==> #[trigger] scales@[k]@ == merged_scales(t, k, sim[k], vim[k]),
        decreases n - c,
    {
        let ghost ci = c as int;
        assert(values_are(ab@[ci]@, abm[ci]));
        assert(values_are(si@[ci]@, sim[ci]));
        assert(values_are(vi@[ci]@, vim[ci]));
        let mut arow: Vec<u8> = Vec::new();
        let mut b: usize = 0;
        while b < ab[c].len()
            invariant
                c < n,
                ab@.len() == n,
                values_are(ab@[ci]@, abm[ci]),
                ci == c,
                b <= ab@[ci]@.len(),
                arow@.len() == b,
                forall|j: int| 0 <= j < b ==> #[trigger] arow@[j] == abm[ci][j] as u8,
            decreases ab@[ci]@.len() - b,
        {
            let v = ab[c][b];
            assert(v as nat == abm[ci][b as int]);
            arow.push(v as u8);
            b = b + 1;
        }
        assert(arow@ =~= abits_u8(abm[ci]));
        let lo = subvq[c] as usize;
        let sh = shuff[c];
        let mut srow: Vec<u32> = Vec::new();
        let mut b: usize = 0;
        while b < si[c].len()
            invariant
                c < n,
                si@.len() == n && vi@.len() == n && subvq@.len() == n && shuff@.len() == n,
                values_are(si@[ci]@, sim[ci]),
                values_are(vi@[ci]@, vim[ci]),
                ci == c,
                lo as nat == t.1[ci],
                sh as nat == t.2[ci],
                b <= si@[ci]@.len(),
                srow@.len() == b,
                forall|j: int|
                    0 <= j < b ==> #[trigger] srow@[j] == merged_scales(t, ci, sim[ci], vim[ci])[j],
            decreases si@[ci]@.len() - b,
        {
            let v: u32 = if b >= lo && b - lo < vi[c].len() {
                let x = vi[c][b - lo];
                assert(x as nat == vim[ci][b - lo]);
                SCALE_FACTOR_QUANT7[(x % 128) as usize]
            } else {
                let x = si[c][b];
                assert(x as nat == sim[ci][b as int]);
                if sh == 5 {
                    if x < 64 {
                        SCALE_FACTOR_QUANT6[x as usize]
                    } else {
                        0
                    }
                } else if x < 128 {
                    SCALE_FACTOR_QUANT7[x as usize]
                } else {
                    0
                }
            };
            srow.push(v);
            b = b + 1;
        }
        assert(srow@ =~= merged_scales(t, ci, sim[ci], vim[ci]));
        let ghost old_a = abits@;
        let ghost old_s = scales@;
        abits.push(arow);
        scales.push(srow);
        proof {
            assert forall|k: int| 0 <= k < c + 1 implies #[trigger] abits@[k]@ == abits_u8(abm[k]) by {
                if k < c {
                    assert(abits@[k] == old_a[k]);
                }
            }
            assert forall|k: int| 0 <= k < c + 1 implies #[trigger] scales@[k]@ == merged_scales(
                t,
                k,
                sim[k],
                vim[k],
            ) by {
                if k < c {
                    assert(scales@[k] == old_s[k]);
                }
            }
        }
        c = c + 1;
    }
    (abits, scales)
}

/// One decoded subframe.
#[derive(Debug, Clone)]
pub struct PayloadSubframe {
    /// Number of subsubframes (`SSC + 1`), each of 8 sample blocks.
    pub subsubframes: u8,
    /// ABITS by channel and active subband.
    pub abits: Vec<Vec<u8>>,
    /// Scale factors (Q22) by channel and active subband; the VQ subbands
    /// carry their own.
    pub scales: Vec<Vec<u32>>,
    /// Codes by sample block, channel and active subband.
    pub codes: Vec<Vec<Vec<BandCode>>>,
}

/// The decoded audio payload of one frame.
#[derive(Debug, Clone)]
pub struct AudioPayload {
    /// The audio coding header.
    pub header: AudioCodingHeader,
    /// The subframes in stream order.
    pub subframes: Vec<PayloadSubframe>,
}

/// Whether the codes of one block are the raw codes `raw` of a subframe
/// with ABITS `ab`.
pub open spec fn block_is(blk: Seq<Vec<BandCode>>, raw: Seq<Seq<nat>>, t: Tables, ab: Seq<Seq<nat>>, n: nat) -> bool {
    &&& blk.len() == n
    &&& forall|c: int| 0 <= c < n ==> #[trigger] blk[c]@ == band_codes(t.1[c], ab[c], raw[c])
}

/// Whether `sf` is the subframe `m` of the tables `t` of `n` channels.
#[verifier::opaque]
pub open spec fn subframe_is(sf: PayloadSubframe, m: SubframeWalk, t: Tables, n: nat) -> bool {
    &&& sf.subsubframes as nat == m.0
    &&& sf.abits@.len() == n && sf.scales@.len() == n && sf.codes@.len() == m.4.len()
    &&& forall|c: int| 0 <= c < n ==> #[trigger] sf.abits@[c]@ == abits_u8(m.1[c])
    &&& forall|c: int| 0 <= c < n ==> #[trigger] sf.scales@[c]@ == merged_scales(t, c, m.2[c], m.3[c])
    &&& forall|k: int| 0 <= k < m.4.len() ==> #[trigger] block_is(sf.codes@[k]@, m.4[k], t, m.1, n)
}


/// One subframe: side information, sample blocks and the optional
/// `DSYNC` word.
#[verifier::rlimit(60)]
fn read_subframe(
    br: &mut BitReader,
    h: &AudioCodingHeader,
    pl: &ChannelPlan,
    Ghost(t): Ghost<Tables>,
    Ghost(n): Ghost<nat>,
    Ghost(idx): Ghost<nat>,
) -> (res: Result<PayloadSubframe, Error>)
    requires
        plan_ok(*pl, t, n),
        header_tables(*h, t, n),
        old(br).bytes().len() * 8 <= usize::MAX,
    ensures
        final(br).bytes() == old(br).bytes(),
        match subframe_step(bits_of(old(br).bytes()), t, n)(idx, old(br).pos(), ()) {
            Ok((m, _, p)) => res matches Ok(sf) && subframe_is(sf, m, t, n) && final(br).pos() == p,
            Err(e) => res == Err::<PayloadSubframe, Error>(e),
        },
{
    let ghost bits = bits_of(br.bytes());
    let ghost p0 = br.pos();
    proof {
        reveal(subframe_step);
    }
    let (ssc, ab, si, vi) = read_side(br, pl, &h.subvq, Ghost(t), Ghost(n))?;
    let ghost sw = side_walk(bits, t, n, p0)->Ok_0;
    let ghost abm = sw.1;
    let ghost p8 = br.pos();
    assert(ab@.len() == n);
    let wc = code_plane(&h.subvq, &ab, Ghost(abm));
    assert(plane_widths_are(wc@, code_w(t, abm))) by {
        assert forall|c: int| 0 <= c < wc@.len() implies widths_are(
            #[trigger] wc@[c]@,
            code_w(t, abm)(c as nat),
        ) by {
            assert(code_row_ok(wc@[c]@, h.subvq@[c] as nat, abm[c]));
            assert(ab@[c]@.len() == t.0[c]);
            assert(values_are(ab@[c]@, abm[c]));
            assert forall|b: int| 0 <= b < wc@[c]@.len() implies #[trigger] wc@[c]@[b] as nat
                == code_w(t, abm)(c as nat)[b] && wc@[c]@[b] <= 32 by {
                assert(wc@[c]@[b] as nat == code_width(h.subvq@[c] as nat, abm[c], b));
            }
        }
    }
    let count = (ssc as usize) * SAMPLES_PER_BLOCK;
    let raw = read_blocks(br, pl, &wc, count, Ghost(t), Ghost(n), Ghost(abm))?;
    let ghost cm = run(block_step(bits, t, abm, n), p8, (), count as nat)->Ok_0.0;
    let ghost p9 = br.pos();
    if br.bits_remaining() >= 16 {
        let _dsync = read_field(br, 16);
    }
    assert(br.pos() == dsync_end(bits.len(), p9));
    let (abits, scales) = convert_side(
        &ab,
        &si,
        &vi,
        &h.subvq,
        &h.shuff,
        Ghost(t),
        Ghost(n),
        Ghost(abm),
        Ghost(sw.2),
        Ghost(sw.3),
    );
    let mut codes: Vec<Vec<Vec<BandCode>>> = Vec::new();
    let mut k: usize = 0;
    while k < raw.len()
        invariant
            k <= raw@.len() == cm.len(),
            header_tables(*h, t, n),
            wc@.len() == n,
            plane_widths_are(wc@, code_w(t, abm)),
            forall|j: int|
                0 <= j < raw@.len() ==> rows_are(#[trigger] raw@[j]@, cm[j]) && rows_bounded(
                    raw@[j]@,
                    code_w(t, abm),
                ) && raw@[j]@.len() == n && forall|c: int|
                    0 <= c < n ==> (#[trigger] raw@[j]@[c]@.len()) == code_w(t, abm)(c as nat).len(),
            codes@.len() == k,
            forall|j: int| 0 <= j < k ==> #[trigger] block_is(codes@[j]@, cm[j], t, abm, n),
        decreases raw@.len() - k,
    {
        assert(rows_are(raw@[k as int]@, cm[k as int]));
        assert forall|c: int| 0 <= c < raw@[k as int]@.len() implies (
        #[trigger] raw@[k as int]@[c]@.len()) == t.0[c] by {
            assert(raw@[k as int]@[c]@.len() == code_w(t, abm)(c as nat).len());
        }
        let blk = convert_block(&raw[k], &h.subvq, &wc, Ghost(t), Ghost(abm), Ghost(cm[k as int]));
        let ghost old_codes = codes@;
        codes.push(blk);
        proof {
            assert forall|j: int| 0 <= j < k + 1 implies #[trigger] block_is(
                codes@[j]@,
                cm[j],
                t,
                abm,
                n,
            ) by {
                if j < k {
                    assert(codes@[j] == old_codes[j]);
                }
            }
        }
        k = k + 1;
    }
    let sf = PayloadSubframe { subsubframes: ssc, abits, scales, codes };
    proof {
        reveal(subframe_is);
    }
    Ok(sf)
}

/// Decode the audio payload of a Core frame whose header takes
/// `header_bits` bits: the audio coding header (checked against the
/// frame's `primary_channels`, with its CRC word when `crc_present`),
/// then every subframe's side information and codes with the direct
/// code books.
#[verifier::rlimit(40)]
pub fn decode_audio_payload(
    data: &[u8],
    header_bits: usize,
    primary_channels: u8,
    crc_present: bool,
) -> (res: Result<AudioPayload, Error>)
    requires
        data@.len() * 8 <= usize::MAX,
        !payload_overflows(bits_of(data@), header_bits as nat, primary_channels as nat, crc_present),
    ensures
        match payload_walk(bits_of(data@), header_bits as nat, primary_channels as nat, crc_present) {
            Ok((n, t, sfs)) => res matches Ok(p) && coding_header_fields(
                p.header,
                bits_of(data@),
                header_bits as nat,
                n,
            ) && p.subframes@.len() == sfs.len() && forall|k: int|
                0 <= k < sfs.len() ==> #[trigger] subframe_is(p.subframes@[k], sfs[k], t, n),
            Err(e) => res == Err::<AudioPayload, Error>(e),
        },
{
    let ghost bits = bits_of(data@);
    let mut r = BitReader::new(data);
    r.skip(header_bits)?;
    let h = parse_audio_coding_header(&mut r, primary_channels, crc_present)?;
    let ghost n = h.nchannels as nat;
    let ghost hb = header_bits as nat;
    let ghost t = tables_at(bits, hb, n);
    proof {
        assert(coding_header_fields(h, bits, hb, n));
        lemma_header_tables(h, bits, hb, n);
    }
    let pl = channel_plan(&h, Ghost(t), Ghost(n));
    let ghost p0 = r.pos();
    assert(p0 == hb + coding_header_bits(n, crc_present));
    assert(h.nsubframes as nat == fld(bits, hb as int, 4) + 1);
    assert(n == primary_channels);
    assert(bits.len() == data@.len() * 8);
    assert(hb + 7 <= bits.len() && hb + 7 <= usize::MAX);
    assert(hb + coding_header_bits(n, crc_present) <= bits.len() && hb + coding_header_bits(
        n,
        crc_present,
    ) <= usize::MAX);
    assert(n == fld(bits, hb + 4int, 3) + 1);
    let ghost step = subframe_step(bits, t, n);
    let mut subframes: Vec<PayloadSubframe> = Vec::new();
    let mut k: u8 = 0;
    while k < h.nsubframes
        invariant
            k <= h.nsubframes,
            r.bytes() == data@,
            bits == bits_of(data@),
            data@.len() * 8 <= usize::MAX,
            plan_ok(pl, t, n),
            header_tables(h, t, n),
            step == subframe_step(bits, t, n),
            t == tables_at(bits, hb, n),
            hb == header_bits,
            p0 == hb + coding_header_bits(n, crc_present),
            h.nsubframes as nat == fld(bits, hb as int, 4) + 1,
            n == primary_channels,
            n == fld(bits, hb + 4int, 3) + 1,
            hb + 7 <= bits.len() && hb + 7 <= usize::MAX,
            hb + coding_header_bits(n, crc_present) <= bits.len() && hb + coding_header_bits(
                n,
                crc_present,
            ) <= usize::MAX,
            coding_header_fields(h, bits, hb, n),
            run(step, p0, (), k as nat) matches Ok((sfs, _, p)) && p == r.pos() && subframes@.len()
                == k && sfs.len() == k && forall|j: int|
                0 <= j < k ==> #[trigger] subframe_is(subframes@[j], sfs[j], t, n),
        decreases h.nsubframes - k,
    {
        let ghost prev = run(step, p0, (), k as nat);
        match read_subframe(&mut r, &h, &pl, Ghost(t), Ghost(n), Ghost(k as nat)) {
            Ok(sf) => {
                let ghost old_sfs = subframes@;
                subframes.push(sf);
                proof {
                    let cur = step(k as nat, prev->Ok_0.2, ());
                    let all = prev->Ok_0.0.push(cur->Ok_0.0);
                    assert forall|j: int| 0 <= j < k + 1 implies #[trigger] subframe_is(
                        subframes@[j],
                        all[j],
                        t,
                        n,
                    ) by {
                        if j < k {
                            assert(subframes@[j] == old_sfs[j]);
                        }
                    }
                }
            },
            Err(e) => {
                proof {
                    lemma_run_err(step, p0, (), (k + 1) as nat, h.nsubframes as nat);
                    assert(run(step, p0, (), h.nsubframes as nat) == Err::<
                        (Seq<SubframeWalk>, (), nat),
                        Error,
                    >(e));
                    assert(payload_walk(bits, hb, primary_channels as nat, crc_present) == Err::<
                        (nat, Tables, Seq<SubframeWalk>),
                        Error,
                    >(e));
                }
                return Err(e);
            },
        }
        k = k + 1;
    }
    Ok(AudioPayload { header: h, subframes })
}


/// The first `k` entries of `v`.
fn prefix<T: Copy>(v: &Vec<T>, k: usize) -> (r: Vec<T>)
    requires
        k <= v@.len(),
    ensures
        r@ == v@.subrange(0, k as int),
{
    let mut r: Vec<T> = Vec::new();
    let mut i: usize = 0;
    while i < k
        invariant
            i <= k <= v@.len(),
            r@ == v@.subrange(0, i as int),
        decreases k - i,
    {
        r.push(v[i]);
        i = i + 1;
    }
    r
}

/// Whether [`decode_audio_payload`] would reach a channel declaring more
/// than 32 subbands: the inputs its `requires` leaves out.
#[verifier::rlimit(60)]
pub fn payload_overflows_at(
    data: &[u8],
    header_bits: usize,
    primary_channels: u8,
    crc_present: bool,
) -> (b: bool)
    requires
        data@.len() * 8 <= usize::MAX,
    ensures
        b == payload_overflows(bits_of(data@), header_bits as nat, primary_channels as nat, crc_present),
{
    let ghost bits = bits_of(data@);
    let ghost hb = header_bits as nat;
    let mut r = BitReader::new(data);
    if r.skip(header_bits).is_err() {
        return false;
    }
    let h = match parse_audio_coding_header(&mut r, primary_channels, crc_present) {
        Ok(h) => h,
        Err(_) => {
            return false;
        },
    };
    let ghost n = h.nchannels as nat;
    let ghost t = tables_at(bits, hb, n);
    proof {
        assert(coding_header_fields(h, bits, hb, n));
        lemma_header_tables(h, bits, hb, n);
        assert(bits.len() == data@.len() * 8);
    }
    let ghost p0 = r.pos();
    assert(p0 == hb + coding_header_bits(n, crc_present));
    // The first channel declaring more than 32 subbands.
    let nch = h.subs.len();
    let mut c: usize = 0;
    while c < nch && h.subs[c] <= 32
        invariant
            c <= nch,
            nch == n,
            header_tables(h, t, n),
            forall|k: int| 0 <= k < c ==> t.0[k] <= 32,
        decreases nch - c,
    {
        c = c + 1;
    }
    if c == nch {
        return false;
    }
    let ghost cs = c as nat;
    assert(t.0[c as int] > 32);
    let pl = channel_plan(&h, Ghost(t), Ghost(n));
    let ghost p0b = r.pos();
    if read_field(&mut r, 2).is_err() {
        return false;
    }
    let ghost p1 = r.pos();
    if read_field(&mut r, 3).is_err() {
        return false;
    }
    let ghost p2 = r.pos();
    let wpm = fill_plane(&pl.lens, &pl.ones);
    assert(plane_widths_are(wpm@, pm_w(t))) by {
        assert forall|k: int| 0 <= k < wpm@.len() implies widths_are(
            #[trigger] wpm@[k]@,
            pm_w(t)(k as nat),
        ) by {
            assert(filled(wpm@[k]@, pl.lens@[k] as nat, pl.ones@[k]));
            assert(pl.ones@[k] == 1);
        }
    }
    let pm = match read_plane(&mut r, &wpm, &pl.nones, Ghost(no_pre()), Ghost(pm_w(t))) {
        Ok(pm) => pm,
        Err(_) => {
            return false;
        },
    };
    let ghost pmm = plane(bits, no_pre(), pm_w(t), p2, n)->Ok_0.0;
    let ghost p3 = r.pos();
    let wpvq = masked_plane(&pm, 12);
    assert(plane_widths_are(wpvq@, pvq_w(t, pmm))) by {
        assert forall|k: int| 0 <= k < wpvq@.len() implies widths_are(
            #[trigger] wpvq@[k]@,
            pvq_w(t, pmm)(k as nat),
        ) by {
            assert(values_are(pm@[k]@, pmm[k]));
            assert(masked(wpvq@[k]@, pm@[k]@, 12));
            assert forall|b: int| 0 <= b < wpvq@[k]@.len() implies #[trigger] wpvq@[k]@[b] as nat
                == pvq_w(t, pmm)(k as nat)[b] && wpvq@[k]@[b] <= 32 by {
                assert(pm@[k]@[b] as nat == pmm[k][b]);
            }
        }
    }
    if read_plane(&mut r, &wpvq, &pl.nones, Ghost(no_pre()), Ghost(pvq_w(t, pmm))).is_err() {
        return false;
    }
    let ghost p4 = r.pos();
    // The ABITS of the channels up to the first overflowing one.
    let lens_p = prefix(&pl.lens, c + 1);
    let widths_p = prefix(&pl.ab_widths, c + 1);
    let bad_p = prefix(&pl.ab_bad, c + 1);
    let wab = fill_plane(&lens_p, &widths_p);
    assert(plane_widths_are(wab@, ab_w(t))) by {
        assert forall|k: int| 0 <= k < wab@.len() implies widths_are(
            #[trigger] wab@[k]@,
            ab_w(t)(k as nat),
        ) by {
            assert(filled(wab@[k]@, lens_p@[k] as nat, widths_p@[k]));
            assert(lens_p@[k] == pl.lens@[k]);
            assert(widths_p@[k] == pl.ab_widths@[k]);
            assert(pl.ab_widths@[k] as nat == if t.3[k] == 7 { 5nat } else { 4nat });
        }
    }
    assert forall|k: int| 0 <= k < bad_p@.len() implies #[trigger] bad_p@[k] == ab_pre(t)(
        k as nat,
    ) by {
        assert(bad_p@[k] == pl.ab_bad@[k]);
    }
    let res = read_plane(&mut r, &wab, &bad_p, Ghost(ab_pre(t)), Ghost(ab_w(t)));
    proof {
        let f = chan_step(bits, ab_pre(t), ab_w(t));
        assert(p0b == p0);
        if plane(bits, ab_pre(t), ab_w(t), p4, cs + 1) is Ok {
            assert(overflows(bits, t, n, p0));
        }
        if overflows(bits, t, n, p0) {
            let k = choose|k: nat|
                k < n && t.0[k as int] > 32 && #[trigger] plane(bits, ab_pre(t), ab_w(t), p4, k + 1) is Ok;
            assert(k >= cs);
            if plane(bits, ab_pre(t), ab_w(t), p4, cs + 1) is Err {
                lemma_run_err(f, p4, (), cs + 1, k + 1);
            }
        }
    }
    res.is_ok()
}

// ---------------------------------------------------------------------
// The shape of a decoded payload
// ---------------------------------------------------------------------

/// A plane that was read holds one row per channel, each as long as its
/// widths.
proof fn lemma_plane_shape(
    bits: Seq<bool>,
    pre: spec_fn(nat) -> Option<Error>,
    ws: spec_fn(nat) -> Seq<nat>,
    p: nat,
    n: nat,
)
    ensures
        plane(bits, pre, ws, p, n) matches Ok((rows, _, _)) ==> rows.len() == n && forall|c: int|
            0 <= c < n ==> (#[trigger] rows[c]).len() == ws(c as nat).len(),
{
    let f = chan_step(bits, pre, ws);
    let q = |c: nat, row: Seq<nat>| row.len() == ws(c).len();
    assert forall|i: nat, p2: nat, s: ()| #[trigger] f(i, p2, s) is Ok implies q(
        i,
        f(i, p2, s)->Ok_0.0,
    ) by {
        lemma_run_len(width_step(bits, ws(i)), p2, (), ws(i).len());
    }
    lemma_run_len(f, p, (), n);
    lemma_run_each(f, p, (), n, q);
    if plane(bits, pre, ws, p, n) is Ok {
        let rows = plane(bits, pre, ws, p, n)->Ok_0.0;
        assert forall|c: int| 0 <= c < n implies (#[trigger] rows[c]).len() == ws(c as nat).len() by {
            assert(q(c as nat, rows[c]));
        }
    }
}

/// Whether a subframe's codes hold 8 blocks per subsubframe, each with
/// one row per channel of one code per active subband.
pub open spec fn subframe_shape(m: SubframeWalk, t: Tables, n: nat) -> bool {
    &&& 1 <= m.0 <= 4
    &&& m.4.len() == m.0 * 8
    &&& forall|j: int| 0 <= j < m.4.len() ==> (#[trigger] m.4[j]).len() == n
    &&& forall|j: int, c: int|
        0 <= j < m.4.len() && 0 <= c < n ==> (#[trigger] m.4[j][c]).len() == t.0[c]
}

/// Every subframe step that succeeds has the subframe shape.
proof fn lemma_subframe_step_shape(bits: Seq<bool>, t: Tables, n: nat, i: nat, p: nat)
    ensures
        subframe_step(bits, t, n)(i, p, ()) is Ok ==> subframe_shape(
            subframe_step(bits, t, n)(i, p, ())->Ok_0.0,
            t,
            n,
        ),
{
    reveal(subframe_step);
    if side_walk(bits, t, n, p) is Ok {
        let sw = side_walk(bits, t, n, p)->Ok_0;
        lemma_read_fixed_bound(bits, p, 2);
        reveal_with_fuel(two_pow, 3);
        let f = block_step(bits, t, sw.1, n);
        let q = |k: nat, blk: Seq<Seq<nat>>|
            blk.len() == n && forall|c: int| 0 <= c < n ==> (#[trigger] blk[c]).len() == t.0[c];
        assert forall|k: nat, p2: nat, s: ()| #[trigger] f(k, p2, s) is Ok implies q(
            k,
            f(k, p2, s)->Ok_0.0,
        ) by {
            lemma_plane_shape(bits, no_pre(), code_w(t, sw.1), p2, n);
        }
        lemma_run_len(f, sw.4, (), sw.0 * 8);
        lemma_run_each(f, sw.4, (), sw.0 * 8, q);
        if run(f, sw.4, (), sw.0 * 8) is Ok {
            let codes = run(f, sw.4, (), sw.0 * 8)->Ok_0.0;
            assert forall|j: int| 0 <= j < codes.len() implies (#[trigger] codes[j]).len() == n by {
                assert(q(j as nat, codes[j]));
            }
            assert forall|j: int, c: int| 0 <= j < codes.len() && 0 <= c < n implies (
            #[trigger] codes[j][c]).len() == t.0[c] by {
                assert(q(j as nat, codes[j]));
            }
        }
    }
}

/// A decoded payload has one subframe per subframe the header declares;
/// each subframe holds 8 sample blocks per subsubframe (one to four of
/// them), and each block one row per channel with one code per active
/// subband of that channel.
pub proof fn lemma_payload_shape(data: Seq<u8>, hb: nat, pc: nat, crc: bool)
    ensures
        payload_walk(bits_of(data), hb, pc, crc) matches Ok((n, t, sfs)) ==> {
            &&& sfs.len() == fld(bits_of(data), hb as int, 4) + 1
            &&& forall|k: int| 0 <= k < sfs.len() ==> #[trigger] subframe_shape(sfs[k], t, n)
        },
{
    let bits = bits_of(data);
    if payload_walk(bits, hb, pc, crc) is Ok {
        let n = fld(bits, hb + 4int, 3) + 1;
        let t = tables_at(bits, hb, n);
        let f = subframe_step(bits, t, n);
        let start = hb + coding_header_bits(n, crc);
        let cnt = fld(bits, hb as int, 4) + 1;
        let q = |k: nat, m: SubframeWalk| subframe_shape(m, t, n);
        assert forall|k: nat, p: nat, s: ()| #[trigger] f(k, p, s) is Ok implies q(
            k,
            f(k, p, s)->Ok_0.0,
        ) by {
            lemma_subframe_step_shape(bits, t, n, k, p);
        }
        lemma_run_len(f, start, (), cnt);
        lemma_run_each(f, start, (), cnt, q);
        let sfs = run(f, start, (), cnt)->Ok_0.0;
        assert forall|k: int| 0 <= k < sfs.len() implies #[trigger] subframe_shape(sfs[k], t, n) by {
            assert(q(k as nat, sfs[k]));
        }
    }
}


/// The width of each directly coded subband sample in the payload walk.
/// Below the first VQ subband, an allocation `a` from 8 to 29 is an
/// `(a - 3)`-bit two's-complement word, and up to 26 that word has exactly
/// as many values as the quantizer has levels (`2^(a-3)`). An allocation
/// from 1 to 7 takes the fewest bits that hold its level count:
/// `2^(w-1) <= levels < 2^w`. From the first VQ subband on every code is a
/// 10-bit VQ index.
pub proof fn lemma_sample_code_widths(lo: nat, ab: Seq<nat>, b: int)
    requires
        0 <= b < ab.len(),
    ensures
        b >= lo ==> code_width(lo, ab, b) == 10,
        b < lo && 8 <= ab[b] <= 29 ==> code_width(lo, ab, b) == ab[b] - 3,
        b < lo && 8 <= ab[b] <= 26 ==> two_pow(code_width(lo, ab, b)) == QUANT_LEVELS@[ab[b] as int],
        b < lo && 1 <= ab[b] <= 7 ==> code_width(lo, ab, b) >= 1 && two_pow(
            (code_width(lo, ab, b) - 1) as nat,
        ) <= QUANT_LEVELS@[ab[b] as int] < two_pow(code_width(lo, ab, b)),
        b < lo && ab[b] == 0 ==> code_width(lo, ab, b) == 0,
{
    if b < lo {
        let a = ab[b];
        reveal_with_fuel(two_pow, 25);
        reveal_with_fuel(bit_length, 6);
        if 8 <= a <= 29 {
            assert(code_width(lo, ab, b) == a - 3);
            if a <= 26 {
                assert(two_pow((a - 3) as nat) == QUANT_LEVELS@[a as int]);
            }
        } else if 1 <= a <= 7 {
            assert(QUANT_LEVELS@[a as int] == [3u32, 5, 7, 9, 13, 17, 25]@[a - 1]);
        }
    }
}

} // verus!
