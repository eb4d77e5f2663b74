//! The Primary Audio Coding Side Information walk of one subframe: the
//! SSC/PSC prefix, then the PMODE, PVQ, ABITS, TMODE and SCALES planes in
//! the order the bit stream carries them.

use crate::bits::{bits_of, BitReader};
use crate::error::Error;
use crate::side_info::{
    decode_abits, decode_scales, decode_tmode, spec_decode_abits, spec_decode_scales,
    spec_decode_tmode, spec_read_fixed, shifted, AbitsCodebook, ScalesCodebook, SubsubframeCount,
    TmodeCodebook,
};
use vstd::prelude::*;

verus! {

/// Number of subbands of the 32-band filter bank.
pub const NUM_SUBBAND: usize = 32;

/// At most five primary channels are carried in the side information.
pub const MAX_PRIMARY_CHANNELS: usize = 5;

/// Per-channel loop bounds and code-book selectors for the walk.
#[derive(Debug, Clone, Copy, PartialEq, Eq)]
pub struct ChannelSideInfoParams {
    /// Active subbands `nSUBS` (at most 32).
    pub n_subs: usize,
    /// First high-frequency VQ subband `nVQSUB` (at most `n_subs`).
    pub n_vqsub: usize,
    /// ABITS code book (`BHUFF`).
    pub abits_codebook: AbitsCodebook,
    /// TMODE code book (`THUFF`).
    pub tmode_codebook: TmodeCodebook,
    /// SCALES code book (`SHUFF`).
    pub scales_codebook: ScalesCodebook,
}

/// Decoded side information of one primary channel; slots no loop
/// reaches stay zero (`None` for `pvq_index`).
#[derive(Debug, Clone, PartialEq, Eq)]
#[non_exhaustive]
pub struct ChannelSideInfo {
    /// PMODE per subband (1 = ADPCM prediction active).
    pub pmode: [u8; 32],
    /// 12-bit ADPCM coefficient VQ index, for the subbands with PMODE set.
    pub pvq_index: [Option<u16>; 32],
    /// ABITS per subband (below `n_vqsub`).
    pub abits: [u8; 32],
    /// TMODE per subband.
    pub tmode: [u8; 32],
    /// Scale factors per subband: before and after a transient.
    pub scales: [[u32; 2]; 32],
}

/// The decoded side-information block of one subframe.
#[derive(Debug, Clone, PartialEq, Eq)]
#[non_exhaustive]
pub struct PrimarySideInfo {
    /// The SSC/PSC prefix.
    pub subsubframe_count: SubsubframeCount,
    /// One entry per primary channel.
    pub channels: Vec<ChannelSideInfo>,
}

// ---------------------------------------------------------------------
// The walk, as a function of the bit stream
// ---------------------------------------------------------------------

/// One step of a sequential field walk: given the item index, the bit
/// position and a running state, the decoded item, the new state and the
/// new position.
pub type Step<V, S> = spec_fn(nat, nat, S) -> Result<(V, S, nat), Error>;

/// Running `n` steps of `f` from position `pos` and state `s0`.
pub open spec fn run<V, S>(f: Step<V, S>, pos: nat, s0: S, n: nat) -> Result<(Seq<V>, S, nat), Error>
    decreases n,
{
    if n == 0 {
        Ok((Seq::empty(), s0, pos))
    } else {
        match run(f, pos, s0, (n - 1) as nat) {
            Err(e) => Err(e),
            Ok((vs, s, p)) => match f((n - 1) as nat, p, s) {
                Err(e) => Err(e),
                Ok((v, s2, p2)) => Ok((vs.push(v), s2, p2)),
            },
        }
    }
}

/// A failed walk stays failed with the same error.
pub proof fn lemma_run_err<V, S>(f: Step<V, S>, pos: nat, s0: S, k: nat, n: nat)
    requires
        k <= n,
        run(f, pos, s0, k) is Err,
    ensures
        run(f, pos, s0, n) == run(f, pos, s0, k),
    decreases n,
{
    if k < n {
        lemma_run_err(f, pos, s0, k, (n - 1) as nat);
    }
}

/// A successful walk of `n` steps yields `n` items.
pub proof fn lemma_run_len<V, S>(f: Step<V, S>, pos: nat, s0: S, n: nat)
    ensures
        run(f, pos, s0, n) matches Ok((vs, _, _)) ==> vs.len() == n,
    decreases n,
{
    if n > 0 {
        lemma_run_len(f, pos, s0, (n - 1) as nat);
    }
}

/// A property that every successful step's item has holds of every item
/// of a successful walk.
pub proof fn lemma_run_each<V, S>(f: Step<V, S>, pos: nat, s0: S, n: nat, q: spec_fn(nat, V) -> bool)
    requires
        forall|i: nat, p: nat, s: S| #[trigger] f(i, p, s) is Ok ==> q(i, f(i, p, s)->Ok_0.0),
    ensures
        run(f, pos, s0, n) is Ok ==> forall|i: int|
            0 <= i < run(f, pos, s0, n)->Ok_0.0.len() ==> #[trigger] q(
                i as nat,
                run(f, pos, s0, n)->Ok_0.0[i],
            ),
    decreases n,
{
    if n > 0 {
        let m = (n - 1) as nat;
        lemma_run_each(f, pos, s0, m, q);
        lemma_run_len(f, pos, s0, m);
        if run(f, pos, s0, m) is Ok {
            let prev = run(f, pos, s0, m)->Ok_0;
            let r = f(m, prev.2, prev.1);
            if r is Ok {
                let vs = prev.0.push(r->Ok_0.0);
                assert forall|i: int| 0 <= i < vs.len() implies #[trigger] q(i as nat, vs[i]) by {
                    if i < m {
                        assert(vs[i] == prev.0[i]);
                    }
                }
            }
        }
    }
}

/// The 32-slot plane holding `s` followed by `d`.
pub open spec fn pad32<T>(s: Seq<T>, d: T) -> Seq<T> {
    Seq::new(32, |i: int| if i < s.len() { s[i] } else { d })
}

/// PMODE: one bit per subband.
pub open spec fn pmode_step(bits: Seq<bool>) -> Step<u8, ()> {
    |n: nat, p: nat, s: ()|
        match spec_read_fixed(bits, p, 1) {
            Ok((v, p2)) => Ok((v as u8, (), p2)),
            Err(e) => Err(e),
        }
}

/// PMODE plane of channel `ch`.
pub open spec fn pmode_chan(bits: Seq<bool>, params: Seq<ChannelSideInfoParams>) -> Step<
    Seq<u8>,
    (),
> {
    |ch: nat, p: nat, s: ()| run(pmode_step(bits), p, (), params[ch as int].n_subs as nat)
}

/// PVQ: a 12-bit index for each subband whose PMODE bit is set.
pub open spec fn pvq_step(bits: Seq<bool>, pm: Seq<u8>) -> Step<Option<u16>, ()> {
    |n: nat, p: nat, s: ()|
        if pm[n as int] > 0 {
            match spec_read_fixed(bits, p, 12) {
                Ok((v, p2)) => Ok((Some(v as u16), (), p2)),
                Err(e) => Err(e),
            }
        } else {
            Ok((None, (), p))
        }
}

/// PVQ plane of channel `ch`.
pub open spec fn pvq_chan(
    bits: Seq<bool>,
    params: Seq<ChannelSideInfoParams>,
    pm: Seq<Seq<u8>>,
) -> Step<Seq<Option<u16>>, ()> {
    |ch: nat, p: nat, s: ()|
        run(pvq_step(bits, pm[ch as int]), p, (), params[ch as int].n_subs as nat)
}

/// ABITS: one field per subband below `n_vqsub`.
pub open spec fn abits_step(bits: Seq<bool>, cb: AbitsCodebook) -> Step<u8, ()> {
    |n: nat, p: nat, s: ()|
        match spec_decode_abits(bits, p, cb) {
            Ok((v, p2)) => Ok((v, (), p2)),
            Err(e) => Err(e),
        }
}

/// ABITS plane of channel `ch`.
pub open spec fn abits_chan(bits: Seq<bool>, params: Seq<ChannelSideInfoParams>) -> Step<
    Seq<u8>,
    (),
> {
    |ch: nat, p: nat, s: ()|
        run(
            abits_step(bits, params[ch as int].abits_codebook),
            p,
            (),
            params[ch as int].n_vqsub as nat,
        )
}

/// TMODE: one field per subband below `n_vqsub` with bits allocated.
pub open spec fn tmode_step(bits: Seq<bool>, cb: TmodeCodebook, ab: Seq<u8>) -> Step<u8, ()> {
    |n: nat, p: nat, s: ()|
        if ab[n as int] > 0 {
            match spec_decode_tmode(bits, p, cb) {
                Ok((v, p2)) => Ok((v, (), p2)),
                Err(e) => Err(e),
            }
        } else {
            Ok((0u8, (), p))
        }
}

/// TMODE plane of channel `ch`.
pub open spec fn tmode_chan(
    bits: Seq<bool>,
    params: Seq<ChannelSideInfoParams>,
    ab: Seq<Seq<u8>>,
) -> Step<Seq<u8>, ()> {
    |ch: nat, p: nat, s: ()|
        run(
            tmode_step(bits, params[ch as int].tmode_codebook, ab[ch as int]),
            p,
            (),
            params[ch as int].n_vqsub as nat,
        )
}

/// SCALES: below `n_vqsub`, one factor per subband with bits allocated
/// (two when TMODE marks a transient); from `n_vqsub` to `n_subs`, one
/// factor each. The running index carries across the whole channel.
pub open spec fn scales_step(
    bits: Seq<bool>,
    cb: ScalesCodebook,
    n_vqsub: nat,
    ab: Seq<u8>,
    tm: Seq<u8>,
) -> Step<[u32; 2], int> {
    |n: nat, p: nat, sum: int|
        if n < n_vqsub && ab[n as int] == 0 {
            Ok(([0u32, 0u32], sum, p))
        } else {
            match spec_decode_scales(bits, p, cb, sum) {
                Err(e) => Err(e),
                Ok((v0, sum1, p1)) => if n < n_vqsub && tm[n as int] > 0 {
                    match spec_decode_scales(bits, p1, cb, sum1) {
                        Err(e) => Err(e),
                        Ok((v1, sum2, p2)) => Ok(([v0, v1], sum2, p2)),
                    }
                } else {
                    Ok(([v0, 0u32], sum1, p1))
                },
            }
        }
}

/// SCALES plane of channel `ch` (the running index starts at 0).
pub open spec fn scales_chan(
    bits: Seq<bool>,
    params: Seq<ChannelSideInfoParams>,
    ab: Seq<Seq<u8>>,
    tm: Seq<Seq<u8>>,
) -> Step<Seq<[u32; 2]>, ()> {
    |ch: nat, p: nat, s: ()|
        match run(
            scales_step(
                bits,
                params[ch as int].scales_codebook,
                params[ch as int].n_vqsub as nat,
                ab[ch as int],
                tm[ch as int],
            ),
            p,
            0int,
            params[ch as int].n_subs as nat,
        ) {
            Ok((vs, _, p2)) => Ok((vs, (), p2)),
            Err(e) => Err(e),
        }
}

/// The first parameter-validation failure, scanning channels from `k`.
pub open spec fn params_error_from(params: Seq<ChannelSideInfoParams>, k: nat) -> Option<Error>
    decreases params.len() - k,
{
    if k >= params.len() {
        None
    } else if params[k as int].n_subs > 32 {
        Some(Error::InvalidSideInfo { field: "nSUBS", value: params[k as int].n_subs as u32 })
    } else if params[k as int].n_vqsub > params[k as int].n_subs {
        Some(Error::InvalidSideInfo { field: "VQSUB", value: params[k as int].n_vqsub as u32 })
    } else {
        params_error_from(params, k + 1)
    }
}

/// The validation failure of the walk's parameters, if any.
pub open spec fn spec_params_error(params: Seq<ChannelSideInfoParams>) -> Option<Error> {
    if params.len() > 5 {
        Some(Error::InvalidSideInfo { field: "nPCHS", value: params.len() as u32 })
    } else {
        params_error_from(params, 0)
    }
}

/// The decoded planes: `(SSC/PSC, PMODE, PVQ, ABITS, TMODE, SCALES, end)`.
pub type SidePlanes = (
    SubsubframeCount,
    Seq<Seq<u8>>,
    Seq<Seq<Option<u16>>>,
    Seq<Seq<u8>>,
    Seq<Seq<u8>>,
    Seq<Seq<[u32; 2]>>,
    nat,
);

/// The whole walk from bit `pos` for valid parameters.
pub open spec fn spec_side_planes(
    bits: Seq<bool>,
    pos: nat,
    params: Seq<ChannelSideInfoParams>,
) -> Result<SidePlanes, Error> {
    let np = params.len();
    match spec_read_fixed(bits, pos, 2) {
        Err(e) => Err(e),
        Ok((ssc, p1)) => match spec_read_fixed(bits, p1, 3) {
            Err(e) => Err(e),
            Ok((psc, p2)) => {
                let sc = SubsubframeCount { ssc: ssc as u8, psc: psc as u8 };
                match run(pmode_chan(bits, params), p2, (), np) {
                    Err(e) => Err(e),
                    Ok((pm, _, p3)) => match run(pvq_chan(bits, params, pm), p3, (), np) {
                        Err(e) => Err(e),
                        Ok((pv, _, p4)) => match run(abits_chan(bits, params), p4, (), np) {
                            Err(e) => Err(e),
                            Ok((ab, _, p5)) => {
                                let tmr = if ssc + 1 > 1 {
                                    run(tmode_chan(bits, params, ab), p5, (), np)
                                } else {
                                    Ok(
                                        (
                                            Seq::new(
                                                np,
                                                |ch: int|
                                                    Seq::new(
                                                        params[ch].n_vqsub as nat,
                                                        |n: int| 0u8,
                                                    ),
                                            ),
                                            (),
                                            p5,
                                        ),
                                    )
                                };
                                match tmr {
                                    Err(e) => Err(e),
                                    Ok((tm, _, p6)) => match run(
                                        scales_chan(bits, params, ab, tm),
                                        p6,
                                        (),
                                        np,
                                    ) {
                                        Err(e) => Err(e),
                                        Ok((scl, _, p7)) => Ok((sc, pm, pv, ab, tm, scl, p7)),
                                    },
                                }
                            },
                        },
                    },
                }
            },
        },
    }
}

/// Every PMODE row of a successful walk has `n_subs` entries.
proof fn lemma_pmode_lens(bits: Seq<bool>, params: Seq<ChannelSideInfoParams>, pos: nat)
    ensures
        run(pmode_chan(bits, params), pos, (), params.len()) matches Ok((pm, _, _)) ==> pm.len()
            == params.len() && forall|c: int|
            0 <= c < pm.len() ==> #[trigger] pm[c].len() == params[c].n_subs,
{
    let f = pmode_chan(bits, params);
    let q = |i: nat, v: Seq<u8>| v.len() == params[i as int].n_subs;
    assert forall|i: nat, p: nat, s: ()| #[trigger] f(i, p, s) is Ok implies q(i, f(i, p, s)->Ok_0.0) by {
        lemma_run_len(pmode_step(bits), p, (), params[i as int].n_subs as nat);
    }
    lemma_run_each(f, pos, (), params.len(), q);
    lemma_run_len(f, pos, (), params.len());
    if run(f, pos, (), params.len()) is Ok {
        let pm = run(f, pos, (), params.len())->Ok_0.0;
        assert forall|c: int| 0 <= c < pm.len() implies #[trigger] pm[c].len() == params[c].n_subs by {
            assert(q(c as nat, pm[c]));
        }
    }
}

/// Every ABITS row of a successful walk has `n_vqsub` entries.
proof fn lemma_abits_lens(bits: Seq<bool>, params: Seq<ChannelSideInfoParams>, pos: nat)
    ensures
        run(abits_chan(bits, params), pos, (), params.len()) matches Ok((ab, _, _)) ==> ab.len()
            == params.len() && forall|c: int|
            0 <= c < ab.len() ==> #[trigger] ab[c].len() == params[c].n_vqsub,
{
    let f = abits_chan(bits, params);
    let q = |i: nat, v: Seq<u8>| v.len() == params[i as int].n_vqsub;
    assert forall|i: nat, p: nat, s: ()| #[trigger] f(i, p, s) is Ok implies q(i, f(i, p, s)->Ok_0.0) by {
        lemma_run_len(
            abits_step(bits, params[i as int].abits_codebook),
            p,
            (),
            params[i as int].n_vqsub as nat,
        );
    }
    lemma_run_each(f, pos, (), params.len(), q);
    lemma_run_len(f, pos, (), params.len());
    if run(f, pos, (), params.len()) is Ok {
        let ab = run(f, pos, (), params.len())->Ok_0.0;
        assert forall|c: int| 0 <= c < ab.len() implies #[trigger] ab[c].len() == params[c].n_vqsub by {
            assert(q(c as nat, ab[c]));
        }
    }
}

/// Every TMODE row of a successful walk has `n_vqsub` entries.
proof fn lemma_tmode_lens(
    bits: Seq<bool>,
    params: Seq<ChannelSideInfoParams>,
    ab: Seq<Seq<u8>>,
    pos: nat,
)
    ensures
        run(tmode_chan(bits, params, ab), pos, (), params.len()) matches Ok((tm, _, _)) ==> tm.len()
            == params.len() && forall|c: int|
            0 <= c < tm.len() ==> #[trigger] tm[c].len() == params[c].n_vqsub,
{
    let f = tmode_chan(bits, params, ab);
    let q = |i: nat, v: Seq<u8>| v.len() == params[i as int].n_vqsub;
    assert forall|i: nat, p: nat, s: ()| #[trigger] f(i, p, s) is Ok implies q(i, f(i, p, s)->Ok_0.0) by {
        lemma_run_len(
            tmode_step(bits, params[i as int].tmode_codebook, ab[i as int]),
            p,
            (),
            params[i as int].n_vqsub as nat,
        );
    }
    lemma_run_each(f, pos, (), params.len(), q);
    lemma_run_len(f, pos, (), params.len());
    if run(f, pos, (), params.len()) is Ok {
        let tm = run(f, pos, (), params.len())->Ok_0.0;
        assert forall|c: int| 0 <= c < tm.len() implies #[trigger] tm[c].len() == params[c].n_vqsub by {
            assert(q(c as nat, tm[c]));
        }
    }
}

/// Parameters without a validation failure from `k` on keep every channel
/// from `k` within the 32 subbands with `n_vqsub <= n_subs`.
proof fn lemma_params_valid(params: Seq<ChannelSideInfoParams>, k: nat)
    requires
        params_error_from(params, k) is None,
    ensures
        forall|c: int|
            k <= c < params.len() ==> #[trigger] params[c].n_subs <= 32 && params[c].n_vqsub
                <= params[c].n_subs,
    decreases params.len() - k,
{
    if k < params.len() {
        lemma_params_valid(params, k + 1);
    }
}

/// Every PMODE row of a successful walk holds `n_subs` bits.
proof fn lemma_pmode_rows(bits: Seq<bool>, params: Seq<ChannelSideInfoParams>, pos: nat)
    ensures
        run(pmode_chan(bits, params), pos, (), params.len()) matches Ok((pm, _, _)) ==> pm.len()
            == params.len() && forall|c: int|
            0 <= c < pm.len() ==> #[trigger] pm[c].len() == params[c].n_subs && forall|n: int|
                0 <= n < pm[c].len() ==> pm[c][n] <= 1,
{
    let f = pmode_chan(bits, params);
    let q = |i: nat, v: Seq<u8>|
        v.len() == params[i as int].n_subs && forall|n: int| 0 <= n < v.len() ==> v[n] <= 1;
    assert forall|i: nat, p: nat, s: ()| #[trigger] f(i, p, s) is Ok implies q(i, f(i, p, s)->Ok_0.0) by {
        let g = pmode_step(bits);
        let k = params[i as int].n_subs as nat;
        lemma_run_len(g, p, (), k);
        let qi = |n: nat, v: u8| v <= 1;
        assert forall|n2: nat, p2: nat, s2: ()| #[trigger] g(n2, p2, s2) is Ok implies qi(
            n2,
            g(n2, p2, s2)->Ok_0.0,
        ) by {
            crate::side_info::lemma_read_fixed_bound(bits, p2, 1);
            reveal_with_fuel(crate::bits::two_pow, 2);
        }
        lemma_run_each(g, p, (), k, qi);
        let row = run(g, p, (), k)->Ok_0.0;
        assert forall|n: int| 0 <= n < row.len() implies row[n] <= 1 by {
            assert(qi(n as nat, row[n]));
        }
    }
    lemma_run_each(f, pos, (), params.len(), q);
    lemma_run_len(f, pos, (), params.len());
    if run(f, pos, (), params.len()) is Ok {
        let pm = run(f, pos, (), params.len())->Ok_0.0;
        assert forall|c: int| 0 <= c < pm.len() implies #[trigger] pm[c].len() == params[c].n_subs
            && forall|n: int| 0 <= n < pm[c].len() ==> pm[c][n] <= 1 by {
            assert(q(c as nat, pm[c]));
        }
    }
}

/// Every PVQ row of a successful walk has `n_subs` entries, present
/// exactly where the PMODE bit is set.
proof fn lemma_pvq_rows(
    bits: Seq<bool>,
    params: Seq<ChannelSideInfoParams>,
    pm: Seq<Seq<u8>>,
    pos: nat,
)
    ensures
        run(pvq_chan(bits, params, pm), pos, (), params.len()) matches Ok((pv, _, _)) ==> pv.len()
            == params.len() && forall|c: int|
            0 <= c < pv.len() ==> #[trigger] pv[c].len() == params[c].n_subs && forall|n: int|
                0 <= n < pv[c].len() ==> (pv[c][n] is Some <==> pm[c][n] > 0),
{
    let f = pvq_chan(bits, params, pm);
    let q = |i: nat, v: Seq<Option<u16>>|
        v.len() == params[i as int].n_subs && forall|n: int|
            0 <= n < v.len() ==> (v[n] is Some <==> pm[i as int][n] > 0);
    assert forall|i: nat, p: nat, s: ()| #[trigger] f(i, p, s) is Ok implies q(i, f(i, p, s)->Ok_0.0) by {
        let g = pvq_step(bits, pm[i as int]);
        let k = params[i as int].n_subs as nat;
        lemma_run_len(g, p, (), k);
        let qi = |n: nat, v: Option<u16>| (v is Some <==> pm[i as int][n as int] > 0);
        assert forall|n2: nat, p2: nat, s2: ()| #[trigger] g(n2, p2, s2) is Ok implies qi(
            n2,
            g(n2, p2, s2)->Ok_0.0,
        ) by {}
        lemma_run_each(g, p, (), k, qi);
        let row = run(g, p, (), k)->Ok_0.0;
        assert forall|n: int| 0 <= n < row.len() implies (row[n] is Some <==> pm[i as int][n]
            > 0) by {
            assert(qi(n as nat, row[n]));
        }
    }
    lemma_run_each(f, pos, (), params.len(), q);
    lemma_run_len(f, pos, (), params.len());
    if run(f, pos, (), params.len()) is Ok {
        let pv = run(f, pos, (), params.len())->Ok_0.0;
        assert forall|c: int| 0 <= c < pv.len() implies #[trigger] pv[c].len() == params[c].n_subs
            && forall|n: int| 0 <= n < pv[c].len() ==> (pv[c][n] is Some <==> pm[c][n] > 0) by {
            assert(q(c as nat, pv[c]));
        }
    }
}

/// Every TMODE row of a successful walk is zero where no bits are
/// allocated.
proof fn lemma_tmode_rows(
    bits: Seq<bool>,
    params: Seq<ChannelSideInfoParams>,
    ab: Seq<Seq<u8>>,
    pos: nat,
)
    ensures
        run(tmode_chan(bits, params, ab), pos, (), params.len()) matches Ok((tm, _, _)) ==> tm.len()
            == params.len() && forall|c: int|
            0 <= c < tm.len() ==> #[trigger] tm[c].len() == params[c].n_vqsub && forall|n: int|
                0 <= n < tm[c].len() ==> (ab[c][n] == 0 ==> tm[c][n] == 0),
{
    let f = tmode_chan(bits, params, ab);
    let q = |i: nat, v: Seq<u8>|
        v.len() == params[i as int].n_vqsub && forall|n: int|
            0 <= n < v.len() ==> (ab[i as int][n] == 0 ==> v[n] == 0);
    assert forall|i: nat, p: nat, s: ()| #[trigger] f(i, p, s) is Ok implies q(i, f(i, p, s)->Ok_0.0) by {
        let g = tmode_step(bits, params[i as int].tmode_codebook, ab[i as int]);
        let k = params[i as int].n_vqsub as nat;
        lemma_run_len(g, p, (), k);
        let qi = |n: nat, v: u8| (ab[i as int][n as int] == 0 ==> v == 0);
        assert forall|n2: nat, p2: nat, s2: ()| #[trigger] g(n2, p2, s2) is Ok implies qi(
            n2,
            g(n2, p2, s2)->Ok_0.0,
        ) by {}
        lemma_run_each(g, p, (), k, qi);
        let row = run(g, p, (), k)->Ok_0.0;
        assert forall|n: int| 0 <= n < row.len() implies (ab[i as int][n] == 0 ==> row[n] == 0) by {
            assert(qi(n as nat, row[n]));
        }
    }
    lemma_run_each(f, pos, (), params.len(), q);
    lemma_run_len(f, pos, (), params.len());
    if run(f, pos, (), params.len()) is Ok {
        let tm = run(f, pos, (), params.len())->Ok_0.0;
        assert forall|c: int| 0 <= c < tm.len() implies #[trigger] tm[c].len() == params[c].n_vqsub
            && forall|n: int| 0 <= n < tm[c].len() ==> (ab[c][n] == 0 ==> tm[c][n] == 0) by {
            assert(q(c as nat, tm[c]));
        }
    }
}

/// Whether a SCALES entry of subband `n` is zero without allocated bits
/// below `n_vqsub`, and has no second factor without a transient.
pub open spec fn scale_entry_ok(n: int, nvq: nat, ab: Seq<u8>, tm: Seq<u8>, v: [u32; 2]) -> bool {
    &&& (n < nvq && ab[n] == 0 ==> v == [0u32, 0u32])
    &&& ((n >= nvq || tm[n] == 0) ==> v@[1] == 0)
}

/// Every SCALES row of a successful walk has `n_subs` entries obeying
/// [`scale_entry_ok`].
proof fn lemma_scales_rows(
    bits: Seq<bool>,
    params: Seq<ChannelSideInfoParams>,
    ab: Seq<Seq<u8>>,
    tm: Seq<Seq<u8>>,
    pos: nat,
)
    ensures
        run(scales_chan(bits, params, ab, tm), pos, (), params.len()) matches Ok((scl, _, _))
            ==> scl.len() == params.len() && forall|c: int|
            0 <= c < scl.len() ==> #[trigger] scl[c].len() == params[c].n_subs && forall|n: int|
                0 <= n < scl[c].len() ==> scale_entry_ok(
                    n,
                    params[c].n_vqsub as nat,
                    ab[c],
                    tm[c],
                    scl[c][n],
                ),
{
    let f = scales_chan(bits, params, ab, tm);
    let q = |i: nat, v: Seq<[u32; 2]>|
        v.len() == params[i as int].n_subs && forall|n: int|
            0 <= n < v.len() ==> scale_entry_ok(
                n,
                params[i as int].n_vqsub as nat,
                ab[i as int],
                tm[i as int],
                v[n],
            );
    assert forall|i: nat, p: nat, s: ()| #[trigger] f(i, p, s) is Ok implies q(i, f(i, p, s)->Ok_0.0) by {
        let nvq = params[i as int].n_vqsub as nat;
        let g = scales_step(bits, params[i as int].scales_codebook, nvq, ab[i as int], tm[i as int]);
        let k = params[i as int].n_subs as nat;
        lemma_run_len(g, p, 0int, k);
        let qi = |n: nat, v: [u32; 2]| scale_entry_ok(n as int, nvq, ab[i as int], tm[i as int], v);
        assert forall|n2: nat, p2: nat, s2: int| #[trigger] g(n2, p2, s2) is Ok implies qi(
            n2,
            g(n2, p2, s2)->Ok_0.0,
        ) by {}
        lemma_run_each(g, p, 0int, k, qi);
        let row = run(g, p, 0int, k)->Ok_0.0;
        assert forall|n: int| 0 <= n < row.len() implies scale_entry_ok(
            n,
            nvq,
            ab[i as int],
            tm[i as int],
            row[n],
        ) by {
            assert(qi(n as nat, row[n]));
        }
    }
    lemma_run_each(f, pos, (), params.len(), q);
    lemma_run_len(f, pos, (), params.len());
    if run(f, pos, (), params.len()) is Ok {
        let scl = run(f, pos, (), params.len())->Ok_0.0;
        assert forall|c: int| 0 <= c < scl.len() implies #[trigger] scl[c].len() == params[c].n_subs
            && forall|n: int|
            0 <= n < scl[c].len() ==> scale_entry_ok(
                n,
                params[c].n_vqsub as nat,
                ab[c],
                tm[c],
                scl[c][n],
            ) by {
            assert(q(c as nat, scl[c]));
        }
    }
}

/// The invariants of subband `n` of channel `ch` in the 32-slot planes of
/// a decoded walk `m`, whose channel parameters are `p`.
pub open spec fn subband_invariants(m: SidePlanes, p: ChannelSideInfoParams, ch: int, n: int) -> bool {
    let pm = pad32(m.1[ch], 0u8);
    let pv = pad32(m.2[ch], None::<u16>);
    let ab = pad32(m.3[ch], 0u8);
    let tm = pad32(m.4[ch], 0u8);
    let sc = pad32(m.5[ch], [0u32, 0u32]);
    &&& (pv[n] is Some <==> pm[n] == 1)
    &&& (n >= p.n_subs ==> pm[n] == 0 && sc[n] == [0u32, 0u32])
    &&& (n >= p.n_vqsub ==> ab[n] == 0 && tm[n] == 0)
    &&& (n < p.n_vqsub && ab[n] == 0 ==> sc[n] == [0u32, 0u32])
    &&& (tm[n] == 0 ==> sc[n]@[1] == 0)
    &&& (m.0.ssc == 0 ==> tm[n] == 0)
}

/// In every decoded side-information block, for every channel and
/// subband: a PVQ index is present exactly where PMODE is set; PMODE and
/// SCALES are zero from `n_subs` on; ABITS and TMODE are zero from
/// `n_vqsub` on; a subband below `n_vqsub` without allocated bits has zero
/// SCALES; a subband without a transient has no second scale factor; and
/// with a single subsubframe TMODE is zero throughout.
pub proof fn lemma_side_info_invariants(bits: Seq<bool>, pos: nat, params: Seq<ChannelSideInfoParams>)
    requires
        spec_params_error(params) is None,
    ensures
        spec_side_planes(bits, pos, params) matches Ok(m) ==> forall|ch: int, n: int|
            0 <= ch < params.len() && 0 <= n < 32 ==> #[trigger] subband_invariants(
                m,
                params[ch],
                ch,
                n,
            ),
{
    lemma_params_valid(params, 0);
    if spec_side_planes(bits, pos, params) is Ok {
        let m = spec_side_planes(bits, pos, params)->Ok_0;
        let np = params.len();
        let (ssc, p1) = spec_read_fixed(bits, pos, 2)->Ok_0;
        let (psc, p2) = spec_read_fixed(bits, p1, 3)->Ok_0;
        lemma_pmode_rows(bits, params, p2);
        let (pm, _, p3) = run(pmode_chan(bits, params), p2, (), np)->Ok_0;
        lemma_pvq_rows(bits, params, pm, p3);
        let (pv, _, p4) = run(pvq_chan(bits, params, pm), p3, (), np)->Ok_0;
        lemma_abits_lens(bits, params, p4);
        let (ab, _, p5) = run(abits_chan(bits, params), p4, (), np)->Ok_0;
        let tmr = if ssc + 1 > 1 {
            run(tmode_chan(bits, params, ab), p5, (), np)
        } else {
            Ok(
                (
                    Seq::new(np, |ch: int| Seq::new(params[ch].n_vqsub as nat, |n: int| 0u8)),
                    (),
                    p5,
                ),
            )
        };
        lemma_tmode_rows(bits, params, ab, p5);
        let (tm, _, p6) = tmr->Ok_0;
        lemma_scales_rows(bits, params, ab, tm, p6);
        assert(m.1 == pm && m.2 == pv && m.3 == ab && m.4 == tm);
        crate::side_info::lemma_read_fixed_bound(bits, pos, 2);
        reveal_with_fuel(crate::bits::two_pow, 3);
        assert(ssc < 4);
        assert(m.0.ssc == ssc);
        assert forall|ch: int, n: int| 0 <= ch < np && 0 <= n < 32 implies #[trigger] subband_invariants(
            m,
            params[ch],
            ch,
            n,
        ) by {
            let p = params[ch];
            assert(p.n_subs <= 32 && p.n_vqsub <= p.n_subs);
            assert(pm[ch].len() == p.n_subs);
            assert(pv[ch].len() == p.n_subs);
            assert(ab[ch].len() == p.n_vqsub);
            assert(tm[ch].len() == p.n_vqsub);
            assert(m.5[ch].len() == p.n_subs);
            if n < p.n_subs {
                assert(pm[ch][n] <= 1);
                assert(pv[ch][n] is Some <==> pm[ch][n] > 0);
                assert(scale_entry_ok(n, p.n_vqsub as nat, ab[ch], tm[ch], m.5[ch][n]));
            }
            if n < p.n_vqsub {
                if ssc + 1 > 1 {
                    assert(ab[ch][n] == 0 ==> tm[ch][n] == 0);
                } else {
                    assert(tm[ch][n] == 0);
                }
            }
            let pmp = pad32(m.1[ch], 0u8);
            let pvp = pad32(m.2[ch], None::<u16>);
            let abp = pad32(m.3[ch], 0u8);
            let tmp = pad32(m.4[ch], 0u8);
            let scp = pad32(m.5[ch], [0u32, 0u32]);
            assert(pvp[n] is Some <==> pmp[n] == 1);
            assert(n >= p.n_subs ==> pmp[n] == 0 && scp[n] == [0u32, 0u32]);
            assert(n >= p.n_vqsub ==> abp[n] == 0 && tmp[n] == 0);
            assert(n < p.n_vqsub && abp[n] == 0 ==> scp[n] == [0u32, 0u32]);
            assert(tmp[n] == 0 ==> scp[n]@[1] == 0);
            assert(m.0.ssc == 0 ==> tmp[n] == 0);
        }
    }
}

/// A walk whose every successful step reads the same from `g`, `k` bits
/// later, walks the same from `g`, `k` bits later.
pub proof fn lemma_run_shift<V, S>(f: Step<V, S>, g: Step<V, S>, p: nat, s0: S, n: nat, k: nat)
    requires
        forall|i: nat, q: nat, s: S| #[trigger] f(i, q, s) is Ok ==> g(i, q + k, s) == Ok::<
            (V, S, nat),
            Error,
        >((f(i, q, s)->Ok_0.0, f(i, q, s)->Ok_0.1, f(i, q, s)->Ok_0.2 + k)),
    ensures
        run(f, p, s0, n) is Ok ==> run(g, p + k, s0, n) == Ok::<(Seq<V>, S, nat), Error>(
            (run(f, p, s0, n)->Ok_0.0, run(f, p, s0, n)->Ok_0.1, run(f, p, s0, n)->Ok_0.2 + k),
        ),
    decreases n,
{
    if n > 0 {
        lemma_run_shift(f, g, p, s0, (n - 1) as nat, k);
    }
}

/// Every plane of the walk reads the same from `b`, `k` bits later.
proof fn lemma_planes_shift(
    a: Seq<bool>,
    b: Seq<bool>,
    k: nat,
    params: Seq<ChannelSideInfoParams>,
    pm: Seq<Seq<u8>>,
    ab: Seq<Seq<u8>>,
    tm: Seq<Seq<u8>>,
    p: nat,
)
    requires
        shifted(a, b, k),
    ensures
        run(pmode_chan(a, params), p, (), params.len()) is Ok ==> run(
            pmode_chan(b, params),
            p + k,
            (),
            params.len(),
        ) == Ok::<(Seq<Seq<u8>>, (), nat), Error>(
            (
                run(pmode_chan(a, params), p, (), params.len())->Ok_0.0,
                (),
                run(pmode_chan(a, params), p, (), params.len())->Ok_0.2 + k,
            ),
        ),
        run(pvq_chan(a, params, pm), p, (), params.len()) is Ok ==> run(
            pvq_chan(b, params, pm),
            p + k,
            (),
            params.len(),
        ) == Ok::<(Seq<Seq<Option<u16>>>, (), nat), Error>(
            (
                run(pvq_chan(a, params, pm), p, (), params.len())->Ok_0.0,
                (),
                run(pvq_chan(a, params, pm), p, (), params.len())->Ok_0.2 + k,
            ),
        ),
        run(abits_chan(a, params), p, (), params.len()) is Ok ==> run(
            abits_chan(b, params),
            p + k,
            (),
            params.len(),
        ) == Ok::<(Seq<Seq<u8>>, (), nat), Error>(
            (
                run(abits_chan(a, params), p, (), params.len())->Ok_0.0,
                (),
                run(abits_chan(a, params), p, (), params.len())->Ok_0.2 + k,
            ),
        ),
        run(tmode_chan(a, params, ab), p, (), params.len()) is Ok ==> run(
            tmode_chan(b, params, ab),
            p + k,
            (),
            params.len(),
        ) == Ok::<(Seq<Seq<u8>>, (), nat), Error>(
            (
                run(tmode_chan(a, params, ab), p, (), params.len())->Ok_0.0,
                (),
                run(tmode_chan(a, params, ab), p, (), params.len())->Ok_0.2 + k,
            ),
        ),
        run(scales_chan(a, params, ab, tm), p, (), params.len()) is Ok ==> run(
            scales_chan(b, params, ab, tm),
            p + k,
            (),
            params.len(),
        ) == Ok::<(Seq<Seq<[u32; 2]>>, (), nat), Error>(
            (
                run(scales_chan(a, params, ab, tm), p, (), params.len())->Ok_0.0,
                (),
                run(scales_chan(a, params, ab, tm), p, (), params.len())->Ok_0.2 + k,
            ),
        ),
{
    // PMODE.
    let fa = pmode_chan(a, params);
    let fb = pmode_chan(b, params);
    assert forall|i: nat, q: nat, s: ()| #[trigger] fa(i, q, s) is Ok implies fb(i, q + k, s) == Ok::<
        (Seq<u8>, (), nat),
        Error,
    >((fa(i, q, s)->Ok_0.0, fa(i, q, s)->Ok_0.1, fa(i, q, s)->Ok_0.2 + k)) by {
        let ga = pmode_step(a);
        let gb = pmode_step(b);
        assert forall|i2: nat, q2: nat, s2: ()| #[trigger] ga(i2, q2, s2) is Ok implies gb(
            i2,
            q2 + k,
            s2,
        ) == Ok::<(u8, (), nat), Error>(
            (ga(i2, q2, s2)->Ok_0.0, ga(i2, q2, s2)->Ok_0.1, ga(i2, q2, s2)->Ok_0.2 + k),
        ) by {
            crate::side_info::lemma_read_fixed_shift(a, b, k, q2, 1);
        }
        lemma_run_shift(ga, gb, q, (), params[i as int].n_subs as nat, k);
    }
    lemma_run_shift(fa, fb, p, (), params.len(), k);
    // PVQ.
    let fa = pvq_chan(a, params, pm);
    let fb = pvq_chan(b, params, pm);
    assert forall|i: nat, q: nat, s: ()| #[trigger] fa(i, q, s) is Ok implies fb(i, q + k, s) == Ok::<
        (Seq<Option<u16>>, (), nat),
        Error,
    >((fa(i, q, s)->Ok_0.0, fa(i, q, s)->Ok_0.1, fa(i, q, s)->Ok_0.2 + k)) by {
        let ga = pvq_step(a, pm[i as int]);
        let gb = pvq_step(b, pm[i as int]);
        assert forall|i2: nat, q2: nat, s2: ()| #[trigger] ga(i2, q2, s2) is Ok implies gb(
            i2,
            q2 + k,
            s2,
        ) == Ok::<(Option<u16>, (), nat), Error>(
            (ga(i2, q2, s2)->Ok_0.0, ga(i2, q2, s2)->Ok_0.1, ga(i2, q2, s2)->Ok_0.2 + k),
        ) by {
            crate::side_info::lemma_read_fixed_shift(a, b, k, q2, 12);
        }
        lemma_run_shift(ga, gb, q, (), params[i as int].n_subs as nat, k);
    }
    lemma_run_shift(fa, fb, p, (), params.len(), k);
    // ABITS.
    let fa = abits_chan(a, params);
    let fb = abits_chan(b, params);
    assert forall|i: nat, q: nat, s: ()| #[trigger] fa(i, q, s) is Ok implies fb(i, q + k, s) == Ok::<
        (Seq<u8>, (), nat),
        Error,
    >((fa(i, q, s)->Ok_0.0, fa(i, q, s)->Ok_0.1, fa(i, q, s)->Ok_0.2 + k)) by {
        let cb = params[i as int].abits_codebook;
        let ga = abits_step(a, cb);
        let gb = abits_step(b, cb);
        assert forall|i2: nat, q2: nat, s2: ()| #[trigger] ga(i2, q2, s2) is Ok implies gb(
            i2,
            q2 + k,
            s2,
        ) == Ok::<(u8, (), nat), Error>(
            (ga(i2, q2, s2)->Ok_0.0, ga(i2, q2, s2)->Ok_0.1, ga(i2, q2, s2)->Ok_0.2 + k),
        ) by {
            crate::side_info::lemma_side_fields_shift(a, b, k, q2, 0);
            assert(crate::side_info::spec_decode_abits(a, q2, cb) is Ok);
        }
        lemma_run_shift(ga, gb, q, (), params[i as int].n_vqsub as nat, k);
    }
    lemma_run_shift(fa, fb, p, (), params.len(), k);
    // TMODE.
    let fa = tmode_chan(a, params, ab);
    let fb = tmode_chan(b, params, ab);
    assert forall|i: nat, q: nat, s: ()| #[trigger] fa(i, q, s) is Ok implies fb(i, q + k, s) == Ok::<
        (Seq<u8>, (), nat),
        Error,
    >((fa(i, q, s)->Ok_0.0, fa(i, q, s)->Ok_0.1, fa(i, q, s)->Ok_0.2 + k)) by {
        let cb = params[i as int].tmode_codebook;
        let ga = tmode_step(a, cb, ab[i as int]);
        let gb = tmode_step(b, cb, ab[i as int]);
        assert forall|i2: nat, q2: nat, s2: ()| #[trigger] ga(i2, q2, s2) is Ok implies gb(
            i2,
            q2 + k,
            s2,
        ) == Ok::<(u8, (), nat), Error>(
            (ga(i2, q2, s2)->Ok_0.0, ga(i2, q2, s2)->Ok_0.1, ga(i2, q2, s2)->Ok_0.2 + k),
        ) by {
            crate::side_info::lemma_side_fields_shift(a, b, k, q2, 0);
            if ab[i as int][i2 as int] > 0 {
                assert(crate::side_info::spec_decode_tmode(a, q2, cb) is Ok);
            }
        }
        lemma_run_shift(ga, gb, q, (), params[i as int].n_vqsub as nat, k);
    }
    lemma_run_shift(fa, fb, p, (), params.len(), k);
    // SCALES.
    let fa = scales_chan(a, params, ab, tm);
    let fb = scales_chan(b, params, ab, tm);
    assert forall|i: nat, q: nat, s: ()| #[trigger] fa(i, q, s) is Ok implies fb(i, q + k, s) == Ok::<
        (Seq<[u32; 2]>, (), nat),
        Error,
    >((fa(i, q, s)->Ok_0.0, fa(i, q, s)->Ok_0.1, fa(i, q, s)->Ok_0.2 + k)) by {
        let cb = params[i as int].scales_codebook;
        let nvq = params[i as int].n_vqsub as nat;
        let ga = scales_step(a, cb, nvq, ab[i as int], tm[i as int]);
        let gb = scales_step(b, cb, nvq, ab[i as int], tm[i as int]);
        assert forall|i2: nat, q2: nat, s2: int| #[trigger] ga(i2, q2, s2) is Ok implies gb(
            i2,
            q2 + k,
            s2,
        ) == Ok::<([u32; 2], int, nat), Error>(
            (ga(i2, q2, s2)->Ok_0.0, ga(i2, q2, s2)->Ok_0.1, ga(i2, q2, s2)->Ok_0.2 + k),
        ) by {
            crate::side_info::lemma_side_fields_shift(a, b, k, q2, s2);
            if !(i2 < nvq && ab[i as int][i2 as int] == 0) {
                assert(crate::side_info::spec_decode_scales(a, q2, cb, s2) is Ok);
                let r1 = crate::side_info::spec_decode_scales(a, q2, cb, s2)->Ok_0;
                crate::side_info::lemma_side_fields_shift(a, b, k, r1.2, r1.1);
                if i2 < nvq && tm[i as int][i2 as int] > 0 {
                    assert(crate::side_info::spec_decode_scales(a, r1.2, cb, r1.1) is Ok);
                }
            }
        }
        lemma_run_shift(ga, gb, q, 0int, params[i as int].n_subs as nat, k);
    }
    lemma_run_shift(fa, fb, p, (), params.len(), k);
}

/// Starting the walk `k` bits later in a stream that holds the same bits
/// there gives the same planes, ending `k` bits later: a subframe's side
/// information decodes the same at any bit offset.
pub proof fn lemma_side_info_at_offset(
    a: Seq<u8>,
    b: Seq<u8>,
    k: nat,
    pos: nat,
    params: Seq<ChannelSideInfoParams>,
)
    requires
        shifted(bits_of(a), bits_of(b), k),
    ensures
        spec_side_planes(bits_of(a), pos, params) matches Ok(m) ==> spec_side_planes(
            bits_of(b),
            pos + k,
            params,
        ) == Ok::<SidePlanes, Error>((m.0, m.1, m.2, m.3, m.4, m.5, m.6 + k)),
{
    let ba = bits_of(a);
    let bb = bits_of(b);
    if spec_side_planes(ba, pos, params) is Ok {
        let np = params.len();
        crate::side_info::lemma_read_fixed_shift(ba, bb, k, pos, 2);
        let (ssc, p1) = spec_read_fixed(ba, pos, 2)->Ok_0;
        crate::side_info::lemma_read_fixed_shift(ba, bb, k, p1, 3);
        let (psc, p2) = spec_read_fixed(ba, p1, 3)->Ok_0;
        let pm = run(pmode_chan(ba, params), p2, (), np)->Ok_0.0;
        lemma_planes_shift(ba, bb, k, params, pm, pm, pm, p2);
        let p3 = run(pmode_chan(ba, params), p2, (), np)->Ok_0.2;
        lemma_planes_shift(ba, bb, k, params, pm, pm, pm, p3);
        let p4 = run(pvq_chan(ba, params, pm), p3, (), np)->Ok_0.2;
        lemma_planes_shift(ba, bb, k, params, pm, pm, pm, p4);
        let ab = run(abits_chan(ba, params), p4, (), np)->Ok_0.0;
        let p5 = run(abits_chan(ba, params), p4, (), np)->Ok_0.2;
        lemma_planes_shift(ba, bb, k, params, pm, ab, pm, p5);
        let tmr = if ssc + 1 > 1 {
            run(tmode_chan(ba, params, ab), p5, (), np)
        } else {
            Ok(
                (
                    Seq::new(np, |ch: int| Seq::new(params[ch].n_vqsub as nat, |n: int| 0u8)),
                    (),
                    p5,
                ),
            )
        };
        let tm = tmr->Ok_0.0;
        let p6 = tmr->Ok_0.2;
        lemma_planes_shift(ba, bb, k, params, pm, ab, tm, p6);
    }
}

/// Whether the decoded channel entries hold the planes of the model.
pub open spec fn channels_match(chs: Seq<ChannelSideInfo>, m: SidePlanes) -> bool {
    forall|ch: int|
        0 <= ch < chs.len() ==> {
            &&& #[trigger] chs[ch].pmode@ == pad32(m.1[ch], 0u8)
            &&& chs[ch].pvq_index@ == pad32(m.2[ch], None::<u16>)
            &&& chs[ch].abits@ == pad32(m.3[ch], 0u8)
            &&& chs[ch].tmode@ == pad32(m.4[ch], 0u8)
            &&& chs[ch].scales@ == pad32(m.5[ch], [0u32, 0u32])
        }
}


// ---------------------------------------------------------------------
// The walk
// ---------------------------------------------------------------------

/// Read one unsigned field of `n <= 32` bits.
pub(crate) fn read_field(br: &mut BitReader, n: usize) -> (res: Result<u32, Error>)
    requires
        n <= 32,
    ensures
        final(br).bytes() == old(br).bytes(),
        match spec_read_fixed(bits_of(old(br).bytes()), old(br).pos(), n as nat) {
            Ok((v, p)) => res == Ok::<u32, Error>(v as u32) && v == res->Ok_0 && final(br).pos()
                == p,
            Err(e) => res == Err::<u32, Error>(e),
        },
        res is Err ==> final(br).pos() == old(br).pos(),
{
    br.read_bits(n)
}

#[verifier::loop_isolation(false)]
fn read_pmode_plane(br: &mut BitReader, params: &[ChannelSideInfoParams]) -> (res: Result<
    Vec<[u8; 32]>,
    Error,
>)
    requires
        forall|c: int| 0 <= c < params@.len() ==> #[trigger] params@[c].n_subs <= 32,
    ensures
        final(br).bytes() == old(br).bytes(),
        res is Ok ==> final(br).pos() >= old(br).pos(),
        match run(pmode_chan(bits_of(old(br).bytes()), params@), old(br).pos(), (), params@.len()) {
            Ok((pm, _, p)) => res matches Ok(rows) && rows@.len() == params@.len() && (forall|c: int|
                0 <= c < rows@.len() ==> #[trigger] rows@[c]@ == pad32(pm[c], 0u8))
                && final(br).pos() == p,
            Err(e) => res == Err::<Vec<[u8; 32]>, Error>(e),
        },
{
    let ghost bits = bits_of(br.bytes());
    let ghost pos0 = br.pos();
    let ghost chan = pmode_chan(bits, params@);
    let mut rows: Vec<[u8; 32]> = Vec::new();
    let mut ch: usize = 0;
    while ch < params.len()
        invariant
            ch <= params@.len(),
            br.pos() >= pos0,
            forall|c: int| 0 <= c < params@.len() ==> #[trigger] params@[c].n_subs <= 32,
            bits == bits_of(br.bytes()),
            br.bytes() == old(br).bytes(),
            pos0 == old(br).pos(),
            chan == pmode_chan(bits, params@),
            run(chan, pos0, (), ch as nat) matches Ok((pm, _, p)) && p == br.pos()
                && rows@.len() == ch && forall|c: int|
                0 <= c < ch ==> #[trigger] rows@[c]@ == pad32(pm[c], 0u8),
        decreases params@.len() - ch,
    {
        let n_subs = params[ch].n_subs;
        let ghost pch = br.pos();
        let ghost step = pmode_step(bits);
        let mut row = [0u8; 32];
        let mut n: usize = 0;
        assert(row@ =~= pad32(Seq::<u8>::empty(), 0u8));
        while n < n_subs
            invariant
                n <= n_subs <= 32,
                pch >= pos0,
                br.pos() >= pch,
                bits == bits_of(br.bytes()),
                br.bytes() == old(br).bytes(),
                step == pmode_step(bits),
                run(step, pch, (), n as nat) matches Ok((vs, _, p)) && p == br.pos() && row@ == pad32(
                    vs,
                    0u8,
                ),
            decreases n_subs - n,
        {
            let ghost prev = run(step, pch, (), n as nat);
            let r = read_field(br, 1);
            match r {
                Ok(v) => {
                    proof {
                        crate::side_info::lemma_read_fixed_bound(bits, prev->Ok_0.2, 1);
                    }
                    row[n] = v as u8;
                    proof {
                        let vs = prev->Ok_0.0;
                        lemma_run_len(step, pch, (), n as nat);
                        assert(row@ =~= pad32(vs.push(v as u8), 0u8));
                    }
                },
                Err(e) => {
                    proof {
                        lemma_run_err(step, pch, (), (n + 1) as nat, n_subs as nat);
                        lemma_run_err(chan, pos0, (), (ch + 1) as nat, params@.len());
                    }
                    return Err(e);
                },
            }
            n = n + 1;
        }
        let ghost old_rows = rows@;
        rows.push(row);
        proof {
            assert(chan(ch as nat, pch, ()) == run(step, pch, (), n_subs as nat));
            let prev = run(chan, pos0, (), ch as nat)->Ok_0;
            let cur = run(step, pch, (), n_subs as nat)->Ok_0;
            lemma_run_len(chan, pos0, (), ch as nat);
            assert(run(chan, pos0, (), (ch + 1) as nat) == Ok::<(Seq<Seq<u8>>, (), nat), Error>(
                (prev.0.push(cur.0), (), cur.2),
            ));
            assert(rows@[ch as int] == row);
            assert forall|c: int| 0 <= c < ch + 1 implies #[trigger] rows@[c]@ == pad32(
                run(chan, pos0, (), (ch + 1) as nat)->Ok_0.0[c],
                0u8,
            ) by {
                if c < ch {
                    assert(rows@[c] == old_rows[c]);
                }
            }
        }
        ch = ch + 1;
    }
    Ok(rows)
}


#[verifier::loop_isolation(false)]
fn read_pvq_plane(
    br: &mut BitReader,
    params: &[ChannelSideInfoParams],
    pmode: &Vec<[u8; 32]>,
    Ghost(pm): Ghost<Seq<Seq<u8>>>,
) -> (res: Result<Vec<[Option<u16>; 32]>, Error>)
    requires
        forall|c: int| 0 <= c < params@.len() ==> #[trigger] params@[c].n_subs <= 32,
        pm.len() == params@.len(),
        pmode@.len() == params@.len(),
        forall|c: int|
            0 <= c < params@.len() ==> #[trigger] pmode@[c]@ == pad32(pm[c], 0u8) && pm[c].len()
                == params@[c].n_subs,
    ensures
        final(br).bytes() == old(br).bytes(),
        res is Ok ==> final(br).pos() >= old(br).pos(),
        match run(pvq_chan(bits_of(old(br).bytes()), params@, pm), old(br).pos(), (), params@.len()) {
            Ok((pv, _, p)) => res matches Ok(rows) && rows@.len() == params@.len() && (forall|c: int|
                0 <= c < rows@.len() ==> #[trigger] rows@[c]@ == pad32(pv[c], None::<u16>))
                && final(br).pos() == p,
            Err(e) => res == Err::<Vec<[Option<u16>; 32]>, Error>(e),
        },
{
    let ghost bits = bits_of(br.bytes());
    let ghost pos0 = br.pos();
    let ghost chan = pvq_chan(bits, params@, pm);
    let mut rows: Vec<[Option<u16>; 32]> = Vec::new();
    let mut ch: usize = 0;
    while ch < params.len()
        invariant
            ch <= params@.len(),
            br.pos() >= pos0,
            bits == bits_of(br.bytes()),
            br.bytes() == old(br).bytes(),
            run(chan, pos0, (), ch as nat) matches Ok((pv, _, p)) && p == br.pos()
                && rows@.len() == ch && forall|c: int|
                0 <= c < ch ==> #[trigger] rows@[c]@ == pad32(pv[c], None::<u16>),
        decreases params@.len() - ch,
    {
        let n_subs = params[ch].n_subs;
        let ghost pch = br.pos();
        let ghost step = pvq_step(bits, pm[ch as int]);
        let mut row: [Option<u16>; 32] = [None; 32];
        let mut n: usize = 0;
        assert(row@ =~= pad32(Seq::<Option<u16>>::empty(), None::<u16>));
        while n < n_subs
            invariant
                n <= n_subs <= 32,
                pch >= pos0,
                br.pos() >= pch,
                bits == bits_of(br.bytes()),
                br.bytes() == old(br).bytes(),
                run(step, pch, (), n as nat) matches Ok((vs, _, p)) && p == br.pos() && row@ == pad32(
                    vs,
                    None::<u16>,
                ),
            decreases n_subs - n,
        {
            let ghost prev = run(step, pch, (), n as nat);
            proof {
                lemma_run_len(step, pch, (), n as nat);
                assert(pmode@[ch as int]@[n as int] == pm[ch as int][n as int]);
            }
            if pmode[ch][n] > 0 {
                let r = read_field(br, 12);
                match r {
                    Ok(v) => {
                        proof {
                            crate::side_info::lemma_read_fixed_bound(bits, prev->Ok_0.2, 12);
                            crate::side_info::lemma_small_pow_12();
                        }
                        row[n] = Some(v as u16);
                        proof {
                            assert(row@ =~= pad32(prev->Ok_0.0.push(Some(v as u16)), None::<u16>));
                        }
                    },
                    Err(e) => {
                        proof {
                            lemma_run_err(step, pch, (), (n + 1) as nat, n_subs as nat);
                            assert(chan(ch as nat, pch, ()) == run(step, pch, (), n_subs as nat));
                            lemma_run_err(chan, pos0, (), (ch + 1) as nat, params@.len());
                        }
                        return Err(e);
                    },
                }
            } else {
                proof {
                    assert(row@ =~= pad32(prev->Ok_0.0.push(None::<u16>), None::<u16>));
                }
            }
            n = n + 1;
        }
        let ghost old_rows = rows@;
        rows.push(row);
        proof {
            assert(chan(ch as nat, pch, ()) == run(step, pch, (), n_subs as nat));
            lemma_run_len(chan, pos0, (), ch as nat);
            assert(rows@[ch as int] == row);
            assert forall|c: int| 0 <= c < ch + 1 implies #[trigger] rows@[c]@ == pad32(
                run(chan, pos0, (), (ch + 1) as nat)->Ok_0.0[c],
                None::<u16>,
            ) by {
                if c < ch {
                    assert(rows@[c] == old_rows[c]);
                }
            }
        }
        ch = ch + 1;
    }
    Ok(rows)
}

#[verifier::loop_isolation(false)]
fn read_abits_plane(br: &mut BitReader, params: &[ChannelSideInfoParams]) -> (res: Result<
    Vec<[u8; 32]>,
    Error,
>)
    requires
        forall|c: int| 0 <= c < params@.len() ==> #[trigger] params@[c].n_vqsub <= 32,
    ensures
        final(br).bytes() == old(br).bytes(),
        res is Ok ==> final(br).pos() >= old(br).pos(),
        match run(abits_chan(bits_of(old(br).bytes()), params@), old(br).pos(), (), params@.len()) {
            Ok((ab, _, p)) => res matches Ok(rows) && rows@.len() == params@.len() && (forall|c: int|
                0 <= c < rows@.len() ==> #[trigger] rows@[c]@ == pad32(ab[c], 0u8))
                && final(br).pos() == p,
            Err(e) => res == Err::<Vec<[u8; 32]>, Error>(e),
        },
{
    let ghost bits = bits_of(br.bytes());
    let ghost pos0 = br.pos();
    let ghost chan = abits_chan(bits, params@);
    let mut rows: Vec<[u8; 32]> = Vec::new();
    let mut ch: usize = 0;
    while ch < params.len()
        invariant
            ch <= params@.len(),
            br.pos() >= pos0,
            bits == bits_of(br.bytes()),
            br.bytes() == old(br).bytes(),
            run(chan, pos0, (), ch as nat) matches Ok((ab, _, p)) && p == br.pos()
                && rows@.len() == ch && forall|c: int|
                0 <= c < ch ==> #[trigger] rows@[c]@ == pad32(ab[c], 0u8),
        decreases params@.len() - ch,
    {
        let n_vqsub = params[ch].n_vqsub;
        let cb = params[ch].abits_codebook;
        let ghost pch = br.pos();
        let ghost step = abits_step(bits, cb);
        let mut row = [0u8; 32];
        let mut n: usize = 0;
        assert(row@ =~= pad32(Seq::<u8>::empty(), 0u8));
        while n < n_vqsub
            invariant
                n <= n_vqsub <= 32,
                pch >= pos0,
                br.pos() >= pch,
                bits == bits_of(br.bytes()),
                br.bytes() == old(br).bytes(),
                run(step, pch, (), n as nat) matches Ok((vs, _, p)) && p == br.pos() && row@ == pad32(
                    vs,
                    0u8,
                ),
            decreases n_vqsub - n,
        {
            let ghost prev = run(step, pch, (), n as nat);
            proof {
                lemma_run_len(step, pch, (), n as nat);
            }
            match decode_abits(br, cb) {
                Ok(v) => {
                    row[n] = v;
                    proof {
                        assert(row@ =~= pad32(prev->Ok_0.0.push(v), 0u8));
                    }
                },
                Err(e) => {
                    proof {
                        lemma_run_err(step, pch, (), (n + 1) as nat, n_vqsub as nat);
                        assert(chan(ch as nat, pch, ()) == run(step, pch, (), n_vqsub as nat));
                        lemma_run_err(chan, pos0, (), (ch + 1) as nat, params@.len());
                    }
                    return Err(e);
                },
            }
            n = n + 1;
        }
        let ghost old_rows = rows@;
        rows.push(row);
        proof {
            assert(chan(ch as nat, pch, ()) == run(step, pch, (), n_vqsub as nat));
            lemma_run_len(chan, pos0, (), ch as nat);
            assert(rows@[ch as int] == row);
            assert forall|c: int| 0 <= c < ch + 1 implies #[trigger] rows@[c]@ == pad32(
                run(chan, pos0, (), (ch + 1) as nat)->Ok_0.0[c],
                0u8,
            ) by {
                if c < ch {
                    assert(rows@[c] == old_rows[c]);
                }
            }
        }
        ch = ch + 1;
    }
    Ok(rows)
}

#[verifier::loop_isolation(false)]
fn read_tmode_plane(
    br: &mut BitReader,
    params: &[ChannelSideInfoParams],
    abits: &Vec<[u8; 32]>,
    Ghost(ab): Ghost<Seq<Seq<u8>>>,
) -> (res: Result<Vec<[u8; 32]>, Error>)
    requires
        forall|c: int| 0 <= c < params@.len() ==> #[trigger] params@[c].n_vqsub <= 32,
        ab.len() == params@.len(),
        abits@.len() == params@.len(),
        forall|c: int|
            0 <= c < params@.len() ==> #[trigger] abits@[c]@ == pad32(ab[c], 0u8) && ab[c].len()
                == params@[c].n_vqsub,
    ensures
        final(br).bytes() == old(br).bytes(),
        res is Ok ==> final(br).pos() >= old(br).pos(),
        match run(tmode_chan(bits_of(old(br).bytes()), params@, ab), old(br).pos(), (), params@.len()) {
            Ok((tm, _, p)) => res matches Ok(rows) && rows@.len() == params@.len() && (forall|c: int|
                0 <= c < rows@.len() ==> #[trigger] rows@[c]@ == pad32(tm[c], 0u8))
                && final(br).pos() == p,
            Err(e) => res == Err::<Vec<[u8; 32]>, Error>(e),
        },
{
    let ghost bits = bits_of(br.bytes());
    let ghost pos0 = br.pos();
    let ghost chan = tmode_chan(bits, params@, ab);
    let mut rows: Vec<[u8; 32]> = Vec::new();
    let mut ch: usize = 0;
    while ch < params.len()
        invariant
            ch <= params@.len(),
            br.pos() >= pos0,
            bits == bits_of(br.bytes()),
            br.bytes() == old(br).bytes(),
            run(chan, pos0, (), ch as nat) matches Ok((tm, _, p)) && p == br.pos()
                && rows@.len() == ch && forall|c: int|
                0 <= c < ch ==> #[trigger] rows@[c]@ == pad32(tm[c], 0u8),
        decreases params@.len() - ch,
    {
        let n_vqsub = params[ch].n_vqsub;
        let cb = params[ch].tmode_codebook;
        let ghost pch = br.pos();
        let ghost step = tmode_step(bits, cb, ab[ch as int]);
        let mut row = [0u8; 32];
        let mut n: usize = 0;
        assert(row@ =~= pad32(Seq::<u8>::empty(), 0u8));
        while n < n_vqsub
            invariant
                n <= n_vqsub <= 32,
                pch >= pos0,
                br.pos() >= pch,
                bits == bits_of(br.bytes()),
                br.bytes() == old(br).bytes(),
                run(step, pch, (), n as nat) matches Ok((vs, _, p)) && p == br.pos() && row@ == pad32(
                    vs,
                    0u8,
                ),
            decreases n_vqsub - n,
        {
            let ghost prev = run(step, pch, (), n as nat);
            proof {
                lemma_run_len(step, pch, (), n as nat);
                assert(abits@[ch as int]@[n as int] == ab[ch as int][n as int]);
            }
            if abits[ch][n] > 0 {
                match decode_tmode(br, cb) {
                    Ok(v) => {
                        row[n] = v;
                        proof {
                            assert(row@ =~= pad32(prev->Ok_0.0.push(v), 0u8));
                        }
                    },
                    Err(e) => {
                        proof {
                            lemma_run_err(step, pch, (), (n + 1) as nat, n_vqsub as nat);
                            assert(chan(ch as nat, pch, ()) == run(step, pch, (), n_vqsub as nat));
                            lemma_run_err(chan, pos0, (), (ch + 1) as nat, params@.len());
                        }
                        return Err(e);
                    },
                }
            } else {
                proof {
                    assert(row@ =~= pad32(prev->Ok_0.0.push(0u8), 0u8));
                }
            }
            n = n + 1;
        }
        let ghost old_rows = rows@;
        rows.push(row);
        proof {
            assert(chan(ch as nat, pch, ()) == run(step, pch, (), n_vqsub as nat));
            lemma_run_len(chan, pos0, (), ch as nat);
            assert(rows@[ch as int] == row);
            assert forall|c: int| 0 <= c < ch + 1 implies #[trigger] rows@[c]@ == pad32(
                run(chan, pos0, (), (ch + 1) as nat)->Ok_0.0[c],
                0u8,
            ) by {
                if c < ch {
                    assert(rows@[c] == old_rows[c]);
                }
            }
        }
        ch = ch + 1;
    }
    Ok(rows)
}


proof fn lemma_scales_sum_range(bits: Seq<bool>, pos: nat, cb: ScalesCodebook, sum: int)
    ensures
        spec_decode_scales(bits, pos, cb, sum) matches Ok((_, s, _)) ==> 0 <= s < 128,
{
}

#[verifier::loop_isolation(false)]
#[verifier::rlimit(80)]
#[verifier::spinoff_prover]
fn read_scales_channel(
    br: &mut BitReader,
    p: ChannelSideInfoParams,
    abits_row: &[u8; 32],
    tmode_row: &[u8; 32],
    Ghost(abc): Ghost<Seq<u8>>,
    Ghost(tmc): Ghost<Seq<u8>>,
) -> (res: Result<[[u32; 2]; 32], Error>)
    requires
        p.n_subs <= 32,
        p.n_vqsub <= p.n_subs,
        abits_row@ == pad32(abc, 0u8),
        abc.len() == p.n_vqsub,
        tmode_row@ == pad32(tmc, 0u8),
        tmc.len() == p.n_vqsub,
    ensures
        final(br).bytes() == old(br).bytes(),
        res is Ok ==> final(br).pos() >= old(br).pos(),
        match run(
            scales_step(bits_of(old(br).bytes()), p.scales_codebook, p.n_vqsub as nat, abc, tmc),
            old(br).pos(),
            0int,
            p.n_subs as nat,
        ) {
            Ok((vs, _, q)) => res matches Ok(row) && row@ == pad32(vs, [0u32, 0u32]) && final(br).pos()
                == q,
            Err(e) => res == Err::<[[u32; 2]; 32], Error>(e),
        },
{
    let ghost bits = bits_of(br.bytes());
    let n_subs = p.n_subs;
    let n_vqsub = p.n_vqsub;
    let cb = p.scales_codebook;
    let ghost pch = br.pos();
    let ghost step = scales_step(bits, cb, n_vqsub as nat, abc, tmc);
    let z: [u32; 2] = [0u32, 0u32];
    let mut row = [z; 32];
    let mut sum: i32 = 0;
    let mut n: usize = 0;
    assert(row@ =~= pad32(Seq::<[u32; 2]>::empty(), [0u32, 0u32]));
    while n < n_subs
        invariant
            n <= n_subs <= 32,
            n_vqsub <= n_subs,
            br.pos() >= pch,
            bits == bits_of(br.bytes()),
            br.bytes() == old(br).bytes(),
            0 <= sum < 128,
            run(step, pch, 0int, n as nat) matches Ok((vs, st, q)) && q == br.pos() && st
                == sum as int && row@ == pad32(vs, [0u32, 0u32]),
        decreases n_subs - n,
    {
        let ghost prev = run(step, pch, 0int, n as nat);
        proof {
            lemma_run_len(step, pch, 0int, n as nat);
        }
        if n < n_vqsub && abits_row[n] == 0 {
            row[n] = [0u32, 0u32];
            proof {
                assert(row@ =~= pad32(prev->Ok_0.0.push([0u32, 0u32]), [0u32, 0u32]));
            }
        } else {
            let ghost p1 = br.pos();
            proof {
                lemma_scales_sum_range(bits, p1, cb, sum as int);
            }
            let (v0, s1) = match decode_scales(br, cb, sum) {
                Ok(x) => x,
                Err(e) => {
                    proof {
                        lemma_run_err(step, pch, 0int, (n + 1) as nat, n_subs as nat);
                    }
                    return Err(e);
                },
            };
            if n < n_vqsub && tmode_row[n] > 0 {
                let ghost p2 = br.pos();
                proof {
                    lemma_scales_sum_range(bits, p2, cb, s1 as int);
                }
                let (v1, s2) = match decode_scales(br, cb, s1) {
                    Ok(x) => x,
                    Err(e) => {
                        proof {
                            lemma_run_err(step, pch, 0int, (n + 1) as nat, n_subs as nat);
                        }
                        return Err(e);
                    },
                };
                row[n] = [v0, v1];
                sum = s2;
                proof {
                    assert(row@ =~= pad32(prev->Ok_0.0.push([v0, v1]), [0u32, 0u32]));
                }
            } else {
                row[n] = [v0, 0u32];
                sum = s1;
                proof {
                    assert(row@ =~= pad32(prev->Ok_0.0.push([v0, 0u32]), [0u32, 0u32]));
                }
            }
        }
        n = n + 1;
    }
    Ok(row)
}

#[verifier::loop_isolation(false)]
fn read_scales_plane(
    br: &mut BitReader,
    params: &[ChannelSideInfoParams],
    abits: &Vec<[u8; 32]>,
    tmode: &Vec<[u8; 32]>,
    Ghost(ab): Ghost<Seq<Seq<u8>>>,
    Ghost(tm): Ghost<Seq<Seq<u8>>>,
) -> (res: Result<Vec<[[u32; 2]; 32]>, Error>)
    requires
        forall|c: int|
            0 <= c < params@.len() ==> #[trigger] params@[c].n_subs <= 32 && params@[c].n_vqsub
                <= params@[c].n_subs,
        ab.len() == params@.len(),
        tm.len() == params@.len(),
        abits@.len() == params@.len(),
        tmode@.len() == params@.len(),
        forall|c: int|
            0 <= c < params@.len() ==> #[trigger] abits@[c]@ == pad32(ab[c], 0u8) && ab[c].len()
                == params@[c].n_vqsub && tmode@[c]@ == pad32(tm[c], 0u8) && tm[c].len()
                == params@[c].n_vqsub,
    ensures
        final(br).bytes() == old(br).bytes(),
        res is Ok ==> final(br).pos() >= old(br).pos(),
        match run(
            scales_chan(bits_of(old(br).bytes()), params@, ab, tm),
            old(br).pos(),
            (),
            params@.len(),
        ) {
            Ok((sc, _, p)) => res matches Ok(rows) && rows@.len() == params@.len() && (forall|c: int|
                0 <= c < rows@.len() ==> #[trigger] rows@[c]@ == pad32(sc[c], [0u32, 0u32]))
                && final(br).pos() == p,
            Err(e) => res == Err::<Vec<[[u32; 2]; 32]>, Error>(e),
        },
{
    let ghost bits = bits_of(br.bytes());
    let ghost pos0 = br.pos();
    let ghost chan = scales_chan(bits, params@, ab, tm);
    let mut rows: Vec<[[u32; 2]; 32]> = Vec::new();
    let mut ch: usize = 0;
    while ch < params.len()
        invariant
            ch <= params@.len(),
            br.pos() >= pos0,
            bits == bits_of(br.bytes()),
            br.bytes() == old(br).bytes(),
            run(chan, pos0, (), ch as nat) matches Ok((sc, _, p)) && p == br.pos()
                && rows@.len() == ch && forall|c: int|
                0 <= c < ch ==> #[trigger] rows@[c]@ == pad32(sc[c], [0u32, 0u32]),
        decreases params@.len() - ch,
    {
        let prm = params[ch];
        let ghost pch = br.pos();
        let ghost step = scales_step(
            bits,
            prm.scales_codebook,
            prm.n_vqsub as nat,
            ab[ch as int],
            tm[ch as int],
        );
        proof {
            assert(params@[ch as int].n_subs <= 32);
            assert(abits@[ch as int]@ == pad32(ab[ch as int], 0u8));
            assert(tmode@[ch as int]@ == pad32(tm[ch as int], 0u8));
        }
        let r = read_scales_channel(
            br,
            prm,
            &abits[ch],
            &tmode[ch],
            Ghost(ab[ch as int]),
            Ghost(tm[ch as int]),
        );
        let ghost inner = run(step, pch, 0int, prm.n_subs as nat);
        proof {
            assert(chan(ch as nat, pch, ()) == match inner {
                Ok((vs, _, p2)) => Ok::<(Seq<[u32; 2]>, (), nat), Error>((vs, (), p2)),
                Err(e) => Err(e),
            });
        }
        let row = match r {
            Ok(row) => row,
            Err(e) => {
                proof {
                    lemma_run_err(chan, pos0, (), (ch + 1) as nat, params@.len());
                }
                return Err(e);
            },
        };
        let ghost old_rows = rows@;
        rows.push(row);
        proof {
            lemma_run_len(chan, pos0, (), ch as nat);
            assert(rows@[ch as int] == row);
            assert forall|c: int| 0 <= c < ch + 1 implies #[trigger] rows@[c]@ == pad32(
                run(chan, pos0, (), (ch + 1) as nat)->Ok_0.0[c],
                [0u32, 0u32],
            ) by {
                if c < ch {
                    assert(rows@[c] == old_rows[c]);
                }
            }
        }
        ch = ch + 1;
    }
    Ok(rows)
}


/// Walk the Primary Audio Coding Side Information block of one subframe
/// from bit `bit_offset` of `bytes` (MSB-first), given one parameter set
/// per primary channel: the SSC/PSC prefix, then the PMODE, PVQ, ABITS,
/// TMODE (only when more than one subsubframe is present) and SCALES
/// planes. Returns the decoded block and the number of bits consumed.
///
/// Bad parameters are rejected before the bit stream is touched:
/// `InvalidSideInfo` with field `"nPCHS"` for more than five channels,
/// `"nSUBS"` for more than 32 subbands, `"VQSUB"` for `n_vqsub > n_subs`.
#[verifier::rlimit(60)]
pub fn decode_primary_side_info_at(
    bytes: &[u8],
    bit_offset: usize,
    params: &[ChannelSideInfoParams],
) -> (res: Result<(PrimarySideInfo, usize), Error>)
    ensures
        match spec_params_error(params@) {
            Some(e) => res == Err::<(PrimarySideInfo, usize), Error>(e),
            None => match spec_side_planes(bits_of(bytes@), bit_offset as nat, params@) {
                Ok(m) => res matches Ok((info, used)) && info.subsubframe_count == m.0
                    && info.channels@.len() == params@.len() && channels_match(info.channels@, m)
                    && used == m.6 - bit_offset,
                Err(e) => res == Err::<(PrimarySideInfo, usize), Error>(e),
            },
        },
{
    if params.len() > MAX_PRIMARY_CHANNELS {
        return Err(Error::InvalidSideInfo { field: "nPCHS", value: params.len() as u32 });
    }
    let mut k: usize = 0;
    while k < params.len()
        invariant
            k <= params@.len() <= 5,
            spec_params_error(params@) == params_error_from(params@, k as nat),
            forall|c: int|
                #![trigger params@[c]]
                0 <= c < k ==> params@[c].n_subs <= 32 && params@[c].n_vqsub <= params@[c].n_subs,
        decreases params@.len() - k,
    {
        let p = params[k];
        if p.n_subs > NUM_SUBBAND {
            return Err(Error::InvalidSideInfo { field: "nSUBS", value: p.n_subs as u32 });
        }
        if p.n_vqsub > p.n_subs {
            return Err(Error::InvalidSideInfo { field: "VQSUB", value: p.n_vqsub as u32 });
        }
        k = k + 1;
    }
    let ghost bits = bits_of(bytes@);
    let ghost np = params@.len();
    let mut br = BitReader::at_bit(bytes, bit_offset);
    let ssc = read_field(&mut br, 2)?;
    let psc = read_field(&mut br, 3)?;
    proof {
        crate::side_info::lemma_read_fixed_bound(bits, bit_offset as nat, 2);
        crate::side_info::lemma_read_fixed_bound(bits, bit_offset as nat + 2, 3);
        reveal_with_fuel(crate::bits::two_pow, 4);
    }
    let subsubframe_count = SubsubframeCount::new(ssc as u8, psc as u8);
    let ghost p2 = br.pos();
    proof {
        lemma_pmode_lens(bits, params@, p2);
    }
    let pmode_rows = read_pmode_plane(&mut br, params)?;
    let ghost pm = run(pmode_chan(bits, params@), p2, (), np)->Ok_0.0;
    let ghost p3 = br.pos();
    let pvq_rows = read_pvq_plane(&mut br, params, &pmode_rows, Ghost(pm))?;
    let ghost pv = run(pvq_chan(bits, params@, pm), p3, (), np)->Ok_0.0;
    let ghost p4 = br.pos();
    proof {
        lemma_abits_lens(bits, params@, p4);
    }
    let abits_rows = read_abits_plane(&mut br, params)?;
    let ghost ab = run(abits_chan(bits, params@), p4, (), np)->Ok_0.0;
    let ghost p5 = br.pos();
    let ghost tm_default = Seq::new(np, |c: int| Seq::new(params@[c].n_vqsub as nat, |n: int| 0u8));
    let tmode_rows = if subsubframe_count.n_ssc() > 1 {
        proof {
            lemma_tmode_lens(bits, params@, ab, p5);
        }
        read_tmode_plane(&mut br, params, &abits_rows, Ghost(ab))?
    } else {
        let mut rows: Vec<[u8; 32]> = Vec::new();
        let mut c: usize = 0;
        while c < params.len()
            invariant
                c <= np,
                np == params@.len(),
                tm_default == Seq::new(
                    np,
                    |c: int| Seq::new(params@[c].n_vqsub as nat, |n: int| 0u8),
                ),
                rows@.len() == c,
                forall|j: int| 0 <= j < c ==> #[trigger] rows@[j]@ == pad32(tm_default[j], 0u8),
            decreases np - c,
        {
            let row = [0u8; 32];
            proof {
                assert(row@ =~= pad32(tm_default[c as int], 0u8));
            }
            rows.push(row);
            c = c + 1;
        }
        rows
    };
    let ghost tmr = if ssc + 1 > 1 {
        run(tmode_chan(bits, params@, ab), p5, (), np)
    } else {
        Ok((tm_default, (), p5))
    };
    let ghost tm = tmr->Ok_0.0;
    let ghost p6 = br.pos();
    let scale_rows = read_scales_plane(
        &mut br,
        params,
        &abits_rows,
        &tmode_rows,
        Ghost(ab),
        Ghost(tm),
    )?;
    let ghost sc = run(scales_chan(bits, params@, ab, tm), p6, (), np)->Ok_0.0;
    let mut channels: Vec<ChannelSideInfo> = Vec::new();
    let mut c: usize = 0;
    while c < params.len()
        invariant
            c <= np,
            np == params@.len(),
            pmode_rows@.len() == np,
            pvq_rows@.len() == np,
            abits_rows@.len() == np,
            tmode_rows@.len() == np,
            scale_rows@.len() == np,
            channels@.len() == c,
            forall|j: int|
                0 <= j < c ==> {
                    &&& #[trigger] channels@[j].pmode@ == pmode_rows@[j]@
                    &&& channels@[j].pvq_index@ == pvq_rows@[j]@
                    &&& channels@[j].abits@ == abits_rows@[j]@
                    &&& channels@[j].tmode@ == tmode_rows@[j]@
                    &&& channels@[j].scales@ == scale_rows@[j]@
                },
        decreases np - c,
    {
        let entry = ChannelSideInfo {
            pmode: pmode_rows[c],
            pvq_index: pvq_rows[c],
            abits: abits_rows[c],
            tmode: tmode_rows[c],
            scales: scale_rows[c],
        };
        channels.push(entry);
        c = c + 1;
    }
    let used = br.absolute_bit_position() - bit_offset;
    let ghost m: SidePlanes = (subsubframe_count, pm, pv, ab, tm, sc, br.pos());
    proof {
        assert(spec_side_planes(bits, bit_offset as nat, params@) == Ok::<SidePlanes, Error>(m));
        assert forall|j: int| 0 <= j < channels@.len() implies {
            &&& #[trigger] channels@[j].pmode@ == pad32(m.1[j], 0u8)
            &&& channels@[j].pvq_index@ == pad32(m.2[j], None::<u16>)
            &&& channels@[j].abits@ == pad32(m.3[j], 0u8)
            &&& channels@[j].tmode@ == pad32(m.4[j], 0u8)
            &&& channels@[j].scales@ == pad32(m.5[j], [0u32, 0u32])
        } by {
            assert(channels@[j].pmode@ == pmode_rows@[j]@);
        }
    }
    Ok((PrimarySideInfo { subsubframe_count, channels }, used))
}

} // verus!
