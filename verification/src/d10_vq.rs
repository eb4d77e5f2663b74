//! Dimensions of the two vector-quantization code books of the Core
//! stream (high-frequency subband vectors and ADPCM predictor
//! coefficients), the integer unpacking of a high-frequency entry, and
//! the scan of the high-frequency VQ indices of one subframe.

use crate::bits::{bits_of, BitReader};
use crate::error::Error;
use crate::side_info::{lemma_read_fixed_bound, spec_read_fixed};
use crate::subframe::{lemma_run_err, lemma_run_len, read_field, run, Step};
use vstd::prelude::*;

verus! {

/// Vectors of the high-frequency code book.
pub const HFREQ_VQ_BOOK_SIZE: usize = 1024;

/// Bits of one high-frequency VQ index.
pub const HFREQ_VQ_INDEX_BITS: u32 = 10;

/// Samples of one high-frequency vector.
pub const HFREQ_VQ_VECTOR_LEN: usize = 32;

/// Packed 16-bit entries per high-frequency vector (two samples each).
pub const HFREQ_VQ_ENTRIES_PER_VECTOR: usize = HFREQ_VQ_VECTOR_LEN / 2;

/// Vectors of the ADPCM coefficient code book.
pub const ADPCM_VQ_BOOK_SIZE: usize = 4096;

/// Bits of one ADPCM coefficient VQ index.
pub const ADPCM_VQ_INDEX_BITS: u32 = 12;

/// Predictor taps per ADPCM coefficient vector.
pub const ADPCM_VQ_VECTOR_LEN: usize = 4;

/// A byte read as a two's-complement signed value.
pub open spec fn signed_byte(b: int) -> int {
    if b < 128 {
        b
    } else {
        b - 256
    }
}

/// The two signed samples packed in a high-frequency entry: the high
/// byte first, then the low byte.
pub fn split_hfreq_vq_entry(entry: u16) -> (r: (i8, i8))
    ensures
        r.0 as int == signed_byte(entry as int / 256),
        r.1 as int == signed_byte(entry as int % 256),
{
    let hi = entry / 256;
    let lo = entry % 256;
    let h: i8 = if hi < 128 {
        hi as i8
    } else {
        (hi as i16 - 256) as i8
    };
    let l: i8 = if lo < 128 {
        lo as i8
    } else {
        (lo as i16 - 256) as i8
    };
    (h, l)
}

/// One high-frequency VQ index: a 10-bit field.
pub open spec fn hf_step(bits: Seq<bool>) -> Step<u16, ()> {
    |n: nat, p: nat, s: ()|
        match spec_read_fixed(bits, p, 10) {
            Ok((v, p2)) => Ok((v as u16, (), p2)),
            Err(e) => Err(e),
        }
}

/// Number of high-frequency VQ subbands of a channel.
pub open spec fn hf_count(vqsub: usize, subs: usize) -> nat {
    if vqsub < subs {
        (subs - vqsub) as nat
    } else {
        0
    }
}

/// The indices of channel `ch`: one per subband from `n_vqsub` to
/// `n_subs`.
pub open spec fn hf_chan(bits: Seq<bool>, n_vqsub: Seq<usize>, n_subs: Seq<usize>) -> Step<
    Seq<u16>,
    (),
> {
    |ch: nat, p: nat, s: ()|
        run(hf_step(bits), p, (), hf_count(n_vqsub[ch as int], n_subs[ch as int]))
}

/// Read the 10-bit high-frequency VQ index of every subband in
/// `[n_vqsub[ch], n_subs[ch])`, channel by channel, starting at bit
/// `bit_offset` of `bytes`. Returns the indices per channel and the
/// number of bits consumed.
#[verifier::loop_isolation(false)]
pub fn scan_hf_vq_indices_at(
    bytes: &[u8],
    bit_offset: usize,
    n_vqsub: &[usize],
    n_subs: &[usize],
) -> (res: Result<(Vec<Vec<u16>>, usize), Error>)
    requires
        n_vqsub@.len() == n_subs@.len(),
    ensures
        match run(hf_chan(bits_of(bytes@), n_vqsub@, n_subs@), bit_offset as nat, (), n_subs@.len()) {
            Ok((idx, _, p)) => res matches Ok((v, used)) && v@.len() == n_subs@.len() && (forall|c: int|
                0 <= c < v@.len() ==> #[trigger] v@[c]@ == idx[c]) && used == p - bit_offset,
            Err(e) => res == Err::<(Vec<Vec<u16>>, usize), Error>(e),
        },
{
    let ghost bits = bits_of(bytes@);
    let ghost chan = hf_chan(bits, n_vqsub@, n_subs@);
    let ghost step = hf_step(bits);
    let mut br = BitReader::at_bit(bytes, bit_offset);
    let mut indices: Vec<Vec<u16>> = Vec::new();
    let mut ch: usize = 0;
    while ch < n_subs.len()
        invariant
            ch <= n_subs@.len(),
            n_vqsub@.len() == n_subs@.len(),
            bits == bits_of(br.bytes()),
            bits == bits_of(bytes@),
            chan == hf_chan(bits, n_vqsub@, n_subs@),
            step == hf_step(bits),
            br.pos() >= bit_offset,
            run(chan, bit_offset as nat, (), ch as nat) matches Ok((idx, _, p)) && p == br.pos()
                && indices@.len() == ch && forall|c: int|
                0 <= c < ch ==> #[trigger] indices@[c]@ == idx[c],
        decreases n_subs@.len() - ch,
    {
        let vqsub = n_vqsub[ch];
        let subs = n_subs[ch];
        let ghost pch = br.pos();
        let mut row: Vec<u16> = Vec::new();
        let mut n: usize = vqsub;
        let ghost count = hf_count(vqsub, subs);
        while n < subs
            invariant
                vqsub <= n <= subs || (n == vqsub && vqsub >= subs),
                count == hf_count(vqsub, subs),
                bits == bits_of(br.bytes()),
                step == hf_step(bits),
                br.pos() >= pch,
                pch >= bit_offset,
                row@.len() == n - vqsub,
                run(step, pch, (), (n - vqsub) as nat) matches Ok((vs, _, p)) && p == br.pos()
                    && row@ == vs,
            decreases subs - n,
        {
            let ghost k = (n - vqsub) as nat;
            let ghost prev = run(step, pch, (), k);
            let ghost p0 = br.pos();
            match read_field(&mut br, 10) {
                Ok(v) => {
                    proof {
                        lemma_read_fixed_bound(bits, p0, 10);
                        reveal_with_fuel(crate::bits::two_pow, 11);
                    }
                    row.push(v as u16);
                    proof {
                        assert(row@ =~= prev->Ok_0.0.push(v as u16));
                    }
                },
                Err(e) => {
                    proof {
                        lemma_run_err(step, pch, (), k + 1, count);
                        lemma_run_err(chan, bit_offset as nat, (), (ch + 1) as nat, n_subs@.len());
                    }
                    return Err(e);
                },
            }
            n = n + 1;
        }
        proof {
            assert((n - vqsub) as nat == count);
            assert(chan(ch as nat, pch, ()) == run(step, pch, (), count));
            lemma_run_len(chan, bit_offset as nat, (), ch as nat);
        }
        let ghost old_indices = indices@;
        indices.push(row);
        proof {
            assert forall|c: int| 0 <= c < ch + 1 implies #[trigger] indices@[c]@ == run(
                chan,
                bit_offset as nat,
                (),
                (ch + 1) as nat,
            )->Ok_0.0[c] by {
                if c < ch {
                    assert(indices@[c] == old_indices[c]);
                }
            }
        }
        ch = ch + 1;
    }
    let used = br.absolute_bit_position() - bit_offset;
    Ok((indices, used))
}

} // verus!
