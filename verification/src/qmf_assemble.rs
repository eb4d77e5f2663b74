//! Sizes of the 32-band synthesis QMF input stage and the errors of its
//! input assembly.

use crate::text::{decimal, push_decimal};
use vstd::prelude::*;

verus! {

/// Length of the synthesis QMF history register `raX[]`: 512 entries,
/// sixteen blocks of 32 subbands.
pub const X_HISTORY_LEN: usize = 512;

/// Error of the per-sample QMF input assembly when its inputs violate
/// its preconditions.
#[derive(Debug, Clone, Copy, PartialEq, Eq)]
#[non_exhaustive]
pub enum QmfAssembleError {
    /// `n_subs` exceeds the 32 subbands of the filter bank.
    SubsOutOfRange {
        /// The out-of-range `n_subs`.
        n_subs: usize,
    },
    /// Fewer than `n_subs` per-subband samples were supplied.
    SampleSliceTooShort {
        /// The number of samples supplied.
        provided: usize,
        /// The number required (`n_subs`).
        required: usize,
    },
}

/// The human-readable message of an assembly error.
pub open spec fn qmf_error_text(e: QmfAssembleError) -> Seq<char> {
    match e {
        QmfAssembleError::SubsOutOfRange { n_subs } => "n_subs="@ + decimal(n_subs as nat)
            + " exceeds NumSubband=32 for the 32-band synthesis QMF"@,
        QmfAssembleError::SampleSliceTooShort { provided, required } => "subband_samples.len()="@
            + decimal(provided as nat) + " is shorter than the n_subs="@ + decimal(required as nat)
            + " per-sample scalars required by the synthesis QMF"@,
    }
}

impl QmfAssembleError {
    /// The human-readable message of this error.
    pub fn message(&self) -> (s: String)
        ensures
            s@ == qmf_error_text(*self),
    {
        match self {
            QmfAssembleError::SubsOutOfRange { n_subs } => {
                let mut s = String::from_str("n_subs=");
                push_decimal(&mut s, *n_subs as u64);
                s.append(" exceeds NumSubband=32 for the 32-band synthesis QMF");
                s
            },
            QmfAssembleError::SampleSliceTooShort { provided, required } => {
                let mut s = String::from_str("subband_samples.len()=");
                push_decimal(&mut s, *provided as u64);
                s.append(" is shorter than the n_subs=");
                push_decimal(&mut s, *required as u64);
                s.append(" per-sample scalars required by the synthesis QMF");
                s
            },
        }
    }
}


/// The QMF input vector of one sample: the first `n_subs` per-subband
/// samples followed by `zero` up to 32 entries.
pub open spec fn spec_xin<T>(samples: Seq<T>, n_subs: nat, zero: T) -> Seq<T> {
    Seq::new(32, |i: int| if i < n_subs { samples[i] } else { zero })
}

/// Assemble the 32-entry QMF input of one sample from the per-subband
/// samples: the `n_subs` active subbands are copied, the inactive tail
/// is `zero`. Fails when `n_subs` exceeds 32 or fewer than `n_subs`
/// samples are supplied (checked in that order).
pub fn assemble_xin<T: Copy>(subband_samples: &[T], n_subs: usize, zero: T) -> (res: Result<
    [T; 32],
    QmfAssembleError,
>)
    ensures
        n_subs > 32 ==> res == Err::<[T; 32], QmfAssembleError>(
            QmfAssembleError::SubsOutOfRange { n_subs },
        ),
        n_subs <= 32 && subband_samples@.len() < n_subs ==> res == Err::<[T; 32], QmfAssembleError>(
            QmfAssembleError::SampleSliceTooShort { provided: subband_samples@.len() as usize, required: n_subs },
        ),
        n_subs <= 32 && subband_samples@.len() >= n_subs ==> (res matches Ok(x) && x@ == spec_xin(
            subband_samples@,
            n_subs as nat,
            zero,
        )),
{
    if n_subs > 32 {
        return Err(QmfAssembleError::SubsOutOfRange { n_subs });
    }
    if subband_samples.len() < n_subs {
        return Err(
            QmfAssembleError::SampleSliceTooShort { provided: subband_samples.len(), required: n_subs },
        );
    }
    let mut ra_xin = [zero; 32];
    let mut i: usize = 0;
    while i < n_subs
        invariant
            i <= n_subs <= 32,
            n_subs <= subband_samples@.len(),
            forall|j: int| 0 <= j < i ==> ra_xin@[j] == subband_samples@[j],
            forall|j: int| i <= j < 32 ==> ra_xin@[j] == zero,
        decreases n_subs - i,
    {
        ra_xin[i] = subband_samples[i];
        i = i + 1;
    }
    assert(ra_xin@ =~= spec_xin(subband_samples@, n_subs as nat, zero));
    Ok(ra_xin)
}

/// The register after one shift: entry `i` takes entry `i - 32` from 32
/// on; the first 32 entries stay.
pub open spec fn spec_shift<T>(s: Seq<T>) -> Seq<T> {
    Seq::new(s.len(), |i: int| if i < 32 { s[i] } else { s[i - 32] })
}

/// Shift the QMF history register by one block of 32: entry `i` takes
/// entry `i - 32` for `i` from 511 down to 32; the first 32 entries are
/// left as they were.
pub fn shift_x_history<T: Copy>(ra_x: &mut [T; 512])
    ensures
        final(ra_x)@ == spec_shift(old(ra_x)@),
{
    let mut i: usize = 512;
    while i > 32
        invariant
            32 <= i <= 512,
            forall|j: int| 0 <= j < i ==> #[trigger] ra_x@[j] == old(ra_x)@[j],
            forall|j: int| i <= j < 512 ==> #[trigger] ra_x@[j] == old(ra_x)@[j - 32],
        decreases i,
    {
        i = i - 1;
        let v = ra_x[i - 32];
        ra_x[i] = v;
    }
    assert(ra_x@ =~= spec_shift(old(ra_x)@));
}

/// Two shifts move the register by 64 entries: entry `i` holds what
/// entry `i - 64` held before from 64 on, what entry `i - 32` held before
/// from 32 to 63, and is untouched below 32.
pub proof fn lemma_shift_twice<T>(s: Seq<T>)
    requires
        s.len() == 512,
    ensures
        forall|i: int| 64 <= i < 512 ==> #[trigger] spec_shift(spec_shift(s))[i] == s[i - 64],
        forall|i: int| 32 <= i < 64 ==> #[trigger] spec_shift(spec_shift(s))[i] == s[i - 32],
        forall|i: int| 0 <= i < 32 ==> #[trigger] spec_shift(spec_shift(s))[i] == s[i],
{
}

} // verus!
