//! Selection of the synthesis filter-bank coefficient set by the frame
//! header's `FILTS` flag.

use vstd::prelude::*;

verus! {

/// Which 512-tap prototype filter the synthesis QMF uses.
#[derive(Debug, Clone, Copy, PartialEq, Eq, Hash)]
#[non_exhaustive]
pub enum FilterBankSelection {
    /// `FILTS = 0`: the lossy (non-perfect-reconstruction) set.
    NonPerfectReconstruction,
    /// `FILTS != 0`: the lossless (perfect-reconstruction) set.
    PerfectReconstruction,
}

/// The selection a raw `FILTS` value makes.
pub open spec fn spec_from_filts(filts: u8) -> FilterBankSelection {
    if filts == 0 {
        FilterBankSelection::NonPerfectReconstruction
    } else {
        FilterBankSelection::PerfectReconstruction
    }
}

/// The canonical `FILTS` value of a selection.
pub open spec fn spec_filts(s: FilterBankSelection) -> u8 {
    match s {
        FilterBankSelection::NonPerfectReconstruction => 0,
        FilterBankSelection::PerfectReconstruction => 1,
    }
}

impl FilterBankSelection {
    /// Resolve a raw `FILTS` value: zero selects the non-perfect set,
    /// every other value the perfect-reconstruction set.
    pub fn from_filts(filts: u8) -> (s: Self)
        ensures
            s == spec_from_filts(filts),
    {
        if filts == 0 {
            FilterBankSelection::NonPerfectReconstruction
        } else {
            FilterBankSelection::PerfectReconstruction
        }
    }

    /// The canonical `FILTS` value of this selection (0 or 1).
    pub fn filts(self) -> (f: u8)
        ensures
            f == spec_filts(self),
    {
        match self {
            FilterBankSelection::NonPerfectReconstruction => 0,
            FilterBankSelection::PerfectReconstruction => 1,
        }
    }

    /// The name of the coefficient table this selection uses.
    pub fn spec_table_name(self) -> (n: &'static str)
        ensures
            n@ == (match self {
                FilterBankSelection::NonPerfectReconstruction => "raCoeffLossy"@,
                FilterBankSelection::PerfectReconstruction => "raCoeffLossLess"@,
            }),
    {
        match self {
            FilterBankSelection::NonPerfectReconstruction => "raCoeffLossy",
            FilterBankSelection::PerfectReconstruction => "raCoeffLossLess",
        }
    }
}

/// Resolving the canonical `FILTS` value of a selection gives the
/// selection back.
pub proof fn lemma_filts_round_trip(s: FilterBankSelection)
    ensures
        spec_from_filts(spec_filts(s)) == s,
{
}

/// Every raw `FILTS` value maps to a selection whose canonical value is
/// 0 exactly when the raw value is 0.
pub proof fn lemma_filts_canonical(filts: u8)
    ensures
        spec_filts(spec_from_filts(filts)) == (if filts == 0 {
            0u8
        } else {
            1u8
        }),
{
}

} // verus!
