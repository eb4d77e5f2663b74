//! Layout of the 544-entry cosine-modulation matrix of the synthesis
//! QMF: four blocks of 256, 256, 16 and 16 entries.

use vstd::prelude::*;

verus! {

/// Total number of entries of the cosine-modulation matrix.
pub const COS_MOD_LEN: usize = 544;

/// Start of block 1, `cos((2i+1)(2k+1) pi / 64)`.
pub const COS_MOD_BLOCK1_START: usize = 0;

/// Start of block 2, `cos(i(2k+1) pi / 32)`.
pub const COS_MOD_BLOCK2_START: usize = 256;

/// Start of block 3, `0.25 / (2 cos((2k+1) pi / 128))`.
pub const COS_MOD_BLOCK3_START: usize = 512;

/// Start of block 4, `-0.25 / (2 sin((2k+1) pi / 128))`.
pub const COS_MOD_BLOCK4_START: usize = 528;

} // verus!
