//! The 32-bit sync words of the DTS bit-stream families.

use vstd::prelude::*;

verus! {

/// Core, 16-bit big-endian.
pub const CORE_BE: u32 = 0x7FFE_8001;
/// Core, 16-bit little-endian.
pub const CORE_LE: u32 = 0xFE7F_0180;
/// Core, 14-bit big-endian.
pub const CORE_14B_BE: u32 = 0x1FFF_E800;
/// Core, 14-bit little-endian.
pub const CORE_14B_LE: u32 = 0xFF1F_00E8;
/// Extension: XCH.
pub const XCH: u32 = 0x5A5A_5A5A;
/// Extension: XXCH.
pub const XXCH: u32 = 0x4700_4A03;
/// Extension: X96.
pub const X96: u32 = 0x1D95_F262;
/// Extension: XBR.
pub const XBR: u32 = 0x655E_315E;
/// Extension: LBR.
pub const LBR: u32 = 0x0A80_1921;
/// Extension: XLL.
pub const XLL: u32 = 0x41A2_9547;
/// Extension substream header.
pub const EXSS: u32 = 0x6458_2025;
/// Core carried in an extension substream.
pub const SUBSTREAM_CORE: u32 = 0x02B0_9261;
/// Auxiliary data, revision 1.
pub const REV1AUX: u32 = 0x9A11_05A0;

} // verus!
