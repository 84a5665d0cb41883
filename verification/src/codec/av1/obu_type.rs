//! AV1 OBU type constants.

use vstd::prelude::*;

verus! {

/// Sequence Header OBU
pub const SEQUENCE_HEADER: u8 = 1;

/// Frame Header OBU
pub const FRAME_HEADER: u8 = 3;

/// Frame OBU (contains header + tile data)
pub const FRAME: u8 = 6;

} // verus!
