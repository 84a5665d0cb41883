//! H.265 NAL unit type constants.

use vstd::prelude::*;

verus! {

/// IDR with RADL pictures
pub const IDR_W_RADL: u8 = 19;

/// IDR without leading pictures
pub const IDR_N_LP: u8 = 20;

/// Video Parameter Set
pub const VPS: u8 = 32;

/// Sequence Parameter Set
pub const SPS: u8 = 33;

/// Picture Parameter Set
pub const PPS: u8 = 34;

} // verus!
