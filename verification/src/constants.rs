//! Constants for the JAM protocol

use vstd::prelude::*;

verus! {

/// Maximum block size in bytes
pub const MAX_BLOCK_SIZE: u32 = 4194304u32;

/// Maximum number of cores
pub const MAX_CORES: u32 = 1023u32;

/// Maximum accumulation size
pub const MAX_ACCUMULATION_SIZE: u32 = 1048576u32;

} // verus!
