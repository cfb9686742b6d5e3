//! RP2040 specifics.
use vstd::prelude::*;

verus! {

/// Core clock of the RP2040 in Hz.
pub const SYSCLK: u32 = 133_000_000;

} // verus!
