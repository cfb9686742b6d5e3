//! nRF52 specifics.
use vstd::prelude::*;

verus! {

/// Core clock of the nRF52840 in Hz.
pub const SYSCLK: u32 = 48_000_000;

/// Battery charge in percent for a SAADC reading of a fifth of the supply
/// voltage.
///
/// The reading is scaled to `5 * sample`; at or above 4200 the battery counts
/// as full, at or below 3450 as empty, and in between the charge grows
/// linearly.
pub open spec fn adc_pct(sample: int) -> int {
    let mv = sample * 5;
    if mv >= 4200 {
        100
    } else if mv <= 3450 {
        0
    } else {
        mv * 2 / 15 - 459
    }
}

/// The charge is a percentage, and it never falls as the reading rises.
pub proof fn lemma_adc_pct_monotonic(lower: int, higher: int)
    requires
        lower <= higher,
    ensures
        0 <= adc_pct(lower) <= adc_pct(higher) <= 100,
{
}

/// Converts a SAADC sample of a fifth of the supply voltage into a battery
/// percentage.
pub fn adc_sample_to_pct(sample: &i16) -> (pct: u8)
    ensures
        pct as int == adc_pct(*sample as int),
        pct <= 100,
{
    let mv: i32 = (*sample as i32) * 5;
    if mv >= 4200 {
        100
    } else if mv <= 3450 {
        0
    } else {
        (mv * 2 / 15 - 459) as u8
    }
}

} // verus!
