//! Underglow: a strip of LEDs, each with a color of its own.
use super::color::Color;
use super::frame::Frame;
use super::gamma::{gamma, gamma_corrected};
use super::Ws2812;
use vstd::prelude::*;

verus! {

impl Ws2812 {
    /// The frame that shows `colors` on the strip, gamma-corrected: the first
    /// color on the first LED.
    pub fn write(&self, colors: &Vec<Color>) -> (frame: Frame)
        ensures
            frame@ == self.frame(gamma_corrected(colors@)),
    {
        let corrected = gamma(colors);
        self.write_colors(&corrected)
    }
}

} // verus!
