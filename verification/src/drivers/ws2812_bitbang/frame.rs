//! Frames: what goes onto the line for one update of the LED chain.
use super::color::{colors_of, read_colors, Color};
use super::signal::{bits_read, bytes_of, read_bytes, Pulse};
use vstd::prelude::*;

verus! {

/// What the driver puts on the line for one update of the LED chain.
#[derive(Debug)]
pub struct Frame {
    /// The pulses, in the order they go out.
    pub pulses: Vec<Pulse>,
    /// Microseconds the line then stays low, so that the LEDs latch.
    pub reset_micros: u64,
}

impl View for Frame {
    type V = (Seq<Pulse>, u64);

    /// The pulses, and the microseconds of the pause after them.
    open spec fn view(&self) -> (Seq<Pulse>, u64) {
        (self.pulses@, self.reset_micros)
    }
}

impl Frame {
    /// Reads the chain of colors that a receiver takes from the frame. There
    /// is none to read unless the pulses make up whole colors.
    pub fn decode(&self) -> (colors: Option<Vec<Color>>)
        ensures
            match colors {
                Some(c) => self@.0.len() % 24 == 0 && c@ == colors_of(bytes_of(bits_read(self@.0))),
                None => self@.0.len() % 24 != 0,
            },
    {
        match read_bytes(&self.pulses) {
            Some(bytes) => read_colors(&bytes),
            None => None,
        }
    }
}

} // verus!
