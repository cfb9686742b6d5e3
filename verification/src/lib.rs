//! Board-support building blocks for keyboard firmware.
//!
//! The heart of the crate is [`drivers::ws2812_bitbang`], a software driver for
//! WS2812 addressable LEDs whose waveform generation is verified: which pulses
//! are emitted for a frame, in which order, and with how many busy-wait
//! iterations each.
pub mod drivers;
pub mod hw;
