//! Device drivers.
pub mod ws2812_bitbang;
