//! Per-MCU constants and conversions.
pub mod nrf;
pub mod rp2040;
