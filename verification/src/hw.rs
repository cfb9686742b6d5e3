//! Hardware-specific helpers.
pub mod mcu;
