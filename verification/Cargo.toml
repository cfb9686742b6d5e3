[package]
name = "rumcake"
version = "0.1.0"
edition = "2021"
publish = false

[dependencies]
smart-leds = "=0.4.0"
embedded-hal = "=0.2.7"
embassy-time = "=0.5.1"
embassy-nrf = { version = "=0.11.0", features = ["nrf52840", "time-driver-rtc1", "gpiote"] }
embassy-sync = "=0.8.0"
embassy-usb = "=0.6.0"
embedded-hal-async = "=1.0.0"
embedded-storage = "=0.3.2"
embedded-storage-async = "=0.4.2"
lazy_static = "=1.5.1"
static_cell = "=2.1.1"
proc-macro2 = "=1.0.107"
proc-macro-error = "=1.0.4"
quote = "=1.0.47"
syn = { version = "=2.0.119", features = ["full"] }
