use rumcake::drivers::ws2812_bitbang::calibration::{ClockConfig, Platform, TickFactor};
use rumcake::drivers::ws2812_bitbang::color::{read_colors, Color};
use rumcake::drivers::ws2812_bitbang::frame::Frame;
use rumcake::drivers::ws2812_bitbang::signal::{read_bytes, Pulse};
use rumcake::drivers::ws2812_bitbang::{Ws2812, RES, T0H, T0L, T1H, T1L};
use rumcake::hw::mcu::{nrf, rp2040};

fn driver() -> Ws2812 {
    Ws2812::new(TickFactor::new(ClockConfig::new(nrf::SYSCLK).unwrap(), Platform::Generic)).unwrap()
}

const ONE: Pulse = Pulse { high: 25, low: 10 };
const ZERO: Pulse = Pulse { high: 10, low: 25 };

#[test]
fn protocol_timing_is_the_datasheet() {
    assert_eq!((T0H, T0L, T1H, T1L), (350, 900, 900, 350));
    assert_eq!(RES, 280);
}

#[test]
fn one_is_long_high_then_short_low() {
    assert_eq!(driver().encode_bit(true), ONE);
}

#[test]
fn zero_is_short_high_then_long_low() {
    assert_eq!(driver().encode_bit(false), ZERO);
}

#[test]
fn pulses_follow_the_clock() {
    let rp = Ws2812::new(TickFactor::new(ClockConfig::new(rp2040::SYSCLK).unwrap(), Platform::Generic)).unwrap();
    assert_eq!(rp.encode_bit(true), Pulse { high: 71, low: 27 });
    assert_eq!(rp.encode_bit(false), Pulse { high: 27, low: 71 });
    let stm = Ws2812::new(TickFactor::new(ClockConfig::new(48_000_000).unwrap(), Platform::Stm32f072cb)).unwrap();
    assert_eq!(stm.encode_bit(true), Pulse { high: 17, low: 6 });
    assert_eq!(stm.encode_bit(false), Pulse { high: 6, low: 17 });
}

#[test]
fn pulse_decodes_by_the_longer_level() {
    assert!(ONE.decode());
    assert!(!ZERO.decode());
    assert!(!Pulse { high: 5, low: 5 }.decode());
    assert!(Pulse { high: 2, low: 1 }.decode());
    assert!(!Pulse { high: 0, low: 0 }.decode());
}

#[test]
fn byte_goes_out_most_significant_bit_first() {
    let mut signal = Vec::new();
    driver().write_byte(0b1010_0001, &mut signal);
    assert_eq!(signal, vec![ONE, ZERO, ONE, ZERO, ZERO, ZERO, ZERO, ONE]);
}

#[test]
fn byte_is_appended_to_the_signal() {
    let mut signal = vec![Pulse { high: 1, low: 2 }];
    driver().write_byte(0x80, &mut signal);
    driver().write_byte(0x01, &mut signal);
    assert_eq!(signal.len(), 17);
    assert_eq!(signal[0], Pulse { high: 1, low: 2 });
    assert_eq!(signal[1], ONE);
    assert_eq!(signal[2..16], [ZERO; 14]);
    assert_eq!(signal[16], ONE);
}

#[test]
fn all_zero_and_all_one_bytes() {
    let mut signal = Vec::new();
    driver().write_byte(0x00, &mut signal);
    assert_eq!(signal, vec![ZERO; 8]);
    let mut signal = Vec::new();
    driver().write_byte(0xff, &mut signal);
    assert_eq!(signal, vec![ONE; 8]);
}

#[test]
fn every_byte_survives_the_round_trip() {
    let driver = driver();
    for byte in 0u8..=255 {
        let mut signal = Vec::new();
        driver.write_byte(byte, &mut signal);
        assert_eq!(read_bytes(&signal), Some(vec![byte]));
    }
}

#[test]
fn byte_sequence_survives_the_round_trip_on_every_known_clock() {
    let bytes = vec![0x00u8, 0xff, 0x80, 0x01, 0x55, 0xaa, 0x12, 0xef];
    for (hz, platform) in [
        (nrf::SYSCLK, Platform::Generic),
        (rp2040::SYSCLK, Platform::Generic),
        (48_000_000, Platform::Stm32f072cb),
        (4_761_905, Platform::Generic),
        (u32::MAX, Platform::Stm32f072cb),
    ] {
        let driver = Ws2812::new(TickFactor::new(ClockConfig::new(hz).unwrap(), platform)).unwrap();
        let mut signal = Vec::new();
        for byte in bytes.iter() {
            driver.write_byte(*byte, &mut signal);
        }
        assert_eq!(signal.len(), 64);
        assert_eq!(read_bytes(&signal), Some(bytes.clone()));
    }
}

#[test]
fn partial_byte_cannot_be_read() {
    assert_eq!(read_bytes(&vec![ONE; 7]), None);
    assert_eq!(read_bytes(&vec![ONE; 9]), None);
    assert_eq!(read_bytes(&vec![]), Some(vec![]));
}

#[test]
fn bytes_are_read_most_significant_bit_first() {
    let signal = vec![ZERO, ZERO, ZERO, ZERO, ZERO, ZERO, ONE, ZERO];
    assert_eq!(read_bytes(&signal), Some(vec![2]));
    let signal = vec![ONE, ZERO, ZERO, ZERO, ZERO, ZERO, ZERO, ZERO];
    assert_eq!(read_bytes(&signal), Some(vec![128]));
}

#[test]
fn channels_go_out_green_red_blue() {
    let frame = driver().write_colors(&vec![Color::new(10, 20, 30)]);
    assert_eq!(read_bytes(&frame.pulses), Some(vec![20, 10, 30]));
}

#[test]
fn colors_are_read_green_red_blue() {
    assert_eq!(read_colors(&vec![20, 10, 30]), Some(vec![Color { r: 10, g: 20, b: 30 }]));
    assert_eq!(read_colors(&vec![1, 2, 3, 4, 5, 6]), Some(vec![Color::new(2, 1, 3), Color::new(5, 4, 6)]));
    assert_eq!(read_colors(&vec![1, 2]), None);
    assert_eq!(read_colors(&vec![1, 2, 3, 4]), None);
    assert_eq!(read_colors(&vec![]), Some(vec![]));
}

#[test]
fn frame_holds_the_chain_in_order() {
    let colors = vec![Color::new(1, 2, 3), Color::new(4, 5, 6), Color::new(255, 0, 128)];
    let frame = driver().write_colors(&colors);
    assert_eq!(frame.pulses.len(), 72);
    assert_eq!(read_bytes(&frame.pulses), Some(vec![2, 1, 3, 5, 4, 6, 0, 255, 128]));
    assert_eq!(frame.decode(), Some(colors));
}

#[test]
fn frame_ends_with_the_latch_pause() {
    let frame = driver().write_colors(&vec![Color::new(1, 2, 3)]);
    assert_eq!(frame.reset_micros, 280);
    let frame = driver().write_colors(&vec![]);
    assert_eq!(frame.reset_micros, 280);
    assert!(frame.pulses.is_empty());
}

#[test]
fn frame_takes_at_least_its_bits_times_the_shortest_bit() {
    let driver = driver();
    let shortest_bit = 35u64;
    for n in [0usize, 1, 2, 17, 60] {
        let colors = vec![Color::new(0x0f, 0xf0, 0x55); n];
        let frame = driver.write_colors(&colors);
        assert_eq!(frame.pulses.len(), 24 * n);
        let spent: u64 = frame.pulses.iter().map(|p| p.high as u64 + p.low as u64).sum();
        assert!(spent >= n as u64 * 24 * shortest_bit);
        assert_eq!(spent, n as u64 * 24 * 35);
        assert!(frame.reset_micros >= RES);
    }
}

#[test]
fn frame_with_stray_pulses_cannot_be_decoded() {
    let mut frame = driver().write_colors(&vec![Color::new(1, 2, 3)]);
    frame.pulses.push(ONE);
    assert_eq!(frame.decode(), None);
    let frame = Frame { pulses: vec![ONE; 16], reset_micros: 280 };
    assert_eq!(frame.decode(), None);
}

#[test]
fn color_constructors() {
    assert_eq!(Color::new(1, 2, 3), Color { r: 1, g: 2, b: 3 });
    assert_eq!(Color::gray(7), Color { r: 7, g: 7, b: 7 });
    assert_eq!(Color::default(), Color { r: 0, g: 0, b: 0 });
}
