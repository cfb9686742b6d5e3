use rumcake::drivers::ws2812_bitbang::backlight::{
    CoordinateMap, DriverError, WS2812BitbangBacklightDriver,
};
use rumcake::drivers::ws2812_bitbang::calibration::{ClockConfig, Platform, TickFactor};
use rumcake::drivers::ws2812_bitbang::color::Color;
use rumcake::drivers::ws2812_bitbang::gamma::gamma;
use rumcake::drivers::ws2812_bitbang::Ws2812;

fn driver() -> Ws2812 {
    Ws2812::new(TickFactor::new(ClockConfig::new(48_000_000).unwrap(), Platform::Generic)).unwrap()
}

/// Three columns, four rows; only the key in column 2 of row 3 has an LED,
/// at place 5 of the chain.
fn single_led_table() -> [[Option<u8>; 3]; 4] {
    let mut table = [[None; 3]; 4];
    table[3][2] = Some(5);
    table
}

struct SingleLed;

impl WS2812BitbangBacklightDriver for SingleLed {
    fn get_led_from_matrix_coordinates(x: u8, y: u8) -> Option<u8> {
        if x == 2 && y == 3 {
            Some(5)
        } else {
            None
        }
    }
}

struct Snake;

impl WS2812BitbangBacklightDriver for Snake {
    fn get_led_from_matrix_coordinates(x: u8, y: u8) -> Option<u8> {
        if y == 0 {
            Some(x)
        } else {
            Some(5 - x)
        }
    }
}

struct BeyondTheChain;

impl WS2812BitbangBacklightDriver for BeyondTheChain {
    fn get_led_from_matrix_coordinates(x: u8, y: u8) -> Option<u8> {
        Some(x + 2 * y + 1)
    }
}

struct Dark;

impl WS2812BitbangBacklightDriver for Dark {
    fn get_led_from_matrix_coordinates(_x: u8, _y: u8) -> Option<u8> {
        None
    }
}

struct Wraps;

impl WS2812BitbangBacklightDriver for Wraps {
    fn get_led_from_matrix_coordinates(x: u8, _y: u8) -> Option<u8> {
        Some(x)
    }
}

#[test]
fn gamma_corrects_each_channel_by_the_table() {
    let corrected = gamma(&vec![Color::new(200, 127, 100), Color::new(0, 255, 30)]);
    assert_eq!(corrected, vec![Color::new(129, 36, 19), Color::new(0, 255, 1)]);
}

#[test]
fn gamma_is_what_smart_leds_computes() {
    let colors: Vec<Color> = (0u8..=255).map(|v| Color::new(v, 255 - v, v / 2)).collect();
    let expected: Vec<Color> = smart_leds::gamma(
        colors.iter().map(|c| smart_leds::RGB8 { r: c.r, g: c.g, b: c.b }),
    )
    .map(|c| Color::new(c.r, c.g, c.b))
    .collect();
    assert_eq!(gamma(&colors), expected);
}

#[test]
fn gamma_of_nothing_is_nothing() {
    assert_eq!(gamma(&vec![]), vec![]);
}

#[test]
fn underglow_frame_is_gamma_corrected() {
    let frame = driver().write(&vec![Color::new(200, 127, 100), Color::new(255, 0, 30)]);
    assert_eq!(frame.decode(), Some(vec![Color::new(129, 36, 19), Color::new(255, 0, 1)]));
    assert_eq!(frame.reset_micros, 280);
}

#[test]
fn underglow_frame_of_an_empty_strip() {
    let frame = driver().write(&vec![]);
    assert!(frame.pulses.is_empty());
    assert_eq!(frame.reset_micros, 280);
}

#[test]
fn uniform_brightness_is_monotonic_after_gamma() {
    let map = CoordinateMap::new(&single_led_table()).unwrap();
    let dark = driver().write_uniform(&map, 0).decode().unwrap();
    let bright = driver().write_uniform(&map, 255).decode().unwrap();
    assert_eq!(dark, vec![Color::gray(0); 12]);
    assert_eq!(bright, vec![Color::gray(255); 12]);
    for (d, b) in dark.iter().zip(bright.iter()) {
        assert!(b.r >= d.r && b.g >= d.g && b.b >= d.b);
    }
    let floor = smart_leds::gamma([smart_leds::RGB8 { r: 0, g: 0, b: 0 }].into_iter()).next().unwrap();
    assert_eq!((dark[0].r, dark[0].g, dark[0].b), (floor.r, floor.g, floor.b));
}

#[test]
fn uniform_brightness_never_falls_as_the_input_rises() {
    let map = CoordinateMap::new(&[[None]]).unwrap();
    let mut last = 0u8;
    for brightness in 0u8..=255 {
        let chain = driver().write_uniform(&map, brightness).decode().unwrap();
        assert_eq!(chain.len(), 1);
        assert_eq!(chain[0], Color::gray(chain[0].r));
        assert!(chain[0].r >= last);
        last = chain[0].r;
    }
}

#[test]
fn uniform_brightness_fills_the_whole_chain() {
    let map = CoordinateMap::new(&single_led_table()).unwrap();
    let frame = driver().write_uniform(&map, 200);
    assert_eq!(frame.pulses.len(), 12 * 24);
    assert_eq!(frame.decode(), Some(vec![Color::gray(129); 12]));
    assert_eq!(frame.reset_micros, 280);
}

#[test]
fn grayscale_matrix_lights_only_the_mapped_led() {
    let map = CoordinateMap::new(&single_led_table()).unwrap();
    let mut buf = [[0u8; 3]; 4];
    buf[3][2] = 200;
    let chain = driver().write_grayscale_matrix(&map, &buf).decode().unwrap();
    assert_eq!(chain.len(), 12);
    for (place, color) in chain.iter().enumerate() {
        if place == 5 {
            assert_eq!(*color, Color::gray(129));
            assert_ne!(*color, Color::gray(0));
        } else {
            assert_eq!(*color, Color::gray(0));
        }
    }
}

#[test]
fn unmapped_cells_are_skipped() {
    let map = CoordinateMap::new(&single_led_table()).unwrap();
    let buf = [[255u8; 3]; 4];
    let chain = driver().write_grayscale_matrix(&map, &buf).decode().unwrap();
    let mut expected = vec![Color::gray(0); 12];
    expected[5] = Color::gray(255);
    assert_eq!(chain, expected);
}

#[test]
fn rgb_matrix_follows_the_wiring() {
    let map = CoordinateMap::<3, 2>::from_driver::<Snake>().unwrap();
    let buf = [
        [Color::new(255, 0, 0), Color::new(0, 255, 0), Color::new(0, 0, 255)],
        [Color::new(200, 200, 0), Color::new(0, 127, 127), Color::new(100, 0, 100)],
    ];
    let chain = driver().write_rgb_matrix(&map, &buf).decode().unwrap();
    assert_eq!(
        chain,
        vec![
            Color::new(255, 0, 0),
            Color::new(0, 255, 0),
            Color::new(0, 0, 255),
            Color::new(19, 0, 19),
            Color::new(0, 36, 36),
            Color::new(129, 129, 0),
        ]
    );
}

#[test]
fn chain_holds_the_colors_before_gamma() {
    let map = CoordinateMap::<3, 2>::from_driver::<Snake>().unwrap();
    let grays = map.chain(&[[1u8, 2, 3], [4, 5, 6]]);
    assert_eq!(
        grays,
        vec![
            Color::gray(1),
            Color::gray(2),
            Color::gray(3),
            Color::gray(6),
            Color::gray(5),
            Color::gray(4),
        ]
    );
    let colors = map.chain(&[
        [Color::new(1, 2, 3), Color::new(4, 5, 6), Color::new(7, 8, 9)],
        [Color::new(10, 11, 12), Color::new(13, 14, 15), Color::new(16, 17, 18)],
    ]);
    assert_eq!(colors[0], Color::new(1, 2, 3));
    assert_eq!(colors[3], Color::new(16, 17, 18));
    assert_eq!(colors[5], Color::new(10, 11, 12));
}

#[test]
fn later_cell_wins_a_shared_led() {
    let map = CoordinateMap::new(&[[Some(1), Some(1)], [None, Some(0)]]).unwrap();
    let buf = [[255u8, 200], [100, 127]];
    let chain = map.chain(&buf);
    assert_eq!(chain, vec![Color::gray(127), Color::gray(200), Color::gray(0), Color::gray(0)]);
    let shown = driver().write_grayscale_matrix(&map, &buf).decode().unwrap();
    assert_eq!(shown, vec![Color::gray(36), Color::gray(129), Color::gray(0), Color::gray(0)]);
}

#[test]
fn chain_is_built_fresh_for_every_frame() {
    let map = CoordinateMap::new(&single_led_table()).unwrap();
    let mut buf = [[0u8; 3]; 4];
    buf[3][2] = 255;
    let first = driver().write_grayscale_matrix(&map, &buf).decode().unwrap();
    assert_eq!(first[5], Color::gray(255));
    buf[3][2] = 0;
    let second = driver().write_grayscale_matrix(&map, &buf).decode().unwrap();
    assert_eq!(second, vec![Color::gray(0); 12]);
}

#[test]
fn place_beyond_the_chain_is_refused() {
    let table = [[Some(0), Some(4)], [None, None]];
    assert_eq!(CoordinateMap::new(&table).err(), Some(DriverError::OffsetOutOfRange));
    let table = [[Some(0), Some(3)], [None, None]];
    assert!(CoordinateMap::new(&table).is_ok());
    assert_eq!(
        CoordinateMap::<2, 2>::from_driver::<BeyondTheChain>().err(),
        Some(DriverError::OffsetOutOfRange)
    );
    assert_eq!(
        CoordinateMap::<1, 1>::new(&[[Some(1)]]).err(),
        Some(DriverError::OffsetOutOfRange)
    );
}

#[test]
fn matrix_too_large_to_count_is_refused() {
    assert_eq!(
        CoordinateMap::<2, { usize::MAX }>::from_driver::<Dark>().err(),
        Some(DriverError::ChainTooLong)
    );
    assert_eq!(
        CoordinateMap::<{ usize::MAX }, { usize::MAX }>::from_driver::<Dark>().err(),
        Some(DriverError::ChainTooLong)
    );
}

#[test]
fn empty_matrix_has_an_empty_chain() {
    let map = CoordinateMap::<0, 0>::new(&[]).unwrap();
    assert_eq!(map.chain_len(), 0);
    let frame = driver().write_uniform(&map, 255);
    assert!(frame.pulses.is_empty());
    assert_eq!(frame.reset_micros, 280);
    let none: [[u8; 0]; 0] = [];
    let frame = driver().write_grayscale_matrix(&map, &none);
    assert!(frame.pulses.is_empty());
    let map = CoordinateMap::<0, 2>::new(&[[], []]).unwrap();
    assert_eq!(map.chain_len(), 0);
    let map = CoordinateMap::<3, 0>::from_driver::<Snake>().unwrap();
    assert_eq!(map.chain_len(), 0);
}

#[test]
fn map_answers_for_each_cell() {
    let map = CoordinateMap::new(&single_led_table()).unwrap();
    assert_eq!(map.chain_len(), 12);
    assert_eq!(map.get_led_from_matrix_coordinates(2, 3), Some(5));
    assert_eq!(map.get_led_from_matrix_coordinates(3, 2), None);
    assert_eq!(map.get_led_from_matrix_coordinates(0, 0), None);
    assert_eq!(map.get_led_from_matrix_coordinates(2, 4), None);
    assert_eq!(map.get_led_from_matrix_coordinates(255, 255), None);
}

#[test]
fn map_of_a_keyboard_asks_every_cell() {
    let map = CoordinateMap::<3, 4>::from_driver::<SingleLed>().unwrap();
    assert_eq!(map.chain_len(), 12);
    for y in 0u8..4 {
        for x in 0u8..3 {
            assert_eq!(
                map.get_led_from_matrix_coordinates(x, y),
                SingleLed::get_led_from_matrix_coordinates(x, y)
            );
        }
    }
    let map = CoordinateMap::<3, 2>::from_driver::<Snake>().unwrap();
    assert_eq!(map.get_led_from_matrix_coordinates(0, 1), Some(5));
    assert_eq!(map.get_led_from_matrix_coordinates(2, 1), Some(3));
}

#[test]
fn keyboard_is_asked_with_the_low_eight_bits_of_a_coordinate() {
    let map = CoordinateMap::<258, 1>::from_driver::<Wraps>().unwrap();
    assert_eq!(map.chain_len(), 258);
    assert_eq!(map.get_led_from_matrix_coordinates(0, 0), Some(0));
    assert_eq!(map.get_led_from_matrix_coordinates(255, 0), Some(255));
    let mut buf = [[0u8; 258]; 1];
    buf[0][1] = 7;
    buf[0][257] = 9;
    let chain = map.chain(&buf);
    assert_eq!(chain[1], Color::gray(9));
    assert_eq!(chain[0], Color::gray(0));
}
