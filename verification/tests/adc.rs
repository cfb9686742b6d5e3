use rumcake::hw::mcu::nrf::adc_sample_to_pct;

#[test]
fn full_battery_is_100_percent() {
    assert_eq!(adc_sample_to_pct(&840), 100);
    assert_eq!(adc_sample_to_pct(&841), 100);
    assert_eq!(adc_sample_to_pct(&1000), 100);
}

#[test]
fn empty_battery_is_0_percent() {
    assert_eq!(adc_sample_to_pct(&690), 0);
    assert_eq!(adc_sample_to_pct(&689), 0);
    assert_eq!(adc_sample_to_pct(&0), 0);
    assert_eq!(adc_sample_to_pct(&-1), 0);
}

#[test]
fn charge_grows_linearly_in_between() {
    // 691 * 5 = 3455; 3455 * 2 / 15 = 460; 460 - 459 = 1
    assert_eq!(adc_sample_to_pct(&691), 1);
    // 700 * 5 = 3500; 7000 / 15 = 466; 466 - 459 = 7
    assert_eq!(adc_sample_to_pct(&700), 7);
    // 765 * 5 = 3825; 7650 / 15 = 510; 510 - 459 = 51
    assert_eq!(adc_sample_to_pct(&765), 51);
    // 839 * 5 = 4195; 8390 / 15 = 559; 559 - 459 = 100
    assert_eq!(adc_sample_to_pct(&839), 100);
    assert_eq!(adc_sample_to_pct(&838), 99);
}

#[test]
fn extreme_samples_do_not_overflow() {
    assert_eq!(adc_sample_to_pct(&i16::MAX), 100);
    assert_eq!(adc_sample_to_pct(&i16::MIN), 0);
    assert_eq!(adc_sample_to_pct(&6554), 100);
    assert_eq!(adc_sample_to_pct(&-6554), 0);
}

#[test]
fn percentage_never_falls_as_the_sample_rises() {
    let mut last = 0u8;
    for sample in i16::MIN..=i16::MAX {
        let pct = adc_sample_to_pct(&sample);
        assert!(pct <= 100);
        assert!(pct >= last);
        last = pct;
    }
    assert_eq!(last, 100);
}
