use wattmeter::power::{draw_counters, Draw, Raw, State};

#[test]
fn reads_direction_from_both_spellings() {
    assert_eq!(State::from_sysfs("Discharging\n"), State::Discharging);
    assert_eq!(State::from_sysfs("Charging"), State::Charging);
    assert_eq!(State::from_sysfs("Full"), State::Full);
    assert_eq!(State::from_sysfs("Not charging"), State::Unknown);

    assert_eq!(State::from_upower(2), State::Discharging);
    assert_eq!(State::from_upower(1), State::Charging);
    assert_eq!(State::from_upower(4), State::Full);
    assert_eq!(State::from_upower(0), State::Unknown);
}

#[test]
fn sysfs_words_ignore_surrounding_whitespace_only() {
    assert_eq!(State::from_sysfs("  Full \t\n"), State::Full);
    assert_eq!(State::from_sysfs("\u{a0}Charging\u{3000}"), State::Charging);
    assert_eq!(State::from_sysfs("charging"), State::Unknown);
    assert_eq!(State::from_sysfs("Dis charging"), State::Unknown);
    assert_eq!(State::from_sysfs(""), State::Unknown);
    assert_eq!(State::from_upower(3), State::Unknown);
}

#[test]
fn names_each_state_in_one_lowercase_word() {
    assert_eq!(State::Charging.as_str(), "charging");
    assert_eq!(State::Discharging.as_str(), "discharging");
    assert_eq!(State::Full.as_str(), "full");
    assert_eq!(State::Unknown.as_str(), "unknown");
}

#[test]
fn prefers_power_now_where_the_vendor_exposes_it() {
    let raw = Raw {
        power_now: Some(8_440_000),
        current_now: Some(1),
        voltage_now: Some(1),
    };
    assert_eq!(draw_counters(&raw), Some(Draw::PowerNow(8_440_000)));
}

#[test]
fn falls_back_to_current_and_voltage() {
    let raw = Raw {
        power_now: None,
        current_now: Some(-507_000),
        voltage_now: Some(16_642_000),
    };
    assert_eq!(
        draw_counters(&raw),
        Some(Draw::CurrentVoltage(-507_000, 16_642_000))
    );
}

#[test]
fn has_no_reading_without_both_current_and_voltage() {
    let raw = Raw {
        power_now: None,
        current_now: Some(507_000),
        voltage_now: None,
    };
    assert_eq!(draw_counters(&raw), None);
    assert_eq!(draw_counters(&Raw::default()), None);
}
