use std::path::PathBuf;

use wattmeter::battery::{Battery, SelectError, SupplyEntry};
use wattmeter::power::State;

fn entry(name: &str, kind: Option<&str>, power: bool, current: bool, voltage: bool) -> SupplyEntry {
    SupplyEntry {
        name: name.to_owned(),
        root: PathBuf::from(format!("/sys/class/power_supply/{name}")),
        kind: kind.map(str::to_owned),
        has_power_now: power,
        has_current_now: current,
        has_voltage_now: voltage,
    }
}

fn names(found: &[Battery]) -> Vec<&str> {
    found.iter().map(|b| b.name.as_str()).collect()
}

#[test]
fn discovers_batteries_with_a_usable_draw_in_name_order() {
    let found = Battery::discover_all(vec![
        entry("BAT1", Some("Battery\n"), false, true, true),
        entry("AC", Some("Mains\n"), true, false, false),
        entry("BAT0", Some("Battery\n"), true, false, false),
        entry("BAT2", Some("Battery\n"), false, true, false),
        entry("hidpp_battery_0", None, true, false, false),
    ]);
    assert_eq!(names(&found), vec!["BAT0", "BAT1"]);
    assert_eq!(found[1].root, PathBuf::from("/sys/class/power_supply/BAT1"));
}

#[test]
fn selects_by_name_ignoring_case() {
    let found = Battery::discover_all(vec![
        entry("BAT0", Some("Battery"), true, false, false),
        entry("BAT1", Some("Battery"), true, false, false),
    ]);
    let picked = Battery::select(found, Some("bat1")).ok().expect("BAT1 is there");
    assert_eq!(picked.name, "BAT1");
}

#[test]
fn selects_the_first_when_no_name_is_given() {
    let found = Battery::discover_all(vec![
        entry("BAT1", Some("Battery"), true, false, false),
        entry("BAT0", Some("Battery"), true, false, false),
    ]);
    let picked = Battery::select(found, None).ok().expect("a battery is there");
    assert_eq!(picked.name, "BAT0");
}

#[test]
fn lists_the_batteries_on_offer_when_the_name_is_wrong() {
    let found = Battery::discover_all(vec![
        entry("BAT0", Some("Battery"), true, false, false),
        entry("BAT1", Some("Battery"), true, false, false),
    ]);
    match Battery::select(found, Some("BAT9")) {
        Err(e @ SelectError::NotFound { .. }) => assert_eq!(
            e.message(),
            "no battery named BAT9; this machine has: BAT0, BAT1"
        ),
        _ => panic!("BAT9 is not there"),
    }
}

#[test]
fn says_so_when_there_is_no_battery() {
    for wanted in [None, Some("BAT0")] {
        match Battery::select(Vec::new(), wanted) {
            Err(e @ SelectError::NoBattery) => assert_eq!(
                e.message(),
                "no battery with a readable power draw under /sys/class/power_supply"
            ),
            _ => panic!("there is no battery"),
        }
    }
}

#[test]
fn reads_counter_files() {
    assert_eq!(Battery::num(Some("8440000\n")), Some(8_440_000));
    assert_eq!(Battery::num(Some("-507000")), Some(-507_000));
    assert_eq!(Battery::num(Some("n/a")), None);
    assert_eq!(Battery::num(None), None);
    assert_eq!(Battery::capacity(Some(" 95\n")), Some(95));
    assert_eq!(Battery::state(Some("Discharging\n")), State::Discharging);
    assert_eq!(Battery::state(None), State::Unknown);
}

#[test]
fn the_clock_reads_after_the_epoch() {
    assert!(wattmeter::battery::now_unix() > 1_600_000_000);
}
