use wattmeter::app::{
    draw_and_charge, key_action, live_label, on_ac, window_start, Key, KeyAction, Range,
    RETAIN_SECS,
};
use wattmeter::power::State;

#[test]
fn each_range_has_its_span_and_label() {
    let spans: Vec<u64> = Range::ALL.iter().map(|r| r.secs()).collect();
    assert_eq!(spans, vec![900, 3600, 10_800, 43_200]);
    let labels: Vec<&str> = Range::ALL.iter().map(|r| r.label()).collect();
    assert_eq!(labels, vec!["15m", "1h", "3h", "12h"]);
    assert_eq!(RETAIN_SECS, Range::H12.secs());
}

#[test]
fn the_window_starts_a_range_before_now() {
    assert_eq!(window_start(10_000, Range::H1), 6_400);
    assert_eq!(window_start(100, Range::M15), 0);
}

#[test]
fn on_ac_only_when_charging_or_full() {
    assert!(on_ac(Some(State::Charging)));
    assert!(on_ac(Some(State::Full)));
    assert!(!on_ac(Some(State::Discharging)));
    assert!(!on_ac(Some(State::Unknown)));
    assert!(!on_ac(None));
}

#[test]
fn reports_draw_and_charge_under_separate_names() {
    assert_eq!(draw_and_charge(State::Discharging, Some(5.0)), (Some(5.0), None));
    assert_eq!(draw_and_charge(State::Charging, Some(23.4)), (None, Some(23.4)));
    assert_eq!(draw_and_charge(State::Full, Some(1.0)), (None, None));
    assert_eq!(draw_and_charge::<f64>(State::Discharging, None), (None, None));
}

#[test]
fn labels_the_live_figure_for_what_it_is() {
    assert_eq!(live_label(State::Charging), "charging at");
    assert_eq!(live_label(State::Full), "topping up");
    assert_eq!(live_label(State::Discharging), "now");
}

#[test]
fn answers_the_keyboard() {
    assert_eq!(key_action(Key::Char('q'), false, true), KeyAction::Quit);
    assert_eq!(key_action(Key::Esc, false, true), KeyAction::Quit);
    assert_eq!(key_action(Key::Char('c'), true, true), KeyAction::Quit);
    assert_eq!(key_action(Key::Char('c'), false, true), KeyAction::Ignore);
    assert_eq!(key_action(Key::Char('1'), false, true), KeyAction::Show(Range::M15));
    assert_eq!(key_action(Key::Char('4'), true, true), KeyAction::Show(Range::H12));
    assert_eq!(key_action(Key::Char('q'), false, false), KeyAction::Ignore);
    assert_eq!(key_action(Key::Other, false, true), KeyAction::Ignore);
}
