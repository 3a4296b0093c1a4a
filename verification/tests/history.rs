use wattmeter::history::{
    covered_secs, discharging, push, segments, sort_history, window, Sample, GAP_SECS,
};
use wattmeter::power::State;

fn sample(ts: u64, watts: f64) -> Sample<f64> {
    Sample {
        ts,
        watts,
        state: State::Discharging,
    }
}

#[test]
fn push_ignores_readings_the_series_already_covers() {
    let mut series = vec![sample(1_000, 5.0), sample(1_030, 5.2)];
    push(&mut series, sample(1_030, 9.9), 3_600);
    push(&mut series, sample(1_010, 9.9), 3_600);
    assert_eq!(
        series.len(),
        2,
        "an overlapping backfill must not duplicate"
    );
    push(&mut series, sample(1_060, 5.1), 3_600);
    assert_eq!(series.len(), 3);
}

#[test]
fn push_evicts_readings_past_the_retention_horizon() {
    let mut series = vec![sample(1_000, 5.0), sample(4_000, 5.2)];
    push(&mut series, sample(5_000, 5.1), 2_000);
    assert_eq!(
        series.iter().map(|s| s.ts).collect::<Vec<_>>(),
        vec![4_000, 5_000],
        "only the last 2000 s survive"
    );
}

#[test]
fn push_onto_an_empty_series_keeps_the_reading() {
    let mut series: Vec<Sample<f64>> = Vec::new();
    push(&mut series, sample(10, 1.5), 0);
    assert_eq!(series, vec![sample(10, 1.5)]);
    // A reading exactly at the horizon survives: only older ones go.
    push(&mut series, sample(20, 1.0), 10);
    assert_eq!(series.len(), 2);
    push(&mut series, sample(21, 1.0), 10);
    assert_eq!(
        series.iter().map(|s| s.ts).collect::<Vec<_>>(),
        vec![20, 21]
    );
}

#[test]
fn window_takes_the_tail_at_or_after_the_cutoff() {
    let series = [sample(100, 5.0), sample(200, 5.1), sample(300, 5.2)];
    assert_eq!(window(&series, 200).len(), 2);
    assert_eq!(window(&series, 301).len(), 0);
    assert_eq!(window(&series, 0).len(), 3);
}

#[test]
fn breaks_the_series_across_a_suspend() {
    // 30 s at rest is normal cadence; the three-hour hole is a suspend.
    let samples = [
        sample(1_000, 5.0),
        sample(1_030, 5.2),
        sample(1_060, 5.1),
        sample(12_000, 6.0),
        sample(12_030, 6.1),
    ];
    let segs = segments(&samples, GAP_SECS);
    assert_eq!(segs.len(), 2, "the suspend must break the line");
    assert_eq!(segs[0].len(), 3);
    assert_eq!(segs[1].len(), 2);
}

#[test]
fn a_gap_of_exactly_the_threshold_is_still_continuous() {
    let samples = [sample(0, 1.0), sample(120, 1.0), sample(241, 1.0)];
    let segs = segments(&samples, GAP_SECS);
    assert_eq!(segs.len(), 2);
    assert_eq!(segs[0].len(), 2);
    assert_eq!(segs[1].len(), 1);
    assert!(segments::<f64>(&[], GAP_SECS).is_empty());
}

#[test]
fn sorts_backfill_ascending_and_maps_states() {
    // GetHistory returns newest-first.
    let raw = [
        (1_785_873_687u32, 7.63, 2u32),
        (1_785_873_657, 4.1, 1),
        (1_785_873_627, 19.98, 4),
    ];
    let out = sort_history(&raw);
    assert_eq!(out.len(), 3);
    assert_eq!(out[0].ts, 1_785_873_627);
    assert_eq!(out[0].state, State::Full);
    assert_eq!(out[1].state, State::Charging);
    assert_eq!(out[2].ts, 1_785_873_687);
    assert_eq!(out[2].watts, 7.63);
}

#[test]
fn sorting_keeps_readings_of_one_second_in_their_given_order() {
    let raw = [(5u32, 1.0, 2u32), (3, 2.0, 2), (5, 3.0, 2)];
    let out = sort_history(&raw);
    let watts: Vec<f64> = out.iter().map(|s| s.watts).collect();
    assert_eq!(watts, vec![2.0, 1.0, 3.0]);
}

#[test]
fn keeps_only_readings_taken_on_battery() {
    let mut charging = sample(20, 3.0);
    charging.state = State::Charging;
    let samples = [sample(10, 1.0), charging, sample(30, 2.0)];
    let out = discharging(&samples);
    assert_eq!(out, vec![sample(10, 1.0), sample(30, 2.0)]);
}

#[test]
fn an_hour_of_minute_readings_covers_an_hour() {
    let flat: Vec<Sample<f64>> = (0..=60).map(|m| sample(m * 60, 10.0)).collect();
    assert_eq!(covered_secs(&flat, GAP_SECS), Some(3600));
}

#[test]
fn covers_no_time_across_a_gap() {
    let mut samples: Vec<Sample<f64>> = (0..=30).map(|m| sample(m * 60, 10.0)).collect();
    samples.extend((0..=30).map(|m| sample(11_000 + m * 60, 10.0)));
    assert_eq!(
        covered_secs(&samples, GAP_SECS),
        Some(3600),
        "only the sampled hour counts as covered"
    );
}

#[test]
fn a_lone_reading_covers_no_time() {
    assert_eq!(covered_secs(&[sample(0, 10.0)], GAP_SECS), Some(0));
    assert_eq!(covered_secs::<f64>(&[], GAP_SECS), Some(0));
}
