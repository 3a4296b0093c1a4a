use wattmeter::app::Range;
use wattmeter::chart::{band_runs, fmt_ago, fmt_hours_minutes, true_runs};
use wattmeter::ui::{empty_chart_message, sample_count, tick_row, x_axis_line};

#[test]
fn formats_x_axis_ticks() {
    assert_eq!(fmt_ago(0), "now");
    assert_eq!(fmt_ago(900), "-15m");
    assert_eq!(fmt_ago(3600), "-1h");
    assert_eq!(fmt_ago(5400), "-1h30m");
}

#[test]
fn pads_minutes_past_the_hour() {
    assert_eq!(fmt_ago(3660), "-1h01m");
    assert_eq!(fmt_ago(43200), "-12h");
    assert_eq!(fmt_ago(59), "-0m");
}

#[test]
fn formats_hours_and_minutes() {
    // 73.5 Wh at a 5.52 W median is 799 minutes once rounded.
    assert_eq!(fmt_hours_minutes(799), "13h 19m");
    assert_eq!(fmt_hours_minutes(5), "0h 05m");
    assert_eq!(fmt_hours_minutes(600), "10h 00m");
}

#[test]
fn finds_the_runs_that_rise_into_the_band() {
    // Readings 1, 5, 9, 1, 6 W against a band floor of 4 W.
    let above = [false, true, true, false, true];
    assert_eq!(true_runs(&above), vec![(1, 3), (4, 5)]);
    let runs = band_runs(&above);
    assert_eq!(runs.len(), 2, "the dip below 4 W splits the band");
    assert_eq!(
        runs[0],
        vec![(0, true), (1, false), (2, false), (3, true)],
        "the run is bracketed by its neighbours pinned to the floor"
    );
    assert_eq!(
        runs[1],
        vec![(3, true), (4, false)],
        "a run still open at the end of the segment has no closing bracket"
    );
}

#[test]
fn emits_nothing_for_a_band_the_segment_never_reaches() {
    assert!(band_runs(&[false, false]).is_empty());
    assert!(band_runs(&[]).is_empty());
    assert_eq!(band_runs(&[true]), vec![vec![(0, false)]]);
}

#[test]
fn spreads_the_axis_labels_across_the_width() {
    assert_eq!(
        x_axis_line(Range::H1, 20).as_deref(),
        Some("-1h     -30m     now")
    );
    assert_eq!(x_axis_line(Range::H1, 10), None);
    assert_eq!(x_axis_line(Range::H1, 11).as_deref(), Some("-1h-30m now"));
}

#[test]
fn rounds_tick_rows_to_the_nearest_row() {
    assert_eq!(tick_row(5, 0, 0, 3), None);
    assert_eq!(tick_row(5, 10, 0, 3), Some(5));
    // Nine rows of span over two steps: the midpoint rounds to 4.5 → 5.
    assert_eq!(tick_row(5, 10, 1, 3), Some(10));
    assert_eq!(tick_row(5, 10, 2, 3), Some(14));
    assert_eq!(tick_row(0, 4, 1, 1), Some(3));
}

#[test]
fn counts_the_samples_behind_the_statistics() {
    assert_eq!(sample_count(Some(85)), "(85 discharging samples)");
    assert_eq!(sample_count(None), "(no discharging samples in range)");
}

#[test]
fn explains_an_empty_chart() {
    assert_eq!(
        empty_chart_message(true, Some("no history from UPower: x")),
        "on AC — charting resumes on battery"
    );
    assert_eq!(
        empty_chart_message(false, Some("no history from UPower: x")),
        "no history from UPower: x"
    );
    assert_eq!(
        empty_chart_message(false, None),
        "no samples in this range"
    );
}
