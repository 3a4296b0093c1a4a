use wattmeter::stats::{median_positions, p90_index, sort_readings, total_order_key};

#[test]
fn takes_the_ninetieth_percentile_by_nearest_rank() {
    // ceil(0.9 × 10) = 9th smallest.
    assert_eq!(p90_index(10), 8);
    assert_eq!(p90_index(1), 0);
    assert_eq!(p90_index(2), 1);
    assert_eq!(p90_index(11), 9);
    assert_eq!(p90_index(20), 17);
}

#[test]
fn finds_the_middle_of_a_window() {
    assert_eq!(median_positions(10), (4, 5));
    assert_eq!(median_positions(9), (4, 4));
    assert_eq!(median_positions(1), (0, 0));
}

fn keyed(w: f64) -> (i64, f64) {
    (total_order_key(w.to_bits()), w)
}

#[test]
fn orders_readings_as_total_cmp_does() {
    let watts = [7.0, 2.0, 9.0, -0.0, 0.0, -3.5, 10.0, f64::INFINITY, 1.0e-300];
    let keyed: Vec<(i64, f64)> = watts.iter().map(|w| keyed(*w)).collect();
    let sorted: Vec<f64> = sort_readings(&keyed).into_iter().map(|(_, w)| w).collect();
    let mut expected = watts.to_vec();
    expected.sort_by(|a, b| a.total_cmp(b));
    assert_eq!(
        sorted.iter().map(|w| w.to_bits()).collect::<Vec<_>>(),
        expected.iter().map(|w| w.to_bits()).collect::<Vec<_>>()
    );
}

#[test]
fn summarises_a_window_by_position() {
    // Ten readings, deliberately unsorted: sorted 1..=10, median from the 5th and 6th,
    // p90 by nearest rank the 9th smallest.
    let watts = [7.0, 2.0, 9.0, 4.0, 1.0, 10.0, 3.0, 8.0, 5.0, 6.0];
    let keyed: Vec<(i64, f64)> = watts.iter().map(|w| keyed(*w)).collect();
    let sorted: Vec<f64> = sort_readings(&keyed).into_iter().map(|(_, w)| w).collect();
    let (lo, hi) = median_positions(sorted.len());
    assert_eq!((sorted[lo], sorted[hi]), (5.0, 6.0));
    assert_eq!(sorted[p90_index(sorted.len())], 9.0);
    assert_eq!((sorted[0], sorted[9]), (1.0, 10.0));
}
