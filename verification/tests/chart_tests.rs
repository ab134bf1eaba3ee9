use aeroplot::generic::{
    cutoff, max3, min3, AggregateValue2DChart, CurrentValue2DChart, Datapoint, TIME_RANGE,
};

#[test]
fn with_title_starts_empty() {
    let c = CurrentValue2DChart::with_title("Accelerometer current value");
    assert_eq!(c.datapoints.len(), 0);
    assert_eq!(c.title, "Accelerometer current value");
}

#[test]
fn default_chart_has_stock_title() {
    let c = CurrentValue2DChart::default();
    assert_eq!(c.datapoints.len(), 0);
    assert_eq!(c.title, "default current value chart");
}

#[test]
fn push_appends_within_window() {
    let mut c = CurrentValue2DChart::with_title("t");
    c.push_datapoint(0, 1, 2, 3);
    c.push_datapoint(1000, 4, 5, 6);
    c.push_datapoint(4999, 7, 8, 9);
    assert_eq!(c.datapoints.len(), 3);
    assert_eq!(
        c.datapoints[0],
        Datapoint { timestamp: 0, x: 1, y: 2, z: 3 }
    );
    assert_eq!(
        c.datapoints[2],
        Datapoint { timestamp: 4999, x: 7, y: 8, z: 9 }
    );
}

#[test]
fn push_evicts_datapoints_older_than_the_window() {
    let mut c = CurrentValue2DChart::with_title("t");
    c.push_datapoint(999, 1, 1, 1);
    c.push_datapoint(1000, 2, 2, 2);
    c.push_datapoint(6000, 3, 3, 3);
    // the cutoff is 1000: the 999 sample is older than the window and
    // leaves, the 1000 sample stays
    assert_eq!(c.datapoints.len(), 2);
    assert_eq!(c.datapoints[0].timestamp, 1000);
    assert_eq!(c.datapoints[1].timestamp, 6000);
}

#[test]
fn push_keeps_datapoint_aged_exactly_one_window() {
    let mut c = CurrentValue2DChart::with_title("t");
    c.push_datapoint(1000, 1, 1, 1);
    c.push_datapoint(6000, 2, 2, 2);
    // the old sample's age is exactly the window: it is not older than
    // the window, so it stays
    assert_eq!(c.datapoints.len(), 2);
    assert_eq!(c.datapoints[0].timestamp, 1000);
}

#[test]
fn x_axis_range_covers_one_window() {
    let mut c = CurrentValue2DChart::with_title("t");
    assert_eq!(c.x_axis_range_ms(), (0, TIME_RANGE));
    c.push_datapoint(100, 1, 1, 1);
    assert_eq!(c.x_axis_range_ms(), (0, TIME_RANGE));
    c.push_datapoint(6000, 1, 1, 1);
    assert_eq!(c.x_axis_range_ms(), (1000, 6000));
}

#[test]
fn aggregate_accumulates_running_sum() {
    let mut c = AggregateValue2DChart::with_title("t");
    c.push_datapoint(1, 10, 20, 30);
    c.push_datapoint(100, 1, 2, 3);
    c.push_datapoint(200, 1, 2, 3);
    assert_eq!(c.datapoints.len(), 3);
    assert_eq!(
        c.datapoints[2],
        Datapoint { timestamp: 200, x: 12, y: 24, z: 36 }
    );
}

#[test]
fn aggregate_widens_y_range() {
    let mut c = AggregateValue2DChart::with_title("t");
    assert_eq!(c.y_range, (-1000000, 1000000));
    c.push_datapoint(1, 2000000, 0, 0);
    assert_eq!(c.y_range, (-1000000, 2000000));
    c.push_datapoint(100, 1000000, -4000000, 0);
    // the stored sum is (3000000, -4000000, 0)
    assert_eq!(c.y_range, (-4000000, 3000000));
    c.push_datapoint(200, -1, 1, 0);
    // nothing moved past the range: it stays
    assert_eq!(c.y_range, (-4000000, 3000000));
}

#[test]
fn aggregate_restarts_after_full_eviction() {
    let mut c = AggregateValue2DChart::with_title("t");
    c.push_datapoint(0, 100, 100, 100);
    c.push_datapoint(100000, 5, 6, 7);
    // everything older left the window: the sum restarts at the raw sample
    assert_eq!(c.datapoints.len(), 1);
    assert_eq!(
        c.datapoints[0],
        Datapoint { timestamp: 100000, x: 5, y: 6, z: 7 }
    );
}

#[test]
fn aggregate_default_has_stock_title() {
    let c = AggregateValue2DChart::default();
    assert_eq!(c.datapoints.len(), 0);
    assert_eq!(c.title, "default current value chart");
    assert_eq!(c.y_range, (-1000000, 1000000));
}

#[test]
fn max3_min3_pick_extremes() {
    assert_eq!(max3(1, 2, 3), 3);
    assert_eq!(max3(3, 2, 1), 3);
    assert_eq!(max3(2, 3, 2), 3);
    assert_eq!(min3(1, 2, 3), 1);
    assert_eq!(min3(3, 2, 1), 1);
    assert_eq!(min3(2, 1, 2), 1);
    assert_eq!(max3(-5, -5, -5), -5);
    assert_eq!(min3(-5, -5, -5), -5);
}

#[test]
fn cutoff_saturates_at_zero() {
    assert_eq!(cutoff(0), 0);
    assert_eq!(cutoff(4999), 0);
    assert_eq!(cutoff(5000), 0);
    assert_eq!(cutoff(5001), 1);
    assert_eq!(cutoff(10000), 5000);
}

#[test]
fn push_handles_the_largest_timestamp() {
    let mut c = CurrentValue2DChart::with_title("t");
    c.push_datapoint(u64::MAX - 1000, 1, 1, 1);
    c.push_datapoint(u64::MAX, 2, 2, 2);
    assert_eq!(c.datapoints.len(), 2);
    assert_eq!(c.x_axis_range_ms(), (u64::MAX - TIME_RANGE, u64::MAX));
}

#[test]
fn pushes_in_order_keep_the_buffer_ordered() {
    let mut c = CurrentValue2DChart::with_title("t");
    for ts in [1u64, 2, 2, 500, 4000, 4500, 7000, 7100] {
        c.push_datapoint(ts, 0, 0, 0);
    }
    let stamps: Vec<u64> = c.datapoints.iter().map(|d| d.timestamp).collect();
    let mut sorted = stamps.clone();
    sorted.sort();
    assert_eq!(stamps, sorted);
}

#[test]
fn aggregate_x_axis_range_covers_one_window() {
    let mut c = AggregateValue2DChart::with_title("t");
    assert_eq!(c.x_axis_range_ms(), (0, TIME_RANGE));
    c.push_datapoint(7500, 1, 1, 1);
    assert_eq!(c.x_axis_range_ms(), (2500, 7500));
}
