use aeroplot::datasource::{AccData, Data, MagData};
use aeroplot::state::{Message, State};

fn record(timestamp: u64) -> Data {
    Data {
        timestamp,
        acc: AccData { x: 1, y: 2, z: 3 },
        mag: MagData { x: 4, y: 5, z: 6 },
    }
}

#[test]
fn new_state_is_fresh() {
    let s = State::new();
    assert_eq!(s.value, 1);
    assert_eq!(s.input_values.len(), 0);
    assert_eq!(s.acc_current_chart.title, "Accelerometer current value");
    assert_eq!(s.mag_current_chart.title, "Magnetometer current value");
    assert_eq!(s.acc_current_chart.datapoints.len(), 0);
    assert_eq!(s.mag_current_chart.datapoints.len(), 0);
}

#[test]
fn title_names_the_application() {
    let s = State::new();
    assert_eq!(s.title(), "aeroplot");
}

#[test]
fn buttons_and_tick_move_the_counter() {
    let mut s = State::new();
    s.update(Message::Increment);
    assert_eq!(s.value, 11);
    s.update(Message::Decrement);
    assert_eq!(s.value, 10);
    s.update(Message::Tick);
    assert_eq!(s.value, 11);
    assert_eq!(s.input_values.len(), 0);
}

#[test]
fn received_data_feeds_both_charts_and_the_log() {
    let mut s = State::new();
    s.update(Message::ReceivedNewData(record(100)));
    assert_eq!(s.value, 1);
    assert_eq!(s.input_values.len(), 1);
    assert_eq!(s.input_values[0], record(100));
    assert_eq!(s.acc_current_chart.datapoints.len(), 1);
    assert_eq!(s.acc_current_chart.datapoints[0].timestamp, 100);
    assert_eq!(s.acc_current_chart.datapoints[0].x, 1);
    assert_eq!(s.mag_current_chart.datapoints[0].x, 4);
}

#[test]
fn received_data_evicts_stale_chart_points_but_keeps_the_log() {
    let mut s = State::new();
    s.update(Message::ReceivedNewData(record(0)));
    s.update(Message::ReceivedNewData(record(10000)));
    assert_eq!(s.input_values.len(), 2);
    assert_eq!(s.acc_current_chart.datapoints.len(), 1);
    assert_eq!(s.acc_current_chart.datapoints[0].timestamp, 10000);
    assert_eq!(s.mag_current_chart.datapoints.len(), 1);
}
