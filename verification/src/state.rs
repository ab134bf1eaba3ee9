//! The application state and its update rule.
//!
//! The state holds a counter, the log of received records, and one
//! raw-value chart per sensor. Each message either moves the counter or
//! feeds a received record to both charts and the log.

use vstd::prelude::*;

use crate::datasource::Data;
use crate::generic::{retained, CurrentValue2DChart, Datapoint};

verus! {

/// An event handed to the state: a record from the stream, one of the two
/// counter buttons, or the periodic tick.
#[derive(Clone, Copy, Debug)]
pub enum Message {
    ReceivedNewData(Data),
    Increment,
    Decrement,
    Tick,
}

/// The application state.
pub struct State {
    pub value: i32,
    pub input_values: Vec<Data>,
    pub acc_current_chart: CurrentValue2DChart,
    pub mag_current_chart: CurrentValue2DChart,
}

/// The datapoint a chart stores for the accelerometer half of a record.
pub open spec fn acc_point(d: Data) -> Datapoint {
    Datapoint { timestamp: d.timestamp, x: d.acc.x, y: d.acc.y, z: d.acc.z }
}

/// The datapoint a chart stores for the magnetometer half of a record.
pub open spec fn mag_point(d: Data) -> Datapoint {
    Datapoint { timestamp: d.timestamp, x: d.mag.x, y: d.mag.y, z: d.mag.z }
}

impl State {
    /// The fresh state: counter at one, no records, one empty chart per
    /// sensor.
    pub fn new() -> (r: State)
        ensures
            r.value == 1,
            r.input_values@ == Seq::<Data>::empty(),
            r.acc_current_chart.datapoints@ == Seq::<Datapoint>::empty(),
            r.acc_current_chart.title@ == "Accelerometer current value"@,
            r.mag_current_chart.datapoints@ == Seq::<Datapoint>::empty(),
            r.mag_current_chart.title@ == "Magnetometer current value"@,
    {
        State {
            value: 1,
            input_values: Vec::new(),
            acc_current_chart: CurrentValue2DChart::with_title("Accelerometer current value"),
            mag_current_chart: CurrentValue2DChart::with_title("Magnetometer current value"),
        }
    }

    /// The window caption.
    pub fn title(&self) -> (r: String)
        ensures
            r@ == "aeroplot"@,
    {
        "aeroplot".to_owned()
    }

    /// Applies one message: the two buttons and the tick move the counter
    /// by minus one, ten and one; a received record goes to both charts
    /// and to the log. The requires only rules out counter overflow.
    pub fn update(&mut self, msg: Message)
        requires
            msg is Decrement ==> old(self).value > i32::MIN,
            msg is Increment ==> old(self).value <= i32::MAX - 10,
            msg is Tick ==> old(self).value < i32::MAX,
        ensures
            msg is Decrement ==> *final(self) == (State {
                value: (old(self).value - 1) as i32,
                ..*old(self)
            }),
            msg is Increment ==> *final(self) == (State {
                value: (old(self).value + 10) as i32,
                ..*old(self)
            }),
            msg is Tick ==> *final(self) == (State {
                value: (old(self).value + 1) as i32,
                ..*old(self)
            }),
            msg matches Message::ReceivedNewData(d) ==> {
                &&& final(self).value == old(self).value
                &&& final(self).input_values@ == old(self).input_values@.push(d)
                &&& final(self).acc_current_chart.datapoints@ == retained(
                    old(self).acc_current_chart.datapoints@,
                    d.timestamp,
                ).push(acc_point(d))
                &&& final(self).acc_current_chart.title == old(self).acc_current_chart.title
                &&& final(self).mag_current_chart.datapoints@ == retained(
                    old(self).mag_current_chart.datapoints@,
                    d.timestamp,
                ).push(mag_point(d))
                &&& final(self).mag_current_chart.title == old(self).mag_current_chart.title
            },
    {
        match msg {
            Message::Decrement => {
                self.value = self.value - 1;
            },
            Message::Increment => {
                self.value = self.value + 10;
            },
            Message::Tick => {
                self.value = self.value + 1;
            },
            Message::ReceivedNewData(d) => {
                self.acc_current_chart.push_datapoint(d.timestamp, d.acc.x, d.acc.y, d.acc.z);
                self.mag_current_chart.push_datapoint(d.timestamp, d.mag.x, d.mag.y, d.mag.z);
                self.input_values.push(d);
            },
        }
    }
}

} // verus!
