//! Time-windowed chart buffers.
//!
//! A chart keeps the datapoints of the last `TIME_RANGE` milliseconds:
//! pushing a sample first evicts every stored datapoint strictly older
//! than the retention window, then appends the sample. The
//! aggregate chart accumulates a running sum instead of raw samples and
//! widens its y-axis range to bracket every value it has stored.

use vstd::prelude::*;

use crate::fixed::VALUE_SCALE;

verus! {

/// Retention horizon in milliseconds.
pub const TIME_RANGE: u64 = 5000;

/// A timestamped 3-axis sensor sample. The axis values are fixed-point
/// integers in micro-units.
#[derive(Clone, Copy, PartialEq, Eq, Structural, Debug)]
pub struct Datapoint {
    pub timestamp: u64,
    pub x: i64,
    pub y: i64,
    pub z: i64,
}

/// The eviction cutoff for a sample arriving at `timestamp`: datapoints
/// before this instant leave the buffer; one exactly at it stays.
pub open spec fn spec_cutoff(timestamp: u64) -> u64 {
    if timestamp >= TIME_RANGE {
        (timestamp - TIME_RANGE) as u64
    } else {
        0
    }
}

/// Holds of the datapoints that survive the arrival of a sample at
/// `timestamp`.
pub open spec fn keep_pred(timestamp: u64) -> spec_fn(Datapoint) -> bool {
    |d: Datapoint| d.timestamp >= spec_cutoff(timestamp)
}

/// What remains of the buffer `s` once a sample at `timestamp` arrives,
/// before the sample itself is appended.
pub open spec fn retained(s: Seq<Datapoint>, timestamp: u64) -> Seq<Datapoint> {
    s.filter(keep_pred(timestamp))
}

/// The eviction cutoff, computed without underflow.
pub fn cutoff(timestamp: u64) -> (r: u64)
    ensures
        r == spec_cutoff(timestamp),
{
    if timestamp >= TIME_RANGE {
        timestamp - TIME_RANGE
    } else {
        0
    }
}

/// Drops every datapoint strictly older than the retention window of
/// `timestamp`, keeping the order of the rest.
fn retain_in_window(v: &mut Vec<Datapoint>, timestamp: u64)
    ensures
        final(v)@ == retained(old(v)@, timestamp),
{
    let c = cutoff(timestamp);
    let mut kept: Vec<Datapoint> = Vec::new();
    let mut i: usize = 0;
    while i < v.len()
        invariant
            i <= v@.len(),
            c == spec_cutoff(timestamp),
            v@ == old(v)@,
            kept@ == v@.take(i as int).filter(keep_pred(timestamp)),
        decreases v@.len() - i,
    {
        let d = v[i];
        proof {
            assert(v@.take(i as int + 1) =~= v@.take(i as int).push(v@[i as int]));
            v@.take(i as int).lemma_filter_push(v@[i as int], keep_pred(timestamp));
        }
        if d.timestamp >= c {
            kept.push(d);
        }
        i = i + 1;
    }
    proof {
        assert(v@.take(v@.len() as int) =~= v@);
    }
    *v = kept;
}

/// Every datapoint of `s` lies within one retention window of `timestamp`.
pub open spec fn all_in_window(s: Seq<Datapoint>, timestamp: u64) -> bool {
    forall|i: int| 0 <= i < s.len() ==> #[trigger] s[i].timestamp + TIME_RANGE >= timestamp
}

/// The timestamps of `s` never decrease.
pub open spec fn ts_sorted(s: Seq<Datapoint>) -> bool {
    forall|i: int, j: int|
        0 <= i <= j < s.len() ==> #[trigger] s[i].timestamp <= #[trigger] s[j].timestamp
}

/// Law: whatever a push leaves in a buffer lies within one retention
/// window of the pushed sample's timestamp.
pub proof fn lemma_push_in_window(s: Seq<Datapoint>, timestamp: u64, x: i64, y: i64, z: i64)
    ensures
        all_in_window(retained(s, timestamp).push(Datapoint { timestamp, x, y, z }), timestamp),
{
    let out = retained(s, timestamp).push(Datapoint { timestamp, x, y, z });
    assert forall|i: int| 0 <= i < out.len() implies #[trigger] out[i].timestamp + TIME_RANGE
        >= timestamp by {
        if i < out.len() - 1 {
            s.lemma_filter_pred(keep_pred(timestamp), i);
            assert(keep_pred(timestamp)(retained(s, timestamp)[i]));
        }
    }
}

/// Filtering a buffer keeps its timestamps in order.
proof fn lemma_filter_sorted(s: Seq<Datapoint>, pred: spec_fn(Datapoint) -> bool)
    requires
        ts_sorted(s),
    ensures
        ts_sorted(s.filter(pred)),
    decreases s.len(),
{
    reveal(Seq::filter);
    if s.len() > 0 {
        let rest = s.drop_last();
        assert(ts_sorted(rest)) by {
            assert(forall|i: int| 0 <= i < rest.len() ==> rest[i] == #[trigger] s[i]);
        }
        lemma_filter_sorted(rest, pred);
        let f0 = rest.filter(pred);
        if pred(s.last()) {
            assert forall|i: int| 0 <= i < f0.len() implies #[trigger] f0[i].timestamp
                <= s.last().timestamp by {
                rest.lemma_filter_contains_rev(pred, f0[i]);
                let k = choose|k: int| 0 <= k < rest.len() && rest[k] == f0[i];
                assert(s[k] == rest[k]);
                assert(s[k].timestamp <= s[s.len() - 1].timestamp);
            }
            assert(s.filter(pred) == f0.push(s.last()));
        }
    }
}

/// Law: pushing a sample no older than anything stored keeps the buffer
/// ordered by timestamp.
pub proof fn lemma_push_keeps_order(s: Seq<Datapoint>, timestamp: u64, x: i64, y: i64, z: i64)
    requires
        ts_sorted(s),
        s.len() > 0 ==> s.last().timestamp <= timestamp,
    ensures
        ts_sorted(retained(s, timestamp).push(Datapoint { timestamp, x, y, z })),
{
    lemma_filter_sorted(s, keep_pred(timestamp));
    let kept = retained(s, timestamp);
    let out = kept.push(Datapoint { timestamp, x, y, z });
    assert forall|i: int| 0 <= i < kept.len() implies #[trigger] kept[i].timestamp <= timestamp by {
        s.lemma_filter_contains_rev(keep_pred(timestamp), kept[i]);
        let k = choose|k: int| 0 <= k < s.len() && s[k] == kept[i];
        assert(s[k].timestamp <= s[s.len() - 1].timestamp);
    }
    assert forall|i: int, j: int| 0 <= i <= j < out.len() implies #[trigger] out[i].timestamp
        <= #[trigger] out[j].timestamp by {
        if j < out.len() - 1 {
            assert(kept[i].timestamp <= kept[j].timestamp);
        }
    }
}

/// Law: eviction leaves an empty buffer empty.
pub proof fn lemma_retained_empty(timestamp: u64)
    ensures
        retained(Seq::<Datapoint>::empty(), timestamp) == Seq::<Datapoint>::empty(),
{
    reveal(Seq::filter);
}

/// Law: eviction looks at one datapoint at a time — the last datapoint
/// stays exactly when it lies inside the window.
pub proof fn lemma_retained_push(s: Seq<Datapoint>, d: Datapoint, timestamp: u64)
    ensures
        retained(s.push(d), timestamp) == if d.timestamp >= spec_cutoff(timestamp) {
            retained(s, timestamp).push(d)
        } else {
            retained(s, timestamp)
        },
{
    s.lemma_filter_push(d, keep_pred(timestamp));
}

/// Law: a push grows the buffer by at most one datapoint.
pub proof fn lemma_push_len_bound(s: Seq<Datapoint>, timestamp: u64, x: i64, y: i64, z: i64)
    ensures
        retained(s, timestamp).push(Datapoint { timestamp, x, y, z }).len() <= s.len() + 1,
{
    s.lemma_filter_len(keep_pred(timestamp));
}

/// Law: evicting twice at the same timestamp evicts no more than once.
pub proof fn lemma_retained_idempotent(s: Seq<Datapoint>, timestamp: u64)
    ensures
        retained(retained(s, timestamp), timestamp) == retained(s, timestamp),
    decreases s.len(),
{
    reveal(Seq::filter);
    if s.len() > 0 {
        lemma_retained_idempotent(s.drop_last(), timestamp);
        s.drop_last().filter(keep_pred(timestamp)).lemma_filter_push(
            s.last(),
            keep_pred(timestamp),
        );
    } else {
        assert(retained(s, timestamp) =~= s);
    }
}

/// The end of the x-axis, in milliseconds: the newest timestamp, but never
/// earlier than one full retention window.
pub open spec fn spec_x_axis_end_ms(s: Seq<Datapoint>) -> u64 {
    if s.len() == 0 {
        TIME_RANGE
    } else if s.last().timestamp >= TIME_RANGE {
        s.last().timestamp
    } else {
        TIME_RANGE
    }
}

/// A chart of the raw samples inside the retention window.
pub struct CurrentValue2DChart {
    pub datapoints: Vec<Datapoint>,
    pub title: String,
}

impl CurrentValue2DChart {
    /// An empty chart with the given caption.
    pub fn with_title(title: &str) -> (r: Self)
        ensures
            r.datapoints@ == Seq::<Datapoint>::empty(),
            r.title@ == title@,
    {
        CurrentValue2DChart { datapoints: Vec::new(), title: title.to_owned() }
    }

    /// Evicts the datapoints that fall out of the window of `timestamp`,
    /// then appends the new sample.
    pub fn push_datapoint(&mut self, timestamp: u64, x: i64, y: i64, z: i64)
        ensures
            final(self).datapoints@ == retained(old(self).datapoints@, timestamp).push(
                Datapoint { timestamp, x, y, z },
            ),
            final(self).title == old(self).title,
    {
        retain_in_window(&mut self.datapoints, timestamp);
        self.datapoints.push(Datapoint { timestamp, x, y, z });
    }

    /// The x-axis range, in milliseconds: one retention window, ending at
    /// the newest timestamp (or at the window's length while the chart has
    /// seen less than one full window).
    pub fn x_axis_range_ms(&self) -> (r: (u64, u64))
        ensures
            r.1 == spec_x_axis_end_ms(self.datapoints@),
            r.0 == r.1 - TIME_RANGE,
    {
        let end = match self.datapoints.last() {
            Some(d) => {
                if d.timestamp >= TIME_RANGE {
                    d.timestamp
                } else {
                    TIME_RANGE
                }
            },
            None => TIME_RANGE,
        };
        (end - TIME_RANGE, end)
    }
}

/// The largest of three values.
pub open spec fn spec_max3(a: int, b: int, c: int) -> int {
    if a >= b && a >= c {
        a
    } else if b >= c {
        b
    } else {
        c
    }
}

/// The smallest of three values.
pub open spec fn spec_min3(a: int, b: int, c: int) -> int {
    if a <= b && a <= c {
        a
    } else if b <= c {
        b
    } else {
        c
    }
}

/// The datapoint that an aggregate chart stores for a sample: the sample
/// itself while the window is empty, otherwise the last stored datapoint
/// plus the sample, axis by axis.
pub open spec fn aggregated(kept: Seq<Datapoint>, timestamp: u64, x: int, y: int, z: int) -> (r:
    (int, int, int)) {
    if kept.len() > 0 {
        (kept.last().x + x, kept.last().y + y, kept.last().z + z)
    } else {
        (x, y, z)
    }
}

/// A chart that accumulates a running sum of the samples and keeps a
/// y-axis range wide enough for every value it has stored.
pub struct AggregateValue2DChart {
    pub datapoints: Vec<Datapoint>,
    pub title: String,
    pub y_range: (i64, i64),
}

impl AggregateValue2DChart {
    /// An empty chart with the given caption and a y-axis range of one
    /// unit on either side of zero.
    pub fn with_title(title: &str) -> (r: Self)
        ensures
            r.datapoints@ == Seq::<Datapoint>::empty(),
            r.title@ == title@,
            r.y_range.0 as int == -(VALUE_SCALE as int),
            r.y_range.1 == VALUE_SCALE,
    {
        AggregateValue2DChart {
            datapoints: Vec::new(),
            title: title.to_owned(),
            y_range: (-VALUE_SCALE, VALUE_SCALE),
        }
    }

    /// Evicts the datapoints that fall out of the window of `timestamp`,
    /// appends the running sum advanced by the new sample, and widens the
    /// y-axis range to bracket the stored value.
    ///
    /// The requires only rules out `i64` overflow of the running sum.
    pub fn push_datapoint(&mut self, timestamp: u64, x: i64, y: i64, z: i64)
        requires
            ({
                let kept = retained(old(self).datapoints@, timestamp);
                kept.len() > 0 ==> {
                    &&& i64::MIN <= kept.last().x + x <= i64::MAX
                    &&& i64::MIN <= kept.last().y + y <= i64::MAX
                    &&& i64::MIN <= kept.last().z + z <= i64::MAX
                }
            }),
        ensures
            ({
                let kept = retained(old(self).datapoints@, timestamp);
                let v = aggregated(kept, timestamp, x as int, y as int, z as int);
                let d = Datapoint { timestamp, x: v.0 as i64, y: v.1 as i64, z: v.2 as i64 };
                &&& final(self).datapoints@ == kept.push(d)
                &&& final(self).y_range.1 as int == (if spec_max3(v.0, v.1, v.2) > old(
                    self,
                ).y_range.1 as int {
                    spec_max3(v.0, v.1, v.2)
                } else {
                    old(self).y_range.1 as int
                })
                &&& final(self).y_range.0 as int == (if spec_min3(v.0, v.1, v.2) < old(
                    self,
                ).y_range.0 as int {
                    spec_min3(v.0, v.1, v.2)
                } else {
                    old(self).y_range.0 as int
                })
                &&& final(self).title == old(self).title
            }),
    {
        retain_in_window(&mut self.datapoints, timestamp);
        let (x, y, z) = if self.datapoints.len() > 0 {
            let prev = self.datapoints[self.datapoints.len() - 1];
            (prev.x + x, prev.y + y, prev.z + z)
        } else {
            (x, y, z)
        };
        self.datapoints.push(Datapoint { timestamp, x, y, z });
        let new_max = max3(x, y, z);
        let new_min = min3(x, y, z);
        if new_max > self.y_range.1 {
            self.y_range.1 = new_max;
        }
        if new_min < self.y_range.0 {
            self.y_range.0 = new_min;
        }
    }

    /// The x-axis range, in milliseconds, as for the raw-value chart.
    pub fn x_axis_range_ms(&self) -> (r: (u64, u64))
        ensures
            r.1 == spec_x_axis_end_ms(self.datapoints@),
            r.0 == r.1 - TIME_RANGE,
    {
        let end = match self.datapoints.last() {
            Some(d) => {
                if d.timestamp >= TIME_RANGE {
                    d.timestamp
                } else {
                    TIME_RANGE
                }
            },
            None => TIME_RANGE,
        };
        (end - TIME_RANGE, end)
    }
}

impl Default for AggregateValue2DChart {
    /// An empty chart with the stock caption and the one-unit y-axis
    /// range.
    fn default() -> (r: Self)
        ensures
            r.datapoints@ == Seq::<Datapoint>::empty(),
            r.title@ == "default current value chart"@,
            r.y_range.0 as int == -(VALUE_SCALE as int),
            r.y_range.1 == VALUE_SCALE,
    {
        AggregateValue2DChart {
            datapoints: Vec::new(),
            title: "default current value chart".to_owned(),
            y_range: (-VALUE_SCALE, VALUE_SCALE),
        }
    }
}

/// Law: the widened y-axis range of an aggregate push never shrinks, and
/// it brackets every component of the value the push stored.
pub proof fn lemma_y_range_brackets(lo: int, hi: int, a: int, b: int, c: int)
    ensures
        ({
            let nlo = if spec_min3(a, b, c) < lo {
                spec_min3(a, b, c)
            } else {
                lo
            };
            let nhi = if spec_max3(a, b, c) > hi {
                spec_max3(a, b, c)
            } else {
                hi
            };
            &&& nlo <= lo && hi <= nhi
            &&& nlo <= a <= nhi && nlo <= b <= nhi && nlo <= c <= nhi
        }),
{
}

/// The largest of three values.
pub fn max3(a: i64, b: i64, c: i64) -> (r: i64)
    ensures
        r == spec_max3(a as int, b as int, c as int),
{
    if a >= b && a >= c {
        a
    } else if b >= c {
        b
    } else {
        c
    }
}

/// The smallest of three values.
pub fn min3(a: i64, b: i64, c: i64) -> (r: i64)
    ensures
        r == spec_min3(a as int, b as int, c as int),
{
    if a <= b && a <= c {
        a
    } else if b <= c {
        b
    } else {
        c
    }
}

impl Default for CurrentValue2DChart {
    /// An empty chart with the stock caption.
    fn default() -> (r: Self)
        ensures
            r.datapoints@ == Seq::<Datapoint>::empty(),
            r.title@ == "default current value chart"@,
    {
        CurrentValue2DChart {
            datapoints: Vec::new(),
            title: "default current value chart".to_owned(),
        }
    }
}

} // verus!
