//! The snapshot that a collection writes: data points under a temporality.

use vstd::prelude::*;
use std::time::SystemTime;
use opentelemetry::KeyValue;
use crate::attributes::AttributeSet;
use crate::model::{lemma_mass_remove, mass};
use crate::number::Number;

verus! {

/// `opentelemetry::KeyValue`, carried through as an opaque value.
#[verifier::external_type_specification]
#[verifier::external_body]
pub struct ExKeyValue(KeyValue);

/// How the values of successive snapshots relate to one another.
#[derive(Clone, Copy, Debug, PartialEq, Eq, Structural)]
pub enum Temporality {
    /// Each value covers the whole time since the stream started.
    Cumulative,
    /// Each value covers the time since the collection before.
    Delta,
}

/// A sample measurement that goes with a data point.
#[derive(Debug, PartialEq)]
pub struct Exemplar<T> {
    /// The attributes that were measured but are no part of the time series.
    pub filtered_attributes: Vec<KeyValue>,
    /// When the measurement was made.
    pub time: SystemTime,
    /// The measured value.
    pub value: T,
    /// The span the measurement was made in.
    pub span_id: [u8; 8],
    /// The trace the measurement was made in.
    pub trace_id: [u8; 16],
}

/// One value of one time series.
#[derive(Debug, PartialEq)]
pub struct DataPoint<T> {
    /// The time series that the value belongs to.
    pub attributes: AttributeSet,
    /// When the time that the value covers began.
    pub start_time: Option<SystemTime>,
    /// When the value was collected.
    pub time: Option<SystemTime>,
    /// The value.
    pub value: T,
    /// Sample measurements.
    pub exemplars: Vec<Exemplar<T>>,
}

/// The sums of one metric stream at one collection.
///
/// A snapshot can be handed back to the next collection, which writes over
/// its data points and adds to them, and never takes one away. So only as
/// many points as the collection counted are current.
#[derive(Debug, PartialEq)]
pub struct Sum<T> {
    /// The data points, the current ones first.
    pub data_points: Vec<DataPoint<T>>,
    /// How the values relate to those of the snapshot before.
    pub temporality: Temporality,
    /// Whether the sums can only grow.
    pub is_monotonic: bool,
}

impl<T: Number> DataPoint<T> {
    /// Whether this point gives `value` for `attrs` over the time from
    /// `start` to `end`, with no exemplars.
    pub open spec fn reports(
        self,
        attrs: AttributeSet,
        start: SystemTime,
        end: SystemTime,
        value: int,
    ) -> bool {
        &&& self.attributes == attrs
        &&& self.start_time == Some(start)
        &&& self.time == Some(end)
        &&& self.value.as_int() == value
        &&& self.exemplars@.len() == 0
    }
}

/// Whether the first `count` of `points` list `table`: one point for each
/// attribute set of the table, with the table's value for it, over the time
/// from `start` to `end`.
pub open spec fn enumerates<T: Number>(
    points: Seq<DataPoint<T>>,
    count: nat,
    table: Map<AttributeSet, int>,
    start: SystemTime,
    end: SystemTime,
) -> bool {
    &&& table.dom().finite()
    &&& count == table.len()
    &&& count <= points.len()
    &&& forall|i: int|
        0 <= i < count ==> table.contains_key((#[trigger] points[i]).attributes)
            && points[i].reports(
            points[i].attributes,
            start,
            end,
            table[points[i].attributes],
        )
    &&& forall|i: int, j: int|
        0 <= i < j < count ==> (#[trigger] points[i]).attributes != (#[trigger] points[j]).attributes
    &&& forall|attrs: AttributeSet| #[trigger]
        table.contains_key(attrs) ==> exists|i: int|
            0 <= i < count && (#[trigger] points[i]).attributes == attrs
}

/// Whether `after` is what a collection leaves of the points it was handed:
/// it writes the first `count` points, adds points where there were fewer,
/// and leaves every point past those as it was.
pub open spec fn overwrites<T: Number>(
    before: Seq<DataPoint<T>>,
    after: Seq<DataPoint<T>>,
    count: nat,
) -> bool {
    &&& after.len() == if before.len() < count {
        count
    } else {
        before.len()
    }
    &&& forall|i: int| count <= i < before.len() ==> #[trigger] after[i] == before[i]
}

/// The arithmetic sum of the values of the first `count` of `points`.
pub open spec fn reported_total<T: Number>(points: Seq<DataPoint<T>>, count: nat) -> int
    decreases count,
{
    if count == 0 {
        0
    } else {
        reported_total(points, (count - 1) as nat) + points[count - 1].value.as_int()
    }
}

/// Points that list a table report, taken together, the mass of the table.
pub proof fn lemma_enumerated_total<T: Number>(
    points: Seq<DataPoint<T>>,
    count: nat,
    table: Map<AttributeSet, int>,
    start: SystemTime,
    end: SystemTime,
)
    requires
        enumerates(points, count, table, start, end),
    ensures
        reported_total(points, count) == mass(table),
    decreases count,
{
    if count > 0 {
        let last = points[count - 1];
        let rest = table.remove(last.attributes);
        assert(table.contains_key(last.attributes));
        assert(enumerates(points, (count - 1) as nat, rest, start, end)) by {
            assert forall|attrs: AttributeSet| #[trigger] rest.contains_key(attrs) implies exists|
                i: int,
            |
                0 <= i < count - 1 && (#[trigger] points[i]).attributes == attrs by {
                assert(table.contains_key(attrs));
                let i = choose|i: int| 0 <= i < count && (#[trigger] points[i]).attributes == attrs;
                assert(i != count - 1);
            }
        }
        lemma_enumerated_total(points, (count - 1) as nat, rest, start, end);
        lemma_mass_remove(table, last.attributes);
    }
}

impl<T: Number> Sum<T> {
    /// Whether this snapshot is what a collection at `end` leaves that found
    /// `table` and counted `count` points: it carries the temporality and the
    /// monotonicity of the aggregator, and its first `count` points list the
    /// table over the time from `start` to `end`.
    pub open spec fn collects(
        self,
        count: nat,
        table: Map<AttributeSet, int>,
        temporality: Temporality,
        monotonic: bool,
        start: SystemTime,
        end: SystemTime,
    ) -> bool {
        &&& self.temporality == temporality
        &&& self.is_monotonic == monotonic
        &&& enumerates(self.data_points@, count, table, start, end)
    }
}

} // verus!
