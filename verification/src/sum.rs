//! Aggregators that sum measurements per attribute set.

use vstd::prelude::*;
use vstd::set_lib::lemma_map_size;
use vstd::std_specs::iter::IteratorSpec;
use std::collections::hash_map::Entry;
use std::collections::HashMap;
use std::time::SystemTime;
use crate::attributes::{is_under_cardinality_limit, AttributeSet};
use crate::clock::now;
use crate::data;
use crate::data::{enumerates, overwrites, DataPoint, Temporality};
use crate::error::warn;
use crate::model::{
    bounded, carried, deltas, held, lemma_empty_bounded, lemma_measured_bounded, measured,
    redirected, slot,
};
use crate::number::Number;

verus! {

broadcast use vstd::std_specs::hash::group_hash_axioms;

/// The sums of a hash map keyed by identity, as a map from attribute sets to
/// mathematical values.
spec fn sums_of<T: Number>(values: Map<u64, T>) -> Map<AttributeSet, int> {
    Map::new(
        |attrs: AttributeSet| values.contains_key(attrs.id),
        |attrs: AttributeSet| values[attrs.id].as_int(),
    )
}

/// `sums_of` keeps the number of entries.
proof fn lemma_sums_of_len<T: Number>(values: Map<u64, T>)
    requires
        values.dom().finite(),
    ensures
        sums_of(values).dom().finite(),
        sums_of(values).len() == values.len(),
{
    let f = |id: u64| AttributeSet { id };
    assert(sums_of(values).dom() =~= values.dom().map(f)) by {
        assert forall|attrs: AttributeSet| sums_of(values).dom().contains(attrs) implies values.dom().map(
            f,
        ).contains(attrs) by {
            assert(values.dom().contains(attrs.id) && f(attrs.id) == attrs);
        }
    }
    lemma_map_size(values.dom(), sums_of(values).dom(), f);
}

/// Whether `listed` walks the entries of `values`: each entry once, in some
/// order.
spec fn walks<T: Number>(listed: Seq<(&u64, &T)>, values: Map<u64, T>) -> bool {
    &&& values.dom().finite()
    &&& listed.len() == values.len()
    &&& forall|i: int|
        0 <= i < listed.len() ==> values.contains_key(*(#[trigger] listed[i]).0)
            && values[*listed[i].0] == *listed[i].1
    &&& forall|key: u64| #[trigger]
        values.contains_key(key) ==> exists|i: int|
            0 <= i < listed.len() && *(#[trigger] listed[i]).0 == key
}

/// The points written for the entries of a walk, one after the other, list
/// the table of what was written.
proof fn lemma_walk_enumerates<T: Number>(
    listed: Seq<(&u64, &T)>,
    values: Map<u64, T>,
    points: Seq<DataPoint<T>>,
    table: Map<AttributeSet, int>,
    start: SystemTime,
    end: SystemTime,
)
    requires
        walks(listed, values),
        listed.no_duplicates(),
        table.dom() == sums_of(values).dom(),
        listed.len() <= points.len(),
        forall|i: int|
            0 <= i < listed.len() ==> (#[trigger] points[i]).reports(
                AttributeSet { id: *listed[i].0 },
                start,
                end,
                table[AttributeSet { id: *listed[i].0 }],
            ),
    ensures
        enumerates(points, listed.len(), table, start, end),
{
    lemma_sums_of_len(values);
    let count = listed.len();
    assert forall|i: int| 0 <= i < count implies table.contains_key(
        (#[trigger] points[i]).attributes,
    ) by {
        assert(values.contains_key(*listed[i].0));
        assert(sums_of(values).dom().contains(points[i].attributes));
    }
    assert forall|a: int, b: int| 0 <= a < b < count implies (#[trigger] points[a]).attributes
        != (#[trigger] points[b]).attributes by {
        if points[a].attributes == points[b].attributes {
            assert(*listed[a].0 == *listed[b].0);
            assert(values[*listed[a].0] == *listed[a].1);
            assert(values[*listed[b].0] == *listed[b].1);
            assert(listed[a] == listed[b]);
        }
    }
    assert forall|attrs: AttributeSet| #[trigger] table.contains_key(attrs) implies exists|i: int|
        0 <= i < count && (#[trigger] points[i]).attributes == attrs by {
        assert(sums_of(values).dom().contains(attrs));
        assert(values.contains_key(attrs.id));
        let i = choose|i: int| 0 <= i < listed.len() && *(#[trigger] listed[i]).0 == attrs.id;
        assert(points[i].attributes == attrs);
    }
}

/// How many points `points` has room for, as `Vec::capacity` gives it. It is
/// whatever the allocator made it, so nothing is claimed of the number.
#[verifier::external_body]
fn capacity<T: Number>(points: &Vec<DataPoint<T>>) -> (room: usize) {
    points.capacity()
}

/// Makes room for `n` points where `points` has room for fewer.
fn reserve_points<T: Number>(points: &mut Vec<DataPoint<T>>, n: usize)
    ensures
        final(points)@ == old(points)@,
{
    let room: usize = capacity(points);
    if n > room {
        points.reserve(n - room);
    }
}

/// Writes the point at `index`: over the point that is there, or as a new last
/// point.
fn write_point<T: Number>(
    points: &mut Vec<DataPoint<T>>,
    index: usize,
    attrs: AttributeSet,
    start: SystemTime,
    end: SystemTime,
    value: T,
)
    requires
        index <= old(points).len(),
    ensures
        index < old(points).len() ==> final(points).len() == old(points).len(),
        index == old(points).len() ==> final(points).len() == old(points).len() + 1,
        final(points)[index as int].reports(attrs, start, end, value.as_int()),
        forall|j: int|
            0 <= j < old(points).len() && j != index ==> #[trigger] final(points)[j] == old(
                points,
            )[j],
{
    if index < points.len() {
        points[index].attributes = attrs;
        points[index].start_time = Some(start);
        points[index].time = Some(end);
        points[index].value = value;
        points[index].exemplars.clear();
    } else {
        points.push(
            DataPoint {
                attributes: attrs,
                start_time: Some(start),
                time: Some(end),
                value,
                exemplars: Vec::new(),
            },
        );
    }
}

/// The storage for sums: the running sum of each attribute set that a stream
/// tracks.
pub struct ValueMap<T: Number> {
    values: HashMap<u64, T>,
}

impl<T: Number> View for ValueMap<T> {
    type V = Map<AttributeSet, int>;

    closed spec fn view(&self) -> Map<AttributeSet, int> {
        sums_of(self.values@)
    }
}

impl<T: Number> Default for ValueMap<T> {
    /// An empty table.
    fn default() -> (map: Self)
        ensures
            map@ == Map::<AttributeSet, int>::empty(),
            bounded(map@),
    {
        ValueMap::new()
    }
}

impl<T: Number> ValueMap<T> {
    /// An empty table.
    pub fn new() -> (map: Self)
        ensures
            map@ == Map::<AttributeSet, int>::empty(),
            bounded(map@),
    {
        let values: HashMap<u64, T> = HashMap::new();
        proof {
            assert(sums_of(values@) =~= Map::<AttributeSet, int>::empty());
            lemma_empty_bounded();
        }
        ValueMap { values }
    }

    /// How many attribute sets the table tracks.
    pub fn len(&self) -> (len: usize)
        ensures
            len == self@.len(),
    {
        proof {
            lemma_sums_of_len(self.values@);
        }
        self.values.len()
    }

    /// The sum that the table holds for `attrs`, if it tracks `attrs`.
    pub fn get(&self, attrs: AttributeSet) -> (sum: Option<T>)
        ensures
            sum is Some <==> self@.contains_key(attrs),
            sum matches Some(value) ==> value.as_int() == self@[attrs],
    {
        match self.values.get(&attrs.id) {
            Some(value) => Some(*value),
            None => None,
        }
    }

    /// Whether `measurement` can be measured for `attrs`: whether the number
    /// type can hold the sum that it would make.
    pub fn can_measure(&self, measurement: T, attrs: AttributeSet) -> (fits: bool)
        ensures
            fits == T::representable(held(self@, slot(self@, attrs)) + measurement.as_int()),
    {
        proof {
            lemma_sums_of_len(self.values@);
        }
        let size: usize = self.values.len();
        let own = self.values.get(&attrs.id);
        let target = if own.is_none() && !is_under_cardinality_limit(size) {
            self.values.get(&AttributeSet::overflow().id)
        } else {
            own
        };
        match target {
            Some(sum) => sum.checked_plus(measurement).is_some(),
            None => T::zero().checked_plus(measurement).is_some(),
        }
    }

    /// Adds `measurement` to the sum of `attrs`, and tells whether it was
    /// turned away to the overflow set.
    ///
    /// An attribute set that the table holds has the measurement added to its
    /// sum. A new one gets an entry of its own while the table is under the
    /// cardinality limit. Once it is not, the measurement is added to the sum
    /// of the overflow set instead.
    pub fn record(&mut self, measurement: T, attrs: AttributeSet) -> (turned_away: bool)
        requires
            T::representable(
                held(old(self)@, slot(old(self)@, attrs)) + measurement.as_int(),
            ),
        ensures
            final(self)@ == measured(old(self)@, attrs, measurement.as_int()),
            turned_away == redirected(old(self)@, attrs),
            bounded(old(self)@) ==> bounded(final(self)@),
    {
        proof {
            lemma_sums_of_len(self.values@);
            if bounded(self@) {
                lemma_measured_bounded(self@, attrs, measurement.as_int());
            }
        }
        let ghost before = self@;
        let size: usize = self.values.len();
        let turned_away = match self.values.entry(attrs.id) {
            Entry::Occupied(mut occupied_entry) => {
                let sum = occupied_entry.get_mut();
                *sum = sum.plus(measurement);
                false
            },
            Entry::Vacant(vacant_entry) => {
                if is_under_cardinality_limit(size) {
                    vacant_entry.insert(measurement);
                    false
                } else {
                    match self.values.entry(AttributeSet::overflow().id) {
                        Entry::Occupied(mut overflow_entry) => {
                            let sum = overflow_entry.get_mut();
                            *sum = sum.plus(measurement);
                        },
                        Entry::Vacant(overflow_entry) => {
                            overflow_entry.insert(measurement);
                        },
                    }
                    true
                }
            },
        };
        proof {
            assert(self@ =~= measured(before, attrs, measurement.as_int()));
        }
        turned_away
    }

    /// Adds `measurement` to the sum of `attrs`, as `record` does, and sends a
    /// warning to the error sink where the measurement was turned away to the
    /// overflow set.
    pub fn measure(&mut self, measurement: T, attrs: AttributeSet)
        requires
            T::representable(
                held(old(self)@, slot(old(self)@, attrs)) + measurement.as_int(),
            ),
        ensures
            final(self)@ == measured(old(self)@, attrs, measurement.as_int()),
            bounded(old(self)@) ==> bounded(final(self)@),
    {
        if self.record(measurement, attrs) {
            warn(
                "Warning: Maximum data points for metric stream exceeded. Entry added to overflow.",
            );
        }
    }
}

/// Summarizes a set of measurements made as their arithmetic sum.
pub struct Sum<T: Number> {
    value_map: ValueMap<T>,
    monotonic: bool,
    start: SystemTime,
}

impl<T: Number> Sum<T> {
    /// The sum that the aggregator holds for each attribute set it tracks.
    pub closed spec fn sums(self) -> Map<AttributeSet, int> {
        self.value_map@
    }

    /// Whether the sums can only grow.
    pub closed spec fn is_monotonic(self) -> bool {
        self.monotonic
    }

    /// When the current collection cycle began.
    pub closed spec fn start(self) -> SystemTime {
        self.start
    }

    /// An aggregator tracks finitely many attribute sets.
    pub proof fn lemma_sums_finite(self)
        ensures
            self.sums().dom().finite(),
    {
        lemma_sums_of_len(self.value_map.values@);
    }

    /// Whether a delta collection of this aggregator at time `t` gives the
    /// count `count` and the snapshot `out` and leaves the aggregator `after`.
    ///
    /// The snapshot lists every sum over the time since the cycle began. The
    /// aggregator is left with no sums, in a cycle that begins at `t`.
    pub open spec fn delta_yields(
        self,
        t: SystemTime,
        after: Self,
        count: usize,
        out: data::Sum<T>,
    ) -> bool {
        &&& count == self.sums().len()
        &&& out.collects(
            count as nat,
            self.sums(),
            Temporality::Delta,
            self.is_monotonic(),
            self.start(),
            t,
        )
        &&& after.sums() == Map::<AttributeSet, int>::empty()
        &&& after.is_monotonic() == self.is_monotonic()
        &&& after.start() == t
    }

    /// Whether a cumulative collection of this aggregator at time `t` gives
    /// the count `count` and the snapshot `out`.
    ///
    /// The snapshot lists every sum over the time since the cycle began.
    pub open spec fn cumulative_yields(self, t: SystemTime, count: usize, out: data::Sum<T>) -> bool {
        &&& count == self.sums().len()
        &&& out.collects(
            count as nat,
            self.sums(),
            Temporality::Cumulative,
            self.is_monotonic(),
            self.start(),
            t,
        )
    }

    /// Returns an aggregator that summarizes a set of measurements as their
    /// arithmetic sum. Its first cycle begins now.
    ///
    /// Each sum is scoped by attributes and the aggregation cycle the
    /// measurements were made in.
    pub fn new(monotonic: bool) -> (sum: Self)
        ensures
            sum.sums() == Map::<AttributeSet, int>::empty(),
            bounded(sum.sums()),
            sum.is_monotonic() == monotonic,
    {
        Self::with_start(monotonic, now())
    }

    /// Returns an aggregator whose first cycle begins at `start`.
    pub fn with_start(monotonic: bool, start: SystemTime) -> (sum: Self)
        ensures
            sum.sums() == Map::<AttributeSet, int>::empty(),
            bounded(sum.sums()),
            sum.is_monotonic() == monotonic,
            sum.start() == start,
    {
        Sum { value_map: ValueMap::new(), monotonic, start }
    }

    /// Whether `measurement` can be measured for `attrs`: whether the number
    /// type can hold the sum that it would make.
    pub fn can_measure(&self, measurement: T, attrs: AttributeSet) -> (fits: bool)
        ensures
            fits == T::representable(
                held(self.sums(), slot(self.sums(), attrs)) + measurement.as_int(),
            ),
    {
        self.value_map.can_measure(measurement, attrs)
    }

    /// Adds `measurement` to the sum of `attrs`, or to that of the overflow
    /// set where the aggregator admits no new attribute set.
    pub fn measure(&mut self, measurement: T, attrs: AttributeSet)
        requires
            T::representable(
                held(old(self).sums(), slot(old(self).sums(), attrs)) + measurement.as_int(),
            ),
        ensures
            final(self).sums() == measured(old(self).sums(), attrs, measurement.as_int()),
            bounded(old(self).sums()) ==> bounded(final(self).sums()),
            final(self).is_monotonic() == old(self).is_monotonic(),
            final(self).start() == old(self).start(),
    {
        self.value_map.measure(measurement, attrs)
    }

    /// Collects, as of now, what was measured since the collection before,
    /// and begins a new cycle.
    ///
    /// The snapshot is written to `dest` where one is handed in, and to a new
    /// snapshot, which is returned, where none is.
    pub fn delta(&mut self, dest: Option<&mut data::Sum<T>>) -> (res: (
        usize,
        Option<data::Sum<T>>,
    ))
        ensures
            dest is Some <==> res.1 is None,
            dest matches Some(d) ==> overwrites(d.data_points@, final(d).data_points@, res.0 as nat)
                && exists|t: SystemTime| #[trigger]
                old(self).delta_yields(t, *final(self), res.0, *final(d)),
            res.1 matches Some(s) ==> s.data_points@.len() == res.0 && exists|t: SystemTime|
                #[trigger] old(self).delta_yields(t, *final(self), res.0, s),
    {
        let t = now();
        self.delta_at(t, dest)
    }

    /// Collects at time `t` what was measured since the collection before,
    /// and begins a new cycle at `t`.
    ///
    /// The snapshot is written to `dest` where one is handed in: over its
    /// first points, with new points added where it has too few. Where none
    /// is handed in, it is written to a new snapshot, which is returned.
    #[verifier::loop_isolation(false)]
    pub fn delta_at(&mut self, t: SystemTime, dest: Option<&mut data::Sum<T>>) -> (res: (
        usize,
        Option<data::Sum<T>>,
    ))
        ensures
            dest is Some <==> res.1 is None,
            dest matches Some(d) ==> old(self).delta_yields(t, *final(self), res.0, *final(d))
                && overwrites(d.data_points@, final(d).data_points@, res.0 as nat),
            res.1 matches Some(s) ==> old(self).delta_yields(t, *final(self), res.0, s)
                && s.data_points@.len() == res.0,
    {
        let mut new_agg = if dest.is_none() {
            Some(
                data::Sum {
                    data_points: Vec::new(),
                    temporality: Temporality::Delta,
                    is_monotonic: self.monotonic,
                },
            )
        } else {
            None
        };
        let s_data: &mut data::Sum<T> = match dest {
            Some(d) => d,
            None => match new_agg.as_mut() {
                Some(a) => a,
                None => vstd::pervasive::unreached(),
            },
        };
        s_data.temporality = Temporality::Delta;
        s_data.is_monotonic = self.monotonic;

        let n: usize = self.value_map.values.len();
        reserve_points(&mut s_data.data_points, n);
        let prev_start = self.start;
        let ghost handed = s_data.data_points@;
        let ghost table = self.value_map@;
        let ghost listed = self.value_map.values.iter().remaining();
        proof {
            lemma_sums_of_len(self.value_map.values@);
        }
        let mut i: usize = 0;
        for (id, value) in it: self.value_map.values.iter()
            invariant
                i == it.index(),
                it.seq() == listed,
                s_data.temporality == Temporality::Delta,
                s_data.is_monotonic == self.monotonic,
                s_data.data_points@.len() == if handed.len() < i {
                    i as nat
                } else {
                    handed.len()
                },
                forall|j: int|
                    i <= j < handed.len() ==> #[trigger] s_data.data_points@[j] == handed[j],
                forall|j: int|
                    0 <= j < i ==> (#[trigger] s_data.data_points@[j]).reports(
                        AttributeSet { id: *listed[j].0 },
                        prev_start,
                        t,
                        (*listed[j].1).as_int(),
                    ),
        {
            write_point(&mut s_data.data_points, i, AttributeSet::new(*id), prev_start, t, *value);
            i += 1;
        }
        proof {
            lemma_walk_enumerates(
                listed,
                self.value_map.values@,
                s_data.data_points@,
                table,
                prev_start,
                t,
            );
        }
        // The delta collection cycle resets.
        self.value_map.values.clear();
        self.start = t;
        proof {
            assert(self.value_map@ =~= Map::<AttributeSet, int>::empty());
        }

        (n, new_agg)
    }

    /// Collects, as of now, the sums since the cycle began, and leaves the
    /// aggregator as it is.
    ///
    /// The snapshot is written to `dest` where one is handed in, and to a new
    /// snapshot, which is returned, where none is.
    pub fn cumulative(&self, dest: Option<&mut data::Sum<T>>) -> (res: (
        usize,
        Option<data::Sum<T>>,
    ))
        ensures
            dest is Some <==> res.1 is None,
            dest matches Some(d) ==> overwrites(d.data_points@, final(d).data_points@, res.0 as nat)
                && exists|t: SystemTime| #[trigger] self.cumulative_yields(t, res.0, *final(d)),
            res.1 matches Some(s) ==> s.data_points@.len() == res.0 && exists|t: SystemTime|
                #[trigger] self.cumulative_yields(t, res.0, s),
    {
        let t = now();
        self.cumulative_at(t, dest)
    }

    /// Collects at time `t` the sums since the cycle began, and leaves the
    /// aggregator as it is.
    ///
    /// The snapshot is written to `dest` where one is handed in: over its
    /// first points, with new points added where it has too few. Where none
    /// is handed in, it is written to a new snapshot, which is returned.
    #[verifier::loop_isolation(false)]
    pub fn cumulative_at(&self, t: SystemTime, dest: Option<&mut data::Sum<T>>) -> (res: (
        usize,
        Option<data::Sum<T>>,
    ))
        ensures
            dest is Some <==> res.1 is None,
            dest matches Some(d) ==> self.cumulative_yields(t, res.0, *final(d)) && overwrites(
                d.data_points@,
                final(d).data_points@,
                res.0 as nat,
            ),
            res.1 matches Some(s) ==> self.cumulative_yields(t, res.0, s) && s.data_points@.len()
                == res.0,
    {
        let mut new_agg = if dest.is_none() {
            Some(
                data::Sum {
                    data_points: Vec::new(),
                    temporality: Temporality::Cumulative,
                    is_monotonic: self.monotonic,
                },
            )
        } else {
            None
        };
        let s_data: &mut data::Sum<T> = match dest {
            Some(d) => d,
            None => match new_agg.as_mut() {
                Some(a) => a,
                None => vstd::pervasive::unreached(),
            },
        };
        s_data.temporality = Temporality::Cumulative;
        s_data.is_monotonic = self.monotonic;

        let n: usize = self.value_map.values.len();
        reserve_points(&mut s_data.data_points, n);
        let prev_start = self.start;
        let ghost handed = s_data.data_points@;
        let ghost listed = self.value_map.values.iter().remaining();
        proof {
            lemma_sums_of_len(self.value_map.values@);
        }
        let mut i: usize = 0;
        for (id, value) in it: self.value_map.values.iter()
            invariant
                i == it.index(),
                it.seq() == listed,
                s_data.temporality == Temporality::Cumulative,
                s_data.is_monotonic == self.monotonic,
                s_data.data_points@.len() == if handed.len() < i {
                    i as nat
                } else {
                    handed.len()
                },
                forall|j: int|
                    i <= j < handed.len() ==> #[trigger] s_data.data_points@[j] == handed[j],
                forall|j: int|
                    0 <= j < i ==> (#[trigger] s_data.data_points@[j]).reports(
                        AttributeSet { id: *listed[j].0 },
                        prev_start,
                        t,
                        (*listed[j].1).as_int(),
                    ),
        {
            write_point(&mut s_data.data_points, i, AttributeSet::new(*id), prev_start, t, *value);
            i += 1;
        }
        proof {
            lemma_walk_enumerates(
                listed,
                self.value_map.values@,
                s_data.data_points@,
                self.value_map@,
                prev_start,
                t,
            );
        }

        (n, new_agg)
    }
}

/// Summarizes a set of pre-computed sums as their arithmetic sum.
///
/// What is measured is taken as the sum so far, and a collection gives out,
/// for each attribute set, how far the sum has moved from the one that was
/// last reported for it.
pub struct PrecomputedSum<T: Number> {
    value_map: ValueMap<T>,
    monotonic: bool,
    start: SystemTime,
    reported: HashMap<u64, T>,
}

impl<T: Number> PrecomputedSum<T> {
    /// The sum that the aggregator holds for each attribute set it tracks.
    pub closed spec fn sums(self) -> Map<AttributeSet, int> {
        self.value_map@
    }

    /// The sum that was last reported for each attribute set that the
    /// aggregator follows.
    pub closed spec fn reported(self) -> Map<AttributeSet, int> {
        sums_of(self.reported@)
    }

    /// Whether the sums can only grow.
    pub closed spec fn is_monotonic(self) -> bool {
        self.monotonic
    }

    /// When the current collection cycle began.
    pub closed spec fn start(self) -> SystemTime {
        self.start
    }

    /// An aggregator tracks finitely many attribute sets.
    pub proof fn lemma_sums_finite(self)
        ensures
            self.sums().dom().finite(),
    {
        lemma_sums_of_len(self.value_map.values@);
    }

    /// Whether the aggregator can be collected: the number type can hold, for
    /// each attribute set, the sum less what was last reported for it.
    pub open spec fn collectable(self) -> bool {
        forall|attrs: AttributeSet| #[trigger]
            self.sums().contains_key(attrs) ==> T::representable(
                self.sums()[attrs] - held(self.reported(), attrs),
            )
    }

    /// Whether a delta collection of this aggregator at time `t` gives the
    /// count `count` and the snapshot `out` and leaves the aggregator `after`.
    ///
    /// The snapshot lists, for every sum, how far it is from what was last
    /// reported, over the time since the cycle began. The aggregator is left
    /// with no sums, in a cycle that begins at `t`, and has as reported the
    /// sums that differed.
    pub open spec fn delta_yields(
        self,
        t: SystemTime,
        after: Self,
        count: usize,
        out: data::Sum<T>,
    ) -> bool {
        &&& count == self.sums().len()
        &&& out.collects(
            count as nat,
            deltas(self.sums(), self.reported()),
            Temporality::Delta,
            self.is_monotonic(),
            self.start(),
            t,
        )
        &&& after.sums() == Map::<AttributeSet, int>::empty()
        &&& after.reported() == carried(self.sums(), self.reported())
        &&& after.is_monotonic() == self.is_monotonic()
        &&& after.start() == t
    }

    /// Whether a cumulative collection of this aggregator at time `t` gives
    /// the count `count` and the snapshot `out` and leaves the aggregator
    /// `after`.
    ///
    /// The snapshot lists, for every sum, how far it is from what was last
    /// reported, over the time since the cycle began. The aggregator keeps its
    /// sums and its cycle, and has as reported the sums that differed.
    pub open spec fn cumulative_yields(
        self,
        t: SystemTime,
        after: Self,
        count: usize,
        out: data::Sum<T>,
    ) -> bool {
        &&& count == self.sums().len()
        &&& out.collects(
            count as nat,
            deltas(self.sums(), self.reported()),
            Temporality::Cumulative,
            self.is_monotonic(),
            self.start(),
            t,
        )
        &&& after.sums() == self.sums()
        &&& after.reported() == carried(self.sums(), self.reported())
        &&& after.is_monotonic() == self.is_monotonic()
        &&& after.start() == self.start()
    }

    /// Returns an aggregator of pre-computed sums. Its first cycle begins now.
    pub fn new(monotonic: bool) -> (sum: Self)
        ensures
            sum.sums() == Map::<AttributeSet, int>::empty(),
            bounded(sum.sums()),
            sum.reported() == Map::<AttributeSet, int>::empty(),
            sum.is_monotonic() == monotonic,
    {
        Self::with_start(monotonic, now())
    }

    /// Returns an aggregator of pre-computed sums whose first cycle begins at
    /// `start`.
    pub fn with_start(monotonic: bool, start: SystemTime) -> (sum: Self)
        ensures
            sum.sums() == Map::<AttributeSet, int>::empty(),
            bounded(sum.sums()),
            sum.reported() == Map::<AttributeSet, int>::empty(),
            sum.is_monotonic() == monotonic,
            sum.start() == start,
    {
        let reported: HashMap<u64, T> = HashMap::new();
        proof {
            assert(sums_of(reported@) =~= Map::<AttributeSet, int>::empty());
        }
        PrecomputedSum { value_map: ValueMap::new(), monotonic, start, reported }
    }

    /// Whether `measurement` can be measured for `attrs`: whether the number
    /// type can hold the sum that it would make.
    pub fn can_measure(&self, measurement: T, attrs: AttributeSet) -> (fits: bool)
        ensures
            fits == T::representable(
                held(self.sums(), slot(self.sums(), attrs)) + measurement.as_int(),
            ),
    {
        self.value_map.can_measure(measurement, attrs)
    }

    /// The sum that was last reported for `attrs`, if the aggregator follows
    /// `attrs`.
    pub fn last_reported(&self, attrs: AttributeSet) -> (sum: Option<T>)
        ensures
            sum is Some <==> self.reported().contains_key(attrs),
            sum matches Some(value) ==> value.as_int() == self.reported()[attrs],
    {
        match self.reported.get(&attrs.id) {
            Some(value) => Some(*value),
            None => None,
        }
    }

    /// Whether the aggregator can be collected.
    #[verifier::loop_isolation(false)]
    pub fn is_collectable(&self) -> (fits: bool)
        ensures
            fits == self.collectable(),
    {
        let ghost listed = self.value_map.values.iter().remaining();
        for (id, value) in it: self.value_map.values.iter()
            invariant
                it.seq() == listed,
                forall|j: int|
                    0 <= j < it.index() ==> T::representable(
                        (*(#[trigger] listed[j]).1).as_int() - held(
                            self.reported(),
                            AttributeSet { id: *listed[j].0 },
                        ),
                    ),
        {
            let last = match self.reported.get(id) {
                Some(last) => *last,
                None => T::zero(),
            };
            if value.checked_minus(last).is_none() {
                proof {
                    let attrs = AttributeSet { id: *id };
                    assert(self.value_map.values@.contains_key(*listed[it.index()].0));
                    assert(self.sums().contains_key(attrs));
                }
                return false;
            }
        }
        proof {
            assert forall|attrs: AttributeSet| #[trigger]
                self.sums().contains_key(attrs) implies T::representable(
                self.sums()[attrs] - held(self.reported(), attrs),
            ) by {
                assert(self.value_map.values@.contains_key(attrs.id));
                let j = choose|j: int|
                    0 <= j < listed.len() && *(#[trigger] listed[j]).0 == attrs.id;
                assert(AttributeSet { id: *listed[j].0 } == attrs);
            }
        }
        true
    }

    /// Adds `measurement` to the sum of `attrs`, or to that of the overflow
    /// set where the aggregator admits no new attribute set.
    ///
    /// A second measurement for an attribute set within one cycle adds to the
    /// first: it does not take its place.
    pub fn measure(&mut self, measurement: T, attrs: AttributeSet)
        requires
            T::representable(
                held(old(self).sums(), slot(old(self).sums(), attrs)) + measurement.as_int(),
            ),
        ensures
            final(self).sums() == measured(old(self).sums(), attrs, measurement.as_int()),
            bounded(old(self).sums()) ==> bounded(final(self).sums()),
            final(self).reported() == old(self).reported(),
            final(self).is_monotonic() == old(self).is_monotonic(),
            final(self).start() == old(self).start(),
    {
        self.value_map.measure(measurement, attrs)
    }

    /// Collects, as of now, how far each sum has moved since it was last
    /// reported, and begins a new cycle.
    ///
    /// The snapshot is written to `dest` where one is handed in, and to a new
    /// snapshot, which is returned, where none is.
    pub fn delta(&mut self, dest: Option<&mut data::Sum<T>>) -> (res: (
        usize,
        Option<data::Sum<T>>,
    ))
        requires
            old(self).collectable(),
        ensures
            dest is Some <==> res.1 is None,
            dest matches Some(d) ==> overwrites(d.data_points@, final(d).data_points@, res.0 as nat)
                && exists|t: SystemTime| #[trigger]
                old(self).delta_yields(t, *final(self), res.0, *final(d)),
            res.1 matches Some(s) ==> s.data_points@.len() == res.0 && exists|t: SystemTime|
                #[trigger] old(self).delta_yields(t, *final(self), res.0, s),
    {
        let t = now();
        self.delta_at(t, dest)
    }

    /// Collects at time `t` how far each sum has moved since it was last
    /// reported, and begins a new cycle at `t`.
    ///
    /// The snapshot is written to `dest` where one is handed in: over its
    /// first points, with new points added where it has too few. Where none
    /// is handed in, it is written to a new snapshot, which is returned.
    #[verifier::loop_isolation(false)]
    pub fn delta_at(&mut self, t: SystemTime, dest: Option<&mut data::Sum<T>>) -> (res: (
        usize,
        Option<data::Sum<T>>,
    ))
        requires
            old(self).collectable(),
        ensures
            dest is Some <==> res.1 is None,
            dest matches Some(d) ==> old(self).delta_yields(t, *final(self), res.0, *final(d))
                && overwrites(d.data_points@, final(d).data_points@, res.0 as nat),
            res.1 matches Some(s) ==> old(self).delta_yields(t, *final(self), res.0, s)
                && s.data_points@.len() == res.0,
    {
        let prev_start = self.start;

        let mut new_agg = if dest.is_none() {
            Some(
                data::Sum {
                    data_points: Vec::new(),
                    temporality: Temporality::Delta,
                    is_monotonic: self.monotonic,
                },
            )
        } else {
            None
        };
        let s_data: &mut data::Sum<T> = match dest {
            Some(d) => d,
            None => match new_agg.as_mut() {
                Some(a) => a,
                None => vstd::pervasive::unreached(),
            },
        };
        s_data.temporality = Temporality::Delta;
        s_data.is_monotonic = self.monotonic;

        let n: usize = self.value_map.values.len();
        reserve_points(&mut s_data.data_points, n);
        let mut new_reported: HashMap<u64, T> = HashMap::with_capacity(n);
        let default = T::zero();
        let ghost handed = s_data.data_points@;
        let ghost sums = self.value_map@;
        let ghost reported = sums_of(self.reported@);
        let ghost listed = self.value_map.values.iter().remaining();
        proof {
            lemma_sums_of_len(self.value_map.values@);
        }
        let mut i: usize = 0;
        for (id, value) in it: self.value_map.values.iter()
            invariant
                i == it.index(),
                it.seq() == listed,
                self.collectable(),
                s_data.temporality == Temporality::Delta,
                s_data.is_monotonic == self.monotonic,
                s_data.data_points@.len() == if handed.len() < i {
                    i as nat
                } else {
                    handed.len()
                },
                forall|j: int|
                    i <= j < handed.len() ==> #[trigger] s_data.data_points@[j] == handed[j],
                forall|j: int|
                    0 <= j < i ==> (#[trigger] s_data.data_points@[j]).reports(
                        AttributeSet { id: *listed[j].0 },
                        prev_start,
                        t,
                        deltas(sums, reported)[AttributeSet { id: *listed[j].0 }],
                    ),
                forall|j: int|
                    0 <= j < i && carried(sums, reported).contains_key(
                        AttributeSet { id: *(#[trigger] listed[j]).0 },
                    ) ==> new_reported@.contains_key(*listed[j].0),
                forall|key: u64| #[trigger]
                    new_reported@.contains_key(key) ==> carried(sums, reported).contains_key(
                        AttributeSet { id: key },
                    ) && new_reported@[key] == self.value_map.values@[key],
        {
            let last = match self.reported.get(id) {
                Some(last) => *last,
                None => default,
            };
            proof {
                let attrs = AttributeSet { id: *id };
                assert(self.value_map.values@.contains_key(*listed[i as int].0));
                assert(sums.contains_key(attrs) && sums[attrs] == value.as_int());
                assert(held(reported, attrs) == last.as_int());
                assert(self.sums().contains_key(attrs));
            }
            let delta = value.minus(last);
            if !delta.equals(default) {
                new_reported.insert(*id, *value);
            }
            write_point(&mut s_data.data_points, i, AttributeSet::new(*id), prev_start, t, delta);
            i += 1;
        }
        proof {
            assert(deltas(sums, reported).dom() =~= sums.dom());
            lemma_walk_enumerates(
                listed,
                self.value_map.values@,
                s_data.data_points@,
                deltas(sums, reported),
                prev_start,
                t,
            );
            assert(sums_of(new_reported@) =~= carried(sums, reported)) by {
                assert forall|attrs: AttributeSet|
                    carried(sums, reported).contains_key(attrs) implies sums_of(
                    new_reported@,
                ).contains_key(attrs) by {
                    let j = choose|j: int|
                        0 <= j < listed.len() && *(#[trigger] listed[j]).0 == attrs.id;
                    assert(AttributeSet { id: *listed[j].0 } == attrs);
                }
            }
        }

        // The delta collection cycle resets.
        self.start = t;
        self.reported = new_reported;
        self.value_map.values.clear();
        proof {
            assert(self.value_map@ =~= Map::<AttributeSet, int>::empty());
        }

        (n, new_agg)
    }

    /// Collects, as of now, how far each sum has moved since it was last
    /// reported, and leaves the sums and the cycle as they are.
    ///
    /// The snapshot is written to `dest` where one is handed in, and to a new
    /// snapshot, which is returned, where none is.
    pub fn cumulative(&mut self, dest: Option<&mut data::Sum<T>>) -> (res: (
        usize,
        Option<data::Sum<T>>,
    ))
        requires
            old(self).collectable(),
        ensures
            dest is Some <==> res.1 is None,
            dest matches Some(d) ==> overwrites(d.data_points@, final(d).data_points@, res.0 as nat)
                && exists|t: SystemTime| #[trigger]
                old(self).cumulative_yields(t, *final(self), res.0, *final(d)),
            res.1 matches Some(s) ==> s.data_points@.len() == res.0 && exists|t: SystemTime|
                #[trigger] old(self).cumulative_yields(t, *final(self), res.0, s),
    {
        let t = now();
        self.cumulative_at(t, dest)
    }

    /// Collects at time `t` how far each sum has moved since it was last
    /// reported, and leaves the sums and the cycle as they are.
    ///
    /// The values are differences here too, not running totals: only the
    /// time that they are given for reaches back to the start of the stream.
    ///
    /// The snapshot is written to `dest` where one is handed in: over its
    /// first points, with new points added where it has too few. Where none
    /// is handed in, it is written to a new snapshot, which is returned.
    #[verifier::loop_isolation(false)]
    pub fn cumulative_at(&mut self, t: SystemTime, dest: Option<&mut data::Sum<T>>) -> (res: (
        usize,
        Option<data::Sum<T>>,
    ))
        requires
            old(self).collectable(),
        ensures
            dest is Some <==> res.1 is None,
            dest matches Some(d) ==> old(self).cumulative_yields(t, *final(self), res.0, *final(d))
                && overwrites(d.data_points@, final(d).data_points@, res.0 as nat),
            res.1 matches Some(s) ==> old(self).cumulative_yields(t, *final(self), res.0, s)
                && s.data_points@.len() == res.0,
    {
        let prev_start = self.start;

        let mut new_agg = if dest.is_none() {
            Some(
                data::Sum {
                    data_points: Vec::new(),
                    temporality: Temporality::Cumulative,
                    is_monotonic: self.monotonic,
                },
            )
        } else {
            None
        };
        let s_data: &mut data::Sum<T> = match dest {
            Some(d) => d,
            None => match new_agg.as_mut() {
                Some(a) => a,
                None => vstd::pervasive::unreached(),
            },
        };
        s_data.temporality = Temporality::Cumulative;
        s_data.is_monotonic = self.monotonic;

        let n: usize = self.value_map.values.len();
        reserve_points(&mut s_data.data_points, n);
        let mut new_reported: HashMap<u64, T> = HashMap::with_capacity(n);
        let default = T::zero();
        let ghost handed = s_data.data_points@;
        let ghost sums = self.value_map@;
        let ghost reported = sums_of(self.reported@);
        let ghost listed = self.value_map.values.iter().remaining();
        proof {
            lemma_sums_of_len(self.value_map.values@);
        }
        let mut i: usize = 0;
        for (id, value) in it: self.value_map.values.iter()
            invariant
                i == it.index(),
                it.seq() == listed,
                self.collectable(),
                s_data.temporality == Temporality::Cumulative,
                s_data.is_monotonic == self.monotonic,
                s_data.data_points@.len() == if handed.len() < i {
                    i as nat
                } else {
                    handed.len()
                },
                forall|j: int|
                    i <= j < handed.len() ==> #[trigger] s_data.data_points@[j] == handed[j],
                forall|j: int|
                    0 <= j < i ==> (#[trigger] s_data.data_points@[j]).reports(
                        AttributeSet { id: *listed[j].0 },
                        prev_start,
                        t,
                        deltas(sums, reported)[AttributeSet { id: *listed[j].0 }],
                    ),
                forall|j: int|
                    0 <= j < i && carried(sums, reported).contains_key(
                        AttributeSet { id: *(#[trigger] listed[j]).0 },
                    ) ==> new_reported@.contains_key(*listed[j].0),
                forall|key: u64| #[trigger]
                    new_reported@.contains_key(key) ==> carried(sums, reported).contains_key(
                        AttributeSet { id: key },
                    ) && new_reported@[key] == self.value_map.values@[key],
        {
            let last = match self.reported.get(id) {
                Some(last) => *last,
                None => default,
            };
            proof {
                let attrs = AttributeSet { id: *id };
                assert(self.value_map.values@.contains_key(*listed[i as int].0));
                assert(sums.contains_key(attrs) && sums[attrs] == value.as_int());
                assert(held(reported, attrs) == last.as_int());
                assert(self.sums().contains_key(attrs));
            }
            let delta = value.minus(last);
            if !delta.equals(default) {
                new_reported.insert(*id, *value);
            }
            write_point(&mut s_data.data_points, i, AttributeSet::new(*id), prev_start, t, delta);
            i += 1;
        }
        proof {
            assert(deltas(sums, reported).dom() =~= sums.dom());
            lemma_walk_enumerates(
                listed,
                self.value_map.values@,
                s_data.data_points@,
                deltas(sums, reported),
                prev_start,
                t,
            );
            assert(sums_of(new_reported@) =~= carried(sums, reported)) by {
                assert forall|attrs: AttributeSet|
                    carried(sums, reported).contains_key(attrs) implies sums_of(
                    new_reported@,
                ).contains_key(attrs) by {
                    let j = choose|j: int|
                        0 <= j < listed.len() && *(#[trigger] listed[j]).0 == attrs.id;
                    assert(AttributeSet { id: *listed[j].0 } == attrs);
                }
            }
        }

        self.reported = new_reported;

        (n, new_agg)
    }
}

} // verus!
