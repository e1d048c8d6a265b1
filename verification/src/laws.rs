//! What holds of measuring and collecting, whatever is measured.

use vstd::prelude::*;
use std::time::SystemTime;
use crate::attributes::{under_cardinality_limit, AttributeSet, STREAM_CARDINALITY_LIMIT};
use crate::data;
use crate::data::{lemma_enumerated_total, reported_total};
use crate::model::{
    bounded, deltas, held, lemma_measured_all_bounded, lemma_measured_all_mass,
    lemma_measured_bounded, lemma_measured_grows, mass, measured, measured_all, overflows,
    redirected, slot, total,
};
use crate::number::Number;
use crate::sum::{PrecomputedSum, Sum};

verus! {

/// What one measurement does to a table, case by case: it is added to the sum
/// of an attribute set that the table holds; it becomes the sum of a new
/// attribute set while the table is under the cardinality limit; and it is
/// added to the sum of the overflow set once the table is not.
pub proof fn lemma_measured_by_case(table: Map<AttributeSet, int>, attrs: AttributeSet, value: int)
    ensures
        table.contains_key(attrs) ==> measured(table, attrs, value) == table.insert(
            attrs,
            table[attrs] + value,
        ),
        !table.contains_key(attrs) && under_cardinality_limit(table.len()) ==> measured(
            table,
            attrs,
            value,
        ) == table.insert(attrs, value),
        !table.contains_key(attrs) && !under_cardinality_limit(table.len()) ==> measured(
            table,
            attrs,
            value,
        ) == table.insert(
            AttributeSet::overflow(),
            held(table, AttributeSet::overflow()) + value,
        ),
{
}

/// Measurements for one attribute set add up: after any number of them the
/// table holds, under the slot of that attribute set, what it held before
/// and the arithmetic sum of the values, and every other entry is as it was.
pub proof fn lemma_measurements_add_up(
    table: Map<AttributeSet, int>,
    attrs: AttributeSet,
    measurements: Seq<(AttributeSet, int)>,
)
    requires
        table.dom().finite(),
        measurements.len() > 0,
        forall|i: int| 0 <= i < measurements.len() ==> (#[trigger] measurements[i]).0 == attrs,
    ensures
        measured_all(table, measurements) == table.insert(
            slot(table, attrs),
            held(table, slot(table, attrs)) + total(measurements),
        ),
    decreases measurements.len(),
{
    let earlier = measurements.drop_last();
    let value = measurements.last().1;
    let s = slot(table, attrs);
    assert(measurements.last().0 == attrs);
    assert(total(earlier) + value == total(measurements));
    if earlier.len() == 0 {
        assert(measured_all(table, earlier) == table);
        assert(total(earlier) == 0);
    } else {
        assert forall|i: int| 0 <= i < earlier.len() implies (#[trigger] earlier[i]).0
            == attrs by {
            assert(earlier[i] == measurements[i]);
        }
        lemma_measurements_add_up(table, attrs, earlier);
        let before = measured_all(table, earlier);
        lemma_measured_grows(table, attrs, total(earlier));
        assert(before.dom() =~= table.dom().insert(s));
        assert(before.len() >= table.len());
        assert(slot(before, attrs) == s);
        assert(measured(before, attrs, value) =~= table.insert(
            s,
            held(table, s) + total(measurements),
        ));
    }
}

/// Conservation: where nothing but measurements for one attribute set comes
/// between, a cumulative collection reports for it exactly what the
/// aggregator held and the arithmetic sum of the values measured. For an
/// aggregator that held nothing, that is the sum of the values alone, under
/// the attribute set itself. Only an attribute set that was never measured
/// has no point to report it.
pub proof fn lemma_conservation<T: Number>(
    sum: Sum<T>,
    attrs: AttributeSet,
    measurements: Seq<(AttributeSet, int)>,
    later: Sum<T>,
    t: SystemTime,
    count: usize,
    out: data::Sum<T>,
)
    requires
        forall|i: int| 0 <= i < measurements.len() ==> (#[trigger] measurements[i]).0 == attrs,
        later.sums() == measured_all(sum.sums(), measurements),
        later.cumulative_yields(t, count, out),
    ensures
        measurements.len() > 0 || sum.sums().contains_key(attrs) ==> exists|i: int|
            0 <= i < count && (#[trigger] out.data_points@[i]).attributes == slot(
                sum.sums(),
                attrs,
            ) && out.data_points@[i].value.as_int() == held(sum.sums(), slot(sum.sums(), attrs))
                + total(measurements),
        measurements.len() > 0 && sum.sums() == Map::<AttributeSet, int>::empty() ==> exists|
            i: int,
        |
            0 <= i < count && (#[trigger] out.data_points@[i]).attributes == attrs
                && out.data_points@[i].value.as_int() == total(measurements),
{
    sum.lemma_sums_finite();
    let s = slot(sum.sums(), attrs);
    if measurements.len() > 0 {
        lemma_measurements_add_up(sum.sums(), attrs, measurements);
    }
    if measurements.len() > 0 || sum.sums().contains_key(attrs) {
        assert(later.sums().contains_key(s));
        let i = choose|i: int| 0 <= i < count && (#[trigger] out.data_points@[i]).attributes == s;
        assert(out.data_points@[i].value.as_int() == later.sums()[s]);
    }
    if sum.sums() == Map::<AttributeSet, int>::empty() {
        assert(sum.sums().len() == 0);
        assert(s == attrs);
    }
}

/// Conservation for pre-computed sums: where nothing but measurements for one
/// attribute set comes between, a collection reports for it what the
/// aggregator held and the arithmetic sum of the values measured, less what
/// was last reported for it. For an aggregator that held and had reported
/// nothing, that is the sum of the values alone.
pub proof fn lemma_precomputed_conservation<T: Number>(
    sum: PrecomputedSum<T>,
    attrs: AttributeSet,
    measurements: Seq<(AttributeSet, int)>,
    later: PrecomputedSum<T>,
    t: SystemTime,
    after: PrecomputedSum<T>,
    count: usize,
    out: data::Sum<T>,
)
    requires
        forall|i: int| 0 <= i < measurements.len() ==> (#[trigger] measurements[i]).0 == attrs,
        later.sums() == measured_all(sum.sums(), measurements),
        later.reported() == sum.reported(),
        later.cumulative_yields(t, after, count, out) || later.delta_yields(t, after, count, out),
    ensures
        measurements.len() > 0 || sum.sums().contains_key(attrs) ==> exists|i: int|
            0 <= i < count && (#[trigger] out.data_points@[i]).attributes == slot(
                sum.sums(),
                attrs,
            ) && out.data_points@[i].value.as_int() == held(sum.sums(), slot(sum.sums(), attrs))
                + total(measurements) - held(sum.reported(), slot(sum.sums(), attrs)),
        measurements.len() > 0 && sum.sums() == Map::<AttributeSet, int>::empty()
            && sum.reported() == Map::<AttributeSet, int>::empty() ==> exists|i: int|
            0 <= i < count && (#[trigger] out.data_points@[i]).attributes == attrs
                && out.data_points@[i].value.as_int() == total(measurements),
{
    sum.lemma_sums_finite();
    let s = slot(sum.sums(), attrs);
    if measurements.len() > 0 {
        lemma_measurements_add_up(sum.sums(), attrs, measurements);
    }
    if measurements.len() > 0 || sum.sums().contains_key(attrs) {
        assert(later.sums().contains_key(s));
        let given = deltas(later.sums(), later.reported());
        assert(given.contains_key(s));
        let i = choose|i: int| 0 <= i < count && (#[trigger] out.data_points@[i]).attributes == s;
        assert(out.data_points@[i].value.as_int() == given[s]);
    }
    if sum.sums() == Map::<AttributeSet, int>::empty() {
        assert(sum.sums().len() == 0);
        assert(s == attrs);
    }
}

/// Nothing is lost and nothing counted twice: whatever is measured, for
/// whatever attribute sets and whether or not the table is full, the values
/// that the next collection reports add up to what the aggregator held and
/// the arithmetic sum of the values measured.
pub proof fn lemma_nothing_lost<T: Number>(
    sum: Sum<T>,
    measurements: Seq<(AttributeSet, int)>,
    later: Sum<T>,
    t: SystemTime,
    after: Sum<T>,
    count: usize,
    out: data::Sum<T>,
)
    requires
        later.sums() == measured_all(sum.sums(), measurements),
        later.cumulative_yields(t, count, out) || later.delta_yields(t, after, count, out),
    ensures
        reported_total(out.data_points@, count as nat) == mass(sum.sums()) + total(measurements),
        sum.sums() == Map::<AttributeSet, int>::empty() ==> reported_total(
            out.data_points@,
            count as nat,
        ) == total(measurements),
{
    sum.lemma_sums_finite();
    lemma_measured_all_mass(sum.sums(), measurements);
    lemma_enumerated_total(out.data_points@, count as nat, later.sums(), later.start(), t);
    if sum.sums() == Map::<AttributeSet, int>::empty() {
        assert(sum.sums().len() == 0);
    }
}

/// An attribute set that a table does not hold stays out of it while nothing
/// is measured for it, unless it is the overflow set and a measurement is
/// turned away.
pub proof fn lemma_unmeasured_stays_out(
    table: Map<AttributeSet, int>,
    measurements: Seq<(AttributeSet, int)>,
    x: AttributeSet,
)
    requires
        !table.contains_key(x),
        forall|i: int| 0 <= i < measurements.len() ==> (#[trigger] measurements[i]).0 != x,
        x == AttributeSet::overflow() ==> !overflows(table, measurements),
    ensures
        !measured_all(table, measurements).contains_key(x),
    decreases measurements.len(),
{
    if measurements.len() > 0 {
        let earlier = measurements.drop_last();
        assert forall|i: int| 0 <= i < earlier.len() implies (#[trigger] earlier[i]).0 != x by {
            assert(earlier[i] == measurements[i]);
        }
        lemma_unmeasured_stays_out(table, earlier, x);
        assert(measurements.last().0 != x);
    }
}

/// Delta reset: an attribute set that a delta collection has drained is not
/// reported by the next delta collection where nothing was measured for it
/// in between. The one exception is the overflow set, which comes back when
/// a measurement for another attribute set is turned away.
pub proof fn lemma_delta_reset<T: Number>(
    sum: Sum<T>,
    t: SystemTime,
    drained: Sum<T>,
    count: usize,
    out: data::Sum<T>,
    x: AttributeSet,
    measurements: Seq<(AttributeSet, int)>,
    later: Sum<T>,
    next_t: SystemTime,
    next_drained: Sum<T>,
    next_count: usize,
    next_out: data::Sum<T>,
)
    requires
        sum.delta_yields(t, drained, count, out),
        later.sums() == measured_all(drained.sums(), measurements),
        forall|i: int| 0 <= i < measurements.len() ==> (#[trigger] measurements[i]).0 != x,
        x == AttributeSet::overflow() ==> !overflows(drained.sums(), measurements),
        later.delta_yields(next_t, next_drained, next_count, next_out),
    ensures
        !later.sums().contains_key(x),
        forall|i: int|
            0 <= i < next_count ==> (#[trigger] next_out.data_points@[i]).attributes != x,
{
    lemma_unmeasured_stays_out(drained.sums(), measurements, x);
}

/// Delta reset for pre-computed sums: as `lemma_delta_reset`, and the
/// attribute set is no longer followed as reported either.
pub proof fn lemma_precomputed_delta_reset<T: Number>(
    sum: PrecomputedSum<T>,
    t: SystemTime,
    drained: PrecomputedSum<T>,
    count: usize,
    out: data::Sum<T>,
    x: AttributeSet,
    measurements: Seq<(AttributeSet, int)>,
    later: PrecomputedSum<T>,
    next_t: SystemTime,
    next_drained: PrecomputedSum<T>,
    next_count: usize,
    next_out: data::Sum<T>,
)
    requires
        sum.delta_yields(t, drained, count, out),
        later.sums() == measured_all(drained.sums(), measurements),
        later.reported() == drained.reported(),
        forall|i: int| 0 <= i < measurements.len() ==> (#[trigger] measurements[i]).0 != x,
        x == AttributeSet::overflow() ==> !overflows(drained.sums(), measurements),
        later.delta_yields(next_t, next_drained, next_count, next_out),
    ensures
        !later.sums().contains_key(x),
        forall|i: int|
            0 <= i < next_count ==> (#[trigger] next_out.data_points@[i]).attributes != x,
        !next_drained.reported().contains_key(x),
{
    lemma_unmeasured_stays_out(drained.sums(), measurements, x);
}

/// Measurements for attribute sets that differ from one another, fewer of
/// them than the cardinality limit, each get an entry of their own in an
/// empty table.
pub proof fn lemma_new_sets_are_admitted(measurements: Seq<(AttributeSet, int)>)
    requires
        measurements.len() < STREAM_CARDINALITY_LIMIT,
        forall|i: int, j: int|
            0 <= i < j < measurements.len() ==> (#[trigger] measurements[i]).0
                != (#[trigger] measurements[j]).0,
    ensures
        !overflows(Map::<AttributeSet, int>::empty(), measurements),
        measured_all(Map::<AttributeSet, int>::empty(), measurements).dom().finite(),
        measured_all(Map::<AttributeSet, int>::empty(), measurements).len()
            == measurements.len(),
        forall|i: int|
            0 <= i < measurements.len() ==> measured_all(
                Map::<AttributeSet, int>::empty(),
                measurements,
            ).contains_key((#[trigger] measurements[i]).0) && measured_all(
                Map::<AttributeSet, int>::empty(),
                measurements,
            )[measurements[i].0] == measurements[i].1,
        forall|attrs: AttributeSet|
            measured_all(Map::<AttributeSet, int>::empty(), measurements).contains_key(attrs)
                ==> exists|i: int|
                0 <= i < measurements.len() && (#[trigger] measurements[i]).0 == attrs,
    decreases measurements.len(),
{
    let empty = Map::<AttributeSet, int>::empty();
    if measurements.len() > 0 {
        let earlier = measurements.drop_last();
        let last = measurements.last();
        assert forall|i: int, j: int| 0 <= i < j < earlier.len() implies (#[trigger] earlier[i]).0
            != (#[trigger] earlier[j]).0 by {
            assert(earlier[i] == measurements[i]);
            assert(earlier[j] == measurements[j]);
        }
        lemma_new_sets_are_admitted(earlier);
        let before = measured_all(empty, earlier);
        assert(!before.contains_key(last.0)) by {
            if before.contains_key(last.0) {
                let i = choose|i: int| 0 <= i < earlier.len() && (#[trigger] earlier[i]).0 == last.0;
                assert(earlier[i] == measurements[i]);
                assert(measurements[measurements.len() - 1] == last);
            }
        }
        assert(under_cardinality_limit(before.len()));
        assert(slot(before, last.0) == last.0);
        let after = measured_all(empty, measurements);
        assert(after == before.insert(last.0, last.1));
        assert(after.dom() =~= before.dom().insert(last.0));
        assert forall|i: int| 0 <= i < measurements.len() implies after.contains_key(
            (#[trigger] measurements[i]).0,
        ) && after[measurements[i].0] == measurements[i].1 by {
            if i < earlier.len() {
                assert(earlier[i] == measurements[i]);
                assert(before.contains_key(earlier[i].0));
            }
        }
        assert forall|attrs: AttributeSet| after.contains_key(attrs) implies exists|i: int|
            0 <= i < measurements.len() && (#[trigger] measurements[i]).0 == attrs by {
            if attrs == last.0 {
                assert(measurements[measurements.len() - 1].0 == attrs);
            } else {
                let i = choose|i: int| 0 <= i < earlier.len() && (#[trigger] earlier[i]).0 == attrs;
                assert(earlier[i] == measurements[i]);
            }
        }
    } else {
        assert(empty.dom() =~= Set::<AttributeSet>::empty());
    }
}

/// Overflow merging: once as many attribute sets have an entry of their own
/// as the cardinality limit leaves room for, which is one less than the
/// limit, the value measured for one more is added to the sum of the
/// overflow set. The table does not grow past the limit for it, nor for
/// anything measured afterwards.
pub proof fn lemma_overflow_merging(
    measurements: Seq<(AttributeSet, int)>,
    attrs: AttributeSet,
    value: int,
    afterwards: Seq<(AttributeSet, int)>,
)
    requires
        measurements.len() == STREAM_CARDINALITY_LIMIT - 1,
        forall|i: int, j: int|
            0 <= i < j < measurements.len() ==> (#[trigger] measurements[i]).0
                != (#[trigger] measurements[j]).0,
        forall|i: int| 0 <= i < measurements.len() ==> (#[trigger] measurements[i]).0 != attrs,
    ensures
        ({
            let full = measured_all(Map::<AttributeSet, int>::empty(), measurements);
            let merged = measured(full, attrs, value);
            &&& full.len() == STREAM_CARDINALITY_LIMIT - 1
            &&& redirected(full, attrs)
            &&& merged == full.insert(
                AttributeSet::overflow(),
                held(full, AttributeSet::overflow()) + value,
            )
            &&& !merged.contains_key(attrs) || attrs == AttributeSet::overflow()
            &&& bounded(merged)
            &&& bounded(measured_all(merged, afterwards))
        }),
{
    let full = measured_all(Map::<AttributeSet, int>::empty(), measurements);
    let merged = measured(full, attrs, value);
    lemma_new_sets_are_admitted(measurements);
    assert(!full.contains_key(attrs)) by {
        if full.contains_key(attrs) {
            let i = choose|i: int|
                0 <= i < measurements.len() && (#[trigger] measurements[i]).0 == attrs;
        }
    }
    lemma_measured_grows(full, attrs, value);
    assert(bounded(full));
    lemma_measured_bounded(full, attrs, value);
    lemma_measured_all_bounded(merged, afterwards);
}

/// Cumulative collections do not consume: two of them with no measurement in
/// between count the same number of points and report the same value for
/// every attribute set.
pub proof fn lemma_cumulative_repeats<T: Number>(
    sum: Sum<T>,
    t: SystemTime,
    count: usize,
    out: data::Sum<T>,
    next_t: SystemTime,
    next_count: usize,
    next_out: data::Sum<T>,
)
    requires
        sum.cumulative_yields(t, count, out),
        sum.cumulative_yields(next_t, next_count, next_out),
    ensures
        count == next_count,
        forall|i: int|
            0 <= i < count ==> exists|j: int|
                0 <= j < next_count && (#[trigger] next_out.data_points@[j]).attributes == (
                #[trigger] out.data_points@[i]).attributes && next_out.data_points@[j].value
                    == out.data_points@[i].value,
{
    assert forall|i: int| 0 <= i < count implies exists|j: int|
        0 <= j < next_count && (#[trigger] next_out.data_points@[j]).attributes == (
        #[trigger] out.data_points@[i]).attributes && next_out.data_points@[j].value
            == out.data_points@[i].value by {
        let attrs = out.data_points@[i].attributes;
        assert(sum.sums().contains_key(attrs));
        let j = choose|j: int|
            0 <= j < next_count && (#[trigger] next_out.data_points@[j]).attributes == attrs;
        T::lemma_value_is_faithful(next_out.data_points@[j].value, out.data_points@[i].value);
    }
}

/// Cumulative collections of pre-computed sums keep the sums and the count,
/// and not the values: of two with no measurement in between, the second
/// reports no change for each attribute set for which the first reported
/// one, and the whole sum for each for which the first reported none.
pub proof fn lemma_precomputed_cumulative_repeats<T: Number>(
    sum: PrecomputedSum<T>,
    t: SystemTime,
    between: PrecomputedSum<T>,
    count: usize,
    out: data::Sum<T>,
    next_t: SystemTime,
    after: PrecomputedSum<T>,
    next_count: usize,
    next_out: data::Sum<T>,
)
    requires
        sum.cumulative_yields(t, between, count, out),
        between.cumulative_yields(next_t, after, next_count, next_out),
    ensures
        count == next_count,
        after.sums() == sum.sums(),
        forall|j: int|
            0 <= j < next_count ==> (#[trigger] next_out.data_points@[j]).value.as_int() == (
            if sum.sums()[next_out.data_points@[j].attributes] != held(
                sum.reported(),
                next_out.data_points@[j].attributes,
            ) {
                0
            } else {
                sum.sums()[next_out.data_points@[j].attributes]
            }),
{
    let points = next_out.data_points@;
    assert forall|j: int| 0 <= j < next_count implies (#[trigger] points[j]).value.as_int()
        == (if sum.sums()[next_out.data_points@[j].attributes] != held(
        sum.reported(),
        next_out.data_points@[j].attributes,
    ) {
        0
    } else {
        sum.sums()[next_out.data_points@[j].attributes]
    }) by {
        let attrs = next_out.data_points@[j].attributes;
        let given = deltas(between.sums(), between.reported());
        assert(given.contains_key(attrs));
        assert(sum.sums().contains_key(attrs));
    }
}

} // verus!
