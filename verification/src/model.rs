//! The table of sums as a mathematical map, and what measuring does to it.

use vstd::prelude::*;
use crate::attributes::{under_cardinality_limit, AttributeSet, STREAM_CARDINALITY_LIMIT};

verus! {

/// The sum that `table` holds for `attrs`: zero where it holds none.
pub open spec fn held(table: Map<AttributeSet, int>, attrs: AttributeSet) -> int {
    if table.contains_key(attrs) {
        table[attrs]
    } else {
        0
    }
}

/// Whether a measurement for `attrs` is turned away from an entry of its own:
/// the table does not track `attrs` and has no room for one more.
pub open spec fn redirected(table: Map<AttributeSet, int>, attrs: AttributeSet) -> bool {
    !table.contains_key(attrs) && !under_cardinality_limit(table.len())
}

/// The attribute set under which a measurement for `attrs` is accumulated:
/// `attrs` itself, or the overflow set where the measurement is turned away.
pub open spec fn slot(table: Map<AttributeSet, int>, attrs: AttributeSet) -> AttributeSet {
    if redirected(table, attrs) {
        AttributeSet::overflow()
    } else {
        attrs
    }
}

/// The table after `value` has been measured for `attrs`: the value is added
/// to what the table held under the measurement's slot.
pub open spec fn measured(
    table: Map<AttributeSet, int>,
    attrs: AttributeSet,
    value: int,
) -> Map<AttributeSet, int> {
    let s = slot(table, attrs);
    table.insert(s, held(table, s) + value)
}

/// Whether the table keeps to the cardinality limit: it tracks fewer sets
/// than the limit, or as many as the limit with the overflow set among them.
pub open spec fn bounded(table: Map<AttributeSet, int>) -> bool {
    &&& table.dom().finite()
    &&& table.len() <= STREAM_CARDINALITY_LIMIT
    &&& table.len() == STREAM_CARDINALITY_LIMIT ==> table.contains_key(AttributeSet::overflow())
}

/// The empty table keeps to the cardinality limit.
pub proof fn lemma_empty_bounded()
    ensures
        bounded(Map::<AttributeSet, int>::empty()),
{
    assert(Map::<AttributeSet, int>::empty().dom() =~= Set::<AttributeSet>::empty());
}

/// Measuring keeps a table within the cardinality limit.
pub proof fn lemma_measured_bounded(table: Map<AttributeSet, int>, attrs: AttributeSet, value: int)
    requires
        bounded(table),
    ensures
        bounded(measured(table, attrs, value)),
{
    let s = slot(table, attrs);
    let after = measured(table, attrs, value);
    assert(after.dom() =~= table.dom().insert(s));
}

/// What a collection of pre-computed sums gives out: for each attribute set
/// of `sums`, its sum less what was last reported for it.
pub open spec fn deltas(
    sums: Map<AttributeSet, int>,
    reported: Map<AttributeSet, int>,
) -> Map<AttributeSet, int> {
    Map::new(
        |attrs: AttributeSet| sums.contains_key(attrs),
        |attrs: AttributeSet| sums[attrs] - held(reported, attrs),
    )
}

/// What a collection of pre-computed sums keeps as reported: the sum of each
/// attribute set of `sums` whose sum differs from what was last reported for
/// it. Every other attribute set is forgotten.
pub open spec fn carried(
    sums: Map<AttributeSet, int>,
    reported: Map<AttributeSet, int>,
) -> Map<AttributeSet, int> {
    Map::new(
        |attrs: AttributeSet| sums.contains_key(attrs) && sums[attrs] != held(reported, attrs),
        |attrs: AttributeSet| sums[attrs],
    )
}

/// The table after each measurement of `measurements`, an attribute set with
/// a value, has been measured in turn.
pub open spec fn measured_all(
    table: Map<AttributeSet, int>,
    measurements: Seq<(AttributeSet, int)>,
) -> Map<AttributeSet, int>
    decreases measurements.len(),
{
    if measurements.len() == 0 {
        table
    } else {
        measured(
            measured_all(table, measurements.drop_last()),
            measurements.last().0,
            measurements.last().1,
        )
    }
}

/// The arithmetic sum of the values of `measurements`.
pub open spec fn total(measurements: Seq<(AttributeSet, int)>) -> int
    decreases measurements.len(),
{
    if measurements.len() == 0 {
        0
    } else {
        total(measurements.drop_last()) + measurements.last().1
    }
}

/// Whether one of `measurements`, measured in turn into `table`, is turned
/// away to the overflow set.
pub open spec fn overflows(
    table: Map<AttributeSet, int>,
    measurements: Seq<(AttributeSet, int)>,
) -> bool
    decreases measurements.len(),
{
    if measurements.len() == 0 {
        false
    } else {
        overflows(table, measurements.drop_last()) || redirected(
            measured_all(table, measurements.drop_last()),
            measurements.last().0,
        )
    }
}

/// Measuring never makes a table lose an entry or its finiteness.
pub proof fn lemma_measured_grows(table: Map<AttributeSet, int>, attrs: AttributeSet, value: int)
    requires
        table.dom().finite(),
    ensures
        measured(table, attrs, value).dom() == table.dom().insert(slot(table, attrs)),
        measured(table, attrs, value).dom().finite(),
        measured(table, attrs, value).len() >= table.len(),
{
    assert(measured(table, attrs, value).dom() =~= table.dom().insert(slot(table, attrs)));
}

/// Whatever is measured, in whatever order, a table stays finite and within
/// the cardinality limit.
pub proof fn lemma_measured_all_bounded(
    table: Map<AttributeSet, int>,
    measurements: Seq<(AttributeSet, int)>,
)
    requires
        table.dom().finite(),
    ensures
        measured_all(table, measurements).dom().finite(),
        measured_all(table, measurements).len() >= table.len(),
        bounded(table) ==> bounded(measured_all(table, measurements)),
    decreases measurements.len(),
{
    if measurements.len() > 0 {
        let earlier = measured_all(table, measurements.drop_last());
        lemma_measured_all_bounded(table, measurements.drop_last());
        lemma_measured_grows(earlier, measurements.last().0, measurements.last().1);
        if bounded(table) {
            lemma_measured_bounded(earlier, measurements.last().0, measurements.last().1);
        }
    }
}

/// The arithmetic sum of all the sums that a table holds.
pub open spec fn mass(table: Map<AttributeSet, int>) -> int
    decreases table.len(),
    when table.dom().finite()
{
    if table.len() == 0 {
        0
    } else {
        let attrs = table.dom().choose();
        table[attrs] + mass(table.remove(attrs))
    }
}

/// The mass of a table is the sum under any one of its attribute sets and
/// the mass of the rest.
pub proof fn lemma_mass_remove(table: Map<AttributeSet, int>, attrs: AttributeSet)
    requires
        table.dom().finite(),
        table.contains_key(attrs),
    ensures
        mass(table) == table[attrs] + mass(table.remove(attrs)),
    decreases table.len(),
{
    let chosen = table.dom().choose();
    assert(table.len() > 0) by {
        if table.len() == 0 {
            assert(table.dom() =~= Set::<AttributeSet>::empty());
        }
    }
    if chosen != attrs {
        assert(table.contains_key(chosen));
        lemma_mass_remove(table.remove(chosen), attrs);
        lemma_mass_remove(table.remove(attrs), chosen);
        assert(table.remove(chosen).remove(attrs) =~= table.remove(attrs).remove(chosen));
    }
}

/// Putting a sum into a table changes the mass by the difference to the sum
/// that was held.
pub proof fn lemma_mass_insert(table: Map<AttributeSet, int>, attrs: AttributeSet, value: int)
    requires
        table.dom().finite(),
    ensures
        mass(table.insert(attrs, value)) == mass(table) - held(table, attrs) + value,
{
    let after = table.insert(attrs, value);
    lemma_mass_remove(after, attrs);
    assert(after.remove(attrs) =~= table.remove(attrs));
    if table.contains_key(attrs) {
        lemma_mass_remove(table, attrs);
    } else {
        assert(table.remove(attrs) =~= table);
    }
}

/// Measuring adds the measured value to the mass of the table, whether the
/// measurement gets an entry of its own or is turned away to the overflow
/// set.
pub proof fn lemma_measured_mass(table: Map<AttributeSet, int>, attrs: AttributeSet, value: int)
    requires
        table.dom().finite(),
    ensures
        mass(measured(table, attrs, value)) == mass(table) + value,
{
    let s = slot(table, attrs);
    lemma_mass_insert(table, s, held(table, s) + value);
}

/// Measurements add their arithmetic sum to the mass of the table.
pub proof fn lemma_measured_all_mass(
    table: Map<AttributeSet, int>,
    measurements: Seq<(AttributeSet, int)>,
)
    requires
        table.dom().finite(),
    ensures
        mass(measured_all(table, measurements)) == mass(table) + total(measurements),
    decreases measurements.len(),
{
    if measurements.len() > 0 {
        let earlier = measurements.drop_last();
        lemma_measured_all_mass(table, earlier);
        lemma_measured_all_bounded(table, earlier);
        lemma_measured_mass(
            measured_all(table, earlier),
            measurements.last().0,
            measurements.last().1,
        );
    }
}

} // verus!
