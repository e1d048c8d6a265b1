//! Attribute sets and the bound on how many of them one stream tracks.

use vstd::prelude::*;

verus! {

/// The most attribute sets that one metric stream tracks at a time, the
/// overflow set included.
pub const STREAM_CARDINALITY_LIMIT: usize = 2000;

/// The identity under which the overflow set is known.
pub const STREAM_OVERFLOW_ID: u64 = 0xffff_ffff_ffff_ffff;

/// The identity of one combination of attributes: the key of one time series
/// within a metric stream.
///
/// Two attribute sets are the same exactly when their identities are equal.
#[derive(Clone, Copy, Debug, PartialEq, Eq, Hash, Structural)]
pub struct AttributeSet {
    /// The identity.
    pub id: u64,
}

impl AttributeSet {
    /// The attribute set with the given identity.
    pub fn new(id: u64) -> (attrs: Self)
        ensures
            attrs.id == id,
    {
        AttributeSet { id }
    }

    /// The overflow set, for use in contracts.
    pub open spec fn spec_overflow() -> Self {
        AttributeSet { id: STREAM_OVERFLOW_ID }
    }

    /// The set that takes up the measurements of attribute sets which a full
    /// stream no longer admits.
    #[verifier::when_used_as_spec(spec_overflow)]
    pub fn overflow() -> (attrs: Self)
        ensures
            attrs == Self::spec_overflow(),
    {
        AttributeSet { id: STREAM_OVERFLOW_ID }
    }
}

/// Whether a stream that tracks `size` attribute sets has room for one more
/// of its own: one place is kept for the overflow set.
pub open spec fn under_cardinality_limit(size: nat) -> bool {
    size < STREAM_CARDINALITY_LIMIT - 1
}

/// Checks whether a stream that tracks `size` attribute sets may admit a new
/// one.
pub fn is_under_cardinality_limit(size: usize) -> (under: bool)
    ensures
        under == under_cardinality_limit(size as nat),
{
    size < STREAM_CARDINALITY_LIMIT - 1
}

} // verus!
