//! Points in time, as the system clock gives them.

use vstd::prelude::*;
use std::time::SystemTime;

verus! {

/// `std::time::SystemTime`, carried through as an opaque value.
#[verifier::external_type_specification]
#[verifier::external_body]
pub struct ExSystemTime(SystemTime);

/// Reads the system clock with `SystemTime::now`. Nothing is claimed of the
/// time that comes back.
#[verifier::external_body]
pub(crate) fn now() -> (t: SystemTime) {
    SystemTime::now()
}

} // verus!
