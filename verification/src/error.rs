//! The process-wide sink for errors that must not fail the caller.

use vstd::prelude::*;
use opentelemetry::global;
use opentelemetry::metrics::MetricsError;

verus! {

/// Hands a warning to `opentelemetry::global::handle_error`, as a
/// `MetricsError::Other` with the given text.
///
/// The global handler passes the error to the handler that the process has
/// installed, or writes it to standard error where there is none. The call
/// comes back when that handler does. It gives no result, and nothing is
/// claimed of what the handler does with the error.
#[verifier::external_body]
pub(crate) fn warn(message: &str) {
    global::handle_error(MetricsError::Other(message.into()));
}

} // verus!
