//! Sum aggregation for metric streams.
//!
//! Measurements are accumulated per attribute set in a table of bounded
//! cardinality and turned, at each collection, into a snapshot of data points
//! under delta or cumulative temporality.

pub mod attributes;
pub mod clock;
pub mod data;
pub mod error;
pub mod laws;
pub mod model;
pub mod number;
pub mod sum;
