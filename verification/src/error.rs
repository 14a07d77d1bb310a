//! Error conditions of the engine.

use vstd::prelude::*;

verus! {

/// What can go wrong while preparing or aggregating a dataset.
///
/// `MissingColumn` reports an input schema that lacks a required field.
/// `NoValidData` reports a record set that is empty after parsing and
/// filtering. `NoOverlappingTimeRange` reports a consolidation whose input
/// windows share no common span. `InvalidSkipTimeFormat` reports a
/// malformed skip-duration argument and carries the offending text.
/// `TimeParseError` reports a timestamp that the reading layer could not
/// interpret.
#[derive(Debug)]
pub enum PolarWarpError {
    MissingColumn(String),
    NoValidData,
    NoOverlappingTimeRange,
    InvalidSkipTimeFormat(String),
    TimeParseError(String),
}

} // verus!
