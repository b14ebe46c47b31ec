//! Age-based retention for time-partitioned index names.
//!
//! Index names carry a date after a fixed prefix, either a calendar month
//! (`logs-2024-06`, `logs-2024.06`) or an ISO week (`logs-2024-23`). The library
//! parses a retention threshold such as `25m`, recognises dated names, converts
//! each date into whole months before a reference month, and builds the ordered
//! list of names that are at least as old as the threshold.
use vstd::prelude::*;

pub mod calendar;
pub mod pattern;
pub mod selection;
pub mod text;
pub mod threshold;

verus! {

} // verus!
