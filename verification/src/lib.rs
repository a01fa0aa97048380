//! An in-process metrics library: a registry of counters, gauges and
//! histograms with a recording API, point-in-time snapshots, and a
//! deterministic line-oriented text rendering of a snapshot.
//!
//! Gauge and histogram sample values are carried as 64-bit patterns; the
//! registry and renderer never interpret them numerically, so their storage
//! and rendering order are exact while numeric formatting of such values is
//! supplied by the caller at the exposition edge.
use vstd::prelude::*;

pub mod laws;
pub mod names;
pub mod recorder;
pub mod registry;
pub mod render;

verus! {

/// An error returned by a recording call.
#[derive(Clone, Copy, Debug, PartialEq, Eq, Structural)]
pub enum RecordError {
    /// The metric name is already bound to a different metric kind.
    RegistrationConflict,
}

} // verus!
