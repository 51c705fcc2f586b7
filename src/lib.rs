//! Turns a directory listing of timestamped count snapshots into a
//! chronological, chart-ready series, and computes the chart's scales.
use vstd::prelude::*;

pub mod timestamp;
pub mod series;
pub mod metric;
pub mod chart;

verus! {

} // verus!
