//! The state of a sensor beam.

use crate::polar::PolarVec3;
use crate::timeseries::{Active, TimeSeries};
use vstd::prelude::*;

verus! {

/// Where one beam points, how wide it is, and which of the sensor's
/// beams it is.
#[derive(Clone, Copy, Debug, PartialEq)]
pub struct BeamState<S> {
    pub width: S,
    pub target: PolarVec3<S>,
    pub index: usize,
}

/// One beam as the replay holds it: what it shows now, its whole history,
/// and whether it is live.
pub struct BeamBundle<S> {
    pub state: BeamState<S>,
    pub history: TimeSeries<BeamState<S>>,
    pub active: Active,
}

} // verus!
