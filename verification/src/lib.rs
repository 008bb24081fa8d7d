//! Replay core for recorded tracking scenarios: a steerable playback clock,
//! per-entity time series with liveness lookup, and ingestion of step-major
//! recordings into entity-major histories.

use vstd::prelude::*;

pub mod beam;
pub mod data;
pub mod lines;
pub mod polar;
pub mod state;
pub mod text;
pub mod timeseries;
pub mod ui;

verus! {

/// The display frame that consumers of the replay state draw in.
#[derive(Clone, Copy, Debug, PartialEq, Eq, Structural)]
pub enum RenderMode {
    /// Entities are placed by their raw (azimuth, elevation, range) components.
    Spherical,
    /// Entities are placed by their Cartesian position.
    Cartesian,
}

} // verus!
