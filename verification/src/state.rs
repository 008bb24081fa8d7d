//! The kinematic state of a tracked entity.

use crate::polar::Vec3;
use vstd::prelude::*;

verus! {

/// Position and velocity in display axes.
#[derive(Clone, Copy, Debug, PartialEq)]
pub struct State<S> {
    pub pos: Vec3<S>,
    pub vel: Vec3<S>,
}

impl<S: Copy> State<S> {
    pub fn new(pos: Vec3<S>, vel: Vec3<S>) -> (state: Self)
        ensures
            state == (State { pos, vel }),
    {
        State { pos, vel }
    }

    /// This state moved to `(x, y, z)`, velocity unchanged.
    pub fn with_xyz(self, x: S, y: S, z: S) -> (state: Self)
        ensures
            state.pos == (Vec3 { x, y, z }),
            state.vel == self.vel,
    {
        State { pos: Vec3 { x, y, z }, vel: self.vel }
    }

    /// This state with velocity `(x, y, z)`, position unchanged.
    pub fn with_vel(self, x: S, y: S, z: S) -> (state: Self)
        ensures
            state.pos == self.pos,
            state.vel == (Vec3 { x, y, z }),
    {
        State { pos: self.pos, vel: Vec3 { x, y, z } }
    }
}

} // verus!
