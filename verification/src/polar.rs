//! Spherical and Cartesian value types, and the raw embedding of the one in
//! the other. The components are of any copyable scalar type: nothing here
//! computes with them.

use vstd::prelude::*;

verus! {

/// A Cartesian triple.
#[derive(Clone, Copy, Debug, PartialEq)]
pub struct Vec3<S> {
    pub x: S,
    pub y: S,
    pub z: S,
}

/// A direction and distance: range, and azimuth and elevation in radians.
#[derive(Clone, Copy, Debug, PartialEq)]
pub struct PolarVec3<S> {
    pub range: S,
    pub azimuth: S,
    pub elevation: S,
}

impl<S: Copy> Vec3<S> {
    pub fn new(x: S, y: S, z: S) -> (v: Self)
        ensures
            v == (Vec3 { x, y, z }),
    {
        Vec3 { x, y, z }
    }
}

impl<S: Copy> PolarVec3<S> {
    pub fn new(range: S, azimuth: S, elevation: S) -> (p: Self)
        ensures
            p == (PolarVec3 { range, azimuth, elevation }),
    {
        PolarVec3 { range, azimuth, elevation }
    }

    /// The components themselves as a Cartesian triple: azimuth on x,
    /// elevation on y, range on z. This is a relabelling of axes for the
    /// spherical display, with no trigonometry in it, and so it is not the
    /// inverse of the conversion from Cartesian to spherical coordinates.
    pub fn direct_vec3(&self) -> (v: Vec3<S>)
        ensures
            v.x == self.azimuth,
            v.y == self.elevation,
            v.z == self.range,
    {
        Vec3 { x: self.azimuth, y: self.elevation, z: self.range }
    }
}

} // verus!
