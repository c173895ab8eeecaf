//! Homogeneous four-component vectors, the bridge through which a 4x4
//! matrix acts on a 3D point.

use crate::fixed::ONE;
use crate::vec3::{fits, V3, Vec3};
use vstd::math::abs;
use vstd::prelude::*;

verus! {

/// Ghost image of a homogeneous vector.
pub struct V4 {
    pub x: int,
    pub y: int,
    pub z: int,
    pub w: int,
}

/// Every component has magnitude at most `m`.
pub open spec fn bounded4(a: V4, m: int) -> bool {
    abs(a.x) <= m && abs(a.y) <= m && abs(a.z) <= m && abs(a.w) <= m
}

/// A point extended with `w = ONE`, the homogeneous weight of an affine
/// point.
pub open spec fn from_v3(v: V3) -> V4 {
    V4 { x: v.x, y: v.y, z: v.z, w: ONE as int }
}

/// The spatial part of a homogeneous vector.
pub open spec fn to_v3(v: V4) -> V3 {
    V3 { x: v.x, y: v.y, z: v.z }
}

/// A homogeneous vector of fixed-point scalars.
#[derive(Copy, Clone, Debug, PartialEq, Eq, Structural)]
pub struct Vec4 {
    pub x: i128,
    pub y: i128,
    pub z: i128,
    pub w: i128,
}

impl View for Vec4 {
    type V = V4;

    open spec fn view(&self) -> V4 {
        V4 { x: self.x as int, y: self.y as int, z: self.z as int, w: self.w as int }
    }
}

impl Vec4 {
    pub fn new(x: i128, y: i128, z: i128, w: i128) -> (r: Vec4)
        ensures
            r@ == (V4 { x: x as int, y: y as int, z: z as int, w: w as int }),
    {
        Vec4 { x, y, z, w }
    }

    pub fn x(&self) -> (r: i128)
        ensures
            r == self@.x,
    {
        self.x
    }

    pub fn y(&self) -> (r: i128)
        ensures
            r == self@.y,
    {
        self.y
    }

    pub fn z(&self) -> (r: i128)
        ensures
            r == self@.z,
    {
        self.z
    }

    pub fn w(&self) -> (r: i128)
        ensures
            r == self@.w,
    {
        self.w
    }

    /// Extends a point with the homogeneous weight `ONE`.
    pub fn from_vec3(v: &Vec3) -> (r: Vec4)
        ensures
            r@ == from_v3(v@),
    {
        Vec4 { x: v.x, y: v.y, z: v.z, w: ONE }
    }

    /// Drops the homogeneous weight.
    pub fn to_vec3(&self) -> (r: Vec3)
        ensures
            r@ == to_v3(self@),
    {
        Vec3 { x: self.x, y: self.y, z: self.z }
    }

    /// The exact sum of the four components.
    pub fn sum(&self) -> (r: i128)
        requires
            fits(self@.x + self@.y),
            fits(self@.x + self@.y + self@.z),
            fits(self@.x + self@.y + self@.z + self@.w),
        ensures
            r == self@.x + self@.y + self@.z + self@.w,
    {
        self.x + self.y + self.z + self.w
    }
}

} // verus!
