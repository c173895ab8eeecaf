//! The record of a successful ray-primitive hit.

use crate::vec3::{V3, Vec3};
use vstd::prelude::*;

verus! {

/// Ghost image of a hit record.
pub struct IntersectionV {
    pub t: int,
    pub point: V3,
    pub normal: V3,
}

/// A hit: the distance along the ray, the world-space hit point, and the
/// world-space surface normal.
#[derive(Copy, Clone, Debug, PartialEq, Eq, Structural)]
pub struct Intersection {
    pub t: i128,
    pub point: Vec3,
    pub normal: Vec3,
}

impl View for Intersection {
    type V = IntersectionV;

    open spec fn view(&self) -> IntersectionV {
        IntersectionV { t: self.t as int, point: self.point@, normal: self.normal@ }
    }
}

impl Intersection {
    pub fn new(t: i128, point: Vec3, normal: Vec3) -> (r: Intersection)
        ensures
            r@ == (IntersectionV { t: t as int, point: point@, normal: normal@ }),
    {
        Intersection { t, point, normal }
    }
}

/// Relates an executable optional hit to its ghost image.
pub open spec fn opt_hit_view(o: Option<Intersection>) -> Option<IntersectionV> {
    match o {
        Some(i) => Some(i@),
        None => None,
    }
}

} // verus!
