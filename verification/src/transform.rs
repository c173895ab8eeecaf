//! The affine-transform protocol shared by rays and primitives.

use crate::matrix::{Matrix4x4, M4};
use vstd::prelude::*;

verus! {

/// Applying a 4x4 matrix: defining points travel as homogeneous points
/// with weight `ONE`; surface normals by the inverse-transpose
/// convention.  Each implementor says when the transform is applicable
/// (its coordinates must stay representable) and what value it produces.
pub trait Transform: View + Sized {
    /// The machine-range conditions under which the transform may be
    /// applied.
    spec fn transform_pre(&self, m: M4) -> bool;

    /// The ghost image of the transformed value.
    spec fn transform_view(&self, m: M4) -> Self::V;

    /// Applies the transform in place.
    fn transform(&mut self, transformation: &Matrix4x4)
        requires
            old(self).transform_pre(transformation@),
        ensures
            final(self)@ == old(self).transform_view(transformation@),
    ;
}

} // verus!
