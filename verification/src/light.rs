//! Point lights.
use vstd::prelude::*;
use crate::fixed::Fixed;
use crate::math::Vector3f;

verus! {

/// A point light. Its intensity does not fall off with distance.
#[derive(Clone, Copy, Debug)]
pub struct Light {
    pub position: Vector3f,
    pub intensity: Fixed,
    pub color: Vector3f,
}

impl Light {
    /// A light at `position` of the given intensity and colour.
    pub fn new(position: Vector3f, intensity: Fixed, color: Vector3f) -> (l: Self)
        ensures
            l == (Light { position, intensity, color }),
    {
        Light { position, intensity, color }
    }
}

} // verus!
