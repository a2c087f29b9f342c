//! Surfaces: a signed distance together with the appearance of the shape
//! that it was measured to, and the operators that combine two of them.
use vstd::prelude::*;
use crate::fixed::{lemma_mix_ends, max, max_spec, negate, negate_spec, Fixed, ONE};
use crate::math::Vector3f;
use crate::op::{
    lemma_weight_outside_band, bump_spec, smooth_intersection_spec, smooth_intersection_weight, smooth_intersection_weighted,
    smooth_subtraction_spec, smooth_subtraction_weight, smooth_subtraction_weighted,
    smooth_union_spec, smooth_union_weight, smooth_union_weighted, InvalidParameter,
};

verus! {

/// An appearance that can be blended with another of its kind.
pub trait Blend: Sized {
    /// The blend `self + (other - self) * t`: `self` at `t == 0` and
    /// `other` at `t == ONE`.
    spec fn blend_spec(self, other: Self, t: Fixed) -> Self;

    /// The blend of two appearances with weight `t`.
    fn blend(&self, other: &Self, t: Fixed) -> (r: Self)
        ensures
            r == self.blend_spec(*other, t),
    ;

    /// A blend with the weight nothing is the one appearance, and with the
    /// weight one the other.
    proof fn lemma_blend_ends(self, other: Self)
        ensures
            self.blend_spec(other, 0) == self,
            self.blend_spec(other, ONE) == other,
    ;
}

impl Blend for Vector3f {
    open spec fn blend_spec(self, other: Self, t: Fixed) -> Self {
        self.mix_spec(other, t)
    }

    fn blend(&self, other: &Self, t: Fixed) -> (r: Self) {
        self.mix(other, t)
    }

    proof fn lemma_blend_ends(self, other: Self) {
        lemma_mix_ends(self.x, other.x);
        lemma_mix_ends(self.y, other.y);
        lemma_mix_ends(self.z, other.z);
    }
}

/// What the scene is at a point: how far its boundary is, negative
/// inside a solid, and what the nearest shape looks like.
#[derive(Clone, Copy, Debug)]
pub struct Surface<A> {
    pub distance: Fixed,
    pub appearance: A,
}

impl<A> Surface<A> {
    /// The surface with the strictly smaller distance; `lhs` on a tie.
    pub open spec fn union_spec(lhs: Self, rhs: Self) -> Self {
        if rhs.distance < lhs.distance {
            rhs
        } else {
            lhs
        }
    }

    /// The negated larger distance, with the appearance of `lhs`.
    pub open spec fn subtraction_spec(lhs: Self, rhs: Self) -> Self {
        Surface {
            distance: negate_spec(max_spec(lhs.distance, rhs.distance)),
            appearance: lhs.appearance,
        }
    }

    /// The larger distance, with the appearance of `lhs`.
    pub open spec fn intersection_spec(lhs: Self, rhs: Self) -> Self {
        Surface { distance: max_spec(lhs.distance, rhs.distance), appearance: lhs.appearance }
    }

    /// The surface at the given distance that looks as given.
    pub fn new(distance: Fixed, appearance: A) -> (s: Self)
        ensures
            s == (Surface { distance, appearance }),
    {
        Surface { distance, appearance }
    }

    /// The union of two surfaces: the nearer one, and `lhs` where both are
    /// equally near.
    pub fn union(lhs: Self, rhs: Self) -> (s: Self)
        ensures
            s == Self::union_spec(lhs, rhs),
    {
        if rhs.distance < lhs.distance {
            return rhs;
        }
        lhs
    }

    /// The subtraction of two surfaces.
    pub fn subtraction(lhs: Self, rhs: Self) -> (s: Self)
        ensures
            s == Self::subtraction_spec(lhs, rhs),
    {
        Surface { distance: negate(max(lhs.distance, rhs.distance)), appearance: lhs.appearance }
    }

    /// The intersection of two surfaces.
    pub fn intersection(lhs: Self, rhs: Self) -> (s: Self)
        ensures
            s == Self::intersection_spec(lhs, rhs),
    {
        Surface { distance: max(lhs.distance, rhs.distance), appearance: lhs.appearance }
    }
}

impl<A: Blend> Surface<A> {
    /// The smooth union of the distances; the appearance of `rhs` blended
    /// towards that of `lhs` by the same weight.
    pub open spec fn smooth_union_spec(lhs: Self, rhs: Self, smoothness: Fixed) -> Self {
        Surface {
            distance: smooth_union_spec(lhs.distance, rhs.distance, smoothness),
            appearance: rhs.appearance.blend_spec(
                lhs.appearance,
                smooth_union_weight(lhs.distance, rhs.distance, smoothness),
            ),
        }
    }

    /// The smooth subtraction of the distances; the appearance of `rhs`
    /// blended towards that of `lhs` by the same weight.
    pub open spec fn smooth_subtraction_spec(lhs: Self, rhs: Self, smoothness: Fixed) -> Self {
        Surface {
            distance: smooth_subtraction_spec(lhs.distance, rhs.distance, smoothness),
            appearance: rhs.appearance.blend_spec(
                lhs.appearance,
                smooth_subtraction_weight(lhs.distance, rhs.distance, smoothness),
            ),
        }
    }

    /// The smooth intersection of the distances; the appearance of `rhs`
    /// blended towards that of `lhs` by the same weight.
    pub open spec fn smooth_intersection_spec(lhs: Self, rhs: Self, smoothness: Fixed) -> Self {
        Surface {
            distance: smooth_intersection_spec(lhs.distance, rhs.distance, smoothness),
            appearance: rhs.appearance.blend_spec(
                lhs.appearance,
                smooth_intersection_weight(lhs.distance, rhs.distance, smoothness),
            ),
        }
    }

    /// Where two surfaces are a band or more apart, their smooth union is
    /// their union: the nearer surface as it is.
    pub proof fn lemma_smooth_union_outside_band(lhs: Self, rhs: Self, smoothness: Fixed)
        requires
            smoothness > 0,
            rhs.distance - lhs.distance >= smoothness || lhs.distance - rhs.distance
                >= smoothness,
        ensures
            Self::smooth_union_spec(lhs, rhs, smoothness) == Self::union_spec(lhs, rhs),
    {
        lemma_weight_outside_band(rhs.distance - lhs.distance, smoothness);
        rhs.appearance.lemma_blend_ends(lhs.appearance);
        lemma_mix_ends(rhs.distance, lhs.distance);
        assert(bump_spec(smoothness, 0) == 0 && bump_spec(smoothness, ONE) == 0) by {
            assert(smoothness * 0 * (ONE - 0) == 0);
            assert(smoothness * ONE * (ONE - ONE) == 0) by (nonlinear_arith);
        }
    }

    /// Where two surfaces are a band or more apart, their smooth
    /// intersection is the farther surface as it is.
    pub proof fn lemma_smooth_intersection_outside_band(lhs: Self, rhs: Self, smoothness: Fixed)
        requires
            smoothness > 0,
            rhs.distance - lhs.distance >= smoothness || lhs.distance - rhs.distance
                >= smoothness,
        ensures
            Self::smooth_intersection_spec(lhs, rhs, smoothness) == if lhs.distance
                > rhs.distance {
                lhs
            } else {
                rhs
            },
    {
        lemma_weight_outside_band(-(rhs.distance - lhs.distance), smoothness);
        rhs.appearance.lemma_blend_ends(lhs.appearance);
        lemma_mix_ends(rhs.distance, lhs.distance);
        assert(bump_spec(smoothness, 0) == 0 && bump_spec(smoothness, ONE) == 0) by {
            assert(smoothness * 0 * (ONE - 0) == 0);
            assert(smoothness * ONE * (ONE - ONE) == 0) by (nonlinear_arith);
        }
    }

    /// The smooth union of two surfaces over a band `smoothness`, which
    /// must be positive.
    pub fn smooth_union(lhs: Self, rhs: Self, smoothness: Fixed) -> (r: Result<
        Self,
        InvalidParameter,
    >)
        ensures
            smoothness > 0 ==> r == Ok::<Self, InvalidParameter>(
                Self::smooth_union_spec(lhs, rhs, smoothness),
            ),
            smoothness <= 0 ==> r == Err::<Self, InvalidParameter>(InvalidParameter),
    {
        match smooth_union_weighted(lhs.distance, rhs.distance, smoothness) {
            Ok(dh) => Ok(
                Surface { distance: dh.0, appearance: rhs.appearance.blend(&lhs.appearance, dh.1) },
            ),
            Err(e) => Err(e),
        }
    }

    /// The smooth subtraction of two surfaces over a band `smoothness`,
    /// which must be positive.
    pub fn smooth_subtraction(lhs: Self, rhs: Self, smoothness: Fixed) -> (r: Result<
        Self,
        InvalidParameter,
    >)
        ensures
            smoothness > 0 ==> r == Ok::<Self, InvalidParameter>(
                Self::smooth_subtraction_spec(lhs, rhs, smoothness),
            ),
            smoothness <= 0 ==> r == Err::<Self, InvalidParameter>(InvalidParameter),
    {
        match smooth_subtraction_weighted(lhs.distance, rhs.distance, smoothness) {
            Ok(dh) => Ok(
                Surface { distance: dh.0, appearance: rhs.appearance.blend(&lhs.appearance, dh.1) },
            ),
            Err(e) => Err(e),
        }
    }

    /// The smooth intersection of two surfaces over a band `smoothness`,
    /// which must be positive.
    pub fn smooth_intersection(lhs: Self, rhs: Self, smoothness: Fixed) -> (r: Result<
        Self,
        InvalidParameter,
    >)
        ensures
            smoothness > 0 ==> r == Ok::<Self, InvalidParameter>(
                Self::smooth_intersection_spec(lhs, rhs, smoothness),
            ),
            smoothness <= 0 ==> r == Err::<Self, InvalidParameter>(InvalidParameter),
    {
        match smooth_intersection_weighted(lhs.distance, rhs.distance, smoothness) {
            Ok(dh) => Ok(
                Surface { distance: dh.0, appearance: rhs.appearance.blend(&lhs.appearance, dh.1) },
            ),
            Err(e) => Err(e),
        }
    }
}

} // verus!
