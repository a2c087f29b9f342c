//! The primitive shapes. Each maps a point, in the shape's own
//! coordinates, to the surface of the shape as seen from that point.
use vstd::prelude::*;
use crate::fixed::{
    is_isqrt, lemma_isqrt_is_root, lemma_sine_bounds, lemma_times_within_unit, narrow, plus,
    plus_spec, sat, sine, sine_spec, times, times_spec, Fixed, ONE,
};
use crate::math::{Vector2f, Vector3f};
use crate::surface::Surface;

verus! {

/// The distance from `position` to a sphere of the given radius about the
/// origin: `|position| - radius`.
pub open spec fn sphere_distance(position: Vector3f, radius: Fixed) -> Fixed {
    sat(position.norm_spec() - radius)
}

/// The point of the torus' cross-section that `position` falls on: its
/// distance from the ring of radius `ring` in the plane `y == 0`, and its
/// height.
pub open spec fn torus_section(position: Vector3f, ring: Fixed) -> Vector2f {
    Vector2f {
        x: sat((Vector2f { x: position.x, y: position.z }).norm_spec() - ring),
        y: position.y,
    }
}

/// The distance from `position` to a torus about the `y` axis, where
/// `size.x` is the radius of the ring and `size.y` that of the tube.
pub open spec fn torus_distance(position: Vector3f, size: Vector2f) -> Fixed {
    sat(torus_section(position, size.x).norm_spec() - size.y)
}

/// The distance from `position` to the horizontal plane at `height`.
pub open spec fn floor_distance(position: Vector3f, height: Fixed) -> Fixed {
    sat(position.y - height)
}

/// The bumps that a displacement raises at `position`: the product
/// `sin(x a) sin(y a) sin(z a)` of the sines of the position's coordinates
/// times `amplitude`.
pub open spec fn displacement(position: Vector3f, amplitude: Fixed) -> Fixed {
    times_spec(
        times_spec(
            sine_spec(times_spec(position.x, amplitude)),
            sine_spec(times_spec(position.y, amplitude)),
        ),
        sine_spec(times_spec(position.z, amplitude)),
    )
}

/// The bumps of a displacement are at most one high and one deep.
pub proof fn lemma_displacement_bounds(position: Vector3f, amplitude: Fixed)
    ensures
        -ONE <= displacement(position, amplitude) <= ONE,
{
    let sx = sine_spec(times_spec(position.x, amplitude));
    let sy = sine_spec(times_spec(position.y, amplitude));
    let sz = sine_spec(times_spec(position.z, amplitude));
    lemma_sine_bounds(times_spec(position.x, amplitude));
    lemma_sine_bounds(times_spec(position.y, amplitude));
    lemma_sine_bounds(times_spec(position.z, amplitude));
    lemma_times_within_unit(sx, sy);
    lemma_times_within_unit(times_spec(sx, sy), sz);
}

/// The distance to a sphere is the length of the position, rounded down
/// to a millionth, less the radius, as long as that is a `Fixed`.
pub proof fn lemma_sphere_distance(position: Vector3f, radius: Fixed)
    requires
        i64::MIN <= position.norm_spec() - radius <= i64::MAX,
    ensures
        is_isqrt(
            position.x * position.x + position.y * position.y + position.z * position.z,
            sphere_distance(position, radius) + radius,
        ),
{
    let n = position.x * position.x + position.y * position.y + position.z * position.z;
    assert(n >= 0) by (nonlinear_arith)
        requires
            n == position.x * position.x + position.y * position.y + position.z * position.z,
    ;
    lemma_isqrt_is_root(n);
}

/// A sphere of the given radius about the origin.
pub fn sphere<A>(position: Vector3f, radius: Fixed, appearance: A) -> (s: Surface<A>)
    ensures
        s == (Surface { distance: sphere_distance(position, radius), appearance }),
{
    Surface::new(narrow(position.norm() as i128 - radius as i128), appearance)
}

/// A torus about the `y` axis: `size.x` is the radius of its ring and
/// `size.y` that of its tube.
pub fn torus<A>(position: Vector3f, size: Vector2f, appearance: A) -> (s: Surface<A>)
    ensures
        s == (Surface { distance: torus_distance(position, size), appearance }),
{
    let around: Vector2f = Vector2f::new(position.x, position.z);
    let q: Vector2f = Vector2f::new(
        narrow(around.norm() as i128 - size.x as i128),
        position.y,
    );
    Surface::new(narrow(q.norm() as i128 - size.y as i128), appearance)
}

/// The horizontal plane at `height`, solid below.
pub fn floor<A>(position: Vector3f, height: Fixed, appearance: A) -> (s: Surface<A>)
    ensures
        s == (Surface { distance: floor_distance(position, height), appearance }),
{
    Surface::new(narrow(position.y as i128 - height as i128), appearance)
}

/// A surface with bumps raised on it: the surface's distance plus the
/// displacement at `position`. What comes out may be farther than the
/// bumped shape is, so a march along it may step through the shape.
pub fn displace<A>(base: Surface<A>, position: Vector3f, amplitude: Fixed) -> (s: Surface<A>)
    ensures
        s == (Surface {
            distance: plus_spec(base.distance, displacement(position, amplitude)),
            appearance: base.appearance,
        }),
{
    let sx: Fixed = sine(times(position.x, amplitude));
    let sy: Fixed = sine(times(position.y, amplitude));
    let sz: Fixed = sine(times(position.z, amplitude));
    Surface::new(plus(base.distance, times(times(sx, sy), sz)), base.appearance)
}

} // verus!
