//! Rays, materials and the small helpers of the shading code.
use vstd::prelude::*;
use crate::fixed::{
    clamp, clamp_spec, floor_div_wide, lemma_mix_ends, mix, mix_spec, narrow, plus, plus_spec,
    sat, times, times_spec, Fixed, ONE,
};
use crate::math::Vector3f;
use crate::sdf::sphere_distance;
use crate::surface::{Blend, Surface};

verus! {

/// A half-line: the points `origin + depth * direction` for `depth >= 0`.
/// The engine marches along rays whose direction has length one.
#[derive(Clone, Copy, Debug)]
pub struct Ray {
    pub origin: Vector3f,
    pub direction: Vector3f,
}

impl Ray {
    /// The point of the ray at the given depth.
    pub open spec fn at_spec(self, depth: Fixed) -> Vector3f {
        self.origin.add_spec(self.direction.scale_spec(depth))
    }

    /// The ray from `origin` along `direction`.
    pub fn new(origin: Vector3f, direction: Vector3f) -> (r: Self)
        ensures
            r == (Ray { origin, direction }),
    {
        Self { origin, direction }
    }

    /// The point of the ray at the given depth.
    pub fn at(&self, depth: Fixed) -> (p: Vector3f)
        ensures
            p == self.at_spec(depth),
    {
        self.origin.add(&self.direction.scale(depth))
    }
}

/// How a surface answers to light: what it gives off by itself, what it
/// scatters, what it mirrors, and how tight its highlights are.
#[derive(Clone, Copy, Debug)]
pub struct Material {
    pub ambient: Vector3f,
    pub diffuse: Vector3f,
    pub specular: Vector3f,
    /// The exponent of the highlight.
    pub shininess: Fixed,
}

/// Which square of the unit checkerboard in the plane `y == 0` lies under
/// `position`: 0 on the squares whose whole coordinates sum to an even
/// number, 1 on the others where that sum is positive, -1 where it is
/// negative.
pub open spec fn checker_parity(position: Vector3f) -> int {
    let s = position.x / ONE + position.z / ONE;
    if s % 2 == 0 {
        0
    } else if s > 0 {
        1
    } else {
        -1
    }
}

impl Material {
    /// The checkerboard's material at `position`: an ambient grey of
    /// `(1 + 0.7 * parity) * 0.3`, a scattering of `0.3`, no highlight.
    pub open spec fn checkerboard_spec(position: Vector3f) -> Material {
        let a = ((ONE + 700_000 * checker_parity(position)) * 300_000 / (ONE as int)) as i64;
        Material {
            ambient: Vector3f { x: a, y: a, z: a },
            diffuse: Vector3f { x: 300_000, y: 300_000, z: 300_000 },
            specular: Vector3f { x: 0, y: 0, z: 0 },
            shininess: ONE,
        }
    }

    /// The material whose terms are all zero.
    pub open spec fn default_spec() -> Material {
        Material {
            ambient: Vector3f { x: 0, y: 0, z: 0 },
            diffuse: Vector3f { x: 0, y: 0, z: 0 },
            specular: Vector3f { x: 0, y: 0, z: 0 },
            shininess: 0,
        }
    }

    /// The material of the given terms.
    pub fn new(ambient: Vector3f, diffuse: Vector3f, specular: Vector3f, shininess: Fixed) -> (m:
        Self)
        ensures
            m == (Material { ambient, diffuse, specular, shininess }),
    {
        Self { ambient, diffuse, specular, shininess }
    }

    /// The material of a checkerboard floor under `position`.
    pub fn checkerboard(position: &Vector3f) -> (m: Self)
        ensures
            m == Self::checkerboard_spec(*position),
    {
        let s: i128 = floor_div_wide(position.x as i128, 1_000_000) + floor_div_wide(
            position.z as i128,
            1_000_000,
        );
        let a: Fixed = if floor_div_wide(s, 2) * 2 == s {
            300_000
        } else if s > 0 {
            510_000
        } else {
            90_000
        };
        Self {
            ambient: Vector3f::new(a, a, a),
            diffuse: Vector3f::new(300_000, 300_000, 300_000),
            specular: Vector3f::zero(),
            shininess: ONE,
        }
    }
}

impl Default for Material {
    fn default() -> (m: Self)
        ensures
            m == Material::default_spec(),
    {
        Self {
            ambient: Vector3f::zero(),
            diffuse: Vector3f::zero(),
            specular: Vector3f::zero(),
            shininess: 0,
        }
    }
}

impl Blend for Material {
    open spec fn blend_spec(self, other: Self, t: Fixed) -> Self {
        Material {
            ambient: self.ambient.mix_spec(other.ambient, t),
            diffuse: self.diffuse.mix_spec(other.diffuse, t),
            specular: self.specular.mix_spec(other.specular, t),
            shininess: mix_spec(self.shininess, other.shininess, t),
        }
    }

    fn blend(&self, other: &Self, t: Fixed) -> (r: Self) {
        Material {
            ambient: self.ambient.mix(&other.ambient, t),
            diffuse: self.diffuse.mix(&other.diffuse, t),
            specular: self.specular.mix(&other.specular, t),
            shininess: mix(self.shininess, other.shininess, t),
        }
    }

    proof fn lemma_blend_ends(self, other: Self) {
        self.ambient.lemma_blend_ends(other.ambient);
        self.diffuse.lemma_blend_ends(other.diffuse);
        self.specular.lemma_blend_ends(other.specular);
        lemma_mix_ends(self.shininess, other.shininess);
    }
}

/// The signed distance functions on bare distances.
pub struct Sdf {}

impl Sdf {
    /// The distance from `position` to a sphere about the origin.
    pub fn sphere(position: &Vector3f, radius: Fixed) -> (d: Fixed)
        ensures
            d == sphere_distance(*position, radius),
    {
        narrow(position.norm() as i128 - radius as i128)
    }
}

/// The operators on surfaces.
pub struct Op {}

impl Op {
    /// The union of two surfaces: `b` where it is strictly nearer, else `a`.
    pub fn union<A>(a: Surface<A>, b: Surface<A>) -> (s: Surface<A>)
        ensures
            s == Surface::union_spec(a, b),
    {
        if b.distance < a.distance {
            return b;
        }
        a
    }
}

/// A colour of three bytes.
#[derive(Clone, Copy, Debug, PartialEq, Eq, Structural)]
pub struct Color {
    pub r: u8,
    pub g: u8,
    pub b: u8,
}

/// A channel as a byte: `floor(clamp(c, 0, 1) * 255)`.
pub open spec fn quantize_spec(c: Fixed) -> u8 {
    (clamp_spec(c, 0, ONE) * 255 / (ONE as int)) as u8
}

/// A colour as three bytes.
pub open spec fn rgb_spec(v: Vector3f) -> Color {
    Color { r: quantize_spec(v.x), g: quantize_spec(v.y), b: quantize_spec(v.z) }
}

/// The direction `in_dir` mirrored at a surface with normal `in_normal`:
/// `in_dir - 2 (in_dir . in_normal) in_normal`.
pub open spec fn reflect_spec(in_dir: Vector3f, in_normal: Vector3f) -> Vector3f {
    let factor = sat(-2 * in_dir.dot_spec(in_normal));
    Vector3f {
        x: plus_spec(times_spec(factor, in_normal.x), in_dir.x),
        y: plus_spec(times_spec(factor, in_normal.y), in_dir.y),
        z: plus_spec(times_spec(factor, in_normal.z), in_dir.z),
    }
}

/// Helpers of the shading code.
pub struct Utils {}

impl Utils {
    /// The direction `in_dir` mirrored at a surface with normal `in_normal`.
    pub fn reflect(in_dir: &Vector3f, in_normal: &Vector3f) -> (r: Vector3f)
        ensures
            r == reflect_spec(*in_dir, *in_normal),
    {
        let factor: Fixed = narrow(-2 * (in_dir.dot(in_normal) as i128));
        return Vector3f::new(
            plus(times(factor, in_normal.x), in_dir.x),
            plus(times(factor, in_normal.y), in_dir.y),
            plus(times(factor, in_normal.z), in_dir.z),
        )
    }

    /// A channel of a colour as a byte.
    pub fn quantize(c: Fixed) -> (q: u8)
        ensures
            q == quantize_spec(c),
    {
        let v: Fixed = clamp(c, 0, ONE);
        (v * 255 / 1_000_000) as u8
    }

    /// A colour as three bytes.
    pub fn rgb(v: &Vector3f) -> (c: Color)
        ensures
            c == rgb_spec(*v),
    {
        Color { r: Self::quantize(v.x), g: Self::quantize(v.y), b: Self::quantize(v.z) }
    }
}

} // verus!
