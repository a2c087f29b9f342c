//! Local illumination: what colour a point of a surface has under one
//! light.
//!
//! A surface is shaded in one of two ways. The Phong model adds an
//! ambient, a diffuse and a specular term, which come from a [`Material`].
//! The plain model scatters a base colour and adds a share of it as
//! ambient light. Under both, a point in the shadow of a light keeps a
//! fifth of its diffuse term.
use vstd::prelude::*;
use crate::fixed::{power, power_spec, times, times_spec, Fixed, ONE};
use crate::light::Light;
use crate::math::Vector3f;
use crate::prelude::{reflect_spec, Material, Utils};

verus! {

/// The share of the diffuse term that is left in the shadow of a light.
pub const SHADOW_ATTENUATION: Fixed = 200_000;

/// `v` held within `[0, ONE]`.
pub open spec fn unit_spec(v: Fixed) -> Fixed {
    if v < 0 {
        0
    } else if v > ONE {
        ONE
    } else {
        v
    }
}

/// `num_traits::clamp`, as cgmath hands it on, on `i64`: `lo` where
/// `input < lo`, `hi` where `input > hi`, and `input` otherwise. It may
/// panic where `lo > hi`.
#[verifier::external_body]
fn clamp_between(input: i64, lo: i64, hi: i64) -> (r: i64)
    requires
        lo <= hi,
    ensures
        r == if input < lo {
            lo
        } else if input > hi {
            hi
        } else {
            input
        },
{
    cgmath::num_traits::clamp(input, lo, hi)
}

/// How to shade the surface of a model.
#[derive(Clone, Copy, Debug)]
pub enum Shader {
    /// Scatters `color` by `diffuse_factor` and adds `ambient_factor` of it.
    Diffuse { color: Vector3f, diffuse_factor: Fixed, ambient_factor: Fixed },
    /// The Phong model with one material all over.
    Phong { material: Material },
    /// The Phong model with the material of a checkerboard.
    Checkerboard,
}

/// The Phong colour of a point with the given material:
/// `ambient + diffuse * clamp(l . n, 0, 1)
///  + specular * clamp(reflect(l, n) . -v, 0, 1) ^ shininess`,
/// for the direction `l` to the light, the normal `n` and the direction
/// `v` of the ray that sees the point.
pub open spec fn phong_spec(
    light_dir: Vector3f,
    normal: Vector3f,
    ray_dir: Vector3f,
    material: Material,
) -> Vector3f {
    let ln = unit_spec(light_dir.dot_spec(normal));
    let rv = power_spec(
        unit_spec(reflect_spec(light_dir, normal).dot_spec(ray_dir.neg_spec())),
        material.shininess,
    );
    material.ambient.add_spec(material.diffuse.scale_spec(ln)).add_spec(
        material.specular.scale_spec(rv),
    )
}

/// The plain colour of a point: with the brightness `(l . n) * intensity`,
/// which may be negative, `color * light_color * brightness *
/// diffuse_factor + color * ambient_factor`.
pub open spec fn diffuse_spec(
    color: Vector3f,
    diffuse_factor: Fixed,
    ambient_factor: Fixed,
    light: Light,
    normal: Vector3f,
    position: Vector3f,
) -> Vector3f {
    let light_dir = light.position.sub_spec(position).normalize_spec();
    let brightness = times_spec(light_dir.dot_spec(normal), light.intensity);
    let light_color = light.color.scale_spec(brightness);
    color.mul_elements_spec(light_color).scale_spec(diffuse_factor).add_spec(
        color.scale_spec(ambient_factor),
    )
}

/// The material with the diffuse term that is left to it in a shadow.
pub open spec fn shadowed_material(material: Material, shadowed: bool) -> Material {
    if shadowed {
        Material { diffuse: material.diffuse.scale_spec(SHADOW_ATTENUATION), ..material }
    } else {
        material
    }
}

/// The Phong colour under `light`, weighted by the light's intensity.
pub open spec fn lit_phong_spec(
    material: Material,
    light: Light,
    normal: Vector3f,
    position: Vector3f,
    ray_dir: Vector3f,
    shadowed: bool,
) -> Vector3f {
    phong_spec(
        light.position.sub_spec(position).normalize_spec(),
        normal,
        ray_dir,
        shadowed_material(material, shadowed),
    ).scale_spec(light.intensity)
}

impl Shader {
    /// The colour that `light` gives to the point `position` of a surface
    /// with the given normal, seen along `ray_dir`.
    pub open spec fn shade_spec(
        self,
        light: Light,
        normal: Vector3f,
        position: Vector3f,
        ray_dir: Vector3f,
        shadowed: bool,
    ) -> Vector3f {
        match self {
            Shader::Diffuse { color, diffuse_factor, ambient_factor } => diffuse_spec(
                color,
                if shadowed {
                    times_spec(diffuse_factor, SHADOW_ATTENUATION)
                } else {
                    diffuse_factor
                },
                ambient_factor,
                light,
                normal,
                position,
            ),
            Shader::Phong { material } => lit_phong_spec(
                material,
                light,
                normal,
                position,
                ray_dir,
                shadowed,
            ),
            Shader::Checkerboard => lit_phong_spec(
                Material::checkerboard_spec(position),
                light,
                normal,
                position,
                ray_dir,
                shadowed,
            ),
        }
    }

    /// The colour that `light` gives to a point of the surface.
    pub fn shade(
        &self,
        light: &Light,
        normal: Vector3f,
        position: Vector3f,
        ray_dir: Vector3f,
        shadowed: bool,
    ) -> (c: Vector3f)
        ensures
            c == self.shade_spec(*light, normal, position, ray_dir, shadowed),
    {
        match self {
            Shader::Diffuse { color, diffuse_factor, ambient_factor } => {
                let factor: Fixed = if shadowed {
                    times(*diffuse_factor, SHADOW_ATTENUATION)
                } else {
                    *diffuse_factor
                };
                let light_dir = light.position.sub(&position).normalize();
                let brightness: Fixed = times(light_dir.dot(&normal), light.intensity);
                let light_color = light.color.scale(brightness);
                let diffuse = color.mul_elements(&light_color).scale(factor);
                diffuse.add(&color.scale(*ambient_factor))
            },
            Shader::Phong { material } => lit_phong(
                material,
                light,
                &normal,
                &position,
                &ray_dir,
                shadowed,
            ),
            Shader::Checkerboard => lit_phong(
                &Material::checkerboard(&position),
                light,
                &normal,
                &position,
                &ray_dir,
                shadowed,
            ),
        }
    }
}

/// The Phong colour under `light`, weighted by the light's intensity.
fn lit_phong(
    material: &Material,
    light: &Light,
    normal: &Vector3f,
    position: &Vector3f,
    ray_dir: &Vector3f,
    shadowed: bool,
) -> (c: Vector3f)
    ensures
        c == lit_phong_spec(*material, *light, *normal, *position, *ray_dir, shadowed),
{
    let seen: Material = if shadowed {
        Material {
            ambient: material.ambient,
            diffuse: material.diffuse.scale(SHADOW_ATTENUATION),
            specular: material.specular,
            shininess: material.shininess,
        }
    } else {
        *material
    };
    let light_dir = light.position.sub(position).normalize();
    phong(&light_dir, normal, ray_dir, &seen).scale(light.intensity)
}

/// The shader that scatters `color` by `diffuse_factor` and adds
/// `ambient_factor` of it as ambient light.
pub fn new_shader(color: Vector3f, diffuse_factor: Fixed, ambient_factor: Fixed) -> (s: Shader)
    ensures
        s == (Shader::Diffuse { color, diffuse_factor, ambient_factor }),
{
    Shader::Diffuse { color, diffuse_factor, ambient_factor }
}

/// The Phong colour of a point: its ambient, diffuse and specular terms
/// under one light.
pub fn phong(light_dir: &Vector3f, normal: &Vector3f, ray_dir: &Vector3f, material: &Material) -> (c:
    Vector3f)
    ensures
        c == phong_spec(*light_dir, *normal, *ray_dir, *material),
{
    let ln: Fixed = clamp_between(light_dir.dot(normal), 0, ONE);
    let diffuse = material.diffuse.scale(ln);
    let rv: Fixed = power(
        clamp_between(Utils::reflect(light_dir, normal).dot(&ray_dir.neg()), 0, ONE),
        material.shininess,
    );
    let specular = material.specular.scale(rv);
    material.ambient.add(&diffuse).add(&specular)
}

} // verus!
