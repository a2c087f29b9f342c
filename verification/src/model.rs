//! Models: a shape, the way it is shaded, and where it stands.
use vstd::prelude::*;
use crate::fixed::Fixed;
use crate::light::Light;
use crate::math::{Vector2f, Vector3f};
use crate::prelude::Sdf;
use crate::sdf::{floor, floor_distance, sphere_distance, torus, torus_distance};
use crate::shader::Shader;
use crate::surface::Surface;

verus! {

/// The shapes that a model can have.
#[derive(Clone, Copy, Debug)]
pub enum Shape {
    /// A sphere about the origin.
    Sphere { radius: Fixed },
    /// A torus about the `y` axis, by the radii of its ring and its tube.
    Torus { size: Vector2f },
    /// The horizontal plane at `height`, solid below.
    Floor { height: Fixed },
}

impl Shape {
    /// The signed distance from `position` to the shape.
    pub open spec fn distance_spec(self, position: Vector3f) -> Fixed {
        match self {
            Shape::Sphere { radius } => sphere_distance(position, radius),
            Shape::Torus { size } => torus_distance(position, size),
            Shape::Floor { height } => floor_distance(position, height),
        }
    }

    /// The signed distance from `position` to the shape.
    pub fn distance(&self, position: &Vector3f) -> (d: Fixed)
        ensures
            d == self.distance_spec(*position),
    {
        match self {
            Shape::Sphere { radius } => Sdf::sphere(position, *radius),
            Shape::Torus { size } => torus(*position, *size, ()).distance,
            Shape::Floor { height } => floor(*position, *height, ()).distance,
        }
    }
}

/// A shape with its shader, moved from the origin to `position`.
#[derive(Clone, Copy, Debug)]
pub struct Model {
    pub sdf: Shape,
    pub shader: Shader,
    pub position: Vector3f,
}

impl Model {
    /// The signed distance from `position` to the model: that of its shape
    /// from the point in the model's own coordinates.
    pub open spec fn distance_spec(self, position: Vector3f) -> Fixed {
        self.sdf.distance_spec(position.sub_spec(self.position))
    }

    /// The colour that `light` gives to the point `position` of the model.
    pub open spec fn shade_spec(
        self,
        light: Light,
        normal: Vector3f,
        position: Vector3f,
        ray_dir: Vector3f,
        shadowed: bool,
    ) -> Vector3f {
        self.shader.shade_spec(
            light,
            normal,
            position.sub_spec(self.position),
            ray_dir,
            shadowed,
        )
    }

    /// The model as it is seen from `position`.
    pub open spec fn surface_spec(self, position: Vector3f) -> Surface<Option<Model>> {
        Surface { distance: self.distance_spec(position), appearance: Some(self) }
    }

    /// The model of the given shape and shader at `position`.
    pub fn new(sdf: Shape, shader: Shader, position: Vector3f) -> (m: Self)
        ensures
            m == (Model { sdf, shader, position }),
    {
        Model { sdf, shader, position }
    }

    /// The signed distance from `position` to the model.
    pub fn distance(&self, position: &Vector3f) -> (d: Fixed)
        ensures
            d == self.distance_spec(*position),
    {
        self.sdf.distance(&position.sub(&self.position))
    }

    /// The colour that `light` gives to a point of the model that is seen
    /// along `ray_dir`, in the shadow of the light or out of it.
    pub fn shade(
        &self,
        light: &Light,
        normal: Vector3f,
        position: Vector3f,
        ray_dir: Vector3f,
        shadowed: bool,
    ) -> (c: Vector3f)
        ensures
            c == self.shade_spec(*light, normal, position, ray_dir, shadowed),
    {
        self.shader.shade(light, normal, position.sub(&self.position), ray_dir, shadowed)
    }

    /// The model as it is seen from `position`.
    pub fn surface(&self, position: &Vector3f) -> (s: Surface<Option<Model>>)
        ensures
            s == self.surface_spec(*position),
    {
        Surface::new(self.distance(position), Some(*self))
    }
}

} // verus!
