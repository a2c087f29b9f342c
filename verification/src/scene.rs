//! The scene: what is rendered, from where, and how finely.
use vstd::prelude::*;
use crate::fixed::{floor_div_wide, narrow, sat, Fixed, ONE};
use crate::light::Light;
use crate::math::{Vector2f, Vector3f};
use crate::model::Model;
use crate::raymarching::{get_pixel_color, pixel_color_spec};
use crate::surface::Surface;

verus! {

/// What a ray sees that misses all models.
#[derive(Clone, Copy, Debug)]
pub enum Background {
    /// One colour all over.
    Plain { color: Vector3f },
    /// A colour that changes with the height in the view: `low` blended
    /// towards `high` by the view's `y` coordinate, times `gain`.
    Gradient { low: Vector3f, high: Vector3f, gain: Fixed },
}

impl Background {
    /// The colour of the background at the view coordinates `uv`.
    pub open spec fn color_spec(self, uv: Vector2f) -> Vector3f {
        match self {
            Background::Plain { color } => color,
            Background::Gradient { low, high, gain } => low.mix_spec(high, uv.y).scale_spec(gain),
        }
    }

    /// The colour of the background at the view coordinates `uv`.
    pub fn color(&self, uv: &Vector2f) -> (c: Vector3f)
        ensures
            c == self.color_spec(*uv),
    {
        match self {
            Background::Plain { color } => *color,
            Background::Gradient { low, high, gain } => low.mix(high, uv.y).scale(*gain),
        }
    }
}

/// Everything that a render reads. A scene does not change while it is
/// rendered.
pub struct Scene {
    /// Where the rays start. The camera looks down the negative `z` axis.
    pub camera: Vector3f,
    /// The width of the image in pixels.
    pub width: u32,
    /// The height of the image in pixels.
    pub height: u32,
    /// The models, in the order in which equally near ones win.
    pub models: Vec<Model>,
    pub lights: Vec<Light>,
    /// The depth at which a march starts.
    pub min_distance: Fixed,
    /// The depth beyond which a march has missed.
    pub max_distance: Fixed,
    /// The distance below which a march has hit.
    pub precision: Fixed,
    /// The number of steps after which a march gives up.
    pub max_steps: u32,
    /// Half the edge of the cube whose corners the normal is sampled at.
    pub epsilon: Fixed,
    /// What a pixel shows whose ray misses.
    pub background: Background,
}

/// The view coordinates of the pixel `(x, y)` of an image: the pixel's
/// offset from the centre of the image over the image's height, with `y`
/// pointing up. An image without rows has no pixels; its view coordinates
/// are those of the centre.
pub open spec fn pixel_uv_spec(x: u32, y: u32, width: u32, height: u32) -> Vector2f {
    if height == 0 {
        Vector2f { x: 0, y: 0 }
    } else {
        Vector2f {
            x: sat((2 * x - width) * ONE / (2 * height)),
            y: sat((height - 2 * y) * ONE / (2 * height)),
        }
    }
}

/// The view coordinates of a pixel.
pub fn pixel_uv(x: u32, y: u32, width: u32, height: u32) -> (uv: Vector2f)
    ensures
        uv == pixel_uv_spec(x, y, width, height),
{
    if height == 0 {
        return Vector2f::new(0, 0);
    }
    let h: i128 = 2 * (height as i128);
    let u: i128 = (2 * (x as i128) - width as i128) * 1_000_000;
    let v: i128 = (height as i128 - 2 * (y as i128)) * 1_000_000;
    Vector2f::new(narrow(floor_div_wide(u, h)), narrow(floor_div_wide(v, h)))
}

impl Scene {
    /// The nearest of the given models as seen from `position`, the first
    /// of them among equally near ones. Where there is no model, the
    /// surface is as far as a surface can be and belongs to none.
    pub open spec fn surface_among(models: Seq<Model>, position: Vector3f) -> Surface<
        Option<Model>,
    >
        decreases models.len(),
    {
        if models.len() == 0 {
            Surface { distance: i64::MAX, appearance: None }
        } else {
            Surface::union_spec(
                Self::surface_among(models.drop_last(), position),
                models.last().surface_spec(position),
            )
        }
    }

    /// The scene function: the union of all models at `position`.
    pub open spec fn surface_spec(self, position: Vector3f) -> Surface<Option<Model>> {
        Self::surface_among(self.models@, position)
    }

    /// The colour of the pixel `(x, y)`: that of the scene at the pixel's
    /// view coordinates.
    pub open spec fn at_spec(self, x: u32, y: u32) -> Vector3f {
        pixel_color_spec(self, pixel_uv_spec(x, y, self.width, self.height))
    }

    /// The scene function gives the least of the models' distances, with
    /// the first model that is that near; where it belongs to no model,
    /// nothing is nearer than the farthest distance there is.
    pub proof fn lemma_surface_is_nearest(models: Seq<Model>, position: Vector3f)
        ensures
            ({
                let s = Self::surface_among(models, position);
                &&& forall|i: int|
                    0 <= i < models.len() ==> s.distance <= (#[trigger] models[i]).distance_spec(
                        position,
                    )
                &&& s.appearance is None ==> s.distance == i64::MAX
                &&& s.appearance matches Some(model) ==> exists|i: int|
                    {
                        &&& 0 <= i < models.len()
                        &&& #[trigger] models[i] == model
                        &&& model.distance_spec(position) == s.distance
                        &&& forall|j: int|
                            0 <= j < i ==> s.distance < (#[trigger] models[j]).distance_spec(
                                position,
                            )
                    }
            }),
        decreases models.len(),
    {
        if models.len() > 0 {
            let rest = models.drop_last();
            let before = Self::surface_among(rest, position);
            let s = Self::surface_among(models, position);
            Self::lemma_surface_is_nearest(rest, position);
            assert forall|i: int| 0 <= i < models.len() implies s.distance <= (#[trigger] models[i]).distance_spec(
                position,
            ) by {
                if i < rest.len() {
                    assert(rest[i] == models[i]);
                }
            }
            if models.last().distance_spec(position) < before.distance {
                let last = models.len() - 1;
                assert(models[last] == models.last());
                assert forall|j: int| 0 <= j < last implies s.distance < (#[trigger] models[j]).distance_spec(
                    position,
                ) by {
                    assert(rest[j] == models[j]);
                }
            } else if before.appearance is Some {
                let model = before.appearance->Some_0;
                let i = choose|i: int|
                    {
                        &&& 0 <= i < rest.len()
                        &&& #[trigger] rest[i] == model
                        &&& model.distance_spec(position) == before.distance
                        &&& forall|j: int|
                            0 <= j < i ==> before.distance < (#[trigger] rest[j]).distance_spec(
                                position,
                            )
                    };
                assert(models[i] == model);
                assert forall|j: int| 0 <= j < i implies s.distance < (#[trigger] models[j]).distance_spec(
                    position,
                ) by {
                    assert(rest[j] == models[j]);
                }
            }
        }
    }

    /// An empty scene for an image of the given size. The camera stands
    /// at `(0, 0, 5)`; a march starts at depth 0, takes up to 256 steps,
    /// hits within 0.001 and misses beyond 100; the normal is sampled
    /// 0.0005 away; the background is white.
    pub fn new(width: u32, height: u32) -> (s: Self)
        ensures
            s.width == width,
            s.height == height,
            s.camera == (Vector3f { x: 0, y: 0, z: 5_000_000 }),
            s.models@ == Seq::<Model>::empty(),
            s.lights@ == Seq::<Light>::empty(),
            s.min_distance == 0,
            s.max_distance == 100_000_000,
            s.precision == 1_000,
            s.max_steps == 256,
            s.epsilon == 500,
            s.background == (Background::Plain { color: Vector3f { x: ONE, y: ONE, z: ONE } }),
    {
        Scene {
            width,
            height,
            camera: Vector3f::new(0, 0, 5_000_000),
            models: Vec::new(),
            lights: Vec::new(),
            min_distance: 0,
            max_distance: 100_000_000,
            precision: 1_000,
            max_steps: 256,
            epsilon: 500,
            background: Background::Plain { color: Vector3f::new(ONE, ONE, ONE) },
        }
    }

    /// The scene function: the surface of the scene as seen from
    /// `position`.
    pub fn surface_at(&self, position: &Vector3f) -> (s: Surface<Option<Model>>)
        ensures
            s == self.surface_spec(*position),
    {
        let mut nearest: Surface<Option<Model>> = Surface::new(i64::MAX, None);
        let mut i: usize = 0;
        while i < self.models.len()
            invariant
                i <= self.models.len(),
                nearest == Self::surface_among(self.models@.take(i as int), *position),
            decreases self.models.len() - i,
        {
            assert(self.models@.take(i + 1).drop_last() == self.models@.take(i as int));
            nearest = Surface::union(nearest, self.models[i].surface(position));
            i = i + 1;
        }
        assert(self.models@.take(i as int) == self.models@);
        nearest
    }

    /// The colour of the pixel `(x, y)` of the image, where `(0, 0)` is
    /// the pixel at the top on the left.
    pub fn at(&self, x: u32, y: u32) -> (c: Vector3f)
        ensures
            c == self.at_spec(x, y),
    {
        let uv = pixel_uv(x, y, self.width, self.height);
        get_pixel_color(self, &uv)
    }
}

} // verus!
