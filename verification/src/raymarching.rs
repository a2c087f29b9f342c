//! Sphere tracing: the march along a ray, the normal at the point that it
//! ends in, the shadow test, and the colour of a pixel.
use vstd::prelude::*;
use crate::fixed::{narrow, plus, plus_spec, sat, Fixed, ONE};
use crate::light::Light;
use crate::math::{Vector2f, Vector3f};
use crate::model::Model;
use crate::prelude::Ray;
use crate::scene::Scene;
use crate::surface::Surface;

verus! {

/// How a march ended.
#[derive(Clone, Copy, Debug, PartialEq, Eq, Structural)]
pub enum Outcome {
    /// The ray came within the scene's precision of a surface.
    Hit,
    /// The ray went beyond the scene's maximal distance, or the march ran
    /// out of steps.
    Miss,
}

/// The end of a march.
#[derive(Clone, Copy, Debug)]
pub struct March {
    pub outcome: Outcome,
    /// The depth that the march reached along the ray, with the appearance
    /// that the scene had where it was last looked at.
    pub surface: Surface<Option<Model>>,
    /// The number of times that the scene was looked at.
    pub steps: u32,
}

/// The rest of a march that has reached `depth` in `taken` steps and saw
/// `appearance` last. Each step looks at the scene at the depth reached
/// and goes on by the distance found there. The march has missed once it
/// is beyond the maximal distance, and has hit once the distance found is
/// below the precision; after the last step it has missed.
pub open spec fn march_spec(
    scene: Scene,
    ray: Ray,
    depth: Fixed,
    appearance: Option<Model>,
    taken: nat,
) -> March
    decreases scene.max_steps - taken,
{
    if taken >= scene.max_steps {
        March {
            outcome: Outcome::Miss,
            surface: Surface { distance: depth, appearance },
            steps: taken as u32,
        }
    } else {
        let found = scene.surface_spec(ray.at_spec(depth));
        let next = plus_spec(depth, found.distance);
        if next > scene.max_distance {
            March {
                outcome: Outcome::Miss,
                surface: Surface { distance: next, appearance: found.appearance },
                steps: (taken + 1) as u32,
            }
        } else if found.distance < scene.precision {
            March {
                outcome: Outcome::Hit,
                surface: Surface { distance: next, appearance: found.appearance },
                steps: (taken + 1) as u32,
            }
        } else {
            march_spec(scene, ray, next, found.appearance, taken + 1)
        }
    }
}

/// The march along `ray` from the scene's minimal distance.
pub open spec fn raymarch_spec(scene: Scene, ray: Ray) -> March {
    march_spec(scene, ray, scene.min_distance, None, 0)
}

/// `c` moved by `epsilon`, up or down.
pub open spec fn nudge_spec(c: Fixed, epsilon: Fixed, up: bool) -> Fixed {
    if up {
        sat(c + epsilon)
    } else {
        sat(c - epsilon)
    }
}

/// The distance of the scene at one corner of the cube of half-edge
/// `epsilon` about `position`: the corner that lies up or down along each
/// axis.
pub open spec fn tap_spec(scene: Scene, position: Vector3f, x: bool, y: bool, z: bool) -> Fixed {
    scene.surface_spec(
        Vector3f {
            x: nudge_spec(position.x, scene.epsilon, x),
            y: nudge_spec(position.y, scene.epsilon, y),
            z: nudge_spec(position.z, scene.epsilon, z),
        },
    ).distance
}

/// The normal of the scene at `position`: the gradient of the distance,
/// from its values `d1 .. d4` at the corners `(+,-,-)`, `(-,-,+)`,
/// `(-,+,-)` and `(+,+,+)` of a cube of half-edge `epsilon`, which span a
/// tetrahedron. Corner `i` counts `d_i` times its signs; the common
/// factor `epsilon` is left out, since the sum is scaled to length one.
pub open spec fn normal_spec(scene: Scene, position: Vector3f) -> Vector3f {
    gradient_spec(scene, position).normalize_spec()
}

/// The gradient of the distance at `position`, before it is scaled to
/// length one: the sum of the four corners' signs, each times the
/// distance at its corner.
pub open spec fn gradient_spec(scene: Scene, position: Vector3f) -> Vector3f {
    let d1 = tap_spec(scene, position, true, false, false);
    let d2 = tap_spec(scene, position, false, false, true);
    let d3 = tap_spec(scene, position, false, true, false);
    let d4 = tap_spec(scene, position, true, true, true);
    Vector3f {
        x: sat(d1 - d2 - d3 + d4),
        y: sat(-d1 - d2 + d3 + d4),
        z: sat(-d1 + d2 - d3 + d4),
    }
}

/// Where the distance has a gradient, the normal is of length one within
/// four millionths.
pub proof fn lemma_normal_is_unit(scene: Scene, position: Vector3f)
    requires
        gradient_spec(scene, position) != (Vector3f { x: 0, y: 0, z: 0 }),
    ensures
        ({
            let n = normal_spec(scene, position);
            &&& (ONE - 4) * (ONE - 4) <= n.x * n.x + n.y * n.y + n.z * n.z
            &&& n.x * n.x + n.y * n.y + n.z * n.z <= (ONE + 4) * (ONE + 4)
        }),
{
    gradient_spec(scene, position).lemma_normalize_is_unit();
}

/// Whether the point `position` of a surface lies in the shadow of
/// `light`: a march from the point, lifted off the surface by twice the
/// precision along the normal, towards the light hits a surface before it
/// reaches the light. A march that misses casts no shadow.
pub open spec fn in_shadow_spec(
    scene: Scene,
    position: Vector3f,
    normal: Vector3f,
    light: Light,
) -> bool {
    let origin = position.add_spec(normal.scale_spec(sat(2 * scene.precision)));
    let direction = light.position.sub_spec(position).normalize_spec();
    let end = raymarch_spec(scene, Ray { origin, direction });
    end.outcome == Outcome::Hit && end.surface.distance < light.position.sub_spec(
        origin,
    ).magnitude_spec()
}

/// What the first `n` lights add up to at a point of `model`.
pub open spec fn lights_spec(
    scene: Scene,
    model: Model,
    normal: Vector3f,
    position: Vector3f,
    ray_dir: Vector3f,
    n: nat,
) -> Vector3f
    decreases n,
{
    if n == 0 {
        Vector3f { x: 0, y: 0, z: 0 }
    } else {
        let light = scene.lights@[n - 1];
        lights_spec(scene, model, normal, position, ray_dir, (n - 1) as nat).add_spec(
            model.shade_spec(
                light,
                normal,
                position,
                ray_dir,
                in_shadow_spec(scene, position, normal, light),
            ),
        )
    }
}

/// The ray from the camera through the view coordinates `uv`.
pub open spec fn camera_ray_spec(scene: Scene, uv: Vector2f) -> Ray {
    Ray {
        origin: scene.camera,
        direction: (Vector3f { x: uv.x, y: uv.y, z: (-ONE) as Fixed }).normalize_spec(),
    }
}

/// The colour that the scene has at the view coordinates `uv`: the
/// background where the ray from the camera misses, and else the sum of
/// what the lights give to the point that it hits.
pub open spec fn pixel_color_spec(scene: Scene, uv: Vector2f) -> Vector3f {
    let ray = camera_ray_spec(scene, uv);
    let end = raymarch_spec(scene, ray);
    match (end.outcome, end.surface.appearance) {
        (Outcome::Hit, Some(model)) => {
            let position = ray.at_spec(end.surface.distance);
            lights_spec(
                scene,
                model,
                normal_spec(scene, position),
                position,
                ray.direction,
                scene.lights@.len(),
            )
        },
        _ => scene.background.color_spec(uv),
    }
}

/// A march that ends beyond the maximal distance has missed, a march
/// that has hit ends within it, and no march takes more than the
/// scene's number of steps.
pub proof fn lemma_march_ends(
    scene: Scene,
    ray: Ray,
    depth: Fixed,
    appearance: Option<Model>,
    taken: nat,
)
    requires
        taken <= scene.max_steps,
    ensures
        ({
            let end = march_spec(scene, ray, depth, appearance, taken);
            &&& end.surface.distance > scene.max_distance ==> end.outcome == Outcome::Miss
            &&& end.outcome == Outcome::Hit ==> end.surface.distance <= scene.max_distance
            &&& taken <= end.steps <= scene.max_steps
            &&& end.outcome == Outcome::Miss && end.steps < scene.max_steps
                ==> end.surface.distance > scene.max_distance
        }),
    decreases scene.max_steps - taken,
{
    if taken < scene.max_steps {
        let found = scene.surface_spec(ray.at_spec(depth));
        let next = plus_spec(depth, found.distance);
        if next <= scene.max_distance && found.distance >= scene.precision {
            lemma_march_ends(scene, ray, next, found.appearance, taken + 1);
        }
    }
}

/// A march that has hit has hit a model.
pub proof fn lemma_hit_has_model(
    scene: Scene,
    ray: Ray,
    depth: Fixed,
    appearance: Option<Model>,
    taken: nat,
)
    ensures
        ({
            let end = march_spec(scene, ray, depth, appearance, taken);
            end.outcome == Outcome::Hit ==> end.surface.appearance is Some
        }),
    decreases scene.max_steps - taken,
{
    if taken < scene.max_steps {
        let position = ray.at_spec(depth);
        let found = scene.surface_spec(position);
        let next = plus_spec(depth, found.distance);
        Scene::lemma_surface_is_nearest(scene.models@, position);
        if next <= scene.max_distance && found.distance >= scene.precision {
            lemma_hit_has_model(scene, ray, next, found.appearance, taken + 1);
        }
    }
}

/// A march that stays out of reach of every surface from some depth at
/// or beyond the scene's minimal distance on misses.
pub proof fn lemma_march_misses(
    scene: Scene,
    ray: Ray,
    depth: Fixed,
    appearance: Option<Model>,
    taken: nat,
)
    requires
        scene.precision >= 0,
        depth >= scene.min_distance,
        forall|d: Fixed|
            d >= scene.min_distance ==> #[trigger] scene.surface_spec(ray.at_spec(d)).distance
                >= scene.precision,
    ensures
        march_spec(scene, ray, depth, appearance, taken).outcome == Outcome::Miss,
    decreases scene.max_steps - taken,
{
    if taken < scene.max_steps {
        let found = scene.surface_spec(ray.at_spec(depth));
        let next = plus_spec(depth, found.distance);
        if next <= scene.max_distance {
            lemma_march_misses(scene, ray, next, found.appearance, taken + 1);
        }
    }
}

/// A ray that meets nothing misses: where the scene is out of reach at
/// every depth from the minimal distance on, the march along the ray ends
/// in a miss, whether it leaves the scene or runs out of steps.
pub proof fn lemma_raymarch_misses(scene: Scene, ray: Ray)
    requires
        scene.precision >= 0,
        forall|d: Fixed|
            d >= scene.min_distance ==> #[trigger] scene.surface_spec(ray.at_spec(d)).distance
                >= scene.precision,
    ensures
        raymarch_spec(scene, ray).outcome == Outcome::Miss,
{
    lemma_march_misses(scene, ray, scene.min_distance, None, 0);
}

/// A ray that stays a stride away from all surfaces leaves the scene:
/// where the steps that are left cover what is left of the maximal
/// distance at that stride, the march ends beyond the maximal distance,
/// and has missed.
pub proof fn lemma_march_escapes(
    scene: Scene,
    ray: Ray,
    depth: Fixed,
    appearance: Option<Model>,
    taken: nat,
    stride: Fixed,
)
    requires
        taken <= scene.max_steps,
        stride > 0,
        stride >= scene.precision,
        scene.max_distance < i64::MAX,
        depth >= scene.min_distance,
        forall|d: Fixed|
            d >= scene.min_distance ==> #[trigger] scene.surface_spec(ray.at_spec(d)).distance
                >= stride,
        (scene.max_steps - taken) * stride > scene.max_distance - depth,
    ensures
        ({
            let end = march_spec(scene, ray, depth, appearance, taken);
            end.outcome == Outcome::Miss && end.surface.distance > scene.max_distance
        }),
    decreases scene.max_steps - taken,
{
    let left = scene.max_steps - taken;
    if taken < scene.max_steps {
        let found = scene.surface_spec(ray.at_spec(depth));
        let next = plus_spec(depth, found.distance);
        if next <= scene.max_distance {
            assert((left - 1) * stride == left * stride - stride) by (nonlinear_arith);
            lemma_march_escapes(scene, ray, next, found.appearance, taken + 1, stride);
        }
    } else {
        assert(left * stride == 0) by (nonlinear_arith)
            requires
                left == 0,
        ;
    }
}

/// Marches along `ray` through the scene.
pub fn raymarch(scene: &Scene, ray: &Ray) -> (end: March)
    ensures
        end == raymarch_spec(*scene, *ray),
{
    let mut depth: Fixed = scene.min_distance;
    let mut appearance: Option<Model> = None;
    let mut taken: u32 = 0;
    while taken < scene.max_steps
        invariant
            taken <= scene.max_steps,
            raymarch_spec(*scene, *ray) == march_spec(*scene, *ray, depth, appearance, taken as nat),
        decreases scene.max_steps - taken,
    {
        let found = scene.surface_at(&ray.at(depth));
        let next: Fixed = plus(depth, found.distance);
        taken = taken + 1;
        if next > scene.max_distance {
            return March {
                outcome: Outcome::Miss,
                surface: Surface { distance: next, appearance: found.appearance },
                steps: taken,
            };
        }
        if found.distance < scene.precision {
            return March {
                outcome: Outcome::Hit,
                surface: Surface { distance: next, appearance: found.appearance },
                steps: taken,
            };
        }
        depth = next;
        appearance = found.appearance;
    }
    March { outcome: Outcome::Miss, surface: Surface { distance: depth, appearance }, steps: taken }
}

/// `c` moved by `epsilon`, up or down.
fn nudge(c: Fixed, epsilon: Fixed, up: bool) -> (r: Fixed)
    ensures
        r == nudge_spec(c, epsilon, up),
{
    if up {
        narrow(c as i128 + epsilon as i128)
    } else {
        narrow(c as i128 - epsilon as i128)
    }
}

/// The distance of the scene at one corner of the cube about `position`.
fn tap(scene: &Scene, position: &Vector3f, x: bool, y: bool, z: bool) -> (d: Fixed)
    ensures
        d == tap_spec(*scene, *position, x, y, z),
{
    let corner = Vector3f::new(
        nudge(position.x, scene.epsilon, x),
        nudge(position.y, scene.epsilon, y),
        nudge(position.z, scene.epsilon, z),
    );
    scene.surface_at(&corner).distance
}

/// The normal of the scene at `position`.
pub fn calc_normal(scene: &Scene, position: &Vector3f) -> (n: Vector3f)
    ensures
        n == normal_spec(*scene, *position),
{
    let d1: i128 = tap(scene, position, true, false, false) as i128;
    let d2: i128 = tap(scene, position, false, false, true) as i128;
    let d3: i128 = tap(scene, position, false, true, false) as i128;
    let d4: i128 = tap(scene, position, true, true, true) as i128;
    let gradient = Vector3f::new(
        narrow(d1 - d2 - d3 + d4),
        narrow(-d1 - d2 + d3 + d4),
        narrow(-d1 + d2 - d3 + d4),
    );
    gradient.normalize()
}

/// Whether `position` lies in the shadow of `light`.
pub fn in_shadow(scene: &Scene, position: &Vector3f, normal: &Vector3f, light: &Light) -> (b: bool)
    ensures
        b == in_shadow_spec(*scene, *position, *normal, *light),
{
    let lift: Fixed = narrow(2 * (scene.precision as i128));
    let origin = position.add(&normal.scale(lift));
    let direction = light.position.sub(position).normalize();
    let shadow = raymarch(scene, &Ray::new(origin, direction));
    shadow.outcome == Outcome::Hit && shadow.surface.distance < light.position.sub(
        &origin,
    ).magnitude()
}

/// The colour that the scene has at the view coordinates `uv`.
pub fn get_pixel_color(scene: &Scene, uv: &Vector2f) -> (c: Vector3f)
    ensures
        c == pixel_color_spec(*scene, *uv),
{
    let ray = Ray::new(scene.camera, Vector3f::new(uv.x, uv.y, -1_000_000).normalize());
    let end = raymarch(scene, &ray);
    match (end.outcome, end.surface.appearance) {
        (Outcome::Hit, Some(model)) => {
            let position = ray.at(end.surface.distance);
            let normal = calc_normal(scene, &position);
            let mut color = Vector3f::zero();
            let mut i: usize = 0;
            while i < scene.lights.len()
                invariant
                    i <= scene.lights.len(),
                    color == lights_spec(*scene, model, normal, position, ray.direction, i as nat),
                decreases scene.lights.len() - i,
            {
                let light = &scene.lights[i];
                let shadowed = in_shadow(scene, &position, &normal, light);
                color = color.add(&model.shade(light, normal, position, ray.direction, shadowed));
                i = i + 1;
            }
            color
        },
        _ => scene.background.color(uv),
    }
}

} // verus!
