use raymarching::fixed::ONE;
use raymarching::light::Light;
use raymarching::math::Vector3f;
use raymarching::model::{Model, Shape};
use raymarching::prelude::Ray;
use raymarching::raymarching::{calc_normal, in_shadow, raymarch, Outcome};
use raymarching::scene::Scene;
use raymarching::shader::new_shader;

fn sphere_scene() -> Scene {
    let mut scene = Scene::new(64, 64);
    scene.models.push(Model::new(
        Shape::Sphere { radius: 500_000 },
        new_shader(Vector3f::new(ONE, 0, 0), 800_000, 100_000),
        Vector3f::zero(),
    ));
    scene.lights.push(Light::new(
        Vector3f::new(8 * ONE, 2 * ONE, -10 * ONE),
        ONE,
        Vector3f::new(ONE, ONE, ONE),
    ));
    scene
}

#[test]
fn ray_at_sphere_hits_at_its_near_side() {
    let scene = sphere_scene();
    let ray = Ray::new(Vector3f::new(0, 0, 5 * ONE), Vector3f::new(0, 0, -ONE));
    let end = raymarch(&scene, &ray);
    assert_eq!(end.outcome, Outcome::Hit);
    assert!((end.surface.distance - 4_500_000).abs() <= scene.precision);
    assert!(end.steps < scene.max_steps);
    assert!(end.surface.appearance.is_some());
    assert_eq!(end.surface.distance, 4_500_000);
    assert_eq!(end.steps, 2);
}

#[test]
fn ray_past_all_geometry_misses() {
    let scene = sphere_scene();
    let ray = Ray::new(Vector3f::new(0, 0, 5 * ONE), Vector3f::new(0, ONE, 0));
    let end = raymarch(&scene, &ray);
    assert_eq!(end.outcome, Outcome::Miss);
    assert!(end.surface.distance > scene.max_distance);
    assert!(end.steps < scene.max_steps);
}

#[test]
fn ray_through_empty_scene_misses_at_once() {
    let scene = Scene::new(8, 8);
    let ray = Ray::new(Vector3f::new(0, 0, 5 * ONE), Vector3f::new(0, 0, -ONE));
    let end = raymarch(&scene, &ray);
    assert_eq!(end.outcome, Outcome::Miss);
    assert_eq!(end.surface.distance, i64::MAX);
    assert_eq!(end.steps, 1);
    assert!(end.surface.appearance.is_none());
}

#[test]
fn march_without_steps_misses_where_it_starts() {
    let mut scene = sphere_scene();
    scene.max_steps = 0;
    scene.min_distance = 250_000;
    let ray = Ray::new(Vector3f::new(0, 0, 5 * ONE), Vector3f::new(0, 0, -ONE));
    let end = raymarch(&scene, &ray);
    assert_eq!(end.outcome, Outcome::Miss);
    assert_eq!(end.surface.distance, 250_000);
    assert_eq!(end.steps, 0);
}

#[test]
fn march_that_runs_out_of_steps_misses() {
    let mut scene = sphere_scene();
    scene.max_steps = 1;
    let ray = Ray::new(Vector3f::new(0, 0, 5 * ONE), Vector3f::new(0, 0, -ONE));
    let end = raymarch(&scene, &ray);
    assert_eq!(end.outcome, Outcome::Miss);
    assert_eq!(end.surface.distance, 4_500_000);
    assert_eq!(end.steps, 1);
}

fn angle_in_degrees(a: &Vector3f, b: &Vector3f) -> f64 {
    let dot = (a.x as f64) * (b.x as f64) + (a.y as f64) * (b.y as f64) + (a.z as f64) * (b.z as f64);
    let la = ((a.x as f64).powi(2) + (a.y as f64).powi(2) + (a.z as f64).powi(2)).sqrt();
    let lb = ((b.x as f64).powi(2) + (b.y as f64).powi(2) + (b.z as f64).powi(2)).sqrt();
    (dot / (la * lb)).clamp(-1.0, 1.0).acos().to_degrees()
}

#[test]
fn normal_on_sphere_points_outwards() {
    let scene = sphere_scene();
    let points = [
        Vector3f::new(500_000, 0, 0),
        Vector3f::new(0, -500_000, 0),
        Vector3f::new(0, 0, 500_000),
        Vector3f::new(300_000, 400_000, 0),
        Vector3f::new(288_675, 288_675, 288_675),
        Vector3f::new(-100_000, 200_000, -447_214),
    ];
    for p in points.iter() {
        let n = calc_normal(&scene, p);
        let angle = angle_in_degrees(&n, p);
        assert!(angle < 1.0);
        let len = n.magnitude();
        assert!((len - ONE).abs() <= 4);
    }
}

#[test]
fn normal_on_the_axis_is_exact() {
    let scene = sphere_scene();
    let n = calc_normal(&scene, &Vector3f::new(0, 0, 500_000));
    assert_eq!(n, Vector3f::new(0, 0, ONE));
}

#[test]
fn far_side_of_sphere_is_in_shadow() {
    let mut scene = sphere_scene();
    scene.lights.clear();
    let light = Light::new(Vector3f::new(0, 0, -10 * ONE), ONE, Vector3f::new(ONE, ONE, ONE));
    let near = Vector3f::new(0, 0, 500_000);
    let far = Vector3f::new(0, 0, -500_000);
    assert!(in_shadow(&scene, &near, &Vector3f::new(0, 0, ONE), &light));
    assert!(!in_shadow(&scene, &far, &Vector3f::new(0, 0, -ONE), &light));
}

#[test]
fn light_beyond_the_scene_casts_no_shadow_by_a_miss() {
    let mut scene = sphere_scene();
    scene.models.clear();
    scene.models.push(Model::new(
        Shape::Sphere { radius: ONE },
        new_shader(Vector3f::new(ONE, 0, 0), 800_000, 100_000),
        Vector3f::zero(),
    ));
    // The march from the top of the sphere towards a light far above it
    // leaves the scene and misses: the point is lit.
    let light = Light::new(Vector3f::new(0, 1_000 * ONE, 0), ONE, Vector3f::new(ONE, ONE, ONE));
    let top = Vector3f::new(0, ONE, 0);
    assert!(!in_shadow(&scene, &top, &Vector3f::new(0, ONE, 0), &light));
    // A march that runs out of steps has missed too.
    scene.max_steps = 3;
    let near = Light::new(Vector3f::new(0, 50 * ONE, 0), ONE, Vector3f::new(ONE, ONE, ONE));
    assert!(!in_shadow(&scene, &top, &Vector3f::new(0, ONE, 0), &near));
    // The foot of the sphere lies in the sphere's own shadow.
    scene.max_steps = 256;
    let foot = Vector3f::new(0, -ONE, 0);
    assert!(in_shadow(&scene, &foot, &Vector3f::new(0, -ONE, 0), &near));
}

#[test]
fn normal_of_any_sphere_is_within_a_degree_of_the_radius() {
    let centre = Vector3f::new(3 * ONE, -7 * ONE, 11 * ONE);
    let directions = [
        (1.0f64, 0.0f64, 0.0f64),
        (0.0, -1.0, 0.0),
        (0.6, 0.0, 0.8),
        (0.577, 0.577, 0.577),
        (-0.267, 0.534, -0.802),
        (0.999, 0.03, -0.02),
    ];
    for radius in [80_000i64, 100_000, 500_000, ONE, 37 * ONE, 1_000 * ONE] {
        let mut scene = Scene::new(8, 8);
        scene.models.push(Model::new(
            Shape::Sphere { radius },
            new_shader(Vector3f::new(ONE, 0, 0), ONE, 0),
            centre,
        ));
        for (dx, dy, dz) in directions.iter() {
            for off in [1.0f64, 0.9, 1.7] {
                let q = Vector3f::new(
                    (dx * off * radius as f64) as i64,
                    (dy * off * radius as f64) as i64,
                    (dz * off * radius as f64) as i64,
                );
                let n = calc_normal(&scene, &centre.add(&q));
                let dot = n.x as i128 * q.x as i128 + n.y as i128 * q.y as i128
                    + n.z as i128 * q.z as i128;
                let nn = n.x as i128 * n.x as i128 + n.y as i128 * n.y as i128
                    + n.z as i128 * n.z as i128;
                let qq = q.x as i128 * q.x as i128 + q.y as i128 * q.y as i128
                    + q.z as i128 * q.z as i128;
                assert!(dot > 0);
                assert!(10_000 * dot * dot >= 9_997 * nn * qq);
                assert!((n.magnitude() - ONE).abs() <= 4);
            }
        }
    }
}
