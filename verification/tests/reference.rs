//! The engine against the same formulas in floating point.
use raymarching::fixed::ONE;
use raymarching::light::Light;
use raymarching::math::Vector3f;
use raymarching::model::{Model, Shape};
use raymarching::prelude::Material;
use raymarching::render::render;
use raymarching::scene::{Background, Scene};
use raymarching::shader::{new_shader, Shader};

type V = [f64; 3];

fn add(a: V, b: V) -> V {
    [a[0] + b[0], a[1] + b[1], a[2] + b[2]]
}

fn sub(a: V, b: V) -> V {
    [a[0] - b[0], a[1] - b[1], a[2] - b[2]]
}

fn scale(a: V, k: f64) -> V {
    [a[0] * k, a[1] * k, a[2] * k]
}

fn dot(a: V, b: V) -> f64 {
    a[0] * b[0] + a[1] * b[1] + a[2] * b[2]
}

fn length(a: V) -> f64 {
    dot(a, a).sqrt()
}

fn normalize(a: V) -> V {
    scale(a, 1.0 / length(a))
}

fn reflect(d: V, n: V) -> V {
    add(scale(n, -2.0 * dot(d, n)), d)
}

#[derive(Clone, Copy, PartialEq)]
enum Look {
    Checker,
    Lapis,
    Plain,
}

const PRECISION: f64 = 0.001;
const MAX_DISTANCE: f64 = 100.0;
const MAX_STEPS: u32 = 256;
const EPSILON: f64 = 0.0005;

struct Reference {
    shininess: f64,
    radius: f64,
    floor: Option<f64>,
    look: Look,
    lights: Vec<(V, f64)>,
    gradient: bool,
}

impl Reference {
    fn scene(&self, p: V) -> (f64, Look) {
        let ball = (length(p) - self.radius, self.look);
        match self.floor {
            Some(h) if p[1] - h <= ball.0 => (p[1] - h, Look::Checker),
            _ => ball,
        }
    }

    fn march(&self, origin: V, direction: V) -> (bool, f64, Look) {
        let mut depth = 0.0;
        for _ in 0..MAX_STEPS {
            let (d, look) = self.scene(add(origin, scale(direction, depth)));
            depth += d;
            if depth > MAX_DISTANCE {
                return (false, depth, look);
            }
            if d < PRECISION {
                return (true, depth, look);
            }
        }
        (false, depth, Look::Plain)
    }

    fn normal(&self, p: V) -> V {
        let e = EPSILON;
        let taps: [V; 4] = [[e, -e, -e], [-e, -e, e], [-e, e, -e], [e, e, e]];
        let mut n = [0.0; 3];
        for t in taps.iter() {
            n = add(n, scale(*t, self.scene(add(p, *t)).0));
        }
        normalize(n)
    }

    fn phong(l: V, n: V, v: V, ambient: V, diffuse: V, specular: V, shininess: f64) -> V {
        let ln = dot(l, n).clamp(0.0, 1.0);
        let rv = dot(reflect(l, n), scale(v, -1.0)).clamp(0.0, 1.0).powf(shininess);
        add(add(ambient, scale(diffuse, ln)), scale(specular, rv))
    }

    fn pixel(&self, x: u32, y: u32, width: u32, height: u32) -> [u8; 3] {
        let u = (x as f64 - 0.5 * width as f64) / height as f64;
        let v = ((height - y) as f64 - 0.5 * height as f64) / height as f64;
        let origin = [0.0, 0.0, 5.0];
        let direction = normalize([u, v, -1.0]);
        let (hit, depth, look) = self.march(origin, direction);
        let color = if !hit {
            if self.gradient {
                let low = [1.0, 0.341, 0.2];
                let high = [0.0, 1.0, 1.0];
                scale(add(low, scale(sub(high, low), v)), 1.6)
            } else {
                [1.0, 1.0, 1.0]
            }
        } else {
            let p = add(origin, scale(direction, depth));
            let n = self.normal(p);
            let mut sum = [0.0; 3];
            for (at, intensity) in self.lights.iter() {
                let l = normalize(sub(*at, p));
                let lifted = add(p, scale(n, 2.0 * PRECISION));
                let shadow = self.march(lifted, l);
                let shadowed = shadow.0 && shadow.1 < length(sub(*at, lifted));
                let dim = if shadowed { 0.2 } else { 1.0 };
                let one = match look {
                    Look::Lapis => Self::phong(
                        l,
                        n,
                        direction,
                        [0.0, 0.14902, 0.25098],
                        scale([0.14902, 0.380392, 0.611765], dim),
                        [1.0, 1.0, 1.0],
                        self.shininess,
                    ),
                    Look::Checker => {
                        let parity = ((p[0].floor() + p[2].floor()) % 2.0).round();
                        let a = (1.0 + 0.7 * parity) * 0.3;
                        Self::phong(l, n, direction, [a; 3], [0.3 * dim; 3], [0.0; 3], 1.0)
                    }
                    Look::Plain => {
                        let base = [1.0, 0.2, 0.2];
                        let brightness = dot(l, n) * intensity;
                        add(scale(base, brightness * 0.8 * dim), scale(base, 0.3))
                    }
                };
                sum = add(sum, if look == Look::Plain { one } else { scale(one, *intensity) });
            }
            sum
        };
        let byte = |c: f64| (c.clamp(0.0, 1.0) * 255.0).floor() as u8;
        [byte(color[0]), byte(color[1]), byte(color[2])]
    }
}

fn millionths(v: [f64; 3]) -> Vector3f {
    let f = |c: f64| (c * ONE as f64).round() as i64;
    Vector3f::new(f(v[0]), f(v[1]), f(v[2]))
}

/// The number of pixels whose bytes differ by more than two.
fn far_apart(scene: &Scene, reference: &Reference) -> usize {
    let frame = render(scene, 8).unwrap();
    let mut far = 0;
    for y in 0..scene.height {
        for x in 0..scene.width {
            let ours = frame.get_pixel(x, y);
            let theirs = reference.pixel(x, y, scene.width, scene.height);
            let apart = |a: u8, b: u8| (a as i32 - b as i32).abs() > 2;
            if apart(ours.r, theirs[0]) || apart(ours.g, theirs[1]) || apart(ours.b, theirs[2]) {
                far += 1;
            }
        }
    }
    far
}

#[test]
fn phong_scene_agrees_with_floating_point() {
    let lights = vec![([8.0, 2.0, -10.0], 0.9), ([1.0, 1.0, 1.0], 0.5), ([1.0, 2.0, 10.0], 0.5)];
    let reference =
        Reference { shininess: 6.5, radius: 1.0, floor: Some(-1.0), look: Look::Lapis, lights: lights.clone(), gradient: true };
    let mut scene = Scene::new(48, 48);
    scene.background = Background::Gradient {
        low: millionths([1.0, 0.341, 0.2]),
        high: millionths([0.0, 1.0, 1.0]),
        gain: 1_600_000,
    };
    scene.models.push(Model::new(Shape::Floor { height: -ONE }, Shader::Checkerboard, Vector3f::zero()));
    scene.models.push(Model::new(
        Shape::Sphere { radius: ONE },
        Shader::Phong {
            material: Material::new(
                millionths([0.0, 0.14902, 0.25098]),
                millionths([0.14902, 0.380392, 0.611765]),
                millionths([1.0, 1.0, 1.0]),
                6_500_000,
            ),
        },
        Vector3f::zero(),
    ));
    for (at, intensity) in lights.iter() {
        scene.lights.push(Light::new(
            millionths(*at),
            (intensity * ONE as f64) as i64,
            Vector3f::new(ONE, ONE, ONE),
        ));
    }
    // The two may part at the seams: where the ray just hits or just
    // misses, and at the edges of shadows and of the board's squares.
    assert!(far_apart(&scene, &reference) <= 48 * 48 / 50);
}

#[test]
fn plain_scene_agrees_with_floating_point() {
    let lights = vec![([2.0, 3.0, 8.0], 1.0)];
    let reference =
        Reference { shininess: 0.0, radius: 0.5, floor: None, look: Look::Plain, lights: lights.clone(), gradient: false };
    let mut scene = Scene::new(48, 48);
    scene.models.push(Model::new(
        Shape::Sphere { radius: 500_000 },
        new_shader(millionths([1.0, 0.2, 0.2]), 800_000, 300_000),
        Vector3f::zero(),
    ));
    scene.lights.push(Light::new(millionths(lights[0].0), ONE, Vector3f::new(ONE, ONE, ONE)));
    assert!(far_apart(&scene, &reference) <= 48 * 48 / 100);
}
