use raymarching::fixed::ONE;
use raymarching::light::Light;
use raymarching::math::{Vector2f, Vector3f};
use raymarching::model::{Model, Shape};
use raymarching::prelude::{Color, Material, Ray, Utils};
use raymarching::raymarching::{get_pixel_color, raymarch, Outcome};
use raymarching::render::{
    fits_tile, render, render_in_order, render_tile, render_tiled, write_pixels, Collector, Pixel,
    RenderError,
};
use raymarching::framebuffer::Framebuffer;
use raymarching::scene::{pixel_uv, Background, Scene};
use raymarching::shader::{new_shader, Shader};
use raymarching::tile::{Tile, Tiling};

fn white() -> Vector3f {
    Vector3f::new(ONE, ONE, ONE)
}

fn sphere_scene(width: u32, height: u32) -> Scene {
    let mut scene = Scene::new(width, height);
    scene.models.push(Model::new(
        Shape::Sphere { radius: 500_000 },
        new_shader(Vector3f::new(ONE, 200_000, 200_000), 800_000, 300_000),
        Vector3f::zero(),
    ));
    scene.lights.push(Light::new(Vector3f::new(8 * ONE, 2 * ONE, -10 * ONE), ONE, white()));
    scene
}

fn lapis_scene(width: u32, height: u32) -> Scene {
    let mut scene = Scene::new(width, height);
    scene.models.push(Model::new(Shape::Floor { height: -ONE }, Shader::Checkerboard, Vector3f::zero()));
    scene.models.push(Model::new(
        Shape::Sphere { radius: ONE },
        Shader::Phong {
            material: Material::new(
                Vector3f::new(0, 149_020, 250_980),
                Vector3f::new(149_020, 380_392, 611_765),
                white(),
                64 * ONE,
            ),
        },
        Vector3f::zero(),
    ));
    scene.lights.push(Light::new(Vector3f::new(8 * ONE, 2 * ONE, -10 * ONE), 900_000, white()));
    scene.lights.push(Light::new(Vector3f::new(ONE, ONE, ONE), 500_000, white()));
    scene.lights.push(Light::new(Vector3f::new(ONE, 2 * ONE, 10 * ONE), 500_000, white()));
    scene
}

#[test]
fn new_scene_is_empty_with_the_usual_settings() {
    let scene = Scene::new(640, 480);
    assert_eq!((scene.width, scene.height), (640, 480));
    assert_eq!(scene.camera, Vector3f::new(0, 0, 5 * ONE));
    assert!(scene.models.is_empty());
    assert!(scene.lights.is_empty());
    assert_eq!(scene.min_distance, 0);
    assert_eq!(scene.max_distance, 100 * ONE);
    assert_eq!(scene.precision, 1_000);
    assert_eq!(scene.max_steps, 256);
    assert_eq!(scene.epsilon, 500);
    assert_eq!(scene.background.color(&Vector2f::new(123, -456)), white());
    assert!(matches!(scene.background, Background::Plain { .. }));
}

#[test]
fn gradient_blends_by_the_height_in_the_view() {
    let sky = Background::Gradient {
        low: Vector3f::new(ONE, 341_000, 200_000),
        high: Vector3f::new(0, ONE, ONE),
        gain: 1_600_000,
    };
    assert_eq!(sky.color(&Vector2f::new(0, 0)), Vector3f::new(1_600_000, 545_600, 320_000));
    assert_eq!(sky.color(&Vector2f::new(77, 500_000)), Vector3f::new(800_000, 1_072_800, 960_000));
    assert_eq!(sky.color(&Vector2f::new(0, ONE)), Vector3f::new(0, 1_600_000, 1_600_000));
    assert_eq!(
        sky.color(&Vector2f::new(0, -500_000)),
        Vector3f::new(2_400_000, 18_400, -320_000)
    );
    let mut scene = sphere_scene(64, 64);
    scene.background = sky;
    assert_eq!(scene.at(0, 0), Vector3f::new(800_000, 1_072_800, 960_000));
    assert_ne!(scene.at(32, 32), sky.color(&Vector2f::new(0, 0)));
}

#[test]
fn pixels_map_to_view_coordinates() {
    assert_eq!(pixel_uv(32, 32, 64, 64), Vector2f::new(0, 0));
    assert_eq!(pixel_uv(0, 0, 64, 64), Vector2f::new(-500_000, 500_000));
    assert_eq!(pixel_uv(64, 64, 64, 64), Vector2f::new(500_000, -500_000));
    assert_eq!(pixel_uv(0, 0, 200, 100), Vector2f::new(-ONE, 500_000));
    assert_eq!(pixel_uv(1, 1, 3, 3), Vector2f::new(-166_667, 166_666));
    assert_eq!(pixel_uv(u32::MAX, u32::MAX, 0, 1), Vector2f::new(4_294_967_295 * ONE, -4_294_967_294_500_000));
}

#[test]
fn scene_surface_is_the_nearest_model() {
    let mut scene = Scene::new(4, 4);
    assert_eq!(scene.surface_at(&Vector3f::zero()).distance, i64::MAX);
    assert!(scene.surface_at(&Vector3f::zero()).appearance.is_none());
    let red = new_shader(Vector3f::new(ONE, 0, 0), ONE, 0);
    let blue = new_shader(Vector3f::new(0, 0, ONE), ONE, 0);
    scene.models.push(Model::new(Shape::Sphere { radius: 300_000 }, red, Vector3f::new(-500_000, 0, 0)));
    scene.models.push(Model::new(Shape::Sphere { radius: 300_000 }, blue, Vector3f::new(500_000, 0, 0)));
    scene.models.push(Model::new(Shape::Floor { height: -ONE }, Shader::Checkerboard, Vector3f::zero()));
    let color_of = |s: &Scene, p: Vector3f| match s.surface_at(&p).appearance.unwrap().shader {
        Shader::Diffuse { color, .. } => color,
        _ => white(),
    };
    let left = Vector3f::new(-400_000, 0, 0);
    assert_eq!(scene.surface_at(&left).distance, -200_000);
    assert_eq!(color_of(&scene, left), Vector3f::new(ONE, 0, 0));
    let right = Vector3f::new(400_000, 0, 0);
    assert_eq!(color_of(&scene, right), Vector3f::new(0, 0, ONE));
    // Half-way both spheres are equally near: the first model wins.
    assert_eq!(scene.surface_at(&Vector3f::zero()).distance, 200_000);
    assert_eq!(color_of(&scene, Vector3f::zero()), Vector3f::new(ONE, 0, 0));
    let low = Vector3f::new(0, -900_000, 0);
    assert_eq!(scene.surface_at(&low).distance, 100_000);
    assert_eq!(color_of(&scene, low), white());
}

#[test]
fn centre_of_the_image_shows_the_sphere() {
    let scene = sphere_scene(64, 64);
    assert_eq!(pixel_uv(32, 32, 64, 64), Vector2f::new(0, 0));
    let ray = Ray::new(scene.camera, Vector3f::new(0, 0, -ONE).normalize());
    let end = raymarch(&scene, &ray);
    assert_eq!(end.outcome, Outcome::Hit);
    assert_eq!(end.surface.distance, 4_500_000);
    let centre = scene.at(32, 32);
    assert_ne!(centre, white());
    assert_ne!(Utils::rgb(&centre), Utils::rgb(&white()));
    assert_eq!(centre, get_pixel_color(&scene, &Vector2f::new(0, 0)));
    // The light stands behind the sphere, whose near side lies in its own
    // shadow: colour * (0.3 - 0.786457 * 0.8 * 0.2).
    assert_eq!(centre, Vector3f::new(174_166, 34_833, 34_833));
    assert_eq!(Utils::rgb(&centre), Color { r: 44, g: 8, b: 8 });
    assert_eq!(scene.at(0, 0), white());
    assert_eq!(scene.at(63, 63), white());
}

#[test]
fn sphere_lit_from_the_front_is_bright() {
    let mut scene = sphere_scene(64, 64);
    scene.lights.clear();
    scene.lights.push(Light::new(Vector3f::new(0, 0, 10 * ONE), ONE, white()));
    // normal (0, 0, 1), light straight ahead: colour * (0.8 + 0.3)
    assert_eq!(scene.at(32, 32), Vector3f::new(1_100_000, 220_000, 220_000));
    assert_eq!(Utils::rgb(&scene.at(32, 32)), Color { r: 255, g: 56, b: 56 });
}

#[test]
fn image_without_rows_is_seen_from_its_centre() {
    let scene = sphere_scene(64, 0);
    assert_eq!(pixel_uv(7, 9, 64, 0), Vector2f::new(0, 0));
    assert_eq!(scene.at(7, 9), get_pixel_color(&scene, &Vector2f::new(0, 0)));
    assert_eq!(scene.at(7, 9), sphere_scene(64, 64).at(32, 32));
}

#[test]
fn render_gives_the_colour_of_each_pixel() {
    let scene = lapis_scene(16, 12);
    let frame = render(&scene, 5).unwrap();
    assert_eq!((frame.width(), frame.height()), (16, 12));
    let bytes = frame.to_bytes();
    assert_eq!(bytes.len(), 16 * 12 * 3);
    for y in 0..12u32 {
        for x in 0..16u32 {
            let c = Utils::rgb(&scene.at(x, y));
            assert_eq!(frame.get_pixel(x, y), c);
            let at = ((y * 16 + x) * 3) as usize;
            assert_eq!(&bytes[at..at + 3], &[c.r, c.g, c.b]);
        }
    }
    assert_eq!(frame.get_pixel(0, 0), Color { r: 255, g: 255, b: 255 });
    assert_ne!(frame.get_pixel(8, 6), Color { r: 255, g: 255, b: 255 });
    assert_ne!(frame.get_pixel(8, 11), frame.get_pixel(8, 6));
}

#[test]
fn render_does_not_depend_on_the_tiles() {
    let scene = lapis_scene(20, 14);
    let reference = render(&scene, 20).unwrap().to_bytes();
    for side in [1u32, 3, 4, 7, 14, 64] {
        assert_eq!(render(&scene, side).unwrap().to_bytes(), reference);
    }
}

#[test]
fn render_in_bands_gives_the_same_image() {
    let scene = lapis_scene(20, 14);
    let reference = render(&scene, 20).unwrap().to_bytes();
    for rows in [1u32, 3, 14, 100] {
        let bands = Tiling::bands(20, 14, rows).unwrap();
        assert_eq!(render_tiled(&scene, &bands).unwrap().to_bytes(), reference);
    }
    let oblong = Tiling { width: 20, height: 14, tile_width: 7, tile_height: 2 };
    assert_eq!(render_tiled(&scene, &oblong).unwrap().to_bytes(), reference);
}

#[test]
fn render_rejects_tiles_of_another_image() {
    let scene = lapis_scene(20, 14);
    let other = Tiling::new(20, 15, 4).unwrap();
    assert_eq!(render_tiled(&scene, &other).err(), Some(RenderError::InvalidParameter));
}

#[test]
fn collector_takes_tiles_in_any_order() {
    let scene = lapis_scene(20, 14);
    let reference = render(&scene, 6).unwrap().to_bytes();
    let orders: [Vec<u64>; 3] = [
        (0..12).collect(),
        (0..12).rev().collect(),
        vec![5, 0, 11, 3, 7, 1, 9, 2, 10, 4, 8, 6],
    ];
    for order in orders.iter() {
        let mut collector = Collector::new(Tiling::new(20, 14, 6).unwrap()).unwrap();
        let tiling = collector.tiling();
        assert_eq!(tiling.count(), 12);
        for index in order.iter() {
            let pixels = render_tile(&scene, &tiling.tile(*index));
            collector.accept(*index, &pixels);
        }
        assert_eq!(collector.finish().unwrap().to_bytes(), reference);
    }
}

#[test]
fn collector_reports_the_tile_that_is_missing() {
    let scene = sphere_scene(8, 8);
    let mut collector = Collector::new(Tiling::new(8, 8, 4).unwrap()).unwrap();
    let tiling = collector.tiling();
    for index in [0u64, 1, 3] {
        collector.accept(index, &render_tile(&scene, &tiling.tile(index)));
    }
    assert_eq!(collector.finish().err(), Some(RenderError::TileFailed { index: 2 }));
}

#[test]
fn collector_reports_the_tile_that_failed_first() {
    let scene = sphere_scene(8, 8);
    let mut collector = Collector::new(Tiling::new(8, 8, 4).unwrap()).unwrap();
    let tiling = collector.tiling();
    collector.accept(0, &render_tile(&scene, &tiling.tile(0)));
    collector.fail(3);
    collector.fail(1);
    for index in [1u64, 2, 3] {
        collector.accept(index, &render_tile(&scene, &tiling.tile(index)));
    }
    assert_eq!(collector.finish().err(), Some(RenderError::TileFailed { index: 3 }));
}

#[test]
fn collector_refuses_what_is_no_tile_of_the_image() {
    let scene = sphere_scene(8, 8);
    let tiles = |mut c: Collector, index: u64, pixels: Vec<Pixel>| {
        c.accept(index, &pixels);
        c.finish().err()
    };
    let fresh = || Collector::new(Tiling::new(8, 8, 4).unwrap()).unwrap();
    let tiling = fresh().tiling();
    let first = render_tile(&scene, &tiling.tile(0));
    // an index beyond the last tile
    assert_eq!(tiles(fresh(), 4, first.clone()), Some(RenderError::TileFailed { index: 4 }));
    // the pixels of another tile
    assert_eq!(tiles(fresh(), 1, first.clone()), Some(RenderError::TileFailed { index: 1 }));
    // too few pixels
    assert_eq!(tiles(fresh(), 0, first[..15].to_vec()), Some(RenderError::TileFailed { index: 0 }));
    // a tile twice
    let mut twice = fresh();
    twice.accept(0, &first);
    twice.accept(0, &first);
    assert_eq!(twice.finish().err(), Some(RenderError::TileFailed { index: 0 }));
}

#[test]
fn render_rejects_tiles_without_a_side() {
    let scene = sphere_scene(8, 8);
    assert_eq!(render(&scene, 0).err(), Some(RenderError::InvalidParameter));
    let flat = Tiling { width: 8, height: 8, tile_width: 4, tile_height: 0 };
    assert_eq!(Collector::new(flat).err(), Some(RenderError::InvalidParameter));
    assert_eq!(render_tiled(&scene, &flat).err(), Some(RenderError::InvalidParameter));
    let thin = Tiling { width: 8, height: 8, tile_width: 0, tile_height: 4 };
    assert_eq!(Collector::new(thin).err(), Some(RenderError::InvalidParameter));
    assert_eq!(render_tiled(&scene, &thin).err(), Some(RenderError::InvalidParameter));
}

#[test]
fn render_rejects_an_image_that_is_too_large() {
    let scene = sphere_scene(u32::MAX, u32::MAX);
    assert_eq!(render(&scene, 32).err(), Some(RenderError::InvalidParameter));
    let tiling = Tiling::new(u32::MAX, u32::MAX, 32).unwrap();
    assert_eq!(Collector::new(tiling).err(), Some(RenderError::InvalidParameter));
}

#[test]
fn render_of_an_empty_image_is_empty() {
    let scene = sphere_scene(0, 0);
    let frame = render(&scene, 4).unwrap();
    assert_eq!(frame.to_bytes(), Vec::<u8>::new());
    assert!(Collector::new(Tiling::new(0, 7, 4).unwrap()).unwrap().finish().is_ok());
}

#[test]
fn tile_is_rendered_row_by_row() {
    let scene = sphere_scene(8, 8);
    let tile = Tile { x0: 3, y0: 4, x1: 6, y1: 6 };
    let pixels = render_tile(&scene, &tile);
    assert_eq!(pixels.len(), 6);
    let places: Vec<(u32, u32)> = pixels.iter().map(|p| (p.x, p.y)).collect();
    assert_eq!(places, vec![(3, 4), (4, 4), (5, 4), (3, 5), (4, 5), (5, 5)]);
    for p in pixels.iter() {
        assert_eq!(p.color, Utils::rgb(&scene.at(p.x, p.y)));
    }
    assert!(fits_tile(&tile, &pixels));
    assert!(!fits_tile(&Tile { x0: 3, y0: 4, x1: 5, y1: 7 }, &pixels));
    assert!(render_tile(&scene, &Tile { x0: 6, y0: 0, x1: 3, y1: 4 }).is_empty());
    assert!(fits_tile(&Tile { x0: 6, y0: 0, x1: 3, y1: 4 }, &Vec::new()));
}

#[test]
fn write_sets_pixels_or_nothing() {
    let mut frame = Framebuffer::new(4, 4).unwrap();
    let a = Color { r: 1, g: 1, b: 1 };
    let b = Color { r: 2, g: 2, b: 2 };
    let good = vec![Pixel { x: 0, y: 0, color: a }, Pixel { x: 3, y: 3, color: a }, Pixel { x: 0, y: 0, color: b }];
    assert!(write_pixels(&mut frame, &good).is_ok());
    assert_eq!(frame.get_pixel(0, 0), b);
    assert_eq!(frame.get_pixel(3, 3), a);
    let bad = vec![Pixel { x: 1, y: 1, color: a }, Pixel { x: 4, y: 0, color: a }];
    assert!(write_pixels(&mut frame, &bad).is_err());
    assert_eq!(frame.get_pixel(1, 1), Color { r: 0, g: 0, b: 0 });
}

#[test]
fn render_in_any_order_gives_the_same_image() {
    let scene = lapis_scene(20, 14);
    let tiling = Tiling::new(20, 14, 6).unwrap();
    let reference = render(&scene, 6).unwrap().to_bytes();
    let forwards: Vec<u64> = (0..12).collect();
    let backwards: Vec<u64> = (0..12).rev().collect();
    let shuffled: Vec<u64> = vec![5, 0, 11, 3, 7, 1, 9, 2, 10, 4, 8, 6];
    for order in [forwards, backwards, shuffled].iter() {
        assert_eq!(render_in_order(&scene, &tiling, order).unwrap().to_bytes(), reference);
    }
}

#[test]
fn render_in_order_names_the_tile_that_is_out_of_turn() {
    let scene = sphere_scene(8, 8);
    let tiling = Tiling::new(8, 8, 4).unwrap();
    let failed = |order: Vec<u64>| render_in_order(&scene, &tiling, &order).err();
    assert_eq!(failed(vec![0, 1, 1, 2, 3]), Some(RenderError::TileFailed { index: 1 }));
    assert_eq!(failed(vec![3, 4, 3]), Some(RenderError::TileFailed { index: 4 }));
    assert_eq!(failed(vec![3, 2, 0]), Some(RenderError::TileFailed { index: 1 }));
    assert_eq!(failed(vec![]), Some(RenderError::TileFailed { index: 0 }));
    assert_eq!(failed(vec![2, 1, 3, 0]), None);
    let other = Tiling::new(8, 9, 4).unwrap();
    assert_eq!(
        render_in_order(&scene, &other, &vec![0, 1, 2, 3, 4, 5]).err(),
        Some(RenderError::InvalidParameter)
    );
}

#[test]
fn collector_stops_at_the_first_failure() {
    let scene = sphere_scene(8, 8);
    let mut collector = Collector::new(Tiling::new(8, 8, 4).unwrap()).unwrap();
    let tiling = collector.tiling();
    assert_eq!(collector.failed(), None);
    collector.accept(7, &Vec::new());
    assert_eq!(collector.failed(), Some(7));
    collector.accept(0, &render_tile(&scene, &tiling.tile(0)));
    assert_eq!(collector.failed(), Some(7));
    assert_eq!(collector.finish().err(), Some(RenderError::TileFailed { index: 7 }));
}
