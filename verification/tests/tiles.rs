use raymarching::framebuffer::Framebuffer;
use raymarching::op::InvalidParameter;
use raymarching::prelude::Color;
use raymarching::tile::{Tile, Tiling};

fn covers(width: u32, height: u32, side: u32) {
    let tiling = Tiling::new(width, height, side).unwrap();
    let mut seen = vec![0u32; (width * height) as usize];
    for index in 0..tiling.count() {
        let t = tiling.tile(index);
        assert!(t.x0 < t.x1 && t.x1 <= width);
        assert!(t.y0 < t.y1 && t.y1 <= height);
        for y in t.y0..t.y1 {
            for x in t.x0..t.x1 {
                seen[(y * width + x) as usize] += 1;
            }
        }
    }
    assert!(seen.iter().all(|n| *n == 1));
}

#[test]
fn tiles_of_a_dividing_side_partition_the_image() {
    covers(64, 64, 32);
    covers(64, 32, 16);
    covers(12, 8, 4);
    covers(5, 5, 1);
    covers(7, 7, 7);
    let tiling = Tiling::new(2048, 2048, 32).unwrap();
    assert_eq!(tiling.columns(), 64);
    assert_eq!(tiling.rows(), 64);
    assert_eq!(tiling.count(), 4096);
    assert_eq!(tiling.tile(0), Tile { x0: 0, y0: 0, x1: 32, y1: 32 });
    assert_eq!(tiling.tile(1), Tile { x0: 32, y0: 0, x1: 64, y1: 32 });
    assert_eq!(tiling.tile(64), Tile { x0: 0, y0: 32, x1: 32, y1: 64 });
    assert_eq!(tiling.tile(4095), Tile { x0: 2016, y0: 2016, x1: 2048, y1: 2048 });
}

#[test]
fn tiles_at_the_edge_are_cut_off() {
    covers(10, 7, 4);
    covers(3, 9, 5);
    covers(1, 1, 100);
    let tiling = Tiling::new(10, 7, 4).unwrap();
    assert_eq!(tiling.columns(), 3);
    assert_eq!(tiling.rows(), 2);
    assert_eq!(tiling.count(), 6);
    assert_eq!(tiling.tile(2), Tile { x0: 8, y0: 0, x1: 10, y1: 4 });
    assert_eq!(tiling.tile(5), Tile { x0: 8, y0: 4, x1: 10, y1: 7 });
}

fn covers_with(tiling: Tiling) {
    let mut seen = vec![0u32; (tiling.width * tiling.height) as usize];
    for index in 0..tiling.count() {
        let t = tiling.tile(index);
        for y in t.y0..t.y1 {
            for x in t.x0..t.x1 {
                seen[(y * tiling.width + x) as usize] += 1;
            }
        }
    }
    assert!(seen.iter().all(|n| *n == 1));
}

#[test]
fn bands_are_as_wide_as_the_image() {
    let bands = Tiling::bands(2048, 2048, 32).unwrap();
    assert_eq!(bands.columns(), 1);
    assert_eq!(bands.count(), 64);
    assert_eq!(bands.tile(0), Tile { x0: 0, y0: 0, x1: 2048, y1: 32 });
    assert_eq!(bands.tile(63), Tile { x0: 0, y0: 2016, x1: 2048, y1: 2048 });
    covers_with(Tiling::bands(9, 10, 4).unwrap());
    covers_with(Tiling { width: 9, height: 10, tile_width: 2, tile_height: 5 });
    assert_eq!(Tiling::bands(0, 10, 4).unwrap().count(), 0);
    assert_eq!(Tiling::bands(0, 10, 4).unwrap().tile_width, 1);
}

#[test]
fn empty_image_has_no_tiles() {
    assert_eq!(Tiling::new(0, 10, 4).unwrap().count(), 0);
    assert_eq!(Tiling::new(10, 0, 4).unwrap().count(), 0);
    assert_eq!(Tiling::new(0, 0, 1).unwrap().count(), 0);
}

#[test]
fn tiling_needs_a_side() {
    assert_eq!(Tiling::new(10, 10, 0), Err(InvalidParameter));
    assert_eq!(
        Tiling::new(10, 10, 1),
        Ok(Tiling { width: 10, height: 10, tile_width: 1, tile_height: 1 })
    );
    assert_eq!(Tiling::bands(10, 10, 0), Err(InvalidParameter));
}

#[test]
fn largest_tiling_counts_without_overflow() {
    let tiling = Tiling::new(u32::MAX, u32::MAX, 1).unwrap();
    assert_eq!(tiling.count(), (u32::MAX as u64) * (u32::MAX as u64));
    assert_eq!(
        tiling.tile(tiling.count() - 1),
        Tile { x0: u32::MAX - 1, y0: u32::MAX - 1, x1: u32::MAX, y1: u32::MAX }
    );
    let wide = Tiling::new(u32::MAX, u32::MAX, u32::MAX).unwrap();
    assert_eq!(wide.count(), 1);
    assert_eq!(wide.tile(0), Tile { x0: 0, y0: 0, x1: u32::MAX, y1: u32::MAX });
}

#[test]
fn framebuffer_starts_black() {
    let frame = Framebuffer::new(3, 2).unwrap();
    assert_eq!(frame.width(), 3);
    assert_eq!(frame.height(), 2);
    assert_eq!(frame.get_pixel(2, 1), Color { r: 0, g: 0, b: 0 });
    assert_eq!(frame.to_bytes(), vec![0u8; 18]);
}

#[test]
fn framebuffer_keeps_what_is_put() {
    let mut frame = Framebuffer::new(3, 2).unwrap();
    frame.put_pixel(1, 0, Color { r: 1, g: 2, b: 3 });
    frame.put_pixel(2, 1, Color { r: 4, g: 5, b: 6 });
    frame.put_pixel(2, 1, Color { r: 7, g: 8, b: 9 });
    assert_eq!(frame.get_pixel(1, 0), Color { r: 1, g: 2, b: 3 });
    assert_eq!(frame.get_pixel(2, 1), Color { r: 7, g: 8, b: 9 });
    assert_eq!(frame.get_pixel(0, 0), Color { r: 0, g: 0, b: 0 });
    assert_eq!(
        frame.to_bytes(),
        vec![0, 0, 0, 1, 2, 3, 0, 0, 0, 0, 0, 0, 0, 0, 0, 7, 8, 9]
    );
}

#[test]
fn framebuffer_without_pixels_has_no_bytes() {
    assert_eq!(Framebuffer::new(0, 5).unwrap().to_bytes(), Vec::<u8>::new());
    assert_eq!(Framebuffer::new(5, 0).unwrap().to_bytes(), Vec::<u8>::new());
}

#[test]
fn framebuffer_that_no_vec_can_hold_is_refused() {
    assert!(Framebuffer::new(u32::MAX, u32::MAX).is_err());
}
