//! A signed-distance-field sphere tracer over fixed-point numbers.
//!
//! A scene is a list of models, each a shape with a shader, and a list of
//! lights. The scene function maps a point to the nearest surface; a march
//! follows a ray by the distances that the scene function gives until it
//! comes within reach of a surface or leaves the scene; the normal at the
//! point that is hit and the lights give the point its colour. An image
//! is cut into tiles, which can be rendered by any number of workers and
//! gathered in any order.
//!
//! Every scalar is a [`fixed::Fixed`]: an `i64` that counts millionths.
//! Arithmetic rounds towards negative infinity and saturates at the ends of
//! the range of `i64`, so every function of the engine is total and gives
//! the same result on every machine.
//!
//! - [`fixed`]: the scalars and their arithmetic
//! - [`math`]: vectors
//! - [`sdf`]: the primitive shapes
//! - [`op`], [`surface`]: the operators that combine shapes
//! - [`prelude`]: rays, materials, colours
//! - [`light`], [`shader`], [`model`], [`scene`]: what is rendered
//! - [`raymarching`]: the march, the normal, the shadow, the pixel
//! - [`normal`]: the normal of a sphere points along the radius
//! - [`tile`], [`framebuffer`], [`render`]: the image and its tiles
pub mod fixed;
pub mod framebuffer;
pub mod light;
pub mod math;
pub mod model;
pub mod normal;
pub mod op;
pub mod prelude;
pub mod raymarching;
pub mod render;
pub mod scene;
pub mod sdf;
pub mod shader;
pub mod surface;
pub mod tile;
