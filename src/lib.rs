//! A small ray tracer: rays cast from a camera into a scene of spheres,
//! scattered by diffuse and metal materials up to a fixed depth, and
//! averaged, gamma corrected and quantized into an RGBA framebuffer.
//!
//! Scalars are fixed-point integers (`fixed`): every operation is exact
//! integer arithmetic, rounded down where it divides and saturated to a
//! fixed range, so each function's result is stated exactly over the spec
//! functions of its module. Randomness comes from `rand` through `random`;
//! functions that draw take the drawn values as arguments in a second,
//! deterministic form (`Material::scatter_with`, `trace::calc_color_with`).
pub mod camera;
pub mod demos;
pub mod fixed;
pub mod hitable;
pub mod material;
pub mod random;
pub mod ray;
pub mod render;
pub mod trace;
pub mod vec3;
