//! A tiny renderer core: an implicit "fire" sphere, built from a signed
//! distance field perturbed by fractal value noise, marched per pixel and
//! shaded through a fire palette.
//!
//! All real-valued quantities are carried in 16.16 fixed point (an `i64`
//! holding `value * 65536`), so that every arithmetic step has an exact
//! integer meaning that the contracts can state.
pub mod fx;
pub mod image;
pub mod noise;
pub mod sdf;
pub mod shade;
pub mod trace;
pub mod vec3;
