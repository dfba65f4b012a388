//! The decision core of a small progressive ray tracer.
//!
//! Numbers are carried as IEEE-754 binary64 bit patterns. The library orders
//! them, moves them and decides on them; arithmetic on them is the caller's,
//! who hands it in as a closure or as an implementor of a trait.
//!
//! - `scalar`: the numbers, their ordering and their whole part as a byte.
//! - `ray`: rays.
//! - `material`: the materials that a hit can carry.
//! - `hittable`: hits, and what each shape decides about a ray.
//! - `scene`: the search for the nearest hit among shapes.
//! - `raytrace`: shading with a bounce limit, the frame loop and the sums of
//!   frames.

pub mod scalar;
pub mod ray;
pub mod material;
pub mod hittable;
pub mod scene;
pub mod raytrace;
