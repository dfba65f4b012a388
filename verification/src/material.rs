//! Surface materials, as the data that a hit carries.

use vstd::prelude::*;
use crate::scalar::Vec3;

verus! {

/// A matte surface that scatters around its normal.
#[allow(non_snake_case)]
#[derive(Clone, Copy, Debug, PartialEq, Eq, Structural)]
pub struct Lambertian {
    pub Albedo: Vec3,
}

/// A polished surface that reflects.
#[allow(non_snake_case)]
#[derive(Clone, Copy, Debug, PartialEq, Eq, Structural)]
pub struct Metal {
    pub Albedo: Vec3,
}

/// The materials that a surface can be made of.
#[derive(Clone, Copy, Debug, PartialEq, Eq, Structural)]
pub enum Material {
    Lambertian(Lambertian),
    Metal(Metal),
}

} // verus!
