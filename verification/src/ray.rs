//! Rays: an origin and a direction of unit length.

use vstd::prelude::*;
use crate::scalar::Vec3;

verus! {

/// A half-line, given by where it starts and where it points.
///
/// A ray is made by `new` alone, which hands the direction to the caller's
/// normalizer and keeps what comes back; nothing changes a ray afterwards.
#[derive(Clone, Copy, Debug, PartialEq, Eq)]
pub struct Ray {
    position: Vec3,
    direction: Vec3,
}

impl Ray {
    /// Where the ray starts.
    pub closed spec fn origin(&self) -> Vec3 {
        self.position
    }

    /// Where the ray points.
    pub closed spec fn heading(&self) -> Vec3 {
        self.direction
    }

    /// The ray from `position` along `direction`, normalized by `normalize`.
    pub fn new<N: Fn(Vec3) -> Vec3>(position: Vec3, direction: Vec3, normalize: N) -> (r: Ray)
        requires
            normalize.requires((direction,)),
        ensures
            r.origin() == position,
            normalize.ensures((direction,), r.heading()),
    {
        Ray { position, direction: normalize(direction) }
    }

    /// Where the ray starts.
    #[verifier::when_used_as_spec(origin)]
    pub fn position(&self) -> (p: Vec3)
        ensures
            p == self.origin(),
    {
        self.position
    }

    /// Where the ray points.
    #[verifier::when_used_as_spec(heading)]
    pub fn direction(&self) -> (d: Vec3)
        ensures
            d == self.heading(),
    {
        self.direction
    }
}

} // verus!
