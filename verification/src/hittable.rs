//! Hits, and what each shape decides once the arithmetic on a ray is done.
//!
//! A shape's test has three parts: arithmetic on the ray, a decision on the
//! numbers it gave, and arithmetic on the chosen parameter. The decisions are
//! here; an implementor of `Hit` does the arithmetic around them.

use vstd::prelude::*;
use crate::material::{Material, Metal};
use crate::ray::Ray;
use crate::scalar::{Scalar, Vec3, ONE_BITS, ZERO_BITS};

verus! {

/// Green share of the colour of every analytic sphere: a tenth.
pub const SPHERE_GREEN_BITS: u64 = 0x3fb9_9999_9999_999a;

/// Blue share of the colour of every analytic sphere: three tenths.
pub const SPHERE_BLUE_BITS: u64 = 0x3fd3_3333_3333_3333;

/// A march stops on a distance below this: a billionth.
pub const MARCH_EPSILON_BITS: u64 = 0x3e11_2e0b_e826_d695;

/// A march takes at most this many probes.
pub const MARCH_STEPS: u32 = 64;

/// A plane is met only by rays whose heading has more than this along its
/// normal: a hundredth.
pub const GRAZING_BITS: u64 = 0x3f84_7ae1_47ae_147b;

/// Where a ray met a surface.
#[derive(Clone, Copy, Debug, PartialEq, Eq)]
pub struct HitRecord {
    pub t: Scalar,
    pub p: Vec3,
    pub normal: Vec3,
    pub number_of_steps: u32,
    pub material: Option<Material>,
}

/// A thing that a ray can be tested against, for a hit with a parameter
/// between `t_min` and `t_max`.
pub trait Hit {
    /// The hit of `r` on this thing, if there is one in the window.
    fn hit(&self, r: &Ray, t_min: Scalar, t_max: Scalar) -> Option<HitRecord>;
}

/// A sphere, tested by solving for its two roots.
#[derive(Clone, Copy, Debug, PartialEq, Eq)]
pub struct Sphere {
    pub center: Vec3,
    pub radius: Scalar,
}

/// A sphere, tested by marching along its distance field.
#[derive(Clone, Copy, Debug, PartialEq, Eq)]
pub struct StepSphere {
    pub center: Vec3,
    pub radius: Scalar,
}

/// A plane that is met from one side only.
#[derive(Clone, Copy, Debug, PartialEq, Eq)]
pub struct Plane {
    pub normal: Vec3,
    pub point_on_plane: Vec3,
}

/// A box with its faces along the axes.
#[derive(Clone, Copy, Debug, PartialEq, Eq)]
pub struct Cube {
    pub min: Vec3,
    pub max: Vec3,
}

/// Any one of the shapes.
#[derive(Clone, Copy, Debug, PartialEq, Eq)]
pub enum Geometry {
    Sphere(Sphere),
    StepSphere(StepSphere),
    Plane(Plane),
    Cube(Cube),
}

/// The stretch of a ray's parameter from `lo` to `hi`.
#[derive(Clone, Copy, Debug, PartialEq, Eq)]
pub struct Span {
    pub lo: Scalar,
    pub hi: Scalar,
}

/// One probe of a distance field: the parameter it was taken at, the distance
/// found there, and the parameter that lies this distance further on.
#[derive(Clone, Copy, Debug, PartialEq, Eq)]
pub struct Probe {
    pub t: Scalar,
    pub distance: Scalar,
    pub next: Scalar,
}

impl Sphere {
    /// The sphere around `center` with the given radius.
    pub fn new(center: Vec3, radius: Scalar) -> (s: Sphere)
        ensures
            s.center == center,
            s.radius == radius,
    {
        Sphere { center, radius }
    }

    /// The colour that every hit on an analytic sphere carries.
    pub open spec fn coat() -> Material {
        Material::Metal(
            Metal {
                Albedo: Vec3 {
                    x: Scalar::of(ONE_BITS),
                    y: Scalar::of(SPHERE_GREEN_BITS),
                    z: Scalar::of(SPHERE_BLUE_BITS),
                },
            },
        )
    }

    /// Which root counts: none unless the discriminant is above zero; then
    /// the near one if it lies strictly between the bounds, else the far one
    /// if that does.
    pub open spec fn nearest_root_spec(
        discriminant: Scalar,
        near: Scalar,
        far: Scalar,
        t_min: Scalar,
        t_max: Scalar,
    ) -> Option<Scalar> {
        if !discriminant.gt(Scalar::of(ZERO_BITS)) {
            None
        } else if near.lt(t_max) && near.gt(t_min) {
            Some(near)
        } else if far.lt(t_max) && far.gt(t_min) {
            Some(far)
        } else {
            None
        }
    }

    /// The root that counts, if one does.
    #[verifier::when_used_as_spec(nearest_root_spec)]
    pub fn nearest_root(
        discriminant: Scalar,
        near: Scalar,
        far: Scalar,
        t_min: Scalar,
        t_max: Scalar,
    ) -> (t: Option<Scalar>)
        ensures
            t == Sphere::nearest_root_spec(discriminant, near, far, t_min, t_max),
    {
        if discriminant.gt(Scalar::from_bits(ZERO_BITS)) {
            if near.lt(t_max) && near.gt(t_min) {
                return Some(near);
            }
            if far.lt(t_max) && far.gt(t_min) {
                return Some(far);
            }
        }
        None
    }

    /// The record of a hit at `t`: one step, and the sphere's fixed metal.
    pub fn record(t: Scalar, p: Vec3, normal: Vec3) -> (h: HitRecord)
        ensures
            h == (HitRecord { t, p, normal, number_of_steps: 1, material: Some(Sphere::coat()) }),
    {
        let albedo = Vec3 {
            x: Scalar::from_bits(ONE_BITS),
            y: Scalar::from_bits(SPHERE_GREEN_BITS),
            z: Scalar::from_bits(SPHERE_BLUE_BITS),
        };
        HitRecord {
            t,
            p,
            normal,
            number_of_steps: 1,
            material: Some(Material::Metal(Metal { Albedo: albedo })),
        }
    }
}

impl Probe {
    /// Whether the march goes on after this probe: the surface is not yet
    /// reached, and the next parameter is still short of `t_max`.
    pub open spec fn presses_on(self, t_max: Scalar) -> bool {
        !self.distance.lt(Scalar::of(MARCH_EPSILON_BITS)) && !self.next.ge(t_max)
    }
}

impl StepSphere {
    /// The marched sphere around `center` with the given radius.
    pub fn new(center: Vec3, radius: Scalar) -> (s: StepSphere)
        ensures
            s.center == center,
            s.radius == radius,
    {
        StepSphere { center, radius }
    }

    /// Whether `steps` is a march from `t_min`: each entry is what `probe`
    /// gave at its parameter, each starts where the one before pointed, and
    /// all but the last press on.
    pub open spec fn marched<F: Fn(Scalar) -> (Scalar, Scalar)>(
        probe: F,
        t_min: Scalar,
        t_max: Scalar,
        steps: Seq<Probe>,
    ) -> bool {
        &&& steps.len() > 0
        &&& steps[0].t == t_min
        &&& forall|i: int|
            0 <= i < steps.len() ==> probe.ensures(
                (#[trigger] steps[i].t,),
                (steps[i].distance, steps[i].next),
            )
        &&& forall|i: int|
            0 <= i < steps.len() - 1 ==> (#[trigger] steps[i]).presses_on(t_max) && steps[i
                + 1].t == steps[i].next
    }

    /// How a march ends: with the parameter and the count of probes when the
    /// last probe found the surface; with nothing when it ran past `t_max` or
    /// was the last one allowed.
    pub open spec fn march_ends(steps: Seq<Probe>, t_max: Scalar, res: Option<(Scalar, u32)>) -> bool {
        let last = steps.last();
        match res {
            Some((t, n)) => last.distance.lt(Scalar::of(MARCH_EPSILON_BITS)) && t == last.t && n
                == steps.len(),
            None => !last.distance.lt(Scalar::of(MARCH_EPSILON_BITS)) && (last.next.ge(t_max)
                || steps.len() == MARCH_STEPS),
        }
    }

    /// Marches from `t_min`. `probe` gives, for a parameter, the distance to
    /// the surface there and the parameter that far further on.
    pub fn march<F: Fn(Scalar) -> (Scalar, Scalar)>(t_min: Scalar, t_max: Scalar, probe: F) -> (res:
        Option<(Scalar, u32)>)
        requires
            forall|t: Scalar| probe.requires((t,)),
        ensures
            exists|steps: Seq<Probe>|
                #![auto]
                StepSphere::marched(probe, t_min, t_max, steps) && steps.len() <= MARCH_STEPS
                    && StepSphere::march_ends(steps, t_max, res),
    {
        let mut t = t_min;
        let mut i: u32 = 0;
        let ghost mut steps: Seq<Probe> = Seq::empty();
        while i < MARCH_STEPS
            invariant
                i <= MARCH_STEPS,
                steps.len() == i,
                forall|t: Scalar| probe.requires((t,)),
                i == 0 ==> t == t_min,
                i > 0 ==> StepSphere::marched(probe, t_min, t_max, steps) && steps.last().presses_on(
                    t_max,
                ) && steps.last().next == t,
            decreases MARCH_STEPS - i,
        {
            let (distance, next) = probe(t);
            let ghost before = steps;
            proof {
                steps = steps.push(Probe { t, distance, next });
                assert forall|k: int| 0 <= k < steps.len() implies probe.ensures(
                    (#[trigger] steps[k].t,),
                    (steps[k].distance, steps[k].next),
                ) by {
                    if k < before.len() {
                        assert(steps[k] == before[k]);
                    }
                }
                assert forall|k: int| 0 <= k < steps.len() - 1 implies (#[trigger] steps[k]).presses_on(
                    t_max,
                ) && steps[k + 1].t == steps[k].next by {
                    assert(steps[k] == before[k]);
                    if k + 1 < before.len() {
                        assert(steps[k + 1] == before[k + 1]);
                    }
                }
                assert(StepSphere::marched(probe, t_min, t_max, steps));
            }
            if distance.lt(Scalar::from_bits(MARCH_EPSILON_BITS)) {
                proof {
                    assert(StepSphere::march_ends(steps, t_max, Some((t, (i + 1) as u32))));
                }
                return Some((t, i + 1));
            }
            t = next;
            if t.ge(t_max) {
                proof {
                    assert(StepSphere::march_ends(steps, t_max, None));
                }
                return None;
            }
            i = i + 1;
        }
        proof {
            assert(StepSphere::march_ends(steps, t_max, None));
        }
        None
    }

    /// The record of a hit at `t` after `number_of_steps` probes: no material.
    pub fn record(t: Scalar, number_of_steps: u32, p: Vec3, normal: Vec3) -> (h: HitRecord)
        ensures
            h == (HitRecord { t, p, normal, number_of_steps, material: None }),
    {
        HitRecord { t, p, normal, number_of_steps, material: None }
    }
}

impl Plane {
    /// Whether a ray meets the plane, by what its heading has along the
    /// normal: only when that is above the grazing bound.
    pub open spec fn faces_spec(denom: Scalar) -> bool {
        denom.gt(Scalar::of(GRAZING_BITS))
    }

    /// Whether a ray with `denom` along the normal meets the plane.
    #[verifier::when_used_as_spec(faces_spec)]
    pub fn faces(denom: Scalar) -> (b: bool)
        ensures
            b == Plane::faces_spec(denom),
    {
        denom.gt(Scalar::from_bits(GRAZING_BITS))
    }

    /// The record of a hit at `t`: the plane's own normal, one step, no
    /// material.
    pub fn record(&self, t: Scalar, p: Vec3) -> (h: HitRecord)
        ensures
            h == (HitRecord { t, p, normal: self.normal, number_of_steps: 1, material: None }),
    {
        HitRecord { t, p, normal: self.normal, number_of_steps: 1, material: None }
    }
}

impl Span {
    /// The span between two parameters, whichever is the greater.
    pub open spec fn between_spec(a: Scalar, b: Scalar) -> Span {
        if a.gt(b) {
            Span { lo: b, hi: a }
        } else {
            Span { lo: a, hi: b }
        }
    }

    /// The span between two parameters, whichever is the greater.
    #[verifier::when_used_as_spec(between_spec)]
    pub fn between(a: Scalar, b: Scalar) -> (s: Span)
        ensures
            s == Span::between_spec(a, b),
    {
        if a.gt(b) {
            Span { lo: b, hi: a }
        } else {
            Span { lo: a, hi: b }
        }
    }

    /// What two spans share: nothing if one starts after the other ends, else
    /// the later start and the earlier end.
    pub open spec fn meet_spec(self, other: Span) -> Option<Span> {
        if self.lo.gt(other.hi) || other.lo.gt(self.hi) {
            None
        } else {
            Some(
                Span {
                    lo: if other.lo.gt(self.lo) {
                        other.lo
                    } else {
                        self.lo
                    },
                    hi: if other.hi.lt(self.hi) {
                        other.hi
                    } else {
                        self.hi
                    },
                },
            )
        }
    }

    /// What two spans share, if anything.
    #[verifier::when_used_as_spec(meet_spec)]
    pub fn meet(self, other: Span) -> (m: Option<Span>)
        ensures
            m == self.meet_spec(other),
    {
        if self.lo.gt(other.hi) || other.lo.gt(self.hi) {
            return None;
        }
        let lo = if other.lo.gt(self.lo) {
            other.lo
        } else {
            self.lo
        };
        let hi = if other.hi.lt(self.hi) {
            other.hi
        } else {
            self.hi
        };
        Some(Span { lo, hi })
    }

    /// The first end of the span that is not behind the ray's origin: its
    /// start, or its end where the start is below zero, or neither.
    pub open spec fn first_ahead_spec(self) -> Option<Scalar> {
        if !self.lo.lt(Scalar::of(ZERO_BITS)) {
            Some(self.lo)
        } else if !self.hi.lt(Scalar::of(ZERO_BITS)) {
            Some(self.hi)
        } else {
            None
        }
    }

    /// The first end of the span that is not behind the ray's origin.
    #[verifier::when_used_as_spec(first_ahead_spec)]
    pub fn first_ahead(self) -> (t: Option<Scalar>)
        ensures
            t == self.first_ahead_spec(),
    {
        let zero = Scalar::from_bits(ZERO_BITS);
        if !self.lo.lt(zero) {
            Some(self.lo)
        } else if !self.hi.lt(zero) {
            Some(self.hi)
        } else {
            None
        }
    }

    /// Whether both ends are numbers, the start not after the end.
    pub open spec fn proper(self) -> bool {
        !self.lo.is_nan() && !self.hi.is_nan() && self.lo.rank() <= self.hi.rank()
    }
}

impl Cube {
    /// The parameter at which a ray meets the box, from the parameters at
    /// which it crosses the planes of the `min` corner and of the `max`
    /// corner on each axis: the spans of the three axes are met in turn, and
    /// the first end ahead of the origin is the hit.
    pub open spec fn slab_spec(vmin: Vec3, vmax: Vec3) -> Option<Scalar> {
        match Span::between(vmin.x, vmax.x).meet(Span::between(vmin.y, vmax.y)) {
            None => None,
            Some(xy) => match xy.meet(Span::between(vmin.z, vmax.z)) {
                None => None,
                Some(xyz) => xyz.first_ahead(),
            },
        }
    }

    /// The parameter at which a ray with these crossings meets the box.
    #[verifier::when_used_as_spec(slab_spec)]
    pub fn slab(vmin: Vec3, vmax: Vec3) -> (t: Option<Scalar>)
        ensures
            t == Cube::slab_spec(vmin, vmax),
    {
        let x = Span::between(vmin.x, vmax.x);
        let y = Span::between(vmin.y, vmax.y);
        match x.meet(y) {
            None => None,
            Some(xy) => {
                let z = Span::between(vmin.z, vmax.z);
                match xy.meet(z) {
                    None => None,
                    Some(xyz) => xyz.first_ahead(),
                }
            },
        }
    }

    /// The record of a hit at `t`: one step, no material.
    pub fn record(t: Scalar, p: Vec3, normal: Vec3) -> (h: HitRecord)
        ensures
            h == (HitRecord { t, p, normal, number_of_steps: 1, material: None }),
    {
        HitRecord { t, p, normal, number_of_steps: 1, material: None }
    }
}

/// Whether `probe` gives one answer only at each parameter.
pub open spec fn single_valued<F: Fn(Scalar) -> (Scalar, Scalar)>(probe: F) -> bool {
    forall|t: Scalar, a: (Scalar, Scalar), b: (Scalar, Scalar)|
        #![trigger probe.ensures((t,), a), probe.ensures((t,), b)]
        probe.ensures((t,), a) && probe.ensures((t,), b) ==> a == b
}

/// Whether no probe of a march points behind the parameter it was taken at.
pub open spec fn moves_on(steps: Seq<Probe>) -> bool {
    forall|i: int| 0 <= i < steps.len() ==> (#[trigger] steps[i]).next.ge(steps[i].t)
}

/// Two marches from one start with one single-valued probe agree as far as
/// both go.
proof fn lemma_marches_agree<F: Fn(Scalar) -> (Scalar, Scalar)>(
    probe: F,
    t_min: Scalar,
    t_max: Scalar,
    bound: Scalar,
    full: Seq<Probe>,
    steps: Seq<Probe>,
    i: int,
)
    requires
        single_valued(probe),
        StepSphere::marched(probe, t_min, t_max, full),
        StepSphere::marched(probe, t_min, bound, steps),
        0 <= i < full.len(),
        i < steps.len(),
    ensures
        steps[i] == full[i],
    decreases i,
{
    if i > 0 {
        lemma_marches_agree(probe, t_min, t_max, bound, full, steps, i - 1);
        assert(steps[i - 1].presses_on(bound) && steps[i].t == steps[i - 1].next);
        assert(full[i - 1].presses_on(t_max) && full[i].t == full[i - 1].next);
    }
    assert(probe.ensures((steps[i].t,), (steps[i].distance, steps[i].next)));
    assert(probe.ensures((full[i].t,), (full[i].distance, full[i].next)));
}

/// In a march that moves on, a later probe is not taken before the place that
/// an earlier one pointed to.
proof fn lemma_march_advances<F: Fn(Scalar) -> (Scalar, Scalar)>(
    probe: F,
    t_min: Scalar,
    t_max: Scalar,
    full: Seq<Probe>,
    i: int,
    j: int,
)
    requires
        StepSphere::marched(probe, t_min, t_max, full),
        moves_on(full),
        0 <= i < j < full.len(),
    ensures
        full[j].t.ge(full[i].next),
    decreases j,
{
    assert(full[j - 1].presses_on(t_max) && full[j].t == full[j - 1].next);
    assert(full[j - 1].next.ge(full[j - 1].t));
    assert(full[i].next.ge(full[i].t));
    if i < j - 1 {
        lemma_march_advances(probe, t_min, t_max, full, i, j - 1);
    }
}

/// Narrowing the window only clips what a march finds: with an upper bound
/// at or below `t_max` and above `t_min`, a single-valued probe that moves on
/// leads to the hit that it leads to for `t_max` if that lies below the
/// bound, and to none otherwise.
///
/// `full` and `found` are a march up to `t_max` and its end, `steps` and
/// `res` one up to `bound`.
pub proof fn lemma_march_narrows<F: Fn(Scalar) -> (Scalar, Scalar)>(
    probe: F,
    t_min: Scalar,
    t_max: Scalar,
    bound: Scalar,
    full: Seq<Probe>,
    found: Option<(Scalar, u32)>,
    steps: Seq<Probe>,
    res: Option<(Scalar, u32)>,
)
    requires
        single_valued(probe),
        StepSphere::marched(probe, t_min, t_max, full),
        full.len() <= MARCH_STEPS,
        StepSphere::march_ends(full, t_max, found),
        moves_on(full),
        StepSphere::marched(probe, t_min, bound, steps),
        steps.len() <= MARCH_STEPS,
        StepSphere::march_ends(steps, bound, res),
        bound == t_max || bound.lt(t_max),
        t_min.lt(bound),
    ensures
        res == (match found {
            Some((t, n)) => if t.lt(bound) {
                Some((t, n))
            } else {
                None
            },
            None => None,
        }),
{
    let k = full.len() - 1;
    let j = steps.len() - 1;
    if j > k {
        lemma_marches_agree(probe, t_min, t_max, bound, full, steps, k);
        assert(steps[k].presses_on(bound));
    } else if j == k {
        lemma_marches_agree(probe, t_min, t_max, bound, full, steps, k);
        if k > 0 {
            lemma_marches_agree(probe, t_min, t_max, bound, full, steps, k - 1);
            assert(steps[k - 1].presses_on(bound) && steps[k].t == steps[k - 1].next);
            assert(full[k - 1].next.ge(full[k - 1].t));
        }
    } else {
        lemma_marches_agree(probe, t_min, t_max, bound, full, steps, j);
        assert(full[j].presses_on(t_max));
        lemma_march_advances(probe, t_min, t_max, full, j, k);
    }
}

/// The span between two numbers is proper, and runs from the lesser to the
/// greater.
pub proof fn lemma_between_proper(a: Scalar, b: Scalar)
    requires
        !a.is_nan(),
        !b.is_nan(),
    ensures
        Span::between(a, b).proper(),
        Span::between(a, b).lo.rank() == vstd::math::min(a.rank(), b.rank()),
        Span::between(a, b).hi.rank() == vstd::math::max(a.rank(), b.rank()),
{
}

/// Two proper spans meet exactly when neither starts after the other ends,
/// and then in a proper span from the later start to the earlier end.
pub proof fn lemma_meet_proper(a: Span, b: Span)
    requires
        a.proper(),
        b.proper(),
    ensures
        a.meet(b) is Some <==> vstd::math::max(a.lo.rank(), b.lo.rank()) <= vstd::math::min(
            a.hi.rank(),
            b.hi.rank(),
        ),
        a.meet(b) matches Some(m) ==> m.proper() && m.lo.rank() == vstd::math::max(
            a.lo.rank(),
            b.lo.rank(),
        ) && m.hi.rank() == vstd::math::min(a.hi.rank(), b.hi.rank()),
{
}

/// Where the crossings are numbers, a ray meets the box exactly when its
/// latest entry into a slab is not after its earliest exit from one, and that
/// exit is not behind the origin. It then meets it at the entry, or at the
/// exit where the entry is behind the origin.
pub proof fn lemma_slab_entry(vmin: Vec3, vmax: Vec3)
    requires
        vmin.all_numbers(),
        vmax.all_numbers(),
    ensures
        ({
            let x = Span::between(vmin.x, vmax.x);
            let y = Span::between(vmin.y, vmax.y);
            let z = Span::between(vmin.z, vmax.z);
            let enter = vstd::math::max(vstd::math::max(x.lo.rank(), y.lo.rank()), z.lo.rank());
            let exit = vstd::math::min(vstd::math::min(x.hi.rank(), y.hi.rank()), z.hi.rank());
            &&& Cube::slab(vmin, vmax) is Some <==> enter <= exit && exit >= 0
            &&& Cube::slab(vmin, vmax) matches Some(t) ==> !t.is_nan() && t.rank() == (if enter
                >= 0 {
                enter
            } else {
                exit
            })
        }),
{
    let x = Span::between(vmin.x, vmax.x);
    let y = Span::between(vmin.y, vmax.y);
    let z = Span::between(vmin.z, vmax.z);
    lemma_between_proper(vmin.x, vmax.x);
    lemma_between_proper(vmin.y, vmax.y);
    lemma_between_proper(vmin.z, vmax.z);
    lemma_meet_proper(x, y);
    if let Some(xy) = x.meet(y) {
        lemma_meet_proper(xy, z);
    }
}

/// Where the crossings are numbers, a ray that is inside the slab of one axis
/// only before it enters, or only after it has left, the slab of another
/// misses the box.
pub proof fn lemma_slab_apart_misses(vmin: Vec3, vmax: Vec3)
    requires
        vmin.all_numbers(),
        vmax.all_numbers(),
        ({
            let x = Span::between(vmin.x, vmax.x);
            let y = Span::between(vmin.y, vmax.y);
            let z = Span::between(vmin.z, vmax.z);
            ||| x.lo.gt(y.hi)
            ||| y.lo.gt(x.hi)
            ||| x.lo.gt(z.hi)
            ||| z.lo.gt(x.hi)
            ||| y.lo.gt(z.hi)
            ||| z.lo.gt(y.hi)
        }),
    ensures
        Cube::slab(vmin, vmax) is None,
{
    lemma_slab_entry(vmin, vmax);
    lemma_between_proper(vmin.x, vmax.x);
    lemma_between_proper(vmin.y, vmax.y);
    lemma_between_proper(vmin.z, vmax.z);
}

/// Narrowing the window only clips the sphere's choice: with an upper bound
/// at or below `t_max`, the root chosen is the one chosen for `t_max` if that
/// lies below the bound, and none otherwise.
pub proof fn lemma_nearest_root_narrows(
    discriminant: Scalar,
    near: Scalar,
    far: Scalar,
    t_min: Scalar,
    t_max: Scalar,
    bound: Scalar,
)
    requires
        !far.lt(near),
        bound == t_max || bound.lt(t_max),
    ensures
        Sphere::nearest_root(discriminant, near, far, t_min, bound) == (match Sphere::nearest_root(
            discriminant,
            near,
            far,
            t_min,
            t_max,
        ) {
            Some(t) => if t.lt(bound) {
                Some(t)
            } else {
                None
            },
            None => None,
        }),
{
}

} // verus!
