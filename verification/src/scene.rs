//! A scene: shapes in the order they were put in, searched for the nearest
//! hit.

use vstd::prelude::*;
use crate::hittable::{Hit, HitRecord};
use crate::ray::Ray;
use crate::scalar::{lemma_lt_strict, Scalar};

verus! {

/// Shapes, in insertion order.
pub struct Scene<H: Hit> {
    pub objects: Vec<H>,
}

/// The last hit among the first `n` answers.
pub open spec fn last_hit_among(answers: Seq<Option<HitRecord>>, n: int) -> Option<HitRecord>
    decreases n,
{
    if n <= 0 {
        None
    } else if answers[n - 1] is Some {
        answers[n - 1]
    } else {
        last_hit_among(answers, n - 1)
    }
}

/// The last hit among all the answers.
pub open spec fn last_hit(answers: Seq<Option<HitRecord>>) -> Option<HitRecord> {
    last_hit_among(answers, answers.len() as int)
}

/// The upper bound that the shape at `i` is asked with: the parameter of the
/// last hit before it, or `t_max` where there is none.
pub open spec fn bound_at(answers: Seq<Option<HitRecord>>, i: int, t_max: Scalar) -> Scalar {
    match last_hit_among(answers, i) {
        Some(h) => h.t,
        None => t_max,
    }
}

/// Whether `answers` holds, shape by shape, what each gave when asked in
/// turn, each with the bound that the answers before it left.
pub open spec fn scanned<H: Hit>(
    objects: Seq<H>,
    r: Ray,
    t_min: Scalar,
    t_max: Scalar,
    answers: Seq<Option<HitRecord>>,
) -> bool {
    &&& answers.len() == objects.len()
    &&& forall|i: int|
        0 <= i < objects.len() ==> call_ensures(
            H::hit,
            (&objects[i], &r, t_min, bound_at(answers, i, t_max)),
            #[trigger] answers[i],
        )
}

/// A shape's answer to the full window, kept only if it lies below `bound`.
pub open spec fn clipped(alone: Option<HitRecord>, bound: Scalar) -> Option<HitRecord> {
    match alone {
        Some(h) => if h.t.lt(bound) {
            Some(h)
        } else {
            None
        },
        None => None,
    }
}

/// Whether narrowing the window only clips what `object` answers: asked with
/// `t_max` or any bound below it, it gives its answer `alone` to the full
/// window if that lies below the bound, and nothing otherwise.
pub open spec fn answers_alike<H: Hit>(
    object: H,
    r: Ray,
    t_min: Scalar,
    t_max: Scalar,
    alone: Option<HitRecord>,
) -> bool {
    forall|bound: Scalar, res: Option<HitRecord>|
        (bound == t_max || bound.lt(t_max)) && #[trigger] call_ensures(
            H::hit,
            (&object, &r, t_min, bound),
            res,
        ) ==> res == clipped(alone, bound)
}

/// Whether the answer at `k` is a hit that none of the first `n` answers lies
/// below, and that lies below every hit before it.
pub open spec fn nearest_at(alone: Seq<Option<HitRecord>>, n: int, k: int) -> bool {
    &&& 0 <= k < n
    &&& alone[k] is Some
    &&& forall|i: int|
        0 <= i < n && (#[trigger] alone[i]) is Some ==> !alone[i].unwrap().t.lt(alone[k].unwrap().t)
    &&& forall|i: int|
        0 <= i < k && (#[trigger] alone[i]) is Some ==> alone[k].unwrap().t.lt(alone[i].unwrap().t)
}

/// Whether `res` is the nearest of the first `n` answers in `alone`, the
/// earliest one among equals; nothing if there is no hit among them.
pub open spec fn nearest_among(alone: Seq<Option<HitRecord>>, n: int, res: Option<HitRecord>) -> bool {
    match res {
        None => forall|i: int| 0 <= i < n ==> #[trigger] alone[i] is None,
        Some(h) => exists|k: int| #[trigger] nearest_at(alone, n, k) && alone[k] == Some(h),
    }
}

/// Whether `res` is the nearest of the answers in `alone`, the earliest one
/// among equals.
pub open spec fn nearest(alone: Seq<Option<HitRecord>>, res: Option<HitRecord>) -> bool {
    nearest_among(alone, alone.len() as int, res)
}

impl<H: Hit> Hit for Scene<H> {
    /// Asks each shape in turn, the first with `t_max` as its upper bound and
    /// each later one with the parameter of the last hit; gives the last hit.
    fn hit(&self, r: &Ray, t_min: Scalar, t_max: Scalar) -> (res: Option<HitRecord>)
        ensures
            exists|answers: Seq<Option<HitRecord>>|
                #![auto]
                scanned(self.objects@, *r, t_min, t_max, answers) && res == last_hit(answers),
    {
        let mut best_hit: Option<HitRecord> = None;
        let mut closest: Scalar = t_max;
        let mut i: usize = 0;
        let ghost mut answers: Seq<Option<HitRecord>> = Seq::empty();
        while i < self.objects.len()
            invariant
                i <= self.objects.len(),
                answers.len() == i,
                best_hit == last_hit(answers),
                closest == bound_at(answers, i as int, t_max),
                forall|k: int|
                    0 <= k < i ==> call_ensures(
                        H::hit,
                        (&self.objects@[k], r, t_min, bound_at(answers, k, t_max)),
                        #[trigger] answers[k],
                    ),
            decreases self.objects.len() - i,
        {
            let got = self.objects[i].hit(r, t_min, closest);
            proof {
                let before = answers;
                answers = answers.push(got);
                assert forall|k: int| 0 <= k <= i implies last_hit_among(answers, k)
                    == last_hit_among(before, k) by {
                    lemma_last_hit_among_agrees(answers, before, k);
                }
                assert forall|k: int| 0 <= k < i + 1 implies call_ensures(
                    H::hit,
                    (&self.objects@[k], r, t_min, bound_at(answers, k, t_max)),
                    #[trigger] answers[k],
                ) by {
                    if k < i {
                        assert(answers[k] == before[k]);
                    }
                }
            }
            if let Some(hit) = got {
                closest = hit.t;
                best_hit = Some(hit);
            }
            i = i + 1;
        }
        proof {
            assert(scanned(self.objects@, *r, t_min, t_max, answers));
        }
        best_hit
    }
}

/// The last hit among the first `n` answers depends on those answers alone.
proof fn lemma_last_hit_among_agrees(a: Seq<Option<HitRecord>>, b: Seq<Option<HitRecord>>, n: int)
    requires
        n <= a.len(),
        n <= b.len(),
        forall|i: int| 0 <= i < n ==> a[i] == b[i],
    ensures
        last_hit_among(a, n) == last_hit_among(b, n),
    decreases n,
{
    if n > 0 {
        lemma_last_hit_among_agrees(a, b, n - 1);
    }
}

/// A number below a bound is below whatever that bound is not above.
proof fn lemma_below_bound(g: Scalar, h: Scalar, x: Scalar, t_max: Scalar)
    requires
        g.lt(h),
        !x.lt(h),
        x.lt(t_max),
    ensures
        g.lt(x),
        !x.lt(g),
{
}

/// What holds of the answers to the first `n` shapes, on the way to
/// `lemma_scene_hit_is_nearest`.
proof fn lemma_prefix_is_nearest<H: Hit>(
    objects: Seq<H>,
    r: Ray,
    t_min: Scalar,
    t_max: Scalar,
    answers: Seq<Option<HitRecord>>,
    alone: Seq<Option<HitRecord>>,
    n: int,
)
    requires
        scanned(objects, r, t_min, t_max, answers),
        alone.len() == objects.len(),
        forall|i: int|
            0 <= i < objects.len() ==> call_ensures(
                H::hit,
                (&objects[i], &r, t_min, t_max),
                #[trigger] alone[i],
            ),
        forall|i: int|
            0 <= i < objects.len() ==> answers_alike(objects[i], r, t_min, t_max, #[trigger] alone[i]),
        0 <= n <= objects.len(),
    ensures
        nearest_among(alone, n, last_hit_among(answers, n)),
        last_hit_among(answers, n) matches Some(h) ==> h.t.lt(t_max),
        forall|i: int| 0 <= i < n ==> #[trigger] alone[i] == clipped(alone[i], t_max),
    decreases n,
{
    if n > 0 {
        lemma_prefix_is_nearest(objects, r, t_min, t_max, answers, alone, n - 1);
        let m = n - 1;
        let bound = bound_at(answers, m, t_max);
        assert(answers_alike(objects[m], r, t_min, t_max, alone[m]));
        assert(call_ensures(H::hit, (&objects[m], &r, t_min, bound), answers[m]));
        assert(call_ensures(H::hit, (&objects[m], &r, t_min, t_max), alone[m]));
        assert(answers[m] == clipped(alone[m], bound));
        assert(alone[m] == clipped(alone[m], t_max));
        match answers[m] {
            Some(g) => {
                assert(alone[m] == Some(g));
                assert(g.t.lt(bound));
                if bound != t_max {
                    lemma_lt_strict(g.t, bound, t_max);
                }
                assert forall|i: int| 0 <= i < n && (#[trigger] alone[i]) is Some implies !alone[i].unwrap().t.lt(
                    g.t,
                ) by {
                    if i < m {
                        let x = alone[i].unwrap().t;
                        assert(alone[i] == clipped(alone[i], t_max));
                        lemma_below_bound(g.t, bound, x, t_max);
                    }
                }
                assert forall|i: int| 0 <= i < m && (#[trigger] alone[i]) is Some implies g.t.lt(
                    alone[i].unwrap().t,
                ) by {
                    let x = alone[i].unwrap().t;
                    assert(alone[i] == clipped(alone[i], t_max));
                    lemma_below_bound(g.t, bound, x, t_max);
                }
                assert(nearest_at(alone, n, m));
            },
            None => {
                match last_hit_among(answers, m) {
                    Some(h) => {
                        let k = choose|k: int| #[trigger]
                            nearest_at(alone, m, k) && alone[k] == Some(h);
                        assert(nearest_at(alone, n, k));
                    },
                    None => {},
                }
            },
        }
    }
}

/// Searching a scene gives what asking every shape alone and taking the
/// nearest answer gives, the earliest-inserted shape winning among equals,
/// provided that narrowing the window only clips what each shape answers.
///
/// `answers` are the answers that the search got, `alone` those that the
/// shapes give to the full window.
pub proof fn lemma_scene_hit_is_nearest<H: Hit>(
    objects: Seq<H>,
    r: Ray,
    t_min: Scalar,
    t_max: Scalar,
    answers: Seq<Option<HitRecord>>,
    alone: Seq<Option<HitRecord>>,
)
    requires
        scanned(objects, r, t_min, t_max, answers),
        alone.len() == objects.len(),
        forall|i: int|
            0 <= i < objects.len() ==> call_ensures(
                H::hit,
                (&objects[i], &r, t_min, t_max),
                #[trigger] alone[i],
            ),
        forall|i: int|
            0 <= i < objects.len() ==> answers_alike(objects[i], r, t_min, t_max, #[trigger] alone[i]),
    ensures
        nearest(alone, last_hit(answers)),
{
    lemma_prefix_is_nearest(objects, r, t_min, t_max, answers, alone, objects.len() as int);
}

} // verus!
