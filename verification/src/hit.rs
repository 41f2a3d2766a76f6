//! The intersection protocol: what a ray hits, and where.

use crate::fixed::Fixed;
use crate::interval::Interval;
use crate::material::AnyMaterial;
use crate::ray::Ray;
use crate::vector::{dot, dot_spec, Vector3};
use std::ops::Neg;
use vstd::prelude::*;

verus! {

/// Where a ray met a surface.
#[derive(Clone, Copy, Debug, PartialEq, Eq, Structural)]
pub struct HitRecord {
    /// The point of intersection.
    pub point: Vector3,
    /// The surface normal, turned against the incoming ray.
    pub normal: Vector3,
    /// The ray parameter of the point.
    pub t: Fixed,
    /// True where the ray came from outside the surface.
    pub is_front_face: bool,
    /// The material of the surface.
    pub material: AnyMaterial,
}

impl HitRecord {
    /// True where the ray arrives against the outward normal.
    pub open spec fn faces_front(outward_normal: Vector3, ray_direction: Vector3) -> bool {
        dot_spec(ray_direction, outward_normal)@ < 0
    }

    /// The record of a hit at `point`: the outward normal is kept where the
    /// ray arrives against it, and negated otherwise.
    pub open spec fn new_spec(
        point: Vector3,
        t: Fixed,
        outward_normal: Vector3,
        ray_direction: Vector3,
        material: AnyMaterial,
    ) -> HitRecord {
        HitRecord {
            point,
            normal: if Self::faces_front(outward_normal, ray_direction) {
                outward_normal
            } else {
                outward_normal.neg_spec()
            },
            t,
            is_front_face: Self::faces_front(outward_normal, ray_direction),
            material,
        }
    }

    /// The record of a hit. Its normal never points along the incoming
    /// ray, whatever the outward normal was.
    pub fn new(
        point: Vector3,
        t: Fixed,
        outward_normal: Vector3,
        ray_direction: &Vector3,
        material: AnyMaterial,
    ) -> (r: HitRecord)
        ensures
            r == Self::new_spec(point, t, outward_normal, *ray_direction, material),
            outward_normal.is_symmetric() ==> dot_spec(*ray_direction, r.normal)@ <= 0,
    {
        proof {
            if outward_normal.is_symmetric() {
                crate::vector::lemma_dot_neg(*ray_direction, outward_normal);
            }
        }
        let is_front_face = dot(ray_direction, &outward_normal).lt(Fixed::zero());
        let normal = if is_front_face {
            outward_normal
        } else {
            outward_normal.neg()
        };
        HitRecord { point, normal, t, is_front_face, material }
    }
}

/// What is left of a hit when the search window ends at `limit`: the hit
/// itself where it lies below the limit, and nothing otherwise.
pub open spec fn below(hit: Option<HitRecord>, limit: Fixed) -> Option<HitRecord> {
    match hit {
        Some(h) => if h.t@ < limit@ {
            Some(h)
        } else {
            None
        },
        None => None,
    }
}

/// Anything a ray can hit. An implementation answers for one ray and one
/// search window, and the answer depends on nothing else.
pub trait Hittable {
    /// The nearest hit of `ray` with a parameter strictly inside `ray_t`.
    spec fn hit_spec(&self, ray: Ray, ray_t: Interval) -> Option<HitRecord>;

    /// The nearest hit of `ray` with a parameter strictly inside `ray_t`.
    fn hit(&self, ray: &Ray, ray_t: Interval) -> (r: Option<HitRecord>)
        ensures
            r == self.hit_spec(*ray, ray_t),
    ;

    /// A hit lies strictly inside the search window.
    proof fn lemma_hit_inside(&self, ray: Ray, ray_t: Interval)
        ensures
            self.hit_spec(ray, ray_t) matches Some(h) ==> ray_t.surrounds_spec(h.t),
    ;

    /// Lowering the end of the search window keeps the hit where it still
    /// lies inside, and finds no other.
    proof fn lemma_hit_narrowed(&self, ray: Ray, ray_t: Interval, limit: Fixed)
        requires
            limit@ <= ray_t.max@,
        ensures
            self.hit_spec(ray, Interval { min: ray_t.min, max: limit }) == below(
                self.hit_spec(ray, ray_t),
                limit,
            ),
    ;
}

/// The nearer of two hits; the first where they share a parameter.
pub open spec fn nearer(first: Option<HitRecord>, second: Option<HitRecord>) -> Option<HitRecord> {
    match (first, second) {
        (Some(f), Some(s)) => if s.t@ < f.t@ {
            second
        } else {
            first
        },
        (Some(_), None) => first,
        (None, _) => second,
    }
}

/// The closest of the hits of the objects; of hits that share a parameter,
/// the one of the object that comes first.
pub open spec fn closest_hit<T: Hittable>(objects: Seq<T>, ray: Ray, ray_t: Interval) -> Option<
    HitRecord,
>
    decreases objects.len(),
{
    if objects.len() == 0 {
        None
    } else {
        nearer(
            closest_hit(objects.drop_last(), ray, ray_t),
            objects.last().hit_spec(ray, ray_t),
        )
    }
}

/// The end of the search window once `best` has been found: the parameter
/// of `best`, or the end of `ray_t` where nothing was found yet.
pub open spec fn limit_after(best: Option<HitRecord>, ray_t: Interval) -> Fixed {
    match best {
        Some(h) => h.t,
        None => ray_t.max,
    }
}

/// The closest hit lies strictly inside the search window.
pub proof fn lemma_closest_inside<T: Hittable>(objects: Seq<T>, ray: Ray, ray_t: Interval)
    ensures
        closest_hit(objects, ray, ray_t) matches Some(h) ==> ray_t.surrounds_spec(h.t),
    decreases objects.len(),
{
    if objects.len() > 0 {
        lemma_closest_inside(objects.drop_last(), ray, ray_t);
        objects.last().lemma_hit_inside(ray, ray_t);
    }
}

/// Asking one more object for a hit strictly closer than the closest found
/// so far, and keeping what it answers, gives the closest hit of all.
pub proof fn lemma_closest_step<T: Hittable>(objects: Seq<T>, ray: Ray, ray_t: Interval)
    requires
        objects.len() > 0,
    ensures
        ({
            let before = closest_hit(objects.drop_last(), ray, ray_t);
            let window = Interval { min: ray_t.min, max: limit_after(before, ray_t) };
            closest_hit(objects, ray, ray_t) == (match objects.last().hit_spec(ray, window) {
                Some(h) => Some(h),
                None => before,
            })
        }),
{
    let before = closest_hit(objects.drop_last(), ray, ray_t);
    lemma_closest_inside(objects.drop_last(), ray, ray_t);
    objects.last().lemma_hit_narrowed(ray, ray_t, limit_after(before, ray_t));
    objects.last().lemma_hit_inside(ray, ray_t);
    assert(ray_t == Interval { min: ray_t.min, max: ray_t.max });
}

/// The closest hit is the hit of one of the objects, and no object has a
/// hit before it. Where there is no closest hit, no object is hit.
pub proof fn lemma_closest_is_nearest<T: Hittable>(objects: Seq<T>, ray: Ray, ray_t: Interval)
    ensures
        match closest_hit(objects, ray, ray_t) {
            Some(best) => {
                &&& exists|i: int|
                    0 <= i < objects.len() && #[trigger] objects[i].hit_spec(ray, ray_t) == Some(
                        best,
                    )
                &&& forall|j: int|
                    0 <= j < objects.len() ==> (#[trigger] objects[j].hit_spec(
                        ray,
                        ray_t,
                    ) matches Some(h) ==> best.t@ <= h.t@)
            },
            None => forall|j: int|
                0 <= j < objects.len() ==> #[trigger] objects[j].hit_spec(ray, ray_t) is None,
        },
    decreases objects.len(),
{
    if objects.len() > 0 {
        let front = objects.drop_last();
        lemma_closest_is_nearest(front, ray, ray_t);
        assert forall|j: int| 0 <= j < front.len() implies front[j] == objects[j] by {}
        match closest_hit(objects, ray, ray_t) {
            Some(best) => {
                if closest_hit(front, ray, ray_t) == Some(best) {
                    let i = choose|i: int|
                        0 <= i < front.len() && #[trigger] front[i].hit_spec(ray, ray_t) == Some(
                            best,
                        );
                    assert(objects[i].hit_spec(ray, ray_t) == Some(best));
                } else {
                    assert(objects[objects.len() - 1].hit_spec(ray, ray_t) == Some(best));
                }
                assert forall|j: int| 0 <= j < objects.len() implies (
                #[trigger] objects[j].hit_spec(ray, ray_t) matches Some(h) ==> best.t@ <= h.t@) by {
                    if j < front.len() {
                        assert(front[j] == objects[j]);
                    }
                }
            },
            None => {
                assert forall|j: int| 0 <= j < objects.len() implies #[trigger] objects[j].hit_spec(
                    ray,
                    ray_t,
                ) is None by {
                    if j < front.len() {
                        assert(front[j] == objects[j]);
                    }
                }
            },
        }
    }
}

/// Lowering the end of the search window keeps the closest hit where it
/// still lies inside, and finds no other.
pub proof fn lemma_closest_narrowed<T: Hittable>(
    objects: Seq<T>,
    ray: Ray,
    ray_t: Interval,
    limit: Fixed,
)
    requires
        limit@ <= ray_t.max@,
    ensures
        closest_hit(objects, ray, Interval { min: ray_t.min, max: limit }) == below(
            closest_hit(objects, ray, ray_t),
            limit,
        ),
    decreases objects.len(),
{
    if objects.len() > 0 {
        lemma_closest_narrowed(objects.drop_last(), ray, ray_t, limit);
        objects.last().lemma_hit_narrowed(ray, ray_t, limit);
    }
}

/// True where `objects[j]` is the object `object`.
pub open spec fn stands_at<T: Hittable>(objects: Seq<T>, j: int, object: T) -> bool {
    0 <= j < objects.len() && objects[j] == object
}

/// True where `object` stands somewhere in `objects`.
pub open spec fn occurs_in<T: Hittable>(object: T, objects: Seq<T>) -> bool {
    exists|j: int| #[trigger] stands_at(objects, j, object)
}

/// True where each object of `a` also stands somewhere in `b`.
pub open spec fn each_occurs_in<T: Hittable>(a: Seq<T>, b: Seq<T>) -> bool {
    forall|i: int| 0 <= i < a.len() ==> occurs_in(#[trigger] a[i], b)
}

/// True where no two hits of the objects share a parameter, except hits
/// that are equal in everything.
pub open spec fn no_ties<T: Hittable>(objects: Seq<T>, ray: Ray, ray_t: Interval) -> bool {
    forall|i: int, j: int|
        0 <= i < objects.len() && 0 <= j < objects.len() ==> (match (
            #[trigger] objects[i].hit_spec(ray, ray_t),
            #[trigger] objects[j].hit_spec(ray, ray_t),
        ) {
            (Some(first), Some(second)) => first.t == second.t ==> first == second,
            _ => true,
        })
}

/// The order of the objects does not matter: two sequences that hold the
/// same objects, in any order and any number of times, give the same hit,
/// unless two different hits share a parameter.
pub proof fn lemma_order_irrelevant<T: Hittable>(a: Seq<T>, b: Seq<T>, ray: Ray, ray_t: Interval)
    requires
        each_occurs_in(a, b),
        each_occurs_in(b, a),
        no_ties(a, ray, ray_t),
    ensures
        closest_hit(a, ray, ray_t) == closest_hit(b, ray, ray_t),
{
    lemma_closest_is_nearest(a, ray, ray_t);
    lemma_closest_is_nearest(b, ray, ray_t);
    if closest_hit(b, ray, ray_t) is Some {
        let best_b = closest_hit(b, ray, ray_t).unwrap();
        let k = choose|k: int|
            0 <= k < b.len() && #[trigger] b[k].hit_spec(ray, ray_t) == Some(best_b);
        let l = choose|l: int| #[trigger] stands_at(a, l, b[k]);
        assert(a[l].hit_spec(ray, ray_t) == Some(best_b));
    }
    if closest_hit(a, ray, ray_t) is Some {
        let best_a = closest_hit(a, ray, ray_t).unwrap();
        let i = choose|i: int|
            0 <= i < a.len() && #[trigger] a[i].hit_spec(ray, ray_t) == Some(best_a);
        let j = choose|j: int| #[trigger] stands_at(b, j, a[i]);
        assert(b[j].hit_spec(ray, ray_t) == Some(best_a));
    }
}

/// A scene of two objects gives the nearer of their two hits, whichever of
/// them was added first; where the two hits share a parameter, it gives
/// that of the object added first.
pub proof fn lemma_pair_gives_nearer<T: Hittable>(first: T, second: T, ray: Ray, ray_t: Interval)
    ensures
        closest_hit(seq![first, second], ray, ray_t) == nearer(
            first.hit_spec(ray, ray_t),
            second.hit_spec(ray, ray_t),
        ),
{
    let both = seq![first, second];
    let front = both.drop_last();
    assert(front =~= seq![first]);
    assert(front.drop_last() =~= Seq::<T>::empty());
    assert(closest_hit(front.drop_last(), ray, ray_t) is None);
    assert(front.last() == first);
    assert(closest_hit(front, ray, ray_t) == first.hit_spec(ray, ray_t));
}

/// A scene: a list of objects, itself something a ray can hit.
pub struct HittableList<T: Hittable> {
    pub objects: Vec<T>,
}

impl<T: Hittable> HittableList<T> {
    /// The empty scene.
    pub fn new() -> (r: Self)
        ensures
            r.objects@.len() == 0,
    {
        HittableList { objects: Vec::new() }
    }

    /// Appends an object.
    pub fn add(&mut self, object: T)
        ensures
            final(self).objects@ == old(self).objects@.push(object),
    {
        self.objects.push(object);
    }

    /// Removes every object.
    pub fn clear(&mut self)
        ensures
            final(self).objects@.len() == 0,
    {
        self.objects.clear();
    }
}

impl<T: Hittable> Hittable for HittableList<T> {
    /// The closest hit among the objects; of two hits at the same
    /// parameter, the one of the object that comes first.
    open spec fn hit_spec(&self, ray: Ray, ray_t: Interval) -> Option<HitRecord> {
        closest_hit(self.objects@, ray, ray_t)
    }

    fn hit(&self, ray: &Ray, ray_t: Interval) -> (r: Option<HitRecord>) {
        let mut closest_hit_record: Option<HitRecord> = None;
        let mut closest_so_far = ray_t.max;
        let mut i: usize = 0;
        while i < self.objects.len()
            invariant
                0 <= i <= self.objects.len(),
                closest_hit_record == closest_hit(self.objects@.take(i as int), *ray, ray_t),
                closest_so_far == limit_after(closest_hit_record, ray_t),
            decreases self.objects.len() - i,
        {
            proof {
                assert(self.objects@.take(i + 1).drop_last() == self.objects@.take(i as int));
                lemma_closest_step(self.objects@.take(i + 1), *ray, ray_t);
            }
            let window = Interval::new(ray_t.min, closest_so_far);
            if let Some(hit) = self.objects[i].hit(ray, window) {
                closest_so_far = hit.t;
                closest_hit_record = Some(hit);
            }
            i = i + 1;
        }
        proof {
            assert(self.objects@.take(i as int) == self.objects@);
        }
        closest_hit_record
    }

    proof fn lemma_hit_inside(&self, ray: Ray, ray_t: Interval) {
        lemma_closest_inside(self.objects@, ray, ray_t);
    }

    proof fn lemma_hit_narrowed(&self, ray: Ray, ray_t: Interval, limit: Fixed) {
        lemma_closest_narrowed(self.objects@, ray, ray_t, limit);
    }
}

} // verus!
