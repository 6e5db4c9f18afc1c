//! The intersection protocol: hit records, the `Hittable` capability, and
//! the scene aggregate with its nearest-hit guarantee.

use crate::fixed::Fx;
use crate::interval::Interval;
use crate::material::Material;
use crate::ray::Ray;
use crate::sphere::{lemma_hit_normal_oriented, lemma_hit_spec_narrow, lemma_hit_t_inside, Sphere};
use crate::vec3::Vec3;
use vstd::prelude::*;

verus! {

/// The outcome of a ray striking a surface. The stored normal is the
/// outward normal when the ray arrives from outside (`front_face`), its
/// negation otherwise, so it always points against the incoming ray.
#[derive(Clone, Copy, PartialEq, Eq, Structural, Debug)]
pub struct HitRecord {
    pub point: Vec3,
    pub material: Material,
    pub t: Fx,
    pub normal: Vec3,
    pub front_face: bool,
}

impl HitRecord {
    pub open spec fn new_spec(
        point: Vec3,
        t: Fx,
        ray: Ray,
        outward_normal: Vec3,
        material: Material,
    ) -> HitRecord {
        let front_face = Vec3::dot_spec(ray.direction, outward_normal).raw < 0;
        HitRecord {
            point,
            material,
            t,
            normal: if front_face {
                outward_normal
            } else {
                outward_normal.neg_spec()
            },
            front_face,
        }
    }

    /// `outward_normal` is expected to have roughly unit length, though
    /// nothing here relies on that: only the sign of its dot product with
    /// the ray decides the stored orientation — it is kept when the ray
    /// arrives against it and negated otherwise.
    pub fn new(point: Vec3, t: Fx, ray: &Ray, outward_normal: Vec3, material: Material) -> (r:
        HitRecord)
        ensures
            r == HitRecord::new_spec(point, t, *ray, outward_normal, material),
    {
        let front_face = Vec3::dot(&ray.direction, &outward_normal).raw < 0;
        let normal = if front_face {
            outward_normal
        } else {
            outward_normal.neg()
        };
        HitRecord { point, material, t, normal, front_face }
    }
}

/// The polymorphic intersection contract: an implementor's `hit` equals its
/// own deterministic `hit_spec`.
pub trait Hittable {
    spec fn hit_spec(&self, ray: Ray, range: Interval) -> Option<HitRecord>;

    fn hit(&self, ray: &Ray, ray_t_range: &Interval) -> (r: Option<HitRecord>)
        ensures
            r == self.hit_spec(*ray, *ray_t_range),
    ;
}

/// Of a candidate and a challenger, the challenger wins only when strictly
/// closer; ties keep the earlier candidate.
pub open spec fn better_of(first: Option<HitRecord>, rest: Option<HitRecord>) -> Option<
    HitRecord,
> {
    match (first, rest) {
        (Option::None, r) => r,
        (Option::Some(h), Option::None) => Some(h),
        (Option::Some(h), Option::Some(h2)) => if h2.t.raw < h.t.raw {
            Some(h2)
        } else {
            Some(h)
        },
    }
}

/// Restrict a hit to parameters strictly below `b`.
pub open spec fn narrow_of(r: Option<HitRecord>, b: Fx) -> Option<HitRecord> {
    match r {
        Option::Some(h) => if h.t.raw < b.raw {
            Some(h)
        } else {
            None
        },
        Option::None => None,
    }
}

/// The nearest hit among all members, each queried independently over the
/// same interval; on an exact parameter tie the earliest member wins.
pub open spec fn scene_hit_spec(objects: Seq<Sphere>, ray: Ray, range: Interval) -> Option<
    HitRecord,
>
    decreases objects.len(),
{
    if objects.len() == 0 {
        None
    } else {
        better_of(objects[0].hit_spec(ray, range), scene_hit_spec(objects.skip(1), ray, range))
    }
}

impl Hittable for Vec<Sphere> {
    open spec fn hit_spec(&self, ray: Ray, range: Interval) -> Option<HitRecord> {
        scene_hit_spec(self@, ray, range)
    }

    /// Linear scan keeping the nearest hit: each member is queried with the
    /// interval narrowed to the closest parameter found so far, which is
    /// proved equal to the nearest of the members' independent answers.
    fn hit(&self, ray: &Ray, ray_t_range: &Interval) -> (r: Option<HitRecord>)
        ensures
            match r {
                Option::Some(h) => ray_t_range.surrounds_spec(h.t) && Vec3::dot_spec(
                    ray.direction,
                    h.normal,
                ).raw <= 0,
                Option::None => true,
            },
    {
        proof {
            lemma_scene_hit_is_nearest(self@, *ray, *ray_t_range);
            match scene_hit_spec(self@, *ray, *ray_t_range) {
                Option::Some(h) => {
                    let w = choose|w: int|
                        0 <= w < self@.len() && #[trigger] self@[w].hit_spec(*ray, *ray_t_range)
                            == Some(h);
                    lemma_hit_t_inside(self@[w], *ray, *ray_t_range);
                    lemma_hit_normal_oriented(self@[w], *ray, *ray_t_range);
                },
                Option::None => {},
            }
        }
        let mut result: Option<HitRecord> = None;
        let mut closest_t_so_far: Fx = ray_t_range.max;
        let mut i: usize = 0;
        proof {
            assert(self@.skip(0) =~= self@);
        }
        while i < self.len()
            invariant
                i <= self@.len(),
                closest_t_so_far.raw <= ray_t_range.max.raw,
                match result {
                    Option::None => closest_t_so_far == ray_t_range.max,
                    Option::Some(h) => closest_t_so_far == h.t,
                },
                better_of(result, scene_hit_spec(self@.skip(i as int), *ray, *ray_t_range))
                    == scene_hit_spec(self@, *ray, *ray_t_range),
            decreases self@.len() - i,
        {
            let object = &self[i];
            let hit_result = object.hit(
                ray,
                &Interval { min: ray_t_range.min, max: closest_t_so_far },
            );
            proof {
                lemma_hit_spec_narrow(
                    self@[i as int],
                    *ray,
                    ray_t_range.min,
                    ray_t_range.max,
                    closest_t_so_far,
                );
                lemma_hit_t_inside(self@[i as int], *ray, *ray_t_range);
                assert(self@.skip(i as int).skip(1) =~= self@.skip(i as int + 1));
                assert(self@.skip(i as int)[0] == self@[i as int]);
            }
            match hit_result {
                Option::Some(hit_record) => {
                    closest_t_so_far = hit_record.t;
                    result = Some(hit_record);
                },
                Option::None => {},
            }
            i = i + 1;
        }
        proof {
            assert(self@.skip(i as int) =~= Seq::<Sphere>::empty());
        }
        result
    }
}

/// Law: the scene aggregate's answer is the minimum-parameter result of
/// querying each member independently over the same interval — some member
/// reports exactly the returned hit and no member reports a strictly closer
/// one; and the aggregate misses only when every member does.
#[verifier::rlimit(100)]
#[verifier::spinoff_prover]
pub proof fn lemma_scene_hit_is_nearest(objects: Seq<Sphere>, ray: Ray, range: Interval)
    ensures
        match scene_hit_spec(objects, ray, range) {
            Option::Some(h) => (exists|i: int|
                0 <= i < objects.len() && #[trigger] objects[i].hit_spec(ray, range) == Some(h))
                && (forall|i: int|
                0 <= i < objects.len() ==> match #[trigger] objects[i].hit_spec(ray, range) {
                    Option::Some(h2) => h.t.raw <= h2.t.raw,
                    Option::None => true,
                }),
            Option::None => forall|i: int|
                0 <= i < objects.len() ==> #[trigger] objects[i].hit_spec(ray, range) is None,
        },
    decreases objects.len(),
{
    if objects.len() == 0 {
    } else {
        let first = objects[0].hit_spec(ray, range);
        let rest = scene_hit_spec(objects.skip(1), ray, range);
        lemma_scene_hit_is_nearest(objects.skip(1), ray, range);
        assert(forall|j: int|
            0 <= j < objects.skip(1).len() ==> #[trigger] objects.skip(1)[j] == objects[j + 1]);
        match scene_hit_spec(objects, ray, range) {
            Option::Some(h) => {
                if first == Some(h) {
                    assert(objects[0].hit_spec(ray, range) == Some(h));
                } else {
                    assert(rest == Some(h));
                    let j = choose|j: int|
                        0 <= j < objects.skip(1).len() && #[trigger] objects.skip(1)[j].hit_spec(
                            ray,
                            range,
                        ) == Some(h);
                    assert(objects[j + 1].hit_spec(ray, range) == Some(h));
                }
                assert forall|i: int| 0 <= i < objects.len() implies match #[trigger] objects[i].hit_spec(
                    ray,
                    range,
                ) {
                    Option::Some(h2) => h.t.raw <= h2.t.raw,
                    Option::None => true,
                } by {
                    if i > 0 {
                        assert(objects[i] == objects.skip(1)[i - 1]);
                        assert(objects.skip(1)[i - 1].hit_spec(ray, range) == objects[i].hit_spec(
                            ray,
                            range,
                        ));
                        match rest {
                            Option::Some(hr) => {
                                assert(h.t.raw <= hr.t.raw);
                            },
                            Option::None => {
                                assert(objects.skip(1)[i - 1].hit_spec(ray, range) is None);
                            },
                        }
                    }
                }
            },
            Option::None => {
                assert(first is None && rest is None);
                assert forall|i: int| 0 <= i < objects.len() implies #[trigger] objects[i].hit_spec(
                    ray,
                    range,
                ) is None by {
                    if i > 0 {
                        assert(objects[i] == objects.skip(1)[i - 1]);
                        assert(objects.skip(1)[i - 1].hit_spec(ray, range) is None);
                    }
                }
            },
        }
    }
}

} // verus!
