//! The sole geometric primitive: a sphere, intersected by solving a
//! quadratic in the ray parameter.

use crate::fixed::{lemma_fx_sqrt_bounds, lemma_sdiv_monotone, sat, Fx, MINUS_ONE_RAW, SCALE};
use crate::hittable::{narrow_of, HitRecord, Hittable};
use crate::interval::Interval;
use crate::material::Material;
use crate::ray::Ray;
use crate::vec3::{lemma_dot_neg, lemma_length_squared_nonneg, v3_in_range, Vec3};
use vstd::prelude::*;

verus! {

#[derive(Clone, Copy, PartialEq, Eq, Structural, Debug)]
pub struct Sphere {
    pub center: Vec3,
    pub radius: Fx,
    pub material: Material,
}

impl Sphere {
    /// A negative radius is clamped to zero.
    pub fn new(center: Vec3, radius: Fx, material: Material) -> (s: Sphere)
        ensures
            s.center == center,
            s.material == material,
            s.radius.raw == if radius.raw < 0 {
                0int
            } else {
                radius.raw as int
            },
    {
        let clamped = if radius.raw < 0 {
            Fx { raw: 0 }
        } else {
            radius
        };
        Sphere { center, radius: clamped, material }
    }

    /// Vector from the ray origin to the center.
    pub open spec fn oc_spec(self, ray: Ray) -> Vec3 {
        self.center.sub_spec(ray.origin)
    }

    /// Leading quadratic coefficient: the direction's squared length.
    pub open spec fn a_spec(self, ray: Ray) -> Fx {
        ray.direction.length_squared_spec()
    }

    /// Half the negated linear coefficient.
    pub open spec fn h_spec(self, ray: Ray) -> Fx {
        Vec3::dot_spec(ray.direction, self.oc_spec(ray))
    }

    /// Constant coefficient.
    pub open spec fn c_spec(self, ray: Ray) -> Fx {
        self.oc_spec(ray).length_squared_spec().sub_spec(self.radius.mul_spec(self.radius))
    }

    pub open spec fn discriminant_spec(self, ray: Ray) -> Fx {
        self.h_spec(ray).mul_spec(self.h_spec(ray)).sub_spec(
            self.a_spec(ray).mul_spec(self.c_spec(ray)),
        )
    }

    /// The nearer quadratic root `(h - sqrt(disc)) / a`.
    pub open spec fn root1_spec(self, ray: Ray) -> Fx {
        self.h_spec(ray).sub_spec(self.discriminant_spec(ray).sqrt_spec()).div_spec(
            self.a_spec(ray),
        )
    }

    /// The farther quadratic root `(h + sqrt(disc)) / a`.
    pub open spec fn root2_spec(self, ray: Ray) -> Fx {
        self.h_spec(ray).add_spec(self.discriminant_spec(ray).sqrt_spec()).div_spec(
            self.a_spec(ray),
        )
    }

    /// The record reported for a root `t`: the struck point, the outward
    /// normal oriented against the ray, and this sphere's material.
    pub open spec fn record_spec(self, ray: Ray, t: Fx) -> HitRecord {
        let point = ray.at_spec(t);
        let outward_normal = point.sub_spec(self.center).div_spec(self.radius);
        HitRecord::new_spec(point, t, ray, outward_normal, self.material)
    }
}

impl Hittable for Sphere {
    /// No hit on a degenerate sphere or ray, or a negative discriminant;
    /// otherwise the nearer root strictly inside the interval, then the
    /// farther, else no hit.
    open spec fn hit_spec(&self, ray: Ray, range: Interval) -> Option<HitRecord> {
        if self.radius.raw <= 0 {
            None
        } else if self.a_spec(ray).raw == 0 {
            None
        } else if self.discriminant_spec(ray).raw < 0 {
            None
        } else if range.surrounds_spec(self.root1_spec(ray)) {
            Some(self.record_spec(ray, self.root1_spec(ray)))
        } else if range.surrounds_spec(self.root2_spec(ray)) {
            Some(self.record_spec(ray, self.root2_spec(ray)))
        } else {
            None
        }
    }

    fn hit(&self, ray: &Ray, ray_t_range: &Interval) -> (r: Option<HitRecord>)
        ensures
            match r {
                Option::Some(h) => ray_t_range.surrounds_spec(h.t) && Vec3::dot_spec(
                    ray.direction,
                    h.normal,
                ).raw <= 0,
                Option::None => true,
            },
    {
        proof {
            lemma_hit_t_inside(*self, *ray, *ray_t_range);
            lemma_hit_normal_oriented(*self, *ray, *ray_t_range);
        }
        if self.radius.raw <= 0 {
            return None;
        }
        let oc = self.center.sub(ray.origin);
        let a = ray.direction.length_squared();
        if a.raw == 0 {
            return None;
        }
        let h = Vec3::dot(&ray.direction, &oc);
        let c = oc.length_squared().sub(self.radius.mul(self.radius));

        let discriminant = h.mul(h).sub(a.mul(c));
        if discriminant.raw < 0 {
            return None;
        }

        let sqrt_discriminant = discriminant.sqrt();

        // Find the nearest root that lies in the acceptable range.
        let mut root = h.sub(sqrt_discriminant).div(a);
        if !ray_t_range.surrounds(&root) {
            root = h.add(sqrt_discriminant).div(a);
            if !ray_t_range.surrounds(&root) {
                return None;
            }
        }

        let t = root;
        let point = ray.at(t);
        let outward_normal = point.sub(self.center).div(self.radius);
        Some(HitRecord::new(point, t, ray, outward_normal, self.material))
    }
}

/// Parameter of the nearer intersection of a ray with a sphere, or -1 when
/// the ray misses. A single-sphere preview of the full intersection
/// protocol; the ray's direction must not be degenerate, since its squared
/// length divides the root.
pub open spec fn hit_sphere_spec(center: Vec3, radius: Fx, ray: Ray) -> Fx {
    let oc = center.sub_spec(ray.origin);
    let a = ray.direction.length_squared_spec();
    let h = Vec3::dot_spec(ray.direction, oc);
    let c = oc.length_squared_spec().sub_spec(radius.mul_spec(radius));
    let discriminant = h.mul_spec(h).sub_spec(a.mul_spec(c));
    if discriminant.raw < 0 {
        Fx { raw: MINUS_ONE_RAW }
    } else {
        h.sub_spec(discriminant.sqrt_spec()).div_spec(a)
    }
}

pub fn hit_sphere(center: &Vec3, radius: Fx, ray: &Ray) -> (t: Fx)
    requires
        ray.direction.length_squared_spec().raw != 0,
    ensures
        t == hit_sphere_spec(*center, radius, *ray),
{
    let oc = center.sub(ray.origin);
    let a = ray.direction.length_squared();
    let h = Vec3::dot(&ray.direction, &oc);
    let c = oc.length_squared().sub(radius.mul(radius));

    let discriminant = h.mul(h).sub(a.mul(c));
    if discriminant.raw < 0 {
        Fx { raw: MINUS_ONE_RAW }
    } else {
        h.sub(discriminant.sqrt()).div(a)
    }
}

/// The nearer root never exceeds the farther one.
pub proof fn lemma_roots_ordered(s: Sphere, ray: Ray)
    requires
        s.a_spec(ray).raw > 0,
    ensures
        s.root1_spec(ray).raw <= s.root2_spec(ray).raw,
{
    let h = s.h_spec(ray).raw as int;
    let sq = s.discriminant_spec(ray).sqrt_spec().raw as int;
    let a = s.a_spec(ray).raw as int;
    lemma_fx_sqrt_bounds(s.discriminant_spec(ray).raw as int);
    assert(sq >= 0);
    let num1 = sat(h - sq);
    let num2 = sat(h + sq);
    assert(num1 <= num2);
    lemma_sdiv_monotone(num1 * (SCALE as int), num2 * (SCALE as int), a);
}

/// Parameter of a reported hit lies strictly inside the queried interval.
pub proof fn lemma_hit_t_inside(s: Sphere, ray: Ray, range: Interval)
    ensures
        match s.hit_spec(ray, range) {
            Option::Some(h) => range.surrounds_spec(h.t),
            Option::None => true,
        },
{
}

/// Narrowing the far end of the interval keeps exactly the hits whose
/// parameter lies below the new bound: the scan over scene members may
/// shrink the interval to the closest hit found so far without changing
/// any member's answer about nearer hits.
pub proof fn lemma_hit_spec_narrow(s: Sphere, ray: Ray, min: Fx, max: Fx, b: Fx)
    requires
        b.raw <= max.raw,
    ensures
        s.hit_spec(ray, Interval { min, max: b }) == narrow_of(
            s.hit_spec(ray, Interval { min, max }),
            b,
        ),
{
    if s.radius.raw <= 0 || s.a_spec(ray).raw == 0 || s.discriminant_spec(ray).raw < 0 {
    } else {
        lemma_length_squared_nonneg(ray.direction);
        lemma_roots_ordered(s, ray);
    }
}

/// Law: the stored normal of any reported hit points against the incoming
/// ray (`dot(direction, normal) <= 0`).
pub proof fn lemma_hit_normal_oriented(s: Sphere, ray: Ray, range: Interval)
    ensures
        match s.hit_spec(ray, range) {
            Option::Some(h) => Vec3::dot_spec(ray.direction, h.normal).raw <= 0,
            Option::None => true,
        },
{
    match s.hit_spec(ray, range) {
        Option::Some(h) => {
            let t = h.t;
            let point = ray.at_spec(t);
            let outward_normal = point.sub_spec(s.center).div_spec(s.radius);
            assert(v3_in_range(outward_normal));
            if Vec3::dot_spec(ray.direction, outward_normal).raw < 0 {
            } else {
                lemma_dot_neg(ray.direction, outward_normal);
            }
        },
        Option::None => {},
    }
}

} // verus!
