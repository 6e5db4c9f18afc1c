//! Material scattering: diffuse (Lambertian) and specular (Metal) variants.

use crate::fixed::Fx;
use crate::hittable::HitRecord;
use crate::ray::Ray;
use crate::vec3::{unit_sample, v3_in_range, Vec3};
use vstd::prelude::*;

verus! {

/// A successful scatter: the energy kept per channel and the outgoing ray.
#[derive(Clone, Copy, PartialEq, Eq, Structural, Debug)]
pub struct MaterialHit {
    pub attenuation: Vec3,
    pub scattered_ray: Ray,
}

/// Diffuse reflector.
#[derive(Clone, Copy, PartialEq, Eq, Structural, Debug)]
pub struct Lambertian {
    pub albedo: Vec3,
}

/// Specular reflector with a roughness factor (`fuzz == 0` is a mirror).
#[derive(Clone, Copy, PartialEq, Eq, Structural, Debug)]
pub struct Metal {
    pub albedo: Vec3,
    pub fuzz: Fx,
}

/// The closed set of materials, dispatched by variant.
#[derive(Clone, Copy, PartialEq, Eq, Structural, Debug)]
pub enum Material {
    Lambertian(Lambertian),
    Metal(Metal),
}

/// One admissible outcome of the scattering law for `material` at `rec`,
/// struck by `ray_in`: the outgoing ray starts at the hit point, the
/// attenuation is exactly the albedo, and the direction follows the
/// variant's law for some sample of the direction sampler — diffuse adds a
/// sample to the normal (falling back to the normal when that degenerates),
/// metal perturbs the normalized mirror reflection by `fuzz` times a sample
/// and must leave the surface.
pub open spec fn scatter_possible(
    material: Material,
    ray_in: Ray,
    rec: HitRecord,
    mh: MaterialHit,
) -> bool {
    &&& mh.scattered_ray.origin == rec.point
    &&& mh.attenuation == material.albedo_spec()
    &&& match material {
        Material::Lambertian(_) => exists|u: Vec3|
            #[trigger] unit_sample(u) && mh.scattered_ray.direction == (
            if rec.normal.add_spec(u).is_near_zero_spec() {
                rec.normal
            } else {
                rec.normal.add_spec(u)
            }),
        Material::Metal(m) => Vec3::dot_spec(mh.scattered_ray.direction, rec.normal).raw > 0
            && exists|u: Vec3|
            #[trigger] unit_sample(u) && mh.scattered_ray.direction == Vec3::reflect_spec(
                ray_in.direction,
                rec.normal,
            ).normalized_spec().add_spec(u.mul_spec(m.fuzz)),
    }
}

impl Lambertian {
    /// Scatter toward `normal + random_unit_vector()`, falling back to the
    /// normal itself when that sum degenerates. A diffuse surface always
    /// scatters, and its attenuation is exactly the albedo.
    pub fn scatter(&self, _ray_in: &Ray, hit_record: &HitRecord, rng: &mut rand::rngs::StdRng) -> (r:
        Option<MaterialHit>)
        ensures
            match r {
                Option::Some(mh) => scatter_possible(
                    Material::Lambertian(*self),
                    *_ray_in,
                    *hit_record,
                    mh,
                ),
                Option::None => false,
            },
    {
        let random_unit = Vec3::random_unit_vector(rng);
        let mut scatter_direction = hit_record.normal.add(random_unit);
        if scatter_direction.is_near_zero() {
            scatter_direction = hit_record.normal;
        }
        let attenuation = self.albedo;
        let scattered_ray = Ray { origin: hit_record.point, direction: scatter_direction };
        Some(MaterialHit { attenuation, scattered_ray })
    }
}

impl Metal {
    /// Mirror the incoming direction, normalize, then perturb by
    /// `fuzz * random_unit_vector()`. The scatter is rejected (absorbed)
    /// exactly when the perturbed direction fails to leave the surface, so a
    /// reported scatter satisfies `dot(scattered, normal) > 0` and carries
    /// the albedo as attenuation; a perfect mirror (`fuzz == 0`) scatters if
    /// and only if the normalized reflection itself leaves the surface.
    pub fn scatter(&self, ray_in: &Ray, hit_record: &HitRecord, rng: &mut rand::rngs::StdRng) -> (r:
        Option<MaterialHit>)
        ensures
            match r {
                Option::Some(mh) => scatter_possible(
                    Material::Metal(*self),
                    *ray_in,
                    *hit_record,
                    mh,
                ),
                Option::None => exists|u: Vec3|
                    unit_sample(u) && Vec3::dot_spec(
                    Vec3::reflect_spec(ray_in.direction, hit_record.normal).normalized_spec()
                        .add_spec(#[trigger] u.mul_spec(self.fuzz)),
                    hit_record.normal,
                ).raw <= 0,
            },
            self.fuzz.raw == 0 ==> (r is Some <==> Vec3::dot_spec(
                Vec3::reflect_spec(ray_in.direction, hit_record.normal).normalized_spec(),
                hit_record.normal,
            ).raw > 0),
    {
        let mut reflected_direction = Vec3::reflect(&ray_in.direction, &hit_record.normal);
        let random_unit = Vec3::random_unit_vector(rng);
        reflected_direction = reflected_direction.normalized().add(random_unit.mul(self.fuzz));
        proof {
            if self.fuzz.raw == 0 {
                let mirror = Vec3::reflect_spec(ray_in.direction, hit_record.normal)
                    .normalized_spec();
                assert(v3_in_range(mirror));
                assert(random_unit.mul_spec(self.fuzz) == (Vec3 {
                    x: Fx { raw: 0 },
                    y: Fx { raw: 0 },
                    z: Fx { raw: 0 },
                }));
                assert(reflected_direction == mirror);
            }
        }
        let attenuation = self.albedo;
        let scattered_ray = Ray { origin: hit_record.point, direction: reflected_direction };
        proof {
            assert(unit_sample(random_unit) && scattered_ray.direction == Vec3::reflect_spec(
                ray_in.direction,
                hit_record.normal,
            ).normalized_spec().add_spec(random_unit.mul_spec(self.fuzz)));
            if Vec3::dot_spec(scattered_ray.direction, hit_record.normal).raw > 0 {
                assert(exists|u: Vec3|
                    unit_sample(u) && scattered_ray.direction == Vec3::reflect_spec(
                        ray_in.direction,
                        hit_record.normal,
                    ).normalized_spec().add_spec(#[trigger] u.mul_spec(self.fuzz)));
                assert(scatter_possible(
                    Material::Metal(*self),
                    *ray_in,
                    *hit_record,
                    MaterialHit { attenuation, scattered_ray },
                ));
            }
        }
        if Vec3::dot(&scattered_ray.direction, &hit_record.normal).raw > 0 {
            Some(MaterialHit { attenuation, scattered_ray })
        } else {
            None
        }
    }
}

impl Material {
    pub open spec fn albedo_spec(self) -> Vec3 {
        match self {
            Material::Lambertian(l) => l.albedo,
            Material::Metal(m) => m.albedo,
        }
    }

    /// Dispatch to the variant's scattering law. Every reported scatter
    /// starts at the hit point and is attenuated by exactly the albedo; a
    /// diffuse material always scatters; a metal scatter leaves the surface.
    pub fn scatter(&self, ray_in: &Ray, hit_record: &HitRecord, rng: &mut rand::rngs::StdRng) -> (r:
        Option<MaterialHit>)
        ensures
            match r {
                Option::Some(mh) => scatter_possible(*self, *ray_in, *hit_record, mh),
                Option::None => self is Metal,
            },
            match self {
                Material::Metal(m) => (m.fuzz.raw == 0 ==> (r is Some <==> Vec3::dot_spec(
                    Vec3::reflect_spec(ray_in.direction, hit_record.normal).normalized_spec(),
                    hit_record.normal,
                ).raw > 0)) && (r is None ==> exists|u: Vec3|
                    unit_sample(u) && Vec3::dot_spec(
                    Vec3::reflect_spec(ray_in.direction, hit_record.normal).normalized_spec()
                        .add_spec(#[trigger] u.mul_spec(m.fuzz)),
                    hit_record.normal,
                ).raw <= 0),
                Material::Lambertian(_) => true,
            },
    {
        match self {
            Material::Lambertian(l) => l.scatter(ray_in, hit_record, rng),
            Material::Metal(m) => m.scatter(ray_in, hit_record, rng),
        }
    }
}

} // verus!
