use path_tracer::fixed::{Fx, SCALE};
use path_tracer::hittable::HitRecord;
use path_tracer::material::{Lambertian, Material, Metal};
use path_tracer::ray::Ray;
use path_tracer::vec3::Vec3;
use rand::SeedableRng;

fn v(x: i64, y: i64, z: i64) -> Vec3 {
    Vec3::new(Fx::from_int(x), Fx::from_int(y), Fx::from_int(z))
}

fn record_at(point: Vec3, normal: Vec3, material: Material) -> HitRecord {
    HitRecord { point, material, t: Fx::new(SCALE / 2), normal, front_face: true }
}

#[test]
fn lambertian_attenuation_is_albedo() {
    let albedo = Vec3::new(Fx::new(6553), Fx::new(13107), Fx::new(32768));
    let lambertian = Lambertian { albedo };
    let material = Material::Lambertian(lambertian);
    let record = record_at(v(0, 0, -1), v(0, 0, 1), material);
    let ray = Ray { origin: v(0, 0, 0), direction: v(0, 0, -1) };
    let mut rng = rand::rngs::StdRng::seed_from_u64(3);
    for _ in 0..20 {
        let scatter = lambertian
            .scatter(&ray, &record, &mut rng)
            .expect("a diffuse surface always scatters");
        assert_eq!(scatter.attenuation, albedo);
        assert_eq!(scatter.scattered_ray.origin, record.point);
    }
}

#[test]
fn metal_mirror_reflects_exactly() {
    let albedo = Vec3::new(Fx::new(52428), Fx::new(52428), Fx::new(52428));
    let metal = Metal { albedo, fuzz: Fx::new(0) };
    let record = record_at(v(0, 0, -1), v(0, 0, 1), Material::Metal(metal));
    let ray = Ray { origin: v(1, 0, 1), direction: v(1, 0, -1) };
    let mut rng = rand::rngs::StdRng::seed_from_u64(3);
    let scatter = metal.scatter(&ray, &record, &mut rng).expect("mirror must scatter");
    assert_eq!(scatter.attenuation, albedo);
    // Normalized reflection of (1, 0, -1) about +z, no fuzz.
    let d = scatter.scattered_ray.direction;
    assert_eq!((d.x.raw, d.y.raw, d.z.raw), (46341, 0, 46341));
    // A reported metal scatter always leaves the surface.
    assert!(Vec3::dot(&d, &record.normal).raw > 0);
}

#[test]
fn metal_absorbs_into_surface() {
    let albedo = Vec3::new(Fx::new(52428), Fx::new(52428), Fx::new(52428));
    let metal = Metal { albedo, fuzz: Fx::new(0) };
    // A normal pointing along the ray sends the reflection below the
    // surface, so the scatter is rejected.
    let record = record_at(v(0, 0, -1), v(0, 0, -1), Material::Metal(metal));
    let ray = Ray { origin: v(0, 0, 0), direction: v(0, 0, -1) };
    let mut rng = rand::rngs::StdRng::seed_from_u64(3);
    assert!(metal.scatter(&ray, &record, &mut rng).is_none());
}

#[test]
fn material_dispatch_matches_variants() {
    let albedo = Vec3::new(Fx::new(6553), Fx::new(13107), Fx::new(32768));
    let diffuse = Material::Lambertian(Lambertian { albedo });
    let record = record_at(v(0, 0, -1), v(0, 0, 1), diffuse);
    let ray = Ray { origin: v(0, 0, 0), direction: v(0, 0, -1) };
    let mut rng = rand::rngs::StdRng::seed_from_u64(9);
    let scatter = diffuse.scatter(&ray, &record, &mut rng).expect("diffuse always scatters");
    assert_eq!(scatter.attenuation, albedo);

    let metal = Material::Metal(Metal { albedo, fuzz: Fx::new(0) });
    let metal_record = record_at(v(0, 0, -1), v(0, 0, -1), metal);
    assert!(metal.scatter(&ray, &metal_record, &mut rng).is_none());
}
