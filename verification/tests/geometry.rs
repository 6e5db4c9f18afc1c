use path_tracer::fixed::{Fx, MAX_RAW, SCALE};
use path_tracer::hittable::Hittable;
use path_tracer::interval::Interval;
use path_tracer::material::{Lambertian, Material};
use path_tracer::ray::Ray;
use path_tracer::sphere::{hit_sphere, Sphere};
use path_tracer::vec3::Vec3;

fn gray() -> Material {
    let half = Fx::new(SCALE / 2);
    Material::Lambertian(Lambertian { albedo: Vec3::new(half, half, half) })
}

fn v(x: i64, y: i64, z: i64) -> Vec3 {
    Vec3::new(Fx::from_int(x), Fx::from_int(y), Fx::from_int(z))
}

fn full_range() -> Interval {
    Interval::new(Fx::new(65), Fx::new(MAX_RAW))
}

#[test]
fn interval_surrounds_is_strict() {
    let r = Interval::new(Fx::from_int(1), Fx::from_int(2));
    assert!(!r.surrounds(&Fx::from_int(1)));
    assert!(!r.surrounds(&Fx::from_int(2)));
    assert!(r.surrounds(&Fx::new(3 * SCALE / 2)));
    assert!(!r.surrounds(&Fx::from_int(0)));
}

#[test]
fn interval_clamp_saturates() {
    let r = Interval::new(Fx::from_int(0), Fx::from_int(1));
    assert_eq!(r.clamp(&Fx::from_int(-3)).raw, 0);
    assert_eq!(r.clamp(&Fx::from_int(5)).raw, SCALE);
    assert_eq!(r.clamp(&Fx::new(123)).raw, 123);
}

#[test]
fn sphere_head_on_hit() {
    let sphere = Sphere::new(v(0, 0, -1), Fx::new(SCALE / 2), gray());
    let ray = Ray { origin: v(0, 0, 0), direction: v(0, 0, -1) };
    let hit = sphere.hit(&ray, &full_range()).expect("must hit");
    // Parameter strictly inside the interval, exactly one half here.
    assert_eq!(hit.t.raw, SCALE / 2);
    assert!(full_range().surrounds(&hit.t));
    // The struck point is at distance radius from the center.
    let distance = hit.point.sub(sphere.center).length();
    assert!((distance.raw - sphere.radius.raw).abs() <= 4);
    // The normal is unit length and points against the ray.
    assert_eq!((hit.normal.x.raw, hit.normal.y.raw, hit.normal.z.raw), (0, 0, SCALE));
    assert!(hit.front_face);
    assert!(Vec3::dot(&ray.direction, &hit.normal).raw <= 0);
}

#[test]
fn sphere_slanted_hit_normal_is_near_unit() {
    let sphere = Sphere::new(v(0, 0, -1), Fx::new(SCALE / 2), gray());
    // A slanted ray that still strikes the sphere.
    let ray = Ray {
        origin: v(0, 0, 0),
        direction: Vec3::new(Fx::new(19661), Fx::new(6553), Fx::new(-SCALE)),
    };
    let hit = sphere.hit(&ray, &full_range()).expect("must hit");
    assert!(full_range().surrounds(&hit.t));
    assert!(Vec3::dot(&ray.direction, &hit.normal).raw <= 0);
    let normal_lsq = hit.normal.length_squared().raw;
    assert!((normal_lsq - SCALE).abs() < 600, "squared length {normal_lsq}");
    let distance = hit.point.sub(sphere.center).length();
    assert!((distance.raw - sphere.radius.raw).abs() <= 8);
}

#[test]
fn sphere_hit_from_inside_flips_normal() {
    let sphere = Sphere::new(v(0, 0, -1), Fx::new(SCALE / 2), gray());
    let ray = Ray { origin: v(0, 0, 0), direction: v(0, 0, -1) };
    // Exclude the nearer root at one half: the interval starts at 0.6.
    let range = Interval::new(Fx::new(39322), Fx::from_int(2));
    let hit = sphere.hit(&ray, &range).expect("must hit the far side");
    assert_eq!(hit.t.raw, 3 * SCALE / 2);
    assert!(!hit.front_face);
    assert_eq!((hit.normal.x.raw, hit.normal.y.raw, hit.normal.z.raw), (0, 0, SCALE));
    assert!(Vec3::dot(&ray.direction, &hit.normal).raw <= 0);
}

#[test]
fn sphere_interval_excludes_bounds() {
    let sphere = Sphere::new(v(0, 0, -1), Fx::new(SCALE / 2), gray());
    let ray = Ray { origin: v(0, 0, 0), direction: v(0, 0, -1) };
    // Both roots (0.5 and 1.5) lie outside the open interval (0.001, 0.5].
    let range = Interval::new(Fx::new(65), Fx::new(SCALE / 2));
    assert!(sphere.hit(&ray, &range).is_none());
}

#[test]
fn sphere_miss_behind_ray() {
    let sphere = Sphere::new(v(0, 0, -1), Fx::new(SCALE / 2), gray());
    let ray = Ray { origin: v(0, 0, 0), direction: v(0, 0, 1) };
    assert!(sphere.hit(&ray, &full_range()).is_none());
}

#[test]
fn degenerate_sphere_and_ray_report_no_hit() {
    let zero_sphere = Sphere::new(v(0, 0, -1), Fx::new(-3), gray());
    assert_eq!(zero_sphere.radius.raw, 0);
    let ray = Ray { origin: v(0, 0, 0), direction: v(0, 0, -1) };
    assert!(zero_sphere.hit(&ray, &full_range()).is_none());
    let sphere = Sphere::new(v(0, 0, -1), Fx::new(SCALE / 2), gray());
    let still = Ray { origin: v(0, 0, 0), direction: v(0, 0, 0) };
    assert!(sphere.hit(&still, &full_range()).is_none());
}

#[test]
fn scene_returns_nearest_member_hit() {
    let near = Sphere::new(v(0, 0, -1), Fx::new(SCALE / 2), gray());
    let far = Sphere::new(v(0, 0, -3), Fx::new(SCALE / 2), gray());
    let ray = Ray { origin: v(0, 0, 0), direction: v(0, 0, -1) };
    let range = full_range();

    let world: Vec<Sphere> = vec![far, near];
    let aggregate = world.hit(&ray, &range).expect("must hit");

    // The aggregate equals the minimum-parameter result of querying each
    // member independently.
    let hit_near = near.hit(&ray, &range).expect("near must hit");
    let hit_far = far.hit(&ray, &range).expect("far must hit");
    assert!(hit_near.t.raw < hit_far.t.raw);
    assert_eq!(aggregate, hit_near);

    // Member order does not change the nearest hit here.
    let swapped: Vec<Sphere> = vec![near, far];
    assert_eq!(swapped.hit(&ray, &range), Some(hit_near));
}

#[test]
fn empty_scene_reports_no_hit() {
    let world: Vec<Sphere> = vec![];
    let ray = Ray { origin: v(0, 0, 0), direction: v(0, 0, -1) };
    assert!(world.hit(&ray, &full_range()).is_none());
}

#[test]
fn hit_sphere_preview_root_and_miss() {
    let center = v(0, 0, -1);
    let ray = Ray { origin: v(0, 0, 0), direction: v(0, 0, -1) };
    assert_eq!(hit_sphere(&center, Fx::new(SCALE / 2), &ray).raw, SCALE / 2);
    let up = Ray { origin: v(0, 0, 0), direction: v(0, 1, 0) };
    assert_eq!(hit_sphere(&center, Fx::new(SCALE / 2), &up).raw, -SCALE);
}
