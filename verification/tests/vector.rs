use path_tracer::fixed::{Fx, SCALE};
use path_tracer::vec3::{Pixel, Vec3};
use rand::SeedableRng;

fn v(x: i64, y: i64, z: i64) -> Vec3 {
    Vec3::new(Fx::from_int(x), Fx::from_int(y), Fx::from_int(z))
}

#[test]
fn vec3_componentwise_ops() {
    let a = v(1, 2, 3);
    let b = v(4, -5, 6);
    let s = a.add(b);
    assert_eq!((s.x.raw, s.y.raw, s.z.raw), (5 * SCALE, -3 * SCALE, 9 * SCALE));
    let d = a.sub(b);
    assert_eq!((d.x.raw, d.y.raw, d.z.raw), (-3 * SCALE, 7 * SCALE, -3 * SCALE));
    let n = a.neg();
    assert_eq!((n.x.raw, n.y.raw, n.z.raw), (-SCALE, -2 * SCALE, -3 * SCALE));
    let m = a.mul(Fx::from_int(2));
    assert_eq!((m.x.raw, m.y.raw, m.z.raw), (2 * SCALE, 4 * SCALE, 6 * SCALE));
    let q = a.div(Fx::from_int(2));
    assert_eq!((q.x.raw, q.y.raw, q.z.raw), (SCALE / 2, SCALE, 3 * SCALE / 2));
    let mut acc = Vec3::new_zero();
    acc.add_assign(a);
    acc.mul_assign(Fx::from_int(3));
    assert_eq!((acc.x.raw, acc.y.raw, acc.z.raw), (3 * SCALE, 6 * SCALE, 9 * SCALE));
}

#[test]
fn dot_and_length() {
    let a = v(1, 2, 3);
    let b = v(4, -5, 6);
    assert_eq!(Vec3::dot(&a, &b).raw, 12 * SCALE);
    let c = v(3, 4, 0);
    assert_eq!(c.length_squared().raw, 25 * SCALE);
    assert_eq!(c.length().raw, 5 * SCALE);
}

#[test]
fn normalized_unit_and_guard() {
    let c = v(3, 4, 0);
    let u = c.normalized();
    // 0.6 and 0.8 up to one truncation step.
    assert_eq!((u.x.raw, u.y.raw, u.z.raw), (39321, 52428, 0));
    // The zero vector is returned unchanged: the division is guarded.
    let z = Vec3::new_zero();
    assert_eq!(z.normalized(), z);
}

#[test]
fn reflect_exact_axis() {
    let incoming = v(1, -1, 0);
    let normal = v(0, 1, 0);
    let r = Vec3::reflect(&incoming, &normal);
    assert_eq!((r.x.raw, r.y.raw, r.z.raw), (SCALE, SCALE, 0));
    // Angle of incidence equals angle of reflection, here exactly.
    assert_eq!(
        Vec3::dot(&r, &normal).raw,
        -Vec3::dot(&incoming, &normal).raw
    );
}

#[test]
fn reflect_incidence_within_tolerance() {
    // (39322, 52429, 0) has squared length exactly one in this arithmetic.
    let normal = Vec3::new(Fx::new(39322), Fx::new(52429), Fx::new(0));
    assert_eq!(normal.length_squared().raw, SCALE);
    let incoming = v(1, -1, 0);
    let r = Vec3::reflect(&incoming, &normal);
    let lhs = Vec3::dot(&r, &normal).raw;
    let rhs = -Vec3::dot(&incoming, &normal).raw;
    assert!((lhs - rhs).abs() <= 8, "lhs {lhs} rhs {rhs}");
}

#[test]
fn near_zero_detects_only_zero() {
    assert!(Vec3::new_zero().is_near_zero());
    assert!(!Vec3::new(Fx::new(1), Fx::new(0), Fx::new(0)).is_near_zero());
    assert!(!v(0, 0, 1).is_near_zero());
}

#[test]
fn to_pixel_gamma_and_clamp() {
    // 0.25 gamma-corrects to 0.5 -> 128; negatives to 0; one just misses 256.
    let color = Vec3::new(Fx::new(SCALE / 4), Fx::new(-5), Fx::new(SCALE));
    assert_eq!(color.to_pixel(), Pixel { r: 128, g: 0, b: 255 });
    // Overbright channels saturate at 255.
    let bright = v(9, 9, 9);
    assert_eq!(bright.to_pixel(), Pixel { r: 255, g: 255, b: 255 });
    assert_eq!(Vec3::new_zero().to_pixel(), Pixel { r: 0, g: 0, b: 0 });
}

#[test]
fn random_unit_vector_is_near_unit() {
    let mut rng = rand::rngs::StdRng::seed_from_u64(7);
    for _ in 0..50 {
        let u = Vec3::random_unit_vector(&mut rng);
        let lsq = u.length_squared().raw;
        assert!((lsq - SCALE).abs() < 1500, "squared length {lsq}");
    }
}
