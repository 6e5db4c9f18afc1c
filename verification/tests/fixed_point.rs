use path_tracer::fixed::{Fx, MAX_RAW, SCALE};

#[test]
fn fx_add_sub_neg_exact() {
    let a = Fx::from_int(3);
    let b = Fx::from_int(2);
    assert_eq!(a.add(b).raw, 5 * SCALE);
    assert_eq!(a.sub(b).raw, SCALE);
    assert_eq!(b.sub(a).raw, -SCALE);
    assert_eq!(a.neg().raw, -3 * SCALE);
    assert_eq!(Fx::zero().raw, 0);
    assert_eq!(Fx::one().raw, SCALE);
}

#[test]
fn fx_mul_div_exact() {
    let a = Fx::from_int(3);
    let b = Fx::from_int(2);
    assert_eq!(a.mul(b).raw, 6 * SCALE);
    assert_eq!(a.div(b).raw, 3 * SCALE / 2);
    // Truncation toward zero.
    assert_eq!(Fx::one().div(Fx::from_int(3)).raw, 21845);
    assert_eq!(Fx::one().neg().div(Fx::from_int(3)).raw, -21845);
}

#[test]
fn fx_sqrt_exact_and_clamped() {
    assert_eq!(Fx::from_int(4).sqrt().raw, 2 * SCALE);
    // sqrt(2.25) == 1.5 exactly.
    assert_eq!(Fx::new(147456).sqrt().raw, 98304);
    // A negative argument maps to zero.
    assert_eq!(Fx::from_int(-9).sqrt().raw, 0);
    assert_eq!(Fx::zero().sqrt().raw, 0);
}

#[test]
fn fx_saturates_at_bound() {
    let top = Fx::new(MAX_RAW);
    assert_eq!(top.add(top).raw, MAX_RAW);
    assert_eq!(top.neg().sub(top).raw, -MAX_RAW);
    assert_eq!(top.mul(top).raw, MAX_RAW);
    assert_eq!(Fx::from_int(2_000_000_000).raw, MAX_RAW);
}

#[test]
fn fx_to_int_truncates_toward_zero() {
    assert_eq!(Fx::from_int(7).to_int_trunc(), 7);
    // -1.5 truncates to -1.
    assert_eq!(Fx::new(-98304).to_int_trunc(), -1);
    assert_eq!(Fx::new(98304).to_int_trunc(), 1);
    assert_eq!(Fx::new(5).to_int_trunc(), 0);
}
