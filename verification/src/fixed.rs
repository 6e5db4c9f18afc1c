//! Saturating fixed-point scalar.
//!
//! A real number is stored as `raw / SCALE` with `raw: i64`. Every operation
//! clamps its result into `[-MAX_RAW, MAX_RAW]`, so the operations are total
//! and never overflow; their exact outcome (including truncation and
//! saturation) is given by the spec functions below.

use vstd::arithmetic::div_mod::lemma_div_is_ordered;
use vstd::arithmetic::div_mod::lemma_div_nonincreasing;
use vstd::arithmetic::div_mod::lemma_div_pos_is_pos;
use vstd::arithmetic::div_mod::lemma_fundamental_div_mod;
use vstd::arithmetic::div_mod::lemma_mod_bound;
use vstd::prelude::*;

verus! {

/// Number of raw steps per unit: a value `v` is stored as `v * SCALE`.
pub const SCALE: i64 = 65536;

/// Saturation bound for raw values (about `2^30` in real units).
pub const MAX_RAW: i64 = 0x4000_0000_0000;

/// The value -1 in raw units.
pub const MINUS_ONE_RAW: i64 = -65536;

/// Clamp an unbounded result into the representable raw range.
pub open spec fn sat(v: int) -> int {
    if v > MAX_RAW as int {
        MAX_RAW as int
    } else if v < -(MAX_RAW as int) {
        -(MAX_RAW as int)
    } else {
        v
    }
}

/// Division that rounds toward zero, as the machine division does.
/// Callers keep `b != 0`.
pub open spec fn sdiv(a: int, b: int) -> int {
    let an = if a < 0 { -a } else { a };
    let bn = if b < 0 { -b } else { b };
    let q = an / bn;
    if (a < 0) != (b < 0) {
        -q
    } else {
        q
    }
}

/// Largest `r` with `r * r <= x`.
pub open spec fn sqrt_floor(x: nat) -> nat
    decreases x,
{
    if x == 0 {
        0
    } else {
        let p = sqrt_floor((x - 1) as nat);
        if (p + 1) * (p + 1) <= x {
            p + 1
        } else {
            p
        }
    }
}

pub open spec fn fx_add(a: int, b: int) -> int {
    sat(a + b)
}

pub open spec fn fx_sub(a: int, b: int) -> int {
    sat(a - b)
}

pub open spec fn fx_neg(a: int) -> int {
    sat(-a)
}

pub open spec fn fx_mul(a: int, b: int) -> int {
    sat(sdiv(a * b, SCALE as int))
}

pub open spec fn fx_div(a: int, b: int) -> int {
    sat(sdiv(a * (SCALE as int), b))
}

pub open spec fn fx_from_int(v: int) -> int {
    sat(v * (SCALE as int))
}

/// Square root in value terms: `sqrt(raw / SCALE) = sqrt(raw * SCALE) / SCALE`.
/// A negative argument is treated as zero; the argument is clamped first so
/// the product stays within the machine word.
pub open spec fn fx_sqrt(a: int) -> int {
    let c = if a < 0 {
        0
    } else if a > MAX_RAW as int {
        MAX_RAW as int
    } else {
        a
    };
    sqrt_floor((c * (SCALE as int)) as nat) as int
}

#[derive(Clone, Copy, PartialEq, Eq, Structural, Debug)]
pub struct Fx {
    pub raw: i64,
}

impl Fx {
    pub open spec fn add_spec(self, o: Fx) -> Fx {
        Fx { raw: fx_add(self.raw as int, o.raw as int) as i64 }
    }

    pub open spec fn sub_spec(self, o: Fx) -> Fx {
        Fx { raw: fx_sub(self.raw as int, o.raw as int) as i64 }
    }

    pub open spec fn neg_spec(self) -> Fx {
        Fx { raw: fx_neg(self.raw as int) as i64 }
    }

    pub open spec fn mul_spec(self, o: Fx) -> Fx {
        Fx { raw: fx_mul(self.raw as int, o.raw as int) as i64 }
    }

    pub open spec fn div_spec(self, o: Fx) -> Fx {
        Fx { raw: fx_div(self.raw as int, o.raw as int) as i64 }
    }

    pub open spec fn sqrt_spec(self) -> Fx {
        Fx { raw: fx_sqrt(self.raw as int) as i64 }
    }

    pub open spec fn from_int_spec(v: int) -> Fx {
        Fx { raw: fx_from_int(v) as i64 }
    }

    pub fn new(raw: i64) -> (r: Fx)
        ensures
            r.raw == raw,
    {
        Fx { raw }
    }

    pub fn zero() -> (r: Fx)
        ensures
            r.raw == 0,
    {
        Fx { raw: 0 }
    }

    pub fn one() -> (r: Fx)
        ensures
            r.raw == SCALE,
    {
        Fx { raw: SCALE }
    }

    pub fn from_int(v: i64) -> (r: Fx)
        ensures
            r == Fx::from_int_spec(v as int),
    {
        Fx { raw: sat_i128(mul_wide(v, SCALE)) }
    }

    pub fn add(self, o: Fx) -> (r: Fx)
        ensures
            r == self.add_spec(o),
    {
        Fx { raw: sat_i128(self.raw as i128 + o.raw as i128) }
    }

    pub fn sub(self, o: Fx) -> (r: Fx)
        ensures
            r == self.sub_spec(o),
    {
        Fx { raw: sat_i128(self.raw as i128 - o.raw as i128) }
    }

    pub fn neg(self) -> (r: Fx)
        ensures
            r == self.neg_spec(),
    {
        Fx { raw: sat_i128(-(self.raw as i128)) }
    }

    pub fn mul(self, o: Fx) -> (r: Fx)
        ensures
            r == self.mul_spec(o),
    {
        let p: i128 = mul_wide(self.raw, o.raw);
        Fx { raw: sat_i128(sdiv_i128(p, SCALE as i128)) }
    }

    pub fn div(self, o: Fx) -> (r: Fx)
        requires
            o.raw != 0,
        ensures
            r == self.div_spec(o),
    {
        let num: i128 = mul_wide(self.raw, SCALE);
        Fx { raw: sat_i128(sdiv_i128(num, o.raw as i128)) }
    }

    pub fn sqrt(self) -> (r: Fx)
        ensures
            r == self.sqrt_spec(),
    {
        let c: i64 = if self.raw < 0 {
            0
        } else if self.raw > MAX_RAW {
            MAX_RAW
        } else {
            self.raw
        };
        proof {
            assert((c as int) * (SCALE as int) <= 0x4000_0000_0000_0000) by (nonlinear_arith)
                requires
                    0 <= c <= 0x4000_0000_0000,
            ;
        }
        let x: u64 = (c as u64) * (SCALE as u64);
        let root: u64 = isqrt64(x);
        proof {
            lemma_sqrt_floor_unique((x as nat), (root as nat));
        }
        Fx { raw: root as i64 }
    }

    /// Whole units of the value, rounded toward zero.
    pub fn to_int_trunc(self) -> (r: i64)
        ensures
            r as int == sdiv(self.raw as int, SCALE as int),
    {
        let q: i128 = sdiv_i128(self.raw as i128, SCALE as i128);
        proof {
            let an: int = if self.raw < 0 {
                -(self.raw as int)
            } else {
                self.raw as int
            };
            lemma_div_nonincreasing(an, SCALE as int);
            lemma_div_pos_is_pos(an, SCALE as int);
        }
        q as i64
    }
}

/// Exact product of two words in a wide intermediate.
fn mul_wide(a: i64, b: i64) -> (p: i128)
    ensures
        p as int == (a as int) * (b as int),
        i128::MIN < p,
{
    proof {
        assert(i128::MIN < (a as int) * (b as int) && (a as int) * (b as int) <= i128::MAX)
            by (nonlinear_arith)
            requires
                i64::MIN <= a <= i64::MAX,
                i64::MIN <= b <= i64::MAX,
        ;
    }
    (a as i128) * (b as i128)
}

/// Clamp a wide intermediate into the raw range.
fn sat_i128(v: i128) -> (r: i64)
    ensures
        r as int == sat(v as int),
{
    if v > MAX_RAW as i128 {
        MAX_RAW
    } else if v < -(MAX_RAW as i128) {
        -MAX_RAW
    } else {
        v as i64
    }
}

/// Truncating division on wide intermediates.
fn sdiv_i128(a: i128, b: i128) -> (q: i128)
    requires
        b != 0,
        a > i128::MIN,
        b > i128::MIN,
    ensures
        q as int == sdiv(a as int, b as int),
{
    let neg: bool = (a < 0) != (b < 0);
    let an: u128 = if a < 0 {
        (-a) as u128
    } else {
        a as u128
    };
    let bn: u128 = if b < 0 {
        (-b) as u128
    } else {
        b as u128
    };
    let qq: u128 = an / bn;
    proof {
        lemma_div_nonincreasing(an as int, bn as int);
        lemma_div_pos_is_pos(an as int, bn as int);
    }
    if neg {
        -(qq as i128)
    } else {
        qq as i128
    }
}

/// Binary search for the integer square root.
fn isqrt64(x: u64) -> (r: u64)
    requires
        x <= 0x4000_0000_0000_0000,
    ensures
        (r as int) * (r as int) <= x as int,
        (x as int) < ((r as int) + 1) * ((r as int) + 1),
        r <= 0x8000_0000,
{
    if x == 0 {
        return 0;
    }
    let mut lo: u64 = 0;
    let mut hi: u64 = 0x8000_0001;
    proof {
        assert((0x8000_0001 as int) * (0x8000_0001 as int) > 0x4000_0000_0000_0000)
            by (nonlinear_arith);
    }
    while hi - lo > 1
        invariant
            lo < hi,
            hi <= 0x8000_0001,
            (lo as int) * (lo as int) <= x as int,
            (x as int) < (hi as int) * (hi as int),
        decreases hi - lo,
    {
        let mid: u64 = lo + (hi - lo) / 2;
        assert((mid as int) * (mid as int) <= 0x4000_0000_0000_0000) by (nonlinear_arith)
            requires
                mid <= 0x8000_0000,
        ;
        if mid * mid <= x {
            lo = mid;
        } else {
            hi = mid;
        }
    }
    lo
}

/// `sqrt_floor` really is the floor of the square root.
pub proof fn lemma_sqrt_floor_bounds(x: nat)
    ensures
        sqrt_floor(x) * sqrt_floor(x) <= x,
        x < (sqrt_floor(x) + 1) * (sqrt_floor(x) + 1),
    decreases x,
{
    if x == 0 {
        assert(sqrt_floor(0) == 0);
        assert((sqrt_floor(x) + 1) * (sqrt_floor(x) + 1) == 1) by (nonlinear_arith)
            requires
                sqrt_floor(x) == 0,
        ;
    } else {
        lemma_sqrt_floor_bounds((x - 1) as nat);
        let p = sqrt_floor((x - 1) as nat);
        let s = sqrt_floor(x);
        if (p + 1) * (p + 1) <= x {
            assert(s == p + 1);
            assert(x == (p + 1) * (p + 1));
            assert(s * s <= x && x < (s + 1) * (s + 1)) by (nonlinear_arith)
                requires
                    s == p + 1,
                    x == (p + 1) * (p + 1),
            ;
        } else {
            assert(s == p);
            assert(s * s <= x && x < (s + 1) * (s + 1)) by (nonlinear_arith)
                requires
                    s == p,
                    p * p <= x - 1,
                    !((p + 1) * (p + 1) <= x),
            ;
        }
    }
}

/// Any `r` sandwiched between the two squares is `sqrt_floor`.
pub proof fn lemma_sqrt_floor_unique(x: nat, r: nat)
    requires
        r * r <= x,
        x < (r + 1) * (r + 1),
    ensures
        r == sqrt_floor(x),
{
    lemma_sqrt_floor_bounds(x);
    let s = sqrt_floor(x);
    if r < s {
        assert((r + 1) * (r + 1) <= s * s) by (nonlinear_arith)
            requires
                r + 1 <= s,
        ;
    } else if s < r {
        assert((s + 1) * (s + 1) <= r * r) by (nonlinear_arith)
            requires
                s + 1 <= r,
        ;
    }
}

/// The square root of any value is non-negative and fits comfortably in the
/// raw range.
pub proof fn lemma_fx_sqrt_bounds(a: int)
    ensures
        0 <= fx_sqrt(a) <= 0x8000_0000,
{
    let c = if a < 0 {
        0
    } else if a > MAX_RAW as int {
        MAX_RAW as int
    } else {
        a
    };
    let x = (c * (SCALE as int)) as nat;
    lemma_sqrt_floor_bounds(x);
    let s = sqrt_floor(x);
    assert(s <= 0x8000_0000) by (nonlinear_arith)
        requires
            s * s <= x,
            x <= 0x4000_0000_0000_0000,
    ;
}

/// Negating one factor (within the raw range) negates the product exactly.
pub proof fn lemma_fx_mul_neg(a: int, b: int)
    requires
        -(MAX_RAW as int) <= b <= MAX_RAW as int,
    ensures
        fx_mul(a, fx_neg(b)) == -fx_mul(a, b),
{
    assert(fx_neg(b) == -b);
    assert(a * (-b) == -(a * b)) by (nonlinear_arith);
    let p = a * b;
    assert(sdiv(-p, SCALE as int) == -sdiv(p, SCALE as int));
    assert(sat(-sdiv(p, SCALE as int)) == -sat(sdiv(p, SCALE as int)));
}

/// Truncating division loses less than one divisor's worth of the dividend.
pub proof fn lemma_sdiv_mul_near(x: int, d: int)
    requires
        d > 0,
    ensures
        x - d < d * sdiv(x, d),
        d * sdiv(x, d) < x + d,
{
    if x >= 0 {
        assert(sdiv(x, d) == x / d);
        lemma_fundamental_div_mod(x, d);
        lemma_mod_bound(x, d);
        assert(d * (x / d) == x - x % d);
        assert(d * sdiv(x, d) == x - x % d);
    } else {
        assert(sdiv(x, d) == -((-x) / d));
        lemma_fundamental_div_mod(-x, d);
        lemma_mod_bound(-x, d);
        assert(d * ((-x) / d) == -x - ((-x) % d));
        let q = (-x) / d;
        assert(d * (-q) == -(d * q)) by (nonlinear_arith);
        assert(d * sdiv(x, d) == x + ((-x) % d));
    }
}

/// A product within the wide range loses less than one step to the
/// fixed-point multiplication: no saturation, only truncation.
pub proof fn lemma_fx_mul_err(a: int, b: int)
    requires
        -0x4000_0000_0000_0000 <= a * b <= 0x4000_0000_0000_0000,
    ensures
        a * b - SCALE < SCALE * fx_mul(a, b),
        SCALE * fx_mul(a, b) < a * b + SCALE,
        -(MAX_RAW as int) <= fx_mul(a, b) <= MAX_RAW as int,
{
    let p = a * b;
    let q = sdiv(p, SCALE as int);
    lemma_sdiv_mul_near(p, SCALE as int);
    assert(-(MAX_RAW as int) <= q <= MAX_RAW as int);
    assert(fx_mul(a, b) == q);
}

/// Truncating division by a positive divisor is monotone in the dividend.
pub proof fn lemma_sdiv_monotone(a1: int, a2: int, b: int)
    requires
        a1 <= a2,
        b > 0,
    ensures
        sdiv(a1, b) <= sdiv(a2, b),
{
    if a1 >= 0 {
        lemma_div_is_ordered(a1, a2, b);
    } else if a2 < 0 {
        lemma_div_is_ordered(-a2, -a1, b);
    } else {
        lemma_div_pos_is_pos(-a1, b);
        lemma_div_pos_is_pos(a2, b);
    }
}

} // verus!
