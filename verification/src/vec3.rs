//! 3-component fixed-point vector: arithmetic, geometric operators, random
//! direction sampling, and conversion of a color to an 8-bit pixel.

use crate::fixed::{fx_div, fx_mul, fx_sub, sdiv, Fx, MAX_RAW, SCALE};
use crate::fixed::{lemma_fx_mul_err, lemma_fx_mul_neg, lemma_sdiv_mul_near, lemma_sqrt_floor_bounds, lemma_sqrt_floor_unique, sqrt_floor};
use crate::interval::Interval;
use crate::rng::rand_i64_half_open;
use vstd::arithmetic::div_mod::lemma_div_is_ordered;
use vstd::arithmetic::div_mod::lemma_div_is_ordered_by_denominator;
use vstd::arithmetic::div_mod::lemma_div_pos_is_pos;
use vstd::prelude::*;

verus! {

/// A direction counts as degenerate when every component is below one
/// representable step, that is, exactly zero at this resolution.
pub const NEAR_ZERO_RAW: i64 = 1;

/// Channels are clamped just under one full unit before quantization.
pub const INTENSITY_MAX_RAW: i64 = 65470;

/// The scalar 2 in raw units.
pub const TWO_RAW: i64 = 131072;

/// Rejection floor for direction sampling: a quarter unit of squared
/// length, so an accepted sample's truncated squared length has lost at most
/// a small fraction of its value before normalization.
pub const MIN_UNIT_LSQ_RAW: i64 = 16384;

#[derive(Clone, Copy, PartialEq, Eq, Structural, Debug)]
pub struct Vec3 {
    pub x: Fx,
    pub y: Fx,
    pub z: Fx,
}

/// An output color: one byte per channel.
#[derive(Clone, Copy, PartialEq, Eq, Structural, Debug)]
pub struct Pixel {
    pub r: u8,
    pub g: u8,
    pub b: u8,
}

/// All components within the saturation bound (true of every operation's
/// result).
pub open spec fn v3_in_range(v: Vec3) -> bool {
    &&& -(MAX_RAW as int) <= v.x.raw as int <= MAX_RAW as int
    &&& -(MAX_RAW as int) <= v.y.raw as int <= MAX_RAW as int
    &&& -(MAX_RAW as int) <= v.z.raw as int <= MAX_RAW as int
}

/// The zero vector, which also stands for exact black.
pub open spec fn v3_zero() -> Vec3 {
    Vec3 { x: Fx { raw: 0 }, y: Fx { raw: 0 }, z: Fx { raw: 0 } }
}

/// Component-wise product: the energy kept per channel after one bounce.
pub open spec fn attenuate_spec(albedo: Vec3, color: Vec3) -> Vec3 {
    Vec3 {
        x: albedo.x.mul_spec(color.x),
        y: albedo.y.mul_spec(color.y),
        z: albedo.z.mul_spec(color.z),
    }
}

/// What the direction sampler can return: the normalization of some point of
/// the cube `[-1, 1]^3` whose squared length lies in `[1/4, 1]`.
pub open spec fn unit_sample(u: Vec3) -> bool {
    exists|p: Vec3|
        (-SCALE <= p.x.raw <= SCALE) && (-SCALE <= p.y.raw <= SCALE) && (-SCALE <= p.z.raw <= SCALE)
            && MIN_UNIT_LSQ_RAW <= p.length_squared_spec().raw <= SCALE && u == p.div_spec(
            #[trigger] p.length_spec(),
        )
}

/// Gamma-2 correction of one linear channel: square root of a positive
/// value, zero otherwise.
pub open spec fn gamma_spec(c: Fx) -> Fx {
    if c.raw > 0 {
        c.sqrt_spec()
    } else {
        Fx { raw: 0 }
    }
}

/// Clamp a corrected channel just under one and scale it to 8 bits.
pub open spec fn quantize_spec(g: Fx) -> u8 {
    let clamped = (Interval { min: Fx { raw: 0 }, max: Fx { raw: INTENSITY_MAX_RAW } }).clamp_spec(
        g,
    );
    sdiv(256 * (clamped.raw as int), SCALE as int) as u8
}

/// One output channel: gamma-correct, clamp, scale.
pub open spec fn channel_spec(c: Fx) -> u8 {
    quantize_spec(gamma_spec(c))
}

impl Vec3 {
    pub open spec fn add_spec(self, o: Vec3) -> Vec3 {
        Vec3 { x: self.x.add_spec(o.x), y: self.y.add_spec(o.y), z: self.z.add_spec(o.z) }
    }

    pub open spec fn sub_spec(self, o: Vec3) -> Vec3 {
        Vec3 { x: self.x.sub_spec(o.x), y: self.y.sub_spec(o.y), z: self.z.sub_spec(o.z) }
    }

    pub open spec fn neg_spec(self) -> Vec3 {
        Vec3 { x: self.x.neg_spec(), y: self.y.neg_spec(), z: self.z.neg_spec() }
    }

    pub open spec fn mul_spec(self, s: Fx) -> Vec3 {
        Vec3 { x: self.x.mul_spec(s), y: self.y.mul_spec(s), z: self.z.mul_spec(s) }
    }

    /// Division is multiplication by the reciprocal, as in the executable
    /// code.
    pub open spec fn div_spec(self, s: Fx) -> Vec3 {
        self.mul_spec(Fx { raw: SCALE }.div_spec(s))
    }

    pub open spec fn dot_spec(a: Vec3, b: Vec3) -> Fx {
        a.x.mul_spec(b.x).add_spec(a.y.mul_spec(b.y)).add_spec(a.z.mul_spec(b.z))
    }

    pub open spec fn length_squared_spec(self) -> Fx {
        self.x.mul_spec(self.x).add_spec(self.y.mul_spec(self.y)).add_spec(
            self.z.mul_spec(self.z),
        )
    }

    pub open spec fn length_spec(self) -> Fx {
        self.length_squared_spec().sqrt_spec()
    }

    /// Unit direction; a vector whose length rounds to zero is returned
    /// unchanged, so the division is always guarded.
    pub open spec fn normalized_spec(self) -> Vec3 {
        if self.length_spec().raw == 0 {
            self
        } else {
            self.div_spec(self.length_spec())
        }
    }

    /// Mirror reflection about a unit normal: `v - n * 2 * dot(v, n)`.
    pub open spec fn reflect_spec(v: Vec3, n: Vec3) -> Vec3 {
        v.sub_spec(n.mul_spec(Fx { raw: TWO_RAW }).mul_spec(Vec3::dot_spec(v, n)))
    }

    pub open spec fn is_near_zero_spec(self) -> bool {
        &&& -NEAR_ZERO_RAW < self.x.raw < NEAR_ZERO_RAW
    &&& -NEAR_ZERO_RAW < self.y.raw < NEAR_ZERO_RAW
    &&& -NEAR_ZERO_RAW < self.z.raw < NEAR_ZERO_RAW
    }

    pub open spec fn to_pixel_spec(self) -> Pixel {
        Pixel { r: channel_spec(self.x), g: channel_spec(self.y), b: channel_spec(self.z) }
    }

    pub fn new_zero() -> (r: Vec3)
        ensures
            r.x.raw == 0,
            r.y.raw == 0,
            r.z.raw == 0,
    {
        Vec3 { x: Fx { raw: 0 }, y: Fx { raw: 0 }, z: Fx { raw: 0 } }
    }

    pub fn new(x: Fx, y: Fx, z: Fx) -> (r: Vec3)
        ensures
            r == (Vec3 { x, y, z }),
    {
        Vec3 { x, y, z }
    }

    pub fn add(self, rhs: Vec3) -> (r: Vec3)
        ensures
            r == self.add_spec(rhs),
    {
        Vec3 { x: self.x.add(rhs.x), y: self.y.add(rhs.y), z: self.z.add(rhs.z) }
    }

    pub fn sub(self, rhs: Vec3) -> (r: Vec3)
        ensures
            r == self.sub_spec(rhs),
    {
        Vec3 { x: self.x.sub(rhs.x), y: self.y.sub(rhs.y), z: self.z.sub(rhs.z) }
    }

    pub fn neg(self) -> (r: Vec3)
        ensures
            r == self.neg_spec(),
    {
        Vec3 { x: self.x.neg(), y: self.y.neg(), z: self.z.neg() }
    }

    pub fn mul(self, rhs: Fx) -> (r: Vec3)
        ensures
            r == self.mul_spec(rhs),
    {
        Vec3 { x: self.x.mul(rhs), y: self.y.mul(rhs), z: self.z.mul(rhs) }
    }

    pub fn div(self, rhs: Fx) -> (r: Vec3)
        requires
            rhs.raw != 0,
        ensures
            r == self.div_spec(rhs),
    {
        self.mul(Fx { raw: SCALE }.div(rhs))
    }

    pub fn add_assign(&mut self, rhs: Vec3)
        ensures
            *final(self) == old(self).add_spec(rhs),
    {
        *self = self.add(rhs);
    }

    pub fn mul_assign(&mut self, rhs: Fx)
        ensures
            *final(self) == old(self).mul_spec(rhs),
    {
        *self = self.mul(rhs);
    }

    pub fn dot(a: &Vec3, b: &Vec3) -> (r: Fx)
        ensures
            r == Vec3::dot_spec(*a, *b),
    {
        a.x.mul(b.x).add(a.y.mul(b.y)).add(a.z.mul(b.z))
    }

    pub fn reflect(v: &Vec3, n: &Vec3) -> (r: Vec3)
        ensures
            r == Vec3::reflect_spec(*v, *n),
    {
        let d = Vec3::dot(v, n);
        v.sub(n.mul(Fx { raw: TWO_RAW }).mul(d))
    }

    pub fn length_squared(&self) -> (r: Fx)
        ensures
            r == self.length_squared_spec(),
    {
        self.x.mul(self.x).add(self.y.mul(self.y)).add(self.z.mul(self.z))
    }

    pub fn length(&self) -> (r: Fx)
        ensures
            r == self.length_spec(),
    {
        self.length_squared().sqrt()
    }

    pub fn normalized(&self) -> (r: Vec3)
        ensures
            r == self.normalized_spec(),
    {
        let len = self.length();
        if len.raw == 0 {
            *self
        } else {
            self.div(len)
        }
    }

    pub fn is_near_zero(&self) -> (b: bool)
        ensures
            b == self.is_near_zero_spec(),
    {
        -NEAR_ZERO_RAW < self.x.raw && self.x.raw < NEAR_ZERO_RAW && -NEAR_ZERO_RAW < self.y.raw
            && self.y.raw < NEAR_ZERO_RAW && -NEAR_ZERO_RAW < self.z.raw && self.z.raw
            < NEAR_ZERO_RAW
    }

    /// Gamma-2 correction of one linear channel.
    pub fn linear_to_gamma(&self, linear_component: Fx) -> (r: Fx)
        ensures
            r == gamma_spec(linear_component),
    {
        if linear_component.raw > 0 {
            linear_component.sqrt()
        } else {
            Fx { raw: 0 }
        }
    }

    /// Quantize this color to one 8-bit pixel (gamma correction, clamp just
    /// under one, scale by 256).
    pub fn to_pixel(&self) -> (p: Pixel)
        ensures
            p == self.to_pixel_spec(),
    {
        Pixel {
            r: channel(self.linear_to_gamma(self.x)),
            g: channel(self.linear_to_gamma(self.y)),
            b: channel(self.linear_to_gamma(self.z)),
        }
    }

    /// A point with every coordinate drawn uniformly from `[min, max)`.
    fn random(rng: &mut rand::rngs::StdRng, min: Fx, max: Fx) -> (r: Vec3)
        requires
            min.raw < max.raw,
        ensures
            min.raw <= r.x.raw < max.raw,
            min.raw <= r.y.raw < max.raw,
            min.raw <= r.z.raw < max.raw,
    {
        Vec3 {
            x: Fx { raw: rand_i64_half_open(rng, min.raw, max.raw) },
            y: Fx { raw: rand_i64_half_open(rng, min.raw, max.raw) },
            z: Fx { raw: rand_i64_half_open(rng, min.raw, max.raw) },
        }
    }

    /// Rejection-sample a uniform direction on the unit sphere: draw points
    /// in the cube `[-1, 1)^3` until one lands inside the unit ball but well
    /// away from the center (so truncation cannot have eaten much of the
    /// squared length), then normalize it. The result is always the
    /// normalization of some such sample. The number of draws is capped
    /// (each attempt accepts with probability about one half); if every draw
    /// is rejected, the x axis stands in — itself the normalization of the
    /// unit-x sample.
    pub fn random_unit_vector(rng: &mut rand::rngs::StdRng) -> (r: Vec3)
        ensures
            v3_in_range(r),
            -TWO_RAW <= r.x.raw <= TWO_RAW,
            -TWO_RAW <= r.y.raw <= TWO_RAW,
            -TWO_RAW <= r.z.raw <= TWO_RAW,
            unit_sample(r),
    {
        let one = Fx { raw: SCALE };
        let mut attempts: u32 = 0;
        while attempts < 64
            invariant
                one.raw == SCALE,
            decreases 64 - attempts,
        {
            let p = Vec3::random(rng, one.neg(), one);
            let length_squared = p.length_squared();
            if MIN_UNIT_LSQ_RAW <= length_squared.raw && length_squared.raw <= SCALE {
                let len = length_squared.sqrt();
                proof {
                    let c = length_squared.raw as int;
                    let x = (c * (SCALE as int)) as nat;
                    lemma_sqrt_floor_bounds(x);
                    assert(x >= 0x4000_0000);
                    let s = sqrt_floor(x);
                    assert(s <= 65536) by (nonlinear_arith)
                        requires
                            s * s <= x,
                            x <= 0x1_0000_0000,
                    ;
                    assert(len.raw as int == s as int);
                    if s < 32768 {
                        assert((s + 1) * (s + 1) <= 0x4000_0000) by (nonlinear_arith)
                            requires
                                s + 1 <= 32768,
                        ;
                        assert(false);
                    }
                    assert(len == p.length_spec());
                }
                let unit = p.div(len);
                proof {
                    lemma_unit_components_bounded(p, len);
                }
                return unit;
            }
            attempts = attempts + 1;
        }
        let fallback = Vec3 { x: one, y: Fx { raw: 0 }, z: Fx { raw: 0 } };
        proof {
            assert(65536 * 65536 == 0x1_0000_0000int && 65537 * 65537 == 0x1_0002_0001int)
                by (nonlinear_arith);
            lemma_sqrt_floor_unique(0x1_0000_0000, 65536);
            assert(fallback.length_squared_spec().raw == SCALE);
            assert(fallback.length_spec().raw == SCALE);
            assert(fallback.div_spec(fallback.length_spec()) == fallback);
        }
        fallback
    }
}

/// Normalizing a cube sample by a length of at least half a unit keeps
/// every component within two units.
proof fn lemma_unit_components_bounded(p: Vec3, len: Fx)
    requires
        -SCALE <= p.x.raw <= SCALE,
        -SCALE <= p.y.raw <= SCALE,
        -SCALE <= p.z.raw <= SCALE,
        32768 <= len.raw <= 65536,
    ensures
        -TWO_RAW <= p.div_spec(len).x.raw <= TWO_RAW,
        -TWO_RAW <= p.div_spec(len).y.raw <= TWO_RAW,
        -TWO_RAW <= p.div_spec(len).z.raw <= TWO_RAW,
{
    lemma_div_is_ordered_by_denominator(0x1_0000_0000, 32768, len.raw as int);
    lemma_div_pos_is_pos(0x1_0000_0000, len.raw as int);
    let recip = fx_div(SCALE as int, len.raw as int);
    assert(0 <= recip <= TWO_RAW as int);
    lemma_component_scaled_bounded(p.x.raw as int, recip);
    lemma_component_scaled_bounded(p.y.raw as int, recip);
    lemma_component_scaled_bounded(p.z.raw as int, recip);
}

/// Scaling a one-unit component by a factor of at most two units keeps it
/// within two units.
proof fn lemma_component_scaled_bounded(a: int, recip: int)
    requires
        -(SCALE as int) <= a <= SCALE as int,
        0 <= recip <= TWO_RAW as int,
    ensures
        -(TWO_RAW as int) <= fx_mul(a, recip) <= TWO_RAW as int,
{
    assert(-0x2_0000_0000 <= a * recip && a * recip <= 0x2_0000_0000) by (nonlinear_arith)
        requires
            -65536 <= a <= 65536,
            0 <= recip <= 131072,
    ;
    let v = a * recip;
    let av = if v < 0 {
        -v
    } else {
        v
    };
    lemma_div_is_ordered(av, 0x2_0000_0000, SCALE as int);
    lemma_div_pos_is_pos(av, SCALE as int);
}

/// A squared length is never negative.
pub proof fn lemma_length_squared_nonneg(v: Vec3)
    ensures
        v.length_squared_spec().raw >= 0,
{
    assert((v.x.raw as int) * (v.x.raw as int) >= 0) by (nonlinear_arith);
    assert((v.y.raw as int) * (v.y.raw as int) >= 0) by (nonlinear_arith);
    assert((v.z.raw as int) * (v.z.raw as int) >= 0) by (nonlinear_arith);
    lemma_div_pos_is_pos((v.x.raw as int) * (v.x.raw as int), SCALE as int);
    lemma_div_pos_is_pos((v.y.raw as int) * (v.y.raw as int), SCALE as int);
    lemma_div_pos_is_pos((v.z.raw as int) * (v.z.raw as int), SCALE as int);
}

/// Negating the second argument (when it is in range) negates the dot
/// product exactly: saturation is symmetric and truncation rounds toward
/// zero.
pub proof fn lemma_dot_neg(d: Vec3, n: Vec3)
    requires
        v3_in_range(n),
    ensures
        Vec3::dot_spec(d, n.neg_spec()).raw as int == -(Vec3::dot_spec(d, n).raw as int),
{
    lemma_fx_mul_neg(d.x.raw as int, n.x.raw as int);
    lemma_fx_mul_neg(d.y.raw as int, n.y.raw as int);
    lemma_fx_mul_neg(d.z.raw as int, n.z.raw as int);
}

/// Unscaled dot product of raw components.
pub open spec fn dot3(ax: int, ay: int, az: int, bx: int, by: int, bz: int) -> int {
    ax * bx + ay * by + az * bz
}

/// One component of the mirror reflection in exact arithmetic, scaled by
/// `SCALE^2` to avoid any division: the reflection of `v` about `n` with
/// unscaled dot product `d`.
pub open spec fn reflect_exact(v: int, n: int, d: int) -> int {
    v * ((SCALE as int) * (SCALE as int)) - 2 * n * d
}

/// Law: for a unit normal the mirror reflection flips the normal component
/// of the incidence direction, so the angle of incidence equals the angle of
/// reflection. Stated in exact arithmetic over raw components (both sides
/// carry the common factor `SCALE^2`); the executable `reflect` realizes it
/// up to fixed-point rounding, which the tests exercise.
pub proof fn lemma_reflect_incidence(vx: int, vy: int, vz: int, nx: int, ny: int, nz: int)
    requires
        dot3(nx, ny, nz, nx, ny, nz) == (SCALE as int) * (SCALE as int),
    ensures
        dot3(
            reflect_exact(vx, nx, dot3(vx, vy, vz, nx, ny, nz)),
            reflect_exact(vy, ny, dot3(vx, vy, vz, nx, ny, nz)),
            reflect_exact(vz, nz, dot3(vx, vy, vz, nx, ny, nz)),
            nx,
            ny,
            nz,
        ) == -dot3(vx, vy, vz, nx, ny, nz) * ((SCALE as int) * (SCALE as int)),
{
    let d = dot3(vx, vy, vz, nx, ny, nz);
    let s2 = (SCALE as int) * (SCALE as int);
    assert((vx * s2 - 2 * nx * d) * nx == vx * nx * s2 - 2 * (nx * nx) * d) by (nonlinear_arith);
    assert((vy * s2 - 2 * ny * d) * ny == vy * ny * s2 - 2 * (ny * ny) * d) by (nonlinear_arith);
    assert((vz * s2 - 2 * nz * d) * nz == vz * nz * s2 - 2 * (nz * nz) * d) by (nonlinear_arith);
    assert(vx * nx * s2 + vy * ny * s2 + vz * nz * s2 == d * s2) by (nonlinear_arith)
        requires
            d == vx * nx + vy * ny + vz * nz,
    ;
    assert(2 * (nx * nx) * d + 2 * (ny * ny) * d + 2 * (nz * nz) * d == 2 * s2 * d)
        by (nonlinear_arith)
        requires
            nx * nx + ny * ny + nz * nz == s2,
    ;
    assert(d * s2 - 2 * s2 * d == -(d * s2)) by (nonlinear_arith);
}

/// The fixed-point dot product of a vector with components within `abound`
/// and a vector with components within one unit differs from the exact
/// unscaled product sum by less than three steps, and is itself bounded.
proof fn lemma_dot_err_bounded(a: Vec3, b: Vec3, abound: int)
    requires
        0 <= abound <= 0x10_0000_0000,
        -abound <= a.x.raw as int <= abound,
        -abound <= a.y.raw as int <= abound,
        -abound <= a.z.raw as int <= abound,
        -65536 <= b.x.raw as int <= 65536,
        -65536 <= b.y.raw as int <= 65536,
        -65536 <= b.z.raw as int <= 65536,
    ensures
        dot3(
            a.x.raw as int,
            a.y.raw as int,
            a.z.raw as int,
            b.x.raw as int,
            b.y.raw as int,
            b.z.raw as int,
        ) - 3 * (SCALE as int) < (SCALE as int) * (Vec3::dot_spec(a, b).raw as int),
        (SCALE as int) * (Vec3::dot_spec(a, b).raw as int) < dot3(
            a.x.raw as int,
            a.y.raw as int,
            a.z.raw as int,
            b.x.raw as int,
            b.y.raw as int,
            b.z.raw as int,
        ) + 3 * (SCALE as int),
        -3 * abound - 3 <= Vec3::dot_spec(a, b).raw as int <= 3 * abound + 3,
{
    let ax = a.x.raw as int;
    let ay = a.y.raw as int;
    let az = a.z.raw as int;
    let bx = b.x.raw as int;
    let by = b.y.raw as int;
    let bz = b.z.raw as int;
    assert(-abound * 65536 <= ax * bx <= abound * 65536) by (nonlinear_arith)
        requires
            -abound <= ax <= abound,
            -65536 <= bx <= 65536,
            0 <= abound,
    ;
    assert(-abound * 65536 <= ay * by <= abound * 65536) by (nonlinear_arith)
        requires
            -abound <= ay <= abound,
            -65536 <= by <= 65536,
            0 <= abound,
    ;
    assert(-abound * 65536 <= az * bz <= abound * 65536) by (nonlinear_arith)
        requires
            -abound <= az <= abound,
            -65536 <= bz <= 65536,
            0 <= abound,
    ;
    lemma_fx_mul_err(ax, bx);
    lemma_fx_mul_err(ay, by);
    lemma_fx_mul_err(az, bz);
    let mx = fx_mul(ax, bx);
    let my = fx_mul(ay, by);
    let mz = fx_mul(az, bz);
    assert(-abound - 1 <= mx <= abound + 1);
    assert(-abound - 1 <= my <= abound + 1);
    assert(-abound - 1 <= mz <= abound + 1);
    assert(Vec3::dot_spec(a, b).raw as int == mx + my + mz);
}

/// Law: the executable mirror reflection preserves the angle of incidence
/// within a few representation steps: for a normal of exactly unit squared
/// length in this arithmetic and an incident vector of at most `2^14` units,
/// `dot(reflect(v, n), n)` differs from `-dot(v, n)` by fewer than nine raw
/// steps.
pub proof fn lemma_reflect_incidence_rounding(v: Vec3, n: Vec3)
    requires
        dot3(
            n.x.raw as int,
            n.y.raw as int,
            n.z.raw as int,
            n.x.raw as int,
            n.y.raw as int,
            n.z.raw as int,
        ) == (SCALE as int) * (SCALE as int),
        -0x4000_0000 <= v.x.raw as int <= 0x4000_0000,
        -0x4000_0000 <= v.y.raw as int <= 0x4000_0000,
        -0x4000_0000 <= v.z.raw as int <= 0x4000_0000,
    ensures
        Vec3::dot_spec(Vec3::reflect_spec(v, n), n).raw + Vec3::dot_spec(v, n).raw < 9,
        Vec3::dot_spec(Vec3::reflect_spec(v, n), n).raw + Vec3::dot_spec(v, n).raw > -9,
{
    let nx = n.x.raw as int;
    let ny = n.y.raw as int;
    let nz = n.z.raw as int;
    let vx = v.x.raw as int;
    let vy = v.y.raw as int;
    let vz = v.z.raw as int;
    assert(-65536 <= nx <= 65536 && -65536 <= ny <= 65536 && -65536 <= nz <= 65536)
        by (nonlinear_arith)
        requires
            nx * nx + ny * ny + nz * nz == 65536 * 65536,
    ;
    lemma_dot_err_bounded(v, n, 0x4000_0000);
    let d = Vec3::dot_spec(v, n).raw as int;
    let dd = dot3(vx, vy, vz, nx, ny, nz);

    // The doubled normal is exact, and the per-component subtrahend is one
    // truncation away from `2 * n_i * d`.
    lemma_reflect_component(vx, nx, d);
    lemma_reflect_component(vy, ny, d);
    lemma_reflect_component(vz, nz, d);
    let rx = Vec3::reflect_spec(v, n).x.raw as int;
    let ry = Vec3::reflect_spec(v, n).y.raw as int;
    let rz = Vec3::reflect_spec(v, n).z.raw as int;
    assert(rx == vx - fx_mul(fx_mul(nx, TWO_RAW as int), d));
    assert(ry == vy - fx_mul(fx_mul(ny, TWO_RAW as int), d));
    assert(rz == vz - fx_mul(fx_mul(nz, TWO_RAW as int), d));
    let tx = fx_mul(fx_mul(nx, TWO_RAW as int), d);
    let ty = fx_mul(fx_mul(ny, TWO_RAW as int), d);
    let tz = fx_mul(fx_mul(nz, TWO_RAW as int), d);

    lemma_dot_err_bounded(Vec3::reflect_spec(v, n), n, 0x10_0000_0000);
    let g = Vec3::dot_spec(Vec3::reflect_spec(v, n), n).raw as int;
    let s2 = (SCALE as int) * (SCALE as int);

    // Unscaled dot of the reflection with the normal, split per component.
    let rdot = dot3(rx, ry, rz, nx, ny, nz);
    assert(rx * nx == vx * nx - tx * nx) by (nonlinear_arith)
        requires
            rx == vx - tx,
    ;
    assert(ry * ny == vy * ny - ty * ny) by (nonlinear_arith)
        requires
            ry == vy - ty,
    ;
    assert(rz * nz == vz * nz - tz * nz) by (nonlinear_arith)
        requires
            rz == vz - tz,
    ;

    // Each t_i * n_i is within one square step of 2 * d * n_i^2.
    assert(2 * nx * d * nx == 2 * d * (nx * nx)) by (nonlinear_arith);
    assert(2 * ny * d * ny == 2 * d * (ny * ny)) by (nonlinear_arith);
    assert(2 * nz * d * nz == 2 * d * (nz * nz)) by (nonlinear_arith);
    let ex = (SCALE as int) * tx - 2 * nx * d;
    let ey = (SCALE as int) * ty - 2 * ny * d;
    let ez = (SCALE as int) * tz - 2 * nz * d;
    assert(-65536 < ex < 65536 && -65536 < ey < 65536 && -65536 < ez < 65536);
    assert(-s2 < ex * nx < s2) by (nonlinear_arith)
        requires
            -65536 < ex < 65536,
            -65536 <= nx <= 65536,
            s2 == 65536 * 65536,
    ;
    assert(-s2 < ey * ny < s2) by (nonlinear_arith)
        requires
            -65536 < ey < 65536,
            -65536 <= ny <= 65536,
            s2 == 65536 * 65536,
    ;
    assert(-s2 < ez * nz < s2) by (nonlinear_arith)
        requires
            -65536 < ez < 65536,
            -65536 <= nz <= 65536,
            s2 == 65536 * 65536,
    ;
    assert((SCALE as int) * (tx * nx) == ((SCALE as int) * tx) * nx) by (nonlinear_arith);
    assert((SCALE as int) * (ty * ny) == ((SCALE as int) * ty) * ny) by (nonlinear_arith);
    assert((SCALE as int) * (tz * nz) == ((SCALE as int) * tz) * nz) by (nonlinear_arith);
    assert(((SCALE as int) * tx) * nx == (2 * nx * d + ex) * nx) by (nonlinear_arith)
        requires
            (SCALE as int) * tx == 2 * nx * d + ex,
    ;
    assert(((SCALE as int) * ty) * ny == (2 * ny * d + ey) * ny) by (nonlinear_arith)
        requires
            (SCALE as int) * ty == 2 * ny * d + ey,
    ;
    assert(((SCALE as int) * tz) * nz == (2 * nz * d + ez) * nz) by (nonlinear_arith)
        requires
            (SCALE as int) * tz == 2 * nz * d + ez,
    ;
    assert((2 * nx * d + ex) * nx == 2 * d * (nx * nx) + ex * nx) by (nonlinear_arith);
    assert((2 * ny * d + ey) * ny == 2 * d * (ny * ny) + ey * ny) by (nonlinear_arith);
    assert((2 * nz * d + ez) * nz == 2 * d * (nz * nz) + ez * nz) by (nonlinear_arith);
    assert(2 * d * (nx * nx) + 2 * d * (ny * ny) + 2 * d * (nz * nz) == 2 * d * s2)
        by (nonlinear_arith)
        requires
            nx * nx + ny * ny + nz * nz == s2,
    ;
    // Scale the reflected dot: S * rdot is within 3 * S^2 of S * dd - 2 * d * S^2.
    assert((SCALE as int) * rdot == (SCALE as int) * (rx * nx) + (SCALE as int) * (ry * ny) + (
    SCALE as int) * (rz * nz));
    assert((SCALE as int) * (rx * nx) == (SCALE as int) * (vx * nx) - (SCALE as int) * (tx * nx))
        by (nonlinear_arith)
        requires
            rx * nx == vx * nx - tx * nx,
    ;
    assert((SCALE as int) * (ry * ny) == (SCALE as int) * (vy * ny) - (SCALE as int) * (ty * ny))
        by (nonlinear_arith)
        requires
            ry * ny == vy * ny - ty * ny,
    ;
    assert((SCALE as int) * (rz * nz) == (SCALE as int) * (vz * nz) - (SCALE as int) * (tz * nz))
        by (nonlinear_arith)
        requires
            rz * nz == vz * nz - tz * nz,
    ;
    // Therefore S * rdot == S * dd - 2 * d * s2 - (ex * nx + ey * ny + ez * nz).
    assert((SCALE as int) * rdot == (SCALE as int) * dd - 2 * d * s2 - (ex * nx + ey * ny + ez
        * nz));

    // Combine the two dot-product error bounds, both scaled by S.
    assert(s2 * g == (SCALE as int) * ((SCALE as int) * g)) by (nonlinear_arith)
        requires
            s2 == (SCALE as int) * (SCALE as int),
    ;
    assert(s2 * d == (SCALE as int) * ((SCALE as int) * d)) by (nonlinear_arith)
        requires
            s2 == (SCALE as int) * (SCALE as int),
    ;
    assert((SCALE as int) * (rdot - 3 * (SCALE as int)) < (SCALE as int) * ((SCALE as int) * g))
        by (nonlinear_arith)
        requires
            rdot - 3 * (SCALE as int) < (SCALE as int) * g,
    ;
    assert((SCALE as int) * ((SCALE as int) * g) < (SCALE as int) * (rdot + 3 * (SCALE as int)))
        by (nonlinear_arith)
        requires
            (SCALE as int) * g < rdot + 3 * (SCALE as int),
    ;
    assert((SCALE as int) * (rdot - 3 * (SCALE as int)) == (SCALE as int) * rdot - 3 * s2)
        by (nonlinear_arith)
        requires
            s2 == (SCALE as int) * (SCALE as int),
    ;
    assert((SCALE as int) * (rdot + 3 * (SCALE as int)) == (SCALE as int) * rdot + 3 * s2)
        by (nonlinear_arith)
        requires
            s2 == (SCALE as int) * (SCALE as int),
    ;
    assert((SCALE as int) * (dd - 3 * (SCALE as int)) < (SCALE as int) * ((SCALE as int) * d))
        by (nonlinear_arith)
        requires
            dd - 3 * (SCALE as int) < (SCALE as int) * d,
    ;
    assert((SCALE as int) * ((SCALE as int) * d) < (SCALE as int) * (dd + 3 * (SCALE as int)))
        by (nonlinear_arith)
        requires
            (SCALE as int) * d < dd + 3 * (SCALE as int),
    ;
    assert((SCALE as int) * (dd - 3 * (SCALE as int)) == (SCALE as int) * dd - 3 * s2)
        by (nonlinear_arith)
        requires
            s2 == (SCALE as int) * (SCALE as int),
    ;
    assert((SCALE as int) * (dd + 3 * (SCALE as int)) == (SCALE as int) * dd + 3 * s2)
        by (nonlinear_arith)
        requires
            s2 == (SCALE as int) * (SCALE as int),
    ;

    // s2 * (g + d) lies strictly within 9 * s2 of zero.
    assert(-9 * s2 < s2 * (g + d) && s2 * (g + d) < 9 * s2) by (nonlinear_arith)
        requires
            s2 * g == (SCALE as int) * ((SCALE as int) * g),
            s2 * d == (SCALE as int) * ((SCALE as int) * d),
            (SCALE as int) * rdot - 3 * s2 < (SCALE as int) * ((SCALE as int) * g),
            (SCALE as int) * ((SCALE as int) * g) < (SCALE as int) * rdot + 3 * s2,
            (SCALE as int) * dd - 3 * s2 < (SCALE as int) * ((SCALE as int) * d),
            (SCALE as int) * ((SCALE as int) * d) < (SCALE as int) * dd + 3 * s2,
            (SCALE as int) * rdot == (SCALE as int) * dd - 2 * d * s2 - (ex * nx + ey * ny + ez
                * nz),
            -s2 < ex * nx < s2,
            -s2 < ey * ny < s2,
            -s2 < ez * nz < s2,
            s2 == 65536 * 65536,
            s2 * (g + d) == s2 * g + s2 * d,
    ;
    assert(s2 * (g + d) == s2 * g + s2 * d) by (nonlinear_arith);
    assert(-9 < g + d && g + d < 9) by (nonlinear_arith)
        requires
            -9 * s2 < s2 * (g + d) && s2 * (g + d) < 9 * s2,
            s2 == 65536 * 65536,
    ;
}

/// The subtrahend of one reflection component: doubling the normal
/// component is exact, and multiplying by the dot product loses less than
/// one step; the component subtraction itself is exact.
proof fn lemma_reflect_component(vi: int, ni: int, d: int)
    requires
        -0x4000_0000 <= vi <= 0x4000_0000,
        -65536 <= ni <= 65536,
        -0x1_0000_0000 <= d <= 0x1_0000_0000,
    ensures
        fx_mul(ni, TWO_RAW as int) == 2 * ni,
        2 * ni * d - SCALE < (SCALE as int) * fx_mul(fx_mul(ni, TWO_RAW as int), d),
        (SCALE as int) * fx_mul(fx_mul(ni, TWO_RAW as int), d) < 2 * ni * d + SCALE,
        -0x4_0000_0000 <= fx_mul(fx_mul(ni, TWO_RAW as int), d) <= 0x4_0000_0000,
        fx_sub(vi, fx_mul(fx_mul(ni, TWO_RAW as int), d)) == vi - fx_mul(
            fx_mul(ni, TWO_RAW as int),
            d,
        ),
{
    assert(ni * 131072 == (2 * ni) * 65536) by (nonlinear_arith);
    lemma_fx_mul_err(ni, TWO_RAW as int);
    lemma_sdiv_mul_near(ni * (TWO_RAW as int), SCALE as int);
    assert(fx_mul(ni, TWO_RAW as int) == 2 * ni);
    assert(-0x2_0000_0000_0000 <= 2 * ni * d <= 0x2_0000_0000_0000) by (nonlinear_arith)
        requires
            -65536 <= ni <= 65536,
            -0x1_0000_0000 <= d <= 0x1_0000_0000,
    ;
    assert((2 * ni) * d == 2 * ni * d) by (nonlinear_arith);
    lemma_fx_mul_err(2 * ni, d);
    let t = fx_mul(2 * ni, d);
    assert(-0x4_0000_0000 <= t <= 0x4_0000_0000);
}

/// Scale one corrected channel to `[0, 255]`.
fn channel(g: Fx) -> (v: u8)
    ensures
        v == quantize_spec(g),
{
    let intensity = Interval { min: Fx { raw: 0 }, max: Fx { raw: INTENSITY_MAX_RAW } };
    let clamped = intensity.clamp(&g);
    let q: u64 = ((clamped.raw as u64) * 256) / (SCALE as u64);
    proof {
        lemma_div_is_ordered((clamped.raw as int) * 256, 16760320, SCALE as int);
        lemma_div_pos_is_pos((clamped.raw as int) * 256, SCALE as int);
    }
    q as u8
}

} // verus!
