//! Three-component fixed-point vectors, used for points, directions and colors.
use vstd::prelude::*;

use crate::fixed::{
    div_floor, div_fx, fits, fx_div, fx_mul, fx_sqrt, isqrt, mul_fx, sqrt_fx, sqrt_floor,
    lemma_div_bound, lemma_mul_bound, LIMIT, SCALE,
};

verus! {

/// The mathematical vector that a `Vec3` stands for, in units of `1 / SCALE`.
pub struct Vector {
    pub x: int,
    pub y: int,
    pub z: int,
}

impl Vector {
    /// Every component lies within the library's range.
    pub open spec fn fits(self) -> bool {
        fits(self.x) && fits(self.y) && fits(self.z)
    }

    /// Every component lies within `[-m, m]`.
    pub open spec fn within(self, m: int) -> bool {
        -m <= self.x <= m && -m <= self.y <= m && -m <= self.z <= m
    }
}

pub open spec fn vector(x: int, y: int, z: int) -> Vector {
    Vector { x, y, z }
}

pub open spec fn vadd(a: Vector, b: Vector) -> Vector {
    vector(a.x + b.x, a.y + b.y, a.z + b.z)
}

pub open spec fn vsub(a: Vector, b: Vector) -> Vector {
    vector(a.x - b.x, a.y - b.y, a.z - b.z)
}

pub open spec fn vadd_scalar(a: Vector, k: int) -> Vector {
    vector(a.x + k, a.y + k, a.z + k)
}

pub open spec fn vsub_scalar(a: Vector, k: int) -> Vector {
    vector(a.x - k, a.y - k, a.z - k)
}

pub open spec fn vneg(a: Vector) -> Vector {
    vector(-a.x, -a.y, -a.z)
}

/// Each component multiplied by the fixed-point value `k`.
pub open spec fn vscale(a: Vector, k: int) -> Vector {
    vector(fx_mul(a.x, k), fx_mul(a.y, k), fx_mul(a.z, k))
}

/// Each component divided by the fixed-point value `k > 0`.
pub open spec fn vdiv(a: Vector, k: int) -> Vector {
    vector(fx_div(a.x, k), fx_div(a.y, k), fx_div(a.z, k))
}

/// The exact dot product, in units of `1 / (SCALE * SCALE)`.
pub open spec fn dot_exact(a: Vector, b: Vector) -> int {
    a.x * b.x + a.y * b.y + a.z * b.z
}

/// The dot product as a fixed-point value.
pub open spec fn vdot(a: Vector, b: Vector) -> int {
    dot_exact(a, b) / (SCALE as int)
}

/// The squared length, exact, in units of `1 / (SCALE * SCALE)`.
pub open spec fn sum_sq(a: Vector) -> int {
    dot_exact(a, a)
}

/// The length, as a fixed-point value rounded down.
pub open spec fn vlength(a: Vector) -> int {
    sqrt_floor(sum_sq(a))
}

/// The vector scaled to unit length (components rounded down).
pub open spec fn vunit(a: Vector) -> Vector {
    vdiv(a, vlength(a))
}

pub open spec fn velemul(a: Vector, b: Vector) -> Vector {
    vector(fx_mul(a.x, b.x), fx_mul(a.y, b.y), fx_mul(a.z, b.z))
}

pub open spec fn vcross(a: Vector, b: Vector) -> Vector {
    vector(
        (a.y * b.z - a.z * b.y) / (SCALE as int),
        (a.z * b.x - a.x * b.z) / (SCALE as int),
        (a.x * b.y - a.y * b.x) / (SCALE as int),
    )
}

/// The mirror image of `v` about the plane with normal `n`: `v - 2 (v . n) n`.
pub open spec fn vreflect(v: Vector, n: Vector) -> Vector {
    vsub(v, vscale(n, 2 * vdot(v, n)))
}

/// The intermediate values of `vreflect` all lie within the library's range.
pub open spec fn reflect_fits(v: Vector, n: Vector) -> bool {
    &&& fits(vdot(v, n))
    &&& fits(2 * vdot(v, n))
    &&& vscale(n, 2 * vdot(v, n)).fits()
    &&& vreflect(v, n).fits()
}

/// The cosine between `-uv` and `n` used by `vrefract`.
pub open spec fn refract_cos(uv: Vector, n: Vector) -> int {
    vdot(vneg(uv), n)
}

/// The component of the refracted ray perpendicular to `n`.
pub open spec fn refract_perp(uv: Vector, n: Vector, rate: int) -> Vector {
    vscale(vadd(uv, vscale(n, refract_cos(uv, n))), rate)
}

/// The length of the component of the refracted ray along `n`.
pub open spec fn refract_par_len(uv: Vector, n: Vector, rate: int) -> int {
    let p = vdot(refract_perp(uv, n, rate), refract_perp(uv, n, rate));
    fx_sqrt(if SCALE - p >= 0 {
        SCALE - p
    } else {
        p - SCALE
    })
}

/// Snell's law for the unit direction `uv` through the surface with normal `n`,
/// where `rate` is the ratio of the refractive indices.
pub open spec fn vrefract(uv: Vector, n: Vector, rate: int) -> Vector {
    vadd(refract_perp(uv, n, rate), vscale(n, -refract_par_len(uv, n, rate)))
}

/// The intermediate values of `vrefract` all lie within the library's range.
pub open spec fn refract_fits(uv: Vector, n: Vector, rate: int) -> bool {
    let c = refract_cos(uv, n);
    let p = vdot(refract_perp(uv, n, rate), refract_perp(uv, n, rate));
    &&& fits(c)
    &&& vscale(n, c).fits()
    &&& vadd(uv, vscale(n, c)).fits()
    &&& refract_perp(uv, n, rate).fits()
    &&& fits(p)
    &&& fits(SCALE - p)
    &&& vscale(n, -refract_par_len(uv, n, rate)).fits()
    &&& vrefract(uv, n, rate).fits()
}

/// A vector of three fixed-point components, each a count of `1 / SCALE` units.
#[derive(Clone, Copy, Debug, PartialEq, Eq, Structural)]
pub struct Vec3 {
    pub x: i64,
    pub y: i64,
    pub z: i64,
}

impl View for Vec3 {
    type V = Vector;

    open spec fn view(&self) -> Vector {
        vector(self.x as int, self.y as int, self.z as int)
    }
}

/// Colors are vectors of red, green and blue, one (`SCALE`) being full intensity.
pub type Color = Vec3;

impl Vec3 {
    /// The vector lies within the library's range.
    pub open spec fn wf(&self) -> bool {
        self@.fits()
    }

    pub fn new(x: i64, y: i64, z: i64) -> (r: Self)
        ensures
            r.x == x,
            r.y == y,
            r.z == z,
    {
        Vec3 { x, y, z }
    }

    /// Overwrites this vector with `other`.
    pub fn copy(&mut self, other: Self)
        ensures
            *final(self) == other,
    {
        self.x = other.x;
        self.y = other.y;
        self.z = other.z;
    }

    pub fn x(&self) -> (r: i64)
        ensures
            r == self.x,
    {
        self.x
    }

    pub fn y(&self) -> (r: i64)
        ensures
            r == self.y,
    {
        self.y
    }

    pub fn z(&self) -> (r: i64)
        ensures
            r == self.z,
    {
        self.z
    }

    /// The vector `(1, 1, 1)`.
    pub fn ones() -> (r: Self)
        ensures
            r@ == vector(SCALE as int, SCALE as int, SCALE as int),
    {
        Vec3 { x: SCALE, y: SCALE, z: SCALE }
    }

    /// The vector `(0, 0, 0)`.
    pub fn zero() -> (r: Self)
        ensures
            r@ == vector(0, 0, 0),
    {
        Vec3 { x: 0, y: 0, z: 0 }
    }

    /// The exact squared length, in units of `1 / (SCALE * SCALE)`.
    pub fn sum_sq(&self) -> (r: i128)
        requires
            self.wf(),
        ensures
            r == sum_sq(self@),
            0 <= r <= 3 * LIMIT * LIMIT,
    {
        proof {
            lemma_sq_bound(self@);
        }
        (self.x as i128) * (self.x as i128) + (self.y as i128) * (self.y as i128) + (self.z
            as i128) * (self.z as i128)
    }

    /// The exact dot product, in units of `1 / (SCALE * SCALE)`.
    pub fn dot_exact(a: &Self, b: &Self) -> (r: i128)
        requires
            a.wf(),
            b.wf(),
        ensures
            r == dot_exact(a@, b@),
            -3 * LIMIT * LIMIT <= r <= 3 * LIMIT * LIMIT,
    {
        proof {
            lemma_mul_bound(a.x as int, b.x as int, LIMIT as int, LIMIT as int);
            lemma_mul_bound(a.y as int, b.y as int, LIMIT as int, LIMIT as int);
            lemma_mul_bound(a.z as int, b.z as int, LIMIT as int, LIMIT as int);
        }
        (a.x as i128) * (b.x as i128) + (a.y as i128) * (b.y as i128) + (a.z as i128) * (
        b.z as i128)
    }

    /// The squared length as a fixed-point value.
    pub fn squared_length(&self) -> (r: i64)
        requires
            self.wf(),
            fits(vdot(self@, self@)),
        ensures
            r == vdot(self@, self@),
    {
        let s = self.sum_sq();
        div_floor(s, SCALE as i128) as i64
    }

    /// The length as a fixed-point value, rounded down.
    pub fn length(&self) -> (r: i64)
        requires
            self.wf(),
        ensures
            r == vlength(self@),
            0 <= r,
            r * r <= sum_sq(self@) < (r + 1) * (r + 1),
    {
        let s = self.sum_sq();
        let r = isqrt(s as u128);
        proof {
            assert(r <= 2 * LIMIT) by (nonlinear_arith)
                requires
                    r * r <= s,
                    s <= 3 * LIMIT * LIMIT,
                    r >= 0,
                    LIMIT > 0,
            ;
        }
        r as i64
    }

    /// The vector scaled to unit length. The zero vector has no direction.
    pub fn unit(&self) -> (r: Self)
        requires
            self.wf(),
            sum_sq(self@) > 0,
        ensures
            r@ == vunit(self@),
            r@.within(SCALE as int),
    {
        let len = self.length();
        proof {
            assert(len >= 1) by (nonlinear_arith)
                requires
                    sum_sq(self@) < (len + 1) * (len + 1),
                    sum_sq(self@) > 0,
                    len >= 0,
            ;
            lemma_component_le_length(self@, len as int);
            lemma_div_bound(self.x * SCALE, len as int, SCALE as int);
            lemma_div_bound(self.y * SCALE, len as int, SCALE as int);
            lemma_div_bound(self.z * SCALE, len as int, SCALE as int);
        }
        let x = div_floor((self.x as i128) * (SCALE as i128), len as i128);
        let y = div_floor((self.y as i128) * (SCALE as i128), len as i128);
        let z = div_floor((self.z as i128) * (SCALE as i128), len as i128);
        Vec3 { x: x as i64, y: y as i64, z: z as i64 }
    }

    /// The product of the two vectors, component by component.
    pub fn elemul(r1: Self, r2: Self) -> (r: Self)
        requires
            r1.wf(),
            r2.wf(),
            velemul(r1@, r2@).fits(),
        ensures
            r@ == velemul(r1@, r2@),
    {
        Vec3 { x: mul_fx(r1.x, r2.x), y: mul_fx(r1.y, r2.y), z: mul_fx(r1.z, r2.z) }
    }

    /// The cross product.
    pub fn cross(r1: Self, r2: Self) -> (r: Self)
        requires
            r1.wf(),
            r2.wf(),
            vcross(r1@, r2@).fits(),
        ensures
            r@ == vcross(r1@, r2@),
    {
        proof {
            lemma_mul_bound(r1.x as int, r2.y as int, LIMIT as int, LIMIT as int);
            lemma_mul_bound(r1.x as int, r2.z as int, LIMIT as int, LIMIT as int);
            lemma_mul_bound(r1.y as int, r2.x as int, LIMIT as int, LIMIT as int);
            lemma_mul_bound(r1.y as int, r2.z as int, LIMIT as int, LIMIT as int);
            lemma_mul_bound(r1.z as int, r2.x as int, LIMIT as int, LIMIT as int);
            lemma_mul_bound(r1.z as int, r2.y as int, LIMIT as int, LIMIT as int);
        }
        let (ax, ay, az) = (r1.x as i128, r1.y as i128, r1.z as i128);
        let (bx, by, bz) = (r2.x as i128, r2.y as i128, r2.z as i128);
        let x = div_floor(ay * bz - az * by, SCALE as i128);
        let y = div_floor(az * bx - ax * bz, SCALE as i128);
        let z = div_floor(ax * by - ay * bx, SCALE as i128);
        Vec3 { x: x as i64, y: y as i64, z: z as i64 }
    }

    /// The dot product as a fixed-point value.
    pub fn dot(&self, other: &Self) -> (r: i64)
        requires
            self.wf(),
            other.wf(),
            fits(vdot(self@, other@)),
        ensures
            r == vdot(self@, other@),
    {
        let d = Vec3::dot_exact(self, other);
        div_floor(d, SCALE as i128) as i64
    }

    pub fn add(self, other: Self) -> (r: Self)
        requires
            vadd(self@, other@).fits(),
        ensures
            r@ == vadd(self@, other@),
    {
        Vec3 { x: self.x + other.x, y: self.y + other.y, z: self.z + other.z }
    }

    pub fn sub(self, other: Self) -> (r: Self)
        requires
            vsub(self@, other@).fits(),
        ensures
            r@ == vsub(self@, other@),
    {
        Vec3 { x: self.x - other.x, y: self.y - other.y, z: self.z - other.z }
    }

    /// Adds `k` to each component.
    pub fn add_scalar(self, k: i64) -> (r: Self)
        requires
            vadd_scalar(self@, k as int).fits(),
        ensures
            r@ == vadd_scalar(self@, k as int),
    {
        Vec3 { x: self.x + k, y: self.y + k, z: self.z + k }
    }

    /// Subtracts `k` from each component.
    pub fn sub_scalar(self, k: i64) -> (r: Self)
        requires
            vsub_scalar(self@, k as int).fits(),
        ensures
            r@ == vsub_scalar(self@, k as int),
    {
        Vec3 { x: self.x - k, y: self.y - k, z: self.z - k }
    }

    pub fn add_assign(&mut self, other: Self)
        requires
            vadd(old(self)@, other@).fits(),
        ensures
            final(self)@ == vadd(old(self)@, other@),
    {
        *self = self.add(other);
    }

    pub fn sub_assign(&mut self, other: Self)
        requires
            vsub(old(self)@, other@).fits(),
        ensures
            final(self)@ == vsub(old(self)@, other@),
    {
        *self = self.sub(other);
    }

    pub fn add_scalar_assign(&mut self, k: i64)
        requires
            vadd_scalar(old(self)@, k as int).fits(),
        ensures
            final(self)@ == vadd_scalar(old(self)@, k as int),
    {
        *self = self.add_scalar(k);
    }

    pub fn sub_scalar_assign(&mut self, k: i64)
        requires
            vsub_scalar(old(self)@, k as int).fits(),
        ensures
            final(self)@ == vsub_scalar(old(self)@, k as int),
    {
        *self = self.sub_scalar(k);
    }

    /// Multiplies each component by the fixed-point value `k`.
    pub fn scale(self, k: i64) -> (r: Self)
        requires
            self.wf(),
            fits(k as int),
            vscale(self@, k as int).fits(),
        ensures
            r@ == vscale(self@, k as int),
    {
        Vec3 { x: mul_fx(self.x, k), y: mul_fx(self.y, k), z: mul_fx(self.z, k) }
    }

    pub fn scale_assign(&mut self, k: i64)
        requires
            old(self).wf(),
            fits(k as int),
            vscale(old(self)@, k as int).fits(),
        ensures
            final(self)@ == vscale(old(self)@, k as int),
    {
        *self = self.scale(k);
    }

    /// Divides each component by the fixed-point value `k > 0`.
    pub fn div(self, k: i64) -> (r: Self)
        requires
            self.wf(),
            0 < k <= LIMIT,
            vdiv(self@, k as int).fits(),
        ensures
            r@ == vdiv(self@, k as int),
    {
        Vec3 { x: div_fx(self.x, k), y: div_fx(self.y, k), z: div_fx(self.z, k) }
    }

    pub fn neg(self) -> (r: Self)
        requires
            self.wf(),
        ensures
            r@ == vneg(self@),
            r.wf(),
    {
        Vec3 { x: -self.x, y: -self.y, z: -self.z }
    }

    /// The mirror image of `v` about the plane with normal `n`.
    pub fn reflect(v: Self, n: Self) -> (r: Self)
        requires
            v.wf(),
            n.wf(),
            reflect_fits(v@, n@),
        ensures
            r@ == vreflect(v@, n@),
    {
        let d = v.dot(&n);
        v.sub(n.scale(2 * d))
    }

    /// The direction of the unit direction `uv` after it passes through a
    /// surface with normal `n`; `rate` is the ratio of the refractive indices.
    pub fn refract(uv: Self, n: Self, rate: i64) -> (r: Self)
        requires
            uv.wf(),
            n.wf(),
            fits(rate as int),
            refract_fits(uv@, n@, rate as int),
        ensures
            r@ == vrefract(uv@, n@, rate as int),
    {
        let cos_theta = uv.neg().dot(&n);
        let perp = uv.add(n.scale(cos_theta)).scale(rate);
        let p = perp.dot(&perp);
        let gap = SCALE - p;
        let par_len = sqrt_fx(
            if gap >= 0 {
                gap
            } else {
                -gap
            },
        );
        perp.add(n.scale(-par_len))
    }
}

/// The squared length is at most `3 * LIMIT * LIMIT`.
pub proof fn lemma_sq_bound(a: Vector)
    requires
        a.fits(),
    ensures
        0 <= a.x * a.x <= LIMIT * LIMIT,
        0 <= a.y * a.y <= LIMIT * LIMIT,
        0 <= a.z * a.z <= LIMIT * LIMIT,
        0 <= sum_sq(a) <= 3 * LIMIT * LIMIT,
{
    lemma_mul_bound(a.x, a.x, LIMIT as int, LIMIT as int);
    lemma_mul_bound(a.y, a.y, LIMIT as int, LIMIT as int);
    lemma_mul_bound(a.z, a.z, LIMIT as int, LIMIT as int);
    assert(a.x * a.x >= 0 && a.y * a.y >= 0 && a.z * a.z >= 0) by (nonlinear_arith);
}

/// No component is longer than the vector: `|a_i| <= len` when
/// `sum_sq(a) < (len + 1)^2`, so `|a_i * SCALE| <= SCALE * len`.
pub proof fn lemma_component_le_length(a: Vector, len: int)
    requires
        len >= 0,
        sum_sq(a) < (len + 1) * (len + 1),
    ensures
        -(SCALE * len) <= a.x * SCALE <= SCALE * len,
        -(SCALE * len) <= a.y * SCALE <= SCALE * len,
        -(SCALE * len) <= a.z * SCALE <= SCALE * len,
{
    assert(a.x * a.x >= 0 && a.y * a.y >= 0 && a.z * a.z >= 0) by (nonlinear_arith);
    lemma_sq_lt(a.x, len);
    lemma_sq_lt(a.y, len);
    lemma_sq_lt(a.z, len);
    assert(-(SCALE * len) <= a.x * SCALE <= SCALE * len) by (nonlinear_arith)
        requires
            -len <= a.x <= len,
    ;
    assert(-(SCALE * len) <= a.y * SCALE <= SCALE * len) by (nonlinear_arith)
        requires
            -len <= a.y <= len,
    ;
    assert(-(SCALE * len) <= a.z * SCALE <= SCALE * len) by (nonlinear_arith)
        requires
            -len <= a.z <= len,
    ;
}

/// `c * c < (len + 1)^2` gives `|c| <= len`.
pub proof fn lemma_sq_lt(c: int, len: int)
    requires
        len >= 0,
        c * c < (len + 1) * (len + 1),
    ensures
        -len <= c <= len,
{
    if c > len {
        assert(c * c >= (len + 1) * (len + 1)) by (nonlinear_arith)
            requires
                c >= len + 1,
                len >= 0,
        ;
    }
    if c < -len {
        assert(c * c >= (len + 1) * (len + 1)) by (nonlinear_arith)
            requires
                -c >= len + 1,
                len >= 0,
        ;
    }
}

/// `|fx_mul(a, b)| <= m` when `|a| <= ma`, `|b| <= mb` and `ma * mb <= m * SCALE`.
pub proof fn lemma_fx_mul_within(a: int, b: int, ma: int, mb: int, m: int)
    requires
        -ma <= a <= ma,
        -mb <= b <= mb,
        ma * mb <= m * SCALE,
    ensures
        -m <= fx_mul(a, b) <= m,
{
    lemma_mul_bound(a, b, ma, mb);
    lemma_div_bound(a * b, SCALE as int, m);
}

/// Scaling a vector within `mv` by `|k| <= mk` stays within `m` when
/// `mv * mk <= m * SCALE`.
pub proof fn lemma_vscale_within(v: Vector, k: int, mv: int, mk: int, m: int)
    requires
        v.within(mv),
        -mk <= k <= mk,
        mv * mk <= m * SCALE,
    ensures
        vscale(v, k).within(m),
{
    lemma_fx_mul_within(v.x, k, mv, mk, m);
    lemma_fx_mul_within(v.y, k, mv, mk, m);
    lemma_fx_mul_within(v.z, k, mv, mk, m);
}

/// The dot product of vectors within `ma` and `mb` lies within `m` when
/// `3 * ma * mb <= m * SCALE`.
pub proof fn lemma_vdot_within(a: Vector, b: Vector, ma: int, mb: int, m: int)
    requires
        a.within(ma),
        b.within(mb),
        3 * (ma * mb) <= m * SCALE,
    ensures
        -3 * (ma * mb) <= dot_exact(a, b) <= 3 * (ma * mb),
        -m <= vdot(a, b) <= m,
{
    lemma_mul_bound(a.x, b.x, ma, mb);
    lemma_mul_bound(a.y, b.y, ma, mb);
    lemma_mul_bound(a.z, b.z, ma, mb);
    let k = ma * mb;
    let (p, q, r) = (a.x * b.x, a.y * b.y, a.z * b.z);
    assert(-k <= p <= k && -k <= q <= k && -k <= r <= k);
    assert(dot_exact(a, b) == p + q + r);
    assert(-3 * k <= p + q + r <= 3 * k) by (nonlinear_arith)
        requires
            -k <= p <= k,
            -k <= q <= k,
            -k <= r <= k,
    ;
    lemma_div_bound(dot_exact(a, b), SCALE as int, m);
}

/// Negation keeps a bound.
pub proof fn lemma_vneg_within(a: Vector, m: int)
    requires
        a.within(m),
    ensures
        vneg(a).within(m),
        dot_exact(a, vneg(a)) == -sum_sq(a),
{
    assert(dot_exact(a, vneg(a)) == -sum_sq(a)) by (nonlinear_arith);
}

/// The bounds of `vreflect(v, n)` for `v` within one and `n` within two.
pub proof fn lemma_reflect_bounds(v: Vector, n: Vector)
    requires
        v.within(SCALE as int),
        n.within(2 * SCALE),
    ensures
        reflect_fits(v, n),
        vreflect(v, n).within(25 * SCALE),
{
    let s = SCALE as int;
    lemma_vdot_within(v, n, s, 2 * s, 6 * s);
    lemma_vscale_within(n, 2 * vdot(v, n), 2 * s, 12 * s, 24 * s);
}

/// The bounds of `vrefract(uv, n, rate)` for `uv` within one, `n` within two
/// and `0 <= rate <= 16`.
pub proof fn lemma_refract_bounds(uv: Vector, n: Vector, rate: int)
    requires
        uv.within(SCALE as int),
        n.within(2 * SCALE),
        0 <= rate <= 16 * SCALE,
    ensures
        refract_fits(uv, n, rate),
        vrefract(uv, n, rate).within(1000 * SCALE),
{
    let s = SCALE as int;
    lemma_vneg_within(uv, s);
    let c = refract_cos(uv, n);
    lemma_vdot_within(vneg(uv), n, s, 2 * s, 6 * s);
    lemma_vscale_within(n, c, 2 * s, 6 * s, 12 * s);
    let q = vadd(uv, vscale(n, c));
    assert(q.within(13 * s));
    lemma_vscale_within(q, rate, 13 * s, 16 * s, 208 * s);
    let perp = refract_perp(uv, n, rate);
    lemma_vdot_within(perp, perp, 208 * s, 208 * s, 129792 * s);
    let p = vdot(perp, perp);
    let g = if s - p >= 0 {
        s - p
    } else {
        p - s
    };
    assert(0 <= g <= 129793 * s);
    crate::fixed::lemma_sqrt_floor(g * s);
    let pl = refract_par_len(uv, n, rate);
    assert(pl == sqrt_floor(g * s));
    assert(pl <= 361 * s) by (nonlinear_arith)
        requires
            pl * pl <= g * s,
            g <= 129793 * s,
            pl >= 0,
            s == 65536,
    ;
    lemma_vscale_within(n, -pl, 2 * s, 361 * s, 722 * s);
}

/// The cross product of vectors within `ma` and `mb` lies within `m` when
/// `2 * ma * mb <= m * SCALE`.
pub proof fn lemma_vcross_within(a: Vector, b: Vector, ma: int, mb: int, m: int)
    requires
        a.within(ma),
        b.within(mb),
        2 * (ma * mb) <= m * SCALE,
    ensures
        vcross(a, b).within(m),
{
    lemma_mul_bound(a.x, b.y, ma, mb);
    lemma_mul_bound(a.x, b.z, ma, mb);
    lemma_mul_bound(a.y, b.x, ma, mb);
    lemma_mul_bound(a.y, b.z, ma, mb);
    lemma_mul_bound(a.z, b.x, ma, mb);
    lemma_mul_bound(a.z, b.y, ma, mb);
    lemma_div_bound(a.y * b.z - a.z * b.y, SCALE as int, m);
    lemma_div_bound(a.z * b.x - a.x * b.z, SCALE as int, m);
    lemma_div_bound(a.x * b.y - a.y * b.x, SCALE as int, m);
}

/// Halving (dividing by the fixed-point two) keeps a vector within `m`.
pub proof fn lemma_vhalf_within(a: Vector, m: int)
    requires
        a.within(m),
        m >= 0,
    ensures
        vdiv(a, 2 * SCALE).within(m),
{
    let s = SCALE as int;
    assert(-(m * (2 * s)) <= a.x * s <= m * (2 * s)) by (nonlinear_arith)
        requires
            -m <= a.x <= m,
            s > 0,
            m >= 0,
    ;
    assert(-(m * (2 * s)) <= a.y * s <= m * (2 * s)) by (nonlinear_arith)
        requires
            -m <= a.y <= m,
            s > 0,
            m >= 0,
    ;
    assert(-(m * (2 * s)) <= a.z * s <= m * (2 * s)) by (nonlinear_arith)
        requires
            -m <= a.z <= m,
            s > 0,
            m >= 0,
    ;
    lemma_div_bound(a.x * s, 2 * s, m);
    lemma_div_bound(a.y * s, 2 * s, m);
    lemma_div_bound(a.z * s, 2 * s, m);
}

/// Reflecting twice about the same normal of length one gives back the vector,
/// where the reflection rounds nothing: the dot product and the three products
/// `n_i * 2 (v . n)` are whole multiples of the grid step.
pub proof fn lemma_reflect_involution(v: Vector, n: Vector)
    requires
        sum_sq(n) == SCALE * SCALE,
        dot_exact(v, n) % (SCALE as int) == 0,
        (n.x * (2 * vdot(v, n))) % (SCALE as int) == 0,
        (n.y * (2 * vdot(v, n))) % (SCALE as int) == 0,
        (n.z * (2 * vdot(v, n))) % (SCALE as int) == 0,
    ensures
        vreflect(vreflect(v, n), n) == v,
{
    let s = SCALE as int;
    let dd = dot_exact(v, n);
    let d = vdot(v, n);
    vstd::arithmetic::div_mod::lemma_fundamental_div_mod(dd, s);
    assert(dd == s * d);
    let k = 2 * d;
    let ex = (n.x * k) / s;
    let ey = (n.y * k) / s;
    let ez = (n.z * k) / s;
    vstd::arithmetic::div_mod::lemma_fundamental_div_mod(n.x * k, s);
    vstd::arithmetic::div_mod::lemma_fundamental_div_mod(n.y * k, s);
    vstd::arithmetic::div_mod::lemma_fundamental_div_mod(n.z * k, s);
    let r = vreflect(v, n);
    assert(r == vector(v.x - ex, v.y - ey, v.z - ez));
    // r . n = v . n - (e . n) = dd - k * |n|^2 / s = dd - 2 dd = -dd.
    assert(dot_exact(r, n) == dd - (ex * n.x + ey * n.y + ez * n.z)) by (nonlinear_arith)
        requires
            r == vector(v.x - ex, v.y - ey, v.z - ez),
            dd == dot_exact(v, n),
    ;
    assert(s * (ex * n.x) == k * (n.x * n.x)) by (nonlinear_arith)
        requires
            n.x * k == s * ex,
    ;
    assert(s * (ey * n.y) == k * (n.y * n.y)) by (nonlinear_arith)
        requires
            n.y * k == s * ey,
    ;
    assert(s * (ez * n.z) == k * (n.z * n.z)) by (nonlinear_arith)
        requires
            n.z * k == s * ez,
    ;
    vstd::arithmetic::mul::lemma_mul_is_distributive_add(s, ex * n.x, ey * n.y);
    vstd::arithmetic::mul::lemma_mul_is_distributive_add(s, ex * n.x + ey * n.y, ez * n.z);
    vstd::arithmetic::mul::lemma_mul_is_distributive_add(k, n.x * n.x, n.y * n.y);
    vstd::arithmetic::mul::lemma_mul_is_distributive_add(k, n.x * n.x + n.y * n.y, n.z * n.z);
    assert(s * (ex * n.x + ey * n.y + ez * n.z) == k * sum_sq(n));
    assert(ex * n.x + ey * n.y + ez * n.z == k * s) by (nonlinear_arith)
        requires
            s * (ex * n.x + ey * n.y + ez * n.z) == k * (s * s),
            s > 0,
    ;
    assert(dot_exact(r, n) == s * (-d));
    vstd::arithmetic::div_mod::lemma_div_multiples_vanish(-d, s);
    assert(vdot(r, n) == -d);
    let k2 = 2 * vdot(r, n);
    assert(k2 == -k);
    assert(n.x * k2 == s * (-ex) && n.y * k2 == s * (-ey) && n.z * k2 == s * (-ez))
        by (nonlinear_arith)
        requires
            k2 == -k,
            n.x * k == s * ex,
            n.y * k == s * ey,
            n.z * k == s * ez,
    ;
    vstd::arithmetic::div_mod::lemma_div_multiples_vanish(-ex, s);
    vstd::arithmetic::div_mod::lemma_div_multiples_vanish(-ey, s);
    vstd::arithmetic::div_mod::lemma_div_multiples_vanish(-ez, s);
    assert(vscale(n, k2) == vector(-ex, -ey, -ez));
}

} // verus!
