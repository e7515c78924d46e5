//! Materials: how a surface scatters the light that reaches it.
use vstd::prelude::*;

use crate::fixed::{div_fx, fx_div, fx_mul, fx_sqrt, mul_fx, sqrt_fx, SCALE};
use crate::ray::Ray;
use crate::sampling::{in_unit_ball, rand_in_unit_sphere, rand_uint_vec, randf, unit_or_up_spec};
use crate::shapes::{ray_in_world, to_vec3, Hitrec};
use crate::vec3::{
    dot_exact, lemma_fx_mul_within, lemma_reflect_bounds, lemma_refract_bounds,
    lemma_vdot_within, lemma_vneg_within, lemma_vscale_within, sum_sq, vadd, vdot, vneg,
    vreflect, vrefract, vscale, vunit, Color, Vec3, Vector,
};

verus! {

/// A surface that absorbs every ray.
#[derive(Clone, Copy, Debug, PartialEq, Eq, Structural)]
pub struct Neg {}

impl Neg {
    pub fn new() -> (r: Self) {
        Neg {}
    }
}

/// A diffuse (Lambertian) surface with the given albedo.
#[derive(Clone, Copy, Debug, PartialEq, Eq, Structural)]
pub struct Lamber {
    pub lbc: Color,
}

impl Lamber {
    pub fn new(lbc: Color) -> (r: Self)
        ensures
            r.lbc == lbc,
    {
        Lamber { lbc }
    }

    pub fn color(&self) -> (r: Color)
        ensures
            r == self.lbc,
    {
        self.lbc
    }
}

/// A metal surface: mirror reflection, blurred by `fuzz`.
#[derive(Clone, Copy, Debug, PartialEq, Eq, Structural)]
pub struct Metal {
    pub lbc: Color,
    pub fuzz: i64,
}

impl Metal {
    pub fn new(lbc: Color, fuzz: i64) -> (r: Self)
        ensures
            r.lbc == lbc,
            r.fuzz == fuzz,
    {
        Metal { lbc, fuzz }
    }

    pub fn color(&self) -> (r: Color)
        ensures
            r == self.lbc,
    {
        self.lbc
    }

    pub fn fuz(&self) -> (r: i64)
        ensures
            r == self.fuzz,
    {
        self.fuzz
    }
}

/// A clear dielectric (glass, water) with the given refractive index.
#[derive(Clone, Copy, Debug, PartialEq, Eq, Structural)]
pub struct Dielectric {
    pub ref_idx: i64,
}

impl Dielectric {
    pub fn new(ref_idx: i64) -> (r: Self)
        ensures
            r.ref_idx == ref_idx,
    {
        Dielectric { ref_idx }
    }

    pub fn rdx(&self) -> (r: i64)
        ensures
            r == self.ref_idx,
    {
        self.ref_idx
    }
}

/// The four kinds of surface.
#[derive(Clone, Copy, Debug, PartialEq, Eq, Structural)]
pub enum Material {
    Neg(Neg),
    Lamber(Lamber),
    Metal(Metal),
    Dielectric(Dielectric),
}

/// A color whose channels lie in `[0, 1]`.
pub open spec fn is_color(c: Color) -> bool {
    0 <= c.x <= SCALE && 0 <= c.y <= SCALE && 0 <= c.z <= SCALE
}

impl Material {
    /// Albedos are colors, fuzz lies in `[0, 1]`, refractive indices in
    /// `[1/16, 16]`.
    pub open spec fn wf(&self) -> bool {
        match self {
            Material::Neg(_) => true,
            Material::Lamber(m) => is_color(m.lbc),
            Material::Metal(m) => is_color(m.lbc) && 0 <= m.fuzz <= SCALE,
            Material::Dielectric(m) => SCALE / 16 <= m.ref_idx <= 16 * SCALE,
        }
    }
}

/// The random draws that one scattering event may use.
#[derive(Clone, Copy, Debug, PartialEq, Eq, Structural)]
pub struct Sample {
    /// A direction of length one, for diffuse surfaces.
    pub unit: Vec3,
    /// A point of the unit ball, for the blur of metal surfaces.
    pub ball: Vec3,
    /// A value of `[0, 1)`, to choose between reflection and refraction.
    pub coin: i64,
}

impl Sample {
    /// `unit` is a point of the unit ball scaled to length one, `ball` a point
    /// of the unit ball and `coin` a value of `[0, 1)`.
    pub open spec fn wf(&self) -> bool {
        &&& self.unit@.within(SCALE as int)
        &&& exists|p: Vector| in_unit_ball(p) && self.unit@ == unit_or_up_spec(p)
        &&& in_unit_ball(self.ball@)
        &&& 0 <= self.coin < SCALE
    }

    /// Draws a sample from the thread's generator.
    pub fn draw() -> (r: Self)
        ensures
            r.wf(),
    {
        Sample { unit: rand_uint_vec(), ball: rand_in_unit_sphere(), coin: randf(0, SCALE) }
    }
}

/// The ray leaving the point of `rec` in direction `dir`.
pub open spec fn ray_from(rec: Hitrec, dir: Vector) -> Ray {
    Ray { org: rec.p, dir: to_vec3(dir) }
}

/// `(1 - x)^5` for `x = 1 - cosine`, as the product of fixed-point values.
pub open spec fn pow5(x: int) -> int {
    fx_mul(fx_mul(fx_mul(fx_mul(x, x), x), x), x)
}

/// Schlick's approximation of the Fresnel reflectance:
/// `r0 + (1 - r0) (1 - cosine)^5` with `r0 = ((1 - ref_idx) / (1 + ref_idx))^2`.
pub open spec fn schlick_spec(cosine: int, ref_idx: int) -> int {
    let r0 = fx_div(SCALE - ref_idx, SCALE + ref_idx);
    let r0 = fx_mul(r0, r0);
    r0 + fx_mul(SCALE - r0, pow5(SCALE - cosine))
}

/// Schlick's approximation of the share of light that a dielectric reflects.
pub fn schlick(cosine: i64, ref_idx: i64) -> (r: i64)
    requires
        -6 * SCALE <= cosine <= SCALE,
        0 <= ref_idx <= 16 * SCALE,
    ensures
        r == schlick_spec(cosine as int, ref_idx as int),
{
    let ghost s = SCALE as int;
    proof {
        let a = s - ref_idx;
        let b = s + ref_idx;
        assert(-(16 * s * b) <= a * s <= 16 * s * b) by (nonlinear_arith)
            requires
                -15 * s <= a <= s,
                b >= s,
                s > 0,
        ;
        crate::fixed::lemma_div_bound(a * s, b, 16 * s);
    }
    let r0 = div_fx(SCALE - ref_idx, SCALE + ref_idx);
    proof {
        assert((16 * s) * (16 * s) <= (256 * s) * SCALE) by (nonlinear_arith)
            requires
                s == 65536,
        ;
        lemma_fx_mul_within(r0 as int, r0 as int, 16 * s, 16 * s, 256 * s);
    }
    let r0 = mul_fx(r0, r0);
    let x = SCALE - cosine;
    proof {
        assert((7 * s) * (7 * s) <= (49 * s) * SCALE) by (nonlinear_arith)
            requires
                s == 65536,
        ;
        assert((49 * s) * (7 * s) <= (343 * s) * SCALE) by (nonlinear_arith)
            requires
                s == 65536,
        ;
        assert((343 * s) * (7 * s) <= (2401 * s) * SCALE) by (nonlinear_arith)
            requires
                s == 65536,
        ;
        assert((2401 * s) * (7 * s) <= (16807 * s) * SCALE) by (nonlinear_arith)
            requires
                s == 65536,
        ;
        lemma_fx_mul_within(x as int, x as int, 7 * s, 7 * s, 49 * s);
        lemma_fx_mul_within(fx_mul(x as int, x as int), x as int, 49 * s, 7 * s, 343 * s);
        lemma_fx_mul_within(
            fx_mul(fx_mul(x as int, x as int), x as int),
            x as int,
            343 * s,
            7 * s,
            2401 * s,
        );
        lemma_fx_mul_within(
            fx_mul(fx_mul(fx_mul(x as int, x as int), x as int), x as int),
            x as int,
            2401 * s,
            7 * s,
            16807 * s,
        );
    }
    let p = mul_fx(mul_fx(mul_fx(mul_fx(x, x), x), x), x);
    proof {
        assert((257 * s) * (16807 * s) <= (4319399 * s) * SCALE) by (nonlinear_arith)
            requires
                s == 65536,
        ;
        lemma_fx_mul_within((s - r0) as int, p as int, 257 * s, 16807 * s, 4319399 * s);
    }
    r0 + mul_fx(SCALE - r0, p)
}

/// What a diffuse surface does: it sends the ray off along the normal plus the
/// random direction `unit`, attenuated by the albedo.
pub open spec fn lamber_scatter(m: Lamber, rec: Hitrec, unit: Vector) -> (Color, Ray) {
    (m.lbc, ray_from(rec, vadd(rec.nf@, unit)))
}

/// The direction a metal surface sends a ray off in: the mirror image of the
/// incoming unit direction, moved by `fuzz` times the random point `ball`.
pub open spec fn metal_direction(m: Metal, r_in: Ray, rec: Hitrec, ball: Vector) -> Vector {
    vadd(vreflect(vunit(r_in.dir@), rec.nf@), vscale(ball, m.fuzz as int))
}

/// What a metal surface does: it reflects, and absorbs a ray that the blur
/// pushed into the surface.
pub open spec fn metal_scatter(m: Metal, r_in: Ray, rec: Hitrec, ball: Vector) -> Option<
    (Color, Ray),
> {
    let dir = metal_direction(m, r_in, rec, ball);
    if dot_exact(dir, rec.nf@) > 0 {
        Some((m.lbc, ray_from(rec, dir)))
    } else {
        None
    }
}

/// The ratio of refractive indices across the surface at `rec`.
pub open spec fn refraction_rate(m: Dielectric, rec: Hitrec) -> int {
    if rec.front_face {
        fx_div(SCALE as int, m.ref_idx as int)
    } else {
        m.ref_idx as int
    }
}

/// The cosine of the angle of incidence, held at most one.
pub open spec fn incidence_cos(r_in: Ray, rec: Hitrec) -> int {
    let c = vdot(vneg(vunit(r_in.dir@)), rec.nf@);
    if c < SCALE {
        c
    } else {
        SCALE as int
    }
}

/// The sine of the angle of incidence, from its cosine.
pub open spec fn incidence_sin(cos: int) -> int {
    let g = SCALE - fx_mul(cos, cos);
    fx_sqrt(if g >= 0 {
        g
    } else {
        0
    })
}

/// Whether a dielectric reflects: always under total internal reflection, and
/// otherwise when `coin` falls below the Schlick reflectance.
pub open spec fn dielectric_reflects(m: Dielectric, r_in: Ray, rec: Hitrec, coin: int) -> bool {
    let rate = refraction_rate(m, rec);
    let cos = incidence_cos(r_in, rec);
    fx_mul(rate, incidence_sin(cos)) > SCALE || coin < schlick_spec(cos, rate)
}

/// What a dielectric does: it lets all light through, reflected or refracted.
pub open spec fn dielectric_scatter(m: Dielectric, r_in: Ray, rec: Hitrec, coin: int) -> (
    Color,
    Ray,
) {
    let u = vunit(r_in.dir@);
    let white = Vec3 { x: SCALE, y: SCALE, z: SCALE };
    if dielectric_reflects(m, r_in, rec, coin) {
        (white, ray_from(rec, vreflect(u, rec.nf@)))
    } else {
        (white, ray_from(rec, vrefract(u, rec.nf@, refraction_rate(m, rec))))
    }
}

/// What the material at `rec` does with the ray `r_in`, given the random draws.
pub open spec fn scatter_spec(m: Material, r_in: Ray, rec: Hitrec, smp: Sample) -> Option<
    (Color, Ray),
> {
    match m {
        Material::Neg(_) => None,
        Material::Lamber(l) => Some(lamber_scatter(l, rec, smp.unit@)),
        Material::Metal(mt) => metal_scatter(mt, r_in, rec, smp.ball@),
        Material::Dielectric(d) => Some(dielectric_scatter(d, r_in, rec, smp.coin as int)),
    }
}

/// What every scattered ray satisfies: its attenuation is a color and it
/// starts in the scene's box with a direction in the box.
pub open spec fn scatter_ok(res: Option<(Color, Ray)>) -> bool {
    match res {
        Some((att, ray)) => is_color(att) && ray_in_world(ray),
        None => true,
    }
}

/// The input of a scattering event: a ray with a direction, and a record of
/// where it met the surface.
pub open spec fn scatter_input(r_in: Ray, rec: Hitrec) -> bool {
    ray_in_world(r_in) && sum_sq(r_in.dir@) > 0 && rec.wf()
}

impl Neg {
    pub fn scatter(&self) -> (r: Option<(Color, Ray)>)
        ensures
            r is None,
    {
        None
    }
}

impl Lamber {
    pub fn scatter(&self, rec: Hitrec, unit: Vec3) -> (r: (Color, Ray))
        requires
            rec.wf(),
            is_color(self.lbc),
            unit@.within(SCALE as int),
        ensures
            r == lamber_scatter(*self, rec, unit@),
            is_color(r.0) && ray_in_world(r.1),
    {
        let dir = rec.nf.add(unit);
        (self.color(), Ray::new(rec.p, dir))
    }
}

impl Metal {
    pub fn scatter(&self, r_in: Ray, rec: Hitrec, ball: Vec3) -> (r: Option<(Color, Ray)>)
        requires
            scatter_input(r_in, rec),
            Material::Metal(*self).wf(),
            in_unit_ball(ball@),
        ensures
            r == metal_scatter(*self, r_in, rec, ball@),
            scatter_ok(r),
    {
        let ghost s = SCALE as int;
        let u = r_in.dir.unit();
        proof {
            lemma_reflect_bounds(u@, rec.nf@);
            lemma_vscale_within(ball@, self.fuzz as int, s, s, s);
        }
        let rft = Vec3::reflect(u, rec.nf);
        let dir = rft.add(ball.scale(self.fuz()));
        if Vec3::dot_exact(&dir, &rec.nf) > 0 {
            Some((self.color(), Ray::new(rec.p, dir)))
        } else {
            None
        }
    }
}

impl Dielectric {
    pub fn scatter(&self, r_in: Ray, rec: Hitrec, coin: i64) -> (r: (Color, Ray))
        requires
            scatter_input(r_in, rec),
            Material::Dielectric(*self).wf(),
        ensures
            r == dielectric_scatter(*self, r_in, rec, coin as int),
            is_color(r.0) && ray_in_world(r.1),
    {
        let ghost s = SCALE as int;
        let att = Vec3::new(SCALE, SCALE, SCALE);
        proof {
            assert(fx_div(s, self.ref_idx as int) <= 16 * s) by {
                assert(s * s <= (16 * s) * self.ref_idx) by (nonlinear_arith)
                    requires
                        self.ref_idx >= s / 16,
                        s == 65536,
                ;
                crate::fixed::lemma_div_bound(s * s, self.ref_idx as int, 16 * s);
            }
            vstd::arithmetic::div_mod::lemma_div_pos_is_pos(s * s, self.ref_idx as int);
        }
        let rate = if rec.front_face {
            div_fx(SCALE, self.rdx())
        } else {
            self.rdx()
        };
        let uint_dir = r_in.dir.unit();
        proof {
            lemma_vneg_within(uint_dir@, s);
            lemma_vdot_within(vneg(uint_dir@), rec.nf@, s, 2 * s, 6 * s);
        }
        let tem_cos = uint_dir.neg().dot(&rec.nf);
        let cos_theta = if tem_cos < SCALE {
            tem_cos
        } else {
            SCALE
        };
        proof {
            lemma_fx_mul_within(cos_theta as int, cos_theta as int, 6 * s, 6 * s, 36 * s);
            assert(cos_theta * cos_theta >= 0) by (nonlinear_arith);
            vstd::arithmetic::div_mod::lemma_div_pos_is_pos(cos_theta * cos_theta, s);
        }
        let gap = SCALE - mul_fx(cos_theta, cos_theta);
        let sin_theta = sqrt_fx(
            if gap >= 0 {
                gap
            } else {
                0
            },
        );
        proof {
            let g = if gap >= 0 {
                gap as int
            } else {
                0
            };
            crate::fixed::lemma_sqrt_floor(g * s);
            assert(sin_theta <= s) by (nonlinear_arith)
                requires
                    sin_theta * sin_theta <= g * s,
                    0 <= g <= s,
                    sin_theta >= 0,
            ;
            lemma_fx_mul_within(rate as int, sin_theta as int, 16 * s, s, 16 * s);
            lemma_reflect_bounds(uint_dir@, rec.nf@);
            lemma_refract_bounds(uint_dir@, rec.nf@, rate as int);
        }
        if mul_fx(rate, sin_theta) > SCALE {
            let refec = Vec3::reflect(uint_dir, rec.nf);
            return (att, Ray::new(rec.p, refec));
        }
        let prob = schlick(cos_theta, rate);
        if coin < prob {
            let refec = Vec3::reflect(uint_dir, rec.nf);
            (att, Ray::new(rec.p, refec))
        } else {
            let refac = Vec3::refract(uint_dir, rec.nf, rate);
            (att, Ray::new(rec.p, refac))
        }
    }
}

impl Material {
    /// What the material does with the ray `r_in` that met it at `rec`, given
    /// the random draws `smp`: absorption (`None`), or the attenuation and the
    /// scattered ray.
    pub fn scatter_with(&self, r_in: Ray, rec: Hitrec, smp: Sample) -> (r: Option<(Color, Ray)>)
        requires
            scatter_input(r_in, rec),
            self.wf(),
            smp.wf(),
        ensures
            r == scatter_spec(*self, r_in, rec, smp),
            scatter_ok(r),
    {
        match self {
            Material::Neg(m) => m.scatter(),
            Material::Lamber(m) => Some(m.scatter(rec, smp.unit)),
            Material::Metal(m) => m.scatter(r_in, rec, smp.ball),
            Material::Dielectric(m) => Some(m.scatter(r_in, rec, smp.coin)),
        }
    }

    /// What the material does with the ray `r_in` that met it at `rec`, with
    /// fresh random draws.
    pub fn scatter(&self, r_in: Ray, rec: Hitrec) -> (r: Option<(Color, Ray)>)
        requires
            scatter_input(r_in, rec),
            self.wf(),
        ensures
            exists|smp: Sample| smp.wf() && r == scatter_spec(*self, r_in, rec, smp),
            scatter_ok(r),
    {
        let smp = Sample::draw();
        self.scatter_with(r_in, rec, smp)
    }
}

/// An absorbing surface never scatters; a diffuse surface always scatters,
/// with its albedo as the attenuation, whatever the ray and the random draws.
pub proof fn lemma_absorb_and_diffuse(m: Material, r_in: Ray, rec: Hitrec, smp: Sample)
    ensures
        m is Neg ==> scatter_spec(m, r_in, rec, smp) is None,
        m is Lamber ==> match scatter_spec(m, r_in, rec, smp) {
            Some((att, _)) => att == m->Lamber_0.lbc,
            None => false,
        },
{
}

} // verus!
