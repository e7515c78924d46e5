//! Spheres, the scene that holds them, and ray intersection.
use vstd::prelude::*;

use crate::fixed::{div_floor, isqrt, lemma_mul_bound, sqrt_floor, SCALE};
use crate::material::Material;
use crate::ray::Ray;
use crate::vec3::{dot_exact, sum_sq, vdiv, vector, vneg, vsub, Vec3, Vector};

verus! {

/// The half-width of the box, centred on the origin, that a scene lies in.
pub const WORLD: i64 = 0x1000_0000;

/// The vector lies in the scene's box.
pub open spec fn in_world(v: Vector) -> bool {
    v.within(WORLD as int)
}

/// Origin and direction of the ray lie in the scene's box.
pub open spec fn ray_in_world(r: Ray) -> bool {
    in_world(r.org@) && in_world(r.dir@)
}

/// The `Vec3` holding the components of `v`.
pub open spec fn to_vec3(v: Vector) -> Vec3 {
    Vec3 { x: v.x as i64, y: v.y as i64, z: v.z as i64 }
}

/// What a ray meets at a surface.
#[derive(Clone, Copy, Debug, PartialEq, Eq, Structural)]
pub struct Hitrec {
    /// The point that was hit.
    pub p: Vec3,
    /// The surface normal, turned to face against the ray.
    pub nf: Vec3,
    /// The ray parameter of the point.
    pub t: i64,
    /// Whether the ray came from outside the surface.
    pub front_face: bool,
    /// The material at the point.
    pub mat: Material,
}

/// Whether a ray with direction `dir` meets the outward normal `n` from outside.
pub open spec fn faces(dir: Vector, n: Vector) -> bool {
    dot_exact(dir, n) < 0
}

/// The normal `n` turned to face against `dir`.
pub open spec fn facing(dir: Vector, n: Vector) -> Vector {
    if faces(dir, n) {
        n
    } else {
        vneg(n)
    }
}

impl Hitrec {
    /// The point lies in the scene's box, the normal within two of the origin,
    /// and the material is well formed.
    pub open spec fn wf(&self) -> bool {
        in_world(self.p@) && self.nf@.within(2 * SCALE) && self.mat.wf()
    }

    /// A record at the origin, with parameter zero and the given material.
    pub fn new(nmat: Material) -> (r: Self)
        ensures
            r.p@ == vector(0, 0, 0),
            r.nf@ == vector(0, 0, 0),
            r.t == 0,
            !r.front_face,
            r.mat == nmat,
    {
        Hitrec { p: Vec3::zero(), nf: Vec3::zero(), t: 0, front_face: false, mat: nmat }
    }

    pub fn p(&self) -> (r: Vec3)
        ensures
            r == self.p,
    {
        self.p
    }

    pub fn nf(&self) -> (r: Vec3)
        ensures
            r == self.nf,
    {
        self.nf
    }

    /// Records from which side the ray `r` meets the outward normal `nf`, and
    /// keeps the normal turned against the ray.
    pub fn set_face(&mut self, r: Ray, nf: Vec3)
        requires
            r.dir.wf(),
            nf.wf(),
        ensures
            final(self).front_face == faces(r.dir@, nf@),
            final(self).nf@ == facing(r.dir@, nf@),
            final(self).p == old(self).p,
            final(self).t == old(self).t,
            final(self).mat == old(self).mat,
    {
        self.front_face = Vec3::dot_exact(&r.dir, &nf) < 0;
        self.nf = if self.front_face {
            nf
        } else {
            nf.neg()
        };
    }

    /// Overwrites this record with `rec`.
    pub fn copy(&mut self, rec: Self)
        ensures
            *final(self) == rec,
    {
        self.p = rec.p;
        self.nf = rec.nf;
        self.t = rec.t;
        self.front_face = rec.front_face;
        self.mat = rec.mat;
    }
}

/// A sphere with center `ct`, radius `rad` and material `mat`.
#[derive(Clone, Copy, Debug, PartialEq, Eq, Structural)]
pub struct Sphere {
    pub ct: Vec3,
    pub rad: i64,
    pub mat: Material,
}

/// `oc`: from the center of the sphere to the origin of the ray.
pub open spec fn offset(s: Sphere, r: Ray) -> Vector {
    vsub(r.org@, s.ct@)
}

/// `a` of the quadratic `a t^2 + 2 h t + c = 0` (units of `1 / SCALE^2`).
pub open spec fn quad_a(r: Ray) -> int {
    sum_sq(r.dir@)
}

/// `h`, half the linear coefficient of the quadratic.
pub open spec fn quad_h(s: Sphere, r: Ray) -> int {
    dot_exact(r.dir@, offset(s, r))
}

/// `c` of the quadratic.
pub open spec fn quad_c(s: Sphere, r: Ray) -> int {
    sum_sq(offset(s, r)) - s.rad * s.rad
}

/// The discriminant `h^2 - a c` (units of `1 / SCALE^4`).
pub open spec fn discriminant(s: Sphere, r: Ray) -> int {
    quad_h(s, r) * quad_h(s, r) - quad_a(r) * quad_c(s, r)
}

/// The numerator `-h - sqrt(disc)` of the nearer root `(-h - sqrt(disc)) / a`.
pub open spec fn near_num(s: Sphere, r: Ray) -> int {
    -quad_h(s, r) - sqrt_floor(discriminant(s, r))
}

/// The numerator `-h + sqrt(disc)` of the farther root.
pub open spec fn far_num(s: Sphere, r: Ray) -> int {
    -quad_h(s, r) + sqrt_floor(discriminant(s, r))
}

/// The root `num / a` as a fixed-point ray parameter, rounded down.
pub open spec fn root_param(r: Ray, num: int) -> int {
    (num * SCALE) / quad_a(r)
}

pub open spec fn near_root(s: Sphere, r: Ray) -> int {
    root_param(r, near_num(s, r))
}

pub open spec fn far_root(s: Sphere, r: Ray) -> int {
    root_param(r, far_num(s, r))
}

/// The point of the ray at the exact root `num / a`, rounded down:
/// `center + (a oc + num dir) / a`, which is `org + (num / a) dir`.
pub open spec fn hit_point(s: Sphere, r: Ray, num: int) -> Vector {
    let a = quad_a(r);
    let oc = offset(s, r);
    let d = r.dir@;
    vector(
        s.ct.x + (a * oc.x + num * d.x) / a,
        s.ct.y + (a * oc.y + num * d.y) / a,
        s.ct.z + (a * oc.z + num * d.z) / a,
    )
}

/// The outward unit normal `(p - center) / radius` at the point of the root.
pub open spec fn outward(s: Sphere, r: Ray, num: int) -> Vector {
    vdiv(vsub(hit_point(s, r, num), s.ct@), s.rad as int)
}

/// The record of the ray meeting the sphere at the root `num / a`.
pub open spec fn record(s: Sphere, r: Ray, num: int) -> Hitrec {
    Hitrec {
        p: to_vec3(hit_point(s, r, num)),
        nf: to_vec3(facing(r.dir@, outward(s, r, num))),
        t: root_param(r, num) as i64,
        front_face: faces(r.dir@, outward(s, r, num)),
        mat: s.mat,
    }
}

/// Where the ray meets the sphere for a parameter strictly inside
/// `(tmin, tmax)`: a tangent ray misses, and the nearer root goes first.
pub open spec fn sphere_hit(s: Sphere, r: Ray, tmin: i64, tmax: i64) -> Option<Hitrec> {
    if discriminant(s, r) <= 0 {
        None
    } else if tmin < near_root(s, r) < tmax {
        Some(record(s, r, near_num(s, r)))
    } else if tmin < far_root(s, r) < tmax {
        Some(record(s, r, far_num(s, r)))
    } else {
        None
    }
}

impl Sphere {
    /// The radius is positive, the whole sphere lies in the scene's box, and
    /// the material is well formed.
    pub open spec fn wf(&self) -> bool {
        0 < self.rad && self.ct@.within(WORLD - self.rad) && self.mat.wf()
    }

    pub fn new(ct: Vec3, rad: i64, mat: Material) -> (r: Self)
        ensures
            r.ct == ct,
            r.rad == rad,
            r.mat == mat,
    {
        Sphere { ct, rad, mat }
    }

    pub fn ct(&self) -> (r: Vec3)
        ensures
            r == self.ct,
    {
        self.ct
    }

    /// The record of the ray meeting the sphere at the root `num / a`.
    fn record_at(&self, r: Ray, oc: Vec3, a: i128, num: i128, t: i64) -> (res: Hitrec)
        requires
            self.wf(),
            ray_in_world(r),
            oc@ == offset(*self, r),
            a == quad_a(r),
            discriminant(*self, r) > 0,
            num == near_num(*self, r) || num == far_num(*self, r),
            t == root_param(r, num as int),
        ensures
            res == record(*self, r, num as int),
    {
        proof {
            lemma_point_on_sphere(*self, r, num as int);
            lemma_quad_bounds(*self, r);
            let w = WORLD as int;
            lemma_mul_bound(a as int, oc.x as int, 3 * (w * w), 2 * w);
            lemma_mul_bound(a as int, oc.y as int, 3 * (w * w), 2 * w);
            lemma_mul_bound(a as int, oc.z as int, 3 * (w * w), 2 * w);
            lemma_mul_bound(num as int, r.dir.x as int, 15 * (w * w), w);
            lemma_mul_bound(num as int, r.dir.y as int, 15 * (w * w), w);
            lemma_mul_bound(num as int, r.dir.z as int, 15 * (w * w), w);
        }
        let px = self.ct.x as i128 + div_floor(a * oc.x as i128 + num * r.dir.x as i128, a);
        let py = self.ct.y as i128 + div_floor(a * oc.y as i128 + num * r.dir.y as i128, a);
        let pz = self.ct.z as i128 + div_floor(a * oc.z as i128 + num * r.dir.z as i128, a);
        let p = Vec3 { x: px as i64, y: py as i64, z: pz as i64 };
        let s = SCALE as i128;
        let rad = self.rad as i128;
        let nx = div_floor((px - self.ct.x as i128) * s, rad);
        let ny = div_floor((py - self.ct.y as i128) * s, rad);
        let nz = div_floor((pz - self.ct.z as i128) * s, rad);
        let n = Vec3 { x: nx as i64, y: ny as i64, z: nz as i64 };
        let mut rec = Hitrec::new(self.mat);
        rec.t = t;
        rec.p = p;
        rec.set_face(r, n);
        assert(rec.nf == to_vec3(facing(r.dir@, outward(*self, r, num as int))));
        rec
    }

    /// The first point where `r` meets the sphere with parameter strictly
    /// inside `(t_min, t_max)`, if any.
    pub fn hit(&self, r: Ray, t_min: i64, t_max: i64) -> (res: Option<Hitrec>)
        requires
            self.wf(),
            ray_in_world(r),
        ensures
            res == sphere_hit(*self, r, t_min, t_max),
    {
        let oc = r.org.sub(self.ct);
        proof {
            lemma_quad_bounds(*self, r);
        }
        let a = r.dir.sum_sq();
        let h = Vec3::dot_exact(&r.dir, &oc);
        let c = oc.sum_sq() - (self.rad as i128) * (self.rad as i128);
        let disc = h * h - a * c;
        if disc <= 0 {
            return None;
        }
        proof {
            lemma_direction_nonzero(*self, r);
        }
        let sq = isqrt(disc as u128) as i128;
        proof {
            assert(sq <= 9 * (WORLD * WORLD)) by (nonlinear_arith)
                requires
                    sq * sq <= disc,
                    disc <= 81 * (WORLD * WORLD) * (WORLD * WORLD),
                    sq >= 0,
            ;
        }
        proof {
            let w2 = WORLD * WORLD;
            lemma_mul_bound(-h - sq, SCALE as int, 15 * w2, SCALE as int);
            lemma_mul_bound(-h + sq, SCALE as int, 15 * w2, SCALE as int);
        }
        let near = div_floor((-h - sq) * (SCALE as i128), a);
        if t_min as i128 <= near && near <= t_max as i128 && t_min as i128 != near && near
            != t_max as i128 {
            return Some(self.record_at(r, oc, a, -h - sq, near as i64));
        }
        let far = div_floor((-h + sq) * (SCALE as i128), a);
        if t_min as i128 <= far && far <= t_max as i128 && t_min as i128 != far && far
            != t_max as i128 {
            return Some(self.record_at(r, oc, a, -h + sq, far as i64));
        }
        None
    }
}

/// Bounds on the coefficients of the quadratic for a ray and a sphere in the box.
proof fn lemma_quad_bounds(s: Sphere, r: Ray)
    requires
        s.wf(),
        ray_in_world(r),
    ensures
        offset(s, r).within(2 * WORLD),
        0 <= quad_a(r) <= 3 * (WORLD * WORLD),
        -6 * (WORLD * WORLD) <= quad_h(s, r) <= 6 * (WORLD * WORLD),
        -(WORLD * WORLD) <= quad_c(s, r) <= 12 * (WORLD * WORLD),
        -36 * (WORLD * WORLD) * (WORLD * WORLD) <= quad_a(r) * quad_c(s, r) <= 36 * (WORLD
            * WORLD) * (WORLD * WORLD),
        0 <= quad_h(s, r) * quad_h(s, r) <= 36 * (WORLD * WORLD) * (WORLD * WORLD),
        discriminant(s, r) <= 81 * (WORLD * WORLD) * (WORLD * WORLD),
{
    let w = WORLD as int;
    let d = r.dir@;
    let o = offset(s, r);
    lemma_mul_bound(d.x, d.x, w, w);
    lemma_mul_bound(d.y, d.y, w, w);
    lemma_mul_bound(d.z, d.z, w, w);
    lemma_mul_bound(d.x, o.x, w, 2 * w);
    lemma_mul_bound(d.y, o.y, w, 2 * w);
    lemma_mul_bound(d.z, o.z, w, 2 * w);
    lemma_mul_bound(o.x, o.x, 2 * w, 2 * w);
    lemma_mul_bound(o.y, o.y, 2 * w, 2 * w);
    lemma_mul_bound(o.z, o.z, 2 * w, 2 * w);
    lemma_mul_bound(s.rad as int, s.rad as int, w, w);
    assert(d.x * d.x >= 0 && d.y * d.y >= 0 && d.z * d.z >= 0) by (nonlinear_arith);
    assert(o.x * o.x >= 0 && o.y * o.y >= 0 && o.z * o.z >= 0) by (nonlinear_arith);
    assert(s.rad * s.rad >= 0) by (nonlinear_arith);
    let a = quad_a(r);
    let h = quad_h(s, r);
    let c = quad_c(s, r);
    assert(2 * w * (2 * w) == 4 * (w * w)) by (nonlinear_arith);
    assert(w * (2 * w) == 2 * (w * w)) by (nonlinear_arith);
    lemma_mul_bound(a, c, 12 * (w * w), 12 * (w * w));
    assert(-36 * (w * w) * (w * w) <= a * c <= 36 * (w * w) * (w * w)) by (nonlinear_arith)
        requires
            0 <= a <= 3 * (w * w),
            -(w * w) <= c <= 12 * (w * w),
            w > 0,
    ;
    lemma_mul_bound(h, h, 6 * (w * w), 6 * (w * w));
    assert(6 * (w * w) * (6 * (w * w)) == 36 * (w * w) * (w * w)) by (nonlinear_arith);
    assert(h * h >= 0) by (nonlinear_arith);
}

/// A ray with a zero direction has discriminant zero.
proof fn lemma_direction_nonzero(s: Sphere, r: Ray)
    ensures
        discriminant(s, r) > 0 ==> quad_a(r) > 0,
{
    let d = r.dir@;
    assert(d.x * d.x >= 0 && d.y * d.y >= 0 && d.z * d.z >= 0) by (nonlinear_arith);
    if quad_a(r) == 0 {
        assert(d.x == 0 && d.y == 0 && d.z == 0) by (nonlinear_arith)
            requires
                d.x * d.x + d.y * d.y + d.z * d.z == 0,
                d.x * d.x >= 0,
                d.y * d.y >= 0,
                d.z * d.z >= 0,
        ;
        assert(quad_h(s, r) == 0);
    }
}

/// The result of scanning the spheres `s` in order, each searched up to the
/// nearest parameter found so far.
pub open spec fn scan(s: Seq<Sphere>, r: Ray, tmin: i64, tmax: i64) -> Option<Hitrec>
    decreases s.len(),
{
    if s.len() == 0 {
        None
    } else {
        let prev = scan(s.drop_last(), r, tmin, tmax);
        match sphere_hit(s.last(), r, tmin, bound_of(prev, tmax)) {
            Some(h) => Some(h),
            None => prev,
        }
    }
}

/// The upper end of the search after `prev`.
pub open spec fn bound_of(prev: Option<Hitrec>, tmax: i64) -> i64 {
    match prev {
        Some(h) => h.t,
        None => tmax,
    }
}

/// An ordered collection of spheres.
pub struct Hitlist {
    pub shapes: Vec<Sphere>,
}

impl Hitlist {
    /// Every sphere is well formed.
    pub open spec fn wf(&self) -> bool {
        forall|i: int| 0 <= i < self.shapes@.len() ==> #[trigger] self.shapes@[i].wf()
    }

    pub fn new() -> (r: Self)
        ensures
            r.shapes@ == Seq::<Sphere>::empty(),
    {
        Hitlist { shapes: Vec::new() }
    }

    pub fn clear(&mut self)
        ensures
            final(self).shapes@ == Seq::<Sphere>::empty(),
    {
        self.shapes.clear();
    }

    pub fn add(&mut self, shape: Sphere)
        ensures
            final(self).shapes@ == old(self).shapes@.push(shape),
    {
        self.shapes.push(shape);
    }

    /// The nearest point where `r` meets a sphere of the list, with parameter
    /// strictly inside `(t_min, t_max)`.
    pub fn hit(&self, r: Ray, t_min: i64, t_max: i64) -> (res: Option<Hitrec>)
        requires
            self.wf(),
            ray_in_world(r),
        ensures
            res == scan(self.shapes@, r, t_min, t_max),
    {
        let mut rec: Option<Hitrec> = None;
        let mut closest: i64 = t_max;
        let n = self.shapes.len();
        let mut i: usize = 0;
        while i < n
            invariant
                n == self.shapes@.len(),
                0 <= i <= n,
                self.wf(),
                ray_in_world(r),
                rec == scan(self.shapes@.subrange(0, i as int), r, t_min, t_max),
                closest == bound_of(rec, t_max),
            decreases n - i,
        {
            let ghost prefix = self.shapes@.subrange(0, i as int);
            let ghost next = self.shapes@.subrange(0, i + 1);
            assert(next.drop_last() =~= prefix);
            assert(next.last() == self.shapes@[i as int]);
            match self.shapes[i].hit(r, t_min, closest) {
                Some(t_rec) => {
                    closest = t_rec.t;
                    rec = Some(t_rec);
                },
                None => {},
            }
            i = i + 1;
        }
        assert(self.shapes@.subrange(0, n as int) =~= self.shapes@);
        rec
    }
}

/// A ray whose discriminant with a sphere is negative misses that sphere.
pub proof fn lemma_miss(s: Sphere, r: Ray, tmin: i64, tmax: i64)
    requires
        discriminant(s, r) < 0,
    ensures
        sphere_hit(s, r, tmin, tmax) is None,
{
}

/// The normal of every hit opposes the incoming ray: it makes a negative dot
/// product with the direction when the ray comes from outside (front face), and
/// a non-positive one, after turning, when it comes from inside.
pub proof fn lemma_normal_opposes_ray(s: Sphere, r: Ray, tmin: i64, tmax: i64)
    requires
        s.wf(),
        ray_in_world(r),
        sphere_hit(s, r, tmin, tmax) is Some,
    ensures
        ({
            let h = sphere_hit(s, r, tmin, tmax)->0;
            &&& h.front_face <==> dot_exact(r.dir@, vdiv(vsub(h.p@, s.ct@), s.rad as int)) < 0
            &&& h.front_face ==> dot_exact(r.dir@, h.nf@) < 0
            &&& !h.front_face ==> dot_exact(r.dir@, h.nf@) <= 0
        }),
{
    let h = sphere_hit(s, r, tmin, tmax)->0;
    let num = if tmin < near_root(s, r) < tmax {
        near_num(s, r)
    } else {
        far_num(s, r)
    };
    let t = root_param(r, num);
    assert(h == record(s, r, num));
    lemma_point_on_sphere(s, r, num);
    assert(tmin < t < tmax);
    let n = outward(s, r, num);
    assert(h.t as int == t);
    assert(h.nf@ == facing(r.dir@, n));
    assert(dot_exact(r.dir@, vneg(n)) == -dot_exact(r.dir@, n)) by (nonlinear_arith);
}

/// The nearer root is never beyond the farther one.
proof fn lemma_roots_ordered(s: Sphere, r: Ray)
    requires
        quad_a(r) > 0,
        discriminant(s, r) > 0,
    ensures
        near_root(s, r) <= far_root(s, r),
{
    crate::fixed::lemma_sqrt_floor(discriminant(s, r));
    let sq = sqrt_floor(discriminant(s, r));
    let h = quad_h(s, r);
    assert((-h - sq) * SCALE <= (-h + sq) * SCALE) by (nonlinear_arith)
        requires
            sq >= 0,
    ;
    vstd::arithmetic::div_mod::lemma_div_is_ordered(
        (-h - sq) * SCALE,
        (-h + sq) * SCALE,
        quad_a(r),
    );
}

/// Narrowing the search to `(tmin, b)`, with `b <= tmax`, keeps a hit found
/// in `(tmin, tmax)` whose parameter is below `b`; and a hit found in the
/// narrower range is the hit of the wider one.
proof fn lemma_hit_narrow(s: Sphere, r: Ray, tmin: i64, tmax: i64, b: i64)
    requires
        b <= tmax,
    ensures
        sphere_hit(s, r, tmin, tmax) is Some && sphere_hit(s, r, tmin, tmax)->0.t < b
            ==> sphere_hit(s, r, tmin, b) == sphere_hit(s, r, tmin, tmax),
        sphere_hit(s, r, tmin, b) is Some ==> sphere_hit(s, r, tmin, tmax) == sphere_hit(
            s,
            r,
            tmin,
            b,
        ),
{
    if discriminant(s, r) > 0 {
        lemma_direction_nonzero(s, r);
        lemma_roots_ordered(s, r);
    }
}

/// The scan finds a hit exactly when some sphere is hit on its own, its
/// parameter is at most that of every sphere hit on its own, and it is the hit
/// of one of them.
pub proof fn lemma_nearest_hit(s: Seq<Sphere>, r: Ray, tmin: i64, tmax: i64)
    ensures
        forall|j: int|
            0 <= j < s.len() && (#[trigger] sphere_hit(s[j], r, tmin, tmax)) is Some ==> {
                &&& scan(s, r, tmin, tmax) is Some
                &&& scan(s, r, tmin, tmax)->0.t <= sphere_hit(s[j], r, tmin, tmax)->0.t
            },
        scan(s, r, tmin, tmax) is Some ==> exists|j: int|
            0 <= j < s.len() && #[trigger] sphere_hit(s[j], r, tmin, tmax) == scan(
                s,
                r,
                tmin,
                tmax,
            ),
        scan(s, r, tmin, tmax) is None <==> forall|j: int|
            0 <= j < s.len() ==> (#[trigger] sphere_hit(s[j], r, tmin, tmax)) is None,
    decreases s.len(),
{
    if s.len() > 0 {
        let p = s.drop_last();
        lemma_nearest_hit(p, r, tmin, tmax);
        let prev = scan(p, r, tmin, tmax);
        let b = bound_of(prev, tmax);
        let last = s.last();
        lemma_scan_bound(p, r, tmin, tmax);
        lemma_hit_narrow(last, r, tmin, tmax, b);
        assert forall|j: int|
            0 <= j < s.len() && (#[trigger] sphere_hit(s[j], r, tmin, tmax)) is Some implies {
            &&& scan(s, r, tmin, tmax) is Some
            &&& scan(s, r, tmin, tmax)->0.t <= sphere_hit(s[j], r, tmin, tmax)->0.t
        } by {
            if j < s.len() - 1 {
                assert(s[j] == p[j]);
                lemma_hit_t_in_range(last, r, tmin, b);
            } else {
                assert(s[j] == last);
                lemma_hit_t_in_range(last, r, tmin, b);
            }
        }
        if scan(s, r, tmin, tmax) is Some {
            if sphere_hit(last, r, tmin, b) is Some {
                assert(sphere_hit(s[s.len() - 1], r, tmin, tmax) == scan(s, r, tmin, tmax));
            } else {
                let j = choose|j: int|
                    0 <= j < p.len() && #[trigger] sphere_hit(p[j], r, tmin, tmax) == prev;
                assert(s[j] == p[j]);
                assert(sphere_hit(s[j], r, tmin, tmax) == scan(s, r, tmin, tmax));
            }
        }
        if scan(s, r, tmin, tmax) is None {
            assert forall|j: int| 0 <= j < s.len() implies (#[trigger] sphere_hit(
                s[j],
                r,
                tmin,
                tmax,
            )) is None by {
                if j < s.len() - 1 {
                    assert(s[j] == p[j]);
                }
            }
        }
    }
}

/// The parameter of a hit lies strictly inside the searched range.
proof fn lemma_hit_t_in_range(s: Sphere, r: Ray, tmin: i64, tmax: i64)
    ensures
        sphere_hit(s, r, tmin, tmax) is Some ==> tmin < sphere_hit(s, r, tmin, tmax)->0.t
            < tmax,
{
    if sphere_hit(s, r, tmin, tmax) is Some {
        let num = if tmin < near_root(s, r) < tmax {
            near_num(s, r)
        } else {
            far_num(s, r)
        };
        let t = root_param(r, num);
        assert(sphere_hit(s, r, tmin, tmax) == Some(record(s, r, num)));
        assert(tmin < t < tmax);
    }
}

/// The bound after a scan is at most `tmax`.
proof fn lemma_scan_bound(s: Seq<Sphere>, r: Ray, tmin: i64, tmax: i64)
    ensures
        bound_of(scan(s, r, tmin, tmax), tmax) <= tmax,
        scan(s, r, tmin, tmax) is Some ==> tmin < scan(s, r, tmin, tmax)->0.t,
    decreases s.len(),
{
    if s.len() > 0 {
        let p = s.drop_last();
        lemma_scan_bound(p, r, tmin, tmax);
        lemma_hit_t_in_range(s.last(), r, tmin, bound_of(scan(p, r, tmin, tmax), tmax));
    }
}

/// A hit of a sphere in the box is a well-formed record of the sphere's
/// material, and the ray that made it has a direction.
pub proof fn lemma_hit_wf(s: Sphere, r: Ray, tmin: i64, tmax: i64)
    requires
        s.wf(),
        ray_in_world(r),
        sphere_hit(s, r, tmin, tmax) is Some,
    ensures
        sphere_hit(s, r, tmin, tmax)->0.wf(),
        sphere_hit(s, r, tmin, tmax)->0.mat == s.mat,
        sum_sq(r.dir@) > 0,
{
    lemma_direction_nonzero(s, r);
    let num = if tmin < near_root(s, r) < tmax {
        near_num(s, r)
    } else {
        far_num(s, r)
    };
    let t = root_param(r, num);
    assert(sphere_hit(s, r, tmin, tmax) == Some(record(s, r, num)));
    lemma_point_on_sphere(s, r, num);
    let n = outward(s, r, num);
    assert(facing(r.dir@, n).within(2 * SCALE));
}

/// The nearest hit in a list of spheres in the box is a well-formed record,
/// and the ray that made it has a direction.
pub proof fn lemma_scan_wf(s: Seq<Sphere>, r: Ray, tmin: i64, tmax: i64)
    requires
        forall|i: int| 0 <= i < s.len() ==> #[trigger] s[i].wf(),
        ray_in_world(r),
        scan(s, r, tmin, tmax) is Some,
    ensures
        scan(s, r, tmin, tmax)->0.wf(),
        sum_sq(r.dir@) > 0,
{
    lemma_nearest_hit(s, r, tmin, tmax);
    let j = choose|j: int|
        0 <= j < s.len() && #[trigger] sphere_hit(s[j], r, tmin, tmax) == scan(s, r, tmin, tmax);
    lemma_hit_wf(s[j], r, tmin, tmax);
}

/// The point at either root lies on the sphere up to rounding down: each
/// component of `p - center` is within the radius. So the point lies in the
/// scene's box and the outward normal within one of the origin.
pub proof fn lemma_point_on_sphere(s: Sphere, r: Ray, num: int)
    requires
        s.wf(),
        ray_in_world(r),
        discriminant(s, r) > 0,
        num == near_num(s, r) || num == far_num(s, r),
    ensures
        quad_a(r) > 0,
        -15 * (WORLD * WORLD) <= num <= 15 * (WORLD * WORLD),
        vsub(hit_point(s, r, num), s.ct@).within(s.rad as int),
        in_world(hit_point(s, r, num)),
        outward(s, r, num).within(SCALE as int),
{
    let w = WORLD as int;
    lemma_quad_bounds(s, r);
    lemma_direction_nonzero(s, r);
    let a = quad_a(r);
    let h = quad_h(s, r);
    let cc = quad_c(s, r);
    let disc = discriminant(s, r);
    crate::fixed::lemma_sqrt_floor(disc);
    let sq = sqrt_floor(disc);
    assert(sq <= 9 * (w * w)) by (nonlinear_arith)
        requires
            sq * sq <= disc,
            disc <= 81 * (w * w) * (w * w),
            sq >= 0,
    ;
    let o = offset(s, r);
    let d = r.dir@;
    let rr = s.rad as int;
    let o2 = sum_sq(o);
    assert((num + h) * (num + h) == sq * sq) by (nonlinear_arith)
        requires
            num == -h - sq || num == -h + sq,
    ;
    let qx = a * o.x + num * d.x;
    let qy = a * o.y + num * d.y;
    let qz = a * o.z + num * d.z;
    let a2 = a * a;
    let b = 2 * a * num;
    let c2 = num * num;
    lemma_square_expand(a, o.x, num, d.x);
    lemma_square_expand(a, o.y, num, d.y);
    lemma_square_expand(a, o.z, num, d.z);
    assert(h == o.x * d.x + o.y * d.y + o.z * d.z) by (nonlinear_arith)
        requires
            h == d.x * o.x + d.y * o.y + d.z * o.z,
    ;
    let total = qx * qx + qy * qy + qz * qz;
    lemma_sum_of_three(a2, b, c2, o.x * o.x, o.y * o.y, o.z * o.z, o.x * d.x, o.y * d.y, o.z * d.z, d.x * d.x, d.y * d.y, d.z * d.z);
    assert(total == a2 * o2 + b * h + c2 * a);
    // a |oc|^2 + 2 num h + num^2 = a r^2 + sq^2 - disc <= a r^2
    assert(a * cc == a * o2 - a * (rr * rr)) by (nonlinear_arith)
        requires
            cc == o2 - rr * rr,
    ;
    assert((num + h) * (num + h) == num * num + 2 * (num * h) + h * h) by (nonlinear_arith);
    let inner = a * (rr * rr) + sq * sq - disc;
    assert(inner == num * num + 2 * (num * h) + a * o2);
    vstd::arithmetic::mul::lemma_mul_is_distributive_add(a, num * num + 2 * (num * h), a * o2);
    vstd::arithmetic::mul::lemma_mul_is_distributive_add(a, num * num, 2 * (num * h));
    assert(a * (num * num) == c2 * a) by (nonlinear_arith)
        requires
            c2 == num * num,
    ;
    assert(a * (2 * (num * h)) == b * h) by (nonlinear_arith)
        requires
            b == 2 * a * num,
    ;
    assert(a * (a * o2) == a2 * o2) by (nonlinear_arith)
        requires
            a2 == a * a,
    ;
    assert(total == a * inner);
    assert(total <= (a * rr) * (a * rr)) by (nonlinear_arith)
        requires
            total == a * (a * (rr * rr) + sq * sq - disc),
            sq * sq <= disc,
            a > 0,
    ;
    assert(qx * qx >= 0 && qy * qy >= 0 && qz * qz >= 0) by (nonlinear_arith);
    assert((a * rr) * (a * rr) < (a * rr + 1) * (a * rr + 1)) by (nonlinear_arith)
        requires
            a > 0,
            rr > 0,
    ;
    assert(a * rr >= 0) by (nonlinear_arith)
        requires
            a > 0,
            rr > 0,
    ;
    crate::vec3::lemma_sq_lt(qx, a * rr);
    crate::vec3::lemma_sq_lt(qy, a * rr);
    crate::vec3::lemma_sq_lt(qz, a * rr);
    assert(a * rr == rr * a) by (nonlinear_arith);
    crate::fixed::lemma_div_bound(qx, a, rr);
    crate::fixed::lemma_div_bound(qy, a, rr);
    crate::fixed::lemma_div_bound(qz, a, rr);
    let e = vsub(hit_point(s, r, num), s.ct@);
    assert(e == vector(qx / a, qy / a, qz / a));
    let sc = SCALE as int;
    assert(-(sc * rr) <= e.x * sc <= sc * rr && -(sc * rr) <= e.y * sc <= sc * rr && -(sc
        * rr) <= e.z * sc <= sc * rr) by (nonlinear_arith)
        requires
            e.within(rr),
            sc > 0,
    ;
    crate::fixed::lemma_div_bound(e.x * sc, rr, sc);
    crate::fixed::lemma_div_bound(e.y * sc, rr, sc);
    crate::fixed::lemma_div_bound(e.z * sc, rr, sc);
}

/// `(a o + n d)^2 = a^2 o^2 + 2 a n (o d) + n^2 d^2`.
proof fn lemma_square_expand(a: int, o: int, n: int, d: int)
    ensures
        (a * o + n * d) * (a * o + n * d) == (a * a) * (o * o) + (2 * a * n) * (o * d) + (n
            * n) * (d * d),
{
    let x = a * o;
    let y = n * d;
    assert((x + y) * (x + y) == x * x + 2 * (x * y) + y * y) by (nonlinear_arith);
    assert(x * x == (a * a) * (o * o)) by (nonlinear_arith)
        requires
            x == a * o,
    ;
    assert(x * y == (a * n) * (o * d)) by (nonlinear_arith)
        requires
            x == a * o,
            y == n * d,
    ;
    assert(y * y == (n * n) * (d * d)) by (nonlinear_arith)
        requires
            y == n * d,
    ;
    assert(2 * ((a * n) * (o * d)) == (2 * a * n) * (o * d)) by (nonlinear_arith);
}

/// Collecting three sums of three products.
proof fn lemma_sum_of_three(
    p: int,
    q: int,
    r: int,
    x1: int,
    x2: int,
    x3: int,
    y1: int,
    y2: int,
    y3: int,
    z1: int,
    z2: int,
    z3: int,
)
    ensures
        (p * x1 + q * y1 + r * z1) + (p * x2 + q * y2 + r * z2) + (p * x3 + q * y3 + r * z3) == p
            * (x1 + x2 + x3) + q * (y1 + y2 + y3) + r * (z1 + z2 + z3),
{
    vstd::arithmetic::mul::lemma_mul_is_distributive_add(p, x1, x2);
    vstd::arithmetic::mul::lemma_mul_is_distributive_add(p, x1 + x2, x3);
    vstd::arithmetic::mul::lemma_mul_is_distributive_add(q, y1, y2);
    vstd::arithmetic::mul::lemma_mul_is_distributive_add(q, y1 + y2, y3);
    vstd::arithmetic::mul::lemma_mul_is_distributive_add(r, z1, z2);
    vstd::arithmetic::mul::lemma_mul_is_distributive_add(r, z1 + z2, z3);
}

} // verus!
