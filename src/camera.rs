//! The camera: turns points of the image plane into rays.
use vstd::prelude::*;

use crate::fixed::{fits, fx_div, fx_mul, LIMIT, SCALE};
use crate::ray::Ray;
use crate::sampling::{in_unit_ball, rand_in_unit_disk};
use crate::shapes::{ray_in_world, to_vec3};
use crate::vec3::{
    lemma_vcross_within, lemma_vhalf_within, lemma_vscale_within, sum_sq,
    vadd, vcross, vdiv, vscale, vsub, vunit, Vec3, Vector,
};

verus! {

/// The bound on the look-from and look-at points, `2^24` units of `1 / SCALE`.
pub const EYE_BOUND: i64 = 0x100_0000;

/// The bound on the lower left corner of the viewport.
pub const CORNER_BOUND: i64 = 0x800_0000;

/// A camera: a lens at `origin`, an orthonormal basis `cu`, `cv`, `cw`, and a
/// viewport spanned by `horizontal` and `vertical` from `lower_left_corner`.
#[derive(Clone, Copy, Debug, PartialEq, Eq, Structural)]
pub struct Camera {
    pub origin: Vec3,
    pub lower_left_corner: Vec3,
    pub horizontal: Vec3,
    pub vertical: Vec3,
    pub cu: Vec3,
    pub cv: Vec3,
    pub cw: Vec3,
    pub lens_radius: i64,
}

/// `cw`: the unit vector pointing back from `lookat` to `lookfrom`.
pub open spec fn axis_w(lookfrom: Vector, lookat: Vector) -> Vector {
    vunit(vsub(lookfrom, lookat))
}

/// The cross product of `vup` and `cw`, of which `cu` is the unit vector.
pub open spec fn side(lookfrom: Vector, lookat: Vector, vup: Vector) -> Vector {
    vcross(vup, axis_w(lookfrom, lookat))
}

/// The camera with the given position and aim, `h` being the tangent of half
/// the vertical field of view.
pub open spec fn camera_spec(
    lookfrom: Vector,
    lookat: Vector,
    vup: Vector,
    h: int,
    aspect_ratio: int,
    aperture: int,
    focus_dist: int,
) -> Camera {
    let viewport_height = 2 * h;
    let viewport_width = fx_mul(aspect_ratio, viewport_height);
    let w = axis_w(lookfrom, lookat);
    let u = vunit(side(lookfrom, lookat, vup));
    let v = vcross(w, u);
    let hor = vscale(vscale(u, focus_dist), viewport_width);
    let ver = vscale(vscale(v, focus_dist), viewport_height);
    let low = vsub(
        vsub(vsub(lookfrom, vdiv(hor, 2 * SCALE)), vdiv(ver, 2 * SCALE)),
        vscale(w, focus_dist),
    );
    Camera {
        origin: to_vec3(lookfrom),
        lower_left_corner: to_vec3(low),
        horizontal: to_vec3(hor),
        vertical: to_vec3(ver),
        cu: to_vec3(u),
        cv: to_vec3(v),
        cw: to_vec3(w),
        lens_radius: fx_div(aperture, 2 * SCALE) as i64,
    }
}

/// The ray through the point `(s, t)` of the viewport, leaving the lens at
/// the point `disk` of the unit disk scaled to the lens.
pub open spec fn ray_through(c: Camera, s: int, t: int, disk: Vector) -> Ray {
    let rd = vscale(disk, c.lens_radius as int);
    let offset = vadd(vscale(c.cu@, rd.x), vscale(c.cv@, rd.y));
    Ray {
        org: to_vec3(vadd(c.origin@, offset)),
        dir: to_vec3(
            vsub(
                vsub(
                    vadd(vadd(c.lower_left_corner@, vscale(c.horizontal@, s)), vscale(c.vertical@, t)),
                    c.origin@,
                ),
                offset,
            ),
        ),
    }
}

impl Camera {
    /// The bounds that keep every ray of the camera in the scene's box.
    pub open spec fn wf(&self) -> bool {
        &&& self.origin@.within(EYE_BOUND as int)
        &&& self.lower_left_corner@.within(CORNER_BOUND as int)
        &&& self.horizontal@.within(512 * SCALE)
        &&& self.vertical@.within(512 * SCALE)
        &&& self.cu@.within(SCALE as int)
        &&& self.cv@.within(2 * SCALE)
        &&& self.cw@.within(SCALE as int)
        &&& 0 <= self.lens_radius <= 2 * SCALE
    }

    /// A camera at `lookfrom` looking at `lookat`, with `vup` pointing up,
    /// `h` the tangent of half the vertical field of view, the width of the
    /// image over its height, the lens's diameter and the distance in focus.
    /// The viewport in focus, `focus_dist` times `2 h` high and times the
    /// aspect ratio more wide, must fit in the scene's box (at most 512 by 512).
    pub fn new(
        lookfrom: Vec3,
        lookat: Vec3,
        vup: Vec3,
        h: i64,
        aspect_ratio: i64,
        aperture: i64,
        focus_dist: i64,
    ) -> (r: Self)
        requires
            lookfrom@.within(EYE_BOUND as int),
            lookat@.within(EYE_BOUND as int),
            vup@.within(LIMIT / 2),
            sum_sq(vsub(lookfrom@, lookat@)) > 0,
            sum_sq(side(lookfrom@, lookat@, vup@)) > 0,
            0 < h <= LIMIT / 2,
            0 < aspect_ratio <= LIMIT,
            fits(fx_mul(aspect_ratio as int, 2 * h)),
            0 <= aperture <= 4 * SCALE,
            0 < focus_dist <= 512 * SCALE,
            focus_dist * fx_mul(aspect_ratio as int, 2 * h) <= 512 * SCALE * SCALE,
            focus_dist * (2 * h) <= 256 * SCALE * SCALE,
        ensures
            r == camera_spec(
                lookfrom@,
                lookat@,
                vup@,
                h as int,
                aspect_ratio as int,
                aperture as int,
                focus_dist as int,
            ),
            r.wf(),
    {
        let ghost s = SCALE as int;
        let viewport_height = 2 * h;
        proof {
            vstd::arithmetic::div_mod::lemma_div_pos_is_pos(aspect_ratio * viewport_height, s);
            assert(aspect_ratio * viewport_height >= 0) by (nonlinear_arith)
                requires
                    aspect_ratio > 0,
                    viewport_height > 0,
            ;
        }
        let viewport_width = crate::fixed::mul_fx(aspect_ratio, viewport_height);
        let w = lookfrom.sub(lookat).unit();
        proof {
            assert(2 * ((LIMIT / 2) * s) <= LIMIT * SCALE) by (nonlinear_arith)
                requires
                    s == SCALE,
            ;
            lemma_vcross_within(vup@, w@, LIMIT / 2, s, LIMIT as int);
        }
        let u = Vec3::cross(vup, w).unit();
        proof {
            lemma_vcross_within(w@, u@, s, s, 2 * s);
        }
        let v = Vec3::cross(w, u);
        proof {
            let f = focus_dist as int;
            let vw = viewport_width as int;
            let vh = viewport_height as int;
            assert(s * f <= f * SCALE && (2 * s) * f <= (2 * f) * SCALE) by (nonlinear_arith)
                requires
                    s == SCALE,
            ;
            assert(f * vw <= (512 * s) * SCALE && (2 * f) * vh <= (512 * s) * SCALE)
                by (nonlinear_arith)
                requires
                    s == SCALE,
                    f * vw <= 512 * SCALE * SCALE,
                    f * vh <= 256 * SCALE * SCALE,
            ;
            lemma_vscale_within(u@, f, s, f, f);
            lemma_vscale_within(vscale(u@, f), vw, f, vw, 512 * s);
            lemma_vscale_within(v@, f, 2 * s, f, 2 * f);
            lemma_vscale_within(vscale(v@, f), vh, 2 * f, vh, 512 * s);
            lemma_vscale_within(w@, f, s, f, f);
        }
        let hor = u.scale(focus_dist).scale(viewport_width);
        let ver = v.scale(focus_dist).scale(viewport_height);
        proof {
            lemma_vhalf_within(hor@, 512 * s);
            lemma_vhalf_within(ver@, 512 * s);
        }
        let low = lookfrom.sub(hor.div(2 * SCALE)).sub(ver.div(2 * SCALE)).sub(w.scale(focus_dist));
        proof {
            crate::fixed::lemma_div_bound(aperture * s, 2 * s, 2 * s);
            vstd::arithmetic::div_mod::lemma_div_pos_is_pos(aperture * s, 2 * s);
        }
        let len = crate::fixed::div_fx(aperture, 2 * SCALE);
        Camera {
            origin: lookfrom,
            horizontal: hor,
            vertical: ver,
            lower_left_corner: low,
            cu: u,
            cv: v,
            cw: w,
            lens_radius: len,
        }
    }

    /// The ray through the point `(s, t)` of the viewport (`0 <= s, t <= 1`)
    /// that leaves the lens at the point `disk` of the unit disk.
    pub fn get_ray_with(&self, s: i64, t: i64, disk: Vec3) -> (r: Ray)
        requires
            self.wf(),
            0 <= s <= SCALE,
            0 <= t <= SCALE,
            in_unit_ball(disk@),
        ensures
            r == ray_through(*self, s as int, t as int, disk@),
            ray_in_world(r),
    {
        let ghost sc = SCALE as int;
        proof {
            lemma_vscale_within(disk@, self.lens_radius as int, sc, 2 * sc, 2 * sc);
        }
        let rd = disk.scale(self.lens_radius);
        proof {
            lemma_vscale_within(self.cu@, rd.x as int, sc, 2 * sc, 2 * sc);
            assert((2 * sc) * (2 * sc) <= (4 * sc) * SCALE) by (nonlinear_arith)
                requires
                    sc == 65536,
            ;
            lemma_vscale_within(self.cv@, rd.y as int, 2 * sc, 2 * sc, 4 * sc);
            lemma_vscale_within(self.horizontal@, s as int, 512 * sc, sc, 512 * sc);
            lemma_vscale_within(self.vertical@, t as int, 512 * sc, sc, 512 * sc);
        }
        let offset = self.cu.scale(rd.x()).add(self.cv.scale(rd.y()));
        let org = self.origin.add(offset);
        let dir = self.lower_left_corner.add(self.horizontal.scale(s)).add(
            self.vertical.scale(t),
        ).sub(self.origin).sub(offset);
        Ray::new(org, dir)
    }

    /// The ray through the point `(s, t)` of the viewport (`0 <= s, t <= 1`),
    /// leaving the lens at a random point.
    pub fn get_ray(&self, s: i64, t: i64) -> (r: Ray)
        requires
            self.wf(),
            0 <= s <= SCALE,
            0 <= t <= SCALE,
        ensures
            exists|disk: Vector| in_unit_ball(disk) && r == ray_through(*self, s as int, t as int, disk),
            ray_in_world(r),
    {
        let disk = rand_in_unit_disk();
        self.get_ray_with(s, t, disk)
    }
}

} // verus!
