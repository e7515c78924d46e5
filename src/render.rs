//! The recursive tracer and the conversion of colors to pixel values.
use vstd::prelude::*;

use crate::fixed::{clamp, div_floor, fits, fx_mul, fx_sqrt, mul_fx, sqrt_fx, LIMIT, SCALE};
use crate::material::{is_color, scatter_spec, Sample};
use crate::ray::Ray;
use crate::shapes::{lemma_scan_wf, ray_in_world, scan, Hitlist, Sphere};
use crate::vec3::{sum_sq, velemul, vunit, vector, Color, Vec3, Vector};

verus! {

/// The lower end of the parameter range searched for hits, about 0.001: a
/// scattered ray must not meet the surface it leaves.
pub const T_MIN: i64 = 66;

/// The upper end of the parameter range searched for hits.
pub const INF: i64 = 0x7fff_ffff_ffff_ffff;

/// The green channel of the sky's blue, `0.7`.
pub const SKY_GREEN: i64 = 45875;

/// How far up the direction points, from 0 (straight down) to 1 (straight
/// up); a ray without direction counts as level.
pub open spec fn sky_blend(dir: Vector) -> int {
    if sum_sq(dir) > 0 {
        (vunit(dir).y + SCALE) / 2
    } else {
        SCALE / 2
    }
}

/// The sky seen along `dir`: white blended with blue `(0.5, 0.7, 1)` by how far
/// up the direction points.
pub open spec fn sky(dir: Vector) -> Vector {
    let t = sky_blend(dir);
    let w = fx_mul(SCALE as int, SCALE - t);
    vector(w + fx_mul(SCALE / 2, t), w + fx_mul(SKY_GREEN as int, t), w + fx_mul(SCALE as int, t))
}

/// The product of two values of `[0, 1]` lies in `[0, 1]`.
proof fn lemma_unit_product(a: int, b: int)
    requires
        0 <= a <= SCALE,
        0 <= b <= SCALE,
    ensures
        0 <= fx_mul(a, b) <= SCALE,
{
    crate::vec3::lemma_fx_mul_within(a, b, SCALE as int, SCALE as int, SCALE as int);
    assert(a * b >= 0) by (nonlinear_arith)
        requires
            a >= 0,
            b >= 0,
    ;
    vstd::arithmetic::div_mod::lemma_div_pos_is_pos(a * b, SCALE as int);
}

/// The background color for a ray that meets nothing.
pub fn background(dir: Vec3) -> (c: Color)
    requires
        dir.wf(),
    ensures
        c@ == sky(dir@),
        is_color(c),
{
    let t = if dir.sum_sq() > 0 {
        let u = dir.unit();
        div_floor((u.y + SCALE) as i128, 2) as i64
    } else {
        SCALE / 2
    };
    proof {
        lemma_unit_product(SCALE as int, SCALE - t);
        lemma_unit_product(SCALE / 2, t as int);
        lemma_unit_product(SKY_GREEN as int, t as int);
        lemma_unit_product(SCALE as int, t as int);
        let a = fx_mul(SCALE as int, SCALE - t);
        assert(a == SCALE - t) by {
            vstd::arithmetic::div_mod::lemma_div_by_multiple(SCALE - t, SCALE as int);
            assert(SCALE * (SCALE - t) == (SCALE - t) * SCALE) by (nonlinear_arith);
        }
        assert(fx_mul(SCALE as int, t as int) == t) by {
            vstd::arithmetic::div_mod::lemma_div_by_multiple(t as int, SCALE as int);
            assert(SCALE * t == t * SCALE) by (nonlinear_arith);
        }
        assert(fx_mul(SCALE / 2, t as int) <= t) by {
            crate::fixed::lemma_div_bound((SCALE / 2) * t, SCALE as int, t as int);
            assert(-(t * SCALE) <= (SCALE / 2) * t <= t * SCALE) by (nonlinear_arith)
                requires
                    0 <= t,
            ;
        }
        assert(fx_mul(SKY_GREEN as int, t as int) <= t) by {
            crate::fixed::lemma_div_bound(SKY_GREEN * t, SCALE as int, t as int);
            assert(-(t * SCALE) <= SKY_GREEN * t <= t * SCALE) by (nonlinear_arith)
                requires
                    0 <= t,
            ;
        }
    }
    let w = mul_fx(SCALE, SCALE - t);
    Vec3::new(w + mul_fx(SCALE / 2, t), w + mul_fx(SKY_GREEN, t), w + mul_fx(SCALE, t))
}

/// A surface never brightens light: what comes back from a scattering event
/// is, in each channel, at most the surface's attenuation.
pub proof fn lemma_shade_darker(att: Color, rest: Color)
    requires
        is_color(att),
        is_color(rest),
    ensures
        ({
            let c = velemul(att@, rest@);
            &&& 0 <= c.x <= att.x
            &&& 0 <= c.y <= att.y
            &&& 0 <= c.z <= att.z
        }),
{
    lemma_channel_darker(att.x as int, rest.x as int);
    lemma_channel_darker(att.y as int, rest.y as int);
    lemma_channel_darker(att.z as int, rest.z as int);
}

/// `0 <= a * b <= a` for `a, b` in `[0, 1]`.
proof fn lemma_channel_darker(a: int, b: int)
    requires
        0 <= a <= SCALE,
        0 <= b <= SCALE,
    ensures
        0 <= fx_mul(a, b) <= a,
{
    lemma_unit_product(a, b);
    assert(-(a * SCALE) <= a * b <= a * SCALE) by (nonlinear_arith)
        requires
            0 <= a,
            0 <= b <= SCALE,
    ;
    crate::fixed::lemma_div_bound(a * b, SCALE as int, a);
}

/// The color that tracing `r` through the spheres `shapes` brings back, with
/// at most `depth` scattering events and `draws[i]` the random draws of the
/// `i`-th event: black when the depth is spent; the sky when the ray meets
/// nothing; otherwise black when the surface at the nearest hit absorbs the
/// ray, or the attenuation times the color traced along the scattered ray with
/// one event less and the remaining draws.
pub open spec fn trace_spec(shapes: Seq<Sphere>, r: Ray, depth: int, draws: Seq<Sample>) -> Vector
    decreases depth,
{
    if depth <= 0 {
        vector(0, 0, 0)
    } else {
        match scan(shapes, r, T_MIN, INF) {
            None => sky(r.dir@),
            Some(rec) => match scatter_spec(rec.mat, r, rec, draws[0]) {
                None => vector(0, 0, 0),
                Some((att, out)) => velemul(att@, trace_spec(shapes, out, depth - 1, draws.drop_first())),
            },
        }
    }
}

/// One valid draw for each of `depth` scattering events.
pub open spec fn draws_ok(draws: Seq<Sample>, depth: int) -> bool {
    &&& draws.len() == (if depth > 0 { depth } else { 0 })
    &&& forall|i: int| 0 <= i < draws.len() ==> (#[trigger] draws[i]).wf()
}

/// A valid draw: straight up, the center, and zero.
pub open spec fn plain_draw() -> Sample {
    Sample { unit: Vec3 { x: 0, y: 0, z: SCALE }, ball: Vec3 { x: 0, y: 0, z: 0 }, coin: 0 }
}

proof fn lemma_plain_draw_wf()
    ensures
        plain_draw().wf(),
{
    let z = vector(0, 0, 0);
    assert(sum_sq(z) == 0) by (nonlinear_arith)
        requires
            z == vector(0, 0, 0),
    ;
    assert(crate::sampling::in_unit_ball(z));
    assert(plain_draw().unit@ == crate::sampling::unit_or_up_spec(z));
}

/// The color that the ray `r` brings back from the scene, following at most
/// `depth` scattering events. A ray that meets nothing sees the sky; one that
/// runs out of depth, or is absorbed, is black; one that is scattered brings
/// back the color of the scattered ray, traced with one event less and
/// attenuated by the surface.
pub fn ray_color(r: Ray, list: &Hitlist, depth: i32) -> (c: Color)
    requires
        list.wf(),
        ray_in_world(r),
    ensures
        is_color(c),
        exists|draws: Seq<Sample>|
            draws_ok(draws, depth as int) && c@ == trace_spec(list.shapes@, r, depth as int, draws),
    decreases depth,
{
    if depth <= 0 {
        let c = Vec3::new(0, 0, 0);
        assert(draws_ok(Seq::<Sample>::empty(), depth as int));
        assert(c@ == trace_spec(list.shapes@, r, depth as int, Seq::<Sample>::empty()));
        return c;
    }
    match list.hit(r, T_MIN, INF) {
        Some(rec) => {
            proof {
                lemma_scan_wf(list.shapes@, r, T_MIN, INF);
            }
            let smp = Sample::draw();
            match rec.mat.scatter_with(r, rec, smp) {
                Some((att, scat)) => {
                    let rest = ray_color(scat, list, depth - 1);
                    proof {
                        lemma_unit_product(att.x as int, rest.x as int);
                        lemma_unit_product(att.y as int, rest.y as int);
                        lemma_unit_product(att.z as int, rest.z as int);
                    }
                    let c = Vec3::elemul(att, rest);
                    proof {
                        let dm1 = (depth - 1) as int;
                        let tail = choose|d: Seq<Sample>|
                            #![trigger trace_spec(list.shapes@, scat, dm1, d)]
                            draws_ok(d, dm1) && rest@ == trace_spec(list.shapes@, scat, dm1, d);
                        let draws = seq![smp].add(tail);
                        assert(draws[0] == smp);
                        assert(draws.drop_first() =~= tail);
                        assert forall|i: int| 0 <= i < draws.len() implies (#[trigger] draws[i]).wf() by {
                            if i > 0 {
                                assert(draws[i] == tail[i - 1]);
                            }
                        }
                        assert(draws_ok(draws, depth as int));
                        assert(c@ == trace_spec(list.shapes@, r, depth as int, draws));
                    }
                    c
                },
                None => {
                    let c = Vec3::new(0, 0, 0);
                    proof {
                        lemma_plain_draw_wf();
                        let draws = Seq::new(depth as nat, |i: int| plain_draw()).update(0, smp);
                        assert(draws[0] == smp);
                        assert forall|i: int| 0 <= i < draws.len() implies (#[trigger] draws[i]).wf() by {
                            if i > 0 {
                                assert(draws[i] == plain_draw());
                            }
                        }
                        assert(draws_ok(draws, depth as int));
                        assert(c@ == trace_spec(list.shapes@, r, depth as int, draws));
                    }
                    c
                },
            }
        },
        None => {
            let c = background(r.dir);
            proof {
                lemma_plain_draw_wf();
                let draws = Seq::new(depth as nat, |i: int| plain_draw());
                assert(draws_ok(draws, depth as int));
                assert(c@ == trace_spec(list.shapes@, r, depth as int, draws));
            }
            c
        },
    }
}

/// Zero or more: the largest of `v` and zero.
pub open spec fn nonneg(v: int) -> int {
    if v >= 0 {
        v
    } else {
        0
    }
}

/// The largest channel value below one, `0.999`.
pub const CHANNEL_MAX: i64 = 65470;

/// One channel of a pixel: the sum of `samples` values averaged, corrected
/// with gamma 2 (a square root), held in `[0, 0.999]` and scaled to `0..=255`.
pub open spec fn channel_byte(sum: int, samples: int) -> int {
    let v = fx_sqrt(nonneg(sum / samples));
    let c = if v > CHANNEL_MAX {
        CHANNEL_MAX as int
    } else {
        v
    };
    (256 * c) / (SCALE as int)
}

/// One channel of a pixel, from the sum of its samples.
pub fn channel(sum: i64, samples: i32) -> (r: i64)
    requires
        fits(sum as int),
        samples > 0,
    ensures
        r == channel_byte(sum as int, samples as int),
        0 <= r <= 255,
{
    proof {
        assert(-(LIMIT * samples) <= sum <= LIMIT * samples) by (nonlinear_arith)
            requires
                fits(sum as int),
                samples >= 1,
        ;
        crate::fixed::lemma_div_bound(sum as int, samples as int, LIMIT as int);
    }
    let avg = div_floor(sum as i128, samples as i128) as i64;
    let v = sqrt_fx(
        if avg >= 0 {
            avg
        } else {
            0
        },
    );
    let c = clamp(v, 0, CHANNEL_MAX);
    proof {
        let q = (256 * c) / (SCALE as int);
        vstd::arithmetic::div_mod::lemma_fundamental_div_mod(256 * c, SCALE as int);
        vstd::arithmetic::div_mod::lemma_div_pos_is_pos(256 * c, SCALE as int);
        assert(q <= 255) by (nonlinear_arith)
            requires
                256 * c == SCALE * q + (256 * c) % (SCALE as int),
                (256 * c) % (SCALE as int) >= 0,
                c <= CHANNEL_MAX,
        ;
    }
    div_floor((256 * c) as i128, SCALE as i128) as i64
}

/// The three channels of a pixel whose samples add up to `color`.
pub fn color_bytes(color: Color, samples: i32) -> (r: (i64, i64, i64))
    requires
        color.wf(),
        samples > 0,
    ensures
        r.0 == channel_byte(color.x as int, samples as int),
        r.1 == channel_byte(color.y as int, samples as int),
        r.2 == channel_byte(color.z as int, samples as int),
{
    (channel(color.x, samples), channel(color.y, samples), channel(color.z, samples))
}

} // verus!
