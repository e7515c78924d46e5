//! Random numbers and random points, drawn from the thread's generator.
use vstd::prelude::*;

use crate::fixed::{SCALE, SCALE_SQ};
use crate::vec3::lemma_sq_lt;
use crate::vec3::{dot_exact, sum_sq, vector, vneg, vunit, Vec3, Vector};

verus! {

/// Relies on `rand::Rng::gen_range` over `rand::thread_rng()`: for `low < high`
/// it returns an integer of `[low, high)` (it panics on an empty range).
#[verifier::external_body]
fn gen_between(low: i64, high: i64) -> (r: i64)
    requires
        low < high,
    ensures
        low <= r < high,
{
    rand::Rng::gen_range(&mut rand::thread_rng(), low..high)
}

/// How many candidates a rejection sampler draws before it settles for the
/// center of its region.
pub const MAX_TRIES: u32 = 64;

/// A uniformly random fixed-point value of `[low, high)`.
pub fn randf(low: i64, high: i64) -> (r: i64)
    requires
        low < high,
    ensures
        low <= r < high,
{
    gen_between(low, high)
}

/// A random vector with components in `[0, 1)`.
pub fn randv() -> (r: Vec3)
    ensures
        0 <= r.x < SCALE,
        0 <= r.y < SCALE,
        0 <= r.z < SCALE,
{
    Vec3::new(randf(0, SCALE), randf(0, SCALE), randf(0, SCALE))
}

/// A random vector with components in `[x_min, x_max)`.
pub fn randvr(x_min: i64, x_max: i64) -> (r: Vec3)
    requires
        x_min < x_max,
    ensures
        x_min <= r.x < x_max,
        x_min <= r.y < x_max,
        x_min <= r.z < x_max,
{
    Vec3::new(randf(x_min, x_max), randf(x_min, x_max), randf(x_min, x_max))
}

/// Inside the unit ball: squared length below one.
pub open spec fn in_unit_ball(v: Vector) -> bool {
    sum_sq(v) < SCALE * SCALE && v.within(SCALE as int)
}

/// A squared length below one keeps every component within one.
proof fn lemma_inside_ball(v: Vector)
    requires
        sum_sq(v) < SCALE * SCALE,
    ensures
        in_unit_ball(v),
{
    assert(v.x * v.x >= 0 && v.y * v.y >= 0 && v.z * v.z >= 0) by (nonlinear_arith);
    lemma_sq_lt(v.x, SCALE - 1);
    lemma_sq_lt(v.y, SCALE - 1);
    lemma_sq_lt(v.z, SCALE - 1);
}

/// The first of the candidates `c` that lies strictly inside the unit ball;
/// the center when none does.
pub open spec fn first_in_ball(c: Seq<Vec3>) -> Vector
    decreases c.len(),
{
    if c.len() == 0 {
        vector(0, 0, 0)
    } else if sum_sq(c[0]@) < SCALE * SCALE {
        c[0]@
    } else {
        first_in_ball(c.drop_first())
    }
}

/// The candidates are points of the cube `[-1, 1]^3`.
pub open spec fn in_cube(c: Seq<Vec3>) -> bool {
    forall|i: int| 0 <= i < c.len() ==> (#[trigger] c[i])@.within(SCALE as int)
}

/// The first candidate strictly inside the unit ball, or the center.
pub fn first_inside(c: &Vec<Vec3>) -> (r: Vec3)
    requires
        in_cube(c@),
    ensures
        r@ == first_in_ball(c@),
        in_unit_ball(r@),
{
    let mut i: usize = 0;
    assert(c@.subrange(0, c@.len() as int) =~= c@);
    while i < c.len()
        invariant
            0 <= i <= c@.len(),
            in_cube(c@),
            first_in_ball(c@) == first_in_ball(c@.subrange(i as int, c@.len() as int)),
        decreases c@.len() - i,
    {
        let ghost rest = c@.subrange(i as int, c@.len() as int);
        assert(rest[0] == c@[i as int]);
        assert(rest.drop_first() =~= c@.subrange(i + 1, c@.len() as int));
        if c[i].sum_sq() < SCALE_SQ {
            proof {
                lemma_inside_ball(c@[i as int]@);
            }
            return c[i];
        }
        i = i + 1;
    }
    assert(c@.subrange(i as int, c@.len() as int).len() == 0);
    let z = Vec3::zero();
    assert(sum_sq(z@) == 0) by {
        assert(z@ == vector(0, 0, 0));
        assert(sum_sq(vector(0, 0, 0)) == 0) by (nonlinear_arith);
    }
    z
}

/// A random point strictly inside the unit ball: candidates are drawn from
/// the cube `[-1, 1)^3` until one lies inside; the center if none of
/// `MAX_TRIES` does.
pub fn rand_in_unit_sphere() -> (r: Vec3)
    ensures
        in_unit_ball(r@),
        exists|c: Seq<Vec3>| c.len() <= MAX_TRIES && in_cube(c) && r@ == first_in_ball(c),
{
    let mut cands: Vec<Vec3> = Vec::new();
    let mut tries: u32 = 0;
    while tries < MAX_TRIES
        invariant
            cands@.len() == tries,
            tries <= MAX_TRIES,
            in_cube(cands@),
        decreases MAX_TRIES - tries,
    {
        let p = randvr(-SCALE, SCALE);
        cands.push(p);
        tries = tries + 1;
        if p.sum_sq() < SCALE_SQ {
            break;
        }
    }
    first_inside(&cands)
}

/// Scales `p` to length one; the direction `(0, 0, 1)` for the zero vector.
pub open spec fn unit_or_up_spec(p: Vector) -> Vector {
    if sum_sq(p) > 0 {
        vunit(p)
    } else {
        vector(0, 0, SCALE as int)
    }
}

/// Scales a point of the unit ball to length one; the direction `(0, 0, 1)`
/// for the center, which has none.
pub fn unit_or_up(p: Vec3) -> (r: Vec3)
    requires
        in_unit_ball(p@),
    ensures
        r@ == unit_or_up_spec(p@),
        r@.within(SCALE as int),
{
    if p.sum_sq() > 0 {
        p.unit()
    } else {
        Vec3::new(0, 0, SCALE)
    }
}

/// A random direction of unit length, uniform over the sphere: a random point
/// of the unit ball scaled to length one. (The direction is the same in law as
/// one drawn by a uniform height and a uniform azimuth; that construction needs
/// a sine and a cosine, which fixed-point integers do not offer.)
pub fn rand_uint_vec() -> (r: Vec3)
    ensures
        r@.within(SCALE as int),
        exists|p: Vector| in_unit_ball(p) && r@ == unit_or_up_spec(p),
{
    unit_or_up(rand_in_unit_sphere())
}

/// `p` turned round unless it lies on the side of `nf`.
pub open spec fn hemisphere_side_spec(p: Vector, nf: Vector) -> Vector {
    if dot_exact(p, nf) > 0 {
        p
    } else {
        vneg(p)
    }
}

/// The point `p` of the unit ball, turned round when it lies on the other
/// side of `nf`.
pub fn hemisphere_side(p: Vec3, nf: Vec3) -> (r: Vec3)
    requires
        in_unit_ball(p@),
        nf.wf(),
    ensures
        r@ == hemisphere_side_spec(p@, nf@),
        in_unit_ball(r@),
{
    proof {
        assert(sum_sq(vneg(p@)) == sum_sq(p@)) by (nonlinear_arith);
    }
    if Vec3::dot_exact(&p, &nf) > 0 {
        p
    } else {
        p.neg()
    }
}

/// A random point of the unit ball on the side of `nf`.
pub fn rand_in_hemisphere(nf: Vec3) -> (r: Vec3)
    requires
        nf.wf(),
    ensures
        in_unit_ball(r@),
        exists|p: Vector| in_unit_ball(p) && r@ == hemisphere_side_spec(p, nf@),
{
    hemisphere_side(rand_in_unit_sphere(), nf)
}

/// The candidates are points of the square `[-1, 1]^2` of the `z = 0` plane.
pub open spec fn in_square(c: Seq<Vec3>) -> bool {
    in_cube(c) && forall|i: int| 0 <= i < c.len() ==> (#[trigger] c[i]).z == 0
}

/// A random point strictly inside the unit disk of the `z = 0` plane:
/// candidates are drawn from the square `[-1, 1)^2` until one lies inside; the
/// center if none of `MAX_TRIES` does.
pub fn rand_in_unit_disk() -> (r: Vec3)
    ensures
        in_unit_ball(r@),
        r.z == 0,
        exists|c: Seq<Vec3>| c.len() <= MAX_TRIES && in_square(c) && r@ == first_in_ball(c),
{
    let mut cands: Vec<Vec3> = Vec::new();
    let mut tries: u32 = 0;
    while tries < MAX_TRIES
        invariant
            cands@.len() == tries,
            tries <= MAX_TRIES,
            in_square(cands@),
        decreases MAX_TRIES - tries,
    {
        let p = Vec3::new(randf(-SCALE, SCALE), randf(-SCALE, SCALE), 0);
        cands.push(p);
        tries = tries + 1;
        if p.sum_sq() < SCALE_SQ {
            break;
        }
    }
    let r = first_inside(&cands);
    proof {
        lemma_first_in_square(cands@);
    }
    r
}

/// The first candidate of a square lies in the `z = 0` plane.
proof fn lemma_first_in_square(c: Seq<Vec3>)
    requires
        in_square(c),
    ensures
        first_in_ball(c).z == 0,
    decreases c.len(),
{
    if c.len() > 0 {
        assert(c[0].z == 0);
        let d = c.drop_first();
        assert forall|i: int| 0 <= i < d.len() implies (#[trigger] d[i]).z == 0
            && d[i]@.within(SCALE as int) by {
            assert(d[i] == c[i + 1]);
        }
        lemma_first_in_square(d);
    }
}

} // verus!
