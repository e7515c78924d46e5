//! Worked examples of the vector operations on whole numbers: each function
//! computes an operation and compares it with the expected vector, and is
//! proved to return `true`.
use vstd::prelude::*;

use crate::fixed::{sqrt_fx, SCALE};
use crate::vec3::Vec3;

verus! {

pub fn test_new() -> (r: bool)
    ensures
        r,
{
    Vec3::new(SCALE, 2 * SCALE, 3 * SCALE) == Vec3::new(SCALE, 2 * SCALE, 3 * SCALE)
}

pub fn test_add() -> (r: bool)
    ensures
        r,
{
    Vec3::new(SCALE, 0, -SCALE).add(Vec3::new(2 * SCALE, 4 * SCALE, 6 * SCALE)) == Vec3::new(
        3 * SCALE,
        4 * SCALE,
        5 * SCALE,
    )
}

pub fn test_add_assign() -> (r: bool)
    ensures
        r,
{
    let mut x = Vec3::new(SCALE, 0, -SCALE);
    x.add_assign(Vec3::new(2 * SCALE, 4 * SCALE, 6 * SCALE));
    x == Vec3::new(3 * SCALE, 4 * SCALE, 5 * SCALE)
}

pub fn test_add_f64() -> (r: bool)
    ensures
        r,
{
    Vec3::new(SCALE, 0, -SCALE).add_scalar(233 * SCALE) == Vec3::new(
        234 * SCALE,
        233 * SCALE,
        232 * SCALE,
    )
}

pub fn test_add_assign_f64() -> (r: bool)
    ensures
        r,
{
    let mut x = Vec3::new(SCALE, 0, -SCALE);
    x.add_scalar_assign(233 * SCALE);
    x == Vec3::new(234 * SCALE, 233 * SCALE, 232 * SCALE)
}

pub fn test_sub() -> (r: bool)
    ensures
        r,
{
    Vec3::new(SCALE, 0, -SCALE).sub(Vec3::new(2 * SCALE, 4 * SCALE, 6 * SCALE)) == Vec3::new(
        -SCALE,
        -4 * SCALE,
        -7 * SCALE,
    )
}

pub fn test_sub_assign() -> (r: bool)
    ensures
        r,
{
    let mut x = Vec3::new(SCALE, 0, -SCALE);
    x.sub_assign(Vec3::new(2 * SCALE, 4 * SCALE, 6 * SCALE));
    x == Vec3::new(-SCALE, -4 * SCALE, -7 * SCALE)
}

pub fn test_sub_f64() -> (r: bool)
    ensures
        r,
{
    Vec3::new(SCALE, 0, -SCALE).sub_scalar(SCALE) == Vec3::new(0, -SCALE, -2 * SCALE)
}

pub fn test_sub_assign_f64() -> (r: bool)
    ensures
        r,
{
    let mut x = Vec3::new(SCALE, 0, -SCALE);
    x.sub_scalar_assign(SCALE);
    x == Vec3::new(0, -SCALE, -2 * SCALE)
}

pub fn test_mul() -> (r: bool)
    ensures
        r,
{
    Vec3::new(SCALE, 0, -SCALE).dot(&Vec3::ones()) == 0
}

pub fn test_mul_assign() -> (r: bool)
    ensures
        r,
{
    let mut x = Vec3::new(SCALE, 0, -SCALE);
    x.scale_assign(2 * SCALE);
    x == Vec3::new(2 * SCALE, 0, -2 * SCALE)
}

pub fn test_mul_f64() -> (r: bool)
    ensures
        r,
{
    Vec3::new(SCALE, 0, -SCALE).scale(SCALE) == Vec3::new(SCALE, 0, -SCALE)
}

pub fn test_div() -> (r: bool)
    ensures
        r,
{
    Vec3::new(SCALE, -2 * SCALE, 0).div(2 * SCALE) == Vec3::new(SCALE / 2, -SCALE, 0)
}

pub fn test_elemul() -> (r: bool)
    ensures
        r,
{
    Vec3::elemul(Vec3::new(SCALE, 2 * SCALE, 3 * SCALE), Vec3::new(SCALE, 2 * SCALE, 3 * SCALE))
        == Vec3::new(SCALE, 4 * SCALE, 9 * SCALE)
}

pub fn test_cross() -> (r: bool)
    ensures
        r,
{
    Vec3::cross(Vec3::new(SCALE, 2 * SCALE, 3 * SCALE), Vec3::new(2 * SCALE, 3 * SCALE, 4 * SCALE))
        == Vec3::new((8 - 9) * SCALE, (6 - 4) * SCALE, (3 - 4) * SCALE)
}

pub fn test_neg() -> (r: bool)
    ensures
        r,
{
    Vec3::new(SCALE, -2 * SCALE, 3 * SCALE).neg() == Vec3::new(-SCALE, 2 * SCALE, -3 * SCALE)
}

pub fn test_squared_length() -> (r: bool)
    ensures
        r,
{
    Vec3::new(SCALE, 2 * SCALE, 3 * SCALE).squared_length() == 14 * SCALE
}

pub fn test_length() -> (r: bool)
    ensures
        r,
{
    Vec3::new(3 * SCALE, 4 * SCALE, 5 * SCALE).length() == sqrt_fx((3 * 3 + 4 * 4 + 5 * 5) * SCALE)
}

pub fn test_unit() -> (r: bool)
    ensures
        r,
{
    let a = Vec3::new(233 * SCALE, 0, 0);
    let b = Vec3::new(-233 * SCALE, 0, 0);
    proof {
        crate::fixed::lemma_sqrt_floor_unique(233 * SCALE * (233 * SCALE), 233 * SCALE);
        crate::fixed::lemma_sqrt_floor_unique((-233 * SCALE) * (-233 * SCALE), 233 * SCALE);
    }
    a.unit() == Vec3::new(SCALE, 0, 0) && b.unit() == Vec3::new(-SCALE, 0, 0)
}

/// The zero vector has no direction: `unit` does not accept it.
pub fn test_unit_panic() -> (r: bool)
    ensures
        r,
{
    Vec3::new(0, 0, 0).sum_sq() == 0
}

} // verus!
