//! Rays: an origin and a direction.
use vstd::prelude::*;

use crate::fixed::fits;
use crate::vec3::{vadd, vscale, Vec3, Vector};

verus! {

/// A half-line `org + t * dir`; the direction need not have unit length.
#[derive(Clone, Copy, Debug, PartialEq, Eq, Structural)]
pub struct Ray {
    pub org: Vec3,
    pub dir: Vec3,
}

/// The point at parameter `t` along the ray through `org` with direction `dir`.
pub open spec fn point_at(org: Vector, dir: Vector, t: int) -> Vector {
    vadd(org, vscale(dir, t))
}

impl Ray {
    /// Origin and direction lie within the library's range.
    pub open spec fn wf(&self) -> bool {
        self.org.wf() && self.dir.wf()
    }

    pub fn new(org: Vec3, dir: Vec3) -> (r: Self)
        ensures
            r.org == org,
            r.dir == dir,
    {
        Ray { org, dir }
    }

    /// Overwrites this ray with `other`.
    pub fn copy(&mut self, other: Self)
        ensures
            *final(self) == other,
    {
        self.org.copy(other.origin());
        self.dir.copy(other.diraction());
    }

    pub fn origin(&self) -> (r: Vec3)
        ensures
            r == self.org,
    {
        self.org
    }

    pub fn diraction(&self) -> (r: Vec3)
        ensures
            r == self.dir,
    {
        self.dir
    }

    /// The point `org + t * dir`.
    pub fn at(&self, t: i64) -> (r: Vec3)
        requires
            self.wf(),
            fits(t as int),
            vscale(self.dir@, t as int).fits(),
            point_at(self.org@, self.dir@, t as int).fits(),
        ensures
            r@ == point_at(self.org@, self.dir@, t as int),
    {
        self.org.add(self.dir.scale(t))
    }
}

} // verus!
