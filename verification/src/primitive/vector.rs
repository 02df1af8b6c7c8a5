use vstd::prelude::*;

use crate::primitive::alias::TransformInt;

verus! {

/// A 3-component integer vector; the grid's coordinate and direction type.
///
/// Equality is componentwise; hashing lets it serve as a map or set key.
#[derive(Debug, Clone, Copy, PartialEq, Eq, Hash, Structural)]
pub struct Vec3I {
    pub x: TransformInt,
    pub y: TransformInt,
    pub z: TransformInt,
}

impl Vec3I {
    /// Componentwise in-place translation. The componentwise sums must stay
    /// representable; coordinates near the ends of the integer range are not
    /// supported.
    pub fn translate(&mut self, other: &Vec3I)
        requires
            i64::MIN <= old(self).x + other.x <= i64::MAX,
            i64::MIN <= old(self).y + other.y <= i64::MAX,
            i64::MIN <= old(self).z + other.z <= i64::MAX,
        ensures
            final(self).x == old(self).x + other.x,
            final(self).y == old(self).y + other.y,
            final(self).z == old(self).z + other.z,
    {
        self.x = self.x + other.x;
        self.y = self.y + other.y;
        self.z = self.z + other.z;
    }
}

/// Componentwise sum clamped to the representable coordinate range.
pub open spec fn spec_clamped_sum(a: int, b: int) -> i64 {
    if a + b > i64::MAX {
        i64::MAX
    } else if a + b < i64::MIN {
        i64::MIN
    } else {
        (a + b) as i64
    }
}

/// One step from `p` in direction `d`, each component clamped to the
/// representable range. Inside the coordinate range a grid can address,
/// this is the exact componentwise sum.
pub open spec fn spec_step(p: Vec3I, d: Vec3I) -> Vec3I {
    Vec3I {
        x: spec_clamped_sum(p.x as int, d.x as int),
        y: spec_clamped_sum(p.y as int, d.y as int),
        z: spec_clamped_sum(p.z as int, d.z as int),
    }
}

/// `k` clamped steps from `p` in direction `d`.
pub open spec fn spec_step_n(p: Vec3I, d: Vec3I, k: int) -> Vec3I
    decreases k,
{
    if k <= 0 {
        p
    } else {
        spec_step(spec_step_n(p, d, k - 1), d)
    }
}

/// Scalar sum clamped to the `i64` range.
pub fn clamped_sum(a: i64, b: i64) -> (r: i64)
    ensures
        r == spec_clamped_sum(a as int, b as int),
{
    if b >= 0 {
        if a > i64::MAX - b {
            i64::MAX
        } else {
            a + b
        }
    } else {
        if a < i64::MIN - b {
            i64::MIN
        } else {
            a + b
        }
    }
}

} // verus!
