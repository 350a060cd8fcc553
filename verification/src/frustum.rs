//! Frustum culling on fixed-point plane equations.
//!
//! The camera side extracts the six view-projection planes in floating point
//! and scales them to integers before asking the core; the tests here are
//! exact integer comparisons. For the box test the planes need not be
//! normalized (only signs and relative magnitude within one plane matter);
//! for the sphere test the caller must scale each plane so that its normal
//! has unit length in the fixed-point scale of `radius`.

use vstd::prelude::*;

use crate::block::IVec3;

verus! {

/// One plane `a*x + b*y + c*z + d >= 0` of the view frustum, in fixed-point
/// integer coordinates.
#[derive(Clone, Copy, PartialEq, Eq, Structural, Debug)]
pub struct Plane {
    pub a: i64,
    pub b: i64,
    pub c: i64,
    pub d: i64,
}

/// An axis-aligned box in the owning entity's local space.
#[derive(Clone, Copy, PartialEq, Eq, Structural, Debug)]
pub struct Aabb {
    pub min: IVec3,
    pub max: IVec3,
}

impl Aabb {
    pub fn new(min: IVec3, max: IVec3) -> (r: Aabb)
        ensures
            r == (Aabb { min, max }),
    {
        Aabb { min, max }
    }
}

/// Magnitudes under which the plane tests cannot overflow.
pub open spec fn plane_bounded(p: Plane) -> bool {
    &&& -0x4000_0000 <= p.a <= 0x4000_0000
    &&& -0x4000_0000 <= p.b <= 0x4000_0000
    &&& -0x4000_0000 <= p.c <= 0x4000_0000
    &&& -0x1000_0000_0000_0000 <= p.d <= 0x1000_0000_0000_0000
}

pub open spec fn point_bounded(v: int) -> bool {
    -0x800_0000 <= v <= 0x800_0000
}

/// The corner of the box (translated by `pos`) that lies farthest along the
/// plane's normal, per axis: the box is entirely behind the plane exactly
/// when this corner is.
pub open spec fn spec_p_vertex_axis(n: int, lo: int, hi: int) -> int {
    if n > 0 {
        hi
    } else {
        lo
    }
}

/// Whether `plane` rejects the box `aabb` translated by `pos`.
pub open spec fn spec_plane_rejects_aabb(plane: Plane, pos: IVec3, aabb: Aabb) -> bool {
    plane.a * spec_p_vertex_axis(plane.a as int, pos.x + aabb.min.x, pos.x + aabb.max.x) + plane.b
        * spec_p_vertex_axis(plane.b as int, pos.y + aabb.min.y, pos.y + aabb.max.y) + plane.c
        * spec_p_vertex_axis(plane.c as int, pos.z + aabb.min.z, pos.z + aabb.max.z) + plane.d < 0
}

/// Whether `plane` rejects the sphere at `pos` with radius `radius`, for
/// planes whose normal is unit length in the same fixed-point scale.
pub open spec fn spec_plane_rejects_sphere(plane: Plane, pos: IVec3, radius: i64) -> bool {
    plane.a * pos.x + plane.b * pos.y + plane.c * pos.z + plane.d < -radius
}

/// A box is culled exactly when some frustum plane has it entirely on its
/// negative side. (The test is conservative in the other direction: a box
/// outside the frustum but not outside any single plane is kept.)
pub fn should_cull_aabb(frustum: &[Plane; 6], pos: IVec3, aabb: &Aabb) -> (r: bool)
    requires
        forall|i: int| 0 <= i < 6 ==> plane_bounded(frustum[i]),
        point_bounded(pos.x + aabb.min.x),
        point_bounded(pos.y + aabb.min.y),
        point_bounded(pos.z + aabb.min.z),
        point_bounded(pos.x + aabb.max.x),
        point_bounded(pos.y + aabb.max.y),
        point_bounded(pos.z + aabb.max.z),
    ensures
        r == exists|i: int| 0 <= i < 6 && spec_plane_rejects_aabb(frustum[i], pos, *aabb),
{
    let mut i: usize = 0;
    while i < 6
        invariant
            forall|j: int| 0 <= j < 6 ==> plane_bounded(frustum[j]),
            point_bounded(pos.x + aabb.min.x),
            point_bounded(pos.y + aabb.min.y),
            point_bounded(pos.z + aabb.min.z),
            point_bounded(pos.x + aabb.max.x),
            point_bounded(pos.y + aabb.max.y),
            point_bounded(pos.z + aabb.max.z),
            i <= 6,
            forall|j: int| 0 <= j < i ==> !spec_plane_rejects_aabb(frustum[j], pos, *aabb),
        decreases 6 - i,
    {
        let plane = frustum[i];
        let nx: i64 = if plane.a > 0 {
            (pos.x as i64) + (aabb.max.x as i64)
        } else {
            (pos.x as i64) + (aabb.min.x as i64)
        };
        let ny: i64 = if plane.b > 0 {
            (pos.y as i64) + (aabb.max.y as i64)
        } else {
            (pos.y as i64) + (aabb.min.y as i64)
        };
        let nz: i64 = if plane.c > 0 {
            (pos.z as i64) + (aabb.max.z as i64)
        } else {
            (pos.z as i64) + (aabb.min.z as i64)
        };
        proof {
            assert({
                &&& i64::MIN <= plane.a * nx <= i64::MAX
                &&& i64::MIN <= plane.b * ny <= i64::MAX
                &&& i64::MIN <= plane.c * nz <= i64::MAX
                &&& i64::MIN <= plane.a * nx + plane.b * ny <= i64::MAX
                &&& i64::MIN <= plane.a * nx + plane.b * ny + plane.c * nz <= i64::MAX
                &&& i64::MIN <= plane.a * nx + plane.b * ny + plane.c * nz + plane.d <= i64::MAX
            }) by (nonlinear_arith)
                requires
                    plane_bounded(plane),
                    -0x800_0000 <= nx as int <= 0x800_0000,
                    -0x800_0000 <= ny as int <= 0x800_0000,
                    -0x800_0000 <= nz as int <= 0x800_0000,
            ;
        }
        if plane.a * nx + plane.b * ny + plane.c * nz + plane.d < 0 {
            return true;
        }
        i = i + 1;
    }
    false
}

/// A sphere is culled exactly when some plane's signed distance to its
/// center is below `-radius`. Planes must be pre-normalized.
pub fn should_cull_sphere(frustum: &[Plane; 6], pos: IVec3, radius: i64) -> (r: bool)
    requires
        forall|i: int| 0 <= i < 6 ==> plane_bounded(frustum[i]),
        point_bounded(pos.x as int),
        point_bounded(pos.y as int),
        point_bounded(pos.z as int),
        -0x1000_0000_0000_0000 <= radius <= 0x1000_0000_0000_0000,
    ensures
        r == exists|i: int| 0 <= i < 6 && spec_plane_rejects_sphere(frustum[i], pos, radius),
{
    let mut i: usize = 0;
    while i < 6
        invariant
            forall|j: int| 0 <= j < 6 ==> plane_bounded(frustum[j]),
            point_bounded(pos.x as int),
            point_bounded(pos.y as int),
            point_bounded(pos.z as int),
            -0x1000_0000_0000_0000 <= radius <= 0x1000_0000_0000_0000,
            i <= 6,
            forall|j: int| 0 <= j < i ==> !spec_plane_rejects_sphere(frustum[j], pos, radius),
        decreases 6 - i,
    {
        let plane = frustum[i];
        proof {
            assert({
                &&& i64::MIN <= plane.a * (pos.x as i64) <= i64::MAX
                &&& i64::MIN <= plane.b * (pos.y as i64) <= i64::MAX
                &&& i64::MIN <= plane.c * (pos.z as i64) <= i64::MAX
                &&& i64::MIN <= plane.a * (pos.x as i64) + plane.b * (pos.y as i64) <= i64::MAX
                &&& i64::MIN <= plane.a * (pos.x as i64) + plane.b * (pos.y as i64) + plane.c * (
                pos.z as i64) <= i64::MAX
                &&& i64::MIN <= plane.a * (pos.x as i64) + plane.b * (pos.y as i64) + plane.c * (
                pos.z as i64) + plane.d <= i64::MAX
            }) by (nonlinear_arith)
                requires
                    plane_bounded(plane),
                    point_bounded(pos.x as int),
                    point_bounded(pos.y as int),
                    point_bounded(pos.z as int),
            ;
        }
        let distance = plane.a * (pos.x as i64) + plane.b * (pos.y as i64) + plane.c * (
        pos.z as i64) + plane.d;
        if distance < -radius {
            return true;
        }
        i = i + 1;
    }
    false
}

} // verus!
