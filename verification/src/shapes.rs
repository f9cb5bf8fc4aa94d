//! Where a ray is taken to meet a shape.
//!
//! The distances along a ray at which it crosses a surface are computed
//! outside; here it is decided which of them is a hit. A distance counts
//! only beyond a small threshold, so that a ray which leaves a surface does
//! not meet that surface where it starts. A ray that runs alongside a plane
//! does not meet it, whatever the division by zero gave for a distance.

use vstd::prelude::*;
use crate::pattern::{abs, absolute, equal, less, less_than, same, EPSILON, INFINITY, ZERO};

verus! {

/// Whether a distance lies beyond the threshold.
pub open spec fn is_beyond(t: u64) -> bool {
    less(EPSILON, t)
}

/// Whether a distance is finite and lies beyond the threshold.
pub open spec fn is_reached(t: u64) -> bool {
    is_beyond(t) && less(t, INFINITY)
}

/// The hit of a ray on a plane. `den` is the product of the plane's normal
/// and the ray's direction, and `t` the distance at which the ray crosses
/// the plane: the product of the normal and the way from the ray's origin to
/// a point of the plane, divided by `den`. The ray meets the plane where
/// `den` is not zero, so that the ray does not run alongside, and `t` is
/// finite and beyond the threshold.
pub open spec fn plane_hit_of(den: u64, t: u64) -> Option<u64> {
    if !same(den, ZERO) && is_reached(t) {
        Some(t)
    } else {
        None
    }
}

/// Decides whether a ray meets a plane.
pub fn plane_hit(den: u64, t: u64) -> (r: Option<u64>)
    ensures
        r == plane_hit_of(den, t),
{
    if !equal(den, ZERO) && less_than(EPSILON, t) && less_than(t, INFINITY) {
        Some(t)
    } else {
        None
    }
}

/// The hit of a ray on a sphere, from the discriminant of the quadratic and
/// its two roots: none where the discriminant is negative; else the nearer
/// root where it lies beyond the threshold; else the farther where that one
/// does; else none.
pub open spec fn sphere_hit_of(disc: u64, near: u64, far: u64) -> Option<u64> {
    if less(disc, ZERO) {
        None
    } else if is_beyond(near) {
        Some(near)
    } else if is_beyond(far) {
        Some(far)
    } else {
        None
    }
}

/// Decides where a ray meets a sphere.
pub fn sphere_hit(disc: u64, near: u64, far: u64) -> (r: Option<u64>)
    ensures
        r == sphere_hit_of(disc, near, far),
{
    if less_than(disc, ZERO) {
        None
    } else if less_than(EPSILON, near) {
        Some(near)
    } else if less_than(EPSILON, far) {
        Some(far)
    } else {
        None
    }
}

/// The hit of a ray on a triangle: that on the triangle's plane, where the
/// point of it lies in the triangle. `den` and `t` are those of the plane;
/// `excess` is the sum of the areas of the three triangles that the point
/// makes with two corners each, less the area of the triangle itself. The
/// point lies in the triangle where the excess is smaller than the threshold
/// in absolute value.
pub open spec fn triangle_hit_of(den: u64, t: u64, excess: u64) -> Option<u64> {
    if plane_hit_of(den, t) is Some && less(absolute(excess), EPSILON) {
        Some(t)
    } else {
        None
    }
}

/// Decides whether a ray meets a triangle.
pub fn triangle_hit(den: u64, t: u64, excess: u64) -> (r: Option<u64>)
    ensures
        r == triangle_hit_of(den, t, excess),
{
    match plane_hit(den, t) {
        Some(t) => if less_than(abs(excess), EPSILON) {
            Some(t)
        } else {
            None
        },
        None => None,
    }
}

/// A hit lies beyond the threshold, whatever the shape, and that on a plane
/// or a triangle at a finite distance.
pub proof fn lemma_hits_lie_beyond(
    disc: u64,
    near: u64,
    far: u64,
    den: u64,
    t: u64,
    excess: u64,
)
    ensures
        plane_hit_of(den, t) matches Some(h) ==> is_reached(h),
        triangle_hit_of(den, t, excess) matches Some(h) ==> is_reached(h),
        sphere_hit_of(disc, near, far) matches Some(h) ==> is_beyond(h),
{
}

/// A sphere whose two crossings lie at the origin of the ray or behind it is
/// not hit: a ray that points away from a sphere does not meet it.
pub proof fn lemma_sphere_behind(disc: u64, near: u64, far: u64)
    requires
        !less(ZERO, near),
        !less(ZERO, far),
    ensures
        sphere_hit_of(disc, near, far) is None,
{
}

/// A ray that runs alongside a plane meets neither the plane nor a triangle
/// in it, and no ray meets either at an infinite distance.
pub proof fn lemma_no_hit_alongside(den: u64, t: u64, excess: u64)
    requires
        same(den, ZERO) || t == INFINITY,
    ensures
        plane_hit_of(den, t) is None,
        triangle_hit_of(den, t, excess) is None,
{
}

} // verus!
