//! The decisions of the vector algebra.
//!
//! Scaling a vector to unit length depends on its length: a unit vector is
//! left as it is, the zero vector has no direction and is refused, any other
//! is divided by its length. The basis built around a vector starts in the
//! plane of the larger of its first two coordinates.

use vstd::prelude::*;
use crate::pattern::{abs, absolute, equal, less, less_than, same, ONE, SIGN, ZERO};

verus! {

/// What the length of a vector means for scaling it to unit length.
#[derive(Debug, Clone, Copy, PartialEq, Eq, Structural)]
pub enum Length {
    /// Exactly zero: the vector cannot be scaled.
    Zero,
    /// Exactly one: the vector is a unit vector already.
    Unit,
    /// Any other length: the vector is divided by it.
    Other,
}

/// The class of a length, given as a pattern.
pub open spec fn length_of(rho: u64) -> Length {
    if same(rho, ONE) {
        Length::Unit
    } else if same(rho, ZERO) {
        Length::Zero
    } else {
        Length::Other
    }
}

/// Only the pattern of one is a unit length, and only those of the two zeros
/// are a length of zero: a vector is left as it is at a length of exactly one
/// and at no other, and refused at a length of exactly zero and at no other.
pub proof fn lemma_lengths(rho: u64)
    ensures
        length_of(rho) == Length::Unit <==> rho == ONE,
        length_of(rho) == Length::Zero <==> rho == ZERO || rho == SIGN,
{
}

/// Classes the length of a vector, given as a pattern.
pub fn classify_length(rho: u64) -> (r: Length)
    ensures
        r == length_of(rho),
{
    if equal(rho, ONE) {
        Length::Unit
    } else if equal(rho, ZERO) {
        Length::Zero
    } else {
        Length::Other
    }
}

/// The plane in which the first vector of a basis around a vector is built.
#[derive(Debug, Clone, Copy, PartialEq, Eq, Structural)]
pub enum BasisPlane {
    /// The plane in which the second coordinate is zero.
    AcrossY,
    /// The plane in which the first coordinate is zero.
    AcrossX,
}

/// The plane for a vector with first coordinate `x` and second `y`: across
/// the second axis where `x` is the larger in absolute value, and across the
/// first where it is not.
pub open spec fn basis_plane_of(x: u64, y: u64) -> BasisPlane {
    if less(absolute(y), absolute(x)) {
        BasisPlane::AcrossY
    } else {
        BasisPlane::AcrossX
    }
}

/// Chooses the plane for the basis around a vector.
pub fn basis_plane(x: u64, y: u64) -> (r: BasisPlane)
    ensures
        r == basis_plane_of(x, y),
{
    if less_than(abs(y), abs(x)) {
        BasisPlane::AcrossY
    } else {
        BasisPlane::AcrossX
    }
}

} // verus!
