//! Real numbers as 64-bit patterns, and their order.
//!
//! The program around this library computes with binary64 numbers and hands
//! them over as their bit patterns. A pattern is a sign bit and a magnitude.
//! Magnitudes order as the numbers they stand for, so that comparing two
//! numbers is comparing integers; magnitudes above that of infinity stand for
//! no number, and such a pattern is neither less than, equal to nor greater
//! than any other.

use vstd::prelude::*;

verus! {

/// The sign bit: set in the patterns of negative numbers.
pub const SIGN: u64 = 0x8000_0000_0000_0000;

/// The pattern of positive infinity, the greatest magnitude of a number.
pub const INFINITY: u64 = 0x7ff0_0000_0000_0000;

/// The pattern of zero.
pub const ZERO: u64 = 0;

/// The pattern of one.
pub const ONE: u64 = 0x3ff0_0000_0000_0000;

/// The pattern of one ten-thousandth, the least distance at which a ray is
/// taken to meet a surface.
pub const EPSILON: u64 = 0x3f1a_36e2_eb1c_432d;

/// The pattern without its sign bit.
pub open spec fn magnitude(p: u64) -> int {
    if p >= SIGN {
        p - SIGN
    } else {
        p as int
    }
}

/// Whether the pattern stands for no number.
pub open spec fn is_nan(p: u64) -> bool {
    magnitude(p) > INFINITY
}

/// An integer that orders the patterns of numbers as the numbers themselves:
/// the magnitude, negated under the sign bit. Both zeros have rank zero.
pub open spec fn rank(p: u64) -> int {
    if p >= SIGN {
        -(p - SIGN)
    } else {
        p as int
    }
}

/// Whether `a` stands for a smaller number than `b`.
pub open spec fn less(a: u64, b: u64) -> bool {
    !is_nan(a) && !is_nan(b) && rank(a) < rank(b)
}

/// Whether `a` and `b` stand for the same number.
pub open spec fn same(a: u64, b: u64) -> bool {
    !is_nan(a) && !is_nan(b) && rank(a) == rank(b)
}

/// The pattern of the absolute value.
pub open spec fn absolute(p: u64) -> u64 {
    magnitude(p) as u64
}

/// Of two numbers exactly one is the smaller, or they are the same.
pub proof fn lemma_order_is_total(a: u64, b: u64)
    requires
        !is_nan(a),
        !is_nan(b),
    ensures
        less(a, b) || same(a, b) || less(b, a),
        !(less(a, b) && less(b, a)),
        !(less(a, b) && same(a, b)),
{
}

/// The order of numbers carries over from one pair to the next.
pub proof fn lemma_order_is_transitive(a: u64, b: u64, c: u64)
    requires
        less(a, b),
        less(b, c),
    ensures
        less(a, c),
{
}

/// Positive numbers order as their patterns do.
pub proof fn lemma_positive_patterns_order(a: u64, b: u64)
    requires
        less(ZERO, a),
        less(ZERO, b),
    ensures
        less(a, b) <==> a < b,
{
}

fn is_nan_pattern(p: u64) -> (r: bool)
    ensures
        r == is_nan(p),
{
    if p >= SIGN {
        p - SIGN > INFINITY
    } else {
        p > INFINITY
    }
}

/// Whether `a` stands for a smaller number than `b`.
pub fn less_than(a: u64, b: u64) -> (r: bool)
    ensures
        r == less(a, b),
{
    if is_nan_pattern(a) || is_nan_pattern(b) {
        false
    } else if a >= SIGN {
        if b >= SIGN {
            a > b
        } else {
            a != SIGN || b != 0
        }
    } else {
        b < SIGN && a < b
    }
}

/// Whether `a` and `b` stand for the same number.
pub fn equal(a: u64, b: u64) -> (r: bool)
    ensures
        r == same(a, b),
{
    if is_nan_pattern(a) || is_nan_pattern(b) {
        false
    } else {
        a == b || (a == SIGN && b == 0) || (a == 0 && b == SIGN)
    }
}

/// The pattern of the absolute value.
pub fn abs(p: u64) -> (r: u64)
    ensures
        r == absolute(p),
{
    if p >= SIGN {
        p - SIGN
    } else {
        p
    }
}

} // verus!
