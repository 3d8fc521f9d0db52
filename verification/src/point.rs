//! Points and vectors.

use vstd::prelude::*;

use crate::decimal::{real_zero, Real};

verus! {

/// A location in space.
#[derive(Clone, Copy, Debug, PartialEq, Eq, Structural)]
pub struct Point {
    pub x: Real,
    pub y: Real,
    pub z: Real,
}

/// A direction or extent in space.
#[derive(Clone, Copy, Debug, PartialEq, Eq, Structural)]
pub struct Vector {
    pub x: Real,
    pub y: Real,
    pub z: Real,
}

impl Point {
    /// The point with the given coordinates.
    pub fn new(x: Real, y: Real, z: Real) -> (p: Point)
        ensures
            p == (Point { x, y, z }),
    {
        Point { x, y, z }
    }

    /// The origin.
    pub fn origin() -> (p: Point)
        ensures
            p == (Point { x: real_zero(), y: real_zero(), z: real_zero() }),
    {
        Point { x: Real::zero(), y: Real::zero(), z: Real::zero() }
    }
}

impl Vector {
    /// The vector with the given components.
    pub fn new(x: Real, y: Real, z: Real) -> (v: Vector)
        ensures
            v == (Vector { x, y, z }),
    {
        Vector { x, y, z }
    }

    /// The zero vector.
    pub fn zero() -> (v: Vector)
        ensures
            v == (Vector { x: real_zero(), y: real_zero(), z: real_zero() }),
    {
        Vector { x: Real::zero(), y: Real::zero(), z: Real::zero() }
    }
}

} // verus!
