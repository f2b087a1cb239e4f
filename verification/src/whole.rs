//! Whole numbers, for layouts that stay on the pixel grid.

use crate::scalar::{Coordinate, Scalar};
use vstd::prelude::*;

verus! {

/// A whole number, held in 32 bits. Sums, differences and products that leave that range wrap
/// around.
#[derive(Clone, Copy, Debug, PartialEq, Eq, Structural)]
pub struct Whole(pub i32);

impl Coordinate for Whole {
    open spec fn zero_spec() -> Self {
        Whole(0)
    }

    open spec fn plus_spec(self, other: Self) -> Self {
        Whole(self.0.wrapping_add(other.0))
    }

    open spec fn minus_spec(self, other: Self) -> Self {
        Whole(self.0.wrapping_sub(other.0))
    }

    open spec fn less_spec(self, other: Self) -> bool {
        self.0 < other.0
    }

    open spec fn at_most_spec(self, other: Self) -> bool {
        self.0 <= other.0
    }

    open spec fn same_spec(self, other: Self) -> bool {
        self == other
    }

    fn zero() -> (r: Self) {
        Whole(0)
    }

    fn plus(self, other: Self) -> (r: Self) {
        Whole(self.0.wrapping_add(other.0))
    }

    fn minus(self, other: Self) -> (r: Self) {
        Whole(self.0.wrapping_sub(other.0))
    }

    fn less(self, other: Self) -> (r: bool) {
        self.0 < other.0
    }

    fn at_most(self, other: Self) -> (r: bool) {
        self.0 <= other.0
    }

    fn same(self, other: Self) -> (r: bool) {
        self == other
    }
}

impl Scalar for Whole {
    open spec fn one_spec() -> Self {
        Whole(1)
    }

    /// One half, rounded down.
    open spec fn half_spec() -> Self {
        Whole(0)
    }

    open spec fn times_spec(self, other: Self) -> Self {
        Whole(self.0.wrapping_mul(other.0))
    }

    open spec fn negate_spec(self) -> Self {
        Whole(0i32.wrapping_sub(self.0))
    }

    open spec fn floor_spec(self) -> Self {
        self
    }

    open spec fn ceil_spec(self) -> Self {
        self
    }

    fn one() -> (r: Self) {
        Whole(1)
    }

    fn half() -> (r: Self) {
        Whole(0)
    }

    fn times(self, other: Self) -> (r: Self) {
        Whole(self.0.wrapping_mul(other.0))
    }

    fn negate(self) -> (r: Self) {
        Whole(0i32.wrapping_sub(self.0))
    }

    fn floor(self) -> (r: Self) {
        self
    }

    fn ceil(self) -> (r: Self) {
        self
    }
}

} // verus!
