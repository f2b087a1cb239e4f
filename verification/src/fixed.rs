//! Fixed-point numbers.

use crate::scalar::{Coordinate, Scalar};
use vstd::prelude::*;

verus! {

/// A number in sixty-fourths, held in 32 bits. Sums, differences and products that leave that
/// range wrap around.
#[derive(Clone, Copy, Debug, PartialEq, Eq, Structural)]
pub struct Fixed(pub i32);

impl Fixed {
    /// The whole number `n`.
    pub fn whole(n: i16) -> (r: Fixed)
        ensures
            r == Fixed((n * 64) as i32),
    {
        Fixed(n as i32 * 64)
    }
}

impl Coordinate for Fixed {
    open spec fn zero_spec() -> Self {
        Fixed(0)
    }

    open spec fn plus_spec(self, other: Self) -> Self {
        Fixed(self.0.wrapping_add(other.0))
    }

    open spec fn minus_spec(self, other: Self) -> Self {
        Fixed(self.0.wrapping_sub(other.0))
    }

    open spec fn less_spec(self, other: Self) -> bool {
        self.0 < other.0
    }

    open spec fn at_most_spec(self, other: Self) -> bool {
        self.0 <= other.0
    }

    open spec fn same_spec(self, other: Self) -> bool {
        self == other
    }

    fn zero() -> (r: Self) {
        Fixed(0)
    }

    fn plus(self, other: Self) -> (r: Self) {
        Fixed(self.0.wrapping_add(other.0))
    }

    fn minus(self, other: Self) -> (r: Self) {
        Fixed(self.0.wrapping_sub(other.0))
    }

    fn less(self, other: Self) -> (r: bool) {
        self.0 < other.0
    }

    fn at_most(self, other: Self) -> (r: bool) {
        self.0 <= other.0
    }

    fn same(self, other: Self) -> (r: bool) {
        self == other
    }
}

impl Scalar for Fixed {
    open spec fn one_spec() -> Self {
        Fixed(64)
    }

    open spec fn half_spec() -> Self {
        Fixed(32)
    }

    /// The product, rounded down to a sixty-fourth.
    open spec fn times_spec(self, other: Self) -> Self {
        Fixed(((self.0 * other.0) / 64) as i32)
    }

    open spec fn negate_spec(self) -> Self {
        Fixed(0i32.wrapping_sub(self.0))
    }

    open spec fn floor_spec(self) -> Self {
        Fixed((self.0 as int / 64 * 64) as i32)
    }

    open spec fn ceil_spec(self) -> Self {
        Fixed(((self.0 + 63) / 64 * 64) as i32)
    }

    fn one() -> (r: Self) {
        Fixed(64)
    }

    fn half() -> (r: Self) {
        Fixed(32)
    }

    fn times(self, other: Self) -> (r: Self) {
        let (a, b): (i64, i64) = (self.0 as i64, other.0 as i64);
        assert(-0x4000_0000_0000_0000 <= a * b <= 0x4000_0000_0000_0000) by (nonlinear_arith)
            requires
                -0x8000_0000 <= a <= 0x7fff_ffff,
                -0x8000_0000 <= b <= 0x7fff_ffff,
        ;
        Fixed(div_down(a * b) as i32)
    }

    fn negate(self) -> (r: Self) {
        Fixed(0i32.wrapping_sub(self.0))
    }

    fn floor(self) -> (r: Self) {
        let down: i64 = div_down(self.0 as i64);
        Fixed((down * 64) as i32)
    }

    fn ceil(self) -> (r: Self) {
        let up: i64 = div_down(self.0 as i64 + 63);
        Fixed((up * 64) as i32)
    }
}

/// The quotient by 64, rounded down.
fn div_down(n: i64) -> (q: i64)
    ensures
        q == n as int / 64,
{
    let q: i64 = n >> 6;
    assert(64 * q <= n < 64 * q + 64) by (bit_vector)
        requires
            q == n >> 6,
    ;
    q
}

} // verus!
