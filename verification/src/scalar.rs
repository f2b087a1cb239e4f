//! The numbers that scenes are laid out in.
//!
//! Everything in this crate is generic over the number type, so that the same verified code
//! serves hardware floating point and fixed point alike. A contract takes one thing only from
//! an implementation of [`Coordinate`] or [`Scalar`]: that each operation is a function of its
//! operands, the one named `.._spec`. No algebraic law is assumed, so rounding, infinities and
//! values that differ from themselves are all covered. A verified implementation has to say what
//! those functions are: each has a default, an unknown constant, only so that code which is not
//! verified can implement the operations alone.

use vstd::prelude::*;
use vstd::std_specs::cmp::PartialEqSpecImpl;

verus! {

/// A position or a length along one axis.
pub trait Coordinate: Copy {
    /// What [`Coordinate::zero`] returns.
    open spec fn zero_spec() -> Self {
        arbitrary()
    }

    /// What [`Coordinate::plus`] returns.
    open spec fn plus_spec(self, other: Self) -> Self {
        arbitrary()
    }

    /// What [`Coordinate::minus`] returns.
    open spec fn minus_spec(self, other: Self) -> Self {
        arbitrary()
    }

    /// What [`Coordinate::less`] returns.
    open spec fn less_spec(self, other: Self) -> bool {
        arbitrary()
    }

    /// What [`Coordinate::at_most`] returns.
    open spec fn at_most_spec(self, other: Self) -> bool {
        arbitrary()
    }

    /// What [`Coordinate::same`] returns.
    open spec fn same_spec(self, other: Self) -> bool {
        arbitrary()
    }

    /// The origin of the axis.
    fn zero() -> (r: Self)
        ensures
            r == Self::zero_spec(),
    ;

    /// `self + other`
    fn plus(self, other: Self) -> (r: Self)
        ensures
            r == self.plus_spec(other),
    ;

    /// `self - other`
    fn minus(self, other: Self) -> (r: Self)
        ensures
            r == self.minus_spec(other),
    ;

    /// `self < other`
    fn less(self, other: Self) -> (r: bool)
        ensures
            r == self.less_spec(other),
    ;

    /// `self <= other`
    fn at_most(self, other: Self) -> (r: bool)
        ensures
            r == self.at_most_spec(other),
    ;

    /// `self == other`
    fn same(self, other: Self) -> (r: bool)
        ensures
            r == self.same_spec(other),
    ;
}

/// A plain number: what coordinates are made of, and what they are scaled by.
pub trait Scalar: Coordinate {
    /// What [`Scalar::one`] returns.
    open spec fn one_spec() -> Self {
        arbitrary()
    }

    /// What [`Scalar::half`] returns.
    open spec fn half_spec() -> Self {
        arbitrary()
    }

    /// What [`Scalar::times`] returns.
    open spec fn times_spec(self, other: Self) -> Self {
        arbitrary()
    }

    /// What [`Scalar::negate`] returns.
    open spec fn negate_spec(self) -> Self {
        arbitrary()
    }

    /// What [`Scalar::floor`] returns.
    open spec fn floor_spec(self) -> Self {
        arbitrary()
    }

    /// What [`Scalar::ceil`] returns.
    open spec fn ceil_spec(self) -> Self {
        arbitrary()
    }

    /// The number one.
    fn one() -> (r: Self)
        ensures
            r == Self::one_spec(),
    ;

    /// One half.
    fn half() -> (r: Self)
        ensures
            r == Self::half_spec(),
    ;

    /// `self * other`
    fn times(self, other: Self) -> (r: Self)
        ensures
            r == self.times_spec(other),
    ;

    /// `-self`
    fn negate(self) -> (r: Self)
        ensures
            r == self.negate_spec(),
    ;

    /// The greatest whole number that is not above `self`.
    fn floor(self) -> (r: Self)
        ensures
            r == self.floor_spec(),
    ;

    /// The least whole number that is not below `self`.
    fn ceil(self) -> (r: Self)
        ensures
            r == self.ceil_spec(),
    ;
}

/// A length in logical pixels, before the scale factor of the display is applied.
#[derive(Clone, Copy, Debug)]
pub struct Pixels<S>(pub S);

/// A length in pixels of the display, fractions included.
#[derive(Clone, Copy, Debug)]
pub struct ScaledPixels<S>(pub S);

/// A whole number of pixels of the display.
#[derive(Clone, Copy, Debug, PartialEq, Eq, Structural)]
pub struct DevicePixels(pub i32);

impl<S: Scalar> Pixels<S> {
    pub open spec fn scale_spec(self, factor: S) -> ScaledPixels<S> {
        ScaledPixels(self.0.times_spec(factor))
    }

    /// This length on a display with the given scale factor.
    pub fn scale(self, factor: S) -> (r: ScaledPixels<S>)
        ensures
            r == self.scale_spec(factor),
    {
        ScaledPixels(self.0.times(factor))
    }
}

impl<S: Coordinate> Coordinate for Pixels<S> {
    open spec fn zero_spec() -> Self {
        Pixels(S::zero_spec())
    }

    open spec fn plus_spec(self, other: Self) -> Self {
        Pixels(self.0.plus_spec(other.0))
    }

    open spec fn minus_spec(self, other: Self) -> Self {
        Pixels(self.0.minus_spec(other.0))
    }

    open spec fn less_spec(self, other: Self) -> bool {
        self.0.less_spec(other.0)
    }

    open spec fn at_most_spec(self, other: Self) -> bool {
        self.0.at_most_spec(other.0)
    }

    open spec fn same_spec(self, other: Self) -> bool {
        self.0.same_spec(other.0)
    }

    fn zero() -> (r: Self) {
        Pixels(S::zero())
    }

    fn plus(self, other: Self) -> (r: Self) {
        Pixels(self.0.plus(other.0))
    }

    fn minus(self, other: Self) -> (r: Self) {
        Pixels(self.0.minus(other.0))
    }

    fn less(self, other: Self) -> (r: bool) {
        self.0.less(other.0)
    }

    fn at_most(self, other: Self) -> (r: bool) {
        self.0.at_most(other.0)
    }

    fn same(self, other: Self) -> (r: bool) {
        self.0.same(other.0)
    }
}

impl<S: Coordinate> Coordinate for ScaledPixels<S> {
    open spec fn zero_spec() -> Self {
        ScaledPixels(S::zero_spec())
    }

    open spec fn plus_spec(self, other: Self) -> Self {
        ScaledPixels(self.0.plus_spec(other.0))
    }

    open spec fn minus_spec(self, other: Self) -> Self {
        ScaledPixels(self.0.minus_spec(other.0))
    }

    open spec fn less_spec(self, other: Self) -> bool {
        self.0.less_spec(other.0)
    }

    open spec fn at_most_spec(self, other: Self) -> bool {
        self.0.at_most_spec(other.0)
    }

    open spec fn same_spec(self, other: Self) -> bool {
        self.0.same_spec(other.0)
    }

    fn zero() -> (r: Self) {
        ScaledPixels(S::zero())
    }

    fn plus(self, other: Self) -> (r: Self) {
        ScaledPixels(self.0.plus(other.0))
    }

    fn minus(self, other: Self) -> (r: Self) {
        ScaledPixels(self.0.minus(other.0))
    }

    fn less(self, other: Self) -> (r: bool) {
        self.0.less(other.0)
    }

    fn at_most(self, other: Self) -> (r: bool) {
        self.0.at_most(other.0)
    }

    fn same(self, other: Self) -> (r: bool) {
        self.0.same(other.0)
    }
}

impl<S: Coordinate> PartialEq for Pixels<S> {
    fn eq(&self, other: &Self) -> (r: bool) {
        self.same(*other)
    }
}

impl<S: Coordinate> PartialEqSpecImpl for Pixels<S> {
    open spec fn obeys_eq_spec() -> bool {
        true
    }

    open spec fn eq_spec(&self, other: &Self) -> bool {
        self.same_spec(*other)
    }
}

impl<S: Coordinate> PartialEq for ScaledPixels<S> {
    fn eq(&self, other: &Self) -> (r: bool) {
        self.same(*other)
    }
}

impl<S: Coordinate> PartialEqSpecImpl for ScaledPixels<S> {
    open spec fn obeys_eq_spec() -> bool {
        true
    }

    open spec fn eq_spec(&self, other: &Self) -> bool {
        self.same_spec(*other)
    }
}

} // verus!
