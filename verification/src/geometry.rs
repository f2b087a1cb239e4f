//! Points, sizes and axis-aligned rectangles.

use crate::scalar::{Coordinate, Pixels, Scalar, ScaledPixels};
use vstd::prelude::*;
use vstd::std_specs::cmp::PartialEqSpecImpl;

verus! {

/// A position in the plane.
#[derive(Clone, Copy, Debug)]
pub struct Point<T> {
    pub x: T,
    pub y: T,
}

/// A width and a height.
#[derive(Clone, Copy, Debug)]
pub struct Size<T> {
    pub width: T,
    pub height: T,
}

/// A rectangle, by its upper left corner and its extent.
#[derive(Clone, Copy, Debug)]
pub struct Bounds<T> {
    pub origin: Point<T>,
    pub size: Size<T>,
}

/// One value for each corner of a rectangle.
#[derive(Clone, Copy, Debug)]
pub struct Corners<T> {
    pub top_left: T,
    pub top_right: T,
    pub bottom_right: T,
    pub bottom_left: T,
}

/// One value for each edge of a rectangle.
#[derive(Clone, Copy, Debug)]
pub struct Edges<T> {
    pub top: T,
    pub right: T,
    pub bottom: T,
    pub left: T,
}

/// The area that a primitive is clipped to.
#[derive(Clone, Copy, Debug)]
pub struct ContentMask<T> {
    pub bounds: Bounds<T>,
}

impl<T: Coordinate> Point<T> {
    pub open spec fn zero_spec() -> Self {
        Point { x: T::zero_spec(), y: T::zero_spec() }
    }

    pub open spec fn same_spec(self, other: Self) -> bool {
        self.x.same_spec(other.x) && self.y.same_spec(other.y)
    }

    pub open spec fn plus_spec(self, other: Self) -> Self {
        Point { x: self.x.plus_spec(other.x), y: self.y.plus_spec(other.y) }
    }

    pub open spec fn max_spec(self, other: Self) -> Self {
        Point {
            x: if other.x.less_spec(self.x) {
                self.x
            } else {
                other.x
            },
            y: if other.y.less_spec(self.y) {
                self.y
            } else {
                other.y
            },
        }
    }

    pub open spec fn min_spec(self, other: Self) -> Self {
        Point {
            x: if self.x.at_most_spec(other.x) {
                self.x
            } else {
                other.x
            },
            y: if self.y.at_most_spec(other.y) {
                self.y
            } else {
                other.y
            },
        }
    }

    /// The origin of the plane.
    pub fn zero() -> (r: Self)
        ensures
            r == Self::zero_spec(),
    {
        Point { x: T::zero(), y: T::zero() }
    }

    /// This point moved by `other`.
    pub fn plus(self, other: Self) -> (r: Self)
        ensures
            r == self.plus_spec(other),
    {
        Point { x: self.x.plus(other.x), y: self.y.plus(other.y) }
    }

    /// The greater of the two coordinates on each axis.
    pub fn max(self, other: Self) -> (r: Self)
        ensures
            r == self.max_spec(other),
    {
        Point {
            x: if other.x.less(self.x) {
                self.x
            } else {
                other.x
            },
            y: if other.y.less(self.y) {
                self.y
            } else {
                other.y
            },
        }
    }

    /// The smaller of the two coordinates on each axis.
    pub fn min(self, other: Self) -> (r: Self)
        ensures
            r == self.min_spec(other),
    {
        Point {
            x: if self.x.at_most(other.x) {
                self.x
            } else {
                other.x
            },
            y: if self.y.at_most(other.y) {
                self.y
            } else {
                other.y
            },
        }
    }
}

impl<S: Scalar> Point<Pixels<S>> {
    pub open spec fn scale_spec(self, factor: S) -> Point<ScaledPixels<S>> {
        Point { x: self.x.scale_spec(factor), y: self.y.scale_spec(factor) }
    }

    /// This point on a display with the given scale factor.
    pub fn scale(self, factor: S) -> (r: Point<ScaledPixels<S>>)
        ensures
            r == self.scale_spec(factor),
    {
        Point { x: self.x.scale(factor), y: self.y.scale(factor) }
    }
}

impl<T: Coordinate> Size<T> {
    pub open spec fn same_spec(self, other: Self) -> bool {
        self.width.same_spec(other.width) && self.height.same_spec(other.height)
    }
}

impl<T: Coordinate> Bounds<T> {
    pub open spec fn same_spec(self, other: Self) -> bool {
        self.origin.same_spec(other.origin) && self.size.same_spec(other.size)
    }

    /// A rectangle without extent.
    pub open spec fn at_spec(origin: Point<T>) -> Self {
        Bounds { origin, size: Size { width: T::zero_spec(), height: T::zero_spec() } }
    }

    pub open spec fn bottom_right_spec(self) -> Point<T> {
        Point {
            x: self.origin.x.plus_spec(self.size.width),
            y: self.origin.y.plus_spec(self.size.height),
        }
    }

    pub open spec fn from_corners_spec(upper_left: Point<T>, bottom_right: Point<T>) -> Self {
        Bounds {
            origin: upper_left,
            size: Size {
                width: bottom_right.x.minus_spec(upper_left.x),
                height: bottom_right.y.minus_spec(upper_left.y),
            },
        }
    }

    pub open spec fn intersect_spec(self, other: Self) -> Self {
        Self::from_corners_spec(
            self.origin.max_spec(other.origin),
            self.bottom_right_spec().min_spec(other.bottom_right_spec()),
        )
    }

    pub open spec fn union_spec(self, other: Self) -> Self {
        Self::from_corners_spec(
            self.origin.min_spec(other.origin),
            self.bottom_right_spec().max_spec(other.bottom_right_spec()),
        )
    }

    pub open spec fn is_empty_spec(self) -> bool {
        self.size.width.at_most_spec(T::zero_spec()) || self.size.height.at_most_spec(
            T::zero_spec(),
        )
    }

    pub open spec fn intersects_spec(self, other: Self) -> bool {
        let mine = self.bottom_right_spec();
        let theirs = other.bottom_right_spec();
        &&& self.origin.x.less_spec(theirs.x)
        &&& other.origin.x.less_spec(mine.x)
        &&& self.origin.y.less_spec(theirs.y)
        &&& other.origin.y.less_spec(mine.y)
    }

    /// Whether `inner` lies within, edge by edge.
    pub open spec fn encloses(self, inner: Self) -> bool {
        let (mine, theirs) = (self.bottom_right_spec(), inner.bottom_right_spec());
        &&& self.origin.x.at_most_spec(inner.origin.x)
        &&& self.origin.y.at_most_spec(inner.origin.y)
        &&& theirs.x.at_most_spec(mine.x)
        &&& theirs.y.at_most_spec(mine.y)
    }

    /// Whether `point` lies within, the edges included.
    pub open spec fn holds(self, point: Point<T>) -> bool {
        let far = self.bottom_right_spec();
        &&& self.origin.x.at_most_spec(point.x)
        &&& self.origin.y.at_most_spec(point.y)
        &&& point.x.at_most_spec(far.x)
        &&& point.y.at_most_spec(far.y)
    }

    /// The rectangle without extent at `origin`.
    pub fn at(origin: Point<T>) -> (r: Self)
        ensures
            r == Self::at_spec(origin),
    {
        Bounds { origin, size: Size { width: T::zero(), height: T::zero() } }
    }

    /// The corner opposite to the origin.
    pub fn bottom_right(self) -> (r: Point<T>)
        ensures
            r == self.bottom_right_spec(),
    {
        Point { x: self.origin.x.plus(self.size.width), y: self.origin.y.plus(self.size.height) }
    }

    /// The rectangle between two opposite corners.
    pub fn from_corners(upper_left: Point<T>, bottom_right: Point<T>) -> (r: Self)
        ensures
            r == Self::from_corners_spec(upper_left, bottom_right),
    {
        Bounds {
            origin: upper_left,
            size: Size {
                width: bottom_right.x.minus(upper_left.x),
                height: bottom_right.y.minus(upper_left.y),
            },
        }
    }

    /// The area that both rectangles cover.
    pub fn intersect(self, other: Self) -> (r: Self)
        ensures
            r == self.intersect_spec(other),
    {
        Self::from_corners(
            self.origin.max(other.origin),
            self.bottom_right().min(other.bottom_right()),
        )
    }

    /// The smallest rectangle around both.
    pub fn union(self, other: Self) -> (r: Self)
        ensures
            r == self.union_spec(other),
    {
        Self::from_corners(
            self.origin.min(other.origin),
            self.bottom_right().max(other.bottom_right()),
        )
    }

    /// Whether there is nothing inside.
    pub fn is_empty(self) -> (r: bool)
        ensures
            r == self.is_empty_spec(),
    {
        self.size.width.at_most(T::zero()) || self.size.height.at_most(T::zero())
    }

    /// Whether the two rectangles overlap.
    pub fn intersects(self, other: Self) -> (r: bool)
        ensures
            r == self.intersects_spec(other),
    {
        let mine = self.bottom_right();
        let theirs = other.bottom_right();
        self.origin.x.less(theirs.x) && other.origin.x.less(mine.x) && self.origin.y.less(theirs.y)
            && other.origin.y.less(mine.y)
    }
}

impl<S: Scalar> Bounds<Pixels<S>> {
    pub open spec fn scale_spec(self, factor: S) -> Bounds<ScaledPixels<S>> {
        Bounds {
            origin: self.origin.scale_spec(factor),
            size: Size {
                width: self.size.width.scale_spec(factor),
                height: self.size.height.scale_spec(factor),
            },
        }
    }

    /// This rectangle on a display with the given scale factor.
    pub fn scale(self, factor: S) -> (r: Bounds<ScaledPixels<S>>)
        ensures
            r == self.scale_spec(factor),
    {
        Bounds {
            origin: self.origin.scale(factor),
            size: Size {
                width: self.size.width.scale(factor),
                height: self.size.height.scale(factor),
            },
        }
    }
}

impl<T: Coordinate> Corners<T> {
    pub open spec fn zero_spec() -> Self {
        Corners {
            top_left: T::zero_spec(),
            top_right: T::zero_spec(),
            bottom_right: T::zero_spec(),
            bottom_left: T::zero_spec(),
        }
    }

    /// Zero at each corner.
    pub fn zero() -> (r: Self)
        ensures
            r == Self::zero_spec(),
    {
        Corners {
            top_left: T::zero(),
            top_right: T::zero(),
            bottom_right: T::zero(),
            bottom_left: T::zero(),
        }
    }
}

impl<T: Coordinate> ContentMask<T> {
    pub open spec fn zero_spec() -> Self {
        ContentMask { bounds: Bounds::at_spec(Point::zero_spec()) }
    }

    /// A mask that lets nothing through.
    pub fn zero() -> (r: Self)
        ensures
            r == Self::zero_spec(),
    {
        ContentMask { bounds: Bounds::at(Point::zero()) }
    }
}

impl<S: Scalar> ContentMask<Pixels<S>> {
    pub open spec fn scale_spec(self, factor: S) -> ContentMask<ScaledPixels<S>> {
        ContentMask { bounds: self.bounds.scale_spec(factor) }
    }

    /// This mask on a display with the given scale factor.
    pub fn scale(self, factor: S) -> (r: ContentMask<ScaledPixels<S>>)
        ensures
            r == self.scale_spec(factor),
    {
        ContentMask { bounds: self.bounds.scale(factor) }
    }
}

impl<T: Coordinate> PartialEq for Point<T> {
    fn eq(&self, other: &Self) -> (r: bool) {
        self.x.same(other.x) && self.y.same(other.y)
    }
}

impl<T: Coordinate> PartialEqSpecImpl for Point<T> {
    open spec fn obeys_eq_spec() -> bool {
        true
    }

    open spec fn eq_spec(&self, other: &Self) -> bool {
        self.same_spec(*other)
    }
}

impl<T: Coordinate> PartialEq for Size<T> {
    fn eq(&self, other: &Self) -> (r: bool) {
        self.width.same(other.width) && self.height.same(other.height)
    }
}

impl<T: Coordinate> PartialEqSpecImpl for Size<T> {
    open spec fn obeys_eq_spec() -> bool {
        true
    }

    open spec fn eq_spec(&self, other: &Self) -> bool {
        self.same_spec(*other)
    }
}

impl<T: Coordinate> PartialEq for Bounds<T> {
    fn eq(&self, other: &Self) -> (r: bool) {
        self.origin == other.origin && self.size == other.size
    }
}

impl<T: Coordinate> PartialEqSpecImpl for Bounds<T> {
    open spec fn obeys_eq_spec() -> bool {
        true
    }

    open spec fn eq_spec(&self, other: &Self) -> bool {
        self.same_spec(*other)
    }
}

} // verus!
