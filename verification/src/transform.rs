//! Two-dimensional affine transformations.

use crate::geometry::{Point, Size};
use crate::scalar::{Coordinate, Pixels, Scalar, ScaledPixels};
use vstd::prelude::*;
use vstd::std_specs::cmp::PartialEqSpecImpl;

verus! {

/// A two dimensional transformation that can be applied to an element.
#[derive(Clone, Copy, Debug)]
pub struct TransformationMatrix<S> {
    /// 2x2 matrix containing rotation and scale, stored row-major.
    pub rotation_scale: [[S; 2]; 2],
    /// Translation vector.
    pub translation: [S; 2],
}

impl<S: Scalar> TransformationMatrix<S> {
    pub open spec fn unit_spec() -> Self {
        TransformationMatrix {
            rotation_scale: [[S::one_spec(), S::zero_spec()], [S::zero_spec(), S::one_spec()]],
            translation: [S::zero_spec(), S::zero_spec()],
        }
    }

    pub open spec fn same_spec(self, other: Self) -> bool {
        &&& self.rotation_scale[0][0].same_spec(other.rotation_scale[0][0])
        &&& self.rotation_scale[0][1].same_spec(other.rotation_scale[0][1])
        &&& self.rotation_scale[1][0].same_spec(other.rotation_scale[1][0])
        &&& self.rotation_scale[1][1].same_spec(other.rotation_scale[1][1])
        &&& self.translation[0].same_spec(other.translation[0])
        &&& self.translation[1].same_spec(other.translation[1])
    }

    /// The entry of the product of the two 2x2 matrices in row `i` and column `j`.
    pub open spec fn product_spec(self, other: Self, i: int, j: int) -> S {
        self.rotation_scale[i][0].times_spec(other.rotation_scale[0][j]).plus_spec(
            self.rotation_scale[i][1].times_spec(other.rotation_scale[1][j]),
        )
    }

    /// Where `(x, y)` goes, on axis `i`.
    pub open spec fn moved_spec(self, x: S, y: S, i: int) -> S {
        self.translation[i].plus_spec(self.rotation_scale[i][0].times_spec(x)).plus_spec(
            self.rotation_scale[i][1].times_spec(y),
        )
    }

    pub open spec fn compose_spec(self, other: Self) -> Self {
        if other.same_spec(Self::unit_spec()) {
            self
        } else {
            TransformationMatrix {
                rotation_scale: [
                    [self.product_spec(other, 0, 0), self.product_spec(other, 0, 1)],
                    [self.product_spec(other, 1, 0), self.product_spec(other, 1, 1)],
                ],
                translation: [
                    self.moved_spec(other.translation[0], other.translation[1], 0),
                    self.moved_spec(other.translation[0], other.translation[1], 1),
                ],
            }
        }
    }

    /// The unit matrix, has no effect.
    pub fn unit() -> (r: Self)
        ensures
            r == Self::unit_spec(),
    {
        TransformationMatrix {
            rotation_scale: [[S::one(), S::zero()], [S::zero(), S::one()]],
            translation: [S::zero(), S::zero()],
        }
    }

    /// Move the origin by a given point.
    pub fn translate(self, point: Point<ScaledPixels<S>>) -> (r: Self)
        ensures
            r == self.compose_spec(
                TransformationMatrix {
                    rotation_scale: Self::unit_spec().rotation_scale,
                    translation: [point.x.0, point.y.0],
                },
            ),
    {
        self.compose(
            TransformationMatrix {
                rotation_scale: [[S::one(), S::zero()], [S::zero(), S::one()]],
                translation: [point.x.0, point.y.0],
            },
        )
    }

    /// Clockwise rotation around the origin, by the angle with the given cosine and sine.
    pub fn rotate(self, cos: S, sin: S) -> (r: Self)
        ensures
            r == self.compose_spec(
                TransformationMatrix {
                    rotation_scale: [[cos, sin.negate_spec()], [sin, cos]],
                    translation: [S::zero_spec(), S::zero_spec()],
                },
            ),
    {
        self.compose(
            TransformationMatrix {
                rotation_scale: [[cos, sin.negate()], [sin, cos]],
                translation: [S::zero(), S::zero()],
            },
        )
    }

    /// Scale around the origin.
    pub fn scale(self, size: Size<S>) -> (r: Self)
        ensures
            r == self.compose_spec(
                TransformationMatrix {
                    rotation_scale: [[size.width, S::zero_spec()], [S::zero_spec(), size.height]],
                    translation: [S::zero_spec(), S::zero_spec()],
                },
            ),
    {
        self.compose(
            TransformationMatrix {
                rotation_scale: [[size.width, S::zero()], [S::zero(), size.height]],
                translation: [S::zero(), S::zero()],
            },
        )
    }

    /// Perform matrix multiplication with another transformation to produce a new transformation
    /// that is the result of applying both transformations: first, `other`, then `self`.
    pub fn compose(self, other: TransformationMatrix<S>) -> (r: TransformationMatrix<S>)
        ensures
            r == self.compose_spec(other),
    {
        if other == Self::unit() {
            return self;
        }
        let (a, b) = (self.rotation_scale, other.rotation_scale);
        let t = other.translation;
        TransformationMatrix {
            rotation_scale: [
                [
                    a[0][0].times(b[0][0]).plus(a[0][1].times(b[1][0])),
                    a[0][0].times(b[0][1]).plus(a[0][1].times(b[1][1])),
                ],
                [
                    a[1][0].times(b[0][0]).plus(a[1][1].times(b[1][0])),
                    a[1][0].times(b[0][1]).plus(a[1][1].times(b[1][1])),
                ],
            ],
            translation: [
                self.translation[0].plus(a[0][0].times(t[0])).plus(a[0][1].times(t[1])),
                self.translation[1].plus(a[1][0].times(t[0])).plus(a[1][1].times(t[1])),
            ],
        }
    }

    /// Apply transformation to a point, mainly useful for debugging.
    pub fn apply(&self, point: Point<Pixels<S>>) -> (r: Point<Pixels<S>>)
        ensures
            r.x.0 == self.moved_spec(point.x.0, point.y.0, 0),
            r.y.0 == self.moved_spec(point.x.0, point.y.0, 1),
    {
        let (x, y) = (point.x.0, point.y.0);
        let m = self.rotation_scale;
        Point {
            x: Pixels(self.translation[0].plus(m[0][0].times(x)).plus(m[0][1].times(y))),
            y: Pixels(self.translation[1].plus(m[1][0].times(x)).plus(m[1][1].times(y))),
        }
    }

    /// The unit matrix has no effect: composing with it changes nothing.
    pub proof fn unit_has_no_effect(self)
        requires
            S::zero_spec().same_spec(S::zero_spec()),
            S::one_spec().same_spec(S::one_spec()),
        ensures
            self.compose_spec(Self::unit_spec()) == self,
    {
    }
}

impl<S: Scalar> Default for TransformationMatrix<S> {
    fn default() -> (r: Self)
        ensures
            r == Self::unit_spec(),
    {
        Self::unit()
    }
}

impl<S: Scalar> PartialEq for TransformationMatrix<S> {
    fn eq(&self, other: &Self) -> (r: bool) {
        let (a, b) = (self.rotation_scale, other.rotation_scale);
        a[0][0].same(b[0][0]) && a[0][1].same(b[0][1]) && a[1][0].same(b[1][0]) && a[1][1].same(
            b[1][1],
        ) && self.translation[0].same(other.translation[0]) && self.translation[1].same(
            other.translation[1],
        )
    }
}

impl<S: Scalar> Eq for TransformationMatrix<S> {

}

impl<S: Scalar> PartialEqSpecImpl for TransformationMatrix<S> {
    open spec fn obeys_eq_spec() -> bool {
        true
    }

    open spec fn eq_spec(&self, other: &Self) -> bool {
        self.same_spec(*other)
    }
}

} // verus!
