//! What points and rectangles are for: which area a rectangle covers, and what is shared.
//!
//! These laws speak of what the functions return, whichever way they are computed.

use crate::fixed::Fixed;
use crate::geometry::{Bounds, ContentMask, Corners, Point, Size};
use crate::path_laws::is_axis;
use crate::scalar::{Coordinate, Pixels, Scalar, ScaledPixels};
use crate::whole::Whole;
use vstd::prelude::*;

verus! {

/// Whether coordinates are in one order, and differences lead back to what they were taken from.
pub open spec fn is_line<T: Coordinate>() -> bool {
    &&& forall|x: T| #[trigger] x.at_most_spec(x)
    &&& forall|x: T, y: T| #[trigger] x.less_spec(y) == !y.at_most_spec(x)
    &&& forall|x: T, y: T| #[trigger] x.at_most_spec(y) || y.at_most_spec(x)
    &&& forall|x: T, y: T, z: T| #[trigger]
        x.at_most_spec(y) && #[trigger] y.at_most_spec(z) ==> x.at_most_spec(z)
    &&& forall|x: T| #[trigger] x.plus_spec(T::zero_spec()) == x
    &&& forall|x: T, y: T| #[trigger] x.plus_spec(y.minus_spec(x)) == y
}

/// Lengths are in one order where the numbers they are made of are.
pub proof fn lengths_are_in_line<S: Scalar>()
    requires
        is_axis::<S>(),
    ensures
        is_line::<S>(),
        is_line::<Pixels<S>>(),
        is_line::<ScaledPixels<S>>(),
{
    lemma_pixels_in_line::<S>();
    lemma_scaled_pixels_in_line::<S>();
}

proof fn lemma_pixels_in_line<S: Scalar>()
    requires
        is_axis::<S>(),
    ensures
        is_line::<Pixels<S>>(),
{
    assert forall|x: Pixels<S>, y: Pixels<S>, z: Pixels<S>| #[trigger]
        x.at_most_spec(y) && #[trigger] y.at_most_spec(z) implies x.at_most_spec(z) by {
        assert(x.0.at_most_spec(y.0) && y.0.at_most_spec(z.0));
    }
    assert forall|x: Pixels<S>, y: Pixels<S>| #[trigger]
        x.plus_spec(y.minus_spec(x)) == y by {
        assert(x.0.plus_spec(y.0.minus_spec(x.0)) == y.0);
    }
}

proof fn lemma_scaled_pixels_in_line<S: Scalar>()
    requires
        is_axis::<S>(),
    ensures
        is_line::<ScaledPixels<S>>(),
{
    assert forall|x: ScaledPixels<S>, y: ScaledPixels<S>, z: ScaledPixels<S>| #[trigger]
        x.at_most_spec(y) && #[trigger] y.at_most_spec(z) implies x.at_most_spec(z) by {
        assert(x.0.at_most_spec(y.0) && y.0.at_most_spec(z.0));
    }
    assert forall|x: ScaledPixels<S>, y: ScaledPixels<S>| #[trigger]
        x.plus_spec(y.minus_spec(x)) == y by {
        assert(x.0.plus_spec(y.0.minus_spec(x.0)) == y.0);
    }
}

/// Fixed-point and whole numbers are in one order.
pub proof fn numbers_are_in_line()
    ensures
        is_line::<Fixed>(),
        is_line::<Whole>(),
{
}

/// Whether a rectangle covers the pixel that starts at a point: its near edges belong to it, its
/// far edges do not.
pub open spec fn covers<T: Coordinate>(bounds: Bounds<T>, point: Point<T>) -> bool {
    &&& bounds.origin.x.at_most_spec(point.x)
    &&& bounds.origin.y.at_most_spec(point.y)
    &&& point.x.less_spec(bounds.origin.x.plus_spec(bounds.size.width))
    &&& point.y.less_spec(bounds.origin.y.plus_spec(bounds.size.height))
}

/// Two rectangles overlap wherever something is covered by both, and two that cover anything
/// overlap nowhere else. It does not matter which of them is asked.
pub proof fn overlapping_is_sharing_area<T: Coordinate>(
    a: Bounds<T>,
    b: Bounds<T>,
    overlap: bool,
    swapped: bool,
)
    requires
        is_line::<T>(),
        call_ensures(Bounds::<T>::intersects, (a, b), overlap),
        call_ensures(Bounds::<T>::intersects, (b, a), swapped),
    ensures
        overlap == swapped,
        forall|p: Point<T>| #[trigger] covers(a, p) && #[trigger] covers(b, p) ==> overlap,
        overlap && (exists|p: Point<T>| covers(a, p)) && (exists|p: Point<T>| covers(b, p))
            ==> exists|p: Point<T>| #[trigger] covers(a, p) && covers(b, p),
{
    let (far_a, far_b) = (a.bottom_right_spec(), b.bottom_right_spec());
    assert forall|p: Point<T>| #[trigger]
        covers(a, p) && #[trigger] covers(b, p) implies overlap by {
        lemma_between(a.origin.x, p.x, far_b.x);
        lemma_between(a.origin.y, p.y, far_b.y);
        lemma_between(b.origin.x, p.x, far_a.x);
        lemma_between(b.origin.y, p.y, far_a.y);
    }
    if overlap && (exists|p: Point<T>| covers(a, p)) && (exists|p: Point<T>| covers(b, p)) {
        let p = choose|p: Point<T>| covers(a, p);
        let q = choose|q: Point<T>| covers(b, q);
        lemma_between(a.origin.x, p.x, far_a.x);
        lemma_between(a.origin.y, p.y, far_a.y);
        lemma_between(b.origin.x, q.x, far_b.x);
        lemma_between(b.origin.y, q.y, far_b.y);
        let shared = a.origin.max_spec(b.origin);
        assert(covers(a, shared) && covers(b, shared));
    }
}

/// What comes no later than something that comes before a third comes before it too.
proof fn lemma_between<T: Coordinate>(x: T, y: T, z: T)
    requires
        is_line::<T>(),
        x.at_most_spec(y),
        y.less_spec(z),
    ensures
        x.less_spec(z),
{
    if z.at_most_spec(x) {
        assert(z.at_most_spec(y));
    }
}

/// Which rectangles overlap is told by their edges alone: on both axes each starts before the other
/// ends.
pub proof fn overlapping_is_told_by_the_edges<T: Coordinate>(
    a: Bounds<T>,
    b: Bounds<T>,
    overlap: bool,
)
    requires
        call_ensures(Bounds::<T>::intersects, (a, b), overlap),
    ensures
        overlap <==> {
            &&& a.origin.x.less_spec(b.origin.x.plus_spec(b.size.width))
            &&& b.origin.x.less_spec(a.origin.x.plus_spec(a.size.width))
            &&& a.origin.y.less_spec(b.origin.y.plus_spec(b.size.height))
            &&& b.origin.y.less_spec(a.origin.y.plus_spec(a.size.height))
        },
{
}

/// The intersection covers what both cover. Its near corner is one of theirs on each axis, and so
/// is its far corner.
pub proof fn intersection_covers_what_both_cover<T: Coordinate>(
    a: Bounds<T>,
    b: Bounds<T>,
    both: Bounds<T>,
    far: Point<T>,
)
    requires
        is_line::<T>(),
        call_ensures(Bounds::<T>::intersect, (a, b), both),
        call_ensures(Bounds::<T>::bottom_right, (both,), far),
    ensures
        forall|p: Point<T>| #[trigger] covers(both, p) <==> covers(a, p) && covers(b, p),
        both.origin.x == a.origin.x || both.origin.x == b.origin.x,
        both.origin.y == a.origin.y || both.origin.y == b.origin.y,
        a.origin.x.at_most_spec(both.origin.x) && b.origin.x.at_most_spec(both.origin.x),
        a.origin.y.at_most_spec(both.origin.y) && b.origin.y.at_most_spec(both.origin.y),
        far.x == a.origin.x.plus_spec(a.size.width) || far.x == b.origin.x.plus_spec(b.size.width),
        far.y == a.origin.y.plus_spec(a.size.height) || far.y == b.origin.y.plus_spec(
            b.size.height,
        ),
        far.x.at_most_spec(a.origin.x.plus_spec(a.size.width)),
        far.x.at_most_spec(b.origin.x.plus_spec(b.size.width)),
        far.y.at_most_spec(a.origin.y.plus_spec(a.size.height)),
        far.y.at_most_spec(b.origin.y.plus_spec(b.size.height)),
{
    let (far_a, far_b) = (a.bottom_right_spec(), b.bottom_right_spec());
    assert(both.origin == a.origin.max_spec(b.origin));
    assert(far == far_a.min_spec(far_b));
    assert forall|p: Point<T>| #[trigger] covers(both, p) <==> covers(a, p) && covers(b, p) by {
        lemma_intersection_covers(a, b, p);
    }
}

pub(crate) proof fn lemma_intersection_covers<T: Coordinate>(
    a: Bounds<T>,
    b: Bounds<T>,
    p: Point<T>,
)
    requires
        is_line::<T>(),
    ensures
        covers(a.intersect_spec(b), p) <==> covers(a, p) && covers(b, p),
{
    let (far_a, far_b) = (a.bottom_right_spec(), b.bottom_right_spec());
    let both = a.intersect_spec(b);
    assert(both.origin == a.origin.max_spec(b.origin));
    assert(both.bottom_right_spec() == far_a.min_spec(far_b));
    lemma_clipped_axis(a.origin.x, far_a.x, b.origin.x, far_b.x, p.x);
    lemma_clipped_axis(a.origin.y, far_a.y, b.origin.y, far_b.y, p.y);
}

/// One axis of an intersection.
proof fn lemma_clipped_axis<T: Coordinate>(near_a: T, far_a: T, near_b: T, far_b: T, x: T)
    requires
        is_line::<T>(),
    ensures
        ({
            let near = if near_b.less_spec(near_a) {
                near_a
            } else {
                near_b
            };
            let far = if far_a.at_most_spec(far_b) {
                far_a
            } else {
                far_b
            };
            near.at_most_spec(x) && x.less_spec(far) <==> near_a.at_most_spec(x)
                && near_b.at_most_spec(x) && x.less_spec(far_a) && x.less_spec(far_b)
        }),
{
    assert(near_b.less_spec(near_a) == !near_a.at_most_spec(near_b));
    assert(near_a.at_most_spec(near_b) || near_b.at_most_spec(near_a));
    assert(far_a.at_most_spec(far_b) || far_b.at_most_spec(far_a));
    assert(x.less_spec(far_a) == !far_a.at_most_spec(x));
    assert(x.less_spec(far_b) == !far_b.at_most_spec(x));
    if near_a.at_most_spec(near_b) && near_b.at_most_spec(x) {
        assert(near_a.at_most_spec(x));
    }
    if near_b.at_most_spec(near_a) && near_a.at_most_spec(x) {
        assert(near_b.at_most_spec(x));
    }
    if far_a.at_most_spec(far_b) && far_b.at_most_spec(x) {
        assert(far_a.at_most_spec(x));
    }
    if far_b.at_most_spec(far_a) && far_a.at_most_spec(x) {
        assert(far_b.at_most_spec(x));
    }
}

/// The union encloses both, and every rectangle that encloses both encloses it.
pub proof fn union_is_the_smallest_around_both<T: Coordinate>(
    a: Bounds<T>,
    b: Bounds<T>,
    around: Bounds<T>,
    far: Point<T>,
    other: Bounds<T>,
)
    requires
        is_line::<T>(),
        call_ensures(Bounds::<T>::union, (a, b), around),
        call_ensures(Bounds::<T>::bottom_right, (around,), far),
    ensures
        around.origin.x.at_most_spec(a.origin.x) && around.origin.x.at_most_spec(b.origin.x),
        around.origin.y.at_most_spec(a.origin.y) && around.origin.y.at_most_spec(b.origin.y),
        a.origin.x.plus_spec(a.size.width).at_most_spec(far.x),
        b.origin.x.plus_spec(b.size.width).at_most_spec(far.x),
        a.origin.y.plus_spec(a.size.height).at_most_spec(far.y),
        b.origin.y.plus_spec(b.size.height).at_most_spec(far.y),
        around.origin.x == a.origin.x || around.origin.x == b.origin.x,
        around.origin.y == a.origin.y || around.origin.y == b.origin.y,
        far.x == a.origin.x.plus_spec(a.size.width) || far.x == b.origin.x.plus_spec(b.size.width),
        far.y == a.origin.y.plus_spec(a.size.height) || far.y == b.origin.y.plus_spec(
            b.size.height,
        ),
        other.encloses(a) && other.encloses(b) ==> other.encloses(around),
{
    let (far_a, far_b) = (a.bottom_right_spec(), b.bottom_right_spec());
    assert(around.origin == a.origin.min_spec(b.origin));
    assert(far == far_a.max_spec(far_b));
}

/// A rectangle between two corners has those corners.
pub proof fn corners_come_back<T: Coordinate>(
    near: Point<T>,
    far: Point<T>,
    between: Bounds<T>,
    corner: Point<T>,
)
    requires
        is_line::<T>(),
        call_ensures(Bounds::<T>::from_corners, (near, far), between),
        call_ensures(Bounds::<T>::bottom_right, (between,), corner),
    ensures
        between.origin == near,
        corner == far,
        between.size.width == far.x.minus_spec(near.x),
        between.size.height == far.y.minus_spec(near.y),
{
}

/// The far corner is as far from the near one as the rectangle is large.
pub proof fn far_corner_is_one_size_away<T: Coordinate>(bounds: Bounds<T>, corner: Point<T>)
    requires
        call_ensures(Bounds::<T>::bottom_right, (bounds,), corner),
    ensures
        corner.x == bounds.origin.x.plus_spec(bounds.size.width),
        corner.y == bounds.origin.y.plus_spec(bounds.size.height),
{
}

/// A rectangle is empty exactly where it is not above zero in both directions.
pub proof fn empty_is_without_extent<T: Coordinate>(bounds: Bounds<T>, empty: bool)
    requires
        call_ensures(Bounds::<T>::is_empty, (bounds,), empty),
    ensures
        empty <==> bounds.size.width.at_most_spec(T::zero_spec())
            || bounds.size.height.at_most_spec(T::zero_spec()),
        is_line::<T>() ==> (!empty <==> T::zero_spec().less_spec(bounds.size.width)
            && T::zero_spec().less_spec(bounds.size.height)),
{
}

/// A rectangle at a point is there, covers nothing, and is empty.
pub proof fn rectangle_at_a_point_covers_nothing<T: Coordinate>(
    origin: Point<T>,
    bounds: Bounds<T>,
    corner: Point<T>,
    empty: bool,
)
    requires
        is_line::<T>(),
        call_ensures(Bounds::<T>::at, (origin,), bounds),
        call_ensures(Bounds::<T>::bottom_right, (bounds,), corner),
        call_ensures(Bounds::<T>::is_empty, (bounds,), empty),
    ensures
        bounds.origin == origin,
        bounds.size.width == T::zero_spec() && bounds.size.height == T::zero_spec(),
        corner == origin,
        empty,
        forall|p: Point<T>| !#[trigger] covers(bounds, p),
{
    assert forall|p: Point<T>| !#[trigger] covers(bounds, p) by {
        assert(p.x.less_spec(origin.x) == !origin.x.at_most_spec(p.x));
    }
}

/// The intersection lies between the inner corners of both, and the union between the outer ones.
pub proof fn intersection_and_union_lie_between_corners<T: Coordinate>(
    a: Bounds<T>,
    b: Bounds<T>,
    corners: (Point<T>, Point<T>),
    inner: (Point<T>, Point<T>),
    outer: (Point<T>, Point<T>),
    between: (Bounds<T>, Bounds<T>),
    both: Bounds<T>,
    around: Bounds<T>,
)
    requires
        call_ensures(Bounds::<T>::bottom_right, (a,), corners.0),
        call_ensures(Bounds::<T>::bottom_right, (b,), corners.1),
        call_ensures(Point::<T>::max, (a.origin, b.origin), inner.0),
        call_ensures(Point::<T>::min, corners, inner.1),
        call_ensures(Point::<T>::min, (a.origin, b.origin), outer.0),
        call_ensures(Point::<T>::max, corners, outer.1),
        call_ensures(Bounds::<T>::from_corners, inner, between.0),
        call_ensures(Bounds::<T>::from_corners, outer, between.1),
        call_ensures(Bounds::<T>::intersect, (a, b), both),
        call_ensures(Bounds::<T>::union, (a, b), around),
    ensures
        both == between.0,
        around == between.1,
{
}

/// Points are moved, joined and parted on each axis on its own.
pub proof fn points_work_axis_by_axis<T: Coordinate>(
    a: Point<T>,
    b: Point<T>,
    zero: Point<T>,
    sum: Point<T>,
    high: Point<T>,
    low: Point<T>,
)
    requires
        call_ensures(Point::<T>::zero, (), zero),
        call_ensures(Point::<T>::plus, (a, b), sum),
        call_ensures(Point::<T>::max, (a, b), high),
        call_ensures(Point::<T>::min, (a, b), low),
    ensures
        zero.x == T::zero_spec() && zero.y == T::zero_spec(),
        sum.x == a.x.plus_spec(b.x) && sum.y == a.y.plus_spec(b.y),
        high.x == a.x || high.x == b.x,
        high.y == a.y || high.y == b.y,
        low.x == a.x || low.x == b.x,
        low.y == a.y || low.y == b.y,
        b.x.less_spec(a.x) ==> high.x == a.x,
        !b.x.less_spec(a.x) ==> high.x == b.x,
        b.y.less_spec(a.y) ==> high.y == a.y,
        !b.y.less_spec(a.y) ==> high.y == b.y,
        a.x.at_most_spec(b.x) ==> low.x == a.x,
        !a.x.at_most_spec(b.x) ==> low.x == b.x,
        a.y.at_most_spec(b.y) ==> low.y == a.y,
        !a.y.at_most_spec(b.y) ==> low.y == b.y,
        is_line::<T>() ==> {
            &&& a.x.at_most_spec(high.x) && b.x.at_most_spec(high.x)
            &&& a.y.at_most_spec(high.y) && b.y.at_most_spec(high.y)
            &&& low.x.at_most_spec(a.x) && low.x.at_most_spec(b.x)
            &&& low.y.at_most_spec(a.y) && low.y.at_most_spec(b.y)
        },
{
}

/// Zero is zero at every corner, and a zero mask is empty at the origin.
pub proof fn zero_is_zero_everywhere<T: Coordinate>(corners: Corners<T>, mask: ContentMask<T>)
    requires
        call_ensures(Corners::<T>::zero, (), corners),
        call_ensures(ContentMask::<T>::zero, (), mask),
    ensures
        corners.top_left == T::zero_spec() && corners.top_right == T::zero_spec(),
        corners.bottom_right == T::zero_spec() && corners.bottom_left == T::zero_spec(),
        mask.bounds.origin.x == T::zero_spec() && mask.bounds.origin.y == T::zero_spec(),
        mask.bounds.size.width == T::zero_spec() && mask.bounds.size.height == T::zero_spec(),
{
}

/// On a display every coordinate is multiplied by the scale factor.
pub proof fn displays_scale_every_coordinate<S: Scalar>(
    length: Pixels<S>,
    point: Point<Pixels<S>>,
    bounds: Bounds<Pixels<S>>,
    mask: ContentMask<Pixels<S>>,
    factor: S,
    scaled: (ScaledPixels<S>, Point<ScaledPixels<S>>),
    rectangles: (Bounds<ScaledPixels<S>>, ContentMask<ScaledPixels<S>>),
)
    requires
        call_ensures(Pixels::<S>::scale, (length, factor), scaled.0),
        call_ensures(Point::<Pixels<S>>::scale, (point, factor), scaled.1),
        call_ensures(Bounds::<Pixels<S>>::scale, (bounds, factor), rectangles.0),
        call_ensures(ContentMask::<Pixels<S>>::scale, (mask, factor), rectangles.1),
    ensures
        scaled.0.0 == length.0.times_spec(factor),
        scaled.1.x.0 == point.x.0.times_spec(factor),
        scaled.1.y.0 == point.y.0.times_spec(factor),
        rectangles.0.origin.x.0 == bounds.origin.x.0.times_spec(factor),
        rectangles.0.origin.y.0 == bounds.origin.y.0.times_spec(factor),
        rectangles.0.size.width.0 == bounds.size.width.0.times_spec(factor),
        rectangles.0.size.height.0 == bounds.size.height.0.times_spec(factor),
        mask.bounds == bounds ==> rectangles.1.bounds == rectangles.0,
{
}

/// Points, sizes and rectangles compare equal exactly where all their coordinates do.
pub proof fn equal_is_equal_in_every_coordinate<T: Coordinate>(
    a: Bounds<T>,
    b: Bounds<T>,
    points: bool,
    sizes: bool,
    rectangles: bool,
)
    requires
        call_ensures(<Point<T> as PartialEq>::eq, (&a.origin, &b.origin), points),
        call_ensures(<Size<T> as PartialEq>::eq, (&a.size, &b.size), sizes),
        call_ensures(<Bounds<T> as PartialEq>::eq, (&a, &b), rectangles),
    ensures
        points <==> a.origin.x.same_spec(b.origin.x) && a.origin.y.same_spec(b.origin.y),
        sizes <==> a.size.width.same_spec(b.size.width) && a.size.height.same_spec(b.size.height),
        rectangles <==> points && sizes,
{
}

/// Where something is covered by two rectangles, they overlap.
pub(crate) proof fn lemma_shared_point<T: Coordinate>(a: Bounds<T>, b: Bounds<T>, point: Point<T>)
    requires
        is_line::<T>(),
        covers(a, point),
        covers(b, point),
    ensures
        a.intersects_spec(b),
{
    let (p, q) = (a.bottom_right_spec(), b.bottom_right_spec());
    assert(q.x.at_most_spec(a.origin.x) ==> q.x.at_most_spec(point.x));
    assert(p.x.at_most_spec(b.origin.x) ==> p.x.at_most_spec(point.x));
    assert(q.y.at_most_spec(a.origin.y) ==> q.y.at_most_spec(point.y));
    assert(p.y.at_most_spec(b.origin.y) ==> p.y.at_most_spec(point.y));
}

} // verus!
