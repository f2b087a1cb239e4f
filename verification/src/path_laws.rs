//! The bounds of a path hold the path.

use crate::fixed::Fixed;
use crate::geometry::{Bounds, Point};
use crate::path::{curve_st, filled_st, PathView, TriangleSt, TriangleXy};
use crate::scalar::{Coordinate, Pixels, Scalar};
use crate::whole::Whole;
use vstd::prelude::*;

verus! {

/// Whether numbers are in one order, and differences lead back to what they were taken from.
pub open spec fn is_axis<S: Scalar>() -> bool {
    &&& forall|x: S| #[trigger] x.at_most_spec(x)
    &&& forall|x: S, y: S| #[trigger] x.less_spec(y) == !y.at_most_spec(x)
    &&& forall|x: S, y: S| #[trigger] x.at_most_spec(y) || y.at_most_spec(x)
    &&& forall|x: S, y: S, z: S| #[trigger]
        x.at_most_spec(y) && #[trigger] y.at_most_spec(z) ==> x.at_most_spec(z)
    &&& forall|x: S| #[trigger] x.plus_spec(S::zero_spec()) == x
    &&& forall|x: S, y: S| #[trigger] x.plus_spec(y.minus_spec(x)) == y
}

/// Fixed-point numbers make an axis.
pub proof fn fixed_point_is_axis()
    ensures
        is_axis::<Fixed>(),
{
}

/// Whole numbers make an axis.
pub proof fn whole_numbers_are_axis()
    ensures
        is_axis::<Whole>(),
{
}

/// The union with a point is the smallest rectangle that encloses the other and holds the point.
proof fn lemma_union_with_point<S: Scalar>(bounds: Bounds<Pixels<S>>, point: Point<Pixels<S>>)
    requires
        is_axis::<S>(),
    ensures
        ({
            let both = bounds.union_spec(Bounds::at_spec(point));
            &&& both.encloses(bounds)
            &&& both.holds(point)
            &&& forall|other: Bounds<Pixels<S>>|
                #![trigger other.encloses(bounds)]
                other.encloses(bounds) && other.holds(point) ==> other.encloses(both)
        }),
{
    let both = bounds.union_spec(Bounds::at_spec(point));
    let (near, far) = (
        bounds.origin.min_spec(point),
        bounds.bottom_right_spec().max_spec(point),
    );
    assert(Bounds::at_spec(point).bottom_right_spec() == point);
    assert(both.origin == near);
    assert(both.bottom_right_spec() == far);
}

proof fn lemma_encloses_on<S: Scalar>(
    a: Bounds<Pixels<S>>,
    b: Bounds<Pixels<S>>,
    c: Bounds<Pixels<S>>,
)
    requires
        is_axis::<S>(),
        a.encloses(b),
        b.encloses(c),
    ensures
        a.encloses(c),
{
    let (x, y, z) = (a.bottom_right_spec(), b.bottom_right_spec(), c.bottom_right_spec());
    assert(a.origin.x.0.at_most_spec(b.origin.x.0) && b.origin.x.0.at_most_spec(c.origin.x.0));
    assert(a.origin.y.0.at_most_spec(b.origin.y.0) && b.origin.y.0.at_most_spec(c.origin.y.0));
    assert(z.x.0.at_most_spec(y.x.0) && y.x.0.at_most_spec(x.x.0));
    assert(z.y.0.at_most_spec(y.y.0) && y.y.0.at_most_spec(x.y.0));
}

/// What encloses another holds as much.
proof fn lemma_encloses_holds<S: Scalar>(
    a: Bounds<Pixels<S>>,
    b: Bounds<Pixels<S>>,
    point: Point<Pixels<S>>,
)
    requires
        is_axis::<S>(),
        a.encloses(b),
        b.holds(point),
    ensures
        a.holds(point),
{
    let (x, y) = (a.bottom_right_spec(), b.bottom_right_spec());
    assert(a.origin.x.0.at_most_spec(b.origin.x.0) && b.origin.x.0.at_most_spec(point.x.0));
    assert(a.origin.y.0.at_most_spec(b.origin.y.0) && b.origin.y.0.at_most_spec(point.y.0));
    assert(point.x.0.at_most_spec(y.x.0) && y.x.0.at_most_spec(x.x.0));
    assert(point.y.0.at_most_spec(y.y.0) && y.y.0.at_most_spec(x.y.0));
}

/// A triangle widens the bounds to the smallest rectangle that encloses them and holds its corners.
pub proof fn triangle_widens_the_bounds<S: Scalar>(
    path: PathView<Pixels<S>, S>,
    xy: TriangleXy<S>,
    st: TriangleSt<S>,
)
    requires
        is_axis::<S>(),
    ensures
        ({
            let bounds = path.push_triangle(xy, st).bounds;
            &&& bounds.encloses(path.bounds)
            &&& bounds.holds(xy.0)
            &&& bounds.holds(xy.1)
            &&& bounds.holds(xy.2)
            &&& forall|other: Bounds<Pixels<S>>|
                #![trigger other.encloses(path.bounds)]
                other.encloses(path.bounds) && other.holds(xy.0) && other.holds(xy.1)
                    && other.holds(xy.2) ==> other.encloses(bounds)
        }),
{
    let zero = path.bounds;
    let one = zero.union_spec(Bounds::at_spec(xy.0));
    let two = one.union_spec(Bounds::at_spec(xy.1));
    let three = two.union_spec(Bounds::at_spec(xy.2));
    lemma_union_with_point(zero, xy.0);
    lemma_union_with_point(one, xy.1);
    lemma_union_with_point(two, xy.2);
    lemma_encloses_on(three, two, one);
    lemma_encloses_on(three, one, zero);
    lemma_encloses_holds(three, two, xy.1);
    lemma_encloses_holds(three, one, xy.0);
}

impl<S: Scalar> PathView<Pixels<S>, S> {
    /// Whether the path is made of triangles, all of them within its bounds.
    pub open spec fn is_within_bounds(self) -> bool {
        &&& self.vertices.len() % 3 == 0
        &&& forall|i: int|
            0 <= i < self.vertices.len() ==> self.bounds.holds(
                (#[trigger] self.vertices[i]).xy_position,
            )
    }
}

/// A new path lies within its bounds.
pub proof fn new_path_is_within_bounds<S: Scalar>(start: Point<Pixels<S>>)
    ensures
        PathView::<Pixels<S>, S>::new(start).is_within_bounds(),
{
}

/// A triangle keeps a path within its bounds, and leaves all but the bounds and the vertices alone.
pub proof fn triangle_keeps_path_within_bounds<S: Scalar>(
    path: PathView<Pixels<S>, S>,
    xy: TriangleXy<S>,
    st: TriangleSt<S>,
)
    requires
        is_axis::<S>(),
        path.is_within_bounds(),
    ensures
        path.push_triangle(xy, st).is_within_bounds(),
        path.push_triangle(xy, st) == (PathView {
            bounds: path.push_triangle(xy, st).bounds,
            vertices: path.push_triangle(xy, st).vertices,
            ..path
        }),
{
    let after = path.push_triangle(xy, st);
    triangle_widens_the_bounds(path, xy, st);
    let n = path.vertices.len() as int;
    assert forall|i: int| 0 <= i < after.vertices.len() implies after.bounds.holds(
        (#[trigger] after.vertices[i]).xy_position,
    ) by {
        if i < n {
            assert(after.vertices[i] == path.vertices[i]);
            lemma_encloses_holds(after.bounds, path.bounds, path.vertices[i].xy_position);
        }
    }
}

/// Lines and curves keep a path within its bounds.
pub proof fn drawing_keeps_path_within_bounds<S: Scalar>(
    path: PathView<Pixels<S>, S>,
    to: Point<Pixels<S>>,
    ctrl: Point<Pixels<S>>,
)
    requires
        is_axis::<S>(),
        path.is_within_bounds(),
    ensures
        path.move_to(to).is_within_bounds(),
        path.line_to(to).is_within_bounds(),
        path.curve_to(to, ctrl).is_within_bounds(),
{
    triangle_keeps_path_within_bounds(
        path,
        (path.start, path.current, to),
        filled_st(),
    );
    triangle_keeps_path_within_bounds(
        path.fan(to),
        (path.current, ctrl, to),
        curve_st(),
    );
}

} // verus!
