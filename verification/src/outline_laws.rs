//! What each step of the pen leaves in a path.

use crate::color::{Background, BackgroundTag, ColorSpace, Hsla};
use crate::geometry::{Bounds, Point};
use crate::path::{Path, PathVertex, TriangleSt, TriangleXy};
use crate::scalar::{Coordinate, Pixels, Scalar, ScaledPixels};
use vstd::prelude::*;

verus! {

/// Whether three vertices stand at the given corners, in that order.
pub open spec fn stand_at<S: Scalar>(
    vertices: Seq<PathVertex<Pixels<S>, S>>,
    at: int,
    a: Point<Pixels<S>>,
    b: Point<Pixels<S>>,
    c: Point<Pixels<S>>,
) -> bool {
    &&& vertices[at].xy_position == a
    &&& vertices[at + 1].xy_position == b
    &&& vertices[at + 2].xy_position == c
}

/// Whether all of a triangle is filled: the curve coordinates of its corners are zero and one.
pub open spec fn is_filled<S: Scalar>(vertices: Seq<PathVertex<Pixels<S>, S>>, at: int) -> bool {
    forall|i: int|
        at <= i < at + 3 ==> (#[trigger] vertices[i]).st_position.x == S::zero_spec()
            && vertices[i].st_position.y == S::one_spec()
}

/// Whether a triangle is filled up to a quadratic curve: its corners have the curve coordinates
/// zero and zero, one half and zero, one and one.
pub open spec fn is_curved<S: Scalar>(vertices: Seq<PathVertex<Pixels<S>, S>>, at: int) -> bool {
    &&& vertices[at].st_position.x == S::zero_spec()
    &&& vertices[at].st_position.y == S::zero_spec()
    &&& vertices[at + 1].st_position.x == S::half_spec()
    &&& vertices[at + 1].st_position.y == S::zero_spec()
    &&& vertices[at + 2].st_position.x == S::one_spec()
    &&& vertices[at + 2].st_position.y == S::one_spec()
}

/// A line leaves a filled triangle between the start of the contour, where the pen was, and where
/// it goes, after every vertex that was there before. The first step of a path leaves none.
pub proof fn line_fills_from_the_start<S: Scalar>(
    path: &mut Path<Pixels<S>, S>,
    to: Point<Pixels<S>>,
)
    requires
        call_ensures(Path::<Pixels<S>, S>::line_to, (path, to), ()),
        old(path).contour_count < usize::MAX,
    ensures
        old(path).contour_count == 0 ==> {
            &&& final(path).vertices@ == old(path).vertices@
            &&& final(path).bounds == old(path).bounds
        },
        old(path).contour_count > 0 ==> {
            let n = old(path).vertices@.len() as int;
            &&& final(path).vertices@.len() == n + 3
            &&& forall|i: int|
                0 <= i < n ==> #[trigger] final(path).vertices@[i] == old(path).vertices@[i]
            &&& stand_at(final(path).vertices@, n, old(path).start, old(path).current, to)
            &&& is_filled(final(path).vertices@, n)
        },
        final(path).current == to,
        final(path).start == old(path).start,
        final(path).contour_count == old(path).contour_count + 1,
        final(path).id == old(path).id,
        final(path).order == old(path).order,
        final(path).content_mask == old(path).content_mask,
        final(path).color == old(path).color,
{
}

/// A curve leaves what a line to its end leaves, and then a triangle between where the pen was, the
/// control point and its end, filled up to the curve.
pub proof fn curve_fills_like_a_line_and_its_bulge<S: Scalar>(
    path: &mut Path<Pixels<S>, S>,
    straight: &mut Path<Pixels<S>, S>,
    to: Point<Pixels<S>>,
    ctrl: Point<Pixels<S>>,
)
    requires
        call_ensures(Path::<Pixels<S>, S>::curve_to, (path, to, ctrl), ()),
        call_ensures(Path::<Pixels<S>, S>::line_to, (straight, to), ()),
        *old(path) == *old(straight),
        old(path).contour_count < usize::MAX,
    ensures
        ({
            let n = final(straight).vertices@.len() as int;
            &&& final(path).vertices@.len() == n + 3
            &&& forall|i: int|
                0 <= i < n ==> #[trigger] final(path).vertices@[i] == final(straight).vertices@[i]
            &&& stand_at(final(path).vertices@, n, old(path).current, ctrl, to)
            &&& is_curved(final(path).vertices@, n)
        }),
        final(path).current == to,
        final(path).start == old(path).start,
        final(path).contour_count == old(path).contour_count + 1,
        final(path).id == old(path).id,
        final(path).order == old(path).order,
        final(path).content_mask == old(path).content_mask,
        final(path).color == old(path).color,
{
}

/// A curve to `to` leaves a filled triangle between the start of the contour, where the pen was and
/// `to`, unless it is the first step; the control point lies in no other triangle than the last.
pub proof fn curve_fills_from_the_start<S: Scalar>(
    path: &mut Path<Pixels<S>, S>,
    to: Point<Pixels<S>>,
    ctrl: Point<Pixels<S>>,
)
    requires
        call_ensures(Path::<Pixels<S>, S>::curve_to, (path, to, ctrl), ()),
        old(path).contour_count < usize::MAX,
    ensures
        ({
            let n = old(path).vertices@.len() as int;
            let filled: int = if old(path).contour_count == 0 {
                0
            } else {
                3
            };
            &&& final(path).vertices@.len() == n + filled + 3
            &&& forall|i: int|
                0 <= i < n ==> #[trigger] final(path).vertices@[i] == old(path).vertices@[i]
            &&& filled == 3 ==> stand_at(
                final(path).vertices@,
                n,
                old(path).start,
                old(path).current,
                to,
            ) && is_filled(final(path).vertices@, n)
            &&& stand_at(final(path).vertices@, n + filled, old(path).current, ctrl, to)
            &&& is_curved(final(path).vertices@, n + filled)
        }),
{
}

/// A move begins a contour: it leaves no triangle, and what comes next starts at the new point.
pub proof fn move_begins_a_contour<S: Scalar>(
    path: &mut Path<Pixels<S>, S>,
    to: Point<Pixels<S>>,
)
    requires
        call_ensures(Path::<Pixels<S>, S>::move_to, (path, to), ()),
        old(path).contour_count < usize::MAX,
    ensures
        final(path).start == to,
        final(path).current == to,
        final(path).contour_count == old(path).contour_count + 1,
        final(path).vertices@ == old(path).vertices@,
        final(path).bounds == old(path).bounds,
        final(path).id == old(path).id,
        final(path).order == old(path).order,
        final(path).content_mask == old(path).content_mask,
        final(path).color == old(path).color,
{
}

/// A triangle adds its three corners, with empty masks, after what was there, and widens the bounds
/// by each of them in turn. The pen stays where it is.
pub proof fn triangle_adds_its_corners<S: Scalar>(
    path: &mut Path<Pixels<S>, S>,
    xy: TriangleXy<S>,
    st: TriangleSt<S>,
    at: (Bounds<Pixels<S>>, Bounds<Pixels<S>>, Bounds<Pixels<S>>),
    wider: (Bounds<Pixels<S>>, Bounds<Pixels<S>>, Bounds<Pixels<S>>),
)
    requires
        call_ensures(Path::<Pixels<S>, S>::push_triangle, (path, xy, st), ()),
        call_ensures(Bounds::<Pixels<S>>::at, (xy.0,), at.0),
        call_ensures(Bounds::<Pixels<S>>::at, (xy.1,), at.1),
        call_ensures(Bounds::<Pixels<S>>::at, (xy.2,), at.2),
        call_ensures(Bounds::<Pixels<S>>::union, (old(path).bounds, at.0), wider.0),
        call_ensures(Bounds::<Pixels<S>>::union, (wider.0, at.1), wider.1),
        call_ensures(Bounds::<Pixels<S>>::union, (wider.1, at.2), wider.2),
    ensures
        ({
            let n = old(path).vertices@.len() as int;
            let after = final(path).vertices@;
            &&& after.len() == n + 3
            &&& forall|i: int| 0 <= i < n ==> #[trigger] after[i] == old(path).vertices@[i]
            &&& stand_at(after, n, xy.0, xy.1, xy.2)
            &&& after[n].st_position == st.0
            &&& after[n + 1].st_position == st.1
            &&& after[n + 2].st_position == st.2
            &&& forall|i: int|
                n <= i < n + 3 ==> {
                    let mask = (#[trigger] after[i]).content_mask.bounds;
                    &&& mask.origin.x.0 == S::zero_spec() && mask.origin.y.0 == S::zero_spec()
                    &&& mask.size.width.0 == S::zero_spec() && mask.size.height.0 == S::zero_spec()
                }
        }),
        final(path).bounds == wider.2,
        final(path).start == old(path).start,
        final(path).current == old(path).current,
        final(path).contour_count == old(path).contour_count,
        final(path).id == old(path).id,
        final(path).order == old(path).order,
        final(path).content_mask == old(path).content_mask,
        final(path).color == old(path).color,
{
}

/// A line widens the bounds of a path as its triangle does, and the first step not at all. A curve
/// widens them as a line to its end does, and then by its own triangle.
pub proof fn steps_widen_the_bounds_by_their_triangles<S: Scalar>(
    line: &mut Path<Pixels<S>, S>,
    fan: &mut Path<Pixels<S>, S>,
    curve: &mut Path<Pixels<S>, S>,
    bulge: &mut Path<Pixels<S>, S>,
    to: Point<Pixels<S>>,
    ctrl: Point<Pixels<S>>,
    st: TriangleSt<S>,
)
    requires
        *old(line) == *old(fan),
        *old(line) == *old(curve),
        old(line).contour_count < usize::MAX,
        call_ensures(Path::<Pixels<S>, S>::line_to, (line, to), ()),
        call_ensures(
            Path::<Pixels<S>, S>::push_triangle,
            (fan, (old(fan).start, old(fan).current, to), st),
            (),
        ),
        call_ensures(Path::<Pixels<S>, S>::curve_to, (curve, to, ctrl), ()),
        call_ensures(
            Path::<Pixels<S>, S>::push_triangle,
            (bulge, (old(curve).current, ctrl, to), st),
            (),
        ),
    ensures
        old(line).contour_count == 0 ==> final(line).bounds == old(line).bounds,
        old(line).contour_count > 0 ==> final(line).bounds == final(fan).bounds,
        old(bulge).bounds == final(line).bounds ==> final(curve).bounds == final(bulge).bounds,
{
}

/// What paints nothing is a solid fill with a colour that is zero in every part.
pub proof fn transparent_is_zero<S: Scalar>(color: Hsla<S>, fill: Background<S>)
    requires
        call_ensures(Hsla::<S>::transparent, (), color),
        call_ensures(Background::<S>::transparent, (), fill),
    ensures
        color.h == S::zero_spec() && color.s == S::zero_spec(),
        color.l == S::zero_spec() && color.a == S::zero_spec(),
        fill.tag == BackgroundTag::Solid,
        fill.color_space == ColorSpace::Srgb,
        fill.solid == color,
        fill.gradient_angle_or_pattern_height == S::zero_spec(),
        fill.pad == 0,
        forall|i: int|
            0 <= i < 2 ==> (#[trigger] fill.colors@[i]).color == color && fill.colors@[i].percentage
                == S::zero_spec(),
{
}

/// A new path has its pen where it starts, and nothing else: no triangle, no extent, no colour.
pub proof fn new_path_is_its_start<S: Scalar>(
    start: Point<Pixels<S>>,
    path: Path<Pixels<S>, S>,
    transparent: Background<S>,
)
    requires
        call_ensures(Path::<Pixels<S>, S>::new, (start,), path),
        call_ensures(Background::<S>::transparent, (), transparent),
    ensures
        path.color == transparent,
        path.content_mask.bounds.origin.x.0 == S::zero_spec(),
        path.content_mask.bounds.origin.y.0 == S::zero_spec(),
        path.content_mask.bounds.size.width.0 == S::zero_spec(),
        path.content_mask.bounds.size.height.0 == S::zero_spec(),
        path.start == start,
        path.current == start,
        path.contour_count == 0,
        path.vertices@.len() == 0,
        path.bounds.origin == start,
        path.bounds.size.width.0 == S::zero_spec() && path.bounds.size.height.0 == S::zero_spec(),
        path.id.0 == 0 && path.order == 0,
{
}

/// On a display a path has the same triangles, with every coordinate of the scene multiplied by the
/// scale factor, and with the same curve coordinates, colour and place.
pub proof fn displays_scale_every_vertex<S: Scalar>(
    path: Path<Pixels<S>, S>,
    factor: S,
    scaled: Path<ScaledPixels<S>, S>,
)
    requires
        call_ensures(Path::<Pixels<S>, S>::scale, (&path, factor), scaled),
    ensures
        scaled.vertices@.len() == path.vertices@.len(),
        forall|i: int|
            0 <= i < path.vertices@.len() ==> {
                let (from, to) = (path.vertices@[i], #[trigger] scaled.vertices@[i]);
                let (mask, shown) = (from.content_mask.bounds, to.content_mask.bounds);
                &&& to.xy_position.x.0 == from.xy_position.x.0.times_spec(factor)
                &&& to.xy_position.y.0 == from.xy_position.y.0.times_spec(factor)
                &&& to.st_position == from.st_position
                &&& shown.origin.x.0 == mask.origin.x.0.times_spec(factor)
                &&& shown.origin.y.0 == mask.origin.y.0.times_spec(factor)
                &&& shown.size.width.0 == mask.size.width.0.times_spec(factor)
                &&& shown.size.height.0 == mask.size.height.0.times_spec(factor)
            },
        scaled.bounds.origin.x.0 == path.bounds.origin.x.0.times_spec(factor),
        scaled.bounds.origin.y.0 == path.bounds.origin.y.0.times_spec(factor),
        scaled.bounds.size.width.0 == path.bounds.size.width.0.times_spec(factor),
        scaled.bounds.size.height.0 == path.bounds.size.height.0.times_spec(factor),
        ({
            let (mask, shown) = (path.content_mask.bounds, scaled.content_mask.bounds);
            &&& shown.origin.x.0 == mask.origin.x.0.times_spec(factor)
            &&& shown.origin.y.0 == mask.origin.y.0.times_spec(factor)
            &&& shown.size.width.0 == mask.size.width.0.times_spec(factor)
            &&& shown.size.height.0 == mask.size.height.0.times_spec(factor)
        }),
        scaled.start.x.0 == path.start.x.0.times_spec(factor),
        scaled.start.y.0 == path.start.y.0.times_spec(factor),
        scaled.current.x.0 == path.current.x.0.times_spec(factor),
        scaled.current.y.0 == path.current.y.0.times_spec(factor),
        scaled.color == path.color,
        scaled.id == path.id,
        scaled.order == path.order,
        scaled.contour_count == path.contour_count,
{
}

/// A vertex on a display has its coordinates of the scene multiplied, and its curve coordinates
/// kept.
pub proof fn displays_scale_a_vertex<S: Scalar>(
    vertex: PathVertex<Pixels<S>, S>,
    factor: S,
    scaled: PathVertex<ScaledPixels<S>, S>,
)
    requires
        call_ensures(PathVertex::<Pixels<S>, S>::scale, (&vertex, factor), scaled),
    ensures
        scaled.xy_position.x.0 == vertex.xy_position.x.0.times_spec(factor),
        scaled.xy_position.y.0 == vertex.xy_position.y.0.times_spec(factor),
        scaled.st_position == vertex.st_position,
        ({
            let (mask, shown) = (vertex.content_mask.bounds, scaled.content_mask.bounds);
            &&& shown.origin.x.0 == mask.origin.x.0.times_spec(factor)
            &&& shown.origin.y.0 == mask.origin.y.0.times_spec(factor)
            &&& shown.size.width.0 == mask.size.width.0.times_spec(factor)
            &&& shown.size.height.0 == mask.size.height.0.times_spec(factor)
        }),
{
}

/// What shows of a path is what its bounds and its mask share.
pub proof fn shown_part_is_shared_with_the_mask<P: Coordinate, S>(
    path: Path<P, S>,
    shown: Bounds<P>,
    shared: Bounds<P>,
)
    requires
        call_ensures(Path::<P, S>::clipped_bounds, (&path,), shown),
        call_ensures(Bounds::<P>::intersect, (path.bounds, path.content_mask.bounds), shared),
    ensures
        shown == shared,
{
}

/// A copy of a path is the same in everything.
pub proof fn copied_path_is_the_same<P: Copy, S: Copy>(path: Path<P, S>, copy: Path<P, S>)
    requires
        call_ensures(<Path<P, S> as Clone>::clone, (&path,), copy),
    ensures
        copy.id == path.id,
        copy.order == path.order,
        copy.bounds == path.bounds,
        copy.content_mask == path.content_mask,
        copy.vertices@ == path.vertices@,
        copy.color == path.color,
        copy.start == path.start,
        copy.current == path.current,
        copy.contour_count == path.contour_count,
{
}

} // verus!
