//! Filled outlines, as triangles.

use crate::bounds_tree::DrawOrder;
use crate::color::Background;
use crate::geometry::{Bounds, ContentMask, Point};
use crate::scalar::{Coordinate, Pixels, Scalar, ScaledPixels};
use vstd::prelude::*;

verus! {

/// The place of a path among the paths of its scene, in the order of painting.
#[derive(Clone, Copy, Debug, PartialEq, Eq, Hash, Structural)]
pub struct PathId(pub usize);

/// One corner of a triangle of a path.
#[derive(Clone, Copy, Debug)]
pub struct PathVertex<P, S> {
    pub xy_position: Point<P>,
    pub st_position: Point<S>,
    pub content_mask: ContentMask<P>,
}

/// A vertex of a path as the scene keeps it.
#[allow(non_camel_case_types)]
pub type PathVertex_ScaledPixels<S> = PathVertex<ScaledPixels<S>, S>;

/// A line made up of a series of vertices and control points.
#[derive(Debug)]
pub struct Path<P, S> {
    pub id: PathId,
    pub order: DrawOrder,
    pub bounds: Bounds<P>,
    pub content_mask: ContentMask<P>,
    pub vertices: Vec<PathVertex<P, S>>,
    pub color: Background<S>,
    /// Where the contour begins.
    pub start: Point<P>,
    /// Where the pen is.
    pub current: Point<P>,
    /// How many steps have been drawn.
    pub contour_count: usize,
}

/// The contents of a [`Path`].
#[verifier::ext_equal]
pub struct PathView<P, S> {
    pub id: PathId,
    pub order: DrawOrder,
    pub bounds: Bounds<P>,
    pub content_mask: ContentMask<P>,
    pub vertices: Seq<PathVertex<P, S>>,
    pub color: Background<S>,
    /// Where the contour begins.
    pub start: Point<P>,
    /// Where the pen is.
    pub current: Point<P>,
    /// How many steps have been drawn.
    pub contour_count: usize,
}

impl<P, S> View for Path<P, S> {
    type V = PathView<P, S>;

    open spec fn view(&self) -> PathView<P, S> {
        PathView {
            id: self.id,
            order: self.order,
            bounds: self.bounds,
            content_mask: self.content_mask,
            vertices: self.vertices@,
            color: self.color,
            start: self.start,
            current: self.current,
            contour_count: self.contour_count,
        }
    }
}

/// A triangle in the plane of the scene.
pub type TriangleXy<S> = (Point<Pixels<S>>, Point<Pixels<S>>, Point<Pixels<S>>);

/// A triangle in curve space.
pub type TriangleSt<S> = (Point<S>, Point<S>, Point<S>);

impl<S: Scalar> PathVertex<Pixels<S>, S> {
    pub open spec fn scale_spec(self, factor: S) -> PathVertex<ScaledPixels<S>, S> {
        PathVertex {
            xy_position: self.xy_position.scale_spec(factor),
            st_position: self.st_position,
            content_mask: self.content_mask.scale_spec(factor),
        }
    }

    /// This vertex on a display with the given scale factor.
    pub fn scale(&self, factor: S) -> (r: PathVertex<ScaledPixels<S>, S>)
        ensures
            r == self.scale_spec(factor),
    {
        PathVertex {
            xy_position: self.xy_position.scale(factor),
            st_position: self.st_position,
            content_mask: self.content_mask.scale(factor),
        }
    }
}

/// Curve coordinates under which the whole triangle is filled.
pub open spec fn filled_st<S: Scalar>() -> TriangleSt<S> {
    let inside = Point { x: S::zero_spec(), y: S::one_spec() };
    (inside, inside, inside)
}

/// Curve coordinates under which a triangle is filled up to the curve between its first and its
/// last corner.
pub open spec fn curve_st<S: Scalar>() -> TriangleSt<S> {
    (
        Point { x: S::zero_spec(), y: S::zero_spec() },
        Point { x: S::half_spec(), y: S::zero_spec() },
        Point { x: S::one_spec(), y: S::one_spec() },
    )
}

impl<S: Scalar> PathView<Pixels<S>, S> {
    pub open spec fn new(start: Point<Pixels<S>>) -> Self {
        PathView {
            id: PathId(0),
            order: 0,
            bounds: Bounds::at_spec(start),
            content_mask: ContentMask::zero_spec(),
            vertices: Seq::empty(),
            color: Background::transparent_spec(),
            start,
            current: start,
            contour_count: 0,
        }
    }

    pub open spec fn push_triangle(self, xy: TriangleXy<S>, st: TriangleSt<S>) -> Self {
        let mask = ContentMask::zero_spec();
        PathView {
            bounds: self.bounds.union_spec(Bounds::at_spec(xy.0)).union_spec(
                Bounds::at_spec(xy.1),
            ).union_spec(Bounds::at_spec(xy.2)),
            vertices: self.vertices + seq![
                PathVertex { xy_position: xy.0, st_position: st.0, content_mask: mask },
                PathVertex { xy_position: xy.1, st_position: st.1, content_mask: mask },
                PathVertex { xy_position: xy.2, st_position: st.2, content_mask: mask },
            ],
            ..self
        }
    }

    /// Fills the triangle between the start, the pen and `to`, unless no step came before.
    pub open spec fn fan(self, to: Point<Pixels<S>>) -> Self {
        if self.contour_count > 0 {
            self.push_triangle((self.start, self.current, to), filled_st())
        } else {
            self
        }
    }

    pub open spec fn move_to(self, to: Point<Pixels<S>>) -> Self {
        PathView {
            start: to,
            current: to,
            contour_count: (self.contour_count + 1) as usize,
            ..self
        }
    }

    pub open spec fn line_to(self, to: Point<Pixels<S>>) -> Self {
        PathView { current: to, contour_count: (self.contour_count + 1) as usize, ..self.fan(to) }
    }

    pub open spec fn curve_to(self, to: Point<Pixels<S>>, ctrl: Point<Pixels<S>>) -> Self {
        PathView {
            current: to,
            contour_count: (self.contour_count + 1) as usize,
            ..self.fan(to).push_triangle((self.current, ctrl, to), curve_st())
        }
    }

    pub open spec fn scale(self, factor: S) -> PathView<ScaledPixels<S>, S> {
        PathView {
            id: self.id,
            order: self.order,
            bounds: self.bounds.scale_spec(factor),
            content_mask: self.content_mask.scale_spec(factor),
            vertices: self.vertices.map_values(
                |v: PathVertex<Pixels<S>, S>| v.scale_spec(factor),
            ),
            color: self.color,
            start: self.start.scale_spec(factor),
            current: self.current.scale_spec(factor),
            contour_count: self.contour_count,
        }
    }
}

impl<S: Scalar> Path<Pixels<S>, S> {
    /// Create a new path with the given starting point.
    pub fn new(start: Point<Pixels<S>>) -> (r: Self)
        ensures
            r@ == PathView::new(start),
    {
        Path {
            id: PathId(0),
            order: 0,
            bounds: Bounds::at(start),
            content_mask: ContentMask::zero(),
            vertices: Vec::new(),
            color: Background::transparent(),
            start,
            current: start,
            contour_count: 0,
        }
    }

    /// Scale this path by the given factor.
    pub fn scale(&self, factor: S) -> (r: Path<ScaledPixels<S>, S>)
        ensures
            r@ == self@.scale(factor),
    {
        let mut vertices: Vec<PathVertex<ScaledPixels<S>, S>> = Vec::new();
        let mut i: usize = 0;
        while i < self.vertices.len()
            invariant
                i <= self.vertices.len(),
                vertices@ == self.vertices@.take(i as int).map_values(
                    |v: PathVertex<Pixels<S>, S>| v.scale_spec(factor),
                ),
            decreases self.vertices.len() - i,
        {
            vertices.push(self.vertices[i].scale(factor));
            i += 1;
        }
        assert(self.vertices@.take(i as int) =~= self.vertices@);
        Path {
            id: self.id,
            order: self.order,
            bounds: self.bounds.scale(factor),
            content_mask: self.content_mask.scale(factor),
            vertices,
            color: self.color,
            start: self.start.scale(factor),
            current: self.current.scale(factor),
            contour_count: self.contour_count,
        }
    }

    /// Move the start, current point to the given point.
    pub fn move_to(&mut self, to: Point<Pixels<S>>)
        requires
            old(self)@.contour_count < usize::MAX,
        ensures
            final(self)@ == old(self)@.move_to(to),
    {
        self.contour_count = self.contour_count + 1;
        self.start = to;
        self.current = to;
    }

    /// Draw a straight line from the current point to the given point.
    pub fn line_to(&mut self, to: Point<Pixels<S>>)
        requires
            old(self)@.contour_count < usize::MAX,
        ensures
            final(self)@ == old(self)@.line_to(to),
    {
        self.contour_count = self.contour_count + 1;
        if self.contour_count > 1 {
            self.fill_triangle(to);
        }
        self.current = to;
    }

    /// Draw a curve from the current point to the given point, using the given control point.
    pub fn curve_to(&mut self, to: Point<Pixels<S>>, ctrl: Point<Pixels<S>>)
        requires
            old(self)@.contour_count < usize::MAX,
        ensures
            final(self)@ == old(self)@.curve_to(to, ctrl),
    {
        self.contour_count = self.contour_count + 1;
        if self.contour_count > 1 {
            self.fill_triangle(to);
        }
        self.push_triangle(
            (self.current, ctrl, to),
            (
                Point { x: S::zero(), y: S::zero() },
                Point { x: S::half(), y: S::zero() },
                Point { x: S::one(), y: S::one() },
            ),
        );
        self.current = to;
    }

    fn fill_triangle(&mut self, to: Point<Pixels<S>>)
        ensures
            final(self)@ == old(self)@.push_triangle(
                (old(self)@.start, old(self)@.current, to),
                filled_st(),
            ),
    {
        let inside = Point { x: S::zero(), y: S::one() };
        self.push_triangle((self.start, self.current, to), (inside, inside, inside));
    }

    /// Push a triangle to the Path.
    pub fn push_triangle(&mut self, xy: TriangleXy<S>, st: TriangleSt<S>)
        ensures
            final(self)@ == old(self)@.push_triangle(xy, st),
    {
        self.bounds =
        self.bounds.union(Bounds::at(xy.0)).union(Bounds::at(xy.1)).union(Bounds::at(xy.2));
        let content_mask = ContentMask::zero();
        self.vertices.push(PathVertex { xy_position: xy.0, st_position: st.0, content_mask });
        self.vertices.push(PathVertex { xy_position: xy.1, st_position: st.1, content_mask });
        self.vertices.push(PathVertex { xy_position: xy.2, st_position: st.2, content_mask });
        assert(self.vertices@ =~= old(self)@.push_triangle(xy, st).vertices);
    }
}

impl<P: Coordinate, S> Path<P, S> {
    /// The part of the path's bounds that the content mask lets through.
    pub fn clipped_bounds(&self) -> (r: Bounds<P>)
        ensures
            r == self@.bounds.intersect_spec(self@.content_mask.bounds),
    {
        self.bounds.intersect(self.content_mask.bounds)
    }
}

impl<P: Copy, S: Copy> Path<P, S> {
    /// This path as the scene keeps it.
    pub(crate) fn placed(self, order: DrawOrder, id: PathId) -> (r: Self)
        ensures
            r@ == (PathView { order, id, ..self@ }),
    {
        Path { order, id, ..self }
    }
}

impl<P: Copy, S: Copy> Clone for Path<P, S> {
    fn clone(&self) -> (r: Self)
        ensures
            r@ == self@,
    {
        let mut vertices: Vec<PathVertex<P, S>> = Vec::new();
        let mut i: usize = 0;
        while i < self.vertices.len()
            invariant
                i <= self.vertices.len(),
                vertices@ == self.vertices@.take(i as int),
            decreases self.vertices.len() - i,
        {
            vertices.push(self.vertices[i]);
            i += 1;
        }
        assert(vertices@ =~= self.vertices@);
        Path {
            id: self.id,
            order: self.order,
            bounds: self.bounds,
            content_mask: self.content_mask,
            vertices,
            color: self.color,
            start: self.start,
            current: self.current,
            contour_count: self.contour_count,
        }
    }
}

} // verus!
