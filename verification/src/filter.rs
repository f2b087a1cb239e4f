//! Layers that are drawn offscreen, filtered, and composited back.

use crate::bounds_tree::DrawOrder;
use crate::geometry::{Bounds, Point};
use crate::scalar::{Coordinate, Scalar, ScaledPixels};
use vstd::prelude::*;
use vstd::std_specs::cmp::PartialEqSpecImpl;

verus! {

/// What a layer does to its contents on the way back into the frame.
#[derive(Clone, Copy, Debug)]
pub struct Filter<S> {
    /// The standard deviation of the blur, in scaled pixels.
    pub blur: S,
    /// How far the contents fade out at the top edge, in scaled pixels.
    pub fade_top: S,
    /// How far the contents fade out at the bottom edge, in scaled pixels.
    pub fade_bottom: S,
    /// How far the contents fade out at the left edge, in scaled pixels.
    pub fade_left: S,
    /// How far the contents fade out at the right edge, in scaled pixels.
    pub fade_right: S,
    /// Uniform compositor scale around the layer's transform origin.
    pub scale: S,
    /// Compositor translation in scaled pixels.
    pub translate: Point<ScaledPixels<S>>,
}

impl<S: Scalar> Filter<S> {
    pub open spec fn default_spec() -> Self {
        Filter {
            blur: S::zero_spec(),
            fade_top: S::zero_spec(),
            fade_bottom: S::zero_spec(),
            fade_left: S::zero_spec(),
            fade_right: S::zero_spec(),
            scale: S::one_spec(),
            translate: Point::zero_spec(),
        }
    }

    pub open spec fn same_spec(self, other: Self) -> bool {
        &&& self.blur.same_spec(other.blur)
        &&& self.fade_top.same_spec(other.fade_top)
        &&& self.fade_bottom.same_spec(other.fade_bottom)
        &&& self.fade_left.same_spec(other.fade_left)
        &&& self.fade_right.same_spec(other.fade_right)
        &&& self.scale.same_spec(other.scale)
        &&& self.translate.same_spec(other.translate)
    }

    pub open spec fn blurs_spec(self) -> bool {
        S::zero_spec().less_spec(self.blur)
    }

    pub open spec fn fades_spec(self) -> bool {
        ||| S::zero_spec().less_spec(self.fade_top)
        ||| S::zero_spec().less_spec(self.fade_bottom)
        ||| S::zero_spec().less_spec(self.fade_left)
        ||| S::zero_spec().less_spec(self.fade_right)
    }

    pub open spec fn scales_spec(self) -> bool {
        !self.scale.same_spec(S::one_spec())
    }

    pub open spec fn translates_spec(self) -> bool {
        !self.translate.same_spec(Point::zero_spec())
    }

    pub open spec fn transforms_spec(self) -> bool {
        self.scales_spec() || self.translates_spec()
    }

    pub open spec fn is_noop_spec(self) -> bool {
        self.blur.at_most_spec(S::zero_spec()) && !self.fades_spec() && !self.transforms_spec()
    }

    /// Whether the layer changes its contents at all.
    pub fn is_noop(&self) -> (r: bool)
        ensures
            r == self.is_noop_spec(),
    {
        self.blur.at_most(S::zero()) && !self.fades() && !self.transforms()
    }

    /// Whether the layer has to go through the blur passes.
    pub fn blurs(&self) -> (r: bool)
        ensures
            r == self.blurs_spec(),
    {
        S::zero().less(self.blur)
    }

    /// Whether the layer is masked on its way back.
    pub fn fades(&self) -> (r: bool)
        ensures
            r == self.fades_spec(),
    {
        S::zero().less(self.fade_top) || S::zero().less(self.fade_bottom) || S::zero().less(
            self.fade_left,
        ) || S::zero().less(self.fade_right)
    }

    /// Whether the layer is scaled while it is composited.
    pub fn scales(&self) -> (r: bool)
        ensures
            r == self.scales_spec(),
    {
        !self.scale.same(S::one())
    }

    /// Whether the layer is translated while it is composited.
    pub fn translates(&self) -> (r: bool)
        ensures
            r == self.translates_spec(),
    {
        self.translate != Point::zero()
    }

    /// Whether the layer is transformed while it is composited.
    pub fn transforms(&self) -> (r: bool)
        ensures
            r == self.transforms_spec(),
    {
        self.scales() || self.translates()
    }
}

impl<S: Scalar> Default for Filter<S> {
    /// A filter that changes nothing.
    fn default() -> (r: Self)
        ensures
            r == Self::default_spec(),
    {
        Filter {
            blur: S::zero(),
            fade_top: S::zero(),
            fade_bottom: S::zero(),
            fade_left: S::zero(),
            fade_right: S::zero(),
            scale: S::one(),
            translate: Point::zero(),
        }
    }
}

impl<S: Scalar> PartialEq for Filter<S> {
    fn eq(&self, other: &Self) -> (r: bool) {
        self.blur.same(other.blur) && self.fade_top.same(other.fade_top) && self.fade_bottom.same(
            other.fade_bottom,
        ) && self.fade_left.same(other.fade_left) && self.fade_right.same(other.fade_right)
            && self.scale.same(other.scale) && self.translate == other.translate
    }
}

impl<S: Scalar> PartialEqSpecImpl for Filter<S> {
    open spec fn obeys_eq_spec() -> bool {
        true
    }

    open spec fn eq_spec(&self, other: &Self) -> bool {
        self.same_spec(*other)
    }
}

/// A run of primitives that is drawn offscreen, put through a [`Filter`], and composited back.
#[derive(Clone, Copy, Debug)]
pub struct LayerEffect<S> {
    /// The order the layer opened at. Everything it contains is drawn between this and `end`.
    pub start: DrawOrder,
    /// The order the layer closed at.
    pub end: DrawOrder,
    /// The area of the untransformed offscreen source, including blur reach.
    pub source_bounds: Bounds<ScaledPixels<S>>,
    /// The center of the element's original bounds, before adding blur reach.
    pub transform_origin: Point<ScaledPixels<S>>,
    /// The source bounds after applying the layer scale and translation.
    pub destination_bounds: Bounds<ScaledPixels<S>>,
    /// The parent content mask that was in force when the layer opened.
    pub content_mask: Bounds<ScaledPixels<S>>,
    pub filter: Filter<S>,
    /// The enclosing layer, if this one is nested.
    pub parent: Option<usize>,
}

impl<S: Scalar> LayerEffect<S> {
    /// Whether a primitive drawn at `order` lies within the layer.
    pub open spec fn holds(self, order: DrawOrder) -> bool {
        self.start <= order < self.end
    }

    /// Whether the layer was left open when its scene was finished: it ends where it starts, and
    /// holds nothing.
    pub open spec fn was_left_open(self) -> bool {
        self.start == self.end
    }

    /// Whether any primitive can lie strictly within the layer.
    pub open spec fn has_inner_orders(self) -> bool {
        self.end > self.start + 1
    }

    pub open spec fn same_spec(self, other: Self) -> bool {
        &&& self.start == other.start
        &&& self.end == other.end
        &&& self.source_bounds.same_spec(other.source_bounds)
        &&& self.transform_origin.same_spec(other.transform_origin)
        &&& self.destination_bounds.same_spec(other.destination_bounds)
        &&& self.content_mask.same_spec(other.content_mask)
        &&& self.filter.same_spec(other.filter)
        &&& self.parent == other.parent
    }

    pub open spec fn destination_scissor_bounds_spec(
        self,
        destination_span: Bounds<ScaledPixels<S>>,
    ) -> Bounds<ScaledPixels<S>> {
        if self.filter.transforms_spec() {
            let (near, far) = (destination_span.origin, destination_span.bottom_right_spec());
            Bounds::from_corners_spec(
                Point {
                    x: ScaledPixels(near.x.0.floor_spec()),
                    y: ScaledPixels(near.y.0.floor_spec()),
                },
                Point {
                    x: ScaledPixels(far.x.0.ceil_spec()),
                    y: ScaledPixels(far.y.0.ceil_spec()),
                },
            )
        } else {
            destination_span
        }
    }

    pub open spec fn can_merge_with_spec(self, next: Self) -> bool {
        &&& self.filter.same_spec(next.filter)
        &&& self.parent == next.parent
        &&& !next.filter.fades_spec()
        &&& !self.filter.transforms_spec()
    }

    /// The transformed destination area after clipping to the parent content mask.
    pub fn destination_clip(&self) -> (r: Bounds<ScaledPixels<S>>)
        ensures
            r == self.destination_bounds.intersect_spec(self.content_mask),
    {
        self.destination_bounds.intersect(self.content_mask)
    }

    /// The destination span rounded out to whole pixels when a transform made it fractional.
    pub fn destination_scissor_bounds(&self, destination_span: Bounds<ScaledPixels<S>>) -> (r:
        Bounds<ScaledPixels<S>>)
        ensures
            r == self.destination_scissor_bounds_spec(destination_span),
    {
        if !self.filter.transforms() {
            return destination_span;
        }
        let near = destination_span.origin;
        let far = destination_span.bottom_right();
        Bounds::from_corners(
            Point { x: ScaledPixels(near.x.0.floor()), y: ScaledPixels(near.y.0.floor()) },
            Point { x: ScaledPixels(far.x.0.ceil()), y: ScaledPixels(far.y.0.ceil()) },
        )
    }

    /// The source area the blur passes need to update.
    ///
    /// An untransformed layer only needs the clipped area. A transformed layer must keep its
    /// whole source because the destination clip is in a different coordinate space.
    pub fn blur_bounds(&self, destination_span: Bounds<ScaledPixels<S>>) -> (r: Bounds<
        ScaledPixels<S>,
    >)
        ensures
            r == if self.filter.transforms_spec() {
                self.source_bounds
            } else {
                destination_span
            },
    {
        if self.filter.transforms() {
            self.source_bounds
        } else {
            destination_span
        }
    }

    /// Whether adjacent sibling layers may share one composite operation.
    pub fn can_merge_with(&self, next: &Self) -> (r: bool)
        ensures
            r == self.can_merge_with_spec(*next),
    {
        self.filter == next.filter && same_parent(self.parent, next.parent)
            && !next.filter.fades() && !self.filter.transforms()
    }
}

fn same_parent(a: Option<usize>, b: Option<usize>) -> (r: bool)
    ensures
        r == (a == b),
{
    match (a, b) {
        (Some(a), Some(b)) => a == b,
        (None, None) => true,
        _ => false,
    }
}

impl<S: Scalar> PartialEq for LayerEffect<S> {
    fn eq(&self, other: &Self) -> (r: bool) {
        self.start == other.start && self.end == other.end && self.source_bounds
            == other.source_bounds && self.transform_origin == other.transform_origin
            && self.destination_bounds == other.destination_bounds && self.content_mask
            == other.content_mask && self.filter == other.filter && same_parent(
            self.parent,
            other.parent,
        )
    }
}

impl<S: Scalar> PartialEqSpecImpl for LayerEffect<S> {
    open spec fn obeys_eq_spec() -> bool {
        true
    }

    open spec fn eq_spec(&self, other: &Self) -> bool {
        self.same_spec(*other)
    }
}

/// Where `value` goes when the axis is scaled around `origin`.
pub open spec fn scaled_around<S: Scalar>(
    value: ScaledPixels<S>,
    origin: ScaledPixels<S>,
    scale: S,
) -> ScaledPixels<S> {
    ScaledPixels(origin.0.plus_spec(value.0.minus_spec(origin.0).times_spec(scale)))
}

pub open spec fn scale_bounds_around_spec<S: Scalar>(
    bounds: Bounds<ScaledPixels<S>>,
    origin: Point<ScaledPixels<S>>,
    scale: S,
) -> Bounds<ScaledPixels<S>> {
    let (near, far) = (bounds.origin, bounds.bottom_right_spec());
    Bounds::from_corners_spec(
        Point {
            x: scaled_around(near.x, origin.x, scale),
            y: scaled_around(near.y, origin.y, scale),
        },
        Point {
            x: scaled_around(far.x, origin.x, scale),
            y: scaled_around(far.y, origin.y, scale),
        },
    )
}

fn scale_around<S: Scalar>(value: ScaledPixels<S>, origin: ScaledPixels<S>, scale: S) -> (r:
    ScaledPixels<S>)
    ensures
        r == scaled_around(value, origin, scale),
{
    ScaledPixels(origin.0.plus(value.0.minus(origin.0).times(scale)))
}

/// Scales a rectangle around a fixed point.
pub fn scale_bounds_around<S: Scalar>(
    bounds: Bounds<ScaledPixels<S>>,
    origin: Point<ScaledPixels<S>>,
    scale: S,
) -> (r: Bounds<ScaledPixels<S>>)
    ensures
        r == scale_bounds_around_spec(bounds, origin, scale),
{
    let near = bounds.origin;
    let far = bounds.bottom_right();
    Bounds::from_corners(
        Point {
            x: scale_around(near.x, origin.x, scale),
            y: scale_around(near.y, origin.y, scale),
        },
        Point { x: scale_around(far.x, origin.x, scale), y: scale_around(far.y, origin.y, scale) },
    )
}

} // verus!
