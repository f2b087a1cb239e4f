//! What a filtered layer does on its way back into the frame.

use crate::filter::{scale_bounds_around, scaled_around, Filter, LayerEffect};
use crate::geometry::{Bounds, Point};
use crate::scalar::{Coordinate, Scalar, ScaledPixels};
use vstd::prelude::*;

verus! {

/// A filter blurs where its blur is above zero, fades where it fades at any edge, scales where its
/// scale is not one, and translates where it moves on any axis. It transforms where it does either
/// of the last two, and is no operation where it does nothing at all.
pub proof fn filters_do_what_their_values_say<S: Scalar>(
    filter: Filter<S>,
    blurs: bool,
    fades: bool,
    scales: bool,
    translates: bool,
    transforms: bool,
    noop: bool,
)
    requires
        call_ensures(Filter::<S>::blurs, (&filter,), blurs),
        call_ensures(Filter::<S>::fades, (&filter,), fades),
        call_ensures(Filter::<S>::scales, (&filter,), scales),
        call_ensures(Filter::<S>::translates, (&filter,), translates),
        call_ensures(Filter::<S>::transforms, (&filter,), transforms),
        call_ensures(Filter::<S>::is_noop, (&filter,), noop),
    ensures
        blurs <==> S::zero_spec().less_spec(filter.blur),
        fades <==> {
            ||| S::zero_spec().less_spec(filter.fade_top)
            ||| S::zero_spec().less_spec(filter.fade_bottom)
            ||| S::zero_spec().less_spec(filter.fade_left)
            ||| S::zero_spec().less_spec(filter.fade_right)
        },
        scales <==> !filter.scale.same_spec(S::one_spec()),
        translates <==> !(filter.translate.x.0.same_spec(S::zero_spec())
            && filter.translate.y.0.same_spec(S::zero_spec())),
        transforms <==> scales || translates,
        noop <==> filter.blur.at_most_spec(S::zero_spec()) && !fades && !transforms,
{
}

/// A new filter has no blur, no fade, a scale of one and no translation.
pub proof fn new_filter_is_neutral<S: Scalar>(filter: Filter<S>)
    requires
        call_ensures(<Filter<S> as Default>::default, (), filter),
    ensures
        filter.blur == S::zero_spec(),
        filter.fade_top == S::zero_spec() && filter.fade_bottom == S::zero_spec(),
        filter.fade_left == S::zero_spec() && filter.fade_right == S::zero_spec(),
        filter.scale == S::one_spec(),
        filter.translate.x.0 == S::zero_spec() && filter.translate.y.0 == S::zero_spec(),
{
}

/// Filters compare equal exactly where all their values do.
pub proof fn equal_filters_have_equal_values<S: Scalar>(
    a: Filter<S>,
    b: Filter<S>,
    equal: bool,
)
    requires
        call_ensures(<Filter<S> as PartialEq>::eq, (&a, &b), equal),
    ensures
        equal <==> {
            &&& a.blur.same_spec(b.blur)
            &&& a.fade_top.same_spec(b.fade_top)
            &&& a.fade_bottom.same_spec(b.fade_bottom)
            &&& a.fade_left.same_spec(b.fade_left)
            &&& a.fade_right.same_spec(b.fade_right)
            &&& a.scale.same_spec(b.scale)
            &&& a.translate.x.0.same_spec(b.translate.x.0)
            &&& a.translate.y.0.same_spec(b.translate.y.0)
        },
{
}

/// Layers compare equal exactly where they have the same range and parent, and equal bounds,
/// origins, masks and filters.
pub proof fn equal_layers_are_equal_in_every_part<S: Scalar>(
    a: LayerEffect<S>,
    b: LayerEffect<S>,
    equal: bool,
    parts: (bool, bool, bool, bool, bool),
)
    requires
        call_ensures(<LayerEffect<S> as PartialEq>::eq, (&a, &b), equal),
        call_ensures(
            <Bounds<ScaledPixels<S>> as PartialEq>::eq,
            (&a.source_bounds, &b.source_bounds),
            parts.0,
        ),
        call_ensures(
            <Point<ScaledPixels<S>> as PartialEq>::eq,
            (&a.transform_origin, &b.transform_origin),
            parts.1,
        ),
        call_ensures(
            <Bounds<ScaledPixels<S>> as PartialEq>::eq,
            (&a.destination_bounds, &b.destination_bounds),
            parts.2,
        ),
        call_ensures(
            <Bounds<ScaledPixels<S>> as PartialEq>::eq,
            (&a.content_mask, &b.content_mask),
            parts.3,
        ),
        call_ensures(<Filter<S> as PartialEq>::eq, (&a.filter, &b.filter), parts.4),
    ensures
        equal <==> a.start == b.start && a.end == b.end && a.parent == b.parent && parts.0
            && parts.1 && parts.2 && parts.3 && parts.4,
{
}

/// Layers merge exactly where their filters are equal, they have the same parent, the next does not
/// fade and the first does not transform.
pub proof fn merging_needs_equal_filters_and_parents<S: Scalar>(
    a: LayerEffect<S>,
    b: LayerEffect<S>,
    merges: bool,
    equal: bool,
    fades: bool,
    transforms: bool,
)
    requires
        call_ensures(LayerEffect::<S>::can_merge_with, (&a, &b), merges),
        call_ensures(<Filter<S> as PartialEq>::eq, (&a.filter, &b.filter), equal),
        call_ensures(Filter::<S>::fades, (&b.filter,), fades),
        call_ensures(Filter::<S>::transforms, (&a.filter,), transforms),
    ensures
        merges <==> equal && a.parent == b.parent && !fades && !transforms,
{
}

/// What is shown of a layer is what its destination and its mask share.
pub proof fn destination_is_clipped_to_the_mask<S: Scalar>(
    layer: LayerEffect<S>,
    clip: Bounds<ScaledPixels<S>>,
    shared: Bounds<ScaledPixels<S>>,
)
    requires
        call_ensures(LayerEffect::<S>::destination_clip, (&layer,), clip),
        call_ensures(
            Bounds::<ScaledPixels<S>>::intersect,
            (layer.destination_bounds, layer.content_mask),
            shared,
        ),
    ensures
        clip == shared,
{
}

/// A layer that does not transform is blurred and cut where it is shown. One that does is blurred
/// whole, and cut along whole pixels: its near corner is rounded down and its far corner up.
pub proof fn transformed_layers_are_rounded_out<S: Scalar>(
    layer: LayerEffect<S>,
    span: Bounds<ScaledPixels<S>>,
    transforms: bool,
    scissor: Bounds<ScaledPixels<S>>,
    blurred: Bounds<ScaledPixels<S>>,
    near: Point<ScaledPixels<S>>,
    far: Point<ScaledPixels<S>>,
    rounded: Bounds<ScaledPixels<S>>,
)
    requires
        call_ensures(Filter::<S>::transforms, (&layer.filter,), transforms),
        call_ensures(LayerEffect::<S>::destination_scissor_bounds, (&layer, span), scissor),
        call_ensures(LayerEffect::<S>::blur_bounds, (&layer, span), blurred),
        near.x.0 == span.origin.x.0.floor_spec(),
        near.y.0 == span.origin.y.0.floor_spec(),
        far.x.0 == span.origin.x.0.plus_spec(span.size.width.0).ceil_spec(),
        far.y.0 == span.origin.y.0.plus_spec(span.size.height.0).ceil_spec(),
        call_ensures(Bounds::<ScaledPixels<S>>::from_corners, (near, far), rounded),
    ensures
        !transforms ==> scissor == span && blurred == span,
        transforms ==> scissor == rounded && blurred == layer.source_bounds,
{
    assert(near == (Point {
        x: ScaledPixels(span.origin.x.0.floor_spec()),
        y: ScaledPixels(span.origin.y.0.floor_spec()),
    }));
    assert(far == (Point {
        x: ScaledPixels(span.bottom_right_spec().x.0.ceil_spec()),
        y: ScaledPixels(span.bottom_right_spec().y.0.ceil_spec()),
    }));
}

/// Scaling a rectangle about a point moves each corner along its line to the point: its distance is
/// multiplied by the scale.
pub proof fn scaling_multiplies_distances<S: Scalar>(
    bounds: Bounds<ScaledPixels<S>>,
    origin: Point<ScaledPixels<S>>,
    scale: S,
    scaled: Bounds<ScaledPixels<S>>,
    near: Point<ScaledPixels<S>>,
    far: Point<ScaledPixels<S>>,
    between: Bounds<ScaledPixels<S>>,
)
    requires
        call_ensures(scale_bounds_around::<S>, (bounds, origin, scale), scaled),
        near.x.0 == origin.x.0.plus_spec(
            bounds.origin.x.0.minus_spec(origin.x.0).times_spec(scale),
        ),
        near.y.0 == origin.y.0.plus_spec(
            bounds.origin.y.0.minus_spec(origin.y.0).times_spec(scale),
        ),
        far.x.0 == origin.x.0.plus_spec(
            bounds.origin.x.0.plus_spec(bounds.size.width.0).minus_spec(origin.x.0).times_spec(
                scale,
            ),
        ),
        far.y.0 == origin.y.0.plus_spec(
            bounds.origin.y.0.plus_spec(bounds.size.height.0).minus_spec(origin.y.0).times_spec(
                scale,
            ),
        ),
        call_ensures(Bounds::<ScaledPixels<S>>::from_corners, (near, far), between),
    ensures
        scaled == between,
{
    let corner = bounds.bottom_right_spec();
    assert(near == (Point {
        x: scaled_around(bounds.origin.x, origin.x, scale),
        y: scaled_around(bounds.origin.y, origin.y, scale),
    }));
    assert(far == (Point {
        x: scaled_around(corner.x, origin.x, scale),
        y: scaled_around(corner.y, origin.y, scale),
    }));
}

} // verus!
