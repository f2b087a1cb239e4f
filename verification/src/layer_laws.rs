//! What filters and filtered layers do, each on its own.
//!
//! Each law says what it takes from the arithmetic; fixed-point and whole numbers give it.

use crate::arithmetic_laws::fixed_point_cancels;
use crate::filter::{Filter, LayerEffect};
use crate::fixed::Fixed;
use crate::geometry::Bounds;
use crate::scalar::{Coordinate, Scalar, ScaledPixels};
use crate::whole::Whole;
use vstd::prelude::*;

verus! {

/// Whether a number compares with zero: it is above zero, or else at most zero.
pub open spec fn compares_with_zero<S: Scalar>(x: S) -> bool {
    x.at_most_spec(S::zero_spec()) == !S::zero_spec().less_spec(x)
}

/// A filter changes nothing exactly where it neither blurs, nor fades, nor transforms.
pub proof fn noop_is_no_blur_no_fade_no_transform<S: Scalar>(filter: Filter<S>)
    requires
        compares_with_zero(filter.blur),
    ensures
        filter.is_noop_spec() == !(filter.blurs_spec() || filter.fades_spec()
            || filter.transforms_spec()),
{
}

/// The default filter changes nothing, where zero and one compare as they should.
pub proof fn default_is_noop<S: Scalar>()
    requires
        S::zero_spec().at_most_spec(S::zero_spec()),
        !S::zero_spec().less_spec(S::zero_spec()),
        S::zero_spec().same_spec(S::zero_spec()),
        S::one_spec().same_spec(S::one_spec()),
    ensures
        Filter::<S>::default_spec().is_noop_spec(),
{
}

/// Whether comparing equal is symmetric and transitive, and numbers that compare equal are alike in
/// what they are above. A number need not compare equal to itself.
pub open spec fn same_is_equivalence<S: Scalar>() -> bool {
    &&& forall|x: S, y: S| #[trigger] x.same_spec(y) ==> y.same_spec(x)
    &&& forall|x: S, y: S, z: S| #[trigger]
        x.same_spec(y) && #[trigger] y.same_spec(z) ==> x.same_spec(z)
    &&& forall|x: S, y: S, z: S| #[trigger]
        x.same_spec(y) && #[trigger] z.less_spec(x) ==> z.less_spec(y)
}

/// Fixed-point numbers compare with zero, and comparing them equal is an equivalence.
pub proof fn fixed_point_compares(x: Fixed)
    ensures
        compares_with_zero(x),
        same_is_equivalence::<Fixed>(),
{
}

/// Whole numbers compare with zero, and comparing them equal is an equivalence.
pub proof fn whole_numbers_compare(x: Whole)
    ensures
        compares_with_zero(x),
        same_is_equivalence::<Whole>(),
{
}

/// Filters that compare equal do the same.
proof fn lemma_same_filters<S: Scalar>(a: Filter<S>, b: Filter<S>)
    requires
        same_is_equivalence::<S>(),
        a.same_spec(b),
    ensures
        b.same_spec(a),
        a.fades_spec() == b.fades_spec(),
        a.transforms_spec() == b.transforms_spec(),
{
    let zero = S::zero_spec();
    assert(zero.less_spec(a.fade_top) == zero.less_spec(b.fade_top));
    assert(zero.less_spec(a.fade_bottom) == zero.less_spec(b.fade_bottom));
    assert(zero.less_spec(a.fade_left) == zero.less_spec(b.fade_left));
    assert(zero.less_spec(a.fade_right) == zero.less_spec(b.fade_right));
    assert(a.scale.same_spec(S::one_spec()) == b.scale.same_spec(S::one_spec()));
    assert(a.translate.x.0.same_spec(zero) == b.translate.x.0.same_spec(zero));
    assert(a.translate.y.0.same_spec(zero) == b.translate.y.0.same_spec(zero));
}

/// Merging is symmetric, and depends on the filters and the parents alone: two layers merge exactly
/// where they have the same parent and the same filter, and it neither fades nor transforms.
pub proof fn merging_is_symmetric<S: Scalar>(a: LayerEffect<S>, b: LayerEffect<S>)
    requires
        same_is_equivalence::<S>(),
    ensures
        a.can_merge_with_spec(b) == b.can_merge_with_spec(a),
        a.can_merge_with_spec(b) == (a.filter.same_spec(b.filter) && a.parent == b.parent
            && !a.filter.fades_spec() && !a.filter.transforms_spec()),
{
    if a.filter.same_spec(b.filter) {
        lemma_same_filters(a.filter, b.filter);
    }
    if b.filter.same_spec(a.filter) {
        lemma_same_filters(b.filter, a.filter);
    }
}

/// Layers that are transformed do not merge with their siblings.
pub proof fn transformed_layers_never_merge<S: Scalar>(a: LayerEffect<S>, b: LayerEffect<S>)
    requires
        same_is_equivalence::<S>(),
        a.filter.transforms_spec() || b.filter.transforms_spec(),
    ensures
        !a.can_merge_with_spec(b),
{
    merging_is_symmetric(a, b);
}

/// Whether rounding leaves a number as it is.
pub open spec fn is_whole<S: Scalar>(x: S) -> bool {
    x.floor_spec() == x && x.ceil_spec() == x
}

/// Whether `x` is rounded as it should be: down to the greatest whole number that is not above it,
/// and up to the least that is not below it.
#[verifier::opaque]
pub open spec fn rounds_at<S: Scalar>(x: S) -> bool {
    &&& is_whole(x.floor_spec())
    &&& is_whole(x.ceil_spec())
    &&& x.floor_spec().at_most_spec(x)
    &&& x.at_most_spec(x.ceil_spec())
    &&& forall|w: S|
        is_whole(w) && #[trigger] w.at_most_spec(x) ==> w.at_most_spec(x.floor_spec())
    &&& forall|w: S|
        is_whole(w) && #[trigger] x.at_most_spec(w) ==> x.ceil_spec().at_most_spec(w)
}

/// Fixed-point numbers are rounded as they should be, up to the greatest whole one.
pub proof fn fixed_point_rounds(x: Fixed)
    requires
        x.0 <= 0x7fff_ffc0,
    ensures
        rounds_at(x),
{
    reveal(rounds_at);
}

/// Whole numbers are rounded as they should be: not at all.
pub proof fn whole_numbers_round(x: Whole)
    ensures
        rounds_at(x),
{
    reveal(rounds_at);
}

/// Whether both edges along each axis lie on whole pixels.
pub open spec fn has_whole_edges<S: Scalar>(bounds: Bounds<ScaledPixels<S>>) -> bool {
    let (near, far) = (bounds.origin, bounds.bottom_right_spec());
    &&& is_whole(near.x.0)
    &&& is_whole(near.y.0)
    &&& is_whole(far.x.0)
    &&& is_whole(far.y.0)
}

/// Whether taking a difference and adding it again leads back.
pub open spec fn difference_leads_back<S: Scalar>(from: S, to: S) -> bool {
    from.plus_spec(to.minus_spec(from)) == to
}

/// A transformed layer is cut out by the smallest rectangle with whole edges around its span, and
/// rounding that again changes nothing. Any other layer is cut out by the span itself.
pub proof fn scissor_is_the_smallest_whole_rectangle<S: Scalar>(
    layer: LayerEffect<S>,
    span: Bounds<ScaledPixels<S>>,
)
    requires
        ({
            let (near, far) = (span.origin, span.bottom_right_spec());
            &&& rounds_at(near.x.0)
            &&& rounds_at(near.y.0)
            &&& rounds_at(far.x.0)
            &&& rounds_at(far.y.0)
            &&& difference_leads_back(near.x.0.floor_spec(), far.x.0.ceil_spec())
            &&& difference_leads_back(near.y.0.floor_spec(), far.y.0.ceil_spec())
        }),
    ensures
        ({
            let scissor = layer.destination_scissor_bounds_spec(span);
            &&& !layer.filter.transforms_spec() ==> scissor == span
            &&& layer.filter.transforms_spec() ==> {
                &&& has_whole_edges(scissor)
                &&& scissor.encloses(span)
                &&& forall|other: Bounds<ScaledPixels<S>>|
                    has_whole_edges(other) && #[trigger] other.encloses(span) ==> other.encloses(
                        scissor,
                    )
            }
            &&& layer.destination_scissor_bounds_spec(scissor) == scissor
        }),
{
    reveal(rounds_at);
    let scissor = layer.destination_scissor_bounds_spec(span);
    if layer.filter.transforms_spec() {
        let (near, far) = (span.origin, span.bottom_right_spec());
        assert(scissor.bottom_right_spec().x.0 == far.x.0.ceil_spec());
        assert(scissor.bottom_right_spec().y.0 == far.y.0.ceil_spec());
        assert forall|other: Bounds<ScaledPixels<S>>|
            has_whole_edges(other) && #[trigger] other.encloses(span) implies other.encloses(
            scissor,
        ) by {
            let edge = other.bottom_right_spec();
            assert(other.origin.x.0.at_most_spec(near.x.0));
            assert(other.origin.y.0.at_most_spec(near.y.0));
            assert(far.x.0.at_most_spec(edge.x.0));
            assert(far.y.0.at_most_spec(edge.y.0));
        }
    }
}

/// In fixed point this holds of every span whose edges can be rounded up at all.
pub proof fn fixed_point_scissor_is_the_smallest_whole_rectangle(
    layer: LayerEffect<Fixed>,
    span: Bounds<ScaledPixels<Fixed>>,
)
    requires
        span.origin.x.0.0 <= 0x7fff_ffc0,
        span.origin.y.0.0 <= 0x7fff_ffc0,
        span.bottom_right_spec().x.0.0 <= 0x7fff_ffc0,
        span.bottom_right_spec().y.0.0 <= 0x7fff_ffc0,
    ensures
        ({
            let scissor = layer.destination_scissor_bounds_spec(span);
            &&& !layer.filter.transforms_spec() ==> scissor == span
            &&& layer.filter.transforms_spec() ==> {
                &&& has_whole_edges(scissor)
                &&& scissor.encloses(span)
                &&& forall|other: Bounds<ScaledPixels<Fixed>>|
                    has_whole_edges(other) && #[trigger] other.encloses(span) ==> other.encloses(
                        scissor,
                    )
            }
            &&& layer.destination_scissor_bounds_spec(scissor) == scissor
        }),
{
    fixed_point_rounds(span.origin.x.0);
    fixed_point_rounds(span.origin.y.0);
    fixed_point_rounds(span.bottom_right_spec().x.0);
    fixed_point_rounds(span.bottom_right_spec().y.0);
    fixed_point_cancels();
    scissor_is_the_smallest_whole_rectangle(layer, span);
}

} // verus!
