//! What the geometry of layers and transformations comes to where numbers compute exactly.
//!
//! Numbers in general round, so each law says what it takes from the arithmetic.

use crate::filter::{scale_bounds_around_spec, scaled_around, Filter};
use crate::fixed::Fixed;
use crate::geometry::{Bounds, Point};
use crate::scalar::{Coordinate, Scalar, ScaledPixels};
use crate::scene::SceneView;
use crate::transform::TransformationMatrix;
use crate::whole::Whole;
use vstd::arithmetic::div_mod::{
    lemma_add_mod_noop, lemma_mul_mod_noop_left, lemma_mul_mod_noop_right,
};
use vstd::arithmetic::mul::{
    lemma_mul_is_associative, lemma_mul_is_commutative, lemma_mul_is_distributive_add,
};
use vstd::prelude::*;

verus! {

/// Whether adding and taking away cancel each other, and zero and one have no effect.
pub open spec fn cancels<S: Scalar>() -> bool {
    &&& forall|x: S| #[trigger] x.minus_spec(x) == S::zero_spec()
    &&& forall|x: S| #[trigger] S::zero_spec().times_spec(x) == S::zero_spec()
    &&& forall|x: S| #[trigger] x.plus_spec(S::zero_spec()) == x
    &&& forall|x: S| #[trigger] x.times_spec(S::one_spec()) == x
    &&& forall|x: S, y: S| #[trigger] x.plus_spec(y.minus_spec(x)) == y
    &&& forall|x: S, y: S| #[trigger] x.plus_spec(y).minus_spec(x) == y
}

/// Whether zero and one have no effect on either side, and only what is equal compares equal.
pub open spec fn has_neutrals<S: Scalar>() -> bool {
    &&& forall|x: S| #[trigger] x.plus_spec(S::zero_spec()) == x
    &&& forall|x: S| #[trigger] S::zero_spec().plus_spec(x) == x
    &&& forall|x: S| #[trigger] S::zero_spec().times_spec(x) == S::zero_spec()
    &&& forall|x: S| #[trigger] S::one_spec().times_spec(x) == x
    &&& forall|x: S, y: S| #[trigger] x.same_spec(y) ==> x == y
}

/// Whether sums and products can be regrouped, multiplied out and compared at will, as those of
/// whole numbers can.
#[verifier::opaque]
pub open spec fn is_exact<S: Scalar>() -> bool {
    &&& forall|x: S, y: S| #[trigger] x.plus_spec(y) == y.plus_spec(x)
    &&& forall|x: S, y: S, z: S| #[trigger]
        x.plus_spec(y).plus_spec(z) == x.plus_spec(y.plus_spec(z))
    &&& forall|x: S, y: S, z: S| #[trigger]
        x.times_spec(y).times_spec(z) == x.times_spec(y.times_spec(z))
    &&& forall|x: S, y: S, z: S| #[trigger]
        x.times_spec(y.plus_spec(z)) == x.times_spec(y).plus_spec(x.times_spec(z))
    &&& forall|x: S, y: S, z: S| #[trigger]
        x.plus_spec(y).times_spec(z) == x.times_spec(z).plus_spec(y.times_spec(z))
    &&& forall|x: S, y: S| #[trigger] x.plus_spec(y).minus_spec(y) == x
    &&& forall|x: S, y: S| #[trigger] x.minus_spec(y).plus_spec(y) == x
    &&& forall|x: S| #[trigger] x.plus_spec(S::zero_spec()) == x
    &&& forall|x: S| #[trigger] S::zero_spec().times_spec(x) == S::zero_spec()
    &&& forall|x: S| #[trigger] S::one_spec().times_spec(x) == x
    &&& forall|x: S, y: S| #[trigger] x.same_spec(y) ==> x == y
}

/// Fixed-point numbers cancel, for all that they round and wrap around.
pub proof fn fixed_point_cancels()
    ensures
        cancels::<Fixed>(),
        has_neutrals::<Fixed>(),
{
}

/// Whole numbers compute exactly, for all that they wrap around.
pub proof fn whole_numbers_are_exact()
    ensures
        is_exact::<Whole>(),
        cancels::<Whole>(),
        has_neutrals::<Whole>(),
{
    reveal(is_exact);
    assert forall|x: Whole, y: Whole, z: Whole| #[trigger]
        x.times_spec(y).times_spec(z) == x.times_spec(y.times_spec(z)) by {
        lemma_whole_times(x, y);
        lemma_whole_times(x.times_spec(y), z);
        lemma_whole_times(y, z);
        lemma_whole_times(x, y.times_spec(z));
        lemma_mul_mod_noop_left(x.0 * y.0, z.0 as int, 0x1_0000_0000);
        lemma_mul_mod_noop_left(x.times_spec(y).0 as int, z.0 as int, 0x1_0000_0000);
        lemma_mul_mod_noop_right(x.0 as int, y.0 * z.0, 0x1_0000_0000);
        lemma_mul_mod_noop_right(x.0 as int, y.times_spec(z).0 as int, 0x1_0000_0000);
        lemma_mul_is_associative(x.0 as int, y.0 as int, z.0 as int);
        lemma_whole_by_remainder(x.times_spec(y).times_spec(z), x.times_spec(y.times_spec(z)));
    }
    assert forall|x: Whole, y: Whole, z: Whole| #[trigger]
        x.times_spec(y.plus_spec(z)) == x.times_spec(y).plus_spec(x.times_spec(z)) by {
        lemma_whole_distributes(x, y, z);
    }
    assert forall|x: Whole, y: Whole, z: Whole| #[trigger]
        x.plus_spec(y).times_spec(z) == x.times_spec(z).plus_spec(y.times_spec(z)) by {
        lemma_whole_distributes(z, x, y);
        lemma_mul_is_commutative(x.plus_spec(y).0 as int, z.0 as int);
        lemma_mul_is_commutative(x.0 as int, z.0 as int);
        lemma_mul_is_commutative(y.0 as int, z.0 as int);
    }
    assert forall|x: Whole| #[trigger] Whole::zero_spec().times_spec(x) == Whole::zero_spec() by {
        lemma_whole_times(Whole(0), x);
        lemma_whole_by_remainder(Whole(0).times_spec(x), Whole(0));
    }
    assert forall|x: Whole| #[trigger] Whole::one_spec().times_spec(x) == x by {
        lemma_whole_times(Whole(1), x);
        lemma_whole_by_remainder(Whole(1).times_spec(x), x);
    }
    assert forall|x: Whole| #[trigger] x.times_spec(Whole::one_spec()) == x by {
        lemma_whole_times(x, Whole(1));
        lemma_whole_by_remainder(x.times_spec(Whole(1)), x);
    }
}

/// Whole numbers that leave the same remainder are equal.
proof fn lemma_whole_by_remainder(x: Whole, y: Whole)
    requires
        x.0 as int % 0x1_0000_0000 == y.0 as int % 0x1_0000_0000,
    ensures
        x == y,
{
}

proof fn lemma_whole_times(x: Whole, y: Whole)
    ensures
        x.times_spec(y).0 as int % 0x1_0000_0000 == (x.0 * y.0) % 0x1_0000_0000,
{
}

proof fn lemma_whole_plus(x: Whole, y: Whole)
    ensures
        x.plus_spec(y).0 as int % 0x1_0000_0000 == (x.0 + y.0) % 0x1_0000_0000,
{
}

proof fn lemma_whole_distributes(x: Whole, y: Whole, z: Whole)
    ensures
        x.times_spec(y.plus_spec(z)) == x.times_spec(y).plus_spec(x.times_spec(z)),
{
    lemma_whole_plus(y, z);
    lemma_whole_times(x, y.plus_spec(z));
    lemma_whole_times(x, y);
    lemma_whole_times(x, z);
    lemma_whole_plus(x.times_spec(y), x.times_spec(z));
    lemma_mul_mod_noop_right(x.0 as int, y.0 + z.0, 0x1_0000_0000);
    lemma_mul_mod_noop_right(x.0 as int, y.plus_spec(z).0 as int, 0x1_0000_0000);
    lemma_mul_is_distributive_add(x.0 as int, y.0 as int, z.0 as int);
    lemma_add_mod_noop(x.0 * y.0, x.0 * z.0, 0x1_0000_0000);
    lemma_add_mod_noop(x.times_spec(y).0 as int, x.times_spec(z).0 as int, 0x1_0000_0000);
    lemma_whole_by_remainder(
        x.times_spec(y.plus_spec(z)),
        x.times_spec(y).plus_spec(x.times_spec(z)),
    );
}

/// Scaling around a point leaves the point where it is.
pub proof fn scaling_keeps_its_origin_fixed<S: Scalar>(origin: ScaledPixels<S>, scale: S)
    requires
        cancels::<S>(),
    ensures
        scaled_around(origin, origin, scale) == origin,
{
}

/// Scaling by one leaves every rectangle as it is.
pub proof fn scaling_by_one_changes_nothing<S: Scalar>(
    bounds: Bounds<ScaledPixels<S>>,
    origin: Point<ScaledPixels<S>>,
)
    requires
        cancels::<S>(),
    ensures
        scale_bounds_around_spec(bounds, origin, S::one_spec()) == bounds,
{
}

/// A layer that is not scaled is moved by its translation, and its source is not.
pub proof fn translation_moves_only_the_destination<S: Scalar>(
    scene: SceneView<S>,
    source_bounds: Bounds<ScaledPixels<S>>,
    transform_origin: Point<ScaledPixels<S>>,
    content_mask: Bounds<ScaledPixels<S>>,
    filter: Filter<S>,
)
    requires
        cancels::<S>(),
        filter.scale == S::one_spec(),
    ensures
        ({
            let layer = scene.new_effect(source_bounds, transform_origin, content_mask, filter);
            &&& layer.source_bounds == source_bounds
            &&& layer.destination_bounds.origin == source_bounds.origin.plus_spec(filter.translate)
            &&& layer.destination_bounds.size == source_bounds.size
        }),
{
    scaling_by_one_changes_nothing(source_bounds, transform_origin);
}

/// A filter that does nothing composites a layer back to where it was painted.
pub proof fn default_filter_keeps_the_destination<S: Scalar>(
    scene: SceneView<S>,
    source_bounds: Bounds<ScaledPixels<S>>,
    transform_origin: Point<ScaledPixels<S>>,
    content_mask: Bounds<ScaledPixels<S>>,
)
    requires
        cancels::<S>(),
    ensures
        scene.new_effect(
            source_bounds,
            transform_origin,
            content_mask,
            Filter::default_spec(),
        ).destination_bounds == source_bounds,
{
    scaling_by_one_changes_nothing(source_bounds, transform_origin);
}

/// Scaling a rectangle around its center keeps the center fixed: opposite corners stay equally far
/// from it.
pub proof fn scaling_around_the_center_keeps_it<S: Scalar>(
    bounds: Bounds<ScaledPixels<S>>,
    center: Point<ScaledPixels<S>>,
    scale: S,
)
    requires
        is_exact::<S>(),
        center.x.minus_spec(bounds.origin.x) == bounds.bottom_right_spec().x.minus_spec(center.x),
        center.y.minus_spec(bounds.origin.y) == bounds.bottom_right_spec().y.minus_spec(center.y),
    ensures
        ({
            let scaled = scale_bounds_around_spec(bounds, center, scale);
            let far = scaled.bottom_right_spec();
            &&& center.x.minus_spec(scaled.origin.x) == far.x.minus_spec(center.x)
            &&& center.y.minus_spec(scaled.origin.y) == far.y.minus_spec(center.y)
        }),
{
    let far = bounds.bottom_right_spec();
    lemma_center_kept(bounds.origin.x.0, far.x.0, center.x.0, scale);
    lemma_center_kept(bounds.origin.y.0, far.y.0, center.y.0, scale);
}

/// One axis of scaling around a center.
proof fn lemma_center_kept<S: Scalar>(near: S, far: S, center: S, scale: S)
    requires
        is_exact::<S>(),
        center.minus_spec(near) == far.minus_spec(center),
    ensures
        ({
            let low = center.plus_spec(near.minus_spec(center).times_spec(scale));
            let high = center.plus_spec(far.minus_spec(center).times_spec(scale));
            center.minus_spec(low) == low.plus_spec(high.minus_spec(low)).minus_spec(center)
        }),
{
    let zero = S::zero_spec();
    let (d, e) = (far.minus_spec(center), near.minus_spec(center));
    let (ds, es) = (d.times_spec(scale), e.times_spec(scale));
    let (low, high) = (center.plus_spec(es), center.plus_spec(ds));
    assert(d.plus_spec(e) == zero) by {
        lemma_minus(center, near);
        lemma_minus(near, center);
        lemma_associates(d, e, center);
        lemma_minus(d.plus_spec(e), center);
        lemma_minus(zero, center);
        lemma_neutral(center);
    }
    assert(ds.plus_spec(low) == center) by {
        lemma_associates(ds, center, es);
        lemma_associates(center, ds, es);
        lemma_distributes(d, e, scale);
        lemma_neutral(scale);
        lemma_neutral(center);
    }
    lemma_minus(ds, low);
    lemma_minus(high, low);
    lemma_associates(low, high.minus_spec(low), zero);
    lemma_associates(center, ds, zero);
    lemma_minus(ds, center);
}

/// `(x + y) - y == (x - y) + y == x`
proof fn lemma_minus<S: Scalar>(x: S, y: S)
    requires
        is_exact::<S>(),
    ensures
        x.plus_spec(y).minus_spec(y) == x,
        x.minus_spec(y).plus_spec(y) == x,
{
    reveal(is_exact);
}

/// The unit matrix has no effect on either side: composing with it changes nothing.
pub proof fn unit_has_no_effect_on_either_side<S: Scalar>(matrix: TransformationMatrix<S>)
    requires
        has_neutrals::<S>(),
        S::zero_spec().same_spec(S::zero_spec()),
        S::one_spec().same_spec(S::one_spec()),
    ensures
        matrix.compose_spec(TransformationMatrix::unit_spec()) == matrix,
        TransformationMatrix::unit_spec().compose_spec(matrix) == matrix,
{
    let unit = TransformationMatrix::<S>::unit_spec();
    let composed = unit.compose_spec(matrix);
    matrix.unit_has_no_effect();
    assert(composed.rotation_scale[0][0] == matrix.rotation_scale[0][0]);
    assert(composed.rotation_scale[0][1] == matrix.rotation_scale[0][1]);
    assert(composed.rotation_scale[1][0] == matrix.rotation_scale[1][0]);
    assert(composed.rotation_scale[1][1] == matrix.rotation_scale[1][1]);
    assert(composed.rotation_scale[0] =~= matrix.rotation_scale[0]);
    assert(composed.rotation_scale[1] =~= matrix.rotation_scale[1]);
    assert(composed.rotation_scale =~= matrix.rotation_scale);
    assert(composed.translation[0] == matrix.translation[0]);
    assert(composed.translation[1] == matrix.translation[1]);
    assert(composed.translation =~= matrix.translation);
}

/// The unit matrix leaves every point where it is.
pub proof fn unit_moves_nothing<S: Scalar>(x: S, y: S)
    requires
        has_neutrals::<S>(),
    ensures
        TransformationMatrix::<S>::unit_spec().moved_spec(x, y, 0) == x,
        TransformationMatrix::<S>::unit_spec().moved_spec(x, y, 1) == y,
{
    let zero = S::zero_spec();
    assert(TransformationMatrix::<S>::unit_spec().moved_spec(x, y, 0) == zero.plus_spec(
        S::one_spec().times_spec(x),
    ).plus_spec(zero.times_spec(y)));
    assert(TransformationMatrix::<S>::unit_spec().moved_spec(x, y, 1) == zero.plus_spec(
        zero.times_spec(x),
    ).plus_spec(S::one_spec().times_spec(y)));
}

/// A composition applies both transformations: first `other`, then `matrix`.
pub proof fn compose_applies_other_first<S: Scalar>(
    matrix: TransformationMatrix<S>,
    other: TransformationMatrix<S>,
    x: S,
    y: S,
)
    requires
        is_exact::<S>(),
    ensures
        ({
            let composed = matrix.compose_spec(other);
            let (u, v) = (other.moved_spec(x, y, 0), other.moved_spec(x, y, 1));
            &&& composed.moved_spec(x, y, 0) == matrix.moved_spec(u, v, 0)
            &&& composed.moved_spec(x, y, 1) == matrix.moved_spec(u, v, 1)
        }),
{
    let unit = TransformationMatrix::<S>::unit_spec();
    if other.same_spec(unit) {
        lemma_same_moves_alike(other, unit, x, y);
        lemma_exact_has_neutrals::<S>();
        unit_moves_nothing(x, y);
    } else {
        let composed = matrix.compose_spec(other);
        let (u, v) = (other.moved_spec(x, y, 0), other.moved_spec(x, y, 1));
        assert(composed.moved_spec(x, y, 0) == matrix.moved_spec(u, v, 0)) by {
            lemma_composed_row(
                matrix.translation[0],
                matrix.rotation_scale[0],
                other.translation,
                other.rotation_scale,
                x,
                y,
            );
        }
        assert(composed.moved_spec(x, y, 1) == matrix.moved_spec(u, v, 1)) by {
            lemma_composed_row(
                matrix.translation[1],
                matrix.rotation_scale[1],
                other.translation,
                other.rotation_scale,
                x,
                y,
            );
        }
    }
}

/// One axis of a composition: `shift` and `row` are those of the outer matrix, `s` and `b` belong
/// to the inner one.
proof fn lemma_composed_row<S: Scalar>(
    shift: S,
    row: [S; 2],
    s: [S; 2],
    b: [[S; 2]; 2],
    x: S,
    y: S,
)
    requires
        is_exact::<S>(),
    ensures
        shift.plus_spec(row[0].times_spec(s[0])).plus_spec(row[1].times_spec(s[1])).plus_spec(
            row[0].times_spec(b[0][0]).plus_spec(row[1].times_spec(b[1][0])).times_spec(x),
        ).plus_spec(
            row[0].times_spec(b[0][1]).plus_spec(row[1].times_spec(b[1][1])).times_spec(y),
        ) == shift.plus_spec(
            row[0].times_spec(
                s[0].plus_spec(b[0][0].times_spec(x)).plus_spec(b[0][1].times_spec(y)),
            ),
        ).plus_spec(
            row[1].times_spec(
                s[1].plus_spec(b[1][0].times_spec(x)).plus_spec(b[1][1].times_spec(y)),
            ),
        ),
{
    lemma_pulled_out(row[0], b[0][0], row[1], b[1][0], x);
    lemma_pulled_out(row[0], b[0][1], row[1], b[1][1], y);
    lemma_multiplied_out(row[0], s[0], b[0][0].times_spec(x), b[0][1].times_spec(y));
    lemma_multiplied_out(row[1], s[1], b[1][0].times_spec(x), b[1][1].times_spec(y));
    lemma_regrouped(
        shift,
        row[0].times_spec(s[0]),
        row[1].times_spec(s[1]),
        row[0].times_spec(b[0][0].times_spec(x)),
        row[1].times_spec(b[1][0].times_spec(x)),
        row[0].times_spec(b[0][1].times_spec(y)),
        row[1].times_spec(b[1][1].times_spec(y)),
    );
}

pub(crate) proof fn lemma_exact_has_neutrals<S: Scalar>()
    requires
        is_exact::<S>(),
    ensures
        has_neutrals::<S>(),
{
    assert forall|x: S| #[trigger] x.plus_spec(S::zero_spec()) == x by {
        lemma_neutral(x);
    }
    assert forall|x: S| #[trigger] S::zero_spec().plus_spec(x) == x by {
        lemma_neutral(x);
    }
    assert forall|x: S| #[trigger] S::zero_spec().times_spec(x) == S::zero_spec() by {
        lemma_neutral(x);
    }
    assert forall|x: S| #[trigger] S::one_spec().times_spec(x) == x by {
        lemma_neutral(x);
    }
    assert forall|x: S, y: S| #[trigger] x.same_spec(y) implies x == y by {
        lemma_same(x, y);
    }
}

proof fn lemma_same<S: Scalar>(x: S, y: S)
    requires
        is_exact::<S>(),
        x.same_spec(y),
    ensures
        x == y,
{
    reveal(is_exact);
}

proof fn lemma_same_moves_alike<S: Scalar>(
    matrix: TransformationMatrix<S>,
    other: TransformationMatrix<S>,
    x: S,
    y: S,
)
    requires
        is_exact::<S>(),
        matrix.same_spec(other),
    ensures
        matrix.moved_spec(x, y, 0) == other.moved_spec(x, y, 0),
        matrix.moved_spec(x, y, 1) == other.moved_spec(x, y, 1),
{
    lemma_same(matrix.rotation_scale[0][0], other.rotation_scale[0][0]);
    lemma_same(matrix.rotation_scale[0][1], other.rotation_scale[0][1]);
    lemma_same(matrix.rotation_scale[1][0], other.rotation_scale[1][0]);
    lemma_same(matrix.rotation_scale[1][1], other.rotation_scale[1][1]);
    lemma_same(matrix.translation[0], other.translation[0]);
    lemma_same(matrix.translation[1], other.translation[1]);
}

/// `x + 0 == 0 + x == 1 * x == x` and `0 * x == 0`
proof fn lemma_neutral<S: Scalar>(x: S)
    requires
        is_exact::<S>(),
    ensures
        x.plus_spec(S::zero_spec()) == x,
        S::zero_spec().plus_spec(x) == x,
        S::one_spec().times_spec(x) == x,
        S::zero_spec().times_spec(x) == S::zero_spec(),
{
    reveal(is_exact);
}

/// `x * (y + z) == x * y + x * z` and `(x + y) * z == x * z + y * z`
proof fn lemma_distributes<S: Scalar>(x: S, y: S, z: S)
    requires
        is_exact::<S>(),
    ensures
        x.times_spec(y.plus_spec(z)) == x.times_spec(y).plus_spec(x.times_spec(z)),
        x.plus_spec(y).times_spec(z) == x.times_spec(z).plus_spec(y.times_spec(z)),
{
    reveal(is_exact);
}

/// `x + y == y + x`, `(x + y) + z == x + (y + z)` and `(x * y) * z == x * (y * z)`
proof fn lemma_associates<S: Scalar>(x: S, y: S, z: S)
    requires
        is_exact::<S>(),
    ensures
        x.plus_spec(y) == y.plus_spec(x),
        x.plus_spec(y).plus_spec(z) == x.plus_spec(y.plus_spec(z)),
        x.times_spec(y).times_spec(z) == x.times_spec(y.times_spec(z)),
{
    reveal(is_exact);
}

/// `(a * b + c * d) * x == a * (b * x) + c * (d * x)`
proof fn lemma_pulled_out<S: Scalar>(a: S, b: S, c: S, d: S, x: S)
    requires
        is_exact::<S>(),
    ensures
        a.times_spec(b).plus_spec(c.times_spec(d)).times_spec(x) == a.times_spec(
            b.times_spec(x),
        ).plus_spec(c.times_spec(d.times_spec(x))),
{
    lemma_distributes(a.times_spec(b), c.times_spec(d), x);
    lemma_associates(a, b, x);
    lemma_associates(c, d, x);
}

/// `a * (x + y + z) == a * x + a * y + a * z`
proof fn lemma_multiplied_out<S: Scalar>(a: S, x: S, y: S, z: S)
    requires
        is_exact::<S>(),
    ensures
        a.times_spec(x.plus_spec(y).plus_spec(z)) == a.times_spec(x).plus_spec(
            a.times_spec(y),
        ).plus_spec(a.times_spec(z)),
{
    lemma_distributes(a, x.plus_spec(y), z);
    lemma_distributes(a, x, y);
}

/// `(a + b) + (c + d) == (a + c) + (b + d)`
proof fn lemma_exchanged<S: Scalar>(a: S, b: S, c: S, d: S)
    requires
        is_exact::<S>(),
    ensures
        a.plus_spec(b).plus_spec(c.plus_spec(d)) == a.plus_spec(c).plus_spec(b.plus_spec(d)),
{
    lemma_associates(a, b, c.plus_spec(d));
    lemma_associates(b, c, d);
    lemma_associates(c, b, d);
    lemma_associates(a, c, b.plus_spec(d));
}

/// `t + p + q + (a + b) + (c + d) == t + (p + a + c) + (q + b + d)`
proof fn lemma_regrouped<S: Scalar>(t: S, p: S, q: S, a: S, b: S, c: S, d: S)
    requires
        is_exact::<S>(),
    ensures
        t.plus_spec(p).plus_spec(q).plus_spec(a.plus_spec(b)).plus_spec(c.plus_spec(d))
            == t.plus_spec(p.plus_spec(a).plus_spec(c)).plus_spec(
            q.plus_spec(b).plus_spec(d),
        ),
{
    let tp = t.plus_spec(p);
    lemma_exchanged(tp, q, a, b);
    lemma_exchanged(tp.plus_spec(a), q.plus_spec(b), c, d);
    lemma_associates(t, p, a);
    lemma_associates(t, p.plus_spec(a), c);
}

} // verus!
