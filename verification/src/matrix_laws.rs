//! Where transformations move points.

use crate::arithmetic_laws::{
    compose_applies_other_first, has_neutrals, is_exact, lemma_exact_has_neutrals,
    unit_moves_nothing,
};
use crate::geometry::{Point, Size};
use crate::scalar::{Coordinate, Pixels, Scalar, ScaledPixels};
use crate::transform::TransformationMatrix;
use vstd::prelude::*;

verus! {

/// A point is moved by the translation, and by the first column as far as it is to the right and
/// the second as far as it is down.
pub proof fn applied_by_columns<S: Scalar>(
    m: TransformationMatrix<S>,
    p: Point<Pixels<S>>,
    q: Point<Pixels<S>>,
)
    requires
        call_ensures(TransformationMatrix::<S>::apply, (&m, p), q),
    ensures
        q.x.0 == m.translation[0].plus_spec(m.rotation_scale[0][0].times_spec(p.x.0)).plus_spec(
            m.rotation_scale[0][1].times_spec(p.y.0),
        ),
        q.y.0 == m.translation[1].plus_spec(m.rotation_scale[1][0].times_spec(p.x.0)).plus_spec(
            m.rotation_scale[1][1].times_spec(p.y.0),
        ),
{
}

/// The unit, which is the default, leaves every point where it is.
pub proof fn unit_leaves_points_alone<S: Scalar>(
    unit: TransformationMatrix<S>,
    default: TransformationMatrix<S>,
    p: Point<Pixels<S>>,
    q: Point<Pixels<S>>,
)
    requires
        has_neutrals::<S>(),
        call_ensures(TransformationMatrix::<S>::unit, (), unit),
        call_ensures(<TransformationMatrix<S> as Default>::default, (), default),
        call_ensures(TransformationMatrix::<S>::apply, (&unit, p), q),
    ensures
        default == unit,
        q == p,
{
    unit_moves_nothing(p.x.0, p.y.0);
    assert(q.x.0 == p.x.0 && q.y.0 == p.y.0);
}

/// The unit has ones where rows and columns meet, and zeros elsewhere.
pub proof fn unit_has_ones_and_zeros<S: Scalar>(unit: TransformationMatrix<S>)
    requires
        call_ensures(TransformationMatrix::<S>::unit, (), unit),
    ensures
        unit.rotation_scale[0][0] == S::one_spec() && unit.rotation_scale[0][1] == S::zero_spec(),
        unit.rotation_scale[1][0] == S::zero_spec() && unit.rotation_scale[1][1] == S::one_spec(),
        unit.translation[0] == S::zero_spec() && unit.translation[1] == S::zero_spec(),
{
}

/// A composition moves every point as both transformations do, first `b` and then `a`.
pub proof fn composed_is_one_after_the_other<S: Scalar>(
    a: TransformationMatrix<S>,
    b: TransformationMatrix<S>,
    both: TransformationMatrix<S>,
    p: Point<Pixels<S>>,
    moved: (Point<Pixels<S>>, Point<Pixels<S>>),
    at_once: Point<Pixels<S>>,
)
    requires
        is_exact::<S>(),
        call_ensures(TransformationMatrix::<S>::compose, (a, b), both),
        call_ensures(TransformationMatrix::<S>::apply, (&b, p), moved.0),
        call_ensures(TransformationMatrix::<S>::apply, (&a, moved.0), moved.1),
        call_ensures(TransformationMatrix::<S>::apply, (&both, p), at_once),
    ensures
        at_once == moved.1,
{
    compose_applies_other_first(a, b, p.x.0, p.y.0);
    assert(at_once.x.0 == moved.1.x.0 && at_once.y.0 == moved.1.y.0);
}

/// A composition is the product of the matrices, and moves the translation of `b` as `a` moves
/// points. With what compares equal to the unit, it is `a` as it stands.
pub proof fn composed_is_the_product<S: Scalar>(
    a: TransformationMatrix<S>,
    b: TransformationMatrix<S>,
    both: TransformationMatrix<S>,
    unit: TransformationMatrix<S>,
    is_unit: bool,
)
    requires
        call_ensures(TransformationMatrix::<S>::compose, (a, b), both),
        call_ensures(TransformationMatrix::<S>::unit, (), unit),
        call_ensures(<TransformationMatrix<S> as PartialEq>::eq, (&b, &unit), is_unit),
    ensures
        is_unit ==> both == a,
        !is_unit ==> {
            &&& both.rotation_scale[0][0] == a.rotation_scale[0][0].times_spec(
                b.rotation_scale[0][0],
            ).plus_spec(a.rotation_scale[0][1].times_spec(b.rotation_scale[1][0]))
            &&& both.rotation_scale[0][1] == a.rotation_scale[0][0].times_spec(
                b.rotation_scale[0][1],
            ).plus_spec(a.rotation_scale[0][1].times_spec(b.rotation_scale[1][1]))
            &&& both.rotation_scale[1][0] == a.rotation_scale[1][0].times_spec(
                b.rotation_scale[0][0],
            ).plus_spec(a.rotation_scale[1][1].times_spec(b.rotation_scale[1][0]))
            &&& both.rotation_scale[1][1] == a.rotation_scale[1][0].times_spec(
                b.rotation_scale[0][1],
            ).plus_spec(a.rotation_scale[1][1].times_spec(b.rotation_scale[1][1]))
            &&& both.translation[0] == a.translation[0].plus_spec(
                a.rotation_scale[0][0].times_spec(b.translation[0]),
            ).plus_spec(a.rotation_scale[0][1].times_spec(b.translation[1]))
            &&& both.translation[1] == a.translation[1].plus_spec(
                a.rotation_scale[1][0].times_spec(b.translation[0]),
            ).plus_spec(a.rotation_scale[1][1].times_spec(b.translation[1]))
        },
{
}

/// Matrices compare equal exactly where all their entries do.
pub proof fn equal_matrices_have_equal_entries<S: Scalar>(
    a: TransformationMatrix<S>,
    b: TransformationMatrix<S>,
    equal: bool,
)
    requires
        call_ensures(<TransformationMatrix<S> as PartialEq>::eq, (&a, &b), equal),
    ensures
        equal <==> {
            &&& forall|i: int, j: int|
                0 <= i < 2 && 0 <= j < 2 ==> (#[trigger] a.rotation_scale[i][j]).same_spec(
                    b.rotation_scale[i][j],
                )
            &&& forall|i: int|
                0 <= i < 2 ==> (#[trigger] a.translation[i]).same_spec(b.translation[i])
        },
{
    if forall|i: int, j: int|
        0 <= i < 2 && 0 <= j < 2 ==> (#[trigger] a.rotation_scale[i][j]).same_spec(
            b.rotation_scale[i][j],
        ) {
        assert(a.rotation_scale[0][0].same_spec(b.rotation_scale[0][0]));
        assert(a.rotation_scale[0][1].same_spec(b.rotation_scale[0][1]));
        assert(a.rotation_scale[1][0].same_spec(b.rotation_scale[1][0]));
        assert(a.rotation_scale[1][1].same_spec(b.rotation_scale[1][1]));
    }
    if forall|i: int| 0 <= i < 2 ==> (#[trigger] a.translation[i]).same_spec(b.translation[i]) {
        assert(a.translation[0].same_spec(b.translation[0]));
        assert(a.translation[1].same_spec(b.translation[1]));
    }
}

/// A translated transformation does to a point what the transformation does to the moved point.
pub proof fn translating_moves_points_first<S: Scalar>(
    m: TransformationMatrix<S>,
    by: Point<ScaledPixels<S>>,
    translated: TransformationMatrix<S>,
    p: Point<Pixels<S>>,
    moved: Point<Pixels<S>>,
    results: (Point<Pixels<S>>, Point<Pixels<S>>),
)
    requires
        is_exact::<S>(),
        call_ensures(TransformationMatrix::<S>::translate, (m, by), translated),
        moved.x.0 == by.x.0.plus_spec(p.x.0),
        moved.y.0 == by.y.0.plus_spec(p.y.0),
        call_ensures(TransformationMatrix::<S>::apply, (&translated, p), results.0),
        call_ensures(TransformationMatrix::<S>::apply, (&m, moved), results.1),
    ensures
        results.0 == results.1,
{
    let other = TransformationMatrix {
        rotation_scale: TransformationMatrix::<S>::unit_spec().rotation_scale,
        translation: [by.x.0, by.y.0],
    };
    compose_applies_other_first(m, other, p.x.0, p.y.0);
    lemma_exact_has_neutrals::<S>();
    assert(other.moved_spec(p.x.0, p.y.0, 0) == by.x.0.plus_spec(
        S::one_spec().times_spec(p.x.0),
    ).plus_spec(S::zero_spec().times_spec(p.y.0)));
    assert(other.moved_spec(p.x.0, p.y.0, 1) == by.y.0.plus_spec(
        S::zero_spec().times_spec(p.x.0),
    ).plus_spec(S::one_spec().times_spec(p.y.0)));
    assert(results.0.x.0 == results.1.x.0 && results.0.y.0 == results.1.y.0);
}

/// A rotated transformation does to a point what the transformation does to the point turned about
/// the origin: to the right by the cosine and against the sine, down by the sine and the cosine.
pub proof fn rotating_turns_points_first<S: Scalar>(
    m: TransformationMatrix<S>,
    cos: S,
    sin: S,
    rotated: TransformationMatrix<S>,
    p: Point<Pixels<S>>,
    turned: Point<Pixels<S>>,
    results: (Point<Pixels<S>>, Point<Pixels<S>>),
)
    requires
        is_exact::<S>(),
        call_ensures(TransformationMatrix::<S>::rotate, (m, cos, sin), rotated),
        turned.x.0 == cos.times_spec(p.x.0).plus_spec(sin.negate_spec().times_spec(p.y.0)),
        turned.y.0 == sin.times_spec(p.x.0).plus_spec(cos.times_spec(p.y.0)),
        call_ensures(TransformationMatrix::<S>::apply, (&rotated, p), results.0),
        call_ensures(TransformationMatrix::<S>::apply, (&m, turned), results.1),
    ensures
        results.0 == results.1,
{
    let other = TransformationMatrix {
        rotation_scale: [[cos, sin.negate_spec()], [sin, cos]],
        translation: [S::zero_spec(), S::zero_spec()],
    };
    compose_applies_other_first(m, other, p.x.0, p.y.0);
    lemma_exact_has_neutrals::<S>();
    assert(other.moved_spec(p.x.0, p.y.0, 0) == S::zero_spec().plus_spec(
        cos.times_spec(p.x.0),
    ).plus_spec(sin.negate_spec().times_spec(p.y.0)));
    assert(other.moved_spec(p.x.0, p.y.0, 1) == S::zero_spec().plus_spec(
        sin.times_spec(p.x.0),
    ).plus_spec(cos.times_spec(p.y.0)));
    assert(results.0.x.0 == results.1.x.0 && results.0.y.0 == results.1.y.0);
}

/// A scaled transformation does to a point what the transformation does to the point scaled about
/// the origin, on each axis by its own factor.
pub proof fn scaling_stretches_points_first<S: Scalar>(
    m: TransformationMatrix<S>,
    size: Size<S>,
    scaled: TransformationMatrix<S>,
    p: Point<Pixels<S>>,
    stretched: Point<Pixels<S>>,
    results: (Point<Pixels<S>>, Point<Pixels<S>>),
)
    requires
        is_exact::<S>(),
        call_ensures(TransformationMatrix::<S>::scale, (m, size), scaled),
        stretched.x.0 == size.width.times_spec(p.x.0),
        stretched.y.0 == size.height.times_spec(p.y.0),
        call_ensures(TransformationMatrix::<S>::apply, (&scaled, p), results.0),
        call_ensures(TransformationMatrix::<S>::apply, (&m, stretched), results.1),
    ensures
        results.0 == results.1,
{
    let other = TransformationMatrix {
        rotation_scale: [[size.width, S::zero_spec()], [S::zero_spec(), size.height]],
        translation: [S::zero_spec(), S::zero_spec()],
    };
    compose_applies_other_first(m, other, p.x.0, p.y.0);
    lemma_exact_has_neutrals::<S>();
    assert(other.moved_spec(p.x.0, p.y.0, 0) == S::zero_spec().plus_spec(
        size.width.times_spec(p.x.0),
    ).plus_spec(S::zero_spec().times_spec(p.y.0)));
    assert(other.moved_spec(p.x.0, p.y.0, 1) == S::zero_spec().plus_spec(
        S::zero_spec().times_spec(p.x.0),
    ).plus_spec(size.height.times_spec(p.y.0)));
    assert(results.0.x.0 == results.1.x.0 && results.0.y.0 == results.1.y.0);
}

/// Translating, rotating and scaling compose with a matrix that does nothing else.
pub proof fn changes_are_compositions<S: Scalar>(
    m: TransformationMatrix<S>,
    by: Point<ScaledPixels<S>>,
    cos: S,
    sin: S,
    size: Size<S>,
    changed: (TransformationMatrix<S>, TransformationMatrix<S>, TransformationMatrix<S>),
    composed: (TransformationMatrix<S>, TransformationMatrix<S>, TransformationMatrix<S>),
)
    requires
        call_ensures(TransformationMatrix::<S>::translate, (m, by), changed.0),
        call_ensures(TransformationMatrix::<S>::rotate, (m, cos, sin), changed.1),
        call_ensures(TransformationMatrix::<S>::scale, (m, size), changed.2),
        call_ensures(
            TransformationMatrix::<S>::compose,
            (
                m,
                TransformationMatrix {
                    rotation_scale: [
                        [S::one_spec(), S::zero_spec()],
                        [S::zero_spec(), S::one_spec()],
                    ],
                    translation: [by.x.0, by.y.0],
                },
            ),
            composed.0,
        ),
        call_ensures(
            TransformationMatrix::<S>::compose,
            (
                m,
                TransformationMatrix {
                    rotation_scale: [[cos, sin.negate_spec()], [sin, cos]],
                    translation: [S::zero_spec(), S::zero_spec()],
                },
            ),
            composed.1,
        ),
        call_ensures(
            TransformationMatrix::<S>::compose,
            (
                m,
                TransformationMatrix {
                    rotation_scale: [[size.width, S::zero_spec()], [S::zero_spec(), size.height]],
                    translation: [S::zero_spec(), S::zero_spec()],
                },
            ),
            composed.2,
        ),
    ensures
        changed == composed,
{
}

} // verus!
