//! What the numbers are.

use crate::fixed::Fixed;
use crate::scalar::{Coordinate, Pixels, Scalar, ScaledPixels};
use crate::whole::Whole;
use vstd::prelude::*;

verus! {

/// Logical pixels compute like the numbers they are made of.
pub proof fn pixels_compute_like_numbers<S: Scalar>(
    a: Pixels<S>,
    b: Pixels<S>,
    zero: Pixels<S>,
    sum: Pixels<S>,
    difference: Pixels<S>,
    comparisons: (bool, bool, bool, bool),
)
    requires
        call_ensures(<Pixels<S> as Coordinate>::zero, (), zero),
        call_ensures(<Pixels<S> as Coordinate>::plus, (a, b), sum),
        call_ensures(<Pixels<S> as Coordinate>::minus, (a, b), difference),
        call_ensures(<Pixels<S> as Coordinate>::less, (a, b), comparisons.0),
        call_ensures(<Pixels<S> as Coordinate>::at_most, (a, b), comparisons.1),
        call_ensures(<Pixels<S> as Coordinate>::same, (a, b), comparisons.2),
        call_ensures(<Pixels<S> as PartialEq>::eq, (&a, &b), comparisons.3),
    ensures
        zero.0 == S::zero_spec(),
        sum.0 == a.0.plus_spec(b.0),
        difference.0 == a.0.minus_spec(b.0),
        comparisons.0 == a.0.less_spec(b.0),
        comparisons.1 == a.0.at_most_spec(b.0),
        comparisons.2 == a.0.same_spec(b.0),
        comparisons.3 == a.0.same_spec(b.0),
{
}

/// Pixels of the display compute like the numbers they are made of.
pub proof fn scaled_pixels_compute_like_numbers<S: Scalar>(
    a: ScaledPixels<S>,
    b: ScaledPixels<S>,
    zero: ScaledPixels<S>,
    sum: ScaledPixels<S>,
    difference: ScaledPixels<S>,
    comparisons: (bool, bool, bool, bool),
)
    requires
        call_ensures(<ScaledPixels<S> as Coordinate>::zero, (), zero),
        call_ensures(<ScaledPixels<S> as Coordinate>::plus, (a, b), sum),
        call_ensures(<ScaledPixels<S> as Coordinate>::minus, (a, b), difference),
        call_ensures(<ScaledPixels<S> as Coordinate>::less, (a, b), comparisons.0),
        call_ensures(<ScaledPixels<S> as Coordinate>::at_most, (a, b), comparisons.1),
        call_ensures(<ScaledPixels<S> as Coordinate>::same, (a, b), comparisons.2),
        call_ensures(<ScaledPixels<S> as PartialEq>::eq, (&a, &b), comparisons.3),
    ensures
        zero.0 == S::zero_spec(),
        sum.0 == a.0.plus_spec(b.0),
        difference.0 == a.0.minus_spec(b.0),
        comparisons.0 == a.0.less_spec(b.0),
        comparisons.1 == a.0.at_most_spec(b.0),
        comparisons.2 == a.0.same_spec(b.0),
        comparisons.3 == a.0.same_spec(b.0),
{
}

/// Fixed-point numbers are added, subtracted and compared as the counts of sixty-fourths they are,
/// but for whole turns of their range.
pub proof fn fixed_point_counts_sixty_fourths(
    a: Fixed,
    b: Fixed,
    sum: Fixed,
    difference: Fixed,
    opposite: Fixed,
    comparisons: (bool, bool, bool),
)
    requires
        call_ensures(<Fixed as Coordinate>::plus, (a, b), sum),
        call_ensures(<Fixed as Coordinate>::minus, (a, b), difference),
        call_ensures(<Fixed as Scalar>::negate, (a,), opposite),
        call_ensures(<Fixed as Coordinate>::less, (a, b), comparisons.0),
        call_ensures(<Fixed as Coordinate>::at_most, (a, b), comparisons.1),
        call_ensures(<Fixed as Coordinate>::same, (a, b), comparisons.2),
    ensures
        (sum.0 - (a.0 + b.0)) % 0x1_0000_0000 == 0,
        (difference.0 - (a.0 - b.0)) % 0x1_0000_0000 == 0,
        (opposite.0 + a.0) % 0x1_0000_0000 == 0,
        comparisons.0 <==> a.0 < b.0,
        comparisons.1 <==> a.0 <= b.0,
        comparisons.2 <==> a.0 == b.0,
{
}

/// The fixed-point constants stand for zero, one, one half and whole numbers.
pub proof fn fixed_point_constants(n: i16, zero: Fixed, one: Fixed, half: Fixed, whole: Fixed)
    requires
        call_ensures(<Fixed as Coordinate>::zero, (), zero),
        call_ensures(<Fixed as Scalar>::one, (), one),
        call_ensures(<Fixed as Scalar>::half, (), half),
        call_ensures(Fixed::whole, (n,), whole),
    ensures
        zero.0 == 0,
        one.0 == 64,
        half.0 + half.0 == one.0,
        whole.0 == n * one.0,
{
}

/// A number that is cut to half its bits differs from what it was by whole turns of the range.
proof fn lemma_cut(n: i64)
    ensures
        ((n as i32) - n) % 0x1_0000_0000 == 0,
{
    let (turns, more): (i64, i64) = (n >> 32, (n >> 31) & 1);
    assert((n as i32) == n - (turns + more) * 0x1_0000_0000) by (bit_vector)
        requires
            turns == n >> 32,
            more == (n >> 31) & 1,
    ;
}

/// A fixed-point product that fits is the exact one, rounded down to a sixty-fourth. One that does
/// not fit differs from that by whole turns of the range.
pub proof fn fixed_point_products_are_rounded_down(a: Fixed, b: Fixed, product: Fixed)
    requires
        call_ensures(<Fixed as Scalar>::times, (a, b), product),
    ensures
        -0x20_0000_0000 <= a.0 * b.0 < 0x20_0000_0000 ==> 64 * product.0 <= a.0 * b.0 < 64
            * product.0 + 64,
        (product.0 - a.0 * b.0 / 64) % 0x1_0000_0000 == 0,
{
    let exact = a.0 * b.0;
    if -0x20_0000_0000 <= exact < 0x20_0000_0000 {
        assert(-0x8000_0000 <= exact / 64 < 0x8000_0000);
    }
    assert(-0x4000_0000_0000_0000 <= a.0 * b.0 <= 0x4000_0000_0000_0000) by (nonlinear_arith)
        requires
            -0x8000_0000 <= a.0 <= 0x7fff_ffff,
            -0x8000_0000 <= b.0 <= 0x7fff_ffff,
    ;
    lemma_cut((exact / 64) as i64);
}

/// Fixed-point numbers are rounded down and up to multiples of one, but for whole turns of their
/// range.
pub proof fn fixed_point_rounds_to_whole_numbers(x: Fixed, down: Fixed, up: Fixed)
    requires
        call_ensures(<Fixed as Scalar>::floor, (x,), down),
        call_ensures(<Fixed as Scalar>::ceil, (x,), up),
    ensures
        down.0 as int % 64 == 0,
        down.0 <= x.0 < down.0 + 64,
        x.0 <= 0x7fff_ffc0 ==> up.0 as int % 64 == 0 && up.0 - 64 < x.0 <= up.0,
        (up.0 - (x.0 + 63) / 64 * 64) % 0x1_0000_0000 == 0,
{
    lemma_cut(((x.0 + 63) / 64 * 64) as i64);
}

/// Whole numbers are added, subtracted, multiplied and compared as they are, but for whole turns of
/// their range.
pub proof fn whole_numbers_count(
    a: Whole,
    b: Whole,
    sum: Whole,
    difference: Whole,
    product: Whole,
    opposite: Whole,
    comparisons: (bool, bool, bool),
)
    requires
        call_ensures(<Whole as Coordinate>::plus, (a, b), sum),
        call_ensures(<Whole as Coordinate>::minus, (a, b), difference),
        call_ensures(<Whole as Scalar>::times, (a, b), product),
        call_ensures(<Whole as Scalar>::negate, (a,), opposite),
        call_ensures(<Whole as Coordinate>::less, (a, b), comparisons.0),
        call_ensures(<Whole as Coordinate>::at_most, (a, b), comparisons.1),
        call_ensures(<Whole as Coordinate>::same, (a, b), comparisons.2),
    ensures
        (sum.0 - (a.0 + b.0)) % 0x1_0000_0000 == 0,
        (difference.0 - (a.0 - b.0)) % 0x1_0000_0000 == 0,
        (product.0 - a.0 * b.0) % 0x1_0000_0000 == 0,
        (opposite.0 + a.0) % 0x1_0000_0000 == 0,
        comparisons.0 <==> a.0 < b.0,
        comparisons.1 <==> a.0 <= b.0,
        comparisons.2 <==> a.0 == b.0,
{
}

/// The whole constants are zero and one, and no whole number is rounded.
pub proof fn whole_constants(x: Whole, constants: (Whole, Whole, Whole), down: Whole, up: Whole)
    requires
        call_ensures(<Whole as Coordinate>::zero, (), constants.0),
        call_ensures(<Whole as Scalar>::one, (), constants.1),
        call_ensures(<Whole as Scalar>::half, (), constants.2),
        call_ensures(<Whole as Scalar>::floor, (x,), down),
        call_ensures(<Whole as Scalar>::ceil, (x,), up),
    ensures
        constants == (Whole(0), Whole(1), Whole(0)),
        down == x,
        up == x,
{
}

} // verus!
