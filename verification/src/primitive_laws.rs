//! What primitives are made of, and what shows of them.

use crate::bounds_tree::DrawOrder;
use crate::geometry::{Bounds, ContentMask, Point};
use crate::geometry_laws::{
    covers, lemma_intersection_covers, lemma_shared_point, lengths_are_in_line,
};
use crate::path::Path;
use crate::path_laws::is_axis;
use crate::primitive::{
    Backdrop, BorderStyle, MonochromeSprite, PaddedBool32, PaintSurface, PolychromeSprite,
    Primitive, Quad, Shadow, SubpixelSprite, Underline,
};
use crate::scalar::{Coordinate, Scalar, ScaledPixels};
use crate::scene::Scene;
use crate::step_laws::{gained, lemma_placed_at, placed_at, same_primitive};
use vstd::prelude::*;

verus! {

/// A primitive covers the area, and is clipped to the mask, of what it was made from.
pub proof fn primitive_has_the_area_and_mask_of_its_kind<S: Scalar>(
    primitive: Primitive<S>,
    bounds: &Bounds<ScaledPixels<S>>,
    mask: &ContentMask<ScaledPixels<S>>,
)
    requires
        call_ensures(Primitive::<S>::bounds, (&primitive,), bounds),
        call_ensures(Primitive::<S>::content_mask, (&primitive,), mask),
    ensures
        primitive matches Primitive::Shadow(shadow) ==> {
            &&& *bounds == shadow.bounds
            &&& *mask == shadow.content_mask
        },
        primitive matches Primitive::Backdrop(backdrop) ==> {
            &&& *bounds == backdrop.bounds
            &&& *mask == backdrop.content_mask
        },
        primitive matches Primitive::Quad(quad) ==> {
            &&& *bounds == quad.bounds
            &&& *mask == quad.content_mask
        },
        primitive matches Primitive::Path(path) ==> {
            &&& *bounds == path.bounds
            &&& *mask == path.content_mask
        },
        primitive matches Primitive::Underline(underline) ==> {
            &&& *bounds == underline.bounds
            &&& *mask == underline.content_mask
        },
        primitive matches Primitive::MonochromeSprite(sprite) ==> {
            &&& *bounds == sprite.bounds
            &&& *mask == sprite.content_mask
        },
        primitive matches Primitive::SubpixelSprite(sprite) ==> {
            &&& *bounds == sprite.bounds
            &&& *mask == sprite.content_mask
        },
        primitive matches Primitive::PolychromeSprite(sprite) ==> {
            &&& *bounds == sprite.bounds
            &&& *mask == sprite.content_mask
        },
        primitive matches Primitive::Surface(surface) ==> {
            &&& *bounds == surface.bounds
            &&& *mask == surface.content_mask
        },
{
}

/// What is made from something of one kind is a primitive of that kind, with nothing changed.
pub proof fn conversion_keeps_what_is_converted<S: Scalar>(
    a: Shadow<S>,
    b: Backdrop<S>,
    c: Quad<S>,
    d: Path<ScaledPixels<S>, S>,
    e: Underline<S>,
    f: MonochromeSprite<S>,
    g: SubpixelSprite<S>,
    h: PolychromeSprite<S>,
    i: PaintSurface<S>,
    r: Seq<Primitive<S>>,
)
    requires
        r.len() == 9,
        call_ensures(<Shadow<S> as Into<Primitive<S>>>::into, (a,), r[0]),
        call_ensures(<Backdrop<S> as Into<Primitive<S>>>::into, (b,), r[1]),
        call_ensures(<Quad<S> as Into<Primitive<S>>>::into, (c,), r[2]),
        call_ensures(<Path<ScaledPixels<S>, S> as Into<Primitive<S>>>::into, (d,), r[3]),
        call_ensures(<Underline<S> as Into<Primitive<S>>>::into, (e,), r[4]),
        call_ensures(<MonochromeSprite<S> as Into<Primitive<S>>>::into, (f,), r[5]),
        call_ensures(<SubpixelSprite<S> as Into<Primitive<S>>>::into, (g,), r[6]),
        call_ensures(<PolychromeSprite<S> as Into<Primitive<S>>>::into, (h,), r[7]),
        call_ensures(<PaintSurface<S> as Into<Primitive<S>>>::into, (i,), r[8]),
    ensures
        r[0] == Primitive::Shadow(a),
        r[1] == Primitive::Backdrop(b),
        r[2] == Primitive::Quad(c),
        r[3] == Primitive::Path(d),
        r[4] == Primitive::Underline(e),
        r[5] == Primitive::MonochromeSprite(f),
        r[6] == Primitive::SubpixelSprite(g),
        r[7] == Primitive::PolychromeSprite(h),
        r[8] == Primitive::Surface(i),
{
}

/// The conversions made from a primitive are those that `From` makes.
pub proof fn from_keeps_what_is_converted<S: Scalar>(
    a: Shadow<S>,
    b: Backdrop<S>,
    c: Quad<S>,
    d: Path<ScaledPixels<S>, S>,
    e: Underline<S>,
    f: MonochromeSprite<S>,
    g: SubpixelSprite<S>,
    h: PolychromeSprite<S>,
    i: PaintSurface<S>,
    r: Seq<Primitive<S>>,
)
    requires
        r.len() == 9,
        call_ensures(<Primitive<S> as From<Shadow<S>>>::from, (a,), r[0]),
        call_ensures(<Primitive<S> as From<Backdrop<S>>>::from, (b,), r[1]),
        call_ensures(<Primitive<S> as From<Quad<S>>>::from, (c,), r[2]),
        call_ensures(<Primitive<S> as From<Path<ScaledPixels<S>, S>>>::from, (d,), r[3]),
        call_ensures(<Primitive<S> as From<Underline<S>>>::from, (e,), r[4]),
        call_ensures(<Primitive<S> as From<MonochromeSprite<S>>>::from, (f,), r[5]),
        call_ensures(<Primitive<S> as From<SubpixelSprite<S>>>::from, (g,), r[6]),
        call_ensures(<Primitive<S> as From<PolychromeSprite<S>>>::from, (h,), r[7]),
        call_ensures(<Primitive<S> as From<PaintSurface<S>>>::from, (i,), r[8]),
    ensures
        r[0] == Primitive::Shadow(a),
        r[1] == Primitive::Backdrop(b),
        r[2] == Primitive::Quad(c),
        r[3] == Primitive::Path(d),
        r[4] == Primitive::Underline(e),
        r[5] == Primitive::MonochromeSprite(f),
        r[6] == Primitive::SubpixelSprite(g),
        r[7] == Primitive::PolychromeSprite(h),
        r[8] == Primitive::Surface(i),
{
}

/// A copy of a primitive is the same in everything.
pub proof fn copied_primitive_is_the_same<S: Copy>(primitive: Primitive<S>, copy: Primitive<S>)
    requires
        call_ensures(<Primitive<S> as Clone>::clone, (&primitive,), copy),
    ensures
        same_primitive(copy, primitive),
{
}

/// Painting something is painting the primitive that it converts into.
pub proof fn painting_is_painting_the_primitive<S: Scalar, P: Into<Primitive<S>>>(
    scene: &mut Scene<S>,
    other: &mut Scene<S>,
    painted: P,
    primitive: Primitive<S>,
)
    requires
        *old(scene) == *old(other),
        forall|converted: Primitive<S>| #[trigger]
            call_ensures(<P as Into<Primitive<S>>>::into, (painted,), converted) ==> converted
                == primitive,
        call_ensures(Scene::<S>::insert_primitive::<P>, (scene, painted), ()),
        call_ensures(Scene::<S>::insert_primitive::<Primitive<S>>, (other, primitive), ()),
    ensures
        final(scene)@ == final(other)@,
{
}

/// Shaders read 1 for true and 0 for false, and a new word is false.
pub proof fn shaders_read_one_or_zero(
    value: bool,
    stored: PaddedBool32,
    word: u32,
    new: PaddedBool32,
    new_word: u32,
)
    requires
        call_ensures(<PaddedBool32 as From<bool>>::from, (value,), stored),
        call_ensures(PaddedBool32::to_word, (stored,), word),
        call_ensures(<PaddedBool32 as Default>::default, (), new),
        call_ensures(PaddedBool32::to_word, (new,), new_word),
    ensures
        value ==> word == 1,
        !value ==> word == 0,
        new_word == 0,
{
    PaddedBool32::word_of_bool(value);
    PaddedBool32::word_of_bool(false);
}

/// A border is solid unless it is said to be otherwise, and a new backdrop is zero in every part.
pub proof fn defaults_are_plain<S: Scalar>(style: BorderStyle, backdrop: Backdrop<S>)
    requires
        call_ensures(<BorderStyle as Default>::default, (), style),
        call_ensures(<Backdrop<S> as Default>::default, (), backdrop),
    ensures
        style == BorderStyle::Solid,
        backdrop.order == 0 && backdrop.pad == 0,
        backdrop.blur == S::zero_spec() && backdrop.opacity == S::zero_spec(),
        backdrop.bounds.origin.x.0 == S::zero_spec(),
        backdrop.bounds.origin.y.0 == S::zero_spec(),
        backdrop.bounds.size.width.0 == S::zero_spec(),
        backdrop.bounds.size.height.0 == S::zero_spec(),
        backdrop.content_mask.bounds == backdrop.bounds,
        backdrop.corner_radii.top_left.0 == S::zero_spec(),
        backdrop.corner_radii.top_right.0 == S::zero_spec(),
        backdrop.corner_radii.bottom_right.0 == S::zero_spec(),
        backdrop.corner_radii.bottom_left.0 == S::zero_spec(),
{
}

/// What is painted over any part of what is there is drawn after it. Where a point lies within the
/// bounds and the mask of two primitives that are painted one after the other outside of stacking
/// layers, the later of them gets the higher order.
pub proof fn painted_over_any_part_is_drawn_later<S: Scalar>(
    scene: &mut Scene<S>,
    next: &mut Scene<S>,
    earlier: (Primitive<S>, &Bounds<ScaledPixels<S>>, &ContentMask<ScaledPixels<S>>),
    later: (Primitive<S>, &Bounds<ScaledPixels<S>>, &ContentMask<ScaledPixels<S>>),
    layers: (Option<DrawOrder>, Option<DrawOrder>),
    orders: (DrawOrder, DrawOrder),
    point: Point<ScaledPixels<S>>,
)
    requires
        is_axis::<S>(),
        old(scene)@.can_paint(),
        old(scene).primitive_bounds@.top < DrawOrder::MAX - 2,
        call_ensures(Primitive::<S>::bounds, (&earlier.0,), earlier.1),
        call_ensures(Primitive::<S>::content_mask, (&earlier.0,), earlier.2),
        call_ensures(Primitive::<S>::bounds, (&later.0,), later.1),
        call_ensures(Primitive::<S>::content_mask, (&later.0,), later.2),
        covers(*earlier.1, point),
        covers(earlier.2.bounds, point),
        covers(*later.1, point),
        covers(later.2.bounds, point),
        call_ensures(Scene::<S>::layer_order, (&*old(scene),), layers.0),
        call_ensures(Scene::<S>::layer_order, (&*old(next),), layers.1),
        layers.0 is None,
        layers.1 is None,
        call_ensures(Scene::<S>::insert_primitive::<Primitive<S>>, (scene, earlier.0), ()),
        *old(next) == *final(scene),
        call_ensures(Scene::<S>::insert_primitive::<Primitive<S>>, (next, later.0), ()),
        gained(*old(scene), *final(scene), earlier.0, orders.0),
        gained(*old(next), *final(next), later.0, orders.1),
    ensures
        orders.0 < orders.1,
{
    lengths_are_in_line::<S>();
    let a = earlier.0@.clipped_bounds();
    let b = later.0@.clipped_bounds();
    lemma_intersection_covers(*earlier.1, earlier.2.bounds, point);
    lemma_intersection_covers(*later.1, later.2.bounds, point);
    assert(covers(a, point) && covers(b, point));
    lemma_shared_point(a, b, point);
    lemma_inserted(*old(scene), *final(scene), earlier.0, orders.0);
    lemma_inserted(*old(next), *final(next), later.0, orders.1);
    let n = old(scene).primitive_bounds@.placed.len() as int;
    let placed = final(scene).primitive_bounds@.placed[n];
    assert(placed.bounds == a && placed.order == orders.0);
}

/// A primitive that was added outside of stacking layers was placed at its order.
proof fn lemma_inserted<S: Scalar>(
    before: Scene<S>,
    after: Scene<S>,
    primitive: Primitive<S>,
    order: DrawOrder,
)
    requires
        before@.tree.wf(),
        before@.tree.has_room(),
        !before@.in_layer(),
        after@ == before@.insert_primitive(primitive@),
        gained(before, after, primitive, order),
    ensures
        placed_at(before, after, primitive@.clipped_bounds(), order),
        after@.tree.wf(),
        after@.tree.top <= before@.tree.top + 1,
{
    let clipped = primitive@.clipped_bounds();
    assert(before@.paths.len() == before.paths@.len());
    assert(after@.paths.len() == after.paths@.len());
    match primitive {
        Primitive::Shadow(shadow) => {
            assert(after.shadows@.len() == before.shadows@.len() + 1);
            assert(after.shadows@.last() == Shadow { order, ..shadow });
        },
        Primitive::Backdrop(backdrop) => {
            assert(after.backdrops@.len() == before.backdrops@.len() + 1);
            assert(after.backdrops@.last() == Backdrop { order, ..backdrop });
        },
        Primitive::Quad(quad) => {
            assert(after.quads@.len() == before.quads@.len() + 1);
            assert(after.quads@.last() == Quad { order, ..quad });
        },
        Primitive::Underline(underline) => {
            assert(after.underlines@.len() == before.underlines@.len() + 1);
            assert(after.underlines@.last() == Underline { order, ..underline });
        },
        Primitive::MonochromeSprite(sprite) => {
            assert(after.monochrome_sprites@.len() == before.monochrome_sprites@.len() + 1);
            assert(after.monochrome_sprites@.last() == MonochromeSprite { order, ..sprite });
        },
        Primitive::SubpixelSprite(sprite) => {
            assert(after.subpixel_sprites@.len() == before.subpixel_sprites@.len() + 1);
            assert(after.subpixel_sprites@.last() == SubpixelSprite { order, ..sprite });
        },
        Primitive::PolychromeSprite(sprite) => {
            assert(after.polychrome_sprites@.len() == before.polychrome_sprites@.len() + 1);
            assert(after.polychrome_sprites@.last() == PolychromeSprite { order, ..sprite });
        },
        Primitive::Surface(surface) => {
            assert(after.surfaces@.len() == before.surfaces@.len() + 1);
            assert(after.surfaces@.last() == PaintSurface { order, ..surface });
        },
        Primitive::Path(path) => {
            assert(after@.paths[before.paths@.len() as int] == after.paths@.last()@);
        },
    }
    assert(!clipped.is_empty_spec());
    assert(order == before@.order_for(clipped));
    lemma_placed_at(before, after, clipped);
}

} // verus!
