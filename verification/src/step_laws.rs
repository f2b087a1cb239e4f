//! What each step of painting leaves in the scene.

use crate::bounds_tree::DrawOrder;
use crate::filter::Filter;
use crate::geometry::{Bounds, ContentMask, Point};
use crate::path::Path;
use crate::primitive::{
    Backdrop, MonochromeSprite, PaintSurface, PolychromeSprite, Primitive, Quad, Shadow,
    SubpixelSprite, Underline,
};
use crate::scalar::{Coordinate, Scalar, ScaledPixels};
use crate::scene::{PaintOperation, Scene};
use vstd::prelude::*;

verus! {

/// Whether two paths are the same in everything but their place in a scene.
pub open spec fn same_outline<S>(
    a: Path<ScaledPixels<S>, S>,
    b: Path<ScaledPixels<S>, S>,
) -> bool {
    &&& a.bounds == b.bounds
    &&& a.content_mask == b.content_mask
    &&& a.vertices@ == b.vertices@
    &&& a.color == b.color
    &&& a.start == b.start
    &&& a.current == b.current
    &&& a.contour_count == b.contour_count
}

/// Whether two primitives are the same.
pub open spec fn same_primitive<S>(a: Primitive<S>, b: Primitive<S>) -> bool {
    match (a, b) {
        (Primitive::Path(p), Primitive::Path(q)) => {
            same_outline(p, q) && p.id == q.id && p.order == q.order
        },
        _ => a == b,
    }
}

/// Whether two steps are the same.
pub open spec fn same_step<S>(a: PaintOperation<S>, b: PaintOperation<S>) -> bool {
    match (a, b) {
        (PaintOperation::Primitive(p), PaintOperation::Primitive(q)) => same_primitive(p, q),
        _ => a == b,
    }
}

/// Whether two scenes have the same paths up to the first `n`.
pub open spec fn same_paths<S>(a: Scene<S>, b: Scene<S>, n: nat) -> bool {
    &&& n <= a.paths@.len()
    &&& n <= b.paths@.len()
    &&& forall|i: int|
        #![trigger a.paths@[i]]
        #![trigger b.paths@[i]]
        0 <= i < n ==> {
            &&& same_outline(a.paths@[i], b.paths@[i])
            &&& a.paths@[i].id == b.paths@[i].id
            &&& a.paths@[i].order == b.paths@[i].order
        }
}

/// Whether two scenes have the same primitives but for paths.
pub open spec fn same_items<S>(a: Scene<S>, b: Scene<S>) -> bool {
    &&& a.shadows@ == b.shadows@
    &&& a.backdrops@ == b.backdrops@
    &&& a.quads@ == b.quads@
    &&& a.underlines@ == b.underlines@
    &&& a.monochrome_sprites@ == b.monochrome_sprites@
    &&& a.subpixel_sprites@ == b.subpixel_sprites@
    &&& a.polychrome_sprites@ == b.polychrome_sprites@
    &&& a.surfaces@ == b.surfaces@
}

/// Whether two scenes have the same primitives.
pub open spec fn same_primitives<S>(a: Scene<S>, b: Scene<S>) -> bool {
    &&& same_items(a, b)
    &&& a.paths@.len() == b.paths@.len()
    &&& same_paths(a, b, a.paths@.len())
}

/// Whether one step was recorded after those of `before`.
pub open spec fn recorded_one_more<S>(before: Scene<S>, after: Scene<S>) -> bool {
    &&& after.paint_operations@.len() == before.paint_operations@.len() + 1
    &&& forall|i: int|
        0 <= i < before.paint_operations@.len() ==> same_step(
            #[trigger] after.paint_operations@[i],
            before.paint_operations@[i],
        )
}

/// Two scenes with the same view have the same primitives and steps.
pub(crate) proof fn lemma_same_view<S: Scalar>(a: Scene<S>, b: Scene<S>)
    ensures
        a@.paths == b@.paths ==> a.paths@.len() == b.paths@.len() && same_paths(
            a,
            b,
            a.paths@.len(),
        ),
{
    if a@.paths == b@.paths {
        assert(a@.paths.len() == a.paths@.len());
        assert(b@.paths.len() == b.paths@.len());
        assert forall|i: int| 0 <= i < a.paths@.len() implies {
            &&& same_outline(#[trigger] a.paths@[i], b.paths@[i])
            &&& a.paths@[i].id == b.paths@[i].id
            &&& a.paths@[i].order == b.paths@[i].order
        } by {
            assert(a@.paths[i] == a.paths@[i]@);
            assert(b@.paths[i] == b.paths@[i]@);
        }
        assert forall|i: int| 0 <= i < a.paths@.len() implies {
            &&& same_outline(a.paths@[i], #[trigger] b.paths@[i])
            &&& a.paths@[i].id == b.paths@[i].id
            &&& a.paths@[i].order == b.paths@[i].order
        } by {
            assert(a@.paths[i] == a.paths@[i]@);
            assert(b@.paths[i] == b.paths@[i]@);
        }
    }
}

/// Where one operation was recorded in the view, one step was.
proof fn lemma_recorded<S: Scalar>(before: Scene<S>, after: Scene<S>)
    requires
        after@.paint_operations.len() == before@.paint_operations.len() + 1,
        after@.paint_operations.drop_last() == before@.paint_operations,
    ensures
        recorded_one_more(before, after),
        after.paint_operations@.last()@ == after@.paint_operations.last(),
{
    assert forall|i: int| 0 <= i < before.paint_operations@.len() implies same_step(
        #[trigger] after.paint_operations@[i],
        before.paint_operations@[i],
    ) by {
        assert(before@.paint_operations[i] == before.paint_operations@[i]@);
        assert(after@.paint_operations[i] == after.paint_operations@[i]@);
        assert(after@.paint_operations.drop_last()[i] == after@.paint_operations[i]);
    }
}

/// A new scene holds nothing, and no order has been given in it.
pub proof fn new_scene_holds_nothing<S: Scalar>(scene: Scene<S>)
    requires
        call_ensures(<Scene<S> as Default>::default, (), scene),
    ensures
        scene.paint_operations@.len() == 0,
        scene.layer_stack@.len() == 0,
        scene.effects@.len() == 0,
        scene.effect_stack@.len() == 0,
        scene.shadows@.len() == 0 && scene.backdrops@.len() == 0 && scene.quads@.len() == 0,
        scene.paths@.len() == 0 && scene.underlines@.len() == 0,
        scene.monochrome_sprites@.len() == 0 && scene.subpixel_sprites@.len() == 0,
        scene.polychrome_sprites@.len() == 0 && scene.surfaces@.len() == 0,
        scene.primitive_bounds@.placed.len() == 0,
        scene.primitive_bounds@.floor == 0 && scene.primitive_bounds@.top == 0,
{
    assert(scene@.paths.len() == scene.paths@.len());
    assert(scene@.paint_operations.len() == scene.paint_operations@.len());
}

/// A scene that was made empty is like a new one, whatever it held.
pub proof fn emptied_scene_is_like_a_new_one<S: Scalar>(scene: &mut Scene<S>, new: Scene<S>)
    requires
        call_ensures(Scene::<S>::clear, (scene,), ()),
        call_ensures(<Scene<S> as Default>::default, (), new),
    ensures
        final(scene).paint_operations@.len() == 0,
        final(scene).layer_stack@ == new.layer_stack@,
        final(scene).effects@ == new.effects@,
        final(scene).effect_stack@ == new.effect_stack@,
        same_primitives(*final(scene), new),
        final(scene).primitive_bounds@ == new.primitive_bounds@,
{
    lemma_same_view(*final(scene), new);
    assert(final(scene)@.paint_operations.len() == final(scene).paint_operations@.len());
}

/// The layer that `push_filter` opens carries the filter, the bounds, the origin and the mask that
/// it was given, whatever they are. It starts above every order given so far, is open to the top,
/// and is enclosed by the innermost layer that was open. Everything else stays as it was.
pub proof fn opened_layer_carries_what_it_was_given<S: Scalar>(
    scene: &mut Scene<S>,
    source_bounds: Bounds<ScaledPixels<S>>,
    transform_origin: Point<ScaledPixels<S>>,
    content_mask: Bounds<ScaledPixels<S>>,
    filter: Filter<S>,
)
    requires
        call_ensures(
            Scene::<S>::push_filter,
            (scene, source_bounds, transform_origin, content_mask, filter),
            (),
        ),
        old(scene)@.can_paint(),
        old(scene).primitive_bounds@.top < DrawOrder::MAX - 1,
    ensures
        ({
            let n = old(scene).effects@.len() as int;
            let opened = final(scene).effects@[n];
            &&& final(scene).effects@.len() == n + 1
            &&& forall|i: int|
                0 <= i < n ==> #[trigger] final(scene).effects@[i] == old(scene).effects@[i]
            &&& opened.source_bounds == source_bounds
            &&& opened.transform_origin == transform_origin
            &&& opened.content_mask == content_mask
            &&& opened.filter == filter
            &&& opened.start == old(scene).primitive_bounds@.top + 1
            &&& opened.end == u32::MAX
            &&& old(scene).effect_stack@.len() == 0 ==> opened.parent is None
            &&& old(scene).effect_stack@.len() > 0 ==> opened.parent == Some(
                old(scene).effect_stack@[old(scene).effect_stack@.len() - 1],
            )
            &&& final(scene).effect_stack@ == old(scene).effect_stack@.push(n as usize)
            &&& final(scene).primitive_bounds@.floor == opened.start
            &&& final(scene).primitive_bounds@.top == opened.start
            &&& final(scene).primitive_bounds@.placed.len() == 0
        }),
        same_primitives(*final(scene), *old(scene)),
        final(scene).layer_stack@ == old(scene).layer_stack@,
        recorded_one_more(*old(scene), *final(scene)),
        final(scene).paint_operations@.last() == PaintOperation::StartFilter(
            source_bounds,
            transform_origin,
            content_mask,
            filter,
        ),
{
    lemma_same_view(*final(scene), *old(scene));
    assert(final(scene)@.paint_operations.drop_last() =~= old(scene)@.paint_operations);
    lemma_recorded(*old(scene), *final(scene));
}

/// The layer that `push_filter` opens is shown where its source lies once it was scaled about the
/// origin and then moved: each corner is as far from the origin as the source corner is, times the
/// scale, and moved by the translation.
pub proof fn opened_layer_is_shown_scaled_and_moved<S: Scalar>(
    scene: &mut Scene<S>,
    source: Bounds<ScaledPixels<S>>,
    origin: Point<ScaledPixels<S>>,
    content_mask: Bounds<ScaledPixels<S>>,
    filter: Filter<S>,
)
    requires
        call_ensures(
            Scene::<S>::push_filter,
            (scene, source, origin, content_mask, filter),
            (),
        ),
    ensures
        ({
            let near = source.origin;
            let (dx, dy) = (filter.translate.x.0, filter.translate.y.0);
            let left = origin.x.0.plus_spec(
                near.x.0.minus_spec(origin.x.0).times_spec(filter.scale),
            );
            let right = origin.x.0.plus_spec(
                source.origin.x.0.plus_spec(source.size.width.0).minus_spec(origin.x.0).times_spec(
                    filter.scale,
                ),
            );
            let top = origin.y.0.plus_spec(
                near.y.0.minus_spec(origin.y.0).times_spec(filter.scale),
            );
            let bottom = origin.y.0.plus_spec(
                source.origin.y.0.plus_spec(source.size.height.0).minus_spec(origin.y.0).times_spec(
                    filter.scale,
                ),
            );
            let shown = final(scene).effects@[old(scene).effects@.len() as int].destination_bounds;
            &&& shown.origin.x.0 == left.plus_spec(dx)
            &&& shown.origin.y.0 == top.plus_spec(dy)
            &&& shown.size.width.0 == right.minus_spec(left)
            &&& shown.size.height.0 == bottom.minus_spec(top)
        }),
{
}

/// Ending a filtered layer ends the innermost that is open, above everything painted into it, and
/// changes nothing else about it or any other layer. Where none is open, it is only recorded.
pub proof fn ending_a_filter_ends_the_innermost<S: Scalar>(scene: &mut Scene<S>)
    requires
        call_ensures(Scene::<S>::pop_filter, (scene,), ()),
        old(scene)@.can_paint(),
        old(scene).effect_stack@.len() > 0 ==> old(scene).primitive_bounds@.top < DrawOrder::MAX
            - 1,
    ensures
        final(scene).effects@.len() == old(scene).effects@.len(),
        old(scene).effect_stack@.len() == 0 ==> {
            &&& final(scene).effects@ == old(scene).effects@
            &&& final(scene).effect_stack@ == old(scene).effect_stack@
            &&& final(scene).primitive_bounds@ == old(scene).primitive_bounds@
        },
        old(scene).effect_stack@.len() > 0 ==> {
            let depth = old(scene).effect_stack@.len() as int;
            let index = old(scene).effect_stack@[depth - 1] as int;
            let (before, after) = (old(scene).effects@[index], final(scene).effects@[index]);
            &&& forall|i: int|
                0 <= i < old(scene).effects@.len() && i != index ==> #[trigger]
                    final(scene).effects@[i] == old(scene).effects@[i]
            &&& after.end == old(scene).primitive_bounds@.top + 1
            &&& after.start == before.start
            &&& after.source_bounds == before.source_bounds
            &&& after.transform_origin == before.transform_origin
            &&& after.destination_bounds == before.destination_bounds
            &&& after.content_mask == before.content_mask
            &&& after.filter == before.filter
            &&& after.parent == before.parent
            &&& final(scene).effect_stack@.len() == depth - 1
            &&& forall|k: int|
                0 <= k < depth - 1 ==> #[trigger] final(scene).effect_stack@[k] == old(
                    scene,
                ).effect_stack@[k]
            &&& final(scene).primitive_bounds@.floor == after.end
            &&& final(scene).primitive_bounds@.top == after.end
            &&& final(scene).primitive_bounds@.placed.len() == 0
        },
        same_primitives(*final(scene), *old(scene)),
        final(scene).layer_stack@ == old(scene).layer_stack@,
        recorded_one_more(*old(scene), *final(scene)),
        final(scene).paint_operations@.last() == PaintOperation::<S>::EndFilter,
{
    lemma_same_view(*final(scene), *old(scene));
    assert(final(scene)@.paint_operations.drop_last() =~= old(scene)@.paint_operations);
    lemma_recorded(*old(scene), *final(scene));
}

/// Whether two rectangles have area in common as their edges tell it.
pub open spec fn edges_cross<T: Coordinate>(a: Bounds<T>, b: Bounds<T>) -> bool {
    &&& a.origin.x.less_spec(b.origin.x.plus_spec(b.size.width))
    &&& b.origin.x.less_spec(a.origin.x.plus_spec(a.size.width))
    &&& a.origin.y.less_spec(b.origin.y.plus_spec(b.size.height))
    &&& b.origin.y.less_spec(a.origin.y.plus_spec(a.size.height))
}

/// Whether `bounds` were put into `after` at `order`: the lowest that is above the floor and above
/// everything placed in `before` that `bounds` overlap.
pub open spec fn placed_at<S: Scalar>(
    before: Scene<S>,
    after: Scene<S>,
    bounds: Bounds<ScaledPixels<S>>,
    order: DrawOrder,
) -> bool {
    let (old_tree, new_tree) = (before.primitive_bounds@, after.primitive_bounds@);
    let n = old_tree.placed.len() as int;
    &&& order > old_tree.floor
    &&& forall|i: int|
        0 <= i < n && edges_cross((#[trigger] old_tree.placed[i]).bounds, bounds) ==> order
            > old_tree.placed[i].order
    &&& order == old_tree.floor + 1 || exists|i: int|
        0 <= i < n && edges_cross((#[trigger] old_tree.placed[i]).bounds, bounds) && order
            == old_tree.placed[i].order + 1
    &&& new_tree.placed.len() == n + 1
    &&& forall|i: int| 0 <= i < n ==> #[trigger] new_tree.placed[i] == old_tree.placed[i]
    &&& new_tree.placed[n].bounds == bounds
    &&& new_tree.placed[n].order == order
    &&& new_tree.floor == old_tree.floor
    &&& new_tree.top >= old_tree.top && new_tree.top >= order
    &&& new_tree.top == old_tree.top || new_tree.top == order
}

pub(crate) proof fn lemma_placed_at<S: Scalar>(
    before: Scene<S>,
    after: Scene<S>,
    bounds: Bounds<ScaledPixels<S>>,
)
    requires
        before@.tree.wf(),
        before@.tree.has_room(),
        after@.tree == before@.tree.insert(bounds),
    ensures
        placed_at(before, after, bounds, before@.tree.next_order(bounds)),
{
    crate::bounds_tree::next_order_is_lowest_above(before@.tree, bounds);
    assert(forall|i: int|
        0 <= i < before@.tree.placed.len() ==> (
        #[trigger] before@.tree.placed[i]).bounds.intersects_spec(bounds) == edges_cross(
            before@.tree.placed[i].bounds,
            bounds,
        ));
}

/// Starting a stacking layer gives it the lowest order above everything it overlaps. Everything
/// else stays as it was.
pub proof fn started_layer_lies_above_what_it_overlaps<S: Scalar>(
    scene: &mut Scene<S>,
    bounds: Bounds<ScaledPixels<S>>,
)
    requires
        call_ensures(Scene::<S>::push_layer, (scene, bounds), ()),
        old(scene)@.can_paint(),
        old(scene).primitive_bounds@.top < DrawOrder::MAX - 1,
    ensures
        ({
            let depth = old(scene).layer_stack@.len() as int;
            let order = final(scene).layer_stack@[depth];
            &&& final(scene).layer_stack@ == old(scene).layer_stack@.push(order)
            &&& placed_at(*old(scene), *final(scene), bounds, order)
        }),
        final(scene).effects@ == old(scene).effects@,
        final(scene).effect_stack@ == old(scene).effect_stack@,
        same_primitives(*final(scene), *old(scene)),
        recorded_one_more(*old(scene), *final(scene)),
        final(scene).paint_operations@.last() == PaintOperation::StartLayer(bounds),
{
    lemma_same_view(*final(scene), *old(scene));
    assert(final(scene)@.paint_operations.drop_last() =~= old(scene)@.paint_operations);
    lemma_recorded(*old(scene), *final(scene));
    lemma_placed_at(*old(scene), *final(scene), bounds);
}

/// Ending a stacking layer ends the innermost, if there is one. Everything else stays as it was.
pub proof fn ending_a_layer_ends_the_innermost<S: Scalar>(scene: &mut Scene<S>)
    requires
        call_ensures(Scene::<S>::pop_layer, (scene,), ()),
    ensures
        old(scene).layer_stack@.len() == 0 ==> final(scene).layer_stack@.len() == 0,
        old(scene).layer_stack@.len() > 0 ==> {
            let depth = old(scene).layer_stack@.len() as int;
            &&& final(scene).layer_stack@.len() == depth - 1
            &&& forall|k: int|
                0 <= k < depth - 1 ==> #[trigger] final(scene).layer_stack@[k] == old(
                    scene,
                ).layer_stack@[k]
        },
        final(scene).effects@ == old(scene).effects@,
        final(scene).effect_stack@ == old(scene).effect_stack@,
        final(scene).primitive_bounds@ == old(scene).primitive_bounds@,
        same_primitives(*final(scene), *old(scene)),
        recorded_one_more(*old(scene), *final(scene)),
        final(scene).paint_operations@.last() == PaintOperation::<S>::EndLayer,
{
    lemma_same_view(*final(scene), *old(scene));
    assert(final(scene)@.paint_operations.drop_last() =~= old(scene)@.paint_operations);
    lemma_recorded(*old(scene), *final(scene));
}

/// How many steps made a scene is how many it holds.
pub proof fn length_counts_the_steps<S: Scalar>(scene: Scene<S>, n: usize, left: DrawOrder)
    requires
        call_ensures(Scene::<S>::len, (&scene,), n),
        call_ensures(Scene::<S>::orders_left, (&scene,), left),
        scene@.can_paint(),
    ensures
        n == scene.paint_operations@.len(),
        left + scene.primitive_bounds@.top == u32::MAX - 1,
{
    assert(scene@.paint_operations.len() == scene.paint_operations@.len());
}

/// Primitives are painted into the innermost stacking layer, unless a filtered layer that is still
/// open was started after it.
pub proof fn painted_into_the_innermost_layer<S: Scalar>(
    scene: Scene<S>,
    order: Option<DrawOrder>,
)
    requires
        call_ensures(Scene::<S>::layer_order, (&scene,), order),
    ensures
        ({
            let layers = scene.layer_stack@.len() as int;
            let filters = scene.effect_stack@.len() as int;
            &&& layers == 0 ==> order is None
            &&& layers > 0 && filters == 0 ==> order == Some(scene.layer_stack@[layers - 1])
            &&& layers > 0 && filters > 0 ==> {
                let filter = scene.effects@[scene.effect_stack@[filters - 1] as int];
                &&& filter.start < scene.layer_stack@[layers - 1] ==> order == Some(
                    scene.layer_stack@[layers - 1],
                )
                &&& filter.start >= scene.layer_stack@[layers - 1] ==> order is None
            }
        }),
{
}

/// Whether `after` has one more primitive than `before`: the given one, drawn at `order`. It comes
/// last among those of its kind, it is changed in nothing else but that a path gets its number, and
/// the other kinds stay as they are.
pub open spec fn gained<S>(
    before: Scene<S>,
    after: Scene<S>,
    primitive: Primitive<S>,
    order: DrawOrder,
) -> bool {
    let paths_kept = after.paths@.len() == before.paths@.len() && same_paths(
        after,
        before,
        before.paths@.len(),
    );
    match primitive {
        Primitive::Shadow(shadow) => {
            &&& after.shadows@ == before.shadows@.push(Shadow { order, ..shadow })
            &&& same_items(after, Scene { shadows: after.shadows, ..before })
            &&& paths_kept
        },
        Primitive::Backdrop(backdrop) => {
            &&& after.backdrops@ == before.backdrops@.push(Backdrop { order, ..backdrop })
            &&& same_items(after, Scene { backdrops: after.backdrops, ..before })
            &&& paths_kept
        },
        Primitive::Quad(quad) => {
            &&& after.quads@ == before.quads@.push(Quad { order, ..quad })
            &&& same_items(after, Scene { quads: after.quads, ..before })
            &&& paths_kept
        },
        Primitive::Path(path) => {
            let last = after.paths@.last();
            &&& after.paths@.len() == before.paths@.len() + 1
            &&& same_paths(after, before, before.paths@.len())
            &&& same_outline(last, path)
            &&& last.order == order
            &&& last.id.0 == before.paths@.len()
            &&& same_items(after, before)
        },
        Primitive::Underline(underline) => {
            &&& after.underlines@ == before.underlines@.push(Underline { order, ..underline })
            &&& same_items(after, Scene { underlines: after.underlines, ..before })
            &&& paths_kept
        },
        Primitive::MonochromeSprite(sprite) => {
            &&& after.monochrome_sprites@ == before.monochrome_sprites@.push(
                MonochromeSprite { order, ..sprite },
            )
            &&& same_items(after, Scene { monochrome_sprites: after.monochrome_sprites, ..before })
            &&& paths_kept
        },
        Primitive::SubpixelSprite(sprite) => {
            &&& after.subpixel_sprites@ == before.subpixel_sprites@.push(
                SubpixelSprite { order, ..sprite },
            )
            &&& same_items(after, Scene { subpixel_sprites: after.subpixel_sprites, ..before })
            &&& paths_kept
        },
        Primitive::PolychromeSprite(sprite) => {
            &&& after.polychrome_sprites@ == before.polychrome_sprites@.push(
                PolychromeSprite { order, ..sprite },
            )
            &&& same_items(after, Scene { polychrome_sprites: after.polychrome_sprites, ..before })
            &&& paths_kept
        },
        Primitive::Surface(surface) => {
            &&& after.surfaces@ == before.surfaces@.push(PaintSurface { order, ..surface })
            &&& same_items(after, Scene { surfaces: after.surfaces, ..before })
            &&& paths_kept
        },
    }
}

/// Whether `b` is the primitive `a`, drawn at `order` and, if it is a path, with the number `id`.
pub open spec fn is_placed<S>(
    a: Primitive<S>,
    b: Primitive<S>,
    order: DrawOrder,
    id: int,
) -> bool {
    match (a, b) {
        (Primitive::Shadow(p), Primitive::Shadow(q)) => q == Shadow { order, ..p },
        (Primitive::Backdrop(p), Primitive::Backdrop(q)) => q == Backdrop { order, ..p },
        (Primitive::Quad(p), Primitive::Quad(q)) => q == Quad { order, ..p },
        (Primitive::Path(p), Primitive::Path(q)) => {
            same_outline(p, q) && q.order == order && q.id.0 == id
        },
        (Primitive::Underline(p), Primitive::Underline(q)) => q == Underline { order, ..p },
        (Primitive::MonochromeSprite(p), Primitive::MonochromeSprite(q)) => q == MonochromeSprite {
            order,
            ..p
        },
        (Primitive::SubpixelSprite(p), Primitive::SubpixelSprite(q)) => q == SubpixelSprite {
            order,
            ..p
        },
        (Primitive::PolychromeSprite(p), Primitive::PolychromeSprite(q)) => q == PolychromeSprite {
            order,
            ..p
        },
        (Primitive::Surface(p), Primitive::Surface(q)) => q == PaintSurface { order, ..p },
        _ => false,
    }
}

/// A primitive of which nothing shows leaves the scene as it was. Every other is added to those of
/// its kind. In a stacking layer it gets the order of the layer; elsewhere it gets the lowest order
/// above everything that its shown part overlaps. It is recorded the way it was added.
pub proof fn shown_primitive_is_added_to_its_kind<S: Scalar>(
    scene: &mut Scene<S>,
    primitive: Primitive<S>,
    bounds: &Bounds<ScaledPixels<S>>,
    mask: &ContentMask<ScaledPixels<S>>,
    shown: Bounds<ScaledPixels<S>>,
    hidden: bool,
    layer: Option<DrawOrder>,
)
    requires
        call_ensures(Primitive::<S>::bounds, (&primitive,), bounds),
        call_ensures(Primitive::<S>::content_mask, (&primitive,), mask),
        call_ensures(Bounds::<ScaledPixels<S>>::intersect, (*bounds, mask.bounds), shown),
        call_ensures(Bounds::<ScaledPixels<S>>::is_empty, (shown,), hidden),
        call_ensures(Scene::<S>::layer_order, (&*old(scene),), layer),
        call_ensures(Scene::<S>::insert_primitive::<Primitive<S>>, (scene, primitive), ()),
        old(scene)@.can_paint(),
        !hidden && layer is None ==> old(scene).primitive_bounds@.top < DrawOrder::MAX - 1,
    ensures
        final(scene).layer_stack@ == old(scene).layer_stack@,
        final(scene).effects@ == old(scene).effects@,
        final(scene).effect_stack@ == old(scene).effect_stack@,
        hidden ==> {
            &&& same_primitives(*final(scene), *old(scene))
            &&& final(scene).primitive_bounds@ == old(scene).primitive_bounds@
            &&& final(scene).paint_operations@.len() == old(scene).paint_operations@.len()
            &&& forall|i: int|
                0 <= i < old(scene).paint_operations@.len() ==> same_step(
                    #[trigger] final(scene).paint_operations@[i],
                    old(scene).paint_operations@[i],
                )
        },
        !hidden ==> {
            &&& recorded_one_more(*old(scene), *final(scene))
            &&& exists|order: DrawOrder, placed: Primitive<S>|
                {
                    &&& #[trigger] gained(*old(scene), *final(scene), primitive, order)
                    &&& final(scene).paint_operations@.last() == PaintOperation::Primitive(placed)
                    &&& #[trigger] is_placed(
                        primitive,
                        placed,
                        order,
                        old(scene).paths@.len() as int,
                    )
                    &&& layer is Some ==> {
                        &&& layer == Some(order)
                        &&& final(scene).primitive_bounds@ == old(scene).primitive_bounds@
                    }
                    &&& layer is None ==> placed_at(*old(scene), *final(scene), shown, order)
                }
        },
{
    let (before, after) = (*old(scene), *final(scene));
    let converted = choose|converted: Primitive<S>| #[trigger]
        call_ensures(<Primitive<S> as Into<Primitive<S>>>::into, (primitive,), converted)
            && after@ == before@.insert_primitive(converted@);
    assert(converted == primitive);
    if hidden {
        lemma_same_view(after, before);
        assert(before@.paint_operations.len() == before.paint_operations@.len());
        assert(after@.paint_operations.len() == after.paint_operations@.len());
        assert forall|i: int| 0 <= i < before.paint_operations@.len() implies same_step(
            #[trigger] after.paint_operations@[i],
            before.paint_operations@[i],
        ) by {
            assert(before@.paint_operations[i] == before.paint_operations@[i]@);
            assert(after@.paint_operations[i] == after.paint_operations@[i]@);
        }
    } else {
        let order = before@.order_for(shown);
        assert(after@.paint_operations.drop_last() =~= before@.paint_operations);
        lemma_recorded(before, after);
        if layer is None {
            lemma_placed_at(before, after, shown);
        }
        lemma_gained(before, after, primitive);
        let placed = after.paint_operations@.last()->Primitive_0;
        assert(is_placed(primitive, placed, order, before.paths@.len() as int));
        assert(gained(before, after, primitive, order));
    }
}

proof fn lemma_gained<S: Scalar>(before: Scene<S>, after: Scene<S>, primitive: Primitive<S>)
    requires
        after@ == before@.insert_primitive(primitive@),
        !primitive@.clipped_bounds().is_empty_spec(),
    ensures
        gained(before, after, primitive, before@.order_for(primitive@.clipped_bounds())),
{
    let order = before@.order_for(primitive@.clipped_bounds());
    if !(primitive is Path) {
        assert(after@.paths == before@.paths);
        lemma_same_view(after, before);
        assert(gained(before, after, primitive, order));
    } else {
        let n = before.paths@.len() as int;
        assert(before@.paths.len() == n);
        assert(before.paths.len() == n);
        assert(after@.paths.len() == n + 1);
        assert(after@.paths.len() == after.paths@.len());
        assert(after@.paths[n] == after.paths@[n]@);
        assert forall|i: int|
            #![trigger after.paths@[i]]
            #![trigger before.paths@[i]]
            0 <= i < n implies {
            &&& same_outline(after.paths@[i], before.paths@[i])
            &&& after.paths@[i].id == before.paths@[i].id
            &&& after.paths@[i].order == before.paths@[i].order
        } by {
            assert(after@.paths[i] == after.paths@[i]@);
            assert(before@.paths[i] == before.paths@[i]@);
            assert(after@.paths[i] == before@.paths[i]);
        }
        assert(after@.paths[n] == before@.insert_primitive(primitive@).paths[n]);
        assert(same_paths(after, before, n as nat));
        assert(same_items(after, before));
    }
}

} // verus!
