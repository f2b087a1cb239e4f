//! How painting order becomes drawing order.

use crate::bounds_tree::{
    lemma_highest_below, lemma_highest_raised, next_order_is_lowest_above, BoundsTreeView,
    DrawOrder, Placed,
};
use crate::filter_laws::{keeps_open, still_open};
use crate::geometry::{Bounds, Point};
use crate::geometry_laws::{
    covers, lemma_intersection_covers, lemma_shared_point, lengths_are_in_line,
};
use crate::path_laws::is_axis;
use crate::primitive::{PrimitiveKind, PrimitiveView};
use crate::scalar::{Coordinate, Scalar, ScaledPixels};
use crate::scene::{PaintOperationView, SceneView};
use crate::scene_laws::{
    lemma_effect_count, lemma_lane_insert, lemma_lane_kept, step_keeps_consistent,
    steps_keep_consistent,
};
use vstd::prelude::*;

verus! {

/// A primitive that its content mask hides leaves the scene as it was.
pub proof fn hidden_primitive_changes_nothing<S: Scalar>(
    scene: SceneView<S>,
    primitive: PrimitiveView<S>,
)
    requires
        primitive.clipped_bounds().is_empty_spec(),
    ensures
        scene.insert_primitive(primitive) == scene,
{
}

/// In a stacking layer all primitives are drawn at the order of the layer.
pub proof fn layer_shares_its_order<S: Scalar>(scene: SceneView<S>, primitive: PrimitiveView<S>)
    requires
        scene.in_layer(),
        !primitive.clipped_bounds().is_empty_spec(),
    ensures
        scene.insert_primitive(primitive).lane(primitive.kind()).last().order
            == scene.layer_stack.last(),
        scene.insert_primitive(primitive).tree == scene.tree,
{
    lemma_lane_insert(scene, primitive, primitive.kind());
}

/// Ending a layer undoes what starting it did to the stack of layers.
pub proof fn pop_layer_ends_what_push_layer_started<S: Scalar>(
    scene: SceneView<S>,
    op: PaintOperationView<S>,
)
    requires
        op is StartLayer,
    ensures
        scene.apply(op).pop_layer().layer_stack == scene.layer_stack,
{
    assert(scene.apply(op).pop_layer().layer_stack =~= scene.layer_stack);
}

/// Whether everything placed from here on over `placed` is drawn after it.
spec fn covered<T: Coordinate>(tree: BoundsTreeView<T>, placed: Placed<T>) -> bool {
    placed.order <= tree.floor || tree.placed.contains(placed)
}

proof fn lemma_covered_step<S: Scalar>(
    scene: SceneView<S>,
    op: PaintOperationView<S>,
    placed: Placed<ScaledPixels<S>>,
)
    requires
        scene.consistent(),
        scene.has_room_for(op),
        placed.order <= scene.tree.top,
        covered(scene.tree, placed),
    ensures
        covered(scene.apply(op).tree, placed),
        placed.order <= scene.apply(op).tree.top,
{
    let (before, after) = (scene.tree.placed, scene.apply(op).tree.placed);
    if before.contains(placed) && after.len() == before.len() + 1 {
        let i = choose|i: int| 0 <= i < before.len() && before[i] == placed;
        assert(after[i] == placed);
    }
}

proof fn lemma_covered_steps<S: Scalar>(
    scene: SceneView<S>,
    ops: Seq<PaintOperationView<S>>,
    placed: Placed<ScaledPixels<S>>,
)
    requires
        scene.consistent(),
        scene.has_room_for_all(ops),
        placed.order <= scene.tree.top,
        covered(scene.tree, placed),
    ensures
        covered(scene.apply_all(ops).tree, placed),
        placed.order <= scene.apply_all(ops).tree.top,
    decreases ops.len(),
{
    if ops.len() > 0 {
        lemma_covered_steps(scene, ops.drop_last(), placed);
        steps_keep_consistent(scene, ops.drop_last());
        lemma_covered_step(scene.apply_all(ops.drop_last()), ops.last(), placed);
    }
}

/// What is painted later over the same area is drawn later: outside of stacking layers, a
/// primitive gets a higher order than every primitive painted before it that it overlaps,
/// whatever was painted in between.
pub proof fn later_covers_earlier<S: Scalar>(
    scene: SceneView<S>,
    earlier: PrimitiveView<S>,
    between: Seq<PaintOperationView<S>>,
    later: PrimitiveView<S>,
)
    requires
        scene.consistent(),
        !scene.in_layer(),
        scene.has_room_for(PaintOperationView::Primitive(earlier)),
        scene.insert_primitive(earlier).has_room_for_all(between),
        !scene.insert_primitive(earlier).apply_all(between).in_layer(),
        scene.insert_primitive(earlier).apply_all(between).has_room_for(
            PaintOperationView::Primitive(later),
        ),
        !earlier.clipped_bounds().is_empty_spec(),
        !later.clipped_bounds().is_empty_spec(),
        earlier.clipped_bounds().intersects_spec(later.clipped_bounds()),
    ensures
        ({
            let first = scene.insert_primitive(earlier);
            let second = first.apply_all(between).insert_primitive(later);
            first.lane(earlier.kind()).last().order < second.lane(later.kind()).last().order
        }),
{
    let first = scene.insert_primitive(earlier);
    let middle = first.apply_all(between);
    let clipped = earlier.clipped_bounds();
    step_keeps_consistent(scene, PaintOperationView::Primitive(earlier));
    lemma_lane_insert(scene, earlier, earlier.kind());
    let placed = Placed { bounds: clipped, order: scene.tree.next_order(clipped) };
    assert(first.tree == scene.tree.insert(clipped));
    assert(first.tree.placed[scene.tree.placed.len() as int] == placed);
    assert(first.tree.placed.contains(placed));
    lemma_covered_steps(first, between, placed);
    steps_keep_consistent(first, between);
    lemma_lane_insert(middle, later, later.kind());
    next_order_is_lowest_above(middle.tree, later.clipped_bounds());
    if middle.tree.placed.contains(placed) {
        let i = choose|i: int|
            0 <= i < middle.tree.placed.len() && middle.tree.placed[i] == placed;
        assert(middle.tree.placed[i].order < middle.tree.next_order(later.clipped_bounds()));
    }
}

/// A primitive that is painted over any part of one painted before it is drawn after it: where a
/// point lies within the bounds and the masks of both, the later gets the higher order, whatever
/// was painted in between.
pub proof fn later_over_any_part_is_drawn_later<S: Scalar>(
    scene: SceneView<S>,
    earlier: PrimitiveView<S>,
    between: Seq<PaintOperationView<S>>,
    later: PrimitiveView<S>,
    point: Point<ScaledPixels<S>>,
)
    requires
        is_axis::<S>(),
        scene.consistent(),
        !scene.in_layer(),
        scene.has_room_for(PaintOperationView::Primitive(earlier)),
        scene.insert_primitive(earlier).has_room_for_all(between),
        !scene.insert_primitive(earlier).apply_all(between).in_layer(),
        scene.insert_primitive(earlier).apply_all(between).has_room_for(
            PaintOperationView::Primitive(later),
        ),
        scene.insert_primitive(earlier) != scene,
        scene.insert_primitive(earlier).apply_all(between).insert_primitive(later)
            != scene.insert_primitive(earlier).apply_all(between),
        covers(earlier.bounds(), point),
        covers(earlier.content_mask().bounds, point),
        covers(later.bounds(), point),
        covers(later.content_mask().bounds, point),
    ensures
        ({
            let first = scene.insert_primitive(earlier);
            let second = first.apply_all(between).insert_primitive(later);
            first.lane(earlier.kind()).last().order < second.lane(later.kind()).last().order
        }),
{
    lengths_are_in_line::<S>();
    lemma_intersection_covers(earlier.bounds(), earlier.content_mask().bounds, point);
    lemma_intersection_covers(later.bounds(), later.content_mask().bounds, point);
    lemma_shared_point(earlier.clipped_bounds(), later.clipped_bounds(), point);
    later_covers_earlier(scene, earlier, between, later);
}

/// Whether the filtered layers of `inner` are those of `outer`, one that starts at `base`, and
/// those of `alone` with every order raised by `base`.
spec fn filters_raised<S: Scalar>(
    outer: SceneView<S>,
    inner: SceneView<S>,
    alone: SceneView<S>,
    base: DrawOrder,
) -> bool {
    let (n, depth) = (outer.effects.len() as int, outer.effect_stack.len() as int);
    &&& inner.effects.len() == n + 1 + alone.effects.len()
    &&& inner.effects[n].start == base
    &&& forall|i: int|
        0 <= i < alone.effects.len() ==> inner.effects[n + 1 + i].start == (
        #[trigger] alone.effects[i]).start + base
    &&& inner.effect_stack.len() == depth + 1 + alone.effect_stack.len()
    &&& inner.effect_stack[depth] == n
    &&& forall|m: int|
        0 <= m < alone.effect_stack.len() ==> {
            &&& inner.effect_stack[depth + 1 + m] == n + 1 + #[trigger] alone.effect_stack[m]
            &&& alone.effect_stack[m] < alone.effects.len()
        }
}

/// Whether `inner` is `alone` with every order raised by `base`, where `outer` was there first and
/// `layers` of its stacking layers still are.
spec fn raised<S: Scalar>(
    outer: SceneView<S>,
    inner: SceneView<S>,
    layers: nat,
    alone: SceneView<S>,
    base: DrawOrder,
) -> bool {
    &&& inner.tree.floor == alone.tree.floor + base
    &&& inner.tree.top == alone.tree.top + base
    &&& inner.tree.placed.len() == alone.tree.placed.len()
    &&& forall|i: int|
        0 <= i < inner.tree.placed.len() ==> {
            &&& (#[trigger] inner.tree.placed[i]).bounds == alone.tree.placed[i].bounds
            &&& inner.tree.placed[i].order == alone.tree.placed[i].order + base
        }
    &&& inner.layer_stack.len() == alone.layer_stack.len() + layers
    &&& forall|m: int| 0 <= m < layers ==> #[trigger] inner.layer_stack[m] < base
    &&& forall|m: int|
        layers <= m < inner.layer_stack.len() ==> base < #[trigger] inner.layer_stack[m]
            == alone.layer_stack[m - layers] + base
    &&& filters_raised(outer, inner, alone, base)
    &&& forall|kind: PrimitiveKind, p: int|
        #![trigger alone.lane(kind)[p]]
        {
            &&& inner.lane(kind).len() == outer.lane(kind).len() + alone.lane(kind).len()
            &&& 0 <= p < alone.lane(kind).len() ==> inner.lane(kind)[outer.lane(kind).len()
                + p].order == alone.lane(kind)[p].order + base
        }
}

proof fn lemma_raised_insert<S: Scalar>(
    outer: SceneView<S>,
    inner: SceneView<S>,
    layers: nat,
    alone: SceneView<S>,
    base: DrawOrder,
    bounds: Bounds<ScaledPixels<S>>,
)
    requires
        inner.tree.wf(),
        inner.tree.has_room(),
        raised(outer, inner, layers, alone, base),
    ensures
        inner.tree.next_order(bounds) == alone.tree.next_order(bounds) + base,
        inner.tree.insert(bounds).top == alone.tree.insert(bounds).top + base,
        forall|i: int|
            0 <= i < inner.tree.insert(bounds).placed.len() ==> {
                &&& (#[trigger] inner.tree.insert(bounds).placed[i]).bounds == alone.tree.insert(
                    bounds,
                ).placed[i].bounds
                &&& inner.tree.insert(bounds).placed[i].order == alone.tree.insert(
                    bounds,
                ).placed[i].order + base
            },
{
    lemma_highest_raised(
        alone.tree.placed,
        inner.tree.placed,
        alone.tree.floor,
        inner.tree.floor,
        base,
        bounds,
    );
    lemma_highest_below(inner.tree.placed, inner.tree.floor, inner.tree.top, bounds);
}

proof fn lemma_raised_in_layer<S: Scalar>(
    outer: SceneView<S>,
    inner: SceneView<S>,
    layers: nat,
    alone: SceneView<S>,
    base: DrawOrder,
)
    requires
        inner.wf(),
        raised(outer, inner, layers, alone, base),
    ensures
        inner.in_layer() == alone.in_layer(),
        inner.in_layer() ==> inner.layer_stack.last() == alone.layer_stack.last() + base,
{
    let (n, depth) = (outer.effects.len() as int, outer.effect_stack.len() as int);
    let top = inner.layer_stack.len() - 1;
    if alone.effect_stack.len() > 0 {
        let m = alone.effect_stack.len() - 1;
        let i = alone.effect_stack[m] as int;
        assert(inner.effect_stack.last() == n + 1 + i);
        assert(inner.effects[n + 1 + i].start == alone.effects[i].start + base);
    } else {
        assert(inner.effect_stack.last() == n);
    }
    if top >= 0 {
        assert(inner.layer_stack[top] == inner.layer_stack.last());
    }
}

proof fn lemma_raised_step<S: Scalar>(
    outer: SceneView<S>,
    inner: SceneView<S>,
    layers: nat,
    alone: SceneView<S>,
    base: DrawOrder,
    op: PaintOperationView<S>,
)
    requires
        inner.consistent(),
        inner.has_room_for(op),
        raised(outer, inner, layers, alone, base),
        op is EndFilter ==> inner.effect_stack.len() > outer.effect_stack.len() + 1,
    ensures
        raised(
            outer,
            inner.apply(op),
            if layers < inner.apply(op).layer_stack.len() {
                layers
            } else {
                inner.apply(op).layer_stack.len()
            },
            alone.apply(op),
            base,
        ),
{
    let (inner1, alone1) = (inner.apply(op), alone.apply(op));
    lemma_effect_count(inner);
    lemma_raised_in_layer(outer, inner, layers, alone, base);
    match op {
        PaintOperationView::Primitive(primitive) => {
            let clipped = primitive.clipped_bounds();
            if !clipped.is_empty_spec() {
                if !inner.in_layer() {
                    lemma_raised_insert(outer, inner, layers, alone, base, clipped);
                }
                assert(inner.order_for(clipped) == alone.order_for(clipped) + base);
            }
        },
        PaintOperationView::StartLayer(bounds) => {
            lemma_raised_insert(outer, inner, layers, alone, base, bounds);
            next_order_is_lowest_above(inner.tree, bounds);
        },
        _ => {},
    }
    assert forall|kind: PrimitiveKind, p: int|
        #![trigger alone1.lane(kind)[p]]
        {
            &&& inner1.lane(kind).len() == outer.lane(kind).len() + alone1.lane(kind).len()
            &&& 0 <= p < alone1.lane(kind).len() ==> inner1.lane(kind)[outer.lane(kind).len()
                + p].order == alone1.lane(kind)[p].order + base
        } by {
        let _ = alone.lane(kind)[p];
        match op {
            PaintOperationView::Primitive(primitive) => {
                lemma_lane_insert(inner, primitive, kind);
                lemma_lane_insert(alone, primitive, kind);
                if !primitive.clipped_bounds().is_empty_spec() && kind == primitive.kind() {
                    let at = outer.lane(kind).len() + p;
                    if 0 <= p < alone.lane(kind).len() {
                        assert(inner1.lane(kind).drop_last()[at] == inner1.lane(kind)[at]);
                        assert(alone1.lane(kind).drop_last()[p] == alone1.lane(kind)[p]);
                    } else if p == alone.lane(kind).len() {
                        assert(inner1.lane(kind).last() == inner1.lane(kind)[at]);
                        assert(alone1.lane(kind).last() == alone1.lane(kind)[p]);
                    }
                }
            },
            _ => {
                lemma_lane_kept(inner, op, kind);
                lemma_lane_kept(alone, op, kind);
            },
        }
    }
}

proof fn lemma_raised_steps<S: Scalar>(
    outer: SceneView<S>,
    opened: SceneView<S>,
    base: DrawOrder,
    ops: Seq<PaintOperationView<S>>,
)
    requires
        opened.consistent(),
        opened.has_room_for_all(ops),
        opened.effect_stack.len() == outer.effect_stack.len() + 1,
        raised(outer, opened, opened.layer_stack.len(), SceneView::<S>::empty(), base),
        keeps_open(opened, ops),
    ensures
        raised(
            outer,
            opened.apply_all(ops),
            still_open(opened, ops),
            SceneView::<S>::empty().apply_all(ops),
            base,
        ),
    decreases ops.len(),
{
    if ops.len() > 0 {
        let rest = ops.drop_last();
        lemma_raised_steps(outer, opened, base, rest);
        steps_keep_consistent(opened, rest);
        lemma_raised_step(
            outer,
            opened.apply_all(rest),
            still_open(opened, rest),
            SceneView::<S>::empty().apply_all(rest),
            base,
            ops.last(),
        );
    }
}

/// The contents of a filtered layer order among themselves the way they would anywhere else: each
/// primitive has the order that it would have in a scene of its own, counted from the start of
/// the layer.
pub proof fn contents_order_as_anywhere_else<S: Scalar>(
    scene: SceneView<S>,
    open: PaintOperationView<S>,
    contents: Seq<PaintOperationView<S>>,
)
    requires
        scene.consistent(),
        open is StartFilter,
        scene.has_room_for(open),
        scene.apply(open).has_room_for_all(contents),
        keeps_open(scene.apply(open), contents),
    ensures
        ({
            let inner = scene.apply(open).apply_all(contents);
            let alone = SceneView::<S>::empty().apply_all(contents);
            let start = scene.apply(open).effects.last().start;
            forall|kind: PrimitiveKind, p: int|
                #![trigger alone.lane(kind)[p]]
                {
                    &&& inner.lane(kind).len() == scene.lane(kind).len() + alone.lane(kind).len()
                    &&& 0 <= p < alone.lane(kind).len() ==> inner.lane(kind)[scene.lane(kind).len()
                        + p].order == alone.lane(kind)[p].order + start
                }
        }),
{
    let opened = scene.apply(open);
    let start = opened.effects.last().start;
    let empty = SceneView::<S>::empty();
    step_keeps_consistent(scene, open);
    lemma_effect_count(scene);
    assert(start == scene.tree.barrier_order());
    assert forall|kind: PrimitiveKind, p: int|
        #![trigger empty.lane(kind)[p]]
        {
            &&& opened.lane(kind).len() == scene.lane(kind).len() + empty.lane(kind).len()
            &&& 0 <= p < empty.lane(kind).len() ==> opened.lane(kind)[scene.lane(kind).len()
                + p].order == empty.lane(kind)[p].order + start
        } by {
        lemma_lane_kept(scene, open, kind);
        assert(empty.lane(kind).len() == 0);
    }
    assert(raised(scene, opened, opened.layer_stack.len(), empty, start));
    lemma_raised_steps(scene, opened, start, contents);
}

} // verus!
