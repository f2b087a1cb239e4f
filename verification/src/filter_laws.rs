//! A filtered layer has its range of draw orders to itself.

use crate::bounds_tree::{next_order_is_lowest_above, DrawOrder};
use crate::filter::LayerEffect;
use crate::primitive::{PrimitiveKind, PrimitiveView};
use crate::scalar::Scalar;
use crate::scene::{PaintOperationView, SceneView};
use crate::scene_laws::{
    lemma_effect_count, lemma_lane_insert, lemma_lane_kept, step_keeps_consistent,
};
use vstd::prelude::*;

verus! {

/// How many of the stacking layers that are open in `scene` are still open after the steps.
pub open spec fn still_open<S: Scalar>(
    scene: SceneView<S>,
    ops: Seq<PaintOperationView<S>>,
) -> nat
    decreases ops.len(),
{
    let now = scene.apply_all(ops).layer_stack.len();
    if ops.len() > 0 && still_open(scene, ops.drop_last()) < now {
        still_open(scene, ops.drop_last())
    } else {
        now
    }
}

/// Whether the steps do not end the filtered layers that are open in `scene`.
pub open spec fn keeps_open<S: Scalar>(
    scene: SceneView<S>,
    ops: Seq<PaintOperationView<S>>,
) -> bool
    decreases ops.len(),
{
    ops.len() > 0 ==> {
        &&& keeps_open(scene, ops.drop_last())
        &&& ops.last() is EndFilter ==> scene.apply_all(ops.drop_last()).effect_stack.len()
            > scene.effect_stack.len()
    }
}

/// Whether the steps stay outside of a filtered layer that started at `start` and was just ended:
/// they paint nothing into a stacking layer that was started inside of it and is still open.
pub open spec fn stays_outside<S: Scalar>(
    scene: SceneView<S>,
    ops: Seq<PaintOperationView<S>>,
    start: DrawOrder,
) -> bool
    decreases ops.len(),
{
    ops.len() > 0 ==> {
        let before = scene.apply_all(ops.drop_last());
        let kept = still_open(scene, ops.drop_last());
        &&& stays_outside(scene, ops.drop_last(), start)
        &&& ops.last() matches PaintOperationView::Primitive(primitive) ==> {
            ||| primitive.clipped_bounds().is_empty_spec()
            ||| !before.in_layer()
            ||| before.layer_stack.len() > kept
            ||| scene.layer_stack[kept - 1] < start
        }
    }
}

/// Whether `scene` holds what `base` held, with all that was painted since in front of `start`.
spec fn painted_behind<S: Scalar>(
    base: SceneView<S>,
    scene: SceneView<S>,
    start: DrawOrder,
) -> bool {
    forall|kind: PrimitiveKind, p: int|
        #![trigger scene.lane(kind)[p]]
        {
            &&& base.lane(kind).len() <= scene.lane(kind).len()
            &&& 0 <= p < base.lane(kind).len() ==> scene.lane(kind)[p] == base.lane(kind)[p]
            &&& base.lane(kind).len() <= p < scene.lane(kind).len() ==> start
                < scene.lane(kind)[p].order
        }
}

/// What holds while a filtered layer is open that was opened in `base`.
spec fn inside<S: Scalar>(base: SceneView<S>, layer: LayerEffect<S>, scene: SceneView<S>) -> bool {
    let filters = base.effect_stack.len() as int;
    let n = base.effects.len() as int;
    &&& scene.consistent()
    &&& scene.tree.floor >= layer.start
    &&& filters < scene.effect_stack.len()
    &&& scene.effect_stack[filters] == n
    &&& n < scene.effects.len()
    &&& scene.effects[n] == layer
    &&& painted_behind(base, scene, layer.start)
}

proof fn lemma_lane_extends<S: Scalar>(
    scene: SceneView<S>,
    op: PaintOperationView<S>,
    kind: PrimitiveKind,
)
    ensures
        scene.lane(kind).len() <= scene.apply(op).lane(kind).len(),
        forall|p: int|
            0 <= p < scene.lane(kind).len() ==> #[trigger] scene.apply(op).lane(kind)[p]
                == scene.lane(kind)[p],
        op matches PaintOperationView::Primitive(primitive) ==> forall|p: int|
            scene.lane(kind).len() <= p < scene.apply(op).lane(kind).len() ==> !(
            primitive.clipped_bounds().is_empty_spec()) && (#[trigger] scene.apply(op).lane(
                kind,
            )[p]).order == scene.order_for(primitive.clipped_bounds()),
        !(op is Primitive) ==> scene.apply(op).lane(kind) == scene.lane(kind),
{
    let after = scene.apply(op);
    match op {
        PaintOperationView::Primitive(primitive) => {
            lemma_lane_insert(scene, primitive, kind);
            if !primitive.clipped_bounds().is_empty_spec() && kind == primitive.kind() {
                assert forall|p: int| 0 <= p < scene.lane(kind).len() implies #[trigger] after.lane(
                    kind,
                )[p] == scene.lane(kind)[p] by {
                    assert(after.lane(kind).drop_last()[p] == after.lane(kind)[p]);
                }
                assert(after.lane(kind).last() == after.lane(kind)[after.lane(kind).len() - 1]);
            }
        },
        _ => {
            lemma_lane_kept(scene, op, kind);
        },
    }
}

proof fn lemma_inside_step<S: Scalar>(
    base: SceneView<S>,
    layer: LayerEffect<S>,
    scene: SceneView<S>,
    op: PaintOperationView<S>,
)
    requires
        inside(base, layer, scene),
        scene.has_room_for(op),
        op is EndFilter ==> scene.effect_stack.len() > base.effect_stack.len() + 1,
    ensures
        inside(base, layer, scene.apply(op)),
{
    step_keeps_consistent(scene, op);
    lemma_effect_count(scene);
    let after = scene.apply(op);
    let filters = base.effect_stack.len() as int;
    match op {
        PaintOperationView::Primitive(primitive) => {
            let clipped = primitive.clipped_bounds();
            if !clipped.is_empty_spec() {
                if scene.in_layer() {
                    let depth = scene.effect_stack.len() as int;
                    let innermost = scene.effect_stack[depth - 1] as int;
                    if filters < depth - 1 {
                        assert(scene.effect_stack[filters] < scene.effect_stack[depth - 1]);
                        assert(scene.effects[base.effects.len() as int].start
                            < scene.effects[innermost].start);
                    }
                } else {
                    next_order_is_lowest_above(scene.tree, clipped);
                }
                assert(scene.order_for(clipped) > layer.start);
            }
        },
        PaintOperationView::StartLayer(bounds) => {
            next_order_is_lowest_above(scene.tree, bounds);
        },
        PaintOperationView::EndLayer => {},
        PaintOperationView::StartFilter(_, _, _, _) => {},
        PaintOperationView::EndFilter => {
            let depth = scene.effect_stack.len() as int;
            assert(scene.effect_stack[filters] < scene.effect_stack[depth - 1]);
        },
    }
    assert forall|kind: PrimitiveKind, p: int|
        #![trigger after.lane(kind)[p]]
        {
            &&& base.lane(kind).len() <= after.lane(kind).len()
            &&& 0 <= p < base.lane(kind).len() ==> after.lane(kind)[p] == base.lane(kind)[p]
            &&& base.lane(kind).len() <= p < after.lane(kind).len() ==> layer.start < after.lane(
                kind,
            )[p].order
        } by {
        lemma_lane_extends(scene, op, kind);
        let _ = scene.lane(kind)[p];
    }
}

proof fn lemma_inside_steps<S: Scalar>(
    base: SceneView<S>,
    layer: LayerEffect<S>,
    opened: SceneView<S>,
    ops: Seq<PaintOperationView<S>>,
)
    requires
        inside(base, layer, opened),
        opened.effect_stack.len() == base.effect_stack.len() + 1,
        opened.has_room_for_all(ops),
        keeps_open(opened, ops),
    ensures
        inside(base, layer, opened.apply_all(ops)),
    decreases ops.len(),
{
    if ops.len() > 0 {
        let rest = ops.drop_last();
        lemma_inside_steps(base, layer, opened, rest);
        lemma_inside_step(base, layer, opened.apply_all(rest), ops.last());
    }
}

/// Whether `order` lies below the layer or above it.
pub open spec fn off<S>(layer: LayerEffect<S>, order: DrawOrder) -> bool {
    order < layer.start || layer.end < order
}

/// What holds once the filtered layer with index `n` is closed, where `closed` is the scene at
/// that time, and `kept` of its stacking layers are still open.
spec fn outside<S: Scalar>(
    closed: SceneView<S>,
    n: int,
    layer: LayerEffect<S>,
    scene: SceneView<S>,
    kept: nat,
) -> bool {
    &&& scene.consistent()
    &&& layer.start < layer.end <= scene.tree.floor
    &&& kept <= scene.layer_stack.len()
    &&& kept <= closed.layer_stack.len()
    &&& forall|m: int| 0 <= m < kept ==> #[trigger] scene.layer_stack[m] == closed.layer_stack[m]
    &&& forall|m: int|
        kept <= m < scene.layer_stack.len() ==> off(layer, #[trigger] scene.layer_stack[m])
    &&& 0 <= n < scene.effects.len()
    &&& scene.effects[n] == layer
    &&& forall|kind: PrimitiveKind, p: int|
        #![trigger scene.lane(kind)[p]]
        {
            &&& closed.lane(kind).len() <= scene.lane(kind).len()
            &&& 0 <= p < closed.lane(kind).len() ==> scene.lane(kind)[p] == closed.lane(kind)[p]
            &&& closed.lane(kind).len() <= p < scene.lane(kind).len() ==> off(
                layer,
                scene.lane(kind)[p].order,
            )
        }
}

proof fn lemma_outside_step<S: Scalar>(
    closed: SceneView<S>,
    n: int,
    layer: LayerEffect<S>,
    scene: SceneView<S>,
    kept: nat,
    op: PaintOperationView<S>,
)
    requires
        outside(closed, n, layer, scene, kept),
        scene.has_room_for(op),
        op matches PaintOperationView::Primitive(primitive) ==> {
            ||| primitive.clipped_bounds().is_empty_spec()
            ||| !scene.in_layer()
            ||| scene.layer_stack.len() > kept
            ||| closed.layer_stack[kept - 1] < layer.start
        },
    ensures
        outside(
            closed,
            n,
            layer,
            scene.apply(op),
            if kept < scene.apply(op).layer_stack.len() {
                kept
            } else {
                scene.apply(op).layer_stack.len()
            },
        ),
{
    step_keeps_consistent(scene, op);
    lemma_effect_count(scene);
    let after = scene.apply(op);
    match op {
        PaintOperationView::Primitive(primitive) => {
            let clipped = primitive.clipped_bounds();
            if !clipped.is_empty_spec() {
                if scene.in_layer() {
                    let top = scene.layer_stack.len() - 1;
                    if top < kept {
                        assert(scene.layer_stack[top] == closed.layer_stack[top]);
                    }
                    assert(off(layer, scene.layer_stack[top]));
                } else {
                    next_order_is_lowest_above(scene.tree, clipped);
                }
                assert(off(layer, scene.order_for(clipped)));
            }
        },
        PaintOperationView::StartLayer(bounds) => {
            next_order_is_lowest_above(scene.tree, bounds);
        },
        PaintOperationView::EndLayer => {},
        PaintOperationView::StartFilter(_, _, _, _) => {},
        PaintOperationView::EndFilter => {
            let depth = scene.effect_stack.len() as int;
            if depth > 0 {
                let last = scene.effect_stack[depth - 1] as int;
                assert(scene.is_open(last));
                assert(scene.effects[last].end == DrawOrder::MAX);
            }
        },
    }
    assert forall|kind: PrimitiveKind, p: int|
        #![trigger after.lane(kind)[p]]
        {
            &&& closed.lane(kind).len() <= after.lane(kind).len()
            &&& 0 <= p < closed.lane(kind).len() ==> after.lane(kind)[p] == closed.lane(kind)[p]
            &&& closed.lane(kind).len() <= p < after.lane(kind).len() ==> off(
                layer,
                after.lane(kind)[p].order,
            )
        } by {
        lemma_lane_extends(scene, op, kind);
        let _ = scene.lane(kind)[p];
    }
}

proof fn lemma_outside_steps<S: Scalar>(
    closed: SceneView<S>,
    n: int,
    layer: LayerEffect<S>,
    ops: Seq<PaintOperationView<S>>,
)
    requires
        outside(closed, n, layer, closed, closed.layer_stack.len()),
        closed.has_room_for_all(ops),
        stays_outside(closed, ops, layer.start),
    ensures
        outside(closed, n, layer, closed.apply_all(ops), still_open(closed, ops)),
    decreases ops.len(),
{
    if ops.len() > 0 {
        let rest = ops.drop_last();
        lemma_outside_steps(closed, n, layer, rest);
        lemma_outside_step(
            closed,
            n,
            layer,
            closed.apply_all(rest),
            still_open(closed, rest),
            ops.last(),
        );
    }
}

/// A primitive is painted into the innermost open filtered layer. No layer that opened later holds
/// it either, unless it is painted into a stacking layer that was started there.
pub proof fn painted_into_the_innermost_filter<S: Scalar>(
    scene: SceneView<S>,
    primitive: PrimitiveView<S>,
)
    requires
        scene.consistent(),
        scene.effect_stack.len() > 0,
        scene.has_room_for(PaintOperationView::Primitive(primitive)),
        !primitive.clipped_bounds().is_empty_spec(),
    ensures
        ({
            let after = scene.insert_primitive(primitive);
            let order = after.lane(primitive.kind()).last().order;
            let innermost = scene.effect_stack.last() as int;
            &&& after.effects == scene.effects
            &&& after.effects[innermost].holds(order)
            &&& !scene.in_layer() ==> forall|i: int|
                innermost < i < after.effects.len() ==> !(#[trigger] after.effects[i]).holds(order)
        }),
{
    let after = scene.insert_primitive(primitive);
    let clipped = primitive.clipped_bounds();
    let innermost = scene.effect_stack.last() as int;
    lemma_effect_count(scene);
    lemma_lane_insert(scene, primitive, primitive.kind());
    step_keeps_consistent(scene, PaintOperationView::Primitive(primitive));
    assert(scene.effect_stack[scene.effect_stack.len() - 1] == innermost);
    assert(scene.is_open(innermost));
    assert(scene.effects[innermost].start <= scene.tree.floor);
    if scene.in_layer() {
        assert(scene.layer_stack[scene.layer_stack.len() - 1] <= scene.tree.top);
    } else {
        next_order_is_lowest_above(scene.tree, clipped);
        assert forall|i: int| innermost < i < after.effects.len() implies !(
        #[trigger] after.effects[i]).holds(scene.order_for(clipped)) by {
            if scene.is_open(i) {
                let m = choose|m: int|
                    0 <= m < scene.effect_stack.len() && scene.effect_stack[m] == i as usize;
                if m < scene.effect_stack.len() - 1 {
                    assert(scene.effect_stack[m] < scene.effect_stack[scene.effect_stack.len()
                        - 1]);
                }
            }
            assert(scene.effects[i].end <= scene.tree.floor);
        }
    }
}

/// Everything that a filtered layer contains is drawn above its start, and everything painted
/// before it below.
pub proof fn contents_are_drawn_inside<S: Scalar>(
    scene: SceneView<S>,
    open: PaintOperationView<S>,
    contents: Seq<PaintOperationView<S>>,
)
    requires
        scene.consistent(),
        open is StartFilter,
        scene.has_room_for(open),
        scene.apply(open).has_room_for_all(contents),
        keeps_open(scene.apply(open), contents),
    ensures
        ({
            let full = scene.apply(open).apply_all(contents);
            let layer = full.effects[scene.effects.len() as int];
            &&& full.consistent()
            &&& full.effect_stack.len() > scene.effect_stack.len()
            &&& full.effect_stack[scene.effect_stack.len() as int] == scene.effects.len()
            &&& layer == scene.apply(open).effects.last()
            &&& forall|kind: PrimitiveKind, p: int|
                #![trigger full.lane(kind)[p]]
                {
                    &&& scene.lane(kind).len() <= full.lane(kind).len()
                    &&& 0 <= p < scene.lane(kind).len() ==> {
                        &&& full.lane(kind)[p] == scene.lane(kind)[p]
                        &&& full.lane(kind)[p].order < layer.start
                    }
                    &&& scene.lane(kind).len() <= p < full.lane(kind).len() ==> layer.start
                        < full.lane(kind)[p].order < layer.end
                }
        }),
{
    let n = scene.effects.len() as int;
    let opened = scene.apply(open);
    let full = opened.apply_all(contents);
    let layer = opened.effects[n];
    lemma_effect_count(scene);
    step_keeps_consistent(scene, open);
    assert forall|kind: PrimitiveKind, p: int|
        #![trigger opened.lane(kind)[p]]
        {
            &&& scene.lane(kind).len() <= opened.lane(kind).len()
            &&& 0 <= p < scene.lane(kind).len() ==> opened.lane(kind)[p] == scene.lane(kind)[p]
            &&& scene.lane(kind).len() <= p < opened.lane(kind).len() ==> layer.start
                < opened.lane(kind)[p].order
        } by {
        lemma_lane_kept(scene, open, kind);
    }
    assert(inside(scene, layer, opened));
    lemma_inside_steps(scene, layer, opened, contents);
    assert forall|kind: PrimitiveKind, p: int|
        #![trigger full.lane(kind)[p]]
        {
            &&& scene.lane(kind).len() <= full.lane(kind).len()
            &&& 0 <= p < scene.lane(kind).len() ==> {
                &&& full.lane(kind)[p] == scene.lane(kind)[p]
                &&& full.lane(kind)[p].order < layer.start
            }
            &&& scene.lane(kind).len() <= p < full.lane(kind).len() ==> layer.start < full.lane(
                kind,
            )[p].order < layer.end
        } by {
        if 0 <= p < scene.lane(kind).len() {
            assert(scene.given(scene.lane(kind)[p].order));
        }
        if 0 <= p < full.lane(kind).len() {
            assert(full.given(full.lane(kind)[p].order));
        }
    }
}

/// What is painted after a filtered layer was ended is drawn below its start or above its end,
/// unless it is painted into a stacking layer that was started inside and is still open.
pub proof fn nothing_later_is_drawn_inside<S: Scalar>(
    full: SceneView<S>,
    later: Seq<PaintOperationView<S>>,
)
    requires
        full.consistent(),
        full.effect_stack.len() > 0,
        full.has_room_for(PaintOperationView::EndFilter),
        full.apply(PaintOperationView::EndFilter).has_room_for_all(later),
        stays_outside(
            full.apply(PaintOperationView::EndFilter),
            later,
            full.effects[full.effect_stack.last() as int].start,
        ),
    ensures
        ({
            let done = full.apply(PaintOperationView::EndFilter).apply_all(later);
            let index = full.effect_stack.last() as int;
            let layer = done.effects[index];
            &&& done.consistent()
            &&& layer == (LayerEffect { end: full.tree.barrier_order(), ..full.effects[index] })
            &&& layer.start < layer.end < DrawOrder::MAX
            &&& forall|kind: PrimitiveKind, p: int|
                #![trigger done.lane(kind)[p]]
                {
                    &&& full.lane(kind).len() <= done.lane(kind).len()
                    &&& 0 <= p < full.lane(kind).len() ==> {
                        &&& done.lane(kind)[p] == full.lane(kind)[p]
                        &&& done.lane(kind)[p].order < layer.end
                    }
                    &&& full.lane(kind).len() <= p < done.lane(kind).len() ==> off(
                        layer,
                        done.lane(kind)[p].order,
                    )
                }
        }),
{
    let n = full.effect_stack.last() as int;
    let closed = full.apply(PaintOperationView::EndFilter);
    let done = closed.apply_all(later);
    lemma_effect_count(full);
    step_keeps_consistent(full, PaintOperationView::EndFilter);
    assert(full.effect_stack[full.effect_stack.len() - 1] == n);
    let layer = closed.effects[n];
    assert(layer.end == full.tree.top + 1);
    assert(layer.start <= full.tree.floor);
    assert(outside(closed, n, layer, closed, closed.layer_stack.len()));
    lemma_outside_steps(closed, n, layer, later);
    assert forall|kind: PrimitiveKind, p: int|
        #![trigger done.lane(kind)[p]]
        {
            &&& full.lane(kind).len() <= done.lane(kind).len()
            &&& 0 <= p < full.lane(kind).len() ==> {
                &&& done.lane(kind)[p] == full.lane(kind)[p]
                &&& done.lane(kind)[p].order < layer.end
            }
            &&& full.lane(kind).len() <= p < done.lane(kind).len() ==> off(
                layer,
                done.lane(kind)[p].order,
            )
        } by {
        lemma_lane_kept(full, PaintOperationView::EndFilter, kind);
        if 0 <= p < full.lane(kind).len() {
            assert(full.given(full.lane(kind)[p].order));
        }
    }
}

/// A filtered layer claims a range of orders that nothing outside it shares: what was painted
/// before it is drawn below its start, what was painted inside it is drawn between its start and
/// its end, and what is painted later is drawn below its start or above its end.
///
/// A stacking layer that was started inside belongs to the filtered layer, so nothing may be
/// painted into it later. Those of the primitives in `done` that stand before the number in `scene`
/// were painted before the layer, those before the number in `full` inside it, and the rest after
/// it.
pub proof fn filter_owns_its_orders<S: Scalar>(
    scene: SceneView<S>,
    open: PaintOperationView<S>,
    contents: Seq<PaintOperationView<S>>,
    later: Seq<PaintOperationView<S>>,
)
    requires
        scene.consistent(),
        open is StartFilter,
        scene.has_room_for(open),
        scene.apply(open).has_room_for_all(contents),
        keeps_open(scene.apply(open), contents),
        scene.apply(open).apply_all(contents).effect_stack.len() == scene.effect_stack.len() + 1,
        scene.apply(open).apply_all(contents).has_room_for(PaintOperationView::EndFilter),
        scene.apply(open).apply_all(contents).apply(
            PaintOperationView::EndFilter,
        ).has_room_for_all(later),
        stays_outside(
            scene.apply(open).apply_all(contents).apply(PaintOperationView::EndFilter),
            later,
            scene.apply(open).effects.last().start,
        ),
    ensures
        ({
            let full = scene.apply(open).apply_all(contents);
            let done = full.apply(PaintOperationView::EndFilter).apply_all(later);
            let layer = done.effects[scene.effects.len() as int];
            &&& done.consistent()
            &&& layer.start < layer.end < DrawOrder::MAX
            &&& forall|kind: PrimitiveKind, p: int|
                #![trigger done.lane(kind)[p]]
                {
                    &&& scene.lane(kind).len() <= full.lane(kind).len() <= done.lane(kind).len()
                    &&& 0 <= p < scene.lane(kind).len() ==> {
                        &&& done.lane(kind)[p] == scene.lane(kind)[p]
                        &&& done.lane(kind)[p].order < layer.start
                    }
                    &&& scene.lane(kind).len() <= p < full.lane(kind).len() ==> {
                        &&& done.lane(kind)[p] == full.lane(kind)[p]
                        &&& layer.start < done.lane(kind)[p].order < layer.end
                    }
                    &&& full.lane(kind).len() <= p < done.lane(kind).len() ==> off(
                        layer,
                        done.lane(kind)[p].order,
                    )
                }
        }),
{
    let full = scene.apply(open).apply_all(contents);
    let done = full.apply(PaintOperationView::EndFilter).apply_all(later);
    contents_are_drawn_inside(scene, open, contents);
    assert(full.effect_stack.last() == scene.effects.len());
    nothing_later_is_drawn_inside(full, later);
    assert forall|kind: PrimitiveKind, p: int|
        #![trigger done.lane(kind)[p]]
        {
            &&& scene.lane(kind).len() <= full.lane(kind).len() <= done.lane(kind).len()
            &&& 0 <= p < scene.lane(kind).len() ==> {
                &&& done.lane(kind)[p] == scene.lane(kind)[p]
                &&& done.lane(kind)[p].order < scene.apply(open).effects.last().start
            }
            &&& scene.lane(kind).len() <= p < full.lane(kind).len() ==> {
                &&& done.lane(kind)[p] == full.lane(kind)[p]
                &&& scene.apply(open).effects.last().start < done.lane(kind)[p].order
            }
        } by {
        let _ = full.lane(kind)[p];
    }
}

} // verus!
