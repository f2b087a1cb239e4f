//! What holds of a finished scene and of its batches.

use crate::batch::{layer_edges, next_batch, valid_starts, LaneItem};
use crate::batch_laws::{
    batch_continues_its_kind, batch_spans_no_edge, lanes_sorted, orders_in_range,
};
use crate::bounds_tree::{next_order_is_lowest_above, DrawOrder};
use crate::filter::LayerEffect;
use crate::path::PathView;
use crate::primitive::{
    Backdrop, MonochromeSprite, PaintSurface, PolychromeSprite, PrimitiveKind, PrimitiveView,
    Quad, Shadow, SubpixelSprite, Underline,
};
use crate::scalar::{Scalar, ScaledPixels};
use crate::scene::{enclosing, is_innermost_at, PaintOperationView, SceneView};
use crate::scene_laws::{
    chain_runs_from_the_outside_in, fits_into, innermost_and_enclosing_hold, lemma_effect_count,
    lemma_enclosing_same, lemma_lane_insert, step_keeps_consistent,
};
use crate::sort::{is_stable_sort, key_at_most, stable_sort_keeps_items, Keyed, SortKey};
use vstd::prelude::*;

verus! {

/// Whether `after` is sorted by order and has no order that `before` has not.
spec fn lane_sorted_from(before: Seq<LaneItem>, after: Seq<LaneItem>) -> bool {
    &&& forall|p: int, q: int|
        0 <= p <= q < after.len() ==> (#[trigger] after[p]).order <= (#[trigger] after[q]).order
    &&& forall|p: int|
        0 <= p < after.len() ==> exists|q: int|
            0 <= q < before.len() && (#[trigger] after[p]).order == (#[trigger] before[q]).order
}

proof fn lemma_lane_sorted<A>(
    before: Seq<A>,
    after: Seq<A>,
    key: spec_fn(A) -> SortKey,
    item: spec_fn(A) -> LaneItem,
)
    requires
        is_stable_sort(before, after, key),
        forall|a: A| (#[trigger] item(a)).order == key(a).0,
    ensures
        lane_sorted_from(before.map_values(item), after.map_values(item)),
{
    let (b, a) = (before.map_values(item), after.map_values(item));
    assert forall|p: int, q: int| 0 <= p <= q < a.len() implies (#[trigger] a[p]).order <= (
    #[trigger] a[q]).order by {
        assert(key_at_most(key(after[p]), key(after[q])));
        assert(item(after[p]).order == key(after[p]).0);
        assert(item(after[q]).order == key(after[q]).0);
    }
    assert forall|p: int| 0 <= p < a.len() implies exists|q: int|
        0 <= q < b.len() && (#[trigger] a[p]).order == (#[trigger] b[q]).order by {
        let x = after[p];
        assert(after.contains(x));
        stable_sort_keeps_items(before, after, key, x);
        let q = choose|q: int| 0 <= q < before.len() && before[q] == x;
        assert(a[p].order == b[q].order);
    }
}

proof fn lemma_finish_lane<S: Scalar>(
    before: SceneView<S>,
    after: SceneView<S>,
    kind: PrimitiveKind,
)
    requires
        before.finishes_to(after),
    ensures
        lane_sorted_from(before.lane(kind), after.lane(kind)),
{
    match kind {
        PrimitiveKind::Shadow => lemma_lane_sorted(
            before.shadows,
            after.shadows,
            |p: Shadow<S>| p.key_spec(),
            |p: Shadow<S>| LaneItem { order: p.order, texture: None },
        ),
        PrimitiveKind::Backdrop => lemma_lane_sorted(
            before.backdrops,
            after.backdrops,
            |p: Backdrop<S>| p.key_spec(),
            |p: Backdrop<S>| LaneItem { order: p.order, texture: None },
        ),
        PrimitiveKind::Quad => lemma_lane_sorted(
            before.quads,
            after.quads,
            |p: Quad<S>| p.key_spec(),
            |p: Quad<S>| LaneItem { order: p.order, texture: None },
        ),
        PrimitiveKind::Path => lemma_lane_sorted(
            before.paths,
            after.paths,
            |p: PathView<ScaledPixels<S>, S>| (p.order, 0u32),
            |p: PathView<ScaledPixels<S>, S>| LaneItem { order: p.order, texture: None },
        ),
        PrimitiveKind::Underline => lemma_lane_sorted(
            before.underlines,
            after.underlines,
            |p: Underline<S>| p.key_spec(),
            |p: Underline<S>| LaneItem { order: p.order, texture: None },
        ),
        PrimitiveKind::MonochromeSprite => lemma_lane_sorted(
            before.monochrome_sprites,
            after.monochrome_sprites,
            |p: MonochromeSprite<S>| p.key_spec(),
            |p: MonochromeSprite<S>|
                LaneItem { order: p.order, texture: Some(p.tile.texture_id) },
        ),
        PrimitiveKind::SubpixelSprite => lemma_lane_sorted(
            before.subpixel_sprites,
            after.subpixel_sprites,
            |p: SubpixelSprite<S>| p.key_spec(),
            |p: SubpixelSprite<S>| LaneItem { order: p.order, texture: Some(p.tile.texture_id) },
        ),
        PrimitiveKind::PolychromeSprite => lemma_lane_sorted(
            before.polychrome_sprites,
            after.polychrome_sprites,
            |p: PolychromeSprite<S>| p.key_spec(),
            |p: PolychromeSprite<S>|
                LaneItem { order: p.order, texture: Some(p.tile.texture_id) },
        ),
        PrimitiveKind::Surface => lemma_lane_sorted(
            before.surfaces,
            after.surfaces,
            |p: PaintSurface<S>| p.key_spec(),
            |p: PaintSurface<S>| LaneItem { order: p.order, texture: None },
        ),
    }
}

/// After `finish` the primitives of each kind are sorted by their orders.
pub proof fn finish_sorts_every_kind<S: Scalar>(before: SceneView<S>, after: SceneView<S>)
    requires
        before.finishes_to(after),
    ensures
        lanes_sorted(after.lanes()),
{
    assert forall|k: int, p: int, q: int|
        0 <= k < after.lanes().len() && 0 <= p <= q < after.lanes()[k].len() implies (
    #[trigger] after.lanes()[k][p]).order <= (#[trigger] after.lanes()[k][q]).order by {
        lemma_finish_lane(before, after, PrimitiveKind::of_rank(k));
    }
}

/// `finish` gives no primitive another order: every order in the finished scene was given out,
/// and is that of no barrier.
pub proof fn finish_keeps_orders<S: Scalar>(before: SceneView<S>, after: SceneView<S>)
    requires
        before.consistent(),
        before.finishes_to(after),
    ensures
        after.orders_given(),
        orders_in_range(after.lanes()),
{
    lemma_effect_count(before);
    assert forall|order: DrawOrder| #[trigger] before.given(order) implies after.given(order) by {
        assert forall|i: int| 0 <= i < after.effects.len() implies (
        #[trigger] after.effects[i]).start != order && after.effects[i].end != order by {
            assert(before.effects[i].start != order && before.effects[i].end != order);
        }
    }
    assert forall|kind: PrimitiveKind, p: int| 0 <= p < after.lane(kind).len() implies after.given(
        (#[trigger] after.lane(kind)[p]).order,
    ) by {
        lemma_finish_lane(before, after, kind);
        let q = choose|q: int|
            0 <= q < before.lane(kind).len() && after.lane(kind)[p].order == (
            #[trigger] before.lane(kind)[q]).order;
        assert(before.given(before.lane(kind)[q].order));
    }
    assert forall|m: int| 0 <= m < after.layer_stack.len() implies after.given(
        #[trigger] after.layer_stack[m],
    ) by {
        assert(before.given(before.layer_stack[m]));
    }
    assert forall|k: int, p: int|
        0 <= k < after.lanes().len() && 0 <= p < after.lanes()[k].len() implies (
    #[trigger] after.lanes()[k][p]).order < DrawOrder::MAX by {
        assert(after.given(after.lane(PrimitiveKind::of_rank(k))[p].order));
    }
}

/// A filtered layer that was left open holds nothing once the scene is finished; the others hold
/// what they held.
pub proof fn finish_empties_open_layers<S: Scalar>(
    before: SceneView<S>,
    after: SceneView<S>,
    i: int,
    order: DrawOrder,
)
    requires
        before.finishes_to(after),
        0 <= i < before.effects.len(),
    ensures
        before.is_open(i) ==> !after.effects[i].holds(order),
        !before.is_open(i) ==> after.effects[i] == before.effects[i],
        after.effect_stack.len() == 0,
{
}

/// Finishing keeps a scene consistent, so that painting can go on.
pub proof fn finish_keeps_consistent<S: Scalar>(before: SceneView<S>, after: SceneView<S>)
    requires
        before.consistent(),
        before.finishes_to(after),
    ensures
        after.consistent(),
{
    lemma_effect_count(before);
    finish_keeps_orders(before, after);
    assert(after.wf()) by {
        assert forall|i: int, j: int| 0 <= i < j < after.effects.len() implies (
        #[trigger] after.effects[i]).start < (#[trigger] after.effects[j]).start by {
            assert(before.effects[i].start < before.effects[j].start);
        }
        assert forall|i: int| 0 <= i < after.effects.len() implies ((
        #[trigger] after.effects[i]).parent matches Some(p) ==> p < i) by {
            assert(before.effects[i].parent == after.effects[i].parent);
        }
        assert forall|i: int| 0 <= i < after.effects.len() implies (
        #[trigger] after.effects[i]).start <= after.tree.top by {
            assert(before.effects[i].start <= before.tree.top);
        }
    }
    assert(after.barriers_ordered()) by {
        assert forall|i: int| 0 <= i < after.effects.len() implies {
            &&& 0 < (#[trigger] after.effects[i]).start <= after.tree.floor
            &&& !after.is_open(i)
            &&& after.effects[i].start <= after.effects[i].end <= after.tree.floor
        } by {
            assert(before.effects[i].start <= before.tree.floor);
        }
    }
    lemma_finish_keeps_nested(before, after);
}

proof fn lemma_finish_keeps_nested<S: Scalar>(before: SceneView<S>, after: SceneView<S>)
    requires
        before.consistent(),
        before.finishes_to(after),
    ensures
        after.nested(),
{
    reveal(SceneView::nested);
    lemma_effect_count(before);
    assert forall|i: int, j: int| 0 <= i < j < after.effects.len() implies {
        ||| (#[trigger] after.effects[i]).end <= (#[trigger] after.effects[j]).start
        ||| enclosing(after.effects, j).contains(i as usize) && after.effects[j].end
            <= after.effects[i].end
    } by {
        assert(before.effects[i].start < before.effects[j].start);
        assert(before.effects[i].end <= before.effects[j].start || (enclosing(
            before.effects,
            j,
        ).contains(i as usize) && before.effects[j].end <= before.effects[i].end));
        lemma_enclosing_same(after.effects, before.effects, j);
        if before.is_open(j) {
            assert(before.effects[j].end == DrawOrder::MAX);
            if !before.is_open(i) {
                assert(before.effects[i].end <= before.tree.floor);
            }
        }
    }
    assert forall|j: int| 0 <= j < after.effects.len() implies ((
    #[trigger] after.effects[j]).parent matches Some(p) ==> fits_into(
        after.effects[j],
        after.effects[p as int],
    )) by {
        if let Some(p) = before.effects[j].parent {
            assert(fits_into(before.effects[j], before.effects[p as int]));
            if before.is_open(j) {
                lemma_parent_of_open_is_open(before, j);
            }
        }
    }
}

/// The layer around an open one is open too.
proof fn lemma_parent_of_open_is_open<S: Scalar>(scene: SceneView<S>, j: int)
    requires
        scene.consistent(),
        0 <= j < scene.effects.len(),
        scene.is_open(j),
    ensures
        scene.effects[j].parent matches Some(p) ==> scene.is_open(p as int),
{
    reveal(SceneView::nested);
    lemma_effect_count(scene);
    let m = choose|m: int| 0 <= m < scene.effect_stack.len() && scene.effect_stack[m] == j as usize;
    if let Some(p) = scene.effects[j].parent {
        let outer = enclosing(scene.effects, p as int);
        assert(enclosing(scene.effects, scene.effect_stack[m] as int) == scene.effect_stack.take(
            m + 1,
        ));
        assert(enclosing(scene.effects, j) == outer.push(j as usize));
        chain_runs_from_the_outside_in(scene.effects, p);
        assert(outer.push(j as usize)[outer.len() - 1] == p);
        assert(scene.effect_stack.take(m + 1)[outer.len() - 1] == p);
        assert(scene.effect_stack[outer.len() - 1] == p);
    }
}

proof fn lemma_layer_edges<S: Scalar>(effects: Seq<LayerEffect<S>>, i: int)
    requires
        0 <= i < effects.len(),
        effects[i].has_inner_orders(),
    ensures
        layer_edges(effects).contains(effects[i].start),
        layer_edges(effects).contains(effects[i].end),
    decreases effects.len(),
{
    let rest = layer_edges(effects.drop_last());
    let last = effects.last();
    if i < effects.len() - 1 {
        let init = effects.drop_last();
        assert(init[i] == effects[i]);
        lemma_layer_edges(init, i);
        let a = choose|a: int| 0 <= a < rest.len() && rest[a] == effects[i].start;
        let b = choose|b: int| 0 <= b < rest.len() && rest[b] == effects[i].end;
        if last.has_inner_orders() {
            let all = rest.push(last.start).push(last.end);
            assert(all[a] == effects[i].start && all[b] == effects[i].end);
        }
    } else {
        let all = rest.push(last.start).push(last.end);
        assert(all[rest.len() as int] == last.start);
        assert(all[rest.len() as int + 1] == last.end);
    }
}

/// Batches are split where a layer opens or closes that has an order between its barriers, and
/// nowhere else: one with no order between them splits nothing.
pub proof fn edges_are_those_of_layers_with_inner_orders<S: Scalar>(
    effects: Seq<LayerEffect<S>>,
    edge: DrawOrder,
)
    ensures
        layer_edges(effects).contains(edge) <==> exists|i: int|
            0 <= i < effects.len() && (#[trigger] effects[i]).has_inner_orders() && (edge
                == effects[i].start || edge == effects[i].end),
    decreases effects.len(),
{
    if effects.len() > 0 {
        let (init, last) = (effects.drop_last(), effects.last());
        let (rest, all) = (layer_edges(init), layer_edges(effects));
        edges_are_those_of_layers_with_inner_orders(init, edge);
        if all.contains(edge) {
            let a = choose|a: int| 0 <= a < all.len() && all[a] == edge;
            if a < rest.len() {
                assert(rest[a] == edge);
                let i = choose|i: int|
                    0 <= i < init.len() && (#[trigger] init[i]).has_inner_orders() && (edge
                        == init[i].start || edge == init[i].end);
                assert(effects[i] == init[i]);
            } else {
                assert(effects[effects.len() - 1] == last);
            }
        }
        if exists|i: int|
            0 <= i < effects.len() && (#[trigger] effects[i]).has_inner_orders() && (edge
                == effects[i].start || edge == effects[i].end) {
            let i = choose|i: int|
                0 <= i < effects.len() && (#[trigger] effects[i]).has_inner_orders() && (edge
                    == effects[i].start || edge == effects[i].end);
            lemma_layer_edges(effects, i);
        }
    }
}

/// Whether primitives are painted straight into the innermost open filtered layer, or into a
/// stacking layer that was started straight in it: not into one that was started inside of a
/// filtered layer which has ended since.
pub open spec fn paints_straight<S: Scalar>(scene: SceneView<S>) -> bool {
    scene.in_layer() ==> forall|i: int|
        0 <= i < scene.effects.len() && !scene.is_open(i) ==> !(#[trigger] scene.effects[i]).holds(
            scene.layer_stack.last(),
        )
}

/// The filtered layer that a primitive is painted into: the innermost one that is open.
pub open spec fn painted_into<S: Scalar>(scene: SceneView<S>) -> Option<usize> {
    if scene.effect_stack.len() > 0 {
        Some(scene.effect_stack.last())
    } else {
        None
    }
}

/// Which of the layers that were there when a primitive was painted hold it never changes while
/// painting goes on, and no later layer does.
spec fn holders_kept<S: Scalar>(base: SceneView<S>, scene: SceneView<S>, order: DrawOrder) -> bool {
    &&& scene.consistent()
    &&& order <= scene.tree.top
    &&& base.effects.len() <= scene.effects.len()
    &&& forall|i: int|
        0 <= i < base.effects.len() ==> {
            &&& (#[trigger] scene.effects[i]).holds(order) == base.effects[i].holds(order)
            &&& scene.effects[i].start == base.effects[i].start
            &&& scene.effects[i].parent == base.effects[i].parent
        }
    &&& forall|i: int|
        base.effects.len() <= i < scene.effects.len() ==> !(#[trigger] scene.effects[i]).holds(
            order,
        )
}

proof fn lemma_holders_kept<S: Scalar>(
    base: SceneView<S>,
    ops: Seq<PaintOperationView<S>>,
    order: DrawOrder,
)
    requires
        holders_kept(base, base, order),
        base.has_room_for_all(ops),
    ensures
        holders_kept(base, base.apply_all(ops), order),
    decreases ops.len(),
{
    if ops.len() > 0 {
        let rest = ops.drop_last();
        let scene = base.apply_all(rest);
        lemma_holders_kept(base, rest, order);
        lemma_effect_count(scene);
        step_keeps_consistent(scene, ops.last());
        let after = scene.apply(ops.last());
        match ops.last() {
            PaintOperationView::Primitive(primitive) => {
                if !scene.in_layer() && !primitive.clipped_bounds().is_empty_spec() {
                    next_order_is_lowest_above(scene.tree, primitive.clipped_bounds());
                }
                assert(after.effects == scene.effects);
            },
            PaintOperationView::StartLayer(bounds) => {
                next_order_is_lowest_above(scene.tree, bounds);
            },
            PaintOperationView::EndLayer => {},
            PaintOperationView::StartFilter(_, _, _, _) => {},
            PaintOperationView::EndFilter => {
                if scene.effect_stack.len() > 0 {
                    let last = scene.effect_stack[scene.effect_stack.len() - 1] as int;
                    assert(scene.is_open(last));
                    assert(scene.effects[last].end == DrawOrder::MAX);
                }
            },
        }
        assert(after == base.apply_all(ops));
    }
}

/// `filtered` gives back the filtered layer that a primitive was painted into, however painting
/// went on, and so it does once the scene is finished; nothing, if that layer was left open.
pub proof fn filtered_is_the_layer_painted_into<S: Scalar>(
    scene: SceneView<S>,
    primitive: PrimitiveView<S>,
    later: Seq<PaintOperationView<S>>,
    finished: SceneView<S>,
)
    requires
        scene.consistent(),
        scene.has_room_for(PaintOperationView::Primitive(primitive)),
        !primitive.clipped_bounds().is_empty_spec(),
        paints_straight(scene),
        scene.insert_primitive(primitive).has_room_for_all(later),
        scene.insert_primitive(primitive).apply_all(later).finishes_to(finished),
    ensures
        ({
            let order = scene.insert_primitive(primitive).lane(primitive.kind()).last().order;
            let done = scene.insert_primitive(primitive).apply_all(later);
            let layer = painted_into(scene);
            &&& is_innermost_at(done.effects, order, layer)
            &&& is_innermost_at(
                finished.effects,
                order,
                match layer {
                    Some(index) if done.is_open(index as int) => None,
                    _ => layer,
                },
            )
        }),
{
    let base = scene.insert_primitive(primitive);
    let clipped = primitive.clipped_bounds();
    let order = scene.order_for(clipped);
    let done = base.apply_all(later);
    lemma_effect_count(scene);
    lemma_lane_insert(scene, primitive, primitive.kind());
    step_keeps_consistent(scene, PaintOperationView::Primitive(primitive));
    assert(base.effects == scene.effects);
    assert(base.effect_stack == scene.effect_stack);
    if scene.in_layer() {
        assert(scene.given(scene.layer_stack[scene.layer_stack.len() - 1]));
    } else {
        next_order_is_lowest_above(scene.tree, clipped);
    }
    assert forall|i: int| 0 <= i < scene.effects.len() implies (
    #[trigger] scene.effects[i]).holds(order) == scene.is_open(i) by {
        if scene.is_open(i) {
            let depth = scene.effect_stack.len() as int;
            let m = choose|m: int| 0 <= m < depth && scene.effect_stack[m] == i as usize;
            let last = scene.effect_stack[depth - 1] as int;
            if m < depth - 1 {
                assert(scene.effect_stack[m] < scene.effect_stack[depth - 1]);
                assert(scene.effects[i].start < scene.effects[last].start);
            }
        } else {
            assert(scene.effects[i].end <= scene.tree.floor);
        }
    }
    lemma_holders_kept(base, later, order);
    lemma_effect_count(done);
    if scene.effect_stack.len() > 0 {
        let depth = scene.effect_stack.len() as int;
        let index = scene.effect_stack[depth - 1] as int;
        assert(scene.is_open(index));
        assert forall|i: int| index < i < done.effects.len() implies !(
        #[trigger] done.effects[i]).holds(order) by {
            if i < scene.effects.len() && scene.is_open(i) {
                let m = choose|m: int| 0 <= m < depth && scene.effect_stack[m] == i as usize;
                if m < depth - 1 {
                    assert(scene.effect_stack[m] < scene.effect_stack[depth - 1]);
                }
            }
        }
        if done.is_open(index) {
            innermost_and_enclosing_hold(done, order, index);
            reveal(SceneView::nested);
            let m = choose|m: int|
                0 <= m < done.effect_stack.len() && done.effect_stack[m] == index as usize;
            assert(enclosing(done.effects, done.effect_stack[m] as int)
                == done.effect_stack.take(m + 1));
            assert forall|i: int| 0 <= i < finished.effects.len() implies !(
            #[trigger] finished.effects[i]).holds(order) by {
                if done.effects[i].holds(order) {
                    let chain = done.effect_stack.take(m + 1);
                    let k = choose|k: int| 0 <= k < chain.len() && chain[k] == i as usize;
                    assert(done.effect_stack[k] == i as usize);
                    assert(done.is_open(i));
                }
            }
        } else {
            assert(finished.effects[index] == done.effects[index]);
            assert forall|i: int| index < i < finished.effects.len() implies !(
            #[trigger] finished.effects[i]).holds(order) by {
                assert(!done.effects[i].holds(order));
            }
        }
    } else {
        assert forall|i: int| 0 <= i < done.effects.len() implies !(
        #[trigger] done.effects[i]).holds(order) by {
            if i < scene.effects.len() {
                assert(!scene.effects[i].holds(order));
            }
        }
        assert forall|i: int| 0 <= i < finished.effects.len() implies !(
        #[trigger] finished.effects[i]).holds(order) by {
            assert(!done.effects[i].holds(order));
        }
    }
}

/// All primitives of a batch belong to the same filtered layers, so a batch can be redirected as
/// a whole by the order of its first primitive.
pub proof fn batch_belongs_to_the_same_layers<S: Scalar>(
    before: SceneView<S>,
    after: SceneView<S>,
    edges: Seq<DrawOrder>,
    starts: Seq<usize>,
    p: int,
)
    requires
        before.consistent(),
        before.finishes_to(after),
        is_stable_sort(layer_edges(after.effects), edges, |e: DrawOrder| e.key_spec()),
        valid_starts(after.lanes(), starts),
        next_batch(after.lanes(), edges, starts) matches Some(batch) && batch.start <= p
            < batch.end,
    ensures
        next_batch(after.lanes(), edges, starts) matches Some(batch) ==> forall|i: int|
            0 <= i < after.effects.len() ==> ((#[trigger] after.effects[i]).holds(
                after.lane(batch.kind)[p].order,
            ) <==> after.effects[i].holds(after.lane(batch.kind)[batch.start].order)),
{
    let lanes = after.lanes();
    let batch = next_batch(lanes, edges, starts)->Some_0;
    finish_sorts_every_kind(before, after);
    finish_keeps_orders(before, after);
    batch_continues_its_kind(lanes, edges, starts);
    batch_spans_no_edge(lanes, edges, starts, p);
    let rank = batch.kind.rank();
    assert(lanes[rank] == after.lane(batch.kind)) by {
        assert(PrimitiveKind::of_rank(rank) == batch.kind);
    }
    let first = after.lane(batch.kind)[batch.start].order;
    let order = after.lane(batch.kind)[p].order;
    assert(after.given(first));
    assert(after.given(order));
    assert forall|i: int| 0 <= i < after.effects.len() implies ((#[trigger] after.effects[i]).holds(
        order,
    ) <==> after.effects[i].holds(first)) by {
        let layer = after.effects[i];
        if layer.has_inner_orders() {
            lemma_layer_edges(after.effects, i);
            let key = |e: DrawOrder| e.key_spec();
            stable_sort_keeps_items(layer_edges(after.effects), edges, key, layer.start);
            stable_sort_keeps_items(layer_edges(after.effects), edges, key, layer.end);
            let a = choose|a: int| 0 <= a < edges.len() && edges[a] == layer.start;
            let b = choose|b: int| 0 <= b < edges.len() && edges[b] == layer.end;
            assert(order < edges[a] <==> first < edges[a]);
            assert(order < edges[b] <==> first < edges[b]);
        } else {
            assert(layer.start != order && layer.start != first);
        }
    }
}

} // verus!
