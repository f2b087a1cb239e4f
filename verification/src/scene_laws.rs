//! What holds of every scene.

use crate::batch::LaneItem;
use crate::bounds_tree::{next_order_is_lowest_above, DrawOrder};
use crate::filter::LayerEffect;
use crate::path::PathId;
use crate::primitive::{PrimitiveKind, PrimitiveView};
use crate::scalar::Scalar;
use crate::scene::{
    effects_wf, enclosing, leads_to, parents_first, PaintOperationView, SceneView,
};
use vstd::prelude::*;

verus! {

impl<S: Scalar> PrimitiveView<S> {
    pub open spec fn kind(self) -> PrimitiveKind {
        match self {
            PrimitiveView::Shadow(_) => PrimitiveKind::Shadow,
            PrimitiveView::Backdrop(_) => PrimitiveKind::Backdrop,
            PrimitiveView::Quad(_) => PrimitiveKind::Quad,
            PrimitiveView::Path(_) => PrimitiveKind::Path,
            PrimitiveView::Underline(_) => PrimitiveKind::Underline,
            PrimitiveView::MonochromeSprite(_) => PrimitiveKind::MonochromeSprite,
            PrimitiveView::SubpixelSprite(_) => PrimitiveKind::SubpixelSprite,
            PrimitiveView::PolychromeSprite(_) => PrimitiveKind::PolychromeSprite,
            PrimitiveView::Surface(_) => PrimitiveKind::Surface,
        }
    }

    /// What batching looks at in the primitive.
    pub open spec fn item(self) -> LaneItem {
        LaneItem {
            order: self.order(),
            texture: match self {
                PrimitiveView::MonochromeSprite(sprite) => Some(sprite.tile.texture_id),
                PrimitiveView::SubpixelSprite(sprite) => Some(sprite.tile.texture_id),
                PrimitiveView::PolychromeSprite(sprite) => Some(sprite.tile.texture_id),
                _ => None,
            },
        }
    }
}

/// Whether `order` is that of no barrier at which a layer opened or closed.
pub open spec fn clear_of_barriers<S>(effects: Seq<LayerEffect<S>>, order: DrawOrder) -> bool {
    forall|i: int|
        0 <= i < effects.len() ==> (#[trigger] effects[i]).start != order && effects[i].end != order
}

/// Whether a layer ends no later than the one around it. What a layer that was left open used to
/// enclose is on its own, but what enclosed it was left open too.
pub open spec fn fits_into<S: Scalar>(layer: LayerEffect<S>, outer: LayerEffect<S>) -> bool {
    if layer.was_left_open() {
        outer.was_left_open()
    } else {
        layer.end <= outer.end || outer.was_left_open()
    }
}

impl<S: Scalar> SceneView<S> {
    /// Whether the filtered layer `i` is still open.
    pub open spec fn is_open(self, i: int) -> bool {
        self.effect_stack.contains(i as usize)
    }

    /// Whether a primitive or a stacking layer may have the given order.
    pub open spec fn given(self, order: DrawOrder) -> bool {
        0 < order <= self.tree.top && clear_of_barriers(self.effects, order)
    }

    /// Whether the filtered layers are disjoint or nested, and each knows what encloses it.
    #[verifier::opaque]
    pub open spec fn nested(self) -> bool {
        &&& forall|m: int|
            0 <= m < self.effect_stack.len() ==> enclosing(
                self.effects,
                #[trigger] self.effect_stack[m] as int,
            ) == self.effect_stack.take(m + 1)
        &&& forall|i: int, j: int|
            0 <= i < j < self.effects.len() ==> {
                ||| (#[trigger] self.effects[i]).end <= (#[trigger] self.effects[j]).start
                ||| enclosing(self.effects, j).contains(i as usize) && self.effects[j].end
                    <= self.effects[i].end
            }
        &&& forall|j: int|
            0 <= j < self.effects.len() ==> ((#[trigger] self.effects[j]).parent matches Some(p)
                ==> fits_into(self.effects[j], self.effects[p as int]))
    }

    /// Whether every barrier has the place in the sequence of orders that it should.
    pub open spec fn barriers_ordered(self) -> bool {
        forall|i: int|
            0 <= i < self.effects.len() ==> {
                &&& 0 < (#[trigger] self.effects[i]).start <= self.tree.floor
                &&& if self.is_open(i) {
                    self.effects[i].end == DrawOrder::MAX
                } else {
                    self.effects[i].start <= self.effects[i].end <= self.tree.floor
                }
            }
    }

    /// Whether every order in the scene was given out, and is that of no barrier.
    pub open spec fn orders_given(self) -> bool {
        &&& forall|kind: PrimitiveKind, p: int|
            0 <= p < self.lane(kind).len() ==> self.given((#[trigger] self.lane(kind)[p]).order)
        &&& forall|m: int|
            0 <= m < self.layer_stack.len() ==> self.given(#[trigger] self.layer_stack[m])
    }

    /// What holds of every scene that is under construction.
    pub open spec fn consistent(self) -> bool {
        &&& self.wf()
        &&& self.nested()
        &&& self.barriers_ordered()
        &&& self.orders_given()
    }
}

/// There are no more layers than draw orders.
pub(crate) proof fn lemma_effect_count<S: Scalar>(scene: SceneView<S>)
    requires
        scene.wf(),
    ensures
        scene.effects.len() <= DrawOrder::MAX,
{
    if scene.effects.len() > 0 {
        lemma_start_at_least(scene.effects, scene.effects.len() - 1);
    }
}

proof fn lemma_start_at_least<S>(effects: Seq<LayerEffect<S>>, i: int)
    requires
        effects_wf(effects),
        0 <= i < effects.len(),
    ensures
        effects[i].start >= i,
    decreases i,
{
    if i > 0 {
        lemma_start_at_least(effects, i - 1);
        assert(effects[i - 1].start < effects[i].start);
    }
}

/// What encloses a layer depends on nothing but the parents up to it.
pub(crate) proof fn lemma_enclosing_same<S>(a: Seq<LayerEffect<S>>, b: Seq<LayerEffect<S>>, i: int)
    requires
        0 <= i < a.len(),
        i < b.len(),
        forall|k: int| 0 <= k <= i ==> (#[trigger] a[k]).parent == b[k].parent,
    ensures
        enclosing(a, i) == enclosing(b, i),
    decreases i,
{
    assert(a[i].parent == b[i].parent);
    match a[i].parent {
        Some(p) if 0 <= p < i => {
            lemma_enclosing_same(a, b, p as int);
        },
        _ => {},
    }
}

/// Where one more primitive goes.
pub(crate) proof fn lemma_lane_with_primitive<S: Scalar>(
    scene: SceneView<S>,
    primitive: PrimitiveView<S>,
    kind: PrimitiveKind,
)
    ensures
        scene.with_primitive(primitive).lane(kind) == if kind == primitive.kind() {
            scene.lane(kind).push(primitive.item())
        } else {
            scene.lane(kind)
        },
{
    let after = scene.with_primitive(primitive).lane(kind);
    if kind == primitive.kind() {
        assert(after =~= scene.lane(kind).push(primitive.item()));
    } else {
        assert(after =~= scene.lane(kind));
    }
}

/// What `insert_primitive` does to the primitives of a kind.
pub(crate) proof fn lemma_lane_insert<S: Scalar>(
    scene: SceneView<S>,
    primitive: PrimitiveView<S>,
    kind: PrimitiveKind,
)
    ensures
        ({
            let clipped = primitive.clipped_bounds();
            let after = scene.insert_primitive(primitive);
            if clipped.is_empty_spec() {
                after == scene
            } else if kind == primitive.kind() {
                &&& after.lane(kind).len() == scene.lane(kind).len() + 1
                &&& after.lane(kind).drop_last() == scene.lane(kind)
                &&& after.lane(kind).last().order == scene.order_for(clipped)
            } else {
                after.lane(kind) == scene.lane(kind)
            }
        }),
{
    let clipped = primitive.clipped_bounds();
    if !clipped.is_empty_spec() {
        let placed = primitive.placed(
            scene.order_for(clipped),
            PathId(scene.paths.len() as usize),
        );
        let base = SceneView {
            tree: if scene.in_layer() {
                scene.tree
            } else {
                scene.tree.insert(clipped)
            },
            ..scene
        };
        assert(base.lane(kind) == scene.lane(kind));
        lemma_lane_with_primitive(base, placed, kind);
        assert(placed.kind() == primitive.kind());
        assert(placed.order() == scene.order_for(clipped));
        assert(scene.insert_primitive(primitive).lane(kind) == base.with_primitive(placed).lane(
            kind,
        ));
        if kind == primitive.kind() {
            assert(scene.lane(kind).push(placed.item()).drop_last() =~= scene.lane(kind));
        }
    }
}

/// Layers change no primitive.
pub(crate) proof fn lemma_lane_kept<S: Scalar>(
    scene: SceneView<S>,
    op: PaintOperationView<S>,
    kind: PrimitiveKind,
)
    requires
        !(op is Primitive),
    ensures
        scene.apply(op).lane(kind) == scene.lane(kind),
{
}

/// Where no order is taken back, the primitives keep theirs.
proof fn lemma_lanes_stay_given<S: Scalar>(scene: SceneView<S>, op: PaintOperationView<S>)
    requires
        scene.orders_given(),
        !(op is Primitive),
        forall|order: DrawOrder| #[trigger] scene.given(order) ==> scene.apply(op).given(order),
    ensures
        forall|kind: PrimitiveKind, p: int|
            0 <= p < scene.apply(op).lane(kind).len() ==> scene.apply(op).given(
                (#[trigger] scene.apply(op).lane(kind)[p]).order,
            ),
{
    let after = scene.apply(op);
    assert forall|kind: PrimitiveKind, p: int| 0 <= p < after.lane(kind).len() implies after.given(
        (#[trigger] after.lane(kind)[p]).order,
    ) by {
        lemma_lane_kept(scene, op, kind);
        assert(scene.given(scene.lane(kind)[p].order));
    }
}

/// A fresh order is that of no barrier.
proof fn lemma_fresh_order_given<S: Scalar>(
    before: SceneView<S>,
    after: SceneView<S>,
    order: DrawOrder,
)
    requires
        before.consistent(),
        before.effects == after.effects,
        before.tree.floor < order <= after.tree.top < DrawOrder::MAX,
    ensures
        after.given(order),
{
    assert forall|i: int| 0 <= i < after.effects.len() implies (#[trigger] after.effects[i]).start
        != order && after.effects[i].end != order by {
        assert(before.effects[i].start <= before.tree.floor);
    }
}

proof fn lemma_push_layer_consistent<S: Scalar>(scene: SceneView<S>, op: PaintOperationView<S>)
    requires
        scene.consistent(),
        scene.has_room_for(op),
        op is StartLayer,
    ensures
        scene.apply(op).consistent(),
{
    reveal(SceneView::nested);
    let bounds = op->StartLayer_0;
    let after = scene.apply(op);
    next_order_is_lowest_above(scene.tree, bounds);
    lemma_lanes_stay_given(scene, op);
    lemma_fresh_order_given(scene, after, scene.tree.next_order(bounds));
    assert forall|m: int| 0 <= m < after.layer_stack.len() implies after.given(
        #[trigger] after.layer_stack[m],
    ) by {
        if m < scene.layer_stack.len() {
            assert(scene.given(scene.layer_stack[m]));
        }
    }
    assert(forall|i: int| after.is_open(i) == scene.is_open(i));
}

proof fn lemma_pop_layer_consistent<S: Scalar>(scene: SceneView<S>, op: PaintOperationView<S>)
    requires
        scene.consistent(),
        op is EndLayer,
    ensures
        scene.apply(op).consistent(),
{
    reveal(SceneView::nested);
    let after = scene.apply(op);
    lemma_lanes_stay_given(scene, op);
    assert forall|m: int| 0 <= m < after.layer_stack.len() implies after.given(
        #[trigger] after.layer_stack[m],
    ) by {
        assert(scene.given(scene.layer_stack[m]));
    }
    assert(forall|i: int| after.is_open(i) == scene.is_open(i));
}

proof fn lemma_insert_consistent<S: Scalar>(scene: SceneView<S>, op: PaintOperationView<S>)
    requires
        scene.consistent(),
        scene.has_room_for(op),
        op is Primitive,
    ensures
        scene.apply(op).consistent(),
{
    reveal(SceneView::nested);
    let primitive = op->Primitive_0;
    let after = scene.apply(op);
    let clipped = primitive.clipped_bounds();
    if !clipped.is_empty_spec() {
        let order = scene.order_for(clipped);
        if scene.in_layer() {
            assert(scene.given(scene.layer_stack[scene.layer_stack.len() - 1]));
            assert(after.given(order));
        } else {
            next_order_is_lowest_above(scene.tree, clipped);
            lemma_fresh_order_given(scene, after, order);
        }
        assert forall|kind: PrimitiveKind, p: int|
            0 <= p < after.lane(kind).len() implies after.given(
            (#[trigger] after.lane(kind)[p]).order,
        ) by {
            lemma_lane_insert(scene, primitive, kind);
            if p < scene.lane(kind).len() {
                assert(after.lane(kind)[p] == scene.lane(kind)[p]) by {
                    if kind == primitive.kind() {
                        assert(after.lane(kind).drop_last()[p] == after.lane(kind)[p]);
                    }
                }
                assert(scene.given(scene.lane(kind)[p].order));
            }
        }
        assert forall|m: int| 0 <= m < after.layer_stack.len() implies after.given(
            #[trigger] after.layer_stack[m],
        ) by {
            assert(scene.given(scene.layer_stack[m]));
        }
        assert(after.effects == scene.effects);
        assert(after.effect_stack == scene.effect_stack);
        assert(forall|i: int| after.is_open(i) == scene.is_open(i));
    }
}

proof fn lemma_push_filter_consistent<S: Scalar>(scene: SceneView<S>, op: PaintOperationView<S>)
    requires
        scene.consistent(),
        scene.has_room_for(op),
        op is StartFilter,
    ensures
        scene.apply(op).consistent(),
{
    reveal(SceneView::nested);
    let after = scene.apply(op);
    let n = scene.effects.len() as int;
    lemma_effect_count(scene);
    let opened = after.effects[n];
    assert(after.effects =~= scene.effects.push(opened));
    assert(forall|i: int| 0 <= i < n ==> #[trigger] after.effects[i] == scene.effects[i]);
    assert(opened.start == scene.tree.top + 1);
    assert(opened.parent == if scene.effect_stack.len() > 0 {
        Some(scene.effect_stack.last())
    } else {
        None
    });
    assert(after.effect_stack =~= scene.effect_stack.push(n as usize));
    assert(effects_wf(after.effects));
    assert(after.wf());
    assert forall|i: int| 0 <= i < n implies after.is_open(i) == scene.is_open(i) by {
        if scene.is_open(i) {
            let m = choose|m: int|
                0 <= m < scene.effect_stack.len() && scene.effect_stack[m] == i as usize;
            assert(after.effect_stack[m] == i as usize);
        }
        if after.is_open(i) {
            let m = choose|m: int|
                0 <= m < after.effect_stack.len() && after.effect_stack[m] == i as usize;
            assert(m < scene.effect_stack.len());
            assert(scene.effect_stack[m] == i as usize);
        }
    }
    assert(after.is_open(n)) by {
        assert(after.effect_stack[scene.effect_stack.len() as int] == n as usize);
    }
    assert(after.barriers_ordered());
    assert forall|i: int| 0 <= i < n implies #[trigger] enclosing(after.effects, i) == enclosing(
        scene.effects,
        i,
    ) by {
        lemma_enclosing_same(after.effects, scene.effects, i);
    }
    let depth = scene.effect_stack.len() as int;
    assert(enclosing(after.effects, n) =~= after.effect_stack) by {
        if depth > 0 {
            assert(scene.effect_stack[depth - 1] < n);
            assert(enclosing(scene.effects, scene.effect_stack[depth - 1] as int)
                == scene.effect_stack.take(depth));
            assert(scene.effect_stack.take(depth) =~= scene.effect_stack);
            let p = scene.effect_stack.last();
            assert(after.effects[n].parent == Some(p));
            assert(enclosing(after.effects, p as int) == enclosing(scene.effects, p as int));
            assert(enclosing(after.effects, n) == enclosing(after.effects, p as int).push(
                n as usize,
            ));
        } else {
            assert(after.effects[n].parent == None::<usize>);
            assert(enclosing(after.effects, n) == seq![n as usize]);
        }
    }
    assert forall|m: int| 0 <= m < after.effect_stack.len() implies enclosing(
        after.effects,
        #[trigger] after.effect_stack[m] as int,
    ) == after.effect_stack.take(m + 1) by {
        if m < depth {
            assert(scene.effect_stack[m] == after.effect_stack[m]);
            assert(enclosing(scene.effects, scene.effect_stack[m] as int)
                == scene.effect_stack.take(m + 1));
            assert(scene.effect_stack.take(m + 1) =~= after.effect_stack.take(m + 1));
        } else {
            assert(after.effect_stack.take(m + 1) =~= after.effect_stack);
        }
    }
    assert forall|i: int, j: int| 0 <= i < j < after.effects.len() implies {
        ||| (#[trigger] after.effects[i]).end <= (#[trigger] after.effects[j]).start
        ||| enclosing(after.effects, j).contains(i as usize) && after.effects[j].end
            <= after.effects[i].end
    } by {
        assert(after.effects[i] == scene.effects[i]);
        if j < n {
            assert(after.effects[j] == scene.effects[j]);
            assert(enclosing(after.effects, j) == enclosing(scene.effects, j));
        } else {
            if scene.is_open(i) {
                assert(after.is_open(i));
                assert(enclosing(after.effects, j).contains(i as usize));
            }
        }
    }
    assert forall|j: int| 0 <= j < after.effects.len() implies ((
    #[trigger] after.effects[j]).parent matches Some(p) ==> fits_into(
        after.effects[j],
        after.effects[p as int],
    )) by {
        if j < n {
            assert(after.effects[j] == scene.effects[j]);
        } else if depth > 0 {
            assert(scene.is_open(scene.effect_stack[depth - 1] as int));
        }
    }
    assert forall|order: DrawOrder| #[trigger] scene.given(order) implies after.given(order) by {
        assert forall|i: int| 0 <= i < after.effects.len() implies (
        #[trigger] after.effects[i]).start != order && after.effects[i].end != order by {
            if i < n {
                assert(after.effects[i] == scene.effects[i]);
            }
        }
    }
    lemma_lanes_stay_given(scene, op);
    assert forall|m: int| 0 <= m < after.layer_stack.len() implies after.given(
        #[trigger] after.layer_stack[m],
    ) by {
        assert(scene.given(scene.layer_stack[m]));
    }
}

proof fn lemma_pop_filter_consistent<S: Scalar>(scene: SceneView<S>, op: PaintOperationView<S>)
    requires
        scene.consistent(),
        scene.has_room_for(op),
        op is EndFilter,
    ensures
        scene.apply(op).consistent(),
{
    reveal(SceneView::nested);
    let after = scene.apply(op);
    if scene.effect_stack.len() == 0 {
        assert(forall|i: int| after.is_open(i) == scene.is_open(i));
        lemma_lanes_stay_given(scene, op);
        assert forall|m: int| 0 <= m < after.layer_stack.len() implies after.given(
            #[trigger] after.layer_stack[m],
        ) by {
            assert(scene.given(scene.layer_stack[m]));
        }
    } else {
        lemma_close_innermost_consistent(scene, op);
    }
}

/// No open layer comes after the innermost one.
proof fn lemma_open_up_to_innermost<S: Scalar>(scene: SceneView<S>, j: int)
    requires
        scene.consistent(),
        scene.effect_stack.len() > 0,
        scene.effect_stack.last() < j < scene.effects.len(),
    ensures
        !scene.is_open(j),
{
    lemma_effect_count(scene);
    let depth = scene.effect_stack.len() as int;
    if scene.is_open(j) {
        let m = choose|m: int|
            0 <= m < scene.effect_stack.len() && scene.effect_stack[m] == j as usize;
        if m < depth - 1 {
            assert(scene.effect_stack[m] < scene.effect_stack[depth - 1]);
        }
    }
}

/// The layer around the innermost open one is open too.
proof fn lemma_parent_of_innermost_open<S: Scalar>(scene: SceneView<S>)
    requires
        scene.consistent(),
        scene.effect_stack.len() > 0,
    ensures
        scene.effects[scene.effect_stack.last() as int].parent matches Some(p) ==> scene.is_open(
            p as int,
        ) && p < scene.effect_stack.last(),
{
    reveal(SceneView::nested);
    let depth = scene.effect_stack.len() as int;
    let last = scene.effect_stack[depth - 1] as int;
    if let Some(p) = scene.effects[last].parent {
        assert(enclosing(scene.effects, last) == scene.effect_stack.take(depth));
        let outer = enclosing(scene.effects, p as int);
        assert(enclosing(scene.effects, last) == outer.push(last as usize));
        assert(outer.len() == depth - 1);
        assert(outer.len() > 0 && outer.last() == p);
        assert(outer.push(last as usize)[depth - 2] == p);
        assert(scene.effect_stack[depth - 2] == p);
    }
}

/// What closing the innermost layer changes.
spec fn closes_innermost<S: Scalar>(scene: SceneView<S>, after: SceneView<S>) -> bool {
    let last = scene.effect_stack.last() as int;
    &&& scene.consistent()
    &&& scene.effect_stack.len() > 0
    &&& scene.tree.has_room()
    &&& after.tree.floor == after.tree.top == scene.tree.top + 1
    &&& after.effect_stack == scene.effect_stack.drop_last()
    &&& after.effects.len() == scene.effects.len()
    &&& forall|i: int|
        0 <= i < scene.effects.len() ==> #[trigger] after.effects[i] == if i == last {
            LayerEffect { end: after.tree.top, ..scene.effects[i] }
        } else {
            scene.effects[i]
        }
}

proof fn lemma_close_is_open<S: Scalar>(scene: SceneView<S>, after: SceneView<S>, i: int)
    requires
        closes_innermost(scene, after),
        0 <= i < scene.effects.len(),
    ensures
        after.is_open(i) == (scene.is_open(i) && i != scene.effect_stack.last()),
{
    lemma_effect_count(scene);
    let depth = scene.effect_stack.len() as int;
    if scene.is_open(i) && i != scene.effect_stack.last() {
        let m = choose|m: int|
            0 <= m < scene.effect_stack.len() && scene.effect_stack[m] == i as usize;
        assert(after.effect_stack[m] == i as usize);
    }
    if after.is_open(i) {
        let m = choose|m: int|
            0 <= m < after.effect_stack.len() && after.effect_stack[m] == i as usize;
        assert(scene.effect_stack[m] == i as usize);
        assert(scene.effect_stack[m] < scene.effect_stack[depth - 1]);
    }
}

proof fn lemma_close_barriers<S: Scalar>(scene: SceneView<S>, after: SceneView<S>)
    requires
        closes_innermost(scene, after),
    ensures
        after.barriers_ordered(),
{
    lemma_effect_count(scene);
    assert forall|i: int| 0 <= i < after.effects.len() implies {
        &&& 0 < (#[trigger] after.effects[i]).start <= after.tree.floor
        &&& if after.is_open(i) {
            after.effects[i].end == DrawOrder::MAX
        } else {
            after.effects[i].start <= after.effects[i].end <= after.tree.floor
        }
    } by {
        lemma_close_is_open(scene, after, i);
        assert(scene.effects[i].start <= scene.tree.floor);
    }
}

proof fn lemma_close_nested<S: Scalar>(scene: SceneView<S>, after: SceneView<S>)
    requires
        closes_innermost(scene, after),
    ensures
        after.nested(),
{
    reveal(SceneView::nested);
    let n = scene.effects.len() as int;
    let depth = scene.effect_stack.len() as int;
    let last = scene.effect_stack[depth - 1] as int;
    assert forall|i: int| 0 <= i < n implies #[trigger] enclosing(after.effects, i) == enclosing(
        scene.effects,
        i,
    ) by {
        lemma_enclosing_same(after.effects, scene.effects, i);
    }
    assert forall|m: int| 0 <= m < after.effect_stack.len() implies enclosing(
        after.effects,
        #[trigger] after.effect_stack[m] as int,
    ) == after.effect_stack.take(m + 1) by {
        assert(scene.effect_stack[m] == after.effect_stack[m]);
        assert(enclosing(scene.effects, scene.effect_stack[m] as int) == scene.effect_stack.take(
            m + 1,
        ));
        assert(scene.effect_stack.take(m + 1) =~= after.effect_stack.take(m + 1));
    }
    assert forall|i: int, j: int| 0 <= i < j < after.effects.len() implies {
        ||| (#[trigger] after.effects[i]).end <= (#[trigger] after.effects[j]).start
        ||| enclosing(after.effects, j).contains(i as usize) && after.effects[j].end
            <= after.effects[i].end
    } by {
        assert(scene.effects[i].end <= scene.effects[j].start || (enclosing(
            scene.effects,
            j,
        ).contains(i as usize) && scene.effects[j].end <= scene.effects[i].end));
        assert(enclosing(after.effects, j) == enclosing(scene.effects, j));
        if i == last {
            lemma_open_up_to_innermost(scene, j);
        }
        if j == last {
            assert(scene.is_open(last));
            assert(scene.effects[j].end == DrawOrder::MAX);
        }
    }
    assert forall|j: int| 0 <= j < after.effects.len() implies ((
    #[trigger] after.effects[j]).parent matches Some(p) ==> fits_into(
        after.effects[j],
        after.effects[p as int],
    )) by {
        if let Some(p) = scene.effects[j].parent {
            assert(fits_into(scene.effects[j], scene.effects[p as int]));
            if j == last {
                lemma_parent_of_innermost_open(scene);
                assert(scene.effects[p as int].end == DrawOrder::MAX);
            } else if p == last {
                lemma_open_up_to_innermost(scene, j);
            }
        }
    }
}

proof fn lemma_close_innermost_consistent<S: Scalar>(
    scene: SceneView<S>,
    op: PaintOperationView<S>,
)
    requires
        scene.consistent(),
        scene.has_room_for(op),
        op is EndFilter,
        scene.effect_stack.len() > 0,
    ensures
        scene.apply(op).consistent(),
{
    let after = scene.apply(op);
    let depth = scene.effect_stack.len() as int;
    let last = scene.effect_stack[depth - 1] as int;
    assert(scene.effect_stack.last() == last);
    assert(closes_innermost(scene, after));
    lemma_close_barriers(scene, after);
    lemma_close_nested(scene, after);
    assert(effects_wf(after.effects)) by {
        assert forall|i: int, j: int| 0 <= i < j < after.effects.len() implies (
        #[trigger] after.effects[i]).start < (#[trigger] after.effects[j]).start by {
            assert(scene.effects[i].start < scene.effects[j].start);
        }
    }
    assert(after.wf());
    assert forall|order: DrawOrder| #[trigger] scene.given(order) implies after.given(order) by {
        assert forall|i: int| 0 <= i < after.effects.len() implies (
        #[trigger] after.effects[i]).start != order && after.effects[i].end != order by {
            assert(scene.effects[i].start != order);
        }
    }
    lemma_lanes_stay_given(scene, op);
    assert forall|m: int| 0 <= m < after.layer_stack.len() implies after.given(
        #[trigger] after.layer_stack[m],
    ) by {
        assert(scene.given(scene.layer_stack[m]));
    }
}

/// Each layer that encloses another comes before it and, unless it was left open, reaches at least
/// as far.
proof fn lemma_enclosing_reaches<S: Scalar>(scene: SceneView<S>, j: int, i: int)
    requires
        scene.consistent(),
        0 <= j < scene.effects.len(),
        0 <= i < scene.effects.len(),
        enclosing(scene.effects, j).contains(i as usize),
    ensures
        i <= j,
        scene.effects[i].start <= scene.effects[j].start,
        scene.effects[j].was_left_open() ==> scene.effects[i].was_left_open(),
        scene.effects[j].end <= scene.effects[i].end || scene.effects[i].was_left_open(),
    decreases j,
{
    reveal(SceneView::nested);
    lemma_effect_count(scene);
    let chain = enclosing(scene.effects, j);
    let m = choose|m: int| 0 <= m < chain.len() && chain[m] == i as usize;
    match scene.effects[j].parent {
        Some(p) if 0 <= p < j => {
            let outer = enclosing(scene.effects, p as int);
            assert(fits_into(scene.effects[j], scene.effects[p as int]));
            if m < outer.len() {
                assert(outer[m] == i as usize);
                lemma_enclosing_reaches(scene, p as int, i);
                assert(scene.effects[p as int].start < scene.effects[j].start);
            }
        },
        _ => {},
    }
}

/// A chain holds a layer and everything that encloses it, outermost first, and nothing else.
pub proof fn chain_runs_from_the_outside_in<S>(effects: Seq<LayerEffect<S>>, index: usize)
    requires
        parents_first(effects),
        index < effects.len(),
    ensures
        leads_to(enclosing(effects, index as int), effects, index),
    decreases index,
{
    match effects[index as int].parent {
        Some(p) => {
            chain_runs_from_the_outside_in(effects, p);
            let (rest, chain) = (enclosing(effects, p as int), enclosing(effects, index as int));
            assert(chain == rest.push(index));
            assert(chain[0] == rest[0]);
            assert forall|k: int|
                #![trigger chain[k]]
                0 < k < chain.len() implies effects[chain[k] as int].parent == Some(
                chain[k - 1],
            ) by {
                if k < rest.len() {
                    assert(chain[k] == rest[k]);
                } else {
                    assert(rest.last() == p);
                }
            }
        },
        None => {},
    }
}

/// The layers that a primitive belongs to are the innermost one and everything that encloses it,
/// but for layers that were left open when the scene was finished.
pub proof fn innermost_and_enclosing_hold<S: Scalar>(
    scene: SceneView<S>,
    order: DrawOrder,
    innermost: int,
)
    requires
        scene.consistent(),
        0 <= innermost < scene.effects.len(),
        scene.effects[innermost].holds(order),
        forall|i: int|
            innermost < i < scene.effects.len() ==> !(#[trigger] scene.effects[i]).holds(order),
    ensures
        forall|i: int|
            0 <= i < scene.effects.len() ==> ((#[trigger] scene.effects[i]).holds(order)
                <==> enclosing(scene.effects, innermost).contains(i as usize)
                && !scene.effects[i].was_left_open()),
{
    reveal(SceneView::nested);
    lemma_effect_count(scene);
    assert forall|i: int| 0 <= i < scene.effects.len() implies ((#[trigger] scene.effects[i]).holds(
        order,
    ) <==> enclosing(scene.effects, innermost).contains(i as usize)
        && !scene.effects[i].was_left_open()) by {
        let chain = enclosing(scene.effects, innermost);
        if chain.contains(i as usize) {
            lemma_enclosing_reaches(scene, innermost, i);
        }
        if scene.effects[i].holds(order) && i == innermost {
            assert(chain.last() == innermost as usize);
            assert(chain[chain.len() - 1] == innermost as usize);
        }
    }
}

/// A scene without contents is consistent.
pub proof fn empty_scene_is_consistent<S: Scalar>()
    ensures
        SceneView::<S>::empty().consistent(),
{
    reveal(SceneView::nested);
    let scene = SceneView::<S>::empty();
    assert forall|kind: PrimitiveKind| #[trigger] scene.lane(kind).len() == 0 by {}
}

/// Every step keeps a scene consistent.
pub proof fn step_keeps_consistent<S: Scalar>(scene: SceneView<S>, op: PaintOperationView<S>)
    requires
        scene.consistent(),
        scene.has_room_for(op),
    ensures
        scene.apply(op).consistent(),
{
    match op {
        PaintOperationView::Primitive(_) => lemma_insert_consistent(scene, op),
        PaintOperationView::StartLayer(_) => lemma_push_layer_consistent(scene, op),
        PaintOperationView::EndLayer => lemma_pop_layer_consistent(scene, op),
        PaintOperationView::StartFilter(_, _, _, _) => lemma_push_filter_consistent(scene, op),
        PaintOperationView::EndFilter => lemma_pop_filter_consistent(scene, op),
    }
}

/// Every scene that was made step by step is consistent.
pub proof fn steps_keep_consistent<S: Scalar>(
    scene: SceneView<S>,
    ops: Seq<PaintOperationView<S>>,
)
    requires
        scene.consistent(),
        scene.has_room_for_all(ops),
    ensures
        scene.apply_all(ops).consistent(),
    decreases ops.len(),
{
    if ops.len() > 0 {
        steps_keep_consistent(scene, ops.drop_last());
        step_keeps_consistent(scene.apply_all(ops.drop_last()), ops.last());
    }
}

/// No step takes more than one draw order: where there are as many left as there are steps, there
/// is room for all of them.
pub proof fn no_step_takes_more_than_one_order<S: Scalar>(
    scene: SceneView<S>,
    ops: Seq<PaintOperationView<S>>,
)
    requires
        scene.tree.wf(),
        scene.tree.top + ops.len() <= DrawOrder::MAX - 1,
    ensures
        scene.has_room_for_all(ops),
        scene.apply_all(ops).tree.wf(),
        scene.apply_all(ops).tree.top <= scene.tree.top + ops.len(),
    decreases ops.len(),
{
    if ops.len() > 0 {
        no_step_takes_more_than_one_order(scene, ops.drop_last());
        lemma_step_takes_one_order(scene.apply_all(ops.drop_last()), ops.last());
    }
}

proof fn lemma_step_takes_one_order<S: Scalar>(scene: SceneView<S>, op: PaintOperationView<S>)
    requires
        scene.tree.wf(),
        scene.has_room_for(op),
    ensures
        scene.apply(op).tree.wf(),
        scene.apply(op).tree.top <= scene.tree.top + 1,
{
    match op {
        PaintOperationView::Primitive(primitive) => {
            if !scene.in_layer() && !primitive.clipped_bounds().is_empty_spec() {
                next_order_is_lowest_above(scene.tree, primitive.clipped_bounds());
            }
        },
        PaintOperationView::StartLayer(bounds) => {
            next_order_is_lowest_above(scene.tree, bounds);
        },
        _ => {},
    }
}

} // verus!
