//! In which order a renderer gets what was painted.

use crate::atlas::AtlasTextureId;
use crate::batch::{
    batch_views, drawn, is_batching, layer_edges, next_batch, valid_starts, BatchIterator,
    BatchView, LaneItem, PrimitiveBatch,
};
use crate::batch_laws::{
    batch_continues_its_kind, batch_ends_only_where_it_must, batch_spans_no_edge,
    batches_are_in_drawing_order, every_primitive_is_drawn_once, in_batch, lanes_sorted,
    lemma_drawn_grows, lemma_drawn_step, lemma_drawn_valid, lemma_rank, orders_in_range,
};
use crate::bounds_tree::DrawOrder;
use crate::frame_laws::edges_are_those_of_layers_with_inner_orders;
use crate::primitive::{PrimitiveKind, KINDS};
use crate::scalar::Scalar;
use crate::scene::Scene;
use crate::sort::{stable_sort_keeps_items, Keyed};
use vstd::prelude::*;

verus! {

/// How many primitives of a kind a scene has.
#[verifier::opaque]
pub open spec fn count_of<S>(scene: Scene<S>, kind: PrimitiveKind) -> int {
    match kind {
        PrimitiveKind::Shadow => scene.shadows@.len() as int,
        PrimitiveKind::Backdrop => scene.backdrops@.len() as int,
        PrimitiveKind::Quad => scene.quads@.len() as int,
        PrimitiveKind::Path => scene.paths@.len() as int,
        PrimitiveKind::Underline => scene.underlines@.len() as int,
        PrimitiveKind::MonochromeSprite => scene.monochrome_sprites@.len() as int,
        PrimitiveKind::SubpixelSprite => scene.subpixel_sprites@.len() as int,
        PrimitiveKind::PolychromeSprite => scene.polychrome_sprites@.len() as int,
        PrimitiveKind::Surface => scene.surfaces@.len() as int,
    }
}

/// The draw order of a primitive, by its kind and its place among those of its kind.
#[verifier::opaque]
pub open spec fn order_of<S>(scene: Scene<S>, kind: PrimitiveKind, p: int) -> DrawOrder {
    match kind {
        PrimitiveKind::Shadow => scene.shadows@[p].order,
        PrimitiveKind::Backdrop => scene.backdrops@[p].order,
        PrimitiveKind::Quad => scene.quads@[p].order,
        PrimitiveKind::Path => scene.paths@[p].order,
        PrimitiveKind::Underline => scene.underlines@[p].order,
        PrimitiveKind::MonochromeSprite => scene.monochrome_sprites@[p].order,
        PrimitiveKind::SubpixelSprite => scene.subpixel_sprites@[p].order,
        PrimitiveKind::PolychromeSprite => scene.polychrome_sprites@[p].order,
        PrimitiveKind::Surface => scene.surfaces@[p].order,
    }
}

/// The texture that a sprite lies on; none for other kinds.
#[verifier::opaque]
pub open spec fn texture_of<S>(
    scene: Scene<S>,
    kind: PrimitiveKind,
    p: int,
) -> Option<AtlasTextureId> {
    match kind {
        PrimitiveKind::MonochromeSprite => Some(scene.monochrome_sprites@[p].tile.texture_id),
        PrimitiveKind::SubpixelSprite => Some(scene.subpixel_sprites@[p].tile.texture_id),
        PrimitiveKind::PolychromeSprite => Some(scene.polychrome_sprites@[p].tile.texture_id),
        _ => None,
    }
}

/// Whether a batch is of a kind and holds the primitive of that kind at a place.
#[verifier::opaque]
pub open spec fn shows(batch: PrimitiveBatch, kind: PrimitiveKind, p: int) -> bool {
    match (batch, kind) {
        (PrimitiveBatch::Shadows(range), PrimitiveKind::Shadow) => range.start <= p < range.end,
        (PrimitiveBatch::Backdrops(range), PrimitiveKind::Backdrop) => range.start <= p < range.end,
        (PrimitiveBatch::Quads(range), PrimitiveKind::Quad) => range.start <= p < range.end,
        (PrimitiveBatch::Paths(range), PrimitiveKind::Path) => range.start <= p < range.end,
        (PrimitiveBatch::Underlines(range), PrimitiveKind::Underline) => {
            range.start <= p < range.end
        },
        (
            PrimitiveBatch::MonochromeSprites { texture_id: _, range },
            PrimitiveKind::MonochromeSprite,
        ) => range.start <= p < range.end,
        (
            PrimitiveBatch::SubpixelSprites { texture_id: _, range },
            PrimitiveKind::SubpixelSprite,
        ) => range.start <= p < range.end,
        (
            PrimitiveBatch::PolychromeSprites { texture_id: _, range },
            PrimitiveKind::PolychromeSprite,
        ) => range.start <= p < range.end,
        (PrimitiveBatch::Surfaces(range), PrimitiveKind::Surface) => range.start <= p < range.end,
        _ => false,
    }
}

/// The texture that a batch names; none for kinds that lie on none.
pub open spec fn texture_named(batch: PrimitiveBatch) -> Option<AtlasTextureId> {
    match batch {
        PrimitiveBatch::MonochromeSprites { texture_id, range: _ } => Some(texture_id),
        PrimitiveBatch::SubpixelSprites { texture_id, range: _ } => Some(texture_id),
        PrimitiveBatch::PolychromeSprites { texture_id, range: _ } => Some(texture_id),
        _ => None,
    }
}

/// Whether the primitives of each kind are sorted by their orders, and none has the reserved one.
pub open spec fn is_ready<S>(scene: Scene<S>) -> bool {
    forall|kind: PrimitiveKind, p: int, q: int|
        #![trigger order_of(scene, kind, p), order_of(scene, kind, q)]
        0 <= p <= q < count_of(scene, kind) ==> order_of(scene, kind, p) <= order_of(
            scene,
            kind,
            q,
        ) < u32::MAX
}

/// Whether `batches` are what a renderer gets of the scene.
pub open spec fn are_batches_of<S: Scalar>(
    scene: Scene<S>,
    iterator: BatchIterator<'_, S>,
    batches: Vec<PrimitiveBatch>,
) -> bool {
    &&& call_ensures(Scene::<S>::batches, (&scene,), iterator)
    &&& call_ensures(BatchIterator::<S>::into_vec, (iterator,), batches)
}

/// What batching sees of a scene is what it holds.
pub(crate) proof fn lemma_lanes<S: Scalar>(scene: Scene<S>, kind: PrimitiveKind, p: int)
    ensures
        0 <= kind.rank() < KINDS,
        PrimitiveKind::of_rank(kind.rank()) == kind,
        scene@.lanes()[kind.rank()] == scene@.lane(kind),
        scene@.lane(kind).len() == count_of(scene, kind),
        0 <= p < count_of(scene, kind) ==> scene@.lane(kind)[p] == (LaneItem {
            order: order_of(scene, kind, p),
            texture: texture_of(scene, kind, p),
        }),
{
    reveal(count_of);
    reveal(order_of);
    reveal(texture_of);
    if kind is Path && 0 <= p < count_of(scene, kind) {
        assert(scene@.paths[p] == scene.paths@[p]@);
    }
    assert(scene@.paths.len() == scene.paths@.len());
}

proof fn lemma_ready<S: Scalar>(scene: Scene<S>)
    requires
        is_ready(scene),
    ensures
        lanes_sorted(scene@.lanes()),
        orders_in_range(scene@.lanes()),
{
    let lanes = scene@.lanes();
    assert forall|k: int, p: int, q: int|
        0 <= k < lanes.len() && 0 <= p <= q < lanes[k].len() implies (#[trigger] lanes[k][p]).order
        <= (#[trigger] lanes[k][q]).order by {
        let kind = PrimitiveKind::of_rank(k);
        lemma_lanes(scene, kind, p);
        lemma_lanes(scene, kind, q);
        assert(order_of(scene, kind, p) <= order_of(scene, kind, q));
    }
    assert forall|k: int, p: int| 0 <= k < lanes.len() && 0 <= p < lanes[k].len() implies (
    #[trigger] lanes[k][p]).order < DrawOrder::MAX by {
        let kind = PrimitiveKind::of_rank(k);
        lemma_lanes(scene, kind, p);
        assert(order_of(scene, kind, p) <= order_of(scene, kind, p) < u32::MAX);
    }
}

proof fn lemma_shows(batch: PrimitiveBatch, kind: PrimitiveKind, p: int)
    ensures
        shows(batch, kind, p) <==> batch@.kind == kind && batch@.start <= p < batch@.end,
        shows(batch, kind, p) <==> in_batch(batch@, kind.rank(), p),
        texture_named(batch) == batch@.texture,
{
    reveal(shows);
}

/// The premises of the laws on batches, for a scene that is ready.
proof fn lemma_batching<S: Scalar>(
    scene: Scene<S>,
    iterator: BatchIterator<'_, S>,
    batches: Vec<PrimitiveBatch>,
)
    requires
        is_ready(scene),
        are_batches_of(scene, iterator, batches),
    ensures
        valid_starts(scene@.lanes(), iterator.starts@),
        lanes_sorted(scene@.lanes()),
        orders_in_range(scene@.lanes()),
        is_batching(scene@.lanes(), iterator.layered@, iterator.starts@, batch_views(batches@)),
        forall|k: int| 0 <= k < KINDS ==> #[trigger] iterator.starts@[k] == 0,
        batch_views(batches@).len() == batches@.len(),
        forall|i: int|
            0 <= i < batches@.len() ==> #[trigger] batch_views(batches@)[i] == batches@[i]@,
{
    lemma_ready(scene);
}

/// At one draw order, shadows are drawn before backdrops, those before quads, those before paths,
/// those before underlines, those before monochrome sprites, those before subpixel sprites, those
/// before polychrome sprites, and those before surfaces.
pub proof fn equal_orders_are_drawn_kind_by_kind<S: Scalar>(
    scene: Scene<S>,
    iterator: BatchIterator<'_, S>,
    batches: Vec<PrimitiveBatch>,
    a: int,
    b: int,
    i: int,
    p: int,
    j: int,
    q: int,
)
    requires
        is_ready(scene),
        are_batches_of(scene, iterator, batches),
        0 <= i < batches@.len(),
        0 <= j < batches@.len(),
        0 <= a < b < 9,
        ({
            let kinds = seq![
                PrimitiveKind::Shadow,
                PrimitiveKind::Backdrop,
                PrimitiveKind::Quad,
                PrimitiveKind::Path,
                PrimitiveKind::Underline,
                PrimitiveKind::MonochromeSprite,
                PrimitiveKind::SubpixelSprite,
                PrimitiveKind::PolychromeSprite,
                PrimitiveKind::Surface,
            ];
            &&& shows(batches@[i], kinds[a], p)
            &&& shows(batches@[j], kinds[b], q)
            &&& order_of(scene, kinds[a], p) == order_of(scene, kinds[b], q)
        }),
    ensures
        i < j,
{
    let kinds = seq![
        PrimitiveKind::Shadow,
        PrimitiveKind::Backdrop,
        PrimitiveKind::Quad,
        PrimitiveKind::Path,
        PrimitiveKind::Underline,
        PrimitiveKind::MonochromeSprite,
        PrimitiveKind::SubpixelSprite,
        PrimitiveKind::PolychromeSprite,
        PrimitiveKind::Surface,
    ];
    kinds_are_ranked_as_declared(a);
    kinds_are_ranked_as_declared(b);
    lemma_in_order(scene, iterator, batches, kinds[a], i, p, kinds[b], j, q);
}

/// Of two primitives in two batches, the one with the lower order, or the lower rank at one order,
/// is in the earlier.
proof fn lemma_in_order<S: Scalar>(
    scene: Scene<S>,
    iterator: BatchIterator<'_, S>,
    batches: Vec<PrimitiveBatch>,
    kind: PrimitiveKind,
    i: int,
    p: int,
    other: PrimitiveKind,
    j: int,
    q: int,
)
    requires
        is_ready(scene),
        are_batches_of(scene, iterator, batches),
        0 <= i < batches@.len(),
        0 <= j < batches@.len(),
        shows(batches@[i], kind, p),
        shows(batches@[j], other, q),
        order_of(scene, kind, p) < order_of(scene, other, q) || (order_of(scene, kind, p)
            == order_of(scene, other, q) && kind.rank() < other.rank()),
    ensures
        i <= j,
        kind != other ==> i < j,
{
    lemma_batching(scene, iterator, batches);
    let (lanes, views) = (scene@.lanes(), batch_views(batches@));
    lemma_lanes(scene, kind, p);
    lemma_lanes(scene, other, q);
    lemma_shows(batches@[i], kind, p);
    lemma_shows(batches@[j], other, q);
    lemma_batch_in_range(scene, iterator, batches, i);
    lemma_batch_in_range(scene, iterator, batches, j);
    if j < i {
        batches_are_in_drawing_order(
            lanes,
            iterator.layered@,
            iterator.starts@,
            views,
            j,
            q,
            i,
            p,
        );
    }
}

/// What a batch holds is there.
proof fn lemma_batch_in_range<S: Scalar>(
    scene: Scene<S>,
    iterator: BatchIterator<'_, S>,
    batches: Vec<PrimitiveBatch>,
    i: int,
)
    requires
        is_ready(scene),
        are_batches_of(scene, iterator, batches),
        0 <= i < batches@.len(),
    ensures
        ({
            let batch = batches@[i]@;
            let lane = scene@.lane(batch.kind);
            &&& 0 <= batch.start < batch.end <= lane.len()
            &&& forall|p: int|
                batch.start <= p < batch.end ==> (#[trigger] lane[p]).texture == batch.texture
        }),
{
    lemma_batching(scene, iterator, batches);
    let (lanes, views) = (scene@.lanes(), batch_views(batches@));
    let (edges, starts) = (iterator.layered@, iterator.starts@);
    lemma_drawn_valid(lanes, edges, starts, views, i);
    assert(next_batch(lanes, edges, drawn(starts, views.take(i))) == Some(views[i]));
    batch_continues_its_kind(lanes, edges, drawn(starts, views.take(i)));
    lemma_lanes(scene, views[i].kind, 0);
}

/// What has a lower order is never in a later batch.
pub proof fn lower_orders_are_drawn_first<S: Scalar>(
    scene: Scene<S>,
    iterator: BatchIterator<'_, S>,
    batches: Vec<PrimitiveBatch>,
    kind: PrimitiveKind,
    i: int,
    p: int,
    other: PrimitiveKind,
    j: int,
    q: int,
)
    requires
        is_ready(scene),
        are_batches_of(scene, iterator, batches),
        0 <= i < batches@.len(),
        0 <= j < batches@.len(),
        shows(batches@[i], kind, p),
        shows(batches@[j], other, q),
        order_of(scene, kind, p) < order_of(scene, other, q),
    ensures
        i <= j,
        kind != other ==> i < j,
{
    lemma_in_order(scene, iterator, batches, kind, i, p, other, j, q);
}

/// Primitives of one kind are drawn in the order they have in the scene.
pub proof fn kinds_are_drawn_in_their_order<S: Scalar>(
    scene: Scene<S>,
    iterator: BatchIterator<'_, S>,
    batches: Vec<PrimitiveBatch>,
    kind: PrimitiveKind,
    i: int,
    p: int,
    j: int,
    q: int,
)
    requires
        is_ready(scene),
        are_batches_of(scene, iterator, batches),
        0 <= i < batches@.len(),
        0 <= j < batches@.len(),
        shows(batches@[i], kind, p),
        shows(batches@[j], kind, q),
        p < q,
    ensures
        i <= j,
{
    lemma_batching(scene, iterator, batches);
    let (lanes, views) = (scene@.lanes(), batch_views(batches@));
    let (edges, starts) = (iterator.layered@, iterator.starts@);
    let k = kind.rank();
    lemma_lanes(scene, kind, p);
    lemma_shows(batches@[i], kind, p);
    lemma_shows(batches@[j], kind, q);
    if j < i {
        lemma_drawn_step(lanes, edges, starts, views, i, k);
        lemma_drawn_step(lanes, edges, starts, views, j, k);
        lemma_drawn_grows(lanes, edges, starts, views, j + 1, i, k);
    }
}

/// Every batch holds primitives of the scene, all of them on the texture it names. Every primitive
/// of the scene is in one batch, and in no other.
pub proof fn everything_is_drawn_once<S: Scalar>(
    scene: Scene<S>,
    iterator: BatchIterator<'_, S>,
    batches: Vec<PrimitiveBatch>,
    kind: PrimitiveKind,
    p: int,
)
    requires
        is_ready(scene),
        are_batches_of(scene, iterator, batches),
    ensures
        forall|i: int|
            0 <= i < batches@.len() && #[trigger] shows(batches@[i], kind, p) ==> 0 <= p < count_of(
                scene,
                kind,
            ) && texture_of(scene, kind, p) == texture_named(batches@[i]),
        0 <= p < count_of(scene, kind) ==> exists|i: int|
            0 <= i < batches@.len() && #[trigger] shows(batches@[i], kind, p),
        forall|i: int, j: int|
            0 <= i < batches@.len() && 0 <= j < batches@.len() && #[trigger] shows(
                batches@[i],
                kind,
                p,
            ) && #[trigger] shows(batches@[j], kind, p) ==> i == j,
{
    lemma_batching(scene, iterator, batches);
    let (lanes, views) = (scene@.lanes(), batch_views(batches@));
    let k = kind.rank();
    lemma_lanes(scene, kind, p);
    assert forall|i: int|
        0 <= i < batches@.len() && #[trigger] shows(batches@[i], kind, p) implies 0 <= p < count_of(
        scene,
        kind,
    ) && texture_of(scene, kind, p) == texture_named(batches@[i]) by {
        lemma_shows(batches@[i], kind, p);
        lemma_batch_in_range(scene, iterator, batches, i);
    }
    if 0 <= p < count_of(scene, kind) {
        every_primitive_is_drawn_once(
            lanes,
            iterator.layered@,
            iterator.starts@,
            views,
            k,
            p,
        );
        let i = choose|i: int| 0 <= i < views.len() && #[trigger] in_batch(views[i], k, p);
        lemma_shows(batches@[i], kind, p);
        assert(shows(batches@[i], kind, p));
        assert forall|i: int, j: int|
            0 <= i < batches@.len() && 0 <= j < batches@.len() && #[trigger] shows(
                batches@[i],
                kind,
                p,
            ) && #[trigger] shows(batches@[j], kind, p) implies i == j by {
            lemma_shows(batches@[i], kind, p);
            lemma_shows(batches@[j], kind, p);
            assert(in_batch(views[i], k, p) && in_batch(views[j], k, p));
        }
    }
}

/// No batch is empty.
pub proof fn every_batch_holds_something<S: Scalar>(
    scene: Scene<S>,
    iterator: BatchIterator<'_, S>,
    batches: Vec<PrimitiveBatch>,
    i: int,
)
    requires
        is_ready(scene),
        are_batches_of(scene, iterator, batches),
        0 <= i < batches@.len(),
    ensures
        exists|kind: PrimitiveKind, p: int| #[trigger] shows(batches@[i], kind, p),
{
    lemma_batch_in_range(scene, iterator, batches, i);
    lemma_shows(batches@[i], batches@[i]@.kind, batches@[i]@.start);
    assert(shows(batches@[i], batches@[i]@.kind, batches@[i]@.start));
}

/// Whether a filtered layer that can hold anything opens or closes at the order.
pub open spec fn is_edge<S>(scene: Scene<S>, edge: DrawOrder) -> bool {
    exists|l: int|
        0 <= l < scene.effects@.len() && (#[trigger] scene.effects@[l]).end
            > scene.effects@[l].start + 1 && (edge == scene.effects@[l].start || edge
            == scene.effects@[l].end)
}

/// The sorted edges of a scene are the edges of its layers.
proof fn lemma_edges<S: Scalar>(scene: Scene<S>, iterator: BatchIterator<'_, S>, edge: DrawOrder)
    requires
        call_ensures(Scene::<S>::batches, (&scene,), iterator),
    ensures
        iterator.layered@.contains(edge) <==> is_edge(scene, edge),
{
    stable_sort_keeps_items(
        layer_edges(scene@.effects),
        iterator.layered@,
        |e: DrawOrder| e.key_spec(),
        edge,
    );
    edges_are_those_of_layers_with_inner_orders(scene@.effects, edge);
}

/// Nothing in a batch lies across the start or the end of a filtered layer from anything else in
/// it.
pub proof fn batch_lies_on_one_side_of_every_layer<S: Scalar>(
    scene: Scene<S>,
    iterator: BatchIterator<'_, S>,
    batches: Vec<PrimitiveBatch>,
    kind: PrimitiveKind,
    i: int,
    p: int,
    q: int,
    edge: DrawOrder,
)
    requires
        is_ready(scene),
        are_batches_of(scene, iterator, batches),
        0 <= i < batches@.len(),
        shows(batches@[i], kind, p),
        shows(batches@[i], kind, q),
        is_edge(scene, edge),
    ensures
        order_of(scene, kind, p) < edge <==> order_of(scene, kind, q) < edge,
{
    lemma_batching(scene, iterator, batches);
    let (lanes, views) = (scene@.lanes(), batch_views(batches@));
    let (edges, starts) = (iterator.layered@, iterator.starts@);
    lemma_drawn_valid(lanes, edges, starts, views, i);
    let before = drawn(starts, views.take(i));
    assert(next_batch(lanes, edges, before) == Some(views[i]));
    lemma_shows(batches@[i], kind, p);
    lemma_shows(batches@[i], kind, q);
    lemma_batch_in_range(scene, iterator, batches, i);
    lemma_lanes(scene, kind, p);
    lemma_lanes(scene, kind, q);
    batch_spans_no_edge(lanes, edges, before, p);
    batch_spans_no_edge(lanes, edges, before, q);
    lemma_edges(scene, iterator, edge);
    let at = choose|at: int| 0 <= at < edges.len() && edges[at] == edge;
    assert(edges[at] == edge);
}

/// What a kind has left when a batch is taken is drawn in a later batch, but for that batch itself.
proof fn lemma_left_is_drawn_later<S: Scalar>(
    scene: Scene<S>,
    iterator: BatchIterator<'_, S>,
    batches: Vec<PrimitiveBatch>,
    i: int,
    kind: PrimitiveKind,
    q: int,
)
    requires
        is_ready(scene),
        are_batches_of(scene, iterator, batches),
        0 <= i < batches@.len(),
        drawn(iterator.starts@, batch_views(batches@).take(i))[kind.rank()] <= q < count_of(
            scene,
            kind,
        ),
    ensures
        exists|j: int| i <= j < batches@.len() && #[trigger] shows(batches@[j], kind, q),
{
    lemma_batching(scene, iterator, batches);
    let (lanes, views) = (scene@.lanes(), batch_views(batches@));
    let (edges, starts) = (iterator.layered@, iterator.starts@);
    let k = kind.rank();
    lemma_lanes(scene, kind, q);
    assert(starts[k] == 0);
    assert(drawn(starts, views.take(i))[k] >= 0);
    every_primitive_is_drawn_once(lanes, edges, starts, views, k, q);
    let j = choose|j: int| 0 <= j < views.len() && #[trigger] in_batch(views[j], k, q);
    lemma_drawn_step(lanes, edges, starts, views, j, k);
    if j < i {
        lemma_drawn_grows(lanes, edges, starts, views, j + 1, i, k);
    }
    lemma_shows(batches@[j], kind, q);
    assert(shows(batches@[j], kind, q));
}

/// Why a batch ends before the next primitive of its kind, as batching sees it.
proof fn lemma_why_it_ends<S: Scalar>(
    scene: Scene<S>,
    iterator: BatchIterator<'_, S>,
    batches: Vec<PrimitiveBatch>,
    kind: PrimitiveKind,
    i: int,
    p: int,
)
    requires
        is_ready(scene),
        are_batches_of(scene, iterator, batches),
        0 <= i < batches@.len(),
        shows(batches@[i], kind, p),
        !shows(batches@[i], kind, p + 1),
        p + 1 < count_of(scene, kind),
    ensures
        ({
            let (last, next) = (order_of(scene, kind, p), order_of(scene, kind, p + 1));
            let before = drawn(iterator.starts@, batch_views(batches@).take(i));
            let lanes = scene@.lanes();
            ||| texture_of(scene, kind, p + 1) != texture_named(batches@[i])
            ||| exists|e: int|
                0 <= e < iterator.layered@.len() && last < #[trigger] iterator.layered@[e] <= next
            ||| exists|k: int|
                0 <= k < KINDS && k != kind.rank() && #[trigger] before[k] < lanes[k].len() && (
                lanes[k][before[k] as int].order < next || (lanes[k][before[k] as int].order == next
                    && k < kind.rank()))
        }),
{
    lemma_batching(scene, iterator, batches);
    let (lanes, views) = (scene@.lanes(), batch_views(batches@));
    let (edges, starts) = (iterator.layered@, iterator.starts@);
    lemma_drawn_valid(lanes, edges, starts, views, i);
    let before = drawn(starts, views.take(i));
    assert(next_batch(lanes, edges, before) == Some(views[i]));
    lemma_shows(batches@[i], kind, p);
    lemma_shows(batches@[i], kind, p + 1);
    lemma_lanes(scene, kind, p);
    lemma_lanes(scene, kind, p + 1);
    batch_continues_its_kind(lanes, edges, before);
    assert(views[i].end == p + 1);
    batch_ends_only_where_it_must(lanes, edges, before, views[i]);
}

/// What is left of another kind when a batch is taken is drawn in a later one.
proof fn lemma_other_is_drawn_later<S: Scalar>(
    scene: Scene<S>,
    iterator: BatchIterator<'_, S>,
    batches: Vec<PrimitiveBatch>,
    kind: PrimitiveKind,
    i: int,
    p: int,
    k: int,
)
    requires
        is_ready(scene),
        are_batches_of(scene, iterator, batches),
        0 <= i < batches@.len(),
        shows(batches@[i], kind, p),
        0 <= k < KINDS,
        k != kind.rank(),
        drawn(iterator.starts@, batch_views(batches@).take(i))[k] < scene@.lanes()[k].len(),
    ensures
        ({
            let q = drawn(iterator.starts@, batch_views(batches@).take(i))[k] as int;
            let other = PrimitiveKind::of_rank(k);
            &&& other != kind
            &&& other.rank() == k
            &&& order_of(scene, other, q) == scene@.lanes()[k][q].order
            &&& exists|j: int| i < j < batches@.len() && #[trigger] shows(batches@[j], other, q)
        }),
{
    let q = drawn(iterator.starts@, batch_views(batches@).take(i))[k] as int;
    let other = PrimitiveKind::of_rank(k);
    lemma_rank(k);
    lemma_lanes(scene, other, q);
    lemma_left_is_drawn_later(scene, iterator, batches, i, other, q);
    let j = choose|j: int| i <= j < batches@.len() && #[trigger] shows(batches@[j], other, q);
    lemma_shows(batches@[j], other, q);
    lemma_shows(batches@[i], kind, p);
    assert(shows(batches@[j], other, q));
}

/// A batch ends only where it has to: what follows it among those of its kind lies on another
/// texture, or beyond the start or the end of a filtered layer, or something of another kind has to
/// be drawn in between.
pub proof fn batch_ends_only_where_it_has_to<S: Scalar>(
    scene: Scene<S>,
    iterator: BatchIterator<'_, S>,
    batches: Vec<PrimitiveBatch>,
    kind: PrimitiveKind,
    i: int,
    p: int,
)
    requires
        is_ready(scene),
        are_batches_of(scene, iterator, batches),
        0 <= i < batches@.len(),
        shows(batches@[i], kind, p),
        !shows(batches@[i], kind, p + 1),
        p + 1 < count_of(scene, kind),
    ensures
        ({
            let next = order_of(scene, kind, p + 1);
            ||| texture_of(scene, kind, p + 1) != texture_named(batches@[i])
            ||| exists|edge: DrawOrder| #[trigger]
                is_edge(scene, edge) && order_of(scene, kind, p) < edge <= next
            ||| exists|other: PrimitiveKind, j: int, q: int|
                i < j < batches@.len() && #[trigger] shows(batches@[j], other, q) && (order_of(
                    scene,
                    other,
                    q,
                ) < next || (order_of(scene, other, q) == next && other.rank() < kind.rank()))
                    && other != kind
        }),
{
    lemma_why_it_ends(scene, iterator, batches, kind, i, p);
    let (last, next) = (order_of(scene, kind, p), order_of(scene, kind, p + 1));
    let before = drawn(iterator.starts@, batch_views(batches@).take(i));
    let (lanes, edges) = (scene@.lanes(), iterator.layered@);
    if texture_of(scene, kind, p + 1) == texture_named(batches@[i]) {
        if exists|e: int| 0 <= e < edges.len() && last < #[trigger] edges[e] <= next {
            let e = choose|e: int| 0 <= e < edges.len() && last < #[trigger] edges[e] <= next;
            lemma_edges(scene, iterator, edges[e]);
            assert(is_edge(scene, edges[e]));
        } else {
            let k = choose|k: int|
                0 <= k < KINDS && k != kind.rank() && #[trigger] before[k] < lanes[k].len() && (
                lanes[k][before[k] as int].order < next || (lanes[k][before[k] as int].order == next
                    && k < kind.rank()));
            let (other, q) = (PrimitiveKind::of_rank(k), before[k] as int);
            lemma_other_is_drawn_later(scene, iterator, batches, kind, i, p, k);
            let j = choose|j: int|
                i < j < batches@.len() && #[trigger] shows(batches@[j], other, q);
            assert(shows(batches@[j], other, q));
        }
    }
}

/// The kinds are ranked as they are declared, and a rank stands for one kind.
pub proof fn kinds_are_ranked_as_declared(rank: int)
    requires
        0 <= rank < 9,
    ensures
        ({
            let kinds = seq![
                PrimitiveKind::Shadow,
                PrimitiveKind::Backdrop,
                PrimitiveKind::Quad,
                PrimitiveKind::Path,
                PrimitiveKind::Underline,
                PrimitiveKind::MonochromeSprite,
                PrimitiveKind::SubpixelSprite,
                PrimitiveKind::PolychromeSprite,
                PrimitiveKind::Surface,
            ];
            &&& kinds[rank].rank() == rank
            &&& PrimitiveKind::of_rank(rank) == kinds[rank]
        }),
{
}

/// The order of a batch is that of its first primitive.
pub proof fn batch_order_is_that_of_its_first<S: Scalar>(
    scene: Scene<S>,
    batch: PrimitiveBatch,
    order: DrawOrder,
    kind: PrimitiveKind,
    p: int,
)
    requires
        call_ensures(Scene::<S>::batch_order, (&scene, &batch), order),
        shows(batch, kind, p),
        !shows(batch, kind, p - 1),
        0 <= p < count_of(scene, kind),
    ensures
        order == order_of(scene, kind, p),
{
    lemma_shows(batch, kind, p);
    lemma_shows(batch, kind, p - 1);
    lemma_lanes(scene, kind, p);
}

/// Whether two batches are the same.
pub open spec fn same_batch(a: PrimitiveBatch, b: PrimitiveBatch) -> bool {
    &&& texture_named(a) == texture_named(b)
    &&& forall|kind: PrimitiveKind, p: int| #[trigger] shows(a, kind, p) <==> shows(b, kind, p)
}

proof fn lemma_drawn_after_first(starts: Seq<usize>, batches: Seq<BatchView>, i: int)
    requires
        0 <= i < batches.len(),
    ensures
        drawn(starts, batches.take(i + 1)) == drawn(
            starts.update(batches[0].kind.rank(), batches[0].end as usize),
            batches.skip(1).take(i),
        ),
    decreases i,
{
    let rest = batches.skip(1);
    assert(batches.take(i + 1).drop_last() =~= batches.take(i));
    assert(batches.take(i + 1).last() == batches[i]);
    if i == 0 {
        assert(batches.take(0) =~= Seq::<BatchView>::empty());
        assert(rest.take(0) =~= Seq::<BatchView>::empty());
        reveal_with_fuel(drawn, 2);
    } else {
        lemma_drawn_after_first(starts, batches, i - 1);
        assert(rest.take(i).drop_last() =~= rest.take(i - 1));
        assert(rest.take(i).last() == batches[i]);
    }
}

proof fn lemma_batching_rest(
    lanes: Seq<Seq<LaneItem>>,
    edges: Seq<DrawOrder>,
    starts: Seq<usize>,
    batches: Seq<BatchView>,
)
    requires
        is_batching(lanes, edges, starts, batches),
        batches.len() > 0,
    ensures
        next_batch(lanes, edges, starts) == Some(batches[0]),
        is_batching(
            lanes,
            edges,
            starts.update(batches[0].kind.rank(), batches[0].end as usize),
            batches.skip(1),
        ),
{
    let rest = batches.skip(1);
    let then = starts.update(batches[0].kind.rank(), batches[0].end as usize);
    assert(batches.take(0) =~= Seq::<BatchView>::empty());
    assert(drawn(starts, batches.take(0)) == starts);
    assert(next_batch(lanes, edges, drawn(starts, batches.take(0))) == Some(batches[0]));
    assert forall|i: int| 0 <= i < rest.len() implies next_batch(
        lanes,
        edges,
        drawn(then, rest.take(i)),
    ) == Some(#[trigger] rest[i]) by {
        lemma_drawn_after_first(starts, batches, i);
        assert(next_batch(lanes, edges, drawn(starts, batches.take(i + 1))) == Some(
            batches[i + 1],
        ));
    }
    lemma_drawn_after_first(starts, batches, rest.len() as int);
    assert(batches.take(rest.len() as int + 1) =~= batches);
    assert(rest.take(rest.len() as int) =~= rest);
}

proof fn lemma_batching_unique(
    lanes: Seq<Seq<LaneItem>>,
    edges: Seq<DrawOrder>,
    starts: Seq<usize>,
    a: Seq<BatchView>,
    b: Seq<BatchView>,
)
    requires
        is_batching(lanes, edges, starts, a),
        is_batching(lanes, edges, starts, b),
    ensures
        a == b,
    decreases a.len(),
{
    if a.len() == 0 || b.len() == 0 {
        if a.len() > 0 {
            lemma_batching_rest(lanes, edges, starts, a);
        }
        if b.len() > 0 {
            lemma_batching_rest(lanes, edges, starts, b);
        }
        assert(a =~= b);
    } else {
        lemma_batching_rest(lanes, edges, starts, a);
        lemma_batching_rest(lanes, edges, starts, b);
        lemma_batching_unique(
            lanes,
            edges,
            starts.update(a[0].kind.rank(), a[0].end as usize),
            a.skip(1),
            b.skip(1),
        );
        assert forall|i: int| 0 <= i < a.len() implies a[i] == b[i] by {
            if i > 0 {
                assert(a[i] == a.skip(1)[i - 1]);
                assert(b[i] == b.skip(1)[i - 1]);
            }
        }
        assert(a.skip(1).len() == b.skip(1).len());
        assert(a =~= b);
    }
}

/// Taking batches one at a time hands out the same as taking all of them at once: there is a next
/// batch where any is left, it is the first of those that are left, and the others are left after
/// it.
pub proof fn one_at_a_time_is_all_at_once<S: Scalar>(
    iterator: &mut BatchIterator<'_, S>,
    next: Option<PrimitiveBatch>,
    all: Vec<PrimitiveBatch>,
    rest: Vec<PrimitiveBatch>,
)
    requires
        call_ensures(BatchIterator::<S>::into_vec, (*old(iterator),), all),
        call_ensures(BatchIterator::<S>::next, (iterator,), next),
        call_ensures(BatchIterator::<S>::into_vec, (*final(iterator),), rest),
    ensures
        next is None <==> all@.len() == 0,
        next matches Some(batch) ==> {
            &&& same_batch(batch, all@[0])
            &&& rest@.len() == all@.len() - 1
            &&& forall|i: int|
                0 <= i < rest@.len() ==> same_batch(#[trigger] rest@[i], all@[i + 1])
        },
        next is None ==> rest@.len() == 0,
{
    let (lanes, edges) = (old(iterator).scene@.lanes(), old(iterator).layered@);
    let starts = old(iterator).starts@;
    let (a, r) = (batch_views(all@), batch_views(rest@));
    assert(a.len() == all@.len() && r.len() == rest@.len());
    if a.len() > 0 {
        lemma_batching_rest(lanes, edges, starts, a);
        assert(a[0] == all@[0]@);
        lemma_batching_unique(
            lanes,
            edges,
            starts.update(a[0].kind.rank(), a[0].end as usize),
            a.skip(1),
            r,
        );
        lemma_same_batch(next->0, all@[0]);
        assert forall|i: int| 0 <= i < rest@.len() implies same_batch(
            #[trigger] rest@[i],
            all@[i + 1],
        ) by {
            assert(r[i] == rest@[i]@);
            assert(a.skip(1)[i] == a[i + 1]);
            lemma_same_batch(rest@[i], all@[i + 1]);
        }
    } else {
        assert(drawn(starts, a) == starts);
        lemma_batching_unique(lanes, edges, starts, a, r);
    }
}

proof fn lemma_same_batch(a: PrimitiveBatch, b: PrimitiveBatch)
    requires
        a@ == b@,
    ensures
        same_batch(a, b),
{
    assert forall|kind: PrimitiveKind, p: int| #[trigger]
        shows(a, kind, p) <==> shows(b, kind, p) by {
        lemma_shows(a, kind, p);
        lemma_shows(b, kind, p);
    }
}

} // verus!
