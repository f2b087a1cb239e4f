//! Runs of primitives that are drawn with one call.

use crate::atlas::AtlasTextureId;
use crate::batch_laws::batch_continues_its_kind;
use crate::bounds_tree::DrawOrder;
use crate::decimal::{append_decimal, decimal};
use crate::filter::LayerEffect;
use crate::path::PathView;
use crate::primitive::{
    Backdrop, MonochromeSprite, PaintSurface, PolychromeSprite, PrimitiveKind, Quad, Shadow,
    SubpixelSprite, Underline, KINDS,
};
use crate::scalar::{Scalar, ScaledPixels};
use crate::scene::{Scene, SceneView};
use crate::sort::{is_stable_sort, key_at_most, own_key, stable_sort, Keyed, SortKey};
use std::ops::Range;
use vstd::prelude::*;
use vstd::string::StringExecFns;

verus! {

/// A run of primitives of one kind, by their places among all primitives of that kind.
#[derive(Debug)]
pub enum PrimitiveBatch {
    Shadows(Range<usize>),
    Backdrops(Range<usize>),
    Quads(Range<usize>),
    Paths(Range<usize>),
    Underlines(Range<usize>),
    MonochromeSprites { texture_id: AtlasTextureId, range: Range<usize> },
    SubpixelSprites { texture_id: AtlasTextureId, range: Range<usize> },
    PolychromeSprites { texture_id: AtlasTextureId, range: Range<usize> },
    Surfaces(Range<usize>),
}

/// The contents of a [`PrimitiveBatch`].
pub struct BatchView {
    pub kind: PrimitiveKind,
    pub start: int,
    pub end: int,
    /// The texture that all sprites of the batch lie on; none for other kinds.
    pub texture: Option<AtlasTextureId>,
}

impl View for PrimitiveBatch {
    type V = BatchView;

    open spec fn view(&self) -> BatchView {
        let plain = |kind: PrimitiveKind, range: Range<usize>|
            BatchView { kind, start: range.start as int, end: range.end as int, texture: None };
        match *self {
            PrimitiveBatch::Shadows(range) => plain(PrimitiveKind::Shadow, range),
            PrimitiveBatch::Backdrops(range) => plain(PrimitiveKind::Backdrop, range),
            PrimitiveBatch::Quads(range) => plain(PrimitiveKind::Quad, range),
            PrimitiveBatch::Paths(range) => plain(PrimitiveKind::Path, range),
            PrimitiveBatch::Underlines(range) => plain(PrimitiveKind::Underline, range),
            PrimitiveBatch::MonochromeSprites { texture_id, range } => BatchView {
                texture: Some(texture_id),
                ..plain(PrimitiveKind::MonochromeSprite, range)
            },
            PrimitiveBatch::SubpixelSprites { texture_id, range } => BatchView {
                texture: Some(texture_id),
                ..plain(PrimitiveKind::SubpixelSprite, range)
            },
            PrimitiveBatch::PolychromeSprites { texture_id, range } => BatchView {
                texture: Some(texture_id),
                ..plain(PrimitiveKind::PolychromeSprite, range)
            },
            PrimitiveBatch::Surfaces(range) => plain(PrimitiveKind::Surface, range),
        }
    }
}

/// How many places there are from `start` up to `end`.
pub open spec fn length(start: int, end: int) -> nat {
    if start < end {
        (end - start) as nat
    } else {
        0
    }
}

/// What a label begins with.
pub open spec fn label_name(kind: PrimitiveKind) -> Seq<char> {
    match kind {
        PrimitiveKind::Shadow => "shadows ("@,
        PrimitiveKind::Backdrop => "backdrops ("@,
        PrimitiveKind::Quad => "quads ("@,
        PrimitiveKind::Path => "paths ("@,
        PrimitiveKind::Underline => "underlines ("@,
        PrimitiveKind::MonochromeSprite => "monochrome sprites ("@,
        PrimitiveKind::SubpixelSprite => "subpixel sprites ("@,
        PrimitiveKind::PolychromeSprite => "polychrome sprites ("@,
        PrimitiveKind::Surface => "surfaces ("@,
    }
}

impl BatchView {
    /// How many primitives the batch holds.
    pub open spec fn count(self) -> nat {
        length(self.start, self.end)
    }

    /// What the batch is called in traces.
    pub open spec fn label(self) -> Seq<char> {
        let counted = label_name(self.kind) + decimal(self.count());
        match self.texture {
            Some(texture_id) => counted + ") on atlas "@ + decimal(texture_id.index as nat),
            None => counted + ")"@,
        }
    }
}

fn counted_label(name: &str, range: &Range<usize>) -> (r: String)
    ensures
        r@ == name@ + decimal(length(range.start as int, range.end as int)),
{
    let mut r = String::from_str(name);
    let count: usize = if range.start < range.end {
        range.end - range.start
    } else {
        0
    };
    append_decimal(&mut r, count as u64);
    r
}

fn plain_label(name: &str, range: &Range<usize>) -> (r: String)
    ensures
        r@ == name@ + decimal(length(range.start as int, range.end as int)) + ")"@,
{
    let mut r = counted_label(name, range);
    r.append(")");
    r
}

fn sprite_label(name: &str, range: &Range<usize>, texture_id: &AtlasTextureId) -> (r: String)
    ensures
        r@ == name@ + decimal(length(range.start as int, range.end as int)) + ") on atlas "@
            + decimal(texture_id.index as nat),
{
    let mut r = counted_label(name, range);
    r.append(") on atlas ");
    append_decimal(&mut r, texture_id.index as u64);
    r
}

impl PrimitiveBatch {
    /// What the batch is called in traces.
    pub fn label(&self) -> (r: String)
        ensures
            r@ == self@.label(),
    {
        match self {
            PrimitiveBatch::Shadows(range) => plain_label("shadows (", range),
            PrimitiveBatch::Backdrops(range) => plain_label("backdrops (", range),
            PrimitiveBatch::Quads(range) => plain_label("quads (", range),
            PrimitiveBatch::Paths(range) => plain_label("paths (", range),
            PrimitiveBatch::Underlines(range) => plain_label("underlines (", range),
            PrimitiveBatch::MonochromeSprites { texture_id, range } => {
                sprite_label("monochrome sprites (", range, texture_id)
            },
            PrimitiveBatch::SubpixelSprites { texture_id, range } => {
                sprite_label("subpixel sprites (", range, texture_id)
            },
            PrimitiveBatch::PolychromeSprites { texture_id, range } => {
                sprite_label("polychrome sprites (", range, texture_id)
            },
            PrimitiveBatch::Surfaces(range) => plain_label("surfaces (", range),
        }
    }
}

/// What batching looks at in a primitive.
#[derive(Clone, Copy)]
pub struct LaneItem {
    pub order: DrawOrder,
    /// The texture that a sprite lies on; none for other kinds.
    pub texture: Option<AtlasTextureId>,
}

impl<S: Scalar> SceneView<S> {
    /// The primitives of one kind, as batching sees them.
    pub open spec fn lane(self, kind: PrimitiveKind) -> Seq<LaneItem> {
        match kind {
            PrimitiveKind::Shadow => self.shadows.map_values(
                |p: Shadow<S>| LaneItem { order: p.order, texture: None },
            ),
            PrimitiveKind::Backdrop => self.backdrops.map_values(
                |p: Backdrop<S>| LaneItem { order: p.order, texture: None },
            ),
            PrimitiveKind::Quad => self.quads.map_values(
                |p: Quad<S>| LaneItem { order: p.order, texture: None },
            ),
            PrimitiveKind::Path => self.paths.map_values(
                |p: PathView<ScaledPixels<S>, S>| LaneItem { order: p.order, texture: None },
            ),
            PrimitiveKind::Underline => self.underlines.map_values(
                |p: Underline<S>| LaneItem { order: p.order, texture: None },
            ),
            PrimitiveKind::MonochromeSprite => self.monochrome_sprites.map_values(
                |p: MonochromeSprite<S>|
                    LaneItem { order: p.order, texture: Some(p.tile.texture_id) },
            ),
            PrimitiveKind::SubpixelSprite => self.subpixel_sprites.map_values(
                |p: SubpixelSprite<S>|
                    LaneItem { order: p.order, texture: Some(p.tile.texture_id) },
            ),
            PrimitiveKind::PolychromeSprite => self.polychrome_sprites.map_values(
                |p: PolychromeSprite<S>|
                    LaneItem { order: p.order, texture: Some(p.tile.texture_id) },
            ),
            PrimitiveKind::Surface => self.surfaces.map_values(
                |p: PaintSurface<S>| LaneItem { order: p.order, texture: None },
            ),
        }
    }

    /// The primitives of all kinds, as batching sees them.
    pub open spec fn lanes(self) -> Seq<Seq<LaneItem>> {
        Seq::new(KINDS as nat, |rank: int| self.lane(PrimitiveKind::of_rank(rank)))
    }
}

/// The orders at which filtered layers open and close. A layer with no order between its barriers
/// holds nothing to redirect, so it does not get to split a batch.
pub open spec fn layer_edges<S: Scalar>(effects: Seq<LayerEffect<S>>) -> Seq<DrawOrder>
    decreases effects.len(),
{
    if effects.len() == 0 {
        Seq::empty()
    } else {
        let (rest, last) = (layer_edges(effects.drop_last()), effects.last());
        if last.has_inner_orders() {
            rest.push(last.start).push(last.end)
        } else {
            rest
        }
    }
}

/// Where a primitive comes in a frame: by its order, and by its kind among equals.
pub struct DrawKey {
    pub order: DrawOrder,
    pub rank: int,
}

impl DrawKey {
    pub open spec fn before(self, other: DrawKey) -> bool {
        self.order < other.order || (self.order == other.order && self.rank < other.rank)
    }
}

/// Where the next primitive of a kind comes; after all others, where there is none.
pub open spec fn head_key(lanes: Seq<Seq<LaneItem>>, starts: Seq<usize>, rank: int) -> DrawKey {
    DrawKey {
        order: if starts[rank] < lanes[rank].len() {
            lanes[rank][starts[rank] as int].order
        } else {
            DrawOrder::MAX
        },
        rank,
    }
}

/// Whether `rank` is the kind whose next primitive comes before those of all kinds but `skip`.
pub open spec fn is_earliest(
    lanes: Seq<Seq<LaneItem>>,
    starts: Seq<usize>,
    skip: int,
    rank: int,
) -> bool {
    &&& 0 <= rank < KINDS
    &&& rank != skip
    &&& forall|k: int|
        0 <= k < KINDS && k != skip && k != rank ==> head_key(lanes, starts, rank).before(
            #[trigger] head_key(lanes, starts, k),
        )
}

/// The kind whose next primitive comes first among all kinds but `skip`.
pub open spec fn earliest(lanes: Seq<Seq<LaneItem>>, starts: Seq<usize>, skip: int) -> int {
    choose|rank: int| is_earliest(lanes, starts, skip, rank)
}

/// Whether `limit` is the first edge above `order`, or the highest order if there is none.
pub open spec fn is_limit(edges: Seq<DrawOrder>, order: DrawOrder, limit: DrawOrder) -> bool {
    &&& forall|i: int| 0 <= i < edges.len() && order < #[trigger] edges[i] ==> limit <= edges[i]
    &&& (order < limit && edges.contains(limit)) || (limit == DrawOrder::MAX && forall|i: int|
        0 <= i < edges.len() ==> #[trigger] edges[i] <= order)
}

/// The first edge above `order`, or the highest order if there is none.
pub open spec fn limit_after(edges: Seq<DrawOrder>, order: DrawOrder) -> DrawOrder {
    choose|limit: DrawOrder| is_limit(edges, order, limit)
}

/// What a batch that starts with the given kind may not reach: the next primitive of another
/// kind, and the next edge of a filtered layer.
pub open spec fn batch_bound(
    lanes: Seq<Seq<LaneItem>>,
    edges: Seq<DrawOrder>,
    starts: Seq<usize>,
    rank: int,
) -> DrawKey {
    let other = head_key(lanes, starts, earliest(lanes, starts, rank));
    let edge = DrawKey {
        order: limit_after(edges, head_key(lanes, starts, rank).order),
        rank: PrimitiveKind::Shadow.rank(),
    };
    if edge.before(other) {
        edge
    } else {
        other
    }
}

/// Whether the primitive at `i` can join a batch that started at `start`.
pub open spec fn joins(
    lane: Seq<LaneItem>,
    rank: int,
    bound: DrawKey,
    start: int,
    i: int,
) -> bool {
    &&& DrawKey { order: lane[i].order, rank }.before(bound)
    &&& lane[i].texture == lane[start].texture
}

/// Where the run of primitives that can join a batch ends, from `i` on.
pub open spec fn run_end(
    lane: Seq<LaneItem>,
    rank: int,
    bound: DrawKey,
    start: int,
    i: int,
) -> int
    decreases lane.len() - i,
{
    if i < lane.len() && joins(lane, rank, bound, start, i) {
        run_end(lane, rank, bound, start, i + 1)
    } else {
        i
    }
}

/// The batch that comes next, where `starts` says what has been drawn of each kind.
pub open spec fn next_batch(
    lanes: Seq<Seq<LaneItem>>,
    edges: Seq<DrawOrder>,
    starts: Seq<usize>,
) -> Option<BatchView> {
    let rank = earliest(lanes, starts, -1);
    let start = starts[rank] as int;
    if start < lanes[rank].len() {
        let bound = batch_bound(lanes, edges, starts, rank);
        Some(
            BatchView {
                kind: PrimitiveKind::of_rank(rank),
                start,
                end: run_end(lanes[rank], rank, bound, start, start + 1),
                texture: lanes[rank][start].texture,
            },
        )
    } else {
        None
    }
}

/// Whether `starts` says of each kind how much has been drawn.
pub open spec fn valid_starts(lanes: Seq<Seq<LaneItem>>, starts: Seq<usize>) -> bool {
    &&& lanes.len() == KINDS
    &&& starts.len() == KINDS
    &&& forall|k: int|
        0 <= k < KINDS ==> #[trigger] starts[k] <= lanes[k].len() && lanes[k].len() <= usize::MAX
}

/// How much of each kind has been drawn after the given batches.
pub open spec fn drawn(starts: Seq<usize>, batches: Seq<BatchView>) -> Seq<usize>
    decreases batches.len(),
{
    if batches.len() == 0 {
        starts
    } else {
        let last = batches.last();
        drawn(starts, batches.drop_last()).update(last.kind.rank(), last.end as usize)
    }
}

/// Whether `batches` are the first that are handed out.
pub open spec fn hands_out(
    lanes: Seq<Seq<LaneItem>>,
    edges: Seq<DrawOrder>,
    starts: Seq<usize>,
    batches: Seq<BatchView>,
) -> bool {
    forall|i: int|
        0 <= i < batches.len() ==> next_batch(lanes, edges, drawn(starts, batches.take(i))) == Some(
            #[trigger] batches[i],
        )
}

/// Whether `batches` are those that are handed out until nothing is left.
pub open spec fn is_batching(
    lanes: Seq<Seq<LaneItem>>,
    edges: Seq<DrawOrder>,
    starts: Seq<usize>,
    batches: Seq<BatchView>,
) -> bool {
    &&& hands_out(lanes, edges, starts, batches)
    &&& next_batch(lanes, edges, drawn(starts, batches)) is None
}

/// The contents of the given batches.
pub open spec fn batch_views(batches: Seq<PrimitiveBatch>) -> Seq<BatchView> {
    batches.map_values(|batch: PrimitiveBatch| batch@)
}

impl Keyed for u32 {
    open spec fn key_spec(self) -> SortKey {
        (self, 0)
    }

    fn key(&self) -> (r: SortKey) {
        (*self, 0)
    }
}

/// Hands out the batches of a scene, in drawing order.
pub struct BatchIterator<'a, S> {
    pub scene: &'a Scene<S>,
    /// Where filtered layers open and close, sorted. A batch never spans one of these.
    pub layered: Vec<DrawOrder>,
    /// How many primitives of each kind have been handed out.
    pub starts: [usize; 9],
}

impl<'a, S: Scalar> BatchIterator<'a, S> {
    pub open spec fn wf(self) -> bool {
        &&& forall|i: int, j: int|
            0 <= i <= j < self.layered@.len() ==> self.layered@[i] <= self.layered@[j]
        &&& valid_starts(self.scene@.lanes(), self.starts@)
    }
}

/// How many primitives are left to draw.
spec fn left_to_draw(lanes: Seq<Seq<LaneItem>>, starts: Seq<usize>) -> int {
    let left = |k: int| lanes[k].len() - starts[k];
    left(0) + left(1) + left(2) + left(3) + left(4) + left(5) + left(6) + left(7) + left(8)
}

proof fn lemma_one_more_batch(
    lanes: Seq<Seq<LaneItem>>,
    edges: Seq<DrawOrder>,
    starts: Seq<usize>,
    batches: Seq<BatchView>,
    batch: BatchView,
)
    requires
        hands_out(lanes, edges, starts, batches),
        next_batch(lanes, edges, drawn(starts, batches)) == Some(batch),
    ensures
        hands_out(lanes, edges, starts, batches.push(batch)),
        drawn(starts, batches.push(batch)) == drawn(starts, batches).update(
            batch.kind.rank(),
            batch.end as usize,
        ),
{
    let all = batches.push(batch);
    assert(all.drop_last() =~= batches);
    assert forall|i: int| 0 <= i < all.len() implies next_batch(
        lanes,
        edges,
        drawn(starts, all.take(i)),
    ) == Some(#[trigger] all[i]) by {
        if i < batches.len() {
            assert(all.take(i) =~= batches.take(i));
            assert(batches[i] == all[i]);
        } else {
            assert(all.take(i) =~= batches);
        }
    }
}

/// At most one kind comes first.
pub(crate) proof fn lemma_earliest_unique(
    lanes: Seq<Seq<LaneItem>>,
    starts: Seq<usize>,
    skip: int,
    rank: int,
)
    requires
        is_earliest(lanes, starts, skip, rank),
    ensures
        earliest(lanes, starts, skip) == rank,
{
    let other = earliest(lanes, starts, skip);
    assert(is_earliest(lanes, starts, skip, other));
    if other != rank {
        assert(head_key(lanes, starts, rank).before(head_key(lanes, starts, other)));
        assert(head_key(lanes, starts, other).before(head_key(lanes, starts, rank)));
    }
}

/// At most one order is the first edge above another.
pub(crate) proof fn lemma_limit_unique(edges: Seq<DrawOrder>, order: DrawOrder, limit: DrawOrder)
    requires
        is_limit(edges, order, limit),
    ensures
        limit_after(edges, order) == limit,
{
    let other = limit_after(edges, order);
    assert(is_limit(edges, order, other));
    if edges.contains(limit) {
        let i = choose|i: int| 0 <= i < edges.len() && edges[i] == limit;
        assert(edges[i] == limit);
    }
    if edges.contains(other) {
        let i = choose|i: int| 0 <= i < edges.len() && edges[i] == other;
        assert(edges[i] == other);
    }
}

impl<S: Scalar> Scene<S> {
    /// What a vector holds can be counted.
    proof fn lemma_lane_len(&self, kind: PrimitiveKind)
        ensures
            self@.lane(kind).len() <= usize::MAX,
    {
        assert(self.shadows.len() <= usize::MAX);
        assert(self.backdrops.len() <= usize::MAX);
        assert(self.quads.len() <= usize::MAX);
        assert(self.paths.len() <= usize::MAX);
        assert(self.underlines.len() <= usize::MAX);
        assert(self.monochrome_sprites.len() <= usize::MAX);
        assert(self.subpixel_sprites.len() <= usize::MAX);
        assert(self.polychrome_sprites.len() <= usize::MAX);
        assert(self.surfaces.len() <= usize::MAX);
    }

    /// How many primitives of a kind there are.
    fn lane_len(&self, kind: PrimitiveKind) -> (r: usize)
        ensures
            r == self@.lane(kind).len(),
    {
        match kind {
            PrimitiveKind::Shadow => self.shadows.len(),
            PrimitiveKind::Backdrop => self.backdrops.len(),
            PrimitiveKind::Quad => self.quads.len(),
            PrimitiveKind::Path => self.paths.len(),
            PrimitiveKind::Underline => self.underlines.len(),
            PrimitiveKind::MonochromeSprite => self.monochrome_sprites.len(),
            PrimitiveKind::SubpixelSprite => self.subpixel_sprites.len(),
            PrimitiveKind::PolychromeSprite => self.polychrome_sprites.len(),
            PrimitiveKind::Surface => self.surfaces.len(),
        }
    }

    /// What batching looks at in one primitive.
    fn lane_item(&self, kind: PrimitiveKind, i: usize) -> (r: LaneItem)
        requires
            i < self@.lane(kind).len(),
        ensures
            r == self@.lane(kind)[i as int],
    {
        match kind {
            PrimitiveKind::Shadow => LaneItem { order: self.shadows[i].order, texture: None },
            PrimitiveKind::Backdrop => LaneItem { order: self.backdrops[i].order, texture: None },
            PrimitiveKind::Quad => LaneItem { order: self.quads[i].order, texture: None },
            PrimitiveKind::Path => LaneItem { order: self.paths[i].order, texture: None },
            PrimitiveKind::Underline => LaneItem {
                order: self.underlines[i].order,
                texture: None,
            },
            PrimitiveKind::MonochromeSprite => LaneItem {
                order: self.monochrome_sprites[i].order,
                texture: Some(self.monochrome_sprites[i].tile.texture_id),
            },
            PrimitiveKind::SubpixelSprite => LaneItem {
                order: self.subpixel_sprites[i].order,
                texture: Some(self.subpixel_sprites[i].tile.texture_id),
            },
            PrimitiveKind::PolychromeSprite => LaneItem {
                order: self.polychrome_sprites[i].order,
                texture: Some(self.polychrome_sprites[i].tile.texture_id),
            },
            PrimitiveKind::Surface => LaneItem { order: self.surfaces[i].order, texture: None },
        }
    }

    /// The draw order of a batch's first primitive.
    pub fn batch_order(&self, batch: &PrimitiveBatch) -> (r: DrawOrder)
        requires
            batch@.start < self@.lane(batch@.kind).len(),
        ensures
            r == self@.lane(batch@.kind)[batch@.start].order,
    {
        match batch {
            PrimitiveBatch::Shadows(range) => self.shadows[range.start].order,
            PrimitiveBatch::Backdrops(range) => self.backdrops[range.start].order,
            PrimitiveBatch::Quads(range) => self.quads[range.start].order,
            PrimitiveBatch::Paths(range) => self.paths[range.start].order,
            PrimitiveBatch::Underlines(range) => self.underlines[range.start].order,
            PrimitiveBatch::MonochromeSprites { range, .. } => {
                self.monochrome_sprites[range.start].order
            },
            PrimitiveBatch::SubpixelSprites { range, .. } => {
                self.subpixel_sprites[range.start].order
            },
            PrimitiveBatch::PolychromeSprites { range, .. } => {
                self.polychrome_sprites[range.start].order
            },
            PrimitiveBatch::Surfaces(range) => self.surfaces[range.start].order,
        }
    }

    /// The batches to draw, in order. Call `finish` first.
    pub fn batches(&self) -> (r: BatchIterator<'_, S>)
        ensures
            r.wf(),
            *r.scene == *self,
            is_stable_sort(layer_edges(self@.effects), r.layered@, |e: DrawOrder| e.key_spec()),
            r.starts@ == Seq::new(KINDS as nat, |k: int| 0usize),
    {
        let mut edges: Vec<DrawOrder> = Vec::new();
        let mut i: usize = 0;
        while i < self.effects.len()
            invariant
                i <= self.effects.len(),
                edges@ == layer_edges(self.effects@.take(i as int)),
            decreases self.effects.len() - i,
        {
            let layer = &self.effects[i];
            if layer.end > layer.start && layer.end - layer.start > 1 {
                edges.push(layer.start);
                edges.push(layer.end);
            }
            assert(self.effects@.take(i + 1).drop_last() =~= self.effects@.take(i as int));
            i += 1;
        }
        assert(self.effects@.take(i as int) =~= self.effects@);
        stable_sort(&mut edges);
        assert forall|i: int, j: int| 0 <= i <= j < edges@.len() implies edges@[i]
            <= edges@[j] by {
            let key = own_key::<u32>();
            assert(key_at_most(key(edges@[i]), key(edges@[j])));
        }
        proof {
            assert forall|k: int| 0 <= k < KINDS implies (#[trigger] self@.lanes()[k]).len()
                <= usize::MAX by {
                self.lemma_lane_len(PrimitiveKind::of_rank(k));
            }
        }
        let r = BatchIterator { scene: self, layered: edges, starts: [0, 0, 0, 0, 0, 0, 0, 0, 0] };
        assert(r.starts@ =~= Seq::new(KINDS as nat, |k: int| 0usize));
        r
    }
}

impl<'a, S: Scalar> BatchIterator<'a, S> {
    fn head_order(&self, rank: usize) -> (r: DrawOrder)
        requires
            self.wf(),
            rank < KINDS,
        ensures
            r == head_key(self.scene@.lanes(), self.starts@, rank as int).order,
    {
        let kind = PrimitiveKind::from_rank(rank);
        let start = self.starts[rank];
        if start < self.scene.lane_len(kind) {
            self.scene.lane_item(kind, start).order
        } else {
            DrawOrder::MAX
        }
    }

    /// The kind whose next primitive comes first among all kinds but `skip`.
    fn find_earliest(&self, skip: usize) -> (r: usize)
        requires
            self.wf(),
        ensures
            r < KINDS,
            r == earliest(
                self.scene@.lanes(),
                self.starts@,
                if skip < KINDS {
                    skip as int
                } else {
                    -1
                },
            ),
            r != skip,
    {
        let ghost lanes = self.scene@.lanes();
        let ghost without: int = if skip < KINDS {
            skip as int
        } else {
            -1
        };
        let mut best: usize = if skip == 0 {
            1
        } else {
            0
        };
        let mut best_order: DrawOrder = self.head_order(best);
        let mut k: usize = best + 1;
        while k < KINDS
            invariant
                self.wf(),
                lanes == self.scene@.lanes(),
                without == if skip < KINDS {
                    skip as int
                } else {
                    -1
                },
                best < k <= KINDS,
                best != skip,
                best_order == head_key(lanes, self.starts@, best as int).order,
                forall|i: int|
                    0 <= i < k && i != without && i != best ==> head_key(
                        lanes,
                        self.starts@,
                        best as int,
                    ).before(#[trigger] head_key(lanes, self.starts@, i)),
            decreases KINDS - k,
        {
            if k != skip {
                let order = self.head_order(k);
                if order < best_order {
                    best = k;
                    best_order = order;
                }
            }
            k += 1;
        }
        proof {
            assert(is_earliest(lanes, self.starts@, without, best as int));
            lemma_earliest_unique(lanes, self.starts@, without, best as int);
        }
        best
    }

    /// The first edge of a filtered layer above `order`.
    fn find_limit(&self, order: DrawOrder) -> (r: DrawOrder)
        requires
            self.wf(),
        ensures
            r == limit_after(self.layered@, order),
    {
        let mut low: usize = 0;
        let mut high: usize = self.layered.len();
        while low < high
            invariant
                low <= high <= self.layered.len(),
                self.wf(),
                forall|i: int| 0 <= i < low ==> #[trigger] self.layered@[i] <= order,
                forall|i: int|
                    high <= i < self.layered.len() ==> order < #[trigger] self.layered@[i],
            decreases high - low,
        {
            let middle = low + (high - low) / 2;
            if self.layered[middle] <= order {
                low = middle + 1;
            } else {
                high = middle;
            }
        }
        let r = if low < self.layered.len() {
            self.layered[low]
        } else {
            DrawOrder::MAX
        };
        proof {
            assert(is_limit(self.layered@, order, r));
            lemma_limit_unique(self.layered@, order, r);
        }
        r
    }

    /// The next batch, if anything is left to draw.
    ///
    /// A batch may not cross into or out of a filtered layer, or the layer's primitives could not
    /// be redirected to its own target.
    pub fn next(&mut self) -> (r: Option<PrimitiveBatch>)
        requires
            old(self).wf(),
        ensures
            final(self).wf(),
            final(self).scene == old(self).scene,
            final(self).layered@ == old(self).layered@,
            match (r, next_batch(old(self).scene@.lanes(), old(self).layered@, old(self).starts@)) {
                (Some(batch), Some(expected)) => {
                    &&& batch@ == expected
                    &&& final(self).starts@ == old(self).starts@.update(
                        expected.kind.rank(),
                        expected.end as usize,
                    )
                },
                (None, None) => final(self).starts@ == old(self).starts@,
                _ => false,
            },
    {
        let ghost lanes = self.scene@.lanes();
        let rank = self.find_earliest(KINDS);
        let kind = PrimitiveKind::from_rank(rank);
        let count = self.scene.lane_len(kind);
        let start = self.starts[rank];
        if start >= count {
            return None;
        }
        let first = self.scene.lane_item(kind, start);
        let other = self.find_earliest(rank);
        let mut bound_order = self.head_order(other);
        let mut bound_rank = other;
        let limit = self.find_limit(first.order);
        if limit < bound_order || (limit == bound_order && 0 < bound_rank) {
            bound_order = limit;
            bound_rank = 0;
        }
        let ghost bound = DrawKey { order: bound_order, rank: bound_rank as int };
        assert(bound == batch_bound(lanes, self.layered@, self.starts@, rank as int));
        let ghost lane = lanes[rank as int];
        assert(lane == self.scene@.lane(kind));
        let mut end: usize = start + 1;
        let mut open = true;
        while open && end < count
            invariant
                *self == *old(self),
                rank == kind.rank(),
                lane == self.scene@.lane(kind),
                count == lane.len(),
                start < end <= count,
                first == lane[start as int],
                bound == (DrawKey { order: bound_order, rank: bound_rank as int }),
                run_end(lane, rank as int, bound, start as int, start + 1) == if open {
                    run_end(lane, rank as int, bound, start as int, end as int)
                } else {
                    end as int
                },
            decreases
                count - end + if open {
                    1int
                } else {
                    0
                },
        {
            let item = self.scene.lane_item(kind, end);
            let before = item.order < bound_order || (item.order == bound_order && rank
                < bound_rank);
            let same = match (item.texture, first.texture) {
                (Some(a), Some(b)) => a == b,
                (None, None) => true,
                _ => false,
            };
            assert((before && same) == joins(lane, rank as int, bound, start as int, end as int));
            if before && same {
                end += 1;
            } else {
                open = false;
            }
        }
        self.starts[rank] = end;
        let range = start..end;
        match (kind, first.texture) {
            (PrimitiveKind::Shadow, _) => Some(PrimitiveBatch::Shadows(range)),
            (PrimitiveKind::Backdrop, _) => Some(PrimitiveBatch::Backdrops(range)),
            (PrimitiveKind::Quad, _) => Some(PrimitiveBatch::Quads(range)),
            (PrimitiveKind::Path, _) => Some(PrimitiveBatch::Paths(range)),
            (PrimitiveKind::Underline, _) => Some(PrimitiveBatch::Underlines(range)),
            (PrimitiveKind::MonochromeSprite, Some(texture_id)) => Some(
                PrimitiveBatch::MonochromeSprites { texture_id, range },
            ),
            (PrimitiveKind::SubpixelSprite, Some(texture_id)) => Some(
                PrimitiveBatch::SubpixelSprites { texture_id, range },
            ),
            (PrimitiveKind::PolychromeSprite, Some(texture_id)) => Some(
                PrimitiveBatch::PolychromeSprites { texture_id, range },
            ),
            _ => Some(PrimitiveBatch::Surfaces(range)),
        }
    }

    /// All batches that are left, in drawing order.
    #[verifier::spinoff_prover]
    pub fn into_vec(self) -> (r: Vec<PrimitiveBatch>)
        requires
            self.wf(),
        ensures
            is_batching(
                self.scene@.lanes(),
                self.layered@,
                self.starts@,
                batch_views(r@),
            ),
    {
        let ghost (lanes, edges, starts) = (self.scene@.lanes(), self.layered@, self.starts@);
        let mut rest = self;
        let mut r: Vec<PrimitiveBatch> = Vec::new();
        loop
            invariant
                (lanes, edges, starts) == (self.scene@.lanes(), self.layered@, self.starts@),
                rest.wf(),
                rest.scene@.lanes() == lanes,
                rest.layered@ == edges,
                rest.starts@ == drawn(starts, batch_views(r@)),
                hands_out(lanes, edges, starts, batch_views(r@)),
            decreases left_to_draw(lanes, rest.starts@),
        {
            let ghost before = rest.starts@;
            let ghost views = batch_views(r@);
            match rest.next() {
                Some(batch) => {
                    proof {
                        batch_continues_its_kind(lanes, edges, before);
                    }
                    r.push(batch);
                    proof {
                        assert(batch_views(r@) =~= views.push(batch@));
                        lemma_one_more_batch(lanes, edges, starts, views, batch@);
                    }
                },
                None => {
                    return r;
                },
            }
        }
    }
}

} // verus!
