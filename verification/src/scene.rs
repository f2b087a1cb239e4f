//! The frame under construction.

use crate::bounds_tree::{BoundsTree, BoundsTreeView, DrawOrder};
use crate::chain::FilterChain;
use crate::filter::{scale_bounds_around, scale_bounds_around_spec, Filter, LayerEffect};
use crate::geometry::{Bounds, Point};
use crate::path::{Path, PathId, PathView};
use crate::primitive::{
    Backdrop, MonochromeSprite, PaintSurface, PolychromeSprite, Primitive, PrimitiveView, Quad,
    Shadow, SubpixelSprite, Underline,
};
use crate::scalar::{Coordinate, Scalar, ScaledPixels};
use crate::scene_laws::chain_runs_from_the_outside_in;
use crate::sort::{is_stable_sort, lemma_stable_sort_of_views, own_key, stable_sort, Keyed};
use std::ops::Range;
use vstd::prelude::*;

verus! {

/// The conversion of a type into itself, `From<T> for T` of the standard library, hands its
/// argument back unchanged.
pub assume_specification<Item>[ <Item as std::convert::From<Item>>::from ](item: Item) -> (r: Item)
    ensures
        r == item,
;

/// One step in the making of a scene.
#[derive(Debug)]
pub enum PaintOperation<S> {
    Primitive(Primitive<S>),
    StartLayer(Bounds<ScaledPixels<S>>),
    EndLayer,
    StartFilter(
        Bounds<ScaledPixels<S>>,
        Point<ScaledPixels<S>>,
        Bounds<ScaledPixels<S>>,
        Filter<S>,
    ),
    EndFilter,
}

/// The contents of a [`PaintOperation`].
#[verifier::ext_equal]
pub enum PaintOperationView<S> {
    Primitive(PrimitiveView<S>),
    StartLayer(Bounds<ScaledPixels<S>>),
    EndLayer,
    StartFilter(
        Bounds<ScaledPixels<S>>,
        Point<ScaledPixels<S>>,
        Bounds<ScaledPixels<S>>,
        Filter<S>,
    ),
    EndFilter,
}

impl<S> View for PaintOperation<S> {
    type V = PaintOperationView<S>;

    open spec fn view(&self) -> PaintOperationView<S> {
        match *self {
            PaintOperation::Primitive(primitive) => PaintOperationView::Primitive(primitive@),
            PaintOperation::StartLayer(bounds) => PaintOperationView::StartLayer(bounds),
            PaintOperation::EndLayer => PaintOperationView::EndLayer,
            PaintOperation::StartFilter(bounds, origin, mask, filter) => {
                PaintOperationView::StartFilter(bounds, origin, mask, filter)
            },
            PaintOperation::EndFilter => PaintOperationView::EndFilter,
        }
    }
}

/// Everything that is painted in one frame.
///
/// Primitives are inserted in painting order and get draw orders. When all is painted, `finish`
/// sorts them, and `batches` hands them to the renderer.
#[derive(Debug)]
pub struct Scene<S> {
    /// The steps that made the scene, for `replay`.
    pub paint_operations: Vec<PaintOperation<S>>,
    /// Gives out the draw orders.
    pub primitive_bounds: BoundsTree<ScaledPixels<S>>,
    /// The draw orders of the stacking layers that are open, outermost first.
    pub layer_stack: Vec<DrawOrder>,
    pub shadows: Vec<Shadow<S>>,
    pub backdrops: Vec<Backdrop<S>>,
    /// The filtered layers, in the order in which they were opened.
    pub effects: Vec<LayerEffect<S>>,
    /// The indices of the filtered layers that are open, outermost first.
    pub effect_stack: Vec<usize>,
    pub quads: Vec<Quad<S>>,
    pub paths: Vec<Path<ScaledPixels<S>, S>>,
    pub underlines: Vec<Underline<S>>,
    pub monochrome_sprites: Vec<MonochromeSprite<S>>,
    pub subpixel_sprites: Vec<SubpixelSprite<S>>,
    pub polychrome_sprites: Vec<PolychromeSprite<S>>,
    pub surfaces: Vec<PaintSurface<S>>,
}

/// The contents of a [`Scene`].
#[verifier::ext_equal]
pub struct SceneView<S> {
    pub paint_operations: Seq<PaintOperationView<S>>,
    pub tree: BoundsTreeView<ScaledPixels<S>>,
    pub layer_stack: Seq<DrawOrder>,
    pub shadows: Seq<Shadow<S>>,
    pub backdrops: Seq<Backdrop<S>>,
    pub effects: Seq<LayerEffect<S>>,
    pub effect_stack: Seq<usize>,
    pub quads: Seq<Quad<S>>,
    pub paths: Seq<PathView<ScaledPixels<S>, S>>,
    pub underlines: Seq<Underline<S>>,
    pub monochrome_sprites: Seq<MonochromeSprite<S>>,
    pub subpixel_sprites: Seq<SubpixelSprite<S>>,
    pub polychrome_sprites: Seq<PolychromeSprite<S>>,
    pub surfaces: Seq<PaintSurface<S>>,
}

pub open spec fn operation_views<S>(ops: Seq<PaintOperation<S>>) -> Seq<PaintOperationView<S>> {
    ops.map_values(|op: PaintOperation<S>| op@)
}

pub open spec fn path_views<S>(paths: Seq<Path<ScaledPixels<S>, S>>) -> Seq<
    PathView<ScaledPixels<S>, S>,
> {
    paths.map_values(|path: Path<ScaledPixels<S>, S>| path@)
}

impl<S: Scalar> View for Scene<S> {
    type V = SceneView<S>;

    open spec fn view(&self) -> SceneView<S> {
        SceneView {
            paint_operations: operation_views(self.paint_operations@),
            tree: self.primitive_bounds@,
            layer_stack: self.layer_stack@,
            shadows: self.shadows@,
            backdrops: self.backdrops@,
            effects: self.effects@,
            effect_stack: self.effect_stack@,
            quads: self.quads@,
            paths: path_views(self.paths@),
            underlines: self.underlines@,
            monochrome_sprites: self.monochrome_sprites@,
            subpixel_sprites: self.subpixel_sprites@,
            polychrome_sprites: self.polychrome_sprites@,
            surfaces: self.surfaces@,
        }
    }
}

/// Whether no layer opened before an earlier one.
pub open spec fn starts_sorted<S>(effects: Seq<LayerEffect<S>>) -> bool {
    forall|i: int, j: int|
        0 <= i <= j < effects.len() ==> (#[trigger] effects[i]).start <= (
        #[trigger] effects[j]).start
}

/// Whether each layer is enclosed by an earlier one, if any.
pub open spec fn parents_first<S>(effects: Seq<LayerEffect<S>>) -> bool {
    forall|i: int|
        0 <= i < effects.len() ==> ((#[trigger] effects[i]).parent matches Some(p) ==> p < i)
}

/// Whether every layer opened after the one before it and is enclosed by an earlier one, if any.
pub open spec fn effects_wf<S>(effects: Seq<LayerEffect<S>>) -> bool {
    &&& forall|i: int, j: int|
        0 <= i < j < effects.len() ==> (#[trigger] effects[i]).start < (#[trigger] effects[j]).start
    &&& parents_first(effects)
}

/// Whether `found` is the innermost layer that holds `order`, or none holds it.
pub open spec fn is_innermost_at<S: Scalar>(
    effects: Seq<LayerEffect<S>>,
    order: DrawOrder,
    found: Option<usize>,
) -> bool {
    match found {
        Some(index) => {
            &&& index < effects.len()
            &&& effects[index as int].holds(order)
            &&& forall|i: int|
                index < i < effects.len() ==> !(#[trigger] effects[i]).holds(order)
        },
        None => forall|i: int| 0 <= i < effects.len() ==> !(#[trigger] effects[i]).holds(order),
    }
}

/// A layer and everything that encloses it, outermost first.
pub open spec fn enclosing<S>(effects: Seq<LayerEffect<S>>, index: int) -> Seq<usize>
    decreases index,
{
    match effects[index].parent {
        Some(p) if 0 <= p < index => enclosing(effects, p as int).push(index as usize),
        _ => seq![index as usize],
    }
}

/// Whether `chain` leads to a layer from the outside in: it ends with the layer, it begins with one
/// that nothing encloses, and each comes right after the one that encloses it. So it rises.
pub open spec fn leads_to<S>(
    chain: Seq<usize>,
    effects: Seq<LayerEffect<S>>,
    index: usize,
) -> bool {
    &&& chain.len() > 0
    &&& chain.last() == index
    &&& effects[chain[0] as int].parent is None
    &&& forall|k: int|
        #![trigger chain[k]]
        0 < k < chain.len() ==> effects[chain[k] as int].parent == Some(chain[k - 1])
    &&& forall|i: int, k: int|
        0 <= i < k < chain.len() ==> #[trigger] chain[i] < #[trigger] chain[k]
    &&& forall|k: int| 0 <= k < chain.len() ==> #[trigger] chain[k] <= index
}

impl<S: Scalar> SceneView<S> {
    pub open spec fn empty() -> Self {
        SceneView {
            paint_operations: Seq::empty(),
            tree: BoundsTreeView::empty(),
            layer_stack: Seq::empty(),
            shadows: Seq::empty(),
            backdrops: Seq::empty(),
            effects: Seq::empty(),
            effect_stack: Seq::empty(),
            quads: Seq::empty(),
            paths: Seq::empty(),
            underlines: Seq::empty(),
            monochrome_sprites: Seq::empty(),
            subpixel_sprites: Seq::empty(),
            polychrome_sprites: Seq::empty(),
            surfaces: Seq::empty(),
        }
    }

    /// Whether the layers that are open are layers of the scene.
    pub open spec fn stack_in_range(self) -> bool {
        forall|i: int|
            0 <= i < self.effect_stack.len() ==> #[trigger] self.effect_stack[i]
                < self.effects.len()
    }

    /// Whether painting can go on. Nothing is asked of the layers themselves.
    pub open spec fn can_paint(self) -> bool {
        self.tree.wf() && self.stack_in_range()
    }

    /// What every operation keeps.
    pub open spec fn wf(self) -> bool {
        &&& self.tree.wf()
        &&& forall|i: int|
            0 <= i < self.layer_stack.len() ==> #[trigger] self.layer_stack[i] <= self.tree.top
        &&& effects_wf(self.effects)
        &&& forall|i: int|
            0 <= i < self.effects.len() ==> (#[trigger] self.effects[i]).start <= self.tree.top
        &&& self.stack_in_range()
        &&& forall|i: int, j: int|
            0 <= i < j < self.effect_stack.len() ==> #[trigger] self.effect_stack[i]
                < #[trigger] self.effect_stack[j]
    }

    pub open spec fn record(self, op: PaintOperationView<S>) -> Self {
        SceneView { paint_operations: self.paint_operations.push(op), ..self }
    }

    pub open spec fn push_layer(self, bounds: Bounds<ScaledPixels<S>>) -> Self {
        SceneView {
            tree: self.tree.insert(bounds),
            layer_stack: self.layer_stack.push(self.tree.next_order(bounds)),
            ..self
        }.record(PaintOperationView::StartLayer(bounds))
    }

    pub open spec fn pop_layer(self) -> Self {
        SceneView {
            layer_stack: if self.layer_stack.len() > 0 {
                self.layer_stack.drop_last()
            } else {
                self.layer_stack
            },
            ..self
        }.record(PaintOperationView::EndLayer)
    }

    /// The layer that `push_filter` opens.
    pub open spec fn new_effect(
        self,
        source_bounds: Bounds<ScaledPixels<S>>,
        transform_origin: Point<ScaledPixels<S>>,
        content_mask: Bounds<ScaledPixels<S>>,
        filter: Filter<S>,
    ) -> LayerEffect<S> {
        let scaled = scale_bounds_around_spec(source_bounds, transform_origin, filter.scale);
        LayerEffect {
            start: self.tree.barrier_order(),
            end: DrawOrder::MAX,
            source_bounds,
            transform_origin,
            destination_bounds: Bounds {
                origin: scaled.origin.plus_spec(filter.translate),
                size: scaled.size,
            },
            content_mask,
            filter,
            parent: if self.effect_stack.len() > 0 {
                Some(self.effect_stack.last())
            } else {
                None
            },
        }
    }

    pub open spec fn push_filter(
        self,
        source_bounds: Bounds<ScaledPixels<S>>,
        transform_origin: Point<ScaledPixels<S>>,
        content_mask: Bounds<ScaledPixels<S>>,
        filter: Filter<S>,
    ) -> Self {
        SceneView {
            tree: self.tree.barrier(),
            effects: self.effects.push(
                self.new_effect(source_bounds, transform_origin, content_mask, filter),
            ),
            effect_stack: self.effect_stack.push(self.effects.len() as usize),
            ..self
        }.record(
            PaintOperationView::StartFilter(source_bounds, transform_origin, content_mask, filter),
        )
    }

    pub open spec fn pop_filter(self) -> Self {
        let closed = if self.effect_stack.len() > 0 {
            let index = self.effect_stack.last() as int;
            SceneView {
                tree: self.tree.barrier(),
                effects: self.effects.update(
                    index,
                    LayerEffect { end: self.tree.barrier_order(), ..self.effects[index] },
                ),
                effect_stack: self.effect_stack.drop_last(),
                ..self
            }
        } else {
            self
        };
        closed.record(PaintOperationView::EndFilter)
    }

    /// The scene with one more primitive in its place.
    pub open spec fn with_primitive(self, primitive: PrimitiveView<S>) -> Self {
        match primitive {
            PrimitiveView::Shadow(shadow) => SceneView {
                shadows: self.shadows.push(shadow),
                ..self
            },
            PrimitiveView::Backdrop(backdrop) => SceneView {
                backdrops: self.backdrops.push(backdrop),
                ..self
            },
            PrimitiveView::Quad(quad) => SceneView { quads: self.quads.push(quad), ..self },
            PrimitiveView::Path(path) => SceneView { paths: self.paths.push(path), ..self },
            PrimitiveView::Underline(underline) => SceneView {
                underlines: self.underlines.push(underline),
                ..self
            },
            PrimitiveView::MonochromeSprite(sprite) => SceneView {
                monochrome_sprites: self.monochrome_sprites.push(sprite),
                ..self
            },
            PrimitiveView::SubpixelSprite(sprite) => SceneView {
                subpixel_sprites: self.subpixel_sprites.push(sprite),
                ..self
            },
            PrimitiveView::PolychromeSprite(sprite) => SceneView {
                polychrome_sprites: self.polychrome_sprites.push(sprite),
                ..self
            },
            PrimitiveView::Surface(surface) => SceneView {
                surfaces: self.surfaces.push(surface),
                ..self
            },
        }
    }

    /// Whether primitives are painted into a stacking layer. One that was started before the
    /// innermost open filtered layer is out of reach: it is drawn below all that the filtered layer
    /// contains.
    pub open spec fn in_layer(self) -> bool {
        &&& self.layer_stack.len() > 0
        &&& self.effect_stack.len() > 0 ==> self.effects[self.effect_stack.last() as int].start
            < self.layer_stack.last()
    }

    /// The order that a primitive with the given visible part is drawn at: that of the stacking
    /// layer it is painted into, or else one of its own.
    pub open spec fn order_for(self, clipped: Bounds<ScaledPixels<S>>) -> DrawOrder {
        if self.in_layer() {
            self.layer_stack.last()
        } else {
            self.tree.next_order(clipped)
        }
    }

    pub open spec fn insert_primitive(self, primitive: PrimitiveView<S>) -> Self {
        let clipped = primitive.clipped_bounds();
        if clipped.is_empty_spec() {
            self
        } else {
            let placed = primitive.placed(
                self.order_for(clipped),
                PathId(self.paths.len() as usize),
            );
            SceneView {
                tree: if self.in_layer() {
                    self.tree
                } else {
                    self.tree.insert(clipped)
                },
                ..self
            }.with_primitive(placed).record(PaintOperationView::Primitive(placed))
        }
    }

    /// The scene after one more step.
    pub open spec fn apply(self, op: PaintOperationView<S>) -> Self {
        match op {
            PaintOperationView::Primitive(primitive) => self.insert_primitive(primitive),
            PaintOperationView::StartLayer(bounds) => self.push_layer(bounds),
            PaintOperationView::EndLayer => self.pop_layer(),
            PaintOperationView::StartFilter(bounds, origin, mask, filter) => self.push_filter(
                bounds,
                origin,
                mask,
                filter,
            ),
            PaintOperationView::EndFilter => self.pop_filter(),
        }
    }

    /// The scene after all the given steps.
    pub open spec fn apply_all(self, ops: Seq<PaintOperationView<S>>) -> Self
        decreases ops.len(),
    {
        if ops.len() == 0 {
            self
        } else {
            self.apply_all(ops.drop_last()).apply(ops.last())
        }
    }

    /// Whether there is a draw order left for the step, if it takes one.
    pub open spec fn has_room_for(self, op: PaintOperationView<S>) -> bool {
        match op {
            PaintOperationView::Primitive(primitive) => {
                ||| self.in_layer()
                ||| primitive.clipped_bounds().is_empty_spec()
                ||| self.tree.has_room()
            },
            PaintOperationView::StartLayer(_) => self.tree.has_room(),
            PaintOperationView::EndLayer => true,
            PaintOperationView::StartFilter(_, _, _, _) => self.tree.has_room(),
            PaintOperationView::EndFilter => self.effect_stack.len() > 0 ==> self.tree.has_room(),
        }
    }

    /// Whether there is a draw order left for each of the steps that takes one.
    pub open spec fn has_room_for_all(self, ops: Seq<PaintOperationView<S>>) -> bool
        decreases ops.len(),
    {
        ops.len() > 0 ==> {
            &&& self.has_room_for_all(ops.drop_last())
            &&& self.apply_all(ops.drop_last()).has_room_for(ops.last())
        }
    }

    /// The filtered layers once those that are still open are closed: a layer that was left open
    /// holds nothing.
    pub open spec fn closed_effects(self) -> Seq<LayerEffect<S>> {
        Seq::new(
            self.effects.len(),
            |i: int|
                if self.effect_stack.contains(i as usize) {
                    LayerEffect { end: self.effects[i].start, ..self.effects[i] }
                } else {
                    self.effects[i]
                },
        )
    }

    /// Whether `finish` turns the scene into `after`.
    pub open spec fn finishes_to(self, after: Self) -> bool {
        &&& after.paint_operations == self.paint_operations
        &&& after.tree == self.tree
        &&& after.layer_stack == self.layer_stack
        &&& after.effects == self.closed_effects()
        &&& after.effect_stack == Seq::<usize>::empty()
        &&& is_stable_sort(self.shadows, after.shadows, |p: Shadow<S>| p.key_spec())
        &&& is_stable_sort(self.backdrops, after.backdrops, |p: Backdrop<S>| p.key_spec())
        &&& is_stable_sort(self.quads, after.quads, |p: Quad<S>| p.key_spec())
        &&& is_stable_sort(
            self.paths,
            after.paths,
            |p: PathView<ScaledPixels<S>, S>| (p.order, 0u32),
        )
        &&& is_stable_sort(self.underlines, after.underlines, |p: Underline<S>| p.key_spec())
        &&& is_stable_sort(
            self.monochrome_sprites,
            after.monochrome_sprites,
            |p: MonochromeSprite<S>| p.key_spec(),
        )
        &&& is_stable_sort(
            self.subpixel_sprites,
            after.subpixel_sprites,
            |p: SubpixelSprite<S>| p.key_spec(),
        )
        &&& is_stable_sort(
            self.polychrome_sprites,
            after.polychrome_sprites,
            |p: PolychromeSprite<S>| p.key_spec(),
        )
        &&& is_stable_sort(self.surfaces, after.surfaces, |p: PaintSurface<S>| p.key_spec())
    }
}

impl<S: Scalar> Default for Scene<S> {
    /// A scene without contents.
    fn default() -> (r: Self)
        ensures
            r@ == SceneView::<S>::empty(),
            r@.wf(),
    {
        let r = Scene {
            paint_operations: Vec::new(),
            primitive_bounds: BoundsTree::new(),
            layer_stack: Vec::new(),
            shadows: Vec::new(),
            backdrops: Vec::new(),
            effects: Vec::new(),
            effect_stack: Vec::new(),
            quads: Vec::new(),
            paths: Vec::new(),
            underlines: Vec::new(),
            monochrome_sprites: Vec::new(),
            subpixel_sprites: Vec::new(),
            polychrome_sprites: Vec::new(),
            surfaces: Vec::new(),
        };
        assert(r@ =~= SceneView::<S>::empty());
        r
    }
}

impl<S: Scalar> Scene<S> {
    /// Makes the scene empty again.
    pub fn clear(&mut self)
        ensures
            final(self)@ == SceneView::<S>::empty(),
            final(self)@.wf(),
    {
        self.paint_operations.clear();
        self.primitive_bounds.clear();
        self.layer_stack.clear();
        self.paths.clear();
        self.shadows.clear();
        self.backdrops.clear();
        self.effects.clear();
        self.effect_stack.clear();
        self.quads.clear();
        self.underlines.clear();
        self.monochrome_sprites.clear();
        self.subpixel_sprites.clear();
        self.polychrome_sprites.clear();
        self.surfaces.clear();
        assert(self@ =~= SceneView::<S>::empty());
    }

    /// How many steps made the scene.
    pub fn len(&self) -> (r: usize)
        ensures
            r == self@.paint_operations.len(),
    {
        self.paint_operations.len()
    }

    /// How many more draw orders can be given for certain. No step takes more than one.
    pub fn orders_left(&self) -> (r: DrawOrder)
        requires
            self@.tree.wf(),
        ensures
            r == DrawOrder::MAX - 1 - self@.tree.top,
    {
        self.primitive_bounds.orders_left()
    }

    /// Starts a stacking layer: until it ends, all primitives are drawn at its order, but for those
    /// inside a filtered layer that is started within it.
    pub fn push_layer(&mut self, bounds: Bounds<ScaledPixels<S>>)
        requires
            old(self)@.can_paint(),
            old(self)@.has_room_for(PaintOperationView::StartLayer(bounds)),
        ensures
            final(self)@ == old(self)@.push_layer(bounds),
            final(self)@.can_paint(),
            old(self)@.wf() ==> final(self)@.wf(),
    {
        let order = self.primitive_bounds.insert(bounds);
        self.layer_stack.push(order);
        self.paint_operations.push(PaintOperation::StartLayer(bounds));
        assert(self@ =~= old(self)@.push_layer(bounds));
    }

    /// Ends the innermost stacking layer.
    pub fn pop_layer(&mut self)
        ensures
            final(self)@ == old(self)@.pop_layer(),
            old(self)@.can_paint() ==> final(self)@.can_paint(),
            old(self)@.wf() ==> final(self)@.wf(),
    {
        self.layer_stack.pop();
        self.paint_operations.push(PaintOperation::EndLayer);
        assert(self@ =~= old(self)@.pop_layer());
    }

    /// Starts a layer that is drawn offscreen, put through the given filter, and composited back.
    ///
    /// The layer claims a range of orders nothing outside it can share: the barriers on either end
    /// keep the rest of the frame out of it, while its contents order among themselves the way
    /// they would anywhere else, so a quad still covers an image painted before it.
    pub fn push_filter(
        &mut self,
        source_bounds: Bounds<ScaledPixels<S>>,
        transform_origin: Point<ScaledPixels<S>>,
        content_mask: Bounds<ScaledPixels<S>>,
        filter: Filter<S>,
    )
        requires
            old(self)@.can_paint(),
            old(self)@.has_room_for(
                PaintOperationView::StartFilter(
                    source_bounds,
                    transform_origin,
                    content_mask,
                    filter,
                ),
            ),
        ensures
            final(self)@ == old(self)@.push_filter(
                source_bounds,
                transform_origin,
                content_mask,
                filter,
            ),
            final(self)@.can_paint(),
            old(self)@.wf() ==> final(self)@.wf(),
    {
        let start = self.primitive_bounds.barrier();
        let scaled = scale_bounds_around(source_bounds, transform_origin, filter.scale);
        let destination_bounds = Bounds {
            origin: scaled.origin.plus(filter.translate),
            size: scaled.size,
        };
        let depth = self.effect_stack.len();
        let parent = if depth > 0 {
            Some(self.effect_stack[depth - 1])
        } else {
            None
        };
        let index = self.effects.len();
        self.effects.push(
            LayerEffect {
                start,
                end: DrawOrder::MAX,
                source_bounds,
                transform_origin,
                destination_bounds,
                content_mask,
                filter,
                parent,
            },
        );
        self.effect_stack.push(index);
        self.paint_operations.push(
            PaintOperation::StartFilter(source_bounds, transform_origin, content_mask, filter),
        );
        assert(self@ =~= old(self)@.push_filter(
            source_bounds,
            transform_origin,
            content_mask,
            filter,
        ));
    }

    /// Ends the innermost filtered layer.
    pub fn pop_filter(&mut self)
        requires
            old(self)@.can_paint(),
            old(self)@.has_room_for(PaintOperationView::EndFilter),
        ensures
            final(self)@ == old(self)@.pop_filter(),
            final(self)@.can_paint(),
            old(self)@.wf() ==> final(self)@.wf(),
    {
        if let Some(index) = self.effect_stack.pop() {
            assert(index == old(self)@.effect_stack.last());
            let mut layer = self.effects[index];
            layer.end = self.primitive_bounds.barrier();
            self.effects.set(index, layer);
        }
        self.paint_operations.push(PaintOperation::EndFilter);
        assert(self@ =~= old(self)@.pop_filter());
    }

    /// The innermost layer a primitive drawn at the given order belongs to, if any.
    ///
    /// Membership is a range rather than an exact order: elements open stacking layers of their
    /// own inside a filtered subtree, and their primitives carry those orders instead.
    pub fn filtered(&self, order: DrawOrder) -> (r: Option<usize>)
        requires
            starts_sorted(self@.effects),
        ensures
            is_innermost_at(self@.effects, order, r),
    {
        // The layers from `high` on opened after `order`, those before `low` did not.
        let mut low: usize = 0;
        let mut high: usize = self.effects.len();
        while low < high
            invariant
                low <= high <= self.effects.len(),
                starts_sorted(self.effects@),
                forall|i: int| 0 <= i < low ==> (#[trigger] self.effects@[i]).start <= order,
                forall|i: int|
                    high <= i < self.effects.len() ==> order < (#[trigger] self.effects@[i]).start,
            decreases high - low,
        {
            let middle = low + (high - low) / 2;
            if self.effects[middle].start <= order {
                low = middle + 1;
            } else {
                high = middle;
            }
        }
        let mut index: usize = low;
        while index > 0
            invariant
                index <= low <= self.effects.len(),
                forall|i: int| 0 <= i < low ==> (#[trigger] self.effects@[i]).start <= order,
                forall|i: int|
                    index <= i < self.effects.len() ==> !(#[trigger] self.effects@[i]).holds(order),
            decreases index,
        {
            index -= 1;
            if self.effects[index].end > order {
                return Some(index);
            }
        }
        None
    }

    /// A layer and everything that encloses it, outermost first.
    pub fn filter_chain(&self, index: usize) -> (r: Vec<usize>)
        requires
            parents_first(self@.effects),
            index < self@.effects.len(),
        ensures
            r@ == enclosing(self@.effects, index as int),
            leads_to(r@, self@.effects, index),
    {
        self.filter_chain_small(index).into_vec()
    }

    /// The stack-backed form used by renderers while walking every primitive batch.
    pub fn filter_chain_small(&self, index: usize) -> (r: FilterChain)
        requires
            parents_first(self@.effects),
            index < self@.effects.len(),
        ensures
            r@ == enclosing(self@.effects, index as int),
            leads_to(r@, self@.effects, index),
    {
        let mut chain = FilterChain::new();
        chain.push(index);
        let mut innermost = index;
        let mut walk = self.effects[index].parent;
        let ghost whole = enclosing(self.effects@, index as int);
        assert(chain@.reverse() =~= seq![index]);
        while walk.is_some()
            invariant
                parents_first(self.effects@),
                innermost < self.effects.len(),
                walk == self.effects@[innermost as int].parent,
                walk matches Some(p) ==> whole == enclosing(self.effects@, p as int)
                    + chain@.reverse(),
                walk is None ==> whole == chain@.reverse(),
            decreases innermost,
        {
            let ghost before = chain@;
            let parent = walk.unwrap();
            chain.push(parent);
            assert(chain@.reverse() =~= seq![parent] + before.reverse());
            innermost = parent;
            walk = self.effects[parent].parent;
        }
        chain.reverse();
        proof {
            chain_runs_from_the_outside_in(self.effects@, index);
        }
        chain
    }

    /// Adds a primitive, unless its content mask hides all of it.
    pub fn insert_primitive<P: Into<Primitive<S>>>(&mut self, primitive: P)
        requires
            old(self)@.can_paint(),
            forall|converted: Primitive<S>| #[trigger]
                call_ensures(<P as Into<Primitive<S>>>::into, (primitive,), converted)
                    ==> old(self)@.has_room_for(PaintOperationView::Primitive(converted@)),
        ensures
            exists|converted: Primitive<S>| #[trigger]
                call_ensures(<P as Into<Primitive<S>>>::into, (primitive,), converted)
                    && final(self)@ == old(self)@.insert_primitive(converted@),
            final(self)@.can_paint(),
            old(self)@.wf() ==> final(self)@.wf(),
    {
        self.place(primitive.into());
    }

    /// The order of the stacking layer that primitives are painted into, if any.
    pub fn layer_order(&self) -> (r: Option<DrawOrder>)
        requires
            self@.stack_in_range(),
        ensures
            r == if self@.in_layer() {
                Some(self@.layer_stack.last())
            } else {
                None
            },
    {
        let (layers, filters) = (self.layer_stack.len(), self.effect_stack.len());
        if layers == 0 {
            return None;
        }
        let order = self.layer_stack[layers - 1];
        if filters > 0 {
            let innermost = self.effect_stack[filters - 1];
            assert(innermost == self@.effect_stack.last());
            if self.effects[innermost].start >= order {
                return None;
            }
        }
        Some(order)
    }

    fn place(&mut self, primitive: Primitive<S>)
        requires
            old(self)@.can_paint(),
            old(self)@.has_room_for(PaintOperationView::Primitive(primitive@)),
        ensures
            final(self)@ == old(self)@.insert_primitive(primitive@),
            final(self)@.can_paint(),
            old(self)@.wf() ==> final(self)@.wf(),
    {
        let clipped_bounds = primitive.bounds().intersect(primitive.content_mask().bounds);
        if clipped_bounds.is_empty() {
            return;
        }
        let order = match self.layer_order() {
            Some(order) => order,
            None => self.primitive_bounds.insert(clipped_bounds),
        };
        let ghost shown = primitive@;
        let primitive = match primitive {
            Primitive::Shadow(shadow) => {
                let shadow = Shadow { order, ..shadow };
                self.shadows.push(shadow);
                Primitive::Shadow(shadow)
            },
            Primitive::Backdrop(backdrop) => {
                let backdrop = Backdrop { order, ..backdrop };
                self.backdrops.push(backdrop);
                Primitive::Backdrop(backdrop)
            },
            Primitive::Quad(quad) => {
                let quad = Quad { order, ..quad };
                self.quads.push(quad);
                Primitive::Quad(quad)
            },
            Primitive::Path(path) => {
                let path = path.placed(order, PathId(self.paths.len()));
                self.paths.push(path.clone());
                Primitive::Path(path)
            },
            Primitive::Underline(underline) => {
                let underline = Underline { order, ..underline };
                self.underlines.push(underline);
                Primitive::Underline(underline)
            },
            Primitive::MonochromeSprite(sprite) => {
                let sprite = MonochromeSprite { order, ..sprite };
                self.monochrome_sprites.push(sprite);
                Primitive::MonochromeSprite(sprite)
            },
            Primitive::SubpixelSprite(sprite) => {
                let sprite = SubpixelSprite { order, ..sprite };
                self.subpixel_sprites.push(sprite);
                Primitive::SubpixelSprite(sprite)
            },
            Primitive::PolychromeSprite(sprite) => {
                let sprite = PolychromeSprite { order, ..sprite };
                self.polychrome_sprites.push(sprite);
                Primitive::PolychromeSprite(sprite)
            },
            Primitive::Surface(surface) => {
                let surface = PaintSurface { order, ..surface };
                self.surfaces.push(surface);
                Primitive::Surface(surface)
            },
        };
        self.paint_operations.push(PaintOperation::Primitive(primitive));
        assert(self@ =~= old(self)@.insert_primitive(shown));
    }

    /// Repeats a range of the steps that made another scene.
    pub fn replay(&mut self, range: Range<usize>, prev_scene: &Scene<S>)
        requires
            old(self)@.can_paint(),
            range.start <= range.end <= prev_scene@.paint_operations.len(),
            old(self)@.has_room_for_all(
                prev_scene@.paint_operations.subrange(range.start as int, range.end as int),
            ),
        ensures
            final(self)@ == old(self)@.apply_all(
                prev_scene@.paint_operations.subrange(range.start as int, range.end as int),
            ),
            final(self)@.can_paint(),
            old(self)@.wf() ==> final(self)@.wf(),
    {
        let ghost ops = prev_scene@.paint_operations.subrange(range.start as int, range.end as int);
        let ghost start = self@;
        let mut i: usize = range.start;
        while i < range.end
            invariant
                range.start <= i <= range.end <= prev_scene@.paint_operations.len(),
                ops == prev_scene@.paint_operations.subrange(range.start as int, range.end as int),
                self@ == start.apply_all(ops.take(i - range.start)),
                self@.can_paint(),
                start.wf() ==> self@.wf(),
                start.has_room_for_all(ops),
            decreases range.end - i,
        {
            let ghost done = i - range.start;
            proof {
                lemma_room_for_prefix(start, ops, done + 1);
                assert(ops.take(done + 1).drop_last() =~= ops.take(done));
                assert(ops.take(done + 1).last() == prev_scene.paint_operations@[i as int]@);
            }
            match &prev_scene.paint_operations[i] {
                PaintOperation::Primitive(primitive) => self.insert_primitive(primitive.clone()),
                PaintOperation::StartLayer(bounds) => self.push_layer(*bounds),
                PaintOperation::EndLayer => self.pop_layer(),
                PaintOperation::StartFilter(bounds, transform_origin, content_mask, filter) => {
                    self.push_filter(*bounds, *transform_origin, *content_mask, *filter)
                },
                PaintOperation::EndFilter => self.pop_filter(),
            }
            i += 1;
        }
        assert(ops.take(i - range.start) =~= ops);
    }

    /// Closes what was left open and sorts the primitives for drawing.
    pub fn finish(&mut self)
        requires
            old(self)@.stack_in_range(),
        ensures
            old(self)@.finishes_to(final(self)@),
            old(self)@.can_paint() ==> final(self)@.can_paint(),
            old(self)@.wf() ==> final(self)@.wf(),
    {
        self.close_effects();
        let ghost paths = self.paths@;
        stable_sort(&mut self.shadows);
        stable_sort(&mut self.backdrops);
        stable_sort(&mut self.quads);
        stable_sort(&mut self.paths);
        stable_sort(&mut self.underlines);
        stable_sort(&mut self.monochrome_sprites);
        stable_sort(&mut self.subpixel_sprites);
        stable_sort(&mut self.polychrome_sprites);
        stable_sort(&mut self.surfaces);
        proof {
            lemma_stable_sort_of_views(
                paths,
                self.paths@,
                |path: Path<ScaledPixels<S>, S>| path@,
                own_key::<Path<ScaledPixels<S>, S>>(),
                |p: PathView<ScaledPixels<S>, S>| (p.order, 0u32),
            );
        }
    }

    /// Closes the filtered layers that were left open. Such a layer would otherwise swallow
    /// everything painted after it.
    fn close_effects(&mut self)
        requires
            old(self)@.stack_in_range(),
        ensures
            final(self)@ == (SceneView {
                effects: old(self)@.closed_effects(),
                effect_stack: Seq::empty(),
                ..old(self)@
            }),
            old(self)@.can_paint() ==> final(self)@.can_paint(),
            old(self)@.wf() ==> final(self)@.wf(),
    {
        let ghost before = self@;
        let ghost mut closed: Set<usize> = Set::empty();
        assert(before.effects.len() == self.effects.len());
        while self.effect_stack.len() > 0
            invariant
                self@ == (SceneView {
                    effects: self@.effects,
                    effect_stack: self@.effect_stack,
                    ..before
                }),
                self@.stack_in_range(),
                before.wf() ==> self@.wf(),
                self@.effects.len() == before.effects.len() <= usize::MAX,
                forall|i: usize| #[trigger]
                    before.effect_stack.contains(i) <==> self@.effect_stack.contains(i)
                        || closed.contains(i),
                forall|i: int|
                    0 <= i < before.effects.len() ==> #[trigger] self@.effects[i]
                        == if closed.contains(i as usize) {
                        LayerEffect { end: before.effects[i].start, ..before.effects[i] }
                    } else {
                        before.effects[i]
                    },
            decreases self.effect_stack.len(),
        {
            let ghost stack = self@.effect_stack;
            let ghost effects = self@.effects;
            let index = self.effect_stack.pop().unwrap();
            assert(stack =~= self@.effect_stack.push(index));
            let mut layer = self.effects[index];
            layer.end = layer.start;
            self.effects.set(index, layer);
            assert(forall|i: int|
                0 <= i < effects.len() ==> (#[trigger] self@.effects[i]).start == effects[i].start
                    && self@.effects[i].parent == effects[i].parent);
            proof {
                assert(forall|k: int|
                    0 <= k < self@.effect_stack.len() ==> #[trigger] self@.effect_stack[k]
                        == stack[k]);
                assert(before.wf() ==> effects_wf(self@.effects));
                assert(self@.layer_stack == before.layer_stack && self@.tree == before.tree);
                closed = closed.insert(index);
                assert forall|i: usize| #[trigger] before.effect_stack.contains(i) implies (
                self@.effect_stack.contains(i) || closed.contains(i)) by {
                    if stack.contains(i) && i != index {
                        let k = choose|k: int| 0 <= k < stack.len() && stack[k] == i;
                        assert(self@.effect_stack[k] == i);
                    }
                }
                assert forall|i: usize|
                    self@.effect_stack.contains(i) || closed.contains(
                        i,
                    ) implies #[trigger] before.effect_stack.contains(i) by {
                    if self@.effect_stack.contains(i) {
                        let k = choose|k: int|
                            0 <= k < self@.effect_stack.len() && self@.effect_stack[k] == i;
                        assert(stack[k] == i);
                    } else if i == index {
                        assert(stack.last() == i);
                    }
                }
            }
        }
        assert(self@ =~= SceneView {
            effects: before.closed_effects(),
            effect_stack: Seq::empty(),
            ..before
        });
    }
}

/// Where there is room for all steps, there is room for the first of them.
proof fn lemma_room_for_prefix<S: Scalar>(
    scene: SceneView<S>,
    ops: Seq<PaintOperationView<S>>,
    n: int,
)
    requires
        scene.has_room_for_all(ops),
        0 <= n <= ops.len(),
    ensures
        scene.has_room_for_all(ops.take(n)),
    decreases ops.len(),
{
    if n == ops.len() {
        assert(ops.take(n) =~= ops);
    } else {
        lemma_room_for_prefix(scene, ops.drop_last(), n);
        assert(ops.drop_last().take(n) =~= ops.take(n));
    }
}

} // verus!
