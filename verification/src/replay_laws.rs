//! Replaying a scene restores it.

use crate::filter::Filter;
use crate::geometry::{Bounds, Point};
use crate::path::{PathId, PathView};
use crate::primitive::{
    Backdrop, MonochromeSprite, PaintSurface, PolychromeSprite, Primitive, PrimitiveView, Quad,
    Shadow, SubpixelSprite, Underline,
};
use crate::scalar::{Scalar, ScaledPixels};
use crate::scene::{PaintOperation, PaintOperationView, Scene, SceneView};
use crate::sort::{stable_sort_is_unique, Keyed};
use crate::step_laws::{lemma_same_view, same_primitives, same_step};
use std::ops::Range;
use vstd::prelude::*;

verus! {

impl<S: Scalar> SceneView<S> {
    /// Whether the recorded steps make the scene.
    pub open spec fn recorded(self) -> bool {
        self == Self::empty().apply_all(self.paint_operations)
    }
}

/// A primitive with its place in a scene is inserted like the one it was made from.
proof fn lemma_insert_again<S: Scalar>(
    scene: SceneView<S>,
    primitive: PrimitiveView<S>,
    placed: PrimitiveView<S>,
)
    requires
        exists|order: u32, id: PathId| placed == #[trigger] primitive.placed(order, id),
    ensures
        scene.insert_primitive(placed) == scene.insert_primitive(primitive),
{
    let (order, id) = choose|order: u32, id: PathId|
        placed == #[trigger] primitive.placed(order, id);
    assert(placed.clipped_bounds() == primitive.clipped_bounds());
    assert(forall|order: u32, id: PathId|
        #[trigger] placed.placed(order, id) == primitive.placed(order, id));
}

/// A scene without contents is made by no steps.
pub proof fn empty_scene_is_recorded<S: Scalar>()
    ensures
        SceneView::<S>::empty().recorded(),
{
}

/// Every step is recorded as one that does the same, or changes nothing.
pub proof fn step_is_recorded<S: Scalar>(scene: SceneView<S>, op: PaintOperationView<S>)
    requires
        scene.recorded(),
    ensures
        scene.apply(op).recorded(),
{
    let after = scene.apply(op);
    if after.paint_operations != scene.paint_operations {
        let ops = after.paint_operations;
        assert(ops.drop_last() =~= scene.paint_operations);
        match op {
            PaintOperationView::Primitive(primitive) => {
                let clipped = primitive.clipped_bounds();
                let order = scene.order_for(clipped);
                let placed = primitive.placed(order, PathId(scene.paths.len() as usize));
                assert(ops.last() == PaintOperationView::Primitive(placed));
                lemma_insert_again(scene, primitive, placed);
            },
            _ => {
                assert(ops.last() == op);
            },
        }
        assert(scene.apply(ops.last()) == after);
    } else {
        assert(after.paint_operations.len() == scene.paint_operations.len());
    }
}

/// Every scene that was made step by step is made again by its recorded steps.
pub proof fn steps_are_recorded<S: Scalar>(scene: SceneView<S>, ops: Seq<PaintOperationView<S>>)
    requires
        scene.recorded(),
    ensures
        scene.apply_all(ops).recorded(),
    decreases ops.len(),
{
    if ops.len() > 0 {
        steps_are_recorded(scene, ops.drop_last());
        step_is_recorded(scene.apply_all(ops.drop_last()), ops.last());
    }
}

/// `finish` has one outcome.
pub proof fn finish_is_deterministic<S: Scalar>(
    before: SceneView<S>,
    a: SceneView<S>,
    b: SceneView<S>,
)
    requires
        before.finishes_to(a),
        before.finishes_to(b),
    ensures
        a == b,
{
    stable_sort_is_unique(before.shadows, a.shadows, b.shadows, |p: Shadow<S>| p.key_spec());
    stable_sort_is_unique(
        before.backdrops,
        a.backdrops,
        b.backdrops,
        |p: Backdrop<S>| p.key_spec(),
    );
    stable_sort_is_unique(before.quads, a.quads, b.quads, |p: Quad<S>| p.key_spec());
    stable_sort_is_unique(
        before.paths,
        a.paths,
        b.paths,
        |p: PathView<ScaledPixels<S>, S>| (p.order, 0u32),
    );
    stable_sort_is_unique(
        before.underlines,
        a.underlines,
        b.underlines,
        |p: Underline<S>| p.key_spec(),
    );
    stable_sort_is_unique(
        before.monochrome_sprites,
        a.monochrome_sprites,
        b.monochrome_sprites,
        |p: MonochromeSprite<S>| p.key_spec(),
    );
    stable_sort_is_unique(
        before.subpixel_sprites,
        a.subpixel_sprites,
        b.subpixel_sprites,
        |p: SubpixelSprite<S>| p.key_spec(),
    );
    stable_sort_is_unique(
        before.polychrome_sprites,
        a.polychrome_sprites,
        b.polychrome_sprites,
        |p: PolychromeSprite<S>| p.key_spec(),
    );
    stable_sort_is_unique(
        before.surfaces,
        a.surfaces,
        b.surfaces,
        |p: PaintSurface<S>| p.key_spec(),
    );
}

/// Steps can be replayed in parts.
pub proof fn replaying_in_parts_is_replaying_at_once<S: Scalar>(
    scene: SceneView<S>,
    first: Seq<PaintOperationView<S>>,
    second: Seq<PaintOperationView<S>>,
)
    ensures
        scene.apply_all(first + second) == scene.apply_all(first).apply_all(second),
    decreases second.len(),
{
    if second.len() == 0 {
        assert(first + second =~= first);
    } else {
        replaying_in_parts_is_replaying_at_once(scene, first, second.drop_last());
        assert((first + second).drop_last() =~= first + second.drop_last());
    }
}

/// A finished scene stays as it is when it is finished again.
pub proof fn finishing_twice_is_finishing_once<S: Scalar>(
    before: SceneView<S>,
    once: SceneView<S>,
    twice: SceneView<S>,
)
    requires
        before.finishes_to(once),
        once.finishes_to(twice),
    ensures
        twice == once,
{
    assert(once.closed_effects() =~= once.effects);
    assert(once.finishes_to(once));
    finish_is_deterministic(once, once, twice);
}

/// Replaying all of a scene into an empty one restores it, its filtered layers included: the
/// replayed scene is the one that was replayed, as it was before it was finished, and finishing
/// both leads to the same scene.
pub proof fn replay_restores_the_scene<S: Scalar>(
    made: SceneView<S>,
    prev: SceneView<S>,
    finished: SceneView<S>,
)
    requires
        made.recorded(),
        made.finishes_to(prev),
        SceneView::<S>::empty().apply_all(prev.paint_operations).finishes_to(finished),
    ensures
        SceneView::<S>::empty().apply_all(made.paint_operations) == made,
        SceneView::<S>::empty().apply_all(prev.paint_operations) == made,
        finished == prev,
{
    finish_is_deterministic(made, finished, prev);
}

/// Whether two scenes are the same: the same primitives, layers, steps and orders given.
pub open spec fn same_scene<S: Scalar>(a: Scene<S>, b: Scene<S>) -> bool {
    &&& same_primitives(a, b)
    &&& a.effects@ == b.effects@
    &&& a.effect_stack@ == b.effect_stack@
    &&& a.layer_stack@ == b.layer_stack@
    &&& a.primitive_bounds@ == b.primitive_bounds@
    &&& a.paint_operations@.len() == b.paint_operations@.len()
    &&& forall|i: int|
        0 <= i < a.paint_operations@.len() ==> same_step(
            #[trigger] a.paint_operations@[i],
            b.paint_operations@[i],
        )
}

/// Scenes that are seen to be the same are the same.
pub proof fn same_view_is_same_scene<S: Scalar>(a: Scene<S>, b: Scene<S>)
    requires
        a@ == b@,
    ensures
        same_scene(a, b),
{
    lemma_same_view(a, b);
    assert(a@.paint_operations.len() == a.paint_operations@.len());
    assert(b@.paint_operations.len() == b.paint_operations@.len());
    assert forall|i: int| 0 <= i < a.paint_operations@.len() implies same_step(
        #[trigger] a.paint_operations@[i],
        b.paint_operations@[i],
    ) by {
        assert(a@.paint_operations[i] == a.paint_operations@[i]@);
        assert(b@.paint_operations[i] == b.paint_operations@[i]@);
    }
}

/// A replay of one step applies that step.
proof fn lemma_replayed_step<S: Scalar>(scene: SceneView<S>, prev: Scene<S>, at: int)
    requires
        0 <= at < prev.paint_operations@.len(),
    ensures
        scene.apply_all(prev@.paint_operations.subrange(at, at + 1)) == scene.apply(
            prev.paint_operations@[at]@,
        ),
{
    let ops = prev@.paint_operations.subrange(at, at + 1);
    assert(prev@.paint_operations[at] == prev.paint_operations@[at]@);
    assert(ops.last() == prev.paint_operations@[at]@);
    assert(ops.drop_last().len() == 0);
    assert(scene.apply_all(ops.drop_last()) == scene);
}

/// Replaying the start of a filtered layer is starting it again with the same bounds, origin, mask
/// and filter.
pub proof fn replaying_a_filter_starts_it_again<S: Scalar>(
    replayed: &mut Scene<S>,
    painted: &mut Scene<S>,
    prev: Scene<S>,
    range: Range<usize>,
    bounds: Bounds<ScaledPixels<S>>,
    origin: Point<ScaledPixels<S>>,
    mask: Bounds<ScaledPixels<S>>,
    filter: Filter<S>,
)
    requires
        *old(replayed) == *old(painted),
        range.start + 1 == range.end <= prev.paint_operations@.len(),
        prev.paint_operations@[range.start as int] == PaintOperation::StartFilter(
            bounds,
            origin,
            mask,
            filter,
        ),
        call_ensures(Scene::<S>::replay, (replayed, range, &prev), ()),
        call_ensures(Scene::<S>::push_filter, (painted, bounds, origin, mask, filter), ()),
    ensures
        same_scene(*final(replayed), *final(painted)),
{
    lemma_replayed_step(old(replayed)@, prev, range.start as int);
    same_view_is_same_scene(*final(replayed), *final(painted));
}

/// Replaying the end of a filtered layer is ending the innermost again.
pub proof fn replaying_the_end_of_a_filter_ends_it_again<S: Scalar>(
    replayed: &mut Scene<S>,
    painted: &mut Scene<S>,
    prev: Scene<S>,
    range: Range<usize>,
)
    requires
        *old(replayed) == *old(painted),
        range.start + 1 == range.end <= prev.paint_operations@.len(),
        prev.paint_operations@[range.start as int] == PaintOperation::<S>::EndFilter,
        call_ensures(Scene::<S>::replay, (replayed, range, &prev), ()),
        call_ensures(Scene::<S>::pop_filter, (painted,), ()),
    ensures
        same_scene(*final(replayed), *final(painted)),
{
    lemma_replayed_step(old(replayed)@, prev, range.start as int);
    same_view_is_same_scene(*final(replayed), *final(painted));
}

/// Replaying the start of a stacking layer is starting it again with the same bounds.
pub proof fn replaying_a_layer_starts_it_again<S: Scalar>(
    replayed: &mut Scene<S>,
    painted: &mut Scene<S>,
    prev: Scene<S>,
    range: Range<usize>,
    bounds: Bounds<ScaledPixels<S>>,
)
    requires
        *old(replayed) == *old(painted),
        range.start + 1 == range.end <= prev.paint_operations@.len(),
        prev.paint_operations@[range.start as int] == PaintOperation::StartLayer(bounds),
        call_ensures(Scene::<S>::replay, (replayed, range, &prev), ()),
        call_ensures(Scene::<S>::push_layer, (painted, bounds), ()),
    ensures
        same_scene(*final(replayed), *final(painted)),
{
    lemma_replayed_step(old(replayed)@, prev, range.start as int);
    same_view_is_same_scene(*final(replayed), *final(painted));
}

/// Replaying the end of a stacking layer is ending the innermost again.
pub proof fn replaying_the_end_of_a_layer_ends_it_again<S: Scalar>(
    replayed: &mut Scene<S>,
    painted: &mut Scene<S>,
    prev: Scene<S>,
    range: Range<usize>,
)
    requires
        *old(replayed) == *old(painted),
        range.start + 1 == range.end <= prev.paint_operations@.len(),
        prev.paint_operations@[range.start as int] == PaintOperation::<S>::EndLayer,
        call_ensures(Scene::<S>::replay, (replayed, range, &prev), ()),
        call_ensures(Scene::<S>::pop_layer, (painted,), ()),
    ensures
        same_scene(*final(replayed), *final(painted)),
{
    lemma_replayed_step(old(replayed)@, prev, range.start as int);
    same_view_is_same_scene(*final(replayed), *final(painted));
}

/// Replaying a primitive is painting it again.
pub proof fn replaying_a_primitive_paints_it_again<S: Scalar>(
    replayed: &mut Scene<S>,
    painted: &mut Scene<S>,
    prev: Scene<S>,
    range: Range<usize>,
    primitive: Primitive<S>,
)
    requires
        *old(replayed) == *old(painted),
        range.start + 1 == range.end <= prev.paint_operations@.len(),
        prev.paint_operations@[range.start as int] == PaintOperation::Primitive(primitive),
        call_ensures(Scene::<S>::replay, (replayed, range, &prev), ()),
        call_ensures(Scene::<S>::insert_primitive::<Primitive<S>>, (painted, primitive), ()),
    ensures
        same_scene(*final(replayed), *final(painted)),
{
    lemma_replayed_step(old(replayed)@, prev, range.start as int);
    same_view_is_same_scene(*final(replayed), *final(painted));
}

/// Replaying no steps changes nothing.
pub proof fn replaying_nothing_changes_nothing<S: Scalar>(
    scene: &mut Scene<S>,
    prev: Scene<S>,
    range: Range<usize>,
)
    requires
        range.start == range.end <= prev.paint_operations@.len(),
        call_ensures(Scene::<S>::replay, (scene, range, &prev), ()),
    ensures
        same_scene(*final(scene), *old(scene)),
{
    assert(prev@.paint_operations.len() == prev.paint_operations@.len());
    same_view_is_same_scene(*final(scene), *old(scene));
}

/// Replaying a range of steps is replaying its parts, one after the other.
pub proof fn replaying_a_range_is_replaying_its_parts<S: Scalar>(
    whole: &mut Scene<S>,
    first: &mut Scene<S>,
    second: &mut Scene<S>,
    prev: Scene<S>,
    range: Range<usize>,
    parts: (Range<usize>, Range<usize>),
)
    requires
        range.end <= prev.paint_operations@.len(),
        range.start == parts.0.start <= parts.0.end == parts.1.start <= parts.1.end == range.end,
        *old(whole) == *old(first),
        *final(first) == *old(second),
        call_ensures(Scene::<S>::replay, (whole, range, &prev), ()),
        call_ensures(Scene::<S>::replay, (first, parts.0, &prev), ()),
        call_ensures(Scene::<S>::replay, (second, parts.1, &prev), ()),
    ensures
        same_scene(*final(second), *final(whole)),
{
    assert(prev@.paint_operations.len() == prev.paint_operations@.len());
    let (a, b, c) = (range.start as int, parts.0.end as int, range.end as int);
    let ops = prev@.paint_operations;
    assert(ops.subrange(a, c) =~= ops.subrange(a, b) + ops.subrange(b, c));
    replaying_in_parts_is_replaying_at_once(
        old(whole)@,
        ops.subrange(a, b),
        ops.subrange(b, c),
    );
    same_view_is_same_scene(*final(second), *final(whole));
}

/// What a new scene holds is what its recorded steps make, and painting keeps it so, whatever is
/// painted.
pub proof fn painting_records_what_it_does<S: Scalar>(
    new: Scene<S>,
    a: &mut Scene<S>,
    b: &mut Scene<S>,
    c: &mut Scene<S>,
    d: &mut Scene<S>,
    e: &mut Scene<S>,
    primitive: Primitive<S>,
    bounds: Bounds<ScaledPixels<S>>,
    filtered: (Bounds<ScaledPixels<S>>, Point<ScaledPixels<S>>, Bounds<ScaledPixels<S>>, Filter<S>),
)
    requires
        call_ensures(<Scene<S> as Default>::default, (), new),
        call_ensures(Scene::<S>::insert_primitive::<Primitive<S>>, (a, primitive), ()),
        call_ensures(Scene::<S>::push_layer, (b, bounds), ()),
        call_ensures(Scene::<S>::pop_layer, (c,), ()),
        call_ensures(
            Scene::<S>::push_filter,
            (d, filtered.0, filtered.1, filtered.2, filtered.3),
            (),
        ),
        call_ensures(Scene::<S>::pop_filter, (e,), ()),
    ensures
        new@.recorded(),
        old(a)@.recorded() ==> final(a)@.recorded(),
        old(b)@.recorded() ==> final(b)@.recorded(),
        old(c)@.recorded() ==> final(c)@.recorded(),
        old(d)@.recorded() ==> final(d)@.recorded(),
        old(e)@.recorded() ==> final(e)@.recorded(),
{
    if old(a)@.recorded() {
        step_is_recorded(old(a)@, PaintOperationView::Primitive(primitive@));
    }
    if old(b)@.recorded() {
        step_is_recorded(old(b)@, PaintOperationView::StartLayer(bounds));
    }
    if old(c)@.recorded() {
        step_is_recorded(old(c)@, PaintOperationView::EndLayer);
    }
    if old(d)@.recorded() {
        step_is_recorded(
            old(d)@,
            PaintOperationView::StartFilter(filtered.0, filtered.1, filtered.2, filtered.3),
        );
    }
    if old(e)@.recorded() {
        step_is_recorded(old(e)@, PaintOperationView::EndFilter);
    }
}

/// A scene that was painted from an empty one is made again by replaying all of it into an empty
/// one, and finishing both leads to the same scene.
pub proof fn replaying_everything_makes_the_scene_again<S: Scalar>(
    made: Scene<S>,
    again: &mut Scene<S>,
    range: Range<usize>,
    finished: &mut Scene<S>,
    finished_again: &mut Scene<S>,
)
    requires
        made@.recorded(),
        call_ensures(<Scene<S> as Default>::default, (), *old(again)),
        range.start == 0 && range.end == made.paint_operations@.len(),
        call_ensures(Scene::<S>::replay, (again, range, &made), ()),
        *old(finished) == made,
        call_ensures(Scene::<S>::finish, (finished,), ()),
        *old(finished_again) == *final(again),
        call_ensures(Scene::<S>::finish, (finished_again,), ()),
    ensures
        same_scene(*final(again), made),
        same_scene(*final(finished_again), *final(finished)),
{
    assert(made@.paint_operations.len() == made.paint_operations@.len());
    assert(made@.paint_operations.subrange(0, range.end as int) =~= made@.paint_operations);
    same_view_is_same_scene(*final(again), made);
    finish_is_deterministic(made@, final(finished_again)@, final(finished)@);
    same_view_is_same_scene(*final(finished_again), *final(finished));
}

} // verus!
