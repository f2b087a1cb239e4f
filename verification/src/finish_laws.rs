//! What finishing a scene does to it.

use crate::bounds_tree::DrawOrder;
use crate::chain::FilterChain;
use crate::drawing_laws::{count_of, is_ready, lemma_lanes, order_of};
use crate::frame_laws::{finish_keeps_consistent, finish_sorts_every_kind};
use crate::path::PathView;
use crate::primitive::{
    Backdrop, MonochromeSprite, PaintSurface, PolychromeSprite, PrimitiveKind, Quad, Shadow,
    SubpixelSprite, Underline,
};
use crate::scalar::{Scalar, ScaledPixels};
use crate::scene::{parents_first, starts_sorted, Scene};
use crate::sort::{
    is_stable_sort, key_at_most, lemma_with_key_push, own_key, stable_sort,
    stable_sort_keeps_items, with_key, Keyed, SortKey,
};
use crate::step_laws::same_step;
use vstd::prelude::*;

verus! {

/// Finishing sorts shadows, backdrops, quads, underlines and surfaces by their orders. Those of one
/// order stay in the order in which they were painted.
pub proof fn finishing_sorts_by_order<S: Scalar>(scene: &mut Scene<S>, order: DrawOrder)
    requires
        call_ensures(Scene::<S>::finish, (scene,), ()),
    ensures
        forall|i: int, j: int|
            0 <= i <= j < final(scene).shadows@.len() ==> (
            #[trigger] final(scene).shadows@[i]).order <= (
            #[trigger] final(scene).shadows@[j]).order,
        final(scene).shadows@.filter(|p: Shadow<S>| p.order == order) == old(
            scene,
        ).shadows@.filter(|p: Shadow<S>| p.order == order),
        forall|i: int, j: int|
            0 <= i <= j < final(scene).backdrops@.len() ==> (
            #[trigger] final(scene).backdrops@[i]).order <= (
            #[trigger] final(scene).backdrops@[j]).order,
        final(scene).backdrops@.filter(|p: Backdrop<S>| p.order == order) == old(
            scene,
        ).backdrops@.filter(|p: Backdrop<S>| p.order == order),
        forall|i: int, j: int|
            0 <= i <= j < final(scene).quads@.len() ==> (
            #[trigger] final(scene).quads@[i]).order <= (
            #[trigger] final(scene).quads@[j]).order,
        final(scene).quads@.filter(|p: Quad<S>| p.order == order) == old(
            scene,
        ).quads@.filter(|p: Quad<S>| p.order == order),
        forall|i: int, j: int|
            0 <= i <= j < final(scene).underlines@.len() ==> (
            #[trigger] final(scene).underlines@[i]).order <= (
            #[trigger] final(scene).underlines@[j]).order,
        final(scene).underlines@.filter(|p: Underline<S>| p.order == order) == old(
            scene,
        ).underlines@.filter(|p: Underline<S>| p.order == order),
        forall|i: int, j: int|
            0 <= i <= j < final(scene).surfaces@.len() ==> (
            #[trigger] final(scene).surfaces@[i]).order <= (
            #[trigger] final(scene).surfaces@[j]).order,
        final(scene).surfaces@.filter(|p: PaintSurface<S>| p.order == order) == old(
            scene,
        ).surfaces@.filter(|p: PaintSurface<S>| p.order == order),
{
    let (before, after) = (old(scene)@, final(scene)@);
    let k = (order, 0u32);
    lemma_sorted(
        before.shadows,
        after.shadows,
        |p: Shadow<S>| p.key_spec(),
        k,
        |p: Shadow<S>| p.order == order,
    );
    lemma_sorted(
        before.backdrops,
        after.backdrops,
        |p: Backdrop<S>| p.key_spec(),
        k,
        |p: Backdrop<S>| p.order == order,
    );
    lemma_sorted(
        before.quads,
        after.quads,
        |p: Quad<S>| p.key_spec(),
        k,
        |p: Quad<S>| p.order == order,
    );
    lemma_sorted(
        before.underlines,
        after.underlines,
        |p: Underline<S>| p.key_spec(),
        k,
        |p: Underline<S>| p.order == order,
    );
    lemma_sorted(
        before.surfaces,
        after.surfaces,
        |p: PaintSurface<S>| p.key_spec(),
        k,
        |p: PaintSurface<S>| p.order == order,
    );
}

/// Finishing sorts sprites by their orders and, at one order, by their tiles. Those of one order
/// and tile stay in the order in which they were painted.
pub proof fn finishing_sorts_sprites_by_order_and_tile<S: Scalar>(
    scene: &mut Scene<S>,
    order: DrawOrder,
    tile: u32,
)
    requires
        call_ensures(Scene::<S>::finish, (scene,), ()),
    ensures
        forall|i: int, j: int|
            0 <= i <= j < final(scene).monochrome_sprites@.len() ==> {
                let (a, b) = (
                    #[trigger] final(scene).monochrome_sprites@[i],
                    #[trigger] final(scene).monochrome_sprites@[j],
                );
                a.order < b.order || (a.order == b.order && a.tile.tile_id.0 <= b.tile.tile_id.0)
            },
        final(scene).monochrome_sprites@.filter(
            |p: MonochromeSprite<S>| p.order == order && p.tile.tile_id.0 == tile,
        ) == old(scene).monochrome_sprites@.filter(
            |p: MonochromeSprite<S>| p.order == order && p.tile.tile_id.0 == tile,
        ),
        forall|i: int, j: int|
            0 <= i <= j < final(scene).subpixel_sprites@.len() ==> {
                let (a, b) = (
                    #[trigger] final(scene).subpixel_sprites@[i],
                    #[trigger] final(scene).subpixel_sprites@[j],
                );
                a.order < b.order || (a.order == b.order && a.tile.tile_id.0 <= b.tile.tile_id.0)
            },
        final(scene).subpixel_sprites@.filter(
            |p: SubpixelSprite<S>| p.order == order && p.tile.tile_id.0 == tile,
        ) == old(scene).subpixel_sprites@.filter(
            |p: SubpixelSprite<S>| p.order == order && p.tile.tile_id.0 == tile,
        ),
        forall|i: int, j: int|
            0 <= i <= j < final(scene).polychrome_sprites@.len() ==> {
                let (a, b) = (
                    #[trigger] final(scene).polychrome_sprites@[i],
                    #[trigger] final(scene).polychrome_sprites@[j],
                );
                a.order < b.order || (a.order == b.order && a.tile.tile_id.0 <= b.tile.tile_id.0)
            },
        final(scene).polychrome_sprites@.filter(
            |p: PolychromeSprite<S>| p.order == order && p.tile.tile_id.0 == tile,
        ) == old(scene).polychrome_sprites@.filter(
            |p: PolychromeSprite<S>| p.order == order && p.tile.tile_id.0 == tile,
        ),
{
    let (before, after) = (old(scene)@, final(scene)@);
    let k = (order, tile);
    lemma_sorted(
        before.monochrome_sprites,
        after.monochrome_sprites,
        |p: MonochromeSprite<S>| p.key_spec(),
        k,
        |p: MonochromeSprite<S>| p.order == order && p.tile.tile_id.0 == tile,
    );
    lemma_sorted(
        before.subpixel_sprites,
        after.subpixel_sprites,
        |p: SubpixelSprite<S>| p.key_spec(),
        k,
        |p: SubpixelSprite<S>| p.order == order && p.tile.tile_id.0 == tile,
    );
    lemma_sorted(
        before.polychrome_sprites,
        after.polychrome_sprites,
        |p: PolychromeSprite<S>| p.key_spec(),
        k,
        |p: PolychromeSprite<S>| p.order == order && p.tile.tile_id.0 == tile,
    );
}

/// Finishing sorts paths by their orders. Those of one order stay in the order in which they were
/// painted.
pub proof fn finishing_sorts_paths_by_order<S: Scalar>(scene: &mut Scene<S>, order: DrawOrder)
    requires
        call_ensures(Scene::<S>::finish, (scene,), ()),
    ensures
        forall|i: int, j: int|
            0 <= i <= j < final(scene).paths@.len() ==> (
            #[trigger] final(scene).paths@[i]).order <= (
            #[trigger] final(scene).paths@[j]).order,
        final(scene)@.paths.filter(|p: PathView<ScaledPixels<S>, S>| p.order == order) == old(
            scene,
        )@.paths.filter(|p: PathView<ScaledPixels<S>, S>| p.order == order),
{
    let (before, after) = (old(scene)@, final(scene)@);
    lemma_sorted(
        before.paths,
        after.paths,
        |p: PathView<ScaledPixels<S>, S>| (p.order, 0u32),
        (order, 0u32),
        |p: PathView<ScaledPixels<S>, S>| p.order == order,
    );
    assert forall|i: int, j: int| 0 <= i <= j < final(scene).paths@.len() implies (
    #[trigger] final(scene).paths@[i]).order <= (#[trigger] final(scene).paths@[j]).order by {
        assert(after.paths[i] == final(scene).paths@[i]@);
        assert(after.paths[j] == final(scene).paths@[j]@);
        assert(key_at_most((after.paths[i].order, 0u32), (after.paths[j].order, 0u32)));
    }
}

/// The items with a key are those that a filter picks, where it picks by that key.
proof fn lemma_with_key_is_filter<A>(
    s: Seq<A>,
    key: spec_fn(A) -> SortKey,
    k: SortKey,
    with: spec_fn(A) -> bool,
)
    requires
        forall|a: A| #[trigger] with(a) <==> key(a) == k,
    ensures
        with_key(s, key, k) == s.filter(with),
    decreases s.len(),
{
    reveal(Seq::filter);
    if s.len() > 0 {
        lemma_with_key_is_filter(s.drop_last(), key, k, with);
        lemma_with_key_push(s.drop_last(), s.last(), key, k);
        assert(s.drop_last().push(s.last()) =~= s);
        assert(with(s.last()) <==> key(s.last()) == k);
    } else {
        assert(with_key(s, key, k) =~= s.filter(with));
    }
}

/// What a stable sort leaves, where `with` picks the items with the key `k`.
proof fn lemma_sorted<A>(
    before: Seq<A>,
    after: Seq<A>,
    key: spec_fn(A) -> SortKey,
    k: SortKey,
    with: spec_fn(A) -> bool,
)
    requires
        is_stable_sort(before, after, key),
        forall|a: A| #[trigger] with(a) <==> key(a) == k,
    ensures
        forall|i: int, j: int|
            0 <= i <= j < after.len() ==> key_at_most(
                key(#[trigger] after[i]),
                key(#[trigger] after[j]),
            ),
        after.filter(with) == before.filter(with),
{
    assert(with_key(after, key, k) == with_key(before, key, k));
    lemma_with_key_is_filter(after, key, k, with);
    lemma_with_key_is_filter(before, key, k, with);
}

/// Sorting puts items in the order of their keys, and leaves those of one key in the order they
/// had. It adds none and loses none.
pub proof fn sorting_orders_by_key<T: Keyed>(v: &mut Vec<T>, key: SortKey, item: T)
    requires
        call_ensures(stable_sort::<T>, (v,), ()),
    ensures
        forall|i: int, j: int|
            0 <= i <= j < final(v)@.len() ==> {
                let (a, b) = (
                    (#[trigger] final(v)@[i]).key_spec(),
                    (#[trigger] final(v)@[j]).key_spec(),
                );
                a.0 < b.0 || (a.0 == b.0 && a.1 <= b.1)
            },
        final(v)@.filter(|t: T| t.key_spec() == key) == old(v)@.filter(
            |t: T| t.key_spec() == key,
        ),
        final(v)@.contains(item) <==> old(v)@.contains(item),
        final(v)@.len() == old(v)@.len(),
{
    lemma_sorted(old(v)@, final(v)@, own_key::<T>(), key, |t: T| t.key_spec() == key);
    stable_sort_keeps_items(old(v)@, final(v)@, own_key::<T>(), item);
    assert forall|i: int, j: int| 0 <= i <= j < final(v)@.len() implies {
        let (a, b) = (
            (#[trigger] final(v)@[i]).key_spec(),
            (#[trigger] final(v)@[j]).key_spec(),
        );
        a.0 < b.0 || (a.0 == b.0 && a.1 <= b.1)
    } by {
        let own = own_key::<T>();
        assert(key_at_most(own(final(v)@[i]), own(final(v)@[j])));
    }
}

/// Finishing empties the filtered layers that were left open, each where it starts. It closes them,
/// and leaves all other layers, the stacking layers, the steps and the orders given as they are.
pub proof fn finishing_empties_what_was_left_open<S: Scalar>(scene: &mut Scene<S>)
    requires
        call_ensures(Scene::<S>::finish, (scene,), ()),
    ensures
        final(scene).effect_stack@.len() == 0,
        final(scene).effects@.len() == old(scene).effects@.len(),
        forall|i: usize|
            i < old(scene).effects@.len() && !#[trigger] old(scene).effect_stack@.contains(i)
                ==> final(scene).effects@[i as int] == old(scene).effects@[i as int],
        forall|i: usize|
            i < old(scene).effects@.len() && #[trigger] old(scene).effect_stack@.contains(i) ==> {
                let (before, after) = (
                    old(scene).effects@[i as int],
                    final(scene).effects@[i as int],
                );
                &&& after.start == before.start
                &&& after.end == before.start
                &&& after.source_bounds == before.source_bounds
                &&& after.transform_origin == before.transform_origin
                &&& after.destination_bounds == before.destination_bounds
                &&& after.content_mask == before.content_mask
                &&& after.filter == before.filter
                &&& after.parent == before.parent
            },
        final(scene).layer_stack@ == old(scene).layer_stack@,
        final(scene).primitive_bounds@ == old(scene).primitive_bounds@,
        final(scene).paint_operations@.len() == old(scene).paint_operations@.len(),
        forall|i: int|
            0 <= i < old(scene).paint_operations@.len() ==> same_step(
                #[trigger] final(scene).paint_operations@[i],
                old(scene).paint_operations@[i],
            ),
{
    let (before, after) = (old(scene)@, final(scene)@);
    assert(before.paint_operations.len() == old(scene).paint_operations@.len());
    assert(after.paint_operations.len() == final(scene).paint_operations@.len());
    assert forall|i: int| 0 <= i < old(scene).paint_operations@.len() implies same_step(
        #[trigger] final(scene).paint_operations@[i],
        old(scene).paint_operations@[i],
    ) by {
        assert(before.paint_operations[i] == old(scene).paint_operations@[i]@);
        assert(after.paint_operations[i] == final(scene).paint_operations@[i]@);
    }
}

/// A scene that was painted step by step is ready to be drawn once it was finished.
pub proof fn finished_scene_is_ready<S: Scalar>(scene: &mut Scene<S>)
    requires
        old(scene)@.consistent(),
        call_ensures(Scene::<S>::finish, (scene,), ()),
    ensures
        is_ready(*final(scene)),
{
    let (before, after) = (old(scene)@, final(scene)@);
    finish_keeps_consistent(before, after);
    finish_sorts_every_kind(before, after);
    assert forall|kind: PrimitiveKind, p: int, q: int|
        #![trigger order_of(*final(scene), kind, p), order_of(*final(scene), kind, q)]
        0 <= p <= q < count_of(*final(scene), kind) implies order_of(*final(scene), kind, p)
        <= order_of(*final(scene), kind, q) < u32::MAX by {
        lemma_lanes(*final(scene), kind, p);
        lemma_lanes(*final(scene), kind, q);
        assert(after.lanes()[kind.rank()][p].order <= after.lanes()[kind.rank()][q].order);
        assert(after.lane(kind)[q].order <= after.tree.top);
    }
}

/// A primitive belongs to the last opened of the filtered layers whose range holds its order: one
/// that starts no later, and ends after it.
pub proof fn filtered_is_the_last_layer_around<S: Scalar>(
    scene: Scene<S>,
    order: DrawOrder,
    found: Option<usize>,
)
    requires
        call_ensures(Scene::<S>::filtered, (&scene, order), found),
    ensures
        found matches Some(index) ==> {
            &&& index < scene.effects@.len()
            &&& scene.effects@[index as int].start <= order < scene.effects@[index as int].end
            &&& forall|i: int|
                index < i < scene.effects@.len() ==> !((#[trigger] scene.effects@[i]).start <= order
                    < scene.effects@[i].end)
        },
        found is None ==> forall|i: int|
            0 <= i < scene.effects@.len() ==> !((#[trigger] scene.effects@[i]).start <= order
                < scene.effects@[i].end),
{
}

/// A chain of layers ends with the one that was asked for, begins with one that nothing encloses,
/// and each is enclosed by the one before it. Both forms of it hold the same.
pub proof fn chain_is_linked_by_parents<S: Scalar>(
    scene: Scene<S>,
    index: usize,
    chain: Vec<usize>,
    small: FilterChain,
)
    requires
        call_ensures(Scene::<S>::filter_chain, (&scene, index), chain),
        call_ensures(Scene::<S>::filter_chain_small, (&scene, index), small),
        parents_first(scene@.effects),
        index < scene.effects@.len(),
    ensures
        chain@.len() > 0,
        chain@[chain@.len() - 1] == index,
        scene.effects@[chain@[0] as int].parent is None,
        forall|k: int|
            #![trigger chain@[k]]
            0 < k < chain@.len() ==> scene.effects@[chain@[k] as int].parent == Some(chain@[k - 1]),
        small@ == chain@,
{
}

/// What is asked of the layers of a scene holds wherever every layer starts after the one before it
/// and is enclosed by an earlier one.
pub proof fn layers_in_order_can_be_searched<S: Scalar>(scene: Scene<S>)
    ensures
        (forall|i: int, j: int|
            0 <= i < j < scene.effects@.len() ==> (#[trigger] scene.effects@[i]).start < (
            #[trigger] scene.effects@[j]).start) ==> starts_sorted(scene@.effects),
        (forall|i: int|
            0 <= i < scene.effects@.len() ==> ((
            #[trigger] scene.effects@[i]).parent matches Some(p) ==> p < i)) ==> parents_first(
            scene@.effects,
        ),
{
}

} // verus!
