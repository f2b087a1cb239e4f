//! Which orders rectangles are given.

use crate::bounds_tree::{next_order_is_lowest_above, BoundsTree, DrawOrder};
use crate::chain::FilterChain;
use crate::geometry::{Bounds, Point};
use crate::geometry_laws::{covers, is_line, lemma_shared_point};
use crate::scalar::Coordinate;
use vstd::prelude::*;

verus! {

/// A rectangle gets an order above the latest barrier and above every rectangle that covers any
/// point it covers, and stays in the tree with it. What was there stays as it was.
pub proof fn order_lies_above_what_is_covered<T: Coordinate>(
    tree: &mut BoundsTree<T>,
    bounds: Bounds<T>,
    order: DrawOrder,
)
    requires
        is_line::<T>(),
        old(tree)@.wf(),
        old(tree)@.top < DrawOrder::MAX - 1,
        call_ensures(BoundsTree::<T>::insert, (tree, bounds), order),
    ensures
        order > old(tree)@.floor,
        forall|i: int, p: Point<T>|
            0 <= i < old(tree)@.placed.len() && #[trigger] covers(
                (#[trigger] old(tree)@.placed[i]).bounds,
                p,
            ) && covers(bounds, p) ==> order > old(tree)@.placed[i].order,
        final(tree)@.placed.len() == old(tree)@.placed.len() + 1,
        forall|i: int|
            0 <= i < old(tree)@.placed.len() ==> #[trigger] final(tree)@.placed[i] == old(
                tree,
            )@.placed[i],
        final(tree)@.placed.last().bounds == bounds,
        final(tree)@.placed.last().order == order,
        final(tree)@.floor == old(tree)@.floor,
        final(tree)@.top >= old(tree)@.top && final(tree)@.top >= order,
        final(tree)@.top == old(tree)@.top || final(tree)@.top == order,
{
    next_order_is_lowest_above(old(tree)@, bounds);
    assert forall|i: int, p: Point<T>|
        0 <= i < old(tree)@.placed.len() && #[trigger] covers(
            (#[trigger] old(tree)@.placed[i]).bounds,
            p,
        ) && covers(bounds, p) implies order > old(tree)@.placed[i].order by {
        lemma_shared_point(old(tree)@.placed[i].bounds, bounds, p);
    }
}

/// A rectangle gets no higher an order than it has to: it is the first above the latest barrier, or
/// comes right after that of a rectangle it overlaps.
pub proof fn order_is_no_higher_than_it_has_to_be<T: Coordinate>(
    tree: &mut BoundsTree<T>,
    bounds: Bounds<T>,
    order: DrawOrder,
)
    requires
        old(tree)@.wf(),
        old(tree)@.top < DrawOrder::MAX - 1,
        call_ensures(BoundsTree::<T>::insert, (tree, bounds), order),
    ensures
        order == old(tree)@.floor + 1 || exists|i: int|
            {
                let other = (#[trigger] old(tree)@.placed[i]).bounds;
                &&& 0 <= i < old(tree)@.placed.len()
                &&& order == old(tree)@.placed[i].order + 1
                &&& other.origin.x.less_spec(bounds.origin.x.plus_spec(bounds.size.width))
                &&& bounds.origin.x.less_spec(other.origin.x.plus_spec(other.size.width))
                &&& other.origin.y.less_spec(bounds.origin.y.plus_spec(bounds.size.height))
                &&& bounds.origin.y.less_spec(other.origin.y.plus_spec(other.size.height))
            },
{
    next_order_is_lowest_above(old(tree)@, bounds);
}

/// A barrier gets an order above all that were given, and everything after it lies above it.
pub proof fn barrier_lies_above_everything<T: Coordinate>(
    tree: &mut BoundsTree<T>,
    order: DrawOrder,
    next: &mut BoundsTree<T>,
    bounds: Bounds<T>,
    above: DrawOrder,
)
    requires
        old(tree)@.wf(),
        old(tree)@.top < DrawOrder::MAX - 2,
        call_ensures(BoundsTree::<T>::barrier, (tree,), order),
        *old(next) == *final(tree),
        call_ensures(BoundsTree::<T>::insert, (next, bounds), above),
    ensures
        order == old(tree)@.top + 1,
        forall|i: int|
            0 <= i < old(tree)@.placed.len() ==> (#[trigger] old(tree)@.placed[i]).order < order,
        final(tree)@.placed.len() == 0,
        final(tree)@.floor == order && final(tree)@.top == order,
        above == order + 1,
{
    next_order_is_lowest_above(old(next)@, bounds);
}

/// A new tree and one that was made empty have given no order, and every order can still be given.
pub proof fn empty_tree_has_given_no_order<T: Coordinate>(
    new: BoundsTree<T>,
    emptied: &mut BoundsTree<T>,
    tree: BoundsTree<T>,
    left: DrawOrder,
)
    requires
        call_ensures(BoundsTree::<T>::new, (), new),
        call_ensures(BoundsTree::<T>::clear, (emptied,), ()),
        tree@.wf(),
        call_ensures(BoundsTree::<T>::orders_left, (&tree,), left),
    ensures
        new@.placed.len() == 0 && new@.floor == 0 && new@.top == 0,
        final(emptied)@.placed.len() == 0,
        final(emptied)@.floor == 0 && final(emptied)@.top == 0,
        left + tree@.top == u32::MAX - 1,
{
}

/// A chain hands out what it holds, in order.
pub proof fn chain_hands_out_what_it_holds(
    chain: FilterChain,
    n: usize,
    i: usize,
    layer: usize,
    layers: Vec<usize>,
)
    requires
        call_ensures(FilterChain::len, (&chain,), n),
        i < n,
        call_ensures(FilterChain::get, (&chain, i), layer),
        call_ensures(FilterChain::into_vec, (chain,), layers),
    ensures
        layers@.len() == n,
        layers@[i as int] == layer,
        layers@ == chain@,
{
}

} // verus!
