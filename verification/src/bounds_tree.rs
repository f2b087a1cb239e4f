//! Draw orders for rectangles: what is painted later over the same area is drawn later.

use crate::geometry::Bounds;
use crate::scalar::Coordinate;
use vstd::prelude::*;

verus! {

/// When a primitive is drawn: lower orders come first. [`DrawOrder::MAX`] is given to no
/// rectangle.
pub type DrawOrder = u32;

/// A rectangle and the order it was given.
#[derive(Clone, Copy, Debug)]
pub struct Placed<T> {
    pub bounds: Bounds<T>,
    pub order: DrawOrder,
}

/// Gives draw orders to rectangles.
///
/// A rectangle gets the lowest order that is above the latest barrier and above every rectangle
/// it overlaps, so that rectangles which do not overlap can share an order and be drawn
/// together.
#[derive(Debug)]
pub struct BoundsTree<T> {
    /// What was placed since the latest barrier. Nothing older matters: all of it lies below.
    placed: Vec<Placed<T>>,
    floor: DrawOrder,
    top: DrawOrder,
}

/// The contents of a [`BoundsTree`].
#[verifier::ext_equal]
pub struct BoundsTreeView<T> {
    /// The rectangles placed since the latest barrier.
    pub placed: Seq<Placed<T>>,
    /// The order of the latest barrier, zero before the first.
    pub floor: DrawOrder,
    /// The highest order given so far, zero before the first.
    pub top: DrawOrder,
}

/// The highest order among `floor` and those of the rectangles that overlap `bounds`.
pub open spec fn highest_below<T: Coordinate>(
    placed: Seq<Placed<T>>,
    floor: DrawOrder,
    bounds: Bounds<T>,
) -> DrawOrder
    decreases placed.len(),
{
    if placed.len() == 0 {
        floor
    } else {
        let rest = highest_below(placed.drop_last(), floor, bounds);
        let last = placed.last();
        if last.bounds.intersects_spec(bounds) && rest < last.order {
            last.order
        } else {
            rest
        }
    }
}

impl<T: Coordinate> BoundsTreeView<T> {
    pub open spec fn empty() -> Self {
        BoundsTreeView { placed: Seq::empty(), floor: 0, top: 0 }
    }

    /// Every order lies between the barrier and the top, and the top below the reserved order.
    pub open spec fn wf(self) -> bool {
        &&& self.floor <= self.top < DrawOrder::MAX
        &&& forall|i: int|
            0 <= i < self.placed.len() ==> self.floor < (#[trigger] self.placed[i]).order
                <= self.top
    }

    /// Whether one more order can be given.
    pub open spec fn has_room(self) -> bool {
        self.top < DrawOrder::MAX - 1
    }

    /// The order that `bounds` would be given.
    pub open spec fn next_order(self, bounds: Bounds<T>) -> DrawOrder {
        (highest_below(self.placed, self.floor, bounds) + 1) as DrawOrder
    }

    pub open spec fn insert(self, bounds: Bounds<T>) -> Self {
        let order = self.next_order(bounds);
        BoundsTreeView {
            placed: self.placed.push(Placed { bounds, order }),
            floor: self.floor,
            top: if order > self.top {
                order
            } else {
                self.top
            },
        }
    }

    /// The order that a barrier would be given.
    pub open spec fn barrier_order(self) -> DrawOrder {
        (self.top + 1) as DrawOrder
    }

    pub open spec fn barrier(self) -> Self {
        BoundsTreeView {
            placed: Seq::empty(),
            floor: self.barrier_order(),
            top: self.barrier_order(),
        }
    }
}

/// The order that a rectangle gets is above the barrier and above every rectangle it overlaps,
/// and no order below it is.
pub proof fn next_order_is_lowest_above<T: Coordinate>(tree: BoundsTreeView<T>, bounds: Bounds<T>)
    requires
        tree.wf(),
        tree.has_room(),
    ensures
        tree.floor < tree.next_order(bounds) <= tree.top + 1,
        forall|i: int|
            0 <= i < tree.placed.len() && (#[trigger] tree.placed[i]).bounds.intersects_spec(bounds)
                ==> tree.placed[i].order < tree.next_order(bounds),
        tree.next_order(bounds) == tree.floor + 1 || exists|i: int|
            0 <= i < tree.placed.len() && (#[trigger] tree.placed[i]).bounds.intersects_spec(bounds)
                && tree.next_order(bounds) == tree.placed[i].order + 1,
{
    lemma_highest_below(tree.placed, tree.floor, tree.top, bounds);
}

pub(crate) proof fn lemma_highest_below<T: Coordinate>(
    placed: Seq<Placed<T>>,
    floor: DrawOrder,
    top: DrawOrder,
    bounds: Bounds<T>,
)
    requires
        floor <= top,
        forall|i: int| 0 <= i < placed.len() ==> (#[trigger] placed[i]).order <= top,
    ensures
        floor <= highest_below(placed, floor, bounds) <= top,
        forall|i: int|
            0 <= i < placed.len() && (#[trigger] placed[i]).bounds.intersects_spec(bounds)
                ==> placed[i].order <= highest_below(placed, floor, bounds),
        highest_below(placed, floor, bounds) == floor || exists|i: int|
            0 <= i < placed.len() && (#[trigger] placed[i]).bounds.intersects_spec(bounds)
                && highest_below(placed, floor, bounds) == placed[i].order,
    decreases placed.len(),
{
    if placed.len() > 0 {
        let rest = placed.drop_last();
        assert(forall|i: int| 0 <= i < rest.len() ==> #[trigger] rest[i] == placed[i]);
        lemma_highest_below(rest, floor, top, bounds);
        assert(placed[placed.len() - 1] == placed.last());
        let below = highest_below(rest, floor, bounds);
        if below != floor {
            let i = choose|i: int|
                0 <= i < rest.len() && (#[trigger] rest[i]).bounds.intersects_spec(bounds) && below
                    == rest[i].order;
            assert(placed[i] == rest[i]);
        }
        assert forall|i: int|
            0 <= i < placed.len() && (#[trigger] placed[i]).bounds.intersects_spec(
                bounds,
            ) implies placed[i].order <= highest_below(placed, floor, bounds) by {
            if i < rest.len() {
                assert(rest[i] == placed[i]);
            }
        }
    }
}

impl<T: Coordinate> BoundsTreeView<T> {
    /// The tree after all the given rectangles were placed.
    pub open spec fn insert_all(self, rectangles: Seq<Bounds<T>>) -> Self
        decreases rectangles.len(),
    {
        if rectangles.len() == 0 {
            self
        } else {
            self.insert_all(rectangles.drop_last()).insert(rectangles.last())
        }
    }
}

/// Behind a barrier rectangles order among themselves the way they would anywhere else: each gets
/// the order that it would get in a tree of its own, counted from the barrier.
pub proof fn barrier_keeps_relative_order<T: Coordinate>(
    tree: BoundsTreeView<T>,
    rectangles: Seq<Bounds<T>>,
)
    requires
        tree.wf(),
        tree.top + rectangles.len() < DrawOrder::MAX - 1,
    ensures
        ({
            let alone = BoundsTreeView::<T>::empty().insert_all(rectangles);
            let behind = tree.barrier().insert_all(rectangles);
            &&& alone.placed.len() == behind.placed.len() == rectangles.len()
            &&& behind.top == alone.top + tree.barrier_order()
            &&& alone.top <= rectangles.len()
            &&& forall|i: int|
                0 <= i < rectangles.len() ==> {
                    &&& (#[trigger] behind.placed[i]).bounds == rectangles[i]
                    &&& behind.placed[i].bounds == alone.placed[i].bounds
                    &&& behind.placed[i].order == alone.placed[i].order + tree.barrier_order()
                }
        }),
        tree.barrier().insert_all(rectangles).wf(),
        BoundsTreeView::<T>::empty().insert_all(rectangles).wf(),
        tree.barrier().insert_all(rectangles).floor == tree.barrier_order(),
        BoundsTreeView::<T>::empty().insert_all(rectangles).floor == 0,
    decreases rectangles.len(),
{
    if rectangles.len() > 0 {
        let init = rectangles.drop_last();
        let last = rectangles.last();
        barrier_keeps_relative_order(tree, init);
        let alone = BoundsTreeView::<T>::empty().insert_all(init);
        let behind = tree.barrier().insert_all(init);
        let base = tree.barrier_order();
        lemma_highest_raised(alone.placed, behind.placed, 0, base, base, last);
        next_order_is_lowest_above(alone, last);
        next_order_is_lowest_above(behind, last);
        let alone1 = alone.insert(last);
        let behind1 = behind.insert(last);
        assert forall|i: int| 0 <= i < rectangles.len() implies {
            &&& (#[trigger] behind1.placed[i]).bounds == rectangles[i]
            &&& behind1.placed[i].bounds == alone1.placed[i].bounds
            &&& behind1.placed[i].order == alone1.placed[i].order + base
        } by {
            if i < init.len() {
                assert(behind1.placed[i] == behind.placed[i]);
                assert(alone1.placed[i] == alone.placed[i]);
                assert(init[i] == rectangles[i]);
            }
        }
        assert(forall|i: int|
            0 <= i < init.len() ==> #[trigger] alone1.placed[i] == alone.placed[i]);
    }
}

/// Where every order is raised alike, so is the highest.
pub(crate) proof fn lemma_highest_raised<T: Coordinate>(
    placed: Seq<Placed<T>>,
    raised: Seq<Placed<T>>,
    floor: DrawOrder,
    raised_floor: DrawOrder,
    base: DrawOrder,
    bounds: Bounds<T>,
)
    requires
        placed.len() == raised.len(),
        raised_floor == floor + base,
        forall|i: int|
            0 <= i < raised.len() ==> (#[trigger] raised[i]).bounds == placed[i].bounds
                && raised[i].order == placed[i].order + base,
    ensures
        highest_below(raised, raised_floor, bounds) == highest_below(placed, floor, bounds) + base,
    decreases placed.len(),
{
    if placed.len() > 0 {
        let (a, b) = (placed.drop_last(), raised.drop_last());
        assert(forall|i: int|
            0 <= i < b.len() ==> #[trigger] b[i] == raised[i] && a[i] == placed[i]);
        lemma_highest_raised(a, b, floor, raised_floor, base, bounds);
        assert(raised[raised.len() - 1] == raised.last());
    }
}

/// A barrier lies above everything before it and below everything after it.
pub proof fn barrier_separates<T: Coordinate>(tree: BoundsTreeView<T>, bounds: Bounds<T>)
    requires
        tree.wf(),
        tree.top < DrawOrder::MAX - 2,
    ensures
        forall|i: int|
            0 <= i < tree.placed.len() ==> (#[trigger] tree.placed[i]).order < tree.barrier_order(),
        tree.floor < tree.barrier_order(),
        tree.barrier_order() < tree.barrier().next_order(bounds),
        tree.barrier_order() < tree.barrier().barrier_order(),
{
    next_order_is_lowest_above(tree.barrier(), bounds);
}

impl<T: Coordinate> View for BoundsTree<T> {
    type V = BoundsTreeView<T>;

    closed spec fn view(&self) -> BoundsTreeView<T> {
        BoundsTreeView { placed: self.placed@, floor: self.floor, top: self.top }
    }
}

impl<T: Coordinate> BoundsTree<T> {
    /// A tree that has given no order yet.
    pub fn new() -> (r: Self)
        ensures
            r@ == BoundsTreeView::<T>::empty(),
            r@.wf(),
    {
        BoundsTree { placed: Vec::new(), floor: 0, top: 0 }
    }

    /// Forgets everything.
    pub fn clear(&mut self)
        ensures
            final(self)@ == BoundsTreeView::<T>::empty(),
            final(self)@.wf(),
    {
        self.placed.clear();
        self.floor = 0;
        self.top = 0;
    }

    /// How many more orders can be given for certain.
    pub fn orders_left(&self) -> (r: DrawOrder)
        requires
            self@.wf(),
        ensures
            r == DrawOrder::MAX - 1 - self@.top,
    {
        DrawOrder::MAX - 1 - self.top
    }

    /// Gives `bounds` an order.
    pub fn insert(&mut self, bounds: Bounds<T>) -> (order: DrawOrder)
        requires
            old(self)@.wf(),
            old(self)@.has_room(),
        ensures
            order == old(self)@.next_order(bounds),
            final(self)@ == old(self)@.insert(bounds),
            final(self)@.wf(),
            old(self)@.floor < order <= old(self)@.top + 1,
    {
        let mut below: DrawOrder = self.floor;
        let mut i: usize = 0;
        while i < self.placed.len()
            invariant
                i <= self.placed.len(),
                *self == *old(self),
                self@.wf(),
                self.floor <= below <= self.top,
                below == highest_below(self.placed@.take(i as int), self.floor, bounds),
            decreases self.placed.len() - i,
        {
            assert(self@.placed[i as int] == self.placed@[i as int]);
            let placed = self.placed[i];
            if below < placed.order && placed.bounds.intersects(bounds) {
                below = placed.order;
            }
            assert(self.placed@.take(i + 1).drop_last() =~= self.placed@.take(i as int));
            i += 1;
        }
        assert(self.placed@.take(i as int) =~= self.placed@);
        let order: DrawOrder = below + 1;
        self.placed.push(Placed { bounds, order });
        if order > self.top {
            self.top = order;
        }
        order
    }

    /// Takes an order for itself that is above everything so far and below everything to come.
    pub fn barrier(&mut self) -> (order: DrawOrder)
        requires
            old(self)@.wf(),
            old(self)@.has_room(),
        ensures
            order == old(self)@.barrier_order(),
            final(self)@ == old(self)@.barrier(),
            final(self)@.wf(),
            order == old(self)@.top + 1,
    {
        self.placed.clear();
        self.top = self.top + 1;
        self.floor = self.top;
        self.top
    }
}

} // verus!
