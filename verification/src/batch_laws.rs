//! What holds of the batches of a scene.

use crate::batch::{
    batch_bound, drawn, earliest, head_key, is_batching, is_earliest, is_limit, joins,
    lemma_earliest_unique, lemma_limit_unique, limit_after, next_batch, run_end, valid_starts,
    BatchView, DrawKey, LaneItem,
};
use crate::bounds_tree::DrawOrder;
use crate::primitive::{PrimitiveKind, KINDS};
use vstd::prelude::*;

verus! {

/// Whether the primitives of each kind are sorted by their orders.
pub open spec fn lanes_sorted(lanes: Seq<Seq<LaneItem>>) -> bool {
    forall|k: int, p: int, q: int|
        0 <= k < lanes.len() && 0 <= p <= q < lanes[k].len() ==> (#[trigger] lanes[k][p]).order
            <= (#[trigger] lanes[k][q]).order
}

/// Whether no primitive has the reserved order.
pub open spec fn orders_in_range(lanes: Seq<Seq<LaneItem>>) -> bool {
    forall|k: int, p: int|
        0 <= k < lanes.len() && 0 <= p < lanes[k].len() ==> (#[trigger] lanes[k][p]).order
            < DrawOrder::MAX
}

/// Whether the primitive at `p` of the kind with the given rank is in the batch.
pub open spec fn in_batch(batch: BatchView, rank: int, p: int) -> bool {
    batch.kind.rank() == rank && batch.start <= p < batch.end
}

/// Where a primitive comes in a frame.
pub open spec fn item_key(lanes: Seq<Seq<LaneItem>>, rank: int, p: int) -> DrawKey {
    DrawKey { order: lanes[rank][p].order, rank }
}

/// The kind that comes first among those with a rank below `n`.
spec fn best(lanes: Seq<Seq<LaneItem>>, starts: Seq<usize>, skip: int, n: int) -> int
    decreases n,
{
    if n <= 0 {
        -1
    } else {
        let rest = best(lanes, starts, skip, n - 1);
        if n - 1 != skip && (rest < 0 || head_key(lanes, starts, n - 1).before(
            head_key(lanes, starts, rest),
        )) {
            n - 1
        } else {
            rest
        }
    }
}

proof fn lemma_best(lanes: Seq<Seq<LaneItem>>, starts: Seq<usize>, skip: int, n: int)
    requires
        0 <= n <= KINDS,
    ensures
        ({
            let b = best(lanes, starts, skip, n);
            if n == 0 || (n == 1 && skip == 0) {
                b == -1
            } else {
                &&& 0 <= b < n
                &&& b != skip
                &&& forall|k: int|
                    0 <= k < n && k != skip && k != b ==> head_key(lanes, starts, b).before(
                        #[trigger] head_key(lanes, starts, k),
                    )
            }
        }),
    decreases n,
{
    if n > 0 {
        lemma_best(lanes, starts, skip, n - 1);
    }
}

/// Some kind comes first.
proof fn lemma_earliest_exists(lanes: Seq<Seq<LaneItem>>, starts: Seq<usize>, skip: int)
    ensures
        is_earliest(lanes, starts, skip, earliest(lanes, starts, skip)),
{
    lemma_best(lanes, starts, skip, KINDS as int);
    let b = best(lanes, starts, skip, KINDS as int);
    assert(is_earliest(lanes, starts, skip, b));
    lemma_earliest_unique(lanes, starts, skip, b);
}

/// The first edge above `order` among the first `n`.
spec fn least_above(edges: Seq<DrawOrder>, order: DrawOrder, n: int) -> DrawOrder
    decreases n,
{
    if n <= 0 {
        DrawOrder::MAX
    } else {
        let rest = least_above(edges, order, n - 1);
        if order < edges[n - 1] < rest {
            edges[n - 1]
        } else {
            rest
        }
    }
}

proof fn lemma_least_above(edges: Seq<DrawOrder>, order: DrawOrder, n: int)
    requires
        0 <= n <= edges.len(),
    ensures
        ({
            let l = least_above(edges, order, n);
            &&& forall|i: int| 0 <= i < n && order < #[trigger] edges[i] ==> l <= edges[i]
            &&& l == DrawOrder::MAX || (order < l && edges.contains(l))
        }),
    decreases n,
{
    if n > 0 {
        lemma_least_above(edges, order, n - 1);
        assert(edges[n - 1] == edges[n - 1]);
    }
}

/// There is a first edge above `order`, or none at all.
proof fn lemma_limit_exists(edges: Seq<DrawOrder>, order: DrawOrder)
    ensures
        is_limit(edges, order, limit_after(edges, order)),
{
    lemma_least_above(edges, order, edges.len() as int);
    let l = least_above(edges, order, edges.len() as int);
    if l == DrawOrder::MAX && !(order < l && edges.contains(l)) {
        assert forall|i: int| 0 <= i < edges.len() implies #[trigger] edges[i] <= order by {
            if order < edges[i] {
                assert(edges[i] == l);
                assert(edges.contains(l));
            }
        }
    }
    assert(is_limit(edges, order, l));
    lemma_limit_unique(edges, order, l);
}

proof fn lemma_run_end(lane: Seq<LaneItem>, rank: int, bound: DrawKey, start: int, i: int)
    requires
        start < i <= lane.len(),
    ensures
        i <= run_end(lane, rank, bound, start, i) <= lane.len(),
        forall|p: int|
            i <= p < run_end(lane, rank, bound, start, i) ==> joins(lane, rank, bound, start, p),
        run_end(lane, rank, bound, start, i) < lane.len() ==> !joins(
            lane,
            rank,
            bound,
            start,
            run_end(lane, rank, bound, start, i),
        ),
    decreases lane.len() - i,
{
    if i < lane.len() && joins(lane, rank, bound, start, i) {
        lemma_run_end(lane, rank, bound, start, i + 1);
    }
}

pub(crate) proof fn lemma_rank(rank: int)
    requires
        0 <= rank < KINDS,
    ensures
        PrimitiveKind::of_rank(rank).rank() == rank,
{
}

/// A batch starts where its kind was left, holds at least one primitive, and stays within the
/// primitives of its kind.
pub proof fn batch_continues_its_kind(
    lanes: Seq<Seq<LaneItem>>,
    edges: Seq<DrawOrder>,
    starts: Seq<usize>,
)
    requires
        valid_starts(lanes, starts),
    ensures
        next_batch(lanes, edges, starts) matches Some(batch) ==> {
            &&& 0 <= batch.kind.rank() < KINDS
            &&& starts[batch.kind.rank()] == batch.start < batch.end
                <= lanes[batch.kind.rank()].len()
            &&& valid_starts(lanes, starts.update(batch.kind.rank(), batch.end as usize))
            &&& forall|p: int|
                batch.start <= p < batch.end ==> (
                #[trigger] lanes[batch.kind.rank()][p]).texture == batch.texture
        },
{
    lemma_earliest_exists(lanes, starts, -1);
    let rank = earliest(lanes, starts, -1);
    let start = starts[rank] as int;
    if start < lanes[rank].len() {
        lemma_rank(rank);
        let bound = batch_bound(lanes, edges, starts, rank);
        lemma_run_end(lanes[rank], rank, bound, start, start + 1);
        let batch = next_batch(lanes, edges, starts)->Some_0;
        assert forall|p: int| batch.start <= p < batch.end implies (
        #[trigger] lanes[rank][p]).texture == batch.texture by {
            if p > start {
                assert(joins(lanes[rank], rank, bound, start, p));
            }
        }
    }
}

/// A batch is as long as it can be: what follows it among the primitives of its kind cannot join.
pub proof fn batch_is_as_long_as_it_can_be(
    lanes: Seq<Seq<LaneItem>>,
    edges: Seq<DrawOrder>,
    starts: Seq<usize>,
)
    requires
        valid_starts(lanes, starts),
    ensures
        next_batch(lanes, edges, starts) matches Some(batch) ==> {
            let rank = batch.kind.rank();
            let bound = batch_bound(lanes, edges, starts, rank);
            &&& forall|p: int|
                batch.start < p < batch.end ==> #[trigger] joins(
                    lanes[rank],
                    rank,
                    bound,
                    batch.start,
                    p,
                )
            &&& batch.end < lanes[rank].len() ==> !joins(
                lanes[rank],
                rank,
                bound,
                batch.start,
                batch.end,
            )
        },
{
    lemma_earliest_exists(lanes, starts, -1);
    let rank = earliest(lanes, starts, -1);
    let start = starts[rank] as int;
    if start < lanes[rank].len() {
        lemma_rank(rank);
        lemma_run_end(
            lanes[rank],
            rank,
            batch_bound(lanes, edges, starts, rank),
            start,
            start + 1,
        );
    }
}

/// A batch ends only where it has to: what follows it among the primitives of its kind lies on
/// another texture or beyond an edge, or something of another kind comes first.
pub proof fn batch_ends_only_where_it_must(
    lanes: Seq<Seq<LaneItem>>,
    edges: Seq<DrawOrder>,
    starts: Seq<usize>,
    batch: BatchView,
)
    requires
        valid_starts(lanes, starts),
        lanes_sorted(lanes),
        orders_in_range(lanes),
        next_batch(lanes, edges, starts) == Some(batch),
        batch.end < lanes[batch.kind.rank()].len(),
    ensures
        ({
            let rank = batch.kind.rank();
            let (last, next) = (lanes[rank][batch.end - 1], lanes[rank][batch.end]);
            ||| next.texture != batch.texture
            ||| exists|i: int|
                0 <= i < edges.len() && last.order < #[trigger] edges[i] <= next.order
            ||| exists|k: int|
                0 <= k < KINDS && k != rank && #[trigger] starts[k] < lanes[k].len() && item_key(
                    lanes,
                    k,
                    starts[k] as int,
                ).before(item_key(lanes, rank, batch.end))
        }),
{
    let rank = batch.kind.rank();
    let (first, end) = (batch.start, batch.end);
    batch_continues_its_kind(lanes, edges, starts);
    batch_is_as_long_as_it_can_be(lanes, edges, starts);
    batch_spans_no_edge(lanes, edges, starts, end - 1);
    lemma_earliest_exists(lanes, starts, rank);
    lemma_limit_exists(edges, lanes[rank][first].order);
    let (last, next) = (lanes[rank][end - 1], lanes[rank][end]);
    let limit = limit_after(edges, lanes[rank][first].order);
    let k = earliest(lanes, starts, rank);
    let bound = batch_bound(lanes, edges, starts, rank);
    assert(lanes[rank][first].texture == batch.texture);
    assert(next.order < DrawOrder::MAX);
    if next.texture == batch.texture {
        assert(!item_key(lanes, rank, end).before(bound));
        if bound == head_key(lanes, starts, k) {
            assert(starts[k] < lanes[k].len());
        } else {
            let i = choose|i: int| 0 <= i < edges.len() && edges[i] == limit;
            assert(last.order < edges[i] <= next.order);
        }
    }
}

/// When no batch is left, nothing is left to draw.
pub proof fn nothing_left_behind(
    lanes: Seq<Seq<LaneItem>>,
    edges: Seq<DrawOrder>,
    starts: Seq<usize>,
)
    requires
        valid_starts(lanes, starts),
        orders_in_range(lanes),
        next_batch(lanes, edges, starts) is None,
    ensures
        forall|k: int| 0 <= k < KINDS ==> #[trigger] starts[k] == lanes[k].len(),
{
    lemma_earliest_exists(lanes, starts, -1);
    let rank = earliest(lanes, starts, -1);
    assert forall|k: int| 0 <= k < KINDS implies #[trigger] starts[k] == lanes[k].len() by {
        if starts[k] < lanes[k].len() {
            assert(lanes[k][starts[k] as int].order < DrawOrder::MAX);
            assert(head_key(lanes, starts, rank).before(head_key(lanes, starts, k)));
        }
    }
}

/// What is in the next batch comes no later than anything that is drawn after it.
proof fn lemma_batch_first(
    lanes: Seq<Seq<LaneItem>>,
    edges: Seq<DrawOrder>,
    starts: Seq<usize>,
    p: int,
    k: int,
    q: int,
)
    requires
        valid_starts(lanes, starts),
        lanes_sorted(lanes),
        next_batch(lanes, edges, starts) matches Some(batch) && {
            &&& batch.start <= p < batch.end
            &&& 0 <= k < KINDS
            &&& starts.update(batch.kind.rank(), batch.end as usize)[k] <= q < lanes[k].len()
        },
    ensures
        !item_key(lanes, k, q).before(
            item_key(lanes, next_batch(lanes, edges, starts)->Some_0.kind.rank(), p),
        ),
{
    batch_continues_its_kind(lanes, edges, starts);
    lemma_earliest_exists(lanes, starts, -1);
    let rank = earliest(lanes, starts, -1);
    lemma_rank(rank);
    let start = starts[rank] as int;
    let bound = batch_bound(lanes, edges, starts, rank);
    lemma_run_end(lanes[rank], rank, bound, start, start + 1);
    if k == rank {
        assert(lanes[rank][p].order <= lanes[rank][q].order);
    } else {
        lemma_earliest_exists(lanes, starts, rank);
        let other = earliest(lanes, starts, rank);
        assert(lanes[k][starts[k] as int].order <= lanes[k][q].order);
        assert(head_key(lanes, starts, rank).before(head_key(lanes, starts, k)));
        if p > start {
            assert(joins(lanes[rank], rank, bound, start, p));
            if k != other {
                assert(head_key(lanes, starts, other).before(head_key(lanes, starts, k)));
            }
        }
    }
}

/// Everything in a batch lies on one side of every edge of a filtered layer.
pub proof fn batch_spans_no_edge(
    lanes: Seq<Seq<LaneItem>>,
    edges: Seq<DrawOrder>,
    starts: Seq<usize>,
    p: int,
)
    requires
        valid_starts(lanes, starts),
        lanes_sorted(lanes),
        next_batch(lanes, edges, starts) matches Some(batch) && batch.start <= p < batch.end,
    ensures
        next_batch(lanes, edges, starts) matches Some(batch) ==> forall|i: int|
            0 <= i < edges.len() ==> (lanes[batch.kind.rank()][p].order < #[trigger] edges[i]
                <==> lanes[batch.kind.rank()][batch.start].order < edges[i]),
{
    batch_continues_its_kind(lanes, edges, starts);
    lemma_earliest_exists(lanes, starts, -1);
    let rank = earliest(lanes, starts, -1);
    lemma_rank(rank);
    let start = starts[rank] as int;
    let bound = batch_bound(lanes, edges, starts, rank);
    lemma_run_end(lanes[rank], rank, bound, start, start + 1);
    let first = lanes[rank][start].order;
    let order = lanes[rank][p].order;
    lemma_limit_exists(edges, first);
    let limit = limit_after(edges, first);
    assert(first <= order);
    assert forall|i: int| 0 <= i < edges.len() implies (order < #[trigger] edges[i] <==> first
        < edges[i]) by {
        if first < edges[i] && p > start {
            assert(joins(lanes[rank], rank, bound, start, p));
            lemma_earliest_exists(lanes, starts, rank);
            assert(limit <= edges[i]);
        }
    }
}

pub(crate) proof fn lemma_drawn_valid(
    lanes: Seq<Seq<LaneItem>>,
    edges: Seq<DrawOrder>,
    starts: Seq<usize>,
    batches: Seq<BatchView>,
    i: int,
)
    requires
        valid_starts(lanes, starts),
        is_batching(lanes, edges, starts, batches),
        0 <= i <= batches.len(),
    ensures
        valid_starts(lanes, drawn(starts, batches.take(i))),
    decreases i,
{
    if i > 0 {
        lemma_drawn_valid(lanes, edges, starts, batches, i - 1);
        let before = drawn(starts, batches.take(i - 1));
        assert(next_batch(lanes, edges, before) == Some(batches[i - 1]));
        batch_continues_its_kind(lanes, edges, before);
        assert(batches.take(i).drop_last() =~= batches.take(i - 1));
        assert(batches.take(i).last() == batches[i - 1]);
    }
}

pub(crate) proof fn lemma_drawn_grows(
    lanes: Seq<Seq<LaneItem>>,
    edges: Seq<DrawOrder>,
    starts: Seq<usize>,
    batches: Seq<BatchView>,
    i: int,
    j: int,
    k: int,
)
    requires
        valid_starts(lanes, starts),
        is_batching(lanes, edges, starts, batches),
        0 <= i <= j <= batches.len(),
        0 <= k < KINDS,
    ensures
        drawn(starts, batches.take(i))[k] <= drawn(starts, batches.take(j))[k],
    decreases j - i,
{
    if i < j {
        lemma_drawn_grows(lanes, edges, starts, batches, i, j - 1, k);
        lemma_drawn_step(lanes, edges, starts, batches, j - 1, k);
    }
}

/// What one batch draws of a kind.
pub(crate) proof fn lemma_drawn_step(
    lanes: Seq<Seq<LaneItem>>,
    edges: Seq<DrawOrder>,
    starts: Seq<usize>,
    batches: Seq<BatchView>,
    i: int,
    k: int,
)
    requires
        valid_starts(lanes, starts),
        is_batching(lanes, edges, starts, batches),
        0 <= i < batches.len(),
        0 <= k < KINDS,
    ensures
        0 <= batches[i].kind.rank() < KINDS,
        batches[i].kind.rank() != k ==> drawn(starts, batches.take(i + 1))[k] == drawn(
            starts,
            batches.take(i),
        )[k],
        batches[i].kind.rank() == k ==> drawn(starts, batches.take(i))[k] == batches[i].start
            < batches[i].end == drawn(starts, batches.take(i + 1))[k],
        drawn(starts, batches.take(i + 1)) == drawn(starts, batches.take(i)).update(
            batches[i].kind.rank(),
            batches[i].end as usize,
        ),
{
    lemma_drawn_valid(lanes, edges, starts, batches, i);
    let before = drawn(starts, batches.take(i));
    assert(next_batch(lanes, edges, before) == Some(batches[i]));
    batch_continues_its_kind(lanes, edges, before);
    assert(batches.take(i + 1).drop_last() =~= batches.take(i));
    assert(batches.take(i + 1).last() == batches[i]);
}

/// Every primitive that was not drawn before is in one batch, and in no other.
pub proof fn every_primitive_is_drawn_once(
    lanes: Seq<Seq<LaneItem>>,
    edges: Seq<DrawOrder>,
    starts: Seq<usize>,
    batches: Seq<BatchView>,
    k: int,
    p: int,
)
    requires
        valid_starts(lanes, starts),
        orders_in_range(lanes),
        is_batching(lanes, edges, starts, batches),
        0 <= k < KINDS,
        starts[k] <= p < lanes[k].len(),
    ensures
        exists|i: int| 0 <= i < batches.len() && #[trigger] in_batch(batches[i], k, p),
        forall|i: int, j: int|
            0 <= i < batches.len() && 0 <= j < batches.len() && #[trigger] in_batch(
                batches[i],
                k,
                p,
            ) && #[trigger] in_batch(batches[j], k, p) ==> i == j,
{
    let n = batches.len() as int;
    assert(batches.take(n) =~= batches);
    lemma_drawn_valid(lanes, edges, starts, batches, n);
    nothing_left_behind(lanes, edges, drawn(starts, batches));
    assert(batches.take(0) =~= Seq::<BatchView>::empty());
    lemma_find_batch(lanes, edges, starts, batches, n, k, p);
    assert forall|i: int, j: int|
        0 <= i < batches.len() && 0 <= j < batches.len() && #[trigger] in_batch(batches[i], k, p)
            && #[trigger] in_batch(batches[j], k, p) implies i == j by {
        lemma_drawn_step(lanes, edges, starts, batches, i, k);
        lemma_drawn_step(lanes, edges, starts, batches, j, k);
        if i < j {
            lemma_drawn_grows(lanes, edges, starts, batches, i + 1, j, k);
        }
        if j < i {
            lemma_drawn_grows(lanes, edges, starts, batches, j + 1, i, k);
        }
    }
}

proof fn lemma_find_batch(
    lanes: Seq<Seq<LaneItem>>,
    edges: Seq<DrawOrder>,
    starts: Seq<usize>,
    batches: Seq<BatchView>,
    n: int,
    k: int,
    p: int,
)
    requires
        valid_starts(lanes, starts),
        is_batching(lanes, edges, starts, batches),
        0 <= n <= batches.len(),
        0 <= k < KINDS,
        starts[k] <= p < drawn(starts, batches.take(n))[k],
    ensures
        exists|i: int| 0 <= i < n && #[trigger] in_batch(batches[i], k, p),
    decreases n,
{
    assert(batches.take(0) =~= Seq::<BatchView>::empty());
    if n > 0 {
        lemma_drawn_step(lanes, edges, starts, batches, n - 1, k);
        if p < drawn(starts, batches.take(n - 1))[k] {
            lemma_find_batch(lanes, edges, starts, batches, n - 1, k, p);
            let i = choose|i: int| 0 <= i < n - 1 && #[trigger] in_batch(batches[i], k, p);
            assert(in_batch(batches[i], k, p));
        } else {
            assert(in_batch(batches[n - 1], k, p));
        }
    }
}

/// Batches are drawn in order: what is in an earlier batch comes no later than what is in a later
/// one, by draw order and then by kind.
pub proof fn batches_are_in_drawing_order(
    lanes: Seq<Seq<LaneItem>>,
    edges: Seq<DrawOrder>,
    starts: Seq<usize>,
    batches: Seq<BatchView>,
    i: int,
    p: int,
    j: int,
    q: int,
)
    requires
        valid_starts(lanes, starts),
        lanes_sorted(lanes),
        is_batching(lanes, edges, starts, batches),
        0 <= i < j < batches.len(),
        batches[i].start <= p < batches[i].end,
        batches[j].start <= q < batches[j].end,
    ensures
        !item_key(lanes, batches[j].kind.rank(), q).before(
            item_key(lanes, batches[i].kind.rank(), p),
        ),
{
    let k = batches[j].kind.rank();
    lemma_drawn_valid(lanes, edges, starts, batches, i);
    lemma_drawn_valid(lanes, edges, starts, batches, j);
    lemma_drawn_step(lanes, edges, starts, batches, i, 0);
    lemma_drawn_step(lanes, edges, starts, batches, j, 0);
    lemma_drawn_step(lanes, edges, starts, batches, j, k);
    lemma_drawn_grows(lanes, edges, starts, batches, i + 1, j, k);
    let before = drawn(starts, batches.take(i));
    let later = drawn(starts, batches.take(j));
    assert(next_batch(lanes, edges, before) == Some(batches[i]));
    assert(next_batch(lanes, edges, later) == Some(batches[j]));
    batch_continues_its_kind(lanes, edges, later);
    lemma_batch_first(lanes, edges, before, p, k, q);
}

} // verus!
