//! Stable sorting by draw key.

use vstd::prelude::*;

verus! {

/// What primitives are sorted by: the order, then a tie break.
pub type SortKey = (u32, u32);

/// Something that is sorted by a key.
pub trait Keyed: Sized {
    spec fn key_spec(self) -> SortKey;

    fn key(&self) -> (r: SortKey)
        ensures
            r == self.key_spec(),
    ;
}

/// Whether `a` comes no later than `b`.
pub open spec fn key_at_most(a: SortKey, b: SortKey) -> bool {
    a.0 < b.0 || (a.0 == b.0 && a.1 <= b.1)
}

/// Whether no item comes before one with a smaller key.
pub open spec fn sorted_by<A>(s: Seq<A>, key: spec_fn(A) -> SortKey) -> bool {
    forall|i: int, j: int| 0 <= i <= j < s.len() ==> key_at_most(key(s[i]), key(s[j]))
}

/// The items of `s` that have the key `k`, in their order.
pub open spec fn with_key<A>(s: Seq<A>, key: spec_fn(A) -> SortKey, k: SortKey) -> Seq<A> {
    s.filter(|a: A| key(a) == k)
}

/// Whether `after` holds the items of `before`, sorted by their keys, where those of one key
/// keep their order.
pub open spec fn is_stable_sort<A>(
    before: Seq<A>,
    after: Seq<A>,
    key: spec_fn(A) -> SortKey,
) -> bool {
    &&& sorted_by(after, key)
    &&& forall|k: SortKey| #[trigger] with_key(after, key, k) == with_key(before, key, k)
}

/// The key of an item, as a function.
pub open spec fn own_key<T: Keyed>() -> spec_fn(T) -> SortKey {
    |t: T| t.key_spec()
}

fn key_less(a: SortKey, b: SortKey) -> (r: bool)
    ensures
        r == !key_at_most(b, a),
{
    a.0 < b.0 || (a.0 == b.0 && a.1 < b.1)
}

proof fn lemma_with_key_concat<A>(a: Seq<A>, b: Seq<A>, key: spec_fn(A) -> SortKey, k: SortKey)
    ensures
        with_key(a + b, key, k) == with_key(a, key, k) + with_key(b, key, k),
{
    Seq::filter_distributes_over_add(a, b, |x: A| key(x) == k);
}

pub(crate) proof fn lemma_with_key_push<A>(a: Seq<A>, x: A, key: spec_fn(A) -> SortKey, k: SortKey)
    ensures
        with_key(a.push(x), key, k) == if key(x) == k {
            with_key(a, key, k).push(x)
        } else {
            with_key(a, key, k)
        },
{
    reveal(Seq::filter);
    assert(a.push(x).drop_last() =~= a);
}

proof fn lemma_with_key_absent<A>(a: Seq<A>, key: spec_fn(A) -> SortKey, k: SortKey)
    requires
        forall|i: int| 0 <= i < a.len() ==> key(#[trigger] a[i]) != k,
    ensures
        with_key(a, key, k) == Seq::<A>::empty(),
    decreases a.len(),
{
    reveal(Seq::filter);
    if a.len() > 0 {
        lemma_with_key_absent(a.drop_last(), key, k);
    }
}

proof fn lemma_with_key_contains<A>(s: Seq<A>, key: spec_fn(A) -> SortKey, x: A)
    ensures
        with_key(s, key, key(x)).contains(x) <==> s.contains(x),
    decreases s.len(),
{
    let k = key(x);
    if s.len() == 0 {
        lemma_with_key_absent(s, key, k);
    } else {
        let (init, last) = (s.drop_last(), s.last());
        lemma_with_key_contains(init, key, x);
        lemma_with_key_push(init, last, key, k);
        assert(init.push(last) =~= s);
        let some = with_key(init, key, k);
        if s.contains(x) {
            if last == x {
                assert(some.push(last)[some.len() as int] == x);
            } else {
                let i = choose|i: int| 0 <= i < s.len() && s[i] == x;
                assert(init[i] == x);
                let j = choose|j: int| 0 <= j < some.len() && some[j] == x;
                assert(some.push(last)[j] == x);
            }
        }
        if with_key(s, key, k).contains(x) {
            let all = with_key(s, key, k);
            let j = choose|j: int| 0 <= j < all.len() && all[j] == x;
            if j < some.len() {
                assert(some[j] == x);
                let i = choose|i: int| 0 <= i < init.len() && init[i] == x;
                assert(s[i] == x);
            } else {
                assert(s[s.len() - 1] == x);
            }
        }
    }
}

/// Sorting adds no item and loses none.
pub proof fn stable_sort_keeps_items<A>(
    before: Seq<A>,
    after: Seq<A>,
    key: spec_fn(A) -> SortKey,
    x: A,
)
    requires
        is_stable_sort(before, after, key),
    ensures
        after.contains(x) <==> before.contains(x),
{
    lemma_with_key_contains(before, key, x);
    lemma_with_key_contains(after, key, x);
    assert(with_key(after, key, key(x)) == with_key(before, key, key(x)));
}

/// There is only one way to sort: the result is fixed by what is sorted.
pub proof fn stable_sort_is_unique<A>(
    before: Seq<A>,
    a: Seq<A>,
    b: Seq<A>,
    key: spec_fn(A) -> SortKey,
)
    requires
        is_stable_sort(before, a, key),
        is_stable_sort(before, b, key),
    ensures
        a == b,
{
    assert forall|k: SortKey| #[trigger] with_key(a, key, k) == with_key(b, key, k) by {
        assert(with_key(a, key, k) == with_key(before, key, k));
        assert(with_key(b, key, k) == with_key(before, key, k));
    }
    lemma_sorted_by_parts(a, b, key);
}

proof fn lemma_last_key_below<A>(a: Seq<A>, b: Seq<A>, key: spec_fn(A) -> SortKey)
    requires
        sorted_by(b, key),
        a.len() > 0,
        forall|k: SortKey| #[trigger] with_key(a, key, k) == with_key(b, key, k),
    ensures
        b.len() > 0,
        key_at_most(key(a.last()), key(b.last())),
{
    let x = a.last();
    lemma_with_key_contains(a, key, x);
    lemma_with_key_contains(b, key, x);
    assert(a[a.len() - 1] == x);
    assert(with_key(a, key, key(x)) == with_key(b, key, key(x)));
    let j = choose|j: int| 0 <= j < b.len() && b[j] == x;
    assert(key_at_most(key(b[j]), key(b[b.len() - 1])));
}

proof fn lemma_sorted_by_parts<A>(a: Seq<A>, b: Seq<A>, key: spec_fn(A) -> SortKey)
    requires
        sorted_by(a, key),
        sorted_by(b, key),
        forall|k: SortKey| #[trigger] with_key(a, key, k) == with_key(b, key, k),
    ensures
        a == b,
    decreases a.len(),
{
    if a.len() == 0 {
        if b.len() > 0 {
            lemma_last_key_below(b, a, key);
        }
        assert(a =~= b);
    } else {
        lemma_last_key_below(a, b, key);
        lemma_last_key_below(b, a, key);
        let (a0, b0) = (a.drop_last(), b.drop_last());
        assert(a0.push(a.last()) =~= a);
        assert(b0.push(b.last()) =~= b);
        let last_key = key(a.last());
        lemma_with_key_push(a0, a.last(), key, last_key);
        lemma_with_key_push(b0, b.last(), key, last_key);
        let (some_a, some_b) = (with_key(a0, key, last_key), with_key(b0, key, last_key));
        assert(some_a.push(a.last()) == some_b.push(b.last()));
        assert(some_a.push(a.last()).last() == a.last());
        assert(some_b.push(b.last()).last() == b.last());
        assert(some_a.push(a.last()).drop_last() =~= some_a);
        assert(some_b.push(b.last()).drop_last() =~= some_b);
        assert forall|k: SortKey| #[trigger] with_key(a0, key, k) == with_key(b0, key, k) by {
            lemma_with_key_push(a0, a.last(), key, k);
            lemma_with_key_push(b0, b.last(), key, k);
            assert(with_key(a, key, k) == with_key(b, key, k));
        }
        assert forall|i: int, j: int| 0 <= i <= j < a0.len() implies key_at_most(
            key(a0[i]),
            key(a0[j]),
        ) by {
            assert(key_at_most(key(a[i]), key(a[j])));
        }
        assert forall|i: int, j: int| 0 <= i <= j < b0.len() implies key_at_most(
            key(b0[i]),
            key(b0[j]),
        ) by {
            assert(key_at_most(key(b[i]), key(b[j])));
        }
        lemma_sorted_by_parts(a0, b0, key);
    }
}

/// Sorting and looking at the contents of each item can trade places.
pub(crate) proof fn lemma_stable_sort_of_views<A, B>(
    before: Seq<A>,
    after: Seq<A>,
    view: spec_fn(A) -> B,
    key: spec_fn(A) -> SortKey,
    view_key: spec_fn(B) -> SortKey,
)
    requires
        is_stable_sort(before, after, key),
        forall|a: A| #[trigger] view_key(view(a)) == key(a),
    ensures
        is_stable_sort(before.map_values(view), after.map_values(view), view_key),
{
    assert forall|k: SortKey| #[trigger]
        with_key(after.map_values(view), view_key, k) == with_key(
            before.map_values(view),
            view_key,
            k,
        ) by {
        lemma_with_key_of_views(before, view, key, view_key, k);
        lemma_with_key_of_views(after, view, key, view_key, k);
        assert(with_key(after, key, k) == with_key(before, key, k));
    }
    let s = after.map_values(view);
    assert forall|i: int, j: int| 0 <= i <= j < s.len() implies key_at_most(
        view_key(s[i]),
        view_key(s[j]),
    ) by {
        assert(key_at_most(key(after[i]), key(after[j])));
    }
}

proof fn lemma_with_key_of_views<A, B>(
    s: Seq<A>,
    view: spec_fn(A) -> B,
    key: spec_fn(A) -> SortKey,
    view_key: spec_fn(B) -> SortKey,
    k: SortKey,
)
    requires
        forall|a: A| #[trigger] view_key(view(a)) == key(a),
    ensures
        with_key(s.map_values(view), view_key, k) == with_key(s, key, k).map_values(view),
    decreases s.len(),
{
    if s.len() == 0 {
        lemma_with_key_absent(s, key, k);
        lemma_with_key_absent(s.map_values(view), view_key, k);
        assert(with_key(s, key, k).map_values(view) =~= Seq::<B>::empty());
    } else {
        let (init, last) = (s.drop_last(), s.last());
        lemma_with_key_of_views(init, view, key, view_key, k);
        lemma_with_key_push(init, last, key, k);
        lemma_with_key_push(init.map_values(view), view(last), view_key, k);
        assert(init.push(last) =~= s);
        assert(init.map_values(view).push(view(last)) =~= s.map_values(view));
        assert(view_key(view(last)) == key(last));
        assert(with_key(init, key, k).push(last).map_values(view) =~= with_key(
            init,
            key,
            k,
        ).map_values(view).push(view(last)));
    }
}

/// One sorted vector out of two, where the items of `left` come first among equals.
fn merge<T: Keyed>(left: Vec<T>, right: Vec<T>) -> (r: Vec<T>)
    requires
        sorted_by(left@, own_key::<T>()),
        sorted_by(right@, own_key::<T>()),
    ensures
        is_stable_sort(left@ + right@, r@, own_key::<T>()),
        r@.len() == left@.len() + right@.len(),
{
    let ghost key = own_key::<T>();
    let ghost whole = left@ + right@;
    let mut left = left;
    let mut right = right;
    // The merged items, last first.
    let mut back: Vec<T> = Vec::new();
    proof {
        assert forall|k: SortKey| #[trigger]
            with_key(whole, key, k) == with_key(left@, key, k) + with_key(right@, key, k)
                + with_key(back@.reverse(), key, k) by {
            lemma_with_key_concat(left@, right@, key, k);
            lemma_with_key_absent(back@.reverse(), key, k);
            assert(with_key(left@, key, k) + with_key(right@, key, k) + Seq::<T>::empty()
                =~= with_key(left@, key, k) + with_key(right@, key, k));
        }
    }
    while left.len() > 0 || right.len() > 0
        invariant
            key == own_key::<T>(),
            sorted_by(left@, key),
            sorted_by(right@, key),
            sorted_by(back@.reverse(), key),
            forall|i: int, j: int|
                0 <= i < left@.len() && 0 <= j < back@.len() ==> key_at_most(
                    key(#[trigger] left@[i]),
                    key(#[trigger] back@[j]),
                ),
            forall|i: int, j: int|
                0 <= i < right@.len() && 0 <= j < back@.len() ==> key_at_most(
                    key(#[trigger] right@[i]),
                    key(#[trigger] back@[j]),
                ),
            left@.len() + right@.len() + back@.len() == whole.len(),
            forall|k: SortKey| #[trigger]
                with_key(whole, key, k) == with_key(left@, key, k) + with_key(right@, key, k)
                    + with_key(back@.reverse(), key, k),
        decreases left.len() + right.len(),
    {
        let ghost (left0, right0, back0) = (left@, right@, back@);
        let from_left = if left.len() == 0 {
            false
        } else if right.len() == 0 {
            true
        } else {
            key_less(right[right.len() - 1].key(), left[left.len() - 1].key())
        };
        let item = if from_left {
            left.pop().unwrap()
        } else {
            right.pop().unwrap()
        };
        back.push(item);
        proof {
            let tail = back0.reverse();
            assert(back@.reverse() =~= seq![item] + tail);
            assert(back@[back0.len() as int] == item);
            if from_left {
                assert(left0 =~= left@.push(item));
            } else {
                assert(right0 =~= right@.push(item));
            }
            assert forall|i: int| 0 <= i < left@.len() implies key_at_most(
                key(#[trigger] left@[i]),
                key(item),
            ) by {
                assert(left@[i] == left0[i]);
                assert(key_at_most(key(left0[i]), key(left0[left0.len() - 1])));
            }
            assert forall|i: int| 0 <= i < right@.len() implies key_at_most(
                key(#[trigger] right@[i]),
                key(item),
            ) by {
                assert(right@[i] == right0[i]);
                assert(key_at_most(key(right0[i]), key(right0[right0.len() - 1])));
            }
            assert forall|i: int, j: int|
                0 <= i < left@.len() && 0 <= j < back@.len() implies key_at_most(
                key(#[trigger] left@[i]),
                key(#[trigger] back@[j]),
            ) by {
                assert(left@[i] == left0[i]);
                if j < back0.len() {
                    assert(back@[j] == back0[j]);
                }
            }
            assert forall|i: int, j: int|
                0 <= i < right@.len() && 0 <= j < back@.len() implies key_at_most(
                key(#[trigger] right@[i]),
                key(#[trigger] back@[j]),
            ) by {
                assert(right@[i] == right0[i]);
                if j < back0.len() {
                    assert(back@[j] == back0[j]);
                }
            }
            let now = back@.reverse();
            assert forall|i: int, j: int| 0 <= i <= j < now.len() implies key_at_most(
                key(now[i]),
                key(now[j]),
            ) by {
                if i == 0 && j > 0 {
                    assert(now[j] == back0[back0.len() - j]);
                    if from_left {
                        assert(left0[left0.len() - 1] == item);
                    } else {
                        assert(right0[right0.len() - 1] == item);
                    }
                } else if i > 0 {
                    assert(now[i] == tail[i - 1]);
                    assert(now[j] == tail[j - 1]);
                }
            }
            assert forall|k: SortKey| #[trigger]
                with_key(whole, key, k) == with_key(left@, key, k) + with_key(right@, key, k)
                    + with_key(back@.reverse(), key, k) by {
                lemma_with_key_concat(seq![item], tail, key, k);
                lemma_with_key_push(Seq::<T>::empty(), item, key, k);
                lemma_with_key_absent(Seq::<T>::empty(), key, k);
                assert(Seq::<T>::empty().push(item) =~= seq![item]);
                if from_left {
                    lemma_with_key_push(left@, item, key, k);
                    if key(item) == k {
                        assert forall|i: int| 0 <= i < right@.len() implies key(
                            #[trigger] right@[i],
                        ) != k by {
                            assert(key_at_most(key(right0[i]), key(right0[right0.len() - 1])));
                        }
                        lemma_with_key_absent(right@, key, k);
                    }
                } else {
                    lemma_with_key_push(right@, item, key, k);
                }
                assert(with_key(left@, key, k) + with_key(right@, key, k) + with_key(
                    back@.reverse(),
                    key,
                    k,
                ) =~= with_key(left0, key, k) + with_key(right0, key, k) + with_key(
                    tail,
                    key,
                    k,
                ));
            }
        }
    }
    let ghost merged = back@.reverse();
    let mut r: Vec<T> = Vec::new();
    while back.len() > 0
        invariant
            r@ + back@.reverse() == merged,
        decreases back.len(),
    {
        let ghost before = back@;
        let item = back.pop().unwrap();
        r.push(item);
        assert(before.reverse() =~= seq![item] + back@.reverse());
        assert(r@ + back@.reverse() =~= merged);
    }
    proof {
        assert(r@ =~= merged);
        assert forall|k: SortKey| #[trigger] with_key(r@, key, k) == with_key(whole, key, k) by {
            lemma_with_key_absent(left@, key, k);
            lemma_with_key_absent(right@, key, k);
            assert(Seq::<T>::empty() + Seq::<T>::empty() + with_key(r@, key, k) =~= with_key(
                r@,
                key,
                k,
            ));
        }
    }
    r
}

/// The items of `v`, sorted by their keys; those of one key keep their order.
fn sorted<T: Keyed>(v: Vec<T>) -> (r: Vec<T>)
    ensures
        is_stable_sort(v@, r@, own_key::<T>()),
        r@.len() == v@.len(),
    decreases v@.len(),
{
    let mut v = v;
    if v.len() <= 1 {
        return v;
    }
    let ghost whole = v@;
    let ghost key = own_key::<T>();
    let middle: usize = v.len() / 2;
    let right = v.split_off(middle);
    let ghost (left0, right0) = (v@, right@);
    assert(left0 + right0 =~= whole);
    let left = sorted(v);
    let right = sorted(right);
    let r = merge(left, right);
    proof {
        assert forall|k: SortKey| #[trigger] with_key(r@, key, k) == with_key(whole, key, k) by {
            lemma_with_key_concat(left@, right@, key, k);
            lemma_with_key_concat(left0, right0, key, k);
            assert(with_key(left@, key, k) == with_key(left0, key, k));
            assert(with_key(right@, key, k) == with_key(right0, key, k));
            assert(with_key(left@ + right@, key, k) == with_key(r@, key, k));
        }
    }
    r
}

/// Sorts `v` by key. Items of one key keep their order.
pub fn stable_sort<T: Keyed>(v: &mut Vec<T>)
    ensures
        is_stable_sort(old(v)@, final(v)@, own_key::<T>()),
        final(v)@.len() == old(v)@.len(),
{
    let mut taken: Vec<T> = Vec::new();
    std::mem::swap(v, &mut taken);
    *v = sorted(taken);
}

} // verus!
