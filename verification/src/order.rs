//! Stable sorting by a caller's order, and the order of texts.

use vstd::prelude::*;

verus! {

/// Where `item` goes in `sorted` so that it follows everything it does not
/// come before: just in front of the trailing run of elements that `item`
/// comes before.
pub open spec fn insert_position<T>(sorted: Seq<T>, item: T, before: spec_fn(T, T) -> bool) -> int
    decreases sorted.len(),
{
    if sorted.len() == 0 {
        0
    } else if before(item, sorted.last()) {
        insert_position(sorted.drop_last(), item, before)
    } else {
        sorted.len() as int
    }
}

/// `items` in the order of `before`, elements that tie keeping the order
/// they came in: each element in turn is inserted behind everything it does
/// not come before.
pub open spec fn stable_sort<T>(items: Seq<T>, before: spec_fn(T, T) -> bool) -> Seq<T>
    decreases items.len(),
{
    if items.len() == 0 {
        Seq::empty()
    } else {
        let sorted = stable_sort(items.drop_last(), before);
        sorted.insert(insert_position(sorted, items.last(), before), items.last())
    }
}

/// Whether `before` is a strict weak order: no two elements come each before
/// the other, and whenever `a` comes before `c`, any `b` is placed after `a`
/// or before `c`.
pub open spec fn strict_weak_order<T>(before: spec_fn(T, T) -> bool) -> bool {
    &&& forall|a: T, b: T| !(#[trigger] before(a, b) && #[trigger] before(b, a))
    &&& forall|a: T, b: T, c: T| #[trigger]
        before(a, c) ==> #[trigger] before(a, b) || #[trigger] before(b, c)
}

/// Whether no element of `items` comes before an earlier one.
pub open spec fn in_order<T>(items: Seq<T>, before: spec_fn(T, T) -> bool) -> bool {
    forall|i: int, j: int| 0 <= i < j < items.len() ==> !before(#[trigger] items[j], #[trigger] items[i])
}

/// The insert position lies inside the sequence, everything from it on
/// comes after `item`, and the element in front of it, if any, does not.
pub proof fn lemma_insert_position<T>(sorted: Seq<T>, item: T, before: spec_fn(T, T) -> bool)
    ensures
        0 <= insert_position(sorted, item, before) <= sorted.len(),
        forall|k: int|
            insert_position(sorted, item, before) <= k < sorted.len() ==> before(
                item,
                #[trigger] sorted[k],
            ),
        insert_position(sorted, item, before) > 0 ==> !before(
            item,
            sorted[insert_position(sorted, item, before) - 1],
        ),
    decreases sorted.len(),
{
    if sorted.len() > 0 && before(item, sorted.last()) {
        let front = sorted.drop_last();
        lemma_insert_position(front, item, before);
        assert forall|k: int|
            insert_position(sorted, item, before) <= k < sorted.len() implies before(
            item,
            #[trigger] sorted[k],
        ) by {
            if k < front.len() {
                assert(front[k] == sorted[k]);
            }
        }
        if insert_position(sorted, item, before) > 0 {
            assert(front[insert_position(front, item, before) - 1] == sorted[insert_position(
                sorted,
                item,
                before,
            ) - 1]);
        }
    }
}

/// Sorting rearranges: the result holds the same elements, each as often.
pub proof fn lemma_stable_sort_permutes<T>(items: Seq<T>, before: spec_fn(T, T) -> bool)
    ensures
        stable_sort(items, before).to_multiset() == items.to_multiset(),
    decreases items.len(),
{
    broadcast use vstd::seq_lib::group_to_multiset_ensures;

    if items.len() > 0 {
        let rest = items.drop_last();
        let sorted = stable_sort(rest, before);
        lemma_stable_sort_permutes(rest, before);
        lemma_insert_position(sorted, items.last(), before);
        let at = insert_position(sorted, items.last(), before);
        assert(sorted.insert(at, items.last()).to_multiset() =~= sorted.to_multiset().insert(
            items.last(),
        ));
        assert(items =~= rest.push(items.last()));
    } else {
        assert(items =~= Seq::<T>::empty());
    }
}

/// Under a strict weak order the result of sorting is in order.
pub proof fn lemma_stable_sort_in_order<T>(items: Seq<T>, before: spec_fn(T, T) -> bool)
    requires
        strict_weak_order(before),
    ensures
        in_order(stable_sort(items, before), before),
    decreases items.len(),
{
    if items.len() > 0 {
        let sorted = stable_sort(items.drop_last(), before);
        let item = items.last();
        lemma_stable_sort_in_order(items.drop_last(), before);
        lemma_insert_position(sorted, item, before);
        let at = insert_position(sorted, item, before);
        let result = sorted.insert(at, item);
        assert forall|i: int, j: int| 0 <= i < j < result.len() implies !before(
            #[trigger] result[j],
            #[trigger] result[i],
        ) by {
            if j == at {
                // result[i] lies in front of the item, at or before the
                // element that the item does not come before
                assert(result[i] == sorted[i]);
                let prev = sorted[at - 1];
                if before(item, sorted[i]) {
                    assert(before(item, prev) || before(prev, sorted[i]));
                    assert(i < at - 1);
                }
            } else if i == at {
                assert(result[j] == sorted[j - 1]);
                assert(before(item, sorted[j - 1]));
            } else {
                let si = if i < at {
                    i
                } else {
                    i - 1
                };
                let sj = if j < at {
                    j
                } else {
                    j - 1
                };
                assert(result[i] == sorted[si]);
                assert(result[j] == sorted[sj]);
            }
        }
    }
}

/// Sorts `items` by the order that `is_before` decides, keeping elements
/// that tie in the order they came in. `before` is that order on the deep
/// views of the elements.
pub(crate) fn sort_stable<T: DeepView, F: Fn(&T, &T) -> bool>(
    items: Vec<T>,
    is_before: F,
    Ghost(before): Ghost<spec_fn(T::V, T::V) -> bool>,
) -> (sorted: Vec<T>)
    requires
        forall|a: &T, b: &T| call_requires(is_before, (a, b)),
        forall|a: &T, b: &T, r: bool|
            call_ensures(is_before, (a, b), r) ==> r == before(a.deep_view(), b.deep_view()),
    ensures
        sorted.deep_view() == stable_sort(items.deep_view(), before),
        sorted.len() == items.len(),
        sorted@.to_multiset() == items@.to_multiset(),
{
    broadcast use vstd::seq_lib::group_to_multiset_ensures;

    let ghost all = items.deep_view();
    let ghost given = items@;
    let mut rest = items;
    let mut sorted: Vec<T> = Vec::new();
    let ghost mut done: int = 0;
    assert(all.take(0) =~= Seq::<T::V>::empty());
    assert(sorted.deep_view() =~= Seq::<T::V>::empty());
    assert(given.take(0) =~= Seq::<T>::empty());
    while rest.len() > 0
        invariant
            0 <= done <= all.len(),
            all.len() == given.len(),
            rest@ == given.skip(done),
            forall|i: int| 0 <= i < given.len() ==> (#[trigger] given[i]).deep_view() == all[i],
            sorted.deep_view() == stable_sort(all.take(done), before),
            sorted.len() == done,
            sorted@.to_multiset() == given.take(done).to_multiset(),
            forall|a: &T, b: &T| call_requires(is_before, (a, b)),
            forall|a: &T, b: &T, r: bool|
                call_ensures(is_before, (a, b), r) ==> r == before(a.deep_view(), b.deep_view()),
        decreases rest.len(),
    {
        let item = rest.remove(0);
        assert(item == given[done]);
        let ghost views = sorted.deep_view();
        let mut at: usize = sorted.len();
        assert(views.take(at as int) =~= views);
        while at > 0 && is_before(&item, &sorted[at - 1])
            invariant
                at <= sorted.len(),
                views == sorted.deep_view(),
                insert_position(views, item.deep_view(), before) == insert_position(
                    views.take(at as int),
                    item.deep_view(),
                    before,
                ),
                forall|a: &T, b: &T| call_requires(is_before, (a, b)),
                forall|a: &T, b: &T, r: bool|
                    call_ensures(is_before, (a, b), r) ==> r == before(
                        a.deep_view(),
                        b.deep_view(),
                    ),
            decreases at,
        {
            assert(views.take(at as int).last() == sorted@[at - 1].deep_view());
            assert(views.take(at as int).drop_last() =~= views.take(at - 1));
            at -= 1;
        }
        proof {
            if at > 0 {
                assert(views.take(at as int).last() == sorted@[at - 1].deep_view());
            }
            assert(insert_position(views, item.deep_view(), before) == at);
            assert(all.take(done + 1).drop_last() =~= all.take(done));
            assert(all.take(done + 1).last() == item.deep_view());
            assert(given.take(done + 1) =~= given.take(done).push(item));
            vstd::seq_lib::to_multiset_insert(sorted@, at as int, item);
            vstd::seq_lib::to_multiset_build(given.take(done), item);
        }
        let ghost old_sorted = sorted@;
        sorted.insert(at, item);
        proof {
            assert(sorted.deep_view() =~= views.insert(at as int, item.deep_view())) by {
                assert forall|i: int| 0 <= i < sorted@.len() implies sorted.deep_view()[i]
                    == views.insert(at as int, item.deep_view())[i] by {
                    if i < at {
                        assert(sorted@[i] == old_sorted[i]);
                    } else if i > at {
                        assert(sorted@[i] == old_sorted[i - 1]);
                    }
                }
            }
            assert(given.skip(done).skip(1) =~= given.skip(done + 1));
            done = done + 1;
        }
    }
    assert(given.skip(done).len() == 0);
    assert(all.take(done) =~= all);
    assert(given.take(done) =~= given);
    sorted
}

/// Whether text `a` comes before text `b` in lexicographic order of
/// character codes. For strings this is the order of their UTF-8 bytes.
pub open spec fn text_before(a: Seq<char>, b: Seq<char>) -> bool
    decreases a.len(),
{
    if b.len() == 0 {
        false
    } else if a.len() == 0 {
        true
    } else if a[0] != b[0] {
        a[0] < b[0]
    } else {
        text_before(a.drop_first(), b.drop_first())
    }
}

/// Decides `text_before`.
pub fn precedes_text(a: &Vec<char>, b: &Vec<char>) -> (less: bool)
    ensures
        less == text_before(a@, b@),
{
    let mut i: usize = 0;
    assert(a@.skip(0) =~= a@);
    assert(b@.skip(0) =~= b@);
    loop
        invariant
            i <= a.len(),
            i <= b.len(),
            text_before(a@, b@) == text_before(a@.skip(i as int), b@.skip(i as int)),
        decreases a.len() - i,
    {
        if i == b.len() {
            return false;
        }
        if i == a.len() {
            return true;
        }
        let x: char = a[i];
        let y: char = b[i];
        assert(a@.skip(i as int)[0] == a@[i as int]);
        assert(b@.skip(i as int)[0] == b@[i as int]);
        if x != y {
            return x < y;
        }
        assert(a@.skip(i as int).drop_first() =~= a@.skip(i + 1));
        assert(b@.skip(i as int).drop_first() =~= b@.skip(i + 1));
        i += 1;
    }
}

/// No text comes before itself, and of two texts at most one comes before
/// the other.
pub proof fn lemma_text_before_asymmetric(a: Seq<char>, b: Seq<char>)
    ensures
        !(text_before(a, b) && text_before(b, a)),
    decreases a.len(),
{
    if a.len() > 0 && b.len() > 0 && a[0] == b[0] {
        lemma_text_before_asymmetric(a.drop_first(), b.drop_first());
    }
}

/// Of two different texts one comes before the other.
pub proof fn lemma_text_before_total(a: Seq<char>, b: Seq<char>)
    requires
        a != b,
    ensures
        text_before(a, b) || text_before(b, a),
    decreases a.len(),
{
    if a.len() > 0 && b.len() > 0 && a[0] == b[0] {
        if a.drop_first() == b.drop_first() {
            assert(a =~= seq![a[0]] + a.drop_first());
            assert(b =~= seq![b[0]] + b.drop_first());
        }
        lemma_text_before_total(a.drop_first(), b.drop_first());
    } else if a.len() == 0 && b.len() == 0 {
        assert(a =~= b);
    }
}

/// Whenever `a` comes before `c`, any text `b` comes after `a` or before
/// `c`.
pub proof fn lemma_text_before_between(a: Seq<char>, b: Seq<char>, c: Seq<char>)
    requires
        text_before(a, c),
    ensures
        text_before(a, b) || text_before(b, c),
    decreases a.len(),
{
    if a.len() > 0 && b.len() > 0 && c.len() > 0 && a[0] == b[0] && a[0] == c[0] {
        lemma_text_before_between(a.drop_first(), b.drop_first(), c.drop_first());
    }
}

/// An order that compares integer keys, greater keys first, is a strict
/// weak order.
pub proof fn lemma_key_order<T>(before: spec_fn(T, T) -> bool, key: spec_fn(T) -> int)
    requires
        forall|a: T, b: T| #[trigger] before(a, b) == (key(a) > key(b)),
    ensures
        strict_weak_order(before),
{
    assert forall|a: T, b: T, c: T| #[trigger] before(a, c) implies #[trigger] before(a, b)
        || #[trigger] before(b, c) by {
        assert(before(a, b) == (key(a) > key(b)));
        assert(before(b, c) == (key(b) > key(c)));
    }
}

/// Hands each element of `items` with its index to `f`, in order, and
/// collects what `f` returns.
pub(crate) fn map_owned<T, U, F: Fn(T, usize) -> U>(items: Vec<T>, f: F) -> (out: Vec<U>)
    requires
        forall|i: usize| i < items.len() ==> call_requires(f, (#[trigger] items@[i as int], i)),
    ensures
        out.len() == items.len(),
        forall|i: usize|
            i < items.len() ==> call_ensures(f, (items@[i as int], i), #[trigger] out@[i as int]),
{
    let ghost given = items@;
    let total = items.len();
    let mut rest = items;
    let mut out: Vec<U> = Vec::new();
    let mut done: usize = 0;
    while rest.len() > 0
        invariant
            total == given.len(),
            done + rest.len() == total,
            rest@ == given.skip(done as int),
            out.len() == done,
            forall|i: usize| i < total ==> call_requires(f, (#[trigger] given[i as int], i)),
            forall|i: usize|
                i < done ==> call_ensures(f, (given[i as int], i), #[trigger] out@[i as int]),
        decreases rest.len(),
    {
        let item = rest.remove(0);
        assert(item == given[done as int]);
        let mapped = f(item, done);
        out.push(mapped);
        assert(given.skip(done as int).skip(1) =~= given.skip(done + 1));
        done += 1;
    }
    out
}

} // verus!
