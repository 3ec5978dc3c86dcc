//! Stable sorting.

use vstd::prelude::*;

verus! {

/// What can be sorted.
pub trait Sortable: Sized {
    /// Whether `self` goes before `other`.
    spec fn before(self, other: Self) -> bool;

    /// Nothing goes both before and after something.
    proof fn before_is_asymmetric(a: Self, b: Self)
        requires
            a.before(b),
        ensures
            !b.before(a),
    ;

    /// What does not go after something does not go after what that does not go after.
    proof fn not_after_is_transitive(a: Self, b: Self, c: Self)
        requires
            !b.before(a),
            !c.before(b),
        ensures
            !c.before(a),
    ;

    /// Whether `self` goes before `other`.
    fn is_before(&self, other: &Self) -> (r: bool)
        ensures
            r == self.before(*other),
    ;
}

/// Whether no item is after a later one.
pub open spec fn is_sorted<T: Sortable>(s: Seq<T>) -> bool {
    forall|i: int, j: int| 0 <= i < j < s.len() ==> !(#[trigger] s[j]).before(#[trigger] s[i])
}

/// How many of the first items of `s` do not go after `item`, up to the first which does.
pub open spec fn place_of<T: Sortable>(s: Seq<T>, item: T) -> nat
    decreases s.len(),
{
    if s.len() == 0 || item.before(s[0]) {
        0
    } else {
        1 + place_of(s.skip(1), item)
    }
}

/// `s` sorted: each item in turn is put before the first one that goes after it. So items of
/// which neither goes before the other keep their order.
pub open spec fn sorted<T: Sortable>(s: Seq<T>) -> Seq<T>
    decreases s.len(),
{
    if s.len() == 0 {
        s
    } else {
        let rest = sorted(s.drop_last());
        rest.insert(place_of(rest, s.last()) as int, s.last())
    }
}

/// `place_of` is the only position with no item after `item` before it, and one at it (or the
/// end).
proof fn lemma_place<T: Sortable>(s: Seq<T>, item: T, at: int)
    requires
        0 <= at <= s.len(),
        forall|i: int| 0 <= i < at ==> !item.before(#[trigger] s[i]),
        at < s.len() ==> item.before(s[at]),
    ensures
        place_of(s, item) == at,
    decreases s.len(),
{
    if at > 0 {
        assert forall|i: int| 0 <= i < at - 1 implies !item.before(#[trigger] s.skip(1)[i]) by {
            assert(s.skip(1)[i] == s[i + 1]);
        }
        assert(!item.before(s[0]));
        lemma_place(s.skip(1), item, at - 1);
    }
}

/// No item before `place_of` goes after `item`, and the one at it does.
proof fn lemma_place_bounds<T: Sortable>(s: Seq<T>, item: T)
    ensures
        place_of(s, item) <= s.len(),
        forall|i: int| 0 <= i < place_of(s, item) ==> !item.before(#[trigger] s[i]),
        place_of(s, item) < s.len() ==> item.before(s[place_of(s, item) as int]),
    decreases s.len(),
{
    if s.len() > 0 && !item.before(s[0]) {
        lemma_place_bounds(s.skip(1), item);
        assert forall|i: int| 0 <= i < place_of(s, item) implies !item.before(#[trigger] s[i]) by {
            if i > 0 {
                assert(s[i] == s.skip(1)[i - 1]);
            }
        }
        let at = place_of(s, item) as int;
        if at < s.len() {
            assert(s[at] == s.skip(1)[at - 1]);
        }
    }
}

/// In a sorted list, every item from the place of `item` on goes after it.
proof fn lemma_after_place<T: Sortable>(s: Seq<T>, item: T, i: int)
    requires
        is_sorted(s),
        place_of(s, item) <= i < s.len(),
    ensures
        item.before(s[i]),
{
    lemma_place_bounds(s, item);
    let at = place_of(s, item) as int;
    if !item.before(s[i]) {
        if i != at {
            assert(!s[i].before(s[at]));
            T::not_after_is_transitive(s[at], s[i], item);
        }
    }
}

/// `sorted` is sorted.
pub proof fn sorted_is_sorted<T: Sortable>(s: Seq<T>)
    ensures
        is_sorted(sorted(s)),
    decreases s.len(),
{
    if s.len() > 0 {
        sorted_is_sorted(s.drop_last());
        let rest = sorted(s.drop_last());
        let item = s.last();
        let at = place_of(rest, item) as int;
        lemma_place_bounds(rest, item);
        let whole = rest.insert(at, item);
        assert forall|i: int, j: int| 0 <= i < j < whole.len() implies !(#[trigger] whole[j]).before(
            #[trigger] whole[i],
        ) by {
            if i == at {
                assert(whole[j] == rest[j - 1]);
                lemma_after_place(rest, item, j - 1);
                T::before_is_asymmetric(item, rest[j - 1]);
            } else if j == at {
                assert(whole[i] == rest[i]);
            } else {
                let k = if i < at { i } else { i - 1 };
                let l = if j < at { j } else { j - 1 };
                assert(whole[i] == rest[k]);
                assert(whole[j] == rest[l]);
            }
        }
    }
}

/// Sorting keeps every item, as often as it was there.
pub proof fn sorted_keeps_the_items<T: Sortable>(s: Seq<T>)
    ensures
        sorted(s).to_multiset() == s.to_multiset(),
        sorted(s).len() == s.len(),
    decreases s.len(),
{
    if s.len() > 0 {
        sorted_keeps_the_items(s.drop_last());
        let rest = sorted(s.drop_last());
        let at = place_of(rest, s.last()) as int;
        lemma_place_bounds(rest, s.last());
        vstd::seq_lib::to_multiset_insert(rest, at, s.last());
        vstd::seq_lib::to_multiset_build(s.drop_last(), s.last());
        assert(s == s.drop_last().push(s.last()));
        assert(sorted(s).to_multiset() =~= s.to_multiset());
    }
}

/// Sorting a sorted list changes nothing.
pub proof fn sorting_again_changes_nothing<T: Sortable>(s: Seq<T>)
    requires
        is_sorted(s),
    ensures
        sorted(s) == s,
    decreases s.len(),
{
    if s.len() > 0 {
        let rest = s.drop_last();
        sorting_again_changes_nothing(rest);
        assert forall|i: int| 0 <= i < rest.len() implies !s.last().before(#[trigger] rest[i]) by {
            assert(rest[i] == s[i]);
        }
        lemma_place(rest, s.last(), rest.len() as int);
        assert(rest.insert(rest.len() as int, s.last()) == s);
    }
}

/// Two lists of the same items, in which any two items have an order, are sorted alike: the order
/// in which the items came does not matter.
pub proof fn order_of_arrival_does_not_matter<T: Sortable>(a: Seq<T>, b: Seq<T>)
    requires
        a.to_multiset() == b.to_multiset(),
        forall|i: int, j: int|
            0 <= i < j < a.len() ==> (#[trigger] a[i]).before(#[trigger] a[j]) || a[j].before(a[i]),
    ensures
        sorted(a) == sorted(b),
{
    sorted_is_sorted(a);
    sorted_is_sorted(b);
    sorted_keeps_the_items(a);
    sorted_keeps_the_items(b);
    assert forall|x: T, y: T| a.contains(x) && a.contains(y) && x != y implies #[trigger] x.before(y)
        || #[trigger] y.before(x) by {
        let i = choose|i: int| 0 <= i < a.len() && a[i] == x;
        let j = choose|j: int| 0 <= j < a.len() && a[j] == y;
        if i < j {
            assert(a[i].before(a[j]) || a[j].before(a[i]));
        } else {
            assert(a[j].before(a[i]) || a[i].before(a[j]));
        }
    }
    assert forall|x: T| #[trigger] sorted(a).contains(x) implies a.contains(x) by {
        sorted(a).to_multiset_ensures();
        a.to_multiset_ensures();
        assert(sorted(a).to_multiset().count(x) > 0);
    }
    lemma_same_items(sorted(a), sorted(b));
}

/// Two sorted lists of the same items, in which any two items have an order, are equal.
proof fn lemma_same_items<T: Sortable>(a: Seq<T>, b: Seq<T>)
    requires
        is_sorted(a),
        is_sorted(b),
        a.to_multiset() == b.to_multiset(),
        forall|x: T, y: T|
            a.contains(x) && a.contains(y) && x != y ==> #[trigger] x.before(y)
                || #[trigger] y.before(x),
    ensures
        a == b,
    decreases a.len(),
{
    a.to_multiset_ensures();
    b.to_multiset_ensures();
    assert(a.len() == a.to_multiset().len());
    assert(b.len() == b.to_multiset().len());
    if a.len() > 0 {
        let x = a[0];
        let y = b[0];
        assert(a.contains(x));
        assert(b.to_multiset().contains(y));
        assert(a.contains(y));
        assert(b.contains(x)) by {
            assert(a.to_multiset().contains(x));
        }
        if x != y {
            let i = choose|i: int| 0 <= i < a.len() && a[i] == y;
            let j = choose|j: int| 0 <= j < b.len() && b[j] == x;
            assert(!a[i].before(a[0]));
            assert(!b[j].before(b[0]));
        }
        let c = a.skip(1);
        let d = b.skip(1);
        assert(a.remove(0) == c);
        assert(b.remove(0) == d);
        vstd::seq_lib::to_multiset_remove(a, 0);
        vstd::seq_lib::to_multiset_remove(b, 0);
        assert forall|u: T| #[trigger] c.contains(u) implies a.contains(u) by {
            let k = choose|k: int| 0 <= k < c.len() && c[k] == u;
            assert(a[k + 1] == u);
        }
        assert forall|i: int, j: int| 0 <= i < j < c.len() implies !(#[trigger] c[j]).before(
            #[trigger] c[i],
        ) by {
            assert(c[i] == a[i + 1] && c[j] == a[j + 1]);
        }
        assert forall|i: int, j: int| 0 <= i < j < d.len() implies !(#[trigger] d[j]).before(
            #[trigger] d[i],
        ) by {
            assert(d[i] == b[i + 1] && d[j] == b[j + 1]);
        }
        lemma_same_items(c, d);
        assert(a == seq![x] + c);
        assert(b == seq![x] + d);
    }
}

/// Sorts `items`.
pub fn sort<T: Sortable>(items: &mut Vec<T>)
    ensures
        final(items)@ == sorted(old(items)@),
{
    let ghost all = items@;
    let mut done: usize = 0;
    assert(all.take(0) == Seq::<T>::empty());
    while done < items.len()
        invariant
            done <= items@.len() == all.len(),
            items@.take(done as int) == sorted(all.take(done as int)),
            items@.skip(done as int) == all.skip(done as int),
        decreases items@.len() - done,
    {
        let ghost first = items@.take(done as int);
        let ghost item = items@[done as int];
        proof {
            sorted_is_sorted(all.take(done as int));
            assert(item == items@.skip(done as int)[0]);
            assert(item == all[done as int]);
        }
        let mut low: usize = 0;
        let mut high: usize = done;
        while low < high
            invariant
                low <= high <= done < items@.len(),
                first == items@.take(done as int),
                item == items@[done as int],
                is_sorted(first),
                forall|i: int| 0 <= i < low ==> !item.before(#[trigger] first[i]),
                forall|i: int| high <= i < done ==> item.before(#[trigger] first[i]),
            decreases high - low,
        {
            let middle: usize = low + (high - low) / 2;
            assert(first[middle as int] == items@[middle as int]);
            if items[done].is_before(&items[middle]) {
                assert forall|i: int| middle <= i < done implies item.before(
                    #[trigger] first[i],
                ) by {
                    if !item.before(first[i]) && i > middle {
                        assert(!first[i].before(first[middle as int]));
                        T::not_after_is_transitive(first[middle as int], first[i], item);
                    }
                }
                high = middle;
            } else {
                assert forall|i: int| 0 <= i < middle + 1 implies !item.before(
                    #[trigger] first[i],
                ) by {
                    if i < middle {
                        assert(!first[middle as int].before(first[i]));
                        T::not_after_is_transitive(first[i], first[middle as int], item);
                    }
                }
                low = middle + 1;
            }
        }
        proof {
            lemma_place(first, item, low as int);
            assert(all.take(done + 1).drop_last() == all.take(done as int));
        }
        let ghost before = items@;
        let moved: T = items.remove(done);
        items.insert(low, moved);
        assert(items@.take(done + 1) == first.insert(low as int, item));
        assert(items@.skip(done + 1) == all.skip(done + 1)) by {
            assert(before.skip(done as int).skip(1) == before.skip(done + 1));
            assert(all.skip(done as int).skip(1) == all.skip(done + 1));
            assert(items@.skip(done + 1) == before.skip(done + 1));
        }
        done += 1;
    }
    assert(items@.take(done as int) == items@);
    assert(all.take(done as int) == all);
}

} // verus!
