//! Comparing many values with each other.

use vstd::prelude::*;

use crate::text;

verus! {

/// What can be told apart by its content.
pub trait Same: Copy {
    type Content;

    /// What the value stands for.
    spec fn content(&self) -> Self::Content;

    /// Whether two values stand for the same.
    fn same(&self, other: &Self) -> (r: bool)
        ensures
            r == (self.content() == other.content()),
    ;
}

impl Same for &str {
    type Content = Seq<char>;

    open spec fn content(&self) -> Seq<char> {
        self@
    }

    fn same(&self, other: &Self) -> (r: bool) {
        text::same(*self, *other)
    }
}

impl Same for Option<&str> {
    type Content = Option<Seq<char>>;

    open spec fn content(&self) -> Option<Seq<char>> {
        crate::options::optional_str(*self)
    }

    fn same(&self, other: &Self) -> (r: bool) {
        match (self, other) {
            (Some(a), Some(b)) => text::same(*a, *b),
            (None, None) => true,
            _ => false,
        }
    }
}

/// What each value of a list stands for.
pub open spec fn contents<T: Same>(values: Seq<T>) -> Seq<T::Content> {
    values.map_values(|value: T| value.content())
}

/// The value of which all items of `s` are, if there is one.
pub open spec fn unique<C>(s: Seq<C>) -> Option<C> {
    if s.len() > 0 && forall|i: int| 0 <= i < s.len() ==> #[trigger] s[i] == s[0] {
        Some(s[0])
    } else {
        None
    }
}

/// Position of the first item of `s` which is not `first`, or the length of `s`.
pub open spec fn first_other<C>(s: Seq<C>, first: C) -> int
    decreases s.len(),
{
    if s.len() == 0 || s[0] != first {
        0
    } else {
        1 + first_other(s.skip(1), first)
    }
}

/// The first item of `s`, and the first one after it which differs from it.
pub open spec fn two_different<C>(s: Seq<C>) -> Option<(C, C)> {
    let at = first_other(s, s[0]);
    if s.len() > 0 && 0 <= at < s.len() {
        Some((s[0], s[at]))
    } else {
        None
    }
}

/// `first_other` is the only position with only `first` before it and something else (or the end)
/// at it.
proof fn lemma_first_other<C>(s: Seq<C>, first: C, at: int)
    requires
        0 <= at <= s.len(),
        forall|i: int| 0 <= i < at ==> #[trigger] s[i] == first,
        at < s.len() ==> s[at] != first,
    ensures
        first_other(s, first) == at,
    decreases s.len(),
{
    if at > 0 {
        assert(s[0] == first);
        assert forall|i: int| 0 <= i < at - 1 implies #[trigger] s.skip(1)[i] == first by {
            assert(s.skip(1)[i] == s[i + 1]);
        }
        lemma_first_other(s.skip(1), first, at - 1);
    }
}

/// If all `values` are equal to a unique value, yields it. Otherwise, yields [`None`].
pub fn unique_value<T: Same>(values: &[T]) -> (value: Option<T>)
    ensures
        match value {
            Some(value) => unique(contents(values@)) == Some(value.content()),
            None => unique(contents(values@)) is None,
        },
{
    let ghost all = contents(values@);
    if values.len() == 0 {
        return None;
    }
    let mut i: usize = 1;
    while i < values.len()
        invariant
            1 <= i <= values@.len(),
            all == contents(values@),
            forall|j: int| 0 <= j < i ==> #[trigger] all[j] == all[0],
        decreases values@.len() - i,
    {
        if !values[i].same(&values[0]) {
            assert(all[i as int] != all[0]);
            return None;
        }
        i += 1;
    }
    Some(values[0])
}

/// Yields the first of `values`, and the first one after that which is different from it, or
/// [`None`] if no such value can be found.
pub fn two_different_values<T: Same>(values: &[T]) -> (pair: Option<[T; 2]>)
    ensures
        match pair {
            Some(pair) => two_different(contents(values@)) == Some(
                (pair[0].content(), pair[1].content()),
            ),
            None => two_different(contents(values@)) is None,
        },
{
    let ghost all = contents(values@);
    if values.len() == 0 {
        return None;
    }
    let mut i: usize = 1;
    while i < values.len()
        invariant
            1 <= i <= values@.len(),
            all == contents(values@),
            forall|j: int| 0 <= j < i ==> #[trigger] all[j] == all[0],
        decreases values@.len() - i,
    {
        if !values[i].same(&values[0]) {
            proof {
                lemma_first_other(all, all[0], i as int);
            }
            return Some([values[0], values[i]]);
        }
        i += 1;
    }
    proof {
        lemma_first_other(all, all[0], i as int);
    }
    None
}

/// A list which is not empty has a unique value if and only if it has no two different ones.
pub proof fn unique_or_two_different<C>(s: Seq<C>)
    requires
        s.len() > 0,
    ensures
        unique(s) is Some <==> two_different(s) is None,
        two_different(s) matches Some((a, b)) ==> a != b && s.contains(a) && s.contains(b),
{
    lemma_first_other_bounds(s, s[0]);
}

/// Only `first` stands before `first_other`, and something else at it.
proof fn lemma_first_other_bounds<C>(s: Seq<C>, first: C)
    ensures
        0 <= first_other(s, first) <= s.len(),
        forall|i: int| 0 <= i < first_other(s, first) ==> #[trigger] s[i] == first,
        first_other(s, first) < s.len() ==> s[first_other(s, first)] != first,
    decreases s.len(),
{
    if s.len() > 0 && s[0] == first {
        lemma_first_other_bounds(s.skip(1), first);
        assert forall|i: int| 0 <= i < first_other(s, first) implies #[trigger] s[i] == first by {
            if i > 0 {
                assert(s.skip(1)[i - 1] == s[i]);
            }
        }
    }
}

/// A list has a unique value if and only if it has some value, and no other one.
pub proof fn unique_is_the_only_one<C>(s: Seq<C>, value: C)
    ensures
        unique(s) == Some(value) <==> s.len() > 0 && forall|i: int|
            0 <= i < s.len() ==> #[trigger] s[i] == value,
{
    if s.len() > 0 && forall|i: int| 0 <= i < s.len() ==> #[trigger] s[i] == value {
        assert(s[0] == value);
    }
    if unique(s) == Some(value) {
        assert forall|i: int| 0 <= i < s.len() implies #[trigger] s[i] == value by {
            assert(s[i] == s[0]);
        }
    }
}

/// Of two different values, one is the first of all, and only that one stands before the other.
pub proof fn different_values_are_the_first<C>(s: Seq<C>)
    requires
        two_different(s) is Some,
    ensures
        two_different(s) matches Some((a, b)) && a == s[0] && exists|at: int|
            #![trigger s[at]]
            0 < at < s.len() && b == s[at] && s[at] != s[0] && forall|i: int|
                0 <= i < at ==> #[trigger] s[i] == s[0],
{
    lemma_first_other_bounds(s, s[0]);
    let at = first_other(s, s[0]);
    assert(s[at] != s[0]);
}

} // verus!
