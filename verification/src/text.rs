//! Reading text: prefixes and suffixes, splitting, ASCII letters, numbers in decimal and bytes in
//! hexadecimal.
//!
//! A `str` stands for the sequence of its characters, and positions count characters.

use vstd::prelude::*;

verus! {

broadcast use vstd::seq_lib::group_seq_properties;

// ---------------------------------------------------------------------------------------------
// Characters and equality

/// The text of each `str` in a list.
pub open spec fn texts(list: Seq<&str>) -> Seq<Seq<char>> {
    list.map_values(|s: &str| s@)
}

/// The characters of `s`, in order.
pub fn to_chars(s: &str) -> (chars: Vec<char>)
    ensures
        chars@ == s@,
{
    let mut chars: Vec<char> = Vec::new();
    for c in iter: s.chars()
        invariant
            chars@ == s@.take(iter.index() as int),
            iter.seq() == s@,
    {
        chars.push(c);
        assert(s@.take(iter.index() as int + 1) == s@.take(iter.index() as int).push(c));
    }
    assert(s@.take(s@.len() as int) == s@);
    chars
}

/// Whether `chars` spells `s`.
pub fn spells(chars: &[char], s: &str) -> (equal: bool)
    ensures
        equal == (chars@ == s@),
{
    let other: Vec<char> = to_chars(s);
    if chars.len() != other.len() {
        return false;
    }
    let mut i: usize = 0;
    while i < chars.len()
        invariant
            i <= chars@.len() == other@.len(),
            other@ == s@,
            chars@.take(i as int) == other@.take(i as int),
        decreases chars@.len() - i,
    {
        if chars[i] != other[i] {
            return false;
        }
        assert(chars@.take(i + 1) == chars@.take(i as int).push(chars@[i as int]));
        assert(other@.take(i + 1) == other@.take(i as int).push(other@[i as int]));
        i += 1;
    }
    assert(chars@.take(i as int) == chars@);
    assert(other@.take(i as int) == other@);
    true
}

/// Whether two texts are equal.
pub fn same(a: &str, b: &str) -> (equal: bool)
    ensures
        equal == (a@ == b@),
{
    let chars: Vec<char> = to_chars(a);
    spells(chars.as_slice(), b)
}

// ---------------------------------------------------------------------------------------------
// Prefixes and suffixes

/// What follows `prefix` in `s`, if `s` starts with it.
pub fn strip_prefix<'a>(s: &'a str, prefix: &str) -> (rest: Option<&'a str>)
    ensures
        match rest {
            Some(rest) => prefix@.is_prefix_of(s@) && rest@ == s@.skip(prefix@.len() as int),
            None => !prefix@.is_prefix_of(s@),
        },
{
    let n: usize = prefix.unicode_len();
    let len: usize = s.unicode_len();
    if n > len {
        return None;
    }
    if same(s.substring_char(0, n), prefix) {
        Some(s.substring_char(n, len))
    } else {
        None
    }
}

/// What precedes `suffix` in `s`, if `s` ends with it.
pub fn strip_suffix<'a>(s: &'a str, suffix: &str) -> (rest: Option<&'a str>)
    ensures
        match rest {
            Some(rest) => suffix@.is_suffix_of(s@) && rest@ == s@.take(s@.len() - suffix@.len()),
            None => !suffix@.is_suffix_of(s@),
        },
{
    let n: usize = suffix.unicode_len();
    let len: usize = s.unicode_len();
    if n > len {
        return None;
    }
    if same(s.substring_char(len - n, len), suffix) {
        Some(s.substring_char(0, len - n))
    } else {
        None
    }
}

/// Whether `s` starts with `prefix`.
pub fn starts_with(s: &str, prefix: &str) -> (starts: bool)
    ensures
        starts == prefix@.is_prefix_of(s@),
{
    strip_prefix(s, prefix).is_some()
}

/// Whether `s` ends with `suffix`.
pub fn ends_with(s: &str, suffix: &str) -> (ends: bool)
    ensures
        ends == suffix@.is_suffix_of(s@),
{
    strip_suffix(s, suffix).is_some()
}

/// Whether `part` occurs in `s`.
pub open spec fn occurs_in(part: Seq<char>, s: Seq<char>) -> bool {
    exists|i: int| 0 <= i <= s.len() && part.is_prefix_of(#[trigger] s.skip(i))
}

/// Whether `s` contains `part`.
pub fn contains(s: &str, part: &str) -> (found: bool)
    ensures
        found == occurs_in(part@, s@),
{
    let len: usize = s.unicode_len();
    let mut i: usize = 0;
    loop
        invariant
            i <= len == s@.len(),
            forall|j: int| 0 <= j < i ==> !part@.is_prefix_of(#[trigger] s@.skip(j)),
        decreases len - i,
    {
        if starts_with(s.substring_char(i, len), part) {
            assert(s@.subrange(i as int, len as int) == s@.skip(i as int));
            return true;
        }
        assert(s@.subrange(i as int, len as int) == s@.skip(i as int));
        if i == len {
            return false;
        }
        i += 1;
    }
}

// ---------------------------------------------------------------------------------------------
// Separators

/// Position of the first character of `s` that is in `seps`, or the length of `s`.
pub open spec fn first_of(s: Seq<char>, seps: Seq<char>) -> int
    decreases s.len(),
{
    if s.len() == 0 || seps.contains(s[0]) {
        0
    } else {
        1 + first_of(s.skip(1), seps)
    }
}

/// Position of the last `c` in `s`, or `-1`.
pub open spec fn last_of(s: Seq<char>, c: char) -> int
    decreases s.len(),
{
    if s.len() == 0 || s.last() == c {
        s.len() - 1
    } else {
        last_of(s.drop_last(), c)
    }
}

/// The parts of `s` between its characters in `seps`. There is always at least one.
pub open spec fn pieces(s: Seq<char>, seps: Seq<char>) -> Seq<Seq<char>>
    decreases s.len(),
{
    let at = first_of(s, seps);
    if 0 <= at < s.len() {
        seq![s.take(at)] + pieces(s.skip(at + 1), seps)
    } else {
        seq![s]
    }
}

/// `s` without its trailing characters in `seps`.
pub open spec fn trimmed_end(s: Seq<char>, seps: Seq<char>) -> Seq<char>
    decreases s.len(),
{
    if s.len() > 0 && seps.contains(s.last()) {
        trimmed_end(s.drop_last(), seps)
    } else {
        s
    }
}

/// `first_of` is the only position with no separator before it and a separator (or the end) at it.
pub proof fn lemma_first_of(s: Seq<char>, seps: Seq<char>, at: int)
    requires
        0 <= at <= s.len(),
        forall|j: int| 0 <= j < at ==> !seps.contains(#[trigger] s[j]),
        at < s.len() ==> seps.contains(s[at]),
    ensures
        first_of(s, seps) == at,
    decreases s.len(),
{
    if at > 0 {
        assert forall|j: int| 0 <= j < at - 1 implies !seps.contains(#[trigger] s.skip(1)[j]) by {
            assert(s.skip(1)[j] == s[j + 1]);
        }
        lemma_first_of(s.skip(1), seps, at - 1);
    }
}

/// `first_of` lies within `s`, has no separator before it, and a separator at it unless it is the
/// end.
pub proof fn lemma_first_of_bounds(s: Seq<char>, seps: Seq<char>)
    ensures
        0 <= first_of(s, seps) <= s.len(),
        forall|j: int| 0 <= j < first_of(s, seps) ==> !seps.contains(#[trigger] s[j]),
        first_of(s, seps) < s.len() ==> seps.contains(s[first_of(s, seps)]),
    decreases s.len(),
{
    if s.len() > 0 && !seps.contains(s[0]) {
        lemma_first_of_bounds(s.skip(1), seps);
        assert forall|j: int| 0 <= j < first_of(s, seps) implies !seps.contains(#[trigger] s[j]) by {
            if j > 0 {
                assert(s.skip(1)[j - 1] == s[j]);
            }
        }
    }
}

/// The text before the first separator is the first piece.
pub proof fn lemma_first_piece(before: Seq<char>, sep: char, after: Seq<char>)
    requires
        !before.contains(sep),
    ensures
        pieces(before + seq![sep] + after, seq![sep]) == seq![before] + pieces(after, seq![sep]),
{
    let whole = before + seq![sep] + after;
    assert forall|j: int| 0 <= j < before.len() implies !seq![sep].contains(
        #[trigger] whole[j],
    ) by {
        assert(whole[j] == before[j]);
        assert(before.contains(before[j]));
    }
    assert(whole[before.len() as int] == sep);
    assert(seq![sep][0] == sep);
    lemma_first_of(whole, seq![sep], before.len() as int);
    assert(whole.take(before.len() as int) == before);
    assert(whole.skip(before.len() as int + 1) == after);
}

/// A text without separators is its only piece.
pub proof fn lemma_only_piece(s: Seq<char>, sep: char)
    requires
        !s.contains(sep),
    ensures
        pieces(s, seq![sep]) == seq![s],
{
    assert forall|j: int| 0 <= j < s.len() implies !seq![sep].contains(#[trigger] s[j]) by {
        assert(s.contains(s[j]));
    }
    lemma_first_of(s, seq![sep], s.len() as int);
}

/// Whether `c` is in `set`.
pub fn is_in(c: char, set: &[char]) -> (found: bool)
    ensures
        found == set@.contains(c),
{
    let mut i: usize = 0;
    while i < set.len()
        invariant
            i <= set@.len(),
            forall|j: int| 0 <= j < i ==> set@[j] != c,
        decreases set@.len() - i,
    {
        if set[i] == c {
            return true;
        }
        i += 1;
    }
    false
}

/// Position of the first character of `s` that is in `seps`, or the length of `s`.
pub fn find_first(s: &str, seps: &[char]) -> (at: usize)
    ensures
        at == first_of(s@, seps@),
        at <= s@.len(),
{
    let chars: Vec<char> = to_chars(s);
    let mut i: usize = 0;
    while i < chars.len()
        invariant
            i <= chars@.len(),
            chars@ == s@,
            forall|j: int| 0 <= j < i ==> !seps@.contains(#[trigger] s@[j]),
        decreases chars@.len() - i,
    {
        if is_in(chars[i], seps) {
            proof {
                lemma_first_of(s@, seps@, i as int);
            }
            return i;
        }
        i += 1;
    }
    proof {
        lemma_first_of(s@, seps@, i as int);
    }
    i
}

/// Position of the last `c` in `s`, if there is one.
pub fn find_last(s: &str, c: char) -> (at: Option<usize>)
    ensures
        match at {
            Some(at) => at < s@.len() && at == last_of(s@, c),
            None => last_of(s@, c) == -1,
        },
{
    let chars: Vec<char> = to_chars(s);
    let mut i: usize = chars.len();
    assert(s@.take(i as int) == s@);
    while i > 0
        invariant
            i <= chars@.len(),
            chars@ == s@,
            last_of(s@, c) == last_of(s@.take(i as int), c),
        decreases i,
    {
        if chars[i - 1] == c {
            return Some(i - 1);
        }
        assert(s@.take(i as int).drop_last() == s@.take(i - 1));
        i -= 1;
    }
    None
}

/// Splits `s` at its first character in `seps`.
pub fn split_once<'a>(s: &'a str, seps: &[char]) -> (parts: Option<(&'a str, &'a str)>)
    ensures
        match parts {
            Some((before, after)) => {
                let at = first_of(s@, seps@);
                &&& at < s@.len()
                &&& before@ == s@.take(at)
                &&& after@ == s@.skip(at + 1)
            },
            None => first_of(s@, seps@) == s@.len(),
        },
{
    let at: usize = find_first(s, seps);
    let len: usize = s.unicode_len();
    if at < len {
        Some((s.substring_char(0, at), s.substring_char(at + 1, len)))
    } else {
        None
    }
}

/// Splits `s` at each of its characters in `seps`.
pub fn split<'a>(s: &'a str, seps: &[char]) -> (parts: Vec<&'a str>)
    ensures
        texts(parts@) == pieces(s@, seps@),
{
    let mut parts: Vec<&'a str> = Vec::new();
    let mut rest: &'a str = s;
    loop
        invariant
            texts(parts@) + pieces(rest@, seps@) == pieces(s@, seps@),
        decreases rest@.len(),
    {
        let ghost before = texts(parts@);
        let ghost whole = pieces(rest@, seps@);
        match split_once(rest, seps) {
            Some((head, tail)) => {
                proof {
                    lemma_first_of_bounds(rest@, seps@);
                }
                assert(whole == seq![head@] + pieces(tail@, seps@));
                parts.push(head);
                assert(texts(parts@) == before.push(head@));
                assert(before + whole == before.push(head@) + pieces(tail@, seps@));
                rest = tail;
            },
            None => {
                parts.push(rest);
                assert(texts(parts@) == before.push(rest@));
                return parts;
            },
        }
    }
}

/// Splits `s` at its first `c`.
pub fn split_once_at<'a>(s: &'a str, c: char) -> (parts: Option<(&'a str, &'a str)>)
    ensures
        match parts {
            Some((before, after)) => {
                let at = first_of(s@, seq![c]);
                &&& 0 <= at < s@.len()
                &&& before@ == s@.take(at)
                &&& after@ == s@.skip(at + 1)
            },
            None => first_of(s@, seq![c]) == s@.len(),
        },
{
    let seps: [char; 1] = [c];
    assert(seps@ == seq![c]);
    proof {
        lemma_first_of_bounds(s@, seq![c]);
    }
    split_once(s, &seps)
}

/// Splits `s` at each `c`.
pub fn split_at<'a>(s: &'a str, c: char) -> (parts: Vec<&'a str>)
    ensures
        texts(parts@) == pieces(s@, seq![c]),
{
    let seps: [char; 1] = [c];
    assert(seps@ == seq![c]);
    split(s, &seps)
}

/// Drops the trailing characters of `s` that are in `seps`.
pub fn trim_end<'a>(s: &'a str, seps: &[char]) -> (rest: &'a str)
    ensures
        rest@ == trimmed_end(s@, seps@),
{
    let chars: Vec<char> = to_chars(s);
    let mut end: usize = chars.len();
    assert(s@.take(end as int) == s@);
    while end > 0 && is_in(chars[end - 1], seps)
        invariant
            end <= chars@.len(),
            chars@ == s@,
            trimmed_end(s@, seps@) == trimmed_end(s@.take(end as int), seps@),
        decreases end,
    {
        assert(s@.take(end as int).drop_last() == s@.take(end - 1));
        end -= 1;
    }
    assert(s@.subrange(0, end as int) == s@.take(end as int));
    s.substring_char(0, end)
}

/// The texts of `list`, with `sep` between each two of them.
pub open spec fn joined(list: Seq<Seq<char>>, sep: Seq<char>) -> Seq<char>
    decreases list.len(),
{
    if list.len() == 0 {
        Seq::empty()
    } else if list.len() == 1 {
        list[0]
    } else {
        joined(list.drop_last(), sep) + sep + list.last()
    }
}

/// Joining one more text at the front.
pub proof fn lemma_joined_front(first: Seq<char>, rest: Seq<Seq<char>>, sep: Seq<char>)
    requires
        rest.len() > 0,
    ensures
        joined(seq![first] + rest, sep) == first + sep + joined(rest, sep),
    decreases rest.len(),
{
    let all = seq![first] + rest;
    assert(all.drop_last() == seq![first] + rest.drop_last());
    assert(all.last() == rest.last());
    if rest.len() == 1 {
        assert(all.drop_last() == seq![first]);
        assert(joined(all.drop_last(), sep) == first);
        assert(joined(rest, sep) == rest.last());
    } else {
        lemma_joined_front(first, rest.drop_last(), sep);
        assert(joined(all, sep) == first + sep + joined(rest.drop_last(), sep) + sep + rest.last());
        assert(joined(rest, sep) == joined(rest.drop_last(), sep) + sep + rest.last());
        assert(joined(all, sep) == first + sep + joined(rest, sep));
    }
}

/// Splitting a text loses nothing: its pieces, joined, are the text.
pub proof fn pieces_join_up(s: Seq<char>, sep: char)
    ensures
        joined(pieces(s, seq![sep]), seq![sep]) == s,
    decreases s.len(),
{
    lemma_first_of_bounds(s, seq![sep]);
    let at = first_of(s, seq![sep]);
    if at < s.len() {
        let rest = s.skip(at + 1);
        pieces_join_up(rest, sep);
        assert(pieces(rest, seq![sep]).len() > 0);
        lemma_joined_front(s.take(at), pieces(rest, seq![sep]), seq![sep]);
        assert(s[at] == sep);
        assert(s == s.take(at) + seq![sep] + rest);
    }
}

/// Joins texts, with `sep` between each two of them.
pub fn join(list: &Vec<&str>, sep: &str) -> (whole: String)
    ensures
        whole@ == joined(texts(list@), sep@),
{
    let ghost all = texts(list@);
    let mut whole: String = String::new();
    let mut i: usize = 0;
    while i < list.len()
        invariant
            i <= list@.len(),
            all == texts(list@),
            whole@ == joined(all.take(i as int), sep@),
        decreases list@.len() - i,
    {
        if i > 0 {
            whole.append(sep);
        }
        whole.append(list[i]);
        assert(all.take(i + 1).drop_last() == all.take(i as int));
        assert(all.take(i + 1).last() == list@[i as int]@);
        i += 1;
    }
    assert(all.take(i as int) == all);
    whole
}

// ---------------------------------------------------------------------------------------------
// Order

/// Whether `a` goes before `b`: at the first position where they differ, `a` ends or has the
/// lesser character.
pub open spec fn precedes(a: Seq<char>, b: Seq<char>) -> bool
    decreases a.len(),
{
    if b.len() == 0 {
        false
    } else if a.len() == 0 {
        true
    } else {
        a[0] < b[0] || (a[0] == b[0] && precedes(a.skip(1), b.skip(1)))
    }
}

/// No text goes both before and after another.
pub proof fn lemma_precedes_is_asymmetric(a: Seq<char>, b: Seq<char>)
    requires
        precedes(a, b),
    ensures
        !precedes(b, a),
    decreases a.len(),
{
    if a.len() > 0 && a[0] == b[0] {
        lemma_precedes_is_asymmetric(a.skip(1), b.skip(1));
    }
}

/// A text which does not go before a second one does not go before what that does not go before.
pub proof fn lemma_not_after_is_transitive(a: Seq<char>, b: Seq<char>, c: Seq<char>)
    requires
        !precedes(b, a),
        !precedes(c, b),
    ensures
        !precedes(c, a),
    decreases c.len(),
{
    if a.len() > 0 && c.len() > 0 && a[0] == b[0] && b[0] == c[0] {
        lemma_not_after_is_transitive(a.skip(1), b.skip(1), c.skip(1));
    }
}

/// Of two different texts, one goes before the other.
pub proof fn lemma_precedes_is_total(a: Seq<char>, b: Seq<char>)
    requires
        a != b,
    ensures
        precedes(a, b) || precedes(b, a),
    decreases a.len(),
{
    if a.len() == 0 {
        assert(a == Seq::<char>::empty());
        if b.len() == 0 {
            assert(a == b);
        }
    } else if b.len() > 0 && a[0] == b[0] {
        if a.skip(1) == b.skip(1) {
            assert(a == seq![a[0]] + a.skip(1));
            assert(b == seq![b[0]] + b.skip(1));
        }
        lemma_precedes_is_total(a.skip(1), b.skip(1));
    }
}

/// Whether `a` goes before `b`.
pub fn is_before(a: &str, b: &str) -> (before: bool)
    ensures
        before == precedes(a@, b@),
{
    let x: Vec<char> = to_chars(a);
    let y: Vec<char> = to_chars(b);
    let mut i: usize = 0;
    assert(a@.skip(0) == a@);
    assert(b@.skip(0) == b@);
    while i < x.len() && i < y.len()
        invariant
            i <= x@.len(),
            i <= y@.len(),
            x@ == a@,
            y@ == b@,
            precedes(a@, b@) == precedes(a@.skip(i as int), b@.skip(i as int)),
        decreases x@.len() - i,
    {
        assert(a@.skip(i as int).skip(1) == a@.skip(i + 1));
        assert(b@.skip(i as int).skip(1) == b@.skip(i + 1));
        if x[i] != y[i] {
            return x[i] < y[i];
        }
        i += 1;
    }
    i < y.len()
}

// ---------------------------------------------------------------------------------------------
// ASCII

/// Whether `c` is an ASCII digit.
pub open spec fn is_digit(c: char) -> bool {
    '0' <= c && c <= '9'
}

/// Whether `c` is an ASCII letter or digit.
pub open spec fn is_alphanumeric(c: char) -> bool {
    is_digit(c) || ('a' <= c && c <= 'z') || ('A' <= c && c <= 'Z')
}

/// Whether all of `s` is ASCII letters and digits.
pub open spec fn all_alphanumeric(s: Seq<char>) -> bool {
    forall|i: int| 0 <= i < s.len() ==> is_alphanumeric(#[trigger] s[i])
}

/// The ASCII lower case of `c`; other characters are their own.
pub open spec fn lower_char(c: char) -> char {
    if 'A' <= c && c <= 'Z' {
        ((c as u32) + 32) as char
    } else {
        c
    }
}

/// The ASCII lower case of `s`.
pub open spec fn lower(s: Seq<char>) -> Seq<char> {
    s.map_values(|c: char| lower_char(c))
}

/// Whether `c` is an ASCII digit.
pub fn digit(c: char) -> (yes: bool)
    ensures
        yes == is_digit(c),
{
    '0' <= c && c <= '9'
}

/// Whether `c` is an ASCII letter or digit.
pub fn alphanumeric(c: char) -> (yes: bool)
    ensures
        yes == is_alphanumeric(c),
{
    digit(c) || ('a' <= c && c <= 'z') || ('A' <= c && c <= 'Z')
}

/// The characters of `s` in ASCII lower case.
pub fn to_lower_chars(s: &str) -> (chars: Vec<char>)
    ensures
        chars@ == lower(s@),
{
    let mut chars: Vec<char> = to_chars(s);
    let mut i: usize = 0;
    while i < chars.len()
        invariant
            i <= chars@.len() == s@.len(),
            forall|j: int| 0 <= j < i ==> chars@[j] == lower_char(s@[j]),
            forall|j: int| i <= j < s@.len() ==> chars@[j] == s@[j],
        decreases chars@.len() - i,
    {
        let c: char = chars[i];
        if 'A' <= c && c <= 'Z' {
            chars.set(i, (c as u8 + 32) as char);
        }
        i += 1;
    }
    chars
}

// ---------------------------------------------------------------------------------------------
// Numbers

/// The digit of `d` in hexadecimal, in lower case.
pub open spec fn hex_digit(d: int) -> char {
    if d < 10 {
        (('0' as u32) + d) as char
    } else {
        (('a' as u32) + d - 10) as char
    }
}

/// `n` in decimal.
pub open spec fn decimal(n: nat) -> Seq<char>
    decreases n,
{
    if n < 10 {
        seq![hex_digit(n as int)]
    } else {
        decimal(n / 10).push(hex_digit((n % 10) as int))
    }
}

/// The value of a sequence of decimal digits.
pub open spec fn decimal_value(digits: Seq<char>) -> nat
    decreases digits.len(),
{
    if digits.len() == 0 {
        0
    } else {
        decimal_value(digits.drop_last()) * 10 + (digits.last() as u32 - '0' as u32) as nat
    }
}

/// Whether all of `s` is decimal digits.
pub open spec fn all_digits(s: Seq<char>) -> bool {
    forall|i: int| 0 <= i < s.len() ==> is_digit(#[trigger] s[i])
}

/// `s` without its leading `+`, if it has one.
pub open spec fn without_plus(s: Seq<char>) -> Seq<char> {
    if s.len() > 0 && s[0] == '+' {
        s.skip(1)
    } else {
        s
    }
}

/// The number that `s` writes in decimal, with an optional leading `+`, if it fits in 64 bits.
pub open spec fn number(s: Seq<char>) -> Option<u64> {
    let digits = without_plus(s);
    if digits.len() > 0 && all_digits(digits) && decimal_value(digits) <= u64::MAX {
        Some(decimal_value(digits) as u64)
    } else {
        None
    }
}

/// The digits of `bytes` in hexadecimal, in lower case, high digit first.
pub open spec fn hex(bytes: Seq<u8>) -> Seq<char>
    decreases bytes.len(),
{
    if bytes.len() == 0 {
        seq![]
    } else {
        hex(bytes.drop_last()) + seq![
            hex_digit(bytes.last() as int / 16),
            hex_digit(bytes.last() as int % 16),
        ]
    }
}

/// The text of one digit.
fn digit_text(d: u8) -> (text: &'static str)
    requires
        d < 16,
    ensures
        text@ == seq![hex_digit(d as int)],
{
    proof {
        reveal_strlit("0");
        reveal_strlit("1");
        reveal_strlit("2");
        reveal_strlit("3");
        reveal_strlit("4");
        reveal_strlit("5");
        reveal_strlit("6");
        reveal_strlit("7");
        reveal_strlit("8");
        reveal_strlit("9");
        reveal_strlit("a");
        reveal_strlit("b");
        reveal_strlit("c");
        reveal_strlit("d");
        reveal_strlit("e");
        reveal_strlit("f");
    }
    match d {
        0 => "0",
        1 => "1",
        2 => "2",
        3 => "3",
        4 => "4",
        5 => "5",
        6 => "6",
        7 => "7",
        8 => "8",
        9 => "9",
        10 => "a",
        11 => "b",
        12 => "c",
        13 => "d",
        14 => "e",
        _ => "f",
    }
}

/// Writes `n` in decimal at the end of `out`.
pub fn push_decimal(out: &mut String, n: u64)
    ensures
        final(out)@ == old(out)@ + decimal(n as nat),
    decreases n,
{
    if n >= 10 {
        push_decimal(out, n / 10);
    }
    out.append(digit_text((n % 10) as u8));
}

/// Writes `bytes` in hexadecimal at the end of `out`.
pub fn push_hex(out: &mut String, bytes: &[u8])
    ensures
        final(out)@ == old(out)@ + hex(bytes@),
{
    let mut i: usize = 0;
    assert(hex(bytes@.take(0)) == Seq::<char>::empty());
    while i < bytes.len()
        invariant
            i <= bytes@.len(),
            out@ == old(out)@ + hex(bytes@.take(i as int)),
        decreases bytes@.len() - i,
    {
        let b: u8 = bytes[i];
        assert(bytes@.take(i + 1).drop_last() == bytes@.take(i as int));
        out.append(digit_text(b / 16));
        out.append(digit_text(b % 16));
        assert(out@ == old(out)@ + hex(bytes@.take(i + 1)));
        i += 1;
    }
    assert(bytes@.take(i as int) == bytes@);
}

/// More digits never make a number smaller.
proof fn lemma_decimal_value_grows(digits: Seq<char>, n: int)
    requires
        0 <= n <= digits.len(),
        all_digits(digits),
    ensures
        decimal_value(digits.take(n)) <= decimal_value(digits),
    decreases digits.len(),
{
    if n < digits.len() {
        lemma_decimal_value_grows(digits.drop_last(), n);
        assert(digits.drop_last().take(n) == digits.take(n));
    } else {
        assert(digits.take(n) == digits);
    }
}

/// Reads a decimal number, with an optional leading `+`, that fits in 64 bits.
#[verifier::spinoff_prover]
#[verifier::rlimit(40)]
pub fn parse_number(s: &str) -> (n: Option<u64>)
    ensures
        n == number(s@),
{
    let chars: Vec<char> = to_chars(s);
    let start: usize = if chars.len() > 0 && chars[0] == '+' { 1 } else { 0 };
    let ghost digits = s@.skip(start as int);
    assert(start == 0 ==> digits == s@);
    if chars.len() == start {
        return None;
    }
    let mut value: u64 = 0;
    let mut i: usize = start;
    while i < chars.len()
        invariant
            start <= i <= chars@.len(),
            chars@ == s@,
            digits == s@.skip(start as int),
            digits == without_plus(s@),
            all_digits(digits.take(i - start)),
            value == decimal_value(digits.take(i - start)),
        decreases chars@.len() - i,
    {
        let c: char = chars[i];
        let ghost done = i - start;
        assert(digits[done] == c);
        if !digit(c) {
            return None;
        }
        let d: u64 = c as u64 - 48;
        assert(digits.take(done + 1).drop_last() == digits.take(done));
        assert(decimal_value(digits.take(done + 1)) == value * 10 + d);
        if value > (u64::MAX - d) / 10 {
            assert(value * 10 + d > u64::MAX);
            proof {
                if all_digits(digits) {
                    lemma_decimal_value_grows(digits, done + 1);
                }
            }
            return None;
        }
        value = value * 10 + d;
        i += 1;
    }
    assert(digits.take(i - start) == digits);
    Some(value)
}

// ---------------------------------------------------------------------------------------------
// Laws

/// Reading a number back from its decimal digits gives that number.
pub proof fn number_of_decimal(n: u64)
    ensures
        number(decimal(n as nat)) == Some(n),
{
    lemma_decimal(n as nat);
    assert(decimal(n as nat)[0] != '+');
}

proof fn lemma_decimal(n: nat)
    ensures
        decimal(n).len() > 0,
        all_digits(decimal(n)),
        decimal_value(decimal(n)) == n,
    decreases n,
{
    reveal_with_fuel(decimal_value, 2);
    if n < 10 {
        assert(decimal(n).drop_last() == Seq::<char>::empty());
    } else {
        lemma_decimal(n / 10);
        assert(decimal(n).drop_last() == decimal(n / 10));
    }
}

/// Two characters per byte.
pub proof fn lemma_hex_len(bytes: Seq<u8>)
    ensures
        hex(bytes).len() == 2 * bytes.len(),
    decreases bytes.len(),
{
    if bytes.len() > 0 {
        lemma_hex_len(bytes.drop_last());
    }
}

/// The two digits of each byte of `hex`.
pub proof fn lemma_hex_digits(bytes: Seq<u8>, i: int)
    requires
        0 <= i < bytes.len(),
    ensures
        hex(bytes).len() == 2 * bytes.len(),
        hex(bytes)[2 * i] == hex_digit(bytes[i] as int / 16),
        hex(bytes)[2 * i + 1] == hex_digit(bytes[i] as int % 16),
    decreases bytes.len(),
{
    lemma_hex_len(bytes);
    lemma_hex_len(bytes.drop_last());
    if i < bytes.len() - 1 {
        lemma_hex_digits(bytes.drop_last(), i);
    }
}

/// Of two texts, the one goes first which has the lesser character where they differ first, or which
/// ends there.
pub proof fn order_is_that_of_the_first_difference(
    start: Seq<char>,
    a: Seq<char>,
    b: Seq<char>,
    x: char,
    y: char,
)
    requires
        x < y,
    ensures
        precedes(start + seq![x] + a, start + seq![y] + b),
        !precedes(start + seq![y] + b, start + seq![x] + a),
        precedes(start, start + seq![x] + a),
        !precedes(start + seq![x] + a, start),
        !precedes(start, start),
    decreases start.len(),
{
    let p = start + seq![x] + a;
    let q = start + seq![y] + b;
    if start.len() > 0 {
        let rest = start.skip(1);
        order_is_that_of_the_first_difference(rest, a, b, x, y);
        assert(p.skip(1) == rest + seq![x] + a);
        assert(q.skip(1) == rest + seq![y] + b);
    }
}

/// A number is written in decimal digits, possibly after a `+`, and must fit: anything else is none.
pub proof fn numbers_are_decimal(s: Seq<char>, n: u64)
    ensures
        number(seq!['+'] + decimal(n as nat)) == Some(n),
        s.len() == 0 ==> number(s) is None,
        (exists|i: int| 0 <= i < s.len() && !is_digit(#[trigger] s[i]) && !(i == 0 && s[i] == '+'))
            ==> number(s) is None,
{
    lemma_decimal(n as nat);
    assert((seq!['+'] + decimal(n as nat)).skip(1) == decimal(n as nat));
    if exists|i: int| 0 <= i < s.len() && !is_digit(#[trigger] s[i]) && !(i == 0 && s[i] == '+') {
        let i = choose|i: int|
            0 <= i < s.len() && !is_digit(#[trigger] s[i]) && !(i == 0 && s[i] == '+');
        let digits = without_plus(s);
        if s[0] == '+' {
            assert(digits[i - 1] == s[i]);
        } else {
            assert(digits[i] == s[i]);
        }
    }
}

/// The lower case of a text has no upper case letters, is its own lower case, and differs from the
/// text in nothing but letters.
pub proof fn lower_case_is_lower(s: Seq<char>)
    ensures
        lower(s).len() == s.len(),
        lower(lower(s)) == lower(s),
        forall|i: int|
            0 <= i < s.len() ==> !('A' <= #[trigger] lower(s)[i] && lower(s)[i] <= 'Z') && (
            lower(s)[i] == s[i] || ('A' <= s[i] && s[i] <= 'Z' && lower(s)[i] as u32 == s[i] as u32
                + 32)),
        (forall|i: int| 0 <= i < s.len() ==> !('A' <= #[trigger] s[i] && s[i] <= 'Z')) ==> lower(s)
            == s,
{
    assert(lower(lower(s)) =~= lower(s));
    if forall|i: int| 0 <= i < s.len() ==> !('A' <= #[trigger] s[i] && s[i] <= 'Z') {
        assert(lower(s) =~= s);
    }
}

/// A number is written with decimal digits only, and without zeros before it.
pub proof fn decimal_is_plain(n: nat)
    ensures
        decimal(n).len() > 0,
        forall|i: int| 0 <= i < decimal(n).len() ==> '0' <= #[trigger] decimal(n)[i] && decimal(n)[i]
            <= '9',
        n > 0 ==> decimal(n)[0] != '0',
    decreases n,
{
    if n >= 10 {
        decimal_is_plain(n / 10);
        assert forall|i: int| 0 <= i < decimal(n).len() implies '0' <= #[trigger] decimal(n)[i]
            && decimal(n)[i] <= '9' by {
            if i < decimal(n).len() - 1 {
                assert(decimal(n)[i] == decimal(n / 10)[i]);
            }
        }
        assert(decimal(n)[0] == decimal(n / 10)[0]);
    }
}

/// Bytes are written with hexadecimal digits only, two for each, in lower case.
pub proof fn hex_is_lower_case(bytes: Seq<u8>)
    ensures
        hex(bytes).len() == 2 * bytes.len(),
        forall|i: int|
            0 <= i < hex(bytes).len() ==> ('0' <= #[trigger] hex(bytes)[i] && hex(bytes)[i] <= '9')
                || ('a' <= hex(bytes)[i] && hex(bytes)[i] <= 'f'),
    decreases bytes.len(),
{
    if bytes.len() > 0 {
        let rest = hex(bytes.drop_last());
        hex_is_lower_case(bytes.drop_last());
        assert forall|i: int| 0 <= i < hex(bytes).len() implies ('0' <= #[trigger] hex(bytes)[i]
            && hex(bytes)[i] <= '9') || ('a' <= hex(bytes)[i] && hex(bytes)[i] <= 'f') by {
            if i < rest.len() {
                assert(hex(bytes)[i] == rest[i]);
            }
        }
    }
}

/// The pieces of a text have no separators.
pub proof fn pieces_have_no_separators(s: Seq<char>, seps: Seq<char>, k: int, i: int)
    requires
        0 <= k < pieces(s, seps).len(),
        0 <= i < pieces(s, seps)[k].len(),
    ensures
        !seps.contains(pieces(s, seps)[k][i]),
    decreases s.len(),
{
    lemma_first_of_bounds(s, seps);
    let at = first_of(s, seps);
    if at < s.len() && k > 0 {
        pieces_have_no_separators(s.skip(at + 1), seps, k - 1, i);
    } else if at < s.len() {
        assert(pieces(s, seps)[0] == s.take(at));
        assert(s.take(at)[i] == s[i]);
    } else {
        assert(pieces(s, seps)[0] == s);
    }
}

} // verus!
