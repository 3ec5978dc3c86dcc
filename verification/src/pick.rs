//! Picking the path of the binary among the entries of an archive.

use vstd::prelude::*;

use crate::archive::Entry;
use crate::text;

verus! {

/// The path of each entry.
pub open spec fn paths_of(entries: Seq<Entry>) -> Seq<Seq<char>> {
    entries.map_values(|entry: Entry| entry.path@)
}

/// Whether all paths start with the first `n` characters of the first path, which are either
/// nothing or directories.
pub open spec fn is_shared(paths: Seq<Seq<char>>, n: int) -> bool {
    &&& 0 <= n <= paths[0].len()
    &&& n == 0 || paths[0][n - 1] == '/'
    &&& forall|i: int|
        0 <= i < paths.len() ==> paths[0].take(n).is_prefix_of(#[trigger] paths[i])
}

/// The greatest number up to `n` of characters that all paths share.
pub open spec fn most_shared(paths: Seq<Seq<char>>, n: int) -> int
    decreases n,
{
    if n <= 0 || is_shared(paths, n) {
        n
    } else {
        most_shared(paths, n - 1)
    }
}

/// The length of the longest common prefix of `paths` which consists of directories.
pub open spec fn shared(paths: Seq<Seq<char>>) -> int {
    most_shared(paths, paths[0].len() as int)
}

/// What is shown of each path: what follows the longest common prefix.
pub open spec fn shown(paths: Seq<Seq<char>>) -> Seq<Seq<char>> {
    paths.map_values(|path: Seq<char>| path.skip(shared(paths)))
}

/// Position of the first item of `list` which is `item`, or the length of `list`.
pub open spec fn position(list: Seq<Seq<char>>, item: Seq<char>) -> int
    decreases list.len(),
{
    if list.len() == 0 || list[0] == item {
        0
    } else {
        1 + position(list.skip(1), item)
    }
}

/// How the path of the binary is picked.
#[derive(Debug)]
pub enum Pick {
    /// There is nothing to pick from.
    Nothing,
    /// There is more than one path, and nobody to ask. The paths are listed.
    Ambiguous(String),
    /// The path of the entry with this index is used.
    Take(usize),
    /// The user has to pick one of these paths, which lack their longest common prefix.
    Ask(Vec<String>),
}

/// What a [`Pick`] holds.
pub enum PickView {
    Nothing,
    Ambiguous(Seq<char>),
    Take(int),
    Ask(Seq<Seq<char>>),
}

/// The text of each of some strings.
pub open spec fn strings(list: Seq<String>) -> Seq<Seq<char>> {
    list.map_values(|s: String| s@)
}

impl View for Pick {
    type V = PickView;

    open spec fn view(&self) -> PickView {
        match *self {
            Pick::Nothing => PickView::Nothing,
            Pick::Ambiguous(paths) => PickView::Ambiguous(paths@),
            Pick::Take(index) => PickView::Take(index as int),
            Pick::Ask(paths) => PickView::Ask(strings(paths@)),
        }
    }
}

/// How the path of the binary is picked among `paths`: if there is only one, that is it; otherwise
/// the user is asked, unless what they picked before is among the paths which they would be shown.
pub open spec fn pick_of(
    paths: Seq<Seq<char>>,
    interactive: bool,
    picked: Option<Seq<char>>,
) -> PickView {
    if paths.len() == 0 {
        PickView::Nothing
    } else if paths.len() == 1 {
        PickView::Take(0)
    } else if !interactive {
        PickView::Ambiguous(text::joined(paths, ", "@))
    } else {
        match picked {
            Some(path) => if position(shown(paths), path) < paths.len() {
                PickView::Take(position(shown(paths), path))
            } else {
                PickView::Ask(shown(paths))
            },
            None => PickView::Ask(shown(paths)),
        }
    }
}

/// A shared prefix is `shared` if there is no longer one.
proof fn lemma_shared(paths: Seq<Seq<char>>, n: int, most: int)
    requires
        is_shared(paths, n),
        n <= most <= paths[0].len(),
        forall|m: int| n < m <= most ==> !#[trigger] is_shared(paths, m),
    ensures
        most_shared(paths, most) == n,
    decreases most,
{
    if most > n {
        assert(!is_shared(paths, most));
        lemma_shared(paths, n, most - 1);
    }
}

/// `shared` is shared.
proof fn lemma_most_shared(paths: Seq<Seq<char>>, n: int)
    requires
        0 <= n <= paths[0].len(),
    ensures
        is_shared(paths, most_shared(paths, n)),
    decreases n,
{
    if n == 0 {
        assert(paths[0].take(0) == Seq::<char>::empty());
    } else if !is_shared(paths, n) {
        lemma_most_shared(paths, n - 1);
    }
}

/// `position` is the only position with `item` (or the end) at it and none before it.
proof fn lemma_position(list: Seq<Seq<char>>, item: Seq<char>, at: int)
    requires
        0 <= at <= list.len(),
        forall|i: int| 0 <= i < at ==> #[trigger] list[i] != item,
        at < list.len() ==> list[at] == item,
    ensures
        position(list, item) == at,
    decreases list.len(),
{
    if at > 0 {
        assert(list[0] != item);
        assert forall|i: int| 0 <= i < at - 1 implies #[trigger] list.skip(1)[i] != item by {
            assert(list.skip(1)[i] == list[i + 1]);
        }
        lemma_position(list.skip(1), item, at - 1);
    }
}

/// The length of the longest common prefix of the paths of `entries` which consists of directories.
fn shared_prefix(entries: &Vec<Entry>) -> (n: usize)
    requires
        entries@.len() > 0,
    ensures
        n == shared(paths_of(entries@)),
        n <= entries@[0].path@.len(),
{
    let ghost paths = paths_of(entries@);
    let first: &str = entries[0].path.as_str();
    assert(first@ == paths[0]);
    let chars: Vec<char> = text::to_chars(first);
    let len: usize = chars.len();
    let mut n: usize = 0;
    let mut m: usize = 0;
    assert(paths[0].take(0) == Seq::<char>::empty());
    assert(is_shared(paths, 0));
    while m < len
        invariant
            n <= m <= len == chars@.len(),
            entries@.len() > 0,
            first@ == chars@,
            paths == paths_of(entries@),
            paths[0] == chars@,
            is_shared(paths, n as int),
            forall|k: int| n < k <= m ==> !#[trigger] is_shared(paths, k),
        decreases len - m,
    {
        m += 1;
        if chars[m - 1] == '/' {
            let prefix: &str = first.substring_char(0, m);
            assert(prefix@ == paths[0].take(m as int));
            let mut all: bool = true;
            let mut i: usize = 1;
            assert(paths[0].take(m as int).is_prefix_of(paths[0]));
            while i < entries.len() && all
                invariant
                    1 <= i <= entries@.len(),
                    m <= chars@.len(),
                    paths == paths_of(entries@),
                    paths[0] == chars@,
                    prefix@ == paths[0].take(m as int),
                    paths[0].take(m as int).is_prefix_of(paths[0]),
                    all ==> forall|j: int|
                        0 <= j < i ==> paths[0].take(m as int).is_prefix_of(#[trigger] paths[j]),
                    !all ==> exists|j: int|
                        0 <= j < paths.len() && !paths[0].take(m as int).is_prefix_of(
                            #[trigger] paths[j],
                        ),
                decreases entries@.len() - i,
            {
                assert(paths[i as int] == entries@[i as int].path@);
                if !text::starts_with(entries[i].path.as_str(), prefix) {
                    all = false;
                }
                i += 1;
            }
            if !all {
                proof {
                    let j = choose|j: int|
                        0 <= j < paths.len() && !paths[0].take(m as int).is_prefix_of(
                            #[trigger] paths[j],
                        );
                    assert forall|k: int| n < k <= len implies !#[trigger] is_shared(paths, k) by {
                        if k >= m && is_shared(paths, k) {
                            assert(paths[0].take(k).is_prefix_of(paths[j]));
                            assert(paths[0].take(m as int) == paths[0].take(k).take(m as int));
                            assert(paths[j].subrange(0, m as int) == paths[j].subrange(0, k).take(
                                m as int,
                            ));
                        }
                    }
                    lemma_shared(paths, n as int, len as int);
                }
                return n;
            }
            n = m;
        }
    }
    proof {
        lemma_shared(paths, n as int, len as int);
    }
    n
}

/// What is shown of each path of `entries`.
fn shown_paths(entries: &Vec<Entry>) -> (list: Vec<String>)
    requires
        entries@.len() > 0,
    ensures
        strings(list@) == shown(paths_of(entries@)),
{
    let ghost paths = paths_of(entries@);
    let n: usize = shared_prefix(entries);
    proof {
        lemma_most_shared(paths, paths[0].len() as int);
    }
    let mut list: Vec<String> = Vec::new();
    let mut i: usize = 0;
    while i < entries.len()
        invariant
            i <= entries@.len(),
            paths == paths_of(entries@),
            n == shared(paths),
            is_shared(paths, n as int),
            strings(list@) == shown(paths).take(i as int),
        decreases entries@.len() - i,
    {
        let path: &str = entries[i].path.as_str();
        let len: usize = path.unicode_len();
        assert(path@ == paths[i as int]);
        assert(paths[0].take(n as int).is_prefix_of(paths[i as int]));
        let rest: &str = path.substring_char(n, len);
        assert(rest@ == path@.skip(n as int));
        let ghost before = strings(list@);
        list.push(rest.to_owned());
        assert(strings(list@) == before.push(rest@));
        assert(shown(paths).take(i + 1) == shown(paths).take(i as int).push(rest@));
        i += 1;
    }
    assert(shown(paths).take(i as int) == shown(paths));
    list
}

/// How the path of the binary is picked among `entries`, given what the user picked before.
pub fn pick_path(entries: &Vec<Entry>, interactive: bool, picked: &Option<String>) -> (pick: Pick)
    ensures
        pick@ == pick_of(paths_of(entries@), interactive, crate::options::optional(*picked)),
{
    let ghost paths = paths_of(entries@);
    if entries.len() == 0 {
        return Pick::Nothing;
    }
    if entries.len() == 1 {
        return Pick::Take(0);
    }
    if !interactive {
        let mut list: Vec<&str> = Vec::new();
        let mut i: usize = 0;
        while i < entries.len()
            invariant
                i <= entries@.len(),
                paths == paths_of(entries@),
                text::texts(list@) == paths.take(i as int),
            decreases entries@.len() - i,
        {
            let ghost before = text::texts(list@);
            list.push(entries[i].path.as_str());
            assert(text::texts(list@) == before.push(paths[i as int]));
            assert(paths.take(i + 1) == paths.take(i as int).push(paths[i as int]));
            i += 1;
        }
        assert(paths.take(i as int) == paths);
        return Pick::Ambiguous(text::join(&list, ", "));
    }
    // Strip the longest common prefix before prompting.
    let list: Vec<String> = shown_paths(entries);
    // Determine if the path we already picked is available. We do this after stripping the common
    // prefix in case it has some platform-specific components.
    if let Some(path) = picked {
        let mut i: usize = 0;
        while i < list.len()
            invariant
                i <= list@.len(),
                interactive,
                paths.len() > 1,
                paths == paths_of(entries@),
                crate::options::optional(*picked) == Some(path@),
                strings(list@) == shown(paths),
                forall|j: int| 0 <= j < i ==> #[trigger] shown(paths)[j] != path@,
            decreases list@.len() - i,
        {
            assert(shown(paths)[i as int] == list@[i as int]@);
            if text::same(list[i].as_str(), path.as_str()) {
                proof {
                    lemma_position(shown(paths), path@, i as int);
                }
                // Reuse the path the user already picked.
                return Pick::Take(i);
            }
            i += 1;
        }
        proof {
            lemma_position(shown(paths), path@, i as int);
        }
    }
    Pick::Ask(list)
}

/// The path of the entry with the given index, as it is in the archive.
pub fn take_path(entries: Vec<Entry>, index: usize) -> (path: String)
    requires
        index < entries@.len(),
    ensures
        path@ == paths_of(entries@)[index as int],
{
    let mut entries: Vec<Entry> = entries;
    let entry: Entry = entries.swap_remove(index);
    entry.path
}

// ---------------------------------------------------------------------------------------------
// Laws

/// All paths start with their longest common prefix, which consists of directories; what is shown
/// of each is the rest of it.
pub proof fn shown_is_the_rest(paths: Seq<Seq<char>>)
    requires
        paths.len() > 0,
    ensures
        is_shared(paths, shared(paths)),
        forall|i: int|
            0 <= i < paths.len() ==> #[trigger] paths[i] == paths[0].take(shared(paths)) + shown(
                paths,
            )[i],
{
    lemma_most_shared(paths, paths[0].len() as int);
    let n = shared(paths);
    assert forall|i: int| 0 <= i < paths.len() implies #[trigger] paths[i] == paths[0].take(n)
        + shown(paths)[i] by {
        assert(paths[0].take(n).is_prefix_of(paths[i]));
        assert(paths[i].subrange(0, n) == paths[0].take(n));
        assert(paths[i] == paths[i].take(n) + paths[i].skip(n));
    }
}

/// No directory that all paths share is shown.
pub proof fn no_longer_prefix_is_shared(paths: Seq<Seq<char>>, n: int)
    requires
        paths.len() > 0,
        is_shared(paths, n),
    ensures
        n <= shared(paths),
{
    lemma_bound(paths, n, paths[0].len() as int);
}

/// `most_shared` is at least as great as any shared prefix.
proof fn lemma_bound(paths: Seq<Seq<char>>, n: int, most: int)
    requires
        is_shared(paths, n),
        n <= most,
    ensures
        n <= most_shared(paths, most),
    decreases most,
{
    if most > n && !is_shared(paths, most) {
        lemma_bound(paths, n, most - 1);
    }
}

/// What the user picked once is taken whenever it is shown again, without asking: another entry is
/// not taken instead.
pub proof fn same_pick_is_not_asked_again(paths: Seq<Seq<char>>, index: int)
    requires
        0 <= index < paths.len(),
        paths.len() > 1,
    ensures
        pick_of(paths, true, Some(shown(paths)[index])) matches PickView::Take(taken) && 0 <= taken
            < paths.len() && paths[taken] == paths[index],
{
    let list = shown(paths);
    let at = position(list, list[index]);
    lemma_position_bounds(list, list[index], index);
    shown_is_the_rest(paths);
    assert(paths[at] == paths[0].take(shared(paths)) + list[at]);
    assert(paths[index] == paths[0].take(shared(paths)) + list[index]);
}

/// `position` finds what is there.
proof fn lemma_position_bounds(list: Seq<Seq<char>>, item: Seq<char>, index: int)
    requires
        0 <= index < list.len(),
        list[index] == item,
    ensures
        0 <= position(list, item) < list.len(),
        list[position(list, item)] == item,
    decreases list.len(),
{
    if list[0] != item {
        assert(list.skip(1)[index - 1] == item);
        lemma_position_bounds(list.skip(1), item, index - 1);
    }
}

/// The only entry is taken, whoever could be asked; without any, there is nothing to take.
pub proof fn only_path_is_taken(paths: Seq<Seq<char>>, interactive: bool, picked: Option<Seq<char>>)
    ensures
        paths.len() == 1 ==> pick_of(paths, interactive, picked) == PickView::Take(0),
        paths.len() == 0 ==> pick_of(paths, interactive, picked) is Nothing,
        paths.len() > 0 ==> !(pick_of(paths, interactive, picked) is Nothing),
{
}

/// If there are several and nobody can be asked, none is taken: all of them are listed.
pub proof fn several_paths_are_ambiguous(paths: Seq<Seq<char>>, picked: Option<Seq<char>>)
    requires
        paths.len() > 1,
    ensures
        pick_of(paths, false, picked) == PickView::Ambiguous(text::joined(paths, ", "@)),
{
}

/// If there are several and the user can be asked, they are, about what is shown of all of them,
/// unless what they picked before is among that.
pub proof fn user_is_asked(paths: Seq<Seq<char>>, picked: Option<Seq<char>>)
    requires
        paths.len() > 1,
        picked matches Some(path) ==> !shown(paths).contains(path),
    ensures
        pick_of(paths, true, picked) == PickView::Ask(shown(paths)),
        shown(paths).len() == paths.len(),
{
    if picked is Some {
        lemma_position_is_found(shown(paths), picked->0);
    }
}

/// `position` is that of the item, or the end.
proof fn lemma_position_is_found(list: Seq<Seq<char>>, item: Seq<char>)
    ensures
        0 <= position(list, item) <= list.len(),
        position(list, item) < list.len() ==> list[position(list, item)] == item,
    decreases list.len(),
{
    if list.len() > 0 && list[0] != item {
        lemma_position_is_found(list.skip(1), item);
    }
}

/// What is not shown of the paths are directories: nothing, or what ends with a `/`. All paths start
/// with it, and with no more directories.
pub proof fn only_directories_are_left_out(paths: Seq<Seq<char>>, n: int)
    requires
        paths.len() > 0,
        0 <= n <= paths[0].len(),
        n == 0 || paths[0][n - 1] == '/',
        forall|i: int|
            0 <= i < paths.len() ==> paths[0].take(n).is_prefix_of(#[trigger] paths[i]),
    ensures
        n <= shared(paths) <= paths[0].len(),
        shared(paths) == 0 || paths[0][shared(paths) - 1] == '/',
        forall|i: int|
            0 <= i < paths.len() ==> paths[0].take(shared(paths)).is_prefix_of(#[trigger] paths[i])
                && #[trigger] shown(paths)[i] == paths[i].skip(shared(paths)),
{
    shown_is_the_rest(paths);
    no_longer_prefix_is_shared(paths, n);
    let s = shared(paths);
    assert(is_shared(paths, s));
}

} // verus!
