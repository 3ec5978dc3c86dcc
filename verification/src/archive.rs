//! Scanning archives for the paths of the files they contain.

use vstd::prelude::*;

use crate::sort;
use crate::sort::Sortable;
use crate::text;

verus! {

// ---------------------------------------------------------------------------------------------
// Entries

/// An entry in an archive.
#[derive(Debug)]
pub struct Entry {
    pub executable: bool,
    pub in_bin: bool,
    pub path: String,
}

/// A path in an archive, without a `./` at its start.
pub open spec fn plain_path(path: Seq<char>) -> Seq<char> {
    if "./"@.is_prefix_of(path) {
        path.skip(2)
    } else {
        path
    }
}

/// Whether a path looks like that of a program: it is in some `bin` directory, or ends in `.exe`.
pub open spec fn is_in_bin(path: Seq<char>) -> bool {
    "bin/"@.is_prefix_of(path) || text::occurs_in("/bin/"@, path) || ".exe"@.is_suffix_of(path)
}

impl Entry {
    /// The entry at `path`.
    pub fn new(path: String, executable: bool) -> (entry: Entry)
        ensures
            entry.path@ == plain_path(path@),
            entry.executable == executable,
            entry.in_bin == is_in_bin(plain_path(path@)),
    {
        let path: String = match text::strip_prefix(path.as_str(), "./") {
            Some(rest) => {
                proof {
                    reveal_strlit("./");
                }
                rest.to_owned()
            },
            None => path,
        };
        let in_bin: bool = text::starts_with(path.as_str(), "bin/") || text::contains(
            path.as_str(),
            "/bin/",
        ) || text::ends_with(path.as_str(), ".exe");
        Entry { executable, in_bin, path }
    }
}

impl Sortable for Entry {
    /// Entries in `bin` go before others, and then entries are ordered by their paths.
    open spec fn before(self, other: Entry) -> bool {
        (self.in_bin && !other.in_bin) || (self.in_bin == other.in_bin && text::precedes(
            self.path@,
            other.path@,
        ))
    }

    proof fn before_is_asymmetric(a: Entry, b: Entry) {
        if a.in_bin == b.in_bin {
            text::lemma_precedes_is_asymmetric(a.path@, b.path@);
        }
    }

    proof fn not_after_is_transitive(a: Entry, b: Entry, c: Entry) {
        if a.in_bin == b.in_bin && b.in_bin == c.in_bin {
            text::lemma_not_after_is_transitive(a.path@, b.path@, c.path@);
        }
    }

    fn is_before(&self, other: &Entry) -> (r: bool) {
        if self.in_bin == other.in_bin {
            text::is_before(self.path.as_str(), other.path.as_str())
        } else {
            self.in_bin
        }
    }
}

/// The entries that may be the program: the executable ones, in the order in which they came, or
/// if there is none all of them, those in `bin` first.
pub open spec fn candidates(entries: Seq<Entry>) -> Seq<Entry> {
    if exists|i: int| 0 <= i < entries.len() && (#[trigger] entries[i]).executable {
        entries.filter(|entry: Entry| entry.executable)
    } else {
        sort::sorted(entries)
    }
}

/// Keeps the executable entries.
fn retain_executables(entries: &mut Vec<Entry>)
    ensures
        final(entries)@ == old(entries)@.filter(|entry: Entry| entry.executable),
{
    let ghost all = entries@;
    let ghost wanted = |entry: Entry| entry.executable;
    let mut i: usize = 0;
    let ghost mut seen: int = 0;
    assert(all.take(0).filter(wanted) == Seq::<Entry>::empty()) by {
        reveal(Seq::filter);
    }
    assert(entries@.take(0) == Seq::<Entry>::empty());
    assert(entries@.skip(0) == all.skip(0));
    while i < entries.len()
        invariant
            i <= entries@.len(),
            0 <= seen <= all.len(),
            wanted == (|entry: Entry| entry.executable),
            entries@.take(i as int) == all.take(seen).filter(wanted),
            entries@.skip(i as int) == all.skip(seen),
        decreases entries@.len() - i,
    {
        let ghost before = entries@;
        proof {
            reveal(Seq::filter);
            assert(before.skip(i as int).len() == all.skip(seen).len());
            assert(before.skip(i as int)[0] == all.skip(seen)[0]);
            assert(all.take(seen + 1).drop_last() == all.take(seen));
            assert(all.take(seen + 1).last() == before[i as int]);
            assert(before.skip(i as int).skip(1) == before.skip(i + 1));
            assert(all.skip(seen).skip(1) == all.skip(seen + 1));
        }
        if entries[i].executable {
            assert(before.take(i + 1) == before.take(i as int).push(before[i as int]));
            i += 1;
        } else {
            let _ = entries.remove(i);
            assert(entries@.take(i as int) == before.take(i as int));
            assert(entries@.skip(i as int) == before.skip(i + 1));
        }
        proof {
            seen = seen + 1;
        }
    }
    proof {
        assert(entries@.skip(i as int).len() == 0);
        assert(all.skip(seen).len() == 0);
        assert(all.take(seen) == all);
        assert(entries@.take(i as int) == entries@);
    }
}

/// Keeps the entries that may be the program.
pub fn finish_entries(vec: &mut Vec<Entry>)
    ensures
        final(vec)@ == candidates(old(vec)@),
{
    // If at least one entry is executable, only keep executable entries. Otherwise, we may simply
    // be lacking the metadata necessary to know it's executable, so keep going.
    let mut i: usize = 0;
    while i < vec.len()
        invariant
            i <= vec@.len(),
            vec@ == old(vec)@,
            forall|j: int| 0 <= j < i ==> !(#[trigger] vec@[j]).executable,
        decreases vec@.len() - i,
    {
        if vec[i].executable {
            retain_executables(vec);
            return;
        }
        i += 1;
    }
    // Otherwise, prefer entries in `bin/`.
    sort::sort(vec);
}

// ---------------------------------------------------------------------------------------------
// Scanning

/// Why an archive could not be scanned.
#[derive(Debug, Clone, Copy, PartialEq, Eq, Structural)]
pub enum ScanError {
    /// A tar archive, or its first file, cannot be read.
    Tar,
    /// A file in a tar archive has no path.
    TarPath,
    /// A zip archive cannot be read.
    Zip,
    /// A file in a zip archive has no name.
    ZipName,
}

impl ScanError {
    /// The error in words.
    pub open spec fn words(self) -> Seq<char> {
        match self {
            ScanError::Tar => "failed to read tar archive"@,
            ScanError::TarPath => "failed to read tar entry path"@,
            ScanError::Zip => "failed to read zip archive"@,
            ScanError::ZipName => "failed to read zip entry name"@,
        }
    }

    /// The error in words.
    pub fn message(&self) -> (message: &'static str)
        ensures
            message@ == self.words(),
    {
        match self {
            ScanError::Tar => "failed to read tar archive",
            ScanError::TarPath => "failed to read tar entry path",
            ScanError::Zip => "failed to read zip archive",
            ScanError::ZipName => "failed to read zip entry name",
        }
    }
}

/// What was read from a tar archive.
#[derive(Debug)]
pub enum TarItem {
    /// The archive ended.
    End,
    /// What follows cannot be read.
    Unreadable,
    /// Something other than a file.
    Other,
    /// A file, with its mode and its path as far as they can be read.
    File { mode: Option<u32>, path: Option<String> },
}

/// Whether a file of this mode may be executed by someone.
pub open spec fn is_executable(mode: Option<u32>) -> bool {
    match mode {
        Some(mode) => mode & 0o111 != 0,
        None => false,
    }
}

/// Whether a file of this mode may be executed by someone.
fn executable(mode: Option<u32>) -> (yes: bool)
    ensures
        yes == is_executable(mode),
{
    match mode {
        Some(mode) => mode & 0o111 != 0,
        None => false,
    }
}

/// Whether `entry` is the one of a file in an archive.
pub open spec fn is_entry(entry: Entry, path: Seq<char>, executable: bool) -> bool {
    &&& entry.path@ == plain_path(path)
    &&& entry.executable == executable
    &&& entry.in_bin == is_in_bin(plain_path(path))
}

/// Takes what was read from a tar archive. Returns whether to read on.
///
/// A malformed/truncated tar may still yield a usable prefix of entries; only treat this as fatal
/// if nothing could be read at all.
pub fn scan_tar(results: &mut Vec<Entry>, item: TarItem) -> (result: Result<bool, ScanError>)
    ensures
        match item {
            TarItem::End => result == Ok::<bool, ScanError>(false) && final(results)@ == old(
                results,
            )@,
            TarItem::Unreadable => {
                &&& final(results)@ == old(results)@
                &&& result == if old(results)@.len() == 0 {
                    Err::<bool, ScanError>(ScanError::Tar)
                } else {
                    Ok::<bool, ScanError>(false)
                }
            },
            TarItem::Other => result == Ok::<bool, ScanError>(true) && final(results)@ == old(
                results,
            )@,
            TarItem::File { mode, path: None } => {
                &&& result == Err::<bool, ScanError>(ScanError::TarPath)
                &&& final(results)@ == old(results)@
            },
            TarItem::File { mode, path: Some(path) } => {
                &&& result == Ok::<bool, ScanError>(true)
                &&& final(results)@.len() == old(results)@.len() + 1
                &&& final(results)@.drop_last() == old(results)@
                &&& is_entry(final(results)@.last(), path@, is_executable(mode))
            },
        },
{
    match item {
        TarItem::End => Ok(false),
        TarItem::Unreadable => {
            if results.len() == 0 {
                Err(ScanError::Tar)
            } else {
                Ok(false)
            }
        },
        TarItem::Other => Ok(true),
        TarItem::File { mode, path } => {
            match path {
                Some(path) => {
                    results.push(Entry::new(path, executable(mode)));
                    assert(results@.drop_last() == old(results)@);
                    Ok(true)
                },
                None => Err(ScanError::TarPath),
            }
        },
    }
}

/// What was read from a zip archive.
#[derive(Debug)]
pub enum ZipItem {
    /// The archive ended.
    End,
    /// What follows cannot be read.
    Unreadable,
    /// A file or a directory, with its name and its permissions as far as they can be read.
    Named { permissions: Option<u16>, name: Option<String> },
}

/// Permissions as a mode.
pub open spec fn mode_of(permissions: Option<u16>) -> Option<u32> {
    match permissions {
        Some(permissions) => Some(permissions as u32),
        None => None,
    }
}

/// Takes what was read from a zip archive. Returns whether to read on.
pub fn scan_zip(results: &mut Vec<Entry>, item: ZipItem) -> (result: Result<bool, ScanError>)
    ensures
        match item {
            ZipItem::End => result == Ok::<bool, ScanError>(false) && final(results)@ == old(
                results,
            )@,
            ZipItem::Unreadable => {
                &&& result == Err::<bool, ScanError>(ScanError::Zip)
                &&& final(results)@ == old(results)@
            },
            ZipItem::Named { permissions, name: None } => {
                &&& result == Err::<bool, ScanError>(ScanError::ZipName)
                &&& final(results)@ == old(results)@
            },
            ZipItem::Named { permissions, name: Some(name) } => {
                &&& result == Ok::<bool, ScanError>(true)
                &&& if name@.len() > 0 && name@.last() == '/' {
                    final(results)@ == old(results)@
                } else {
                    &&& final(results)@.len() == old(results)@.len() + 1
                    &&& final(results)@.drop_last() == old(results)@
                    &&& is_entry(
                        final(results)@.last(),
                        name@,
                        is_executable(mode_of(permissions)),
                    )
                }
            },
        },
{
    match item {
        ZipItem::End => Ok(false),
        ZipItem::Unreadable => Err(ScanError::Zip),
        ZipItem::Named { permissions, name } => {
            match name {
                Some(name) => {
                    let directory: bool = text::ends_with(name.as_str(), "/");
                    proof {
                        reveal_strlit("/");
                        if name@.len() > 0 {
                            let end = name@.subrange(name@.len() - 1, name@.len() as int);
                            assert(end == seq![name@.last()]);
                            assert((end == "/"@) == (name@.last() == '/')) by {
                                assert(end[0] == name@.last() && "/"@[0] == '/');
                                if name@.last() == '/' {
                                    assert(end =~= "/"@);
                                }
                            }
                        }
                    }
                    if !directory {
                        let mode: Option<u32> = match permissions {
                            Some(permissions) => Some(permissions as u32),
                            None => None,
                        };
                        results.push(Entry::new(name, executable(mode)));
                        assert(results@.drop_last() == old(results)@);
                    }
                    Ok(true)
                },
                None => Err(ScanError::ZipName),
            }
        },
    }
}

// ---------------------------------------------------------------------------------------------
// Laws

/// Every candidate is an entry of the archive.
pub proof fn candidates_are_entries(entries: Seq<Entry>)
    ensures
        forall|entry: Entry| #[trigger]
            candidates(entries).contains(entry) ==> entries.contains(entry),
{
    assert forall|entry: Entry| #[trigger] candidates(entries).contains(entry) implies entries.contains(
        entry,
    ) by {
        if exists|i: int| 0 <= i < entries.len() && (#[trigger] entries[i]).executable {
            entries.lemma_filter_contains_rev(|entry: Entry| entry.executable, entry);
        } else {
            sort::sorted_keeps_the_items(entries);
            entries.to_multiset_ensures();
            sort::sorted(entries).to_multiset_ensures();
            assert(sort::sorted(entries).to_multiset().count(entry) > 0);
        }
    }
}

/// If something in the archive is executable, the candidates are just what is.
pub proof fn executables_are_the_candidates(entries: Seq<Entry>, entry: Entry)
    requires
        exists|i: int| 0 <= i < entries.len() && (#[trigger] entries[i]).executable,
    ensures
        candidates(entries).contains(entry) <==> entries.contains(entry) && entry.executable,
{
    let wanted = |entry: Entry| entry.executable;
    if candidates(entries).contains(entry) {
        entries.lemma_filter_contains_rev(wanted, entry);
        let i = choose|i: int|
            0 <= i < entries.filter(wanted).len() && entries.filter(wanted)[i] == entry;
        entries.lemma_filter_pred(wanted, i);
    }
    if entries.contains(entry) && entry.executable {
        let i = choose|i: int| 0 <= i < entries.len() && entries[i] == entry;
        entries.lemma_filter_contains(wanted, i);
    }
}

/// If nothing in the archive is executable, everything in it is a candidate, and what is in `bin`
/// comes first.
pub proof fn binaries_come_first(entries: Seq<Entry>)
    requires
        forall|i: int| 0 <= i < entries.len() ==> !(#[trigger] entries[i]).executable,
    ensures
        candidates(entries).to_multiset() == entries.to_multiset(),
        forall|i: int, j: int|
            0 <= i < j < candidates(entries).len() && (#[trigger] candidates(entries)[j]).in_bin
                ==> (#[trigger] candidates(entries)[i]).in_bin,
{
    sort::sorted_keeps_the_items(entries);
    sort::sorted_is_sorted(entries);
    let sorted = sort::sorted(entries);
    assert forall|i: int, j: int| 0 <= i < j < sorted.len() && (#[trigger] sorted[j]).in_bin implies (
    #[trigger] sorted[i]).in_bin by {
        assert(!sorted[j].before(sorted[i]));
    }
}

/// A path is that of an entry in the archive, without a `./` before it.
pub proof fn paths_are_plain(path: Seq<char>)
    ensures
        plain_path("./"@ + path) == path,
        !"./"@.is_prefix_of(path) ==> plain_path(path) == path,
{
    reveal_strlit("./");
    let whole = "./"@ + path;
    assert(whole.subrange(0, 2) == "./"@);
    assert(whole.skip(2) == path);
}

/// What is in a `bin` directory, wherever that is, and what ends in `.exe` looks like a program.
pub proof fn programs_are_in_bin(before: Seq<char>, after: Seq<char>)
    ensures
        is_in_bin("bin/"@ + after),
        is_in_bin(before + "/bin/"@ + after),
        is_in_bin(before + ".exe"@),
{
    let a = "bin/"@ + after;
    assert(a.subrange(0, "bin/"@.len() as int) == "bin/"@);
    let b = before + "/bin/"@ + after;
    let n = before.len() as int;
    assert(b.skip(n).subrange(0, "/bin/"@.len() as int) == "/bin/"@);
    assert("/bin/"@.is_prefix_of(b.skip(n)));
    let c = before + ".exe"@;
    assert(c.subrange(c.len() - ".exe"@.len(), c.len() as int) == ".exe"@);
}

/// Nothing else does: a file which is in no directory, or in none called `bin`, and does not end in
/// `.exe`.
pub proof fn others_are_not_in_bin(path: Seq<char>)
    requires
        forall|before: Seq<char>, after: Seq<char>|
            path != #[trigger] in_directory(before, "bin"@, after),
        forall|after: Seq<char>| path != #[trigger] in_directory_at_the_top("bin"@, after),
        !".exe"@.is_suffix_of(path),
    ensures
        !is_in_bin(path),
{
    reveal_strlit("bin");
    reveal_strlit("bin/");
    reveal_strlit("/bin/");
    assert("bin/"@ == "bin"@ + seq!['/']);
    assert("/bin/"@ == seq!['/'] + "bin"@ + seq!['/']);
    if "bin/"@.is_prefix_of(path) {
        let after = path.skip(4);
        assert(path.subrange(0, 4) == "bin/"@);
        assert(path == path.subrange(0, 4) + after);
        assert(path == in_directory_at_the_top("bin"@, after));
    }
    if text::occurs_in("/bin/"@, path) {
        let i = choose|i: int|
            0 <= i <= path.len() && "/bin/"@.is_prefix_of(#[trigger] path.skip(i));
        let before = path.take(i);
        let after = path.skip(i + 5);
        assert(path.skip(i).subrange(0, 5) == "/bin/"@);
        assert(path == before + path.skip(i).subrange(0, 5) + after);
        assert(before + (seq!['/'] + "bin"@ + seq!['/']) + after == in_directory(
            before,
            "bin"@,
            after,
        ));
    }
}

/// The path of `after` in a directory called `name` after `before`.
pub open spec fn in_directory(before: Seq<char>, name: Seq<char>, after: Seq<char>) -> Seq<char> {
    before + seq!['/'] + name + seq!['/'] + after
}

/// The path of `after` in a directory called `name`.
pub open spec fn in_directory_at_the_top(name: Seq<char>, after: Seq<char>) -> Seq<char> {
    name + seq!['/'] + after
}

/// A file may be executed if and only if its owner, its group or others may execute it; if its mode
/// is not known, it may not.
pub proof fn modes_say_who_executes(mode: u32)
    ensures
        is_executable(Some(mode)) <==> mode & 0o100 != 0 || mode & 0o010 != 0 || mode & 0o001 != 0,
        !is_executable(None),
{
    assert(mode & 0o111 != 0 <==> mode & 0o100 != 0 || mode & 0o010 != 0 || mode & 0o001 != 0)
        by (bit_vector);
}

/// Permissions in a zip archive are those of the same number in a tar archive.
pub proof fn permissions_are_modes(permissions: u16)
    ensures
        mode_of(Some(permissions)) matches Some(mode) && mode as int == permissions as int,
        mode_of(None) is None,
{
}

/// If nothing in the archive is executable, what is in `bin`, and then what is not, is in the order of
/// the paths.
pub proof fn candidates_are_in_order(entries: Seq<Entry>, i: int, j: int)
    requires
        forall|i: int| 0 <= i < entries.len() ==> !(#[trigger] entries[i]).executable,
        0 <= i < j < candidates(entries).len(),
        candidates(entries)[i].in_bin == candidates(entries)[j].in_bin,
    ensures
        !text::precedes(candidates(entries)[j].path@, candidates(entries)[i].path@),
{
    sort::sorted_is_sorted(entries);
    let sorted = sort::sorted(entries);
    assert(!sorted[j].before(sorted[i]));
}

/// Executable entries stay in the order in which they came.
pub proof fn executables_keep_their_order(entries: Seq<Entry>)
    requires
        exists|i: int| 0 <= i < entries.len() && (#[trigger] entries[i]).executable,
    ensures
        candidates(entries) == entries.filter(|entry: Entry| entry.executable),
{
}

/// The entry of a file is at its path, and is executable if the file is.
pub proof fn entries_are_those_of_files(entry: Entry, path: Seq<char>, executable: bool)
    requires
        is_entry(entry, path, executable),
        !"./"@.is_prefix_of(path),
    ensures
        entry.path@ == path,
        entry.executable == executable,
        entry.in_bin == is_in_bin(path),
{
}

} // verus!
