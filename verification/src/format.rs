//! The formats of the output.

use vstd::prelude::*;

use crate::digest::{Digest, DigestView};
use crate::dotslash::{DotslashFile, Entry, EntryView};
use crate::fetch;
use crate::fetch::{FetchedArtifact, FetchedView};
use crate::outside;
use crate::shell;
use crate::shell::{ShellError, ShellErrorView};
use crate::target::{ArchiveFormat, Artifact, Artifacts, Os, Platform};
use crate::text;

verus! {

// ---------------------------------------------------------------------------------------------
// Planning

/// How to determine what there is to know about an artifact.
#[derive(Debug)]
pub enum Step {
    /// It is known.
    Known(FetchedArtifact),
    /// It has to be downloaded from `url`, and must have the digest `expected`, if any.
    Fetch { url: String, expected: Option<Digest> },
}

/// What a [`Step`] holds.
pub enum StepView {
    Known(FetchedView),
    Fetch { url: Seq<char>, expected: Option<DigestView> },
}

impl View for Step {
    type V = StepView;

    open spec fn view(&self) -> StepView {
        match *self {
            Step::Known(fetched) => StepView::Known(fetched@),
            Step::Fetch { url, expected } => StepView::Fetch {
                url: url@,
                expected: crate::options::optional_digest(expected),
            },
        }
    }
}

/// How to determine what there is to know about an artifact whose URL is `url`.
pub open spec fn step_of(artifact: Artifact, url: Seq<char>) -> StepView {
    match fetch::known_of(artifact) {
        Some(fetched) => StepView::Known(fetched),
        None => StepView::Fetch {
            url,
            expected: if artifact.check_digest {
                crate::options::optional_digest(artifact.digest)
            } else {
                None
            },
        },
    }
}

/// How to determine what there is to know about an artifact whose URL is `url`.
pub fn plan_one(artifact: &Artifact, url: String) -> (step: Step)
    ensures
        step@ == step_of(*artifact, url@),
{
    match fetch::known(artifact) {
        Some(fetched) => Step::Known(fetched),
        None => {
            let expected: Option<Digest> = if artifact.check_digest { artifact.digest } else { None
            };
            Step::Fetch { url, expected }
        },
    }
}

/// Position of the first artifact whose URL is none, or the length of `list`.
pub open spec fn first_invalid(list: Seq<(Platform, Artifact)>) -> int
    decreases list.len(),
{
    if list.len() == 0 || outside::normal_url(list[0].1.url@) is None {
        0
    } else {
        1 + first_invalid(list.skip(1))
    }
}

/// `first_invalid` is the only position with an invalid URL (or the end) at it and none before it.
proof fn lemma_first_invalid(list: Seq<(Platform, Artifact)>, at: int)
    requires
        0 <= at <= list.len(),
        forall|i: int|
            0 <= i < at ==> outside::normal_url((#[trigger] list[i]).1.url@) is Some,
        at < list.len() ==> outside::normal_url(list[at].1.url@) is None,
    ensures
        first_invalid(list) == at,
    decreases list.len(),
{
    if at > 0 {
        assert(outside::normal_url(list[0].1.url@) is Some);
        assert forall|i: int| 0 <= i < at - 1 implies outside::normal_url(
            (#[trigger] list.skip(1)[i]).1.url@,
        ) is Some by {
            assert(list.skip(1)[i] == list[i + 1]);
        }
        lemma_first_invalid(list.skip(1), at - 1);
    }
}

/// The artifacts of a plan.
pub open spec fn planned(plan: Seq<(Platform, &Artifact, Step)>) -> Seq<(Platform, Artifact)> {
    plan.map_values(|item: (Platform, &Artifact, Step)| (item.0, *item.1))
}

/// How to determine what there is to know about each artifact. Fails with the first URL which is
/// none.
pub fn plan(platforms: &Artifacts) -> (plan: Result<Vec<(Platform, &Artifact, Step)>, &String>)
    ensures
        match plan {
            Ok(plan) => {
                &&& first_invalid(platforms.listed(0)) == platforms.listed(0).len()
                &&& planned(plan@) == platforms.listed(0)
                &&& forall|i: int|
                    0 <= i < plan@.len() ==> (#[trigger] plan@[i]).2@ == step_of(
                        *plan@[i].1,
                        outside::normal_url(plan@[i].1.url@)->0,
                    )
            },
            Err(url) => {
                let at = first_invalid(platforms.listed(0));
                &&& 0 <= at < platforms.listed(0).len()
                &&& url@ == platforms.listed(0)[at].1.url@
            },
        },
{
    let ghost all = platforms.listed(0);
    let list: Vec<(Platform, &Artifact)> = platforms.iter();
    let ghost strip = |item: (Platform, &Artifact)| (item.0, *item.1);
    let mut plan: Vec<(Platform, &Artifact, Step)> = Vec::new();
    let mut i: usize = 0;
    assert(planned(plan@) == all.take(0));
    while i < list.len()
        invariant
            i <= list@.len() == all.len(),
            strip == (|item: (Platform, &Artifact)| (item.0, *item.1)),
            list@.map_values(strip) == all,
            all == platforms.listed(0),
            planned(plan@) == all.take(i as int),
            plan@.len() == i,
            forall|j: int|
                0 <= j < i ==> outside::normal_url((#[trigger] all[j]).1.url@) is Some,
            forall|j: int|
                0 <= j < i ==> (#[trigger] plan@[j]).2@ == step_of(
                    *plan@[j].1,
                    outside::normal_url(plan@[j].1.url@)->0,
                ),
        decreases list@.len() - i,
    {
        let (platform, artifact) = list[i];
        assert(list@.map_values(strip)[i as int] == (platform, *artifact));
        match outside::parse_url(artifact.url.as_str()) {
            Some(url) => {
                let ghost before = plan@;
                let step: Step = plan_one(artifact, url);
                plan.push((platform, artifact, step));
                assert(planned(plan@) == planned(before).push((platform, *artifact)));
                assert(all.take(i + 1) == all.take(i as int).push((platform, *artifact)));
            },
            None => {
                proof {
                    lemma_first_invalid(all, i as int);
                }
                return Err(&artifact.url);
            },
        }
        i += 1;
    }
    proof {
        lemma_first_invalid(all, i as int);
        assert(all.take(i as int) == all);
    }
    Ok(plan)
}

// ---------------------------------------------------------------------------------------------
// Format

/// The format of the output.
#[derive(Clone, Copy, PartialEq, Eq, Debug, Structural)]
pub enum Format {
    /// Dotslash file.
    Dotslash,
    /// Self-contained shell script; requires `/bin/sh`, `curl`, `tee`, `mkdir`, `chmod`, `flock`,
    /// and additional programs for computing digests (`b3sum` or `sha256sum`) and for extraction
    /// (or `mv` if no extraction is needed).
    Sh,
}

/// The output, as far as it is determined here.
#[derive(Debug)]
pub enum Output {
    /// A Dotslash file, which is written as JSON after its header.
    Dotslash(DotslashFile),
    /// The bytes of a script.
    Sh(Vec<u8>),
}

/// The name of a program, given the path of its binary: the last segment, without `.exe`.
pub open spec fn name_of(path: Seq<char>) -> Seq<char> {
    let file_name = path.skip(text::last_of(path, '/') + 1);
    if ".exe"@.is_suffix_of(file_name) {
        file_name.take(file_name.len() - ".exe"@.len())
    } else {
        file_name
    }
}

/// Whether an entry is for Windows.
pub open spec fn on_windows(entry: Entry) -> bool {
    entry.platform matches Platform::Known { os: Os::Windows, .. }
}

/// The entries which are not for Windows.
pub open spec fn unix_entries(entries: Seq<Entry>) -> Seq<Entry> {
    entries.filter(|entry: Entry| !on_windows(entry))
}

impl Format {
    /// Whether to prefer SHA-256 to BLAKE3: scripts are more likely to find the program that
    /// computes it.
    pub fn prefer_sha256(&self) -> (prefer: bool)
        ensures
            prefer == (*self == Format::Sh),
    {
        match self {
            Format::Sh => true,
            Format::Dotslash => false,
        }
    }

    /// The name of the program: the given one, or else the name of the first binary.
    pub fn program_name(name: Option<String>, entries: &[Entry]) -> (result: String)
        requires
            entries@.len() > 0,
        ensures
            result@ == match name {
                Some(name) => name@,
                None => name_of(entries@[0].dotslash_url_entry.path@),
            },
    {
        if let Some(name) = name {
            return name;
        }
        let path: &str = entries[0].dotslash_url_entry.path.as_str();
        let len: usize = path.unicode_len();
        let file_name: &str = match text::find_last(path, '/') {
            Some(at) => path.substring_char(at + 1, len),
            None => path,
        };
        proof {
            let start = text::last_of(path@, '/') + 1;
            assert(path@.subrange(start, len as int) == path@.skip(start));
            assert(path@.skip(0) == path@);
        }
        match text::strip_suffix(file_name, ".exe") {
            Some(stem) => stem.to_owned(),
            None => file_name.to_owned(),
        }
    }

    /// Whether there is output in this format for some entries: scripts need one which is not for
    /// Windows.
    pub open spec fn supports(self, entries: Seq<Entry>) -> bool {
        self == Format::Sh ==> {
            &&& unix_entries(entries).len() > 0
            &&& shell::all_have_urls(crate::dotslash::views(unix_entries(entries)))
        }
    }

    /// Whether there is output in this format for some entries.
    pub fn is_supported(&self, entries: &[Entry]) -> (yes: bool)
        ensures
            yes == self.supports(entries@),
    {
        match self {
            Format::Dotslash => true,
            Format::Sh => {
                let ghost wanted = |entry: Entry| !on_windows(entry);
                let mut found: bool = false;
                let mut all: bool = true;
                let mut i: usize = 0;
                assert(unix_entries(entries@.take(0)) == Seq::<Entry>::empty()) by {
                    reveal(Seq::filter);
                }
                while i < entries.len()
                    invariant
                        i <= entries@.len(),
                        wanted == (|entry: Entry| !on_windows(entry)),
                        found == (unix_entries(entries@.take(i as int)).len() > 0),
                        all == shell::all_have_urls(
                            crate::dotslash::views(unix_entries(entries@.take(i as int))),
                        ),
                    decreases entries@.len() - i,
                {
                    let entry: &Entry = &entries[i];
                    let ghost before = unix_entries(entries@.take(i as int));
                    proof {
                        reveal(Seq::filter);
                        assert(entries@.take(i + 1).drop_last() == entries@.take(i as int));
                        assert(entries@.take(i + 1).last() == *entry);
                    }
                    if !is_for_windows(entry) {
                        found = true;
                        proof {
                            let now = unix_entries(entries@.take(i + 1));
                            assert(now == before.push(*entry));
                            assert(crate::dotslash::views(now) == crate::dotslash::views(
                                before,
                            ).push(entry@));
                            lemma_one_more_url(crate::dotslash::views(before), entry@);
                        }
                        if shell::find_url(&entry.dotslash_url_entry.providers).is_none() {
                            all = false;
                        }
                    } else {
                        assert(unix_entries(entries@.take(i + 1)) == before);
                    }
                    i += 1;
                }
                assert(entries@.take(i as int) == entries@);
                found && all
            },
        }
    }

    /// The output for the program `name`.
    pub fn prepare(self, name: &str, entries: Vec<Entry>) -> (output: Result<Output, ShellError>)
        requires
            self.supports(entries@),
        ensures
            match (self, output) {
                (Format::Dotslash, Ok(Output::Dotslash(file))) => {
                    &&& file.name@ == name@
                    &&& crate::dotslash::lists(
                        crate::dotslash::platform_views(file.platforms@),
                        crate::dotslash::views(entries@),
                    )
                },
                (Format::Sh, Ok(Output::Sh(bytes))) => {
                    let script = shell::shell(
                        name@,
                        crate::dotslash::views(unix_entries(entries@)),
                    );
                    &&& script is Ok
                    &&& bytes@ == vstd::utf8::encode_utf8(script->Ok_0)
                },
                (Format::Sh, Err(error)) => shell::shell(
                    name@,
                    crate::dotslash::views(unix_entries(entries@)),
                ) == Err::<Seq<char>, ShellErrorView>(error@),
                _ => false,
            },
    {
        match self {
            Format::Dotslash => Ok(Output::Dotslash(DotslashFile::new(name.to_owned(), entries))),
            Format::Sh => {
                let mut entries: Vec<Entry> = entries;
                drop_windows(&mut entries);
                let mut out: Vec<u8> = Vec::new();
                match shell::to_shell(&mut out, name, entries.as_slice()) {
                    Ok(()) => Ok(Output::Sh(out)),
                    Err(error) => Err(error),
                }
            },
        }
    }
}

/// All entries have URLs if all but the last do, and the last does.
proof fn lemma_one_more_url(entries: Seq<EntryView>, entry: EntryView)
    ensures
        shell::all_have_urls(entries.push(entry)) == (shell::all_have_urls(entries)
            && shell::first_url(entry.dotslash_url_entry.providers) is Some),
{
    let more = entries.push(entry);
    if shell::all_have_urls(more) {
        assert(more[entries.len() as int] == entry);
        assert forall|i: int| 0 <= i < entries.len() implies shell::first_url(
            (#[trigger] entries[i]).dotslash_url_entry.providers,
        ) is Some by {
            assert(more[i] == entries[i]);
        }
    }
}

/// Whether an entry is for Windows.
fn is_for_windows(entry: &Entry) -> (yes: bool)
    ensures
        yes == on_windows(*entry),
{
    match entry.platform {
        Platform::Known { arch, os } => match os {
            Os::Windows => true,
            _ => false,
        },
        Platform::MacosUniversal => false,
    }
}

/// Keeps the entries which are not for Windows.
pub fn drop_windows(entries: &mut Vec<Entry>)
    ensures
        final(entries)@ == unix_entries(old(entries)@),
{
    let ghost all = entries@;
    let ghost wanted = |entry: Entry| !on_windows(entry);
    let mut i: usize = 0;
    let ghost mut seen: int = 0;
    assert(all.take(0).filter(wanted) == Seq::<Entry>::empty()) by {
        reveal(Seq::filter);
    }
    assert(entries@.take(0) == Seq::<Entry>::empty());
    assert(entries@.skip(0) == all.skip(0));
    while i < entries.len()
        invariant
            i <= entries@.len(),
            0 <= seen <= all.len(),
            wanted == (|entry: Entry| !on_windows(entry)),
            entries@.take(i as int) == all.take(seen).filter(wanted),
            entries@.skip(i as int) == all.skip(seen),
        decreases entries@.len() - i,
    {
        let ghost before = entries@;
        proof {
            reveal(Seq::filter);
            assert(before.skip(i as int).len() == all.skip(seen).len());
            assert(before.skip(i as int)[0] == all.skip(seen)[0]);
            assert(all.take(seen + 1).drop_last() == all.take(seen));
            assert(all.take(seen + 1).last() == before[i as int]);
            assert(before.skip(i as int).skip(1) == before.skip(i + 1));
            assert(all.skip(seen).skip(1) == all.skip(seen + 1));
        }
        if !is_for_windows(&entries[i]) {
            assert(before.take(i + 1) == before.take(i as int).push(before[i as int]));
            i += 1;
        } else {
            let _ = entries.remove(i);
            assert(entries@.take(i as int) == before.take(i as int));
            assert(entries@.skip(i as int) == before.skip(i + 1));
        }
        proof {
            seen = seen + 1;
        }
    }
    proof {
        assert(entries@.skip(i as int).len() == 0);
        assert(all.skip(seen).len() == 0);
        assert(all.take(seen) == all);
        assert(entries@.take(i as int) == entries@);
    }
}

// ---------------------------------------------------------------------------------------------
// Laws

/// The entry of an artifact can be downloaded from the URL of the artifact.
pub proof fn entry_has_its_url(
    platform: Platform,
    url: Seq<char>,
    format: Option<ArchiveFormat>,
    fetched: FetchedView,
)
    ensures
        shell::first_url(
            crate::dotslash::entry_of(platform, url, format, fetched).dotslash_url_entry.providers,
        ) == Some(url),
{
}

/// An artifact whose digest has to be checked is downloaded, and checked against that digest,
/// whatever else is known about it.
pub proof fn digests_are_checked(artifact: Artifact, url: Seq<char>)
    requires
        artifact.check_digest,
    ensures
        step_of(artifact, url) == (StepView::Fetch {
            url,
            expected: crate::options::optional_digest(artifact.digest),
        }),
{
}

/// Whether a platform is one of Windows.
pub open spec fn is_windows(platform: Platform) -> bool {
    platform is Known && platform->os is Windows
}

/// A script is for every entry which is not for Windows, in the order in which they came, and for
/// no other: those for Linux and for macOS are in it, universal ones too.
pub proof fn script_is_for_all_but_windows(entries: Seq<Entry>)
    ensures
        unix_entries(entries) == entries.filter(|entry: Entry| !is_windows(entry.platform)),
        forall|entry: Entry| #[trigger]
            unix_entries(entries).contains(entry) <==> entries.contains(entry) && !(
            entry.platform is Known && entry.platform->os is Windows),
{
    let ours = |entry: Entry| !on_windows(entry);
    let theirs = |entry: Entry| !is_windows(entry.platform);
    lemma_same_filter(entries, ours, theirs);
    assert forall|entry: Entry| #[trigger]
        unix_entries(entries).contains(entry) <==> entries.contains(entry) && !(
        entry.platform is Known && entry.platform->os is Windows) by {
        let kept = entries.filter(ours);
        if kept.contains(entry) {
            entries.lemma_filter_contains_rev(ours, entry);
            let i = choose|i: int| 0 <= i < kept.len() && kept[i] == entry;
            entries.lemma_filter_pred(ours, i);
        }
        if entries.contains(entry) && !is_windows(entry.platform) {
            let i = choose|i: int| 0 <= i < entries.len() && entries[i] == entry;
            entries.lemma_filter_contains(ours, i);
        }
    }
}

/// Filters which agree keep the same.
proof fn lemma_same_filter(
    entries: Seq<Entry>,
    a: spec_fn(Entry) -> bool,
    b: spec_fn(Entry) -> bool,
)
    requires
        forall|entry: Entry| #[trigger] a(entry) == b(entry),
    ensures
        entries.filter(a) == entries.filter(b),
    decreases entries.len(),
{
    reveal(Seq::filter);
    if entries.len() > 0 {
        lemma_same_filter(entries.drop_last(), a, b);
        assert(a(entries.last()) == b(entries.last()));
    }
}

/// There is a script as long as some entry is not for Windows, and each that is not has a URL.
pub proof fn scripts_need_other_platforms(entries: Seq<Entry>)
    ensures
        Format::Dotslash.supports(entries),
        Format::Sh.supports(entries) <==> {
            &&& exists|i: int| 0 <= i < entries.len() && !is_windows((#[trigger] entries[i]).platform)
            &&& forall|i: int|
                0 <= i < entries.len() && !is_windows((#[trigger] entries[i]).platform)
                    ==> shell::first_url(entries[i]@.dotslash_url_entry.providers) is Some
        },
{
    script_is_for_all_but_windows(entries);
    let kept = unix_entries(entries);
    let views = crate::dotslash::views(kept);
    if Format::Sh.supports(entries) {
        assert(kept.contains(kept[0]));
        let k = choose|k: int| 0 <= k < entries.len() && entries[k] == kept[0];
        assert(!is_windows(entries[k].platform));
        assert forall|i: int|
            0 <= i < entries.len() && !is_windows((#[trigger] entries[i]).platform) implies
            shell::first_url(entries[i]@.dotslash_url_entry.providers) is Some by {
            assert(entries.contains(entries[i]));
            assert(kept.contains(entries[i]));
            let j = choose|j: int| 0 <= j < kept.len() && kept[j] == entries[i];
            assert(views[j] == kept[j]@);
        }
    } else if (exists|i: int|
        0 <= i < entries.len() && !is_windows((#[trigger] entries[i]).platform)) && (forall|i: int|
        0 <= i < entries.len() && !is_windows((#[trigger] entries[i]).platform)
            ==> shell::first_url(entries[i]@.dotslash_url_entry.providers) is Some) {
        let i = choose|i: int|
            0 <= i < entries.len() && !is_windows((#[trigger] entries[i]).platform);
        assert(entries.contains(entries[i]));
        assert(kept.contains(entries[i]));
        assert forall|j: int| 0 <= j < views.len() implies shell::first_url(
            (#[trigger] views[j]).dotslash_url_entry.providers,
        ) is Some by {
            assert(kept.contains(kept[j]));
            let k = choose|k: int| 0 <= k < entries.len() && entries[k] == kept[j];
            assert(!is_windows(entries[k].platform));
        }
    }
}

/// The name of a program is that of its binary, without the directories before it and without
/// `.exe`.
pub proof fn name_is_that_of_the_binary(directory: Seq<char>, name: Seq<char>)
    requires
        !name.contains('/'),
        !".exe"@.is_suffix_of(name),
    ensures
        name_of(directory + seq!['/'] + name) == name,
        name_of(directory + seq!['/'] + name + ".exe"@) == name,
{
    assert(!".exe"@.contains('/')) by {
        reveal_strlit(".exe");
    }
    lemma_last_segment(directory, name);
    let file = name + ".exe"@;
    assert(!file.contains('/')) by {
        if file.contains('/') {
            let i = choose|i: int| 0 <= i < file.len() && file[i] == '/';
            if i < name.len() {
                assert(name[i] == '/');
            } else {
                assert(".exe"@[i - name.len()] == '/');
            }
        }
    }
    lemma_last_segment(directory, file);
    assert(directory + seq!['/'] + name + ".exe"@ == directory + seq!['/'] + file);
    assert(file.subrange(file.len() - ".exe"@.len(), file.len() as int) == ".exe"@);
    assert(file.take(file.len() - ".exe"@.len()) == name);
}

/// What follows the last `/`.
pub proof fn lemma_last_segment(before: Seq<char>, after: Seq<char>)
    requires
        !after.contains('/'),
    ensures
        text::last_of(before + seq!['/'] + after, '/') == before.len(),
        (before + seq!['/'] + after).skip(before.len() as int + 1) == after,
    decreases after.len(),
{
    let whole = before + seq!['/'] + after;
    if after.len() > 0 {
        let shorter = after.drop_last();
        assert(after[after.len() - 1] != '/') by {
            assert(after.contains(after[after.len() - 1]));
        }
        assert(!shorter.contains('/')) by {
            if shorter.contains('/') {
                let i = choose|i: int| 0 <= i < shorter.len() && shorter[i] == '/';
                assert(after[i] == '/');
            }
        }
        lemma_last_segment(before, shorter);
        assert(whole.drop_last() == before + seq!['/'] + shorter);
    }
    assert(whole.skip(before.len() as int + 1) == after);
}

/// The name of a program whose binary is in no directory is that of its binary, without `.exe`.
pub proof fn name_is_that_of_the_file(name: Seq<char>)
    requires
        !name.contains('/'),
        !".exe"@.is_suffix_of(name),
    ensures
        name_of(name) == name,
        name_of(name + ".exe"@) == name,
{
    assert(!".exe"@.contains('/')) by {
        reveal_strlit(".exe");
    }
    lemma_no_segment(name);
    let file = name + ".exe"@;
    assert(!file.contains('/')) by {
        if file.contains('/') {
            let i = choose|i: int| 0 <= i < file.len() && file[i] == '/';
            if i < name.len() {
                assert(name[i] == '/');
            } else {
                assert(".exe"@[i - name.len()] == '/');
            }
        }
    }
    lemma_no_segment(file);
    assert(name.skip(0) == name);
    assert(file.skip(0) == file);
    assert(file.subrange(file.len() - ".exe"@.len(), file.len() as int) == ".exe"@);
    assert(file.take(file.len() - ".exe"@.len()) == name);
}

proof fn lemma_no_segment(path: Seq<char>)
    requires
        !path.contains('/'),
    ensures
        text::last_of(path, '/') == -1,
    decreases path.len(),
{
    if path.len() > 0 {
        let shorter = path.drop_last();
        assert(path.contains(path[path.len() - 1]));
        assert(!shorter.contains('/')) by {
            if shorter.contains('/') {
                let i = choose|i: int| 0 <= i < shorter.len() && shorter[i] == '/';
                assert(path[i] == '/');
            }
        }
        lemma_no_segment(shorter);
    }
}

/// The first URL which is none is found if there is one: none before it is like that.
pub proof fn first_invalid_url_is_found(list: Seq<(Platform, Artifact)>)
    ensures
        0 <= first_invalid(list) <= list.len(),
        forall|i: int|
            0 <= i < first_invalid(list) ==> outside::normal_url(
                (#[trigger] list[i]).1.url@,
            ) is Some,
        first_invalid(list) < list.len() ==> outside::normal_url(
            list[first_invalid(list)].1.url@,
        ) is None,
    decreases list.len(),
{
    if list.len() > 0 && outside::normal_url(list[0].1.url@) is Some {
        let rest = list.skip(1);
        first_invalid_url_is_found(rest);
        assert forall|i: int| 0 <= i < first_invalid(list) implies outside::normal_url(
            (#[trigger] list[i]).1.url@,
        ) is Some by {
            if i > 0 {
                assert(rest[i - 1] == list[i]);
            }
        }
        if first_invalid(list) < list.len() {
            assert(rest[first_invalid(rest)] == list[first_invalid(list)]);
        }
    }
}

/// What is known is not downloaded, and what is not known is, from its URL.
pub proof fn unknown_artifacts_are_downloaded(artifact: Artifact, url: Seq<char>)
    ensures
        fetch::known_of(artifact) matches Some(fetched) ==> step_of(artifact, url)
            == StepView::Known(fetched),
        fetch::known_of(artifact) is None && !artifact.check_digest ==> step_of(artifact, url) == (
        StepView::Fetch { url, expected: None }),
{
}

} // verus!
