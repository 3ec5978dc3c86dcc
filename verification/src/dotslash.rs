//! Dotslash files: <https://dotslash-cli.com/docs/dotslash-file/>.

use vstd::prelude::*;

use crate::digest::{Digest, DigestView};
use crate::fetch::{FetchedArtifact, FetchedView};
use crate::sort;
use crate::sort::Sortable;
use crate::target::{ArchiveFormat, Artifact, Platform};
use crate::text;

verus! {

broadcast use vstd::seq_lib::group_seq_properties;

// ---------------------------------------------------------------------------------------------
// Providers

/// Where a file can be downloaded from.
#[derive(Debug)]
pub enum DotslashProvider {
    /// An asset of a release on `github.com`.
    GitHub { repo: String, tag: String, name: String },
    Url { url: String },
}

/// What a [`DotslashProvider`] holds.
pub enum ProviderView {
    GitHub { repo: Seq<char>, tag: Seq<char>, name: Seq<char> },
    Url { url: Seq<char> },
}

impl View for DotslashProvider {
    type V = ProviderView;

    open spec fn view(&self) -> ProviderView {
        match *self {
            DotslashProvider::GitHub { repo, tag, name } => ProviderView::GitHub {
                repo: repo@,
                tag: tag@,
                name: name@,
            },
            DotslashProvider::Url { url } => ProviderView::Url { url: url@ },
        }
    }
}

/// The release asset that can be downloaded from `url`, if it is
/// `https://github.com/<org>/<repo>/releases/download/<tag>/<name>`.
pub open spec fn github_provider(url: Seq<char>) -> Option<ProviderView> {
    let segments = text::pieces(url.skip("https://github.com/"@.len() as int), seq!['/']);
    if "https://github.com/"@.is_prefix_of(url) && segments.len() == 6 && segments[2]
        == "releases"@ && segments[3] == "download"@ {
        Some(
            ProviderView::GitHub {
                repo: segments[0] + "/"@ + segments[1],
                tag: segments[4],
                name: segments[5],
            },
        )
    } else {
        None
    }
}

impl DotslashProvider {
    /// The release asset that can be downloaded from `url`, if it is one.
    pub fn parse_github_provider(url: &str) -> (provider: Option<DotslashProvider>)
        ensures
            match provider {
                Some(provider) => github_provider(url@) == Some(provider@),
                None => github_provider(url@) is None,
            },
    {
        let gh_path: &str = match text::strip_prefix(url, "https://github.com/") {
            Some(gh_path) => gh_path,
            None => {
                return None;
            },
        };
        let segments: Vec<&str> = text::split_at(gh_path, '/');
        let ghost all = text::texts(segments@);
        assert(all == text::pieces(gh_path@, seq!['/']));
        if segments.len() != 6 || !text::same(segments[2], "releases") || !text::same(
            segments[3],
            "download",
        ) {
            return None;
        }
        let repo: String = segments[0].to_owned().concat("/").concat(segments[1]);
        let tag: String = segments[4].to_owned();
        let name: String = segments[5].to_owned();
        Some(DotslashProvider::GitHub { repo, tag, name })
    }
}

// ---------------------------------------------------------------------------------------------
// Entries

/// How to download a file for one platform.
#[derive(Debug)]
pub struct DotslashUrlEntry {
    pub size: u64,
    /// The name of the algorithm of `digest`.
    pub hash: &'static str,
    /// The digest in hexadecimal.
    pub digest: String,
    pub format: Option<&'static str>,
    pub path: String,
    pub providers: Vec<DotslashProvider>,
}

/// What a [`DotslashUrlEntry`] holds.
pub struct UrlEntryView {
    pub size: u64,
    pub hash: Seq<char>,
    pub digest: Seq<char>,
    pub format: Option<Seq<char>>,
    pub path: Seq<char>,
    pub providers: Seq<ProviderView>,
}

impl View for DotslashUrlEntry {
    type V = UrlEntryView;

    open spec fn view(&self) -> UrlEntryView {
        UrlEntryView {
            size: self.size,
            hash: self.hash@,
            digest: self.digest@,
            format: crate::options::optional_str(self.format),
            path: self.path@,
            providers: self.providers@.map_values(|provider: DotslashProvider| provider@),
        }
    }
}

/// A downloaded file and the platform it is for.
#[derive(Debug)]
pub struct Entry {
    pub format: Option<ArchiveFormat>,
    pub platform: Platform,
    pub dotslash_platform: &'static str,
    pub dotslash_url_entry: DotslashUrlEntry,
}

/// What an [`Entry`] holds.
pub struct EntryView {
    pub format: Option<ArchiveFormat>,
    pub platform: Platform,
    pub dotslash_platform: Seq<char>,
    pub dotslash_url_entry: UrlEntryView,
}

impl View for Entry {
    type V = EntryView;

    open spec fn view(&self) -> EntryView {
        EntryView {
            format: self.format,
            platform: self.platform,
            dotslash_platform: self.dotslash_platform@,
            dotslash_url_entry: self.dotslash_url_entry@,
        }
    }
}

/// What each entry of a list holds.
pub open spec fn views(entries: Seq<Entry>) -> Seq<EntryView> {
    entries.map_values(|entry: Entry| entry@)
}

/// Writes a SHA-256 digest in hexadecimal.
pub fn to_hex_string(sha256: &[u8; 32]) -> (hex: String)
    ensures
        hex@ == text::hex(sha256@),
{
    let mut hex: String = String::new();
    text::push_hex(&mut hex, sha256);
    hex
}

/// The name of the algorithm of a digest, and the digest in hexadecimal.
pub open spec fn written(digest: DigestView) -> (Seq<char>, Seq<char>) {
    match digest {
        DigestView::Blake3(bytes) => ("blake3"@, text::hex(bytes)),
        DigestView::Sha256(bytes) => ("sha256"@, text::hex(bytes)),
    }
}

/// Where a file can be downloaded from, given its URL.
pub open spec fn providers_of(url: Seq<char>) -> Seq<ProviderView> {
    match github_provider(url) {
        Some(provider) => seq![ProviderView::Url { url }, provider],
        None => seq![ProviderView::Url { url }],
    }
}

/// The entry of an artifact which is at `url` and has the format `format`.
pub open spec fn entry_of(
    platform: Platform,
    url: Seq<char>,
    format: Option<ArchiveFormat>,
    fetched: FetchedView,
) -> EntryView {
    EntryView {
        format,
        platform,
        dotslash_platform: crate::target::platform_name(platform),
        dotslash_url_entry: UrlEntryView {
            size: fetched.size,
            hash: written(fetched.hash).0,
            digest: written(fetched.hash).1,
            format: match format {
                Some(format) => Some(crate::target::format_name(format)),
                None => None,
            },
            path: fetched.path,
            providers: providers_of(url),
        },
    }
}

impl Entry {
    /// The entry of an artifact, given what was determined about it.
    pub fn new(platform: Platform, artifact: &Artifact, fetched: FetchedArtifact) -> (entry: Entry)
        ensures
            entry@ == entry_of(platform, artifact.url@, artifact.format, fetched@),
    {
        let mut providers: Vec<DotslashProvider> = Vec::new();
        providers.push(DotslashProvider::Url { url: artifact.url.clone() });
        if let Some(provider) = DotslashProvider::parse_github_provider(artifact.url.as_str()) {
            providers.push(provider);
        }
        assert(providers@.map_values(|provider: DotslashProvider| provider@) == providers_of(
            artifact.url@,
        ));
        let (hash, digest): (&'static str, String) = match fetched.hash {
            Digest::Blake3(blake3) => ("blake3", to_hex_string(&blake3)),
            Digest::Sha256(sha256) => ("sha256", to_hex_string(&sha256)),
        };
        let format: Option<&'static str> = match &artifact.format {
            Some(format) => Some(format.as_str()),
            None => None,
        };
        Entry {
            format: artifact.format,
            platform,
            dotslash_platform: platform.name(),
            dotslash_url_entry: DotslashUrlEntry {
                size: fetched.size,
                hash,
                digest,
                format,
                path: fetched.path,
                providers,
            },
        }
    }
}

impl Sortable for Entry {
    /// Entries are ordered by the name of their platform.
    open spec fn before(self, other: Entry) -> bool {
        text::precedes(self.dotslash_platform@, other.dotslash_platform@)
    }

    proof fn before_is_asymmetric(a: Entry, b: Entry) {
        text::lemma_precedes_is_asymmetric(a.dotslash_platform@, b.dotslash_platform@);
    }

    proof fn not_after_is_transitive(a: Entry, b: Entry, c: Entry) {
        text::lemma_not_after_is_transitive(
            a.dotslash_platform@,
            b.dotslash_platform@,
            c.dotslash_platform@,
        );
    }

    fn is_before(&self, other: &Entry) -> (r: bool) {
        text::is_before(self.dotslash_platform, other.dotslash_platform)
    }
}

/// Whether `entries` are those of artifacts and what was determined about them.
pub open spec fn are_entries_of(
    entries: Seq<Entry>,
    fetched: Seq<(Platform, &Artifact, FetchedArtifact)>,
) -> bool {
    &&& entries.len() == fetched.len()
    &&& forall|i: int|
        0 <= i < entries.len() ==> (#[trigger] entries[i])@ == entry_of(
            fetched[i].0,
            fetched[i].1.url@,
            fetched[i].1.format,
            fetched[i].2@,
        )
}

/// The entries of artifacts, which come in the order in which their downloads end, sorted by
/// platform.
pub fn collect_entries(fetched: Vec<(Platform, &Artifact, FetchedArtifact)>) -> (result: Vec<Entry>)
    ensures
        exists|entries: Seq<Entry>|
            #[trigger] are_entries_of(entries, fetched@) && result@ == sort::sorted(entries),
{
    let ghost all = fetched@;
    let mut rest: Vec<(Platform, &Artifact, FetchedArtifact)> = fetched;
    let mut entries: Vec<Entry> = Vec::new();
    assert(all.skip(0) == all);
    while rest.len() > 0
        invariant
            entries@.len() <= all.len(),
            rest@ == all.skip(entries@.len() as int),
            are_entries_of(entries@, all.take(entries@.len() as int)),
        decreases rest@.len(),
    {
        let ghost n = entries@.len() as int;
        let ghost before = rest@;
        let (platform, artifact, item) = rest.remove(0);
        assert(before[0] == all[n]);
        assert(before.skip(1) == all.skip(n + 1));
        assert(rest@ == before.skip(1));
        entries.push(Entry::new(platform, artifact, item));
        assert forall|i: int| 0 <= i < entries@.len() implies (#[trigger] entries@[i])@ == entry_of(
            all.take(n + 1)[i].0,
            all.take(n + 1)[i].1.url@,
            all.take(n + 1)[i].1.format,
            all.take(n + 1)[i].2@,
        ) by {
            if i < n {
                assert(all.take(n)[i] == all.take(n + 1)[i]);
            }
        }
    }
    assert(all.take(all.len() as int) == all);
    sort::sort(&mut entries);
    entries
}

// ---------------------------------------------------------------------------------------------
// Files

/// A Dotslash file.
#[derive(Debug)]
pub struct DotslashFile {
    pub name: String,
    /// The platforms in the order of their names, each of them once.
    pub platforms: Vec<(&'static str, DotslashUrlEntry)>,
}

/// What each platform of a file holds.
pub open spec fn platform_views(
    platforms: Seq<(&'static str, DotslashUrlEntry)>,
) -> Seq<(Seq<char>, UrlEntryView)> {
    platforms.map_values(|platform: (&'static str, DotslashUrlEntry)| (platform.0@, platform.1@))
}

/// Whether `platforms` are in the order of their names, each of them once.
pub open spec fn in_order(platforms: Seq<(Seq<char>, UrlEntryView)>) -> bool {
    forall|i: int, j: int|
        0 <= i < j < platforms.len() ==> text::precedes(
            (#[trigger] platforms[i]).0,
            (#[trigger] platforms[j]).0,
        )
}

/// Whether the entry at `i` is the last one for its platform.
pub open spec fn is_last(entries: Seq<EntryView>, i: int) -> bool {
    forall|j: int|
        i < j < entries.len() ==> (#[trigger] entries[j]).dotslash_platform
            != entries[i].dotslash_platform
}

/// Whether `platforms` has the platforms of `entries`, in the order of their names, each of them
/// once and with its last entry.
pub open spec fn lists(
    platforms: Seq<(Seq<char>, UrlEntryView)>,
    entries: Seq<EntryView>,
) -> bool {
    &&& in_order(platforms)
    &&& forall|i: int|
        0 <= i < entries.len() && #[trigger] is_last(entries, i) ==> platforms.contains(
            (entries[i].dotslash_platform, entries[i].dotslash_url_entry),
        )
    &&& forall|k: int|
        0 <= k < platforms.len() ==> exists|i: int|
            0 <= i < entries.len() && #[trigger] is_last(entries, i) && (#[trigger] platforms[k])
                == (entries[i].dotslash_platform, entries[i].dotslash_url_entry)
}

/// How many platforms have a name before `key`, up to the first which does not.
pub open spec fn place_of(platforms: Seq<(Seq<char>, UrlEntryView)>, key: Seq<char>) -> int
    decreases platforms.len(),
{
    if platforms.len() == 0 || !text::precedes(platforms[0].0, key) {
        0
    } else {
        1 + place_of(platforms.skip(1), key)
    }
}

/// `platforms` with the entry of the platform `key`, in place of any other that it had.
pub open spec fn with_entry(
    platforms: Seq<(Seq<char>, UrlEntryView)>,
    key: Seq<char>,
    value: UrlEntryView,
) -> Seq<(Seq<char>, UrlEntryView)> {
    let at = place_of(platforms, key);
    if 0 <= at < platforms.len() && platforms[at].0 == key {
        platforms.update(at, (key, value))
    } else {
        platforms.insert(at, (key, value))
    }
}

/// `place_of` is the only position with only names before `key` before it, and another (or the
/// end) at it.
proof fn lemma_place(platforms: Seq<(Seq<char>, UrlEntryView)>, key: Seq<char>, at: int)
    requires
        0 <= at <= platforms.len(),
        forall|i: int| 0 <= i < at ==> text::precedes((#[trigger] platforms[i]).0, key),
        at < platforms.len() ==> !text::precedes(platforms[at].0, key),
    ensures
        place_of(platforms, key) == at,
    decreases platforms.len(),
{
    if at > 0 {
        assert(text::precedes(platforms[0].0, key));
        assert forall|i: int| 0 <= i < at - 1 implies text::precedes(
            (#[trigger] platforms.skip(1)[i]).0,
            key,
        ) by {
            assert(platforms.skip(1)[i] == platforms[i + 1]);
        }
        lemma_place(platforms.skip(1), key, at - 1);
    }
}

/// Listing one more entry.
proof fn lemma_lists_one_more(
    platforms: Seq<(Seq<char>, UrlEntryView)>,
    entries: Seq<EntryView>,
    entry: EntryView,
    at: int,
)
    requires
        lists(platforms, entries),
        0 <= at <= platforms.len(),
        forall|i: int|
            0 <= i < at ==> text::precedes((#[trigger] platforms[i]).0, entry.dotslash_platform),
        at < platforms.len() ==> !text::precedes(platforms[at].0, entry.dotslash_platform),
    ensures
        lists(
            with_entry(platforms, entry.dotslash_platform, entry.dotslash_url_entry),
            entries.push(entry),
        ),
{
    let key = entry.dotslash_platform;
    let value = entry.dotslash_url_entry;
    lemma_place(platforms, key, at);
    let more = with_entry(platforms, key, value);
    let all = entries.push(entry);
    let found = at < platforms.len() && platforms[at].0 == key;
    assert(more[at] == (key, value));
    // The names after the new one.
    assert forall|k: int| at <= k < platforms.len() && !(found && k == at) implies text::precedes(
        key,
        (#[trigger] platforms[k]).0,
    ) by {
        if k == at {
            text::lemma_precedes_is_total(key, platforms[at].0);
        } else {
            assert(text::precedes(platforms[at].0, platforms[k].0));
            if !text::precedes(key, platforms[k].0) {
                text::lemma_precedes_is_asymmetric(platforms[at].0, platforms[k].0);
                if platforms[k].0 != key {
                    text::lemma_precedes_is_total(key, platforms[k].0);
                    text::lemma_precedes_is_asymmetric(platforms[k].0, key);
                    text::lemma_not_after_is_transitive(key, platforms[at].0, platforms[k].0);
                    text::lemma_not_after_is_transitive(platforms[k].0, key, platforms[at].0);
                } else {
                }
            }
        }
    }
    assert(in_order(more)) by {
        assert forall|i: int, j: int| 0 <= i < j < more.len() implies text::precedes(
            (#[trigger] more[i]).0,
            (#[trigger] more[j]).0,
        ) by {
            let k = if i < at || found {
                i
            } else {
                i - 1
            };
            let l = if j < at || found {
                j
            } else {
                j - 1
            };
            if i != at {
                assert(more[i] == platforms[k]);
            }
            if j != at {
                assert(more[j] == platforms[l]);
            }
        }
    }
    assert forall|i: int| 0 <= i < entries.len() implies #[trigger] is_last(all, i) == (is_last(
        entries,
        i,
    ) && entries[i].dotslash_platform != key) by {
        if is_last(all, i) {
            assert(all[entries.len() as int].dotslash_platform != all[i].dotslash_platform);
            assert forall|j: int| i < j < entries.len() implies (
            #[trigger] entries[j]).dotslash_platform != entries[i].dotslash_platform by {
                assert(all[j] == entries[j]);
            }
        }
        if is_last(entries, i) && entries[i].dotslash_platform != key {
            assert forall|j: int| i < j < all.len() implies (#[trigger] all[j]).dotslash_platform
                != all[i].dotslash_platform by {
                if j < entries.len() {
                    assert(all[j] == entries[j]);
                }
            }
        }
    }
    assert(is_last(all, entries.len() as int));
    assert forall|i: int| 0 <= i < all.len() && #[trigger] is_last(all, i) implies more.contains(
        (all[i].dotslash_platform, all[i].dotslash_url_entry),
    ) by {
        if i < entries.len() {
            let pair = (entries[i].dotslash_platform, entries[i].dotslash_url_entry);
            assert(is_last(entries, i));
            assert(platforms.contains(pair));
            let k = choose|k: int| 0 <= k < platforms.len() && platforms[k] == pair;
            assert(!(found && k == at));
            if k < at || found {
                assert(more[k] == pair);
            } else {
                assert(more[k + 1] == pair);
            }
        } else {
            assert(more[at] == (key, value));
        }
    }
    assert forall|k: int| 0 <= k < more.len() implies exists|i: int|
        0 <= i < all.len() && #[trigger] is_last(all, i) && (#[trigger] more[k]) == (
            all[i].dotslash_platform,
            all[i].dotslash_url_entry,
        ) by {
        if k == at {
            assert(all[entries.len() as int] == entry);
        } else {
            let l = if k < at || found {
                k
            } else {
                k - 1
            };
            assert(more[k] == platforms[l]);
            let i = choose|i: int|
                0 <= i < entries.len() && #[trigger] is_last(entries, i) && platforms[l] == (
                    entries[i].dotslash_platform,
                    entries[i].dotslash_url_entry,
                );
            assert(platforms[l].0 != key) by {
                if l < at {
                    assert(text::precedes(platforms[l].0, key));
                } else {
                    assert(text::precedes(key, platforms[l].0));
                }
                if platforms[l].0 == key {
                    text::lemma_precedes_is_asymmetric(key, key);
                }
            }
            assert(is_last(all, i));
            assert(all[i] == entries[i]);
        }
    }
}

/// Puts the entry of a platform into `platforms`.
fn put(
    platforms: &mut Vec<(&'static str, DotslashUrlEntry)>,
    key: &'static str,
    value: DotslashUrlEntry,
) -> (at: usize)
    requires
        in_order(platform_views(old(platforms)@)),
    ensures
        platform_views(final(platforms)@) == with_entry(
            platform_views(old(platforms)@),
            key@,
            value@,
        ),
        at <= old(platforms)@.len(),
        forall|i: int|
            0 <= i < at ==> text::precedes(
                (#[trigger] platform_views(old(platforms)@)[i]).0,
                key@,
            ),
        at < old(platforms)@.len() ==> !text::precedes(
            platform_views(old(platforms)@)[at as int].0,
            key@,
        ),
{
    let ghost before = platform_views(platforms@);
    let mut at: usize = 0;
    while at < platforms.len() && text::is_before(platforms[at].0, key)
        invariant
            at <= platforms@.len(),
            before == platform_views(platforms@),
            forall|i: int| 0 <= i < at ==> text::precedes((#[trigger] before[i]).0, key@),
        decreases platforms@.len() - at,
    {
        at += 1;
    }
    proof {
        lemma_place(before, key@, at as int);
    }
    let ghost pair = (key@, value@);
    if at < platforms.len() && text::same(platforms[at].0, key) {
        platforms.set(at, (key, value));
        assert(platform_views(platforms@) == before.update(at as int, pair));
    } else {
        platforms.insert(at, (key, value));
        assert(platform_views(platforms@) == before.insert(at as int, pair));
    }
    at
}

impl DotslashFile {
    /// The file of the program `name` with the given entries.
    pub fn new(name: String, entries: Vec<Entry>) -> (file: DotslashFile)
        ensures
            file.name == name,
            lists(platform_views(file.platforms@), views(entries@)),
    {
        let mut entries: Vec<Entry> = entries;
        let ghost all = views(entries@);
        let mut platforms: Vec<(&'static str, DotslashUrlEntry)> = Vec::new();
        let ghost mut done = Seq::<EntryView>::empty();
        while entries.len() > 0
            invariant
                lists(platform_views(platforms@), done),
                done + views(entries@) == all,
            decreases entries@.len(),
        {
            let ghost before = platform_views(platforms@);
            let ghost rest = views(entries@);
            let entry: Entry = entries.remove(0);
            let ghost view = entry@;
            assert(rest[0] == view);
            assert(views(entries@) == rest.skip(1));
            let at: usize = put(&mut platforms, entry.dotslash_platform, entry.dotslash_url_entry);
            proof {
                lemma_lists_one_more(before, done, view, at as int);
                assert(done.push(view) + rest.skip(1) == done + rest);
                done = done.push(view);
            }
        }
        assert(done == all);
        DotslashFile { name, platforms }
    }
}

/// The line with which a Dotslash file starts.
pub const HEADER: &'static str = "#!/usr/bin/env dotslash\n";

/// The bytes of a Dotslash file whose JSON is `json`.
pub fn with_header(json: &[u8]) -> (file: Vec<u8>)
    ensures
        file@ == vstd::utf8::encode_utf8(HEADER@) + json@,
{
    let mut file: Vec<u8> = Vec::new();
    file.extend_from_slice(HEADER.as_bytes());
    file.extend_from_slice(json);
    file
}

// ---------------------------------------------------------------------------------------------
// Laws

/// A release asset is downloaded from the URL that names it.
pub proof fn github_provider_is_its_url(url: Seq<char>)
    requires
        github_provider(url) is Some,
    ensures
        github_provider(url)->0 matches ProviderView::GitHub { repo, tag, name } && url
            == "https://github.com/"@ + repo + "/releases/download/"@ + tag + "/"@ + name,
{
    let path = url.skip("https://github.com/"@.len() as int);
    let segments = text::pieces(path, seq!['/']);
    let sep = seq!['/'];
    let (a, b, c, d) = (segments[0], segments[1], segments[4], segments[5]);
    assert(url == "https://github.com/"@ + path);
    text::pieces_join_up(path, '/');
    assert(segments == seq![a] + (seq![b] + (seq!["releases"@] + (seq!["download"@] + (seq![c]
        + seq![d])))));
    text::lemma_joined_front(c, seq![d], sep);
    text::lemma_joined_front("download"@, seq![c] + seq![d], sep);
    text::lemma_joined_front("releases"@, seq!["download"@] + (seq![c] + seq![d]), sep);
    text::lemma_joined_front(
        b,
        seq!["releases"@] + (seq!["download"@] + (seq![c] + seq![d])),
        sep,
    );
    text::lemma_joined_front(
        a,
        seq![b] + (seq!["releases"@] + (seq!["download"@] + (seq![c] + seq![d]))),
        sep,
    );
    assert("/"@ == sep && "/releases/download/"@ == sep + "releases"@ + sep + "download"@ + sep) by {
        reveal_strlit("/");
        reveal_strlit("releases");
        reveal_strlit("download");
        reveal_strlit("/releases/download/");
    }
    assert(path == a + sep + (b + sep + ("releases"@ + sep + ("download"@ + sep + (c + sep + d)))));
    assert(path == (a + sep + b) + (sep + "releases"@ + sep + "download"@ + sep) + c + sep + d);
}

/// No two platforms have the same name.
pub proof fn platform_names_differ(a: Platform, b: Platform)
    requires
        a != b,
    ensures
        crate::target::platform_name(a) != crate::target::platform_name(b),
{
    reveal_strlit("linux-aarch64");
    reveal_strlit("linux-x86_64");
    reveal_strlit("macos-aarch64");
    reveal_strlit("macos-x86_64");
    reveal_strlit("windows-aarch64");
    reveal_strlit("windows-x86_64");
    reveal_strlit("macos-universal");
    let x = crate::target::platform_name(a);
    let y = crate::target::platform_name(b);
    if x.len() == y.len() {
        assert(x[0] != y[0] || x[6] != y[6] || x[8] != y[8]);
    }
}

/// The order in which downloads for different platforms end does not change the sorted entries.
pub proof fn order_of_downloads_does_not_matter(a: Seq<Entry>, b: Seq<Entry>)
    requires
        a.to_multiset() == b.to_multiset(),
        forall|i: int|
            0 <= i < a.len() ==> (#[trigger] a[i]).dotslash_platform@
                == crate::target::platform_name(a[i].platform),
        forall|i: int, j: int|
            0 <= i < j < a.len() ==> (#[trigger] a[i]).platform != (#[trigger] a[j]).platform,
    ensures
        sort::sorted(a) == sort::sorted(b),
{
    assert forall|i: int, j: int| 0 <= i < j < a.len() implies (#[trigger] a[i]).before(
        #[trigger] a[j],
    ) || a[j].before(a[i]) by {
        platform_names_differ(a[i].platform, a[j].platform);
        text::lemma_precedes_is_total(a[i].dotslash_platform@, a[j].dotslash_platform@);
    }
    sort::order_of_arrival_does_not_matter(a, b);
}

} // verus!
