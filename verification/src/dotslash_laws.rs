//! Laws of [`crate::dotslash`]: what is in a Dotslash file.

use vstd::prelude::*;

use crate::digest;
use crate::digest::{DigestErrorView, DigestView};
use crate::dotslash;
use crate::dotslash::{Entry, EntryView, ProviderView, UrlEntryView};
use crate::fetch::{FetchedArtifact, FetchedView};
use crate::name;
use crate::sort;
use crate::sort::Sortable;
use crate::target;
use crate::target::{ArchiveFormat, Artifact, Platform};
use crate::target_laws;
use crate::text;

verus! {

/// A file can always be downloaded from its URL, which comes first.
pub proof fn files_have_their_url(url: Seq<char>)
    ensures
        dotslash::providers_of(url).len() > 0,
        dotslash::providers_of(url)[0] == (ProviderView::Url { url }),
{
}

/// An asset of a release on `github.com` can be downloaded from its URL, and as that asset.
pub proof fn release_assets_have_two_providers(
    org: Seq<char>,
    repo: Seq<char>,
    tag: Seq<char>,
    file: Seq<char>,
)
    requires
        !org.contains('/') && !repo.contains('/') && !tag.contains('/') && !file.contains('/'),
    ensures
        ({
            let url = "https://github.com/"@ + (org + "/"@ + repo + "/releases/download/"@ + tag
                + "/"@ + file);
            dotslash::providers_of(url) == seq![
                ProviderView::Url { url },
                ProviderView::GitHub { repo: org + "/"@ + repo, tag, name: file },
            ]
        }),
{
    let host = "https://github.com/"@;
    let path = org + "/"@ + repo + "/releases/download/"@ + tag + "/"@ + file;
    let url = host + path;
    let sep = seq!['/'];
    assert("/"@ == sep && "/releases/download/"@ == sep + "releases"@ + sep + "download"@ + sep
        && !"releases"@.contains('/') && !"download"@.contains('/')) by {
        reveal_strlit("/");
        reveal_strlit("releases");
        reveal_strlit("download");
        reveal_strlit("/releases/download/");
    }
    let p5 = tag + sep + file;
    let p4 = "download"@ + sep + p5;
    let p3 = "releases"@ + sep + p4;
    let p2 = repo + sep + p3;
    assert(path == org + sep + p2);
    text::lemma_only_piece(file, '/');
    text::lemma_first_piece(tag, '/', file);
    text::lemma_first_piece("download"@, '/', p5);
    text::lemma_first_piece("releases"@, '/', p4);
    text::lemma_first_piece(repo, '/', p3);
    text::lemma_first_piece(org, '/', p2);
    let segments = text::pieces(path, sep);
    assert(segments == seq![org, repo, "releases"@, "download"@, tag, file]);
    assert(url.subrange(0, host.len() as int) == host);
    assert(url.skip(host.len() as int) == path);
    assert(dotslash::github_provider(url) == Some(
        ProviderView::GitHub { repo: org + "/"@ + repo, tag, name: file },
    ));
}

/// Any other file can only be downloaded from its URL: one of another host, and one of `github.com`
/// whose path is not that of an asset.
pub proof fn other_files_have_one_provider(url: Seq<char>)
    requires
        forall|repo: Seq<char>, tag: Seq<char>, file: Seq<char>|
            url != #[trigger] asset_url(repo, tag, file),
    ensures
        dotslash::providers_of(url) == seq![ProviderView::Url { url }],
{
    if dotslash::github_provider(url) is Some {
        dotslash::github_provider_is_its_url(url);
        match dotslash::github_provider(url)->0 {
            ProviderView::GitHub { repo, tag, name } => {
                assert(url == asset_url(repo, tag, name));
            },
            ProviderView::Url { .. } => {},
        }
    }
}

/// Where an asset of a release on `github.com` is.
pub open spec fn asset_url(repo: Seq<char>, tag: Seq<char>, file: Seq<char>) -> Seq<char> {
    "https://github.com/"@ + repo + "/releases/download/"@ + tag + "/"@ + file
}

/// The entry of a file says what was determined about it. Its digest is read back as the digest of
/// the file, its format as the format of a file with that extension, and it has none if the file
/// has none; its platform is named as such.
pub proof fn entry_describes_its_file(
    platform: Platform,
    url: Seq<char>,
    format: Option<ArchiveFormat>,
    fetched: FetchedView,
    stem: Seq<char>,
)
    requires
        match fetched.hash {
            DigestView::Sha256(bytes) => bytes.len() == 32,
            DigestView::Blake3(bytes) => bytes.len() == 32,
        },
        !".tar"@.is_suffix_of(stem),
    ensures
        ({
            let entry = dotslash::entry_of(platform, url, format, fetched);
            let file = entry.dotslash_url_entry;
            &&& file.size == fetched.size
            &&& file.path == fetched.path
            &&& digest::read_digest(file.digest, file.hash) == Ok::<DigestView, DigestErrorView>(
                fetched.hash,
            )
            &&& match file.format {
                Some(written) => format is Some && name::format_of(stem + ("."@ + written))
                    == format,
                None => format is None,
            }
            &&& file.providers[0] == (ProviderView::Url { url })
            &&& entry.dotslash_platform == target::platform_name(platform)
            &&& entry.platform == platform
            &&& entry.format == format
        }),
{
    match fetched.hash {
        DigestView::Sha256(bytes) => {
            digest::written_hash_is_read(bytes);
        },
        DigestView::Blake3(bytes) => {
            digest::written_hash_is_read(bytes);
        },
    }
    if format is Some {
        target_laws::format_name_is_its_extension(format->0, stem);
    }
}

/// Some entry is the last one for the platform of each.
proof fn lemma_last(entries: Seq<EntryView>, i: int) -> (last: int)
    requires
        0 <= i < entries.len(),
    ensures
        i <= last < entries.len(),
        dotslash::is_last(entries, last),
        entries[last].dotslash_platform == entries[i].dotslash_platform,
    decreases entries.len() - i,
{
    if dotslash::is_last(entries, i) {
        i
    } else {
        let j = choose|j: int|
            i < j < entries.len() && (#[trigger] entries[j]).dotslash_platform
                == entries[i].dotslash_platform;
        lemma_last(entries, j)
    }
}

/// A Dotslash file has the platform of every entry; and that very entry, if no other one is for the
/// same platform.
pub proof fn file_has_every_entry(
    platforms: Seq<(Seq<char>, UrlEntryView)>,
    entries: Seq<EntryView>,
    i: int,
)
    requires
        dotslash::lists(platforms, entries),
        0 <= i < entries.len(),
    ensures
        exists|k: int|
            0 <= k < platforms.len() && (#[trigger] platforms[k]).0 == entries[i].dotslash_platform,
        (forall|j: int|
            0 <= j < entries.len() && j != i ==> (#[trigger] entries[j]).dotslash_platform
                != entries[i].dotslash_platform) ==> platforms.contains(
            (entries[i].dotslash_platform, entries[i].dotslash_url_entry),
        ),
{
    let last = lemma_last(entries, i);
    let pair = (entries[last].dotslash_platform, entries[last].dotslash_url_entry);
    assert(platforms.contains(pair));
    let k = choose|k: int| 0 <= k < platforms.len() && platforms[k] == pair;
    assert(platforms[k].0 == entries[i].dotslash_platform);
}

/// A Dotslash file has nothing but entries: each of its platforms is that of one.
pub proof fn file_has_only_entries(
    platforms: Seq<(Seq<char>, UrlEntryView)>,
    entries: Seq<EntryView>,
    k: int,
)
    requires
        dotslash::lists(platforms, entries),
        0 <= k < platforms.len(),
    ensures
        exists|i: int|
            0 <= i < entries.len() && platforms[k] == (
                (#[trigger] entries[i]).dotslash_platform,
                entries[i].dotslash_url_entry,
            ),
{
    let item = platforms[k];
    let i = choose|i: int|
        0 <= i < entries.len() && #[trigger] dotslash::is_last(entries, i) && item == (
            entries[i].dotslash_platform,
            entries[i].dotslash_url_entry,
        );
    assert(entries[i].dotslash_platform == item.0);
}

/// The platforms of a Dotslash file are in the order of their names, and none is there twice.
pub proof fn file_is_in_order(
    platforms: Seq<(Seq<char>, UrlEntryView)>,
    entries: Seq<EntryView>,
    k: int,
    l: int,
)
    requires
        dotslash::lists(platforms, entries),
        0 <= k < l < platforms.len(),
    ensures
        text::precedes(platforms[k].0, platforms[l].0),
        platforms[k].0 != platforms[l].0,
{
    assert(text::precedes(platforms[k].0, platforms[l].0));
    text::lemma_precedes_is_asymmetric(platforms[k].0, platforms[l].0);
}

/// Every file that was downloaded has an entry, whatever the order in which the downloads end: that
/// of its artifact, for its platform.
pub proof fn every_download_has_an_entry(
    entries: Seq<Entry>,
    fetched: Seq<(Platform, &Artifact, FetchedArtifact)>,
    i: int,
)
    requires
        dotslash::are_entries_of(entries, fetched),
        0 <= i < fetched.len(),
    ensures
        entries.len() == fetched.len(),
        sort::sorted(entries).len() == entries.len(),
        exists|k: int|
            0 <= k < sort::sorted(entries).len() && {
                let entry = (#[trigger] sort::sorted(entries)[k])@;
                &&& entry.platform == fetched[i].0
                &&& entry.format == fetched[i].1.format
                &&& entry.dotslash_url_entry.providers[0] == (ProviderView::Url {
                    url: fetched[i].1.url@,
                })
                &&& entry.dotslash_url_entry.size == fetched[i].2.size
                &&& entry.dotslash_url_entry.path == fetched[i].2.path@
            },
{
    let sorted = sort::sorted(entries);
    sort::sorted_keeps_the_items(entries);
    entries.to_multiset_ensures();
    sorted.to_multiset_ensures();
    assert(entries.contains(entries[i]));
    assert(sorted.to_multiset().count(entries[i]) > 0);
    let k = choose|k: int| 0 <= k < sorted.len() && sorted[k] == entries[i];
    assert(sorted[k]@ == dotslash::entry_of(
        fetched[i].0,
        fetched[i].1.url@,
        fetched[i].1.format,
        fetched[i].2@,
    ));
}

/// Entries are in the order of the names of their platforms.
pub proof fn entries_are_in_order(entries: Seq<Entry>, i: int, j: int)
    requires
        0 <= i < j < sort::sorted(entries).len(),
    ensures
        !text::precedes(
            sort::sorted(entries)[j].dotslash_platform@,
            sort::sorted(entries)[i].dotslash_platform@,
        ),
{
    sort::sorted_is_sorted(entries);
    assert(!sort::sorted(entries)[j].before(sort::sorted(entries)[i]));
}

} // verus!
