//! Laws of [`crate::github`] and [`crate::target`] together: what is downloaded of a release.

use vstd::prelude::*;

use crate::digest;
use crate::digest::{DigestErrorView, DigestView};
use crate::github;
use crate::github::{AssetView, DigestSource, ResolvedView};
use crate::name;
use crate::target;
use crate::target::{Architecture, Artifact, ArtifactView, Libc, Os, Platform, Target};
use crate::text;

verus! {

/// Whether `artifact` is that of the asset at `index`. If its digest is in another file, it may have
/// any digest, or none.
pub open spec fn is_artifact_of(
    artifact: ArtifactView,
    assets: Seq<AssetView>,
    index: int,
    path: Option<Seq<char>>,
) -> bool {
    artifact == github::artifact_of(
        crate::name::read_name(assets[index].name)->Ok_0,
        assets[index],
        match github::digest_source(assets, index) {
            github::DigestSource::Known(digest) => Some(digest),
            github::DigestSource::Fetch(_) => artifact.digest,
            github::DigestSource::Unknown => None,
        },
        path,
    )
}

/// Whether two artifacts are the same, up to their digests.
pub open spec fn same_but_digest(a: ArtifactView, b: ArtifactView) -> bool {
    a == (ArtifactView { digest: a.digest, ..b })
}

/// Whether `list` has, in any order, the artifacts which need nothing more and those whose digests
/// were to be fetched, with or without them.
pub open spec fn completes(list: Seq<Artifact>, found: ResolvedView) -> bool {
    &&& forall|i: int|
        0 <= i < list.len() ==> found.ready.contains((#[trigger] list[i])@) || exists|j: int|
            0 <= j < found.pending.len() && same_but_digest(list[i]@, (#[trigger] found.pending[j]).0)
    &&& forall|j: int|
        0 <= j < found.ready.len() ==> exists|i: int|
            0 <= i < list.len() && (#[trigger] list[i])@ == #[trigger] found.ready[j]
    &&& forall|j: int|
        0 <= j < found.pending.len() ==> exists|i: int|
            0 <= i < list.len() && same_but_digest(
                (#[trigger] list[i])@,
                (#[trigger] found.pending[j]).0,
            )
}

/// Whether an asset is chosen for the `k`-th platform, and `artifact` is that asset's.
spec fn comes_from(
    artifact: ArtifactView,
    assets: Seq<AssetView>,
    requested: Seq<Platform>,
    prefer_gnu: bool,
    path: Option<Seq<char>>,
    k: int,
) -> bool {
    github::chosen(assets, requested, prefer_gnu, target::all_platforms()[k]) matches Some(index)
        && is_artifact_of(artifact, assets, index, path)
}

/// Whether an asset whose digest is in another file is chosen for the `k`-th platform.
spec fn is_fetched(
    assets: Seq<AssetView>,
    requested: Seq<Platform>,
    prefer_gnu: bool,
    k: int,
) -> bool {
    github::chosen(assets, requested, prefer_gnu, target::all_platforms()[k]) matches Some(index)
        && github::digest_source(assets, index) is Fetch
}

/// What adding an asset adds.
proof fn lemma_with_asset(
    found: ResolvedView,
    assets: Seq<AssetView>,
    index: int,
    path: Option<Seq<char>>,
)
    ensures
        ({
            let after = github::with_asset(found, assets, index, path);
            if github::digest_source(assets, index) is Fetch {
                &&& after.ready == found.ready
                &&& after.pending.len() == found.pending.len() + 1
                &&& after.pending.drop_last() == found.pending
                &&& is_artifact_of(after.pending.last().0, assets, index, path)
            } else {
                &&& after.pending == found.pending
                &&& after.ready.len() == found.ready.len() + 1
                &&& after.ready.drop_last() == found.ready
                &&& is_artifact_of(after.ready.last(), assets, index, path)
            }
        }),
{
}

/// An artifact which needs nothing more comes from an asset that is chosen.
proof fn lemma_ready(
    assets: Seq<AssetView>,
    requested: Seq<Platform>,
    prefer_gnu: bool,
    path: Option<Seq<char>>,
    count: int,
    j: int,
) -> (k: int)
    requires
        0 <= count <= 7,
        0 <= j < github::resolved(assets, requested, prefer_gnu, path, count).ready.len(),
    ensures
        0 <= k < count,
        comes_from(
            github::resolved(assets, requested, prefer_gnu, path, count).ready[j],
            assets,
            requested,
            prefer_gnu,
            path,
            k,
        ),
    decreases count,
{
    let last = count - 1;
    let before = github::resolved(assets, requested, prefer_gnu, path, last);
    let after = github::resolved(assets, requested, prefer_gnu, path, count);
    let index = github::chosen(assets, requested, prefer_gnu, target::all_platforms()[last]);
    if index is Some {
        lemma_with_asset(before, assets, index->0, path);
    }
    if j < before.ready.len() {
        if after.ready.len() > before.ready.len() {
            assert(after.ready.drop_last()[j] == after.ready[j]);
        }
        assert(after.ready[j] == before.ready[j]);
        lemma_ready(assets, requested, prefer_gnu, path, last, j)
    } else {
        assert(after.ready[j] == after.ready.last());
        last
    }
}

/// An artifact whose digest is to be fetched comes from an asset that is chosen.
proof fn lemma_pending(
    assets: Seq<AssetView>,
    requested: Seq<Platform>,
    prefer_gnu: bool,
    path: Option<Seq<char>>,
    count: int,
    j: int,
) -> (k: int)
    requires
        0 <= count <= 7,
        0 <= j < github::resolved(assets, requested, prefer_gnu, path, count).pending.len(),
    ensures
        0 <= k < count,
        is_fetched(assets, requested, prefer_gnu, k),
        comes_from(
            github::resolved(assets, requested, prefer_gnu, path, count).pending[j].0,
            assets,
            requested,
            prefer_gnu,
            path,
            k,
        ),
    decreases count,
{
    let last = count - 1;
    let before = github::resolved(assets, requested, prefer_gnu, path, last);
    let after = github::resolved(assets, requested, prefer_gnu, path, count);
    let index = github::chosen(assets, requested, prefer_gnu, target::all_platforms()[last]);
    if index is Some {
        lemma_with_asset(before, assets, index->0, path);
    }
    if j < before.pending.len() {
        if after.pending.len() > before.pending.len() {
            assert(after.pending.drop_last()[j] == after.pending[j]);
        }
        assert(after.pending[j] == before.pending[j]);
        lemma_pending(assets, requested, prefer_gnu, path, last, j)
    } else {
        assert(after.pending[j] == after.pending.last());
        last
    }
}

/// The asset chosen for a platform is among those to use.
proof fn lemma_lists(
    assets: Seq<AssetView>,
    requested: Seq<Platform>,
    prefer_gnu: bool,
    path: Option<Seq<char>>,
    count: int,
    k: int,
)
    requires
        0 <= k < count <= 7,
        github::chosen(assets, requested, prefer_gnu, target::all_platforms()[k]) is Some,
    ensures
        lists(
            github::resolved(assets, requested, prefer_gnu, path, count),
            assets,
            requested,
            prefer_gnu,
            path,
            k,
        ),
    decreases count,
{
    let last = count - 1;
    let before = github::resolved(assets, requested, prefer_gnu, path, last);
    let after = github::resolved(assets, requested, prefer_gnu, path, count);
    let index = github::chosen(assets, requested, prefer_gnu, target::all_platforms()[last]);
    if index is Some {
        lemma_with_asset(before, assets, index->0, path);
    }
    if k < last {
        lemma_lists(assets, requested, prefer_gnu, path, last, k);
        if after.ready.len() > before.ready.len() {
            assert(before.ready == after.ready.take(before.ready.len() as int));
        }
        if after.pending.len() > before.pending.len() {
            assert(before.pending == after.pending.take(before.pending.len() as int));
        }
        lemma_still_lists(before, after, assets, requested, prefer_gnu, path, k);
    } else if github::digest_source(assets, index->0) is Fetch {
        let j = before.pending.len() as int;
        assert(after.pending[j] == after.pending.last());
        assert(comes_from(after.pending[j].0, assets, requested, prefer_gnu, path, k));
    } else {
        let j = before.ready.len() as int;
        assert(after.ready[j] == after.ready.last());
        assert(comes_from(after.ready[j], assets, requested, prefer_gnu, path, k));
    }
}

/// Whether `found` has the artifact of the asset chosen for the `k`-th platform.
spec fn lists(
    found: ResolvedView,
    assets: Seq<AssetView>,
    requested: Seq<Platform>,
    prefer_gnu: bool,
    path: Option<Seq<char>>,
    k: int,
) -> bool {
    ||| exists|j: int|
        0 <= j < found.ready.len() && comes_from(
            #[trigger] found.ready[j],
            assets,
            requested,
            prefer_gnu,
            path,
            k,
        )
    ||| exists|j: int|
        0 <= j < found.pending.len() && is_fetched(assets, requested, prefer_gnu, k) && comes_from(
            (#[trigger] found.pending[j]).0,
            assets,
            requested,
            prefer_gnu,
            path,
            k,
        )
}

proof fn lemma_still_lists(
    before: ResolvedView,
    found: ResolvedView,
    assets: Seq<AssetView>,
    requested: Seq<Platform>,
    prefer_gnu: bool,
    path: Option<Seq<char>>,
    k: int,
)
    requires
        lists(before, assets, requested, prefer_gnu, path, k),
        before.ready.is_prefix_of(found.ready),
        before.pending.is_prefix_of(found.pending),
    ensures
        lists(found, assets, requested, prefer_gnu, path, k),
{
    if exists|j: int|
        0 <= j < before.ready.len() && comes_from(
            #[trigger] before.ready[j],
            assets,
            requested,
            prefer_gnu,
            path,
            k,
        ) {
        let j = choose|j: int|
            0 <= j < before.ready.len() && comes_from(
                #[trigger] before.ready[j],
                assets,
                requested,
                prefer_gnu,
                path,
                k,
            );
        assert(found.ready[j] == before.ready[j]);
    } else {
        let j = choose|j: int|
            0 <= j < before.pending.len() && is_fetched(assets, requested, prefer_gnu, k)
                && comes_from(
                (#[trigger] before.pending[j]).0,
                assets,
                requested,
                prefer_gnu,
                path,
                k,
            );
        assert(found.pending[j] == before.pending[j]);
    }
}

/// The slot of a platform is filled exactly if an asset is chosen for it, and holds that asset. An
/// asset chosen for universal macOS fills the slots of both macOS platforms, each of which then
/// holds that one or its own.
pub proof fn slots_hold_the_chosen_assets(
    list: Seq<Artifact>,
    assets: Seq<AssetView>,
    requested: Seq<Platform>,
    prefer_gnu: bool,
    path: Option<Seq<char>>,
    os: Os,
    arch: Architecture,
)
    requires
        completes(list, github::resolved(assets, requested, prefer_gnu, path, 7)),
    ensures
        ({
            let own = github::chosen(assets, requested, prefer_gnu, Platform::Known { arch, os });
            let universal = github::chosen(assets, requested, prefer_gnu, Platform::MacosUniversal);
            match target::collected(list).slot(os, arch) {
                Some(artifact) => {
                    ||| own is Some && is_artifact_of(artifact@, assets, own->0, path)
                    ||| os is Macos && universal is Some && is_artifact_of(
                        ArtifactView { platform: Platform::MacosUniversal, ..artifact@ },
                        assets,
                        universal->0,
                        path,
                    )
                },
                None => own is None && (os is Macos ==> universal is None),
            }
        }),
{
    let all = target::all_platforms();
    let known = Platform::Known { arch, os };
    target::slot_holds_the_last(list, os, arch);
    match target::collected(list).slot(os, arch) {
        Some(artifact) => {
            let i = choose|i: int|
                #![trigger list[i]]
                0 <= i < list.len() && target::is_for(list[i], os, arch) && artifact == (
                Artifact { platform: known, ..list[i] });
            let k = lemma_origin(list, assets, requested, prefer_gnu, path, i);
            github::chosen_is_a_candidate(assets, requested, prefer_gnu, all[k]);
            assert(list[i].platform == all[k]);
        },
        None => {
            if github::chosen(assets, requested, prefer_gnu, known) is Some {
                lemma_filled(list, assets, requested, prefer_gnu, path, known);
                let i = choose|i: int|
                    0 <= i < list.len() && (#[trigger] list[i]).platform == known;
                assert(target::is_for(list[i], os, arch));
            }
            if os is Macos && github::chosen(assets, requested, prefer_gnu, Platform::MacosUniversal) is Some {
                lemma_filled(list, assets, requested, prefer_gnu, path, Platform::MacosUniversal);
                let i = choose|i: int|
                    0 <= i < list.len() && (#[trigger] list[i]).platform is MacosUniversal;
                assert(target::is_for(list[i], os, arch));
            }
        },
    }
}

/// Every artifact of a complete list comes from an asset that is chosen.
proof fn lemma_origin(
    list: Seq<Artifact>,
    assets: Seq<AssetView>,
    requested: Seq<Platform>,
    prefer_gnu: bool,
    path: Option<Seq<char>>,
    i: int,
) -> (k: int)
    requires
        completes(list, github::resolved(assets, requested, prefer_gnu, path, 7)),
        0 <= i < list.len(),
    ensures
        0 <= k < 7,
        comes_from(list[i]@, assets, requested, prefer_gnu, path, k),
{
    let found = github::resolved(assets, requested, prefer_gnu, path, 7);
    if found.ready.contains(list[i]@) {
        let j = choose|j: int| 0 <= j < found.ready.len() && found.ready[j] == list[i]@;
        lemma_ready(assets, requested, prefer_gnu, path, 7, j)
    } else {
        let j = choose|j: int|
            0 <= j < found.pending.len() && same_but_digest(
                list[i]@,
                (#[trigger] found.pending[j]).0,
            );
        lemma_pending(assets, requested, prefer_gnu, path, 7, j)
    }
}

/// If an asset is chosen for a platform, a complete list has an artifact for that platform.
proof fn lemma_filled(
    list: Seq<Artifact>,
    assets: Seq<AssetView>,
    requested: Seq<Platform>,
    prefer_gnu: bool,
    path: Option<Seq<char>>,
    platform: Platform,
)
    requires
        completes(list, github::resolved(assets, requested, prefer_gnu, path, 7)),
        github::chosen(assets, requested, prefer_gnu, platform) is Some,
    ensures
        exists|i: int| 0 <= i < list.len() && (#[trigger] list[i]).platform == platform,
{
    let all = target::all_platforms();
    let found = github::resolved(assets, requested, prefer_gnu, path, 7);
    target::all_platforms_are_all(platform);
    let k = choose|k: int| 0 <= k < all.len() && all[k] == platform;
    github::chosen_is_a_candidate(assets, requested, prefer_gnu, all[k]);
    lemma_lists(assets, requested, prefer_gnu, path, 7, k);
    if exists|j: int|
        0 <= j < found.ready.len() && comes_from(
            #[trigger] found.ready[j],
            assets,
            requested,
            prefer_gnu,
            path,
            k,
        ) {
        let j = choose|j: int|
            0 <= j < found.ready.len() && comes_from(
                #[trigger] found.ready[j],
                assets,
                requested,
                prefer_gnu,
                path,
                k,
            );
        let i = choose|i: int| 0 <= i < list.len() && (#[trigger] list[i])@ == found.ready[j];
        assert(list[i]@.platform == platform);
    } else {
        let j = choose|j: int|
            0 <= j < found.pending.len() && is_fetched(assets, requested, prefer_gnu, k)
                && comes_from(
                (#[trigger] found.pending[j]).0,
                assets,
                requested,
                prefer_gnu,
                path,
                k,
            );
        let i = choose|i: int|
            0 <= i < list.len() && same_but_digest((#[trigger] list[i])@, found.pending[j].0);
        assert(list[i]@.platform == platform);
    }
}

// ---------------------------------------------------------------------------------------------
// Which assets are chosen

/// Whether an asset is a program for a platform, by its name: it is not the digest of another, and
/// its name says that platform.
pub open spec fn is_asset_for(asset: AssetView, platform: Platform) -> bool {
    &&& !".sha256"@.is_suffix_of(asset.name)
    &&& name::read_name(asset.name) matches Ok(name)
    &&& name.platform == platform
}

/// Whether the name of an asset says a C library.
pub open spec fn is_for_libc(asset: AssetView, libc: Libc) -> bool {
    name::read_name(asset.name) matches Ok(name) && name.libc == Some(libc)
}

/// A requested platform for which the release has an asset is downloaded, and so is every platform
/// for which it has one if none was requested. What is downloaded is an asset for that platform.
pub proof fn requested_platforms_are_downloaded(
    assets: Seq<AssetView>,
    requested: Seq<Platform>,
    prefer_gnu: bool,
    platform: Platform,
    index: int,
)
    requires
        0 <= index < assets.len(),
        is_asset_for(assets[index], platform),
        requested.len() == 0 || requested.contains(platform),
    ensures
        github::chosen(assets, requested, prefer_gnu, platform) matches Some(found) && 0 <= found
            < assets.len() && is_asset_for(assets[found], platform),
{
    github::chosen_is_a_candidate(assets, requested, prefer_gnu, platform);
    assert(github::is_candidate(assets[index], requested, platform));
}

/// Nothing is downloaded for a platform for which the release has no asset, or which was not
/// requested although others were.
pub proof fn nothing_else_is_downloaded(
    assets: Seq<AssetView>,
    requested: Seq<Platform>,
    prefer_gnu: bool,
    platform: Platform,
)
    requires
        (forall|i: int| 0 <= i < assets.len() ==> !is_asset_for(#[trigger] assets[i], platform))
            || (requested.len() > 0 && !requested.contains(platform)),
    ensures
        github::chosen(assets, requested, prefer_gnu, platform) is None,
{
    github::chosen_is_a_candidate(assets, requested, prefer_gnu, platform);
    if github::chosen(assets, requested, prefer_gnu, platform) is Some {
        let found = github::chosen(assets, requested, prefer_gnu, platform)->0;
        assert(is_asset_for(assets[found], platform));
    }
}

/// If some asset for a platform is for the C library that is preferred, `gnu` or else `musl`, such
/// an asset is downloaded.
pub proof fn preferred_library_is_downloaded(
    assets: Seq<AssetView>,
    requested: Seq<Platform>,
    prefer_gnu: bool,
    platform: Platform,
    index: int,
)
    requires
        0 <= index < assets.len(),
        is_asset_for(assets[index], platform),
        is_for_libc(
            assets[index],
            if prefer_gnu {
                Libc::Gnu
            } else {
                Libc::Musl
            },
        ),
        requested.len() == 0 || requested.contains(platform),
    ensures
        github::chosen(assets, requested, prefer_gnu, platform) matches Some(found) && 0 <= found
            < assets.len() && is_asset_for(assets[found], platform) && is_for_libc(
            assets[found],
            if prefer_gnu {
                Libc::Gnu
            } else {
                Libc::Musl
            },
        ),
{
    requested_platforms_are_downloaded(assets, requested, prefer_gnu, platform, index);
    github::preferred_libc_is_chosen(assets, requested, prefer_gnu, platform, index);
}

/// If no asset for a platform is for the C library that is preferred, the first one for that
/// platform is downloaded.
pub proof fn first_asset_is_downloaded(
    assets: Seq<AssetView>,
    requested: Seq<Platform>,
    prefer_gnu: bool,
    platform: Platform,
    index: int,
)
    requires
        0 <= index < assets.len(),
        is_asset_for(assets[index], platform),
        forall|i: int| 0 <= i < index ==> !is_asset_for(#[trigger] assets[i], platform),
        forall|i: int|
            0 <= i < assets.len() && is_asset_for(#[trigger] assets[i], platform) ==> !is_for_libc(
                assets[i],
                if prefer_gnu {
                    Libc::Gnu
                } else {
                    Libc::Musl
                },
            ),
        requested.len() == 0 || requested.contains(platform),
    ensures
        github::chosen(assets, requested, prefer_gnu, platform) == Some(index),
{
    assert forall|i: int| 0 <= i < index implies !github::is_candidate(
        #[trigger] assets[i],
        requested,
        platform,
    ) by {
        assert(!is_asset_for(assets[i], platform));
    }
    assert forall|i: int|
        0 <= i < assets.len() && github::is_candidate(
            #[trigger] assets[i],
            requested,
            platform,
        ) implies !github::is_preferred(assets[i], prefer_gnu) by {
        assert(is_asset_for(assets[i], platform));
    }
    github::first_candidate_is_chosen(assets, requested, prefer_gnu, platform, index);
}

// ---------------------------------------------------------------------------------------------
// What is known about the chosen assets

/// The digest that the release gives for an asset is the digest of the artifact.
pub proof fn digest_of_the_release_is_used(assets: Seq<AssetView>, index: int, bytes: Seq<u8>)
    requires
        bytes.len() == 32,
    ensures
        assets[index].digest == Some("sha256:"@ + text::hex(bytes)) ==> github::digest_source(
            assets,
            index,
        ) == DigestSource::Known(DigestView::Sha256(bytes)),
        assets[index].digest == Some("blake3:"@ + text::hex(bytes)) ==> github::digest_source(
            assets,
            index,
        ) == DigestSource::Known(DigestView::Blake3(bytes)),
{
    digest::written_hash_is_read(bytes);
    digest::algorithm_may_be_a_prefix(text::hex(bytes));
}

/// If the release gives no digest for an asset, or none that can be read, it is fetched from the asset
/// after it, if that has the same name followed by `.sha256`; otherwise there is none.
pub proof fn digest_is_fetched_from_the_next_asset(assets: Seq<AssetView>, index: int)
    requires
        0 <= index < assets.len(),
        assets[index].digest matches Some(text) ==> digest::read_digest(text, ""@) is Err,
    ensures
        index + 1 < assets.len() && assets[index + 1].name == assets[index].name + ".sha256"@
            ==> github::digest_source(assets, index) == DigestSource::Fetch(
            assets[index + 1].browser_download_url,
        ),
        index + 1 == assets.len() || assets[index + 1].name != assets[index].name + ".sha256"@
            ==> github::digest_source(assets, index) is Unknown,
{
}

/// What the slot of a platform says is what its asset, and the name of that asset, say: where it is,
/// how large it is, its name and its format. The path is the requested one.
pub proof fn slot_describes_its_asset(
    list: Seq<Artifact>,
    assets: Seq<AssetView>,
    requested: Seq<Platform>,
    prefer_gnu: bool,
    path: Option<Seq<char>>,
    os: Os,
    arch: Architecture,
    found: int,
)
    requires
        completes(list, github::resolved(assets, requested, prefer_gnu, path, 7)),
        github::chosen(assets, requested, prefer_gnu, Platform::Known { arch, os }) == Some(found),
        os is Macos ==> github::chosen(assets, requested, prefer_gnu, Platform::MacosUniversal) is None,
    ensures
        target::collected(list).slot(os, arch) matches Some(artifact) && {
            &&& artifact@.url == assets[found].browser_download_url
            &&& artifact@.size == Some(assets[found].size)
            &&& artifact@.path == path
            &&& artifact@.platform == (Platform::Known { arch, os })
            &&& name::read_name(assets[found].name) matches Ok(name) && artifact@.name == name.name
                && artifact@.format == name.format
            &&& match github::digest_source(assets, found) {
                DigestSource::Known(digest) => artifact@.digest == Some(digest),
                DigestSource::Fetch(_) => true,
                DigestSource::Unknown => artifact@.digest is None,
            }
        },
{
    slots_hold_the_chosen_assets(list, assets, requested, prefer_gnu, path, os, arch);
    github::chosen_is_a_candidate(
        assets,
        requested,
        prefer_gnu,
        Platform::Known { arch, os },
    );
}

/// An artifact whose digest is to be fetched comes with the URL of the asset that has it: the one
/// after it, which has the same name followed by `.sha256`.
pub proof fn pending_digests_are_those_of_the_next_asset(
    assets: Seq<AssetView>,
    requested: Seq<Platform>,
    prefer_gnu: bool,
    path: Option<Seq<char>>,
    j: int,
)
    requires
        0 <= j < github::resolved(assets, requested, prefer_gnu, path, 7).pending.len(),
    ensures
        exists|i: int|
            #![trigger assets[i]]
            0 <= i && i + 1 < assets.len() && {
                let (artifact, url) = github::resolved(
                    assets,
                    requested,
                    prefer_gnu,
                    path,
                    7,
                ).pending[j];
                &&& artifact.url == assets[i].browser_download_url
                &&& url == assets[i + 1].browser_download_url
                &&& assets[i + 1].name == assets[i].name + ".sha256"@
            },
{
    lemma_pending_url(assets, requested, prefer_gnu, path, 7, j);
}

proof fn lemma_pending_url(
    assets: Seq<AssetView>,
    requested: Seq<Platform>,
    prefer_gnu: bool,
    path: Option<Seq<char>>,
    count: int,
    j: int,
)
    requires
        0 <= count <= 7,
        0 <= j < github::resolved(assets, requested, prefer_gnu, path, count).pending.len(),
    ensures
        exists|i: int|
            #![trigger assets[i]]
            0 <= i && i + 1 < assets.len() && {
                let (artifact, url) = github::resolved(
                    assets,
                    requested,
                    prefer_gnu,
                    path,
                    count,
                ).pending[j];
                &&& artifact.url == assets[i].browser_download_url
                &&& url == assets[i + 1].browser_download_url
                &&& assets[i + 1].name == assets[i].name + ".sha256"@
            },
    decreases count,
{
    let last = count - 1;
    let before = github::resolved(assets, requested, prefer_gnu, path, last);
    let after = github::resolved(assets, requested, prefer_gnu, path, count);
    let platform = target::all_platforms()[last];
    let index = github::chosen(assets, requested, prefer_gnu, platform);
    if index is Some {
        lemma_with_asset(before, assets, index->0, path);
        github::chosen_is_a_candidate(assets, requested, prefer_gnu, platform);
    }
    if j < before.pending.len() {
        if after.pending.len() > before.pending.len() {
            assert(after.pending.drop_last()[j] == after.pending[j]);
        }
        assert(after.pending[j] == before.pending[j]);
        lemma_pending_url(assets, requested, prefer_gnu, path, last, j);
    } else {
        let i = index->0;
        assert(after.pending[j] == after.pending.last());
        assert(after.pending[j].0.url == assets[i].browser_download_url);
        assert(after.pending[j].1 == assets[i + 1].browser_download_url);
    }
}

/// Why a digest of the release was not used is reported, if it is that of an asset which is
/// downloaded.
pub proof fn broken_digests_are_reported(
    assets: Seq<AssetView>,
    requested: Seq<Platform>,
    prefer_gnu: bool,
    path: Option<Seq<char>>,
    platform: Platform,
    found: int,
    error: DigestErrorView,
)
    requires
        github::chosen(assets, requested, prefer_gnu, platform) == Some(found),
        assets[found].digest matches Some(text) && digest::read_digest(text, ""@) == Err::<
            DigestView,
            DigestErrorView,
        >(error),
    ensures
        github::resolved(assets, requested, prefer_gnu, path, 7).errors.contains(error),
{
    target::all_platforms_are_all(platform);
    let all = target::all_platforms();
    let k = choose|k: int| 0 <= k < all.len() && all[k] == platform;
    lemma_reported(assets, requested, prefer_gnu, path, 7, k, error);
}

proof fn lemma_reported(
    assets: Seq<AssetView>,
    requested: Seq<Platform>,
    prefer_gnu: bool,
    path: Option<Seq<char>>,
    count: int,
    k: int,
    error: DigestErrorView,
)
    requires
        0 <= k < count <= 7,
        github::chosen(assets, requested, prefer_gnu, target::all_platforms()[k]) matches Some(
            found,
        ) && github::digest_error(assets[found]) == Some(error),
    ensures
        github::resolved(assets, requested, prefer_gnu, path, count).errors.contains(error),
    decreases count,
{
    let last = count - 1;
    let before = github::resolved(assets, requested, prefer_gnu, path, last).errors;
    let after = github::resolved(assets, requested, prefer_gnu, path, count).errors;
    if k < last {
        lemma_reported(assets, requested, prefer_gnu, path, last, k, error);
        let i = choose|i: int| 0 <= i < before.len() && before[i] == error;
        assert(after[i] == error);
    } else {
        assert(after[before.len() as int] == error);
    }
}

// ---------------------------------------------------------------------------------------------
// What is asked for

/// Whether there is a release among some targets, and whether there are several.
pub proof fn releases_are_counted(targets: Seq<Target>)
    ensures
        github::releases(targets) == 0 <==> forall|i: int|
            0 <= i < targets.len() ==> (#[trigger] targets[i]) is Http,
        github::releases(targets) > 1 <==> exists|i: int, j: int|
            0 <= i < j < targets.len() && (#[trigger] targets[i]) is GitHubRelease && (
            #[trigger] targets[j]) is GitHubRelease,
    decreases targets.len(),
{
    if targets.len() > 0 {
        let n = targets.len() - 1;
        let rest = targets.drop_last();
        releases_are_counted(rest);
        if github::releases(targets) == 0 {
            assert forall|i: int| 0 <= i < targets.len() implies (#[trigger] targets[i]) is Http by {
                if i < n {
                    assert(rest[i] == targets[i]);
                }
            }
        }
        if forall|i: int| 0 <= i < targets.len() ==> (#[trigger] targets[i]) is Http {
            assert(targets[n] is Http);
            assert forall|i: int| 0 <= i < rest.len() implies (#[trigger] rest[i]) is Http by {
                assert(rest[i] == targets[i]);
            }
        }
        if github::releases(targets) > 1 {
            if github::releases(rest) > 1 {
                let (i, j) = choose|i: int, j: int|
                    0 <= i < j < rest.len() && (#[trigger] rest[i]) is GitHubRelease && (
                    #[trigger] rest[j]) is GitHubRelease;
                assert(targets[i] is GitHubRelease && targets[j] is GitHubRelease);
            } else {
                assert(!(forall|i: int| 0 <= i < rest.len() ==> (#[trigger] rest[i]) is Http));
                let i = choose|i: int| 0 <= i < rest.len() && !((#[trigger] rest[i]) is Http);
                assert(targets[i] is GitHubRelease && targets[n] is GitHubRelease);
            }
        }
        if exists|i: int, j: int|
            0 <= i < j < targets.len() && (#[trigger] targets[i]) is GitHubRelease && (
            #[trigger] targets[j]) is GitHubRelease {
            let (i, j) = choose|i: int, j: int|
                0 <= i < j < targets.len() && (#[trigger] targets[i]) is GitHubRelease && (
                #[trigger] targets[j]) is GitHubRelease;
            assert(rest[i] is GitHubRelease);
            if j < n {
                assert(rest[j] is GitHubRelease);
            }
        }
    }
}

/// A release is described at the documented place of the API of its host: by its tag, or as the
/// latest one.
pub proof fn releases_are_described_by_the_api(
    host: Seq<char>,
    org: Seq<char>,
    repo: Seq<char>,
    tag: Seq<char>,
)
    ensures
        github::api_url_of(host, org, repo, Some(tag)) == "https://api."@ + host + "/repos/"@ + org
            + "/"@ + repo + ("/releases/tags/"@ + tag),
        github::api_url_of(host, org, repo, None) == "https://api."@ + host + "/repos/"@ + org
            + "/"@ + repo + "/releases/latest"@,
{
    assert("/releases/tags/"@ == "/releases/"@ + "tags/"@) by {
        reveal_strlit("/releases/tags/");
        reveal_strlit("/releases/");
        reveal_strlit("tags/");
    }
    assert("/releases/latest"@ == "/releases/"@ + "latest"@) by {
        reveal_strlit("/releases/latest");
        reveal_strlit("/releases/");
        reveal_strlit("latest");
    }
    let page = "https://api."@ + host + "/repos/"@ + org + "/"@ + repo;
    assert(page + "/releases/"@ + ("tags/"@ + tag) == page + ("/releases/tags/"@ + tag));
    assert(page + "/releases/"@ + "latest"@ == page + "/releases/latest"@);
}

} // verus!
