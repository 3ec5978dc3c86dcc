//! Releases on GitHub.

use std::str::FromStr;

use vstd::prelude::*;

use crate::digest::{Digest, DigestError, DigestErrorView, DigestView};
use crate::name::{ArtifactName, NameView};
use crate::target::{
    copy_text, Artifact, ArtifactView, Artifacts, GitHubRelease, Http, Libc, Platform, Target,
};
use crate::text;

verus! {

// ---------------------------------------------------------------------------------------------
// Targets

/// What to download: either one release, or files.
pub enum Targets {
    Release(GitHubRelease),
    Files(Vec<Http>),
}

/// Why some targets cannot be downloaded together.
#[derive(Debug, Clone, Copy, PartialEq, Eq, Structural)]
pub enum TargetsError {
    /// There is a release and something else.
    Alongside,
    /// There is more than one release.
    Several,
}

impl TargetsError {
    /// The error in words.
    pub open spec fn words(self) -> Seq<char> {
        match self {
            TargetsError::Alongside => "no target may be specified alongside a github release"@,
            TargetsError::Several => "only one github release may be specified"@,
        }
    }

    /// The error in words.
    pub fn message(&self) -> (message: &'static str)
        ensures
            message@ == self.words(),
    {
        match self {
            TargetsError::Alongside => "no target may be specified alongside a github release",
            TargetsError::Several => "only one github release may be specified",
        }
    }
}

/// How many of `targets` are releases.
pub open spec fn releases(targets: Seq<Target>) -> nat
    decreases targets.len(),
{
    if targets.len() == 0 {
        0
    } else {
        releases(targets.drop_last()) + if targets.last() is GitHubRelease {
            1nat
        } else {
            0nat
        }
    }
}

/// Without releases, every target is a file.
proof fn lemma_no_release(targets: Seq<Target>)
    requires
        releases(targets) == 0,
    ensures
        forall|i: int| 0 <= i < targets.len() ==> (#[trigger] targets[i]) is Http,
    decreases targets.len(),
{
    if targets.len() > 0 {
        lemma_no_release(targets.drop_last());
        assert forall|i: int| 0 <= i < targets.len() implies (#[trigger] targets[i]) is Http by {
            if i < targets.len() - 1 {
                assert(targets[i] == targets.drop_last()[i]);
            }
        }
    }
}

/// Tells what to download: the only release, which has to be alone, or else the files.
pub fn separate_targets(targets: Vec<Target>) -> (result: Result<Targets, TargetsError>)
    ensures
        match result {
            Ok(Targets::Release(release)) => targets@ == seq![Target::GitHubRelease(release)],
            Ok(Targets::Files(files)) => {
                &&& releases(targets@) == 0
                &&& targets@ == files@.map_values(|file: Http| Target::Http(file))
            },
            Err(TargetsError::Alongside) => releases(targets@) == 1 && targets@.len() > 1,
            Err(TargetsError::Several) => releases(targets@) > 1,
        },
{
    let mut count: usize = 0;
    let mut i: usize = 0;
    assert(targets@.take(0) == Seq::<Target>::empty());
    while i < targets.len()
        invariant
            count <= i <= targets@.len(),
            count == releases(targets@.take(i as int)),
        decreases targets@.len() - i,
    {
        assert(targets@.take(i + 1).drop_last() == targets@.take(i as int));
        if let Target::GitHubRelease(_) = &targets[i] {
            count += 1;
        }
        i += 1;
    }
    assert(targets@.take(i as int) == targets@);
    if count > 1 {
        return Err(TargetsError::Several);
    }
    if count == 1 && targets.len() != 1 {
        return Err(TargetsError::Alongside);
    }
    let ghost all = targets@;
    let mut rest: Vec<Target> = targets;
    let mut files: Vec<Http> = Vec::new();
    proof {
        if count == 0 {
            lemma_no_release(all);
        } else {
            assert(all.drop_last() == Seq::<Target>::empty());
        }
    }
    let ghost file = |file: Http| Target::Http(file);
    assert(files@.map_values(file) == all.take(0));
    let ghost mut done: int = 0;
    while rest.len() > 0
        invariant
            0 <= done <= all.len(),
            file == (|file: Http| Target::Http(file)),
            all == targets@,
            rest@ == all.skip(done),
            files@.map_values(file) == all.take(done),
            all.len() > 0 && all[0] is GitHubRelease ==> all.len() == 1 && done == 0,
            forall|i: int|
                0 <= i < all.len() && all.len() != 1 ==> (#[trigger] all[i]) is Http,
            all.len() == 1 ==> releases(all) == if all[0] is GitHubRelease {
                1nat
            } else {
                0nat
            },
        decreases rest@.len(),
    {
        let ghost before = rest@;
        let target: Target = rest.remove(0);
        assert(target == all[done]);
        assert(rest@ == before.skip(1));
        assert(before.skip(1) == all.skip(done + 1));
        match target {
            Target::GitHubRelease(release) => {
                assert(all == seq![Target::GitHubRelease(release)]);
                return Ok(Targets::Release(release));
            },
            Target::Http(http) => {
                let ghost old_files = files@.map_values(file);
                files.push(http);
                assert(files@.map_values(file) == old_files.push(Target::Http(http)));
                assert(all.take(done + 1) == all.take(done).push(all[done]));
            },
        }
        proof {
            done = done + 1;
        }
    }
    proof {
        assert(all.skip(done).len() == 0);
        assert(all.take(done) == all);
        if all.len() == 1 {
            assert(all[0] is Http);
        }
    }
    Ok(Targets::Files(files))
}

// ---------------------------------------------------------------------------------------------
// Requests

/// Where the GitHub API describes a release.
pub open spec fn api_url_of(
    host: Seq<char>,
    org: Seq<char>,
    repo: Seq<char>,
    release: Option<Seq<char>>,
) -> Seq<char> {
    "https://api."@ + host + "/repos/"@ + org + "/"@ + repo + "/releases/"@ + match release {
        Some(release) => "tags/"@ + release,
        None => "latest"@,
    }
}

/// Where the GitHub API describes a release.
pub fn api_url(release: &GitHubRelease) -> (url: String)
    ensures
        url@ == api_url_of(
            release.host@,
            release.org@,
            release.repo@,
            crate::options::optional(release.release),
        ),
{
    let mut url: String = "https://api.".to_owned();
    url.append(release.host.as_str());
    url.append("/repos/");
    url.append(release.org.as_str());
    url.append("/");
    url.append(release.repo.as_str());
    url.append("/releases/");
    let ghost before = url@;
    match &release.release {
        Some(tag) => {
            url.append("tags/");
            url.append(tag.as_str());
            assert(url@ == before + ("tags/"@ + tag@));
        },
        None => {
            url.append("latest");
        },
    }
    url
}

/// The header which authorizes a request with a token.
///
/// See <https://docs.github.com/en/rest/authentication/authenticating-to-the-rest-api>.
pub fn authorization(token: &str) -> (header: String)
    ensures
        header@ == "Bearer "@ + token@,
{
    "Bearer ".to_owned().concat(token)
}

// ---------------------------------------------------------------------------------------------
// Assets

/// A file of a release.
#[derive(Debug)]
pub struct GitHubReleaseAsset {
    pub browser_download_url: String,
    pub digest: Option<String>,
    pub name: String,
    pub size: u64,
}

/// What a [`GitHubReleaseAsset`] holds.
pub struct AssetView {
    pub browser_download_url: Seq<char>,
    pub digest: Option<Seq<char>>,
    pub name: Seq<char>,
    pub size: u64,
}

impl View for GitHubReleaseAsset {
    type V = AssetView;

    open spec fn view(&self) -> AssetView {
        AssetView {
            browser_download_url: self.browser_download_url@,
            digest: crate::options::optional(self.digest),
            name: self.name@,
            size: self.size,
        }
    }
}

/// What each asset holds.
pub open spec fn views(assets: Seq<GitHubReleaseAsset>) -> Seq<AssetView> {
    assets.map_values(|asset: GitHubReleaseAsset| asset@)
}

/// Whether an asset can be used for a platform: its name says that it is for that platform, it is
/// no digest, and the platform was requested, or none was.
pub open spec fn is_candidate(
    asset: AssetView,
    requested: Seq<Platform>,
    platform: Platform,
) -> bool {
    &&& !".sha256"@.is_suffix_of(asset.name)
    &&& crate::name::read_name(asset.name) matches Ok(name)
    &&& name.platform == platform
    &&& requested.len() == 0 || requested.contains(platform)
}

/// Whether the name of an asset names the C library we want.
pub open spec fn is_preferred(asset: AssetView, prefer_gnu: bool) -> bool {
    match crate::name::read_name(asset.name) {
        Ok(name) => name.libc == Some(
            if prefer_gnu {
                Libc::Gnu
            } else {
                Libc::Musl
            },
        ),
        Err(_) => false,
    }
}

/// The asset to use for a platform: the first candidate, or any later one with the C library we
/// want.
pub open spec fn chosen(
    assets: Seq<AssetView>,
    requested: Seq<Platform>,
    prefer_gnu: bool,
    platform: Platform,
) -> Option<int>
    decreases assets.len(),
{
    if assets.len() == 0 {
        None
    } else {
        let before = chosen(assets.drop_last(), requested, prefer_gnu, platform);
        if is_candidate(assets.last(), requested, platform) && (before is None || is_preferred(
            assets.last(),
            prefer_gnu,
        )) {
            Some(assets.len() - 1)
        } else {
            before
        }
    }
}

/// An asset, and what its name says.
pub struct Chosen {
    pub name: ArtifactName,
    pub index: usize,
}

/// Whether `slot` holds the asset at `index`, or nothing.
pub open spec fn holds(slot: Option<Chosen>, assets: Seq<AssetView>, index: Option<int>) -> bool {
    match (slot, index) {
        (Some(found), Some(index)) => {
            &&& found.index == index
            &&& 0 <= index < assets.len()
            &&& crate::name::read_name(assets[index].name) == Ok::<
                NameView,
                crate::name::NameErrorView,
            >(found.name@)
        },
        (None, None) => true,
        _ => false,
    }
}

/// Whether a platform was requested, or none was.
fn is_requested(platforms: &[Platform], platform: Platform) -> (yes: bool)
    ensures
        yes == (platforms@.len() == 0 || platforms@.contains(platform)),
{
    if platforms.len() == 0 {
        return true;
    }
    let mut i: usize = 0;
    while i < platforms.len()
        invariant
            i <= platforms@.len(),
            forall|j: int| 0 <= j < i ==> platforms@[j] != platform,
        decreases platforms@.len() - i,
    {
        if platforms[i] == platform {
            assert(platforms@[i as int] == platform);
            return true;
        }
        i += 1;
    }
    false
}

/// Position of a platform in the list of all platforms.
fn index_of(platform: Platform) -> (index: usize)
    ensures
        index < 7,
        crate::target::all_platforms()[index as int] == platform,
        forall|k: int|
            0 <= k < 7 && #[trigger] crate::target::all_platforms()[k] == platform ==> k == index,
{
    let all: [Platform; 7] = Platform::all();
    if platform == all[0] {
        0
    } else if platform == all[1] {
        1
    } else if platform == all[2] {
        2
    } else if platform == all[3] {
        3
    } else if platform == all[4] {
        4
    } else if platform == all[5] {
        5
    } else {
        6
    }
}

/// Whether `name` names the C library we want.
fn names_preferred(name: &ArtifactName, prefer_gnu: bool) -> (yes: bool)
    ensures
        yes == (name.libc == Some(
            if prefer_gnu {
                Libc::Gnu
            } else {
                Libc::Musl
            },
        )),
{
    match name.libc {
        Some(libc) => match libc {
            Libc::Gnu => prefer_gnu,
            Libc::Musl => !prefer_gnu,
        },
        None => false,
    }
}

/// Chooses the asset for each platform, among those that we can parse and that were requested.
pub fn select(
    assets: &Vec<GitHubReleaseAsset>,
    platforms: &[Platform],
    prefer_gnu: bool,
) -> (slots: Vec<Option<Chosen>>)
    ensures
        slots@.len() == 7,
        forall|k: int|
            0 <= k < 7 ==> holds(
                #[trigger] slots@[k],
                views(assets@),
                chosen(
                    views(assets@),
                    platforms@,
                    prefer_gnu,
                    crate::target::all_platforms()[k],
                ),
            ),
{
    let ghost all = views(assets@);
    let mut slots: Vec<Option<Chosen>> = Vec::new();
    let mut n: usize = 0;
    while n < 7
        invariant
            n <= 7,
            slots@.len() == n,
            forall|k: int| 0 <= k < n ==> (#[trigger] slots@[k]) is None,
        decreases 7 - n,
    {
        slots.push(None);
        n += 1;
    }
    let mut i: usize = 0;
    assert(all.take(0) == Seq::<AssetView>::empty());
    while i < assets.len()
        invariant
            i <= assets@.len(),
            all == views(assets@),
            slots@.len() == 7,
            forall|k: int|
                0 <= k < 7 ==> holds(
                    #[trigger] slots@[k],
                    all,
                    chosen(
                        all.take(i as int),
                        platforms@,
                        prefer_gnu,
                        crate::target::all_platforms()[k],
                    ),
                ),
        decreases assets@.len() - i,
    {
        let asset: &GitHubReleaseAsset = &assets[i];
        let ghost before = slots@;
        proof {
            assert(all.take(i + 1).drop_last() == all.take(i as int));
            assert(all.take(i + 1).last() == asset@);
            assert(all[i as int] == asset@);
        }
        if !text::ends_with(asset.name.as_str(), ".sha256") {
            if let Ok(name) = ArtifactName::from_str(asset.name.as_str()) {
                if is_requested(platforms, name.platform) {
                    let k: usize = index_of(name.platform);
                    // Keep the first asset, or the one that matches the `libc` we want.
                    if slots[k].is_none() || names_preferred(&name, prefer_gnu) {
                        slots.set(k, Some(Chosen { name, index: i }));
                    }
                }
            }
        }
        assert forall|k: int| 0 <= k < 7 implies holds(
            #[trigger] slots@[k],
            all,
            chosen(
                all.take(i + 1),
                platforms@,
                prefer_gnu,
                crate::target::all_platforms()[k],
            ),
        ) by {
            assert(holds(
                before[k],
                all,
                chosen(
                    all.take(i as int),
                    platforms@,
                    prefer_gnu,
                    crate::target::all_platforms()[k],
                ),
            ));
        }
        i += 1;
    }
    assert(all.take(i as int) == all);
    slots
}

// ---------------------------------------------------------------------------------------------
// Digests

/// Where the digest of an asset comes from.
pub enum DigestSource {
    /// The release gives it.
    Known(DigestView),
    /// It is in another file.
    Fetch(Seq<char>),
    /// It is not known.
    Unknown,
}

/// Where the digest of the asset at `index` comes from: the release itself, or the asset after it
/// if that has its name followed by `.sha256`.
pub open spec fn digest_source(assets: Seq<AssetView>, index: int) -> DigestSource {
    let asset = assets[index];
    if asset.digest is Some && crate::digest::read_digest(asset.digest->0, ""@) is Ok {
        DigestSource::Known(crate::digest::read_digest(asset.digest->0, ""@)->Ok_0)
    } else if index + 1 < assets.len() && assets[index + 1].name == asset.name + ".sha256"@ {
        DigestSource::Fetch(assets[index + 1].browser_download_url)
    } else {
        DigestSource::Unknown
    }
}

/// Why the digest that the release gives for an asset is none, if it gives one.
pub open spec fn digest_error(asset: AssetView) -> Option<DigestErrorView> {
    match asset.digest {
        Some(digest) => match crate::digest::read_digest(digest, ""@) {
            Ok(_) => None,
            Err(error) => Some(error),
        },
        None => None,
    }
}

/// The artifact of an asset.
pub open spec fn artifact_of(
    name: NameView,
    asset: AssetView,
    digest: Option<DigestView>,
    path: Option<Seq<char>>,
) -> ArtifactView {
    ArtifactView {
        url: asset.browser_download_url,
        name: name.name,
        platform: name.platform,
        format: name.format,
        path,
        digest,
        check_digest: false,
        size: Some(asset.size),
    }
}

/// The artifact of an asset.
pub fn gh_artifact(
    name: ArtifactName,
    asset: &GitHubReleaseAsset,
    digest: Option<Digest>,
    path: Option<String>,
) -> (artifact: Artifact)
    ensures
        artifact@ == artifact_of(
            name@,
            asset@,
            crate::options::optional_digest(digest),
            crate::options::optional(path),
        ),
{
    Artifact {
        url: asset.browser_download_url.clone(),
        name: name.name,
        platform: name.platform,
        format: name.format,
        path,
        digest,
        check_digest: false,
        size: Some(asset.size),
    }
}

/// The assets which can be used.
pub struct Resolved {
    /// Artifacts which need nothing more.
    pub ready: Vec<Artifact>,
    /// Artifacts without digest, each with the URL of a file with its digest.
    pub pending: Vec<(Artifact, String)>,
    /// Why the digests that the release gives for some assets are none.
    pub errors: Vec<DigestError>,
}

/// What a [`Resolved`] holds.
pub struct ResolvedView {
    pub ready: Seq<ArtifactView>,
    pub pending: Seq<(ArtifactView, Seq<char>)>,
    pub errors: Seq<DigestErrorView>,
}

impl View for Resolved {
    type V = ResolvedView;

    open spec fn view(&self) -> ResolvedView {
        ResolvedView {
            ready: self.ready@.map_values(|artifact: Artifact| artifact@),
            pending: self.pending@.map_values(|item: (Artifact, String)| (item.0@, item.1@)),
            errors: self.errors@.map_values(|error: DigestError| error@),
        }
    }
}

/// `found` and the asset at `index`.
pub open spec fn with_asset(
    found: ResolvedView,
    assets: Seq<AssetView>,
    index: int,
    path: Option<Seq<char>>,
) -> ResolvedView {
    let asset = assets[index];
    let name = crate::name::read_name(asset.name)->Ok_0;
    let errors = match digest_error(asset) {
        Some(error) => found.errors.push(error),
        None => found.errors,
    };
    match digest_source(assets, index) {
        DigestSource::Known(digest) => ResolvedView {
            ready: found.ready.push(artifact_of(name, asset, Some(digest), path)),
            pending: found.pending,
            errors,
        },
        DigestSource::Fetch(url) => ResolvedView {
            ready: found.ready,
            pending: found.pending.push((artifact_of(name, asset, None, path), url)),
            errors,
        },
        DigestSource::Unknown => ResolvedView {
            ready: found.ready.push(artifact_of(name, asset, None, path)),
            pending: found.pending,
            errors,
        },
    }
}

/// The assets to use for the first `count` platforms.
pub open spec fn resolved(
    assets: Seq<AssetView>,
    requested: Seq<Platform>,
    prefer_gnu: bool,
    path: Option<Seq<char>>,
    count: int,
) -> ResolvedView
    decreases count,
{
    if count <= 0 {
        ResolvedView { ready: seq![], pending: seq![], errors: seq![] }
    } else {
        let found = resolved(assets, requested, prefer_gnu, path, count - 1);
        match chosen(assets, requested, prefer_gnu, crate::target::all_platforms()[count - 1]) {
            Some(index) => with_asset(found, assets, index, path),
            None => found,
        }
    }
}

/// Whether `name` is `stem` followed by `.sha256`.
fn is_sum_of(name: &str, stem: &str) -> (yes: bool)
    ensures
        yes == (name@ == stem@ + ".sha256"@),
{
    match text::strip_suffix(name, ".sha256") {
        Some(prefix) => {
            let yes: bool = text::same(prefix, stem);
            proof {
                let n = name@.len() - ".sha256"@.len();
                assert(name@ == name@.take(n) + name@.skip(n));
                assert(name@.subrange(n, name@.len() as int) == name@.skip(n));
                if name@ == stem@ + ".sha256"@ {
                    assert(prefix@ == stem@);
                }
            }
            yes
        },
        None => {
            proof {
                if name@ == stem@ + ".sha256"@ {
                    let n = name@.len() - ".sha256"@.len();
                    assert(name@.subrange(n, name@.len() as int) == ".sha256"@);
                }
            }
            false
        },
    }
}

impl Resolved {
    /// Adds an asset.
    fn add_asset(
        &mut self,
        found: Chosen,
        assets: &Vec<GitHubReleaseAsset>,
        path: &Option<String>,
    )
        requires
            holds(Some(found), views(assets@), Some(found.index as int)),
        ensures
            final(self)@ == with_asset(
                old(self)@,
                views(assets@),
                found.index as int,
                crate::options::optional(*path),
            ),
    {
        let ghost all = views(assets@);
        let ghost before = self@;
        let Chosen { name, index } = found;
        let asset: &GitHubReleaseAsset = &assets[index];
        assert(all[index as int] == asset@);
        let path: Option<String> = copy_text(path);
        if let Some(digest) = &asset.digest {
            match Digest::parse(digest.as_str(), "") {
                Ok(digest) => {
                    let artifact: Artifact = gh_artifact(name, asset, Some(digest), path);
                    let ghost view = artifact@;
                    self.ready.push(artifact);
                    assert(self@.ready == before.ready.push(view));
                    assert(self@.pending == before.pending);
                    assert(self@.errors == before.errors);
                    return;
                },
                Err(error) => {
                    let ghost view = error@;
                    self.errors.push(error);
                    assert(self@.errors == before.errors.push(view));
                },
            }
        }
        let ghost errors = self@.errors;
        if assets.len() - index > 1 {
            let next: &GitHubReleaseAsset = &assets[index + 1];
            assert(all[index + 1] == next@);
            if is_sum_of(next.name.as_str(), asset.name.as_str()) {
                let artifact: Artifact = gh_artifact(name, asset, None, path);
                let ghost view = (artifact@, next.browser_download_url@);
                self.pending.push((artifact, next.browser_download_url.clone()));
                assert(self@.pending == before.pending.push(view));
                assert(self@.ready == before.ready);
                assert(self@.errors == errors);
                return;
            }
        }
        let artifact: Artifact = gh_artifact(name, asset, None, path);
        let ghost view = artifact@;
        self.ready.push(artifact);
        assert(self@.ready == before.ready.push(view));
        assert(self@.pending == before.pending);
        assert(self@.errors == errors);
    }
}

/// Determines which assets of a release to use, and where their digests come from.
pub fn resolve(
    assets: &Vec<GitHubReleaseAsset>,
    platforms: &[Platform],
    prefer_gnu: bool,
    path: &Option<String>,
) -> (result: Resolved)
    ensures
        result@ == resolved(
            views(assets@),
            platforms@,
            prefer_gnu,
            crate::options::optional(*path),
            7,
        ),
{
    let ghost all = views(assets@);
    let mut result: Resolved = Resolved {
        ready: Vec::new(),
        pending: Vec::new(),
        errors: Vec::new(),
    };
    let mut slots: Vec<Option<Chosen>> = select(assets, platforms, prefer_gnu);
    let ghost first = slots@;
    let mut count: usize = 0;
    assert(result@ == resolved(
        all,
        platforms@,
        prefer_gnu,
        crate::options::optional(*path),
        0,
    )) by {
        assert(result@.ready == Seq::<ArtifactView>::empty());
        assert(result@.pending == Seq::<(ArtifactView, Seq<char>)>::empty());
        assert(result@.errors == Seq::<DigestErrorView>::empty());
    }
    while count < 7
        invariant
            count <= 7,
            first.len() == 7,
            slots@ == first.skip(count as int),
            all == views(assets@),
            forall|k: int|
                0 <= k < 7 ==> holds(
                    #[trigger] first[k],
                    all,
                    chosen(all, platforms@, prefer_gnu, crate::target::all_platforms()[k]),
                ),
            result@ == resolved(
                all,
                platforms@,
                prefer_gnu,
                crate::options::optional(*path),
                count as int,
            ),
        decreases 7 - count,
    {
        let slot: Option<Chosen> = slots.remove(0);
        assert(slot == first[count as int]);
        assert(slots@ == first.skip(count as int).skip(1));
        assert(slots@ == first.skip(count + 1));
        assert(holds(
            first[count as int],
            all,
            chosen(all, platforms@, prefer_gnu, crate::target::all_platforms()[count as int]),
        ));
        if let Some(found) = slot {
            result.add_asset(found, assets, path);
        }
        count += 1;
    }
    result
}

// ---------------------------------------------------------------------------------------------
// Laws

/// An asset is chosen for a platform if and only if there is a candidate, and it is one.
pub proof fn chosen_is_a_candidate(
    assets: Seq<AssetView>,
    requested: Seq<Platform>,
    prefer_gnu: bool,
    platform: Platform,
)
    ensures
        match chosen(assets, requested, prefer_gnu, platform) {
            Some(index) => 0 <= index < assets.len() && is_candidate(
                assets[index],
                requested,
                platform,
            ),
            None => forall|i: int|
                0 <= i < assets.len() ==> !is_candidate(#[trigger] assets[i], requested, platform),
        },
    decreases assets.len(),
{
    if assets.len() > 0 {
        chosen_is_a_candidate(assets.drop_last(), requested, prefer_gnu, platform);
        let before = chosen(assets.drop_last(), requested, prefer_gnu, platform);
        if before is None {
            assert forall|i: int| 0 <= i < assets.len() - 1 implies !is_candidate(
                #[trigger] assets[i],
                requested,
                platform,
            ) by {
                assert(assets.drop_last()[i] == assets[i]);
            }
        }
    }
}

/// When both are available, the asset with the preferred C library is chosen: if any candidate has
/// it, the chosen one does, and it is the last of them.
pub proof fn preferred_libc_is_chosen(
    assets: Seq<AssetView>,
    requested: Seq<Platform>,
    prefer_gnu: bool,
    platform: Platform,
    index: int,
)
    requires
        0 <= index < assets.len(),
        is_candidate(assets[index], requested, platform),
        is_preferred(assets[index], prefer_gnu),
    ensures
        chosen(assets, requested, prefer_gnu, platform) matches Some(found) && index <= found
            && found < assets.len() && is_preferred(assets[found], prefer_gnu),
    decreases assets.len(),
{
    if index < assets.len() - 1 {
        assert(assets.drop_last()[index] == assets[index]);
        preferred_libc_is_chosen(assets.drop_last(), requested, prefer_gnu, platform, index);
    }
}

/// If no candidate has the preferred C library, the first candidate is chosen.
pub proof fn first_candidate_is_chosen(
    assets: Seq<AssetView>,
    requested: Seq<Platform>,
    prefer_gnu: bool,
    platform: Platform,
    index: int,
)
    requires
        0 <= index < assets.len(),
        is_candidate(assets[index], requested, platform),
        forall|i: int|
            0 <= i < index ==> !is_candidate(#[trigger] assets[i], requested, platform),
        forall|i: int|
            0 <= i < assets.len() && is_candidate(#[trigger] assets[i], requested, platform)
                ==> !is_preferred(assets[i], prefer_gnu),
    ensures
        chosen(assets, requested, prefer_gnu, platform) == Some(index),
    decreases assets.len(),
{
    let rest = assets.drop_last();
    assert forall|i: int| 0 <= i < rest.len() && is_candidate(
        #[trigger] rest[i],
        requested,
        platform,
    ) implies !is_preferred(rest[i], prefer_gnu) by {
        assert(rest[i] == assets[i]);
    }
    assert forall|i: int| 0 <= i < index && i < rest.len() implies !is_candidate(
        #[trigger] rest[i],
        requested,
        platform,
    ) by {
        assert(rest[i] == assets[i]);
    }
    if index < assets.len() - 1 {
        assert(rest[index] == assets[index]);
        first_candidate_is_chosen(rest, requested, prefer_gnu, platform, index);
        assert(is_candidate(assets.last(), requested, platform) ==> !is_preferred(
            assets[assets.len() - 1],
            prefer_gnu,
        ));
    } else {
        chosen_is_a_candidate(rest, requested, prefer_gnu, platform);
    }
}

/// If platforms were requested, nothing is chosen for another one.
pub proof fn only_requested_platforms_are_chosen(
    assets: Seq<AssetView>,
    requested: Seq<Platform>,
    prefer_gnu: bool,
    platform: Platform,
)
    requires
        requested.len() > 0,
        !requested.contains(platform),
    ensures
        chosen(assets, requested, prefer_gnu, platform) is None,
{
    chosen_is_a_candidate(assets, requested, prefer_gnu, platform);
}

} // verus!
