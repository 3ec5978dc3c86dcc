//! Reading [`Target`]s and their options.

use std::str::FromStr;

use vstd::prelude::*;

use crate::digest::{Digest, DigestError, DigestErrorView, DigestView};
use crate::outside;
use crate::target::{Architecture, CommonOptions, GitHubRelease, Http, Os, Platform, Target};
use crate::text;

verus! {

broadcast use vstd::seq_lib::group_seq_properties;

// ---------------------------------------------------------------------------------------------
// Errors

/// Why a text is not a [`Target`].
#[derive(Debug)]
pub enum TargetError {
    /// It starts neither with `https:` nor with `github:`.
    UnknownScheme,
    /// A `github:` URI lacks an organization or a repository.
    MissingRepository,
    /// A `github:` URI goes on after its release.
    TooManySegments,
    /// The option `path` has no value.
    MissingPath,
    /// The option of this name has no value, and needs one.
    MissingValue(&'static str),
    /// The option of this name has a value, and takes none.
    UnexpectedValue(&'static str),
    UnknownOption(String),
    UnknownOs(String),
    UnknownArch(String),
    UnknownPlatform(String),
    InvalidDigest(DigestError),
    InvalidSize,
}

/// What a [`TargetError`] holds.
pub enum TargetErrorView {
    UnknownScheme,
    MissingRepository,
    TooManySegments,
    MissingPath,
    MissingValue(Seq<char>),
    UnexpectedValue(Seq<char>),
    UnknownOption(Seq<char>),
    UnknownOs(Seq<char>),
    UnknownArch(Seq<char>),
    UnknownPlatform(Seq<char>),
    InvalidDigest(DigestErrorView),
    InvalidSize,
}

impl View for TargetError {
    type V = TargetErrorView;

    open spec fn view(&self) -> TargetErrorView {
        match *self {
            TargetError::UnknownScheme => TargetErrorView::UnknownScheme,
            TargetError::MissingRepository => TargetErrorView::MissingRepository,
            TargetError::TooManySegments => TargetErrorView::TooManySegments,
            TargetError::MissingPath => TargetErrorView::MissingPath,
            TargetError::MissingValue(option) => TargetErrorView::MissingValue(option@),
            TargetError::UnexpectedValue(option) => TargetErrorView::UnexpectedValue(option@),
            TargetError::UnknownOption(option) => TargetErrorView::UnknownOption(option@),
            TargetError::UnknownOs(os) => TargetErrorView::UnknownOs(os@),
            TargetError::UnknownArch(arch) => TargetErrorView::UnknownArch(arch@),
            TargetError::UnknownPlatform(platform) => TargetErrorView::UnknownPlatform(platform@),
            TargetError::InvalidDigest(error) => TargetErrorView::InvalidDigest(error@),
            TargetError::InvalidSize => TargetErrorView::InvalidSize,
        }
    }
}

impl TargetErrorView {
    /// The error in words, if it has any.
    pub open spec fn message(self) -> Option<Seq<char>> {
        match self {
            TargetErrorView::UnknownScheme => None,
            TargetErrorView::MissingRepository => Some("expected org/repo or org/repo/release"@),
            TargetErrorView::TooManySegments => Some("too many segments in github: uri"@),
            TargetErrorView::MissingPath => Some("path requires a value"@),
            TargetErrorView::MissingValue(option) => Some(option + " must be given a value"@),
            TargetErrorView::UnexpectedValue(option) => Some(option + " does not take a value"@),
            TargetErrorView::UnknownOption(option) => Some(
                "unknown option "@ + outside::quoted(option),
            ),
            TargetErrorView::UnknownOs(os) => Some("unknown os "@ + outside::quoted(os)),
            TargetErrorView::UnknownArch(arch) => Some("unknown arch "@ + outside::quoted(arch)),
            TargetErrorView::UnknownPlatform(platform) => Some(
                "unknown platform "@ + outside::quoted(platform),
            ),
            TargetErrorView::InvalidDigest(error) => Some(error.message()),
            TargetErrorView::InvalidSize => Some("size is not a valid integer"@),
        }
    }
}

/// `before` followed by `after`.
fn joined(before: &str, after: &str) -> (text: String)
    ensures
        text@ == before@ + after@,
{
    before.to_owned().concat(after)
}

impl TargetError {
    /// The error in words, if it has any.
    pub fn message(&self) -> (message: Option<String>)
        ensures
            match message {
                Some(message) => self@.message() == Some(message@),
                None => self@.message() is None,
            },
    {
        match self {
            TargetError::UnknownScheme => None,
            TargetError::MissingRepository => Some(
                "expected org/repo or org/repo/release".to_owned(),
            ),
            TargetError::TooManySegments => Some("too many segments in github: uri".to_owned()),
            TargetError::MissingPath => Some("path requires a value".to_owned()),
            TargetError::MissingValue(option) => Some(joined(*option, " must be given a value")),
            TargetError::UnexpectedValue(option) => Some(joined(*option, " does not take a value")),
            TargetError::UnknownOption(option) => Some(
                joined("unknown option ", outside::quote(option.as_str()).as_str()),
            ),
            TargetError::UnknownOs(os) => Some(
                joined("unknown os ", outside::quote(os.as_str()).as_str()),
            ),
            TargetError::UnknownArch(arch) => Some(
                joined("unknown arch ", outside::quote(arch.as_str()).as_str()),
            ),
            TargetError::UnknownPlatform(platform) => Some(
                joined("unknown platform ", outside::quote(platform.as_str()).as_str()),
            ),
            TargetError::InvalidDigest(error) => Some(error.message()),
            TargetError::InvalidSize => Some("size is not a valid integer".to_owned()),
        }
    }
}

// ---------------------------------------------------------------------------------------------
// Targets

/// What an optional text holds.
pub open spec fn optional(text: Option<String>) -> Option<Seq<char>> {
    match text {
        Some(text) => Some(text@),
        None => None,
    }
}

/// What an optional text holds.
pub open spec fn optional_str(text: Option<&str>) -> Option<Seq<char>> {
    match text {
        Some(text) => Some(text@),
        None => None,
    }
}

/// What an optional digest holds.
pub open spec fn optional_digest(digest: Option<Digest>) -> Option<DigestView> {
    match digest {
        Some(digest) => Some(digest@),
        None => None,
    }
}

/// What a [`GitHubRelease`] holds.
pub struct GitHubReleaseView {
    pub host: Seq<char>,
    pub org: Seq<char>,
    pub repo: Seq<char>,
    pub release: Option<Seq<char>>,
    pub options: GitHubOptions,
}

/// The options of a [`GitHubRelease`].
pub struct GitHubOptions {
    pub path: Option<Seq<char>>,
    /// The requested platforms.
    pub platforms: Seq<Platform>,
    pub prefer_gnu: bool,
}

/// What an [`Http`] holds.
pub struct HttpView {
    pub url: Seq<char>,
    pub options: HttpOptions,
}

/// The options of an [`Http`].
pub struct HttpOptions {
    pub path: Option<Seq<char>>,
    pub digest: Option<DigestView>,
    pub size: Option<u64>,
}

/// What a [`Target`] holds.
pub enum TargetView {
    GitHubRelease(GitHubReleaseView),
    Http(HttpView),
}

impl View for GitHubRelease {
    type V = GitHubReleaseView;

    open spec fn view(&self) -> GitHubReleaseView {
        GitHubReleaseView {
            host: self.host@,
            org: self.org@,
            repo: self.repo@,
            release: optional(self.release),
            options: GitHubOptions {
                path: optional(self.options.path),
                platforms: self.platforms@.take(self.platform_count as int),
                prefer_gnu: self.prefer_gnu,
            },
        }
    }
}

impl View for Http {
    type V = HttpView;

    open spec fn view(&self) -> HttpView {
        HttpView {
            url: self.url@,
            options: HttpOptions {
                path: optional(self.options.path),
                digest: optional_digest(self.digest),
                size: self.size,
            },
        }
    }
}

impl View for Target {
    type V = TargetView;

    open spec fn view(&self) -> TargetView {
        match *self {
            Target::GitHubRelease(release) => TargetView::GitHubRelease(release@),
            Target::Http(http) => TargetView::Http(http@),
        }
    }
}

/// Whether the first `count` platforms are a list of requested ones: each is of one operating
/// system and one architecture, and none is there twice.
pub open spec fn is_request(platforms: Seq<Platform>, count: usize) -> bool {
    &&& platforms.len() == 7
    &&& count <= 7
    &&& platforms.take(count as int).no_duplicates()
    &&& forall|i: int| 0 <= i < count ==> (#[trigger] platforms[i]) is Known
}

impl GitHubRelease {
    /// Whether the requested platforms are each of one operating system and one architecture, and
    /// none is requested twice.
    pub open spec fn wf(self) -> bool {
        is_request(self.platforms@, self.platform_count)
    }
}

// ---------------------------------------------------------------------------------------------
// Options

/// The options in the text after the `#`, which are separated by commas.
pub open spec fn option_list(options: Seq<char>) -> Seq<Seq<char>> {
    if options.len() == 0 {
        seq![]
    } else {
        text::pieces(options, seq![','])
    }
}

/// The name of an option: what precedes its first `=`.
pub open spec fn option_key(option: Seq<char>) -> Seq<char> {
    option.take(text::first_of(option, seq!['=']))
}

/// The value of an option: what follows its first `=`, if it has one.
pub open spec fn option_value(option: Seq<char>) -> Option<Seq<char>> {
    let at = text::first_of(option, seq!['=']);
    if at < option.len() {
        Some(option.skip(at + 1))
    } else {
        None
    }
}

/// The architecture of this name.
pub open spec fn arch_named(name: Seq<char>) -> Option<Architecture> {
    if name == "aarch64"@ || name == "arm64"@ {
        Some(Architecture::Aarch64)
    } else if name == "amd64"@ || name == "x64"@ || name == "x86_64"@ {
        Some(Architecture::X64)
    } else {
        None
    }
}

/// The operating system of this name.
pub open spec fn os_named(name: Seq<char>) -> Option<Os> {
    if name == "linux"@ {
        Some(Os::Linux)
    } else if name == "macos"@ {
        Some(Os::Macos)
    } else if name == "windows"@ {
        Some(Os::Windows)
    } else {
        None
    }
}

/// The platforms that a value of the option `platform` stands for: it is an architecture, an
/// operating system, or both separated by a hyphen.
pub open spec fn platforms_named(name: Seq<char>) -> Result<Seq<Platform>, TargetErrorView> {
    let at = text::first_of(name, seq!['-']);
    if at < name.len() {
        match (os_named(name.take(at)), arch_named(name.skip(at + 1))) {
            (None, _) => Err(TargetErrorView::UnknownOs(name.take(at))),
            (_, None) => Err(TargetErrorView::UnknownArch(name.skip(at + 1))),
            (Some(os), Some(arch)) => Ok(seq![Platform::Known { arch, os }]),
        }
    } else {
        match (arch_named(name), os_named(name)) {
            (Some(arch), _) => Ok(
                seq![
                    Platform::Known { arch, os: Os::Linux },
                    Platform::Known { arch, os: Os::Macos },
                    Platform::Known { arch, os: Os::Windows },
                ],
            ),
            (_, Some(os)) => Ok(
                seq![
                    Platform::Known { arch: Architecture::Aarch64, os },
                    Platform::Known { arch: Architecture::X64, os },
                ],
            ),
            (None, None) => Err(TargetErrorView::UnknownPlatform(name)),
        }
    }
}

/// `list` with `platform` at its end, unless it is already there.
pub open spec fn with_platform(list: Seq<Platform>, platform: Platform) -> Seq<Platform> {
    if list.contains(platform) {
        list
    } else {
        list.push(platform)
    }
}

/// `list` with each of `more` added to it, unless it is already there.
pub open spec fn with_platforms(list: Seq<Platform>, more: Seq<Platform>) -> Seq<Platform>
    decreases more.len(),
{
    if more.len() == 0 {
        list
    } else {
        with_platform(with_platforms(list, more.drop_last()), more.last())
    }
}

/// The options of a release after one more option.
pub open spec fn with_github_option(options: GitHubOptions, option: Seq<char>) -> Result<
    GitHubOptions,
    TargetErrorView,
> {
    let key = option_key(option);
    let value = option_value(option);
    if key == "path"@ {
        match value {
            Some(path) => Ok(GitHubOptions { path: Some(path), ..options }),
            None => Err(TargetErrorView::MissingPath),
        }
    } else if key == "platform"@ {
        match value {
            Some(name) => match platforms_named(name) {
                Ok(more) => Ok(
                    GitHubOptions {
                        platforms: with_platforms(options.platforms, more),
                        ..options
                    },
                ),
                Err(error) => Err(error),
            },
            None => Err(TargetErrorView::MissingValue("platform"@)),
        }
    } else if key == "gnu"@ {
        match value {
            Some(_) => Err(TargetErrorView::UnexpectedValue("gnu"@)),
            None => Ok(GitHubOptions { prefer_gnu: true, ..options }),
        }
    } else if key == "musl"@ {
        match value {
            Some(_) => Err(TargetErrorView::UnexpectedValue("musl"@)),
            None => Ok(GitHubOptions { prefer_gnu: false, ..options }),
        }
    } else {
        Err(TargetErrorView::UnknownOption(key))
    }
}

/// The options of a release, or the error of the first option which is wrong.
pub open spec fn github_options(list: Seq<Seq<char>>) -> Result<GitHubOptions, TargetErrorView>
    decreases list.len(),
{
    if list.len() == 0 {
        Ok(GitHubOptions { path: None, platforms: seq![], prefer_gnu: false })
    } else {
        match github_options(list.drop_last()) {
            Ok(options) => with_github_option(options, list.last()),
            Err(error) => Err(error),
        }
    }
}

/// The digest that an option gives, with the algorithm `algo` unless that is empty.
pub open spec fn digest_option(key: Seq<char>, value: Option<Seq<char>>, algo: Seq<char>) -> Result<
    DigestView,
    TargetErrorView,
> {
    match value {
        Some(data) => match crate::digest::read_digest(data, algo) {
            Ok(digest) => Ok(digest),
            Err(error) => Err(TargetErrorView::InvalidDigest(error)),
        },
        None => Err(TargetErrorView::MissingValue(key)),
    }
}

/// `options` with the digest that an option gave.
pub open spec fn with_digest(
    options: HttpOptions,
    digest: Result<DigestView, TargetErrorView>,
) -> Result<HttpOptions, TargetErrorView> {
    match digest {
        Ok(digest) => Ok(HttpOptions { digest: Some(digest), ..options }),
        Err(error) => Err(error),
    }
}

/// The options of a file after one more option.
pub open spec fn with_http_option(options: HttpOptions, option: Seq<char>) -> Result<
    HttpOptions,
    TargetErrorView,
> {
    let key = option_key(option);
    let value = option_value(option);
    if key == "path"@ {
        match value {
            Some(path) => Ok(HttpOptions { path: Some(path), ..options }),
            None => Err(TargetErrorView::MissingPath),
        }
    } else if key == "sha256"@ {
        with_digest(options, digest_option("sha256"@, value, "sha256"@))
    } else if key == "blake3"@ {
        with_digest(options, digest_option("blake3"@, value, "blake3"@))
    } else if key == "digest"@ {
        with_digest(options, digest_option("digest"@, value, ""@))
    } else if key == "size"@ {
        match value {
            Some(size) => match text::number(size) {
                Some(size) => Ok(HttpOptions { size: Some(size), ..options }),
                None => Err(TargetErrorView::InvalidSize),
            },
            None => Err(TargetErrorView::MissingValue("size"@)),
        }
    } else {
        Err(TargetErrorView::UnknownOption(key))
    }
}

/// The options of a file, or the error of the first option which is wrong.
pub open spec fn http_options(list: Seq<Seq<char>>) -> Result<HttpOptions, TargetErrorView>
    decreases list.len(),
{
    if list.len() == 0 {
        Ok(HttpOptions { path: None, digest: None, size: None })
    } else {
        match http_options(list.drop_last()) {
            Ok(options) => with_http_option(options, list.last()),
            Err(error) => Err(error),
        }
    }
}

// ---------------------------------------------------------------------------------------------
// Targets in text

/// A release with the options `options`.
pub open spec fn read_release(
    host: Seq<char>,
    org: Seq<char>,
    repo: Seq<char>,
    release: Option<Seq<char>>,
    options: Seq<char>,
) -> Result<GitHubReleaseView, TargetErrorView> {
    match github_options(option_list(options)) {
        Ok(options) => Ok(GitHubReleaseView { host, org, repo, release, options }),
        Err(error) => Err(error),
    }
}

/// A file with the options `options`.
pub open spec fn read_http(url: Seq<char>, options: Seq<char>) -> Result<HttpView, TargetErrorView> {
    match http_options(option_list(options)) {
        Ok(options) => Ok(HttpView { url, options }),
        Err(error) => Err(error),
    }
}

/// The release to which a page of `github.com` belongs, if it is the page of a repository or of
/// one of its releases; `Some(None)` stands for the latest release.
pub open spec fn page_release(segments: Seq<Seq<char>>) -> Option<Option<Seq<char>>> {
    if segments.len() == 2 {
        Some(None)
    } else if segments.len() < 2 || segments[2] != "releases"@ {
        None
    } else if segments.len() == 3 {
        Some(None)
    } else if segments[3] == "latest"@ {
        if segments.len() == 4 {
            Some(None)
        } else {
            None
        }
    } else if segments[3] == "tag"@ {
        if segments.len() == 5 {
            Some(Some(segments[4]))
        } else {
            None
        }
    } else if segments.len() == 4 && segments[3].len() > 0 {
        Some(Some(segments[3]))
    } else {
        None
    }
}

/// The text before the first `#`.
pub open spec fn before_hash(s: Seq<char>) -> Seq<char> {
    s.take(text::first_of(s, seq!['#']))
}

/// The text after the first `#`, or nothing.
pub open spec fn after_hash(s: Seq<char>) -> Seq<char> {
    let at = text::first_of(s, seq!['#']);
    if at < s.len() {
        s.skip(at + 1)
    } else {
        Seq::empty()
    }
}

/// `result` as the result of reading a target.
pub open spec fn release_target(result: Result<GitHubReleaseView, TargetErrorView>) -> Result<
    TargetView,
    TargetErrorView,
> {
    match result {
        Ok(release) => Ok(TargetView::GitHubRelease(release)),
        Err(error) => Err(error),
    }
}

/// `result` as the result of reading a target.
pub open spec fn http_target(result: Result<HttpView, TargetErrorView>) -> Result<
    TargetView,
    TargetErrorView,
> {
    match result {
        Ok(http) => Ok(TargetView::Http(http)),
        Err(error) => Err(error),
    }
}

/// The target of an `https:` URL.
pub open spec fn read_https(url: Seq<char>, options: Seq<char>) -> Result<
    TargetView,
    TargetErrorView,
> {
    let path = url.skip("https:"@.len() as int);
    let segments = text::pieces(path.skip("//github.com/"@.len() as int), seq!['/']);
    if "//github.com/"@.is_prefix_of(path) && page_release(segments) is Some {
        release_target(
            read_release(
                "github.com"@,
                segments[0],
                segments[1],
                page_release(segments)->0,
                options,
            ),
        )
    } else {
        http_target(read_http(url, options))
    }
}

/// The target of a `github:` URI: `org/repo` or `org/repo/release`, possibly after a host, which
/// has a dot in its name.
pub open spec fn read_github(path: Seq<char>, options: Seq<char>) -> Result<
    TargetView,
    TargetErrorView,
> {
    let all = text::pieces(path, seq!['/']);
    let has_host = all[0].contains('.');
    let segments = if has_host {
        all.skip(1)
    } else {
        all
    };
    let host = if has_host {
        all[0]
    } else {
        "github.com"@
    };
    if segments.len() < 2 {
        Err(TargetErrorView::MissingRepository)
    } else if segments.len() > 3 {
        Err(TargetErrorView::TooManySegments)
    } else {
        let release = if segments.len() == 3 {
            Some(segments[2])
        } else {
            None
        };
        release_target(read_release(host, segments[0], segments[1], release, options))
    }
}

/// The target that `s` writes.
pub open spec fn read_target(s: Seq<char>) -> Result<TargetView, TargetErrorView> {
    let before = before_hash(s);
    if "https:"@.is_prefix_of(before) {
        read_https(before, after_hash(s))
    } else if "github:"@.is_prefix_of(before) {
        read_github(before.skip("github:"@.len() as int), after_hash(s))
    } else {
        Err(TargetErrorView::UnknownScheme)
    }
}

// ---------------------------------------------------------------------------------------------
// Lemmas

/// An error stays the first one whatever follows.
proof fn lemma_github_error_stays(done: Seq<Seq<char>>, rest: Seq<Seq<char>>)
    requires
        github_options(done) is Err,
    ensures
        github_options(done + rest) == github_options(done),
    decreases rest.len(),
{
    if rest.len() == 0 {
        assert(done + rest == done);
    } else {
        lemma_github_error_stays(done, rest.drop_last());
        assert((done + rest).drop_last() == done + rest.drop_last());
    }
}

/// An error stays the first one whatever follows.
proof fn lemma_http_error_stays(done: Seq<Seq<char>>, rest: Seq<Seq<char>>)
    requires
        http_options(done) is Err,
    ensures
        http_options(done + rest) == http_options(done),
    decreases rest.len(),
{
    if rest.len() == 0 {
        assert(done + rest == done);
    } else {
        lemma_http_error_stays(done, rest.drop_last());
        assert((done + rest).drop_last() == done + rest.drop_last());
    }
}

/// A list of different platforms, each of one operating system and one architecture, has at most
/// six of them.
proof fn lemma_at_most_six(list: Seq<Platform>)
    requires
        list.no_duplicates(),
        forall|i: int| 0 <= i < list.len() ==> (#[trigger] list[i]) is Known,
    ensures
        list.len() <= 6,
{
    let known = crate::target::all_platforms().take(6);
    assert forall|p: Platform| list.to_set().contains(p) implies #[trigger] known.to_set().contains(
        p,
    ) by {
        assert(list.contains(p));
        let i: int = match p {
            Platform::Known { arch: Architecture::Aarch64, os: Os::Linux } => 0,
            Platform::Known { arch: Architecture::X64, os: Os::Linux } => 1,
            Platform::Known { arch: Architecture::Aarch64, os: Os::Macos } => 2,
            Platform::Known { arch: Architecture::X64, os: Os::Macos } => 3,
            Platform::Known { arch: Architecture::Aarch64, os: Os::Windows } => 4,
            _ => 5,
        };
        assert(known[i] == p);
    }
    list.unique_seq_to_set();
    known.lemma_cardinality_of_set();
    vstd::set_lib::lemma_len_subset(list.to_set(), known.to_set());
}

// ---------------------------------------------------------------------------------------------
// Reading options

/// Splits an option into its name and its value.
fn key_value(option: &str) -> (parts: (&str, Option<&str>))
    ensures
        parts.0@ == option_key(option@),
        optional_str(parts.1) == option_value(option@),
{
    match text::split_once_at(option, '=') {
        Some((key, value)) => (key, Some(value)),
        None => {
            assert(option@.take(option@.len() as int) == option@);
            (option, None)
        },
    }
}

/// The options in the text after the `#`.
fn list_options(options: &str) -> (list: Vec<&str>)
    ensures
        text::texts(list@) == option_list(options@),
{
    if options.is_empty() {
        let list: Vec<&str> = Vec::new();
        assert(text::texts(list@) == Seq::<Seq<char>>::empty());
        list
    } else {
        text::split_at(options, ',')
    }
}

/// The architecture of this name.
fn find_arch(name: &str) -> (arch: Option<Architecture>)
    ensures
        arch == arch_named(name@),
{
    if text::same(name, "aarch64") || text::same(name, "arm64") {
        Some(Architecture::Aarch64)
    } else if text::same(name, "amd64") || text::same(name, "x64") || text::same(name, "x86_64") {
        Some(Architecture::X64)
    } else {
        None
    }
}

/// The operating system of this name.
fn find_os(name: &str) -> (os: Option<Os>)
    ensures
        os == os_named(name@),
{
    if text::same(name, "linux") {
        Some(Os::Linux)
    } else if text::same(name, "macos") {
        Some(Os::Macos)
    } else if text::same(name, "windows") {
        Some(Os::Windows)
    } else {
        None
    }
}

/// Adds a platform to the requested ones, unless it is already requested.
fn add_platform(
    platforms: &mut [Platform; 7],
    platform_count: &mut usize,
    arch: Architecture,
    os: Os,
)
    requires
        is_request(old(platforms)@, *old(platform_count)),
    ensures
        is_request(final(platforms)@, *final(platform_count)),
        final(platforms)@.take(*final(platform_count) as int) == with_platform(
            old(platforms)@.take(*old(platform_count) as int),
            Platform::Known { arch, os },
        ),
        *final(platform_count) >= *old(platform_count),
        forall|i: int|
            *final(platform_count) <= i < 7 ==> (#[trigger] final(platforms)@[i]) == old(
                platforms,
            )@[i],
{
    let platform: Platform = Platform::Known { arch, os };
    let ghost list = platforms@.take(*platform_count as int);
    let mut i: usize = 0;
    while i < *platform_count
        invariant
            i <= *platform_count <= 7,
            platform == (Platform::Known { arch, os }),
            *platform_count == *old(platform_count),
            platforms@ == old(platforms)@,
            is_request(platforms@, *platform_count),
            list == platforms@.take(*platform_count as int),
            forall|j: int| 0 <= j < i ==> list[j] != platform,
        decreases *platform_count - i,
    {
        assert(list[i as int] == platforms@[i as int]);
        if platforms[i] == platform {
            assert(list[i as int] == platform);
            return;
        }
        i += 1;
    }
    assert(!list.contains(platform));
    proof {
        assert forall|j: int| 0 <= j < list.push(platform).len() implies (#[trigger] list.push(
            platform,
        )[j]) is Known by {
            if j < list.len() {
                assert(list[j] == platforms@[j]);
            }
        }
        lemma_at_most_six(list.push(platform));
    }
    platforms[*platform_count] = platform;
    *platform_count += 1;
    assert(platforms@.take(*platform_count as int) == list.push(platform));
    assert forall|j: int| 0 <= j < *platform_count implies (#[trigger] platforms@[j]) is Known by {
        assert(platforms@[j] == list.push(platform)[j]);
    }
}

/// Adds to the requested platforms those that `s` stands for: an architecture, an operating
/// system, or both separated by a hyphen.
pub fn parse_platform(
    platforms: &mut [Platform; 7],
    platform_count: &mut usize,
    s: &str,
) -> (result: Result<(), TargetError>)
    requires
        is_request(old(platforms)@, *old(platform_count)),
    ensures
        is_request(final(platforms)@, *final(platform_count)),
        *final(platform_count) >= *old(platform_count),
        forall|i: int|
            *final(platform_count) <= i < 7 ==> (#[trigger] final(platforms)@[i]) == old(
                platforms,
            )@[i],
        match result {
            Ok(()) => {
                &&& platforms_named(s@) is Ok
                &&& final(platforms)@.take(*final(platform_count) as int) == with_platforms(
                    old(platforms)@.take(*old(platform_count) as int),
                    platforms_named(s@)->Ok_0,
                )
            },
            Err(error) => {
                &&& platforms_named(s@) == Err::<Seq<Platform>, TargetErrorView>(error@)
                &&& final(platforms)@ == old(platforms)@
                &&& *final(platform_count) == *old(platform_count)
            },
        },
{
    reveal_with_fuel(with_platforms, 4);
    let ghost list = platforms@.take(*platform_count as int);
    if let Some((os_name, arch_name)) = text::split_once_at(s, '-') {
        let os: Os = match find_os(os_name) {
            Some(os) => os,
            None => {
                return Err(TargetError::UnknownOs(os_name.to_owned()));
            },
        };
        let arch: Architecture = match find_arch(arch_name) {
            Some(arch) => arch,
            None => {
                return Err(TargetError::UnknownArch(arch_name.to_owned()));
            },
        };
        proof {
            let one = seq![Platform::Known { arch, os }];
            assert(one.drop_last() == Seq::<Platform>::empty());
        }
        add_platform(platforms, platform_count, arch, os);
    } else if let Some(arch) = find_arch(s) {
        proof {
            let a = Platform::Known { arch, os: Os::Linux };
            let b = Platform::Known { arch, os: Os::Macos };
            let c = Platform::Known { arch, os: Os::Windows };
            assert(seq![a, b, c].drop_last() == seq![a, b]);
            assert(seq![a, b].drop_last() == seq![a]);
            assert(seq![a].drop_last() == Seq::<Platform>::empty());
        }
        add_platform(platforms, platform_count, arch, Os::Linux);
        add_platform(platforms, platform_count, arch, Os::Macos);
        add_platform(platforms, platform_count, arch, Os::Windows);
    } else if let Some(os) = find_os(s) {
        proof {
            let a = Platform::Known { arch: Architecture::Aarch64, os };
            let b = Platform::Known { arch: Architecture::X64, os };
            assert(seq![a, b].drop_last() == seq![a]);
            assert(seq![a].drop_last() == Seq::<Platform>::empty());
        }
        add_platform(platforms, platform_count, Architecture::Aarch64, os);
        add_platform(platforms, platform_count, Architecture::X64, os);
    } else {
        return Err(TargetError::UnknownPlatform(s.to_owned()));
    }
    Ok(())
}

/// Reads the options of a release.
pub fn parse_gh_release(
    host: &str,
    org: &str,
    repo: &str,
    release: Option<&str>,
    options: &str,
) -> (result: Result<GitHubRelease, TargetError>)
    ensures
        match result {
            Ok(found) => {
                &&& read_release(
                    host@,
                    org@,
                    repo@,
                    optional_str(release),
                    options@,
                ) == Ok::<GitHubReleaseView, TargetErrorView>(found@)
                &&& found.wf()
            },
            Err(error) => read_release(
                host@,
                org@,
                repo@,
                optional_str(release),
                options@,
            ) == Err::<GitHubReleaseView, TargetErrorView>(error@),
        },
{
    let mut path: Option<String> = None;
    let mut platforms: [Platform; 7] = Platform::all();
    let mut platform_count: usize = 0;
    let mut prefer_gnu: bool = false;
    let list: Vec<&str> = list_options(options);
    let ghost all = text::texts(list@);
    let ghost mut state = GitHubOptions { path: None, platforms: seq![], prefer_gnu: false };
    let mut i: usize = 0;
    assert(all.take(0) == Seq::<Seq<char>>::empty());
    assert(platforms@.take(0) == Seq::<Platform>::empty());
    while i < list.len()
        invariant
            i <= list@.len(),
            all == text::texts(list@),
            all == option_list(options@),
            is_request(platforms@, platform_count),
            state == (GitHubOptions {
                path: optional(path),
                platforms: platforms@.take(platform_count as int),
                prefer_gnu,
            }),
            github_options(all.take(i as int)) == Ok::<GitHubOptions, TargetErrorView>(state),
        decreases list@.len() - i,
    {
        let option: &str = list[i];
        let ghost step = with_github_option(state, option@);
        proof {
            assert(option@ == all[i as int]);
            assert(all.take(i + 1).drop_last() == all.take(i as int));
            assert(all.take(i + 1).last() == option@);
            assert(github_options(all.take(i + 1)) == step);
            if step is Err {
                lemma_github_error_stays(all.take(i + 1), all.skip(i + 1));
                assert(all.take(i + 1) + all.skip(i + 1) == all);
            }
        }
        let (key, value) = key_value(option);
        if text::same(key, "path") {
            match value {
                Some(value) => {
                    path = Some(value.to_owned());
                },
                None => {
                    return Err(TargetError::MissingPath);
                },
            }
        } else if text::same(key, "platform") {
            match value {
                Some(value) => {
                    match parse_platform(&mut platforms, &mut platform_count, value) {
                        Ok(()) => {},
                        Err(error) => {
                            return Err(error);
                        },
                    }
                },
                None => {
                    return Err(TargetError::MissingValue("platform"));
                },
            }
        } else if text::same(key, "gnu") {
            if value.is_some() {
                return Err(TargetError::UnexpectedValue("gnu"));
            }
            prefer_gnu = true;
        } else if text::same(key, "musl") {
            if value.is_some() {
                return Err(TargetError::UnexpectedValue("musl"));
            }
            prefer_gnu = false;
        } else {
            return Err(TargetError::UnknownOption(key.to_owned()));
        }
        proof {
            state = step->Ok_0;
        }
        i += 1;
    }
    assert(all.take(i as int) == all);
    let release: Option<String> = match release {
        Some(release) => Some(release.to_owned()),
        None => None,
    };
    Ok(
        GitHubRelease {
            host: host.to_owned(),
            org: org.to_owned(),
            repo: repo.to_owned(),
            release,
            platforms,
            platform_count,
            prefer_gnu,
            options: CommonOptions { path },
        },
    )
}

/// Reads the digest that is the value of the option `key`, with the algorithm `algo` unless that
/// is empty.
fn parse_digest_option(key: &'static str, value: Option<&str>, algo: &str) -> (result: Result<
    Digest,
    TargetError,
>)
    ensures
        match result {
            Ok(digest) => digest_option(key@, optional_str(value), algo@) == Ok::<
                DigestView,
                TargetErrorView,
            >(digest@),
            Err(error) => digest_option(key@, optional_str(value), algo@) == Err::<
                DigestView,
                TargetErrorView,
            >(error@),
        },
{
    match value {
        Some(value) => match Digest::parse(value, algo) {
            Ok(digest) => Ok(digest),
            Err(error) => Err(TargetError::InvalidDigest(error)),
        },
        None => Err(TargetError::MissingValue(key)),
    }
}

/// Reads the options of a file.
pub fn parse_http(url: &str, options: &str) -> (result: Result<Http, TargetError>)
    ensures
        match result {
            Ok(found) => read_http(url@, options@) == Ok::<HttpView, TargetErrorView>(found@),
            Err(error) => read_http(url@, options@) == Err::<HttpView, TargetErrorView>(error@),
        },
{
    let mut path: Option<String> = None;
    let mut digest: Option<Digest> = None;
    let mut size: Option<u64> = None;
    let list: Vec<&str> = list_options(options);
    let ghost all = text::texts(list@);
    let ghost mut state = HttpOptions { path: None, digest: None, size: None };
    let mut i: usize = 0;
    assert(all.take(0) == Seq::<Seq<char>>::empty());
    while i < list.len()
        invariant
            i <= list@.len(),
            all == text::texts(list@),
            all == option_list(options@),
            state == (HttpOptions {
                path: optional(path),
                digest: optional_digest(digest),
                size,
            }),
            http_options(all.take(i as int)) == Ok::<HttpOptions, TargetErrorView>(state),
        decreases list@.len() - i,
    {
        let option: &str = list[i];
        let ghost step = with_http_option(state, option@);
        proof {
            assert(option@ == all[i as int]);
            assert(all.take(i + 1).drop_last() == all.take(i as int));
            assert(all.take(i + 1).last() == option@);
            assert(http_options(all.take(i + 1)) == step);
            if step is Err {
                lemma_http_error_stays(all.take(i + 1), all.skip(i + 1));
                assert(all.take(i + 1) + all.skip(i + 1) == all);
            }
        }
        let (key, value) = key_value(option);
        if text::same(key, "path") {
            match value {
                Some(value) => {
                    path = Some(value.to_owned());
                },
                None => {
                    return Err(TargetError::MissingPath);
                },
            }
        } else if text::same(key, "sha256") {
            match parse_digest_option("sha256", value, "sha256") {
                Ok(value) => {
                    digest = Some(value);
                },
                Err(error) => {
                    return Err(error);
                },
            }
        } else if text::same(key, "blake3") {
            match parse_digest_option("blake3", value, "blake3") {
                Ok(value) => {
                    digest = Some(value);
                },
                Err(error) => {
                    return Err(error);
                },
            }
        } else if text::same(key, "digest") {
            match parse_digest_option("digest", value, "") {
                Ok(value) => {
                    digest = Some(value);
                },
                Err(error) => {
                    return Err(error);
                },
            }
        } else if text::same(key, "size") {
            match value {
                Some(value) => {
                    match text::parse_number(value) {
                        Some(value) => {
                            size = Some(value);
                        },
                        None => {
                            return Err(TargetError::InvalidSize);
                        },
                    }
                },
                None => {
                    return Err(TargetError::MissingValue("size"));
                },
            }
        } else {
            return Err(TargetError::UnknownOption(key.to_owned()));
        }
        proof {
            state = step->Ok_0;
        }
        i += 1;
    }
    assert(all.take(i as int) == all);
    Ok(Http { url: url.to_owned(), digest, size, options: CommonOptions { path } })
}

// ---------------------------------------------------------------------------------------------
// Reading targets

/// The release to which a page of `github.com` belongs, if it is the page of a repository or of
/// one of its releases; `Some(None)` stands for the latest release.
fn find_release<'a>(segments: &Vec<&'a str>) -> (release: Option<Option<&'a str>>)
    ensures
        match release {
            Some(release) => page_release(text::texts(segments@)) == Some(optional_str(release)),
            None => page_release(text::texts(segments@)) is None,
        },
{
    if segments.len() == 2 {
        Some(None)
    } else if segments.len() < 2 || !text::same(segments[2], "releases") {
        None
    } else if segments.len() == 3 {
        Some(None)
    } else if text::same(segments[3], "latest") {
        if segments.len() == 4 {
            Some(None)
        } else {
            None
        }
    } else if text::same(segments[3], "tag") {
        if segments.len() == 5 {
            Some(Some(segments[4]))
        } else {
            None
        }
    } else if segments.len() == 4 && !segments[3].is_empty() {
        Some(Some(segments[3]))
    } else {
        None
    }
}

/// Reads an `https:` URL.
fn parse_https(url: &str, options: &str) -> (result: Result<Target, TargetError>)
    requires
        "https:"@.is_prefix_of(url@),
    ensures
        match result {
            Ok(target) => {
                &&& read_https(url@, options@) == Ok::<TargetView, TargetErrorView>(target@)
                &&& target matches Target::GitHubRelease(release) ==> release.wf()
            },
            Err(error) => read_https(url@, options@) == Err::<TargetView, TargetErrorView>(error@),
        },
{
    if let Some(path) = text::strip_prefix(url, "https:") {
        if let Some(gh_path) = text::strip_prefix(path, "//github.com/") {
            let segments: Vec<&str> = text::split_at(gh_path, '/');
            if let Some(release) = find_release(&segments) {
                return match parse_gh_release(
                    "github.com",
                    segments[0],
                    segments[1],
                    release,
                    options,
                ) {
                    Ok(release) => Ok(Target::GitHubRelease(release)),
                    Err(error) => Err(error),
                };
            }
        }
    }
    match parse_http(url, options) {
        Ok(http) => Ok(Target::Http(http)),
        Err(error) => Err(error),
    }
}

/// Reads what follows `github:` in a URI.
fn parse_github(path: &str, options: &str) -> (result: Result<Target, TargetError>)
    ensures
        match result {
            Ok(target) => {
                &&& read_github(path@, options@) == Ok::<TargetView, TargetErrorView>(target@)
                &&& target matches Target::GitHubRelease(release) ==> release.wf()
            },
            Err(error) => read_github(path@, options@) == Err::<TargetView, TargetErrorView>(
                error@,
            ),
        },
{
    let segments: Vec<&str> = text::split_at(path, '/');
    let ghost all = text::texts(segments@);
    assert(all.len() > 0);
    let dot: [char; 1] = ['.'];
    assert(dot@ == seq!['.']);
    let first: &str = segments[0];
    let at: usize = text::find_first(first, &dot);
    let has_host: bool = at < first.unicode_len();
    proof {
        text::lemma_first_of_bounds(first@, seq!['.']);
        assert(all[0] == first@);
        if has_host {
            assert(first@[at as int] == '.');
        } else {
            assert forall|i: int| 0 <= i < first@.len() implies first@[i] != '.' by {
                assert(!seq!['.'].contains(first@[i]));
                assert(seq!['.'][0] == '.');
            }
        }
        assert(has_host == all[0].contains('.'));
    }
    let start: usize = if has_host { 1 } else { 0 };
    let host: &str = if has_host { first } else { "github.com" };
    let count: usize = segments.len() - start;
    if count < 2 {
        return Err(TargetError::MissingRepository);
    }
    if count > 3 {
        return Err(TargetError::TooManySegments);
    }
    let release: Option<&str> = if count == 3 { Some(segments[start + 2]) } else { None };
    match parse_gh_release(host, segments[start], segments[start + 1], release, options) {
        Ok(release) => Ok(Target::GitHubRelease(release)),
        Err(error) => Err(error),
    }
}

impl FromStr for Target {
    type Err = TargetError;

    /// Reads a target: an `https:` URL or a `github:` URI, possibly with options after a `#`.
    fn from_str(s: &str) -> (result: Result<Target, TargetError>)
        ensures
            match result {
                Ok(target) => {
                    &&& read_target(s@) == Ok::<TargetView, TargetErrorView>(target@)
                    &&& target matches Target::GitHubRelease(release) ==> release.wf()
                },
                Err(error) => read_target(s@) == Err::<TargetView, TargetErrorView>(error@),
            },
    {
        let (before, after) = match text::split_once_at(s, '#') {
            Some((before, after)) => (before, after),
            None => {
                let nothing: &str = "";
                proof {
                    reveal_strlit("");
                    assert(nothing@ == Seq::<char>::empty());
                    assert(s@.take(s@.len() as int) == s@);
                }
                (s, nothing)
            },
        };
        if text::starts_with(before, "https:") {
            parse_https(before, after)
        } else if let Some(path) = text::strip_prefix(before, "github:") {
            parse_github(path, after)
        } else {
            Err(TargetError::UnknownScheme)
        }
    }
}

} // verus!
