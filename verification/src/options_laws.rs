//! Laws of [`crate::options`]: which texts are the same target, and what repeated options do.

use vstd::prelude::*;

use crate::digest::{DigestErrorView, DigestView};
use crate::options;
use crate::options::{
    GitHubOptions, GitHubReleaseView, HttpOptions, HttpView, TargetErrorView, TargetView,
};
use crate::outside;
use crate::target::{Architecture, Os, Platform};
use crate::text;

verus! {

/// What `options` gives to the target, where it is either empty or starts with a `#`.
pub open spec fn given(options: Seq<char>) -> Seq<char> {
    if options.len() == 0 {
        options
    } else {
        options.skip(1)
    }
}

/// A target is read as what precedes its options, and its options.
proof fn lemma_hash(target: Seq<char>, options: Seq<char>)
    requires
        !target.contains('#'),
        options.len() == 0 || options[0] == '#',
    ensures
        options::before_hash(target + options) == target,
        options::after_hash(target + options) == given(options),
{
    let s = target + options;
    let n = target.len() as int;
    assert forall|j: int| 0 <= j < n implies !seq!['#'].contains(#[trigger] s[j]) by {
        assert(target.contains(target[j]));
    }
    assert(seq!['#'][0] == '#');
    text::lemma_first_of(s, seq!['#'], n);
    assert(s.take(n) == target);
    if options.len() > 0 {
        assert(s.skip(n + 1) == options.skip(1));
    } else {
        assert(options == Seq::<char>::empty());
    }
}

/// How a page of `github.com` is read.
proof fn lemma_page(path: Seq<char>, options: Seq<char>)
    requires
        !path.contains('#'),
        options.len() == 0 || options[0] == '#',
        options::page_release(text::pieces(path, seq!['/'])) is Some,
    ensures
        options::read_target("https://github.com/"@ + path + options) == options::release_target(
            options::read_release(
                "github.com"@,
                text::pieces(path, seq!['/'])[0],
                text::pieces(path, seq!['/'])[1],
                options::page_release(text::pieces(path, seq!['/']))->0,
                given(options),
            ),
        ),
{
    let url = "https://github.com/"@ + path;
    assert(!"https://github.com/"@.contains('#') && "https://github.com/"@ == "https:"@
        + "//github.com/"@ && "https:"@.len() == 6 && "//github.com/"@.len() == 13) by {
        reveal_strlit("https:");
        reveal_strlit("//github.com/");
        reveal_strlit("https://github.com/");
    }
    lemma_hash(url, options);
    assert("https:"@.is_prefix_of(url)) by {
        assert(url.take(6) == "https:"@);
    }
    assert(url.skip(6) == "//github.com/"@ + path);
    assert(("//github.com/"@ + path).skip(13) == path);
    assert("//github.com/"@.is_prefix_of("//github.com/"@ + path)) by {
        assert(("//github.com/"@ + path).take(13) == "//github.com/"@);
    }
}

/// How a `github:` URI is read.
proof fn lemma_uri(path: Seq<char>, options: Seq<char>)
    requires
        !path.contains('#'),
        options.len() == 0 || options[0] == '#',
    ensures
        options::read_target("github:"@ + path + options) == options::read_github(path, given(options)),
{
    let uri = "github:"@ + path;
    assert(!"github:"@.contains('#') && "github:"@.len() == 7 && "github:"@[0] == 'g'
        && "https:"@.len() == 6 && "https:"@[0] == 'h') by {
        reveal_strlit("github:");
        reveal_strlit("https:");
    }
    lemma_hash(uri, options);
    assert(uri[0] == 'g');
    assert(!"https:"@.is_prefix_of(uri)) by {
        if "https:"@.is_prefix_of(uri) {
            assert(uri[0] == "https:"@[0]);
        }
    }
    assert("github:"@.is_prefix_of(uri)) by {
        assert(uri.take(7) == "github:"@);
    }
    assert(uri.skip(7) == path);
}

/// The segments of the path of a repository.
proof fn lemma_repository(org: Seq<char>, repo: Seq<char>)
    requires
        !org.contains('/'),
        !repo.contains('/'),
    ensures
        text::pieces(org + seq!['/'] + repo, seq!['/']) == seq![org, repo],
{
    text::lemma_only_piece(repo, '/');
    text::lemma_first_piece(org, '/', repo);
    assert(seq![org] + seq![repo] == seq![org, repo]);
}

/// The segments of three names.
proof fn lemma_three(a: Seq<char>, b: Seq<char>, c: Seq<char>)
    requires
        !a.contains('/'),
        !b.contains('/'),
        !c.contains('/'),
    ensures
        text::pieces(a + seq!['/'] + b + seq!['/'] + c, seq!['/']) == seq![a, b, c],
{
    lemma_repository(b, c);
    text::lemma_first_piece(a, '/', b + seq!['/'] + c);
    assert(a + seq!['/'] + b + seq!['/'] + c == a + seq!['/'] + (b + seq!['/'] + c));
    assert(seq![a] + seq![b, c] == seq![a, b, c]);
}

/// `github:org/repo`, `https://github.com/org/repo`, `https://github.com/org/repo/releases` and
/// `https://github.com/org/repo/releases/latest`, with the same options, are the same target: the
/// latest release of that repository.
pub proof fn repository_uri_is_its_page(org: Seq<char>, repo: Seq<char>, options: Seq<char>)
    requires
        !org.contains('/') && !org.contains('#') && !org.contains('.'),
        !repo.contains('/') && !repo.contains('#'),
        options.len() == 0 || options[0] == '#',
    ensures
        options::read_target("github:"@ + (org + seq!['/'] + repo) + options) == options::release_target(
            options::read_release("github.com"@, org, repo, None, given(options)),
        ),
        options::read_target("https://github.com/"@ + (org + seq!['/'] + repo) + options) == options::release_target(
            options::read_release("github.com"@, org, repo, None, given(options)),
        ),
        options::read_target(
            "https://github.com/"@ + (org + seq!['/'] + repo + "/releases"@) + options,
        ) == options::release_target(
            options::read_release("github.com"@, org, repo, None, given(options)),
        ),
        options::read_target(
            "https://github.com/"@ + (org + seq!['/'] + repo + "/releases/latest"@) + options,
        ) == options::release_target(
            options::read_release("github.com"@, org, repo, None, given(options)),
        ),
{
    let path = org + seq!['/'] + repo;
    lemma_repository(org, repo);
    assert(!path.contains('#'));
    lemma_uri(path, options);
    lemma_page(path, options);

    assert("/releases"@ == seq!['/'] + "releases"@ && "/releases/latest"@ == seq!['/'] + "releases"@
        + seq!['/'] + "latest"@ && !"releases"@.contains('/') && !"latest"@.contains('/')
        && !"/releases"@.contains('#') && !"/releases/latest"@.contains('#')) by {
        reveal_strlit("/releases");
        reveal_strlit("/releases/latest");
        reveal_strlit("releases");
        reveal_strlit("latest");
    }
    let releases = path + "/releases"@;
    lemma_three(org, repo, "releases"@);
    assert(releases == org + seq!['/'] + repo + seq!['/'] + "releases"@);
    assert(!releases.contains('#'));
    lemma_page(releases, options);

    let latest = path + "/releases/latest"@;
    let rest = repo + seq!['/'] + "releases"@ + seq!['/'] + "latest"@;
    lemma_three(repo, "releases"@, "latest"@);
    text::lemma_first_piece(org, '/', rest);
    assert(latest == org + seq!['/'] + rest);
    assert(seq![org] + seq![repo, "releases"@, "latest"@] == seq![
        org,
        repo,
        "releases"@,
        "latest"@,
    ]);
    assert(!latest.contains('#'));
    lemma_page(latest, options);
}

/// `github:org/repo/release` and `https://github.com/org/repo/releases/tag/release`, with the same
/// options, are the same target: that release of that repository.
pub proof fn release_uri_is_its_page(
    org: Seq<char>,
    repo: Seq<char>,
    release: Seq<char>,
    options: Seq<char>,
)
    requires
        !org.contains('/') && !org.contains('#') && !org.contains('.'),
        !repo.contains('/') && !repo.contains('#'),
        !release.contains('/') && !release.contains('#'),
        options.len() == 0 || options[0] == '#',
    ensures
        options::read_target("github:"@ + (org + seq!['/'] + repo + seq!['/'] + release) + options)
            == options::release_target(
            options::read_release("github.com"@, org, repo, Some(release), given(options)),
        ),
        options::read_target(
            "https://github.com/"@ + (org + seq!['/'] + repo + "/releases/tag/"@ + release)
                + options,
        ) == options::release_target(
            options::read_release("github.com"@, org, repo, Some(release), given(options)),
        ),
{
    let path = org + seq!['/'] + repo + seq!['/'] + release;
    lemma_three(org, repo, release);
    assert(!path.contains('#'));
    lemma_uri(path, options);

    let page = org + seq!['/'] + repo + "/releases/tag/"@ + release;
    assert("/releases/tag/"@ == seq!['/'] + "releases"@ + seq!['/'] + "tag"@ + seq!['/']
        && !"releases"@.contains('/') && !"tag"@.contains('/') && !"/releases/tag/"@.contains('#')
        && "tag"@ != "latest"@) by {
        reveal_strlit("/releases/tag/");
        reveal_strlit("releases");
        reveal_strlit("tag");
        reveal_strlit("latest");
        assert("tag"@.len() == 3);
        assert("latest"@.len() == 6);
    }
    let rest = "releases"@ + seq!['/'] + "tag"@ + seq!['/'] + release;
    lemma_three("releases"@, "tag"@, release);
    text::lemma_first_piece(repo, '/', rest);
    text::lemma_first_piece(org, '/', repo + seq!['/'] + rest);
    assert(page == org + seq!['/'] + (repo + seq!['/'] + rest));
    assert(seq![org] + (seq![repo] + seq!["releases"@, "tag"@, release]) == seq![
        org,
        repo,
        "releases"@,
        "tag"@,
        release,
    ]);
    assert(!page.contains('#'));
    lemma_page(page, options);
}

/// `https://github.com/org/repo/releases/release` is that release of that repository, as long as
/// the release is not called `latest` or `tag`.
pub proof fn release_may_follow_releases(
    org: Seq<char>,
    repo: Seq<char>,
    release: Seq<char>,
    options: Seq<char>,
)
    requires
        !org.contains('/') && !org.contains('#'),
        !repo.contains('/') && !repo.contains('#'),
        !release.contains('/') && !release.contains('#'),
        release.len() > 0 && release != "latest"@ && release != "tag"@,
        options.len() == 0 || options[0] == '#',
    ensures
        options::read_target(
            "https://github.com/"@ + (org + seq!['/'] + repo + "/releases/"@ + release) + options,
        ) == options::release_target(
            options::read_release("github.com"@, org, repo, Some(release), given(options)),
        ),
{
    let page = org + seq!['/'] + repo + "/releases/"@ + release;
    assert("/releases/"@ == seq!['/'] + "releases"@ + seq!['/'] && !"releases"@.contains('/')
        && !"/releases/"@.contains('#')) by {
        reveal_strlit("/releases/");
        reveal_strlit("releases");
    }
    lemma_three(repo, "releases"@, release);
    let rest = repo + seq!['/'] + "releases"@ + seq!['/'] + release;
    text::lemma_first_piece(org, '/', rest);
    assert(page == org + seq!['/'] + rest);
    assert(seq![org] + seq![repo, "releases"@, release] == seq![org, repo, "releases"@, release]);
    assert(!page.contains('#'));
    lemma_page(page, options);
}

/// `github:host/org/repo/release` is a release on another host, whose name has a dot.
pub proof fn uri_may_name_a_host(
    host: Seq<char>,
    org: Seq<char>,
    repo: Seq<char>,
    release: Seq<char>,
    options: Seq<char>,
)
    requires
        !host.contains('/') && !host.contains('#') && host.contains('.'),
        !org.contains('/') && !org.contains('#'),
        !repo.contains('/') && !repo.contains('#'),
        !release.contains('/') && !release.contains('#'),
        options.len() == 0 || options[0] == '#',
    ensures
        options::read_target("github:"@ + (host + seq!['/'] + org + seq!['/'] + repo) + options)
            == options::release_target(options::read_release(host, org, repo, None, given(options))),
        options::read_target(
            "github:"@ + (host + seq!['/'] + (org + seq!['/'] + repo + seq!['/'] + release))
                + options,
        ) == options::release_target(options::read_release(host, org, repo, Some(release), given(options))),
{
    let latest = host + seq!['/'] + org + seq!['/'] + repo;
    lemma_three(host, org, repo);
    assert(!latest.contains('#'));
    lemma_uri(latest, options);
    assert(seq![host, org, repo].skip(1) == seq![org, repo]);

    let path = host + seq!['/'] + (org + seq!['/'] + repo + seq!['/'] + release);
    lemma_three(org, repo, release);
    text::lemma_first_piece(host, '/', org + seq!['/'] + repo + seq!['/'] + release);
    assert(!path.contains('#'));
    lemma_uri(path, options);
    assert((seq![host] + seq![org, repo, release]).skip(1) == seq![org, repo, release]);
}

/// An option with a value has the name before its `=`, and the value after it.
proof fn lemma_option(key: Seq<char>, value: Seq<char>)
    requires
        !key.contains('='),
    ensures
        options::option_key(key + seq!['='] + value) == key,
        options::option_value(key + seq!['='] + value) == Some(value),
{
    let option = key + seq!['='] + value;
    let n = key.len() as int;
    assert forall|j: int| 0 <= j < n implies !seq!['='].contains(#[trigger] option[j]) by {
        assert(key.contains(key[j]));
        assert(option[j] == key[j]);
    }
    assert(option[n] == '=');
    assert(seq!['='][0] == '=');
    text::lemma_first_of(option, seq!['='], n);
    assert(option.take(n) == key);
    assert(option.skip(n + 1) == value);
}

/// `sha256=<hash>` is `digest=sha256:<hash>`, and `blake3=<hash>` is `digest=blake3:<hash>`,
/// whether or not the hash is one.
pub proof fn algorithm_may_be_the_option(options: HttpOptions, hash: Seq<char>)
    ensures
        options::with_http_option(options, "sha256"@ + seq!['='] + hash) == options::with_http_option(
            options,
            "digest"@ + seq!['='] + ("sha256:"@ + hash),
        ),
        options::with_http_option(options, "blake3"@ + seq!['='] + hash) == options::with_http_option(
            options,
            "digest"@ + seq!['='] + ("blake3:"@ + hash),
        ),
{
    assert(!"sha256"@.contains('=') && !"blake3"@.contains('=') && !"digest"@.contains('=')
        && "digest"@ != "sha256"@ && "digest"@ != "blake3"@ && "digest"@ != "path"@ && "blake3"@
        != "path"@ && "blake3"@ != "sha256"@ && "sha256"@ != "path"@) by {
        reveal_strlit("sha256");
        reveal_strlit("blake3");
        reveal_strlit("digest");
        reveal_strlit("path");
        assert("sha256"@[0] == 's' && "blake3"@[0] == 'b' && "digest"@[0] == 'd' && "path"@[0]
            == 'p');
    }
    lemma_option("sha256"@, hash);
    lemma_option("blake3"@, hash);
    lemma_option("digest"@, "sha256:"@ + hash);
    lemma_option("digest"@, "blake3:"@ + hash);
    crate::digest::algorithm_may_be_a_prefix(hash);
}

/// The digest in the entry of a Dotslash file can be given as an option, by the name of its
/// algorithm: it is read back.
pub proof fn written_digest_is_an_option(options: HttpOptions, digest: DigestView)
    requires
        match digest {
            DigestView::Sha256(bytes) => bytes.len() == 32,
            DigestView::Blake3(bytes) => bytes.len() == 32,
        },
    ensures
        options::with_http_option(
            options,
            crate::dotslash::written(digest).0 + seq!['='] + crate::dotslash::written(digest).1,
        ) == Ok::<HttpOptions, TargetErrorView>(HttpOptions { digest: Some(digest), ..options }),
{
    let bytes = match digest {
        DigestView::Sha256(bytes) => bytes,
        DigestView::Blake3(bytes) => bytes,
    };
    let hex = text::hex(bytes);
    crate::digest::written_hash_is_read(bytes);
    assert(!"sha256"@.contains('=') && !"blake3"@.contains('=') && "blake3"@ != "sha256"@
        && "sha256"@ != "path"@ && "blake3"@ != "path"@) by {
        reveal_strlit("sha256");
        reveal_strlit("blake3");
        reveal_strlit("path");
        assert("sha256"@[0] == 's' && "blake3"@[0] == 'b' && "path"@[0] == 'p');
    }
    lemma_option("sha256"@, hex);
    lemma_option("blake3"@, hex);
}

/// A digest in an error can be read as the digest that it is.
pub proof fn written_digests_are_read(digest: DigestView)
    requires
        match digest {
            DigestView::Sha256(bytes) => bytes.len() == 32,
            DigestView::Blake3(bytes) => bytes.len() == 32,
        },
    ensures
        crate::digest::read_digest(crate::fetch::digest_text(digest), ""@) == Ok::<
            DigestView,
            DigestErrorView,
        >(digest),
{
    let bytes = match digest {
        DigestView::Sha256(bytes) => bytes,
        DigestView::Blake3(bytes) => bytes,
    };
    lemma_prefixes(text::hex(bytes));
    crate::digest::written_hash_is_read(bytes);
    crate::digest::algorithm_may_be_a_prefix(text::hex(bytes));
}

/// The name of an algorithm before a hash.
proof fn lemma_prefixes(hash: Seq<char>)
    ensures
        "sha256"@ + ":"@ + hash == "sha256:"@ + hash,
        "blake3"@ + ":"@ + hash == "blake3:"@ + hash,
{
    assert("sha256"@ + ":"@ == "sha256:"@) by {
        reveal_strlit("sha256");
        reveal_strlit(":");
        reveal_strlit("sha256:");
    }
    assert("blake3"@ + ":"@ == "blake3:"@) by {
        reveal_strlit("blake3");
        reveal_strlit(":");
        reveal_strlit("blake3:");
    }
}

/// The name of a platform stands for that platform alone.
pub proof fn platform_is_its_name(platform: Platform)
    requires
        platform is Known,
    ensures
        options::platforms_named(crate::target::platform_name(platform)) == Ok::<
            Seq<Platform>,
            TargetErrorView,
        >(seq![platform]),
{
    let (os, arch) = match platform {
        Platform::Known { arch: Architecture::Aarch64, os: Os::Linux } => ("linux"@, "aarch64"@),
        Platform::Known { arch: Architecture::X64, os: Os::Linux } => ("linux"@, "x86_64"@),
        Platform::Known { arch: Architecture::Aarch64, os: Os::Macos } => ("macos"@, "aarch64"@),
        Platform::Known { arch: Architecture::X64, os: Os::Macos } => ("macos"@, "x86_64"@),
        Platform::Known { arch: Architecture::Aarch64, os: Os::Windows } => (
            "windows"@,
            "aarch64"@,
        ),
        _ => ("windows"@, "x86_64"@),
    };
    let name = crate::target::platform_name(platform);
    assert(name == os + seq!['-'] + arch && !os.contains('-')) by {
        reveal_strlit("linux");
        reveal_strlit("macos");
        reveal_strlit("windows");
        reveal_strlit("aarch64");
        reveal_strlit("x86_64");
        reveal_strlit("linux-aarch64");
        reveal_strlit("linux-x86_64");
        reveal_strlit("macos-aarch64");
        reveal_strlit("macos-x86_64");
        reveal_strlit("windows-aarch64");
        reveal_strlit("windows-x86_64");
    }
    assert("linux"@ != "macos"@ && "linux"@ != "windows"@ && "macos"@ != "windows"@ && "aarch64"@
        != "x86_64"@ && "arm64"@ != "x86_64"@) by {
        reveal_strlit("linux");
        reveal_strlit("macos");
        reveal_strlit("windows");
        reveal_strlit("aarch64");
        reveal_strlit("arm64");
        reveal_strlit("x86_64");
        assert("linux"@[0] == 'l' && "macos"@[0] == 'm' && "windows"@[0] == 'w' && "aarch64"@[0]
            == 'a' && "arm64"@[0] == 'a' && "x86_64"@[0] == 'x');
    }
    let n = os.len() as int;
    assert forall|j: int| 0 <= j < n implies !seq!['-'].contains(#[trigger] name[j]) by {
        assert(os.contains(os[j]));
        assert(name[j] == os[j]);
    }
    assert(name[n] == '-');
    assert(seq!['-'][0] == '-');
    text::lemma_first_of(name, seq!['-'], n);
    assert(name.take(n) == os);
    assert(name.skip(n + 1) == arch);
}

/// Adding platforms keeps those which are already there, adds the others, and lists none twice.
proof fn lemma_with_platforms(list: Seq<Platform>, more: Seq<Platform>)
    ensures
        forall|p: Platform|
            #[trigger] options::with_platforms(list, more).contains(p) <==> list.contains(p)
                || more.contains(p),
        list.no_duplicates() ==> options::with_platforms(list, more).no_duplicates(),
    decreases more.len(),
{
    if more.len() == 0 {
    } else {
        lemma_with_platforms(list, more.drop_last());
        let before = options::with_platforms(list, more.drop_last());
        assert(more == more.drop_last().push(more.last()));
        assert forall|p: Platform|
            #[trigger] options::with_platforms(list, more).contains(p) <==> list.contains(p)
                || more.contains(p) by {
            broadcast use vstd::seq_lib::group_seq_properties;

            assert(before.contains(p) <==> list.contains(p) || more.drop_last().contains(p));
            assert(more.contains(p) <==> more.drop_last().contains(p) || p == more.last());
            assert(options::with_platforms(list, more).contains(p) <==> before.contains(p) || p
                == more.last());
        }
    }
}

/// Whether an option asks for a platform.
pub open spec fn asks_for(option: Seq<char>, platform: Platform) -> bool {
    &&& options::option_key(option) == "platform"@
    &&& options::option_value(option) matches Some(name)
    &&& options::platforms_named(name) matches Ok(platforms)
    &&& platforms.contains(platform)
}

/// The requested platforms are those that some option asks for, each of them once, and each of
/// one operating system and one architecture.
pub proof fn platform_options_add_up(list: Seq<Seq<char>>)
    requires
        options::github_options(list) is Ok,
    ensures
        forall|p: Platform|
            #[trigger] options::github_options(list)->Ok_0.platforms.contains(p) <==> exists|i: int|
                0 <= i < list.len() && asks_for(#[trigger] list[i], p),
        options::github_options(list)->Ok_0.platforms.no_duplicates(),
        forall|p: Platform|
            #[trigger] options::github_options(list)->Ok_0.platforms.contains(p) ==> p is Known,
    decreases list.len(),
{
    let platforms = options::github_options(list)->Ok_0.platforms;
    if list.len() > 0 {
        let last = list.last();
        platform_options_add_up(list.drop_last());
        let before = options::github_options(list.drop_last())->Ok_0.platforms;
        assert("path"@ != "platform"@) by {
            reveal_strlit("path");
            reveal_strlit("platform");
            assert("path"@.len() == 4 && "platform"@.len() == 8);
        }
        if options::option_key(last) == "platform"@ {
            lemma_with_platforms(before, options::platforms_named(options::option_value(last)->0)->Ok_0);
        }
        assert forall|p: Platform| #[trigger] platforms.contains(p) <==> before.contains(p)
            || asks_for(last, p) by {}
        assert forall|p: Platform| #[trigger]
            platforms.contains(p) <==> exists|i: int|
                0 <= i < list.len() && asks_for(#[trigger] list[i], p) by {
            if before.contains(p) {
                let i = choose|i: int|
                    0 <= i < list.drop_last().len() && asks_for(#[trigger] list.drop_last()[i], p);
                assert(asks_for(list[i], p));
            }
            if asks_for(last, p) {
                assert(asks_for(list[list.len() - 1], p));
            }
            if exists|i: int| 0 <= i < list.len() && asks_for(#[trigger] list[i], p) {
                let i = choose|i: int| 0 <= i < list.len() && asks_for(#[trigger] list[i], p);
                if i < list.len() - 1 {
                    assert(asks_for(list.drop_last()[i], p));
                }
            }
        }
    }
}

/// `gnu` is preferred if and only if some option says so and no later one prefers `musl`.
pub proof fn last_preference_counts(list: Seq<Seq<char>>)
    requires
        options::github_options(list) is Ok,
    ensures
        options::github_options(list)->Ok_0.prefer_gnu <==> exists|i: int|
            0 <= i < list.len() && #[trigger] options::option_key(list[i]) == "gnu"@ && forall|j: int|
                i < j < list.len() ==> #[trigger] options::option_key(list[j]) != "musl"@,
    decreases list.len(),
{
    if list.len() > 0 {
        let n = list.len() - 1;
        let rest = list.drop_last();
        last_preference_counts(rest);
        assert("gnu"@ != "musl"@ && "path"@ != "gnu"@ && "path"@ != "musl"@ && "platform"@ != "gnu"@
            && "platform"@ != "musl"@) by {
            reveal_strlit("gnu");
            reveal_strlit("musl");
            reveal_strlit("path");
            reveal_strlit("platform");
            assert("gnu"@.len() == 3 && "musl"@.len() == 4 && "platform"@.len() == 8);
            assert("musl"@[0] == 'm' && "path"@[0] == 'p');
        }
        if options::option_key(list[n]) == "gnu"@ {
        } else if options::github_options(list)->Ok_0.prefer_gnu {
            let i = choose|i: int|
                0 <= i < rest.len() && #[trigger] options::option_key(rest[i]) == "gnu"@ && forall|j: int|
                    i < j < rest.len() ==> #[trigger] options::option_key(rest[j]) != "musl"@;
            assert(options::option_key(list[i]) == "gnu"@);
            assert forall|j: int| i < j < list.len() implies #[trigger] options::option_key(list[j])
                != "musl"@ by {
                if j < n {
                    assert(options::option_key(rest[j]) != "musl"@);
                }
            }
        } else if exists|i: int|
            0 <= i < list.len() && #[trigger] options::option_key(list[i]) == "gnu"@ && forall|j: int|
                i < j < list.len() ==> #[trigger] options::option_key(list[j]) != "musl"@ {
            let i = choose|i: int|
                0 <= i < list.len() && #[trigger] options::option_key(list[i]) == "gnu"@ && forall|j: int|
                    i < j < list.len() ==> #[trigger] options::option_key(list[j]) != "musl"@;
            assert(options::option_key(list[n]) != "musl"@);
            assert(options::option_key(rest[i]) == "gnu"@);
            assert forall|j: int| i < j < rest.len() implies #[trigger] options::option_key(rest[j])
                != "musl"@ by {
                assert(options::option_key(list[j]) != "musl"@);
            }
        }
    }
}

// ---------------------------------------------------------------------------------------------
// Single options

/// The names of options, by which they are told apart.
proof fn lemma_names()
    ensures
        "path"@ == seq!['p', 'a', 't', 'h'],
        "platform"@ == seq!['p', 'l', 'a', 't', 'f', 'o', 'r', 'm'],
        "gnu"@ == seq!['g', 'n', 'u'],
        "musl"@ == seq!['m', 'u', 's', 'l'],
        "sha256"@ == seq!['s', 'h', 'a', '2', '5', '6'],
        "blake3"@ == seq!['b', 'l', 'a', 'k', 'e', '3'],
        "digest"@ == seq!['d', 'i', 'g', 'e', 's', 't'],
        "size"@ == seq!['s', 'i', 'z', 'e'],
        "path="@ == "path"@ + seq!['='],
        "platform="@ == "platform"@ + seq!['='],
        "size="@ == "size"@ + seq!['='],
        "gnu="@ == "gnu"@ + seq!['='],
        "musl="@ == "musl"@ + seq!['='],
{
    reveal_strlit("path");
    reveal_strlit("platform");
    reveal_strlit("gnu");
    reveal_strlit("musl");
    reveal_strlit("sha256");
    reveal_strlit("blake3");
    reveal_strlit("digest");
    reveal_strlit("size");
    reveal_strlit("path=");
    reveal_strlit("platform=");
    reveal_strlit("size=");
    reveal_strlit("gnu=");
    reveal_strlit("musl=");
}

/// An option without a value is only its name.
proof fn lemma_bare(key: Seq<char>)
    requires
        !key.contains('='),
    ensures
        options::option_key(key) == key,
        options::option_value(key) is None,
{
    assert forall|j: int| 0 <= j < key.len() implies !seq!['='].contains(#[trigger] key[j]) by {
        assert(key.contains(key[j]));
        assert(seq!['='][0] == '=');
    }
    text::lemma_first_of(key, seq!['='], key.len() as int);
    assert(key.take(key.len() as int) == key);
}

/// `path=<path>` gives the path, of a release and of a file, and nothing else. It needs a value.
pub proof fn path_may_be_given(release: GitHubOptions, file: HttpOptions, path: Seq<char>)
    ensures
        options::with_github_option(release, "path="@ + path) == Ok::<
            GitHubOptions,
            TargetErrorView,
        >(GitHubOptions { path: Some(path), ..release }),
        options::with_http_option(file, "path="@ + path) == Ok::<HttpOptions, TargetErrorView>(
            HttpOptions { path: Some(path), ..file },
        ),
        options::with_github_option(release, "path"@) == Err::<GitHubOptions, TargetErrorView>(
            TargetErrorView::MissingPath,
        ),
        options::with_http_option(file, "path"@) == Err::<HttpOptions, TargetErrorView>(
            TargetErrorView::MissingPath,
        ),
{
    lemma_names();
    lemma_option("path"@, path);
    lemma_bare("path"@);
}

/// `size=<size>` gives the size of a file, in decimal, and nothing else.
pub proof fn size_may_be_given(file: HttpOptions, size: u64)
    ensures
        options::with_http_option(file, "size="@ + text::decimal(size as nat)) == Ok::<
            HttpOptions,
            TargetErrorView,
        >(HttpOptions { size: Some(size), ..file }),
{
    lemma_names();
    lemma_option("size"@, text::decimal(size as nat));
    text::number_of_decimal(size);
    assert("size"@[1] == 'i' && "sha256"@[1] == 'h');
}

/// `gnu` and `musl` say which C library is preferred, and nothing else. They take no value.
pub proof fn library_may_be_preferred(release: GitHubOptions, value: Seq<char>)
    ensures
        options::with_github_option(release, "gnu"@) == Ok::<GitHubOptions, TargetErrorView>(
            GitHubOptions { prefer_gnu: true, ..release },
        ),
        options::with_github_option(release, "musl"@) == Ok::<GitHubOptions, TargetErrorView>(
            GitHubOptions { prefer_gnu: false, ..release },
        ),
        options::with_github_option(release, "gnu="@ + value) is Err,
        options::with_github_option(release, "musl="@ + value) is Err,
{
    lemma_names();
    lemma_bare("gnu"@);
    lemma_bare("musl"@);
    lemma_option("gnu"@, value);
    lemma_option("musl"@, value);
    assert("musl"@[0] == 'm' && "path"@[0] == 'p');
}

/// `platform=<platform>` requests the platforms that it stands for, and nothing else.
pub proof fn platform_may_be_requested(release: GitHubOptions, platform: Platform)
    requires
        platform is Known,
    ensures
        options::with_github_option(
            release,
            "platform="@ + crate::target::platform_name(platform),
        ) matches Ok(options) && {
            &&& forall|p: Platform| #[trigger]
                options.platforms.contains(p) <==> release.platforms.contains(p) || p == platform
            &&& options.path == release.path
            &&& options.prefer_gnu == release.prefer_gnu
        },
{
    lemma_names();
    let name = crate::target::platform_name(platform);
    lemma_option("platform"@, name);
    platform_is_its_name(platform);
    lemma_with_platforms(release.platforms, seq![platform]);
    let more = options::with_platforms(release.platforms, seq![platform]);
    assert forall|p: Platform| #[trigger] more.contains(p) <==> release.platforms.contains(p) || p
        == platform by {
        assert(seq![platform].contains(p) <==> p == platform) by {
            assert(seq![platform][0] == platform);
        }
    }
}

/// The name of an architecture.
pub open spec fn is_arch_name(name: Seq<char>, arch: Architecture) -> bool {
    match arch {
        Architecture::Aarch64 => name == "aarch64"@ || name == "arm64"@,
        Architecture::X64 => name == "amd64"@ || name == "x64"@ || name == "x86_64"@,
    }
}

/// The name of an operating system.
pub open spec fn is_os_name(name: Seq<char>, os: Os) -> bool {
    match os {
        Os::Linux => name == "linux"@,
        Os::Macos => name == "macos"@,
        Os::Windows => name == "windows"@,
    }
}

proof fn lemma_platform_names()
    ensures
        "aarch64"@ == seq!['a', 'a', 'r', 'c', 'h', '6', '4'],
        "arm64"@ == seq!['a', 'r', 'm', '6', '4'],
        "amd64"@ == seq!['a', 'm', 'd', '6', '4'],
        "x64"@ == seq!['x', '6', '4'],
        "x86_64"@ == seq!['x', '8', '6', '_', '6', '4'],
        "linux"@ == seq!['l', 'i', 'n', 'u', 'x'],
        "macos"@ == seq!['m', 'a', 'c', 'o', 's'],
        "windows"@ == seq!['w', 'i', 'n', 'd', 'o', 'w', 's'],
{
    reveal_strlit("aarch64");
    reveal_strlit("arm64");
    reveal_strlit("amd64");
    reveal_strlit("x64");
    reveal_strlit("x86_64");
    reveal_strlit("linux");
    reveal_strlit("macos");
    reveal_strlit("windows");
}

proof fn lemma_arch_name(name: Seq<char>, arch: Architecture)
    requires
        is_arch_name(name, arch),
    ensures
        options::arch_named(name) == Some(arch),
        options::os_named(name) is None,
        !name.contains('-'),
{
    lemma_platform_names();
    assert(name[0] == 'a' || name[0] == 'x');
    assert(name[0] == 'a' ==> name[1] == 'a' || name[1] == 'r' || name[1] == 'm');
    assert("aarch64"@[1] == 'a' && "arm64"@[1] == 'r' && "amd64"@[1] == 'm' && "linux"@[0] == 'l'
        && "macos"@[0] == 'm' && "windows"@[0] == 'w' && "x64"@[0] == 'x' && "x86_64"@[0] == 'x');
}

proof fn lemma_os_name(name: Seq<char>, os: Os)
    requires
        is_os_name(name, os),
    ensures
        options::os_named(name) == Some(os),
        options::arch_named(name) is None,
        !name.contains('-'),
{
    lemma_platform_names();
    assert(name[0] == 'l' || name[0] == 'm' || name[0] == 'w');
    assert("aarch64"@[0] == 'a' && "arm64"@[0] == 'a' && "amd64"@[0] == 'a' && "x64"@[0] == 'x'
        && "x86_64"@[0] == 'x' && "linux"@[0] == 'l' && "macos"@[0] == 'm' && "windows"@[0] == 'w');
}

/// A platform is an architecture, which stands for that architecture with every operating system;
/// an operating system, which stands for that one with every architecture; or both, separated by a
/// hyphen.
pub proof fn platforms_have_parts(
    arch_name: Seq<char>,
    os_name: Seq<char>,
    arch: Architecture,
    os: Os,
)
    requires
        is_arch_name(arch_name, arch),
        is_os_name(os_name, os),
    ensures
        options::platforms_named(arch_name) matches Ok(list) && forall|p: Platform| #[trigger]
            list.contains(p) <==> p is Known && p->arch == arch,
        options::platforms_named(os_name) matches Ok(list) && forall|p: Platform| #[trigger]
            list.contains(p) <==> p is Known && p->os == os,
        options::platforms_named(os_name + "-"@ + arch_name) == Ok::<
            Seq<Platform>,
            TargetErrorView,
        >(seq![Platform::Known { arch, os }]),
{
    lemma_arch_name(arch_name, arch);
    lemma_os_name(os_name, os);
    lemma_no_hyphen(arch_name);
    lemma_no_hyphen(os_name);
    let a = options::platforms_named(arch_name)->Ok_0;
    assert forall|p: Platform| #[trigger] a.contains(p) <==> p is Known && p->arch == arch by {
        assert(a[0] == (Platform::Known { arch, os: Os::Linux }));
        assert(a[1] == (Platform::Known { arch, os: Os::Macos }));
        assert(a[2] == (Platform::Known { arch, os: Os::Windows }));
        if p is Known && p->arch == arch {
            assert(p == a[0] || p == a[1] || p == a[2]);
        }
    }
    let o = options::platforms_named(os_name)->Ok_0;
    assert forall|p: Platform| #[trigger] o.contains(p) <==> p is Known && p->os == os by {
        assert(o[0] == (Platform::Known { arch: Architecture::Aarch64, os }));
        assert(o[1] == (Platform::Known { arch: Architecture::X64, os }));
        if p is Known && p->os == os {
            assert(p == o[0] || p == o[1]);
        }
    }
    let both = os_name + "-"@ + arch_name;
    let n = os_name.len() as int;
    reveal_strlit("-");
    assert forall|j: int| 0 <= j < n implies !seq!['-'].contains(#[trigger] both[j]) by {
        assert(os_name.contains(os_name[j]));
        assert(both[j] == os_name[j]);
        assert(seq!['-'][0] == '-');
    }
    assert(both[n] == '-');
    assert(seq!['-'][0] == '-');
    text::lemma_first_of(both, seq!['-'], n);
    assert(both.take(n) == os_name);
    assert(both.skip(n + 1) == arch_name);
}

proof fn lemma_no_hyphen(name: Seq<char>)
    requires
        !name.contains('-'),
    ensures
        text::first_of(name, seq!['-']) == name.len(),
{
    assert forall|j: int| 0 <= j < name.len() implies !seq!['-'].contains(#[trigger] name[j]) by {
        assert(name.contains(name[j]));
        assert(seq!['-'][0] == '-');
    }
    text::lemma_first_of(name, seq!['-'], name.len() as int);
}

/// Any other platform is refused.
pub proof fn other_platforms_are_refused(name: Seq<char>)
    requires
        !name.contains('-'),
        forall|arch: Architecture| !#[trigger] is_arch_name(name, arch),
        forall|os: Os| !#[trigger] is_os_name(name, os),
    ensures
        options::platforms_named(name) == Err::<Seq<Platform>, TargetErrorView>(
            TargetErrorView::UnknownPlatform(name),
        ),
{
    lemma_no_hyphen(name);
    assert(!is_arch_name(name, Architecture::Aarch64) && !is_arch_name(name, Architecture::X64));
    assert(!is_os_name(name, Os::Linux) && !is_os_name(name, Os::Macos) && !is_os_name(
        name,
        Os::Windows,
    ));
}

/// An option with any other name is refused, whether or not it has a value.
pub proof fn other_options_are_refused(
    release: GitHubOptions,
    file: HttpOptions,
    key: Seq<char>,
    value: Seq<char>,
)
    requires
        !key.contains('='),
    ensures
        key != "path"@ && key != "platform"@ && key != "gnu"@ && key != "musl"@ ==> {
            &&& options::with_github_option(release, key) == Err::<GitHubOptions, TargetErrorView>(
                TargetErrorView::UnknownOption(key),
            )
            &&& options::with_github_option(release, key + seq!['='] + value) == Err::<
                GitHubOptions,
                TargetErrorView,
            >(TargetErrorView::UnknownOption(key))
        },
        key != "path"@ && key != "digest"@ && key != "sha256"@ && key != "blake3"@ && key != "size"@
            ==> {
            &&& options::with_http_option(file, key) == Err::<HttpOptions, TargetErrorView>(
                TargetErrorView::UnknownOption(key),
            )
            &&& options::with_http_option(file, key + seq!['='] + value) == Err::<
                HttpOptions,
                TargetErrorView,
            >(TargetErrorView::UnknownOption(key))
        },
{
    lemma_bare(key);
    lemma_option(key, value);
}

// ---------------------------------------------------------------------------------------------
// Several options

/// Without options, nothing is requested, `musl` is preferred, and nothing is known.
pub proof fn options_may_be_left_out()
    ensures
        options::github_options(options::option_list(Seq::empty())) == Ok::<
            GitHubOptions,
            TargetErrorView,
        >(GitHubOptions { path: None, platforms: seq![], prefer_gnu: false }),
        options::http_options(options::option_list(Seq::empty())) == Ok::<
            HttpOptions,
            TargetErrorView,
        >(HttpOptions { path: None, digest: None, size: None }),
{
}

/// Options are separated by commas, and are read one after another: what one gives is kept, unless
/// a later one gives it again. If one is wrong, those after it do not matter.
pub proof fn options_are_read_in_order(before: Seq<char>, option: Seq<char>)
    requires
        before.len() > 0,
        !option.contains(','),
    ensures
        options::github_options(options::option_list(before + seq![','] + option))
            == match options::github_options(options::option_list(before)) {
            Ok(options) => options::with_github_option(options, option),
            Err(error) => Err(error),
        },
        options::http_options(options::option_list(before + seq![','] + option))
            == match options::http_options(options::option_list(before)) {
            Ok(options) => options::with_http_option(options, option),
            Err(error) => Err(error),
        },
{
    lemma_split_last(before, option);
    let list = options::option_list(before);
    assert((list + seq![option]).drop_last() == list);
    assert((list + seq![option]).last() == option);
}

/// A single option is the only one.
pub proof fn one_option_is_read(option: Seq<char>)
    requires
        option.len() > 0,
        !option.contains(','),
    ensures
        options::github_options(options::option_list(option)) == options::with_github_option(
            GitHubOptions { path: None, platforms: seq![], prefer_gnu: false },
            option,
        ),
        options::http_options(options::option_list(option)) == options::with_http_option(
            HttpOptions { path: None, digest: None, size: None },
            option,
        ),
{
    text::lemma_only_piece(option, ',');
    let list = options::option_list(option);
    assert(list.drop_last() == Seq::<Seq<char>>::empty());
    reveal_with_fuel(options::github_options, 2);
    reveal_with_fuel(options::http_options, 2);
}

/// Splitting at commas: the last option, and those before it.
proof fn lemma_split_last(before: Seq<char>, option: Seq<char>)
    requires
        !option.contains(','),
    ensures
        text::pieces(before + seq![','] + option, seq![',']) == text::pieces(before, seq![','])
            + seq![option],
    decreases before.len(),
{
    let sep = seq![','];
    text::lemma_first_of_bounds(before, sep);
    let at = text::first_of(before, sep);
    text::lemma_only_piece(option, ',');
    if at < before.len() {
        let head = before.take(at);
        let rest = before.skip(at + 1);
        lemma_split_last(rest, option);
        assert(sep[0] == ',');
        assert(before[at] == ',');
        assert(!head.contains(',')) by {
            if head.contains(',') {
                let j = choose|j: int| 0 <= j < head.len() && head[j] == ',';
                assert(sep.contains(before[j]));
            }
        }
        text::lemma_first_piece(head, ',', rest + sep + option);
        assert(before + sep + option == head + sep + (rest + sep + option));
        assert(seq![head] + (text::pieces(rest, sep) + seq![option]) == (seq![head] + text::pieces(
            rest,
            sep,
        )) + seq![option]);
    } else {
        assert(!before.contains(',')) by {
            if before.contains(',') {
                let j = choose|j: int| 0 <= j < before.len() && before[j] == ',';
                assert(sep[0] == ',');
                assert(sep.contains(before[j]));
            }
        }
        text::lemma_first_piece(before, ',', option);
        text::lemma_only_piece(before, ',');
    }
}

// ---------------------------------------------------------------------------------------------
// Other targets

/// An `https:` URL of any other host is that of a file, with the options after it.
pub proof fn other_urls_are_files(url: Seq<char>, options: Seq<char>)
    requires
        "https:"@.is_prefix_of(url),
        !"https://github.com/"@.is_prefix_of(url),
        !url.contains('#'),
        options.len() == 0 || options[0] == '#',
    ensures
        options::read_target(url + options) == match options::http_options(
            options::option_list(given(options)),
        ) {
            Ok(options) => Ok::<TargetView, TargetErrorView>(
                TargetView::Http(HttpView { url, options }),
            ),
            Err(error) => Err::<TargetView, TargetErrorView>(error),
        },
{
    lemma_hash(url, options);
    let path = url.skip("https:"@.len() as int);
    assert("https://github.com/"@ == "https:"@ + "//github.com/"@) by {
        reveal_strlit("https:");
        reveal_strlit("//github.com/");
        reveal_strlit("https://github.com/");
    }
    if "//github.com/"@.is_prefix_of(path) {
        let n = "https:"@.len() as int;
        let m = "//github.com/"@.len() as int;
        assert(url.subrange(0, n + m) == url.subrange(0, n) + path.subrange(0, m));
        assert("https://github.com/"@.is_prefix_of(url));
    }
}

/// The download of an asset of a release is a file, although it is on `github.com`.
pub proof fn release_downloads_are_files(
    org: Seq<char>,
    repo: Seq<char>,
    tag: Seq<char>,
    file: Seq<char>,
    options: Seq<char>,
)
    requires
        !org.contains('/') && !org.contains('#'),
        !repo.contains('/') && !repo.contains('#'),
        !tag.contains('/') && !tag.contains('#'),
        !file.contains('/') && !file.contains('#'),
        options.len() == 0 || options[0] == '#',
    ensures
        ({
            let url = "https://github.com/"@ + (org + seq!['/'] + repo + "/releases/download/"@
                + tag + seq!['/'] + file);
            options::read_target(url + options) == match options::http_options(
                options::option_list(given(options)),
            ) {
                Ok(options) => Ok::<TargetView, TargetErrorView>(
                    TargetView::Http(HttpView { url, options }),
                ),
                Err(error) => Err::<TargetView, TargetErrorView>(error),
            }
        }),
{
    let sep = seq!['/'];
    let path = org + sep + repo + "/releases/download/"@ + tag + sep + file;
    let url = "https://github.com/"@ + path;
    assert("/releases/download/"@ == sep + "releases"@ + sep + "download"@ + sep
        && !"releases"@.contains('/') && !"download"@.contains('/')
        && !"/releases/download/"@.contains('#') && "download"@ != "latest"@ && "download"@
        != "tag"@ && !"https://github.com/"@.contains('#') && "https://github.com/"@ == "https:"@
        + "//github.com/"@) by {
        reveal_strlit("/releases/download/");
        reveal_strlit("releases");
        reveal_strlit("download");
        reveal_strlit("latest");
        reveal_strlit("tag");
        reveal_strlit("https:");
        reveal_strlit("//github.com/");
        reveal_strlit("https://github.com/");
        assert("download"@.len() == 8 && "latest"@.len() == 6 && "tag"@.len() == 3);
    }
    let rest = "download"@ + sep + tag + sep + file;
    lemma_three("download"@, tag, file);
    text::lemma_first_piece("releases"@, '/', rest);
    text::lemma_first_piece(repo, '/', "releases"@ + sep + rest);
    text::lemma_first_piece(org, '/', repo + sep + ("releases"@ + sep + rest));
    assert(path == org + sep + (repo + sep + ("releases"@ + sep + rest)));
    let segments = text::pieces(path, sep);
    assert(segments == seq![org, repo, "releases"@, "download"@, tag, file]);
    assert(options::page_release(segments) is None);
    assert(!path.contains('#'));
    assert(!url.contains('#'));
    lemma_hash(url, options);
    let n = "https:"@.len() as int;
    let m = "//github.com/"@.len() as int;
    assert(url.subrange(0, n) == "https:"@);
    assert(url.skip(n) == "//github.com/"@ + path);
    assert(("//github.com/"@ + path).subrange(0, m) == "//github.com/"@);
    assert(("//github.com/"@ + path).skip(m) == path);
}

/// What starts neither with `https:` nor with `github:` is no target.
pub proof fn other_schemes_are_refused(target: Seq<char>)
    requires
        !target.contains('#'),
        !"https:"@.is_prefix_of(target),
        !"github:"@.is_prefix_of(target),
    ensures
        options::read_target(target) == Err::<TargetView, TargetErrorView>(
            TargetErrorView::UnknownScheme,
        ),
{
    lemma_hash(target, Seq::empty());
    assert(target + Seq::<char>::empty() == target);
}

/// A `github:` URI needs a repository, and takes at most a release after it.
pub proof fn repositories_are_needed(
    org: Seq<char>,
    repo: Seq<char>,
    release: Seq<char>,
    more: Seq<char>,
)
    requires
        !org.contains('/') && !org.contains('#') && !org.contains('.'),
        !repo.contains('/') && !repo.contains('#'),
        !release.contains('/') && !release.contains('#'),
        !more.contains('#'),
    ensures
        options::read_target("github:"@ + org) == Err::<TargetView, TargetErrorView>(
            TargetErrorView::MissingRepository,
        ),
        options::read_target(
            "github:"@ + (org + seq!['/'] + (repo + seq!['/'] + (release + seq!['/'] + more))),
        ) == Err::<TargetView, TargetErrorView>(TargetErrorView::TooManySegments),
{
    let none = Seq::<char>::empty();
    text::lemma_only_piece(org, '/');
    lemma_uri(org, none);
    assert("github:"@ + org + none == "github:"@ + org);

    let a = release + seq!['/'] + more;
    let b = repo + seq!['/'] + a;
    let path = org + seq!['/'] + b;
    text::lemma_first_piece(release, '/', more);
    text::lemma_first_piece(repo, '/', a);
    text::lemma_first_piece(org, '/', b);
    assert(text::pieces(more, seq!['/']).len() > 0);
    assert(!a.contains('#'));
    assert(!b.contains('#'));
    assert(!path.contains('#'));
    lemma_uri(path, none);
    assert("github:"@ + path + none == "github:"@ + path);
}

/// A release is that of the repository, the organization and the host which were written, with the
/// options that were.
pub proof fn releases_are_what_was_written(
    host: Seq<char>,
    org: Seq<char>,
    repo: Seq<char>,
    release: Option<Seq<char>>,
    options: Seq<char>,
)
    ensures
        match options::release_target(options::read_release(host, org, repo, release, options)) {
            Ok(target) => options::github_options(options::option_list(options)) matches Ok(options)
                && target == TargetView::GitHubRelease(
                GitHubReleaseView { host, org, repo, release, options },
            ),
            Err(error) => options::github_options(options::option_list(options)) == Err::<
                GitHubOptions,
                TargetErrorView,
            >(error),
        },
{
}

/// The options which need a value are refused without one.
pub proof fn values_are_needed(release: GitHubOptions, file: HttpOptions)
    ensures
        options::with_github_option(release, "platform"@) == Err::<GitHubOptions, TargetErrorView>(
            TargetErrorView::MissingValue("platform"@),
        ),
        options::with_http_option(file, "digest"@) == Err::<HttpOptions, TargetErrorView>(
            TargetErrorView::MissingValue("digest"@),
        ),
        options::with_http_option(file, "sha256"@) == Err::<HttpOptions, TargetErrorView>(
            TargetErrorView::MissingValue("sha256"@),
        ),
        options::with_http_option(file, "blake3"@) == Err::<HttpOptions, TargetErrorView>(
            TargetErrorView::MissingValue("blake3"@),
        ),
        options::with_http_option(file, "size"@) == Err::<HttpOptions, TargetErrorView>(
            TargetErrorView::MissingValue("size"@),
        ),
{
    lemma_names();
    lemma_bare("platform"@);
    lemma_bare("digest"@);
    lemma_bare("sha256"@);
    lemma_bare("blake3"@);
    lemma_bare("size"@);
    assert("digest"@[0] == 'd' && "sha256"@[0] == 's' && "blake3"@[0] == 'b' && "size"@[1] == 'i'
        && "path"@[1] == 'a');
}

/// What ends with another text.
proof fn lemma_ends(start: Seq<char>, end: Seq<char>)
    ensures
        end.is_suffix_of(start + end),
{
    let whole = start + end;
    assert(whole.subrange(whole.len() - end.len(), whole.len() as int) == end);
}

/// What starts with another text.
proof fn lemma_begins(start: Seq<char>, end: Seq<char>)
    ensures
        start.is_prefix_of(start + end),
{
    assert((start + end).subrange(0, start.len() as int) == start);
}

/// An error about a target names the option, or says what is not known.
pub proof fn errors_say_what_is_wrong(text: Seq<char>, error: DigestErrorView)
    ensures
        TargetErrorView::MissingValue(text).message() matches Some(message) && text.is_prefix_of(
            message,
        ),
        TargetErrorView::UnexpectedValue(text).message() matches Some(message)
            && text.is_prefix_of(message),
        TargetErrorView::UnknownOption(text).message() matches Some(message)
            && outside::quoted(text).is_suffix_of(message),
        TargetErrorView::UnknownOs(text).message() matches Some(message)
            && outside::quoted(text).is_suffix_of(message),
        TargetErrorView::UnknownArch(text).message() matches Some(message)
            && outside::quoted(text).is_suffix_of(message),
        TargetErrorView::UnknownPlatform(text).message() matches Some(message)
            && outside::quoted(text).is_suffix_of(message),
        TargetErrorView::InvalidDigest(error).message() == Some(error.message()),
        DigestErrorView::Unknown(text).message().len() > 0 && outside::quoted(text).is_suffix_of(
            DigestErrorView::Unknown(text).message(),
        ),
        text.is_suffix_of(DigestErrorView::UnknownAlgorithm(text).message()),
        outside::quoted(text).is_suffix_of(DigestErrorView::Invalid(text).message()),
{
    let quoted = outside::quoted(text);
    lemma_begins(text, " must be given a value"@);
    lemma_begins(text, " does not take a value"@);
    lemma_ends("unknown option "@, quoted);
    lemma_ends("unknown os "@, quoted);
    lemma_ends("unknown arch "@, quoted);
    lemma_ends("unknown platform "@, quoted);
    lemma_ends("unknown digest "@, quoted);
    lemma_ends("unknown digest algorithm "@, text);
    lemma_ends("failed to parse digest in "@, quoted);
    reveal_strlit("unknown digest ");
}

/// A page of `github.com` which is not that of a repository or of its releases is a file.
pub proof fn other_pages_are_files(path: Seq<char>, options: Seq<char>)
    requires
        !path.contains('#'),
        text::pieces(path, seq!['/']).len() == 1 || (text::pieces(path, seq!['/']).len() > 2
            && text::pieces(path, seq!['/'])[2] != "releases"@),
        options.len() == 0 || options[0] == '#',
    ensures
        ({
            let url = "https://github.com/"@ + path;
            options::read_target(url + options) == match options::http_options(
                options::option_list(given(options)),
            ) {
                Ok(options) => Ok::<TargetView, TargetErrorView>(
                    TargetView::Http(HttpView { url, options }),
                ),
                Err(error) => Err::<TargetView, TargetErrorView>(error),
            }
        }),
{
    let url = "https://github.com/"@ + path;
    assert(!"https://github.com/"@.contains('#') && "https://github.com/"@ == "https:"@
        + "//github.com/"@) by {
        reveal_strlit("https:");
        reveal_strlit("//github.com/");
        reveal_strlit("https://github.com/");
    }
    assert(!url.contains('#'));
    lemma_hash(url, options);
    let n = "https:"@.len() as int;
    let m = "//github.com/"@.len() as int;
    assert(url.subrange(0, n) == "https:"@);
    assert(url.skip(n) == "//github.com/"@ + path);
    assert(("//github.com/"@ + path).subrange(0, m) == "//github.com/"@);
    assert(("//github.com/"@ + path).skip(m) == path);
}

} // verus!
