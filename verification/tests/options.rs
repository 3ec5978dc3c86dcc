use std::str::FromStr;

use create_dotslash::digest::Digest;
use create_dotslash::options::{parse_gh_release, parse_http, parse_platform};
use create_dotslash::target::{Architecture, GitHubRelease, Http, Os, Platform, Target};

fn release(s: &str) -> GitHubRelease {
    match Target::from_str(s) {
        Ok(Target::GitHubRelease(release)) => release,
        Ok(Target::Http(_)) => panic!("{s} is a file"),
        Err(error) => panic!("{s}: {error:?}"),
    }
}

fn http(s: &str) -> Http {
    match Target::from_str(s) {
        Ok(Target::Http(http)) => http,
        Ok(Target::GitHubRelease(_)) => panic!("{s} is a release"),
        Err(error) => panic!("{s}: {error:?}"),
    }
}

fn message(s: &str) -> Option<String> {
    match Target::from_str(s) {
        Ok(_) => panic!("{s} was read"),
        Err(error) => error.message(),
    }
}

fn known(arch: Architecture, os: Os) -> Platform {
    Platform::Known { arch, os }
}

fn requested(release: &GitHubRelease) -> Vec<Platform> {
    release.platforms[..release.platform_count].to_vec()
}

#[test]
fn files_are_read() {
    let file = http("https://some.url/path/to/file");
    assert_eq!(file.url, "https://some.url/path/to/file");
    assert!(file.digest.is_none());
    assert_eq!(file.size, None);
    assert_eq!(file.options.path, None);
}

#[test]
fn repository_pages_and_uris_are_the_latest_release() {
    for s in [
        "github:71/ifctc",
        "https://github.com/71/ifctc",
        "https://github.com/71/ifctc/releases",
        "https://github.com/71/ifctc/releases/latest",
    ] {
        let found = release(s);
        assert_eq!(found.host, "github.com");
        assert_eq!(found.org, "71");
        assert_eq!(found.repo, "ifctc");
        assert_eq!(found.release, None);
        assert!(!found.prefer_gnu);
        assert_eq!(found.platform_count, 0);
    }
}

#[test]
fn release_pages_and_uris_are_that_release() {
    for s in [
        "github:org/repo/v1.0",
        "https://github.com/org/repo/releases/tag/v1.0",
        "https://github.com/org/repo/releases/v1.0",
    ] {
        let found = release(s);
        assert_eq!(found.org, "org");
        assert_eq!(found.repo, "repo");
        assert_eq!(found.release.as_deref(), Some("v1.0"));
    }
}

#[test]
fn uris_may_name_a_host() {
    let found = release("github:example.com/org/repo/release");
    assert_eq!(found.host, "example.com");
    assert_eq!(found.org, "org");
    assert_eq!(found.repo, "repo");
    assert_eq!(found.release.as_deref(), Some("release"));
    assert_eq!(release("github:example.com/org/repo").release, None);
}

#[test]
fn other_pages_are_files() {
    for s in [
        "https://github.com/org",
        "https://github.com/org/repo/issues",
        "https://github.com/org/repo/releases/tag",
        "https://github.com/org/repo/releases/",
        "https://github.com/org/repo/releases/latest/more",
        "https://github.com/org/repo/releases/tag/a/b",
        "https://github.com/org/repo/releases/download/v1/tool-linux-x64.zip",
        "https://example.com/org/repo",
    ] {
        assert_eq!(http(s).url, s);
    }
}

#[test]
fn bad_targets_are_refused() {
    assert_eq!(message("ftp://example.com/file"), None);
    assert_eq!(message(""), None);
    let repository = Some("expected org/repo or org/repo/release".to_owned());
    assert_eq!(message("github:org"), repository);
    assert_eq!(message("github:"), repository);
    assert_eq!(message("github:example.com/org"), repository);
    assert_eq!(
        message("github:a/b/c/d").as_deref(),
        Some("too many segments in github: uri")
    );
}

#[test]
fn options_follow_a_hash() {
    let found = release("github:org/repo#path=bin/tool,gnu,platform=linux");
    assert_eq!(found.options.path.as_deref(), Some("bin/tool"));
    assert!(found.prefer_gnu);
    assert_eq!(
        requested(&found),
        vec![
            known(Architecture::Aarch64, Os::Linux),
            known(Architecture::X64, Os::Linux),
        ]
    );
    let found = http("https://a.b/c#path=p=q,size=12");
    assert_eq!(found.url, "https://a.b/c");
    assert_eq!(found.options.path.as_deref(), Some("p=q"));
    assert_eq!(found.size, Some(12));
}

#[test]
fn last_value_counts() {
    assert!(!release("github:org/repo#gnu,musl").prefer_gnu);
    assert!(release("github:org/repo#musl,gnu").prefer_gnu);
    assert!(!release("github:org/repo#").prefer_gnu);
    let found = http("https://a.b/c#path=p,path=q");
    assert_eq!(found.options.path.as_deref(), Some("q"));
}

#[test]
fn digests_are_options() {
    let hex = "ba7816bf8f01cfea414140de5dae2223b00361a396177a9cb410ff61f20015ad";
    for option in [
        format!("sha256={hex}"),
        format!("digest=sha256:{hex}"),
        format!("digest=sha256-{hex}"),
    ] {
        match http(&format!("https://a.b/c#{option}")).digest {
            Some(Digest::Sha256(bytes)) => assert_eq!(bytes[..3], [0xba, 0x78, 0x16]),
            _ => panic!("{option} is no SHA-256"),
        }
    }
    for option in [format!("blake3={hex}"), format!("digest=blake3:{hex}")] {
        match http(&format!("https://a.b/c#{option}")).digest {
            Some(Digest::Blake3(bytes)) => assert_eq!(bytes[31], 0xad),
            _ => panic!("{option} is no BLAKE3"),
        }
    }
}

#[test]
fn bad_options_are_refused() {
    for (s, expected) in [
        ("github:o/r#path", "path requires a value"),
        ("github:o/r#platform", "platform must be given a value"),
        ("github:o/r#gnu=yes", "gnu does not take a value"),
        ("github:o/r#musl=", "musl does not take a value"),
        ("github:o/r#size=1", "unknown option \"size\""),
        ("github:o/r#gnu,", "unknown option \"\""),
        ("github:o/r#gnu,wat", "unknown option \"wat\""),
        ("https://a.b/c#path", "path requires a value"),
        ("https://a.b/c#sha256", "sha256 must be given a value"),
        ("https://a.b/c#blake3", "blake3 must be given a value"),
        ("https://a.b/c#digest", "digest must be given a value"),
        ("https://a.b/c#size", "size must be given a value"),
        ("https://a.b/c#size=many", "size is not a valid integer"),
        ("https://a.b/c#size=18446744073709551616", "size is not a valid integer"),
        ("https://a.b/c#gnu", "unknown option \"gnu\""),
        ("https://a.b/c#digest=md5:00", "unknown digest algorithm md5"),
        ("https://a.b/c#digest=00", "unknown digest \"00\""),
        ("https://a.b/c#sha256=00", "failed to parse digest in \"00\""),
        ("github:o/r#platform=plan9-x64", "unknown os \"plan9\""),
        ("github:o/r#platform=linux-mips", "unknown arch \"mips\""),
        ("github:o/r#platform=amiga", "unknown platform \"amiga\""),
    ] {
        assert_eq!(message(s).as_deref(), Some(expected), "{s}");
    }
}

#[test]
fn first_error_counts() {
    assert_eq!(
        message("github:o/r#path,platform").as_deref(),
        Some("path requires a value")
    );
}

#[test]
fn platforms_add_up() {
    let found = release("github:o/r#platform=linux-arm64,platform=arm64,platform=linux-arm64");
    assert_eq!(
        requested(&found),
        vec![
            known(Architecture::Aarch64, Os::Linux),
            known(Architecture::Aarch64, Os::Macos),
            known(Architecture::Aarch64, Os::Windows),
        ]
    );
    let all = release("github:o/r#platform=x64,platform=windows,platform=aarch64");
    assert_eq!(all.platform_count, 6);
}

#[test]
fn platforms_have_many_names() {
    for (s, expected) in [
        ("linux-amd64", known(Architecture::X64, Os::Linux)),
        ("macos-x64", known(Architecture::X64, Os::Macos)),
        ("windows-x86_64", known(Architecture::X64, Os::Windows)),
        ("windows-arm64", known(Architecture::Aarch64, Os::Windows)),
    ] {
        let mut platforms = Platform::all();
        let mut count = 0;
        parse_platform(&mut platforms, &mut count, s).unwrap();
        assert_eq!(platforms[..count], [expected], "{s}");
    }
    for platform in &Platform::all()[..6] {
        let mut platforms = Platform::all();
        let mut count = 0;
        parse_platform(&mut platforms, &mut count, platform.name()).unwrap();
        assert_eq!(platforms[..count], [*platform]);
    }
}

#[test]
fn parts_of_targets_are_read() {
    let Ok(found) = parse_gh_release("h", "o", "r", Some("t"), "gnu") else {
        panic!("not read")
    };
    assert_eq!(found.host, "h");
    assert_eq!(found.release.as_deref(), Some("t"));
    assert!(found.prefer_gnu);
    let Ok(found) = parse_http("u", "size=+7") else {
        panic!("not read")
    };
    assert_eq!(found.url, "u");
    assert_eq!(found.size, Some(7));
}
