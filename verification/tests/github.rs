use std::str::FromStr;

use create_dotslash::digest::Digest;
use create_dotslash::github::{
    api_url, authorization, resolve, select, separate_targets, GitHubReleaseAsset, Targets,
    TargetsError,
};
use create_dotslash::target::{collect_artifacts, Architecture, ArchiveFormat, Os, Platform, Target};

fn target(s: &str) -> Target {
    match Target::from_str(s) {
        Ok(target) => target,
        Err(error) => panic!("{s}: {error:?}"),
    }
}

fn asset(name: &str) -> GitHubReleaseAsset {
    GitHubReleaseAsset {
        browser_download_url: format!("https://dl/{name}"),
        digest: None,
        name: name.to_owned(),
        size: 10,
    }
}

fn assets(names: &[&str]) -> Vec<GitHubReleaseAsset> {
    names.iter().map(|name| asset(name)).collect()
}

/// The assets chosen for each platform.
fn chosen(names: &[&str], platforms: &[Platform], prefer_gnu: bool) -> Vec<Option<usize>> {
    select(&assets(names), platforms, prefer_gnu)
        .iter()
        .map(|slot| slot.as_ref().map(|found| found.index))
        .collect()
}

const LINUX_X64: Platform = Platform::Known { arch: Architecture::X64, os: Os::Linux };

#[test]
fn files_come_without_releases() {
    let list = vec![target("https://a.b/c"), target("https://a.b/d")];
    match separate_targets(list) {
        Ok(Targets::Files(files)) => {
            let urls: Vec<&str> = files.iter().map(|file| file.url.as_str()).collect();
            assert_eq!(urls, ["https://a.b/c", "https://a.b/d"]);
        }
        _ => panic!("these are files"),
    }
    assert!(matches!(separate_targets(Vec::new()), Ok(Targets::Files(files)) if files.is_empty()));
}

#[test]
fn releases_come_alone() {
    match separate_targets(vec![target("github:o/r")]) {
        Ok(Targets::Release(release)) => assert_eq!(release.repo, "r"),
        _ => panic!("this is a release"),
    }
    let error = |list: Vec<Target>| match separate_targets(list) {
        Ok(_) => panic!("these do not go together"),
        Err(error) => error,
    };
    let both = error(vec![target("https://a.b/c"), target("github:o/r")]);
    assert_eq!(both, TargetsError::Alongside);
    assert_eq!(both.message(), "no target may be specified alongside a github release");
    let two = error(vec![target("github:o/r"), target("https://a.b/c"), target("github:o/s")]);
    assert_eq!(two, TargetsError::Several);
    assert_eq!(two.message(), "only one github release may be specified");
}

#[test]
fn releases_are_described_by_the_api() {
    let url = |s: &str| match target(s) {
        Target::GitHubRelease(release) => api_url(&release),
        Target::Http(_) => panic!("{s} is a file"),
    };
    assert_eq!(url("github:o/r"), "https://api.github.com/repos/o/r/releases/latest");
    assert_eq!(
        url("github:ghe.example.com/o/r/v1"),
        "https://api.ghe.example.com/repos/o/r/releases/tags/v1"
    );
    assert_eq!(authorization("t0k3n"), "Bearer t0k3n");
}

#[test]
fn preferred_libc_is_chosen() {
    let names = [
        "t-linux-x64-gnu.zip",
        "t-linux-x64-musl.zip",
        "t-linux-x64-musl.tar.gz",
        "t-linux-x64.zip",
    ];
    assert_eq!(chosen(&names, &[], false)[1], Some(2));
    assert_eq!(chosen(&names, &[], true)[1], Some(0));
    assert_eq!(chosen(&names[3..], &[], true)[1], Some(0));
    assert_eq!(chosen(&["t-linux-x64.zip", "t-linux-x64.gz"], &[], false)[1], Some(0));
}

#[test]
fn other_assets_are_ignored() {
    let names = ["README.md", "t-linux-x64.zip.sha256", "t-macos-universal.zip", "t-win64.exe"];
    assert_eq!(
        chosen(&names, &[], false),
        [None, None, None, None, None, Some(3), Some(2)]
    );
    assert_eq!(chosen(&names, &[LINUX_X64], false), [None; 7]);
}

#[test]
fn digests_come_from_the_release_or_from_the_next_asset() {
    let hex = "ba7816bf8f01cfea414140de5dae2223b00361a396177a9cb410ff61f20015ad";
    let mut list = assets(&[
        "t-linux-arm64.tar.gz",
        "t-linux-arm64.tar.gz.sha256",
        "t-linux-x64.zip",
        "t-macos-x64.zip",
        "t-macos-x64.zip.sha256",
        "t-win64.zip",
    ]);
    list[2].digest = Some(format!("sha256:{hex}"));
    list[3].digest = Some("md5:00".to_owned());
    let found = resolve(&list, &[], false, &Some("p".to_owned()));
    let ready: Vec<&str> = found.ready.iter().map(|artifact| artifact.url.as_str()).collect();
    assert_eq!(ready, ["https://dl/t-linux-x64.zip", "https://dl/t-win64.zip"]);
    assert!(matches!(found.ready[0].digest, Some(Digest::Sha256(_))));
    assert!(found.ready[1].digest.is_none());
    assert_eq!(found.ready[0].name, "t");
    assert_eq!(found.ready[0].platform, LINUX_X64);
    assert_eq!(found.ready[0].format, Some(ArchiveFormat::Zip));
    assert_eq!(found.ready[0].path.as_deref(), Some("p"));
    assert_eq!(found.ready[0].size, Some(10));
    assert!(!found.ready[0].check_digest);
    let pending: Vec<(&str, &str)> = found
        .pending
        .iter()
        .map(|(artifact, url)| (artifact.url.as_str(), url.as_str()))
        .collect();
    assert_eq!(
        pending,
        [
            ("https://dl/t-linux-arm64.tar.gz", "https://dl/t-linux-arm64.tar.gz.sha256"),
            ("https://dl/t-macos-x64.zip", "https://dl/t-macos-x64.zip.sha256"),
        ]
    );
    assert!(found.pending[0].0.digest.is_none());
    let errors: Vec<String> = found.errors.iter().map(|error| error.message()).collect();
    assert_eq!(errors, ["unknown digest algorithm md5"]);
}

#[test]
fn digests_of_other_assets_are_ignored() {
    let list = assets(&["t-linux-x64.zip", "u-linux-x64.zip.sha256"]);
    let found = resolve(&list, &[], false, &None);
    assert_eq!(found.ready.len(), 1);
    assert!(found.pending.is_empty());
}

#[test]
fn slots_hold_the_chosen_assets() {
    let list = assets(&[
        "tool-linux-x86_64-gnu.tar.gz",
        "tool-linux-x86_64-musl.tar.gz",
        "tool-linux-x86_64-musl.tar.gz.sha256",
        "tool-darwin-arm64.zip",
        "notes.txt",
    ]);
    let found = resolve(&list, &[], false, &None);
    let mut artifacts = found.ready;
    for (mut artifact, url) in found.pending {
        assert_eq!(url, "https://dl/tool-linux-x86_64-musl.tar.gz.sha256");
        artifact.digest = Some(Digest::Sha256([1; 32]));
        artifacts.push(artifact);
    }
    let artifacts = collect_artifacts(artifacts);
    let slots: Vec<(&str, &str, bool)> = artifacts
        .iter()
        .iter()
        .map(|(platform, artifact)| {
            (platform.name(), artifact.url.as_str(), artifact.digest.is_some())
        })
        .collect();
    assert_eq!(
        slots,
        [
            ("linux-x86_64", "https://dl/tool-linux-x86_64-musl.tar.gz", true),
            ("macos-aarch64", "https://dl/tool-darwin-arm64.zip", false),
        ],
    );
}
