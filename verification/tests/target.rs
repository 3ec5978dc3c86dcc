use create_dotslash::target::{
    collect_artifacts, ArchiveFormat, Architecture, Artifact, Artifacts, CommonOptions, Os,
    Platform,
};

fn artifact(url: &str, platform: Platform) -> Artifact {
    Artifact {
        url: url.to_owned(),
        name: "tool".to_owned(),
        platform,
        format: None,
        path: None,
        digest: None,
        check_digest: false,
        size: None,
    }
}

fn urls(artifacts: &Artifacts) -> Vec<(&'static str, String)> {
    artifacts
        .iter()
        .iter()
        .map(|(platform, artifact)| (platform.name(), artifact.url.clone()))
        .collect()
}

#[test]
fn artifacts_are_kept_by_platform() {
    let mut artifacts = Artifacts::default();
    assert!(urls(&artifacts).is_empty());
    for platform in &Platform::all()[..6] {
        artifacts.set(artifact(platform.name(), *platform));
    }
    assert_eq!(
        urls(&artifacts),
        [
            "linux-aarch64",
            "linux-x86_64",
            "macos-aarch64",
            "macos-x86_64",
            "windows-aarch64",
            "windows-x86_64",
        ]
        .map(|name| (name, name.to_owned()))
    );
}

#[test]
fn last_artifact_for_a_platform_is_kept() {
    let platform = Platform::Known { arch: Architecture::X64, os: Os::Linux };
    let mut artifacts = Artifacts::default();
    artifacts.set(artifact("a", platform));
    artifacts.set(artifact("b", platform));
    assert_eq!(urls(&artifacts), [("linux-x86_64", "b".to_owned())]);
}

#[test]
fn universal_artifacts_are_for_both_architectures() {
    let mut artifacts = Artifacts::default();
    artifacts.set(artifact("u", Platform::MacosUniversal));
    assert_eq!(
        urls(&artifacts),
        [
            ("macos-aarch64", "u".to_owned()),
            ("macos-x86_64", "u".to_owned()),
        ]
    );
}

#[test]
fn slots_can_be_changed() {
    let mut artifacts = Artifacts::default();
    let platform = Platform::Known { arch: Architecture::Aarch64, os: Os::Windows };
    *artifacts.os_arch_mut(Os::Windows, Architecture::Aarch64) = Some(artifact("w", platform));
    assert_eq!(urls(&artifacts), [("windows-aarch64", "w".to_owned())]);
    assert!(artifacts.platform_mut(Platform::MacosUniversal).is_none());
    *artifacts.platform_mut(platform).unwrap() = None;
    assert!(urls(&artifacts).is_empty());
}

#[test]
fn formats_have_names() {
    assert_eq!(ArchiveFormat::TarGz.as_str(), "tar.gz");
    assert_eq!(ArchiveFormat::Bz2.as_str(), "bz2");
    assert!(ArchiveFormat::Zip.has_entries());
    assert!(ArchiveFormat::TarZst.has_entries());
    assert!(!ArchiveFormat::Zst.has_entries());
}

#[test]
fn options_are_empty_by_default() {
    assert_eq!(CommonOptions::default().path, None);
    assert_eq!(Platform::MacosUniversal.name(), "macos-universal");
}

#[test]
fn platforms_differ() {
    let all = Platform::all();
    for (i, a) in all.iter().enumerate() {
        for (j, b) in all.iter().enumerate() {
            assert_eq!(a == b, i == j);
            assert_eq!(a.name() == b.name(), i == j);
        }
    }
}

#[test]
fn artifacts_are_collected() {
    let linux = Platform::Known { arch: Architecture::X64, os: Os::Linux };
    let macos = Platform::Known { arch: Architecture::Aarch64, os: Os::Macos };
    assert!(urls(&collect_artifacts(Vec::new())).is_empty());
    let artifacts = collect_artifacts(vec![
        artifact("a", linux),
        artifact("b", macos),
        artifact("c", Platform::MacosUniversal),
        artifact("d", linux),
    ]);
    assert_eq!(
        urls(&artifacts),
        [("linux-x86_64", "d"), ("macos-aarch64", "c"), ("macos-x86_64", "c")]
            .map(|(platform, url)| (platform, url.to_owned())),
    );
    let artifacts =
        collect_artifacts(vec![artifact("c", Platform::MacosUniversal), artifact("b", macos)]);
    assert_eq!(
        urls(&artifacts),
        [("macos-aarch64", "b"), ("macos-x86_64", "c")]
            .map(|(platform, url)| (platform, url.to_owned())),
    );
}
