use std::hash::Hash;
use std::str::FromStr;

use create_dotslash::digest::Digest;
use create_dotslash::dotslash::{
    collect_entries, to_hex_string, with_header, DotslashFile, DotslashProvider, Entry,
};
use create_dotslash::fetch::FetchedArtifact;
use create_dotslash::format::{drop_windows, plan, Format, Output, Step};
use create_dotslash::shell::{fingerprint_bytes, to_shell, write_case, write_script, ShellError};
use create_dotslash::target::{
    ArchiveFormat, Architecture, Artifact, Artifacts, Os, Platform, Target,
};

const LINUX_X64: Platform = Platform::Known { arch: Architecture::X64, os: Os::Linux };
const MACOS_ARM: Platform = Platform::Known { arch: Architecture::Aarch64, os: Os::Macos };
const WINDOWS_X64: Platform = Platform::Known { arch: Architecture::X64, os: Os::Windows };

fn artifact(url: &str, platform: Platform, format: Option<ArchiveFormat>) -> Artifact {
    Artifact {
        url: url.to_owned(),
        name: "tool".to_owned(),
        platform,
        format,
        path: None,
        digest: None,
        check_digest: false,
        size: None,
    }
}

fn entry(url: &str, platform: Platform, format: Option<ArchiveFormat>, path: &str) -> Entry {
    let fetched = FetchedArtifact {
        size: 123,
        hash: Digest::Sha256([0xab; 32]),
        path: path.to_owned(),
    };
    Entry::new(platform, &artifact(url, platform, format), fetched)
}

fn platforms(entries: &[Entry]) -> Vec<&str> {
    entries.iter().map(|entry| entry.dotslash_platform).collect()
}

#[test]
fn release_assets_are_providers() {
    let url = "https://github.com/o/r/releases/download/v1/tool.zip";
    match DotslashProvider::parse_github_provider(url) {
        Some(DotslashProvider::GitHub { repo, tag, name }) => {
            assert_eq!(repo, "o/r");
            assert_eq!(tag, "v1");
            assert_eq!(name, "tool.zip");
            assert_eq!(
                url,
                format!("https://github.com/{repo}/releases/download/{tag}/{name}")
            );
        }
        provider => panic!("{provider:?}"),
    }
    for url in [
        "https://github.com/o/r/releases/download/v1",
        "https://github.com/o/r/releases/download/v1/a/b",
        "https://github.com/o/r/releases/tag/v1/a",
        "https://github.com/o/r/actions/download/v1/a",
        "https://example.com/o/r/releases/download/v1/a",
        "",
    ] {
        assert!(DotslashProvider::parse_github_provider(url).is_none(), "{url}");
    }
}

#[test]
fn digests_are_written_in_hexadecimal() {
    let bytes: [u8; 32] = std::array::from_fn(|i| i as u8 * 8);
    assert_eq!(
        to_hex_string(&bytes),
        "0008101820283038404850586068707880889098a0a8b0b8c0c8d0d8e0e8f0f8"
    );
}

#[test]
fn entries_describe_downloads() {
    let url = "https://github.com/o/r/releases/download/v1/tool.zip";
    let found = entry(url, LINUX_X64, Some(ArchiveFormat::Zip), "bin/tool");
    assert_eq!(found.platform, LINUX_X64);
    assert_eq!(found.format, Some(ArchiveFormat::Zip));
    assert_eq!(found.dotslash_platform, "linux-x86_64");
    let file = &found.dotslash_url_entry;
    assert_eq!(file.size, 123);
    assert_eq!(file.hash, "sha256");
    assert_eq!(file.digest, "ab".repeat(32));
    assert_eq!(file.format, Some("zip"));
    assert_eq!(file.path, "bin/tool");
    assert_eq!(file.providers.len(), 2);
    assert!(matches!(&file.providers[0], DotslashProvider::Url { url: found } if found == url));
    assert!(matches!(&file.providers[1], DotslashProvider::GitHub { .. }));
    let fetched = FetchedArtifact {
        size: 0,
        hash: Digest::Blake3([1; 32]),
        path: String::new(),
    };
    let found = Entry::new(MACOS_ARM, &artifact("u", MACOS_ARM, None), fetched);
    assert_eq!(found.dotslash_url_entry.hash, "blake3");
    assert_eq!(found.dotslash_url_entry.digest, "01".repeat(32));
    assert_eq!(found.dotslash_url_entry.format, None);
    assert_eq!(found.dotslash_url_entry.providers.len(), 1);
}

#[test]
fn order_of_downloads_does_not_matter() {
    let artifacts = [WINDOWS_X64, LINUX_X64, MACOS_ARM]
        .map(|platform| artifact(platform.name(), platform, None));
    let fetched = |size| FetchedArtifact {
        size,
        hash: Digest::Blake3([0; 32]),
        path: "tool".to_owned(),
    };
    let list = || -> Vec<(Platform, &Artifact, FetchedArtifact)> {
        (0..3).map(|i| (artifacts[i].platform, &artifacts[i], fetched(i as u64))).collect()
    };
    let a = collect_entries(list());
    assert_eq!(platforms(&a), ["linux-x86_64", "macos-aarch64", "windows-x86_64"]);
    let sizes: Vec<u64> = a.iter().map(|entry| entry.dotslash_url_entry.size).collect();
    assert_eq!(sizes, [1, 2, 0]);
    let mut reversed = list();
    reversed.reverse();
    let b = collect_entries(reversed);
    assert_eq!(fingerprint_bytes(&a), fingerprint_bytes(&b));
    assert!(collect_entries(Vec::new()).is_empty());
}

#[test]
fn files_list_each_platform_once() {
    let file = DotslashFile::new(
        "tool".to_owned(),
        vec![
            entry("m", MACOS_ARM, None, "m"),
            entry("l", LINUX_X64, None, "first"),
            entry("l", LINUX_X64, None, "second"),
        ],
    );
    assert_eq!(file.name, "tool");
    let list: Vec<(&str, &str)> = file
        .platforms
        .iter()
        .map(|(platform, file)| (*platform, file.path.as_str()))
        .collect();
    assert_eq!(list, [("linux-x86_64", "second"), ("macos-aarch64", "m")]);
    assert_eq!(with_header(b"{}"), b"#!/usr/bin/env dotslash\n{}");
}

#[test]
fn artifacts_are_planned() {
    let mut artifacts = Artifacts::default();
    let digest = Some(Digest::Sha256([7; 32]));
    artifacts.set(Artifact {
        digest,
        check_digest: true,
        ..artifact("https://A.b/tool", LINUX_X64, None)
    });
    artifacts.set(Artifact {
        digest,
        size: Some(5),
        ..artifact("https://a.b/m", MACOS_ARM, None)
    });
    artifacts.set(Artifact { digest, ..artifact("https://a.b/w", WINDOWS_X64, None) });
    let list = plan(&artifacts).unwrap();
    assert_eq!(list.len(), 3);
    assert_eq!(list[0].0, LINUX_X64);
    match &list[0].2 {
        Step::Fetch { url, expected } => {
            assert_eq!(url, "https://a.b/tool");
            assert!(matches!(expected, Some(Digest::Sha256(bytes)) if *bytes == [7; 32]));
        }
        step => panic!("{step:?}"),
    }
    match &list[1].2 {
        Step::Known(fetched) => {
            assert_eq!(fetched.size, 5);
            assert_eq!(fetched.path, "tool");
        }
        step => panic!("{step:?}"),
    }
    assert!(matches!(&list[2].2, Step::Fetch { expected: None, .. }));
    artifacts.set(Artifact {
        digest,
        check_digest: true,
        size: Some(5),
        path: Some("bin/tool".to_owned()),
        ..artifact("https://a.b/m", MACOS_ARM, None)
    });
    let list = plan(&artifacts).unwrap();
    assert!(matches!(&list[1].2, Step::Fetch { expected: Some(Digest::Sha256(bytes)), .. }
        if *bytes == [7; 32]));
    artifacts.set(artifact("https://", MACOS_ARM, None));
    artifacts.set(artifact("", WINDOWS_X64, None));
    match plan(&artifacts) {
        Ok(_) => panic!("one URL is none"),
        Err(url) => assert_eq!(url, "https://"),
    }
}

#[test]
fn programs_are_named_after_their_binaries() {
    for (path, expected) in [
        ("a/b/tool", "tool"),
        ("tool.exe", "tool"),
        ("bin/tool.exe", "tool"),
        ("tool", "tool"),
        ("dir/", ""),
    ] {
        let entries = [entry("u", LINUX_X64, None, path)];
        assert_eq!(Format::program_name(None, &entries), expected);
        assert_eq!(Format::program_name(Some("n".to_owned()), &entries), "n");
    }
    assert!(Format::Sh.prefer_sha256());
    assert!(!Format::Dotslash.prefer_sha256());
}

#[test]
fn scripts_are_not_for_windows() {
    let mut list = vec![
        entry("w", WINDOWS_X64, None, "w"),
        entry("l", LINUX_X64, None, "l"),
    ];
    assert!(Format::Sh.is_supported(&list));
    assert!(!Format::Sh.is_supported(&list[..1]));
    assert!(Format::Dotslash.is_supported(&list[..1]));
    drop_windows(&mut list);
    assert_eq!(platforms(&list), ["linux-x86_64"]);
}

#[test]
fn formats_give_output() {
    let list = || {
        vec![
            entry("w", WINDOWS_X64, None, "w"),
            entry("l", LINUX_X64, None, "l"),
        ]
    };
    match Format::Dotslash.prepare("tool", list()) {
        Ok(Output::Dotslash(file)) => {
            assert_eq!(file.name, "tool");
            assert_eq!(file.platforms.len(), 2);
        }
        output => panic!("{output:?}"),
    }
    match Format::Sh.prepare("tool", list()) {
        Ok(Output::Sh(bytes)) => {
            let mut expected = Vec::new();
            to_shell(&mut expected, "tool", &list()[1..]).unwrap();
            assert_eq!(bytes, expected);
        }
        output => panic!("{output:?}"),
    }
}

#[test]
fn scripts_need_one_format_and_one_hash() {
    let list = [
        entry("l", LINUX_X64, Some(ArchiveFormat::TarGz), "l"),
        entry("m", MACOS_ARM, None, "m"),
    ];
    let mut out = b"kept".to_vec();
    let error = to_shell(&mut out, "tool", &list).unwrap_err();
    assert!(matches!(error, ShellError::Formats(Some("tar.gz"), None)));
    assert_eq!(
        error.message(),
        "--format=sh requires all entries to have the same format, but found \
         Some(\"tar.gz\") != None"
    );
    assert_eq!(out, b"kept");
    let mut list = [entry("l", LINUX_X64, None, "l"), entry("m", MACOS_ARM, None, "m")];
    list[1].dotslash_url_entry.hash = "blake3";
    let error = to_shell(&mut out, "tool", &list).unwrap_err();
    assert_eq!(
        error.message(),
        "--format=sh requires all entries to have the same hash format, but found \
         sha256 != blake3"
    );
}

/// Collects what the standard library feeds to a hasher.
#[derive(Default)]
struct Collector(Vec<u8>);

impl std::hash::Hasher for Collector {
    fn write(&mut self, bytes: &[u8]) {
        self.0.extend_from_slice(bytes);
    }

    fn finish(&self) -> u64 {
        unreachable!()
    }
}

#[derive(Hash)]
struct HashedEntry {
    size: u64,
    hash: &'static str,
    digest: String,
    format: Option<&'static str>,
    path: String,
    providers: Vec<HashedProvider>,
}

#[derive(Hash)]
enum HashedProvider {
    GitHub { repo: String, tag: String, name: String },
    Url { url: String },
}

/// The bytes by which entries are told apart, as the standard library has them.
fn hashed(entries: &[Entry]) -> Vec<u8> {
    let mut collector = Collector::default();
    entries.len().hash(&mut collector);
    for entry in entries {
        entry.dotslash_platform.hash(&mut collector);
        let file = &entry.dotslash_url_entry;
        let providers = file.providers.iter().map(|provider| match provider {
            DotslashProvider::GitHub { repo, tag, name } => HashedProvider::GitHub {
                repo: repo.clone(),
                tag: tag.clone(),
                name: name.clone(),
            },
            DotslashProvider::Url { url } => HashedProvider::Url { url: url.clone() },
        });
        HashedEntry {
            size: file.size,
            hash: file.hash,
            digest: file.digest.clone(),
            format: file.format,
            path: file.path.clone(),
            providers: providers.collect(),
        }
        .hash(&mut collector);
    }
    collector.0
}

#[test]
fn entries_are_told_apart_by_their_bytes() {
    let list = [
        entry(
            "https://github.com/o/r/releases/download/v1/tool.zip",
            LINUX_X64,
            Some(ArchiveFormat::Zip),
            "bin/t\u{e9}",
        ),
        entry("https://a.b/c", MACOS_ARM, None, ""),
    ];
    assert_eq!(fingerprint_bytes(&list), hashed(&list));
    assert_eq!(fingerprint_bytes(&list[1..]), hashed(&list[1..]));
    assert_eq!(fingerprint_bytes(&[]), [0; 8]);
}

#[test]
fn scripts_are_complete() {
    let list = [
        entry("https://a.b/l", LINUX_X64, Some(ArchiveFormat::TarGz), "bin/tool"),
        entry("https://a.b/m", MACOS_ARM, Some(ArchiveFormat::TarGz), "bin/tool"),
    ];
    let mut out = Vec::new();
    to_shell(&mut out, "to\"ol", &list).unwrap();
    let hash = blake3::hash(&hashed(&list)).to_hex();
    let digest = "ab".repeat(32);
    let expected = format!(
        r#"#!/bin/sh
set -eu

cache_dir="${{XDG_CACHE_HOME:-${{HOME:-}}/.cache/create-dotslash}}"
test "$cache_dir" != "/.cache" || (echo '$XDG_CACHE_HOME or $HOME must be set' >&2 && exit 1)

arch="$(uname -m)"
case "$arch" in
	arm64) arch=aarch64 ;;
	*) ;;
esac

os="$(uname)"
case "$os" in
	Linux|Cygwin) os=linux ;;
	Darwin) os=macos ;;
	*) os="$(echo "$os" | tr '[:upper:]' '[:lower:]')";;
esac

case "$os-$arch" in
	linux-x86_64)
		digest={digest}
		size=123
		url="https://a.b/l"
		;;
	macos-aarch64)
		digest={digest}
		size=123
		url="https://a.b/m"
		;;
	*)
		echo "unknown platform $platform; supported: linux-x86_64, macos-aarch64" >&2
		exit 1
		;;
esac

dir="$cache_dir/to\"ol-{hash}"
bin="$dir/bin/tool"

test -x "$bin" && exec "$bin" "$@"

mkdir -p "$dir"
(flock 9; if ! test -x "$bin"; then
	rm "$dir/.lock"
	tmp="$dir/.tmp"
	checksum="$(curl -fsSL "$url" | tee "$tmp" | sha256sum -b)"
	checksum="${{checksum%% *}}"

	test "$checksum" != "$digest" \
		&& echo "invalid sha256sum checksum; expected $digest, but got $checksum" >&2 \
		&& rm -rf "$dir" \
		&& exit 2

	tar -xzf "$tmp" -C "$dir"
	chmod +x "$bin"
	rm -f "$tmp"
fi) 9>"$dir/.lock"

exec "$bin" "$@"
"#
    );
    assert_eq!(String::from_utf8(out).unwrap(), expected);
}

#[test]
fn scripts_tell_different_paths_apart() {
    let list = [
        entry("https://a.b/l", LINUX_X64, None, "l\"x"),
        entry("https://a.b/m", MACOS_ARM, None, "m"),
    ];
    let mut out = Vec::new();
    to_shell(&mut out, "tool", &list).unwrap();
    let script = String::from_utf8(out).unwrap();
    assert!(script.contains("\tlinux-x86_64)\n\t\tpath=\"l\\\"x\"\n\t\tdigest="));
    assert!(script.contains("\tmacos-aarch64)\n\t\tpath=\"m\"\n"));
    assert!(script.contains("\nbin=\"$dir/$path\"\n"));
    assert!(script.contains("\tmkdir -p \"$(dirname \"$path\")\" && mv \"$tmp\" \"$path\"\n"));
}

#[test]
fn scripts_extract_each_format() {
    for (format, command) in [
        (ArchiveFormat::Tar, r#"tar -xf "$tmp" -C "$dir""#),
        (ArchiveFormat::TarXz, r#"tar -xJf "$tmp" -C "$dir""#),
        (ArchiveFormat::TarZst, r#"tar --zstd -xf "$tmp" -C "$dir""#),
        (ArchiveFormat::TarBz2, r#"tar -xjf "$tmp" -C "$dir""#),
        (ArchiveFormat::Zip, r#"unzip -qq "$tmp" -d "$dir""#),
        (ArchiveFormat::Gz, r#"gzip -dc "$tmp" > "$path""#),
        (ArchiveFormat::Xz, r#"xz -dc "$tmp" > "$path""#),
        (ArchiveFormat::Zst, r#"zstd -d "$tmp" -o "$path""#),
        (ArchiveFormat::Bz2, r#"bzip2 -dc "$tmp" > "$path""#),
    ] {
        let mut list = [entry("https://a.b/l", LINUX_X64, Some(format), "tool")];
        list[0].dotslash_url_entry.hash = "blake3";
        let mut out = Vec::new();
        to_shell(&mut out, "tool", &list).unwrap();
        let script = String::from_utf8(out).unwrap();
        assert!(script.contains(&format!("{command}\n\tchmod")), "{command}");
        assert!(script.contains("| b3sum -b)"));
    }
}

#[test]
fn different_entries_have_different_bytes() {
    let plain = || entry("https://a.b/c", LINUX_X64, None, "tool");
    let base = fingerprint_bytes(&[plain()]);
    let mut others = vec![plain(), plain(), plain(), plain(), plain(), plain()];
    others[0].dotslash_platform = "linux-x86_6";
    others[1].dotslash_url_entry.size = 124;
    others[2].dotslash_url_entry.digest.push('0');
    others[3].dotslash_url_entry.format = Some("");
    others[4].dotslash_url_entry.path = String::new();
    others[5].dotslash_url_entry.providers.pop();
    for other in others {
        assert_ne!(fingerprint_bytes(&[other]), base);
    }
    assert_ne!(fingerprint_bytes(&[plain(), plain()]), base);
    assert_eq!(fingerprint_bytes(&[plain()]), base);
}

#[test]
fn written_digests_are_options() {
    let found = entry("https://a.b/c", LINUX_X64, None, "tool");
    let file = &found.dotslash_url_entry;
    let target = format!("https://a.b/c#{}={}", file.hash, file.digest);
    match Target::from_str(&target) {
        Ok(Target::Http(http)) => {
            assert!(http.digest.unwrap().same_as(&Digest::Sha256([0xab; 32])));
        }
        _ => panic!("{target} is no file"),
    }
}

#[test]
fn parts_of_scripts_are_written() {
    let list = [entry("https://a.b/l", LINUX_X64, None, "tool")];
    let mut out = "kept\n".to_owned();
    write_case(&mut out, &list[0], Some("'p'"), "'u'");
    let digest = "ab".repeat(32);
    assert_eq!(
        out,
        format!(
            "kept\n\tlinux-x86_64)\n\t\tpath='p'\n\t\tdigest={digest}\n\t\tsize=123\n\t\turl='u'\n\t\t;;\n"
        )
    );
    let script = write_script("CASES", "NAME", &[0x0f; 32], &list);
    assert!(script.contains("case \"$os-$arch\" in\nCASES\t*)\n"));
    let hash = "0f".repeat(32);
    assert!(script.contains(&format!("\ndir=\"$cache_dir/NAME-{hash}\"\nbin=\"$dir/tool\"\n")));
}
