use std::str::FromStr;

use create_dotslash::name::{ArtifactName, ArtifactNameError};
use create_dotslash::target::{ArchiveFormat, Architecture, Libc, Os, Platform};

const LINUX_AARCH64: Platform = Platform::Known {
    arch: Architecture::Aarch64,
    os: Os::Linux,
};
const LINUX_X64: Platform = Platform::Known {
    arch: Architecture::X64,
    os: Os::Linux,
};
const MACOS_AARCH64: Platform = Platform::Known {
    arch: Architecture::Aarch64,
    os: Os::Macos,
};
const MACOS_X64: Platform = Platform::Known {
    arch: Architecture::X64,
    os: Os::Macos,
};
const WINDOWS_AARCH64: Platform = Platform::Known {
    arch: Architecture::Aarch64,
    os: Os::Windows,
};
const WINDOWS_X64: Platform = Platform::Known {
    arch: Architecture::X64,
    os: Os::Windows,
};
const WINDOWS_X64_MSVC: Platform = Platform::Known {
    arch: Architecture::X64,
    os: Os::Windows,
};

#[test]
fn parse_artifact_name() {
    let assert_artifact_name_libc = |file_name, name, platform, format, libc| {
        let actual = ArtifactName::from_str(file_name).unwrap();

        assert_eq!(actual.name, name);
        assert_eq!(actual.platform, platform);
        assert_eq!(actual.format, format);
        assert_eq!(actual.libc, libc);
    };
    let assert_artifact_name = |file_name, name, platform, format| {
        assert_artifact_name_libc(file_name, name, platform, format, None)
    };

    // https://github.com/protocolbuffers/protobuf/releases/tag/v28.2
    assert_artifact_name(
        "protoc-28.2-linux-aarch_64.zip",
        "protoc",
        LINUX_AARCH64,
        Some(ArchiveFormat::Zip),
    );
    assert_artifact_name(
        "protoc-28.2-linux-x86_64.zip",
        "protoc",
        LINUX_X64,
        Some(ArchiveFormat::Zip),
    );
    assert_artifact_name(
        "protoc-28.2-osx-aarch_64.zip",
        "protoc",
        MACOS_AARCH64,
        Some(ArchiveFormat::Zip),
    );
    assert_artifact_name(
        "protoc-28.2-osx-universal_binary.zip",
        "protoc",
        Platform::MacosUniversal,
        Some(ArchiveFormat::Zip),
    );
    assert_artifact_name(
        "protoc-28.2-osx-x86_64.zip",
        "protoc",
        MACOS_X64,
        Some(ArchiveFormat::Zip),
    );
    assert_artifact_name(
        "protoc-28.2-win64.zip",
        "protoc",
        WINDOWS_X64,
        Some(ArchiveFormat::Zip),
    );

    // https://github.com/protocolbuffers/protobuf/releases/tag/v29.0-rc2
    assert_artifact_name(
        "protoc-29.0-rc-2-linux-x86_64.zip",
        "protoc",
        LINUX_X64,
        Some(ArchiveFormat::Zip),
    );

    // https://github.com/denoland/deno/releases/tag/v1.46.3
    assert_artifact_name(
        "deno-aarch64-apple-darwin.zip",
        "deno",
        MACOS_AARCH64,
        Some(ArchiveFormat::Zip),
    );

    assert_artifact_name_libc(
        "deno-aarch64-unknown-linux-gnu.zip",
        "deno",
        LINUX_AARCH64,
        Some(ArchiveFormat::Zip),
        Some(Libc::Gnu),
    );

    assert_artifact_name(
        "deno-x86_64-apple-darwin.zip",
        "deno",
        MACOS_X64,
        Some(ArchiveFormat::Zip),
    );

    assert_artifact_name(
        "deno-x86_64-pc-windows-msvc.zip",
        "deno",
        WINDOWS_X64_MSVC,
        Some(ArchiveFormat::Zip),
    );

    assert_artifact_name_libc(
        "deno-x86_64-unknown-linux-gnu.zip",
        "deno",
        LINUX_X64,
        Some(ArchiveFormat::Zip),
        Some(Libc::Gnu),
    );

    // https://github.com/bazelbuild/bazel/releases/tag/7.3.1
    assert_artifact_name("bazel-7.3.1-darwin-arm64", "bazel", MACOS_AARCH64, None);

    assert_artifact_name("bazel-7.3.1-darwin-x86_64", "bazel", MACOS_X64, None);

    assert_artifact_name("bazel-7.3.1-linux-arm64", "bazel", LINUX_AARCH64, None);

    assert_artifact_name("bazel-7.3.1-linux-x86_64", "bazel", LINUX_X64, None);

    assert_artifact_name(
        "bazel-7.3.1-windows-arm64.exe",
        "bazel",
        WINDOWS_AARCH64,
        None,
    );

    assert_artifact_name(
        "bazel-7.3.1-windows-arm64.zip",
        "bazel",
        WINDOWS_AARCH64,
        Some(ArchiveFormat::Zip),
    );
    assert_artifact_name("bazel-7.3.1-windows-x86_64.exe", "bazel", WINDOWS_X64, None);
    assert_artifact_name(
        "bazel-7.3.1-windows-x86_64.zip",
        "bazel",
        WINDOWS_X64,
        Some(ArchiveFormat::Zip),
    );

    // https://github.com/facebook/buck2/releases/tag/2024-09-16
    assert_artifact_name(
        "buck2-aarch64-apple-darwin.zst",
        "buck2",
        MACOS_AARCH64,
        Some(ArchiveFormat::Zst),
    );

    assert_artifact_name_libc(
        "buck2-aarch64-unknown-linux-gnu.zst",
        "buck2",
        LINUX_AARCH64,
        Some(ArchiveFormat::Zst),
        Some(Libc::Gnu),
    );

    assert_artifact_name_libc(
        "buck2-aarch64-unknown-linux-musl.zst",
        "buck2",
        LINUX_AARCH64,
        Some(ArchiveFormat::Zst),
        Some(Libc::Musl),
    );

    assert_artifact_name(
        "buck2-x86_64-apple-darwin.zst",
        "buck2",
        MACOS_X64,
        Some(ArchiveFormat::Zst),
    );

    assert_artifact_name(
        "buck2-x86_64-pc-windows-msvc.exe.zst",
        "buck2",
        WINDOWS_X64_MSVC,
        Some(ArchiveFormat::Zst),
    );

    assert_artifact_name_libc(
        "buck2-x86_64-unknown-linux-gnu.zst",
        "buck2",
        LINUX_X64,
        Some(ArchiveFormat::Zst),
        Some(Libc::Gnu),
    );

    assert_artifact_name_libc(
        "buck2-x86_64-unknown-linux-musl.zst",
        "buck2",
        LINUX_X64,
        Some(ArchiveFormat::Zst),
        Some(Libc::Musl),
    );

    // https://github.com/BurntSushi/ripgrep/releases/tag/14.1.1
    assert_artifact_name(
        "ripgrep-14.1.1-aarch64-apple-darwin.tar.gz",
        "ripgrep",
        MACOS_AARCH64,
        Some(ArchiveFormat::TarGz),
    );
    assert_artifact_name_libc(
        "ripgrep-14.1.1-aarch64-unknown-linux-gnu.tar.gz",
        "ripgrep",
        LINUX_AARCH64,
        Some(ArchiveFormat::TarGz),
        Some(Libc::Gnu),
    );
    assert_artifact_name(
        "ripgrep-14.1.1-x86_64-apple-darwin.tar.gz",
        "ripgrep",
        MACOS_X64,
        Some(ArchiveFormat::TarGz),
    );
    assert_artifact_name_libc(
        "ripgrep-14.1.1-x86_64-pc-windows-gnu.zip",
        "ripgrep",
        WINDOWS_X64,
        Some(ArchiveFormat::Zip),
        Some(Libc::Gnu),
    );
    assert_artifact_name(
        "ripgrep-14.1.1-x86_64-pc-windows-msvc.zip",
        "ripgrep",
        WINDOWS_X64_MSVC,
        Some(ArchiveFormat::Zip),
    );
    assert_artifact_name_libc(
        "ripgrep-14.1.1-x86_64-unknown-linux-musl.tar.gz",
        "ripgrep",
        LINUX_X64,
        Some(ArchiveFormat::TarGz),
        Some(Libc::Musl),
    );

    // https://github.com/cameron-martin/bazel-lsp/releases/tag/v0.6.1
    assert_artifact_name(
        "bazel-lsp-0.6.1-osx-arm64",
        "bazel-lsp",
        MACOS_AARCH64,
        None,
    );

    // https://github.com/bazelbuild/bazel-watcher/releases/tag/v0.25.3
    assert_artifact_name("ibazel_darwin_arm64", "ibazel", MACOS_AARCH64, None);
    assert_artifact_name("ibazel_linux_amd64", "ibazel", LINUX_X64, None);
    assert_artifact_name("ibazel_windows_amd64.exe", "ibazel", WINDOWS_X64, None);

    // https://github.com/sharkdp/bat/releases/tag/v0.25.0
    assert_artifact_name(
        "bat-v0.25.0-aarch64-apple-darwin.tar.gz",
        "bat",
        MACOS_AARCH64,
        Some(ArchiveFormat::TarGz),
    );
    assert_artifact_name_libc(
        "bat-v0.25.0-aarch64-unknown-linux-musl.tar.gz",
        "bat",
        LINUX_AARCH64,
        Some(ArchiveFormat::TarGz),
        Some(Libc::Musl),
    );
    assert_artifact_name_libc(
        "bat-v0.25.0-x86_64-unknown-linux-gnu.tar.gz",
        "bat",
        LINUX_X64,
        Some(ArchiveFormat::TarGz),
        Some(Libc::Gnu),
    );

    // https://github.com/rr-debugger/rr/releases/tag/5.9.0
    assert_artifact_name(
        "rr-5.9.0-Linux-aarch64.tar.gz",
        "rr",
        LINUX_AARCH64,
        Some(ArchiveFormat::TarGz),
    );
    assert_artifact_name(
        "rr-5.9.0-Linux-x86_64.tar.gz",
        "rr",
        LINUX_X64,
        Some(ArchiveFormat::TarGz),
    );

    // https://github.com/facebook/dotslash/releases/tag/v0.5.9
    assert_artifact_name_libc(
        "dotslash-linux-musl.aarch64.tar.gz",
        "dotslash",
        LINUX_AARCH64,
        Some(ArchiveFormat::TarGz),
        Some(Libc::Musl),
    );
    assert_artifact_name_libc(
        "dotslash-linux-musl.arm64.v0.5.9.tar.gz",
        "dotslash",
        LINUX_AARCH64,
        Some(ArchiveFormat::TarGz),
        Some(Libc::Musl),
    );
    assert_artifact_name_libc(
        "dotslash-linux-musl.x86_64.tar.gz",
        "dotslash",
        LINUX_X64,
        Some(ArchiveFormat::TarGz),
        Some(Libc::Musl),
    );
    assert_artifact_name_libc(
        "dotslash-linux-musl.x86_64.v0.5.9.tar.gz",
        "dotslash",
        LINUX_X64,
        Some(ArchiveFormat::TarGz),
        Some(Libc::Musl),
    );
    assert_artifact_name(
        "dotslash-macos-amd64.v0.5.9.tar.gz",
        "dotslash",
        MACOS_X64,
        Some(ArchiveFormat::TarGz),
    );
    assert_artifact_name(
        "dotslash-macos-arm64.tar.gz",
        "dotslash",
        MACOS_AARCH64,
        Some(ArchiveFormat::TarGz),
    );
    assert_artifact_name(
        "dotslash-macos-arm64.v0.5.9.tar.gz",
        "dotslash",
        MACOS_AARCH64,
        Some(ArchiveFormat::TarGz),
    );
    assert_artifact_name(
        "dotslash-macos-x86_64.tar.gz",
        "dotslash",
        MACOS_X64,
        Some(ArchiveFormat::TarGz),
    );
    assert_artifact_name(
        "dotslash-ubuntu-22.04.aarch64.tar.gz",
        "dotslash",
        LINUX_AARCH64,
        Some(ArchiveFormat::TarGz),
    );
    assert_artifact_name(
        "dotslash-ubuntu-22.04.arm64.v0.5.9.tar.gz",
        "dotslash",
        LINUX_AARCH64,
        Some(ArchiveFormat::TarGz),
    );
    assert_artifact_name(
        "dotslash-ubuntu-22.04.x86_64.tar.gz",
        "dotslash",
        LINUX_X64,
        Some(ArchiveFormat::TarGz),
    );
    assert_artifact_name(
        "dotslash-ubuntu-22.04.x86_64.v0.5.9.tar.gz",
        "dotslash",
        LINUX_X64,
        Some(ArchiveFormat::TarGz),
    );
    assert_artifact_name(
        "dotslash-windows-arm64.tar.gz",
        "dotslash",
        WINDOWS_AARCH64,
        Some(ArchiveFormat::TarGz),
    );
    assert_artifact_name(
        "dotslash-windows-arm64.v0.5.9.tar.gz",
        "dotslash",
        WINDOWS_AARCH64,
        Some(ArchiveFormat::TarGz),
    );

    // https://ziglang.org/builds/zig-x86_64-linux-0.17.0-dev.1422+e863bf3be.tar.xz
    assert_artifact_name(
        "zig-x86_64-linux-0.17.0-dev.1422+e863bf3be.tar.xz",
        "zig",
        LINUX_X64,
        Some(ArchiveFormat::TarXz),
    );
}

fn error_of(file_name: &str) -> String {
    match ArtifactName::from_str(file_name) {
        Ok(_) => panic!("{file_name} was read"),
        Err(error) => error.message(),
    }
}

#[test]
fn names_which_say_too_little() {
    assert_eq!(error_of("tool-linux.zip"), "missing architecture in file name");
    assert_eq!(error_of("tool-x86_64.zip"), "missing os in file name");
    assert_eq!(error_of(""), "missing architecture in file name");
    assert_eq!(
        ArtifactNameError::UnknownFormat.message(),
        "unknown format"
    );
}

#[test]
fn names_with_unknown_segments() {
    assert_eq!(
        error_of("tool-linux-x86_64-unheard.zip"),
        "unknown segment in file name: unheard"
    );
}

#[test]
fn extensions_are_taken_off_longest_first() {
    let name = ArtifactName::from_str("tool-linux-x64.tar.gz").unwrap();
    assert_eq!(name.format, Some(ArchiveFormat::TarGz));
    assert_eq!(name.name, "tool");
    let name = ArtifactName::from_str("tool-linux-x64.gz").unwrap();
    assert_eq!(name.format, Some(ArchiveFormat::Gz));
    let name = ArtifactName::from_str("tool-windows-x64.exe").unwrap();
    assert_eq!(name.format, None);
    assert_eq!(name.name, "tool");
}
