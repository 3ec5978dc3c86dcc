//! What the user asks for ([`Target`]) and the files it stands for ([`Artifacts`]).

use vstd::prelude::*;

pub use crate::digest::Digest;
pub use crate::name::{ArtifactName, ArtifactNameError};

verus! {

broadcast use vstd::seq_lib::group_seq_properties;

// ---------------------------------------------------------------------------------------------
// Targets

/// A file to download specified by the user.
#[derive(Clone)]
pub enum Target {
    GitHubRelease(GitHubRelease),
    Http(Http),
}

/// [`Target`]: download a release from GitHub.
#[derive(Clone)]
pub struct GitHubRelease {
    pub host: String,
    pub org: String,
    pub repo: String,
    pub release: Option<String>,
    /// The requested platforms are the first `platform_count` ones. None at all stands for every
    /// platform.
    pub platforms: [Platform; 7],
    pub platform_count: usize,
    pub prefer_gnu: bool,
    pub options: CommonOptions,
}

/// [`Target`]: download a file from an URL.
#[derive(Clone)]
pub struct Http {
    pub url: String,
    pub digest: Option<Digest>,
    pub size: Option<u64>,
    pub options: CommonOptions,
}

/// Options that every [`Target`] takes.
#[derive(Clone)]
pub struct CommonOptions {
    /// The path of the binary in its archive.
    pub path: Option<String>,
}

impl Default for CommonOptions {
    fn default() -> (options: Self)
        ensures
            options.path is None,
    {
        CommonOptions { path: None }
    }
}

// ---------------------------------------------------------------------------------------------
// Artifacts

/// Resolved information about an artifact to fetch.
#[derive(Debug)]
pub struct Artifact {
    /// URL to use to fetch the file.
    pub url: String,
    /// The name of the artifact after parsing.
    pub name: String,
    /// The target platform.
    pub platform: Platform,
    /// Format of the file if it is an archive, or [`None`] if it is not an archive (we know of).
    pub format: Option<ArchiveFormat>,
    /// The path of the binary in its archive. Irrelevant if `format` is `None`.
    pub path: Option<String>,
    /// The digest of the downloaded file, if known. If unknown, the artifact will be fetched and
    /// its digest computed.
    pub digest: Option<Digest>,
    /// Whether the downloaded file must be checked against its digest.
    pub check_digest: bool,
    /// The size of the downloaded file, if known. If unknown, the artifact will be fetched for its
    /// size.
    pub size: Option<u64>,
}

/// What an [`Artifact`] holds.
pub struct ArtifactView {
    pub url: Seq<char>,
    pub name: Seq<char>,
    pub platform: Platform,
    pub format: Option<ArchiveFormat>,
    pub path: Option<Seq<char>>,
    pub digest: Option<crate::digest::DigestView>,
    pub check_digest: bool,
    pub size: Option<u64>,
}

impl View for Artifact {
    type V = ArtifactView;

    open spec fn view(&self) -> ArtifactView {
        ArtifactView {
            url: self.url@,
            name: self.name@,
            platform: self.platform,
            format: self.format,
            path: crate::options::optional(self.path),
            digest: crate::options::optional_digest(self.digest),
            check_digest: self.check_digest,
            size: self.size,
        }
    }
}

/// Copies an optional text.
pub fn copy_text(text: &Option<String>) -> (copy: Option<String>)
    ensures
        copy == *text,
{
    match text {
        Some(text) => Some(text.clone()),
        None => None,
    }
}

impl Clone for Artifact {
    fn clone(&self) -> (copy: Self)
        ensures
            copy == *self,
    {
        Artifact {
            url: self.url.clone(),
            name: self.name.clone(),
            platform: self.platform,
            format: self.format,
            path: copy_text(&self.path),
            digest: self.digest,
            check_digest: self.check_digest,
            size: self.size,
        }
    }
}

/// [`Artifact`]s for all supported platforms.
#[derive(Debug)]
pub struct Artifacts {
    pub linux_aarch64: Option<Artifact>,
    pub linux_x64: Option<Artifact>,
    pub macos_aarch64: Option<Artifact>,
    pub macos_x64: Option<Artifact>,
    pub windows_aarch64: Option<Artifact>,
    pub windows_x64: Option<Artifact>,
}

impl Default for Artifacts {
    fn default() -> (artifacts: Self)
        ensures
            artifacts == Artifacts::none(),
    {
        Artifacts {
            linux_aarch64: None,
            linux_x64: None,
            macos_aarch64: None,
            macos_x64: None,
            windows_aarch64: None,
            windows_x64: None,
        }
    }
}

impl Artifacts {
    /// No artifact for any platform.
    pub open spec fn none() -> Self {
        Artifacts {
            linux_aarch64: None,
            linux_x64: None,
            macos_aarch64: None,
            macos_x64: None,
            windows_aarch64: None,
            windows_x64: None,
        }
    }

    /// The artifact for an operating system and an architecture.
    pub open spec fn slot(self, os: Os, arch: Architecture) -> Option<Artifact> {
        match (os, arch) {
            (Os::Linux, Architecture::Aarch64) => self.linux_aarch64,
            (Os::Linux, Architecture::X64) => self.linux_x64,
            (Os::Macos, Architecture::Aarch64) => self.macos_aarch64,
            (Os::Macos, Architecture::X64) => self.macos_x64,
            (Os::Windows, Architecture::Aarch64) => self.windows_aarch64,
            (Os::Windows, Architecture::X64) => self.windows_x64,
        }
    }

    /// `self` with the artifact of one slot replaced.
    pub open spec fn with_slot(self, os: Os, arch: Architecture, value: Option<Artifact>) -> Self {
        match (os, arch) {
            (Os::Linux, Architecture::Aarch64) => Artifacts { linux_aarch64: value, ..self },
            (Os::Linux, Architecture::X64) => Artifacts { linux_x64: value, ..self },
            (Os::Macos, Architecture::Aarch64) => Artifacts { macos_aarch64: value, ..self },
            (Os::Macos, Architecture::X64) => Artifacts { macos_x64: value, ..self },
            (Os::Windows, Architecture::Aarch64) => Artifacts { windows_aarch64: value, ..self },
            (Os::Windows, Architecture::X64) => Artifacts { windows_x64: value, ..self },
        }
    }

    /// `self` after [`Artifacts::set`].
    pub open spec fn with(self, artifact: Artifact) -> Self {
        match artifact.platform {
            Platform::Known { arch, os } => self.with_slot(os, arch, Some(artifact)),
            Platform::MacosUniversal => {
                let aarch64 = Platform::Known { arch: Architecture::Aarch64, os: Os::Macos };
                let x64 = Platform::Known { arch: Architecture::X64, os: Os::Macos };
                Artifacts {
                    macos_aarch64: Some(Artifact { platform: aarch64, ..artifact }),
                    macos_x64: Some(Artifact { platform: x64, ..artifact }),
                    ..self
                }
            },
        }
    }

    /// The platforms from the `from`-th of [`all_platforms`] on which have an artifact, with that
    /// artifact.
    pub open spec fn listed(self, from: int) -> Seq<(Platform, Artifact)>
        decreases 6 - from,
    {
        if from < 0 || from >= 6 {
            seq![]
        } else {
            let platform = all_platforms()[from];
            let rest = self.listed(from + 1);
            match self.slot(platform->os, platform->arch) {
                Some(artifact) => seq![(platform, artifact)] + rest,
                None => rest,
            }
        }
    }

    /// Records `artifact` for its platform; a universal macOS artifact is recorded for both macOS
    /// platforms.
    pub fn set(&mut self, artifact: Artifact)
        ensures
            *final(self) == old(self).with(artifact),
    {
        match artifact.platform {
            Platform::Known { arch, os } => {
                *self.os_arch_mut(os, arch) = Some(artifact);
            },
            Platform::MacosUniversal => {
                let mut for_aarch64: Artifact = artifact.clone();
                for_aarch64.platform = Platform::Known {
                    arch: Architecture::Aarch64,
                    os: Os::Macos,
                };
                let mut for_x64: Artifact = artifact;
                for_x64.platform = Platform::Known { arch: Architecture::X64, os: Os::Macos };
                self.macos_aarch64 = Some(for_aarch64);
                self.macos_x64 = Some(for_x64);
            },
        }
    }

    /// The slot of an operating system and an architecture.
    pub fn os_arch_mut(&mut self, os: Os, arch: Architecture) -> (slot: &mut Option<Artifact>)
        ensures
            *slot == old(self).slot(os, arch),
            *final(self) == old(self).with_slot(os, arch, *final(slot)),
    {
        self.platform_mut(Platform::Known { arch, os }).unwrap()
    }

    /// The slot of `platform`, unless it stands for several.
    pub fn platform_mut(&mut self, platform: Platform) -> (slot: Option<&mut Option<Artifact>>)
        ensures
            match platform {
                Platform::Known { arch, os } => {
                    &&& slot is Some
                    &&& *slot->0 == old(self).slot(os, arch)
                    &&& *final(self) == old(self).with_slot(os, arch, *final(slot->0))
                },
                Platform::MacosUniversal => slot is None && *final(self) == *old(self),
            },
    {
        match platform {
            Platform::Known { arch, os } => Some(
                match (os, arch) {
                    (Os::Linux, Architecture::Aarch64) => &mut self.linux_aarch64,
                    (Os::Linux, Architecture::X64) => &mut self.linux_x64,
                    (Os::Macos, Architecture::Aarch64) => &mut self.macos_aarch64,
                    (Os::Macos, Architecture::X64) => &mut self.macos_x64,
                    (Os::Windows, Architecture::Aarch64) => &mut self.windows_aarch64,
                    (Os::Windows, Architecture::X64) => &mut self.windows_x64,
                },
            ),
            Platform::MacosUniversal => None,
        }
    }

    /// The artifact of an operating system and an architecture.
    fn os_arch(&self, os: Os, arch: Architecture) -> (artifact: Option<&Artifact>)
        ensures
            match artifact {
                Some(artifact) => self.slot(os, arch) == Some(*artifact),
                None => self.slot(os, arch) is None,
            },
    {
        match (os, arch) {
            (Os::Linux, Architecture::Aarch64) => self.linux_aarch64.as_ref(),
            (Os::Linux, Architecture::X64) => self.linux_x64.as_ref(),
            (Os::Macos, Architecture::Aarch64) => self.macos_aarch64.as_ref(),
            (Os::Macos, Architecture::X64) => self.macos_x64.as_ref(),
            (Os::Windows, Architecture::Aarch64) => self.windows_aarch64.as_ref(),
            (Os::Windows, Architecture::X64) => self.windows_x64.as_ref(),
        }
    }

    /// The platforms which have an artifact, with that artifact, in the order of
    /// [`Platform::all`].
    pub fn iter(&self) -> (list: Vec<(Platform, &Artifact)>)
        ensures
            list@.map_values(|item: (Platform, &Artifact)| (item.0, *item.1)) == self.listed(0),
    {
        let platforms: [Platform; 7] = Platform::all();
        let mut list: Vec<(Platform, &Artifact)> = Vec::new();
        let ghost strip = |item: (Platform, &Artifact)| (item.0, *item.1);
        let mut i: usize = 0;
        while i < 6
            invariant
                i <= 6,
                platforms@ == all_platforms(),
                strip == |item: (Platform, &Artifact)| (item.0, *item.1),
                list@.map_values(strip) + self.listed(i as int) == self.listed(0),
            decreases 6 - i,
        {
            let ghost before = list@.map_values(strip);
            match platforms[i] {
                Platform::Known { arch, os } => {
                    match self.os_arch(os, arch) {
                        Some(artifact) => {
                            let ghost item = (platforms[i as int], *artifact);
                            list.push((platforms[i], artifact));
                            assert(list@.map_values(strip) == before.push(item));
                            assert(before + self.listed(i as int) == before.push(item)
                                + self.listed(i + 1));
                        },
                        None => {},
                    }
                },
                Platform::MacosUniversal => {
                    assert(false);
                },
            }
            i += 1;
        }
        list
    }
}

/// The artifacts of a list, each recorded for its platform.
pub open spec fn collected(list: Seq<Artifact>) -> Artifacts {
    list.fold_left(Artifacts::none(), |artifacts: Artifacts, artifact: Artifact| artifacts.with(artifact))
}

/// Records each artifact of a list for its platform; later ones replace earlier ones.
pub fn collect_artifacts(list: Vec<Artifact>) -> (artifacts: Artifacts)
    ensures
        artifacts == collected(list@),
{
    let ghost all = list@;
    let mut list: Vec<Artifact> = list;
    let mut artifacts: Artifacts = Artifacts::default();
    let ghost mut done: int = 0;
    assert(all.skip(0) == all);
    while list.len() > 0
        invariant
            0 <= done <= all.len(),
            list@ == all.skip(done),
            artifacts == collected(all.take(done)),
        decreases list@.len(),
    {
        artifacts.set(list.remove(0));
        proof {
            assert(all.take(done + 1).drop_last() == all.take(done));
            assert(all.take(done + 1).last() == all[done]);
            assert(all.skip(done).remove(0) == all.skip(done + 1));
            done = done + 1;
        }
    }
    assert(all.take(done) == all);
    artifacts
}

// ---------------------------------------------------------------------------------------------
// Platforms

/// Processor architecture.
#[derive(Clone, Copy, PartialEq, Eq, Debug, Structural)]
pub enum Architecture {
    Aarch64,
    X64,
}

/// Operating system.
#[derive(Clone, Copy, PartialEq, Eq, Debug, Structural)]
pub enum Os {
    Linux,
    Macos,
    Windows,
}

/// `libc` variant of a [`Platform`].
#[derive(Clone, Copy, PartialEq, Eq, Debug, Structural)]
pub enum Libc {
    Gnu,
    Musl,
}

/// Platform of an [`Artifact`].
#[derive(Clone, Copy, PartialEq, Eq, Debug, Structural)]
pub enum Platform {
    Known { arch: Architecture, os: Os },
    MacosUniversal,
}

/// Every platform: those of one operating system and one architecture first.
pub open spec fn all_platforms() -> Seq<Platform> {
    seq![
        Platform::Known { arch: Architecture::Aarch64, os: Os::Linux },
        Platform::Known { arch: Architecture::X64, os: Os::Linux },
        Platform::Known { arch: Architecture::Aarch64, os: Os::Macos },
        Platform::Known { arch: Architecture::X64, os: Os::Macos },
        Platform::Known { arch: Architecture::Aarch64, os: Os::Windows },
        Platform::Known { arch: Architecture::X64, os: Os::Windows },
        Platform::MacosUniversal,
    ]
}

/// The name of a platform in a Dotslash file.
pub open spec fn platform_name(platform: Platform) -> Seq<char> {
    match platform {
        Platform::Known { arch: Architecture::Aarch64, os: Os::Linux } => "linux-aarch64"@,
        Platform::Known { arch: Architecture::X64, os: Os::Linux } => "linux-x86_64"@,
        Platform::Known { arch: Architecture::Aarch64, os: Os::Macos } => "macos-aarch64"@,
        Platform::Known { arch: Architecture::X64, os: Os::Macos } => "macos-x86_64"@,
        Platform::Known { arch: Architecture::Aarch64, os: Os::Windows } => "windows-aarch64"@,
        Platform::Known { arch: Architecture::X64, os: Os::Windows } => "windows-x86_64"@,
        Platform::MacosUniversal => "macos-universal"@,
    }
}

impl Platform {
    /// Every platform: those of one operating system and one architecture first.
    pub fn all() -> (platforms: [Platform; 7])
        ensures
            platforms@ == all_platforms(),
    {
        [
            Platform::Known { arch: Architecture::Aarch64, os: Os::Linux },
            Platform::Known { arch: Architecture::X64, os: Os::Linux },
            Platform::Known { arch: Architecture::Aarch64, os: Os::Macos },
            Platform::Known { arch: Architecture::X64, os: Os::Macos },
            Platform::Known { arch: Architecture::Aarch64, os: Os::Windows },
            Platform::Known { arch: Architecture::X64, os: Os::Windows },
            Platform::MacosUniversal,
        ]
    }

    /// The name of the platform in a Dotslash file; see
    /// <https://dotslash-cli.com/docs/dotslash-file/>.
    pub fn name(&self) -> (name: &'static str)
        ensures
            name@ == platform_name(*self),
    {
        match *self {
            Platform::Known { arch, os } => match (os, arch) {
                (Os::Linux, Architecture::Aarch64) => "linux-aarch64",
                (Os::Linux, Architecture::X64) => "linux-x86_64",
                (Os::Macos, Architecture::Aarch64) => "macos-aarch64",
                (Os::Macos, Architecture::X64) => "macos-x86_64",
                (Os::Windows, Architecture::Aarch64) => "windows-aarch64",
                (Os::Windows, Architecture::X64) => "windows-x86_64",
            },
            Platform::MacosUniversal => "macos-universal",
        }
    }
}

// ---------------------------------------------------------------------------------------------
// Archive formats

/// The archive/compression format of a downloaded file, determined from its file extension.
///
/// See <https://dotslash-cli.com/docs/dotslash-file/#artifact-format>.
#[derive(Clone, Copy, PartialEq, Eq, Debug, Structural)]
pub enum ArchiveFormat {
    Tar,
    TarGz,
    TarXz,
    TarZst,
    TarBz2,
    Zip,
    Gz,
    Xz,
    Zst,
    Bz2,
}

/// The recognized file extensions, longest/most specific first so that e.g. `.tar.gz` is matched
/// before `.gz`.
pub open spec fn extensions() -> Seq<(Seq<char>, ArchiveFormat)> {
    seq![
        (".tar.zst"@, ArchiveFormat::TarZst),
        (".tar.gz"@, ArchiveFormat::TarGz),
        (".tar.xz"@, ArchiveFormat::TarXz),
        (".tar.bz2"@, ArchiveFormat::TarBz2),
        (".tgz"@, ArchiveFormat::TarGz),
        (".txz"@, ArchiveFormat::TarXz),
        (".tzst"@, ArchiveFormat::TarZst),
        (".tar"@, ArchiveFormat::Tar),
        (".zip"@, ArchiveFormat::Zip),
        (".bz2"@, ArchiveFormat::Bz2),
        (".gz"@, ArchiveFormat::Gz),
        (".xz"@, ArchiveFormat::Xz),
        (".zst"@, ArchiveFormat::Zst),
    ]
}

/// The name of a format in a Dotslash file.
pub open spec fn format_name(format: ArchiveFormat) -> Seq<char> {
    match format {
        ArchiveFormat::Tar => "tar"@,
        ArchiveFormat::TarGz => "tar.gz"@,
        ArchiveFormat::TarXz => "tar.xz"@,
        ArchiveFormat::TarZst => "tar.zst"@,
        ArchiveFormat::TarBz2 => "tar.bz2"@,
        ArchiveFormat::Zip => "zip"@,
        ArchiveFormat::Gz => "gz"@,
        ArchiveFormat::Xz => "xz"@,
        ArchiveFormat::Zst => "zst"@,
        ArchiveFormat::Bz2 => "bz2"@,
    }
}

impl ArchiveFormat {
    /// Whether files of this format contain named entries.
    pub open spec fn lists_entries(self) -> bool {
        !(self is Gz || self is Xz || self is Zst || self is Bz2)
    }

    /// The recognized file extensions, longest/most specific first so that e.g. `.tar.gz` is
    /// matched before `.gz`.
    pub fn extensions() -> (list: [(&'static str, ArchiveFormat); 13])
        ensures
            list@.map_values(|item: (&'static str, ArchiveFormat)| (item.0@, item.1))
                == extensions(),
    {
        [
            (".tar.zst", ArchiveFormat::TarZst),
            (".tar.gz", ArchiveFormat::TarGz),
            (".tar.xz", ArchiveFormat::TarXz),
            (".tar.bz2", ArchiveFormat::TarBz2),
            (".tgz", ArchiveFormat::TarGz),
            (".txz", ArchiveFormat::TarXz),
            (".tzst", ArchiveFormat::TarZst),
            (".tar", ArchiveFormat::Tar),
            (".zip", ArchiveFormat::Zip),
            (".bz2", ArchiveFormat::Bz2),
            (".gz", ArchiveFormat::Gz),
            (".xz", ArchiveFormat::Xz),
            (".zst", ArchiveFormat::Zst),
        ]
    }

    /// The name of the format in a Dotslash file.
    pub fn as_str(&self) -> (name: &'static str)
        ensures
            name@ == format_name(*self),
    {
        match self {
            ArchiveFormat::Tar => "tar",
            ArchiveFormat::TarGz => "tar.gz",
            ArchiveFormat::TarXz => "tar.xz",
            ArchiveFormat::TarZst => "tar.zst",
            ArchiveFormat::TarBz2 => "tar.bz2",
            ArchiveFormat::Zip => "zip",
            ArchiveFormat::Gz => "gz",
            ArchiveFormat::Xz => "xz",
            ArchiveFormat::Zst => "zst",
            ArchiveFormat::Bz2 => "bz2",
        }
    }

    /// Whether files of this format contain named entries whose paths can be listed (as opposed
    /// to e.g. a bare `gz` file, which is just a single compressed stream).
    pub fn has_entries(&self) -> (yes: bool)
        ensures
            yes == self.lists_entries(),
    {
        match self {
            ArchiveFormat::Tar
            | ArchiveFormat::TarGz
            | ArchiveFormat::TarXz
            | ArchiveFormat::TarZst
            | ArchiveFormat::TarBz2
            | ArchiveFormat::Zip => true,
            ArchiveFormat::Gz | ArchiveFormat::Xz | ArchiveFormat::Zst | ArchiveFormat::Bz2 => {
                false
            },
        }
    }
}

// ---------------------------------------------------------------------------------------------
// Laws

/// What was set for a platform is what that platform's slot holds, and the slots of the other
/// platforms keep what they held.
pub proof fn set_changes_only_its_platform(
    artifacts: Artifacts,
    artifact: Artifact,
    os: Os,
    arch: Architecture,
)
    ensures
        artifact.platform == (Platform::Known { arch, os }) ==> artifacts.with(artifact).slot(os, arch)
            == Some(artifact),
        artifact.platform is MacosUniversal && os is Macos ==> artifacts.with(artifact).slot(os, arch)
            == Some(Artifact { platform: Platform::Known { arch, os }, ..artifact }),
        artifact.platform is Known && artifact.platform != (Platform::Known { arch, os })
            ==> artifacts.with(artifact).slot(os, arch) == artifacts.slot(os, arch),
        artifact.platform is MacosUniversal && !(os is Macos) ==> artifacts.with(artifact).slot(
            os,
            arch,
        ) == artifacts.slot(os, arch),
{
}

/// Whether an artifact is for an operating system and an architecture.
pub open spec fn is_for(artifact: Artifact, os: Os, arch: Architecture) -> bool {
    match artifact.platform {
        Platform::Known { arch: its_arch, os: its_os } => its_arch == arch && its_os == os,
        Platform::MacosUniversal => os is Macos,
    }
}

/// Once the artifacts of a list are collected, the slot of a platform holds the last of those that
/// are for it, and is empty exactly if there is none.
pub proof fn slot_holds_the_last(list: Seq<Artifact>, os: Os, arch: Architecture)
    ensures
        match collected(list).slot(os, arch) {
            Some(artifact) => exists|i: int|
                #![trigger list[i]]
                0 <= i < list.len() && is_for(list[i], os, arch) && artifact == (Artifact {
                    platform: Platform::Known { arch, os },
                    ..list[i]
                }) && forall|j: int| i < j < list.len() ==> !is_for(#[trigger] list[j], os, arch),
            None => forall|i: int| 0 <= i < list.len() ==> !is_for(#[trigger] list[i], os, arch),
        },
    decreases list.len(),
{
    if list.len() > 0 {
        let before = list.drop_last();
        let last = list.last();
        slot_holds_the_last(before, os, arch);
        set_changes_only_its_platform(collected(before), last, os, arch);
        assert(collected(list) == collected(before).with(last));
        assert(list[list.len() - 1] == last);
        if is_for(last, os, arch) {
            assert(last.platform is Known ==> last == (Artifact {
                platform: Platform::Known { arch, os },
                ..last
            }));
        } else {
            assert(collected(list).slot(os, arch) == collected(before).slot(os, arch));
            if collected(list).slot(os, arch) is Some {
                let artifact = collected(list).slot(os, arch)->0;
                let i = choose|i: int|
                    #![trigger before[i]]
                    0 <= i < before.len() && is_for(before[i], os, arch) && artifact == (Artifact {
                        platform: Platform::Known { arch, os },
                        ..before[i]
                    }) && forall|j: int| i < j < before.len() ==> !is_for(#[trigger] before[j], os, arch);
                assert(list[i] == before[i]);
                assert forall|j: int| i < j < list.len() implies !is_for(#[trigger] list[j], os, arch) by {
                    if j < before.len() {
                        assert(before[j] == list[j]);
                    }
                }
            } else {
                assert forall|j: int| 0 <= j < list.len() implies !is_for(#[trigger] list[j], os, arch) by {
                    if j < before.len() {
                        assert(before[j] == list[j]);
                    }
                }
            }
        }
    }
}

/// Every platform is among all platforms, and none is twice.
pub proof fn all_platforms_are_all(platform: Platform)
    ensures
        all_platforms().contains(platform),
        all_platforms().no_duplicates(),
{
    let index: int = match platform {
        Platform::Known { arch: Architecture::Aarch64, os: Os::Linux } => 0,
        Platform::Known { arch: Architecture::X64, os: Os::Linux } => 1,
        Platform::Known { arch: Architecture::Aarch64, os: Os::Macos } => 2,
        Platform::Known { arch: Architecture::X64, os: Os::Macos } => 3,
        Platform::Known { arch: Architecture::Aarch64, os: Os::Windows } => 4,
        Platform::Known { arch: Architecture::X64, os: Os::Windows } => 5,
        Platform::MacosUniversal => 6,
    };
    assert(all_platforms()[index] == platform);
}

/// Every platform that has an artifact is listed, with that artifact, and nothing else is.
pub proof fn listed_is_complete(artifacts: Artifacts, os: Os, arch: Architecture, artifact: Artifact)
    ensures
        artifacts.listed(0).contains((Platform::Known { arch, os }, artifact)) <==> artifacts.slot(
            os,
            arch,
        ) == Some(artifact),
{
    lemma_listed(artifacts, 0);
    let item = (Platform::Known { arch, os }, artifact);
    if artifacts.slot(os, arch) == Some(artifact) {
        let i: int = match (os, arch) {
            (Os::Linux, Architecture::Aarch64) => 0,
            (Os::Linux, Architecture::X64) => 1,
            (Os::Macos, Architecture::Aarch64) => 2,
            (Os::Macos, Architecture::X64) => 3,
            (Os::Windows, Architecture::Aarch64) => 4,
            (Os::Windows, Architecture::X64) => 5,
        };
        assert(all_platforms()[i] == item.0);
        lemma_listed_has(artifacts, 0, i);
    }
}

/// No platform is listed twice.
pub proof fn listed_once(artifacts: Artifacts, i: int, j: int)
    requires
        0 <= i < j < artifacts.listed(0).len(),
    ensures
        artifacts.listed(0)[i].0 != artifacts.listed(0)[j].0,
{
    lemma_listed(artifacts, 0);
}

/// The position of a platform in [`all_platforms`].
spec fn rank(platform: Platform) -> int {
    match platform {
        Platform::Known { arch: Architecture::Aarch64, os: Os::Linux } => 0,
        Platform::Known { arch: Architecture::X64, os: Os::Linux } => 1,
        Platform::Known { arch: Architecture::Aarch64, os: Os::Macos } => 2,
        Platform::Known { arch: Architecture::X64, os: Os::Macos } => 3,
        Platform::Known { arch: Architecture::Aarch64, os: Os::Windows } => 4,
        Platform::Known { arch: Architecture::X64, os: Os::Windows } => 5,
        Platform::MacosUniversal => 6,
    }
}

proof fn lemma_listed(artifacts: Artifacts, from: int)
    requires
        0 <= from <= 6,
    ensures
        forall|i: int| #![trigger artifacts.listed(from)[i]] 0 <= i < artifacts.listed(from).len() ==> {
            let (platform, artifact) = artifacts.listed(from)[i];
            &&& platform is Known
            &&& rank(platform) >= from
            &&& artifacts.slot(platform->os, platform->arch) == Some(artifact)
        },
        forall|i: int, j: int|
            #![trigger artifacts.listed(from)[i], artifacts.listed(from)[j]]
            0 <= i < j < artifacts.listed(from).len() ==> rank(artifacts.listed(from)[i].0) < rank(
                artifacts.listed(from)[j].0,
            ),
    decreases 6 - from,
{
    if from < 6 {
        lemma_listed(artifacts, from + 1);
        let platform = all_platforms()[from];
        let rest = artifacts.listed(from + 1);
        if artifacts.slot(platform->os, platform->arch) is Some {
            let all = artifacts.listed(from);
            assert forall|i: int| 1 <= i < all.len() implies #[trigger] all[i] == rest[i - 1] by {}
        }
    }
}

proof fn lemma_listed_has(artifacts: Artifacts, from: int, i: int)
    requires
        0 <= from <= i < 6,
        artifacts.slot(all_platforms()[i]->os, all_platforms()[i]->arch) is Some,
    ensures
        artifacts.listed(from).contains(
            (
                all_platforms()[i],
                artifacts.slot(all_platforms()[i]->os, all_platforms()[i]->arch)->0,
            ),
        ),
    decreases i - from,
{
    let item = (
        all_platforms()[i],
        artifacts.slot(all_platforms()[i]->os, all_platforms()[i]->arch)->0,
    );
    if from < i {
        lemma_listed_has(artifacts, from + 1, i);
        let rest = artifacts.listed(from + 1);
        let k = choose|k: int| 0 <= k < rest.len() && rest[k] == item;
        let all = artifacts.listed(from);
        if all.len() == rest.len() {
            assert(all[k] == item);
        } else {
            assert(all[k + 1] == item);
        }
    } else {
        assert(artifacts.listed(from)[0] == item);
    }
}

} // verus!
