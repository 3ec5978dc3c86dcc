//! Laws of [`crate::target`]: how formats and platforms are written, and what is in archives.

use vstd::prelude::*;

use crate::fetch;
use crate::name;
use crate::target;
use crate::target::{ArchiveFormat, Architecture, Artifacts, Os, Platform};

verus! {

/// Where a text ends with two others, these end with the same characters.
proof fn lemma_same_end(whole: Seq<char>, a: Seq<char>, b: Seq<char>, k: int)
    requires
        a.is_suffix_of(whole),
        b.is_suffix_of(whole),
        0 <= k < a.len(),
        k < b.len(),
    ensures
        a[a.len() - 1 - k] == b[b.len() - 1 - k],
{
    let n = whole.len();
    assert(a[a.len() - 1 - k] == whole[n - 1 - k]);
    assert(b[b.len() - 1 - k] == whole[n - 1 - k]);
}

/// The first extension with which a file name ends is the one which is found.
proof fn lemma_extension(file: Seq<char>, from: int, at: int)
    requires
        0 <= from <= at < target::extensions().len(),
        target::extensions()[at].0.is_suffix_of(file),
        forall|j: int|
            from <= j < at ==> !(#[trigger] target::extensions()[j]).0.is_suffix_of(file),
    ensures
        name::extension_from(file, from) == Some(at),
    decreases at - from,
{
    if from < at {
        lemma_extension(file, from + 1, at);
    }
}

/// A file name which ends with the extension at `at`, and with no other before it.
proof fn lemma_format(stem: Seq<char>, at: int)
    requires
        0 <= at < target::extensions().len(),
        9 <= at ==> !".tar"@.is_suffix_of(stem),
    ensures
        name::format_of(stem + target::extensions()[at].0) == Some(target::extensions()[at].1),
        name::unpacked(stem + target::extensions()[at].0) == stem,
{
    let known = target::extensions();
    let own = known[at].0;
    let file = stem + own;
    assert(file.subrange(file.len() - own.len(), file.len() as int) == own);
    assert(own.is_suffix_of(file));
    assert forall|j: int| 0 <= j < at implies !(#[trigger] known[j]).0.is_suffix_of(file) by {
        let other = known[j].0;
        if other.is_suffix_of(file) {
            reveal_strlit(".tar.zst");
            reveal_strlit(".tar.gz");
            reveal_strlit(".tar.xz");
            reveal_strlit(".tar.bz2");
            reveal_strlit(".tgz");
            reveal_strlit(".txz");
            reveal_strlit(".tzst");
            reveal_strlit(".tar");
            reveal_strlit(".zip");
            reveal_strlit(".bz2");
            reveal_strlit(".gz");
            reveal_strlit(".xz");
            reveal_strlit(".zst");
            lemma_same_end(file, own, other, 0);
            lemma_same_end(file, own, other, 1);
            lemma_same_end(file, own, other, 2);
            if own.len() > 3 && other.len() > 3 {
                lemma_same_end(file, own, other, 3);
            }
            if j < 4 && at >= 9 {
                let n = stem.len();
                let m = other.len();
                assert(other.take(4) == ".tar"@);
                assert(m - own.len() == 4);
                assert(other == file.subrange(n - 4, file.len() as int));
                assert(stem.subrange(n - 4, n as int) == other.take(4)) by {
                    assert forall|i: int| 0 <= i < 4 implies stem[n - 4 + i] == other[i] by {
                        assert(file[n - 4 + i] == other[i]);
                    }
                }
                assert(".tar"@.is_suffix_of(stem));
            }
        }
    }
    lemma_extension(file, 0, at);
    assert(file.take(stem.len() as int) == stem);
}

/// A file name is that of an archive of the format that its extension says, whatever precedes it.
pub proof fn extension_says_the_format(stem: Seq<char>)
    ensures
        name::format_of(stem + ".tar"@) == Some(ArchiveFormat::Tar),
        name::format_of(stem + ".tar.gz"@) == Some(ArchiveFormat::TarGz),
        name::format_of(stem + ".tgz"@) == Some(ArchiveFormat::TarGz),
        name::format_of(stem + ".tar.xz"@) == Some(ArchiveFormat::TarXz),
        name::format_of(stem + ".txz"@) == Some(ArchiveFormat::TarXz),
        name::format_of(stem + ".tar.zst"@) == Some(ArchiveFormat::TarZst),
        name::format_of(stem + ".tzst"@) == Some(ArchiveFormat::TarZst),
        name::format_of(stem + ".tar.bz2"@) == Some(ArchiveFormat::TarBz2),
        name::format_of(stem + ".zip"@) == Some(ArchiveFormat::Zip),
        !".tar"@.is_suffix_of(stem) ==> {
            &&& name::format_of(stem + ".gz"@) == Some(ArchiveFormat::Gz)
            &&& name::format_of(stem + ".xz"@) == Some(ArchiveFormat::Xz)
            &&& name::format_of(stem + ".zst"@) == Some(ArchiveFormat::Zst)
            &&& name::format_of(stem + ".bz2"@) == Some(ArchiveFormat::Bz2)
        },
{
    lemma_format(stem, 0);
    lemma_format(stem, 1);
    lemma_format(stem, 2);
    lemma_format(stem, 3);
    lemma_format(stem, 4);
    lemma_format(stem, 5);
    lemma_format(stem, 6);
    lemma_format(stem, 7);
    lemma_format(stem, 8);
    if !".tar"@.is_suffix_of(stem) {
        lemma_format(stem, 9);
        lemma_format(stem, 10);
        lemma_format(stem, 11);
        lemma_format(stem, 12);
    }
}

/// What is left of a file name without its extension is what precedes it.
pub proof fn extension_is_taken_off(stem: Seq<char>)
    ensures
        name::unpacked(stem + ".tar"@) == stem,
        name::unpacked(stem + ".tar.gz"@) == stem,
        name::unpacked(stem + ".tgz"@) == stem,
        name::unpacked(stem + ".tar.xz"@) == stem,
        name::unpacked(stem + ".txz"@) == stem,
        name::unpacked(stem + ".tar.zst"@) == stem,
        name::unpacked(stem + ".tzst"@) == stem,
        name::unpacked(stem + ".tar.bz2"@) == stem,
        name::unpacked(stem + ".zip"@) == stem,
        !".tar"@.is_suffix_of(stem) ==> {
            &&& name::unpacked(stem + ".gz"@) == stem
            &&& name::unpacked(stem + ".xz"@) == stem
            &&& name::unpacked(stem + ".zst"@) == stem
            &&& name::unpacked(stem + ".bz2"@) == stem
        },
{
    lemma_format(stem, 0);
    lemma_format(stem, 1);
    lemma_format(stem, 2);
    lemma_format(stem, 3);
    lemma_format(stem, 4);
    lemma_format(stem, 5);
    lemma_format(stem, 6);
    lemma_format(stem, 7);
    lemma_format(stem, 8);
    if !".tar"@.is_suffix_of(stem) {
        lemma_format(stem, 9);
        lemma_format(stem, 10);
        lemma_format(stem, 11);
        lemma_format(stem, 12);
    }
}

/// A file name with none of the known extensions says no format, and nothing is taken off it.
pub proof fn other_files_have_no_format(file: Seq<char>)
    requires
        !".tar"@.is_suffix_of(file),
        !".tar.gz"@.is_suffix_of(file) && !".tgz"@.is_suffix_of(file) && !".gz"@.is_suffix_of(file),
        !".tar.xz"@.is_suffix_of(file) && !".txz"@.is_suffix_of(file) && !".xz"@.is_suffix_of(file),
        !".tar.zst"@.is_suffix_of(file) && !".tzst"@.is_suffix_of(file) && !".zst"@.is_suffix_of(
            file,
        ),
        !".tar.bz2"@.is_suffix_of(file) && !".bz2"@.is_suffix_of(file),
        !".zip"@.is_suffix_of(file),
    ensures
        name::format_of(file) is None,
        name::unpacked(file) == file,
{
    reveal_with_fuel(name::extension_from, 14);
}

/// If the path of the binary is not given, every archive of named files is scanned for it: zip files
/// and tar files, whether or not they are compressed. What is only compressed is not, and neither is
/// anything if the path is given, or if there is no format.
pub proof fn archives_are_scanned(path: Option<String>, format: ArchiveFormat)
    ensures
        path is None && (format is Zip || format is Tar || format is TarGz || format is TarXz
            || format is TarZst || format is TarBz2) ==> fetch::format_to_scan(path, Some(format))
            == Some(format),
        format is Gz || format is Xz || format is Zst || format is Bz2 ==> fetch::format_to_scan(
            path,
            Some(format),
        ) is None,
        path is Some ==> fetch::format_to_scan(path, Some(format)) is None,
        fetch::format_to_scan(path, None) is None,
{
}

/// A file with the extension of an archive of named files is scanned as such, if the path of the
/// binary is not given; one with the extension of a compressed file is not.
pub proof fn extension_says_what_is_scanned(stem: Seq<char>)
    ensures
        fetch::format_to_scan(None, name::format_of(stem + ".zip"@)) == Some(ArchiveFormat::Zip),
        fetch::format_to_scan(None, name::format_of(stem + ".tar"@)) == Some(ArchiveFormat::Tar),
        fetch::format_to_scan(None, name::format_of(stem + ".tar.gz"@)) == Some(
            ArchiveFormat::TarGz,
        ),
        fetch::format_to_scan(None, name::format_of(stem + ".tgz"@)) == Some(ArchiveFormat::TarGz),
        fetch::format_to_scan(None, name::format_of(stem + ".tar.xz"@)) == Some(
            ArchiveFormat::TarXz,
        ),
        fetch::format_to_scan(None, name::format_of(stem + ".txz"@)) == Some(ArchiveFormat::TarXz),
        fetch::format_to_scan(None, name::format_of(stem + ".tar.zst"@)) == Some(
            ArchiveFormat::TarZst,
        ),
        fetch::format_to_scan(None, name::format_of(stem + ".tzst"@)) == Some(
            ArchiveFormat::TarZst,
        ),
        fetch::format_to_scan(None, name::format_of(stem + ".tar.bz2"@)) == Some(
            ArchiveFormat::TarBz2,
        ),
        !".tar"@.is_suffix_of(stem) ==> {
            &&& fetch::format_to_scan(None, name::format_of(stem + ".gz"@)) is None
            &&& fetch::format_to_scan(None, name::format_of(stem + ".xz"@)) is None
            &&& fetch::format_to_scan(None, name::format_of(stem + ".zst"@)) is None
            &&& fetch::format_to_scan(None, name::format_of(stem + ".bz2"@)) is None
        },
{
    extension_says_the_format(stem);
}

/// The name of a format, after a dot, is an extension of that very format: a file with it is read
/// as being of that format. In particular, no two formats have the same name.
pub proof fn format_name_is_its_extension(format: ArchiveFormat, stem: Seq<char>)
    requires
        !".tar"@.is_suffix_of(stem),
    ensures
        name::format_of(stem + ("."@ + target::format_name(format))) == Some(format),
        forall|other: ArchiveFormat|
            other != format ==> #[trigger] target::format_name(other) != target::format_name(
                format,
            ),
{
    lemma_dotted_name(format, stem);
    assert forall|other: ArchiveFormat| other != format implies #[trigger] target::format_name(
        other,
    ) != target::format_name(format) by {
        lemma_dotted_name(other, stem);
    }
}

proof fn lemma_dotted_name(format: ArchiveFormat, stem: Seq<char>)
    requires
        !".tar"@.is_suffix_of(stem),
    ensures
        name::format_of(stem + ("."@ + target::format_name(format))) == Some(format),
{
    extension_says_the_format(stem);
    reveal_strlit(".");
    let dotted = "."@ + target::format_name(format);
    match format {
        ArchiveFormat::Tar => {
            reveal_strlit("tar");
            reveal_strlit(".tar");
            assert(dotted == ".tar"@);
        },
        ArchiveFormat::TarGz => {
            reveal_strlit("tar.gz");
            reveal_strlit(".tar.gz");
            assert(dotted == ".tar.gz"@);
        },
        ArchiveFormat::TarXz => {
            reveal_strlit("tar.xz");
            reveal_strlit(".tar.xz");
            assert(dotted == ".tar.xz"@);
        },
        ArchiveFormat::TarZst => {
            reveal_strlit("tar.zst");
            reveal_strlit(".tar.zst");
            assert(dotted == ".tar.zst"@);
        },
        ArchiveFormat::TarBz2 => {
            reveal_strlit("tar.bz2");
            reveal_strlit(".tar.bz2");
            assert(dotted == ".tar.bz2"@);
        },
        ArchiveFormat::Zip => {
            reveal_strlit("zip");
            reveal_strlit(".zip");
            assert(dotted == ".zip"@);
        },
        ArchiveFormat::Gz => {
            reveal_strlit("gz");
            reveal_strlit(".gz");
            assert(dotted == ".gz"@);
        },
        ArchiveFormat::Xz => {
            reveal_strlit("xz");
            reveal_strlit(".xz");
            assert(dotted == ".xz"@);
        },
        ArchiveFormat::Zst => {
            reveal_strlit("zst");
            reveal_strlit(".zst");
            assert(dotted == ".zst"@);
        },
        ArchiveFormat::Bz2 => {
            reveal_strlit("bz2");
            reveal_strlit(".bz2");
            assert(dotted == ".bz2"@);
        },
    }
}

/// The name of a platform is that of its operating system and that of its architecture, with a
/// hyphen between them.
pub proof fn platform_name_says_both(os: Os, arch: Architecture)
    ensures
        target::platform_name(Platform::Known { arch, os }) == (match os {
            Os::Linux => "linux"@,
            Os::Macos => "macos"@,
            Os::Windows => "windows"@,
        }) + "-"@ + (match arch {
            Architecture::Aarch64 => "aarch64"@,
            Architecture::X64 => "x86_64"@,
        }),
{
    reveal_strlit("-");
    reveal_strlit("linux");
    reveal_strlit("macos");
    reveal_strlit("windows");
    reveal_strlit("aarch64");
    reveal_strlit("x86_64");
    reveal_strlit("linux-aarch64");
    reveal_strlit("linux-x86_64");
    reveal_strlit("macos-aarch64");
    reveal_strlit("macos-x86_64");
    reveal_strlit("windows-aarch64");
    reveal_strlit("windows-x86_64");
}

/// The slot of each platform is the field of that name.
pub proof fn slots_are_fields(artifacts: Artifacts)
    ensures
        artifacts.slot(Os::Linux, Architecture::Aarch64) == artifacts.linux_aarch64,
        artifacts.slot(Os::Linux, Architecture::X64) == artifacts.linux_x64,
        artifacts.slot(Os::Macos, Architecture::Aarch64) == artifacts.macos_aarch64,
        artifacts.slot(Os::Macos, Architecture::X64) == artifacts.macos_x64,
        artifacts.slot(Os::Windows, Architecture::Aarch64) == artifacts.windows_aarch64,
        artifacts.slot(Os::Windows, Architecture::X64) == artifacts.windows_x64,
{
}

} // verus!
