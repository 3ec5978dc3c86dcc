//! Shell scripts which download a program for the current platform and run it.

use vstd::prelude::*;

use crate::dotslash::{DotslashProvider, DotslashUrlEntry, Entry, EntryView, ProviderView, UrlEntryView};
use crate::outside;
use crate::target::ArchiveFormat;
use crate::text;
use crate::values::{two_different_values, unique_value};

verus! {

broadcast use vstd::seq_lib::group_seq_properties;

// ---------------------------------------------------------------------------------------------
// Text of the script

/// The start of a script, up to its list of platforms.
///
/// We use `flock` to lock access to the directory as we fetch the binary on it:
/// <https://man7.org/linux/man-pages/man1/flock.1.html>.
pub const HEAD: &'static str = r#"#!/bin/sh
set -eu

cache_dir="${XDG_CACHE_HOME:-${HOME:-}/.cache/create-dotslash}"
test "$cache_dir" != "/.cache" || (echo '$XDG_CACHE_HOME or $HOME must be set' >&2 && exit 1)

arch="$(uname -m)"
case "$arch" in
	arm64) arch=aarch64 ;;
	*) ;;
esac

os="$(uname)"
case "$os" in
	Linux|Cygwin) os=linux ;;
	Darwin) os=macos ;;
	*) os="$(echo "$os" | tr '[:upper:]' '[:lower:]')";;
esac

case "$os-$arch" in
"#;

/// What follows the known platforms, up to the list of their names.
pub const OTHERWISE: &'static str = r#"	*)
		echo "unknown platform $platform; supported: "#;

/// What follows the list of platforms, up to the name of the program.
pub const DIR: &'static str = r#"" >&2
		exit 1
		;;
esac

dir="$cache_dir/"#;

/// What stands between the name of the program and the hash of the entries.
pub const DASH: &'static str = r#"-"#;

/// What follows the hash of the entries, up to the path of the binary.
pub const BIN: &'static str = r#""
bin="$dir/"#;

/// What follows the path of the binary, up to the program that computes digests.
pub const FETCH: &'static str = r#""

test -x "$bin" && exec "$bin" "$@"

mkdir -p "$dir"
(flock 9; if ! test -x "$bin"; then
	rm "$dir/.lock"
	tmp="$dir/.tmp"
	checksum="$(curl -fsSL "$url" | tee "$tmp" | "#;

/// What follows the program that computes digests, up to where it is named again.
pub const CHECK: &'static str = r#" -b)"
	checksum="${checksum%% *}"

	test "$checksum" != "$digest" \
		&& echo "invalid "#;

/// What follows that, up to the command that extracts the download.
pub const EXTRACT: &'static str = r#" checksum; expected $digest, but got $checksum" >&2 \
		&& rm -rf "$dir" \
		&& exit 2

	"#;

/// What follows that command.
pub const FINISH: &'static str = r#"
	chmod +x "$bin"
	rm -f "$tmp"
fi) 9>"$dir/.lock"

exec "$bin" "$@"
"#;

/// The command that extracts a download of the given format. It runs in the script.
pub open spec fn extract_command(format: Option<ArchiveFormat>) -> Seq<char> {
    match format {
        Some(ArchiveFormat::Tar) => r#"tar -xf "$tmp" -C "$dir""#@,
        Some(ArchiveFormat::TarGz) => r#"tar -xzf "$tmp" -C "$dir""#@,
        Some(ArchiveFormat::TarXz) => r#"tar -xJf "$tmp" -C "$dir""#@,
        Some(ArchiveFormat::TarZst) => r#"tar --zstd -xf "$tmp" -C "$dir""#@,
        Some(ArchiveFormat::TarBz2) => r#"tar -xjf "$tmp" -C "$dir""#@,
        Some(ArchiveFormat::Zip) => r#"unzip -qq "$tmp" -d "$dir""#@,
        Some(ArchiveFormat::Gz) => r#"mkdir -p "$(dirname "$path")" && gzip -dc "$tmp" > "$path""#@,
        Some(ArchiveFormat::Xz) => r#"mkdir -p "$(dirname "$path")" && xz -dc "$tmp" > "$path""#@,
        Some(ArchiveFormat::Zst) => r#"mkdir -p "$(dirname "$path")" && zstd -d "$tmp" -o "$path""#@,
        Some(ArchiveFormat::Bz2) => r#"mkdir -p "$(dirname "$path")" && bzip2 -dc "$tmp" > "$path""#@,
        None => r#"mkdir -p "$(dirname "$path")" && mv "$tmp" "$path""#@,
    }
}

/// The command that extracts a download of the given format.
fn extract(format: &Option<ArchiveFormat>) -> (command: &'static str)
    ensures
        command@ == extract_command(*format),
{
    match format {
        Some(format) => match format {
            // https://man7.org/linux/man-pages/man1/tar.1.html: `-x` to extract, `-f` to read from
            // file, `-C` changes to directory first
            ArchiveFormat::Tar => r#"tar -xf "$tmp" -C "$dir""#,
            // `-z` to filter through `gzip`
            ArchiveFormat::TarGz => r#"tar -xzf "$tmp" -C "$dir""#,
            // `-J` to filter through `xz`
            ArchiveFormat::TarXz => r#"tar -xJf "$tmp" -C "$dir""#,
            // `--zstd` to filter through `zstd`
            ArchiveFormat::TarZst => r#"tar --zstd -xf "$tmp" -C "$dir""#,
            // `-j` to filter through `bzip2`
            ArchiveFormat::TarBz2 => r#"tar -xjf "$tmp" -C "$dir""#,
            // https://linux.die.net/man/1/unzip: `-qq` quiet, `-d` to extract to directory
            ArchiveFormat::Zip => r#"unzip -qq "$tmp" -d "$dir""#,
            // https://linux.die.net/man/1/gzip: `-d` to decompress, `-c` to write to stdout
            ArchiveFormat::Gz => r#"mkdir -p "$(dirname "$path")" && gzip -dc "$tmp" > "$path""#,
            // https://linux.die.net/man/1/xz: same
            ArchiveFormat::Xz => r#"mkdir -p "$(dirname "$path")" && xz -dc "$tmp" > "$path""#,
            // https://manpages.debian.org/testing/zstd/zstd.1.en.html: same, `-o` to write to file
            ArchiveFormat::Zst => r#"mkdir -p "$(dirname "$path")" && zstd -d "$tmp" -o "$path""#,
            // https://linux.die.net/man/1/bzip2: same
            ArchiveFormat::Bz2 => r#"mkdir -p "$(dirname "$path")" && bzip2 -dc "$tmp" > "$path""#,
        },
        None => r#"mkdir -p "$(dirname "$path")" && mv "$tmp" "$path""#,
    }
}

/// The first URL of a list of providers.
pub open spec fn first_url(providers: Seq<ProviderView>) -> Option<Seq<char>>
    decreases providers.len(),
{
    if providers.len() == 0 {
        None
    } else {
        match providers[0] {
            ProviderView::Url { url } => Some(url),
            ProviderView::GitHub { .. } => first_url(providers.skip(1)),
        }
    }
}

/// The part of the script about one platform, with the URL of the file and the path of the binary,
/// if it is given, between quotes.
pub open spec fn case_of(entry: EntryView, path: Option<Seq<char>>, url: Seq<char>) -> Seq<char> {
    let file = entry.dotslash_url_entry;
    let path_line = match path {
        Some(path) => "\t\tpath="@ + path + "\n"@,
        None => Seq::empty(),
    };
    "\t"@ + entry.dotslash_platform + ")\n"@ + path_line + "\t\tdigest="@ + file.digest
        + "\n\t\tsize="@ + text::decimal(file.size as nat) + "\n\t\turl="@ + url + "\n\t\t;;\n"@
}

/// The part of the script about one platform. It gives the path of the binary, unless it is the
/// same for all platforms.
pub open spec fn platform_case(entry: EntryView, same_path: bool) -> Seq<char> {
    case_of(
        entry,
        if same_path {
            None
        } else {
            Some(outside::quoted(entry.dotslash_url_entry.path))
        },
        outside::quoted(first_url(entry.dotslash_url_entry.providers)->0),
    )
}

/// The parts of the script about each platform.
pub open spec fn platform_cases(entries: Seq<EntryView>, same_path: bool) -> Seq<char>
    decreases entries.len(),
{
    if entries.len() == 0 {
        Seq::empty()
    } else {
        platform_cases(entries.drop_last(), same_path) + platform_case(entries.last(), same_path)
    }
}

/// The paths of the binaries.
pub open spec fn paths(entries: Seq<EntryView>) -> Seq<Seq<char>> {
    entries.map_values(|entry: EntryView| entry.dotslash_url_entry.path)
}

/// The names of the platforms.
pub open spec fn platforms(entries: Seq<EntryView>) -> Seq<Seq<char>> {
    entries.map_values(|entry: EntryView| entry.dotslash_platform)
}

/// The names of the formats.
pub open spec fn formats(entries: Seq<EntryView>) -> Seq<Option<Seq<char>>> {
    entries.map_values(|entry: EntryView| entry.dotslash_url_entry.format)
}

/// The names of the algorithms of the digests.
pub open spec fn hashes(entries: Seq<EntryView>) -> Seq<Seq<char>> {
    entries.map_values(|entry: EntryView| entry.dotslash_url_entry.hash)
}

/// The program that computes digests.
pub open spec fn digest_program(hash: Seq<char>) -> Seq<char> {
    if hash == "sha256"@ {
        "sha256sum"@
    } else {
        "b3sum"@
    }
}

/// The script with the given parts about each platform, for a program with this name, which is
/// escaped, and this hash of its entries.
pub open spec fn script_of(
    cases: Seq<char>,
    name: Seq<char>,
    entries_hash: Seq<u8>,
    entries: Seq<EntryView>,
) -> Seq<char> {
    let program = digest_program(entries[0].dotslash_url_entry.hash);
    let path = match crate::values::unique(paths(entries)) {
        Some(path) => path,
        None => "$path"@,
    };
    HEAD@ + cases + OTHERWISE@ + text::joined(platforms(entries), ", "@) + DIR@ + name + DASH@
        + text::hex(entries_hash) + BIN@ + path + FETCH@ + program + CHECK@ + program + EXTRACT@
        + extract_command(entries[0].format) + FINISH@
}

/// The script that runs the program `name`.
pub open spec fn script(name: Seq<char>, entries: Seq<EntryView>) -> Seq<char> {
    script_of(
        platform_cases(entries, crate::values::unique(paths(entries)) is Some),
        outside::escaped(name),
        outside::blake3_digest(fingerprint(entries)),
        entries,
    )
}

// ---------------------------------------------------------------------------------------------
// Fingerprint of the entries

/// The lowest `count` bytes of `n`, lowest first.
pub open spec fn little_endian(n: nat, count: nat) -> Seq<u8>
    decreases count,
{
    if count == 0 {
        Seq::empty()
    } else {
        seq![(n % 256) as u8] + little_endian(n / 256, (count - 1) as nat)
    }
}

/// The bytes of a number.
pub open spec fn number_bytes(n: nat) -> Seq<u8> {
    little_endian(n, 8)
}

/// The bytes of a text, which a byte that UTF-8 does not have ends.
pub open spec fn text_bytes(s: Seq<char>) -> Seq<u8> {
    vstd::utf8::encode_utf8(s) + seq![0xffu8]
}

/// The bytes of a provider: which one it is, and its fields.
pub open spec fn provider_bytes(provider: ProviderView) -> Seq<u8> {
    match provider {
        ProviderView::GitHub { repo, tag, name } => number_bytes(0) + text_bytes(repo) + text_bytes(
            tag,
        ) + text_bytes(name),
        ProviderView::Url { url } => number_bytes(1) + text_bytes(url),
    }
}

/// The bytes of each provider.
pub open spec fn providers_bytes(providers: Seq<ProviderView>) -> Seq<u8>
    decreases providers.len(),
{
    if providers.len() == 0 {
        Seq::empty()
    } else {
        providers_bytes(providers.drop_last()) + provider_bytes(providers.last())
    }
}

/// The bytes of a format: whether there is one, and which.
pub open spec fn format_bytes(format: Option<Seq<char>>) -> Seq<u8> {
    match format {
        None => number_bytes(0),
        Some(format) => number_bytes(1) + text_bytes(format),
    }
}

/// The bytes of an entry: its fields, the providers with their number first.
pub open spec fn entry_bytes(entry: UrlEntryView) -> Seq<u8> {
    number_bytes(entry.size as nat) + text_bytes(entry.hash) + text_bytes(entry.digest)
        + format_bytes(entry.format) + text_bytes(entry.path) + number_bytes(
        entry.providers.len(),
    ) + providers_bytes(entry.providers)
}

/// The bytes of each platform and its entry.
pub open spec fn entries_bytes(entries: Seq<EntryView>) -> Seq<u8>
    decreases entries.len(),
{
    if entries.len() == 0 {
        Seq::empty()
    } else {
        entries_bytes(entries.drop_last()) + text_bytes(entries.last().dotslash_platform)
            + entry_bytes(entries.last().dotslash_url_entry)
    }
}

/// The bytes by which the entries are told apart from others: their number, and each of them.
///
/// They are those that the standard library feeds to a hasher on 64-bit little-endian machines.
pub open spec fn fingerprint(entries: Seq<EntryView>) -> Seq<u8> {
    number_bytes(entries.len()) + entries_bytes(entries)
}

/// Appends the bytes of a number.
fn push_number(out: &mut Vec<u8>, n: u64)
    ensures
        final(out)@ == old(out)@ + number_bytes(n as nat),
{
    let ghost before = out@;
    let mut rest: u64 = n;
    let mut left: u64 = 8;
    while left > 0
        invariant
            left <= 8,
            out@ + little_endian(rest as nat, left as nat) == before + number_bytes(n as nat),
        decreases left,
    {
        let byte: u8 = (rest % 256) as u8;
        let ghost written = out@;
        out.push(byte);
        assert(little_endian(rest as nat, left as nat) == seq![byte] + little_endian(
            (rest / 256) as nat,
            (left - 1) as nat,
        ));
        assert(out@ + little_endian((rest / 256) as nat, (left - 1) as nat) == written
            + little_endian(rest as nat, left as nat));
        rest = rest / 256;
        left = left - 1;
    }
    assert(out@ + Seq::<u8>::empty() == out@);
}

/// Appends some bytes.
fn push_bytes(out: &mut Vec<u8>, bytes: &[u8])
    ensures
        final(out)@ == old(out)@ + bytes@,
{
    out.extend_from_slice(bytes);
    assert(out@ == old(out)@ + bytes@);
}

/// Appends the bytes of a text.
fn push_text(out: &mut Vec<u8>, s: &str)
    ensures
        final(out)@ == old(out)@ + text_bytes(s@),
{
    push_bytes(out, s.as_bytes());
    out.push(0xff);
    assert(out@ == old(out)@ + text_bytes(s@));
}

/// Appends the bytes of a provider.
fn push_provider(out: &mut Vec<u8>, provider: &DotslashProvider)
    ensures
        final(out)@ == old(out)@ + provider_bytes(provider@),
{
    match provider {
        DotslashProvider::GitHub { repo, tag, name } => {
            push_number(out, 0);
            push_text(out, repo.as_str());
            push_text(out, tag.as_str());
            push_text(out, name.as_str());
        },
        DotslashProvider::Url { url } => {
            push_number(out, 1);
            push_text(out, url.as_str());
        },
    }
    assert(out@ == old(out)@ + provider_bytes(provider@));
}

/// Appends the bytes of an entry.
fn push_entry(out: &mut Vec<u8>, entry: &DotslashUrlEntry)
    ensures
        final(out)@ == old(out)@ + entry_bytes(entry@),
{
    push_number(out, entry.size);
    push_text(out, entry.hash);
    push_text(out, entry.digest.as_str());
    match entry.format {
        Some(format) => {
            push_number(out, 1);
            push_text(out, format);
        },
        None => {
            push_number(out, 0);
        },
    }
    push_text(out, entry.path.as_str());
    push_number(out, entry.providers.len() as u64);
    let ghost before = out@;
    let ghost all = entry@.providers;
    assert(before == old(out)@ + (number_bytes(entry.size as nat) + text_bytes(entry.hash@)
        + text_bytes(entry.digest@) + format_bytes(entry@.format) + text_bytes(entry.path@)
        + number_bytes(all.len())));
    let mut i: usize = 0;
    assert(before == before + providers_bytes(all.take(0)));
    while i < entry.providers.len()
        invariant
            i <= entry.providers@.len() == all.len(),
            all == entry@.providers,
            out@ == before + providers_bytes(all.take(i as int)),
        decreases entry.providers@.len() - i,
    {
        push_provider(out, &entry.providers[i]);
        assert(all.take(i + 1).drop_last() == all.take(i as int));
        assert(all.take(i + 1).last() == entry.providers@[i as int]@);
        assert(out@ == before + providers_bytes(all.take(i + 1)));
        i += 1;
    }
    assert(all.take(i as int) == all);
    assert(out@ == old(out)@ + entry_bytes(entry@));
}

/// The bytes by which the entries are told apart from others.
pub fn fingerprint_bytes(entries: &[Entry]) -> (bytes: Vec<u8>)
    ensures
        bytes@ == fingerprint(crate::dotslash::views(entries@)),
{
    let ghost all = crate::dotslash::views(entries@);
    let mut bytes: Vec<u8> = Vec::new();
    push_number(&mut bytes, entries.len() as u64);
    let ghost before = number_bytes(all.len());
    assert(bytes@ == before);
    let mut i: usize = 0;
    assert(before == before + entries_bytes(all.take(0)));
    while i < entries.len()
        invariant
            i <= entries@.len(),
            all == crate::dotslash::views(entries@),
            bytes@ == before + entries_bytes(all.take(i as int)),
        decreases entries@.len() - i,
    {
        push_text(&mut bytes, entries[i].dotslash_platform);
        push_entry(&mut bytes, &entries[i].dotslash_url_entry);
        assert(all.take(i + 1).drop_last() == all.take(i as int));
        assert(all.take(i + 1).last() == entries@[i as int]@);
        assert(bytes@ == before + entries_bytes(all.take(i + 1)));
        i += 1;
    }
    assert(all.take(i as int) == all);
    bytes
}

// ---------------------------------------------------------------------------------------------
// Errors

/// Why there is no script for some entries.
#[derive(Debug)]
pub enum ShellError {
    /// Two entries have different formats.
    Formats(Option<&'static str>, Option<&'static str>),
    /// Two entries have digests of different algorithms.
    Hashes(&'static str, &'static str),
}

/// What a [`ShellError`] holds.
pub enum ShellErrorView {
    Formats(Option<Seq<char>>, Option<Seq<char>>),
    Hashes(Seq<char>, Seq<char>),
}

impl View for ShellError {
    type V = ShellErrorView;

    open spec fn view(&self) -> ShellErrorView {
        match *self {
            ShellError::Formats(a, b) => ShellErrorView::Formats(
                crate::options::optional_str(a),
                crate::options::optional_str(b),
            ),
            ShellError::Hashes(a, b) => ShellErrorView::Hashes(a@, b@),
        }
    }
}

/// The `Debug` form of an optional text.
pub open spec fn optional_quoted(s: Option<Seq<char>>) -> Seq<char> {
    match s {
        Some(s) => "Some("@ + outside::quoted(s) + ")"@,
        None => "None"@,
    }
}

impl ShellErrorView {
    /// The error in words.
    pub open spec fn message(self) -> Seq<char> {
        match self {
            ShellErrorView::Formats(a, b) =>
                "--format=sh requires all entries to have the same format, but found "@
                + optional_quoted(a) + " != "@ + optional_quoted(b),
            ShellErrorView::Hashes(a, b) =>
                "--format=sh requires all entries to have the same hash format, but found "@ + a
                + " != "@ + b,
        }
    }
}

/// The `Debug` form of an optional text.
fn quote_optional(s: &Option<&'static str>) -> (text: String)
    ensures
        text@ == optional_quoted(crate::options::optional_str(*s)),
{
    match s {
        Some(s) => "Some(".to_owned().concat(outside::quote(*s).as_str()).concat(")"),
        None => "None".to_owned(),
    }
}

impl ShellError {
    /// The error in words.
    pub fn message(&self) -> (message: String)
        ensures
            message@ == self@.message(),
    {
        match self {
            ShellError::Formats(
                a,
                b,
            ) => "--format=sh requires all entries to have the same format, but found ".to_owned().concat(
                quote_optional(a).as_str(),
            ).concat(" != ").concat(quote_optional(b).as_str()),
            ShellError::Hashes(
                a,
                b,
            ) => "--format=sh requires all entries to have the same hash format, but found ".to_owned().concat(
            *a).concat(" != ").concat(*b),
        }
    }
}

/// The script that runs the program `name`, or why there is none: the first format which is not
/// that of the first entry, or the first algorithm which is not that of its digest.
pub open spec fn shell(name: Seq<char>, entries: Seq<EntryView>) -> Result<
    Seq<char>,
    ShellErrorView,
> {
    match (crate::values::two_different(formats(entries)), crate::values::two_different(
        hashes(entries),
    )) {
        (Some((a, b)), _) => Err(ShellErrorView::Formats(a, b)),
        (None, Some((a, b))) => Err(ShellErrorView::Hashes(a, b)),
        (None, None) => Ok(script(name, entries)),
    }
}

// ---------------------------------------------------------------------------------------------
// Writing the script

/// The first URL of a list of providers.
pub(crate) fn find_url(providers: &Vec<DotslashProvider>) -> (url: Option<&String>)
    ensures
        match url {
            Some(url) => first_url(
                providers@.map_values(|provider: DotslashProvider| provider@),
            ) == Some(url@),
            None => first_url(
                providers@.map_values(|provider: DotslashProvider| provider@),
            ) is None,
        },
{
    let ghost all = providers@.map_values(|provider: DotslashProvider| provider@);
    let mut i: usize = 0;
    assert(all.skip(0) == all);
    while i < providers.len()
        invariant
            i <= providers@.len(),
            all == providers@.map_values(|provider: DotslashProvider| provider@),
            first_url(all) == first_url(all.skip(i as int)),
        decreases providers@.len() - i,
    {
        assert(all.skip(i as int)[0] == providers@[i as int]@);
        assert(all.skip(i as int).skip(1) == all.skip(i + 1));
        if let DotslashProvider::Url { url } = &providers[i] {
            return Some(url);
        }
        i += 1;
    }
    None
}

/// Whether every entry can be downloaded from some URL.
pub open spec fn all_have_urls(entries: Seq<EntryView>) -> bool {
    forall|i: int|
        0 <= i < entries.len() ==> first_url(
            (#[trigger] entries[i]).dotslash_url_entry.providers,
        ) is Some
}

/// Appends the part of the script about one platform, with the URL of the file and the path of the
/// binary, if it is given, between quotes.
pub fn write_case(out: &mut String, entry: &Entry, path: Option<&str>, url: &str)
    ensures
        final(out)@ == old(out)@ + case_of(entry@, crate::options::optional_str(path), url@),
{
    out.append("\t");
    out.append(entry.dotslash_platform);
    out.append(")\n");
    if let Some(path) = path {
        out.append("\t\tpath=");
        out.append(path);
        out.append("\n");
    }
    out.append("\t\tdigest=");
    out.append(entry.dotslash_url_entry.digest.as_str());
    out.append("\n\t\tsize=");
    text::push_decimal(out, entry.dotslash_url_entry.size);
    out.append("\n\t\turl=");
    out.append(url);
    out.append("\n\t\t;;\n");
    assert(out@ == old(out)@ + case_of(entry@, crate::options::optional_str(path), url@));
}

/// Appends the part of the script about one platform.
fn push_case(out: &mut String, entry: &Entry, same_path: bool)
    requires
        first_url(entry@.dotslash_url_entry.providers) is Some,
    ensures
        final(out)@ == old(out)@ + platform_case(entry@, same_path),
{
    let file: &DotslashUrlEntry = &entry.dotslash_url_entry;
    if let Some(url) = find_url(&file.providers) {
        let url: String = outside::quote(url.as_str());
        if same_path {
            write_case(out, entry, None, url.as_str());
        } else {
            let path: String = outside::quote(file.path.as_str());
            write_case(out, entry, Some(path.as_str()), url.as_str());
        }
    }
}

/// Appends the parts of the script about each platform.
fn push_cases(out: &mut String, entries: &[Entry], same_path: bool)
    requires
        all_have_urls(crate::dotslash::views(entries@)),
    ensures
        final(out)@ == old(out)@ + platform_cases(crate::dotslash::views(entries@), same_path),
{
    let ghost all = crate::dotslash::views(entries@);
    let ghost before = out@;
    let mut i: usize = 0;
    assert(before == before + platform_cases(all.take(0), same_path));
    while i < entries.len()
        invariant
            i <= entries@.len(),
            all == crate::dotslash::views(entries@),
            all_have_urls(all),
            out@ == before + platform_cases(all.take(i as int), same_path),
        decreases entries@.len() - i,
    {
        assert(all[i as int] == entries@[i as int]@);
        push_case(out, &entries[i], same_path);
        assert(all.take(i + 1).drop_last() == all.take(i as int));
        assert(all.take(i + 1).last() == entries@[i as int]@);
        assert(out@ == before + platform_cases(all.take(i + 1), same_path));
        i += 1;
    }
    assert(all.take(i as int) == all);
}

/// Fields of entries, each in a list of its own.
struct Columns<'a> {
    formats: Vec<Option<&'static str>>,
    hashes: Vec<&'static str>,
    paths: Vec<&'a str>,
    platforms: Vec<&'a str>,
}

/// Lists the fields of entries which are compared with each other, or listed.
fn columns(entries: &[Entry]) -> (columns: Columns<'_>)
    ensures
        crate::values::contents(columns.formats@) == formats(crate::dotslash::views(entries@)),
        crate::values::contents(columns.hashes@) == hashes(crate::dotslash::views(entries@)),
        crate::values::contents(columns.paths@) == paths(crate::dotslash::views(entries@)),
        text::texts(columns.platforms@) == platforms(crate::dotslash::views(entries@)),
{
    let ghost all = crate::dotslash::views(entries@);
    let mut formats: Vec<Option<&'static str>> = Vec::new();
    let mut hashes: Vec<&'static str> = Vec::new();
    let mut paths: Vec<&str> = Vec::new();
    let mut platforms: Vec<&str> = Vec::new();
    let mut i: usize = 0;
    while i < entries.len()
        invariant
            i <= entries@.len(),
            all == crate::dotslash::views(entries@),
            crate::values::contents(formats@) == self::formats(all.take(i as int)),
            crate::values::contents(hashes@) == self::hashes(all.take(i as int)),
            crate::values::contents(paths@) == self::paths(all.take(i as int)),
            text::texts(platforms@) == self::platforms(all.take(i as int)),
        decreases entries@.len() - i,
    {
        let entry: &Entry = &entries[i];
        assert(all.take(i + 1) == all.take(i as int).push(entry@));
        let ghost before = (
            crate::values::contents(formats@),
            crate::values::contents(hashes@),
            crate::values::contents(paths@),
            text::texts(platforms@),
        );
        let ghost file = entry@.dotslash_url_entry;
        formats.push(entry.dotslash_url_entry.format);
        hashes.push(entry.dotslash_url_entry.hash);
        paths.push(entry.dotslash_url_entry.path.as_str());
        platforms.push(entry.dotslash_platform);
        assert(crate::values::contents(formats@) == before.0.push(file.format));
        assert(crate::values::contents(hashes@) == before.1.push(file.hash));
        assert(crate::values::contents(paths@) == before.2.push(file.path));
        assert(text::texts(platforms@) == before.3.push(entry@.dotslash_platform));
        i += 1;
    }
    assert(all.take(i as int) == all);
    Columns { formats, hashes, paths, platforms }
}

/// The script with the given parts about each platform, for a program with this name, which is
/// escaped, and this hash of its entries.
pub fn write_script(cases: &str, name: &str, entries_hash: &[u8; 32], entries: &[Entry]) -> (script:
    String)
    requires
        entries@.len() > 0,
    ensures
        script@ == script_of(cases@, name@, entries_hash@, crate::dotslash::views(entries@)),
{
    let ghost all = crate::dotslash::views(entries@);
    let columns: Columns<'_> = columns(entries);
    let path: &str = match unique_value(columns.paths.as_slice()) {
        Some(path) => path,
        None => "$path",
    };
    let first: &Entry = &entries[0];
    assert(all[0] == first@);
    let digest_program: &str = if text::same(first.dotslash_url_entry.hash, "sha256") {
        "sha256sum"
    } else {
        "b3sum"
    };
    let mut script: String = HEAD.to_owned();
    script.append(cases);
    script.append(OTHERWISE);
    script.append(text::join(&columns.platforms, ", ").as_str());
    script.append(DIR);
    script.append(name);
    script.append(DASH);
    text::push_hex(&mut script, entries_hash);
    script.append(BIN);
    script.append(path);
    script.append(FETCH);
    script.append(digest_program);
    script.append(CHECK);
    script.append(digest_program);
    script.append(EXTRACT);
    script.append(extract(&first.format));
    script.append(FINISH);
    script
}

/// Appends to `out` the script that runs the program `name`.
pub fn to_shell(out: &mut Vec<u8>, name: &str, entries: &[Entry]) -> (result: Result<
    (),
    ShellError,
>)
    requires
        entries@.len() > 0,
        all_have_urls(crate::dotslash::views(entries@)),
    ensures
        match result {
            Ok(()) => {
                &&& shell(name@, crate::dotslash::views(entries@)) is Ok
                &&& final(out)@ == old(out)@ + vstd::utf8::encode_utf8(
                    shell(name@, crate::dotslash::views(entries@))->Ok_0,
                )
            },
            Err(error) => {
                &&& shell(name@, crate::dotslash::views(entries@)) == Err::<
                    Seq<char>,
                    ShellErrorView,
                >(error@)
                &&& final(out)@ == old(out)@
            },
        },
{
    let columns: Columns<'_> = columns(entries);
    if let Some(pair) = two_different_values(columns.formats.as_slice()) {
        return Err(ShellError::Formats(pair[0], pair[1]));
    }
    if let Some(pair) = two_different_values(columns.hashes.as_slice()) {
        return Err(ShellError::Hashes(pair[0], pair[1]));
    }

    let mut hasher: blake3::Hasher = outside::new_blake3();
    let bytes: Vec<u8> = fingerprint_bytes(entries);
    assert(bytes@.len() == bytes.len());
    outside::update_blake3(&mut hasher, bytes.as_slice());
    let entries_hash: [u8; 32] = outside::finalize_blake3(&hasher);
    assert(Seq::<u8>::empty() + bytes@ == bytes@);

    let mut cases: String = String::new();
    push_cases(&mut cases, entries, unique_value(columns.paths.as_slice()).is_some());
    assert(cases@ == platform_cases(
        crate::dotslash::views(entries@),
        crate::values::unique(paths(crate::dotslash::views(entries@))) is Some,
    ));
    let name: String = outside::escape(name);
    let script: String = write_script(cases.as_str(), name.as_str(), &entries_hash, entries);
    push_bytes(out, script.as_str().as_bytes());
    Ok(())
}

// ---------------------------------------------------------------------------------------------
// Laws

/// There is a script if and only if all entries have the same format, and digests of the same
/// algorithm.
pub proof fn script_is_for_entries_alike(name: Seq<char>, entries: Seq<EntryView>)
    requires
        entries.len() > 0,
    ensures
        shell(name, entries) is Ok <==> forall|i: int|
            0 <= i < entries.len() ==> {
                &&& (#[trigger] entries[i]).dotslash_url_entry.format
                    == entries[0].dotslash_url_entry.format
                &&& entries[i].dotslash_url_entry.hash == entries[0].dotslash_url_entry.hash
            },
{
    let f = formats(entries);
    let h = hashes(entries);
    crate::values::unique_or_two_different(f);
    crate::values::unique_or_two_different(h);
    if shell(name, entries) is Ok {
        assert forall|i: int| 0 <= i < entries.len() implies (
        #[trigger] entries[i]).dotslash_url_entry.format == entries[0].dotslash_url_entry.format
            && entries[i].dotslash_url_entry.hash == entries[0].dotslash_url_entry.hash by {
            assert(f[i] == f[0]);
            assert(h[i] == h[0]);
        }
    } else if forall|i: int|
        0 <= i < entries.len() ==> {
            &&& (#[trigger] entries[i]).dotslash_url_entry.format
                == entries[0].dotslash_url_entry.format
            &&& entries[i].dotslash_url_entry.hash == entries[0].dotslash_url_entry.hash
        } {
        assert forall|i: int| 0 <= i < f.len() implies #[trigger] f[i] == f[0] by {
            assert(f[i] == entries[i].dotslash_url_entry.format);
        }
        assert forall|i: int| 0 <= i < h.len() implies #[trigger] h[i] == h[0] by {
            assert(h[i] == entries[i].dotslash_url_entry.hash);
        }
    }
}

/// If there is no script, the first format which differs from that of the first entry is reported,
/// and otherwise the first algorithm which differs from that of its digest.
pub proof fn difference_is_reported(name: Seq<char>, entries: Seq<EntryView>)
    requires
        entries.len() > 0,
        shell(name, entries) is Err,
    ensures
        match shell(name, entries)->Err_0 {
            ShellErrorView::Formats(a, b) => a == entries[0].dotslash_url_entry.format && a != b
                && formats(entries).contains(b),
            ShellErrorView::Hashes(a, b) => {
                &&& a == entries[0].dotslash_url_entry.hash
                &&& a != b
                &&& hashes(entries).contains(b)
                &&& forall|i: int|
                    0 <= i < entries.len() ==> (#[trigger] entries[i]).dotslash_url_entry.format
                        == entries[0].dotslash_url_entry.format
            },
        },
{
    let f = formats(entries);
    let h = hashes(entries);
    crate::values::unique_or_two_different(f);
    crate::values::unique_or_two_different(h);
    assert(f[0] == entries[0].dotslash_url_entry.format);
    assert(h[0] == entries[0].dotslash_url_entry.hash);
    if crate::values::two_different(f) is None {
        assert forall|i: int| 0 <= i < entries.len() implies (
        #[trigger] entries[i]).dotslash_url_entry.format == entries[0].dotslash_url_entry.format by {
            assert(f[i] == f[0]);
        }
    }
}

} // verus!
