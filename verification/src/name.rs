//! Information in the file names of artifacts.

use std::str::FromStr;

use vstd::prelude::*;

use crate::target::{ArchiveFormat, Architecture, Libc, Os, Platform};
use crate::text;

verus! {

broadcast use vstd::seq_lib::group_seq_properties;

// ---------------------------------------------------------------------------------------------
// Types

/// Why a file name says too little, or too much, about an artifact.
#[derive(Debug)]
pub enum ArtifactNameError {
    /// The file name does not say this part of the platform.
    Missing { part: &'static str },
    /// A segment follows the name of the artifact and is not known.
    Unknown { got: String },
    /// The format is not known.
    UnknownFormat,
}

/// Information gathered about an artifact based on its file name.
#[derive(Debug)]
pub struct ArtifactName {
    pub name: String,
    pub libc: Option<Libc>,
    pub format: Option<ArchiveFormat>,
    pub platform: Platform,
}

/// What an [`ArtifactName`] holds.
pub struct NameView {
    pub name: Seq<char>,
    pub libc: Option<Libc>,
    pub format: Option<ArchiveFormat>,
    pub platform: Platform,
}

/// What an [`ArtifactNameError`] holds.
pub enum NameErrorView {
    Missing { part: Seq<char> },
    Unknown { got: Seq<char> },
    UnknownFormat,
}

impl View for ArtifactName {
    type V = NameView;

    open spec fn view(&self) -> NameView {
        NameView {
            name: self.name@,
            libc: self.libc,
            format: self.format,
            platform: self.platform,
        }
    }
}

impl View for ArtifactNameError {
    type V = NameErrorView;

    open spec fn view(&self) -> NameErrorView {
        match *self {
            ArtifactNameError::Missing { part } => NameErrorView::Missing { part: part@ },
            ArtifactNameError::Unknown { got } => NameErrorView::Unknown { got: got@ },
            ArtifactNameError::UnknownFormat => NameErrorView::UnknownFormat,
        }
    }
}

impl NameErrorView {
    /// The error in words.
    pub open spec fn message(self) -> Seq<char> {
        match self {
            NameErrorView::Missing { part } => "missing "@ + part + " in file name"@,
            NameErrorView::Unknown { got } => "unknown segment in file name: "@ + got,
            NameErrorView::UnknownFormat => "unknown format"@,
        }
    }
}

impl ArtifactNameError {
    /// The error in words.
    pub fn message(&self) -> (message: String)
        ensures
            message@ == self@.message(),
    {
        match self {
            ArtifactNameError::Missing { part } => "missing ".to_owned().concat(*part).concat(
                " in file name",
            ),
            ArtifactNameError::Unknown { got } => "unknown segment in file name: ".to_owned().concat(
                got.as_str(),
            ),
            ArtifactNameError::UnknownFormat => "unknown format".to_owned(),
        }
    }
}

// ---------------------------------------------------------------------------------------------
// Extensions

/// Index in the list of extensions of the first one, from `from` on, with which `file` ends.
pub open spec fn extension_from(file: Seq<char>, from: int) -> Option<int>
    decreases crate::target::extensions().len() - from,
{
    if from < 0 || from >= crate::target::extensions().len() {
        None
    } else if crate::target::extensions()[from].0.is_suffix_of(file) {
        Some(from)
    } else {
        extension_from(file, from + 1)
    }
}

/// The format of `file` by its extension, if it has a known one.
pub open spec fn format_of(file: Seq<char>) -> Option<ArchiveFormat> {
    match extension_from(file, 0) {
        Some(i) => Some(crate::target::extensions()[i].1),
        None => None,
    }
}

/// `file` without its known extension.
pub open spec fn unpacked(file: Seq<char>) -> Seq<char> {
    match extension_from(file, 0) {
        Some(i) => file.take(file.len() - crate::target::extensions()[i].0.len()),
        None => file,
    }
}

/// `s` without its suffix `suffix`, if it has it.
pub open spec fn without_suffix(s: Seq<char>, suffix: Seq<char>) -> Seq<char> {
    if suffix.is_suffix_of(s) {
        s.take(s.len() - suffix.len())
    } else {
        s
    }
}

/// What remains of `file` once its archive extension and then a `.exe` are taken off.
pub open spec fn stem_of(file: Seq<char>) -> Seq<char> {
    without_suffix(unpacked(file), ".exe"@)
}

// ---------------------------------------------------------------------------------------------
// Words

/// What one or more segments of a file name say.
pub enum Kind {
    /// An architecture.
    Arch(Architecture),
    /// An operating system.
    System(Os),
    /// Universal macOS binaries.
    Universal,
    /// A C library.
    Library(Libc),
    /// 64-bit Windows.
    Win64,
    /// A version, or something else of no interest.
    Noise,
    /// None of the above.
    Plain,
}

/// Segments of a file name that are read together.
pub struct Word {
    pub kind: Kind,
    /// Index of the first segment.
    pub at: int,
}

/// The characters between the segments of a file name.
pub open spec fn separators() -> Seq<char> {
    seq!['_', '-', '.']
}

/// Whether segment `i` exists and is `text`.
pub open spec fn segment_is(segments: Seq<Seq<char>>, i: int, text: Seq<char>) -> bool {
    0 <= i < segments.len() && segments[i] == text
}

/// Whether `segment` is a part of a version: it starts with a digit or a `v`, and goes on with
/// letters, digits and `+`.
pub open spec fn is_version(segment: Seq<char>) -> bool {
    &&& segment.len() > 0
    &&& segment[0] == 'v' || text::is_digit(segment[0])
    &&& forall|i: int|
        1 <= i < segment.len() ==> text::is_alphanumeric(#[trigger] segment[i]) || segment[i] == '+'
}

/// Whether `segment` announces a pre-release.
pub open spec fn is_prerelease(segment: Seq<char>) -> bool {
    &&& "alpha"@.is_prefix_of(segment) || "beta"@.is_prefix_of(segment) || "dev"@.is_prefix_of(
        segment,
    ) || "rc"@.is_prefix_of(segment)
    &&& text::all_alphanumeric(segment.skip(2))
}

/// What the segments from `i` on say, and the number of segments which say it.
pub open spec fn read_at(segments: Seq<Seq<char>>, i: int) -> (Kind, int) {
    let segment = segments[i];
    let word = text::lower(segment);
    if word == "aarch64"@ || word == "arm64"@ {
        (Kind::Arch(Architecture::Aarch64), 1)
    } else if word == "aarch"@ && segment_is(segments, i + 1, "64"@) {
        (Kind::Arch(Architecture::Aarch64), 2)
    } else if word == "amd64"@ || word == "x64"@ {
        (Kind::Arch(Architecture::X64), 1)
    } else if word == "x86"@ && segment_is(segments, i + 1, "64"@) {
        (Kind::Arch(Architecture::X64), 2)
    } else if word == "apple"@ {
        (
            Kind::System(Os::Macos),
            if segment_is(segments, i + 1, "darwin"@) {
                2
            } else {
                1
            },
        )
    } else if word == "darwin"@ || word == "macos"@ || word == "osx"@ {
        if segment_is(segments, i + 1, "universal"@) {
            (
                Kind::Universal,
                if segment_is(segments, i + 2, "binary"@) {
                    3
                } else {
                    2
                },
            )
        } else {
            (Kind::System(Os::Macos), 1)
        }
    } else if word == "linux"@ || word == "ubuntu"@ {
        (Kind::System(Os::Linux), 1)
    } else if word == "pc"@ && segment_is(segments, i + 1, "windows"@) {
        (Kind::System(Os::Windows), 2)
    } else if word == "unknown"@ && segment_is(segments, i + 1, "linux"@) {
        (Kind::System(Os::Linux), 2)
    } else if word == "windows"@ {
        (Kind::System(Os::Windows), 1)
    } else if word == "gnu"@ {
        (Kind::Library(Libc::Gnu), 1)
    } else if word == "musl"@ {
        (Kind::Library(Libc::Musl), 1)
    } else if word == "msvc"@ {
        (Kind::Noise, 1)
    } else if word == "win64"@ {
        (Kind::Win64, 1)
    } else if is_version(segment) || is_prerelease(segment) {
        (Kind::Noise, 1)
    } else {
        (Kind::Plain, 1)
    }
}

/// The words of a file name from segment `from` on.
pub open spec fn words(segments: Seq<Seq<char>>, from: int) -> Seq<Word>
    decreases segments.len() - from,
{
    if from < 0 || from >= segments.len() {
        seq![]
    } else {
        let (kind, count) = read_at(segments, from);
        seq![Word { kind, at: from }] + words(segments, from + count)
    }
}

/// The architecture of the last word that says one.
pub open spec fn last_arch(words: Seq<Word>) -> Option<Architecture>
    decreases words.len(),
{
    if words.len() == 0 {
        None
    } else {
        match words.last().kind {
            Kind::Arch(arch) => Some(arch),
            Kind::Win64 => Some(Architecture::X64),
            _ => last_arch(words.drop_last()),
        }
    }
}

/// The operating system of the last word that says one.
pub open spec fn last_os(words: Seq<Word>) -> Option<Os>
    decreases words.len(),
{
    if words.len() == 0 {
        None
    } else {
        match words.last().kind {
            Kind::System(os) => Some(os),
            Kind::Win64 => Some(Os::Windows),
            _ => last_os(words.drop_last()),
        }
    }
}

/// The C library of the last word that says one.
pub open spec fn last_libc(words: Seq<Word>) -> Option<Libc>
    decreases words.len(),
{
    if words.len() == 0 {
        None
    } else {
        match words.last().kind {
            Kind::Library(libc) => Some(libc),
            _ => last_libc(words.drop_last()),
        }
    }
}

/// Whether a word says that the binaries are universal macOS ones.
pub open spec fn is_universal(words: Seq<Word>) -> bool {
    exists|i: int| 0 <= i < words.len() && (#[trigger] words[i]).kind is Universal
}

/// The first segment of the first word that is not plain: this is where the name ends.
pub open spec fn name_end(words: Seq<Word>) -> Option<int>
    decreases words.len(),
{
    if words.len() == 0 {
        None
    } else if name_end(words.drop_last()) is Some {
        name_end(words.drop_last())
    } else if words.last().kind is Plain {
        None
    } else {
        Some(words.last().at)
    }
}

/// The segment of the first plain word after the name.
pub open spec fn stray(words: Seq<Word>) -> Option<int>
    decreases words.len(),
{
    if words.len() == 0 {
        None
    } else if stray(words.drop_last()) is Some {
        stray(words.drop_last())
    } else if words.last().kind is Plain && name_end(words.drop_last()) is Some {
        Some(words.last().at)
    } else {
        None
    }
}

/// Position of the first character of segment `i`, in the text which was split into `segments`.
pub open spec fn segment_start(segments: Seq<Seq<char>>, i: int) -> int
    decreases i,
{
    if i <= 0 {
        0
    } else {
        segment_start(segments, i - 1) + segments[i - 1].len() + 1
    }
}

/// The name in a file name whose words end their name at segment `end`.
pub open spec fn name_before(file: Seq<char>, end: int) -> Seq<char> {
    let start = segment_start(text::pieces(stem_of(file), separators()), end);
    text::trimmed_end(stem_of(file).take(start), seq!['_', '-'])
}

/// What the file name `file` says of an artifact.
pub open spec fn read_name(file: Seq<char>) -> Result<NameView, NameErrorView> {
    let segments = text::pieces(stem_of(file), separators());
    let words = words(segments, 0);
    if stray(words) is Some {
        Err(NameErrorView::Unknown { got: segments[stray(words)->0] })
    } else if !is_universal(words) && last_arch(words) is None {
        Err(NameErrorView::Missing { part: "architecture"@ })
    } else if !is_universal(words) && last_os(words) is None {
        Err(NameErrorView::Missing { part: "os"@ })
    } else {
        Ok(
            NameView {
                name: name_before(file, name_end(words)->0),
                libc: last_libc(words),
                format: format_of(file),
                platform: if is_universal(words) {
                    Platform::MacosUniversal
                } else {
                    Platform::Known { arch: last_arch(words)->0, os: last_os(words)->0 }
                },
            },
        )
    }
}

// ---------------------------------------------------------------------------------------------
// Lemmas

/// A word of a prefix of the words stays the first stray one.
proof fn lemma_stray_stays(done: Seq<Word>, rest: Seq<Word>)
    requires
        stray(done) is Some,
    ensures
        stray(done + rest) == stray(done),
    decreases rest.len(),
{
    if rest.len() == 0 {
        assert(done + rest == done);
    } else {
        lemma_stray_stays(done, rest.drop_last());
        assert((done + rest).drop_last() == done + rest.drop_last());
    }
}

/// Words that say a platform end the name.
proof fn lemma_name_ends(words: Seq<Word>)
    ensures
        last_arch(words) is Some || last_os(words) is Some || is_universal(words) ==> name_end(
            words,
        ) is Some,
    decreases words.len(),
{
    if words.len() > 0 {
        lemma_name_ends(words.drop_last());
        if is_universal(words) && !(words.last().kind is Universal) {
            let i = choose|i: int| 0 <= i < words.len() && (#[trigger] words[i]).kind is Universal;
            assert(words.drop_last()[i].kind is Universal);
        }
    }
}

/// Each segment starts within the text.
proof fn lemma_segment_start(s: Seq<char>, seps: Seq<char>, i: int)
    requires
        0 <= i < text::pieces(s, seps).len(),
    ensures
        0 <= segment_start(text::pieces(s, seps), i),
        segment_start(text::pieces(s, seps), i) + text::pieces(s, seps)[i].len() <= s.len(),
    decreases s.len(),
{
    text::lemma_first_of_bounds(s, seps);
    let at = text::first_of(s, seps);
    if i > 0 {
        let tail = s.skip(at + 1);
        lemma_segment_start(tail, seps, i - 1);
        lemma_segment_start_shift(text::pieces(s, seps), text::pieces(tail, seps), s.take(at), i);
    }
}

proof fn lemma_segment_start_shift(
    all: Seq<Seq<char>>,
    tail: Seq<Seq<char>>,
    head: Seq<char>,
    i: int,
)
    requires
        all == seq![head] + tail,
        1 <= i < all.len(),
    ensures
        segment_start(all, i) == head.len() + 1 + segment_start(tail, i - 1),
    decreases i,
{
    if i > 1 {
        lemma_segment_start_shift(all, tail, head, i - 1);
    } else {
        assert(segment_start(all, 0) == 0);
    }
}

/// Adding a word to the words read so far.
proof fn lemma_push(words: Seq<Word>, word: Word)
    ensures
        words.push(word).drop_last() == words,
        words.push(word).last() == word,
        is_universal(words.push(word)) == (is_universal(words) || word.kind is Universal),
{
    assert(words.push(word).drop_last() == words);
    if is_universal(words) {
        let i = choose|i: int| 0 <= i < words.len() && (#[trigger] words[i]).kind is Universal;
        assert(words.push(word)[i].kind is Universal);
    }
    if word.kind is Universal {
        assert(words.push(word)[words.len() as int].kind is Universal);
    }
    if is_universal(words.push(word)) && !(word.kind is Universal) {
        let i = choose|i: int|
            0 <= i < words.push(word).len() && (#[trigger] words.push(word)[i]).kind is Universal;
        assert(words[i].kind is Universal);
    }
}

// ---------------------------------------------------------------------------------------------
// Reading

/// The format of `file` by its extension, and `file` without that extension.
fn split_extension(file: &str) -> (parts: (Option<ArchiveFormat>, &str))
    ensures
        parts.0 == format_of(file@),
        parts.1@ == unpacked(file@),
{
    let list: [(&'static str, ArchiveFormat); 13] = ArchiveFormat::extensions();
    let ghost known = list@.map_values(|item: (&'static str, ArchiveFormat)| (item.0@, item.1));
    let mut i: usize = 0;
    while i < 13
        invariant
            i <= 13,
            known == crate::target::extensions(),
            known == list@.map_values(|item: (&'static str, ArchiveFormat)| (item.0@, item.1)),
            extension_from(file@, i as int) == extension_from(file@, 0),
        decreases 13 - i,
    {
        let (extension, format) = list[i];
        assert(known[i as int] == (extension@, format));
        if let Some(rest) = text::strip_suffix(file, extension) {
            return (Some(format), rest);
        }
        i += 1;
    }
    (None, file)
}

/// Whether segment `i` exists and is `text`.
fn has_segment(segments: &Vec<&str>, i: usize, text: &str) -> (yes: bool)
    ensures
        yes == segment_is(text::texts(segments@), i as int, text@),
{
    i < segments.len() && text::same(segments[i], text)
}

/// Whether `segment` is a part of a version.
fn reads_version(segment: &str) -> (yes: bool)
    ensures
        yes == is_version(segment@),
{
    let chars: Vec<char> = text::to_chars(segment);
    if chars.len() == 0 || !(chars[0] == 'v' || text::digit(chars[0])) {
        return false;
    }
    let mut i: usize = 1;
    while i < chars.len()
        invariant
            1 <= i <= chars@.len(),
            chars@ == segment@,
            forall|j: int|
                1 <= j < i ==> text::is_alphanumeric(#[trigger] segment@[j]) || segment@[j] == '+',
        decreases chars@.len() - i,
    {
        if !(text::alphanumeric(chars[i]) || chars[i] == '+') {
            assert(!(text::is_alphanumeric(segment@[i as int]) || segment@[i as int] == '+'));
            return false;
        }
        i += 1;
    }
    true
}

/// Whether `segment` announces a pre-release.
fn reads_prerelease(segment: &str) -> (yes: bool)
    ensures
        yes == is_prerelease(segment@),
{
    if !(text::starts_with(segment, "alpha") || text::starts_with(segment, "beta")
        || text::starts_with(segment, "dev") || text::starts_with(segment, "rc")) {
        return false;
    }
    proof {
        reveal_strlit("alpha");
        reveal_strlit("beta");
        reveal_strlit("dev");
        reveal_strlit("rc");
    }
    let chars: Vec<char> = text::to_chars(segment);
    let mut i: usize = 2;
    while i < chars.len()
        invariant
            2 <= i <= chars@.len(),
            chars@ == segment@,
            forall|j: int| 0 <= j < i - 2 ==> text::is_alphanumeric(#[trigger] segment@.skip(2)[j]),
        decreases chars@.len() - i,
    {
        assert(segment@.skip(2)[i - 2] == chars@[i as int]);
        if !text::alphanumeric(chars[i]) {
            return false;
        }
        i += 1;
    }
    true
}

/// What the segments from `i` on say, and the number of segments which say it.
fn read_word(segments: &Vec<&str>, i: usize) -> (word: (Kind, usize))
    requires
        i < segments@.len(),
    ensures
        word.0 == read_at(text::texts(segments@), i as int).0,
        word.1 == read_at(text::texts(segments@), i as int).1,
        1 <= word.1,
        i + word.1 <= segments@.len(),
{
    let count: usize = segments.len();
    assert(i + 1 <= count);
    let segment: &str = segments[i];
    let chars: Vec<char> = text::to_lower_chars(segment);
    let word: &[char] = chars.as_slice();
    assert(segment@ == text::texts(segments@)[i as int]);
    // We're not very strict here, and don't validate that e.g. we only match one architecture, or
    // that `msvc` always follows `windows`.
    if text::spells(word, "aarch64") || text::spells(word, "arm64") {
        (Kind::Arch(Architecture::Aarch64), 1)
    } else if text::spells(word, "aarch") && has_segment(segments, i + 1, "64") {
        (Kind::Arch(Architecture::Aarch64), 2)
    } else if text::spells(word, "amd64") || text::spells(word, "x64") {
        (Kind::Arch(Architecture::X64), 1)
    } else if text::spells(word, "x86") && has_segment(segments, i + 1, "64") {
        (Kind::Arch(Architecture::X64), 2)
    } else if text::spells(word, "apple") {
        if has_segment(segments, i + 1, "darwin") {
            (Kind::System(Os::Macos), 2)
        } else {
            (Kind::System(Os::Macos), 1)
        }
    } else if text::spells(word, "darwin") || text::spells(word, "macos") || text::spells(
        word,
        "osx",
    ) {
        if has_segment(segments, i + 1, "universal") {
            if has_segment(segments, i + 2, "binary") {
                (Kind::Universal, 3)
            } else {
                (Kind::Universal, 2)
            }
        } else {
            (Kind::System(Os::Macos), 1)
        }
    } else if text::spells(word, "linux") || text::spells(word, "ubuntu") {
        (Kind::System(Os::Linux), 1)
    } else if text::spells(word, "pc") && has_segment(segments, i + 1, "windows") {
        (Kind::System(Os::Windows), 2)
    } else if text::spells(word, "unknown") && has_segment(segments, i + 1, "linux") {
        (Kind::System(Os::Linux), 2)
    } else if text::spells(word, "windows") {
        (Kind::System(Os::Windows), 1)
    } else if text::spells(word, "gnu") {
        (Kind::Library(Libc::Gnu), 1)
    } else if text::spells(word, "musl") {
        (Kind::Library(Libc::Musl), 1)
    } else if text::spells(word, "msvc") {
        (Kind::Noise, 1)
    } else if text::spells(word, "win64") {
        (Kind::Win64, 1)
    } else if reads_version(segment) || reads_prerelease(segment) {
        (Kind::Noise, 1)
    } else {
        (Kind::Plain, 1)
    }
}

/// Position of the first character of segment `i` of `stem`.
fn find_segment(stem: &str, segments: &Vec<&str>, i: usize) -> (position: usize)
    requires
        text::texts(segments@) == text::pieces(stem@, separators()),
        i < segments@.len(),
    ensures
        position == segment_start(text::texts(segments@), i as int),
        position <= stem@.len(),
{
    let stem_len: usize = stem.unicode_len();
    let ghost all = text::texts(segments@);
    let mut position: usize = 0;
    let mut k: usize = 0;
    while k < i
        invariant
            k <= i < segments@.len(),
            all == text::texts(segments@),
            all == text::pieces(stem@, separators()),
            position == segment_start(all, k as int),
            position <= stem_len == stem@.len(),
        decreases i - k,
    {
        proof {
            lemma_segment_start(stem@, separators(), k + 1);
        }
        assert(all[k as int] == segments@[k as int]@);
        position = position + segments[k].unicode_len() + 1;
        k += 1;
    }
    position
}

impl FromStr for ArtifactName {
    type Err = ArtifactNameError;

    /// Reads what `file_name` says of an artifact.
    fn from_str(file_name: &str) -> (name: Result<ArtifactName, ArtifactNameError>)
        ensures
            match name {
                Ok(name) => read_name(file_name@) == Ok::<NameView, NameErrorView>(name@),
                Err(error) => read_name(file_name@) == Err::<NameView, NameErrorView>(error@),
            },
    {
        let (format, unpacked) = split_extension(file_name);
        let stem: &str = match text::strip_suffix(unpacked, ".exe") {
            Some(stripped) => stripped,
            None => unpacked,
        };
        let segments: Vec<&str> = text::split(stem, &['_', '-', '.']);
        let ghost all = text::texts(segments@);
        let ghost wanted = words(all, 0);
        let ghost mut done = Seq::<Word>::empty();

        let mut arch: Option<Architecture> = None;
        let mut os: Option<Os> = None;
        let mut universal: bool = false;
        let mut libc: Option<Libc> = None;
        // Index of the segment at which the name ends.
        let mut end: Option<usize> = None;

        let mut i: usize = 0;
        while i < segments.len()
            invariant
                i <= segments@.len(),
                all == text::texts(segments@),
                all == text::pieces(stem@, separators()),
                stem@ == stem_of(file_name@),
                wanted == words(all, 0),
                wanted == done + words(all, i as int),
                arch == last_arch(done),
                os == last_os(done),
                libc == last_libc(done),
                universal == is_universal(done),
                stray(done) is None,
                match end {
                    Some(end) => name_end(done) == Some(end as int) && end < segments@.len(),
                    None => name_end(done) is None,
                },
            decreases segments@.len() - i,
        {
            let (kind, count) = read_word(&segments, i);
            let ghost word = Word { kind, at: i as int };
            proof {
                lemma_push(done, word);
                assert(wanted == done.push(word) + words(all, i + count));
            }
            match kind {
                Kind::Arch(found) => {
                    arch = Some(found);
                },
                Kind::System(found) => {
                    os = Some(found);
                },
                Kind::Universal => {
                    universal = true;
                },
                Kind::Library(found) => {
                    libc = Some(found);
                },
                Kind::Win64 => {
                    arch = Some(Architecture::X64);
                    os = Some(Os::Windows);
                },
                Kind::Noise => {},
                Kind::Plain => {
                    if end.is_some() {
                        proof {
                            lemma_stray_stays(done.push(word), words(all, i + count));
                        }
                        return Err(ArtifactNameError::Unknown { got: segments[i].to_owned() });
                    }
                },
            }
            if end.is_none() {
                match kind {
                    Kind::Plain => {},
                    _ => {
                        end = Some(i);
                    },
                }
            }
            proof {
                done = done.push(word);
            }
            i += count;
        }
        assert(done == wanted);
        proof {
            lemma_name_ends(done);
        }
        let platform: Platform = if universal {
            Platform::MacosUniversal
        } else {
            match (arch, os) {
                (Some(arch), Some(os)) => Platform::Known { arch, os },
                (None, _) => {
                    return Err(ArtifactNameError::Missing { part: "architecture" });
                },
                (_, None) => {
                    return Err(ArtifactNameError::Missing { part: "os" });
                },
            }
        };
        let end_position: usize = find_segment(stem, &segments, end.unwrap());
        let name: String = text::trim_end(stem.substring_char(0, end_position), &['_', '-'])
            .to_owned();
        Ok(ArtifactName { name, libc, format, platform })
    }
}

// ---------------------------------------------------------------------------------------------
// Laws

/// The extension taken off a file name is the most specific one: no other known extension with
/// which the file name ends is longer.
pub proof fn extension_is_most_specific(file: Seq<char>, other: int)
    requires
        0 <= other < crate::target::extensions().len(),
        crate::target::extensions()[other].0.is_suffix_of(file),
    ensures
        extension_from(file, 0) is Some,
        crate::target::extensions()[other].0.len() <= crate::target::extensions()[extension_from(
            file,
            0,
        )->0].0.len(),
{
    reveal_strlit(".tar.zst");
    reveal_strlit(".tar.gz");
    reveal_strlit(".tar.xz");
    reveal_strlit(".tar.bz2");
    reveal_strlit(".tgz");
    reveal_strlit(".txz");
    reveal_strlit(".tzst");
    reveal_strlit(".tar");
    reveal_strlit(".zip");
    reveal_strlit(".bz2");
    reveal_strlit(".gz");
    reveal_strlit(".xz");
    reveal_strlit(".zst");
    let known = crate::target::extensions();
    lemma_extension_from(file, 0, other);
    let found = extension_from(file, 0)->0;
    let n = file.len() as int;
    assert(known[found].0.last() == file[n - 1]);
    assert(known[other].0.last() == file[n - 1]);
}

proof fn lemma_extension_from(file: Seq<char>, from: int, other: int)
    requires
        0 <= from <= other < crate::target::extensions().len(),
        crate::target::extensions()[other].0.is_suffix_of(file),
    ensures
        extension_from(file, from) is Some,
        from <= extension_from(file, from)->0 <= other,
        crate::target::extensions()[extension_from(file, from)->0].0.is_suffix_of(file),
    decreases other - from,
{
    if !crate::target::extensions()[from].0.is_suffix_of(file) {
        lemma_extension_from(file, from + 1, other);
    }
}

/// The name read from a file name is a prefix of the file name and does not end with a separator
/// of words.
pub proof fn name_is_a_prefix(file: Seq<char>)
    requires
        read_name(file) is Ok,
    ensures
        read_name(file)->Ok_0.name.is_prefix_of(file),
        read_name(file)->Ok_0.name.len() > 0 ==> {
            let last = read_name(file)->Ok_0.name.last();
            last != '_' && last != '-'
        },
{
    let segments = text::pieces(stem_of(file), separators());
    let words = words(segments, 0);
    lemma_name_ends(words);
    lemma_words_at(segments, 0);
    lemma_name_end_at(words);
    let end = name_end(words)->0;
    lemma_segment_start(stem_of(file), separators(), end);
    let start = segment_start(segments, end);
    let raw = stem_of(file).take(start);
    lemma_trimmed_end(raw, seq!['_', '-']);
    lemma_stem_is_a_prefix(file);
    assert(seq!['_', '-'].contains('_')) by {
        assert(seq!['_', '-'][0] == '_');
    }
    assert(seq!['_', '-'].contains('-')) by {
        assert(seq!['_', '-'][1] == '-');
    }
}

proof fn lemma_stem_is_a_prefix(file: Seq<char>)
    ensures
        stem_of(file).is_prefix_of(file),
{
    if extension_from(file, 0) is Some {
        lemma_extension_suffix(file, 0);
    }
}

proof fn lemma_extension_suffix(file: Seq<char>, from: int)
    requires
        0 <= from,
        extension_from(file, from) is Some,
    ensures
        0 <= extension_from(file, from)->0 < crate::target::extensions().len(),
        crate::target::extensions()[extension_from(file, from)->0].0.is_suffix_of(file),
    decreases crate::target::extensions().len() - from,
{
    if from < crate::target::extensions().len()
        && !crate::target::extensions()[from].0.is_suffix_of(file) {
        lemma_extension_suffix(file, from + 1);
    }
}

proof fn lemma_trimmed_end(s: Seq<char>, seps: Seq<char>)
    ensures
        text::trimmed_end(s, seps).is_prefix_of(s),
        text::trimmed_end(s, seps).len() > 0 ==> !seps.contains(text::trimmed_end(s, seps).last()),
    decreases s.len(),
{
    if s.len() > 0 && seps.contains(s.last()) {
        lemma_trimmed_end(s.drop_last(), seps);
    }
}

proof fn lemma_words_at(segments: Seq<Seq<char>>, from: int)
    requires
        0 <= from,
    ensures
        forall|i: int|
            0 <= i < words(segments, from).len() ==> 0 <= (#[trigger] words(segments, from)[i]).at
                < segments.len(),
    decreases segments.len() - from,
{
    if from < segments.len() {
        let (kind, count) = read_at(segments, from);
        lemma_words_at(segments, from + count);
        let rest = words(segments, from + count);
        assert forall|i: int| 0 <= i < words(segments, from).len() implies 0 <= (#[trigger] words(
            segments,
            from,
        )[i]).at < segments.len() by {
            if i > 0 {
                assert(words(segments, from)[i] == rest[i - 1]);
            }
        }
    }
}

proof fn lemma_name_end_at(words: Seq<Word>)
    requires
        name_end(words) is Some,
    ensures
        exists|i: int| 0 <= i < words.len() && (#[trigger] words[i]).at == name_end(words)->0,
    decreases words.len(),
{
    if name_end(words.drop_last()) is Some {
        lemma_name_end_at(words.drop_last());
        let shorter = words.drop_last();
        let i = choose|i: int|
            0 <= i < shorter.len() && (#[trigger] shorter[i]).at == name_end(shorter)->0;
        assert(words[i] == shorter[i]);
    } else {
        assert(words[words.len() - 1].at == name_end(words)->0);
    }
}

} // verus!
