//! Laws of [`crate::name`]: how the file names of artifacts are read.

use vstd::prelude::*;

use crate::name;
use crate::name::{Kind, NameErrorView, NameView, Word};
use crate::target;
use crate::target::{ArchiveFormat, Architecture, Libc, Os, Platform};
use crate::target_laws;
use crate::text;

verus! {

// ---------------------------------------------------------------------------------------------
// Words

/// Whether a segment is `word`, in any case.
pub open spec fn is_word(segment: Seq<char>, word: Seq<char>) -> bool {
    text::lower(segment) == word
}

/// The known words.
proof fn lemma_known_words()
    ensures
        "aarch64"@ == seq!['a', 'a', 'r', 'c', 'h', '6', '4'],
        "arm64"@ == seq!['a', 'r', 'm', '6', '4'],
        "aarch"@ == seq!['a', 'a', 'r', 'c', 'h'],
        "amd64"@ == seq!['a', 'm', 'd', '6', '4'],
        "x64"@ == seq!['x', '6', '4'],
        "x86"@ == seq!['x', '8', '6'],
        "apple"@ == seq!['a', 'p', 'p', 'l', 'e'],
        "darwin"@ == seq!['d', 'a', 'r', 'w', 'i', 'n'],
        "macos"@ == seq!['m', 'a', 'c', 'o', 's'],
        "osx"@ == seq!['o', 's', 'x'],
        "linux"@ == seq!['l', 'i', 'n', 'u', 'x'],
        "ubuntu"@ == seq!['u', 'b', 'u', 'n', 't', 'u'],
        "pc"@ == seq!['p', 'c'],
        "unknown"@ == seq!['u', 'n', 'k', 'n', 'o', 'w', 'n'],
        "windows"@ == seq!['w', 'i', 'n', 'd', 'o', 'w', 's'],
        "gnu"@ == seq!['g', 'n', 'u'],
        "musl"@ == seq!['m', 'u', 's', 'l'],
        "msvc"@ == seq!['m', 's', 'v', 'c'],
        "win64"@ == seq!['w', 'i', 'n', '6', '4'],
{
    reveal_strlit("aarch64");
    reveal_strlit("arm64");
    reveal_strlit("aarch");
    reveal_strlit("amd64");
    reveal_strlit("x64");
    reveal_strlit("x86");
    reveal_strlit("apple");
    reveal_strlit("darwin");
    reveal_strlit("macos");
    reveal_strlit("osx");
    reveal_strlit("linux");
    reveal_strlit("ubuntu");
    reveal_strlit("pc");
    reveal_strlit("unknown");
    reveal_strlit("windows");
    reveal_strlit("gnu");
    reveal_strlit("musl");
    reveal_strlit("msvc");
    reveal_strlit("win64");
}

/// A segment which says an architecture says it in any case, and whatever stands around it. `aarch`
/// and `x86` do if `64` follows.
pub proof fn architectures_are_said(segments: Seq<Seq<char>>, i: int)
    requires
        0 <= i < segments.len(),
    ensures
        is_word(segments[i], "aarch64"@) || is_word(segments[i], "arm64"@) ==> name::read_at(
            segments,
            i,
        ) == (Kind::Arch(Architecture::Aarch64), 1int),
        is_word(segments[i], "amd64"@) || is_word(segments[i], "x64"@) ==> name::read_at(segments, i)
            == (Kind::Arch(Architecture::X64), 1int),
        i + 1 < segments.len() && segments[i + 1] == "64"@ ==> {
            &&& is_word(segments[i], "aarch"@) ==> name::read_at(segments, i) == (
                Kind::Arch(Architecture::Aarch64),
                2int,
            )
            &&& is_word(segments[i], "x86"@) ==> name::read_at(segments, i) == (
                Kind::Arch(Architecture::X64),
                2int,
            )
        },
{
    lemma_known_words();
    let word = text::lower(segments[i]);
    assert(word == "amd64"@ ==> word[1] == 'm');
    assert(word == "arm64"@ ==> word[1] == 'r');
    assert(word == "x64"@ ==> word.len() == 3);
    assert(word == "x86"@ ==> word[1] == '8');
    assert(word == "x64"@ ==> word[1] == '6');
    assert(word == "aarch"@ ==> word[1] == 'a');
    assert(word == "aarch64"@ ==> word.len() == 7);
}

/// A segment which says an operating system says it in any case, and whatever stands around it.
/// `pc` does before `windows`, and `unknown` before `linux`. What is for macOS and `universal` is
/// for every architecture.
pub proof fn systems_are_said(segments: Seq<Seq<char>>, i: int)
    requires
        0 <= i < segments.len(),
    ensures
        is_word(segments[i], "linux"@) || is_word(segments[i], "ubuntu"@) ==> name::read_at(
            segments,
            i,
        ) == (Kind::System(Os::Linux), 1int),
        is_word(segments[i], "windows"@) ==> name::read_at(segments, i) == (
            Kind::System(Os::Windows),
            1int,
        ),
        is_word(segments[i], "win64"@) ==> name::read_at(segments, i) == (Kind::Win64, 1int),
        is_word(segments[i], "apple"@) ==> name::read_at(segments, i).0 == Kind::System(Os::Macos),
        is_word(segments[i], "darwin"@) || is_word(segments[i], "macos"@) || is_word(
            segments[i],
            "osx"@,
        ) ==> if i + 1 < segments.len() && segments[i + 1] == "universal"@ {
            name::read_at(segments, i).0 == Kind::Universal
        } else {
            name::read_at(segments, i) == (Kind::System(Os::Macos), 1int)
        },
        i + 1 < segments.len() && is_word(segments[i], "pc"@) && segments[i + 1] == "windows"@
            ==> name::read_at(segments, i) == (Kind::System(Os::Windows), 2int),
        i + 1 < segments.len() && is_word(segments[i], "unknown"@) && segments[i + 1] == "linux"@
            ==> name::read_at(segments, i) == (Kind::System(Os::Linux), 2int),
{
    lemma_known_words();
    let word = text::lower(segments[i]);
    assert(word == "linux"@ ==> word[0] == 'l' && word.len() == 5);
    assert(word == "ubuntu"@ ==> word[0] == 'u' && word.len() == 6);
    assert(word == "windows"@ ==> word[0] == 'w' && word.len() == 7);
    assert(word == "win64"@ ==> word[0] == 'w' && word.len() == 5);
    assert(word == "apple"@ ==> word[0] == 'a' && word[1] == 'p');
    assert(word == "darwin"@ ==> word[0] == 'd' && word.len() == 6);
    assert(word == "macos"@ ==> word[0] == 'm' && word.len() == 5);
    assert(word == "osx"@ ==> word[0] == 'o' && word.len() == 3);
    assert(word == "pc"@ ==> word[0] == 'p' && word.len() == 2);
    assert(word == "unknown"@ ==> word[0] == 'u' && word.len() == 7);
    assert("arm64"@[1] == 'r' && "aarch"@[1] == 'a' && "amd64"@[1] == 'm' && "x64"@[0] == 'x'
        && "x86"@[0] == 'x');
}

/// A segment which says a C library says it in any case, and whatever stands around it; `msvc` says
/// nothing.
pub proof fn libraries_are_said(segments: Seq<Seq<char>>, i: int)
    requires
        0 <= i < segments.len(),
    ensures
        is_word(segments[i], "gnu"@) ==> name::read_at(segments, i) == (
            Kind::Library(Libc::Gnu),
            1int,
        ),
        is_word(segments[i], "musl"@) ==> name::read_at(segments, i) == (
            Kind::Library(Libc::Musl),
            1int,
        ),
        is_word(segments[i], "msvc"@) ==> name::read_at(segments, i) == (Kind::Noise, 1int),
{
    lemma_known_words();
    let word = text::lower(segments[i]);
    assert(word == "gnu"@ ==> word[0] == 'g' && word.len() == 3);
    assert(word == "musl"@ ==> word[0] == 'm' && word.len() == 4 && word[1] == 'u');
    assert(word == "msvc"@ ==> word[0] == 'm' && word.len() == 4 && word[1] == 's');
    assert("x64"@[0] == 'x' && "x86"@[0] == 'x' && "osx"@[0] == 'o');
}

/// Whether a segment is one of the words which say a part of a platform or a C library, in any case.
pub open spec fn is_known_word(segment: Seq<char>) -> bool {
    ||| is_word(segment, "aarch64"@) || is_word(segment, "arm64"@) || is_word(segment, "aarch"@)
    ||| is_word(segment, "amd64"@) || is_word(segment, "x64"@) || is_word(segment, "x86"@)
    ||| is_word(segment, "apple"@) || is_word(segment, "darwin"@) || is_word(segment, "macos"@)
        || is_word(segment, "osx"@)
    ||| is_word(segment, "linux"@) || is_word(segment, "ubuntu"@) || is_word(segment, "unknown"@)
    ||| is_word(segment, "pc"@) || is_word(segment, "windows"@) || is_word(segment, "win64"@)
    ||| is_word(segment, "gnu"@) || is_word(segment, "musl"@) || is_word(segment, "msvc"@)
}

/// The segments of a file name, without its extension.
pub open spec fn segments_of(file: Seq<char>) -> Seq<Seq<char>> {
    text::pieces(name::stem_of(file), name::separators())
}

/// Whether two lists of segments are the same but for the case of known words. What follows `apple`,
/// `pc` and `unknown` is read together with them, as it is written.
pub open spec fn same_but_case(a: Seq<Seq<char>>, b: Seq<Seq<char>>) -> bool {
    &&& a.len() == b.len()
    &&& forall|k: int|
        0 <= k < a.len() ==> (#[trigger] a[k]) == b[k] || {
            &&& text::lower(a[k]) == text::lower(b[k])
            &&& is_known_word(a[k])
            &&& k > 0 ==> !is_word(a[k - 1], "apple"@) && !is_word(a[k - 1], "pc"@) && !is_word(
                a[k - 1],
                "unknown"@,
            )
        }
}

/// What follows a word says the same in both lists.
proof fn lemma_next(a: Seq<Seq<char>>, b: Seq<Seq<char>>, k: int)
    requires
        same_but_case(a, b),
        0 <= k,
    ensures
        name::segment_is(a, k, "64"@) == name::segment_is(b, k, "64"@),
        name::segment_is(a, k, "universal"@) == name::segment_is(b, k, "universal"@),
        name::segment_is(a, k, "binary"@) == name::segment_is(b, k, "binary"@),
        k > 0 && k <= a.len() && (is_word(a[k - 1], "apple"@) || is_word(a[k - 1], "pc"@) || is_word(
            a[k - 1],
            "unknown"@,
        )) ==> {
            &&& name::segment_is(a, k, "darwin"@) == name::segment_is(b, k, "darwin"@)
            &&& name::segment_is(a, k, "windows"@) == name::segment_is(b, k, "windows"@)
            &&& name::segment_is(a, k, "linux"@) == name::segment_is(b, k, "linux"@)
        },
{
    if k < a.len() && a[k] != b[k] {
        lemma_known_words();
        assert(is_known_word(a[k]));
        assert(is_known_word(b[k]));
        lemma_not_known(a[k]);
        lemma_not_known(b[k]);
    }
}

/// What only follows other words is not known on its own.
proof fn lemma_not_known(segment: Seq<char>)
    ensures
        segment == "64"@ || segment == "universal"@ || segment == "binary"@ ==> !is_known_word(
            segment,
        ),
{
    lemma_known_words();
    reveal_strlit("64");
    reveal_strlit("universal");
    reveal_strlit("binary");
    let word = text::lower(segment);
    if segment == "64"@ {
        assert(word.len() == 2 && word[0] == '6');
    }
    if segment == "universal"@ {
        assert(word.len() == 9);
    }
    if segment == "binary"@ {
        assert(word.len() == 6 && word[0] == 'b');
    }
    assert("pc"@[0] == 'p' && "darwin"@[0] == 'd' && "ubuntu"@[0] == 'u');
}

/// A known word is no version, and announces no pre-release.
proof fn lemma_known_is_no_noise(segment: Seq<char>)
    requires
        is_word(segment, "aarch"@) || is_word(segment, "x86"@) || is_word(segment, "pc"@) || is_word(
            segment,
            "unknown"@,
        ),
    ensures
        !name::is_version(segment),
        !name::is_prerelease(segment),
{
    lemma_known_words();
    let word = text::lower(segment);
    assert(word.len() == segment.len());
    assert(word.len() >= 2);
    assert(word[0] == 'a' || word[0] == 'x' || word[0] == 'p' || word[0] == 'u');
    assert(word[0] == text::lower_char(segment[0]));
    assert(word[1] == text::lower_char(segment[1]));
    assert(word[1] != 'l');
    reveal_strlit("alpha");
    reveal_strlit("beta");
    reveal_strlit("dev");
    reveal_strlit("rc");
    if "alpha"@.is_prefix_of(segment) {
        assert(segment[1] == "alpha"@[1]);
    }
    if "beta"@.is_prefix_of(segment) {
        assert(segment[0] == "beta"@[0]);
    }
    if "dev"@.is_prefix_of(segment) {
        assert(segment[0] == "dev"@[0]);
    }
    if "rc"@.is_prefix_of(segment) {
        assert(segment[0] == "rc"@[0]);
    }
}

/// The same is read from both lists.
proof fn lemma_same_word(a: Seq<Seq<char>>, b: Seq<Seq<char>>, i: int)
    requires
        same_but_case(a, b),
        0 <= i < a.len(),
    ensures
        name::read_at(a, i) == name::read_at(b, i),
{
    lemma_next(a, b, i + 1);
    lemma_next(a, b, i + 2);
    assert(text::lower(a[i]) == text::lower(b[i]));
    if a[i] != b[i] {
        if is_word(a[i], "aarch"@) || is_word(a[i], "x86"@) || is_word(a[i], "pc"@) || is_word(
            a[i],
            "unknown"@,
        ) {
            lemma_known_is_no_noise(a[i]);
            lemma_known_is_no_noise(b[i]);
        }
    }
}

proof fn lemma_same_words(a: Seq<Seq<char>>, b: Seq<Seq<char>>, from: int)
    requires
        same_but_case(a, b),
        0 <= from,
    ensures
        name::words(a, from) == name::words(b, from),
    decreases a.len() - from,
{
    if from < a.len() {
        lemma_same_word(a, b, from);
        let (kind, count) = name::read_at(a, from);
        lemma_same_words(a, b, from + count);
    }
}

/// The case of known words does not matter: two file names whose segments differ in nothing else
/// are both those of artifacts or both not, and say the same platform and the same C library.
pub proof fn case_does_not_matter(a: Seq<char>, b: Seq<char>)
    requires
        same_but_case(segments_of(a), segments_of(b)),
    ensures
        name::read_name(a) is Ok <==> name::read_name(b) is Ok,
        name::read_name(a) is Ok ==> {
            &&& name::read_name(a)->Ok_0.platform == name::read_name(b)->Ok_0.platform
            &&& name::read_name(a)->Ok_0.libc == name::read_name(b)->Ok_0.libc
        },
{
    lemma_same_words(segments_of(a), segments_of(b), 0);
}

// ---------------------------------------------------------------------------------------------
// Segments

/// Splitting two texts with a separator between them splits each of them.
proof fn lemma_concat(a: Seq<char>, sep: char, b: Seq<char>, seps: Seq<char>)
    requires
        seps.contains(sep),
    ensures
        text::pieces(a + seq![sep] + b, seps) == text::pieces(a, seps) + text::pieces(b, seps),
    decreases a.len(),
{
    let whole = a + seq![sep] + b;
    text::lemma_first_of_bounds(a, seps);
    let at = text::first_of(a, seps);
    assert forall|j: int| 0 <= j < at implies !seps.contains(#[trigger] whole[j]) by {
        assert(whole[j] == a[j]);
    }
    if at < a.len() {
        assert(whole[at] == a[at]);
        text::lemma_first_of(whole, seps, at);
        let rest = a.skip(at + 1);
        lemma_concat(rest, sep, b, seps);
        assert(whole.take(at) == a.take(at));
        assert(whole.skip(at + 1) == rest + seq![sep] + b);
        assert(seq![a.take(at)] + (text::pieces(rest, seps) + text::pieces(b, seps)) == (seq![
            a.take(at),
        ] + text::pieces(rest, seps)) + text::pieces(b, seps));
    } else {
        assert(whole[at] == sep);
        text::lemma_first_of(whole, seps, at);
        assert(whole.take(at) == a);
        assert(whole.skip(at + 1) == b);
    }
}

/// A text has at least one piece, and ends with its last one.
proof fn lemma_last_piece(s: Seq<char>, seps: Seq<char>)
    ensures
        text::pieces(s, seps).len() > 0,
        text::pieces(s, seps).last().is_suffix_of(s),
    decreases s.len(),
{
    text::lemma_first_of_bounds(s, seps);
    let at = text::first_of(s, seps);
    if at < s.len() {
        let rest = s.skip(at + 1);
        lemma_last_piece(rest, seps);
        let last = text::pieces(rest, seps).last();
        assert(text::pieces(s, seps).last() == last);
        assert(rest.subrange(rest.len() - last.len(), rest.len() as int) == s.subrange(
            s.len() - last.len(),
            s.len() as int,
        ));
    } else {
        assert(s.subrange(0, s.len() as int) == s);
    }
}

/// Where segments start after one more at the front.
proof fn lemma_start_shift(head: Seq<char>, tail: Seq<Seq<char>>, i: int)
    requires
        1 <= i <= tail.len() + 1,
    ensures
        name::segment_start(seq![head] + tail, i) == head.len() + 1 + name::segment_start(
            tail,
            i - 1,
        ),
    decreases i,
{
    let all = seq![head] + tail;
    if i > 1 {
        lemma_start_shift(head, tail, i - 1);
        assert(all[i - 1] == tail[i - 2]);
    } else {
        assert(name::segment_start(all, 0) == 0);
        assert(all[0] == head);
    }
}

/// The segment after those of a text starts after that text and a separator.
proof fn lemma_start(a: Seq<char>, seps: Seq<char>, rest: Seq<Seq<char>>)
    ensures
        name::segment_start(text::pieces(a, seps) + rest, text::pieces(a, seps).len() as int)
            == a.len() + 1,
    decreases a.len(),
{
    text::lemma_first_of_bounds(a, seps);
    let at = text::first_of(a, seps);
    let parts = text::pieces(a, seps);
    if at < a.len() {
        let tail = a.skip(at + 1);
        lemma_start(tail, seps, rest);
        let inner = text::pieces(tail, seps);
        assert(parts + rest == seq![a.take(at)] + (inner + rest));
        lemma_start_shift(a.take(at), inner + rest, parts.len() as int);
    } else {
        assert(parts + rest == seq![a] + rest);
        lemma_start_shift(a, rest, 1);
        assert(name::segment_start(rest, 0) == 0);
    }
}

/// Whether a segment says nothing: it is no known word, no part of a version, and does not announce a
/// pre-release.
pub open spec fn is_ordinary(segment: Seq<char>) -> bool {
    !is_known_word(segment) && !is_of_version(segment)
}

/// Whether `c` is a letter or a digit.
pub open spec fn is_letter_or_digit(c: char) -> bool {
    ('a' <= c && c <= 'z') || ('A' <= c && c <= 'Z') || ('0' <= c && c <= '9')
}

/// Whether a segment is a part of a version, such as `14` or `v2` or `1+build`, or announces a
/// pre-release, such as `rc1` or `beta`.
pub open spec fn is_of_version(segment: Seq<char>) -> bool {
    ||| {
        &&& segment.len() > 0
        &&& segment[0] == 'v' || ('0' <= segment[0] && segment[0] <= '9')
        &&& forall|i: int|
            1 <= i < segment.len() ==> is_letter_or_digit(#[trigger] segment[i]) || segment[i]
                == '+'
    }
    ||| {
        &&& "alpha"@.is_prefix_of(segment) || "beta"@.is_prefix_of(segment) || "dev"@.is_prefix_of(
            segment,
        ) || "rc"@.is_prefix_of(segment)
        &&& forall|i: int| 0 <= i < segment.len() ==> is_letter_or_digit(#[trigger] segment[i])
    }
}

/// A segment which says nothing may be a part of the name, whatever stands around it.
pub proof fn other_segments_say_nothing(segments: Seq<Seq<char>>, i: int)
    requires
        0 <= i < segments.len(),
        is_ordinary(segments[i]),
    ensures
        name::read_at(segments, i) == (Kind::Plain, 1int),
{
    let segment = segments[i];
    if name::is_version(segment) {
        assert forall|k: int| 1 <= k < segment.len() implies is_letter_or_digit(
            #[trigger] segment[k],
        ) || segment[k] == '+' by {
            assert(text::is_alphanumeric(segment[k]) || segment[k] == '+');
        }
        assert(is_of_version(segment));
    }
    if name::is_prerelease(segment) {
        reveal_strlit("alpha");
        reveal_strlit("beta");
        reveal_strlit("dev");
        reveal_strlit("rc");
        lemma_announced(segment);
        assert forall|k: int| 0 <= k < segment.len() implies is_letter_or_digit(
            #[trigger] segment[k],
        ) by {
            if k >= 2 {
                assert(segment.skip(2)[k - 2] == segment[k]);
                assert(text::is_alphanumeric(segment.skip(2)[k - 2]));
            } else if "alpha"@.is_prefix_of(segment) {
                assert(segment[k] == "alpha"@[k]);
            } else if "beta"@.is_prefix_of(segment) {
                assert(segment[k] == "beta"@[k]);
            } else if "dev"@.is_prefix_of(segment) {
                assert(segment[k] == "dev"@[k]);
            } else {
                assert(segment[k] == "rc"@[k]);
            }
        }
        assert(is_of_version(segment));
    }
}

/// What only says something together with what follows it says nothing otherwise.
pub proof fn parts_alone_say_nothing(segments: Seq<Seq<char>>, i: int)
    requires
        0 <= i < segments.len(),
    ensures
        (is_word(segments[i], "aarch"@) || is_word(segments[i], "x86"@)) && (i + 1 == segments.len()
            || segments[i + 1] != "64"@) ==> name::read_at(segments, i) == (Kind::Plain, 1int),
        is_word(segments[i], "pc"@) && (i + 1 == segments.len() || segments[i + 1] != "windows"@)
            ==> name::read_at(segments, i) == (Kind::Plain, 1int),
        is_word(segments[i], "unknown"@) && (i + 1 == segments.len() || segments[i + 1]
            != "linux"@) ==> name::read_at(segments, i) == (Kind::Plain, 1int),
{
    if is_word(segments[i], "aarch"@) || is_word(segments[i], "x86"@) || is_word(
        segments[i],
        "pc"@,
    ) || is_word(segments[i], "unknown"@) {
        lemma_known_is_no_noise(segments[i]);
        lemma_known_words();
        let word = text::lower(segments[i]);
        assert(word == "aarch"@ ==> word[1] == 'a' && word.len() == 5);
        assert(word == "x86"@ ==> word[1] == '8' && word.len() == 3);
        assert(word == "pc"@ ==> word.len() == 2);
        assert(word == "unknown"@ ==> word[0] == 'u' && word.len() == 7);
        assert("arm64"@[1] == 'r' && "amd64"@[1] == 'm' && "apple"@[1] == 'p' && "x64"@[1] == '6'
            && "osx"@[0] == 'o' && "gnu"@[0] == 'g' && "aarch64"@[0] == 'a' && "windows"@[0] == 'w'
            && "macos"@[0] == 'm' && "linux"@[0] == 'l' && "win64"@[0] == 'w');
    }
}

/// Versions and what announces pre-releases are skipped, whatever stands around them.
pub proof fn versions_are_skipped(segments: Seq<Seq<char>>, i: int)
    requires
        0 <= i < segments.len(),
        is_of_version(segments[i]),
    ensures
        name::read_at(segments, i) == (Kind::Noise, 1int),
{
    lemma_known_words();
    let segment = segments[i];
    let word = text::lower(segment);
    assert(word.len() == segment.len());
    assert(segment.len() > 0) by {
        reveal_strlit("alpha");
        reveal_strlit("beta");
        reveal_strlit("dev");
        reveal_strlit("rc");
    }
    assert(word[0] == text::lower_char(segment[0]));
    if segment[0] == 'v' || ('0' <= segment[0] && segment[0] <= '9') {
        assert(name::is_version(segment) || "alpha"@.is_prefix_of(segment) || "beta"@.is_prefix_of(
            segment,
        ) || "dev"@.is_prefix_of(segment) || "rc"@.is_prefix_of(segment));
        assert(!is_known_word(segment));
    }
    if "alpha"@.is_prefix_of(segment) || "beta"@.is_prefix_of(segment) || "dev"@.is_prefix_of(
        segment,
    ) || "rc"@.is_prefix_of(segment) {
        lemma_announced(segment);
        if !name::is_version(segment) {
            assert forall|k: int| 0 <= k < segment.skip(2).len() implies text::is_alphanumeric(
                #[trigger] segment.skip(2)[k],
            ) by {
                assert(is_letter_or_digit(segment[k + 2]));
            }
        }
    }
}

/// What announces a pre-release is not known, and has at least two characters.
proof fn lemma_announced(segment: Seq<char>)
    requires
        "alpha"@.is_prefix_of(segment) || "beta"@.is_prefix_of(segment) || "dev"@.is_prefix_of(
            segment,
        ) || "rc"@.is_prefix_of(segment),
    ensures
        segment.len() >= 2,
        !is_known_word(segment),
        segment[0] != 'v' && !('0' <= segment[0] && segment[0] <= '9'),
{
    lemma_known_words();
    reveal_strlit("alpha");
    reveal_strlit("beta");
    reveal_strlit("dev");
    reveal_strlit("rc");
    let word = text::lower(segment);
    assert(word.len() == segment.len());
    if "alpha"@.is_prefix_of(segment) {
        assert(segment[0] == "alpha"@[0] && segment[1] == "alpha"@[1]);
    } else if "beta"@.is_prefix_of(segment) {
        assert(segment[0] == "beta"@[0] && segment[1] == "beta"@[1]);
    } else if "dev"@.is_prefix_of(segment) {
        assert(segment[0] == "dev"@[0] && segment[1] == "dev"@[1]);
    } else {
        assert(segment[0] == "rc"@[0] && segment[1] == "rc"@[1]);
    }
    assert(word[0] == text::lower_char(segment[0]));
    assert(word[1] == text::lower_char(segment[1]));
    assert("aarch64"@[1] == 'a' && "arm64"@[1] == 'r' && "aarch"@[1] == 'a' && "amd64"@[1] == 'm'
        && "apple"@[1] == 'p' && "darwin"@[1] == 'a');
    assert("x64"@[0] == 'x' && "x86"@[0] == 'x' && "macos"@[0] == 'm' && "osx"@[0] == 'o'
        && "linux"@[0] == 'l' && "ubuntu"@[0] == 'u' && "unknown"@[0] == 'u' && "pc"@[0] == 'p'
        && "windows"@[0] == 'w' && "win64"@[0] == 'w' && "gnu"@[0] == 'g' && "musl"@[0] == 'm'
        && "msvc"@[0] == 'm');
}

// ---------------------------------------------------------------------------------------------
// File names

/// The words of `n` segments of a name and of `m` segments of a version.
spec fn front(n: int, m: int) -> Seq<Word> {
    Seq::new(
        (n + m) as nat,
        |k: int|
            Word {
                kind: if k < n {
                    Kind::Plain
                } else {
                    Kind::Noise
                },
                at: k,
            },
    )
}

/// The words of a name and a version, and then those of the rest.
proof fn lemma_front(segments: Seq<Seq<char>>, n: int, m: int, from: int)
    requires
        0 <= n,
        0 <= m,
        n + m <= segments.len(),
        0 <= from <= n + m,
        forall|k: int| 0 <= k < n ==> is_ordinary(#[trigger] segments[k]),
        forall|k: int| n <= k < n + m ==> is_of_version(#[trigger] segments[k]),
    ensures
        name::words(segments, from) == front(n, m).skip(from) + name::words(segments, n + m),
    decreases n + m - from,
{
    let all = front(n, m);
    if from < n + m {
        lemma_front(segments, n, m, from + 1);
        if from < n {
            assert(is_ordinary(segments[from]));
            other_segments_say_nothing(segments, from);
        } else {
            assert(is_of_version(segments[from]));
            versions_are_skipped(segments, from);
        }
        assert(all.skip(from) == seq![all[from]] + all.skip(from + 1));
        assert(name::words(segments, from) == seq![all[from]] + name::words(segments, from + 1));
        assert(seq![all[from]] + (all.skip(from + 1) + name::words(segments, n + m)) == (seq![
            all[from],
        ] + all.skip(from + 1)) + name::words(segments, n + m));
    } else {
        assert(all.skip(from) + name::words(segments, n + m) == name::words(segments, n + m));
    }
}

/// Names and versions say nothing about the platform.
proof fn lemma_front_says_nothing(n: int, m: int, rest: Seq<Word>)
    requires
        0 <= n,
        0 <= m,
    ensures
        name::last_arch(front(n, m) + rest) == name::last_arch(rest),
        name::last_os(front(n, m) + rest) == name::last_os(rest),
        name::last_libc(front(n, m) + rest) == name::last_libc(rest),
    decreases n + m + rest.len(),
{
    let words = front(n, m) + rest;
    if rest.len() > 0 {
        lemma_front_says_nothing(n, m, rest.drop_last());
        assert(words.drop_last() == front(n, m) + rest.drop_last());
        assert(words.last() == rest.last());
    } else {
        assert(words == front(n, m));
        if m > 0 {
            lemma_front_says_nothing(n, m - 1, rest);
            assert(words.drop_last() == front(n, m - 1) + rest);
        } else if n > 0 {
            lemma_front_says_nothing(n - 1, m, rest);
            assert(words.drop_last() == front(n - 1, m) + rest) by {
                assert forall|k: int| 0 <= k < n - 1 implies words.drop_last()[k] == front(n - 1, m)[k] by {}
            }
        }
    }
}

/// Whether universal macOS binaries are said depends on what follows the name and the version.
proof fn lemma_front_is_not_universal(n: int, m: int, rest: Seq<Word>)
    requires
        0 <= n,
        0 <= m,
    ensures
        name::is_universal(front(n, m) + rest) == name::is_universal(rest),
{
    let words = front(n, m) + rest;
    if name::is_universal(rest) {
        let i = choose|i: int| 0 <= i < rest.len() && (#[trigger] rest[i]).kind is Universal;
        assert(words[n + m + i].kind is Universal);
    }
    if name::is_universal(words) {
        let i = choose|i: int| 0 <= i < words.len() && (#[trigger] words[i]).kind is Universal;
        assert(i >= n + m);
        assert(rest[i - n - m].kind is Universal);
    }
}

/// The name ends where something else is said first, and nothing plain follows it.
proof fn lemma_end(n: int, m: int, rest: Seq<Word>)
    requires
        0 <= n,
        0 <= m,
        forall|k: int| 0 <= k < rest.len() ==> !((#[trigger] rest[k]).kind is Plain),
        rest.len() > 0 ==> rest[0].at == n + m,
    ensures
        name::stray(front(n, m) + rest) is None,
        name::name_end(front(n, m) + rest) == if m + rest.len() > 0 {
            Some(n)
        } else {
            None
        },
    decreases n + m + rest.len(),
{
    let words = front(n, m) + rest;
    if rest.len() > 0 {
        let shorter = rest.drop_last();
        assert forall|k: int| 0 <= k < shorter.len() implies !((#[trigger] shorter[k]).kind is Plain) by {
            assert(shorter[k] == rest[k]);
        }
        lemma_end(n, m, shorter);
        assert(words.drop_last() == front(n, m) + shorter);
        assert(words.last() == rest[rest.len() - 1]);
    } else {
        assert(words == front(n, m));
        if m > 0 {
            lemma_end(n, m - 1, rest);
            assert(words.drop_last() == front(n, m - 1) + rest);
        } else if n > 0 {
            lemma_end(n - 1, m, rest);
            assert(words.drop_last() == front(n - 1, m) + rest) by {
                assert forall|k: int| 0 <= k < n - 1 implies words.drop_last()[k] == front(n - 1, m)[k] by {}
            }
        }
    }
}

/// Whether `file` is `stem`, possibly with the extension of a program or of a format.
pub open spec fn is_file_of(
    file: Seq<char>,
    stem: Seq<char>,
    format: Option<ArchiveFormat>,
) -> bool {
    match format {
        None => file == stem || file == stem + ".exe"@,
        Some(format) => {
            ||| file == stem + ("."@ + target::format_name(format))
            ||| format is TarGz && file == stem + ".tgz"@
            ||| format is TarXz && file == stem + ".txz"@
            ||| format is TarZst && file == stem + ".tzst"@
        },
    }
}

/// Whether a text can't be the end of an extension.
spec fn ends_no_extension(s: Seq<char>) -> bool {
    &&& s.len() > 0
    &&& s.last() != 't' && s.last() != 'z' && s.last() != '2' && s.last() != 'r' && s.last() != 'p'
        && s.last() != 'e'
}

/// A text whose last character is not that of another does not end with it.
proof fn lemma_other_end(s: Seq<char>, end: Seq<char>)
    requires
        s.len() > 0,
        end.len() > 0,
        s.last() != end.last(),
    ensures
        !end.is_suffix_of(s),
{
    if end.is_suffix_of(s) {
        assert(end[end.len() - 1] == s.subrange(s.len() - end.len(), s.len() as int)[end.len() - 1]);
    }
}

proof fn lemma_no_extension(s: Seq<char>)
    requires
        s.len() > 0,
        s.last() != 't' && s.last() != 'z' && s.last() != '2' && s.last() != 'r' && s.last() != 'p',
    ensures
        name::format_of(s) is None,
        name::unpacked(s) == s,
        !".tar"@.is_suffix_of(s),
        s.last() != 'e' ==> !".exe"@.is_suffix_of(s),
{
    reveal_strlit(".tar");
    reveal_strlit(".tar.gz");
    reveal_strlit(".tgz");
    reveal_strlit(".gz");
    reveal_strlit(".tar.xz");
    reveal_strlit(".txz");
    reveal_strlit(".xz");
    reveal_strlit(".tar.zst");
    reveal_strlit(".tzst");
    reveal_strlit(".zst");
    reveal_strlit(".tar.bz2");
    reveal_strlit(".bz2");
    reveal_strlit(".zip");
    reveal_strlit(".exe");
    lemma_other_end(s, ".tar"@);
    lemma_other_end(s, ".tar.gz"@);
    lemma_other_end(s, ".tgz"@);
    lemma_other_end(s, ".gz"@);
    lemma_other_end(s, ".tar.xz"@);
    lemma_other_end(s, ".txz"@);
    lemma_other_end(s, ".xz"@);
    lemma_other_end(s, ".tar.zst"@);
    lemma_other_end(s, ".tzst"@);
    lemma_other_end(s, ".zst"@);
    lemma_other_end(s, ".tar.bz2"@);
    lemma_other_end(s, ".bz2"@);
    lemma_other_end(s, ".zip"@);
    if s.last() != 'e' {
        lemma_other_end(s, ".exe"@);
    }
    target_laws::other_files_have_no_format(s);
}

/// What is left of a file name without its extensions.
proof fn lemma_stem(file: Seq<char>, stem: Seq<char>, format: Option<ArchiveFormat>)
    requires
        is_file_of(file, stem, format),
        ends_no_extension(stem),
    ensures
        name::stem_of(file) == stem,
        name::format_of(file) == format,
{
    lemma_no_extension(stem);
    match format {
        None => {
            if file != stem {
                reveal_strlit(".exe");
                assert(file.last() == 'e');
                lemma_no_extension(file);
                assert(file.subrange(file.len() - 4, file.len() as int) == ".exe"@);
                assert(file.take(file.len() - 4) == stem);
            }
        },
        Some(format) => {
            target_laws::extension_says_the_format(stem);
            target_laws::extension_is_taken_off(stem);
            lemma_dotted(format);
        },
    }
}

/// The extensions which are the names of formats.
proof fn lemma_dotted(format: ArchiveFormat)
    ensures
        "."@ + target::format_name(format) == match format {
            ArchiveFormat::Tar => ".tar"@,
            ArchiveFormat::TarGz => ".tar.gz"@,
            ArchiveFormat::TarXz => ".tar.xz"@,
            ArchiveFormat::TarZst => ".tar.zst"@,
            ArchiveFormat::TarBz2 => ".tar.bz2"@,
            ArchiveFormat::Zip => ".zip"@,
            ArchiveFormat::Gz => ".gz"@,
            ArchiveFormat::Xz => ".xz"@,
            ArchiveFormat::Zst => ".zst"@,
            ArchiveFormat::Bz2 => ".bz2"@,
        },
{
    reveal_strlit(".");
    reveal_strlit(".tar");
    reveal_strlit(".tar.gz");
    reveal_strlit(".gz");
    reveal_strlit(".tar.xz");
    reveal_strlit(".xz");
    reveal_strlit(".tar.zst");
    reveal_strlit(".zst");
    reveal_strlit(".tar.bz2");
    reveal_strlit(".bz2");
    reveal_strlit(".zip");
    reveal_strlit("tar");
    reveal_strlit("tar.gz");
    reveal_strlit("gz");
    reveal_strlit("tar.xz");
    reveal_strlit("xz");
    reveal_strlit("tar.zst");
    reveal_strlit("zst");
    reveal_strlit("tar.bz2");
    reveal_strlit("bz2");
    reveal_strlit("zip");
}

/// The parts of a text between underscores, hyphens and dots.
pub open spec fn split(s: Seq<char>) -> Seq<Seq<char>> {
    text::pieces(s, seq!['_', '-', '.'])
}

/// A name, and possibly a version after a separator.
pub open spec fn with_version(
    name: Seq<char>,
    version: Option<Seq<char>>,
    sep: char,
) -> Seq<char> {
    match version {
        Some(version) => name + seq![sep] + version,
        None => name,
    }
}

/// Whether a name says nothing, and does not end with a separator.
pub open spec fn is_plain_name(name: Seq<char>) -> bool {
    &&& forall|k: int|
        0 <= k < split(name).len() ==> is_ordinary(
            #[trigger] split(name)[k],
        )
    &&& name.len() > 0 ==> name.last() != '_' && name.last() != '-'
}

/// Whether a version, if there is one, only has parts of versions.
pub open spec fn is_plain_version(version: Option<Seq<char>>) -> bool {
    version matches Some(version) ==> forall|k: int|
        0 <= k < split(version).len() ==> is_of_version(
            #[trigger] split(version)[k],
        )
}

/// The segments of a version, if there is one.
spec fn version_pieces(version: Option<Seq<char>>) -> Seq<Seq<char>> {
    match version {
        Some(version) => split(version),
        None => seq![],
    }
}

/// A file name which is a name, possibly a version, and `tail`: its segments, and the name that is
/// read from it.
proof fn lemma_file(
    file: Seq<char>,
    name: Seq<char>,
    version: Option<Seq<char>>,
    sep: char,
    tail: Seq<char>,
    format: Option<ArchiveFormat>,
)
    requires
        sep == '_' || sep == '-',
        name.len() > 0 ==> name.last() != '_' && name.last() != '-',
        ends_no_extension(tail),
        is_file_of(file, with_version(name, version, sep) + seq![sep] + tail, format),
    ensures
        name::format_of(file) == format,
        segments_of(file) == split(name) + version_pieces(version)
            + split(tail),
        name::name_before(file, split(name).len() as int) == name,
{
    let seps = seq!['_', '-', '.'];
    assert(seps[0] == '_' && seps[1] == '-');
    assert(seps.contains(sep));
    let base = with_version(name, version, sep);
    let stem = base + seq![sep] + tail;
    assert(stem.last() == tail.last());
    lemma_stem(file, stem, format);
    lemma_concat(base, sep, tail, seps);
    let parts = text::pieces(name, seps);
    let others = version_pieces(version) + text::pieces(tail, seps);
    match version {
        Some(version) => {
            lemma_concat(name, sep, version, seps);
        },
        None => {
            assert(parts + Seq::<Seq<char>>::empty() == parts);
        },
    }
    assert(segments_of(file) == parts + others);
    lemma_start(name, seps, others);
    let raw = stem.take(name.len() as int + 1);
    assert(raw == name + seq![sep]);
    let ends = seq!['_', '-'];
    assert(ends[0] == '_' && ends[1] == '-');
    assert(ends.contains(sep));
    assert(raw.drop_last() == name);
    assert(raw.last() == sep);
    reveal_with_fuel(text::trimmed_end, 2);
}

/// What is read from such a file name, given the words of its tail.
proof fn lemma_read(
    file: Seq<char>,
    name: Seq<char>,
    version: Option<Seq<char>>,
    sep: char,
    tail: Seq<char>,
    format: Option<ArchiveFormat>,
    said: Seq<Word>,
)
    requires
        sep == '_' || sep == '-',
        is_plain_name(name),
        is_plain_version(version),
        ends_no_extension(tail),
        is_file_of(file, with_version(name, version, sep) + seq![sep] + tail, format),
        said == name::words(
            segments_of(file),
            (split(name) + version_pieces(version)).len() as int,
        ),
        said.len() > 0,
        said[0].at == split(name).len() + version_pieces(version).len(),
        forall|k: int| 0 <= k < said.len() ==> !((#[trigger] said[k]).kind is Plain),
    ensures
        name::read_name(file) == if !name::is_universal(said) && name::last_arch(said) is None {
            Err::<NameView, NameErrorView>(NameErrorView::Missing { part: "architecture"@ })
        } else if !name::is_universal(said) && name::last_os(said) is None {
            Err::<NameView, NameErrorView>(NameErrorView::Missing { part: "os"@ })
        } else {
            Ok::<NameView, NameErrorView>(
                NameView {
                    name,
                    libc: name::last_libc(said),
                    format,
                    platform: if name::is_universal(said) {
                        Platform::MacosUniversal
                    } else {
                        Platform::Known {
                            arch: name::last_arch(said)->0,
                            os: name::last_os(said)->0,
                        }
                    },
                },
            )
        },
{
    let seps = seq!['_', '-', '.'];
    lemma_file(file, name, version, sep, tail, format);
    let segments = segments_of(file);
    let parts = text::pieces(name, seps);
    let more = version_pieces(version);
    let n = parts.len() as int;
    let m = more.len() as int;
    assert forall|k: int| 0 <= k < n implies is_ordinary(#[trigger] segments[k]) by {
        assert(segments[k] == parts[k]);
    }
    assert forall|k: int| n <= k < n + m implies is_of_version(#[trigger] segments[k]) by {
        assert(segments[k] == more[k - n]);
    }
    lemma_front(segments, n, m, 0);
    assert(front(n, m).skip(0) == front(n, m));
    lemma_front_says_nothing(n, m, said);
    lemma_front_is_not_universal(n, m, said);
    lemma_end(n, m, said);
}

/// Whether some segments say an architecture.
pub open spec fn says_arch(parts: Seq<Seq<char>>, arch: Architecture) -> bool {
    ||| parts.len() == 1 && match arch {
        Architecture::Aarch64 => is_word(parts[0], "aarch64"@) || is_word(parts[0], "arm64"@),
        Architecture::X64 => is_word(parts[0], "amd64"@) || is_word(parts[0], "x64"@),
    }
    ||| parts.len() == 2 && parts[1] == "64"@ && match arch {
        Architecture::Aarch64 => is_word(parts[0], "aarch"@),
        Architecture::X64 => is_word(parts[0], "x86"@),
    }
}

/// Whether some segments say an operating system.
pub open spec fn says_os(parts: Seq<Seq<char>>, os: Os) -> bool {
    ||| parts.len() == 1 && match os {
        Os::Linux => is_word(parts[0], "linux"@) || is_word(parts[0], "ubuntu"@),
        Os::Macos => is_word(parts[0], "darwin"@) || is_word(parts[0], "macos"@) || is_word(
            parts[0],
            "osx"@,
        ),
        Os::Windows => is_word(parts[0], "windows"@),
    }
    ||| parts.len() == 2 && match os {
        Os::Linux => is_word(parts[0], "unknown"@) && parts[1] == "linux"@,
        Os::Macos => is_word(parts[0], "apple"@) && parts[1] == "darwin"@,
        Os::Windows => is_word(parts[0], "pc"@) && parts[1] == "windows"@,
    }
}

/// Whether some segments, of which there may be none, say a C library or none.
pub open spec fn says_libc(parts: Seq<Seq<char>>, libc: Option<Libc>) -> bool {
    match libc {
        Some(Libc::Gnu) => parts.len() == 1 && is_word(parts[0], "gnu"@),
        Some(Libc::Musl) => parts.len() == 1 && is_word(parts[0], "musl"@),
        None => parts.len() == 0 || (parts.len() == 1 && is_word(parts[0], "msvc"@)),
    }
}

/// Whether `parts` are the segments from `k` on.
spec fn are_at(segments: Seq<Seq<char>>, k: int, parts: Seq<Seq<char>>) -> bool {
    &&& 0 <= k
    &&& k + parts.len() <= segments.len()
    &&& forall|j: int| 0 <= j < parts.len() ==> segments[k + j] == #[trigger] parts[j]
}

proof fn lemma_arch_at(
    segments: Seq<Seq<char>>,
    k: int,
    parts: Seq<Seq<char>>,
    arch: Architecture,
)
    requires
        says_arch(parts, arch),
        are_at(segments, k, parts),
    ensures
        name::words(segments, k) == seq![Word { kind: Kind::Arch(arch), at: k }] + name::words(
            segments,
            k + parts.len(),
        ),
{
    assert(segments[k] == parts[0]);
    if parts.len() == 2 {
        assert(segments[k + 1] == parts[1]);
    }
    architectures_are_said(segments, k);
}

proof fn lemma_os_at(segments: Seq<Seq<char>>, k: int, parts: Seq<Seq<char>>, os: Os)
    requires
        says_os(parts, os),
        are_at(segments, k, parts),
        k + parts.len() < segments.len() ==> segments[k + parts.len()] != "universal"@,
    ensures
        name::words(segments, k) == seq![Word { kind: Kind::System(os), at: k }] + name::words(
            segments,
            k + parts.len(),
        ),
{
    assert(segments[k] == parts[0]);
    systems_are_said(segments, k);
    if parts.len() == 2 {
        assert(segments[k + 1] == parts[1]);
        if is_word(parts[0], "apple"@) {
            lemma_known_words();
            assert(text::lower(parts[0])[1] == 'p');
            assert("aarch64"@[1] == 'a' && "arm64"@[1] == 'r' && "aarch"@[1] == 'a' && "amd64"@[1]
                == 'm' && "x64"@[0] == 'x' && "x86"@[0] == 'x');
        }
    }
}

proof fn lemma_libc_at(
    segments: Seq<Seq<char>>,
    k: int,
    parts: Seq<Seq<char>>,
    libc: Option<Libc>,
)
    requires
        says_libc(parts, libc),
        are_at(segments, k, parts),
        parts.len() == 1,
    ensures
        name::words(segments, k) == seq![
            Word {
                kind: match libc {
                    Some(libc) => Kind::Library(libc),
                    None => Kind::Noise,
                },
                at: k,
            },
        ] + name::words(segments, k + 1),
{
    assert(segments[k] == parts[0]);
    libraries_are_said(segments, k);
}

/// No known word is `universal`.
proof fn lemma_no_universal(segment: Seq<char>)
    requires
        is_known_word(segment),
    ensures
        segment != "universal"@,
{
    lemma_not_known(segment);
}

/// Words do not end like extensions.
proof fn lemma_word_end(segment: Seq<char>)
    requires
        (is_known_word(segment) && !is_word(segment, "apple"@)) || segment == "64"@ || segment
            == "universal"@ || segment == "binary"@,
    ensures
        ends_no_extension(segment),
{
    lemma_known_words();
    reveal_strlit("64");
    reveal_strlit("universal");
    reveal_strlit("binary");
    let word = text::lower(segment);
    assert(word.len() == segment.len());
    if is_known_word(segment) && !is_word(segment, "apple"@) {
        assert(word.len() > 0);
        assert(word.last() == text::lower_char(segment.last()));
        assert(word.last() == '4' || word.last() == 'h' || word.last() == '6' || word.last() == 'n'
            || word.last() == 's' || word.last() == 'x' || word.last() == 'u' || word.last() == 'c'
            || word.last() == 'l');
    }
}

/// A text does not end like an extension if its last piece does not.
proof fn lemma_tail_end(tail: Seq<char>)
    requires
        ends_no_extension(split(tail).last()),
    ensures
        ends_no_extension(tail),
{
    lemma_last_piece(tail, seq!['_', '-', '.']);
    let last = split(tail).last();
    assert(last[last.len() - 1] == tail.subrange(tail.len() - last.len(), tail.len() as int)[
        last.len() - 1]);
}

/// A name, possibly a version, an architecture and an operating system in either order, and possibly
/// a C library are read from a file name of any format: these, and nothing else. The words may be in
/// any case, and any separators may stand between them.
#[verifier::spinoff_prover]
#[verifier::rlimit(40)]
pub proof fn file_names_are_read(
    file: Seq<char>,
    name: Seq<char>,
    version: Option<Seq<char>>,
    sep: char,
    tail: Seq<char>,
    arch_parts: Seq<Seq<char>>,
    os_parts: Seq<Seq<char>>,
    libc_parts: Seq<Seq<char>>,
    read: NameView,
    arch: Architecture,
    os: Os,
)
    requires
        is_plain_name(name),
        is_plain_version(version),
        sep == '_' || sep == '-',
        says_arch(arch_parts, arch),
        says_os(os_parts, os),
        says_libc(libc_parts, read.libc),
        split(tail) == arch_parts + os_parts + libc_parts || split(tail) == os_parts + arch_parts
            + libc_parts,
        is_file_of(file, with_version(name, version, sep) + seq![sep] + tail, read.format),
        read.name == name,
        read.platform == (Platform::Known { arch, os }),
    ensures
        name::read_name(file) == Ok::<NameView, NameErrorView>(read),
{
    let parts = split(tail);
    lemma_arch_ends(arch_parts, arch);
    lemma_os_ends(os_parts, os);
    if libc_parts.len() > 0 {
        assert(parts.last() == libc_parts[0]);
        assert(!is_word(libc_parts[0], "apple"@)) by {
            lemma_known_words();
            assert(text::lower(libc_parts[0]).len() <= 4);
        }
        lemma_word_end(libc_parts[0]);
    } else if parts == arch_parts + os_parts + libc_parts {
        assert(parts.last() == os_parts.last());
    } else {
        assert(parts.last() == arch_parts.last());
    }
    lemma_tail_end(tail);
    lemma_file(file, name, version, sep, tail, read.format);
    let segments = segments_of(file);
    let front = split(name) + version_pieces(version);
    let k = front.len() as int;
    assert(segments == front + parts);
    let (a, o, l) = (
        arch_parts.len() as int,
        os_parts.len() as int,
        libc_parts.len() as int,
    );
    let libc_words = if l == 1 {
        seq![
            Word {
                kind: match read.libc {
                    Some(libc) => Kind::Library(libc),
                    None => Kind::Noise,
                },
                at: k + a + o,
            },
        ]
    } else {
        seq![]
    };
    assert(name::words(segments, k + a + o) == libc_words) by {
        if l == 1 {
            assert(are_at(segments, k + a + o, libc_parts));
            lemma_libc_at(segments, k + a + o, libc_parts, read.libc);
            assert(name::words(segments, k + a + o + 1) == Seq::<Word>::empty());
        }
    }
    if l == 1 {
        assert(segments[k + a + o] == libc_parts[0]);
        lemma_no_universal(libc_parts[0]);
    }
    let said = name::words(segments, k);
    if parts == arch_parts + os_parts + libc_parts {
        assert(are_at(segments, k, arch_parts));
        assert(are_at(segments, k + a, os_parts));
        lemma_arch_at(segments, k, arch_parts, arch);
        lemma_os_at(segments, k + a, os_parts, os);
        assert(said == seq![
            Word { kind: Kind::Arch(arch), at: k },
            Word { kind: Kind::System(os), at: k + a },
        ] + libc_words);
    } else {
        assert(are_at(segments, k, os_parts));
        assert(are_at(segments, k + o, arch_parts));
        assert(segments[k + o] == arch_parts[0]);
        lemma_no_universal(arch_parts[0]);
        lemma_os_at(segments, k, os_parts, os);
        lemma_arch_at(segments, k + o, arch_parts, arch);
        assert(said == seq![
            Word { kind: Kind::System(os), at: k },
            Word { kind: Kind::Arch(arch), at: k + o },
        ] + libc_words);
    }
    assert(said.skip(2) == libc_words);
    lemma_said(said, libc_words, arch, os, read.libc);
    lemma_read(file, name, version, sep, tail, read.format, said);
}

proof fn lemma_arch_ends(parts: Seq<Seq<char>>, arch: Architecture)
    requires
        says_arch(parts, arch),
    ensures
        parts.len() > 0,
        is_known_word(parts[0]),
        ends_no_extension(parts.last()),
{
    if parts.len() == 1 {
        lemma_known_words();
        assert(text::lower(parts[0])[1] != 'p');
        assert("apple"@[1] == 'p');
    }
    lemma_word_end(parts.last());
}

proof fn lemma_os_ends(parts: Seq<Seq<char>>, os: Os)
    requires
        says_os(parts, os),
    ensures
        parts.len() > 0,
        is_known_word(parts[0]),
        ends_no_extension(parts.last()),
{
    lemma_known_words();
    let word = text::lower(parts.last());
    if parts.len() == 2 {
        assert(word == parts[1]) by {
            assert(word.len() == parts[1].len());
            assert forall|j: int| 0 <= j < word.len() implies word[j] == parts[1][j] by {
                assert('a' <= parts[1][j]);
            }
        }
    }
    assert("apple"@[0] == 'a');
    assert(word[0] == 'l' || word[0] == 'u' || word[0] == 'd' || word[0] == 'm' || word[0] == 'o'
        || word[0] == 'w');
    lemma_word_end(parts.last());
}

/// What two words, and possibly another about the C library, say.
proof fn lemma_said(
    said: Seq<Word>,
    libc_words: Seq<Word>,
    arch: Architecture,
    os: Os,
    libc: Option<Libc>,
)
    requires
        said.len() == 2 + libc_words.len(),
        libc_words.len() <= 1,
        said.skip(2) == libc_words,
        (said[0].kind == Kind::Arch(arch) && said[1].kind == Kind::System(os)) || (said[0].kind
            == Kind::System(os) && said[1].kind == Kind::Arch(arch)),
        libc_words.len() == 0 ==> libc is None,
        libc_words.len() == 1 ==> libc_words[0].kind == match libc {
            Some(libc) => Kind::Library(libc),
            None => Kind::Noise,
        },
    ensures
        name::last_arch(said) == Some(arch),
        name::last_os(said) == Some(os),
        name::last_libc(said) == libc,
        !name::is_universal(said),
        forall|k: int| 0 <= k < said.len() ==> !((#[trigger] said[k]).kind is Plain),
{
    if libc_words.len() == 1 {
        assert(said[2] == said.skip(2)[0]);
    }
    reveal_with_fuel(name::last_arch, 4);
    reveal_with_fuel(name::last_os, 4);
    reveal_with_fuel(name::last_libc, 4);
    let two = said.take(2);
    if libc_words.len() == 1 {
        assert(said.drop_last() == two);
    } else {
        assert(said == two);
    }
    assert(two.drop_last() == seq![said[0]]);
    assert(two.last() == said[1]);
    assert(seq![said[0]].drop_last() == Seq::<Word>::empty());
}

/// A name, possibly a version, and universal macOS binaries are read from a file name of any format.
pub proof fn universal_file_names_are_read(
    file: Seq<char>,
    name: Seq<char>,
    version: Option<Seq<char>>,
    sep: char,
    tail: Seq<char>,
    format: Option<ArchiveFormat>,
)
    requires
        is_plain_name(name),
        is_plain_version(version),
        sep == '_' || sep == '-',
        split(tail).len() == 2 || (split(tail).len() == 3 && split(tail)[2] == "binary"@),
        is_word(split(tail)[0], "darwin"@) || is_word(split(tail)[0], "macos"@) || is_word(
            split(tail)[0],
            "osx"@,
        ),
        split(tail)[1] == "universal"@,
        is_file_of(file, with_version(name, version, sep) + seq![sep] + tail, format),
    ensures
        name::read_name(file) == Ok::<NameView, NameErrorView>(
            NameView { name, libc: None, format, platform: Platform::MacosUniversal },
        ),
{
    let parts = split(tail);
    lemma_word_end(parts.last());
    lemma_tail_end(tail);
    lemma_file(file, name, version, sep, tail, format);
    let segments = segments_of(file);
    let front = split(name) + version_pieces(version);
    let k = front.len() as int;
    assert(segments == front + parts);
    assert(segments[k] == parts[0]);
    assert(segments[k + 1] == parts[1]);
    if parts.len() == 3 {
        assert(segments[k + 2] == parts[2]);
    }
    systems_are_said(segments, k);
    lemma_known_words();
    let word = text::lower(segments[k]);
    assert(word[0] == 'd' || word[0] == 'm' || word[0] == 'o');
    assert("aarch64"@[0] == 'a' && "arm64"@[0] == 'a' && "aarch"@[0] == 'a' && "amd64"@[0] == 'a'
        && "x64"@[0] == 'x' && "x86"@[0] == 'x' && "apple"@[0] == 'a');
    let said = name::words(segments, k);
    assert(said == seq![Word { kind: Kind::Universal, at: k }]) by {
        assert(name::words(segments, k + parts.len()) == Seq::<Word>::empty());
    }
    assert(said[0].kind is Universal);
    assert(said.drop_last() == Seq::<Word>::empty());
    reveal_with_fuel(name::last_libc, 2);
    lemma_read(file, name, version, sep, tail, format, said);
}

/// A name, possibly a version, and `win64` are those of a program for 64-bit Windows.
pub proof fn win64_file_names_are_read(
    file: Seq<char>,
    name: Seq<char>,
    version: Option<Seq<char>>,
    sep: char,
    tail: Seq<char>,
    format: Option<ArchiveFormat>,
)
    requires
        is_plain_name(name),
        is_plain_version(version),
        sep == '_' || sep == '-',
        split(tail).len() == 1,
        is_word(split(tail)[0], "win64"@),
        is_file_of(file, with_version(name, version, sep) + seq![sep] + tail, format),
    ensures
        name::read_name(file) == Ok::<NameView, NameErrorView>(
            NameView {
                name,
                libc: None,
                format,
                platform: Platform::Known { arch: Architecture::X64, os: Os::Windows },
            },
        ),
{
    let parts = split(tail);
    lemma_known_words();
    assert(text::lower(parts[0])[0] == 'w' && "apple"@[0] == 'a');
    lemma_word_end(parts.last());
    lemma_tail_end(tail);
    lemma_file(file, name, version, sep, tail, format);
    let segments = segments_of(file);
    let front = split(name) + version_pieces(version);
    let k = front.len() as int;
    assert(segments == front + parts);
    assert(segments[k] == parts[0]);
    systems_are_said(segments, k);
    let said = name::words(segments, k);
    assert(said == seq![Word { kind: Kind::Win64, at: k }]) by {
        assert(name::words(segments, k + 1) == Seq::<Word>::empty());
    }
    assert(said.drop_last() == Seq::<Word>::empty());
    reveal_with_fuel(name::last_libc, 2);
    lemma_read(file, name, version, sep, tail, format, said);
}

/// A file name which says no operating system, or no architecture, is refused for that.
pub proof fn file_names_need_both(
    file: Seq<char>,
    name: Seq<char>,
    version: Option<Seq<char>>,
    sep: char,
    tail: Seq<char>,
    format: Option<ArchiveFormat>,
    arch: Architecture,
    os: Os,
)
    requires
        is_plain_name(name),
        is_plain_version(version),
        sep == '_' || sep == '-',
        is_file_of(file, with_version(name, version, sep) + seq![sep] + tail, format),
    ensures
        says_arch(split(tail), arch) ==> name::read_name(file) == Err::<NameView, NameErrorView>(
            NameErrorView::Missing { part: "os"@ },
        ),
        says_os(split(tail), os) ==> name::read_name(file) == Err::<NameView, NameErrorView>(
            NameErrorView::Missing { part: "architecture"@ },
        ),
{
    let parts = split(tail);
    let front = split(name) + version_pieces(version);
    let k = front.len() as int;
    reveal_with_fuel(name::last_arch, 2);
    reveal_with_fuel(name::last_os, 2);
    if says_arch(parts, arch) {
        lemma_arch_ends(parts, arch);
        lemma_tail_end(tail);
        lemma_file(file, name, version, sep, tail, format);
        let segments = segments_of(file);
        assert(segments == front + parts);
        assert(are_at(segments, k, parts));
        lemma_arch_at(segments, k, parts, arch);
        let said = name::words(segments, k);
        assert(said == seq![Word { kind: Kind::Arch(arch), at: k }]) by {
            assert(name::words(segments, k + parts.len()) == Seq::<Word>::empty());
        }
        assert(said.drop_last() == Seq::<Word>::empty());
        lemma_read(file, name, version, sep, tail, format, said);
    }
    if says_os(parts, os) {
        lemma_os_ends(parts, os);
        lemma_tail_end(tail);
        lemma_file(file, name, version, sep, tail, format);
        let segments = segments_of(file);
        assert(segments == front + parts);
        assert(are_at(segments, k, parts));
        lemma_os_at(segments, k, parts, os);
        let said = name::words(segments, k);
        assert(said == seq![Word { kind: Kind::System(os), at: k }]) by {
            assert(name::words(segments, k + parts.len()) == Seq::<Word>::empty());
        }
        assert(said.drop_last() == Seq::<Word>::empty());
        lemma_read(file, name, version, sep, tail, format, said);
    }
}

/// How many segments a word has, and what the others are.
proof fn lemma_count(segments: Seq<Seq<char>>, i: int)
    requires
        0 <= i < segments.len(),
    ensures
        1 <= name::read_at(segments, i).1 <= segments.len() - i,
        name::read_at(segments, i).1 > 1 ==> !(name::read_at(segments, i).0 is Plain),
        forall|j: int|
            i < j < i + name::read_at(segments, i).1 ==> (#[trigger] segments[j]) == "64"@
                || segments[j] == "universal"@ || segments[j] == "binary"@ || is_known_word(
                segments[j],
            ),
{
    assert forall|j: int| i < j < i + name::read_at(segments, i).1 implies (#[trigger] segments[j])
        == "64"@ || segments[j] == "universal"@ || segments[j] == "binary"@ || is_known_word(
        segments[j],
    ) by {
        lemma_plain_known(segments[j]);
    }
}

proof fn lemma_plain_known(segment: Seq<char>)
    ensures
        segment == "darwin"@ || segment == "windows"@ || segment == "linux"@ ==> is_known_word(
            segment,
        ),
{
    if segment == "darwin"@ || segment == "windows"@ || segment == "linux"@ {
        lemma_known_words();
        let word = text::lower(segment);
        assert(word == segment) by {
            assert forall|j: int| 0 <= j < word.len() implies word[j] == segment[j] by {
                assert('a' <= segment[j]);
            }
        }
    }
}

/// A segment that says nothing is a word of its own.
proof fn lemma_own_word(segments: Seq<Seq<char>>, from: int, j: int)
    requires
        0 <= from <= j < segments.len(),
        is_ordinary(segments[j]),
        segments[j] != "universal"@,
        segments[j] != "binary"@,
    ensures
        exists|q: int|
            #![trigger name::words(segments, from)[q]]
            0 <= q < name::words(segments, from).len() && name::words(segments, from)[q].at == j
                && name::words(segments, from)[q].kind is Plain,
    decreases segments.len() - from,
{
    let (kind, count) = name::read_at(segments, from);
    let all = name::words(segments, from);
    lemma_count(segments, from);
    if from == j {
        other_segments_say_nothing(segments, j);
        assert(all[0].at == j);
    } else {
        assert(segments[j] != "64"@) by {
            reveal_strlit("64");
            if segments[j] == "64"@ {
                assert(is_of_version(segments[j]));
            }
        }
        if j < from + count {
            assert(segments[j] == "64"@ || is_known_word(segments[j]));
        }
        lemma_own_word(segments, from + count, j);
        let rest = name::words(segments, from + count);
        let q = choose|q: int|
            #![trigger rest[q]]
            0 <= q < rest.len() && rest[q].at == j && rest[q].kind is Plain;
        assert(all[q + 1] == rest[q]);
    }
}

/// Whether a segment says something, whatever stands around it.
pub open spec fn says_something(segment: Seq<char>) -> bool {
    ||| is_of_version(segment)
    ||| is_known_word(segment) && !is_word(segment, "aarch"@) && !is_word(segment, "x86"@)
        && !is_word(segment, "pc"@) && !is_word(segment, "unknown"@)
}

/// A segment that says something is in a word that does.
proof fn lemma_some_word(segments: Seq<Seq<char>>, from: int, i: int)
    requires
        0 <= from <= i < segments.len(),
        says_something(segments[i]),
    ensures
        exists|p: int|
            #![trigger name::words(segments, from)[p]]
            0 <= p < name::words(segments, from).len() && name::words(segments, from)[p].at <= i
                && !(name::words(segments, from)[p].kind is Plain),
    decreases segments.len() - from,
{
    let (kind, count) = name::read_at(segments, from);
    let all = name::words(segments, from);
    lemma_count(segments, from);
    if from == i {
        if is_of_version(segments[i]) {
            versions_are_skipped(segments, i);
        } else {
            architectures_are_said(segments, i);
            systems_are_said(segments, i);
            libraries_are_said(segments, i);
        }
        assert(all[0].at <= i && !(all[0].kind is Plain));
    } else if i < from + count {
        assert(all[0].at <= i && !(all[0].kind is Plain));
    } else {
        lemma_some_word(segments, from + count, i);
        let rest = name::words(segments, from + count);
        let p = choose|p: int|
            #![trigger rest[p]]
            0 <= p < rest.len() && rest[p].at <= i && !(rest[p].kind is Plain);
        assert(all[p + 1] == rest[p]);
    }
}

/// Words are in the order of their segments.
proof fn lemma_in_order(segments: Seq<Seq<char>>, from: int)
    requires
        0 <= from,
    ensures
        forall|p: int|
            #![trigger name::words(segments, from)[p]]
            0 <= p < name::words(segments, from).len() ==> name::words(segments, from)[p].at
                >= from,
        forall|p: int, q: int|
            #![trigger name::words(segments, from)[p], name::words(segments, from)[q]]
            0 <= p < q < name::words(segments, from).len() ==> name::words(segments, from)[p].at
                < name::words(segments, from)[q].at,
    decreases segments.len() - from,
{
    if from < segments.len() {
        let (kind, count) = name::read_at(segments, from);
        lemma_count(segments, from);
        lemma_in_order(segments, from + count);
        let all = name::words(segments, from);
        let rest = name::words(segments, from + count);
        assert forall|p: int| 1 <= p < all.len() implies #[trigger] all[p] == rest[p - 1] by {}
    }
}

/// Something plain after something else is stray.
proof fn lemma_stray(words: Seq<Word>, p: int, q: int)
    requires
        0 <= p < q < words.len(),
        !(words[p].kind is Plain),
        words[q].kind is Plain,
    ensures
        name::stray(words) is Some,
    decreases words.len(),
{
    let shorter = words.drop_last();
    if q < words.len() - 1 {
        assert(shorter[p] == words[p] && shorter[q] == words[q]);
        lemma_stray(shorter, p, q);
    } else {
        assert(shorter[p] == words[p]);
        lemma_ended(shorter, p);
    }
}

proof fn lemma_ended(words: Seq<Word>, p: int)
    requires
        0 <= p < words.len(),
        !(words[p].kind is Plain),
    ensures
        name::name_end(words) is Some,
    decreases words.len(),
{
    if p < words.len() - 1 {
        assert(words.drop_last()[p] == words[p]);
        lemma_ended(words.drop_last(), p);
    }
}

/// A file name in which something that says nothing follows something that does is refused.
pub proof fn strays_are_refused(file: Seq<char>, i: int, j: int)
    requires
        0 <= i < j < segments_of(file).len(),
        says_something(segments_of(file)[i]),
        is_ordinary(segments_of(file)[j]),
        segments_of(file)[j] != "universal"@,
        segments_of(file)[j] != "binary"@,
    ensures
        name::read_name(file) matches Err(NameErrorView::Unknown { .. }),
{
    let segments = segments_of(file);
    let all = name::words(segments, 0);
    lemma_some_word(segments, 0, i);
    lemma_own_word(segments, 0, j);
    lemma_in_order(segments, 0);
    let p = choose|p: int|
        #![trigger all[p]]
        0 <= p < all.len() && all[p].at <= i && !(all[p].kind is Plain);
    let q = choose|q: int|
        #![trigger all[q]]
        0 <= q < all.len() && all[q].at == j && all[q].kind is Plain;
    if q <= p {
        assert(all[q].at <= all[p].at);
    }
    lemma_stray(all, p, q);
}

// ---------------------------------------------------------------------------------------------
// Several words

/// A segment that is never read together with the one before it is a word of its own.
proof fn lemma_starts(segments: Seq<Seq<char>>, from: int, i: int)
    requires
        0 <= from <= i < segments.len(),
        segments[i] != "64"@ && segments[i] != "universal"@ && segments[i] != "binary"@,
        i > 0 ==> !is_word(segments[i - 1], "apple"@) && !is_word(segments[i - 1], "pc"@) && !is_word(
            segments[i - 1],
            "unknown"@,
        ),
    ensures
        exists|p: int|
            #![trigger name::words(segments, from)[p]]
            0 <= p < name::words(segments, from).len() && name::words(segments, from)[p] == (Word {
                kind: name::read_at(segments, i).0,
                at: i,
            }),
    decreases segments.len() - from,
{
    let (kind, count) = name::read_at(segments, from);
    let all = name::words(segments, from);
    lemma_count(segments, from);
    if from == i {
        assert(all[0].at == i);
    } else {
        assert(from + count <= i);
        lemma_starts(segments, from + count, i);
        let rest = name::words(segments, from + count);
        let p = choose|p: int|
            #![trigger rest[p]]
            0 <= p < rest.len() && rest[p] == (Word { kind: name::read_at(segments, i).0, at: i });
        assert(all[p + 1] == rest[p]);
    }
}

/// Words say what is read where they start.
proof fn lemma_kinds(segments: Seq<Seq<char>>, from: int)
    requires
        0 <= from,
    ensures
        forall|p: int|
            #![trigger name::words(segments, from)[p]]
            0 <= p < name::words(segments, from).len() ==> {
                let word = name::words(segments, from)[p];
                &&& from <= word.at < segments.len()
                &&& word.kind == name::read_at(segments, word.at).0
            },
    decreases segments.len() - from,
{
    if from < segments.len() {
        let (kind, count) = name::read_at(segments, from);
        lemma_count(segments, from);
        lemma_kinds(segments, from + count);
        let all = name::words(segments, from);
        let rest = name::words(segments, from + count);
        assert forall|p: int| 1 <= p < all.len() implies #[trigger] all[p] == rest[p - 1] by {}
    }
}

proof fn lemma_last_arch(words: Seq<Word>, p: int, arch: Architecture)
    requires
        0 <= p < words.len(),
        words[p].kind == Kind::Arch(arch),
        forall|q: int|
            p < q < words.len() ==> !((#[trigger] words[q]).kind is Arch) && !(words[q].kind is Win64),
    ensures
        name::last_arch(words) == Some(arch),
    decreases words.len(),
{
    if p < words.len() - 1 {
        let shorter = words.drop_last();
        assert(!(words[words.len() - 1].kind is Arch) && !(words[words.len() - 1].kind is Win64));
        assert forall|q: int| p < q < shorter.len() implies !((#[trigger] shorter[q]).kind is Arch)
            && !(shorter[q].kind is Win64) by {
            assert(shorter[q] == words[q]);
        }
        lemma_last_arch(shorter, p, arch);
    }
}

proof fn lemma_last_os(words: Seq<Word>, p: int, os: Os)
    requires
        0 <= p < words.len(),
        words[p].kind == Kind::System(os),
        forall|q: int|
            p < q < words.len() ==> !((#[trigger] words[q]).kind is System) && !(words[q].kind is Win64),
    ensures
        name::last_os(words) == Some(os),
    decreases words.len(),
{
    if p < words.len() - 1 {
        let shorter = words.drop_last();
        assert(!(words[words.len() - 1].kind is System) && !(words[words.len() - 1].kind is Win64));
        assert forall|q: int| p < q < shorter.len() implies !((#[trigger] shorter[q]).kind is System)
            && !(shorter[q].kind is Win64) by {
            assert(shorter[q] == words[q]);
        }
        lemma_last_os(shorter, p, os);
    }
}

proof fn lemma_last_libc(words: Seq<Word>, p: int, libc: Libc)
    requires
        0 <= p < words.len(),
        words[p].kind == Kind::Library(libc),
        forall|q: int| p < q < words.len() ==> !((#[trigger] words[q]).kind is Library),
    ensures
        name::last_libc(words) == Some(libc),
    decreases words.len(),
{
    if p < words.len() - 1 {
        let shorter = words.drop_last();
        assert(!(words[words.len() - 1].kind is Library));
        assert forall|q: int| p < q < shorter.len() implies !((#[trigger] shorter[q]).kind is Library) by {
            assert(shorter[q] == words[q]);
        }
        lemma_last_libc(shorter, p, libc);
    }
}

/// Whether a segment may say an architecture, possibly together with others.
pub open spec fn may_say_arch(segment: Seq<char>) -> bool {
    is_word(segment, "aarch64"@) || is_word(segment, "arm64"@) || is_word(segment, "aarch"@)
        || is_word(segment, "amd64"@) || is_word(segment, "x64"@) || is_word(segment, "x86"@)
        || is_word(segment, "win64"@)
}

/// Whether a segment may say an operating system, possibly together with others.
pub open spec fn may_say_os(segment: Seq<char>) -> bool {
    is_word(segment, "linux"@) || is_word(segment, "ubuntu"@) || is_word(segment, "unknown"@)
        || is_word(segment, "darwin"@) || is_word(segment, "macos"@) || is_word(segment, "osx"@)
        || is_word(segment, "apple"@) || is_word(segment, "windows"@) || is_word(segment, "pc"@)
        || is_word(segment, "win64"@)
}

/// If several segments of a file name say an architecture, the last one counts.
pub proof fn last_architecture_counts(file: Seq<char>, i: int, arch: Architecture)
    requires
        name::read_name(file) is Ok,
        0 <= i < segments_of(file).len(),
        says_arch(seq![segments_of(file)[i]], arch),
        i > 0 ==> !is_word(segments_of(file)[i - 1], "apple"@) && !is_word(
            segments_of(file)[i - 1],
            "pc"@,
        ) && !is_word(segments_of(file)[i - 1], "unknown"@),
        forall|j: int| i < j < segments_of(file).len() ==> !may_say_arch(
            #[trigger] segments_of(file)[j],
        ),
    ensures
        name::read_name(file)->Ok_0.platform matches Platform::Known { arch: read, .. } ==> read
            == arch,
{
    let segments = segments_of(file);
    let all = name::words(segments, 0);
    architectures_are_said(segments, i);
    assert(is_known_word(segments[i]));
    lemma_not_known(segments[i]);
    lemma_starts(segments, 0, i);
    lemma_kinds(segments, 0);
    lemma_in_order(segments, 0);
    let p = choose|p: int|
        #![trigger all[p]]
        0 <= p < all.len() && all[p] == (Word { kind: name::read_at(segments, i).0, at: i });
    assert forall|q: int| p < q < all.len() implies !((#[trigger] all[q]).kind is Arch) && !(
    all[q].kind is Win64) by {
        assert(all[p].at < all[q].at);
        assert(!may_say_arch(segments[all[q].at]));
    }
    lemma_last_arch(all, p, arch);
}

/// If several segments of a file name say an operating system, the last one counts.
pub proof fn last_system_counts(file: Seq<char>, i: int, os: Os)
    requires
        name::read_name(file) is Ok,
        0 <= i < segments_of(file).len(),
        says_os(seq![segments_of(file)[i]], os),
        i > 0 ==> !is_word(segments_of(file)[i - 1], "apple"@) && !is_word(
            segments_of(file)[i - 1],
            "pc"@,
        ) && !is_word(segments_of(file)[i - 1], "unknown"@),
        i + 1 < segments_of(file).len() ==> segments_of(file)[i + 1] != "universal"@,
        forall|j: int| i < j < segments_of(file).len() ==> !may_say_os(
            #[trigger] segments_of(file)[j],
        ),
    ensures
        name::read_name(file)->Ok_0.platform matches Platform::Known { os: read, .. } ==> read == os,
{
    let segments = segments_of(file);
    let all = name::words(segments, 0);
    systems_are_said(segments, i);
    assert(is_known_word(segments[i]));
    lemma_not_known(segments[i]);
    lemma_starts(segments, 0, i);
    lemma_kinds(segments, 0);
    lemma_in_order(segments, 0);
    let p = choose|p: int|
        #![trigger all[p]]
        0 <= p < all.len() && all[p] == (Word { kind: name::read_at(segments, i).0, at: i });
    assert forall|q: int| p < q < all.len() implies !((#[trigger] all[q]).kind is System) && !(
    all[q].kind is Win64) by {
        assert(all[p].at < all[q].at);
        assert(!may_say_os(segments[all[q].at]));
    }
    lemma_last_os(all, p, os);
}

/// If several segments of a file name say a C library, the last one counts.
pub proof fn last_library_counts(file: Seq<char>, i: int, libc: Libc)
    requires
        name::read_name(file) is Ok,
        0 <= i < segments_of(file).len(),
        says_libc(seq![segments_of(file)[i]], Some(libc)),
        i > 0 ==> !is_word(segments_of(file)[i - 1], "apple"@) && !is_word(
            segments_of(file)[i - 1],
            "pc"@,
        ) && !is_word(segments_of(file)[i - 1], "unknown"@),
        forall|j: int| i < j < segments_of(file).len() ==> !is_word(
            #[trigger] segments_of(file)[j],
            "gnu"@,
        ) && !is_word(segments_of(file)[j], "musl"@),
    ensures
        name::read_name(file)->Ok_0.libc == Some(libc),
{
    let segments = segments_of(file);
    let all = name::words(segments, 0);
    libraries_are_said(segments, i);
    assert(is_known_word(segments[i]));
    lemma_not_known(segments[i]);
    lemma_starts(segments, 0, i);
    lemma_kinds(segments, 0);
    lemma_in_order(segments, 0);
    let p = choose|p: int|
        #![trigger all[p]]
        0 <= p < all.len() && all[p] == (Word { kind: name::read_at(segments, i).0, at: i });
    assert forall|q: int| p < q < all.len() implies !((#[trigger] all[q]).kind is Library) by {
        assert(all[p].at < all[q].at);
        assert(!is_word(segments[all[q].at], "gnu"@) && !is_word(segments[all[q].at], "musl"@));
    }
    lemma_last_libc(all, p, libc);
}

/// Universal macOS binaries are for every architecture, whatever else the file name says.
pub proof fn universal_binaries_are_universal(file: Seq<char>, i: int)
    requires
        name::read_name(file) is Ok,
        0 <= i && i + 1 < segments_of(file).len(),
        is_word(segments_of(file)[i], "darwin"@) || is_word(segments_of(file)[i], "macos"@)
            || is_word(segments_of(file)[i], "osx"@),
        segments_of(file)[i + 1] == "universal"@,
        i > 0 ==> !is_word(segments_of(file)[i - 1], "apple"@) && !is_word(
            segments_of(file)[i - 1],
            "pc"@,
        ) && !is_word(segments_of(file)[i - 1], "unknown"@),
    ensures
        name::read_name(file)->Ok_0.platform is MacosUniversal,
{
    let segments = segments_of(file);
    let all = name::words(segments, 0);
    systems_are_said(segments, i);
    assert(is_known_word(segments[i]));
    lemma_not_known(segments[i]);
    lemma_starts(segments, 0, i);
    let p = choose|p: int|
        #![trigger all[p]]
        0 <= p < all.len() && all[p] == (Word { kind: name::read_at(segments, i).0, at: i });
    assert(all[p].kind is Universal);
}

/// A file name which says nothing is refused for its architecture first.
pub proof fn plain_file_names_are_refused(file: Seq<char>)
    requires
        forall|k: int| 0 <= k < segments_of(file).len() ==> is_ordinary(
            #[trigger] segments_of(file)[k],
        ),
    ensures
        name::read_name(file) == Err::<NameView, NameErrorView>(
            NameErrorView::Missing { part: "architecture"@ },
        ),
{
    let segments = segments_of(file);
    let n = segments.len() as int;
    let none = Seq::<Word>::empty();
    lemma_front(segments, n, 0, 0);
    assert(front(n, 0).skip(0) == front(n, 0));
    assert(name::words(segments, n) == none);
    lemma_front_says_nothing(n, 0, none);
    lemma_front_is_not_universal(n, 0, none);
    lemma_end(n, 0, none);
}

/// An error about a file name says what is missing, or what is not known.
pub proof fn errors_say_what_is_wrong(part: Seq<char>)
    ensures
        (NameErrorView::Missing { part }).message() == "missing "@ + part + " in file name"@,
        part.is_suffix_of((NameErrorView::Unknown { got: part }).message()),
{
    let message = (NameErrorView::Unknown { got: part }).message();
    assert(message.subrange(message.len() - part.len(), message.len() as int) == part);
}

} // verus!
