//! Laws of [`crate::shell`]: what a script does, and that different entries have different
//! fingerprints.

use vstd::prelude::*;
use vstd::utf8::{encode_utf8, encode_utf8_decode_utf8};

use crate::dotslash::{EntryView, ProviderView, UrlEntryView};
use crate::outside;
use crate::shell;
use crate::shell::ShellErrorView;
use crate::target::ArchiveFormat;
use crate::text;
use crate::values;

verus! {

/// How many numbers `count` bytes tell apart.
spec fn room(count: nat) -> nat
    decreases count,
{
    if count == 0 {
        1
    } else {
        256 * room((count - 1) as nat)
    }
}

/// Numbers of so many bytes are told apart by them, whatever follows.
proof fn lemma_number(a: nat, b: nat, x: Seq<u8>, y: Seq<u8>, count: nat)
    requires
        shell::little_endian(a, count) + x == shell::little_endian(b, count) + y,
        a < room(count),
        b < room(count),
    ensures
        a == b,
        x == y,
    decreases count,
{
    if count == 0 {
        assert(Seq::<u8>::empty() + x == x);
        assert(Seq::<u8>::empty() + y == y);
    } else {
        let c = (count - 1) as nat;
        let s = shell::little_endian(a, count) + x;
        let t = shell::little_endian(b, count) + y;
        assert(s[0] == (a % 256) as u8);
        assert(t[0] == (b % 256) as u8);
        assert(a % 256 == b % 256);
        assert(s.skip(1) == shell::little_endian(a / 256, c) + x);
        assert(t.skip(1) == shell::little_endian(b / 256, c) + y);
        lemma_number(a / 256, b / 256, x, y, c);
    }
}

/// Numbers of 64 bits are told apart by their bytes, whatever follows.
proof fn lemma_u64(a: nat, b: nat, x: Seq<u8>, y: Seq<u8>)
    requires
        shell::number_bytes(a) + x == shell::number_bytes(b) + y,
        a <= u64::MAX,
        b <= u64::MAX,
    ensures
        a == b,
        x == y,
{
    reveal_with_fuel(room, 9);
    assert(room(8) == 0x1_0000_0000_0000_0000);
    lemma_number(a, b, x, y, 8);
}

/// UTF-8 does not have the byte which ends a text.
proof fn lemma_no_end(s: Seq<char>)
    ensures
        forall|i: int| 0 <= i < encode_utf8(s).len() ==> #[trigger] encode_utf8(s)[i] != 0xff,
    decreases s.len(),
{
    if s.len() > 0 {
        let first = vstd::utf8::encode_scalar(s[0] as u32);
        let rest = encode_utf8(s.drop_first());
        lemma_no_end(s.drop_first());
        assert(encode_utf8(s) == first + rest);
        lemma_scalar(s[0] as u32);
        assert forall|i: int| 0 <= i < encode_utf8(s).len() implies #[trigger] encode_utf8(s)[i]
            != 0xff by {
            if i < first.len() {
                assert(encode_utf8(s)[i] == first[i]);
            } else {
                assert(encode_utf8(s)[i] == rest[i - first.len()]);
            }
        }
    }
}

/// Nor does any of its characters.
proof fn lemma_scalar(scalar: u32)
    ensures
        forall|i: int|
            0 <= i < vstd::utf8::encode_scalar(scalar).len() ==> #[trigger] vstd::utf8::encode_scalar(
                scalar,
            )[i] != 0xff,
{
    assert((scalar & 0x7f) as u8 != 0xffu8) by (bit_vector);
    assert((0xc0u8 | ((scalar >> 6) & 0x1f) as u8) != 0xffu8) by (bit_vector);
    assert((0xe0u8 | ((scalar >> 12) & 0x0f) as u8) != 0xffu8) by (bit_vector);
    assert((0xf0u8 | ((scalar >> 18) & 0x07) as u8) != 0xffu8) by (bit_vector);
    assert((0x80u8 | (scalar & 0x3f) as u8) != 0xffu8) by (bit_vector);
    assert((0x80u8 | ((scalar >> 6) & 0x3f) as u8) != 0xffu8) by (bit_vector);
    assert((0x80u8 | ((scalar >> 12) & 0x3f) as u8) != 0xffu8) by (bit_vector);
}

/// Texts are told apart by their bytes, whatever follows.
proof fn lemma_text(a: Seq<char>, b: Seq<char>, x: Seq<u8>, y: Seq<u8>)
    requires
        shell::text_bytes(a) + x == shell::text_bytes(b) + y,
    ensures
        a == b,
        x == y,
{
    let u = encode_utf8(a);
    let v = encode_utf8(b);
    let s = shell::text_bytes(a) + x;
    let t = shell::text_bytes(b) + y;
    lemma_no_end(a);
    lemma_no_end(b);
    assert(s[u.len() as int] == 0xff);
    assert(t[v.len() as int] == 0xff);
    if u.len() < v.len() {
        assert(t[u.len() as int] == v[u.len() as int]);
    }
    if v.len() < u.len() {
        assert(s[v.len() as int] == u[v.len() as int]);
    }
    assert(u.len() == v.len());
    assert(s.take(u.len() as int) == u);
    assert(t.take(v.len() as int) == v);
    encode_utf8_decode_utf8(a);
    encode_utf8_decode_utf8(b);
    assert(s.skip(u.len() as int + 1) == x);
    assert(t.skip(v.len() as int + 1) == y);
}

/// Providers are told apart by their bytes, whatever follows.
proof fn lemma_provider(a: ProviderView, b: ProviderView, x: Seq<u8>, y: Seq<u8>)
    requires
        shell::provider_bytes(a) + x == shell::provider_bytes(b) + y,
    ensures
        a == b,
        x == y,
{
    let (m, p): (nat, Seq<u8>) = after_tag(a);
    let (n, q): (nat, Seq<u8>) = after_tag(b);
    lemma_after_tag(a, x);
    lemma_after_tag(b, y);
    lemma_u64(m, n, p + x, q + y);
    match (a, b) {
        (
            ProviderView::GitHub { repo, tag, name },
            ProviderView::GitHub { repo: repo2, tag: tag2, name: name2 },
        ) => {
            let (r, t, u) = (
                shell::text_bytes(repo),
                shell::text_bytes(tag),
                shell::text_bytes(name),
            );
            let (r2, t2, u2) = (
                shell::text_bytes(repo2),
                shell::text_bytes(tag2),
                shell::text_bytes(name2),
            );
            assert(p + x == r + (t + (u + x)));
            assert(q + y == r2 + (t2 + (u2 + y)));
            lemma_text(repo, repo2, t + (u + x), t2 + (u2 + y));
            lemma_text(tag, tag2, u + x, u2 + y);
            lemma_text(name, name2, x, y);
        },
        (ProviderView::Url { url }, ProviderView::Url { url: url2 }) => {
            lemma_text(url, url2, x, y);
        },
        _ => {},
    }
}

/// Which provider it is, and the bytes of its fields.
spec fn after_tag(provider: ProviderView) -> (nat, Seq<u8>) {
    match provider {
        ProviderView::GitHub { repo, tag, name } => (
            0,
            shell::text_bytes(repo) + shell::text_bytes(tag) + shell::text_bytes(name),
        ),
        ProviderView::Url { url } => (1, shell::text_bytes(url)),
    }
}

/// The bytes of a provider say which it is, and then its fields.
proof fn lemma_after_tag(provider: ProviderView, x: Seq<u8>)
    ensures
        shell::provider_bytes(provider) + x == shell::number_bytes(after_tag(provider).0) + (
        after_tag(provider).1 + x),
{
    let n = shell::number_bytes(after_tag(provider).0);
    match provider {
        ProviderView::GitHub { repo, tag, name } => {
            let (r, t, u) = (
                shell::text_bytes(repo),
                shell::text_bytes(tag),
                shell::text_bytes(name),
            );
            assert(n + r + t + u + x == n + ((r + t + u) + x));
        },
        ProviderView::Url { url } => {
            let u = shell::text_bytes(url);
            assert(n + u + x == n + (u + x));
        },
    }
}

/// The bytes of providers, the first of them first.
proof fn lemma_providers_front(providers: Seq<ProviderView>)
    requires
        providers.len() > 0,
    ensures
        shell::providers_bytes(providers) == shell::provider_bytes(providers[0])
            + shell::providers_bytes(providers.skip(1)),
    decreases providers.len(),
{
    let first = shell::provider_bytes(providers[0]);
    if providers.len() == 1 {
        assert(providers.drop_last() == Seq::<ProviderView>::empty());
        assert(providers.skip(1) == Seq::<ProviderView>::empty());
        assert(Seq::<u8>::empty() + first == first + Seq::<u8>::empty());
    } else {
        let last = shell::provider_bytes(providers.last());
        lemma_providers_front(providers.drop_last());
        assert(providers.drop_last().skip(1) == providers.skip(1).drop_last());
        let middle = shell::providers_bytes(providers.skip(1).drop_last());
        assert(providers.skip(1).last() == providers.last());
        assert((first + middle) + last == first + (middle + last));
    }
}

/// As many providers are told apart by their bytes, whatever follows.
proof fn lemma_providers(a: Seq<ProviderView>, b: Seq<ProviderView>, x: Seq<u8>, y: Seq<u8>)
    requires
        a.len() == b.len(),
        shell::providers_bytes(a) + x == shell::providers_bytes(b) + y,
    ensures
        a == b,
        x == y,
    decreases a.len(),
{
    if a.len() == 0 {
        assert(Seq::<u8>::empty() + x == x);
        assert(Seq::<u8>::empty() + y == y);
        assert(a == b);
    } else {
        lemma_providers_front(a);
        lemma_providers_front(b);
        let (p, q) = (shell::provider_bytes(a[0]), shell::provider_bytes(b[0]));
        let (r, s) = (shell::providers_bytes(a.skip(1)), shell::providers_bytes(b.skip(1)));
        assert((p + r) + x == p + (r + x));
        assert((q + s) + y == q + (s + y));
        lemma_provider(a[0], b[0], r + x, s + y);
        lemma_providers(a.skip(1), b.skip(1), x, y);
        assert(a == seq![a[0]] + a.skip(1));
        assert(b == seq![b[0]] + b.skip(1));
    }
}

/// Formats are told apart by their bytes, whatever follows.
proof fn lemma_format(a: Option<Seq<char>>, b: Option<Seq<char>>, x: Seq<u8>, y: Seq<u8>)
    requires
        shell::format_bytes(a) + x == shell::format_bytes(b) + y,
    ensures
        a == b,
        x == y,
{
    let (m, p): (nat, Seq<u8>) = match a {
        None => (0, x),
        Some(format) => (1, shell::text_bytes(format) + x),
    };
    let (n, q): (nat, Seq<u8>) = match b {
        None => (0, y),
        Some(format) => (1, shell::text_bytes(format) + y),
    };
    assert(shell::format_bytes(a) + x == shell::number_bytes(m) + p);
    assert(shell::format_bytes(b) + y == shell::number_bytes(n) + q);
    lemma_u64(m, n, p, q);
    if a is Some && b is Some {
        lemma_text(a->0, b->0, x, y);
    }
}

/// Seven parts and the rest, from the front.
proof fn lemma_parts(
    a: Seq<u8>,
    b: Seq<u8>,
    c: Seq<u8>,
    d: Seq<u8>,
    e: Seq<u8>,
    f: Seq<u8>,
    g: Seq<u8>,
    x: Seq<u8>,
)
    ensures
        a + b + c + d + e + f + g + x == a + (b + (c + (d + (e + (f + (g + x)))))),
{
    let p = a + b + c + d + e;
    assert(p + f + g + x == p + (f + (g + x)));
    let y = f + (g + x);
    let q = a + b + c;
    assert(q + d + e + y == q + (d + (e + y)));
    let z = d + (e + y);
    assert(a + b + c + z == a + (b + (c + z)));
}

/// Entries are told apart by their bytes, whatever follows.
proof fn lemma_entry(a: UrlEntryView, b: UrlEntryView, x: Seq<u8>, y: Seq<u8>)
    requires
        shell::entry_bytes(a) + x == shell::entry_bytes(b) + y,
        a.providers.len() <= u64::MAX,
        b.providers.len() <= u64::MAX,
    ensures
        a == b,
        x == y,
{
    let a6 = shell::providers_bytes(a.providers) + x;
    let b6 = shell::providers_bytes(b.providers) + y;
    let a5 = shell::number_bytes(a.providers.len()) + a6;
    let b5 = shell::number_bytes(b.providers.len()) + b6;
    let a4 = shell::text_bytes(a.path) + a5;
    let b4 = shell::text_bytes(b.path) + b5;
    let a3 = shell::format_bytes(a.format) + a4;
    let b3 = shell::format_bytes(b.format) + b4;
    let a2 = shell::text_bytes(a.digest) + a3;
    let b2 = shell::text_bytes(b.digest) + b3;
    let a1 = shell::text_bytes(a.hash) + a2;
    let b1 = shell::text_bytes(b.hash) + b2;
    lemma_parts(
        shell::number_bytes(a.size as nat),
        shell::text_bytes(a.hash),
        shell::text_bytes(a.digest),
        shell::format_bytes(a.format),
        shell::text_bytes(a.path),
        shell::number_bytes(a.providers.len()),
        shell::providers_bytes(a.providers),
        x,
    );
    lemma_parts(
        shell::number_bytes(b.size as nat),
        shell::text_bytes(b.hash),
        shell::text_bytes(b.digest),
        shell::format_bytes(b.format),
        shell::text_bytes(b.path),
        shell::number_bytes(b.providers.len()),
        shell::providers_bytes(b.providers),
        y,
    );
    lemma_u64(a.size as nat, b.size as nat, a1, b1);
    lemma_text(a.hash, b.hash, a2, b2);
    lemma_text(a.digest, b.digest, a3, b3);
    lemma_format(a.format, b.format, a4, b4);
    lemma_text(a.path, b.path, a5, b5);
    lemma_u64(a.providers.len(), b.providers.len(), a6, b6);
    lemma_providers(a.providers, b.providers, x, y);
}

/// The bytes of entries, the first of them first.
proof fn lemma_entries_front(entries: Seq<EntryView>)
    requires
        entries.len() > 0,
    ensures
        shell::entries_bytes(entries) == shell::text_bytes(entries[0].dotslash_platform) + (
        shell::entry_bytes(entries[0].dotslash_url_entry) + shell::entries_bytes(entries.skip(1))),
    decreases entries.len(),
{
    let name = shell::text_bytes(entries[0].dotslash_platform);
    let file = shell::entry_bytes(entries[0].dotslash_url_entry);
    if entries.len() == 1 {
        assert(entries.drop_last() == Seq::<EntryView>::empty());
        assert(entries.skip(1) == Seq::<EntryView>::empty());
        assert(Seq::<u8>::empty() + name + file == name + (file + Seq::<u8>::empty()));
    } else {
        let last_name = shell::text_bytes(entries.last().dotslash_platform);
        let last_file = shell::entry_bytes(entries.last().dotslash_url_entry);
        lemma_entries_front(entries.drop_last());
        assert(entries.drop_last().skip(1) == entries.skip(1).drop_last());
        assert(entries.drop_last()[0] == entries[0]);
        assert(entries.skip(1).last() == entries.last());
        let middle = shell::entries_bytes(entries.skip(1).drop_last());
        assert((name + (file + middle)) + last_name + last_file == name + (file + (middle
            + last_name + last_file)));
    }
}

/// Whether two entries are the same in a script.
pub open spec fn alike(a: EntryView, b: EntryView) -> bool {
    a.dotslash_platform == b.dotslash_platform && a.dotslash_url_entry == b.dotslash_url_entry
}

/// As many entries are told apart by their bytes.
proof fn lemma_entries(a: Seq<EntryView>, b: Seq<EntryView>)
    requires
        a.len() == b.len(),
        shell::entries_bytes(a) == shell::entries_bytes(b),
        forall|i: int|
            0 <= i < a.len() ==> (#[trigger] a[i]).dotslash_url_entry.providers.len() <= u64::MAX,
        forall|i: int|
            0 <= i < b.len() ==> (#[trigger] b[i]).dotslash_url_entry.providers.len() <= u64::MAX,
    ensures
        forall|i: int| 0 <= i < a.len() ==> alike(#[trigger] a[i], b[i]),
    decreases a.len(),
{
    if a.len() > 0 {
        lemma_entries_front(a);
        lemma_entries_front(b);
        let (p, q) = (
            shell::entry_bytes(a[0].dotslash_url_entry),
            shell::entry_bytes(b[0].dotslash_url_entry),
        );
        let (r, s) = (shell::entries_bytes(a.skip(1)), shell::entries_bytes(b.skip(1)));
        lemma_text(a[0].dotslash_platform, b[0].dotslash_platform, p + r, q + s);
        lemma_entry(a[0].dotslash_url_entry, b[0].dotslash_url_entry, r, s);
        let (c, d) = (a.skip(1), b.skip(1));
        assert forall|i: int| 0 <= i < c.len() implies (
        #[trigger] c[i]).dotslash_url_entry.providers.len() <= u64::MAX by {
            assert(c[i] == a[i + 1]);
        }
        assert forall|i: int| 0 <= i < d.len() implies (
        #[trigger] d[i]).dotslash_url_entry.providers.len() <= u64::MAX by {
            assert(d[i] == b[i + 1]);
        }
        lemma_entries(c, d);
        assert forall|i: int| 0 <= i < a.len() implies alike(#[trigger] a[i], b[i]) by {
            if i > 0 {
                assert(alike(c[i - 1], d[i - 1]));
            }
        }
    }
}

/// Entries with the same fingerprint are the same: as many of them, for the same platforms in the
/// same order, with the same sizes, digests, formats, paths and providers. The directory in which
/// a script keeps a program is named after the hash of the fingerprint.
pub proof fn fingerprint_tells_entries_apart(a: Seq<EntryView>, b: Seq<EntryView>)
    requires
        shell::fingerprint(a) == shell::fingerprint(b),
        a.len() <= u64::MAX,
        b.len() <= u64::MAX,
        forall|i: int|
            0 <= i < a.len() ==> (#[trigger] a[i]).dotslash_url_entry.providers.len() <= u64::MAX,
        forall|i: int|
            0 <= i < b.len() ==> (#[trigger] b[i]).dotslash_url_entry.providers.len() <= u64::MAX,
    ensures
        a.len() == b.len(),
        forall|i: int| 0 <= i < a.len() ==> alike(#[trigger] a[i], b[i]),
{
    lemma_u64(a.len(), b.len(), shell::entries_bytes(a), shell::entries_bytes(b));
    lemma_entries(a, b);
}

// ---------------------------------------------------------------------------------------------
// What a script does

/// What stands between two other parts occurs in the whole.
proof fn lemma_occurs(before: Seq<char>, part: Seq<char>, after: Seq<char>)
    ensures
        text::occurs_in(part, before + part + after),
{
    let whole = before + part + after;
    let n = before.len() as int;
    assert(whole.skip(n).subrange(0, part.len() as int) == part);
    assert(part.is_prefix_of(whole.skip(n)));
}

/// What occurs in a text still does after more.
proof fn lemma_occurs_before(part: Seq<char>, whole: Seq<char>, more: Seq<char>)
    requires
        text::occurs_in(part, whole),
    ensures
        text::occurs_in(part, whole + more),
{
    let i = choose|i: int| 0 <= i <= whole.len() && part.is_prefix_of(#[trigger] whole.skip(i));
    assert((whole + more).skip(i).subrange(0, part.len() as int) == whole.skip(i).subrange(
        0,
        part.len() as int,
    ));
    assert(part.is_prefix_of((whole + more).skip(i)));
}

/// Three parts at the end of a text occur in it together.
proof fn lemma_occurs_last(start: Seq<char>, a: Seq<char>, b: Seq<char>, c: Seq<char>)
    ensures
        text::occurs_in(a + b + c, start + a + b + c),
{
    lemma_three(start, a, b, c);
    lemma_occurs(start, a + b + c, Seq::<char>::empty());
}

/// Three parts, one by one, and nothing after them.
proof fn lemma_three(start: Seq<char>, a: Seq<char>, b: Seq<char>, c: Seq<char>)
    ensures
        start + (a + b + c) + Seq::<char>::empty() == start + a + b + c,
{
}

/// The end of a line, which starts another one.
proof fn lemma_line(x: Seq<char>, a: Seq<char>, b: Seq<char>, n: Seq<char>, c: Seq<char>)
    ensures
        x + a + b + (n + c) == x + (a + b + n) + c,
{
}

/// A part with others around it, from the inside out.
proof fn lemma_nested(
    x: Seq<char>,
    b: Seq<char>,
    c: Seq<char>,
    e: Seq<char>,
    a: Seq<char>,
    r: Seq<char>,
)
    ensures
        x + (b + (c + e) + a) + r == (x + b) + c + (e + a + r),
{
}

/// What precedes a part of a script and what follows it.
pub open spec fn surrounds(
    whole: Seq<char>,
    before: Seq<char>,
    part: Seq<char>,
    after: Seq<char>,
) -> bool {
    whole == before + part + after
}

/// The parts about each platform contain the one about each.
proof fn lemma_cases(entries: Seq<EntryView>, same_path: bool, i: int)
    requires
        0 <= i < entries.len(),
    ensures
        exists|before: Seq<char>, after: Seq<char>|
            surrounds(
                shell::platform_cases(entries, same_path),
                before,
                shell::platform_case(entries[i], same_path),
                after,
            ),
    decreases entries.len(),
{
    let whole = shell::platform_cases(entries, same_path);
    let rest = shell::platform_cases(entries.drop_last(), same_path);
    let last = shell::platform_case(entries.last(), same_path);
    let part = shell::platform_case(entries[i], same_path);
    if i < entries.len() - 1 {
        assert(entries.drop_last()[i] == entries[i]);
        lemma_cases(entries.drop_last(), same_path, i);
        let (before, after) = choose|before: Seq<char>, after: Seq<char>|
            surrounds(rest, before, part, after);
        assert(before + part + after + last == before + part + (after + last));
        assert(surrounds(whole, before, part, after + last));
    } else {
        assert(whole == rest + part + Seq::<char>::empty());
        assert(surrounds(whole, rest, part, Seq::<char>::empty()));
    }
}

/// The lines with the platform of an entry, its path if that is given, its digest, its size and its
/// URL.
pub open spec fn lines_of(entry: EntryView, with_path: bool) -> Seq<char> {
    let file = entry.dotslash_url_entry;
    let path_line = if with_path {
        "\t\tpath="@ + outside::quoted(file.path) + "\n"@
    } else {
        Seq::<char>::empty()
    };
    ("\t"@ + entry.dotslash_platform + ")\n"@) + path_line + ("\t\tdigest="@ + file.digest + "\n"@)
        + ("\t\tsize="@ + text::decimal(file.size as nat) + "\n"@) + ("\t\turl="@
        + outside::quoted(shell::first_url(file.providers)->0) + "\n"@)
}

/// Whether a script has the lines of an entry.
pub open spec fn covers(script: Seq<char>, entry: EntryView, with_path: bool) -> bool {
    exists|before: Seq<char>, after: Seq<char>|
        surrounds(script, before, lines_of(entry, with_path), after)
}

/// A script covers the platform of every entry: where that is the current one, the file is
/// downloaded from the URL of the entry, and must have its digest. Each says the path of its binary,
/// unless that is the same for all.
pub proof fn script_covers_every_entry(name: Seq<char>, entries: Seq<EntryView>, i: int)
    requires
        shell::shell(name, entries) is Ok,
        0 <= i < entries.len(),
    ensures
        covers(
            shell::shell(name, entries)->Ok_0,
            entries[i],
            !(forall|j: int|
                0 <= j < entries.len() ==> (#[trigger] entries[j]).dotslash_url_entry.path
                    == entries[0].dotslash_url_entry.path),
        ),
{
    let script = shell::script(name, entries);
    let paths = shell::paths(entries);
    let same = values::unique(paths) is Some;
    assert(same == forall|j: int|
        0 <= j < entries.len() ==> (#[trigger] entries[j]).dotslash_url_entry.path
            == entries[0].dotslash_url_entry.path) by {
        if same {
            assert forall|j: int| 0 <= j < entries.len() implies (
            #[trigger] entries[j]).dotslash_url_entry.path == entries[0].dotslash_url_entry.path by {
                assert(paths[j] == paths[0]);
            }
        } else if forall|j: int|
            0 <= j < entries.len() ==> (#[trigger] entries[j]).dotslash_url_entry.path
                == entries[0].dotslash_url_entry.path {
            assert forall|j: int| 0 <= j < paths.len() implies #[trigger] paths[j] == paths[0] by {
                assert(paths[j] == entries[j].dotslash_url_entry.path);
            }
        }
    }
    let entry = entries[i];
    let file = entry.dotslash_url_entry;
    lemma_cases(entries, same, i);
    let cases = shell::platform_cases(entries, same);
    let case = shell::platform_case(entry, same);
    let (b, a) = choose|b: Seq<char>, a: Seq<char>| surrounds(cases, b, case, a);
    let rest = script.skip(shell::HEAD@.len() + cases.len() as int);
    lemma_script_front(name, entries);
    let before = shell::HEAD@ + b;
    let url = outside::quoted(shell::first_url(file.providers)->0);
    let path_line = if same {
        Seq::<char>::empty()
    } else {
        "\t\tpath="@ + outside::quoted(file.path) + "\n"@
    };
    let middle = "\t\tsize="@ + text::decimal(file.size as nat) + "\n"@;
    let after = "\t\t;;\n"@ + a + rest;
    assert("\n\t\tsize="@ == "\n"@ + "\t\tsize="@ && "\n\t\turl="@ == "\n"@ + "\t\turl="@
        && "\n\t\t;;\n"@ == "\n"@ + "\t\t;;\n"@) by {
        reveal_strlit("\n");
        reveal_strlit("\n\t\tsize=");
        reveal_strlit("\t\tsize=");
        reveal_strlit("\n\t\turl=");
        reveal_strlit("\t\turl=");
        reveal_strlit("\n\t\t;;\n");
        reveal_strlit("\t\t;;\n");
    }
    let start = "\t"@ + entry.dotslash_platform + ")\n"@;
    let digest_line = "\t\tdigest="@ + file.digest + "\n"@;
    let url_line = "\t\turl="@ + url + "\n"@;
    let end = "\t\t;;\n"@;
    let first = start + path_line;
    let second = first + digest_line;
    let third = second + middle;
    lemma_line(first, "\t\tdigest="@, file.digest, "\n"@, "\t\tsize="@);
    lemma_line(second, "\t\tsize="@, text::decimal(file.size as nat), "\n"@, "\t\turl="@);
    lemma_line(third, "\t\turl="@, url, "\n"@, end);
    let lines = start + path_line + digest_line + middle + url_line;
    assert(case == lines + end);
    lemma_nested(shell::HEAD@, b, lines, end, a, rest);
    assert(lines == lines_of(entry, !same));
    assert(surrounds(script, before, lines, after));
}

/// A script starts with its head and its cases.
proof fn lemma_script_front(name: Seq<char>, entries: Seq<EntryView>)
    ensures
        ({
            let script = shell::script(name, entries);
            let cases = shell::platform_cases(
                entries,
                values::unique(shell::paths(entries)) is Some,
            );
            script == shell::HEAD@ + cases + script.skip(shell::HEAD@.len() + cases.len() as int)
        }),
{
    let script = shell::script(name, entries);
    let cases = shell::platform_cases(entries, values::unique(shell::paths(entries)) is Some);
    let start = shell::HEAD@ + cases;
    assert(script.take(start.len() as int) == start);
}

/// The parts of a script after its cases.
proof fn lemma_script_parts(name: Seq<char>, entries: Seq<EntryView>)
    ensures
        ({
            let script = shell::script(name, entries);
            let program = shell::digest_program(entries[0].dotslash_url_entry.hash);
            let path = match values::unique(shell::paths(entries)) {
                Some(path) => path,
                None => "$path"@,
            };
            let hash = text::hex(outside::blake3_digest(shell::fingerprint(entries)));
            &&& text::occurs_in(shell::FETCH@ + program + shell::CHECK@, script)
            &&& text::occurs_in(shell::BIN@ + path + shell::FETCH@, script)
            &&& text::occurs_in(
                shell::EXTRACT@ + shell::extract_command(entries[0].format) + shell::FINISH@,
                script,
            )
            &&& text::occurs_in(
                shell::DIR@ + outside::escaped(name) + shell::DASH@ + hash + shell::BIN@,
                script,
            )
            &&& text::occurs_in(
                shell::OTHERWISE@ + text::joined(shell::platforms(entries), ", "@) + shell::DIR@,
                script,
            )
        }),
{
    let script = shell::script(name, entries);
    let cases = shell::platform_cases(entries, values::unique(shell::paths(entries)) is Some);
    let program = shell::digest_program(entries[0].dotslash_url_entry.hash);
    let path = match values::unique(shell::paths(entries)) {
        Some(path) => path,
        None => "$path"@,
    };
    let hash = text::hex(outside::blake3_digest(shell::fingerprint(entries)));
    let escaped = outside::escaped(name);
    let list = text::joined(shell::platforms(entries), ", "@);
    let command = shell::extract_command(entries[0].format);

    let s1 = shell::HEAD@ + cases;
    let s2 = s1 + shell::OTHERWISE@ + list;
    let s3 = s2 + shell::DIR@;
    let s4 = s3 + escaped + shell::DASH@ + hash;
    let s5 = s4 + shell::BIN@;
    let s6 = s5 + path;
    let s7 = s6 + shell::FETCH@;
    let s8 = s7 + program;
    let s9 = s8 + shell::CHECK@;
    let s10 = s9 + program;
    let s11 = s10 + shell::EXTRACT@;
    let s12 = s11 + command;
    assert(script == s12 + shell::FINISH@);

    lemma_occurs_last(s1, shell::OTHERWISE@, list, shell::DIR@);
    let listing = shell::OTHERWISE@ + list + shell::DIR@;
    lemma_occurs_before(listing, s3, escaped);
    lemma_occurs_before(listing, s3 + escaped, shell::DASH@);
    lemma_occurs_before(listing, s3 + escaped + shell::DASH@, hash);
    lemma_occurs_before(listing, s4, shell::BIN@);
    lemma_later(listing, s5, path, program, command);

    let name_dash = escaped + shell::DASH@ + hash;
    let directory = shell::DIR@ + escaped + shell::DASH@ + hash + shell::BIN@;
    lemma_occurs_last(s2, shell::DIR@, name_dash, shell::BIN@);
    assert(s2 + shell::DIR@ + name_dash + shell::BIN@ == s5);
    assert(shell::DIR@ + name_dash + shell::BIN@ == directory);
    lemma_later(directory, s5, path, program, command);

    lemma_occurs_last(s4, shell::BIN@, path, shell::FETCH@);
    lemma_latest(shell::BIN@ + path + shell::FETCH@, s7, program, command);

    let fetching = shell::FETCH@ + program + shell::CHECK@;
    lemma_occurs_last(s6, shell::FETCH@, program, shell::CHECK@);
    lemma_occurs_before(fetching, s9, program);
    lemma_occurs_before(fetching, s10, shell::EXTRACT@);
    lemma_occurs_before(fetching, s11, command);
    lemma_occurs_before(fetching, s12, shell::FINISH@);

    lemma_occurs_last(s10, shell::EXTRACT@, command, shell::FINISH@);
}

/// What occurs in a script up to where it names the binary occurs in it.
proof fn lemma_later(
    part: Seq<char>,
    start: Seq<char>,
    path: Seq<char>,
    program: Seq<char>,
    command: Seq<char>,
)
    requires
        text::occurs_in(part, start),
    ensures
        text::occurs_in(
            part,
            start + path + shell::FETCH@ + program + shell::CHECK@ + program + shell::EXTRACT@
                + command + shell::FINISH@,
        ),
{
    lemma_occurs_before(part, start, path);
    lemma_occurs_before(part, start + path, shell::FETCH@);
    lemma_latest(part, start + path + shell::FETCH@, program, command);
}

/// What occurs in a script up to where it computes the digest occurs in it.
proof fn lemma_latest(
    part: Seq<char>,
    start: Seq<char>,
    program: Seq<char>,
    command: Seq<char>,
)
    requires
        text::occurs_in(part, start),
    ensures
        text::occurs_in(
            part,
            start + program + shell::CHECK@ + program + shell::EXTRACT@ + command + shell::FINISH@,
        ),
{
    let a = start + program;
    let b = a + shell::CHECK@;
    let c = b + program;
    let d = c + shell::EXTRACT@;
    lemma_occurs_before(part, start, program);
    lemma_occurs_before(part, a, shell::CHECK@);
    lemma_occurs_before(part, b, program);
    lemma_occurs_before(part, c, shell::EXTRACT@);
    lemma_occurs_before(part, d, command);
    lemma_occurs_before(part, d + command, shell::FINISH@);
}

/// A script computes digests with the program of their algorithm: `sha256sum` or `b3sum`.
pub proof fn script_computes_the_digest(name: Seq<char>, entries: Seq<EntryView>)
    requires
        shell::shell(name, entries) is Ok,
        entries.len() > 0,
    ensures
        entries[0].dotslash_url_entry.hash == "sha256"@ ==> text::occurs_in(
            shell::FETCH@ + "sha256sum"@ + shell::CHECK@,
            shell::shell(name, entries)->Ok_0,
        ),
        entries[0].dotslash_url_entry.hash == "blake3"@ ==> text::occurs_in(
            shell::FETCH@ + "b3sum"@ + shell::CHECK@,
            shell::shell(name, entries)->Ok_0,
        ),
{
    lemma_script_parts(name, entries);
    assert("sha256"@ != "blake3"@) by {
        reveal_strlit("sha256");
        reveal_strlit("blake3");
        assert("sha256"@[0] == 's' && "blake3"@[0] == 'b');
    }
}

/// A script runs the binary at the path that all entries have, or else at the path of the entry of
/// the current platform.
pub proof fn script_runs_the_binary(name: Seq<char>, entries: Seq<EntryView>)
    requires
        shell::shell(name, entries) is Ok,
        entries.len() > 0,
    ensures
        text::occurs_in(
            shell::BIN@ + (if forall|j: int|
                0 <= j < entries.len() ==> (#[trigger] entries[j]).dotslash_url_entry.path
                    == entries[0].dotslash_url_entry.path {
                entries[0].dotslash_url_entry.path
            } else {
                "$path"@
            }) + shell::FETCH@,
            shell::shell(name, entries)->Ok_0,
        ),
{
    lemma_script_parts(name, entries);
    let paths = shell::paths(entries);
    if forall|j: int|
        0 <= j < entries.len() ==> (#[trigger] entries[j]).dotslash_url_entry.path
            == entries[0].dotslash_url_entry.path {
        assert forall|j: int| 0 <= j < paths.len() implies #[trigger] paths[j] == paths[0] by {
            assert(paths[j] == entries[j].dotslash_url_entry.path);
        }
    } else if values::unique(paths) is Some {
        assert forall|j: int| 0 <= j < entries.len() implies (
        #[trigger] entries[j]).dotslash_url_entry.path == entries[0].dotslash_url_entry.path by {
            assert(paths[j] == paths[0]);
        }
    }
}

/// A script keeps the program in a directory named after it and after the hash of the fingerprint of
/// the entries.
pub proof fn script_keeps_the_program(name: Seq<char>, entries: Seq<EntryView>)
    requires
        shell::shell(name, entries) is Ok,
    ensures
        text::occurs_in(
            shell::DIR@ + outside::escaped(name) + shell::DASH@ + text::hex(
                outside::blake3_digest(shell::fingerprint(entries)),
            ) + shell::BIN@,
            shell::shell(name, entries)->Ok_0,
        ),
{
    lemma_script_parts(name, entries);
}

/// A script extracts the download with a program for its format: an archive into the directory of
/// the program, anything else to the path of the binary.
pub proof fn script_extracts_the_download(name: Seq<char>, entries: Seq<EntryView>)
    requires
        shell::shell(name, entries) is Ok,
        entries.len() > 0,
    ensures
        text::occurs_in(
            shell::EXTRACT@ + (match entries[0].format {
                Some(ArchiveFormat::Zip) => "unzip -qq "@,
                Some(ArchiveFormat::Tar) => "tar -xf "@,
                Some(ArchiveFormat::TarGz) => "tar -xzf "@,
                Some(ArchiveFormat::TarXz) => "tar -xJf "@,
                Some(ArchiveFormat::TarZst) => "tar --zstd -xf "@,
                Some(ArchiveFormat::TarBz2) => "tar -xjf "@,
                Some(ArchiveFormat::Gz) => r#"mkdir -p "$(dirname "$path")" && gzip -dc "#@,
                Some(ArchiveFormat::Xz) => r#"mkdir -p "$(dirname "$path")" && xz -dc "#@,
                Some(ArchiveFormat::Zst) => r#"mkdir -p "$(dirname "$path")" && zstd -d "#@,
                Some(ArchiveFormat::Bz2) => r#"mkdir -p "$(dirname "$path")" && bzip2 -dc "#@,
                None => r#"mkdir -p "$(dirname "$path")" && mv "#@,
            }) + r#""$tmp" "#@ + (match entries[0].format {
                Some(ArchiveFormat::Zip) => r#"-d "$dir""#@,
                Some(ArchiveFormat::Tar) | Some(ArchiveFormat::TarGz) | Some(
                    ArchiveFormat::TarXz,
                ) | Some(ArchiveFormat::TarZst) | Some(ArchiveFormat::TarBz2) => r#"-C "$dir""#@,
                Some(ArchiveFormat::Gz) | Some(ArchiveFormat::Xz) | Some(ArchiveFormat::Bz2) =>
                    r#"> "$path""#@,
                Some(ArchiveFormat::Zst) => r#"-o "$path""#@,
                None => r#""$path""#@,
            }) + shell::FINISH@,
            shell::shell(name, entries)->Ok_0,
        ),
{
    lemma_script_parts(name, entries);
    let (start, end) = lemma_command(entries[0].format);
    let tmp = r#""$tmp" "#@;
    assert(shell::EXTRACT@ + (start + tmp + end) + shell::FINISH@ == shell::EXTRACT@ + start + tmp
        + end + shell::FINISH@);
}

proof fn lemma_command(format: Option<ArchiveFormat>) -> (parts: (Seq<char>, Seq<char>))
    ensures
        shell::extract_command(format) == parts.0 + r#""$tmp" "#@ + parts.1,
        parts.0 == match format {
            Some(ArchiveFormat::Zip) => "unzip -qq "@,
            Some(ArchiveFormat::Tar) => "tar -xf "@,
            Some(ArchiveFormat::TarGz) => "tar -xzf "@,
            Some(ArchiveFormat::TarXz) => "tar -xJf "@,
            Some(ArchiveFormat::TarZst) => "tar --zstd -xf "@,
            Some(ArchiveFormat::TarBz2) => "tar -xjf "@,
            Some(ArchiveFormat::Gz) => r#"mkdir -p "$(dirname "$path")" && gzip -dc "#@,
            Some(ArchiveFormat::Xz) => r#"mkdir -p "$(dirname "$path")" && xz -dc "#@,
            Some(ArchiveFormat::Zst) => r#"mkdir -p "$(dirname "$path")" && zstd -d "#@,
            Some(ArchiveFormat::Bz2) => r#"mkdir -p "$(dirname "$path")" && bzip2 -dc "#@,
            None => r#"mkdir -p "$(dirname "$path")" && mv "#@,
        },
        parts.1 == match format {
            Some(ArchiveFormat::Zip) => r#"-d "$dir""#@,
            Some(ArchiveFormat::Tar) | Some(ArchiveFormat::TarGz) | Some(ArchiveFormat::TarXz)
            | Some(ArchiveFormat::TarZst) | Some(ArchiveFormat::TarBz2) => r#"-C "$dir""#@,
            Some(ArchiveFormat::Gz) | Some(ArchiveFormat::Xz) | Some(ArchiveFormat::Bz2) =>
                r#"> "$path""#@,
            Some(ArchiveFormat::Zst) => r#"-o "$path""#@,
            None => r#""$path""#@,
        },
{
    reveal_strlit(r#""$tmp" "#);
    reveal_strlit(r#"-d "$dir""#);
    reveal_strlit(r#"-C "$dir""#);
    reveal_strlit(r#"> "$path""#);
    reveal_strlit(r#"-o "$path""#);
    reveal_strlit(r#""$path""#);
    match format {
        Some(ArchiveFormat::Zip) => {
            reveal_strlit("unzip -qq ");
            reveal_strlit(r#"unzip -qq "$tmp" -d "$dir""#);
            ("unzip -qq "@, r#"-d "$dir""#@)
        },
        Some(ArchiveFormat::Tar) => {
            reveal_strlit("tar -xf ");
            reveal_strlit(r#"tar -xf "$tmp" -C "$dir""#);
            ("tar -xf "@, r#"-C "$dir""#@)
        },
        Some(ArchiveFormat::TarGz) => {
            reveal_strlit("tar -xzf ");
            reveal_strlit(r#"tar -xzf "$tmp" -C "$dir""#);
            ("tar -xzf "@, r#"-C "$dir""#@)
        },
        Some(ArchiveFormat::TarXz) => {
            reveal_strlit("tar -xJf ");
            reveal_strlit(r#"tar -xJf "$tmp" -C "$dir""#);
            ("tar -xJf "@, r#"-C "$dir""#@)
        },
        Some(ArchiveFormat::TarZst) => {
            reveal_strlit("tar --zstd -xf ");
            reveal_strlit(r#"tar --zstd -xf "$tmp" -C "$dir""#);
            ("tar --zstd -xf "@, r#"-C "$dir""#@)
        },
        Some(ArchiveFormat::TarBz2) => {
            reveal_strlit("tar -xjf ");
            reveal_strlit(r#"tar -xjf "$tmp" -C "$dir""#);
            ("tar -xjf "@, r#"-C "$dir""#@)
        },
        Some(ArchiveFormat::Gz) => {
            reveal_strlit(r#"mkdir -p "$(dirname "$path")" && gzip -dc "#);
            reveal_strlit(r#"mkdir -p "$(dirname "$path")" && gzip -dc "$tmp" > "$path""#);
            (r#"mkdir -p "$(dirname "$path")" && gzip -dc "#@, r#"> "$path""#@)
        },
        Some(ArchiveFormat::Xz) => {
            reveal_strlit(r#"mkdir -p "$(dirname "$path")" && xz -dc "#);
            reveal_strlit(r#"mkdir -p "$(dirname "$path")" && xz -dc "$tmp" > "$path""#);
            (r#"mkdir -p "$(dirname "$path")" && xz -dc "#@, r#"> "$path""#@)
        },
        Some(ArchiveFormat::Zst) => {
            reveal_strlit(r#"mkdir -p "$(dirname "$path")" && zstd -d "#);
            reveal_strlit(r#"mkdir -p "$(dirname "$path")" && zstd -d "$tmp" -o "$path""#);
            (r#"mkdir -p "$(dirname "$path")" && zstd -d "#@, r#"-o "$path""#@)
        },
        Some(ArchiveFormat::Bz2) => {
            reveal_strlit(r#"mkdir -p "$(dirname "$path")" && bzip2 -dc "#);
            reveal_strlit(r#"mkdir -p "$(dirname "$path")" && bzip2 -dc "$tmp" > "$path""#);
            (r#"mkdir -p "$(dirname "$path")" && bzip2 -dc "#@, r#"> "$path""#@)
        },
        None => {
            reveal_strlit(r#"mkdir -p "$(dirname "$path")" && mv "#);
            reveal_strlit(r#"mkdir -p "$(dirname "$path")" && mv "$tmp" "$path""#);
            (r#"mkdir -p "$(dirname "$path")" && mv "#@, r#""$path""#@)
        },
    }
}

/// An error about a script names the two formats, or the two algorithms, that differ.
pub proof fn errors_say_what_differs(
    a: Option<Seq<char>>,
    b: Option<Seq<char>>,
    x: Seq<char>,
    y: Seq<char>,
)
    ensures
        text::occurs_in(
            shell::optional_quoted(a) + " != "@ + shell::optional_quoted(b),
            ShellErrorView::Formats(a, b).message(),
        ),
        text::occurs_in(x + " != "@ + y, ShellErrorView::Hashes(x, y).message()),
        a matches Some(format) ==> text::occurs_in(
            outside::quoted(format),
            shell::optional_quoted(a),
        ),
{
    lemma_occurs_last(
        "--format=sh requires all entries to have the same format, but found "@,
        shell::optional_quoted(a),
        " != "@,
        shell::optional_quoted(b),
    );
    lemma_occurs_last(
        "--format=sh requires all entries to have the same hash format, but found "@,
        x,
        " != "@,
        y,
    );
    if a is Some {
        lemma_occurs("Some("@, outside::quoted(a->0), ")"@);
    }
}

} // verus!
