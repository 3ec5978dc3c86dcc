//! Digests of downloaded files.

use vstd::prelude::*;
use vstd::slice::slice_subrange;
use vstd::utf8::encode_utf8;

use crate::outside;
use crate::text;

verus! {

broadcast use vstd::seq_lib::group_seq_properties;

// ---------------------------------------------------------------------------------------------
// Types

/// Digest of a downloaded file.
#[derive(Clone, Copy, Debug)]
pub enum Digest {
    Sha256([u8; 32]),
    Blake3([u8; 32]),
}

/// Why a text is not a digest.
#[derive(Debug)]
pub enum DigestError {
    /// The text does not name an algorithm.
    Unknown(String),
    /// The algorithm is not known.
    UnknownAlgorithm(String),
    /// The hash is neither hexadecimal nor base64.
    Invalid(String),
}

/// What a [`Digest`] holds.
pub enum DigestView {
    Sha256(Seq<u8>),
    Blake3(Seq<u8>),
}

/// What a [`DigestError`] holds.
pub enum DigestErrorView {
    Unknown(Seq<char>),
    UnknownAlgorithm(Seq<char>),
    Invalid(Seq<char>),
}

impl View for Digest {
    type V = DigestView;

    open spec fn view(&self) -> DigestView {
        match *self {
            Digest::Sha256(bytes) => DigestView::Sha256(bytes@),
            Digest::Blake3(bytes) => DigestView::Blake3(bytes@),
        }
    }
}

impl View for DigestError {
    type V = DigestErrorView;

    open spec fn view(&self) -> DigestErrorView {
        match *self {
            DigestError::Unknown(data) => DigestErrorView::Unknown(data@),
            DigestError::UnknownAlgorithm(algo) => DigestErrorView::UnknownAlgorithm(algo@),
            DigestError::Invalid(data) => DigestErrorView::Invalid(data@),
        }
    }
}

impl DigestErrorView {
    /// The error in words.
    pub open spec fn message(self) -> Seq<char> {
        match self {
            DigestErrorView::Unknown(data) => "unknown digest "@ + outside::quoted(data),
            DigestErrorView::UnknownAlgorithm(algo) => "unknown digest algorithm "@ + algo,
            DigestErrorView::Invalid(data) => "failed to parse digest in "@ + outside::quoted(data),
        }
    }
}

impl DigestError {
    /// The error in words.
    pub fn message(&self) -> (message: String)
        ensures
            message@ == self@.message(),
    {
        match self {
            DigestError::Unknown(data) => "unknown digest ".to_owned().concat(
                outside::quote(data.as_str()).as_str(),
            ),
            DigestError::UnknownAlgorithm(algo) => "unknown digest algorithm ".to_owned().concat(
                algo.as_str(),
            ),
            DigestError::Invalid(data) => "failed to parse digest in ".to_owned().concat(
                outside::quote(data.as_str()).as_str(),
            ),
        }
    }
}

// ---------------------------------------------------------------------------------------------
// Hashes

/// `bytes` and as many zeros as make it 32 bytes long.
pub open spec fn padded(bytes: Seq<u8>) -> Seq<u8> {
    bytes + Seq::new((32 - bytes.len()) as nat, |i: int| 0u8)
}

/// Whether `data` uses the URL-safe base64 alphabet.
pub open spec fn is_url_safe(data: Seq<u8>) -> bool {
    data.contains(0x2d) || data.contains(0x5f)
}

/// At most 32 bytes of which `data` is the canonical base64 encoding, if there are any.
pub open spec fn base64_bytes(data: Seq<u8>) -> Option<Seq<u8>> {
    if exists|bytes: Seq<u8>|
        bytes.len() <= 32 && data == #[trigger] outside::base64_encoded(bytes, is_url_safe(data)) {
        Some(
            choose|bytes: Seq<u8>|
                bytes.len() <= 32 && data == #[trigger] outside::base64_encoded(
                    bytes,
                    is_url_safe(data),
                ),
        )
    } else {
        None
    }
}

/// The 32 bytes that `data` writes. 64 characters are hexadecimal. 44 are padded base64, of 32 bytes
/// or of 31, which a zero is added to. No 43 characters are accepted: they could only be base64
/// without padding, and it has to be there.
pub open spec fn digest_bytes(data: Seq<u8>) -> Option<Seq<u8>> {
    if data.len() == 64 {
        outside::hex_bytes(data)
    } else if data.len() == 43 || data.len() == 44 {
        match base64_bytes(data) {
            Some(bytes) => Some(padded(bytes)),
            None => None,
        }
    } else {
        None
    }
}

/// The digest of algorithm `algo` that `data` writes.
pub open spec fn digest_of(data: Seq<char>, algo: Seq<char>) -> Result<DigestView, DigestErrorView> {
    if algo != "sha256"@ && algo != "blake3"@ {
        Err(DigestErrorView::UnknownAlgorithm(algo))
    } else {
        match digest_bytes(encode_utf8(data)) {
            None => Err(DigestErrorView::Invalid(data)),
            Some(bytes) => if algo == "sha256"@ {
                Ok(DigestView::Sha256(bytes))
            } else {
                Ok(DigestView::Blake3(bytes))
            },
        }
    }
}

/// The digest that `data` writes, either with the algorithm given or, if none is, as
/// `<algo>:<hash>` or `<algo>-<hash>`.
pub open spec fn read_digest(data: Seq<char>, algo: Seq<char>) -> Result<
    DigestView,
    DigestErrorView,
> {
    let at = text::first_of(data, seq![':', '-']);
    if algo.len() > 0 {
        digest_of(data, algo)
    } else if at == data.len() {
        Err(DigestErrorView::Unknown(data))
    } else {
        digest_of(data.skip(at + 1), data.take(at))
    }
}

/// Whether `b` is ASCII white space.
pub open spec fn is_space(b: u8) -> bool {
    b == 0x20 || b == 0x09 || b == 0x0a || b == 0x0c || b == 0x0d
}

/// Position of the first white space of `data`, or its length.
pub open spec fn first_space(data: Seq<u8>) -> int
    decreases data.len(),
{
    if data.len() == 0 || is_space(data[0]) {
        0
    } else {
        1 + first_space(data.skip(1))
    }
}

/// The digest in a file like those of `sha256sum`: a hash followed by a space and a file name.
pub open spec fn sum_digest(data: Seq<u8>) -> Option<DigestView> {
    match digest_bytes(data.take(first_space(data))) {
        Some(bytes) => Some(DigestView::Sha256(bytes)),
        None => None,
    }
}

/// What to do with a text that gives a digest.
pub enum Lookup {
    /// It is an `https:` URL: fetch it.
    Fetch,
    /// It is the digest itself.
    Parsed(Result<Digest, DigestError>),
}

// ---------------------------------------------------------------------------------------------
// Lemmas

/// Symbols are told apart, and none is the padding.
proof fn lemma_symbols(a: int, b: int, url_safe: bool)
    requires
        0 <= a < 64,
        0 <= b < 64,
    ensures
        outside::base64_symbol(a, url_safe) == outside::base64_symbol(b, url_safe) ==> a == b,
        outside::base64_symbol(a, url_safe) != 0x3d,
{
}

/// Two numbers are equal if their quotients are, and their remainders, each of them before another
/// digit.
proof fn lemma_split(a: int, b: int, x: int, y: int, divisor: int, base: int)
    requires
        (divisor == 4 && base == 16) || (divisor == 16 && base == 4),
        0 <= x < base,
        0 <= y < base,
        a / divisor == b / divisor,
        a % divisor * base + x == b % divisor * base + y,
    ensures
        a == b,
        x == y,
{
    if divisor == 4 {
        assert(a % 4 == b % 4);
    } else {
        assert(a % 16 == b % 16);
    }
}

/// Different bytes have different encodings.
pub proof fn lemma_base64_injective(a: Seq<u8>, b: Seq<u8>, url_safe: bool)
    requires
        outside::base64_encoded(a, url_safe) == outside::base64_encoded(b, url_safe),
    ensures
        a == b,
    decreases a.len(),
{
    let ea = outside::base64_encoded(a, url_safe);
    let eb = outside::base64_encoded(b, url_safe);
    lemma_base64_len(a, url_safe);
    lemma_base64_len(b, url_safe);
    if a.len() == 0 || b.len() == 0 {
        assert(a =~= b);
    } else {
        assert(ea[0] == eb[0] && ea[1] == eb[1] && ea[2] == eb[2] && ea[3] == eb[3]);
        let a1 = if a.len() > 1 {
            a[1] as int
        } else {
            0
        };
        let a2 = if a.len() > 2 {
            a[2] as int
        } else {
            0
        };
        let b1 = if b.len() > 1 {
            b[1] as int
        } else {
            0
        };
        let b2 = if b.len() > 2 {
            b[2] as int
        } else {
            0
        };
        lemma_symbols(a[0] as int / 4, b[0] as int / 4, url_safe);
        lemma_symbols(a[0] as int % 4 * 16 + a1 / 16, b[0] as int % 4 * 16 + b1 / 16, url_safe);
        lemma_symbols(a1 % 16 * 4 + a2 / 64, b1 % 16 * 4 + b2 / 64, url_safe);
        lemma_symbols(b1 % 16 * 4 + b2 / 64, a1 % 16 * 4 + a2 / 64, url_safe);
        lemma_symbols(a2 % 64, b2 % 64, url_safe);
        lemma_symbols(b2 % 64, a2 % 64, url_safe);
        lemma_split(a[0] as int, b[0] as int, a1 / 16, b1 / 16, 4, 16);
        assert(a[0] == b[0]);
        assert(a.len() > 1 <==> b.len() > 1);
        assert(a.len() > 2 <==> b.len() > 2);
        lemma_split(a1, b1, a2 / 64, b2 / 64, 16, 4);
        assert(a1 == b1);
        assert(a2 == b2);
        if a.len() > 3 {
            let ra = outside::base64_encoded(a.skip(3), url_safe);
            assert(ea.skip(4) == ra);
            if b.len() > 3 {
                let rb = outside::base64_encoded(b.skip(3), url_safe);
                assert(eb.skip(4) == rb);
                lemma_base64_injective(a.skip(3), b.skip(3), url_safe);
                assert(a == seq![a[0], a[1], a[2]] + a.skip(3));
                assert(b == seq![b[0], b[1], b[2]] + b.skip(3));
            } else {
                lemma_base64_len(a.skip(3), url_safe);
            }
        } else {
            if b.len() > 3 {
                lemma_base64_len(b.skip(3), url_safe);
            }
            assert(a =~= b);
        }
    }
}

/// Four symbols for each three bytes, the last of which may be missing.
pub proof fn lemma_base64_len(bytes: Seq<u8>, url_safe: bool)
    ensures
        outside::base64_encoded(bytes, url_safe).len() == (bytes.len() + 2) / 3 * 4,
    decreases bytes.len(),
{
    if bytes.len() > 3 {
        lemma_base64_len(bytes.skip(3), url_safe);
    }
}

proof fn lemma_first_space(data: Seq<u8>, at: int)
    requires
        0 <= at <= data.len(),
        forall|j: int| 0 <= j < at ==> !is_space(#[trigger] data[j]),
        at < data.len() ==> is_space(data[at]),
    ensures
        first_space(data) == at,
    decreases data.len(),
{
    if at > 0 {
        assert forall|j: int| 0 <= j < at - 1 implies !is_space(#[trigger] data.skip(1)[j]) by {
            assert(data.skip(1)[j] == data[j + 1]);
        }
        lemma_first_space(data.skip(1), at - 1);
    }
}

// ---------------------------------------------------------------------------------------------
// Parsing

/// Whether `data` uses the URL-safe base64 alphabet.
fn uses_url_safe(data: &[u8]) -> (yes: bool)
    ensures
        yes == is_url_safe(data@),
{
    let mut i: usize = 0;
    while i < data.len()
        invariant
            i <= data@.len(),
            forall|j: int| 0 <= j < i ==> data@[j] != 0x2d && data@[j] != 0x5f,
        decreases data@.len() - i,
    {
        if data[i] == 0x2d || data[i] == 0x5f {
            assert(data@.contains(data@[i as int]));
            return true;
        }
        i += 1;
    }
    false
}

/// Whether two hashes are the same.
fn same_bytes(a: &[u8; 32], b: &[u8; 32]) -> (same: bool)
    ensures
        same == (a@ == b@),
{
    let mut i: usize = 0;
    while i < 32
        invariant
            i <= 32,
            forall|j: int| 0 <= j < i ==> a@[j] == b@[j],
        decreases 32 - i,
    {
        if a[i] != b[i] {
            return false;
        }
        i += 1;
    }
    assert(a@ == b@);
    true
}

impl Digest {
    /// Whether two digests are the same.
    pub fn same_as(&self, other: &Digest) -> (same: bool)
        ensures
            same == (self@ == other@),
    {
        match (self, other) {
            (Digest::Sha256(a), Digest::Sha256(b)) => same_bytes(a, b),
            (Digest::Blake3(a), Digest::Blake3(b)) => same_bytes(a, b),
            _ => false,
        }
    }

    /// Says whether `s` is an `https:` URL whose contents give the digest. Otherwise, expects a
    /// `sha256:` or `blake3:` scheme followed by either a hexadecimal or base64 hash.
    pub fn look_up(s: &str) -> (lookup: Lookup)
        ensures
            match lookup {
                Lookup::Fetch => "https:"@.is_prefix_of(s@),
                Lookup::Parsed(Ok(digest)) => !"https:"@.is_prefix_of(s@) && read_digest(s@, ""@)
                    == Ok::<DigestView, DigestErrorView>(digest@),
                Lookup::Parsed(Err(error)) => !"https:"@.is_prefix_of(s@) && read_digest(s@, ""@)
                    == Err::<DigestView, DigestErrorView>(error@),
            },
    {
        if text::starts_with(s, "https:") {
            Lookup::Fetch
        } else {
            Lookup::Parsed(Digest::parse(s, ""))
        }
    }

    /// Reads the digest in a file like those of `sha256sum`: a hash followed by a space and a file
    /// name.
    pub fn parse_sum(data: &[u8]) -> (digest: Option<Digest>)
        ensures
            match digest {
                Some(digest) => sum_digest(data@) == Some(digest@),
                None => sum_digest(data@) is None,
            },
    {
        let mut end: usize = 0;
        while end < data.len() && !(data[end] == 0x20 || data[end] == 0x09 || data[end] == 0x0a
            || data[end] == 0x0c || data[end] == 0x0d)
            invariant
                end <= data@.len(),
                forall|j: int| 0 <= j < end ==> !is_space(#[trigger] data@[j]),
            decreases data@.len() - end,
        {
            end += 1;
        }
        proof {
            lemma_first_space(data@, end as int);
            assert(data@.subrange(0, end as int) == data@.take(end as int));
        }
        match Digest::parse_digest_bytes(slice_subrange(data, 0, end)) {
            Some(bytes) => Some(Digest::Sha256(bytes)),
            None => None,
        }
    }

    /// Parses a `<algo>:<hash>` or `<algo>-<hash>` string from `data`, with `<algo>` `sha256` or
    /// `blake3`. If `algo` is not empty, `data` is only the hash.
    pub fn parse(data: &str, algo: &str) -> (digest: Result<Digest, DigestError>)
        ensures
            match digest {
                Ok(digest) => read_digest(data@, algo@) == Ok::<DigestView, DigestErrorView>(
                    digest@,
                ),
                Err(error) => read_digest(data@, algo@) == Err::<DigestView, DigestErrorView>(
                    error@,
                ),
            },
    {
        let (algo, data) = if algo.is_empty() {
            match text::split_once(data, &[':', '-']) {
                Some((algo, hash)) => {
                    proof {
                        text::lemma_first_of_bounds(data@, seq![':', '-']);
                    }
                    (algo, hash)
                },
                None => {
                    return Err(DigestError::Unknown(data.to_owned()));
                },
            }
        } else {
            (algo, data)
        };
        let sha256: bool = text::same(algo, "sha256");
        if !sha256 && !text::same(algo, "blake3") {
            return Err(DigestError::UnknownAlgorithm(algo.to_owned()));
        }
        match Digest::parse_digest_bytes(data.as_bytes()) {
            Some(bytes) => if sha256 {
                Ok(Digest::Sha256(bytes))
            } else {
                Ok(Digest::Blake3(bytes))
            },
            None => Err(DigestError::Invalid(data.to_owned())),
        }
    }

    /// Parses the digest data from either hex or base64.
    pub fn parse_digest_bytes(data: &[u8]) -> (bytes: Option<[u8; 32]>)
        ensures
            match bytes {
                Some(bytes) => digest_bytes(data@) == Some(bytes@),
                None => digest_bytes(data@) is None,
            },
    {
        match data.len() {
            64 => outside::hash_from_hex(data),
            43 | 44 => {
                let url_safe: bool = uses_url_safe(data);
                let mut bytes: [u8; 32] = [0u8; 32];
                let ghost zeros = bytes@;
                let count: Option<usize> = if url_safe {
                    outside::decode_base64_url(data, &mut bytes)
                } else {
                    outside::decode_base64(data, &mut bytes)
                };
                match count {
                    Some(count) => {
                        proof {
                            let found = bytes@.take(count as int);
                            assert(found.len() <= 32);
                            assert(data@ == outside::base64_encoded(found, is_url_safe(data@)));
                            lemma_base64_injective(
                                base64_bytes(data@)->0,
                                found,
                                is_url_safe(data@),
                            );
                            assert(bytes@ == found + bytes@.skip(count as int));
                            assert(bytes@ == padded(found));
                        }
                        Some(bytes)
                    },
                    None => None,
                }
            },
            _ => None,
        }
    }
}

// ---------------------------------------------------------------------------------------------
// Laws

/// A hash with its algorithm given apart is the same digest as with the algorithm written before
/// it: `sha256=<hash>` is `digest=sha256:<hash>`, and likewise with `blake3` and with `-`.
pub proof fn algorithm_may_be_a_prefix(hash: Seq<char>)
    ensures
        read_digest("sha256:"@ + hash, ""@) == read_digest(hash, "sha256"@),
        read_digest("blake3:"@ + hash, ""@) == read_digest(hash, "blake3"@),
        read_digest("sha256-"@ + hash, ""@) == read_digest(hash, "sha256"@),
        read_digest("blake3-"@ + hash, ""@) == read_digest(hash, "blake3"@),
{
    assert(""@ == Seq::<char>::empty()) by {
        reveal_strlit("");
    }
    assert forall|i: int| 0 <= i < "sha256"@.len() implies #[trigger] "sha256"@[i] != ':'
        && "sha256"@[i] != '-' by {
        reveal_strlit("sha256");
    }
    assert forall|i: int| 0 <= i < "blake3"@.len() implies #[trigger] "blake3"@[i] != ':'
        && "blake3"@[i] != '-' by {
        reveal_strlit("blake3");
    }
    assert("sha256"@.len() == 6) by {
        reveal_strlit("sha256");
    }
    assert("blake3"@.len() == 6) by {
        reveal_strlit("blake3");
    }
    assert("sha256:"@ == "sha256"@.push(':')) by {
        reveal_strlit("sha256");
        reveal_strlit("sha256:");
    }
    assert("blake3:"@ == "blake3"@.push(':')) by {
        reveal_strlit("blake3");
        reveal_strlit("blake3:");
    }
    assert("sha256-"@ == "sha256"@.push('-')) by {
        reveal_strlit("sha256");
        reveal_strlit("sha256-");
    }
    assert("blake3-"@ == "blake3"@.push('-')) by {
        reveal_strlit("blake3");
        reveal_strlit("blake3-");
    }
    lemma_prefixed(hash, "sha256"@, ':');
    lemma_prefixed(hash, "blake3"@, ':');
    lemma_prefixed(hash, "sha256"@, '-');
    lemma_prefixed(hash, "blake3"@, '-');
}

proof fn lemma_prefixed(hash: Seq<char>, algo: Seq<char>, sep: char)
    requires
        sep == ':' || sep == '-',
        algo.len() > 0,
        forall|i: int| 0 <= i < algo.len() ==> #[trigger] algo[i] != ':' && algo[i] != '-',
    ensures
        read_digest(algo.push(sep) + hash, Seq::empty()) == read_digest(hash, algo),
{
    let data = algo.push(sep) + hash;
    let seps = seq![':', '-'];
    assert(seps[0] == ':' && seps[1] == '-');
    assert(seps.contains(sep));
    assert forall|j: int| 0 <= j < algo.len() implies !seps.contains(#[trigger] data[j]) by {
        assert(data[j] == algo[j]);
    }
    text::lemma_first_of(data, seps, algo.len() as int);
    assert(data.take(algo.len() as int) == algo);
    assert(data.skip(algo.len() as int + 1) == hash);
}

/// The hexadecimal digits of 32 bytes are read back as these bytes.
pub proof fn hex_is_read_back(bytes: Seq<u8>)
    requires
        bytes.len() == 32,
    ensures
        digest_bytes(encode_utf8(text::hex(bytes))) == Some(bytes),
{
    let digits = text::hex(bytes);
    text::lemma_hex_len(bytes);
    assert forall|i: int| 0 <= i < 32 implies {
        &&& digits[2 * i] == #[trigger] text::hex_digit(bytes[i] as int / 16)
        &&& digits[2 * i + 1] == text::hex_digit(bytes[i] as int % 16)
    } by {
        text::lemma_hex_digits(bytes, i);
    }
    assert forall|k: int| 0 <= k < 64 implies #[trigger] digits[k] == text::hex_digit(
        if k % 2 == 0 {
            bytes[k / 2] as int / 16
        } else {
            bytes[k / 2] as int % 16
        },
    ) by {
        text::lemma_hex_digits(bytes, k / 2);
    }
    assert(vstd::utf8::is_ascii_chars(digits));
    vstd::utf8::is_ascii_chars_encode_utf8(digits);
    let data = encode_utf8(digits);
    assert forall|k: int| 0 <= k < 64 implies outside::hex_value(#[trigger] data[k]) == Some(
        if k % 2 == 0 {
            bytes[k / 2] as int / 16
        } else {
            bytes[k / 2] as int % 16
        },
    ) by {
        assert(data[k] == digits[k] as u8);
    }
    let read = outside::hex_bytes(data)->0;
    assert forall|i: int| 0 <= i < 32 implies #[trigger] read[i] == bytes[i] by {
        assert(outside::hex_value(data[2 * i]) == Some(bytes[i] as int / 16));
        assert(outside::hex_value(data[2 * i + 1]) == Some(bytes[i] as int % 16));
    }
    assert(read =~= bytes);
}

/// A hash of 32 bytes in hexadecimal is read as the digest of these bytes, of the given algorithm.
pub proof fn written_hash_is_read(bytes: Seq<u8>)
    requires
        bytes.len() == 32,
    ensures
        read_digest(text::hex(bytes), "sha256"@) == Ok::<DigestView, DigestErrorView>(
            DigestView::Sha256(bytes),
        ),
        read_digest(text::hex(bytes), "blake3"@) == Ok::<DigestView, DigestErrorView>(
            DigestView::Blake3(bytes),
        ),
{
    hex_is_read_back(bytes);
    reveal_strlit("sha256");
    reveal_strlit("blake3");
    assert("sha256"@[0] == 's' && "blake3"@[0] == 'b');
}

/// The base64 encoding of 32 bytes, in either alphabet, is read back as these bytes.
pub proof fn base64_is_read_back(bytes: Seq<u8>, url_safe: bool)
    requires
        bytes.len() == 32,
    ensures
        digest_bytes(outside::base64_encoded(bytes, url_safe)) == Some(bytes),
{
    let data = outside::base64_encoded(bytes, url_safe);
    lemma_base64_len(bytes, url_safe);
    lemma_alphabets(bytes, url_safe);
    assert(data == outside::base64_encoded(bytes, is_url_safe(data)));
    lemma_base64_injective(base64_bytes(data)->0, bytes, is_url_safe(data));
    assert(padded(bytes) =~= bytes);
}

/// An encoding without `-` and `_` is the same in both alphabets, and that of the standard
/// alphabet has neither.
proof fn lemma_alphabets(bytes: Seq<u8>, url_safe: bool)
    ensures
        outside::base64_encoded(bytes, url_safe) == outside::base64_encoded(
            bytes,
            is_url_safe(outside::base64_encoded(bytes, url_safe)),
        ),
    decreases bytes.len(),
{
    let data = outside::base64_encoded(bytes, url_safe);
    if !url_safe {
        lemma_standard(bytes);
    } else if !is_url_safe(data) {
        lemma_plain(bytes);
    }
}

proof fn lemma_standard(bytes: Seq<u8>)
    ensures
        !is_url_safe(outside::base64_encoded(bytes, false)),
    decreases bytes.len(),
{
    if bytes.len() > 0 {
        let data = outside::base64_encoded(bytes, false);
        assert forall|k: int| 0 <= k < data.len() implies #[trigger] data[k] != 0x2d && data[k]
            != 0x5f by {
            if k >= 4 {
                lemma_standard(bytes.skip(3));
                let rest = outside::base64_encoded(bytes.skip(3), false);
                assert(data[k] == rest[k - 4]);
                assert(rest.contains(rest[k - 4]));
            }
        }
    }
}

proof fn lemma_plain(bytes: Seq<u8>)
    requires
        !is_url_safe(outside::base64_encoded(bytes, true)),
    ensures
        outside::base64_encoded(bytes, true) == outside::base64_encoded(bytes, false),
    decreases bytes.len(),
{
    let data = outside::base64_encoded(bytes, true);
    if bytes.len() > 0 {
        assert forall|k: int| 0 <= k < data.len() implies #[trigger] data[k] != 0x2d && data[k]
            != 0x5f by {
            assert(data.contains(data[k]));
        }
        assert(data[0] != 0x2d && data[1] != 0x2d && data[2] != 0x2d && data[3] != 0x2d);
        if bytes.len() > 3 {
            let rest = outside::base64_encoded(bytes.skip(3), true);
            assert forall|k: int| 0 <= k < rest.len() implies #[trigger] rest[k] != 0x2d && rest[k]
                != 0x5f by {
                assert(data[k + 4] == rest[k]);
            }
            lemma_plain(bytes.skip(3));
        }
        assert(data =~= outside::base64_encoded(bytes, false));
    }
}

/// A digest always has 32 bytes.
pub proof fn digests_have_32_bytes(data: Seq<char>, algo: Seq<char>)
    ensures
        read_digest(data, algo) matches Ok(digest) ==> match digest {
            DigestView::Sha256(bytes) => bytes.len() == 32,
            DigestView::Blake3(bytes) => bytes.len() == 32,
        },
{
}

/// A digest needs an algorithm, and only `sha256` and `blake3` are known.
pub proof fn algorithms_are_needed(data: Seq<char>, algo: Seq<char>)
    ensures
        algo.len() > 0 && algo != "sha256"@ && algo != "blake3"@ ==> read_digest(data, algo)
            == Err::<DigestView, DigestErrorView>(DigestErrorView::UnknownAlgorithm(algo)),
        !data.contains(':') && !data.contains('-') ==> read_digest(data, Seq::empty()) == Err::<
            DigestView,
            DigestErrorView,
        >(DigestErrorView::Unknown(data)),
{
    if !data.contains(':') && !data.contains('-') {
        let seps = seq![':', '-'];
        assert forall|j: int| 0 <= j < data.len() implies !seps.contains(#[trigger] data[j]) by {
            assert(data.contains(data[j]));
        }
        text::lemma_first_of(data, seps, data.len() as int);
    }
}

/// A hash of any other length is no digest.
pub proof fn hashes_have_their_length(data: Seq<char>, algo: Seq<char>)
    requires
        algo == "sha256"@ || algo == "blake3"@,
        encode_utf8(data).len() != 64,
        encode_utf8(data).len() != 44,
    ensures
        read_digest(data, algo) == Err::<DigestView, DigestErrorView>(
            DigestErrorView::Invalid(data),
        ),
{
    reveal_strlit("sha256");
    reveal_strlit("blake3");
    let bytes = encode_utf8(data);
    if bytes.len() == 43 && base64_bytes(bytes) is Some {
        lemma_base64_len(base64_bytes(bytes)->0, is_url_safe(bytes));
    }
}

/// What was fetched from a file like those of `sha256sum` is the SHA-256 digest whose hash it starts
/// with, up to the first white space.
pub proof fn sums_are_read(bytes: Seq<u8>, space: u8, rest: Seq<u8>)
    requires
        bytes.len() == 32,
        space == 0x20 || space == 0x09 || space == 0x0a || space == 0x0c || space == 0x0d,
    ensures
        sum_digest(encode_utf8(text::hex(bytes)) + seq![space] + rest) == Some(
            DigestView::Sha256(bytes),
        ),
        sum_digest(encode_utf8(text::hex(bytes))) == Some(DigestView::Sha256(bytes)),
{
    hex_is_read_back(bytes);
    let hash = encode_utf8(text::hex(bytes));
    lemma_hex_has_no_space(bytes);
    let data = hash + seq![space] + rest;
    assert forall|j: int| 0 <= j < hash.len() implies !is_space(#[trigger] data[j]) by {
        assert(data[j] == hash[j]);
    }
    assert(data[hash.len() as int] == space);
    lemma_first_space(data, hash.len() as int);
    assert(data.take(hash.len() as int) == hash);
    lemma_first_space(hash, hash.len() as int);
    assert(hash.take(hash.len() as int) == hash);
}

/// Hexadecimal digits are no white space.
proof fn lemma_hex_has_no_space(bytes: Seq<u8>)
    ensures
        forall|j: int|
            0 <= j < encode_utf8(text::hex(bytes)).len() ==> !is_space(
                #[trigger] encode_utf8(text::hex(bytes))[j],
            ),
{
    let digits = text::hex(bytes);
    lemma_hex_is_plain(bytes);
    assert(vstd::utf8::is_ascii_chars(digits));
    vstd::utf8::is_ascii_chars_encode_utf8(digits);
    assert forall|j: int| 0 <= j < encode_utf8(digits).len() implies !is_space(
        #[trigger] encode_utf8(digits)[j],
    ) by {
        assert(encode_utf8(digits)[j] == digits[j] as u8);
    }
}

proof fn lemma_hex_is_plain(bytes: Seq<u8>)
    ensures
        forall|j: int|
            0 <= j < text::hex(bytes).len() ==> '0' <= #[trigger] text::hex(bytes)[j]
                && text::hex(bytes)[j] <= 'f',
    decreases bytes.len(),
{
    if bytes.len() > 0 {
        lemma_hex_is_plain(bytes.drop_last());
        let rest = text::hex(bytes.drop_last());
        assert forall|j: int| 0 <= j < text::hex(bytes).len() implies '0' <= #[trigger] text::hex(
            bytes,
        )[j] && text::hex(bytes)[j] <= 'f' by {
            if j < rest.len() {
                assert(text::hex(bytes)[j] == rest[j]);
            }
        }
    }
}

/// 64 characters are read as hexadecimal, and as nothing else.
pub proof fn long_hashes_are_hexadecimal(data: Seq<u8>)
    requires
        data.len() == 64,
    ensures
        digest_bytes(data) == outside::hex_bytes(data),
{
}

/// Other hashes are read as the base64 encoding of 32 bytes, or of 31 which a zero follows, in either
/// alphabet, and as nothing else.
pub proof fn short_hashes_are_base64(data: Seq<u8>, hash: Seq<u8>)
    requires
        data.len() != 64,
        digest_bytes(data) == Some(hash),
    ensures
        exists|bytes: Seq<u8>, url_safe: bool|
            data == #[trigger] outside::base64_encoded(bytes, url_safe) && (hash == bytes || hash
                == bytes.push(0u8)) && hash.len() == 32,
{
    let bytes = base64_bytes(data)->0;
    let url_safe = is_url_safe(data);
    assert(data == outside::base64_encoded(bytes, url_safe));
    lemma_base64_len(bytes, url_safe);
    if bytes.len() == 32 {
        assert(padded(bytes) =~= bytes);
    } else {
        assert(bytes.len() == 31);
        assert(padded(bytes) =~= bytes.push(0u8));
    }
}

/// The base64 encoding of 31 bytes, in either alphabet, is read as these bytes and a zero.
pub proof fn short_base64_is_padded(bytes: Seq<u8>, url_safe: bool)
    requires
        bytes.len() == 31,
    ensures
        digest_bytes(outside::base64_encoded(bytes, url_safe)) == Some(bytes.push(0u8)),
{
    let data = outside::base64_encoded(bytes, url_safe);
    lemma_base64_len(bytes, url_safe);
    lemma_alphabets(bytes, url_safe);
    assert(data == outside::base64_encoded(bytes, is_url_safe(data)));
    lemma_base64_injective(base64_bytes(data)->0, bytes, is_url_safe(data));
    assert(padded(bytes) =~= bytes.push(0u8));
}

} // verus!
