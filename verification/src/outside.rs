//! What the library takes unproved from other crates and from the standard library.

use base64::Engine;
use bytes::Buf;
use vstd::prelude::*;

verus! {

// ---------------------------------------------------------------------------------------------
// Hexadecimal

/// The value of a hexadecimal digit, in upper or lower case.
pub open spec fn hex_value(b: u8) -> Option<int> {
    if 0x30 <= b <= 0x39 {
        Some(b - 0x30)
    } else if 0x41 <= b <= 0x46 {
        Some(b - 0x41 + 10)
    } else if 0x61 <= b <= 0x66 {
        Some(b - 0x61 + 10)
    } else {
        None
    }
}

/// The 32 bytes that 64 hexadecimal digits write, high digit first.
pub open spec fn hex_bytes(digits: Seq<u8>) -> Option<Seq<u8>> {
    if digits.len() == 64 && (forall|i: int|
        0 <= i < 64 ==> hex_value(#[trigger] digits[i]) is Some) {
        Some(
            Seq::new(
                32,
                |i: int|
                    (16 * hex_value(digits[2 * i])->0 + hex_value(digits[2 * i + 1])->0) as u8,
            ),
        )
    } else {
        None
    }
}

/// `blake3::Hash::from_hex`, with the hash as its 32 bytes. It reads exactly 64 hexadecimal
/// digits, in upper or lower case, high digit first, and fails on anything else.
#[verifier::external_body]
pub(crate) fn hash_from_hex(digits: &[u8]) -> (bytes: Option<[u8; 32]>)
    ensures
        match bytes {
            Some(bytes) => hex_bytes(digits@) == Some(bytes@),
            None => hex_bytes(digits@) is None,
        },
{
    match blake3::Hash::from_hex(digits) {
        Ok(hash) => Some(*hash.as_bytes()),
        Err(_) => None,
    }
}

// ---------------------------------------------------------------------------------------------
// Base64

/// The base64 symbol of a 6-bit value, in the standard or in the URL-safe alphabet.
pub open spec fn base64_symbol(value: int, url_safe: bool) -> u8 {
    if value < 26 {
        (0x41 + value) as u8
    } else if value < 52 {
        (0x61 + value - 26) as u8
    } else if value < 62 {
        (0x30 + value - 52) as u8
    } else if value == 62 {
        if url_safe {
            0x2d
        } else {
            0x2b
        }
    } else {
        if url_safe {
            0x5f
        } else {
            0x2f
        }
    }
}

/// The canonical base64 encoding of `bytes` (RFC 4648), with padding.
pub open spec fn base64_encoded(bytes: Seq<u8>, url_safe: bool) -> Seq<u8>
    decreases bytes.len(),
{
    let b0 = bytes[0] as int;
    let b1 = if bytes.len() > 1 {
        bytes[1] as int
    } else {
        0
    };
    let b2 = if bytes.len() > 2 {
        bytes[2] as int
    } else {
        0
    };
    if bytes.len() == 0 {
        seq![]
    } else {
        let quad = seq![
            base64_symbol(b0 / 4, url_safe),
            base64_symbol(b0 % 4 * 16 + b1 / 16, url_safe),
            if bytes.len() > 1 {
                base64_symbol(b1 % 16 * 4 + b2 / 64, url_safe)
            } else {
                0x3d
            },
            if bytes.len() > 2 {
                base64_symbol(b2 % 64, url_safe)
            } else {
                0x3d
            },
        ];
        if bytes.len() <= 3 {
            quad
        } else {
            quad + base64_encoded(bytes.skip(3), url_safe)
        }
    }
}

/// What decoding `data` into `before` has done to it: on success the first `count` bytes are those
/// of which `data` is the canonical encoding and the others are untouched; it fails on all that is
/// not the canonical encoding of bytes for which there is room.
pub open spec fn base64_decodes(
    data: Seq<u8>,
    url_safe: bool,
    before: Seq<u8>,
    after: Seq<u8>,
    count: Option<usize>,
) -> bool {
    &&& after.len() == before.len()
    &&& match count {
        Some(count) => {
            &&& count <= before.len()
            &&& data == base64_encoded(after.take(count as int), url_safe)
            &&& after.skip(count as int) == before.skip(count as int)
        },
        None => forall|bytes: Seq<u8>|
            bytes.len() <= before.len() ==> data != #[trigger] base64_encoded(bytes, url_safe),
    }
}

/// `base64::Engine::decode_slice` of the engine `STANDARD`, whose alphabet has `+` and `/`, which
/// requires canonical padding and refuses trailing bits. Returns the number of bytes written.
#[verifier::external_body]
pub(crate) fn decode_base64(data: &[u8], out: &mut [u8]) -> (count: Option<usize>)
    ensures
        base64_decodes(data@, false, old(out)@, final(out)@, count),
{
    base64::engine::general_purpose::STANDARD.decode_slice(data, out).ok()
}

/// `base64::Engine::decode_slice` of the engine `URL_SAFE`, whose alphabet has `-` and `_`, which
/// requires canonical padding and refuses trailing bits. Returns the number of bytes written.
#[verifier::external_body]
pub(crate) fn decode_base64_url(data: &[u8], out: &mut [u8]) -> (count: Option<usize>)
    ensures
        base64_decodes(data@, true, old(out)@, final(out)@, count),
{
    base64::engine::general_purpose::URL_SAFE.decode_slice(data, out).ok()
}

// ---------------------------------------------------------------------------------------------
// Quoting

/// The `Debug` form of a text: between double quotes, with the escapes of Rust.
pub uninterp spec fn quoted(s: Seq<char>) -> Seq<char>;

/// The `Debug` form of a `str` in the standard library.
#[verifier::external_body]
pub(crate) fn quote(s: &str) -> (text: String)
    ensures
        text@ == quoted(s@),
{
    format!("{s:?}")
}

/// A text with the escapes of Rust, without quotes.
pub uninterp spec fn escaped(s: Seq<char>) -> Seq<char>;

/// `str::escape_debug` in the standard library.
#[verifier::external_body]
pub(crate) fn escape(s: &str) -> (text: String)
    ensures
        text@ == escaped(s@),
{
    s.escape_debug().to_string()
}

// ---------------------------------------------------------------------------------------------
// URLs

/// A URL in its normal form, if the text is an absolute URL.
pub uninterp spec fn normal_url(s: Seq<char>) -> Option<Seq<char>>;

/// `reqwest::Url::parse`, with the URL as its text (`reqwest::Url::as_str`).
#[verifier::external_body]
pub(crate) fn parse_url(s: &str) -> (url: Option<String>)
    ensures
        match url {
            Some(url) => normal_url(s@) == Some(url@),
            None => normal_url(s@) is None,
        },
{
    match reqwest::Url::parse(s) {
        Ok(url) => Some(url.as_str().to_owned()),
        Err(_) => None,
    }
}

/// The path of a URL, if the text is an absolute URL.
pub uninterp spec fn path_of_url(s: Seq<char>) -> Option<Seq<char>>;

/// `reqwest::Url::path`, of the URL that `reqwest::Url::parse` makes of a text.
#[verifier::external_body]
pub(crate) fn url_path(s: &str) -> (path: Option<String>)
    ensures
        match path {
            Some(path) => path_of_url(s@) == Some(path@),
            None => path_of_url(s@) is None,
        },
{
    match reqwest::Url::parse(s) {
        Ok(url) => Some(url.path().to_owned()),
        Err(_) => None,
    }
}

// ---------------------------------------------------------------------------------------------
// Hashing

/// `blake3::Hasher`.
#[verifier::external_type_specification]
#[verifier::external_body]
pub struct ExBlake3Hasher(blake3::Hasher);

/// The bytes that a BLAKE3 hasher was given, in order.
pub uninterp spec fn blake3_input(hasher: blake3::Hasher) -> Seq<u8>;

/// The BLAKE3 hash of some bytes.
pub uninterp spec fn blake3_digest(input: Seq<u8>) -> Seq<u8>;

/// `blake3::Hasher::new`: a hasher which was given nothing.
#[verifier::external_body]
pub(crate) fn new_blake3() -> (hasher: blake3::Hasher)
    ensures
        blake3_input(hasher) == Seq::<u8>::empty(),
{
    blake3::Hasher::new()
}

/// `blake3::Hasher::update`: gives more bytes to a hasher. It counts them in a `u64`, which must
/// not overflow.
#[verifier::external_body]
pub(crate) fn update_blake3(hasher: &mut blake3::Hasher, bytes: &[u8])
    requires
        blake3_input(*old(hasher)).len() + bytes@.len() <= u64::MAX,
    ensures
        blake3_input(*final(hasher)) == blake3_input(*old(hasher)) + bytes@,
{
    hasher.update(bytes);
}

/// `blake3::Hasher::finalize`, with the hash as its 32 bytes: the hash of all the bytes that the
/// hasher was given, however they were split. It panics if `blake3::hazmat` was used to move the
/// hasher from the start of its input, which nothing here does.
#[verifier::external_body]
pub(crate) fn finalize_blake3(hasher: &blake3::Hasher) -> (hash: [u8; 32])
    ensures
        hash@ == blake3_digest(blake3_input(*hasher)),
{
    *hasher.finalize().as_bytes()
}

/// `hmac_sha256::Hash`.
#[verifier::external_type_specification]
#[verifier::external_body]
pub struct ExSha256Hasher(hmac_sha256::Hash);

/// The bytes that a SHA-256 hasher was given, in order.
pub uninterp spec fn sha256_input(hasher: hmac_sha256::Hash) -> Seq<u8>;

/// The SHA-256 hash of some bytes.
pub uninterp spec fn sha256_digest(input: Seq<u8>) -> Seq<u8>;

/// `hmac_sha256::Hash::new`: a hasher which was given nothing.
#[verifier::external_body]
pub(crate) fn new_sha256() -> (hasher: hmac_sha256::Hash)
    ensures
        sha256_input(hasher) == Seq::<u8>::empty(),
{
    hmac_sha256::Hash::new()
}

/// `hmac_sha256::Hash::update`: gives more bytes to a hasher. It counts them in a `usize`, which
/// must not overflow.
#[verifier::external_body]
pub(crate) fn update_sha256(hasher: &mut hmac_sha256::Hash, bytes: &[u8])
    requires
        sha256_input(*old(hasher)).len() + bytes@.len() <= usize::MAX,
    ensures
        sha256_input(*final(hasher)) == sha256_input(*old(hasher)) + bytes@,
{
    hasher.update(bytes);
}

/// `hmac_sha256::Hash::finalize`: the hash of all the bytes that the hasher was given, however
/// they were split. It counts their bits in a `usize`, which must not overflow.
#[verifier::external_body]
pub(crate) fn finalize_sha256(hasher: hmac_sha256::Hash) -> (hash: [u8; 32])
    requires
        sha256_input(hasher).len() * 8 <= usize::MAX,
    ensures
        hash@ == sha256_digest(sha256_input(hasher)),
{
    hasher.finalize()
}

// ---------------------------------------------------------------------------------------------
// Buffers

/// `bytes::Bytes`.
#[verifier::external_type_specification]
#[verifier::external_body]
pub struct ExBytes(bytes::Bytes);

/// The bytes in a buffer.
pub uninterp spec fn held(buffer: bytes::Bytes) -> Seq<u8>;

/// `bytes::Bytes::new`: an empty buffer.
#[verifier::external_body]
pub(crate) fn new_bytes() -> (buffer: bytes::Bytes)
    ensures
        held(buffer) == Seq::<u8>::empty(),
{
    bytes::Bytes::new()
}

/// `bytes::Bytes::copy_from_slice`: a buffer with a copy of the given bytes.
#[verifier::external_body]
pub(crate) fn copy_bytes(data: &[u8]) -> (buffer: bytes::Bytes)
    ensures
        held(buffer) == data@,
{
    bytes::Bytes::copy_from_slice(data)
}

/// `bytes::Bytes::deref`: the bytes in a buffer.
#[verifier::external_body]
pub(crate) fn bytes_in(buffer: &bytes::Bytes) -> (data: &[u8])
    ensures
        data@ == held(*buffer),
{
    buffer
}

/// `bytes::Buf::advance` of `bytes::Bytes`: drops the first `count` bytes of a buffer. There must
/// be as many.
#[verifier::external_body]
pub(crate) fn advance_bytes(buffer: &mut bytes::Bytes, count: usize)
    requires
        count <= held(*old(buffer)).len(),
    ensures
        held(*final(buffer)) == held(*old(buffer)).skip(count as int),
{
    buffer.advance(count);
}

// ---------------------------------------------------------------------------------------------
// Decompressing xz

/// `xz::stream::Stream`.
#[verifier::external_type_specification]
#[verifier::external_body]
pub struct ExXzStream(xz::stream::Stream);

/// `xz::stream::Error`.
#[verifier::external_type_specification]
#[verifier::external_body]
pub struct ExXzError(xz::stream::Error);

/// Why a decoder of xz could not be made: `xz::stream::Error`, as an enum of the library.
#[derive(Debug, Clone, Copy, PartialEq, Eq, Structural)]
pub enum XzError {
    Data,
    Options,
    Format,
    MemLimit,
    /// Memory couldn't be allocated.
    Mem,
    Program,
    NoCheck,
    UnsupportedCheck,
}

/// `xz::stream::Action`, as far as decoders have it.
#[derive(Clone, Copy)]
pub(crate) enum XzAction {
    Run,
    Finish,
}

/// `xz::stream::Status`.
#[derive(Clone, Copy)]
pub(crate) enum XzStatus {
    Done,
    StreamEnd,
    GetCheck,
    MemNeeded,
}

/// The memory limit and the flags with which an xz decoder was made, as long as no call failed.
pub uninterp spec fn xz_settings(stream: xz::stream::Stream) -> (u64, u32);

/// The calls that an xz decoder has had, in order: the input, the room for output, and whether
/// there is no more input.
pub uninterp spec fn xz_calls(stream: xz::stream::Stream) -> Seq<(Seq<u8>, nat, bool)>;

/// What the last of these calls did, if none of them failed: how many bytes of input it took, its
/// output, and whether it reached the end of the stream.
pub uninterp spec fn xz_outcome(settings: (u64, u32), calls: Seq<(Seq<u8>, nat, bool)>) -> (
    nat,
    Seq<u8>,
    bool,
);

/// How many bytes of input all the calls took.
pub open spec fn xz_taken(settings: (u64, u32), calls: Seq<(Seq<u8>, nat, bool)>) -> nat
    decreases calls.len(),
{
    if calls.len() == 0 {
        0
    } else {
        xz_taken(settings, calls.drop_last()) + xz_outcome(settings, calls).0
    }
}

/// How many bytes of output all the calls gave.
pub open spec fn xz_given(settings: (u64, u32), calls: Seq<(Seq<u8>, nat, bool)>) -> nat
    decreases calls.len(),
{
    if calls.len() == 0 {
        0
    } else {
        xz_given(settings, calls.drop_last()) + xz_outcome(settings, calls).1.len()
    }
}

/// `xz::stream::Stream::new_stream_decoder`, with its error as an enum of the library: a decoder
/// which has had no call. It fails only where memory couldn't be allocated, where there are flags,
/// as some may be unknown, or where the memory limit is zero, which old versions of liblzma refuse.
#[verifier::external_body]
pub(crate) fn new_xz(memlimit: u64, flags: u32) -> (stream: Result<xz::stream::Stream, XzError>)
    ensures
        match stream {
            Ok(stream) => {
                &&& xz_settings(stream) == (memlimit, flags)
                &&& xz_calls(stream) == Seq::<(Seq<u8>, nat, bool)>::empty()
            },
            Err(error) => match error {
                XzError::Mem => true,
                XzError::Options => flags != 0,
                XzError::Program => memlimit == 0,
                _ => false,
            },
        },
{
    match xz::stream::Stream::new_stream_decoder(memlimit, flags) {
        Ok(stream) => Ok(stream),
        Err(xz::stream::Error::Data) => Err(XzError::Data),
        Err(xz::stream::Error::Options) => Err(XzError::Options),
        Err(xz::stream::Error::Format) => Err(XzError::Format),
        Err(xz::stream::Error::MemLimit) => Err(XzError::MemLimit),
        Err(xz::stream::Error::Mem) => Err(XzError::Mem),
        Err(xz::stream::Error::Program) => Err(XzError::Program),
        Err(xz::stream::Error::NoCheck) => Err(XzError::NoCheck),
        Err(xz::stream::Error::UnsupportedCheck) => Err(XzError::UnsupportedCheck),
    }
}

/// `xz::stream::Stream::total_in`: how many bytes of input all the calls took, in 64 bits.
#[verifier::external_body]
pub(crate) fn xz_total_in(stream: &xz::stream::Stream) -> (count: u64)
    ensures
        count as int == xz_taken(xz_settings(*stream), xz_calls(*stream)) as int
            % 0x1_0000_0000_0000_0000,
{
    stream.total_in()
}

/// `xz::stream::Stream::total_out`: how many bytes of output all the calls gave, in 64 bits.
#[verifier::external_body]
pub(crate) fn xz_total_out(stream: &xz::stream::Stream) -> (count: u64)
    ensures
        count as int == xz_given(xz_settings(*stream), xz_calls(*stream)) as int
            % 0x1_0000_0000_0000_0000,
{
    stream.total_out()
}

/// `xz::stream::Stream::process`, with its status as an enum of the library. It takes the first
/// bytes of `input` and writes over the first bytes of `output`. Nothing is said of the bytes of
/// `output` after those. If it fails, nothing is said but that the decoder has had the call: whether
/// it fails depends on the input, but also on the memory there is, and on the filters and checks
/// with which liblzma was built.
#[verifier::external_body]
pub(crate) fn xz_process(
    stream: &mut xz::stream::Stream,
    input: &[u8],
    output: &mut [u8],
    action: XzAction,
) -> (status: Result<XzStatus, xz::stream::Error>)
    ensures
        final(output)@.len() == old(output)@.len(),
        xz_calls(*final(stream)) == xz_calls(*old(stream)).push(
            (input@, old(output)@.len(), action is Finish),
        ),
        match status {
            Ok(status) => {
                let outcome = xz_outcome(xz_settings(*old(stream)), xz_calls(*final(stream)));
                &&& xz_settings(*final(stream)) == xz_settings(*old(stream))
                &&& outcome.0 <= input@.len()
                &&& outcome.1.len() <= old(output)@.len()
                &&& final(output)@.take(outcome.1.len() as int) == outcome.1
                &&& outcome.2 == (status is StreamEnd)
            },
            Err(_) => true,
        },
{
    let action = match action {
        XzAction::Run => xz::stream::Action::Run,
        XzAction::Finish => xz::stream::Action::Finish,
    };
    match stream.process(input, output, action) {
        Ok(xz::stream::Status::Ok) => Ok(XzStatus::Done),
        Ok(xz::stream::Status::StreamEnd) => Ok(XzStatus::StreamEnd),
        Ok(xz::stream::Status::GetCheck) => Ok(XzStatus::GetCheck),
        Ok(xz::stream::Status::MemNeeded) => Ok(XzStatus::MemNeeded),
        Err(error) => Err(error),
    }
}

// ---------------------------------------------------------------------------------------------
// Decompressing zstd

/// `ruzstd::decoding::FrameDecoder`.
#[verifier::external_type_specification]
#[verifier::external_body]
pub struct ExZstdDecoder(ruzstd::decoding::FrameDecoder);

/// `ruzstd::decoding::errors::FrameDecoderError`.
#[verifier::external_type_specification]
#[verifier::external_body]
pub struct ExZstdError(ruzstd::decoding::errors::FrameDecoderError);

/// The calls that a zstd decoder has had, in order: the input, and the room for output.
pub uninterp spec fn zstd_calls(decoder: ruzstd::decoding::FrameDecoder) -> Seq<(Seq<u8>, nat)>;

/// What the last of these calls did, or nothing if it failed, given that none before it did: how
/// many bytes of input it says it took, and its output.
pub uninterp spec fn zstd_outcome(calls: Seq<(Seq<u8>, nat)>) -> Option<(nat, Seq<u8>)>;

/// `ruzstd::decoding::FrameDecoder::new`: a decoder which has had no call.
#[verifier::external_body]
pub(crate) fn new_zstd() -> (decoder: ruzstd::decoding::FrameDecoder)
    ensures
        zstd_calls(decoder) == Seq::<(Seq<u8>, nat)>::empty(),
{
    ruzstd::decoding::FrameDecoder::new()
}

/// Whether none of these calls failed.
pub open spec fn zstd_succeeded(calls: Seq<(Seq<u8>, nat)>) -> bool {
    forall|n: int| 0 < n <= calls.len() ==> zstd_outcome(#[trigger] calls.take(n)) is Some
}

/// `ruzstd::decoding::FrameDecoder::decode_from_to`, on a decoder none of whose calls failed: one
/// that fails may leave the decoder with tables that are half built, on which a later call may panic.
/// It writes over the first bytes of `output`. Nothing is said of the bytes of `output` after those.
/// The number of bytes that it says it took may be greater than that of `input`: it is 4 where only
/// a checksum is left to read, however much of it there is.
#[verifier::external_body]
pub(crate) fn zstd_decode(
    decoder: &mut ruzstd::decoding::FrameDecoder,
    input: &[u8],
    output: &mut [u8],
) -> (counts: Result<(usize, usize), ruzstd::decoding::errors::FrameDecoderError>)
    requires
        zstd_succeeded(zstd_calls(*old(decoder))),
    ensures
        final(output)@.len() == old(output)@.len(),
        zstd_calls(*final(decoder)) == zstd_calls(*old(decoder)).push(
            (input@, old(output)@.len()),
        ),
        match (counts, zstd_outcome(zstd_calls(*final(decoder)))) {
            (Ok((read, written)), Some((taken, output_bytes))) => {
                &&& read == taken
                &&& written == output_bytes.len()
                &&& written <= old(output)@.len()
                &&& final(output)@.take(written as int) == output_bytes
            },
            (Err(_), None) => true,
            _ => false,
        },
{
    decoder.decode_from_to(input, output)
}

} // verus!
