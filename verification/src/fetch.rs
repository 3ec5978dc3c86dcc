//! Downloading artifacts.

use vstd::prelude::*;

use crate::digest::{Digest, DigestView};
use crate::dotslash::to_hex_string;
use crate::outside;
use crate::target::{copy_text, ArchiveFormat, Artifact};
use crate::text;

verus! {

broadcast use vstd::seq_lib::group_seq_properties;

// ---------------------------------------------------------------------------------------------
// FetchedArtifact

/// Information determined by fetching an artifact.
#[derive(Debug)]
pub struct FetchedArtifact {
    /// The size of the artifact in bytes.
    pub size: u64,
    /// The hash of the artifact _before_ decompression (if relevant).
    pub hash: Digest,
    /// The path of the binary within its archive (if relevant).
    pub path: String,
}

/// What a [`FetchedArtifact`] holds.
pub struct FetchedView {
    pub size: u64,
    pub hash: DigestView,
    pub path: Seq<char>,
}

impl View for FetchedArtifact {
    type V = FetchedView;

    open spec fn view(&self) -> FetchedView {
        FetchedView { size: self.size, hash: self.hash@, path: self.path@ }
    }
}

/// The path of a binary: the given one, or else the name of its artifact.
pub open spec fn path_or_name(path: Option<String>, name: Seq<char>) -> Seq<char> {
    match path {
        Some(path) => path@,
        None => name,
    }
}

/// The path of a binary: the given one, or else the name of its artifact.
pub fn given_path(path: &Option<String>, name: &str) -> (result: String)
    ensures
        result@ == path_or_name(*path, name@),
{
    match path {
        Some(path) => path.clone(),
        None => name.to_owned(),
    }
}

/// What is known about an artifact without downloading it, if that is all there is to know: its
/// digest and its size, and the path of the binary in it unless it is no archive. An artifact whose
/// digest has to be checked has to be downloaded.
pub open spec fn known_of(artifact: Artifact) -> Option<FetchedView> {
    match (artifact.digest, artifact.size) {
        (Some(digest), Some(size)) => if !artifact.check_digest && (artifact.path is Some
            || artifact.format is None) {
            Some(
                FetchedView {
                    size,
                    hash: digest@,
                    path: path_or_name(artifact.path, artifact.name@),
                },
            )
        } else {
            None
        },
        _ => None,
    }
}

/// What is known about an artifact without downloading it, if that is all there is to know.
pub fn known(artifact: &Artifact) -> (fetched: Option<FetchedArtifact>)
    ensures
        match fetched {
            Some(fetched) => known_of(*artifact) == Some(fetched@),
            None => known_of(*artifact) is None,
        },
{
    match (artifact.digest, artifact.size) {
        (Some(hash), Some(size)) => {
            if !artifact.check_digest && (artifact.path.is_some() || artifact.format.is_none()) {
                let path: String = given_path(&artifact.path, artifact.name.as_str());
                Some(FetchedArtifact { size, hash, path })
            } else {
                None
            }
        },
        _ => None,
    }
}

/// The format of an archive whose entries have to be listed to find the path of the binary: the
/// path is not given, and the format has entries.
pub open spec fn format_to_scan(path: Option<String>, format: Option<ArchiveFormat>) -> Option<
    ArchiveFormat,
> {
    match format {
        Some(format) => if path is None && format.lists_entries() {
            Some(format)
        } else {
            None
        },
        None => None,
    }
}

/// The format of an archive whose entries have to be listed to find the path of the binary.
pub fn to_scan(path: &Option<String>, format: &Option<ArchiveFormat>) -> (scanned: Option<
    ArchiveFormat,
>)
    ensures
        scanned == format_to_scan(*path, *format),
        scanned matches Some(format) ==> format.lists_entries(),
{
    match format {
        Some(format) => {
            if path.is_none() && format.has_entries() {
                Some(*format)
            } else {
                None
            }
        },
        None => None,
    }
}

// ---------------------------------------------------------------------------------------------
// FileHasher

/// Computes a digest of bytes which come in chunks.
enum FileHasher {
    Blake3(blake3::Hasher),
    Sha256(hmac_sha256::Hash),
}

/// The digest of some bytes.
pub open spec fn digest_of(input: Seq<u8>, sha256: bool) -> DigestView {
    if sha256 {
        DigestView::Sha256(outside::sha256_digest(input))
    } else {
        DigestView::Blake3(outside::blake3_digest(input))
    }
}

impl FileHasher {
    /// The bytes that the hasher was given.
    spec fn input(self) -> Seq<u8> {
        match self {
            FileHasher::Blake3(hasher) => outside::blake3_input(hasher),
            FileHasher::Sha256(hasher) => outside::sha256_input(hasher),
        }
    }

    /// A hasher which was given nothing.
    fn new(sha256: bool) -> (hasher: FileHasher)
        ensures
            hasher.input() == Seq::<u8>::empty(),
            (hasher is Sha256) == sha256,
    {
        if sha256 {
            FileHasher::Sha256(outside::new_sha256())
        } else {
            FileHasher::Blake3(outside::new_blake3())
        }
    }

    /// Gives more bytes to the hasher.
    fn update(&mut self, chunk: &[u8])
        requires
            old(self).input().len() + chunk@.len() <= usize::MAX,
        ensures
            final(self).input() == old(self).input() + chunk@,
            (*final(self) is Sha256) == (*old(self) is Sha256),
    {
        match self {
            FileHasher::Blake3(hasher) => outside::update_blake3(hasher, chunk),
            FileHasher::Sha256(hasher) => outside::update_sha256(hasher, chunk),
        }
    }

    /// The digest of all the bytes that the hasher was given.
    fn finish(self) -> (digest: Digest)
        requires
            self.input().len() * 8 <= usize::MAX,
        ensures
            digest@ == digest_of(self.input(), self is Sha256),
    {
        match self {
            FileHasher::Blake3(hasher) => Digest::Blake3(outside::finalize_blake3(&hasher)),
            FileHasher::Sha256(hasher) => Digest::Sha256(outside::finalize_sha256(hasher)),
        }
    }
}

// ---------------------------------------------------------------------------------------------
// Download

/// A file being downloaded.
pub struct Download {
    hasher: FileHasher,
    /// What the file must have as its digest, and the hasher which computes that.
    check: Option<(FileHasher, Digest)>,
    size: u64,
}

/// What a [`Download`] holds.
pub struct DownloadView {
    /// The bytes that were downloaded.
    pub input: Seq<u8>,
    /// Whether the digest to compute is SHA-256, rather than BLAKE3.
    pub sha256: bool,
    /// The digest which the file must have.
    pub expected: Option<DigestView>,
}

/// The download of a file whose digest is not the expected one.
#[derive(Debug)]
pub struct Mismatch {
    pub expected: Digest,
    pub actual: Digest,
}

/// A digest after the name of its algorithm.
pub open spec fn digest_text(digest: DigestView) -> Seq<char> {
    crate::dotslash::written(digest).0 + ":"@ + crate::dotslash::written(digest).1
}

/// A digest after the name of its algorithm.
fn write_digest(digest: &Digest) -> (text: String)
    ensures
        text@ == digest_text(digest@),
{
    match digest {
        Digest::Blake3(bytes) => "blake3".to_owned().concat(":").concat(
            to_hex_string(bytes).as_str(),
        ),
        Digest::Sha256(bytes) => "sha256".to_owned().concat(":").concat(
            to_hex_string(bytes).as_str(),
        ),
    }
}

impl Mismatch {
    /// The error in words.
    pub fn message(&self) -> (message: String)
        ensures
            message@ == "expected digest "@ + digest_text(self.expected@) + ", but got "@
                + digest_text(self.actual@),
    {
        "expected digest ".to_owned().concat(write_digest(&self.expected).as_str()).concat(
            ", but got ",
        ).concat(write_digest(&self.actual).as_str())
    }
}

impl View for Download {
    type V = DownloadView;

    closed spec fn view(&self) -> DownloadView {
        DownloadView {
            input: self.hasher.input(),
            sha256: self.hasher is Sha256,
            expected: match self.check {
                Some((_, digest)) => Some(digest@),
                None => None,
            },
        }
    }
}

impl DownloadView {
    /// The digest of the file with the algorithm of the expected one.
    pub open spec fn to_check(self) -> DigestView {
        digest_of(self.input, self.expected->0 is Sha256)
    }

    /// Whether the file has the digest which it must have.
    pub open spec fn is_as_expected(self) -> bool {
        self.expected is Some ==> self.to_check() == self.expected->0
    }
}

impl Download {
    /// Whether the download counts and hashes the bytes that it holds.
    #[verifier::type_invariant]
    spec fn wf(self) -> bool {
        &&& self.size == self.hasher.input().len()
        &&& self.size * 8 <= usize::MAX
        &&& match self.check {
            Some((hasher, digest)) => {
                &&& hasher.input() == self.hasher.input()
                &&& (hasher is Sha256) == (digest is Sha256)
            },
            None => true,
        }
    }

    /// A download of which nothing has come yet.
    pub fn new(prefer_sha256: bool, expected: Option<Digest>) -> (download: Download)
        ensures
            download@ == (DownloadView {
                input: Seq::empty(),
                sha256: prefer_sha256,
                expected: crate::options::optional_digest(expected),
            }),
    {
        let check: Option<(FileHasher, Digest)> = match expected {
            Some(digest) => {
                let sha256: bool = match digest {
                    Digest::Sha256(_) => true,
                    Digest::Blake3(_) => false,
                };
                Some((FileHasher::new(sha256), digest))
            },
            None => None,
        };
        Download { hasher: FileHasher::new(prefer_sha256), check, size: 0 }
    }

    /// How many bytes have come.
    pub fn size(&self) -> (size: u64)
        ensures
            size == self@.input.len(),
    {
        proof {
            use_type_invariant(self);
        }
        self.size
    }

    /// Whether the number of bits of the file still fits after `chunk`.
    pub open spec fn has_room(self, chunk: Seq<u8>) -> bool {
        (self@.input.len() + chunk.len()) * 8 <= usize::MAX
    }

    /// Whether the number of bits of the file still fits after `chunk`.
    pub fn can_take(&self, chunk: &[u8]) -> (can: bool)
        ensures
            can == self.has_room(chunk@),
    {
        proof {
            use_type_invariant(self);
        }
        let most: usize = usize::MAX / 8;
        chunk.len() <= most && self.size <= (most - chunk.len()) as u64
    }

    /// Takes the next chunk of the file.
    pub fn update(self, chunk: &[u8]) -> (next: Download)
        requires
            self.has_room(chunk@),
        ensures
            next@ == (DownloadView { input: self@.input + chunk@, ..self@ }),
    {
        proof {
            use_type_invariant(&self);
        }
        let Download { hasher, check, size } = self;
        let mut hasher: FileHasher = hasher;
        hasher.update(chunk);
        let check: Option<(FileHasher, Digest)> = match check {
            Some((checker, digest)) => {
                let mut checker: FileHasher = checker;
                checker.update(chunk);
                Some((checker, digest))
            },
            None => None,
        };
        Download { hasher, check, size: size + chunk.len() as u64 }
    }

    /// The size and the digest of the file, or its digest with the algorithm of the expected one if
    /// they differ.
    pub fn finish(self) -> (result: Result<(u64, Digest), Mismatch>)
        ensures
            match result {
                Ok((size, digest)) => {
                    &&& self@.is_as_expected()
                    &&& size == self@.input.len()
                    &&& digest@ == digest_of(self@.input, self@.sha256)
                },
                Err(mismatch) => {
                    &&& !self@.is_as_expected()
                    &&& self@.expected == Some(mismatch.expected@)
                    &&& mismatch.actual@ == self@.to_check()
                },
            },
    {
        proof {
            use_type_invariant(&self);
        }
        let Download { hasher, check, size } = self;
        if let Some((checker, expected)) = check {
            let actual: Digest = checker.finish();
            if !actual.same_as(&expected) {
                return Err(Mismatch { expected, actual });
            }
        }
        Ok((size, hasher.finish()))
    }
}

/// How a progress bar moves when `more` bytes have come after `size`: its new length, if that
/// changes, and its new position. A bar whose length was reached is made longer.
pub fn advance(length: Option<u64>, size: u64, more: u64) -> (next: (Option<u64>, u64))
    requires
        size + more <= u64::MAX,
    ensures
        next.0 == if length == Some(size) {
            Some((size + more) as u64)
        } else {
            None::<u64>
        },
        next.1 == size + more,
{
    let position: u64 = size + more;
    match length {
        Some(length) => {
            if length == size {
                (Some(position), position)
            } else {
                (None, position)
            }
        },
        None => (None, position),
    }
}

/// What a progress bar shows about the URL with this path: the last segment, or the whole path if
/// that is empty.
pub open spec fn label_of(path: Seq<char>) -> Seq<char> {
    let segment = path.skip(text::last_of(path, '/') + 1);
    if path.len() > 0 && path[0] == '/' && segment.len() > 0 {
        segment
    } else {
        path
    }
}

/// What a progress bar shows about a URL, if the text is one.
pub fn label(url: &str) -> (label: Option<String>)
    ensures
        match (label, outside::path_of_url(url@)) {
            (Some(label), Some(path)) => label@ == label_of(path),
            (None, None) => true,
            _ => false,
        },
{
    match outside::url_path(url) {
        Some(path) => Some(path_label(path.as_str()).to_owned()),
        None => None,
    }
}

/// What a progress bar shows about the URL with this path.
pub fn path_label(path: &str) -> (label: &str)
    ensures
        label@ == label_of(path@),
{
    if let Some(at) = text::find_last(path, '/') {
        if text::starts_with(path, "/") {
            let len: usize = path.unicode_len();
            proof {
                reveal_strlit("/");
                assert(path@[0] == "/"@[0]);
                assert(path@.subrange(at + 1, len as int) == path@.skip(at + 1));
            }
            if at + 1 < len {
                return path.substring_char(at + 1, len);
            }
        } else {
            proof {
                reveal_strlit("/");
                if path@[0] == '/' {
                    assert(path@.subrange(0, 1) == "/"@);
                }
            }
        }
    } else {
        proof {
            if path@.len() > 0 && path@[0] == '/' {
                lemma_slash_is_found(path@);
            }
        }
    }
    path
}

/// A `/` at the start is found.
proof fn lemma_slash_is_found(path: Seq<char>)
    requires
        path.len() > 0,
        path[0] == '/',
    ensures
        text::last_of(path, '/') >= 0,
    decreases path.len(),
{
    if path.last() != '/' {
        lemma_slash_is_found(path.drop_last());
    }
}

// ---------------------------------------------------------------------------------------------
// Laws

/// A download after it has taken each of `chunks`.
pub open spec fn fed(download: DownloadView, chunks: Seq<Seq<u8>>) -> DownloadView
    decreases chunks.len(),
{
    if chunks.len() == 0 {
        download
    } else {
        let before = fed(download, chunks.drop_last());
        DownloadView { input: before.input + chunks.last(), ..before }
    }
}

/// The bytes of all `chunks`.
pub open spec fn together(chunks: Seq<Seq<u8>>) -> Seq<u8>
    decreases chunks.len(),
{
    if chunks.len() == 0 {
        Seq::empty()
    } else {
        together(chunks.drop_last()) + chunks.last()
    }
}

/// A download has taken the bytes of all its chunks.
proof fn lemma_fed(download: DownloadView, chunks: Seq<Seq<u8>>)
    ensures
        fed(download, chunks) == (DownloadView {
            input: download.input + together(chunks),
            ..download
        }),
    decreases chunks.len(),
{
    if chunks.len() == 0 {
        assert(download.input + Seq::<u8>::empty() == download.input);
    } else {
        lemma_fed(download, chunks.drop_last());
        assert(download.input + together(chunks.drop_last()) + chunks.last() == download.input
            + together(chunks));
    }
}

/// How a file is split into chunks changes neither its size nor its digest, nor whether it is as
/// expected.
pub proof fn chunks_do_not_matter(download: DownloadView, a: Seq<Seq<u8>>, b: Seq<Seq<u8>>)
    requires
        together(a) == together(b),
    ensures
        fed(download, a) == fed(download, b),
{
    lemma_fed(download, a);
    lemma_fed(download, b);
}

/// Nothing has to be downloaded if the digest, the size and the path are given, and the digest does
/// not have to be checked: these are what is known. If the file is no archive, its name is as good
/// as a path.
pub proof fn given_artifacts_are_not_downloaded(artifact: Artifact)
    requires
        artifact.digest is Some,
        artifact.size is Some,
        !artifact.check_digest,
    ensures
        artifact.path matches Some(path) ==> known_of(artifact) == Some(
            FetchedView {
                size: artifact.size->0,
                hash: artifact.digest->0@,
                path: path@,
            },
        ),
        artifact.path is None && artifact.format is None ==> known_of(artifact) == Some(
            FetchedView {
                size: artifact.size->0,
                hash: artifact.digest->0@,
                path: artifact.name@,
            },
        ),
{
}

/// An artifact is downloaded if its digest or its size is not given, if its digest has to be checked,
/// or if it is an archive in which the path of the binary is not given.
pub proof fn other_artifacts_are_downloaded(artifact: Artifact)
    requires
        artifact.digest is None || artifact.size is None || artifact.check_digest || (
        artifact.path is None && artifact.format is Some),
    ensures
        known_of(artifact) is None,
{
}

/// A download is as expected if and only if its digest, with the algorithm of the expected one, is
/// that one; anything is if nothing is expected.
pub proof fn downloads_are_checked(download: DownloadView)
    ensures
        download.expected is None ==> download.is_as_expected(),
        download.expected matches Some(DigestView::Sha256(hash)) ==> (download.is_as_expected()
            <==> outside::sha256_digest(download.input) == hash),
        download.expected matches Some(DigestView::Blake3(hash)) ==> (download.is_as_expected()
            <==> outside::blake3_digest(download.input) == hash),
{
}

/// The digest of a download is that of all its bytes, with the algorithm that was asked for.
pub proof fn digest_is_that_of_the_bytes(input: Seq<u8>)
    ensures
        digest_of(input, true) == DigestView::Sha256(outside::sha256_digest(input)),
        digest_of(input, false) == DigestView::Blake3(outside::blake3_digest(input)),
{
}

/// A progress bar shows the last segment of the path of a URL.
pub proof fn bars_show_the_last_segment(directory: Seq<char>, segment: Seq<char>)
    requires
        directory.len() == 0 || directory[0] == '/',
        segment.len() > 0,
        !segment.contains('/'),
    ensures
        label_of(directory + seq!['/'] + segment) == segment,
{
    crate::format::lemma_last_segment(directory, segment);
    let path = directory + seq!['/'] + segment;
    assert(path[0] == '/');
}

/// The path of a binary is the given one, and otherwise the name of its artifact.
pub proof fn given_path_counts(path: Option<String>, name: Seq<char>)
    ensures
        path matches Some(path) ==> path_or_name(Some(path), name) == path@,
        path_or_name(None, name) == name,
{
}

} // verus!
