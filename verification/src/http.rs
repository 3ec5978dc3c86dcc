//! Files downloaded from URLs.

use std::str::FromStr;

use vstd::prelude::*;

use crate::digest::{Digest, DigestView};
use crate::name::{ArtifactName, ArtifactNameError, NameErrorView};
use crate::options::HttpView;
use crate::outside;
use crate::target::{Artifact, ArtifactView, Http};
use crate::text;

verus! {

/// The normal form of a URL, if the text is one.
pub fn checked_url(url: &str) -> (checked: Option<String>)
    ensures
        match checked {
            Some(checked) => outside::normal_url(url@) == Some(checked@),
            None => outside::normal_url(url@) is None,
        },
{
    outside::parse_url(url)
}

/// Why a file is no artifact.
#[derive(Debug)]
pub enum HttpError {
    /// The URL has no path.
    InvalidUrl(String),
    /// The name of the file does not say what it is.
    InvalidName { file_name: String, error: ArtifactNameError },
}

/// What an [`HttpError`] holds.
pub enum HttpErrorView {
    InvalidUrl(Seq<char>),
    InvalidName { file_name: Seq<char>, error: NameErrorView },
}

impl View for HttpError {
    type V = HttpErrorView;

    open spec fn view(&self) -> HttpErrorView {
        match *self {
            HttpError::InvalidUrl(url) => HttpErrorView::InvalidUrl(url@),
            HttpError::InvalidName { file_name, error } => HttpErrorView::InvalidName {
                file_name: file_name@,
                error: error@,
            },
        }
    }
}

impl HttpErrorView {
    /// The error in words.
    pub open spec fn message(self) -> Seq<char> {
        match self {
            HttpErrorView::InvalidUrl(url) => "invalid url: "@ + url,
            HttpErrorView::InvalidName { file_name, error } => "invalid file name: "@ + file_name,
        }
    }
}

impl HttpError {
    /// The error in words.
    pub fn message(&self) -> (message: String)
        ensures
            message@ == self@.message(),
    {
        match self {
            HttpError::InvalidUrl(url) => "invalid url: ".to_owned().concat(url.as_str()),
            HttpError::InvalidName { file_name, error } => "invalid file name: ".to_owned().concat(
                file_name.as_str(),
            ),
        }
    }
}

/// Whether a URL is that of a digest, rather than of the file itself.
pub open spec fn is_sum(url: Seq<char>) -> bool {
    ".sha256"@.is_suffix_of(url)
}

/// The URL of the file itself.
pub open spec fn file_url(url: Seq<char>) -> Seq<char> {
    if is_sum(url) {
        url.take(url.len() - ".sha256"@.len())
    } else {
        url
    }
}

/// The artifact of a file. If the URL is that of a digest, `sum` is what it holds: the file must
/// have that digest.
pub open spec fn expanded(http: HttpView, sum: Option<DigestView>) -> Result<
    ArtifactView,
    HttpErrorView,
> {
    let url = file_url(http.url);
    let file_name = url.skip(text::last_of(url, '/') + 1);
    if text::last_of(url, '/') < 0 {
        Err(HttpErrorView::InvalidUrl(url))
    } else {
        match crate::name::read_name(file_name) {
            Ok(name) => Ok(
                ArtifactView {
                    url,
                    name: name.name,
                    platform: name.platform,
                    format: name.format,
                    path: http.options.path,
                    digest: if is_sum(http.url) {
                        sum
                    } else {
                        http.options.digest
                    },
                    check_digest: is_sum(http.url),
                    size: http.options.size,
                },
            ),
            Err(error) => Err(HttpErrorView::InvalidName { file_name, error }),
        }
    }
}

impl Http {
    /// Whether the URL is that of a digest, which has to be fetched.
    pub fn has_sum(&self) -> (has: bool)
        ensures
            has == is_sum(self.url@),
    {
        text::ends_with(self.url.as_str(), ".sha256")
    }

    /// The artifact of a file, given its digest if the URL is that of a digest.
    pub fn expand(self, sum: Option<Digest>) -> (artifact: Result<Artifact, HttpError>)
        requires
            is_sum(self.url@) ==> sum is Some,
        ensures
            match artifact {
                Ok(artifact) => expanded(self@, crate::options::optional_digest(sum)) == Ok::<
                    ArtifactView,
                    HttpErrorView,
                >(artifact@),
                Err(error) => expanded(self@, crate::options::optional_digest(sum)) == Err::<
                    ArtifactView,
                    HttpErrorView,
                >(error@),
            },
    {
        let (url, digest, check_digest): (String, Option<Digest>, bool) = match text::strip_suffix(
            self.url.as_str(),
            ".sha256",
        ) {
            // We were given a URL to some digest.
            Some(without_digest) => (without_digest.to_owned(), sum, true),
            None => (self.url.clone(), self.digest, false),
        };
        let len: usize = url.as_str().unicode_len();
        let file_name: &str = match text::find_last(url.as_str(), '/') {
            Some(at) => url.as_str().substring_char(at + 1, len),
            None => {
                return Err(HttpError::InvalidUrl(url));
            },
        };
        proof {
            let start = text::last_of(url@, '/') + 1;
            assert(url@.subrange(start, len as int) == url@.skip(start));
        }
        match ArtifactName::from_str(file_name) {
            Ok(name) => Ok(
                Artifact {
                    url: url.clone(),
                    name: name.name,
                    platform: name.platform,
                    format: name.format,
                    path: self.options.path,
                    digest,
                    check_digest,
                    size: self.size,
                },
            ),
            Err(error) => Err(HttpError::InvalidName { file_name: file_name.to_owned(), error }),
        }
    }
}

// ---------------------------------------------------------------------------------------------
// Laws

/// A file whose URL is followed by `.sha256` is the same file, with the fetched digest in place of
/// any other, and is checked against it.
pub proof fn sum_names_its_file(http: HttpView, digest: DigestView)
    requires
        !is_sum(http.url),
    ensures
        expanded(HttpView { url: http.url + ".sha256"@, ..http }, Some(digest)) == match expanded(
            http,
            None,
        ) {
            Ok(artifact) => Ok::<ArtifactView, HttpErrorView>(
                ArtifactView { digest: Some(digest), check_digest: true, ..artifact },
            ),
            Err(error) => Err::<ArtifactView, HttpErrorView>(error),
        },
{
    let url = http.url + ".sha256"@;
    assert(url.subrange(url.len() - ".sha256"@.len(), url.len() as int) == ".sha256"@);
    assert(url.take(url.len() - ".sha256"@.len()) == http.url);
}

/// A file is what its name, after the last `/` of its URL, says: its name, its platform and its
/// format. Its URL is the given one, and so are its path, its digest and its size; the digest is not
/// checked. If the name says too little, or too much, that is the error.
pub proof fn file_is_what_its_name_says(
    http: HttpView,
    directory: Seq<char>,
    file_name: Seq<char>,
    sum: Option<DigestView>,
)
    requires
        http.url == directory + seq!['/'] + file_name,
        !file_name.contains('/'),
        !".sha256"@.is_suffix_of(http.url),
    ensures
        match expanded(http, sum) {
            Ok(artifact) => {
                &&& artifact.url == http.url
                &&& artifact.path == http.options.path
                &&& artifact.digest == http.options.digest
                &&& artifact.size == http.options.size
                &&& !artifact.check_digest
                &&& crate::name::read_name(file_name) matches Ok(name) && artifact.name == name.name
                    && artifact.platform == name.platform && artifact.format == name.format
            },
            Err(error) => crate::name::read_name(file_name) matches Err(reason) && error == (
            HttpErrorView::InvalidName { file_name, error: reason }),
        },
{
    crate::format::lemma_last_segment(directory, file_name);
}

/// A URL without any `/` is that of no file.
pub proof fn files_have_paths(http: HttpView, sum: Option<DigestView>)
    requires
        !http.url.contains('/'),
        !".sha256"@.is_suffix_of(http.url),
    ensures
        expanded(http, sum) == Err::<ArtifactView, HttpErrorView>(
            HttpErrorView::InvalidUrl(http.url),
        ),
{
    lemma_no_slash(http.url);
}

proof fn lemma_no_slash(url: Seq<char>)
    requires
        !url.contains('/'),
    ensures
        text::last_of(url, '/') == -1,
    decreases url.len(),
{
    if url.len() > 0 {
        assert(url.contains(url[url.len() - 1]));
        assert(!url.drop_last().contains('/')) by {
            if url.drop_last().contains('/') {
                let i = choose|i: int| 0 <= i < url.drop_last().len() && url.drop_last()[i] == '/';
                assert(url[i] == '/');
            }
        }
        lemma_no_slash(url.drop_last());
    }
}

/// The digest of a file which is fetched is that of its URL followed by `.sha256`, and of no other.
pub proof fn sums_are_named_after_their_files(url: Seq<char>)
    ensures
        is_sum(url + ".sha256"@),
        file_url(url + ".sha256"@) == url,
        !".sha256"@.is_suffix_of(url) ==> !is_sum(url) && file_url(url) == url,
{
    let sum = url + ".sha256"@;
    assert(sum.subrange(sum.len() - ".sha256"@.len(), sum.len() as int) == ".sha256"@);
    assert(sum.take(sum.len() - ".sha256"@.len()) == url);
}

/// An error says which URL, or which file name, is not that of an artifact.
pub proof fn errors_say_what_is_wrong(text: Seq<char>, error: NameErrorView)
    ensures
        text.is_suffix_of(HttpErrorView::InvalidUrl(text).message()),
        text.is_suffix_of((HttpErrorView::InvalidName { file_name: text, error }).message()),
{
    let a = HttpErrorView::InvalidUrl(text).message();
    let b = (HttpErrorView::InvalidName { file_name: text, error }).message();
    assert(a.subrange(a.len() - text.len(), a.len() as int) == text);
    assert(b.subrange(b.len() - text.len(), b.len() as int) == text);
}

} // verus!
