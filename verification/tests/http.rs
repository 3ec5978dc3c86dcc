use std::str::FromStr;

use create_dotslash::digest::Digest;
use create_dotslash::http::{checked_url, HttpError};
use create_dotslash::target::{ArchiveFormat, Architecture, Http, Os, Platform, Target};

const ZEROS: &str = "0000000000000000000000000000000000000000000000000000000000000000";

fn http(s: &str) -> Http {
    match Target::from_str(s) {
        Ok(Target::Http(http)) => http,
        _ => panic!("{s} is no file"),
    }
}

#[test]
fn files_are_artifacts() {
    let file = http("https://a.b/d/tool-1.2-linux-x64.tar.xz#path=p,size=9");
    assert!(!file.has_sum());
    let artifact = file.expand(None).unwrap();
    assert_eq!(artifact.url, "https://a.b/d/tool-1.2-linux-x64.tar.xz");
    assert_eq!(artifact.name, "tool");
    assert_eq!(
        artifact.platform,
        Platform::Known { arch: Architecture::X64, os: Os::Linux }
    );
    assert_eq!(artifact.format, Some(ArchiveFormat::TarXz));
    assert_eq!(artifact.path.as_deref(), Some("p"));
    assert_eq!(artifact.size, Some(9));
    assert!(artifact.digest.is_none());
    assert!(!artifact.check_digest);
}

#[test]
fn sums_are_those_of_their_files() {
    let file = http("https://a.b/tool-linux-x64.zip.sha256");
    assert!(file.has_sum());
    let digest = Digest::parse(ZEROS, "sha256").unwrap();
    let artifact = file.expand(Some(digest)).unwrap();
    assert_eq!(artifact.url, "https://a.b/tool-linux-x64.zip");
    assert!(matches!(artifact.digest, Some(Digest::Sha256(bytes)) if bytes == [0; 32]));
    assert!(artifact.check_digest);
}

#[test]
fn given_digests_are_not_checked() {
    let file = http(&format!("https://a.b/tool-linux-x64.zip#blake3={ZEROS}"));
    let artifact = file.expand(None).unwrap();
    assert!(matches!(artifact.digest, Some(Digest::Blake3(_))));
    assert!(!artifact.check_digest);
}

#[test]
fn other_files_are_refused() {
    let error = http("https:tool-linux-x64.zip").expand(None).unwrap_err();
    assert!(matches!(error, HttpError::InvalidUrl(_)));
    assert_eq!(error.message(), "invalid url: https:tool-linux-x64.zip");
    let error = http("https://a.b/tool.zip").expand(None).unwrap_err();
    assert_eq!(error.message(), "invalid file name: tool.zip");
    match error {
        HttpError::InvalidName { error, .. } => {
            assert_eq!(error.message(), "missing architecture in file name");
        }
        error => panic!("{error:?}"),
    }
}

#[test]
fn urls_are_checked() {
    assert_eq!(checked_url("https://A.b").as_deref(), Some("https://a.b/"));
    assert_eq!(checked_url("https://a.b/c d").as_deref(), Some("https://a.b/c%20d"));
    assert_eq!(checked_url("https://"), None);
    assert_eq!(checked_url("nothing"), None);
}
