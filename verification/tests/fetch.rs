use create_dotslash::digest::Digest;
use create_dotslash::fetch::{
    advance, given_path, known, label, path_label, to_scan, Download,
};
use create_dotslash::target::{ArchiveFormat, Architecture, Artifact, Os, Platform};

const ABC_SHA256: &str = "ba7816bf8f01cfea414140de5dae2223b00361a396177a9cb410ff61f20015ad";
const ABC_BLAKE3: &str = "6437b3ac38465133ffb63b75273a8db548c558465d79db03fd359c6cd5bd9d85";

fn digest(hex: &str, algo: &str) -> Digest {
    Digest::parse(hex, algo).unwrap()
}

fn artifact() -> Artifact {
    Artifact {
        url: "https://a.b/tool.zip".to_owned(),
        name: "tool".to_owned(),
        platform: Platform::Known { arch: Architecture::X64, os: Os::Linux },
        format: Some(ArchiveFormat::Zip),
        path: Some("bin/tool".to_owned()),
        digest: Some(digest(ABC_SHA256, "sha256")),
        check_digest: false,
        size: Some(3),
    }
}

#[test]
fn downloads_have_sizes_and_digests() {
    let download = Download::new(true, None).update(b"a").update(b"").update(b"bc");
    assert_eq!(download.size(), 3);
    let (size, hash) = download.finish().unwrap();
    assert_eq!(size, 3);
    assert!(hash.same_as(&digest(ABC_SHA256, "sha256")));
    let (size, hash) = Download::new(false, None).update(b"abc").finish().unwrap();
    assert_eq!(size, 3);
    assert!(hash.same_as(&digest(ABC_BLAKE3, "blake3")));
    let empty = Download::new(false, None);
    assert!(empty.can_take(b"abc"));
    let (size, hash) = empty.finish().unwrap();
    assert_eq!(size, 0);
    assert!(!hash.same_as(&digest(ABC_BLAKE3, "blake3")));
}

#[test]
fn downloads_are_checked() {
    let expected = digest(ABC_SHA256, "sha256");
    let download = Download::new(false, Some(expected)).update(b"abc");
    let (_, hash) = download.finish().unwrap();
    assert!(hash.same_as(&digest(ABC_BLAKE3, "blake3")));
    let mismatch = match Download::new(false, Some(expected)).update(b"abd").finish() {
        Ok(_) => panic!("the file is not the expected one"),
        Err(mismatch) => mismatch,
    };
    assert!(mismatch.expected.same_as(&expected));
    assert!(matches!(mismatch.actual, Digest::Sha256(_)));
    assert!(!mismatch.actual.same_as(&expected));
    let actual = "a52d159f262b2c6ddb724a61840befc36eb30c88877a4030b65cbe86298449c9";
    assert_eq!(
        mismatch.message(),
        format!("expected digest sha256:{ABC_SHA256}, but got sha256:{actual}")
    );
    let expected = digest(ABC_BLAKE3, "blake3");
    assert!(Download::new(true, Some(expected)).update(b"abc").finish().is_ok());
}

#[test]
fn known_artifacts_are_not_downloaded() {
    let fetched = known(&artifact()).unwrap();
    assert_eq!(fetched.size, 3);
    assert_eq!(fetched.path, "bin/tool");
    assert!(fetched.hash.same_as(&digest(ABC_SHA256, "sha256")));
    let bare = Artifact { path: None, format: None, ..artifact() };
    assert_eq!(known(&bare).unwrap().path, "tool");
    assert!(known(&Artifact { path: None, ..artifact() }).is_none());
    assert!(known(&Artifact { size: None, ..artifact() }).is_none());
    assert!(known(&Artifact { digest: None, ..artifact() }).is_none());
    // A digest which has to be checked is that of what is downloaded.
    assert!(known(&Artifact { check_digest: true, ..artifact() }).is_none());
    assert!(known(&Artifact { check_digest: true, format: None, ..artifact() }).is_none());
}

#[test]
fn archives_are_scanned_for_unknown_paths() {
    let path = Some("p".to_owned());
    assert_eq!(to_scan(&None, &Some(ArchiveFormat::Zip)), Some(ArchiveFormat::Zip));
    assert_eq!(to_scan(&path, &Some(ArchiveFormat::Zip)), None);
    assert_eq!(to_scan(&None, &Some(ArchiveFormat::Gz)), None);
    assert_eq!(to_scan(&None, &None), None);
    assert_eq!(given_path(&path, "name"), "p");
    assert_eq!(given_path(&None, "name"), "name");
}

#[test]
fn progress_bars_move() {
    assert_eq!(advance(Some(10), 4, 3), (None, 7));
    assert_eq!(advance(Some(4), 4, 3), (Some(7), 7));
    assert_eq!(advance(None, 4, 3), (None, 7));
}

#[test]
fn progress_bars_have_labels() {
    assert_eq!(path_label("/a/b/tool.zip"), "tool.zip");
    assert_eq!(path_label("/a/b/"), "/a/b/");
    assert_eq!(path_label("/"), "/");
    assert_eq!(path_label("x@y.z"), "x@y.z");
    assert_eq!(path_label("a/b"), "a/b");
    assert_eq!(label("https://a.b/c/tool.zip?d=e").as_deref(), Some("tool.zip"));
    assert_eq!(label("https://a.b").as_deref(), Some("/"));
    assert_eq!(label("nothing"), None);
}
