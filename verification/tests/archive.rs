use create_dotslash::archive::{
    finish_entries, scan_tar, scan_zip, Entry, ScanError, TarItem, ZipItem,
};

fn paths(entries: &[Entry]) -> Vec<&str> {
    entries.iter().map(|entry| entry.path.as_str()).collect()
}

fn entries(list: &[(&str, bool)]) -> Vec<Entry> {
    list.iter()
        .map(|(path, executable)| Entry::new((*path).to_owned(), *executable))
        .collect()
}

#[test]
fn entries_know_whether_they_are_in_bin() {
    for (path, plain, in_bin) in [
        ("./bin/tool", "bin/tool", true),
        ("pkg/bin/tool", "pkg/bin/tool", true),
        ("tool.exe", "tool.exe", true),
        ("cabin/tool", "cabin/tool", false),
        ("bin", "bin", false),
        ("././a", "./a", false),
    ] {
        let entry = Entry::new(path.to_owned(), false);
        assert_eq!(entry.path, plain);
        assert_eq!(entry.in_bin, in_bin, "{path}");
        assert!(!entry.executable);
    }
}

#[test]
fn executables_are_kept_in_their_order() {
    let mut list = entries(&[("z", true), ("bin/b", false), ("a", true), ("z", true)]);
    finish_entries(&mut list);
    assert_eq!(paths(&list), ["z", "a", "z"]);
}

#[test]
fn without_executables_binaries_come_first() {
    let mut list = entries(&[("z", false), ("bin/b", false), ("a", false), ("bin/a", false)]);
    finish_entries(&mut list);
    assert_eq!(paths(&list), ["bin/a", "bin/b", "a", "z"]);
    let mut none: Vec<Entry> = Vec::new();
    finish_entries(&mut none);
    assert!(none.is_empty());
}

#[test]
fn many_entries_are_sorted() {
    let mut list: Vec<Entry> = (0..500)
        .map(|i| Entry::new(format!("{:03}", (i * 7919) % 500), false))
        .collect();
    finish_entries(&mut list);
    let expected: Vec<String> = (0..500).map(|i| format!("{i:03}")).collect();
    assert_eq!(paths(&list), expected);
}

#[test]
fn tar_entries_are_scanned() {
    let mut results = Vec::new();
    assert_eq!(scan_tar(&mut results, TarItem::Unreadable), Err(ScanError::Tar));
    assert_eq!(scan_tar(&mut results, TarItem::Other), Ok(true));
    let file = TarItem::File { mode: Some(0o644), path: Some("./readme".to_owned()) };
    assert_eq!(scan_tar(&mut results, file), Ok(true));
    let file = TarItem::File { mode: Some(0o100), path: Some("tool".to_owned()) };
    assert_eq!(scan_tar(&mut results, file), Ok(true));
    let file = TarItem::File { mode: None, path: Some("other".to_owned()) };
    assert_eq!(scan_tar(&mut results, file), Ok(true));
    let file = TarItem::File { mode: Some(0o755), path: None };
    assert_eq!(scan_tar(&mut results, file), Err(ScanError::TarPath));
    assert_eq!(scan_tar(&mut results, TarItem::Unreadable), Ok(false));
    assert_eq!(scan_tar(&mut results, TarItem::End), Ok(false));
    assert_eq!(paths(&results), ["readme", "tool", "other"]);
    let executable: Vec<bool> = results.iter().map(|entry| entry.executable).collect();
    assert_eq!(executable, [false, true, false]);
}

#[test]
fn zip_entries_are_scanned() {
    let mut results = Vec::new();
    let named = |name: &str, permissions| ZipItem::Named {
        permissions,
        name: Some(name.to_owned()),
    };
    assert_eq!(scan_zip(&mut results, named("dir/", Some(0o755))), Ok(true));
    assert_eq!(scan_zip(&mut results, named("dir/tool", Some(0o755))), Ok(true));
    assert_eq!(scan_zip(&mut results, named("dir/text", None)), Ok(true));
    assert_eq!(
        scan_zip(&mut results, ZipItem::Named { permissions: None, name: None }),
        Err(ScanError::ZipName)
    );
    assert_eq!(scan_zip(&mut results, ZipItem::Unreadable), Err(ScanError::Zip));
    assert_eq!(scan_zip(&mut results, ZipItem::End), Ok(false));
    assert_eq!(paths(&results), ["dir/tool", "dir/text"]);
    assert!(results[0].executable);
    assert!(!results[1].executable);
}

#[test]
fn scan_errors_have_words() {
    assert_eq!(ScanError::Tar.message(), "failed to read tar archive");
    assert_eq!(ScanError::TarPath.message(), "failed to read tar entry path");
    assert_eq!(ScanError::Zip.message(), "failed to read zip archive");
    assert_eq!(ScanError::ZipName.message(), "failed to read zip entry name");
}

#[test]
fn finishing_again_changes_nothing() {
    let mut list = entries(&[("z", false), ("bin/b", false), ("a", false)]);
    finish_entries(&mut list);
    let once: Vec<String> = list.iter().map(|entry| entry.path.clone()).collect();
    finish_entries(&mut list);
    assert_eq!(paths(&list), once);
}
