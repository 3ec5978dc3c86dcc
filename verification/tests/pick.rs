use create_dotslash::archive::Entry;
use create_dotslash::pick::{pick_path, take_path, Pick};

fn entries(paths: &[&str]) -> Vec<Entry> {
    paths.iter().map(|path| Entry::new((*path).to_owned(), true)).collect()
}

#[test]
fn one_path_is_taken() {
    let list = entries(&["bin/tool"]);
    assert!(matches!(pick_path(&list, false, &None), Pick::Take(0)));
    assert_eq!(take_path(list, 0), "bin/tool");
    assert!(matches!(pick_path(&entries(&[]), true, &None), Pick::Nothing));
}

#[test]
fn nobody_is_asked_without_a_terminal() {
    match pick_path(&entries(&["a/x", "a/y"]), false, &None) {
        Pick::Ambiguous(paths) => assert_eq!(paths, "a/x, a/y"),
        pick => panic!("{pick:?}"),
    }
}

#[test]
fn common_directories_are_not_shown() {
    for (paths, shown) in [
        (["r-1/bin/rad", "r-1/bin/node"], ["rad", "node"]),
        (["r-1/bin/rad", "r-1/sbin/node"], ["bin/rad", "sbin/node"]),
        (["a", "b"], ["a", "b"]),
        (["ab/c", "a/c"], ["ab/c", "a/c"]),
        (["a/b/c", "a/b"], ["b/c", "b"]),
        (["a/b/", "a/b/"], ["", ""]),
    ] {
        match pick_path(&entries(&paths), true, &None) {
            Pick::Ask(list) => assert_eq!(list, shown),
            pick => panic!("{pick:?}"),
        }
    }
}

#[test]
fn same_pick_is_used_again() {
    let list = entries(&["x86/bin/node", "x86/bin/rad"]);
    let picked = Some("rad".to_owned());
    assert!(matches!(pick_path(&list, true, &picked), Pick::Take(1)));
    assert_eq!(take_path(list, 1), "x86/bin/rad");
    let list = entries(&["arm/bin/rad", "arm/lib/rad"]);
    match pick_path(&list, true, &picked) {
        Pick::Ask(list) => assert_eq!(list, ["bin/rad", "lib/rad"]),
        pick => panic!("{pick:?}"),
    }
}
