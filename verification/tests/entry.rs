use tc_cache::snapshot::entry::Found;
use tc_cache::snapshot::{Attributes, Entry, EntryKind};
use tc_cache::{Error, ErrorKind};

const A_FILE_PATH: &str = "tests/fixtures/snapshot/a.txt";
const IS_SYMLINK_PATH: &str = "tests/fixtures/snapshot/is_symlink";
const IS_DIR_PATH: &str = "tests/fixtures/snapshot/is_dir";

#[test]
fn entry_from_path() {
    let attr = Attributes::new(0o100644, 1, 2);
    let file = Entry::try_from_path(A_FILE_PATH, &Found::File { attr, content: b"a" }).unwrap();
    let (path, _, md5, len) = file.as_file().unwrap();

    assert_eq!(path, A_FILE_PATH);
    assert_eq!(len, 1);
    assert_eq!(md5, "0cc175b9c0f1b6a831c399e269772661");
}

#[test]
fn entry_from_symlink() {
    let attr = Attributes::new(0o120777, 1, 2);
    let found = Found::Symlink { attr, target: "a.txt".to_string() };
    let file = Entry::try_from_path(IS_SYMLINK_PATH, &found).unwrap();
    let (path, target, _) = file.as_symlink().unwrap();

    assert_eq!(path, IS_SYMLINK_PATH);
    assert_eq!(target, "a.txt");
}

#[test]
fn entry_from_dir() {
    let attr = Attributes::new(0o40755, 1, 2);
    let file = Entry::try_from_path(IS_DIR_PATH, &Found::Dir { attr }).unwrap();
    let (path, _) = file.as_dir().unwrap();

    assert_eq!(path, IS_DIR_PATH);
}

#[test]
fn check_file_size() {
    let attr = Attributes::new(0o100644, 1, 2);
    let err = Entry::file(A_FILE_PATH, attr, "", (::std::u32::MAX as u64) + 1).unwrap_err();

    assert!(err.to_string().contains("out of range"));
}

#[test]
fn file_size_at_the_limit() {
    let attr = Attributes::new(0, 0, 0);
    let entry = Entry::file("f", attr, "", u32::MAX as u64).unwrap();
    assert_eq!(entry.as_file().unwrap().3, u32::MAX as usize);
    let err = Entry::file("f", attr, "", u64::MAX).unwrap_err();
    assert!(matches!(&err.kind, ErrorKind::Io(path) if path == "f"));
    assert_eq!(
        err.to_string(),
        "I/O error at \"f\"; out of range integral type conversion attempted"
    );
}

#[test]
fn entry_from_something_else() {
    let err = Entry::try_from_path("/dev/null", &Found::Other).unwrap_err();
    assert!(matches!(&err.kind, ErrorKind::Io(path) if path == "/dev/null"));
    assert_eq!(
        err.to_string(),
        "I/O error at \"/dev/null\"; Unknown file type, neither of a file nor a directory nor a symlink"
    );
}

#[test]
fn entry_accessors() {
    let attr = Attributes::new(0o644, 10, 20);
    let file = Entry::file("f", attr, "abc", 3).unwrap();
    assert_eq!(file.kind(), EntryKind::File);
    assert_eq!(file.as_md5(), Some("abc"));
    assert_eq!(file.as_path(), "f");
    assert_eq!(file.as_attr().mode, 0o644);
    assert_eq!(file.as_attr().atime, 10);
    assert_eq!(file.as_attr().mtime, 20);
    assert!(file.as_symlink().is_none());
    assert!(file.as_dir().is_none());

    let link = Entry::symlink("l", "t", attr);
    assert_eq!(link.kind(), EntryKind::Symlink);
    assert_eq!(link.as_md5(), None);
    assert_eq!(link.as_path(), "l");
    assert!(link.as_file().is_none());

    let dir = Entry::dir("d", attr);
    assert_eq!(dir.kind(), EntryKind::Dir);
    assert_eq!(dir.as_md5(), None);
    assert_eq!(dir.as_path(), "d");
    assert!(dir.as_file().is_none());
    assert!(dir.as_symlink().is_none());
}

#[test]
fn entry_equality_leaves_timestamps_out() {
    let a = Entry::file("f", Attributes::new(0o644, 1, 2), "m", 3).unwrap();
    let b = Entry::file("f", Attributes::new(0o644, 9, 9), "m", 3).unwrap();
    assert_eq!(a, b);
    assert_ne!(a, Entry::file("f", Attributes::new(0o600, 1, 2), "m", 3).unwrap());
    assert_ne!(a, Entry::file("g", Attributes::new(0o644, 1, 2), "m", 3).unwrap());
    assert_ne!(a, Entry::file("f", Attributes::new(0o644, 1, 2), "n", 3).unwrap());
    assert_ne!(a, Entry::file("f", Attributes::new(0o644, 1, 2), "m", 4).unwrap());
    assert_ne!(Entry::dir("f", Attributes::new(0o644, 1, 2)), a);
    assert_ne!(
        Entry::symlink("l", "a", Attributes::new(0, 0, 0)),
        Entry::symlink("l", "b", Attributes::new(0, 0, 0))
    );
    assert_eq!(Attributes::new(7, 1, 2), Attributes::new(7, 3, 4));
    assert_ne!(Attributes::new(7, 1, 2), Attributes::new(8, 1, 2));
}

#[test]
fn walk_sorts_by_path() {
    let attr = Attributes::new(0, 0, 0);
    let items: Vec<Result<Entry, Error>> = vec![
        Ok(Entry::dir("tests/fixtures/snapshot/is_dir", attr)),
        Ok(Entry::file("tests/fixtures/snapshot/a.txt", attr, "m", 1).unwrap()),
        Ok(Entry::dir("tests/fixtures/snapshot", attr)),
        Ok(Entry::symlink("tests/fixtures/snapshot/is_symlink", "a.txt", attr)),
        Ok(Entry::file("tests/fixtures/snapshot/is_dir/.keep", attr, "k", 0).unwrap()),
    ];
    let sorted = Entry::walk_into_vec(items).unwrap();
    let paths: Vec<&str> = sorted.iter().map(|it| it.as_path()).collect();
    assert_eq!(
        paths,
        vec![
            "tests/fixtures/snapshot",
            "tests/fixtures/snapshot/a.txt",
            "tests/fixtures/snapshot/is_dir",
            "tests/fixtures/snapshot/is_dir/.keep",
            "tests/fixtures/snapshot/is_symlink",
        ]
    );
}

#[test]
fn walk_orders_by_components() {
    let attr = Attributes::new(0, 0, 0);
    let items: Vec<Result<Entry, Error>> =
        vec![Ok(Entry::dir("a.b", attr)), Ok(Entry::dir("a/b", attr)), Ok(Entry::dir("a", attr))];
    let sorted = Entry::walk_into_vec(items).unwrap();
    let paths: Vec<&str> = sorted.iter().map(|it| it.as_path()).collect();
    assert_eq!(paths, vec!["a", "a/b", "a.b"]);
}

#[test]
fn walk_fails_with_the_first_failure() {
    let attr = Attributes::new(0, 0, 0);
    let items: Vec<Result<Entry, Error>> = vec![
        Ok(Entry::dir("b", attr)),
        Err(Error::io("first", "gone")),
        Ok(Entry::dir("a", attr)),
        Err(Error::io("second", "gone")),
    ];
    let err = Entry::walk_into_vec(items).unwrap_err();
    assert_eq!(err.to_string(), "I/O error at \"first\"; gone");
    assert!(Entry::walk_into_vec(Vec::new()).unwrap().is_empty());
}

#[test]
fn entries_are_described_as_debug_prints_them() {
    let attr = Attributes::new(0o100644, -5, 1_550_000_000);
    let file = Entry::file("a \"b\"", attr, "0cc1", 82944).unwrap();
    assert_eq!(file.describe(), format!("{:?}", file));
    assert_eq!(
        file.describe(),
        "File { path: \"a \\\"b\\\"\", attr: Attributes { mode: 33188, atime: -5, \
         mtime: 1550000000 }, md5: \"0cc1\", len: 82944 }"
    );
    let link = Entry::symlink("l", "../t", Attributes::new(0, i64::MIN, i64::MAX));
    assert_eq!(link.describe(), format!("{:?}", link));
    let dir = Entry::dir("/", Attributes::new(u32::MAX, 0, 0));
    assert_eq!(dir.describe(), format!("{:?}", dir));
}
