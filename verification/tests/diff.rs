use tc_cache::snapshot::{diff, Attributes, Diff, Entry};

#[test]
fn diff_when_same() {
    let attr = Attributes::new(0, 0, 0);
    let left = vec![
        Entry::file("a", attr, "a", 1).unwrap(),
        Entry::file("b", attr, "b", 2).unwrap(),
    ];
    let right = vec![
        Entry::file("a", attr, "a", 1).unwrap(),
        Entry::file("b", attr, "b", 2).unwrap(),
    ];

    let actual = diff(&left, &right);

    assert_eq!(actual.is_empty(), true, "should be empty, got {:?}", actual);
}

#[test]
fn diff_when_added() {
    let attr = Attributes::new(0, 0, 0);
    let left = vec![
        Entry::file("a", attr, "a", 1).unwrap(),
        Entry::file("b", attr, "b", 2).unwrap(),
    ];
    let right = vec![
        Entry::file("a", attr, "a", 1).unwrap(),
        Entry::file("b", attr, "b", 2).unwrap(),
        Entry::file("c", attr, "c", 3).unwrap(),
    ];

    let actual = diff(&left, &right);

    let mut expected = Vec::new();
    expected.push(Diff::Added(String::from("c")));

    assert_eq!(actual, expected);
}

#[test]
fn diff_when_removed() {
    let attr = Attributes::new(0, 0, 0);
    let left = vec![
        Entry::file("a", attr, "a", 1).unwrap(),
        Entry::file("b", attr, "b", 2).unwrap(),
    ];
    let right = vec![Entry::file("a", attr, "a", 1).unwrap()];

    let actual = diff(&left, &right);
    let mut expected = Vec::new();
    expected.push(Diff::Removed(String::from("b")));

    assert_eq!(actual, expected);
}

#[test]
fn diff_when_changed() {
    let attr = Attributes::new(0, 0, 0);
    let earlier = Entry::file("a", attr, "a", 1).unwrap();
    let changed = Entry::file("a", attr, "changed", 42).unwrap();

    let left = vec![earlier.clone(), Entry::file("b", attr, "b", 2).unwrap()];
    let right = vec![changed.clone(), Entry::file("b", attr, "b", 2).unwrap()];

    let actual = diff(&left, &right);
    let mut expected = Vec::new();

    expected.push(Diff::Changed {
        left: earlier,
        right: changed,
    });

    assert_eq!(actual, expected);
}

#[test]
fn diff_against_nothing() {
    let attr = Attributes::new(0o755, 0, 0);
    let entries = vec![Entry::dir("/x", attr), Entry::symlink("/x/l", "t", attr)];
    assert_eq!(
        diff(&[], &entries),
        vec![Diff::Added("/x".to_string()), Diff::Added("/x/l".to_string())]
    );
    assert_eq!(
        diff(&entries, &[]),
        vec![Diff::Removed("/x".to_string()), Diff::Removed("/x/l".to_string())]
    );
    assert!(diff(&[], &[]).is_empty());
}

#[test]
fn diff_ignores_timestamps_but_not_modes() {
    let left = vec![Entry::dir("/d", Attributes::new(0o755, 1, 2))];
    let later = vec![Entry::dir("/d", Attributes::new(0o755, 30, 40))];
    assert!(diff(&left, &later).is_empty());

    let other_mode = vec![Entry::dir("/d", Attributes::new(0o700, 1, 2))];
    let actual = diff(&left, &other_mode);
    assert_eq!(actual.len(), 1);
    assert!(matches!(&actual[0], Diff::Changed { .. }));
    assert_eq!(actual[0].as_path(), "/d");
}

#[test]
fn diff_tells_shapes_apart() {
    let attr = Attributes::new(0, 0, 0);
    let left = vec![Entry::dir("p", attr)];
    let right = vec![Entry::symlink("p", "t", attr)];
    let actual = diff(&left, &right);
    assert_eq!(
        actual,
        vec![Diff::Changed { left: Entry::dir("p", attr), right: Entry::symlink("p", "t", attr) }]
    );
}

#[test]
fn diff_counts_one_sided_paths_and_changes() {
    let attr = Attributes::new(0, 0, 0);
    let left = vec![
        Entry::file("only-left", attr, "x", 1).unwrap(),
        Entry::file("same", attr, "s", 1).unwrap(),
        Entry::file("differs", attr, "1", 1).unwrap(),
    ];
    let right = vec![
        Entry::file("differs", attr, "2", 1).unwrap(),
        Entry::file("same", attr, "s", 1).unwrap(),
        Entry::file("only-right-1", attr, "y", 1).unwrap(),
        Entry::file("only-right-2", attr, "z", 1).unwrap(),
    ];
    let actual = diff(&left, &right);
    assert_eq!(actual.len(), 1 + 2 + 1);
    assert!(actual.contains(&Diff::Removed("only-left".to_string())));
    assert!(actual.contains(&Diff::Added("only-right-1".to_string())));
    assert!(actual.contains(&Diff::Added("only-right-2".to_string())));
    assert!(actual.contains(&Diff::Changed {
        left: Entry::file("differs", attr, "1", 1).unwrap(),
        right: Entry::file("differs", attr, "2", 1).unwrap(),
    }));
}

#[test]
fn diff_of_a_path_that_occurs_twice() {
    let attr = Attributes::new(0, 0, 0);
    let twice = vec![Entry::dir("d", attr), Entry::dir("d", attr)];
    let once = vec![Entry::dir("d", attr)];
    assert_eq!(diff(&twice, &once), vec![Diff::Removed("d".to_string())]);
    assert_eq!(diff(&twice, &twice), vec![Diff::Removed("d".to_string())]);
    assert!(diff(&once, &twice).is_empty());
}

#[test]
fn diff_line_per_kind() {
    let attr = Attributes::new(0, 0, 0);
    assert_eq!(Diff::Added("a".to_string()).to_string(), "+ \"a\"");
    assert_eq!(Diff::Removed("b".to_string()).to_string(), "- \"b\"");
    let changed = Diff::Changed {
        left: Entry::dir("c", attr),
        right: Entry::dir("c", Attributes::new(0o755, -1, 2)),
    };
    assert_eq!(
        changed.to_string(),
        "! \"c\" [Dir { path: \"c\", attr: Attributes { mode: 0, atime: 0, mtime: 0 } } \
         != Dir { path: \"c\", attr: Attributes { mode: 493, atime: -1, mtime: 2 } }]"
    );
    assert_eq!(changed.as_path(), "c");
}
