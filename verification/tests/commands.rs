use tc_cache::commands::pull::{is_cacheable, Probe};
use tc_cache::commands::push::{detect_changes, detect_changes_verbose};
use tc_cache::snapshot::{Attributes, Diff, Entry};
use tc_cache::{Config, ErrorKind, Pull, Push, Storage};

const FIXTURES_PATH: &str = "tests/fixtures/snapshot";
const CANONICAL_PATH: &str = "/checkout/tests/fixtures/snapshot";

fn found(path: &str) -> Probe {
    Probe::Found { path: path.to_string(), is_symlink: false }
}

#[test]
fn pull() {
    let dirs = vec![FIXTURES_PATH.to_string()];

    let cfg = Config::from("/tmp/work").unwrap();
    let storage = Storage::new(&cfg);
    let command = Pull::new(&cfg, &storage, &dirs, Some("/tmp/dst"));

    assert_eq!(command.cached_dirs(), &dirs);
    assert!(command.download().unwrap().is_none());
    let pulled = command.run(&[found(CANONICAL_PATH)], None).unwrap();
    assert_eq!(pulled.cached_dirs, vec![CANONICAL_PATH.to_string()]);
    assert!(pulled.restored.is_empty());
}

#[test]
fn push() {
    let cfg = Config::from("/tmp/work").unwrap();
    let storage = Storage::new(&cfg);

    let dirs = vec![FIXTURES_PATH.to_string()];
    let pull = Pull::new(&cfg, &storage, &dirs, Some("/tmp/dst"));
    let push = Push::new(&cfg, &storage);

    let pulled = pull.run(&[found(CANONICAL_PATH)], None).unwrap();

    let actual = pulled.cached_dirs;
    let expected = vec![CANONICAL_PATH.to_string()];
    assert_eq!(actual, expected);

    let current = vec![Entry::dir(CANONICAL_PATH, Attributes::new(0o40755, 1, 2))];
    let (due, lines) = push.run(&actual, &[], &current);
    assert_eq!(due, true);
    assert_eq!(lines, vec!["No files from a previous snapshot, assume it isn't cached before"]);

    let (archive, written) = push.snapshot(&current, &[]).unwrap();
    assert!(written > 0);
    assert!(push.upload(archive.len()).unwrap().is_none());

    let again = Pull::new(&cfg, &storage, &dirs, None);
    let pulled = again.run(&[found(CANONICAL_PATH)], Some(&archive)).unwrap();
    assert_eq!(pulled.restored.len(), 1);
    assert_eq!(pulled.restored[0].entry, current[0]);
    assert_eq!(pulled.restored[0].path, CANONICAL_PATH);
}

#[test]
fn push_leaves_an_unchanged_tree_alone() {
    let cfg = Config::from("/tmp/work").unwrap();
    let storage = Storage::new(&cfg);
    let push = Push::new(&cfg, &storage);
    let dirs = vec![CANONICAL_PATH.to_string()];
    let previous = vec![
        Entry::dir(CANONICAL_PATH, Attributes::new(0o40755, 1, 2)),
        Entry::file("/checkout/tests/fixtures/snapshot/a.txt", Attributes::new(0o100644, 1, 2), "m", 1)
            .unwrap(),
    ];
    let current = vec![
        Entry::dir(CANONICAL_PATH, Attributes::new(0o40755, 5, 6)),
        Entry::file("/checkout/tests/fixtures/snapshot/a.txt", Attributes::new(0o100644, 7, 8), "m", 1)
            .unwrap(),
    ];
    let (due, lines) = push.run(&dirs, &previous, &current);
    assert_eq!(due, false);
    assert_eq!(lines, vec!["No changes detected"]);

    let (due, lines) = push.run(&dirs, &previous, &current[..1]);
    assert_eq!(due, true);
    assert_eq!(
        lines,
        vec!["Changes detected; \"/checkout/tests/fixtures/snapshot/a.txt\""]
    );
}

#[test]
fn push_without_cached_directories() {
    let cfg = Config::from("/tmp/work").unwrap();
    let storage = Storage::new(&cfg);
    let push = Push::new(&cfg, &storage);
    let current = vec![Entry::dir("/x", Attributes::new(0, 0, 0))];
    let (due, lines) = push.run(&[], &[], &current);
    assert_eq!(due, false);
    assert_eq!(lines, vec!["No cached directories found, exiting"]);
}

#[test]
fn push_uploads_only_where_allowed() {
    let cfg = Config::from("/tmp/work").unwrap();
    let mut storage = Storage::new(&cfg);
    storage.uri("s3://bucket/prefix").unwrap();
    storage.key_prefix("Project");
    assert!(Push::new(&cfg, &storage).upload(3).unwrap().is_none());
    let dirs: Vec<String> = Vec::new();
    let download = Pull::new(&cfg, &storage, &dirs, None).download().unwrap().unwrap();
    assert_eq!(download.key, "prefix/Project/snapshot.snappy");
    assert_eq!(download.path, "/tmp/work/snapshot.snappy");
    storage.uploadable(true);
    let upload = Push::new(&cfg, &storage).upload(3).unwrap().unwrap();
    assert_eq!(upload.key, "prefix/Project/snapshot.snappy");
    assert_eq!(upload.path, "/tmp/work/snapshot.snappy");
    assert_eq!(upload.parts.len(), 1);
    assert_eq!(upload.parts[0].len, 3);
}

#[test]
fn changes_are_reported() {
    let none: Vec<Diff> = Vec::new();
    assert_eq!(detect_changes(&none, false), (false, vec!["No changes detected".to_string()]));
    assert_eq!(detect_changes(&none, true), (false, vec!["No changes detected".to_string()]));

    let one = vec![Diff::Added("a b".to_string())];
    assert_eq!(
        detect_changes(&one, false),
        (true, vec!["Changes detected; \"a b\"".to_string()])
    );
    assert_eq!(detect_changes(&one, true), (true, vec!["+ \"a b\"".to_string()]));

    let attr = Attributes::new(0, 0, 0);
    let many = vec![
        Diff::Removed("r".to_string()),
        Diff::Added("a".to_string()),
        Diff::Changed { left: Entry::dir("c", attr), right: Entry::dir("c", attr) },
    ];
    assert_eq!(
        detect_changes(&many, false),
        (true, vec!["Changed detected; \"r\" plus 2 files".to_string()])
    );
    let entry = "Dir { path: \"c\", attr: Attributes { mode: 0, atime: 0, mtime: 0 } }";
    let lines = vec![
        "- \"r\"".to_string(),
        "+ \"a\"".to_string(),
        format!("! \"c\" [{} != {}]", entry, entry),
    ];
    assert_eq!(detect_changes(&many, true), (true, lines.clone()));
    assert_eq!(detect_changes_verbose(&many), lines);
    let twelve: Vec<Diff> = (0..12).map(|i| Diff::Added(format!("path-{}", i))).collect();
    assert_eq!(
        detect_changes(&twelve, false).1,
        vec!["Changed detected; \"path-0\" plus 11 files".to_string()]
    );
}

#[test]
fn directories_that_can_be_cached() {
    assert_eq!(is_cacheable(&found("/x")), Some("/x".to_string()));
    assert_eq!(is_cacheable(&Probe::Found { path: "/l".to_string(), is_symlink: true }), None);
    assert_eq!(is_cacheable(&Probe::Failed), None);

    let cfg = Config::from("/tmp/work").unwrap();
    let storage = Storage::new(&cfg);
    let dirs = vec!["a".to_string(), "l".to_string(), "gone".to_string(), "b".to_string()];
    let probes = vec![
        found("/abs/a"),
        Probe::Found { path: "/abs/l".to_string(), is_symlink: true },
        Probe::Failed,
        found("/abs/b"),
    ];
    let pulled = Pull::new(&cfg, &storage, &dirs, None).run(&probes, None).unwrap();
    assert_eq!(pulled.cached_dirs, vec!["/abs/a".to_string(), "/abs/b".to_string()]);
}

#[test]
fn pull_restores_below_the_prefix() {
    let cfg = Config::from("/tmp/work").unwrap();
    let storage = Storage::new(&cfg);
    let push = Push::new(&cfg, &storage);
    let entries = vec![
        Entry::dir("/a", Attributes::new(0o40755, 1, 2)),
        Entry::file("/a/f", Attributes::new(0o100755, 3, 4), &tc_cache::hashing::bytes(b"hi"), 2)
            .unwrap(),
        Entry::dir("/b", Attributes::new(0o40755, 1, 2)),
        Entry::file("/b/g", Attributes::new(0o100644, 3, 4), &tc_cache::hashing::bytes(b"no"), 2)
            .unwrap(),
    ];
    let contents = vec![vec![], b"hi".to_vec(), vec![], b"no".to_vec()];
    let (archive, _) = push.snapshot(&entries, &contents).unwrap();

    let dirs = vec!["/a".to_string()];
    let pull = Pull::new(&cfg, &storage, &dirs, Some("/tmp/dst"));
    let pulled = pull.run(&[found("/a")], Some(&archive)).unwrap();
    let paths: Vec<&str> = pulled.restored.iter().map(|it| it.path.as_str()).collect();
    assert_eq!(paths, vec!["/tmp/dst/a", "/tmp/dst/a/f"]);
    assert_eq!(pulled.restored[1].content, b"hi".to_vec());
    assert_eq!(pulled.restored[1].entry.as_attr().mode & 0o777, 0o755);
}

#[test]
fn pull_fails_on_a_damaged_archive() {
    let cfg = Config::from("/tmp/work").unwrap();
    let storage = Storage::new(&cfg);
    let dirs = vec!["/a".to_string()];
    let err = Pull::new(&cfg, &storage, &dirs, None)
        .run(&[found("/a")], Some(b"damaged"))
        .unwrap_err();
    assert!(matches!(err.kind, ErrorKind::Snapshot(_)));
}

#[test]
fn pull_refuses_a_chunk_too_short_for_its_checksum() {
    let cfg = Config::from("/tmp/work").unwrap();
    let storage = Storage::new(&cfg);
    let dirs = vec!["/a".to_string()];
    let mut framed = b"\xFF\x06\x00\x00sNaPpY".to_vec();
    framed.extend_from_slice(&[0x01, 2, 0, 0, 1, 2, 3, 4]);
    let err = Pull::new(&cfg, &storage, &dirs, None)
        .run(&[found("/a")], Some(&framed))
        .unwrap_err();
    assert_eq!(
        err.to_string(),
        "Snapshot error; Read frame failed; chunk too short for its checksum"
    );
}
