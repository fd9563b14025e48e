use tc_cache::hashing;
use tc_cache::snapshot::snappy::frames_ok;
use tc_cache::snapshot::{Attributes, Entry, Pack, Reading, Unpack, Writing};
use tc_cache::ErrorKind;

const FIXTURES_PATH: &str = "tests/fixtures/snapshot";
const A_FILE_PATH: &str = "tests/fixtures/snapshot/a.txt";
const B_FILE_PATH: &str = "tests/fixtures/snapshot/b.txt";
const IS_BIN_PATH: &str = "tests/fixtures/snapshot/is_bin";
const IS_DIR_PATH: &str = "tests/fixtures/snapshot/is_dir";
const IS_SYMLINK_PATH: &str = "tests/fixtures/snapshot/is_symlink";

fn b_file_content() -> Vec<u8> {
    (0..82944u32).map(|i| (i % 251) as u8).collect()
}

fn b_file_entry(content: &[u8]) -> Entry {
    let attr = Attributes::new(0o100644, 1_550_000_000, 1_550_000_001);
    Entry::file(B_FILE_PATH, attr, &hashing::bytes(content), content.len() as u64).unwrap()
}

fn fixture_tree() -> (Vec<Entry>, Vec<Vec<u8>>) {
    let b = b_file_content();
    let bin = vec![0x7fu8, b'E', b'L', b'F', 0, 1, 2, 3];
    let entries = vec![
        Entry::dir(FIXTURES_PATH, Attributes::new(0o40755, 10, 11)),
        Entry::file(A_FILE_PATH, Attributes::new(0o100644, 20, 21), &hashing::bytes(b"a"), 1)
            .unwrap(),
        b_file_entry(&b),
        Entry::file(IS_BIN_PATH, Attributes::new(0o100755, 30, 31), &hashing::bytes(&bin), 8)
            .unwrap(),
        Entry::dir(IS_DIR_PATH, Attributes::new(0o40755, 40, 41)),
        Entry::file(
            "tests/fixtures/snapshot/is_dir/.keep",
            Attributes::new(0o100644, 50, 51),
            &hashing::bytes(b""),
            0,
        )
        .unwrap(),
        Entry::symlink(IS_SYMLINK_PATH, "a.txt", Attributes::new(0o120777, 60, 61)),
    ];
    let contents = vec![vec![], b"a".to_vec(), b, bin, vec![], vec![], vec![]];
    (entries, contents)
}

fn pack_tree(entries: &[Entry], contents: &[Vec<u8>]) -> (Vec<u8>, usize) {
    let mut snapshot = Writing::from(Vec::new()).unwrap();
    let written = snapshot.pack_with_entries(entries, contents).unwrap();
    (snapshot.into_inner(), written)
}

#[test]
fn write_file_entry() {
    let content = b_file_content();
    let mut snapshot = Writing::from(Vec::new()).unwrap();

    let file_entry = b_file_entry(&content);
    assert_eq!(file_entry.as_file().is_some(), true);

    let written = snapshot.write_entry(&file_entry).unwrap();
    assert_eq!(written, 129);

    let (_, _, _, len) = file_entry.as_file().unwrap();
    let written = snapshot.write_file(&content, Some(len)).unwrap();
    assert_eq!(written, 82944);

    snapshot.flush().unwrap();
}

#[test]
fn read_file_entry() {
    let content = b_file_content();
    let archive = {
        let mut snapshot = Writing::from(Vec::new()).unwrap();

        let file_entry = b_file_entry(&content);
        snapshot.write_entry(&file_entry).unwrap();

        let (_, _, _, len) = file_entry.as_file().unwrap();
        snapshot.write_file(&content, Some(len)).unwrap();
        snapshot.flush().unwrap();
        snapshot.into_inner()
    };

    let mut snapshot = Reading::from(&archive).unwrap();
    let (file_entry, used) = snapshot.read_entry().unwrap().unwrap();
    let (path, attr, md5, len) = file_entry.as_file().unwrap();

    assert_eq!(used, 129);
    assert_eq!(path, B_FILE_PATH);
    assert_eq!(md5, hashing::bytes(&content));
    assert_eq!(len, 82944);
    assert_eq!(attr.mode, 0o100644);
    assert_eq!(attr.atime, 1_550_000_000);
    assert_eq!(attr.mtime, 1_550_000_001);

    let mut buf = Vec::new();
    snapshot.copy_to(&mut buf, len).unwrap();

    let actual = hashing::bytes(&buf);
    assert_eq!(md5, actual);
    assert_eq!(buf, content);

    assert_eq!(snapshot.read_entry().unwrap().is_none(), true);
}

#[test]
fn unpack_create_files() {
    let (entries, contents) = fixture_tree();
    let dirs = vec![FIXTURES_PATH.to_string()];

    let (archive, expected) = pack_tree(&entries, &contents);

    let snapshot = Reading::from(&archive).unwrap();
    let (restored, actual) = snapshot.unpack(Some("/tmp/dst".to_string()), &dirs).unwrap();

    assert_eq!(expected, actual);
    assert_eq!(restored.len(), entries.len());
}

#[test]
fn unpack_restore_permissions() {
    let (entries, contents) = fixture_tree();
    let dirs = vec![FIXTURES_PATH.to_string()];
    let (archive, _) = pack_tree(&entries, &contents);

    let snapshot = Reading::from(&archive).unwrap();
    let (restored, _) = snapshot.unpack(Some("/tmp/dst".to_string()), &dirs).unwrap();

    let mode_of = |path: &str| {
        let found = restored.iter().find(|it| it.path == format!("/tmp/dst/{}", path)).unwrap();
        found.entry.as_attr().mode
    };
    assert_eq!(mode_of(A_FILE_PATH) & 0xfff, 0o644);
    assert_eq!(mode_of(IS_BIN_PATH) & 0xfff, 0o755);
    assert_eq!(mode_of(IS_DIR_PATH) & 0xfff, 0o755);
}

#[test]
fn unpack_gives_back_what_was_packed() {
    let (entries, contents) = fixture_tree();
    let dirs = vec!["tests".to_string()];
    let (archive, _) = pack_tree(&entries, &contents);

    let (restored, _) = Reading::from(&archive).unwrap().unpack(None, &dirs).unwrap();

    assert_eq!(restored.len(), entries.len());
    for i in 0..entries.len() {
        assert_eq!(restored[i].entry, entries[i]);
        assert_eq!(restored[i].entry.as_attr().atime, entries[i].as_attr().atime);
        assert_eq!(restored[i].entry.as_attr().mtime, entries[i].as_attr().mtime);
        assert_eq!(restored[i].path, entries[i].as_path());
        assert_eq!(restored[i].content, contents[i]);
        if let Some(md5) = restored[i].entry.as_md5() {
            assert_eq!(md5, hashing::bytes(&restored[i].content));
        }
    }
}

#[test]
fn unpack_keeps_the_target_of_a_link() {
    let entries = vec![Entry::symlink("/a/link", "a.txt", Attributes::new(0o120777, 1, 2))];
    let (archive, _) = pack_tree(&entries, &[]);
    let dirs = vec!["/a".to_string()];
    let (restored, _) =
        Reading::from(&archive).unwrap().unpack(Some("/p".to_string()), &dirs).unwrap();
    assert_eq!(restored.len(), 1);
    let (_, target, _) = restored[0].entry.as_symlink().unwrap();
    assert_eq!(target, "a.txt");
    assert_eq!(restored[0].path, "/p/a/link");
    assert!(restored[0].content.is_empty());
}

#[test]
fn unpack_passes_over_what_lies_outside_the_roots() {
    let attr = Attributes::new(0o100644, 1, 2);
    let entries = vec![
        Entry::dir("/a", Attributes::new(0o40755, 1, 2)),
        Entry::file("/a/one", attr, &hashing::bytes(b"one"), 3).unwrap(),
        Entry::dir("/b", Attributes::new(0o40755, 1, 2)),
        Entry::file("/b/two", attr, &hashing::bytes(b"twotwo"), 6).unwrap(),
        Entry::file("/ab", attr, &hashing::bytes(b"x"), 1).unwrap(),
    ];
    let contents =
        vec![vec![], b"one".to_vec(), vec![], b"twotwo".to_vec(), b"x".to_vec()];
    let (archive, written) = pack_tree(&entries, &contents);
    let dirs = vec!["/a".to_string()];

    let (restored, read) = Reading::from(&archive).unwrap().unpack(None, &dirs).unwrap();

    let paths: Vec<&str> = restored.iter().map(|it| it.path.as_str()).collect();
    assert_eq!(paths, vec!["/a", "/a/one"]);
    assert_eq!(restored[1].content, b"one".to_vec());
    assert_eq!(read, written - 6 - 1);
}

#[test]
fn unpack_without_roots_restores_nothing() {
    let (entries, contents) = fixture_tree();
    let (archive, written) = pack_tree(&entries, &contents);
    let (restored, read) = Reading::from(&archive).unwrap().unpack(None, &[]).unwrap();
    assert!(restored.is_empty());
    assert_eq!(read, written - 1 - 82944 - 8);
}

#[test]
fn packing_twice_gives_the_same_archive() {
    let (entries, contents) = fixture_tree();
    let (first, written_first) = pack_tree(&entries, &contents);
    let (second, written_second) = pack_tree(&entries, &contents);
    assert_eq!(first, second);
    assert_eq!(written_first, written_second);
    assert!(first.len() > 10);
    assert_eq!(&first[0..10], b"\xFF\x06\x00\x00sNaPpY");
}

#[test]
fn pack_counts_records_and_contents() {
    let attr = Attributes::new(0, 0, 0);
    let entries = vec![Entry::dir("d", attr), Entry::file("f", attr, "", 2).unwrap()];
    let contents = vec![vec![], vec![1, 2, 3]];
    let (archive, written) = pack_tree(&entries, &contents);
    let mut reading = Reading::from(&archive).unwrap();
    let (_, first) = reading.read_entry().unwrap().unwrap();
    let (_, second) = reading.read_entry().unwrap().unwrap();
    assert_eq!(written, first + second + 2);
    let mut payload = Vec::new();
    assert_eq!(reading.copy_to(&mut payload, 2).unwrap(), 2);
    assert_eq!(payload, vec![1, 2]);
    assert_eq!(reading.remaining(), 0);
}

#[test]
fn pack_fails_without_the_contents_of_a_file() {
    let attr = Attributes::new(0, 0, 0);
    let entries = vec![Entry::file("f", attr, "", 4).unwrap()];
    let mut snapshot = Writing::from(Vec::new()).unwrap();
    let err = snapshot.pack_with_entries(&entries, &[vec![1, 2, 3]]).unwrap_err();
    assert_eq!(err.to_string(), "Snapshot error; Write data failed; failed to fill whole buffer");
    let mut snapshot = Writing::from(Vec::new()).unwrap();
    let err = snapshot.pack_with_entries(&entries, &[]).unwrap_err();
    assert!(matches!(err.kind, ErrorKind::Snapshot(_)));
    assert!(snapshot.into_inner().len() > 0);
}

#[test]
fn write_file_writes_what_is_asked_for() {
    let mut snapshot = Writing::from(Vec::new()).unwrap();
    assert_eq!(snapshot.pending_len(), 4);
    assert_eq!(snapshot.write_file(b"abcdef", Some(4)).unwrap(), 4);
    assert_eq!(snapshot.pending_len(), 8);
    assert_eq!(snapshot.write_file(b"xyz", None).unwrap(), 3);
    assert_eq!(snapshot.write_file(b"", Some(0)).unwrap(), 0);
    assert_eq!(snapshot.pending_len(), 11);
    let err = snapshot.write_file(b"ab", Some(3)).unwrap_err();
    assert_eq!(err.to_string(), "Snapshot error; Write data failed; failed to fill whole buffer");
    assert_eq!(snapshot.pending_len(), 11);
    let archive = snapshot.into_inner();
    let mut reading = Reading::from(&archive).unwrap();
    let mut out = Vec::new();
    reading.copy_to(&mut out, 7).unwrap();
    assert_eq!(out, b"abcdxyz".to_vec());
}

#[test]
fn flush_appends_to_the_sink() {
    let mut snapshot = Writing::from(vec![9, 9]).unwrap();
    snapshot.flush().unwrap();
    let once = snapshot.into_inner();
    assert_eq!(&once[0..2], &[9, 9]);
    assert_eq!(&once[2..12], b"\xFF\x06\x00\x00sNaPpY");
    let mut again = Writing::from(Vec::new()).unwrap();
    again.flush().unwrap();
    again.flush().unwrap();
    assert_eq!(again.into_inner(), once[2..].to_vec());
}

#[test]
fn reading_checks_the_version() {
    let mut writing = Writing::from(Vec::new()).unwrap();
    writing.flush().unwrap();
    let archive = writing.into_inner();
    let reading = Reading::from(&archive).unwrap();
    assert_eq!(reading.remaining(), 0);

    let mut wrong = Writing::from(Vec::new()).unwrap();
    wrong.write_file(&[1, 2, 3, 4], None).unwrap();
    let wrong = wrong.into_inner();
    let mut reading = Reading::from(&wrong).unwrap();
    let err = reading.check_version().unwrap_err();
    assert_eq!(
        err.to_string(),
        "Snapshot error; Version header mismatch; Expected [160, 241, 178, 1], got [1, 2, 3, 4]"
    );
    assert_eq!(reading.remaining(), 4);
}

#[test]
fn reading_refuses_what_is_no_archive() {
    let err = Reading::from(&[]).unwrap_err();
    assert_eq!(
        err.to_string(),
        "Snapshot error; Read version header failed; failed to fill whole buffer"
    );
    let err = Reading::from(b"plain text, not compressed").unwrap_err();
    assert!(matches!(err.kind, ErrorKind::Snapshot(_)));
}

#[test]
fn reading_a_partial_entry_fails() {
    let mut writing = Writing::from(Vec::new()).unwrap();
    writing.write_file(&[5, 0], None).unwrap();
    let archive = writing.into_inner();
    let mut reading = Reading::from(&archive).unwrap();
    let err = reading.read_entry().unwrap_err();
    assert_eq!(err.to_string(), "Snapshot error; Read entry size failed; failed to fill whole buffer");

    let mut writing = Writing::from(Vec::new()).unwrap();
    writing.write_file(&[5, 0, 0, 0, 1, 2], None).unwrap();
    let archive = writing.into_inner();
    let mut reading = Reading::from(&archive).unwrap();
    let err = reading.read_entry().unwrap_err();
    assert_eq!(err.to_string(), "Snapshot error; Read entry failed; failed to fill whole buffer");
    assert_eq!(reading.remaining(), 6);

    let mut writing = Writing::from(Vec::new()).unwrap();
    writing.write_file(&[2, 0, 0, 0, 1, 2], None).unwrap();
    let archive = writing.into_inner();
    let mut reading = Reading::from(&archive).unwrap();
    let err = reading.read_entry().unwrap_err();
    assert_eq!(err.to_string(), "Snapshot error; Read entry failed; invalid entry record");
    let err = Reading::from(&archive).unwrap().unpack(None, &[]).unwrap_err();
    assert!(matches!(err.kind, ErrorKind::Snapshot(_)));
}

#[test]
fn reading_a_cut_archive_fails() {
    let (entries, contents) = fixture_tree();
    let (archive, _) = pack_tree(&entries, &contents);
    let cut = &archive[..archive.len() - 7];
    let dirs = vec!["tests".to_string()];
    let outcome = match Reading::from(cut) {
        Ok(reading) => reading.unpack(None, &dirs).map(|_| ()),
        Err(err) => Err(err),
    };
    assert!(matches!(outcome.unwrap_err().kind, ErrorKind::Snapshot(_)));
}

#[test]
fn copy_and_skip_fail_past_the_end() {
    let mut writing = Writing::from(Vec::new()).unwrap();
    writing.write_file(&[1, 2, 3], None).unwrap();
    let archive = writing.into_inner();
    let mut reading = Reading::from(&archive).unwrap();
    let mut out = vec![7];
    let err = reading.copy_to(&mut out, 4).unwrap_err();
    assert_eq!(err.to_string(), "Snapshot error; Copy failed; failed to fill whole buffer");
    assert_eq!(out, vec![7]);
    assert_eq!(reading.skip(4).unwrap_err().to_string(), err.to_string());
    assert_eq!(reading.skip(2).unwrap(), 2);
    assert_eq!(reading.copy_to(&mut out, 1).unwrap(), 1);
    assert_eq!(out, vec![7, 3]);
    assert_eq!(reading.skip(0).unwrap(), 0);
    assert_eq!(reading.remaining(), 0);
}

#[test]
fn reading_refuses_a_chunk_too_short_for_its_checksum() {
    for kind in [0x00u8, 0x01] {
        for len in 0u8..4 {
            let mut framed = b"\xFF\x06\x00\x00sNaPpY".to_vec();
            framed.extend_from_slice(&[kind, len, 0, 0]);
            framed.extend_from_slice(&[1, 2, 3, 4, 5, 6, 7, 8]);
            assert_eq!(frames_ok(&framed), false);
            let err = Reading::from(&framed).unwrap_err();
            assert_eq!(
                err.to_string(),
                "Snapshot error; Read frame failed; chunk too short for its checksum"
            );
        }
    }

    let (entries, contents) = fixture_tree();
    let (archive, _) = pack_tree(&entries, &contents);
    assert_eq!(frames_ok(&archive), true);
    assert_eq!(frames_ok(&[]), true);
    assert_eq!(frames_ok(&[0x01, 0, 0]), true);
    assert_eq!(frames_ok(&[0x01, 3, 0, 0]), false);
    assert_eq!(frames_ok(&[0x01, 4, 0, 0]), true);
    assert_eq!(frames_ok(&[0xFE, 0, 0, 0, 0x00, 3, 0, 0]), false);
    assert_eq!(frames_ok(&[0xFE, 1, 0, 0, 0x00, 3, 0, 0]), true);
    assert_eq!(frames_ok(&[0xFE, 1, 0, 0, 9, 0x00, 3, 0, 0]), false);

    let mut tail = archive.clone();
    tail.extend_from_slice(&[0x00, 2, 0, 0, 9, 9, 9, 9]);
    assert_eq!(frames_ok(&tail), false);
    assert!(Reading::from(&tail).is_err());
}

#[test]
fn reading_a_chunk_with_an_empty_body() {
    let mut framed = b"\xFF\x06\x00\x00sNaPpY".to_vec();
    framed.extend_from_slice(&[0x01, 4, 0, 0, 0, 0, 0, 0]);
    let err = Reading::from(&framed).unwrap_err();
    assert!(matches!(err.kind, ErrorKind::Snapshot(_)));
    let mut framed = b"\xFF\x06\x00\x00sNaPpY".to_vec();
    framed.extend_from_slice(&[0x00, 4, 0, 0, 0, 0, 0, 0]);
    let err = Reading::from(&framed).unwrap_err();
    assert!(matches!(err.kind, ErrorKind::Snapshot(_)));
}
