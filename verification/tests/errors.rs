use tc_cache::errors::ResultExt;
use tc_cache::{Error, ErrorKind};

#[test]
fn io_error_names_the_path() {
    let err = Error::io("dir/file.txt", "not found");
    assert!(matches!(&err.kind, ErrorKind::Io(path) if path == "dir/file.txt"));
    assert_eq!(err.to_string(), "I/O error at \"dir/file.txt\"; not found");
    assert_eq!(err.description(), "I/O error");
    assert_eq!(err.source(), Some("not found"));
}

#[test]
fn snapshot_error_carries_the_message() {
    let err = Error::snapshot("Copy failed", "failed to fill whole buffer");
    assert!(matches!(&err.kind, ErrorKind::Snapshot(message) if message == "Copy failed"));
    assert_eq!(err.to_string(), "Snapshot error; Copy failed; failed to fill whole buffer");
}

#[test]
fn unrecognized_service_error() {
    let err = Error::unrecognized_service("Unable to detect service");
    assert!(matches!(err.kind, ErrorKind::UnrecognizedService));
    assert_eq!(err.to_string(), "Unrecognized service; Unable to detect service");
}

#[test]
fn storage_error() {
    let err = Error::storage("body must be");
    assert!(matches!(err.kind, ErrorKind::Storage));
    assert_eq!(err.to_string(), "Storage error; body must be");
}

#[test]
fn error_without_cause() {
    let err = Error { kind: ErrorKind::Snapshot("m".to_string()), cause: None };
    assert_eq!(err.to_string(), "Snapshot error; m");
    assert_eq!(err.source(), None);
}

#[test]
fn io_err_and_snapshot_err_always_fail() {
    let io: Result<u8, Error> = Error::io_err("p", "c");
    assert_eq!(io.unwrap_err().to_string(), "I/O error at \"p\"; c");
    let snapshot: Result<u8, Error> = Error::snapshot_err("m", "c");
    assert_eq!(snapshot.unwrap_err().to_string(), "Snapshot error; m; c");
}

#[test]
fn result_ext_keeps_success_and_wraps_failure() {
    let ok: Result<u32, String> = Ok(7);
    assert_eq!(ok.io_err("p").unwrap(), 7);
    let failed: Result<u32, String> = Err("boom".to_string());
    let err = failed.io_err("a b").unwrap_err();
    assert_eq!(err.to_string(), "I/O error at \"a b\"; boom");
    let failed: Result<u32, String> = Err("boom".to_string());
    let err = failed.snapshot_err("Read entry failed").unwrap_err();
    assert_eq!(err.to_string(), "Snapshot error; Read entry failed; boom");
    let ok: Result<u32, String> = Ok(9);
    assert_eq!(ok.snapshot_err("m").unwrap(), 9);
}

#[test]
fn quoted_path_escapes_quotes() {
    let err = Error::io("a\"b", "c");
    assert_eq!(err.to_string(), "I/O error at \"a\\\"b\"; c");
}
