use tc_cache::storage::backend::s3::{parts, Region, CHUNK_SIZE, CONCURRENCY, S3};
use tc_cache::storage::backend::{Backend, DownloadRequest, Part, UploadRequest};
use tc_cache::{Config, ErrorKind, Storage};

#[test]
fn prefix() {
    let cfg = Config::from("/tmp/work").unwrap();
    let mut storage = Storage::new(&cfg);

    assert_eq!(storage.key_prefixed("foo"), "foo");

    storage.key_prefix("bar");

    assert_eq!(storage.key_prefixed("foo"), "bar/foo");
}

#[test]
fn save() {
    let cfg = Config::from("/tmp/work").unwrap();
    let mut storage = Storage::new(&cfg);

    storage.uri("s3://bucket/prefix").unwrap();
    storage.key_prefix("prefix");
    let (uri, key_prefix, uploadable) = storage.save();
    assert_eq!(uri.as_deref(), Some("s3://bucket/prefix"));
    assert_eq!(key_prefix.as_deref(), Some("prefix"));
    assert_eq!(uploadable, false);

    let loaded =
        Storage::load(&cfg.storage_file, uri.as_deref(), key_prefix.as_deref(), Some(uploadable))
            .unwrap();
    assert_eq!(loaded.path, "/tmp/work/storage.json");
    assert_eq!(loaded.uri.as_deref(), Some("s3://bucket/prefix"));
    assert_eq!(loaded.key_prefix.as_deref(), Some("prefix"));
    assert_eq!(loaded.uploadable, false);
    assert!(loaded.is_downloable());
    assert!(!loaded.is_uploadable());
}

#[test]
fn s3_from_url() {
    let params = vec![
        ("s3://bucket-name/prefix?region=eu-west-1", "s3://bucket-name/prefix?region=eu-west-1"),
        ("s3://bucket-name?region=eu-west-1", "s3://bucket-name?region=eu-west-1"),
        ("s3://bucket-name/prefix", "s3://bucket-name/prefix?region="),
        ("s3://bucket-name", "s3://bucket-name?region="),
        (
            "s3://bucket-name/?endpoint=http://localhost:8080",
            "s3://bucket-name?endpoint=http://localhost:8080",
        ),
    ];

    for (uri, expected) in params {
        let cfg = Config::from("/tmp/work").unwrap();
        let mut storage = Storage::new(&cfg);
        storage.uri(uri).unwrap();
        let actual = storage.backend.unwrap();
        assert!(
            actual.to_string().starts_with(expected),
            "Expect that '{}' starts with '{}'",
            actual.to_string(),
            expected
        );
    }
}

#[test]
fn parse_err() {
    let params = vec!["http://example.com"];

    for uri in params {
        let cfg = Config::from("/tmp/work").unwrap();
        let mut storage = Storage::new(&cfg);
        match storage.uri(uri) {
            Err(err) => {
                assert!(matches!(err.kind, ErrorKind::Storage));
                assert_eq!(
                    err.to_string(),
                    "Storage error; Unknown remote uri 'http://example.com/'"
                );
            }
            Ok(ok) => unreachable!("{:?}", ok),
        }
        assert!(storage.backend.is_none());
        assert!(storage.uri.is_none());
    }
}

#[test]
fn uri_that_is_no_address() {
    let cfg = Config::from("/tmp/work").unwrap();
    let mut storage = Storage::new(&cfg);
    let err = storage.uri("not an address").unwrap_err();
    assert!(matches!(err.kind, ErrorKind::Storage));
    assert_eq!(err.to_string(), "Storage error; relative URL without a base");
    let err = storage.uri("s3:/prefix").unwrap_err();
    assert_eq!(err.to_string(), "Storage error; Unrecognized bucket 'None'");
    assert!(!storage.is_downloable());
}

#[test]
fn region_and_endpoint() {
    let cfg = Config::from("/tmp/work").unwrap();
    let mut storage = Storage::new(&cfg);
    storage.uri("s3://b/p/q?region=eu-west-1&endpoint=http://h:9000&region=us-east-1").unwrap();
    let store = storage.backend.as_ref().unwrap();
    assert_eq!(store.bucket_name, "b");
    assert_eq!(store.key_prefix.as_deref(), Some("p/q"));
    assert!(matches!(&store.region, Region::Custom { name, endpoint }
        if name == "custom" && endpoint == "http://h:9000"));

    storage.uri("s3://b?region=EUWEST1&region=us-east-1").unwrap();
    let store = storage.backend.as_ref().unwrap();
    assert_eq!(store.key_prefix, None);
    assert!(matches!(&store.region, Region::Named(name) if name == "eu-west-1"));

    storage.uri("s3://b?region=atlantis").unwrap();
    assert!(matches!(&storage.backend.as_ref().unwrap().region, Region::Default));
    assert_eq!(S3::scheme(), "s3");
}

#[test]
fn uploadable_needs_a_store() {
    let cfg = Config::from("/tmp/work").unwrap();
    let mut storage = Storage::new(&cfg);
    storage.uploadable(true);
    assert!(!storage.is_uploadable());
    assert!(!storage.is_downloable());
    assert!(storage.download("/tmp/work/snapshot.snappy").unwrap().is_none());
    assert!(storage.upload("/tmp/work/snapshot.snappy", 5).unwrap().is_none());
    storage.uri("s3://bucket").unwrap();
    assert!(storage.is_uploadable());
    storage.uploadable(false);
    assert!(!storage.is_uploadable());
    assert!(storage.is_downloable());
}

#[test]
fn keys_of_transfers() {
    let cfg = Config::from("/tmp/work").unwrap();
    let mut storage = Storage::new(&cfg);
    storage.uri("s3://bucket/cache").unwrap();
    storage.key_prefix("Project_Id");
    storage.key_prefix("linux");
    assert_eq!(storage.key_prefixed("x"), "Project_Id/linux/x");

    let download = storage.download(&cfg.snapshot_file).unwrap().unwrap();
    assert_eq!(download.bucket, "bucket");
    assert_eq!(download.key, "cache/Project_Id/linux/snapshot.snappy");
    assert_eq!(download.path, "/tmp/work/snapshot.snappy");

    let upload = storage.upload(&cfg.snapshot_file, CHUNK_SIZE + 1).unwrap().unwrap();
    assert_eq!(upload.bucket, "bucket");
    assert_eq!(upload.key, "cache/Project_Id/linux/snapshot.snappy");
    assert_eq!(upload.path, "/tmp/work/snapshot.snappy");
    assert_eq!(upload.concurrency, CONCURRENCY);
    assert_eq!(
        upload.parts,
        vec![
            Part { number: 1, offset: 0, len: CHUNK_SIZE },
            Part { number: 2, offset: CHUNK_SIZE, len: 1 },
        ]
    );

    let err = storage.download("/").unwrap_err();
    assert_eq!(err.to_string(), "Storage error; Empty file name for \"/\"");
    let err = storage.upload("..", 1).unwrap_err();
    assert_eq!(err.to_string(), "Storage error; Empty file name for \"..\"");
}

#[test]
fn backend_lays_out_requests() {
    let store = S3 { bucket_name: "b".to_string(), key_prefix: None, region: Region::Default };
    let plan = store.download(DownloadRequest { path: "p".to_string(), key: "k".to_string() });
    assert_eq!((plan.bucket.as_str(), plan.key.as_str(), plan.path.as_str()), ("b", "k", "p"));
    let plan = store.upload(UploadRequest { path: "p".to_string(), len: 0, key: "k".to_string() });
    assert_eq!(plan.key, "k");
    assert!(plan.parts.is_empty());
    assert_eq!(store.to_string(), "s3://b?region=");
    assert_eq!(store.key_prefixed("k"), "k");
}

#[test]
fn parts_of_an_upload() {
    assert_eq!(CHUNK_SIZE, 10 * 1024 * 1024);
    assert_eq!(CONCURRENCY, 10);
    assert_eq!(parts(0, 4), vec![]);
    assert_eq!(parts(1, 4), vec![Part { number: 1, offset: 0, len: 1 }]);
    assert_eq!(parts(4, 4), vec![Part { number: 1, offset: 0, len: 4 }]);
    assert_eq!(
        parts(9, 4),
        vec![
            Part { number: 1, offset: 0, len: 4 },
            Part { number: 2, offset: 4, len: 4 },
            Part { number: 3, offset: 8, len: 1 },
        ]
    );
    let big = parts(3 * CHUNK_SIZE, CHUNK_SIZE);
    assert_eq!(big.len(), 3);
    assert_eq!(big[2], Part { number: 3, offset: 2 * CHUNK_SIZE, len: CHUNK_SIZE });
}

#[test]
fn answers_to_a_fetch() {
    assert_eq!(S3::downloaded(true, Some(7)).unwrap(), 7);
    let err = S3::downloaded(false, Some(7)).unwrap_err();
    assert_eq!(err.to_string(), "Storage error; body must be");
    let err = S3::downloaded(true, None).unwrap_err();
    assert_eq!(err.to_string(), "Storage error; content length must be");
    let err = S3::downloaded(true, Some(0)).unwrap_err();
    assert_eq!(err.to_string(), "Storage error; Content length must be positive, got 0");
    let err = S3::downloaded(true, Some(-12)).unwrap_err();
    assert_eq!(err.to_string(), "Storage error; Content length must be positive, got -12");
    let err = S3::downloaded(true, Some(i64::MIN)).unwrap_err();
    assert_eq!(
        err.to_string(),
        "Storage error; Content length must be positive, got -9223372036854775808"
    );
}

#[test]
fn load_sets_what_was_saved() {
    let storage = Storage::load("/w/storage.json", None, None, None).unwrap();
    assert!(storage.backend.is_none());
    assert_eq!(storage.uri, None);
    assert_eq!(storage.key_prefix, None);
    assert_eq!(storage.uploadable, false);
    let storage =
        Storage::load("/w/storage.json", Some("s3://b/k?region=eu-west-1"), Some("p"), Some(true))
            .unwrap();
    assert!(storage.is_uploadable());
    assert_eq!(storage.key_prefixed("f"), "p/f");
    assert_eq!(storage.backend.unwrap().to_string(), "s3://b/k?region=eu-west-1");
    let err = Storage::load("/w/storage.json", Some("ftp://b"), None, None).unwrap_err();
    assert!(matches!(err.kind, ErrorKind::Storage));
}

#[test]
fn config_names_the_files() {
    let mut cfg = Config::from("/home/ci/.tc-cache").unwrap();
    assert_eq!(cfg.working_dir, "/home/ci/.tc-cache");
    assert_eq!(cfg.cached_dirs_file, "/home/ci/.tc-cache/cached_dirs.json");
    assert_eq!(cfg.cached_entries_file, "/home/ci/.tc-cache/cached_entries.json");
    assert_eq!(cfg.snapshot_file, "/home/ci/.tc-cache/snapshot.snappy");
    assert_eq!(cfg.storage_file, "/home/ci/.tc-cache/storage.json");
    assert_eq!(cfg.verbose, false);
    cfg.verbose(true);
    assert_eq!(cfg.verbose, true);
    assert_eq!(Config::snapshot_file_name(), "snapshot.snappy");
    assert_eq!(Config::default_dir(Some("/home/ci")), "/home/ci/.tc-cache");
    assert_eq!(Config::default_dir(None), "./.tc-cache");
}
