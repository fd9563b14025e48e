use tc_cache::snapshot::unpack;

#[test]
fn is_include() {
    let dirs = vec!["/a".to_string(), "b".to_string()];
    let params = vec![("/a/name", true), ("b/name", true), ("/c/name", false)];

    for (path, expected) in params {
        assert_eq!(unpack::is_include(&dirs, path), expected);
    }
}

#[test]
fn prefixed() {
    let params = vec![
        ("/a/prefix", "/b/file", "/a/prefix/b/file"),
        ("/a/prefix", "b/file", "/a/prefix/b/file"),
        ("a/prefix", "/b/file", "a/prefix/b/file"),
        ("a/prefix", "b/file", "a/prefix/b/file"),
    ];

    for (prefix, item, expected) in params {
        let prefix = Some(prefix.to_string());
        assert_eq!(unpack::prefixed(&prefix, item), expected);
    }
}

#[test]
fn prefixed_without_a_prefix() {
    assert_eq!(unpack::prefixed(&None, "/b/file"), "/b/file");
    assert_eq!(unpack::prefixed(&None, "b/file"), "b/file");
}

#[test]
fn is_include_compares_whole_components() {
    let dirs = vec!["/a".to_string()];
    assert_eq!(unpack::is_include(&dirs, "/a"), true);
    assert_eq!(unpack::is_include(&dirs, "/a/b/c"), true);
    assert_eq!(unpack::is_include(&dirs, "/ab"), false);
    assert_eq!(unpack::is_include(&dirs, "a/b"), false);
    assert_eq!(unpack::is_include(&[], "/a"), false);
}
