use normpath::{components, convert_separators, normalize_virtually, BasePathBuf, Resolution};

fn same_path(expected: &str, actual: &[u8]) {
    assert_eq!(
        components(expected.as_bytes()),
        components(actual),
        "expected {:?}, got {:?}",
        expected,
        String::from_utf8_lossy(actual),
    );
}

fn check(path: &str, joined: &str, normalized: &str) {
    let base = BasePathBuf::try_new(br"X:\ABC").unwrap();
    same_path(joined, base.join(path.as_bytes()).as_bytes());

    match normalize_virtually(joined.as_bytes()).unwrap() {
        Resolution::Ready(b) => same_path(normalized, b.as_bytes()),
        Resolution::Expand(bytes) => {
            assert_eq!(bytes, convert_separators(joined.as_bytes(), None));
        }
    }
}

fn test_join(base: &str, path: &str, result: &str) {
    let base = BasePathBuf::try_new(base.as_bytes()).unwrap();
    same_path(result, base.join(path.as_bytes()).as_bytes());
}

#[test]
fn test_simple() {
    check(r"a\b\c", r"X:\ABC\a\b\c", r"X:\ABC\a\b\c");
    check(r"a/b\c", r"X:\ABC\a\b\c", r"X:\ABC\a\b\c");
    check(r"a/b\c\", r"X:\ABC\a\b\c\", r"X:\ABC\a\b\c\");
    check(r"a/b\c/", r"X:\ABC\a\b\c\", r"X:\ABC\a\b\c\");
    check(r"\\", r"X:\\", r"X:\");
    check(r"/", r"X:\", r"X:\");
    check(r"//", r"X:\\", r"X:\");

    check(r"C:\a\b", r"C:\a\b", r"C:\a\b");
    check(r"C:\", r"C:\", r"C:\");
    check(r"C:\.", r"C:\.", r"C:\");
    check(r"C:\..", r"C:\..", r"C:\");

    check(r"\\server\share\a\b", r"\\server\share\a\b", r"\\server\share\a\b");
    check(r"\\server\share\a\.\b", r"\\server\share\a\.\b", r"\\server\share\a\b");
    check(r"\\server\share\a\..\b", r"\\server\share\a\..\b", r"\\server\share\b");
    check(r"\\server\share\a\b\", r"\\server\share\a\b\", r"\\server\share\a\b\");

    check(r"\\?\a\b", r"\\?\a\b", r"\\?\a\b");
    check(r"\\?\a/\\b\", r"\\?\a/\\b\", r"\\?\a/\\b\");
    check(r"\\?\a/\\b/", r"\\?\a/\\b/", r"\\?\a/\\b/");
    check(r"\\?\a\b", r"\\?\a\b", r"\\?\a\b");
}

#[test]
fn test_complex() {
    test_join(r"c:\", r"windows", r"c:\windows");
    test_join(r"c:", r"windows", r"c:windows");

    test_join(r"C:\a", r"C:\b.txt", r"C:\b.txt");
    test_join(r"C:\a\b\c", "C:d", r"C:\a\b\c\d");
    test_join(r"C:a\b\c", "C:d", r"C:a\b\c\d");
    test_join(r"C:", r"a\b\c", r"C:a\b\c");
    test_join(r"C:", r"..\a", r"C:..\a");
    test_join(r"\\server\share\foo", "bar", r"\\server\share\foo\bar");
    test_join(r"\\server\share\foo", "C:baz", "C:baz");
    test_join(r"\\?\C:\a\b", r"C:c\d", r"C:c\d");
    test_join(r"\\?\C:a\b", r"C:c\d", r"C:c\d");
    test_join(r"\\?\C:\a\b", r"C:\c\d", r"C:\c\d");
    test_join(r"\\?\foo\bar", "baz", r"\\?\foo\bar\baz");
    test_join(r"\\?\UNC\server\share\foo", "bar", r"\\?\UNC\server\share\foo\bar");
    test_join(r"\\?\UNC\server\share", r"C:\a", r"C:\a");
    test_join(r"\\?\UNC\server\share", "C:a", "C:a");

    test_join(r"\\?\UNC\server", "foo", r"\\?\UNC\server\foo");

    test_join(r"C:\a", r"\\?\UNC\server\share", r"\\?\UNC\server\share");
    test_join(r"\\.\foo\bar", "baz", r"\\.\foo\bar\baz");
    test_join(r"\\.\foo\bar", "C:a", "C:a");
    test_join(r"\\.\foo", r"..\bar", r"\\.\foo\bar");
}
