use normpath::{components, convert_separators, normalize_virtually, BasePathBuf, ErrorKind, Resolution};

fn same_path(expected: &str, actual: &[u8]) {
    assert_eq!(
        components(expected.as_bytes()),
        components(actual),
        "expected {:?}, got {:?}",
        expected,
        String::from_utf8_lossy(actual),
    );
}

// Joins `path` onto `X:\ABC` and compares with `joined`. Normalizing the
// joined path is finished by the platform's full-path call, except for
// verbatim paths, which the library returns itself: those are compared with
// `normalized`.
fn check(path: &str, joined: &str, normalized: &str) {
    let base = BasePathBuf::try_new(br"X:\ABC").unwrap();
    same_path(joined, base.join(path.as_bytes()).as_bytes());

    match normalize_virtually(joined.as_bytes()).unwrap() {
        Resolution::Ready(b) => same_path(normalized, b.as_bytes()),
        Resolution::Expand(bytes) => {
            assert_eq!(bytes, convert_separators(joined.as_bytes(), None));
        }
    }
}

#[test]
fn test_drive_absolute() {
    check(r"X:\ABC\DEF", r"X:\ABC\DEF", r"X:\ABC\DEF");
    check(r"X:\", r"X:\", r"X:\");
    check(r"X:\ABC\", r"X:\ABC\", r"X:\ABC\");
    check(r"X:\ABC\DEF. .", r"X:\ABC\DEF. .", r"X:\ABC\DEF");
    check(r"X:/ABC/DEF", r"X:/ABC/DEF", r"X:\ABC\DEF");
    check(r"X:\ABC\..\XYZ", r"X:\ABC\..\XYZ", r"X:\XYZ");
    check(r"X:\ABC\..\..\..", r"X:\ABC\..\..\..", r"X:\");
}

#[test]
fn test_drive_relative() {
    check(r"X:DEF\GHI", r"X:\ABC\DEF\GHI", r"X:\ABC\DEF\GHI");
    check(r"X:", r"X:\ABC", r"X:\ABC");
    check(r"X:DEF. .", r"X:\ABC\DEF. .", r"X:\ABC\DEF");
    check(r"Y:", r"Y:", r"Y:\");
    check(r"Z:", r"Z:", r"Z:\");
    check(r"X:ABC\..\XYZ", r"X:\ABC\ABC\..\XYZ", r"X:\ABC\XYZ");
    check(r"X:ABC\..\..\..", r"X:\ABC\ABC\..\..\..", r"X:\");
}

#[test]
fn test_rooted() {
    check(r"\ABC\DEF", r"X:\ABC\DEF", r"X:\ABC\DEF");
    check(r"\", r"X:\", r"X:\");
    check(r"\ABC\DEF. .", r"X:\ABC\DEF. .", r"X:\ABC\DEF");
    check(r"/ABC/DEF", r"X:\ABC\DEF", r"X:\ABC\DEF");
    check(r"\ABC\..\XYZ", r"X:\ABC\..\XYZ", r"X:\XYZ");
    check(r"\ABC\..\..\..", r"X:\ABC\..\..\..", r"X:\");
}

#[test]
fn test_relative() {
    check(r"XYZ\DEF", r"X:\ABC\XYZ\DEF", r"X:\ABC\XYZ\DEF");
    check(r".", r"X:\ABC", r"X:\ABC");
    check(r"XYZ\DEF. .", r"X:\ABC\XYZ\DEF. .", r"X:\ABC\XYZ\DEF");
    check(r"XYZ/DEF", r"X:\ABC\XYZ\DEF", r"X:\ABC\XYZ\DEF");
    check(r"..\XYZ", r"X:\XYZ", r"X:\XYZ");
    check(r"XYZ\..\..\..", r"X:\ABC\XYZ\..\..\..", r"X:\");
}

#[test]
fn test_unc_absolute() {
    check(r"\\server\share\ABC\DEF", r"\\server\share\ABC\DEF", r"\\server\share\ABC\DEF");
    check(r"\\server\share", r"\\server\share", r"\\server\share");
    check(r"\\server\share\ABC. .", r"\\server\share\ABC. .", r"\\server\share\ABC");
    check(r"//server/share/ABC/DEF", r"//server/share/ABC/DEF", r"\\server\share\ABC\DEF");
    check(r"\\server\share\ABC\..\XYZ", r"\\server\share\ABC\..\XYZ", r"\\server\share\XYZ");
    check(r"\\server\share\ABC\..\..\..", r"\\server\share\ABC\..\..\..", r"\\server\share");

    let error = match normalize_virtually(br"\\server") {
        Err(e) => e,
        Ok(_) => panic!("a partial UNC prefix was accepted"),
    };
    assert_eq!("partial UNC prefixes are invalid", error.message());
    assert_eq!(ErrorKind::NotFound, error.kind());
}

#[test]
fn test_local_device() {
    check(r"\\.\COM20", r"\\.\COM20", r"\\.\COM20");
    check(r"\\.\pipe\mypipe", r"\\.\pipe\mypipe", r"\\.\pipe\mypipe");
    check(r"\\.\X:\ABC\DEF. .", r"\\.\X:\ABC\DEF. .", r"\\.\X:\ABC\DEF");
    check(r"\\.\X:/ABC/DEF", r"\\.\X:/ABC/DEF", r"\\.\X:\ABC\DEF");
    check(r"\\.\X:\ABC\..\XYZ", r"\\.\X:\ABC\..\XYZ", r"\\.\X:\XYZ");
    check(r"\\.\X:\ABC\..\..\C:\", r"\\.\X:\ABC\..\..\C:\", r"\\.\C:\");
    check(r"\\.\pipe\mypipe\..\notmine", r"\\.\pipe\mypipe\..\notmine", r"\\.\pipe\notmine");

    check(r"COM1", r"X:\ABC\COM1", r"\\.\COM1");
    check(r"X:\COM1", r"X:\COM1", r"\\.\COM1");
    check(r"X:COM1", r"X:\ABC\COM1", r"\\.\COM1");
    check(r"valid\COM1", r"X:\ABC\valid\COM1", r"\\.\COM1");
    check(r"X:\notvalid\COM1", r"X:\notvalid\COM1", r"\\.\COM1");
    check(r"X:\COM1.blah", r"X:\COM1.blah", r"\\.\COM1");
    check(r"X:\COM1:blah", r"X:\COM1:blah", r"\\.\COM1");
    check(r"X:\COM1  .blah", r"X:\COM1  .blah", r"\\.\COM1");
    check(r"\\.\X:\COM1", r"\\.\X:\COM1", r"\\.\X:\COM1");
    check(r"\\abc\xyz\COM1", r"\\abc\xyz\COM1", r"\\abc\xyz\COM1");
}

#[test]
fn test_root_local_device() {
    check(r"\\?\X:\ABC\DEF", r"\\?\X:\ABC\DEF", r"\\?\X:\ABC\DEF");
    check(r"\\?\X:\", r"\\?\X:\", r"\\?\X:\");
    check(r"\\?\X:", r"\\?\X:", r"\\?\X:");
    check(r"\\?\X:\COM1", r"\\?\X:\COM1", r"\\?\X:\COM1");
    check(r"\\?\X:\ABC\DEF. .", r"\\?\X:\ABC\DEF. .", r"\\?\X:\ABC\DEF. .");
    check(r"\\?\X:/ABC/DEF", r"\\?\X:/ABC/DEF", r"\\?\X:/ABC/DEF");
    check(r"\\?\X:\ABC\..\XYZ", r"\\?\X:\ABC\..\XYZ", r"\\?\X:\ABC\..\XYZ");
    check(r"\\?\X:\ABC\..\..\..", r"\\?\X:\ABC\..\..\..", r"\\?\X:\ABC\..\..\..");
}

// A verbatim path is returned with only its `\\?\` marker rewritten, so
// normalizing `//?/X:/ABC/DEF` keeps the `/` after the marker: the platform
// is not asked, and what follows the marker is not touched.
#[test]
fn test_edge_cases() {
    let base = BasePathBuf::try_new(br"X:\ABC").unwrap();
    for (path, normalized) in [
        (r"//?/X:/ABC/DEF", r"\\?\X:\ABC\DEF"),
        (r"//?/X:/", r"\\?\X:\"),
        (r"//?/X:", r"\\?\X:"),
    ] {
        same_path(path, base.join(path.as_bytes()).as_bytes());
        let result = match normalize_virtually(path.as_bytes()).unwrap() {
            Resolution::Ready(b) => b,
            Resolution::Expand(_) => panic!("a verbatim path was sent to the platform"),
        };
        assert_eq!(&result.as_bytes()[..4], br"\\?\");
        assert_eq!(&result.as_bytes()[4..], &path.as_bytes()[4..]);
        assert_eq!(&normalized.as_bytes()[..4], &result.as_bytes()[..4]);
    }
    same_path(r"\\?\X:", normalize_ready(r"//?/X:").as_bytes());
}

fn normalize_ready(path: &str) -> BasePathBuf {
    match normalize_virtually(path.as_bytes()).unwrap() {
        Resolution::Ready(b) => b,
        Resolution::Expand(_) => panic!("a verbatim path was sent to the platform"),
    }
}
