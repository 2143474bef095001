use normpath::{
    convert_separators, get_prefix, is_base, normalize, normalize_virtually, parse_prefix, push,
    push_separator, to_base, BasePathBuf, Error, ErrorKind, PathExt, Prefix, Resolution,
};

fn base(path: &str) -> BasePathBuf {
    BasePathBuf::try_new(path.as_bytes()).unwrap()
}

fn joined(b: &str, path: &str) -> String {
    String::from_utf8(base(b).join(path.as_bytes()).into_bytes()).unwrap()
}

fn ready(path: &[u8]) -> Vec<u8> {
    match normalize_virtually(path).unwrap() {
        Resolution::Ready(b) => b.into_bytes(),
        Resolution::Expand(_) => panic!("expected a result without the platform"),
    }
}

#[test]
fn verbatim_normalization_is_idempotent() {
    let once = ready(br"//?/C:\a\..\b/.");
    assert_eq!(once, br"\\?\C:\a\..\b/.".to_vec());
    assert_eq!(ready(&once), once);
}

#[test]
fn expand_request_is_stable() {
    let request = match normalize_virtually(br"C:/a/../b").unwrap() {
        Resolution::Expand(bytes) => bytes,
        Resolution::Ready(_) => panic!("a plain path needs the platform"),
    };
    assert_eq!(request, br"C:\a\..\b".to_vec());
    match normalize_virtually(&request).unwrap() {
        Resolution::Expand(again) => assert_eq!(again, request),
        Resolution::Ready(_) => panic!("a plain path needs the platform"),
    }
}

#[test]
fn verbatim_fragment_replaces_any_base() {
    for b in [r"X:\ABC", r"\\server\share\x", r"C:", r"\\?\UNC\s\t"] {
        assert_eq!(joined(b, r"//?/a/b\c"), r"\\?\a/b\c");
        assert_eq!(joined(b, r"\\?\UNC\srv/x\..\y"), r"\\?\UNC\srv/x\..\y");
    }
}

#[test]
fn parent_pieces_stop_at_the_root() {
    assert_eq!(joined(r"X:\ABC", r"..\..\..\..\XYZ"), r"X:\XYZ");
    assert_eq!(joined(r"X:\ABC\DEF", r"..\..\..\.."), r"X:\");
    assert_eq!(joined(r"\\server\share\foo", r"..\..\x"), r"\\server\share\x");
    assert_eq!(joined(r"\\.\pipe", r"..\..\x"), r"\\.\pipe\x");
    assert_eq!(joined(r"\\?\C:\a", r"..\..\x"), r"\\?\C:\x");
}

#[test]
fn trailing_separator_follows_the_fragment() {
    assert_eq!(joined(r"X:\ABC", r"a\"), r"X:\ABC\a\");
    assert_eq!(joined(r"X:\ABC", r"a\."), r"X:\ABC\a\");
    assert_eq!(joined(r"X:\ABC", r"a/"), r"X:\ABC\a\");
    assert_eq!(joined(r"X:\ABC", r"a"), r"X:\ABC\a");
    assert_eq!(joined(r"X:\ABC", r"..\a\.\\"), r"X:\a\");
    assert_eq!(joined(r"X:\ABC", r"X:a\"), r"X:\ABC\a\");
    assert_eq!(joined(r"X:\ABC", r"C:\a\"), r"C:\a\");
    assert_eq!(joined(r"X:\ABC", r"\a"), r"X:\a");
    assert_eq!(joined(r"X:\ABC", r"C:\a\."), r"C:\a\.\");
    assert_eq!(joined(r"X:\ABC", r"C:\a/"), r"C:\a\");
    assert_eq!(joined(r"X:\ABC", r"\a\."), r"X:\a\.\");
    assert_eq!(joined(r"X:\ABC", r"\\srv\shr\."), r"\\srv\shr\.\");
    // A verbatim fragment is kept exactly as written.
    assert_eq!(joined(r"X:\ABC", r"\\?\a\."), r"\\?\a\.");
}

#[test]
fn scenario_drive_base() {
    assert_eq!(joined(r"X:\ABC", r"DEF\GHI."), r"X:\ABC\DEF\GHI.");
    assert_eq!(joined(r"X:\ABC\DEF", r"..\XYZ"), r"X:\ABC\XYZ");
    assert_eq!(joined(r"X:\ABC", r"\\server\share\foo"), r"\\server\share\foo");
    assert_eq!(joined(r"C:\", r"\\server\share\foo"), r"\\server\share\foo");
    assert_eq!(joined(r"\\server\share\foo", r"C:baz"), r"C:baz");
}

#[test]
fn scenario_partial_unc() {
    assert_eq!(normalize_virtually(br"\\server").err(), Some(Error::PartialUnc));
    assert_eq!(normalize_virtually(br"//server").err(), Some(Error::PartialUnc));
    assert_eq!(normalize_virtually(br"\\").err(), Some(Error::PartialUnc));
    assert!(normalize_virtually(br"\\server\share").is_ok());
    assert!(normalize_virtually(br"\server").is_ok());
}

#[test]
fn edge_empty_fragment_is_a_no_op() {
    for b in [r"X:\ABC", r"X:\", r"C:", r"\\?\a\.", r"\\server\share\x\"] {
        assert_eq!(joined(b, ""), b);
    }
}

#[test]
fn edge_leading_separators_collapse_to_the_drive() {
    assert_eq!(joined(r"X:\ABC", r"\\\x"), r"X:\x");
    assert_eq!(joined(r"X:\ABC", r"\\x"), r"X:\x");
    assert_eq!(joined(r"X:\ABC", r"//"), r"X:\");
    assert_eq!(joined(r"\\srv\shr\a", r"\\\x\\"), r"\\srv\shr\x\\");
    assert_eq!(joined(r"X:\ABC", r"\\x\y"), r"\\x\y");
}

#[test]
fn edge_same_drive_fragment_applies_parent_pieces() {
    assert_eq!(joined(r"X:\ABC\DEF", r"X:..\x"), r"X:\ABC\x");
    assert_eq!(joined(r"X:\ABC", r"x:.\..\..\y\"), r"X:\y\");
    assert_eq!(joined(r"X:\ABC", r"X:ABC\..\XYZ"), r"X:\ABC\ABC\..\XYZ");
    assert_eq!(joined(r"C:", r"C:..\a"), r"C:..\a");
}

#[test]
fn edge_drive_letters_ignore_case() {
    assert_eq!(joined(r"X:\ABC", r"x:DEF"), r"X:\ABC\DEF");
    assert_eq!(joined(r"x:\abc", r"X:DEF"), r"x:\abc\DEF");
    assert_eq!(joined(r"X:\ABC", r"Y:DEF"), r"Y:DEF");
}

#[test]
fn error_contains_nul() {
    let e = normalize_virtually(b"C:\\a\0b").err().unwrap();
    assert_eq!(e, Error::ContainsNul);
    assert_eq!(e.kind(), ErrorKind::InvalidInput);
    assert_eq!(e.message(), "strings passed to WinAPI cannot contains NULs");
}

#[test]
fn error_missing_prefix() {
    assert_eq!(BasePathBuf::try_new(br"ABC\DEF").err(), Some(Error::MissingPrefix));
    assert_eq!(BasePathBuf::try_new(br"\ABC").err(), Some(Error::MissingPrefix));
    assert_eq!(BasePathBuf::new(b"".to_vec()).err(), Some(Error::MissingPrefix));
    assert_eq!(Error::MissingPrefix.kind(), ErrorKind::InvalidInput);
    assert!(BasePathBuf::new(br"\\.\COM1".to_vec()).is_ok());
}

#[test]
fn error_unknown_parent() {
    let mut b = base(r"C:");
    assert_eq!(b.pop(), Err(Error::UnknownParent));
    assert_eq!(b.as_bytes(), b"C:");
    let mut b = base(r"\\?\a\..");
    assert_eq!(b.pop(), Err(Error::UnknownParent));
    let mut b = base(r"\\?\a\.");
    assert_eq!(b.pop(), Err(Error::UnknownParent));
    assert_eq!(Error::UnknownParent.kind(), ErrorKind::Other);
}

#[test]
fn error_probe_is_returned_first() {
    let missing = normalize(br"C:\nope", Err(Error::DoesNotExist)).err();
    assert_eq!(missing, Some(Error::DoesNotExist));
    assert_eq!(Error::DoesNotExist.kind(), ErrorKind::NotFound);
    let other = normalize(b"a\0", Err(Error::Platform(5))).err();
    assert_eq!(other, Some(Error::Platform(5)));
    assert_eq!(Error::Platform(5).kind(), ErrorKind::Other);
    assert_eq!(normalize(b"a\0", Ok(())).err(), Some(Error::ContainsNul));
    assert_eq!(normalize(br"\\x", Ok(())).err(), Some(Error::PartialUnc));
}

#[test]
fn pop_removes_one_name() {
    let mut b = base(r"X:\ABC\DEF\.\\");
    assert_eq!(b.pop(), Ok(true));
    assert_eq!(b.as_bytes(), br"X:\ABC");
    assert_eq!(b.pop(), Ok(true));
    assert_eq!(b.as_bytes(), br"X:\");
    assert_eq!(b.pop(), Ok(false));
    assert_eq!(b.as_bytes(), br"X:\");

    let mut b = base(r"C:a\b");
    assert_eq!(b.pop(), Ok(true));
    assert_eq!(b.as_bytes(), br"C:a");
    assert_eq!(b.pop(), Ok(true));
    assert_eq!(b.as_bytes(), br"C:");

    let mut b = base(r"\\server\share\foo");
    assert_eq!(b.pop(), Ok(true));
    assert_eq!(b.as_bytes(), br"\\server\share\");
    assert_eq!(b.pop(), Ok(false));

    let mut b = base(r"\\?\UNC\server\share");
    assert_eq!(b.pop(), Ok(false));
}

#[test]
fn push_matches_join() {
    let mut b = base(r"X:\ABC");
    b.push(br"..\XYZ\");
    assert_eq!(b.as_bytes(), br"X:\XYZ\");
    let mut c = base(r"X:\ABC");
    push(&mut c, br"..\XYZ\");
    assert_eq!(c.as_bytes(), b.as_bytes());
}

#[test]
fn to_base_resolves_against_the_current_directory() {
    let r = to_base(base(r"C:\Users\me"), br"..\you\file.txt");
    assert_eq!(r.as_bytes(), br"C:\Users\you\file.txt");
    let r = to_base(base(r"C:\"), b".");
    assert_eq!(r.as_bytes(), br"C:\");
}

#[test]
fn push_separator_skips_bare_drives() {
    let mut b = base(r"C:");
    push_separator(&mut b);
    assert_eq!(b.as_bytes(), b"C:");
    let mut b = base(r"C:\a");
    push_separator(&mut b);
    assert_eq!(b.as_bytes(), br"C:\a\");
    push_separator(&mut b);
    assert_eq!(b.as_bytes(), br"C:\a\");
    let mut b = base(r"\\?\a/");
    push_separator(&mut b);
    assert_eq!(b.as_bytes(), br"\\?\a/");
}

#[test]
fn prefixes_are_classified() {
    assert_eq!(parse_prefix(br"c:\x"), Some((Prefix::Disk(b'C'), 2)));
    assert_eq!(parse_prefix(br"\\?\c:\x"), Some((Prefix::VerbatimDisk(b'C'), 6)));
    assert_eq!(parse_prefix(br"\\?\c:x"), Some((Prefix::Verbatim, 7)));
    assert_eq!(parse_prefix(br"\\?\UNC\srv\shr\x"), Some((Prefix::VerbatimUnc, 15)));
    assert_eq!(parse_prefix(br"\\?\UNC\srv"), Some((Prefix::VerbatimUnc, 11)));
    assert_eq!(parse_prefix(br"\\.\COM1\x"), Some((Prefix::DeviceNs, 8)));
    assert_eq!(parse_prefix(br"//srv/shr/x"), Some((Prefix::Unc, 9)));
    assert_eq!(parse_prefix(br"\\srv"), None);
    assert_eq!(parse_prefix(br"\x"), None);
    assert_eq!(parse_prefix(br"1:"), None);
    assert!(is_base(br"\\?\anything"));
    assert!(!is_base(br"relative\path"));
    assert_eq!(get_prefix(&base(r"\\srv\shr\x")), (Prefix::Unc, 9));
    assert!(Prefix::VerbatimUnc.is_verbatim());
    assert!(!Prefix::Unc.is_verbatim());
}

#[test]
fn separators_are_converted_within_the_limit() {
    assert_eq!(convert_separators(b"//?/a/b", Some(4)), br"\\?\a/b".to_vec());
    assert_eq!(convert_separators(b"//?/a/b", None), br"\\?\a\b".to_vec());
    assert_eq!(convert_separators(b"a/b", Some(0)), b"a/b".to_vec());
    assert_eq!(convert_separators(b"a/b", Some(3)), br"a\b".to_vec());
}

#[test]
fn path_ext_methods_match_the_functions() {
    let p: &[u8] = br"\\server";
    assert_eq!(p.normalize_virtually().err(), Some(Error::PartialUnc));
    assert_eq!(p.normalize(Err(Error::DoesNotExist)).err(), Some(Error::DoesNotExist));
    let q: &[u8] = br"//?/X:/A";
    match q.normalize(Ok(())).unwrap() {
        Resolution::Ready(b) => assert_eq!(b.as_bytes(), br"\\?\X:/A"),
        Resolution::Expand(_) => panic!("verbatim paths are not expanded"),
    }
}
