use phone_control::paths::{absolute_path, is_absolute_path, join_path, parent_path, Platform};
use phone_control::text::{
    append_hex, contains_text, first_two_words, join, parse_number, same_text, trim, white,
    with_decimal, with_hex8, IntError,
};

#[test]
fn numbers_are_written_as_the_standard_library_writes_them() {
    for n in [0u64, 7, 9, 10, 99, 100, 1080, 65535, u32::MAX as u64, u64::MAX] {
        assert_eq!(with_decimal("n=", n), format!("n={n}"));
    }
    for n in [0u32, 1, 0xabcd, 0x7fff_ffff, u32::MAX] {
        assert_eq!(with_hex8("n=", n), format!("n={n:08x}"));
    }
    let mut out = String::new();
    append_hex(&mut out, 0x1234_5678, 4);
    assert_eq!(out, "5678");
}

#[test]
fn numbers_are_read_as_the_standard_library_reads_them() {
    for s in [
        "", "+", "-", "0", "7", "+7", "-7", "00012", "65535", "65536", "6554a", "99999a", "a99999",
        " 7", "7 ", "++7", "1_000", "\u{661}",
    ] {
        let mine = parse_number(s, u16::MAX as u64);
        match s.parse::<u16>() {
            Ok(v) => assert_eq!(mine, Ok(v as u64), "{s:?}"),
            Err(e) => {
                assert!(mine.is_err(), "{s:?}");
                assert_eq!(mine.unwrap_err().message(), e.to_string(), "{s:?}");
            }
        }
    }
    assert_eq!(
        parse_number("18446744073709551615", u64::MAX),
        Ok(u64::MAX)
    );
    assert_eq!(
        parse_number("18446744073709551616", u64::MAX),
        Err(IntError::Overflow)
    );
    assert_eq!(parse_number("", 9), Err(IntError::Empty));
    assert_eq!(parse_number("x", 9), Err(IntError::InvalidDigit));
}

#[test]
fn white_space_is_unicode_white_space() {
    for c in '\0'..=char::MAX {
        assert_eq!(white(c), c.is_whitespace(), "{c:?}");
    }
}

#[test]
fn trimming_and_words_match_the_standard_library() {
    for s in [
        "", " ", "a", " a ", "scrcpy 3.2 <url>", "\t\u{3000}x\u{a0}", "one\n two\r\n", "a b c",
    ] {
        assert_eq!(trim(s), s.trim(), "{s:?}");
        let mut words = s.split_whitespace();
        let (first, second) = first_two_words(s);
        assert_eq!(first.as_deref(), words.next(), "{s:?}");
        assert_eq!(second.as_deref(), words.next(), "{s:?}");
    }
}

#[test]
fn joining_and_containing() {
    let list = vec!["a".to_string(), "b".to_string(), "c".to_string()];
    assert_eq!(join(&list, " "), "a b c");
    assert_eq!(join(&vec![], " "), "");
    assert!(contains_text(&list, "b"));
    assert!(!contains_text(&list, "d"));
    assert!(same_text("\u{6d4b}", "\u{6d4b}"));
    assert!(!same_text("a", "A"));
}

#[test]
fn paths_match_the_standard_library_on_unix() {
    for dir in ["", "/", "/bin", "/bin/", "a", "a/b", "./a", "/a/."] {
        for rel in ["sh", "x/y", "/abs", ""] {
            let want = std::path::Path::new(dir).join(rel);
            assert_eq!(
                join_path(Platform::Unix, dir, rel),
                want.to_string_lossy(),
                "{dir:?} {rel:?}"
            );
        }
    }
    for p in [
        "", "/", "//", ".", "..", "a", "/a", "a/", "a/b", "/a/b", "/a/b/", "/a//b", "/a/./b",
        "/./a", "./a", "./.", "a/.", "a/..", "/a/..", "/usr/./bin/scrcpy", "//a//b//.//",
    ] {
        let want = std::path::Path::new(p)
            .parent()
            .map(|q| q.to_string_lossy().into_owned());
        assert_eq!(parent_path(Platform::Unix, p), want, "{p:?}");
    }
}

#[test]
fn windows_paths_are_joined() {
    for (dir, rel, want) in [
        ("", "foo", "foo"),
        ("foo", "bar", r"foo\bar"),
        ("foo/", "bar", "foo/bar"),
        (r"C:\a", "b", r"C:\a\b"),
        ("C:/a/", "b", "C:/a/b"),
        // A bare drive gets no separator.
        ("C:", "adb.exe", "C:adb.exe"),
        ("C:", r"..\a", r"C:..\a"),
        (r"C:\", "adb.exe", r"C:\adb.exe"),
        // A prefix stands alone, whether rooted or not.
        (r"C:\a\b", "D:x", "D:x"),
        (r"C:\a\b", r"D:\x", r"D:\x"),
        (r"\\server\share", r"C:\a", r"C:\a"),
        (r"C:\a", r"\\server\share\x", r"\\server\share\x"),
        // A root keeps the prefix of the directory.
        (r"C:\a\b", r"\x", r"C:\x"),
        ("C:a", "/x", "C:/x"),
        ("foo/", r"\bar", r"\bar"),
        (r"\\server\share\foo", r"\bar", r"\\server\share\bar"),
        (r"\\server\share\foo", "bar", r"\\server\share\foo\bar"),
        (r"\\server\share", "bar", r"\\server\share\bar"),
        (r"\\.\foo", r"..\bar", r"\\.\foo\..\bar"),
    ] {
        assert_eq!(join_path(Platform::Windows, dir, rel), want, "{dir:?} {rel:?}");
    }
}

#[test]
fn verbatim_windows_paths_are_normalised_when_joined() {
    for (dir, rel, want) in [
        (
            r"\\?\C:\tools",
            "share/scrcpy/scrcpy-server",
            r"\\?\C:\tools\share\scrcpy\scrcpy-server",
        ),
        (r"\\?\C:\bar", "../foo", r"\\?\C:\foo"),
        (r"\\?\C:\bar", "../../foo", r"\\?\C:\foo"),
        (r"\\?\C:\", "../foo", r"\\?\C:\foo"),
        (r"\\?\C:", r"D:\foo/./", r"D:\foo/./"),
        (r"\\?\A:\x\y", "/foo", r"\\?\A:\foo"),
        (r"\\?\A:", r"..\foo\.", r"\\?\A:\foo"),
        (r"\\?\A:\x\y", r".\foo\.", r"\\?\A:\x\y\foo"),
        (r"\\?\A:\x\y", "", r"\\?\A:\x\y\"),
        (r"\\?\A:", ".", r"\\?\A:"),
        (r"\\?\UNC\server\share\foo", "bar", r"\\?\UNC\server\share\foo\bar"),
        (r"\\?\UNC\server\share", "bar", r"\\?\UNC\server\share\bar"),
        (r"\\?\UNC\server\share\a", r"\b", r"\\?\UNC\server\share\b"),
        (r"\\?\name\a", "b", r"\\?\name\a\b"),
        // Written with other separators a prefix is not verbatim.
        (r"//?/C:\a", "b/c", r"//?/C:\a\b/c"),
    ] {
        assert_eq!(join_path(Platform::Windows, dir, rel), want, "{dir:?} {rel:?}");
    }
}

#[test]
fn windows_parents_keep_prefix_and_root() {
    for (path, want) in [
        (r"C:\a\b", Some(r"C:\a")),
        (r"C:\a", Some(r"C:\")),
        ("C:/a", Some("C:/")),
        (r"C:\", None),
        ("C:", None),
        ("C:a", Some("C:")),
        (r"C:a\b\", Some("C:a")),
        ("C:.", None),
        (r"C:.\a", Some("C:.")),
        (r"\a", Some(r"\")),
        (r"\", None),
        (r"a\b", Some("a")),
        ("a", Some("")),
        (".", Some("")),
        ("", None),
        (r"\\server\share\a", Some(r"\\server\share\")),
        (r"\\server\share\", None),
        (r"\\server\share", None),
        (r"\\server", Some(r"\")),
        (r"\\.\foo\bar", Some(r"\\.\foo\")),
        (r"\\.\foo", None),
        (r"\\?\C:\a", Some(r"\\?\C:\")),
        (r"\\?\C:\", None),
        (r"\\?\C:\a/b", Some(r"\\?\C:\")),
        (r"\\?\C:\a\.", Some(r"\\?\C:\a")),
        (r"\\?\UNC\server\share\a\b", Some(r"\\?\UNC\server\share\a")),
        (r"\\?\UNC\server\share", None),
        (r"\\?\foo\bar", Some(r"\\?\foo\")),
    ] {
        assert_eq!(
            parent_path(Platform::Windows, path).as_deref(),
            want,
            "{path:?}"
        );
    }
}

#[test]
fn absolute_paths_are_told_apart() {
    for (path, unix, windows) in [
        ("/a", true, false),
        ("a", false, false),
        ("", false, false),
        (r"C:\a", false, true),
        ("C:/a", false, true),
        ("C:a", false, false),
        ("C:", false, false),
        (r"\a", false, false),
        (r"\\server\share", false, true),
        (r"\\server", false, false),
        (r"\\?\C:", false, true),
        (r"\\.\COM1", false, true),
        ("//server/share/a", true, true),
    ] {
        assert_eq!(is_absolute_path(Platform::Unix, path), unix, "{path:?}");
        assert_eq!(is_absolute_path(Platform::Windows, path), windows, "{path:?}");
        assert_eq!(std::path::Path::new(path).has_root(), unix, "{path:?}");
    }
}

#[test]
fn paths_are_made_absolute() {
    let none: Vec<String> = vec![];
    assert_eq!(absolute_path(Platform::Unix, "/w", &none, "bin/adb"), "/w/bin/adb");
    assert_eq!(absolute_path(Platform::Unix, "/w", &none, "/bin/adb"), "/bin/adb");
    let dirs = vec!["rel".to_string(), r"d:\own".to_string(), r"D:\later".to_string()];
    for (path, want) in [
        ("adb.exe", r"C:\w\adb.exe"),
        (r"\adb.exe", r"C:\adb.exe"),
        (r"D:\adb.exe", r"D:\adb.exe"),
        ("c:adb.exe", r"C:\w\adb.exe"),
        ("D:adb.exe", r"d:\own\adb.exe"),
        ("E:adb.exe", r"E:\adb.exe"),
        ("C:D:x", r"C:\w\D:x"),
    ] {
        assert_eq!(
            absolute_path(Platform::Windows, r"C:\w", &dirs, path),
            want,
            "{path:?}"
        );
    }
}

#[test]
fn written_numbers_are_read_back() {
    for n in [0u64, 9, 10, 5037, 65535, u64::MAX] {
        assert_eq!(parse_number(&with_decimal("", n), u64::MAX), Ok(n));
    }
}

#[test]
fn a_joined_name_has_the_directory_as_its_parent() {
    for dir in ["", "/", "/usr/bin", "a/b"] {
        let joined = join_path(Platform::Unix, dir, "scrcpy");
        assert_eq!(parent_path(Platform::Unix, &joined), Some(dir.to_string()));
    }
}
