use baan::path::{file_name, is_path_before, is_text_before, join, join_bytes};

fn name(path: &str) -> Option<String> {
    file_name(path).map(|chars| chars.into_iter().collect())
}

#[test]
fn file_names_are_the_last_component() {
    for (path, expected) in [
        ("sh", Some("sh")),
        ("/usr/bin/sh", Some("sh")),
        ("/usr/bin/", Some("bin")),
        ("a/./b/.", Some("b")),
        ("a//b", Some("b")),
        ("./x", Some("x")),
        ("...", Some("...")),
        (".", None),
        ("..", None),
        ("a/..", None),
        ("/", None),
        ("", None),
    ] {
        assert_eq!(name(path).as_deref(), expected, "{path:?}");
        let std_name = std::path::Path::new(path).file_name();
        assert_eq!(std_name.and_then(|n| n.to_str()), expected, "{path:?}");
    }
}

#[test]
fn paths_are_ordered_as_the_standard_library_orders_them() {
    let paths = [
        "", "/", ".", "..", "a", "a/b", "a//b", "/a", "/a/", "a-b", "./a", "../a", "/run/user/1000",
        "/run/user/1001", "/run/user/999", "ab", "é",
    ];
    for a in paths {
        for b in paths {
            let before = std::path::Path::new(a) < std::path::Path::new(b);
            assert_eq!(is_path_before(a, b), before, "{a:?} {b:?}");
            let chars = |s: &str| s.chars().collect::<Vec<char>>();
            assert_eq!(is_text_before(&chars(a), &chars(b)), a < b, "{a:?} {b:?}");
        }
    }
}

#[test]
fn joining_adds_one_separator() {
    for (base, tail, expected) in [
        ("/home", "x", "/home/x"),
        ("/home/", "x", "/home/x"),
        ("", "x", "x"),
        ("/home", "/x", "/x"),
        ("/home", "", "/home/"),
    ] {
        assert_eq!(join(base, tail), expected);
        assert_eq!(join_bytes(base.as_bytes(), tail.as_bytes()), expected.as_bytes());
        assert_eq!(
            std::path::Path::new(base).join(tail).to_str(),
            Some(expected)
        );
    }
}
