//! Joining a piece onto a directory.

use globserve::path::{has_dots, is_below, is_confined, join, pattern_in};

#[test]
fn join_puts_one_separator_between_directory_and_piece() {
    assert_eq!(join("/serve", "a.txt"), "/serve/a.txt");
    assert_eq!(join("/serve", "sub/b.txt"), "/serve/sub/b.txt");
}

#[test]
fn join_adds_no_separator_after_a_closed_directory() {
    assert_eq!(join("/serve/", "a.txt"), "/serve/a.txt");
    assert_eq!(join("/", "etc"), "/etc");
}

#[test]
fn join_keeps_an_absolute_piece_as_it_is() {
    assert_eq!(join("/serve", "/etc/hosts"), "/etc/hosts");
    assert_eq!(join("", "/etc/hosts"), "/etc/hosts");
}

#[test]
fn join_onto_an_empty_directory_is_the_piece() {
    assert_eq!(join("", "a.txt"), "a.txt");
    assert_eq!(join("", ""), "");
}

#[test]
fn join_of_an_empty_piece_closes_the_directory() {
    assert_eq!(join("/serve", ""), "/serve/");
    assert_eq!(join("/serve/", ""), "/serve/");
}

#[test]
fn join_keeps_traversal_segments_for_the_file_system_to_resolve() {
    assert_eq!(join("/serve", "../../etc/hosts"), "/serve/../../etc/hosts");
}

#[test]
fn join_works_on_text_beyond_ascii() {
    assert_eq!(join("/srv/données", "été.txt"), "/srv/données/été.txt");
    assert_eq!(join("/srv/données/", "été.txt"), "/srv/données/été.txt");
}

#[test]
fn join_agrees_with_the_standard_library() {
    let cases = [
        ("/serve", "a.txt"),
        ("/serve/", "a.txt"),
        ("/serve", "/abs"),
        ("", "a"),
        ("rel", "x/y"),
        ("/serve", ""),
        ("/", "*"),
    ];
    for (dir, piece) in cases {
        let expected = std::path::Path::new(dir).join(piece).to_string_lossy().into_owned();
        assert_eq!(join(dir, piece), expected);
    }
}

#[test]
fn pattern_is_set_after_the_directory_and_one_separator() {
    assert_eq!(pattern_in("/srv/base", "*"), "/srv/base/*");
    assert_eq!(pattern_in("/srv/base/", "*.txt"), "/srv/base/*.txt");
    assert_eq!(pattern_in("/srv/base", "**/*.txt"), "/srv/base/**/*.txt");
    assert_eq!(pattern_in("/", "*"), "/*");
    assert_eq!(pattern_in("", "*"), "*");
}

#[test]
fn pattern_letters_in_a_directory_name_are_escaped() {
    assert_eq!(pattern_in("/srv/base/d[1]", "*"), "/srv/base/d[[]1[]]/*");
    assert_eq!(pattern_in("/srv/what?", "*"), "/srv/what[?]/*");
    assert_eq!(pattern_in("/srv/a*b", "[ab]*"), "/srv/a[*]b/[ab]*");
    assert_eq!(pattern_in("/srv/]", "?"), "/srv/[]]/?");
    assert_eq!(pattern_in("/srv/plain-name!", "*"), "/srv/plain-name!/*");
}

#[test]
fn escaped_directory_matches_itself_and_nothing_else() {
    let escaped = pattern_in("d[1]*?", "");
    let pattern = glob::Pattern::new(escaped.trim_end_matches('/')).unwrap();
    assert!(pattern.matches("d[1]*?"));
    assert!(!pattern.matches("d1"));
    assert!(!pattern.matches("d[1]xy"));
}

#[test]
fn pattern_loses_the_separators_in_front() {
    assert_eq!(pattern_in("/srv/base", "/etc/*"), "/srv/base/etc/*");
    assert_eq!(pattern_in("/srv/base/", "/*.txt"), "/srv/base/*.txt");
    assert_eq!(pattern_in("/srv/base", "//x"), "/srv/base/x");
    assert_eq!(pattern_in("/srv/base", "///x//y"), "/srv/base/x//y");
    assert_eq!(pattern_in("/srv/base", "/"), "/srv/base/");
    assert_eq!(pattern_in("/srv/base", "//"), "/srv/base/");
    assert_eq!(pattern_in("/srv/base", ""), "/srv/base/");
}

#[test]
fn pattern_in_an_empty_directory_does_not_start_at_the_root() {
    assert_eq!(pattern_in("", "/etc/*"), "etc/*");
    assert_eq!(pattern_in("", "//etc/*"), "etc/*");
    assert_eq!(pattern_in("", "/"), "");
}

#[test]
fn pattern_with_a_name_and_no_way_up_is_confined() {
    for pattern in ["*", "*.txt", "**/*.txt", "sub/*", "/etc/*", "a..b", "..a", "a..", "...", ".", "./*", ".*", "[", "x/..y/z"] {
        assert!(is_confined(pattern), "{}", pattern);
    }
}

#[test]
fn pattern_with_a_piece_that_leads_up_is_not_confined() {
    for pattern in ["..", "../*", "sub/..", "sub/../*", "/..", "/../etc/*", "*/../..", "a/b/../c", "../"] {
        assert!(!is_confined(pattern), "{}", pattern);
    }
}

#[test]
fn pattern_of_separators_alone_is_not_confined() {
    for pattern in ["", "/", "//", "///"] {
        assert!(!is_confined(pattern), "{}", pattern);
    }
}

#[test]
fn path_with_a_dot_piece_is_told() {
    for path in [
        ".", "..", "/srv/base/.", "/srv/base/..", "sub/.", "sub/..", "/.", "/..",
        "/srv/../base", "/srv/./base", "./base", "../base", "/srv/base/../base/sub",
        "a/./b", "a/../b",
    ] {
        assert!(has_dots(path), "{}", path);
    }
}

#[test]
fn path_of_names_alone_is_told() {
    for path in [
        "", "/", "/srv/base", "/srv/base/", "/srv/base/...", "/srv/base/a.", "/srv/base/a..",
        "/srv/.hidden", "a.b", "x.", "x..", "...", "/srv/..a/b", "/srv/.a/b", "/srv/a../b",
        "/srv/.../b", "//",
    ] {
        assert!(!has_dots(path), "{}", path);
    }
}

#[test]
fn path_below_a_directory_is_told() {
    for (dir, path) in [
        ("/srv/base", "/srv/base/a.txt"),
        ("/srv/base", "/srv/base/sub/b.txt"),
        ("/srv/base", "/srv/base/"),
        ("/srv/base/", "/srv/base/a.txt"),
        ("/", "/etc/hosts"),
        ("", "anything"),
        ("", ""),
        ("/srv/données", "/srv/données/été.txt"),
    ] {
        assert!(is_below(dir, path), "{} {}", dir, path);
    }
}

#[test]
fn path_that_is_not_below_a_directory_is_told() {
    for (dir, path) in [
        ("/srv/base", "/srv/secret.txt"),
        ("/srv/base", "/srv/base"),
        ("/srv/base", "/srv/based/a.txt"),
        ("/srv/base", "/srv/bas"),
        ("/srv/base", "/etc/hosts"),
        ("/srv/base", ""),
        ("/srv/base", "srv/base/a.txt"),
        ("/srv/base/", "/srv/base"),
        ("/srv/base", "/srv/BASE/a.txt"),
        ("/srv/données", "/srv/donnees/a.txt"),
    ] {
        assert!(!is_below(dir, path), "{} {}", dir, path);
    }
}
