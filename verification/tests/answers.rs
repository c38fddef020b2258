//! What the survey makes of the file system's answers.

use globserve::scan::{readable, Kind, Match};

#[test]
fn kind_is_directory_where_the_file_system_says_so() {
    assert_eq!(Kind::of(true, false), Kind::Directory);
    assert_eq!(Kind::of(true, true), Kind::Directory);
}

#[test]
fn kind_is_file_where_it_is_no_directory() {
    assert_eq!(Kind::of(false, true), Kind::File);
}

#[test]
fn kind_is_other_where_it_is_neither() {
    assert_eq!(Kind::of(false, false), Kind::Other);
}

#[test]
fn refused_pattern_gives_no_paths() {
    assert_eq!(readable(None), Vec::<String>::new());
}

#[test]
fn empty_expansion_gives_no_paths() {
    assert_eq!(readable(Some(Vec::new())), Vec::<String>::new());
}

#[test]
fn unreadable_entries_are_left_out() {
    let listing = vec![
        Some("/serve/a.txt".to_string()),
        None,
        Some("/serve/sub".to_string()),
        None,
        None,
        Some("/serve/z.txt".to_string()),
    ];
    assert_eq!(
        readable(Some(listing)),
        vec!["/serve/a.txt".to_string(), "/serve/sub".to_string(), "/serve/z.txt".to_string()]
    );
}

#[test]
fn expansion_of_unreadable_entries_alone_gives_no_paths() {
    assert_eq!(readable(Some(vec![None, None])), Vec::<String>::new());
}

#[test]
fn readable_entries_keep_their_order_and_repeats() {
    let listing = vec![
        Some("/serve/b".to_string()),
        Some("/serve/a".to_string()),
        Some("/serve/b".to_string()),
    ];
    assert_eq!(
        readable(Some(listing)),
        vec!["/serve/b".to_string(), "/serve/a".to_string(), "/serve/b".to_string()]
    );
}

fn at(path: &str, level: usize, kind: Kind) -> Match {
    Match::listed(path.to_string(), level, kind, None)
}

#[test]
fn listed_file_keeps_the_canonical_path() {
    let found = Match::listed("/serve/link.txt".to_string(), 2, Kind::File, Some("/serve/real.txt".to_string()));
    assert_eq!(
        found,
        Match {
            path: "/serve/link.txt".to_string(),
            level: 2,
            kind: Kind::File,
            canonical: Some("/serve/real.txt".to_string()),
        }
    );
}

#[test]
fn listed_file_without_an_answer_has_no_canonical_path() {
    let found = Match::listed("/serve/gone.txt".to_string(), 0, Kind::File, None);
    assert_eq!(found.canonical, None);
    assert_eq!(found.kind, Kind::File);
}

#[test]
fn listed_directory_drops_the_canonical_path() {
    let found = Match::listed("/serve/sub".to_string(), 1, Kind::Directory, Some("/serve/sub".to_string()));
    assert_eq!(
        found,
        Match { path: "/serve/sub".to_string(), level: 1, kind: Kind::Directory, canonical: None }
    );
    let other = Match::listed("/serve/pipe".to_string(), 0, Kind::Other, Some("/serve/pipe".to_string()));
    assert_eq!(other.canonical, None);
}

#[test]
fn survey_descends_into_a_directory() {
    assert!(at("/serve/sub", 0, Kind::Directory).descends());
    assert!(at("/serve/sub/deep", 7, Kind::Directory).descends());
    assert!(at("/serve/.hidden", 0, Kind::Directory).descends());
    assert!(at("/serve/d[1]", usize::MAX - 1, Kind::Directory).descends());
}

#[test]
fn survey_does_not_descend_into_a_file_or_another_match() {
    assert!(!at("/serve/a.txt", 0, Kind::File).descends());
    assert!(!at("/serve/dangling", 0, Kind::Other).descends());
}

#[test]
fn survey_does_not_descend_into_the_directory_itself_or_its_parent() {
    assert!(!at("/serve/.", 0, Kind::Directory).descends());
    assert!(!at("/serve/..", 0, Kind::Directory).descends());
    assert!(!at("/serve/sub/.", 1, Kind::Directory).descends());
    assert!(!at(".", 0, Kind::Directory).descends());
    assert!(!at("..", 0, Kind::Directory).descends());
}

#[test]
fn survey_does_not_descend_into_a_path_that_went_through_a_dot_entry() {
    assert!(!at("/serve/../serve", 0, Kind::Directory).descends());
    assert!(!at("/serve/../other/sub", 0, Kind::Directory).descends());
    assert!(!at("/serve/./sub", 0, Kind::Directory).descends());
    assert!(at("/serve/.../sub", 0, Kind::Directory).descends());
    assert!(at("/serve/..a/sub", 0, Kind::Directory).descends());
}

#[test]
fn survey_does_not_descend_below_the_last_level() {
    assert!(!at("/serve/sub", usize::MAX, Kind::Directory).descends());
}
