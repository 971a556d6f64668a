use lu_cache::globs::{glob_set, matches_any, GlobError};

fn list(patterns: &[&str]) -> Vec<String> {
    patterns.iter().map(|p| p.to_string()).collect()
}

#[test]
fn any_pattern_is_enough() {
    let set = glob_set(&list(&["*.txt", "res/**"])).unwrap();
    assert!(matches_any(&set, "a.txt"));
    assert!(matches_any(&set, "res/x/y"));
    assert!(!matches_any(&set, "other/x"));
}

#[test]
fn no_pattern_matches_nothing() {
    let set = glob_set(&list(&[])).unwrap();
    assert!(!matches_any(&set, "a"));
    assert!(!matches_any(&set, ""));
}

#[test]
fn two_stars_match_everything() {
    let set = glob_set(&list(&["**"])).unwrap();
    for path in ["", "a", "a/b\\c", ".x", "line\nfeed", "ü"] {
        assert!(matches_any(&set, path));
    }
}

#[test]
fn dotted_pattern_wants_a_dot_anywhere() {
    let set = glob_set(&list(&["**/*.*"])).unwrap();
    for path in ["", "a", "a/b", "a.b", "a.b/c", ".", "x/.git", "a\nb.c", "ü.ß", "a\\b.c"] {
        assert_eq!(matches_any(&set, path), path.contains('.'), "{}", path);
    }
    let both = glob_set(&list(&["zz", "**/*.*"])).unwrap();
    for path in ["zz", "zy", "a.b/c"] {
        assert_eq!(matches_any(&both, path), path.contains('.') || path == "zz");
    }
}

#[test]
fn first_malformed_pattern_is_reported() {
    match glob_set(&list(&["ok", "a{b", "[c"])) {
        Err(GlobError::Pattern { index, pattern, message }) => {
            assert_eq!(index, 1);
            assert_eq!(pattern, "a{b");
            assert!(message.contains("a{b"));
        }
        _ => panic!("a pattern error was due"),
    }
    assert!(matches!(glob_set(&list(&["[z-a]"])), Err(GlobError::Pattern { index: 0, .. })));
    assert!(matches!(glob_set(&list(&["a}"])), Err(GlobError::Pattern { index: 0, .. })));
    assert!(glob_set(&list(&["**a", "a]b", "?!-,", "***"])).is_ok());
}

#[test]
fn patterns_that_outgrow_a_set_are_refused() {
    let many: Vec<String> = (0..400).map(|i| format!("{}{}", i, "[!a]?".repeat(500))).collect();
    match glob_set(&many) {
        Err(GlobError::TooLarge { message }) => assert!(!message.is_empty()),
        _ => panic!("a size error was due"),
    }
    assert!(glob_set(&many[..3].to_vec()).is_ok());
}
