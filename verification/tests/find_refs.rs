use flagfile_cli::find::{is_test_file, rank_counts, search_pattern, unused_flags};

#[test]
fn search_pattern_for_flag_name_term() {
    assert_eq!(search_pattern(Some("FF-new.ui")), "\\bFF\\-new\\.ui");
    assert_eq!(search_pattern(Some("FF_x")), "\\bFF_x");
}

#[test]
fn search_pattern_for_other_term_and_none() {
    assert_eq!(search_pattern(Some("premium")), "\\bFF[-_][a-zA-Z0-9_-]*premium[a-zA-Z0-9_-]*");
    assert_eq!(search_pattern(None), "\\bFF[-_][a-zA-Z0-9_-]+");
}

#[test]
fn test_file_names_skipped() {
    assert!(is_test_file("Flagfile.tests"));
    assert!(is_test_file("app.test.ts"));
    assert!(is_test_file("app.spec.js"));
    assert!(!is_test_file("app.ts"));
    assert!(!is_test_file("tests.rs"));
}

#[test]
fn unused_flags_keep_definition_order() {
    let defined = vec!["FF-a".to_string(), "FF-b".to_string(), "FF-c".to_string()];
    let seen = vec!["FF-b".to_string(), "FF-zzz".to_string()];
    assert_eq!(unused_flags(&defined, &seen), vec!["FF-a".to_string(), "FF-c".to_string()]);
}

#[test]
fn counts_ranked_by_count_then_name() {
    let m: Vec<String> = ["FF-b", "FF-a", "FF-b", "FF-c", "FF-a", "FF-b"].iter().map(|s| s.to_string()).collect();
    assert_eq!(
        rank_counts(&m),
        vec![("FF-b".to_string(), 3), ("FF-a".to_string(), 2), ("FF-c".to_string(), 1)]
    );
    let ties: Vec<String> = ["FF-z", "FF-y", "FF-yy"].iter().map(|s| s.to_string()).collect();
    assert_eq!(
        rank_counts(&ties),
        vec![("FF-y".to_string(), 1), ("FF-yy".to_string(), 1), ("FF-z".to_string(), 1)]
    );
    assert!(rank_counts(&vec![]).is_empty());
}

fn lines(v: &[&str]) -> Vec<String> {
    v.iter().map(|s| s.to_string()).collect()
}

#[test]
fn count_references_ranks_all_files() {
    let files = vec![
        lines(&["if ff(\"FF-a\") && ff(\"FF_b\") {", "no flag here"]),
        lines(&["FF-a again", "FF-c", "FF-c"]),
        lines(&[]),
    ];
    let (ranked, total) = flagfile_cli::find::count_references(None, &files).unwrap();
    assert_eq!(
        ranked,
        vec![("FF-a".to_string(), 2), ("FF-c".to_string(), 2), ("FF_b".to_string(), 1)]
    );
    assert_eq!(total, 5);
    let (only, n) = flagfile_cli::find::count_references(Some("c"), &files).unwrap();
    assert_eq!(only, vec![("FF-c".to_string(), 2)]);
    assert_eq!(n, 2);
}

#[test]
fn search_term_is_escaped() {
    let files = vec![lines(&["FF-a.b FF-aXb"])];
    let (ranked, _) = flagfile_cli::find::count_references(Some("FF-a.b"), &files).unwrap();
    assert_eq!(ranked, vec![("FF-a.b".to_string(), 1)]);
    assert_eq!(flagfile_cli::find::search_pattern(Some("FF-a.b")), "\\bFF\\-a\\.b");
}

#[test]
fn matching_files_sorted_once() {
    let files = vec![
        ("src/b.rs".to_string(), lines(&["x", "FF-one"])),
        ("src/a.rs".to_string(), lines(&["FF-two", "FF-three"])),
        ("src/c.rs".to_string(), lines(&["nothing"])),
        ("src/a.rs".to_string(), lines(&["FF-two"])),
    ];
    assert_eq!(
        flagfile_cli::find::matching_files(None, &files).unwrap(),
        vec!["src/a.rs".to_string(), "src/b.rs".to_string()]
    );
    assert_eq!(flagfile_cli::find::matching_files(Some("zzz"), &files).unwrap(), Vec::<String>::new());
}

#[test]
fn unreferenced_flags_skip_flagfile_and_tests() {
    let file = |canon: Option<&str>, name: Option<&str>, ls: &[&str]| flagfile_cli::find::SourceFile {
        canonical: canon.map(|s| s.to_string()),
        name: name.map(|s| s.to_string()),
        lines: lines(ls),
    };
    let defined = lines(&["FF-a", "FF-b", "FF-c", "FF-d"]);
    let files = vec![
        file(Some("/p/Flagfile"), Some("Flagfile"), &["FF-a -> true"]),
        file(Some("/p/app.test.js"), Some("app.test.js"), &["FF-b"]),
        file(Some("/p/main.rs"), Some("main.rs"), &["ff(\"FF-c\")"]),
        file(None, None, &["FF-d"]),
    ];
    let skip = lines(&["/p/Flagfile", "/p/Flagfile.tests"]);
    assert_eq!(
        flagfile_cli::find::unreferenced_flags(&defined, &files, &skip).unwrap(),
        lines(&["FF-a", "FF-b"])
    );
}

#[test]
fn matching_line_numbers_one_based() {
    let ls = lines(&["a", "FF-x here", "b", "FF_y"]);
    assert_eq!(flagfile_cli::find::matching_line_numbers(None, &ls).unwrap(), vec![2, 4]);
    assert_eq!(flagfile_cli::find::matching_line_numbers(Some("y"), &ls).unwrap(), vec![4]);
}
