use flagfile_cli::formatter::diff::diff_lines;
use flagfile_cli::text::truncate;

fn strs(v: &[&str]) -> Vec<String> {
    v.iter().map(|s| s.to_string()).collect()
}

#[test]
fn diff_no_changes() {
    assert_eq!(diff_lines("a\nb\n", "a\nb", "Flagfile"), strs(&["no changes: Flagfile"]));
}

#[test]
fn diff_single_changed_line() {
    assert_eq!(
        diff_lines("a\nb\n", "a\nc\n", "p"),
        strs(&["--- p", "+++ p", "@@ -1,2 +1,2 @@", " a", "-b", "+c"])
    );
}

#[test]
fn diff_two_separate_hunks() {
    let orig = "x1\nA\nx2\nx3\nx4\nx5\nx6\nx7\nB\n";
    let fmt = "y1\nA\nx2\nx3\nx4\nx5\nx6\nx7\nC\n";
    assert_eq!(
        diff_lines(orig, fmt, "f"),
        strs(&[
            "--- f", "+++ f", "@@ -1,3 +1,3 @@", "-x1", "+y1", " A", " x2", "@@ -7,3 +7,3 @@", " x6",
            " x7", "-B", "+C",
        ])
    );
}

#[test]
fn diff_added_lines_at_end() {
    assert_eq!(
        diff_lines("a\n", "a\nb\nc\n", "p"),
        strs(&["--- p", "+++ p", "@@ -1,1 +1,3 @@", " a", "+b", "+c"])
    );
}

#[test]
fn truncate_for_display() {
    assert_eq!(truncate("abcdef", 3), "abc");
    assert_eq!(truncate("ab", 3), "ab");
}
