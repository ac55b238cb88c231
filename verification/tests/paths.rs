//! Files that edits are written to, and the edits.
use giff::diff::git::GitOutput;
use giff::diff::paths::{apply_changes, resolve_diff_path, resolve_within_root, PathError, PathStyle};
use giff::diff::{apply_operations, ChangeOp};

// resolve_within_root: path-traversal containment

#[test]
fn resolve_within_root_accepts_repo_relative_path() {
    let resolved = resolve_within_root("/repo", "src/main.rs", PathStyle::Unix).ok().unwrap();
    assert_eq!(resolved, "/repo/src/main.rs");
}

#[test]
fn resolve_within_root_accepts_nested_path() {
    let resolved = resolve_within_root("/repo", "a/b/c/file.txt", PathStyle::Unix).ok().unwrap();
    assert_eq!(resolved, "/repo/a/b/c/file.txt");
}

#[test]
fn resolve_within_root_rejects_parent_traversal() {
    let err = resolve_within_root("/repo", "../etc/passwd", PathStyle::Unix).err().unwrap();
    assert!(err.message().contains("path traversal"));
}

#[test]
fn resolve_within_root_rejects_embedded_parent_traversal() {
    let err = resolve_within_root("/repo", "src/../../etc/passwd", PathStyle::Unix).err().unwrap();
    assert!(err.message().contains("path traversal"));
}

#[test]
fn resolve_within_root_rejects_absolute_unix_path() {
    let err = resolve_within_root("/repo", "/etc/passwd", PathStyle::Unix).err().unwrap();
    assert!(err.message().contains("absolute path"));
}

#[test]
fn resolve_within_root_rejects_empty_path() {
    let err = resolve_within_root("/repo", "", PathStyle::Unix).err().unwrap();
    assert!(err.message().contains("empty file path"));
}

#[test]
fn names_that_only_look_like_parents_are_accepted() {
    let resolved = resolve_within_root("/repo", "src/..hidden/a..b", PathStyle::Unix).ok().unwrap();
    assert_eq!(resolved, "/repo/src/..hidden/a..b");
}

#[test]
fn backslashes_and_drives_are_checked_where_they_mean_something() {
    let taken = |path: &str, style: PathStyle| resolve_within_root("C:/repo", path, style);
    for path in ["src\\..\\..\\x", "..\\x", "a/..\\b"] {
        assert_eq!(
            taken(path, PathStyle::Windows),
            Err(PathError::Traversal(path.to_string()))
        );
    }
    for path in ["C:\\x", "c:x", "\\x", "\\\\server\\share\\x", "/x"] {
        assert_eq!(taken(path, PathStyle::Windows), Err(PathError::Absolute(path.to_string())));
    }
    assert_eq!(taken("src/a.rs", PathStyle::Windows), Ok("C:/repo\\src/a.rs".to_string()));
    assert_eq!(
        resolve_within_root("C:\\", "a.rs", PathStyle::Windows),
        Ok("C:\\a.rs".to_string())
    );
    // Elsewhere these are names like any other.
    assert_eq!(
        resolve_within_root("/repo", "src\\..\\x", PathStyle::Unix),
        Ok("/repo/src\\..\\x".to_string())
    );
    assert_eq!(resolve_within_root("/repo", "c:x", PathStyle::Unix), Ok("/repo/c:x".to_string()));
}

#[test]
fn diff_paths_start_at_the_root_that_git_names() {
    let root = Ok(GitOutput { success: true, stdout: b"/repo\n".to_vec(), stderr: vec![] });
    assert_eq!(resolve_diff_path("a.rs", root, PathStyle::Unix).ok().unwrap(), "/repo/a.rs");
    let none = Err("no git".to_string());
    assert!(resolve_diff_path("a.rs", none, PathStyle::Unix).is_err());
}

// apply_operations

fn lines(s: &[&str]) -> Vec<String> {
    s.iter().map(|l| l.to_string()).collect()
}

fn insert(base_pos: usize, order: usize, content: &str) -> ChangeOp {
    ChangeOp::Insert { base_pos, order, content: content.to_string() }
}

#[test]
fn no_edits_change_nothing() {
    assert_eq!(apply_operations(&lines(&["a", "b"]), &[]), lines(&["a", "b"]));
}

#[test]
fn edits_count_lines_of_the_file_as_it_was() {
    let ops = [
        ChangeOp::Delete(1),
        ChangeOp::Replace(3, "C".to_string()),
        insert(2, 7, "new"),
    ];
    assert_eq!(
        apply_operations(&lines(&["a", "b", "c", "d"]), &ops),
        lines(&["new", "b", "C", "d"])
    );
}

#[test]
fn insertions_before_one_line_keep_their_order() {
    let ops = [insert(2, 9, "second"), insert(2, 4, "first"), insert(3, 1, "end")];
    assert_eq!(
        apply_operations(&lines(&["a", "b"]), &ops),
        lines(&["a", "first", "second", "b", "end"])
    );
}

#[test]
fn edits_of_lines_that_are_not_there_do_nothing() {
    let ops = [
        ChangeOp::Delete(0),
        ChangeOp::Delete(9),
        ChangeOp::Replace(0, "x".to_string()),
        ChangeOp::Replace(9, "x".to_string()),
        insert(0, 1, "x"),
    ];
    assert_eq!(apply_operations(&lines(&["a"]), &ops), lines(&["a"]));
}

#[test]
fn edits_that_do_not_apply_leave_the_others_alone() {
    let ops = [
        ChangeOp::Delete(usize::MAX),
        ChangeOp::Replace(2, "B".to_string()),
        insert(0, 1, "x"),
        ChangeOp::Delete(0),
        insert(1, 1, "first"),
        ChangeOp::Replace(4, "x".to_string()),
    ];
    assert_eq!(
        apply_operations(&lines(&["a", "b", "c"]), &ops),
        lines(&["first", "a", "B", "c"])
    );
}

#[test]
fn line_that_is_put_back_gives_the_file_back() {
    let base = lines(&["a", "b", "c"]);
    for n in 1..=3 {
        let mid = apply_operations(&base, &[ChangeOp::Delete(n)]);
        assert_eq!(mid.len(), 2);
        assert_eq!(apply_operations(&mid, &[insert(n, 8, &base[n - 1])]), base);
    }
}

#[test]
fn edits_may_come_in_any_order() {
    let base = lines(&["a", "b", "c", "d"]);
    let op = |i: usize| match i {
        0 => ChangeOp::Delete(1),
        1 => ChangeOp::Replace(3, "C".to_string()),
        2 => insert(3, 2, "y"),
        3 => insert(3, 1, "x"),
        4 => ChangeOp::Delete(9),
        _ => insert(9, 1, "end"),
    };
    let wanted = lines(&["b", "x", "y", "C", "d", "end"]);
    for order in [[0, 1, 2, 3, 4, 5], [5, 4, 3, 2, 1, 0], [2, 5, 0, 3, 1, 4]] {
        let ops: Vec<ChangeOp> = order.iter().map(|i| op(*i)).collect();
        assert_eq!(apply_operations(&base, &ops), wanted);
    }
}

#[test]
fn insertion_past_the_end_goes_to_the_end() {
    assert_eq!(apply_operations(&lines(&["a"]), &[insert(99, 1, "z")]), lines(&["a", "z"]));
}

#[test]
fn applied_text_keeps_its_last_line_end() {
    let ops = [ChangeOp::Replace(2, "B".to_string())];
    assert_eq!(apply_changes("a\nb\n", &ops), "a\nB\n");
    assert_eq!(apply_changes("a\nb", &ops), "a\nB");
}
