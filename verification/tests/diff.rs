//! Reading diffs and asking for them.
use giff::diff::{
    build_git_args, extract_left_label, extract_right_label, parse_diff_output,
    select_diff_source, DiffSource, FileStatus,
};

fn numbered(lines: &[(usize, &str)]) -> Vec<(usize, String)> {
    lines.iter().map(|(n, l)| (*n, l.to_string())).collect()
}

#[test]
fn lines_are_numbered_from_where_their_hunk_starts() {
    let diff = "\
diff --git a/a.rs b/a.rs
index abc..def 100644
--- a/a.rs
+++ b/a.rs
@@ -3,2 +3,3 @@ fn a() {
 x
-y
+Y
+Z
@@ -20 +21 @@
-end
+END
diff --git a/b.rs b/b.rs
new file mode 100644
--- /dev/null
+++ b/b.rs
@@ -0,0 +1 @@
+only
";
    let (changes, meta) = parse_diff_output(diff).unwrap();
    let (base, head) = changes.get("a.rs").unwrap();
    assert_eq!(*base, numbered(&[(3, " x"), (4, "-y"), (20, "-end")]));
    assert_eq!(*head, numbered(&[(3, " x"), (4, "+Y"), (5, "+Z"), (21, "+END")]));
    let (base, head) = changes.get("b.rs").unwrap();
    assert!(base.is_empty());
    assert_eq!(*head, numbered(&[(1, "+only")]));
    assert!(meta.get("a.rs").map_or(true, |m| m.rename.is_none()));
}

#[test]
fn similarity_is_at_most_a_hundred() {
    let diff = "\
diff --git a/old.rs b/new.rs
similarity index 200%
rename from old.rs
rename to new.rs
";
    let (_, meta) = parse_diff_output(diff).unwrap();
    assert_eq!(meta.get("new.rs").unwrap().rename.as_ref().unwrap().similarity, 100);
    // What is no byte's value is passed over.
    let (_, meta) = parse_diff_output(&diff.replace("200%", "999%")).unwrap();
    assert_eq!(meta.get("new.rs").unwrap().rename.as_ref().unwrap().similarity, 100);
}

#[test]
fn two_diffs_are_parsed_as_one() {
    let first = "\
diff --git a/old.rs b/new.rs
similarity index 80%
rename from old.rs
rename to new.rs
--- a/old.rs
+++ b/new.rs
@@ -7,2 +7,1 @@
 x
-y
";
    let second = "\
diff --git a/b.rs b/b.rs
index abc..def 100644
+z
";
    let (files, meta) = parse_diff_output(&format!("{first}{second}")).unwrap();
    let (one, one_meta) = parse_diff_output(first).unwrap();
    let (two, two_meta) = parse_diff_output(second).unwrap();
    assert_eq!(files.keys().len(), 2);
    assert_eq!(files.get("new.rs"), one.get("new.rs"));
    assert_eq!(files.get("b.rs"), two.get("b.rs"));
    // Neither line numbers nor the rename carry over.
    assert_eq!(files.get("b.rs").unwrap().1, numbered(&[(1, "+z")]));
    assert!(one_meta.get("new.rs").unwrap().is_rename());
    assert!(meta.get("new.rs").unwrap().is_rename());
    assert!(!two_meta.get("b.rs").unwrap().is_rename());
    assert!(!meta.get("b.rs").unwrap().is_rename());
}

#[test]
fn new_and_deleted_files_are_told_apart() {
    let diff = "\
diff --git a/new.rs b/new.rs
new file mode 100644
index 000..abc
--- /dev/null
+++ b/new.rs
@@ -0,0 +1 @@
+x
diff --git a/gone.rs b/gone.rs
deleted file mode 100644
index abc..000
--- a/gone.rs
+++ /dev/null
@@ -1 +0,0 @@
-x
diff --git a/same.rs b/same.rs
old mode 100644
new mode 100755
diff --git a/old.rs b/moved.rs
similarity index 100%
rename from old.rs
rename to moved.rs
";
    let (files, meta) = parse_diff_output(diff).unwrap();
    let status = |name: &str| meta.get(name).unwrap().status;
    assert_eq!(status("new.rs"), FileStatus::Added);
    assert_eq!(status("gone.rs"), FileStatus::Deleted);
    assert_eq!(status("same.rs"), FileStatus::Modified);
    assert_eq!(status("moved.rs"), FileStatus::Modified);
    assert!(meta.get("moved.rs").unwrap().is_pure_rename());
    assert!(meta.get("new.rs").unwrap().rename.is_none());
    // Every file has metadata, and the mode is no line of it.
    assert_eq!(meta.keys().len(), files.keys().len());
    assert_eq!(files.get("new.rs").unwrap().1, numbered(&[(1, "+x")]));
    assert_eq!(files.get("gone.rs").unwrap().0, numbered(&[(1, "-x")]));
}

#[test]
fn a_second_section_of_a_file_takes_the_place_of_the_first() {
    // A file that becomes a link is deleted and added again.
    let diff = "\
diff --git a/l b/l
deleted file mode 100644
--- a/l
+++ /dev/null
@@ -1 +0,0 @@
-text
diff --git a/l b/l
new file mode 120000
--- /dev/null
+++ b/l
@@ -0,0 +1 @@
+target
";
    let (files, meta) = parse_diff_output(diff).unwrap();
    assert_eq!(files.get("l"), Some(&(vec![], numbered(&[(1, "+target")]))));
    assert_eq!(meta.get("l").unwrap().status, FileStatus::Added);
}

// extract_left_label / extract_right_label

#[test]
fn left_label_from_range() {
    assert_eq!(extract_left_label("main..feature"), "main");
}

#[test]
fn right_label_from_range() {
    assert_eq!(extract_right_label("main..feature"), "feature");
}

#[test]
fn left_label_no_dots_returns_input() {
    // No ".." means the whole string is the left side
    assert_eq!(extract_left_label("--cached"), "--cached");
}

#[test]
fn right_label_no_dots_returns_default() {
    // No ".." means there is no right side
    assert_eq!(extract_right_label("--cached"), "Target");
}

#[test]
fn labels_with_empty_sides() {
    // "..feature" → left side is empty → default
    assert_eq!(extract_left_label("..feature"), "Base");
    // "main.." → right side is empty → default
    assert_eq!(extract_right_label("main.."), "Target");
}

#[test]
fn labels_trim_whitespace() {
    assert_eq!(extract_left_label(" main .. feature "), "main");
    assert_eq!(extract_right_label(" main .. feature "), "feature");
}

// parse_diff_output: metadata skipping

#[test]
fn parse_skips_rename_metadata() {
    let diff = "\
diff --git a/old.rs b/new.rs
similarity index 95%
rename from old.rs
rename to new.rs
index abc..def 100644
--- a/old.rs
+++ b/new.rs
@@ -1,3 +1,3 @@
 fn main() {
-    old();
+    new();
 }
";
    let (changes, meta) = parse_diff_output(diff).unwrap();
    let (base, head) = changes.get("new.rs").expect("file should be present");
    let rename = meta
        .get("new.rs")
        .and_then(|m| m.rename.as_ref())
        .expect("rename metadata should be captured");
    assert_eq!(rename.from, "old.rs");
    assert_eq!(rename.similarity, 95);
    assert!(!meta.get("new.rs").unwrap().is_pure_rename());
    assert!(meta.get("new.rs").unwrap().is_rename());
    // Only actual diff lines should be present, no metadata leaking as context
    assert!(
        !base
            .iter()
            .any(|(_, l)| l.contains("similarity") || l.contains("rename")),
        "metadata leaked into base lines: {:?}",
        base
    );
    assert!(
        !head
            .iter()
            .any(|(_, l)| l.contains("similarity") || l.contains("rename")),
        "metadata leaked into head lines: {:?}",
        head
    );
}

#[test]
fn parse_captures_pure_rename() {
    // A pure rename (100% similarity) has no hunks — git emits only the
    // header block. The file should still show up in the map so the UI
    // can list it (and optionally hide it via the rename filter).
    let diff = "\
diff --git a/old.txt b/new.txt
similarity index 100%
rename from old.txt
rename to new.txt
";
    let (changes, meta) = parse_diff_output(diff).unwrap();
    let (base, head) = changes.get("new.txt").expect("file should be present");
    assert!(
        base.is_empty() && head.is_empty(),
        "pure rename has no hunks"
    );
    let m = meta.get("new.txt").expect("meta should be present");
    assert!(m.is_pure_rename());
    assert_eq!(m.rename.as_ref().unwrap().from, "old.txt");
    assert_eq!(m.rename.as_ref().unwrap().similarity, 100);
}

#[test]
fn parse_non_rename_has_no_rename_meta() {
    let diff = "\
diff --git a/a.rs b/a.rs
index abc..def 100644
--- a/a.rs
+++ b/a.rs
@@ -1 +1 @@
-x
+y
";
    let (_changes, meta) = parse_diff_output(diff).unwrap();
    // Either no entry, or an entry with no rename info — both acceptable.
    if let Some(m) = meta.get("a.rs") {
        assert!(m.rename.is_none());
        assert!(!m.is_pure_rename());
    }
}

#[test]
fn parse_skips_no_newline_marker() {
    let diff = "\
diff --git a/file.rs b/file.rs
index abc..def 100644
--- a/file.rs
+++ b/file.rs
@@ -1,2 +1,2 @@
-old line
\\ No newline at end of file
+new line
\\ No newline at end of file
";
    let (changes, _meta) = parse_diff_output(diff).unwrap();
    let (base, head) = changes.get("file.rs").expect("file should be present");
    assert!(
        !base.iter().any(|(_, l)| l.contains("No newline")),
        "no-newline marker leaked into base lines: {:?}",
        base
    );
    assert!(
        !head.iter().any(|(_, l)| l.contains("No newline")),
        "no-newline marker leaked into head lines: {:?}",
        head
    );
}

#[test]
fn parse_skips_binary_files_line() {
    let diff = "\
diff --git a/image.png b/image.png
Binary files a/image.png and b/image.png differ
";
    let (changes, _meta) = parse_diff_output(diff).unwrap();
    // Binary file should have entry but no content lines
    if let Some((base, head)) = changes.get("image.png") {
        assert!(base.is_empty());
        assert!(head.is_empty());
    }
    // Or no entry at all — both are acceptable
}

// build_git_args

#[test]
fn diff_args_without_context_omits_unified_flag() {
    let args = build_git_args("diff", &[], None);
    assert_eq!(args, vec!["diff", "--no-color"]);
}

#[test]
fn diff_args_passes_extra_args_through() {
    let args = build_git_args("diff", &["HEAD~1..HEAD"], None);
    assert_eq!(args, vec!["diff", "--no-color", "HEAD~1..HEAD"]);
}

#[test]
fn diff_args_with_context_inserts_unified_flag() {
    let args = build_git_args("diff", &[], Some(42));
    assert_eq!(args, vec!["diff", "--no-color", "--unified=42"]);
}

#[test]
fn diff_args_with_context_and_extras() {
    let args = build_git_args("diff", &["HEAD"], Some(99999));
    assert_eq!(args, vec!["diff", "--no-color", "--unified=99999", "HEAD"]);
}

#[test]
fn show_args_with_context_inserts_unified_before_extras() {
    let args = build_git_args(
        "show",
        &["--format=", "-m", "--first-parent", "abc123"],
        Some(50),
    );
    assert_eq!(
        args,
        vec![
            "show",
            "--no-color",
            "--unified=50",
            "--format=",
            "-m",
            "--first-parent",
            "abc123",
        ]
    );
}

// select_diff_source: CLI → DiffSource precedence

#[test]
fn select_branch_no_base_is_sincefork_none() {
    assert_eq!(
        select_diff_source(None, true, "", ""),
        DiffSource::SinceFork { base: None }
    );
}

#[test]
fn select_branch_with_base_is_sincefork_some() {
    assert_eq!(
        select_diff_source(None, true, "main", ""),
        DiffSource::SinceFork {
            base: Some("main".to_string())
        }
    );
}

#[test]
fn select_branch_ignores_second_positional() {
    // `giff -b main feature` uses `main` as the base; `to` is dropped.
    assert_eq!(
        select_diff_source(None, true, "main", "feature"),
        DiffSource::SinceFork {
            base: Some("main".to_string())
        }
    );
}

#[test]
fn select_one_ref_is_toref() {
    assert_eq!(
        select_diff_source(None, false, "main", ""),
        DiffSource::ToRef("main".to_string())
    );
}

#[test]
fn select_two_refs_is_between() {
    assert_eq!(
        select_diff_source(None, false, "a", "b"),
        DiffSource::Between {
            from: "a".to_string(),
            to: "b".to_string()
        }
    );
}

#[test]
fn select_no_args_is_uncommitted() {
    assert_eq!(
        select_diff_source(None, false, "", ""),
        DiffSource::Uncommitted
    );
}

#[test]
fn select_diff_args_wins_over_branch() {
    assert_eq!(
        select_diff_source(Some("--stat"), true, "x", "y"),
        DiffSource::CustomArgs("--stat".to_string())
    );
}
