//! The state of the screen and what keys make of it.
use giff::diff::ops::apply_operations;
use giff::diff::{
    parse_diff_output, DiffPayload, DiffSource, FileChanges, FileMeta, FileMetaMap, FileStatus,
    RenameInfo,
};
use giff::names::NameMap;
use giff::ui::draw::Rect;
use giff::ui::files::{file_list_offset, full_file_context, visible_file_names};
use giff::ui::flows::{decide_push_target, PushDecision};
use giff::ui::keys::Key;
use giff::ui::mouse::{Mouse, MouseKind};
use giff::ui::start::UiDefaults;
use giff::ui::task::{FetchFor, Task};
use giff::ui::theme::Theme;
use giff::ui::tree::{build_file_tree, TreeRow};
use giff::ui::types::{App, AppMode, Change, ChangeState, Pane};
use giff::ui::ViewMode;

fn meta_with_rename(similarity: u8) -> FileMeta {
    FileMeta {
        status: FileStatus::Modified,
        rename: Some(RenameInfo {
            from: "old".to_string(),
            similarity,
        }),
    }
}

#[test]
fn visible_files_returns_sorted_when_filter_off() {
    let mut files: FileChanges = NameMap::new();
    files.insert("b.rs".to_string(), (vec![], vec![]));
    files.insert("a.rs".to_string(), (vec![], vec![]));
    files.insert("c.rs".to_string(), (vec![], vec![]));
    let meta: FileMetaMap = NameMap::new();
    assert_eq!(
        visible_file_names(&files, &meta, false),
        vec!["a.rs", "b.rs", "c.rs"]
    );
}

#[test]
fn visible_files_hides_pure_renames_when_filter_on() {
    let mut files: FileChanges = NameMap::new();
    files.insert("kept.rs".to_string(), (vec![], vec![]));
    files.insert("pure_rename.rs".to_string(), (vec![], vec![]));
    files.insert("partial_rename.rs".to_string(), (vec![], vec![]));
    let mut meta: FileMetaMap = NameMap::new();
    meta.insert("pure_rename.rs".to_string(), meta_with_rename(100));
    meta.insert("partial_rename.rs".to_string(), meta_with_rename(80));

    // Filter off: everything visible.
    assert_eq!(visible_file_names(&files, &meta, false).len(), 3);

    // Filter on: pure rename hidden, partial rename kept (has content delta).
    let visible = visible_file_names(&files, &meta, true);
    assert_eq!(visible, vec!["kept.rs", "partial_rename.rs"]);
}

fn make_app(file_names: Vec<&str>, changes_for: Vec<&str>) -> App {
    let file_names: Vec<String> = file_names.into_iter().map(|s| s.to_string()).collect();
    let mut rebase_changes = NameMap::new();
    for name in &file_names {
        let changes = if changes_for.contains(&name.as_str()) {
            vec![Change {
                line_num: 1,
                content: "-old".to_string(),
                paired_content: None,
                state: ChangeState::Unselected,
                is_base: true,
                context: vec![],
                base_insert_pos: None,
            }]
        } else {
            vec![]
        };
        rebase_changes.insert(name.clone(), changes);
    }
    App {
        file_changes: NameMap::new(),
        full_content: NameMap::new(),
        file_meta: NameMap::new(),
        left_label: String::new(),
        right_label: String::new(),
        current_file_idx: 0,
        file_names,
        scroll_positions: NameMap::new(),
        h_scroll_positions: NameMap::new(),
        focused_pane: Pane::FileList,
        view_mode: ViewMode::SideBySide,
        app_mode: AppMode::Rebase,
        rebase_changes,
        current_change_idx: 0,
        rebase_notification: None,
        show_rebase_modal: false,
        status_message: None,
        show_help_modal: false,
        theme: Theme::dark(),
        theme_cycle: vec![Theme::dark(), Theme::light()],
        theme_cycle_idx: 0,
        diff_source: DiffSource::Uncommitted,
        commits: Vec::new(),
        current_commit_idx: 0,
        log_return_source: None,
        remotes: Vec::new(),
        current_remote_idx: 0,
        branch_status: None,
        file_list_width_pct: 20,
        resizing_divider: false,
        full_file: false,
        wrap_mode: false,
        hide_pure_renames: false,
        file_tree_view: false,
        pending_commit_message: None,
        show_commit_modal: false,
        diff_cursor: 0,
        selection_anchor: None,
        mouse_selecting: false,
    }
}

fn file_rows(rows: &[TreeRow]) -> Vec<usize> {
    rows.iter()
        .filter_map(|r| match r {
            TreeRow::File { file_idx, .. } => Some(*file_idx),
            TreeRow::Dir { .. } => None,
        })
        .collect()
}

#[test]
fn tree_flat_files_no_dirs() {
    let names = vec!["a.rs".to_string(), "b.rs".to_string()];
    let rows = build_file_tree(&names);
    assert_eq!(
        rows,
        vec![
            TreeRow::File {
                file_idx: 0,
                depth: 0
            },
            TreeRow::File {
                file_idx: 1,
                depth: 0
            },
        ]
    );
}

#[test]
fn tree_nested_dirs() {
    let names = vec![
        "README.md".to_string(),
        "src/config.rs".to_string(),
        "src/ui/render.rs".to_string(),
        "src/ui/types.rs".to_string(),
    ];
    let rows = build_file_tree(&names);
    assert_eq!(
        rows,
        vec![
            TreeRow::File {
                file_idx: 0,
                depth: 0
            },
            TreeRow::Dir {
                label: "src".to_string(),
                depth: 0
            },
            TreeRow::File {
                file_idx: 1,
                depth: 1
            },
            TreeRow::Dir {
                label: "ui".to_string(),
                depth: 1
            },
            TreeRow::File {
                file_idx: 2,
                depth: 2
            },
            TreeRow::File {
                file_idx: 3,
                depth: 2
            },
        ]
    );
}

#[test]
fn tree_compacts_single_child_chain() {
    let names = vec!["a/b/c/x.rs".to_string(), "a/b/c/y.rs".to_string()];
    let rows = build_file_tree(&names);
    assert_eq!(
        rows,
        vec![
            TreeRow::Dir {
                label: "a/b/c".to_string(),
                depth: 0
            },
            TreeRow::File {
                file_idx: 0,
                depth: 1
            },
            TreeRow::File {
                file_idx: 1,
                depth: 1
            },
        ]
    );
}

#[test]
fn tree_single_file_in_dir_not_compacted_past_file() {
    // A directory whose only child is a FILE is not compacted onto the file.
    let names = vec!["a/b.rs".to_string()];
    let rows = build_file_tree(&names);
    assert_eq!(
        rows,
        vec![
            TreeRow::Dir {
                label: "a".to_string(),
                depth: 0
            },
            TreeRow::File {
                file_idx: 0,
                depth: 1
            },
        ]
    );
}

#[test]
fn tree_mixed_siblings_stop_compaction() {
    let names = vec!["a/b/c.rs".to_string(), "a/d.rs".to_string()];
    let rows = build_file_tree(&names);
    assert_eq!(
        rows,
        vec![
            TreeRow::Dir {
                label: "a".to_string(),
                depth: 0
            },
            TreeRow::Dir {
                label: "b".to_string(),
                depth: 1
            },
            TreeRow::File {
                file_idx: 0,
                depth: 2
            },
            TreeRow::File {
                file_idx: 1,
                depth: 1
            },
        ]
    );
}

#[test]
fn tree_file_indices_are_exact_permutation() {
    // Every file gets exactly one File row, mapping back to its index.
    let names = vec![
        "README.md".to_string(),
        "src/a.rs".to_string(),
        "src/sub/b.rs".to_string(),
        "src/sub/c.rs".to_string(),
    ];
    let rows = build_file_tree(&names);
    let mut idxs = file_rows(&rows);
    idxs.sort();
    assert_eq!(idxs, vec![0, 1, 2, 3]);
}

#[test]
fn tree_empty_input() {
    let names: Vec<String> = vec![];
    let rows = build_file_tree(&names);
    assert!(rows.is_empty());
}

#[test]
fn tree_deep_single_file_chain_compacts_to_dir() {
    let names = vec!["a/b/c/f.rs".to_string()];
    let rows = build_file_tree(&names);
    assert_eq!(
        rows,
        vec![
            TreeRow::Dir {
                label: "a/b/c".to_string(),
                depth: 0
            },
            TreeRow::File {
                file_idx: 0,
                depth: 1
            },
        ]
    );
}

#[test]
fn tree_labels_spell_the_names_and_no_directory_holds_one_alone() {
    let names: Vec<String> = ["a/b/c/1.rs", "a/b/d.rs", "a/b/e/f/2.rs", "top.rs"]
        .iter()
        .map(|n| n.to_string())
        .collect();
    let rows = build_file_tree(&names);
    let mut way: Vec<String> = Vec::new();
    let mut spelled = Vec::new();
    for row in &rows {
        match row {
            TreeRow::Dir { label, depth } => {
                way.truncate(*depth);
                way.push(label.clone());
            }
            TreeRow::File { file_idx, depth } => {
                way.truncate(*depth);
                let last = names[*file_idx].rsplit('/').next().unwrap();
                spelled.push([way.clone(), vec![last.to_string()]].concat().join("/"));
            }
        }
    }
    assert_eq!(spelled, names);
    let dirs: Vec<&str> = rows
        .iter()
        .filter_map(|r| match r {
            TreeRow::Dir { label, .. } => Some(label.as_str()),
            TreeRow::File { .. } => None,
        })
        .collect();
    assert_eq!(dirs, vec!["a/b", "c", "e/f"]);
}

#[test]
fn tree_of_sorted_names_shows_each_directory_once() {
    let mut files: FileChanges = NameMap::new();
    for name in ["b/x.rs", "a/c/1.rs", "a-b/c/2.rs", "a/d.rs", "a.rs", "a/c/3.rs"] {
        files.insert(name.to_string(), (vec![], vec![]));
    }
    let names = visible_file_names(&files, &NameMap::new(), false);
    let dirs: Vec<(String, usize)> = build_file_tree(&names)
        .into_iter()
        .filter_map(|r| match r {
            TreeRow::Dir { label, depth } => Some((label, depth)),
            TreeRow::File { .. } => None,
        })
        .collect();
    let wanted = [("a-b/c", 0), ("a", 0), ("c", 1), ("b", 0)];
    let wanted: Vec<(String, usize)> =
        wanted.iter().map(|(l, d)| (l.to_string(), *d)).collect();
    assert_eq!(dirs, wanted);
}

#[test]
fn navigate_forward_finds_next_file_with_changes() {
    let mut app = make_app(vec!["a.rs", "b.rs", "c.rs"], vec!["a.rs", "c.rs"]);
    app.current_file_idx = 0;
    app.navigate_rebase_file(true);
    assert_eq!(app.current_file_idx, 2); // skips b.rs (empty)
}

#[test]
fn navigate_forward_wraps_around() {
    let mut app = make_app(vec!["a.rs", "b.rs", "c.rs"], vec!["a.rs", "c.rs"]);
    app.current_file_idx = 2;
    app.navigate_rebase_file(true);
    assert_eq!(app.current_file_idx, 0); // wraps to a.rs
}

#[test]
fn navigate_backward_finds_previous_file_with_changes() {
    let mut app = make_app(vec!["a.rs", "b.rs", "c.rs"], vec!["a.rs", "c.rs"]);
    app.current_file_idx = 2;
    app.navigate_rebase_file(false);
    assert_eq!(app.current_file_idx, 0); // skips b.rs
}

#[test]
fn navigate_backward_wraps_around() {
    let mut app = make_app(vec!["a.rs", "b.rs", "c.rs"], vec!["a.rs", "c.rs"]);
    app.current_file_idx = 0;
    app.navigate_rebase_file(false);
    assert_eq!(app.current_file_idx, 2); // wraps to c.rs
}

#[test]
fn navigate_no_files_with_changes_stays_put() {
    let mut app = make_app(vec!["a.rs", "b.rs"], vec![]);
    app.current_file_idx = 0;
    app.navigate_rebase_file(true);
    assert_eq!(app.current_file_idx, 0); // unchanged
}

#[test]
fn navigate_single_file_with_changes_stays_put() {
    let mut app = make_app(vec!["a.rs", "b.rs"], vec!["a.rs"]);
    app.current_file_idx = 0;
    app.navigate_rebase_file(true);
    assert_eq!(app.current_file_idx, 0); // only file with changes
}

#[test]
fn navigate_empty_file_list() {
    let mut app = make_app(vec![], vec![]);
    app.navigate_rebase_file(true);
    assert_eq!(app.current_file_idx, 0);
}

#[test]
fn navigate_resets_change_idx() {
    let mut app = make_app(vec!["a.rs", "b.rs"], vec!["a.rs", "b.rs"]);
    app.current_file_idx = 0;
    app.current_change_idx = 5;
    app.navigate_rebase_file(true);
    assert_eq!(app.current_file_idx, 1);
    assert_eq!(app.current_change_idx, 0);
}

#[test]
fn decide_push_target_no_remotes() {
    assert_eq!(decide_push_target(Vec::new()), PushDecision::NoRemotes);
}

#[test]
fn decide_push_target_single_remote() {
    assert_eq!(
        decide_push_target(vec!["origin".to_string()]),
        PushDecision::Single("origin".to_string())
    );
}

#[test]
fn decide_push_target_multiple_remotes() {
    let remotes = vec!["origin".to_string(), "upstream".to_string()];
    assert_eq!(
        decide_push_target(remotes.clone()),
        PushDecision::NeedsPicker(remotes)
    );
}

#[test]
fn full_file_context_off_returns_none() {
    assert_eq!(full_file_context(false), None);
}

#[test]
fn full_file_context_on_returns_huge_but_in_range() {
    let ctx = full_file_context(true).expect("full_file=true should yield context");
    // Must stay within i32 (git overflows --unified=N parsed as signed int).
    assert!(ctx <= i32::MAX as usize);
    // Must be large enough to cover any realistic file.
    assert!(ctx >= 1_000_000);
}

fn make_picker_app(remotes: Vec<&str>) -> App {
    let mut app = make_app(vec![], vec![]);
    app.app_mode = AppMode::RemotePicker;
    app.remotes = remotes.into_iter().map(|s| s.to_string()).collect();
    app.current_remote_idx = 0;
    app
}

#[test]
fn picker_j_advances_within_bounds() {
    let mut app = make_picker_app(vec!["origin", "upstream"]);
    app.picker_navigate(true);
    assert_eq!(app.current_remote_idx, 1);
}

#[test]
fn picker_j_clamps_at_last_index() {
    let mut app = make_picker_app(vec!["origin", "upstream"]);
    app.current_remote_idx = 1;
    app.picker_navigate(true);
    assert_eq!(app.current_remote_idx, 1);
}

#[test]
fn picker_k_decreases() {
    let mut app = make_picker_app(vec!["origin", "upstream"]);
    app.current_remote_idx = 1;
    app.picker_navigate(false);
    assert_eq!(app.current_remote_idx, 0);
}

#[test]
fn picker_k_clamps_at_zero() {
    let mut app = make_picker_app(vec!["origin", "upstream"]);
    app.current_remote_idx = 0;
    app.picker_navigate(false);
    assert_eq!(app.current_remote_idx, 0);
}

#[test]
fn picker_navigate_handles_empty_list() {
    let mut app = make_picker_app(vec![]);
    app.picker_navigate(true);
    assert_eq!(app.current_remote_idx, 0);
}

// file_list_offset

#[test]
fn file_list_offset_empty_or_zero_height() {
    assert_eq!(file_list_offset(0, 0, 10), 0);
    assert_eq!(file_list_offset(0, 5, 0), 0);
}

#[test]
fn file_list_offset_list_fits_in_view() {
    // 5 items, height 10: no scrolling needed.
    assert_eq!(file_list_offset(0, 5, 10), 0);
    assert_eq!(file_list_offset(4, 5, 10), 0);
}

#[test]
fn file_list_offset_selected_in_first_page() {
    // Selected within the first `height` items: offset stays 0.
    assert_eq!(file_list_offset(0, 100, 10), 0);
    assert_eq!(file_list_offset(9, 100, 10), 0);
}

#[test]
fn file_list_offset_selected_past_first_page() {
    // Selected = 10, height 10: offset = 1 so selected is on the last row.
    assert_eq!(file_list_offset(10, 100, 10), 1);
    assert_eq!(file_list_offset(50, 100, 10), 41);
}

#[test]
fn file_list_offset_clamps_to_max() {
    // Near the end, offset clamps so the last `height` items show.
    assert_eq!(file_list_offset(99, 100, 10), 90);
}

// the selection

fn bare_app() -> App {
    let mut app = make_app(vec![], vec![]);
    app.app_mode = AppMode::Diff;
    app
}

#[test]
fn selection_range_orders_anchor_and_cursor() {
    let mut app = bare_app();
    app.diff_cursor = 5;
    app.selection_anchor = Some(2);
    assert_eq!(app.selection_range(), Some((2, 5)));
    app.diff_cursor = 1;
    assert_eq!(app.selection_range(), Some((1, 2)));
    app.selection_anchor = None;
    assert_eq!(app.selection_range(), None);
}

#[test]
fn reset_clears_cursor_and_selection() {
    let mut app = bare_app();
    app.diff_cursor = 9;
    app.selection_anchor = Some(3);
    app.mouse_selecting = true;
    app.reset_diff_selection();
    assert_eq!(app.diff_cursor, 0);
    assert_eq!(app.selection_anchor, None);
    assert!(!app.mouse_selecting);
}

// keys

fn payload(names: &[&str]) -> DiffPayload {
    let mut files: FileChanges = NameMap::new();
    for name in names {
        files.insert(
            name.to_string(),
            (
                vec![(1, " same".to_string()), (2, "-old".to_string())],
                vec![(1, " same".to_string()), (2, "+new".to_string())],
            ),
        );
    }
    DiffPayload {
        files,
        meta: NameMap::new(),
        left_label: "Base".to_string(),
        right_label: "Target".to_string(),
    }
}

fn started(names: &[&str]) -> App {
    App::start(
        payload(names),
        Theme::dark(),
        None,
        DiffSource::Uncommitted,
        UiDefaults { view_mode: ViewMode::SideBySide, wrap_mode: false },
        None,
    )
}

fn press(app: &mut App, c: char) -> Task {
    app.press(Key::Char(c), false, 30)
}

#[test]
fn selecting_another_file_gives_up_the_selection() {
    let mut app = started(&["a.rs", "b.rs"]);
    app.diff_cursor = 3;
    app.selection_anchor = Some(1);
    press(&mut app, 'j');
    assert_eq!(app.current_file_idx, 1);
    assert_eq!(app.diff_cursor, 0);
    assert_eq!(app.selection_anchor, None);
    // The last file stays selected.
    press(&mut app, 'j');
    assert_eq!(app.current_file_idx, 1);
}

#[test]
fn quitting_and_leaving_the_log() {
    let mut app = started(&["a.rs"]);
    assert!(matches!(press(&mut app, 'q'), Task::Exit { rebased: false }));
    assert!(matches!(app.press(Key::Esc, false, 30), Task::Exit { rebased: false }));
    app.log_return_source = Some(DiffSource::ToRef("main".to_string()));
    let task = press(&mut app, 'q');
    assert!(matches!(
        task,
        Task::Fetch { source: DiffSource::ToRef(r), purpose: FetchFor::LeaveLog, .. } if r == "main"
    ));
    assert!(app.log_return_source.is_none());
}

#[test]
fn help_window_takes_the_keys() {
    let mut app = started(&["a.rs", "b.rs"]);
    press(&mut app, '?');
    assert!(app.show_help_modal);
    press(&mut app, 'j');
    assert_eq!(app.current_file_idx, 0);
    assert!(matches!(press(&mut app, 'q'), Task::Nothing));
    assert!(!app.show_help_modal);
}

#[test]
fn switches_change_back_and_forth() {
    let mut app = started(&["a.rs"]);
    press(&mut app, 'u');
    assert!(matches!(app.view_mode, ViewMode::Unified));
    press(&mut app, 'u');
    assert!(matches!(app.view_mode, ViewMode::SideBySide));
    press(&mut app, 'w');
    assert!(app.wrap_mode);
    assert_eq!(app.status_message.as_deref(), Some("Wrap: ON"));
    press(&mut app, 'w');
    assert!(!app.wrap_mode);
    press(&mut app, 'T');
    assert!(app.file_tree_view);
    assert_eq!(app.status_message.as_deref(), Some("File panel: tree"));
    assert!(app.theme.is_dark);
    press(&mut app, 't');
    assert!(!app.theme.is_dark);
    press(&mut app, 't');
    assert!(app.theme.is_dark);
    app.press(Key::Tab, false, 30);
    assert!(matches!(app.focused_pane, Pane::DiffContent));
}

#[test]
fn hidden_renames_are_counted() {
    let mut app = started(&["a.rs", "moved.rs"]);
    app.file_meta.insert("moved.rs".to_string(), meta_with_rename(100));
    press(&mut app, 'R');
    assert_eq!(app.file_names, vec!["a.rs"]);
    assert_eq!(app.status_message.as_deref(), Some("Renames: hidden (1 file)"));
    press(&mut app, 'R');
    assert_eq!(app.file_names, vec!["a.rs", "moved.rs"]);
    assert_eq!(app.status_message.as_deref(), Some("Renames: shown"));
}

#[test]
fn hiding_renames_keeps_the_selection_of_a_file_that_stays() {
    let mut app = started(&["a.rs", "moved.rs"]);
    app.file_meta.insert("moved.rs".to_string(), meta_with_rename(100));
    app.diff_cursor = 3;
    app.selection_anchor = Some(1);
    press(&mut app, 'R');
    assert_eq!((app.diff_cursor, app.selection_anchor), (3, Some(1)));
    press(&mut app, 'R');
    assert_eq!((app.diff_cursor, app.selection_anchor), (3, Some(1)));
    // With the file that is hidden its selection goes.
    app.current_file_idx = 1;
    press(&mut app, 'R');
    assert_eq!(app.current_file_idx, 0);
    assert_eq!((app.diff_cursor, app.selection_anchor), (0, None));
}

#[test]
fn accepted_changes_are_written_and_rejected_ones_are_not() {
    let mut app = started(&["a.rs", "b.rs"]);
    press(&mut app, 'r');
    assert!(matches!(app.app_mode, AppMode::Rebase));
    // Nothing is accepted at first.
    assert!(matches!(press(&mut app, 'c'), Task::Nothing));
    assert_eq!(app.status_message.as_deref(), Some("No accepted changes to apply."));
    press(&mut app, 'r');
    press(&mut app, 'a');
    press(&mut app, 'n');
    press(&mut app, 'x');
    match press(&mut app, 'c') {
        Task::Apply(edits) => {
            assert_eq!(edits.len(), 1);
            assert_eq!(edits[0].0, "a.rs");
            assert_eq!(edits[0].1.len(), 1);
            assert_eq!(edits[0].1[0].line_num(), 2);
        }
        _ => panic!("accepted changes should be written"),
    }
    app.after_apply(Vec::new());
    assert_eq!(app.status_message.as_deref(), Some("Changes applied successfully!"));
    assert!(matches!(app.app_mode, AppMode::Diff));
}

#[test]
fn going_back_from_the_changes_writes_nothing() {
    let mut app = started(&["a.rs"]);
    press(&mut app, 'r');
    press(&mut app, 'a');
    assert!(matches!(app.press(Key::Esc, false, 30), Task::Nothing));
    assert!(matches!(app.app_mode, AppMode::Diff));
}

// The whole of a file before and after, and the diff between the two.
fn before() -> Vec<String> {
    ["one", "two", "three", "four", "five"].iter().map(|l| l.to_string()).collect()
}

fn whole_file_app() -> App {
    let diff = "\
diff --git a/n.txt b/n.txt
index abc..def 100644
--- a/n.txt
+++ b/n.txt
@@ -1,5 +1,6 @@
+zero
 one
-two
+TWO
 three
-four
 five
+six
+seven
";
    let (files, meta) = parse_diff_output(diff).unwrap();
    let mut app = App::start(
        DiffPayload {
            files,
            meta,
            left_label: "Base".to_string(),
            right_label: "Target".to_string(),
        },
        Theme::dark(),
        None,
        DiffSource::Uncommitted,
        UiDefaults { view_mode: ViewMode::SideBySide, wrap_mode: false },
        None,
    );
    press(&mut app, 'r');
    app
}

fn written(app: &mut App) -> Vec<String> {
    match press(app, 'c') {
        Task::Apply(edits) => {
            assert_eq!(edits.len(), 1);
            assert_eq!(edits[0].0, "n.txt");
            apply_operations(&before(), &edits[0].1)
        }
        _ => before(),
    }
}

#[test]
fn accepting_every_change_gives_the_new_file() {
    let mut app = whole_file_app();
    let count = app.rebase_changes.get("n.txt").unwrap().len();
    assert_eq!(count, 5);
    // A decision goes on to the next change.
    for _ in 0..count {
        press(&mut app, 'a');
    }
    assert_eq!(
        written(&mut app),
        vec!["zero", "one", "TWO", "three", "five", "six", "seven"]
    );
}

#[test]
fn accepting_no_change_leaves_the_file() {
    let mut app = whole_file_app();
    press(&mut app, 'x');
    assert_eq!(written(&mut app), before());
}

#[test]
fn accepting_some_changes_writes_those() {
    let mut app = whole_file_app();
    for decision in ['x', 'a', 'x', 'a'] {
        press(&mut app, decision);
    }
    assert_eq!(written(&mut app), vec!["one", "TWO", "three", "four", "five", "six"]);
}

#[test]
fn lines_that_the_hunks_leave_out_stay() {
    let diff = "\
diff --git a/n.txt b/n.txt
index abc..def 100644
--- a/n.txt
+++ b/n.txt
@@ -2,3 +2,4 @@
 two
-three
+THREE
+three and a half
 four
@@ -6,2 +7,1 @@
-six
 seven
";
    let file: Vec<String> = ["one", "two", "three", "four", "five", "six", "seven", "eight"]
        .iter()
        .map(|l| l.to_string())
        .collect();
    let decided = |decisions: &[char]| {
        let (files, meta) = parse_diff_output(diff).unwrap();
        let mut app = App::start(
            DiffPayload {
                files,
                meta,
                left_label: "Base".to_string(),
                right_label: "Target".to_string(),
            },
            Theme::dark(),
            None,
            DiffSource::Uncommitted,
            UiDefaults { view_mode: ViewMode::SideBySide, wrap_mode: false },
            None,
        );
        press(&mut app, 'r');
        assert_eq!(app.rebase_changes.get("n.txt").unwrap().len(), 3);
        for decision in decisions {
            press(&mut app, *decision);
        }
        match press(&mut app, 'c') {
            Task::Apply(edits) => apply_operations(&file, &edits[0].1),
            _ => file.clone(),
        }
    };
    assert_eq!(
        decided(&['a', 'a', 'a']),
        vec!["one", "two", "THREE", "three and a half", "four", "five", "seven", "eight"]
    );
    assert_eq!(
        decided(&['x', 'a', 'x']),
        vec!["one", "two", "three", "three and a half", "four", "five", "six", "seven", "eight"]
    );
    assert_eq!(
        decided(&['x', 'x', 'a']),
        vec!["one", "two", "three", "four", "five", "seven", "eight"]
    );
    assert_eq!(decided(&['x', 'x', 'x']), file);
}

// selecting lines

// One file with 40 lines that both sides have.
fn long_app() -> App {
    let side: Vec<(usize, String)> = (1..=40).map(|n| (n, format!(" line {n}"))).collect();
    let mut p = payload(&[]);
    p.files.insert("a.rs".to_string(), (side.clone(), side));
    App::start(
        p,
        Theme::dark(),
        None,
        DiffSource::Uncommitted,
        UiDefaults { view_mode: ViewMode::SideBySide, wrap_mode: false },
        None,
    )
}

fn copied(app: &mut App) -> Option<String> {
    match press(app, 'y') {
        Task::Copy(text) => Some(text),
        _ => None,
    }
}

#[test]
fn selected_lines_are_copied_without_their_marks() {
    let mut app = started(&["a.rs"]);
    press(&mut app, 'v');
    assert!(matches!(app.focused_pane, Pane::DiffContent));
    assert_eq!(app.selection_range(), Some((0, 0)));
    press(&mut app, 'j');
    assert_eq!(app.selection_range(), Some((0, 1)));
    // There is no line below the last.
    press(&mut app, 'j');
    assert_eq!(app.selection_range(), Some((0, 1)));
    assert_eq!(copied(&mut app).as_deref(), Some("same\nnew"));
    assert_eq!(app.status_message.as_deref(), Some("Copied 2 lines"));
    assert_eq!(app.selection_anchor, None);
    // Both sides, one below the other.
    press(&mut app, 'u');
    press(&mut app, 'v');
    app.press(Key::End, false, 30);
    assert_eq!(copied(&mut app).as_deref(), Some("same\nold\nnew"));
    assert_eq!(app.status_message.as_deref(), Some("Copied 3 lines"));
}

#[test]
fn without_a_selection_the_line_under_the_cursor_is_copied() {
    let mut app = started(&["a.rs"]);
    app.diff_cursor = 1;
    assert_eq!(copied(&mut app).as_deref(), Some("new"));
    assert_eq!(app.status_message.as_deref(), Some("Copied 1 line"));
    assert_eq!(app.diff_cursor, 1);
    // A line that only the left side has.
    let mut p = payload(&[]);
    p.files.insert("a.rs".to_string(), (vec![(1, "-gone".to_string())], vec![]));
    app.after_fetch(DiffSource::Uncommitted, FetchFor::Reload, Ok(p));
    assert_eq!(copied(&mut app).as_deref(), Some("gone"));
    // Nothing to copy.
    let mut none = started(&[]);
    assert_eq!(copied(&mut none), None);
    press(&mut none, 'v');
    assert_eq!(none.selection_anchor, None);
}

#[test]
fn keys_move_the_cursor_while_lines_are_selected() {
    let mut app = long_app();
    press(&mut app, 'v');
    app.press(Key::PageDown, false, 16);
    assert_eq!(app.selection_range(), Some((0, 10)));
    press(&mut app, 'k');
    assert_eq!(app.selection_range(), Some((0, 9)));
    app.press(Key::End, false, 16);
    assert_eq!(app.selection_range(), Some((0, 39)));
    app.press(Key::PageUp, false, 16);
    assert_eq!(app.selection_range(), Some((0, 29)));
    assert_eq!(app.scroll(), 0);
    // The diff follows the cursor.
    app.settle(Rect { x: 0, y: 1, width: 80, height: 14 });
    assert_eq!(app.scroll(), 18);
    app.press(Key::Home, false, 16);
    assert_eq!(app.selection_range(), Some((0, 0)));
    press(&mut app, 'v');
    assert_eq!(app.selection_range(), None);
    // Without a selection they scroll.
    press(&mut app, 'j');
    assert_eq!((app.diff_cursor, app.scroll()), (0, 19));
    // The cursor comes along.
    app.settle(Rect { x: 0, y: 1, width: 80, height: 14 });
    assert_eq!((app.diff_cursor, app.scroll()), (19, 19));
    assert_eq!(copied(&mut app).as_deref(), Some("line 20"));
}

#[test]
fn the_mouse_selects_lines_of_the_diff() {
    let mut app = long_app();
    app.scroll_positions.insert("a.rs".to_string(), 5);
    let at = |kind: MouseKind, row: u16| Mouse { kind, column: 50, row };
    app.mouse(at(MouseKind::LeftDown, 4), 100, 20);
    assert!(app.mouse_selecting);
    assert!(matches!(app.focused_pane, Pane::DiffContent));
    app.mouse(at(MouseKind::LeftDrag, 7), 100, 20);
    assert_eq!(app.selection_range(), Some((7, 10)));
    app.mouse(at(MouseKind::LeftDrag, 3), 100, 20);
    assert_eq!(app.selection_range(), Some((6, 7)));
    app.mouse(at(MouseKind::LeftUp, 3), 100, 20);
    assert!(!app.mouse_selecting);
    assert_eq!(app.selection_range(), Some((6, 7)));
    // The button is no longer held.
    app.mouse(at(MouseKind::LeftDrag, 9), 100, 20);
    assert_eq!(app.selection_range(), Some((6, 7)));
    assert_eq!(copied(&mut app).as_deref(), Some("line 7\nline 8"));
    // A click alone puts the cursor on a line.
    app.mouse(at(MouseKind::LeftDown, 2), 100, 20);
    app.mouse(at(MouseKind::LeftUp, 2), 100, 20);
    assert_eq!((app.diff_cursor, app.selection_anchor), (5, None));
    // Borders and wrapped lines are no lines.
    app.mouse(at(MouseKind::LeftDown, 1), 100, 20);
    app.mouse(at(MouseKind::LeftDown, 18), 100, 20);
    app.wrap_mode = true;
    app.mouse(at(MouseKind::LeftDown, 4), 100, 20);
    assert!(!app.mouse_selecting);
    assert_eq!((app.diff_cursor, app.selection_anchor), (5, None));
}

#[test]
fn dragging_past_the_ends_stays_on_the_lines() {
    let mut app = started(&["a.rs"]);
    let at = |kind: MouseKind, row: u16| Mouse { kind, column: 50, row };
    // Below the last line there is nothing.
    app.mouse(at(MouseKind::LeftDown, 4), 100, 20);
    assert!(!app.mouse_selecting);
    app.mouse(at(MouseKind::LeftDown, 3), 100, 20);
    app.mouse(at(MouseKind::LeftDrag, 0), 100, 20);
    assert_eq!(app.selection_range(), Some((0, 1)));
    app.mouse(at(MouseKind::LeftDrag, 19), 100, 20);
    assert_eq!(app.selection_range(), Some((1, 1)));
}

#[test]
fn a_new_diff_leaves_no_text_of_the_old_files() {
    let mut app = started(&["a.rs"]);
    let known = || (vec!["x".to_string()], vec!["y".to_string()]);
    app.full_content.insert("a.rs".to_string(), known());
    app.after_fetch(DiffSource::Uncommitted, FetchFor::Reload, Ok(payload(&["a.rs", "b.rs"])));
    assert!(app.full_content.get("a.rs").is_none());
    app.full_content.insert("a.rs".to_string(), known());
    app.after_fetch(DiffSource::Uncommitted, FetchFor::LeaveLog, Ok(payload(&["a.rs"])));
    assert!(app.full_content.get("a.rs").is_none());
}

#[test]
fn reload_keeps_the_selected_file() {
    let mut app = started(&["a.rs", "b.rs", "c.rs"]);
    press(&mut app, 'j');
    app.scroll_positions.insert("b.rs".to_string(), 7);
    app.after_fetch(DiffSource::Uncommitted, FetchFor::Reload, Ok(payload(&["b.rs", "c.rs"])));
    assert_eq!(app.file_names, vec!["b.rs", "c.rs"]);
    assert_eq!(app.current_file_idx, 0);
    assert_eq!(app.scroll(), 7);
    assert_eq!(app.status_message.as_deref(), Some("Diff reloaded"));
    app.status_message = None;
    // The same diff again is no news.
    app.after_fetch(DiffSource::Uncommitted, FetchFor::Reload, Ok(payload(&["b.rs", "c.rs"])));
    assert_eq!(app.status_message, None);
    app.after_fetch(DiffSource::Uncommitted, FetchFor::Reload, Err("gone".to_string()));
    assert_eq!(app.status_message.as_deref(), Some("Reload failed: gone"));
}

#[test]
fn whole_files_that_cannot_be_had_leave_hunks() {
    let mut app = started(&["a.rs"]);
    let task = press(&mut app, 'f');
    assert!(app.full_file);
    assert!(matches!(
        task,
        Task::Fetch { context: Some(1_000_000_000), purpose: FetchFor::FullFile, .. }
    ));
    app.after_fetch(DiffSource::Uncommitted, FetchFor::FullFile, Err("no".to_string()));
    assert!(!app.full_file);
    assert_eq!(app.status_message.as_deref(), Some("Full-file toggle failed: no"));
}

#[test]
fn commits_are_made_only_when_confirmed() {
    let mut app = started(&["a.rs"]);
    assert!(matches!(press(&mut app, 'c'), Task::ChangesForCommit));
    assert!(matches!(app.after_commit_check(Ok(true)), Task::CommitContext));
    assert!(matches!(
        app.after_commit_context(Ok("diff".to_string())),
        Task::CommitMessage(c) if c == "diff"
    ));
    app.after_commit_message(Ok("fix: x\n\nWhy.".to_string()));
    assert!(app.show_commit_modal);
    assert!(matches!(press(&mut app, 'j'), Task::Nothing));
    assert!(app.show_commit_modal);
    assert!(matches!(
        app.press(Key::Enter, false, 30),
        Task::StageAll(m) if m == "fix: x\n\nWhy."
    ));
    assert!(!app.show_commit_modal);
    let task = app.after_commit("fix: x\n\nWhy.".to_string(), Ok(()));
    assert!(matches!(task, Task::BranchStatus { reload: true }));
    assert_eq!(app.status_message.as_deref(), Some("Committed: fix: x"));

    app.after_commit_message(Ok("fix: y".to_string()));
    assert!(matches!(app.press(Key::Esc, false, 30), Task::Nothing));
    assert_eq!(app.pending_commit_message, None);
    assert_eq!(app.status_message.as_deref(), Some("Commit cancelled"));
}

#[test]
fn sync_goes_from_pull_to_push() {
    let mut app = started(&["a.rs"]);
    assert!(matches!(press(&mut app, 's'), Task::ChangesForSync));
    assert!(matches!(app.after_sync_check(Ok(true)), Task::Nothing));
    assert_eq!(app.status_message.as_deref(), Some("Cannot sync: uncommitted changes"));
    assert!(matches!(app.after_sync_check(Ok(false)), Task::UpstreamForSync));
    let upstream = "origin/main".to_string();
    assert!(matches!(app.after_sync_upstream(Ok(Some(upstream.clone()))), Task::Pull(_)));
    assert!(matches!(app.after_pull(upstream.clone(), Ok(())), Task::Push(_)));
    assert!(matches!(app.after_push(upstream, Ok(())), Task::Fetch { .. }));
    assert_eq!(app.status_message.as_deref(), Some("Synced with origin/main"));
}

#[test]
fn sync_without_an_upstream_asks_for_the_remote() {
    let mut app = started(&["a.rs"]);
    assert!(matches!(app.after_sync_upstream(Ok(None)), Task::Remotes));
    let remotes = vec!["origin".to_string(), "fork".to_string()];
    let task = app.after_branch(remotes, Ok("main".to_string()));
    assert!(matches!(task, Task::Nothing));
    assert!(matches!(app.app_mode, AppMode::RemotePicker));
    press(&mut app, 'j');
    assert!(matches!(app.press(Key::Enter, false, 30), Task::BranchForPicker));
    let task = app.picker_confirm(Ok("main".to_string()));
    assert!(matches!(
        task,
        Task::PushTo { remote, branch } if remote == "fork" && branch == "main"
    ));
    assert!(matches!(app.app_mode, AppMode::Diff));
    assert!(app.remotes.is_empty());
}

#[test]
fn scrolling_sideways_needs_shift() {
    let mut app = started(&["a.rs"]);
    app.press(Key::Right, true, 30);
    assert_eq!(app.h_scroll(), 5);
    app.press(Key::Left, true, 30);
    app.press(Key::Left, true, 30);
    assert_eq!(app.h_scroll(), 0);
    app.press(Key::Right, false, 30);
    assert!(matches!(app.focused_pane, Pane::DiffContent));
    press(&mut app, 'j');
    assert_eq!(app.scroll(), 1);
}

// the mouse

#[test]
fn divider_can_be_dragged_within_limits() {
    let mut app = started(&["a.rs"]);
    let at = |kind, column| Mouse { kind, column, row: 5 };
    app.mouse(at(MouseKind::LeftDown, 20), 100, 30);
    assert!(app.resizing_divider);
    app.mouse(at(MouseKind::LeftDrag, 45), 100, 30);
    assert_eq!(app.file_list_width_pct, 45);
    app.mouse(at(MouseKind::LeftDrag, 99), 100, 30);
    assert_eq!(app.file_list_width_pct, 60);
    app.mouse(at(MouseKind::LeftDrag, 1), 100, 30);
    assert_eq!(app.file_list_width_pct, 10);
    app.mouse(at(MouseKind::LeftUp, 1), 100, 30);
    assert!(!app.resizing_divider);
}

#[test]
fn click_selects_the_file_under_the_mouse() {
    let mut app = started(&["a.rs", "b.rs", "c.rs"]);
    app.mouse(Mouse { kind: MouseKind::LeftDown, column: 3, row: 4 }, 100, 30);
    assert_eq!(app.current_file_idx, 2);
    // Below the last file there is nothing to be selected.
    app.mouse(Mouse { kind: MouseKind::LeftDown, column: 3, row: 9 }, 100, 30);
    assert_eq!(app.current_file_idx, 2);
    // A window keeps the mouse away.
    app.show_help_modal = true;
    app.mouse(Mouse { kind: MouseKind::LeftDown, column: 3, row: 2 }, 100, 30);
    assert_eq!(app.current_file_idx, 2);
}

#[test]
fn wheel_scrolls_what_is_under_the_mouse() {
    let mut app = started(&["a.rs", "b.rs", "c.rs", "d.rs", "e.rs"]);
    app.mouse(Mouse { kind: MouseKind::ScrollDown, column: 3, row: 5 }, 100, 30);
    assert_eq!(app.current_file_idx, 3);
    app.mouse(Mouse { kind: MouseKind::ScrollDown, column: 60, row: 5 }, 100, 30);
    assert_eq!(app.scroll(), 3);
    app.mouse(Mouse { kind: MouseKind::ScrollRight, column: 60, row: 5 }, 100, 30);
    assert_eq!(app.h_scroll(), 3);
}
