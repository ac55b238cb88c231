//! What is drawn.
use giff::diff::{BranchStatus, CommitInfo, DiffPayload, DiffSource, FileMeta, FileStatus, RenameInfo};
use giff::names::NameMap;
use giff::ui::align::{
    align_lines, aligned_line_count, aligned_wrapped_row_count, build_unified_lines, pad_aligned_for_wrap,
    total_wrapped_rows, unified_line_count, unified_wrapped_row_count, wrap_rows,
};
use giff::ui::cache::HighlightCache;
use giff::ui::draw::{Draw, Line, Rect, Span};
use giff::ui::fit::{fit_file_and_dir, split_path_for_display, truncate_path, truncate_tail};
use giff::ui::grammar::bundled;
use giff::ui::layout::centered_rect;
use giff::ui::pane::row_is_selected;
use giff::ui::panels::{build_file_stats, status_badge};
use giff::ui::start::UiDefaults;
use giff::ui::theme::Theme;
use giff::ui::types::{App, AppMode, Pane};
use giff::ui::ViewMode;
use unicode_width::UnicodeWidthStr;

#[test]
fn status_badge_text_per_case() {
    let t = Theme::dark();
    let pure = || {
        Some(RenameInfo {
            from: "old".to_string(),
            similarity: 100,
        })
    };
    let partial = || {
        Some(RenameInfo {
            from: "old".to_string(),
            similarity: 50,
        })
    };
    let text = |m: FileMeta| status_badge(Some(&m), &t).map(|s| s.text);

    // Status badges
    assert_eq!(
        text(FileMeta {
            status: FileStatus::Deleted,
            rename: None,
        }),
        Some(" D".to_string())
    );
    assert_eq!(
        text(FileMeta {
            status: FileStatus::Added,
            rename: None,
        }),
        Some(" A".to_string())
    );

    // Rename badges (status == Modified)
    assert_eq!(
        text(FileMeta {
            status: FileStatus::Modified,
            rename: pure(),
        }),
        Some(" R".to_string())
    );
    assert_eq!(
        text(FileMeta {
            status: FileStatus::Modified,
            rename: partial(),
        }),
        Some(" r".to_string())
    );

    // Plain modification: no badge
    assert_eq!(
        text(FileMeta {
            status: FileStatus::Modified,
            rename: None,
        }),
        None
    );

    // Priority guard: status wins over a concurrent rename.
    assert_eq!(
        text(FileMeta {
            status: FileStatus::Deleted,
            rename: partial(),
        }),
        Some(" D".to_string())
    );
}

#[test]
fn test_truncate_path_no_truncation_needed() {
    assert_eq!(truncate_path("src/main.rs", 20), "src/main.rs");
}

#[test]
fn test_truncate_path_exact_fit() {
    assert_eq!(truncate_path("abcde", 5), "abcde");
}

#[test]
fn test_truncate_path_truncates_from_left() {
    // 10 chars, max 6: the ellipsis and the last 5 chars
    assert_eq!(truncate_path("abcdefghij", 6), "\u{2026}fghij");
}

#[test]
fn test_truncate_path_very_narrow() {
    assert_eq!(truncate_path("abcdefghij", 1), "\u{2026}");
    assert_eq!(truncate_path("abcdefghij", 0), "\u{2026}");
}

#[test]
fn test_truncate_path_width_2() {
    // max_width=2: the ellipsis and 1 char
    assert_eq!(truncate_path("abcdef", 2), "\u{2026}f");
}

#[test]
fn test_truncate_path_cjk_characters() {
    // Each CJK char is 2 display columns wide
    // "日本語" = 6 columns, max 5: the ellipsis and "本語" (4 cols) = 5
    assert_eq!(truncate_path("日本語", 5), "\u{2026}本語");
}

#[test]
fn test_truncate_path_mixed_ascii_cjk() {
    // "src/日本語.rs": test that mixed content truncates correctly
    let path = "src/日本語.rs";
    let truncated = truncate_path(path, 8);
    // Should end with the tail that fits in 7 cols (8 - 1 for the ellipsis)
    assert!(truncated.starts_with('\u{2026}'));
    assert!(UnicodeWidthStr::width(truncated.as_str()) <= 8);
}

// build_file_stats

fn stats_content_width(spans: &[Span]) -> usize {
    spans
        .iter()
        .map(|s| UnicodeWidthStr::width(s.text.as_str()))
        .sum()
}

#[test]
fn test_build_file_stats_no_changes() {
    let t = Theme::dark();
    let (spans, width) = build_file_stats(0, 0, &t);
    assert!(spans.is_empty());
    assert_eq!(width, 0);
}

#[test]
fn test_build_file_stats_adds_only() {
    let t = Theme::dark();
    let (spans, width) = build_file_stats(42, 0, &t);
    // " +42": 1 + 3 = 4
    assert_eq!(width, 4);
    assert_eq!(stats_content_width(&spans), width);
}

#[test]
fn test_build_file_stats_dels_only() {
    let t = Theme::dark();
    let (spans, width) = build_file_stats(0, 7, &t);
    // " -7": 1 + 2 = 3
    assert_eq!(width, 3);
    assert_eq!(stats_content_width(&spans), width);
}

#[test]
fn test_build_file_stats_adds_and_dels() {
    let t = Theme::dark();
    let (spans, width) = build_file_stats(3, 1, &t);
    // " +3 -1": 1 + 2 + 1 + 2 = 6
    assert_eq!(width, 6);
    assert_eq!(stats_content_width(&spans), width);
}

// wrap_rows / total_wrapped_rows

#[test]
fn test_wrap_rows_empty_line() {
    assert_eq!(wrap_rows(0, 80), 1);
}

#[test]
fn test_wrap_rows_fits() {
    assert_eq!(wrap_rows(80, 80), 1);
    assert_eq!(wrap_rows(40, 80), 1);
}

#[test]
fn test_wrap_rows_overflows() {
    assert_eq!(wrap_rows(81, 80), 2);
    assert_eq!(wrap_rows(160, 80), 2);
    assert_eq!(wrap_rows(161, 80), 3);
}

#[test]
fn test_wrap_rows_zero_width_does_not_panic() {
    assert_eq!(wrap_rows(100, 0), 1);
}

#[test]
fn test_total_wrapped_rows_gap_lines_collapse() {
    // Two gap rows = 2 rows total, regardless of pane width.
    let lines = vec![(0, String::new()), (0, String::new())];
    assert_eq!(total_wrapped_rows(&lines, 80), 2);
}

#[test]
fn test_total_wrapped_rows_counts_gutter_in_wrap() {
    // Content stripped of '+' is 80 cols; gutter adds 7, so 87 cols total.
    // At pane width 80, that wraps to 2 visual rows.
    let content = format!("+{}", "x".repeat(80));
    let lines = vec![(1, content)];
    assert_eq!(total_wrapped_rows(&lines, 80), 2);
}

// pad_aligned_for_wrap

#[test]
fn test_pad_aligned_for_wrap_pads_shorter_side() {
    // Base line wraps to 2 rows at width=10 (gutter 7 + content 5 = 12, so 2),
    // head line wraps to 1 row at width=10 (gutter 7 + content 2 = 9, so 1).
    // Padding should add 1 blank entry on the head side.
    let base = vec![(1, " aaaaa".to_string())];
    let head = vec![(1, " bb".to_string())];
    let (b, h) = pad_aligned_for_wrap(base, head, 10);
    assert_eq!(b.len(), 1);
    assert_eq!(h.len(), 2);
    assert_eq!(h[1], (0, String::new()));
}

#[test]
fn test_pad_aligned_for_wrap_no_op_when_equal() {
    let base = vec![(1, " short".to_string())];
    let head = vec![(1, " also".to_string())];
    let (b, h) = pad_aligned_for_wrap(base.clone(), head.clone(), 80);
    assert_eq!(b.len(), 1);
    assert_eq!(h.len(), 1);
}

// allocation-free wrapped row counters

#[test]
fn test_unified_wrapped_row_count_matches_unified_lines() {
    // Build a synthetic diff: 1 context + 1 removal + 1 addition.
    let base = vec![(1, " ctx".to_string()), (2, "-bye".to_string())];
    let head = vec![(1, " ctx".to_string()), (2, "+hi".to_string())];
    let unified = build_unified_lines(&base, &head);
    let alloc_total = total_wrapped_rows(&unified, 80);
    let free_total = unified_wrapped_row_count(&base, &head, 80);
    assert_eq!(alloc_total, free_total);
}

#[test]
fn test_aligned_wrapped_row_count_matches_padded_total() {
    // For side-by-side: padded vector total rows should equal counter result.
    let base = vec![(1, " ctx".to_string()), (2, "-removed line".to_string())];
    let head = vec![(1, " ctx".to_string()), (2, "+added".to_string())];
    let (ab, ah) = align_lines(&base, &head);
    let (pb, ph) = pad_aligned_for_wrap(ab, ah, 20);
    let padded_total = total_wrapped_rows(&pb, 20).max(total_wrapped_rows(&ph, 20));
    let free_total = aligned_wrapped_row_count(&base, &head, 20);
    assert_eq!(padded_total, free_total);
}

#[test]
fn test_build_file_stats_large_numbers() {
    let t = Theme::dark();
    let (spans, width) = build_file_stats(1000, 99999, &t);
    // " +1000 -99999": 1 + 5 + 1 + 6 = 13
    assert_eq!(width, 13);
    assert_eq!(stats_content_width(&spans), width);
}

// names

#[test]
fn names_are_cut_at_their_end() {
    assert_eq!(truncate_tail("abcdefghij", 6), "abcde\u{2026}");
    assert_eq!(truncate_tail("日本語", 5), "日本\u{2026}");
    assert_eq!(truncate_tail("abc", 3), "abc");
    assert_eq!(truncate_tail("abc", 1), "\u{2026}");
}

#[test]
fn directory_gives_way_to_the_name() {
    assert_eq!(
        split_path_for_display("src/ui/render.rs"),
        ("render.rs".to_string(), "src/ui".to_string())
    );
    assert_eq!(split_path_for_display("README.md"), ("README.md".to_string(), String::new()));
    let (name, dir) = fit_file_and_dir("render.rs", "src/ui", 40);
    assert_eq!(name, "render.rs");
    assert_eq!(dir, "src/ui");
    let (name, dir) = fit_file_and_dir("render.rs", "src/ui", 9);
    assert_eq!(name, "render.rs");
    assert_eq!(dir, "");
}

// alignment

#[test]
fn unpaired_lines_stand_next_to_gaps() {
    let base = vec![(1, " a".to_string()), (2, "-b".to_string()), (3, "-c".to_string())];
    let head = vec![(1, " a".to_string()), (2, "+x".to_string())];
    let (b, h) = align_lines(&base, &head);
    assert_eq!(b, base);
    assert_eq!(
        h,
        vec![(1, " a".to_string()), (2, "+x".to_string()), (0, String::new())]
    );
    let u = build_unified_lines(&base, &head);
    let texts: Vec<&str> = u.iter().map(|l| l.1.as_str()).collect();
    assert_eq!(texts, vec![" a", "-b", "-c", "+x"]);
}

#[test]
fn cursor_and_selection_mark_rows() {
    assert!(row_is_selected(3, Some(3), None));
    assert!(!row_is_selected(4, Some(3), None));
    assert!(row_is_selected(4, None, Some((2, 4))));
    assert!(!row_is_selected(5, None, Some((2, 4))));
}

// whole frames

fn app_with_files() -> App {
    let mut files = NameMap::new();
    files.insert(
        "src/a.rs".to_string(),
        (
            vec![(1, " same".to_string()), (2, "-old".to_string())],
            vec![
                (1, " same".to_string()),
                (2, "+new".to_string()),
                (3, "+more".to_string()),
            ],
        ),
    );
    files.insert("README.md".to_string(), (vec![(1, "-gone".to_string())], vec![]));
    App::start(
        DiffPayload {
            files,
            meta: NameMap::new(),
            left_label: "Base".to_string(),
            right_label: "Target".to_string(),
        },
        Theme::dark(),
        None,
        DiffSource::Uncommitted,
        UiDefaults { view_mode: ViewMode::SideBySide, wrap_mode: false },
        Some(BranchStatus {
            name: "main".to_string(),
            upstream: Some("origin/main".to_string()),
            ahead: 2,
            behind: 0,
        }),
    )
}

fn text_of(line: &Line) -> String {
    line.iter().map(|s| s.text.as_str()).collect()
}

fn cache() -> HighlightCache {
    let (syntaxes, themes) = bundled();
    HighlightCache::new(Box::leak(Box::new(syntaxes)), Box::leak(Box::new(themes)))
}

fn screen() -> Rect {
    Rect { x: 0, y: 0, width: 120, height: 30 }
}

/// The titles of the borders of a frame.
fn titles(frame: &[Draw]) -> Vec<String> {
    frame
        .iter()
        .filter_map(|d| match d {
            Draw::Frame { border, .. } => Some(text_of(&border.title)),
            _ => None,
        })
        .collect()
}

#[test]
fn header_names_the_branch_and_the_file() {
    let app = app_with_files();
    assert_eq!(
        text_of(&app.render_header()),
        " \u{e0a0} main \u{2191}2 \u{2193}0 \u{2502} Base \u{2192} Target \u{2502} DIFF \u{2502} Side-by-Side \u{2502} README.md \u{2502} 1/2"
    );
}

#[test]
fn file_list_shows_counts_and_directories() {
    let app = app_with_files();
    let drawn = app.render_file_list(Rect { x: 0, y: 1, width: 40, height: 20 });
    match &drawn[1] {
        Draw::List { area, rows, selected, .. } => {
            assert_eq!(*area, Rect { x: 1, y: 2, width: 38, height: 18 });
            assert_eq!(*selected, Some(0));
            assert_eq!(text_of(&rows[0]), "README.md -1");
            assert_eq!(text_of(&rows[1]), "a.rs  src +2 -1");
        }
        _ => panic!("the list should follow its border"),
    }
}

#[test]
fn tree_shows_directories_and_selects_the_row_of_the_file() {
    let mut app = app_with_files();
    app.file_tree_view = true;
    app.current_file_idx = 1;
    let drawn = app.render_file_list(Rect { x: 0, y: 1, width: 40, height: 20 });
    match &drawn[1] {
        Draw::List { rows, selected, .. } => {
            let texts: Vec<String> = rows.iter().map(text_of).collect();
            assert_eq!(texts, vec!["README.md -1", "src/", "  a.rs +2 -1"]);
            assert_eq!(*selected, Some(2));
        }
        _ => panic!("the list should follow its border"),
    }
}

#[test]
fn frame_has_a_list_and_two_panes() {
    let mut app = app_with_files();
    app.current_file_idx = 1;
    let frame = app.ui(screen(), &mut cache());
    assert_eq!(titles(&frame), vec![" Files ", " Base ", " Target "]);
    let panes: Vec<&Vec<Line>> = frame
        .iter()
        .filter_map(|d| match d {
            Draw::Text { lines, area, .. } if area.height > 1 => Some(lines),
            _ => None,
        })
        .collect();
    // The numbers and the code of both panes.
    assert_eq!(panes.len(), 4);
    assert_eq!(text_of(&panes[0][1]), "   2 - ");
    assert_eq!(text_of(&panes[1][1]), "old");
    assert_eq!(text_of(&panes[2][2]), "   3 + ");
    assert_eq!(text_of(&panes[3][2]), "more");
    // The left side has a gap next to the line that was added.
    assert_eq!(text_of(&panes[0][2]), "");
}

#[test]
fn unified_frame_has_one_pane() {
    let mut app = app_with_files();
    app.current_file_idx = 1;
    app.view_mode = ViewMode::Unified;
    app.wrap_mode = true;
    let frame = app.ui(screen(), &mut cache());
    assert_eq!(titles(&frame), vec![" Files ", " Base vs Target \u{2502} wrap "]);
}

#[test]
fn scrolling_stays_within_the_file() {
    let mut app = app_with_files();
    app.current_file_idx = 1;
    app.scroll_to(500);
    app.h_scroll_to(500);
    app.ui(screen(), &mut cache());
    assert_eq!(app.scroll(), 0);
    assert_eq!(app.h_scroll(), 0);
    // On a screen with two rows for the file, the last two are shown.
    app.scroll_to(500);
    app.clamp_scroll(100, 4);
    assert_eq!(app.scroll(), 1);
}

#[test]
fn cursor_is_followed() {
    let mut app = app_with_files();
    app.current_file_idx = 1;
    app.diff_cursor = 2;
    app.follow_cursor(4);
    assert_eq!(app.scroll(), 1);
    app.diff_cursor = 0;
    app.follow_cursor(4);
    assert_eq!(app.scroll(), 0);
}

#[test]
fn windows_lie_over_the_frame() {
    let mut app = app_with_files();
    app.show_help_modal = true;
    let frame = app.ui(screen(), &mut cache());
    assert_eq!(titles(&frame).last().unwrap(), " Keybindings ");
    app.show_help_modal = false;
    app.pending_commit_message = Some("fix: x\n\nWhy.".to_string());
    app.show_commit_modal = true;
    let frame = app.ui(screen(), &mut cache());
    assert_eq!(titles(&frame).last().unwrap(), " Commit message ");
    match frame.last().unwrap() {
        Draw::Text { lines, .. } => {
            let texts: Vec<String> = lines.iter().map(text_of).collect();
            assert_eq!(texts, vec!["fix: x", "", "Why."]);
            assert!(lines[0][0].style.bold);
            assert!(!lines[2][0].style.bold);
        }
        _ => panic!("the message should be drawn last"),
    }
}

#[test]
fn rebase_window_shows_the_advice() {
    let mut app = app_with_files();
    app.rebase_notification = Some("You are behind.\nRebase?".to_string());
    app.show_rebase_modal = true;
    let frame = app.ui(screen(), &mut cache());
    assert_eq!(titles(&frame).last().unwrap(), " Rebase Recommended ");
}

#[test]
fn remotes_and_log_and_changes_are_listed() {
    let mut app = app_with_files();
    app.app_mode = AppMode::RemotePicker;
    app.remotes = vec!["origin".to_string(), "fork".to_string()];
    app.current_remote_idx = 1;
    match app.ui(screen(), &mut cache()).last().unwrap() {
        Draw::Text { lines, .. } => {
            let texts: Vec<String> = lines.iter().map(text_of).collect();
            assert_eq!(texts, vec!["   origin", " \u{25b6} fork"]);
        }
        _ => panic!("the remotes should be drawn last"),
    }
    app.app_mode = AppMode::Log;
    app.commits = vec![CommitInfo {
        hash: "abc1234".to_string(),
        subject: "a subject that is long".to_string(),
    }];
    match &app.render_log_ui(Rect { x: 0, y: 0, width: 24, height: 5 })[1] {
        Draw::List { rows, .. } => {
            // 24 columns less the borders, the mark and the hash leave 12.
            assert_eq!(text_of(&rows[0]), "abc1234 a subject t\u{2026}");
        }
        _ => panic!("the log should follow its border"),
    }
    app.app_mode = AppMode::Diff;
    app.current_file_idx = 1;
    app.enter_rebase();
    match &app.render_rebase_ui(screen())[1] {
        Draw::List { rows, .. } => {
            assert_eq!(text_of(&rows[0]), "   -old \u{2192} +new");
            assert_eq!(text_of(&rows[1]), "   +more");
        }
        _ => panic!("the changes should follow their border"),
    }
}

#[test]
fn message_stands_at_the_end_of_the_help_line() {
    let mut app = app_with_files();
    app.status_message = Some("Error: no".to_string());
    let drawn = app.render_help(Rect { x: 0, y: 29, width: 120, height: 1 });
    match &drawn[1] {
        Draw::Text { area, lines, .. } => {
            assert_eq!(*area, Rect { x: 110, y: 29, width: 10, height: 1 });
            assert_eq!(text_of(&lines[0]), "Error: no ");
            assert_eq!(lines[0][0].style.fg, Some(app.theme.fg_removed));
        }
        _ => panic!("the message should follow the keys"),
    }
}

#[test]
fn windows_are_centered() {
    let area = centered_rect(40, 10, Rect { x: 0, y: 0, width: 100, height: 50 });
    assert_eq!((area.width, area.height), (40, 10));
    assert_eq!((area.x, area.y), (30, 20));
    // An area without room is given back.
    let none = Rect { x: 3, y: 4, width: 0, height: 7 };
    assert_eq!(centered_rect(40, 10, none), none);
}

#[test]
fn focused_pane_marks_the_line_under_the_cursor() {
    let mut app = app_with_files();
    app.current_file_idx = 1;
    app.focused_pane = Pane::DiffContent;
    app.diff_cursor = 1;
    let frame = app.ui(screen(), &mut cache());
    let marked: Vec<String> = frame
        .iter()
        .filter_map(|d| match d {
            Draw::Text { lines, .. } => Some(lines),
            _ => None,
        })
        .flatten()
        .filter(|l| !l.is_empty() && l.iter().all(|s| s.style.bg == Some(app.theme.bg_selection)))
        .map(text_of)
        .collect();
    assert_eq!(marked, vec!["   2 - ", "old", "   2 + ", "new"]);
}

#[test]
fn numbers_stay_while_lines_scroll_sideways() {
    let mut app = app_with_files();
    let long = "x".repeat(300);
    app.file_changes.insert(
        "src/a.rs".to_string(),
        (vec![(1, format!("-{long}"))], vec![(1, format!("+{long}"))]),
    );
    app.current_file_idx = 1;
    app.h_scroll_positions.insert("src/a.rs".to_string(), 7);
    let frame = app.ui(screen(), &mut cache());
    let texts: Vec<(String, u16)> = frame
        .iter()
        .filter_map(|d| match d {
            Draw::Text { lines, left, .. } if lines.len() == 1 => Some((text_of(&lines[0]), *left)),
            _ => None,
        })
        .collect();
    for number in ["   1 - ", "   1 + "] {
        assert!(texts.contains(&(number.to_string(), 0)));
    }
    assert_eq!(texts.iter().filter(|(t, left)| *t == long && *left == 7).count(), 2);
}

#[test]
fn wrapped_sides_take_the_same_rows_and_no_fewer() {
    let base = vec![(1, " same".to_string()), (2, format!("-{}", "x".repeat(40)))];
    let head = vec![
        (1, " same".to_string()),
        (2, "+new".to_string()),
        (3, "+more".to_string()),
    ];
    let (b, h) = align_lines(&base, &head);
    assert_eq!(aligned_line_count(&base, &head), 3);
    assert_eq!((b.len(), h.len()), (3, 3));
    assert_eq!(unified_line_count(&base, &head), build_unified_lines(&base, &head).len());
    for width in [0, 10, 20, 80] {
        let rows = aligned_wrapped_row_count(&base, &head, width);
        let (pb, ph) = pad_aligned_for_wrap(b.clone(), h.clone(), width);
        assert_eq!(total_wrapped_rows(&pb, width), rows);
        assert_eq!(total_wrapped_rows(&ph, width), rows);
        assert!(rows >= 3);
    }
}
