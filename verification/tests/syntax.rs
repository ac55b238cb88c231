//! Highlighting.
use giff::ui::cache::{highlight_line_changes, highlight_line_changes_split, HighlightCache};
use giff::ui::grammar::{bundled, is_valid_syntax_theme};
use giff::ui::theme::Theme;
use std::collections::HashSet;
use syntect::highlighting::ThemeSet;
use syntect::parsing::SyntaxSet;

fn sets() -> (&'static SyntaxSet, &'static ThemeSet) {
    let (syntaxes, themes) = bundled();
    (Box::leak(Box::new(syntaxes)), Box::leak(Box::new(themes)))
}

fn new_cache() -> HighlightCache {
    let (syntaxes, themes) = sets();
    HighlightCache::new(syntaxes, themes)
}

/// A `#` comment containing an apostrophe must not leak its context into
/// following lines.
#[test]
fn comment_with_apostrophe_does_not_bleed_into_next_lines() {
    let (syntaxes, themes) = sets();
    let theme = Theme::dark();
    let lines: Vec<(usize, String)> = vec![
        (
            1,
            "+# GitPython's Repo() expands paths, but mkdir() does not".to_string(),
        ),
        (
            2,
            "+GITOPS_CLONE_PATH = os.path.expanduser(env('PATH', default='/data'))".to_string(),
        ),
        (3, "+GITOPS_REPO_URL = env(".to_string()),
    ];
    let (_g, content) =
        highlight_line_changes_split(&lines, "gitops.py", &theme, syntaxes, themes);

    // The two code lines after the comment must be tokenized into multiple
    // distinctly-colored spans, not rendered as one flat run.
    for idx in [1usize, 2] {
        let spans = &content[idx];
        let distinct: HashSet<_> = spans.iter().map(|s| s.style.fg).collect();
        assert!(
            distinct.len() > 1,
            "line {idx} should have multiple token colors, got {} span(s) all fg={:?}: {:?}",
            spans.len(),
            spans.first().map(|s| s.style.fg),
            spans.iter().map(|s| s.text.as_str()).collect::<Vec<_>>(),
        );
    }
}

/// A hunk whose lines sit inside a triple-quoted docstring opened ABOVE the
/// diff must be highlighted as a string once the preceding file lines are
/// supplied as priming source, not as loose comments or code.
#[test]
fn priming_source_fixes_construct_opened_above_the_hunk() {
    let theme = Theme::dark();
    // Diff shows only lines 4-5; the `"""` opened at line 1 is off-diff.
    let lines: Vec<(usize, String)> = vec![
        (
            4,
            "     # not a real comment, this is inside a docstring".to_string(),
        ),
        (5, "+    python tool.py --apply --select 1,3,6".to_string()),
    ];
    // Full head text: the docstring opens at line 1 and stays open.
    let source: Vec<String> = vec![
        "\"\"\"".to_string(),
        "Module docstring.".to_string(),
        "".to_string(),
        "    # not a real comment, this is inside a docstring".to_string(),
        "    python tool.py --apply --select 1,3,6".to_string(),
    ];

    // Without priming the highlighter starts at line 4 ignorant of the open
    // string, so it tokenizes the lines as code.
    let mut bare = new_cache();
    let (_g, unprimed) = bare.window(&lines, "tool.py", &theme, 0, lines.len());
    let unprimed_colors: HashSet<_> = unprimed
        .iter()
        .flat_map(|l| l.iter().map(|s| s.style.fg))
        .collect();

    // With priming: every rendered line is inside the open string, so each
    // collapses to a single uniform string color.
    let mut primed = new_cache();
    let (_g, content) =
        primed.window_src(&lines, "tool.py", &theme, 0, lines.len(), Some(&source));
    for (i, c) in content.iter().enumerate() {
        let colors: HashSet<_> = c.iter().map(|s| s.style.fg).collect();
        assert_eq!(
            colors.len(),
            1,
            "primed docstring line {i} should be one color, got {colors:?}",
        );
    }

    // Priming must actually change the output, else the test proves nothing.
    let primed_colors: HashSet<_> = content
        .iter()
        .flat_map(|l| l.iter().map(|s| s.style.fg))
        .collect();
    assert_ne!(
        unprimed_colors, primed_colors,
        "priming must change the highlighting vs the unprimed path",
    );
}

/// A multi-line construct that opens AND closes entirely within a between-hunk
/// gap must not leak: priming has to feed the whole gap (up to the next diff
/// line) so the construct's close fires.
#[test]
fn priming_feeds_entire_between_hunk_gap() {
    let theme = Theme::dark();
    // Diff shows head lines 1 and 6; lines 2-5 are an elided gap that opens a
    // docstring (line 3) and closes it (line 5).
    let lines: Vec<(usize, String)> = vec![
        (1, " def f():".to_string()),
        (6, "+    result = compute(a, b)".to_string()),
    ];
    let source: Vec<String> = vec![
        "def f():".to_string(),
        "    x = 1".to_string(),
        "    s = \"\"\"".to_string(),
        "    still inside the string".to_string(),
        "    end\"\"\"".to_string(),
        "    result = compute(a, b)".to_string(),
    ];
    let mut cache = new_cache();
    let (_g, content) = cache.window_src(&lines, "f.py", &theme, 0, lines.len(), Some(&source));
    // The post-gap code line must be tokenized as code (multiple colors),
    // proving the docstring opened at line 3 was closed at line 5 during
    // priming rather than leaking into line 6.
    let colors: HashSet<_> = content[1].iter().map(|s| s.style.fg).collect();
    assert!(
        colors.len() > 1,
        "post-gap code should be multi-colored, got {colors:?}",
    );
}

/// Out-of-order line numbers (unified `-` lines, alignment gap rows) must not
/// trigger a state-corrupting rewind or panic when a source is present.
#[test]
fn priming_tolerates_out_of_order_and_gap_rows() {
    let theme = Theme::dark();
    let lines: Vec<(usize, String)> = vec![
        (10, "+let x = 1;".to_string()),
        (0, " ".to_string()),             // alignment gap row
        (3, "-let old = 2;".to_string()), // base-numbered line, already passed
        (11, "+let y = 3;".to_string()),
    ];
    let source: Vec<String> = (1..=11).map(|n| format!("line {n}")).collect();
    let mut cache = new_cache();
    // Must not panic; window length matches the request.
    let (_g, content) = cache.window_src(&lines, "f.rs", &theme, 0, lines.len(), Some(&source));
    assert_eq!(content.len(), lines.len());
}

fn sample_lines() -> Vec<(usize, String)> {
    vec![
        (1, " fn main() {".to_string()),
        (2, "-    old();".to_string()),
        (3, "+    new();".to_string()),
        (4, " }".to_string()),
    ]
}

#[test]
fn scrolling_reuses_highlight_and_returns_window() {
    let theme = Theme::dark();
    let lines = sample_lines();
    let mut cache = new_cache();

    // First frame highlights the file; subsequent scroll frames must not.
    let full = cache.window(&lines, "main.rs", &theme, 0, lines.len());
    let win = cache.window(&lines, "main.rs", &theme, 1, 2);

    assert_eq!(cache.misses(), 1, "scrolling must not re-highlight");
    // The window is exactly the requested slice of the full result.
    assert_eq!(win.0, full.0[1..3].to_vec());
    assert_eq!(win.1, full.1[1..3].to_vec());
}

#[test]
fn highlighting_is_incremental_and_continuous() {
    let (syntaxes, themes) = sets();
    let theme = Theme::dark();
    let lines = sample_lines(); // 4 lines
    let mut cache = HighlightCache::new(syntaxes, themes);

    // A file switch only needs the first screenful highlighted.
    let top = cache.window(&lines, "main.rs", &theme, 0, 2);
    // Scrolling down extends the SAME entry rather than re-highlighting.
    let more = cache.window(&lines, "main.rs", &theme, 0, 4);
    assert_eq!(cache.misses(), 1, "extending must reuse the entry");

    // Incremental output must be identical to a single full-file pass, i.e.
    // parse state is continuous across the on-demand chunks.
    let full = highlight_line_changes_split(&lines, "main.rs", &theme, syntaxes, themes);
    assert_eq!(top.1, full.1[0..2].to_vec());
    assert_eq!(more.1, full.1[0..4].to_vec());
}

#[test]
fn window_clamps_out_of_range_bounds() {
    let theme = Theme::dark();
    let lines = sample_lines(); // 4 lines
    let mut cache = new_cache();

    let win = cache.window(&lines, "main.rs", &theme, 3, 100);
    assert_eq!(win.1.len(), 1, "len clamps to available lines");

    let past_end = cache.window(&lines, "main.rs", &theme, 10, 5);
    assert!(past_end.1.is_empty(), "start past end yields empty window");
}

#[test]
fn cache_misses_when_content_or_theme_changes() {
    let lines = sample_lines();
    let mut cache = new_cache();

    let n = lines.len();
    cache.window(&lines, "main.rs", &Theme::dark(), 0, n);
    let mut edited = lines.clone();
    edited[2].1 = "+    newer();".to_string();
    cache.window(&edited, "main.rs", &Theme::dark(), 0, n);
    cache.window(&lines, "main.rs", &Theme::light(), 0, n);

    assert_eq!(cache.misses(), 3, "edits and theme changes must recompute");
}

#[test]
fn oldest_file_is_given_up_first() {
    let theme = Theme::dark();
    let lines = sample_lines();
    let mut cache = new_cache();
    for name in ["a.rs", "b.rs", "c.rs", "d.rs"] {
        cache.window(&lines, name, &theme, 0, 4);
    }
    cache.window(&lines, "a.rs", &theme, 0, 4);
    assert_eq!(cache.misses(), 4, "four files are kept");
    cache.window(&lines, "e.rs", &theme, 0, 4);
    cache.window(&lines, "b.rs", &theme, 0, 4);
    assert_eq!(cache.misses(), 5, "the others stay");
    cache.window(&lines, "a.rs", &theme, 0, 4);
    assert_eq!(cache.misses(), 6, "the oldest had to go");
}

#[test]
fn gutter_and_code_of_each_kind_of_line() {
    let (syntaxes, themes) = sets();
    let theme = Theme::dark();
    let mut lines = sample_lines();
    lines.push((0, String::new()));
    let (gutter, content) =
        highlight_line_changes_split(&lines, "main.rs", &theme, syntaxes, themes);
    let text = |l: &Vec<giff::ui::draw::Span>| -> String {
        l.iter().map(|s| s.text.as_str()).collect()
    };
    assert_eq!(text(&gutter[0]), "   1   ");
    assert_eq!(text(&content[0]), "fn main() {");
    assert_eq!(text(&gutter[1]), "   2 - ");
    assert_eq!(text(&content[1]), "    old();");
    assert_eq!(text(&gutter[2]), "   3 + ");
    assert_eq!(gutter[1][1].style.fg, Some(theme.fg_removed_marker));
    assert_eq!(gutter[1][1].style.bg, Some(theme.bg_removed));
    assert!(gutter[1][1].style.bold);
    assert!(content[2].iter().all(|s| s.style.bg == Some(theme.bg_added)));
    assert_eq!(text(&gutter[4]), "");
    let merged = highlight_line_changes(&lines, "main.rs", &theme, syntaxes, themes);
    assert_eq!(text(&merged[3]), "   4   }");
    assert_eq!(merged[4].len(), 1);
}

#[test]
fn bundled_themes_are_known_by_name() {
    let (_syntaxes, themes) = sets();
    assert!(is_valid_syntax_theme(themes, "base16-ocean.dark"));
    assert!(is_valid_syntax_theme(themes, "base16-ocean.light"));
    assert!(is_valid_syntax_theme(themes, "InspiredGitHub"));
    assert!(!is_valid_syntax_theme(themes, "no-such-theme"));
    assert_eq!(themes.themes.len(), 7);
}

#[test]
fn unknown_theme_falls_back() {
    let (syntaxes, themes) = sets();
    let mut theme = Theme::dark();
    theme.syntax_theme = "no-such-theme".to_string();
    let lines = sample_lines();
    let fallback = highlight_line_changes_split(&lines, "main.rs", &theme, syntaxes, themes);
    let dark = highlight_line_changes_split(&lines, "main.rs", &Theme::dark(), syntaxes, themes);
    assert_eq!(fallback.1, dark.1);
}

#[test]
fn without_themes_lines_are_drawn_as_they_are() {
    let (syntaxes, _themes) = sets();
    let none: &'static ThemeSet = Box::leak(Box::new(ThemeSet::new()));
    let lines = sample_lines();
    let (gutter, content) =
        highlight_line_changes_split(&lines, "main.rs", &Theme::dark(), syntaxes, none);
    assert_eq!(gutter[1][0].text, "   2   ");
    assert_eq!(content[1][0].text, "-    old();");
}
