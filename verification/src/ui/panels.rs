//! The header, the help line and the lists.
use vstd::prelude::*;
use super::align;
use super::draw;
use super::draw::{Align, Border, BorderView, Draw, DrawView, Line, LineView, Rect, Span, SpanView, Style, Wrap};
use super::fit;
use super::keys;
use super::theme::{Theme, ThemeView};
use super::tree;
use super::tree::{RowView, TreeRow};
use super::types::{App, AppMode, AppView, Pane, ViewMode};
use super::width;
use crate::diff::{
    BranchStatus, BranchView, FileMeta, FileMetaView, FileStatus, LineChange, SideView,
};
use crate::text;

verus! {

// ---------------------------------------------------------------------------
// Lines

/// `a` and `b`, one after the other.
pub fn line_cat(a: Line, b: Line) -> (r: Line)
    ensures
        r.deep_view() == a.deep_view() + b.deep_view(),
{
    let mut r = a;
    let mut more = b;
    r.append(&mut more);
    assert(r.deep_view() =~= a.deep_view() + b.deep_view());
    r
}

/// A line of nothing.
pub fn line0() -> (r: Line)
    ensures
        r.deep_view() == Seq::<SpanView>::empty(),
{
    let r: Line = Vec::new();
    assert(r.deep_view() =~= Seq::<SpanView>::empty());
    r
}

/// A line of one part.
pub fn line1(a: Span) -> (r: Line)
    ensures
        r.deep_view() == seq![a.deep_view()],
{
    let mut r: Line = Vec::new();
    r.push(a);
    assert(r.deep_view() =~= seq![a.deep_view()]);
    r
}

/// A line of two parts.
pub fn line2(a: Span, b: Span) -> (r: Line)
    ensures
        r.deep_view() == seq![a.deep_view(), b.deep_view()],
{
    let mut r: Line = Vec::new();
    r.push(a);
    r.push(b);
    assert(r.deep_view() =~= seq![a.deep_view(), b.deep_view()]);
    r
}

/// A line of three parts.
pub fn line3(a: Span, b: Span, c: Span) -> (r: Line)
    ensures
        r.deep_view() == seq![a.deep_view(), b.deep_view(), c.deep_view()],
{
    let mut r: Line = Vec::new();
    r.push(a);
    r.push(b);
    r.push(c);
    assert(r.deep_view() =~= seq![a.deep_view(), b.deep_view(), c.deep_view()]);
    r
}

/// The border of a pane, which shows whether it has the focus.
pub open spec fn pane_border(t: ThemeView, focused: bool, title: Seq<char>) -> BorderView {
    BorderView {
        title: seq![
            draw::styled(
                title,
                if focused {
                    draw::bold(t.accent)
                } else {
                    draw::ink(t.fg_dim)
                },
            ),
        ],
        bottom: seq![],
        edge: draw::ink(
            if focused {
                t.border_focused
            } else {
                t.border_dim
            },
        ),
        inside: draw::plain(),
    }
}

/// The border of a pane.
pub fn border_of(t: &Theme, focused: bool, title: &str) -> (r: Border)
    ensures
        r.deep_view() == pane_border(t.deep_view(), focused, title@),
{
    Border {
        title: line1(
            draw::span(
                title,
                if focused {
                    draw::bold(t.accent)
                } else {
                    draw::ink(t.fg_dim)
                },
            ),
        ),
        bottom: line0(),
        edge: draw::ink(
            if focused {
                t.border_focused
            } else {
                t.border_dim
            },
        ),
        inside: draw::plain(),
    }
}

// ---------------------------------------------------------------------------
// The header

/// A bar between two parts of the header.
pub open spec fn bar(t: ThemeView) -> SpanView {
    draw::styled(" \u{2502} "@, draw::ink(t.border_dim))
}

/// The branch, and how it stands to its upstream.
pub open spec fn branch_spans(t: ThemeView, b: BranchView) -> LineView {
    let name = seq![
        draw::styled("\u{e0a0} "@, draw::ink(t.accent)),
        draw::styled(b.name, draw::bold(t.fg_bright)),
    ];
    if b.upstream is Some {
        name + seq![
            draw::styled(
                " \u{2191}"@ + text::decimal(b.ahead as nat),
                draw::ink(
                    if b.ahead > 0 {
                        t.fg_added
                    } else {
                        t.fg_dim
                    },
                ),
            ),
            draw::styled(
                " \u{2193}"@ + text::decimal(b.behind as nat),
                draw::ink(
                    if b.behind > 0 {
                        t.fg_removed
                    } else {
                        t.fg_dim
                    },
                ),
            ),
        ]
    } else {
        name
    }
}

/// The name of the layout.
pub open spec fn layout_name(mode: ViewMode, wrap: bool) -> Seq<char> {
    let base = match mode {
        ViewMode::SideBySide => "Side-by-Side"@,
        ViewMode::Unified => "Unified"@,
    };
    if wrap {
        base + " + Wrap"@
    } else {
        base
    }
}

impl AppView {
    /// The name of what the screen is used for.
    pub open spec fn mode_name(self) -> Seq<char> {
        match self.app_mode {
            AppMode::Diff => if self.log_return_source is Some {
                "DIFF (commit)"@
            } else {
                "DIFF"@
            },
            AppMode::Rebase => "REBASE"@,
            AppMode::Log => "LOG"@,
            AppMode::RemotePicker => "SYNC"@,
        }
    }

    /// The branch in the header, where it is known.
    pub open spec fn header_branch(self) -> LineView {
        match self.branch_status {
            Some(b) => if b.name.len() > 0 {
                branch_spans(self.theme, b) + seq![bar(self.theme)]
            } else {
                seq![]
            },
            None => seq![],
        }
    }

    /// The selected file in the header.
    pub open spec fn header_file(self) -> LineView {
        match self.current_file() {
            Some(f) => if f.len() > 0 {
                seq![bar(self.theme), draw::styled(f, draw::ink(self.theme.fg_bright))]
            } else {
                seq![]
            },
            None => seq![],
        }
    }

    /// The place of the selected file among all.
    pub open spec fn header_place(self) -> Seq<char> {
        let count = self.file_names.len();
        let current = if count > 0 {
            keys::more(self.current_file_idx, 1)
        } else {
            0
        };
        text::decimal(current as nat) + "/"@ + text::decimal(count)
    }

    /// The header: the branch, the two sides, what the screen is used for, the
    /// layout, the selected file and its place.
    pub open spec fn header(self) -> LineView {
        let t = self.theme;
        seq![draw::styled(" "@, draw::plain())] + self.header_branch() + seq![
            draw::styled(
                self.left_label + " \u{2192} "@ + self.right_label,
                draw::ink(t.fg_normal),
            ),
            bar(t),
            draw::styled(self.mode_name(), draw::ink(t.accent)),
        ] + seq![
            bar(t),
            draw::styled(layout_name(self.view_mode, self.wrap_mode), draw::ink(t.fg_dim)),
        ] + self.header_file() + seq![
            bar(t),
            draw::styled(self.header_place(), draw::ink(t.fg_dim)),
        ]
    }
}

/// A bar between two parts of the header.
fn bar_span(t: &Theme) -> (r: Span)
    ensures
        r.deep_view() == bar(t.deep_view()),
{
    draw::span(" \u{2502} ", draw::ink(t.border_dim))
}

/// The branch, and how it stands to its upstream.
pub fn branch_status_spans(t: &Theme, bs: &BranchStatus) -> (r: Line)
    ensures
        r.deep_view() == branch_spans(t.deep_view(), bs.deep_view()),
{
    let name = line2(
        draw::span("\u{e0a0} ", draw::ink(t.accent)),
        draw::span(bs.name.as_str(), draw::bold(t.fg_bright)),
    );
    if bs.upstream.is_some() {
        let ahead = text::decimal_of(bs.ahead);
        let behind = text::decimal_of(bs.behind);
        let counts = line2(
            draw::span_of(
                text::cat2(" \u{2191}", ahead.as_str()),
                draw::ink(
                    if bs.ahead > 0 {
                        t.fg_added
                    } else {
                        t.fg_dim
                    },
                ),
            ),
            draw::span_of(
                text::cat2(" \u{2193}", behind.as_str()),
                draw::ink(
                    if bs.behind > 0 {
                        t.fg_removed
                    } else {
                        t.fg_dim
                    },
                ),
            ),
        );
        line_cat(name, counts)
    } else {
        name
    }
}

impl App {
    /// The name of what the screen is used for.
    fn mode_name(&self) -> (r: &'static str)
        ensures
            r@ == self.deep_view().mode_name(),
    {
        match self.app_mode {
            AppMode::Diff => if self.log_return_source.is_some() {
                "DIFF (commit)"
            } else {
                "DIFF"
            },
            AppMode::Rebase => "REBASE",
            AppMode::Log => "LOG",
            AppMode::RemotePicker => "SYNC",
        }
    }

    /// The branch in the header.
    fn header_branch(&self) -> (r: Line)
        ensures
            r.deep_view() == self.deep_view().header_branch(),
    {
        match &self.branch_status {
            Some(b) => if b.name.as_str().unicode_len() > 0 {
                line_cat(branch_status_spans(&self.theme, b), line1(bar_span(&self.theme)))
            } else {
                line0()
            },
            None => line0(),
        }
    }

    /// The selected file in the header.
    fn header_file(&self) -> (r: Line)
        ensures
            r.deep_view() == self.deep_view().header_file(),
    {
        match self.current_file() {
            Some(f) => if f.as_str().unicode_len() > 0 {
                line2(
                    bar_span(&self.theme),
                    draw::span(f.as_str(), draw::ink(self.theme.fg_bright)),
                )
            } else {
                line0()
            },
            None => line0(),
        }
    }

    /// The place of the selected file among all.
    fn header_place(&self) -> (r: String)
        ensures
            r@ == self.deep_view().header_place(),
    {
        let count: usize = self.file_names.len();
        let current: usize = if count > 0 {
            self.current_file_idx.saturating_add(1)
        } else {
            0
        };
        let a = text::decimal_of(current);
        let b = text::decimal_of(count);
        text::cat3(a.as_str(), "/", b.as_str())
    }

    /// The header.
    pub fn render_header(&self) -> (r: Line)
        ensures
            r.deep_view() == self.deep_view().header(),
    {
        let t = &self.theme;
        let base = match self.view_mode {
            ViewMode::SideBySide => "Side-by-Side",
            ViewMode::Unified => "Unified",
        };
        let layout = if self.wrap_mode {
            text::cat2(base, " + Wrap")
        } else {
            base.to_owned()
        };
        let sides = text::cat3(self.left_label.as_str(), " \u{2192} ", self.right_label.as_str());
        let start = line_cat(line1(draw::span(" ", draw::plain())), self.header_branch());
        let middle = line3(
            draw::span_of(sides, draw::ink(t.fg_normal)),
            bar_span(t),
            draw::span(self.mode_name(), draw::ink(t.accent)),
        );
        let shape = line2(bar_span(t), draw::span_of(layout, draw::ink(t.fg_dim)));
        let place = line2(bar_span(t), draw::span_of(self.header_place(), draw::ink(t.fg_dim)));
        let with_layout = line_cat(line_cat(start, middle), shape);
        line_cat(line_cat(with_layout, self.header_file()), place)
    }
}

// ---------------------------------------------------------------------------
// The file list

/// The mark of a file that was deleted, added or renamed.
pub open spec fn badge_of(meta: Option<FileMetaView>, t: ThemeView) -> Option<SpanView> {
    match meta {
        Some(m) => match m.status {
            FileStatus::Deleted => Some(draw::styled(" D"@, draw::ink(t.fg_removed))),
            FileStatus::Added => Some(draw::styled(" A"@, draw::ink(t.fg_added))),
            FileStatus::Modified => if m.purely_renamed() {
                Some(draw::styled(" R"@, draw::ink(t.fg_dim)))
            } else if m.renamed() {
                Some(draw::styled(" r"@, draw::ink(t.fg_dim)))
            } else {
                None
            },
        },
        None => None,
    }
}

/// The mark of a file that was deleted, added or renamed.
pub fn status_badge(meta: Option<&FileMeta>, t: &Theme) -> (r: Option<Span>)
    ensures
        r.deep_view() == badge_of(
            match meta {
                Some(m) => Some(m.deep_view()),
                None => None,
            },
            t.deep_view(),
        ),
{
    match meta {
        Some(m) => match m.status {
            FileStatus::Deleted => Some(draw::span(" D", draw::ink(t.fg_removed))),
            FileStatus::Added => Some(draw::span(" A", draw::ink(t.fg_added))),
            FileStatus::Modified => if m.is_pure_rename() {
                Some(draw::span(" R", draw::ink(t.fg_dim)))
            } else if m.is_rename() {
                Some(draw::span(" r", draw::ink(t.fg_dim)))
            } else {
                None
            },
        },
        None => None,
    }
}

/// How many lines of `side` carry the mark `mark`.
pub open spec fn count_marked(side: SideView, mark: char) -> nat
    decreases side.len(),
{
    if side.len() == 0 {
        0
    } else {
        count_marked(side.drop_last(), mark) + if align::starts(side.last().1, mark) {
            1nat
        } else {
            0
        }
    }
}

/// How many lines of `side` carry the mark `mark`.
fn marked_count(side: &Vec<LineChange>, mark: char) -> (r: usize)
    ensures
        r == count_marked(side.deep_view(), mark),
{
    let ghost v = side.deep_view();
    let mut n: usize = 0;
    for i in 0..side.len()
        invariant
            v == side.deep_view(),
            n == count_marked(v.take(i as int), mark),
            n <= i,
    {
        proof {
            assert(v.take(i + 1).drop_last() =~= v.take(i as int));
            assert(v.take(i + 1).last() == side@[i as int].deep_view());
        }
        let s = side[i].1.as_str();
        if s.unicode_len() > 0 && s.get_char(0) == mark {
            n = n + 1;
        }
    }
    assert(v.take(v.len() as int) =~= v);
    n
}

impl AppView {
    /// How many lines of `file` were added, and how many removed.
    pub open spec fn change_counts(self, file: Seq<char>) -> (nat, nat) {
        if self.file_changes.dom().contains(file) {
            let (base, head) = self.file_changes[file];
            (count_marked(head, '+'), count_marked(base, '-'))
        } else {
            (0, 0)
        }
    }

    /// What is known of `file` besides its lines.
    pub open spec fn meta_of(self, file: Seq<char>) -> Option<FileMetaView> {
        if self.file_meta.dom().contains(file) {
            Some(self.file_meta[file])
        } else {
            None
        }
    }
}

impl App {
    /// How many lines of `file` were added, and how many removed.
    pub fn count_file_changes(&self, file: &str) -> (r: (usize, usize))
        ensures
            r.0 == self.deep_view().change_counts(file@).0,
            r.1 == self.deep_view().change_counts(file@).1,
    {
        match self.file_changes.look_up(file) {
            Some(sides) => (marked_count(&sides.1, '+'), marked_count(&sides.0, '-')),
            None => (0, 0),
        }
    }

    /// The mark of `file`.
    fn badge_for(&self, file: &str) -> (r: Option<Span>)
        ensures
            r.deep_view() == badge_of(
                self.deep_view().meta_of(file@),
                self.deep_view().theme,
            ),
    {
        status_badge(self.file_meta.look_up(file), &self.theme)
    }
}

/// How many lines were added and removed, in their colours.
pub open spec fn stats(adds: nat, dels: nat, t: ThemeView) -> LineView {
    let blank = draw::styled(" "@, draw::plain());
    let plus = draw::styled("+"@ + text::decimal(adds), draw::ink(t.fg_added));
    let minus = draw::styled("-"@ + text::decimal(dels), draw::ink(t.fg_removed));
    if adds > 0 && dels > 0 {
        seq![blank, plus, blank, minus]
    } else if adds > 0 {
        seq![blank, plus]
    } else if dels > 0 {
        seq![blank, minus]
    } else {
        seq![]
    }
}

/// The columns of the counts.
pub open spec fn stats_width(adds: nat, dels: nat) -> nat {
    let plus = width::str_columns("+"@ + text::decimal(adds)) as nat;
    let minus = width::str_columns("-"@ + text::decimal(dels)) as nat;
    if adds > 0 && dels > 0 {
        2 + plus + minus
    } else if adds > 0 {
        1 + plus
    } else if dels > 0 {
        1 + minus
    } else {
        0
    }
}

/// How many lines were added and removed, in their colours, and the columns
/// that this takes.
pub fn build_file_stats(adds: usize, dels: usize, theme: &Theme) -> (r: (Line, usize))
    ensures
        r.0.deep_view() == stats(adds as nat, dels as nat, theme.deep_view()),
        r.1 == align::capped(stats_width(adds as nat, dels as nat)),
{
    if adds == 0 && dels == 0 {
        return (line0(), 0);
    }
    let mut line = line0();
    let mut columns: usize = 0;
    if adds > 0 {
        let digits = text::decimal_of(adds);
        let s = text::cat2("+", digits.as_str());
        columns = width::str_width(s.as_str()).saturating_add(1);
        line = line2(
            draw::span(" ", draw::plain()),
            draw::span_of(s, draw::ink(theme.fg_added)),
        );
    }
    if dels > 0 {
        let digits = text::decimal_of(dels);
        let s = text::cat2("-", digits.as_str());
        columns = columns.saturating_add(width::str_width(s.as_str())).saturating_add(1);
        line = line_cat(
            line,
            line2(draw::span(" ", draw::plain()), draw::span_of(s, draw::ink(theme.fg_removed))),
        );
    }
    assert(line.deep_view() =~= stats(adds as nat, dels as nat, theme.deep_view()));
    (line, columns)
}

/// `a` less `b`, but at least 0.
pub open spec fn minus(a: usize, b: usize) -> usize {
    keys::less(a, b)
}

/// The columns of the borders and of the mark of the selected row.
pub const LIST_CHROME: u16 = 4;

/// The columns that are left of a mark.
pub open spec fn badge_width(badge: Option<SpanView>) -> usize {
    if badge is Some {
        2
    } else {
        0
    }
}

/// A mark in its place.
pub open spec fn badge_line(badge: Option<SpanView>) -> LineView {
    match badge {
        Some(b) => seq![b],
        None => seq![],
    }
}

/// How the name of an entry is drawn.
pub open spec fn name_style(t: ThemeView, current: bool) -> Style {
    if current {
        draw::bold(t.fg_bright)
    } else {
        draw::ink(t.fg_normal)
    }
}

impl AppView {
    /// The columns that are left for the name of `file`.
    pub open spec fn name_columns(self, file: Seq<char>, columns: usize) -> usize {
        let (adds, dels) = self.change_counts(file);
        minus(
            minus(columns, align::capped(stats_width(adds, dels))),
            badge_width(badge_of(self.meta_of(file), self.theme)),
        )
    }

    /// The mark and the counts of `file`.
    pub open spec fn row_end(self, file: Seq<char>) -> LineView {
        let (adds, dels) = self.change_counts(file);
        badge_line(badge_of(self.meta_of(file), self.theme)) + stats(adds, dels, self.theme)
    }

    /// The row of file `i` in the list: its name, its directory, its mark and
    /// its counts.
    pub open spec fn file_row(self, i: int, columns: usize) -> LineView {
        let file = self.file_names[i];
        let (name, dir) = fit::name_and_dir(file);
        let (shown, place) = fit::fitted(name, dir, self.name_columns(file, columns));
        seq![draw::styled(shown, name_style(self.theme, i == self.current_file_idx))] + (
        if place.len() > 0 {
            seq![draw::styled("  "@ + place, draw::ink(self.theme.fg_dim))]
        } else {
            seq![]
        }) + self.row_end(file)
    }

    /// A row of the tree: a directory, or a file with its mark and counts.
    pub open spec fn tree_row(self, row: RowView, columns: usize) -> LineView {
        match row {
            RowView::Dir { label, depth } => {
                let indent = text::repeat(' ', (2 * depth) as nat);
                seq![
                    draw::styled(
                        indent + fit::start_of(
                            label + "/"@,
                            minus(columns, align::capped(indent.len())),
                        ),
                        draw::ink(self.theme.fg_dim),
                    ),
                ]
            },
            RowView::File { file_idx, depth } => {
                let file = self.file_names[file_idx];
                let indent = text::repeat(' ', (2 * depth) as nat);
                let room = minus(
                    self.name_columns(file, columns),
                    align::capped(indent.len()),
                );
                let shown = fit::fitted(fit::name_and_dir(file).0, ""@, room).0;
                seq![
                    draw::styled(
                        indent + shown,
                        name_style(self.theme, file_idx == self.current_file_idx),
                    ),
                ] + self.row_end(file)
            },
        }
    }

    /// The row of the tree that shows the selected file.
    pub open spec fn tree_selection(self, rows: Seq<RowView>) -> Option<usize>
        decreases rows.len(),
    {
        if rows.len() == 0 {
            None
        } else if rows.last() matches RowView::File { file_idx, .. } && file_idx
            == self.current_file_idx {
            Some((rows.len() - 1) as usize)
        } else {
            self.tree_selection(rows.drop_last())
        }
    }

    /// The rows of the file list.
    pub open spec fn list_rows(self, columns: usize) -> Seq<LineView> {
        if self.file_tree_view {
            tree::tree_of(self.file_names).map_values(|row: RowView| self.tree_row(row, columns))
        } else {
            Seq::new(self.file_names.len(), |i: int| self.file_row(i, columns))
        }
    }

    /// The selected row of the file list.
    pub open spec fn list_selection(self) -> Option<usize> {
        if self.file_tree_view {
            self.tree_selection(tree::tree_of(self.file_names))
        } else {
            Some(self.current_file_idx)
        }
    }

    /// The file list.
    pub open spec fn file_list(self, area: Rect) -> Seq<DrawView> {
        let t = self.theme;
        let frame = DrawView::Frame {
            area,
            border: pane_border(t, self.focused_pane == Pane::FileList, " Files "@),
        };
        let columns = minus(area.width as usize, LIST_CHROME as usize);
        if self.file_names.len() == 0 {
            seq![
                frame,
                draw::one_line(
                    draw::inner(area),
                    seq![draw::styled("  No changes"@, draw::ink(t.fg_dim))],
                    draw::plain(),
                ),
            ]
        } else {
            seq![
                frame,
                DrawView::List {
                    area: draw::inner(area),
                    rows: self.list_rows(columns),
                    selected: self.list_selection(),
                    highlight: draw::paper(t.bg_selection),
                },
            ]
        }
    }
}

/// Two blanks for each level.
fn indent_of(depth: usize) -> (r: String)
    ensures
        r@ == text::repeat(' ', (2 * depth) as nat),
{
    let mut r = String::new();
    for i in 0..depth
        invariant
            r@ == text::repeat(' ', (2 * i) as nat),
    {
        r.push(' ');
        r.push(' ');
        assert(r@ =~= text::repeat(' ', (2 * (i + 1)) as nat));
    }
    r
}

impl App {
    /// The columns that are left for the name of `file`, and what follows it.
    fn row_parts(&self, file: &str, columns: usize) -> (r: (usize, Line))
        ensures
            r.0 == self.deep_view().name_columns(file@, columns),
            r.1.deep_view() == self.deep_view().row_end(file@),
    {
        let (adds, dels) = self.count_file_changes(file);
        let (stat_line, stats_width) = build_file_stats(adds, dels, &self.theme);
        let badge = self.badge_for(file);
        let badge_columns: usize = if badge.is_some() {
            2
        } else {
            0
        };
        let room: usize = columns.saturating_sub(stats_width).saturating_sub(badge_columns);
        let mark = match badge {
            Some(b) => line1(b),
            None => line0(),
        };
        (room, line_cat(mark, stat_line))
    }

    /// The row of file `i` in the list.
    fn file_row(&self, i: usize, columns: usize) -> (r: Line)
        requires
            i < self.file_names@.len(),
        ensures
            r.deep_view() == self.deep_view().file_row(i as int, columns),
    {
        let t = &self.theme;
        let file = self.file_names[i].as_str();
        assert(self.deep_view().file_names[i as int] == file@);
        let (room, end) = self.row_parts(file, columns);
        let (name, dir) = fit::split_path_for_display(file);
        let (shown, place) = fit::fit_file_and_dir(name.as_str(), dir.as_str(), room);
        let style = if i == self.current_file_idx {
            draw::bold(t.fg_bright)
        } else {
            draw::ink(t.fg_normal)
        };
        let start = line1(draw::span_of(shown, style));
        let middle = if place.as_str().unicode_len() > 0 {
            line1(draw::span_of(text::cat2("  ", place.as_str()), draw::ink(t.fg_dim)))
        } else {
            line0()
        };
        line_cat(line_cat(start, middle), end)
    }

    /// A row of the tree.
    fn tree_row(&self, row: &TreeRow, columns: usize) -> (r: Line)
        requires
            row.deep_view() matches RowView::File { file_idx, .. } ==> file_idx
                < self.file_names@.len(),
        ensures
            r.deep_view() == self.deep_view().tree_row(row.deep_view(), columns),
    {
        let t = &self.theme;
        match row {
            TreeRow::Dir { label, depth } => {
                let indent = indent_of(*depth);
                let room: usize = columns.saturating_sub(indent.as_str().unicode_len());
                let name = text::cat2(label.as_str(), "/");
                let shown = fit::truncate_tail(name.as_str(), room);
                line1(
                    draw::span_of(
                        text::cat2(indent.as_str(), shown.as_str()),
                        draw::ink(t.fg_dim),
                    ),
                )
            },
            TreeRow::File { file_idx, depth } => {
                let file = self.file_names[*file_idx].as_str();
                assert(self.deep_view().file_names[*file_idx as int] == file@);
                let indent = indent_of(*depth);
                let (free, end) = self.row_parts(file, columns);
                let room: usize = free.saturating_sub(indent.as_str().unicode_len());
                let (name, _dir) = fit::split_path_for_display(file);
                let (shown, _place) = fit::fit_file_and_dir(name.as_str(), "", room);
                let style = if *file_idx == self.current_file_idx {
                    draw::bold(t.fg_bright)
                } else {
                    draw::ink(t.fg_normal)
                };
                let start = line1(
                    draw::span_of(text::cat2(indent.as_str(), shown.as_str()), style),
                );
                line_cat(start, end)
            },
        }
    }

    /// The rows of the list.
    fn flat_rows(&self, columns: usize) -> (r: Vec<Line>)
        ensures
            r.deep_view() == Seq::new(
                self.deep_view().file_names.len(),
                |i: int| self.deep_view().file_row(i, columns),
            ),
    {
        let ghost want = Seq::new(
            self.deep_view().file_names.len(),
            |i: int| self.deep_view().file_row(i, columns),
        );
        let mut rows: Vec<Line> = Vec::new();
        for i in 0..self.file_names.len()
            invariant
                want == Seq::new(
                    self.deep_view().file_names.len(),
                    |i: int| self.deep_view().file_row(i, columns),
                ),
                want.len() == self.file_names@.len(),
                rows.deep_view() == want.take(i as int),
        {
            let ghost before = rows.deep_view();
            let row = self.file_row(i, columns);
            rows.push(row);
            assert(rows.deep_view() =~= before.push(row.deep_view()));
            assert(want.take(i + 1) =~= before.push(want[i as int]));
        }
        assert(want.take(want.len() as int) =~= want);
        rows
    }

    /// The rows of the tree, and the one that shows the selected file.
    fn render_file_tree(&self, columns: usize) -> (r: (Vec<Line>, Option<usize>))
        ensures
            r.0.deep_view() == tree::tree_of(self.deep_view().file_names).map_values(
                |row: RowView| self.deep_view().tree_row(row, columns),
            ),
            r.1 == self.deep_view().tree_selection(tree::tree_of(self.deep_view().file_names)),
    {
        let ghost v = self.deep_view();
        let rows = tree::build_file_tree(&self.file_names);
        let ghost all = tree::tree_of(v.file_names);
        let ghost want = all.map_values(|row: RowView| v.tree_row(row, columns));
        proof {
            assert(rows.deep_view() == all);
            tree::lemma_tree_indices(v.file_names);
        }
        let mut lines: Vec<Line> = Vec::new();
        let mut selected: Option<usize> = None;
        for i in 0..rows.len()
            invariant
                v == self.deep_view(),
                rows.deep_view() == all,
                all == tree::tree_of(v.file_names),
                want == all.map_values(|row: RowView| v.tree_row(row, columns)),
                forall|k: int| #![trigger all[k]]
                    0 <= k < all.len() ==> (all[k] matches RowView::File { file_idx, .. } ==> 0
                        <= file_idx < v.file_names.len()),
                lines.deep_view() == want.take(i as int),
                selected == v.tree_selection(all.take(i as int)),
        {
            let row = &rows[i];
            proof {
                assert(all[i as int] == row.deep_view());
                assert(all.take(i + 1).drop_last() =~= all.take(i as int));
                assert(all.take(i + 1).last() == row.deep_view());
            }
            if let TreeRow::File { file_idx, .. } = row {
                if *file_idx == self.current_file_idx {
                    selected = Some(i);
                }
            }
            let ghost before = lines.deep_view();
            let line = self.tree_row(row, columns);
            lines.push(line);
            proof {
                assert(lines.deep_view() =~= before.push(line.deep_view()));
                assert(want.take(i + 1) =~= before.push(want[i as int]));
            }
        }
        proof {
            assert(want.take(want.len() as int) =~= want);
            assert(all.take(all.len() as int) =~= all);
        }
        (lines, selected)
    }

    /// The file list.
    pub fn render_file_list(&self, area: Rect) -> (r: Vec<Draw>)
        ensures
            r.deep_view() == self.deep_view().file_list(area),
    {
        let t = &self.theme;
        let mut out: Vec<Draw> = Vec::new();
        out.push(
            Draw::Frame { area, border: border_of(t, self.focused_pane == Pane::FileList, " Files ") },
        );
        if self.file_names.len() == 0 {
            out.push(
                draw::draw_line(
                    draw::inside(area),
                    line1(draw::span("  No changes", draw::ink(t.fg_dim))),
                    draw::plain(),
                ),
            );
        } else {
            let columns: usize = (area.width as usize).saturating_sub(LIST_CHROME as usize);
            let (rows, selected) = if self.file_tree_view {
                self.render_file_tree(columns)
            } else {
                (self.flat_rows(columns), Some(self.current_file_idx))
            };
            out.push(
                Draw::List {
                    area: draw::inside(area),
                    rows,
                    selected,
                    highlight: draw::paper(t.bg_selection),
                },
            );
        }
        assert(out.deep_view() =~= self.deep_view().file_list(area));
        out
    }
}

// ---------------------------------------------------------------------------
// The log

impl AppView {
    /// The row of commit `i`: its hash, and as much of its subject as fits.
    pub open spec fn commit_row(self, i: int, columns: usize) -> LineView {
        let c = self.commits[i];
        let used = keys::more(width::str_columns(c.hash), 1);
        seq![
            draw::styled(c.hash, draw::ink(self.theme.accent)),
            draw::styled(" "@, draw::plain()),
            draw::styled(
                fit::start_of(c.subject, minus(columns, used)),
                name_style(self.theme, i == self.current_commit_idx),
            ),
        ]
    }

    /// The log.
    pub open spec fn log_list(self, area: Rect) -> Seq<DrawView> {
        let t = self.theme;
        let frame = DrawView::Frame { area, border: pane_border(t, true, " Commits "@) };
        let columns = minus(area.width as usize, LIST_CHROME as usize);
        if self.commits.len() == 0 {
            seq![
                frame,
                draw::one_line(
                    draw::inner(area),
                    seq![draw::styled("  No commits"@, draw::ink(t.fg_dim))],
                    draw::plain(),
                ),
            ]
        } else {
            seq![
                frame,
                DrawView::List {
                    area: draw::inner(area),
                    rows: Seq::new(self.commits.len(), |i: int| self.commit_row(i, columns)),
                    selected: Some(self.current_commit_idx),
                    highlight: draw::paper(t.bg_selection),
                },
            ]
        }
    }
}

impl App {
    /// The row of commit `i`.
    fn commit_row(&self, i: usize, columns: usize) -> (r: Line)
        requires
            i < self.commits@.len(),
        ensures
            r.deep_view() == self.deep_view().commit_row(i as int, columns),
    {
        let t = &self.theme;
        let c = &self.commits[i];
        assert(self.deep_view().commits[i as int] == c.deep_view());
        let used: usize = width::str_width(c.hash.as_str()).saturating_add(1);
        let subject = fit::truncate_tail(c.subject.as_str(), columns.saturating_sub(used));
        let style = if i == self.current_commit_idx {
            draw::bold(t.fg_bright)
        } else {
            draw::ink(t.fg_normal)
        };
        line3(
            draw::span(c.hash.as_str(), draw::ink(t.accent)),
            draw::span(" ", draw::plain()),
            draw::span_of(subject, style),
        )
    }

    /// The log.
    pub fn render_log_ui(&self, area: Rect) -> (r: Vec<Draw>)
        ensures
            r.deep_view() == self.deep_view().log_list(area),
    {
        let t = &self.theme;
        let mut out: Vec<Draw> = Vec::new();
        out.push(Draw::Frame { area, border: border_of(t, true, " Commits ") });
        if self.commits.len() == 0 {
            out.push(
                draw::draw_line(
                    draw::inside(area),
                    line1(draw::span("  No commits", draw::ink(t.fg_dim))),
                    draw::plain(),
                ),
            );
        } else {
            let columns: usize = (area.width as usize).saturating_sub(LIST_CHROME as usize);
            let ghost v = self.deep_view();
            let ghost want = Seq::new(v.commits.len(), |i: int| v.commit_row(i, columns));
            let mut rows: Vec<Line> = Vec::new();
            for i in 0..self.commits.len()
                invariant
                    v == self.deep_view(),
                    want == Seq::new(v.commits.len(), |i: int| v.commit_row(i, columns)),
                    want.len() == self.commits@.len(),
                    rows.deep_view() == want.take(i as int),
            {
                let ghost before = rows.deep_view();
                let row = self.commit_row(i, columns);
                rows.push(row);
                assert(rows.deep_view() =~= before.push(row.deep_view()));
                assert(want.take(i + 1) =~= before.push(want[i as int]));
            }
            assert(want.take(want.len() as int) =~= want);
            out.push(
                Draw::List {
                    area: draw::inside(area),
                    rows,
                    selected: Some(self.current_commit_idx),
                    highlight: draw::paper(t.bg_selection),
                },
            );
        }
        assert(out.deep_view() =~= self.deep_view().log_list(area));
        out
    }
}

// ---------------------------------------------------------------------------
// The help line

/// The keys of the help line, and what they do.
pub open spec fn hints(mode: AppMode) -> Seq<(Seq<char>, Seq<char>)> {
    match mode {
        AppMode::Diff => seq![
            ("q"@, "Quit"@),
            ("j/k"@, "Navigate"@),
            ("Tab"@, "Focus"@),
            ("h/l"@, "Panes"@),
            ("u"@, "View"@),
            ("w"@, "Wrap"@),
            ("v"@, "Select"@),
            ("y"@, "Copy"@),
            ("t"@, "Theme"@),
            ("c"@, "Commit"@),
            ("r"@, "Rebase"@),
            ("s"@, "Sync"@),
            ("L"@, "Log"@),
            ("?"@, "Help"@),
        ],
        AppMode::Rebase => seq![
            ("Esc"@, "Back"@),
            ("j/k"@, "Navigate"@),
            ("a"@, "Accept"@),
            ("x"@, "Reject"@),
            ("n/p"@, "Files"@),
            ("c"@, "Commit"@),
            ("?"@, "Help"@),
        ],
        AppMode::Log => seq![
            ("Esc"@, "Back"@),
            ("j/k"@, "Navigate"@),
            ("Enter"@, "Open"@),
            ("L"@, "Close"@),
            ("?"@, "Help"@),
        ],
        AppMode::RemotePicker => seq![
            ("j/k"@, "Navigate"@),
            ("Enter"@, "Confirm"@),
            ("Esc"@, "Cancel"@),
        ],
    }
}

/// The first `n` keys of the help line.
pub open spec fn hint_spans(pairs: Seq<(Seq<char>, Seq<char>)>, t: ThemeView, n: int) -> LineView
    decreases n,
{
    if n <= 0 {
        seq![]
    } else {
        let (key, what) = pairs[n - 1];
        hint_spans(pairs, t, n - 1) + (if n > 1 {
            seq![draw::styled("  "@, draw::ink(t.border_dim))]
        } else {
            seq![]
        }) + seq![
            draw::styled(key, draw::ink(t.fg_key)),
            draw::styled(" "@ + what, draw::ink(t.fg_dim)),
        ]
    }
}

/// The columns of the message in the help line, cut down to 16 bits.
pub open spec fn message_width(message: Seq<char>) -> int {
    width::str_columns(message + " "@) as int % 65536
}

/// Where the message stands: at the right end of the help line.
pub open spec fn message_area(area: Rect, columns: int) -> Rect {
    let w = if columns < area.width {
        columns
    } else {
        area.width as int
    };
    let x = area.x + area.width - w;
    Rect {
        x: if x <= 65535 {
            x as u16
        } else {
            65535
        },
        y: area.y,
        width: w as u16,
        height: area.height,
    }
}

impl AppView {
    /// The message in the help line, where there is one.
    pub open spec fn help_message(self, area: Rect) -> Seq<DrawView> {
        match self.status_message {
            Some(m) => if message_width(m) > 0 && area.width > 0 {
                seq![
                    DrawView::Text {
                        area: message_area(area, message_width(m)),
                        lines: seq![
                            seq![
                                draw::styled(
                                    m + " "@,
                                    draw::bold(
                                        if "Error"@.is_prefix_of(m) {
                                            self.theme.fg_removed
                                        } else {
                                            self.theme.fg_added
                                        },
                                    ),
                                ),
                            ],
                        ],
                        style: draw::paper(self.theme.bg_header),
                        align: Align::Right,
                        wrap: Wrap::Cut,
                        top: 0,
                        left: 0,
                    },
                ]
            } else {
                seq![]
            },
            None => seq![],
        }
    }

    /// The help line: the keys, and the message over their end.
    pub open spec fn help_line(self, area: Rect) -> Seq<DrawView> {
        let pairs = hints(self.app_mode);
        seq![
            draw::one_line(
                area,
                seq![draw::styled(" "@, draw::plain())] + hint_spans(
                    pairs,
                    self.theme,
                    pairs.len() as int,
                ),
                draw::paper(self.theme.bg_header),
            ),
        ] + self.help_message(area)
    }
}

/// Pairs of texts, as mathematical values.
pub open spec fn pairs_view(pairs: Seq<(&str, &str)>) -> Seq<(Seq<char>, Seq<char>)> {
    pairs.map_values(|p: (&str, &str)| (p.0@, p.1@))
}

/// The keys of the help line, one after the other.
fn hint_line(pairs: &[(&str, &str)], t: &Theme) -> (r: Line)
    ensures
        r.deep_view() == hint_spans(
            pairs_view(pairs@),
            t.deep_view(),
            pairs@.len() as int,
        ),
{
    let ghost all = pairs_view(pairs@);
    let mut line = line0();
    for i in 0..pairs.len()
        invariant
            all == pairs_view(pairs@),
            line.deep_view() == hint_spans(all, t.deep_view(), i as int),
    {
        let (key, what) = pairs[i];
        assert(all[i as int] == (key@, what@));
        let gap = if i > 0 {
            line1(draw::span("  ", draw::ink(t.border_dim)))
        } else {
            line0()
        };
        let hint = line2(
            draw::span(key, draw::ink(t.fg_key)),
            draw::span_of(text::cat2(" ", what), draw::ink(t.fg_dim)),
        );
        line = line_cat(line_cat(line, gap), hint);
    }
    line
}

impl App {
    /// The keys of the help line.
    fn hints_line(&self) -> (r: Line)
        ensures
            r.deep_view() == hint_spans(
                hints(self.deep_view().app_mode),
                self.deep_view().theme,
                hints(self.deep_view().app_mode).len() as int,
            ),
    {
        match self.app_mode {
            AppMode::Diff => {
                let pairs = [
                    ("q", "Quit"),
                    ("j/k", "Navigate"),
                    ("Tab", "Focus"),
                    ("h/l", "Panes"),
                    ("u", "View"),
                    ("w", "Wrap"),
                    ("v", "Select"),
                    ("y", "Copy"),
                    ("t", "Theme"),
                    ("c", "Commit"),
                    ("r", "Rebase"),
                    ("s", "Sync"),
                    ("L", "Log"),
                    ("?", "Help"),
                ];
                assert(pairs_view(pairs@) =~= hints(AppMode::Diff));
                hint_line(&pairs, &self.theme)
            },
            AppMode::Rebase => {
                let pairs = [
                    ("Esc", "Back"),
                    ("j/k", "Navigate"),
                    ("a", "Accept"),
                    ("x", "Reject"),
                    ("n/p", "Files"),
                    ("c", "Commit"),
                    ("?", "Help"),
                ];
                assert(pairs_view(pairs@) =~= hints(AppMode::Rebase));
                hint_line(&pairs, &self.theme)
            },
            AppMode::Log => {
                let pairs = [
                    ("Esc", "Back"),
                    ("j/k", "Navigate"),
                    ("Enter", "Open"),
                    ("L", "Close"),
                    ("?", "Help"),
                ];
                assert(pairs_view(pairs@) =~= hints(AppMode::Log));
                hint_line(&pairs, &self.theme)
            },
            AppMode::RemotePicker => {
                let pairs = [("j/k", "Navigate"), ("Enter", "Confirm"), ("Esc", "Cancel")];
                assert(pairs_view(pairs@) =~= hints(AppMode::RemotePicker));
                hint_line(&pairs, &self.theme)
            },
        }
    }

    /// The message in the help line.
    fn render_message(&self, area: Rect) -> (r: Vec<Draw>)
        ensures
            r.deep_view() == self.deep_view().help_message(area),
    {
        let mut out: Vec<Draw> = Vec::new();
        if let Some(m) = &self.status_message {
            let shown = text::cat2(m.as_str(), " ");
            let columns: usize = width::str_width(shown.as_str()) % 65536;
            if columns > 0 && area.width > 0 {
                let w: u16 = if columns < area.width as usize {
                    columns as u16
                } else {
                    area.width
                };
                let color = if text::starts_with(m.as_str(), "Error") {
                    self.theme.fg_removed
                } else {
                    self.theme.fg_added
                };
                let mut lines: Vec<Line> = Vec::new();
                lines.push(line1(draw::span_of(shown, draw::bold(color))));
                assert(lines.deep_view() =~= seq![lines@[0].deep_view()]);
                out.push(
                    Draw::Text {
                        area: Rect {
                            x: area.x.saturating_add(area.width - w),
                            y: area.y,
                            width: w,
                            height: area.height,
                        },
                        lines,
                        style: draw::paper(self.theme.bg_header),
                        align: Align::Right,
                        wrap: Wrap::Cut,
                        top: 0,
                        left: 0,
                    },
                );
            }
        }
        assert(out.deep_view() =~= self.deep_view().help_message(area));
        out
    }

    /// The help line.
    pub fn render_help(&self, area: Rect) -> (r: Vec<Draw>)
        ensures
            r.deep_view() == self.deep_view().help_line(area),
    {
        let line = line_cat(line1(draw::span(" ", draw::plain())), self.hints_line());
        let mut out: Vec<Draw> = Vec::new();
        out.push(draw::draw_line(area, line, draw::paper(self.theme.bg_header)));
        draw::add_all(&mut out, self.render_message(area));
        assert(out.deep_view() =~= self.deep_view().help_line(area));
        out
    }
}

} // verus!
