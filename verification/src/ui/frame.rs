//! The whole screen.
use vstd::prelude::*;
use super::cache::HighlightCache;
use super::draw;
use super::draw::{Draw, DrawView, Line, LineView, Rect};
use super::layout;
use super::layout::{Axis, Size};
use super::modals;
use super::panels;
use super::types::{App, AppMode, AppView, Change, ChangeState, ChangeView, ViewMode};
use syntect::highlighting::ThemeSet;
use syntect::parsing::SyntaxSet;
use crate::text;

verus! {

// ---------------------------------------------------------------------------
// The changes to be decided about

/// The mark of what was decided about a change.
pub open spec fn decision_mark(state: ChangeState) -> Seq<char> {
    match state {
        ChangeState::Unselected => "   "@,
        ChangeState::Accepted => " \u{2713} "@,
        ChangeState::Rejected => " \u{2717} "@,
    }
}

impl AppView {
    /// The row of a change: what was decided, the line, and the line that takes
    /// its place.
    pub open spec fn change_row(self, c: ChangeView) -> LineView {
        let t = self.theme;
        let color = match c.state {
            ChangeState::Unselected => t.fg_normal,
            ChangeState::Accepted => t.fg_added,
            ChangeState::Rejected => t.fg_removed,
        };
        let line = seq![
            draw::styled(decision_mark(c.state), draw::bold(color)),
            draw::styled(
                c.content,
                draw::ink(
                    if c.is_base {
                        t.fg_removed
                    } else {
                        t.fg_added
                    },
                ),
            ),
        ];
        match c.paired_content {
            Some(other) => line + seq![
                draw::styled(" \u{2192} "@, draw::ink(t.fg_dim)),
                draw::styled(other, draw::ink(t.fg_added)),
            ],
            None => line,
        }
    }

    /// The changes of the selected file.
    pub open spec fn current_changes(self) -> Seq<ChangeView> {
        match self.current_file() {
            Some(f) => if self.rebase_changes.dom().contains(f) {
                self.rebase_changes[f]
            } else {
                seq![]
            },
            None => seq![],
        }
    }

    /// The changes of the selected file to be decided about.
    pub open spec fn change_list(self, area: Rect) -> Seq<DrawView> {
        let t = self.theme;
        let changes = self.current_changes();
        let title = match self.current_file() {
            Some(f) => " Rebase: "@ + f + " "@,
            None => " Rebase "@,
        };
        let frame = DrawView::Frame { area, border: panels::pane_border(t, true, title) };
        if changes.len() == 0 {
            seq![
                frame,
                draw::one_line(
                    draw::inner(area),
                    seq![draw::styled("  No changes"@, draw::ink(t.fg_dim))],
                    draw::plain(),
                ),
            ]
        } else {
            seq![
                frame,
                DrawView::List {
                    area: draw::inner(area),
                    rows: changes.map_values(|c: ChangeView| self.change_row(c)),
                    selected: Some(self.current_change_idx),
                    highlight: draw::paper(t.bg_selection),
                },
            ]
        }
    }
}

impl App {
    /// The row of a change.
    fn change_row(&self, c: &Change) -> (r: Line)
        ensures
            r.deep_view() == self.deep_view().change_row(c.deep_view()),
    {
        let t = &self.theme;
        let (mark, color) = match c.state {
            ChangeState::Unselected => ("   ", t.fg_normal),
            ChangeState::Accepted => (" \u{2713} ", t.fg_added),
            ChangeState::Rejected => (" \u{2717} ", t.fg_removed),
        };
        let side = if c.is_base {
            t.fg_removed
        } else {
            t.fg_added
        };
        let line = panels::line2(
            draw::span(mark, draw::bold(color)),
            draw::span(c.content.as_str(), draw::ink(side)),
        );
        match &c.paired_content {
            Some(other) => panels::line_cat(
                line,
                panels::line2(
                    draw::span(" \u{2192} ", draw::ink(t.fg_dim)),
                    draw::span(other.as_str(), draw::ink(t.fg_added)),
                ),
            ),
            None => line,
        }
    }

    /// The rows of changes.
    fn change_rows(&self, changes: &Vec<Change>) -> (r: Vec<Line>)
        ensures
            r.deep_view() == changes.deep_view().map_values(
                |c: ChangeView| self.deep_view().change_row(c),
            ),
    {
        let ghost v = self.deep_view();
        let ghost want = changes.deep_view().map_values(|c: ChangeView| v.change_row(c));
        let mut r: Vec<Line> = Vec::new();
        for i in 0..changes.len()
            invariant
                v == self.deep_view(),
                want == changes.deep_view().map_values(|c: ChangeView| v.change_row(c)),
                r.deep_view() == want.take(i as int),
        {
            let ghost before = r.deep_view();
            let line = self.change_row(&changes[i]);
            r.push(line);
            proof {
                assert(changes.deep_view()[i as int] == changes@[i as int].deep_view());
                assert(r.deep_view() =~= before.push(want[i as int]));
                assert(want.take(i + 1) =~= before.push(want[i as int]));
            }
        }
        assert(want.take(want.len() as int) =~= want);
        r
    }

    /// The changes of the selected file to be decided about.
    pub fn render_rebase_ui(&self, area: Rect) -> (r: Vec<Draw>)
        ensures
            r.deep_view() == self.deep_view().change_list(area),
    {
        let t = &self.theme;
        let ghost v = self.deep_view();
        let mut rows: Vec<Line> = Vec::new();
        assert(rows.deep_view() =~= v.current_changes().take(0).map_values(
            |c: ChangeView| v.change_row(c),
        ));
        let title = match self.current_file() {
            Some(f) => {
                if let Some(changes) = self.rebase_changes.look_up(f.as_str()) {
                    rows = self.change_rows(changes);
                }
                text::cat3(" Rebase: ", f.as_str(), " ")
            },
            None => " Rebase ".to_owned(),
        };
        assert(rows.deep_view() =~= v.current_changes().map_values(
            |c: ChangeView| v.change_row(c),
        ));
        assert(rows.deep_view().len() == rows@.len());
        let mut r: Vec<Draw> = Vec::new();
        r.push(Draw::Frame { area, border: panels::border_of(t, true, title.as_str()) });
        if rows.len() == 0 {
            r.push(
                draw::draw_line(
                    draw::inside(area),
                    panels::line1(draw::span("  No changes", draw::ink(t.fg_dim))),
                    draw::plain(),
                ),
            );
        } else {
            r.push(
                Draw::List {
                    area: draw::inside(area),
                    rows,
                    selected: Some(self.current_change_idx),
                    highlight: draw::paper(t.bg_selection),
                },
            );
        }
        assert(r.deep_view() =~= v.change_list(area));
        r
    }
}

// ---------------------------------------------------------------------------
// Areas

/// Where everything stands.
pub struct Areas {
    pub screen: Rect,
    pub header: Rect,
    pub content: Rect,
    pub help: Rect,
    /// The file list and the panes.
    pub columns: Vec<Rect>,
    /// The rebase window.
    pub notice: Rect,
    /// Its message and its buttons.
    pub notice_parts: (Rect, Rect),
    /// The help window.
    pub help_window: Rect,
    /// The window of remotes.
    pub picker: Rect,
    /// The commit window.
    pub commit: Rect,
}

impl AppView {
    /// How many columns the content has.
    pub open spec fn column_count(self) -> nat {
        match (self.app_mode, self.view_mode) {
            (AppMode::Diff, ViewMode::SideBySide) => 3,
            (AppMode::Diff, ViewMode::Unified) => 2,
            _ => 0,
        }
    }

    /// Whether the columns are those of the content.
    pub open spec fn has_columns(self, columns: Seq<Rect>, content: Rect) -> bool {
        match (self.app_mode, self.view_mode) {
            (AppMode::Diff, ViewMode::SideBySide) => layout::divides(
                columns,
                Axis::Columns,
                layout::two_pane_sizes(self.file_list_width_pct),
                content,
            ),
            (AppMode::Diff, ViewMode::Unified) => layout::divides(
                columns,
                Axis::Columns,
                layout::one_pane_sizes(self.file_list_width_pct),
                content,
            ),
            _ => columns.len() == 0,
        }
    }

    /// Whether the rebase window is where it should be.
    pub open spec fn has_notice(self, area: Rect, parts: (Rect, Rect), screen: Rect) -> bool {
        match self.rebase_notification {
            Some(m) => {
                let lines = text::text_lines(m);
                layout::is_centered(
                    area,
                    modals::notice_width(lines),
                    modals::notice_height(lines),
                    screen,
                ) && exists|p: Seq<Rect>| #[trigger]
                    layout::divides(
                        p,
                        Axis::Rows,
                        layout::message_sizes(lines.len()),
                        draw::inner(area),
                    ) && parts == (p[0], p[1])
            },
            None => true,
        }
    }

    /// Whether everything is where it should be on a screen of this size.
    pub open spec fn laid_out(self, areas: Areas, screen: Rect) -> bool {
        &&& areas.screen == screen
        &&& exists|rows: Seq<Rect>| #[trigger]
            layout::divides(rows, Axis::Rows, layout::screen_sizes(), screen) && areas.header
                == rows[0] && areas.content == rows[1] && areas.help == rows[2]
        &&& self.has_columns(areas.columns@, areas.content)
        &&& self.show_rebase_modal ==> self.has_notice(areas.notice, areas.notice_parts, screen)
        &&& self.show_help_modal ==> layout::is_centered(
            areas.help_window,
            modals::HELP_WIDTH,
            modals::help_height(self.app_mode),
            screen,
        )
        &&& self.app_mode == AppMode::RemotePicker ==> layout::is_centered(
            areas.picker,
            modals::PICKER_WIDTH,
            self.picker_height(screen),
            screen,
        )
        &&& self.show_commit_modal ==> match self.pending_commit_message {
            Some(m) => layout::is_centered(
                areas.commit,
                modals::commit_width(screen),
                modals::commit_height(m, screen),
                screen,
            ),
            None => true,
        }
    }
}

impl App {
    /// The columns of the content.
    fn columns_of(&self, content: Rect) -> (r: Vec<Rect>)
        ensures
            self.deep_view().has_columns(r@, content),
    {
        match (self.app_mode, self.view_mode) {
            (AppMode::Diff, ViewMode::SideBySide) => layout::two_pane_parts(
                self.file_list_width_pct,
                content,
            ),
            (AppMode::Diff, ViewMode::Unified) => layout::one_pane_parts(
                self.file_list_width_pct,
                content,
            ),
            _ => Vec::new(),
        }
    }

    /// The rebase window, its message and its buttons.
    fn notice_areas(&self, screen: Rect) -> (r: (Rect, (Rect, Rect)))
        ensures
            self.deep_view().has_notice(r.0, r.1, screen),
    {
        match &self.rebase_notification {
            Some(m) => {
                let (w, h) = modals::notice_size(m.as_str());
                let area = layout::centered_rect(w, h, screen);
                let lines = text::lines(m.as_str());
                assert(lines.deep_view().len() == lines@.len());
                let parts = layout::message_parts(lines.len(), draw::inside(area));
                (area, (parts[0], parts[1]))
            },
            None => (screen, (screen, screen)),
        }
    }

    /// The commit window.
    fn commit_area(&self, screen: Rect) -> (r: Rect)
        ensures
            self.deep_view().pending_commit_message matches Some(m) ==> layout::is_centered(
                r,
                modals::commit_width(screen),
                modals::commit_height(m, screen),
                screen,
            ),
    {
        match &self.pending_commit_message {
            Some(m) => {
                let (w, h) = modals::commit_size(m.as_str(), screen);
                layout::centered_rect(w, h, screen)
            },
            None => screen,
        }
    }

    /// Where everything stands on a screen of this size.
    pub fn lay_out(&self, screen: Rect) -> (r: Areas)
        ensures
            self.deep_view().laid_out(r, screen),
    {
        let rows = layout::screen_parts(screen);
        let columns = self.columns_of(rows[1]);
        let (notice, notice_parts) = self.notice_areas(screen);
        let help_window = layout::centered_rect(
            modals::HELP_WIDTH,
            modals::help_size(self.app_mode),
            screen,
        );
        let picker = layout::centered_rect(
            modals::PICKER_WIDTH,
            self.picker_size(screen),
            screen,
        );
        Areas {
            screen,
            header: rows[0],
            content: rows[1],
            help: rows[2],
            columns,
            notice,
            notice_parts,
            help_window,
            picker,
            commit: self.commit_area(screen),
        }
    }
}

// ---------------------------------------------------------------------------
// The frame

impl AppView {
    /// Whether `panes` are the panes of the diff.
    pub open spec fn shows_panes(
        self,
        panes: Seq<DrawView>,
        columns: Seq<Rect>,
        syntaxes: &'static SyntaxSet,
        themes: ThemeSet,
    ) -> bool {
        if self.app_mode != AppMode::Diff {
            panes == Seq::<DrawView>::empty()
        } else {
            match self.view_mode {
                ViewMode::SideBySide => self.shows_sides(
                    panes,
                    columns[1],
                    columns[2],
                    syntaxes,
                    themes,
                ),
                ViewMode::Unified => self.shows_unified(panes, columns[1], syntaxes, themes),
            }
        }
    }

    /// The content, between the header and the help line.
    pub open spec fn content(self, areas: Areas, panes: Seq<DrawView>) -> Seq<DrawView> {
        match self.app_mode {
            AppMode::Diff => self.file_list(areas.columns@[0]) + panes,
            AppMode::Rebase => self.change_list(areas.content),
            AppMode::Log => self.log_list(areas.content),
            AppMode::RemotePicker => seq![],
        }
    }

    /// The windows, one over the other.
    pub open spec fn windows(self, areas: Areas) -> Seq<DrawView> {
        (if self.show_rebase_modal {
            self.rebase_window(areas.screen, areas.notice, areas.notice_parts)
        } else {
            seq![]
        }) + (if self.show_help_modal {
            self.help_window(areas.screen, areas.help_window)
        } else {
            seq![]
        }) + (if self.app_mode == AppMode::RemotePicker {
            self.picker_window(areas.screen, areas.picker)
        } else {
            seq![]
        }) + (if self.show_commit_modal {
            self.commit_window(areas.screen, areas.commit)
        } else {
            seq![]
        })
    }

    /// The whole screen.
    pub open spec fn frame(self, areas: Areas, panes: Seq<DrawView>) -> Seq<DrawView> {
        seq![
            DrawView::Fill { area: areas.screen, style: draw::paper(self.theme.bg_default) },
            draw::one_line(areas.header, self.header(), draw::paper(self.theme.bg_header)),
        ] + self.content(areas, panes) + self.help_line(areas.help) + self.windows(areas)
    }
}

impl App {
    /// The panes of the diff.
    fn render_panes(&self, areas: &Areas, cache: &mut HighlightCache) -> (r: Vec<Draw>)
        requires
            areas.columns@.len() == self.deep_view().column_count(),
            old(cache).valid(),
        ensures
            final(cache).valid(),
            final(cache).syntaxes() == old(cache).syntaxes(),
            final(cache).themes() == old(cache).themes(),
            self.deep_view().shows_panes(
                r.deep_view(),
                areas.columns@,
                old(cache).syntaxes(),
                old(cache).themes(),
            ),
    {
        if self.app_mode != AppMode::Diff {
            let none: Vec<Draw> = Vec::new();
            assert(none.deep_view() =~= Seq::<DrawView>::empty());
            return none;
        }
        match self.view_mode {
            ViewMode::SideBySide => self.render_side_by_side(
                areas.columns[1],
                areas.columns[2],
                cache,
            ),
            ViewMode::Unified => self.render_unified_diff(areas.columns[1], cache),
        }
    }

    /// The content, between the header and the help line.
    fn render_content(&self, areas: &Areas, panes: Vec<Draw>) -> (r: Vec<Draw>)
        requires
            areas.columns@.len() == self.deep_view().column_count(),
        ensures
            r.deep_view() == self.deep_view().content(*areas, panes.deep_view()),
    {
        match self.app_mode {
            AppMode::Diff => {
                let mut r = self.render_file_list(areas.columns[0]);
                draw::add_all(&mut r, panes);
                r
            },
            AppMode::Rebase => self.render_rebase_ui(areas.content),
            AppMode::Log => self.render_log_ui(areas.content),
            AppMode::RemotePicker => {
                let none: Vec<Draw> = Vec::new();
                assert(none.deep_view() =~= Seq::<DrawView>::empty());
                none
            },
        }
    }

    /// The windows, one over the other.
    fn render_windows(&self, areas: &Areas) -> (r: Vec<Draw>)
        ensures
            r.deep_view() == self.deep_view().windows(*areas),
    {
        let mut r: Vec<Draw> = Vec::new();
        if self.show_rebase_modal {
            draw::add_all(
                &mut r,
                self.render_rebase_notification(areas.screen, areas.notice, areas.notice_parts),
            );
        }
        if self.show_help_modal {
            draw::add_all(&mut r, self.render_help_modal(areas.screen, areas.help_window));
        }
        if self.app_mode == AppMode::RemotePicker {
            draw::add_all(&mut r, self.render_remote_picker(areas.screen, areas.picker));
        }
        if self.show_commit_modal {
            draw::add_all(&mut r, self.render_commit_modal(areas.screen, areas.commit));
        }
        assert(r.deep_view() =~= self.deep_view().windows(*areas));
        r
    }

    /// The whole screen.
    pub fn draw(&self, areas: &Areas, cache: &mut HighlightCache) -> (r: Vec<Draw>)
        requires
            areas.columns@.len() == self.deep_view().column_count(),
            old(cache).valid(),
        ensures
            final(cache).valid(),
            final(cache).syntaxes() == old(cache).syntaxes(),
            final(cache).themes() == old(cache).themes(),
            exists|panes: Seq<DrawView>| #[trigger]
                self.deep_view().shows_panes(
                    panes,
                    areas.columns@,
                    old(cache).syntaxes(),
                    old(cache).themes(),
                ) && r.deep_view() == self.deep_view().frame(*areas, panes),
    {
        let panes = self.render_panes(areas, cache);
        let mut r: Vec<Draw> = Vec::new();
        r.push(
            Draw::Fill { area: areas.screen, style: draw::paper(self.theme.bg_default) },
        );
        r.push(
            draw::draw_line(
                areas.header,
                self.render_header(),
                draw::paper(self.theme.bg_header),
            ),
        );
        let ghost first = r.deep_view();
        let content = self.render_content(areas, panes);
        draw::add_all(&mut r, content);
        draw::add_all(&mut r, self.render_help(areas.help));
        draw::add_all(&mut r, self.render_windows(areas));
        proof {
            let v = self.deep_view();
            assert(first =~= seq![
                DrawView::Fill { area: areas.screen, style: draw::paper(v.theme.bg_default) },
                draw::one_line(areas.header, v.header(), draw::paper(v.theme.bg_header)),
            ]);
            assert(r.deep_view() =~= v.frame(*areas, panes.deep_view()));
        }
        r
    }

    /// Draws a frame: scrolling is brought in line with the screen, and
    /// everything is drawn in its place.
    pub fn ui(&mut self, screen: Rect, cache: &mut HighlightCache) -> (r: Vec<Draw>)
        requires
            old(cache).valid(),
        ensures
            final(cache).valid(),
            final(cache).syntaxes() == old(cache).syntaxes(),
            final(cache).themes() == old(cache).themes(),
            exists|areas: Areas, panes: Seq<DrawView>| #[trigger]
                old(self).deep_view().laid_out(areas, screen) && final(self).deep_view()
                    == old(self).deep_view().settled(areas.content) && #[trigger] final(self).deep_view().shows_panes(
                    panes,
                    areas.columns@,
                    old(cache).syntaxes(),
                    old(cache).themes(),
                ) && r.deep_view() == final(self).deep_view().frame(areas, panes),
    {
        let areas = self.lay_out(screen);
        self.settle(areas.content);
        assert(self.deep_view().has_columns(areas.columns@, areas.content));
        self.draw(&areas, cache)
    }
}

/// The header, the content and the help line stand below each other in this order, and
/// the file list and the panes of a diff next to each other.
pub proof fn law_laid_out(a: AppView, areas: Areas, screen: Rect)
    requires
        a.laid_out(areas, screen),
    ensures
        areas.screen == screen,
        layout::may_split(
            seq![areas.header, areas.content, areas.help],
            Axis::Rows,
            seq![Size::Length(1), Size::Min(0), Size::Length(1)],
            screen,
        ),
        areas.header.width == screen.width && areas.content.width == screen.width
            && areas.help.width == screen.width,
        a.app_mode is Diff && a.view_mode is SideBySide ==> areas.columns@.len() == 3,
        a.app_mode is Diff && a.view_mode is Unified ==> areas.columns@.len() == 2,
        a.app_mode is Diff ==> forall|i: int|
            0 <= i < areas.columns@.len() ==> (#[trigger] areas.columns@[i]).y == areas.content.y
                && areas.columns@[i].height == areas.content.height,
{
    let rows = choose|rows: Seq<Rect>| #[trigger]
        layout::divides(rows, Axis::Rows, layout::screen_sizes(), screen) && areas.header
            == rows[0] && areas.content == rows[1] && areas.help == rows[2];
    assert(seq![areas.header, areas.content, areas.help] =~= rows);
    assert(rows[0].width == screen.width && rows[1].width == screen.width && rows[2].width
        == screen.width);
}

} // verus!
