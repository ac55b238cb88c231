//! The panes of a diff.
use vstd::prelude::*;
use super::align;
use super::cache;
use super::cache::{HighlightCache, Source};
use super::draw;
use super::draw::{Align, Draw, DrawView, Line, LineView, Rect, SpanView, Wrap};
use super::keys;
use super::panels;
use super::syntax;
use super::syntax::LineHighlighter;
use super::theme::{Color, Theme, ThemeView};
use super::types::{App, AppView, Pane};
use syntect::highlighting::ThemeSet;
use syntect::parsing::SyntaxSet;
use crate::diff::{LineChange, SideView};
use crate::text;

verus! {

// ---------------------------------------------------------------------------
// Selected rows

/// Whether line `abs` is selected or under the cursor.
pub open spec fn is_marked(
    abs: usize,
    cursor: Option<usize>,
    selection: Option<(usize, usize)>,
) -> bool {
    (selection matches Some((lo, hi)) && lo <= abs <= hi) || cursor == Some(abs)
}

/// Whether line `abs` is selected or under the cursor.
pub fn row_is_selected(
    abs: usize,
    cursor: Option<usize>,
    selection: Option<(usize, usize)>,
) -> (r: bool)
    ensures
        r == is_marked(abs, cursor, selection),
{
    if let Some((lo, hi)) = selection {
        if abs >= lo && abs <= hi {
            return true;
        }
    }
    match cursor {
        Some(c) => c == abs,
        None => false,
    }
}

/// A line on another background.
pub open spec fn shaded(line: LineView, bg: Color) -> LineView {
    line.map_values(|s: SpanView| draw::styled(s.text, draw::over(s.style, bg)))
}

/// A line on another background.
fn shade(line: &Line, bg: Color) -> (r: Line)
    ensures
        r.deep_view() == shaded(line.deep_view(), bg),
{
    let ghost want = shaded(line.deep_view(), bg);
    let mut r: Line = Vec::new();
    for i in 0..line.len()
        invariant
            want == shaded(line.deep_view(), bg),
            r.deep_view() == want.take(i as int),
    {
        let ghost before = r.deep_view();
        r.push(draw::span(line[i].text.as_str(), draw::over(line[i].style, bg)));
        proof {
            assert(line.deep_view()[i as int] == line@[i as int].deep_view());
            assert(r.deep_view() =~= before.push(want[i as int]));
            assert(want.take(i + 1) =~= before.push(want[i as int]));
        }
    }
    assert(want.take(want.len() as int) =~= want);
    r
}

/// Rows of which the first is line `start`, with those that are selected or
/// under the cursor on another background.
pub open spec fn with_selection(
    rows: Seq<LineView>,
    start: usize,
    cursor: Option<usize>,
    selection: Option<(usize, usize)>,
    bg: Color,
) -> Seq<LineView> {
    Seq::new(
        rows.len(),
        |i: int|
            if is_marked(keys::more(start, i as usize), cursor, selection) {
                shaded(rows[i], bg)
            } else {
                rows[i]
            },
    )
}

/// Rows of which the first is line `start`, with those that are selected or
/// under the cursor on another background.
pub fn highlight_selected_rows(
    rows: &Vec<Line>,
    start: usize,
    cursor: Option<usize>,
    selection: Option<(usize, usize)>,
    bg: Color,
) -> (r: Vec<Line>)
    ensures
        r.deep_view() == with_selection(rows.deep_view(), start, cursor, selection, bg),
{
    let ghost all = rows.deep_view();
    let ghost want = with_selection(all, start, cursor, selection, bg);
    let mut r: Vec<Line> = Vec::new();
    for i in 0..rows.len()
        invariant
            all == rows.deep_view(),
            want == with_selection(all, start, cursor, selection, bg),
            r.deep_view() == want.take(i as int),
    {
        let ghost before = r.deep_view();
        let line = if row_is_selected(start.saturating_add(i), cursor, selection) {
            shade(&rows[i], bg)
        } else {
            draw::copy_line(&rows[i])
        };
        r.push(line);
        proof {
            assert(all[i as int] == rows@[i as int].deep_view());
            assert(r.deep_view() =~= before.push(want[i as int]));
            assert(want.take(i + 1) =~= before.push(want[i as int]));
        }
    }
    assert(want.take(want.len() as int) =~= want);
    r
}

/// Lines, each behind its number and mark.
pub open spec fn side_by_side(gutter: Seq<LineView>, content: Seq<LineView>) -> Seq<LineView> {
    Seq::new(
        if gutter.len() < content.len() {
            gutter.len()
        } else {
            content.len()
        },
        |i: int| gutter[i] + content[i],
    )
}

/// Lines, each behind its number and mark.
fn merge_rows(gutter: &Vec<Line>, content: &Vec<Line>) -> (r: Vec<Line>)
    ensures
        r.deep_view() == side_by_side(gutter.deep_view(), content.deep_view()),
{
    let ghost want = side_by_side(gutter.deep_view(), content.deep_view());
    let n: usize = if gutter.len() < content.len() {
        gutter.len()
    } else {
        content.len()
    };
    let mut r: Vec<Line> = Vec::new();
    for i in 0..n
        invariant
            n <= gutter@.len(),
            n <= content@.len(),
            want.len() == n,
            want == side_by_side(gutter.deep_view(), content.deep_view()),
            r.deep_view() == want.take(i as int),
    {
        let ghost before = r.deep_view();
        let line = panels::line_cat(draw::copy_line(&gutter[i]), draw::copy_line(&content[i]));
        r.push(line);
        proof {
            assert(gutter.deep_view()[i as int] == gutter@[i as int].deep_view());
            assert(content.deep_view()[i as int] == content@[i as int].deep_view());
            assert(r.deep_view() =~= before.push(want[i as int]));
            assert(want.take(i + 1) =~= before.push(want[i as int]));
        }
    }
    assert(want.take(want.len() as int) =~= want);
    r
}

// ---------------------------------------------------------------------------
// One pane

/// What a pane shows.
pub struct DiffPane {
    pub title: String,
    pub lines: Vec<LineChange>,
    pub filename: String,
    /// The first row shown.
    pub scroll: usize,
    /// The first column shown.
    pub h_scroll: usize,
    /// Whether long lines are wrapped.
    pub wrap: bool,
    /// Whether the keys act on the pane.
    pub focused: bool,
    pub area: Rect,
    /// The line under the cursor.
    pub cursor: Option<usize>,
    /// The first and the last line that are selected.
    pub selection: Option<(usize, usize)>,
}

/// What a pane shows, as a mathematical value.
#[verifier::ext_equal]
pub struct PaneView {
    pub title: Seq<char>,
    pub lines: SideView,
    pub filename: Seq<char>,
    pub scroll: usize,
    pub h_scroll: usize,
    pub wrap: bool,
    pub focused: bool,
    pub area: Rect,
    pub cursor: Option<usize>,
    pub selection: Option<(usize, usize)>,
}

impl DeepView for DiffPane {
    type V = PaneView;

    open spec fn deep_view(&self) -> PaneView {
        PaneView {
            title: self.title@,
            lines: self.lines.deep_view(),
            filename: self.filename@,
            scroll: self.scroll,
            h_scroll: self.h_scroll,
            wrap: self.wrap,
            focused: self.focused,
            area: self.area,
            cursor: self.cursor,
            selection: self.selection,
        }
    }
}

/// The smaller of two.
pub open spec fn lesser(a: usize, b: usize) -> usize {
    if a < b {
        a
    } else {
        b
    }
}

/// The smaller of two.
fn lesser_of(a: usize, b: usize) -> (r: usize)
    ensures
        r == lesser(a, b),
{
    if a < b {
        a
    } else {
        b
    }
}

/// How far `scroll` is between 0 and `most`, in percent.
pub open spec fn percent(scroll: usize, most: usize) -> nat {
    (lesser(scroll, most) as int * 100 / most as int) as nat
}

/// How far `scroll` is between 0 and `most`, in percent.
fn percent_of(scroll: usize, most: usize) -> (r: usize)
    requires
        most > 0,
    ensures
        r == percent(scroll, most),
{
    let at: usize = lesser_of(scroll, most);
    assert(at as int * 100 / most as int <= 100) by (nonlinear_arith)
        requires
            at <= most,
            most > 0,
    ;
    assert(at as int * 100 <= usize::MAX as int * 100) by (nonlinear_arith)
        requires
            at <= usize::MAX,
    ;
    let share: u128 = at as u128 * 100 / most as u128;
    share as usize
}

/// The title of a pane: how far it is scrolled down, where there is more than
/// it shows, and how far to the side.
pub open spec fn pane_title(p: PaneView, rows: usize, visible: usize) -> Seq<char> {
    let share = if rows > visible {
        " ("@ + text::decimal(percent(p.scroll, (rows - visible) as usize)) + "%)"@
    } else {
        seq![]
    };
    let end = if p.wrap {
        " \u{2502} wrap "@
    } else if p.h_scroll > 0 {
        " \u{2192}"@ + text::decimal(p.h_scroll as nat) + " "@
    } else {
        " "@
    };
    " "@ + p.title + share + end
}

/// How many lines, from line `i` on, fill `needed` rows of which `acc` are
/// filled.
pub open spec fn filling(lines: SideView, columns: usize, needed: usize, i: int, acc: nat) -> int
    decreases lines.len() - i,
{
    if i >= lines.len() || acc >= needed {
        i
    } else {
        filling(lines, columns, needed, i + 1, acc + align::line_rows(lines[i], columns))
    }
}

impl PaneView {
    /// How many rows the pane shows.
    pub open spec fn visible(self) -> usize {
        draw::inner(self.area).height as usize
    }

    /// How many rows there are.
    pub open spec fn rows(self) -> usize {
        if self.wrap {
            align::capped(align::side_rows(self.lines, draw::inner(self.area).width as usize))
        } else {
            self.lines.len() as usize
        }
    }

    /// The first line that has to be highlighted. Where lines are wrapped all
    /// lines from the first are drawn, and scrolled.
    pub open spec fn first_line(self) -> usize {
        if self.wrap {
            0
        } else {
            self.scroll
        }
    }

    /// How many lines have to be highlighted. Where lines are wrapped it is two
    /// more than those that fill the rows: lines are broken at words.
    pub open spec fn line_count(self) -> usize {
        if self.wrap {
            let inner = draw::inner(self.area);
            let n = filling(
                self.lines,
                inner.width as usize,
                keys::more(self.scroll, self.visible()),
                0,
                0,
            );
            if n + 2 < self.lines.len() {
                (n + 2) as usize
            } else {
                self.lines.len() as usize
            }
        } else {
            self.visible()
        }
    }

    /// What is drawn inside the border.
    pub open spec fn body(
        self,
        t: ThemeView,
        gutter: Seq<LineView>,
        content: Seq<LineView>,
    ) -> Seq<DrawView> {
        let inner = draw::inner(self.area);
        if self.wrap {
            if inner.width > 0 && inner.height > 0 {
                seq![
                    DrawView::Text {
                        area: inner,
                        lines: with_selection(
                            side_by_side(gutter, content),
                            0,
                            self.cursor,
                            self.selection,
                            t.bg_selection,
                        ),
                        style: draw::plain(),
                        align: Align::Left,
                        wrap: Wrap::Keep,
                        top: lesser(self.scroll, 65535) as u16,
                        left: 0,
                    },
                ]
            } else {
                seq![]
            }
        } else {
            let edge = if inner.width < align::GUTTER_WIDTH {
                inner.width
            } else {
                align::GUTTER_WIDTH as u16
            };
            let numbers = DrawView::Text {
                area: Rect { x: inner.x, y: inner.y, width: edge, height: inner.height },
                lines: with_selection(
                    gutter,
                    self.scroll,
                    self.cursor,
                    self.selection,
                    t.bg_selection,
                ),
                style: draw::plain(),
                align: Align::Left,
                wrap: Wrap::Cut,
                top: 0,
                left: 0,
            };
            if inner.width > edge {
                seq![
                    numbers,
                    DrawView::Text {
                        area: Rect {
                            x: if inner.x + edge <= 65535 {
                                (inner.x + edge) as u16
                            } else {
                                65535
                            },
                            y: inner.y,
                            width: (inner.width - edge) as u16,
                            height: inner.height,
                        },
                        lines: with_selection(
                            content,
                            self.scroll,
                            self.cursor,
                            self.selection,
                            t.bg_selection,
                        ),
                        style: draw::plain(),
                        align: Align::Left,
                        wrap: Wrap::Cut,
                        top: 0,
                        left: lesser(self.h_scroll, 65535) as u16,
                    },
                ]
            } else {
                seq![numbers]
            }
        }
    }

    /// The scrollbar, where there is more than is shown.
    pub open spec fn scrollbar(self) -> Seq<DrawView> {
        if self.rows() > self.visible() {
            let most = (self.rows() - self.visible()) as usize;
            seq![
                DrawView::Scrollbar {
                    area: Rect {
                        x: self.area.x,
                        y: if self.area.y < 65535 {
                            (self.area.y + 1) as u16
                        } else {
                            65535
                        },
                        width: self.area.width,
                        height: if self.area.height >= 2 {
                            (self.area.height - 2) as u16
                        } else {
                            0
                        },
                    },
                    length: most,
                    position: lesser(self.scroll, most),
                },
            ]
        } else {
            seq![]
        }
    }

    /// The pane with highlighted lines.
    pub open spec fn drawn(
        self,
        t: ThemeView,
        gutter: Seq<LineView>,
        content: Seq<LineView>,
    ) -> Seq<DrawView> {
        seq![
            DrawView::Frame {
                area: self.area,
                border: panels::pane_border(
                    t,
                    self.focused,
                    pane_title(self, self.rows(), self.visible()),
                ),
            },
        ] + self.body(t, gutter, content) + self.scrollbar()
    }

    /// Whether `r` is the pane with its lines highlighted, by a syntax that may
    /// be found for the file.
    pub open spec fn shows(
        self,
        r: Seq<DrawView>,
        t: ThemeView,
        source: Source,
        syntaxes: &'static SyntaxSet,
        themes: ThemeSet,
    ) -> bool {
        exists|first: LineHighlighter| #[trigger]
            syntax::is_start(first, self.filename, syntaxes, themes, syntax::scheme(t)) && r
                == self.drawn(
                t,
                self.gutter(first, source),
                self.content(first, source),
            )
    }

    /// The numbers and marks of the lines that are drawn.
    pub open spec fn gutter(self, first: LineHighlighter, source: Source) -> Seq<LineView> {
        cache::gutter_rows(
            first,
            self.lines,
            source,
            cache::at_most(self.first_line() as int, self.lines.len()),
            cache::at_most(self.first_line() + self.line_count(), self.lines.len()),
        )
    }

    /// The code of the lines that are drawn.
    pub open spec fn content(self, first: LineHighlighter, source: Source) -> Seq<LineView> {
        cache::content_rows(
            first,
            self.lines,
            source,
            cache::at_most(self.first_line() as int, self.lines.len()),
            cache::at_most(self.first_line() + self.line_count(), self.lines.len()),
        )
    }
}

/// How many lines fill `needed` rows.
fn lines_to_fill(lines: &Vec<LineChange>, columns: usize, needed: usize) -> (r: usize)
    ensures
        r == filling(lines.deep_view(), columns, needed, 0, 0),
        r <= lines@.len(),
{
    let ghost all = lines.deep_view();
    let ghost want = filling(all, columns, needed, 0, 0);
    let ghost mut filled: nat = 0;
    let mut acc: usize = 0;
    let mut end: usize = 0;
    while end < lines.len() && acc < needed
        invariant
            all == lines.deep_view(),
            end <= lines@.len(),
            acc == align::capped(filled),
            want == filling(all, columns, needed, end as int, filled),
        decreases lines@.len() - end,
    {
        assert(all[end as int] == lines@[end as int].deep_view());
        let n: usize = align::merged_line_rows(&lines[end], columns);
        proof {
            filled = filled + align::line_rows(all[end as int], columns);
        }
        acc = acc.saturating_add(n);
        end = end + 1;
    }
    end
}

impl DiffPane {
    /// How many rows there are.
    fn rows(&self) -> (r: usize)
        ensures
            r == self.deep_view().rows(),
    {
        if self.wrap {
            align::total_wrapped_rows(
                self.lines.as_slice(),
                draw::inside(self.area).width as usize,
            )
        } else {
            let n: usize = self.lines.len();
            assert(self.deep_view().lines.len() == n);
            n
        }
    }

    /// How many lines have to be highlighted.
    fn line_count(&self) -> (r: usize)
        ensures
            r == self.deep_view().line_count(),
    {
        let inner = draw::inside(self.area);
        if self.wrap {
            let needed: usize = self.scroll.saturating_add(inner.height as usize);
            let n: usize = lines_to_fill(&self.lines, inner.width as usize, needed);
            let len: usize = self.lines.len();
            assert(self.deep_view().lines.len() == len);
            if len - n > 2 {
                n + 2
            } else {
                len
            }
        } else {
            inner.height as usize
        }
    }

    /// The title.
    fn full_title(&self, rows: usize, visible: usize) -> (r: String)
        ensures
            r@ == pane_title(self.deep_view(), rows, visible),
    {
        let share = if rows > visible {
            let digits = text::decimal_of(percent_of(self.scroll, rows - visible));
            text::cat3(" (", digits.as_str(), "%)")
        } else {
            String::new()
        };
        assert(rows <= visible ==> share@ =~= seq![]);
        let end = if self.wrap {
            " \u{2502} wrap ".to_owned()
        } else if self.h_scroll > 0 {
            let digits = text::decimal_of(self.h_scroll);
            text::cat3(" \u{2192}", digits.as_str(), " ")
        } else {
            " ".to_owned()
        };
        text::cat4(" ", self.title.as_str(), share.as_str(), end.as_str())
    }

    /// What is drawn inside the border where lines are wrapped.
    fn wrapped_body(&self, t: &Theme, gutter: &Vec<Line>, content: &Vec<Line>) -> (r: Vec<Draw>)
        requires
            self.wrap,
        ensures
            r.deep_view() == self.deep_view().body(
                t.deep_view(),
                gutter.deep_view(),
                content.deep_view(),
            ),
    {
        let inner = draw::inside(self.area);
        let mut r: Vec<Draw> = Vec::new();
        if inner.width > 0 && inner.height > 0 {
            let merged = merge_rows(gutter, content);
            r.push(
                Draw::Text {
                    area: inner,
                    lines: highlight_selected_rows(
                        &merged,
                        0,
                        self.cursor,
                        self.selection,
                        t.bg_selection,
                    ),
                    style: draw::plain(),
                    align: Align::Left,
                    wrap: Wrap::Keep,
                    top: lesser_of(self.scroll, 65535) as u16,
                    left: 0,
                },
            );
        }
        assert(r.deep_view() =~= self.deep_view().body(
            t.deep_view(),
            gutter.deep_view(),
            content.deep_view(),
        ));
        r
    }

    /// What is drawn inside the border where lines are cut off.
    fn cut_body(&self, t: &Theme, gutter: &Vec<Line>, content: &Vec<Line>) -> (r: Vec<Draw>)
        requires
            !self.wrap,
        ensures
            r.deep_view() == self.deep_view().body(
                t.deep_view(),
                gutter.deep_view(),
                content.deep_view(),
            ),
    {
        let inner = draw::inside(self.area);
        let edge: u16 = if (inner.width as usize) < align::GUTTER_WIDTH {
            inner.width
        } else {
            align::GUTTER_WIDTH as u16
        };
        let mut r: Vec<Draw> = Vec::new();
        r.push(
            Draw::Text {
                area: Rect { x: inner.x, y: inner.y, width: edge, height: inner.height },
                lines: highlight_selected_rows(
                    gutter,
                    self.scroll,
                    self.cursor,
                    self.selection,
                    t.bg_selection,
                ),
                style: draw::plain(),
                align: Align::Left,
                wrap: Wrap::Cut,
                top: 0,
                left: 0,
            },
        );
        if inner.width > edge {
            r.push(
                Draw::Text {
                    area: Rect {
                        x: inner.x.saturating_add(edge),
                        y: inner.y,
                        width: inner.width - edge,
                        height: inner.height,
                    },
                    lines: highlight_selected_rows(
                        content,
                        self.scroll,
                        self.cursor,
                        self.selection,
                        t.bg_selection,
                    ),
                    style: draw::plain(),
                    align: Align::Left,
                    wrap: Wrap::Cut,
                    top: 0,
                    left: lesser_of(self.h_scroll, 65535) as u16,
                },
            );
        }
        assert(r.deep_view() =~= self.deep_view().body(
            t.deep_view(),
            gutter.deep_view(),
            content.deep_view(),
        ));
        r
    }

    /// The scrollbar.
    fn scrollbar(&self, rows: usize) -> (r: Vec<Draw>)
        requires
            rows == self.deep_view().rows(),
        ensures
            r.deep_view() == self.deep_view().scrollbar(),
    {
        let visible: usize = draw::inside(self.area).height as usize;
        let mut r: Vec<Draw> = Vec::new();
        if rows > visible {
            let most: usize = rows - visible;
            r.push(
                Draw::Scrollbar {
                    area: Rect {
                        x: self.area.x,
                        y: self.area.y.saturating_add(1),
                        width: self.area.width,
                        height: self.area.height.saturating_sub(2),
                    },
                    length: most,
                    position: lesser_of(self.scroll, most),
                },
            );
        }
        assert(r.deep_view() =~= self.deep_view().scrollbar());
        r
    }

    /// The pane with highlighted lines.
    pub fn draw(&self, t: &Theme, gutter: &Vec<Line>, content: &Vec<Line>) -> (r: Vec<Draw>)
        ensures
            r.deep_view() == self.deep_view().drawn(
                t.deep_view(),
                gutter.deep_view(),
                content.deep_view(),
            ),
    {
        let rows: usize = self.rows();
        let visible: usize = draw::inside(self.area).height as usize;
        let title = self.full_title(rows, visible);
        let mut r: Vec<Draw> = Vec::new();
        r.push(
            Draw::Frame {
                area: self.area,
                border: panels::border_of(t, self.focused, title.as_str()),
            },
        );
        proof {
            let v = self.deep_view();
            assert(r.deep_view() =~= seq![
                DrawView::Frame {
                    area: v.area,
                    border: panels::pane_border(
                        t.deep_view(),
                        v.focused,
                        pane_title(v, v.rows(), v.visible()),
                    ),
                },
            ]);
        }
        let body = if self.wrap {
            self.wrapped_body(t, gutter, content)
        } else {
            self.cut_body(t, gutter, content)
        };
        draw::add_all(&mut r, body);
        draw::add_all(&mut r, self.scrollbar(rows));
        r
    }

    /// The pane. Its lines are highlighted as far as they are drawn, or taken
    /// from the cache.
    pub fn render_diff_pane(
        &self,
        t: &Theme,
        cache: &mut HighlightCache,
        source: Option<&Vec<String>>,
    ) -> (r: Vec<Draw>)
        requires
            old(cache).valid(),
        ensures
            final(cache).valid(),
            final(cache).syntaxes() == old(cache).syntaxes(),
            final(cache).themes() == old(cache).themes(),
            self.deep_view().shows(
                r.deep_view(),
                t.deep_view(),
                source.deep_view(),
                old(cache).syntaxes(),
                old(cache).themes(),
            ),
    {
        let start: usize = if self.wrap {
            0
        } else {
            self.scroll
        };
        let len: usize = self.line_count();
        let (gutter, content) = cache.window_src(
            self.lines.as_slice(),
            self.filename.as_str(),
            t,
            start,
            len,
            source,
        );
        let r = self.draw(t, &gutter, &content);
        proof {
            let p = self.deep_view();
            let syntaxes = old(cache).syntaxes();
            let themes = old(cache).themes();
            let scheme = syntax::scheme(t.deep_view());
            assert(p.filename == self.filename@);
            let first = choose|first: LineHighlighter| #[trigger]
                syntax::is_start(first, self.filename@, syntaxes, themes, scheme)
                    && cache::is_window(
                    (gutter.deep_view(), content.deep_view()),
                    first,
                    self.lines.deep_view(),
                    source.deep_view(),
                    start as int,
                    len as int,
                );
            assert(syntax::is_start(first, p.filename, syntaxes, themes, scheme));
            assert(r.deep_view() == p.drawn(
                t.deep_view(),
                p.gutter(first, source.deep_view()),
                p.content(first, source.deep_view()),
            ));
        }
        r
    }
}

/// Scrolling sideways leaves the numbers and marks where they are, and what
/// they show. Where lines are wrapped it changes nothing.
pub proof fn law_gutter_pinned(
    p: PaneView,
    column: usize,
    t: ThemeView,
    first: LineHighlighter,
    source: Source,
)
    ensures
        ({
            let q = PaneView { h_scroll: column, ..p };
            let before = p.body(t, p.gutter(first, source), p.content(first, source));
            let after = q.body(t, q.gutter(first, source), q.content(first, source));
            &&& after.len() == before.len()
            &&& p.wrap ==> after == before
            &&& !p.wrap ==> before.len() > 0 && after[0] == before[0]
        }),
{
}

// ---------------------------------------------------------------------------
// The panes of the selected file

/// The whole text of one side of a file, where it is known.
pub open spec fn source_of(a: AppView, file: Seq<char>, head: bool) -> Source {
    if a.full_content.dom().contains(file) {
        Some(
            if head {
                a.full_content[file].1
            } else {
                a.full_content[file].0
            },
        )
    } else {
        None
    }
}

impl AppView {
    /// A pane of the selected file.
    pub open spec fn pane(self, title: Seq<char>, lines: SideView, area: Rect) -> PaneView {
        let focused = self.focused_pane == Pane::DiffContent;
        PaneView {
            title,
            lines,
            filename: self.file_names[self.current_file_idx as int],
            scroll: self.scroll(),
            h_scroll: self.h_scroll(),
            wrap: self.wrap_mode,
            focused,
            area,
            cursor: if focused {
                Some(self.diff_cursor)
            } else {
                None
            },
            selection: self.selection(),
        }
    }

    /// The two sides of the selected file, line by line, on panes of these
    /// areas.
    pub open spec fn two_sides(self, base_area: Rect, head_area: Rect) -> (SideView, SideView) {
        let (base, head) = self.file_changes[self.file_names[self.current_file_idx as int]];
        let (b, h) = align::aligned(base, head);
        if self.wrap_mode {
            let least = if base_area.width < head_area.width {
                base_area.width
            } else {
                head_area.width
            };
            let columns = if least >= 2 {
                (least - 2) as usize
            } else {
                0
            };
            (align::wrap_padded(b, h, columns), align::wrap_padded(h, b, columns))
        } else {
            (b, h)
        }
    }

    /// Whether there is a diff of the selected file.
    pub open spec fn has_diff(self) -> bool {
        self.current_file() matches Some(f) && self.file_changes.dom().contains(f)
    }

    /// Whether `r` are the two sides of the selected file next to each other.
    pub open spec fn shows_sides(
        self,
        r: Seq<DrawView>,
        base_area: Rect,
        head_area: Rect,
        syntaxes: &'static SyntaxSet,
        themes: ThemeSet,
    ) -> bool {
        if self.has_diff() {
            let file = self.file_names[self.current_file_idx as int];
            let (b, h) = self.two_sides(base_area, head_area);
            exists|left: Seq<DrawView>, right: Seq<DrawView>| #[trigger]
                self.pane(self.left_label, b, base_area).shows(
                    left,
                    self.theme,
                    source_of(self, file, false),
                    syntaxes,
                    themes,
                ) && #[trigger] self.pane(self.right_label, h, head_area).shows(
                    right,
                    self.theme,
                    source_of(self, file, true),
                    syntaxes,
                    themes,
                ) && r == left + right
        } else {
            r == Seq::<DrawView>::empty()
        }
    }

    /// Whether `r` is the diff of the selected file in one pane.
    pub open spec fn shows_unified(
        self,
        r: Seq<DrawView>,
        area: Rect,
        syntaxes: &'static SyntaxSet,
        themes: ThemeSet,
    ) -> bool {
        if self.has_diff() {
            let file = self.file_names[self.current_file_idx as int];
            let (base, head) = self.file_changes[file];
            self.pane(
                self.left_label + " vs "@ + self.right_label,
                align::unified(base, head),
                area,
            ).shows(r, self.theme, source_of(self, file, true), syntaxes, themes)
        } else {
            r == Seq::<DrawView>::empty()
        }
    }
}

impl App {
    /// A pane of the selected file.
    fn pane(&self, title: String, lines: Vec<LineChange>, area: Rect) -> (r: DiffPane)
        requires
            self.current_file_idx < self.file_names@.len(),
        ensures
            r.deep_view() == self.deep_view().pane(title@, lines.deep_view(), area),
    {
        let focused = self.focused_pane == Pane::DiffContent;
        assert(self.deep_view().file_names[self.current_file_idx as int]
            == self.file_names@[self.current_file_idx as int]@);
        DiffPane {
            title,
            lines,
            filename: self.file_names[self.current_file_idx].clone(),
            scroll: self.scroll(),
            h_scroll: self.h_scroll(),
            wrap: self.wrap_mode,
            focused,
            area,
            cursor: if focused {
                Some(self.diff_cursor)
            } else {
                None
            },
            selection: self.selection_range(),
        }
    }

    /// The two sides of the selected file next to each other.
    pub fn render_side_by_side(
        &self,
        base_area: Rect,
        head_area: Rect,
        cache: &mut HighlightCache,
    ) -> (r: Vec<Draw>)
        requires
            old(cache).valid(),
        ensures
            final(cache).valid(),
            final(cache).syntaxes() == old(cache).syntaxes(),
            final(cache).themes() == old(cache).themes(),
            self.deep_view().shows_sides(
                r.deep_view(),
                base_area,
                head_area,
                old(cache).syntaxes(),
                old(cache).themes(),
            ),
    {
        let ghost v = self.deep_view();
        let mut r: Vec<Draw> = Vec::new();
        assert(r.deep_view() =~= Seq::<DrawView>::empty());
        let file = match self.current_file() {
            Some(f) => f,
            None => return r,
        };
        let sides = match self.file_changes.look_up(file.as_str()) {
            Some(s) => s,
            None => return r,
        };
        let (b, h) = align::align_lines(sides.0.as_slice(), sides.1.as_slice());
        proof {
            align::law_aligned_lengths(sides.0.deep_view(), sides.1.deep_view());
            assert(b.deep_view().len() == b@.len());
            assert(h.deep_view().len() == h@.len());
        }
        let (left, right) = if self.wrap_mode {
            let least: u16 = if base_area.width < head_area.width {
                base_area.width
            } else {
                head_area.width
            };
            align::pad_aligned_for_wrap(b, h, least.saturating_sub(2) as usize)
        } else {
            (b, h)
        };
        assert((left.deep_view(), right.deep_view()) == v.two_sides(base_area, head_area));
        let (base_src, head_src) = match self.full_content.look_up(file.as_str()) {
            Some(texts) => (Some(&texts.0), Some(&texts.1)),
            None => (None, None),
        };
        assert(base_src.deep_view() == source_of(v, file@, false));
        assert(head_src.deep_view() == source_of(v, file@, true));
        let base_pane = self.pane(self.left_label.clone(), left, base_area);
        let head_pane = self.pane(self.right_label.clone(), right, head_area);
        let base_drawn = base_pane.render_diff_pane(&self.theme, cache, base_src);
        let head_drawn = head_pane.render_diff_pane(&self.theme, cache, head_src);
        draw::add_all(&mut r, base_drawn);
        draw::add_all(&mut r, head_drawn);
        proof {
            assert(r.deep_view() =~= base_drawn.deep_view() + head_drawn.deep_view());
            assert(v.has_diff());
        }
        r
    }

    /// The diff of the selected file in one pane.
    pub fn render_unified_diff(&self, area: Rect, cache: &mut HighlightCache) -> (r: Vec<Draw>)
        requires
            old(cache).valid(),
        ensures
            final(cache).valid(),
            final(cache).syntaxes() == old(cache).syntaxes(),
            final(cache).themes() == old(cache).themes(),
            self.deep_view().shows_unified(
                r.deep_view(),
                area,
                old(cache).syntaxes(),
                old(cache).themes(),
            ),
    {
        let ghost v = self.deep_view();
        let none: Vec<Draw> = Vec::new();
        assert(none.deep_view() =~= Seq::<DrawView>::empty());
        let file = match self.current_file() {
            Some(f) => f,
            None => return none,
        };
        let sides = match self.file_changes.look_up(file.as_str()) {
            Some(s) => s,
            None => return none,
        };
        let lines = align::build_unified_lines(sides.0.as_slice(), sides.1.as_slice());
        let head_src = match self.full_content.look_up(file.as_str()) {
            Some(texts) => Some(&texts.1),
            None => None,
        };
        assert(head_src.deep_view() == source_of(v, file@, true));
        let title = text::cat3(self.left_label.as_str(), " vs ", self.right_label.as_str());
        let pane = self.pane(title, lines, area);
        pane.render_diff_pane(&self.theme, cache, head_src)
    }
}

/// A scrollbar is shown where there is more than fits. Its mark is at the start where
/// nothing is scrolled, and at the end where the last row is shown.
pub proof fn law_scrollbar(p: PaneView)
    ensures
        p.rows() <= p.visible() ==> p.scrollbar() == Seq::<DrawView>::empty(),
        p.rows() > p.visible() ==> p.scrollbar().len() == 1 && (
        p.scrollbar()[0] matches DrawView::Scrollbar { length, position, .. } && {
            &&& length + p.visible() == p.rows()
            &&& p.scroll <= length ==> position == p.scroll
            &&& p.scroll > length ==> position == length
        }),
{
}

/// The title of a pane names it, says that lines are wrapped or how far they are
/// scrolled to the side, and how far down the pane is where it can be
/// scrolled.
pub proof fn law_pane_title(p: PaneView, rows: usize, visible: usize)
    ensures
        ({
            let end = if p.wrap {
                " \u{2502} wrap "@
            } else if p.h_scroll == 0 {
                " "@
            } else {
                " \u{2192}"@ + text::decimal(p.h_scroll as nat) + " "@
            };
            &&& rows <= visible ==> pane_title(p, rows, visible) == " "@ + p.title + end
            &&& rows > visible && p.scroll + visible >= rows ==> pane_title(p, rows, visible)
                == " "@ + p.title + (" ("@ + text::decimal(100) + "%)"@) + end
            &&& rows > visible && p.scroll == 0 ==> pane_title(p, rows, visible) == " "@ + p.title
                + (" ("@ + text::decimal(0) + "%)"@) + end
        }),
{
    assert(" "@ + p.title + Seq::<char>::empty() =~= " "@ + p.title);
    if rows > visible {
        let most = rows - visible;
        assert(most * 100 / most == 100) by (nonlinear_arith)
            requires
                most > 0,
        ;
        assert(0int * 100 / most == 0) by (nonlinear_arith)
            requires
                most > 0,
        ;
    }
}

} // verus!
