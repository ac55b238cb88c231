//! What can be read on the panes of a diff.
use vstd::prelude::*;
use super::align;
use super::cache;
use super::cache::{Reading, Source};
use super::draw;
use super::draw::{DrawView, LineView, SpanView};
use super::pane;
use super::pane::PaneView;
use super::syntax;
use super::syntax::{LineHighlighter, Marks};
use super::theme::{Color, ThemeView};
use super::types::AppView;
use syntect::highlighting::ThemeSet;
use syntect::parsing::SyntaxSet;
use crate::diff::SideView;
use crate::text;

verus! {

// ---------------------------------------------------------------------------
// One row

/// What is written before the code of a line: its number, flush right in four
/// columns, and its mark.
pub open spec fn number_and_mark(line: (usize, Seq<char>)) -> Seq<char> {
    text::padded_decimal(line.0 as nat, 4) + " "@ + if align::starts(line.1, '-') {
        "- "@
    } else if align::starts(line.1, '+') {
        "+ "@
    } else {
        "  "@
    }
}

/// The colour behind a line.
pub open spec fn colour_behind(line: (usize, Seq<char>), marks: Marks) -> Option<Color> {
    if align::starts(line.1, '-') {
        Some(marks.bg_removed)
    } else if align::starts(line.1, '+') {
        Some(marks.bg_added)
    } else {
        None
    }
}

/// The marks by which a highlighter draws, where it has a theme.
pub open spec fn marks_in(hl: LineHighlighter) -> Option<Marks> {
    match hl {
        LineHighlighter::Syntect { marks, .. } => Some(marks),
        LineHighlighter::Plain => None,
    }
}

/// A number of up to four digits takes four columns, and a longer one as many as
/// it has digits. It stands at their end.
pub proof fn law_flush_right(n: nat, width: nat)
    ensures
        ({
            let s = text::padded_decimal(n, width);
            let d = text::decimal(n);
            &&& d.is_suffix_of(s)
            &&& s.len() == if d.len() < width {
                width
            } else {
                d.len()
            }
            &&& forall|i: int| 0 <= i < s.len() - d.len() ==> #[trigger] s[i] == ' '
        }),
{
    let s = text::padded_decimal(n, width);
    let d = text::decimal(n);
    assert(s.subrange(s.len() - d.len(), s.len() as int) =~= d);
}

proof fn lemma_shown_two(a: SpanView, b: SpanView)
    ensures
        syntax::shown(seq![a, b]) == a.text + b.text,
{
    assert(seq![a, b].drop_last() =~= seq![a]);
    syntax::lemma_shown_one(a);
}

/// Each line is shown behind its number and its mark, and a row that only fills a
/// gap shows nothing.
pub proof fn law_gutter_reads(hl: LineHighlighter, line: (usize, Seq<char>))
    ensures
        line.0 == 0 ==> syntax::shown(hl.gutter(0, line.1)) == Seq::<char>::empty(),
        line.0 == 0 ==> syntax::shown(hl.content(0, line.1)) == Seq::<char>::empty(),
        line.0 != 0 && marks_in(hl) is Some ==> syntax::shown(hl.gutter(line.0, line.1))
            == number_and_mark(line),
        line.0 != 0 && marks_in(hl) is None ==> syntax::shown(hl.gutter(line.0, line.1))
            == text::padded_decimal(line.0 as nat, 4) + "   "@,
        line.0 != 0 && marks_in(hl) is None ==> syntax::shown(hl.content(line.0, line.1))
            == line.1,
{
    reveal_strlit("");
    let blank = draw::styled(""@, draw::plain());
    syntax::lemma_shown_one(blank);
    assert(""@ =~= Seq::<char>::empty());
    if line.0 != 0 {
        let g = hl.gutter(line.0, line.1);
        let c = hl.content(line.0, line.1);
        if marks_in(hl) is Some {
            assert(g =~= seq![g[0], g[1]]);
            lemma_shown_two(g[0], g[1]);
        } else {
            assert(g =~= seq![g[0]]);
            assert(c =~= seq![c[0]]);
            syntax::lemma_shown_one(g[0]);
            syntax::lemma_shown_one(c[0]);
        }
    }
}

/// Removed lines stand on the colour of removed lines, added ones on that of added
/// lines, number, mark and code alike, and the others on none.
pub proof fn law_rows_coloured(hl: LineHighlighter, line: (usize, Seq<char>), i: int)
    requires
        line.0 != 0,
        marks_in(hl) is Some,
        0 <= i,
    ensures
        ({
            let g = hl.gutter(line.0, line.1);
            let c = hl.content(line.0, line.1);
            &&& i < g.len() ==> g[i].style.bg == colour_behind(line, marks_in(hl)->0)
            &&& i < c.len() ==> c[i].style.bg == colour_behind(line, marks_in(hl)->0)
        }),
{
}

proof fn lemma_primed_marks(hl: LineHighlighter, lines: Seq<Seq<char>>, from: int, to: int)
    ensures
        marks_in(cache::primed(hl, lines, from, to)) == marks_in(hl),
    decreases to - from,
{
    if from < to {
        lemma_primed_marks(hl, lines, from, to - 1);
    }
}

proof fn lemma_ready_marks(r: Reading, num: usize, source: Source)
    ensures
        marks_in(r.ready(num, source)) == marks_in(r.hl),
{
    if let Some(lines) = source {
        lemma_primed_marks(
            r.hl,
            lines,
            cache::prime_start(r.upto, num, lines.len()),
            cache::prime_end(num, lines.len()),
        );
    }
}

proof fn lemma_reading_marks(first: LineHighlighter, lines: SideView, source: Source, n: int)
    ensures
        marks_in(cache::reading(first, lines, source, n).hl) == marks_in(first),
    decreases n,
{
    if n > 0 {
        lemma_reading_marks(first, lines, source, n - 1);
        lemma_ready_marks(
            cache::reading(first, lines, source, n - 1),
            lines[n - 1].0,
            source,
        );
    }
}

/// What a row with a line's number and mark reads.
pub open spec fn gutter_reads(row: LineView, line: (usize, Seq<char>), coloured: bool) -> bool {
    syntax::shown(row) == if line.0 == 0 {
        Seq::<char>::empty()
    } else if coloured {
        number_and_mark(line)
    } else {
        text::padded_decimal(line.0 as nat, 4) + "   "@
    }
}

proof fn lemma_gutter_row(first: LineHighlighter, lines: SideView, source: Source, i: int)
    ensures
        gutter_reads(
            cache::gutter_row(first, lines, source, i),
            lines[i],
            marks_in(first) is Some,
        ),
{
    lemma_reading_marks(first, lines, source, i);
    let r = cache::reading(first, lines, source, i);
    lemma_ready_marks(r, lines[i].0, source);
    law_gutter_reads(r.ready(lines[i].0, source), lines[i]);
}

proof fn lemma_shaded(line: LineView, bg: Color)
    ensures
        syntax::shown(pane::shaded(line, bg)) == syntax::shown(line),
        pane::shaded(line, bg).len() == line.len(),
        forall|i: int| 0 <= i < line.len() ==> (#[trigger] pane::shaded(line, bg)[i]).style.bg
            == Some(bg),
    decreases line.len(),
{
    if line.len() > 0 {
        lemma_shaded(line.drop_last(), bg);
        assert(pane::shaded(line, bg).drop_last() =~= pane::shaded(line.drop_last(), bg));
    }
}

// ---------------------------------------------------------------------------
// One pane

/// How many lines are left from line `from` on, but at most `most`.
pub open spec fn left_from(from: usize, most: usize, len: nat) -> nat {
    if from >= len {
        0
    } else if from + most <= len {
        most as nat
    } else {
        (len - from) as nat
    }
}

/// Whether `row` is `plain`, on the colour of the selection where line `i` is
/// selected or under the cursor.
pub open spec fn is_row(row: LineView, plain: LineView, p: PaneView, t: ThemeView, i: int) -> bool {
    if (p.selection matches Some((lo, hi)) && lo <= i <= hi) || (p.cursor matches Some(c) && c
        == i) {
        &&& syntax::shown(row) == syntax::shown(plain)
        &&& forall|k: int| 0 <= k < row.len() ==> (#[trigger] row[k]).style.bg == Some(
            t.bg_selection,
        )
    } else {
        row == plain
    }
}

/// Whether a text drawn in a pane that is not wrapped shows in row `k` line
/// `scroll + k` of `rows`, for as many rows as there is room and lines, and no
/// other rows.
pub open spec fn shows_rows(
    drawn: DrawView,
    rows: Seq<LineView>,
    p: PaneView,
    t: ThemeView,
    left: u16,
) -> bool {
    &&& drawn matches DrawView::Text { area, lines, top, left: column, .. }
    &&& area.y == draw::inner(p.area).y
    &&& area.height == draw::inner(p.area).height
    &&& top == 0
    &&& column == left
    &&& lines.len() == left_from(p.scroll, draw::inner(p.area).height as usize, rows.len())
    &&& forall|k: int| 0 <= k < lines.len() ==> is_row(
        #[trigger] lines[k],
        rows[p.scroll + k],
        p,
        t,
        p.scroll + k,
    )
}

proof fn lemma_rows_shown(
    p: PaneView,
    t: ThemeView,
    rows: Seq<LineView>,
    part: Seq<LineView>,
)
    requires
        !p.wrap,
        rows.len() == p.lines.len(),
        rows.len() <= usize::MAX,
        part == rows.subrange(
            cache::at_most(p.scroll as int, p.lines.len()),
            cache::at_most(p.scroll + draw::inner(p.area).height, p.lines.len()),
        ),
    ensures
        ({
            let lines = pane::with_selection(part, p.scroll, p.cursor, p.selection, t.bg_selection);
            &&& lines.len() == left_from(
                p.scroll,
                draw::inner(p.area).height as usize,
                rows.len(),
            )
            &&& forall|k: int| 0 <= k < lines.len() ==> is_row(
                #[trigger] lines[k],
                rows[p.scroll + k],
                p,
                t,
                p.scroll + k,
            )
        }),
{
    let lines = pane::with_selection(part, p.scroll, p.cursor, p.selection, t.bg_selection);
    assert forall|k: int| 0 <= k < lines.len() implies is_row(
        #[trigger] lines[k],
        rows[p.scroll + k],
        p,
        t,
        p.scroll + k,
    ) by {
        assert(part[k] == rows[p.scroll + k]);
        lemma_shaded(part[k], t.bg_selection);
    }
}

/// In a pane that is not wrapped, row `k` shows line `scroll + k` of its lines, its
/// number and mark on the left and its code next to them, for every row of the
/// pane that there is a line for, and there are no other rows. The number and
/// mark of a line are those of that line, wherever the pane is scrolled.
pub proof fn law_rows_shown(
    p: PaneView,
    r: Seq<DrawView>,
    t: ThemeView,
    source: Source,
    syntaxes: &'static SyntaxSet,
    themes: ThemeSet,
)
    requires
        !p.wrap,
        p.lines.len() <= usize::MAX,
        p.shows(r, t, source, syntaxes, themes),
    ensures
        exists|first: LineHighlighter| #[trigger]
            syntax::is_start(first, p.filename, syntaxes, themes, syntax::scheme(t)) && ({
                let n = p.lines.len() as int;
                let gutter = Seq::new(
                    p.lines.len(),
                    |i: int| cache::gutter_row(first, p.lines, source, i),
                );
                let code = Seq::new(
                    p.lines.len(),
                    |i: int| cache::content_row(first, p.lines, source, i),
                );
                &&& r.len() >= 2
                &&& shows_rows(r[1], gutter, p, t, 0)
                &&& draw::inner(p.area).width > 7 ==> r.len() >= 3 && shows_rows(
                    r[2],
                    code,
                    p,
                    t,
                    if p.h_scroll < 65535 {
                        p.h_scroll as u16
                    } else {
                        65535
                    },
                )
                &&& forall|i: int| 0 <= i < n ==> gutter_reads(
                    #[trigger] gutter[i],
                    p.lines[i],
                    marks_in(first) is Some,
                )
            }),
{
    let first = choose|first: LineHighlighter| #[trigger]
        syntax::is_start(first, p.filename, syntaxes, themes, syntax::scheme(t)) && r == p.drawn(
            t,
            p.gutter(first, source),
            p.content(first, source),
        );
    let gutter = Seq::new(p.lines.len(), |i: int| cache::gutter_row(first, p.lines, source, i));
    let code = Seq::new(p.lines.len(), |i: int| cache::content_row(first, p.lines, source, i));
    let from = cache::at_most(p.scroll as int, p.lines.len());
    let to = cache::at_most(p.scroll + draw::inner(p.area).height, p.lines.len());
    assert(p.gutter(first, source) =~= gutter.subrange(from, to));
    assert(p.content(first, source) =~= code.subrange(from, to));
    lemma_rows_shown(p, t, gutter, p.gutter(first, source));
    lemma_rows_shown(p, t, code, p.content(first, source));
    let body = p.body(t, p.gutter(first, source), p.content(first, source));
    assert(r[1] == body[0]);
    if draw::inner(p.area).width > 7 {
        assert(r[2] == body[1]);
    }
    assert forall|i: int| 0 <= i < p.lines.len() implies gutter_reads(
        #[trigger] gutter[i],
        p.lines[i],
        marks_in(first) is Some,
    ) by {
        lemma_gutter_row(first, p.lines, source, i);
    }
}

proof fn lemma_rows_two(lines: SideView, i: int, columns: usize)
    requires
        0 <= i < lines.len(),
    ensures
        align::side_rows(lines.take(i + 1), columns) == align::side_rows(lines.take(i), columns)
            + align::line_rows(lines[i], columns),
{
    assert(lines.take(i + 1).drop_last() =~= lines.take(i));
}

proof fn lemma_filling(lines: SideView, columns: usize, needed: usize, i: int)
    requires
        0 <= i <= lines.len(),
    ensures
        ({
            let n = pane::filling(
                lines,
                columns,
                needed,
                i,
                align::side_rows(lines.take(i), columns),
            );
            &&& i <= n <= lines.len()
            &&& n == lines.len() || align::side_rows(lines.take(n), columns) >= needed
        }),
    decreases lines.len() - i,
{
    if i < lines.len() && align::side_rows(lines.take(i), columns) < needed {
        lemma_rows_two(lines, i, columns);
        lemma_filling(lines, columns, needed, i + 1);
    }
}

/// In a wrapped pane the lines are drawn from the first on, each behind its number
/// and mark, and scrolled. They are all lines, or enough to fill the rows down to
/// the end of the pane.
pub proof fn law_wrapped_shown(
    p: PaneView,
    r: Seq<DrawView>,
    t: ThemeView,
    source: Source,
    syntaxes: &'static SyntaxSet,
    themes: ThemeSet,
)
    requires
        p.wrap,
        p.lines.len() <= usize::MAX,
        p.scroll < 65535,
        draw::inner(p.area).width > 0,
        draw::inner(p.area).height > 0,
        p.shows(r, t, source, syntaxes, themes),
    ensures
        exists|first: LineHighlighter| #[trigger]
            syntax::is_start(first, p.filename, syntaxes, themes, syntax::scheme(t)) && ({
                let inner = draw::inner(p.area);
                &&& r.len() >= 2
                &&& r[1] matches DrawView::Text { area, lines, top, left, .. }
                &&& area == inner
                &&& top == p.scroll
                &&& left == 0
                &&& lines.len() <= p.lines.len()
                &&& lines.len() == p.lines.len() || align::side_rows(
                    p.lines.take(lines.len() as int),
                    inner.width as usize,
                ) >= p.scroll + inner.height
                &&& forall|k: int| 0 <= k < lines.len() ==> is_row(
                    #[trigger] lines[k],
                    cache::gutter_row(first, p.lines, source, k) + cache::content_row(
                        first,
                        p.lines,
                        source,
                        k,
                    ),
                    p,
                    t,
                    k,
                )
            }),
{
    let first = choose|first: LineHighlighter| #[trigger]
        syntax::is_start(first, p.filename, syntaxes, themes, syntax::scheme(t)) && r == p.drawn(
            t,
            p.gutter(first, source),
            p.content(first, source),
        );
    let inner = draw::inner(p.area);
    let columns = inner.width as usize;
    let needed = (p.scroll + inner.height) as usize;
    let n = pane::filling(p.lines, columns, needed, 0, 0);
    assert(p.lines.take(0) =~= seq![]);
    lemma_filling(p.lines, columns, needed, 0);
    let g = p.gutter(first, source);
    let c = p.content(first, source);
    let body = p.body(t, g, c);
    assert(r[1] == body[0]);
    let both = pane::side_by_side(g, c);
    let lines = pane::with_selection(both, 0, p.cursor, p.selection, t.bg_selection);
    let m = lines.len() as int;
    assert(m == p.line_count());
    if m < p.lines.len() {
        lemma_side_rows_grow(p.lines, n, m, columns);
    }
    assert forall|k: int| 0 <= k < lines.len() implies is_row(
        #[trigger] lines[k],
        cache::gutter_row(first, p.lines, source, k) + cache::content_row(
            first,
            p.lines,
            source,
            k,
        ),
        p,
        t,
        k,
    ) by {
        lemma_shaded(both[k], t.bg_selection);
    }
}

proof fn lemma_side_rows_grow(lines: SideView, n: int, m: int, columns: usize)
    requires
        0 <= n <= m <= lines.len(),
    ensures
        align::side_rows(lines.take(n), columns) <= align::side_rows(lines.take(m), columns),
    decreases m - n,
{
    if n < m {
        lemma_rows_two(lines, m - 1, columns);
        lemma_side_rows_grow(lines, n, m - 1, columns);
    }
}

/// How far a pane is scrolled is told from 0 percent at the top to 100 at the end,
/// and more the further it is scrolled.
pub proof fn law_percent(scroll: usize, further: usize, most: usize)
    requires
        most > 0,
        scroll <= further,
    ensures
        pane::percent(0, most) == 0,
        scroll >= most ==> pane::percent(scroll, most) == 100,
        pane::percent(scroll, most) <= pane::percent(further, most) <= 100,
{
    let a = pane::lesser(scroll, most) as int;
    let b = pane::lesser(further, most) as int;
    let m = most as int;
    assert(0int * 100 / m == 0) by (nonlinear_arith)
        requires
            m > 0,
    ;
    assert(m * 100 / m == 100) by (nonlinear_arith)
        requires
            m > 0,
    ;
    assert(0 <= a * 100 / m <= b * 100 / m <= 100) by (nonlinear_arith)
        requires
            0 <= a <= b <= m,
            m > 0,
    ;
}

// ---------------------------------------------------------------------------
// The panes of the selected file

/// Next to each other, the pane on the left has the title and the lines of the
/// left side, the one on the right those of the right side. Both are scrolled
/// alike, to where the selected file is scrolled.
pub proof fn law_sides_shown(
    a: AppView,
    r: Seq<DrawView>,
    base_area: draw::Rect,
    head_area: draw::Rect,
    syntaxes: &'static SyntaxSet,
    themes: ThemeSet,
    f: Seq<char>,
    base: SideView,
    head: SideView,
)
    requires
        a.current_file() == Some(f),
        a.file_changes.dom().contains(f),
        a.file_changes[f] == (base, head),
        a.scroll_positions.dom().contains(f),
        align::gapless(base),
        align::gapless(head),
        !a.wrap_mode,
        a.shows_sides(r, base_area, head_area, syntaxes, themes),
    ensures
        exists|left: PaneView, right: PaneView, x: Seq<DrawView>, y: Seq<DrawView>| #[trigger]
            left.shows(x, a.theme, pane::source_of(a, f, false), syntaxes, themes) && #[trigger]
            right.shows(y, a.theme, pane::source_of(a, f, true), syntaxes, themes) && r == x + y
                && left.title == a.left_label && right.title == a.right_label && left.area
                == base_area && right.area == head_area && left.filename == f && right.filename
                == f && align::without_gaps(left.lines) == base && align::without_gaps(right.lines)
                == head && left.lines.len() == right.lines.len() && left.scroll
                == a.scroll_positions[f] && right.scroll == a.scroll_positions[f] && !left.wrap
                && !right.wrap,
{
    let (b, h) = a.two_sides(base_area, head_area);
    let left = a.pane(a.left_label, b, base_area);
    let right = a.pane(a.right_label, h, head_area);
    let (x, y) = choose|x: Seq<DrawView>, y: Seq<DrawView>| #[trigger]
        left.shows(x, a.theme, pane::source_of(a, f, false), syntaxes, themes)
            && #[trigger] right.shows(
            y,
            a.theme,
            pane::source_of(a, f, true),
            syntaxes,
            themes,
        ) && r == x + y;
    align::law_aligned_keeps(base, head);
    align::law_aligned_lengths(base, head);
    assert(left.shows(x, a.theme, pane::source_of(a, f, false), syntaxes, themes));
    assert(right.shows(y, a.theme, pane::source_of(a, f, true), syntaxes, themes));
}

} // verus!
