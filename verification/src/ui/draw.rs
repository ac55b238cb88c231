//! What is drawn.
use vstd::prelude::*;
use super::theme::Color;

verus! {

/// A part of the screen.
#[derive(Clone, Copy, Debug, PartialEq, Eq, Structural)]
pub struct Rect {
    pub x: u16,
    pub y: u16,
    pub width: u16,
    pub height: u16,
}

/// How text is drawn.
#[derive(Clone, Copy, Debug, PartialEq, Eq, Structural)]
pub struct Style {
    pub fg: Option<Color>,
    pub bg: Option<Color>,
    pub bold: bool,
}

/// As it comes.
#[verifier::allow_in_spec]
pub fn plain() -> Style
    returns
        (Style { fg: None, bg: None, bold: false }),
{
    Style { fg: None, bg: None, bold: false }
}

/// In a colour.
#[verifier::allow_in_spec]
pub fn ink(fg: Color) -> Style
    returns
        (Style { fg: Some(fg), bg: None, bold: false }),
{
    Style { fg: Some(fg), bg: None, bold: false }
}

/// In a colour, and bold.
#[verifier::allow_in_spec]
pub fn bold(fg: Color) -> Style
    returns
        (Style { fg: Some(fg), bg: None, bold: true }),
{
    Style { fg: Some(fg), bg: None, bold: true }
}

/// On a background.
#[verifier::allow_in_spec]
pub fn paper(bg: Color) -> Style
    returns
        (Style { fg: None, bg: Some(bg), bold: false }),
{
    Style { fg: None, bg: Some(bg), bold: false }
}

/// In a colour on a background.
#[verifier::allow_in_spec]
pub fn badge(fg: Color, bg: Color) -> Style
    returns
        (Style { fg: Some(fg), bg: Some(bg), bold: false }),
{
    Style { fg: Some(fg), bg: Some(bg), bold: false }
}

/// The same on another background.
#[verifier::allow_in_spec]
pub fn over(style: Style, bg: Color) -> Style
    returns
        (Style { fg: style.fg, bg: Some(bg), bold: style.bold }),
{
    Style { fg: style.fg, bg: Some(bg), bold: style.bold }
}

/// Text in one style.
#[derive(Debug, PartialEq, Eq)]
pub struct Span {
    pub text: String,
    pub style: Style,
}

/// Text in one style, as a mathematical value.
pub struct SpanView {
    pub text: Seq<char>,
    pub style: Style,
}

/// A line of text.
pub type Line = Vec<Span>;

/// A line of text, as a mathematical value.
pub type LineView = Seq<SpanView>;

impl DeepView for Span {
    type V = SpanView;

    open spec fn deep_view(&self) -> SpanView {
        SpanView { text: self.text@, style: self.style }
    }
}

impl Clone for Span {
    fn clone(&self) -> (r: Self)
        ensures
            r.deep_view() == self.deep_view(),
    {
        Span { text: self.text.clone(), style: self.style }
    }
}

/// Text in one style.
pub open spec fn styled(text: Seq<char>, style: Style) -> SpanView {
    SpanView { text, style }
}

/// Text in one style.
pub fn span(text: &str, style: Style) -> (r: Span)
    ensures
        r.deep_view() == styled(text@, style),
{
    Span { text: text.to_owned(), style }
}

/// Text in one style.
pub fn span_of(text: String, style: Style) -> (r: Span)
    ensures
        r.deep_view() == styled(text@, style),
{
    Span { text, style }
}

/// A copy of a line.
pub fn copy_line(line: &Line) -> (r: Line)
    ensures
        r.deep_view() == line.deep_view(),
{
    let mut r: Line = Vec::new();
    for i in 0..line.len()
        invariant
            r.deep_view() == line.deep_view().take(i as int),
    {
        let ghost before = r.deep_view();
        let s = line[i].clone();
        r.push(s);
        assert(r.deep_view() =~= before.push(line.deep_view()[i as int]));
        assert(line.deep_view().take(i + 1) =~= before.push(line.deep_view()[i as int]));
    }
    assert(line.deep_view().take(line@.len() as int) =~= line.deep_view());
    r
}

/// A border with its titles.
#[derive(Debug, PartialEq, Eq)]
pub struct Border {
    /// The title at the top.
    pub title: Line,
    /// The title at the bottom.
    pub bottom: Line,
    /// How the border is drawn.
    pub edge: Style,
    /// How what is inside is drawn.
    pub inside: Style,
}

/// A border with its titles, as a mathematical value.
pub struct BorderView {
    pub title: LineView,
    pub bottom: LineView,
    pub edge: Style,
    pub inside: Style,
}

impl DeepView for Border {
    type V = BorderView;

    open spec fn deep_view(&self) -> BorderView {
        BorderView {
            title: self.title.deep_view(),
            bottom: self.bottom.deep_view(),
            edge: self.edge,
            inside: self.inside,
        }
    }
}

/// Where lines of text stand.
#[derive(Clone, Copy, Debug, PartialEq, Eq, Structural)]
pub enum Align {
    Left,
    Center,
    Right,
}

/// What becomes of lines that are too long.
#[derive(Clone, Copy, Debug, PartialEq, Eq, Structural)]
pub enum Wrap {
    /// They are cut off.
    Cut,
    /// They are wrapped.
    Keep,
    /// They are wrapped, without the white space at their start.
    Trim,
}

/// Something to be drawn.
#[derive(Debug, PartialEq, Eq)]
pub enum Draw {
    /// A part of the screen in one style.
    Fill { area: Rect, style: Style },
    /// A part of the screen with nothing in it.
    Clear { area: Rect },
    /// A border.
    Frame { area: Rect, border: Border },
    /// Lines of text, from row `top` and column `left` on.
    Text {
        area: Rect,
        lines: Vec<Line>,
        style: Style,
        align: Align,
        wrap: Wrap,
        top: u16,
        left: u16,
    },
    /// A list with a row selected, scrolled so that it is shown.
    List { area: Rect, rows: Vec<Line>, selected: Option<usize>, highlight: Style },
    /// A scrollbar of this length at this position.
    Scrollbar { area: Rect, length: usize, position: usize },
}

/// Something to be drawn, as a mathematical value.
pub enum DrawView {
    Fill { area: Rect, style: Style },
    Clear { area: Rect },
    Frame { area: Rect, border: BorderView },
    Text {
        area: Rect,
        lines: Seq<LineView>,
        style: Style,
        align: Align,
        wrap: Wrap,
        top: u16,
        left: u16,
    },
    List { area: Rect, rows: Seq<LineView>, selected: Option<usize>, highlight: Style },
    Scrollbar { area: Rect, length: usize, position: usize },
}

impl DeepView for Draw {
    type V = DrawView;

    open spec fn deep_view(&self) -> DrawView {
        match self {
            Draw::Fill { area, style } => DrawView::Fill { area: *area, style: *style },
            Draw::Clear { area } => DrawView::Clear { area: *area },
            Draw::Frame { area, border } => DrawView::Frame {
                area: *area,
                border: border.deep_view(),
            },
            Draw::Text { area, lines, style, align, wrap, top, left } => DrawView::Text {
                area: *area,
                lines: lines.deep_view(),
                style: *style,
                align: *align,
                wrap: *wrap,
                top: *top,
                left: *left,
            },
            Draw::List { area, rows, selected, highlight } => DrawView::List {
                area: *area,
                rows: rows.deep_view(),
                selected: *selected,
                highlight: *highlight,
            },
            Draw::Scrollbar { area, length, position } => DrawView::Scrollbar {
                area: *area,
                length: *length,
                position: *position,
            },
        }
    }
}

/// One line of text in its place.
pub open spec fn one_line(area: Rect, line: LineView, style: Style) -> DrawView {
    DrawView::Text {
        area,
        lines: seq![line],
        style,
        align: Align::Left,
        wrap: Wrap::Cut,
        top: 0,
        left: 0,
    }
}

/// One line of text in its place.
pub fn draw_line(area: Rect, line: Line, style: Style) -> (r: Draw)
    ensures
        r.deep_view() == one_line(area, line.deep_view(), style),
{
    let mut lines: Vec<Line> = Vec::new();
    lines.push(line);
    assert(lines.deep_view() =~= seq![line.deep_view()]);
    Draw::Text {
        area,
        lines,
        style,
        align: Align::Left,
        wrap: Wrap::Cut,
        top: 0,
        left: 0,
    }
}

/// What lies inside a border.
pub open spec fn inner(area: Rect) -> Rect {
    let x = if area.x + 1 <= area.x + area.width {
        area.x + 1
    } else {
        area.x + area.width
    };
    let y = if area.y + 1 <= area.y + area.height {
        area.y + 1
    } else {
        area.y + area.height
    };
    Rect {
        x: if x <= 65535 {
            x as u16
        } else {
            65535
        },
        y: if y <= 65535 {
            y as u16
        } else {
            65535
        },
        width: if area.width >= 2 {
            (area.width - 2) as u16
        } else {
            0
        },
        height: if area.height >= 2 {
            (area.height - 2) as u16
        } else {
            0
        },
    }
}

/// What lies inside a border.
pub fn inside(area: Rect) -> (r: Rect)
    ensures
        r == inner(area),
{
    Rect {
        x: if area.width > 0 {
            area.x.saturating_add(1)
        } else {
            area.x
        },
        y: if area.height > 0 {
            area.y.saturating_add(1)
        } else {
            area.y
        },
        width: area.width.saturating_sub(2),
        height: area.height.saturating_sub(2),
    }
}

/// Adds `more` to `out`.
pub fn add_all(out: &mut Vec<Draw>, more: Vec<Draw>)
    ensures
        final(out).deep_view() == old(out).deep_view() + more.deep_view(),
{
    let mut rest = more;
    out.append(&mut rest);
    assert(out.deep_view() =~= old(out).deep_view() + more.deep_view());
}

/// A border takes one row or column on each side.
pub proof fn law_inner(area: Rect)
    requires
        area.x + area.width <= 65535,
        area.y + area.height <= 65535,
    ensures
        area.width >= 2 ==> inner(area).x == area.x + 1 && inner(area).width == area.width - 2,
        area.height >= 2 ==> inner(area).y == area.y + 1 && inner(area).height == area.height - 2,
        area.width < 2 ==> inner(area).width == 0,
        area.height < 2 ==> inner(area).height == 0,
{
}

} // verus!
