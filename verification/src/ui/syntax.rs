//! Highlighting of the lines of a diff.
use vstd::prelude::*;
use super::align;
use super::draw;
use super::draw::{Line, LineView, Style};
use super::grammar;
use super::grammar::Parts;
use super::panels;
use super::theme::{Color, Theme, ThemeView};
use syntect::easy::HighlightLines;
use syntect::highlighting::Theme as SyntaxTheme;
use syntect::highlighting::ThemeSet;
use syntect::parsing::{SyntaxReference, SyntaxSet};
use crate::text;

pub use super::cache::{highlight_line_changes, highlight_line_changes_split, HighlightCache};

verus! {

// ---------------------------------------------------------------------------
// Lines of code

/// The parts of a line in their colours. A line that could not be divided is
/// one part.
pub open spec fn painted(parts: Option<Parts>, code: Seq<char>, bg: Option<Color>) -> LineView {
    match parts {
        Some(p) => p.map_values(
            |part: (Color, Seq<char>)|
                draw::styled(part.1, Style { fg: Some(part.0), bg, bold: false }),
        ),
        None => seq![draw::styled(code, Style { fg: None, bg, bold: false })],
    }
}

/// The parts of a line in their colours.
fn paint(parts: Option<Vec<(Color, String)>>, code: &str, bg: Option<Color>) -> (r: Line)
    ensures
        r.deep_view() == painted(parts.deep_view(), code@, bg),
{
    match parts {
        Some(p) => {
            let ghost want = painted(Some(p.deep_view()), code@, bg);
            let mut r: Line = Vec::new();
            for i in 0..p.len()
                invariant
                    want == painted(Some(p.deep_view()), code@, bg),
                    r.deep_view() == want.take(i as int),
            {
                let ghost before = r.deep_view();
                let s = draw::span(
                    p[i].1.as_str(),
                    Style { fg: Some(p[i].0), bg, bold: false },
                );
                r.push(s);
                proof {
                    assert(p.deep_view()[i as int] == (p@[i as int].0, p@[i as int].1@));
                    assert(r.deep_view() =~= before.push(want[i as int]));
                    assert(want.take(i + 1) =~= before.push(want[i as int]));
                }
            }
            assert(want.take(want.len() as int) =~= want);
            r
        },
        None => panels::line1(draw::span(code, Style { fg: None, bg, bold: false })),
    }
}

/// The text of a line.
pub open spec fn shown(line: LineView) -> Seq<char>
    decreases line.len(),
{
    if line.len() == 0 {
        seq![]
    } else {
        shown(line.drop_last()) + line.last().text
    }
}

proof fn lemma_shown(parts: Parts, code: Seq<char>, bg: Option<Color>)
    ensures
        shown(painted(Some(parts), code, bg)) == grammar::spelled(parts),
    decreases parts.len(),
{
    let line = painted(Some(parts), code, bg);
    if parts.len() > 0 {
        lemma_shown(parts.drop_last(), code, bg);
        assert(line.drop_last() =~= painted(Some(parts.drop_last()), code, bg));
    }
}

pub proof fn lemma_shown_one(span: draw::SpanView)
    ensures
        shown(seq![span]) == span.text,
{
    assert(seq![span].drop_last() =~= seq![]);
    assert(shown(seq![]) + span.text =~= span.text);
}

/// What a highlighted line shows: nothing but its code from the start on, and
/// the whole of it where it could not be divided.
pub open spec fn shows_code(line: LineView, parts: Option<Parts>, code: Seq<char>) -> bool {
    shown(line).is_prefix_of(code) && (parts is None ==> shown(line) == code)
}

proof fn lemma_shows_code(parts: Option<Parts>, code: Seq<char>, bg: Option<Color>)
    requires
        parts matches Some(p) ==> grammar::spelled(p).is_prefix_of(code),
    ensures
        shows_code(painted(parts, code, bg), parts, code),
{
    match parts {
        Some(p) => lemma_shown(p, code, bg),
        None => lemma_shown_one(draw::styled(code, Style { fg: None, bg, bold: false })),
    }
}

/// Highlights a line of code.
pub fn highlight_code(
    code: &str,
    highlighter: &mut HighlightLines<'static>,
    syntaxes: &SyntaxSet,
) -> (r: Line)
    requires
        grammar::made_for(*old(highlighter)) == *syntaxes,
    ensures
        r.deep_view() == painted(
            grammar::highlighted(*old(highlighter), *syntaxes, code@).0,
            code@,
            None,
        ),
        shows_code(
            r.deep_view(),
            grammar::highlighted(*old(highlighter), *syntaxes, code@).0,
            code@,
        ),
        *final(highlighter) == grammar::highlighted(*old(highlighter), *syntaxes, code@).1,
        grammar::made_for(*final(highlighter)) == *syntaxes,
{
    let parts = grammar::highlight_line(highlighter, syntaxes, code);
    proof {
        lemma_shows_code(parts.deep_view(), code@, None);
    }
    paint(parts, code, None)
}

/// Highlights a line of code on a background.
fn highlight_code_with_bg(
    code: &str,
    highlighter: &mut HighlightLines<'static>,
    syntaxes: &SyntaxSet,
    bg: Color,
) -> (r: Line)
    requires
        grammar::made_for(*old(highlighter)) == *syntaxes,
    ensures
        r.deep_view() == painted(
            grammar::highlighted(*old(highlighter), *syntaxes, code@).0,
            code@,
            Some(bg),
        ),
        shows_code(
            r.deep_view(),
            grammar::highlighted(*old(highlighter), *syntaxes, code@).0,
            code@,
        ),
        *final(highlighter) == grammar::highlighted(*old(highlighter), *syntaxes, code@).1,
        grammar::made_for(*final(highlighter)) == *syntaxes,
{
    let parts = grammar::highlight_line(highlighter, syntaxes, code);
    proof {
        lemma_shows_code(parts.deep_view(), code@, Some(bg));
    }
    paint(parts, code, Some(bg))
}

// ---------------------------------------------------------------------------
// Lines of a diff

/// The colours of the marks of a diff.
#[derive(Clone, Copy, Debug, PartialEq, Eq, Structural)]
pub struct Marks {
    pub fg_line_num: Color,
    pub bg_removed: Color,
    pub bg_added: Color,
    pub fg_removed_marker: Color,
    pub fg_added_marker: Color,
}

/// What highlighting takes from a theme.
pub struct Scheme {
    pub syntax_theme: Seq<char>,
    pub is_dark: bool,
    pub marks: Marks,
}

/// What highlighting takes from a theme.
pub open spec fn scheme(t: ThemeView) -> Scheme {
    Scheme {
        syntax_theme: t.syntax_theme,
        is_dark: t.is_dark,
        marks: Marks {
            fg_line_num: t.fg_line_num,
            bg_removed: t.bg_removed,
            bg_added: t.bg_added,
            fg_removed_marker: t.fg_removed_marker,
            fg_added_marker: t.fg_added_marker,
        },
    }
}

/// The colours of the marks of a diff.
pub fn marks_of(t: &Theme) -> (r: Marks)
    ensures
        r == scheme(t.deep_view()).marks,
{
    Marks {
        fg_line_num: t.fg_line_num,
        bg_removed: t.bg_removed,
        bg_added: t.bg_added,
        fg_removed_marker: t.fg_removed_marker,
        fg_added_marker: t.fg_added_marker,
    }
}

/// The theme by which code is highlighted: the one that is asked for, else one
/// that is as dark or light, else the first.
pub open spec fn theme_for(themes: ThemeSet, s: Scheme) -> Option<SyntaxTheme> {
    let m = grammar::themes_in(themes);
    let fallback = if s.is_dark {
        "base16-ocean.dark"@
    } else {
        "base16-ocean.light"@
    };
    if m.dom().contains(s.syntax_theme) {
        Some(m[s.syntax_theme])
    } else if m.dom().contains(fallback) {
        Some(m[fallback])
    } else {
        grammar::first_of(m)
    }
}

/// The theme by which code is highlighted.
fn choose_theme(themes: &'static ThemeSet, theme: &Theme) -> (r: Option<&'static SyntaxTheme>)
    ensures
        match r {
            Some(t) => theme_for(*themes, scheme(theme.deep_view())) == Some(*t),
            None => theme_for(*themes, scheme(theme.deep_view())) is None,
        },
{
    if let Some(t) = grammar::theme_named(themes, theme.syntax_theme.as_str()) {
        return Some(t);
    }
    let fallback = if theme.is_dark {
        "base16-ocean.dark"
    } else {
        "base16-ocean.light"
    };
    if let Some(t) = grammar::theme_named(themes, fallback) {
        return Some(t);
    }
    let first = grammar::first_theme(themes);
    proof {
        let m = grammar::themes_in(*themes);
        if let Some(t) = first {
            let k = choose|k: Seq<char>| #[trigger] grammar::is_first(m, k) && *t == m[k];
            let other = choose|k: Seq<char>| grammar::is_first(m, k);
            grammar::lemma_first_unique(m, k, other);
            assert(m.dom().contains(k));
        }
    }
    first
}

/// A highlighter that reads the lines of a diff one after the other. It keeps
/// what a line leaves open (a comment, a string) for the next.
pub enum LineHighlighter {
    /// Highlights by a syntax.
    Syntect { hl: HighlightLines<'static>, syntaxes: &'static SyntaxSet, marks: Marks },
    /// Draws lines as they are: there is no theme.
    Plain,
}

/// The code of a line, without its mark.
pub open spec fn code_of(line: Seq<char>) -> Seq<char> {
    if align::starts(line, '-') || align::starts(line, '+') || align::starts(line, ' ') {
        line.skip(1)
    } else {
        line
    }
}

/// A line with nothing on it.
pub open spec fn blank() -> LineView {
    seq![draw::styled(""@, draw::plain())]
}

impl LineHighlighter {
    /// Whether the highlighter is used with the syntaxes that it was made for.
    pub open spec fn valid(self) -> bool {
        match self {
            LineHighlighter::Syntect { hl, syntaxes, .. } => grammar::made_for(hl) == *syntaxes,
            LineHighlighter::Plain => true,
        }
    }

    /// The highlighter after a line of code.
    pub open spec fn fed(self, code: Seq<char>) -> LineHighlighter {
        match self {
            LineHighlighter::Syntect { hl, syntaxes, marks } => LineHighlighter::Syntect {
                hl: grammar::highlighted(hl, *syntaxes, code).1,
                syntaxes,
                marks,
            },
            LineHighlighter::Plain => LineHighlighter::Plain,
        }
    }

    /// The highlighter after a line of a diff. A row that only fills a gap
    /// leaves it as it is.
    pub open spec fn after(self, num: usize, line: Seq<char>) -> LineHighlighter {
        if num == 0 {
            self
        } else {
            self.fed(code_of(line))
        }
    }

    /// The number and the mark of a line.
    pub open spec fn gutter(self, num: usize, line: Seq<char>) -> LineView {
        if num == 0 {
            blank()
        } else {
            match self {
                LineHighlighter::Plain => seq![
                    draw::styled(text::padded_decimal(num as nat, 4) + "   "@, draw::plain()),
                ],
                LineHighlighter::Syntect { marks, .. } => {
                    let number = text::padded_decimal(num as nat, 4) + " "@;
                    if align::starts(line, '-') {
                        seq![
                            draw::styled(
                                number,
                                draw::badge(marks.fg_line_num, marks.bg_removed),
                            ),
                            draw::styled(
                                "- "@,
                                draw::over(
                                    draw::bold(marks.fg_removed_marker),
                                    marks.bg_removed,
                                ),
                            ),
                        ]
                    } else if align::starts(line, '+') {
                        seq![
                            draw::styled(number, draw::badge(marks.fg_line_num, marks.bg_added)),
                            draw::styled(
                                "+ "@,
                                draw::over(draw::bold(marks.fg_added_marker), marks.bg_added),
                            ),
                        ]
                    } else {
                        seq![
                            draw::styled(number, draw::ink(marks.fg_line_num)),
                            draw::styled("  "@, draw::plain()),
                        ]
                    }
                },
            }
        }
    }

    /// The code of a line, highlighted.
    pub open spec fn content(self, num: usize, line: Seq<char>) -> LineView {
        if num == 0 {
            blank()
        } else {
            match self {
                LineHighlighter::Plain => seq![draw::styled(line, draw::plain())],
                LineHighlighter::Syntect { hl, syntaxes, marks } => painted(
                    grammar::highlighted(hl, *syntaxes, code_of(line)).0,
                    code_of(line),
                    if align::starts(line, '-') {
                        Some(marks.bg_removed)
                    } else if align::starts(line, '+') {
                        Some(marks.bg_added)
                    } else {
                        None
                    },
                ),
            }
        }
    }
}

/// The highlighter at the start of a file with this syntax.
pub open spec fn started(
    syntax: SyntaxReference,
    syntaxes: &'static SyntaxSet,
    themes: ThemeSet,
    s: Scheme,
) -> LineHighlighter {
    match theme_for(themes, s) {
        Some(t) => LineHighlighter::Syntect {
            hl: grammar::fresh(syntax, t),
            syntaxes,
            marks: s.marks,
        },
        None => LineHighlighter::Plain,
    }
}

/// The syntax of a file: the one that was found or else plain text.
pub open spec fn chosen(found: Option<SyntaxReference>, syntaxes: SyntaxSet) -> SyntaxReference {
    match found {
        Some(s) => s,
        None => grammar::plain_text(syntaxes),
    }
}

/// The syntax of a file: the one that was found or else plain text.
pub fn choose_syntax(
    found: Option<&'static SyntaxReference>,
    syntaxes: &'static SyntaxSet,
) -> (r: &'static SyntaxReference)
    requires
        grammar::has_plain_text(*syntaxes),
        found matches Some(s) ==> grammar::home(*s) == *syntaxes,
    ensures
        *r == chosen(grammar::found_in(found), *syntaxes),
        grammar::home(*r) == *syntaxes,
{
    match found {
        Some(s) => s,
        None => grammar::plain_text_syntax(syntaxes),
    }
}

/// Whether `first` is the highlighter at the start of a file of this name, by
/// a syntax that may be found for it.
pub open spec fn is_start(
    first: LineHighlighter,
    filename: Seq<char>,
    syntaxes: &'static SyntaxSet,
    themes: ThemeSet,
    s: Scheme,
) -> bool {
    exists|found: Option<SyntaxReference>| #[trigger]
        grammar::may_find(*syntaxes, filename, found) && first == started(
            chosen(found, *syntaxes),
            syntaxes,
            themes,
            s,
        )
}

/// Whether only one syntax may be found for a file of this name, or none, as
/// while the file on disk stays as it is.
pub open spec fn found_once(syntaxes: SyntaxSet, filename: Seq<char>) -> bool {
    forall|x: Option<SyntaxReference>, y: Option<SyntaxReference>| #[trigger]
        grammar::may_find(syntaxes, filename, x) && #[trigger] grammar::may_find(
            syntaxes,
            filename,
            y,
        ) ==> x == y
}

/// Where only one syntax may be found for a file, it is read with one
/// highlighter only.
pub proof fn lemma_start_once(
    a: LineHighlighter,
    b: LineHighlighter,
    filename: Seq<char>,
    syntaxes: &'static SyntaxSet,
    themes: ThemeSet,
    s: Scheme,
)
    requires
        found_once(*syntaxes, filename),
        is_start(a, filename, syntaxes, themes, s),
        is_start(b, filename, syntaxes, themes, s),
    ensures
        a == b,
{
    let x = choose|x: Option<SyntaxReference>| #[trigger]
        grammar::may_find(*syntaxes, filename, x) && a == started(
            chosen(x, *syntaxes),
            syntaxes,
            themes,
            s,
        );
    let y = choose|y: Option<SyntaxReference>| #[trigger]
        grammar::may_find(*syntaxes, filename, y) && b == started(
            chosen(y, *syntaxes),
            syntaxes,
            themes,
            s,
        );
    assert(x == y);
}

impl LineHighlighter {
    /// What the highlighted code of a line shows: nothing where the row only
    /// fills a gap, the line as it is where there is no theme, and else the
    /// code.
    pub open spec fn shows_line(self, num: usize, line: Seq<char>, content: LineView) -> bool {
        if num == 0 {
            shown(content).len() == 0
        } else {
            match self {
                LineHighlighter::Plain => shown(content) == line,
                LineHighlighter::Syntect { hl, syntaxes, .. } => shows_code(
                    content,
                    grammar::highlighted(hl, *syntaxes, code_of(line)).0,
                    code_of(line),
                ),
            }
        }
    }

    /// The highlighter at the start of a file with this syntax.
    pub fn with_syntax(
        syntax: &SyntaxReference,
        syntaxes: &'static SyntaxSet,
        themes: &'static ThemeSet,
        theme: &Theme,
    ) -> (r: Self)
        requires
            grammar::home(*syntax) == *syntaxes,
        ensures
            r.valid(),
            r == started(*syntax, syntaxes, *themes, scheme(theme.deep_view())),
    {
        match choose_theme(themes, theme) {
            Some(t) => LineHighlighter::Syntect {
                hl: grammar::new_highlighter(syntax, t),
                syntaxes,
                marks: marks_of(theme),
            },
            None => LineHighlighter::Plain,
        }
    }

    /// The highlighter at the start of a file, with the syntax that its name
    /// or its first line tells, or else as plain text. Which one it is depends
    /// on what is on disk.
    pub fn new(
        filename: &str,
        syntaxes: &'static SyntaxSet,
        themes: &'static ThemeSet,
        theme: &Theme,
    ) -> (r: Self)
        requires
            grammar::has_plain_text(*syntaxes),
        ensures
            r.valid(),
            is_start(r, filename@, syntaxes, *themes, scheme(theme.deep_view())),
    {
        let found = grammar::syntax_for_file(syntaxes, filename);
        let syntax = choose_syntax(found, syntaxes);
        Self::with_syntax(syntax, syntaxes, themes, theme)
    }

    /// Reads a line of the file that the diff does not show.
    pub fn prime(&mut self, raw: &str)
        requires
            old(self).valid(),
        ensures
            final(self).valid(),
            *final(self) == old(self).fed(raw@),
    {
        if let LineHighlighter::Syntect { hl, syntaxes, .. } = self {
            let _parts = grammar::highlight_line(hl, syntaxes, raw);
        }
    }

    /// Highlights a line of the diff: its number and mark, and its code. What
    /// is drawn of the code is nothing but the code.
    pub fn next(&mut self, line_num: usize, line: &str) -> (r: (Line, Line))
        requires
            old(self).valid(),
        ensures
            final(self).valid(),
            *final(self) == old(self).after(line_num, line@),
            r.0.deep_view() == old(self).gutter(line_num, line@),
            r.1.deep_view() == old(self).content(line_num, line@),
            old(self).shows_line(line_num, line@, r.1.deep_view()),
    {
        proof {
            reveal_strlit("");
            lemma_shown_one(draw::styled(""@, draw::plain()));
            lemma_shown_one(draw::styled(line@, draw::plain()));
        }
        if line_num == 0 {
            return (
                panels::line1(draw::span("", draw::plain())),
                panels::line1(draw::span("", draw::plain())),
            );
        }
        let digits = text::padded_decimal_of(line_num, 4);
        let cs = text::chars_of(line);
        let first: Option<char> = if cs.len() > 0 {
            Some(cs[0])
        } else {
            None
        };
        let code = if first == Some('-') || first == Some('+') || first == Some(' ') {
            let rest = text::string_between(cs.as_slice(), 1, cs.len());
            assert(rest@ =~= line@.skip(1));
            rest
        } else {
            line.to_owned()
        };
        assert(code@ == code_of(line@));
        match self {
            LineHighlighter::Plain => (
                panels::line1(draw::span_of(text::cat2(digits.as_str(), "   "), draw::plain())),
                panels::line1(draw::span(line, draw::plain())),
            ),
            LineHighlighter::Syntect { hl, syntaxes, marks } => {
                let number = text::cat2(digits.as_str(), " ");
                if first == Some('-') {
                    (
                        panels::line2(
                            draw::span_of(
                                number,
                                draw::badge(marks.fg_line_num, marks.bg_removed),
                            ),
                            draw::span(
                                "- ",
                                draw::over(
                                    draw::bold(marks.fg_removed_marker),
                                    marks.bg_removed,
                                ),
                            ),
                        ),
                        highlight_code_with_bg(code.as_str(), hl, syntaxes, marks.bg_removed),
                    )
                } else if first == Some('+') {
                    (
                        panels::line2(
                            draw::span_of(number, draw::badge(marks.fg_line_num, marks.bg_added)),
                            draw::span(
                                "+ ",
                                draw::over(draw::bold(marks.fg_added_marker), marks.bg_added),
                            ),
                        ),
                        highlight_code_with_bg(code.as_str(), hl, syntaxes, marks.bg_added),
                    )
                } else {
                    (
                        panels::line2(
                            draw::span_of(number, draw::ink(marks.fg_line_num)),
                            draw::span("  ", draw::plain()),
                        ),
                        highlight_code(code.as_str(), hl, syntaxes),
                    )
                }
            },
        }
    }
}

/// Code is highlighted by the theme that is asked for. Where there is none of that name
/// it is one that is as dark or as light.
pub proof fn law_theme_chosen(themes: ThemeSet, t: ThemeView)
    ensures
        ({
            let m = grammar::themes_in(themes);
            let chosen = theme_for(themes, scheme(t));
            &&& m.dom().contains(t.syntax_theme) ==> chosen == Some(m[t.syntax_theme])
            &&& !m.dom().contains(t.syntax_theme) && t.is_dark && m.dom().contains(
                "base16-ocean.dark"@,
            ) ==> chosen == Some(m["base16-ocean.dark"@])
            &&& !m.dom().contains(t.syntax_theme) && !t.is_dark && m.dom().contains(
                "base16-ocean.light"@,
            ) ==> chosen == Some(m["base16-ocean.light"@])
        }),
{
}

/// A highlighter reads the code of every line, without its mark, and nothing of a
/// gap.
pub proof fn law_code_read(h: LineHighlighter, num: usize, code: Seq<char>, mark: char)
    requires
        mark == '+' || mark == '-' || mark == ' ',
    ensures
        h.after(0, code) == h,
        num > 0 ==> h.after(num, seq![mark] + code) == h.fed(code),
{
    assert((seq![mark] + code).skip(1) =~= code);
}

} // verus!
