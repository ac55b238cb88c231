//! The windows.
use vstd::prelude::*;
use vstd::utf8::*;
use super::draw;
use super::draw::{Align, Border, BorderView, Draw, DrawView, Line, LineView, Rect, Style, Wrap};
use super::layout;
use super::panels;
use super::theme::{Theme, ThemeView};
use super::types::{App, AppMode, AppView};
use crate::text;

verus! {

/// The border of a window.
pub open spec fn window_border(
    t: ThemeView,
    title: Seq<char>,
    bottom: LineView,
    edge: Style,
) -> BorderView {
    BorderView {
        title: seq![draw::styled(title, draw::bold(t.accent))],
        bottom,
        edge,
        inside: draw::paper(t.bg_modal),
    }
}

/// What is drawn before the content of a window.
pub open spec fn window_back(
    t: ThemeView,
    screen: Rect,
    area: Rect,
    border: BorderView,
) -> Seq<DrawView> {
    seq![
        DrawView::Fill { area: screen, style: draw::paper(t.bg_modal_dim) },
        DrawView::Clear { area },
        DrawView::Frame { area, border },
    ]
}

/// What is drawn before the content of a window.
fn window(t: &Theme, screen: Rect, area: Rect, title: &str, bottom: Line, edge: Style) -> (r: Vec<
    Draw,
>)
    ensures
        r.deep_view() == window_back(
            t.deep_view(),
            screen,
            area,
            window_border(t.deep_view(), title@, bottom.deep_view(), edge),
        ),
{
    let ghost wanted = window_back(
        t.deep_view(),
        screen,
        area,
        window_border(t.deep_view(), title@, bottom.deep_view(), edge),
    );
    let mut r: Vec<Draw> = Vec::new();
    r.push(Draw::Fill { area: screen, style: draw::paper(t.bg_modal_dim) });
    r.push(Draw::Clear { area });
    r.push(
        Draw::Frame {
            area,
            border: Border {
                title: panels::line1(draw::span(title, draw::bold(t.accent))),
                bottom,
                edge,
                inside: draw::paper(t.bg_modal),
            },
        },
    );
    assert(r.deep_view() =~= wanted);
    r
}

/// A key of a window and what it does, with a blank before it.
pub open spec fn key_hint(t: ThemeView, key: Seq<char>, what: Seq<char>) -> LineView {
    seq![
        draw::styled(key, draw::badge(t.fg_badge, t.fg_key)),
        draw::styled(what, draw::ink(t.fg_dim)),
    ]
}

/// A key of a window and what it does.
fn key_line(t: &Theme, key: &str, what: &str) -> (r: Line)
    ensures
        r.deep_view() == key_hint(t.deep_view(), key@, what@),
{
    panels::line2(
        draw::span(key, draw::badge(t.fg_badge, t.fg_key)),
        draw::span(what, draw::ink(t.fg_dim)),
    )
}

/// One blank.
pub open spec fn gap() -> LineView {
    seq![draw::styled(" "@, draw::plain())]
}

/// One blank.
fn gap_line() -> (r: Line)
    ensures
        r.deep_view() == gap(),
{
    panels::line1(draw::span(" ", draw::plain()))
}

/// The smaller of two.
pub open spec fn min16(a: u16, b: u16) -> u16 {
    if a < b {
        a
    } else {
        b
    }
}

/// The larger of two.
pub open spec fn max16(a: u16, b: u16) -> u16 {
    if a < b {
        b
    } else {
        a
    }
}

/// `n`, cut down to 16 bits.
fn low(n: usize) -> (r: u16)
    ensures
        r == layout::low_bits(n as nat),
{
    (n % 65536) as u16
}

/// `n` and 6 more, but not more than 16 bits hold.
pub open spec fn plus_six(n: u16) -> u16 {
    if n <= 65529 {
        (n + 6) as u16
    } else {
        65535
    }
}

// ---------------------------------------------------------------------------
// Rebase

/// The bytes of the longest line.
pub open spec fn longest(lines: Seq<Seq<char>>) -> nat
    decreases lines.len(),
{
    if lines.len() == 0 {
        0
    } else {
        let before = longest(lines.drop_last());
        let last = encode_utf8(lines.last()).len();
        if before < last {
            last
        } else {
            before
        }
    }
}

/// The width of the rebase window.
pub open spec fn notice_width(lines: Seq<Seq<char>>) -> u16 {
    min16(plus_six(layout::low_bits(longest(lines))), 70)
}

/// The height of the rebase window.
pub open spec fn notice_height(lines: Seq<Seq<char>>) -> u16 {
    min16(plus_six(layout::low_bits(lines.len())), 16)
}

/// The bytes of the longest line.
fn longest_line(lines: &Vec<String>) -> (r: usize)
    ensures
        r == longest(lines.deep_view()),
{
    let ghost all = lines.deep_view();
    let mut r: usize = 0;
    for i in 0..lines.len()
        invariant
            all == lines.deep_view(),
            r == longest(all.take(i as int)),
    {
        proof {
            assert(all.take(i + 1).drop_last() =~= all.take(i as int));
            assert(all.take(i + 1).last() == lines@[i as int]@);
        }
        let n: usize = lines[i].as_str().as_bytes().len();
        if r < n {
            r = n;
        }
    }
    assert(all.take(all.len() as int) =~= all);
    r
}

/// The size of the rebase window.
pub fn notice_size(message: &str) -> (r: (u16, u16))
    ensures
        r.0 == notice_width(text::text_lines(message@)),
        r.1 == notice_height(text::text_lines(message@)),
{
    let lines = text::lines(message);
    let wide: u16 = low(longest_line(&lines)).saturating_add(6);
    let high: u16 = low(lines.len()).saturating_add(6);
    (
        if wide < 70 {
            wide
        } else {
            70
        },
        if high < 16 {
            high
        } else {
            16
        },
    )
}

impl AppView {
    /// The rebase window: what is recommended, and the two keys. `parts` is
    /// where the two stand.
    pub open spec fn rebase_window(
        self,
        screen: Rect,
        area: Rect,
        parts: (Rect, Rect),
    ) -> Seq<DrawView> {
        let t = self.theme;
        match self.rebase_notification {
            Some(m) => window_back(
                t,
                screen,
                area,
                window_border(t, " Rebase Recommended "@, seq![], draw::ink(t.accent)),
            ) + seq![
                DrawView::Text {
                    area: parts.0,
                    lines: message_lines(m),
                    style: draw::ink(t.fg_normal),
                    align: Align::Center,
                    wrap: Wrap::Trim,
                    top: 0,
                    left: 0,
                },
                DrawView::Text {
                    area: parts.1,
                    lines: seq![
                        seq![
                            draw::styled(" r "@, draw::badge(t.fg_badge, t.fg_key)),
                            draw::styled(" Rebase now  "@, draw::ink(t.fg_normal)),
                            draw::styled(" i "@, draw::badge(t.fg_badge, t.fg_dim)),
                            draw::styled(" Ignore"@, draw::ink(t.fg_normal)),
                        ],
                    ],
                    style: draw::plain(),
                    align: Align::Center,
                    wrap: Wrap::Cut,
                    top: 0,
                    left: 0,
                },
            ],
            None => seq![],
        }
    }
}

/// The lines of a message, as they are.
pub open spec fn message_lines(m: Seq<char>) -> Seq<LineView> {
    text::text_lines(m).map_values(|line: Seq<char>| seq![draw::styled(line, draw::plain())])
}

/// The lines of a message, as they are.
fn lines_of_message(m: &str) -> (r: Vec<Line>)
    ensures
        r.deep_view() == message_lines(m@),
{
    let lines = text::lines(m);
    let ghost want = message_lines(m@);
    let mut r: Vec<Line> = Vec::new();
    for i in 0..lines.len()
        invariant
            lines.deep_view() == text::text_lines(m@),
            want == message_lines(m@),
            r.deep_view() == want.take(i as int),
    {
        let ghost before = r.deep_view();
        r.push(panels::line1(draw::span(lines[i].as_str(), draw::plain())));
        proof {
            assert(lines.deep_view()[i as int] == lines@[i as int]@);
            assert(r.deep_view() =~= before.push(want[i as int]));
            assert(want.take(i + 1) =~= before.push(want[i as int]));
        }
    }
    assert(want.take(want.len() as int) =~= want);
    r
}

impl App {
    /// The rebase window.
    pub fn render_rebase_notification(
        &self,
        screen: Rect,
        area: Rect,
        parts: (Rect, Rect),
    ) -> (r: Vec<Draw>)
        ensures
            r.deep_view() == self.deep_view().rebase_window(screen, area, parts),
    {
        let t = &self.theme;
        let m = match &self.rebase_notification {
            Some(m) => m,
            None => {
                let none: Vec<Draw> = Vec::new();
                assert(none.deep_view() =~= Seq::<DrawView>::empty());
                return none;
            },
        };
        let mut r = window(
            t,
            screen,
            area,
            " Rebase Recommended ",
            panels::line0(),
            draw::ink(t.accent),
        );
        r.push(
            Draw::Text {
                area: parts.0,
                lines: lines_of_message(m.as_str()),
                style: draw::ink(t.fg_normal),
                align: Align::Center,
                wrap: Wrap::Trim,
                top: 0,
                left: 0,
            },
        );
        let buttons = panels::line_cat(
            panels::line2(
                draw::span(" r ", draw::badge(t.fg_badge, t.fg_key)),
                draw::span(" Rebase now  ", draw::ink(t.fg_normal)),
            ),
            panels::line2(
                draw::span(" i ", draw::badge(t.fg_badge, t.fg_dim)),
                draw::span(" Ignore", draw::ink(t.fg_normal)),
            ),
        );
        let mut lines: Vec<Line> = Vec::new();
        lines.push(buttons);
        proof {
            let tv = t.deep_view();
            assert(buttons.deep_view() =~= seq![
                draw::styled(" r "@, draw::badge(tv.fg_badge, tv.fg_key)),
                draw::styled(" Rebase now  "@, draw::ink(tv.fg_normal)),
                draw::styled(" i "@, draw::badge(tv.fg_badge, tv.fg_dim)),
                draw::styled(" Ignore"@, draw::ink(tv.fg_normal)),
            ]);
            assert(lines.deep_view() =~= seq![buttons.deep_view()]);
        }
        r.push(
            Draw::Text {
                area: parts.1,
                lines,
                style: draw::plain(),
                align: Align::Center,
                wrap: Wrap::Cut,
                top: 0,
                left: 0,
            },
        );
        assert(r.deep_view() =~= self.deep_view().rebase_window(screen, area, parts));
        r
    }
}

// ---------------------------------------------------------------------------
// Help

/// A row of the help window.
#[derive(Clone, Copy)]
pub enum HelpRow {
    /// Nothing.
    Empty,
    /// A line across.
    Rule,
    /// A title.
    Section(&'static str),
    /// A key and what it does.
    Key(&'static str, &'static str),
}

/// A row of the help window, as a mathematical value.
pub enum HelpView {
    Empty,
    Rule,
    Section(Seq<char>),
    Key(Seq<char>, Seq<char>),
}

impl DeepView for HelpRow {
    type V = HelpView;

    open spec fn deep_view(&self) -> HelpView {
        match self {
            HelpRow::Empty => HelpView::Empty,
            HelpRow::Rule => HelpView::Rule,
            HelpRow::Section(title) => HelpView::Section(title@),
            HelpRow::Key(key, what) => HelpView::Key(key@, what@),
        }
    }
}

/// The width of the help window.
pub const HELP_WIDTH: u16 = 56;

/// A row of the help window in its colours.
pub open spec fn help_line(t: ThemeView, row: HelpView) -> LineView {
    match row {
        HelpView::Empty => seq![draw::styled(""@, draw::plain())],
        HelpView::Rule => seq![
            draw::styled(text::repeat('\u{2500}', 54), draw::ink(t.fg_separator)),
        ],
        HelpView::Section(title) => seq![
            draw::styled("  \u{25cf} "@, draw::ink(t.accent)),
            draw::styled(title, draw::bold(t.accent)),
        ],
        HelpView::Key(key, what) => seq![
            draw::styled("    "@, draw::plain()),
            draw::styled(
                " "@ + text::centered(key, 8) + " "@,
                draw::badge(t.fg_bright, t.bg_key_badge),
            ),
            draw::styled("  "@, draw::plain()),
            draw::styled(what, draw::ink(t.fg_normal)),
        ],
    }
}

/// A row of the help window in its colours.
fn line_of_help(t: &Theme, row: HelpRow) -> (r: Line)
    ensures
        r.deep_view() == help_line(t.deep_view(), row.deep_view()),
{
    match row {
        HelpRow::Empty => panels::line1(draw::span("", draw::plain())),
        HelpRow::Rule => panels::line1(
            draw::span_of(text::repeated('\u{2500}', 54), draw::ink(t.fg_separator)),
        ),
        HelpRow::Section(title) => panels::line2(
            draw::span("  \u{25cf} ", draw::ink(t.accent)),
            draw::span(title, draw::bold(t.accent)),
        ),
        HelpRow::Key(key, what) => {
            let middle = text::centered_of(key, 8);
            let shown = text::cat3(" ", middle.as_str(), " ");
            let r = panels::line_cat(
                panels::line2(
                    draw::span("    ", draw::plain()),
                    draw::span_of(shown, draw::badge(t.fg_bright, t.bg_key_badge)),
                ),
                panels::line2(
                    draw::span("  ", draw::plain()),
                    draw::span(what, draw::ink(t.fg_normal)),
                ),
            );
            assert(r.deep_view() =~= help_line(t.deep_view(), row.deep_view()));
            r
        },
    }
}

/// The rows for moving about.
pub open spec fn help_moving() -> Seq<HelpView> {
    seq![
        HelpView::Empty,
        HelpView::Section("Navigation"@),
        HelpView::Empty,
        HelpView::Key("j / \u{2193}"@, "Move down / next item"@),
        HelpView::Key("k / \u{2191}"@, "Move up / previous item"@),
        HelpView::Key("PgDn"@, "Page down"@),
        HelpView::Key("PgUp"@, "Page up"@),
        HelpView::Key("Home"@, "Go to first"@),
        HelpView::Key("End"@, "Go to last"@),
        HelpView::Rule,
    ]
}

/// The rows for what the screen is used for.
pub open spec fn help_mode(mode: AppMode) -> Seq<HelpView> {
    match mode {
        AppMode::Rebase => seq![
            HelpView::Empty,
            HelpView::Section("Rebase"@),
            HelpView::Empty,
            HelpView::Key("a"@, "Accept current change"@),
            HelpView::Key("x"@, "Reject current change"@),
            HelpView::Key("n"@, "Next file with changes"@),
            HelpView::Key("p"@, "Previous file with changes"@),
            HelpView::Key("c"@, "Commit accepted changes"@),
            HelpView::Key("Esc"@, "Back to diff mode"@),
            HelpView::Rule,
            HelpView::Empty,
            HelpView::Section("General"@),
            HelpView::Empty,
            HelpView::Key("?"@, "Toggle this help"@),
        ],
        AppMode::Log => seq![
            HelpView::Empty,
            HelpView::Section("Log"@),
            HelpView::Empty,
            HelpView::Key("Enter"@, "View diff of selected commit"@),
            HelpView::Key("L"@, "Close log view"@),
            HelpView::Key("Esc / q"@, "Back to diff mode"@),
            HelpView::Rule,
            HelpView::Empty,
            HelpView::Section("General"@),
            HelpView::Empty,
            HelpView::Key("?"@, "Toggle this help"@),
        ],
        _ => seq![
            HelpView::Empty,
            HelpView::Section("Diff View"@),
            HelpView::Empty,
            HelpView::Key("Tab"@, "Toggle focus (files / diff)"@),
            HelpView::Key("h / \u{2190}"@, "Focus file list"@),
            HelpView::Key("l / \u{2192}"@, "Focus diff content"@),
            HelpView::Key("S-\u{2190}/\u{2192}"@, "Scroll diff horizontally"@),
            HelpView::Key("u"@, "Toggle unified / side-by-side"@),
            HelpView::Key("w"@, "Toggle word wrap"@),
            HelpView::Key("v"@, "Start/stop line selection"@),
            HelpView::Key("y"@, "Copy selection (or current line)"@),
            HelpView::Key("R"@, "Hide pure renames from file list"@),
            HelpView::Key("f"@, "Toggle full file / hunks view"@),
            HelpView::Key("t"@, "Toggle dark / light theme"@),
            HelpView::Key("T"@, "Toggle file tree / list view"@),
            HelpView::Key("c"@, "Commit (AI-generated message)"@),
            HelpView::Key("r"@, "Enter rebase mode"@),
            HelpView::Key("s"@, "Sync (pull --rebase, then push)"@),
            HelpView::Key("L"@, "Open commit log"@),
            HelpView::Rule,
            HelpView::Empty,
            HelpView::Section("General"@),
            HelpView::Empty,
            HelpView::Key("q / Esc"@, "Quit"@),
            HelpView::Key("?"@, "Toggle this help"@),
        ],
    }
}

/// The rows of the help window.
pub open spec fn help_rows(mode: AppMode) -> Seq<HelpView> {
    help_moving() + help_mode(mode)
}

/// The height of the help window: its rows and its borders.
pub open spec fn help_height(mode: AppMode) -> u16 {
    (help_rows(mode).len() + 2) as u16
}

/// Rows of the help window in their colours.
fn add_help(lines: &mut Vec<Line>, t: &Theme, rows: &[HelpRow])
    ensures
        final(lines).deep_view() == old(lines).deep_view() + rows.deep_view().map_values(
            |row: HelpView| help_line(t.deep_view(), row),
        ),
{
    let ghost start = lines.deep_view();
    let ghost want = rows.deep_view().map_values(|row: HelpView| help_line(t.deep_view(), row));
    proof {
        assert(lines.deep_view() =~= start + want.take(0));
    }
    for i in 0..rows.len()
        invariant
            want == rows.deep_view().map_values(|row: HelpView| help_line(t.deep_view(), row)),
            want.len() == rows@.len(),
            lines.deep_view() == start + want.take(i as int),
    {
        let ghost before = lines.deep_view();
        let line = line_of_help(t, rows[i]);
        lines.push(line);
        proof {
            assert(rows.deep_view()[i as int] == rows@[i as int].deep_view());
            assert(lines.deep_view() =~= before.push(line.deep_view()));
            assert(start + want.take(i + 1) =~= before.push(want[i as int]));
        }
    }
    assert(want.take(want.len() as int) =~= want);
}

/// The height of the help window.
pub fn help_size(mode: AppMode) -> (r: u16)
    ensures
        r == help_height(mode),
{
    match mode {
        AppMode::Rebase => 26,
        AppMode::Log => 23,
        _ => 37,
    }
}

/// The lines of the help window.
fn lines_of_help(t: &Theme, mode: AppMode) -> (r: Vec<Line>)
    ensures
        r.deep_view() == help_rows(mode).map_values(
            |row: HelpView| help_line(t.deep_view(), row),
        ),
{
    let mut lines: Vec<Line> = Vec::new();
    assert(lines.deep_view() =~= Seq::<LineView>::empty());
    let moving = [
        HelpRow::Empty,
        HelpRow::Section("Navigation"),
        HelpRow::Empty,
        HelpRow::Key("j / \u{2193}", "Move down / next item"),
        HelpRow::Key("k / \u{2191}", "Move up / previous item"),
        HelpRow::Key("PgDn", "Page down"),
        HelpRow::Key("PgUp", "Page up"),
        HelpRow::Key("Home", "Go to first"),
        HelpRow::Key("End", "Go to last"),
        HelpRow::Rule,
    ];
    let moving_rows: &[HelpRow] = &moving;
    assert(moving_rows.deep_view() =~= help_moving());
    add_help(&mut lines, t, moving_rows);
    match mode {
        AppMode::Rebase => {
            let rows = [
                HelpRow::Empty,
                HelpRow::Section("Rebase"),
                HelpRow::Empty,
                HelpRow::Key("a", "Accept current change"),
                HelpRow::Key("x", "Reject current change"),
                HelpRow::Key("n", "Next file with changes"),
                HelpRow::Key("p", "Previous file with changes"),
                HelpRow::Key("c", "Commit accepted changes"),
                HelpRow::Key("Esc", "Back to diff mode"),
                HelpRow::Rule,
                HelpRow::Empty,
                HelpRow::Section("General"),
                HelpRow::Empty,
                HelpRow::Key("?", "Toggle this help"),
            ];
            let mode_rows: &[HelpRow] = &rows;
            assert(mode_rows.deep_view() =~= help_mode(mode));
            add_help(&mut lines, t, mode_rows);
        },
        AppMode::Log => {
            let rows = [
                HelpRow::Empty,
                HelpRow::Section("Log"),
                HelpRow::Empty,
                HelpRow::Key("Enter", "View diff of selected commit"),
                HelpRow::Key("L", "Close log view"),
                HelpRow::Key("Esc / q", "Back to diff mode"),
                HelpRow::Rule,
                HelpRow::Empty,
                HelpRow::Section("General"),
                HelpRow::Empty,
                HelpRow::Key("?", "Toggle this help"),
            ];
            let mode_rows: &[HelpRow] = &rows;
            assert(mode_rows.deep_view() =~= help_mode(mode));
            add_help(&mut lines, t, mode_rows);
        },
        _ => {
            let rows = [
                HelpRow::Empty,
                HelpRow::Section("Diff View"),
                HelpRow::Empty,
                HelpRow::Key("Tab", "Toggle focus (files / diff)"),
                HelpRow::Key("h / \u{2190}", "Focus file list"),
                HelpRow::Key("l / \u{2192}", "Focus diff content"),
                HelpRow::Key("S-\u{2190}/\u{2192}", "Scroll diff horizontally"),
                HelpRow::Key("u", "Toggle unified / side-by-side"),
                HelpRow::Key("w", "Toggle word wrap"),
                HelpRow::Key("v", "Start/stop line selection"),
                HelpRow::Key("y", "Copy selection (or current line)"),
                HelpRow::Key("R", "Hide pure renames from file list"),
                HelpRow::Key("f", "Toggle full file / hunks view"),
                HelpRow::Key("t", "Toggle dark / light theme"),
                HelpRow::Key("T", "Toggle file tree / list view"),
                HelpRow::Key("c", "Commit (AI-generated message)"),
                HelpRow::Key("r", "Enter rebase mode"),
                HelpRow::Key("s", "Sync (pull --rebase, then push)"),
                HelpRow::Key("L", "Open commit log"),
                HelpRow::Rule,
                HelpRow::Empty,
                HelpRow::Section("General"),
                HelpRow::Empty,
                HelpRow::Key("q / Esc", "Quit"),
                HelpRow::Key("?", "Toggle this help"),
            ];
            let mode_rows: &[HelpRow] = &rows;
            assert(mode_rows.deep_view() =~= help_mode(mode));
            add_help(&mut lines, t, mode_rows);
        },
    }
    proof {
        let all = help_rows(mode).map_values(|row: HelpView| help_line(t.deep_view(), row));
        assert(lines.deep_view() =~= all);
    }
    lines
}

impl AppView {
    /// The help window.
    pub open spec fn help_window(self, screen: Rect, area: Rect) -> Seq<DrawView> {
        let t = self.theme;
        window_back(
            t,
            screen,
            area,
            window_border(
                t,
                " Keybindings "@,
                gap() + seq![draw::styled(" ? "@, draw::badge(t.fg_badge, t.fg_key))] + gap()
                    + key_hint(t, " Esc "@, " to close "@),
                draw::ink(t.border_modal),
            ),
        ) + seq![
            DrawView::Text {
                area: draw::inner(area),
                lines: help_rows(self.app_mode).map_values(|row: HelpView| help_line(t, row)),
                style: draw::paper(t.bg_modal),
                align: Align::Left,
                wrap: Wrap::Cut,
                top: 0,
                left: 0,
            },
        ]
    }
}

impl App {
    /// The help window.
    pub fn render_help_modal(&self, screen: Rect, area: Rect) -> (r: Vec<Draw>)
        ensures
            r.deep_view() == self.deep_view().help_window(screen, area),
    {
        let t = &self.theme;
        let key = panels::line1(draw::span(" ? ", draw::badge(t.fg_badge, t.fg_key)));
        let bottom = panels::line_cat(
            panels::line_cat(panels::line_cat(gap_line(), key), gap_line()),
            key_line(t, " Esc ", " to close "),
        );
        let mut r = window(
            t,
            screen,
            area,
            " Keybindings ",
            bottom,
            draw::ink(t.border_modal),
        );
        r.push(
            Draw::Text {
                area: draw::inside(area),
                lines: lines_of_help(t, self.app_mode),
                style: draw::paper(t.bg_modal),
                align: Align::Left,
                wrap: Wrap::Cut,
                top: 0,
                left: 0,
            },
        );
        assert(r.deep_view() =~= self.deep_view().help_window(screen, area));
        r
    }
}

// ---------------------------------------------------------------------------
// Commit

/// The width of the commit window.
pub open spec fn commit_width(screen: Rect) -> u16 {
    min16(
        78,
        if screen.width >= 2 {
            (screen.width - 2) as u16
        } else {
            0
        },
    )
}

/// The height of the commit window: the message and what is around it, but at
/// least 8 rows, and otherwise not more than the screen has.
pub open spec fn commit_height(message: Seq<char>, screen: Rect) -> u16 {
    let lines = text::text_lines(message).len();
    let room = max16(
        8,
        if screen.height >= 2 {
            (screen.height - 2) as u16
        } else {
            0
        },
    );
    let want = plus_six(
        layout::low_bits(
            if lines == 0 {
                1
            } else {
                lines
            },
        ),
    );
    max16(8, min16(want, room))
}

/// The size of the commit window.
pub fn commit_size(message: &str, screen: Rect) -> (r: (u16, u16))
    ensures
        r.0 == commit_width(screen),
        r.1 == commit_height(message@, screen),
{
    let lines = text::lines(message);
    let count: usize = if lines.len() == 0 {
        1
    } else {
        lines.len()
    };
    let want: u16 = low(count).saturating_add(6);
    let free: u16 = screen.height.saturating_sub(2);
    let room: u16 = if 8 < free {
        free
    } else {
        8
    };
    let cut: u16 = if want < room {
        want
    } else {
        room
    };
    let free_width: u16 = screen.width.saturating_sub(2);
    assert(lines.deep_view().len() == lines@.len());
    (
        if 78 < free_width {
            78
        } else {
            free_width
        },
        if 8 < cut {
            cut
        } else {
            8
        },
    )
}

/// Line `i` of a commit message. The first is emphasised.
pub open spec fn commit_line(t: ThemeView, lines: Seq<Seq<char>>, i: int) -> LineView {
    seq![
        draw::styled(
            lines[i],
            if i == 0 {
                draw::bold(t.fg_bright)
            } else {
                draw::ink(t.fg_normal)
            },
        ),
    ]
}

/// The lines of a commit message.
pub open spec fn commit_lines(t: ThemeView, message: Seq<char>) -> Seq<LineView> {
    let lines = text::text_lines(message);
    Seq::new(lines.len(), |i: int| commit_line(t, lines, i))
}

/// The lines of a commit message.
fn lines_of_commit(t: &Theme, message: &str) -> (r: Vec<Line>)
    ensures
        r.deep_view() == commit_lines(t.deep_view(), message@),
{
    let lines = text::lines(message);
    let ghost want = commit_lines(t.deep_view(), message@);
    let mut r: Vec<Line> = Vec::new();
    for i in 0..lines.len()
        invariant
            lines.deep_view() == text::text_lines(message@),
            want == commit_lines(t.deep_view(), message@),
            r.deep_view() == want.take(i as int),
    {
        let ghost before = r.deep_view();
        let style = if i == 0 {
            draw::bold(t.fg_bright)
        } else {
            draw::ink(t.fg_normal)
        };
        r.push(panels::line1(draw::span(lines[i].as_str(), style)));
        proof {
            assert(lines.deep_view()[i as int] == lines@[i as int]@);
            assert(r.deep_view() =~= before.push(want[i as int]));
            assert(want.take(i + 1) =~= before.push(want[i as int]));
        }
    }
    assert(want.take(want.len() as int) =~= want);
    r
}

impl AppView {
    /// The commit window.
    pub open spec fn commit_window(self, screen: Rect, area: Rect) -> Seq<DrawView> {
        let t = self.theme;
        match self.pending_commit_message {
            Some(m) => window_back(
                t,
                screen,
                area,
                window_border(
                    t,
                    " Commit message "@,
                    gap() + key_hint(t, " Enter "@, " commit  "@) + key_hint(
                        t,
                        " Esc "@,
                        " cancel "@,
                    ),
                    draw::ink(t.border_modal),
                ),
            ) + seq![
                DrawView::Text {
                    area: draw::inner(area),
                    lines: commit_lines(t, m),
                    style: draw::paper(t.bg_modal),
                    align: Align::Left,
                    wrap: Wrap::Keep,
                    top: 0,
                    left: 0,
                },
            ],
            None => seq![],
        }
    }
}

impl App {
    /// The commit window.
    pub fn render_commit_modal(&self, screen: Rect, area: Rect) -> (r: Vec<Draw>)
        ensures
            r.deep_view() == self.deep_view().commit_window(screen, area),
    {
        let t = &self.theme;
        let m = match &self.pending_commit_message {
            Some(m) => m,
            None => {
                let none: Vec<Draw> = Vec::new();
                assert(none.deep_view() =~= Seq::<DrawView>::empty());
                return none;
            },
        };
        let bottom = panels::line_cat(
            panels::line_cat(gap_line(), key_line(t, " Enter ", " commit  ")),
            key_line(t, " Esc ", " cancel "),
        );
        let mut r = window(
            t,
            screen,
            area,
            " Commit message ",
            bottom,
            draw::ink(t.border_modal),
        );
        r.push(
            Draw::Text {
                area: draw::inside(area),
                lines: lines_of_commit(t, m.as_str()),
                style: draw::paper(t.bg_modal),
                align: Align::Left,
                wrap: Wrap::Keep,
                top: 0,
                left: 0,
            },
        );
        assert(r.deep_view() =~= self.deep_view().commit_window(screen, area));
        r
    }
}

// ---------------------------------------------------------------------------
// Remotes

/// The width of the window of remotes.
pub const PICKER_WIDTH: u16 = 48;

impl AppView {
    /// The height of the window of remotes.
    pub open spec fn picker_height(self, screen: Rect) -> u16 {
        min16(
            plus_six(
                layout::low_bits(
                    if self.remotes.len() == 0 {
                        1
                    } else {
                        self.remotes.len()
                    },
                ),
            ),
            screen.height,
        )
    }

    /// The row of remote `i`.
    pub open spec fn remote_line(self, i: int) -> LineView {
        let t = self.theme;
        let selected = i == self.current_remote_idx;
        let style = if selected {
            draw::over(draw::bold(t.fg_bright), t.bg_key_badge)
        } else {
            draw::ink(t.fg_normal)
        };
        seq![
            draw::styled(
                if selected {
                    " \u{25b6} "@
                } else {
                    "   "@
                },
                style,
            ),
            draw::styled(self.remotes[i], style),
        ]
    }

    /// The rows of the remotes.
    pub open spec fn remote_lines(self) -> Seq<LineView> {
        if self.remotes.len() == 0 {
            seq![seq![draw::styled("  (no remotes)"@, draw::ink(self.theme.fg_dim))]]
        } else {
            Seq::new(self.remotes.len(), |i: int| self.remote_line(i))
        }
    }

    /// The window of remotes.
    pub open spec fn picker_window(self, screen: Rect, area: Rect) -> Seq<DrawView> {
        let t = self.theme;
        window_back(
            t,
            screen,
            area,
            window_border(
                t,
                " Choose remote to push to "@,
                gap() + key_hint(t, " j/k "@, " navigate  "@) + key_hint(
                    t,
                    " Enter "@,
                    " confirm  "@,
                ) + key_hint(t, " Esc "@, " cancel "@),
                draw::ink(t.border_modal),
            ),
        ) + seq![
            DrawView::Text {
                area: draw::inner(area),
                lines: self.remote_lines(),
                style: draw::paper(t.bg_modal),
                align: Align::Left,
                wrap: Wrap::Cut,
                top: 0,
                left: 0,
            },
        ]
    }
}

impl App {
    /// The height of the window of remotes.
    pub fn picker_size(&self, screen: Rect) -> (r: u16)
        ensures
            r == self.deep_view().picker_height(screen),
    {
        let count: usize = if self.remotes.len() == 0 {
            1
        } else {
            self.remotes.len()
        };
        assert(self.deep_view().remotes.len() == self.remotes@.len());
        let want: u16 = low(count).saturating_add(6);
        if want < screen.height {
            want
        } else {
            screen.height
        }
    }

    /// The rows of the remotes.
    fn remote_lines(&self) -> (r: Vec<Line>)
        ensures
            r.deep_view() == self.deep_view().remote_lines(),
    {
        let t = &self.theme;
        let ghost v = self.deep_view();
        let ghost want = v.remote_lines();
        let mut r: Vec<Line> = Vec::new();
        assert(v.remotes.len() == self.remotes@.len());
        if self.remotes.len() == 0 {
            r.push(panels::line1(draw::span("  (no remotes)", draw::ink(t.fg_dim))));
            assert(r.deep_view() =~= want);
            return r;
        }
        for i in 0..self.remotes.len()
            invariant
                t == &self.theme,
                v == self.deep_view(),
                v.remotes.len() == self.remotes@.len(),
                want.len() == v.remotes.len(),
                want == Seq::new(v.remotes.len(), |i: int| v.remote_line(i)),
                r.deep_view() == want.take(i as int),
        {
            let ghost before = r.deep_view();
            let selected = i == self.current_remote_idx;
            let style = if selected {
                draw::over(draw::bold(t.fg_bright), t.bg_key_badge)
            } else {
                draw::ink(t.fg_normal)
            };
            let mark = if selected {
                " \u{25b6} "
            } else {
                "   "
            };
            let line = panels::line2(
                draw::span(mark, style),
                draw::span(self.remotes[i].as_str(), style),
            );
            r.push(line);
            proof {
                assert(v.remotes[i as int] == self.remotes@[i as int]@);
                assert(line.deep_view() =~= v.remote_line(i as int));
                assert(r.deep_view() =~= before.push(want[i as int]));
                assert(want.take(i + 1) =~= before.push(want[i as int]));
            }
        }
        assert(want.take(want.len() as int) =~= want);
        r
    }

    /// The window of remotes.
    pub fn render_remote_picker(&self, screen: Rect, area: Rect) -> (r: Vec<Draw>)
        ensures
            r.deep_view() == self.deep_view().picker_window(screen, area),
    {
        let t = &self.theme;
        let bottom = panels::line_cat(
            panels::line_cat(
                panels::line_cat(gap_line(), key_line(t, " j/k ", " navigate  ")),
                key_line(t, " Enter ", " confirm  "),
            ),
            key_line(t, " Esc ", " cancel "),
        );
        let mut r = window(
            t,
            screen,
            area,
            " Choose remote to push to ",
            bottom,
            draw::ink(t.border_modal),
        );
        r.push(
            Draw::Text {
                area: draw::inside(area),
                lines: self.remote_lines(),
                style: draw::paper(t.bg_modal),
                align: Align::Left,
                wrap: Wrap::Cut,
                top: 0,
                left: 0,
            },
        );
        assert(r.deep_view() =~= self.deep_view().picker_window(screen, area));
        r
    }
}

/// The commit window leaves a column free on each side of a narrow screen. It is as high
/// as the message with six rows more, where the screen has room for that.
pub proof fn law_commit_window_fits(message: Seq<char>, screen: Rect)
    requires
        0 < text::text_lines(message).len() < 65530,
    ensures
        screen.width >= 80 ==> commit_width(screen) == 78,
        2 <= screen.width <= 80 ==> commit_width(screen) + 2 == screen.width,
        commit_height(message, screen) >= 8,
        screen.height >= 10 ==> commit_height(message, screen) + 2 <= screen.height,
        text::text_lines(message).len() >= 2 && text::text_lines(message).len() + 8
            <= screen.height ==> commit_height(message, screen) == text::text_lines(message).len()
            + 6,
{
    vstd::arithmetic::div_mod::lemma_small_mod(text::text_lines(message).len(), 65536);
}

proof fn lemma_longest(lines: Seq<Seq<char>>, i: int)
    requires
        0 <= i < lines.len(),
    ensures
        encode_utf8(lines[i]).len() <= longest(lines),
    decreases lines.len(),
{
    if i < lines.len() - 1 {
        lemma_longest(lines.drop_last(), i);
    }
}

/// The rebase window is wide enough for each of its lines, with six columns more, and
/// high enough for all of them, up to what it may have.
pub proof fn law_notice_fits(lines: Seq<Seq<char>>, i: int)
    requires
        0 <= i < lines.len(),
        lines.len() < 65530,
        longest(lines) < 65530,
    ensures
        notice_width(lines) <= 70,
        notice_width(lines) == 70 || notice_width(lines) >= encode_utf8(lines[i]).len() + 6,
        notice_height(lines) <= 16,
        notice_height(lines) == 16 || notice_height(lines) == lines.len() + 6,
{
    lemma_longest(lines, i);
    vstd::arithmetic::div_mod::lemma_small_mod(longest(lines), 65536);
    vstd::arithmetic::div_mod::lemma_small_mod(lines.len(), 65536);
}

/// The window of remotes has a row for each remote and six more, where the screen has
/// room for that.
pub proof fn law_picker_fits(a: AppView, screen: Rect)
    requires
        0 < a.remotes.len() < 65530,
    ensures
        a.picker_height(screen) <= screen.height,
        a.remotes.len() + 6 <= screen.height ==> a.picker_height(screen) == a.remotes.len() + 6,
{
    vstd::arithmetic::div_mod::lemma_small_mod(a.remotes.len(), 65536);
}

/// The help window shows its rows one below the other, each key in the middle of its
/// badge before what it does.
pub proof fn law_help_shown(
    a: AppView,
    screen: Rect,
    area: Rect,
    i: int,
    key: Seq<char>,
    what: Seq<char>,
)
    requires
        0 <= i < help_rows(a.app_mode).len(),
        help_rows(a.app_mode)[i] == HelpView::Key(key, what),
    ensures
        a.help_window(screen, area).last() matches DrawView::Text { lines, .. } && {
            &&& lines.len() == help_rows(a.app_mode).len()
            &&& lines.len() + 2 == help_height(a.app_mode)
            &&& lines[i].len() == 4
            &&& lines[i][1].text == " "@ + text::centered(key, 8) + " "@
            &&& lines[i][3].text == what
        },
{
}

} // verus!
