//! Colours.
use vstd::prelude::*;
use crate::text;

verus! {

/// A colour.
#[derive(Clone, Copy, Debug, PartialEq, Eq, Hash, Structural)]
pub enum Color {
    /// Whatever the terminal uses.
    Reset,
    /// Red, green and blue.
    Rgb(u8, u8, u8),
}

impl DeepView for Color {
    type V = Color;

    open spec fn deep_view(&self) -> Color {
        *self
    }
}

/// The colours of the screen.
#[derive(Debug, PartialEq, Eq)]
pub struct Theme {
    /// Whether the background is dark.
    pub is_dark: bool,
    /// The theme by which code is highlighted.
    pub syntax_theme: String,
    /// Titles and the selected entry.
    pub accent: Color,
    /// The whole screen.
    pub bg_default: Color,
    /// The header.
    pub bg_header: Color,
    /// Modal windows.
    pub bg_modal: Color,
    /// What lies behind a modal window.
    pub bg_modal_dim: Color,
    /// The selected entry.
    pub bg_selection: Color,
    /// Keys in the help line.
    pub bg_key_badge: Color,
    /// Added lines.
    pub bg_added: Color,
    /// Removed lines.
    pub bg_removed: Color,
    /// Ordinary text.
    pub fg_normal: Color,
    /// Emphasised text.
    pub fg_bright: Color,
    /// Text in the background.
    pub fg_dim: Color,
    /// Keys in the help line.
    pub fg_key: Color,
    /// Text on a badge.
    pub fg_badge: Color,
    /// Lines between parts.
    pub fg_separator: Color,
    /// Line numbers.
    pub fg_line_num: Color,
    /// Counts of added lines.
    pub fg_added: Color,
    /// Counts of removed lines.
    pub fg_removed: Color,
    /// The mark of an added line.
    pub fg_added_marker: Color,
    /// The mark of a removed line.
    pub fg_removed_marker: Color,
    /// The pane that has the focus.
    pub border_focused: Color,
    /// The other panes.
    pub border_dim: Color,
    /// Modal windows.
    pub border_modal: Color,
}

/// The colours of the screen, as a mathematical value.
#[verifier::ext_equal]
pub struct ThemeView {
    pub is_dark: bool,
    pub syntax_theme: Seq<char>,
    pub accent: Color,
    pub bg_default: Color,
    pub bg_header: Color,
    pub bg_modal: Color,
    pub bg_modal_dim: Color,
    pub bg_selection: Color,
    pub bg_key_badge: Color,
    pub bg_added: Color,
    pub bg_removed: Color,
    pub fg_normal: Color,
    pub fg_bright: Color,
    pub fg_dim: Color,
    pub fg_key: Color,
    pub fg_badge: Color,
    pub fg_separator: Color,
    pub fg_line_num: Color,
    pub fg_added: Color,
    pub fg_removed: Color,
    pub fg_added_marker: Color,
    pub fg_removed_marker: Color,
    pub border_focused: Color,
    pub border_dim: Color,
    pub border_modal: Color,
}

impl DeepView for Theme {
    type V = ThemeView;

    open spec fn deep_view(&self) -> ThemeView {
        ThemeView {
            is_dark: self.is_dark,
            syntax_theme: self.syntax_theme@,
            accent: self.accent,
            bg_default: self.bg_default,
            bg_header: self.bg_header,
            bg_modal: self.bg_modal,
            bg_modal_dim: self.bg_modal_dim,
            bg_selection: self.bg_selection,
            bg_key_badge: self.bg_key_badge,
            bg_added: self.bg_added,
            bg_removed: self.bg_removed,
            fg_normal: self.fg_normal,
            fg_bright: self.fg_bright,
            fg_dim: self.fg_dim,
            fg_key: self.fg_key,
            fg_badge: self.fg_badge,
            fg_separator: self.fg_separator,
            fg_line_num: self.fg_line_num,
            fg_added: self.fg_added,
            fg_removed: self.fg_removed,
            fg_added_marker: self.fg_added_marker,
            fg_removed_marker: self.fg_removed_marker,
            border_focused: self.border_focused,
            border_dim: self.border_dim,
            border_modal: self.border_modal,
        }
    }
}

impl Clone for Theme {
    fn clone(&self) -> (r: Self)
        ensures
            r.deep_view() == self.deep_view(),
    {
        Theme {
            is_dark: self.is_dark,
            syntax_theme: self.syntax_theme.clone(),
            accent: self.accent,
            bg_default: self.bg_default,
            bg_header: self.bg_header,
            bg_modal: self.bg_modal,
            bg_modal_dim: self.bg_modal_dim,
            bg_selection: self.bg_selection,
            bg_key_badge: self.bg_key_badge,
            bg_added: self.bg_added,
            bg_removed: self.bg_removed,
            fg_normal: self.fg_normal,
            fg_bright: self.fg_bright,
            fg_dim: self.fg_dim,
            fg_key: self.fg_key,
            fg_badge: self.fg_badge,
            fg_separator: self.fg_separator,
            fg_line_num: self.fg_line_num,
            fg_added: self.fg_added,
            fg_removed: self.fg_removed,
            fg_added_marker: self.fg_added_marker,
            fg_removed_marker: self.fg_removed_marker,
            border_focused: self.border_focused,
            border_dim: self.border_dim,
            border_modal: self.border_modal,
        }
    }
}

impl ThemeView {
    /// The dark theme.
    pub open spec fn dark() -> ThemeView {
        ThemeView {
            is_dark: true,
            syntax_theme: "base16-ocean.dark"@,
            accent: Color::Rgb(137, 180, 250),
            bg_default: Color::Rgb(30, 30, 46),
            bg_header: Color::Rgb(24, 24, 37),
            bg_modal: Color::Rgb(49, 50, 68),
            bg_modal_dim: Color::Rgb(17, 17, 27),
            bg_selection: Color::Rgb(69, 71, 90),
            bg_key_badge: Color::Rgb(69, 71, 90),
            bg_added: Color::Rgb(30, 50, 40),
            bg_removed: Color::Rgb(60, 32, 42),
            fg_normal: Color::Rgb(205, 214, 244),
            fg_bright: Color::Rgb(255, 255, 255),
            fg_dim: Color::Rgb(127, 132, 156),
            fg_key: Color::Rgb(249, 226, 175),
            fg_badge: Color::Rgb(30, 30, 46),
            fg_separator: Color::Rgb(69, 71, 90),
            fg_line_num: Color::Rgb(108, 112, 134),
            fg_added: Color::Rgb(166, 227, 161),
            fg_removed: Color::Rgb(243, 139, 168),
            fg_added_marker: Color::Rgb(166, 227, 161),
            fg_removed_marker: Color::Rgb(243, 139, 168),
            border_focused: Color::Rgb(137, 180, 250),
            border_dim: Color::Rgb(69, 71, 90),
            border_modal: Color::Rgb(137, 180, 250),
        }
    }

    /// The light theme.
    pub open spec fn light() -> ThemeView {
        ThemeView {
            is_dark: false,
            syntax_theme: "InspiredGitHub"@,
            accent: Color::Rgb(30, 102, 245),
            bg_default: Color::Rgb(239, 241, 245),
            bg_header: Color::Rgb(220, 224, 232),
            bg_modal: Color::Rgb(230, 233, 239),
            bg_modal_dim: Color::Rgb(204, 208, 218),
            bg_selection: Color::Rgb(188, 192, 204),
            bg_key_badge: Color::Rgb(204, 208, 218),
            bg_added: Color::Rgb(213, 240, 213),
            bg_removed: Color::Rgb(250, 215, 220),
            fg_normal: Color::Rgb(76, 79, 105),
            fg_bright: Color::Rgb(35, 38, 52),
            fg_dim: Color::Rgb(124, 127, 147),
            fg_key: Color::Rgb(223, 142, 29),
            fg_badge: Color::Rgb(239, 241, 245),
            fg_separator: Color::Rgb(172, 176, 190),
            fg_line_num: Color::Rgb(140, 143, 161),
            fg_added: Color::Rgb(64, 160, 43),
            fg_removed: Color::Rgb(210, 15, 57),
            fg_added_marker: Color::Rgb(64, 160, 43),
            fg_removed_marker: Color::Rgb(210, 15, 57),
            border_focused: Color::Rgb(30, 102, 245),
            border_dim: Color::Rgb(188, 192, 204),
            border_modal: Color::Rgb(30, 102, 245),
        }
    }

    /// The built-in theme of this name.
    pub open spec fn by_name(name: Seq<char>) -> Option<ThemeView> {
        if name == "dark"@ {
            Some(ThemeView::dark())
        } else if name == "light"@ {
            Some(ThemeView::light())
        } else {
            None
        }
    }
}

impl Theme {
    /// The dark theme.
    pub fn dark() -> (r: Theme)
        ensures
            r.deep_view() == ThemeView::dark(),
    {
        Theme {
            is_dark: true,
            syntax_theme: "base16-ocean.dark".to_owned(),
            accent: Color::Rgb(137, 180, 250),
            bg_default: Color::Rgb(30, 30, 46),
            bg_header: Color::Rgb(24, 24, 37),
            bg_modal: Color::Rgb(49, 50, 68),
            bg_modal_dim: Color::Rgb(17, 17, 27),
            bg_selection: Color::Rgb(69, 71, 90),
            bg_key_badge: Color::Rgb(69, 71, 90),
            bg_added: Color::Rgb(30, 50, 40),
            bg_removed: Color::Rgb(60, 32, 42),
            fg_normal: Color::Rgb(205, 214, 244),
            fg_bright: Color::Rgb(255, 255, 255),
            fg_dim: Color::Rgb(127, 132, 156),
            fg_key: Color::Rgb(249, 226, 175),
            fg_badge: Color::Rgb(30, 30, 46),
            fg_separator: Color::Rgb(69, 71, 90),
            fg_line_num: Color::Rgb(108, 112, 134),
            fg_added: Color::Rgb(166, 227, 161),
            fg_removed: Color::Rgb(243, 139, 168),
            fg_added_marker: Color::Rgb(166, 227, 161),
            fg_removed_marker: Color::Rgb(243, 139, 168),
            border_focused: Color::Rgb(137, 180, 250),
            border_dim: Color::Rgb(69, 71, 90),
            border_modal: Color::Rgb(137, 180, 250),
        }
    }

    /// The light theme.
    pub fn light() -> (r: Theme)
        ensures
            r.deep_view() == ThemeView::light(),
    {
        Theme {
            is_dark: false,
            syntax_theme: "InspiredGitHub".to_owned(),
            accent: Color::Rgb(30, 102, 245),
            bg_default: Color::Rgb(239, 241, 245),
            bg_header: Color::Rgb(220, 224, 232),
            bg_modal: Color::Rgb(230, 233, 239),
            bg_modal_dim: Color::Rgb(204, 208, 218),
            bg_selection: Color::Rgb(188, 192, 204),
            bg_key_badge: Color::Rgb(204, 208, 218),
            bg_added: Color::Rgb(213, 240, 213),
            bg_removed: Color::Rgb(250, 215, 220),
            fg_normal: Color::Rgb(76, 79, 105),
            fg_bright: Color::Rgb(35, 38, 52),
            fg_dim: Color::Rgb(124, 127, 147),
            fg_key: Color::Rgb(223, 142, 29),
            fg_badge: Color::Rgb(239, 241, 245),
            fg_separator: Color::Rgb(172, 176, 190),
            fg_line_num: Color::Rgb(140, 143, 161),
            fg_added: Color::Rgb(64, 160, 43),
            fg_removed: Color::Rgb(210, 15, 57),
            fg_added_marker: Color::Rgb(64, 160, 43),
            fg_removed_marker: Color::Rgb(210, 15, 57),
            border_focused: Color::Rgb(30, 102, 245),
            border_dim: Color::Rgb(188, 192, 204),
            border_modal: Color::Rgb(30, 102, 245),
        }
    }

    /// The built-in theme of this name.
    pub fn by_name(name: &str) -> (r: Option<Theme>)
        ensures
            r.deep_view() == ThemeView::by_name(name@),
    {
        if *name == *"dark" {
            Some(Theme::dark())
        } else if *name == *"light" {
            Some(Theme::light())
        } else {
            None
        }
    }

    /// Whether two themes are the same.
    pub fn same_as(&self, other: &Theme) -> (r: bool)
        ensures
            r == (self.deep_view() == other.deep_view()),
    {
        let r = self.is_dark == other.is_dark && self.syntax_theme == other.syntax_theme
            && self.accent == other.accent
            && self.bg_default == other.bg_default
            && self.bg_header == other.bg_header
            && self.bg_modal == other.bg_modal
            && self.bg_modal_dim == other.bg_modal_dim
            && self.bg_selection == other.bg_selection
            && self.bg_key_badge == other.bg_key_badge
            && self.bg_added == other.bg_added
            && self.bg_removed == other.bg_removed
            && self.fg_normal == other.fg_normal
            && self.fg_bright == other.fg_bright
            && self.fg_dim == other.fg_dim
            && self.fg_key == other.fg_key
            && self.fg_badge == other.fg_badge
            && self.fg_separator == other.fg_separator
            && self.fg_line_num == other.fg_line_num
            && self.fg_added == other.fg_added
            && self.fg_removed == other.fg_removed
            && self.fg_added_marker == other.fg_added_marker
            && self.fg_removed_marker == other.fg_removed_marker
            && self.border_focused == other.border_focused
            && self.border_dim == other.border_dim
            && self.border_modal == other.border_modal;
        assert(r ==> self.deep_view() =~= other.deep_view());
        r
    }
}

/// The value of a hexadecimal digit.
pub open spec fn hex_digit(c: char) -> Option<u8> {
    if '0' <= c <= '9' {
        Some((c as u32 - '0' as u32) as u8)
    } else if 'a' <= c <= 'f' {
        Some((c as u32 - 'a' as u32 + 10) as u8)
    } else if 'A' <= c <= 'F' {
        Some((c as u32 - 'A' as u32 + 10) as u8)
    } else {
        None
    }
}

/// The byte that two hexadecimal digits write.
pub open spec fn hex_byte(hi: char, lo: char) -> Option<u8> {
    match (hex_digit(hi), hex_digit(lo)) {
        (Some(h), Some(l)) => Some((h * 16 + l) as u8),
        _ => None,
    }
}

/// The colour that `s` writes as `#rrggbb`.
pub open spec fn hex_color(s: Seq<char>) -> Option<Color> {
    if s.len() == 7 && s[0] == '#' {
        match (hex_byte(s[1], s[2]), hex_byte(s[3], s[4]), hex_byte(s[5], s[6])) {
            (Some(r), Some(g), Some(b)) => Some(Color::Rgb(r, g, b)),
            _ => None,
        }
    } else {
        None
    }
}

/// The value of a hexadecimal digit.
fn hex_digit_value(c: char) -> (r: Option<u8>)
    ensures
        r == hex_digit(c),
        r matches Some(d) ==> d < 16,
{
    if '0' <= c && c <= '9' {
        Some((c as u32 - '0' as u32) as u8)
    } else if 'a' <= c && c <= 'f' {
        Some((c as u32 - 'a' as u32 + 10) as u8)
    } else if 'A' <= c && c <= 'F' {
        Some((c as u32 - 'A' as u32 + 10) as u8)
    } else {
        None
    }
}

/// The byte that two hexadecimal digits write.
fn hex_byte_value(hi: char, lo: char) -> (r: Option<u8>)
    ensures
        r == hex_byte(hi, lo),
{
    match (hex_digit_value(hi), hex_digit_value(lo)) {
        (Some(h), Some(l)) => Some(h * 16 + l),
        _ => None,
    }
}

/// The colour that `s` writes as `#rrggbb`.
pub fn parse_color(s: &str) -> (r: Option<Color>)
    ensures
        r == hex_color(s@),
{
    let cs = text::chars_of(s);
    if cs.len() != 7 || cs[0] != '#' {
        return None;
    }
    match (
        hex_byte_value(cs[1], cs[2]),
        hex_byte_value(cs[3], cs[4]),
        hex_byte_value(cs[5], cs[6]),
    ) {
        (Some(r), Some(g), Some(b)) => Some(Color::Rgb(r, g, b)),
        _ => None,
    }
}

/// A theme of the configuration file: a built-in theme and what it changes of
/// it.
#[derive(Debug)]
pub struct ThemeConfig {
    pub base: Option<String>,
    pub syntax_theme: Option<String>,
    pub accent: Option<String>,
    pub bg_default: Option<String>,
    pub bg_header: Option<String>,
    pub bg_modal: Option<String>,
    pub bg_modal_dim: Option<String>,
    pub bg_selection: Option<String>,
    pub bg_key_badge: Option<String>,
    pub bg_added: Option<String>,
    pub bg_removed: Option<String>,
    pub fg_normal: Option<String>,
    pub fg_bright: Option<String>,
    pub fg_dim: Option<String>,
    pub fg_key: Option<String>,
    pub fg_badge: Option<String>,
    pub fg_separator: Option<String>,
    pub fg_line_num: Option<String>,
    pub fg_added: Option<String>,
    pub fg_removed: Option<String>,
    pub fg_added_marker: Option<String>,
    pub fg_removed_marker: Option<String>,
    pub border_focused: Option<String>,
    pub border_dim: Option<String>,
    pub border_modal: Option<String>,
}

impl Default for ThemeConfig {
    fn default() -> (r: Self)
        ensures
            r.base is None,
            r.syntax_theme is None,
            r.accent is None,
            r.bg_default is None,
            r.bg_header is None,
            r.bg_modal is None,
            r.bg_modal_dim is None,
            r.bg_selection is None,
            r.bg_key_badge is None,
            r.bg_added is None,
            r.bg_removed is None,
            r.fg_normal is None,
            r.fg_bright is None,
            r.fg_dim is None,
            r.fg_key is None,
            r.fg_badge is None,
            r.fg_separator is None,
            r.fg_line_num is None,
            r.fg_added is None,
            r.fg_removed is None,
            r.fg_added_marker is None,
            r.fg_removed_marker is None,
            r.border_focused is None,
            r.border_dim is None,
            r.border_modal is None,
    {
        ThemeConfig {
            base: None,
            syntax_theme: None,
            accent: None,
            bg_default: None,
            bg_header: None,
            bg_modal: None,
            bg_modal_dim: None,
            bg_selection: None,
            bg_key_badge: None,
            bg_added: None,
            bg_removed: None,
            fg_normal: None,
            fg_bright: None,
            fg_dim: None,
            fg_key: None,
            fg_badge: None,
            fg_separator: None,
            fg_line_num: None,
            fg_added: None,
            fg_removed: None,
            fg_added_marker: None,
            fg_removed_marker: None,
            border_focused: None,
            border_dim: None,
            border_modal: None,
        }
    }
}

/// The colour that `s` writes, or `base` where it writes none.
pub open spec fn color_or(s: Option<String>, base: Color) -> Color {
    match s {
        Some(c) => match hex_color(c@) {
            Some(color) => color,
            None => base,
        },
        None => base,
    }
}

/// The colour that `s` writes, or `base` where it writes none.
fn color_or_base(s: &Option<String>, base: Color) -> (r: Color)
    ensures
        r == color_or(*s, base),
{
    match s {
        Some(c) => match parse_color(c.as_str()) {
            Some(color) => color,
            None => base,
        },
        None => base,
    }
}

impl ThemeConfig {
    /// The theme that this one changes: the dark one, unless it names another.
    pub open spec fn base_view(&self) -> ThemeView {
        match self.base {
            Some(name) => match ThemeView::by_name(name@) {
                Some(theme) => theme,
                None => ThemeView::dark(),
            },
            None => ThemeView::dark(),
        }
    }

    /// The theme that this configuration makes.
    pub open spec fn theme_view(&self) -> ThemeView {
        let base = self.base_view();
        ThemeView {
            is_dark: base.is_dark,
            syntax_theme: match self.syntax_theme {
                Some(name) => name@,
                None => base.syntax_theme,
            },
            accent: color_or(self.accent, base.accent),
            bg_default: color_or(self.bg_default, base.bg_default),
            bg_header: color_or(self.bg_header, base.bg_header),
            bg_modal: color_or(self.bg_modal, base.bg_modal),
            bg_modal_dim: color_or(self.bg_modal_dim, base.bg_modal_dim),
            bg_selection: color_or(self.bg_selection, base.bg_selection),
            bg_key_badge: color_or(self.bg_key_badge, base.bg_key_badge),
            bg_added: color_or(self.bg_added, base.bg_added),
            bg_removed: color_or(self.bg_removed, base.bg_removed),
            fg_normal: color_or(self.fg_normal, base.fg_normal),
            fg_bright: color_or(self.fg_bright, base.fg_bright),
            fg_dim: color_or(self.fg_dim, base.fg_dim),
            fg_key: color_or(self.fg_key, base.fg_key),
            fg_badge: color_or(self.fg_badge, base.fg_badge),
            fg_separator: color_or(self.fg_separator, base.fg_separator),
            fg_line_num: color_or(self.fg_line_num, base.fg_line_num),
            fg_added: color_or(self.fg_added, base.fg_added),
            fg_removed: color_or(self.fg_removed, base.fg_removed),
            fg_added_marker: color_or(self.fg_added_marker, base.fg_added_marker),
            fg_removed_marker: color_or(self.fg_removed_marker, base.fg_removed_marker),
            border_focused: color_or(self.border_focused, base.border_focused),
            border_dim: color_or(self.border_dim, base.border_dim),
            border_modal: color_or(self.border_modal, base.border_modal),
        }
    }

    /// The theme that this configuration makes. A colour that is not written
    /// as `#rrggbb` stays as in the built-in theme.
    pub fn to_theme(&self) -> (r: Theme)
        ensures
            r.deep_view() == self.theme_view(),
    {
        let base = match &self.base {
            Some(name) => match Theme::by_name(name.as_str()) {
                Some(theme) => theme,
                None => Theme::dark(),
            },
            None => Theme::dark(),
        };
        Theme {
            is_dark: base.is_dark,
            syntax_theme: match &self.syntax_theme {
                Some(name) => name.clone(),
                None => base.syntax_theme,
            },
            accent: color_or_base(&self.accent, base.accent),
            bg_default: color_or_base(&self.bg_default, base.bg_default),
            bg_header: color_or_base(&self.bg_header, base.bg_header),
            bg_modal: color_or_base(&self.bg_modal, base.bg_modal),
            bg_modal_dim: color_or_base(&self.bg_modal_dim, base.bg_modal_dim),
            bg_selection: color_or_base(&self.bg_selection, base.bg_selection),
            bg_key_badge: color_or_base(&self.bg_key_badge, base.bg_key_badge),
            bg_added: color_or_base(&self.bg_added, base.bg_added),
            bg_removed: color_or_base(&self.bg_removed, base.bg_removed),
            fg_normal: color_or_base(&self.fg_normal, base.fg_normal),
            fg_bright: color_or_base(&self.fg_bright, base.fg_bright),
            fg_dim: color_or_base(&self.fg_dim, base.fg_dim),
            fg_key: color_or_base(&self.fg_key, base.fg_key),
            fg_badge: color_or_base(&self.fg_badge, base.fg_badge),
            fg_separator: color_or_base(&self.fg_separator, base.fg_separator),
            fg_line_num: color_or_base(&self.fg_line_num, base.fg_line_num),
            fg_added: color_or_base(&self.fg_added, base.fg_added),
            fg_removed: color_or_base(&self.fg_removed, base.fg_removed),
            fg_added_marker: color_or_base(&self.fg_added_marker, base.fg_added_marker),
            fg_removed_marker: color_or_base(&self.fg_removed_marker, base.fg_removed_marker),
            border_focused: color_or_base(&self.border_focused, base.border_focused),
            border_dim: color_or_base(&self.border_dim, base.border_dim),
            border_modal: color_or_base(&self.border_modal, base.border_modal),
        }
    }
}

/// The digit that writes `n` in base sixteen.
#[verifier::opaque]
pub open spec fn hex_of(n: u8) -> char {
    seq![
        '0', '1', '2', '3', '4', '5', '6', '7', '8', '9', 'a', 'b', 'c', 'd', 'e', 'f',
    ][n as int]
}

/// The same with capital letters.
#[verifier::opaque]
pub open spec fn capital_hex_of(n: u8) -> char {
    seq![
        '0', '1', '2', '3', '4', '5', '6', '7', '8', '9', 'A', 'B', 'C', 'D', 'E', 'F',
    ][n as int]
}

proof fn lemma_hex(n: u8)
    requires
        n < 16,
    ensures
        hex_digit(hex_of(n)) == Some(n),
        hex_digit(capital_hex_of(n)) == Some(n),
{
    reveal(hex_of);
    reveal(capital_hex_of);
}

proof fn lemma_hex_byte(n: u8)
    ensures
        hex_byte(hex_of((n / 16) as u8), hex_of((n % 16) as u8)) == Some(n),
        hex_byte(capital_hex_of((n / 16) as u8), capital_hex_of((n % 16) as u8)) == Some(n),
{
    lemma_hex((n / 16) as u8);
    lemma_hex((n % 16) as u8);
}

proof fn lemma_hex_bytes(r: u8, g: u8, b: u8, small: Seq<char>, capital: Seq<char>)
    requires
        small.len() == 7 && small[0] == '#',
        small[1] == hex_of((r / 16) as u8) && small[2] == hex_of((r % 16) as u8),
        small[3] == hex_of((g / 16) as u8) && small[4] == hex_of((g % 16) as u8),
        small[5] == hex_of((b / 16) as u8) && small[6] == hex_of((b % 16) as u8),
        capital.len() == 7 && capital[0] == '#',
        capital[1] == capital_hex_of((r / 16) as u8) && capital[2] == capital_hex_of(
            (r % 16) as u8,
        ),
        capital[3] == capital_hex_of((g / 16) as u8) && capital[4] == capital_hex_of(
            (g % 16) as u8,
        ),
        capital[5] == capital_hex_of((b / 16) as u8) && capital[6] == capital_hex_of(
            (b % 16) as u8,
        ),
    ensures
        hex_color(small) == Some(Color::Rgb(r, g, b)),
        hex_color(capital) == Some(Color::Rgb(r, g, b)),
{
    lemma_hex_byte(r);
    lemma_hex_byte(g);
    lemma_hex_byte(b);
}

/// A colour is read as it is written, red before green before blue, in small or in
/// capital letters.
pub proof fn law_color_read(r: u8, g: u8, b: u8)
    ensures
        hex_color(
            seq![
                '#',
                hex_of((r / 16) as u8),
                hex_of((r % 16) as u8),
                hex_of((g / 16) as u8),
                hex_of((g % 16) as u8),
                hex_of((b / 16) as u8),
                hex_of((b % 16) as u8),
            ],
        ) == Some(Color::Rgb(r, g, b)),
        hex_color(
            seq![
                '#',
                capital_hex_of((r / 16) as u8),
                capital_hex_of((r % 16) as u8),
                capital_hex_of((g / 16) as u8),
                capital_hex_of((g % 16) as u8),
                capital_hex_of((b / 16) as u8),
                capital_hex_of((b % 16) as u8),
            ],
        ) == Some(Color::Rgb(r, g, b)),
{
    lemma_hex_bytes(
        r,
        g,
        b,
        seq![
            '#',
            hex_of((r / 16) as u8),
            hex_of((r % 16) as u8),
            hex_of((g / 16) as u8),
            hex_of((g % 16) as u8),
            hex_of((b / 16) as u8),
            hex_of((b % 16) as u8),
        ],
        seq![
            '#',
            capital_hex_of((r / 16) as u8),
            capital_hex_of((r % 16) as u8),
            capital_hex_of((g / 16) as u8),
            capital_hex_of((g % 16) as u8),
            capital_hex_of((b / 16) as u8),
            capital_hex_of((b % 16) as u8),
        ],
    );
}

/// What has another length, does not start with a hash or holds another character
/// than digits and the letters to `f` writes no colour.
pub proof fn law_no_color(s: Seq<char>, i: int)
    requires
        s.len() != 7 || s[0] != '#' || (1 <= i < 7 && !('0' <= s[i] <= '9') && !('a' <= s[i]
            <= 'f') && !('A' <= s[i] <= 'F')),
    ensures
        hex_color(s) is None,
{
}

/// Whether a theme has the colour that its configuration writes, or that of its
/// base where nothing, or nothing that can be read, is written.
pub open spec fn takes(written: Option<String>, base: Color, made: Color) -> bool {
    match written {
        Some(s) => if hex_color(s@) is Some {
            hex_color(s@) == Some(made)
        } else {
            made == base
        },
        None => made == base,
    }
}

/// Every background of a configured theme is the one that is written for it, or that
/// of the theme it is based on.
pub proof fn law_backgrounds_made(c: ThemeConfig)
    ensures
        ({
            let b = c.base_view();
            let t = c.theme_view();
            &&& takes(c.bg_default, b.bg_default, t.bg_default)
            &&& takes(c.bg_header, b.bg_header, t.bg_header)
            &&& takes(c.bg_modal, b.bg_modal, t.bg_modal)
            &&& takes(c.bg_modal_dim, b.bg_modal_dim, t.bg_modal_dim)
            &&& takes(c.bg_selection, b.bg_selection, t.bg_selection)
            &&& takes(c.bg_key_badge, b.bg_key_badge, t.bg_key_badge)
            &&& takes(c.bg_added, b.bg_added, t.bg_added)
            &&& takes(c.bg_removed, b.bg_removed, t.bg_removed)
        }),
{
}

/// Every colour of text of a configured theme is the one that is written for it, or
/// that of the theme it is based on.
pub proof fn law_inks_made(c: ThemeConfig)
    ensures
        ({
            let b = c.base_view();
            let t = c.theme_view();
            &&& takes(c.fg_normal, b.fg_normal, t.fg_normal)
            &&& takes(c.fg_bright, b.fg_bright, t.fg_bright)
            &&& takes(c.fg_dim, b.fg_dim, t.fg_dim)
            &&& takes(c.fg_key, b.fg_key, t.fg_key)
            &&& takes(c.fg_badge, b.fg_badge, t.fg_badge)
            &&& takes(c.fg_separator, b.fg_separator, t.fg_separator)
            &&& takes(c.fg_line_num, b.fg_line_num, t.fg_line_num)
            &&& takes(c.fg_added, b.fg_added, t.fg_added)
            &&& takes(c.fg_removed, b.fg_removed, t.fg_removed)
            &&& takes(c.fg_added_marker, b.fg_added_marker, t.fg_added_marker)
            &&& takes(c.fg_removed_marker, b.fg_removed_marker, t.fg_removed_marker)
        }),
{
}

/// The colours of borders, and what decides the colours of code, are those that are
/// written, or those of the theme that a configured theme is based on.
pub proof fn law_borders_made(c: ThemeConfig)
    ensures
        ({
            let b = c.base_view();
            let t = c.theme_view();
            &&& takes(c.accent, b.accent, t.accent)
            &&& takes(c.border_focused, b.border_focused, t.border_focused)
            &&& takes(c.border_dim, b.border_dim, t.border_dim)
            &&& takes(c.border_modal, b.border_modal, t.border_modal)
            &&& t.is_dark == b.is_dark
            &&& c.syntax_theme matches Some(name) ==> t.syntax_theme == name@
            &&& c.syntax_theme is None ==> t.syntax_theme == b.syntax_theme
        }),
{
}

/// A configured theme is based on the built-in theme that it names, and on the dark
/// one where it names none.
pub proof fn law_theme_base(c: ThemeConfig)
    ensures
        (c.base matches Some(name) && name@ == "light"@) ==> c.base_view() == ThemeView::light(),
        (c.base matches Some(name) && name@ == "dark"@) ==> c.base_view() == ThemeView::dark(),
        (c.base matches Some(name) && name@ != "light"@) ==> c.base_view() == ThemeView::dark(),
        c.base is None ==> c.base_view() == ThemeView::dark(),
{
    reveal_strlit("dark");
    reveal_strlit("light");
    assert("dark"@.len() != "light"@.len());
}

/// Whether there is more green in a colour than red.
pub open spec fn greenish(c: Color) -> bool {
    c matches Color::Rgb(r, g, _) && g > r
}

/// Whether there is more red in a colour than green.
pub open spec fn reddish(c: Color) -> bool {
    c matches Color::Rgb(r, g, _) && r > g
}

/// Whether a colour is nearer to white than to black.
pub open spec fn bright(c: Color) -> bool {
    c matches Color::Rgb(r, g, b) && r as int + g as int + b as int >= 384
}

/// In both built-in themes what was added is green and what was removed is red. The
/// dark theme writes bright on dark, and the light one dark on bright.
pub proof fn law_theme_colours(name: Seq<char>)
    requires
        name == "dark"@ || name == "light"@,
    ensures
        ThemeView::by_name(name) matches Some(t) && {
            &&& t.is_dark == (name == "dark"@)
            &&& greenish(t.fg_added) && greenish(t.fg_added_marker) && greenish(t.bg_added)
            &&& reddish(t.fg_removed) && reddish(t.fg_removed_marker) && reddish(t.bg_removed)
            &&& bright(t.fg_normal) == t.is_dark && bright(t.bg_default) == !t.is_dark
            &&& bright(t.bg_header) == !t.is_dark && bright(t.bg_modal) == !t.is_dark
            &&& bright(t.bg_added) == !t.is_dark && bright(t.bg_removed) == !t.is_dark
        },
{
    reveal_strlit("dark");
    reveal_strlit("light");
    assert("dark"@.len() != "light"@.len());
}

} // verus!
