//! The configuration file.
use vstd::prelude::*;
use crate::names::NameMap;
use crate::text;
use crate::ui::theme::{Theme, ThemeConfig, ThemeView};
use crate::ui::types::ViewMode;

verus! {

/// What the configuration file says.
pub struct Config {
    /// The name of the theme.
    pub theme: Option<String>,
    /// Whether long lines are wrapped at first.
    pub wrap: Option<bool>,
    /// How a diff is laid out at first.
    pub view_mode: Option<String>,
    /// Themes by name.
    pub themes: NameMap<ThemeConfig>,
}

impl Default for Config {
    fn default() -> (r: Self)
        ensures
            r.theme is None,
            r.wrap is None,
            r.view_mode is None,
            r.themes@ == Map::<Seq<char>, ThemeConfig>::empty(),
    {
        Config { theme: None, wrap: None, view_mode: None, themes: NameMap::new() }
    }
}

/// Whether long lines are wrapped at first. They are, unless the file says
/// otherwise.
pub fn resolve_wrap(config: &Config) -> (r: bool)
    ensures
        r == match config.wrap {
            Some(wrap) => wrap,
            None => true,
        },
{
    match config.wrap {
        Some(wrap) => wrap,
        None => true,
    }
}

/// The layout of this name, in whatever case it is written.
pub open spec fn layout_named(name: Seq<char>) -> Option<ViewMode> {
    let n = text::ascii_lower(text::trim(name));
    if n == "unified"@ {
        Some(ViewMode::Unified)
    } else if n == "side-by-side"@ || n == "sidebyside"@ || n == "side_by_side"@ || n == "split"@ {
        Some(ViewMode::SideBySide)
    } else {
        None
    }
}

/// The layout of this name.
fn find_layout(name: &str) -> (r: Option<ViewMode>)
    ensures
        r == layout_named(name@),
{
    let trimmed = text::trimmed(name);
    let lower = text::lowered(trimmed.as_str());
    let n = lower.as_str();
    if *n == *"unified" {
        Some(ViewMode::Unified)
    } else if *n == *"side-by-side" || *n == *"sidebyside" || *n == *"side_by_side" || *n
        == *"split" {
        Some(ViewMode::SideBySide)
    } else {
        None
    }
}

/// How a diff is laid out at first: as the file says, or side by side.
pub fn resolve_view_mode(config: &Config) -> (r: ViewMode)
    ensures
        r == match config.view_mode {
            Some(name) => match layout_named(name@) {
                Some(mode) => mode,
                None => ViewMode::SideBySide,
            },
            None => ViewMode::SideBySide,
        },
{
    match &config.view_mode {
        Some(name) => match find_layout(name.as_str()) {
            Some(mode) => mode,
            None => ViewMode::SideBySide,
        },
        None => ViewMode::SideBySide,
    }
}

/// The warning that the file names a layout that is not known.
pub open spec fn layout_warning(config: Config) -> Option<Seq<char>> {
    match config.view_mode {
        Some(name) => if layout_named(name@) is None {
            Some(
                "Warning: unknown view_mode '"@ + text::ascii_lower(text::trim(name@))
                    + "' (expected \"side-by-side\" or \"unified\"), falling back to side-by-side"@,
            )
        } else {
            None
        },
        None => None,
    }
}

/// The warning that the file names a layout that is not known.
pub fn view_mode_warning(config: &Config) -> (r: Option<String>)
    ensures
        r.deep_view() == layout_warning(*config),
{
    match &config.view_mode {
        Some(name) => {
            if find_layout(name.as_str()).is_none() {
                let trimmed = text::trimmed(name.as_str());
                let lower = text::lowered(trimmed.as_str());
                Some(
                    text::cat3(
                        "Warning: unknown view_mode '",
                        lower.as_str(),
                        "' (expected \"side-by-side\" or \"unified\"), falling back to side-by-side",
                    ),
                )
            } else {
                None
            }
        },
        None => None,
    }
}

/// The name of the theme: the one on the command line, the one in the file, or
/// `dark`.
pub open spec fn theme_name(config: Config, cli: Option<Seq<char>>) -> Seq<char> {
    match cli {
        Some(name) => name,
        None => match config.theme {
            Some(name) => name@,
            None => "dark"@,
        },
    }
}

/// The theme of this name: a built-in one, or one of the file.
pub open spec fn theme_named(config: Config, name: Seq<char>) -> Option<ThemeView> {
    match ThemeView::by_name(name) {
        Some(theme) => Some(theme),
        None => if config.themes@.dom().contains(name) {
            Some(config.themes@[name].theme_view())
        } else {
            None
        },
    }
}

/// An argument that may be missing, as a mathematical value.
pub open spec fn optional(s: Option<&str>) -> Option<Seq<char>> {
    match s {
        Some(s) => Some(s@),
        None => None,
    }
}

/// The name of the theme.
fn pick_theme_name(config: &Config, cli_theme: Option<&str>) -> (r: String)
    ensures
        r@ == theme_name(*config, optional(cli_theme)),
{
    match cli_theme {
        Some(name) => name.to_owned(),
        None => match &config.theme {
            Some(name) => name.clone(),
            None => "dark".to_owned(),
        },
    }
}

/// The theme of this name.
fn find_theme(config: &Config, name: &str) -> (r: Option<Theme>)
    ensures
        r.deep_view() == theme_named(*config, name@),
{
    match Theme::by_name(name) {
        Some(theme) => Some(theme),
        None => match config.themes.get(name) {
            Some(custom) => Some(custom.to_theme()),
            None => None,
        },
    }
}

/// The theme, or the dark one where the theme is not known.
pub fn resolve_theme(config: &Config, cli_theme: Option<&str>) -> (r: Theme)
    ensures
        r.deep_view() == match theme_named(*config, theme_name(*config, optional(cli_theme))) {
            Some(theme) => theme,
            None => ThemeView::dark(),
        },
{
    let name = pick_theme_name(config, cli_theme);
    match find_theme(config, name.as_str()) {
        Some(theme) => theme,
        None => Theme::dark(),
    }
}

/// The warning that the theme is not known.
pub open spec fn unknown_theme(config: Config, cli: Option<Seq<char>>) -> Option<Seq<char>> {
    let name = theme_name(config, cli);
    if theme_named(config, name) is None {
        Some("Warning: unknown theme '"@ + name + "', falling back to dark"@)
    } else {
        None
    }
}

/// The warning that the theme is not known.
pub fn theme_warning(config: &Config, cli_theme: Option<&str>) -> (r: Option<String>)
    ensures
        r.deep_view() == unknown_theme(*config, optional(cli_theme)),
{
    let name = pick_theme_name(config, cli_theme);
    match find_theme(config, name.as_str()) {
        Some(_) => None,
        None => Some(
            text::cat3("Warning: unknown theme '", name.as_str(), "', falling back to dark"),
        ),
    }
}

/// The command line is stronger than the file, and a built-in theme stronger
/// than one of the file with the same name.
pub proof fn law_theme_priority(config: Config, cli: Seq<char>)
    ensures
        theme_name(config, Some(cli)) == cli,
        config.theme matches Some(name) ==> theme_name(config, None) == name@,
        ThemeView::by_name(cli) is Some ==> theme_named(config, cli) == ThemeView::by_name(cli),
{
}

/// A layout is named by its words, whatever their case and whatever blanks stand
/// around them. Every other name is warned of, and no known one.
pub proof fn law_layout_named(config: Config, name: Seq<char>)
    ensures
        ({
            let n = text::ascii_lower(text::trim(name));
            &&& n == "unified"@ ==> layout_named(name) == Some(ViewMode::Unified)
            &&& n == "side-by-side"@ || n == "sidebyside"@ || n == "side_by_side"@ || n
                == "split"@ ==> layout_named(name) == Some(ViewMode::SideBySide)
            &&& n != "unified"@ && n != "side-by-side"@ && n != "sidebyside"@ && n
                != "side_by_side"@ && n != "split"@ ==> layout_named(name) is None
            &&& config.view_mode is None ==> layout_warning(config) is None
            &&& (config.view_mode matches Some(s) && s@ == name) ==> (layout_warning(config) is None
                <==> layout_named(name) is Some)
        }),
{
    reveal_strlit("unified");
    reveal_strlit("side-by-side");
    reveal_strlit("sidebyside");
    reveal_strlit("side_by_side");
    reveal_strlit("split");
    assert("unified"@.len() == 7 && "side-by-side"@.len() == 12 && "sidebyside"@.len() == 10);
    assert("side_by_side"@.len() == 12 && "split"@.len() == 5);
}

/// Without a name anywhere the theme is the dark one. A name of the file finds the
/// theme that the file makes of it. A name that nothing has is warned of, by that
/// name, and no other.
pub proof fn law_theme_found(config: Config, cli: Option<Seq<char>>, name: Seq<char>)
    ensures
        config.theme is None ==> theme_name(config, None) == "dark"@,
        theme_named(config, "dark"@) == Some(ThemeView::dark()),
        theme_named(config, "light"@) == Some(ThemeView::light()),
        name != "dark"@ && name != "light"@ && config.themes@.dom().contains(name)
            ==> theme_named(config, name) == Some(config.themes@[name].theme_view()),
        name != "dark"@ && name != "light"@ && !config.themes@.dom().contains(name)
            ==> theme_named(config, name) is None && unknown_theme(config, Some(name)) == Some(
            "Warning: unknown theme '"@ + name + "', falling back to dark"@,
        ),
        theme_named(config, theme_name(config, cli)) is Some ==> unknown_theme(config, cli) is None,
{
    reveal_strlit("dark");
    reveal_strlit("light");
    assert("dark"@.len() != "light"@.len());
}

} // verus!
