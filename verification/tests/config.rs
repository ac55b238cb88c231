//! The configuration file.
use giff::config::{
    resolve_theme, resolve_view_mode, resolve_wrap, theme_warning, view_mode_warning, Config,
};
use giff::ui::theme::{parse_color, Color, ThemeConfig};
use giff::ui::ViewMode;

fn empty_config() -> Config {
    Config::default()
}

fn config_with_theme(name: &str) -> Config {
    Config {
        theme: Some(name.to_string()),
        ..Default::default()
    }
}

#[test]
fn resolve_defaults_to_dark() {
    let t = resolve_theme(&empty_config(), None);
    assert!(t.is_dark);
}

#[test]
fn resolve_cli_overrides_config() {
    let config = config_with_theme("dark");
    let t = resolve_theme(&config, Some("light"));
    assert!(!t.is_dark);
}

#[test]
fn resolve_config_file_theme() {
    let config = config_with_theme("light");
    let t = resolve_theme(&config, None);
    assert!(!t.is_dark);
}

#[test]
fn resolve_unknown_falls_back_to_dark() {
    let t = resolve_theme(&empty_config(), Some("nonexistent"));
    assert!(t.is_dark);
}

#[test]
fn resolve_custom_theme_from_config() {
    let mut config = empty_config();
    config.themes.insert(
        "custom".to_string(),
        ThemeConfig {
            base: Some("light".to_string()),
            accent: Some("#FF0000".to_string()),
            ..Default::default()
        },
    );
    let t = resolve_theme(&config, Some("custom"));
    assert!(!t.is_dark); // based on light
    assert_eq!(t.accent, Color::Rgb(255, 0, 0));
}

#[test]
fn resolve_wrap_defaults_true() {
    assert!(resolve_wrap(&empty_config()));
}

#[test]
fn resolve_wrap_honors_config() {
    let cfg = Config {
        wrap: Some(false),
        ..Default::default()
    };
    assert!(!resolve_wrap(&cfg));
}

#[test]
fn resolve_view_mode_defaults_side_by_side() {
    assert!(matches!(
        resolve_view_mode(&empty_config()),
        ViewMode::SideBySide
    ));
}

#[test]
fn resolve_view_mode_parses_unified() {
    let cfg = Config {
        view_mode: Some("unified".to_string()),
        ..Default::default()
    };
    assert!(matches!(resolve_view_mode(&cfg), ViewMode::Unified));
}

#[test]
fn resolve_view_mode_parses_side_by_side_aliases() {
    for alias in ["side-by-side", "SideBySide", "split", "side_by_side"] {
        let cfg = Config {
            view_mode: Some(alias.to_string()),
            ..Default::default()
        };
        assert!(
            matches!(resolve_view_mode(&cfg), ViewMode::SideBySide),
            "alias {} should resolve to SideBySide",
            alias
        );
    }
}

#[test]
fn resolve_view_mode_unknown_falls_back() {
    let cfg = Config {
        view_mode: Some("not-a-mode".to_string()),
        ..Default::default()
    };
    assert!(matches!(resolve_view_mode(&cfg), ViewMode::SideBySide));
}

#[test]
fn resolve_priority_cli_over_config_over_default() {
    // CLI wins over config
    let config = config_with_theme("light");
    let t = resolve_theme(&config, Some("dark"));
    assert!(t.is_dark);

    // Config wins over default
    let config = config_with_theme("light");
    let t = resolve_theme(&config, None);
    assert!(!t.is_dark);

    // Default is dark
    let t = resolve_theme(&empty_config(), None);
    assert!(t.is_dark);
}

#[test]
fn unknown_names_are_warned_about() {
    assert_eq!(
        theme_warning(&empty_config(), Some("nonexistent")),
        Some("Warning: unknown theme 'nonexistent', falling back to dark".to_string())
    );
    assert_eq!(theme_warning(&empty_config(), Some("light")), None);
    assert_eq!(theme_warning(&empty_config(), None), None);
    let cfg = Config {
        view_mode: Some("not-a-mode".to_string()),
        ..Default::default()
    };
    assert!(view_mode_warning(&cfg).is_some_and(|w| w.contains("not-a-mode")));
    assert_eq!(view_mode_warning(&empty_config()), None);
}

#[test]
fn colors_are_six_hexadecimal_digits() {
    assert_eq!(parse_color("#1a2B3c"), Some(Color::Rgb(0x1a, 0x2b, 0x3c)));
    assert_eq!(parse_color("1a2b3c"), None);
    assert_eq!(parse_color("#1a2b3"), None);
    assert_eq!(parse_color("#1a2b3g"), None);
    assert_eq!(parse_color(""), None);
}
