use wtop::app::KeyCode;
use wtop::theme::ThemeChoice;
use wtop::theme::{Color, Theme, THEME_COUNT};

#[test]
fn built_in_themes_have_stable_labels_and_wrap_when_cycled() {
    assert_eq!(Theme::ALL.len(), 10);
    assert_eq!(Theme::Default.label(), "Default");
    assert_eq!(Theme::Nord.label(), "Nord");
    assert_eq!(Theme::Dusk.next(), Theme::Default);
    assert_eq!(Theme::Default.previous(), Theme::Dusk);
}

#[test]
fn original_themes_keep_text_and_selection_distinct_from_the_background() {
    for theme in [Theme::Ocean, Theme::Evergreen, Theme::Dusk] {
        let palette = theme.palette();
        assert_ne!(palette.foreground, palette.background);
        assert_ne!(palette.selection_foreground, palette.selection_background);
    }
}

#[test]
fn next_and_previous_undo_each_other_for_every_theme() {
    for theme in Theme::ALL {
        assert_eq!(theme.next().previous(), theme);
        assert_eq!(theme.previous().next(), theme);
    }
}

#[test]
fn cycling_through_every_theme_returns_to_the_start() {
    for start in Theme::ALL {
        let mut theme = start;
        let mut seen = Vec::new();
        for _ in 0..THEME_COUNT {
            seen.push(theme.label());
            theme = theme.next();
        }
        assert_eq!(theme, start);
        seen.sort();
        seen.dedup();
        assert_eq!(seen.len(), THEME_COUNT);
    }
}

#[test]
fn every_theme_keeps_text_readable() {
    for theme in Theme::ALL {
        let palette = theme.palette();
        assert_ne!(palette.foreground, palette.background);
        assert_ne!(palette.selection_foreground, palette.selection_background);
    }
}

#[test]
fn default_palette_uses_semantic_terminal_colors() {
    let palette = Theme::Default.palette();
    assert_eq!(palette.background, Color::Reset);
    assert_eq!(palette.good, Color::Green);
    assert_eq!(palette.warning, Color::Yellow);
    assert_eq!(palette.critical, Color::Red);
    assert_eq!(Theme::Nord.palette().background, Color::Rgb(46, 52, 64));
    assert_eq!(Theme::BlackOnWhite.label(), "Black on White");
}

#[test]
fn the_theme_menu_previews_then_applies_or_cancels() {

    let mut choice = ThemeChoice::default();
    assert!(!choice.handle_key(KeyCode::Down));
    assert!(choice.handle_key(KeyCode::Char('o')));
    assert_eq!(choice.menu, Some(Theme::Default));
    assert!(choice.handle_key(KeyCode::Down));
    assert!(choice.handle_key(KeyCode::Down));
    assert_eq!(choice.shown(), Theme::BlackOnWhite);
    assert_eq!(choice.applied, Theme::Default);
    assert!(choice.handle_key(KeyCode::Char('q')));
    assert!(choice.handle_key(KeyCode::Enter));
    assert_eq!(choice, ThemeChoice { applied: Theme::BlackOnWhite, menu: None });

    assert!(choice.handle_key(KeyCode::Char('o')));
    assert!(choice.handle_key(KeyCode::Up));
    assert!(choice.handle_key(KeyCode::Up));
    assert!(choice.handle_key(KeyCode::Up));
    assert_eq!(choice.shown(), Theme::Dusk);
    assert!(choice.handle_key(KeyCode::Esc));
    assert_eq!(choice, ThemeChoice { applied: Theme::BlackOnWhite, menu: None });
    assert_eq!(choice.shown(), Theme::BlackOnWhite);
}
