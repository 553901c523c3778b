use cosmic_edit::config::font_locale;
use cosmic_edit::config::locale_or_default;
use cosmic_edit::config::CosmicFontConfig;
use cosmic_edit::config::CursorConfig;
use cosmic_edit::config::FontSource;

#[test]
fn cursor_config_default_changes_the_icon() {
    assert_eq!(CursorConfig::default(), CursorConfig::Default);
    assert!(CursorConfig::Default.raises_hover_events());
    assert!(CursorConfig::Default.changes_cursor_icon());
}

#[test]
fn cursor_config_events_only_raises_events() {
    assert!(CursorConfig::Events.raises_hover_events());
    assert!(!CursorConfig::Events.changes_cursor_icon());
}

#[test]
fn cursor_config_disabled_does_nothing() {
    assert!(!CursorConfig::Disabled.raises_hover_events());
    assert!(!CursorConfig::Disabled.changes_cursor_icon());
}

#[test]
fn locale_falls_back_to_en_us() {
    assert_eq!(locale_or_default(None), "en-US");
    assert_eq!(locale_or_default(Some(String::from("fr-FR"))), "fr-FR");
    assert!(!font_locale().is_empty());
}

#[test]
fn fallback_config_loads_one_font_from_memory() {
    let config = CosmicFontConfig::with_fallback(vec![1, 2, 3]);
    assert_eq!(config.fonts_dir_path, None);
    assert_eq!(config.font_bytes, Some(vec![vec![1, 2, 3]]));
    assert!(!config.load_system_fonts);
    assert_eq!(config.sources(), vec![FontSource::Bytes(0)]);
}

#[test]
fn fonts_load_in_order_directory_memory_system() {
    let config = CosmicFontConfig {
        fonts_dir_path: Some(String::from("fonts")),
        font_bytes: Some(vec![vec![1], vec![2]]),
        load_system_fonts: true,
    };
    assert_eq!(
        config.sources(),
        vec![FontSource::Directory, FontSource::Bytes(0), FontSource::Bytes(1), FontSource::System]
    );
}

#[test]
fn empty_config_loads_nothing() {
    let config = CosmicFontConfig { fonts_dir_path: None, font_bytes: None, load_system_fonts: false };
    assert_eq!(config.sources(), Vec::<FontSource>::new());
}
