use blink_core::colors::{ColorConfig, SidebarPrefs};

#[test]
fn the_default_theme_is_the_fixed_dark_palette() {
    let c = ColorConfig::default();
    assert_eq!(c.background, "#0a0a0a");
    assert_eq!(c.primary, "#1a1a1a");
    assert_eq!(c.secondary, "#121212");
    assert_eq!(c.text, "#ffffff");
    assert_eq!(c.accent, "#4a9eff");
    assert!(c.last_wallpaper.is_none());
    assert!(c.color_preset.is_none());
    assert!(c.sidebar_position.is_none());
    assert!(c.notifications_enabled.is_none());
    assert!(c.notification_sounds_enabled.is_none());
    assert!(c.sidebar_visible.is_none());
    assert_eq!(c.rounding, Some("rounded".to_string()));
}

#[test]
fn hidden_files_stay_hidden_unless_the_switch_says_otherwise() {
    // no file at all
    assert!(!SidebarPrefs::show_hidden_files(None));
    // a file without the switch
    assert!(!SidebarPrefs::show_hidden_files(Some(None)));
    // the switch set either way
    assert!(!SidebarPrefs::show_hidden_files(Some(Some(false))));
    assert!(SidebarPrefs::show_hidden_files(Some(Some(true))));
}
