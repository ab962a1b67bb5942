//! The theme colour configuration: the fields the colour file carries
//! and their built-in defaults. Locating, reading and decoding the file
//! are input/output done outside the library; the decoded values arrive
//! here as plain strings and switches.
use vstd::prelude::*;

verus! {

/// The colour configuration: five colours and the optional presentation
/// switches the file may carry.
pub struct ColorConfig {
    pub background: String,
    pub primary: String,
    pub secondary: String,
    pub text: String,
    pub accent: String,
    pub last_wallpaper: Option<String>,
    pub color_preset: Option<String>,
    pub sidebar_position: Option<String>,
    pub notifications_enabled: Option<bool>,
    pub notification_sounds_enabled: Option<bool>,
    pub sidebar_visible: Option<bool>,
    pub rounding: Option<String>,
}

impl Default for ColorConfig {
    /// The built-in dark theme, used whenever the colour file is missing
    /// or unreadable: fixed hex colours, rounded corners, nothing else
    /// set.
    fn default() -> (r: Self)
        ensures
            r.background@ == "#0a0a0a"@,
            r.primary@ == "#1a1a1a"@,
            r.secondary@ == "#121212"@,
            r.text@ == "#ffffff"@,
            r.accent@ == "#4a9eff"@,
            r.last_wallpaper is None,
            r.color_preset is None,
            r.sidebar_position is None,
            r.notifications_enabled is None,
            r.notification_sounds_enabled is None,
            r.sidebar_visible is None,
            (r.rounding matches Some(s) && s@ == "rounded"@),
    {
        ColorConfig {
            background: String::from_str("#0a0a0a"),
            primary: String::from_str("#1a1a1a"),
            secondary: String::from_str("#121212"),
            text: String::from_str("#ffffff"),
            accent: String::from_str("#4a9eff"),
            last_wallpaper: None,
            color_preset: None,
            sidebar_position: None,
            notifications_enabled: None,
            notification_sounds_enabled: None,
            sidebar_visible: None,
            rounding: Some(String::from_str("rounded")),
        }
    }
}

/// The sidebar preference read from the same colour file: whether hidden
/// files show. A missing file, an unreadable file, or a file without the
/// switch all mean hidden files stay hidden.
pub struct SidebarPrefs;

impl SidebarPrefs {
    /// Resolves the switch from what the file carried, when anything.
    pub fn show_hidden_files(loaded: Option<Option<bool>>) -> (r: bool)
        ensures
            r == (loaded matches Some(inner) && inner matches Some(b) && b),
    {
        match loaded {
            Some(Some(b)) => b,
            _ => false,
        }
    }
}

} // verus!
