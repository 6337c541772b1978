//! The picker's user settings.
use vstd::prelude::*;

verus! {

/// What the user can set: magnifier zoom, color dictionary, shortcuts, copy format,
/// theme, pixel grid and interface language.
#[derive(Debug, Clone)]
pub struct Settings {
    pub zoom_level: u8,
    pub use_jis_colors: bool,
    pub shortcut: String,
    pub copy_shortcut: String,
    pub copy_format: String,
    pub theme: String,
    pub show_grid: bool,
    pub language: String,
}

impl Default for Settings {
    /// Zoom 10, JIS colors and grid on, `CommandOrControl+Alt+C` to show and hide,
    /// `Ctrl+Shift+C` to copy, HEX format, dark theme, English.
    fn default() -> (s: Settings)
        ensures
            s.zoom_level == 10,
            s.use_jis_colors,
            s.shortcut@ == "CommandOrControl+Alt+C"@,
            s.copy_shortcut@ == "Ctrl+Shift+C"@,
            s.copy_format@ == "hex"@,
            s.theme@ == "dark"@,
            s.show_grid,
            s.language@ == "en"@,
    {
        Settings {
            zoom_level: 10,
            use_jis_colors: true,
            shortcut: "CommandOrControl+Alt+C".to_string(),
            copy_shortcut: "Ctrl+Shift+C".to_string(),
            copy_format: "hex".to_string(),
            theme: "dark".to_string(),
            show_grid: true,
            language: "en".to_string(),
        }
    }
}

} // verus!
