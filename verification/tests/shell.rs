use pixel_lens::cursor::{cursor_from_pointer, get_cursor_pos, CursorPos, PointerQuery};
use pixel_lens::settings::Settings;
use pixel_lens::window::{
    excluded_window_id, shortcut_command, toggle_window_action, tray_click_command, tray_menu_command, Modifiers,
    ShortcutCommand, TrayCommand, WindowBounds, WindowToggle,
};

fn query(same_screen: bool, root: (i16, i16), win: (i16, i16)) -> PointerQuery {
    PointerQuery { same_screen, root_x: root.0, root_y: root.1, win_x: win.0, win_y: win.1 }
}

#[test]
fn cursor_uses_root_position() {
    assert_eq!(cursor_from_pointer(query(true, (120, 40), (3, 4))), CursorPos { x: 120, y: 40 });
}

#[test]
fn cursor_falls_back_to_window_position() {
    assert_eq!(cursor_from_pointer(query(true, (0, 0), (3, 4))), CursorPos { x: 3, y: 4 });
    assert_eq!(cursor_from_pointer(query(false, (7, 8), (-3, 4))), CursorPos { x: -3, y: 4 });
    assert_eq!(cursor_from_pointer(query(false, (7, 8), (0, 0))), CursorPos { x: 7, y: 8 });
}

#[test]
fn cursor_unsupported_platform() {
    assert_eq!(get_cursor_pos().unwrap_err(), "Unsupported platform");
}

#[test]
fn toggle_hides_visible_window() {
    assert_eq!(toggle_window_action(Some(false), Some(true)), WindowToggle::Hide);
    assert_eq!(toggle_window_action(None, Some(true)), WindowToggle::Hide);
}

#[test]
fn toggle_shows_hidden_or_minimized_window() {
    assert_eq!(toggle_window_action(Some(true), Some(true)), WindowToggle::Show { unminimize: true });
    assert_eq!(toggle_window_action(Some(false), Some(false)), WindowToggle::Show { unminimize: false });
    assert_eq!(toggle_window_action(None, None), WindowToggle::Show { unminimize: false });
}

#[test]
fn capture_excludes_own_window_unless_cursor_is_over_it() {
    let b = WindowBounds { x: 100, y: 100, width: 50, height: 40 };
    assert_eq!(excluded_window_id(120, 120, Some(b), 77), 0);
    assert_eq!(excluded_window_id(150, 120, Some(b), 77), 77);
    assert_eq!(excluded_window_id(100, 139, Some(b), 77), 0);
    assert_eq!(excluded_window_id(120, 120, None, 77), 77);
}

#[test]
fn default_settings() {
    let s = Settings::default();
    assert_eq!(s.zoom_level, 10);
    assert!(s.use_jis_colors);
    assert_eq!(s.shortcut, "CommandOrControl+Alt+C");
    assert_eq!(s.copy_shortcut, "Ctrl+Shift+C");
    assert_eq!(s.copy_format, "hex");
    assert_eq!(s.theme, "dark");
    assert!(s.show_grid);
    assert_eq!(s.language, "en");
}

fn mods(control: bool, alt: bool, shift: bool) -> Modifiers {
    Modifiers { control, alt, shift, super_key: false }
}

#[test]
fn global_shortcuts() {
    assert_eq!(shortcut_command(mods(true, true, false), true, true), Some(ShortcutCommand::ToggleWindow));
    assert_eq!(shortcut_command(mods(true, false, true), true, true), Some(ShortcutCommand::QuickCopy));
    assert_eq!(shortcut_command(mods(true, true, true), true, true), Some(ShortcutCommand::ToggleLock));
    assert_eq!(shortcut_command(mods(true, true, false), true, false), None);
    assert_eq!(shortcut_command(mods(false, true, true), true, true), None);
    assert_eq!(shortcut_command(mods(true, true, false), false, true), None);
    assert_eq!(shortcut_command(mods(true, false, false), true, true), None);
}

#[test]
fn tray_commands() {
    assert_eq!(tray_click_command(true, true), Some(TrayCommand::ToggleWindow));
    assert_eq!(tray_click_command(true, false), None);
    assert_eq!(tray_click_command(false, true), None);
    assert_eq!(tray_menu_command("quit"), Some(TrayCommand::Quit));
    assert_eq!(tray_menu_command("quit "), None);
    assert_eq!(tray_menu_command("other"), None);
}
