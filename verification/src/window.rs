//! Decisions about the picker's own window.
use vstd::prelude::*;
use vstd::string::StringSliceAdditionalSpecFns;

verus! {

/// What showing or hiding the window from the shortcut or tray does.
#[derive(Debug, Clone, Copy, PartialEq, Eq)]
pub enum WindowToggle {
    /// Hide the window to the tray.
    Hide,
    /// Show and focus the window, restoring it first when `unminimize` holds.
    Show { unminimize: bool },
}

/// Decides the toggle from whether the window is minimized and visible; a state the
/// window system could not report counts as `false`.
pub fn toggle_window_action(minimized: Option<bool>, visible: Option<bool>) -> (action: WindowToggle)
    ensures
        ({
            let is_minimized = minimized == Some(true);
            let is_visible = visible == Some(true);
            action == if is_visible && !is_minimized {
                WindowToggle::Hide
            } else {
                WindowToggle::Show { unminimize: is_minimized }
            }
        }),
{
    let is_minimized = match minimized {
        Some(m) => m,
        None => false,
    };
    let is_visible = match visible {
        Some(v) => v,
        None => false,
    };
    if is_visible && !is_minimized {
        WindowToggle::Hide
    } else {
        WindowToggle::Show { unminimize: is_minimized }
    }
}

/// The window's outer rectangle in logical pixels.
#[derive(Debug, Clone, Copy, PartialEq, Eq)]
pub struct WindowBounds {
    pub x: i32,
    pub y: i32,
    pub width: i32,
    pub height: i32,
}

/// Whether a point lies in a window's rectangle (left and top edges included).
pub open spec fn inside_window(cx: int, cy: int, b: WindowBounds) -> bool {
    b.x <= cx < b.x + b.width && b.y <= cy < b.y + b.height
}

/// A point is over the window exactly when it lies within the window's span on both
/// axes: a point left or right of the window, or above or below it, is not over it.
pub proof fn lemma_inside_window_both_axes(cx: int, cy: int, b: WindowBounds)
    ensures
        inside_window(cx, cy, b) <==> (b.x <= cx && cx < b.x + b.width && b.y <= cy && cy < b.y + b.height),
        cy < b.y || cy >= b.y + b.height ==> !inside_window(cx, cy, b),
        cx < b.x || cx >= b.x + b.width ==> !inside_window(cx, cy, b),
{
}

/// The window to leave out of a capture: none (0) while the cursor is over the
/// picker's own window, so its colors can be sampled; otherwise the window itself
/// (`own_window_id`), so it does not cover what lies behind it. Unknown bounds count
/// as the cursor being elsewhere.
pub fn excluded_window_id(cx: i32, cy: i32, bounds: Option<WindowBounds>, own_window_id: u32) -> (id: u32)
    requires
        bounds matches Some(b) ==> {
            &&& i32::MIN <= b.x + b.width <= i32::MAX
            &&& i32::MIN <= b.y + b.height <= i32::MAX
        },
    ensures
        id == if bounds matches Some(b) && inside_window(cx as int, cy as int, b) {
            0
        } else {
            own_window_id
        },
        bounds matches Some(b) && b.x <= cx < b.x + b.width && b.y <= cy < b.y + b.height ==> id == 0,
        bounds is None ==> id == own_window_id,
        bounds matches Some(b) && (cx < b.x || cx >= b.x + b.width) ==> id == own_window_id,
        bounds matches Some(b) && (cy < b.y || cy >= b.y + b.height) ==> id == own_window_id,
{
    let over_self = match bounds {
        Some(b) => {
            let x1 = b.x + b.width;
            let y1 = b.y + b.height;
            cx >= b.x && cx < x1 && cy >= b.y && cy < y1
        },
        None => false,
    };
    if over_self {
        0
    } else {
        own_window_id
    }
}

/// Modifier keys held with a key.
#[derive(Debug, Clone, Copy, PartialEq, Eq)]
pub struct Modifiers {
    pub control: bool,
    pub alt: bool,
    pub shift: bool,
    pub super_key: bool,
}

/// What a global shortcut asks for.
#[derive(Debug, Clone, Copy, PartialEq, Eq)]
pub enum ShortcutCommand {
    /// Show or hide the window (Ctrl+Alt+C).
    ToggleWindow,
    /// Copy the current color (Ctrl+Shift+C).
    QuickCopy,
    /// Lock or unlock the picked color (Ctrl+Shift+Alt+C).
    ToggleLock,
}

/// The command a key event triggers: only a press of C with exactly one of the
/// registered modifier combinations does anything.
pub open spec fn shortcut_for(mods: Modifiers, key_is_c: bool, pressed: bool) -> Option<ShortcutCommand> {
    if !pressed || !key_is_c || !mods.control || mods.super_key {
        None
    } else if mods.alt && !mods.shift {
        Some(ShortcutCommand::ToggleWindow)
    } else if mods.shift && !mods.alt {
        Some(ShortcutCommand::QuickCopy)
    } else if mods.shift && mods.alt {
        Some(ShortcutCommand::ToggleLock)
    } else {
        None
    }
}

/// Only a press does anything: releasing a key, whatever the modifiers, triggers no
/// command; so does any key but C, a missing Control, or a held Super key. Each command
/// belongs to exactly one combination: Alt alone for the window, Shift alone for the
/// copy, both for the lock.
pub proof fn lemma_shortcut_press_only(mods: Modifiers, key_is_c: bool, pressed: bool)
    ensures
        !pressed ==> shortcut_for(mods, key_is_c, pressed) is None,
        !key_is_c || !mods.control || mods.super_key ==> shortcut_for(mods, key_is_c, pressed) is None,
        shortcut_for(mods, key_is_c, pressed) == Some(ShortcutCommand::ToggleWindow) <==> pressed && key_is_c
            && mods.control && !mods.super_key && mods.alt && !mods.shift,
        shortcut_for(mods, key_is_c, pressed) == Some(ShortcutCommand::QuickCopy) <==> pressed && key_is_c
            && mods.control && !mods.super_key && !mods.alt && mods.shift,
        shortcut_for(mods, key_is_c, pressed) == Some(ShortcutCommand::ToggleLock) <==> pressed && key_is_c
            && mods.control && !mods.super_key && mods.alt && mods.shift,
{
}

/// Maps a global key event to the command registered for it.
pub fn shortcut_command(mods: Modifiers, key_is_c: bool, pressed: bool) -> (cmd: Option<ShortcutCommand>)
    ensures
        cmd == shortcut_for(mods, key_is_c, pressed),
        !pressed || !key_is_c || !mods.control || mods.super_key ==> cmd is None,
        cmd == Some(ShortcutCommand::ToggleWindow) <==> pressed && key_is_c && mods.control && !mods.super_key
            && mods.alt && !mods.shift,
        cmd == Some(ShortcutCommand::QuickCopy) <==> pressed && key_is_c && mods.control && !mods.super_key
            && !mods.alt && mods.shift,
        cmd == Some(ShortcutCommand::ToggleLock) <==> pressed && key_is_c && mods.control && !mods.super_key
            && mods.alt && mods.shift,
{
    if !pressed || !key_is_c || !mods.control || mods.super_key {
        return None;
    }
    match (mods.alt, mods.shift) {
        (true, false) => Some(ShortcutCommand::ToggleWindow),
        (false, true) => Some(ShortcutCommand::QuickCopy),
        (true, true) => Some(ShortcutCommand::ToggleLock),
        (false, false) => None,
    }
}

/// What the tray icon and its menu ask for.
#[derive(Debug, Clone, Copy, PartialEq, Eq)]
pub enum TrayCommand {
    /// Show or hide the window.
    ToggleWindow,
    /// Quit the application.
    Quit,
}

/// A click on the tray icon toggles the window when the left button is released;
/// other clicks do nothing (the menu opens on other buttons).
pub fn tray_click_command(left_button: bool, released: bool) -> (cmd: Option<TrayCommand>)
    ensures
        cmd == if left_button && released { Some(TrayCommand::ToggleWindow) } else { None::<TrayCommand> },
{
    if left_button && released {
        Some(TrayCommand::ToggleWindow)
    } else {
        None
    }
}

/// The id of the tray menu's only item, `quit`, as bytes.
pub open spec fn quit_item_id() -> Seq<u8> {
    seq![0x71u8, 0x75u8, 0x69u8, 0x74u8]
}

/// A tray menu item quits the application when its id is `quit`; other ids do nothing.
pub fn tray_menu_command(id: &str) -> (cmd: Option<TrayCommand>)
    ensures
        cmd == if id.spec_bytes() == quit_item_id() { Some(TrayCommand::Quit) } else { None::<TrayCommand> },
{
    let b = id.as_bytes();
    if b.len() == 4 && b[0] == 0x71 && b[1] == 0x75 && b[2] == 0x69 && b[3] == 0x74 {
        assert(b@ =~= quit_item_id());
        Some(TrayCommand::Quit)
    } else {
        assert(b@ != quit_item_id());
        None
    }
}

} // verus!
