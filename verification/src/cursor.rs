//! Where the mouse pointer is.
use vstd::prelude::*;

verus! {

/// A screen position in pixels.
#[derive(Debug, Clone, Copy, PartialEq, Eq)]
pub struct CursorPos {
    pub x: i32,
    pub y: i32,
}

/// An X server's answer about the pointer: whether it is on the queried root
/// window's screen, its position on the root window and in the child window.
#[derive(Debug, Clone, Copy, PartialEq, Eq)]
pub struct PointerQuery {
    pub same_screen: bool,
    pub root_x: i16,
    pub root_y: i16,
    pub win_x: i16,
    pub win_y: i16,
}

/// The position a pointer query stands for: the root-window position, except when the
/// pointer is off the screen or that position is `(0, 0)` (as some nested X servers
/// report it), in which case a window position other than `(0, 0)` is taken instead.
pub open spec fn pointer_position(q: PointerQuery) -> CursorPos {
    if (!q.same_screen || (q.root_x == 0 && q.root_y == 0)) && (q.win_x != 0 || q.win_y != 0) {
        CursorPos { x: q.win_x as i32, y: q.win_y as i32 }
    } else {
        CursorPos { x: q.root_x as i32, y: q.root_y as i32 }
    }
}

/// Reads the cursor position out of an X pointer query.
pub fn cursor_from_pointer(q: PointerQuery) -> (pos: CursorPos)
    ensures
        pos == pointer_position(q),
        q.same_screen && (q.root_x != 0 || q.root_y != 0) ==> pos.x == q.root_x && pos.y == q.root_y,
        q.win_x == 0 && q.win_y == 0 ==> pos.x == q.root_x && pos.y == q.root_y,
        (!q.same_screen || (q.root_x == 0 && q.root_y == 0)) && (q.win_x != 0 || q.win_y != 0) ==> pos.x == q.win_x
            && pos.y == q.win_y,
{
    if !q.same_screen || (q.root_x == 0 && q.root_y == 0) {
        let wx = q.win_x;
        let wy = q.win_y;
        if wx != 0 || wy != 0 {
            return CursorPos { x: wx as i32, y: wy as i32 };
        }
    }
    CursorPos { x: q.root_x as i32, y: q.root_y as i32 }
}

/// The cursor position where no platform can tell it: always refused.
pub fn get_cursor_pos() -> (res: Result<CursorPos, String>)
    ensures
        res matches Err(msg) && msg@ == "Unsupported platform"@,
{
    proof {
        reveal_strlit("Unsupported platform");
    }
    Err("Unsupported platform".to_string())
}

} // verus!
