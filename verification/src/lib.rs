//! Verified core of a screen color picker: hex color codes, nearest dictionary
//! color search, screen-capture pixel conversion and capture encoding, and the
//! small decisions the desktop shell takes around them.

pub mod color;
pub mod pixels;
pub mod codec;
pub mod capture;
pub mod cursor;
pub mod settings;
pub mod window;
