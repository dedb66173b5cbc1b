//! Character measures, position tables and text.

pub mod char_position;
pub mod text;
pub mod utf16;
