//! Plain records for the layer that hands results to the editor.

pub mod bracket;
pub mod diagnostic;
pub mod font;
pub mod package;
pub mod processor;
