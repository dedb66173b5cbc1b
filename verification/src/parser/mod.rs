//! The matcher: from tokens to pairs.

pub mod bracket;
pub mod families;
pub mod laws;
