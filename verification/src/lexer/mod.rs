//! The scanner: from text to the delimiters that count.

pub mod bracket;
pub mod laws;
