//! The record of a font, as the editor receives it.

use vstd::prelude::*;

verus! {

/// The style of a font.
#[derive(Clone, Copy, Debug, PartialEq, Eq, Structural)]
pub enum FontStyle {
    Normal,
    Italic,
    Oblique,
}

/// The name under which a style is recorded.
pub open spec fn style_name(style: FontStyle) -> Seq<char> {
    match style {
        FontStyle::Normal => "Normal"@,
        FontStyle::Italic => "Italic"@,
        FontStyle::Oblique => "Oblique"@,
    }
}

/// The variant of a font: its style by name, its weight, and its stretch in
/// whole units.
#[derive(Clone, Debug, PartialEq, Eq)]
pub struct FontVariantSer {
    pub style: String,
    pub weight: u16,
    pub stretch: u16,
}

/// The record of a font: its family, its variant, its flags and the code
/// points that it covers.
#[derive(Clone, Debug, PartialEq, Eq)]
pub struct FontInfoSer {
    pub family: String,
    pub variant: FontVariantSer,
    pub flags: u32,
    pub coverage: Vec<u32>,
}

impl FontVariantSer {
    /// The record of a variant.
    pub fn new(style: FontStyle, weight: u16, stretch: u16) -> (variant: FontVariantSer)
        ensures
            variant.style@ == style_name(style),
            variant.weight == weight,
            variant.stretch == stretch,
    {
        let style = match style {
            FontStyle::Normal => "Normal".to_owned(),
            FontStyle::Italic => "Italic".to_owned(),
            FontStyle::Oblique => "Oblique".to_owned(),
        };
        FontVariantSer { style, weight, stretch }
    }
}

impl FontInfoSer {
    /// The record of a font.
    pub fn new(
        family: String,
        style: FontStyle,
        weight: u16,
        stretch: u16,
        flags: u32,
        coverage: Vec<u32>,
    ) -> (info: FontInfoSer)
        ensures
            info.family == family,
            info.variant.style@ == style_name(style),
            info.variant.weight == weight,
            info.variant.stretch == stretch,
            info.flags == flags,
            info.coverage == coverage,
    {
        let variant = FontVariantSer::new(style, weight, stretch);
        FontInfoSer { family, variant, flags, coverage }
    }
}

} // verus!
