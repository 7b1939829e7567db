//! Theme color codes a module can name in widget styles.
//!
//! A module names a color by a small code; the shell resolves codes
//! against its configured palette.  Code 0 is "unstyled"; a custom color
//! is carried by name and resolved shell-side.

use vstd::prelude::*;

verus! {

/// One palette slot of the shell's sixteen-color theme, its foreground or
/// background, or a custom color looked up by name.
#[derive(Debug, Clone, PartialEq, Eq)]
pub enum Color {
    Color01,
    Color02,
    Color03,
    Color04,
    Color05,
    Color06,
    Color07,
    Color08,
    Color09,
    Color10,
    Color11,
    Color12,
    Color13,
    Color14,
    Color15,
    Color16,
    ColorForeground,
    ColorBackground,
    Custom(Box<String>),
}

impl Color {
    /// The wire code of a color; a custom color travels as code 19 and is
    /// resolved by name shell-side.
    pub open spec fn spec_code(self) -> u8 {
        match self {
            Color::Color01 => 1,
            Color::Color02 => 2,
            Color::Color03 => 3,
            Color::Color04 => 4,
            Color::Color05 => 5,
            Color::Color06 => 6,
            Color::Color07 => 7,
            Color::Color08 => 8,
            Color::Color09 => 9,
            Color::Color10 => 10,
            Color::Color11 => 11,
            Color::Color12 => 12,
            Color::Color13 => 13,
            Color::Color14 => 14,
            Color::Color15 => 15,
            Color::Color16 => 16,
            Color::ColorForeground => 17,
            Color::ColorBackground => 18,
            Color::Custom(_) => 19,
        }
    }

    /// The wire code of a color.
    pub fn code(&self) -> (r: u8)
        ensures
            r == self.spec_code(),
            r >= 1,
    {
        match self {
            Color::Color01 => 1,
            Color::Color02 => 2,
            Color::Color03 => 3,
            Color::Color04 => 4,
            Color::Color05 => 5,
            Color::Color06 => 6,
            Color::Color07 => 7,
            Color::Color08 => 8,
            Color::Color09 => 9,
            Color::Color10 => 10,
            Color::Color11 => 11,
            Color::Color12 => 12,
            Color::Color13 => 13,
            Color::Color14 => 14,
            Color::Color15 => 15,
            Color::Color16 => 16,
            Color::ColorForeground => 17,
            Color::ColorBackground => 18,
            Color::Custom(_) => 19,
        }
    }
}

} // verus!
