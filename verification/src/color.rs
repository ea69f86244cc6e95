//! Colors and the palette that the board engine paints with.
//!
//! The engine never interprets a color; it only stores override colors on
//! cells and candidate slots and hands them back to whoever renders the
//! board. A color is therefore a plain RGB triple, and the palette is a
//! struct of named colors with fixed default values.

use vstd::prelude::*;

verus! {

/// An RGB color, as stored on cells and candidate slots.
#[derive(Clone, Copy, PartialEq, Eq, Structural, Debug)]
pub struct Color {
    pub r: u8,
    pub g: u8,
    pub b: u8,
}

/// The named colors the engine uses for its built-in highlights, plus the
/// defaults that cells and slots revert to.
#[derive(Clone, Copy, PartialEq, Eq, Structural, Debug)]
pub struct Theme {
    pub white: Color,
    pub black: Color,
    pub red: Color,
    pub green: Color,
    pub yellow: Color,
    pub blue: Color,
    pub purple: Color,
    pub cyan: Color,
    pub dark_grey: Color,
    pub grey: Color,
    pub light_grey: Color,
}

/// The one palette the engine is built around.
pub open spec fn default_theme() -> Theme {
    Theme {
        white: (Color { r: 200, g: 200, b: 200 }),
        black: (Color { r: 31, g: 35, b: 53 }),
        red: (Color { r: 247, g: 118, b: 142 }),
        green: (Color { r: 115, g: 218, b: 202 }),
        yellow: (Color { r: 224, g: 175, b: 104 }),
        blue: (Color { r: 122, g: 162, b: 247 }),
        purple: (Color { r: 187, g: 154, b: 247 }),
        cyan: (Color { r: 127, g: 207, b: 255 }),
        dark_grey: (Color { r: 65, g: 72, b: 104 }),
        grey: (Color { r: 121, g: 130, b: 169 }),
        light_grey: (Color { r: 169, g: 177, b: 214 }),
    }
}

impl Default for Theme {
    fn default() -> (t: Theme)
        ensures
            t == default_theme(),
    {
        Theme {
            white: Color { r: 200, g: 200, b: 200 },
            black: Color { r: 31, g: 35, b: 53 },
            red: Color { r: 247, g: 118, b: 142 },
            green: Color { r: 115, g: 218, b: 202 },
            yellow: Color { r: 224, g: 175, b: 104 },
            blue: Color { r: 122, g: 162, b: 247 },
            purple: Color { r: 187, g: 154, b: 247 },
            cyan: Color { r: 127, g: 207, b: 255 },
            dark_grey: Color { r: 65, g: 72, b: 104 },
            grey: Color { r: 121, g: 130, b: 169 },
            light_grey: Color { r: 169, g: 177, b: 214 },
        }
    }
}

} // verus!
