//! The drawing surface the engine renders to: an ordered list of draw calls,
//! each a solid rectangle or a line of text, that a backend rasterizes.

use vstd::prelude::*;

verus! {

/// A colour, one byte per channel.
#[derive(Clone, Copy, PartialEq, Eq, Structural)]
pub struct Color {
    pub red: u8,
    pub green: u8,
    pub blue: u8,
}

impl Color {
    pub fn new(red: u8, green: u8, blue: u8) -> (c: Color)
        ensures
            c == (Color { red, green, blue }),
    {
        Color { red, green, blue }
    }
}

/// One call against the drawing surface.
pub enum DrawCall {
    /// Fill the rectangle at `(x, y)`, `w` wide and `h` high.
    Rect { x: usize, y: usize, w: usize, h: usize, color: Color },
    /// Draw `text` at `(x, y)` at the given font size.
    Text { x: usize, y: usize, size: u32, color: Color, text: String },
}

/// The mathematical value of one draw call.
pub enum DrawCallV {
    Rect { x: int, y: int, w: int, h: int, color: Color },
    Text { x: int, y: int, size: int, color: Color, text: Seq<char> },
}

impl View for DrawCall {
    type V = DrawCallV;

    open spec fn view(&self) -> DrawCallV {
        match self {
            DrawCall::Rect { x, y, w, h, color } => DrawCallV::Rect {
                x: *x as int,
                y: *y as int,
                w: *w as int,
                h: *h as int,
                color: *color,
            },
            DrawCall::Text { x, y, size, color, text } => DrawCallV::Text {
                x: *x as int,
                y: *y as int,
                size: *size as int,
                color: *color,
                text: text@,
            },
        }
    }
}

/// The values of a list of draw calls.
pub open spec fn draws_view(calls: Seq<DrawCall>) -> Seq<DrawCallV> {
    calls.map_values(|c: DrawCall| c@)
}

} // verus!
