use vstd::prelude::*;

verus! {

/// A 24-bit color given by its red, green and blue channels.
#[derive(Debug, Copy, Clone, PartialEq, Eq, Structural)]
pub struct Rgb {
    pub r: u8,
    pub g: u8,
    pub b: u8,
}

/// A cell color: an index into the 256-color palette, or a 24-bit color.
#[derive(Debug, Copy, Clone, PartialEq, Eq, Structural)]
pub enum Color {
    Indexed(u8),
    RGB(Rgb),
}

impl Color {
    /// The 24-bit color with the given channels.
    pub fn rgb(r: u8, g: u8, b: u8) -> (c: Self)
        ensures
            c == Color::RGB(Rgb { r, g, b }),
    {
        Color::RGB(Rgb { r, g, b })
    }
}

} // verus!
