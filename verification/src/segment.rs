use crate::color::Color;
use crate::pen::{Intensity, Pen};
use crate::text::string_from_chars;
use vstd::prelude::*;

verus! {

/// A run of characters of a line drawn in one pen, at a column offset.
#[derive(Debug)]
pub struct Segment {
    pub chars: Vec<char>,
    pub pen: Pen,
    pub offset: usize,
}

impl Segment {
    /// The characters, as a string.
    pub fn text(&self) -> (s: String)
        ensures
            s@ == self.chars@,
    {
        string_from_chars(self.chars.as_slice())
    }

    pub fn foreground(&self) -> (c: Option<Color>)
        ensures
            c == self.pen.foreground,
    {
        self.pen.foreground()
    }

    pub fn background(&self) -> (c: Option<Color>)
        ensures
            c == self.pen.background,
    {
        self.pen.background()
    }

    pub fn is_bold(&self) -> (b: bool)
        ensures
            b == (self.pen.intensity == Intensity::Bold),
    {
        self.pen.is_bold()
    }

    pub fn is_faint(&self) -> (b: bool)
        ensures
            b == (self.pen.intensity == Intensity::Faint),
    {
        self.pen.is_faint()
    }

    pub fn is_italic(&self) -> (b: bool)
        ensures
            b == self.pen.spec_italic(),
    {
        self.pen.is_italic()
    }

    pub fn is_underline(&self) -> (b: bool)
        ensures
            b == self.pen.spec_underline(),
    {
        self.pen.is_underline()
    }

    pub fn is_strikethrough(&self) -> (b: bool)
        ensures
            b == self.pen.spec_strikethrough(),
    {
        self.pen.is_strikethrough()
    }

    pub fn is_blink(&self) -> (b: bool)
        ensures
            b == self.pen.spec_blink(),
    {
        self.pen.is_blink()
    }

    pub fn is_inverse(&self) -> (b: bool)
        ensures
            b == self.pen.spec_inverse(),
    {
        self.pen.is_inverse()
    }
}

} // verus!
