use crate::pen::{Pen, lemma_default_pen_is_default};
use vstd::prelude::*;

verus! {

/// One character cell of a line.
#[derive(Debug, Copy, Clone, PartialEq, Eq, Structural)]
pub struct Cell {
    pub ch: char,
    pub occupancy: Occupancy,
    pub pen: Pen,
}

/// How a cell is taken: by a narrow character, or by the first or the
/// second half of a wide one.
#[derive(Debug, Copy, Clone, PartialEq, Eq, Structural)]
pub enum Occupancy {
    Single,
    WideHead,
    WideTail,
}

pub open spec fn spec_width(o: Occupancy) -> u8 {
    match o {
        Occupancy::Single => 1,
        Occupancy::WideHead => 2,
        Occupancy::WideTail => 0,
    }
}

impl Occupancy {
    /// The columns the character starting here takes (0 for a tail).
    pub fn width(&self) -> (w: u8)
        ensures
            w == spec_width(*self),
    {
        match self {
            Occupancy::Single => 1,
            Occupancy::WideHead => 2,
            Occupancy::WideTail => 0,
        }
    }
}

impl Cell {
    pub open spec fn spec_blank(pen: Pen) -> Cell {
        Cell { ch: ' ', occupancy: Occupancy::Single, pen }
    }

    pub open spec fn spec_is_default(self) -> bool {
        &&& self.ch == ' '
        &&& self.occupancy == Occupancy::Single
        &&& self.pen.spec_is_default()
    }

    pub fn new(ch: char, occupancy: Occupancy, pen: Pen) -> (c: Self)
        ensures
            c == (Cell { ch, occupancy, pen }),
    {
        Cell { ch, occupancy, pen }
    }

    /// A space in `pen`.
    pub fn blank(pen: Pen) -> (c: Self)
        ensures
            c == Cell::spec_blank(pen),
    {
        Cell { ch: ' ', occupancy: Occupancy::Single, pen }
    }

    /// Whether the cell is a narrow space in the default pen.
    pub fn is_default(&self) -> (b: bool)
        ensures
            b == self.spec_is_default(),
    {
        self.ch == ' ' && self.occupancy == Occupancy::Single && self.pen.is_default()
    }

    pub fn char(&self) -> (c: char)
        ensures
            c == self.ch,
    {
        self.ch
    }

    /// The zero-width combining marks attached to the character: none, as
    /// printing never attaches any.
    pub fn combining(&self) -> (marks: &[char])
        ensures
            marks@.len() == 0,
    {
        let marks: &[char] = &[];
        marks
    }

    pub fn occupancy(&self) -> (o: Occupancy)
        ensures
            o == self.occupancy,
    {
        self.occupancy
    }

    pub fn width(&self) -> (w: u8)
        ensures
            w == spec_width(self.occupancy),
    {
        self.occupancy.width()
    }

    pub fn pen(&self) -> (p: &Pen)
        ensures
            *p == self.pen,
    {
        &self.pen
    }

    pub fn set(&mut self, ch: char, occupancy: Occupancy, pen: Pen)
        ensures
            *final(self) == (Cell { ch, occupancy, pen }),
    {
        self.ch = ch;
        self.occupancy = occupancy;
        self.pen = pen;
    }
}

impl Default for Cell {
    fn default() -> (c: Self)
        ensures
            c == Cell::spec_blank(Pen::spec_default()),
            c.spec_is_default(),
    {
        proof { lemma_default_pen_is_default(); }
        Cell::blank(Pen::new())
    }
}

} // verus!
