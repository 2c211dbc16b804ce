use vstd::prelude::*;

verus! {

/// The cursor: its position in the view, and whether it is shown.
#[derive(Debug, Copy, Clone, PartialEq, Eq, Structural)]
pub struct Cursor {
    pub col: usize,
    pub row: usize,
    pub visible: bool,
}

impl Cursor {
    /// The position, when the cursor is visible.
    pub fn position(&self) -> (p: Option<(usize, usize)>)
        ensures
            p == (if self.visible { Some((self.col, self.row)) } else { None }),
    {
        if self.visible {
            Some((self.col, self.row))
        } else {
            None
        }
    }
}

impl Default for Cursor {
    /// The visible cursor in the top left corner.
    fn default() -> (c: Self)
        ensures
            c == (Cursor { col: 0, row: 0, visible: true }),
    {
        Cursor { col: 0, row: 0, visible: true }
    }
}

} // verus!
