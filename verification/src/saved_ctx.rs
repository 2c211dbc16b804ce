use crate::pen::{Pen, lemma_default_pen_is_default};
use vstd::prelude::*;

verus! {

/// What DECSC saves and DECRC restores.
#[derive(Debug, Copy, Clone, PartialEq, Eq, Structural)]
pub struct SavedCtx {
    pub cursor_col: usize,
    pub cursor_row: usize,
    pub pen: Pen,
    pub origin_mode: bool,
    pub auto_wrap_mode: bool,
}

impl SavedCtx {
    pub open spec fn spec_default() -> SavedCtx {
        SavedCtx {
            cursor_col: 0,
            cursor_row: 0,
            pen: Pen::spec_default(),
            origin_mode: false,
            auto_wrap_mode: true,
        }
    }

    pub open spec fn spec_is_default(&self) -> bool {
        &&& self.cursor_col == 0
        &&& self.cursor_row == 0
        &&& self.pen.spec_is_default()
        &&& !self.origin_mode
        &&& self.auto_wrap_mode
    }

    pub fn new() -> (c: SavedCtx)
        ensures
            c == SavedCtx::spec_default(),
            c.spec_is_default(),
    {
        proof { lemma_default_pen_is_default(); }
        SavedCtx { cursor_col: 0, cursor_row: 0, pen: Pen::new(), origin_mode: false, auto_wrap_mode: true }
    }

    /// Whether this context is indistinguishable from the default one.
    pub fn is_default(&self) -> (b: bool)
        ensures
            b == self.spec_is_default(),
    {
        self.cursor_col == 0 && self.cursor_row == 0 && self.pen.is_default() && !self.origin_mode
            && self.auto_wrap_mode
    }
}

impl Default for SavedCtx {
    fn default() -> (c: SavedCtx)
        ensures
            c == SavedCtx::spec_default(),
    {
        SavedCtx::new()
    }
}

} // verus!
