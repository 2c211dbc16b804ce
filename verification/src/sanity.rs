//! Checks of a terminal's shape, and a comparison of two terminals.
use crate::buffer::{line_ok, Buffer};
use crate::cell::{Cell, Occupancy};
use crate::line::{cell_ok, wide_ok, Line};
use crate::terminal::{BufferType, Terminal};
use vstd::prelude::*;

verus! {

/// The rows of the view of `b`.
pub open spec fn view_of(b: Buffer) -> Seq<Line> {
    b.lines@.subrange(b.top(), b.lines@.len() as int)
}

/// Two rows with the same cells and the same wrap flag.
pub open spec fn same_line(x: Line, y: Line) -> bool {
    x.cells@ == y.cells@ && x.wrapped == y.wrapped
}

/// Two sequences of rows, alike row by row.
pub open spec fn same_rows(a: Seq<Line>, b: Seq<Line>) -> bool {
    &&& a.len() == b.len()
    &&& forall|i: int| 0 <= i < a.len() ==> same_line(#[trigger] a[i], b[i])
}

impl Terminal {
    /// The checks that hold of a terminal in every state: the cursor in
    /// the view (at most one past the last column), every row as wide as
    /// the terminal with its wide characters whole, and the last row not
    /// continuing on a next one.
    pub open spec fn sane(&self) -> bool {
        &&& self.cursor.row < self.rows
        &&& self.cursor.col <= self.cols
        &&& forall|k: int| 0 <= k < self.buffer.lines@.len() ==> #[trigger] line_ok(self.buffer.lines@[k], self.cols as nat)
        &&& self.buffer.lines@.len() > 0
        &&& !self.buffer.lines@.last().wrapped
    }

    /// Whether the checks that hold in every state hold; they do of a
    /// terminal that keeps its invariant.
    pub fn verify(&self) -> (ok: bool)
        ensures
            ok == self.sane(),
            self.wf() ==> ok,
    {
        if !(self.cursor.row < self.rows && self.cursor.col <= self.cols) {
            return false;
        }
        let lines = self.buffer.lines.as_slice();
        if lines.len() == 0 || lines[lines.len() - 1].wrapped {
            return false;
        }
        let ghost cols: nat = self.cols as nat;
        let mut k: usize = 0;
        while k < lines.len()
            invariant
                k <= lines@.len(),
                lines@ == self.buffer.lines@,
                cols == self.cols,
                forall|j: int| 0 <= j < k ==> #[trigger] line_ok(lines@[j], cols),
            decreases lines@.len() - k,
        {
            let cells = lines[k].cells.as_slice();
            if cells.len() != self.cols {
                proof {
                    assert(!line_ok(self.buffer.lines@[k as int], cols));
                }
                return false;
            }
            let mut i: usize = 0;
            while i < cells.len()
                invariant
                    i <= cells@.len(),
                    k < lines@.len(),
                    lines@ == self.buffer.lines@,
                    cols == self.cols,
                    cells@ == lines@[k as int].cells@,
                    forall|j: int| 0 <= j < i ==> #[trigger] cell_ok(cells@, j),
                decreases cells@.len() - i,
            {
                let o = cells[i].occupancy;
                let bad = if o == Occupancy::WideTail {
                    !(i > 0 && cells[i - 1].occupancy == Occupancy::WideHead)
                } else if o == Occupancy::WideHead {
                    !(i + 1 < cells.len() && cells[i + 1].occupancy == Occupancy::WideTail)
                } else {
                    false
                };
                if bad {
                    proof {
                        assert(!cell_ok(cells@, i as int));
                        assert(!wide_ok(lines@[k as int].cells@));
                        assert(!line_ok(self.buffer.lines@[k as int], cols));
                    }
                    return false;
                }
                assert(cell_ok(cells@, i as int));
                i += 1;
            }
            assert(wide_ok(cells@));
            assert(line_ok(lines@[k as int], cols));
            k += 1;
        }
        proof {
            if self.wf() {
                assert(self.buffer.last_unwrapped());
            }
        }
        true
    }

    /// What two terminals agree on when they look alike: the active
    /// buffer, the cursor, the pen, the charsets, the tab stops, the
    /// modes, the margins, the saved cursors, the rows of the primary
    /// screen, and those of the alternate screen when it is active.
    pub open spec fn same_state(&self, other: &Terminal) -> bool {
        &&& self.active_buffer_type == other.active_buffer_type
        &&& self.cursor == other.cursor
        &&& self.pen == other.pen
        &&& self.charsets@ == other.charsets@
        &&& self.active_charset == other.active_charset
        &&& self.tabs@ == other.tabs@
        &&& self.insert_mode == other.insert_mode
        &&& self.origin_mode == other.origin_mode
        &&& self.auto_wrap_mode == other.auto_wrap_mode
        &&& self.new_line_mode == other.new_line_mode
        &&& self.cursor_keys_mode == other.cursor_keys_mode
        &&& self.top_margin == other.top_margin
        &&& self.bottom_margin == other.bottom_margin
        &&& self.saved_ctx == other.saved_ctx
        &&& self.alternate_saved_ctx == other.alternate_saved_ctx
        &&& same_rows(view_of(self.spec_primary()), view_of(other.spec_primary()))
        &&& self.active_buffer_type == BufferType::Alternate
            ==> same_rows(view_of(self.spec_alternate()), view_of(other.spec_alternate()))
    }

    /// Whether the two terminals look alike (see `same_state`).
    pub fn assert_eq(&self, other: &Terminal) -> (b: bool)
        requires
            self.wf(),
            other.wf(),
        ensures
            b == self.same_state(other),
    {
        if !(self.active_buffer_type == other.active_buffer_type && self.cursor == other.cursor && self.pen == other.pen
            && self.charsets[0] == other.charsets[0] && self.charsets[1] == other.charsets[1]
            && self.active_charset == other.active_charset && self.tabs.eq(&other.tabs)
            && self.insert_mode == other.insert_mode && self.origin_mode == other.origin_mode
            && self.auto_wrap_mode == other.auto_wrap_mode && self.new_line_mode == other.new_line_mode
            && self.cursor_keys_mode == other.cursor_keys_mode && self.top_margin == other.top_margin
            && self.bottom_margin == other.bottom_margin && self.saved_ctx == other.saved_ctx
            && self.alternate_saved_ctx == other.alternate_saved_ctx) {
            proof {
                if self.charsets@ == other.charsets@ {
                    assert(self.charsets@[0] == other.charsets@[0] && self.charsets@[1] == other.charsets@[1]);
                }
            }
            return false;
        }
        assert(self.charsets@ =~= other.charsets@);
        let p1 = if self.active_buffer_type == BufferType::Primary { &self.buffer } else { &self.other_buffer };
        let p2 = if other.active_buffer_type == BufferType::Primary { &other.buffer } else { &other.other_buffer };
        if !rows_eq(p1.view(), p2.view()) {
            return false;
        }
        if self.active_buffer_type == BufferType::Alternate {
            rows_eq(self.buffer.view(), other.buffer.view())
        } else {
            true
        }
    }
}

/// Whether the rows `a` and `b` have the same cells and wrap flags.
fn rows_eq(a: &[Line], b: &[Line]) -> (r: bool)
    ensures
        r == same_rows(a@, b@),
{
    if a.len() != b.len() {
        return false;
    }
    let mut i: usize = 0;
    while i < a.len()
        invariant
            i <= a@.len(),
            a@.len() == b@.len(),
            forall|j: int| 0 <= j < i ==> same_line(#[trigger] a@[j], b@[j]),
        decreases a@.len() - i,
    {
        if a[i].wrapped != b[i].wrapped {
            assert(!same_line(a@[i as int], b@[i as int]));
            return false;
        }
        let ca = a[i].cells.as_slice();
        let cb = b[i].cells.as_slice();
        if !cells_eq(ca, cb) {
            assert(!same_line(a@[i as int], b@[i as int]));
            return false;
        }
        assert(same_line(a@[i as int], b@[i as int]));
        i += 1;
    }
    true
}

/// Whether the cells `a` and `b` are the same.
fn cells_eq(a: &[Cell], b: &[Cell]) -> (r: bool)
    ensures
        r == (a@ == b@),
{
    if a.len() != b.len() {
        return false;
    }
    let mut i: usize = 0;
    while i < a.len()
        invariant
            i <= a@.len(),
            a@.len() == b@.len(),
            forall|j: int| 0 <= j < i ==> a@[j] == b@[j],
        decreases a@.len() - i,
    {
        if a[i] != b[i] {
            return false;
        }
        i += 1;
    }
    assert(a@ =~= b@);
    true
}

} // verus!
