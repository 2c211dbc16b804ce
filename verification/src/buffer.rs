use crate::cell::{Cell, Occupancy};
use crate::line::{
    Line, wide_ok, blank_cells, spec_print, spec_clear, spec_delete, spec_shift_right, spec_insert, lemma_insert_ok, is_wide, visible_chars, ink, ink_of,
    lemma_ink_concat, lemma_ink_blanks, row_view, opt_view, spec_contract, spec_extend, trimmed, trailers,
    lemma_trailers_bound,
};
use crate::text::{string_from_chars, trim_end, trim_end_chars, push_chars};
use crate::pen::Pen;
use std::ops::Range;
use vstd::prelude::*;

verus! {

/// A screen buffer: the rows of the view, preceded by the scrollback.
#[derive(Debug)]
pub struct Buffer {
    pub lines: Vec<Line>,
    pub cols: usize,
    pub rows: usize,
    pub scrollback_limit: Option<ScrollbackLimit>,
    pub trim_needed: bool,
}

/// The scrollback is cut back to `soft` lines once it grows beyond `hard`.
#[derive(Debug, Copy, Clone, PartialEq, Eq, Structural)]
pub struct ScrollbackLimit {
    pub soft: usize,
    pub hard: usize,
}

/// What an erase clears.
#[derive(Debug, Copy, Clone, PartialEq, Eq, Structural)]
pub enum EraseMode {
    NextChars(usize),
    FromCursorToEndOfView,
    FromStartOfViewToCursor,
    WholeView,
    FromCursorToEndOfLine,
    FromStartOfLineToCursor,
    WholeLine,
}

/// A line of `cols` cells that keeps wide characters whole.
pub open spec fn line_ok(l: Line, cols: nat) -> bool {
    &&& l.cells@.len() == cols
    &&& wide_ok(l.cells@)
}

/// A line of `cols` blanks in `pen`, not wrapped.
pub open spec fn is_blank_line(l: Line, cols: nat, pen: Pen) -> bool {
    &&& l.cells@ == blank_cells(cols, pen)
    &&& !l.wrapped
}

pub open spec fn pen_or_default(pen: Option<&Pen>) -> Pen {
    match pen {
        Some(p) => *p,
        None => Pen::spec_default(),
    }
}

pub open spec fn min(a: int, b: int) -> int {
    if a < b { a } else { b }
}

/// The lines hold the same cells and the same wrap flag.
pub open spec fn same_line(a: Line, b: Line) -> bool {
    &&& a.cells@ == b.cells@
    &&& a.wrapped == b.wrapped
}

/// `a` holds the cells of `b` and, unless `unwrap`, its wrap flag.
pub open spec fn moved_line(a: Line, b: Line, unwrap: bool) -> bool {
    &&& a.cells@ == b.cells@
    &&& a.wrapped == (b.wrapped && !unwrap)
}

/// What scrolling the rows `start..end` of the view up by `n` (already
/// limited to the region) in `pen` does to the lines `old` (view from `top`,
/// `rows` rows of `cols`): the top rows of a region at the top of the view
/// go to the scrollback, blank rows enter at the bottom of the region, and
/// the rows above and at the end of the region no longer wrap into it.
pub open spec fn scrolled_up(old: Seq<Line>, new: Seq<Line>, top: int, rows: int, cols: nat,
    start: int, end: int, n: int, pen: Pen) -> bool {
    let unwrap_end = end - 1 < rows - 1;
    if start == 0 && end == rows {
        &&& new.len() == old.len() + n
        &&& forall|k: int| 0 <= k < old.len() ==> #[trigger] same_line(new[k], old[k])
        &&& forall|k: int| old.len() <= k < new.len() ==> #[trigger] is_blank_line(new[k], cols, pen)
    } else if start == 0 {
        &&& new.len() == old.len() + n
        &&& forall|k: int| 0 <= k < top + end ==> moved_line(#[trigger] new[k], old[k], unwrap_end && k == top + end - 1)
        &&& forall|k: int| top + end <= k < top + end + n ==> #[trigger] is_blank_line(new[k], cols, pen)
        &&& forall|k: int| top + end + n <= k < new.len() ==> #[trigger] same_line(new[k], old[k - n])
    } else {
        &&& new.len() == old.len()
        &&& forall|k: int| 0 <= k < top + start ==> moved_line(#[trigger] new[k], old[k], k == top + start - 1)
        &&& forall|k: int| top + start <= k < top + end - n ==> moved_line(#[trigger] new[k], old[k + n], unwrap_end && k + n == top + end - 1)
        &&& forall|k: int| top + end - n <= k < top + end ==> #[trigger] is_blank_line(new[k], cols, pen)
        &&& forall|k: int| top + end <= k < new.len() ==> #[trigger] same_line(new[k], old[k])
    }
}

/// What scrolling the rows `start..end` of the view down by `n` (already
/// limited to the region) in `pen` does: blank rows enter at the top of the
/// region, and the rows above it and at its end no longer wrap.
pub open spec fn scrolled_down(old: Seq<Line>, new: Seq<Line>, top: int, cols: nat,
    start: int, end: int, n: int, pen: Pen) -> bool {
    &&& new.len() == old.len()
    &&& forall|k: int| 0 <= k < top + start ==> moved_line(#[trigger] new[k], old[k], start > 0 && k == top + start - 1)
    &&& forall|k: int| top + start <= k < top + start + n ==> #[trigger] is_blank_line(new[k], cols, pen)
    &&& forall|k: int| top + start + n <= k < top + end ==> moved_line(#[trigger] new[k], old[k - n], k == top + end - 1)
    &&& forall|k: int| top + end <= k < new.len() ==> #[trigger] same_line(new[k], old[k])
}

/// The text of `lines` that follow a partial logical line `cur`: each
/// logical line (rows joined while they wrap) with the white space at its
/// end trimmed.
pub open spec fn text_from(lines: Seq<Line>, cur: Seq<char>) -> Seq<Seq<char>>
    decreases lines.len(),
{
    if lines.len() == 0 {
        if cur.len() == 0 { Seq::empty() } else { seq![trim_end(cur)] }
    } else {
        let cur2 = cur + visible_chars(lines[0].cells@);
        if lines[0].wrapped {
            text_from(lines.drop_first(), cur2)
        } else {
            seq![trim_end(cur2)] + text_from(lines.drop_first(), Seq::empty())
        }
    }
}

/// The scrollback lines that a trim removes from `lines` with the view of
/// `rows` rows: none while the scrollback stays within the hard limit, else
/// all but the last `soft` of them.
pub open spec fn trim_excess(len: int, rows: int, limit: Option<ScrollbackLimit>) -> int {
    match limit {
        Some(l) => if len - rows > l.hard { len - rows - l.soft } else { 0 },
        None => 0,
    }
}

/// The number of rows right before row `a` that wrap into it.
pub open spec fn wrap_run(lines: Seq<Line>, a: int) -> nat
    decreases a,
{
    if a <= 0 {
        0
    } else if lines[a - 1].wrapped {
        1 + wrap_run(lines, a - 1)
    } else {
        0
    }
}

/// The number of logical lines that end before row `a`.
pub open spec fn line_count(lines: Seq<Line>, a: int) -> nat
    decreases a,
{
    if a <= 0 {
        0
    } else {
        line_count(lines, a - 1) + if lines[a - 1].wrapped { 0nat } else { 1nat }
    }
}

/// Where (`col`, `row`) of the view of `rows` rows lies in the logical
/// lines, as (column in the logical line, logical line), with rows of
/// `cols` columns. A row below the last one counts as a logical line of its own.
pub open spec fn logical_pos(lines: Seq<Line>, col: int, row: int, cols: int, rows: int) -> (int, int) {
    let a = row + lines.len() - rows;
    let m = if a < lines.len() { a } else { lines.len() as int };
    (col + cols * wrap_run(lines, m), (a - m) + line_count(lines, m))
}

/// The first row at or after `i` at which logical line `target` starts
/// (the last row when there is none).
pub open spec fn first_row(lines: Seq<Line>, target: int, i: int) -> int
    decreases lines.len() - i,
{
    if i < lines.len() - 1 && line_count(lines, i) < target {
        first_row(lines, target, i + 1)
    } else {
        i
    }
}

/// Column `c` of the logical line that row `i` continues, followed through
/// the rows of `cols` columns that wrap: (column, row) where it lands.
pub open spec fn advance(lines: Seq<Line>, c: int, i: int, cols: int) -> (int, int)
    decreases lines.len() - i,
{
    if c >= cols && 0 <= i < lines.len() - 1 && lines[i].wrapped {
        advance(lines, c - cols, i + 1, cols)
    } else {
        (c, i)
    }
}

/// The row (an index into all of `lines`) and column where column `col` of
/// logical line `line` lies, with rows of `cols` columns; a column beyond
/// the row is the last column.
pub open spec fn relative_pos(lines: Seq<Line>, col: int, line: int, cols: int) -> (int, int) {
    let (c, i) = advance(lines, col, first_row(lines, line, 0), cols);
    (if c < cols { c } else { cols - 1 }, i)
}

proof fn lemma_run(lines: Seq<Line>, a: int)
    requires
        0 <= a <= lines.len(),
    ensures
        wrap_run(lines, a) <= a,
        forall|j: int| a - wrap_run(lines, a) <= j < a ==> (#[trigger] lines[j]).wrapped,
        a - wrap_run(lines, a) > 0 ==> !lines[a - wrap_run(lines, a) - 1].wrapped,
        line_count(lines, a - wrap_run(lines, a)) == line_count(lines, a),
        line_count(lines, a) <= a,
    decreases a,
{
    if a > 0 {
        lemma_run(lines, a - 1);
    }
}

proof fn lemma_line_count_mono(lines: Seq<Line>, i: int, j: int)
    requires
        0 <= i <= j,
    ensures
        line_count(lines, i) <= line_count(lines, j),
    decreases j - i,
{
    if i < j {
        lemma_line_count_mono(lines, i, j - 1);
    }
}

proof fn lemma_first_row(lines: Seq<Line>, a: int, i: int)
    requires
        0 <= a < lines.len(),
        0 <= i <= a - wrap_run(lines, a),
    ensures
        first_row(lines, line_count(lines, a) as int, i) == a - wrap_run(lines, a),
    decreases a - i,
{
    lemma_run(lines, a);
    let s = a - wrap_run(lines, a);
    if i < s {
        lemma_line_count_mono(lines, i, s - 1);
        lemma_first_row(lines, a, i + 1);
    }
}

proof fn lemma_advance(lines: Seq<Line>, col: int, cols: int, a: int, k: int)
    requires
        0 <= col < cols,
        0 <= a < lines.len(),
        0 <= k <= wrap_run(lines, a),
    ensures
        advance(lines, col + cols * k, a - k, cols) == (col, a),
    decreases k,
{
    lemma_run(lines, a);
    if k > 0 {
        assert(lines[a - k].wrapped);
        assert(col + cols * k - cols == col + cols * (k - 1)) by (nonlinear_arith);
        assert(col + cols * k >= cols) by (nonlinear_arith)
            requires k > 0, col >= 0, cols > 0;
        lemma_advance(lines, col, cols, a, k - 1);
        assert(advance(lines, col + cols * k, a - k, cols)
            == advance(lines, col + cols * k - cols, a - k + 1, cols));
    } else {
        assert(cols * k == 0) by (nonlinear_arith) requires k == 0;
    }
}

/// A position in the view, taken to its place in the logical lines and
/// back with the same width (`logical_position`, then
/// `relative_position`), comes back unchanged, as a row of all the lines,
/// whichever rows wrap.
pub proof fn lemma_position_round_trip(lines: Seq<Line>, cols: int, rows: int, col: int, row: int)
    requires
        rows <= lines.len(),
        0 <= col < cols,
        0 <= row < rows,
    ensures
        ({
            let (lc, lr) = logical_pos(lines, col, row, cols, rows);
            relative_pos(lines, lc, lr, cols)
        }) == (col, lines.len() - rows + row),
{
    let a = row + lines.len() - rows;
    lemma_run(lines, a);
    lemma_first_row(lines, a, 0);
    lemma_advance(lines, col, cols, a, wrap_run(lines, a) as int);
}

/// What changing the height of the view from `rows` to `new_rows` does to
/// the lines `old` (rows of `cols` columns) with the cursor in row `crow`:
/// a shorter view drops blank space below the cursor first and then lets the
/// top rows go to the scrollback; a taller one brings rows back from the
/// scrollback first and then adds blank rows at the bottom. `new_crow` is
/// where the cursor row goes.
pub open spec fn rows_resized(old: Seq<Line>, new: Seq<Line>, cols: nat, rows: int, new_rows: int,
    crow: int, new_crow: int) -> bool {
    let len = old.len() as int;
    if new_rows < rows {
        let delta = rows - new_rows;
        let excess = min(delta, rows - 1 - crow);
        &&& new_crow == crow - (delta - excess)
        &&& new.len() == len - excess
        &&& forall|k: int| 0 <= k < new.len() ==> moved_line(#[trigger] new[k], old[k], excess > 0 && k == new.len() - 1)
    } else if new_rows > rows {
        let shift = min(len - rows, new_rows - rows);
        &&& new_crow == (if crow < rows { crow + shift } else { crow })
        &&& new.len() == len + (new_rows - rows - shift)
        &&& forall|k: int| 0 <= k < len ==> #[trigger] new[k] == old[k]
        &&& forall|k: int| len <= k < new.len() ==> #[trigger] is_blank_line(new[k], cols, Pen::spec_default())
    } else {
        &&& new_crow == crow
        &&& new == old
    }
}

/// A blank line of `cols` cells keeps wide characters whole.
pub proof fn lemma_blank_line_ok(l: Line, cols: nat, pen: Pen)
    requires
        is_blank_line(l, cols, pen),
    ensures
        line_ok(l, cols),
{
    assert forall|i: int| 0 <= i < l.cells@.len() implies #[trigger] crate::line::cell_ok(l.cells@, i) by {
        assert(l.cells@[i] == Cell::spec_blank(pen));
    }
}

impl Buffer {
    /// The index in `lines` of the first row of the view.
    pub open spec fn top(&self) -> int {
        self.lines@.len() - self.rows
    }

    /// The last line does not continue on a next one.
    pub open spec fn last_unwrapped(&self) -> bool {
        self.lines@.len() > 0 && !self.lines@.last().wrapped
    }

    /// Row `r` of the view.
    pub open spec fn row(&self, r: int) -> Line {
        self.lines@[self.top() + r]
    }

    pub open spec fn wf(&self) -> bool {
        &&& self.cols >= 1
        &&& self.rows >= 1
        &&& self.lines@.len() >= self.rows
        &&& forall|i: int| 0 <= i < self.lines@.len() ==> #[trigger] line_ok(self.lines@[i], self.cols as nat)
        &&& (self.scrollback_limit matches Some(l) ==> l.soft <= l.hard)
    }

    /// `other` is `self` with the lines at `i` possibly changed by `f`: the
    /// same size and the same other lines.
    pub open spec fn same_but(&self, other: &Buffer, i: int) -> bool {
        &&& other.lines@.len() == self.lines@.len()
        &&& other.cols == self.cols
        &&& other.rows == self.rows
        &&& other.scrollback_limit == self.scrollback_limit
        &&& other.trim_needed == self.trim_needed
        &&& forall|k: int| 0 <= k < self.lines@.len() && k != i ==> other.lines@[k] == self.lines@[k]
    }

    /// `rows` blank rows of `cols` columns in `pen` (the default pen when
    /// none is given), with the given scrollback limit.
    pub fn new(cols: usize, rows: usize, scrollback_limit: Option<usize>, pen: Option<&Pen>) -> (b: Self)
        requires
            cols >= 1,
            rows >= 1,
            scrollback_limit matches Some(l) ==> l + l / 10 <= usize::MAX,
        ensures
            b.wf(),
            b.cols == cols,
            b.rows == rows,
            b.lines@.len() == rows,
            forall|i: int| 0 <= i < rows ==> #[trigger] is_blank_line(b.lines@[i], cols as nat, pen_or_default(pen)),
            b.scrollback_limit == (match scrollback_limit {
                Some(l) => Some(ScrollbackLimit { soft: l, hard: (l + l / 10) as usize }),
                None => None,
            }),
            !b.trim_needed,
    {
        let pen: Pen = match pen {
            Some(p) => *p,
            None => Pen::new(),
        };
        let mut lines: Vec<Line> = Vec::new();
        let mut i: usize = 0;
        while i < rows
            invariant
                i <= rows,
                lines@.len() == i,
                forall|k: int| 0 <= k < i ==> #[trigger] is_blank_line(lines@[k], cols as nat, pen),
                forall|k: int| 0 <= k < i ==> #[trigger] line_ok(lines@[k], cols as nat),
            decreases rows - i,
        {
            lines.push(Line::blank(cols, pen));
            i += 1;
        }
        let limit = match scrollback_limit {
            Some(l) => Some(ScrollbackLimit { soft: l, hard: l + l / 10 }),
            None => None,
        };
        Buffer { lines, cols, rows, scrollback_limit: limit, trim_needed: false }
    }

    fn index_of(&self, row: usize) -> (i: usize)
        requires
            self.wf(),
            row < self.rows,
        ensures
            i == self.top() + row,
            i < self.lines@.len(),
    {
        self.lines.len() - self.rows + row
    }

    /// Prints `ch` in `pen` at (`col`, `row`) of the view.
    pub fn print(&mut self, pos: (usize, usize), ch: char, pen: Pen) -> (r: Option<usize>)
        requires
            old(self).wf(),
            pos.0 < old(self).cols,
            pos.1 < old(self).rows,
        ensures
            final(self).wf(),
            old(self).same_but(final(self), old(self).top() + pos.1),
            (final(self).row(pos.1 as int).cells@, r)
                == spec_print(old(self).row(pos.1 as int).cells@, pos.0 as int, is_wide(ch), ch, pen),
            final(self).row(pos.1 as int).wrapped == old(self).row(pos.1 as int).wrapped,
    {
        let (col, row) = pos;
        let i = self.index_of(row);
        assert(line_ok(self.lines@[i as int], self.cols as nat));
        let r = self.lines[i].print(col, ch, pen);
        assert forall|k: int| 0 <= k < self.lines@.len() implies #[trigger] line_ok(self.lines@[k], self.cols as nat) by {
            if k != i {
                assert(line_ok(old(self).lines@[k], self.cols as nat));
            }
        }
        r
    }

    /// Marks row `row` of the view as continuing on the next one.
    pub fn wrap(&mut self, row: usize)
        requires
            old(self).wf(),
            row < old(self).rows,
        ensures
            final(self).wf(),
            old(self).same_but(final(self), old(self).top() + row),
            final(self).row(row as int).wrapped,
            final(self).row(row as int).cells@ == old(self).row(row as int).cells@,
    {
        let i = self.index_of(row);
        self.lines[i].wrapped = true;
        assert forall|k: int| 0 <= k < self.lines@.len() implies #[trigger] line_ok(self.lines@[k], self.cols as nat) by {
            assert(line_ok(old(self).lines@[k], self.cols as nat));
            if k == i {
                assert(self.lines@[k].cells@ == old(self).lines@[k].cells@);
            }
        }
    }

    /// Sets whether row `row` of the view continues on the next one.
    fn set_wrapped(&mut self, row: usize, wrapped: bool)
        requires
            old(self).wf(),
            row < old(self).rows,
        ensures
            final(self).wf(),
            old(self).same_but(final(self), old(self).top() + row),
            final(self).row(row as int).wrapped == wrapped,
            final(self).row(row as int).cells@ == old(self).row(row as int).cells@,
            old(self).last_unwrapped() && (row + 1 < old(self).rows || !wrapped) ==> final(self).last_unwrapped(),
    {
        let i = self.index_of(row);
        self.lines[i].wrapped = wrapped;
        assert forall|k: int| 0 <= k < self.lines@.len() implies #[trigger] line_ok(self.lines@[k], self.cols as nat) by {
            assert(line_ok(old(self).lines@[k], self.cols as nat));
            if k == i {
                assert(self.lines@[k].cells@ == old(self).lines@[k].cells@);
            }
        }
        proof {
            let k = self.lines@.len() - 1;
            assert(self.lines@.last() == self.lines@[k]);
            assert(old(self).lines@.last() == old(self).lines@[k]);
        }
    }

    /// Shifts the cells of row `row` from `col` right by `n`.
    pub fn shift_right(&mut self, pos: (usize, usize), n: usize, pen: Pen)
        requires
            old(self).wf(),
            pos.1 < old(self).rows,
            n <= old(self).cols - min(pos.0 as int, old(self).cols - 1),
        ensures
            final(self).wf(),
            old(self).same_but(final(self), old(self).top() + pos.1),
            final(self).row(pos.1 as int).cells@
                == spec_shift_right(old(self).row(pos.1 as int).cells@, pos.0 as int, n as int, pen),
            final(self).row(pos.1 as int).wrapped == old(self).row(pos.1 as int).wrapped,
    {
        let (col, row) = pos;
        let i = self.index_of(row);
        assert(line_ok(self.lines@[i as int], self.cols as nat));
        self.lines[i].shift_right(col, n, pen);
        assert forall|k: int| 0 <= k < self.lines@.len() implies #[trigger] line_ok(self.lines@[k], self.cols as nat) by {
            assert(line_ok(old(self).lines@[k], self.cols as nat));
        }
    }

    /// Inserts `n` copies of the narrow cell `cell` (at most up to the end of
    /// the row) at (`col`, `row`), shifting the cells from there right.
    pub fn insert(&mut self, pos: (usize, usize), n: usize, cell: Cell)
        requires
            old(self).wf(),
            pos.0 < old(self).cols,
            pos.1 < old(self).rows,
            cell.occupancy == Occupancy::Single,
        ensures
            final(self).wf(),
            old(self).same_but(final(self), old(self).top() + pos.1),
            final(self).row(pos.1 as int).cells@ == spec_insert(
                old(self).row(pos.1 as int).cells@,
                pos.0 as int,
                min(n as int, old(self).cols - pos.0),
                cell,
            ),
            final(self).row(pos.1 as int).wrapped == old(self).row(pos.1 as int).wrapped,
    {
        let (col, row) = pos;
        let n = if n < self.cols - col { n } else { self.cols - col };
        let i = self.index_of(row);
        assert(line_ok(self.lines@[i as int], self.cols as nat));
        proof { lemma_insert_ok(self.lines@[i as int].cells@, col as int, n as int, cell); }
        self.lines[i].insert(col, n, cell);
        assert forall|k: int| 0 <= k < self.lines@.len() implies #[trigger] line_ok(self.lines@[k], self.cols as nat) by {
            assert(line_ok(old(self).lines@[k], self.cols as nat));
        }
    }

    /// Deletes `n` cells (at most up to the end of the row) at (`col`, `row`);
    /// the row no longer continues on the next one.
    pub fn delete(&mut self, pos: (usize, usize), n: usize, pen: &Pen)
        requires
            old(self).wf(),
            pos.0 < old(self).cols,
            pos.1 < old(self).rows,
        ensures
            final(self).wf(),
            old(self).same_but(final(self), old(self).top() + pos.1),
            final(self).row(pos.1 as int).cells@ == spec_delete(old(self).row(pos.1 as int).cells@,
                pos.0 as int, min(n as int, old(self).cols - pos.0), *pen),
            !final(self).row(pos.1 as int).wrapped,
            old(self).last_unwrapped() ==> final(self).last_unwrapped(),
    {
        let (col, row) = pos;
        let n = if n < self.cols - col { n } else { self.cols - col };
        let i = self.index_of(row);
        assert(line_ok(self.lines@[i as int], self.cols as nat));
        self.lines[i].delete(col, n, pen);
        self.lines[i].wrapped = false;
        assert forall|k: int| 0 <= k < self.lines@.len() implies #[trigger] line_ok(self.lines@[k], self.cols as nat) by {
            assert(line_ok(old(self).lines@[k], self.cols as nat));
        }
    }

    /// Clears the columns `start..end` of row `row` in `pen`.
    fn clear_cols(&mut self, row: usize, start: usize, end: usize, pen: &Pen)
        requires
            old(self).wf(),
            row < old(self).rows,
            start <= end <= old(self).cols,
        ensures
            final(self).wf(),
            old(self).same_but(final(self), old(self).top() + row),
            final(self).row(row as int).cells@ == spec_clear(old(self).row(row as int).cells@, start as int, end as int, *pen),
            final(self).row(row as int).wrapped == old(self).row(row as int).wrapped,
            old(self).last_unwrapped() ==> final(self).last_unwrapped(),
    {
        let i = self.index_of(row);
        assert(line_ok(self.lines@[i as int], self.cols as nat));
        self.lines[i].clear(start..end, pen);
        assert forall|k: int| 0 <= k < self.lines@.len() implies #[trigger] line_ok(self.lines@[k], self.cols as nat) by {
            assert(line_ok(old(self).lines@[k], self.cols as nat));
        }
        proof {
            let k = self.lines@.len() - 1;
            assert(self.lines@.last() == self.lines@[k]);
            assert(old(self).lines@.last() == old(self).lines@[k]);
        }
    }

    /// Replaces the rows `start..end` of the view with blank rows in `pen`.
    fn clear_rows(&mut self, start: usize, end: usize, pen: &Pen)
        requires
            old(self).wf(),
            start <= end <= old(self).rows,
        ensures
            final(self).wf(),
            final(self).lines@.len() == old(self).lines@.len(),
            final(self).cols == old(self).cols,
            final(self).rows == old(self).rows,
            final(self).scrollback_limit == old(self).scrollback_limit,
            final(self).trim_needed == old(self).trim_needed,
            forall|k: int| 0 <= k < old(self).lines@.len() && !(old(self).top() + start <= k < old(self).top() + end)
                ==> #[trigger] final(self).lines@[k] == old(self).lines@[k],
            forall|r: int| start <= r < end ==> #[trigger] is_blank_line(final(self).row(r), old(self).cols as nat, *pen),
            old(self).last_unwrapped() ==> final(self).last_unwrapped(),
    {
        let mut r = start;
        while r < end
            invariant
                self.wf(),
                start <= r <= end <= self.rows,
                self.lines@.len() == old(self).lines@.len(),
                self.cols == old(self).cols,
                self.rows == old(self).rows,
                self.scrollback_limit == old(self).scrollback_limit,
                self.trim_needed == old(self).trim_needed,
                forall|k: int| 0 <= k < old(self).lines@.len() && !(old(self).top() + start <= k < old(self).top() + r)
                    ==> #[trigger] self.lines@[k] == old(self).lines@[k],
                forall|k: int| old(self).top() + start <= k < old(self).top() + r
                    ==> #[trigger] is_blank_line(self.lines@[k], self.cols as nat, *pen),
            decreases end - r,
        {
            let i = self.index_of(r);
            let l = Line::blank(self.cols, *pen);
            self.lines.set(i, l);
            r += 1;
            assert forall|k: int| 0 <= k < self.lines@.len() implies #[trigger] line_ok(self.lines@[k], self.cols as nat) by {
                if k != i {
                    assert(line_ok(old(self).lines@[k], self.cols as nat) || line_ok(self.lines@[k], self.cols as nat));
                }
            }
        }
        assert forall|q: int| start <= q < end implies #[trigger] is_blank_line(self.row(q), self.cols as nat, *pen) by {
            assert(is_blank_line(self.lines@[old(self).top() + q], self.cols as nat, *pen));
        }
        proof {
            let k = self.lines@.len() - 1;
            let top = old(self).top();
            if top + start <= k < top + end {
                assert(is_blank_line(self.row(k - top), old(self).cols as nat, *pen));
            } else {
                assert(self.lines@[k] == old(self).lines@[k]);
            }
            assert(self.lines@.last() == self.lines@[k]);
            assert(old(self).lines@.last() == old(self).lines@[k]);
        }
    }
    /// The rows of the view.
    pub fn view(&self) -> (v: &[Line])
        requires
            self.wf(),
        ensures
            v@ == self.lines@.subrange(self.top(), self.lines@.len() as int),
    {
        let (_, v) = self.lines.as_slice().split_at(self.lines.len() - self.rows);
        v
    }

    /// All lines: the scrollback, then the view.
    pub fn lines(&self) -> (v: &[Line])
        ensures
            v@ == self.lines@,
    {
        self.lines.as_slice()
    }

    /// The cell at (`col`, `row`) of the view.
    pub fn cell(&self, col: usize, row: usize) -> (c: &Cell)
        requires
            self.wf(),
            col < self.cols,
            row < self.rows,
        ensures
            *c == self.row(row as int).cells@[col as int],
    {
        let i = self.index_of(row);
        assert(line_ok(self.lines@[i as int], self.cols as nat));
        &self.lines[i].cells[col]
    }

    /// Appends `n` blank lines of `cols` columns in `pen`.
    fn extend(&mut self, n: usize, cols: usize, pen: &Pen)
        ensures
            final(self).lines@.len() == old(self).lines@.len() + n,
            forall|k: int| 0 <= k < old(self).lines@.len() ==> #[trigger] final(self).lines@[k] == old(self).lines@[k],
            forall|k: int| old(self).lines@.len() <= k < final(self).lines@.len()
                ==> #[trigger] is_blank_line(final(self).lines@[k], cols as nat, *pen),
            final(self).cols == old(self).cols,
            final(self).rows == old(self).rows,
            final(self).scrollback_limit == old(self).scrollback_limit,
            final(self).trim_needed == old(self).trim_needed,
            (n > 0 || (old(self).lines@.len() > 0 && !old(self).lines@.last().wrapped)) ==> final(self).last_unwrapped(),
    {
        let mut i: usize = 0;
        while i < n
            invariant
                i <= n,
                self.lines@.len() == old(self).lines@.len() + i,
                forall|k: int| 0 <= k < old(self).lines@.len() ==> #[trigger] self.lines@[k] == old(self).lines@[k],
                forall|k: int| old(self).lines@.len() <= k < self.lines@.len()
                    ==> #[trigger] is_blank_line(self.lines@[k], cols as nat, *pen),
                self.cols == old(self).cols,
                self.rows == old(self).rows,
                self.scrollback_limit == old(self).scrollback_limit,
                self.trim_needed == old(self).trim_needed,
            decreases n - i,
        {
            self.lines.push(Line::blank(cols, *pen));
            i += 1;
        }
        proof {
            let k = self.lines@.len() - 1;
            if n > 0 {
                assert(is_blank_line(self.lines@[k], cols as nat, *pen));
            } else if k >= 0 {
                assert(self.lines@[k] == old(self).lines@[k]);
            }
        }
    }

    /// What erasing as `mode` says, relative to the cursor at (`col`,
    /// `row`), with blanks in `pen` makes of the lines of `self`: `new`.
    pub open spec fn erased(&self, new: &Buffer, col: int, row: int, mode: EraseMode, pen: Pen) -> bool {
        let cols = self.cols as int;
        let rows = self.rows as int;
        let top = self.top();
        let o = self.row(row);
        let f = new.row(row);
        // the rows other than the cursor row that the mode blanks
        let (blank_lo, blank_hi) = match mode {
            EraseMode::FromCursorToEndOfView => (row + 1, rows),
            EraseMode::FromStartOfViewToCursor => (0, row),
            EraseMode::WholeView => (0, rows),
            _ => (0, 0),
        };
        &&& new.lines@.len() == self.lines@.len()
        &&& new.cols == self.cols
        &&& new.rows == self.rows
        &&& new.scrollback_limit == self.scrollback_limit
        &&& new.trim_needed == self.trim_needed
        &&& forall|k: int| 0 <= k < self.lines@.len() && k != top + row
            && !(top + blank_lo <= k < top + blank_hi)
            ==> #[trigger] new.lines@[k] == self.lines@[k]
        &&& forall|r: int| blank_lo <= r < blank_hi && r != row
            ==> #[trigger] is_blank_line(new.row(r), cols as nat, pen)
        &&& match mode {
            EraseMode::NextChars(n) => {
                let e = col + min(n as int, cols - col);
                &&& f.cells@ == spec_clear(o.cells@, col, e, pen)
                &&& f.wrapped == (o.wrapped && e != cols)
            },
            EraseMode::FromCursorToEndOfView => {
                &&& f.cells@ == spec_clear(o.cells@, col, cols, pen)
                &&& !f.wrapped
            },
            EraseMode::FromStartOfViewToCursor => {
                &&& f.cells@ == spec_clear(o.cells@, 0, min(col + 1, cols), pen)
                &&& f.wrapped == o.wrapped
            },
            EraseMode::WholeView => is_blank_line(f, cols as nat, pen),
            EraseMode::FromCursorToEndOfLine => {
                &&& f.cells@ == spec_clear(o.cells@, col, cols, pen)
                &&& !f.wrapped
            },
            EraseMode::FromStartOfLineToCursor => {
                &&& f.cells@ == spec_clear(o.cells@, 0, min(col + 1, cols), pen)
                &&& f.wrapped == o.wrapped
            },
            EraseMode::WholeLine => {
                &&& f.cells@ == spec_clear(o.cells@, 0, cols, pen)
                &&& !f.wrapped
            },
        }
    }

    /// Erases the part of the view that `mode` names, relative to the cursor
    /// at (`col`, `row`), with blanks in `pen`.
    pub fn erase(&mut self, pos: (usize, usize), mode: EraseMode, pen: &Pen)
        requires
            old(self).wf(),
            pos.0 <= old(self).cols,
            pos.1 < old(self).rows,
        ensures
            final(self).wf(),
            final(self).lines@.len() == old(self).lines@.len(),
            final(self).cols == old(self).cols,
            final(self).rows == old(self).rows,
            final(self).scrollback_limit == old(self).scrollback_limit,
            final(self).trim_needed == old(self).trim_needed,
            old(self).erased(final(self), pos.0 as int, pos.1 as int, mode, *pen),
            old(self).last_unwrapped() ==> final(self).last_unwrapped(),
    {
        let (col, row) = pos;
        match mode {
            EraseMode::NextChars(n) => {
                let n = if n < self.cols - col { n } else { self.cols - col };
                let end = col + n;
                let clear_wrap = end == self.cols;
                self.clear_cols(row, col, end, pen);
                if clear_wrap {
                    self.set_wrapped(row, false);
                }
            },
            EraseMode::FromCursorToEndOfView => {
                let cols = self.cols;
                self.set_wrapped(row, false);
                self.clear_cols(row, col, cols, pen);
                let rows = self.rows;
                self.clear_rows(row + 1, rows, pen);
            },
            EraseMode::FromStartOfViewToCursor => {
                let end = if col < self.cols { col + 1 } else { self.cols };
                self.clear_cols(row, 0, end, pen);
                self.clear_rows(0, row, pen);
            },
            EraseMode::WholeView => {
                let rows = self.rows;
                self.clear_rows(0, rows, pen);
            },
            EraseMode::FromCursorToEndOfLine => {
                let cols = self.cols;
                self.clear_cols(row, col, cols, pen);
                self.set_wrapped(row, false);
            },
            EraseMode::FromStartOfLineToCursor => {
                let end = if col < self.cols { col + 1 } else { self.cols };
                self.clear_cols(row, 0, end, pen);
            },
            EraseMode::WholeLine => {
                let cols = self.cols;
                self.clear_cols(row, 0, cols, pen);
                self.set_wrapped(row, false);
            },
        }
    }

    /// Scrolls the rows of `range` up by `n` (at most the size of the
    /// region), with blank rows in `pen` entering at its bottom. A region at
    /// the top of the view sends its top rows to the scrollback.
    pub fn scroll_up(&mut self, range: Range<usize>, n: usize, pen: &Pen)
        requires
            old(self).wf(),
            range.start < range.end <= old(self).rows,
        ensures
            final(self).wf(),
            final(self).cols == old(self).cols,
            final(self).rows == old(self).rows,
            final(self).scrollback_limit == old(self).scrollback_limit,
            final(self).trim_needed,
            scrolled_up(old(self).lines@, final(self).lines@, old(self).top(), old(self).rows as int,
                old(self).cols as nat, range.start as int, range.end as int,
                min(n as int, range.end - range.start), *pen),
            (old(self).last_unwrapped() || (range.end == old(self).rows && n >= 1)) ==> final(self).last_unwrapped(),
    {
        let start = range.start;
        let end = range.end;
        let n = if n < end - start { n } else { end - start };
        let ghost o = self.lines@;
        let ghost top = self.top();
        if end - 1 < self.rows - 1 {
            self.set_wrapped(end - 1, false);
        }
        let ghost o1 = self.lines@;
        if start == 0 {
            if end == self.rows {
                let cols = self.cols;
                self.extend(n, cols, pen);
            } else {
                let idx = self.lines.len() - self.rows + end;
                let mut i: usize = 0;
                while i < n
                    invariant
                        i <= n <= end - start,
                        idx == top + end,
                        top + end <= o1.len(),
                        self.lines@.len() == o1.len() + i,
                        o1.len() == o.len(),
                        self.cols == old(self).cols,
                        self.rows == old(self).rows,
                        self.scrollback_limit == old(self).scrollback_limit,
                        forall|k: int| 0 <= k < idx ==> #[trigger] self.lines@[k] == o1[k],
                        forall|k: int| idx <= k < idx + i ==> #[trigger] is_blank_line(self.lines@[k], self.cols as nat, *pen),
                        forall|k: int| idx + i <= k < self.lines@.len() ==> #[trigger] self.lines@[k] == o1[k - i],
                        forall|k: int| 0 <= k < o1.len() ==> #[trigger] line_ok(o1[k], self.cols as nat),
                    decreases n - i,
                {
                    let l = Line::blank(self.cols, *pen);
                    let ghost before = self.lines@;
                    self.lines.insert(idx, l);
                    assert(self.lines@ == before.insert(idx as int, l));
                    assert forall|k: int| 0 <= k < idx implies #[trigger] self.lines@[k] == before[k] by {}
                    assert forall|k: int| idx < k < self.lines@.len() implies #[trigger] self.lines@[k] == before[k - 1] by {}
                    i += 1;
                }
            }
        } else {
            self.set_wrapped(start - 1, false);
            let ghost o2 = self.lines@;
            let idx = self.lines.len() - self.rows + start;
            let mut i: usize = 0;
            while i < n
                invariant
                    i <= n <= end - start,
                    idx == top + start,
                    top + end <= o2.len(),
                    o2.len() == o.len(),
                    self.lines@.len() == o2.len() - i,
                    self.cols == old(self).cols,
                    self.rows == old(self).rows,
                    self.scrollback_limit == old(self).scrollback_limit,
                    forall|k: int| 0 <= k < idx ==> #[trigger] self.lines@[k] == o2[k],
                    forall|k: int| idx <= k < self.lines@.len() ==> #[trigger] self.lines@[k] == o2[k + i],
                decreases n - i,
            {
                let ghost before = self.lines@;
                self.lines.remove(idx);
                assert(self.lines@ == before.remove(idx as int));
                assert forall|k: int| 0 <= k < idx implies #[trigger] self.lines@[k] == before[k] by {}
                assert forall|k: int| idx <= k < self.lines@.len() implies #[trigger] self.lines@[k] == before[k + 1] by {}
                i += 1;
            }
            let at = idx + (end - start - n);
            let mut j: usize = 0;
            while j < n
                invariant
                    j <= n <= end - start,
                    at == top + end - n,
                    0 <= top,
                    top + end <= o2.len(),
                    o2.len() == o.len(),
                    self.lines@.len() == o2.len() - n + j,
                    self.cols == old(self).cols,
                    self.rows == old(self).rows,
                    self.scrollback_limit == old(self).scrollback_limit,
                    forall|k: int| 0 <= k < top + start ==> #[trigger] self.lines@[k] == o2[k],
                    forall|k: int| top + start <= k < at ==> #[trigger] self.lines@[k] == o2[k + n],
                    forall|k: int| at <= k < at + j ==> #[trigger] is_blank_line(self.lines@[k], self.cols as nat, *pen),
                    forall|k: int| at + j <= k < self.lines@.len() ==> #[trigger] self.lines@[k] == o2[k + n - j],
                decreases n - j,
            {
                let l = Line::blank(self.cols, *pen);
                let ghost before = self.lines@;
                self.lines.insert(at, l);
                assert(self.lines@ == before.insert(at as int, l));
                assert forall|k: int| 0 <= k < at implies #[trigger] self.lines@[k] == before[k] by {}
                assert forall|k: int| at < k < self.lines@.len() implies #[trigger] self.lines@[k] == before[k - 1] by {}
                j += 1;
            }
        }
        self.trim_needed = true;
        proof {
            let cols = self.cols as nat;
            assert(scrolled_up(o, self.lines@, top, self.rows as int, cols, start as int, end as int, n as int, *pen));
            let k = self.lines@.len() - 1;
            let l = self.lines@[k];
            assert(self.lines@.last() == l);
            assert(o.last() == o[o.len() - 1]);
            if start == 0 && end == self.rows {
                if k < o.len() {
                    assert(same_line(l, o[k]));
                } else {
                    assert(is_blank_line(l, cols, *pen));
                }
            } else if start == 0 {
                assert(same_line(l, o[k - n]));
            } else {
                if k < top + end - n {
                    assert(moved_line(l, o[k + n], end - 1 < self.rows - 1 && k + n == top + end - 1));
                } else if k < top + end {
                    assert(is_blank_line(l, cols, *pen));
                } else {
                    assert(same_line(l, o[k]));
                }
            }
            assert forall|k: int| 0 <= k < self.lines@.len() implies #[trigger] line_ok(self.lines@[k], cols) by {
                let l = self.lines@[k];
                if start == 0 && end == self.rows {
                    if k < o.len() {
                        assert(same_line(l, o[k]));
                        assert(line_ok(o[k], cols));
                    } else {
                        lemma_blank_line_ok(l, cols, *pen);
                    }
                } else if start == 0 {
                    if k < top + end {
                        assert(moved_line(l, o[k], end - 1 < self.rows - 1 && k == top + end - 1));
                        assert(line_ok(o[k], cols));
                    } else if k < top + end + n {
                        lemma_blank_line_ok(l, cols, *pen);
                    } else {
                        assert(same_line(l, o[k - n]));
                        assert(line_ok(o[k - n], cols));
                    }
                } else {
                    if k < top + start {
                        assert(moved_line(l, o[k], k == top + start - 1));
                        assert(line_ok(o[k], cols));
                    } else if k < top + end - n {
                        assert(moved_line(l, o[k + n], end - 1 < self.rows - 1 && k + n == top + end - 1));
                        assert(line_ok(o[k + n], cols));
                    } else if k < top + end {
                        lemma_blank_line_ok(l, cols, *pen);
                    } else {
                        assert(same_line(l, o[k]));
                        assert(line_ok(o[k], cols));
                    }
                }
            }
        }
    }

    /// Removes the `n` lines at `at..at + n` of all lines.
    fn remove_lines(&mut self, at: usize, n: usize)
        requires
            at + n <= old(self).lines@.len(),
        ensures
            final(self).lines@.len() == old(self).lines@.len() - n,
            forall|k: int| 0 <= k < at ==> #[trigger] final(self).lines@[k] == old(self).lines@[k],
            forall|k: int| at <= k < final(self).lines@.len() ==> #[trigger] final(self).lines@[k] == old(self).lines@[k + n],
            final(self).cols == old(self).cols,
            final(self).rows == old(self).rows,
            final(self).scrollback_limit == old(self).scrollback_limit,
            final(self).trim_needed == old(self).trim_needed,
    {
        let mut i: usize = 0;
        while i < n
            invariant
                i <= n,
                at + n <= old(self).lines@.len(),
                self.lines@.len() == old(self).lines@.len() - i,
                forall|k: int| 0 <= k < at ==> #[trigger] self.lines@[k] == old(self).lines@[k],
                forall|k: int| at <= k < self.lines@.len() ==> #[trigger] self.lines@[k] == old(self).lines@[k + i],
                self.cols == old(self).cols,
                self.rows == old(self).rows,
                self.scrollback_limit == old(self).scrollback_limit,
                self.trim_needed == old(self).trim_needed,
            decreases n - i,
        {
            let ghost before = self.lines@;
            self.lines.remove(at);
            assert(self.lines@ == before.remove(at as int));
            assert forall|k: int| 0 <= k < at implies #[trigger] self.lines@[k] == before[k] by {}
            assert forall|k: int| at <= k < self.lines@.len() implies #[trigger] self.lines@[k] == before[k + 1] by {}
            i += 1;
        }
    }

    /// Inserts `n` blank lines of the buffer's width in `pen` at `at` of all lines.
    fn insert_blank_lines(&mut self, at: usize, n: usize, pen: &Pen)
        requires
            at <= old(self).lines@.len(),
            old(self).lines@.len() + n <= usize::MAX,
        ensures
            final(self).lines@.len() == old(self).lines@.len() + n,
            forall|k: int| 0 <= k < at ==> #[trigger] final(self).lines@[k] == old(self).lines@[k],
            forall|k: int| at <= k < at + n ==> #[trigger] is_blank_line(final(self).lines@[k], old(self).cols as nat, *pen),
            forall|k: int| at + n <= k < final(self).lines@.len() ==> #[trigger] final(self).lines@[k] == old(self).lines@[k - n],
            final(self).cols == old(self).cols,
            final(self).rows == old(self).rows,
            final(self).scrollback_limit == old(self).scrollback_limit,
            final(self).trim_needed == old(self).trim_needed,
    {
        let mut i: usize = 0;
        while i < n
            invariant
                i <= n,
                at <= old(self).lines@.len(),
                old(self).lines@.len() + n <= usize::MAX,
                self.lines@.len() == old(self).lines@.len() + i,
                forall|k: int| 0 <= k < at ==> #[trigger] self.lines@[k] == old(self).lines@[k],
                forall|k: int| at <= k < at + i ==> #[trigger] is_blank_line(self.lines@[k], self.cols as nat, *pen),
                forall|k: int| at + i <= k < self.lines@.len() ==> #[trigger] self.lines@[k] == old(self).lines@[k - i],
                self.cols == old(self).cols,
                self.rows == old(self).rows,
                self.scrollback_limit == old(self).scrollback_limit,
                self.trim_needed == old(self).trim_needed,
            decreases n - i,
        {
            let l = Line::blank(self.cols, *pen);
            let ghost before = self.lines@;
            self.lines.insert(at, l);
            assert(self.lines@ == before.insert(at as int, l));
            assert forall|k: int| 0 <= k < at implies #[trigger] self.lines@[k] == before[k] by {}
            assert forall|k: int| at < k < self.lines@.len() implies #[trigger] self.lines@[k] == before[k - 1] by {}
            i += 1;
        }
    }

    /// Scrolls the rows of `range` down by `n` (at most the size of the
    /// region), with blank rows in `pen` entering at its top.
    pub fn scroll_down(&mut self, range: Range<usize>, n: usize, pen: &Pen)
        requires
            old(self).wf(),
            range.start < range.end <= old(self).rows,
        ensures
            final(self).wf(),
            final(self).cols == old(self).cols,
            final(self).rows == old(self).rows,
            final(self).scrollback_limit == old(self).scrollback_limit,
            final(self).trim_needed == old(self).trim_needed,
            scrolled_down(old(self).lines@, final(self).lines@, old(self).top(), old(self).cols as nat,
                range.start as int, range.end as int, min(n as int, range.end - range.start), *pen),
            old(self).last_unwrapped() ==> final(self).last_unwrapped(),
    {
        let start = range.start;
        let end = range.end;
        let n = if n < end - start { n } else { end - start };
        let ghost o = self.lines@;
        let ghost top = self.top();
        let top_i = self.lines.len() - self.rows;
        self.remove_lines(top_i + end - n, n);
        self.insert_blank_lines(top_i + start, n, pen);
        let ghost o2 = self.lines@;
        assert forall|k: int| 0 <= k < o2.len() implies #[trigger] line_ok(o2[k], self.cols as nat) by {
            if top + start <= k < top + start + n {
                lemma_blank_line_ok(o2[k], self.cols as nat, *pen);
            } else if top + start + n <= k < top + end {
                assert(o2[k] == o[k - n]);
                assert(line_ok(o[k - n], self.cols as nat));
            } else {
                assert(o2[k] == o[k]);
                assert(line_ok(o[k], self.cols as nat));
            }
        }
        if start > 0 {
            self.set_wrapped(start - 1, false);
        }
        let ghost o3 = self.lines@;
        self.set_wrapped(end - 1, false);
        proof {
            let f = self.lines@;
            assert forall|k: int| top + start <= k < top + start + n implies #[trigger] is_blank_line(f[k], self.cols as nat, *pen) by {
                assert(is_blank_line(o2[k], self.cols as nat, *pen));
                assert(o3[k] == o2[k]);
                if k != top + end - 1 {
                    assert(f[k] == o3[k]);
                }
            }
        }
    }

    /// The text of all lines: one string per logical line, with the white
    /// space at its end trimmed.
    pub fn text(&self) -> (t: Vec<String>)
        ensures
            t@.len() == text_from(self.lines@, Seq::empty()).len(),
            forall|i: int| 0 <= i < t@.len() ==> #[trigger] t@[i]@ == text_from(self.lines@, Seq::empty())[i],
    {
        let mut t: Vec<String> = Vec::new();
        let mut current: Vec<char> = Vec::new();
        let ghost all = text_from(self.lines@, Seq::empty());
        let mut i: usize = 0;
        assert(self.lines@.skip(0) =~= self.lines@);
        assert(current@ =~= Seq::<char>::empty());
        while i < self.lines.len()
            invariant
                i <= self.lines@.len(),
                all == text_from(self.lines@, Seq::empty()),
                all.len() == t@.len() + text_from(self.lines@.skip(i as int), current@).len(),
                forall|k: int| 0 <= k < t@.len() ==> #[trigger] t@[k]@ == all[k],
                forall|k: int| 0 <= k < text_from(self.lines@.skip(i as int), current@).len()
                    ==> #[trigger] text_from(self.lines@.skip(i as int), current@)[k] == all[t@.len() + k],
            decreases self.lines@.len() - i,
        {
            let ghost rest = self.lines@.skip(i as int);
            assert(rest.drop_first() =~= self.lines@.skip(i + 1));
            assert(rest[0] == self.lines@[i as int]);
            let ghost cur0 = current@;
            let ghost t0 = t@;
            let chars = self.lines[i].chars();
            push_chars(&mut current, chars.as_slice());
            if !self.lines[i].wrapped {
                trim_end_chars(&mut current);
                let s = string_from_chars(current.as_slice());
                t.push(s);
                current = Vec::new();
                proof {
                    let nrest = self.lines@.skip(i + 1);
                    assert(text_from(rest, cur0) == seq![trim_end(cur0 + visible_chars(rest[0].cells@))] + text_from(nrest, Seq::empty()));
                    assert(text_from(rest, cur0)[0] == all[t0.len() as int]);
                    assert forall|k: int| 0 <= k < text_from(nrest, current@).len()
                        implies #[trigger] text_from(nrest, current@)[k] == all[t@.len() + k] by {
                        assert(text_from(rest, cur0)[k + 1] == all[t0.len() + k + 1]);
                    }
                    assert forall|k: int| 0 <= k < t@.len() implies #[trigger] t@[k]@ == all[k] by {
                        if k < t0.len() {
                            assert(t@[k] == t0[k]);
                        }
                    }
                }
            }
            i += 1;
        }
        assert(self.lines@.skip(i as int) =~= Seq::<Line>::empty());
        if current.len() > 0 {
            let ghost t0 = t@;
            let ghost cur0 = current@;
            assert(text_from(self.lines@.skip(i as int), cur0)[0] == all[t0.len() as int]);
            trim_end_chars(&mut current);
            let s = string_from_chars(current.as_slice());
            t.push(s);
            proof {
                assert forall|k: int| 0 <= k < t@.len() implies #[trigger] t@[k]@ == all[k] by {
                    if k < t0.len() {
                        assert(t@[k] == t0[k]);
                    }
                }
            }
        }
        t
    }

    /// Cuts the scrollback back to its soft limit once it has grown beyond
    /// the hard one, and hands out the lines it removed.
    fn trim_scrollback(&mut self) -> (r: Option<Vec<Line>>)
        requires
            old(self).wf(),
        ensures
            final(self).wf(),
            final(self).cols == old(self).cols,
            final(self).rows == old(self).rows,
            final(self).scrollback_limit == old(self).scrollback_limit,
            final(self).trim_needed == old(self).trim_needed,
            ({
                let e = trim_excess(old(self).lines@.len() as int, old(self).rows as int, old(self).scrollback_limit);
                &&& final(self).lines@ == old(self).lines@.skip(e)
                &&& match r {
                    Some(v) => e > 0 && v@ == old(self).lines@.take(e),
                    None => e == 0,
                }
            }),
            old(self).last_unwrapped() ==> final(self).last_unwrapped(),
    {
        let ghost o = self.lines@;
        match self.scrollback_limit {
            Some(limit) => {
                let scrollback_size = self.lines.len() - self.rows;
                if scrollback_size > limit.hard {
                    let excess = scrollback_size - limit.soft;
                    let mut rest = self.lines.split_off(excess);
                    std::mem::swap(&mut self.lines, &mut rest);
                    assert forall|i: int| 0 <= i < self.lines@.len() implies #[trigger] line_ok(self.lines@[i], self.cols as nat) by {
                        assert(self.lines@[i] == o[i + excess]);
                    }
                    assert(self.lines@ =~= o.skip(excess as int));
                    assert(rest@ =~= o.take(excess as int));
                    return Some(rest);
                }
            },
            None => {},
        }
        assert(o.skip(0) =~= o);
        None
    }

    /// When a scroll may have grown the scrollback since the last call, cuts
    /// it back as `trim_scrollback` does and hands out the removed lines.
    pub fn gc(&mut self) -> (r: Option<Vec<Line>>)
        requires
            old(self).wf(),
        ensures
            final(self).wf(),
            final(self).cols == old(self).cols,
            final(self).rows == old(self).rows,
            final(self).scrollback_limit == old(self).scrollback_limit,
            !final(self).trim_needed,
            ({
                let e = if old(self).trim_needed {
                    trim_excess(old(self).lines@.len() as int, old(self).rows as int, old(self).scrollback_limit)
                } else {
                    0
                };
                &&& final(self).lines@ == old(self).lines@.skip(e)
                &&& match r {
                    Some(v) => e > 0 && v@ == old(self).lines@.take(e),
                    None => e == 0,
                }
            }),
            old(self).last_unwrapped() ==> final(self).last_unwrapped(),
    {
        if self.trim_needed {
            self.trim_needed = false;
            self.trim_scrollback()
        } else {
            assert(self.lines@.skip(0) =~= self.lines@);
            None
        }
    }

    /// Puts `n` full lines of `s` characters in the scrollback, above the
    /// existing lines.
    pub fn add_scrollback(&mut self, n: usize)
        requires
            old(self).wf(),
            old(self).lines@.len() + n <= usize::MAX,
        ensures
            final(self).wf(),
            final(self).cols == old(self).cols,
            final(self).rows == old(self).rows,
            final(self).scrollback_limit == old(self).scrollback_limit,
            final(self).trim_needed == old(self).trim_needed,
            final(self).lines@.len() == old(self).lines@.len() + n,
            forall|k: int| 0 <= k < n ==> #[trigger] final(self).lines@[k].cells@
                == Seq::new(old(self).cols as nat, |i: int| Cell { ch: 's', occupancy: crate::cell::Occupancy::Single, pen: Pen::spec_default() }),
            forall|k: int| 0 <= k < n ==> !(#[trigger] final(self).lines@[k]).wrapped,
            forall|k: int| n <= k < final(self).lines@.len() ==> #[trigger] final(self).lines@[k] == old(self).lines@[k - n],
    {
        let ghost o = self.lines@;
        let mut line = Line::blank(self.cols, Pen::new());
        let mut col: usize = 0;
        while col < self.cols
            invariant
                col <= self.cols,
                self.cols >= 1,
                line.cells@.len() == self.cols,
                !line.wrapped,
                line.wf(),
                forall|i: int| 0 <= i < col ==> #[trigger] line.cells@[i] == (Cell { ch: 's', occupancy: crate::cell::Occupancy::Single, pen: Pen::spec_default() }),
                forall|i: int| col <= i < self.cols ==> #[trigger] line.cells@[i] == Cell::spec_blank(Pen::spec_default()),
            decreases self.cols - col,
        {
            line.print(col, 's', Pen::new());
            col += 1;
        }
        let ghost sline = line.cells@;
        assert(sline =~= Seq::new(self.cols as nat, |i: int| Cell { ch: 's', occupancy: crate::cell::Occupancy::Single, pen: Pen::spec_default() }));
        let mut i: usize = 0;
        while i < n
            invariant
                i <= n,
                self.wf(),
                o.len() + n <= usize::MAX,
                self.lines@.len() == o.len() + i,
                self.cols == old(self).cols,
                self.rows == old(self).rows,
                self.scrollback_limit == old(self).scrollback_limit,
                self.trim_needed == old(self).trim_needed,
                line.cells@ == sline,
                !line.wrapped,
                line_ok(line, self.cols as nat),
                forall|k: int| 0 <= k < i ==> (#[trigger] self.lines@[k]).cells@ == sline,
                forall|k: int| 0 <= k < i ==> !(#[trigger] self.lines@[k]).wrapped,
                forall|k: int| i <= k < self.lines@.len() ==> #[trigger] self.lines@[k] == o[k - i],
            decreases n - i,
        {
            let l = line.clone();
            let ghost before = self.lines@;
            self.lines.insert(0, l);
            assert(self.lines@ == before.insert(0, l));
            assert forall|k: int| 0 < k < self.lines@.len() implies #[trigger] self.lines@[k] == before[k - 1] by {}
            i += 1;
        }
    }

    /// Where (`col`, `row`) of a view of `rows` rows lies in the logical
    /// lines, with rows of `cols` columns: (column in the logical line,
    /// logical line).
    pub fn logical_position(&self, pos: (usize, usize), cols: usize, rows: usize) -> (r: (u128, u128))
        requires
            rows <= self.lines@.len(),
        ensures
            (r.0 as int, r.1 as int) == logical_pos(self.lines@, pos.0 as int, pos.1 as int, cols as int, rows as int),
    {
        let len = self.lines.len();
        let abs_row: u128 = pos.1 as u128 + (len - rows) as u128;
        let last_available_row: usize = if abs_row < len as u128 { abs_row as usize } else { len };
        let mut log_col_offset: u128 = 0;
        let mut log_row: u128 = abs_row - last_available_row as u128;
        let mut i: usize = 0;
        while i < last_available_row
            invariant
                len == self.lines@.len(),
                last_available_row <= len,
                last_available_row <= abs_row,
                abs_row <= 2 * (usize::MAX as int),
                i <= last_available_row,
                log_col_offset == cols * wrap_run(self.lines@, i as int),
                log_row == (abs_row - last_available_row) + line_count(self.lines@, i as int),
            decreases last_available_row - i,
        {
            proof { lemma_run(self.lines@, i as int); }
            if self.lines[i].wrapped {
                assert(cols * (wrap_run(self.lines@, i as int) + 1) <= usize::MAX * usize::MAX) by (nonlinear_arith)
                    requires cols <= usize::MAX, wrap_run(self.lines@, i as int) + 1 <= usize::MAX;
                assert(cols * (wrap_run(self.lines@, i as int) + 1) == log_col_offset + cols) by (nonlinear_arith)
                    requires log_col_offset == cols * wrap_run(self.lines@, i as int);
                assert(usize::MAX * usize::MAX < u128::MAX) by (nonlinear_arith)
                    requires usize::MAX <= 0xffff_ffff_ffff_ffff;
                log_col_offset = log_col_offset + cols as u128;
            } else {
                log_col_offset = 0;
                log_row = log_row + 1;
            }
            i += 1;
        }
        proof { lemma_run(self.lines@, i as int); }
        assert(cols * wrap_run(self.lines@, i as int) <= usize::MAX * usize::MAX) by (nonlinear_arith)
            requires cols <= usize::MAX, wrap_run(self.lines@, i as int) <= usize::MAX;
        assert(usize::MAX * usize::MAX + usize::MAX < u128::MAX) by (nonlinear_arith)
            requires usize::MAX <= 0xffff_ffff_ffff_ffff;
        (pos.0 as u128 + log_col_offset, log_row)
    }

    /// Where column `pos.0` of logical line `pos.1` lies with rows of `cols`
    /// columns: (column, index of the row among all lines). A column beyond
    /// the row is the last column.
    pub fn relative_position(&self, pos: (u128, u128), cols: usize) -> (r: (usize, usize))
        requires
            self.lines@.len() >= 1,
            cols >= 1,
        ensures
            (r.0 as int, r.1 as int) == relative_pos(self.lines@, pos.0 as int, pos.1 as int, cols as int),
            r.0 < cols,
            r.1 < self.lines@.len(),
    {
        let len = self.lines.len();
        let last_row = len - 1;
        let mut rel_row: usize = 0;
        let mut r: usize = 0;
        while (r as u128) < pos.1 && rel_row < last_row
            invariant
                len == self.lines@.len(),
                last_row == len - 1,
                rel_row <= last_row,
                r == line_count(self.lines@, rel_row as int),
                first_row(self.lines@, pos.1 as int, 0) == first_row(self.lines@, pos.1 as int, rel_row as int),
            decreases last_row - rel_row,
        {
            proof { lemma_run(self.lines@, rel_row as int); }
            if !self.lines[rel_row].wrapped {
                r += 1;
            }
            rel_row += 1;
        }
        let ghost start = rel_row as int;
        let mut rel_col: u128 = pos.0;
        while rel_col >= cols as u128 && rel_row < last_row && self.lines[rel_row].wrapped
            invariant
                len == self.lines@.len(),
                last_row == len - 1,
                rel_row <= last_row,
                advance(self.lines@, pos.0 as int, start, cols as int)
                    == advance(self.lines@, rel_col as int, rel_row as int, cols as int),
            decreases last_row - rel_row,
        {
            rel_col = rel_col - cols as u128;
            rel_row += 1;
        }
        let c: usize = if rel_col < cols as u128 { rel_col as usize } else { cols - 1 };
        (c, rel_row)
    }

    /// `new` is this buffer rewrapped to `cols` columns, the cursor at
    /// `cursor` going to `r`: its rows are those `reflow` gives, followed by
    /// blank rows up to the height of the view; the cursor stays on the same
    /// character of the same logical line; the view keeps its height unless
    /// the cursor's row now lies above it, in which case it grows upwards to
    /// take that row in.
    pub open spec fn rewrapped(&self, new: &Buffer, cols: int, cursor: (usize, usize), r: (usize, usize)) -> bool {
        let rr = reflowed_rows(self.lines@, cols);
        let fill = if rr.len() < self.rows { self.rows - rr.len() } else { 0 };
        let log = logical_pos(self.lines@, cursor.0 as int, cursor.1 as int, self.cols as int, self.rows as int);
        let rel = relative_pos(new.lines@, log.0, log.1, cols);
        let off = new.lines@.len() - self.rows;
        &&& new.cols == cols
        &&& new.scrollback_limit == self.scrollback_limit
        &&& new.trim_needed == self.trim_needed
        &&& row_views(new.lines@) == rr + Seq::new(fill as nat, |i: int| (blank_cells(cols as nat, Pen::spec_default()), false))
        &&& r.0 == rel.0
        &&& r.1 == (if rel.1 >= off { rel.1 - off } else { 0 })
        &&& new.rows == (if rel.1 >= off { self.rows as int } else { self.rows + (off - rel.1) })
    }

    /// Changes the size of the view to `new_cols` x `new_rows` with the
    /// cursor at `cursor`, and returns where the cursor goes. A new width
    /// rewraps all lines (see `reflow`) and keeps the cursor on the same
    /// character; a new height is as `rows_resized` says. No character
    /// other than a space is lost but in rows cut off at the bottom.
    pub fn resize(&mut self, new_cols: usize, new_rows: usize, cursor: (usize, usize)) -> (r: (usize, usize))
        requires
            old(self).wf(),
            new_rows >= 1,
            new_cols == old(self).cols || new_cols >= 2,
            !(new_cols == old(self).cols && new_rows < old(self).rows && cursor.1 >= old(self).rows),
        ensures
            final(self).wf(),
            final(self).cols == new_cols,
            final(self).rows == new_rows,
            final(self).scrollback_limit == old(self).scrollback_limit,
            final(self).trim_needed,
            (cursor.1 < old(self).rows || new_cols != old(self).cols) ==> r.1 < new_rows,
            new_cols != old(self).cols ==> r.0 < new_cols,
            new_cols == old(self).cols ==> r.0 == cursor.0,
            new_cols == old(self).cols ==> rows_resized(old(self).lines@, final(self).lines@, new_cols as nat,
                old(self).rows as int, new_rows as int, cursor.1 as int, r.1 as int),
            new_cols != old(self).cols ==> exists|m: Buffer, c: (usize, usize)| {
                &&& #[trigger] old(self).rewrapped(&m, new_cols as int, cursor, c)
                &&& r.0 == c.0
                &&& rows_resized(m.lines@, final(self).lines@, new_cols as nat, m.rows as int, new_rows as int,
                    c.1 as int, r.1 as int)
            },
            old(self).last_unwrapped() ==> final(self).last_unwrapped(),
            ink_rows(final(self).lines@).is_prefix_of(ink_rows(old(self).lines@)),
    {
        let mut cursor = cursor;
        let ghost c0 = cursor;
        let ghost b0 = *self;
        if new_cols != self.cols {
            cursor = self.rewrap(new_cols, cursor);
        }
        let ghost m = *self;
        let r = self.resize_rows(new_rows, cursor);
        proof {
            if new_cols != b0.cols {
                assert(b0.rewrapped(&m, new_cols as int, c0, cursor));
            }
        }
        self.trim_needed = true;
        r
    }

    /// Rewraps all lines to `new_cols` columns and returns where the cursor
    /// at `cursor` goes; the view grows upwards when the cursor's line now
    /// starts above it.
    fn rewrap(&mut self, new_cols: usize, cursor: (usize, usize)) -> (r: (usize, usize))
        requires
            old(self).wf(),
            new_cols >= 2,
        ensures
            final(self).wf(),
            final(self).cols == new_cols,
            final(self).rows >= old(self).rows,
            final(self).scrollback_limit == old(self).scrollback_limit,
            final(self).trim_needed == old(self).trim_needed,
            r.0 < new_cols,
            r.1 < final(self).rows,
            old(self).last_unwrapped() ==> final(self).last_unwrapped(),
            ink_rows(final(self).lines@) == ink_rows(old(self).lines@),
            old(self).rewrapped(final(self), new_cols as int, cursor, r),
    {
        let ghost b0 = *self;
        let old_cols = self.cols;
        let mut old_rows = self.rows;
        let mut cursor = cursor;
        let log_pos = self.logical_position(cursor, old_cols, old_rows);
        let mut lines: Vec<Line> = Vec::new();
        std::mem::swap(&mut lines, &mut self.lines);
        assert forall|i: int| 0 <= i < lines@.len() implies (#[trigger] lines@[i]).wf() && lines@[i].cells@.len() >= 1 by {
            assert(line_ok(lines@[i], old_cols as nat));
        }
        self.lines = reflow(lines, new_cols);
        self.cols = new_cols;
        let line_count = self.lines.len();
        let ghost reflowed = self.lines@;
        if line_count < old_rows {
            self.extend(old_rows - line_count, new_cols, &Pen::new());
            assert forall|i: int| 0 <= i < self.lines@.len() implies #[trigger] line_ok(self.lines@[i], new_cols as nat) by {
                if i >= line_count {
                    lemma_blank_line_ok(self.lines@[i], new_cols as nat, Pen::spec_default());
                }
            }
        }
        proof {
            assert forall|k: int| line_count <= k < self.lines@.len()
                implies ink((#[trigger] self.lines@[k]).cells@) == Seq::<char>::empty() by {
                assert(is_blank_line(self.lines@[k], new_cols as nat, Pen::spec_default()));
                lemma_ink_blanks(new_cols as nat, Pen::spec_default());
            }
            lemma_ink_rows_kept(reflowed, self.lines@, line_count as int);
            assert(reflowed.subrange(0, line_count as int) == reflowed);
            let rr = reflowed_rows(b0.lines@, new_cols as int);
            assert(row_views(reflowed) == rr);
            let fill = if rr.len() < b0.rows { b0.rows - rr.len() } else { 0 };
            assert(row_views(self.lines@) =~= rr + Seq::new(fill as nat,
                |i: int| (blank_cells(new_cols as nat, Pen::spec_default()), false))) by {
                assert forall|k: int| 0 <= k < self.lines@.len() implies #[trigger] row_views(self.lines@)[k]
                    == (rr + Seq::new(fill as nat, |i: int| (blank_cells(new_cols as nat, Pen::spec_default()), false)))[k] by {
                    if k >= line_count {
                        assert(is_blank_line(self.lines@[k], new_cols as nat, Pen::spec_default()));
                    } else {
                        assert(row_views(reflowed)[k] == row_view(reflowed[k]));
                    }
                }
            }
        }
        let rel_pos = self.relative_position(log_pos, new_cols);
        cursor.0 = rel_pos.0;
        let offset = self.lines.len() - old_rows;
        if rel_pos.1 >= offset {
            cursor.1 = rel_pos.1 - offset;
        } else {
            cursor.1 = 0;
            old_rows = old_rows + (offset - rel_pos.1);
        }
        self.rows = old_rows;
        cursor
    }

    /// Changes the height of the view to `new_rows` with the cursor in row
    /// `cursor.1`, as `rows_resized` says, and returns where the cursor goes.
    fn resize_rows(&mut self, new_rows: usize, cursor: (usize, usize)) -> (r: (usize, usize))
        requires
            old(self).wf(),
            new_rows >= 1,
            new_rows < old(self).rows ==> cursor.1 < old(self).rows,
        ensures
            final(self).wf(),
            final(self).cols == old(self).cols,
            final(self).rows == new_rows,
            final(self).scrollback_limit == old(self).scrollback_limit,
            final(self).trim_needed == old(self).trim_needed,
            r.0 == cursor.0,
            cursor.1 < old(self).rows ==> r.1 < new_rows,
            rows_resized(old(self).lines@, final(self).lines@, old(self).cols as nat,
                old(self).rows as int, new_rows as int, cursor.1 as int, r.1 as int),
            old(self).last_unwrapped() ==> final(self).last_unwrapped(),
            ink_rows(final(self).lines@).is_prefix_of(ink_rows(old(self).lines@)),
    {
        let ghost mid = self.lines@;
        let old_rows = self.rows;
        let mut cursor = cursor;
        let line_count = self.lines.len();
        if new_rows < old_rows {
            let height_delta = old_rows - new_rows;
            let inverted_cursor_row = old_rows - 1 - cursor.1;
            let excess = if height_delta < inverted_cursor_row { height_delta } else { inverted_cursor_row };
            if excess > 0 {
                self.lines.truncate(line_count - excess);
                let last = self.lines.len() - 1;
                self.lines[last].wrapped = false;
                assert forall|i: int| 0 <= i < self.lines@.len() implies #[trigger] line_ok(self.lines@[i], self.cols as nat) by {
                    assert(line_ok(mid[i], self.cols as nat));
                }
            }
            cursor.1 = cursor.1 - (height_delta - excess);
        } else if new_rows > old_rows {
            let mut height_delta = new_rows - old_rows;
            let scrollback_size = line_count - old_rows;
            let cursor_row_shift = if scrollback_size < height_delta { scrollback_size } else { height_delta };
            height_delta = height_delta - cursor_row_shift;
            if cursor.1 < old_rows {
                cursor.1 = cursor.1 + cursor_row_shift;
            }
            if height_delta > 0 {
                let cols = self.cols;
                self.extend(height_delta, cols, &Pen::new());
                assert forall|i: int| 0 <= i < self.lines@.len() implies #[trigger] line_ok(self.lines@[i], self.cols as nat) by {
                    if i >= line_count {
                        lemma_blank_line_ok(self.lines@[i], self.cols as nat, Pen::spec_default());
                    } else {
                        assert(line_ok(mid[i], self.cols as nat));
                    }
                }
            }
        }
        self.rows = new_rows;
        proof {
            let m = if self.lines@.len() < mid.len() { self.lines@.len() as int } else { mid.len() as int };
            assert forall|k: int| m <= k < self.lines@.len()
                implies ink((#[trigger] self.lines@[k]).cells@) == Seq::<char>::empty() by {
                assert(is_blank_line(self.lines@[k], self.cols as nat, Pen::spec_default()));
                lemma_ink_blanks(self.cols as nat, Pen::spec_default());
            }
            lemma_ink_rows_kept(mid, self.lines@, m);
            lemma_ink_rows_prefix(mid, m);
        }
        cursor
    }
}

/// The number of cells of the line in `rest`, if any.
pub open spec fn opt_len(rest: Option<Line>) -> nat {
    match rest {
        Some(l) => l.cells@.len(),
        None => 0,
    }
}

/// The ink of rows, in order: the characters they show other than spaces.
pub open spec fn ink_rows(ls: Seq<Line>) -> Seq<char>
    decreases ls.len(),
{
    if ls.len() == 0 {
        Seq::empty()
    } else {
        ink_rows(ls.drop_last()) + ink(ls.last().cells@)
    }
}

/// The ink of rows kept as a stack, the last one on top: from the top down.
pub open spec fn ink_stack(ls: Seq<Line>) -> Seq<char>
    decreases ls.len(),
{
    if ls.len() == 0 {
        Seq::empty()
    } else {
        ink(ls.last().cells@) + ink_stack(ls.drop_last())
    }
}

/// Rows that hold the cells of the first `m` rows of `old`, then ink-free
/// rows, carry the ink of those `m` rows.
proof fn lemma_ink_rows_kept(old: Seq<Line>, new: Seq<Line>, m: int)
    requires
        0 <= m <= old.len(),
        m <= new.len(),
        forall|k: int| 0 <= k < m ==> (#[trigger] new[k]).cells@ == old[k].cells@,
        forall|k: int| m <= k < new.len() ==> ink((#[trigger] new[k]).cells@) == Seq::<char>::empty(),
    ensures
        ink_rows(new) == ink_rows(old.subrange(0, m)),
    decreases new.len(),
{
    if new.len() == 0 {
        assert(old.subrange(0, m).len() == 0);
    } else if new.len() > m {
        lemma_ink_rows_kept(old, new.drop_last(), m);
        assert(ink_rows(new) =~= ink_rows(new.drop_last()));
    } else {
        lemma_ink_rows_kept(old, new.drop_last(), m - 1);
        assert(old.subrange(0, m).drop_last() == old.subrange(0, m - 1));
        assert(old.subrange(0, m).last() == old[m - 1]);
    }
}

/// The ink of the first `m` rows starts the ink of all.
proof fn lemma_ink_rows_prefix(ls: Seq<Line>, m: int)
    requires
        0 <= m <= ls.len(),
    ensures
        ink_rows(ls.subrange(0, m)).is_prefix_of(ink_rows(ls)),
    decreases ls.len() - m,
{
    if m < ls.len() {
        lemma_ink_rows_prefix(ls, m + 1);
        assert(ls.subrange(0, m + 1).drop_last() == ls.subrange(0, m));
    } else {
        assert(ls.subrange(0, m) == ls);
    }
}

/// Regrouping text: `a b c f` read as `a d e f` when `b c` is `d e`.
proof fn lemma_regroup(a: Seq<char>, b: Seq<char>, c: Seq<char>, d: Seq<char>, e: Seq<char>, f: Seq<char>)
    requires
        b + c == d + e,
    ensures
        a + b + c + f == a + d + (e + f),
{
    assert(a + b + c + f =~= a + (b + c) + f);
    assert(a + d + (e + f) =~= a + (d + e) + f);
}

/// The ink of each logical line of `ls` (rows joined while they wrap), the
/// first one continuing the ink `cur` of a logical line left open when
/// `open`; a last logical line left open counts too.
pub open spec fn line_inks(ls: Seq<Line>, cur: Seq<char>, open: bool) -> Seq<Seq<char>>
    decreases ls.len(),
{
    if ls.len() == 0 {
        if open { seq![cur] } else { Seq::empty() }
    } else if ls[0].wrapped {
        line_inks(ls.drop_first(), cur + ink(ls[0].cells@), true)
    } else {
        seq![cur + ink(ls[0].cells@)] + line_inks(ls.drop_first(), Seq::empty(), false)
    }
}

/// The logical lines that `ls` closes, and the ink and openness of the one
/// it leaves, from the ink `cur` of one left open when `open`.
pub open spec fn inks_after(ls: Seq<Line>, cur: Seq<char>, open: bool) -> (Seq<Seq<char>>, Seq<char>, bool)
    decreases ls.len(),
{
    if ls.len() == 0 {
        (Seq::empty(), cur, open)
    } else if ls[0].wrapped {
        inks_after(ls.drop_first(), cur + ink(ls[0].cells@), true)
    } else {
        let r = inks_after(ls.drop_first(), Seq::empty(), false);
        (seq![cur + ink(ls[0].cells@)] + r.0, r.1, r.2)
    }
}

/// Rows all continuing on the next but the last.
pub open spec fn wrapped_but_last(a: Seq<Line>) -> bool {
    &&& a.len() >= 1
    &&& forall|i: int| 0 <= i < a.len() - 1 ==> (#[trigger] a[i]).wrapped
}

/// Two runs of rows that stand for the same piece of a logical line: each
/// joined up to its last row, which continue alike, with the same ink.
pub open spec fn same_block(a: Seq<Line>, b: Seq<Line>) -> bool {
    &&& wrapped_but_last(a)
    &&& wrapped_but_last(b)
    &&& a.last().wrapped == b.last().wrapped
    &&& ink_rows(a) == ink_rows(b)
}

/// The ink of rows is the ink of the first, then of the others.
proof fn lemma_ink_rows_first(a: Seq<Line>)
    requires
        a.len() >= 1,
    ensures
        ink_rows(a) == ink(a[0].cells@) + ink_rows(a.drop_first()),
    decreases a.len(),
{
    if a.len() == 1 {
        assert(a.drop_last().len() == 0);
        assert(a.drop_first().len() == 0);
        assert(ink_rows(a.drop_last()) == Seq::<char>::empty());
        assert(ink_rows(a.drop_first()) == Seq::<char>::empty());
        assert(a.last() == a[0]);
        assert(ink_rows(a) =~= ink(a[0].cells@) + ink_rows(a.drop_first()));
    } else {
        lemma_ink_rows_first(a.drop_last());
        assert(a.drop_last().drop_first() == a.drop_first().drop_last());
        assert(a.drop_first().last() == a.last());
        assert(ink_rows(a) =~= ink(a[0].cells@) + ink_rows(a.drop_first()));
    }
}

/// The logical lines of rows that follow `p` are those `p` closes, then
/// those of the rest from where `p` leaves off.
proof fn lemma_inks_prefix(p: Seq<Line>, x: Seq<Line>, cur: Seq<char>, open: bool)
    ensures
        line_inks(p + x, cur, open)
            == inks_after(p, cur, open).0 + line_inks(x, inks_after(p, cur, open).1, inks_after(p, cur, open).2),
    decreases p.len(),
{
    if p.len() == 0 {
        assert(p + x =~= x);
        assert(Seq::<Seq<char>>::empty() + line_inks(x, cur, open) =~= line_inks(x, cur, open));
    } else {
        assert((p + x)[0] == p[0]);
        assert((p + x).drop_first() =~= p.drop_first() + x);
        if p[0].wrapped {
            lemma_inks_prefix(p.drop_first(), x, cur + ink(p[0].cells@), true);
        } else {
            lemma_inks_prefix(p.drop_first(), x, Seq::empty(), false);
            let r = inks_after(p.drop_first(), Seq::empty(), false);
            assert(seq![cur + ink(p[0].cells@)] + (r.0 + line_inks(x, r.1, r.2))
                =~= seq![cur + ink(p[0].cells@)] + r.0 + line_inks(x, r.1, r.2));
        }
    }
}

/// A run of rows joined up to its last one reads as one piece of a logical
/// line: its ink continues the open one, which it closes when its last row
/// does not continue.
proof fn lemma_inks_block(a: Seq<Line>, x: Seq<Line>, cur: Seq<char>, open: bool)
    requires
        wrapped_but_last(a),
    ensures
        line_inks(a + x, cur, open) == if a.last().wrapped {
            line_inks(x, cur + ink_rows(a), true)
        } else {
            seq![cur + ink_rows(a)] + line_inks(x, Seq::empty(), false)
        },
    decreases a.len(),
{
    lemma_ink_rows_first(a);
    assert((a + x)[0] == a[0]);
    assert((a + x).drop_first() =~= a.drop_first() + x);
    if a.len() == 1 {
        assert(a.drop_first().len() == 0);
        assert(ink_rows(a.drop_first()) == Seq::<char>::empty());
        assert(ink(a[0].cells@) + ink_rows(a.drop_first()) =~= ink(a[0].cells@));
        assert(a.drop_first() + x =~= x);
        assert(a.last() == a[0]);
    } else {
        let a1 = a.drop_first();
        assert forall|i: int| 0 <= i < a1.len() - 1 implies (#[trigger] a1[i]).wrapped by {
            assert(a1[i] == a[i + 1]);
        }
        assert(a[0].wrapped);
        lemma_inks_block(a1, x, cur + ink(a[0].cells@), true);
        assert(a1.last() == a.last());
        assert(cur + ink(a[0].cells@) + ink_rows(a1) =~= cur + ink_rows(a));
    }
}

/// Runs of rows standing for the same piece of a logical line can take
/// each other's place.
proof fn lemma_same_block(a: Seq<Line>, b: Seq<Line>, p: Seq<Line>, x: Seq<Line>)
    requires
        same_block(a, b),
    ensures
        line_inks(p + a + x, Seq::empty(), false) == line_inks(p + b + x, Seq::empty(), false),
{
    assert(p + a + x =~= p + (a + x));
    assert(p + b + x =~= p + (b + x));
    lemma_inks_prefix(p, a + x, Seq::empty(), false);
    lemma_inks_prefix(p, b + x, Seq::empty(), false);
    let r = inks_after(p, Seq::empty(), false);
    lemma_inks_block(a, x, r.1, r.2);
    lemma_inks_block(b, x, r.1, r.2);
}

/// At the end, a last row reads the same whether or not it continues.
proof fn lemma_last_row(a: Line, b: Line, p: Seq<Line>)
    requires
        ink(a.cells@) == ink(b.cells@),
    ensures
        line_inks(p + seq![a], Seq::empty(), false) == line_inks(p + seq![b], Seq::empty(), false),
{
    lemma_inks_prefix(p, seq![a], Seq::empty(), false);
    lemma_inks_prefix(p, seq![b], Seq::empty(), false);
    let r = inks_after(p, Seq::empty(), false);
    assert(line_inks(seq![a], r.1, r.2) =~= seq![r.1 + ink(a.cells@)]) by {
        let e = Seq::<Line>::empty();
        assert(seq![a].drop_first() == e);
        assert(line_inks(e, r.1 + ink(a.cells@), true) == seq![r.1 + ink(a.cells@)]);
        assert(line_inks(e, Seq::empty(), false) == Seq::<Seq<char>>::empty());
    }
    assert(line_inks(seq![b], r.1, r.2) =~= seq![r.1 + ink(b.cells@)]) by {
        let e = Seq::<Line>::empty();
        assert(seq![b].drop_first() == e);
        assert(line_inks(e, r.1 + ink(b.cells@), true) == seq![r.1 + ink(b.cells@)]);
        assert(line_inks(e, Seq::empty(), false) == Seq::<Seq<char>>::empty());
    }
}

/// The rows `ls` as their views.
pub open spec fn row_views(ls: Seq<Line>) -> Seq<(Seq<Cell>, bool)> {
    ls.map_values(|l: Line| row_view(l))
}

/// A measure of a row left over: its length, plus one.
pub open spec fn rest_len(r: Option<(Seq<Cell>, bool)>) -> nat {
    match r {
        Some(v) => v.0.len() + 1,
        None => 0,
    }
}

/// The row that `contract` cuts off is shorter than the row it cuts.
pub proof fn lemma_contract_shorter(s0: Seq<Cell>, w: bool, len: int)
    requires
        len >= 2,
        s0.len() > len,
    ensures
        spec_contract(s0, w, len).1 matches Some(v) ==> v.0.len() < s0.len(),
{
    reveal(spec_contract);
    lemma_trailers_bound(s0);
    let keep = if len > s0.len() - trailers(s0) { len } else { s0.len() - trailers(s0) };
    let s1 = if !w && keep < s0.len() { s0.subrange(0, keep) } else { s0 };
    if s1.len() > len {
        let cut = s1[len].occupancy == Occupancy::WideTail;
        let k = if cut { len - 1 } else { len };
        lemma_trailers_bound(s1.subrange(k, s1.len() as int));
    }
}

/// The rows that rewrapping to `cols` columns gives, from a row `rest` left
/// over (if any) followed by the rows `todo`: a row longer than `cols` is
/// cut (`spec_contract`) and what is cut off comes next; a row as long
/// is kept; a shorter one is filled from the next row (`spec_extend`),
/// and, when it is the last, with blanks, ending its logical line.
#[verifier::opaque]
pub open spec fn reflow_rows(rest: Option<(Seq<Cell>, bool)>, todo: Seq<(Seq<Cell>, bool)>, cols: int)
    -> Seq<(Seq<Cell>, bool)>
    decreases todo.len(), rest_len(rest),
{
    if cols < 2 || (rest is None && todo.len() == 0) {
        Seq::empty()
    } else {
        let line = match rest { Some(l) => l, None => todo[0] };
        let todo1 = if rest is Some { todo } else { todo.drop_first() };
        if cols < line.0.len() {
            proof { lemma_contract_shorter(line.0, line.1, cols); }
            let c = spec_contract(line.0, line.1, cols);
            seq![c.0] + reflow_rows(c.1, todo1, cols)
        } else if cols == line.0.len() {
            seq![line] + reflow_rows(None, todo1, cols)
        } else if todo1.len() > 0 {
            let e = spec_extend(line.0, line.1, todo1[0].0, todo1[0].1, cols);
            if e.1 {
                seq![e.0] + reflow_rows(e.2, todo1.drop_first(), cols)
            } else {
                reflow_rows(Some(e.0), todo1.drop_first(), cols)
            }
        } else {
            seq![(line.0 + blank_cells((cols - line.0.len()) as nat, Pen::spec_default()), false)]
        }
    }
}

/// The rows that rewrapping to `cols` columns gives once the row `line` is
/// taken, the rows `todo1` following it.
pub open spec fn reflow_after(line: (Seq<Cell>, bool), todo1: Seq<(Seq<Cell>, bool)>, cols: int)
    -> Seq<(Seq<Cell>, bool)> {
    if cols < line.0.len() {
        let c = spec_contract(line.0, line.1, cols);
        seq![c.0] + reflow_rows(c.1, todo1, cols)
    } else if cols == line.0.len() {
        seq![line] + reflow_rows(None, todo1, cols)
    } else if todo1.len() > 0 {
        let e = spec_extend(line.0, line.1, todo1[0].0, todo1[0].1, cols);
        if e.1 {
            seq![e.0] + reflow_rows(e.2, todo1.drop_first(), cols)
        } else {
            reflow_rows(Some(e.0), todo1.drop_first(), cols)
        }
    } else {
        seq![(line.0 + blank_cells((cols - line.0.len()) as nat, Pen::spec_default()), false)]
    }
}

/// Rewrapping the rows `lines` to `cols` columns, as `reflow` does.
pub open spec fn reflowed_rows(lines: Seq<Line>, cols: int) -> Seq<(Seq<Cell>, bool)> {
    reflow_rows(None, row_views(lines), cols)
}

/// Nothing left, no rows come.
proof fn lemma_reflow_done(cols: int)
    ensures
        reflow_rows(None, Seq::empty(), cols) == Seq::<(Seq<Cell>, bool)>::empty(),
{
    reveal(reflow_rows);
}

/// Taking the next row: the one left over, else the top of the stack.
proof fn lemma_reflow_take(rest0: Option<Line>, rev0: Seq<Line>, line0: Line, rev1: Seq<Line>, cols: int)
    requires
        cols >= 2,
        rest0 matches Some(l) ==> line0 == l && rev1 == rev0,
        rest0 is None ==> rev0.len() > 0 && line0 == rev0.last() && rev1 == rev0.drop_last(),
    ensures
        reflow_rows(opt_view(rest0), row_views(unstack(rev0)), cols)
            == reflow_after(row_view(line0), row_views(unstack(rev1)), cols),
{
    reveal(reflow_rows);
    if rest0 is None {
        assert(unstack(rev0) == seq![rev0.last()] + unstack(rev0.drop_last()));
        assert(row_views(unstack(rev0))[0] == row_view(line0));
        assert(row_views(unstack(rev0)).drop_first() =~= row_views(unstack(rev1)));
    }
}

/// The next row on the stack `rev1` and the stack below it.
proof fn lemma_unstack_next(rev1: Seq<Line>)
    requires
        rev1.len() > 0,
    ensures
        row_views(unstack(rev1)).len() > 0,
        row_views(unstack(rev1))[0] == row_view(rev1.last()),
        row_views(unstack(rev1)).drop_first() == row_views(unstack(rev1.drop_last())),
{
    assert(unstack(rev1) == seq![rev1.last()] + unstack(rev1.drop_last()));
    assert(row_views(unstack(rev1)).drop_first() =~= row_views(unstack(rev1.drop_last())));
}

/// Pushing a row on the output moves it from the rows still to come.
proof fn lemma_push_rows(out: Seq<Line>, x: Line, more: Seq<(Seq<Cell>, bool)>)
    ensures
        row_views(out.push(x)) + more == row_views(out) + (seq![row_view(x)] + more),
{
    assert(row_views(out.push(x)) =~= row_views(out).push(row_view(x)));
    assert(row_views(out).push(row_view(x)) + more =~= row_views(out) + (seq![row_view(x)] + more));
}

/// Rows kept as a stack, the last one on top, in the order they come off.
pub open spec fn unstack(ls: Seq<Line>) -> Seq<Line>
    decreases ls.len(),
{
    if ls.len() == 0 {
        Seq::empty()
    } else {
        seq![ls.last()] + unstack(ls.drop_last())
    }
}

/// The row in `r`, if any.
pub open spec fn opt_line(r: Option<Line>) -> Seq<Line> {
    match r {
        Some(l) => seq![l],
        None => Seq::empty(),
    }
}

/// The ink of one row, and of two.
proof fn lemma_ink_rows_small(x: Line, y: Line)
    ensures
        ink_rows(seq![x]) == ink(x.cells@),
        ink_rows(seq![x, y]) == ink(x.cells@) + ink(y.cells@),
{
    let e = Seq::<Line>::empty();
    assert(seq![x].drop_last() == e);
    assert(ink_rows(e) == Seq::<char>::empty());
    assert(ink_rows(seq![x]) =~= ink(x.cells@));
    assert(seq![x, y].drop_last() == seq![x]);
}

/// Cutting a row with `contract` keeps the logical lines of the rows.
proof fn lemma_contract_step(out: Seq<Line>, line: Line, new_line: Line, rest: Option<Line>, tail: Seq<Line>)
    requires
        rest matches Some(r) ==> new_line.wrapped && r.wrapped == line.wrapped,
        rest is None ==> new_line.wrapped == line.wrapped,
        ink(new_line.cells@) + ink_of(rest) == ink(line.cells@),
    ensures
        line_inks(out.push(new_line) + opt_line(rest) + tail, Seq::empty(), false)
            == line_inks(out + seq![line] + tail, Seq::empty(), false),
{
    let b = seq![new_line] + opt_line(rest);
    assert(out.push(new_line) + opt_line(rest) + tail =~= out + b + tail);
    match rest {
        Some(r) => {
            lemma_ink_rows_small(new_line, r);
            assert(b =~= seq![new_line, r]);
        },
        None => {
            lemma_ink_rows_small(new_line, new_line);
            assert(b =~= seq![new_line]);
            assert(ink(new_line.cells@) + ink_of(rest) =~= ink(new_line.cells@));
        },
    }
    lemma_ink_rows_small(line, line);
    assert(same_block(seq![line], b));
    lemma_same_block(seq![line], b, out, tail);
}

/// Joining a row with the next with `extend` keeps the logical lines of
/// the rows.
proof fn lemma_extend_step(out: Seq<Line>, line: Line, next: Line, new_line: Line, r: (bool, Option<Line>), tail: Seq<Line>)
    requires
        !line.wrapped ==> !new_line.wrapped && r == (true, Some(next)),
        line.wrapped ==> {
            &&& (r.0 && r.1 is Some) ==> new_line.wrapped && r.1->0.wrapped == next.wrapped
            &&& (r.0 && r.1 is None) ==> !new_line.wrapped && !next.wrapped
            &&& !r.0 ==> new_line.wrapped && next.wrapped && r.1 is None
        },
        ink(new_line.cells@) + ink_of(r.1) == ink(line.cells@) + ink(next.cells@),
    ensures
        line_inks(if r.0 { out.push(new_line) + opt_line(r.1) + tail } else { out + opt_line(Some(new_line)) + tail },
            Seq::empty(), false) == line_inks(out + seq![line, next] + tail, Seq::empty(), false),
{
    lemma_ink_rows_small(line, next);
    if !line.wrapped {
        lemma_ink_rows_small(new_line, next);
        lemma_ink_rows_small(line, line);
        assert(ink(new_line.cells@) + ink(next.cells@) == ink(line.cells@) + ink(next.cells@));
        assert(ink(new_line.cells@) =~= ink(line.cells@)) by {
            let a = ink(new_line.cells@) + ink(next.cells@);
            assert(ink(new_line.cells@) =~= a.subrange(0, a.len() - ink(next.cells@).len()));
            let b = ink(line.cells@) + ink(next.cells@);
            assert(ink(line.cells@) =~= b.subrange(0, b.len() - ink(next.cells@).len()));
        }
        assert(same_block(seq![line], seq![new_line]));
        assert(out.push(new_line) + opt_line(r.1) + tail =~= out + seq![new_line] + (seq![next] + tail));
        assert(out + seq![line, next] + tail =~= out + seq![line] + (seq![next] + tail));
        lemma_same_block(seq![line], seq![new_line], out, seq![next] + tail);
    } else {
        let a = seq![line, next];
        let b = seq![new_line] + opt_line(r.1);
        if r.0 {
            assert(out.push(new_line) + opt_line(r.1) + tail =~= out + b + tail);
        } else {
            assert(out + opt_line(Some(new_line)) + tail =~= out + b + tail);
        }
        match r.1 {
            Some(x) => {
                lemma_ink_rows_small(new_line, x);
                assert(b =~= seq![new_line, x]);
            },
            None => {
                lemma_ink_rows_small(new_line, new_line);
                assert(b =~= seq![new_line]);
                assert(ink(new_line.cells@) + ink_of(r.1) =~= ink(new_line.cells@));
            },
        }
        assert(same_block(a, b));
        lemma_same_block(a, b, out, tail);
    }
}

/// Rewraps `lines` to `cols` columns: a logical line (rows joined while
/// they wrap) is cut into rows of `cols` cells, a wide character that would
/// be cut in half moving whole to the next row, and the rows of a logical
/// line that end it are filled up with blanks. The characters shown other
/// than spaces stay the same, in the same order, and in the same logical
/// lines.
#[verifier::rlimit(100)]
#[verifier::spinoff_prover]
pub fn reflow(lines: Vec<Line>, cols: usize) -> (out: Vec<Line>)
    requires
        cols >= 2,
        forall|i: int| 0 <= i < lines@.len() ==> (#[trigger] lines@[i]).wf() && lines@[i].cells@.len() >= 1,
    ensures
        forall|i: int| 0 <= i < out@.len() ==> #[trigger] line_ok(out@[i], cols as nat),
        lines@.len() > 0 ==> out@.len() > 0,
        lines@.len() > 0 && !lines@.last().wrapped ==> !out@.last().wrapped,
        ink_rows(out@) == ink_rows(lines@),
        line_inks(out@, Seq::empty(), false) == line_inks(lines@, Seq::empty(), false),
        row_views(out@) == reflowed_rows(lines@, cols as int),
{
    let ghost lay = reflowed_rows(lines@, cols as int);
    let ghost total = ink_rows(lines@);
    let ghost lines0 = lines@;
    let ghost g = line_inks(lines@, Seq::empty(), false);
    let mut lines = lines;
    let ghost n0 = lines@.len();
    let ghost last_ok = lines@.len() > 0 && !lines@.last().wrapped;
    let mut rev: Vec<Line> = Vec::new();
    while lines.len() > 0
        invariant
            forall|i: int| 0 <= i < lines@.len() ==> (#[trigger] lines@[i]).wf() && lines@[i].cells@.len() >= 1,
            last_ok ==> (if rev@.len() == 0 { lines@.len() > 0 && !lines@.last().wrapped } else { !rev@[0].wrapped }),
            forall|i: int| 0 <= i < rev@.len() ==> (#[trigger] rev@[i]).wf() && rev@[i].cells@.len() >= 1,
            lines@.len() + rev@.len() == n0,
            ink_rows(lines@) + ink_stack(rev@) == total,
            lines0 == lines@ + unstack(rev@),
        decreases lines@.len(),
    {
        let ghost before = lines@;
        let ghost rev0 = rev@;
        let l = lines.pop().unwrap();
        assert(l == before[before.len() - 1]);
        rev.push(l);
        proof {
            assert(lines@ == before.drop_last());
            assert(rev@.drop_last() == rev0);
            assert(ink_rows(lines@) + ink_stack(rev@) =~= ink_rows(before) + ink_stack(rev0));
            assert(unstack(rev@) == seq![l] + unstack(rev0));
            assert(lines0 =~= lines@ + unstack(rev@));
        }
    }
    assert(unstack(rev@) =~= lines0);
    let mut out: Vec<Line> = Vec::new();
    let mut rest: Option<Line> = None;
    assert(out@ + opt_line(rest) + unstack(rev@) =~= lines0);
    assert(row_views(out@) + reflow_rows(opt_view(rest), row_views(unstack(rev@)), cols as int) =~= lay);
    loop
        invariant
            cols >= 2,
            forall|i: int| 0 <= i < rev@.len() ==> (#[trigger] rev@[i]).wf() && rev@[i].cells@.len() >= 1,
            rest matches Some(l) ==> l.wf() && l.cells@.len() >= 1,
            forall|i: int| 0 <= i < out@.len() ==> #[trigger] line_ok(out@[i], cols as nat),
            n0 > 0 ==> (out@.len() > 0 || rev@.len() > 0 || rest is Some),
            last_ok ==> (rev@.len() > 0 ==> !rev@[0].wrapped),
            last_ok ==> (rev@.len() == 0 ==> match rest {
                Some(l) => !l.wrapped,
                None => out@.len() > 0 && !out@.last().wrapped,
            }),
            ink_rows(out@) + ink_of(rest) + ink_stack(rev@) == total,
            line_inks(out@ + opt_line(rest) + unstack(rev@), Seq::empty(), false) == g,
            row_views(out@) + reflow_rows(opt_view(rest), row_views(unstack(rev@)), cols as int) == lay,
        ensures
            forall|i: int| 0 <= i < out@.len() ==> #[trigger] line_ok(out@[i], cols as nat),
            n0 > 0 ==> out@.len() > 0,
            last_ok ==> !out@.last().wrapped,
            ink_rows(out@) == total,
            line_inks(out@, Seq::empty(), false) == g,
            row_views(out@) == lay,
        decreases rev@.len(), opt_len(rest),
    {
        let ghost out0 = out@;
        let ghost rev0 = rev@;
        let ghost rest0 = rest;
        let mut line = match rest.take() {
            Some(l) => l,
            None => {
                match rev.pop() {
                    Some(l) => l,
                    None => {
                        assert(ink_rows(out@) + ink_of(rest) + ink_stack(rev@) =~= ink_rows(out@));
                        assert(out@ + opt_line(rest) + unstack(rev@) =~= out@);
                        assert(unstack(rev@).len() == 0);
                        proof { lemma_reflow_done(cols as int); }
                        assert(row_views(unstack(rev@)) =~= Seq::<(Seq<Cell>, bool)>::empty());
                        assert(row_views(out@) + reflow_rows(opt_view(rest), row_views(unstack(rev@)), cols as int)
                            =~= row_views(out@));
                        break;
                    },
                }
            },
        };
        let ghost line0 = line;
        let ghost rev1 = rev@;
        proof { lemma_reflow_take(rest0, rev0, line0, rev1, cols as int); }
        let ghost t1 = row_views(unstack(rev1));
        assert(row_views(out0) + reflow_after(row_view(line0), t1, cols as int) == lay);
        assert(ink_rows(out0) + ink(line0.cells@) + ink_stack(rev1) == total) by {
            if rest0 is None {
                assert(rev1 == rev0.drop_last());
                assert(ink_rows(out0) + ink(line0.cells@) + ink_stack(rev1) =~= ink_rows(out0) + ink_of(rest0) + ink_stack(rev0));
            }
        }
        assert(line_inks(out0 + seq![line0] + unstack(rev1), Seq::empty(), false) == g) by {
            if rest0 is None {
                assert(rev1 == rev0.drop_last());
                assert(unstack(rev0) == seq![line0] + unstack(rev1));
                assert(out0 + opt_line(rest0) + unstack(rev0) =~= out0 + seq![line0] + unstack(rev1));
            } else {
                assert(out0 + opt_line(rest0) + unstack(rev0) =~= out0 + seq![line0] + unstack(rev1));
            }
        }
        if cols < line.cells.len() {
            rest = line.contract(cols);
            proof {
                lemma_contract_step(out0, line0, line, rest, unstack(rev1));
                lemma_push_rows(out0, line, reflow_rows(opt_view(rest), t1, cols as int));
            }
            out.push(line);
            proof {
                assert(out@.drop_last() == out0);
                assert(ink_rows(out@) + ink_of(rest) + ink_stack(rev@) =~= ink_rows(out0) + ink(line0.cells@) + ink_stack(rev1));
            }
        } else if cols == line.cells.len() {
            proof { lemma_push_rows(out0, line, reflow_rows(None, t1, cols as int)); }
            out.push(line);
            proof {
                assert(out@ + opt_line(rest) + unstack(rev@) =~= out0 + seq![line0] + unstack(rev1));
                assert(out@.drop_last() == out0);
                assert(ink_rows(out@) + ink_of(rest) + ink_stack(rev@) =~= ink_rows(out0) + ink(line0.cells@) + ink_stack(rev1));
            }
        } else {
            match rev.pop() {
                Some(next) => {
                    let ghost rev2 = rev@;
                    assert(rev2 == rev1.drop_last() && next == rev1.last());
                    let ghost next0 = next;
                    assert(unstack(rev1) == seq![next0] + unstack(rev2));
                    assert(out0 + seq![line0] + unstack(rev1) =~= out0 + seq![line0, next0] + unstack(rev2));
                    proof { lemma_unstack_next(rev1); }
                    let (done, r) = line.extend(next, cols);
                    proof {
                        lemma_extend_step(out0, line0, next0, line, (done, r), unstack(rev2));
                        let t2 = row_views(unstack(rev2));
                        if done {
                            lemma_push_rows(out0, line, reflow_rows(opt_view(r), t2, cols as int));
                        } else {
                            assert(row_views(out0) + reflow_rows(opt_view(Some(line)), t2, cols as int) == lay);
                        }
                    }
                    if done {
                        rest = r;
                        out.push(line);
                        proof {
                            assert(out@.drop_last() == out0);
                            assert(ink_stack(rev1) == ink(next0.cells@) + ink_stack(rev2));
                            assert(ink_rows(out@) == ink_rows(out0) + ink(line.cells@));
                            assert(ink(line.cells@) + ink_of(rest) == ink(line0.cells@) + ink(next0.cells@));
                            lemma_regroup(ink_rows(out0), ink(line.cells@), ink_of(rest), ink(line0.cells@),
                                ink(next0.cells@), ink_stack(rev2));
                        }
                    } else {
                        assert(r is None);
                        rest = Some(line);
                        proof {
                            assert(ink_stack(rev1) == ink(next0.cells@) + ink_stack(rev2));
                            assert(ink(line.cells@) == ink(line0.cells@) + ink(next0.cells@));
                            assert(ink_rows(out@) + ink_of(rest) + ink_stack(rev@)
                                =~= ink_rows(out0) + ink(line0.cells@) + ink_stack(rev1));
                        }
                    }
                },
                None => {
                    let ghost c0 = line.cells@;
                    line.expand(cols, &Pen::new());
                    line.wrapped = false;
                    out.push(line);
                    proof {
                        lemma_ink_concat(c0, blank_cells((cols - c0.len()) as nat, Pen::spec_default()));
                        lemma_ink_blanks((cols - c0.len()) as nat, Pen::spec_default());
                        assert(ink(line.cells@) =~= ink(c0));
                        assert(unstack(rev1).len() == 0);
                        lemma_last_row(line0, line, out0);
                        lemma_reflow_done(cols as int);
                        assert(row_views(unstack(rev@)) =~= Seq::<(Seq<Cell>, bool)>::empty());
                        assert(reflow_rows(None, row_views(unstack(rev@)), cols as int) == Seq::<(Seq<Cell>, bool)>::empty());
                        assert(row_view(line) == (line0.cells@ + blank_cells((cols - line0.cells@.len()) as nat, Pen::spec_default()), false));
                        lemma_push_rows(out0, line, Seq::empty());
                        assert(seq![row_view(line)] + Seq::<(Seq<Cell>, bool)>::empty() =~= seq![row_view(line)]);
                        assert(out0 + seq![line0] + unstack(rev1) =~= out0 + seq![line0]);
                        assert(out@ + opt_line(rest) + unstack(rev@) =~= out0 + seq![line]);
                        assert(out@.drop_last() == out0);
                        assert(ink_rows(out@) + ink_of(rest) + ink_stack(rev@)
                            =~= ink_rows(out0) + ink(line0.cells@) + ink_stack(rev1));
                    }
                },
            }
        }
    }
    out
}

} // verus!