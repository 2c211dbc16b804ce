use crate::cell::{Cell, Occupancy};
use crate::pen::Pen;
use crate::text::string_from_chars;
use crate::width::{char_width, unicode_width};
use std::ops::Range;
use vstd::prelude::*;

verus! {

/// How many columns a printed character takes.
#[derive(Debug, Copy, Clone, PartialEq, Eq, Structural)]
pub enum CharWidth {
    Single,
    Double,
}

impl CharWidth {
    pub fn as_usize(self) -> (n: usize)
        ensures
            n == (if self == CharWidth::Single { 1usize } else { 2usize }),
    {
        match self {
            CharWidth::Single => 1,
            CharWidth::Double => 2,
        }
    }
}

/// Whether `ch` takes two columns: it is beyond `~` and its Unicode width is 2.
pub open spec fn is_wide(ch: char) -> bool {
    (ch as u32) > 0x7e && unicode_width(ch) == Some(2usize)
}

/// One row of cells, and whether it continues on the next row.
#[derive(Debug)]
pub struct Line {
    pub cells: Vec<Cell>,
    pub wrapped: bool,
}

/// The cell at `i` fits the wide characters around it: a tail follows a
/// head, and a head is followed by a tail.
pub open spec fn cell_ok(s: Seq<Cell>, i: int) -> bool {
    &&& (s[i].occupancy == Occupancy::WideTail ==> i > 0 && s[i - 1].occupancy == Occupancy::WideHead)
    &&& (s[i].occupancy == Occupancy::WideHead ==> i + 1 < s.len() && s[i + 1].occupancy == Occupancy::WideTail)
}

/// Every wide character takes a head cell followed by a tail cell.
pub open spec fn wide_ok(s: Seq<Cell>) -> bool {
    forall|i: int| 0 <= i < s.len() ==> #[trigger] cell_ok(s, i)
}

pub open spec fn blank_cells(n: nat, pen: Pen) -> Seq<Cell> {
    Seq::new(n, |i: int| Cell::spec_blank(pen))
}

/// The characters a row shows: those of its cells, tails skipped.
pub open spec fn visible_chars(s: Seq<Cell>) -> Seq<char>
    decreases s.len(),
{
    if s.len() == 0 {
        Seq::empty()
    } else if s.last().occupancy == Occupancy::WideTail {
        visible_chars(s.drop_last())
    } else {
        visible_chars(s.drop_last()).push(s.last().ch)
    }
}

/// The characters a row shows other than spaces, in order.
pub open spec fn ink(s: Seq<Cell>) -> Seq<char>
    decreases s.len(),
{
    if s.len() == 0 {
        Seq::empty()
    } else if s.last().occupancy == Occupancy::WideTail || s.last().ch == ' ' {
        ink(s.drop_last())
    } else {
        ink(s.drop_last()).push(s.last().ch)
    }
}

/// The ink of a row, if there is one.
pub open spec fn ink_of(r: Option<Line>) -> Seq<char> {
    match r {
        Some(l) => ink(l.cells@),
        None => Seq::empty(),
    }
}

/// The ink of cells side by side is the ink of each, in order.
pub proof fn lemma_ink_concat(a: Seq<Cell>, b: Seq<Cell>)
    ensures
        ink(a + b) == ink(a) + ink(b),
    decreases b.len(),
{
    if b.len() == 0 {
        assert(a + b =~= a);
    } else {
        lemma_ink_concat(a, b.drop_last());
        assert((a + b).drop_last() =~= a + b.drop_last());
        assert((a + b).last() == b.last());
    }
}

/// Cells that are all spaces carry no ink.
pub proof fn lemma_ink_spaces(s: Seq<Cell>)
    requires
        forall|i: int| 0 <= i < s.len() ==> (#[trigger] s[i]).ch == ' ',
    ensures
        ink(s) == Seq::<char>::empty(),
    decreases s.len(),
{
    if s.len() > 0 {
        lemma_ink_spaces(s.drop_last());
    }
}

/// Cutting cells in two splits their ink.
pub proof fn lemma_ink_split(s: Seq<Cell>, k: int)
    requires
        0 <= k <= s.len(),
    ensures
        ink(s) == ink(s.subrange(0, k)) + ink(s.subrange(k, s.len() as int)),
{
    lemma_ink_concat(s.subrange(0, k), s.subrange(k, s.len() as int));
    assert(s.subrange(0, k) + s.subrange(k, s.len() as int) =~= s);
}

/// Blanks carry no ink.
pub proof fn lemma_ink_blanks(n: nat, pen: Pen)
    ensures
        ink(blank_cells(n, pen)) == Seq::<char>::empty(),
{
    lemma_ink_spaces(blank_cells(n, pen));
}

/// Dropping cells from the end, down to at most the default cells there,
/// keeps the ink.
pub proof fn lemma_ink_trimmed_to(s: Seq<Cell>, k: int)
    requires
        s.len() - trailers(s) <= k <= s.len(),
    ensures
        ink(s.subrange(0, k)) == ink(s),
{
    lemma_trailers_bound(s);
    lemma_ink_split(s, k);
    let tail = s.subrange(k, s.len() as int);
    assert forall|i: int| 0 <= i < tail.len() implies (#[trigger] tail[i]).ch == ' ' by {
        assert(tail[i] == s[k + i]);
        assert(s[k + i].spec_is_default());
    }
    lemma_ink_spaces(tail);
    assert(ink(s.subrange(0, k)) + Seq::<char>::empty() =~= ink(s.subrange(0, k)));
}

/// Dropping the default cells at the end keeps the ink.
pub proof fn lemma_ink_trimmed(s: Seq<Cell>)
    ensures
        ink(trimmed(s)) == ink(s),
{
    lemma_trailers_bound(s);
    lemma_ink_trimmed_to(s, s.len() - trailers(s));
}

/// The cells a row shows: its cells, tails skipped.
pub open spec fn visible_cells(s: Seq<Cell>) -> Seq<Cell>
    decreases s.len(),
{
    if s.len() == 0 {
        Seq::empty()
    } else if s.last().occupancy == Occupancy::WideTail {
        visible_cells(s.drop_last())
    } else {
        visible_cells(s.drop_last()).push(s.last())
    }
}

/// `predicate` held that the cells at `k - 1` and `k` of `s` stay in one
/// group.
pub open spec fn kept_together<F: Fn(&Cell, &Cell) -> bool>(predicate: F, s: Seq<Cell>, k: int) -> bool {
    predicate.ensures((&s[k - 1], &s[k]), false)
}

/// `predicate` held that group `g` of `gs` starts apart from the one
/// before it.
pub open spec fn split_before<F: Fn(&Cell, &Cell) -> bool>(predicate: F, gs: Seq<Vec<Cell>>, g: int) -> bool {
    predicate.ensures((&gs[g - 1]@.last(), &gs[g]@[0]), true)
}

/// The cells of the groups `gs`, in order.
pub open spec fn joined_cells(gs: Seq<Vec<Cell>>) -> Seq<Cell>
    decreases gs.len(),
{
    if gs.len() == 0 {
        Seq::empty()
    } else {
        joined_cells(gs.drop_last()) + gs.last()@
    }
}

/// The number of default cells at the end of a row.
pub open spec fn trailers(s: Seq<Cell>) -> nat
    decreases s.len(),
{
    if s.len() == 0 {
        0
    } else if s.last().spec_is_default() {
        1 + trailers(s.drop_last())
    } else {
        0
    }
}

/// Clearing the columns `start..end` in `pen`: they become blanks, and the
/// wide characters cut at either end lose their other half too.
pub open spec fn spec_clear(s: Seq<Cell>, start: int, end: int, pen: Pen) -> Seq<Cell> {
    if start == s.len() {
        s
    } else {
        Seq::new(s.len(), |i: int|
            if start <= i < end
                || (i == start - 1 && s[start].occupancy == Occupancy::WideTail)
                || (i == end && s[end].occupancy == Occupancy::WideTail) {
                Cell::spec_blank(pen)
            } else {
                s[i]
            })
    }
}

/// Printing `ch` (wide or not) in `pen` at column `col` of the cells `s`:
/// the new cells, and the columns the cursor advances (`None` when the
/// character does not fit).
pub open spec fn spec_print(s: Seq<Cell>, col: int, wide: bool, ch: char, pen: Pen) -> (Seq<Cell>, Option<usize>) {
    let occ = s[col].occupancy;
    let rem = s.len() - 1 - col;
    let sp = Cell::spec_blank(pen);
    let head = Cell { ch, occupancy: Occupancy::WideHead, pen };
    let tail = Cell { ch: ' ', occupancy: Occupancy::WideTail, pen };
    let single = Cell { ch, occupancy: Occupancy::Single, pen };
    if occ == Occupancy::Single {
        if !wide {
            (s.update(col, single), Some(1usize))
        } else if rem == 0 {
            (s.update(col, sp), None)
        } else if rem == 1 {
            (s.update(col, head).update(col + 1, tail), Some(2usize))
        } else {
            let s1 = s.update(col, head);
            let s2 = if s[col + 1].occupancy == Occupancy::WideHead { s1.update(col + 2, sp) } else { s1 };
            (s2.update(col + 1, tail), Some(2usize))
        }
    } else if occ == Occupancy::WideHead {
        if !wide {
            (s.update(col, single).update(col + 1, sp), Some(1usize))
        } else {
            (s.update(col, head).update(col + 1, tail), Some(2usize))
        }
    } else {
        if !wide {
            (s.update(col - 1, sp).update(col, single), Some(1usize))
        } else if rem == 0 {
            (s, None)
        } else if rem == 1 {
            (s.update(col + 1, sp), None)
        } else {
            let s1 = s.update(col - 1, sp).update(col, head);
            let s2 = if s[col + 1].occupancy == Occupancy::WideHead { s1.update(col + 2, sp) } else { s1 };
            (s2.update(col + 1, tail), Some(2usize))
        }
    }
}

/// The cells `col..` of `s` rotated right by `n`.
pub open spec fn rotate_right(s: Seq<Cell>, col: int, n: int) -> Seq<Cell> {
    Seq::new(s.len(), |i: int|
        if i < col { s[i] } else if i < col + n { s[s.len() - n + (i - col)] } else { s[i - n] })
}

/// Shifting the cells from column `col0` (clamped to the last column) `n`
/// columns right, in `pen`: the cells pushed past the end come back at
/// `col`, and wide characters cut by the shift are blanked.
pub open spec fn spec_shift_right(s: Seq<Cell>, col0: int, n: int, pen: Pen) -> Seq<Cell> {
    let col = if col0 < s.len() - 1 { col0 } else { s.len() - 1 };
    let sp = Cell::spec_blank(pen);
    let s1 = if s[col].occupancy == Occupancy::WideTail { s.update(col, sp).update(col - 1, sp) } else { s };
    let s2 = rotate_right(s1, col, n);
    if s2[col].occupancy == Occupancy::WideTail { s2.update(col, sp).update(s.len() - 1, sp) } else { s2 }
}

/// Inserting `n` copies of the narrow cell `cell` at column `col`: the
/// cells from `col` shift right (see `spec_shift_right`, in the cell's pen)
/// and the copies take their place.
pub open spec fn spec_insert(s: Seq<Cell>, col: int, n: int, cell: Cell) -> Seq<Cell> {
    let t = spec_shift_right(s, col, n, cell.pen);
    Seq::new(t.len(), |i: int| if col <= i < col + n { cell } else { t[i] })
}

/// Deleting `n` cells at column `col`, in `pen`: the cells after them move
/// left, blanks fill the end, and wide characters cut by the deletion are
/// blanked.
pub open spec fn spec_delete(s: Seq<Cell>, col: int, n: int, pen: Pen) -> Seq<Cell> {
    let sp = Cell::spec_blank(pen);
    let s1 = if s[col].occupancy == Occupancy::WideTail { s.update(col - 1, sp) } else { s };
    let t = Seq::new(s.len(), |i: int| if i < col { s1[i] } else if i < s.len() - n { s1[i + n] } else { sp });
    if t[col].occupancy == Occupancy::WideTail { t.update(col, sp) } else { t }
}

/// The cells without the default cells at the end.
pub open spec fn trimmed(s: Seq<Cell>) -> Seq<Cell> {
    s.subrange(0, s.len() - trailers(s))
}

/// A row as its cells and whether it continues on the next.
pub open spec fn row_view(l: Line) -> (Seq<Cell>, bool) {
    (l.cells@, l.wrapped)
}

/// The row in `r`, if any, as its view.
pub open spec fn opt_view(r: Option<Line>) -> Option<(Seq<Cell>, bool)> {
    match r {
        Some(l) => Some(row_view(l)),
        None => None,
    }
}

/// What `contract` makes of the row `(s0, w)` cut to `len` cells: the row
/// it keeps and the cells cut off, if any, as the next row. A row that does
/// not continue first loses its default cells at the end (down to `len`);
/// a wide character cut in half moves whole to the next row, a blank in
/// its pen taking its place.
#[verifier::opaque]
pub open spec fn spec_contract(s0: Seq<Cell>, w: bool, len: int) -> ((Seq<Cell>, bool), Option<(Seq<Cell>, bool)>) {
    let keep = if len > s0.len() - trailers(s0) { len } else { s0.len() - trailers(s0) };
    let s1 = if !w && keep < s0.len() { s0.subrange(0, keep) } else { s0 };
    if s1.len() > len {
        let cut = s1[len].occupancy == Occupancy::WideTail;
        let k = if cut { len - 1 } else { len };
        let pad = if cut { seq![Cell::spec_blank(s1[k - 1].pen)] } else { Seq::<Cell>::empty() };
        let rest0 = s1.subrange(k, s1.len() as int);
        let rest = if !w { trimmed(rest0) } else { rest0 };
        if rest.len() == 0 {
            ((s1.subrange(0, k) + pad, w), None)
        } else {
            ((s1.subrange(0, k) + pad, true), Some((rest, w)))
        }
    } else {
        ((s1, w), None)
    }
}

/// What `extend` makes of the row `(s, w)` filled up to `len` cells from
/// the next row `(oc, ow)`: the row, whether it is done, and what is left
/// of the next row, if anything. A row that does not continue is filled
/// with blanks; otherwise cells move up from the next row (without its
/// default cells at the end when it does not continue), a wide character
/// that would be cut in half staying behind with a blank in the last
/// cell's pen put before the moved cells.
#[verifier::opaque]
pub open spec fn spec_extend(s: Seq<Cell>, w: bool, oc: Seq<Cell>, ow: bool, len: int)
    -> ((Seq<Cell>, bool), bool, Option<(Seq<Cell>, bool)>) {
    let n = len - s.len();
    let o = if ow { oc } else { trimmed(oc) };
    if n == 0 {
        ((s, w), true, Some((oc, ow)))
    } else if !w {
        ((s + blank_cells(n as nat, Pen::spec_default()), false), true, Some((oc, ow)))
    } else if n < o.len() {
        let cut = o[n].occupancy == Occupancy::WideTail;
        let k = if cut { n - 1 } else { n };
        let pad = if cut { seq![Cell::spec_blank(s.last().pen)] } else { Seq::<Cell>::empty() };
        ((s + pad + o.subrange(0, k), true), true, Some((o.subrange(k, o.len() as int), ow)))
    } else if !ow {
        ((s + o + blank_cells((len - s.len() - o.len()) as nat, Pen::spec_default()), false), true, None)
    } else {
        ((s + o, true), false, None)
    }
}

/// The cells of `other` that `extend` takes from: all of them when it
/// continues on the next row, else without its default cells at the end.
pub open spec fn source_cells(other: Line) -> Seq<Cell> {
    if other.wrapped { other.cells@ } else { trimmed(other.cells@) }
}

impl Clone for Line {
    fn clone(&self) -> (l: Self)
        ensures
            l.cells@ == self.cells@,
            l.wrapped == self.wrapped,
    {
        let mut cells: Vec<Cell> = Vec::new();
        let mut i: usize = 0;
        while i < self.cells.len()
            invariant
                i <= self.cells@.len(),
                cells@ == self.cells@.take(i as int),
            decreases self.cells@.len() - i,
        {
            cells.push(self.cells[i]);
            i += 1;
            assert(cells@ =~= self.cells@.take(i as int));
        }
        assert(self.cells@.take(i as int) =~= self.cells@);
        Line { cells, wrapped: self.wrapped }
    }
}

impl Line {
    pub open spec fn wf(&self) -> bool {
        wide_ok(self.cells@)
    }

    /// `cols` blanks in `pen`, not wrapped.
    pub fn blank(cols: usize, pen: Pen) -> (l: Self)
        ensures
            l.cells@ == blank_cells(cols as nat, pen),
            !l.wrapped,
            l.wf(),
    {
        let mut cells: Vec<Cell> = Vec::new();
        let mut i: usize = 0;
        while i < cols
            invariant
                i <= cols,
                cells@ == blank_cells(i as nat, pen),
            decreases cols - i,
        {
            cells.push(Cell::blank(pen));
            i += 1;
            assert(cells@ =~= blank_cells(i as nat, pen));
        }
        Line { cells, wrapped: false }
    }

    /// Makes the line `cols` blanks in `pen`, not wrapped.
    pub fn reset(&mut self, cols: usize, pen: Pen)
        ensures
            final(self).cells@ == blank_cells(cols as nat, pen),
            !final(self).wrapped,
            final(self).wf(),
    {
        *self = Line::blank(cols, pen);
    }

    /// Clears the columns of `range` to blanks in `pen`; a wide character
    /// cut at either end is cleared whole.
    pub fn clear(&mut self, range: Range<usize>, pen: &Pen)
        requires
            range.start <= range.end <= old(self).cells@.len(),
            old(self).wf(),
        ensures
            final(self).cells@ == spec_clear(old(self).cells@, range.start as int, range.end as int, *pen),
            final(self).cells@.len() == old(self).cells@.len(),
            final(self).wrapped == old(self).wrapped,
            final(self).wf(),
    {
        let start = range.start;
        let end = range.end;
        if start == self.cells.len() {
            return;
        }
        let ghost s = self.cells@;
        assert(cell_ok(s, start as int));
        if self.cells[start].occupancy == Occupancy::WideTail {
            self.cells.set(start - 1, Cell::blank(*pen));
        }
        let mut i = start;
        while i < end
            invariant
                start <= i <= end <= self.cells@.len(),
                self.cells@.len() == s.len(),
                self.wrapped == old(self).wrapped,
                start < s.len(),
                forall|k: int| 0 <= k < s.len() ==> #[trigger] self.cells@[k] == (
                    if start <= k < i || (k == start - 1 && s[start as int].occupancy == Occupancy::WideTail) {
                        Cell::spec_blank(*pen)
                    } else {
                        s[k]
                    }),
            decreases end - i,
        {
            self.cells.set(i, Cell::blank(*pen));
            i += 1;
        }
        if end < self.cells.len() && self.cells[end].occupancy == Occupancy::WideTail {
            self.cells.set(end, Cell::blank(*pen));
        }
        assert(self.cells@ =~= spec_clear(s, start as int, end as int, *pen));
        proof { lemma_clear_ok(s, start as int, end as int, *pen); }
    }

    fn is_char_wide(ch: char) -> (b: bool)
        ensures
            b == is_wide(ch),
    {
        if ch <= '\u{7e}' {
            false
        } else {
            match char_width(ch) {
                Some(w) => w == 2,
                None => false,
            }
        }
    }

    /// Prints `ch` in `pen` at column `col`. Returns the number of columns
    /// it takes, or `None` when a wide character does not fit at the end.
    pub fn print(&mut self, col: usize, ch: char, pen: Pen) -> (r: Option<usize>)
        requires
            col < old(self).cells@.len(),
            old(self).wf(),
        ensures
            (final(self).cells@, r) == spec_print(old(self).cells@, col as int, is_wide(ch), ch, pen),
            final(self).cells@.len() == old(self).cells@.len(),
            final(self).wrapped == old(self).wrapped,
            final(self).wf(),
    {
        let ghost s = self.cells@;
        assert(cell_ok(s, col as int));
        if col < self.cells.len() - 1 {
            assert(cell_ok(s, col + 1));
        }
        let occ = self.cells[col].occupancy;
        let wide = Line::is_char_wide(ch);
        let len = self.cells.len();
        let rem = len - 1 - col;
        let sp = Cell::blank(pen);
        let head = Cell::new(ch, Occupancy::WideHead, pen);
        let tail = Cell::new(' ', Occupancy::WideTail, pen);
        let single = Cell::new(ch, Occupancy::Single, pen);
        let r = match occ {
            Occupancy::Single => {
                if !wide {
                    self.cells.set(col, single);
                    Some(1)
                } else if rem == 0 {
                    self.cells.set(col, sp);
                    None
                } else if rem == 1 {
                    self.cells.set(col, head);
                    self.cells.set(col + 1, tail);
                    Some(2)
                } else {
                    let next_is_head = self.cells[col + 1].occupancy == Occupancy::WideHead;
                    self.cells.set(col, head);
                    if next_is_head {
                        self.cells.set(col + 2, sp);
                    }
                    self.cells.set(col + 1, tail);
                    Some(2)
                }
            },
            Occupancy::WideHead => {
                if !wide {
                    self.cells.set(col, single);
                    self.cells.set(col + 1, sp);
                    Some(1)
                } else {
                    self.cells.set(col, head);
                    self.cells.set(col + 1, tail);
                    Some(2)
                }
            },
            Occupancy::WideTail => {
                if !wide {
                    self.cells.set(col - 1, sp);
                    self.cells.set(col, single);
                    Some(1)
                } else if rem == 0 {
                    None
                } else if rem == 1 {
                    self.cells.set(col + 1, sp);
                    None
                } else {
                    let next_is_head = self.cells[col + 1].occupancy == Occupancy::WideHead;
                    self.cells.set(col - 1, sp);
                    self.cells.set(col, head);
                    if next_is_head {
                        self.cells.set(col + 2, sp);
                    }
                    self.cells.set(col + 1, tail);
                    Some(2)
                }
            },
        };
        assert(self.cells@ =~= spec_print(s, col as int, wide, ch, pen).0);
        proof {
            let t = self.cells@;
            let n = s.len() as int;
            assert forall|k: int| 0 <= k < n && col - 2 <= k <= col + 3 implies #[trigger] cell_ok(t, k) by {
                assert(cell_ok(s, k));
                if k > 0 {
                    assert(cell_ok(s, k - 1));
                }
                if k + 1 < n {
                    assert(cell_ok(s, k + 1));
                }
            }
            lemma_ok_from(s, t, col - 1, col + 2);
        }
        r
    }

    pub fn len(&self) -> (n: usize)
        ensures
            n == self.cells@.len(),
    {
        self.cells.len()
    }

    pub fn is_empty(&self) -> (b: bool)
        ensures
            b == (self.cells@.len() == 0),
    {
        self.cells.len() == 0
    }

    pub fn cells(&self) -> (s: &[Cell])
        ensures
            s@ == self.cells@,
    {
        self.cells.as_slice()
    }

    /// The cells the line shows (tails skipped), in groups: a new group
    /// starts wherever `predicate` holds of a cell and the one before it.
    pub fn chunks<F: Fn(&Cell, &Cell) -> bool>(&self, predicate: F) -> (groups: Vec<Vec<Cell>>)
        requires
            forall|a: Cell, b: Cell| #[trigger] predicate.requires((&a, &b)),
        ensures
            joined_cells(groups@) == visible_cells(self.cells@),
            forall|g: int| 0 <= g < groups@.len() ==> (#[trigger] groups@[g])@.len() > 0,
            forall|g: int, k: int| 0 <= g < groups@.len() && 0 < k < groups@[g]@.len()
                ==> #[trigger] kept_together(predicate, groups@[g]@, k),
            forall|g: int| 0 < g < groups@.len() ==> #[trigger] split_before(predicate, groups@, g),
    {
        let mut groups: Vec<Vec<Cell>> = Vec::new();
        let mut cur: Vec<Cell> = Vec::new();
        let mut i: usize = 0;
        while i < self.cells.len()
            invariant
                i <= self.cells@.len(),
                forall|a: Cell, b: Cell| #[trigger] predicate.requires((&a, &b)),
                joined_cells(groups@) + cur@ == visible_cells(self.cells@.take(i as int)),
                forall|g: int| 0 <= g < groups@.len() ==> (#[trigger] groups@[g])@.len() > 0,
                groups@.len() > 0 ==> cur@.len() > 0,
                forall|g: int, k: int| 0 <= g < groups@.len() && 0 < k < groups@[g]@.len()
                    ==> #[trigger] kept_together(predicate, groups@[g]@, k),
                forall|k: int| 0 < k < cur@.len() ==> #[trigger] kept_together(predicate, cur@, k),
                forall|g: int| 0 < g < groups@.len() ==> #[trigger] split_before(predicate, groups@, g),
                groups@.len() > 0 ==> predicate.ensures((&groups@.last()@.last(), &cur@[0]), true),
            decreases self.cells@.len() - i,
        {
            let cell = self.cells[i];
            assert(self.cells@.take(i + 1).drop_last() =~= self.cells@.take(i as int));
            assert(self.cells@.take(i + 1).last() == cell);
            if cell.occupancy != Occupancy::WideTail {
                if cur.len() == 0 {
                    cur.push(cell);
                    assert(joined_cells(groups@) + cur@ =~= visible_cells(self.cells@.take(i + 1)));
                } else {
                    let split = predicate(&cur[cur.len() - 1], &cell);
                    if split {
                        let ghost g0 = groups@;
                        let ghost c0 = cur@;
                        let mut done: Vec<Cell> = Vec::new();
                        std::mem::swap(&mut done, &mut cur);
                        groups.push(done);
                        cur.push(cell);
                        assert(groups@.drop_last() =~= g0);
                        assert(joined_cells(groups@) + cur@ =~= visible_cells(self.cells@.take(i + 1)));
                        assert forall|g: int, k: int| 0 <= g < groups@.len() && 0 < k < groups@[g]@.len()
                            implies #[trigger] kept_together(predicate, groups@[g]@, k) by {
                            if g < g0.len() {
                                assert(groups@[g] == g0[g]);
                                assert(kept_together(predicate, g0[g]@, k));
                            } else {
                                assert(groups@[g]@ == c0);
                                assert(kept_together(predicate, c0, k));
                            }
                        }
                        assert forall|g: int| 0 < g < groups@.len() implies #[trigger] split_before(predicate, groups@, g) by {
                            if g < g0.len() {
                                assert(groups@[g] == g0[g]);
                                assert(groups@[g - 1] == g0[g - 1]);
                                assert(split_before(predicate, g0, g));
                            } else {
                                assert(groups@[g - 1] == g0.last());
                                assert(groups@[g]@ == c0);
                            }
                        }
                    } else {
                        let ghost c0 = cur@;
                        cur.push(cell);
                        assert(joined_cells(groups@) + cur@ =~= visible_cells(self.cells@.take(i + 1)));
                        assert forall|k: int| 0 < k < cur@.len() implies #[trigger] kept_together(predicate, cur@, k) by {
                            if k < c0.len() {
                                assert(kept_together(predicate, c0, k));
                            }
                        }
                    }
                }
            }
            i += 1;
        }
        assert(self.cells@.take(i as int) =~= self.cells@);
        if cur.len() > 0 {
            let ghost g0 = groups@;
            let ghost c0 = cur@;
            groups.push(cur);
            assert(groups@.drop_last() =~= g0);
            assert forall|g: int, k: int| 0 <= g < groups@.len() && 0 < k < groups@[g]@.len()
                implies #[trigger] kept_together(predicate, groups@[g]@, k) by {
                if g < g0.len() {
                    assert(groups@[g] == g0[g]);
                    assert(kept_together(predicate, g0[g]@, k));
                } else {
                    assert(groups@[g]@ == c0);
                    assert(kept_together(predicate, c0, k));
                }
            }
            assert forall|g: int| 0 < g < groups@.len() implies #[trigger] split_before(predicate, groups@, g) by {
                if g < g0.len() {
                    assert(groups@[g] == g0[g]);
                    assert(groups@[g - 1] == g0[g - 1]);
                    assert(split_before(predicate, g0, g));
                } else {
                    assert(groups@[g - 1] == g0.last());
                    assert(groups@[g]@ == c0);
                }
            }
        } else {
            assert(joined_cells(groups@) + Seq::<Cell>::empty() =~= joined_cells(groups@));
        }
        groups
    }

    /// The characters the line shows, wide-character tails skipped.
    pub fn chars(&self) -> (v: Vec<char>)
        ensures
            v@ == visible_chars(self.cells@),
    {
        let mut v: Vec<char> = Vec::new();
        let mut i: usize = 0;
        while i < self.cells.len()
            invariant
                i <= self.cells@.len(),
                v@ == visible_chars(self.cells@.subrange(0, i as int)),
            decreases self.cells@.len() - i,
        {
            assert(self.cells@.subrange(0, i + 1).drop_last() =~= self.cells@.subrange(0, i as int));
            if self.cells[i].occupancy != Occupancy::WideTail {
                v.push(self.cells[i].ch);
            }
            i += 1;
        }
        assert(self.cells@.subrange(0, self.cells@.len() as int) =~= self.cells@);
        v
    }

    /// The characters the line shows, as a string.
    pub fn text(&self) -> (s: String)
        ensures
            s@ == visible_chars(self.cells@),
    {
        let v = self.chars();
        string_from_chars(v.as_slice())
    }

    /// The number of default cells at the end.
    pub fn trailers(&self) -> (n: usize)
        ensures
            n == trailers(self.cells@),
    {
        let mut n: usize = 0;
        let len = self.cells.len();
        assert(self.cells@.subrange(0, len as int) =~= self.cells@);
        while n < len && self.cells[len - 1 - n].is_default()
            invariant
                len == self.cells@.len(),
                n <= len,
                trailers(self.cells@) == n + trailers(self.cells@.subrange(0, len - n)),
            decreases len - n,
        {
            let ghost s = self.cells@.subrange(0, len - n);
            assert(s.drop_last() =~= self.cells@.subrange(0, len - n - 1));
            n += 1;
        }
        proof {
            let s = self.cells@.subrange(0, len - n);
            if n < len {
                assert(s.last() == self.cells@[len - 1 - n]);
            }
        }
        n
    }

    /// Drops the default cells at the end.
    pub fn trim(&mut self)
        requires
            old(self).wf(),
        ensures
            final(self).cells@ == old(self).cells@.subrange(0, old(self).cells@.len() - trailers(old(self).cells@)),
            final(self).wrapped == old(self).wrapped,
            final(self).wf(),
    {
        let t = self.trailers();
        proof { lemma_trailers_bound(self.cells@); }
        if t > 0 {
            let len = self.cells.len();
            self.cells.truncate(len - t);
        }
        proof { lemma_trim_wide_ok(old(self).cells@); }
        assert(self.cells@ =~= old(self).cells@.subrange(0, old(self).cells@.len() - trailers(old(self).cells@)));
    }

    /// Whether every cell is default.
    pub fn is_blank(&self) -> (b: bool)
        ensures
            b == (forall|i: int| 0 <= i < self.cells@.len() ==> #[trigger] self.cells@[i].spec_is_default()),
    {
        let mut i: usize = 0;
        while i < self.cells.len()
            invariant
                i <= self.cells@.len(),
                forall|k: int| 0 <= k < i ==> #[trigger] self.cells@[k].spec_is_default(),
            decreases self.cells@.len() - i,
        {
            if !self.cells[i].is_default() {
                return false;
            }
            i += 1;
        }
        true
    }

    /// Appends blanks in `pen` up to `len` cells.
    pub fn expand(&mut self, len: usize, pen: &Pen)
        requires
            len >= old(self).cells@.len(),
            old(self).wf(),
        ensures
            final(self).cells@ == old(self).cells@ + blank_cells((len - old(self).cells@.len()) as nat, *pen),
            final(self).wrapped == old(self).wrapped,
            final(self).wf(),
    {
        let start = self.cells.len();
        while self.cells.len() < len
            invariant
                start == old(self).cells@.len(),
                start <= self.cells@.len() <= len,
                self.cells@ == old(self).cells@ + blank_cells((self.cells@.len() - start) as nat, *pen),
                self.wrapped == old(self).wrapped,
            decreases len - self.cells@.len(),
        {
            self.cells.push(Cell::blank(*pen));
            assert(self.cells@ =~= old(self).cells@ + blank_cells((self.cells@.len() - start) as nat, *pen));
        }
        proof { lemma_append_narrow(old(self).cells@, blank_cells((len - start) as nat, *pen)); }
    }
    /// Shifts the cells from column `col` (clamped to the last column) `n`
    /// columns right; the cells pushed off the end come back at `col`.
    /// Inserts `n` copies of the narrow cell `cell` at column `col`,
    /// shifting the cells from there right (see `spec_insert`).
    pub fn insert(&mut self, col: usize, n: usize, cell: Cell)
        requires
            old(self).wf(),
            col < old(self).cells@.len(),
            n <= old(self).cells@.len() - col,
            cell.occupancy == Occupancy::Single,
        ensures
            final(self).wf(),
            final(self).cells@ == spec_insert(old(self).cells@, col as int, n as int, cell),
            final(self).wrapped == old(self).wrapped,
    {
        proof { lemma_insert_ok(old(self).cells@, col as int, n as int, cell); }
        self.shift_right(col, n, cell.pen);
        let ghost t = self.cells@;
        let mut i: usize = 0;
        while i < n
            invariant
                i <= n,
                col + n <= t.len(),
                t.len() == self.cells.len(),
                self.cells@.len() == t.len(),
                self.wrapped == old(self).wrapped,
                t == spec_shift_right(old(self).cells@, col as int, n as int, cell.pen),
                forall|j: int| 0 <= j < t.len() ==> #[trigger] self.cells@[j]
                    == if col <= j < col + i { cell } else { t[j] },
            decreases n - i,
        {
            self.cells.set(col + i, cell);
            i += 1;
        }
        assert(self.cells@ =~= spec_insert(old(self).cells@, col as int, n as int, cell));
    }

    pub fn shift_right(&mut self, col: usize, n: usize, pen: Pen)
        requires
            old(self).cells@.len() >= 1,
            n <= old(self).cells@.len() - (if col < old(self).cells@.len() - 1 { col as int } else { old(self).cells@.len() - 1 }),
            old(self).wf(),
        ensures
            final(self).cells@ == spec_shift_right(old(self).cells@, col as int, n as int, pen),
            final(self).cells@.len() == old(self).cells@.len(),
            final(self).wrapped == old(self).wrapped,
            final(self).wf(),
    {
        let ghost s = self.cells@;
        let len = self.cells.len();
        let col = if col < len - 1 { col } else { len - 1 };
        let sp = Cell::blank(pen);
        assert(cell_ok(s, col as int));
        if self.cells[col].occupancy == Occupancy::WideTail {
            self.cells.set(col, sp);
            self.cells.set(col - 1, sp);
        }
        let ghost s1 = self.cells@;
        let mut v: Vec<Cell> = Vec::new();
        let mut i: usize = 0;
        while i < col
            invariant
                i <= col < len,
                self.cells@ == s1,
                s1.len() == len,
                v@ == s1.subrange(0, i as int),
            decreases col - i,
        {
            v.push(self.cells[i]);
            i += 1;
            assert(v@ =~= s1.subrange(0, i as int));
        }
        let mut j: usize = 0;
        while j < n
            invariant
                col < len,
                n <= len - col,
                j <= n,
                self.cells@ == s1,
                s1.len() == len,
                v@ == rotate_right(s1, col as int, n as int).subrange(0, col + j),
            decreases n - j,
        {
            v.push(self.cells[len - n + j]);
            j += 1;
            assert(v@ =~= rotate_right(s1, col as int, n as int).subrange(0, col + j));
        }
        let mut k: usize = col;
        while k < len - n
            invariant
                col < len,
                n <= len - col,
                col <= k <= len - n,
                self.cells@ == s1,
                s1.len() == len,
                v@ == rotate_right(s1, col as int, n as int).subrange(0, k + n),
            decreases len - n - k,
        {
            v.push(self.cells[k]);
            k += 1;
            assert(v@ =~= rotate_right(s1, col as int, n as int).subrange(0, k + n));
        }
        assert(v@ =~= rotate_right(s1, col as int, n as int));
        self.cells = v;
        if self.cells[col].occupancy == Occupancy::WideTail {
            self.cells.set(col, sp);
            self.cells.set(len - 1, sp);
        }
        assert(self.cells@ =~= spec_shift_right(s, col as int, n as int, pen));
        proof { lemma_shift_right_ok(s, col as int, n as int, pen); }
    }

    /// Deletes `n` cells at column `col`; the cells after them move left and
    /// blanks in `pen` fill the end.
    pub fn delete(&mut self, col: usize, n: usize, pen: &Pen)
        requires
            col < old(self).cells@.len(),
            n <= old(self).cells@.len() - col,
            old(self).wf(),
        ensures
            final(self).cells@ == spec_delete(old(self).cells@, col as int, n as int, *pen),
            final(self).cells@.len() == old(self).cells@.len(),
            final(self).wrapped == old(self).wrapped,
            final(self).wf(),
    {
        let ghost s = self.cells@;
        let len = self.cells.len();
        let sp = Cell::blank(*pen);
        assert(cell_ok(s, col as int));
        if self.cells[col].occupancy == Occupancy::WideTail {
            self.cells.set(col - 1, sp);
        }
        let ghost s1 = self.cells@;
        let ghost t = Seq::new(len as nat, |i: int| if i < col { s1[i] } else if i < len - n { s1[i + n] } else { sp });
        let mut i: usize = col;
        while i < len - n
            invariant
                col <= len,
                n <= len - col,
                col <= i <= len - n,
                self.cells@.len() == len,
                self.wrapped == old(self).wrapped,
                s1.len() == len,
                t == Seq::new(len as nat, |i: int| if i < col { s1[i] } else if i < len - n { s1[i + n] } else { sp }),
                forall|k: int| 0 <= k < len ==> #[trigger] self.cells@[k] == (if k < i { t[k] } else { s1[k] }),
            decreases len - n - i,
        {
            let c = self.cells[i + n];
            self.cells.set(i, c);
            i += 1;
        }
        let mut j: usize = len - n;
        while j < len
            invariant
                col <= len,
                n <= len - col,
                len - n <= j <= len,
                self.cells@.len() == len,
                self.wrapped == old(self).wrapped,
                s1.len() == len,
                t == Seq::new(len as nat, |i: int| if i < col { s1[i] } else if i < len - n { s1[i + n] } else { sp }),
                forall|k: int| 0 <= k < len ==> #[trigger] self.cells@[k] == (if k < j { t[k] } else { s1[k] }),
            decreases len - j,
        {
            self.cells.set(j, sp);
            j += 1;
        }
        assert(self.cells@ =~= t);
        if self.cells[col].occupancy == Occupancy::WideTail {
            self.cells.set(col, sp);
        }
        assert(self.cells@ =~= spec_delete(s, col as int, n as int, *pen));
        proof { lemma_delete_ok(s, col as int, n as int, *pen); }
    }
    /// Fills the line up to `len` cells from the start of `other`, the row
    /// that follows it. Returns whether the line is complete, and what is
    /// left of `other`.
    pub fn extend(&mut self, other: Line, len: usize) -> (r: (bool, Option<Line>))
        requires
            len >= old(self).cells@.len() >= 1,
            old(self).wf(),
            other.wf(),
        ensures
            final(self).wf(),
            r.1 matches Some(rest) ==> rest.wf(),
            other.cells@.len() >= 1 ==> (r.1 matches Some(rest) ==> rest.cells@.len() >= 1),
            ink(final(self).cells@) + ink_of(r.1) == ink(old(self).cells@) + ink(other.cells@),
            (row_view(*final(self)), r.0, opt_view(r.1))
                == spec_extend(old(self).cells@, old(self).wrapped, other.cells@, other.wrapped, len as int),
            ({
                let s = old(self).cells@;
                let n = len - s.len();
                let o = source_cells(other);
                if n == 0 {
                    &&& *final(self) == *old(self)
                    &&& r == (true, Some(other))
                } else if !old(self).wrapped {
                    &&& final(self).cells@ == s + blank_cells(n as nat, Pen::spec_default())
                    &&& !final(self).wrapped
                    &&& r == (true, Some(other))
                } else if n < o.len() {
                    let cut = o[n].occupancy == Occupancy::WideTail;
                    let k = if cut { n - 1 } else { n };
                    let pad = if cut { seq![Cell::spec_blank(s.last().pen)] } else { Seq::<Cell>::empty() };
                    &&& final(self).cells@ == s + pad + o.subrange(0, k)
                    &&& final(self).wrapped
                    &&& r.0
                    &&& r.1 matches Some(rest) && rest.cells@ == o.subrange(k, o.len() as int)
                        && rest.wrapped == other.wrapped
                } else if !other.wrapped {
                    &&& final(self).cells@ == s + o + blank_cells((len - s.len() - o.len()) as nat, Pen::spec_default())
                    &&& !final(self).wrapped
                    &&& r == (true, None::<Line>)
                } else {
                    &&& final(self).cells@ == s + o
                    &&& final(self).wrapped
                    &&& r == (false, None::<Line>)
                }
            }),
    {
        proof { reveal(spec_extend); }
        let ghost orig = other;
        let mut other = other;
        let needed = len - self.cells.len();
        if needed == 0 {
            return (true, Some(other));
        }
        if !self.wrapped {
            self.expand(len, &Pen::new());
            proof {
                lemma_ink_concat(old(self).cells@, blank_cells((len - old(self).cells@.len()) as nat, Pen::spec_default()));
                lemma_ink_blanks((len - old(self).cells@.len()) as nat, Pen::spec_default());
                assert(ink(self.cells@) =~= ink(old(self).cells@));
            }
            return (true, Some(other));
        }
        if !other.wrapped {
            other.trim();
        }
        let ghost s = self.cells@;
        let ghost o = other.cells@;
        assert(o == source_cells(orig));
        assert(ink(o) == ink(orig.cells@)) by {
            if !orig.wrapped {
                lemma_ink_trimmed(orig.cells@);
            }
        }
        if needed < other.cells.len() {
            assert(cell_ok(o, needed as int));
            let cut = other.cells[needed].occupancy == Occupancy::WideTail;
            let mut k = needed;
            if cut {
                k = needed - 1;
                assert(cell_ok(o, k as int));
                let pen = self.cells[self.cells.len() - 1].pen;
                self.cells.push(Cell::new(' ', Occupancy::Single, pen));
            }
            let ghost mid = self.cells@;
            let mut i: usize = 0;
            while i < k
                invariant
                    k < o.len(),
                    other.cells@ == o,
                    i <= k,
                    self.wrapped,
                    self.cells@ == mid + o.subrange(0, i as int),
                decreases k - i,
            {
                self.cells.push(other.cells[i]);
                i += 1;
                assert(self.cells@ =~= mid + o.subrange(0, i as int));
            }
            let rest_cells = other.cells.split_off(k);
            let rest = Line { cells: rest_cells, wrapped: other.wrapped };
            proof {
                if cut {
                    assert(cell_ok(o, k as int));
                    if k > 0 { assert(cell_ok(o, k - 1)); }
                } else {
                    if k > 0 { assert(cell_ok(o, k - 1)); }
                }
                assert(cell_ok(o, 0));
                lemma_subrange_ok(o, 0, k as int);
                lemma_subrange_ok(o, k as int, o.len() as int);
                if cut {
                    lemma_append_narrow(s, seq![Cell::spec_blank(s.last().pen)]);
                    assert(mid =~= s + seq![Cell::spec_blank(s.last().pen)]);
                } else {
                    assert(mid =~= s);
                }
                lemma_concat_ok(mid, o.subrange(0, k as int));
                let pad = if cut { seq![Cell::spec_blank(s.last().pen)] } else { Seq::<Cell>::empty() };
                assert(self.cells@ =~= s + pad + o.subrange(0, k as int));
                lemma_ink_spaces(pad);
                lemma_ink_concat(s, pad);
                lemma_ink_concat(s + pad, o.subrange(0, k as int));
                lemma_ink_split(o, k as int);
                assert(ink(s + pad) =~= ink(s));
                assert(rest.cells@ =~= o.subrange(k as int, o.len() as int));
                assert(ink(self.cells@) + ink_of(Some(rest)) =~= ink(s) + ink(o));
            }
            return (true, Some(rest));
        }
        let mut i: usize = 0;
        let olen = other.cells.len();
        while i < olen
            invariant
                olen == o.len(),
                other.cells@ == o,
                i <= olen,
                self.wrapped,
                self.cells@ == s + o.subrange(0, i as int),
            decreases olen - i,
        {
            self.cells.push(other.cells[i]);
            i += 1;
            assert(self.cells@ =~= s + o.subrange(0, i as int));
        }
        assert(o.subrange(0, olen as int) =~= o);
        proof {
            lemma_concat_ok(s, o);
            lemma_ink_concat(s, o);
        }
        let ghost so = self.cells@;
        if !other.wrapped {
            self.wrapped = false;
            if self.cells.len() < len {
                self.expand(len, &Pen::new());
            } else {
                assert(blank_cells(0, Pen::spec_default()) =~= Seq::<Cell>::empty());
                assert(self.cells@ + Seq::<Cell>::empty() =~= self.cells@);
            }
            proof {
                let b = self.cells@.subrange(so.len() as int, self.cells@.len() as int);
                assert(self.cells@ =~= so + b);
                lemma_ink_spaces(b);
                lemma_ink_concat(so, b);
                assert(ink(self.cells@) + ink_of(None) =~= ink(s) + ink(o));
            }
            (true, None)
        } else {
            assert(ink(self.cells@) + ink_of(None) =~= ink(s) + ink(o));
            (false, None)
        }
    }

    /// Cuts the line to `len` cells (after dropping default cells at the end
    /// of a line that does not continue) and returns the cells cut off, if
    /// any, as the row that follows it. A wide character cut in half moves
    /// whole to the next row.
    #[verifier::spinoff_prover]
    #[verifier::rlimit(40)]
    pub fn contract(&mut self, len: usize) -> (r: Option<Line>)
        requires
            old(self).wf(),
            !(len == 1 && old(self).cells@.len() > 1 && old(self).cells@[1].occupancy == Occupancy::WideTail),
        ensures
            final(self).wf(),
            r matches Some(rest) ==> rest.wf(),
            r matches Some(rest) ==> 1 <= rest.cells@.len(),
            ink(final(self).cells@) + ink_of(r) == ink(old(self).cells@),
            (row_view(*final(self)), opt_view(r)) == spec_contract(old(self).cells@, old(self).wrapped, len as int),
            len >= 1 ==> (r matches Some(rest) ==> rest.cells@.len() < old(self).cells@.len()),
            ({
                let s0 = old(self).cells@;
                let keep = if len as int > s0.len() - trailers(s0) { len as int } else { s0.len() - trailers(s0) };
                let s1 = if !old(self).wrapped && keep < s0.len() { s0.subrange(0, keep) } else { s0 };
                if s1.len() > len {
                    let cut = s1[len as int].occupancy == Occupancy::WideTail;
                    let k = if cut { len - 1 } else { len as int };
                    let pad = if cut { seq![Cell::spec_blank(s1[k - 1].pen)] } else { Seq::<Cell>::empty() };
                    let rest0 = s1.subrange(k, s1.len() as int);
                    let rest = if !old(self).wrapped { trimmed(rest0) } else { rest0 };
                    &&& final(self).cells@ == s1.subrange(0, k) + pad
                    &&& final(self).cells@.len() == len
                    &&& if rest.len() == 0 {
                        r is None && final(self).wrapped == old(self).wrapped
                    } else {
                        &&& final(self).wrapped
                        &&& r matches Some(l) && l.cells@ == rest && l.wrapped == old(self).wrapped
                    }
                } else {
                    &&& final(self).cells@ == s1
                    &&& final(self).wrapped == old(self).wrapped
                    &&& r is None
                }
            }),
    {
        proof { reveal(spec_contract); }
        let ghost s0 = self.cells@;
        if !self.wrapped {
            let t = self.trailers();
            proof {
                lemma_trailers_bound(s0);
                lemma_trim_wide_ok(s0);
            }
            let trimmed_len = self.cells.len() - t;
            let keep = if len > trimmed_len { len } else { trimmed_len };
            self.cells.truncate(keep);
            proof {
                if keep < s0.len() {
                    lemma_ink_trimmed_to(s0, keep as int);
                    assert(cell_ok(s0, keep as int));
                    if keep > 0 { assert(cell_ok(s0, keep - 1)); }
                    assert(s0[keep as int].spec_is_default());
                    assert(cell_ok(s0, 0));
                    lemma_subrange_ok(s0, 0, keep as int);
                } else {
                    assert(s0.subrange(0, s0.len() as int) =~= s0);
                }
            }
        }
        let ghost s1 = self.cells@;
        assert(wide_ok(s1));
        assert(ink(s1) == ink(s0)) by {
            if !old(self).wrapped {
                assert(s1 =~= s0.subrange(0, s1.len() as int));
            }
        }
        if self.cells.len() > len {
            assert(cell_ok(s1, len as int));
            let cut = self.cells[len].occupancy == Occupancy::WideTail;
            let mut k = len;
            if cut {
                k = len - 1;
            }
            proof {
                assert(cell_ok(s1, k as int));
                if k > 0 { assert(cell_ok(s1, k - 1)); }
                assert(cell_ok(s1, 0));
                lemma_subrange_ok(s1, 0, k as int);
                lemma_subrange_ok(s1, k as int, s1.len() as int);
            }
            let rest_cells = self.cells.split_off(k);
            let mut rest = Line { cells: rest_cells, wrapped: self.wrapped };
            if cut {
                let pen = self.cells[self.cells.len() - 1].pen;
                self.cells.push(Cell::new(' ', Occupancy::Single, pen));
                proof { lemma_append_narrow(s1.subrange(0, k as int), seq![Cell::spec_blank(pen)]); }
                assert(self.cells@ =~= s1.subrange(0, k as int) + seq![Cell::spec_blank(pen)]);
            } else {
                assert(self.cells@ =~= s1.subrange(0, k as int) + Seq::<Cell>::empty());
            }
            let ghost rest0 = rest.cells@;
            if !self.wrapped {
                rest.trim();
                proof { lemma_trailers_bound(s1.subrange(k as int, s1.len() as int)); }
            }
            proof {
                lemma_ink_split(s1, k as int);
                lemma_ink_trimmed(rest0);
                let pad = self.cells@.subrange(k as int, self.cells@.len() as int);
                assert(self.cells@ =~= s1.subrange(0, k as int) + pad);
                lemma_ink_spaces(pad);
                lemma_ink_concat(s1.subrange(0, k as int), pad);
                assert(ink(rest.cells@) == ink(rest0));
                assert(ink(self.cells@) =~= ink(s1.subrange(0, k as int)));
            }
            if rest.cells.len() == 0 {
                assert(ink(rest.cells@) =~= Seq::<char>::empty());
                assert(ink(self.cells@) + ink_of(None) =~= ink(s0));
                None
            } else {
                self.wrapped = true;
                Some(rest)
            }
        } else {
            assert(ink(self.cells@) + ink_of(None) =~= ink(s0));
            None
        }
    }
}

pub proof fn lemma_trailers_bound(s: Seq<Cell>)
    ensures
        trailers(s) <= s.len(),
        forall|i: int| s.len() - trailers(s) <= i < s.len() ==> #[trigger] s[i].spec_is_default(),
    decreases s.len(),
{
    if s.len() > 0 && s.last().spec_is_default() {
        lemma_trailers_bound(s.drop_last());
        assert forall|i: int| s.len() - trailers(s) <= i < s.len() implies #[trigger] s[i].spec_is_default() by {
            if i < s.len() - 1 {
                assert(s.drop_last()[i] == s[i]);
            }
        }
    }
}

/// Dropping trailing default (narrow) cells keeps wide characters whole.
pub proof fn lemma_trim_wide_ok(s: Seq<Cell>)
    requires
        wide_ok(s),
    ensures
        wide_ok(s.subrange(0, s.len() - trailers(s))),
{
    lemma_trailers_bound(s);
    let n = s.len() - trailers(s);
    let t = s.subrange(0, n);
    assert forall|i: int| 0 <= i < t.len() implies #[trigger] cell_ok(t, i) by {
        assert(cell_ok(s, i));
        assert(t[i] == s[i]);
        if i > 0 {
            assert(t[i - 1] == s[i - 1]);
        }
        if i + 1 < n {
            assert(t[i + 1] == s[i + 1]);
        }
        if t[i].occupancy == Occupancy::WideHead && i + 1 >= n {
            assert(s[i + 1].spec_is_default());
        }
    }
}

/// Changing the cells of `lo..=hi` only keeps wide characters whole when
/// the cells around the change fit.
pub proof fn lemma_ok_from(s: Seq<Cell>, t: Seq<Cell>, lo: int, hi: int)
    requires
        wide_ok(s),
        t.len() == s.len(),
        forall|i: int| 0 <= i < s.len() && (i < lo || i > hi) ==> t[i] == s[i],
        forall|i: int| 0 <= i < s.len() && lo - 1 <= i <= hi + 1 ==> #[trigger] cell_ok(t, i),
    ensures
        wide_ok(t),
{
    assert forall|i: int| 0 <= i < t.len() implies #[trigger] cell_ok(t, i) by {
        if i < lo - 1 || i > hi + 1 {
            assert(cell_ok(s, i));
            assert(t[i] == s[i]);
            if i > 0 {
                assert(t[i - 1] == s[i - 1]);
            }
            if i + 1 < s.len() {
                assert(t[i + 1] == s[i + 1]);
            }
        }
    }
}

/// Narrow cells appended to a row keep its wide characters whole.
pub proof fn lemma_append_narrow(s: Seq<Cell>, b: Seq<Cell>)
    requires
        wide_ok(s),
        forall|i: int| 0 <= i < b.len() ==> #[trigger] b[i].occupancy == Occupancy::Single,
    ensures
        wide_ok(s + b),
{
    let t = s + b;
    assert forall|i: int| 0 <= i < t.len() implies #[trigger] cell_ok(t, i) by {
        if i < s.len() {
            assert(cell_ok(s, i));
            if i > 0 {
                assert(t[i - 1] == s[i - 1]);
            }
            if i + 1 < s.len() {
                assert(t[i + 1] == s[i + 1]);
            }
        } else {
            assert(t[i] == b[i - s.len()]);
        }
    }
}

pub proof fn lemma_clear_ok(s: Seq<Cell>, start: int, end: int, pen: Pen)
    requires
        wide_ok(s),
        0 <= start <= end <= s.len(),
    ensures
        wide_ok(spec_clear(s, start, end, pen)),
{
    if start < s.len() {
        let t = spec_clear(s, start, end, pen);
        assert(cell_ok(s, start));
        if end < s.len() {
            assert(cell_ok(s, end));
        }
        assert forall|i: int| 0 <= i < t.len() implies #[trigger] cell_ok(t, i) by {
            assert(cell_ok(s, i));
            if i > 0 {
                assert(cell_ok(s, i - 1));
            }
            if i + 1 < s.len() {
                assert(cell_ok(s, i + 1));
            }
        }
    }
}

/// Inserting narrow cells keeps wide characters whole.
pub proof fn lemma_insert_ok(s: Seq<Cell>, col: int, n: int, cell: Cell)
    requires
        wide_ok(s),
        0 <= col < s.len(),
        0 <= n <= s.len() - col,
        cell.occupancy == Occupancy::Single,
    ensures
        wide_ok(spec_insert(s, col, n, cell)),
        spec_insert(s, col, n, cell).len() == s.len(),
{
    let sp = Cell::spec_blank(cell.pen);
    lemma_shift_right_ok(s, col, n, cell.pen);
    let t = spec_shift_right(s, col, n, cell.pen);
    let f = spec_insert(s, col, n, cell);
    let s1 = if s[col].occupancy == Occupancy::WideTail { s.update(col, sp).update(col - 1, sp) } else { s };
    let s2 = rotate_right(s1, col, n);
    assert(cell_ok(s, col));
    if col > 0 {
        assert(cell_ok(s, col - 1));
        assert(s1[col - 1].occupancy != Occupancy::WideHead);
        assert(t[col - 1] == s2[col - 1]);
    }
    assert(s1[col].occupancy != Occupancy::WideTail);
    if n > 0 && col + n < s.len() {
        assert(s2[col + n] == s1[col]);
        assert(t[col + n].occupancy != Occupancy::WideTail);
    }
    assert forall|i: int| 0 <= i < f.len() implies #[trigger] cell_ok(f, i) by {
        assert(cell_ok(t, i));
        if i + 1 < f.len() {
            assert(cell_ok(t, i + 1));
        }
        if i > 0 {
            assert(cell_ok(t, i - 1));
        }
    }
}

pub proof fn lemma_shift_right_ok(s: Seq<Cell>, col0: int, n: int, pen: Pen)
    requires
        wide_ok(s),
        s.len() >= 1,
        0 <= col0,
        0 <= n <= s.len() - (if col0 < s.len() - 1 { col0 } else { s.len() - 1 }),
    ensures
        wide_ok(spec_shift_right(s, col0, n, pen)),
{
    let len = s.len();
    let col = if col0 < s.len() - 1 { col0 } else { s.len() - 1 };
    let sp = Cell::spec_blank(pen);
    assert(cell_ok(s, col));
    let s1 = if s[col].occupancy == Occupancy::WideTail { s.update(col, sp).update(col - 1, sp) } else { s };
    assert(wide_ok(s1)) by {
        if s[col].occupancy == Occupancy::WideTail {
            assert forall|k: int| 0 <= k < len && col - 2 <= k <= col + 1 implies #[trigger] cell_ok(s1, k) by {
                assert(cell_ok(s, k));
                if k > 0 { assert(cell_ok(s, k - 1)); }
                if k + 1 < len { assert(cell_ok(s, k + 1)); }
            }
            lemma_ok_from(s, s1, col - 1, col);
        }
    }
    let s2 = rotate_right(s1, col, n);
    let r = spec_shift_right(s, col0, n, pen);
    assert(cell_ok(s1, col));
    assert(cell_ok(s1, len - 1));
    if len - n - 1 >= 0 {
        assert(cell_ok(s1, len - n - 1));
    }
    if len - n < len {
        assert(cell_ok(s1, len - n));
    }
    assert forall|i: int| 0 <= i < len implies #[trigger] cell_ok(r, i) by {
        if i < col {
            assert(cell_ok(s1, i));
            if i + 1 < len { assert(cell_ok(s1, i + 1)); }
        } else if i < col + n {
            let j = len - n + (i - col);
            assert(cell_ok(s1, j));
            if j > 0 { assert(cell_ok(s1, j - 1)); }
            if j + 1 < len { assert(cell_ok(s1, j + 1)); }
        } else {
            assert(cell_ok(s1, i - n));
            if i - n > 0 { assert(cell_ok(s1, i - n - 1)); }
            if i - n + 1 < len { assert(cell_ok(s1, i - n + 1)); }
        }
        if i > 0 && i - 1 < col {
            assert(cell_ok(s1, i - 1));
        }
    }
}

pub proof fn lemma_delete_ok(s: Seq<Cell>, col: int, n: int, pen: Pen)
    requires
        wide_ok(s),
        0 <= col < s.len(),
        0 <= n <= s.len() - col,
    ensures
        wide_ok(spec_delete(s, col, n, pen)),
{
    let len = s.len();
    let sp = Cell::spec_blank(pen);
    assert(cell_ok(s, col));
    let s1 = if s[col].occupancy == Occupancy::WideTail { s.update(col - 1, sp) } else { s };
    let r = spec_delete(s, col, n, pen);
    if col > 0 {
        assert(cell_ok(s, col - 1));
    }
    assert(cell_ok(s, len - 1));
    assert forall|i: int| 0 <= i < len implies #[trigger] cell_ok(r, i) by {
        if i < col {
            assert(cell_ok(s, i));
            if i > 0 { assert(cell_ok(s, i - 1)); }
            if i + 1 < len { assert(cell_ok(s, i + 1)); }
        } else if i < len - n {
            assert(cell_ok(s, i + n));
            if i + n > 0 { assert(cell_ok(s, i + n - 1)); }
            if i + n + 1 < len { assert(cell_ok(s, i + n + 1)); }
        }
    }
}

/// A part of a row that starts at a character and ends after one keeps wide
/// characters whole.
pub proof fn lemma_subrange_ok(s: Seq<Cell>, a: int, b: int)
    requires
        wide_ok(s),
        0 <= a <= b <= s.len(),
        a < s.len() ==> s[a].occupancy != Occupancy::WideTail,
        b < s.len() ==> s[b].occupancy != Occupancy::WideTail,
    ensures
        wide_ok(s.subrange(a, b)),
{
    let t = s.subrange(a, b);
    assert forall|i: int| 0 <= i < t.len() implies #[trigger] cell_ok(t, i) by {
        assert(cell_ok(s, a + i));
        if a + i + 1 < s.len() { assert(cell_ok(s, a + i + 1)); }
    }
}

/// Two rows that keep wide characters whole, one after the other, do too.
pub proof fn lemma_concat_ok(a: Seq<Cell>, b: Seq<Cell>)
    requires
        wide_ok(a),
        wide_ok(b),
    ensures
        wide_ok(a + b),
{
    let t = a + b;
    if b.len() > 0 {
        assert(cell_ok(b, 0));
    }
    if a.len() > 0 {
        assert(cell_ok(a, a.len() - 1));
    }
    assert forall|i: int| 0 <= i < t.len() implies #[trigger] cell_ok(t, i) by {
        if i < a.len() {
            assert(cell_ok(a, i));
        } else {
            assert(cell_ok(b, i - a.len()));
        }
    }
}

/// A print advances the cursor within the row; it only fails for a wide
/// character in the last two columns, and never at the start of a row of
/// two or more cells.
pub proof fn lemma_print_fits(s: Seq<Cell>, col: int, wide: bool, ch: char, pen: Pen)
    requires
        wide_ok(s),
        0 <= col < s.len(),
    ensures
        spec_print(s, col, wide, ch, pen).1 matches Some(n) ==> col + n <= s.len(),
        spec_print(s, col, wide, ch, pen).1 is None ==> wide && col >= s.len() - 2,
        spec_print(s, col, wide, ch, pen).1 is None && s.len() >= 2 ==> col >= 1,
{
    assert(cell_ok(s, col));
}

} // verus!
