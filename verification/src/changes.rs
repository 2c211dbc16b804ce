use crate::buffer::{Buffer, EraseMode, scrolled_up, scrolled_down};
use crate::function::{DecMode, EdScope, ElScope, Function};
use crate::pen::Pen;
use crate::terminal::{Terminal, marked};
use vstd::prelude::*;

verus! {

/// Row `r` of the view shows other cells in `new` than in `t`.
pub open spec fn row_changed(t: Terminal, new: Terminal, r: int) -> bool {
    new.buffer.row(r).cells@ != t.buffer.row(r).cells@
}

/// Every row of the view whose cells differ between `t` and `new` is
/// marked changed in `new`.
pub open spec fn changes_marked(t: Terminal, new: Terminal) -> bool {
    forall|r: int| 0 <= r < t.rows && #[trigger] row_changed(t, new, r) ==> new.dirty_lines@[r]
}

/// Marking the rows `a..b` suffices when no other row changed.
proof fn lemma_marked_covers(t: Terminal, new: Terminal, a: int, b: int)
    requires
        marked(t.dirty_lines@, new.dirty_lines@, a, b),
        t.dirty_lines@.len() == t.rows,
        forall|r: int| 0 <= r < t.rows && !(a <= r < b) ==> !#[trigger] row_changed(t, new, r),
    ensures
        changes_marked(t, new),
{
    assert forall|r: int| 0 <= r < t.rows && #[trigger] row_changed(t, new, r) implies new.dirty_lines@[r] by {
        assert(new.dirty_lines@[r] == (t.dirty_lines@[r] || (a <= r < b)));
    }
}

/// Scrolling rows `start..end` up leaves the other rows of the view with
/// their cells.
proof fn lemma_scrolled_up_outside(b: Buffer, nb: Buffer, start: int, end: int, n: int, pen: Pen, r: int)
    requires
        b.rows == nb.rows,
        b.rows <= b.lines@.len(),
        0 <= start < end <= b.rows,
        0 <= n <= end - start,
        scrolled_up(b.lines@, nb.lines@, b.top(), b.rows as int, b.cols as nat, start, end, n, pen),
        0 <= r < b.rows,
        !(start <= r < end),
    ensures
        nb.row(r).cells@ == b.row(r).cells@,
{
    let top = b.top();
    if start == 0 && end == b.rows {
    } else if start == 0 {
        let k = nb.top() + r;
        assert(k == top + r + n);
        assert(top + end + n <= k < nb.lines@.len());
        assert(crate::buffer::same_line(nb.lines@[k], b.lines@[k - n]));
    } else {
        let k = top + r;
        if r < start {
            assert(crate::buffer::moved_line(nb.lines@[k], b.lines@[k], k == top + start - 1));
        } else {
            assert(crate::buffer::same_line(nb.lines@[k], b.lines@[k]));
        }
    }
}

/// Scrolling rows `start..end` down leaves the other rows of the view with
/// their cells.
proof fn lemma_scrolled_down_outside(b: Buffer, nb: Buffer, start: int, end: int, n: int, pen: Pen, r: int)
    requires
        b.rows == nb.rows,
        b.rows <= b.lines@.len(),
        0 <= start < end <= b.rows,
        0 <= n <= end - start,
        scrolled_down(b.lines@, nb.lines@, b.top(), b.cols as nat, start, end, n, pen),
        0 <= r < b.rows,
        !(start <= r < end),
    ensures
        nb.row(r).cells@ == b.row(r).cells@,
{
    let top = b.top();
    let k = top + r;
    if r < start {
        assert(crate::buffer::moved_line(nb.lines@[k], b.lines@[k], start > 0 && k == top + start - 1));
    } else {
        assert(crate::buffer::same_line(nb.lines@[k], b.lines@[k]));
    }
}

/// Erasing around (`col`, `row`) leaves the rows of the view outside the
/// erased ones with their cells.
proof fn lemma_erased_outside(b: Buffer, nb: Buffer, col: int, row: int, mode: EraseMode, pen: Pen, r: int)
    requires
        b.rows <= b.lines@.len(),
        b.erased(&nb, col, row, mode, pen),
        0 <= r < b.rows,
        r != row,
        match mode {
            EraseMode::FromCursorToEndOfView => r < row,
            EraseMode::FromStartOfViewToCursor => r > row,
            EraseMode::WholeView => false,
            _ => true,
        },
    ensures
        nb.row(r).cells@ == b.row(r).cells@,
{
    assert(nb.lines@[b.top() + r] == b.lines@[b.top() + r]);
}

/// Along a run of mode changes, either the buffer and the changed-row
/// marks stay, or every row ends marked changed.
proof fn lemma_modes_chain(ts: Seq<Terminal>, modes: Seq<DecMode>, set: bool, n: int)
    requires
        ts.len() == modes.len() + 1,
        0 <= n <= modes.len(),
        forall|i: int| 0 <= i < modes.len() ==> #[trigger] ts[i].mode_changed(&ts[i + 1], modes[i], set),
    ensures
        ts[n].rows == ts[0].rows,
        (ts[n].buffer == ts[0].buffer && ts[n].dirty_lines == ts[0].dirty_lines)
            || ts[n].dirty_lines@ == Seq::new(ts[0].rows as nat, |i: int| true),
    decreases n,
{
    if n > 0 {
        lemma_modes_chain(ts, modes, set, n - 1);
        let j = n - 1;
        let a = ts[j];
        let b = ts[j + 1];
        assert(a.mode_changed(&b, modes[j], set));
        let m = modes[j];
        if set {
            match m {
                DecMode::AltScreenBuffer => {
                    let t = choose|t: Terminal| #[trigger] a.to_alternate(&t) && t.reflowed(&b);
                },
                DecMode::SaveCursorAltScreenBuffer => {
                    let t = choose|t: Terminal| #[trigger] a.cursor_saved().to_alternate(&t) && t.reflowed(&b);
                },
                _ => {},
            }
        } else {
            match m {
                DecMode::AltScreenBuffer => {
                    let t = choose|t: Terminal| #[trigger] a.to_primary(&t) && t.reflowed(&b);
                },
                DecMode::SaveCursorAltScreenBuffer => {
                    let t = choose|t: Terminal| #[trigger] a.to_primary(&t) && t.cursor_restored().reflowed(&b);
                },
                _ => {},
            }
        }
    }
}

/// Setting or resetting modes marks every row whose cells change.
proof fn lemma_modes_marked(t: Terminal, new: Terminal, modes: Seq<DecMode>, set: bool)
    requires
        t.modes_changed(&new, modes, set),
    ensures
        changes_marked(t, new),
{
    let ts = choose|ts: Seq<Terminal>| {
        &&& ts.len() == modes.len() + 1
        &&& ts[0] == t
        &&& #[trigger] ts[modes.len() as int] == new
        &&& forall|i: int| 0 <= i < modes.len() ==> #[trigger] ts[i].mode_changed(&ts[i + 1], modes[i], set)
    };
    lemma_modes_chain(ts, modes, set, modes.len() as int);
    assert(ts[modes.len() as int] == new);
}

/// A function that changes one row: the others keep their cells.
proof fn lemma_one_row(t: Terminal, new: Terminal, row: int)
    requires
        t.wf(),
        0 <= row < t.rows,
        t.buffer.same_but(&new.buffer, t.buffer.top() + row),
        marked(t.dirty_lines@, new.dirty_lines@, row, row + 1),
    ensures
        changes_marked(t, new),
{
    assert forall|r: int| 0 <= r < t.rows && !(row <= r < row + 1) implies !#[trigger] row_changed(t, new, r) by {
        assert(new.buffer.lines@[t.buffer.top() + r] == t.buffer.lines@[t.buffer.top() + r]);
    }
    lemma_marked_covers(t, new, row, row + 1);
}

/// Erasing marks the rows `a..b` that hold what `mode` erases.
proof fn lemma_erase_marked(t: Terminal, new: Terminal, mode: EraseMode, a: int, b: int)
    requires
        t.wf(),
        t.buffer.erased(&new.buffer, t.cursor.col as int, t.cursor.row as int, mode, t.pen),
        marked(t.dirty_lines@, new.dirty_lines@, a, b),
        a <= t.cursor.row < b,
        match mode {
            EraseMode::FromCursorToEndOfView => b == t.rows,
            EraseMode::FromStartOfViewToCursor => a == 0,
            EraseMode::WholeView => a == 0 && b == t.rows,
            _ => true,
        },
    ensures
        changes_marked(t, new),
{
    assert forall|r: int| 0 <= r < t.rows && !(a <= r < b) implies !#[trigger] row_changed(t, new, r) by {
        lemma_erased_outside(t.buffer, new.buffer, t.cursor.col as int, t.cursor.row as int, mode, t.pen, r);
    }
    lemma_marked_covers(t, new, a, b);
}

/// Every function but printing marks each row of the view whose cells it
/// changes: erasing (in a row, below, above or on the whole screen),
/// inserting and deleting characters or lines, scrolling, line feeds at
/// the bottom margin, filling the screen, switching screens and resetting;
/// the functions that only move the cursor or change modes, the pen, tab
/// stops or charsets leave the cells as they are.
pub proof fn lemma_changes_marked(t: Terminal, new: Terminal, f: Function)
    requires
        t.wf(),
        new.wf(),
        t.executed(&new, f),
        !(f is Print),
        !(f is Rep),
    ensures
        changes_marked(t, new),
{
    let row = t.cursor.row as int;
    let col = t.cursor.col as int;
    match f {
        Function::Dch(_) | Function::Ich(_) => {
            lemma_one_row(t, new, row);
        },
        Function::Ech(n) => {
            lemma_erase_marked(t, new, EraseMode::NextChars(crate::terminal::param_or(n, 1)), row, row + 1);
        },
        Function::El(scope) => {
            let mode = match scope {
                ElScope::ToRight => EraseMode::FromCursorToEndOfLine,
                ElScope::ToLeft => EraseMode::FromStartOfLineToCursor,
                ElScope::All => EraseMode::WholeLine,
            };
            lemma_erase_marked(t, new, mode, row, row + 1);
        },
        Function::Ed(scope) => {
            match scope {
                EdScope::Below => lemma_erase_marked(t, new, EraseMode::FromCursorToEndOfView, row, t.rows as int),
                EdScope::Above => lemma_erase_marked(t, new, EraseMode::FromStartOfViewToCursor, 0, row + 1),
                EdScope::All => lemma_erase_marked(t, new, EraseMode::WholeView, 0, t.rows as int),
                EdScope::SavedLines => {},
            }
        },
        Function::Dl(n) => {
            let end = t.line_region_end();
            let k = crate::buffer::min(crate::terminal::param_or(n, 1) as int, end - row);
            assert forall|r: int| 0 <= r < t.rows && !(row <= r < end) implies !#[trigger] row_changed(t, new, r) by {
                lemma_scrolled_up_outside(t.buffer, new.buffer, row, end, k, t.pen, r);
            }
            lemma_marked_covers(t, new, row, end);
        },
        Function::Il(n) => {
            let end = t.line_region_end();
            let k = crate::buffer::min(crate::terminal::param_or(n, 1) as int, end - row);
            assert forall|r: int| 0 <= r < t.rows && !(row <= r < end) implies !#[trigger] row_changed(t, new, r) by {
                lemma_scrolled_down_outside(t.buffer, new.buffer, row, end, k, t.pen, r);
            }
            lemma_marked_covers(t, new, row, end);
        },
        Function::Su(n) => {
            let (a, b) = (t.top_margin as int, t.bottom_margin + 1);
            let k = crate::buffer::min(crate::terminal::param_or(n, 1) as int, b - a);
            assert forall|r: int| 0 <= r < t.rows && !(a <= r < b) implies !#[trigger] row_changed(t, new, r) by {
                lemma_scrolled_up_outside(t.buffer, new.buffer, a, b, k, t.pen, r);
            }
            lemma_marked_covers(t, new, a, b);
        },
        Function::Sd(n) => {
            let (a, b) = (t.top_margin as int, t.bottom_margin + 1);
            let k = crate::buffer::min(crate::terminal::param_or(n, 1) as int, b - a);
            assert forall|r: int| 0 <= r < t.rows && !(a <= r < b) implies !#[trigger] row_changed(t, new, r) by {
                lemma_scrolled_down_outside(t.buffer, new.buffer, a, b, k, t.pen, r);
            }
            lemma_marked_covers(t, new, a, b);
        },
        Function::Ri => {
            if row == t.top_margin {
                let (a, b) = (t.top_margin as int, t.bottom_margin + 1);
                assert forall|r: int| 0 <= r < t.rows && !(a <= r < b) implies !#[trigger] row_changed(t, new, r) by {
                    lemma_scrolled_down_outside(t.buffer, new.buffer, a, b, 1, t.pen, r);
                }
                lemma_marked_covers(t, new, a, b);
            }
        },
        Function::Lf | Function::Nel => {
            let d = choose|d: Terminal| #[trigger] t.down_with_scroll(&d)
                && (new == d || new == d.moved(0, d.cursor.row as int));
            if row == t.bottom_margin {
                let (a, b) = (t.top_margin as int, t.bottom_margin + 1);
                assert(new.buffer == d.buffer && new.dirty_lines == d.dirty_lines);
                assert forall|r: int| 0 <= r < t.rows && !(a <= r < b) implies !#[trigger] row_changed(t, new, r) by {
                    lemma_scrolled_up_outside(t.buffer, new.buffer, a, b, 1, t.pen, r);
                }
                lemma_marked_covers(t, new, a, b);
            }
        },
        Function::Decset(modes) => lemma_modes_marked(t, new, modes@, true),
        Function::Decrst(modes) => lemma_modes_marked(t, new, modes@, false),
        _ => {},
    }
}

/// The sizes that relate a terminal's rows to its buffer and marks.
pub open spec fn rows_ok(t: Terminal) -> bool {
    &&& t.dirty_lines@.len() == t.rows
    &&& t.buffer.rows == t.rows
    &&& t.buffer.rows <= t.buffer.lines@.len()
    &&& t.top_margin <= t.bottom_margin < t.rows
    &&& t.cursor.row < t.rows
}

/// Every changed row of the view outside the rows `a..b` is marked.
pub open spec fn changes_marked_outside(t: Terminal, new: Terminal, a: int, b: int) -> bool {
    forall|r: int| 0 <= r < t.rows && #[trigger] row_changed(t, new, r) && !(a <= r < b) ==> new.dirty_lines@[r]
}

/// Printing a character marks each row of the view whose cells change,
/// except the row the cursor leaves when the character does not fit there
/// and auto-wrap takes it to the next row (that row is drawn again by the
/// wrap, as the original marks only where the cursor lands). The cursor
/// moves down by at most one row, and marked rows stay marked.
pub proof fn lemma_print_changes_marked(t: Terminal, new: Terminal, ch: char)
    requires
        rows_ok(t),
        t.printed(&new, ch),
    ensures
        changes_marked_outside(t, new, t.cursor.row as int, new.cursor.row as int),
        t.cursor.row <= new.cursor.row <= t.cursor.row + 1,
        new.cursor.row == t.cursor.row + 1 ==> !t.print_scrolls(ch),
        rows_ok(new),
        forall|r: int| 0 <= r < t.rows && #[trigger] t.dirty_lines@[r] ==> new.dirty_lines@[r],
{
    let row = t.cursor.row as int;
    let c = t.mapped(ch);
    let wide = crate::line::is_wide(c);
    let (cells, rr) = t.print_here(ch);
    let tb = t.buffer;
    if t.cursor.col < t.cols && rr is Some {
        assert forall|r: int| 0 <= r < t.rows && #[trigger] row_changed(t, new, r) && !(row <= r < new.cursor.row)
            implies new.dirty_lines@[r] by {
            if r != row {
                assert(new.buffer.lines@[tb.top() + r] == tb.lines@[tb.top() + r]);
            }
        }
    } else {
        let b0 = choose|b0: Buffer| {
            &&& #[trigger] b0.wf()
            &&& (if t.cursor.col < t.cols { crate::terminal::row_replaced(t.buffer, b0, row, cells) } else { b0 == t.buffer })
            &&& if t.auto_wrap_mode {
                exists|b2: Buffer| {
                    let nr = t.wrap_row();
                    let p = crate::line::spec_print(b2.row(nr).cells@, 0, wide, c, t.pen);
                    &&& #[trigger] crate::terminal::wrap_moved(b0, b2, row, t.top_margin as int, t.bottom_margin as int, t.pen)
                    &&& crate::terminal::row_replaced(b2, new.buffer, nr, p.0)
                    &&& new.cursor.row == nr
                    &&& p.1 matches Some(n) && new.cursor.col == n
                }
            } else {
                let p = crate::line::spec_print(b0.row(row).cells@, t.cursor.col - 1, wide, c, t.pen);
                &&& crate::terminal::row_replaced(b0, new.buffer, row,
                    if p.1 is Some { p.0 } else { crate::line::spec_print(p.0, t.cursor.col - 2, wide, c, t.pen).0 })
                &&& new.cursor.row == row
                &&& new.cursor.col == t.cols - 1
            }
        };
        assert(b0.rows == tb.rows && b0.lines@.len() == tb.lines@.len());
        assert(forall|r: int| 0 <= r < t.rows && r != row ==> #[trigger] b0.row(r) == tb.row(r));
        if t.auto_wrap_mode {
            let nr = t.wrap_row();
            let b2 = choose|b2: Buffer| {
                let p = crate::line::spec_print(b2.row(nr).cells@, 0, wide, c, t.pen);
                &&& #[trigger] crate::terminal::wrap_moved(b0, b2, row, t.top_margin as int, t.bottom_margin as int, t.pen)
                &&& crate::terminal::row_replaced(b2, new.buffer, nr, p.0)
                &&& new.cursor.row == nr
                &&& p.1 matches Some(n) && new.cursor.col == n
            };
            if row == t.bottom_margin {
                let b1 = choose|b1: Buffer| {
                    &&& #[trigger] crate::terminal::row_wrapped(b0, b1, row)
                    &&& b2.cols == b1.cols
                    &&& b2.rows == b1.rows
                    &&& b2.scrollback_limit == b1.scrollback_limit
                    &&& b2.trim_needed
                    &&& scrolled_up(b1.lines@, b2.lines@, b1.top(), b1.rows as int, b1.cols as nat,
                        t.top_margin as int, t.bottom_margin + 1, 1, t.pen)
                };
                assert(t.print_scrolls(ch));
                assert forall|r: int| 0 <= r < t.rows && #[trigger] row_changed(t, new, r) && !(row <= r < new.cursor.row)
                    implies new.dirty_lines@[r] by {
                    if !(t.top_margin <= r <= t.bottom_margin) {
                        assert(b1.row(r) == b0.row(r));
                        lemma_scrolled_up_outside(b1, b2, t.top_margin as int, t.bottom_margin + 1, 1, t.pen, r);
                        assert(new.buffer.row(r) == b2.row(r));
                    }
                }
            } else if row < t.rows - 1 {
                assert forall|r: int| 0 <= r < t.rows && #[trigger] row_changed(t, new, r) && !(row <= r < new.cursor.row)
                    implies new.dirty_lines@[r] by {
                    if r != row + 1 {
                        assert(b2.row(r) == b0.row(r));
                        assert(new.buffer.row(r) == b2.row(r));
                    }
                }
            } else {
                assert forall|r: int| 0 <= r < t.rows && #[trigger] row_changed(t, new, r) && !(row <= r < new.cursor.row)
                    implies new.dirty_lines@[r] by {
                    if r != row {
                        assert(new.buffer.row(r) == b2.row(r));
                    }
                }
            }
        } else {
            assert forall|r: int| 0 <= r < t.rows && #[trigger] row_changed(t, new, r) && !(row <= r < new.cursor.row)
                implies new.dirty_lines@[r] by {
                if r != row {
                    assert(new.buffer.row(r) == b0.row(r));
                }
            }
        }
    }
}

/// Along a run of prints, each changed row outside the rows the cursor
/// passed through is marked.
proof fn lemma_prints_chain(ts: Seq<Terminal>, ch: char, n: int)
    requires
        0 <= n < ts.len(),
        rows_ok(ts[0]),
        forall|i: int| 0 <= i < n ==> #[trigger] ts[i].printed(&ts[i + 1], ch),
    ensures
        rows_ok(ts[n]),
        ts[n].rows == ts[0].rows,
        ts[0].cursor.row <= ts[n].cursor.row,
        changes_marked_outside(ts[0], ts[n], ts[0].cursor.row as int, ts[n].cursor.row as int),
    decreases n,
{
    if n > 0 {
        let j = n - 1;
        lemma_prints_chain(ts, ch, j);
        let (a, m, b) = (ts[0], ts[j], ts[n]);
        assert(ts[j].printed(&ts[j + 1], ch));
        assert(j + 1 == n);
        lemma_print_changes_marked(m, b, ch);
        assert forall|r: int| 0 <= r < a.rows && #[trigger] row_changed(a, b, r) && !(a.cursor.row <= r < b.cursor.row)
            implies b.dirty_lines@[r] by {
            if row_changed(m, b, r) {
                assert(!(m.cursor.row <= r < b.cursor.row));
            } else {
                assert(row_changed(a, m, r));
                assert(m.dirty_lines@[r]);
            }
        }
    }
}

/// Repeating the character before the cursor marks each row of the view
/// whose cells change, except the rows the cursor leaves when a copy does
/// not fit and auto-wrap takes it to the next row.
pub proof fn lemma_rep_changes_marked(t: Terminal, new: Terminal, n: nat)
    requires
        rows_ok(t),
        t.repeated(&new, n),
    ensures
        changes_marked_outside(t, new, t.cursor.row as int, new.cursor.row as int),
        t.cursor.row <= new.cursor.row,
{
    if t.cursor.col != 0 {
        let cells = t.buffer.row(t.cursor.row as int).cells@;
        let ch = cells[crate::terminal::rep_col(cells, t.cursor.col - 1)].ch;
        let ts = choose|ts: Seq<Terminal>| {
            &&& ts.len() == n + 1
            &&& ts[0] == t
            &&& #[trigger] ts[n as int] == new
            &&& forall|i: int| 0 <= i < n ==> #[trigger] ts[i].printed(&ts[i + 1], ch)
        };
        lemma_prints_chain(ts, ch, n as int);
    }
}

} // verus!
