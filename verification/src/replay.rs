use crate::cell::{Cell, Occupancy};
use crate::charset::Charset;
use crate::function::Function;
use crate::line::is_wide;
use crate::pen::Pen;
use crate::terminal::{Terminal, row_replaced, rep_col, param_or};
use crate::terminal_dump::{print_runs, lead};
use vstd::prelude::*;

verus! {

/// The cells that drawing `x` takes: a narrow cell alone, a wide one with
/// its tail (a space in the same pen) after it.
pub open spec fn drawn(x: Cell) -> Seq<Cell> {
    if x.occupancy == Occupancy::WideHead {
        seq![x, Cell { ch: ' ', occupancy: Occupancy::WideTail, pen: x.pen }]
    } else {
        seq![x]
    }
}

/// The cells that drawing the cells `q` one after the other takes.
pub open spec fn drawn_all(q: Seq<Cell>) -> Seq<Cell>
    decreases q.len(),
{
    if q.len() == 0 {
        Seq::empty()
    } else {
        drawn(q[0]) + drawn_all(q.drop_first())
    }
}

/// The characters of the cells `q`.
pub open spec fn chars_of(q: Seq<Cell>) -> Seq<char> {
    q.map_values(|c: Cell| c.ch)
}

/// A cell as printing its character in `pen` makes it: a narrow character
/// in a narrow cell, a wide one in the head of a wide cell.
pub open spec fn printable(x: Cell, pen: Pen) -> bool {
    &&& x.pen == pen
    &&& (x.occupancy == Occupancy::Single && !is_wide(x.ch))
        || (x.occupancy == Occupancy::WideHead && is_wide(x.ch))
}

/// A terminal that prints characters as they are, at the cursor: auto-wrap
/// mode, no insert mode, the ASCII charset in use.
pub open spec fn plain_printing(t: Terminal) -> bool {
    &&& t.auto_wrap_mode
    &&& !t.insert_mode
    &&& 0 <= t.active_charset < 2
    &&& t.charsets@.len() == 2
    &&& t.charsets@[t.active_charset as int] == Charset::Ascii
}

/// `new` is `t` with the cursor row's cells `cells` and the cursor in
/// column `col`; the rest of the buffer, the cursor's row and visibility and
/// all else but the changed-row marks stay.
pub open spec fn row_drawn(t: Terminal, new: Terminal, cells: Seq<Cell>, col: int) -> bool {
    &&& new == (Terminal { buffer: new.buffer, cursor: new.cursor, dirty_lines: new.dirty_lines, ..t })
    &&& row_replaced(t.buffer, new.buffer, t.cursor.row as int, cells)
    &&& new.cursor.row == t.cursor.row
    &&& new.cursor.visible == t.cursor.visible
    &&& new.cursor.col == col
}

/// The cells `s` with those from `col` on replaced by `d`.
pub open spec fn spliced(s: Seq<Cell>, col: int, d: Seq<Cell>) -> Seq<Cell> {
    s.take(col) + d + s.skip(col + d.len())
}

/// All cells of `s` from `col` on are narrow.
pub open spec fn narrow_from(s: Seq<Cell>, col: int) -> bool {
    forall|j: int| col <= j < s.len() ==> (#[trigger] s[j]).occupancy == Occupancy::Single
}

/// Printing the character of a printable cell where the cells from the
/// cursor on are narrow draws the cell there and moves past it.
proof fn lemma_print_step(t: Terminal, new: Terminal, x: Cell)
    requires
        plain_printing(t),
        printable(x, t.pen),
        t.buffer.row(t.cursor.row as int).cells@.len() == t.cols,
        narrow_from(t.buffer.row(t.cursor.row as int).cells@, t.cursor.col as int),
        t.cursor.col + drawn(x).len() <= t.cols,
        t.printed(&new, x.ch),
    ensures
        row_drawn(t, new, spliced(t.buffer.row(t.cursor.row as int).cells@, t.cursor.col as int, drawn(x)),
            t.cursor.col + drawn(x).len()),
{
    let s = t.buffer.row(t.cursor.row as int).cells@;
    let c = t.cursor.col as int;
    assert(t.mapped(x.ch) == x.ch);
    assert(t.print_base() == s);
    assert(s[c].occupancy == Occupancy::Single);
    let target = spliced(s, c, drawn(x));
    if x.occupancy == Occupancy::WideHead {
        assert(s[c + 1].occupancy == Occupancy::Single);
        let p = t.print_here(x.ch);
        assert(p.1 == Some(2usize));
        assert(p.0 =~= target);
    } else {
        let p = t.print_here(x.ch);
        assert(p.1 == Some(1usize));
        assert(p.0 =~= target);
    }
}

/// Drawing a run of cells and then one more.
proof fn lemma_drawn_all_push(q: Seq<Cell>)
    requires
        q.len() > 0,
    ensures
        drawn_all(q) == drawn_all(q.drop_last()) + drawn(q.last()),
    decreases q.len(),
{
    if q.len() > 1 {
        let r = q.drop_first();
        lemma_drawn_all_push(r);
        assert(r.drop_last() == q.drop_last().drop_first());
        assert(r.last() == q.last());
        assert(drawn_all(q.drop_last()) == drawn(q[0]) + drawn_all(q.drop_last().drop_first()));
        assert(drawn_all(q) =~= drawn_all(q.drop_last()) + drawn(q.last()));
    } else {
        assert(q.drop_first() =~= Seq::<Cell>::empty());
        assert(q.drop_last() =~= Seq::<Cell>::empty());
        assert(drawn_all(q) =~= drawn_all(q.drop_last()) + drawn(q.last()));
    }
}

/// Drawing a run of cells in two parts.
proof fn lemma_drawn_all_split(q: Seq<Cell>, k: int)
    requires
        0 <= k <= q.len(),
    ensures
        drawn_all(q) == drawn_all(q.take(k)) + drawn_all(q.skip(k)),
        q.len() <= drawn_all(q).len(),
    decreases k,
{
    if k == 0 {
        assert(q.take(0) =~= Seq::<Cell>::empty());
        assert(q.skip(0) =~= q);
        assert(drawn_all(q) =~= drawn_all(q.take(k)) + drawn_all(q.skip(k)));
        lemma_drawn_len(q);
    } else {
        let r = q.drop_first();
        lemma_drawn_all_split(r, k - 1);
        assert(q.take(k).drop_first() =~= r.take(k - 1));
        assert(r.skip(k - 1) =~= q.skip(k));
        assert(q.take(k)[0] == q[0]);
        assert(drawn_all(q) =~= drawn_all(q.take(k)) + drawn_all(q.skip(k)));
        lemma_drawn_len(q);
    }
}

proof fn lemma_drawn_len(q: Seq<Cell>)
    ensures
        q.len() <= drawn_all(q).len(),
    decreases q.len(),
{
    if q.len() > 0 {
        lemma_drawn_len(q.drop_first());
    }
}

/// Two drawings in a row are one.
proof fn lemma_row_drawn_trans(t0: Terminal, t1: Terminal, t2: Terminal, c1: Seq<Cell>, col1: int, c2: Seq<Cell>, col2: int)
    requires
        row_drawn(t0, t1, c1, col1),
        row_drawn(t1, t2, c2, col2),
    ensures
        row_drawn(t0, t2, c2, col2),
{
    let r = t0.cursor.row as int;
    assert(t1.buffer.top() == t0.buffer.top());
    assert forall|k: int| 0 <= k < t0.buffer.lines@.len() && k != t0.buffer.top() + r
        implies t2.buffer.lines@[k] == t0.buffer.lines@[k] by {
        assert(t1.buffer.lines@[k] == t0.buffer.lines@[k]);
    }
}

/// Splicing at the end of a splice.
proof fn lemma_splice_more(s: Seq<Cell>, col: int, d: Seq<Cell>, e: Seq<Cell>)
    requires
        0 <= col,
        col + d.len() + e.len() <= s.len(),
    ensures
        spliced(spliced(s, col, d), col + d.len(), e) == spliced(s, col, d + e),
        spliced(s, col, d).len() == s.len(),
{
    assert(spliced(spliced(s, col, d), col + d.len(), e) =~= spliced(s, col, d + e));
}

/// The terminal that prints a run of cells: as `plain_printing`, its
/// cursor row `cols` wide and narrow from the cursor on, with room for
/// `d` there.
pub open spec fn ready_for(t: Terminal, d: Seq<Cell>) -> bool {
    &&& plain_printing(t)
    &&& t.buffer.row(t.cursor.row as int).cells@.len() == t.cols
    &&& narrow_from(t.buffer.row(t.cursor.row as int).cells@, t.cursor.col as int)
    &&& t.cursor.col + d.len() <= t.cols
}

/// Printing the characters of the printable cells `q` one after the other
/// draws them at the cursor.
proof fn lemma_draw_chain(ts: Seq<Terminal>, q: Seq<Cell>)
    requires
        ts.len() == q.len() + 1,
        forall|i: int| 0 <= i < q.len() ==> #[trigger] ts[i].printed(&ts[i + 1], q[i].ch),
        forall|i: int| 0 <= i < q.len() ==> printable(#[trigger] q[i], ts[0].pen),
        ready_for(ts[0], drawn_all(q)),
    ensures
        row_drawn(ts[0], ts.last(), spliced(ts[0].buffer.row(ts[0].cursor.row as int).cells@,
            ts[0].cursor.col as int, drawn_all(q)), ts[0].cursor.col + drawn_all(q).len()),
    decreases q.len(),
{
    let t0 = ts[0];
    let s0 = t0.buffer.row(t0.cursor.row as int).cells@;
    let c0 = t0.cursor.col as int;
    let n = q.len() as int;
    if n == 0 {
        assert(drawn_all(q) =~= Seq::<Cell>::empty());
        assert(spliced(s0, c0, drawn_all(q)) =~= s0);
        assert(t0.buffer.same_but(&t0.buffer, t0.buffer.top() + t0.cursor.row));
    } else {
        let ts1 = ts.drop_last();
        let q1 = q.drop_last();
        lemma_drawn_all_push(q);
        let d1 = drawn_all(q1);
        let x = q.last();
        assert forall|i: int| 0 <= i < q1.len() implies #[trigger] ts1[i].printed(&ts1[i + 1], q1[i].ch) by {
            assert(ts[i].printed(&ts[i + 1], q[i].ch));
        }
        assert forall|i: int| 0 <= i < q1.len() implies printable(#[trigger] q1[i], ts1[0].pen) by {
            assert(printable(q[i], t0.pen));
        }
        assert(narrow_from(s0, c0));
        lemma_draw_chain(ts1, q1);
        let tm = ts[n - 1];
        assert(ts1.last() == tm);
        let s1 = spliced(s0, c0, d1);
        lemma_splice_more(s0, c0, d1, drawn(x));
        assert(tm.buffer.row(tm.cursor.row as int).cells@ == s1);
        assert(narrow_from(s1, c0 + d1.len())) by {
            assert forall|j: int| c0 + d1.len() <= j < s1.len() implies (#[trigger] s1[j]).occupancy == Occupancy::Single by {
                assert(s1[j] == s0[j]);
            }
        }
        assert(printable(x, tm.pen)) by {
            assert(printable(q[n - 1], t0.pen));
        }
        assert(tm.printed(&ts[n], x.ch));
        lemma_print_step(tm, ts[n], x);
        lemma_row_drawn_trans(t0, tm, ts[n], s1, c0 + d1.len(), spliced(s1, c0 + d1.len(), drawn(x)),
            c0 + d1.len() + drawn(x).len());
        assert(ts.last() == ts[n]);
    }
}

proof fn lemma_lead(s: Seq<char>, c: char)
    ensures
        lead(s, c) <= s.len(),
        forall|i: int| 0 <= i < lead(s, c) ==> #[trigger] s[i] == c,
        s.len() > 0 && s[0] == c ==> lead(s, c) >= 1,
    decreases s.len(),
{
    if s.len() > 0 && s[0] == c {
        lemma_lead(s.drop_first(), c);
        assert forall|i: int| 0 <= i < lead(s, c) implies #[trigger] s[i] == c by {
            if i > 0 {
                assert(s[i] == s.drop_first()[i - 1]);
            }
        }
    }
}

/// After drawing, the terminal is ready for what fits after it.
proof fn lemma_still_ready(t0: Terminal, t1: Terminal, d: Seq<Cell>, e: Seq<Cell>)
    requires
        ready_for(t0, d + e),
        row_drawn(t0, t1, spliced(t0.buffer.row(t0.cursor.row as int).cells@, t0.cursor.col as int, d),
            t0.cursor.col + d.len()),
    ensures
        ready_for(t1, e),
        t1.pen == t0.pen,
        t1.cols == t0.cols,
{
    let s0 = t0.buffer.row(t0.cursor.row as int).cells@;
    let c0 = t0.cursor.col as int;
    let s1 = spliced(s0, c0, d);
    assert(s1.len() == s0.len());
    assert forall|j: int| c0 + d.len() <= j < s1.len() implies (#[trigger] s1[j]).occupancy == Occupancy::Single by {
        assert(s1[j] == s0[j]);
        assert(s0[j].occupancy == Occupancy::Single);
    }
}

/// A run of more than 5 equal printable cells, printed once and repeated,
/// is drawn at the cursor.
#[verifier::rlimit(40)]
proof fn lemma_long_group(t0: Terminal, t1: Terminal, t2: Terminal, qk: Seq<Cell>, c: char)
    requires
        qk.len() > 5,
        qk.len() - 1 <= u16::MAX,
        t0.executed(&t1, Function::Print(c)),
        t1.executed(&t2, Function::Rep((qk.len() - 1) as u16)),
        forall|i: int| 0 <= i < qk.len() ==> printable(#[trigger] qk[i], t0.pen),
        forall|i: int| 0 <= i < qk.len() ==> #[trigger] qk[i].ch == c,
        ready_for(t0, drawn_all(qk)),
    ensures
        row_drawn(t0, t2, spliced(t0.buffer.row(t0.cursor.row as int).cells@, t0.cursor.col as int, drawn_all(qk)),
            t0.cursor.col + drawn_all(qk).len()),
{
    let s0 = t0.buffer.row(t0.cursor.row as int).cells@;
    let c0 = t0.cursor.col as int;
    let k = qk.len() as int;
    let x = qk[0];
    assert(x.ch == c);
    lemma_drawn_all_split(qk, 1);
    assert(qk.take(1) =~= seq![x]);
    assert(drawn_all(seq![x]) =~= drawn(x)) by {
        assert(seq![x].drop_first() =~= Seq::<Cell>::empty());
    }
    lemma_drawn_len(qk.skip(1));
    assert(printable(x, t0.pen));
    lemma_print_step(t0, t1, x);
    let cells1 = t1.buffer.row(t1.cursor.row as int).cells@;
    let col1 = t1.cursor.col as int;
    assert(cells1 == spliced(s0, c0, drawn(x)));
    assert(col1 >= 1);
    assert(cells1[rep_col(cells1, col1 - 1)].ch == c) by {
        reveal_with_fuel(rep_col, 2);
        if x.occupancy == Occupancy::WideHead {
            assert(cells1[col1 - 1].occupancy == Occupancy::WideTail);
            assert(cells1[c0] == x);
        } else {
            assert(cells1[col1 - 1] == x);
        }
    }
    assert(param_or((k - 1) as u16, 1) == k - 1);
    let n = (k - 1) as nat;
    assert(t1.repeated(&t2, n));
    let ch1 = cells1[rep_col(cells1, col1 - 1)].ch;
    let rs = choose|rs: Seq<Terminal>| {
        &&& rs.len() == n + 1
        &&& rs[0] == t1
        &&& #[trigger] rs[n as int] == t2
        &&& forall|i: int| 0 <= i < n ==> #[trigger] rs[i].printed(&rs[i + 1], ch1)
    };
    assert(ch1 == c);
    let us = seq![t0] + rs;
    assert(us.len() == qk.len() + 1);
    assert forall|i: int| 0 <= i < qk.len() implies #[trigger] us[i].printed(&us[i + 1], qk[i].ch) by {
        if i == 0 {
            assert(us[0] == t0);
            assert(us[1] == rs[0]);
        } else {
            assert(us[i] == rs[i - 1]);
            assert(us[i + 1] == rs[i]);
            assert(rs[i - 1].printed(&rs[(i - 1) + 1], ch1));
        }
    }
    assert(us[0] == t0);
    lemma_draw_chain(us, qk);
    assert(us.last() == rs[n as int]);
}

/// Executing the functions that print the characters of the cells `q`, as
/// `dump_cells` writes them (a run of more than 5 equal ones printed once
/// and repeated), where each
/// cell is as printing its character in the pen makes it, from the cursor
/// of a terminal that prints characters as they are (auto-wrap, no insert
/// mode, the ASCII charset), on a row whose cells from the cursor on are
/// narrow and leave room for them: the cells are drawn there, each wide
/// one followed by its tail; the cursor ends right after them, on the same
/// row; the other cells and rows, and all but the changed-row marks, stay.
#[verifier::rlimit(40)]
pub proof fn lemma_print_runs_draw(ts: Seq<Terminal>, q: Seq<Cell>)
    requires
        ts.len() == print_runs(chars_of(q)).len() + 1,
        forall|i: int| 0 <= i < print_runs(chars_of(q)).len()
            ==> #[trigger] ts[i].executed(&ts[i + 1], print_runs(chars_of(q))[i]),
        forall|i: int| 0 <= i < q.len() ==> printable(#[trigger] q[i], ts[0].pen),
        ready_for(ts[0], drawn_all(q)),
        ts[0].cols <= u16::MAX,
    ensures
        row_drawn(ts[0], ts.last(), spliced(ts[0].buffer.row(ts[0].cursor.row as int).cells@,
            ts[0].cursor.col as int, drawn_all(q)), ts[0].cursor.col + drawn_all(q).len()),
    decreases q.len(),
{
    let t0 = ts[0];
    let s0 = t0.buffer.row(t0.cursor.row as int).cells@;
    let c0 = t0.cursor.col as int;
    let chars = chars_of(q);
    if q.len() == 0 {
        assert(chars =~= Seq::<char>::empty());
        assert(print_runs(chars).len() == 0);
        lemma_draw_chain(ts, q);
    } else {
        let c = chars[0];
        let k = lead(chars, c) as int;
        lemma_lead(chars, c);
        let rest = q.skip(k);
        assert(chars.skip(k) =~= chars_of(rest));
        let h: Seq<Function> = if k > 5 {
            seq![Function::Print(c), Function::Rep((k - 1) as u16)]
        } else {
            Seq::new(k as nat, |i: int| Function::Print(c))
        };
        let fs = print_runs(chars);
        assert(fs == h + print_runs(chars_of(rest)));
        let m = h.len() as int;
        let qk = q.take(k);
        lemma_drawn_all_split(q, k);
        lemma_drawn_len(q);
        assert(ready_for(t0, drawn_all(qk) + drawn_all(rest)));
        assert(ready_for(t0, drawn_all(qk))) by {
            lemma_drawn_len(rest);
        }
        assert forall|i: int| 0 <= i < qk.len() implies printable(#[trigger] qk[i], t0.pen) by {
            assert(printable(q[i], t0.pen));
        }
        assert forall|i: int| 0 <= i < qk.len() implies #[trigger] qk[i].ch == c by {
            assert(chars[i] == c);
        }
        assert(fs.len() >= m);
        if k <= 5 {
            let us = ts.take(m + 1);
            assert forall|i: int| 0 <= i < qk.len() implies #[trigger] us[i].printed(&us[i + 1], qk[i].ch) by {
                assert(fs[i] == h[i]);
                assert(ts[i].executed(&ts[i + 1], fs[i]));
            }
            lemma_draw_chain(us, qk);
            assert(us.last() == ts[m]);
        } else {
            assert(fs[0] == Function::Print(c));
            assert(fs[1] == Function::Rep((k - 1) as u16));
            assert(0 <= 1 < fs.len());
            assert(ts[0].executed(&ts[0int + 1], fs[0]));
            assert(ts[1].executed(&ts[1int + 1], fs[1]));
            lemma_long_group(t0, ts[1], ts[2], qk, c);
        }
        let tm = ts[m];
        lemma_still_ready(t0, tm, drawn_all(qk), drawn_all(rest));
        let ts2 = ts.skip(m);
        assert(ts2[0] == tm);
        assert forall|i: int| 0 <= i < print_runs(chars_of(rest)).len()
            implies #[trigger] ts2[i].executed(&ts2[i + 1], print_runs(chars_of(rest))[i]) by {
            assert(fs[m + i] == print_runs(chars_of(rest))[i]);
            assert(ts[m + i].executed(&ts[m + i + 1], fs[m + i]));
        }
        assert forall|i: int| 0 <= i < rest.len() implies printable(#[trigger] rest[i], ts2[0].pen) by {
            assert(printable(q[k + i], t0.pen));
        }
        lemma_print_runs_draw(ts2, rest);
        assert(ts2.last() == ts.last());
        let s1 = spliced(s0, c0, drawn_all(qk));
        lemma_splice_more(s0, c0, drawn_all(qk), drawn_all(rest));
        lemma_row_drawn_trans(t0, tm, ts.last(), s1, c0 + drawn_all(qk).len(),
            spliced(s1, c0 + drawn_all(qk).len(), drawn_all(rest)), c0 + drawn_all(qk).len() + drawn_all(rest).len());
    }
}

} // verus!
