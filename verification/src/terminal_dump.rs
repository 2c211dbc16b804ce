use crate::buffer::Buffer;
use crate::cell::Cell;
use crate::cell::Occupancy;
use crate::dump::{ansi_mode_param, csi, dec_mode_param, encode, encode_all, esc, sgr_text};
use crate::tabs::default_stops;
use crate::text::decimal;
use crate::line::{joined_cells, kept_together, split_before, visible_cells, Line};
use crate::charset::Charset;
use crate::function::{AnsiMode, CtcOp, DecMode, Function, SgrOp, SgrOps};
use crate::pen::{Intensity, Pen};
use crate::saved_ctx::SavedCtx;
use crate::tabs::Tabs;
use crate::terminal::{sgr_apply_all, BufferType, CursorKeysMode, Terminal};
use crate::pen_restore::{lemma_sgr_diff_restore, lemma_sgr_ops_restore, pen_ok};
use vstd::prelude::*;

verus! {

/// The change to a flag attribute from `from` to `to`, if any.
pub open spec fn attr_diff(from: bool, to: bool, set: SgrOp, reset: SgrOp) -> Seq<SgrOp> {
    if from != to { seq![if to { set } else { reset }] } else { Seq::empty() }
}

/// `op` when `b` holds.
pub open spec fn op_if(b: bool, op: SgrOp) -> Seq<SgrOp> {
    if b { seq![op] } else { Seq::empty() }
}

/// The colors and the intensity part of `sgr_ops_of`.
pub open spec fn sgr_color_ops(pen: Pen) -> Seq<SgrOp> {
    seq![SgrOp::Reset]
        + (match pen.foreground { Some(c) => seq![SgrOp::SetForegroundColor(c)], None => Seq::empty() })
        + (match pen.background { Some(c) => seq![SgrOp::SetBackgroundColor(c)], None => Seq::empty() })
        + (match pen.intensity {
            Intensity::Normal => Seq::empty(),
            Intensity::Bold => seq![SgrOp::SetBoldIntensity],
            Intensity::Faint => seq![SgrOp::SetFaintIntensity],
        })
}

/// The graphic rendition changes that turn the default pen into `pen`,
/// starting with a reset.
pub open spec fn sgr_ops_of(pen: Pen) -> Seq<SgrOp> {
    sgr_color_ops(pen)
        + op_if(pen.spec_italic(), SgrOp::SetItalic)
        + op_if(pen.spec_underline(), SgrOp::SetUnderline)
        + op_if(pen.spec_blink(), SgrOp::SetBlink)
        + op_if(pen.spec_inverse(), SgrOp::SetInverse)
        + op_if(pen.spec_strikethrough(), SgrOp::SetStrikethrough)
}

/// The intensity and color part of `sgr_diff_ops`.
pub open spec fn sgr_color_diff(from: Pen, to: Pen) -> Seq<SgrOp> {
    op_if(from.intensity != to.intensity, match to.intensity {
        Intensity::Normal => SgrOp::ResetIntensity,
        Intensity::Bold => SgrOp::SetBoldIntensity,
        Intensity::Faint => SgrOp::SetFaintIntensity,
    })
        + op_if(from.foreground != to.foreground,
            match to.foreground { Some(c) => SgrOp::SetForegroundColor(c), None => SgrOp::ResetForegroundColor })
        + op_if(from.background != to.background,
            match to.background { Some(c) => SgrOp::SetBackgroundColor(c), None => SgrOp::ResetBackgroundColor })
}

/// The graphic rendition changes that turn `from` into `to` one attribute
/// at a time.
pub open spec fn sgr_diff_ops(from: Pen, to: Pen) -> Seq<SgrOp> {
    sgr_color_diff(from, to)
        + attr_diff(from.spec_italic(), to.spec_italic(), SgrOp::SetItalic, SgrOp::ResetItalic)
        + attr_diff(from.spec_underline(), to.spec_underline(), SgrOp::SetUnderline, SgrOp::ResetUnderline)
        + attr_diff(from.spec_blink(), to.spec_blink(), SgrOp::SetBlink, SgrOp::ResetBlink)
        + attr_diff(from.spec_inverse(), to.spec_inverse(), SgrOp::SetInverse, SgrOp::ResetInverse)
        + attr_diff(from.spec_strikethrough(), to.spec_strikethrough(), SgrOp::SetStrikethrough, SgrOp::ResetStrikethrough)
}

/// The number of characters at the start of `s` equal to `c`.
pub open spec fn lead(s: Seq<char>, c: char) -> nat
    decreases s.len(),
{
    if s.len() > 0 && s[0] == c { 1 + lead(s.drop_first(), c) } else { 0 }
}

/// The functions that print `s`: a run of more than 5 equal characters is
/// printed once and repeated.
pub open spec fn print_runs(s: Seq<char>) -> Seq<Function>
    decreases s.len(),
{
    if s.len() == 0 {
        Seq::empty()
    } else {
        let k = lead(s, s[0]);
        if k == 0 || k > s.len() {
            Seq::empty()
        } else {
            (if k > 5 {
                seq![Function::Print(s[0]), Function::Rep((k - 1) as u16)]
            } else {
                Seq::new(k, |i: int| Function::Print(s[0]))
            }) + print_runs(s.skip(k as int))
        }
    }
}

/// The value of a dump parameter.
pub fn as_u16(value: usize) -> (n: u16)
    requires
        value <= u16::MAX,
    ensures
        n == value,
{
    value as u16
}

fn push_attr_diff(ops: &mut SgrOps, from: bool, to: bool, set: SgrOp, reset: SgrOp)
    ensures
        final(ops)@ == old(ops)@ + attr_diff(from, to, set, reset),
{
    if from != to {
        ops.push(if to { set } else { reset });
    }
    assert(ops@ =~= old(ops)@ + attr_diff(from, to, set, reset));
}

/// The graphic rendition changes that turn the default pen into `pen`.
pub fn to_sgr_ops(pen: &Pen) -> (ops: SgrOps)
    ensures
        ops@ == sgr_ops_of(*pen),
{
    let mut ops = SgrOps::new();
    ops.push(SgrOp::Reset);
    match pen.foreground() {
        Some(c) => ops.push(SgrOp::SetForegroundColor(c)),
        None => {},
    }
    match pen.background() {
        Some(c) => ops.push(SgrOp::SetBackgroundColor(c)),
        None => {},
    }
    match pen.intensity {
        Intensity::Normal => {},
        Intensity::Bold => ops.push(SgrOp::SetBoldIntensity),
        Intensity::Faint => ops.push(SgrOp::SetFaintIntensity),
    }
    assert(ops@ =~= sgr_color_ops(*pen));
    push_op_if(&mut ops, pen.is_italic(), SgrOp::SetItalic);
    push_op_if(&mut ops, pen.is_underline(), SgrOp::SetUnderline);
    push_op_if(&mut ops, pen.is_blink(), SgrOp::SetBlink);
    push_op_if(&mut ops, pen.is_inverse(), SgrOp::SetInverse);
    push_op_if(&mut ops, pen.is_strikethrough(), SgrOp::SetStrikethrough);
    ops
}

fn push_op_if(ops: &mut SgrOps, b: bool, op: SgrOp)
    ensures
        final(ops)@ == old(ops)@ + op_if(b, op),
{
    if b {
        ops.push(op);
    }
    assert(ops@ =~= old(ops)@ + op_if(b, op));
}

/// The function that sets the pen `pen`.
pub fn to_sgr(pen: &Pen) -> (f: Function)
    ensures
        f matches Function::Sgr(ops) && ops@ == sgr_ops_of(*pen),
{
    Function::Sgr(to_sgr_ops(pen))
}

/// The graphic rendition changes that turn `from` into `to` one attribute
/// at a time.
pub fn to_sgr_diff_ops(from: &Pen, to: &Pen) -> (ops: SgrOps)
    ensures
        ops@ == sgr_diff_ops(*from, *to),
        ops@.len() == crate::sgr_shape::parts_differing(*from, *to),
        crate::sgr_shape::no_reset(ops@),
{
    proof { crate::sgr_shape::lemma_sgr_diff_shape(*from, *to); }
    let mut ops = SgrOps::new();
    if from.intensity != to.intensity {
        match to.intensity {
            Intensity::Normal => ops.push(SgrOp::ResetIntensity),
            Intensity::Bold => ops.push(SgrOp::SetBoldIntensity),
            Intensity::Faint => ops.push(SgrOp::SetFaintIntensity),
        }
    }
    if from.foreground() != to.foreground() {
        match to.foreground() {
            Some(c) => ops.push(SgrOp::SetForegroundColor(c)),
            None => ops.push(SgrOp::ResetForegroundColor),
        }
    }
    if from.background() != to.background() {
        match to.background() {
            Some(c) => ops.push(SgrOp::SetBackgroundColor(c)),
            None => ops.push(SgrOp::ResetBackgroundColor),
        }
    }
    assert(ops@ =~= sgr_color_diff(*from, *to));
    push_attr_diff(&mut ops, from.is_italic(), to.is_italic(), SgrOp::SetItalic, SgrOp::ResetItalic);
    push_attr_diff(&mut ops, from.is_underline(), to.is_underline(), SgrOp::SetUnderline, SgrOp::ResetUnderline);
    push_attr_diff(&mut ops, from.is_blink(), to.is_blink(), SgrOp::SetBlink, SgrOp::ResetBlink);
    push_attr_diff(&mut ops, from.is_inverse(), to.is_inverse(), SgrOp::SetInverse, SgrOp::ResetInverse);
    push_attr_diff(&mut ops, from.is_strikethrough(), to.is_strikethrough(), SgrOp::SetStrikethrough, SgrOp::ResetStrikethrough);
    ops
}

/// The function that changes the pen from `from` to `to` with the fewest
/// changes (one attribute at a time, or from a reset), if they differ.
pub fn to_sgr_diff(from: &Pen, to: &Pen) -> (f: Option<Function>)
    ensures
        *from == *to ==> f is None,
        *from != *to ==> (f matches Some(Function::Sgr(ops)) && ops@ == if sgr_diff_ops(*from, *to).len() <= sgr_ops_of(*to).len() {
            sgr_diff_ops(*from, *to)
        } else {
            sgr_ops_of(*to)
        }),
        pen_ok(*from) && pen_ok(*to) && *from != *to
            ==> (f matches Some(Function::Sgr(ops)) && sgr_apply_all(*from, ops@) == *to),
{
    if *from == *to {
        return None;
    }
    let full = to_sgr_ops(to);
    let diff = to_sgr_diff_ops(from, to);
    proof {
        if pen_ok(*from) && pen_ok(*to) {
            lemma_sgr_ops_restore(*to, *from);
            lemma_sgr_diff_restore(*from, *to);
        }
    }
    let ops = if diff.len() <= full.len() { diff } else { full };
    Some(Function::Sgr(ops))
}

/// Appends the functions that print `cells`: a run of more than 5 equal
/// characters is printed once and repeated.
pub fn dump_cells(cells: &[Cell], funs: &mut Vec<Function>)
    requires
        cells@.len() <= u16::MAX + 1,
    ensures
        final(funs)@ == old(funs)@ + print_runs(cells@.map_values(|c: Cell| c.ch)),
{
    let ghost chars = cells@.map_values(|c: Cell| c.ch);
    let mut i: usize = 0;
    assert(chars.skip(0) =~= chars);
    while i < cells.len()
        invariant
            i <= cells@.len() <= u16::MAX + 1,
            chars == cells@.map_values(|c: Cell| c.ch),
            old(funs)@ + print_runs(chars) == funs@ + print_runs(chars.skip(i as int)),
        decreases cells@.len() - i,
    {
        let ch = cells[i].ch;
        let mut run_len: usize = 1;
        while i + run_len < cells.len() && cells[i + run_len].ch == ch
            invariant
                i < cells@.len() <= u16::MAX + 1,
                1 <= run_len <= cells@.len() - i,
                i + run_len <= cells@.len(),
                chars == cells@.map_values(|c: Cell| c.ch),
                ch == chars[i as int],
                forall|j: int| i <= j < i + run_len ==> #[trigger] chars[j] == ch,
            decreases cells@.len() - i - run_len,
        {
            run_len += 1;
        }
        proof {
            lemma_lead(chars.skip(i as int), ch, run_len as int);
            assert(chars.skip(i as int).skip(run_len as int) =~= chars.skip(i + run_len));
        }
        let ghost before = funs@;
        if run_len > 5 {
            funs.push(Function::Print(ch));
            funs.push(Function::Rep(as_u16(run_len - 1)));
            assert(funs@ =~= before + seq![Function::Print(ch), Function::Rep((run_len - 1) as u16)]);
        } else {
            let mut k: usize = 0;
            while k < run_len
                invariant
                    k <= run_len,
                    funs@ == before + Seq::new(k as nat, |j: int| Function::Print(ch)),
                decreases run_len - k,
            {
                funs.push(Function::Print(ch));
                k += 1;
                assert(funs@ =~= before + Seq::new(k as nat, |j: int| Function::Print(ch)));
            }
        }
        i += run_len;
    }
    assert(chars.skip(i as int) =~= Seq::<char>::empty());
    assert(funs@ =~= old(funs)@ + print_runs(chars));
}

/// `s` starts with `k` characters equal to `c`, and no more.
proof fn lemma_lead(s: Seq<char>, c: char, k: int)
    requires
        0 < k <= s.len(),
        s[0] == c,
        forall|j: int| 0 <= j < k ==> #[trigger] s[j] == c,
        k == s.len() || s[k] != c,
    ensures
        lead(s, c) == k,
    decreases k,
{
    if k > 1 {
        lemma_lead(s.drop_first(), c, k - 1);
    } else {
        if s.len() > 1 {
            assert(s.drop_first()[0] == s[1]);
        }
        assert(lead(s.drop_first(), c) == 0);
    }
}

/// The text of each of `funs`.
pub open spec fn texts(funs: Seq<Function>) -> Seq<Seq<char>> {
    funs.map_values(|f: Function| encode(f))
}

/// The texts `ts`, one after the other.
pub open spec fn concat(ts: Seq<Seq<char>>) -> Seq<char>
    decreases ts.len(),
{
    if ts.len() == 0 {
        Seq::empty()
    } else {
        concat(ts.drop_last()) + ts.last()
    }
}

/// The input of a sequence of functions is their texts one after the other.
pub proof fn lemma_encode_all(funs: Seq<Function>)
    ensures
        encode_all(funs) == concat(texts(funs)),
    decreases funs.len(),
{
    if funs.len() > 0 {
        lemma_encode_all(funs.drop_last());
        assert(texts(funs).drop_last() =~= texts(funs.drop_last()));
    }
}

/// Appends `f`.
fn push_fun(funs: &mut Vec<Function>, f: Function)
    ensures
        final(funs)@ == old(funs)@.push(f),
        texts(final(funs)@) == texts(old(funs)@).push(encode(f)),
{
    let ghost g = f;
    funs.push(f);
    assert(texts(funs@) =~= texts(old(funs)@).push(encode(g)));
}

/// The number of cells at the start of `s` drawn in `pen`.
pub open spec fn pen_run(s: Seq<Cell>, pen: Pen) -> nat
    decreases s.len(),
{
    if s.len() > 0 && s[0].pen == pen { 1 + pen_run(s.drop_first(), pen) } else { 0 }
}

/// The characters of the cells `s`.
pub open spec fn cell_chars(s: Seq<Cell>) -> Seq<char> {
    s.map_values(|c: Cell| c.ch)
}

/// The text that changes the pen `from` to `to`, as `to_sgr_diff` picks
/// it; nothing when they are equal.
pub open spec fn pen_change(from: Pen, to: Pen) -> Seq<Seq<char>> {
    if from == to {
        Seq::empty()
    } else {
        seq![sgr_text(if sgr_diff_ops(from, to).len() <= sgr_ops_of(to).len() { sgr_diff_ops(from, to) } else { sgr_ops_of(to) })]
    }
}

/// The texts that draw the cells `s` starting in the pen `pen`: for each
/// run of cells of one pen, the pen change it needs, then its characters.
pub open spec fn row_texts(s: Seq<Cell>, pen: Pen) -> Seq<Seq<char>>
    decreases s.len(),
{
    if s.len() == 0 {
        Seq::empty()
    } else {
        let k = pen_run(s, s[0].pen);
        if k == 0 || k > s.len() {
            Seq::empty()
        } else {
            pen_change(pen, s[0].pen) + texts(print_runs(cell_chars(s.take(k as int))))
                + row_texts(s.skip(k as int), s[0].pen)
        }
    }
}

/// The pen after drawing the cells `s` starting in `pen`.
pub open spec fn end_pen(s: Seq<Cell>, pen: Pen) -> Pen {
    if s.len() == 0 { pen } else { s.last().pen }
}

/// Whether every cell of `line` is default.
pub open spec fn blank_line(line: Line) -> bool {
    forall|i: int| 0 <= i < line.cells@.len() ==> #[trigger] line.cells@[i].spec_is_default()
}

/// The number of rows of `view` a dump draws: up to the last row that
/// is wrapped, not blank, or continues the row above.
pub open spec fn kept_rows(view: Seq<Line>) -> nat
    decreases view.len(),
{
    if view.len() == 0 {
        0
    } else if view.last().wrapped || !blank_line(view.last()) || (view.len() > 1 && view[view.len() - 2].wrapped) {
        view.len()
    } else {
        kept_rows(view.drop_last())
    }
}

/// The texts that draw the rows `lines`, the first of them numbered `row`
/// of a view whose last row is `last`, starting in the pen `pen`: each row,
/// then a new line unless it is the last one or continues on the next.
pub open spec fn lines_texts(lines: Seq<Line>, row: int, last: int, pen: Pen) -> Seq<Seq<char>>
    decreases lines.len(),
{
    if lines.len() == 0 {
        Seq::empty()
    } else {
        let cells = visible_cells(lines[0].cells@);
        row_texts(cells, pen)
            + (if row < last && !lines[0].wrapped { seq![seq!['\r'], seq!['\n']] } else { Seq::empty() })
            + lines_texts(lines.drop_first(), row + 1, last, end_pen(cells, pen))
    }
}

/// The texts that draw the view of `b` from the top left corner in the
/// default pen.
pub open spec fn buffer_texts(b: Buffer) -> Seq<Seq<char>> {
    let view = b.lines@.subrange(b.top(), b.lines@.len() as int);
    lines_texts(view.take(kept_rows(view) as int), 0, b.rows - 1, Pen::spec_default())
}

/// A run of cells all drawn in `pen` and followed by none in it is the
/// whole pen run.
proof fn lemma_pen_run(a: Seq<Cell>, b: Seq<Cell>, pen: Pen)
    requires
        forall|i: int| 0 <= i < a.len() ==> #[trigger] a[i].pen == pen,
        b.len() > 0 ==> b[0].pen != pen,
    ensures
        pen_run(a + b, pen) == a.len(),
    decreases a.len(),
{
    if a.len() > 0 {
        lemma_pen_run(a.drop_first(), b, pen);
        assert((a + b).drop_first() =~= a.drop_first() + b);
    } else {
        assert(a + b =~= b);
    }
}

/// The groups `gs` joined are the first group, then the others joined.
proof fn lemma_joined_first(gs: Seq<Vec<Cell>>)
    requires
        gs.len() > 0,
    ensures
        joined_cells(gs) == gs[0]@ + joined_cells(gs.drop_first()),
    decreases gs.len(),
{
    if gs.len() > 1 {
        lemma_joined_first(gs.drop_last());
        assert(gs.drop_last().drop_first() =~= gs.drop_first().drop_last());
        assert(gs.drop_first().last() == gs.last());
        assert(gs.drop_last()[0] == gs[0]);
        assert(joined_cells(gs) =~= gs[0]@ + joined_cells(gs.drop_first()));
    } else {
        assert(joined_cells(gs.drop_first()) == Seq::<Cell>::empty());
        assert(joined_cells(gs.drop_last()) == Seq::<Cell>::empty());
        assert(gs.last() == gs[0]);
        assert(joined_cells(gs) =~= gs[0]@ + joined_cells(gs.drop_first()));
    }
}

/// Drawing a run of cells of one pen, followed by cells of another pen.
proof fn lemma_row_group(a: Seq<Cell>, b: Seq<Cell>, pen: Pen)
    requires
        a.len() > 0,
        forall|i: int| 0 <= i < a.len() ==> #[trigger] a[i].pen == a[0].pen,
        b.len() > 0 ==> b[0].pen != a[0].pen,
    ensures
        row_texts(a + b, pen) == pen_change(pen, a[0].pen) + texts(print_runs(cell_chars(a))) + row_texts(b, a[0].pen),
        end_pen(a + b, pen) == end_pen(b, a[0].pen),
{
    lemma_pen_run(a, b, a[0].pen);
    assert((a + b).take(a.len() as int) =~= a);
    assert((a + b).skip(a.len() as int) =~= b);
    assert((a + b)[0] == a[0]);
    if b.len() > 0 {
        assert((a + b).last() == b.last());
    } else {
        assert((a + b).last() == a.last());
        assert(a[a.len() - 1].pen == a[0].pen);
    }
}

/// No group is longer than all of them together.
proof fn lemma_group_len(gs: Seq<Vec<Cell>>, g: int)
    requires
        0 <= g < gs.len(),
    ensures
        gs[g]@.len() <= crate::line::joined_cells(gs).len(),
    decreases gs.len(),
{
    if g < gs.len() - 1 {
        lemma_group_len(gs.drop_last(), g);
        assert(gs.drop_last()[g] == gs[g]);
    }
}

/// A row shows at most as many cells as it has.
proof fn lemma_visible_len(s: Seq<Cell>)
    ensures
        crate::line::visible_cells(s).len() <= s.len(),
    decreases s.len(),
{
    if s.len() > 0 {
        lemma_visible_len(s.drop_last());
    }
}

/// All cells of a group have the first one's pen, when no two
/// neighbours were told apart by their pens.
proof fn lemma_group_pen(a: Seq<Cell>)
    requires
        a.len() > 0,
        forall|k: int| 0 < k < a.len() ==> #[trigger] kept_together(pens_differ, a, k),
    ensures
        forall|i: int| 0 <= i < a.len() ==> #[trigger] a[i].pen == a[0].pen,
    decreases a.len(),
{
    if a.len() > 1 {
        let b = a.drop_last();
        assert forall|k: int| 0 < k < b.len() implies #[trigger] kept_together(pens_differ, b, k) by {
            assert(b[k - 1] == a[k - 1] && b[k] == a[k]);
            assert(kept_together(pens_differ, a, k));
        }
        lemma_group_pen(b);
        let n = a.len() - 1;
        assert(kept_together(pens_differ, a, n));
        assert(a[n].pen == a[n - 1].pen);
        assert(b[n - 1] == a[n - 1]);
        assert forall|i: int| 0 <= i < a.len() implies #[trigger] a[i].pen == a[0].pen by {
            if i < n {
                assert(b[i] == a[i]);
            }
        }
    }
}

/// The groups `gs` are the runs of one pen of their cells: none is empty,
/// the cells of each have one pen, and each group's pen differs from the
/// one before.
#[verifier::opaque]
pub open spec fn pen_groups(gs: Seq<Vec<Cell>>) -> bool {
    &&& forall|k: int| 0 <= k < gs.len() ==> (#[trigger] gs[k])@.len() > 0
    &&& forall|k: int, i: int| 0 <= k < gs.len() && 0 <= i < gs[k]@.len() ==> #[trigger] gs[k]@[i].pen == gs[k]@[0].pen
    &&& forall|k: int| 0 < k < gs.len() ==> #[trigger] new_pen_at(gs, k)
}

/// Group `k` of `gs` starts in another pen than group `k - 1`.
pub open spec fn new_pen_at(gs: Seq<Vec<Cell>>, k: int) -> bool {
    gs[k]@[0].pen != gs[k - 1]@[0].pen
}

/// Drawing the cells of the groups from `g` on is drawing group `g`, then
/// those after it.
proof fn lemma_row_step(gs: Seq<Vec<Cell>>, g: int, pen: Pen)
    requires
        pen_groups(gs),
        0 <= g < gs.len(),
    ensures
        gs[g]@.len() > 0,
        row_texts(joined_cells(gs.skip(g)), pen) == pen_change(pen, gs[g]@[0].pen)
            + texts(print_runs(cell_chars(gs[g]@))) + row_texts(joined_cells(gs.skip(g + 1)), gs[g]@[0].pen),
        end_pen(joined_cells(gs.skip(g)), pen) == end_pen(joined_cells(gs.skip(g + 1)), gs[g]@[0].pen),
{
    let rest = gs.skip(g + 1);
    let a = gs[g]@;
    let b = joined_cells(rest);
    assert(a.len() > 0 && (forall|i: int| 0 <= i < a.len() ==> #[trigger] a[i].pen == a[0].pen)) by {
        reveal(pen_groups);
    }
    assert(b.len() > 0 ==> b[0].pen != a[0].pen) by {
        if rest.len() > 0 {
            lemma_joined_first(rest);
            assert(rest[0] == gs[g + 1]);
            reveal(pen_groups);
            assert(gs[g + 1]@.len() > 0);
            assert(new_pen_at(gs, g + 1));
        }
    }
    assert(joined_cells(gs.skip(g)) == a + b) by {
        lemma_joined_first(gs.skip(g));
        assert(gs.skip(g).drop_first() =~= rest);
        assert(gs.skip(g)[0] == gs[g]);
    }
    lemma_row_group(a, b, pen);
}

/// Whether two cells are drawn in different pens.
fn pens_differ(c1: &Cell, c2: &Cell) -> (b: bool)
    ensures
        b == (c1.pen != c2.pen),
{
    c1.pen != c2.pen
}

/// The cells `line` shows, in runs of one pen.
fn pen_chunks(line: &Line) -> (groups: Vec<Vec<Cell>>)
    ensures
        pen_groups(groups@),
        joined_cells(groups@) == visible_cells(line.cells@),
{
    let groups = line.chunks(pens_differ);
    assert(pen_groups(groups@)) by {
        reveal(pen_groups);
        assert forall|k: int, i: int| 0 <= k < groups@.len() && 0 <= i < groups@[k]@.len()
            implies #[trigger] groups@[k]@[i].pen == groups@[k]@[0].pen by {
            lemma_group_pen(groups@[k]@);
        }
        assert forall|k: int| 0 < k < groups@.len() implies #[trigger] new_pen_at(groups@, k) by {
            assert(split_before(pens_differ, groups@, k));
            let prev = groups@[k - 1]@;
            lemma_group_pen(prev);
            assert(prev[prev.len() - 1].pen == prev[0].pen);
        }
    }
    groups
}

/// Appends the functions that draw `line` starting in the pen `*pen`,
/// which ends as the pen of the last cell drawn.
#[verifier::spinoff_prover]
#[verifier::rlimit(60)]
fn dump_row(line: &Line, pen: &mut Pen, funs: &mut Vec<Function>)
    requires
        line.cells@.len() <= u16::MAX + 1,
    ensures
        texts(final(funs)@) == texts(old(funs)@) + row_texts(visible_cells(line.cells@), *old(pen)),
        *final(pen) == end_pen(visible_cells(line.cells@), *old(pen)),
{
    let groups = pen_chunks(line);
    let ghost vis = visible_cells(line.cells@);
    assert(groups@.skip(0) =~= groups@);
    let mut g: usize = 0;
    while g < groups.len()
        invariant
            g <= groups@.len(),
            pen_groups(groups@),
            joined_cells(groups@) == vis,
            vis == visible_cells(line.cells@),
            line.cells@.len() <= u16::MAX + 1,
            texts(funs@) + row_texts(joined_cells(groups@.skip(g as int)), *pen) == texts(old(funs)@) + row_texts(vis, *old(pen)),
            end_pen(joined_cells(groups@.skip(g as int)), *pen) == end_pen(vis, *old(pen)),
        decreases groups@.len() - g,
    {
        let cells = &groups[g];
        proof {
            lemma_row_step(groups@, g as int, *pen);
            lemma_group_len(groups@, g as int);
            lemma_visible_len(line.cells@);
        }
        let ghost before = funs@;
        let ghost p0 = *pen;
        if cells[0].pen != *pen {
            match to_sgr_diff(pen, &cells[0].pen) {
                Some(sgr) => push_fun(funs, sgr),
                None => {},
            }
            *pen = cells[0].pen;
        }
        proof {
            if p0 != cells@[0].pen {
                assert(texts(funs@) =~= texts(before) + pen_change(p0, cells@[0].pen));
            } else {
                assert(texts(before) + pen_change(p0, cells@[0].pen) =~= texts(before));
            }
        }
        let ghost mid = funs@;
        dump_cells(cells.as_slice(), funs);
        proof {
            assert(texts(funs@) =~= texts(mid) + texts(print_runs(cell_chars(cells@))));
            let rest = row_texts(joined_cells(groups@.skip(g + 1)), *pen);
            assert(texts(funs@) + rest
                =~= texts(before) + (pen_change(p0, cells@[0].pen) + texts(print_runs(cell_chars(cells@))) + rest));
        }
        g += 1;
    }
    proof {
        assert(groups@.skip(g as int).len() == 0);
        assert(texts(funs@) + row_texts(joined_cells(groups@.skip(g as int)), *pen) =~= texts(funs@));
    }
}

/// Appends the functions that draw the view of `buffer` from the top left
/// corner in the default pen: the cells of each row grouped by pen, each
/// group after the pen change it needs, and a new line after each row that
/// does not continue on the next; the blank rows at the end are left out.
pub fn dump_buffer(buffer: &Buffer, funs: &mut Vec<Function>)
    requires
        buffer.wf(),
        buffer.cols <= u16::MAX + 1,
    ensures
        texts(final(funs)@) == texts(old(funs)@) + buffer_texts(*buffer),
{
    let view = buffer.view();
    let mut cutoff: usize = 0;
    let mut wrapped = false;
    let mut i: usize = 0;
    while i < view.len()
        invariant
            i <= view@.len(),
            cutoff == kept_rows(view@.take(i as int)),
            wrapped == (i > 0 && view@[i - 1].wrapped),
        decreases view@.len() - i,
    {
        let line = &view[i];
        proof {
            let t = view@.take(i + 1);
            assert(t.drop_last() =~= view@.take(i as int));
            assert(t.last() == view@[i as int]);
            if i > 0 {
                assert(t[t.len() - 2] == view@[i - 1]);
            }
        }
        if wrapped || line.wrapped || !line.is_blank() {
            cutoff = i + 1;
        }
        wrapped = line.wrapped;
        i += 1;
    }
    assert(view@.take(i as int) =~= view@);
    let last = buffer.rows - 1;
    let mut pen = Pen::new();
    let ghost kept = view@.take(cutoff as int);
    proof {
        lemma_kept_rows_len(view@);
        assert(view@.subrange(0, cutoff as int) =~= kept);
    }
    let mut i: usize = 0;
    while i < cutoff
        invariant
            cutoff <= view@.len(),
            kept == view@.take(cutoff as int),
            view@ == buffer.lines@.subrange(buffer.top(), buffer.lines@.len() as int),
            buffer.wf(),
            buffer.cols <= u16::MAX + 1,
            last == buffer.rows - 1,
            i <= cutoff,
            texts(funs@) + lines_texts(view@.subrange(i as int, cutoff as int), i as int, last as int, pen)
                == texts(old(funs)@) + lines_texts(kept, 0, last as int, Pen::spec_default()),
        decreases cutoff - i,
    {
        let line = &view[i];
        proof {
            assert(crate::buffer::line_ok(buffer.lines@[buffer.top() + i], buffer.cols as nat));
            assert(line.cells@.len() == buffer.cols);
            assert(view@.subrange(i as int, cutoff as int).drop_first() =~= view@.subrange(i + 1, cutoff as int));
            assert(view@.subrange(i as int, cutoff as int)[0] == view@[i as int]);
        }
        let ghost before = funs@;
        let ghost p0 = pen;
        dump_row(line, &mut pen, funs);
        let ghost mid = funs@;
        if i < last && !line.wrapped {
            push_fun(funs, Function::Cr);
            push_fun(funs, Function::Lf);
        }
        proof {
            let nl: Seq<Seq<char>> = if i < last && !line.wrapped { seq![seq!['\r'], seq!['\n']] } else { Seq::empty() };
            assert(texts(funs@) =~= texts(mid) + nl);
            let rest = lines_texts(view@.subrange(i + 1, cutoff as int), i + 1, last as int, pen);
            assert(texts(funs@) + rest =~= texts(before) + (row_texts(visible_cells(line.cells@), p0) + nl + rest));
        }
        i += 1;
    }
    proof {
        assert(texts(funs@) + lines_texts(view@.subrange(i as int, cutoff as int), i as int, last as int, pen) =~= texts(funs@));
    }
}

/// A dump draws no more rows than the view has.
proof fn lemma_kept_rows_len(view: Seq<Line>)
    ensures
        kept_rows(view) <= view.len(),
    decreases view.len(),
{
    if view.len() > 0 {
        lemma_kept_rows_len(view.drop_last());
    }
}

/// The text of a control sequence with the one parameter `n`.
pub open spec fn num_text(n: nat, fin: char) -> Seq<char> {
    csi(Seq::empty(), decimal(n), fin)
}

/// The text that moves the cursor to row `row` and column `col`,
/// counted from 1.
pub open spec fn cup_text(row: nat, col: nat) -> Seq<char> {
    csi(Seq::empty(), decimal(row) + seq![';'] + decimal(col), 'H')
}

/// The text that sets (`fin` `h`) or resets (`fin` `l`) a DEC private mode.
pub open spec fn dec_text(m: DecMode, fin: char) -> Seq<char> {
    csi(seq!['?'], decimal(dec_mode_param(m) as nat), fin)
}

/// The text that sets an ANSI mode.
pub open spec fn ansi_text(m: AnsiMode) -> Seq<char> {
    csi(Seq::empty(), decimal(ansi_mode_param(m) as nat), 'h')
}

/// The text `t` when `b` holds, else nothing.
pub open spec fn if_texts(b: bool, t: Seq<char>) -> Seq<Seq<char>> {
    if b { seq![t] } else { Seq::empty() }
}

/// The texts that set the tab stops `stops`, each by moving to its column
/// and setting a stop there.
pub open spec fn tab_texts(stops: Seq<usize>) -> Seq<Seq<char>>
    decreases stops.len(),
{
    if stops.len() == 0 {
        Seq::empty()
    } else {
        tab_texts(stops.drop_last()) + seq![num_text((stops.last() + 1) as nat, 'G'), csi(Seq::empty(), seq!['0'], 'W')]
    }
}

/// The texts that save the cursor context `ctx`: its position, pen and
/// modes are set, saved, and the modes set back.
pub open spec fn ctx_texts(ctx: SavedCtx) -> Seq<Seq<char>> {
    if_texts(!ctx.auto_wrap_mode, dec_text(DecMode::AutoWrap, 'l'))
        + if_texts(ctx.origin_mode, dec_text(DecMode::Origin, 'h'))
        + seq![
            cup_text((ctx.cursor_row + 1) as nat, (ctx.cursor_col + 1) as nat),
            sgr_text(sgr_ops_of(ctx.pen)),
            esc(Seq::empty(), '7'),
        ]
        + if_texts(!ctx.auto_wrap_mode, dec_text(DecMode::AutoWrap, 'h'))
        + if_texts(ctx.origin_mode, dec_text(DecMode::Origin, 'l'))
}

/// Appending to a sum of texts appends to its last part.
proof fn lemma_append(a: Seq<Seq<char>>, b: Seq<Seq<char>>, c: Seq<Seq<char>>)
    ensures
        (a + b) + c == a + (b + c),
{
    assert((a + b) + c =~= a + (b + c));
}

/// Appends `f` when `b` holds.
fn push_when(funs: &mut Vec<Function>, b: bool, f: Function)
    ensures
        texts(final(funs)@) == texts(old(funs)@) + if_texts(b, encode(f)),
{
    let ghost e = encode(f);
    if b {
        push_fun(funs, f);
        assert(texts(funs@) =~= texts(old(funs)@) + if_texts(b, e));
    } else {
        assert(texts(funs@) =~= texts(old(funs)@) + if_texts(b, e));
    }
}

/// The function that sets (`set`) or resets the DEC private mode `m`.
fn dec_fun(m: DecMode, set: bool) -> (f: Function)
    ensures
        encode(f) == dec_text(m, if set { 'h' } else { 'l' }),
{
    let mut v: Vec<DecMode> = Vec::new();
    v.push(m);
    assert(v@.map_values(|m: DecMode| decimal(dec_mode_param(m) as nat)) =~= seq![decimal(dec_mode_param(m) as nat)]);
    if set { Function::Decset(v) } else { Function::Decrst(v) }
}

/// The function that sets the ANSI mode `m`.
fn ansi_fun(m: AnsiMode) -> (f: Function)
    ensures
        encode(f) == ansi_text(m),
{
    let mut v: Vec<AnsiMode> = Vec::new();
    v.push(m);
    assert(v@.map_values(|m: AnsiMode| decimal(ansi_mode_param(m) as nat)) =~= seq![decimal(ansi_mode_param(m) as nat)]);
    Function::Sm(v)
}

impl Terminal {
    /// The sizes the parameters of a dump can hold: the view's rows and
    /// columns (one past the last column for the cursor) and those of the
    /// other buffer are numbered within `u16`.
    pub open spec fn dump_fits(&self) -> bool {
        &&& self.cols < u16::MAX
        &&& self.rows <= u16::MAX
        &&& self.other_buffer.cols < u16::MAX
        &&& self.other_buffer.rows <= u16::MAX
    }

    /// The saved cursor context of the primary screen.
    pub open spec fn primary_ctx(&self) -> SavedCtx {
        if self.active_buffer_type == BufferType::Primary { self.saved_ctx } else { self.alternate_saved_ctx }
    }

    /// The saved cursor context of the alternate screen.
    pub open spec fn alternate_ctx(&self) -> SavedCtx {
        if self.active_buffer_type == BufferType::Primary { self.alternate_saved_ctx } else { self.saved_ctx }
    }

    /// The texts that set the tab stops, when they are not the default ones.
    pub open spec fn tabs_texts(&self) -> Seq<Seq<char>> {
        if self.tabs@ != default_stops(self.cols as nat) {
            seq![csi(Seq::empty(), seq!['5'], 'W')] + tab_texts(self.tabs@)
        } else {
            Seq::empty()
        }
    }

    /// The texts that bring the cursor into place: by its position, or,
    /// in origin mode outside the margins, by restoring the saved cursor
    /// and moving from there.
    pub open spec fn cursor_texts(&self) -> Seq<Seq<char>> {
        let col = self.cursor.col as int;
        let row = self.cursor.row as int;
        let scol = self.saved_ctx.cursor_col as int;
        let srow = self.saved_ctx.cursor_row as int;
        if self.origin_mode {
            if row < self.top_margin || row > self.bottom_margin {
                seq![csi(Seq::empty(), Seq::empty(), 'u')]
                    + (if col < scol {
                        seq![num_text((scol - col) as nat, 'D')]
                    } else if col > scol {
                        seq![num_text((col - scol) as nat, 'C')]
                    } else {
                        Seq::empty()
                    })
                    + (if row < srow {
                        seq![num_text((srow - row) as nat, 'A')]
                    } else if row > srow {
                        seq![num_text((row - srow) as nat, 'B')]
                    } else {
                        Seq::empty()
                    })
            } else {
                seq![cup_text((row - self.top_margin + 1) as nat, (col + 1) as nat)]
            }
        } else {
            seq![cup_text((row + 1) as nat, (col + 1) as nat)]
        }
    }

    /// With the cursor past the last column, the texts that print the last
    /// character of its row again, so that the next one wraps.
    pub open spec fn pending_texts(&self) -> Seq<Seq<char>> {
        if self.cursor.col >= self.cols {
            let cells = self.buffer.row(self.cursor.row as int).cells@;
            let last = cells[self.cols - 1];
            let prev = cells[self.cols - 2];
            if last.occupancy == Occupancy::Single {
                seq![sgr_text(sgr_ops_of(last.pen)), seq![last.ch]]
            } else if last.occupancy == Occupancy::WideTail {
                seq![num_text(1, 'D'), sgr_text(sgr_ops_of(prev.pen)), seq![prev.ch]]
            } else {
                Seq::empty()
            }
        } else {
            Seq::empty()
        }
    }

    /// The texts that set the pen, the cursor's visibility, the charsets
    /// and the modes.
    pub open spec fn modes_texts(&self) -> Seq<Seq<char>> {
        seq![sgr_text(sgr_ops_of(self.pen))]
            + if_texts(!self.cursor.visible, dec_text(DecMode::TextCursorEnable, 'l'))
            + if_texts(self.charsets@[0] == Charset::Drawing, esc(seq!['('], '0'))
            + if_texts(self.charsets@[1] == Charset::Drawing, esc(seq![')'], '0'))
            + if_texts(self.active_charset == 1, seq!['\u{0e}'])
            + if_texts(self.insert_mode, ansi_text(AnsiMode::Insert))
            + if_texts(!self.auto_wrap_mode, dec_text(DecMode::AutoWrap, 'l'))
            + if_texts(self.new_line_mode, ansi_text(AnsiMode::NewLine))
            + if_texts(self.cursor_keys_mode == CursorKeysMode::Application, dec_text(DecMode::CursorKeys, 'h'))
    }

    /// The texts of a dump: the primary screen, the tab stops, the saved
    /// cursors, the alternate screen when it is active, the margins, the
    /// cursor, the pen, the charsets and the modes.
    pub open spec fn dump_texts(&self) -> Seq<Seq<char>> {
        let pctx = self.primary_ctx();
        let actx = self.alternate_ctx();
        let alternate = self.active_buffer_type == BufferType::Alternate;
        buffer_texts(self.spec_primary())
            + self.tabs_texts()
            + (if !pctx.spec_is_default() { ctx_texts(pctx) } else { Seq::empty() })
            + seq![sgr_text(sgr_ops_of(Pen::spec_default()))]
            + if_texts(alternate || !actx.spec_is_default(), dec_text(DecMode::AltScreenBuffer, 'h'))
            + (if alternate { seq![cup_text(1, 1)] + buffer_texts(self.buffer) } else { Seq::empty() })
            + (if !actx.spec_is_default() { ctx_texts(actx) } else { Seq::empty() })
            + if_texts(!alternate && !actx.spec_is_default(), dec_text(DecMode::AltScreenBuffer, 'l'))
            + if_texts(self.origin_mode, dec_text(DecMode::Origin, 'h'))
            + if_texts(self.top_margin > 0 || self.bottom_margin < self.rows - 1,
                csi(Seq::empty(), decimal((self.top_margin + 1) as nat) + seq![';'] + decimal((self.bottom_margin + 1) as nat), 'r'))
            + self.cursor_texts()
            + self.pending_texts()
            + self.modes_texts()
    }

    /// Whether the parameters of a dump fit in `u16`.
    pub fn can_dump(&self) -> (b: bool)
        ensures
            b == self.dump_fits(),
    {
        self.cols < 65535 && self.rows <= 65535 && self.other_buffer.cols < 65535 && self.other_buffer.rows <= 65535
    }

    /// Appends the functions that bring a saved cursor context into place:
    /// position, pen and modes, saved, with the modes restored afterwards.
    fn dump_ctx(ctx: &SavedCtx, funs: &mut Vec<Function>)
        requires
            ctx.cursor_col < u16::MAX,
            ctx.cursor_row < u16::MAX,
        ensures
            texts(final(funs)@) == texts(old(funs)@) + ctx_texts(*ctx),
    {
        let ghost start = texts(funs@);
        push_when(funs, !ctx.auto_wrap_mode, dec_fun(DecMode::AutoWrap, false));
        push_when(funs, ctx.origin_mode, dec_fun(DecMode::Origin, true));
        push_fun(funs, Function::Cup(as_u16(ctx.cursor_row + 1), as_u16(ctx.cursor_col + 1)));
        push_fun(funs, to_sgr(&ctx.pen));
        push_fun(funs, Function::Decsc);
        push_when(funs, !ctx.auto_wrap_mode, dec_fun(DecMode::AutoWrap, true));
        push_when(funs, ctx.origin_mode, dec_fun(DecMode::Origin, false));
        assert(texts(funs@) =~= start + ctx_texts(*ctx));
    }

    /// Appends the functions that set the tab stops, when they are not the
    /// default ones.
    fn dump_tabs(&self, funs: &mut Vec<Function>)
        requires
            self.wf(),
            self.dump_fits(),
        ensures
            texts(final(funs)@) == texts(old(funs)@) + self.tabs_texts(),
    {
        let ghost start = texts(funs@);
        let default_tabs = Tabs::new(self.cols);
        if !self.tabs.eq(&default_tabs) {
            push_fun(funs, Function::Ctc(CtcOp::ClearAll));
            let stops = self.tabs.as_slice();
            let mut i: usize = 0;
            assert(stops@.take(0) =~= Seq::<usize>::empty());
            while i < stops.len()
                invariant
                    i <= stops@.len(),
                    stops@ == self.tabs@,
                    self.wf(),
                    self.dump_fits(),
                    texts(funs@) == start + seq![csi(Seq::empty(), seq!['5'], 'W')] + tab_texts(stops@.take(i as int)),
                decreases stops@.len() - i,
            {
                assert(stops@[i as int] < self.cols);
                push_fun(funs, Function::Cha(as_u16(stops[i] + 1)));
                push_fun(funs, Function::Ctc(CtcOp::SetTab));
                assert(stops@.take(i + 1).drop_last() =~= stops@.take(i as int));
                assert(texts(funs@) =~= start + seq![csi(Seq::empty(), seq!['5'], 'W')] + tab_texts(stops@.take(i + 1)));
                i += 1;
            }
            assert(stops@.take(i as int) =~= stops@);
            assert(texts(funs@) =~= start + self.tabs_texts());
        } else {
            assert(texts(funs@) =~= start + self.tabs_texts());
        }
    }

    /// Appends the functions that bring the cursor into place.
    fn dump_cursor(&self, funs: &mut Vec<Function>)
        requires
            self.wf(),
            self.dump_fits(),
        ensures
            texts(final(funs)@) == texts(old(funs)@) + self.cursor_texts(),
    {
        let ghost start = texts(funs@);
        let col = self.cursor.col;
        let row = self.cursor.row;
        if self.origin_mode {
            if row < self.top_margin || row > self.bottom_margin {
                push_fun(funs, Function::Scorc);
                if col < self.saved_ctx.cursor_col {
                    push_fun(funs, Function::Cub(as_u16(self.saved_ctx.cursor_col - col)));
                } else if col > self.saved_ctx.cursor_col {
                    push_fun(funs, Function::Cuf(as_u16(col - self.saved_ctx.cursor_col)));
                }
                if row < self.saved_ctx.cursor_row {
                    push_fun(funs, Function::Cuu(as_u16(self.saved_ctx.cursor_row - row)));
                } else if row > self.saved_ctx.cursor_row {
                    push_fun(funs, Function::Cud(as_u16(row - self.saved_ctx.cursor_row)));
                }
                assert(texts(funs@) =~= start + self.cursor_texts());
            } else {
                push_fun(funs, Function::Cup(as_u16(row - self.top_margin + 1), as_u16(col + 1)));
                assert(texts(funs@) =~= start + self.cursor_texts());
            }
        } else {
            push_fun(funs, Function::Cup(as_u16(row + 1), as_u16(col + 1)));
            assert(texts(funs@) =~= start + self.cursor_texts());
        }
    }

    /// With the cursor past the last column, appends the functions that
    /// print the last character of its row again.
    fn dump_pending(&self, funs: &mut Vec<Function>)
        requires
            self.wf(),
        ensures
            texts(final(funs)@) == texts(old(funs)@) + self.pending_texts(),
    {
        let ghost start = texts(funs@);
        if self.cursor.col >= self.cols {
            let last_cell = *self.buffer.cell(self.cols - 1, self.cursor.row);
            if last_cell.occupancy == Occupancy::Single {
                push_fun(funs, to_sgr(&last_cell.pen));
                push_fun(funs, Function::Print(last_cell.ch));
            } else if last_cell.occupancy == Occupancy::WideTail {
                let prev_cell = *self.buffer.cell(self.cols - 2, self.cursor.row);
                push_fun(funs, Function::Cub(1));
                push_fun(funs, to_sgr(&prev_cell.pen));
                push_fun(funs, Function::Print(prev_cell.ch));
            }
        }
        assert(texts(funs@) =~= start + self.pending_texts());
    }

    /// Appends the functions that set the pen, the cursor's visibility,
    /// the charsets and the modes.
    fn dump_modes(&self, funs: &mut Vec<Function>)
        ensures
            texts(final(funs)@) == texts(old(funs)@) + self.modes_texts(),
    {
        let ghost start = texts(funs@);
        push_fun(funs, to_sgr(&self.pen));
        let ghost mut acc: Seq<Seq<char>> = seq![sgr_text(sgr_ops_of(self.pen))];
        assert(texts(funs@) =~= start + acc);
        let f = dec_fun(DecMode::TextCursorEnable, false);
        push_when(funs, !self.cursor.visible, f);
        proof { lemma_append(start, acc, if_texts(!self.cursor.visible, encode(f))); acc = acc + if_texts(!self.cursor.visible, encode(f)); }
        let f = Function::Gzd4(Charset::Drawing);
        push_when(funs, self.charsets[0] == Charset::Drawing, f);
        proof { lemma_append(start, acc, if_texts(self.charsets@[0] == Charset::Drawing, encode(f))); acc = acc + if_texts(self.charsets@[0] == Charset::Drawing, encode(f)); }
        let f = Function::G1d4(Charset::Drawing);
        push_when(funs, self.charsets[1] == Charset::Drawing, f);
        proof { lemma_append(start, acc, if_texts(self.charsets@[1] == Charset::Drawing, encode(f))); acc = acc + if_texts(self.charsets@[1] == Charset::Drawing, encode(f)); }
        let f = Function::So;
        push_when(funs, self.active_charset == 1, f);
        proof { lemma_append(start, acc, if_texts(self.active_charset == 1, encode(f))); acc = acc + if_texts(self.active_charset == 1, encode(f)); }
        let f = ansi_fun(AnsiMode::Insert);
        push_when(funs, self.insert_mode, f);
        proof { lemma_append(start, acc, if_texts(self.insert_mode, encode(f))); acc = acc + if_texts(self.insert_mode, encode(f)); }
        let f = dec_fun(DecMode::AutoWrap, false);
        push_when(funs, !self.auto_wrap_mode, f);
        proof { lemma_append(start, acc, if_texts(!self.auto_wrap_mode, encode(f))); acc = acc + if_texts(!self.auto_wrap_mode, encode(f)); }
        let f = ansi_fun(AnsiMode::NewLine);
        push_when(funs, self.new_line_mode, f);
        proof { lemma_append(start, acc, if_texts(self.new_line_mode, encode(f))); acc = acc + if_texts(self.new_line_mode, encode(f)); }
        let f = dec_fun(DecMode::CursorKeys, true);
        let app = self.cursor_keys_mode == CursorKeysMode::Application;
        push_when(funs, app, f);
        proof { lemma_append(start, acc, if_texts(app, encode(f))); acc = acc + if_texts(app, encode(f)); }
        assert(acc == self.modes_texts());
    }

    /// The functions that bring a fresh terminal of the same size into this
    /// state: the primary screen, the tab stops, the saved cursors, the
    /// alternate screen when it is active, the margins, the cursor, the
    /// pen, the charsets and the modes.
    #[verifier::spinoff_prover]
    #[verifier::rlimit(40)]
    pub fn dump(&self) -> (funs: Vec<Function>)
        requires
            self.wf(),
            self.dump_fits(),
        ensures
            texts(funs@) == self.dump_texts(),
    {
        let (primary_ctx, alternate_ctx) = match self.active_buffer_type {
            BufferType::Primary => (&self.saved_ctx, &self.alternate_saved_ctx),
            BufferType::Alternate => (&self.alternate_saved_ctx, &self.saved_ctx),
        };
        let alternate = self.active_buffer_type == BufferType::Alternate;
        let mut funs: Vec<Function> = Vec::new();
        let primary = if self.active_buffer_type == BufferType::Primary { &self.buffer } else { &self.other_buffer };
        dump_buffer(primary, &mut funs);
        let ghost e = Seq::<Seq<char>>::empty();
        let ghost mut acc = buffer_texts(self.spec_primary());
        assert(texts(funs@) =~= e + acc);
        self.dump_tabs(&mut funs);
        proof { lemma_append(e, acc, self.tabs_texts()); acc = acc + self.tabs_texts(); }
        let ghost part = if !self.primary_ctx().spec_is_default() { ctx_texts(self.primary_ctx()) } else { Seq::empty() };
        let ghost t = texts(funs@);
        if !primary_ctx.is_default() {
            Terminal::dump_ctx(primary_ctx, &mut funs);
        } else {
            assert(texts(funs@) =~= t + part);
        }
        proof { lemma_append(e, acc, part); acc = acc + part; }
        let ghost t = texts(funs@);
        push_fun(&mut funs, to_sgr(&Pen::new()));
        proof {
            assert(texts(funs@) =~= t + seq![sgr_text(sgr_ops_of(Pen::spec_default()))]);
            lemma_append(e, acc, seq![sgr_text(sgr_ops_of(Pen::spec_default()))]);
            acc = acc + seq![sgr_text(sgr_ops_of(Pen::spec_default()))];
        }
        let f = dec_fun(DecMode::AltScreenBuffer, true);
        let b = alternate || !alternate_ctx.is_default();
        push_when(&mut funs, b, f);
        proof { lemma_append(e, acc, if_texts(b, encode(f))); acc = acc + if_texts(b, encode(f)); }
        let ghost part = if alternate { seq![cup_text(1, 1)] + buffer_texts(self.buffer) } else { Seq::empty() };
        let ghost t = texts(funs@);
        if alternate {
            push_fun(&mut funs, Function::Cup(1, 1));
            dump_buffer(&self.buffer, &mut funs);
            assert(texts(funs@) =~= t + part);
        } else {
            assert(texts(funs@) =~= t + part);
        }
        proof { lemma_append(e, acc, part); acc = acc + part; }
        let ghost part = if !self.alternate_ctx().spec_is_default() { ctx_texts(self.alternate_ctx()) } else { Seq::empty() };
        let ghost t = texts(funs@);
        if !alternate_ctx.is_default() {
            Terminal::dump_ctx(alternate_ctx, &mut funs);
        } else {
            assert(texts(funs@) =~= t + part);
        }
        proof { lemma_append(e, acc, part); acc = acc + part; }
        let f = dec_fun(DecMode::AltScreenBuffer, false);
        let b = !alternate && !alternate_ctx.is_default();
        push_when(&mut funs, b, f);
        proof { lemma_append(e, acc, if_texts(b, encode(f))); acc = acc + if_texts(b, encode(f)); }
        let f = dec_fun(DecMode::Origin, true);
        push_when(&mut funs, self.origin_mode, f);
        proof { lemma_append(e, acc, if_texts(self.origin_mode, encode(f))); acc = acc + if_texts(self.origin_mode, encode(f)); }
        let margins = self.top_margin > 0 || self.bottom_margin < self.rows - 1;
        let f = Function::Decstbm(as_u16(self.top_margin + 1), as_u16(self.bottom_margin + 1));
        push_when(&mut funs, margins, f);
        proof { lemma_append(e, acc, if_texts(margins, encode(f))); acc = acc + if_texts(margins, encode(f)); }
        self.dump_cursor(&mut funs);
        proof { lemma_append(e, acc, self.cursor_texts()); acc = acc + self.cursor_texts(); }
        self.dump_pending(&mut funs);
        proof { lemma_append(e, acc, self.pending_texts()); acc = acc + self.pending_texts(); }
        self.dump_modes(&mut funs);
        proof {
            lemma_append(e, acc, self.modes_texts());
            acc = acc + self.modes_texts();
            assert(e + acc =~= acc);
            assert(acc === self.dump_texts());
        }
        funs
    }
}

} // verus!
