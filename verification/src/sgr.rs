use crate::color::{Color, Rgb};
use crate::function::{SgrOp, SgrOps};
use crate::param::Param;
use vstd::prelude::*;

verus! {

/// The parts of each parameter.
pub open spec fn views(ps: Seq<Param>) -> Seq<Seq<u16>> {
    ps.map_values(|p: Param| p@)
}

pub open spec fn all_wf(ps: Seq<Param>) -> bool {
    forall|k: int| 0 <= k < ps.len() ==> #[trigger] ps[k].wf()
}

/// The operation selected by a parameter with a single part `n`
/// (other than the extended-color introducers 38 and 48).
pub open spec fn sgr_single(n: u16) -> Option<SgrOp> {
    if n == 0 { Some(SgrOp::Reset) }
    else if n == 1 { Some(SgrOp::SetBoldIntensity) }
    else if n == 2 { Some(SgrOp::SetFaintIntensity) }
    else if n == 3 { Some(SgrOp::SetItalic) }
    else if n == 4 { Some(SgrOp::SetUnderline) }
    else if n == 5 { Some(SgrOp::SetBlink) }
    else if n == 7 { Some(SgrOp::SetInverse) }
    else if n == 9 { Some(SgrOp::SetStrikethrough) }
    else if n == 21 || n == 22 { Some(SgrOp::ResetIntensity) }
    else if n == 23 { Some(SgrOp::ResetItalic) }
    else if n == 24 { Some(SgrOp::ResetUnderline) }
    else if n == 25 { Some(SgrOp::ResetBlink) }
    else if n == 27 { Some(SgrOp::ResetInverse) }
    else if n == 29 { Some(SgrOp::ResetStrikethrough) }
    else if 30 <= n <= 37 { Some(SgrOp::SetForegroundColor(Color::Indexed((n - 30) as u8))) }
    else if n == 39 { Some(SgrOp::ResetForegroundColor) }
    else if 40 <= n <= 47 { Some(SgrOp::SetBackgroundColor(Color::Indexed((n - 40) as u8))) }
    else if n == 49 { Some(SgrOp::ResetBackgroundColor) }
    else if 90 <= n <= 97 { Some(SgrOp::SetForegroundColor(Color::Indexed((n - 90 + 8) as u8))) }
    else if 100 <= n <= 107 { Some(SgrOp::SetBackgroundColor(Color::Indexed((n - 100 + 8) as u8))) }
    else { None }
}

/// Sets the foreground (`fg`) or the background color.
pub open spec fn color_op(fg: bool, c: Color) -> SgrOp {
    if fg { SgrOp::SetForegroundColor(c) } else { SgrOp::SetBackgroundColor(c) }
}

/// The 24-bit color with the (truncated) channels.
pub open spec fn rgb_of(r: u16, g: u16, b: u16) -> Color {
    Color::RGB(Rgb { r: r as u8, g: g as u8, b: b as u8 })
}

/// A lone `38` (`fg`) or `48` at the head of `ps`, with the color given in
/// the following `;`-separated parameters: `2;r;g;b` or `5;idx`.
pub open spec fn sgr_extended(ps: Seq<Seq<u16>>, fg: bool) -> (Option<SgrOp>, int) {
    if ps.len() < 2 {
        (None, 1)
    } else if ps[1] == seq![2u16] {
        if ps.len() > 4 {
            (Some(color_op(fg, rgb_of(ps[2][0], ps[3][0], ps[4][0]))), 5)
        } else {
            (None, 2)
        }
    } else if ps[1] == seq![5u16] {
        if ps.len() > 2 {
            (Some(color_op(fg, Color::Indexed(ps[2][0] as u8))), 3)
        } else {
            (None, 2)
        }
    } else {
        (None, 1)
    }
}

/// The operation (if any) that the parameters at the head of `ps` select,
/// and how many parameters they take.
pub open spec fn sgr_step(ps: Seq<Seq<u16>>) -> (Option<SgrOp>, int) {
    let p = ps[0];
    if p == seq![38u16] {
        sgr_extended(ps, true)
    } else if p == seq![48u16] {
        sgr_extended(ps, false)
    } else if p.len() == 1 {
        (sgr_single(p[0]), 1)
    } else if p.len() >= 2 && (p[0] == 38 || p[0] == 48) && p[1] == 2 && p.len() == 5 {
        (Some(color_op(p[0] == 38, rgb_of(p[2], p[3], p[4]))), 1)
    } else if p.len() >= 2 && (p[0] == 38 || p[0] == 48) && p[1] == 2 && p.len() == 6 {
        (Some(color_op(p[0] == 38, rgb_of(p[3], p[4], p[5]))), 1)
    } else if p.len() >= 2 && (p[0] == 38 || p[0] == 48) && p[1] == 5 && p.len() == 3 {
        (Some(color_op(p[0] == 38, Color::Indexed(p[2] as u8))), 1)
    } else {
        (None, 1)
    }
}

pub proof fn lemma_sgr_step_bounds(ps: Seq<Seq<u16>>)
    requires
        ps.len() > 0,
    ensures
        1 <= sgr_step(ps).1 <= ps.len(),
{
}

pub open spec fn opt_seq(o: Option<SgrOp>) -> Seq<SgrOp> {
    match o {
        Some(op) => seq![op],
        None => Seq::empty(),
    }
}

/// The graphic rendition operations that the parameters `ps` of an SGR
/// sequence (`CSI ... m`) select, in order; unknown parameters are skipped.
pub open spec fn sgr_decode(ps: Seq<Seq<u16>>) -> Seq<SgrOp>
    decreases ps.len(),
{
    if ps.len() == 0 {
        Seq::empty()
    } else {
        proof {
            lemma_sgr_step_bounds(ps);
        }
        opt_seq(sgr_step(ps).0) + sgr_decode(ps.skip(sgr_step(ps).1))
    }
}

fn is_single(p: &[u16], n: u16) -> (b: bool)
    ensures
        b == (p@ == seq![n]),
{
    if p.len() == 1 && p[0] == n {
        assert(p@ =~= seq![n]);
        true
    } else {
        false
    }
}

fn single_op(n: u16) -> (r: Option<SgrOp>)
    ensures
        r == sgr_single(n),
{
    if n == 0 { Some(SgrOp::Reset) }
    else if n == 1 { Some(SgrOp::SetBoldIntensity) }
    else if n == 2 { Some(SgrOp::SetFaintIntensity) }
    else if n == 3 { Some(SgrOp::SetItalic) }
    else if n == 4 { Some(SgrOp::SetUnderline) }
    else if n == 5 { Some(SgrOp::SetBlink) }
    else if n == 7 { Some(SgrOp::SetInverse) }
    else if n == 9 { Some(SgrOp::SetStrikethrough) }
    else if n == 21 || n == 22 { Some(SgrOp::ResetIntensity) }
    else if n == 23 { Some(SgrOp::ResetItalic) }
    else if n == 24 { Some(SgrOp::ResetUnderline) }
    else if n == 25 { Some(SgrOp::ResetBlink) }
    else if n == 27 { Some(SgrOp::ResetInverse) }
    else if n == 29 { Some(SgrOp::ResetStrikethrough) }
    else if 30 <= n && n <= 37 { Some(SgrOp::SetForegroundColor(Color::Indexed((n - 30) as u8))) }
    else if n == 39 { Some(SgrOp::ResetForegroundColor) }
    else if 40 <= n && n <= 47 { Some(SgrOp::SetBackgroundColor(Color::Indexed((n - 40) as u8))) }
    else if n == 49 { Some(SgrOp::ResetBackgroundColor) }
    else if 90 <= n && n <= 97 { Some(SgrOp::SetForegroundColor(Color::Indexed((n - 90 + 8) as u8))) }
    else if 100 <= n && n <= 107 { Some(SgrOp::SetBackgroundColor(Color::Indexed((n - 100 + 8) as u8))) }
    else { None }
}

fn make_color_op(fg: bool, c: Color) -> (op: SgrOp)
    ensures
        op == color_op(fg, c),
{
    if fg { SgrOp::SetForegroundColor(c) } else { SgrOp::SetBackgroundColor(c) }
}

fn extended_at(ps: &[Param], i: usize, fg: bool) -> (r: (Option<SgrOp>, usize))
    requires
        i < ps@.len(),
        all_wf(ps@),
    ensures
        (r.0, r.1 as int) == sgr_extended(views(ps@).skip(i as int), fg),
{
    let ghost vs = views(ps@).skip(i as int);
    assert(vs.len() == ps@.len() - i);
    if ps.len() - i >= 2 {
        assert(vs[1] == ps@[i + 1]@);
    }
    if ps.len() - i >= 3 {
        assert(vs[2] == ps@[i + 2]@);
        assert(ps@[i + 2].wf());
        assert(vs[2][0] == ps@[i + 2].parts@[0]);
    }
    if ps.len() - i >= 5 {
        assert(vs[3] == ps@[i + 3]@);
        assert(ps@[i + 3].wf());
        assert(vs[3][0] == ps@[i + 3].parts@[0]);
        assert(vs[4] == ps@[i + 4]@);
        assert(ps@[i + 4].wf());
        assert(vs[4][0] == ps@[i + 4].parts@[0]);
    }
    if ps.len() - i < 2 {
        (None, 1)
    } else if is_single(ps[i + 1].parts(), 2) {
        if ps.len() - i > 4 {
            let r = ps[i + 2].as_u16();
            let g = ps[i + 3].as_u16();
            let b = ps[i + 4].as_u16();
            (Some(make_color_op(fg, Color::RGB(Rgb { r: r as u8, g: g as u8, b: b as u8 }))), 5)
        } else {
            (None, 2)
        }
    } else if is_single(ps[i + 1].parts(), 5) {
        if ps.len() - i > 2 {
            let idx = ps[i + 2].as_u16();
            (Some(make_color_op(fg, Color::Indexed(idx as u8))), 3)
        } else {
            (None, 2)
        }
    } else {
        (None, 1)
    }
}

fn step_at(ps: &[Param], i: usize) -> (r: (Option<SgrOp>, usize))
    requires
        i < ps@.len(),
        all_wf(ps@),
    ensures
        (r.0, r.1 as int) == sgr_step(views(ps@).skip(i as int)),
{
    let ghost vs = views(ps@).skip(i as int);
    assert(vs[0] == ps@[i as int]@);
    assert(ps@[i as int].wf());
    let p = ps[i].parts();
    if is_single(p, 38) {
        extended_at(ps, i, true)
    } else if is_single(p, 48) {
        extended_at(ps, i, false)
    } else if p.len() == 1 {
        (single_op(p[0]), 1)
    } else if p.len() >= 2 && (p[0] == 38 || p[0] == 48) && p[1] == 2 && p.len() == 5 {
        (Some(make_color_op(p[0] == 38, Color::RGB(Rgb { r: p[2] as u8, g: p[3] as u8, b: p[4] as u8 }))), 1)
    } else if p.len() >= 2 && (p[0] == 38 || p[0] == 48) && p[1] == 2 && p.len() == 6 {
        (Some(make_color_op(p[0] == 38, Color::RGB(Rgb { r: p[3] as u8, g: p[4] as u8, b: p[5] as u8 }))), 1)
    } else if p.len() >= 2 && (p[0] == 38 || p[0] == 48) && p[1] == 5 && p.len() == 3 {
        (Some(make_color_op(p[0] == 38, Color::Indexed(p[2] as u8))), 1)
    } else {
        (None, 1)
    }
}

/// Decodes the parameters of an SGR sequence into rendition operations.
pub fn decode_sgr(ps: &[Param]) -> (ops: SgrOps)
    requires
        all_wf(ps@),
    ensures
        ops@ == sgr_decode(views(ps@)),
{
    let mut ops = SgrOps::new();
    let mut i: usize = 0;
    assert(views(ps@).skip(0) =~= views(ps@));
    while i < ps.len()
        invariant
            i <= ps@.len(),
            all_wf(ps@),
            ops@ + sgr_decode(views(ps@).skip(i as int)) == sgr_decode(views(ps@)),
        decreases ps@.len() - i,
    {
        let ghost rest = views(ps@).skip(i as int);
        let (op, n) = step_at(ps, i);
        proof {
            lemma_sgr_step_bounds(rest);
            assert(rest.skip(n as int) =~= views(ps@).skip(i + n));
            assert(sgr_decode(rest) == opt_seq(op) + sgr_decode(rest.skip(n as int)));
        }
        let ghost before = ops@;
        match op {
            Some(o) => {
                ops.push(o);
            },
            None => {},
        }
        assert(ops@ =~= before + opt_seq(op));
        assert(before + (opt_seq(op) + sgr_decode(views(ps@).skip(i + n))) =~= ops@ + sgr_decode(views(ps@).skip(i + n)));
        i = i + n;
    }
    assert(views(ps@).skip(i as int) =~= Seq::<Seq<u16>>::empty());
    assert(ops@ + Seq::<SgrOp>::empty() =~= ops@);
    ops
}

} // verus!
