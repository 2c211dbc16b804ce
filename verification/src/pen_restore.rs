//! Pens rebuilt from graphic rendition changes: the changes that a dump
//! writes for a pen give that pen back.
use crate::function::SgrOp;
use crate::pen::{Intensity, Pen};
use crate::terminal::{sgr_apply, sgr_apply_all};
use crate::terminal_dump::{attr_diff, op_if, sgr_color_diff, sgr_color_ops, sgr_diff_ops, sgr_ops_of};
use vstd::prelude::*;

verus! {

/// A pen whose attribute bits are all among the five the changes name
/// (italic, underline, strikethrough, blink, inverse), as every pen that
/// changes build is.
pub open spec fn pen_ok(p: Pen) -> bool {
    p.attrs < 32
}

/// Applying two runs of changes is applying the first, then the second.
proof fn lemma_apply_concat(p: Pen, a: Seq<SgrOp>, b: Seq<SgrOp>)
    ensures
        sgr_apply_all(p, a + b) == sgr_apply_all(sgr_apply_all(p, a), b),
    decreases b.len(),
{
    if b.len() == 0 {
        assert(a + b =~= a);
    } else {
        lemma_apply_concat(p, a, b.drop_last());
        assert((a + b).drop_last() =~= a + b.drop_last());
        assert((a + b).last() == b.last());
    }
}

/// Applying at most one change.
proof fn lemma_apply_opt(p: Pen, ops: Seq<SgrOp>)
    requires
        ops.len() <= 1,
    ensures
        sgr_apply_all(p, ops) == if ops.len() == 0 { p } else { sgr_apply(p, ops[0]) },
{
    if ops.len() == 1 {
        assert(ops.drop_last().len() == 0);
        assert(sgr_apply_all(p, ops.drop_last()) == p);
        assert(ops.last() == ops[0]);
    }
}

/// Turning on, one after the other, the attribute bits of `a` that the
/// changes name, starting from none, gives `a` back.
proof fn lemma_attrs_rebuilt(a: u8)
    requires
        a < 32,
    ensures
        ({
            let x1: u8 = if a & 1 != 0 { 0u8 | 1u8 } else { 0u8 };
            let x2: u8 = if a & 2 != 0 { x1 | 2u8 } else { x1 };
            let x3: u8 = if a & 8 != 0 { x2 | 8u8 } else { x2 };
            let x4: u8 = if a & 16 != 0 { x3 | 16u8 } else { x3 };
            let x5: u8 = if a & 4 != 0 { x4 | 4u8 } else { x4 };
            x5 == a
        }),
{
    assert({
        let x1: u8 = if a & 1 != 0 { 0u8 | 1u8 } else { 0u8 };
        let x2: u8 = if a & 2 != 0 { x1 | 2u8 } else { x1 };
        let x3: u8 = if a & 8 != 0 { x2 | 8u8 } else { x2 };
        let x4: u8 = if a & 16 != 0 { x3 | 16u8 } else { x3 };
        let x5: u8 = if a & 4 != 0 { x4 | 4u8 } else { x4 };
        a < 32 ==> x5 == a
    }) by (bit_vector);
}

/// Changing, one after the other, the attribute bits where `a` and `b`
/// differ, to those of `b`, turns `a` into `b`.
proof fn lemma_attrs_changed(a: u8, b: u8)
    requires
        a < 32,
        b < 32,
    ensures
        ({
            let x1: u8 = if (a & 1 != 0) != (b & 1 != 0) { if b & 1 != 0 { a | 1u8 } else { a & !1u8 } } else { a };
            let x2: u8 = if (a & 2 != 0) != (b & 2 != 0) { if b & 2 != 0 { x1 | 2u8 } else { x1 & !2u8 } } else { x1 };
            let x3: u8 = if (a & 8 != 0) != (b & 8 != 0) { if b & 8 != 0 { x2 | 8u8 } else { x2 & !8u8 } } else { x2 };
            let x4: u8 = if (a & 16 != 0) != (b & 16 != 0) { if b & 16 != 0 { x3 | 16u8 } else { x3 & !16u8 } } else { x3 };
            let x5: u8 = if (a & 4 != 0) != (b & 4 != 0) { if b & 4 != 0 { x4 | 4u8 } else { x4 & !4u8 } } else { x4 };
            x5 == b
        }),
{
    assert({
        let x1: u8 = if (a & 1 != 0) != (b & 1 != 0) { if b & 1 != 0 { a | 1u8 } else { a & !1u8 } } else { a };
        let x2: u8 = if (a & 2 != 0) != (b & 2 != 0) { if b & 2 != 0 { x1 | 2u8 } else { x1 & !2u8 } } else { x1 };
        let x3: u8 = if (a & 8 != 0) != (b & 8 != 0) { if b & 8 != 0 { x2 | 8u8 } else { x2 & !8u8 } } else { x2 };
        let x4: u8 = if (a & 16 != 0) != (b & 16 != 0) { if b & 16 != 0 { x3 | 16u8 } else { x3 & !16u8 } } else { x3 };
        let x5: u8 = if (a & 4 != 0) != (b & 4 != 0) { if b & 4 != 0 { x4 | 4u8 } else { x4 & !4u8 } } else { x4 };
        (a < 32 && b < 32) ==> x5 == b
    }) by (bit_vector);
}

/// The changes that a dump writes for a pen (a reset, then its colors,
/// intensity and attributes) rebuild that pen from any pen.
pub proof fn lemma_sgr_ops_restore(p: Pen, q: Pen)
    requires
        pen_ok(p),
    ensures
        sgr_apply_all(q, sgr_ops_of(p)) == p,
{
    let cs = sgr_color_ops(p);
    let oi = op_if(p.spec_italic(), SgrOp::SetItalic);
    let ou = op_if(p.spec_underline(), SgrOp::SetUnderline);
    let ob = op_if(p.spec_blink(), SgrOp::SetBlink);
    let ov = op_if(p.spec_inverse(), SgrOp::SetInverse);
    let os = op_if(p.spec_strikethrough(), SgrOp::SetStrikethrough);
    assert(sgr_ops_of(p) == cs + oi + ou + ob + ov + os);
    let p3 = sgr_apply_all(q, cs);
    assert(p3 == (Pen { attrs: 0, ..p })) by {
        lemma_color_ops_apply(p, q);
    }
    let a = p.attrs;
    let x1: u8 = if a & 1 != 0 { 0u8 | 1u8 } else { 0u8 };
    let x2: u8 = if a & 2 != 0 { x1 | 2u8 } else { x1 };
    let x3: u8 = if a & 8 != 0 { x2 | 8u8 } else { x2 };
    let x4: u8 = if a & 16 != 0 { x3 | 16u8 } else { x3 };
    let x5: u8 = if a & 4 != 0 { x4 | 4u8 } else { x4 };
    lemma_apply_concat(q, cs + oi + ou + ob + ov, os);
    lemma_apply_concat(q, cs + oi + ou + ob, ov);
    lemma_apply_concat(q, cs + oi + ou, ob);
    lemma_apply_concat(q, cs + oi, ou);
    lemma_apply_concat(q, cs, oi);
    let p4 = sgr_apply_all(p3, oi);
    assert(p4 == (Pen { attrs: x1, ..p })) by { lemma_apply_opt(p3, oi); }
    let p5 = sgr_apply_all(p4, ou);
    assert(p5 == (Pen { attrs: x2, ..p })) by { lemma_apply_opt(p4, ou); }
    let p6 = sgr_apply_all(p5, ob);
    assert(p6 == (Pen { attrs: x3, ..p })) by { lemma_apply_opt(p5, ob); }
    let p7 = sgr_apply_all(p6, ov);
    assert(p7 == (Pen { attrs: x4, ..p })) by { lemma_apply_opt(p6, ov); }
    let p8 = sgr_apply_all(p7, os);
    assert(p8 == (Pen { attrs: x5, ..p })) by { lemma_apply_opt(p7, os); }
    lemma_attrs_rebuilt(a);
}

/// The reset, colors and intensity of a pen's changes give, from any pen,
/// that pen without attributes.
proof fn lemma_color_ops_apply(p: Pen, q: Pen)
    ensures
        sgr_apply_all(q, sgr_color_ops(p)) == (Pen { attrs: 0, ..p }),
{
    let c0 = seq![SgrOp::Reset];
    let cf = match p.foreground { Some(c) => seq![SgrOp::SetForegroundColor(c)], None => Seq::<SgrOp>::empty() };
    let cb = match p.background { Some(c) => seq![SgrOp::SetBackgroundColor(c)], None => Seq::<SgrOp>::empty() };
    let ci = match p.intensity {
        Intensity::Normal => Seq::<SgrOp>::empty(),
        Intensity::Bold => seq![SgrOp::SetBoldIntensity],
        Intensity::Faint => seq![SgrOp::SetFaintIntensity],
    };
    assert(sgr_color_ops(p) == c0 + cf + cb + ci);
    lemma_apply_concat(q, c0 + cf + cb, ci);
    lemma_apply_concat(q, c0 + cf, cb);
    lemma_apply_concat(q, c0, cf);
    let p0 = sgr_apply_all(q, c0);
    assert(p0 == Pen::spec_default()) by { lemma_apply_opt(q, c0); }
    let p1 = sgr_apply_all(p0, cf);
    assert(p1 == (Pen { foreground: p.foreground, ..Pen::spec_default() })) by { lemma_apply_opt(p0, cf); }
    let p2 = sgr_apply_all(p1, cb);
    assert(p2 == (Pen { foreground: p.foreground, background: p.background, ..Pen::spec_default() })) by {
        lemma_apply_opt(p1, cb);
    }
    lemma_apply_opt(p2, ci);
}

/// The intensity and color changes between two pens give the first the
/// colors and intensity of the second.
proof fn lemma_color_diff_apply(p: Pen, q: Pen)
    ensures
        sgr_apply_all(p, sgr_color_diff(p, q)) == (Pen { attrs: p.attrs, ..q }),
{
    let di = op_if(p.intensity != q.intensity, match q.intensity {
        Intensity::Normal => SgrOp::ResetIntensity,
        Intensity::Bold => SgrOp::SetBoldIntensity,
        Intensity::Faint => SgrOp::SetFaintIntensity,
    });
    let df = op_if(p.foreground != q.foreground,
        match q.foreground { Some(c) => SgrOp::SetForegroundColor(c), None => SgrOp::ResetForegroundColor });
    let db = op_if(p.background != q.background,
        match q.background { Some(c) => SgrOp::SetBackgroundColor(c), None => SgrOp::ResetBackgroundColor });
    assert(sgr_color_diff(p, q) == di + df + db);
    lemma_apply_concat(p, di + df, db);
    lemma_apply_concat(p, di, df);
    let p1 = sgr_apply_all(p, di);
    lemma_apply_opt(p, di);
    let p2 = sgr_apply_all(p1, df);
    lemma_apply_opt(p1, df);
    lemma_apply_opt(p2, db);
}

/// The attribute part of `sgr_diff_ops`.
pub open spec fn attr_diff_ops(from: Pen, to: Pen) -> Seq<SgrOp> {
    attr_diff(from.spec_italic(), to.spec_italic(), SgrOp::SetItalic, SgrOp::ResetItalic)
        + attr_diff(from.spec_underline(), to.spec_underline(), SgrOp::SetUnderline, SgrOp::ResetUnderline)
        + attr_diff(from.spec_blink(), to.spec_blink(), SgrOp::SetBlink, SgrOp::ResetBlink)
        + attr_diff(from.spec_inverse(), to.spec_inverse(), SgrOp::SetInverse, SgrOp::ResetInverse)
        + attr_diff(from.spec_strikethrough(), to.spec_strikethrough(), SgrOp::SetStrikethrough, SgrOp::ResetStrikethrough)
}

/// The attribute changes from `x` to `q` give `x` the attribute bits of `q`.
#[verifier::rlimit(60)]
proof fn lemma_attr_diff_apply(x: Pen, q: Pen)
    requires
        pen_ok(x),
        pen_ok(q),
    ensures
        sgr_apply_all(x, attr_diff_ops(x, q)) == (Pen { attrs: q.attrs, ..x }),
{
    let ai = attr_diff(x.spec_italic(), q.spec_italic(), SgrOp::SetItalic, SgrOp::ResetItalic);
    let au = attr_diff(x.spec_underline(), q.spec_underline(), SgrOp::SetUnderline, SgrOp::ResetUnderline);
    let ab = attr_diff(x.spec_blink(), q.spec_blink(), SgrOp::SetBlink, SgrOp::ResetBlink);
    let av = attr_diff(x.spec_inverse(), q.spec_inverse(), SgrOp::SetInverse, SgrOp::ResetInverse);
    let as_ = attr_diff(x.spec_strikethrough(), q.spec_strikethrough(), SgrOp::SetStrikethrough, SgrOp::ResetStrikethrough);
    let a = x.attrs;
    let b = q.attrs;
    let x1: u8 = if (a & 1 != 0) != (b & 1 != 0) { if b & 1 != 0 { a | 1u8 } else { a & !1u8 } } else { a };
    let x2: u8 = if (a & 2 != 0) != (b & 2 != 0) { if b & 2 != 0 { x1 | 2u8 } else { x1 & !2u8 } } else { x1 };
    let x3: u8 = if (a & 8 != 0) != (b & 8 != 0) { if b & 8 != 0 { x2 | 8u8 } else { x2 & !8u8 } } else { x2 };
    let x4: u8 = if (a & 16 != 0) != (b & 16 != 0) { if b & 16 != 0 { x3 | 16u8 } else { x3 & !16u8 } } else { x3 };
    let x5: u8 = if (a & 4 != 0) != (b & 4 != 0) { if b & 4 != 0 { x4 | 4u8 } else { x4 & !4u8 } } else { x4 };
    assert(attr_diff_ops(x, q) == ai + au + ab + av + as_);
    lemma_apply_concat(x, ai + au + ab + av, as_);
    lemma_apply_concat(x, ai + au + ab, av);
    lemma_apply_concat(x, ai + au, ab);
    lemma_apply_concat(x, ai, au);
    let p4 = sgr_apply_all(x, ai);
    assert(p4 == (Pen { attrs: x1, ..x })) by { lemma_apply_opt(x, ai); }
    let p5 = sgr_apply_all(p4, au);
    assert(p5 == (Pen { attrs: x2, ..x })) by { lemma_apply_opt(p4, au); }
    let p6 = sgr_apply_all(p5, ab);
    assert(p6 == (Pen { attrs: x3, ..x })) by { lemma_apply_opt(p5, ab); }
    let p7 = sgr_apply_all(p6, av);
    assert(p7 == (Pen { attrs: x4, ..x })) by { lemma_apply_opt(p6, av); }
    let p8 = sgr_apply_all(p7, as_);
    assert(p8 == (Pen { attrs: x5, ..x })) by { lemma_apply_opt(p7, as_); }
    lemma_attrs_changed(a, b);
}

/// The changes that a dump writes between two pens turn the first into
/// the second.
pub proof fn lemma_sgr_diff_restore(p: Pen, q: Pen)
    requires
        pen_ok(p),
        pen_ok(q),
    ensures
        sgr_apply_all(p, sgr_diff_ops(p, q)) == q,
{
    let cd = sgr_color_diff(p, q);
    let ai = attr_diff(p.spec_italic(), q.spec_italic(), SgrOp::SetItalic, SgrOp::ResetItalic);
    let au = attr_diff(p.spec_underline(), q.spec_underline(), SgrOp::SetUnderline, SgrOp::ResetUnderline);
    let ab = attr_diff(p.spec_blink(), q.spec_blink(), SgrOp::SetBlink, SgrOp::ResetBlink);
    let av = attr_diff(p.spec_inverse(), q.spec_inverse(), SgrOp::SetInverse, SgrOp::ResetInverse);
    let as_ = attr_diff(p.spec_strikethrough(), q.spec_strikethrough(), SgrOp::SetStrikethrough, SgrOp::ResetStrikethrough);
    assert(sgr_diff_ops(p, q) == cd + ai + au + ab + av + as_);
    lemma_apply_concat(p, cd + ai + au + ab + av, as_);
    lemma_apply_concat(p, cd + ai + au + ab, av);
    lemma_apply_concat(p, cd + ai + au, ab);
    lemma_apply_concat(p, cd + ai, au);
    lemma_apply_concat(p, cd, ai);
    let x = sgr_apply_all(p, cd);
    assert(x == (Pen { attrs: p.attrs, ..q })) by {
        lemma_color_diff_apply(p, q);
    }
    assert(attr_diff_ops(x, q) == ai + au + ab + av + as_);
    lemma_apply_concat(x, ai + au + ab + av, as_);
    lemma_apply_concat(x, ai + au + ab, av);
    lemma_apply_concat(x, ai + au, ab);
    lemma_apply_concat(x, ai, au);
    lemma_attr_diff_apply(x, q);
}

} // verus!
