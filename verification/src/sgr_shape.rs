use crate::function::SgrOp;
use crate::pen::{Intensity, Pen};
use crate::terminal_dump::{attr_diff, op_if, sgr_color_diff, sgr_diff_ops};
use vstd::prelude::*;

verus! {

/// 1 when `b` holds, else 0.
pub open spec fn one_if(b: bool) -> nat {
    if b { 1 } else { 0 }
}

/// The number of the pen's parts in which `p` and `q` differ: the
/// intensity, the two colors and the five attributes.
pub open spec fn parts_differing(p: Pen, q: Pen) -> nat {
    one_if(p.intensity != q.intensity) + one_if(p.foreground != q.foreground)
        + one_if(p.background != q.background) + one_if(p.spec_italic() != q.spec_italic())
        + one_if(p.spec_underline() != q.spec_underline()) + one_if(p.spec_blink() != q.spec_blink())
        + one_if(p.spec_inverse() != q.spec_inverse())
        + one_if(p.spec_strikethrough() != q.spec_strikethrough())
}

/// No change in `ops` is a reset.
#[verifier::opaque]
pub open spec fn no_reset(ops: Seq<SgrOp>) -> bool {
    forall|i: int| 0 <= i < ops.len() ==> #[trigger] ops[i] != SgrOp::Reset
}

proof fn lemma_no_reset_concat(a: Seq<SgrOp>, b: Seq<SgrOp>)
    requires
        no_reset(a),
        no_reset(b),
    ensures
        no_reset(a + b),
{
    reveal(no_reset);
    assert forall|i: int| 0 <= i < (a + b).len() implies #[trigger] (a + b)[i] != SgrOp::Reset by {
        if i < a.len() {
            assert((a + b)[i] == a[i]);
        } else {
            assert((a + b)[i] == b[i - a.len()]);
        }
    }
}

proof fn lemma_attr_diff_shape(from: bool, to: bool, set: SgrOp, reset: SgrOp)
    requires
        set != SgrOp::Reset,
        reset != SgrOp::Reset,
    ensures
        no_reset(attr_diff(from, to, set, reset)),
        attr_diff(from, to, set, reset).len() == one_if(from != to),
{
    reveal(no_reset);
}

proof fn lemma_color_diff_shape(p: Pen, q: Pen)
    ensures
        no_reset(sgr_color_diff(p, q)),
        sgr_color_diff(p, q).len() == one_if(p.intensity != q.intensity) + one_if(p.foreground != q.foreground)
            + one_if(p.background != q.background),
{
    reveal(no_reset);
    let c = sgr_color_diff(p, q);
    assert forall|i: int| 0 <= i < c.len() implies #[trigger] c[i] != SgrOp::Reset by {
        let o1 = op_if(p.intensity != q.intensity, match q.intensity {
            Intensity::Normal => SgrOp::ResetIntensity,
            Intensity::Bold => SgrOp::SetBoldIntensity,
            Intensity::Faint => SgrOp::SetFaintIntensity,
        });
        let o2 = op_if(p.foreground != q.foreground,
            match q.foreground { Some(x) => SgrOp::SetForegroundColor(x), None => SgrOp::ResetForegroundColor });
        let o3 = op_if(p.background != q.background,
            match q.background { Some(x) => SgrOp::SetBackgroundColor(x), None => SgrOp::ResetBackgroundColor });
        assert(c == o1 + o2 + o3);
        if i < o1.len() {
            assert(c[i] == o1[i]);
        } else if i < o1.len() + o2.len() {
            assert(c[i] == o2[i - o1.len()]);
        } else {
            assert(c[i] == o3[i - o1.len() - o2.len()]);
        }
    }
}

/// The changes between two pens are one per part in which they differ,
/// none of them a reset; between equal pens there are none.
pub proof fn lemma_sgr_diff_shape(p: Pen, q: Pen)
    ensures
        sgr_diff_ops(p, q).len() == parts_differing(p, q),
        no_reset(sgr_diff_ops(p, q)),
        p == q ==> sgr_diff_ops(p, q).len() == 0,
{
    let cd = sgr_color_diff(p, q);
    let ai = attr_diff(p.spec_italic(), q.spec_italic(), SgrOp::SetItalic, SgrOp::ResetItalic);
    let au = attr_diff(p.spec_underline(), q.spec_underline(), SgrOp::SetUnderline, SgrOp::ResetUnderline);
    let ab = attr_diff(p.spec_blink(), q.spec_blink(), SgrOp::SetBlink, SgrOp::ResetBlink);
    let av = attr_diff(p.spec_inverse(), q.spec_inverse(), SgrOp::SetInverse, SgrOp::ResetInverse);
    let as_ = attr_diff(p.spec_strikethrough(), q.spec_strikethrough(), SgrOp::SetStrikethrough, SgrOp::ResetStrikethrough);
    assert(sgr_diff_ops(p, q) == cd + ai + au + ab + av + as_);
    lemma_color_diff_shape(p, q);
    lemma_attr_diff_shape(p.spec_italic(), q.spec_italic(), SgrOp::SetItalic, SgrOp::ResetItalic);
    lemma_attr_diff_shape(p.spec_underline(), q.spec_underline(), SgrOp::SetUnderline, SgrOp::ResetUnderline);
    lemma_attr_diff_shape(p.spec_blink(), q.spec_blink(), SgrOp::SetBlink, SgrOp::ResetBlink);
    lemma_attr_diff_shape(p.spec_inverse(), q.spec_inverse(), SgrOp::SetInverse, SgrOp::ResetInverse);
    lemma_attr_diff_shape(p.spec_strikethrough(), q.spec_strikethrough(), SgrOp::SetStrikethrough, SgrOp::ResetStrikethrough);
    lemma_no_reset_concat(cd, ai);
    lemma_no_reset_concat(cd + ai, au);
    lemma_no_reset_concat(cd + ai + au, ab);
    lemma_no_reset_concat(cd + ai + au + ab, av);
    lemma_no_reset_concat(cd + ai + au + ab + av, as_);
}

} // verus!
