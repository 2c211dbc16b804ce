use crate::charset::Charset;
use crate::color::Color;
use vstd::prelude::*;

verus! {

/// A terminal function recognized by the parser, ready to be executed.
#[derive(Debug, PartialEq)]
pub enum Function {
    Bs,
    Cbt(u16),
    Cha(u16),
    Cht(u16),
    Cnl(u16),
    Cpl(u16),
    Cr,
    Ctc(CtcOp),
    Cub(u16),
    Cud(u16),
    Cuf(u16),
    Cup(u16, u16),
    Cuu(u16),
    Dch(u16),
    Decaln,
    Decrc,
    Decrst(Vec<DecMode>),
    Decsc,
    Decset(Vec<DecMode>),
    Decstbm(u16, u16),
    Decstr,
    Dl(u16),
    Ech(u16),
    Ed(EdScope),
    El(ElScope),
    G1d4(Charset),
    Gzd4(Charset),
    Ht,
    Hts,
    Ich(u16),
    Il(u16),
    Lf,
    Nel,
    Print(char),
    Rep(u16),
    Ri,
    Ris,
    Rm(Vec<AnsiMode>),
    Scorc,
    Scosc,
    Sd(u16),
    Sgr(SgrOps),
    Si,
    Sm(Vec<AnsiMode>),
    So,
    Su(u16),
    Tbc(TbcScope),
    Vpa(u16),
    Vpr(u16),
    Xtwinops(XtwinopsOp),
}

/// ANSI modes: insert (IRM, 4) and new line (LNM, 20).
#[derive(Debug, Copy, Clone, PartialEq, Eq, Structural)]
pub enum AnsiMode {
    Insert,
    NewLine,
}

/// Cursor tabulation control.
#[derive(Debug, Copy, Clone, PartialEq, Eq, Structural)]
pub enum CtcOp {
    SetTab,
    ClearCurrentColumn,
    ClearAll,
}

/// DEC private modes: 1, 6, 7, 25, 1047 (or 47), 1048, 1049.
#[derive(Debug, Copy, Clone, PartialEq, Eq, Structural)]
pub enum DecMode {
    CursorKeys,
    Origin,
    AutoWrap,
    TextCursorEnable,
    AltScreenBuffer,
    SaveCursor,
    SaveCursorAltScreenBuffer,
}

#[derive(Debug, Copy, Clone, PartialEq, Eq, Structural)]
pub enum EdScope {
    Below,
    Above,
    All,
    SavedLines,
}

#[derive(Debug, Copy, Clone, PartialEq, Eq, Structural)]
pub enum ElScope {
    ToRight,
    ToLeft,
    All,
}

/// One graphic rendition change.
#[derive(Debug, Copy, Clone, PartialEq, Eq, Structural)]
pub enum SgrOp {
    Reset,
    SetBoldIntensity,
    SetFaintIntensity,
    SetItalic,
    SetUnderline,
    SetBlink,
    SetInverse,
    SetStrikethrough,
    ResetIntensity,
    ResetItalic,
    ResetUnderline,
    ResetBlink,
    ResetInverse,
    ResetStrikethrough,
    SetForegroundColor(Color),
    ResetForegroundColor,
    SetBackgroundColor(Color),
    ResetBackgroundColor,
}

#[derive(Debug, Copy, Clone, PartialEq, Eq, Structural)]
pub enum TbcScope {
    CurrentColumn,
    All,
}

#[derive(Debug, Copy, Clone, PartialEq, Eq, Structural)]
pub enum XtwinopsOp {
    Resize(u16, u16),
}

/// A sequence of graphic rendition changes, applied in order.
#[derive(Debug, PartialEq)]
pub struct SgrOps {
    pub ops: Vec<SgrOp>,
}

impl View for SgrOps {
    type V = Seq<SgrOp>;

    open spec fn view(&self) -> Seq<SgrOp> {
        self.ops@
    }
}

impl SgrOps {
    pub fn new() -> (s: Self)
        ensures
            s@ == Seq::<SgrOp>::empty(),
    {
        SgrOps { ops: Vec::new() }
    }

    pub fn len(&self) -> (n: usize)
        ensures
            n == self@.len(),
    {
        self.ops.len()
    }

    pub fn is_empty(&self) -> (b: bool)
        ensures
            b == (self@.len() == 0),
    {
        self.ops.len() == 0
    }

    pub fn as_slice(&self) -> (s: &[SgrOp])
        ensures
            s@ == self@,
    {
        self.ops.as_slice()
    }

    pub fn push(&mut self, op: SgrOp)
        ensures
            final(self)@ == old(self)@.push(op),
    {
        self.ops.push(op);
    }

    /// The operations of `ops`, in order.
    pub fn from_slice(ops: &[SgrOp]) -> (s: Self)
        ensures
            s@ == ops@,
    {
        let mut v: Vec<SgrOp> = Vec::new();
        let mut i: usize = 0;
        while i < ops.len()
            invariant
                i <= ops@.len(),
                v@ == ops@.subrange(0, i as int),
            decreases ops@.len() - i,
        {
            v.push(ops[i]);
            i += 1;
            assert(v@ =~= ops@.subrange(0, i as int));
        }
        assert(ops@.subrange(0, ops@.len() as int) =~= ops@);
        SgrOps { ops: v }
    }

    /// The operations of `ops`, in order.
    pub fn from_vec(ops: Vec<SgrOp>) -> (s: Self)
        ensures
            s@ == ops@,
    {
        SgrOps { ops }
    }
}

} // verus!
