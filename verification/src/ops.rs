use crate::charset::Charset;
pub use crate::param::Param;
use vstd::prelude::*;

verus! {

/// An operation as a control sequence names it, with its raw parameters.
#[derive(Debug, PartialEq)]
pub enum Operation {
    Bs,
    Cbt(u16),
    Cha(u16),
    Cht(u16),
    Cnl(u16),
    Cpl(u16),
    Cr,
    Ctc(u16),
    Cub(u16),
    Cud(u16),
    Cuf(u16),
    Cup(u16, u16),
    Cuu(u16),
    Dch(u16),
    Decaln,
    Decstbm(u16, u16),
    Decstr,
    Dl(u16),
    Ech(u16),
    Ed(u16),
    El(u16),
    G1d4(Charset),
    Gzd4(Charset),
    Ht,
    Hts,
    Ich(u16),
    Il(u16),
    Lf,
    Nel,
    Print(char),
    PrvRm(Vec<u16>),
    PrvSm(Vec<u16>),
    Rc,
    Rep(u16),
    Ri,
    Ris,
    Rm(Vec<u16>),
    Sc,
    Sd(u16),
    Sgr(Vec<Param>),
    Si,
    Sm(Vec<u16>),
    So,
    Su(u16),
    Tbc(u16),
    Vpa(u16),
    Vpr(u16),
    Xtwinops(u16, u16, u16),
}

} // verus!
